//! Feature collections and their two ways to and from JSON.

use vstd::prelude::*;
use crate::errors::{Error, ErrorView};
use crate::feature::{features_of, get_features, views_of, Feature, FeatureView};
use crate::json::{
    from_array, from_number, from_object, from_string, json_of, members_of, object_insert,
    object_new, trees_of, Json, JsonNumber, JsonObject, JsonValue, Members,
};
use crate::members::{
    distinct_keys, has_key, lemma_distinct_before, lemma_value_at_without,
    lemma_without_keeps_absent, lemma_without_push, put, put_all, without,
};
use crate::util::{
    bbox_of, expect_type, get_bbox, get_foreign_members, insert_all, is_tag, remainder_of,
    tag_of,
};

verus! {

/// A bounding box: the numbers of a `bbox` member, in their order.
pub type Bbox = Vec<JsonNumber>;

/// A collection of features.
///
/// The type tag of the JSON object, `FeatureCollection`, is no field: it is
/// asked for when an object is read and written when one is made.
#[derive(Clone, Debug, PartialEq)]
pub struct FeatureCollection {
    /// The bounding box, where the collection has one.
    pub bbox: Option<Bbox>,
    /// The features, in their order. The same feature may stand twice.
    pub features: Vec<Feature>,
    /// The members of the JSON object other than `type`, `bbox` and
    /// `features`, in the order in which they came; `None` where there are
    /// none.
    pub foreign_members: Option<JsonObject>,
}

/// A [`FeatureCollection`] with what it holds.
pub struct FeatureCollectionView {
    pub bbox: Option<Seq<JsonNumber>>,
    pub features: Seq<FeatureView>,
    pub foreign_members: Option<Members>,
}

impl View for FeatureCollection {
    type V = FeatureCollectionView;

    open spec fn view(&self) -> FeatureCollectionView {
        FeatureCollectionView {
            bbox: match self.bbox {
                Some(numbers) => Some(numbers@),
                None => None,
            },
            features: views_of(self.features@),
            foreign_members: match self.foreign_members {
                Some(object) => Some(members_of(object)),
                None => None,
            },
        }
    }
}

/// Whether a key is one of the three that a collection reads itself.
pub open spec fn is_reserved(key: Seq<char>) -> bool {
    key == "type"@ || key == "bbox"@ || key == "features"@
}

/// The members under keys other than the reserved ones, in their order.
pub open spec fn foreign_of(members: Members) -> Members {
    members.filter(|member: (Seq<char>, Json)| !is_reserved(member.0))
}

/// The array that a bounding box is written as.
pub open spec fn bbox_json(numbers: Seq<JsonNumber>) -> Json {
    Json::Array(numbers.map_values(|number: JsonNumber| Json::Number(number)))
}

/// The array that a run of features is written as.
pub open spec fn features_json(features: Seq<FeatureView>) -> Json {
    Json::Array(features.map_values(|feature: FeatureView| feature.to_json()))
}

impl FeatureCollectionView {
    /// Whether the collection could have been read from a JSON object: each
    /// feature is well formed, and the foreign members, where there are any,
    /// are not empty, have no key twice and none of the reserved keys.
    ///
    /// The bounding box is not looked at. A box is meant to hold an even
    /// count of numbers, four or more, but reading does not ask for that and
    /// writing does not need it.
    pub open spec fn well_formed(self) -> bool {
        &&& forall|i: int| 0 <= i < self.features.len() ==> (#[trigger] self.features[i]).well_formed()
        &&& match self.foreign_members {
            Some(members) => {
                &&& members.len() > 0
                &&& distinct_keys(members)
                &&& forall|i: int| 0 <= i < members.len() ==> !is_reserved((#[trigger] members[i]).0)
            },
            None => true,
        }
    }

    /// The members of the JSON object that [`FeatureCollection::to_json_object`]
    /// makes: the type tag, the features, the bounding box where there is
    /// one, then the foreign members.
    pub open spec fn to_members(self) -> Members {
        let tagged = seq![("type"@, Json::String("FeatureCollection"@))];
        let with_features = put(tagged, "features"@, features_json(self.features));
        let with_bbox = match self.bbox {
            Some(numbers) => put(with_features, "bbox"@, bbox_json(numbers)),
            None => with_features,
        };
        match self.foreign_members {
            Some(members) => put_all(with_bbox, members),
            None => with_bbox,
        }
    }

    /// The members of the JSON object that [`FeatureCollection::serialize`]
    /// makes: the type tag, the bounding box where there is one, the foreign
    /// members, then the features.
    pub open spec fn serialized(self) -> Members {
        let tagged = seq![("type"@, Json::String("FeatureCollection"@))];
        let with_bbox = match self.bbox {
            Some(numbers) => put(tagged, "bbox"@, bbox_json(numbers)),
            None => tagged,
        };
        let with_foreign = match self.foreign_members {
            Some(members) => put_all(with_bbox, members),
            None => with_bbox,
        };
        put(with_foreign, "features"@, features_json(self.features))
    }

    /// The collection that the members of a JSON object are read as. The
    /// type tag is asked for first, then the bounding box, then the
    /// features; the members under all other keys are the foreign members.
    pub open spec fn from_members(members: Members) -> Result<FeatureCollectionView, ErrorView> {
        match tag_of(members) {
            Err(error) => Err(error),
            Ok(tag) => if tag != "FeatureCollection"@ {
                Err(ErrorView::ExpectedType { expected: "FeatureCollection"@, actual: tag })
            } else {
                match bbox_of(members) {
                    Err(error) => Err(error),
                    Ok(bbox) => match features_of(members) {
                        Err(error) => Err(error),
                        Ok(features) => Ok(
                            FeatureCollectionView {
                                bbox,
                                features,
                                foreign_members: remainder_of(foreign_of(members)),
                            },
                        ),
                    },
                }
            },
        }
    }

    /// The collection that a tree is read as: the tree has to be an object.
    pub open spec fn from_json(value: Json) -> Result<FeatureCollectionView, ErrorView> {
        match value {
            Json::Object(members) => FeatureCollectionView::from_members(members),
            other => Err(ErrorView::GeoJsonExpectedObject(other)),
        }
    }
}

/// The three reserved keys are three different texts.
pub proof fn lemma_reserved_keys()
    ensures
        "type"@ != "bbox"@,
        "type"@ != "features"@,
        "bbox"@ != "features"@,
{
    reveal_strlit("type");
    reveal_strlit("bbox");
    reveal_strlit("features");
    assert("type"@.len() == 4);
    assert("features"@.len() == 8);
    assert("type"@[0] == 't');
    assert("bbox"@[0] == 'b');
}

/// Taking the three reserved keys out of members with distinct keys, one
/// after the other, leaves the members under the other keys in their order.
pub proof fn lemma_foreign_of(members: Members)
    requires
        distinct_keys(members),
    ensures
        without(without(without(members, "type"@), "bbox"@), "features"@) == foreign_of(members),
    decreases members.len(),
{
    lemma_reserved_keys();
    reveal(Seq::filter);
    if members.len() > 0 {
        let before = members.drop_last();
        let last = members.last();
        assert(members == before.push(last));
        assert(distinct_keys(before)) by {
            assert forall|i: int, j: int| 0 <= i < j < before.len() implies (#[trigger] before[i]).0
                != (#[trigger] before[j]).0 by {
                assert(before[i] == members[i]);
                assert(before[j] == members[j]);
            }
        }
        assert(!has_key(before, last.0)) by {
            if has_key(before, last.0) {
                let i = choose|i: int| 0 <= i < before.len() && (#[trigger] before[i]).0 == last.0;
                assert(members[i] == before[i]);
                assert(members[members.len() - 1] == last);
            }
        }
        lemma_foreign_of(before);
        let untagged = without(before, "type"@);
        let unboxed = without(untagged, "bbox"@);
        lemma_without_push(before, last, "type"@);
        if last.0 == "bbox"@ {
            lemma_without_push(untagged, last, "bbox"@);
            lemma_without_keeps_absent(before, "type"@, "bbox"@);
        } else if last.0 != "type"@ {
            lemma_without_push(untagged, last, "bbox"@);
            lemma_without_push(unboxed, last, "features"@);
            if last.0 == "features"@ {
                lemma_without_keeps_absent(before, "type"@, "features"@);
                lemma_without_keeps_absent(untagged, "bbox"@, "features"@);
            }
        }
    }
}

/// The JSON array of a bounding box.
fn bbox_value(numbers: &Vec<JsonNumber>) -> (value: JsonValue)
    ensures
        json_of(value) == bbox_json(numbers@),
{
    let mut items: Vec<JsonValue> = Vec::new();
    let mut place: usize = 0;
    while place < numbers.len()
        invariant
            place <= numbers.len(),
            items@.len() == place,
            forall|j: int| 0 <= j < place ==> json_of(#[trigger] items@[j]) == Json::Number(numbers@[j]),
        decreases numbers.len() - place,
    {
        items.push(from_number(numbers[place].clone()));
        place = place + 1;
    }
    assert(trees_of(items@) =~= numbers@.map_values(|number: JsonNumber| Json::Number(number)));
    from_array(items)
}

/// The JSON array of a run of features.
fn features_value(features: &Vec<Feature>) -> (value: JsonValue)
    ensures
        json_of(value) == features_json(views_of(features@)),
{
    let mut items: Vec<JsonValue> = Vec::new();
    let mut place: usize = 0;
    while place < features.len()
        invariant
            place <= features.len(),
            items@.len() == place,
            forall|j: int| 0 <= j < place ==> json_of(#[trigger] items@[j]) == features@[j]@.to_json(),
        decreases features.len() - place,
    {
        items.push(from_object(features[place].to_json_object()));
        place = place + 1;
    }
    assert(trees_of(items@) =~= views_of(features@).map_values(
        |feature: FeatureView| feature.to_json(),
    ));
    from_array(items)
}

impl FeatureCollection {
    /// Reads a collection from a JSON object.
    ///
    /// The object has to carry the type tag `FeatureCollection`; that is
    /// asked first, so a wrong tag is reported before anything else. The
    /// `bbox` member, where there is one, has to be an array of numbers. The
    /// `features` member has to be there, an array whose items each read as
    /// a feature. All other members become the foreign members, in their
    /// order. The first thing found wrong is the failure; nothing is read
    /// in part.
    pub fn from_json_object(object: JsonObject) -> (outcome: Result<FeatureCollection, Error>)
        ensures
            match outcome {
                Ok(collection) => FeatureCollectionView::from_members(members_of(object)) == Ok::<
                    FeatureCollectionView,
                    ErrorView,
                >(collection@) && collection@.well_formed(),
                Err(error) => FeatureCollectionView::from_members(members_of(object)) == Err::<
                    FeatureCollectionView,
                    ErrorView,
                >(error@),
            },
    {
        let mut rest = object;
        let ghost members = members_of(object);
        let tag = match expect_type(&mut rest) {
            Ok(tag) => tag,
            Err(error) => {
                return Err(error);
            },
        };
        if !is_tag(&tag, "FeatureCollection") {
            return Err(
                Error::ExpectedType { expected: "FeatureCollection".to_owned(), actual: tag },
            );
        }
        proof {
            let untagged = without(members, "type"@);
            lemma_reserved_keys();
            lemma_value_at_without(members, "bbox"@, "type"@);
            lemma_value_at_without(members, "features"@, "type"@);
            lemma_value_at_without(untagged, "features"@, "bbox"@);
        }
        let bbox = match get_bbox(&mut rest) {
            Ok(bbox) => bbox,
            Err(error) => {
                return Err(error);
            },
        };
        let features = match get_features(&mut rest) {
            Ok(features) => features,
            Err(error) => {
                return Err(error);
            },
        };
        proof {
            let untagged = without(members, "type"@);
            let unboxed = without(untagged, "bbox"@);
            lemma_distinct_before(members, "type"@);
            lemma_foreign_of(members);
            lemma_without_keeps_absent(untagged, "bbox"@, "type"@);
            lemma_without_keeps_absent(unboxed, "features"@, "type"@);
            lemma_without_keeps_absent(unboxed, "features"@, "bbox"@);
        }
        let foreign_members = get_foreign_members(rest);
        Ok(FeatureCollection { bbox, features, foreign_members })
    }

    /// Reads a collection from a JSON value, which has to be an object; any
    /// other value is handed back in the failure.
    pub fn from_json_value(value: JsonValue) -> (outcome: Result<FeatureCollection, Error>)
        ensures
            match outcome {
                Ok(collection) => FeatureCollectionView::from_json(json_of(value)) == Ok::<
                    FeatureCollectionView,
                    ErrorView,
                >(collection@) && collection@.well_formed(),
                Err(error) => FeatureCollectionView::from_json(json_of(value)) == Err::<
                    FeatureCollectionView,
                    ErrorView,
                >(error@),
            },
    {
        match crate::json::into_object(value) {
            Ok(object) => FeatureCollection::from_json_object(object),
            Err(other) => Err(Error::GeoJsonExpectedObject(other)),
        }
    }

    /// Writes the collection as a JSON object with the members in this
    /// order: `type`, `features`, `bbox` where there is one, then the
    /// foreign members.
    pub fn to_json_object(&self) -> (object: JsonObject)
        ensures
            members_of(object) == self@.to_members(),
    {
        let mut object = object_new();
        object_insert(&mut object, "type".to_owned(), from_string("FeatureCollection".to_owned()));
        assert(members_of(object) =~= seq![("type"@, Json::String("FeatureCollection"@))]);
        object_insert(&mut object, "features".to_owned(), features_value(&self.features));
        if let Some(numbers) = &self.bbox {
            object_insert(&mut object, "bbox".to_owned(), bbox_value(numbers));
        }
        if let Some(members) = &self.foreign_members {
            insert_all(&mut object, members);
        }
        object
    }

    /// Writes the collection as a JSON value: an object with the members in
    /// this order: `type`, `bbox` where there is one, the foreign members,
    /// then `features`.
    pub fn serialize(&self) -> (value: JsonValue)
        ensures
            json_of(value) == Json::Object(self@.serialized()),
    {
        let mut object = object_new();
        object_insert(&mut object, "type".to_owned(), from_string("FeatureCollection".to_owned()));
        assert(members_of(object) =~= seq![("type"@, Json::String("FeatureCollection"@))]);
        if let Some(numbers) = &self.bbox {
            object_insert(&mut object, "bbox".to_owned(), bbox_value(numbers));
        }
        if let Some(members) = &self.foreign_members {
            insert_all(&mut object, members);
        }
        object_insert(&mut object, "features".to_owned(), features_value(&self.features));
        from_object(object)
    }
}

} // verus!
