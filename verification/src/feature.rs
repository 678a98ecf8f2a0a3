//! Features, as a collection carries them.

use vstd::prelude::*;
use crate::errors::{Error, ErrorView};
use crate::json::{
    from_string, json_of, members_of, object_insert, object_new, trees_of, Json, JsonObject,
    JsonValue, Members,
};
use crate::members::{distinct_keys, has_key, put_all, without};
use crate::util::{
    expect_owned_array, expect_owned_object, expect_property, expect_type, insert_all, is_tag,
    property_of, tag_of,
};

verus! {

/// One feature of a collection.
///
/// A feature is carried as a unit: what it holds of geometry and properties
/// is not looked into here. Its `members` are the members of its JSON object
/// other than the type tag, in the order in which they came.
#[derive(Clone, Debug, PartialEq)]
pub struct Feature {
    pub members: JsonObject,
}

/// A [`Feature`] with the members that it holds.
pub struct FeatureView {
    pub members: Members,
}

impl View for Feature {
    type V = FeatureView;

    open spec fn view(&self) -> FeatureView {
        FeatureView { members: members_of(self.members) }
    }
}

impl FeatureView {
    /// Whether the members could have come out of a JSON object with its type
    /// tag taken away: no key twice, and none of them `type`.
    pub open spec fn well_formed(self) -> bool {
        distinct_keys(self.members) && !has_key(self.members, "type"@)
    }

    /// The members of the JSON object that the feature is written as: the
    /// type tag, then its own.
    pub open spec fn to_members(self) -> Members {
        put_all(seq![("type"@, Json::String("Feature"@))], self.members)
    }

    /// The feature that the members of a JSON object are read as.
    pub open spec fn from_members(members: Members) -> Result<FeatureView, ErrorView> {
        match tag_of(members) {
            Err(error) => Err(error),
            Ok(tag) => if tag == "Feature"@ {
                Ok(FeatureView { members: without(members, "type"@) })
            } else {
                Err(ErrorView::ExpectedType { expected: "Feature"@, actual: tag })
            },
        }
    }

    /// The feature that a tree is read as: the tree has to be an object.
    pub open spec fn from_json(value: Json) -> Result<FeatureView, ErrorView> {
        match value {
            Json::Object(members) => FeatureView::from_members(members),
            other => Err(ErrorView::ExpectedObjectValue(other)),
        }
    }

    /// The tree that the feature is written as.
    pub open spec fn to_json(self) -> Json {
        Json::Object(self.to_members())
    }
}

impl Feature {
    /// Reads a feature from a JSON object. The object has to carry the type
    /// tag `Feature`; all its other members become the feature's.
    pub fn from_json_object(object: JsonObject) -> (outcome: Result<Feature, Error>)
        ensures
            match outcome {
                Ok(feature) => FeatureView::from_members(members_of(object)) == Ok::<
                    FeatureView,
                    ErrorView,
                >(feature@) && feature@.well_formed(),
                Err(error) => FeatureView::from_members(members_of(object)) == Err::<
                    FeatureView,
                    ErrorView,
                >(error@),
            },
    {
        let mut rest = object;
        match expect_type(&mut rest) {
            Err(error) => Err(error),
            Ok(tag) => if is_tag(&tag, "Feature") {
                Ok(Feature { members: rest })
            } else {
                Err(Error::ExpectedType { expected: "Feature".to_owned(), actual: tag })
            },
        }
    }

    /// Reads a feature from a JSON value, which has to be an object.
    pub fn from_json_value(value: JsonValue) -> (outcome: Result<Feature, Error>)
        ensures
            match outcome {
                Ok(feature) => FeatureView::from_json(json_of(value)) == Ok::<
                    FeatureView,
                    ErrorView,
                >(feature@) && feature@.well_formed(),
                Err(error) => FeatureView::from_json(json_of(value)) == Err::<
                    FeatureView,
                    ErrorView,
                >(error@),
            },
    {
        match expect_owned_object(value) {
            Ok(object) => Feature::from_json_object(object),
            Err(error) => Err(error),
        }
    }

    /// Writes the feature as a JSON object: the type tag first, then the
    /// members in their order.
    pub fn to_json_object(&self) -> (object: JsonObject)
        ensures
            members_of(object) == self@.to_members(),
    {
        let mut object = object_new();
        object_insert(&mut object, "type".to_owned(), from_string("Feature".to_owned()));
        assert(members_of(object) =~= seq![("type"@, Json::String("Feature"@))]);
        insert_all(&mut object, &self.members);
        object
    }
}

/// The views of a run of features, one for one.
pub open spec fn views_of(features: Seq<Feature>) -> Seq<FeatureView> {
    features.map_values(|feature: Feature| feature@)
}

/// Whether every item reads as a feature.
pub open spec fn all_features(items: Seq<Json>) -> bool {
    forall|i: int| 0 <= i < items.len() ==> (#[trigger] FeatureView::from_json(items[i])) is Ok
}

/// The place of the first item that does not read as a feature.
pub open spec fn first_failure(items: Seq<Json>) -> int {
    choose|i: int|
        0 <= i < items.len() && (#[trigger] FeatureView::from_json(items[i])) is Err && forall|
            j: int,
        |
            0 <= j < i ==> (#[trigger] FeatureView::from_json(items[j])) is Ok
}

/// The features that the items read as, one for one.
pub open spec fn features_in(items: Seq<Json>) -> Seq<FeatureView> {
    items.map_values(|item: Json| FeatureView::from_json(item)->Ok_0)
}

/// The features of an object: those that the items of the array under
/// `features` read as. Where an item does not read as one, the failure is
/// that of the first such item.
pub open spec fn features_of(members: Members) -> Result<Seq<FeatureView>, ErrorView> {
    match property_of(members, "features"@) {
        Err(error) => Err(error),
        Ok(Json::Array(items)) => if all_features(items) {
            Ok(features_in(items))
        } else {
            Err(FeatureView::from_json(items[first_failure(items)])->Err_0)
        },
        Ok(other) => Err(ErrorView::ExpectedArrayValue(other)),
    }
}

/// The first item that does not read as a feature, with features before it,
/// is the one that `first_failure` finds.
pub proof fn lemma_first_failure(items: Seq<Json>, place: int)
    requires
        0 <= place < items.len(),
        FeatureView::from_json(items[place]) is Err,
        forall|j: int| 0 <= j < place ==> (#[trigger] FeatureView::from_json(items[j])) is Ok,
    ensures
        !all_features(items),
        first_failure(items) == place,
{
    let found = first_failure(items);
    if found < place {
        assert(FeatureView::from_json(items[found]) is Ok);
    }
    if found > place {
        assert(FeatureView::from_json(items[place]) is Ok);
    }
}

/// Takes the `features` member out of the object and reads each item of its
/// array as a feature, in order. The first item that fails decides the
/// failure.
pub fn get_features(object: &mut JsonObject) -> (outcome: Result<Vec<Feature>, Error>)
    ensures
        match outcome {
            Ok(features) => features_of(members_of(*old(object))) == Ok::<
                Seq<FeatureView>,
                ErrorView,
            >(views_of(features@)) && forall|i: int|
                0 <= i < features@.len() ==> (#[trigger] features@[i])@.well_formed(),
            Err(error) => features_of(members_of(*old(object))) == Err::<
                Seq<FeatureView>,
                ErrorView,
            >(error@),
        },
        members_of(*final(object)) == without(members_of(*old(object)), "features"@),
        distinct_keys(members_of(*final(object))),
        !has_key(members_of(*final(object)), "features"@),
{
    let ghost before = members_of(*object);
    let value = match expect_property(object, "features") {
        Ok(value) => value,
        Err(error) => {
            return Err(error);
        },
    };
    let items = match expect_owned_array(value) {
        Ok(items) => items,
        Err(error) => {
            return Err(error);
        },
    };
    let ghost trees = trees_of(items@);
    let mut features: Vec<Feature> = Vec::new();
    for item in it: items
        invariant
            before == members_of(*old(object)),
            property_of(before, "features"@) == Ok::<Json, ErrorView>(Json::Array(trees)),
            members_of(*object) == without(before, "features"@),
            distinct_keys(members_of(*object)),
            !has_key(members_of(*object), "features"@),
            trees == trees_of(items@),
            it.seq() == items@,
            features@.len() == it.index(),
            forall|j: int|
                0 <= j < features@.len() ==> (#[trigger] FeatureView::from_json(trees[j])) == Ok::<
                    FeatureView,
                    ErrorView,
                >(features@[j]@),
            forall|j: int| 0 <= j < features@.len() ==> (#[trigger] features@[j])@.well_formed(),
    {
        let ghost place = features@.len() as int;
        assert(trees[place] == json_of(item));
        match Feature::from_json_value(item) {
            Ok(feature) => {
                features.push(feature);
            },
            Err(error) => {
                proof {
                    lemma_first_failure(trees, place);
                }
                return Err(error);
            },
        }
    }
    assert(views_of(features@) =~= features_in(trees));
    Ok(features)
}

} // verus!
