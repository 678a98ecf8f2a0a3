//! What holds of reading and writing taken together: a collection that is
//! written and read again is the same collection, writing depends on nothing
//! but what the collection holds, and both keep the order of what they are
//! given.

use vstd::prelude::*;
use crate::errors::ErrorView;
use crate::feature::{all_features, features_in, features_of, FeatureView};
use crate::feature_collection::{
    bbox_json, features_json, foreign_of, is_reserved, lemma_reserved_keys, FeatureCollection,
    FeatureCollectionView,
};
use crate::json::{Json, JsonNumber, Members};
use crate::members::{has_key, lemma_place_is, lemma_put_all_new, lemma_put_new, value_at};
use crate::util::{all_numbers, bbox_of, numbers_in, remainder_of, tag_of};

verus! {

/// The member that a collection's type tag is written as.
pub open spec fn tag_member() -> (Seq<char>, Json) {
    ("type"@, Json::String("FeatureCollection"@))
}

/// The member that a collection's features are written as.
pub open spec fn features_member(features: Seq<FeatureView>) -> (Seq<char>, Json) {
    ("features"@, features_json(features))
}

/// The members that a bounding box is written as: one, or none where there
/// is no box.
pub open spec fn bbox_members(bbox: Option<Seq<JsonNumber>>) -> Members {
    match bbox {
        Some(numbers) => seq![("bbox"@, bbox_json(numbers))],
        None => Seq::empty(),
    }
}

/// The foreign members as a run of members: none where there are none.
pub open spec fn foreign_run(foreign_members: Option<Members>) -> Members {
    match foreign_members {
        Some(members) => members,
        None => Seq::empty(),
    }
}

/// Members under reserved keys only hold no other key.
proof fn lemma_other_key_absent(members: Members, key: Seq<char>)
    requires
        forall|i: int| 0 <= i < members.len() ==> is_reserved((#[trigger] members[i]).0),
        !is_reserved(key),
    ensures
        !has_key(members, key),
{
}

/// The foreign members of two runs of members, one behind the other, are
/// those of the first and behind them those of the second.
proof fn lemma_foreign_of_add(first: Members, second: Members)
    ensures
        foreign_of(first + second) == foreign_of(first) + foreign_of(second),
    decreases second.len(),
{
    reveal(Seq::filter);
    if second.len() == 0 {
        assert(first + second =~= first);
        assert(foreign_of(first) + foreign_of(second) =~= foreign_of(first));
    } else {
        let both = first + second;
        assert(both.drop_last() =~= first + second.drop_last());
        assert(both.last() == second.last());
        lemma_foreign_of_add(first, second.drop_last());
        assert(foreign_of(both) =~= foreign_of(first) + foreign_of(second));
    }
}

/// Members of which none stands under a reserved key are all foreign.
proof fn lemma_foreign_of_kept(members: Members)
    requires
        forall|i: int| 0 <= i < members.len() ==> !is_reserved((#[trigger] members[i]).0),
    ensures
        foreign_of(members) == members,
    decreases members.len(),
{
    reveal(Seq::filter);
    if members.len() > 0 {
        let before = members.drop_last();
        assert forall|i: int| 0 <= i < before.len() implies !is_reserved(
            (#[trigger] before[i]).0,
        ) by {
            assert(before[i] == members[i]);
        }
        lemma_foreign_of_kept(before);
        assert(members[members.len() - 1] == members.last());
        assert(before.push(members.last()) =~= members);
    }
}

/// Members that all stand under reserved keys leave nothing foreign.
proof fn lemma_foreign_of_dropped(members: Members)
    requires
        forall|i: int| 0 <= i < members.len() ==> is_reserved((#[trigger] members[i]).0),
    ensures
        foreign_of(members) == Seq::<(Seq<char>, Json)>::empty(),
    decreases members.len(),
{
    reveal(Seq::filter);
    if members.len() > 0 {
        let before = members.drop_last();
        assert forall|i: int| 0 <= i < before.len() implies is_reserved(
            (#[trigger] before[i]).0,
        ) by {
            assert(before[i] == members[i]);
        }
        lemma_foreign_of_dropped(before);
        assert(members[members.len() - 1] == members.last());
    }
}

/// A well-formed feature is written as its type tag with its members
/// behind it, in their order.
pub proof fn lemma_feature_written_in_order(feature: FeatureView)
    requires
        feature.well_formed(),
    ensures
        feature.to_members() == seq![("type"@, Json::String("Feature"@))] + feature.members,
{
    let tagged = seq![("type"@, Json::String("Feature"@))];
    assert forall|i: int| 0 <= i < feature.members.len() implies !has_key(
        tagged,
        (#[trigger] feature.members[i]).0,
    ) by {
        if has_key(tagged, feature.members[i].0) {
            let j = choose|j: int|
                0 <= j < tagged.len() && (#[trigger] tagged[j]).0 == feature.members[i].0;
            assert(tagged[j].0 == "type"@);
        }
    }
    lemma_put_all_new(tagged, feature.members);
}

/// A well-formed feature that is written and read again is the same
/// feature.
pub proof fn lemma_feature_round_trip(feature: FeatureView)
    requires
        feature.well_formed(),
    ensures
        FeatureView::from_members(feature.to_members()) == Ok::<FeatureView, ErrorView>(feature),
        FeatureView::from_json(feature.to_json()) == Ok::<FeatureView, ErrorView>(feature),
{
    lemma_feature_written_in_order(feature);
    let written = feature.to_members();
    lemma_place_is(written, "type"@, 0);
    assert(written.remove(0) =~= feature.members);
}

/// Order is kept in writing: a well-formed collection is written with its
/// members side by side. One way puts the type tag first, then the
/// features, the bounding box and the foreign members; the other puts the
/// type tag first, then the bounding box, the foreign members and the
/// features. Either way the features stand in their array in their order,
/// and the foreign members stand in theirs.
pub proof fn lemma_written_in_order(collection: FeatureCollectionView)
    requires
        collection.well_formed(),
    ensures
        collection.to_members() == seq![tag_member(), features_member(collection.features)]
            + bbox_members(collection.bbox) + foreign_run(collection.foreign_members),
        collection.serialized() == seq![tag_member()] + bbox_members(collection.bbox) + foreign_run(
            collection.foreign_members,
        ) + seq![features_member(collection.features)],
{
    lemma_reserved_keys();
    let tagged = seq![tag_member()];
    let boxes = bbox_members(collection.bbox);
    let foreign = foreign_run(collection.foreign_members);
    let features = features_member(collection.features);
    // the first way
    assert(!has_key(tagged, "features"@)) by {
        if has_key(tagged, "features"@) {
            let j = choose|j: int| 0 <= j < tagged.len() && (#[trigger] tagged[j]).0 == "features"@;
        }
    }
    lemma_put_new(tagged, "features"@, features.1);
    let with_features = tagged.push(features);
    assert(with_features =~= seq![tag_member(), features]);
    assert(!has_key(with_features, "bbox"@)) by {
        if has_key(with_features, "bbox"@) {
            let j = choose|j: int|
                0 <= j < with_features.len() && (#[trigger] with_features[j]).0 == "bbox"@;
        }
    }
    if collection.bbox is Some {
        lemma_put_new(with_features, "bbox"@, boxes[0].1);
    }
    let first_boxed = with_features + boxes;
    assert(first_boxed =~= match collection.bbox {
        Some(numbers) => with_features.push(("bbox"@, bbox_json(numbers))),
        None => with_features,
    });
    // the second way
    assert(!has_key(tagged, "bbox"@)) by {
        if has_key(tagged, "bbox"@) {
            let j = choose|j: int| 0 <= j < tagged.len() && (#[trigger] tagged[j]).0 == "bbox"@;
        }
    }
    if collection.bbox is Some {
        lemma_put_new(tagged, "bbox"@, boxes[0].1);
    }
    let second_boxed = tagged + boxes;
    assert(second_boxed =~= match collection.bbox {
        Some(numbers) => tagged.push(("bbox"@, bbox_json(numbers))),
        None => tagged,
    });
    // the foreign members, either way
    assert forall|i: int| 0 <= i < foreign.len() implies !has_key(
        first_boxed,
        (#[trigger] foreign[i]).0,
    ) && !has_key(second_boxed, foreign[i].0) by {
        lemma_other_key_absent(first_boxed, foreign[i].0);
        lemma_other_key_absent(second_boxed, foreign[i].0);
    }
    if collection.foreign_members is Some {
        lemma_put_all_new(first_boxed, foreign);
        lemma_put_all_new(second_boxed, foreign);
    } else {
        assert(first_boxed + foreign =~= first_boxed);
        assert(second_boxed + foreign =~= second_boxed);
    }
    let second_full = second_boxed + foreign;
    assert(!has_key(second_full, "features"@)) by {
        if has_key(second_full, "features"@) {
            let j = choose|j: int|
                0 <= j < second_full.len() && (#[trigger] second_full[j]).0 == "features"@;
            if j >= second_boxed.len() {
                assert(foreign[j - second_boxed.len()] == second_full[j]);
            }
        }
    }
    lemma_put_new(second_full, "features"@, features.1);
    assert(second_full.push(features) =~= second_full + seq![features]);
}

/// What a member list that holds the tag, the box, the features and foreign
/// members side by side is read as.
proof fn lemma_read_side_by_side(members: Members, collection: FeatureCollectionView)
    requires
        collection.well_formed(),
        members == seq![tag_member(), features_member(collection.features)] + bbox_members(
            collection.bbox,
        ) + foreign_run(collection.foreign_members) || members == seq![tag_member()]
            + bbox_members(collection.bbox) + foreign_run(collection.foreign_members)
            + seq![features_member(collection.features)],
    ensures
        FeatureCollectionView::from_members(members) == Ok::<FeatureCollectionView, ErrorView>(
            collection,
        ),
{
    lemma_reserved_keys();
    let boxes = bbox_members(collection.bbox);
    let foreign = foreign_run(collection.foreign_members);
    let features = features_member(collection.features);
    let first_way = members == seq![tag_member(), features] + boxes + foreign;
    // the type tag
    lemma_place_is(members, "type"@, 0);
    assert(tag_of(members) == Ok::<Seq<char>, ErrorView>("FeatureCollection"@));
    // the bounding box
    let box_place = if collection.bbox is None {
        members.len() as int
    } else if first_way {
        2
    } else {
        1
    };
    assert forall|j: int| 0 <= j < members.len() && j != box_place implies (
    #[trigger] members[j]).0 != "bbox"@ by {
        let k = if first_way {
            j - 2 - boxes.len()
        } else {
            j - 1 - boxes.len()
        };
        if 0 <= k < foreign.len() {
            assert(members[j] == foreign[k]);
            assert(!is_reserved(foreign[k].0));
        }
    }
    lemma_place_is(members, "bbox"@, box_place);
    match collection.bbox {
        Some(numbers) => {
            let items = numbers.map_values(|number: JsonNumber| Json::Number(number));
            assert(members[box_place].1 == Json::Array(items));
            assert(all_numbers(items));
            assert(numbers_in(items) =~= numbers);
        },
        None => {},
    }
    assert(bbox_of(members) == Ok::<Option<Seq<JsonNumber>>, ErrorView>(collection.bbox));
    // the features
    let features_place = if first_way {
        1
    } else {
        members.len() - 1
    };
    assert forall|j: int| 0 <= j < features_place implies (#[trigger] members[j]).0
        != "features"@ by {
        let k = j - 1 - boxes.len();
        if 0 <= k < foreign.len() {
            assert(members[j] == foreign[k]);
            assert(!is_reserved(foreign[k].0));
        }
    }
    lemma_place_is(members, "features"@, features_place);
    let items = collection.features.map_values(|feature: FeatureView| feature.to_json());
    assert(members[features_place].1 == Json::Array(items));
    assert forall|i: int| 0 <= i < items.len() implies (#[trigger] FeatureView::from_json(
        items[i],
    )) == Ok::<FeatureView, ErrorView>(collection.features[i]) by {
        lemma_feature_round_trip(collection.features[i]);
    }
    assert(all_features(items));
    assert(features_in(items) =~= collection.features);
    assert(features_of(members) == Ok::<Seq<FeatureView>, ErrorView>(collection.features));
    // the foreign members
    lemma_foreign_of_kept(foreign);
    lemma_foreign_of_dropped(boxes);
    if first_way {
        let head = seq![tag_member(), features];
        lemma_foreign_of_dropped(head);
        lemma_foreign_of_add(head + boxes, foreign);
        lemma_foreign_of_add(head, boxes);
        assert(foreign_of(members) =~= foreign);
    } else {
        let head = seq![tag_member()];
        let tail = seq![features];
        lemma_foreign_of_dropped(head);
        lemma_foreign_of_dropped(tail);
        lemma_foreign_of_add(head + boxes + foreign, tail);
        lemma_foreign_of_add(head + boxes, foreign);
        lemma_foreign_of_add(head, boxes);
        assert(foreign_of(members) =~= foreign);
    }
    assert(remainder_of(foreign) == collection.foreign_members);
}

/// Round trip: a well-formed collection that is written as a JSON object,
/// in either of the two ways, and read again is the same collection: the
/// same bounding box, the same features in the same order, the same
/// foreign members in the same order.
pub proof fn lemma_round_trip(collection: FeatureCollectionView)
    requires
        collection.well_formed(),
    ensures
        FeatureCollectionView::from_members(collection.to_members()) == Ok::<
            FeatureCollectionView,
            ErrorView,
        >(collection),
        FeatureCollectionView::from_members(collection.serialized()) == Ok::<
            FeatureCollectionView,
            ErrorView,
        >(collection),
        FeatureCollectionView::from_json(Json::Object(collection.serialized())) == Ok::<
            FeatureCollectionView,
            ErrorView,
        >(collection),
{
    lemma_written_in_order(collection);
    lemma_read_side_by_side(collection.to_members(), collection);
    lemma_read_side_by_side(collection.serialized(), collection);
}

/// Writing the same collection twice gives the same members both times:
/// what is written depends on nothing but what the collection holds.
pub proof fn lemma_written_alike(first: FeatureCollection, second: FeatureCollection)
    requires
        first@ == second@,
    ensures
        first@.to_members() == second@.to_members(),
        first@.serialized() == second@.serialized(),
{
}

/// Order is kept in reading: where members are read as a collection, the
/// features are what the items of the `features` array read as, item by
/// item, and the foreign members are the members under the keys that are
/// not reserved, in the order in which they stand.
pub proof fn lemma_read_in_order(members: Members, collection: FeatureCollectionView)
    requires
        FeatureCollectionView::from_members(members) == Ok::<FeatureCollectionView, ErrorView>(
            collection,
        ),
    ensures
        value_at(members, "features"@) matches Some(Json::Array(items)) && items.len()
            == collection.features.len() && forall|i: int|
            0 <= i < items.len() ==> FeatureView::from_json(#[trigger] items[i]) == Ok::<
                FeatureView,
                ErrorView,
            >(collection.features[i]),
        foreign_run(collection.foreign_members) == members.filter(
            |member: (Seq<char>, Json)| !is_reserved(member.0),
        ),
{
    assert(foreign_run(remainder_of(foreign_of(members))) =~= foreign_of(members));
}

} // verus!
