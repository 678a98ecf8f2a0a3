//! The steps that every conversion from JSON is made of: taking a named
//! member out of an object, and asking a value to be of one kind.

use vstd::prelude::*;
use crate::errors::{Error, ErrorView};
use crate::json::{
    into_array, into_number, into_object, into_string, json_of, members_of, object_insert,
    object_is_empty, object_members, object_take, trees_of, Json, JsonNumber, JsonObject,
    JsonValue, Members,
};
use crate::members::{distinct_keys, has_key, put_all, value_at, without};

verus! {

/// The member under `name`, or the failure for its absence.
pub open spec fn property_of(members: Members, name: Seq<char>) -> Result<Json, ErrorView> {
    match value_at(members, name) {
        Some(value) => Ok(value),
        None => Err(ErrorView::ExpectedProperty(name)),
    }
}

/// The text that a tree is, or the failure that carries the tree.
pub open spec fn string_of(value: Json) -> Result<Seq<char>, ErrorView> {
    match value {
        Json::String(text) => Ok(text),
        other => Err(ErrorView::ExpectedStringValue(other)),
    }
}

/// The type tag of an object: the text under `type`.
pub open spec fn tag_of(members: Members) -> Result<Seq<char>, ErrorView> {
    match property_of(members, "type"@) {
        Ok(value) => string_of(value),
        Err(error) => Err(error),
    }
}

/// Whether every item is a number.
pub open spec fn all_numbers(items: Seq<Json>) -> bool {
    forall|i: int| 0 <= i < items.len() ==> (#[trigger] items[i]) is Number
}

/// The place of the first item that is not a number.
pub open spec fn first_other(items: Seq<Json>) -> int {
    choose|i: int|
        0 <= i < items.len() && !((#[trigger] items[i]) is Number) && forall|j: int|
            0 <= j < i ==> (#[trigger] items[j]) is Number
}

/// The numbers that the items are, one for one.
pub open spec fn numbers_in(items: Seq<Json>) -> Seq<JsonNumber> {
    items.map_values(|item: Json| item->Number_0)
}

/// The bounding box of an object: nothing where it has no `bbox` member,
/// else the numbers of the array under it. An item that is not a number is a
/// failure that carries the first such item.
pub open spec fn bbox_of(members: Members) -> Result<Option<Seq<JsonNumber>>, ErrorView> {
    match value_at(members, "bbox"@) {
        None => Ok(None),
        Some(Json::Array(items)) => if all_numbers(items) {
            Ok(Some(numbers_in(items)))
        } else {
            Err(ErrorView::BboxExpectedNumericValues(items[first_other(items)]))
        },
        Some(other) => Err(ErrorView::BboxExpectedArray(other)),
    }
}

/// What is left of an object for its foreign members: nothing where it is
/// empty, else all of it.
pub open spec fn remainder_of(members: Members) -> Option<Members> {
    if members.len() == 0 {
        None
    } else {
        Some(members)
    }
}

/// Takes the member under `name` out of the object. Where there is none the
/// object stays as it is and the failure names the member. An object holds
/// no key twice, so afterwards its keys are distinct and `name` is none of
/// them.
pub fn expect_property(object: &mut JsonObject, name: &str) -> (outcome: Result<JsonValue, Error>)
    ensures
        match outcome {
            Ok(value) => property_of(members_of(*old(object)), name@) == Ok::<Json, ErrorView>(
                json_of(value),
            ),
            Err(error) => property_of(members_of(*old(object)), name@) == Err::<Json, ErrorView>(
                error@,
            ),
        },
        members_of(*final(object)) == without(members_of(*old(object)), name@),
        distinct_keys(members_of(*final(object))),
        !has_key(members_of(*final(object)), name@),
{
    match object_take(object, name) {
        Some(value) => Ok(value),
        None => Err(Error::ExpectedProperty(name.to_owned())),
    }
}

/// The text inside a value, or the failure that carries the value that is no
/// text.
pub fn expect_string(value: JsonValue) -> (outcome: Result<String, Error>)
    ensures
        match outcome {
            Ok(text) => string_of(json_of(value)) == Ok::<Seq<char>, ErrorView>(text@),
            Err(error) => string_of(json_of(value)) == Err::<Seq<char>, ErrorView>(error@),
        },
{
    match into_string(value) {
        Ok(text) => Ok(text),
        Err(other) => Err(Error::ExpectedStringValue(other)),
    }
}

/// Takes the `type` member out of the object and gives its text.
pub fn expect_type(object: &mut JsonObject) -> (outcome: Result<String, Error>)
    ensures
        match outcome {
            Ok(tag) => tag_of(members_of(*old(object))) == Ok::<Seq<char>, ErrorView>(tag@),
            Err(error) => tag_of(members_of(*old(object))) == Err::<Seq<char>, ErrorView>(error@),
        },
        members_of(*final(object)) == without(members_of(*old(object)), "type"@),
        distinct_keys(members_of(*final(object))),
        !has_key(members_of(*final(object)), "type"@),
{
    match expect_property(object, "type") {
        Ok(value) => expect_string(value),
        Err(error) => Err(error),
    }
}

/// The items of an array, or the failure that carries the value that is no
/// array.
pub fn expect_owned_array(value: JsonValue) -> (outcome: Result<Vec<JsonValue>, Error>)
    ensures
        match outcome {
            Ok(items) => json_of(value) == Json::Array(trees_of(items@)),
            Err(error) => !(json_of(value) is Array) && error@ == ErrorView::ExpectedArrayValue(
                json_of(value),
            ),
        },
{
    match into_array(value) {
        Ok(items) => Ok(items),
        Err(other) => Err(Error::ExpectedArrayValue(other)),
    }
}

/// The object inside a value, or the failure that carries the value that is
/// no object.
pub fn expect_owned_object(value: JsonValue) -> (outcome: Result<JsonObject, Error>)
    ensures
        match outcome {
            Ok(object) => json_of(value) == Json::Object(members_of(object)),
            Err(error) => !(json_of(value) is Object) && error@ == ErrorView::ExpectedObjectValue(
                json_of(value),
            ),
        },
{
    match into_object(value) {
        Ok(object) => Ok(object),
        Err(other) => Err(Error::ExpectedObjectValue(other)),
    }
}

/// The numbers that the items are, where each is one; else the first item
/// that is not, handed back.
pub fn expect_numbers(items: Vec<JsonValue>) -> (outcome: Result<Vec<JsonNumber>, JsonValue>)
    ensures
        match outcome {
            Ok(numbers) => all_numbers(trees_of(items@)) && numbers@ == numbers_in(
                trees_of(items@),
            ),
            Err(other) => !all_numbers(trees_of(items@)) && json_of(other) == trees_of(
                items@,
            )[first_other(trees_of(items@))],
        },
{
    let ghost trees = trees_of(items@);
    let mut numbers: Vec<JsonNumber> = Vec::new();
    for item in it: items
        invariant
            trees == trees_of(items@),
            it.seq() == items@,
            numbers@.len() == it.index(),
            forall|j: int|
                0 <= j < numbers@.len() ==> (#[trigger] trees[j]) == Json::Number(numbers@[j]),
    {
        let ghost place = numbers@.len() as int;
        match into_number(item) {
            Ok(number) => {
                numbers.push(number);
            },
            Err(other) => {
                proof {
                    assert(!(trees[place] is Number));
                    lemma_first_other(trees, place);
                }
                return Err(other);
            },
        }
    }
    assert(numbers@ =~= numbers_in(trees));
    Ok(numbers)
}

/// The first item that is not a number, with numbers before it, is the one
/// that `first_other` finds.
pub proof fn lemma_first_other(items: Seq<Json>, place: int)
    requires
        0 <= place < items.len(),
        !(items[place] is Number),
        forall|j: int| 0 <= j < place ==> (#[trigger] items[j]) is Number,
    ensures
        !all_numbers(items),
        first_other(items) == place,
{
    let found = first_other(items);
    if found < place {
        assert(items[found] is Number);
    }
    if found > place {
        assert(items[place] is Number);
    }
}

/// Takes the `bbox` member out of the object and gives its numbers, or
/// nothing where the object has none.
pub fn get_bbox(object: &mut JsonObject) -> (outcome: Result<Option<Vec<JsonNumber>>, Error>)
    ensures
        match outcome {
            Ok(Some(numbers)) => bbox_of(members_of(*old(object))) == Ok::<
                Option<Seq<JsonNumber>>,
                ErrorView,
            >(Some(numbers@)),
            Ok(None) => bbox_of(members_of(*old(object))) == Ok::<
                Option<Seq<JsonNumber>>,
                ErrorView,
            >(None),
            Err(error) => bbox_of(members_of(*old(object))) == Err::<
                Option<Seq<JsonNumber>>,
                ErrorView,
            >(error@),
        },
        members_of(*final(object)) == without(members_of(*old(object)), "bbox"@),
        distinct_keys(members_of(*final(object))),
        !has_key(members_of(*final(object)), "bbox"@),
{
    match object_take(object, "bbox") {
        None => Ok(None),
        Some(value) => match into_array(value) {
            Err(other) => Err(Error::BboxExpectedArray(other)),
            Ok(items) => match expect_numbers(items) {
                Ok(numbers) => Ok(Some(numbers)),
                Err(other) => Err(Error::BboxExpectedNumericValues(other)),
            },
        },
    }
}

/// Whether a type tag is the one asked for, letter for letter.
pub fn is_tag(tag: &String, wanted: &str) -> (same: bool)
    ensures
        same == (tag@ == wanted@),
{
    let wanted_tag = wanted.to_owned();
    *tag == wanted_tag
}

/// Puts a copy of each member of `more` into the object, first to last.
pub fn insert_all(object: &mut JsonObject, more: &JsonObject)
    ensures
        members_of(*final(object)) == put_all(members_of(*old(object)), members_of(*more)),
{
    let copies = object_members(more);
    let ghost extra = members_of(*more);
    for copy in it: copies
        invariant
            it.seq() == copies@,
            copies@.len() == extra.len(),
            forall|i: int|
                0 <= i < copies@.len() ==> extra[i] == (
                    (#[trigger] copies@[i]).0@,
                    json_of(copies@[i].1),
                ),
            members_of(*object) == put_all(members_of(*old(object)), extra.take(it.index() as int)),
    {
        proof {
            let place = it.index() as int;
            let next = extra.take(place + 1);
            assert(next.drop_last() =~= extra.take(place));
            assert(next.last() == extra[place]);
        }
        let (key, value) = copy;
        object_insert(object, key, value);
    }
    assert(extra.take(extra.len() as int) =~= extra);
}

/// What is left of an object, as foreign members: nothing where it is empty.
pub fn get_foreign_members(object: JsonObject) -> (rest: Option<JsonObject>)
    ensures
        match rest {
            Some(members) => remainder_of(members_of(object)) == Some(members_of(members)),
            None => remainder_of(members_of(object)) is None,
        },
{
    if object_is_empty(&object) {
        None
    } else {
        Some(object)
    }
}

} // verus!
