//! Positions: the ordinates of one point, held in one of three ways.

use vstd::prelude::*;
use crate::errors::{Error, ErrorView};
use crate::json::{into_array, json_of, Json, JsonNumber, JsonValue};
use crate::util::{all_numbers, expect_numbers, first_other, numbers_in};

verus! {

/// The ordinates that a tree is read as: the numbers of an array, in their
/// order. A tree that is no array is a failure that carries it; an item
/// that is no number is a failure that carries the first such item.
pub open spec fn ordinates_of(json: Json) -> Result<Seq<JsonNumber>, ErrorView> {
    match json {
        Json::Array(items) => if all_numbers(items) {
            Ok(numbers_in(items))
        } else {
            Err(ErrorView::ExpectedNumberValue(items[first_other(items)]))
        },
        other => Err(ErrorView::ExpectedArrayValue(other)),
    }
}

/// The numbers of a JSON array, in their order.
pub fn read_ordinates(json: &JsonValue) -> (outcome: Result<Vec<JsonNumber>, Error>)
    ensures
        match outcome {
            Ok(numbers) => ordinates_of(json_of(*json)) == Ok::<Seq<JsonNumber>, ErrorView>(
                numbers@,
            ),
            Err(error) => ordinates_of(json_of(*json)) == Err::<Seq<JsonNumber>, ErrorView>(
                error@,
            ),
        },
{
    match into_array(json.clone()) {
        Err(other) => Err(Error::ExpectedArrayValue(other)),
        Ok(items) => match expect_numbers(items) {
            Ok(numbers) => Ok(numbers),
            Err(other) => Err(Error::ExpectedNumberValue(other)),
        },
    }
}

/// The number of items of a JSON array, or `None` for a value of another
/// kind.
pub fn array_len(json: &JsonValue) -> (len: Option<usize>)
    ensures
        match len {
            Some(count) => json_of(*json) matches Json::Array(items) && items.len() == count,
            None => !(json_of(*json) is Array),
        },
{
    match into_array(json.clone()) {
        Ok(items) => Some(items.len()),
        Err(_) => None,
    }
}

/// One position: two ordinates or more, of which the first is x and the
/// second is y, whatever holds them.
pub trait Position: Sized {
    /// The ordinates in their order.
    spec fn ordinates(&self) -> Seq<JsonNumber>;

    /// Whether a position of this kind can hold `count` ordinates.
    spec fn holds(count: nat) -> bool;

    /// Tells whether a position of this kind can hold `count` ordinates.
    fn admits(count: usize) -> (admitted: bool)
        ensures
            admitted == Self::holds(count as nat),
    ;

    /// Reads a position from a JSON array of numbers. The array must not
    /// have a length that this kind of position cannot hold.
    fn from_json_value(json: &JsonValue) -> (outcome: Result<Self, Error>)
        requires
            json_of(*json) matches Json::Array(items) ==> Self::holds(items.len()),
        ensures
            match outcome {
                Ok(position) => ordinates_of(json_of(*json)) == Ok::<Seq<JsonNumber>, ErrorView>(
                    position.ordinates(),
                ),
                Err(error) => ordinates_of(json_of(*json)) == Err::<Seq<JsonNumber>, ErrorView>(
                    error@,
                ),
            },
    ;

    /// The position with these two ordinates, for a kind that can hold two.
    fn from_x_y(x: JsonNumber, y: JsonNumber) -> (position: Self)
        requires
            Self::holds(2),
        ensures
            position.ordinates() == seq![x, y],
    ;

    /// The first ordinate.
    fn x(&self) -> (x: &JsonNumber)
        requires
            self.ordinates().len() > 0,
        ensures
            *x == self.ordinates()[0],
    ;

    /// The second ordinate.
    fn y(&self) -> (y: &JsonNumber)
        requires
            self.ordinates().len() > 1,
        ensures
            *y == self.ordinates()[1],
    ;
}

/// Reads a position of the kind asked for from a JSON value, or gives
/// `None` where the value is an array of a length that this kind cannot
/// hold.
pub fn position_from_json<P: Position>(json: &JsonValue) -> (outcome: Option<Result<P, Error>>)
    ensures
        match outcome {
            None => json_of(*json) matches Json::Array(items) && !P::holds(items.len()),
            Some(Ok(position)) => ordinates_of(json_of(*json)) == Ok::<
                Seq<JsonNumber>,
                ErrorView,
            >(position.ordinates()),
            Some(Err(error)) => ordinates_of(json_of(*json)) == Err::<Seq<JsonNumber>, ErrorView>(
                error@,
            ),
        },
{
    match array_len(json) {
        Some(count) => if P::admits(count) {
            Some(P::from_json_value(json))
        } else {
            None
        },
        None => Some(P::from_json_value(json)),
    }
}

/// Makes a position of the kind asked for of two ordinates, or gives `None`
/// where this kind cannot hold two.
pub fn position_from_x_y<P: Position>(x: JsonNumber, y: JsonNumber) -> (outcome: Option<P>)
    ensures
        match outcome {
            Some(position) => P::holds(2) && position.ordinates() == seq![x, y],
            None => !P::holds(2),
        },
{
    if P::admits(2) {
        Some(P::from_x_y(x, y))
    } else {
        None
    }
}

/// A position of any number of ordinates.
impl Position for Vec<JsonNumber> {
    open spec fn ordinates(&self) -> Seq<JsonNumber> {
        self@
    }

    open spec fn holds(count: nat) -> bool {
        true
    }

    fn admits(count: usize) -> (admitted: bool) {
        true
    }

    fn from_json_value(json: &JsonValue) -> (outcome: Result<Self, Error>) {
        read_ordinates(json)
    }

    fn from_x_y(x: JsonNumber, y: JsonNumber) -> (position: Self) {
        let mut position: Vec<JsonNumber> = Vec::new();
        position.push(x);
        position.push(y);
        assert(position@ =~= seq![x, y]);
        position
    }

    fn x(&self) -> (x: &JsonNumber) {
        &self[0]
    }

    fn y(&self) -> (y: &JsonNumber) {
        &self[1]
    }
}

/// A position of two ordinates.
impl Position for (JsonNumber, JsonNumber) {
    open spec fn ordinates(&self) -> Seq<JsonNumber> {
        seq![self.0, self.1]
    }

    open spec fn holds(count: nat) -> bool {
        count == 2
    }

    fn admits(count: usize) -> (admitted: bool) {
        count == 2
    }

    fn from_json_value(json: &JsonValue) -> (outcome: Result<Self, Error>) {
        match read_ordinates(json) {
            Ok(numbers) => {
                let position = (numbers[0].clone(), numbers[1].clone());
                assert(position.ordinates() =~= numbers@);
                Ok(position)
            },
            Err(error) => Err(error),
        }
    }

    fn from_x_y(x: JsonNumber, y: JsonNumber) -> (position: Self) {
        (x, y)
    }

    fn x(&self) -> (x: &JsonNumber) {
        &self.0
    }

    fn y(&self) -> (y: &JsonNumber) {
        &self.1
    }
}

/// A position of three ordinates. Two ordinates do not make one: there is
/// nothing to take for the third.
impl Position for (JsonNumber, JsonNumber, JsonNumber) {
    open spec fn ordinates(&self) -> Seq<JsonNumber> {
        seq![self.0, self.1, self.2]
    }

    open spec fn holds(count: nat) -> bool {
        count == 3
    }

    fn admits(count: usize) -> (admitted: bool) {
        count == 3
    }

    fn from_json_value(json: &JsonValue) -> (outcome: Result<Self, Error>) {
        match read_ordinates(json) {
            Ok(numbers) => {
                let position = (numbers[0].clone(), numbers[1].clone(), numbers[2].clone());
                assert(position.ordinates() =~= numbers@);
                Ok(position)
            },
            Err(error) => Err(error),
        }
    }

    fn from_x_y(x: JsonNumber, y: JsonNumber) -> (position: Self) {
        vstd::pervasive::unreached()
    }

    fn x(&self) -> (x: &JsonNumber) {
        &self.0
    }

    fn y(&self) -> (y: &JsonNumber) {
        &self.1
    }
}

} // verus!
