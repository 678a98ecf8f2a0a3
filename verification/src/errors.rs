//! The ways in which a conversion from JSON fails.

use vstd::prelude::*;
use crate::json::{json_of, Json, JsonValue};

verus! {

/// Why a JSON value was not accepted. Each failure carries what was found in
/// place of what was needed, or the name of what was missing.
#[derive(Clone, Debug, PartialEq)]
pub enum Error {
    /// The `bbox` member is not an array.
    BboxExpectedArray(JsonValue),
    /// An item of the `bbox` array is not a number.
    BboxExpectedNumericValues(JsonValue),
    /// The value at the root is not an object.
    GeoJsonExpectedObject(JsonValue),
    /// The `type` member names another kind of object than the one asked for.
    ExpectedType { expected: String, actual: String },
    /// A text was needed.
    ExpectedStringValue(JsonValue),
    /// The object has no member of this name.
    ExpectedProperty(String),
    /// A number was needed.
    ExpectedNumberValue(JsonValue),
    /// An array was needed.
    ExpectedArrayValue(JsonValue),
    /// An object was needed.
    ExpectedObjectValue(JsonValue),
}

/// An [`Error`] with the trees and texts that it carries.
pub enum ErrorView {
    BboxExpectedArray(Json),
    BboxExpectedNumericValues(Json),
    GeoJsonExpectedObject(Json),
    ExpectedType { expected: Seq<char>, actual: Seq<char> },
    ExpectedStringValue(Json),
    ExpectedProperty(Seq<char>),
    ExpectedNumberValue(Json),
    ExpectedArrayValue(Json),
    ExpectedObjectValue(Json),
}

impl View for Error {
    type V = ErrorView;

    open spec fn view(&self) -> ErrorView {
        match *self {
            Error::BboxExpectedArray(value) => ErrorView::BboxExpectedArray(json_of(value)),
            Error::BboxExpectedNumericValues(value) => ErrorView::BboxExpectedNumericValues(
                json_of(value),
            ),
            Error::GeoJsonExpectedObject(value) => ErrorView::GeoJsonExpectedObject(json_of(value)),
            Error::ExpectedType { expected, actual } => ErrorView::ExpectedType {
                expected: expected@,
                actual: actual@,
            },
            Error::ExpectedStringValue(value) => ErrorView::ExpectedStringValue(json_of(value)),
            Error::ExpectedProperty(name) => ErrorView::ExpectedProperty(name@),
            Error::ExpectedNumberValue(value) => ErrorView::ExpectedNumberValue(json_of(value)),
            Error::ExpectedArrayValue(value) => ErrorView::ExpectedArrayValue(json_of(value)),
            Error::ExpectedObjectValue(value) => ErrorView::ExpectedObjectValue(json_of(value)),
        }
    }
}

} // verus!
