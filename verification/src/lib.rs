//! A typed model of GeoJSON feature collections and positions, with
//! conversions to and from JSON values whose behaviour is stated in contracts.

pub mod errors;
pub mod feature;
pub mod feature_collection;
pub mod json;
pub mod laws;
pub mod members;
pub mod position;
pub mod util;

pub use crate::errors::Error;
pub use crate::feature::Feature;
pub use crate::feature_collection::{Bbox, FeatureCollection};
pub use crate::json::{JsonNumber, JsonObject, JsonValue};
pub use crate::position::Position;
