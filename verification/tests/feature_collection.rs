use geojson::{Error, Feature, FeatureCollection, JsonNumber, JsonObject, JsonValue};

fn value(text: &str) -> JsonValue {
    serde_json::from_str(text).unwrap()
}

fn object(text: &str) -> JsonObject {
    match value(text) {
        JsonValue::Object(object) => object,
        other => panic!("not an object: {}", other),
    }
}

fn number(x: f64) -> JsonNumber {
    JsonNumber::from_f64(x).unwrap()
}

fn text_of(object: &JsonObject) -> String {
    serde_json::to_string(object).unwrap()
}

fn sample() -> FeatureCollection {
    FeatureCollection {
        bbox: Some(vec![number(-10.0), number(-5.5), number(10.0), number(5.5)]),
        features: vec![
            Feature { members: object(r#"{"geometry":null,"properties":{"name":"first"}}"#) },
            Feature { members: object(r#"{"id":7,"geometry":{"type":"Point","coordinates":[1.5,2.5]}}"#) },
        ],
        foreign_members: Some(object(r#"{"zebra":1,"apple":[true,null],"mango":{"k":"v"}}"#)),
    }
}

#[test]
fn empty_collection_has_two_members() {
    let collection = FeatureCollection { bbox: None, features: vec![], foreign_members: None };
    let written = collection.to_json_object();
    assert_eq!(written.len(), 2);
    assert_eq!(text_of(&written), r#"{"type":"FeatureCollection","features":[]}"#);
    let serialized = collection.serialize();
    assert_eq!(serialized.to_string(), r#"{"type":"FeatureCollection","features":[]}"#);
}

#[test]
fn to_json_object_key_order() {
    let written = sample().to_json_object();
    let keys: Vec<&str> = written.keys().map(|key| key.as_str()).collect();
    assert_eq!(keys, vec!["type", "features", "bbox", "zebra", "apple", "mango"]);
    assert_eq!(
        text_of(&written),
        concat_all(&[
            r#"{"type":"FeatureCollection","#,
            r#""features":[{"type":"Feature","geometry":null,"properties":{"name":"first"}},"#,
            r#"{"type":"Feature","id":7,"geometry":{"type":"Point","coordinates":[1.5,2.5]}}],"#,
            r#""bbox":[-10.0,-5.5,10.0,5.5],"#,
            r#""zebra":1,"apple":[true,null],"mango":{"k":"v"}}"#,
        ])
    );
}

fn concat_all(parts: &[&str]) -> String {
    let mut whole = String::new();
    for part in parts {
        whole.push_str(part);
    }
    whole
}

#[test]
fn serialize_key_order() {
    let serialized = sample().serialize();
    let keys: Vec<&str> = serialized.as_object().unwrap().keys().map(|key| key.as_str()).collect();
    assert_eq!(keys, vec!["type", "bbox", "zebra", "apple", "mango", "features"]);
    assert_eq!(
        serialized.to_string(),
        concat_all(&[
            r#"{"type":"FeatureCollection","#,
            r#""bbox":[-10.0,-5.5,10.0,5.5],"#,
            r#""zebra":1,"apple":[true,null],"mango":{"k":"v"},"#,
            r#""features":[{"type":"Feature","geometry":null,"properties":{"name":"first"}},"#,
            r#"{"type":"Feature","id":7,"geometry":{"type":"Point","coordinates":[1.5,2.5]}}]}"#,
        ])
    );
}

#[test]
fn round_trip_through_to_json_object() {
    let collection = sample();
    let read = FeatureCollection::from_json_object(collection.to_json_object()).unwrap();
    assert_eq!(read, collection);
    let keys: Vec<&str> =
        read.foreign_members.as_ref().unwrap().keys().map(|key| key.as_str()).collect();
    assert_eq!(keys, vec!["zebra", "apple", "mango"]);
}

#[test]
fn round_trip_through_serialize() {
    let collection = sample();
    let read = FeatureCollection::from_json_value(collection.serialize()).unwrap();
    assert_eq!(read, collection);
    let keys: Vec<&str> =
        read.foreign_members.as_ref().unwrap().keys().map(|key| key.as_str()).collect();
    assert_eq!(keys, vec!["zebra", "apple", "mango"]);
}

#[test]
fn round_trip_of_a_bare_collection() {
    let collection = FeatureCollection { bbox: None, features: vec![], foreign_members: None };
    assert_eq!(FeatureCollection::from_json_object(collection.to_json_object()).unwrap(), collection);
    assert_eq!(FeatureCollection::from_json_value(collection.serialize()).unwrap(), collection);
}

#[test]
fn serializing_twice_gives_the_same() {
    let collection = sample();
    assert_eq!(collection.to_json_object(), collection.to_json_object());
    assert_eq!(collection.serialize(), collection.serialize());
    assert_eq!(text_of(&collection.to_json_object()), text_of(&collection.to_json_object()));
    assert_eq!(collection.serialize().to_string(), collection.serialize().to_string());
}

#[test]
fn reading_keeps_the_order_of_features_and_foreign_members() {
    let read = FeatureCollection::from_json_value(value(
        r#"{"zulu":1,"features":[{"type":"Feature","n":1},{"type":"Feature","n":2},{"type":"Feature","n":1}],
            "alpha":2,"type":"FeatureCollection","mike":3,"bbox":[1,2,3,4],"bravo":4}"#,
    ))
    .unwrap();
    let numbers: Vec<String> = read
        .features
        .iter()
        .map(|feature| feature.members.get("n").unwrap().to_string())
        .collect();
    assert_eq!(numbers, vec!["1", "2", "1"]);
    let keys: Vec<&str> =
        read.foreign_members.as_ref().unwrap().keys().map(|key| key.as_str()).collect();
    assert_eq!(keys, vec!["zulu", "alpha", "mike", "bravo"]);
    assert_eq!(read.bbox.as_ref().unwrap().len(), 4);
    assert_eq!(read.bbox.as_ref().unwrap()[2], JsonNumber::from(3));
}

#[test]
fn the_same_feature_may_stand_twice() {
    let read = FeatureCollection::from_json_value(value(
        r#"{"type":"FeatureCollection","features":[{"type":"Feature","geometry":null},{"type":"Feature","geometry":null}]}"#,
    ))
    .unwrap();
    assert_eq!(read.features.len(), 2);
    assert_eq!(read.features[0], read.features[1]);
    assert_eq!(read.bbox, None);
    assert_eq!(read.foreign_members, None);
}

#[test]
fn no_other_member_means_no_foreign_members() {
    let read =
        FeatureCollection::from_json_object(object(r#"{"type":"FeatureCollection","features":[],"bbox":[0,0,1,1]}"#))
            .unwrap();
    assert!(read.foreign_members.is_none());
    assert_eq!(read.features, vec![]);
}

#[test]
fn type_tag_is_enforced() {
    let outcome = FeatureCollection::from_json_value(value(r#"{"type":"Feature","features":[]}"#));
    assert_eq!(
        outcome,
        Err(Error::ExpectedType {
            expected: "FeatureCollection".to_string(),
            actual: "Feature".to_string()
        })
    );
}

#[test]
fn type_tag_is_compared_letter_for_letter() {
    let outcome = FeatureCollection::from_json_object(object(r#"{"type":"featurecollection","features":[]}"#));
    assert_eq!(
        outcome,
        Err(Error::ExpectedType {
            expected: "FeatureCollection".to_string(),
            actual: "featurecollection".to_string()
        })
    );
}

#[test]
fn type_tag_is_asked_first() {
    let outcome = FeatureCollection::from_json_object(object(r#"{"bbox":"wrong","features":7,"type":"Point"}"#));
    assert_eq!(
        outcome,
        Err(Error::ExpectedType { expected: "FeatureCollection".to_string(), actual: "Point".to_string() })
    );
}

#[test]
fn missing_type_is_a_typed_error() {
    let outcome = FeatureCollection::from_json_object(object(r#"{"features":[]}"#));
    assert_eq!(outcome, Err(Error::ExpectedProperty("type".to_string())));
}

#[test]
fn type_that_is_no_text_is_a_typed_error() {
    let outcome = FeatureCollection::from_json_object(object(r#"{"type":5,"features":[]}"#));
    assert_eq!(outcome, Err(Error::ExpectedStringValue(value("5"))));
}

#[test]
fn missing_features_is_a_typed_error() {
    let outcome = FeatureCollection::from_json_value(value(r#"{"type":"FeatureCollection"}"#));
    assert_eq!(outcome, Err(Error::ExpectedProperty("features".to_string())));
}

#[test]
fn root_that_is_no_object_is_rejected() {
    let outcome = FeatureCollection::from_json_value(value(r#""FeatureCollection""#));
    assert_eq!(outcome, Err(Error::GeoJsonExpectedObject(JsonValue::String("FeatureCollection".to_string()))));
    let outcome = FeatureCollection::from_json_value(value("[1,2]"));
    assert_eq!(outcome, Err(Error::GeoJsonExpectedObject(value("[1,2]"))));
}

#[test]
fn bbox_that_is_no_array_is_rejected() {
    let outcome =
        FeatureCollection::from_json_object(object(r#"{"type":"FeatureCollection","bbox":{"a":1},"features":[]}"#));
    assert_eq!(outcome, Err(Error::BboxExpectedArray(value(r#"{"a":1}"#))));
}

#[test]
fn bbox_item_that_is_no_number_is_rejected() {
    let outcome = FeatureCollection::from_json_object(object(
        r#"{"type":"FeatureCollection","bbox":[1,2,"three",null],"features":[]}"#,
    ));
    assert_eq!(outcome, Err(Error::BboxExpectedNumericValues(value(r#""three""#))));
}

#[test]
fn bbox_is_asked_before_features() {
    let outcome =
        FeatureCollection::from_json_object(object(r#"{"type":"FeatureCollection","features":3,"bbox":true}"#));
    assert_eq!(outcome, Err(Error::BboxExpectedArray(value("true"))));
}

#[test]
fn features_that_are_no_array_are_rejected() {
    let outcome = FeatureCollection::from_json_object(object(r#"{"type":"FeatureCollection","features":{"a":1}}"#));
    assert_eq!(outcome, Err(Error::ExpectedArrayValue(value(r#"{"a":1}"#))));
}

#[test]
fn feature_that_is_no_object_is_rejected() {
    let outcome = FeatureCollection::from_json_object(object(
        r#"{"type":"FeatureCollection","features":[{"type":"Feature"},17,{"type":"Wrong"}]}"#,
    ));
    assert_eq!(outcome, Err(Error::ExpectedObjectValue(value("17"))));
}

#[test]
fn first_feature_that_fails_decides() {
    let outcome = FeatureCollection::from_json_object(object(
        r#"{"type":"FeatureCollection","features":[{"type":"Feature"},{"type":"Wrong"},17]}"#,
    ));
    assert_eq!(
        outcome,
        Err(Error::ExpectedType { expected: "Feature".to_string(), actual: "Wrong".to_string() })
    );
}

#[test]
fn feature_without_type_is_rejected() {
    let outcome =
        FeatureCollection::from_json_object(object(r#"{"type":"FeatureCollection","features":[{"geometry":null}]}"#));
    assert_eq!(outcome, Err(Error::ExpectedProperty("type".to_string())));
}

#[test]
fn feature_round_trip() {
    let feature = Feature { members: object(r#"{"zed":1,"geometry":null,"properties":{"b":2,"a":1}}"#) };
    let written = feature.to_json_object();
    assert_eq!(
        text_of(&written),
        r#"{"type":"Feature","zed":1,"geometry":null,"properties":{"b":2,"a":1}}"#
    );
    assert_eq!(Feature::from_json_object(written.clone()), Ok(feature.clone()));
    assert_eq!(Feature::from_json_value(JsonValue::Object(written)), Ok(feature));
}

#[test]
fn feature_from_a_value_that_is_no_object() {
    assert_eq!(Feature::from_json_value(value("null")), Err(Error::ExpectedObjectValue(JsonValue::Null)));
}
