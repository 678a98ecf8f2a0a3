use geojson::feature::get_features;
use geojson::util::{
    expect_numbers, expect_owned_array, expect_owned_object, expect_property, expect_string,
    expect_type, get_bbox, get_foreign_members, insert_all, is_tag,
};
use geojson::{Error, Feature, FeatureCollection, JsonNumber, JsonObject, JsonValue};

fn parsed(text: &str) -> JsonValue {
    serde_json::from_str(text).unwrap()
}

fn parsed_object(text: &str) -> JsonObject {
    match parsed(text) {
        JsonValue::Object(object) => object,
        other => panic!("not an object: {}", other),
    }
}

fn keys_of(object: &JsonObject) -> Vec<String> {
    object.keys().cloned().collect()
}

#[test]
fn expect_property_takes_the_member_out_and_keeps_the_order() {
    let mut object = parsed_object(r#"{"a":1,"b":2,"c":3,"d":4}"#);
    assert_eq!(expect_property(&mut object, "b"), Ok(parsed("2")));
    assert_eq!(keys_of(&object), vec!["a", "c", "d"]);
    assert_eq!(expect_property(&mut object, "a"), Ok(parsed("1")));
    assert_eq!(keys_of(&object), vec!["c", "d"]);
    assert_eq!(expect_property(&mut object, "d"), Ok(parsed("4")));
    assert_eq!(keys_of(&object), vec!["c"]);
}

#[test]
fn expect_property_names_what_is_missing() {
    let mut object = parsed_object(r#"{"a":1,"b":2}"#);
    assert_eq!(expect_property(&mut object, "z"), Err(Error::ExpectedProperty("z".to_string())));
    assert_eq!(keys_of(&object), vec!["a", "b"]);
}

#[test]
fn expect_string_gives_the_text_or_the_value() {
    assert_eq!(expect_string(parsed(r#""Point""#)), Ok("Point".to_string()));
    assert_eq!(expect_string(parsed("[1]")), Err(Error::ExpectedStringValue(parsed("[1]"))));
}

#[test]
fn expect_type_reads_and_removes_the_tag() {
    let mut object = parsed_object(r#"{"x":1,"type":"Anything","y":2}"#);
    assert_eq!(expect_type(&mut object), Ok("Anything".to_string()));
    assert_eq!(keys_of(&object), vec!["x", "y"]);
    let mut untagged = parsed_object(r#"{"x":1}"#);
    assert_eq!(expect_type(&mut untagged), Err(Error::ExpectedProperty("type".to_string())));
    let mut wrong = parsed_object(r#"{"type":null,"x":1}"#);
    assert_eq!(expect_type(&mut wrong), Err(Error::ExpectedStringValue(JsonValue::Null)));
    assert_eq!(keys_of(&wrong), vec!["x"]);
}

#[test]
fn expect_owned_array_and_object() {
    assert_eq!(expect_owned_array(parsed("[1,[2]]")), Ok(vec![parsed("1"), parsed("[2]")]));
    assert_eq!(expect_owned_array(parsed("{}")), Err(Error::ExpectedArrayValue(parsed("{}"))));
    assert_eq!(expect_owned_object(parsed(r#"{"k":[1]}"#)), Ok(parsed_object(r#"{"k":[1]}"#)));
    assert_eq!(expect_owned_object(parsed("3.5")), Err(Error::ExpectedObjectValue(parsed("3.5"))));
}

#[test]
fn expect_numbers_gives_all_or_the_first_other() {
    assert_eq!(
        expect_numbers(vec![parsed("1"), parsed("-2"), parsed("0.5")]),
        Ok(vec![JsonNumber::from(1), JsonNumber::from(-2), JsonNumber::from_f64(0.5).unwrap()])
    );
    assert_eq!(expect_numbers(vec![]), Ok(vec![]));
    assert_eq!(expect_numbers(vec![parsed("1"), parsed("true"), parsed("null")]), Err(parsed("true")));
}

#[test]
fn get_bbox_takes_the_box_out() {
    let mut object = parsed_object(r#"{"a":1,"bbox":[1.5,2,3,4],"b":2}"#);
    let numbers = get_bbox(&mut object).unwrap().unwrap();
    assert_eq!(
        numbers,
        vec![JsonNumber::from_f64(1.5).unwrap(), JsonNumber::from(2), JsonNumber::from(3), JsonNumber::from(4)]
    );
    assert_eq!(keys_of(&object), vec!["a", "b"]);
    let mut without = parsed_object(r#"{"a":1}"#);
    assert_eq!(get_bbox(&mut without), Ok(None));
    assert_eq!(keys_of(&without), vec!["a"]);
    let mut empty = parsed_object(r#"{"bbox":[]}"#);
    assert_eq!(get_bbox(&mut empty), Ok(Some(vec![])));
}

#[test]
fn get_features_reads_each_item() {
    let mut object = parsed_object(r#"{"k":0,"features":[{"type":"Feature","a":1},{"b":2,"type":"Feature"}],"l":1}"#);
    let features = get_features(&mut object).unwrap();
    assert_eq!(
        features,
        vec![
            Feature { members: parsed_object(r#"{"a":1}"#) },
            Feature { members: parsed_object(r#"{"b":2}"#) },
        ]
    );
    assert_eq!(keys_of(&object), vec!["k", "l"]);
}

#[test]
fn get_foreign_members_of_nothing_is_none() {
    assert_eq!(get_foreign_members(JsonObject::new()), None);
    assert_eq!(get_foreign_members(parsed_object(r#"{"a":1}"#)), Some(parsed_object(r#"{"a":1}"#)));
}

#[test]
fn is_tag_compares_whole_texts() {
    assert!(is_tag(&"Feature".to_string(), "Feature"));
    assert!(!is_tag(&"Feature".to_string(), "FeatureCollection"));
    assert!(!is_tag(&"feature".to_string(), "Feature"));
    assert!(!is_tag(&"".to_string(), "Feature"));
}

#[test]
fn insert_all_appends_new_keys_and_replaces_in_place() {
    let mut object = parsed_object(r#"{"a":1,"b":2}"#);
    insert_all(&mut object, &parsed_object(r#"{"c":3,"a":10,"d":4}"#));
    assert_eq!(serde_json::to_string(&object).unwrap(), r#"{"a":10,"b":2,"c":3,"d":4}"#);
}

#[test]
fn a_foreign_member_under_a_reserved_key_takes_that_member_s_place() {
    let collection = FeatureCollection {
        bbox: None,
        features: vec![],
        foreign_members: Some(parsed_object(r#"{"note":"n","features":5,"type":"Other"}"#)),
    };
    assert_eq!(
        serde_json::to_string(&collection.to_json_object()).unwrap(),
        r#"{"type":"Other","features":5,"note":"n"}"#
    );
    assert_eq!(
        collection.serialize().to_string(),
        r#"{"type":"Other","note":"n","features":[]}"#
    );
}
