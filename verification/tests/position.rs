use geojson::position::{array_len, position_from_json, position_from_x_y, read_ordinates};
use geojson::{Error, JsonNumber, JsonValue, Position};

fn json(text: &str) -> JsonValue {
    serde_json::from_str(text).unwrap()
}

fn num(x: f64) -> JsonNumber {
    JsonNumber::from_f64(x).unwrap()
}

#[test]
fn growable_position_round_trip() {
    let position = <Vec<JsonNumber> as Position>::from_json_value(&json("[1.5, 2.5]")).unwrap();
    assert_eq!(position.x().as_f64(), Some(1.5));
    assert_eq!(position.y().as_f64(), Some(2.5));
    let made = <Vec<JsonNumber> as Position>::from_x_y(num(1.5), num(2.5));
    assert_eq!(made, position);
    assert_eq!(made.x().as_f64(), Some(1.5));
    assert_eq!(made.y().as_f64(), Some(2.5));
}

#[test]
fn pair_position_round_trip() {
    let position = <(JsonNumber, JsonNumber) as Position>::from_json_value(&json("[1.5, 2.5]")).unwrap();
    assert_eq!(position.x().as_f64(), Some(1.5));
    assert_eq!(position.y().as_f64(), Some(2.5));
    let made = <(JsonNumber, JsonNumber) as Position>::from_x_y(num(1.5), num(2.5));
    assert_eq!(made, position);
}

#[test]
fn triple_position_reads_three_ordinates() {
    let position =
        <(JsonNumber, JsonNumber, JsonNumber) as Position>::from_json_value(&json("[1.5, 2.5, -3.25]")).unwrap();
    assert_eq!(position.x().as_f64(), Some(1.5));
    assert_eq!(position.y().as_f64(), Some(2.5));
    assert_eq!(position.2.as_f64(), Some(-3.25));
}

#[test]
fn growable_position_keeps_further_ordinates() {
    let position = <Vec<JsonNumber> as Position>::from_json_value(&json("[1, 2, 3, 4.5]")).unwrap();
    assert_eq!(position.len(), 4);
    assert_eq!(position.x().as_f64(), Some(1.0));
    assert_eq!(position.y().as_f64(), Some(2.0));
    assert_eq!(position[3].as_f64(), Some(4.5));
}

#[test]
fn position_from_a_value_that_is_no_array() {
    let outcome = <Vec<JsonNumber> as Position>::from_json_value(&json(r#"{"x":1}"#));
    assert_eq!(outcome, Err(Error::ExpectedArrayValue(json(r#"{"x":1}"#))));
    let outcome = <(JsonNumber, JsonNumber) as Position>::from_json_value(&json("true"));
    assert_eq!(outcome, Err(Error::ExpectedArrayValue(json("true"))));
    let outcome = <(JsonNumber, JsonNumber, JsonNumber) as Position>::from_json_value(&json("null"));
    assert_eq!(outcome, Err(Error::ExpectedArrayValue(JsonValue::Null)));
}

#[test]
fn position_with_an_item_that_is_no_number() {
    let outcome = <Vec<JsonNumber> as Position>::from_json_value(&json(r#"[1, "two", null]"#));
    assert_eq!(outcome, Err(Error::ExpectedNumberValue(json(r#""two""#))));
    let outcome = <(JsonNumber, JsonNumber) as Position>::from_json_value(&json("[false, 2]"));
    assert_eq!(outcome, Err(Error::ExpectedNumberValue(json("false"))));
    let outcome = <(JsonNumber, JsonNumber, JsonNumber) as Position>::from_json_value(&json("[1, 2, []]"));
    assert_eq!(outcome, Err(Error::ExpectedNumberValue(json("[]"))));
}

#[test]
fn wrong_length_is_told_apart_before_reading() {
    assert!(position_from_json::<(JsonNumber, JsonNumber)>(&json("[1, 2, 3]")).is_none());
    assert!(position_from_json::<(JsonNumber, JsonNumber)>(&json("[1]")).is_none());
    assert!(position_from_json::<(JsonNumber, JsonNumber, JsonNumber)>(&json("[1, 2]")).is_none());
    assert!(position_from_json::<(JsonNumber, JsonNumber, JsonNumber)>(&json("[]")).is_none());
    assert_eq!(
        position_from_json::<(JsonNumber, JsonNumber)>(&json("[1.5, 2.5]")),
        Some(Ok((num(1.5), num(2.5))))
    );
    assert_eq!(
        position_from_json::<(JsonNumber, JsonNumber, JsonNumber)>(&json("[1.5, 2.5, 0.5]")),
        Some(Ok((num(1.5), num(2.5), num(0.5))))
    );
    assert_eq!(position_from_json::<Vec<JsonNumber>>(&json("[]")), Some(Ok(vec![])));
    assert_eq!(
        position_from_json::<(JsonNumber, JsonNumber)>(&json("7")),
        Some(Err(Error::ExpectedArrayValue(json("7"))))
    );
    assert_eq!(
        position_from_json::<(JsonNumber, JsonNumber)>(&json(r#"[1, "b"]"#)),
        Some(Err(Error::ExpectedNumberValue(json(r#""b""#))))
    );
}

#[test]
fn admitted_lengths() {
    assert!(<Vec<JsonNumber> as Position>::admits(0));
    assert!(<Vec<JsonNumber> as Position>::admits(5));
    assert!(<(JsonNumber, JsonNumber) as Position>::admits(2));
    assert!(!<(JsonNumber, JsonNumber) as Position>::admits(3));
    assert!(<(JsonNumber, JsonNumber, JsonNumber) as Position>::admits(3));
    assert!(!<(JsonNumber, JsonNumber, JsonNumber) as Position>::admits(2));
}

#[test]
fn ordinates_and_lengths_of_values() {
    assert_eq!(read_ordinates(&json("[3, 4.5]")), Ok(vec![JsonNumber::from(3), num(4.5)]));
    assert_eq!(array_len(&json("[3, 4.5, null]")), Some(3));
    assert_eq!(array_len(&json(r#""text""#)), None);
}

#[test]
fn two_ordinates_make_a_position_where_the_kind_holds_two() {
    assert_eq!(position_from_x_y::<Vec<JsonNumber>>(num(1.5), num(2.5)), Some(vec![num(1.5), num(2.5)]));
    assert_eq!(position_from_x_y::<(JsonNumber, JsonNumber)>(num(1.5), num(2.5)), Some((num(1.5), num(2.5))));
    assert_eq!(position_from_x_y::<(JsonNumber, JsonNumber, JsonNumber)>(num(1.5), num(2.5)), None);
}
