use std::collections::HashMap;

use rust_converter::models::features::{
    DatasetOutput, FeatureType, Features, MessageSchema, Sequence, Value,
};
use rust_converter::models::runtime::{reports_null_sequence, FeatureAdjuster};

fn string_value() -> Value {
    Value { dtype: FeatureType::String, id: None }
}

fn null_value() -> Value {
    Value { dtype: FeatureType::Null, id: None }
}

fn string_message() -> MessageSchema {
    MessageSchema { content: string_value(), role: string_value() }
}

fn default_schema() -> Features {
    Features {
        _prompt: vec![string_message()],
        _response: vec![string_message()],
        _system: string_value(),
        _tools: string_value(),
        _images: null_value(),
        _videos: null_value(),
    }
}

#[test]
fn plain_value_has_no_identifier() {
    assert_eq!(Value::plain(FeatureType::Null), null_value());
    assert_eq!(Value::plain(FeatureType::String), string_value());
}

#[test]
fn string_message_schema() {
    assert_eq!(MessageSchema::strings(), string_message());
}

#[test]
fn default_features_are_the_string_message_schema() {
    assert_eq!(Features::default(), default_schema());
}

#[test]
fn cloning_a_value_keeps_its_fields() {
    let value = Value { dtype: FeatureType::Null, id: Some("col".to_string()) };
    assert_eq!(value.clone(), value);
    let message = MessageSchema { content: value.clone(), role: string_value() };
    assert_eq!(message.clone(), message);
}

#[test]
fn sequence_entry_holds_its_fields() {
    let entry = Sequence { feature: null_value(), length: -1, id: None };
    assert_eq!(entry.feature, null_value());
    assert_eq!(entry.length, -1);
    assert_eq!(entry.id, None);
}

#[test]
fn missing_response_schema_is_filled_in() {
    let mut data = HashMap::new();
    data.insert("_prompt".to_string(), vec![vec![Some("p".to_string())]]);
    let mut features = default_schema();
    features._response = vec![];
    features._images = string_value();
    let mut output = DatasetOutput { data: data.clone(), features };
    output.ensure_message_schema();
    let mut expected = default_schema();
    expected._images = string_value();
    assert_eq!(output.features, expected);
    assert_eq!(output.data, data);
}

#[test]
fn present_response_schema_is_kept() {
    let odd = MessageSchema { content: null_value(), role: string_value() };
    let mut features = default_schema();
    features._response = vec![odd.clone(), odd.clone()];
    let mut output = DatasetOutput { data: HashMap::new(), features };
    output.ensure_message_schema();
    assert_eq!(output.features._response, vec![odd.clone(), odd]);
    assert_eq!(output.features._prompt, vec![string_message()]);
    assert!(output.data.is_empty());
}

#[test]
fn null_sequence_is_recognised_in_an_error() {
    assert!(reports_null_sequence(
        "type mismatch: Sequence(feature=Value(dtype='null', id=None), length=-1) in column _response"
    ));
    assert!(reports_null_sequence("Sequence(feature=Value(dtype='null'"));
}

#[test]
fn other_errors_report_no_null_sequence() {
    assert!(!reports_null_sequence(""));
    assert!(!reports_null_sequence("Sequence(feature=Value(dtype='string'"));
    assert!(!reports_null_sequence("Sequence(feature=Value(dtype='nul"));
    assert!(!reports_null_sequence("sequence(feature=value(dtype='null'"));
}

#[test]
fn adjusted_features_are_the_default_schema() {
    let adjuster = FeatureAdjuster::new();
    assert_eq!(
        adjuster.adjust_features("Sequence(feature=Value(dtype='null', id=None)"),
        default_schema()
    );
    assert_eq!(adjuster.adjust_features("something else broke"), default_schema());
}
