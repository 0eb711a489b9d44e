use rust_converter::conversion::{
    combine_samples, convert_single, dataset_kind, CodeSample, ConvertError, ConvertedSample,
    DatasetColumns, DatasetKind,
};
use rust_converter::models::data_formats::{
    AlpacaFormat, CodeInput, RustExplanationInput, ShareGPTFormat, StarcoderInput,
};
use rust_converter::text::same_text;

const SYSTEM: &str = "You are a helpful coding assistant.";

fn text(s: &str) -> Option<String> {
    Some(s.to_string())
}

#[test]
fn alpaca_from_code() {
    let sample = AlpacaFormat::from_code("fn main() {}".to_string());
    assert_eq!(sample, AlpacaFormat { _system: SYSTEM.to_string(), _tools: "fn main() {}".to_string() });
}

#[test]
fn alpaca_from_starcoder() {
    let sample = AlpacaFormat::from_starcoder(StarcoderInput { content: "let x = 1;".to_string() });
    assert_eq!(sample, AlpacaFormat { _system: SYSTEM.to_string(), _tools: "let x = 1;".to_string() });
}

#[test]
fn alpaca_from_rust_explanation() {
    let sample = AlpacaFormat::from_rust_explanation(RustExplanationInput {
        input: "a + b".to_string(),
        output: "adds two numbers".to_string(),
    });
    assert_eq!(sample._system, SYSTEM);
    assert_eq!(sample._tools, "Input:\na + b\nOutput:\nadds two numbers");
}

#[test]
fn alpaca_from_empty_explanation() {
    let sample =
        AlpacaFormat::from_rust_explanation(RustExplanationInput { input: String::new(), output: String::new() });
    assert_eq!(sample._tools, "Input:\n\nOutput:\n");
}

#[test]
fn sharegpt_from_code() {
    let sample = ShareGPTFormat::from_code("x".to_string());
    assert_eq!(sample, ShareGPTFormat { _system: SYSTEM.to_string(), _tools: "x".to_string() });
}

#[test]
fn code_input_holds_its_fields() {
    let message = CodeInput { content: "c".to_string(), role: "user".to_string() };
    assert_eq!(message.content, "c");
    assert_eq!(message.role, "user");
}

#[test]
fn same_text_compares_character_for_character() {
    assert!(same_text("", ""));
    assert!(same_text("alpaca", "alpaca"));
    assert!(!same_text("alpaca", "alpacas"));
    assert!(!same_text("alpaca", "Alpaca"));
    assert!(!same_text("alpaca", ""));
    assert!(same_text("naïve ✓", "naïve ✓"));
    assert!(!same_text("naïve ✓", "naive ✓"));
}

#[test]
fn dataset_kinds_by_name() {
    assert_eq!(dataset_kind("starcoder"), Ok(DatasetKind::Starcoder));
    assert_eq!(dataset_kind("rust_explanation"), Ok(DatasetKind::RustExplanation));
}

#[test]
fn unknown_dataset_names_are_rejected() {
    assert_eq!(dataset_kind("alpaca"), Err(ConvertError::UnsupportedDatasetType));
    assert_eq!(dataset_kind(""), Err(ConvertError::UnsupportedDatasetType));
    assert_eq!(dataset_kind("Starcoder"), Err(ConvertError::UnsupportedDatasetType));
    assert_eq!(dataset_kind("rust explanation"), Err(ConvertError::UnsupportedDatasetType));
}

fn columns_for(body: &str) -> ConvertedSample {
    ConvertedSample {
        _prompt: vec![text(body)],
        _response: vec![text(body)],
        _system: vec![text(SYSTEM)],
        _tools: vec![text("")],
        _images: vec![None],
        _videos: vec![None],
    }
}

#[test]
fn starcoder_sample_in_instruction_layout() {
    let sample = CodeSample::Starcoder(StarcoderInput { content: "fn f() {}".to_string() });
    assert_eq!(convert_single(sample, "alpaca"), Ok(columns_for("fn f() {}")));
}

#[test]
fn explanation_sample_in_instruction_layout() {
    let sample = CodeSample::RustExplanation(RustExplanationInput {
        input: "x?".to_string(),
        output: "try".to_string(),
    });
    assert_eq!(convert_single(sample, "alpaca"), Ok(columns_for("Input:\nx?\nOutput:\ntry")));
}

#[test]
fn other_layouts_are_rejected() {
    let sample = CodeSample::Starcoder(StarcoderInput { content: "c".to_string() });
    assert_eq!(
        convert_single(sample, "sharegpt"),
        Err(ConvertError::UnsupportedFormatType { kind: DatasetKind::Starcoder })
    );
    let sample =
        CodeSample::RustExplanation(RustExplanationInput { input: "i".to_string(), output: "o".to_string() });
    assert_eq!(
        convert_single(sample, ""),
        Err(ConvertError::UnsupportedFormatType { kind: DatasetKind::RustExplanation })
    );
}

#[test]
fn error_messages() {
    assert_eq!(ConvertError::UnsupportedDatasetType.message(), "Unsupported dataset type");
    assert_eq!(
        ConvertError::UnsupportedFormatType { kind: DatasetKind::Starcoder }.message(),
        "Unsupported format type for starcoder"
    );
    assert_eq!(
        ConvertError::UnsupportedFormatType { kind: DatasetKind::RustExplanation }.message(),
        "Unsupported format type for rust explanation"
    );
    assert_eq!(
        ConvertError::InvalidInput { kind: DatasetKind::Starcoder, detail: "missing field `content`".to_string() }
            .message(),
        "Invalid starcoder input data: missing field `content`"
    );
    assert_eq!(
        ConvertError::InvalidInput { kind: DatasetKind::RustExplanation, detail: "EOF".to_string() }.message(),
        "Invalid rust explanation input data: EOF"
    );
}

#[test]
fn samples_are_gathered_column_by_column() {
    let columns = combine_samples(vec![columns_for("a"), columns_for("b")]);
    assert_eq!(
        columns,
        DatasetColumns {
            _prompt: vec![vec![text("a")], vec![text("b")]],
            _response: vec![vec![text("a")], vec![text("b")]],
            _system: vec![vec![text(SYSTEM)], vec![text(SYSTEM)]],
            _tools: vec![vec![text("")], vec![text("")]],
            _images: vec![vec![None], vec![None]],
            _videos: vec![vec![None], vec![None]],
        }
    );
}

#[test]
fn no_samples_give_empty_columns() {
    let columns = combine_samples(vec![]);
    assert!(columns._prompt.is_empty());
    assert!(columns._response.is_empty());
    assert!(columns._system.is_empty());
    assert!(columns._tools.is_empty());
    assert!(columns._images.is_empty());
    assert!(columns._videos.is_empty());
}
