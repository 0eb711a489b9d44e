use vstd::prelude::*;
use vstd::string::StringExecFns;

verus! {

/// One chat message of a code sample.
#[derive(Debug, PartialEq, Eq)]
pub struct CodeInput {
    pub content: String,
    pub role: String,
}

/// A sample in the instruction layout.
#[derive(Debug, PartialEq, Eq)]
pub struct AlpacaFormat {
    pub _system: String,
    pub _tools: String,
}

/// A sample in the conversation layout.
#[derive(Debug, PartialEq, Eq)]
pub struct ShareGPTFormat {
    pub _system: String,
    pub _tools: String,
}

/// A raw source file.
#[derive(Debug, PartialEq, Eq)]
pub struct StarcoderInput {
    pub content: String,
}

/// A code snippet paired with its explanation.
#[derive(Debug, PartialEq, Eq)]
pub struct RustExplanationInput {
    pub input: String,
    pub output: String,
}

/// The system prompt that every sample carries.
pub open spec fn system_prompt() -> Seq<char> {
    "You are a helpful coding assistant."@
}

/// An explanation pair laid out as one text.
pub open spec fn explanation_text(input: Seq<char>, output: Seq<char>) -> Seq<char> {
    "Input:\n"@ + input + "\nOutput:\n"@ + output
}

impl AlpacaFormat {
    /// Wraps source text.
    pub fn from_code(content: String) -> (sample: Self)
        ensures
            sample._system@ == system_prompt(),
            sample._tools == content,
    {
        Self { _system: String::from_str("You are a helpful coding assistant."), _tools: content }
    }

    /// Wraps a raw source file.
    pub fn from_starcoder(input: StarcoderInput) -> (sample: Self)
        ensures
            sample._system@ == system_prompt(),
            sample._tools == input.content,
    {
        Self { _system: String::from_str("You are a helpful coding assistant."), _tools: input.content }
    }

    /// Lays out a snippet and its explanation as one text.
    pub fn from_rust_explanation(input: RustExplanationInput) -> (sample: Self)
        ensures
            sample._system@ == system_prompt(),
            sample._tools@ == explanation_text(input.input@, input.output@),
    {
        let mut text = String::from_str("Input:\n");
        text.append(input.input.as_str());
        text.append("\nOutput:\n");
        text.append(input.output.as_str());
        Self { _system: String::from_str("You are a helpful coding assistant."), _tools: text }
    }
}

impl ShareGPTFormat {
    /// Wraps source text.
    pub fn from_code(content: String) -> (sample: Self)
        ensures
            sample._system@ == system_prompt(),
            sample._tools == content,
    {
        Self { _system: String::from_str("You are a helpful coding assistant."), _tools: content }
    }
}

} // verus!
