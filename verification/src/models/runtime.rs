use vstd::prelude::*;

use crate::models::features::{default_features, string_message, Features, FeaturesView, MessageSchema};
use crate::text::{occurs_in, text_contains};

verus! {

/// The part of a schema error that tells of a response column typed as a
/// sequence of nulls.
pub open spec fn null_sequence_marker() -> Seq<char> {
    "Sequence(feature=Value(dtype='null'"@
}

/// The schema to use after a schema error with the given text: where the
/// error tells of a null sequence, the response column is given the
/// string-message schema; all else is the default schema.
pub open spec fn adjusted_features(error: Seq<char>) -> FeaturesView {
    if occurs_in(null_sequence_marker(), error) {
        FeaturesView { _response: seq![string_message()], ..default_features() }
    } else {
        default_features()
    }
}

/// Whether a schema error tells of a response column typed as a sequence of nulls.
pub fn reports_null_sequence(error: &str) -> (reported: bool)
    ensures
        reported == occurs_in(null_sequence_marker(), error@),
{
    text_contains(error, "Sequence(feature=Value(dtype='null'")
}

/// Chooses the schema to retry with after a schema error.
pub struct FeatureAdjuster {}

impl FeatureAdjuster {
    /// An adjuster; it keeps no state between errors.
    pub fn new() -> Self {
        FeatureAdjuster {  }
    }

    /// The schema to use after a schema error with the given text. The
    /// adjustment restores what the default schema already holds, so the
    /// result is the default schema whatever the error says.
    pub fn adjust_features(&self, error: &str) -> (features: Features)
        ensures
            features@ == adjusted_features(error@),
            features@ == default_features(),
    {
        let mut features = Features::default();
        if reports_null_sequence(error) {
            let mut response: Vec<MessageSchema> = Vec::new();
            response.push(MessageSchema::strings());
            features._response = response;
        }
        assert(features@ =~= default_features());
        assert(adjusted_features(error@) =~= default_features());
        features
    }
}

} // verus!
