use std::collections::HashMap;
use vstd::prelude::*;

verus! {

/// Primitive type of a schema entry.
#[derive(Debug, Clone, Copy, PartialEq, Eq)]
pub enum FeatureType {
    String,
    Null,
}

/// A scalar schema entry.
#[derive(Debug, PartialEq, Eq)]
pub struct Value {
    pub dtype: FeatureType,
    pub id: Option<String>,
}

/// Schema of one chat message.
#[derive(Debug, PartialEq, Eq)]
pub struct MessageSchema {
    pub content: Value,
    pub role: Value,
}

/// A list-valued schema entry.
#[derive(Debug, PartialEq, Eq)]
pub struct Sequence {
    pub feature: Value,
    pub length: i32,
    pub id: Option<String>,
}

/// Schema of a prepared dataset.
#[derive(Debug, PartialEq, Eq)]
pub struct Features {
    pub _prompt: Vec<MessageSchema>,
    pub _response: Vec<MessageSchema>,
    pub _system: Value,
    pub _tools: Value,
    pub _images: Value,
    pub _videos: Value,
}

/// Prepared columns together with their schema.
#[derive(Debug, PartialEq, Eq)]
pub struct DatasetOutput {
    pub data: HashMap<String, Vec<Vec<Option<String>>>>,
    pub features: Features,
}

/// Mathematical content of a [`Value`].
pub struct ValueView {
    pub dtype: FeatureType,
    pub id: Option<Seq<char>>,
}

/// Mathematical content of a [`MessageSchema`].
pub struct MessageSchemaView {
    pub content: ValueView,
    pub role: ValueView,
}

/// Mathematical content of a [`Features`].
#[verifier::ext_equal]
pub struct FeaturesView {
    pub _prompt: Seq<MessageSchemaView>,
    pub _response: Seq<MessageSchemaView>,
    pub _system: ValueView,
    pub _tools: ValueView,
    pub _images: ValueView,
    pub _videos: ValueView,
}

impl View for Value {
    type V = ValueView;

    open spec fn view(&self) -> ValueView {
        ValueView {
            dtype: self.dtype,
            id: match self.id {
                Some(id) => Some(id@),
                None => None,
            },
        }
    }
}

impl View for MessageSchema {
    type V = MessageSchemaView;

    open spec fn view(&self) -> MessageSchemaView {
        MessageSchemaView { content: self.content@, role: self.role@ }
    }
}

/// The content of a list of message schemas.
pub open spec fn message_views(messages: Seq<MessageSchema>) -> Seq<MessageSchemaView> {
    Seq::new(messages.len(), |i: int| messages[i]@)
}

impl View for Features {
    type V = FeaturesView;

    open spec fn view(&self) -> FeaturesView {
        FeaturesView {
            _prompt: message_views(self._prompt@),
            _response: message_views(self._response@),
            _system: self._system@,
            _tools: self._tools@,
            _images: self._images@,
            _videos: self._videos@,
        }
    }
}

/// An entry of the given type that carries no identifier.
pub open spec fn plain_value(dtype: FeatureType) -> ValueView {
    ValueView { dtype, id: None }
}

/// The schema of a message whose content and role are both strings.
pub open spec fn string_message() -> MessageSchemaView {
    MessageSchemaView { content: plain_value(FeatureType::String), role: plain_value(FeatureType::String) }
}

/// The schema that prepared data has unless adjusted: prompt and response
/// are single string messages, system and tools are strings, images and
/// videos are null.
pub open spec fn default_features() -> FeaturesView {
    FeaturesView {
        _prompt: seq![string_message()],
        _response: seq![string_message()],
        _system: plain_value(FeatureType::String),
        _tools: plain_value(FeatureType::String),
        _images: plain_value(FeatureType::Null),
        _videos: plain_value(FeatureType::Null),
    }
}

impl Clone for Value {
    fn clone(&self) -> (copy: Self)
        ensures
            copy@ == self@,
    {
        Value {
            dtype: self.dtype,
            id: match &self.id {
                Some(id) => Some(id.clone()),
                None => None,
            },
        }
    }
}

impl Clone for MessageSchema {
    fn clone(&self) -> (copy: Self)
        ensures
            copy@ == self@,
    {
        MessageSchema { content: self.content.clone(), role: self.role.clone() }
    }
}

impl Value {
    /// An entry of the given type without identifier.
    pub fn plain(dtype: FeatureType) -> (value: Value)
        ensures
            value@ == plain_value(dtype),
    {
        Value { dtype, id: None }
    }
}

impl MessageSchema {
    /// The schema of a message whose content and role are both strings.
    pub fn strings() -> (schema: MessageSchema)
        ensures
            schema@ == string_message(),
    {
        MessageSchema { content: Value::plain(FeatureType::String), role: Value::plain(FeatureType::String) }
    }
}

impl Default for Features {
    fn default() -> (features: Features)
        ensures
            features@ == default_features(),
    {
        let mut prompt: Vec<MessageSchema> = Vec::new();
        prompt.push(MessageSchema::strings());
        let mut response: Vec<MessageSchema> = Vec::new();
        response.push(MessageSchema::strings());
        let features = Features {
            _prompt: prompt,
            _response: response,
            _system: Value::plain(FeatureType::String),
            _tools: Value::plain(FeatureType::String),
            _images: Value::plain(FeatureType::Null),
            _videos: Value::plain(FeatureType::Null),
        };
        assert(features@ =~= default_features());
        features
    }
}

impl DatasetOutput {
    /// Gives the response column the string-message schema where it has
    /// none; a schema that is already there stays, and so does all else.
    pub fn ensure_message_schema(&mut self)
        ensures
            final(self).data == old(self).data,
            final(self).features@ == if old(self).features._response@.len() == 0 {
                FeaturesView { _response: seq![string_message()], ..old(self).features@ }
            } else {
                old(self).features@
            },
    {
        if self.features._response.is_empty() {
            let mut response: Vec<MessageSchema> = Vec::new();
            response.push(MessageSchema::strings());
            self.features._response = response;
            assert(self.features@ =~= FeaturesView { _response: seq![string_message()], ..old(self).features@ });
        }
    }
}

} // verus!
