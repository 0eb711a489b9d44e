pub mod data_formats;
pub mod features;
pub mod packing;
pub mod packing_laws;
pub mod packing_model;
pub mod runtime;

pub use data_formats::{AlpacaFormat, CodeInput, RustExplanationInput, ShareGPTFormat, StarcoderInput};
pub use features::{DatasetOutput, FeatureType, Features, Sequence, Value};
pub use packing::pack_dataset;
pub use runtime::FeatureAdjuster;
