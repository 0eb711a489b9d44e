use vstd::prelude::*;
use vstd::string::StringExecFns;

use crate::models::data_formats::{
    explanation_text, system_prompt, AlpacaFormat, RustExplanationInput, StarcoderInput,
};
use crate::text::same_text;

verus! {

/// The kinds of source data that can be prepared.
#[derive(Debug, Clone, Copy, PartialEq, Eq)]
pub enum DatasetKind {
    Starcoder,
    RustExplanation,
}

/// One parsed sample of source data.
#[derive(Debug, PartialEq, Eq)]
pub enum CodeSample {
    Starcoder(StarcoderInput),
    RustExplanation(RustExplanationInput),
}

/// Why a sample could not be prepared.
#[derive(Debug, PartialEq, Eq)]
pub enum ConvertError {
    /// The dataset type is none of the known ones.
    UnsupportedDatasetType,
    /// The sample's text is not a record of its dataset type.
    InvalidInput { kind: DatasetKind, detail: String },
    /// The dataset type has no conversion to the requested layout.
    UnsupportedFormatType { kind: DatasetKind },
}

/// One prepared sample: the value of each of the six columns.
#[derive(Debug, PartialEq, Eq)]
pub struct ConvertedSample {
    pub _prompt: Vec<Option<String>>,
    pub _response: Vec<Option<String>>,
    pub _system: Vec<Option<String>>,
    pub _tools: Vec<Option<String>>,
    pub _images: Vec<Option<String>>,
    pub _videos: Vec<Option<String>>,
}

/// Prepared samples, column by column: entry `j` of a column is sample
/// `j`'s value in that column.
#[derive(Debug, PartialEq, Eq)]
pub struct DatasetColumns {
    pub _prompt: Vec<Vec<Option<String>>>,
    pub _response: Vec<Vec<Option<String>>>,
    pub _system: Vec<Vec<Option<String>>>,
    pub _tools: Vec<Vec<Option<String>>>,
    pub _images: Vec<Vec<Option<String>>>,
    pub _videos: Vec<Vec<Option<String>>>,
}

/// The content of one cell.
pub open spec fn cell_view(cell: Option<String>) -> Option<Seq<char>> {
    match cell {
        Some(text) => Some(text@),
        None => None,
    }
}

/// The content of one column value.
pub open spec fn cells_view(cells: Seq<Option<String>>) -> Seq<Option<Seq<char>>> {
    Seq::new(cells.len(), |i: int| cell_view(cells[i]))
}

/// The content of one column.
pub open spec fn column_view(column: Seq<Vec<Option<String>>>) -> Seq<Seq<Option<Seq<char>>>> {
    Seq::new(column.len(), |j: int| cells_view(column[j]@))
}

/// Mathematical content of a [`ConvertedSample`].
#[verifier::ext_equal]
pub struct ConvertedSampleView {
    pub _prompt: Seq<Option<Seq<char>>>,
    pub _response: Seq<Option<Seq<char>>>,
    pub _system: Seq<Option<Seq<char>>>,
    pub _tools: Seq<Option<Seq<char>>>,
    pub _images: Seq<Option<Seq<char>>>,
    pub _videos: Seq<Option<Seq<char>>>,
}

/// Mathematical content of a [`DatasetColumns`].
#[verifier::ext_equal]
pub struct DatasetColumnsView {
    pub _prompt: Seq<Seq<Option<Seq<char>>>>,
    pub _response: Seq<Seq<Option<Seq<char>>>>,
    pub _system: Seq<Seq<Option<Seq<char>>>>,
    pub _tools: Seq<Seq<Option<Seq<char>>>>,
    pub _images: Seq<Seq<Option<Seq<char>>>>,
    pub _videos: Seq<Seq<Option<Seq<char>>>>,
}

impl View for ConvertedSample {
    type V = ConvertedSampleView;

    open spec fn view(&self) -> ConvertedSampleView {
        ConvertedSampleView {
            _prompt: cells_view(self._prompt@),
            _response: cells_view(self._response@),
            _system: cells_view(self._system@),
            _tools: cells_view(self._tools@),
            _images: cells_view(self._images@),
            _videos: cells_view(self._videos@),
        }
    }
}

impl View for DatasetColumns {
    type V = DatasetColumnsView;

    open spec fn view(&self) -> DatasetColumnsView {
        DatasetColumnsView {
            _prompt: column_view(self._prompt@),
            _response: column_view(self._response@),
            _system: column_view(self._system@),
            _tools: column_view(self._tools@),
            _images: column_view(self._images@),
            _videos: column_view(self._videos@),
        }
    }
}

/// The dataset kind that a name stands for.
pub open spec fn kind_named(dataset_type: Seq<char>) -> Option<DatasetKind> {
    if dataset_type == "starcoder"@ {
        Some(DatasetKind::Starcoder)
    } else if dataset_type == "rust_explanation"@ {
        Some(DatasetKind::RustExplanation)
    } else {
        None
    }
}

impl CodeSample {
    /// The kind of source data that the sample came from.
    pub open spec fn kind(self) -> DatasetKind {
        match self {
            CodeSample::Starcoder(_) => DatasetKind::Starcoder,
            CodeSample::RustExplanation(_) => DatasetKind::RustExplanation,
        }
    }

    /// The text that the sample contributes to a training record.
    pub open spec fn training_text(self) -> Seq<char> {
        match self {
            CodeSample::Starcoder(input) => input.content@,
            CodeSample::RustExplanation(input) => explanation_text(input.input@, input.output@),
        }
    }
}

/// The columns of a sample in the instruction layout: its text as prompt
/// and as response, the system prompt, empty tools, no images, no videos.
pub open spec fn instruction_columns(text: Seq<char>) -> ConvertedSampleView {
    ConvertedSampleView {
        _prompt: seq![Some(text)],
        _response: seq![Some(text)],
        _system: seq![Some(system_prompt())],
        _tools: seq![Some(Seq::<char>::empty())],
        _images: seq![None],
        _videos: seq![None],
    }
}

/// What preparing `sample` for the layout named `format_type` yields.
pub open spec fn conversion_of(sample: CodeSample, format_type: Seq<char>) -> Result<
    ConvertedSampleView,
    ConvertError,
> {
    if format_type == "alpaca"@ {
        Ok(instruction_columns(sample.training_text()))
    } else {
        Err(ConvertError::UnsupportedFormatType { kind: sample.kind() })
    }
}

/// The content of a conversion result.
pub open spec fn conversion_view(outcome: Result<ConvertedSample, ConvertError>) -> Result<
    ConvertedSampleView,
    ConvertError,
> {
    match outcome {
        Ok(sample) => Ok(sample@),
        Err(e) => Err(e),
    }
}

/// The content of a list of prepared samples.
pub open spec fn sample_views(samples: Seq<ConvertedSample>) -> Seq<ConvertedSampleView> {
    Seq::new(samples.len(), |j: int| samples[j]@)
}

/// The samples turned into columns.
pub open spec fn columns_of(samples: Seq<ConvertedSampleView>) -> DatasetColumnsView {
    DatasetColumnsView {
        _prompt: Seq::new(samples.len(), |j: int| samples[j]._prompt),
        _response: Seq::new(samples.len(), |j: int| samples[j]._response),
        _system: Seq::new(samples.len(), |j: int| samples[j]._system),
        _tools: Seq::new(samples.len(), |j: int| samples[j]._tools),
        _images: Seq::new(samples.len(), |j: int| samples[j]._images),
        _videos: Seq::new(samples.len(), |j: int| samples[j]._videos),
    }
}

/// The text of an error, as it is shown to the caller.
pub open spec fn error_text(error: ConvertError) -> Seq<char> {
    match error {
        ConvertError::UnsupportedDatasetType => "Unsupported dataset type"@,
        ConvertError::InvalidInput { kind: DatasetKind::Starcoder, detail } => "Invalid starcoder input data: "@
            + detail@,
        ConvertError::InvalidInput { kind: DatasetKind::RustExplanation, detail } =>
            "Invalid rust explanation input data: "@ + detail@,
        ConvertError::UnsupportedFormatType {
            kind: DatasetKind::Starcoder,
        } => "Unsupported format type for starcoder"@,
        ConvertError::UnsupportedFormatType {
            kind: DatasetKind::RustExplanation,
        } => "Unsupported format type for rust explanation"@,
    }
}

impl ConvertError {
    /// The text of the error.
    pub fn message(&self) -> (text: String)
        ensures
            text@ == error_text(*self),
    {
        match self {
            ConvertError::UnsupportedDatasetType => String::from_str("Unsupported dataset type"),
            ConvertError::InvalidInput { kind, detail } => {
                let mut text = match kind {
                    DatasetKind::Starcoder => String::from_str("Invalid starcoder input data: "),
                    DatasetKind::RustExplanation => String::from_str("Invalid rust explanation input data: "),
                };
                text.append(detail.as_str());
                text
            },
            ConvertError::UnsupportedFormatType { kind } => match kind {
                DatasetKind::Starcoder => String::from_str("Unsupported format type for starcoder"),
                DatasetKind::RustExplanation => String::from_str("Unsupported format type for rust explanation"),
            },
        }
    }
}

/// Reads the name of a dataset type.
pub fn dataset_kind(dataset_type: &str) -> (kind: Result<DatasetKind, ConvertError>)
    ensures
        match kind_named(dataset_type@) {
            Some(named) => kind == Ok::<DatasetKind, ConvertError>(named),
            None => kind == Err::<DatasetKind, ConvertError>(ConvertError::UnsupportedDatasetType),
        },
{
    if same_text(dataset_type, "starcoder") {
        Ok(DatasetKind::Starcoder)
    } else if same_text(dataset_type, "rust_explanation") {
        Ok(DatasetKind::RustExplanation)
    } else {
        Err(ConvertError::UnsupportedDatasetType)
    }
}

/// A column value that holds one cell.
fn single_cell(cell: Option<String>) -> (cells: Vec<Option<String>>)
    ensures
        cells@ == seq![cell],
{
    let mut cells: Vec<Option<String>> = Vec::new();
    cells.push(cell);
    cells
}

/// Prepares one parsed sample for the layout named `format_type`.
pub fn convert_single(sample: CodeSample, format_type: &str) -> (outcome: Result<ConvertedSample, ConvertError>)
    ensures
        conversion_view(outcome) == conversion_of(sample, format_type@),
{
    if !same_text(format_type, "alpaca") {
        let kind = match sample {
            CodeSample::Starcoder(_) => DatasetKind::Starcoder,
            CodeSample::RustExplanation(_) => DatasetKind::RustExplanation,
        };
        return Err(ConvertError::UnsupportedFormatType { kind });
    }
    let converted = match sample {
        CodeSample::Starcoder(input) => AlpacaFormat::from_starcoder(input),
        CodeSample::RustExplanation(input) => AlpacaFormat::from_rust_explanation(input),
    };
    assert(converted._tools@ == sample.training_text());
    let prepared = ConvertedSample {
        _prompt: single_cell(Some(converted._tools.clone())),
        _response: single_cell(Some(converted._tools)),
        _system: single_cell(Some(converted._system)),
        _tools: single_cell(Some(String::new())),
        _images: single_cell(None),
        _videos: single_cell(None),
    };
    assert(prepared@ =~= instruction_columns(sample.training_text()));
    Ok(prepared)
}

/// Gathers prepared samples into columns.
pub fn combine_samples(samples: Vec<ConvertedSample>) -> (columns: DatasetColumns)
    ensures
        columns@ == columns_of(sample_views(samples@)),
{
    let ghost views = sample_views(samples@);
    let mut columns = DatasetColumns {
        _prompt: Vec::new(),
        _response: Vec::new(),
        _system: Vec::new(),
        _tools: Vec::new(),
        _images: Vec::new(),
        _videos: Vec::new(),
    };
    assert(columns@ =~= columns_of(views.take(0)));
    for sample in iter: samples
        invariant
            iter.seq() == samples@,
            views == sample_views(samples@),
            columns@ == columns_of(views.take(iter.index())),
    {
        let ghost i = iter.index();
        let ghost before = columns@;
        columns._prompt.push(sample._prompt);
        columns._response.push(sample._response);
        columns._system.push(sample._system);
        columns._tools.push(sample._tools);
        columns._images.push(sample._images);
        columns._videos.push(sample._videos);
        proof {
            assert(views.take(i + 1) =~= views.take(i).push(sample@));
            assert(columns@._prompt =~= before._prompt.push(sample@._prompt));
            assert(columns@._response =~= before._response.push(sample@._response));
            assert(columns@._system =~= before._system.push(sample@._system));
            assert(columns@._tools =~= before._tools.push(sample@._tools));
            assert(columns@._images =~= before._images.push(sample@._images));
            assert(columns@._videos =~= before._videos.push(sample@._videos));
            assert(columns@ =~= columns_of(views.take(i + 1)));
        }
    }
    assert(views.take(samples@.len() as int) =~= views);
    columns
}

} // verus!
