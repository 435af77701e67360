//! The ways in which the pipeline fails.

use vstd::prelude::*;

verus! {

/// Why a step of the pipeline gave no result. Every failure is final: the
/// run stops with it and nothing is retried.
#[derive(Clone, Copy, Debug, PartialEq, Eq, Structural)]
pub enum PipelineError {
    /// An input path names no regular file.
    NotFound,
    /// A field is no decimal number that a `Fixed` can hold, a record is
    /// broken, or a row has no label.
    ParseError,
    /// A label or a split fraction lies outside its domain.
    OutOfRange,
    /// A split was asked of a dataset without rows.
    EmptyDataset,
    /// A configuration field is absent or not of its type.
    MissingField,
    /// The configuration document is no structured document at all.
    MalformedDocument,
    /// Strict evaluation met an example that the model got wrong.
    EvaluationMismatch,
}

/// The words in which a failure is reported.
pub open spec fn description(error: PipelineError) -> Seq<char> {
    match error {
        PipelineError::NotFound => "file does not exist"@,
        PipelineError::ParseError => "field is not a number"@,
        PipelineError::OutOfRange => "value out of range"@,
        PipelineError::EmptyDataset => "dataset is empty"@,
        PipelineError::MissingField => "configuration field is missing"@,
        PipelineError::MalformedDocument => "configuration is not a document"@,
        PipelineError::EvaluationMismatch => "prediction differs from target"@,
    }
}

impl PipelineError {
    /// The words in which the failure is reported.
    pub fn describe(&self) -> (text: &'static str)
        ensures
            text@ == description(*self),
    {
        match self {
            PipelineError::NotFound => "file does not exist",
            PipelineError::ParseError => "field is not a number",
            PipelineError::OutOfRange => "value out of range",
            PipelineError::EmptyDataset => "dataset is empty",
            PipelineError::MissingField => "configuration field is missing",
            PipelineError::MalformedDocument => "configuration is not a document",
            PipelineError::EvaluationMismatch => "prediction differs from target",
        }
    }
}

} // verus!
