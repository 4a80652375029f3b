//! The error types of the runner.
use crate::text::{join2, join3};
use vstd::prelude::*;
use vstd::string::*;

verus! {

/// Why a pipeline cannot be turned into stages.
#[derive(Debug, Clone)]
pub enum BeamTranslationError {
    InvalidArgument(String),
    InvalidState(String),
    MissingEnvironment(String),
    StageFusionError(String),
    PipelineGraphError(String),
    NotFound(String),
}

/// What went wrong on the line to a worker.
#[derive(Debug, Clone)]
pub enum HarnessError {
    NotConnected(String),
    Disconnected(String),
    StreamError(String),
    IdMismatch { expected: String, actual: String },
    UnexpectedResponse(String),
    SendError(String),
}

/// Why a value could not be read from, or written to, its wire form.
#[derive(Debug, Clone)]
pub enum CodersError {
    WhileDecoding(String),
    WhileEncoding(String),
}

/// What went wrong in the element store.
#[derive(Debug, Clone)]
pub enum ElementStoreError {
    Open(String),
    Write(String),
    Read(String),
    Schema(String),
    NotFound(String),
    MissingField(String),
    InvalidData(String),
    UnsupportedType(String),
    OffsetOverflow(String),
    UnknownField(String),
}

/// Why a batch configuration cannot be meant. A number with a fraction is held
/// as its 64 bits.
#[derive(Debug, Clone, Copy, PartialEq, Eq, Structural)]
pub enum BatchConfigError {
    MinExceedsMax(usize, usize),
    InvalidOverhead(u64),
    InvalidDuration(u64),
    InvalidFixedCostDuration(u64),
}

/// Why a transform failed.
#[derive(Debug, Clone)]
pub enum TransformError {
    Error(String),
}

impl BeamTranslationError {
    /// The text of the error.
    pub open spec fn message_text(self) -> Seq<char> {
        match self {
            BeamTranslationError::InvalidArgument(m) => "Invalid argument: "@ + m@,
            BeamTranslationError::InvalidState(m) => "Invalid State: "@ + m@,
            BeamTranslationError::MissingEnvironment(m) =>
                "Missing environment on transform node: "@ + m@,
            BeamTranslationError::StageFusionError(m) => "Stage fusion error: "@ + m@,
            BeamTranslationError::PipelineGraphError(m) => "Pipeline graph error: "@ + m@,
            BeamTranslationError::NotFound(m) => "Value not found error: "@ + m@,
        }
    }

    pub fn message(&self) -> (r: String)
        ensures
            r@ == self.message_text(),
    {
        match self {
            BeamTranslationError::InvalidArgument(m) => join2("Invalid argument: ", m.as_str()),
            BeamTranslationError::InvalidState(m) => join2("Invalid State: ", m.as_str()),
            BeamTranslationError::MissingEnvironment(m) => join2(
                "Missing environment on transform node: ",
                m.as_str(),
            ),
            BeamTranslationError::StageFusionError(m) => join2("Stage fusion error: ", m.as_str()),
            BeamTranslationError::PipelineGraphError(m) => join2(
                "Pipeline graph error: ",
                m.as_str(),
            ),
            BeamTranslationError::NotFound(m) => join2("Value not found error: ", m.as_str()),
        }
    }
}

impl HarnessError {
    /// The text of the error.
    pub open spec fn message_text(self) -> Seq<char> {
        match self {
            HarnessError::NotConnected(m) => "Harness not connected: "@ + m@,
            HarnessError::Disconnected(m) => "Harness disconnected: "@ + m@,
            HarnessError::StreamError(m) => "Control stream error: "@ + m@,
            HarnessError::IdMismatch { expected, actual } => "Instruction ID mismatch: expected "@
                + expected@ + (", got "@ + actual@),
            HarnessError::UnexpectedResponse(m) => "Unexpected response: "@ + m@,
            HarnessError::SendError(m) => "Send error: "@ + m@,
        }
    }

    pub fn message(&self) -> (r: String)
        ensures
            r@ == self.message_text(),
    {
        match self {
            HarnessError::NotConnected(m) => join2("Harness not connected: ", m.as_str()),
            HarnessError::Disconnected(m) => join2("Harness disconnected: ", m.as_str()),
            HarnessError::StreamError(m) => join2("Control stream error: ", m.as_str()),
            HarnessError::IdMismatch { expected, actual } => {
                let tail = join2(", got ", actual.as_str());
                join3("Instruction ID mismatch: expected ", expected.as_str(), tail.as_str())
            },
            HarnessError::UnexpectedResponse(m) => join2("Unexpected response: ", m.as_str()),
            HarnessError::SendError(m) => join2("Send error: ", m.as_str()),
        }
    }
}

impl CodersError {
    /// The text of the error.
    pub open spec fn message_text(self) -> Seq<char> {
        match self {
            CodersError::WhileDecoding(m) => "Error while decoding: "@ + m@,
            CodersError::WhileEncoding(m) => "Error while encoding: "@ + m@,
        }
    }

    pub fn message(&self) -> (r: String)
        ensures
            r@ == self.message_text(),
    {
        match self {
            CodersError::WhileDecoding(m) => join2("Error while decoding: ", m.as_str()),
            CodersError::WhileEncoding(m) => join2("Error while encoding: ", m.as_str()),
        }
    }
}

impl ElementStoreError {
    /// The text of the error.
    pub open spec fn message_text(self) -> Seq<char> {
        match self {
            ElementStoreError::Open(m) => "Failed to open database: "@ + m@,
            ElementStoreError::Write(m) => "Failed to write collection: "@ + m@,
            ElementStoreError::Read(m) => "Failed to read collection: "@ + m@,
            ElementStoreError::Schema(m) => "Schema error: "@ + m@,
            ElementStoreError::NotFound(m) => "Element not found: "@ + m@,
            ElementStoreError::MissingField(m) => "Missing required field: "@ + m@,
            ElementStoreError::InvalidData(m) => "Invalid data: "@ + m@,
            ElementStoreError::UnsupportedType(m) => "Unsupported type or shape: "@ + m@,
            ElementStoreError::OffsetOverflow(m) => "Offset overflow: "@ + m@,
            ElementStoreError::UnknownField(m) => "Unknown field: "@ + m@,
        }
    }

    pub fn message(&self) -> (r: String)
        ensures
            r@ == self.message_text(),
    {
        match self {
            ElementStoreError::Open(m) => join2("Failed to open database: ", m.as_str()),
            ElementStoreError::Write(m) => join2("Failed to write collection: ", m.as_str()),
            ElementStoreError::Read(m) => join2("Failed to read collection: ", m.as_str()),
            ElementStoreError::Schema(m) => join2("Schema error: ", m.as_str()),
            ElementStoreError::NotFound(m) => join2("Element not found: ", m.as_str()),
            ElementStoreError::MissingField(m) => join2("Missing required field: ", m.as_str()),
            ElementStoreError::InvalidData(m) => join2("Invalid data: ", m.as_str()),
            ElementStoreError::UnsupportedType(m) => join2(
                "Unsupported type or shape: ",
                m.as_str(),
            ),
            ElementStoreError::OffsetOverflow(m) => join2("Offset overflow: ", m.as_str()),
            ElementStoreError::UnknownField(m) => join2("Unknown field: ", m.as_str()),
        }
    }
}

} // verus!
