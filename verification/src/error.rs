//! The errors that the library hands to its driver.

use crate::text::join2;
use vstd::prelude::*;
use vstd::string::*;

verus! {

/// Errors that can occur during invariant analysis and generation.
#[derive(Debug, Clone, PartialEq, Eq)]
pub enum InvarError {
    /// A file could not be read or written; the text says why.
    IoError(String),
    /// Invalid invariant syntax or structure.
    InvalidInvariant(String),
    /// Undefined identifier in invariant expression.
    UndefinedIdentifier(String),
    /// Type mismatch in expression.
    TypeMismatch(String),
    /// Unsupported chain or pattern.
    Unsupported(String),
    /// Analysis failed with details.
    AnalysisFailed(String),
    /// Generation failed with details.
    GenerationFailed(String),
    /// Simulation failed with details.
    SimulationFailed(String),
    /// Configuration or parsing error.
    ConfigError(String),
    /// Custom error message.
    Custom(String),
}

/// An error with its message as a sequence of characters.
pub enum InvarErrorView {
    IoError(Seq<char>),
    InvalidInvariant(Seq<char>),
    UndefinedIdentifier(Seq<char>),
    TypeMismatch(Seq<char>),
    Unsupported(Seq<char>),
    AnalysisFailed(Seq<char>),
    GenerationFailed(Seq<char>),
    SimulationFailed(Seq<char>),
    ConfigError(Seq<char>),
    Custom(Seq<char>),
}

impl View for InvarError {
    type V = InvarErrorView;

    open spec fn view(&self) -> InvarErrorView {
        match self {
            InvarError::IoError(m) => InvarErrorView::IoError(m@),
            InvarError::InvalidInvariant(m) => InvarErrorView::InvalidInvariant(m@),
            InvarError::UndefinedIdentifier(m) => InvarErrorView::UndefinedIdentifier(m@),
            InvarError::TypeMismatch(m) => InvarErrorView::TypeMismatch(m@),
            InvarError::Unsupported(m) => InvarErrorView::Unsupported(m@),
            InvarError::AnalysisFailed(m) => InvarErrorView::AnalysisFailed(m@),
            InvarError::GenerationFailed(m) => InvarErrorView::GenerationFailed(m@),
            InvarError::SimulationFailed(m) => InvarErrorView::SimulationFailed(m@),
            InvarError::ConfigError(m) => InvarErrorView::ConfigError(m@),
            InvarError::Custom(m) => InvarErrorView::Custom(m@),
        }
    }
}

/// The sentence that reports an error.
pub open spec fn error_text(e: InvarErrorView) -> Seq<char> {
    match e {
        InvarErrorView::IoError(m) => "IO error: "@ + m,
        InvarErrorView::InvalidInvariant(m) => "Invalid invariant: "@ + m,
        InvarErrorView::UndefinedIdentifier(m) => "Undefined identifier: "@ + m,
        InvarErrorView::TypeMismatch(m) => "Type mismatch: "@ + m,
        InvarErrorView::Unsupported(m) => "Unsupported: "@ + m,
        InvarErrorView::AnalysisFailed(m) => "Analysis failed: "@ + m,
        InvarErrorView::GenerationFailed(m) => "Generation failed: "@ + m,
        InvarErrorView::SimulationFailed(m) => "Simulation failed: "@ + m,
        InvarErrorView::ConfigError(m) => "Configuration error: "@ + m,
        InvarErrorView::Custom(m) => m,
    }
}

impl InvarError {
    /// Create a custom error with a message.
    pub fn custom<S: Into<String>>(msg: S) -> (e: Self)
        ensures
            e matches InvarError::Custom(m) && call_ensures(
                <S as Into<String>>::into,
                (msg,),
                m,
            ),
    {
        InvarError::Custom(msg.into())
    }

    /// Create an invalid invariant error.
    pub fn invalid_invariant<S: Into<String>>(msg: S) -> (e: Self)
        ensures
            e matches InvarError::InvalidInvariant(m) && call_ensures(
                <S as Into<String>>::into,
                (msg,),
                m,
            ),
    {
        InvarError::InvalidInvariant(msg.into())
    }

    /// Create an undefined identifier error.
    pub fn undefined_identifier<S: Into<String>>(name: S) -> (e: Self)
        ensures
            e matches InvarError::UndefinedIdentifier(m) && call_ensures(
                <S as Into<String>>::into,
                (name,),
                m,
            ),
    {
        InvarError::UndefinedIdentifier(name.into())
    }

    /// Create a type mismatch error.
    pub fn type_mismatch<S: Into<String>>(msg: S) -> (e: Self)
        ensures
            e matches InvarError::TypeMismatch(m) && call_ensures(
                <S as Into<String>>::into,
                (msg,),
                m,
            ),
    {
        InvarError::TypeMismatch(msg.into())
    }

    /// Create an unsupported pattern error.
    pub fn unsupported<S: Into<String>>(msg: S) -> (e: Self)
        ensures
            e matches InvarError::Unsupported(m) && call_ensures(
                <S as Into<String>>::into,
                (msg,),
                m,
            ),
    {
        InvarError::Unsupported(msg.into())
    }

    /// The sentence that reports this error.
    pub fn to_string(&self) -> (s: String)
        ensures
            s@ == error_text(self@),
    {
        match self {
            InvarError::IoError(m) => join2("IO error: ", m.as_str()),
            InvarError::InvalidInvariant(m) => join2("Invalid invariant: ", m.as_str()),
            InvarError::UndefinedIdentifier(m) => join2("Undefined identifier: ", m.as_str()),
            InvarError::TypeMismatch(m) => join2("Type mismatch: ", m.as_str()),
            InvarError::Unsupported(m) => join2("Unsupported: ", m.as_str()),
            InvarError::AnalysisFailed(m) => join2("Analysis failed: ", m.as_str()),
            InvarError::GenerationFailed(m) => join2("Generation failed: ", m.as_str()),
            InvarError::SimulationFailed(m) => join2("Simulation failed: ", m.as_str()),
            InvarError::ConfigError(m) => join2("Configuration error: ", m.as_str()),
            InvarError::Custom(m) => m.clone(),
        }
    }
}

/// The result type of the library's operations.
pub type Result<T> = core::result::Result<T, InvarError>;

} // verus!
