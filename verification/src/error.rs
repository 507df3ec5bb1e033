//! Errors of the generator.
use vstd::prelude::*;

verus! {

/// What went wrong while planning or performing a transformation.
#[derive(Debug, Clone, PartialEq, Eq)]
pub enum Error {
    /// A source file that a transformation reads does not exist; holds its path.
    FileNotFound(String),
    /// A platform tool that a transformation needs is not installed; names it.
    PlatformToolUnavailable(String),
    /// One or more transformations failed; holds the summary.
    Transformation(String),
    /// A template refers to a string that the brand configuration lacks; holds its key.
    UnknownStringKey(String),
    /// A template opens a `{{#str` reference that is never closed; holds the template.
    MalformedTemplate(String),
    /// A condition of a `{{#if}}` or `{{#elseif}}` block is not well formed; holds the condition.
    MalformedCondition(String),
    /// A condition refers to an environment value that the brand configuration lacks; holds its name.
    UnknownEnvKey(String),
    /// Reading or writing a file failed; holds the reason.
    Io(String),
    /// A configuration file could not be read as a configuration; holds the reason.
    Config(String),
}

/// An error with its text as a sequence of characters.
pub enum ErrorView {
    FileNotFound(Seq<char>),
    PlatformToolUnavailable(Seq<char>),
    Transformation(Seq<char>),
    UnknownStringKey(Seq<char>),
    MalformedTemplate(Seq<char>),
    MalformedCondition(Seq<char>),
    UnknownEnvKey(Seq<char>),
    Io(Seq<char>),
    Config(Seq<char>),
}

impl View for Error {
    type V = ErrorView;

    open spec fn view(&self) -> ErrorView {
        match self {
            Error::FileNotFound(s) => ErrorView::FileNotFound(s@),
            Error::PlatformToolUnavailable(s) => ErrorView::PlatformToolUnavailable(s@),
            Error::Transformation(s) => ErrorView::Transformation(s@),
            Error::UnknownStringKey(s) => ErrorView::UnknownStringKey(s@),
            Error::MalformedTemplate(s) => ErrorView::MalformedTemplate(s@),
            Error::MalformedCondition(s) => ErrorView::MalformedCondition(s@),
            Error::UnknownEnvKey(s) => ErrorView::UnknownEnvKey(s@),
            Error::Io(s) => ErrorView::Io(s@),
            Error::Config(s) => ErrorView::Config(s@),
        }
    }
}

/// The view of a result whose success carries no value.
pub open spec fn unit_result_view(r: Result<(), Error>) -> Result<(), ErrorView> {
    match r {
        Ok(()) => Ok(()),
        Err(e) => Err(e@),
    }
}

/// The view of a result that carries a string.
pub open spec fn string_result_view(r: Result<String, Error>) -> Result<Seq<char>, ErrorView> {
    match r {
        Ok(s) => Ok(s@),
        Err(e) => Err(e@),
    }
}

} // verus!
