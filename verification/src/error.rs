use vstd::prelude::*;

verus! {

/// Why a normalization failed.
#[derive(Debug, PartialEq, Eq)]
pub enum WeTextError {
    /// No transducer is loaded under this relative path.
    FstNotFound(String),
    /// No transducer exists for this language and operator.
    InvalidLanguage(String),
    /// A transducer could not be loaded or applied; the driver's message.
    FstError(String),
    /// Tagged text does not follow the token format.
    ParseError(String),
}

/// What a [`WeTextError`] says, with its message as characters.
pub enum ErrorView {
    FstNotFound(Seq<char>),
    InvalidLanguage(Seq<char>),
    FstError(Seq<char>),
    ParseError(Seq<char>),
}

impl View for WeTextError {
    type V = ErrorView;

    open spec fn view(&self) -> ErrorView {
        match self {
            WeTextError::FstNotFound(s) => ErrorView::FstNotFound(s@),
            WeTextError::InvalidLanguage(s) => ErrorView::InvalidLanguage(s@),
            WeTextError::FstError(s) => ErrorView::FstError(s@),
            WeTextError::ParseError(s) => ErrorView::ParseError(s@),
        }
    }
}

/// The result of a stage: text, or why it failed.
pub type Outcome = Result<Seq<char>, ErrorView>;

/// What a result of the executable code says.
pub open spec fn outcome_of(r: Result<String, WeTextError>) -> Outcome {
    match r {
        Ok(s) => Ok(s@),
        Err(e) => Err(e@),
    }
}

} // verus!
