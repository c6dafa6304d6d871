use vstd::prelude::*;

verus! {

/// The mathematical shape of an error: its kind and its message text.
pub enum ErrV {
    Archive(Seq<char>),
    Reader(Seq<char>),
    Container(Seq<char>),
    Xml(Seq<char>),
    Parse(Seq<char>),
    Format(Seq<char>),
    Url(Seq<char>),
    Cfi(Seq<char>),
}

/// Every failure the library can surface. No recovery is attempted inside the
/// library: each fallible call returns the first error it meets.
#[derive(Debug, Clone, PartialEq, Eq)]
pub enum EpubError {
    /// Corrupt or unreadable archive structure.
    ArchiveError(String),
    /// A missing entry or file, carrying the path and cause.
    ReaderError(String),
    /// The OCF container file is missing or structurally invalid.
    ContainerError(String),
    /// The document failed to parse, or a required attribute is absent.
    XmlError(String),
    /// A higher-level structural expectation was unmet.
    ParseError(String),
    /// A package-level structural violation.
    FormatError(String),
    /// Relative-reference resolution failed.
    UrlError(String),
    /// A malformed location string, with the offending cursor position.
    CfiError(String),
}

impl View for EpubError {
    type V = ErrV;

    open spec fn view(&self) -> ErrV {
        match self {
            EpubError::ArchiveError(s) => ErrV::Archive(s@),
            EpubError::ReaderError(s) => ErrV::Reader(s@),
            EpubError::ContainerError(s) => ErrV::Container(s@),
            EpubError::XmlError(s) => ErrV::Xml(s@),
            EpubError::ParseError(s) => ErrV::Parse(s@),
            EpubError::FormatError(s) => ErrV::Format(s@),
            EpubError::UrlError(s) => ErrV::Url(s@),
            EpubError::CfiError(s) => ErrV::Cfi(s@),
        }
    }
}

impl EpubError {
    /// The error's text, for callers that present failures to a user.
    pub fn message(&self) -> (r: String)
        ensures
            r@ == self.message_spec(),
    {
        match self {
            EpubError::ArchiveError(s) => s.clone(),
            EpubError::ReaderError(s) => s.clone(),
            EpubError::ContainerError(s) => s.clone(),
            EpubError::XmlError(s) => s.clone(),
            EpubError::ParseError(s) => s.clone(),
            EpubError::FormatError(s) => s.clone(),
            EpubError::UrlError(s) => s.clone(),
            EpubError::CfiError(s) => s.clone(),
        }
    }

    pub open spec fn message_spec(&self) -> Seq<char> {
        match self {
            EpubError::ArchiveError(s) => s@,
            EpubError::ReaderError(s) => s@,
            EpubError::ContainerError(s) => s@,
            EpubError::XmlError(s) => s@,
            EpubError::ParseError(s) => s@,
            EpubError::FormatError(s) => s@,
            EpubError::UrlError(s) => s@,
            EpubError::CfiError(s) => s@,
        }
    }
}

} // verus!
