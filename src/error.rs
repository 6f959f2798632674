//! The failures of loading a publication and of reading from it.
use vstd::prelude::*;

verus! {

#[verifier::external_type_specification]
#[verifier::external_body]
pub struct ExZipError(zip::result::ZipError);

#[verifier::external_type_specification]
#[verifier::external_body]
pub struct ExUrlParseError(url::ParseError);

#[verifier::external_type_specification]
#[verifier::external_body]
pub struct ExFromUtf8Error(std::string::FromUtf8Error);

/// Why an operation failed.
#[derive(Debug)]
pub enum EpubError {
    /// The container document names no `rootfile`.
    MissingRootfile,
    /// A required element is absent; it carries the element's name.
    MissingElement(String),
    /// A required attribute is absent; it carries the attribute's name.
    MissingAttribute(String),
    /// A manifest id that is referred to but not declared.
    UnresolvedIdref(String),
    /// A spine index past the last chapter.
    IndexOutOfRange,
    /// The current document is not one of the spine's.
    CurrentNotInSpine,
    /// The archive could not be opened, or an entry could not be read.
    Zip(zip::result::ZipError),
    /// A document is not well-formed XML, or could not be written back.
    Xml(minidom::error::Error),
    /// A link could not be parsed as a URL reference.
    Url(url::ParseError),
    /// A rendered document is not UTF-8.
    Utf8(std::string::FromUtf8Error),
}

/// An [`EpubError`] in plain values.
pub enum ErrorView {
    MissingRootfile,
    MissingElement(Seq<char>),
    MissingAttribute(Seq<char>),
    UnresolvedIdref(Seq<char>),
    IndexOutOfRange,
    CurrentNotInSpine,
    Zip,
    Xml,
    Url,
    Utf8,
}

impl View for EpubError {
    type V = ErrorView;

    open spec fn view(&self) -> ErrorView {
        match self {
            EpubError::MissingRootfile => ErrorView::MissingRootfile,
            EpubError::MissingElement(s) => ErrorView::MissingElement(s@),
            EpubError::MissingAttribute(s) => ErrorView::MissingAttribute(s@),
            EpubError::UnresolvedIdref(s) => ErrorView::UnresolvedIdref(s@),
            EpubError::IndexOutOfRange => ErrorView::IndexOutOfRange,
            EpubError::CurrentNotInSpine => ErrorView::CurrentNotInSpine,
            EpubError::Zip(_) => ErrorView::Zip,
            EpubError::Xml(_) => ErrorView::Xml,
            EpubError::Url(_) => ErrorView::Url,
            EpubError::Utf8(_) => ErrorView::Utf8,
        }
    }
}

} // verus!
