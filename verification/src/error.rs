//! The error type shared by all operations.

use vstd::prelude::*;
use crate::text::{join2, join3};

verus! {

/// Why an operation failed.
#[derive(Debug)]
pub enum Error {
    /// The Git repository reported a failure; the text is its message.
    Git(String),
    /// An input or output operation failed; the text is its message.
    Io(String),
    /// A push went through, but the pushed ref was never reported back.
    NotPushed(String),
    /// The remote refused the ref; the second text is the reason it gave.
    PushFailed(String, String),
    /// The entity of the given kind and id does not exist.
    NotFound(String, String),
    /// The entity of the given kind and id exists already.
    Exists(String, String),
    /// Stored data does not have the expected shape.
    Malformed(String),
    /// A dependency origin slug is malformed.
    MalformedOrigin(String),
    /// No origin is registered under the slug.
    UnknownOrigin(String),
    /// An origin failed while it was asked for a status.
    Origin(String),
    /// A dependency endpoint is malformed.
    MalformedEndpoint(String),
    /// A project slug is malformed.
    MalformedProjectSlug(String),
}

/// The result type of all operations.
pub type Result<T> = core::result::Result<T, Error>;

/// The mathematical content of an [`Error`].
pub enum ErrorView {
    /// See [`Error::Git`].
    Git(Seq<char>),
    /// See [`Error::Io`].
    Io(Seq<char>),
    /// See [`Error::NotPushed`].
    NotPushed(Seq<char>),
    /// See [`Error::PushFailed`].
    PushFailed(Seq<char>, Seq<char>),
    /// See [`Error::NotFound`].
    NotFound(Seq<char>, Seq<char>),
    /// See [`Error::Exists`].
    Exists(Seq<char>, Seq<char>),
    /// See [`Error::Malformed`].
    Malformed(Seq<char>),
    /// See [`Error::MalformedOrigin`].
    MalformedOrigin(Seq<char>),
    /// See [`Error::UnknownOrigin`].
    UnknownOrigin(Seq<char>),
    /// See [`Error::Origin`].
    Origin(Seq<char>),
    /// See [`Error::MalformedEndpoint`].
    MalformedEndpoint(Seq<char>),
    /// See [`Error::MalformedProjectSlug`].
    MalformedProjectSlug(Seq<char>),
}

impl View for Error {
    type V = ErrorView;

    open spec fn view(&self) -> ErrorView {
        match self {
            Error::Git(a) => ErrorView::Git(a@),
            Error::Io(a) => ErrorView::Io(a@),
            Error::NotPushed(a) => ErrorView::NotPushed(a@),
            Error::PushFailed(a, b) => ErrorView::PushFailed(a@, b@),
            Error::NotFound(a, b) => ErrorView::NotFound(a@, b@),
            Error::Exists(a, b) => ErrorView::Exists(a@, b@),
            Error::Malformed(a) => ErrorView::Malformed(a@),
            Error::MalformedOrigin(a) => ErrorView::MalformedOrigin(a@),
            Error::UnknownOrigin(a) => ErrorView::UnknownOrigin(a@),
            Error::Origin(a) => ErrorView::Origin(a@),
            Error::MalformedEndpoint(a) => ErrorView::MalformedEndpoint(a@),
            Error::MalformedProjectSlug(a) => ErrorView::MalformedProjectSlug(a@),
        }
    }
}

/// The text that describes an error to a reader.
pub open spec fn describe(e: ErrorView) -> Seq<char> {
    match e {
        ErrorView::Git(a) => "git error: "@ + a,
        ErrorView::Io(a) => "io error: "@ + a,
        ErrorView::NotPushed(a) => "a push operation succeeded, but a ref was not pushed: "@ + a,
        ErrorView::PushFailed(a, b) => "failed to push ref "@ + a + ": "@ + b,
        ErrorView::NotFound(a, b) => "entity not found: "@ + a + "/"@ + b,
        ErrorView::Exists(a, b) => "entity exists: "@ + a + "/"@ + b,
        ErrorView::Malformed(a) => "malformed entity: "@ + a,
        ErrorView::MalformedOrigin(a) => "malformed dependency origin slug: "@ + a,
        ErrorView::UnknownOrigin(a) => "unknown dependency origin: "@ + a,
        ErrorView::Origin(a) => "dependency origin error: "@ + a,
        ErrorView::MalformedEndpoint(a) => "malformed dependency endpoint: "@ + a,
        ErrorView::MalformedProjectSlug(a) => "malformed project slug: "@ + a,
    }
}

impl Error {
    /// The text that describes the error to a reader.
    pub fn message(&self) -> (r: String)
        ensures
            r@ == describe(self@),
    {
        match self {
            Error::Git(a) => join2("git error: ", a.as_str()),
            Error::Io(a) => join2("io error: ", a.as_str()),
            Error::NotPushed(a) => join2(
                "a push operation succeeded, but a ref was not pushed: ",
                a.as_str(),
            ),
            Error::PushFailed(a, b) => {
                let mut s = join3("failed to push ref ", a.as_str(), ": ");
                s.append(b.as_str());
                s
            },
            Error::NotFound(a, b) => {
                let mut s = join3("entity not found: ", a.as_str(), "/");
                s.append(b.as_str());
                s
            },
            Error::Exists(a, b) => {
                let mut s = join3("entity exists: ", a.as_str(), "/");
                s.append(b.as_str());
                s
            },
            Error::Malformed(a) => join2("malformed entity: ", a.as_str()),
            Error::MalformedOrigin(a) => join2("malformed dependency origin slug: ", a.as_str()),
            Error::UnknownOrigin(a) => join2("unknown dependency origin: ", a.as_str()),
            Error::Origin(a) => join2("dependency origin error: ", a.as_str()),
            Error::MalformedEndpoint(a) => join2("malformed dependency endpoint: ", a.as_str()),
            Error::MalformedProjectSlug(a) => join2("malformed project slug: ", a.as_str()),
        }
    }
}

} // verus!
