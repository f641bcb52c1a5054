//! `AssetSource`: what every layer of the virtual filesystem implements.

use super::path::VfsPath;
use vstd::prelude::*;

verus! {

#[verifier::external_type_specification]
#[verifier::external_body]
pub struct ExIoError(std::io::Error);

/// Whether `std::io::Error::kind` is `ErrorKind::NotFound`.
pub uninterp spec fn says_not_found(e: std::io::Error) -> bool;

/// `std::io::Error::kind`, compared with `ErrorKind::NotFound`. The kind of an
/// error is fixed when the error is made.
#[verifier::external_body]
fn kind_is_not_found(e: &std::io::Error) -> (r: bool)
    ensures
        r == says_not_found(*e),
{
    matches!(e.kind(), std::io::ErrorKind::NotFound)
}

/// Errors that a source can return.
#[derive(Debug)]
pub enum AssetError {
    /// The source has no entry at this path.
    NotFound,
    /// The underlying I/O failed.
    Io(std::io::Error),
}

/// The text of an I/O error, by the `Display` of `std::io::Error`. For errors
/// of the operating system it is the system's own wording, so nothing is said
/// of it.
#[verifier::external_body]
fn io_error_text(e: &std::io::Error) -> String {
    format!("{}", e)
}

/// `detail` is a text that the I/O error can have.
pub closed spec fn io_error_says(e: std::io::Error, detail: Seq<char>) -> bool {
    exists|text: String| #[trigger] call_ensures(io_error_text, (&e,), text) && text@ == detail
}

/// What is said of an I/O error with the given text.
pub fn io_message(detail: &str) -> (r: String)
    ensures
        r@ == "I/O error: "@ + detail@,
{
    "I/O error: ".to_owned().concat(detail)
}

impl AssetError {
    /// `words` can be the message of this error.
    pub open spec fn can_say(self, words: Seq<char>) -> bool {
        match self {
            AssetError::NotFound => words == "asset not found"@,
            AssetError::Io(e) => exists|detail: Seq<char>|
                #[trigger] io_error_says(e, detail) && words == "I/O error: "@ + detail,
        }
    }

    /// The error in words: fixed text for a missing asset, and for an I/O
    /// error a fixed prefix before the text that the error has.
    pub fn message(&self) -> (r: String)
        ensures
            self.can_say(r@),
    {
        match self {
            AssetError::NotFound => "asset not found".to_owned(),
            AssetError::Io(e) => {
                let text_of = io_error_text;
                let detail = text_of(e);
                assert(io_error_says(*e, detail@));
                io_message(detail.as_str())
            },
        }
    }
}

impl From<std::io::Error> for AssetError {
    fn from(e: std::io::Error) -> (r: Self) {
        if kind_is_not_found(&e) {
            AssetError::NotFound
        } else {
            AssetError::Io(e)
        }
    }
}

impl vstd::std_specs::convert::FromSpecImpl<std::io::Error> for AssetError {
    open spec fn obeys_from_spec() -> bool {
        true
    }

    open spec fn from_spec(e: std::io::Error) -> AssetError {
        if says_not_found(e) {
            AssetError::NotFound
        } else {
            AssetError::Io(e)
        }
    }
}

/// What a directory walk amounts to: a root that does not exist is an empty
/// source, any other failure is an I/O error.
pub fn listing_of_walk(walked: Result<Vec<VfsPath>, std::io::Error>) -> (r: Result<
    Vec<VfsPath>,
    AssetError,
>)
    ensures
        match walked {
            Ok(paths) => r == Ok::<Vec<VfsPath>, AssetError>(paths),
            Err(e) => if says_not_found(e) {
                r matches Ok(paths) && paths@.len() == 0
            } else {
                r == Err::<Vec<VfsPath>, AssetError>(AssetError::Io(e))
            },
        },
{
    match walked {
        Ok(paths) => Ok(paths),
        Err(e) => if kind_is_not_found(&e) {
            Ok(Vec::new())
        } else {
            Err(AssetError::Io(e))
        },
    }
}

/// A read-only source of assets, addressed by `VfsPath`.
///
/// What a source answers may change between calls (files change on disk), so
/// each method is described by a relation: which answers it can give.
pub trait AssetSource: Send + Sync {
    /// `answer` is one that `read` can give for `path`: any, unless the source
    /// says more.
    open spec fn can_read(&self, path: Seq<char>, answer: Result<Vec<u8>, AssetError>) -> bool {
        true
    }

    /// `answer` is one that `list` can give: any, unless the source says more.
    open spec fn can_list(&self, answer: Result<Vec<VfsPath>, AssetError>) -> bool {
        true
    }

    /// `changed` is a non-empty answer that `drain_changes` can give: any,
    /// unless the source says more. The empty answer is always possible.
    open spec fn can_report(&self, changed: Vec<VfsPath>) -> bool {
        true
    }

    /// The bytes at `path`, or `NotFound` if this source has no entry there.
    fn read(&self, path: &VfsPath) -> (r: Result<Vec<u8>, AssetError>)
        ensures
            self.can_read(path@, r),
    ;

    /// Every path that this source can serve, in unspecified order.
    fn list(&self) -> (r: Result<Vec<VfsPath>, AssetError>)
        ensures
            self.can_list(r),
    ;

    /// The paths that may have changed since the last call. Sources that do
    /// not watch anything report none.
    fn drain_changes(&self) -> (r: Vec<VfsPath>)
        ensures
            r@.len() == 0 || self.can_report(r),
    {
        Vec::new()
    }
}

impl<S: AssetSource + ?Sized> AssetSource for Box<S> {
    open spec fn can_read(&self, path: Seq<char>, answer: Result<Vec<u8>, AssetError>) -> bool {
        (**self).can_read(path, answer)
    }

    open spec fn can_list(&self, answer: Result<Vec<VfsPath>, AssetError>) -> bool {
        (**self).can_list(answer)
    }

    open spec fn can_report(&self, changed: Vec<VfsPath>) -> bool {
        (**self).can_report(changed)
    }

    fn read(&self, path: &VfsPath) -> (r: Result<Vec<u8>, AssetError>) {
        (**self).read(path)
    }

    fn list(&self) -> (r: Result<Vec<VfsPath>, AssetError>) {
        (**self).list()
    }

    /// What the boxed source reports.
    fn drain_changes(&self) -> (r: Vec<VfsPath>)
        ensures
            call_ensures(S::drain_changes, (&**self,), r),
    {
        let drain = S::drain_changes;
        drain(&**self)
    }
}

} // verus!
