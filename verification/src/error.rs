//! The shared error vocabulary.

use vstd::prelude::*;

verus! {

/// Everything that can go wrong while an entry is classified, a link is
/// resolved or a tree is walked.
#[derive(Copy, Clone, Debug, PartialEq, Eq, Structural)]
pub enum ErrorKind {
    /// The path names nothing.
    NotFound,
    /// The object exists but may not be inspected.
    PermissionDenied,
    /// The object is neither a directory, a regular file nor a symbolic link.
    UnsupportedObjectType,
    /// Any other failure of the underlying filesystem operation.
    IoError,
    /// A symbolic link whose chain does not end at a classifiable object.
    BrokenLink,
    /// A chain of symbolic links longer than the hop limit.
    SymlinkLoop,
    /// The root of a walk is no directory, or a directory could not be listed.
    RootUnreadable,
}

impl ErrorKind {
    /// The errors that may be recorded inside an entry as the cause of its
    /// being invalid.
    pub open spec fn recordable(self) -> bool {
        self is NotFound || self is PermissionDenied || self is UnsupportedObjectType
            || self is IoError || self is BrokenLink
    }

    /// Whether this error may be recorded inside an entry.
    pub fn is_recordable(&self) -> (r: bool)
        ensures
            r == self.recordable(),
    {
        match self {
            ErrorKind::NotFound => true,
            ErrorKind::PermissionDenied => true,
            ErrorKind::UnsupportedObjectType => true,
            ErrorKind::IoError => true,
            ErrorKind::BrokenLink => true,
            ErrorKind::SymlinkLoop => false,
            ErrorKind::RootUnreadable => false,
        }
    }

    /// The text of the message for this error.
    pub open spec fn message_text(self) -> Seq<char> {
        match self {
            ErrorKind::NotFound => "no such file or directory"@,
            ErrorKind::PermissionDenied => "permission denied"@,
            ErrorKind::UnsupportedObjectType => "unsupported kind of filesystem object"@,
            ErrorKind::IoError => "input/output error"@,
            ErrorKind::BrokenLink => "broken symbolic link"@,
            ErrorKind::SymlinkLoop => "too many levels of symbolic links"@,
            ErrorKind::RootUnreadable => "root is not a readable directory"@,
        }
    }

    /// A short message for the user.
    pub fn message(&self) -> (r: &'static str)
        ensures
            r@ == self.message_text(),
    {
        match self {
            ErrorKind::NotFound => "no such file or directory",
            ErrorKind::PermissionDenied => "permission denied",
            ErrorKind::UnsupportedObjectType => "unsupported kind of filesystem object",
            ErrorKind::IoError => "input/output error",
            ErrorKind::BrokenLink => "broken symbolic link",
            ErrorKind::SymlinkLoop => "too many levels of symbolic links",
            ErrorKind::RootUnreadable => "root is not a readable directory",
        }
    }
}

/// How a filesystem operation failed, as the caller who performed it reports
/// it.
#[derive(Copy, Clone, Debug, PartialEq, Eq, Structural)]
pub enum IoFailure {
    /// The path names nothing.
    NotFound,
    /// Access was refused.
    PermissionDenied,
    /// Anything else.
    Other,
}

impl IoFailure {
    /// The error under which a failure of this category is recorded.
    pub open spec fn cause(self) -> ErrorKind {
        match self {
            IoFailure::NotFound => ErrorKind::NotFound,
            IoFailure::PermissionDenied => ErrorKind::PermissionDenied,
            IoFailure::Other => ErrorKind::IoError,
        }
    }

    /// The error under which a failure of this category is recorded.
    pub fn to_error(self) -> (e: ErrorKind)
        ensures
            e == self.cause(),
            e.recordable(),
    {
        match self {
            IoFailure::NotFound => ErrorKind::NotFound,
            IoFailure::PermissionDenied => ErrorKind::PermissionDenied,
            IoFailure::Other => ErrorKind::IoError,
        }
    }
}

} // verus!
