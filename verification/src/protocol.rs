//! What the library asks of the filesystem, and what can be answered.
//!
//! The library never touches the filesystem. Whoever drives one of its
//! machines performs each [`Request`] and hands the [`Reply`] to the
//! machine's `step`.

use vstd::prelude::*;
use crate::error::{ErrorKind, IoFailure};

verus! {

/// What kind of object a path names, as its metadata says.
#[derive(Copy, Clone, Debug, PartialEq, Eq, Structural)]
pub enum ObjectKind {
    Directory,
    File,
    SymLink,
    /// A device, a socket, a pipe or anything else.
    Other,
}

/// A snapshot of the low-level metadata of an object.
#[derive(Copy, Clone, Debug, PartialEq, Eq, Structural)]
pub struct Metadata {
    /// Size in bytes.
    pub size: u64,
    /// Time of the last modification, in seconds since the epoch.
    pub modified: u64,
    /// Permission bits.
    pub mode: u32,
}

/// The answer to a successful [`Request::Stat`].
#[derive(Copy, Clone, Debug, PartialEq, Eq, Structural)]
pub struct Stat {
    pub kind: ObjectKind,
    pub metadata: Metadata,
}

/// One entry of a directory listing.
#[derive(Clone, Debug, PartialEq, Eq)]
pub struct DirChild {
    /// The entry's name within its directory.
    pub name: String,
    /// The path by which the entry is reached.
    pub path: String,
}

/// The mathematical value of a [`DirChild`].
pub struct ChildView {
    pub name: Seq<char>,
    pub path: Seq<char>,
}

impl View for DirChild {
    type V = ChildView;

    open spec fn view(&self) -> ChildView {
        ChildView { name: self.name@, path: self.path@ }
    }
}

/// The values of the entries of a listing, in order.
pub open spec fn views_of(children: Seq<DirChild>) -> Seq<ChildView> {
    children.map_values(|c: DirChild| c@)
}

/// One operation on the filesystem that a machine needs performed.
#[derive(Clone, Debug, PartialEq, Eq)]
pub enum Request {
    /// Read the metadata of the object at `path`, without following a
    /// symbolic link at the end of the path.
    Stat { path: String },
    /// Read the target of the symbolic link at `path`.
    ReadLink { path: String },
    /// Read up to `len` bytes from the start of the regular file at `path`.
    ReadHead { path: String, len: usize },
    /// List the entries of the directory at `path`, in any order.
    ListDir { path: String },
}

/// The mathematical value of a [`Request`].
pub enum RequestView {
    Stat { path: Seq<char> },
    ReadLink { path: Seq<char> },
    ReadHead { path: Seq<char>, len: usize },
    ListDir { path: Seq<char> },
}

impl View for Request {
    type V = RequestView;

    open spec fn view(&self) -> RequestView {
        match self {
            Request::Stat { path } => RequestView::Stat { path: path@ },
            Request::ReadLink { path } => RequestView::ReadLink { path: path@ },
            Request::ReadHead { path, len } => RequestView::ReadHead { path: path@, len: *len },
            Request::ListDir { path } => RequestView::ListDir { path: path@ },
        }
    }
}

/// The answer to a [`Request`].
#[derive(Debug, PartialEq, Eq)]
pub enum Reply {
    Stat(Result<Stat, IoFailure>),
    Link(Result<String, IoFailure>),
    Head(Result<Vec<u8>, IoFailure>),
    Listing(Result<Vec<DirChild>, IoFailure>),
}

/// The mathematical value of a [`Reply`].
pub enum ReplyView {
    Stat(Result<Stat, IoFailure>),
    Link(Result<Seq<char>, IoFailure>),
    Head(Result<Seq<u8>, IoFailure>),
    Listing(Result<Seq<ChildView>, IoFailure>),
}

impl View for Reply {
    type V = ReplyView;

    open spec fn view(&self) -> ReplyView {
        match self {
            Reply::Stat(r) => ReplyView::Stat(*r),
            Reply::Link(r) => ReplyView::Link(
                match r {
                    Ok(target) => Ok(target@),
                    Err(f) => Err(*f),
                },
            ),
            Reply::Head(r) => ReplyView::Head(
                match r {
                    Ok(bytes) => Ok(bytes@),
                    Err(f) => Err(*f),
                },
            ),
            Reply::Listing(r) => ReplyView::Listing(
                match r {
                    Ok(children) => Ok(views_of(children@)),
                    Err(f) => Err(*f),
                },
            ),
        }
    }
}

/// Where a machine stands after a step: it needs one more operation
/// performed, or it has its outcome, or it has failed.
#[derive(Debug)]
pub enum Progress<M, T> {
    /// Perform `request` and hand the reply to `machine`.
    Pending { machine: M, request: Request },
    Done { outcome: T },
    Failed { error: ErrorKind },
}

/// The mathematical value of a [`Progress`].
pub enum ProgressView<M, T> {
    Pending { machine: M, request: RequestView },
    Done { outcome: T },
    Failed { error: ErrorKind },
}

impl<M: View, T: View> View for Progress<M, T> {
    type V = ProgressView<M::V, T::V>;

    open spec fn view(&self) -> ProgressView<M::V, T::V> {
        match self {
            Progress::Pending { machine, request } => ProgressView::Pending {
                machine: machine@,
                request: request@,
            },
            Progress::Done { outcome } => ProgressView::Done { outcome: outcome@ },
            Progress::Failed { error } => ProgressView::Failed { error: *error },
        }
    }
}

} // verus!
