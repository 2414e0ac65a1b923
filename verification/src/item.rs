//! Filesystem entries: what kind of object a path names, captured once.

use vstd::prelude::*;
use vstd::string::*;
use crate::error::{ErrorKind, IoFailure};
use crate::media::{detect, detected, FileType, MediaTag};
use crate::protocol::Metadata;
use crate::text::{destination_of, link_destination};

verus! {

/// The kind of a filesystem entry. There are exactly these four shapes.
#[derive(Clone, Debug, PartialEq, Eq)]
pub enum FSItemType {
    Directory,
    /// A regular file, with the media type detected from its content.
    File { file_type: FileType },
    /// A symbolic link, with its target as it is stored in the link.
    SymLink { path: String },
    /// Anything that could not be classified, with the reason.
    Invalid { cause: ErrorKind },
}

/// The mathematical value of an [`FSItemType`].
pub enum KindView {
    Directory,
    File { file_type: FileType },
    SymLink { path: Seq<char> },
    Invalid { cause: ErrorKind },
}

impl View for FSItemType {
    type V = KindView;

    open spec fn view(&self) -> KindView {
        match self {
            FSItemType::Directory => KindView::Directory,
            FSItemType::File { file_type } => KindView::File { file_type: *file_type },
            FSItemType::SymLink { path } => KindView::SymLink { path: path@ },
            FSItemType::Invalid { cause } => KindView::Invalid { cause: *cause },
        }
    }
}

impl KindView {
    /// The media type by which an entry of this kind is compared: the content
    /// type of a file, and a reserved sentinel for everything else.
    pub open spec fn media_type(self) -> FileType {
        match self {
            KindView::Directory => FileType { tag: MediaTag::Directory },
            KindView::File { file_type } => file_type,
            KindView::SymLink { .. } => FileType { tag: MediaTag::SymLink },
            KindView::Invalid { .. } => FileType { tag: MediaTag::Invalid },
        }
    }

    /// What classification establishes of a kind: a file carries no reserved
    /// media type, and the cause of an invalid entry is one that may be
    /// recorded.
    pub open spec fn well_formed(self) -> bool {
        match self {
            KindView::File { file_type } => !file_type.reserved(),
            KindView::Invalid { cause } => cause.recordable(),
            _ => true,
        }
    }

    /// The name of the kind.
    pub open spec fn label(self) -> Seq<char> {
        match self {
            KindView::Directory => "Directory"@,
            KindView::File { .. } => "File"@,
            KindView::SymLink { .. } => "SymLink"@,
            KindView::Invalid { .. } => "Invalid"@,
        }
    }
}

impl FSItemType {
    /// The media type by which an entry of this kind is compared.
    pub fn media_type(&self) -> (t: FileType)
        ensures
            t == self@.media_type(),
    {
        match self {
            FSItemType::Directory => FileType::directory(),
            FSItemType::File { file_type } => *file_type,
            FSItemType::SymLink { .. } => FileType::symlink(),
            FSItemType::Invalid { .. } => FileType::invalid(),
        }
    }

    /// The name of the kind, for display.
    pub fn label(&self) -> (r: &'static str)
        ensures
            r@ == self@.label(),
    {
        match self {
            FSItemType::Directory => "Directory",
            FSItemType::File { .. } => "File",
            FSItemType::SymLink { .. } => "SymLink",
            FSItemType::Invalid { .. } => "Invalid",
        }
    }

    /// The name of the kind, as an owned string.
    pub fn to_string(&self) -> (r: String)
        ensures
            r@ == self@.label(),
    {
        String::from_str(self.label())
    }

    /// Whether this kind and `other` are the same, media type or target or
    /// cause included.
    pub fn same_as(&self, other: &FSItemType) -> (r: bool)
        ensures
            r == (self@ == other@),
    {
        match self {
            FSItemType::Directory => match other {
                FSItemType::Directory => true,
                _ => false,
            },
            FSItemType::File { file_type: x } => match other {
                FSItemType::File { file_type: y } => *x == *y,
                _ => false,
            },
            FSItemType::SymLink { path: x } => match other {
                FSItemType::SymLink { path: y } => *x == *y,
                _ => false,
            },
            FSItemType::Invalid { cause: x } => match other {
                FSItemType::Invalid { cause: y } => *x == *y,
                _ => false,
            },
        }
    }

    /// A copy of this kind.
    pub fn duplicate(&self) -> (r: FSItemType)
        ensures
            r@ == self@,
    {
        match self {
            FSItemType::Directory => FSItemType::Directory,
            FSItemType::File { file_type } => FSItemType::File { file_type: *file_type },
            FSItemType::SymLink { path } => FSItemType::SymLink { path: path.clone() },
            FSItemType::Invalid { cause } => FSItemType::Invalid { cause: *cause },
        }
    }
}

/// What was read of one filesystem object, from which it is classified.
#[derive(Debug, PartialEq, Eq)]
pub enum Report {
    /// The metadata could not be read.
    Unavailable { failure: IoFailure },
    Directory { metadata: Metadata },
    /// A regular file, with its leading bytes or the reason why they could
    /// not be read.
    File { metadata: Metadata, head: Result<Vec<u8>, IoFailure> },
    /// A symbolic link, with its target as it is stored in the link, or the
    /// reason why it could not be read.
    SymLink { metadata: Metadata, target: Result<String, IoFailure> },
    /// Some other object.
    Other { metadata: Metadata },
}

/// The mathematical value of a [`Report`].
pub enum ReportView {
    Unavailable { failure: IoFailure },
    Directory { metadata: Metadata },
    File { metadata: Metadata, head: Result<Seq<u8>, IoFailure> },
    SymLink { metadata: Metadata, target: Result<Seq<char>, IoFailure> },
    Other { metadata: Metadata },
}

impl View for Report {
    type V = ReportView;

    open spec fn view(&self) -> ReportView {
        match self {
            Report::Unavailable { failure } => ReportView::Unavailable { failure: *failure },
            Report::Directory { metadata } => ReportView::Directory { metadata: *metadata },
            Report::File { metadata, head } => ReportView::File {
                metadata: *metadata,
                head: match head {
                    Ok(bytes) => Ok(bytes@),
                    Err(f) => Err(*f),
                },
            },
            Report::SymLink { metadata, target } => ReportView::SymLink {
                metadata: *metadata,
                target: match target {
                    Ok(t) => Ok(t@),
                    Err(f) => Err(*f),
                },
            },
            Report::Other { metadata } => ReportView::Other { metadata: *metadata },
        }
    }
}

/// One filesystem object at one instant: an immutable snapshot.
#[derive(Clone, Debug, PartialEq, Eq)]
pub struct FSItem {
    item_type: FSItemType,
    name: String,
    path: String,
    metadata: Option<Metadata>,
}

/// The mathematical value of an [`FSItem`].
pub struct FSItemView {
    pub item_type: KindView,
    pub name: Seq<char>,
    pub path: Seq<char>,
    pub metadata: Option<Metadata>,
}

impl FSItemView {
    /// What holds of every entry: its kind is well formed, and it has
    /// metadata exactly when it is not invalid.
    pub open spec fn well_formed(self) -> bool {
        &&& self.item_type.well_formed()
        &&& self.metadata is None <==> self.item_type is Invalid
    }

    /// The place that the entry names if it is a symbolic link: its target
    /// itself when that starts at the root, and otherwise the target taken
    /// from the directory that holds the link.
    pub open spec fn link_place(self) -> Option<Seq<char>> {
        match self.item_type {
            KindView::SymLink { path } => Some(link_destination(self.path, path)),
            _ => None,
        }
    }
}

/// The entry that stands for an object that could not be classified.
pub open spec fn invalid_entry(name: Seq<char>, path: Seq<char>, cause: ErrorKind) -> FSItemView {
    FSItemView { item_type: KindView::Invalid { cause }, name, path, metadata: None }
}

/// The entry for the object at `path`, called `name`, of which `report` was
/// read. Every failure becomes an invalid entry that names its cause.
pub open spec fn classified(name: Seq<char>, path: Seq<char>, report: ReportView) -> FSItemView {
    match report {
        ReportView::Unavailable { failure } => invalid_entry(name, path, failure.cause()),
        ReportView::Directory { metadata } => FSItemView {
            item_type: KindView::Directory,
            name,
            path,
            metadata: Some(metadata),
        },
        ReportView::File { metadata, head } => match head {
            Ok(bytes) => FSItemView {
                item_type: KindView::File { file_type: detected(bytes) },
                name,
                path,
                metadata: Some(metadata),
            },
            Err(failure) => invalid_entry(name, path, failure.cause()),
        },
        ReportView::SymLink { metadata, target } => match target {
            Ok(t) => FSItemView {
                item_type: KindView::SymLink { path: t },
                name,
                path,
                metadata: Some(metadata),
            },
            Err(failure) => invalid_entry(name, path, failure.cause()),
        },
        ReportView::Other { .. } => invalid_entry(name, path, ErrorKind::UnsupportedObjectType),
    }
}

impl View for FSItem {
    type V = FSItemView;

    closed spec fn view(&self) -> FSItemView {
        FSItemView {
            item_type: self.item_type@,
            name: self.name@,
            path: self.path@,
            metadata: self.metadata,
        }
    }
}

impl FSItem {
    /// Classifies the object at `path`, called `name`, from what was read of
    /// it. This cannot fail: whatever could not be read makes the entry
    /// invalid, with the cause recorded. A symbolic link keeps its target as
    /// it was read.
    pub fn new(name: String, path: String, report: Report) -> (item: FSItem)
        ensures
            item@ == classified(name@, path@, report@),
            item@.well_formed(),
    {
        match report {
            Report::Unavailable { failure } => FSItem {
                item_type: FSItemType::Invalid { cause: failure.to_error() },
                name,
                path,
                metadata: None,
            },
            Report::Directory { metadata } => FSItem {
                item_type: FSItemType::Directory,
                name,
                path,
                metadata: Some(metadata),
            },
            Report::File { metadata, head } => match head {
                Ok(bytes) => FSItem {
                    item_type: FSItemType::File { file_type: detect(bytes.as_slice()) },
                    name,
                    path,
                    metadata: Some(metadata),
                },
                Err(failure) => FSItem {
                    item_type: FSItemType::Invalid { cause: failure.to_error() },
                    name,
                    path,
                    metadata: None,
                },
            },
            Report::SymLink { metadata, target } => match target {
                Ok(t) => FSItem {
                    item_type: FSItemType::SymLink { path: t },
                    name,
                    path,
                    metadata: Some(metadata),
                },
                Err(failure) => FSItem {
                    item_type: FSItemType::Invalid { cause: failure.to_error() },
                    name,
                    path,
                    metadata: None,
                },
            },
            Report::Other { .. } => FSItem {
                item_type: FSItemType::Invalid { cause: ErrorKind::UnsupportedObjectType },
                name,
                path,
                metadata: None,
            },
        }
    }

    /// A copy of this entry.
    pub fn duplicate(&self) -> (r: FSItem)
        ensures
            r@ == self@,
    {
        FSItem {
            item_type: self.item_type.duplicate(),
            name: self.name.clone(),
            path: self.path.clone(),
            metadata: self.metadata,
        }
    }

    /// The kind of the entry.
    pub fn item_type(&self) -> (r: &FSItemType)
        ensures
            r@ == self@.item_type,
    {
        &self.item_type
    }

    /// The base name of the entry.
    pub fn name(&self) -> (r: &str)
        ensures
            r@ == self@.name,
    {
        self.name.as_str()
    }

    /// The path of the entry, as it was given.
    pub fn path(&self) -> (r: &str)
        ensures
            r@ == self@.path,
    {
        self.path.as_str()
    }

    /// The metadata that was read when the entry was classified; none for an
    /// invalid entry.
    pub fn metadata(&self) -> (r: Option<Metadata>)
        ensures
            r == self@.metadata,
    {
        self.metadata
    }

    /// The place that the entry names if it is a symbolic link.
    pub fn link_place(&self) -> (r: Option<String>)
        ensures
            r is Some <==> self@.link_place() is Some,
            r matches Some(place) ==> place@ == self@.link_place()->0,
    {
        match &self.item_type {
            FSItemType::SymLink { path } => Some(destination_of(self.path.as_str(), path.as_str())),
            _ => None,
        }
    }

    /// Whether the entry is a directory.
    pub fn is_dir(&self) -> (r: bool)
        ensures
            r == (self@.item_type is Directory),
    {
        match self.item_type {
            FSItemType::Directory => true,
            _ => false,
        }
    }

    /// Whether the entry is a symbolic link.
    pub fn is_symlink(&self) -> (r: bool)
        ensures
            r == (self@.item_type is SymLink),
    {
        match self.item_type {
            FSItemType::SymLink { .. } => true,
            _ => false,
        }
    }

    /// Whether the entry could not be classified.
    pub fn is_invalid(&self) -> (r: bool)
        ensures
            r == (self@.item_type is Invalid),
    {
        match self.item_type {
            FSItemType::Invalid { .. } => true,
            _ => false,
        }
    }
}

} // verus!
