//! Media types, and their detection from the leading bytes of a file.

use vstd::prelude::*;

verus! {

/// The closed set of media types that entries can carry.
#[derive(Copy, Clone, Debug, PartialEq, Eq, Structural)]
pub enum MediaTag {
    /// Reserved for directories.
    Directory,
    /// Reserved for symbolic links.
    SymLink,
    /// Reserved for entries that could not be classified.
    Invalid,
    /// A regular file whose content matches no known signature.
    Unknown,
    Png,
    Jpeg,
    Gif,
    Pdf,
    Zip,
    Gzip,
    Elf,
}

/// An interned media type. Two media types are equal exactly when their
/// identifiers are.
#[derive(Copy, Clone, Debug, PartialEq, Eq, Structural)]
pub struct FileType {
    pub tag: MediaTag,
}

/// The number of leading bytes that detection looks at.
pub const HEAD_LEN: usize = 8;

impl FileType {
    /// The canonical identifier, as a sequence of characters.
    pub open spec fn identifier_text(self) -> Seq<char> {
        match self.tag {
            MediaTag::Directory => "inode/directory"@,
            MediaTag::SymLink => "inode/symlink"@,
            MediaTag::Invalid => "inode/x-invalid"@,
            MediaTag::Unknown => "application/octet-stream"@,
            MediaTag::Png => "image/png"@,
            MediaTag::Jpeg => "image/jpeg"@,
            MediaTag::Gif => "image/gif"@,
            MediaTag::Pdf => "application/pdf"@,
            MediaTag::Zip => "application/zip"@,
            MediaTag::Gzip => "application/gzip"@,
            MediaTag::Elf => "application/x-elf"@,
        }
    }

    /// Whether this is one of the sentinels that no file content is ever
    /// given.
    pub open spec fn reserved(self) -> bool {
        self.tag is Directory || self.tag is SymLink || self.tag is Invalid
    }

    /// The sentinel media type of directories.
    pub fn directory() -> (t: FileType)
        ensures
            t.tag is Directory,
    {
        FileType { tag: MediaTag::Directory }
    }

    /// The sentinel media type of symbolic links.
    pub fn symlink() -> (t: FileType)
        ensures
            t.tag is SymLink,
    {
        FileType { tag: MediaTag::SymLink }
    }

    /// The sentinel media type of entries that could not be classified.
    pub fn invalid() -> (t: FileType)
        ensures
            t.tag is Invalid,
    {
        FileType { tag: MediaTag::Invalid }
    }

    /// The media type of files whose content matches no signature.
    pub fn unknown() -> (t: FileType)
        ensures
            t.tag is Unknown,
    {
        FileType { tag: MediaTag::Unknown }
    }

    /// Whether this is a reserved sentinel.
    pub fn is_reserved(&self) -> (r: bool)
        ensures
            r == self.reserved(),
    {
        match self.tag {
            MediaTag::Directory => true,
            MediaTag::SymLink => true,
            MediaTag::Invalid => true,
            _ => false,
        }
    }

    /// The canonical identifier.
    pub fn identifier(&self) -> (r: &'static str)
        ensures
            r@ == self.identifier_text(),
    {
        match self.tag {
            MediaTag::Directory => "inode/directory",
            MediaTag::SymLink => "inode/symlink",
            MediaTag::Invalid => "inode/x-invalid",
            MediaTag::Unknown => "application/octet-stream",
            MediaTag::Png => "image/png",
            MediaTag::Jpeg => "image/jpeg",
            MediaTag::Gif => "image/gif",
            MediaTag::Pdf => "application/pdf",
            MediaTag::Zip => "application/zip",
            MediaTag::Gzip => "application/gzip",
            MediaTag::Elf => "application/x-elf",
        }
    }

    /// The file name extension that files of this type usually have.
    pub open spec fn extension_text(self) -> Option<Seq<char>> {
        match self.tag {
            MediaTag::Png => Some("png"@),
            MediaTag::Jpeg => Some("jpg"@),
            MediaTag::Gif => Some("gif"@),
            MediaTag::Pdf => Some("pdf"@),
            MediaTag::Zip => Some("zip"@),
            MediaTag::Gzip => Some("gz"@),
            _ => None,
        }
    }

    /// The file name extension that files of this type usually have, if any.
    pub fn extension(&self) -> (r: Option<&'static str>)
        ensures
            r is Some <==> self.extension_text() is Some,
            r is Some ==> r->0@ == self.extension_text()->0,
    {
        match self.tag {
            MediaTag::Png => Some("png"),
            MediaTag::Jpeg => Some("jpg"),
            MediaTag::Gif => Some("gif"),
            MediaTag::Pdf => Some("pdf"),
            MediaTag::Zip => Some("zip"),
            MediaTag::Gzip => Some("gz"),
            _ => None,
        }
    }
}

/// The leading bytes by which content of a media type is recognised; empty
/// for the types that have no signature.
pub open spec fn signature(tag: MediaTag) -> Seq<u8> {
    match tag {
        MediaTag::Png => seq![0x89u8, 0x50u8, 0x4Eu8, 0x47u8, 0x0Du8, 0x0Au8, 0x1Au8, 0x0Au8],
        MediaTag::Jpeg => seq![0xFFu8, 0xD8u8, 0xFFu8],
        MediaTag::Gif => seq![0x47u8, 0x49u8, 0x46u8, 0x38u8],
        MediaTag::Pdf => seq![0x25u8, 0x50u8, 0x44u8, 0x46u8, 0x2Du8],
        MediaTag::Zip => seq![0x50u8, 0x4Bu8, 0x03u8, 0x04u8],
        MediaTag::Gzip => seq![0x1Fu8, 0x8Bu8],
        MediaTag::Elf => seq![0x7Fu8, 0x45u8, 0x4Cu8, 0x46u8],
        _ => Seq::empty(),
    }
}

/// Whether `head` begins with the signature of `tag`.
pub open spec fn carries(head: Seq<u8>, tag: MediaTag) -> bool {
    signature(tag).len() > 0 && signature(tag).is_prefix_of(head)
}

/// The media type that content beginning with `head` is given.
pub open spec fn detected(head: Seq<u8>) -> FileType {
    if carries(head, MediaTag::Png) {
        FileType { tag: MediaTag::Png }
    } else if carries(head, MediaTag::Jpeg) {
        FileType { tag: MediaTag::Jpeg }
    } else if carries(head, MediaTag::Gif) {
        FileType { tag: MediaTag::Gif }
    } else if carries(head, MediaTag::Pdf) {
        FileType { tag: MediaTag::Pdf }
    } else if carries(head, MediaTag::Zip) {
        FileType { tag: MediaTag::Zip }
    } else if carries(head, MediaTag::Gzip) {
        FileType { tag: MediaTag::Gzip }
    } else if carries(head, MediaTag::Elf) {
        FileType { tag: MediaTag::Elf }
    } else {
        FileType { tag: MediaTag::Unknown }
    }
}

fn begins_with(head: &[u8], magic: &[u8]) -> (r: bool)
    ensures
        r == magic@.is_prefix_of(head@),
{
    if magic.len() > head.len() {
        return false;
    }
    let mut i: usize = 0;
    while i < magic.len()
        invariant
            i <= magic.len() <= head.len(),
            forall|k: int| 0 <= k < i ==> magic@[k] == head@[k],
        decreases magic.len() - i,
    {
        if magic[i] != head[i] {
            return false;
        }
        i += 1;
    }
    true
}

/// Detects the media type of a file from its leading bytes. Only the first
/// [`HEAD_LEN`] bytes matter; content that carries no known signature is of
/// the unknown type, never an error.
pub fn detect(head: &[u8]) -> (t: FileType)
    ensures
        t == detected(head@),
        !t.reserved(),
{
    let png: [u8; 8] = [0x89, 0x50, 0x4E, 0x47, 0x0D, 0x0A, 0x1A, 0x0A];
    let jpeg: [u8; 3] = [0xFF, 0xD8, 0xFF];
    let gif: [u8; 4] = [0x47, 0x49, 0x46, 0x38];
    let pdf: [u8; 5] = [0x25, 0x50, 0x44, 0x46, 0x2D];
    let zip: [u8; 4] = [0x50, 0x4B, 0x03, 0x04];
    let gzip: [u8; 2] = [0x1F, 0x8B];
    let elf: [u8; 4] = [0x7F, 0x45, 0x4C, 0x46];
    if begins_with(head, png.as_slice()) {
        FileType { tag: MediaTag::Png }
    } else if begins_with(head, jpeg.as_slice()) {
        FileType { tag: MediaTag::Jpeg }
    } else if begins_with(head, gif.as_slice()) {
        FileType { tag: MediaTag::Gif }
    } else if begins_with(head, pdf.as_slice()) {
        FileType { tag: MediaTag::Pdf }
    } else if begins_with(head, zip.as_slice()) {
        FileType { tag: MediaTag::Zip }
    } else if begins_with(head, gzip.as_slice()) {
        FileType { tag: MediaTag::Gzip }
    } else if begins_with(head, elf.as_slice()) {
        FileType { tag: MediaTag::Elf }
    } else {
        FileType { tag: MediaTag::Unknown }
    }
}

/// Two media types with the same identifier are the same media type.
pub proof fn lemma_identifier_determines_type(a: FileType, b: FileType)
    requires
        a.identifier_text() == b.identifier_text(),
    ensures
        a == b,
{
    reveal_strlit("inode/directory");
    reveal_strlit("inode/symlink");
    reveal_strlit("inode/x-invalid");
    reveal_strlit("application/octet-stream");
    reveal_strlit("image/png");
    reveal_strlit("image/jpeg");
    reveal_strlit("image/gif");
    reveal_strlit("application/pdf");
    reveal_strlit("application/zip");
    reveal_strlit("application/gzip");
    reveal_strlit("application/x-elf");
    let s = a.identifier_text();
    let t = b.identifier_text();
    assert(s[6] == t[6]);
    assert(s[12] == t[12]);
}

/// Content carries the signature of at most one media type, so the order in
/// which signatures are tried does not matter.
pub proof fn lemma_signatures_exclusive(head: Seq<u8>, a: MediaTag, b: MediaTag)
    requires
        carries(head, a),
        carries(head, b),
    ensures
        a == b,
{
}

/// Detection looks at no more than the first [`HEAD_LEN`] bytes.
pub proof fn lemma_detection_reads_head_only(content: Seq<u8>)
    requires
        content.len() >= HEAD_LEN,
    ensures
        detected(content) == detected(content.subrange(0, HEAD_LEN as int)),
{
}

} // verus!
