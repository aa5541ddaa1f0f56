//! The interface every filesystem backend offers, and the values it hands out.

use vstd::prelude::*;

use crate::path::valid_text;

verus! {

/// Why an operation on a filesystem failed.
#[derive(Clone, Debug, PartialEq, Eq)]
pub enum FsError {
    /// The path is not a well-formed virtual path.
    InvalidInput,
    NotFound,
    PermissionDenied,
    AlreadyExists,
    DirectoryNotEmpty,
    /// Any other failure of a backend, with its message.
    Other(String),
}

/// Checks whether a path fits the virtual path syntax and may be used.
pub fn validate_path(path: &str) -> (r: Result<(), FsError>)
    ensures
        valid_text(path@) ==> r == Ok::<(), FsError>(()),
        !valid_text(path@) ==> r == Err::<(), FsError>(FsError::InvalidInput),
{
    if crate::path::is_valid_path(path) {
        Ok(())
    } else {
        Err(FsError::InvalidInput)
    }
}

/// What kind of entry a path names. `Archive` stands for an entry that is
/// both a file and a directory; no backend here produces it.
#[derive(Clone, Copy, Debug, PartialEq, Eq, Structural)]
pub enum FileType {
    File,
    Directory,
    Archive,
}

/// A point in time, as seconds and nanoseconds since the Unix epoch.
#[derive(Clone, Copy, Debug, PartialEq, Eq, Structural)]
pub struct Timestamp {
    pub secs: u64,
    pub nanos: u32,
}

/// A snapshot of what is known about an entry. Optional fields are absent
/// where the backend cannot supply them.
#[derive(Clone, Copy, Debug, PartialEq, Eq, Structural)]
pub struct Metadata {
    pub is_readonly: bool,
    pub file_type: FileType,
    pub len: Option<u64>,
    pub created: Option<Timestamp>,
    pub accessed: Option<Timestamp>,
    pub modified: Option<Timestamp>,
}

/// The metadata of a directory that exists only between the root of a mount
/// table and its mount points.
pub open spec fn virtual_dir_meta() -> Metadata {
    Metadata {
        is_readonly: true,
        file_type: FileType::Directory,
        len: None,
        created: None,
        accessed: None,
        modified: None,
    }
}

impl Metadata {
    /// The metadata of a synthesized directory: read-only, a directory, and
    /// nothing more.
    pub fn virtual_dir() -> (r: Metadata)
        ensures
            r == virtual_dir_meta(),
    {
        Metadata {
            is_readonly: true,
            file_type: FileType::Directory,
            len: None,
            created: None,
            accessed: None,
            modified: None,
        }
    }

    /// The metadata of an entry on disk: a file where the disk says so, a
    /// directory otherwise, with its length and whatever times it has.
    pub fn from_disk(
        is_readonly: bool,
        is_file: bool,
        len: u64,
        created: Option<Timestamp>,
        accessed: Option<Timestamp>,
        modified: Option<Timestamp>,
    ) -> (r: Metadata)
        ensures
            r.is_readonly == is_readonly,
            r.file_type == (if is_file {
                FileType::File
            } else {
                FileType::Directory
            }),
            r.len == Some(len),
            r.created == created,
            r.accessed == accessed,
            r.modified == modified,
    {
        Metadata {
            is_readonly,
            file_type: if is_file {
                FileType::File
            } else {
                FileType::Directory
            },
            len: Some(len),
            created,
            accessed,
            modified,
        }
    }
}

/// One entry of a directory listing: its path and its metadata.
#[derive(Clone, Debug, PartialEq, Eq)]
pub struct DirEntry {
    pub path: String,
    pub meta: Metadata,
}

/// The capabilities asked for when a file is opened. Appending, truncating,
/// creating and exclusive creation each imply writing; exclusive creation
/// also implies truncating.
#[derive(Clone, Copy, Debug, PartialEq, Eq, Structural)]
pub struct OpenOptions {
    pub read: bool,
    pub write: bool,
    pub append: bool,
    pub truncate: bool,
    pub create: bool,
    pub create_new: bool,
}

impl OpenOptions {
    /// The implications between the flags hold.
    pub open spec fn wf(self) -> bool {
        &&& (self.append || self.truncate || self.create || self.create_new) ==> self.write
        &&& self.create_new ==> self.truncate
    }

    pub open spec fn flags(read: bool, write: bool, append: bool, truncate: bool, create: bool, create_new: bool) -> OpenOptions {
        OpenOptions { read, write, append, truncate, create, create_new }
    }

    /// No capability.
    pub fn empty() -> (r: OpenOptions)
        ensures
            r == Self::flags(false, false, false, false, false, false),
    {
        OpenOptions { read: false, write: false, append: false, truncate: false, create: false, create_new: false }
    }

    /// Reading.
    pub fn read() -> (r: OpenOptions)
        ensures
            r == Self::flags(true, false, false, false, false, false),
    {
        OpenOptions { read: true, ..Self::empty() }
    }

    /// Writing.
    pub fn write() -> (r: OpenOptions)
        ensures
            r == Self::flags(false, true, false, false, false, false),
    {
        OpenOptions { write: true, ..Self::empty() }
    }

    /// Appending, which implies writing.
    pub fn append() -> (r: OpenOptions)
        ensures
            r == Self::flags(false, true, true, false, false, false),
    {
        OpenOptions { write: true, append: true, ..Self::empty() }
    }

    /// Truncating, which implies writing.
    pub fn truncate() -> (r: OpenOptions)
        ensures
            r == Self::flags(false, true, false, true, false, false),
    {
        OpenOptions { write: true, truncate: true, ..Self::empty() }
    }

    /// Creating if absent, which implies writing.
    pub fn create() -> (r: OpenOptions)
        ensures
            r == Self::flags(false, true, false, false, true, false),
    {
        OpenOptions { write: true, create: true, ..Self::empty() }
    }

    /// Exclusive creation, which implies truncating and writing.
    pub fn create_new() -> (r: OpenOptions)
        ensures
            r == Self::flags(false, true, false, true, false, true),
    {
        OpenOptions { write: true, truncate: true, create_new: true, ..Self::empty() }
    }

    /// Every capability of either.
    pub fn union(self, other: OpenOptions) -> (r: OpenOptions)
        ensures
            r == Self::flags(
                self.read || other.read,
                self.write || other.write,
                self.append || other.append,
                self.truncate || other.truncate,
                self.create || other.create,
                self.create_new || other.create_new,
            ),
            self.wf() && other.wf() ==> r.wf(),
    {
        OpenOptions {
            read: self.read || other.read,
            write: self.write || other.write,
            append: self.append || other.append,
            truncate: self.truncate || other.truncate,
            create: self.create || other.create,
            create_new: self.create_new || other.create_new,
        }
    }

    /// Whether every capability of `other` is among these.
    pub fn contains(self, other: OpenOptions) -> (r: bool)
        ensures
            r == ((other.read ==> self.read) && (other.write ==> self.write) && (other.append
                ==> self.append) && (other.truncate ==> self.truncate) && (other.create
                ==> self.create) && (other.create_new ==> self.create_new)),
    {
        (!other.read || self.read) && (!other.write || self.write) && (!other.append
            || self.append) && (!other.truncate || self.truncate) && (!other.create
            || self.create) && (!other.create_new || self.create_new)
    }
}

/// Where a seek measures from.
#[derive(Clone, Copy, Debug, PartialEq, Eq, Structural)]
pub enum SeekFrom {
    Start(u64),
    End(i64),
    Current(i64),
}

/// An open file with a cursor. Its owner releases it.
pub trait File {
    /// Reads into `buf` from the cursor on; returns how many bytes were read.
    fn read(&mut self, buf: &mut [u8]) -> Result<usize, FsError>;

    /// Writes from `buf` at the cursor; returns how many bytes were written.
    fn write(&mut self, buf: &[u8]) -> Result<usize, FsError>;

    /// Moves the cursor; returns its new offset from the start.
    fn seek(&mut self, pos: SeekFrom) -> Result<u64, FsError>;

    fn flush(&mut self) -> Result<(), FsError>;

    fn metadata(&self) -> Result<Metadata, FsError>;
}

/// The operations of a filesystem backend. Every path is a virtual path
/// relative to the backend's own root; a malformed one fails with
/// `FsError::InvalidInput`.
pub trait Filesystem: Send + Sync {
    /// What `open_file` hands out.
    type Handle: File;

    fn metadata(&self, path: &str) -> Result<Metadata, FsError>;

    fn open_file(&self, path: &str, opts: OpenOptions) -> Result<Self::Handle, FsError>;

    fn remove_file(&self, path: &str) -> Result<(), FsError>;

    /// Lists a directory; each entry holds the full path of the child.
    fn read_dir(&self, path: &str) -> Result<Vec<DirEntry>, FsError>;

    fn create_dir(&self, path: &str) -> Result<(), FsError>;

    /// Creates the directory and any missing ancestor.
    fn create_dir_all(&self, path: &str) -> Result<(), FsError>;

    fn remove_dir(&self, path: &str) -> Result<(), FsError>;

    /// Removes the directory and all it holds.
    fn remove_dir_all(&self, path: &str) -> Result<(), FsError>;
}

} // verus!
