//! A uniform filesystem interface and a mount table that composes several
//! backends under one virtual namespace.

pub mod base_dirs;
pub mod filesystem;
pub mod path;
pub mod virtual_fs;

pub use filesystem::{
    validate_path, DirEntry, File, FileType, Filesystem, FsError, Metadata, OpenOptions,
    SeekFrom, Timestamp,
};
pub use path::is_valid_path;
pub use virtual_fs::{MountError, Resolution, VirtualFs};
