use std::sync::{Arc, Mutex};

use myfs::filesystem::{
    DirEntry, File, FileType, Filesystem, FsError, Metadata, OpenOptions, SeekFrom,
};
use myfs::virtual_fs::{MountError, Resolution, VirtualFs};

/// A backend that answers every call with its own id and records the paths
/// it was asked about.
struct Fake {
    id: u64,
    log: Arc<Mutex<Vec<String>>>,
}

struct FakeFile {
    id: u64,
}

impl File for FakeFile {
    fn read(&mut self, _buf: &mut [u8]) -> Result<usize, FsError> {
        Ok(0)
    }
    fn write(&mut self, buf: &[u8]) -> Result<usize, FsError> {
        Ok(buf.len())
    }
    fn seek(&mut self, _pos: SeekFrom) -> Result<u64, FsError> {
        Ok(0)
    }
    fn flush(&mut self) -> Result<(), FsError> {
        Ok(())
    }
    fn metadata(&self) -> Result<Metadata, FsError> {
        Ok(file_meta(self.id))
    }
}

fn file_meta(id: u64) -> Metadata {
    Metadata {
        is_readonly: false,
        file_type: FileType::File,
        len: Some(id),
        created: None,
        accessed: None,
        modified: None,
    }
}

impl Fake {
    fn note(&self, op: &str, path: &str) {
        self.log.lock().unwrap().push(format!("{}:{}:{}", self.id, op, path));
    }
}

impl Filesystem for Fake {
    type Handle = FakeFile;
    fn metadata(&self, path: &str) -> Result<Metadata, FsError> {
        self.note("metadata", path);
        Ok(file_meta(self.id))
    }
    fn open_file(&self, path: &str, _opts: OpenOptions) -> Result<FakeFile, FsError> {
        self.note("open", path);
        Ok(FakeFile { id: self.id })
    }
    fn remove_file(&self, path: &str) -> Result<(), FsError> {
        self.note("remove_file", path);
        Ok(())
    }
    fn read_dir(&self, path: &str) -> Result<Vec<DirEntry>, FsError> {
        self.note("read_dir", path);
        Ok(vec![DirEntry { path: format!("from{}", self.id), meta: file_meta(self.id) }])
    }
    fn create_dir(&self, path: &str) -> Result<(), FsError> {
        self.note("create_dir", path);
        Ok(())
    }
    fn create_dir_all(&self, path: &str) -> Result<(), FsError> {
        self.note("create_dir_all", path);
        Ok(())
    }
    fn remove_dir(&self, path: &str) -> Result<(), FsError> {
        self.note("remove_dir", path);
        Err(FsError::DirectoryNotEmpty)
    }
    fn remove_dir_all(&self, path: &str) -> Result<(), FsError> {
        self.note("remove_dir_all", path);
        Ok(())
    }
}

fn fake(id: u64, log: &Arc<Mutex<Vec<String>>>) -> Fake {
    Fake { id, log: Arc::clone(log) }
}

fn new_log() -> Arc<Mutex<Vec<String>>> {
    Arc::new(Mutex::new(Vec::new()))
}

#[test]
fn nested_mount_is_refused_and_root_listing_is_synthesized() {
    let log = new_log();
    let mut vfs = VirtualFs::new();
    assert_eq!(vfs.mount("data", fake(1, &log)), Ok(()));
    assert_eq!(vfs.mount("data/cache", fake(2, &log)), Err(MountError::LocationOverlap));
    assert_eq!(vfs.mount("logs", fake(3, &log)), Ok(()));

    let root = vfs.read_dir("").unwrap();
    assert_eq!(root.len(), 2);
    assert_eq!(root[0].path, "data");
    assert_eq!(root[0].meta, Metadata::virtual_dir());
    assert_eq!(root[1].path, "logs");
    assert_eq!(root[1].meta, Metadata::virtual_dir());

    let data = vfs.read_dir("data").unwrap();
    assert_eq!(data.len(), 1);
    assert_eq!(data[0].path, "from1");
    assert_eq!(log.lock().unwrap().as_slice(), &["1:read_dir:".to_string()]);
}

#[test]
fn empty_table_has_nothing_to_open_or_create_into() {
    let vfs: VirtualFs<Fake> = VirtualFs::new();
    assert!(matches!(vfs.open_file("anything", OpenOptions::read()), Err(FsError::NotFound)));
    assert_eq!(vfs.create_dir("anything"), Err(FsError::PermissionDenied));
    assert_eq!(vfs.create_dir_all("anything"), Err(FsError::PermissionDenied));
    assert_eq!(vfs.metadata("anything"), Err(FsError::NotFound));
    assert_eq!(vfs.read_dir(""), Err(FsError::NotFound));
    assert_eq!(vfs.remove_file("anything"), Err(FsError::NotFound));
    assert_eq!(vfs.remove_dir("anything"), Err(FsError::NotFound));
    assert_eq!(vfs.remove_dir_all("anything"), Err(FsError::NotFound));
}

#[test]
fn parent_segment_is_rejected_before_any_backend() {
    let log = new_log();
    let mut vfs = VirtualFs::new();
    assert_eq!(vfs.mount("", fake(1, &log)), Ok(()));
    assert_eq!(vfs.metadata("../etc/passwd"), Err(FsError::InvalidInput));
    assert_eq!(vfs.read_dir("a/../b"), Err(FsError::InvalidInput));
    assert_eq!(vfs.create_dir("/abs"), Err(FsError::InvalidInput));
    assert_eq!(vfs.remove_file("./x"), Err(FsError::InvalidInput));
    assert!(matches!(vfs.open_file("..", OpenOptions::read()), Err(FsError::InvalidInput)));
    assert!(log.lock().unwrap().is_empty());
    assert_eq!(vfs.metadata("etc/passwd"), Ok(file_meta(1)));
    assert_eq!(log.lock().unwrap().as_slice(), &["1:metadata:etc/passwd".to_string()]);
}

#[test]
fn boundary_metadata_is_a_read_only_directory() {
    let log = new_log();
    let mut vfs = VirtualFs::new();
    assert_eq!(vfs.mount("a/b/c", fake(7, &log)), Ok(()));
    for p in ["", "a", "a/b"] {
        let m = vfs.metadata(p).unwrap();
        assert!(m.is_readonly);
        assert_eq!(m.file_type, FileType::Directory);
        assert_eq!(m.len, None);
        assert_eq!(m.created, None);
        assert_eq!(m.accessed, None);
        assert_eq!(m.modified, None);
    }
    assert!(log.lock().unwrap().is_empty());
    assert_eq!(vfs.metadata("a/x"), Err(FsError::NotFound));
}

#[test]
fn boundary_listing_has_one_entry_per_nested_mount() {
    let log = new_log();
    let mut vfs = VirtualFs::new();
    assert_eq!(vfs.mount("a/b", fake(1, &log)), Ok(()));
    assert_eq!(vfs.mount("x", fake(2, &log)), Ok(()));
    assert_eq!(vfs.mount("a/c/d", fake(3, &log)), Ok(()));
    let listing = vfs.read_dir("a").unwrap();
    let paths: Vec<&str> = listing.iter().map(|e| e.path.as_str()).collect();
    assert_eq!(paths, vec!["b", "c/d"]);
    for e in &listing {
        assert_eq!(e.meta, Metadata::virtual_dir());
    }
    assert!(log.lock().unwrap().is_empty());
}

#[test]
fn overlapping_mounts_are_refused() {
    let log = new_log();
    let mut vfs = VirtualFs::new();
    assert_eq!(vfs.mount("a/b", fake(1, &log)), Ok(()));
    assert_eq!(vfs.mount("a/b", fake(2, &log)), Err(MountError::LocationOverlap));
    assert_eq!(vfs.mount("a//b/", fake(2, &log)), Err(MountError::LocationOverlap));
    assert_eq!(vfs.mount("a", fake(2, &log)), Err(MountError::LocationOverlap));
    assert_eq!(vfs.mount("a/b/c", fake(2, &log)), Err(MountError::LocationOverlap));
    assert_eq!(vfs.mount("", fake(2, &log)), Err(MountError::LocationOverlap));
    assert_eq!(vfs.mount("a/bc", fake(2, &log)), Ok(()));
    assert_eq!(vfs.mount("../a", fake(3, &log)), Err(MountError::InvalidPath));
}

#[test]
fn mount_then_unmount_restores_the_table() {
    let log = new_log();
    let mut vfs = VirtualFs::new();
    assert_eq!(vfs.mount("keep", fake(1, &log)), Ok(()));
    assert_eq!(vfs.mount("tmp/x", fake(2, &log)), Ok(()));
    let back = vfs.unmount("tmp/x").unwrap();
    assert_eq!(back.id, 2);
    assert_eq!(vfs.metadata("tmp"), Err(FsError::NotFound));
    assert_eq!(vfs.metadata("tmp/x"), Err(FsError::NotFound));
    let root = vfs.read_dir("").unwrap();
    assert_eq!(root.len(), 1);
    assert_eq!(root[0].path, "keep");
    assert_eq!(vfs.mount("tmp/x", fake(4, &log)), Ok(()));
}

#[test]
fn unmount_needs_the_exact_base() {
    let log = new_log();
    let mut vfs = VirtualFs::new();
    assert_eq!(vfs.mount("a/b", fake(1, &log)), Ok(()));
    assert!(vfs.unmount("a").is_none());
    assert!(vfs.unmount("a/b/c").is_none());
    assert!(vfs.unmount("../a").is_none());
    assert_eq!(vfs.unmount("a//b").map(|f| f.id), Some(1));
    assert!(vfs.unmount("a/b").is_none());
}

#[test]
fn unmount_all_clears_every_binding() {
    let log = new_log();
    let mut vfs = VirtualFs::new();
    assert_eq!(vfs.mount("a", fake(1, &log)), Ok(()));
    assert_eq!(vfs.mount("b", fake(2, &log)), Ok(()));
    vfs.unmount_all();
    assert_eq!(vfs.read_dir(""), Err(FsError::NotFound));
    assert_eq!(vfs.mount("a/b", fake(3, &log)), Ok(()));
}

#[test]
fn paths_reach_only_their_own_backend() {
    let log = new_log();
    let mut vfs = VirtualFs::new();
    assert_eq!(vfs.mount("p1", fake(1, &log)), Ok(()));
    assert_eq!(vfs.mount("p2/q", fake(2, &log)), Ok(()));
    assert_eq!(vfs.metadata("p1/x/y"), Ok(file_meta(1)));
    assert_eq!(vfs.metadata("p2/q/z"), Ok(file_meta(2)));
    assert_eq!(vfs.metadata("p1"), Ok(file_meta(1)));
    let f = vfs.open_file("p2/q/f", OpenOptions::read()).ok().unwrap();
    assert_eq!(f.id, 2);
    assert_eq!(vfs.create_dir("p1/new"), Ok(()));
    assert_eq!(vfs.create_dir_all("p2/q/n/m"), Ok(()));
    assert_eq!(vfs.remove_file("p1/old"), Ok(()));
    assert_eq!(vfs.remove_dir("p2/q/d"), Err(FsError::DirectoryNotEmpty));
    assert_eq!(vfs.remove_dir_all("p1/d"), Ok(()));
    let expected: Vec<String> = [
        "1:metadata:x/y",
        "2:metadata:z",
        "1:metadata:",
        "2:open:f",
        "1:create_dir:new",
        "2:create_dir_all:n/m",
        "1:remove_file:old",
        "2:remove_dir:d",
        "1:remove_dir_all:d",
    ]
    .iter()
    .map(|s| s.to_string())
    .collect();
    assert_eq!(*log.lock().unwrap(), expected);
}

#[test]
fn boundary_refuses_mutation() {
    let log = new_log();
    let mut vfs = VirtualFs::new();
    assert_eq!(vfs.mount("a/b", fake(1, &log)), Ok(()));
    assert!(matches!(vfs.open_file("a", OpenOptions::write()), Err(FsError::PermissionDenied)));
    assert_eq!(vfs.remove_file("a"), Err(FsError::PermissionDenied));
    assert_eq!(vfs.remove_dir("a"), Err(FsError::PermissionDenied));
    assert_eq!(vfs.remove_dir_all(""), Err(FsError::PermissionDenied));
    assert_eq!(vfs.create_dir("a"), Err(FsError::PermissionDenied));
    assert_eq!(vfs.create_dir_all("a/c"), Err(FsError::PermissionDenied));
    assert!(log.lock().unwrap().is_empty());
}

#[test]
fn resolve_names_the_owner_and_the_rest() {
    let log = new_log();
    let mut vfs = VirtualFs::new();
    assert_eq!(vfs.mount("x", fake(1, &log)), Ok(()));
    assert_eq!(vfs.mount("y/z", fake(2, &log)), Ok(()));
    match vfs.resolve("y/z//w/v/") {
        Ok(Resolution::Delegate { index, rest }) => {
            assert_eq!(index, 1);
            assert_eq!(rest, "w/v");
        }
        other => panic!("unexpected {:?}", other),
    }
    assert!(matches!(vfs.resolve("y"), Ok(Resolution::Boundary)));
    assert!(matches!(vfs.resolve("q"), Ok(Resolution::Unmounted)));
    assert!(matches!(vfs.resolve("/x"), Err(FsError::InvalidInput)));
}

#[test]
fn tables_nest() {
    let log = new_log();
    let mut inner = VirtualFs::new();
    assert_eq!(inner.mount("deep", fake(5, &log)), Ok(()));
    let mut outer = VirtualFs::new();
    assert_eq!(outer.mount("top", inner), Ok(()));
    assert_eq!(outer.metadata("top"), Ok(Metadata::virtual_dir()));
    assert_eq!(outer.metadata("top/deep/f"), Ok(file_meta(5)));
    assert_eq!(log.lock().unwrap().as_slice(), &["5:metadata:f".to_string()]);
}

#[test]
fn mount_error_descriptions() {
    assert_eq!(MountError::InvalidPath.description(), "Mount error: Invalid path");
    assert_eq!(MountError::LocationOverlap.description(), "Mount error: Location overlap");
}
