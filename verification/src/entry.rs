use vstd::prelude::*;

verus! {

/// Whether an indexed filesystem object is a container or a leaf.
#[derive(Clone, Copy, Debug, PartialEq, Eq, Structural)]
pub enum FileKind {
    File,
    Directory,
}

/// Classifies a visited object: a container is a directory, anything else a file.
pub fn classify(is_dir: bool) -> (kind: FileKind)
    ensures
        kind == (if is_dir { FileKind::Directory } else { FileKind::File }),
{
    if is_dir {
        FileKind::Directory
    } else {
        FileKind::File
    }
}

/// The ways an operation on the cache can fail.
#[derive(Clone, Copy, Debug, PartialEq, Eq, Structural)]
pub enum CacheError {
    /// The snapshot file could not be read or written, or a well-known folder is unresolved.
    IoFailure,
    /// The snapshot text is not a well-formed snapshot.
    CorruptSnapshot,
    /// The index could not be encoded.
    SerializationFailure,
    /// Some objects of a walk were unreadable and left out. Informational.
    VolumeWalkPartial,
}

/// One filesystem object found by a walk.
#[derive(Debug)]
pub struct CachedEntry {
    pub file_path: String,
    pub file_type: FileKind,
}

/// The mathematical value of a `CachedEntry`.
pub struct EntryView {
    pub file_path: Seq<char>,
    pub file_type: FileKind,
}

impl View for CachedEntry {
    type V = EntryView;

    open spec fn view(&self) -> EntryView {
        EntryView { file_path: self.file_path@, file_type: self.file_type }
    }
}

impl Clone for CachedEntry {
    fn clone(&self) -> (copy: Self)
        ensures
            copy == *self,
    {
        CachedEntry { file_path: self.file_path.clone(), file_type: self.file_type }
    }
}

impl PartialEq for CachedEntry {
    fn eq(&self, other: &Self) -> (same: bool) {
        self.file_path == other.file_path && self.file_type == other.file_type
    }
}

impl Eq for CachedEntry {}

impl vstd::std_specs::cmp::PartialEqSpecImpl for CachedEntry {
    open spec fn obeys_eq_spec() -> bool {
        true
    }

    open spec fn eq_spec(&self, other: &Self) -> bool {
        self@ == other@
    }
}

impl CachedEntry {
    /// An entry for the object at `file_path`, a directory exactly if `is_dir`.
    pub fn new(file_path: String, is_dir: bool) -> (entry: Self)
        ensures
            entry.file_path == file_path,
            entry.file_type == (if is_dir { FileKind::Directory } else { FileKind::File }),
    {
        CachedEntry { file_path, file_type: classify(is_dir) }
    }
}

/// The views of a sequence of entries, in order.
pub open spec fn entry_views(entries: Seq<CachedEntry>) -> Seq<EntryView> {
    Seq::new(entries.len(), |i: int| entries[i]@)
}

} // verus!
