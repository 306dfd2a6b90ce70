//! A searchable name index of the files on mounted volumes.
//!
//! The index maps, volume by volume, the base name of a file or directory to
//! the entries found under that name. It is filled from the items of a directory
//! walk, kept in memory in a `CacheStore`, and written to and read from a
//! snapshot in JSON. `VolumeIndexingService` decides whether the cache is loaded
//! from a snapshot or built afresh. The library does no I/O: the caller walks
//! the disks, reads and writes the snapshot file, and holds the lock.

pub mod cache_store;
pub mod disks;
pub mod entry;
pub mod indexer;
pub mod json;
pub mod listing;
pub mod name_index;
pub mod service;
pub mod snapshot;
pub mod snapshot_laws;
pub mod walk_laws;

pub use cache_store::CacheStore;
pub use disks::{bytes_to_gb, get_disks, Disk, DiskFileSystem, VolumeInfo, WellKnownFolders};
pub use entry::{classify, CacheError, CachedEntry, EntryView, FileKind};
pub use indexer::{cache_disk, index_walk, record, WalkItem};
pub use json::{Json, JsonView};
pub use listing::{open_directory, DirectoryChild, ListedChild};
pub use name_index::NameIndex;
pub use service::{ServiceAction, ServiceEvent, ServicePhase, VolumeIndexingService};
pub use snapshot::{
    decode_snapshot, install_snapshot, load_cache, save_cache_to_disk, snapshot_document,
    snapshot_text,
};
