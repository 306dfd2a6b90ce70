use vstd::prelude::*;
use crate::entry::CacheError;

verus! {

/// The well-known folders of the platform, as far as they could be resolved.
#[derive(Debug)]
pub struct WellKnownFolders {
    pub documents: Option<String>,
    pub downloads: Option<String>,
    pub pictures: Option<String>,
    pub videos: Option<String>,
    pub home: Option<String>,
    pub audio: Option<String>,
    pub desktop: Option<String>,
}

/// The root of the filesystem and the well-known folders, all of them resolved.
#[derive(Debug)]
pub struct DiskFileSystem {
    pub root: String,
    pub documents: String,
    pub downloads: String,
    pub pictures: String,
    pub videos: String,
    pub home: String,
    pub audio: String,
    pub desktop: String,
}

/// What the volume enumerator reports of one mounted volume.
#[derive(Debug)]
pub struct VolumeInfo {
    pub name: String,
    pub mount_point: String,
    pub available_bytes: u64,
    pub total_bytes: u64,
}

/// One mounted disk as it is listed: its name, its capacity in whole gigabytes,
/// and the folders of the filesystem.
#[derive(Debug)]
pub struct Disk {
    pub name: String,
    pub available_gb: u16,
    pub used_gb: u16,
    pub total_gb: u16,
    pub fs: DiskFileSystem,
}

/// The bytes of one gigabyte.
pub const BYTES_PER_GB: u64 = 1_000_000_000;

/// Whether every well-known folder is resolved.
pub open spec fn all_resolved(folders: WellKnownFolders) -> bool {
    &&& folders.documents is Some
    &&& folders.downloads is Some
    &&& folders.pictures is Some
    &&& folders.videos is Some
    &&& folders.home is Some
    &&& folders.audio is Some
    &&& folders.desktop is Some
}

/// Whether `fs` holds the root `root` and the folders of `folders`.
pub open spec fn holds_folders(fs: DiskFileSystem, root: Seq<char>, folders: WellKnownFolders)
    -> bool {
    &&& all_resolved(folders)
    &&& fs.root@ == root
    &&& fs.documents@ == folders.documents->Some_0@
    &&& fs.downloads@ == folders.downloads->Some_0@
    &&& fs.pictures@ == folders.pictures->Some_0@
    &&& fs.videos@ == folders.videos->Some_0@
    &&& fs.home@ == folders.home->Some_0@
    &&& fs.audio@ == folders.audio->Some_0@
    &&& fs.desktop@ == folders.desktop->Some_0@
}

/// The whole gigabytes in a number of bytes, as far as sixteen bits hold them.
pub open spec fn gigabytes(bytes: u64) -> u16 {
    if bytes / BYTES_PER_GB > u16::MAX {
        u16::MAX
    } else {
        (bytes / BYTES_PER_GB) as u16
    }
}

/// The bytes in use on a volume: what is not available of the total, and nothing
/// where more is reported available than there is.
pub open spec fn used_bytes(available_bytes: u64, total_bytes: u64) -> u64 {
    if available_bytes <= total_bytes {
        (total_bytes - available_bytes) as u64
    } else {
        0
    }
}

/// The name under which a volume is listed: its own, or `Local Disk` where it
/// has none.
pub open spec fn listed_name(name: Seq<char>) -> Seq<char> {
    if name.len() == 0 {
        "Local Disk"@
    } else {
        name
    }
}

/// Whether `disk` is the listing of `volume`, with the root `root` and the
/// folders of `folders`.
pub open spec fn lists_volume(
    disk: Disk,
    volume: VolumeInfo,
    root: Seq<char>,
    folders: WellKnownFolders,
) -> bool {
    &&& disk.name@ == listed_name(volume.name@)
    &&& disk.available_gb == gigabytes(volume.available_bytes)
    &&& disk.used_gb == gigabytes(used_bytes(volume.available_bytes, volume.total_bytes))
    &&& disk.total_gb == gigabytes(volume.total_bytes)
    &&& holds_folders(disk.fs, root, folders)
}

/// The whole gigabytes in a number of bytes, as far as sixteen bits hold them.
pub fn bytes_to_gb(bytes: u64) -> (gb: u16)
    ensures
        gb == gigabytes(bytes),
{
    let whole = bytes / BYTES_PER_GB;
    if whole > 65535 {
        u16::MAX
    } else {
        whole as u16
    }
}

impl DiskFileSystem {
    /// The filesystem's folders, where all of them are resolved. An unresolved
    /// folder is an I/O failure.
    pub fn try_new(root: &str, folders: &WellKnownFolders) -> (made: Result<Self, CacheError>)
        ensures
            match made {
                Ok(fs) => holds_folders(fs, root@, *folders),
                Err(error) => error == CacheError::IoFailure && !all_resolved(*folders),
            },
    {
        let documents = match &folders.documents {
            Some(dir) => dir.clone(),
            None => {
                return Err(CacheError::IoFailure);
            },
        };
        let downloads = match &folders.downloads {
            Some(dir) => dir.clone(),
            None => {
                return Err(CacheError::IoFailure);
            },
        };
        let pictures = match &folders.pictures {
            Some(dir) => dir.clone(),
            None => {
                return Err(CacheError::IoFailure);
            },
        };
        let videos = match &folders.videos {
            Some(dir) => dir.clone(),
            None => {
                return Err(CacheError::IoFailure);
            },
        };
        let home = match &folders.home {
            Some(dir) => dir.clone(),
            None => {
                return Err(CacheError::IoFailure);
            },
        };
        let audio = match &folders.audio {
            Some(dir) => dir.clone(),
            None => {
                return Err(CacheError::IoFailure);
            },
        };
        let desktop = match &folders.desktop {
            Some(dir) => dir.clone(),
            None => {
                return Err(CacheError::IoFailure);
            },
        };
        Ok(
            DiskFileSystem {
                root: root.to_owned(),
                documents,
                downloads,
                pictures,
                videos,
                home,
                audio,
                desktop,
            },
        )
    }
}

impl Disk {
    /// The listing of one volume.
    pub fn new(volume: &VolumeInfo, fs: DiskFileSystem) -> (disk: Self)
        ensures
            disk.name@ == listed_name(volume.name@),
            disk.available_gb == gigabytes(volume.available_bytes),
            disk.used_gb == gigabytes(used_bytes(volume.available_bytes, volume.total_bytes)),
            disk.total_gb == gigabytes(volume.total_bytes),
            disk.fs == fs,
    {
        let used = if volume.available_bytes <= volume.total_bytes {
            volume.total_bytes - volume.available_bytes
        } else {
            0
        };
        let name = if volume.name.as_str().is_empty() {
            "Local Disk".to_owned()
        } else {
            volume.name.clone()
        };
        Disk {
            name,
            available_gb: bytes_to_gb(volume.available_bytes),
            used_gb: bytes_to_gb(used),
            total_gb: bytes_to_gb(volume.total_bytes),
            fs,
        }
    }
}

/// The list of the mounted disks, in the order of the volumes. The folders are
/// resolved for each disk: with a disk to list, an unresolved folder is an I/O
/// failure.
pub fn get_disks(volumes: &Vec<VolumeInfo>, root: &str, folders: &WellKnownFolders) -> (listed:
    Result<Vec<Disk>, CacheError>)
    ensures
        match listed {
            Ok(disks) => {
                &&& volumes.len() == 0 || all_resolved(*folders)
                &&& disks.len() == volumes.len()
                &&& forall|i: int|
                    0 <= i < volumes.len() ==> lists_volume(
                        #[trigger] disks[i],
                        volumes[i],
                        root@,
                        *folders,
                    )
            },
            Err(error) => error == CacheError::IoFailure && volumes.len() > 0 && !all_resolved(
                *folders,
            ),
        },
{
    let mut disks: Vec<Disk> = Vec::new();
    let mut i: usize = 0;
    while i < volumes.len()
        invariant
            i <= volumes.len(),
            disks.len() == i,
            i > 0 ==> all_resolved(*folders),
            forall|k: int|
                0 <= k < i ==> lists_volume(#[trigger] disks[k], volumes[k], root@, *folders),
        decreases volumes.len() - i,
    {
        let fs = match DiskFileSystem::try_new(root, folders) {
            Ok(fs) => fs,
            Err(error) => {
                return Err(error);
            },
        };
        disks.push(Disk::new(&volumes[i], fs));
        i += 1;
    }
    Ok(disks)
}

} // verus!
