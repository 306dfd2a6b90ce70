use disk_cache::{
    bytes_to_gb, get_disks, open_directory, CacheError, Disk, DirectoryChild, DiskFileSystem,
    ListedChild, VolumeInfo, WellKnownFolders,
};

fn folders() -> WellKnownFolders {
    WellKnownFolders {
        documents: Some("/home/u/Documents".to_string()),
        downloads: Some("/home/u/Downloads".to_string()),
        pictures: Some("/home/u/Pictures".to_string()),
        videos: Some("/home/u/Videos".to_string()),
        home: Some("/home/u".to_string()),
        audio: Some("/home/u/Music".to_string()),
        desktop: Some("/home/u/Desktop".to_string()),
    }
}

fn volume(name: &str, available: u64, total: u64) -> VolumeInfo {
    VolumeInfo {
        name: name.to_string(),
        mount_point: "/".to_string(),
        available_bytes: available,
        total_bytes: total,
    }
}

#[test]
fn gigabytes_are_whole_and_capped() {
    assert_eq!(bytes_to_gb(0), 0);
    assert_eq!(bytes_to_gb(999_999_999), 0);
    assert_eq!(bytes_to_gb(1_000_000_000), 1);
    assert_eq!(bytes_to_gb(512_110_190_592), 512);
    assert_eq!(bytes_to_gb(65_535_999_999_999), 65535);
    assert_eq!(bytes_to_gb(65_536_000_000_000), 65535);
    assert_eq!(bytes_to_gb(u64::MAX), 65535);
}

#[test]
fn filesystem_takes_all_folders_or_fails() {
    let fs = DiskFileSystem::try_new("/", &folders()).unwrap();
    assert_eq!(fs.root, "/");
    assert_eq!(fs.documents, "/home/u/Documents");
    assert_eq!(fs.downloads, "/home/u/Downloads");
    assert_eq!(fs.pictures, "/home/u/Pictures");
    assert_eq!(fs.videos, "/home/u/Videos");
    assert_eq!(fs.home, "/home/u");
    assert_eq!(fs.audio, "/home/u/Music");
    assert_eq!(fs.desktop, "/home/u/Desktop");

    for missing in 0..7 {
        let mut some = folders();
        match missing {
            0 => some.documents = None,
            1 => some.downloads = None,
            2 => some.pictures = None,
            3 => some.videos = None,
            4 => some.home = None,
            5 => some.audio = None,
            _ => some.desktop = None,
        }
        assert!(matches!(DiskFileSystem::try_new("/", &some), Err(CacheError::IoFailure)));
    }
}

#[test]
fn disk_lists_capacity_and_name() {
    let fs = DiskFileSystem::try_new("C:", &folders()).unwrap();
    let disk = Disk::new(&volume("Data", 200_500_000_000, 500_000_000_000), fs);
    assert_eq!(disk.name, "Data");
    assert_eq!(disk.available_gb, 200);
    assert_eq!(disk.used_gb, 299);
    assert_eq!(disk.total_gb, 500);
    assert_eq!(disk.fs.root, "C:");
}

#[test]
fn disk_without_name_is_a_local_disk() {
    let fs = DiskFileSystem::try_new("/", &folders()).unwrap();
    let disk = Disk::new(&volume("", 5, 3), fs);
    assert_eq!(disk.name, "Local Disk");
    assert_eq!(disk.used_gb, 0);
}

#[test]
fn disks_are_listed_in_the_order_of_the_volumes() {
    let volumes = vec![
        volume("", 1_000_000_000, 3_000_000_000),
        volume("usb", 0, 16_000_000_000),
    ];
    let disks = get_disks(&volumes, "/", &folders()).unwrap();
    assert_eq!(disks.len(), 2);
    assert_eq!(disks[0].name, "Local Disk");
    assert_eq!((disks[0].available_gb, disks[0].used_gb, disks[0].total_gb), (1, 2, 3));
    assert_eq!(disks[1].name, "usb");
    assert_eq!((disks[1].available_gb, disks[1].used_gb, disks[1].total_gb), (0, 16, 16));
    assert_eq!(disks[1].fs.home, "/home/u");
    assert_eq!(disks[1].fs.root, "/");
}

#[test]
fn unresolved_folder_fails_the_listing_of_a_disk() {
    let mut some = folders();
    some.videos = None;
    let volumes = vec![volume("a", 1, 2)];
    assert!(matches!(get_disks(&volumes, "/", &some), Err(CacheError::IoFailure)));
    assert_eq!(get_disks(&Vec::new(), "/", &some).unwrap().len(), 0);
}

#[test]
fn directory_that_cannot_be_opened_lists_nothing() {
    assert_eq!(open_directory(None), Vec::<DirectoryChild>::new());
    assert_eq!(open_directory(Some(Vec::new())), Vec::<DirectoryChild>::new());
}

#[test]
fn children_are_files_or_directories() {
    let read = vec![
        ListedChild {
            file_name: "a.txt".to_string(),
            file_path: "/d/a.txt".to_string(),
            is_file: true,
        },
        ListedChild { file_name: "sub".to_string(), file_path: "/d/sub".to_string(), is_file: false },
    ];
    assert_eq!(
        open_directory(Some(read)),
        vec![
            DirectoryChild::File("a.txt".to_string(), "/d/a.txt".to_string()),
            DirectoryChild::Directory("sub".to_string(), "/d/sub".to_string()),
        ]
    );
    let child = DirectoryChild::File("a".to_string(), "/a".to_string());
    assert_eq!(child.clone(), child);
    assert_ne!(child, DirectoryChild::Directory("a".to_string(), "/a".to_string()));
    assert_ne!(child, DirectoryChild::File("a".to_string(), "/b".to_string()));
}
