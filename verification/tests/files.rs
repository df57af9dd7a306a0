//! Paths, mounts and copying.

use mayos::fs::copy::{copy_job, Ask, Reply};
use mayos::fs::entry::{sort_entries, DirEntry, FsError};
use mayos::fs::info::{backend, mounts, root_is_persistent, Disk, FsStats, Volume};
use mayos::fs::path::{
    extension, file_name, format_size, format_time, join, normalize, parent, unique_name, Timestamp,
};
use mayos::fs::vfs::{
    after_copy, create_dir, discard, generation, is_dir, is_mount_point, is_mounted, is_present, mount, mount_volume,
    read_dir, read_file, remove,
    remove_all, rename, stat, take_mount, write_file, Discard, Lookup, Renaming, Vfs,
};

fn entry(name: &str, is_dir: bool) -> DirEntry {
    let mut e = DirEntry::virtual_dir(name);
    e.is_dir = is_dir;
    e
}

#[test]
fn paths_are_normalized() {
    assert_eq!(normalize("/home", "a/./b"), "/home/a/b");
    assert_eq!(normalize("/home", "/etc//x/"), "/etc/x");
    assert_eq!(normalize("/home/me", "../you"), "/home/you");
    assert_eq!(normalize("/", "../../.."), "/");
    assert_eq!(normalize("/a", ""), "/a");
}

#[test]
fn normalizing_twice_changes_nothing() {
    for p in ["a/../b", "/x//y/.", "..", "a b/c"] {
        let once = normalize("/w", p);
        assert_eq!(normalize("/w", &once), once);
        assert_eq!(normalize("/other", &once), once);
    }
}

#[test]
fn a_path_is_its_folder_and_its_name() {
    for p in ["/a/b", "/a", "/docs/notes.txt"] {
        assert_eq!(join(&parent(p), file_name(p)), p);
    }
    assert_eq!(parent("/"), "/");
    assert_eq!(join("/", "x"), "/x");
    assert_eq!(join("/a", "x"), "/a/x");
    assert_eq!(file_name("/a/b///"), "b");
}

#[test]
fn extensions_are_lower_case() {
    assert_eq!(extension("Photo.JPG").as_deref(), Some("jpg"));
    assert_eq!(extension("a.tar.gz").as_deref(), Some("gz"));
    assert_eq!(extension(".profile"), None);
    assert_eq!(extension("README"), None);
}

#[test]
fn free_names_are_numbered() {
    let taken = ["/d/note.txt", "/d/note 2.txt"];
    let name = unique_name(|p: &str| taken.contains(&p), "/d", "note.txt");
    assert_eq!(name, "note 3.txt");
    assert_eq!(unique_name(|_: &str| false, "/d", "note.txt"), "note.txt");
    assert_eq!(unique_name(|p: &str| p == "/d/folder", "/d", "folder"), "folder 2");
}

#[test]
fn sizes_in_words() {
    assert_eq!(format_size(0), "0 B");
    assert_eq!(format_size(1), "1 B");
    assert_eq!(format_size(1023), "1023 B");
    assert_eq!(format_size(1536), "1.5 KB");
}

#[test]
fn times_in_words() {
    let t = Timestamp { year: 2024, month: 3, day: 9, hour: 7, minute: 5, second: 59 };
    assert_eq!(format_time(&t), "2024-03-09 07:05");
}

#[test]
fn folders_come_first_and_case_does_not_matter() {
    let v = sort_entries(vec![entry("b.txt", false), entry("Zoo", true), entry("A.txt", false), entry("apple", true)]);
    let names: Vec<&str> = v.iter().map(|e| e.name.as_str()).collect();
    assert_eq!(names, ["apple", "Zoo", "A.txt", "b.txt"]);
}

#[test]
fn entries_can_be_hidden() {
    let mut e = entry("git", true);
    assert!(!e.is_hidden());
    e.hidden = true;
    assert!(e.is_hidden());
}

#[test]
fn volumes_serve_what_is_below_them() {
    let mut t: Vfs<u8> = Vfs::new();
    assert!(!is_mounted(&t));
    assert!(matches!(stat(&t, "/x"), Lookup::Failed(_)));
    assert!(mount(&mut t, Ok(1)).is_ok());
    mount_volume(&mut t, "/usb", 2);
    assert!(is_mounted(&t));
    let p = t.route("/usb/a/b").unwrap();
    assert_eq!((t.mounts[p.index].vol, p.inner.as_str()), (2, "/a/b"));
    let p = t.route("/usbstick").unwrap();
    assert_eq!((t.mounts[p.index].vol, p.inner.as_str()), (1, "/usbstick"));
    let p = t.route("/usb").unwrap();
    assert_eq!(p.inner, "/");
    assert!(is_mount_point(&t, "/usb/"));
    assert!(!is_mount_point(&t, "/usb/a"));
}

#[test]
fn a_volume_that_cannot_be_opened_is_not_mounted() {
    let mut t: Vfs<u8> = Vfs::new();
    assert_eq!(mount(&mut t, Err(FsError::Io)), Err(FsError::Io));
    assert!(!is_mounted(&t));
    assert_eq!(generation(&t), 0);
}

#[test]
fn a_mount_can_be_taken_back() {
    let mut t: Vfs<u8> = Vfs::new();
    mount_volume(&mut t, "/", 1);
    mount_volume(&mut t, "/usb", 2);
    mount_volume(&mut t, "/usb", 3);
    let g = generation(&t);
    assert_eq!(take_mount(&mut t, "/usb"), Some(3));
    assert_eq!(take_mount(&mut t, "/usb"), None);
    assert_eq!(generation(&t), g + 1);
}

#[test]
fn mount_points_are_folders_of_their_parents() {
    let mut t: Vfs<u8> = Vfs::new();
    mount_volume(&mut t, "/", 1);
    mount_volume(&mut t, "/usb", 2);
    let v = read_dir(&t, "/", vec![entry("docs", true), entry("a.txt", false)]);
    let names: Vec<&str> = v.iter().map(|e| e.name.as_str()).collect();
    assert_eq!(names, ["docs", "usb", "a.txt"]);
    assert!(matches!(stat(&t, "/usb"), Lookup::Virtual(e) if e.is_dir && e.name == "usb"));
    assert!(matches!(stat(&t, "/docs"), Lookup::On(_)));
}

#[test]
fn what_changes_files_counts() {
    let mut t: Vfs<u8> = Vfs::new();
    mount_volume(&mut t, "/", 1);
    mount_volume(&mut t, "/usb", 2);
    let g = generation(&t);
    assert!(read_file(&t, "/a").is_ok());
    assert_eq!(generation(&t), g);
    assert!(write_file(&mut t, "/a").is_ok());
    assert_eq!(generation(&t), g + 1);
    assert!(create_dir(&mut t, "/b").is_ok());
    assert!(remove(&mut t, "/b").is_ok());
    assert!(remove_all(&mut t, "/c").is_ok());
    assert_eq!(generation(&t), g + 4);
}

#[test]
fn mount_points_are_not_removed() {
    let mut t: Vfs<u8> = Vfs::new();
    mount_volume(&mut t, "/", 1);
    mount_volume(&mut t, "/usb", 2);
    assert!(remove(&mut t, "/usb").is_err());
    assert!(remove_all(&mut t, "/usb").is_err());
    assert!(matches!(rename(&mut t, "/usb", "/x"), Renaming::Failed(_)));
}

#[test]
fn renaming_stays_on_a_volume_or_copies() {
    let mut t: Vfs<u8> = Vfs::new();
    mount_volume(&mut t, "/", 1);
    mount_volume(&mut t, "/usb", 2);
    assert!(matches!(rename(&mut t, "/a", "/usb/a"), Renaming::AcrossDisks));
    match rename(&mut t, "/usb/a", "/usb/b") {
        Renaming::Within { index, from, to } => {
            assert_eq!(t.mounts[index].vol, 2);
            assert_eq!((from.as_str(), to.as_str()), ("/a", "/b"));
        }
        _ => panic!("not within"),
    }
}

#[test]
fn found_entries_are_present() {
    assert!(is_present(&Ok(entry("a", false))));
    assert!(!is_present(&Err(FsError::NotFound)));
    assert!(is_dir(&Ok(entry("a", true))));
    assert!(!is_dir(&Ok(entry("a", false))));
    assert!(!is_dir(&Err(FsError::Io)));
}

#[test]
fn a_file_is_copied_if_nothing_is_in_the_way() {
    let mut t: Vfs<u8> = Vfs::new();
    mount_volume(&mut t, "/", 1);
    let mut job = copy_job("/a.txt", "/b.txt");
    assert!(matches!(job.ask(), Ask::Stat(p) if p == "/a.txt"));
    job.answer(&t, Reply::Found(Ok(false)));
    loop {
        match job.ask() {
            Ask::IsPresent(p) => {
                assert_eq!(p, "/b.txt");
                job.answer(&t, Reply::Present(false));
            }
            Ask::CopyFile { from, to } => {
                assert_eq!((from.as_str(), to.as_str()), ("/a.txt", "/b.txt"));
                job.answer(&t, Reply::Done(Ok(())));
            }
            Ask::Finished(r) => {
                assert_eq!(r, Ok(()));
                break;
            }
            _ => panic!("unexpected"),
        }
    }
}

#[test]
fn a_copy_of_what_is_not_there_fails() {
    let t: Vfs<u8> = Vfs::new();
    let mut job = copy_job("/a", "/b");
    job.answer(&t, Reply::Found(Err(FsError::NotFound)));
    assert!(matches!(job.ask(), Ask::Finished(Err(FsError::NotFound))));
}

fn volume(disk: Disk) -> Volume {
    Volume { disk, label: vec!['L'], stats: FsStats { total_bytes: 10, free_bytes: 5, cluster_size: 1 } }
}

#[test]
fn mounts_are_described() {
    let mut t: Vfs<Volume> = Vfs::new();
    assert_eq!(backend(&t), "none");
    mount_volume(&mut t, "/usb", volume(Disk::Ahci(8)));
    assert_eq!(backend(&t), "none");
    assert!(!root_is_persistent(&t));
    mount(&mut t, Ok(volume(Disk::Ram(4)))).unwrap();
    assert!(!root_is_persistent(&t));
    assert_eq!(backend(&t), "RAM disk (changes are lost at power off)");
    let all = mounts(&t);
    assert_eq!(all.iter().map(|m| m.point.as_str()).collect::<Vec<&str>>(), ["/", "/usb"]);
    assert_eq!((all[0].label.as_str(), all[0].persistent, all[1].persistent), ("L", false, true));
    assert_eq!(all[0].backend, backend(&t));
    assert!(Disk::Ide(1).persistent());
    assert!(!Disk::Ram(1).persistent());
    assert_eq!(Disk::Virtio(9).sectors(), 9);
}

#[test]
fn the_backend_is_that_of_the_root_whatever_else_is_mounted() {
    let mut t: Vfs<Volume> = Vfs::new();
    mount(&mut t, Ok(volume(Disk::Virtio(4)))).unwrap();
    let before = backend(&t);
    for point in ["/a", "/b"] {
        mount_volume(&mut t, point, volume(Disk::Ram(1)));
        assert_eq!(backend(&t), before);
    }
    assert!(root_is_persistent(&t));
}

#[test]
fn the_source_goes_once_it_was_copied() {
    let mut t: Vfs<u8> = Vfs::new();
    mount(&mut t, Ok(1)).unwrap();
    mount_volume(&mut t, "/usb", 2);
    assert!(matches!(after_copy(&mut t, "/usb/a", Err(FsError::NoSpace), true), Discard::Failed(FsError::NoSpace)));
    match after_copy(&mut t, "/usb/a", Ok(()), true) {
        Discard::RemoveAll(p) => assert_eq!(p.inner, "/a"),
        _ => panic!(),
    }
    match after_copy(&mut t, "/usb/a", Ok(()), false) {
        Discard::Remove(p) => assert_eq!(p.inner, "/a"),
        _ => panic!(),
    }
    assert!(matches!(after_copy(&mut t, "/usb", Ok(()), true), Discard::Failed(FsError::InvalidPath)));
}

#[test]
fn a_folder_goes_with_all_that_it_holds() {
    let mut t: Vfs<u8> = Vfs::new();
    mount(&mut t, Ok(1)).unwrap();
    assert!(matches!(discard(&mut t, "/a", true), Discard::RemoveAll(p) if p.inner == "/a"));
    assert!(matches!(discard(&mut t, "/a", false), Discard::Remove(p) if p.inner == "/a"));
    assert!(matches!(discard(&mut t, "/", true), Discard::Failed(FsError::InvalidPath)));
}

#[test]
fn names_are_tried_until_one_is_free() {
    let taken = |p: &str| match p.strip_prefix("/d/n ") {
        Some(k) => k.parse::<u32>().map_or(false, |k| k <= 20_000),
        None => p == "/d/n",
    };
    assert_eq!(unique_name(taken, "/d", "n"), "n 20001");
}
