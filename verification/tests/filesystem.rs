//! What each filesystem request does.

use bsdroid::mtpfs::args::{call, mount_arguments, Call};
use bsdroid::mtpfs::cache::{Cache, CacheStep, READ_AHEAD};
use bsdroid::mtpfs::error::Error;
use bsdroid::mtpfs::fs::{
    copied, libc_eio, libc_eisdir, libc_enoent, libc_enotdir, libc_erofs, opened, Attr, AttrStep,
    FolderStep, Fs, ReadStep, WalkStep, BLOCK_SIZE, MAX_WALK, MODE_DIR, MODE_FILE,
};
use bsdroid::mtpfs::path::{shown_name, split_parent, split_path};
use bsdroid::mtpfs::tree::{Entry, ROOT};

fn dir(handle: u32, parent: u32, name: &str) -> Entry {
    Entry { handle, parent, name: name.to_string(), is_dir: true, size: 0 }
}

fn file(handle: u32, parent: u32, name: &str, size: u64) -> Entry {
    Entry { handle, parent, name: name.to_string(), is_dir: false, size }
}

/// What a device holds in a folder.
fn listing(folder: u32) -> Result<Vec<Entry>, Error> {
    match folder {
        ROOT => Ok(vec![dir(1, ROOT, "DCIM"), dir(2, ROOT, "Music")]),
        1 => Ok(vec![file(4, 1, "a.jpg", 1000), file(5, 1, "b/c", 512)]),
        _ => Err(Error::Device { step: "GetObjectHandles", code: 0x2009 }),
    }
}

/// Resolves a path, and gives the folders that were listed on the way.
fn resolve(fs: &mut Fs, path: &str) -> (Option<u32>, Vec<u32>) {
    let mut read = Vec::new();
    let mut step = fs.resolve(path);
    loop {
        match step {
            WalkStep::Found(h) => return (Some(h), read),
            WalkStep::Missing => return (None, read),
            WalkStep::List(walk, folder) => {
                read.push(folder);
                step = walk.listed(fs, listing(folder));
            }
        }
    }
}

#[test]
fn a_walk_reads_each_folder_once() {
    let mut fs = Fs::new();
    assert_eq!(resolve(&mut fs, "/DCIM/a.jpg"), (Some(4), vec![ROOT, 1]));
    assert_eq!(resolve(&mut fs, "/DCIM/a.jpg"), (Some(4), vec![]));
    assert_eq!(resolve(&mut fs, "/DCIM/none"), (None, vec![]));
    assert_eq!(resolve(&mut fs, "/"), (Some(ROOT), vec![]));
}

#[test]
fn a_folder_that_cannot_be_listed_ends_a_walk() {
    let mut fs = Fs::new();
    assert_eq!(resolve(&mut fs, "/Music/x"), (None, vec![ROOT, 2]));
}

#[test]
fn a_path_without_end_does_not_hold_the_host() {
    let mut fs = Fs::new();
    let path = "/a".repeat(100);
    let mut step = fs.resolve(&path);
    let mut rounds = 0u32;
    while let WalkStep::List(walk, folder) = step {
        rounds += 1;
        // Each folder holds one more folder.
        step = walk.listed(&mut fs, Ok(vec![dir(rounds, folder, "a")]));
    }
    assert!(matches!(step, WalkStep::Missing));
    assert_eq!(rounds as usize, MAX_WALK);
}

#[test]
fn attributes_follow_the_kind_of_an_object() {
    let mut fs = Fs::new();
    let (h, _) = resolve(&mut fs, "/DCIM/a.jpg");
    let folder = Attr { mode: MODE_DIR, links: 2, size: 0, blocks: 0, block_size: BLOCK_SIZE };
    assert_eq!(fs.getattr(Some(ROOT)), Ok(folder));
    assert_eq!(fs.getattr(Some(1)), Ok(folder));
    let a = Attr { mode: MODE_FILE, links: 1, size: 1000, blocks: 2, block_size: BLOCK_SIZE };
    assert_eq!(fs.getattr(h), Ok(a));
    let b = Attr { mode: MODE_FILE, links: 1, size: 512, blocks: 1, block_size: BLOCK_SIZE };
    assert_eq!(fs.getattr(Some(5)), Ok(b));
    assert_eq!(fs.getattr(Some(99)), Err(-libc_enoent()));
    assert_eq!(fs.getattr(None), Err(-2));
    assert_eq!((MODE_DIR, MODE_FILE), (0o040_755, 0o100_644));
}

/// Gives the attributes of a path, and the folders that were listed on the way.
fn attr(fs: &mut Fs, path: &str) -> (Result<Attr, i32>, Vec<u32>) {
    let mut read = Vec::new();
    let mut step = fs.attr(path);
    loop {
        match step {
            AttrStep::Over(r) => return (r, read),
            AttrStep::List(walk, folder) => {
                read.push(folder);
                step = walk.listed_for_attr(fs, listing(folder));
            }
        }
    }
}

#[test]
fn a_file_being_written_comes_before_the_device() {
    let mut fs = Fs::new();
    let path = "/DCIM/a.jpg";
    assert_eq!(fs.create(path, Some(1)), 0);
    assert_eq!(fs.write(path, b"hello", 0), Ok(5));
    let (new, read) = attr(&mut fs, path);
    assert_eq!((new.unwrap().size, read), (5, vec![]), "the device is not asked");

    fs.release(path).unwrap();
    let (old, read) = attr(&mut fs, path);
    assert_eq!((old.unwrap().size, read), (1000, vec![ROOT, 1]));
    assert_eq!(attr(&mut fs, "/").0.unwrap().mode, MODE_DIR);
    assert_eq!(attr(&mut fs, "/DCIM/none"), (Err(-2), vec![]));
    assert_eq!(attr(&mut fs, "/Music/x"), (Err(-2), vec![2]));
}

#[test]
fn a_folder_shows_its_names() {
    let mut fs = Fs::new();
    let (h, _) = resolve(&mut fs, "/DCIM");
    let FolderStep::List(folder) = fs.readdir(h) else {
        panic!("the folder is not read yet")
    };
    assert_eq!(folder, 1);
    let FolderStep::Names(names) = fs.readdir_listed(folder, listing(folder)) else {
        panic!("the folder is read")
    };
    assert_eq!(names, vec![".", "..", "a.jpg", "b_c"]);
    let FolderStep::Names(again) = fs.readdir(h) else {
        panic!("the folder is read")
    };
    assert_eq!(again, names);
    let FolderStep::Failed(code) = fs.readdir_listed(2, listing(2)) else {
        panic!("the device refuses")
    };
    assert_eq!(code, -libc_eio());
    assert!(matches!(fs.readdir(None), FolderStep::Failed(-2)));
}

#[test]
fn only_a_file_opens() {
    let mut fs = Fs::new();
    let (h, _) = resolve(&mut fs, "/DCIM/a.jpg");
    assert_eq!(fs.open(h), Ok(4));
    assert_eq!(fs.open(Some(1)), Err(-libc_eisdir()));
    assert_eq!(fs.open(Some(ROOT)), Err(-21));
    assert_eq!(fs.open(None), Err(-2));
    assert_eq!(opened(0), None);
    assert_eq!(opened(4), Some(4));
}

#[test]
fn a_read_stays_inside_the_file() {
    let mut fs = Fs::new();
    let (h, _) = resolve(&mut fs, "/DCIM/a.jpg");
    let read = |offset, want| ReadStep::Read { handle: 4, offset, want, file_size: 1000 };
    assert_eq!(fs.read(h, 400, 0), read(0, 400));
    assert_eq!(fs.read(h, 400, 900), read(900, 100));
    assert_eq!(fs.read(h, 400, 1000), ReadStep::End);
    assert_eq!(fs.read(h, 400, u64::MAX), ReadStep::End);
    assert_eq!(fs.read(Some(99), 1, 0), ReadStep::Failed(-2));
    assert_eq!(fs.read(None, 1, 0), ReadStep::Failed(-2));
    assert_eq!((copied(3, 5), copied(7, 5)), (3, 5));
}

#[test]
fn a_new_file_is_kept_until_it_is_closed() {
    let mut fs = Fs::new();
    let path = "/DCIM/new.txt";
    assert_eq!(fs.folder_for_new(path), Ok("/DCIM".to_string()));
    let (parent, _) = resolve(&mut fs, "/DCIM");
    assert_eq!(fs.create(path, parent), 0);
    assert_eq!(fs.pending_attr(path).unwrap().size, 0);
    assert_eq!(fs.write(path, b"hello ", 0), Ok(6));
    assert_eq!(fs.write(path, b"world", 6), Ok(5));
    let a = fs.pending_attr(path).unwrap();
    assert_eq!((a.size, a.blocks, a.mode, a.links), (11, 0, MODE_FILE, 1));
    assert_eq!(fs.pending_attr("/DCIM/other"), None);
    let p = fs.release(path).unwrap();
    assert_eq!((p.parent, p.name.as_str(), p.data.as_slice()), (1, "new.txt", &b"hello world"[..]));
    assert!(fs.release(path).is_none());
    assert_eq!(fs.pending_attr(path), None);
}

#[test]
fn a_write_behind_the_end_leaves_zeros() {
    let mut fs = Fs::new();
    fs.create("/x", Some(ROOT));
    assert_eq!(fs.write("/x", &[1, 2], 3), Ok(2));
    assert_eq!(fs.write("/x", &[9], 1), Ok(1));
    assert_eq!(fs.truncate("/x", 7), 0);
    assert_eq!(fs.release("/x").unwrap().data, vec![0, 9, 0, 1, 2, 0, 0]);
    fs.create("/x", Some(ROOT));
    fs.write("/x", &[1, 2, 3, 4], 0).unwrap();
    assert_eq!(fs.truncate("/x", 2), 0);
    assert_eq!(fs.release("/x").unwrap().data, vec![1, 2]);
}

#[test]
fn a_file_on_the_device_does_not_change() {
    let mut fs = Fs::new();
    assert_eq!(fs.write("/DCIM/a.jpg", &[1], 0), Err(-libc_erofs()));
    assert_eq!(fs.truncate("/DCIM/a.jpg", 0), -30);
}

#[test]
fn a_second_create_starts_the_file_again() {
    let mut fs = Fs::new();
    fs.create("/x", Some(ROOT));
    fs.create("/y", Some(ROOT));
    fs.write("/x", &[1], 0).unwrap();
    fs.write("/y", &[2], 0).unwrap();
    fs.create("/x", Some(7));
    assert_eq!(fs.release("/y").unwrap().data, vec![2]);
    let p = fs.release("/x").unwrap();
    assert_eq!((p.parent, p.data), (7, vec![]));
}

#[test]
fn a_new_object_needs_a_name_and_a_folder() {
    let mut fs = Fs::new();
    assert_eq!(fs.folder_for_new("/DCIM/"), Err(-5));
    assert_eq!(fs.create("/DCIM/", Some(1)), -5);
    assert_eq!(fs.create("/none/x", None), -2);
    assert!(fs.release("/none/x").is_none());
    assert_eq!(fs.mkdir("/DCIM/New", Some(1)), Ok((1, "New".to_string())));
    assert_eq!(fs.mkdir("/DCIM/", Some(1)), Err(-5));
    assert_eq!(fs.mkdir("/none/New", None), Err(-2));
}

#[test]
fn a_removal_checks_the_kind_first() {
    let mut fs = Fs::new();
    resolve(&mut fs, "/DCIM/a.jpg");
    assert_eq!(fs.remove(Some(4), false), Ok((4, 1)));
    assert_eq!(fs.remove(Some(1), true), Ok((1, ROOT)));
    assert_eq!(fs.remove(Some(4), true), Err(-libc_enotdir()));
    assert_eq!(fs.remove(Some(1), false), Err(-21));
    assert_eq!(fs.remove(Some(ROOT), true), Err(-5));
    assert_eq!(fs.remove(Some(99), false), Err(-2));
    assert_eq!(fs.remove(None, false), Err(-2));
    assert_eq!(libc_enotdir(), 20);
}

#[test]
fn a_changed_folder_is_read_again() {
    let mut fs = Fs::new();
    resolve(&mut fs, "/DCIM/a.jpg");
    assert_eq!(fs.changed(1, false), -5);
    assert_eq!(resolve(&mut fs, "/DCIM/a.jpg"), (Some(4), vec![]));
    assert_eq!(fs.changed(1, true), 0);
    assert_eq!(resolve(&mut fs, "/DCIM/a.jpg"), (Some(4), vec![1]));
}

#[test]
fn a_path_splits_into_its_parts() {
    assert_eq!(split_path("//a/./b//c/"), vec!["a", "b", "c"]);
    assert_eq!(split_path("/"), Vec::<String>::new());
    assert_eq!(split_parent("/a"), ("/".to_string(), "a".to_string()));
    assert_eq!(split_parent("/a/b/c"), ("/a/b".to_string(), "c".to_string()));
    assert_eq!(split_parent("a"), ("/".to_string(), "a".to_string()));
    assert_eq!(split_parent("/a/"), ("/a".to_string(), String::new()));
    assert_eq!(shown_name("a/b\0c\u{e9}"), "a_b_c\u{e9}");
}

fn words(w: &[&str]) -> Vec<String> {
    w.iter().map(|s| s.to_string()).collect()
}

#[test]
fn a_device_comes_first_and_a_folder_second() {
    assert_eq!(call(&[]), Call::Help);
    assert_eq!(call(&words(&["-h"])), Call::Help);
    assert_eq!(call(&words(&["--help", "x"])), Call::Help);
    assert_eq!(call(&words(&["-l"])), Call::List);
    assert_eq!(call(&words(&["--name"])), Call::Name { node: None });
    assert_eq!(call(&words(&["--name", "ugen0.11"])), Call::Name { node: Some((0, 11)) });
    assert_eq!(call(&words(&["ugen0.11", "--name"])), Call::Name { node: Some((0, 11)) });
    assert_eq!(call(&words(&["/dev/ugen0.11", "--name"])), Call::Name { node: Some((0, 11)) });
    assert_eq!(
        call(&words(&["/mnt", "-f"])),
        Call::Mount { node: None, rest: words(&["/mnt", "-f"]) }
    );
    assert_eq!(
        call(&words(&["ugen0.11", "/mnt"])),
        Call::Mount { node: Some((0, 11)), rest: words(&["/mnt"]) }
    );
    assert_eq!(
        call(&words(&["/dev/ugen0.11", "/mnt"])),
        Call::Mount { node: Some((0, 11)), rest: words(&["/mnt"]) }
    );
    assert_eq!(
        mount_arguments(&words(&["/mnt", "-d"])),
        words(&["mtpfs", "-s", "/mnt", "-d"])
    );
}

/// Reads through the cache, and gives the bytes and whether the device was asked.
fn read(cache: &mut Cache, file: &[u8], offset: usize, want: usize) -> (Vec<u8>, bool) {
    match cache.read(4, offset as u64, want, file.len() as u64) {
        CacheStep::Held(data) => (data, false),
        CacheStep::Fetch { front, offset, count } => {
            let at = offset as usize;
            let data = file[at..at + count as usize].to_vec();
            (cache.fetched(4, front, offset, want, data), true)
        }
    }
}

#[test]
fn a_read_that_crosses_the_end_of_the_cache_is_whole() {
    let file: Vec<u8> = (0..5_000_000u32).map(|i| (i / 7) as u8).collect();
    let mut cache = Cache::new();
    let ahead = READ_AHEAD as usize;
    assert_eq!(ahead, 4_194_304);
    assert_eq!(read(&mut cache, &file, 0, 131_072), (file[..131_072].to_vec(), true));
    assert_eq!(read(&mut cache, &file, 131_072, 9), (file[131_072..131_081].to_vec(), false));
    let from = ahead - 100;
    assert_eq!(read(&mut cache, &file, from, 300), (file[from..from + 300].to_vec(), true));
    assert_eq!(read(&mut cache, &file, ahead + 200, 50), (file[ahead + 200..ahead + 250].to_vec(), false));
    assert_eq!(read(&mut cache, &file, 0, 10), (file[..10].to_vec(), true));
}

#[test]
fn a_cache_holds_one_object() {
    let mut cache = Cache::new();
    assert_eq!(cache.fetched(4, vec![1], 10, 3, vec![2, 3, 4]), vec![1, 2, 3]);
    assert!(matches!(cache.read(4, 11, 2, 20), CacheStep::Held(d) if d == vec![3, 4]));
    match cache.read(5, 11, 2, 20) {
        CacheStep::Fetch { front, offset, count } => {
            assert_eq!((front, offset, count), (vec![], 11, 9));
        }
        other => panic!("a read is due, and {other:?} came"),
    }
    cache.forget(5);
    assert!(matches!(cache.read(4, 11, 2, 20), CacheStep::Held(_)));
    cache.forget(4);
    assert!(matches!(cache.read(4, 11, 2, 20), CacheStep::Fetch { .. }));
    // A device that gives fewer bytes than it was asked for makes a short read.
    assert_eq!(cache.fetched(4, vec![], 0, 5, vec![7]), vec![7]);
}
