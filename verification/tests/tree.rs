//! The map from a path to a handle.

use bsdroid::mtpfs::tree::{Entry, Lookup, Tree, ROOT};

fn dir(handle: u32, parent: u32, name: &str) -> Entry {
    Entry {
        handle,
        parent,
        name: name.to_string(),
        is_dir: true,
        size: 0,
    }
}

fn file(handle: u32, parent: u32, name: &str, size: u64) -> Entry {
    Entry {
        handle,
        parent,
        name: name.to_string(),
        is_dir: false,
        size,
    }
}

/// Builds the tree a Samsung gives, with two levels.
fn sample() -> Tree {
    let mut t = Tree::new();
    t.set_children(ROOT, vec![dir(1, ROOT, "DCIM"), dir(2, ROOT, "Music")]);
    t.set_children(1, vec![dir(3, 1, "Camera")]);
    t.set_children(3, vec![file(4, 3, "a.jpg", 1000)]);
    t
}

#[test]
fn an_empty_tree_needs_the_root_listing() {
    let t = Tree::new();
    assert_eq!(t.lookup("/"), Lookup::Found(ROOT), "the root needs no read");
    assert_eq!(t.lookup("/DCIM"), Lookup::NeedListing(ROOT));
}

#[test]
fn a_path_of_one_part_resolves_after_one_listing() {
    let mut t = Tree::new();
    t.set_children(ROOT, vec![dir(1, ROOT, "DCIM")]);
    assert_eq!(t.lookup("/DCIM"), Lookup::Found(1));
}

#[test]
fn a_deep_path_names_each_folder_the_caller_must_read() {
    let mut t = Tree::new();
    assert_eq!(t.lookup("/DCIM/Camera/a.jpg"), Lookup::NeedListing(ROOT));

    t.set_children(ROOT, vec![dir(1, ROOT, "DCIM")]);
    assert_eq!(t.lookup("/DCIM/Camera/a.jpg"), Lookup::NeedListing(1));

    t.set_children(1, vec![dir(3, 1, "Camera")]);
    assert_eq!(t.lookup("/DCIM/Camera/a.jpg"), Lookup::NeedListing(3));

    t.set_children(3, vec![file(4, 3, "a.jpg", 1000)]);
    assert_eq!(t.lookup("/DCIM/Camera/a.jpg"), Lookup::Found(4));
}

#[test]
fn a_name_that_is_absent_from_a_read_folder_is_not_found() {
    let t = sample();
    assert_eq!(t.lookup("/DCIM/Nothing"), Lookup::NotFound);
    assert_eq!(t.lookup("/Nothing"), Lookup::NotFound);
}

#[test]
fn a_path_reads_the_same_with_extra_separators() {
    let t = sample();
    for p in [
        "/DCIM/Camera/a.jpg",
        "//DCIM//Camera//a.jpg",
        "/DCIM/./Camera/a.jpg",
        "DCIM/Camera/a.jpg",
    ] {
        assert_eq!(t.lookup(p), Lookup::Found(4), "path {p}");
    }
}

#[test]
fn the_root_reads_as_the_root() {
    let t = sample();
    for p in ["/", "", "//", "/."] {
        assert_eq!(t.lookup(p), Lookup::Found(ROOT), "path {p:?}");
    }
}

#[test]
fn a_path_comes_back_from_a_handle() {
    let t = sample();
    assert_eq!(t.path_of(ROOT).as_deref(), Some("/"));
    assert_eq!(t.path_of(1).as_deref(), Some("/DCIM"));
    assert_eq!(t.path_of(3).as_deref(), Some("/DCIM/Camera"));
    assert_eq!(t.path_of(4).as_deref(), Some("/DCIM/Camera/a.jpg"));
}

#[test]
fn a_path_and_a_lookup_agree() {
    let t = sample();
    for h in [1u32, 2, 3, 4] {
        let p = t.path_of(h).expect("the tree holds the object");
        assert_eq!(t.lookup(&p), Lookup::Found(h), "handle {h} path {p}");
    }
}

#[test]
fn a_handle_the_tree_does_not_hold_gives_no_path() {
    let t = sample();
    assert_eq!(t.path_of(99), None);
}

/// A device that gives a cycle of parents must not hold the host.
#[test]
fn a_cycle_of_parents_does_not_run_without_end() {
    let mut t = Tree::new();
    // Two objects, and each one names the other as the parent.
    t.set_children(ROOT, vec![]);
    t.entries.insert(10, dir(10, 11, "a"));
    t.entries.insert(11, dir(11, 10, "b"));

    assert_eq!(t.path_of(10), None, "the walk stops and gives no path");
}

#[test]
fn a_folder_the_host_did_not_read_gives_no_children() {
    let t = sample();
    assert!(t.children(2).is_none(), "Music is not read yet");
    assert!(t.children(ROOT).is_some());
}

#[test]
fn a_listing_gives_the_objects_in_order() {
    let t = sample();
    let names: Vec<&str> = t
        .children(ROOT)
        .unwrap()
        .iter()
        .map(|e| e.name.as_str())
        .collect();
    assert_eq!(names, vec!["DCIM", "Music"]);
}

#[test]
fn a_second_listing_replaces_the_first() {
    let mut t = Tree::new();
    t.set_children(ROOT, vec![dir(1, ROOT, "A")]);
    t.set_children(ROOT, vec![dir(2, ROOT, "B")]);

    let names: Vec<&str> = t
        .children(ROOT)
        .unwrap()
        .iter()
        .map(|e| e.name.as_str())
        .collect();
    assert_eq!(names, vec!["B"]);
    assert_eq!(t.lookup("/A"), Lookup::NotFound);
    assert_eq!(t.lookup("/B"), Lookup::Found(2));
}

#[test]
fn a_forgotten_listing_makes_the_caller_read_again() {
    let mut t = sample();
    assert_eq!(t.lookup("/DCIM/Camera"), Lookup::Found(3));

    t.forget_listing(1);
    assert_eq!(t.lookup("/DCIM/Camera"), Lookup::NeedListing(1));
    assert!(t.children(1).is_none());

    // The object stays, so a handle still gives a path.
    assert_eq!(t.path_of(3).as_deref(), Some("/DCIM/Camera"));
}

#[test]
fn a_file_keeps_its_size_and_its_kind() {
    let t = sample();
    let e = t.get(4).expect("the tree holds the file");
    assert_eq!(e.size, 1000);
    assert!(!e.is_dir);

    let d = t.get(1).expect("the tree holds the folder");
    assert!(d.is_dir);
    assert_eq!(d.size, 0);
}

/// Two objects of one folder can hold the same name. MTP allows this, and
/// a filesystem does not. The tree gives the first object, and a later
/// version gives each object a name that is not the same.
#[test]
fn two_objects_with_one_name_give_the_first() {
    let mut t = Tree::new();
    t.set_children(
        ROOT,
        vec![file(1, ROOT, "same.txt", 10), file(2, ROOT, "same.txt", 20)],
    );
    assert_eq!(t.lookup("/same.txt"), Lookup::Found(1));
    assert_eq!(t.children(ROOT).unwrap().len(), 2, "both objects are there");
}

#[test]
fn an_object_stands_under_its_own_handle() {
    let mut t = sample();
    for handle in [1, 2, 3, 4] {
        assert_eq!(t.get(handle).unwrap().handle, handle);
    }
    t.forget_listing(1);
    t.set_children(1, vec![dir(7, 1, "Camera"), file(8, 1, "b.jpg", 5)]);
    for handle in [7, 8] {
        assert_eq!(t.get(handle).unwrap().handle, handle);
    }
}
