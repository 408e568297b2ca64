//! The map from a path to an MTP object handle.
//!
//! MTP gives each object a number, which the standard calls a handle, and a parent handle. A
//! filesystem needs a path, such as `/DCIM/Camera/a.jpg`. The tree says what handle a path names, what
//! a folder holds, and which folder the caller has to read next. The tree never reads from a device.

use std::collections::{BTreeMap, BTreeSet};

use vstd::prelude::*;
use vstd::string::*;

use crate::mtpfs::path;
use crate::text;

verus! {

/// The handle of the root folder.
///
/// MTP gives 0 as the parent of an object in the root. The root itself has no handle, so the tree uses
/// 0 for the root.
pub const ROOT: u32 = 0;

/// The largest depth the tree walks.
///
/// A device that gives a cycle of parents makes a walk run without end. The limit stops the walk.
pub const MAX_DEPTH: usize = 256;

/// One object of a device.
#[derive(Debug, Clone, PartialEq, Eq)]
pub struct Entry {
    /// The handle the device gives to the object.
    pub handle: u32,
    /// The handle of the folder that holds the object.
    pub parent: u32,
    /// The name of the object, with no path.
    pub name: String,
    /// True for a folder.
    pub is_dir: bool,
    /// The size of the object, in bytes. A folder gives 0 here.
    pub size: u64,
}

/// What an [`Entry`] holds.
pub struct EntryView {
    pub handle: u32,
    pub parent: u32,
    pub name: Seq<char>,
    pub is_dir: bool,
    pub size: u64,
}

impl View for Entry {
    type V = EntryView;

    open spec fn view(&self) -> EntryView {
        EntryView {
            handle: self.handle,
            parent: self.parent,
            name: self.name@,
            is_dir: self.is_dir,
            size: self.size,
        }
    }
}

/// What a caller must do to answer a question about a path.
#[derive(Debug, Clone, Copy, PartialEq, Eq, Structural)]
pub enum Lookup {
    /// The tree holds the answer, and the answer is this handle.
    Found(u32),
    /// The tree does not hold the answer yet. The caller must read this folder, give the result to
    /// [`Tree::set_children`], and ask again.
    NeedListing(u32),
    /// The path names no object, and no listing changes the answer.
    NotFound,
}

/// The tree of objects, and the listings the host already read.
#[derive(Debug)]
pub struct Tree {
    /// The objects that the tree knows, by handle.
    pub entries: BTreeMap<u32, Entry>,
    children: BTreeMap<u32, Vec<u32>>,
    listed: BTreeSet<u32>,
}

/// What a [`Tree`] holds.
pub struct TreeView {
    /// The objects that the tree knows, by handle.
    pub entries: Map<u32, Entry>,
    /// The handles that each folder holds, for the folders that were read.
    pub children: Map<u32, Seq<u32>>,
}

impl View for Tree {
    type V = TreeView;

    closed spec fn view(&self) -> TreeView {
        TreeView {
            entries: self.entries@,
            children: self.children@.map_values(|v: Vec<u32>| v@),
        }
    }
}

/// The objects among these handles that the tree knows, in order.
pub open spec fn known(entries: Map<u32, Entry>, handles: Seq<u32>) -> Seq<Entry>
    decreases handles.len(),
{
    if handles.len() == 0 {
        Seq::empty()
    } else if entries.contains_key(handles.last()) {
        known(entries, handles.drop_last()).push(entries[handles.last()])
    } else {
        known(entries, handles.drop_last())
    }
}

/// The first of these objects with a name, from position `i` on.
pub open spec fn first_named(found: Seq<Entry>, name: Seq<char>, i: int) -> Option<u32>
    decreases found.len() - i,
{
    if i >= found.len() {
        None
    } else if found[i].name@ == name {
        Some(found[i].handle)
    } else {
        first_named(found, name, i + 1)
    }
}

/// The handles of listed objects.
pub open spec fn handles_of(entries: Seq<Entry>) -> Seq<u32> {
    entries.map_values(|e: Entry| e.handle)
}

/// The objects of a tree together with those of a listing. An object of the listing replaces the one
/// with its handle.
pub open spec fn with_entries(entries: Map<u32, Entry>, more: Seq<Entry>) -> Map<u32, Entry>
    decreases more.len(),
{
    if more.len() == 0 {
        entries
    } else {
        with_entries(entries, more.drop_last()).insert(more.last().handle, more.last())
    }
}

/// The path of an object, in at most this count of steps to the root.
pub open spec fn ascend(entries: Map<u32, Entry>, handle: u32, steps: nat) -> Option<Seq<char>>
    decreases steps,
{
    if steps == 0 {
        None
    } else if handle == ROOT {
        Some(Seq::empty())
    } else if !entries.contains_key(handle) {
        None
    } else {
        match ascend(entries, entries[handle].parent, (steps - 1) as nat) {
            None => None,
            Some(above) => Some(above + seq!['/'] + entries[handle].name@),
        }
    }
}

impl TreeView {
    /// Whether the host already read a folder.
    pub open spec fn is_listed(self, parent: u32) -> bool {
        self.children.contains_key(parent)
    }

    /// The objects that a folder that was read holds.
    pub open spec fn listing(self, parent: u32) -> Seq<Entry> {
        known(self.entries, self.children[parent])
    }

    /// The child of a folder with a name. Of two objects with one name, it is the first.
    pub open spec fn child(self, parent: u32, name: Seq<char>) -> Option<u32> {
        first_named(self.listing(parent), name, 0)
    }

    /// What the parts of a path name, from a folder on.
    pub open spec fn walk(self, current: u32, parts: Seq<Seq<char>>) -> Lookup
        decreases parts.len(),
    {
        if parts.len() == 0 {
            Lookup::Found(current)
        } else if !self.is_listed(current) {
            Lookup::NeedListing(current)
        } else {
            match self.child(current, parts[0]) {
                Some(h) => self.walk(h, parts.skip(1)),
                None => Lookup::NotFound,
            }
        }
    }

    /// The path of an object.
    pub open spec fn path(self, handle: u32) -> Option<Seq<char>> {
        if handle == ROOT {
            Some(seq!['/'])
        } else {
            ascend(self.entries, handle, MAX_DEPTH as nat)
        }
    }

    /// The tree with a listing of a folder, in place of an earlier one.
    pub open spec fn with_listing(self, parent: u32, entries: Seq<Entry>) -> TreeView {
        TreeView {
            entries: with_entries(self.entries, entries),
            children: self.children.insert(parent, handles_of(entries)),
        }
    }

    /// The tree without the listing of a folder.
    pub open spec fn without_listing(self, parent: u32) -> TreeView {
        TreeView { entries: self.entries, children: self.children.remove(parent) }
    }
}

impl Tree {
    /// The folders that count as read are those whose objects the tree holds.
    pub closed spec fn wf(&self) -> bool {
        self.listed@ =~= self.children@.dom()
    }

    /// Makes an empty tree. The tree holds no listing, not even for the root.
    pub fn new() -> (r: Self)
        ensures
            r.wf(),
            r@.entries == Map::<u32, Entry>::empty(),
            r@.children == Map::<u32, Seq<u32>>::empty(),
    {
        let t = Tree {
            entries: BTreeMap::new(),
            children: BTreeMap::new(),
            listed: BTreeSet::new(),
        };
        proof {
            assert(t@.children =~= Map::empty());
        }
        t
    }

    /// Tells you if the host already read a folder.
    pub fn is_listed(&self, parent: u32) -> (r: bool)
        requires
            self.wf(),
        ensures
            r == self@.is_listed(parent),
    {
        self.listed.contains(&parent)
    }

    /// Records the objects a folder holds.
    ///
    /// The function replaces an earlier listing of the same folder. An object that the new listing does
    /// not hold stays in the tree, because another path can still name the object.
    pub fn set_children(&mut self, parent: u32, entries: Vec<Entry>)
        requires
            old(self).wf(),
        ensures
            final(self).wf(),
            final(self)@ == old(self)@.with_listing(parent, entries@),
    {
        let ghost before = self.entries@;
        let ghost all = entries@;
        let ghost kept = self.children@;
        let mut handles: Vec<u32> = Vec::new();
        proof {
            assert(all.take(0) =~= Seq::empty());
            assert(handles_of(all.take(0)) =~= handles@);
        }
        for e in it: entries
            invariant
                it.seq() == all,
                self.children@ == kept,
                self.wf(),
                self.entries@ == with_entries(before, all.take(it.index() as int)),
                handles@ == handles_of(all.take(it.index() as int)),
        {
            proof {
                let i = it.index() as int;
                assert(all.take(i + 1).drop_last() =~= all.take(i));
                assert(all.take(i + 1).last() == e);
                assert(handles_of(all.take(i + 1)) =~= handles_of(all.take(i)).push(e.handle));
            }
            handles.push(e.handle);
            self.entries.insert(e.handle, e);
        }
        proof {
            assert(all.take(all.len() as int) =~= all);
        }
        self.children.insert(parent, handles);
        self.listed.insert(parent);
        proof {
            assert(self@.children =~= old(self)@.with_listing(parent, all).children);
        }
    }

    /// Gives one object.
    pub fn get(&self, handle: u32) -> (r: Option<&Entry>)
        ensures
            match r {
                Some(e) => self@.entries.contains_key(handle) && *e == self@.entries[handle],
                None => !self@.entries.contains_key(handle),
            },
    {
        self.entries.get(&handle)
    }

    /// Gives the objects a folder holds.
    ///
    /// The function gives `None` when the host did not read the folder.
    pub fn children(&self, parent: u32) -> (r: Option<Vec<&Entry>>)
        requires
            self.wf(),
        ensures
            match r {
                Some(v) => self@.is_listed(parent) && v@.unref() == self@.listing(parent),
                None => !self@.is_listed(parent),
            },
    {
        if !self.is_listed(parent) {
            return None;
        }
        match self.children.get(&parent) {
            Some(handles) => Some(self.entries_of(handles)),
            None => None,
        }
    }

    /// Gives the objects among these handles that the tree knows.
    fn entries_of(&self, handles: &Vec<u32>) -> (r: Vec<&Entry>)
        ensures
            r@.unref() == known(self@.entries, handles@),
    {
        let mut out: Vec<&Entry> = Vec::new();
        let mut i: usize = 0;
        proof {
            assert(handles@.take(0) =~= Seq::empty());
            assert(out@.unref() =~= Seq::empty());
        }
        while i < handles.len()
            invariant
                i <= handles@.len(),
                out@.unref() == known(self@.entries, handles@.take(i as int)),
            decreases handles@.len() - i,
        {
            let ghost done = out@.unref();
            proof {
                assert(handles@.take(i + 1).drop_last() =~= handles@.take(i as int));
            }
            match self.entries.get(&handles[i]) {
                Some(e) => {
                    out.push(e);
                    proof {
                        assert(out@.unref() =~= done.push(*e));
                    }
                },
                None => {},
            }
            i = i + 1;
        }
        proof {
            assert(handles@.take(handles@.len() as int) =~= handles@);
        }
        out
    }

    /// Finds a child of a folder by name.
    fn children_named(&self, parent: u32, name: &str) -> (r: Option<&Entry>)
        requires
            self.wf(),
            self@.is_listed(parent),
        ensures
            match r {
                Some(e) => self@.child(parent, name@) == Some(e.handle),
                None => self@.child(parent, name@) is None,
            },
    {
        match self.children(parent) {
            None => None,
            Some(found) => {
                let ghost listing = self@.listing(parent);
                let mut i: usize = 0;
                while i < found.len()
                    invariant
                        i <= found@.len(),
                        listing == self@.listing(parent),
                        found@.unref() == listing,
                        first_named(listing, name@, 0) == first_named(listing, name@, i as int),
                    decreases found@.len() - i,
                {
                    proof {
                        assert(found@.unref()[i as int] == *found@[i as int]);
                    }
                    if text::same(found[i].name.as_str(), name) {
                        return Some(found[i]);
                    }
                    i = i + 1;
                }
                None
            },
        }
    }

    /// Finds the handle a path names.
    ///
    /// The function walks the path from the root. The function stops at the first part the tree cannot
    /// answer, and names the folder the caller must read.
    pub fn lookup(&self, path: &str) -> (r: Lookup)
        requires
            self.wf(),
        ensures
            r == self@.walk(ROOT, path::parts(path@)),
    {
        let parts = path::split_path(path);
        let ghost all = path::parts(path@);
        let mut current: u32 = ROOT;
        let mut i: usize = 0;
        proof {
            assert(all.skip(0) =~= all);
        }
        while i < parts.len()
            invariant
                self.wf(),
                i <= parts@.len(),
                all == path::texts(parts@),
                all == path::parts(path@),
                self@.walk(ROOT, all) == self@.walk(current, all.skip(i as int)),
            decreases parts@.len() - i,
        {
            proof {
                assert(all.skip(i as int)[0] == parts@[i as int]@);
                assert(all.skip(i as int).skip(1) =~= all.skip(i + 1));
            }
            if !self.is_listed(current) {
                return Lookup::NeedListing(current);
            }
            // A part in the middle of a path should name a folder. The tree does not check that,
            // because a caller that asks the device to list a file gets a fault from the device, and
            // that fault carries more than a guess here would.
            match self.children_named(current, parts[i].as_str()) {
                Some(e) => {
                    current = e.handle;
                },
                None => {
                    return Lookup::NotFound;
                },
            }
            i = i + 1;
        }
        proof {
            assert(all.skip(i as int) =~= Seq::empty());
        }
        Lookup::Found(current)
    }

    /// Builds the path of an object.
    ///
    /// The function walks from the object to the root. It gives `None` when a parent is absent from the
    /// tree. The walk has a limit, so a device that gives a cycle of parents cannot hold the host.
    pub fn path_of(&self, handle: u32) -> (r: Option<String>)
        ensures
            match r {
                Some(s) => self@.path(handle) == Some(s@),
                None => self@.path(handle) is None,
            },
    {
        if handle == ROOT {
            let mut root: String = String::new();
            root.push('/');
            proof {
                assert(root@ =~= seq!['/']);
            }
            return Some(root);
        }
        self.ascended(handle, MAX_DEPTH)
    }

    /// Builds the path of an object, in at most this count of steps to the root.
    fn ascended(&self, handle: u32, steps: usize) -> (r: Option<String>)
        ensures
            match r {
                Some(s) => ascend(self@.entries, handle, steps as nat) == Some(s@),
                None => ascend(self@.entries, handle, steps as nat) is None,
            },
        decreases steps,
    {
        if steps == 0 {
            return None;
        }
        if handle == ROOT {
            return Some(String::new());
        }
        match self.entries.get(&handle) {
            None => None,
            Some(e) => match self.ascended(e.parent, steps - 1) {
                None => None,
                Some(above) => {
                    let mut s = above;
                    let ghost prefix = s@;
                    s.push('/');
                    s.append(e.name.as_str());
                    proof {
                        assert(s@ =~= prefix + seq!['/'] + e.name@);
                    }
                    Some(s)
                },
            },
        }
    }

    /// Forgets a listing, and keeps the objects.
    ///
    /// A caller uses the function after a write, so the next read of the folder asks the device again.
    pub fn forget_listing(&mut self, parent: u32)
        requires
            old(self).wf(),
        ensures
            final(self).wf(),
            final(self)@ == old(self)@.without_listing(parent),
    {
        self.listed.remove(&parent);
        self.children.remove(&parent);
        proof {
            assert(self@.children =~= old(self)@.without_listing(parent).children);
        }
    }
}

/// The tree asks for a folder only where the host did not read it, so it never asks for a folder that
/// was just recorded.
pub proof fn law_a_recorded_folder_is_not_asked_for(
    t: TreeView,
    parent: u32,
    entries: Seq<Entry>,
    current: u32,
    parts: Seq<Seq<char>>,
)
    ensures
        t.with_listing(parent, entries).is_listed(parent),
        t.with_listing(parent, entries).walk(current, parts) != Lookup::NeedListing(parent),
        match t.walk(current, parts) {
            Lookup::NeedListing(p) => !t.is_listed(p),
            _ => true,
        },
{
    lemma_asks_for_unread(t, current, parts);
    lemma_asks_for_unread(t.with_listing(parent, entries), current, parts);
}

proof fn lemma_asks_for_unread(t: TreeView, current: u32, parts: Seq<Seq<char>>)
    ensures
        match t.walk(current, parts) {
            Lookup::NeedListing(p) => !t.is_listed(p),
            _ => true,
        },
    decreases parts.len(),
{
    if parts.len() > 0 && t.is_listed(current) {
        if let Some(h) = t.child(current, parts[0]) {
            lemma_asks_for_unread(t, h, parts.skip(1));
        }
    }
}

/// Walking parts one after the other: where the first ones name a folder, the others are walked from
/// that folder, and otherwise the first ones decide.
pub proof fn law_a_walk_goes_on(
    t: TreeView,
    current: u32,
    first: Seq<Seq<char>>,
    more: Seq<Seq<char>>,
)
    ensures
        t.walk(current, first + more) == match t.walk(current, first) {
            Lookup::Found(h) => t.walk(h, more),
            Lookup::NeedListing(p) => Lookup::NeedListing(p),
            Lookup::NotFound => Lookup::NotFound,
        },
    decreases first.len(),
{
    if first.len() == 0 {
        assert(first + more =~= more);
    } else {
        assert((first + more).skip(1) =~= first.skip(1) + more);
        assert((first + more)[0] == first[0]);
        if t.is_listed(current) {
            if let Some(h) = t.child(current, first[0]) {
                law_a_walk_goes_on(t, h, first.skip(1), more);
            }
        }
    }
}

/// Extra separators, and dots between separators, do not change what a path names.
pub proof fn law_separators_do_not_matter(t: TreeView, a: Seq<char>, b: Seq<char>)
    ensures
        t.walk(ROOT, path::parts(a + seq!['/'] + b)) == t.walk(
            ROOT,
            path::parts(a + seq!['/'] + (seq!['/'] + b)),
        ),
        t.walk(ROOT, path::parts(a + seq!['/'] + b)) == t.walk(
            ROOT,
            path::parts(a + seq!['/'] + (seq!['.'] + seq!['/'] + b)),
        ),
        t.walk(ROOT, path::parts(seq!['/'] + b)) == t.walk(ROOT, path::parts(b)),
{
    path::law_the_root_has_no_parts();
    let none = Seq::<Seq<char>>::empty();
    path::law_parts_join(a, b);
    path::law_parts_join(Seq::empty(), b);
    assert(Seq::<char>::empty() + seq!['/'] + b =~= seq!['/'] + b);
    assert(none + path::parts(b) =~= path::parts(b));
    path::law_parts_join(a, seq!['/'] + b);
    path::law_parts_join(seq!['.'], b);
    path::law_parts_join(a, seq!['.'] + seq!['/'] + b);
}

/// How many parts of a path the tree can walk before it needs a listing, or none of them can follow.
pub open spec fn walked(t: TreeView, current: u32, parts: Seq<Seq<char>>) -> nat
    decreases parts.len(),
{
    if parts.len() == 0 || !t.is_listed(current) {
        0
    } else {
        match t.child(current, parts[0]) {
            Some(h) => 1 + walked(t, h, parts.skip(1)),
            None => 0,
        }
    }
}

/// Whether a listing changes no object that the tree knows.
pub open spec fn keeps_known(t: TreeView, entries: Seq<Entry>) -> bool {
    forall|i: int|
        0 <= i < entries.len() ==> !t.entries.contains_key((#[trigger] entries[i]).handle)
            || t.entries[entries[i].handle] == entries[i]
}

/// Whether every handle that a listing of the tree holds is an object that the tree knows.
pub open spec fn is_closed(t: TreeView) -> bool {
    forall|p: u32, i: int|
        t.children.contains_key(p) && 0 <= i < t.children[p].len() ==> t.entries.contains_key(
            #[trigger] t.children[p][i],
        )
}

/// A path needs at most one listing for each of its parts: every listing that the tree asks for and
/// gets, and that changes no object that the tree knows, takes the walk at least one part further.
pub proof fn law_each_listing_takes_the_walk_further(
    t: TreeView,
    current: u32,
    parts: Seq<Seq<char>>,
    entries: Seq<Entry>,
)
    requires
        t.walk(current, parts) is NeedListing,
        keeps_known(t, entries),
        is_closed(t),
    ensures
        ({
            let asked = t.walk(current, parts)->NeedListing_0;
            let next = t.with_listing(asked, entries);
            &&& walked(t, current, parts) < parts.len()
            &&& next.walk(current, parts) is NeedListing ==> walked(next, current, parts) > walked(
                t,
                current,
                parts,
            )
        }),
    decreases parts.len(),
{
    let asked = t.walk(current, parts)->NeedListing_0;
    let next = t.with_listing(asked, entries);
    if t.is_listed(current) {
        lemma_asks_for_unread(t, current, parts);
        lemma_listing_kept(t, asked, entries, current);
        let h = t.child(current, parts[0])->0;
        law_each_listing_takes_the_walk_further(t, h, parts.skip(1), entries);
    }
}

/// The listing of another folder stays as it was.
proof fn lemma_listing_kept(t: TreeView, asked: u32, entries: Seq<Entry>, folder: u32)
    requires
        folder != asked,
        t.is_listed(folder),
        keeps_known(t, entries),
        is_closed(t),
    ensures
        t.with_listing(asked, entries).listing(folder) == t.listing(folder),
{
    let handles = t.children[folder];
    let more = with_entries(t.entries, entries);
    assert forall|h: u32| t.entries.contains_key(h) implies #[trigger] more.contains_key(h)
        && more[h] == t.entries[h] by {
        lemma_known_entry_kept(t.entries, entries, h);
    }
    assert forall|i: int| 0 <= i < handles.len() implies t.entries.contains_key(
        #[trigger] handles[i],
    ) by {
        assert(t.entries.contains_key(t.children[folder][i]));
    }
    lemma_known_kept(t.entries, more, handles);
}

proof fn lemma_known_entry_kept(entries: Map<u32, Entry>, more: Seq<Entry>, h: u32)
    requires
        entries.contains_key(h),
        forall|i: int|
            0 <= i < more.len() ==> !entries.contains_key((#[trigger] more[i]).handle)
                || entries[more[i].handle] == more[i],
    ensures
        with_entries(entries, more).contains_key(h),
        with_entries(entries, more)[h] == entries[h],
    decreases more.len(),
{
    if more.len() > 0 {
        lemma_known_entry_kept(entries, more.drop_last(), h);
        assert(more[more.len() - 1] == more.last());
    }
}

proof fn lemma_known_kept(a: Map<u32, Entry>, b: Map<u32, Entry>, handles: Seq<u32>)
    requires
        forall|h: u32| a.contains_key(h) ==> #[trigger] b.contains_key(h) && b[h] == a[h],
        forall|i: int| 0 <= i < handles.len() ==> a.contains_key(#[trigger] handles[i]),
    ensures
        known(b, handles) == known(a, handles),
    decreases handles.len(),
{
    if handles.len() > 0 {
        lemma_known_kept(a, b, handles.drop_last());
        assert(a.contains_key(handles[handles.len() - 1]));
    }
}

/// A tree that records what devices list stays closed: every handle in a listing is an object that the
/// tree knows. Forgetting a listing keeps that too.
pub proof fn law_a_tree_stays_closed(t: TreeView, parent: u32, entries: Seq<Entry>)
    requires
        is_closed(t),
    ensures
        is_closed(t.with_listing(parent, entries)),
        is_closed(t.without_listing(parent)),
{
    let next = t.with_listing(parent, entries);
    assert forall|p: u32, i: int|
        next.children.contains_key(p) && 0 <= i < next.children[p].len() implies next.entries.contains_key(
        #[trigger] next.children[p][i],
    ) by {
        if p == parent {
            assert(next.children[p][i] == entries[i].handle);
            lemma_listed_entry_is_known(t.entries, entries, i);
        } else {
            assert(t.entries.contains_key(t.children[p][i]));
            lemma_entry_stays(t.entries, entries, t.children[p][i]);
        }
    }
    let less = t.without_listing(parent);
    assert forall|p: u32, i: int|
        less.children.contains_key(p) && 0 <= i < less.children[p].len() implies less.entries.contains_key(
        #[trigger] less.children[p][i],
    ) by {
        assert(t.entries.contains_key(t.children[p][i]));
    }
}

/// Whether every object that the tree knows stands under its own handle.
pub open spec fn is_keyed(t: TreeView) -> bool {
    forall|h: u32| #[trigger] t.entries.contains_key(h) ==> t.entries[h].handle == h
}

/// An object stands under its own handle: that holds of a new tree, and recording and forgetting a listing
/// keep it, whatever a device lists. What a handle gives is therefore the object with that handle.
pub proof fn law_an_object_stands_under_its_own_handle(t: TreeView, parent: u32, entries: Seq<Entry>)
    ensures
        t.entries == Map::<u32, Entry>::empty() ==> is_keyed(t),
        is_keyed(t) ==> is_keyed(t.with_listing(parent, entries)),
        is_keyed(t) ==> is_keyed(t.without_listing(parent)),
{
    if is_keyed(t) {
        lemma_entries_stay_keyed(t.entries, entries);
    }
}

proof fn lemma_entries_stay_keyed(entries: Map<u32, Entry>, more: Seq<Entry>)
    requires
        forall|h: u32| #[trigger] entries.contains_key(h) ==> entries[h].handle == h,
    ensures
        forall|h: u32| #[trigger]
            with_entries(entries, more).contains_key(h) ==> with_entries(entries, more)[h].handle
                == h,
    decreases more.len(),
{
    if more.len() > 0 {
        lemma_entries_stay_keyed(entries, more.drop_last());
        let before = with_entries(entries, more.drop_last());
        assert forall|h: u32| #[trigger] with_entries(entries, more).contains_key(h) implies with_entries(
            entries,
            more,
        )[h].handle == h by {
            if h != more.last().handle {
                assert(before.contains_key(h));
            }
        }
    }
}

proof fn lemma_entry_stays(entries: Map<u32, Entry>, more: Seq<Entry>, h: u32)
    requires
        entries.contains_key(h),
    ensures
        with_entries(entries, more).contains_key(h),
    decreases more.len(),
{
    if more.len() > 0 {
        lemma_entry_stays(entries, more.drop_last(), h);
    }
}

proof fn lemma_listed_entry_is_known(entries: Map<u32, Entry>, more: Seq<Entry>, i: int)
    requires
        0 <= i < more.len(),
    ensures
        with_entries(entries, more).contains_key(more[i].handle),
    decreases more.len(),
{
    if i < more.len() - 1 {
        assert(more.drop_last()[i] == more[i]);
        lemma_listed_entry_is_known(entries, more.drop_last(), i);
    }
}

/// A second listing of a folder replaces the first: a name that only the first one held is not found in
/// the folder any more.
pub proof fn law_a_second_listing_replaces_the_first(
    t: TreeView,
    parent: u32,
    first: Seq<Entry>,
    second: Seq<Entry>,
)
    ensures
        t.with_listing(parent, first).with_listing(parent, second).children == t.with_listing(
            parent,
            second,
        ).children,
{
    assert(t.with_listing(parent, first).with_listing(parent, second).children
        =~= t.with_listing(parent, second).children);
}

/// A forgotten listing makes the caller read the folder again: a path that goes through the folder
/// needs its listing. The objects stay, so a handle still gives the same path.
pub proof fn law_a_forgotten_folder_is_read_again(
    t: TreeView,
    parent: u32,
    above: Seq<Seq<char>>,
    name: Seq<char>,
    handle: u32,
)
    requires
        t.walk(ROOT, above) == Lookup::Found(parent),
    ensures
        t.without_listing(parent).path(handle) == t.path(handle),
        t.without_listing(parent).walk(ROOT, above.push(name)) == Lookup::NeedListing(parent),
{
    lemma_walk_to_forgotten(t, parent, ROOT, above, name);
}

proof fn lemma_walk_to_forgotten(
    t: TreeView,
    parent: u32,
    current: u32,
    above: Seq<Seq<char>>,
    name: Seq<char>,
)
    requires
        t.walk(current, above) == Lookup::Found(parent),
    ensures
        t.without_listing(parent).walk(current, above.push(name)) == Lookup::NeedListing(parent),
    decreases above.len(),
{
    let less = t.without_listing(parent);
    let whole = above.push(name);
    if current != parent {
        assert(above.len() > 0);
        assert(whole[0] == above[0]);
        assert(whole.skip(1) =~= above.skip(1).push(name));
        assert(less.listing(current) == t.listing(current));
        let h = t.child(current, above[0])->0;
        lemma_walk_to_forgotten(t, parent, h, above.skip(1), name);
    }
}

/// Whether an object can be reached by its path: each object on the way to the root has a name that is
/// one part of a path, and is the child that its folder gives for that name.
pub open spec fn reachable(t: TreeView, handle: u32, steps: nat) -> bool
    decreases steps,
{
    handle == ROOT || steps > 0 && t.entries.contains_key(handle) && {
        let e = t.entries[handle];
        &&& path::is_part(e.name@)
        &&& t.is_listed(e.parent)
        &&& t.child(e.parent, e.name@) == Some(handle)
        &&& reachable(t, e.parent, (steps - 1) as nat)
    }
}

/// A path and a lookup agree: the path of an object that can be reached names that object.
pub proof fn law_a_path_and_a_lookup_agree(t: TreeView, handle: u32)
    requires
        reachable(t, handle, MAX_DEPTH as nat),
        t.path(handle) is Some,
    ensures
        t.walk(ROOT, path::parts(t.path(handle)->0)) == Lookup::Found(handle),
{
    path::law_the_root_has_no_parts();
    if handle != ROOT {
        lemma_ascent_leads_back(t, handle, MAX_DEPTH as nat);
    }
}

proof fn lemma_ascent_leads_back(t: TreeView, handle: u32, steps: nat)
    requires
        reachable(t, handle, steps),
        ascend(t.entries, handle, steps) is Some,
    ensures
        t.walk(ROOT, path::parts(ascend(t.entries, handle, steps)->0)) == Lookup::Found(handle),
    decreases steps,
{
    path::law_the_root_has_no_parts();
    if handle != ROOT {
        let e = t.entries[handle];
        let above = ascend(t.entries, e.parent, (steps - 1) as nat)->0;
        lemma_ascent_leads_back(t, e.parent, (steps - 1) as nat);
        path::law_parts_join(above, e.name@);
        path::law_a_name_is_one_part(e.name@);
        let part = seq![e.name@];
        law_a_walk_goes_on(t, ROOT, path::parts(above), part);
        assert(part.skip(1) =~= Seq::empty());
        assert(t.walk(handle, part.skip(1)) == Lookup::Found(handle));
    }
}

/// Whether no two entries have the same handle.
pub open spec fn is_distinct(entries: Seq<Entry>) -> bool {
    forall|i: int, j: int|
        0 <= i < j < entries.len() ==> (#[trigger] entries[i]).handle != (#[trigger] entries[j]).handle
}

/// A folder that was listed gives exactly the objects of the listing, in order and unchanged. Every other
/// folder keeps its listing, and every object that is not listed stays as it was.
pub proof fn law_a_listing_gives_its_objects(t: TreeView, parent: u32, entries: Seq<Entry>)
    requires
        is_distinct(entries),
    ensures
        ({
            let next = t.with_listing(parent, entries);
            &&& next.is_listed(parent)
            &&& next.listing(parent) == entries
            &&& forall|i: int|
                0 <= i < entries.len() ==> next.entries.contains_key((#[trigger] entries[i]).handle)
                    && next.entries[entries[i].handle] == entries[i]
            &&& forall|h: u32|
                (forall|i: int| 0 <= i < entries.len() ==> (#[trigger] entries[i]).handle != h) ==> (
                (#[trigger] next.entries.contains_key(h) <==> t.entries.contains_key(h))
                    && next.entries[h] == t.entries[h])
            &&& forall|p: u32|
                p != parent ==> (#[trigger] next.children.contains_key(p)
                    <==> t.children.contains_key(p)) && next.children[p] == t.children[p]
        }),
{
    let next = t.with_listing(parent, entries);
    lemma_with_entries(t.entries, entries);
    let handles = handles_of(entries);
    assert forall|i: int| 0 <= i < handles.len() implies next.entries.contains_key(
        #[trigger] handles[i],
    ) && next.entries[handles[i]] == entries[i] by {
        assert(handles[i] == entries[i].handle);
    }
    lemma_all_known(next.entries, handles, entries);
}

proof fn lemma_with_entries(entries: Map<u32, Entry>, more: Seq<Entry>)
    requires
        is_distinct(more),
    ensures
        forall|i: int|
            0 <= i < more.len() ==> with_entries(entries, more).contains_key(
                (#[trigger] more[i]).handle,
            ) && with_entries(entries, more)[more[i].handle] == more[i],
        forall|h: u32|
            (forall|i: int| 0 <= i < more.len() ==> (#[trigger] more[i]).handle != h) ==> (
            (#[trigger] with_entries(entries, more).contains_key(h) <==> entries.contains_key(h))
                && with_entries(entries, more)[h] == entries[h]),
    decreases more.len(),
{
    if more.len() > 0 {
        let front = more.drop_last();
        assert forall|i: int, j: int| 0 <= i < j < front.len() implies (#[trigger] front[i]).handle
            != (#[trigger] front[j]).handle by {
            assert(more[i].handle != more[j].handle);
        }
        lemma_with_entries(entries, front);
        assert forall|i: int| 0 <= i < more.len() implies with_entries(entries, more).contains_key(
            (#[trigger] more[i]).handle,
        ) && with_entries(entries, more)[more[i].handle] == more[i] by {
            if i < front.len() {
                assert(front[i] == more[i]);
                assert(more[i].handle != more[more.len() - 1].handle);
            }
        }
        assert forall|h: u32|
            (forall|i: int| 0 <= i < more.len() ==> (#[trigger] more[i]).handle != h) implies (
        #[trigger] with_entries(entries, more).contains_key(h) <==> entries.contains_key(h))
            && with_entries(entries, more)[h] == entries[h] by {
            assert forall|i: int| 0 <= i < front.len() implies (#[trigger] front[i]).handle != h by {
                assert(more[i].handle != h);
            }
            assert(more[more.len() - 1].handle != h);
            assert(with_entries(entries, front).contains_key(h) <==> entries.contains_key(h));
        }
    }
}

proof fn lemma_all_known(known_entries: Map<u32, Entry>, handles: Seq<u32>, entries: Seq<Entry>)
    requires
        handles.len() == entries.len(),
        forall|i: int|
            0 <= i < handles.len() ==> known_entries.contains_key(#[trigger] handles[i])
                && known_entries[handles[i]] == entries[i],
    ensures
        known(known_entries, handles) == entries,
    decreases handles.len(),
{
    if handles.len() > 0 {
        let k = handles.len() - 1;
        assert(known_entries.contains_key(handles[k]));
        assert forall|i: int| 0 <= i < k implies known_entries.contains_key(
            #[trigger] handles.drop_last()[i],
        ) && known_entries[handles.drop_last()[i]] == entries.drop_last()[i] by {
            assert(handles.drop_last()[i] == handles[i]);
        }
        lemma_all_known(known_entries, handles.drop_last(), entries.drop_last());
        assert(entries.drop_last().push(entries.last()) =~= entries);
    } else {
        assert(entries =~= Seq::empty());
    }
}

/// A name in a listed folder leads to the first object of that name, and a name that no object has leads to
/// nothing.
pub proof fn law_a_name_leads_to_its_object(
    t: TreeView,
    parent: u32,
    entries: Seq<Entry>,
    name: Seq<char>,
    i: int,
)
    requires
        is_distinct(entries),
        0 <= i <= entries.len(),
        forall|j: int| 0 <= j < i ==> (#[trigger] entries[j]).name@ != name,
        i < entries.len() ==> entries[i].name@ == name,
    ensures
        i < entries.len() ==> t.with_listing(parent, entries).walk(parent, seq![name])
            == Lookup::Found(entries[i].handle),
        i == entries.len() ==> t.with_listing(parent, entries).walk(parent, seq![name])
            == Lookup::NotFound,
{
    law_a_listing_gives_its_objects(t, parent, entries);
    lemma_first_of_name(entries, name, 0, i);
    let next = t.with_listing(parent, entries);
    if i < entries.len() {
        assert(seq![name].skip(1) =~= Seq::empty());
        assert(next.walk(entries[i].handle, seq![name].skip(1)) == Lookup::Found(entries[i].handle));
    }
}

proof fn lemma_first_of_name(entries: Seq<Entry>, name: Seq<char>, at: int, i: int)
    requires
        0 <= at <= i <= entries.len(),
        forall|j: int| 0 <= j < i ==> (#[trigger] entries[j]).name@ != name,
        i < entries.len() ==> entries[i].name@ == name,
    ensures
        i < entries.len() ==> first_named(entries, name, at) == Some(entries[i].handle),
        i == entries.len() ==> first_named(entries, name, at) is None,
    decreases i - at,
{
    if at < i {
        assert(entries[at].name@ != name);
        lemma_first_of_name(entries, name, at + 1, i);
    }
}

/// Whether handles lead from the root down: the first stands in the root, and each stands in the one before it.
pub open spec fn is_chain(t: TreeView, chain: Seq<u32>) -> bool {
    forall|i: int|
        0 <= i < chain.len() ==> {
            &&& #[trigger] chain[i] != 0
            &&& t.entries.contains_key(chain[i])
            &&& t.entries[chain[i]].parent == if i == 0 {
                0u32
            } else {
                chain[i - 1]
            }
        }
}

/// The names of a chain, each behind a separator.
pub open spec fn spelled(t: TreeView, chain: Seq<u32>) -> Seq<char>
    decreases chain.len(),
{
    if chain.len() == 0 {
        Seq::empty()
    } else {
        spelled(t, chain.drop_last()) + seq!['/'] + t.entries[chain.last()].name@
    }
}

/// The path of an object spells the names of all the folders above it and its own, from the root down, for
/// every object that stands less than 256 levels deep. A deeper object has no path, and neither has one with
/// an unknown folder above it.
pub proof fn law_a_path_spells_its_folders(t: TreeView, chain: Seq<u32>, unknown: u32)
    requires
        is_chain(t, chain),
        chain.len() > 0,
        unknown != 0,
        !t.entries.contains_key(unknown),
    ensures
        chain.len() < 256 ==> t.path(chain.last()) == Some(spelled(t, chain)),
        chain.len() >= 256 ==> t.path(chain.last()) is None,
        t.path(0) == Some(seq!['/']),
        t.path(unknown) is None,
{
    assert(chain[chain.len() - 1] != 0);
    if chain.len() < 256 {
        lemma_chain(t, chain, 256);
    } else {
        lemma_deep(t, chain, 256);
    }
}

proof fn lemma_chain(t: TreeView, chain: Seq<u32>, steps: nat)
    requires
        is_chain(t, chain),
        chain.len() < steps,
    ensures
        ascend(
            t.entries,
            if chain.len() == 0 {
                0u32
            } else {
                chain.last()
            },
            steps,
        ) == Some(spelled(t, chain)),
    decreases chain.len(),
{
    if chain.len() > 0 {
        let front = chain.drop_last();
        assert(chain[chain.len() - 1] != 0);
        assert forall|i: int| 0 <= i < front.len() implies {
            &&& #[trigger] front[i] != 0
            &&& t.entries.contains_key(front[i])
            &&& t.entries[front[i]].parent == if i == 0 {
                0u32
            } else {
                front[i - 1]
            }
        } by {
            assert(front[i] == chain[i]);
        }
        lemma_chain(t, front, (steps - 1) as nat);
    }
}

proof fn lemma_deep(t: TreeView, chain: Seq<u32>, steps: nat)
    requires
        is_chain(t, chain),
        chain.len() >= steps,
        chain.len() > 0,
    ensures
        ascend(t.entries, chain.last(), steps) is None,
    decreases steps,
{
    if steps > 1 {
        let front = chain.drop_last();
        assert(chain[chain.len() - 1] != 0);
        assert forall|i: int| 0 <= i < front.len() implies {
            &&& #[trigger] front[i] != 0
            &&& t.entries.contains_key(front[i])
            &&& t.entries[front[i]].parent == if i == 0 {
                0u32
            } else {
                front[i - 1]
            }
        } by {
            assert(front[i] == chain[i]);
        }
        lemma_deep(t, front, (steps - 1) as nat);
    } else if steps == 1 {
        assert(chain[chain.len() - 1] != 0);
        assert(ascend(t.entries, t.entries[chain.last()].parent, 0) is None);
    }
}

/// A folder whose listing was forgotten is not listed, and nothing else changes: every other folder keeps its
/// listing, and every object stays known.
pub proof fn law_forgetting_takes_one_listing(t: TreeView, parent: u32, other: u32)
    requires
        parent != other,
    ensures
        !t.without_listing(parent).is_listed(parent),
        t.without_listing(parent).is_listed(other) == t.is_listed(other),
        t.is_listed(other) ==> t.without_listing(parent).listing(other) == t.listing(other),
        t.without_listing(parent).entries == t.entries,
{
}

/// Recording a listing and forgetting one do to the tree what they say.
pub proof fn law_a_tree_records_and_forgets(parent: u32, entries: Vec<Entry>)
    ensures
        forall|t: &mut Tree| #[trigger]
            call_ensures(Tree::set_children, (t, parent, entries), ()) ==> final(t)@
                == (*t)@.with_listing(parent, entries@),
        forall|t: &mut Tree| #[trigger]
            call_ensures(Tree::forget_listing, (t, parent), ()) ==> final(t)@
                == (*t)@.without_listing(parent),
{
}

/// What a tree answers: the object under a handle, the objects of a listed folder, where a path leads, and the
/// path of an object.
pub proof fn law_what_a_tree_answers(
    t: &Tree,
    handle: u32,
    path: &str,
    e: Option<&Entry>,
    c: Option<Vec<&Entry>>,
    l: Lookup,
    p: Option<String>,
    listed: bool,
)
    requires
        t.wf(),
        call_ensures(Tree::get, (t, handle), e),
        call_ensures(Tree::children, (t, handle), c),
        call_ensures(Tree::lookup, (t, path), l),
        call_ensures(Tree::path_of, (t, handle), p),
        call_ensures(Tree::is_listed, (t, handle), listed),
    ensures
        e is Some <==> t@.entries.contains_key(handle),
        e is Some ==> *(e->0) == t@.entries[handle],
        listed <==> t@.children.contains_key(handle),
        c is Some <==> listed,
        c is Some ==> c->0@.len() == t@.listing(handle).len(),
        c is Some ==> forall|i: int|
            0 <= i < c->0@.len() ==> *(#[trigger] c->0@[i]) == t@.listing(handle)[i],
        l == t@.walk(0, path::parts(path@)),
        p is Some <==> t@.path(handle) is Some,
        p is Some ==> t@.path(handle) == Some(p->0@),
{
    if c is Some {
        assert(c->0@.unref().len() == c->0@.len());
        assert forall|i: int| 0 <= i < c->0@.len() implies *(#[trigger] c->0@[i]) == t@.listing(
            handle,
        )[i] by {
            assert(c->0@.unref()[i] == *(c->0@[i]));
        }
    }
}

/// A listing keeps every handle in its place, also where a device names a handle more than once. What is known of
/// an object is what the last entry with its handle says, and each place of the listing shows that.
pub proof fn law_a_listing_keeps_every_handle(t: TreeView, parent: u32, entries: Seq<Entry>)
    ensures
        ({
            let next = t.with_listing(parent, entries);
            &&& next.listing(parent).len() == entries.len()
            &&& next.children[parent].len() == entries.len()
            &&& forall|i: int|
                0 <= i < entries.len() ==> {
                    let h = (#[trigger] entries[i]).handle;
                    &&& next.children[parent][i] == h
                    &&& next.entries.contains_key(h)
                    &&& next.listing(parent)[i] == next.entries[h]
                    &&& (forall|j: int| i < j < entries.len() ==> (#[trigger] entries[j]).handle != h)
                        ==> next.entries[h] == entries[i]
                }
        }),
{
    let next = t.with_listing(parent, entries);
    let handles = handles_of(entries);
    assert forall|i: int| 0 <= i < entries.len() implies next.entries.contains_key(
        (#[trigger] entries[i]).handle,
    ) && ((forall|j: int|
        i < j < entries.len() ==> (#[trigger] entries[j]).handle != entries[i].handle)
        ==> next.entries[entries[i].handle] == entries[i]) by {
        lemma_listed_entry_is_known(t.entries, entries, i);
        if forall|j: int|
            i < j < entries.len() ==> (#[trigger] entries[j]).handle != entries[i].handle {
            lemma_last_entry_counts(t.entries, entries, i);
        }
    }
    let shown = Seq::new(entries.len(), |i: int| next.entries[entries[i].handle]);
    assert forall|i: int| 0 <= i < handles.len() implies next.entries.contains_key(
        #[trigger] handles[i],
    ) && next.entries[handles[i]] == shown[i] by {
        assert(handles[i] == entries[i].handle);
    }
    lemma_all_known(next.entries, handles, shown);
}

proof fn lemma_last_entry_counts(entries: Map<u32, Entry>, more: Seq<Entry>, i: int)
    requires
        0 <= i < more.len(),
        forall|j: int| i < j < more.len() ==> (#[trigger] more[j]).handle != more[i].handle,
    ensures
        with_entries(entries, more)[more[i].handle] == more[i],
    decreases more.len(),
{
    if i < more.len() - 1 {
        let front = more.drop_last();
        assert(more[more.len() - 1].handle != more[i].handle);
        assert forall|j: int| i < j < front.len() implies (#[trigger] front[j]).handle
            != front[i].handle by {
            assert(more[j].handle != more[i].handle);
        }
        lemma_last_entry_counts(entries, front, i);
    }
}

} // verus!
