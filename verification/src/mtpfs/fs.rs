//! What each filesystem request does.
//!
//! The kernel asks for one thing at a time: the attributes of a path, the names in a folder, a part of a
//! file. The functions here decide what the answer is, and name the work on the device that an answer
//! needs. The host does that work and hands back its result.

use vstd::prelude::*;
use vstd::string::*;

use crate::mtpfs::backend;
use crate::mtpfs::cache;
use crate::mtpfs::cache::RangeView;
use crate::mtpfs::error::Error;
use crate::mtpfs::path;
use crate::mtpfs::pending;
use crate::mtpfs::pending::{Pending, PendingFiles, PendingView};
use crate::mtpfs::tree;
use crate::mtpfs::tree::{Entry, Lookup, Tree, TreeView, ROOT};
use crate::text;

verus! {

/// The mode bits for a folder that a user can read and enter.
pub const MODE_DIR: u32 = 0o040_755;

/// The mode bits for a file that a user can read.
pub const MODE_FILE: u32 = 0o100_644;

/// The largest count of listings one path walk reads.
///
/// A path of many parts needs one listing for each part. The limit stops a walk that does not end.
pub const MAX_WALK: usize = 64;

/// The block size that a file names, in bytes.
pub const BLOCK_SIZE: u32 = 65536;

/// The unit that the count of blocks of a file uses, in bytes.
pub const BLOCK_UNIT: u64 = 512;

/// The error number for an object that does not exist.
pub fn libc_enoent() -> (r: i32)
    ensures
        r == 2,
{
    2
}

/// The error number for a fault of the device.
pub fn libc_eio() -> (r: i32)
    ensures
        r == 5,
{
    5
}

/// The error number for a folder in place of a file.
pub fn libc_eisdir() -> (r: i32)
    ensures
        r == 21,
{
    21
}

/// The error number for a file that does not change.
pub fn libc_erofs() -> (r: i32)
    ensures
        r == 30,
{
    30
}

/// The error number for a file in place of a folder.
pub fn libc_enotdir() -> (r: i32)
    ensures
        r == 20,
{
    20
}

/// The attributes of one object.
#[derive(Debug, Clone, Copy, PartialEq, Eq, Structural)]
pub struct Attr {
    /// The kind of the object, and who can do what with it.
    pub mode: u32,
    /// The count of links.
    pub links: u32,
    /// The size, in bytes.
    pub size: u64,
    /// The count of blocks.
    pub blocks: u64,
    /// The size of a block, in bytes.
    pub block_size: u32,
}

/// The count of blocks that hold a size. A block that is used in part counts.
pub open spec fn blocks_of(size: u64) -> int {
    (size + BLOCK_UNIT - 1) / BLOCK_UNIT as int
}

/// The attributes of a folder.
pub open spec fn folder_attr() -> Attr {
    Attr { mode: MODE_DIR, links: 2, size: 0, blocks: 0, block_size: BLOCK_SIZE }
}

/// The attributes of a file on the device.
pub open spec fn file_attr(size: u64) -> Attr {
    Attr {
        mode: MODE_FILE,
        links: 1,
        size,
        blocks: blocks_of(size) as u64,
        block_size: BLOCK_SIZE,
    }
}

/// The attributes of a file that a program is writing. It has no block on the device yet.
pub open spec fn new_file_attr(size: u64) -> Attr {
    Attr { mode: MODE_FILE, links: 1, size, blocks: 0, block_size: BLOCK_SIZE }
}

/// The state that the requests share.
#[derive(Debug)]
pub struct Fs {
    tree: Tree,
    pending: PendingFiles,
}

/// What an [`Fs`] holds.
pub struct FsView {
    /// What the host knows of the device.
    pub tree: TreeView,
    /// The files that programs are writing, by path.
    pub pending: Map<Seq<char>, PendingView>,
}

impl View for Fs {
    type V = FsView;

    closed spec fn view(&self) -> FsView {
        FsView { tree: self.tree@, pending: self.pending@ }
    }
}

/// A walk along a path that waits for a listing.
#[derive(Debug)]
pub struct Walk {
    path: String,
    rounds: usize,
    folder: u32,
}

/// What a [`Walk`] holds.
pub struct WalkView {
    /// The path.
    pub path: Seq<char>,
    /// The count of listings that the walk read.
    pub rounds: nat,
    /// The folder that the walk waits for.
    pub folder: u32,
}

impl View for Walk {
    type V = WalkView;

    closed spec fn view(&self) -> WalkView {
        WalkView { path: self.path@, rounds: self.rounds as nat, folder: self.folder }
    }
}

/// What a walk along a path needs next.
#[derive(Debug)]
pub enum WalkStep {
    /// The path names this handle.
    Found(u32),
    /// The path names nothing.
    Missing,
    /// The host must list this folder, and hand the result to [`Walk::listed`].
    List(Walk, u32),
}

/// What a [`WalkStep`] says.
pub enum WalkStepView {
    Found(u32),
    Missing,
    List(WalkView, u32),
}

impl View for WalkStep {
    type V = WalkStepView;

    open spec fn view(&self) -> WalkStepView {
        match *self {
            WalkStep::Found(h) => WalkStepView::Found(h),
            WalkStep::Missing => WalkStepView::Missing,
            WalkStep::List(w, p) => WalkStepView::List(w@, p),
        }
    }
}

/// What a walk that read some listings needs next.
pub open spec fn walk_step(t: TreeView, path: Seq<char>, rounds: nat) -> WalkStepView {
    if rounds >= MAX_WALK {
        WalkStepView::Missing
    } else {
        match t.walk(ROOT, path::parts(path)) {
            Lookup::Found(h) => WalkStepView::Found(h),
            Lookup::NotFound => WalkStepView::Missing,
            Lookup::NeedListing(p) => WalkStepView::List(WalkView { path, rounds, folder: p }, p),
        }
    }
}

/// The attributes of a path, or the work that the host has to do for them.
#[derive(Debug)]
pub enum AttrStep {
    /// The attributes, or the answer with which the request fails.
    Over(Result<Attr, i32>),
    /// The host must list this folder, and hand the result to [`Walk::listed_for_attr`].
    List(Walk, u32),
}

/// What an [`AttrStep`] says.
pub enum AttrStepView {
    Over(Result<Attr, i32>),
    List(WalkView, u32),
}

impl View for AttrStep {
    type V = AttrStepView;

    open spec fn view(&self) -> AttrStepView {
        match *self {
            AttrStep::Over(r) => AttrStepView::Over(r),
            AttrStep::List(w, p) => AttrStepView::List(w@, p),
        }
    }
}

/// The names that a folder shows, or the work that the host has to do for them.
#[derive(Debug)]
pub enum FolderStep {
    /// The names, in the order of the device, behind the folder itself and the folder above.
    Names(Vec<String>),
    /// The host must list this folder, and hand the result to [`Fs::readdir_listed`].
    List(u32),
    /// The request fails with this answer.
    Failed(i32),
}

/// A name as a folder shows it.
pub open spec fn shown(name: Seq<char>) -> Seq<char> {
    name.map_values(|c: char| path::shown_char(c))
}

/// The names that a folder with these objects shows.
pub open spec fn shown_names(entries: Seq<Entry>) -> Seq<Seq<char>> {
    seq!["."@, ".."@] + entries.map_values(|e: Entry| shown(e.name@))
}

/// What a read of a file needs.
#[derive(Debug, Clone, Copy, PartialEq, Eq, Structural)]
pub enum ReadStep {
    /// The host must read `want` bytes of the file, which has `file_size` bytes, from `offset` on.
    Read { handle: u32, offset: u64, want: usize, file_size: u64 },
    /// The read starts behind the end of the file, and gives no byte.
    End,
    /// The request fails with this answer.
    Failed(i32),
}

impl FsView {
    /// The attributes of a file that a program is writing.
    pub open spec fn pending_attr(self, path: Seq<char>) -> Option<Attr> {
        if self.pending.contains_key(path) {
            Some(new_file_attr(self.pending[path].data.len() as u64))
        } else {
            None
        }
    }

    /// The attributes of an object of the device.
    pub open spec fn attr(self, handle: Option<u32>) -> Result<Attr, i32> {
        match handle {
            None => Err((-2) as i32),
            Some(h) => if h == ROOT {
                Ok(folder_attr())
            } else if !self.tree.entries.contains_key(h) {
                Err((-2) as i32)
            } else if self.tree.entries[h].is_dir {
                Ok(folder_attr())
            } else {
                Ok(file_attr(self.tree.entries[h].size))
            },
        }
    }

    /// The attributes of what a walk found, or the listing that it needs.
    pub open spec fn attr_behind(self, step: WalkStepView) -> AttrStepView {
        match step {
            WalkStepView::Found(h) => AttrStepView::Over(self.attr(Some(h))),
            WalkStepView::Missing => AttrStepView::Over(self.attr(None)),
            WalkStepView::List(w, p) => AttrStepView::List(w, p),
        }
    }

    /// The attributes of a path. A file that a program is writing comes first, because it is not on the
    /// device yet.
    pub open spec fn attr_step(self, path: Seq<char>) -> AttrStepView {
        match self.pending_attr(path) {
            Some(a) => AttrStepView::Over(Ok(a)),
            None => self.attr_behind(walk_step(self.tree, path, 0)),
        }
    }

    /// Which part of a file a read of `size` bytes takes.
    pub open spec fn read_step(self, handle: Option<u32>, size: usize, offset: u64) -> ReadStep {
        match handle {
            None => ReadStep::Failed((-2) as i32),
            Some(h) => if !self.tree.entries.contains_key(h) {
                ReadStep::Failed((-2) as i32)
            } else {
                let file_size = self.tree.entries[h].size;
                if offset >= file_size {
                    ReadStep::End
                } else {
                    let rest = file_size - offset;
                    ReadStep::Read {
                        handle: h,
                        offset,
                        want: if size <= rest {
                            size
                        } else {
                            rest as usize
                        },
                        file_size,
                    }
                }
            },
        }
    }

    /// The state with a listing of a folder.
    pub open spec fn listed(self, parent: u32, entries: Seq<Entry>) -> FsView {
        FsView { tree: self.tree.with_listing(parent, entries), ..self }
    }

    /// The state without the listing of a folder.
    pub open spec fn forgot(self, parent: u32) -> FsView {
        FsView { tree: self.tree.without_listing(parent), ..self }
    }

    /// The state in which a program started a file.
    pub open spec fn created(self, path: Seq<char>, parent: u32) -> FsView {
        FsView {
            pending: self.pending.insert(
                path,
                PendingView { parent, name: path::name_of(path), data: Seq::empty() },
            ),
            ..self
        }
    }

    /// The state in which a program wrote to a file.
    pub open spec fn wrote(self, path: Seq<char>, offset: int, bytes: Seq<u8>) -> FsView {
        let p = self.pending[path];
        FsView {
            pending: self.pending.insert(
                path,
                PendingView { data: pending::written(p.data, offset, bytes), ..p },
            ),
            ..self
        }
    }

    /// The state in which a program changed the size of a file.
    pub open spec fn truncated(self, path: Seq<char>, size: int) -> FsView {
        let p = self.pending[path];
        FsView {
            pending: self.pending.insert(
                path,
                PendingView { data: pending::resized(p.data, size), ..p },
            ),
            ..self
        }
    }

    /// The state in which a program closed a file.
    pub open spec fn released(self, path: Seq<char>) -> FsView {
        FsView { pending: self.pending.remove(path), ..self }
    }
}

impl Fs {
    /// The tree is well formed.
    pub closed spec fn wf(&self) -> bool {
        self.tree.wf()
    }

    /// The state of a new mount. It knows nothing of the device, and no file is being written.
    pub fn new() -> (r: Self)
        ensures
            r.wf(),
            r@.tree.entries == Map::<u32, Entry>::empty(),
            r@.tree.children == Map::<u32, Seq<u32>>::empty(),
            r@.pending == Map::<Seq<char>, PendingView>::empty(),
    {
        Fs { tree: Tree::new(), pending: PendingFiles::new() }
    }

    /// Finds the handle a path names, and reads a folder when the tree needs one.
    ///
    /// The walk has a count limit, so a path cannot hold the host.
    pub fn resolve(&self, path: &str) -> (r: WalkStep)
        requires
            self.wf(),
        ensures
            r@ == walk_step(self@.tree, path@, 0),
    {
        self.resolve_from(text::owned(path), 0)
    }

    /// Goes on with a walk that read some listings.
    fn resolve_from(&self, path: String, rounds: usize) -> (r: WalkStep)
        requires
            self.wf(),
        ensures
            r@ == walk_step(self@.tree, path@, rounds as nat),
    {
        if rounds >= MAX_WALK {
            return WalkStep::Missing;
        }
        match self.tree.lookup(path.as_str()) {
            Lookup::Found(h) => WalkStep::Found(h),
            Lookup::NotFound => WalkStep::Missing,
            Lookup::NeedListing(folder) => WalkStep::List(Walk { path, rounds, folder }, folder),
        }
    }

    /// Gives the attributes of a file that a program is writing, which is not on the device yet.
    pub fn pending_attr(&self, path: &str) -> (r: Option<Attr>)
        ensures
            r == self@.pending_attr(path@),
    {
        match self.pending.get(path) {
            Some(p) => Some(
                Attr {
                    mode: MODE_FILE,
                    links: 1,
                    size: p.data.len() as u64,
                    blocks: 0,
                    block_size: BLOCK_SIZE,
                },
            ),
            None => None,
        }
    }

    /// Gives the attributes of the object that a path was resolved to.
    pub fn getattr(&self, handle: Option<u32>) -> (r: Result<Attr, i32>)
        ensures
            r == self@.attr(handle),
    {
        let h: u32 = match handle {
            Some(h) => h,
            None => return Err(-libc_enoent()),
        };
        let folder = Attr {
            mode: MODE_DIR,
            links: 2,
            size: 0,
            blocks: 0,
            block_size: BLOCK_SIZE,
        };
        if h == ROOT {
            return Ok(folder);
        }
        match self.tree.get(h) {
            Some(e) => if e.is_dir {
                Ok(folder)
            } else {
                let whole: u64 = e.size / BLOCK_UNIT;
                let blocks: u64 = if e.size % BLOCK_UNIT == 0 {
                    whole
                } else {
                    whole + 1
                };
                Ok(Attr { mode: MODE_FILE, links: 1, size: e.size, blocks, block_size: BLOCK_SIZE })
            },
            None => Err(-libc_enoent()),
        }
    }

    /// Gives the attributes of what a walk found, or the listing that it needs.
    fn attr_behind(&self, step: WalkStep) -> (r: AttrStep)
        ensures
            r@ == self@.attr_behind(step@),
    {
        match step {
            WalkStep::Found(h) => AttrStep::Over(self.getattr(Some(h))),
            WalkStep::Missing => AttrStep::Over(self.getattr(None)),
            WalkStep::List(w, p) => AttrStep::List(w, p),
        }
    }

    /// Gives the attributes of a path, or the listing that they need. A file that a program is writing
    /// needs none.
    pub fn attr(&self, path: &str) -> (r: AttrStep)
        requires
            self.wf(),
        ensures
            r@ == self@.attr_step(path@),
    {
        match self.pending_attr(path) {
            Some(a) => AttrStep::Over(Ok(a)),
            None => self.attr_behind(self.resolve(path)),
        }
    }

    /// Lists the folder that a path was resolved to.
    ///
    /// The walk along the path did not read the folder at its end, so the folder can still need a
    /// listing.
    pub fn readdir(&self, handle: Option<u32>) -> (r: FolderStep)
        requires
            self.wf(),
        ensures
            match (handle, r) {
                (None, FolderStep::Failed(code)) => code == -2,
                (Some(h), FolderStep::List(p)) => p == h && !self@.tree.is_listed(h),
                (Some(h), FolderStep::Names(names)) => self@.tree.is_listed(h) && path::texts(
                    names@,
                ) == shown_names(self@.tree.listing(h)),
                _ => false,
            },
    {
        match handle {
            None => FolderStep::Failed(-libc_enoent()),
            Some(h) => match self.tree.children(h) {
                Some(entries) => FolderStep::Names(names_of(&entries)),
                None => FolderStep::List(h),
            },
        }
    }

    /// Records a listing of a folder, and gives the names in it.
    pub fn readdir_listed(&mut self, folder: u32, listing: Result<Vec<Entry>, Error>) -> (r:
        FolderStep)
        requires
            old(self).wf(),
        ensures
            final(self).wf(),
            match listing {
                Ok(entries) => {
                    &&& final(self)@ == old(self)@.listed(folder, entries@)
                    &&& r matches FolderStep::Names(names)
                    &&& path::texts(names@) == shown_names(final(self)@.tree.listing(folder))
                },
                Err(_) => {
                    &&& *final(self) == *old(self)
                    &&& r matches FolderStep::Failed(code)
                    &&& code == -5
                },
            },
    {
        match listing {
            Ok(entries) => {
                self.tree.set_children(folder, entries);
                self.readdir(Some(folder))
            },
            Err(_) => FolderStep::Failed(-libc_eio()),
        }
    }

    /// Opens the file that a path was resolved to, and gives its handle.
    pub fn open(&self, handle: Option<u32>) -> (r: Result<u32, i32>)
        ensures
            r == match handle {
                None => Err::<u32, i32>((-2) as i32),
                Some(h) => if self@.tree.entries.contains_key(h) && !self@.tree.entries[h].is_dir {
                    Ok::<u32, i32>(h)
                } else {
                    Err::<u32, i32>((-21) as i32)
                },
            },
    {
        match handle {
            None => Err(-libc_enoent()),
            Some(h) => match self.tree.get(h) {
                Some(e) => if e.is_dir {
                    Err(-libc_eisdir())
                } else {
                    Ok(h)
                },
                None => Err(-libc_eisdir()),
            },
        }
    }

    /// Gives the folder that a new object goes to. The path needs a name.
    pub fn folder_for_new(&self, path: &str) -> (r: Result<String, i32>)
        ensures
            match r {
                Ok(folder) => path::name_of(path@).len() > 0 && folder@ == path::folder_of(path@),
                Err(code) => path::name_of(path@).len() == 0 && code == -5,
            },
    {
        let (folder, name) = path::split_parent(path);
        if text::is_empty(name.as_str()) {
            return Err(-libc_eio());
        }
        Ok(folder)
    }

    /// Makes a new file in the folder that was resolved, and keeps the bytes until the program closes
    /// the file.
    pub fn create(&mut self, path: &str, parent: Option<u32>) -> (r: i32)
        requires
            old(self).wf(),
        ensures
            final(self).wf(),
            final(self)@ == match parent {
                Some(h) => if path::name_of(path@).len() == 0 {
                    old(self)@
                } else {
                    old(self)@.created(path@, h)
                },
                None => old(self)@,
            },
            r == if path::name_of(path@).len() == 0 {
                -5
            } else if parent is None {
                -2
            } else {
                0int
            },
    {
        let (_, name) = path::split_parent(path);
        if text::is_empty(name.as_str()) {
            return -libc_eio();
        }
        let h: u32 = match parent {
            Some(h) => h,
            None => return -libc_enoent(),
        };
        let data: Vec<u8> = Vec::new();
        let p = Pending { parent: h, name, data };
        proof {
            assert(p@ == PendingView {
                parent: h,
                name: path::name_of(path@),
                data: Seq::<u8>::empty(),
            });
        }
        self.pending.insert(text::owned(path), p);
        0
    }

    /// Keeps the bytes of a write, and gives their count. A file on the device does not change.
    pub fn write(&mut self, path: &str, bytes: &[u8], offset: usize) -> (r: Result<usize, i32>)
        requires
            old(self).wf(),
            offset + bytes@.len() <= usize::MAX,
        ensures
            final(self).wf(),
            final(self)@ == if old(self)@.pending.contains_key(path@) {
                old(self)@.wrote(path@, offset as int, bytes@)
            } else {
                old(self)@
            },
            r == if old(self)@.pending.contains_key(path@) {
                Ok::<usize, i32>(bytes@.len() as usize)
            } else {
                Err::<usize, i32>((-30) as i32)
            },
    {
        if self.pending.write(path, offset, bytes) {
            Ok(bytes.len())
        } else {
            Err(-libc_erofs())
        }
    }

    /// Accepts a change of size for a file a program is writing. A file on the device does not change
    /// size.
    pub fn truncate(&mut self, path: &str, size: usize) -> (r: i32)
        requires
            old(self).wf(),
        ensures
            final(self).wf(),
            final(self)@ == if old(self)@.pending.contains_key(path@) {
                old(self)@.truncated(path@, size as int)
            } else {
                old(self)@
            },
            r == if old(self)@.pending.contains_key(path@) {
                0
            } else {
                -30int
            },
    {
        if self.pending.truncate(path, size) {
            0
        } else {
            -libc_erofs()
        }
    }

    /// Takes the file out that a program closes. The host sends it, and hands the result to
    /// [`Fs::changed`]. A path that no program is writing needs no work.
    pub fn release(&mut self, path: &str) -> (r: Option<Pending>)
        requires
            old(self).wf(),
        ensures
            final(self).wf(),
            final(self)@ == old(self)@.released(path@),
            match r {
                Some(p) => old(self)@.pending.contains_key(path@) && p@
                    == old(self)@.pending[path@],
                None => !old(self)@.pending.contains_key(path@),
            },
    {
        self.pending.remove(path)
    }

    /// Gives the folder and the name of a new folder.
    pub fn mkdir(&self, path: &str, parent: Option<u32>) -> (r: Result<(u32, String), i32>)
        ensures
            match r {
                Ok((h, name)) => parent == Some(h) && name@ == path::name_of(path@) && name@.len()
                    > 0,
                Err(code) => if path::name_of(path@).len() == 0 {
                    code == -5
                } else {
                    parent is None && code == -2
                },
            },
    {
        let (_, name) = path::split_parent(path);
        if text::is_empty(name.as_str()) {
            return Err(-libc_eio());
        }
        match parent {
            Some(h) => Ok((h, name)),
            None => Err(-libc_enoent()),
        }
    }

    /// Checks the kind of an object that a program removes, and gives its handle and its folder. The
    /// host removes it, and hands the result to [`Fs::changed`].
    pub fn remove(&self, handle: Option<u32>, want_dir: bool) -> (r: Result<(u32, u32), i32>)
        ensures
            r == match handle {
                None => Err::<(u32, u32), i32>((-2) as i32),
                Some(h) => if h == ROOT {
                    Err::<(u32, u32), i32>((-5) as i32)
                } else if !self@.tree.entries.contains_key(h) {
                    Err::<(u32, u32), i32>((-2) as i32)
                } else if self@.tree.entries[h].is_dir == want_dir {
                    Ok::<(u32, u32), i32>((h, self@.tree.entries[h].parent))
                } else if want_dir {
                    Err::<(u32, u32), i32>((-20) as i32)
                } else {
                    Err::<(u32, u32), i32>((-21) as i32)
                },
            },
    {
        let h: u32 = match handle {
            Some(h) => h,
            None => return Err(-libc_enoent()),
        };
        if h == ROOT {
            return Err(-libc_eio());
        }
        match self.tree.get(h) {
            Some(e) => if e.is_dir == want_dir {
                Ok((h, e.parent))
            } else if want_dir {
                Err(-libc_enotdir())
            } else {
                Err(-libc_eisdir())
            },
            None => Err(-libc_enoent()),
        }
    }

    /// Takes note of a change to a folder, and gives the answer of the request. After a change the
    /// listing of the folder is old.
    pub fn changed(&mut self, parent: u32, done: bool) -> (r: i32)
        requires
            old(self).wf(),
        ensures
            final(self).wf(),
            final(self)@ == if done {
                old(self)@.forgot(parent)
            } else {
                old(self)@
            },
            r == if done {
                0
            } else {
                -5int
            },
    {
        if done {
            self.tree.forget_listing(parent);
            0
        } else {
            -libc_eio()
        }
    }

    /// Says which part of a file a read takes. No read goes past the end of the file.
    pub fn read(&self, handle: Option<u32>, size: usize, offset: u64) -> (r: ReadStep)
        ensures
            r == self@.read_step(handle, size, offset),
    {
        let h: u32 = match handle {
            Some(h) => h,
            None => return ReadStep::Failed(-libc_enoent()),
        };
        let file_size: u64 = match self.tree.get(h) {
            Some(e) => e.size,
            None => return ReadStep::Failed(-libc_enoent()),
        };
        if offset >= file_size {
            return ReadStep::End;
        }
        let rest: u64 = file_size - offset;
        let want: usize = if size as u64 <= rest {
            size
        } else {
            rest as usize
        };
        ReadStep::Read { handle: h, offset, want, file_size }
    }
}

impl Walk {
    /// Records a listing, and goes on with the walk. A folder that cannot be listed ends it.
    pub fn listed(self, fs: &mut Fs, listing: Result<Vec<Entry>, Error>) -> (r: WalkStep)
        requires
            old(fs).wf(),
            self@.rounds < MAX_WALK,
        ensures
            final(fs).wf(),
            match listing {
                Ok(entries) => {
                    &&& final(fs)@ == old(fs)@.listed(self@.folder, entries@)
                    &&& r@ == walk_step(final(fs)@.tree, self@.path, self@.rounds + 1)
                },
                Err(_) => *final(fs) == *old(fs) && r@ == WalkStepView::Missing,
            },
    {
        match listing {
            Ok(entries) => {
                fs.tree.set_children(self.folder, entries);
                fs.resolve_from(self.path, self.rounds + 1)
            },
            Err(_) => WalkStep::Missing,
        }
    }

    /// Records a listing, and goes on with the walk to the attributes of its path.
    pub fn listed_for_attr(self, fs: &mut Fs, listing: Result<Vec<Entry>, Error>) -> (r: AttrStep)
        requires
            old(fs).wf(),
            self@.rounds < MAX_WALK,
        ensures
            final(fs).wf(),
            match listing {
                Ok(entries) => {
                    &&& final(fs)@ == old(fs)@.listed(self@.folder, entries@)
                    &&& r@ == final(fs)@.attr_behind(
                        walk_step(final(fs)@.tree, self@.path, self@.rounds + 1),
                    )
                },
                Err(_) => *final(fs) == *old(fs) && r@ == AttrStepView::Over(Err((-2) as i32)),
            },
    {
        let step = self.listed(fs, listing);
        fs.attr_behind(step)
    }
}

/// The handle that a program opened. A handle of 0 says that the path has to be resolved.
pub fn opened(fh: u64) -> (r: Option<u32>)
    ensures
        r == if fh == 0 {
            None::<u32>
        } else {
            Some(fh as u32)
        },
{
    if fh == 0 {
        None
    } else {
        Some(
            #[verifier::truncate]
            (fh as u32),
        )
    }
}

/// The count of bytes that a read hands over.
pub fn copied(len: usize, size: usize) -> (r: usize)
    ensures
        r == if len <= size {
            len
        } else {
            size
        },
{
    if len <= size {
        len
    } else {
        size
    }
}

/// The names that a folder with these objects shows.
fn names_of(entries: &Vec<&Entry>) -> (r: Vec<String>)
    ensures
        path::texts(r@) == shown_names(entries@.unref()),
{
    let mut out: Vec<String> = Vec::new();
    out.push(text::owned("."));
    out.push(text::owned(".."));
    let ghost all = shown_names(entries@.unref());
    let mut i: usize = 0;
    proof {
        assert(path::texts(out@) =~= all.take(2));
    }
    while i < entries.len()
        invariant
            i <= entries@.len(),
            all == shown_names(entries@.unref()),
            path::texts(out@) == all.take(i + 2),
        decreases entries@.len() - i,
    {
        let ghost before = out@;
        let name = path::shown_name(entries[i].name.as_str());
        proof {
            assert(entries@.unref()[i as int] == *entries@[i as int]);
            assert(all[i + 2] == shown(entries@[i as int].name@));
            assert(path::texts(before.push(name)) =~= path::texts(before).push(name@));
            assert(all.take(i + 3) =~= all.take(i + 2).push(all[i + 2]));
        }
        out.push(name);
        i = i + 1;
    }
    proof {
        assert(all.take(all.len() as int) =~= all);
    }
    out
}

/// How a walk along a path ends, or what it waits for, after the host answered some listings. A listing
/// that failed is `None`.
pub open spec fn walk_end(
    t: TreeView,
    path: Seq<char>,
    rounds: nat,
    answers: Seq<Option<Seq<Entry>>>,
) -> WalkStepView
    decreases answers.len(),
{
    match walk_step(t, path, rounds) {
        WalkStepView::List(w, p) => if answers.len() == 0 {
            WalkStepView::List(w, p)
        } else {
            match answers[0] {
                None => WalkStepView::Missing,
                Some(entries) => walk_end(
                    t.with_listing(p, entries),
                    path,
                    rounds + 1,
                    answers.skip(1),
                ),
            }
        },
        end => end,
    }
}

/// The tree after a walk along a path read some listings.
pub open spec fn tree_after(t: TreeView, path: Seq<char>, listings: Seq<Seq<Entry>>) -> TreeView
    decreases listings.len(),
{
    match t.walk(ROOT, path::parts(path)) {
        Lookup::NeedListing(p) => if listings.len() == 0 {
            t
        } else {
            tree_after(t.with_listing(p, listings[0]), path, listings.skip(1))
        },
        _ => t,
    }
}

/// Whether no listing of a walk along a path changes an object that the tree knows by then.
pub open spec fn all_keep_known(t: TreeView, path: Seq<char>, listings: Seq<Seq<Entry>>) -> bool
    decreases listings.len(),
{
    match t.walk(ROOT, path::parts(path)) {
        Lookup::NeedListing(p) => listings.len() == 0 || tree::keeps_known(t, listings[0])
            && all_keep_known(t.with_listing(p, listings[0]), path, listings.skip(1)),
        _ => true,
    }
}

/// A path cannot hold the host: whatever a device lists, a walk ends after as many listings as the
/// limit allows.
pub proof fn law_a_walk_always_ends(
    t: TreeView,
    path: Seq<char>,
    rounds: nat,
    answers: Seq<Option<Seq<Entry>>>,
)
    requires
        rounds + answers.len() >= 64,
    ensures
        !(walk_end(t, path, rounds, answers) is List),
    decreases answers.len(),
{
    if let WalkStepView::List(w, p) = walk_step(t, path, rounds) {
        if let Some(entries) = answers[0] {
            law_a_walk_always_ends(
                t.with_listing(p, entries),
                path,
                rounds + 1,
                answers.skip(1),
            );
        }
    }
}

/// The limit does not get in the way of a path that has fewer parts than the limit: after one listing
/// for each part the walk has ended, and it ended as the tree then answers. The device lists each object
/// in the same way each time.
pub proof fn law_a_short_path_is_resolved(
    t: TreeView,
    path: Seq<char>,
    listings: Seq<Seq<Entry>>,
)
    requires
        tree::is_closed(t),
        all_keep_known(t, path, listings),
        listings.len() == path::parts(path).len() < 64,
    ensures
        walk_end(t, path, 0, listings.map_values(|l: Seq<Entry>| Some(l))) == match tree_after(
            t,
            path,
            listings,
        ).walk(ROOT, path::parts(path)) {
            Lookup::Found(h) => WalkStepView::Found(h),
            _ => WalkStepView::Missing,
        },
        !(tree_after(t, path, listings).walk(ROOT, path::parts(path)) is NeedListing),
{
    lemma_listings_resolve(t, path, 0, listings);
}

proof fn lemma_listings_resolve(
    t: TreeView,
    path: Seq<char>,
    rounds: nat,
    listings: Seq<Seq<Entry>>,
)
    requires
        tree::is_closed(t),
        all_keep_known(t, path, listings),
        rounds + listings.len() < MAX_WALK,
        t.walk(ROOT, path::parts(path)) is NeedListing ==> tree::walked(
            t,
            ROOT,
            path::parts(path),
        ) + listings.len() >= path::parts(path).len(),
    ensures
        walk_end(t, path, rounds, listings.map_values(|l: Seq<Entry>| Some(l))) == match tree_after(
            t,
            path,
            listings,
        ).walk(ROOT, path::parts(path)) {
            Lookup::Found(h) => WalkStepView::Found(h),
            _ => WalkStepView::Missing,
        },
        !(tree_after(t, path, listings).walk(ROOT, path::parts(path)) is NeedListing),
    decreases listings.len(),
{
    let parts = path::parts(path);
    let answers = listings.map_values(|l: Seq<Entry>| Some(l));
    if let Lookup::NeedListing(p) = t.walk(ROOT, parts) {
        if listings.len() == 0 {
            tree::law_each_listing_takes_the_walk_further(t, ROOT, parts, Seq::empty());
        } else {
            let next = t.with_listing(p, listings[0]);
            tree::law_each_listing_takes_the_walk_further(t, ROOT, parts, listings[0]);
            tree::law_a_tree_stays_closed(t, p, listings[0]);
            assert(answers.skip(1) =~= listings.skip(1).map_values(|l: Seq<Entry>| Some(l)));
            lemma_listings_resolve(next, path, rounds + 1, listings.skip(1));
        }
    }
}

/// The bytes of a file from an offset on, as many as a read asks for and no more than the file has.
pub open spec fn part_of(file: Seq<u8>, offset: int, size: int) -> Seq<u8> {
    if offset >= file.len() {
        Seq::empty()
    } else if offset + size <= file.len() {
        file.subrange(offset, offset + size)
    } else {
        file.skip(offset)
    }
}

/// A read gives the bytes of the file that it asks for, from a device that gives what each request asks
/// for: no byte is missing, none is added, and it does not matter what the host read in advance.
pub proof fn law_a_read_gives_the_part_that_was_asked_for(
    fs: FsView,
    handle: u32,
    file: Seq<u8>,
    size: usize,
    offset: u64,
    held: Option<RangeView>,
)
    requires
        fs.tree.entries.contains_key(handle),
        fs.tree.entries[handle].size == file.len(),
        cache::agrees(held, handle, file),
    ensures
        match fs.read_step(Some(handle), size, offset) {
            ReadStep::Read { handle: h, offset: from, want, file_size } => {
                let front = cache::front_of(held, handle, offset as int, want as int);
                let at = offset + front.len();
                let count = cache::fetch_count(want - front.len(), at, file_size as int);
                let data = backend::device_bytes(file, at, count);
                &&& h == handle && from == offset && file_size == file.len()
                &&& if front.len() == want {
                    front == part_of(file, offset as int, size as int)
                } else {
                    cache::answer_of(front, data, want as int) == part_of(
                        file,
                        offset as int,
                        size as int,
                    )
                }
            },
            ReadStep::End => part_of(file, offset as int, size as int).len() == 0,
            ReadStep::Failed(_) => false,
        },
{
    if let ReadStep::Read { want, .. } = fs.read_step(Some(handle), size, offset) {
        cache::law_a_read_through_the_cache_gives_the_file(held, handle, file, offset, want as int);
        assert(part_of(file, offset as int, size as int) =~= file.subrange(
            offset as int,
            offset + want,
        ));
    }
}

/// A program sees a new file at once, with no byte, and what it wrote so far afterwards: the size is the
/// size of the bytes the host keeps, whatever the device holds.
pub proof fn law_a_file_has_the_size_that_was_written(
    fs: FsView,
    path: Seq<char>,
    parent: u32,
    offset: int,
    bytes: Seq<u8>,
    size: int,
)
    requires
        0 <= offset,
        0 <= size,
    ensures
        ({
            let new = fs.created(path, parent);
            &&& new.attr_step(path) == AttrStepView::Over(Ok(new_file_attr(0)))
            &&& new.wrote(path, offset, bytes).attr_step(path) == AttrStepView::Over(
                Ok(new_file_attr((offset + bytes.len()) as u64)),
            )
            &&& new.wrote(path, offset, bytes).truncated(path, size).attr_step(path)
                == AttrStepView::Over(Ok(new_file_attr(size as u64)))
        }),
{
}

/// The state after a program wrote pieces one behind the other to a new file.
pub open spec fn wrote_all(fs: FsView, path: Seq<char>, pieces: Seq<Seq<u8>>) -> FsView
    decreases pieces.len(),
{
    if pieces.len() == 0 {
        fs
    } else {
        let before = wrote_all(fs, path, pieces.drop_last());
        before.wrote(path, before.pending[path].data.len() as int, pieces.last())
    }
}

/// The bytes of pieces one behind the other.
pub open spec fn all_bytes(pieces: Seq<Seq<u8>>) -> Seq<u8>
    decreases pieces.len(),
{
    if pieces.len() == 0 {
        Seq::empty()
    } else {
        all_bytes(pieces.drop_last()) + pieces.last()
    }
}

/// What a program writes to a new file is what the host sends when the program closes the file: the same
/// bytes, in the same order, under the name and in the folder of the path. No file is kept then.
pub proof fn law_a_closed_file_holds_what_was_written(
    fs: FsView,
    path: Seq<char>,
    parent: u32,
    pieces: Seq<Seq<u8>>,
)
    ensures
        ({
            let done = wrote_all(fs.created(path, parent), path, pieces);
            &&& done.pending.contains_key(path)
            &&& done.pending[path] == PendingView {
                parent,
                name: path::name_of(path),
                data: all_bytes(pieces),
            }
            &&& done.tree == fs.tree
            &&& done.released(path).pending_attr(path) is None
            &&& done.released(path).pending == fs.pending.remove(path)
        }),
    decreases pieces.len(),
{
    let new = fs.created(path, parent);
    if pieces.len() > 0 {
        law_a_closed_file_holds_what_was_written(fs, path, parent, pieces.drop_last());
        let before = wrote_all(new, path, pieces.drop_last());
        pending::law_writes_in_order_append(before.pending[path].data, pieces.last());
        assert(wrote_all(new, path, pieces).released(path).pending =~= before.released(
            path,
        ).pending);
    } else {
        assert(new.released(path).pending =~= fs.pending.remove(path));
    }
}

/// A request on one path leaves the files that programs write under other paths as they are.
pub proof fn law_files_do_not_touch_each_other(
    fs: FsView,
    path: Seq<char>,
    other: Seq<char>,
    parent: u32,
    offset: int,
    bytes: Seq<u8>,
    size: int,
)
    requires
        path != other,
    ensures
        fs.created(path, parent).pending_attr(other) == fs.pending_attr(other),
        fs.wrote(path, offset, bytes).pending_attr(other) == fs.pending_attr(other),
        fs.truncated(path, size).pending_attr(other) == fs.pending_attr(other),
        fs.released(path).pending_attr(other) == fs.pending_attr(other),
        fs.pending.contains_key(other) ==> {
            &&& fs.created(path, parent).pending[other] == fs.pending[other]
            &&& fs.wrote(path, offset, bytes).pending[other] == fs.pending[other]
            &&& fs.truncated(path, size).pending[other] == fs.pending[other]
            &&& fs.released(path).pending[other] == fs.pending[other]
        },
{
}

/// After a change to a folder, a path that goes through the folder makes the host read it again, so the
/// next request sees the change.
pub proof fn law_a_changed_folder_is_read_again(
    fs: FsView,
    folder: Seq<char>,
    parent: u32,
    name: Seq<char>,
)
    requires
        fs.tree.walk(ROOT, path::parts(folder)) == Lookup::Found(parent),
        path::is_part(name),
    ensures
        walk_step(fs.forgot(parent).tree, folder + seq!['/'] + name, 0) == WalkStepView::List(
            WalkView { path: folder + seq!['/'] + name, rounds: 0, folder: parent },
            parent,
        ),
{
    path::law_parts_join(folder, name);
    path::law_a_name_is_one_part(name);
    assert(path::parts(folder) + seq![name] =~= path::parts(folder).push(name));
    tree::law_a_forgotten_folder_is_read_again(
        fs.tree,
        parent,
        path::parts(folder),
        name,
        parent,
    );
}

/// Whether attributes are those of a file with this size: its mode, one link, every byte of the size, and the
/// smallest count of blocks of 512 bytes that covers it.
pub open spec fn is_file_of(a: Attr, size: int) -> bool {
    &&& a.mode == 0o100_644
    &&& a.links == 1
    &&& a.size == size
    &&& 512 * a.blocks >= size
    &&& 512 * a.blocks < size + 512
    &&& a.block_size == 65536
}

/// Whether attributes are those of a folder.
pub open spec fn is_folder(a: Attr) -> bool {
    a.mode == 0o040_755 && a.links == 2 && a.size == 0 && a.blocks == 0 && a.block_size == 65536
}

/// The attributes of an object are what the tree knows of it. A file has the size of its object, for every
/// size, and as many blocks as cover it. The root and every other folder have the attributes of a folder, and
/// what is not known does not exist.
pub proof fn law_attributes_are_those_of_the_object(fs: &Fs, handle: Option<u32>, r: Result<Attr, i32>)
    requires
        call_ensures(Fs::getattr, (fs, handle), r),
    ensures
        handle is None ==> r == Err::<Attr, i32>((-2) as i32),
        handle == Some(0u32) ==> r is Ok && is_folder(r->Ok_0),
        handle is Some && handle->0 != 0 ==> {
            let known = fs@.tree.entries;
            let h = handle->0;
            &&& !known.contains_key(h) ==> r == Err::<Attr, i32>((-2) as i32)
            &&& known.contains_key(h) && known[h].is_dir ==> r is Ok && is_folder(r->Ok_0)
            &&& known.contains_key(h) && !known[h].is_dir ==> r is Ok && is_file_of(
                r->Ok_0,
                known[h].size as int,
            )
        },
{
}

/// The attributes of a path are those of the file that a program writes there, with as many bytes as were
/// written and no block yet; and otherwise those of the object that the path leads to. A path that leads
/// nowhere does not exist, and a folder that was not read yet is asked for.
pub proof fn law_the_attributes_of_a_path(fs: &Fs, path: &str, step: AttrStep)
    requires
        fs.wf(),
        call_ensures(Fs::attr, (fs, path), step),
    ensures
        fs@.pending.contains_key(path@) ==> {
            &&& step is Over
            &&& step->Over_0 is Ok
            &&& step->Over_0->Ok_0.mode == 0o100_644
            &&& step->Over_0->Ok_0.links == 1
            &&& fs@.pending[path@].data.len() <= u64::MAX ==> step->Over_0->Ok_0.size
                == fs@.pending[path@].data.len()
            &&& step->Over_0->Ok_0.blocks == 0
            &&& step->Over_0->Ok_0.block_size == 65536
        },
        !fs@.pending.contains_key(path@) ==> match fs@.tree.walk(0, path::parts(path@)) {
            Lookup::NotFound => step == AttrStep::Over(Err((-2) as i32)),
            Lookup::NeedListing(p) => {
                &&& step is List
                &&& step->List_1 == p
                &&& step->List_0@.path == path@
                &&& step->List_0@.rounds == 0
                &&& step->List_0@.folder == p
            },
            Lookup::Found(h) => {
                let known = fs@.tree.entries;
                &&& step is Over
                &&& h == 0 ==> step->Over_0 is Ok && is_folder(step->Over_0->Ok_0)
                &&& h != 0 && known.contains_key(h) && known[h].is_dir ==> step->Over_0 is Ok
                    && is_folder(step->Over_0->Ok_0)
                &&& h != 0 && known.contains_key(h) && !known[h].is_dir ==> step->Over_0 is Ok
                    && is_file_of(step->Over_0->Ok_0, known[h].size as int)
                &&& h != 0 && !known.contains_key(h) ==> step->Over_0 == Err::<Attr, i32>(
                    (-2) as i32,
                )
            },
        },
{
}

/// After a folder was listed, each file of the listing has the size of the listing in its attributes, and each
/// folder of it is a folder.
pub proof fn law_a_listed_object_has_its_attributes(
    fs: FsView,
    parent: u32,
    entries: Seq<Entry>,
    i: int,
)
    requires
        tree::is_distinct(entries),
        0 <= i < entries.len(),
        entries[i].handle != 0,
    ensures
        ({
            let a = fs.listed(parent, entries).attr(Some(entries[i].handle));
            &&& a is Ok
            &&& entries[i].is_dir ==> is_folder(a->Ok_0)
            &&& !entries[i].is_dir ==> is_file_of(a->Ok_0, entries[i].size as int)
        }),
        fs.listed(parent, entries).pending == fs.pending,
        fs.forgot(parent).pending == fs.pending,
{
    tree::law_a_listing_gives_its_objects(fs.tree, parent, entries);
}

/// The size in the attributes of a file and the bytes that a read gives agree: a read from the start that
/// takes at least the size is asked for exactly that many bytes, and a read at the size gives the end.
pub proof fn law_attributes_and_reads_agree(
    fs: &Fs,
    handle: u32,
    size: usize,
    a: Result<Attr, i32>,
    r: ReadStep,
    end: ReadStep,
)
    requires
        handle != 0,
        fs@.tree.entries.contains_key(handle),
        !fs@.tree.entries[handle].is_dir,
        call_ensures(Fs::getattr, (fs, Some(handle)), a),
        call_ensures(Fs::read, (fs, Some(handle), size, 0), r),
        call_ensures(Fs::read, (fs, Some(handle), size, a->Ok_0.size), end),
    ensures
        a is Ok,
        a->Ok_0.size == 0 ==> r is End,
        0 < a->Ok_0.size <= size ==> r == (ReadStep::Read {
            handle,
            offset: 0,
            want: a->Ok_0.size as usize,
            file_size: a->Ok_0.size,
        }),
        a->Ok_0.size > size ==> r == (ReadStep::Read {
            handle,
            offset: 0,
            want: size,
            file_size: a->Ok_0.size,
        }),
        end is End,
{
}

/// A read of what does not exist fails with 2.
pub proof fn law_what_cannot_be_read(fs: &Fs, handle: Option<u32>, size: usize, offset: u64, r: ReadStep)
    requires
        call_ensures(Fs::read, (fs, handle, size, offset), r),
        handle is None || !fs@.tree.entries.contains_key(handle->0),
    ensures
        r == ReadStep::Failed((-2) as i32),
{
}

/// A listed folder shows itself, the folder above and every object, in the order of the device: each name as
/// it is, but for a separator or a null in it, which show as underscores.
pub proof fn law_a_folder_shows_every_name(fs: &Fs, handle: Option<u32>, r: FolderStep)
    requires
        fs.wf(),
        call_ensures(Fs::readdir, (fs, handle), r),
    ensures
        handle is None ==> r == FolderStep::Failed((-2) as i32),
        handle is Some && !fs@.tree.is_listed(handle->0) ==> r == FolderStep::List(handle->0),
        handle is Some && fs@.tree.is_listed(handle->0) ==> {
            let entries = fs@.tree.listing(handle->0);
            &&& r is Names
            &&& r->Names_0@.len() == entries.len() + 2
            &&& r->Names_0@[0]@ == seq!['.']
            &&& r->Names_0@[1]@ == seq!['.', '.']
            &&& forall|i: int|
                0 <= i < entries.len() ==> shows((#[trigger] entries[i]).name@, r->Names_0@[i + 2]@)
        },
{
    if handle is Some && fs@.tree.is_listed(handle->0) {
        let entries = fs@.tree.listing(handle->0);
        let names = r->Names_0@;
        let all = shown_names(entries);
        assert(path::texts(names).len() == all.len());
        reveal_strlit(".");
        reveal_strlit("..");
        assert(path::texts(names)[0] == all[0]);
        assert(path::texts(names)[1] == all[1]);
        assert(names[0]@ =~= seq!['.']);
        assert(names[1]@ =~= seq!['.', '.']);
        assert forall|i: int| 0 <= i < entries.len() implies shows(
            (#[trigger] entries[i]).name@,
            names[i + 2]@,
        ) by {
            assert(path::texts(names)[i + 2] == all[i + 2]);
        }
    }
}

/// Whether a folder shows `out` for an object of this name.
pub open spec fn shows(name: Seq<char>, out: Seq<char>) -> bool {
    &&& out.len() == name.len()
    &&& forall|i: int|
        0 <= i < name.len() ==> #[trigger] out[i] == if name[i] == '/' || name[i] == '\0' {
            '_'
        } else {
            name[i]
        }
}

/// Only a file that is known can be opened. Nothing fails with 2, and a folder with 21.
pub proof fn law_what_can_be_opened(fs: &Fs, handle: Option<u32>, r: Result<u32, i32>)
    requires
        call_ensures(Fs::open, (fs, handle), r),
    ensures
        handle is None ==> r == Err::<u32, i32>((-2) as i32),
        handle is Some && fs@.tree.entries.contains_key(handle->0)
            && !fs@.tree.entries[handle->0].is_dir ==> r == Ok::<u32, i32>(handle->0),
        handle is Some && !(fs@.tree.entries.contains_key(handle->0)
            && !fs@.tree.entries[handle->0].is_dir) ==> r == Err::<u32, i32>((-21) as i32),
{
}

/// Only a known object other than the root can be removed, and only by the request for its kind. What is
/// removed is that object, and the folder that changes is the one that holds it.
pub proof fn law_what_can_be_removed(
    fs: &Fs,
    handle: Option<u32>,
    want_dir: bool,
    r: Result<(u32, u32), i32>,
)
    requires
        call_ensures(Fs::remove, (fs, handle, want_dir), r),
    ensures
        handle is None ==> r == Err::<(u32, u32), i32>((-2) as i32),
        handle == Some(0u32) ==> r == Err::<(u32, u32), i32>((-5) as i32),
        handle is Some && handle->0 != 0 ==> {
            let known = fs@.tree.entries;
            let h = handle->0;
            &&& !known.contains_key(h) ==> r == Err::<(u32, u32), i32>((-2) as i32)
            &&& known.contains_key(h) && known[h].is_dir == want_dir ==> r == Ok::<
                (u32, u32),
                i32,
            >((h, known[h].parent))
            &&& known.contains_key(h) && known[h].is_dir && !want_dir ==> r == Err::<
                (u32, u32),
                i32,
            >((-21) as i32)
            &&& known.contains_key(h) && !known[h].is_dir && want_dir ==> r == Err::<
                (u32, u32),
                i32,
            >((-20) as i32)
        },
{
}

/// A new folder gets the last part of its path as its name, and stands in the folder that the rest of the path
/// leads to. A path with no last part fails with 5, and a folder that does not exist with 2.
pub proof fn law_where_a_new_folder_stands(
    fs: &Fs,
    above: Seq<char>,
    name: Seq<char>,
    path: &str,
    parent: Option<u32>,
    r: Result<(u32, String), i32>,
    f: Result<String, i32>,
    split: (String, String),
)
    requires
        path@ == above + seq!['/'] + name,
        above.len() > 0,
        !name.contains('/'),
        call_ensures(Fs::mkdir, (fs, path, parent), r),
        call_ensures(Fs::folder_for_new, (fs, path), f),
        call_ensures(path::split_parent, (path,), split),
    ensures
        name.len() == 0 ==> r == Err::<(u32, String), i32>((-5) as i32) && f == Err::<String, i32>(
            (-5) as i32,
        ),
        name.len() > 0 ==> f is Ok && f->Ok_0@ == above,
        name.len() > 0 && parent is None ==> r == Err::<(u32, String), i32>((-2) as i32),
        name.len() > 0 && parent is Some ==> {
            &&& r matches Ok((h, n))
            &&& h == parent->0
            &&& n@ == name
        },
{
    path::law_a_path_splits_into_folder_and_name(above, name, path, split);
}

/// A new file gets the last part of its path as its name, stands in the given folder, and holds nothing. Every
/// other file that is being written stays, and so does the tree.
pub proof fn law_a_new_file_is_empty(
    fs: FsView,
    above: Seq<char>,
    name: Seq<char>,
    path: &str,
    parent: u32,
    split: (String, String),
)
    requires
        path@ == above + seq!['/'] + name,
        above.len() > 0,
        !name.contains('/'),
        call_ensures(path::split_parent, (path,), split),
    ensures
        fs.created(path@, parent).pending.contains_key(path@),
        fs.created(path@, parent).pending[path@].parent == parent,
        fs.created(path@, parent).pending[path@].name == name,
        fs.created(path@, parent).pending[path@].data.len() == 0,
        fs.created(path@, parent).tree == fs.tree,
{
    path::law_a_path_splits_into_folder_and_name(above, name, path, split);
}

/// What a write and a change of the length do to a file that is being written, byte by byte. The folder and
/// the name of the file stay.
pub proof fn law_what_writing_does_to_a_file(
    fs: FsView,
    path: Seq<char>,
    offset: int,
    bytes: Seq<u8>,
    size: int,
)
    requires
        fs.pending.contains_key(path),
        0 <= offset,
        0 <= size,
    ensures
        ({
            let was = fs.pending[path];
            let w = fs.wrote(path, offset, bytes).pending[path];
            let t = fs.truncated(path, size).pending[path];
            &&& w.parent == was.parent && w.name == was.name
            &&& t.parent == was.parent && t.name == was.name
            &&& w.data.len() == if offset + bytes.len() > was.data.len() {
                offset + bytes.len()
            } else {
                was.data.len() as int
            }
            &&& w.data.subrange(offset, offset + bytes.len()) == bytes
            &&& forall|i: int|
                0 <= i < was.data.len() && !(offset <= i < offset + bytes.len()) ==> #[trigger]
                    w.data[i] == was.data[i]
            &&& forall|i: int| was.data.len() <= i < offset ==> #[trigger] w.data[i] == 0
            &&& t.data.len() == size
            &&& forall|i: int|
                0 <= i < size && i < was.data.len() ==> #[trigger] t.data[i] == was.data[i]
            &&& forall|i: int| was.data.len() <= i < size ==> #[trigger] t.data[i] == 0
            &&& fs.wrote(path, offset, bytes).tree == fs.tree
            &&& fs.truncated(path, size).tree == fs.tree
            &&& fs.released(path).tree == fs.tree
        }),
{
    pending::law_a_write_changes_only_its_range(fs.pending[path].data, offset, bytes);
}

/// A request on an open file names the object by the number of the open file, which is 0 where nothing is open.
/// A reply never holds more than the request has room for.
pub proof fn law_open_numbers_and_replies(
    fh: u64,
    h: Option<u32>,
    len: usize,
    size: usize,
    n: usize,
)
    requires
        call_ensures(opened, (fh,), h),
        call_ensures(copied, (len, size), n),
    ensures
        fh == 0 ==> h is None,
        0 < fh <= u32::MAX ==> h is Some && h->0 == fh,
        n <= len && n <= size,
        n == len || n == size,
{
}

/// What a request that changes a file does, and what it answers. A new file needs a name and a folder. Only a
/// file that is being written can be written or cut, and the answer to a write is the count of its bytes. A
/// closed file is given to the host once, with all that it holds.
pub proof fn law_what_changes_a_file(
    path: &str,
    parent: Option<u32>,
    bytes: &[u8],
    offset: usize,
    size: usize,
)
    requires
        offset + bytes@.len() <= usize::MAX,
    ensures
        forall|fs: &mut Fs, r: i32| #[trigger]
            call_ensures(Fs::create, (fs, path, parent), r) ==> {
                let name = path::name_of(path@);
                &&& name.len() == 0 ==> r == -5 && final(fs)@ == (*fs)@
                &&& name.len() > 0 && parent is None ==> r == -2 && final(fs)@ == (*fs)@
                &&& name.len() > 0 && parent is Some ==> r == 0 && final(fs)@ == (*fs)@.created(
                    path@,
                    parent->0,
                )
            },
        forall|fs: &mut Fs, r: Result<usize, i32>| #[trigger]
            call_ensures(Fs::write, (fs, path, bytes, offset), r) ==> {
                &&& (*fs)@.pending.contains_key(path@) ==> r is Ok && r->Ok_0 == bytes@.len()
                    && final(fs)@ == (*fs)@.wrote(path@, offset as int, bytes@)
                &&& !(*fs)@.pending.contains_key(path@) ==> r == Err::<usize, i32>((-30) as i32)
                    && final(fs)@ == (*fs)@
            },
        forall|fs: &mut Fs, r: i32| #[trigger]
            call_ensures(Fs::truncate, (fs, path, size), r) ==> {
                &&& (*fs)@.pending.contains_key(path@) ==> r == 0 && final(fs)@ == (
                *fs)@.truncated(path@, size as int)
                &&& !(*fs)@.pending.contains_key(path@) ==> r == -30 && final(fs)@ == (*fs)@
            },
        forall|fs: &mut Fs, r: Option<Pending>| #[trigger]
            call_ensures(Fs::release, (fs, path), r) ==> {
                &&& (*fs)@.pending.contains_key(path@) ==> r is Some && r->0@
                    == (*fs)@.pending[path@]
                &&& !(*fs)@.pending.contains_key(path@) ==> r is None
                &&& !final(fs)@.pending.contains_key(path@)
                &&& final(fs)@.tree == (*fs)@.tree
            },
{
}

/// What a listing that the host hands back does. It is recorded for the folder that was asked for, and the walk
/// or the request goes on with it. A listing that failed changes nothing: a folder that is read then fails with
/// 5, and a path that is walked does not exist. A folder is read again after it changed, and only then.
pub proof fn law_what_a_listing_does(
    folder: u32,
    listing: Result<Vec<Entry>, Error>,
    w: Walk,
    done: bool,
)
    requires
        w@.rounds < 64,
    ensures
        forall|fs: &mut Fs, r: FolderStep| #[trigger]
            call_ensures(Fs::readdir_listed, (fs, folder, listing), r) ==> {
                &&& listing is Ok ==> r is Names && final(fs)@ == (*fs)@.listed(
                    folder,
                    listing->Ok_0@,
                ) && r->Names_0@.len() == final(fs)@.tree.listing(folder).len() + 2
                &&& listing is Err ==> r == FolderStep::Failed((-5) as i32) && final(fs)@ == (*fs)@
            },
        forall|fs: &mut Fs, r: WalkStep| #[trigger]
            call_ensures(Walk::listed, (w, fs, listing), r) ==> {
                &&& listing is Ok ==> final(fs)@ == (*fs)@.listed(w@.folder, listing->Ok_0@) && r@
                    == walk_step(final(fs)@.tree, w@.path, w@.rounds + 1)
                &&& listing is Err ==> r is Missing && final(fs)@ == (*fs)@
            },
        forall|fs: &mut Fs, r: AttrStep| #[trigger]
            call_ensures(Walk::listed_for_attr, (w, fs, listing), r) ==> {
                &&& listing is Ok ==> final(fs)@ == (*fs)@.listed(w@.folder, listing->Ok_0@) && r@
                    == final(fs)@.attr_behind(walk_step(final(fs)@.tree, w@.path, w@.rounds + 1))
                &&& listing is Err ==> r == AttrStep::Over(Err((-2) as i32)) && final(fs)@ == (
                *fs)@
            },
        forall|fs: &mut Fs, r: i32| #[trigger]
            call_ensures(Fs::changed, (fs, folder, done), r) ==> {
                &&& done ==> r == 0 && final(fs)@ == (*fs)@.forgot(folder)
                &&& !done ==> r == -5 && final(fs)@ == (*fs)@
            },
{
    assert forall|fs: &mut Fs, r: FolderStep| #[trigger]
        call_ensures(Fs::readdir_listed, (fs, folder, listing), r)
            && listing is Ok implies r->Names_0@.len() == final(fs)@.tree.listing(folder).len() + 2 by {
        let names = r->Names_0@;
        assert(path::texts(names).len() == names.len());
    }
}

/// What a step of a walk says: the object where the path leads, nothing where it leads nowhere, and otherwise the
/// folder that the host has to list, up to 64 of them.
pub proof fn law_what_a_walk_says(t: TreeView, path: Seq<char>, rounds: nat)
    ensures
        rounds >= 64 ==> walk_step(t, path, rounds) is Missing,
        rounds < 64 ==> match t.walk(0, path::parts(path)) {
            Lookup::Found(h) => walk_step(t, path, rounds) == WalkStepView::Found(h),
            Lookup::NotFound => walk_step(t, path, rounds) == WalkStepView::Missing,
            Lookup::NeedListing(p) => walk_step(t, path, rounds) == WalkStepView::List(
                WalkView { path, rounds, folder: p },
                p,
            ),
        },
{
}

/// A path is resolved from what the tree knows, with no listing read yet, and a file that is being written has
/// the size of what was written.
pub proof fn law_how_a_path_is_resolved(fs: &Fs, path: &str, r: WalkStep, a: Option<Attr>)
    requires
        fs.wf(),
        call_ensures(Fs::resolve, (fs, path), r),
        call_ensures(Fs::pending_attr, (fs, path), a),
    ensures
        r@ == walk_step(fs@.tree, path@, 0),
        a is Some <==> fs@.pending.contains_key(path@),
        a is Some && fs@.pending[path@].data.len() <= u64::MAX ==> a->0.size
            == fs@.pending[path@].data.len() && a->0.mode == 0o100_644,
{
}

} // verus!
