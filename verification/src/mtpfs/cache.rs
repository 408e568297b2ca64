//! Reading in advance.
//!
//! The kernel asks for a file in small pieces, and each request to the device costs time. The host
//! therefore reads more than one piece at once, and keeps the rest for the next read, which almost always
//! follows the last one. The cache holds one range of one object.

use vstd::prelude::*;

use crate::mtpfs::backend;

verus! {

/// The count of bytes the host reads in advance.
pub const READ_AHEAD: u64 = 4 * 1024 * 1024;

/// A range of an object.
#[derive(Debug)]
struct Range {
    handle: u32,
    offset: u64,
    data: Vec<u8>,
}

/// What the host read in advance.
#[derive(Debug)]
pub struct Cache {
    held: Option<Range>,
}

/// A range of an object, and its bytes.
pub struct RangeView {
    /// The object.
    pub handle: u32,
    /// Where the range starts.
    pub offset: u64,
    /// The bytes.
    pub data: Seq<u8>,
}

impl View for Cache {
    type V = Option<RangeView>;

    closed spec fn view(&self) -> Option<RangeView> {
        match self.held {
            Some(r) => Some(RangeView { handle: r.handle, offset: r.offset, data: r.data@ }),
            None => None,
        }
    }
}

/// What a read needs.
#[derive(Debug)]
pub enum CacheStep {
    /// Nothing: the cache holds every byte of the read.
    Held(Vec<u8>),
    /// The cache holds the front of the read. The host must read `count` bytes of the object from `offset`
    /// on, and hand them to [`Cache::fetched`].
    Fetch { front: Vec<u8>, offset: u64, count: u64 },
}

/// The front of a read that a range holds: as many of its bytes as the range has from the first one on.
pub open spec fn front_of(held: Option<RangeView>, handle: u32, offset: int, want: int) -> Seq<u8> {
    match held {
        Some(r) => {
            let from = offset - r.offset;
            if r.handle != handle || from < 0 || from >= r.data.len() {
                Seq::empty()
            } else if from + want <= r.data.len() {
                r.data.subrange(from, from + want)
            } else {
                r.data.skip(from)
            }
        },
        None => Seq::empty(),
    }
}

/// How much of an object the host reads for a read that lacks `missing` bytes from `offset` on: all of
/// them, and more in advance, up to the end of the file.
pub open spec fn fetch_count(missing: int, offset: int, file_size: int) -> int {
    let rest = file_size - offset;
    if rest <= missing || READ_AHEAD <= missing {
        missing
    } else if rest < READ_AHEAD {
        rest
    } else {
        READ_AHEAD as int
    }
}

/// What a read gives: the front that the cache held, and then what the device gave, up to the count that
/// was asked for.
pub open spec fn answer_of(front: Seq<u8>, fetched: Seq<u8>, want: int) -> Seq<u8> {
    if front.len() + fetched.len() <= want {
        front + fetched
    } else {
        front + fetched.take(want - front.len())
    }
}

impl Cache {
    /// A cache that holds nothing.
    pub fn new() -> (r: Self)
        ensures
            r@ is None,
    {
        Cache { held: None }
    }

    /// Gives the front of a read that the cache holds.
    fn front(&self, handle: u32, offset: u64, want: usize) -> (r: Vec<u8>)
        ensures
            r@ == front_of(self@, handle, offset as int, want as int),
    {
        match &self.held {
            Some(range) => {
                if range.handle != handle || offset < range.offset || offset - range.offset
                    >= range.data.len() as u64 {
                    return Vec::new();
                }
                let from: usize = (offset - range.offset) as usize;
                let to: usize = if range.data.len() - from >= want {
                    from + want
                } else {
                    range.data.len()
                };
                let part = vstd::slice::slice_subrange(range.data.as_slice(), from, to);
                let mut out: Vec<u8> = Vec::new();
                out.extend_from_slice(part);
                proof {
                    assert(out@ =~= front_of(self@, handle, offset as int, want as int));
                }
                out
            },
            None => Vec::new(),
        }
    }

    /// Starts a read of `want` bytes of an object with `file_size` bytes.
    ///
    /// A read that starts inside the cache and ends behind it takes its front from the cache and the rest
    /// from the device. A short answer would say that the file ends there.
    pub fn read(&self, handle: u32, offset: u64, want: usize, file_size: u64) -> (r: CacheStep)
        requires
            offset + want <= file_size,
        ensures
            ({
                let front = front_of(self@, handle, offset as int, want as int);
                if front.len() == want {
                    r is Held && r->Held_0@ == front
                } else {
                    &&& r is Fetch
                    &&& r->front@ == front
                    &&& r->offset == offset + front.len()
                    &&& r->count == fetch_count(
                        want - front.len(),
                        offset + front.len(),
                        file_size as int,
                    )
                }
            }),
    {
        let front = self.front(handle, offset, want);
        if front.len() == want {
            return CacheStep::Held(front);
        }
        let missing: u64 = (want - front.len()) as u64;
        let from: u64 = offset + front.len() as u64;
        let rest: u64 = file_size - from;
        let count: u64 = if rest <= missing || READ_AHEAD <= missing {
            missing
        } else if rest < READ_AHEAD {
            rest
        } else {
            READ_AHEAD
        };
        CacheStep::Fetch { front, offset: from, count }
    }

    /// Takes in what the device gave, keeps it for the next read, and gives the bytes of this one.
    pub fn fetched(&mut self, handle: u32, front: Vec<u8>, offset: u64, want: usize, data: Vec<u8>) -> (r:
        Vec<u8>)
        requires
            front@.len() <= want,
        ensures
            r@ == answer_of(front@, data@, want as int),
            final(self)@ == Some(RangeView { handle, offset, data: data@ }),
    {
        let mut out = front;
        let ghost before = out@;
        let missing: usize = want - out.len();
        if data.len() <= missing {
            out.extend_from_slice(data.as_slice());
            proof {
                assert(out@ =~= before + data@);
            }
        } else {
            let part = vstd::slice::slice_subrange(data.as_slice(), 0, missing);
            out.extend_from_slice(part);
            proof {
                assert(part@ =~= data@.take(missing as int));
                assert(out@ =~= before + data@.take(missing as int));
            }
        }
        self.held = Some(Range { handle, offset, data });
        out
    }

    /// Drops what the cache holds of an object that is gone.
    pub fn forget(&mut self, handle: u32)
        ensures
            final(self)@ == match old(self)@ {
                Some(r) => if r.handle == handle {
                    None
                } else {
                    old(self)@
                },
                None => None,
            },
    {
        let gone: bool = match &self.held {
            Some(r) => r.handle == handle,
            None => false,
        };
        if gone {
            self.held = None;
        }
    }
}

/// Whether a cache holds bytes of a file, where it holds bytes of that object.
pub open spec fn agrees(held: Option<RangeView>, handle: u32, file: Seq<u8>) -> bool {
    match held {
        Some(r) => r.handle == handle ==> r.offset + r.data.len() <= file.len() && r.data
            == file.subrange(r.offset as int, r.offset + r.data.len()),
        None => true,
    }
}

/// A read through the cache gives the bytes of the file, and as many as it asks for, whether they come
/// from the cache, from the device, or in part from both. The cache holds bytes of the file afterwards
/// too.
pub proof fn law_a_read_through_the_cache_gives_the_file(
    held: Option<RangeView>,
    handle: u32,
    file: Seq<u8>,
    offset: u64,
    want: int,
)
    requires
        agrees(held, handle, file),
        0 <= want,
        offset + want <= file.len() <= u64::MAX,
    ensures
        ({
            let front = front_of(held, handle, offset as int, want);
            let at = offset + front.len();
            let count = fetch_count(want - front.len(), at, file.len() as int);
            let data = backend::device_bytes(file, at, count);
            &&& front.len() <= want
            &&& front.len() == want ==> front == file.subrange(offset as int, offset + want)
            &&& answer_of(front, data, want) == file.subrange(offset as int, offset + want)
            &&& agrees(Some(RangeView { handle, offset: at as u64, data }), handle, file)
        }),
{
    let front = front_of(held, handle, offset as int, want);
    let at = offset + front.len();
    let count = fetch_count(want - front.len(), at, file.len() as int);
    let data = backend::device_bytes(file, at, count);
    assert(front =~= file.subrange(offset as int, at));
    assert(data =~= file.subrange(at, at + count));
    assert(answer_of(front, data, want) =~= file.subrange(offset as int, offset + want));
}

/// A read behind the last one costs no request while the host holds what it read in advance: behind one
/// request the cache holds every read that ends inside the range it asked for.
pub proof fn law_the_next_read_is_held(
    handle: u32,
    file: Seq<u8>,
    at: u64,
    missing: int,
    offset: int,
    want: int,
)
    requires
        at + missing <= file.len(),
        0 < missing,
        0 < want,
        at <= offset,
        offset + want <= at + fetch_count(missing, at as int, file.len() as int),
    ensures
        ({
            let count = fetch_count(missing, at as int, file.len() as int);
            let data = backend::device_bytes(file, at as int, count);
            let held = Some(RangeView { handle, offset: at, data });
            front_of(held, handle, offset, want).len() == want
        }),
{
}

/// The cache gives every byte that it holds of a read, from the first one on, and only bytes of the object
/// that is read.
pub proof fn law_the_cache_gives_all_that_it_holds(r: RangeView, handle: u32, offset: int, want: int)
    requires
        0 <= offset,
        0 <= want,
    ensures
        ({
            let front = front_of(Some(r), handle, offset, want);
            let end = r.offset + r.data.len();
            &&& r.handle == handle && r.offset <= offset < end ==> {
                &&& offset + want <= end ==> front.len() == want
                &&& offset + want > end ==> front.len() == end - offset
                &&& forall|i: int|
                    0 <= i < front.len() ==> #[trigger] front[i] == r.data[offset - r.offset + i]
            }
            &&& !(r.handle == handle && r.offset <= offset < end) ==> front.len() == 0
            &&& front_of(None, handle, offset, want).len() == 0
        }),
{
}

/// How much a read fetches: never less than it lacks, and no more than it lacks where that is 4 mebibytes or
/// reaches the end of the file. Otherwise it fetches 4 mebibytes, or all that is left of the file where that
/// is less.
pub proof fn law_how_far_a_read_reaches_ahead(missing: int, offset: int, file_size: int)
    requires
        0 < missing,
        0 <= offset,
        offset + missing <= file_size,
    ensures
        ({
            let count = fetch_count(missing, offset, file_size);
            &&& missing <= count
            &&& offset + count <= file_size
            &&& missing < count ==> count <= 0x40_0000
            &&& count < 0x40_0000 ==> offset + count == file_size
        }),
{
}

/// A read that the cache holds whole is answered from it, and any other is answered with what the cache holds of
/// it and with the range that the host has to fetch, which starts where the held bytes end.
pub proof fn law_what_a_read_of_the_cache_gives(
    c: &Cache,
    handle: u32,
    offset: u64,
    want: usize,
    file_size: u64,
    r: CacheStep,
)
    requires
        offset + want <= file_size,
        call_ensures(Cache::read, (c, handle, offset, want, file_size), r),
    ensures
        ({
            let front = front_of(c@, handle, offset as int, want as int);
            &&& front.len() == want ==> r is Held && r->Held_0@ == front
            &&& front.len() != want ==> {
                &&& r is Fetch
                &&& r->front@ == front
                &&& r->offset == offset + front.len()
                &&& r->count == fetch_count(
                    want - front.len(),
                    offset + front.len(),
                    file_size as int,
                )
            }
        }),
{
}

/// What was fetched is held from then on, whole and with its place, and the answer is the held front and as
/// many of the fetched bytes as the read lacks. Forgetting an object drops its bytes and no others.
pub proof fn law_what_is_fetched_is_held(
    handle: u32,
    front: Vec<u8>,
    offset: u64,
    want: usize,
    data: Vec<u8>,
    other: u32,
)
    requires
        front@.len() <= want,
    ensures
        forall|c: &mut Cache, r: Vec<u8>| #[trigger]
            call_ensures(Cache::fetched, (c, handle, front, offset, want, data), r) ==> {
                &&& final(c)@ == Some(RangeView { handle, offset, data: data@ })
                &&& front@.len() + data@.len() <= want ==> r@ == front@ + data@
                &&& front@.len() + data@.len() > want ==> r@.len() == want && r@ == (front@
                    + data@).take(want as int)
            },
        forall|c: &mut Cache| #[trigger]
            call_ensures(Cache::forget, (c, other), ()) ==> {
                &&& (*c)@ is Some && (*c)@->0.handle == other ==> final(c)@ is None
                &&& (*c)@ is Some && (*c)@->0.handle != other ==> final(c)@ == (*c)@
                &&& (*c)@ is None ==> final(c)@ is None
            },
{
    if front@.len() + data@.len() > want {
        assert((front@ + data@).take(want as int) =~= front@ + data@.take(want - front@.len()));
    }
}

} // verus!
