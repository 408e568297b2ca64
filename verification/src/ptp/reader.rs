//! A cursor over the fields of a dataset, and the writer of PTP strings.

use vstd::prelude::*;

use crate::ptp::bytes;
use crate::ptp::error::ParseError;
use crate::ptp::utf16;

verus! {

/// The most code units a PTP string holds beside its terminator.
pub const MAX_STRING_UNITS: usize = 254;

/// The fault of a field that needs `need` bytes where `got` remain.
pub open spec fn truncated(field: &'static str, need: int, got: int) -> ParseError {
    ParseError::Truncated { field, need: need as usize, got: got as usize }
}

/// The fault of the first field that does not fit, for fields of fixed widths that stand one
/// after the other from position `at` of a dataset of `len` bytes.
pub open spec fn missing_field(
    fields: Seq<(&'static str, int)>,
    at: int,
    len: int,
) -> Option<ParseError>
    decreases fields.len(),
{
    if fields.len() == 0 {
        None
    } else if at + fields[0].1 > len {
        Some(truncated(fields[0].0, fields[0].1, len - at))
    } else {
        missing_field(fields.drop_first(), at + fields[0].1, len)
    }
}

/// Code units without the terminator that may close them.
pub open spec fn without_terminator(units: Seq<u16>) -> Seq<u16> {
    if units.len() > 0 && units.last() == 0 {
        units.drop_last()
    } else {
        units
    }
}

/// The `count` code units that start at position `at`.
pub open spec fn units_at(s: Seq<u8>, at: int, count: nat) -> Seq<u16> {
    Seq::new(count, |i: int| bytes::u16_at(s, at + 2 * i))
}

/// The PTP string at position `at`: a count of code units, then the code units. The count takes
/// in a terminator, and a count of zero stands for the empty string.
pub open spec fn string_at(s: Seq<u8>, at: int, field: &'static str) -> Result<
    Seq<char>,
    ParseError,
> {
    if at + 1 > s.len() {
        Err(truncated(field, 1, s.len() - at))
    } else if s[at] == 0 {
        Ok(Seq::empty())
    } else if at + 1 + 2 * s[at] > s.len() {
        Err(truncated(field, 2 * s[at], s.len() - at - 1))
    } else {
        match utf16::decode(without_terminator(units_at(s, at + 1, s[at] as nat))) {
            Some(t) => Ok(t),
            None => Err(ParseError::BadString { field }),
        }
    }
}

/// Where the cursor stands after an attempt to read the PTP string at position `at`.
pub open spec fn after_string(s: Seq<u8>, at: int) -> int {
    if at + 1 > s.len() {
        at
    } else if at + 1 + 2 * s[at] > s.len() {
        at + 1
    } else {
        at + 1 + 2 * s[at]
    }
}

/// The PTP string at position `at`, or an empty text where none can be read.
pub open spec fn string_or_empty(s: Seq<u8>, at: int) -> Seq<char> {
    match string_at(s, at, "") {
        Ok(t) => t,
        Err(_) => Seq::empty(),
    }
}

/// The fault of the PTP string at position `at`.
pub open spec fn string_fault(s: Seq<u8>, at: int, field: &'static str) -> Option<ParseError> {
    match string_at(s, at, field) {
        Ok(_) => None,
        Err(e) => Some(e),
    }
}

/// The first of two faults, where the second one is looked for only without the first.
pub open spec fn first_fault(first: Option<ParseError>, second: Option<ParseError>) -> Option<
    ParseError,
> {
    match first {
        Some(e) => Some(e),
        None => second,
    }
}

/// The bytes that `count` elements of this width take, as far as a `usize` can count them.
pub open spec fn array_need(count: int, width: int) -> int {
    if count * width > usize::MAX {
        usize::MAX as int
    } else {
        count * width
    }
}

/// The fault of the PTP array at position `at`, whose elements have this width.
pub open spec fn array_fault(s: Seq<u8>, at: int, width: int, field: &'static str) -> Option<
    ParseError,
> {
    if at + 4 > s.len() {
        Some(truncated(field, 4, s.len() - at))
    } else if at + 4 + bytes::u32_at(s, at) * width > s.len() {
        Some(
            truncated(field, array_need(bytes::u32_at(s, at) as int, width), s.len() - at - 4),
        )
    } else {
        None
    }
}

/// Where the cursor stands after an attempt to read the PTP array at position `at`.
pub open spec fn after_array(s: Seq<u8>, at: int, width: int) -> int {
    if at + 4 > s.len() {
        at
    } else if at + 4 + bytes::u32_at(s, at) * width > s.len() {
        at + 4
    } else {
        at + 4 + bytes::u32_at(s, at) * width
    }
}

/// The elements of the `u16` array at position `at`.
pub open spec fn u16_array_at(s: Seq<u8>, at: int) -> Seq<u16> {
    Seq::new(bytes::u32_at(s, at) as nat, |i: int| bytes::u16_at(s, at + 4 + 2 * i))
}

/// The elements of the `u32` array at position `at`.
pub open spec fn u32_array_at(s: Seq<u8>, at: int) -> Seq<u32> {
    Seq::new(bytes::u32_at(s, at) as nat, |i: int| bytes::u32_at(s, at + 4 + 4 * i))
}

/// The bytes of a PTP string that holds these code units.
pub open spec fn string_bytes_of(units: Seq<u16>) -> Seq<u8> {
    seq![(units.len() + 1) as u8] + bytes::u16_list_bytes(units) + bytes::u16_bytes(0)
}

/// What a PTP string keeps of a text: all of it, or the longest front of whole characters that takes no
/// more than 254 code units.
pub open spec fn fitting(s: Seq<char>) -> Seq<char>
    decreases s.len(),
{
    if s.len() == 0 || utf16::encode(s).len() <= MAX_STRING_UNITS {
        s
    } else {
        fitting(s.drop_last())
    }
}

/// The bytes of a text as a PTP string, as far as it fits. The empty text takes one zero byte.
pub open spec fn string_bytes(s: Seq<char>) -> Seq<u8> {
    if s.len() == 0 {
        seq![0u8]
    } else {
        string_bytes_of(utf16::encode(fitting(s)))
    }
}

/// How many code units a PTP string keeps of a longer text: 254, or one less where the cut would part a
/// surrogate pair.
proof fn lemma_cut(s: Seq<char>)
    requires
        utf16::encode(s).len() > MAX_STRING_UNITS,
    ensures
        utf16::encode(fitting(s)) == utf16::encode(s).take(
            if utf16::is_high(utf16::encode(s)[MAX_STRING_UNITS - 1]) {
                MAX_STRING_UNITS - 1
            } else {
                MAX_STRING_UNITS as int
            },
        ),
    decreases s.len(),
{
    let units = utf16::encode(s);
    let front = s.drop_last();
    let before = utf16::encode(front);
    let last = MAX_STRING_UNITS - 1;
    utf16::lemma_char_is_whole(s.last());
    assert(fitting(s) == fitting(front));
    assert(before.len() <= MAX_STRING_UNITS ==> fitting(front) == front);
    if before.len() > MAX_STRING_UNITS {
        lemma_cut(front);
        assert(units[last] == before[last]);
        assert(units.take(last) =~= before.take(last));
        assert(units.take(last + 1) =~= before.take(last + 1));
    } else if before.len() == MAX_STRING_UNITS {
        utf16::lemma_encode_ends_whole(front);
        assert(units[last] == before.last());
        assert(units.take(last + 1) =~= before);
    } else {
        assert(before.len() == last);
        assert(units[last] == utf16::encode_char(s.last())[0]);
        assert(units.take(last) =~= before);
    }
}

/// Writes a PTP string into a buffer.
pub fn push_ptp_string(out: &mut Vec<u8>, s: &str)
    ensures
        final(out)@ == old(out)@ + string_bytes(s@),
{
    push_string(out, s)
}

/// Writes a PTP string into a buffer.
///
/// The first byte holds the count of code units, which takes in the terminator. A text that is too long is
/// cut, and never between the halves of a surrogate pair.
pub fn push_string(out: &mut Vec<u8>, s: &str)
    ensures
        final(out)@ == old(out)@ + string_bytes(s@),
{
    if s.is_empty() {
        out.push(0);
        return ;
    }
    let units: Vec<u16> = utf16::encode_utf16(s);
    let take: usize = if units.len() <= MAX_STRING_UNITS {
        units.len()
    } else if 0xd800 <= units[MAX_STRING_UNITS - 1] && units[MAX_STRING_UNITS - 1] <= 0xdbff {
        MAX_STRING_UNITS - 1
    } else {
        MAX_STRING_UNITS
    };
    proof {
        if units@.len() > MAX_STRING_UNITS {
            lemma_cut(s@);
        }
    }
    out.push((take + 1) as u8);
    let ghost head = out@;
    let ghost kept = units@.take(take as int);
    proof {
        assert(kept.take(0) =~= Seq::empty());
    }
    let mut i: usize = 0;
    while i < take
        invariant
            i <= take <= units@.len(),
            kept == units@.take(take as int),
            out@ == head + bytes::u16_list_bytes(kept.take(i as int)),
        decreases take - i,
    {
        bytes::push_u16(out, units[i]);
        proof {
            assert(kept.take(i + 1).drop_last() =~= kept.take(i as int));
            assert(out@ =~= head + bytes::u16_list_bytes(kept.take(i + 1)));
        }
        i = i + 1;
    }
    bytes::push_u16(out, 0);
    proof {
        assert(kept.take(take as int) =~= kept);
        assert(units@.take(units@.len() as int) =~= units@);
        assert(out@ =~= old(out)@ + string_bytes_of(kept));
    }
}

/// A cursor that reads fields from a buffer and checks every read.
pub struct Reader<'a> {
    buf: &'a [u8],
    pos: usize,
}

impl<'a> Reader<'a> {
    /// The bytes the cursor walks.
    pub closed spec fn bytes(self) -> Seq<u8> {
        self.buf@
    }

    /// The position of the cursor.
    pub closed spec fn at(self) -> int {
        self.pos as int
    }

    /// The cursor stands inside the buffer or at its end.
    pub open spec fn wf(self) -> bool {
        0 <= self.at() <= self.bytes().len() <= usize::MAX
    }

    /// Starts at the first byte of a buffer.
    pub fn new(buf: &'a [u8]) -> (r: Self)
        ensures
            r.wf(),
            r.bytes() == buf@,
            r.at() == 0,
    {
        assert(buf@.len() == buf.len());
        Reader { buf, pos: 0 }
    }

    /// Gives the count of bytes that are left.
    pub fn remaining(&self) -> (r: usize)
        requires
            self.wf(),
        ensures
            r == self.bytes().len() - self.at(),
    {
        self.buf.len() - self.pos
    }

    /// Takes `n` bytes, or reports how many bytes remain.
    pub fn take(&mut self, n: usize, field: &'static str) -> (r: Result<&'a [u8], ParseError>)
        requires
            old(self).wf(),
        ensures
            final(self).wf(),
            final(self).bytes() == old(self).bytes(),
            match r {
                Ok(t) => old(self).at() + n <= old(self).bytes().len() && final(self).at() == old(self).at() + n && t@ == old(self).bytes().subrange(old(self).at(), final(self).at()),
                Err(e) => old(self).at() + n > old(self).bytes().len() && final(self).at() == old(self).at() && e == truncated(
                    field,
                    n as int,
                    old(self).bytes().len() - old(self).at(),
                ),
            },
    {
        let left: usize = self.remaining();
        if left < n {
            return Err(ParseError::Truncated { field, need: n, got: left });
        }
        let out = vstd::slice::slice_subrange(self.buf, self.pos, self.pos + n);
        self.pos = self.pos + n;
        Ok(out)
    }

    /// Reads one byte.
    pub fn read_u8(&mut self, field: &'static str) -> (r: Result<u8, ParseError>)
        requires
            old(self).wf(),
        ensures
            fixed_read(*old(self), *final(self), field, 1, old(self).bytes()[old(self).at()], r),
    {
        let b = self.take(1, field)?;
        Ok(b[0])
    }

    /// Reads a `u16`.
    pub fn read_u16(&mut self, field: &'static str) -> (r: Result<u16, ParseError>)
        requires
            old(self).wf(),
        ensures
            fixed_read(*old(self), *final(self), field, 2, bytes::u16_at(old(self).bytes(), old(self).at()), r),
    {
        let b = self.take(2, field)?;
        Ok(bytes::read_u16_at(b, 0))
    }

    /// Reads a `u32`.
    pub fn read_u32(&mut self, field: &'static str) -> (r: Result<u32, ParseError>)
        requires
            old(self).wf(),
        ensures
            fixed_read(*old(self), *final(self), field, 4, bytes::u32_at(old(self).bytes(), old(self).at()), r),
    {
        let b = self.take(4, field)?;
        Ok(bytes::read_u32_at(b, 0))
    }

    /// Reads a `u64`.
    pub fn read_u64(&mut self, field: &'static str) -> (r: Result<u64, ParseError>)
        requires
            old(self).wf(),
        ensures
            fixed_read(*old(self), *final(self), field, 8, bytes::u64_at(old(self).bytes(), old(self).at()), r),
    {
        let b = self.take(8, field)?;
        Ok(bytes::read_u64_at(b, 0))
    }

    /// Reads a PTP string.
    ///
    /// The first byte holds the count of code units, which takes in the terminator. A count of 0
    /// means an empty string, and no bytes follow.
    pub fn read_string(&mut self, field: &'static str) -> (r: Result<String, ParseError>)
        requires
            old(self).wf(),
        ensures
            final(self).wf(),
            final(self).bytes() == old(self).bytes(),
            final(self).at() == after_string(old(self).bytes(), old(self).at()),
            match r {
                Ok(t) => string_at(old(self).bytes(), old(self).at(), field) == Ok::<
                    Seq<char>,
                    ParseError,
                >(t@),
                Err(e) => string_at(old(self).bytes(), old(self).at(), field) == Err::<
                    Seq<char>,
                    ParseError,
                >(e),
            },
    {
        let ghost s = self.bytes();
        let ghost start = self.at();
        let count: usize = self.read_u8(field)? as usize;
        if count == 0 {
            return Ok(String::new());
        }
        let block = self.take(count * 2, field)?;
        let mut units: Vec<u16> = Vec::new();
        let mut i: usize = 0;
        while i < count
            invariant
                i <= count <= 255,
                block@.len() == 2 * count,
                units@.len() == i,
                forall|k: int| 0 <= k < i ==> units@[k] == #[trigger] bytes::u16_at(block@, 2 * k),
            decreases count - i,
        {
            units.push(bytes::read_u16_at(block, 2 * i));
            i = i + 1;
        }
        proof {
            assert forall|k: int| 0 <= k < count implies #[trigger] units_at(
                s,
                start + 1,
                count as nat,
            )[k] == units@[k] by {
                assert(bytes::u16_at(block@, 2 * k) == bytes::u16_at(s, start + 1 + 2 * k));
            }
            assert(units@ =~= units_at(s, start + 1, count as nat));
        }
        if units[units.len() - 1] == 0 {
            units.pop();
        }
        match utf16::decode_utf16(units.as_slice()) {
            Some(t) => Ok(t),
            None => Err(ParseError::BadString { field }),
        }
    }

    /// Reads a PTP string, and gives an empty one where none can be read.
    pub fn read_string_or_empty(&mut self, field: &'static str) -> (r: String)
        requires
            old(self).wf(),
        ensures
            final(self).wf(),
            final(self).bytes() == old(self).bytes(),
            final(self).at() == after_string(old(self).bytes(), old(self).at()),
            r@ == string_or_empty(old(self).bytes(), old(self).at()),
    {
        match self.read_string(field) {
            Ok(t) => t,
            Err(_) => String::new(),
        }
    }

    /// Reads the count of a PTP array, and checks that the buffer holds that many elements.
    fn read_count(&mut self, width: usize, field: &'static str) -> (r: Result<usize, ParseError>)
        requires
            old(self).wf(),
            width == 2 || width == 4,
        ensures
            final(self).wf(),
            final(self).bytes() == old(self).bytes(),
            match r {
                Ok(count) => array_fault(
                    old(self).bytes(),
                    old(self).at(),
                    width as int,
                    field,
                ) is None && count == bytes::u32_at(old(self).bytes(), old(self).at()) && final(self).at() == old(self).at() + 4,
                Err(e) => array_fault(old(self).bytes(), old(self).at(), width as int, field)
                    == Some(e) && final(self).at() == after_array(
                    old(self).bytes(),
                    old(self).at(),
                    width as int,
                ),
            },
    {
        let count: usize = self.read_u32(field)? as usize;
        let left: usize = self.remaining();
        let need: usize = match count.checked_mul(width) {
            Some(n) => n,
            None => {
                return Err(ParseError::Truncated { field, need: usize::MAX, got: left });
            },
        };
        if left < need {
            return Err(ParseError::Truncated { field, need, got: left });
        }
        Ok(count)
    }

    /// Reads a PTP array of `u16`.
    pub fn read_u16_array(&mut self, field: &'static str) -> (r: Result<Vec<u16>, ParseError>)
        requires
            old(self).wf(),
        ensures
            final(self).wf(),
            final(self).bytes() == old(self).bytes(),
            final(self).at() == after_array(old(self).bytes(), old(self).at(), 2),
            match r {
                Ok(v) => array_fault(old(self).bytes(), old(self).at(), 2, field) is None && v@
                    == u16_array_at(old(self).bytes(), old(self).at()),
                Err(e) => array_fault(old(self).bytes(), old(self).at(), 2, field) == Some(e),
            },
    {
        let ghost s = self.bytes();
        let ghost start = self.at();
        let count: usize = self.read_count(2, field)?;
        let mut out: Vec<u16> = Vec::new();
        let mut i: usize = 0;
        while i < count
            invariant
                self.wf(),
                self.bytes() == s,
                self.at() == start + 4 + 2 * i,
                i <= count,
                start + 4 + 2 * count <= s.len(),
                count == bytes::u32_at(s, start),
                out@.len() == i,
                forall|k: int| 0 <= k < i ==> out@[k] == #[trigger] u16_array_at(s, start)[k],
                array_fault(s, start, 2, field) is None,
            decreases count - i,
        {
            let v: u16 = self.read_u16(field)?;
            out.push(v);
            i = i + 1;
        }
        Ok(out)
    }

    /// Reads a PTP array of `u32`.
    pub fn read_u32_array(&mut self, field: &'static str) -> (r: Result<Vec<u32>, ParseError>)
        requires
            old(self).wf(),
        ensures
            final(self).wf(),
            final(self).bytes() == old(self).bytes(),
            final(self).at() == after_array(old(self).bytes(), old(self).at(), 4),
            match r {
                Ok(v) => array_fault(old(self).bytes(), old(self).at(), 4, field) is None && v@
                    == u32_array_at(old(self).bytes(), old(self).at()),
                Err(e) => array_fault(old(self).bytes(), old(self).at(), 4, field) == Some(e),
            },
    {
        let ghost s = self.bytes();
        let ghost start = self.at();
        let count: usize = self.read_count(4, field)?;
        let mut out: Vec<u32> = Vec::new();
        let mut i: usize = 0;
        while i < count
            invariant
                self.wf(),
                self.bytes() == s,
                self.at() == start + 4 + 4 * i,
                i <= count,
                start + 4 + 4 * count <= s.len(),
                count == bytes::u32_at(s, start),
                out@.len() == i,
                forall|k: int| 0 <= k < i ==> out@[k] == #[trigger] u32_array_at(s, start)[k],
                array_fault(s, start, 4, field) is None,
            decreases count - i,
        {
            let v: u32 = self.read_u32(field)?;
            out.push(v);
            i = i + 1;
        }
        Ok(out)
    }
}

/// What reading a field of this width does: it gives the value and moves the cursor past the
/// field, or reports that the field does not fit and leaves the cursor where it was.
pub open spec fn fixed_read<T>(
    before: Reader,
    after: Reader,
    field: &'static str,
    width: int,
    value: T,
    r: Result<T, ParseError>,
) -> bool {
    &&& after.wf()
    &&& after.bytes() == before.bytes()
    &&& if before.at() + width <= before.bytes().len() {
        r == Ok::<T, ParseError>(value) && after.at() == before.at() + width
    } else {
        r == Err::<T, ParseError>(truncated(field, width, before.bytes().len() - before.at()))
            && after.at() == before.at()
    }
}

/// Reads a payload as a PTP array of `u32`.
pub fn parse_u32_array(data: &[u8]) -> (r: Result<Vec<u32>, ParseError>)
    ensures
        match r {
            Ok(v) => array_fault(data@, 0, 4, "array") is None && v@ == u32_array_at(data@, 0),
            Err(e) => array_fault(data@, 0, 4, "array") == Some(e),
        },
{
    let mut r = Reader::new(data);
    r.read_u32_array("array")
}

/// Whether a text is the longest front of another one that takes no more than 254 code units.
pub open spec fn is_longest_that_fits(t: Seq<char>, s: Seq<char>) -> bool {
    &&& t.len() <= s.len()
    &&& t == s.take(t.len() as int)
    &&& utf16::encode(t).len() <= MAX_STRING_UNITS
    &&& forall|k: int|
        t.len() < k <= s.len() ==> utf16::encode(#[trigger] s.take(k)).len() > MAX_STRING_UNITS
}

/// A PTP string keeps the longest front of whole characters that fits, and a text that fits as a whole.
pub proof fn law_a_string_keeps_the_longest_front(s: Seq<char>)
    ensures
        is_longest_that_fits(fitting(s), s),
        utf16::encode(s).len() <= MAX_STRING_UNITS ==> fitting(s) == s,
    decreases s.len(),
{
    if s.len() == 0 || utf16::encode(s).len() <= MAX_STRING_UNITS {
        assert(s.take(s.len() as int) =~= s);
    } else {
        let front = s.drop_last();
        let t = fitting(s);
        law_a_string_keeps_the_longest_front(front);
        assert(t =~= s.take(t.len() as int));
        assert forall|k: int| t.len() < k <= s.len() implies utf16::encode(
            #[trigger] s.take(k),
        ).len() > MAX_STRING_UNITS by {
            if k == s.len() {
                assert(s.take(k) =~= s);
            } else {
                assert(s.take(k) =~= front.take(k));
            }
        }
    }
}

/// Reading a written PTP string gives back what fits of the text, whatever text it is and whatever bytes
/// stand around it, and leaves the cursor behind the string.
pub proof fn law_string_reads_what_was_kept(
    before: Seq<u8>,
    s: Seq<char>,
    after: Seq<u8>,
    field: &'static str,
)
    ensures
        ({
            let whole = before + string_bytes(s) + after;
            let at = before.len() as int;
            &&& string_at(whole, at, field) == Ok::<Seq<char>, ParseError>(fitting(s))
            &&& after_string(whole, at) == at + string_bytes(s).len()
        }),
{
    let kept = utf16::encode(fitting(s));
    let head = seq![(kept.len() + 1) as u8];
    let tail = bytes::u16_bytes(0);
    let whole = before + string_bytes(s) + after;
    let at = before.len() as int;
    law_a_string_keeps_the_longest_front(s);
    if s.len() == 0 {
        assert(whole[at] == 0);
        assert(fitting(s) =~= Seq::empty());
    } else {
        bytes::lemma_u16_list_len(kept);
        assert(whole[at] == kept.len() + 1);
        let read = units_at(whole, at + 1, whole[at] as nat);
        assert forall|i: int| 0 <= i < read.len() implies read[i] == kept.push(0)[i] by {
            if i < kept.len() {
                bytes::lemma_u16_list_at(kept, before + head, tail + after, i);
                assert(whole =~= before + head + bytes::u16_list_bytes(kept) + (tail + after));
            } else {
                bytes::lemma_u16_round_trip(before + head + bytes::u16_list_bytes(kept), 0, after);
                assert(whole =~= before + head + bytes::u16_list_bytes(kept) + tail + after);
            }
        }
        assert(read =~= kept.push(0));
        assert(kept.push(0).drop_last() =~= kept);
        utf16::lemma_decode_encode(fitting(s));
    }
}

/// A text of at most 254 code units survives being written and read.
pub proof fn law_string_round_trip(
    before: Seq<u8>,
    s: Seq<char>,
    after: Seq<u8>,
    field: &'static str,
)
    requires
        utf16::encode(s).len() <= MAX_STRING_UNITS,
    ensures
        string_at(before + string_bytes(s) + after, before.len() as int, field) == Ok::<
            Seq<char>,
            ParseError,
        >(s),
        after_string(before + string_bytes(s) + after, before.len() as int) == before.len()
            + string_bytes(s).len(),
{
    law_string_reads_what_was_kept(before, s, after, field);
}

/// A PTP array of `u32` survives being written and read, whatever bytes stand around it.
pub proof fn law_u32_array_round_trip(
    before: Seq<u8>,
    v: Seq<u32>,
    after: Seq<u8>,
    field: &'static str,
)
    requires
        v.len() <= u32::MAX,
    ensures
        ({
            let whole = before + bytes::u32_bytes(v.len() as u32) + bytes::u32_list_bytes(v)
                + after;
            &&& array_fault(whole, before.len() as int, 4, field) is None
            &&& u32_array_at(whole, before.len() as int) == v
            &&& after_array(whole, before.len() as int, 4) == whole.len() - after.len()
        }),
{
    let count = bytes::u32_bytes(v.len() as u32);
    let list = bytes::u32_list_bytes(v);
    let whole = before + count + list + after;
    bytes::lemma_u32_list_len(v);
    bytes::lemma_u32_round_trip(before, v.len() as u32, list + after);
    assert(whole =~= before + count + (list + after));
    assert forall|i: int| 0 <= i < v.len() implies u32_array_at(whole, before.len() as int)[i]
        == v[i] by {
        bytes::lemma_u32_list_at(v, before + count, after, i);
    }
    assert(u32_array_at(whole, before.len() as int) =~= v);
}

/// A PTP array that can be read holds no more elements than the buffer has bytes for, so a
/// damaged count never asks for more memory than the device sent.
pub proof fn law_array_is_bounded_by_the_buffer(
    s: Seq<u8>,
    at: int,
    width: int,
    field: &'static str,
)
    requires
        0 <= at,
        width >= 1,
        array_fault(s, at, width, field) is None,
    ensures
        bytes::u32_at(s, at) * width <= s.len() - at - 4,
        bytes::u32_at(s, at) <= s.len(),
        after_array(s, at, width) <= s.len(),
{
    let count = bytes::u32_at(s, at) as int;
    assert(count <= count * width) by (nonlinear_arith)
        requires
            count >= 0,
            width >= 1,
    ;
}

/// Bytes behind a PTP string that can be read change nothing about it.
pub proof fn lemma_string_ignores_trailing_bytes(
    p: Seq<u8>,
    extra: Seq<u8>,
    at: int,
    field: &'static str,
)
    requires
        0 <= at,
        string_at(p, at, field) is Ok,
    ensures
        string_at(p + extra, at, field) == string_at(p, at, field),
        after_string(p + extra, at) == after_string(p, at),
{
    let count = p[at] as nat;
    assert(units_at(p + extra, at + 1, count) =~= units_at(p, at + 1, count));
}

/// A PTP string reads as the text that its code units spell, whatever code units they are: one zero unit at
/// the end is a terminator, and every other unit counts. The cursor then stands behind all of them.
pub proof fn law_a_string_reads_its_units(
    before: Seq<u8>,
    units: Seq<u16>,
    after: Seq<u8>,
    field: &'static str,
)
    requires
        1 <= units.len() <= 255,
    ensures
        ({
            let whole = before + seq![units.len() as u8] + bytes::u16_list_bytes(units) + after;
            let at = before.len() as int;
            let spelled = if units.last() == 0 {
                units.drop_last()
            } else {
                units
            };
            &&& after_string(whole, at) == at + 1 + 2 * units.len()
            &&& match string_at(whole, at, field) {
                Ok(t) => spelled == utf16::encode(t),
                Err(e) => e == ParseError::BadString { field } && forall|t: Seq<char>|
                    spelled != #[trigger] utf16::encode(t),
            }
        }),
{
    let head = seq![units.len() as u8];
    let list = bytes::u16_list_bytes(units);
    let whole = before + head + list + after;
    let at = before.len() as int;
    bytes::lemma_u16_list_len(units);
    assert(whole[at] == units.len());
    let read = units_at(whole, at + 1, units.len());
    assert forall|i: int| 0 <= i < units.len() implies read[i] == units[i] by {
        bytes::lemma_u16_list_at(units, before + head, after, i);
    }
    assert(read =~= units);
    let spelled = if units.last() == 0 {
        units.drop_last()
    } else {
        units
    };
    match utf16::decode(spelled) {
        Some(t) => {
            utf16::law_units_spell_what_they_are_the_writing_of(spelled, t);
        },
        None => {
            assert forall|t: Seq<char>| spelled != #[trigger] utf16::encode(t) by {
                utf16::law_units_spell_what_they_are_the_writing_of(spelled, t);
            }
        },
    }
}

/// A PTP string that the buffer does not hold whole is an error that says how many bytes are missing: the
/// byte of the count, or the units that the count declares. An empty string takes the one byte of its count.
pub proof fn law_a_string_must_be_whole(s: Seq<u8>, at: int, field: &'static str)
    requires
        0 <= at <= s.len(),
    ensures
        at == s.len() ==> string_at(s, at, field) == Err::<Seq<char>, ParseError>(
            ParseError::Truncated { field, need: 1, got: 0 },
        ),
        at < s.len() && s[at] == 0 ==> string_at(s, at, field) == Ok::<Seq<char>, ParseError>(
            Seq::empty(),
        ) && after_string(s, at) == at + 1,
        at < s.len() && at + 1 + 2 * s[at] > s.len() ==> string_at(s, at, field) == Err::<
            Seq<char>,
            ParseError,
        >(
            ParseError::Truncated {
                field,
                need: (2 * s[at]) as usize,
                got: (s.len() - at - 1) as usize,
            },
        ),
{
}

/// A PTP array of `u16` survives being written and read, whatever bytes stand around it.
pub proof fn law_u16_array_round_trip(
    before: Seq<u8>,
    v: Seq<u16>,
    after: Seq<u8>,
    field: &'static str,
)
    requires
        v.len() <= u32::MAX,
    ensures
        ({
            let whole = before + bytes::u32_bytes(v.len() as u32) + bytes::u16_list_bytes(v)
                + after;
            &&& array_fault(whole, before.len() as int, 2, field) is None
            &&& u16_array_at(whole, before.len() as int) == v
            &&& after_array(whole, before.len() as int, 2) == whole.len() - after.len()
        }),
{
    let count = bytes::u32_bytes(v.len() as u32);
    let list = bytes::u16_list_bytes(v);
    let whole = before + count + list + after;
    bytes::lemma_u16_list_len(v);
    bytes::lemma_u32_round_trip(before, v.len() as u32, list + after);
    assert(whole =~= before + count + (list + after));
    assert forall|i: int| 0 <= i < v.len() implies u16_array_at(whole, before.len() as int)[i]
        == v[i] by {
        bytes::lemma_u16_list_at(v, before + count, after, i);
    }
    assert(u16_array_at(whole, before.len() as int) =~= v);
}

/// A PTP array can be read exactly where the buffer holds its count and all of its elements, and the error
/// says what is missing otherwise.
pub proof fn law_an_array_must_be_whole(s: Seq<u8>, at: int, width: int, field: &'static str)
    requires
        0 <= at <= s.len(),
        width == 2 || width == 4,
    ensures
        array_fault(s, at, width, field) is None <==> at + 4 <= s.len() && at + 4 + width
            * bytes::u32_at(s, at) <= s.len(),
        s.len() < at + 4 ==> array_fault(s, at, width, field) == Some(
            ParseError::Truncated { field, need: 4, got: (s.len() - at) as usize },
        ),
        at + 4 <= s.len() && array_fault(s, at, width, field) is Some && width * bytes::u32_at(s, at)
            <= usize::MAX ==> array_fault(s, at, width, field) == Some(
            ParseError::Truncated {
                field,
                need: (width * bytes::u32_at(s, at)) as usize,
                got: (s.len() - at - 4) as usize,
            },
        ),
{
    assert(width * bytes::u32_at(s, at) == bytes::u32_at(s, at) * width) by (nonlinear_arith);
}

/// The bytes that fields take together.
pub open spec fn width_of(fields: Seq<(&'static str, int)>) -> int
    decreases fields.len(),
{
    if fields.len() == 0 {
        0
    } else {
        fields[0].1 + width_of(fields.drop_first())
    }
}

/// Fields fit exactly where the dataset holds all of their bytes. Otherwise the first field that reaches
/// past the end is named, with the bytes that it needs and those that are left for it.
pub proof fn law_the_first_field_that_does_not_fit_is_named(
    fields: Seq<(&'static str, int)>,
    at: int,
    len: int,
    i: int,
)
    requires
        forall|k: int| 0 <= k < fields.len() ==> (#[trigger] fields[k]).1 >= 0,
        0 <= i <= fields.len(),
        at <= len,
    ensures
        i == fields.len() && at + width_of(fields) <= len ==> missing_field(fields, at, len) is None,
        i < fields.len() && at + width_of(fields.take(i)) <= len < at + width_of(fields.take(i))
            + fields[i].1 ==> missing_field(fields, at, len) == Some(
            ParseError::Truncated {
                field: fields[i].0,
                need: fields[i].1 as usize,
                got: (len - at - width_of(fields.take(i))) as usize,
            },
        ),
    decreases fields.len(),
{
    lemma_width_is_no_debt(fields);
    if fields.len() > 0 {
        let rest = fields.drop_first();
        assert forall|k: int| 0 <= k < rest.len() implies (#[trigger] rest[k]).1 >= 0 by {
            assert(rest[k] == fields[k + 1]);
        }
        lemma_width_is_no_debt(rest);
        if i > 0 {
            if at + fields[0].1 <= len {
                law_the_first_field_that_does_not_fit_is_named(rest, at + fields[0].1, len, i - 1);
            }
            assert(fields.take(i).drop_first() =~= rest.take(i - 1));
            assert forall|k: int| 0 <= k < rest.take(i - 1).len() implies (#[trigger] rest.take(
                i - 1,
            )[k]).1 >= 0 by {
                assert(rest.take(i - 1)[k] == fields[k + 1]);
            }
            lemma_width_is_no_debt(rest.take(i - 1));
        } else {
            assert(fields.take(0) =~= Seq::empty());
        }
    }
}

proof fn lemma_width_is_no_debt(fields: Seq<(&'static str, int)>)
    requires
        forall|k: int| 0 <= k < fields.len() ==> (#[trigger] fields[k]).1 >= 0,
    ensures
        width_of(fields) >= 0,
    decreases fields.len(),
{
    if fields.len() > 0 {
        let rest = fields.drop_first();
        assert forall|k: int| 0 <= k < rest.len() implies (#[trigger] rest[k]).1 >= 0 by {
            assert(rest[k] == fields[k + 1]);
        }
        lemma_width_is_no_debt(rest);
    }
}

/// A reader gives each number as the value of its bytes at the cursor, and moves behind them. Where the bytes are
/// not there it says how many are, and stays.
pub proof fn law_a_reader_gives_the_bytes_at_its_cursor(field: &'static str)
    ensures
        forall|r: &mut Reader, v: Result<u8, ParseError>| #[trigger]
            call_ensures(Reader::read_u8, (r, field), v) ==> {
                let left = (*r).bytes().len() - (*r).at();
                &&& final(r).bytes() == (*r).bytes()
                &&& left >= 1 ==> v is Ok && v->Ok_0 == (*r).bytes()[(*r).at()] && final(r).at() == (
                *r).at() + 1
                &&& left < 1 ==> v is Err && final(r).at() == (*r).at()
            },
        forall|r: &mut Reader, v: Result<u16, ParseError>| #[trigger]
            call_ensures(Reader::read_u16, (r, field), v) ==> {
                let left = (*r).bytes().len() - (*r).at();
                &&& final(r).bytes() == (*r).bytes()
                &&& left >= 2 ==> v is Ok && v->Ok_0 == bytes::u16_at((*r).bytes(), (*r).at())
                    && final(r).at() == (*r).at() + 2
                &&& left < 2 ==> v is Err && final(r).at() == (*r).at()
            },
        forall|r: &mut Reader, v: Result<u32, ParseError>| #[trigger]
            call_ensures(Reader::read_u32, (r, field), v) ==> {
                let left = (*r).bytes().len() - (*r).at();
                &&& final(r).bytes() == (*r).bytes()
                &&& left >= 4 ==> v is Ok && v->Ok_0 == bytes::u32_at((*r).bytes(), (*r).at())
                    && final(r).at() == (*r).at() + 4
                &&& left < 4 ==> v is Err && final(r).at() == (*r).at()
            },
        forall|r: &mut Reader, v: Result<u64, ParseError>| #[trigger]
            call_ensures(Reader::read_u64, (r, field), v) ==> {
                let left = (*r).bytes().len() - (*r).at();
                &&& final(r).bytes() == (*r).bytes()
                &&& left >= 8 ==> v is Ok && v->Ok_0 == bytes::u64_at((*r).bytes(), (*r).at())
                    && final(r).at() == (*r).at() + 8
                &&& left < 8 ==> v is Err && final(r).at() == (*r).at()
            },
{
}

/// An array that is read as a whole payload gives all of its values.
pub proof fn law_a_payload_reads_as_its_array(
    v: Seq<u32>,
    tail: Seq<u8>,
    data: &[u8],
    r: Result<Vec<u32>, ParseError>,
)
    requires
        v.len() <= u32::MAX,
        data@ == bytes::u32_bytes(v.len() as u32) + bytes::u32_list_bytes(v) + tail,
        call_ensures(parse_u32_array, (data,), r),
    ensures
        r is Ok,
        r->Ok_0@ == v,
{
    law_u32_array_round_trip(Seq::empty(), v, tail, "array");
    assert(Seq::<u8>::empty() + bytes::u32_bytes(v.len() as u32) + bytes::u32_list_bytes(v) + tail
        =~= data@);
}

/// What writing a string appends: one byte for an empty text. Any other text is its code units with a zero
/// behind them, and the count of both in front, up to 254 units of the text.
pub proof fn law_what_a_written_string_holds(s: &str)
    ensures
        forall|out: &mut Vec<u8>| #[trigger]
            call_ensures(push_ptp_string, (out, s), ()) ==> {
                &&& s@.len() == 0 ==> final(out)@ == (*out)@ + seq![0u8]
                &&& s@.len() > 0 && utf16::encode(s@).len() <= 254 ==> final(out)@ == (*out)@ + seq![
                    (utf16::encode(s@).len() + 1) as u8,
                ] + bytes::u16_list_bytes(utf16::encode(s@)) + seq![0u8, 0u8]
            },
{
    law_a_string_keeps_the_longest_front(s@);
    assert forall|out: &mut Vec<u8>| #[trigger]
        call_ensures(push_ptp_string, (out, s), ()) && s@.len() > 0 && utf16::encode(s@).len()
            <= 254 implies final(out)@ == (*out)@ + seq![(utf16::encode(s@).len() + 1) as u8]
        + bytes::u16_list_bytes(utf16::encode(s@)) + seq![0u8, 0u8] by {
        assert(bytes::u16_bytes(0) =~= seq![0u8, 0u8]);
        assert(final(out)@ =~= (*out)@ + seq![(utf16::encode(s@).len() + 1) as u8]
            + bytes::u16_list_bytes(utf16::encode(s@)) + seq![0u8, 0u8]);
    }
}

/// Taking bytes gives exactly the next ones, as many as asked for, or says how many are left and takes none.
pub proof fn law_taking_gives_the_next_bytes<'a>(n: usize, field: &'static str)
    ensures
        forall|r: &mut Reader<'a>, t: Result<&'a [u8], ParseError>| #[trigger]
            call_ensures(Reader::<'a>::take, (r, n, field), t) ==> {
                let left = (*r).bytes().len() - (*r).at();
                &&& final(r).bytes() == (*r).bytes()
                &&& n <= left ==> t is Ok && t->Ok_0@ == (*r).bytes().subrange(
                    (*r).at(),
                    (*r).at() + n,
                ) && final(r).at() == (*r).at() + n
                &&& n > left ==> t == Err::<&'a [u8], ParseError>(
                    ParseError::Truncated { field, need: n, got: left as usize },
                ) && final(r).at() == (*r).at()
            },
{
}

/// Where a string or an array is cut short, only its count is passed over, and where even the count is missing,
/// nothing is.
pub proof fn law_where_a_cut_short_field_leaves_the_cursor(s: Seq<u8>, at: int, width: int)
    requires
        0 <= at <= s.len(),
        width == 2 || width == 4,
    ensures
        at == s.len() ==> after_string(s, at) == at,
        at < s.len() && at + 1 + 2 * s[at] > s.len() ==> after_string(s, at) == at + 1,
        s.len() < at + 4 ==> after_array(s, at, width) == at,
        at + 4 <= s.len() && at + 4 + width * bytes::u32_at(s, at) > s.len() ==> after_array(
            s,
            at,
            width,
        ) == at + 4,
        at + 4 <= s.len() && at + 4 + width * bytes::u32_at(s, at) <= s.len() ==> after_array(
            s,
            at,
            width,
        ) == at + 4 + width * bytes::u32_at(s, at),
{
}

} // verus!
