//! Little-endian integers in byte sequences.

use vstd::prelude::*;

verus! {

/// The `u16` at position `at`, least significant byte first.
pub open spec fn u16_at(s: Seq<u8>, at: int) -> u16 {
    (s[at] + 0x100 * s[at + 1]) as u16
}

/// The `u32` at position `at`, least significant byte first.
pub open spec fn u32_at(s: Seq<u8>, at: int) -> u32 {
    (s[at] + 0x100 * s[at + 1] + 0x1_0000 * s[at + 2] + 0x100_0000 * s[at + 3]) as u32
}

/// The `u64` at position `at`, least significant byte first.
pub open spec fn u64_at(s: Seq<u8>, at: int) -> u64 {
    (u32_at(s, at) + 0x1_0000_0000 * u32_at(s, at + 4)) as u64
}

/// The two bytes of `v`, least significant byte first.
pub open spec fn u16_bytes(v: u16) -> Seq<u8> {
    seq![(v % 0x100) as u8, (v / 0x100) as u8]
}

/// The four bytes of `v`, least significant byte first.
pub open spec fn u32_bytes(v: u32) -> Seq<u8> {
    seq![
        (v % 0x100) as u8,
        (v / 0x100 % 0x100) as u8,
        (v / 0x1_0000 % 0x100) as u8,
        (v / 0x100_0000) as u8,
    ]
}

/// The bytes of every element, in order.
pub open spec fn u32_list_bytes(v: Seq<u32>) -> Seq<u8>
    decreases v.len(),
{
    if v.len() == 0 {
        Seq::empty()
    } else {
        u32_list_bytes(v.drop_last()) + u32_bytes(v.last())
    }
}

/// The bytes of every element, in order.
pub open spec fn u16_list_bytes(v: Seq<u16>) -> Seq<u8>
    decreases v.len(),
{
    if v.len() == 0 {
        Seq::empty()
    } else {
        u16_list_bytes(v.drop_last()) + u16_bytes(v.last())
    }
}

/// Reads the `u16` at position `at`.
pub fn read_u16_at(s: &[u8], at: usize) -> (r: u16)
    requires
        at + 2 <= s@.len(),
    ensures
        r == u16_at(s@, at as int),
{
    s[at] as u16 + 0x100 * (s[at + 1] as u16)
}

/// Reads the `u32` at position `at`.
pub fn read_u32_at(s: &[u8], at: usize) -> (r: u32)
    requires
        at + 4 <= s@.len(),
    ensures
        r == u32_at(s@, at as int),
{
    s[at] as u32 + 0x100 * (s[at + 1] as u32) + 0x1_0000 * (s[at + 2] as u32) + 0x100_0000 * (
    s[at + 3] as u32)
}

/// Reads the `u64` at position `at`.
pub fn read_u64_at(s: &[u8], at: usize) -> (r: u64)
    requires
        at + 8 <= s@.len(),
    ensures
        r == u64_at(s@, at as int),
{
    let low: u32 = read_u32_at(s, at);
    assert(s@.len() == s.len());
    let high: u32 = read_u32_at(s, at + 4);
    low as u64 + 0x1_0000_0000 * (high as u64)
}

/// Appends the two bytes of `v`.
pub fn push_u16(out: &mut Vec<u8>, v: u16)
    ensures
        final(out)@ == old(out)@ + u16_bytes(v),
{
    out.push((v % 0x100) as u8);
    out.push((v / 0x100) as u8);
}

/// Appends the four bytes of `v`.
pub fn push_u32(out: &mut Vec<u8>, v: u32)
    ensures
        final(out)@ == old(out)@ + u32_bytes(v),
{
    out.push((v % 0x100) as u8);
    out.push((v / 0x100 % 0x100) as u8);
    out.push((v / 0x1_0000 % 0x100) as u8);
    out.push((v / 0x100_0000) as u8);
}

/// Writing a `u16` and reading it back gives the same value, whatever bytes stand around it.
pub proof fn lemma_u16_round_trip(before: Seq<u8>, v: u16, after: Seq<u8>)
    ensures
        u16_at(before + u16_bytes(v) + after, before.len() as int) == v,
        u16_bytes(v).len() == 2,
{
    let s = before + u16_bytes(v) + after;
    assert(s[before.len() as int] == u16_bytes(v)[0]);
    assert(s[before.len() as int + 1] == u16_bytes(v)[1]);
}

/// Writing a `u32` and reading it back gives the same value, whatever bytes stand around it.
pub proof fn lemma_u32_round_trip(before: Seq<u8>, v: u32, after: Seq<u8>)
    ensures
        u32_at(before + u32_bytes(v) + after, before.len() as int) == v,
        u32_bytes(v).len() == 4,
{
    let s = before + u32_bytes(v) + after;
    assert(s[before.len() as int] == u32_bytes(v)[0]);
    assert(s[before.len() as int + 1] == u32_bytes(v)[1]);
    assert(s[before.len() as int + 2] == u32_bytes(v)[2]);
    assert(s[before.len() as int + 3] == u32_bytes(v)[3]);
}

/// Element `i` of a written list stands at byte `4 * i`.
pub proof fn lemma_u32_list_at(v: Seq<u32>, before: Seq<u8>, after: Seq<u8>, i: int)
    requires
        0 <= i < v.len(),
    ensures
        u32_at(before + u32_list_bytes(v) + after, before.len() + 4 * i) == v[i],
    decreases v.len(),
{
    let rest = v.drop_last();
    lemma_u32_list_len(v);
    lemma_u32_list_len(rest);
    let whole = before + u32_list_bytes(v) + after;
    if i == v.len() - 1 {
        lemma_u32_round_trip(before + u32_list_bytes(rest), v.last(), after);
        assert(whole =~= before + u32_list_bytes(rest) + u32_bytes(v.last()) + after);
    } else {
        lemma_u32_list_at(rest, before, u32_bytes(v.last()) + after, i);
        assert(whole =~= before + u32_list_bytes(rest) + (u32_bytes(v.last()) + after));
    }
}

/// A list of `u32` takes four bytes for each element.
pub proof fn lemma_u32_list_len(v: Seq<u32>)
    ensures
        u32_list_bytes(v).len() == 4 * v.len(),
    decreases v.len(),
{
    if v.len() > 0 {
        lemma_u32_list_len(v.drop_last());
    }
}

/// Element `i` of a written list stands at byte `2 * i`.
pub proof fn lemma_u16_list_at(v: Seq<u16>, before: Seq<u8>, after: Seq<u8>, i: int)
    requires
        0 <= i < v.len(),
    ensures
        u16_at(before + u16_list_bytes(v) + after, before.len() + 2 * i) == v[i],
    decreases v.len(),
{
    let rest = v.drop_last();
    lemma_u16_list_len(v);
    lemma_u16_list_len(rest);
    let whole = before + u16_list_bytes(v) + after;
    if i == v.len() - 1 {
        lemma_u16_round_trip(before + u16_list_bytes(rest), v.last(), after);
        assert(whole =~= before + u16_list_bytes(rest) + u16_bytes(v.last()) + after);
    } else {
        lemma_u16_list_at(rest, before, u16_bytes(v.last()) + after, i);
        assert(whole =~= before + u16_list_bytes(rest) + (u16_bytes(v.last()) + after));
    }
}

/// A list of `u16` takes two bytes for each element.
pub proof fn lemma_u16_list_len(v: Seq<u16>)
    ensures
        u16_list_bytes(v).len() == 2 * v.len(),
    decreases v.len(),
{
    if v.len() > 0 {
        lemma_u16_list_len(v.drop_last());
    }
}

/// A number in a dataset is the sum of its bytes, each one worth 256 times the byte in front of it.
pub proof fn law_numbers_are_little_endian(s: Seq<u8>, at: int)
    ensures
        u16_at(s, at) == s[at] + 256 * s[at + 1],
        u32_at(s, at) == s[at] + 256 * (s[at + 1] + 256 * (s[at + 2] + 256 * s[at + 3])),
        u64_at(s, at) == s[at] + 256 * (s[at + 1] + 256 * (s[at + 2] + 256 * (s[at + 3] + 256 * (s[at
            + 4] + 256 * (s[at + 5] + 256 * (s[at + 6] + 256 * s[at + 7])))))),
{
}

/// A written number takes as many bytes as its width says, and the bytes add up to it.
pub proof fn law_written_numbers_add_up(v: u16, w: u32)
    ensures
        u16_bytes(v).len() == 2,
        u16_bytes(v)[0] + 256 * u16_bytes(v)[1] == v,
        u32_bytes(w).len() == 4,
        u32_bytes(w)[0] + 256 * (u32_bytes(w)[1] + 256 * (u32_bytes(w)[2] + 256 * u32_bytes(w)[3]))
            == w,
{
}

/// The eight bytes of a `u64`, least significant byte first.
pub open spec fn u64_bytes(v: u64) -> Seq<u8> {
    u32_bytes((v % 0x1_0000_0000) as u32) + u32_bytes((v / 0x1_0000_0000) as u32)
}

/// A `u64` that is written as eight bytes reads back as it was, whatever bytes stand around it.
pub proof fn law_u64_round_trip(before: Seq<u8>, v: u64, after: Seq<u8>)
    ensures
        u64_at(before + u64_bytes(v) + after, before.len() as int) == v,
        u64_bytes(v).len() == 8,
{
    let low = (v % 0x1_0000_0000) as u32;
    let high = (v / 0x1_0000_0000) as u32;
    let s = before + u64_bytes(v) + after;
    lemma_u32_round_trip(before, low, u32_bytes(high) + after);
    assert(s =~= before + u32_bytes(low) + (u32_bytes(high) + after));
    lemma_u32_round_trip(before + u32_bytes(low), high, after);
    assert(s =~= before + u32_bytes(low) + u32_bytes(high) + after);
    assert(u64_at(s, before.len() as int) == low + 0x1_0000_0000 * high);
}

/// Pieces can be joined in any order.
pub proof fn lemma_join(a: Seq<u8>, b: Seq<u8>, c: Seq<u8>)
    ensures
        a + b + c == a + (b + c),
{
    assert(a + b + c =~= a + (b + c));
}

} // verus!
