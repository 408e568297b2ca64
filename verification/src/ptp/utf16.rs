//! UTF-16, the character encoding of PTP strings.

use vstd::prelude::*;

verus! {

/// Whether a code unit starts a surrogate pair.
pub open spec fn is_high(u: u16) -> bool {
    0xd800 <= u <= 0xdbff
}

/// Whether a code unit ends a surrogate pair.
pub open spec fn is_low(u: u16) -> bool {
    0xdc00 <= u <= 0xdfff
}

/// The code units of one character.
pub open spec fn encode_char(c: char) -> Seq<u16> {
    let v = c as int;
    if v < 0x1_0000 {
        seq![v as u16]
    } else {
        seq![(0xd800 + (v - 0x1_0000) / 0x400) as u16, (0xdc00 + (v - 0x1_0000) % 0x400) as u16]
    }
}

/// The code units of a text.
pub open spec fn encode(s: Seq<char>) -> Seq<u16>
    decreases s.len(),
{
    if s.len() == 0 {
        Seq::empty()
    } else {
        encode(s.drop_last()) + encode_char(s.last())
    }
}

/// The text that code units spell, or `None` where a surrogate stands without its partner.
pub open spec fn decode(u: Seq<u16>) -> Option<Seq<char>>
    decreases u.len(),
{
    if u.len() == 0 {
        Some(Seq::empty())
    } else if is_high(u[0]) {
        if u.len() >= 2 && is_low(u[1]) {
            prepend(pair_char(u[0], u[1]), decode(u.skip(2)))
        } else {
            None
        }
    } else if is_low(u[0]) {
        None
    } else {
        prepend(u[0] as char, decode(u.skip(1)))
    }
}

/// The character that a surrogate pair spells.
pub open spec fn pair_char(high: u16, low: u16) -> char {
    (0x1_0000 + 0x400 * (high - 0xd800) + (low - 0xdc00)) as char
}

/// A text with one more character in front.
pub open spec fn prepend(c: char, rest: Option<Seq<char>>) -> Option<Seq<char>> {
    match rest {
        Some(s) => Some(seq![c] + s),
        None => None,
    }
}

/// Appends the code units of one character.
fn push_char(out: &mut Vec<u16>, c: char)
    ensures
        final(out)@ == old(out)@ + encode_char(c),
{
    let v: u32 = c as u32;
    if v < 0x1_0000 {
        out.push(v as u16);
    } else {
        out.push((0xd800 + (v - 0x1_0000) / 0x400) as u16);
        out.push((0xdc00 + (v - 0x1_0000) % 0x400) as u16);
    }
}

/// Gives the code units of a text.
pub fn encode_utf16(s: &str) -> (r: Vec<u16>)
    ensures
        r@ == encode(s@),
{
    let mut out: Vec<u16> = Vec::new();
    let mut chars = s.chars();
    let ghost mut done: nat = 0;
    proof {
        assert(s@.take(0) =~= Seq::empty());
    }
    loop
        invariant
            done <= s@.len(),
            vstd::std_specs::iter::IteratorSpec::remaining(&chars) == s@.skip(done as int),
            vstd::std_specs::iter::IteratorSpec::decrease(&chars) is Some,
            out@ == encode(s@.take(done as int)),
        ensures
            out@ == encode(s@),
        decreases s@.len() - done,
    {
        match chars.next() {
            None => {
                proof {
                    assert(s@.take(done as int) =~= s@);
                }
                break;
            },
            Some(c) => {
                push_char(&mut out, c);
                proof {
                    assert(s@.take(done as int + 1).drop_last() =~= s@.take(done as int));
                    done = done + 1;
                }
            },
        }
    }
    out
}

/// Gives the text that code units spell.
pub fn decode_utf16(units: &[u16]) -> (r: Option<String>)
    ensures
        match r {
            Some(s) => decode(units@) == Some(s@),
            None => decode(units@) is None,
        },
{
    let mut out: String = String::new();
    let mut at: usize = 0;
    proof {
        assert(units@.skip(0) =~= units@);
    }
    while at < units.len()
        invariant
            at <= units@.len(),
            decode(units@) == join(out@, decode(units@.skip(at as int))),
        decreases units@.len() - at,
    {
        let first: u16 = units[at];
        if 0xd800 <= first && first <= 0xdbff {
            if units.len() - at < 2 {
                return None;
            }
            let second: u16 = units[at + 1];
            if second < 0xdc00 || 0xdfff < second {
                return None;
            }
            let v: u32 = 0x1_0000 + 0x400 * (first as u32 - 0xd800) + (second as u32 - 0xdc00);
            match char::from_u32(v) {
                None => {
                    return None;
                },
                Some(c) => {
                    proof {
                        assert(units@.skip(at as int).skip(2) =~= units@.skip(at as int + 2));
                        lemma_join_step(out@, c, decode(units@.skip(at as int + 2)));
                    }
                    out.push(c);
                    at = at + 2;
                },
            }
        } else if 0xdc00 <= first && first <= 0xdfff {
            return None;
        } else {
            match char::from_u32(first as u32) {
                None => {
                    return None;
                },
                Some(c) => {
                    proof {
                        assert(units@.skip(at as int).skip(1) =~= units@.skip(at as int + 1));
                        lemma_join_step(out@, c, decode(units@.skip(at as int + 1)));
                    }
                    out.push(c);
                    at = at + 1;
                },
            }
        }
    }
    proof {
        assert(out@ + Seq::<char>::empty() =~= out@);
    }
    Some(out)
}

/// A text in front of another.
spec fn join(front: Seq<char>, rest: Option<Seq<char>>) -> Option<Seq<char>> {
    match rest {
        Some(s) => Some(front + s),
        None => None,
    }
}

proof fn lemma_join_step(front: Seq<char>, c: char, rest: Option<Seq<char>>)
    ensures
        join(front, prepend(c, rest)) == join(front.push(c), rest),
{
    match rest {
        Some(s) => {
            assert(front + (seq![c] + s) =~= front.push(c) + s);
        },
        None => {},
    }
}

/// Decoding the code units of a text gives the text back.
pub proof fn lemma_decode_encode(s: Seq<char>)
    ensures
        decode(encode(s)) == Some(s),
{
    assert(encode(s) + Seq::<u16>::empty() =~= encode(s));
    lemma_decode_encode_then(s, Seq::empty());
    assert(s + Seq::<char>::empty() =~= s);
}

proof fn lemma_decode_encode_then(s: Seq<char>, rest: Seq<u16>)
    ensures
        decode(encode(s) + rest) == join(s, decode(rest)),
    decreases s.len(),
{
    if s.len() == 0 {
        assert(encode(s) + rest =~= rest);
        match decode(rest) {
            Some(t) => {
                assert(s + t =~= t);
            },
            None => {},
        }
    } else {
        let c = s.last();
        let front = s.drop_last();
        lemma_decode_encode_then(front, encode_char(c) + rest);
        assert(encode(s) + rest =~= encode(front) + (encode_char(c) + rest));
        lemma_decode_char(c, rest);
        lemma_join_step(front, c, decode(rest));
        assert(front.push(c) =~= s);
    }
}

proof fn lemma_decode_char(c: char, rest: Seq<u16>)
    ensures
        decode(encode_char(c) + rest) == prepend(c, decode(rest)),
{
    let u = encode_char(c) + rest;
    let v = c as int;
    if v < 0x1_0000 {
        assert(u[0] == v);
        assert(u.skip(1) =~= rest);
        assert(u[0] as char == c);
    } else {
        assert(u[0] == 0xd800 + (v - 0x1_0000) / 0x400);
        assert(u[1] == 0xdc00 + (v - 0x1_0000) % 0x400);
        assert(u.skip(2) =~= rest);
        assert(pair_char(u[0], u[1]) == c);
    }
}

/// A character takes one code unit that is no half of a pair, or the two halves of a pair.
pub proof fn lemma_char_is_whole(c: char)
    ensures
        ({
            let u = encode_char(c);
            u.len() == 1 && !is_high(u[0]) || u.len() == 2 && is_high(u[0]) && !is_high(u[1])
        }),
{
}

/// The code units of a text never end with the first half of a pair.
pub proof fn lemma_encode_ends_whole(s: Seq<char>)
    requires
        s.len() > 0,
    ensures
        encode(s).len() > 0,
        !is_high(encode(s).last()),
{
    lemma_char_is_whole(s.last());
    assert(encode(s).last() == encode_char(s.last()).last());
}

/// A character below 0x10000 is its own code unit. A higher one is a pair, whose two halves hold ten bits
/// each of what the character is above 0x10000.
pub proof fn law_what_a_character_is_written_as(c: char)
    ensures
        (c as int) < 0x1_0000 ==> encode_char(c).len() == 1 && encode_char(c)[0] == c as int,
        (c as int) >= 0x1_0000 ==> {
            let u = encode_char(c);
            &&& u.len() == 2
            &&& 0xd800 <= u[0] < 0xdc00
            &&& 0xdc00 <= u[1] < 0xe000
            &&& (u[0] - 0xd800) * 1024 + (u[1] - 0xdc00) + 65536 == c as int
        },
{
}

/// The code units of a text are those of its characters, one behind the other.
pub proof fn law_texts_are_written_character_by_character(a: Seq<char>, b: Seq<char>, c: char)
    ensures
        encode(a + b) == encode(a) + encode(b),
        encode(seq![c]) == encode_char(c),
    decreases b.len(),
{
    let one = seq![c];
    assert(one.drop_last() =~= Seq::empty());
    assert(encode(one.drop_last()) =~= Seq::empty());
    assert(encode(one) =~= encode_char(c));
    if b.len() == 0 {
        assert(a + b =~= a);
        assert(encode(a) + encode(b) =~= encode(a));
    } else {
        law_texts_are_written_character_by_character(a, b.drop_last(), c);
        assert((a + b).drop_last() =~= a + b.drop_last());
        assert((a + b).last() == b.last());
        assert(encode(a + b) =~= encode(a) + encode(b));
    }
}

/// Code units spell a text exactly where they are the code units of that text: what reads is what would be
/// written, and what does not read is the writing of no text.
pub proof fn law_units_spell_what_they_are_the_writing_of(u: Seq<u16>, t: Seq<char>)
    ensures
        decode(u) == Some(t) <==> u == encode(t),
{
    if u == encode(t) {
        lemma_decode_encode(t);
    }
    if decode(u) == Some(t) {
        lemma_encode_decode(u);
    }
}

proof fn lemma_encode_decode(u: Seq<u16>)
    requires
        decode(u) is Some,
    ensures
        encode(decode(u)->0) == u,
    decreases u.len(),
{
    if u.len() == 0 {
        assert(encode(Seq::empty()) =~= u);
    } else if is_high(u[0]) {
        let rest = u.skip(2);
        lemma_encode_decode(rest);
        lemma_unit_pair(u[0], u[1]);
        let c = pair_char(u[0], u[1]);
        law_texts_are_written_character_by_character(seq![c], decode(rest)->0, c);
        assert(encode_char(c) + rest =~= u);
    } else {
        let rest = u.skip(1);
        lemma_encode_decode(rest);
        lemma_unit(u[0]);
        let c = u[0] as char;
        law_texts_are_written_character_by_character(seq![c], decode(rest)->0, c);
        assert(encode_char(c) + rest =~= u);
    }
}

proof fn lemma_unit(u: u16)
    requires
        !is_high(u),
        !is_low(u),
    ensures
        encode_char(u as char) == seq![u],
{
    assert(u as char as int == u);
    assert(encode_char(u as char) =~= seq![u]);
}

proof fn lemma_unit_pair(high: u16, low: u16)
    requires
        is_high(high),
        is_low(low),
    ensures
        encode_char(pair_char(high, low)) == seq![high, low],
{
    let v = 0x1_0000 + 0x400 * (high - 0xd800) + (low - 0xdc00);
    assert(pair_char(high, low) as int == v);
    assert((v - 0x1_0000) / 0x400 == high - 0xd800);
    assert((v - 0x1_0000) % 0x400 == low - 0xdc00);
    assert(encode_char(pair_char(high, low)) =~= seq![high, low]);
}

/// A text survives being written as code units and read from them, and what does not read is no text.
pub proof fn law_a_text_survives_its_code_units(
    s: &str,
    u: Vec<u16>,
    units: &[u16],
    r: Option<String>,
)
    requires
        call_ensures(encode_utf16, (s,), u),
        call_ensures(decode_utf16, (units,), r),
    ensures
        units@ == u@ ==> r is Some && r->0@ == s@,
        r is Some ==> units@ == encode(r->0@),
        r is None ==> units@ != u@,
{
    law_units_spell_what_they_are_the_writing_of(u@, s@);
    if r is Some {
        law_units_spell_what_they_are_the_writing_of(units@, r->0@);
    }
}

} // verus!
