//! Characters, digits and the text of messages.

use vstd::prelude::*;
use vstd::string::*;

verus! {

/// Whether a number is a Unicode scalar value, so that a `char` can hold it.
pub open spec fn is_scalar(v: u32) -> bool {
    v <= 0x10_ffff && !(0xd800 <= v <= 0xdfff)
}

/// `String::push` appends one character.
pub assume_specification[ String::push ](s: &mut String, ch: char)
    ensures
        final(s)@ == old(s)@.push(ch),
;

/// `char::from_u32` gives the character with this number, and `None` for a number that is no
/// Unicode scalar value.
pub assume_specification[ char::from_u32 ](i: u32) -> (r: Option<char>)
    ensures
        r == (if is_scalar(i) {
            Some(i as char)
        } else {
            None
        }),
;

/// `String::from_utf8`: the text that the bytes encode where they are valid UTF-8, and an error otherwise.
#[verifier::external_body]
pub(crate) fn from_utf8(bytes: Vec<u8>) -> (r: Option<String>)
    ensures
        match r {
            Some(s) => vstd::utf8::valid_utf8(bytes@) && s@ == vstd::utf8::decode_utf8(bytes@),
            None => !vstd::utf8::valid_utf8(bytes@),
        },
{
    String::from_utf8(bytes).ok()
}

/// The digit `d` of a base up to sixteen, in lower case.
pub open spec fn digit(d: int) -> char {
    if d < 10 {
        ('0' as int + d) as char
    } else {
        ('a' as int + d - 10) as char
    }
}

/// The decimal digits of a number.
pub open spec fn decimal(n: nat) -> Seq<char>
    decreases n,
{
    if n < 10 {
        seq![digit(n as int)]
    } else {
        decimal(n / 10).push(digit((n % 10) as int))
    }
}

/// The last `width` hexadecimal digits of a number, with leading zeros.
pub open spec fn hex(n: nat, width: nat) -> Seq<char>
    decreases width,
{
    if width == 0 {
        Seq::empty()
    } else {
        hex(n / 16, (width - 1) as nat).push(digit((n % 16) as int))
    }
}

/// Gives the digit `d`.
fn digit_char(d: u8) -> (r: char)
    requires
        d < 16,
    ensures
        r == digit(d as int),
{
    if d < 10 {
        (48 + d) as char
    } else {
        (97 + (d - 10)) as char
    }
}

/// Appends the decimal digits of a number.
pub fn push_decimal(s: &mut String, n: u128)
    ensures
        final(s)@ == old(s)@ + decimal(n as nat),
    decreases n,
{
    if n >= 10 {
        push_decimal(s, n / 10);
    }
    s.push(digit_char((n % 10) as u8));
}

/// The decimal digits of a number, with a sign in front of a negative one.
pub open spec fn signed_decimal(n: int) -> Seq<char> {
    if n < 0 {
        "-"@ + decimal((-n) as nat)
    } else {
        decimal(n as nat)
    }
}

/// Appends the decimal digits of a number, with a sign in front of a negative one.
pub fn push_signed_decimal(s: &mut String, n: i32)
    ensures
        final(s)@ == old(s)@ + signed_decimal(n as int),
{
    if n < 0 {
        s.append("-");
        push_decimal(s, (-(n as i64)) as u128);
    } else {
        push_decimal(s, n as u128);
    }
}

/// Appends `width` hexadecimal digits of a number.
pub fn push_hex(s: &mut String, n: u64, width: u8)
    ensures
        final(s)@ == old(s)@ + hex(n as nat, width as nat),
    decreases width,
{
    if width > 0 {
        push_hex(s, n / 16, width - 1);
        s.push(digit_char((n % 16) as u8));
    }
}

/// The text of a truth value.
pub open spec fn truth(b: bool) -> Seq<char> {
    if b {
        "true"@
    } else {
        "false"@
    }
}

/// Appends the text of a truth value.
pub fn push_truth(s: &mut String, b: bool)
    ensures
        final(s)@ == old(s)@ + truth(b),
{
    if b {
        s.append("true");
    } else {
        s.append("false");
    }
}

/// Whether two texts are the same.
pub fn same(a: &str, b: &str) -> (r: bool)
    ensures
        r == (a@ == b@),
{
    let x = a.as_bytes();
    let y = b.as_bytes();
    proof {
        vstd::utf8::encode_utf8_decode_utf8(a@);
        vstd::utf8::encode_utf8_decode_utf8(b@);
    }
    if x.len() != y.len() {
        return false;
    }
    let mut i: usize = 0;
    while i < x.len()
        invariant
            x@.len() == y@.len(),
            forall|k: int| 0 <= k < i ==> x@[k] == y@[k],
            i <= x@.len(),
            x@ == vstd::utf8::encode_utf8(a@),
            y@ == vstd::utf8::encode_utf8(b@),
        decreases x@.len() - i,
    {
        if x[i] != y[i] {
            return false;
        }
        i = i + 1;
    }
    proof {
        assert(x@ =~= y@);
    }
    true
}

/// Tells you if a text holds no character.
pub fn is_empty(s: &str) -> (r: bool)
    ensures
        r == (s@.len() == 0),
{
    s.unicode_len() == 0
}

/// Gives a copy of a text.
pub fn owned(s: &str) -> (r: String)
    ensures
        r@ == s@,
{
    s.to_owned()
}

/// Gives the characters of a text.
pub fn chars_of(s: &str) -> (r: Vec<char>)
    ensures
        r@ == s@,
{
    let mut out: Vec<char> = Vec::new();
    let mut chars = s.chars();
    loop
        invariant
            vstd::std_specs::iter::IteratorSpec::remaining(&chars) == s@.skip(out@.len() as int),
            vstd::std_specs::iter::IteratorSpec::decrease(&chars) is Some,
            out@.len() <= s@.len(),
            out@ == s@.take(out@.len() as int),
        ensures
            out@ == s@,
        decreases s@.len() - out@.len(),
    {
        match chars.next() {
            None => {
                proof {
                    assert(s@.take(out@.len() as int) =~= s@);
                }
                break;
            },
            Some(c) => {
                proof {
                    assert(s@.take(out@.len() as int + 1) =~= out@.push(c));
                }
                out.push(c);
            },
        }
    }
    out
}

/// Gives the text of characters.
pub fn text_of(chars: &[char]) -> (r: String)
    ensures
        r@ == chars@,
{
    let mut out: String = String::new();
    let mut i: usize = 0;
    while i < chars.len()
        invariant
            i <= chars@.len(),
            out@ == chars@.take(i as int),
        decreases chars@.len() - i,
    {
        proof {
            assert(chars@.take(i + 1) =~= chars@.take(i as int).push(chars@[i as int]));
        }
        out.push(chars[i]);
        i = i + 1;
    }
    proof {
        assert(chars@.take(chars@.len() as int) =~= chars@);
    }
    out
}

/// Whether a text starts with another.
pub open spec fn has_prefix(s: Seq<char>, prefix: Seq<char>) -> bool {
    s.len() >= prefix.len() && s.take(prefix.len() as int) == prefix
}

/// Says whether the characters from position `from` on start with a text.
pub fn starts_with(s: &[char], from: usize, prefix: &str) -> (r: bool)
    requires
        from <= s@.len(),
    ensures
        r == has_prefix(s@.skip(from as int), prefix@),
{
    let p = chars_of(prefix);
    if s.len() - from < p.len() {
        return false;
    }
    let mut i: usize = 0;
    while i < p.len()
        invariant
            p@ == prefix@,
            from + p@.len() <= s@.len() <= usize::MAX,
            i <= p@.len(),
            forall|k: int| 0 <= k < i ==> s@.skip(from as int)[k] == #[trigger] p@[k],
        decreases p@.len() - i,
    {
        if s[from + i] != p[i] {
            proof {
                assert(s@.skip(from as int).take(p@.len() as int)[i as int] != p@[i as int]);
            }
            return false;
        }
        i = i + 1;
    }
    proof {
        assert(s@.skip(from as int).take(p@.len() as int) =~= p@);
    }
    true
}

/// Whether a character is white space.
pub open spec fn is_white_space(c: char) -> bool {
    let v = c as int;
    ||| 0x09 <= v <= 0x0d
    ||| v == 0x20
    ||| v == 0x85
    ||| v == 0xa0
    ||| v == 0x1680
    ||| 0x2000 <= v <= 0x200a
    ||| v == 0x2028
    ||| v == 0x2029
    ||| v == 0x202f
    ||| v == 0x205f
    ||| v == 0x3000
}

/// A text without the white space at its start.
pub open spec fn trim_start(s: Seq<char>) -> Seq<char>
    decreases s.len(),
{
    if s.len() > 0 && is_white_space(s[0]) {
        trim_start(s.skip(1))
    } else {
        s
    }
}

/// A text without the white space at its end.
pub open spec fn trim_end(s: Seq<char>) -> Seq<char>
    decreases s.len(),
{
    if s.len() > 0 && is_white_space(s.last()) {
        trim_end(s.drop_last())
    } else {
        s
    }
}

/// Says whether a character is white space.
pub fn white(c: char) -> (r: bool)
    ensures
        r == is_white_space(c),
{
    let v: u32 = c as u32;
    (0x09 <= v && v <= 0x0d) || v == 0x20 || v == 0x85 || v == 0xa0 || v == 0x1680 || (0x2000 <= v
        && v <= 0x200a) || v == 0x2028 || v == 0x2029 || v == 0x202f || v == 0x205f || v == 0x3000
}

/// Gives a text without the white space around it.
pub fn trim(s: &str) -> (r: String)
    ensures
        r@ == trim_end(trim_start(s@)),
{
    let chars = chars_of(s);
    let mut from: usize = 0;
    proof {
        assert(chars@.skip(0) =~= chars@);
    }
    while from < chars.len() && white(chars[from])
        invariant
            from <= chars@.len(),
            trim_start(chars@) == trim_start(chars@.skip(from as int)),
        decreases chars@.len() - from,
    {
        proof {
            assert(chars@.skip(from as int).skip(1) =~= chars@.skip(from + 1));
        }
        from = from + 1;
    }
    let mut to: usize = chars.len();
    let ghost body = chars@.skip(from as int);
    proof {
        assert(chars@.subrange(from as int, to as int) =~= body);
    }
    while from < to && white(chars[to - 1])
        invariant
            from <= to <= chars@.len(),
            trim_end(body) == trim_end(chars@.subrange(from as int, to as int)),
        decreases to - from,
    {
        proof {
            assert(chars@.subrange(from as int, to as int).drop_last() =~= chars@.subrange(
                from as int,
                to - 1,
            ));
        }
        to = to - 1;
    }
    text_of(vstd::slice::slice_subrange(chars.as_slice(), from, to))
}

/// Whether a character is a decimal digit.
pub open spec fn is_digit(c: char) -> bool {
    '0' <= c <= '9'
}

/// The number that decimal digits spell.
pub open spec fn digits_value(s: Seq<char>) -> int
    decreases s.len(),
{
    if s.len() == 0 {
        0
    } else {
        10 * digits_value(s.drop_last()) + (s.last() as int - '0' as int)
    }
}

/// Whether a text is made of digits, and of at least one.
pub open spec fn all_digits(s: Seq<char>) -> bool {
    s.len() > 0 && forall|i: int| 0 <= i < s.len() ==> is_digit(#[trigger] s[i])
}

/// The digits of a number, behind the plus sign that may stand in front of them.
pub open spec fn unsigned_digits(s: Seq<char>) -> Seq<char> {
    if s.len() > 0 && s[0] == '+' {
        s.skip(1)
    } else {
        s
    }
}

/// The number that a text spells: digits, with or without a plus sign, whose value is at most `max`.
pub open spec fn number_up_to(s: Seq<char>, max: int) -> Option<int> {
    let d = unsigned_digits(s);
    if all_digits(d) && digits_value(d) <= max {
        Some(digits_value(d))
    } else {
        None
    }
}

/// The number of one byte that a text spells.
pub open spec fn byte_number(s: Seq<char>) -> Option<u8> {
    match number_up_to(s, 255) {
        Some(v) => Some(v as u8),
        None => None,
    }
}

proof fn lemma_more_digits_are_no_smaller(s: Seq<char>, k: int)
    requires
        0 <= k <= s.len(),
        forall|i: int| 0 <= i < s.len() ==> is_digit(#[trigger] s[i]),
    ensures
        0 <= digits_value(s.take(k)) <= digits_value(s),
    decreases s.len(),
{
    if k == s.len() {
        assert(s.take(k) =~= s);
        if s.len() > 0 {
            assert(s[s.len() - 1] == s.last());
            lemma_more_digits_are_no_smaller(s.drop_last(), k - 1);
        }
    } else {
        assert(s[s.len() - 1] == s.last());
        assert(s.drop_last().take(k) =~= s.take(k));
        lemma_more_digits_are_no_smaller(s.drop_last(), k);
    }
}

/// Reads the number that characters spell, where it is at most `max`.
pub fn parse_number(s: &[char], max: u64) -> (r: Option<u64>)
    ensures
        match r {
            Some(v) => number_up_to(s@, max as int) == Some(v as int),
            None => number_up_to(s@, max as int) is None,
        },
{
    let from: usize = if s.len() > 0 && s[0] == '+' {
        1
    } else {
        0
    };
    let ghost d = unsigned_digits(s@);
    proof {
        assert(d =~= s@.skip(from as int));
    }
    if from == s.len() {
        return None;
    }
    let mut v: u128 = 0;
    let mut i: usize = from;
    proof {
        assert(d.take(0) =~= Seq::empty());
    }
    while i < s.len()
        invariant
            from <= i <= s@.len(),
            d == s@.skip(from as int),
            v == digits_value(d.take(i - from)),
            v <= max,
            d == unsigned_digits(s@),
            forall|k: int| 0 <= k < i - from ==> is_digit(#[trigger] d[k]),
        decreases s@.len() - i,
    {
        let c: char = s[i];
        proof {
            assert(d[i - from] == c);
        }
        if c < '0' || '9' < c {
            return None;
        }
        proof {
            assert(d.take(i - from + 1).drop_last() =~= d.take(i - from));
        }
        v = 10 * v + (c as u32 - '0' as u32) as u128;
        i = i + 1;
        if v > max as u128 {
            proof {
                if all_digits(d) {
                    lemma_more_digits_are_no_smaller(d, i - from);
                }
            }
            return None;
        }
    }
    proof {
        assert(d.take(d.len() as int) =~= d);
    }
    Some(v as u64)
}

/// Reads the number of one byte that characters spell.
pub fn parse_byte(s: &[char]) -> (r: Option<u8>)
    ensures
        r == byte_number(s@),
{
    match parse_number(s, 255) {
        Some(v) => Some(v as u8),
        None => None,
    }
}

/// The decimal digits of a number spell that number.
pub proof fn lemma_decimal_round_trip(n: nat)
    ensures
        all_digits(decimal(n)),
        digits_value(decimal(n)) == n,
    decreases n,
{
    if n < 10 {
        assert(decimal(n).drop_last() =~= Seq::empty());
        assert(digits_value(Seq::empty()) == 0);
        assert(decimal(n).last() as int == '0' as int + n);
    } else {
        lemma_decimal_round_trip(n / 10);
        assert(decimal(n).drop_last() =~= decimal(n / 10));
        assert forall|i: int| 0 <= i < decimal(n).len() implies is_digit(#[trigger] decimal(n)[i]) by {
            if i < decimal(n / 10).len() {
                assert(decimal(n)[i] == decimal(n / 10)[i]);
            }
        }
    }
}

/// The digits of a number spell that number, and no digit stands in front that is not needed.
pub proof fn law_decimal_digits_spell_the_number(n: nat)
    ensures
        all_digits(decimal(n)),
        digits_value(decimal(n)) == n,
        n > 0 ==> decimal(n)[0] != '0',
        n < 10 ==> decimal(n).len() == 1 && decimal(n)[0] as int == 48 + n,
        decimal(n).len() <= 1 <==> n < 10,
    decreases n,
{
    lemma_decimal_round_trip(n);
    if n >= 10 {
        law_decimal_digits_spell_the_number(n / 10);
        assert(decimal(n)[0] == decimal(n / 10)[0]);
    }
}

/// Each digit at the end of a number makes it ten times as large, and adds the value of the digit.
pub proof fn law_digits_add_up(s: Seq<char>, c: char)
    ensures
        digits_value(s.push(c)) == 10 * digits_value(s) + (c as int - 48),
        digits_value(Seq::empty()) == 0,
        is_digit(c) <==> 48 <= c as int <= 57,
{
    assert(s.push(c).drop_last() =~= s);
}

/// What a text must be to be a number: digits alone, with or without a plus sign in front, and no more than
/// the largest value. It is the number that the digits spell.
pub proof fn law_which_texts_are_numbers(s: Seq<char>, max: int, chars: &[char], limit: u64, r: Option<u64>)
    requires
        chars@ == s,
        limit == max,
        call_ensures(parse_number, (chars, limit), r),
    ensures
        s.len() > 0 && s[0] != '+' && (forall|i: int|
            0 <= i < s.len() ==> 48 <= (#[trigger] s[i]) as int <= 57) ==> (r is Some <==> digits_value(
            s,
        ) <= max) && (r is Some ==> r->0 == digits_value(s)),
        s.len() > 1 && s[0] == '+' && (forall|i: int|
            1 <= i < s.len() ==> 48 <= (#[trigger] s[i]) as int <= 57) ==> (r is Some <==> digits_value(
            s.skip(1),
        ) <= max) && (r is Some ==> r->0 == digits_value(s.skip(1))),
        s.len() == 0 || (s.len() == 1 && s[0] == '+') ==> r is None,
        forall|i: int|
            1 <= i < s.len() && !(48 <= (#[trigger] s[i]) as int <= 57) ==> r is None,
        s.len() > 0 && s[0] != '+' && !(48 <= s[0] as int <= 57) ==> r is None,
{
    let d = unsigned_digits(s);
    if s.len() > 0 && s[0] == '+' {
        assert forall|i: int| 1 <= i < s.len() implies #[trigger] s[i] == d[i - 1] by {}
        if forall|i: int| 1 <= i < s.len() ==> 48 <= (#[trigger] s[i]) as int <= 57 {
            assert forall|i: int| 0 <= i < d.len() implies is_digit(#[trigger] d[i]) by {
                assert(d[i] == s[i + 1]);
            }
        }
        assert forall|i: int| 1 <= i < s.len() && !(48 <= (#[trigger] s[i]) as int <= 57) implies !all_digits(
            d,
        ) by {
            assert(!is_digit(d[i - 1]));
        }
    } else if s.len() > 0 {
        assert(is_digit(s[0]) <==> 48 <= s[0] as int <= 57);
        assert forall|i: int| 1 <= i < s.len() && !(48 <= (#[trigger] s[i]) as int <= 57) implies !all_digits(
            d,
        ) by {
            assert(!is_digit(d[i]));
        }
    }
}

/// Hexadecimal digits stand for a number with as many digits as asked for, the last one first: each digit is
/// the rest of a division by 16, written `0` to `9` and `a` to `f`.
pub proof fn law_what_hexadecimal_digits_are(n: nat, width: nat, d: nat)
    requires
        d < 16,
    ensures
        hex(n, width).len() == width,
        hex(16 * n + d, width + 1).drop_last() == hex(n, width),
        hex(16 * n + d, width + 1).last() as int == if d < 10 {
            48 + d
        } else {
            87 + d
        },
    decreases width,
{
    if width > 0 {
        law_what_hexadecimal_digits_are(n / 16, (width - 1) as nat, d);
    }
    assert((16 * n + d) / 16 == n);
    assert((16 * n + d) % 16 == d);
    assert(hex(16 * n + d, width + 1).drop_last() =~= hex(n, width));
}

/// White space is these 25 characters and no other.
pub proof fn law_which_characters_are_white_space(c: char, r: bool)
    requires
        call_ensures(white, (c,), r),
    ensures
        ({
            let v = c as int;
            r <==> (v == 0x09 || v == 0x0a || v == 0x0b || v == 0x0c || v == 0x0d || v == 0x20 || v
                == 0x85 || v == 0xa0 || v == 0x1680 || v == 0x2000 || v == 0x2001 || v == 0x2002 || v
                == 0x2003 || v == 0x2004 || v == 0x2005 || v == 0x2006 || v == 0x2007 || v == 0x2008
                || v == 0x2009 || v == 0x200a || v == 0x2028 || v == 0x2029 || v == 0x202f || v
                == 0x205f || v == 0x3000)
        }),
{
}

/// Whether a text is white space alone.
pub open spec fn is_blank(s: Seq<char>) -> bool {
    forall|i: int| 0 <= i < s.len() ==> is_white_space(#[trigger] s[i])
}

/// Trimming takes away the white space around a text, and nothing else: white space in the middle stays.
pub proof fn law_trimming_keeps_the_middle(
    front: Seq<char>,
    middle: Seq<char>,
    back: Seq<char>,
    s: &str,
    r: String,
)
    requires
        is_blank(front),
        is_blank(back),
        middle.len() > 0 ==> !is_white_space(middle[0]) && !is_white_space(middle.last()),
        s@ == front + middle + back,
        call_ensures(trim, (s,), r),
    ensures
        r@ == middle,
{
    lemma_trimmed(front, middle, back);
}

/// What trimming leaves of a text with white space around it.
pub proof fn lemma_trimmed(front: Seq<char>, middle: Seq<char>, back: Seq<char>)
    requires
        is_blank(front),
        is_blank(back),
        middle.len() > 0 ==> !is_white_space(middle[0]) && !is_white_space(middle.last()),
    ensures
        trim_end(trim_start(front + middle + back)) == middle,
{
    let whole = front + middle + back;
    if middle.len() == 0 {
        assert(whole =~= (front + back) + Seq::<char>::empty());
        assert forall|i: int| 0 <= i < (front + back).len() implies is_white_space(
            #[trigger] (front + back)[i],
        ) by {
            if i < front.len() {
                assert((front + back)[i] == front[i]);
            } else {
                assert((front + back)[i] == back[i - front.len()]);
            }
        }
        lemma_trim_start(front + back, Seq::empty());
        assert(trim_end(Seq::<char>::empty()) =~= Seq::empty());
        assert(middle =~= Seq::empty());
    } else {
        assert(whole =~= front + (middle + back));
        assert((middle + back)[0] == middle[0]);
        lemma_trim_start(front, middle + back);
        lemma_trim_end(middle, back);
    }
}

proof fn lemma_trim_start(front: Seq<char>, rest: Seq<char>)
    requires
        is_blank(front),
        rest.len() > 0 ==> !is_white_space(rest[0]),
    ensures
        trim_start(front + rest) == rest,
    decreases front.len(),
{
    if front.len() == 0 {
        assert(front + rest =~= rest);
    } else {
        assert(is_white_space(front[0]));
        assert forall|i: int| 0 <= i < front.skip(1).len() implies is_white_space(
            #[trigger] front.skip(1)[i],
        ) by {
            assert(front.skip(1)[i] == front[i + 1]);
        }
        lemma_trim_start(front.skip(1), rest);
        assert((front + rest).skip(1) =~= front.skip(1) + rest);
    }
}

proof fn lemma_trim_end(rest: Seq<char>, back: Seq<char>)
    requires
        is_blank(back),
        rest.len() > 0,
        !is_white_space(rest.last()),
    ensures
        trim_end(rest + back) == rest,
    decreases back.len(),
{
    if back.len() == 0 {
        assert(rest + back =~= rest);
    } else {
        let less = back.drop_last();
        assert(is_white_space(back[back.len() - 1]));
        assert forall|i: int| 0 <= i < less.len() implies is_white_space(#[trigger] less[i]) by {
            assert(less[i] == back[i]);
        }
        lemma_trim_end(rest, less);
        assert((rest + back).drop_last() =~= rest + less);
    }
}

/// A number with a sign is its digits, behind a minus sign where it is below zero.
pub proof fn law_how_a_signed_number_is_written(n: int)
    ensures
        n >= 0 ==> signed_decimal(n) == decimal(n as nat),
        n < 0 ==> signed_decimal(n).len() == decimal((-n) as nat).len() + 1 && signed_decimal(n)[0]
            == '-' && signed_decimal(n).skip(1) == decimal((-n) as nat),
        truth(true) == "true"@,
        truth(false) == "false"@,
{
    reveal_strlit("-");
    if n < 0 {
        assert(signed_decimal(n).skip(1) =~= decimal((-n) as nat));
    }
}

} // verus!
