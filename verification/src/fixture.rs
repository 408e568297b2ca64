//! Reads a capture.
//!
//! A capture is a text of annotated hexadecimal bytes. The format keeps the captured bytes readable in
//! a comparison of two versions, and it lets a comment record the meaning of each field:
//!
//! ```text
//! 0c 00 00 00        # length, 12 bytes
//! 01 00              # container type, 1 means command
//! 04 10              # code, GetStorageIDs
//! 21 00 00 00        # transaction id, 33
//! ```

use vstd::prelude::*;

use crate::text;

verus! {

/// Why a text is no capture.
#[derive(Debug, Clone, Copy, PartialEq, Eq, Structural)]
pub enum FixtureError {
    /// The text holds a character that is no hexadecimal digit.
    NotADigit(char),
    /// The count of digits is odd.
    OddCount(usize),
}

/// Whether a byte is the code of a hexadecimal digit.
pub open spec fn is_hex(b: u8) -> bool {
    48 <= b <= 57 || 97 <= b <= 102 || 65 <= b <= 70
}

/// The value of a hexadecimal digit, in either case.
pub open spec fn digit_value(b: u8) -> int {
    if b <= 57 {
        b - 48
    } else if b <= 70 {
        b - 65 + 10
    } else {
        b - 97 + 10
    }
}

/// Gives the value of one hexadecimal digit.
pub fn hex_value(b: u8) -> (r: u8)
    requires
        is_hex(b),
    ensures
        r == digit_value(b),
        r < 16,
{
    if b <= 57 {
        b - 48
    } else if b <= 70 {
        b - 65 + 10
    } else {
        b - 97 + 10
    }
}

/// Whether a character is a hexadecimal digit.
pub open spec fn is_hex_digit(c: char) -> bool {
    (c as int) < 128 && is_hex(c as u8)
}

/// Whether the character at a position stands in a comment, which starts at `#` and ends at the end of
/// the line.
pub open spec fn in_comment(s: Seq<char>, i: int) -> bool
    decreases i + 1,
{
    if i < 0 || s[i] == '\n' {
        false
    } else {
        s[i] == '#' || in_comment(s, i - 1)
    }
}

/// What the first `n` characters hold outside of comments and white space.
pub open spec fn code_of(s: Seq<char>, n: int) -> Seq<char>
    decreases n,
{
    if n <= 0 {
        Seq::empty()
    } else if in_comment(s, n - 1) || text::is_white_space(s[n - 1]) {
        code_of(s, n - 1)
    } else {
        code_of(s, n - 1).push(s[n - 1])
    }
}

/// The bytes that pairs of hexadecimal digits stand for.
pub open spec fn bytes_of(digits: Seq<char>) -> Seq<u8> {
    Seq::new(
        digits.len() / 2,
        |i: int|
            (digit_value(digits[2 * i] as u8) * 16 + digit_value(digits[2 * i + 1] as u8)) as u8,
    )
}

/// What a text gives that is meant as a capture. A character that is no digit counts before an odd
/// count, and the first such character counts.
pub open spec fn parsed(s: Seq<char>) -> Result<Seq<u8>, FixtureError> {
    let code = code_of(s, s.len() as int);
    match first_other(code, 0) {
        Some(c) => Err(FixtureError::NotADigit(c)),
        None => if code.len() % 2 == 0 {
            Ok(bytes_of(code))
        } else {
            Err(FixtureError::OddCount(code.len() as usize))
        },
    }
}

/// The first character from position `i` on that is no hexadecimal digit.
pub open spec fn first_other(code: Seq<char>, i: int) -> Option<char>
    decreases code.len() - i,
{
    if i >= code.len() {
        None
    } else if !is_hex_digit(code[i]) {
        Some(code[i])
    } else {
        first_other(code, i + 1)
    }
}

/// Says whether a character is a hexadecimal digit.
fn hex_digit(c: char) -> (r: bool)
    ensures
        r == is_hex_digit(c),
{
    let v: u32 = c as u32;
    (48 <= v && v <= 57) || (97 <= v && v <= 102) || (65 <= v && v <= 70)
}

proof fn lemma_no_other(code: Seq<char>, i: int)
    requires
        0 <= i <= code.len(),
        forall|k: int| i <= k < code.len() ==> is_hex_digit(#[trigger] code[k]),
    ensures
        first_other(code, i) is None,
    decreases code.len() - i,
{
    if i < code.len() {
        lemma_no_other(code, i + 1);
    }
}

proof fn lemma_first_other(code: Seq<char>, i: int, n: int)
    requires
        0 <= i <= n < code.len(),
        forall|k: int| i <= k < n ==> is_hex_digit(#[trigger] code[k]),
        !is_hex_digit(code[n]),
    ensures
        first_other(code, i) == Some(code[n]),
    decreases n - i,
{
    if i < n {
        lemma_first_other(code, i + 1, n);
    }
}

proof fn lemma_code_grows(s: Seq<char>, a: int, b: int)
    requires
        0 <= a <= b <= s.len(),
    ensures
        code_of(s, a).len() <= code_of(s, b).len(),
        code_of(s, b).take(code_of(s, a).len() as int) == code_of(s, a),
    decreases b - a,
{
    if a < b {
        lemma_code_grows(s, a, b - 1);
        assert(code_of(s, b).take(code_of(s, a).len() as int) =~= code_of(s, b - 1).take(
            code_of(s, a).len() as int,
        ));
    } else {
        assert(code_of(s, b).take(code_of(s, a).len() as int) =~= code_of(s, a));
    }
}

/// Reads the text of a capture and gives the bytes.
///
/// A comment starts at `#` and ends at the end of the line. White space does not count. What remains are
/// pairs of hexadecimal digits.
pub fn load(capture: &str) -> (r: Result<Vec<u8>, FixtureError>)
    ensures
        match r {
            Ok(v) => parsed(capture@) == Ok::<Seq<u8>, FixtureError>(v@),
            Err(e) => parsed(capture@) == Err::<Seq<u8>, FixtureError>(e),
        },
{
    let chars = text::chars_of(capture);
    let mut digits: Vec<u8> = Vec::new();
    let mut comment: bool = false;
    let mut i: usize = 0;
    let ghost mut code: Seq<char> = Seq::empty();
    while i < chars.len()
        invariant
            i <= chars@.len(),
            chars@ == capture@,
            comment == in_comment(chars@, i - 1),
            code == code_of(chars@, i as int),
            code.len() <= i,
            digits@.len() == code.len(),
            forall|k: int|
                0 <= k < code.len() ==> is_hex_digit(#[trigger] code[k]) && digits@[k]
                    == code[k] as u8 && is_hex(digits@[k]),
        decreases chars@.len() - i,
    {
        let c: char = chars[i];
        if c == '\n' {
            comment = false;
        } else if c == '#' {
            comment = true;
        }
        if !comment && !text::white(c) {
            if !hex_digit(c) {
                proof {
                    lemma_code_grows(chars@, i + 1, chars@.len() as int);
                    let whole = code_of(chars@, chars@.len() as int);
                    let part = code_of(chars@, i + 1);
                    assert forall|k: int| 0 <= k < part.len() implies whole[k] == part[k] by {
                        assert(whole.take(part.len() as int)[k] == whole[k]);
                    }
                    assert forall|k: int| 0 <= k < code.len() implies is_hex_digit(
                        #[trigger] whole[k],
                    ) by {
                        assert(part[k] == code[k]);
                    }
                    lemma_first_other(whole, 0, code.len() as int);
                }
                return Err(FixtureError::NotADigit(c));
            }
            digits.push(c as u8);
            proof {
                code = code.push(c);
            }
        }
        i = i + 1;
    }
    proof {
        lemma_no_other(code, 0);
    }
    if digits.len() % 2 != 0 {
        return Err(FixtureError::OddCount(digits.len()));
    }
    let mut out: Vec<u8> = Vec::new();
    let mut k: usize = 0;
    while k < digits.len()
        invariant
            k <= digits@.len(),
            k % 2 == 0,
            digits@.len() % 2 == 0,
            digits@.len() == code.len(),
            forall|j: int|
                0 <= j < code.len() ==> digits@[j] == #[trigger] code[j] as u8 && is_hex(
                    digits@[j],
                ),
            out@ == bytes_of(code).take(k as int / 2),
        decreases digits@.len() - k,
    {
        proof {
            assert(digits@[k as int] == code[k as int] as u8);
            assert(digits@[k + 1] == code[k + 1] as u8);
        }
        let hi: u8 = hex_value(digits[k]);
        let lo: u8 = hex_value(digits[k + 1]);
        proof {
            let n = k as int / 2;
            assert(code[k as int] == code[2 * n]);
            assert(code[k + 1] == code[2 * n + 1]);
            assert(bytes_of(code).take(n + 1) =~= bytes_of(code).take(n).push(bytes_of(code)[n]));
        }
        out.push(hi * 16 + lo);
        k = k + 2;
    }
    proof {
        assert(bytes_of(code).take(bytes_of(code).len() as int) =~= bytes_of(code));
    }
    Ok(out)
}

/// A comment at the end of a text changes nothing, whatever it holds up to the end of its line.
pub proof fn law_a_comment_does_not_matter(s: Seq<char>, comment: Seq<char>)
    requires
        !comment.contains('\n'),
    ensures
        parsed(s + seq!['#'] + comment) == parsed(s),
{
    let whole = s + seq!['#'] + comment;
    lemma_comment_goes_on(s, comment, comment.len() as int);
    assert(whole.take(s.len() as int) =~= s);
    lemma_same_code(s, whole, s.len() as int);
}

proof fn lemma_comment_goes_on(s: Seq<char>, comment: Seq<char>, n: int)
    requires
        !comment.contains('\n'),
        0 <= n <= comment.len(),
    ensures
        in_comment(s + seq!['#'] + comment, s.len() + n),
        code_of(s + seq!['#'] + comment, s.len() + 1 + n) == code_of(
            s + seq!['#'] + comment,
            s.len() as int,
        ),
    decreases n,
{
    let whole = s + seq!['#'] + comment;
    if n > 0 {
        lemma_comment_goes_on(s, comment, n - 1);
        assert(whole[s.len() + n] == comment[n - 1]);
    } else {
        assert(whole[s.len() as int] == '#');
    }
}

proof fn lemma_same_comment(a: Seq<char>, b: Seq<char>, i: int)
    requires
        -1 <= i < a.len() <= b.len(),
        b.take(a.len() as int) == a,
    ensures
        in_comment(a, i) == in_comment(b, i),
    decreases i + 1,
{
    if i >= 0 {
        lemma_same_comment(a, b, i - 1);
        assert(b.take(a.len() as int)[i] == b[i]);
    }
}

proof fn lemma_same_code(a: Seq<char>, b: Seq<char>, n: int)
    requires
        0 <= n <= a.len() <= b.len(),
        b.take(a.len() as int) == a,
    ensures
        code_of(a, n) == code_of(b, n),
    decreases n,
{
    if n > 0 {
        lemma_same_code(a, b, n - 1);
        lemma_same_comment(a, b, n - 1);
        assert(b.take(a.len() as int)[n - 1] == b[n - 1]);
    }
}

/// Bytes as pairs of digits, each with a space behind it.
pub open spec fn written(bytes: Seq<u8>) -> Seq<char>
    decreases bytes.len(),
{
    if bytes.len() == 0 {
        Seq::empty()
    } else {
        written(bytes.drop_last()) + text::hex(bytes.last() as nat, 2) + seq![' ']
    }
}

/// A capture gives back the bytes that were written to it as pairs of digits.
pub proof fn law_written_bytes_are_read_back(bytes: Seq<u8>)
    ensures
        parsed(written(bytes)) == Ok::<Seq<u8>, FixtureError>(bytes),
{
    lemma_written(bytes);
    let code = code_of(written(bytes), written(bytes).len() as int);
    lemma_no_other(code, 0);
}

proof fn lemma_digit(d: int)
    requires
        0 <= d < 16,
    ensures
        is_hex_digit(text::digit(d)),
        digit_value(text::digit(d) as u8) == d,
        !text::is_white_space(text::digit(d)),
        text::digit(d) != '#',
        text::digit(d) != '\n',
{
}

proof fn lemma_written(bytes: Seq<u8>)
    ensures
        ({
            let s = written(bytes);
            let code = code_of(s, s.len() as int);
            &&& !in_comment(s, s.len() - 1)
            &&& code.len() == 2 * bytes.len()
            &&& forall|i: int| 0 <= i < code.len() ==> is_hex_digit(#[trigger] code[i])
            &&& bytes_of(code) == bytes
        }),
    decreases bytes.len(),
{
    let s = written(bytes);
    if bytes.len() > 0 {
        let front = bytes.drop_last();
        let before = written(front);
        let n = before.len() as int;
        let b = bytes.last() as nat;
        lemma_written(front);
        reveal_with_fuel(text::hex, 3);
        let hi = text::digit(((b / 16) % 16) as int);
        let lo = text::digit((b % 16) as int);
        lemma_digit(((b / 16) % 16) as int);
        lemma_digit((b % 16) as int);
        assert(text::hex(b, 2) =~= seq![hi, lo]);
        assert(s =~= before + seq![hi, lo, ' ']);
        assert(s.take(n) =~= before);
        lemma_same_code(before, s, n);
        lemma_same_comment(before, s, n - 1);
        assert(s[n] == hi && s[n + 1] == lo && s[n + 2] == ' ');
        let old_code = code_of(before, n);
        assert(code_of(s, n + 1) == old_code.push(hi));
        assert(code_of(s, n + 2) == old_code.push(hi).push(lo));
        assert(code_of(s, n + 3) == old_code.push(hi).push(lo));
        let code = code_of(s, n + 3);
        assert forall|i: int| 0 <= i < bytes.len() implies bytes_of(code)[i] == bytes[i] by {
            if i < front.len() {
                assert(bytes_of(old_code)[i] == front[i]);
                assert(code[2 * i] == old_code[2 * i]);
                assert(code[2 * i + 1] == old_code[2 * i + 1]);
            } else {
                assert(code[2 * i] == hi);
                assert(code[2 * i + 1] == lo);
                assert((b / 16) % 16 * 16 + b % 16 == b);
            }
        }
        assert(bytes_of(code) =~= bytes);
    } else {
        assert(bytes_of(code_of(s, 0)) =~= bytes);
    }
}

/// The value of each hexadecimal digit, in either case.
pub proof fn law_what_a_digit_stands_for(b: u8, r: u8)
    requires
        is_hex(b),
        call_ensures(hex_value, (b,), r),
    ensures
        48 <= b <= 57 || 65 <= b <= 70 || 97 <= b <= 102,
        b <= 57 ==> r == b - 48,
        65 <= b <= 70 ==> r == b - 55,
        97 <= b ==> r == b - 87,
{
}

/// What one digit stands for.
pub open spec fn nibble(c: char) -> int {
    let v = c as int;
    if v <= 57 {
        v - 48
    } else if v <= 70 {
        v - 55
    } else {
        v - 87
    }
}

/// Whether a character is a digit of a capture.
pub open spec fn is_capture_digit(c: char) -> bool {
    let v = c as int;
    48 <= v <= 57 || 65 <= v <= 70 || 97 <= v <= 102
}

/// Digits are read in pairs, each pair as the byte that it stands for, in either case. An odd count of digits
/// is an error that says the count.
pub proof fn law_digits_are_read_in_pairs(s: Seq<char>)
    requires
        forall|i: int| 0 <= i < s.len() ==> is_capture_digit(#[trigger] s[i]),
        s.len() <= usize::MAX,
    ensures
        s.len() % 2 == 1 ==> parsed(s) == Err::<Seq<u8>, FixtureError>(
            FixtureError::OddCount(s.len() as usize),
        ),
        s.len() % 2 == 0 ==> parsed(s) is Ok && parsed(s)->Ok_0.len() * 2 == s.len(),
        s.len() % 2 == 0 ==> forall|i: int|
            0 <= 2 * i < s.len() ==> #[trigger] parsed(s)->Ok_0[i] == 16 * nibble(s[2 * i]) + nibble(
                s[2 * i + 1],
            ),
{
    lemma_all_code(s, s.len() as int);
    assert(s.take(s.len() as int) =~= s);
    assert forall|k: int| 0 <= k < s.len() implies is_hex_digit(#[trigger] s[k]) by {
        assert(is_capture_digit(s[k]));
    }
    lemma_no_other(s, 0);
    if s.len() % 2 == 0 {
        assert forall|i: int| 0 <= 2 * i < s.len() implies #[trigger] parsed(s)->Ok_0[i] == 16
            * nibble(s[2 * i]) + nibble(s[2 * i + 1]) by {
            assert(is_capture_digit(s[2 * i]));
            assert(is_capture_digit(s[2 * i + 1]));
        }
    }
}

/// A text of characters that are neither white space nor the start of a comment is all code.
proof fn lemma_all_code(s: Seq<char>, n: int)
    requires
        0 <= n <= s.len(),
        forall|i: int| 0 <= i < n ==> !text::is_white_space(#[trigger] s[i]) && s[i] != '#',
    ensures
        code_of(s, n) == s.take(n),
        n > 0 ==> !in_comment(s, n - 1),
    decreases n,
{
    if n > 0 {
        lemma_all_code(s, n - 1);
        assert(!in_comment(s, -1));
        assert(!text::is_white_space(s[n - 1]));
        assert(s.take(n) =~= s.take(n - 1).push(s[n - 1]));
        assert(code_of(s, n) =~= s.take(n));
    } else {
        assert(s.take(0) =~= Seq::empty());
    }
}

/// The first character that is no digit is an error that names it, whatever follows.
pub proof fn law_another_character_is_an_error(digits: Seq<char>, c: char, rest: Seq<char>)
    requires
        forall|i: int| 0 <= i < digits.len() ==> is_capture_digit(#[trigger] digits[i]),
        !is_capture_digit(c),
        !text::is_white_space(c),
        c != '#',
    ensures
        parsed(digits + seq![c] + rest) == Err::<Seq<u8>, FixtureError>(FixtureError::NotADigit(c)),
{
    let whole = digits + seq![c] + rest;
    let n = digits.len() as int;
    assert forall|i: int| 0 <= i < n + 1 implies !text::is_white_space(#[trigger] whole[i])
        && whole[i] != '#' by {
        if i < n {
            assert(whole[i] == digits[i]);
            assert(is_capture_digit(digits[i]));
        } else {
            assert(whole[i] == c);
        }
    }
    lemma_all_code(whole, n + 1);
    lemma_code_grows(whole, n + 1, whole.len() as int);
    let code = code_of(whole, whole.len() as int);
    assert forall|k: int| 0 <= k < n implies is_hex_digit(#[trigger] code[k]) by {
        assert(code.take(n + 1)[k] == code[k]);
        assert(whole.take(n + 1)[k] == digits[k]);
        assert(is_capture_digit(digits[k]));
    }
    assert(code.take(n + 1)[n] == code[n]);
    assert(whole.take(n + 1)[n] == c);
    lemma_first_other(code, 0, n);
}

/// White space on a line does not matter, wherever it stands.
pub proof fn law_white_space_does_not_matter(a: Seq<char>, w: char, b: Seq<char>)
    requires
        text::is_white_space(w),
        w != '\n',
    ensures
        parsed(a + seq![w] + b) == parsed(a + b),
{
    let s = a + seq![w] + b;
    let t = a + b;
    assert(s.take(a.len() as int) =~= a);
    assert(t.take(a.len() as int) =~= a);
    lemma_same_code(a, s, a.len() as int);
    lemma_same_code(a, t, a.len() as int);
    if a.len() > 0 {
        lemma_same_comment(a, s, a.len() - 1);
        lemma_same_comment(a, t, a.len() - 1);
    }
    assert(s[a.len() as int] == w);
    lemma_code_behind(a, w, b, b.len() as int);
}

proof fn lemma_code_behind(a: Seq<char>, w: char, b: Seq<char>, k: int)
    requires
        text::is_white_space(w),
        w != '\n',
        0 <= k <= b.len(),
        code_of(a + seq![w] + b, a.len() as int) == code_of(a + b, a.len() as int),
        in_comment(a + seq![w] + b, a.len() - 1) == in_comment(a + b, a.len() - 1),
    ensures
        code_of(a + seq![w] + b, a.len() + 1 + k) == code_of(a + b, a.len() + k),
        in_comment(a + seq![w] + b, a.len() + k) == in_comment(a + b, a.len() + k - 1),
    decreases k,
{
    let s = a + seq![w] + b;
    let t = a + b;
    assert(s[a.len() as int] == w);
    if k > 0 {
        lemma_code_behind(a, w, b, k - 1);
        assert(s[a.len() + k] == b[k - 1]);
        assert(t[a.len() + k - 1] == b[k - 1]);
    }
}

} // verus!
