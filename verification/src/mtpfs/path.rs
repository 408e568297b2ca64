//! Paths, and the names they are made of.

use vstd::prelude::*;

use crate::text;

verus! {

/// The pieces of a path between its separators. A path with no separator is one piece.
pub open spec fn segments(s: Seq<char>) -> Seq<Seq<char>>
    decreases s.len(),
{
    if s.len() == 0 {
        seq![Seq::empty()]
    } else {
        let before = segments(s.drop_last());
        if s.last() == '/' {
            before.push(Seq::empty())
        } else {
            before.drop_last().push(before.last().push(s.last()))
        }
    }
}

/// Whether a piece of a path names something. An empty piece and a dot do not.
pub open spec fn names_something(p: Seq<char>) -> bool {
    p.len() > 0 && p != seq!['.']
}

/// The pieces that name something, in order.
pub open spec fn naming(pieces: Seq<Seq<char>>) -> Seq<Seq<char>>
    decreases pieces.len(),
{
    if pieces.len() == 0 {
        Seq::empty()
    } else if names_something(pieces.last()) {
        naming(pieces.drop_last()).push(pieces.last())
    } else {
        naming(pieces.drop_last())
    }
}

/// The parts of a path, from the root on.
pub open spec fn parts(path: Seq<char>) -> Seq<Seq<char>> {
    naming(segments(path))
}

/// The texts of strings.
pub open spec fn texts(v: Seq<String>) -> Seq<Seq<char>> {
    v.map_values(|s: String| s@)
}

/// Takes a piece of a path into the parts, where it names something.
fn push_part(out: &mut Vec<String>, piece: &Vec<char>)
    ensures
        texts(final(out)@) == (if names_something(piece@) {
            texts(old(out)@).push(piece@)
        } else {
            texts(old(out)@)
        }),
{
    if piece.len() == 0 {
        return ;
    }
    if piece.len() == 1 && piece[0] == '.' {
        proof {
            assert(piece@ =~= seq!['.']);
        }
        return ;
    }
    proof {
        if piece@ == seq!['.'] {
            assert(piece@[0] == '.');
        }
    }
    let s = text::text_of(piece.as_slice());
    out.push(s);
    proof {
        assert(texts(out@) =~= texts(old(out)@).push(piece@));
    }
}

/// Splits a path into parts, and drops an empty part.
///
/// The function drops `.` and treats a repeated separator as one separator.
pub fn split_path(path: &str) -> (r: Vec<String>)
    ensures
        texts(r@) == parts(path@),
{
    let chars = text::chars_of(path);
    let mut out: Vec<String> = Vec::new();
    let mut piece: Vec<char> = Vec::new();
    let ghost mut done: Seq<Seq<char>> = Seq::empty();
    let mut i: usize = 0;
    proof {
        assert(chars@.take(0) =~= Seq::empty());
        assert(segments(chars@.take(0)) =~= done.push(piece@));
        assert(texts(out@) =~= naming(done));
    }
    while i < chars.len()
        invariant
            i <= chars@.len(),
            segments(chars@.take(i as int)) == done.push(piece@),
            texts(out@) == naming(done),
        decreases chars@.len() - i,
    {
        let c: char = chars[i];
        proof {
            assert(chars@.take(i + 1).drop_last() =~= chars@.take(i as int));
        }
        if c == '/' {
            push_part(&mut out, &piece);
            proof {
                let ended = done.push(piece@);
                assert(ended.drop_last() =~= done);
                done = ended;
            }
            piece = Vec::new();
            proof {
                assert(piece@ =~= Seq::empty());
            }
        } else {
            proof {
                assert(done.push(piece@).drop_last() =~= done);
            }
            piece.push(c);
        }
        i = i + 1;
    }
    push_part(&mut out, &piece);
    proof {
        assert(chars@.take(chars@.len() as int) =~= chars@);
        assert(done.push(piece@).drop_last() =~= done);
    }
    out
}

/// The position of the last separator among the first `n` characters.
pub open spec fn last_separator(s: Seq<char>, n: int) -> Option<int>
    decreases n,
{
    if n <= 0 {
        None
    } else if s[n - 1] == '/' {
        Some(n - 1)
    } else {
        last_separator(s, n - 1)
    }
}

/// The folder that a path names its last part in.
pub open spec fn folder_of(path: Seq<char>) -> Seq<char> {
    match last_separator(path, path.len() as int) {
        Some(i) => if i == 0 {
            seq!['/']
        } else {
            path.take(i)
        },
        None => seq!['/'],
    }
}

/// The last part of a path.
pub open spec fn name_of(path: Seq<char>) -> Seq<char> {
    match last_separator(path, path.len() as int) {
        Some(i) => path.skip(i + 1),
        None => path,
    }
}

/// Splits a path into the folder and the name.
pub fn split_parent(path: &str) -> (r: (String, String))
    ensures
        r.0@ == folder_of(path@),
        r.1@ == name_of(path@),
{
    let chars = text::chars_of(path);
    let mut n: usize = chars.len();
    while n > 0 && chars[n - 1] != '/'
        invariant
            n <= chars@.len(),
            last_separator(chars@, chars@.len() as int) == last_separator(chars@, n as int),
        decreases n,
    {
        n = n - 1;
    }
    let root: [char; 1] = ['/'];
    proof {
        assert(root@ =~= seq!['/']);
    }
    if n == 0 {
        return (text::text_of(&root), text::text_of(chars.as_slice()));
    }
    proof {
        assert(chars@.subrange(n as int, chars@.len() as int) =~= chars@.skip(n as int));
        assert(chars@.subrange(0, n - 1) =~= chars@.take(n - 1));
    }
    let name = text::text_of(vstd::slice::slice_subrange(chars.as_slice(), n, chars.len()));
    if n == 1 {
        return (text::text_of(&root), name);
    }
    (text::text_of(vstd::slice::slice_subrange(chars.as_slice(), 0, n - 1)), name)
}

/// A character as a folder shows it: a separator and a null cannot stand in a name.
pub open spec fn shown_char(c: char) -> char {
    if c == '/' || c == '\0' {
        '_'
    } else {
        c
    }
}

/// Gives a name as a folder shows it.
///
/// A name with a null or a separator cannot go in a folder, so each of them becomes an underscore.
pub fn shown_name(name: &str) -> (r: String)
    ensures
        r@ == name@.map_values(|c: char| shown_char(c)),
{
    let chars = text::chars_of(name);
    let mut out: String = String::new();
    let ghost shown = name@.map_values(|c: char| shown_char(c));
    let mut i: usize = 0;
    while i < chars.len()
        invariant
            i <= chars@.len(),
            chars@ == name@,
            shown == name@.map_values(|c: char| shown_char(c)),
            out@ == shown.take(i as int),
        decreases chars@.len() - i,
    {
        let c: char = chars[i];
        let s: char = if c == '/' || c == '\0' {
            '_'
        } else {
            c
        };
        proof {
            assert(shown.take(i + 1) =~= shown.take(i as int).push(s));
        }
        out.push(s);
        i = i + 1;
    }
    proof {
        assert(shown.take(shown.len() as int) =~= shown);
    }
    out
}

/// The parts of two paths with a separator between them are the parts of the first and then those of
/// the second. A repeated separator and a dot between separators therefore change nothing.
pub proof fn law_parts_join(a: Seq<char>, b: Seq<char>)
    ensures
        parts(a + seq!['/'] + b) == parts(a) + parts(b),
{
    lemma_segments_join(a, b);
    lemma_naming_join(segments(a), segments(b));
}

proof fn lemma_segments_join(a: Seq<char>, b: Seq<char>)
    ensures
        segments(a + seq!['/'] + b) == segments(a) + segments(b),
        segments(b).len() > 0,
    decreases b.len(),
{
    let s = a + seq!['/'] + b;
    if b.len() == 0 {
        assert(s.drop_last() =~= a);
        assert(s.last() == '/');
        assert(segments(s) =~= segments(a) + segments(b));
    } else {
        lemma_segments_join(a, b.drop_last());
        assert(s.drop_last() =~= a + seq!['/'] + b.drop_last());
        assert(s.last() == b.last());
        let x = segments(a);
        let y = segments(b.drop_last());
        assert((x + y).last() == y.last());
        assert((x + y).drop_last() =~= x + y.drop_last());
        assert(segments(s) =~= x + segments(b));
    }
}

proof fn lemma_naming_join(x: Seq<Seq<char>>, y: Seq<Seq<char>>)
    ensures
        naming(x + y) == naming(x) + naming(y),
    decreases y.len(),
{
    if y.len() == 0 {
        assert(x + y =~= x);
        assert(naming(x) + naming(y) =~= naming(x));
    } else {
        lemma_naming_join(x, y.drop_last());
        assert((x + y).drop_last() =~= x + y.drop_last());
        assert((x + y).last() == y.last());
        if names_something(y.last()) {
            assert(naming(x) + naming(y) =~= (naming(x) + naming(y.drop_last())).push(y.last()));
        }
    }
}

/// Whether a name is one part of a path.
pub open spec fn is_part(name: Seq<char>) -> bool {
    names_something(name) && !name.contains('/')
}

/// A name that is neither empty nor a dot, and that holds no separator, is the one part of itself. Two dots
/// and a name that starts with a dot are such names.
pub proof fn law_a_name_is_one_part(name: Seq<char>)
    requires
        name.len() > 0,
        name != seq!['.'],
        !name.contains('/'),
    ensures
        parts(name) == seq![name],
{
    lemma_one_segment(name);
    let p = seq![name];
    assert(p.drop_last() =~= Seq::empty());
    assert(naming(p.drop_last()) =~= Seq::empty());
    assert(naming(p) =~= seq![name]);
}

proof fn lemma_one_segment(name: Seq<char>)
    requires
        !name.contains('/'),
    ensures
        segments(name) == seq![name],
    decreases name.len(),
{
    if name.len() == 0 {
        assert(name =~= Seq::empty());
    } else {
        assert(name.contains(name.last()));
        assert forall|c: char| name.drop_last().contains(c) implies name.contains(c) by {
            let k = name.drop_last().index_of(c);
            assert(name[k] == c);
        }
        lemma_one_segment(name.drop_last());
        let before = segments(name.drop_last());
        assert(before.last().push(name.last()) =~= name);
        assert(segments(name) =~= seq![name]);
    }
}

/// The empty path, the separator and the dot have no parts: each of them is the root.
pub proof fn law_the_root_has_no_parts()
    ensures
        parts(Seq::empty()) == Seq::<Seq<char>>::empty(),
        parts(seq!['/']) == Seq::<Seq<char>>::empty(),
        parts(seq!['.']) == Seq::<Seq<char>>::empty(),
{
    let none = Seq::<Seq<char>>::empty();
    let one = seq![Seq::<char>::empty()];
    assert(one.drop_last() =~= none);
    assert(naming(none) =~= none);
    assert(parts(Seq::empty()) =~= none);
    let slash = seq!['/'];
    law_parts_join(Seq::empty(), Seq::empty());
    assert(Seq::<char>::empty() + slash + Seq::<char>::empty() =~= slash);
    assert(none + none =~= none);
    let dot = seq!['.'];
    lemma_one_segment(dot);
    assert(seq![dot].drop_last() =~= none);
    assert(naming(seq![dot]) =~= none);
}

/// Whatever folder and name a path is put together from, with a separator between them, it splits into them
/// again. A path with a separator at its start alone, or with none, names something in the root.
pub proof fn law_a_path_splits_into_folder_and_name(folder: Seq<char>, name: Seq<char>, path: &str, r: (String, String))
    requires
        !name.contains('/'),
        call_ensures(split_parent, (path,), r),
    ensures
        folder.len() > 0 && path@ == folder + seq!['/'] + name ==> r.0@ == folder && r.1@ == name,
        path@ == seq!['/'] + name ==> r.0@ == seq!['/'] && r.1@ == name,
        path@ == name ==> r.0@ == seq!['/'] && r.1@ == name,
{
    lemma_last_separator(folder, name);
    let whole = folder + seq!['/'] + name;
    assert(whole.take(folder.len() as int) =~= folder);
    assert(whole.skip((folder.len() + 1) as int) =~= name);
    lemma_last_separator(Seq::empty(), name);
    assert(Seq::<char>::empty() + seq!['/'] + name =~= seq!['/'] + name);
    assert((seq!['/'] + name).skip(1) =~= name);
    lemma_no_separator(name, name.len() as int);
}

proof fn lemma_last_separator(folder: Seq<char>, name: Seq<char>)
    requires
        !name.contains('/'),
    ensures
        last_separator(folder + seq!['/'] + name, (folder.len() + 1 + name.len()) as int) == Some(
            folder.len() as int,
        ),
    decreases name.len(),
{
    let whole = folder + seq!['/'] + name;
    if name.len() > 0 {
        let front = name.drop_last();
        assert(name.contains(name.last()));
        assert forall|c: char| front.contains(c) implies name.contains(c) by {
            let k = front.index_of(c);
            assert(name[k] == c);
        }
        lemma_last_separator(folder, front);
        assert((folder + seq!['/'] + front) =~= whole.drop_last());
        lemma_separator_of_front(whole, (whole.len() - 1) as int);
    }
}

/// What stands behind the first `n` characters does not matter for the last separator among them.
proof fn lemma_separator_of_front(s: Seq<char>, n: int)
    requires
        0 <= n <= s.len(),
    ensures
        last_separator(s, n) == last_separator(s.take(n), n),
    decreases n,
{
    if n > 0 {
        lemma_separator_of_front(s, n - 1);
        lemma_separator_of_front(s.take(n), n - 1);
        assert(s.take(n).take(n - 1) =~= s.take(n - 1));
    }
    assert(s.take(s.len() - 1) =~= s.drop_last());
}

proof fn lemma_no_separator(name: Seq<char>, n: int)
    requires
        !name.contains('/'),
        0 <= n <= name.len(),
    ensures
        last_separator(name, n) is None,
    decreases n,
{
    if n > 0 {
        assert(name.contains(name[n - 1]));
        lemma_no_separator(name, n - 1);
    }
}

/// A name is shown character by character: a separator and a null become an underscore, and every other
/// character stays.
pub proof fn law_how_a_name_is_shown(name: &str, r: String)
    requires
        call_ensures(shown_name, (name,), r),
    ensures
        r@.len() == name@.len(),
        forall|i: int|
            0 <= i < name@.len() ==> #[trigger] r@[i] == if name@[i] == '/' || name@[i] == '\0' {
                '_'
            } else {
                name@[i]
            },
{
}

} // verus!
