//! What a user asks the mount program for.
//!
//! The form follows the other mount programs of FreeBSD: a device comes first, and a folder second. A
//! call without a device takes the first one that the host finds.

use vstd::prelude::*;
use vstd::string::*;

use crate::mtpfs::path;
use crate::text;
use crate::usb::discover;
use crate::usb::discover::Node;

verus! {

/// What a user asks for.
#[derive(Debug, Clone, PartialEq, Eq)]
pub enum Call {
    /// Explain the program.
    Help,
    /// List each device that gives MTP.
    List,
    /// Report the maker and the model of a device.
    Name { node: Option<Node> },
    /// Mount a device, with the arguments that the mount takes.
    Mount { node: Option<Node>, rest: Vec<String> },
}

/// What a [`Call`] says.
pub enum CallView {
    Help,
    List,
    Name { node: Option<Node> },
    Mount { node: Option<Node>, rest: Seq<Seq<char>> },
}

impl View for Call {
    type V = CallView;

    open spec fn view(&self) -> CallView {
        match *self {
            Call::Help => CallView::Help,
            Call::List => CallView::List,
            Call::Name { node } => CallView::Name { node },
            Call::Mount { node, rest } => CallView::Mount { node, rest: path::texts(rest@) },
        }
    }
}

/// Whether the word at a position asks for the name of a device.
pub open spec fn asks_for_name(words: Seq<Seq<char>>, i: int) -> bool {
    i < words.len() && words[i] == "--name"@
}

/// The node that the word at a position names.
pub open spec fn node_at(words: Seq<Seq<char>>, i: int) -> Option<Node> {
    if i < words.len() {
        discover::node_of(words[i])
    } else {
        None
    }
}

/// What the words behind the name of the program ask for. `--name` stands in front of the node name of a
/// device or behind it, or alone for the first device.
pub open spec fn call_of(words: Seq<Seq<char>>) -> CallView {
    if words.len() == 0 || words[0] == "--help"@ || words[0] == "-h"@ {
        CallView::Help
    } else if words[0] == "-l"@ {
        CallView::List
    } else if asks_for_name(words, 0) {
        CallView::Name { node: node_at(words, 1) }
    } else if discover::node_of(words[0]) is Some && asks_for_name(words, 1) {
        CallView::Name { node: node_at(words, 0) }
    } else if discover::node_of(words[0]) is Some {
        CallView::Mount { node: discover::node_of(words[0]), rest: words.skip(1) }
    } else {
        CallView::Mount { node: None, rest: words }
    }
}

/// Gives the words from a position on.
fn words_from(words: &[String], from: usize) -> (r: Vec<String>)
    requires
        from <= words@.len(),
    ensures
        path::texts(r@) == path::texts(words@).skip(from as int),
{
    let mut out: Vec<String> = Vec::new();
    let ghost all = path::texts(words@).skip(from as int);
    let mut i: usize = from;
    proof {
        assert(path::texts(out@) =~= all.take(0));
    }
    while i < words.len()
        invariant
            from <= i <= words@.len(),
            all == path::texts(words@).skip(from as int),
            path::texts(out@) == all.take(i - from),
        decreases words@.len() - i,
    {
        let ghost before = out@;
        let word = text::owned(words[i].as_str());
        proof {
            assert(path::texts(before.push(word)) =~= path::texts(before).push(word@));
            assert(all.take(i - from + 1) =~= all.take(i - from).push(words@[i as int]@));
        }
        out.push(word);
        i = i + 1;
    }
    proof {
        assert(all.take(all.len() as int) =~= all);
    }
    out
}

/// Reads the node that the word at a position names.
fn read_node(words: &[String], i: usize) -> (r: Option<Node>)
    ensures
        r == node_at(path::texts(words@), i as int),
{
    if i < words.len() {
        discover::parse_node(words[i].as_str())
    } else {
        None
    }
}

/// Reads what a user asks for from the words behind the name of the program.
pub fn call(words: &[String]) -> (r: Call)
    ensures
        r@ == call_of(path::texts(words@)),
{
    if words.len() == 0 {
        return Call::Help;
    }
    let first: &str = words[0].as_str();
    if text::same(first, "--help") || text::same(first, "-h") {
        return Call::Help;
    }
    if text::same(first, "-l") {
        return Call::List;
    }
    if text::same(first, "--name") {
        return Call::Name { node: read_node(words, 1) };
    }
    match discover::parse_node(first) {
        Some(node) => if words.len() > 1 && text::same(words[1].as_str(), "--name") {
            Call::Name { node: Some(node) }
        } else {
            Call::Mount { node: Some(node), rest: words_from(words, 1) }
        },
        None => {
            let rest = words_from(words, 0);
            proof {
                assert(path::texts(words@).skip(0) =~= path::texts(words@));
            }
            Call::Mount { node: None, rest }
        },
    }
}

/// The arguments that the mount gets: the name of the program, and the option that keeps the mount in one
/// thread, in front of what the user gave.
pub fn mount_arguments(rest: &[String]) -> (r: Vec<String>)
    ensures
        path::texts(r@) == seq!["mtpfs"@, "-s"@] + path::texts(rest@),
{
    let mut out: Vec<String> = Vec::new();
    out.push(text::owned("mtpfs"));
    out.push(text::owned("-s"));
    let ghost head = out@;
    let mut given = words_from(rest, 0);
    let ghost more = given@;
    out.append(&mut given);
    proof {
        assert(path::texts(rest@).skip(0) =~= path::texts(rest@));
        assert(path::texts(head) =~= seq!["mtpfs"@, "-s"@]);
        assert(path::texts(head + more) =~= path::texts(head) + path::texts(more));
    }
    out
}

/// A user who names a device gets that device, and the words behind it go to the mount. Where the first of
/// them is `--name`, the user gets the name of that device. In both forms a node name gives the same device.
pub proof fn law_a_named_device_is_mounted(bus: u8, address: u8, rest: Seq<Seq<char>>)
    ensures
        ({
            let name = discover::node_text(bus, address);
            let node = Some((bus, address));
            let call = if asks_for_name(rest, 0) {
                CallView::Name { node }
            } else {
                CallView::Mount { node, rest }
            };
            &&& call_of(seq![name] + rest) == call
            &&& call_of(seq!["/dev/"@ + name] + rest) == call
            &&& call_of(seq!["--name"@, name] + rest) == CallView::Name { node }
            &&& call_of(seq!["--name"@, "/dev/"@ + name] + rest) == CallView::Name { node }
        }),
{
    let name = discover::node_text(bus, address);
    discover::law_node_round_trip(bus, address);
    reveal_strlit("ugen");
    reveal_strlit("/dev/");
    reveal_strlit("--help");
    reveal_strlit("-h");
    reveal_strlit("-l");
    reveal_strlit("--name");
    assert(name[0] == 'u');
    assert(("/dev/"@ + name)[0] == '/');
    assert("--help"@[0] == '-' && "-h"@[0] == '-' && "-l"@[0] == '-' && "--name"@[0] == '-');
    assert("--help"@[2] == 'h' && "--name"@[2] == 'n');
    assert("-h"@.len() == 2 && "-l"@.len() == 2 && "--name"@.len() == 6);
    assert((seq![name] + rest).skip(1) =~= rest);
    assert((seq!["/dev/"@ + name] + rest).skip(1) =~= rest);
}

/// What a command line asks for. No word, `--help` and `-h` ask for help, `-l` for the list, and `--name` for
/// the name, whatever follows. Any other first word that is no node belongs to the mount, with all the words
/// behind it.
pub proof fn law_what_the_words_ask_for(words: &[String], r: Call)
    requires
        call_ensures(call, (words,), r),
    ensures
        words@.len() == 0 ==> r is Help,
        words@.len() > 0 ==> {
            let first = words@[0]@;
            let node = discover::node_of(first);
            let flag = first == seq!['-', '-', 'h', 'e', 'l', 'p'] || first == seq!['-', 'h'] || first
                == seq!['-', 'l'] || first == seq!['-', '-', 'n', 'a', 'm', 'e'];
            &&& first == seq!['-', '-', 'h', 'e', 'l', 'p'] || first == seq!['-', 'h'] ==> r is Help
            &&& first == seq!['-', 'l'] ==> r is List
            &&& first == seq!['-', '-', 'n', 'a', 'm', 'e'] ==> r == (Call::Name {
                node: if words@.len() > 1 {
                    discover::node_of(words@[1]@)
                } else {
                    None
                },
            })
            &&& !flag && node is None ==> {
                &&& r is Mount
                &&& r->Mount_node is None
                &&& r->Mount_rest@.len() == words@.len()
                &&& forall|i: int|
                    0 <= i < words@.len() ==> #[trigger] r->Mount_rest@[i]@ == words@[i]@
            }
            &&& !flag && node is Some && words@.len() > 1
                && words@[1]@ == seq!['-', '-', 'n', 'a', 'm', 'e'] ==> r == (Call::Name { node })
            &&& !flag && node is Some && !(words@.len() > 1
                && words@[1]@ == seq!['-', '-', 'n', 'a', 'm', 'e']) ==> {
                &&& r is Mount
                &&& r->Mount_node == node
                &&& r->Mount_rest@.len() == words@.len() - 1
                &&& forall|i: int|
                    0 <= i < words@.len() - 1 ==> #[trigger] r->Mount_rest@[i]@ == words@[i + 1]@
            }
        },
{
    let t = path::texts(words@);
    reveal_strlit("--help");
    reveal_strlit("-h");
    reveal_strlit("-l");
    reveal_strlit("--name");
    assert("--help"@ =~= seq!['-', '-', 'h', 'e', 'l', 'p']);
    assert("-h"@ =~= seq!['-', 'h']);
    assert("-l"@ =~= seq!['-', 'l']);
    assert("--name"@ =~= seq!['-', '-', 'n', 'a', 'm', 'e']);
    if words@.len() > 0 {
        assert(t[0] == words@[0]@);
        assert("--name"@[2] == 'n' && "--help"@[2] == 'h');
        if words@.len() > 1 {
            assert(t[1] == words@[1]@);
        }
        if r is Mount {
            let rest = path::texts(r->Mount_rest@);
            assert(rest.len() == r->Mount_rest@.len());
            assert(t.skip(1).len() == words@.len() - 1);
            assert forall|i: int| 0 <= i < r->Mount_rest@.len() implies #[trigger] r->Mount_rest@[i]@
                == rest[i] by {}
        }
    }
}

/// The words that a mount gets start with the name of the program and the flag for one thread, and then hold
/// every word that is left, in order.
pub proof fn law_which_words_a_mount_gets(rest: &[String], r: Vec<String>)
    requires
        call_ensures(mount_arguments, (rest,), r),
    ensures
        r@.len() == rest@.len() + 2,
        r@[0]@ == "mtpfs"@,
        r@[1]@ == "-s"@,
        forall|i: int| 0 <= i < rest@.len() ==> #[trigger] r@[i + 2]@ == rest@[i]@,
{
    let all = path::texts(r@);
    assert(all.len() == rest@.len() + 2);
    assert(all[0] == r@[0]@ && all[1] == r@[1]@);
    assert forall|i: int| 0 <= i < rest@.len() implies #[trigger] r@[i + 2]@ == rest@[i]@ by {
        assert(all[i + 2] == path::texts(rest@)[i]);
    }
}

} // verus!
