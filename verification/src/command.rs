//! Descriptions of host programs to run: a program name and its arguments.
//! The library decides what to run; the daemon around it runs it.

use crate::parse::lacks;
use crate::text::{append_str, string_from};
use vstd::prelude::*;

verus! {

/// The text of each string of a list.
pub open spec fn words(v: Seq<String>) -> Seq<Seq<char>> {
    v.map_values(|s: String| s@)
}

/// The words of `v` joined by `sep`.
pub open spec fn join_words(v: Seq<Seq<char>>, sep: Seq<char>) -> Seq<char>
    decreases v.len(),
{
    if v.len() == 0 {
        Seq::empty()
    } else if v.len() == 1 {
        v[0]
    } else {
        join_words(v.drop_last(), sep) + sep + v.last()
    }
}

/// Joining at least two words: the first, the separator, then the rest
/// joined.
pub proof fn lemma_join_front(v: Seq<Seq<char>>, sep: Seq<char>)
    requires
        v.len() >= 2,
    ensures
        join_words(v, sep) == v[0] + sep + join_words(v.drop_first(), sep),
    decreases v.len(),
{
    let r = v.drop_first();
    if v.len() == 2 {
        assert(v.drop_last().len() == 1);
        assert(v.drop_last()[0] == v[0]);
        assert(r.len() == 1);
        assert(r[0] == v.last());
        assert(join_words(v.drop_last(), sep) == v[0]);
        assert(join_words(r, sep) == r[0]);
        assert(join_words(v, sep) == join_words(v.drop_last(), sep) + sep + v.last());
    } else {
        lemma_join_front(v.drop_last(), sep);
        assert(v.drop_last().drop_first() =~= r.drop_last());
        assert(v.drop_last()[0] == v[0]);
        assert(r.last() == v.last());
        assert(join_words(r, sep) == join_words(r.drop_last(), sep) + sep + r.last());
        assert(join_words(v, sep) == join_words(v.drop_last(), sep) + sep + v.last());
        assert(v[0] + sep + join_words(r.drop_last(), sep) + sep + v.last() =~= v[0] + sep + (
        join_words(r.drop_last(), sep) + sep + r.last()));
    }
}

/// Joined words hold no character that neither the words nor the separator
/// hold.
pub proof fn lemma_join_lacks(v: Seq<Seq<char>>, sep: Seq<char>, c: char)
    requires
        forall|i: int| 0 <= i < v.len() ==> lacks(#[trigger] v[i], c),
        lacks(sep, c),
    ensures
        lacks(join_words(v, sep), c),
    decreases v.len(),
{
    if v.len() == 1 {
        assert(lacks(v[0], c));
    } else if v.len() >= 2 {
        let r = v.drop_last();
        assert forall|i: int| 0 <= i < r.len() implies lacks(#[trigger] r[i], c) by {
            assert(r[i] == v[i]);
        }
        lemma_join_lacks(r, sep, c);
        let j = join_words(r, sep);
        assert(lacks(v.last(), c)) by {
            assert(v.last() == v[v.len() - 1]);
        }
        assert forall|k: int| 0 <= k < join_words(v, sep).len() implies join_words(v, sep)[k] != c by {
            if k < j.len() {
                assert(join_words(v, sep)[k] == j[k]);
            } else if k < j.len() + sep.len() {
                assert(join_words(v, sep)[k] == sep[k - j.len()]);
            } else {
                assert(join_words(v, sep)[k] == v.last()[k - j.len() - sep.len()]);
            }
        }
    }
}

/// The last character of joined words: that of the last word, or of the
/// separator when the last word is empty.
pub proof fn lemma_join_last(v: Seq<Seq<char>>, sep: Seq<char>)
    requires
        v.len() >= 2,
        sep.len() > 0,
    ensures
        join_words(v, sep).len() > 0,
        join_words(v, sep).last() == if v.last().len() > 0 {
            v.last().last()
        } else {
            sep.last()
        },
{
    let j = join_words(v.drop_last(), sep);
    assert(join_words(v, sep) == j + sep + v.last());
}

/// A program to run on the host and its arguments.
#[derive(Clone, Debug, Eq, PartialEq)]
pub struct HostCommand {
    pub program: String,
    pub args: Vec<String>,
}

/// The content of a host command.
pub struct HostCommandView {
    pub program: Seq<char>,
    pub args: Seq<Seq<char>>,
}

impl View for HostCommand {
    type V = HostCommandView;

    open spec fn view(&self) -> HostCommandView {
        HostCommandView { program: self.program@, args: words(self.args@) }
    }
}

/// Appends a word to an argument list.
pub fn push_word(v: &mut Vec<String>, w: &str)
    ensures
        words(final(v)@) == words(old(v)@).push(w@),
{
    v.push(string_from(w));
    assert(words(v@) =~= words(old(v)@).push(w@));
}

/// Appends an owned word to an argument list.
pub fn push_owned(v: &mut Vec<String>, w: String)
    ensures
        words(final(v)@) == words(old(v)@).push(w@),
{
    let ghost text = w@;
    v.push(w);
    assert(words(v@) =~= words(old(v)@).push(text));
}

/// Appends every word of `ws` to an argument list.
pub fn push_all(v: &mut Vec<String>, ws: &Vec<String>)
    ensures
        words(final(v)@) == words(old(v)@) + words(ws@),
{
    let ghost start = words(v@);
    let mut i: usize = 0;
    while i < ws.len()
        invariant
            i <= ws.len(),
            words(v@) == start + words(ws@.take(i as int)),
        decreases ws.len() - i,
    {
        push_owned(v, ws[i].clone());
        assert(words(ws@.take(i + 1)) =~= words(ws@.take(i as int)).push(ws@[i as int]@));
        i += 1;
    }
    assert(ws@.take(ws.len() as int) =~= ws@);
}

/// The words of `v` joined by `sep`.
pub fn join_strings(v: &Vec<String>, sep: &str) -> (r: String)
    ensures
        r@ == join_words(words(v@), sep@),
{
    let mut out = String::new();
    let mut i: usize = 0;
    while i < v.len()
        invariant
            i <= v.len(),
            out@ == join_words(words(v@.take(i as int)), sep@),
        decreases v.len() - i,
    {
        let ghost before = words(v@.take(i as int));
        if i > 0 {
            append_str(&mut out, sep);
        }
        append_str(&mut out, v[i].as_str());
        proof {
            let after = words(v@.take(i + 1));
            assert(after =~= before.push(v@[i as int]@));
            assert(after.drop_last() =~= before);
            if i == 0 {
                assert(before.len() == 0);
            }
        }
        i += 1;
    }
    assert(v@.take(v.len() as int) =~= v@);
    out
}

impl HostCommand {
    /// The command as one line: the program, then the arguments, separated
    /// by spaces.
    pub fn command_line(&self) -> (r: String)
        ensures
            r@ == self.program@ + " "@ + join_words(words(self.args@), " "@),
    {
        let mut out = string_from(self.program.as_str());
        append_str(&mut out, " ");
        let rest = join_strings(&self.args, " ");
        append_str(&mut out, rest.as_str());
        out
    }
}

} // verus!
