//! The transforms that rewrite single characters: tabs, line ends and
//! non-printing characters made visible.
//!
//! Each of them replaces some characters by a short marker and copies all
//! others. None of them adds or removes a newline, so the lines of the text
//! stay the same in number.

use vstd::prelude::*;
use crate::text::{lemma_pieces_append_plain, lemma_pieces_push, lines, pieces, plain, push_char};

verus! {

/// The transforms of this module.
#[derive(Clone, Copy, Debug, PartialEq, Eq, Structural)]
pub enum Escape {
    /// A tab is written `^I`.
    Tabs,
    /// A newline is written `$` and a newline.
    Ends,
    /// A tab is written `^I`, a NUL `^@`. Line ends are left to [`Escape::Ends`].
    Nonprinting,
}

impl Escape {
    /// What the character `c` is written as.
    pub open spec fn of(self, c: char) -> Seq<char> {
        match self {
            Escape::Tabs => if c == '\t' {
                seq!['^', 'I']
            } else {
                seq![c]
            },
            Escape::Ends => if c == '\n' {
                seq!['$', '\n']
            } else {
                seq![c]
            },
            Escape::Nonprinting => if c == '\t' {
                seq!['^', 'I']
            } else if c == '\0' {
                seq!['^', '@']
            } else {
                seq![c]
            },
        }
    }

    /// Whether the transform copies every character of `s` as it is.
    pub open spec fn leaves(self, s: Seq<char>) -> bool {
        forall|i: int| 0 <= i < s.len() ==> self.of(#[trigger] s[i]) == seq![s[i]]
    }

    /// The marker that replaces `c`, or `None` where `c` is copied.
    pub fn marker(self, c: char) -> (r: Option<&'static str>)
        ensures
            r is None <==> self.of(c) == seq![c],
            r matches Some(s) ==> s@ == self.of(c),
    {
        proof {
            reveal_strlit("^I");
            reveal_strlit("$\n");
            reveal_strlit("^@");
        }
        match self {
            Escape::Tabs => if c == '\t' {
                assert("^I"@ =~= seq!['^', 'I']);
                Some("^I")
            } else {
                None
            },
            Escape::Ends => if c == '\n' {
                assert("$\n"@ =~= seq!['$', '\n']);
                Some("$\n")
            } else {
                None
            },
            Escape::Nonprinting => if c == '\t' {
                assert("^I"@ =~= seq!['^', 'I']);
                Some("^I")
            } else if c == '\0' {
                assert("^@"@ =~= seq!['^', '@']);
                Some("^@")
            } else {
                None
            },
        }
    }
}

/// The text `t` with every character written as `k` writes it.
pub open spec fn escaped(k: Escape, t: Seq<char>) -> Seq<char>
    decreases t.len(),
{
    if t.len() == 0 {
        t
    } else {
        escaped(k, t.drop_last()) + k.of(t.last())
    }
}

/// How many newlines `t` holds.
pub open spec fn newlines(t: Seq<char>) -> nat
    decreases t.len(),
{
    if t.len() == 0 {
        0
    } else if t.last() == '\n' {
        newlines(t.drop_last()) + 1
    } else {
        newlines(t.drop_last())
    }
}

/// Rewrites `text` character by character.
pub fn escape(text: &String, kind: Escape) -> (r: String)
    ensures
        r@ == escaped(kind, text@),
{
    let mut out = String::new();
    for c in it: text.as_str().chars()
        invariant
            it.seq() == text@,
            out@ == escaped(kind, text@.take(it.index())),
    {
        assert(text@.take(it.index() + 1).drop_last() =~= text@.take(it.index()));
        match kind.marker(c) {
            Some(s) => {
                out.append(s);
            },
            None => {
                push_char(&mut out, c);
                assert(out@ =~= escaped(kind, text@.take(it.index())) + seq![c]);
            },
        }
    }
    assert(text@.take(text@.len() as int) =~= text@);
    out
}

/// Writes every tab as `^I`.
pub fn show_tabs(read: &String) -> (r: String)
    ensures
        r@ == escaped(Escape::Tabs, read@),
{
    escape(read, Escape::Tabs)
}

/// Writes `$` before every newline.
///
/// A last line that no newline ends gets no mark.
pub fn show_ends(read: &String) -> (r: String)
    ensures
        r@ == escaped(Escape::Ends, read@),
{
    escape(read, Escape::Ends)
}

/// Writes every tab as `^I` and every NUL as `^@`. Line ends are not marked.
pub fn show_nonprinting(read: &String) -> (r: String)
    ensures
        r@ == escaped(Escape::Nonprinting, read@),
{
    escape(read, Escape::Nonprinting)
}

/// Rewriting goes through concatenation.
pub proof fn lemma_escaped_concat(k: Escape, a: Seq<char>, b: Seq<char>)
    ensures
        escaped(k, a + b) == escaped(k, a) + escaped(k, b),
    decreases b.len(),
{
    if b.len() == 0 {
        assert(a + b =~= a);
        assert(escaped(k, a) + escaped(k, b) =~= escaped(k, a));
    } else {
        lemma_escaped_concat(k, a, b.drop_last());
        assert((a + b).drop_last() =~= a + b.drop_last());
        assert(escaped(k, a + b) =~= escaped(k, a) + escaped(k, b));
    }
}

/// A text in which the transform finds nothing to rewrite comes out unchanged.
pub proof fn lemma_escaped_leaves(k: Escape, s: Seq<char>)
    requires
        k.leaves(s),
    ensures
        escaped(k, s) == s,
    decreases s.len(),
{
    if s.len() > 0 {
        lemma_escaped_leaves(k, s.drop_last());
        assert(k.of(s[s.len() - 1]) == seq![s.last()]);
        assert(s.drop_last() + seq![s.last()] =~= s);
    }
}

/// What `Tabs` or `Nonprinting` has written holds nothing that it would
/// rewrite.
pub proof fn lemma_escaped_is_left(k: Escape, t: Seq<char>)
    requires
        k != Escape::Ends,
    ensures
        k.leaves(escaped(k, t)),
    decreases t.len(),
{
    if t.len() > 0 {
        lemma_escaped_is_left(k, t.drop_last());
        let head = escaped(k, t.drop_last());
        let tail = k.of(t.last());
        assert forall|i: int| 0 <= i < (head + tail).len() implies k.of(#[trigger] (head + tail)[i])
            == seq![(head + tail)[i]] by {
            if i < head.len() {
                assert((head + tail)[i] == head[i]);
            } else {
                assert((head + tail)[i] == tail[i - head.len()]);
            }
        }
    }
}

/// `show_tabs` is idempotent.
pub proof fn show_tabs_is_idempotent(t: Seq<char>)
    ensures
        escaped(Escape::Tabs, escaped(Escape::Tabs, t)) == escaped(Escape::Tabs, t),
{
    lemma_escaped_is_left(Escape::Tabs, t);
    lemma_escaped_leaves(Escape::Tabs, escaped(Escape::Tabs, t));
}

/// `show_nonprinting` is idempotent.
pub proof fn show_nonprinting_is_idempotent(t: Seq<char>)
    ensures
        escaped(Escape::Nonprinting, escaped(Escape::Nonprinting, t)) == escaped(
            Escape::Nonprinting,
            t,
        ),
{
    lemma_escaped_is_left(Escape::Nonprinting, t);
    lemma_escaped_leaves(Escape::Nonprinting, escaped(Escape::Nonprinting, t));
}

/// How the count changes when one character is added at the end.
pub proof fn lemma_newlines_push(t: Seq<char>, c: char)
    ensures
        newlines(t.push(c)) == newlines(t) + if c == '\n' { 1nat } else { 0nat },
{
    assert(t.push(c).drop_last() =~= t);
}

/// The length after `show_ends`, and the newlines it keeps.
pub proof fn lemma_ends_length(t: Seq<char>)
    ensures
        escaped(Escape::Ends, t).len() == t.len() + newlines(t),
        newlines(escaped(Escape::Ends, t)) == newlines(t),
    decreases t.len(),
{
    if t.len() > 0 {
        let head = escaped(Escape::Ends, t.drop_last());
        lemma_ends_length(t.drop_last());
        if t.last() == '\n' {
            assert(head + seq!['$', '\n'] =~= head.push('$').push('\n'));
            lemma_newlines_push(head, '$');
            lemma_newlines_push(head.push('$'), '\n');
        } else {
            assert(head + seq![t.last()] =~= head.push(t.last()));
            lemma_newlines_push(head, t.last());
        }
    }
}

/// A text holds no newline exactly if it counts none.
pub proof fn lemma_newlines_plain(t: Seq<char>)
    ensures
        plain(t) <==> newlines(t) == 0,
    decreases t.len(),
{
    if t.len() > 0 {
        lemma_newlines_plain(t.drop_last());
        if t.last() != '\n' {
            if plain(t.drop_last()) {
                assert forall|i: int| 0 <= i < t.len() implies t[i] != '\n' by {
                    if i < t.len() - 1 {
                        assert(t.drop_last()[i] == t[i]);
                    }
                }
            } else {
                let i = choose|i: int| 0 <= i < t.drop_last().len() && t.drop_last()[i] == '\n';
                assert(t[i] == '\n');
            }
        } else {
            assert(t[t.len() - 1] == '\n');
        }
    }
}

/// `show_ends` is idempotent on a text without newlines, and on no other:
/// a second pass marks every line end once more.
pub proof fn show_ends_is_idempotent_without_newlines(t: Seq<char>)
    ensures
        plain(t) <==> escaped(Escape::Ends, escaped(Escape::Ends, t)) == escaped(Escape::Ends, t),
        plain(t) ==> escaped(Escape::Ends, t) == t,
{
    lemma_newlines_plain(t);
    lemma_ends_length(t);
    lemma_ends_length(escaped(Escape::Ends, t));
    if plain(t) {
        assert(Escape::Ends.leaves(t));
        lemma_escaped_leaves(Escape::Ends, t);
    }
}

/// No transform of this module changes how many pieces a text has, nor
/// whether the last of them is empty.
pub proof fn lemma_escaped_pieces(k: Escape, t: Seq<char>)
    ensures
        pieces(escaped(k, t)).len() == pieces(t).len(),
        pieces(t).len() >= 1,
        pieces(escaped(k, t)).last().len() == 0 <==> pieces(t).last().len() == 0,
    decreases t.len(),
{
    if t.len() > 0 {
        let t0 = t.drop_last();
        let c = t.last();
        let head = escaped(k, t0);
        lemma_escaped_pieces(k, t0);
        lemma_pieces_push(t0, c);
        assert(t0.push(c) =~= t);
        if c == '\n' {
            if k == Escape::Ends {
                lemma_pieces_push(head, '$');
                lemma_pieces_push(head.push('$'), '\n');
                assert(head + seq!['$', '\n'] =~= head.push('$').push('\n'));
            } else {
                lemma_pieces_push(head, '\n');
                assert(head + seq!['\n'] =~= head.push('\n'));
            }
        } else {
            assert(plain(k.of(c)));
            lemma_pieces_append_plain(head, k.of(c));
        }
    }
}

/// The transforms of this module keep the number of lines.
pub proof fn escaped_keeps_line_count(k: Escape, t: Seq<char>)
    ensures
        lines(escaped(k, t)).len() == lines(t).len(),
{
    lemma_escaped_pieces(k, t);
}

} // verus!
