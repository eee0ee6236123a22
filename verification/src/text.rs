//! Text as a sequence of characters, and as a sequence of lines.
//!
//! A text is the view of a `String`: a `Seq<char>`. Lines are delimited by the
//! newline character and by nothing else; a carriage return is an ordinary
//! character of its line. A newline at the very end of a text ends the last
//! line, it does not start another one.

use vstd::prelude::*;

verus! {

/// Whether `l` holds no newline.
pub open spec fn plain(l: Seq<char>) -> bool {
    forall|i: int| 0 <= i < l.len() ==> l[i] != '\n'
}

/// Whether every member of `ls` is [`plain`].
pub open spec fn all_plain(ls: Seq<Seq<char>>) -> bool {
    forall|i: int| 0 <= i < ls.len() ==> plain(#[trigger] ls[i])
}

/// What stands between the newlines of `t`: one piece more than `t` has
/// newlines, the last of them holding what follows the last newline.
pub open spec fn pieces(t: Seq<char>) -> Seq<Seq<char>>
    decreases t.len(),
{
    if t.len() == 0 {
        seq![Seq::<char>::empty()]
    } else {
        let before = pieces(t.drop_last());
        if t.last() == '\n' {
            before.push(Seq::<char>::empty())
        } else {
            before.drop_last().push(before.last().push(t.last()))
        }
    }
}

/// The lines of `t`: its pieces, without the last one where that is empty
/// (the text is empty, or ends in a newline).
pub open spec fn lines(t: Seq<char>) -> Seq<Seq<char>> {
    let p = pieces(t);
    if p.last().len() == 0 {
        p.drop_last()
    } else {
        p
    }
}

/// The text made of the lines `ls`, each followed by a newline.
pub open spec fn joined(ls: Seq<Seq<char>>) -> Seq<char>
    decreases ls.len(),
{
    if ls.len() == 0 {
        Seq::<char>::empty()
    } else {
        joined(ls.drop_last()) + ls.last() + seq!['\n']
    }
}

/// The character sequences held by a vector of lines.
pub open spec fn line_views(v: Seq<Vec<char>>) -> Seq<Seq<char>> {
    Seq::new(v.len(), |i: int| v[i]@)
}

/// For each line, whether it is empty.
pub open spec fn blanks(ls: Seq<Seq<char>>) -> Seq<bool> {
    Seq::new(ls.len(), |i: int| ls[i].len() == 0)
}

/// A text always has at least one piece.
pub proof fn lemma_pieces_nonempty(t: Seq<char>)
    ensures
        pieces(t).len() >= 1,
    decreases t.len(),
{
    if t.len() > 0 {
        lemma_pieces_nonempty(t.drop_last());
    }
}

/// How the pieces change when one character is added at the end.
pub proof fn lemma_pieces_push(t: Seq<char>, c: char)
    ensures
        pieces(t).len() >= 1,
        c == '\n' ==> pieces(t.push(c)) == pieces(t).push(Seq::<char>::empty()),
        c != '\n' ==> pieces(t.push(c)) == pieces(t).drop_last().push(pieces(t).last().push(c)),
{
    lemma_pieces_nonempty(t);
    assert(t.push(c).drop_last() =~= t);
}

/// Adding characters other than newlines only lengthens the last piece.
pub proof fn lemma_pieces_append_plain(a: Seq<char>, b: Seq<char>)
    requires
        plain(b),
    ensures
        pieces(a).len() >= 1,
        pieces(a + b) == pieces(a).drop_last().push(pieces(a).last() + b),
    decreases b.len(),
{
    lemma_pieces_nonempty(a);
    if b.len() == 0 {
        assert(a + b =~= a);
        assert(pieces(a).last() + b =~= pieces(a).last());
        assert(pieces(a).drop_last().push(pieces(a).last()) =~= pieces(a));
    } else {
        let b0 = b.drop_last();
        let c = b.last();
        lemma_pieces_append_plain(a, b0);
        lemma_pieces_push(a + b0, c);
        assert((a + b0).push(c) =~= a + b);
        assert((pieces(a).last() + b0).push(c) =~= pieces(a).last() + b);
        assert(pieces(a + b) =~= pieces(a).drop_last().push(pieces(a).last() + b));
    }
}

/// No piece of a text holds a newline.
pub proof fn lemma_pieces_plain(t: Seq<char>)
    ensures
        all_plain(pieces(t)),
        all_plain(lines(t)),
    decreases t.len(),
{
    if t.len() > 0 {
        lemma_pieces_plain(t.drop_last());
        lemma_pieces_nonempty(t.drop_last());
    }
}

/// How joining changes when one line is added at the end.
pub proof fn lemma_joined_push(ls: Seq<Seq<char>>, l: Seq<char>)
    ensures
        joined(ls.push(l)) == joined(ls) + l + seq!['\n'],
{
    assert(ls.push(l).drop_last() =~= ls);
}

/// Joining one run of lines after another joins their concatenation.
pub proof fn lemma_joined_concat(a: Seq<Seq<char>>, b: Seq<Seq<char>>)
    ensures
        joined(a + b) == joined(a) + joined(b),
    decreases b.len(),
{
    if b.len() == 0 {
        assert(a + b =~= a);
        assert(joined(a) + joined(b) =~= joined(a));
    } else {
        lemma_joined_concat(a, b.drop_last());
        assert((a + b).drop_last() =~= a + b.drop_last());
        assert(joined(a + b) =~= joined(a) + joined(b));
    }
}

/// The pieces of joined lines are those lines and an empty piece after them.
pub proof fn lemma_pieces_joined(ls: Seq<Seq<char>>)
    requires
        all_plain(ls),
    ensures
        pieces(joined(ls)) == ls.push(Seq::<char>::empty()),
    decreases ls.len(),
{
    if ls.len() > 0 {
        let init = ls.drop_last();
        let last = ls.last();
        lemma_pieces_joined(init);
        lemma_pieces_append_plain(joined(init), last);
        lemma_pieces_push(joined(init) + last, '\n');
        assert(joined(ls) =~= (joined(init) + last).push('\n'));
        assert(Seq::<char>::empty() + last =~= last);
        assert(init.push(Seq::<char>::empty()).drop_last() =~= init);
        assert(init.push(last) =~= ls);
    }
}

/// Splitting joined lines gives the lines back.
pub proof fn lemma_lines_joined(ls: Seq<Seq<char>>)
    requires
        all_plain(ls),
    ensures
        lines(joined(ls)) == ls,
{
    lemma_pieces_joined(ls);
    assert(ls.push(Seq::<char>::empty()).drop_last() =~= ls);
}

/// A text is its pieces with a newline between each two of them.
pub proof fn lemma_text_of_pieces(t: Seq<char>)
    ensures
        pieces(t).len() >= 1,
        t == joined(pieces(t).drop_last()) + pieces(t).last(),
    decreases t.len(),
{
    lemma_pieces_nonempty(t);
    if t.len() == 0 {
        assert(pieces(t).drop_last() =~= Seq::<Seq<char>>::empty());
        assert(t =~= joined(pieces(t).drop_last()) + pieces(t).last());
    } else {
        let t0 = t.drop_last();
        let p0 = pieces(t0);
        lemma_text_of_pieces(t0);
        if t.last() == '\n' {
            assert(p0.push(Seq::<char>::empty()).drop_last() =~= p0);
            assert(p0 =~= p0.drop_last().push(p0.last()));
            lemma_joined_push(p0.drop_last(), p0.last());
            assert(t =~= t0.push('\n'));
            assert(t =~= joined(p0) + Seq::<char>::empty());
        } else {
            let last = p0.last().push(t.last());
            assert(p0.drop_last().push(last).drop_last() =~= p0.drop_last());
            assert(t =~= t0.push(t.last()));
            assert(t0.push(t.last()) =~= joined(p0.drop_last()) + last);
        }
    }
}

/// Joining the lines of a text gives the text back, with a newline added
/// where its last line had none.
pub proof fn lemma_joined_lines(t: Seq<char>)
    ensures
        t.len() == 0 || t.last() == '\n' ==> joined(lines(t)) == t,
        t.len() > 0 && t.last() != '\n' ==> joined(lines(t)) == t.push('\n'),
{
    lemma_text_of_pieces(t);
    let p = pieces(t);
    if p.last().len() == 0 {
        assert(t =~= joined(p.drop_last()));
        if t.len() > 0 {
            lemma_pieces_nonempty(t.drop_last());
        }
    } else {
        assert(joined(p) =~= t.push('\n'));
        if t.len() > 0 && t.last() == '\n' {
            lemma_pieces_nonempty(t.drop_last());
        }
    }
}

/// Behind a text that is empty or ends in a newline, another text begins a
/// new line: the lines of both together are the lines of the one and then
/// the lines of the other.
pub proof fn lemma_lines_concat(a: Seq<char>, b: Seq<char>)
    requires
        a.len() == 0 || a.last() == '\n',
    ensures
        lines(a + b) == lines(a) + lines(b),
{
    lemma_pieces_concat(a, b);
    lemma_pieces_nonempty(a);
    lemma_pieces_nonempty(b);
    if a.len() > 0 {
        lemma_pieces_nonempty(a.drop_last());
    }
    let head = pieces(a).drop_last();
    assert((head + pieces(b)).drop_last() =~= head + pieces(b).drop_last());
}

/// The pieces of two texts, one behind the other, where the first is empty
/// or ends in a newline.
pub proof fn lemma_pieces_concat(a: Seq<char>, b: Seq<char>)
    requires
        a.len() == 0 || a.last() == '\n',
    ensures
        pieces(a + b) == pieces(a).drop_last() + pieces(b),
    decreases b.len(),
{
    lemma_pieces_nonempty(a);
    if a.len() > 0 {
        lemma_pieces_nonempty(a.drop_last());
    }
    let head = pieces(a).drop_last();
    if b.len() == 0 {
        assert(a + b =~= a);
        assert(pieces(a) =~= head + pieces(b));
    } else {
        let b0 = b.drop_last();
        let c = b.last();
        lemma_pieces_concat(a, b0);
        lemma_pieces_nonempty(b0);
        lemma_pieces_push(a + b0, c);
        assert((a + b0).push(c) =~= a + b);
        if c == '\n' {
            assert((head + pieces(b0)).push(Seq::<char>::empty()) =~= head + pieces(b));
        } else {
            assert((head + pieces(b0)).drop_last() =~= head + pieces(b0).drop_last());
            assert((head + pieces(b0)).drop_last().push(pieces(b0).last().push(c)) =~= head
                + pieces(b));
        }
    }
}

/// `String::push`: the string afterwards is the string before with `c` added
/// at its end.
#[verifier::external_body]
pub(crate) fn push_char(s: &mut String, c: char)
    ensures
        final(s)@ == old(s)@.push(c),
{
    s.push(c);
}

/// Adds the characters of `chars` at the end of `out`.
pub(crate) fn push_chars(out: &mut String, chars: &Vec<char>)
    ensures
        final(out)@ == old(out)@ + chars@,
{
    let mut i: usize = 0;
    while i < chars.len()
        invariant
            i <= chars.len(),
            out@ == old(out)@ + chars@.take(i as int),
        decreases chars.len() - i,
    {
        push_char(out, chars[i]);
        assert(chars@.take(i + 1) =~= chars@.take(i as int).push(chars@[i as int]));
        i += 1;
    }
    assert(chars@.take(chars@.len() as int) =~= chars@);
}

/// Splits a text into its lines.
pub(crate) fn split_lines(text: &String) -> (r: Vec<Vec<char>>)
    ensures
        line_views(r@) == lines(text@),
{
    let mut done: Vec<Vec<char>> = Vec::new();
    let mut cur: Vec<char> = Vec::new();
    for c in it: text.as_str().chars()
        invariant
            it.seq() == text@,
            line_views(done@).push(cur@) == pieces(text@.take(it.index())),
    {
        proof {
            lemma_pieces_push(text@.take(it.index()), c);
            assert(text@.take(it.index() + 1) =~= text@.take(it.index()).push(c));
            assert(line_views(done@).push(cur@).drop_last() =~= line_views(done@));
        }
        if c == '\n' {
            proof {
                assert(line_views(done@.push(cur)) =~= line_views(done@).push(cur@));
            }
            done.push(cur);
            cur = Vec::new();
        } else {
            cur.push(c);
        }
    }
    proof {
        assert(text@.take(text@.len() as int) =~= text@);
        assert(line_views(done@).push(cur@).drop_last() =~= line_views(done@));
        assert(line_views(done@.push(cur)) =~= line_views(done@).push(cur@));
    }
    if cur.len() > 0 {
        done.push(cur);
    }
    done
}

} // verus!
