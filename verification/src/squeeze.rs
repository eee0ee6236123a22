//! Collapsing runs of empty lines.

use vstd::prelude::*;
use crate::text::{
    all_plain, joined, lemma_joined_lines, lemma_joined_push, lemma_lines_joined,
    lemma_pieces_plain, line_views, lines, push_char, push_chars, split_lines,
};

verus! {

/// Whether line `i` of `ls` is kept: it is not empty, or it is the first
/// line, or the line before it is not empty.
pub open spec fn survives(ls: Seq<Seq<char>>, i: int) -> bool {
    ls[i].len() > 0 || i == 0 || ls[i - 1].len() > 0
}

/// The lines of `ls` that are kept, in their order: of every run of empty
/// lines only the first.
pub open spec fn squeezed(ls: Seq<Seq<char>>) -> Seq<Seq<char>>
    decreases ls.len(),
{
    if ls.len() == 0 {
        ls
    } else if survives(ls, ls.len() - 1) {
        squeezed(ls.drop_last()).push(ls.last())
    } else {
        squeezed(ls.drop_last())
    }
}

/// The text `t` with its runs of empty lines collapsed, every line ended by a
/// newline.
pub open spec fn squeezed_text(t: Seq<char>) -> Seq<char> {
    joined(squeezed(lines(t)))
}

/// Whether no two empty lines of `ls` follow one another.
pub open spec fn no_empty_run(ls: Seq<Seq<char>>) -> bool {
    forall|i: int| 0 < i < ls.len() ==> #[trigger] ls[i].len() > 0 || ls[i - 1].len() > 0
}

/// Collapses every run of empty lines into one empty line.
///
/// Lines that are not empty are copied. Every line of the result ends in a
/// newline, also a last line that had none.
pub fn squeeze_blank(read: &String) -> (r: String)
    ensures
        r@ == squeezed_text(read@),
{
    let ls = split_lines(read);
    let mut out = String::new();
    let mut i: usize = 0;
    while i < ls.len()
        invariant
            i <= ls.len(),
            line_views(ls@) == lines(read@),
            out@ == joined(squeezed(lines(read@).take(i as int))),
        decreases ls.len() - i,
    {
        let ghost all = lines(read@);
        proof {
            assert(all.take(i + 1).drop_last() =~= all.take(i as int));
            assert(all[i as int] == ls@[i as int]@);
            if i > 0 {
                assert(all[i - 1] == ls@[i - 1]@);
            }
            lemma_joined_push(squeezed(all.take(i as int)), all[i as int]);
        }
        if ls[i].len() > 0 || i == 0 || ls[i - 1].len() > 0 {
            push_chars(&mut out, &ls[i]);
            push_char(&mut out, '\n');
            assert(out@ =~= joined(squeezed(all.take(i as int))) + all[i as int] + seq!['\n']);
        }
        i += 1;
    }
    assert(lines(read@).take(ls.len() as int) =~= lines(read@));
    out
}

/// What is kept ends as the input ends: in an empty line or not.
pub proof fn lemma_squeezed_last(ls: Seq<Seq<char>>)
    requires
        ls.len() > 0,
    ensures
        squeezed(ls).len() > 0,
        squeezed(ls).last().len() == 0 <==> ls.last().len() == 0,
    decreases ls.len(),
{
    if ls.len() > 1 {
        lemma_squeezed_last(ls.drop_last());
    }
}

/// After squeezing, no two empty lines follow one another.
pub proof fn lemma_squeezed_no_empty_run(ls: Seq<Seq<char>>)
    ensures
        no_empty_run(squeezed(ls)),
    decreases ls.len(),
{
    if ls.len() > 0 {
        let init = ls.drop_last();
        lemma_squeezed_no_empty_run(init);
        if init.len() > 0 {
            lemma_squeezed_last(init);
        }
        if survives(ls, ls.len() - 1) {
            let s = squeezed(init).push(ls.last());
            assert forall|i: int| 0 < i < s.len() implies #[trigger] s[i].len() > 0 || s[i
                - 1].len() > 0 by {
                if i < s.len() - 1 {
                    assert(s[i] == squeezed(init)[i]);
                    assert(s[i - 1] == squeezed(init)[i - 1]);
                }
            }
        }
    }
}

/// Lines without a run of empty lines are all kept.
pub proof fn lemma_squeezed_fixed(ls: Seq<Seq<char>>)
    requires
        no_empty_run(ls),
    ensures
        squeezed(ls) == ls,
    decreases ls.len(),
{
    if ls.len() > 0 {
        let init = ls.drop_last();
        assert forall|i: int| 0 < i < init.len() implies #[trigger] init[i].len() > 0 || init[i
            - 1].len() > 0 by {
            assert(ls[i].len() > 0 || ls[i - 1].len() > 0);
        }
        lemma_squeezed_fixed(init);
        if ls.len() > 1 {
            assert(ls[ls.len() - 1].len() > 0 || ls[ls.len() - 2].len() > 0);
        }
        assert(init.push(ls.last()) =~= ls);
    }
}

/// Every kept line is a line of the input.
pub proof fn lemma_squeezed_plain(ls: Seq<Seq<char>>)
    requires
        all_plain(ls),
    ensures
        all_plain(squeezed(ls)),
    decreases ls.len(),
{
    if ls.len() > 0 {
        lemma_squeezed_plain(ls.drop_last());
    }
}

/// The lines of a squeezed text are the kept lines of the text.
pub proof fn lemma_lines_of_squeezed(t: Seq<char>)
    ensures
        lines(squeezed_text(t)) == squeezed(lines(t)),
{
    lemma_pieces_plain(t);
    lemma_squeezed_plain(lines(t));
    lemma_lines_joined(squeezed(lines(t)));
}

/// `squeeze_blank` is idempotent.
pub proof fn squeeze_blank_is_idempotent(t: Seq<char>)
    ensures
        squeezed_text(squeezed_text(t)) == squeezed_text(t),
{
    lemma_lines_of_squeezed(t);
    lemma_squeezed_no_empty_run(lines(t));
    lemma_squeezed_fixed(squeezed(lines(t)));
}

/// A text without a run of empty lines, whose last line a newline ends,
/// comes out as it went in.
pub proof fn squeeze_blank_keeps_a_squeezed_text(t: Seq<char>)
    requires
        no_empty_run(lines(t)),
        t.len() == 0 || t.last() == '\n',
    ensures
        squeezed_text(t) == t,
{
    lemma_squeezed_fixed(lines(t));
    lemma_joined_lines(t);
}

} // verus!
