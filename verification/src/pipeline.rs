//! The pipeline: which stages run for a set of flags, in which order, and
//! what they make of a text.
//!
//! The order is fixed. Empty lines are squeezed first, while they can still
//! be told from other lines; then tabs, line ends and non-printing characters
//! are made visible; numbering comes last, so that nothing rewrites the tab
//! behind a number. Whether a line counts as empty for numbering is settled
//! after squeezing and before the escapes: a line that holds nothing but the
//! `$` of its end is still an empty line.

use vstd::prelude::*;
use crate::escape::{escape, escaped, escaped_keeps_line_count, lemma_escaped_concat, Escape};
use crate::number::{
    blank_lines, count_numbered, decimal, lemma_numbered_unmarked, nonblank_count, number,
    number_lines, numbered, numbered_all, numbered_before, numbered_line, prefix, LineCounter,
};
use crate::options::{resolve, ElementaryFlagSet, Options};
use crate::squeeze::{lemma_lines_of_squeezed, squeeze_blank, squeezed_text};
use crate::text::{blanks, joined, lemma_lines_joined, lemma_pieces_plain, lines, plain};

verus! {

/// The stages, in the order in which they run.
#[derive(Clone, Copy, Debug, PartialEq, Eq, Structural)]
pub enum Stage {
    SqueezeBlank,
    ShowTabs,
    ShowEnds,
    ShowNonprinting,
    NumberNonblank,
    Number,
}

/// A text between two stages, and for each of its lines whether it counts as
/// empty.
pub struct TextBlock {
    pub text: String,
    pub blank: Vec<bool>,
}

/// What a stage finds and leaves: the text, the marks of its empty lines, and
/// the next line number.
#[verifier::ext_equal]
pub struct State {
    pub text: Seq<char>,
    pub blank: Seq<bool>,
    pub next: nat,
}

impl State {
    /// The state before the first stage: a line counts as empty if it is.
    pub open spec fn of(text: Seq<char>, next: nat) -> State {
        State { text, blank: blanks(lines(text)), next }
    }
}

impl TextBlock {
    /// There is one mark for each line.
    pub open spec fn wf(&self) -> bool {
        self.blank@.len() == lines(self.text@).len()
    }

    /// The block as a stage sees it when the counter stands at `next`.
    pub open spec fn at(&self, next: nat) -> State {
        State { text: self.text@, blank: self.blank@, next }
    }

    /// The block of a text that no stage has touched.
    pub fn new(text: String) -> (r: TextBlock)
        ensures
            r.wf(),
            r.at(0) == State::of(text@, 0),
    {
        let blank = blank_lines(&text);
        TextBlock { text, blank }
    }
}

impl Stage {
    /// Whether the flags ask for this stage. `Number` gives way to
    /// `NumberNonblank`.
    pub open spec fn wanted(self, flags: ElementaryFlagSet) -> bool {
        match self {
            Stage::SqueezeBlank => flags.squeeze_blank,
            Stage::ShowTabs => flags.show_tabs,
            Stage::ShowEnds => flags.show_ends,
            Stage::ShowNonprinting => flags.show_nonprinting,
            Stage::NumberNonblank => flags.number_nonblank,
            Stage::Number => flags.number && !flags.number_nonblank,
        }
    }

    /// The place of the stage in the fixed order.
    pub open spec fn rank(self) -> nat {
        match self {
            Stage::SqueezeBlank => 0,
            Stage::ShowTabs => 1,
            Stage::ShowEnds => 2,
            Stage::ShowNonprinting => 3,
            Stage::NumberNonblank => 4,
            Stage::Number => 5,
        }
    }

    /// How many line numbers the stage takes when it runs on `s`.
    pub open spec fn numbers(self, s: State) -> nat {
        match self {
            Stage::NumberNonblank => numbered_before(s.blank, lines(s.text).len() as int),
            Stage::Number => lines(s.text).len(),
            _ => 0,
        }
    }

    /// What the stage makes of `s`.
    pub open spec fn result(self, s: State) -> State {
        match self {
            Stage::SqueezeBlank => State::of(squeezed_text(s.text), s.next),
            Stage::ShowTabs => State { text: escaped(Escape::Tabs, s.text), ..s },
            Stage::ShowEnds => State { text: escaped(Escape::Ends, s.text), ..s },
            Stage::ShowNonprinting => State { text: escaped(Escape::Nonprinting, s.text), ..s },
            Stage::NumberNonblank => State {
                text: joined(numbered(lines(s.text), s.blank, s.next)),
                next: s.next + self.numbers(s),
                ..s
            },
            Stage::Number => State {
                text: joined(numbered_all(lines(s.text), s.next)),
                next: s.next + self.numbers(s),
                ..s
            },
        }
    }

    /// Counts the line numbers that the stage would take on `block`.
    pub fn numbers_needed(self, block: &TextBlock) -> (r: usize)
        requires
            block.wf(),
        ensures
            r == self.numbers(block.at(0)),
    {
        match self {
            Stage::NumberNonblank => count_numbered(&block.blank, block.blank.len()),
            Stage::Number => block.blank.len(),
            _ => 0,
        }
    }

    /// Runs the stage on `block`.
    pub fn run(self, block: TextBlock, counter: &mut LineCounter) -> (r: TextBlock)
        requires
            block.wf(),
            old(counter)@ + self.numbers(block.at(old(counter)@)) <= u64::MAX,
        ensures
            r.wf(),
            r.at(final(counter)@) == self.result(block.at(old(counter)@)),
    {
        match self {
            Stage::SqueezeBlank => TextBlock::new(squeeze_blank(&block.text)),
            Stage::ShowTabs => {
                proof {
                    escaped_keeps_line_count(Escape::Tabs, block.text@);
                }
                TextBlock { text: escape(&block.text, Escape::Tabs), blank: block.blank }
            },
            Stage::ShowEnds => {
                proof {
                    escaped_keeps_line_count(Escape::Ends, block.text@);
                }
                TextBlock { text: escape(&block.text, Escape::Ends), blank: block.blank }
            },
            Stage::ShowNonprinting => {
                proof {
                    escaped_keeps_line_count(Escape::Nonprinting, block.text@);
                }
                TextBlock { text: escape(&block.text, Escape::Nonprinting), blank: block.blank }
            },
            Stage::NumberNonblank => {
                proof {
                    lemma_numbered_plain(block.text@, block.blank@, counter@);
                }
                let text = number_lines(&block.text, &block.blank, counter);
                TextBlock { text, blank: block.blank }
            },
            Stage::Number => {
                proof {
                    lemma_numbered_plain(block.text@, Seq::<bool>::empty(), counter@);
                    lemma_numbered_unmarked(lines(block.text@), counter@);
                }
                let text = number(&block.text, counter);
                TextBlock { text, blank: block.blank }
            },
        }
    }
}

/// The stages that run for `flags`, in their order.
pub open spec fn planned(flags: ElementaryFlagSet) -> Seq<Stage> {
    let a = if flags.squeeze_blank {
        seq![Stage::SqueezeBlank]
    } else {
        Seq::<Stage>::empty()
    };
    let b = if flags.show_tabs {
        a.push(Stage::ShowTabs)
    } else {
        a
    };
    let c = if flags.show_ends {
        b.push(Stage::ShowEnds)
    } else {
        b
    };
    let d = if flags.show_nonprinting {
        c.push(Stage::ShowNonprinting)
    } else {
        c
    };
    if flags.number_nonblank {
        d.push(Stage::NumberNonblank)
    } else if flags.number {
        d.push(Stage::Number)
    } else {
        d
    }
}

/// What `stages`, run one after the other, make of `s`.
pub open spec fn run_all(stages: Seq<Stage>, s: State) -> State
    decreases stages.len(),
{
    if stages.len() == 0 {
        s
    } else {
        stages.last().result(run_all(stages.drop_last(), s))
    }
}

/// `t` after the squeezing stage, where `flags` asks for it.
pub open spec fn squeeze_stage(flags: ElementaryFlagSet, t: Seq<char>) -> Seq<char> {
    if flags.squeeze_blank {
        squeezed_text(t)
    } else {
        t
    }
}

/// `t` after those of the three escapes that `flags` asks for: tabs, then
/// line ends, then non-printing characters.
pub open spec fn escape_stages(flags: ElementaryFlagSet, t: Seq<char>) -> Seq<char> {
    let a = if flags.show_tabs {
        escaped(Escape::Tabs, t)
    } else {
        t
    };
    let b = if flags.show_ends {
        escaped(Escape::Ends, a)
    } else {
        a
    };
    if flags.show_nonprinting {
        escaped(Escape::Nonprinting, b)
    } else {
        b
    }
}

/// What the pipeline makes of `t` when the counter stands at `start`.
///
/// For `number_nonblank` a line takes a number unless it was empty after
/// squeezing, whatever the escapes have written into it since.
pub open spec fn applied(flags: ElementaryFlagSet, t: Seq<char>, start: nat) -> Seq<char> {
    let squeezed = squeeze_stage(flags, t);
    let shown = escape_stages(flags, squeezed);
    if flags.number_nonblank {
        joined(numbered(lines(shown), blanks(lines(squeezed)), start))
    } else if flags.number {
        joined(numbered_all(lines(shown), start))
    } else {
        shown
    }
}

/// What the escapes that `flags` asks for write for the character `c`, taken
/// together: a tab, a newline and a NUL are each rewritten by one of them at
/// most, and what an escape has written no later one rewrites.
pub open spec fn shown_char(flags: ElementaryFlagSet, c: char) -> Seq<char> {
    if c == '\t' && (flags.show_tabs || flags.show_nonprinting) {
        seq!['^', 'I']
    } else if c == '\n' && flags.show_ends {
        seq!['$', '\n']
    } else if c == '\0' && flags.show_nonprinting {
        seq!['^', '@']
    } else {
        seq![c]
    }
}

/// The text `t` with every character written as [`shown_char`] writes it.
pub open spec fn shown(flags: ElementaryFlagSet, t: Seq<char>) -> Seq<char>
    decreases t.len(),
{
    if t.len() == 0 {
        t
    } else {
        shown(flags, t.drop_last()) + shown_char(flags, t.last())
    }
}

/// How many line numbers the pipeline takes on `t`: one for each line left
/// after squeezing, or for each of them that is not empty, or none.
pub open spec fn numbers_used(flags: ElementaryFlagSet, t: Seq<char>) -> nat {
    let squeezed = squeeze_stage(flags, t);
    if flags.number_nonblank {
        nonblank_count(lines(squeezed))
    } else if flags.number {
        lines(squeezed).len()
    } else {
        0
    }
}

/// Lists the stages that run for `flags`, in their order.
pub fn plan(flags: &ElementaryFlagSet) -> (r: Vec<Stage>)
    ensures
        r@ == planned(*flags),
{
    let mut stages: Vec<Stage> = Vec::new();
    if flags.squeeze_blank {
        stages.push(Stage::SqueezeBlank);
        assert(stages@ =~= seq![Stage::SqueezeBlank]);
    }
    if flags.show_tabs {
        stages.push(Stage::ShowTabs);
    }
    if flags.show_ends {
        stages.push(Stage::ShowEnds);
    }
    if flags.show_nonprinting {
        stages.push(Stage::ShowNonprinting);
    }
    if flags.number_nonblank {
        stages.push(Stage::NumberNonblank);
    } else if flags.number {
        stages.push(Stage::Number);
    }
    stages
}

/// Runs the pipeline on `text`, unless the counter cannot hold the line
/// numbers that it would take: then nothing is numbered and the counter
/// stays where it was.
pub fn apply_checked(flags: &ElementaryFlagSet, text: String, counter: &mut LineCounter) -> (r:
    Option<String>)
    ensures
        r is Some <==> old(counter)@ + numbers_used(*flags, text@) <= u64::MAX,
        r matches Some(out) ==> out@ == applied(*flags, text@, old(counter)@) && final(counter)@
            == old(counter)@ + numbers_used(*flags, text@),
        r is None ==> final(counter)@ == old(counter)@,
{
    let ghost start = counter@;
    let ghost first = State::of(text@, start);
    let stages = plan(flags);
    let mut block = TextBlock::new(text);
    let mut i: usize = 0;
    while i < stages.len()
        invariant
            i <= stages.len(),
            stages@ == planned(*flags),
            block.wf(),
            block.at(counter@) == run_all(stages@.take(i as int), first),
            i < stages.len() ==> counter@ == start,
            first == State::of(text@, start),
            start == old(counter)@,
        decreases stages.len() - i,
    {
        let stage = stages[i];
        let need = stage.numbers_needed(&block);
        proof {
            assert(stages@.take(i + 1).drop_last() =~= stages@.take(i as int));
            assert(stages@.take(stages@.len() as int) =~= stages@);
            lemma_run_all_grows(stages@, first, i + 1, stages@.len() as int);
            lemma_numbering_comes_last(*flags, i as int);
            lemma_planned(*flags, text@, start);
            counter.in_range();
            assert(stage.numbers(block.at(0)) == stage.numbers(block.at(counter@)));
        }
        if !counter.has_room(need) {
            return None;
        }
        block = stage.run(block, counter);
        i += 1;
    }
    proof {
        assert(stages@.take(stages@.len() as int) =~= stages@);
        lemma_planned(*flags, text@, start);
        counter.in_range();
    }
    Some(block.text)
}

/// Runs the pipeline: the stages that `flags` asks for, in their fixed order.
pub fn apply(flags: &ElementaryFlagSet, text: String, counter: &mut LineCounter) -> (r: String)
    requires
        old(counter)@ + numbers_used(*flags, text@) <= u64::MAX,
    ensures
        r@ == applied(*flags, text@, old(counter)@),
        final(counter)@ == old(counter)@ + numbers_used(*flags, text@),
{
    apply_checked(flags, text, counter).unwrap()
}

/// Resolves the switches and runs the pipeline that they ask for on `buf`.
pub fn init(options: &Options, buf: String, counter: &mut LineCounter) -> (r: String)
    requires
        old(counter)@ + numbers_used(options.resolved(), buf@) <= u64::MAX,
    ensures
        r@ == applied(options.resolved(), buf@, old(counter)@),
        final(counter)@ == old(counter)@ + numbers_used(options.resolved(), buf@),
{
    let flags = resolve(options);
    apply(&flags, buf, counter)
}

/// A number in decimal holds no newline, and neither does what stands before
/// a numbered line.
pub proof fn lemma_prefix_plain(n: nat)
    ensures
        plain(decimal(n)),
        plain(prefix(n)),
    decreases n,
{
    if n >= 10 {
        lemma_prefix_plain(n / 10);
    }
}

/// Numbering leaves every line a line: the numbered text has the lines that
/// were written, one for each line of the text.
pub proof fn lemma_numbered_plain(t: Seq<char>, blank: Seq<bool>, start: nat)
    ensures
        lines(joined(numbered(lines(t), blank, start))) == numbered(lines(t), blank, start),
{
    let ls = lines(t);
    let out = numbered(ls, blank, start);
    lemma_pieces_plain(t);
    assert forall|i: int| 0 <= i < out.len() implies plain(#[trigger] out[i]) by {
        lemma_prefix_plain(start + numbered_before(blank, i));
        assert(plain(ls[i]));
        assert(out[i] == numbered_line(ls, blank, start, i));
    }
    lemma_lines_joined(out);
}

/// A later stage finds the counter where an earlier one left it, or further.
pub proof fn lemma_run_all_grows(stages: Seq<Stage>, s: State, i: int, j: int)
    requires
        0 <= i <= j <= stages.len(),
    ensures
        run_all(stages.take(i), s).next <= run_all(stages.take(j), s).next,
    decreases j - i,
{
    if i < j {
        lemma_run_all_grows(stages, s, i, j - 1);
        assert(stages.take(j).drop_last() =~= stages.take(j - 1));
    }
}

/// Only the last of the planned stages can be one that numbers, and the
/// stages stand in their fixed order, each one that is wanted once.
pub proof fn lemma_numbering_comes_last(flags: ElementaryFlagSet, i: int)
    requires
        0 <= i < planned(flags).len(),
    ensures
        planned(flags)[i].wanted(flags),
        i + 1 < planned(flags).len() ==> planned(flags)[i].rank() < planned(flags)[i + 1].rank(),
        i + 1 < planned(flags).len() ==> planned(flags)[i].rank() < 4,
{
}

/// The planned stages make of a text what [`applied`] says, and take the line
/// numbers that [`numbers_used`] counts.
pub proof fn lemma_planned(flags: ElementaryFlagSet, t: Seq<char>, start: nat)
    ensures
        run_all(planned(flags), State::of(t, start)).text == applied(flags, t, start),
        run_all(planned(flags), State::of(t, start)).next == start + numbers_used(flags, t),
{
    let s0 = State::of(t, start);
    let squeezed = squeeze_stage(flags, t);
    let a = if flags.squeeze_blank {
        seq![Stage::SqueezeBlank]
    } else {
        Seq::<Stage>::empty()
    };
    let b = if flags.show_tabs {
        a.push(Stage::ShowTabs)
    } else {
        a
    };
    let c = if flags.show_ends {
        b.push(Stage::ShowEnds)
    } else {
        b
    };
    let d = if flags.show_nonprinting {
        c.push(Stage::ShowNonprinting)
    } else {
        c
    };
    assert(run_all(Seq::<Stage>::empty(), s0) == s0);
    if flags.squeeze_blank {
        assert(a.drop_last() =~= Seq::<Stage>::empty());
        lemma_lines_of_squeezed(t);
    }
    assert(run_all(a, s0) == State::of(squeezed, start));
    let ta = squeezed;
    let tb = if flags.show_tabs {
        escaped(Escape::Tabs, ta)
    } else {
        ta
    };
    let tc = if flags.show_ends {
        escaped(Escape::Ends, tb)
    } else {
        tb
    };
    let td = escape_stages(flags, squeezed);
    escaped_keeps_line_count(Escape::Tabs, ta);
    escaped_keeps_line_count(Escape::Ends, tb);
    escaped_keeps_line_count(Escape::Nonprinting, tc);
    if flags.show_tabs {
        assert(b.drop_last() =~= a);
    }
    assert(run_all(b, s0) == State { text: tb, ..State::of(squeezed, start) });
    if flags.show_ends {
        assert(c.drop_last() =~= b);
    }
    assert(run_all(c, s0) == State { text: tc, ..State::of(squeezed, start) });
    if flags.show_nonprinting {
        assert(d.drop_last() =~= c);
    }
    assert(run_all(d, s0) == State { text: td, ..State::of(squeezed, start) });
    assert(lines(td).len() == lines(squeezed).len());
    if flags.number_nonblank {
        assert(d.push(Stage::NumberNonblank).drop_last() =~= d);
    } else if flags.number {
        assert(d.push(Stage::Number).drop_last() =~= d);
    }
}

/// The stages that run are the wanted ones, and they run in the fixed order.
pub proof fn plan_is_ordered(flags: ElementaryFlagSet)
    ensures
        forall|i: int, j: int|
            0 <= i < j < planned(flags).len() ==> #[trigger] planned(flags)[i].rank()
                < #[trigger] planned(flags)[j].rank(),
        forall|stage: Stage| #[trigger]
            planned(flags).contains(stage) <==> stage.wanted(flags),
{
    let p = planned(flags);
    assert forall|stage: Stage| #[trigger] p.contains(stage) <==> stage.wanted(flags) by {
        if stage.wanted(flags) {
            lemma_wanted_is_planned(flags, stage);
        }
        if p.contains(stage) {
            let k = choose|k: int| 0 <= k < p.len() && p[k] == stage;
            lemma_numbering_comes_last(flags, k);
        }
    }
    assert forall|i: int, j: int| 0 <= i < j < p.len() implies #[trigger] p[i].rank()
        < #[trigger] p[j].rank() by {
        lemma_ranks(flags, i, j);
    }
}

/// Every wanted stage is planned.
pub proof fn lemma_wanted_is_planned(flags: ElementaryFlagSet, stage: Stage)
    requires
        stage.wanted(flags),
    ensures
        exists|k: int| 0 <= k < planned(flags).len() && planned(flags)[k] == stage,
{
    let p = planned(flags);
    let n0: int = if flags.squeeze_blank { 1 } else { 0 };
    let n1: int = if flags.show_tabs { n0 + 1 } else { n0 };
    let n2: int = if flags.show_ends { n1 + 1 } else { n1 };
    let n3: int = if flags.show_nonprinting { n2 + 1 } else { n2 };
    let k: int = match stage {
        Stage::SqueezeBlank => 0,
        Stage::ShowTabs => n0,
        Stage::ShowEnds => n1,
        Stage::ShowNonprinting => n2,
        _ => n3,
    };
    assert(0 <= k < p.len() && p[k] == stage);
}

/// The ranks of the planned stages rise.
pub proof fn lemma_ranks(flags: ElementaryFlagSet, i: int, j: int)
    requires
        0 <= i <= j < planned(flags).len(),
    ensures
        i < j ==> planned(flags)[i].rank() < planned(flags)[j].rank(),
        i == j ==> planned(flags)[i].rank() == planned(flags)[j].rank(),
    decreases j - i,
{
    if i < j {
        lemma_ranks(flags, i, j - 1);
        lemma_numbering_comes_last(flags, j - 1);
    }
}

/// The three escapes, run one after the other, do what one pass over the
/// text does that writes each character as [`shown_char`] says: no character
/// is escaped twice.
pub proof fn escapes_write_each_character_once(flags: ElementaryFlagSet, t: Seq<char>)
    ensures
        escape_stages(flags, t) == shown(flags, t),
    decreases t.len(),
{
    if t.len() > 0 {
        let t0 = t.drop_last();
        let c = t.last();
        escapes_write_each_character_once(flags, t0);
        let a0 = if flags.show_tabs {
            escaped(Escape::Tabs, t0)
        } else {
            t0
        };
        let xa = if flags.show_tabs {
            Escape::Tabs.of(c)
        } else {
            seq![c]
        };
        assert(t0 + seq![c] =~= t);
        let b0 = if flags.show_ends {
            escaped(Escape::Ends, a0)
        } else {
            a0
        };
        let xb = if flags.show_ends {
            escaped(Escape::Ends, xa)
        } else {
            xa
        };
        lemma_escaped_concat(Escape::Ends, a0, xa);
        lemma_escaped_concat(Escape::Nonprinting, b0, xb);
        lemma_escaped_short(Escape::Ends, xa);
        lemma_escaped_short(Escape::Nonprinting, xb);
    }
}

/// What an escape makes of one or two characters.
pub proof fn lemma_escaped_short(k: Escape, s: Seq<char>)
    requires
        1 <= s.len() <= 2,
    ensures
        s.len() == 1 ==> escaped(k, s) == k.of(s[0]),
        s.len() == 2 ==> escaped(k, s) == k.of(s[0]) + k.of(s[1]),
{
    reveal_with_fuel(escaped, 3);
    if s.len() == 1 {
        assert(escaped(k, s) =~= k.of(s[0]));
    } else {
        assert(s.drop_last().drop_last() =~= Seq::<char>::empty());
        assert(s.drop_last().last() == s[0]);
        assert(escaped(k, s) =~= k.of(s[0]) + k.of(s[1]));
    }
}

} // verus!
