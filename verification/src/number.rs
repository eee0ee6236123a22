//! Line numbering, and the counter that it draws its numbers from.
//!
//! The counter belongs to a whole run, not to one text: a text is numbered
//! from where the text before it stopped.

use vstd::prelude::*;
use crate::text::{
    blanks, joined, lemma_joined_concat, lemma_joined_push, lemma_lines_concat, line_views, lines,
    push_char, push_chars, split_lines,
};

verus! {

/// The columns that a line number is right-justified in.
pub const NUMBER_WIDTH: usize = 6;

/// The next line number to hand out. It starts at 1 and is never set back.
#[derive(Debug)]
pub struct LineCounter {
    next: u64,
}

impl View for LineCounter {
    type V = nat;

    closed spec fn view(&self) -> nat {
        self.next as nat
    }
}

impl LineCounter {
    /// A counter whose first number is 1.
    pub fn new() -> (r: LineCounter)
        ensures
            r@ == 1,
    {
        LineCounter { next: 1 }
    }

    /// A counter whose first number is `first`, for a run that goes on from
    /// an earlier one.
    pub fn starting_at(first: u64) -> (r: LineCounter)
        ensures
            r@ == first,
    {
        LineCounter { next: first }
    }

    /// The number that the next numbered line gets.
    pub fn value(&self) -> (r: u64)
        ensures
            r == self@,
    {
        self.next
    }

    /// Whether `n` more numbers can be handed out.
    pub fn has_room(&self, n: usize) -> (r: bool)
        ensures
            r == (self@ + n <= u64::MAX),
    {
        n as u64 <= u64::MAX - self.next
    }

    /// The counter never stands beyond what a `u64` holds.
    pub proof fn in_range(&self)
        ensures
            self@ <= u64::MAX,
    {
    }

    /// Moves on to the next number.
    pub fn advance(&mut self)
        requires
            old(self)@ < u64::MAX,
        ensures
            final(self)@ == old(self)@ + 1,
    {
        self.next = self.next + 1;
    }
}

/// The character for the digit `d`.
pub open spec fn digit(d: nat) -> char {
    if d == 0 {
        '0'
    } else if d == 1 {
        '1'
    } else if d == 2 {
        '2'
    } else if d == 3 {
        '3'
    } else if d == 4 {
        '4'
    } else if d == 5 {
        '5'
    } else if d == 6 {
        '6'
    } else if d == 7 {
        '7'
    } else if d == 8 {
        '8'
    } else {
        '9'
    }
}

/// `n` in decimal, without leading zeros.
pub open spec fn decimal(n: nat) -> Seq<char>
    decreases n,
{
    if n < 10 {
        seq![digit(n)]
    } else {
        decimal(n / 10).push(digit(n % 10))
    }
}

/// `s` with spaces before it, as many as it is shorter than `width`.
pub open spec fn right_justified(s: Seq<char>, width: nat) -> Seq<char> {
    Seq::new(
        if s.len() < width {
            (width - s.len()) as nat
        } else {
            0
        },
        |i: int| ' ',
    ) + s
}

/// What stands before a line numbered `n`: the number, right-justified in
/// [`NUMBER_WIDTH`] columns and wider where it has more digits, and a tab.
pub open spec fn prefix(n: nat) -> Seq<char> {
    right_justified(decimal(n), NUMBER_WIDTH as nat).push('\t')
}

/// Whether `blank` marks line `i`. Lines beyond its end are not marked.
pub open spec fn is_blank(blank: Seq<bool>, i: int) -> bool {
    0 <= i < blank.len() && blank[i]
}

/// How many of the lines before line `i` are not marked by `blank`, and so
/// take a number.
pub open spec fn numbered_before(blank: Seq<bool>, i: int) -> nat
    decreases i,
{
    if i <= 0 {
        0
    } else if is_blank(blank, i - 1) {
        numbered_before(blank, i - 1)
    } else {
        numbered_before(blank, i - 1) + 1
    }
}

/// Line `i` of `ls` as it is written: as it is where `blank` marks it, and
/// else behind its number, which counts from `start` over the unmarked lines.
pub open spec fn numbered_line(ls: Seq<Seq<char>>, blank: Seq<bool>, start: nat, i: int) -> Seq<
    char,
> {
    if is_blank(blank, i) {
        ls[i]
    } else {
        prefix(start + numbered_before(blank, i)) + ls[i]
    }
}

/// The lines `ls`, each as [`numbered_line`] writes it.
pub open spec fn numbered(ls: Seq<Seq<char>>, blank: Seq<bool>, start: nat) -> Seq<Seq<char>> {
    Seq::new(ls.len(), |i: int| numbered_line(ls, blank, start, i))
}

/// The lines `ls`, every one behind its number: line `i` has `start + i`.
pub open spec fn numbered_all(ls: Seq<Seq<char>>, start: nat) -> Seq<Seq<char>> {
    Seq::new(ls.len(), |i: int| prefix(start + i as nat) + ls[i])
}

/// How many of the lines `ls` are not empty.
pub open spec fn nonblank_count(ls: Seq<Seq<char>>) -> nat {
    numbered_before(blanks(ls), ls.len() as int)
}

/// The character for a digit.
fn digit_char(d: u64) -> (c: char)
    requires
        d < 10,
    ensures
        c == digit(d as nat),
{
    if d == 0 {
        '0'
    } else if d == 1 {
        '1'
    } else if d == 2 {
        '2'
    } else if d == 3 {
        '3'
    } else if d == 4 {
        '4'
    } else if d == 5 {
        '5'
    } else if d == 6 {
        '6'
    } else if d == 7 {
        '7'
    } else if d == 8 {
        '8'
    } else {
        '9'
    }
}

/// The digits of `n`, the last one first.
fn digits_reversed(n: u64) -> (r: Vec<char>)
    ensures
        r@.reverse() == decimal(n as nat),
{
    let mut digits: Vec<char> = Vec::new();
    let mut rest: u64 = n;
    while rest >= 10
        invariant
            decimal(n as nat) == decimal(rest as nat) + digits@.reverse(),
        decreases rest,
    {
        let d = digit_char(rest % 10);
        proof {
            assert(digits@.push(d).reverse() =~= seq![d] + digits@.reverse());
            assert(decimal((rest / 10) as nat).push(d) + digits@.reverse() =~= decimal(
                (rest / 10) as nat,
            ) + (seq![d] + digits@.reverse()));
        }
        digits.push(d);
        rest = rest / 10;
    }
    let d = digit_char(rest);
    proof {
        assert(digits@.push(d).reverse() =~= seq![d] + digits@.reverse());
    }
    digits.push(d);
    digits
}

/// Adds the prefix of a line numbered `n` at the end of `out`.
pub fn push_prefix(out: &mut String, n: u64)
    ensures
        final(out)@ == old(out)@ + prefix(n as nat),
{
    let digits = digits_reversed(n);
    let ghost number = decimal(n as nat);
    let mut width: usize = digits.len();
    while width < NUMBER_WIDTH
        invariant
            digits@.len() <= width,
            digits@.len() < NUMBER_WIDTH ==> width <= NUMBER_WIDTH,
            digits@.len() >= NUMBER_WIDTH ==> width == digits@.len(),
            out@ == old(out)@ + Seq::new((width - digits@.len()) as nat, |i: int| ' '),
        decreases NUMBER_WIDTH - width,
    {
        push_char(out, ' ');
        assert(Seq::new((width - digits@.len()) as nat, |i: int| ' ').push(' ') =~= Seq::new(
            (width + 1 - digits@.len()) as nat,
            |i: int| ' ',
        ));
        width += 1;
    }
    let ghost padded = out@;
    let mut i: usize = digits.len();
    while i > 0
        invariant
            i <= digits@.len(),
            out@ == padded + digits@.reverse().take(digits@.len() - i),
        decreases i,
    {
        i -= 1;
        push_char(out, digits[i]);
        assert(digits@.reverse().take(digits@.len() - i) =~= digits@.reverse().take(
            digits@.len() - i - 1,
        ).push(digits@[i as int]));
    }
    push_char(out, '\t');
    proof {
        assert(digits@.reverse().take(digits@.len() as int) =~= number);
        assert(number.len() == digits@.len());
        assert(padded + number =~= old(out)@ + right_justified(number, NUMBER_WIDTH as nat));
        assert(out@ =~= old(out)@ + prefix(n as nat));
    }
}

/// For each line, whether it is empty.
pub(crate) fn blank_of(ls: &Vec<Vec<char>>) -> (r: Vec<bool>)
    ensures
        r@ == blanks(line_views(ls@)),
{
    let mut blank: Vec<bool> = Vec::new();
    let mut i: usize = 0;
    while i < ls.len()
        invariant
            i <= ls.len(),
            blank@ == blanks(line_views(ls@)).take(i as int),
        decreases ls.len() - i,
    {
        blank.push(ls[i].len() == 0);
        assert(blank@ =~= blanks(line_views(ls@)).take(i + 1));
        i += 1;
    }
    assert(blanks(line_views(ls@)).take(ls.len() as int) =~= blanks(line_views(ls@)));
    blank
}

/// How many of the first `n` lines `blank` leaves unmarked.
pub(crate) fn count_numbered(blank: &Vec<bool>, n: usize) -> (r: usize)
    ensures
        r == numbered_before(blank@, n as int),
{
    let mut count: usize = 0;
    let mut i: usize = 0;
    while i < n
        invariant
            i <= n,
            count <= i,
            count == numbered_before(blank@, i as int),
        decreases n - i,
    {
        if !(i < blank.len() && blank[i]) {
            count += 1;
        }
        i += 1;
    }
    count
}

/// Numbers the lines `ls` that `blank` leaves unmarked.
pub(crate) fn number_split(ls: &Vec<Vec<char>>, blank: &Vec<bool>, counter: &mut LineCounter) -> (r:
    String)
    requires
        old(counter)@ + numbered_before(blank@, ls@.len() as int) <= u64::MAX,
    ensures
        r@ == joined(numbered(line_views(ls@), blank@, old(counter)@)),
        final(counter)@ == old(counter)@ + numbered_before(blank@, ls@.len() as int),
{
    let ghost start = counter@;
    let ghost all = numbered(line_views(ls@), blank@, start);
    let mut out = String::new();
    let mut i: usize = 0;
    while i < ls.len()
        invariant
            i <= ls.len(),
            all == numbered(line_views(ls@), blank@, start),
            counter@ == start + numbered_before(blank@, i as int),
            start + numbered_before(blank@, ls@.len() as int) <= u64::MAX,
            out@ == joined(all.take(i as int)),
        decreases ls.len() - i,
    {
        proof {
            lemma_numbered_before_grows(blank@, i + 1, ls@.len() as int);
            lemma_joined_push(all.take(i as int), all[i as int]);
            assert(all.take(i + 1) =~= all.take(i as int).push(all[i as int]));
        }
        if !(i < blank.len() && blank[i]) {
            push_prefix(&mut out, counter.value());
            counter.advance();
        }
        push_chars(&mut out, &ls[i]);
        push_char(&mut out, '\n');
        assert(out@ =~= joined(all.take(i as int)) + all[i as int] + seq!['\n']);
        i += 1;
    }
    assert(all.take(ls.len() as int) =~= all);
    out
}

/// For each line of `read`, whether it is empty.
pub fn blank_lines(read: &String) -> (r: Vec<bool>)
    ensures
        r@ == blanks(lines(read@)),
{
    let ls = split_lines(read);
    blank_of(&ls)
}

/// Numbers the lines of `read` that `blank` leaves unmarked; a marked line is
/// copied and takes no number. Every line of the result ends in a newline.
///
/// `blank` is read line by line beside the text: its entry `i` speaks of line
/// `i`. So a line that was empty before another transform wrote into it can
/// still go without a number.
pub fn number_lines(read: &String, blank: &Vec<bool>, counter: &mut LineCounter) -> (r: String)
    requires
        old(counter)@ + numbered_before(blank@, lines(read@).len() as int) <= u64::MAX,
    ensures
        r@ == joined(numbered(lines(read@), blank@, old(counter)@)),
        final(counter)@ == old(counter)@ + numbered_before(blank@, lines(read@).len() as int),
{
    let ls = split_lines(read);
    number_split(&ls, blank, counter)
}

/// Numbers every line of `read`, the empty ones too: each stands behind the
/// counter's value at that line, and the counter moves on by one per line.
/// Every line of the result ends in a newline.
pub fn number(read: &String, counter: &mut LineCounter) -> (r: String)
    requires
        old(counter)@ + lines(read@).len() <= u64::MAX,
    ensures
        r@ == joined(numbered_all(lines(read@), old(counter)@)),
        final(counter)@ == old(counter)@ + lines(read@).len(),
{
    let none: Vec<bool> = Vec::new();
    proof {
        lemma_numbered_unmarked(lines(read@), old(counter)@);
        lemma_unmarked_count(lines(read@).len() as int);
    }
    number_lines(read, &none, counter)
}

/// Numbers the lines of `read` that are not empty. An empty line stays an
/// empty line and takes no number. Every line of the result ends in a newline.
pub fn number_nonblank(read: &String, counter: &mut LineCounter) -> (r: String)
    requires
        old(counter)@ + nonblank_count(lines(read@)) <= u64::MAX,
    ensures
        r@ == joined(numbered(lines(read@), blanks(lines(read@)), old(counter)@)),
        final(counter)@ == old(counter)@ + nonblank_count(lines(read@)),
{
    let ls = split_lines(read);
    let blank = blank_of(&ls);
    number_split(&ls, &blank, counter)
}

/// The count of numbered lines never falls from one line to a later one.
pub proof fn lemma_numbered_before_grows(blank: Seq<bool>, i: int, j: int)
    requires
        i <= j,
    ensures
        numbered_before(blank, i) <= numbered_before(blank, j),
        numbered_before(blank, j) <= if j < 0 {
            0
        } else {
            j
        },
    decreases j - i, j,
{
    if i < j {
        lemma_numbered_before_grows(blank, i, j - 1);
    } else if j > 0 {
        lemma_numbered_before_grows(blank, j - 1, j - 1);
    }
}

/// Where nothing is marked, every line before line `i` takes a number.
pub proof fn lemma_unmarked_count(i: int)
    requires
        0 <= i,
    ensures
        numbered_before(Seq::<bool>::empty(), i) == i,
    decreases i,
{
    if i > 0 {
        lemma_unmarked_count(i - 1);
    }
}

/// Where nothing is marked, every line is numbered.
pub proof fn lemma_numbered_unmarked(ls: Seq<Seq<char>>, start: nat)
    ensures
        numbered(ls, Seq::<bool>::empty(), start) == numbered_all(ls, start),
{
    assert forall|i: int| 0 <= i < ls.len() implies numbered_line(
        ls,
        Seq::<bool>::empty(),
        start,
        i,
    ) == prefix(start + i as nat) + ls[i] by {
        lemma_unmarked_count(i);
    }
    assert(numbered(ls, Seq::<bool>::empty(), start) =~= numbered_all(ls, start));
}

/// An empty line takes no number from `number_nonblank`, and every other
/// line takes one.
pub proof fn nonblank_count_skips_empty_lines(ls: Seq<Seq<char>>, l: Seq<char>)
    ensures
        nonblank_count(Seq::<Seq<char>>::empty()) == 0,
        l.len() == 0 ==> nonblank_count(ls.push(l)) == nonblank_count(ls),
        l.len() > 0 ==> nonblank_count(ls.push(l)) == nonblank_count(ls) + 1,
{
    lemma_count_prefix(blanks(ls.push(l)), blanks(ls), ls.len() as int);
}

/// The count over the first `n` lines looks at the first `n` marks only.
pub proof fn lemma_count_prefix(a: Seq<bool>, b: Seq<bool>, n: int)
    requires
        0 <= n <= a.len(),
        n <= b.len(),
        forall|i: int| 0 <= i < n ==> a[i] == b[i],
    ensures
        numbered_before(a, n) == numbered_before(b, n),
    decreases n,
{
    if n > 0 {
        lemma_count_prefix(a, b, n - 1);
    }
}

/// The count over two runs of lines, one after the other.
pub proof fn lemma_count_concat(a: Seq<bool>, b: Seq<bool>, i: int)
    requires
        0 <= i <= b.len(),
    ensures
        numbered_before(a + b, a.len() + i) == numbered_before(a, a.len() as int)
            + numbered_before(b, i),
    decreases i,
{
    if i > 0 {
        lemma_count_concat(a, b, i - 1);
        assert((a + b)[a.len() + i - 1] == b[i - 1]);
    } else {
        lemma_count_prefix(a + b, a, a.len() as int);
    }
}

/// Numbering does not start again with a new text. The lines `a` and then the
/// lines `b`, numbered one after the other by `number` with one counter, come
/// out as if they had been numbered as one run: the first line of `b` has the
/// number after the last line of `a`.
pub proof fn number_goes_on(a: Seq<Seq<char>>, b: Seq<Seq<char>>, start: nat)
    ensures
        joined(numbered_all(a, start)) + joined(numbered_all(b, start + a.len())) == joined(
            numbered_all(a + b, start),
        ),
        b.len() > 0 ==> numbered_all(a + b, start)[a.len() as int] == prefix(start + a.len())
            + b[0],
{
    assert(numbered_all(a + b, start) =~= numbered_all(a, start) + numbered_all(
        b,
        start + a.len(),
    ));
    lemma_joined_concat(numbered_all(a, start), numbered_all(b, start + a.len()));
}

/// The same of two texts, where the first is empty or ends in a newline:
/// numbered one after the other with one counter, they come out as the two
/// of them would as one text.
pub proof fn number_goes_on_with_the_next_text(a: Seq<char>, b: Seq<char>, start: nat)
    requires
        a.len() == 0 || a.last() == '\n',
    ensures
        joined(numbered_all(lines(a), start)) + joined(
            numbered_all(lines(b), start + lines(a).len()),
        ) == joined(numbered_all(lines(a + b), start)),
        joined(numbered(lines(a), blanks(lines(a)), start)) + joined(
            numbered(lines(b), blanks(lines(b)), start + nonblank_count(lines(a))),
        ) == joined(numbered(lines(a + b), blanks(lines(a + b)), start)),
{
    lemma_lines_concat(a, b);
    number_goes_on(lines(a), lines(b), start);
    number_nonblank_goes_on(lines(a), lines(b), start);
}

/// The same for `number_nonblank`: the lines of `b` are numbered from where
/// the lines of `a` stopped, which is `start` and the number of lines of `a`
/// that are not empty.
pub proof fn number_nonblank_goes_on(a: Seq<Seq<char>>, b: Seq<Seq<char>>, start: nat)
    ensures
        joined(numbered(a, blanks(a), start)) + joined(
            numbered(b, blanks(b), start + nonblank_count(a)),
        ) == joined(numbered(a + b, blanks(a + b), start)),
{
    let ab = numbered(a + b, blanks(a + b), start);
    let na = numbered(a, blanks(a), start);
    let nb = numbered(b, blanks(b), start + nonblank_count(a));
    assert(blanks(a + b) =~= blanks(a) + blanks(b));
    assert forall|i: int| 0 <= i < ab.len() implies ab[i] == (na + nb)[i] by {
        if i < a.len() {
            lemma_count_prefix(blanks(a + b), blanks(a), i);
        } else {
            lemma_count_concat(blanks(a), blanks(b), i - a.len());
        }
    }
    assert(ab =~= na + nb);
    lemma_joined_concat(na, nb);
}

} // verus!
