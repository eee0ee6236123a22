//! One run over several sources: the flags, the line counter that all of
//! them share, and whether any of them could not be read.
//!
//! Reading is the caller's part. It hands in the text of each source that it
//! could read, names each one that it could not, and carries on with the
//! next: one bad source does not end the run, but it decides how the run
//! exits.

use vstd::prelude::*;
use crate::number::LineCounter;
use crate::options::{resolve, ElementaryFlagSet, Options};
use crate::pipeline::{applied, apply_checked, numbers_used};

verus! {

/// The state of a run.
pub struct Session {
    flags: ElementaryFlagSet,
    counter: LineCounter,
    failed: bool,
}

/// The characters of each name.
pub open spec fn names(v: Seq<String>) -> Seq<Seq<char>> {
    Seq::new(v.len(), |i: int| v[i]@)
}

/// The message for a source named `name` that could not be read.
pub open spec fn error_text(name: Seq<char>) -> Seq<char> {
    "rat: "@ + name + ": No such file or directory"@
}

/// Writes the message for a source that could not be read.
pub fn err_in_path(file_name: &str) -> (r: String)
    ensures
        r@ == error_text(file_name@),
{
    let mut message = String::new();
    message.append("rat: ");
    message.append(file_name);
    message.append(": No such file or directory");
    assert(message@ =~= error_text(file_name@));
    message
}

/// Whether `path` names the standard input: it is a single `-`.
pub fn is_stdin(path: &str) -> (r: bool)
    ensures
        r == (path@ == seq!['-']),
{
    let r = path.unicode_len() == 1 && path.get_char(0) == '-';
    assert(r == (path@ =~= seq!['-']));
    r
}

/// The sources to read, in order: the paths given, or the standard input
/// where none is given.
pub fn sources(paths: Vec<String>) -> (r: Vec<String>)
    ensures
        names(r@) == if paths@.len() == 0 {
            seq![seq!['-']]
        } else {
            names(paths@)
        },
{
    if paths.len() == 0 {
        let mut only: Vec<String> = Vec::new();
        let mut dash = String::new();
        dash.append("-");
        proof {
            reveal_strlit("-");
            assert(dash@ =~= seq!['-']);
        }
        only.push(dash);
        assert(names(only@) =~= seq![seq!['-']]);
        only
    } else {
        paths
    }
}

impl Session {
    /// The transforms that the run applies.
    pub closed spec fn flags(&self) -> ElementaryFlagSet {
        self.flags
    }

    /// The number that the next numbered line gets.
    pub closed spec fn next(&self) -> nat {
        self.counter@
    }

    /// Whether a source could not be read.
    pub closed spec fn failed(&self) -> bool {
        self.failed
    }

    /// Starts a run: the switches are resolved once, the counter stands at 1.
    pub fn new(options: &Options) -> (r: Session)
        ensures
            r.flags() == options.resolved(),
            r.next() == 1,
            !r.failed(),
    {
        Session { flags: resolve(options), counter: LineCounter::new(), failed: false }
    }

    /// The number that the next numbered line gets.
    pub fn line_number(&self) -> (r: u64)
        ensures
            r == self.next(),
    {
        self.counter.value()
    }

    /// Takes the text of the next source and gives what is to be written for
    /// it. Numbering goes on from the source before.
    ///
    /// `None` where the counter cannot hold the line numbers that the text
    /// would take; the run is then as it was.
    pub fn feed(&mut self, text: String) -> (r: Option<String>)
        ensures
            final(self).flags() == old(self).flags(),
            final(self).failed() == old(self).failed(),
            r is Some <==> old(self).next() + numbers_used(old(self).flags(), text@) <= u64::MAX,
            r matches Some(out) ==> out@ == applied(old(self).flags(), text@, old(self).next())
                && final(self).next() == old(self).next() + numbers_used(
                old(self).flags(),
                text@,
            ),
            r is None ==> final(self).next() == old(self).next(),
    {
        apply_checked(&self.flags, text, &mut self.counter)
    }

    /// Takes note of a source that could not be read and gives the message
    /// to report. Flags and counter stay as they are: the sources that
    /// follow are processed as if this one had not been named.
    pub fn missing(&mut self, path: &str) -> (r: String)
        ensures
            r@ == error_text(path@),
            final(self).failed(),
            final(self).flags() == old(self).flags(),
            final(self).next() == old(self).next(),
    {
        self.failed = true;
        err_in_path(path)
    }

    /// The exit status of the run: 0, or 1 once a source could not be read.
    pub fn exit_code(&self) -> (r: u8)
        ensures
            r == if self.failed() {
                1u8
            } else {
                0u8
            },
    {
        if self.failed {
            1
        } else {
            0
        }
    }
}

} // verus!
