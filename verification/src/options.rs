//! The command-line switches and their resolution into elementary transforms.
//!
//! Three of the switches are shorthand for several others, and one overrides
//! another. Resolution rewrites an [`Options`] value rule by rule until no
//! rule applies any more; what is left names elementary transforms only.

use vstd::prelude::*;

verus! {

/// The switches exactly as the user gave them.
#[derive(Clone, Copy, Debug, PartialEq, Eq, Structural)]
pub struct Options {
    /// `-A`: shorthand for `-v -E -T`.
    pub show_all: bool,
    /// `-b`: number the non-empty lines; overrides `-n`.
    pub number_nonblank: bool,
    /// `-e`: shorthand for `-v -E`.
    pub e: bool,
    /// `-E`: mark every line end with `$`.
    pub show_ends: bool,
    /// `-n`: number all lines.
    pub number: bool,
    /// `-s`: collapse runs of empty lines.
    pub squeeze_blank: bool,
    /// `-t`: shorthand for `-v -T`.
    pub t: bool,
    /// `-T`: show tabs as `^I`.
    pub show_tabs: bool,
    /// `-u`: accepted and ignored.
    pub u: bool,
    /// `-v`: escape non-printing characters.
    pub show_nonprinting: bool,
}

/// The resolved switches: elementary transforms only.
#[derive(Clone, Copy, Debug, PartialEq, Eq, Structural)]
pub struct ElementaryFlagSet {
    pub squeeze_blank: bool,
    pub show_tabs: bool,
    pub show_ends: bool,
    pub show_nonprinting: bool,
    pub number_nonblank: bool,
    pub number: bool,
}

/// The rewriting rules, in the order in which they are tried.
#[derive(Clone, Copy, Debug, PartialEq, Eq, Structural)]
pub enum Rule {
    /// `number_nonblank` and `number` are both set: `number` is cleared.
    NonblankOverridesNumber,
    /// `show_all` is set: it is replaced by `show_nonprinting`, `show_ends`, `show_tabs`.
    ShowAll,
    /// `e` is set: it is replaced by `show_ends`, `show_nonprinting`.
    EndsAndNonprinting,
    /// `t` is set: it is replaced by `show_tabs`, `show_nonprinting`.
    TabsAndNonprinting,
}

impl Rule {
    /// Whether the rule has anything to rewrite in `o`.
    pub open spec fn applies(self, o: Options) -> bool {
        match self {
            Rule::NonblankOverridesNumber => o.number_nonblank && o.number,
            Rule::ShowAll => o.show_all,
            Rule::EndsAndNonprinting => o.e,
            Rule::TabsAndNonprinting => o.t,
        }
    }

    /// `o` after the rule has been applied once.
    pub open spec fn rewrite(self, o: Options) -> Options {
        match self {
            Rule::NonblankOverridesNumber => Options { number: false, ..o },
            Rule::ShowAll => Options {
                show_all: false,
                show_nonprinting: true,
                show_ends: true,
                show_tabs: true,
                ..o
            },
            Rule::EndsAndNonprinting => Options {
                e: false,
                show_ends: true,
                show_nonprinting: true,
                ..o
            },
            Rule::TabsAndNonprinting => Options {
                t: false,
                show_tabs: true,
                show_nonprinting: true,
                ..o
            },
        }
    }

    /// Applies the rule once.
    pub fn apply(self, o: Options) -> (r: Options)
        ensures
            r == self.rewrite(o),
    {
        let mut r = o;
        match self {
            Rule::NonblankOverridesNumber => {
                r.number = false;
            },
            Rule::ShowAll => {
                r.show_all = false;
                r.show_nonprinting = true;
                r.show_ends = true;
                r.show_tabs = true;
            },
            Rule::EndsAndNonprinting => {
                r.e = false;
                r.show_ends = true;
                r.show_nonprinting = true;
            },
            Rule::TabsAndNonprinting => {
                r.t = false;
                r.show_tabs = true;
                r.show_nonprinting = true;
            },
        }
        r
    }
}

impl Options {
    /// No switch set.
    pub open spec fn none() -> Options {
        Options {
            show_all: false,
            number_nonblank: false,
            e: false,
            show_ends: false,
            number: false,
            squeeze_blank: false,
            t: false,
            show_tabs: false,
            u: false,
            show_nonprinting: false,
        }
    }

    /// The first rule, in table order, that applies to `self`.
    pub open spec fn first_rule(self) -> Option<Rule> {
        if Rule::NonblankOverridesNumber.applies(self) {
            Some(Rule::NonblankOverridesNumber)
        } else if Rule::ShowAll.applies(self) {
            Some(Rule::ShowAll)
        } else if Rule::EndsAndNonprinting.applies(self) {
            Some(Rule::EndsAndNonprinting)
        } else if Rule::TabsAndNonprinting.applies(self) {
            Some(Rule::TabsAndNonprinting)
        } else {
            None
        }
    }

    /// How many rules still apply. Every rewriting step lowers it by at least one.
    pub open spec fn unresolved(self) -> nat {
        let a: nat = if Rule::NonblankOverridesNumber.applies(self) { 1 } else { 0 };
        let b: nat = if Rule::ShowAll.applies(self) { 1 } else { 0 };
        let c: nat = if Rule::EndsAndNonprinting.applies(self) { 1 } else { 0 };
        let d: nat = if Rule::TabsAndNonprinting.applies(self) { 1 } else { 0 };
        a + b + c + d
    }

    /// Whether no rule applies: no shorthand is left, and `number` is not set
    /// beside `number_nonblank`.
    pub open spec fn is_resolved(self) -> bool {
        &&& !self.show_all
        &&& !self.e
        &&& !self.t
        &&& !(self.number_nonblank && self.number)
    }

    /// The fixed point of the rewriting, in closed form.
    pub open spec fn expanded(self) -> Options {
        Options {
            show_all: false,
            number_nonblank: self.number_nonblank,
            e: false,
            show_ends: self.show_ends || self.show_all || self.e,
            number: self.number && !self.number_nonblank,
            squeeze_blank: self.squeeze_blank,
            t: false,
            show_tabs: self.show_tabs || self.show_all || self.t,
            u: self.u,
            show_nonprinting: self.show_nonprinting || self.show_all || self.e || self.t,
        }
    }

    /// The elementary transforms that `self` asks for.
    pub open spec fn resolved(self) -> ElementaryFlagSet {
        let x = self.expanded();
        ElementaryFlagSet {
            squeeze_blank: x.squeeze_blank,
            show_tabs: x.show_tabs,
            show_ends: x.show_ends,
            show_nonprinting: x.show_nonprinting,
            number_nonblank: x.number_nonblank,
            number: x.number,
        }
    }

    /// A value with no switch set.
    pub fn new() -> (r: Options)
        ensures
            r == Options::none(),
    {
        Options {
            show_all: false,
            number_nonblank: false,
            e: false,
            show_ends: false,
            number: false,
            squeeze_blank: false,
            t: false,
            show_tabs: false,
            u: false,
            show_nonprinting: false,
        }
    }

    /// Finds the first rule that applies, if any does.
    pub fn next_rule(&self) -> (r: Option<Rule>)
        ensures
            r == self.first_rule(),
            r is None <==> self.is_resolved(),
    {
        if self.number_nonblank && self.number {
            Some(Rule::NonblankOverridesNumber)
        } else if self.show_all {
            Some(Rule::ShowAll)
        } else if self.e {
            Some(Rule::EndsAndNonprinting)
        } else if self.t {
            Some(Rule::TabsAndNonprinting)
        } else {
            None
        }
    }

    /// Rewrites until no rule applies.
    pub fn expand(self) -> (r: Options)
        ensures
            r == self.expanded(),
            r.is_resolved(),
    {
        let mut cur = self;
        loop
            invariant
                cur.expanded() == self.expanded(),
            decreases cur.unresolved(),
        {
            match cur.next_rule() {
                Some(rule) => {
                    cur = rule.apply(cur);
                },
                None => {
                    return cur;
                },
            }
        }
    }
}

impl ElementaryFlagSet {
    /// `number` is never set beside `number_nonblank`.
    pub open spec fn wf(self) -> bool {
        !(self.number_nonblank && self.number)
    }
}

/// Resolves the switches into the elementary transforms they stand for.
///
/// Shorthands are expanded, `number_nonblank` silences `number`, and `u` is
/// dropped. Every input resolves.
pub fn resolve(options: &Options) -> (r: ElementaryFlagSet)
    ensures
        r == options.resolved(),
        r.wf(),
{
    let x = options.expand();
    ElementaryFlagSet {
        squeeze_blank: x.squeeze_blank,
        show_tabs: x.show_tabs,
        show_ends: x.show_ends,
        show_nonprinting: x.show_nonprinting,
        number_nonblank: x.number_nonblank,
        number: x.number,
    }
}

/// What resolution leaves holds no shorthand, and never `number` beside
/// `number_nonblank`; resolving it again changes nothing.
pub proof fn resolution_leaves_elementary_flags(o: Options)
    ensures
        !o.expanded().show_all,
        !o.expanded().e,
        !o.expanded().t,
        !(o.expanded().number && o.expanded().number_nonblank),
        o.resolved().wf(),
        o.expanded().unresolved() == 0,
        o.expanded().expanded() == o.expanded(),
{
}

/// Every step lowers the number of rules that still apply and keeps the
/// fixed point, so the rewriting ends, and ends in the same place whichever
/// value of the chain it started from.
pub proof fn rewriting_makes_progress(o: Options, rule: Rule)
    requires
        o.first_rule() == Some(rule),
    ensures
        rule.rewrite(o).unresolved() < o.unresolved(),
        rule.rewrite(o).expanded() == o.expanded(),
{
}

} // verus!
