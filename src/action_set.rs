//! The rule set: the rules read from a rule file, the sensors they need, and
//! one evaluation pass per tick.
use vstd::prelude::*;
use crate::action::{Action, RuleModel, TriggerResult};
use crate::parse::parse_line;
use crate::post::{post_result, PostResult};
use crate::pre::{requirement, GameState, PreRequirement};
use crate::types::{ErrorKind, ParseError};

verus! {

/// The rules of a file, in order.
pub struct ActionSet {
    pub actions: Vec<Action>,
    /// Whether key presses are held back (set by the suppression actions).
    pub inhibit_key_presses: bool,
}

/// The rules that the lines give, in order: lines that fail are skipped.
pub open spec fn loaded(lines: Seq<Seq<char>>) -> Seq<RuleModel>
    decreases lines.len(),
{
    if lines.len() == 0 {
        seq![]
    } else {
        match parse_line(lines.last()) {
            Ok(Some(m)) => loaded(lines.drop_last()).push(m),
            _ => loaded(lines.drop_last()),
        }
    }
}

/// The lines that fail, by index, with their errors.
pub open spec fn rejected(lines: Seq<Seq<char>>) -> Seq<(int, ErrorKind, Seq<char>)>
    decreases lines.len(),
{
    if lines.len() == 0 {
        seq![]
    } else {
        match parse_line(lines.last()) {
            Err((k, w)) => rejected(lines.drop_last()).push((lines.len() - 1, k, w)),
            _ => rejected(lines.drop_last()),
        }
    }
}

/// The number of comment and blank lines.
pub open spec fn skipped(lines: Seq<Seq<char>>) -> nat
    decreases lines.len(),
{
    if lines.len() == 0 {
        0
    } else {
        match parse_line(lines.last()) {
            Ok(None) => skipped(lines.drop_last()) + 1,
            _ => skipped(lines.drop_last()),
        }
    }
}

pub open spec fn line_views(lines: Seq<String>) -> Seq<Seq<char>> {
    lines.map_values(|l: String| l@)
}

pub open spec fn models(actions: Seq<Action>) -> Seq<RuleModel> {
    actions.map_values(|a: Action| a.model())
}

pub open spec fn warning_views(ws: Seq<(usize, ParseError)>) -> Seq<(int, ErrorKind, Seq<char>)> {
    ws.map_values(|w: (usize, ParseError)| (w.0 as int, w.1.kind, w.1.word@))
}

/// Whether a rule reads the given sensor, through a trigger or a latch condition.
pub open spec fn rule_needs(m: RuleModel, req: PreRequirement) -> bool {
    ||| exists|j: int| 0 <= j < m.pre.len() && requirement(#[trigger] m.pre[j]) == Some(req)
    ||| exists|j: int| 0 <= j < m.after.len() && requirement(#[trigger] m.after[j]) == Some(req)
}

/// The outcomes of one pass over `acts`, by index, for the rules that tried to fire.
pub open spec fn outcomes(acts: Seq<Action>, s: GameState, now: u64, skip: bool) -> Seq<(int, TriggerResult)>
    decreases acts.len(),
{
    if acts.len() == 0 {
        seq![]
    } else {
        let rest = outcomes(acts.drop_last(), s, now, skip);
        match acts.last().tick_outcome(s, now, skip) {
            Some(r) => rest.push((acts.len() - 1, r)),
            None => rest,
        }
    }
}

/// The key suppression after one pass over `acts`: the last suppression action
/// that fires decides it.
pub open spec fn inhibit_after(acts: Seq<Action>, s: GameState, now: u64, skip: bool, init: bool) -> bool
    decreases acts.len(),
{
    if acts.len() == 0 {
        init
    } else {
        let a = acts.last();
        match (a.tick_outcome(s, now, skip), post_result(a.post@)) {
            (Some(TriggerResult::Triggered), PostResult::SetKeySuppression { suppress }) => suppress,
            _ => inhibit_after(acts.drop_last(), s, now, skip, init),
        }
    }
}

pub open spec fn outcome_views(v: Seq<(usize, TriggerResult)>) -> Seq<(int, TriggerResult)> {
    v.map_values(|o: (usize, TriggerResult)| (o.0 as int, o.1))
}

impl ActionSet {
    /// Reads the rules of a file, given as its lines. A line that fails is
    /// skipped and reported with its index; it never stops the others.
    pub fn from_lines(lines: &Vec<String>) -> (r: (ActionSet, Vec<(usize, ParseError)>))
        ensures
            models(r.0.actions@) == loaded(line_views(lines@)),
            forall|i: int| 0 <= i < r.0.actions@.len() ==> (#[trigger] r.0.actions@[i]).is_fresh(),
            !r.0.inhibit_key_presses,
            warning_views(r.1@) == rejected(line_views(lines@)),
    {
        let mut actions: Vec<Action> = Vec::new();
        let mut warnings: Vec<(usize, ParseError)> = Vec::new();
        let ghost ls = line_views(lines@);
        let mut i: usize = 0;
        while i < lines.len()
            invariant
                i <= lines.len(),
                ls == line_views(lines@),
                models(actions@) == loaded(ls.subrange(0, i as int)),
                forall|j: int| 0 <= j < actions@.len() ==> (#[trigger] actions@[j]).is_fresh(),
                warning_views(warnings@) == rejected(ls.subrange(0, i as int)),
            decreases lines.len() - i,
        {
            let ghost prefix = ls.subrange(0, i + 1);
            assert(prefix.drop_last() =~= ls.subrange(0, i as int));
            assert(prefix.last() == lines@[i as int]@);
            match Action::from_line(lines[i].as_str()) {
                Ok(Some(a)) => {
                    actions.push(a);
                    assert(models(actions@) =~= loaded(prefix));
                },
                Ok(None) => {},
                Err(e) => {
                    warnings.push((i, e));
                    assert(warning_views(warnings@) =~= rejected(prefix));
                },
            }
            i = i + 1;
            assert(models(actions@) =~= loaded(ls.subrange(0, i as int)));
            assert(warning_views(warnings@) =~= rejected(ls.subrange(0, i as int)));
        }
        assert(ls.subrange(0, i as int) =~= ls);
        (ActionSet { actions, inhibit_key_presses: false }, warnings)
    }

    /// Whether some rule reads the given sensor.
    pub fn needs(&self, requirement: PreRequirement) -> (r: bool)
        ensures
            r == exists|i: int|
                0 <= i < self.actions@.len() && rule_needs(#[trigger] self.actions@[i].model(), requirement),
    {
        let mut i: usize = 0;
        while i < self.actions.len()
            invariant
                i <= self.actions.len(),
                forall|k: int| 0 <= k < i ==> !rule_needs(#[trigger] self.actions@[k].model(), requirement),
            decreases self.actions.len() - i,
        {
            let a = &self.actions[i];
            let mut j: usize = 0;
            while j < a.pre.len()
                invariant
                    j <= a.pre.len(),
                    i < self.actions@.len(),
                    *a == self.actions@[i as int],
                    forall|k: int| 0 <= k < j ==> crate::pre::requirement(#[trigger] a.pre@[k]) != Some(requirement),
                decreases a.pre.len() - j,
            {
                if a.pre[j].needs(requirement) {
                    assert(rule_needs(self.actions@[i as int].model(), requirement)) by {
                        assert(self.actions@[i as int].model().pre[j as int] == a.pre@[j as int]);
                    }
                    return true;
                }
                j = j + 1;
            }
            let mut j: usize = 0;
            while j < a.after_pre.len()
                invariant
                    j <= a.after_pre.len(),
                    i < self.actions@.len(),
                    *a == self.actions@[i as int],
                    forall|k: int| 0 <= k < a.pre@.len() ==> crate::pre::requirement(#[trigger] a.pre@[k]) != Some(requirement),
                    forall|k: int| 0 <= k < j ==> crate::pre::requirement(#[trigger] a.after_pre@[k].0) != Some(requirement),
                decreases a.after_pre.len() - j,
            {
                if a.after_pre[j].0.needs(requirement) {
                    assert(rule_needs(self.actions@[i as int].model(), requirement)) by {
                        assert(self.actions@[i as int].model().after[j as int] == a.after_pre@[j as int].0);
                    }
                    return true;
                }
                j = j + 1;
            }
            assert(!rule_needs(a.model(), requirement)) by {
                assert forall|k: int| 0 <= k < a.model().after.len() implies crate::pre::requirement(#[trigger] a.model().after[k]) != Some(requirement) by {
                    assert(a.model().after[k] == a.after_pre@[k].0);
                }
            }
            i = i + 1;
        }
        false
    }

    /// Whether some rule reads the mouse wheel (and so needs the mouse hook).
    pub fn needs_mouse_hook(&self) -> (r: bool)
        ensures
            r == exists|i: int|
                0 <= i < self.actions@.len() && rule_needs(#[trigger] self.actions@[i].model(), PreRequirement::Mouse),
    {
        self.needs(PreRequirement::Mouse)
    }

    /// Runs one evaluation pass at `now` over the snapshot: each rule in order
    /// updates its latches and toggle, and, unless it presses a key while key
    /// presses are held back, tries to fire. Returns the index and outcome of
    /// each rule that tried; the caller performs the actions that triggered.
    pub fn check_all(&mut self, state: &GameState, now: u64) -> (r: Vec<(usize, TriggerResult)>)
        ensures
            final(self).actions@.len() == old(self).actions@.len(),
            forall|i: int|
                0 <= i < old(self).actions@.len() ==> (#[trigger] old(self).actions@[i]).ticked(
                    &final(self).actions@[i],
                    *state,
                    now,
                    old(self).inhibit_key_presses,
                ),
            outcome_views(r@) == outcomes(old(self).actions@, *state, now, old(self).inhibit_key_presses),
            final(self).inhibit_key_presses == inhibit_after(
                old(self).actions@,
                *state,
                now,
                old(self).inhibit_key_presses,
                old(self).inhibit_key_presses,
            ),
    {
        let skip = self.inhibit_key_presses;
        let ghost start = self.actions@;
        let mut out: Vec<(usize, TriggerResult)> = Vec::new();
        let mut i: usize = 0;
        while i < self.actions.len()
            invariant
                i <= self.actions.len() == start.len(),
                forall|k: int| 0 <= k < i ==> (#[trigger] start[k]).ticked(&self.actions@[k], *state, now, skip),
                forall|k: int| i <= k < start.len() ==> #[trigger] self.actions@[k] == start[k],
                outcome_views(out@) == outcomes(start.subrange(0, i as int), *state, now, skip),
                self.inhibit_key_presses == inhibit_after(start.subrange(0, i as int), *state, now, skip, skip),
            decreases self.actions.len() - i,
        {
            let ghost prefix = start.subrange(0, i + 1);
            assert(prefix.drop_last() =~= start.subrange(0, i as int));
            assert(prefix.last() == start[i as int]);
            let res = self.actions[i].tick(state, now, skip);
            match res {
                Some(t) => {
                    out.push((i, t));
                    if t == TriggerResult::Triggered {
                        match self.actions[i].post.result() {
                            PostResult::SetKeySuppression { suppress } => {
                                self.inhibit_key_presses = suppress;
                            },
                            PostResult::Nothing => {},
                        }
                    }
                },
                None => {},
            }
            i = i + 1;
            assert(outcome_views(out@) =~= outcomes(start.subrange(0, i as int), *state, now, skip));
        }
        assert(start.subrange(0, i as int) =~= start);
        out
    }
}

/// Loading never stops at a bad line: every line gives a rule, a reported
/// error, or nothing (a comment or a blank line).
pub proof fn lemma_load_partition(lines: Seq<Seq<char>>)
    ensures
        loaded(lines).len() + rejected(lines).len() + skipped(lines) == lines.len(),
    decreases lines.len(),
{
    if lines.len() > 0 {
        lemma_load_partition(lines.drop_last());
    }
}

} // verus!
