//! A rule: its trigger and latch conditions, its action, and the state
//! machine that decides on each tick whether the action fires.
use vstd::prelude::*;
use crate::pre::{condition_text, holds, GameState, PreCondition};
use crate::post::{action_text, PostCondition, PostModel};
use crate::text::{push_str, string_of};
use crate::types::{duration_text, Delay};

verus! {

/// Minimum interval between two firings unless the rule says otherwise: rapid
/// actions may be refused by the server.
pub const DEFAULT_ACTION_DELAY: u64 = 500;

/// Windup unless the rule says otherwise.
pub const DEFAULT_ACTION_WINDUP: u64 = 0;

/// A rule of the rule set.
#[derive(Debug, PartialEq, Eq)]
pub struct Action {
    /// Conditions that must all hold for the rule to fire.
    pub pre: Vec<PreCondition>,
    /// Latch conditions, each with whether it has held since the rule last fired.
    pub after_pre: Vec<(PreCondition, bool)>,
    pub post: PostCondition,
    /// Time of the last firing, in milliseconds; `None` before the first one.
    pub last_trigger: Option<u64>,
    /// Minimum interval between two firings.
    pub delay: Delay,
    /// Start of the windup in progress, if any.
    pub windup_start: Option<u64>,
    /// How long a firing waits once it is decided.
    pub windup_time: Delay,
    /// Whether successful runs go unreported.
    pub silent: bool,
    /// `Some(on)` for a rule that is switched on and off, `None` for a one-shot rule.
    pub toggle: Option<bool>,
    /// Whether the conditions held at the last flip and have not failed since.
    pub toggle_pre_held: bool,
    /// The line the rule was read from.
    pub source: String,
}

/// What a rule says, apart from its running state.
pub struct RuleModel {
    pub pre: Seq<PreCondition>,
    pub after: Seq<PreCondition>,
    pub post: PostModel,
    pub delay: u64,
    pub windup: u64,
    pub silent: bool,
    pub toggle: bool,
}

/// The outcome of an attempt to fire a rule.
#[derive(Clone, Copy, Debug, PartialEq, Eq, Structural)]
pub enum TriggerResult {
    /// The action is to be performed now.
    Triggered,
    /// The windup has just started.
    Queued,
    /// The windup is still running.
    Delayed,
}

pub open spec fn latch_conditions(l: Seq<(PreCondition, bool)>) -> Seq<PreCondition> {
    l.map_values(|p: (PreCondition, bool)| p.0)
}

/// Every latch has held since the last firing.
pub open spec fn all_seen(l: Seq<(PreCondition, bool)>) -> bool {
    forall|i: int| 0 <= i < l.len() ==> (#[trigger] l[i]).1
}

/// Every condition holds in `s`.
pub open spec fn all_hold(pre: Seq<PreCondition>, s: GameState) -> bool {
    forall|i: int| 0 <= i < pre.len() ==> holds(#[trigger] pre[i], s)
}

/// The latches once the conditions that hold in `s` are marked as seen.
pub open spec fn observe(l: Seq<(PreCondition, bool)>, s: GameState) -> Seq<(PreCondition, bool)> {
    l.map_values(|p: (PreCondition, bool)| (p.0, p.1 || holds(p.0, s)))
}

/// The latches once the rule has fired: none is seen.
pub open spec fn reset(l: Seq<(PreCondition, bool)>) -> Seq<(PreCondition, bool)> {
    l.map_values(|p: (PreCondition, bool)| (p.0, false))
}

/// One step of the toggle: given the toggle, whether the conditions held at the
/// last flip, and whether they hold now, the new toggle and held flag. A held
/// flip must see the conditions fail once before it can flip again.
pub open spec fn toggle_step(toggle: Option<bool>, held: bool, met: bool) -> (Option<bool>, bool) {
    match toggle {
        None => (None, held),
        Some(on) => if held {
            (toggle, met)
        } else if met {
            (Some(!on), true)
        } else {
            (toggle, false)
        },
    }
}

/// Whether more than `delay` milliseconds passed since the last firing.
pub open spec fn ready(last: Option<u64>, delay: u64, now: u64) -> bool {
    match last {
        None => true,
        Some(t) => now > t + delay,
    }
}

fn observe_latches(l: &mut Vec<(PreCondition, bool)>, state: &GameState)
    ensures
        final(l)@ == observe(old(l)@, *state),
{
    let ghost start = l@;
    let mut i: usize = 0;
    while i < l.len()
        invariant
            i <= l.len() == start.len(),
            forall|j: int| 0 <= j < i ==> #[trigger] l@[j] == observe(start, *state)[j],
            forall|j: int| i <= j < start.len() ==> #[trigger] l@[j] == start[j],
        decreases l.len() - i,
    {
        let (p, seen) = l[i];
        if !seen {
            let now_seen = p.is_valid(state);
            l.set(i, (p, now_seen));
        }
        i = i + 1;
    }
    assert(l@ =~= observe(start, *state));
}

fn reset_latches(l: &mut Vec<(PreCondition, bool)>)
    ensures
        final(l)@ == reset(old(l)@),
{
    let ghost start = l@;
    let mut i: usize = 0;
    while i < l.len()
        invariant
            i <= l.len() == start.len(),
            forall|j: int| 0 <= j < i ==> #[trigger] l@[j] == reset(start)[j],
            forall|j: int| i <= j < start.len() ==> #[trigger] l@[j] == start[j],
        decreases l.len() - i,
    {
        let (p, _) = l[i];
        l.set(i, (p, false));
        i = i + 1;
    }
    assert(l@ =~= reset(start));
}

impl Action {
    pub open spec fn model(&self) -> RuleModel {
        RuleModel {
            pre: self.pre@,
            after: latch_conditions(self.after_pre@),
            post: self.post@,
            delay: self.delay.0,
            windup: self.windup_time.0,
            silent: self.silent,
            toggle: self.toggle is Some,
        }
    }

    /// The state of a rule that was just read: nothing seen, never fired, switched off.
    pub open spec fn is_fresh(&self) -> bool {
        &&& forall|i: int| 0 <= i < self.after_pre@.len() ==> !(#[trigger] self.after_pre@[i]).1
        &&& self.last_trigger is None
        &&& self.windup_start is None
        &&& self.toggle_pre_held == false
        &&& (self.toggle is Some ==> self.toggle == Some(false))
    }

    /// Whether the trigger conditions hold and every latch has been seen.
    pub open spec fn met(&self, s: GameState) -> bool {
        all_seen(self.after_pre@) && all_hold(self.pre@, s)
    }

    /// Whether the rule wants to fire at `now`: a windup is in progress, or it is
    /// switched on or its conditions are met, and its interval has passed.
    pub open spec fn wants(&self, s: GameState, now: u64) -> bool {
        ||| self.windup_start is Some
        ||| ((self.toggle == Some(true) || self.met(s)) && ready(
            self.last_trigger,
            self.delay.0,
            now,
        ))
    }

    /// What an attempt to fire at `now` gives.
    pub open spec fn trigger_outcome(&self, now: u64) -> TriggerResult {
        if self.windup_time.0 > 0 {
            match self.windup_start {
                None => TriggerResult::Queued,
                Some(start) => if now < start + self.windup_time.0 {
                    TriggerResult::Delayed
                } else {
                    TriggerResult::Triggered
                },
            }
        } else {
            TriggerResult::Triggered
        }
    }

    /// The parts that no evaluation changes.
    pub open spec fn same_rule(&self, other: &Action) -> bool {
        &&& self.pre@ == other.pre@
        &&& latch_conditions(self.after_pre@) == latch_conditions(other.after_pre@)
        &&& self.post@ == other.post@
        &&& self.delay == other.delay
        &&& self.windup_time == other.windup_time
        &&& self.silent == other.silent
        &&& self.source@ == other.source@
        &&& (self.toggle is Some) == (other.toggle is Some)
    }

    /// The latches, the toggle and its held flag after the toggle pass on `s`.
    pub open spec fn observed(&self, s: GameState) -> (Seq<(PreCondition, bool)>, Option<bool>, bool) {
        let l = observe(self.after_pre@, s);
        let met = all_seen(l) && all_hold(self.pre@, s);
        let (t, h) = toggle_step(self.toggle, self.toggle_pre_held, met);
        (l, t, h)
    }

    /// What one tick does to this rule: `None` when it does not try to fire,
    /// else the outcome of the attempt. `skip` holds key presses back.
    pub open spec fn tick_outcome(&self, s: GameState, now: u64, skip: bool) -> Option<TriggerResult> {
        let (l, t, h) = self.observed(s);
        let met = all_seen(l) && all_hold(self.pre@, s);
        if skip && self.post@ is PressKey {
            None
        } else if self.windup_start is Some || ((t == Some(true) || met) && ready(
            self.last_trigger,
            self.delay.0,
            now,
        )) {
            Some(self.trigger_outcome(now))
        } else {
            None
        }
    }

    /// Whether `b` is this rule after one tick on `s` at `now`.
    pub open spec fn ticked(&self, b: &Action, s: GameState, now: u64, skip: bool) -> bool {
        let (l, t, h) = self.observed(s);
        let out = self.tick_outcome(s, now, skip);
        &&& self.same_rule(b)
        &&& b.toggle == t
        &&& b.toggle_pre_held == h
        &&& b.after_pre@ == (if out == Some(TriggerResult::Triggered) {
            reset(l)
        } else {
            l
        })
        &&& b.windup_start == (match out {
            Some(TriggerResult::Queued) => Some(now),
            Some(TriggerResult::Triggered) => None,
            _ => self.windup_start,
        })
        &&& b.last_trigger == (if out == Some(TriggerResult::Triggered) {
            Some(now)
        } else {
            self.last_trigger
        })
    }

    /// Whether the trigger conditions hold and every latch has been seen.
    pub fn check_pre(&self, state: &GameState) -> (r: bool)
        ensures
            r == self.met(*state),
    {
        let mut i: usize = 0;
        while i < self.after_pre.len()
            invariant
                i <= self.after_pre.len(),
                forall|j: int| 0 <= j < i ==> (#[trigger] self.after_pre@[j]).1,
            decreases self.after_pre.len() - i,
        {
            if !self.after_pre[i].1 {
                return false;
            }
            i = i + 1;
        }
        let mut k: usize = 0;
        while k < self.pre.len()
            invariant
                k <= self.pre.len(),
                all_seen(self.after_pre@),
                forall|j: int| 0 <= j < k ==> holds(#[trigger] self.pre@[j], *state),
            decreases self.pre.len() - k,
        {
            if !self.pre[k].is_valid(state) {
                return false;
            }
            k = k + 1;
        }
        true
    }

    /// Whether the rule should be tried at `now`.
    pub fn check(&self, state: &GameState, now: u64) -> (r: bool)
        ensures
            r == self.wants(*state, now),
    {
        if self.windup_start.is_some() {
            return true;
        }
        let on = match self.toggle {
            Some(t) => t,
            None => false,
        };
        if !(on || self.check_pre(state)) {
            return false;
        }
        match self.last_trigger {
            None => true,
            Some(t) => now > t && now - t > self.delay.0,
        }
    }

    /// Marks the latches that hold in `state` as seen, then flips a toggle rule
    /// whose conditions are met, unless they were already met at its last flip.
    pub fn try_toggle(&mut self, state: &GameState)
        ensures
            old(self).same_rule(final(self)),
            (final(self).after_pre@, final(self).toggle, final(self).toggle_pre_held) == old(
                self,
            ).observed(*state),
            final(self).windup_start == old(self).windup_start,
            final(self).last_trigger == old(self).last_trigger,
    {
        let ghost start = self.after_pre@;
        observe_latches(&mut self.after_pre, state);
        assert(latch_conditions(self.after_pre@) =~= latch_conditions(start));
        if let Some(enabled) = self.toggle {
            if self.toggle_pre_held {
                self.toggle_pre_held = self.check_pre(state);
            } else if self.check_pre(state) {
                self.toggle = Some(!enabled);
                self.toggle_pre_held = true;
            }
        }
    }

    /// Resets the latches and records a firing at `now`.
    pub fn trigger(&mut self, now: u64)
        ensures
            old(self).same_rule(final(self)),
            final(self).after_pre@ == reset(old(self).after_pre@),
            final(self).last_trigger == Some(now),
            final(self).toggle == old(self).toggle,
            final(self).toggle_pre_held == old(self).toggle_pre_held,
            final(self).windup_start == old(self).windup_start,
    {
        let ghost start = self.after_pre@;
        reset_latches(&mut self.after_pre);
        assert(latch_conditions(self.after_pre@) =~= latch_conditions(start));
        self.last_trigger = Some(now);
    }

    /// Tries to fire the rule at `now`. With a windup, the first attempt starts
    /// it, and the firing happens on the first attempt once it has run out.
    pub fn try_trigger(&mut self, now: u64) -> (r: TriggerResult)
        ensures
            r == old(self).trigger_outcome(now),
            old(self).same_rule(final(self)),
            final(self).toggle == old(self).toggle,
            final(self).toggle_pre_held == old(self).toggle_pre_held,
            final(self).after_pre@ == (if r == TriggerResult::Triggered {
                reset(old(self).after_pre@)
            } else {
                old(self).after_pre@
            }),
            final(self).windup_start == (match r {
                TriggerResult::Queued => Some(now),
                TriggerResult::Triggered => None,
                TriggerResult::Delayed => old(self).windup_start,
            }),
            final(self).last_trigger == (if r == TriggerResult::Triggered {
                Some(now)
            } else {
                old(self).last_trigger
            }),
    {
        if self.windup_time.0 > 0 {
            match self.windup_start {
                Some(start) => {
                    if (now as u128) < (start as u128) + (self.windup_time.0 as u128) {
                        return TriggerResult::Delayed;
                    }
                    self.windup_start = None;
                },
                None => {
                    self.windup_start = Some(now);
                    return TriggerResult::Queued;
                },
            }
        }
        self.windup_start = None;
        self.trigger(now);
        TriggerResult::Triggered
    }

    /// Runs one tick of the rule: the toggle pass, then, unless `skip` holds its
    /// key press back, an attempt to fire if it wants to.
    pub fn tick(&mut self, state: &GameState, now: u64, skip: bool) -> (r: Option<TriggerResult>)
        ensures
            r == old(self).tick_outcome(*state, now, skip),
            old(self).ticked(final(self), *state, now, skip),
    {
        self.try_toggle(state);
        if skip && self.post.is_key_press() {
            return None;
        }
        if self.check(state, now) {
            Some(self.try_trigger(now))
        } else {
            None
        }
    }
}

/// The clauses `<kw><condition> ` for each condition.
pub open spec fn clauses(kw: Seq<char>, cs: Seq<PreCondition>) -> Seq<char>
    decreases cs.len(),
{
    if cs.len() == 0 {
        seq![]
    } else {
        clauses(kw, cs.drop_last()) + kw + condition_text(cs.last()) + " "@
    }
}

/// A rule written back as a line of the rule language.
pub open spec fn rule_text(m: RuleModel) -> Seq<char> {
    clauses("on "@, m.pre) + clauses("after "@, m.after) + (if m.delay != DEFAULT_ACTION_DELAY {
        "every "@ + duration_text(m.delay) + " "@
    } else {
        seq![]
    }) + (if m.windup != DEFAULT_ACTION_WINDUP {
        "after "@ + duration_text(m.windup) + " "@
    } else {
        seq![]
    }) + (if m.silent {
        "silent "@
    } else {
        seq![]
    }) + (if m.toggle {
        "toggle "@
    } else {
        "do "@
    }) + action_text(m.post)
}

fn push_clauses(out: &mut Vec<char>, kw: &str, cs: &Vec<PreCondition>)
    ensures
        final(out)@ == old(out)@ + clauses(kw@, cs@),
{
    let ghost start = out@;
    let mut i: usize = 0;
    while i < cs.len()
        invariant
            i <= cs.len(),
            out@ == start + clauses(kw@, cs@.subrange(0, i as int)),
        decreases cs.len() - i,
    {
        push_str(out, kw);
        cs[i].push_text(out);
        push_str(out, " ");
        i = i + 1;
        assert(cs@.subrange(0, i as int).drop_last() =~= cs@.subrange(0, i - 1));
        assert(out@ =~= start + clauses(kw@, cs@.subrange(0, i as int)));
    }
    assert(cs@.subrange(0, i as int) =~= cs@);
}

impl Action {
    /// The rule written back as a line of the rule language.
    pub fn to_string(&self) -> (r: String)
        ensures
            r@ == rule_text(self.model()),
    {
        let mut out: Vec<char> = Vec::new();
        push_clauses(&mut out, "on ", &self.pre);
        let mut latches: Vec<PreCondition> = Vec::new();
        let mut i: usize = 0;
        while i < self.after_pre.len()
            invariant
                i <= self.after_pre.len(),
                latches@ == latch_conditions(self.after_pre@.subrange(0, i as int)),
            decreases self.after_pre.len() - i,
        {
            latches.push(self.after_pre[i].0);
            i = i + 1;
            assert(latches@ =~= latch_conditions(self.after_pre@.subrange(0, i as int)));
        }
        assert(self.after_pre@.subrange(0, i as int) =~= self.after_pre@);
        push_clauses(&mut out, "after ", &latches);
        let ghost a = out@;
        if self.delay.0 != DEFAULT_ACTION_DELAY {
            push_str(&mut out, "every ");
            self.delay.push_text(&mut out);
            push_str(&mut out, " ");
        }
        let ghost b = out@;
        if self.windup_time.0 != DEFAULT_ACTION_WINDUP {
            push_str(&mut out, "after ");
            self.windup_time.push_text(&mut out);
            push_str(&mut out, " ");
        }
        let ghost c = out@;
        if self.silent {
            push_str(&mut out, "silent ");
        }
        let ghost d = out@;
        if self.toggle.is_some() {
            push_str(&mut out, "toggle ");
        } else {
            push_str(&mut out, "do ");
        }
        self.post.push_text(&mut out);
        assert(out@ =~= rule_text(self.model()));
        string_of(&out)
    }
}

/// The latches after a run of ticks without a firing, one snapshot each.
pub open spec fn observe_all(l: Seq<(PreCondition, bool)>, ss: Seq<GameState>) -> Seq<(PreCondition, bool)>
    decreases ss.len(),
{
    if ss.len() == 0 {
        l
    } else {
        observe(observe_all(l, ss.drop_last()), ss.last())
    }
}

/// After a firing, a latch counts as seen exactly when its condition held on
/// at least one tick since, whatever the order of the ticks.
pub proof fn lemma_latch_seen_once(l: Seq<(PreCondition, bool)>, ss: Seq<GameState>, i: int)
    requires
        0 <= i < l.len(),
    ensures
        observe_all(reset(l), ss).len() == l.len(),
        observe_all(reset(l), ss)[i].0 == l[i].0,
        observe_all(reset(l), ss)[i].1 <==> exists|k: int| 0 <= k < ss.len() && holds(l[i].0, #[trigger] ss[k]),
    decreases ss.len(),
{
    if ss.len() > 0 {
        lemma_latch_seen_once(l, ss.drop_last(), i);
        let prev = observe_all(reset(l), ss.drop_last());
        if prev[i].1 {
            let k = choose|k: int| 0 <= k < ss.drop_last().len() && holds(l[i].0, #[trigger] ss.drop_last()[k]);
            assert(ss[k] == ss.drop_last()[k]);
        }
        if exists|k: int| 0 <= k < ss.len() && holds(l[i].0, #[trigger] ss[k]) {
            let k = choose|k: int| 0 <= k < ss.len() && holds(l[i].0, #[trigger] ss[k]);
            if k < ss.len() - 1 {
                assert(ss.drop_last()[k] == ss[k]);
            }
        }
    }
}

/// A one-shot rule without a windup in progress does not try to fire on a tick
/// where one of its latches has not been seen since the last firing and does not
/// hold now; that latch stays unseen. A latch once seen stays seen until the
/// rule fires.
pub proof fn lemma_latch_blocks(a: Action, b: Action, s: GameState, now: u64, skip: bool, i: int)
    requires
        0 <= i < a.after_pre@.len(),
        a.ticked(&b, s, now, skip),
    ensures
        (!a.after_pre@[i].1 && !holds(a.after_pre@[i].0, s) && a.toggle is None
            && a.windup_start is None) ==> a.tick_outcome(s, now, skip) is None && !b.after_pre@[i].1,
        a.after_pre@[i].1 ==> b.after_pre@[i].1 || a.tick_outcome(s, now, skip) == Some(
            TriggerResult::Triggered,
        ),
{
    let (l, t, h) = a.observed(s);
    assert(l[i] == (a.after_pre@[i].0, a.after_pre@[i].1 || holds(a.after_pre@[i].0, s)));
}

/// A rule that fired at `t` and has no windup in progress does not try to fire
/// on any tick up to `t + delay`, however long its conditions hold, and keeps
/// its time of firing.
pub proof fn lemma_refire_interval(a: Action, b: Action, s: GameState, now: u64, skip: bool, t: u64)
    requires
        a.last_trigger == Some(t),
        a.windup_start is None,
        now <= t + a.delay.0,
        a.ticked(&b, s, now, skip),
    ensures
        a.tick_outcome(s, now, skip) is None,
        b.last_trigger == Some(t),
        b.windup_start is None,
{
}

/// The toggle after a run of ticks, given whether the conditions were met on each.
pub open spec fn toggle_run(toggle: Option<bool>, held: bool, mets: Seq<bool>) -> (Option<bool>, bool)
    decreases mets.len(),
{
    if mets.len() == 0 {
        (toggle, held)
    } else {
        let (t, h) = toggle_run(toggle, held, mets.drop_last());
        toggle_step(t, h, mets.last())
    }
}

/// While the conditions of a toggle rule stay met, it flips at most once: not
/// at all if they were already met at its last flip, else on the first tick.
pub proof fn lemma_toggle_hysteresis(on: bool, held: bool, mets: Seq<bool>)
    requires
        forall|i: int| 0 <= i < mets.len() ==> #[trigger] mets[i],
    ensures
        toggle_run(Some(on), held, mets) == (if mets.len() == 0 {
            (Some(on), held)
        } else if held {
            (Some(on), true)
        } else {
            (Some(!on), true)
        }),
    decreases mets.len(),
{
    if mets.len() > 0 {
        lemma_toggle_hysteresis(on, held, mets.drop_last());
        assert(mets.last());
    }
}

/// A toggle rule flips again only after its conditions failed on some tick: once
/// flipped, it keeps its state until a tick where they are not met.
pub proof fn lemma_toggle_needs_release(on: bool, mets: Seq<bool>)
    ensures
        toggle_run(Some(on), true, mets).0 != Some(on) ==> exists|i: int| 0 <= i < mets.len() && !#[trigger] mets[i],
{
    if forall|i: int| 0 <= i < mets.len() ==> #[trigger] mets[i] {
        lemma_toggle_hysteresis(on, true, mets);
    }
}

} // verus!
