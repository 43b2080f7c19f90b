//! The rule language: one rule per line, read word by word.
//!
//! Keywords may come in any order: `on <condition>` (repeatable, all must
//! hold), `after <condition>` (a latch) or `after <duration>` (a windup),
//! `do <action>`, `toggle <action>`, `every <duration>` and `silent`.
use vstd::prelude::*;
use crate::action::{latch_conditions, Action, RuleModel, DEFAULT_ACTION_DELAY, DEFAULT_ACTION_WINDUP};
use crate::pre::PreCondition;
use crate::post::{PostCondition, PostModel};
use crate::text::{
    chars_of, has_prefix, is_word, lower_word, lowercase, push_all, split_words, starts_with,
    string_of, views, words,
};
use crate::types::{
    button_of, direction_of, duration_of, error_at, key_of, opened_of, value_of, Delay,
    Direction, ErrorKind, MouseButton, Opened, ParseError, Value, Vk,
};

verus! {

/// What the parser expects next.
#[derive(Clone, Copy, Debug, PartialEq, Eq, Structural)]
pub enum Mode {
    Keyword,
    PreKind,
    LifeValue,
    EsValue,
    ManaValue,
    KeyValue,
    DirectionValue,
    ChatValue,
    PostKind,
    PostValue,
    PostClick,
    PostRemaining,
    DelayValue,
    AfterValue,
}

/// A rule being read.
pub struct Draft {
    pub mode: Mode,
    /// The conditions read so far, each with whether it came after `after`.
    pub conds: Seq<(PreCondition, bool)>,
    /// Whether the next condition is a latch.
    pub latch_next: bool,
    pub post: Option<PostModel>,
    pub delay: u64,
    pub windup: u64,
    pub silent: bool,
    pub toggle: Option<bool>,
}

pub open spec fn initial_draft() -> Draft {
    Draft {
        mode: Mode::Keyword,
        conds: seq![],
        latch_next: false,
        post: None,
        delay: DEFAULT_ACTION_DELAY,
        windup: DEFAULT_ACTION_WINDUP,
        silent: false,
        toggle: None,
    }
}

pub open spec fn with_mode(d: Draft, m: Mode) -> Draft {
    Draft { mode: m, ..d }
}

pub open spec fn with_condition(d: Draft, c: PreCondition) -> Draft {
    Draft { mode: Mode::Keyword, conds: d.conds.push((c, d.latch_next)), latch_next: false, ..d }
}

pub open spec fn with_post(d: Draft, p: PostModel, m: Mode) -> Draft {
    Draft { mode: m, post: Some(p), ..d }
}

pub open spec fn is_key_word(w: Seq<char>) -> bool {
    w == "flask"@ || w == "key"@ || w == "skill"@
}

/// The text typed so far by a `type` action.
pub open spec fn typed(d: Draft) -> Seq<char> {
    match d.post {
        Some(PostModel::Type { text }) => text,
        _ => seq![],
    }
}

/// Reads one word.
pub open spec fn step(d: Draft, w: Seq<char>) -> Result<Draft, ErrorKind> {
    match d.mode {
        Mode::Keyword => if w == "on"@ {
            Ok(with_mode(d, Mode::PreKind))
        } else if w == "do"@ {
            Ok(with_mode(d, Mode::PostKind))
        } else if w == "toggle"@ {
            Ok(Draft { mode: Mode::PostKind, toggle: Some(false), ..d })
        } else if w == "every"@ {
            Ok(with_mode(d, Mode::DelayValue))
        } else if w == "after"@ {
            Ok(Draft { mode: Mode::AfterValue, latch_next: true, ..d })
        } else if w == "silent"@ {
            Ok(Draft { silent: true, ..d })
        } else {
            Err(ErrorKind::UnexpectedKeyword)
        },
        Mode::PreKind | Mode::AfterValue => if w == "life"@ {
            Ok(with_mode(d, Mode::LifeValue))
        } else if w == "es"@ {
            Ok(with_mode(d, Mode::EsValue))
        } else if w == "mana"@ {
            Ok(with_mode(d, Mode::ManaValue))
        } else if is_key_word(w) {
            Ok(with_mode(d, Mode::KeyValue))
        } else if w == "wheel"@ {
            Ok(with_mode(d, Mode::DirectionValue))
        } else if w == "town"@ {
            Ok(with_condition(d, PreCondition::InArea { town: true }))
        } else if w == "map"@ {
            Ok(with_condition(d, PreCondition::InArea { town: false }))
        } else if w == "transition"@ {
            Ok(with_condition(d, PreCondition::JustTransitioned))
        } else if w == "chat"@ {
            Ok(with_mode(d, Mode::ChatValue))
        } else if w == "focus"@ {
            Ok(with_condition(d, PreCondition::WindowFocus))
        } else if w == "blur"@ {
            Ok(with_condition(d, PreCondition::WindowBlur))
        } else if d.mode == Mode::AfterValue {
            match duration_of(w) {
                Ok(ms) => Ok(Draft { mode: Mode::Keyword, latch_next: false, windup: ms, ..d }),
                Err(k) => Err(k),
            }
        } else {
            Err(ErrorKind::UnknownCondition)
        },
        Mode::LifeValue => match value_of(w) {
            Ok(v) => Ok(with_condition(d, PreCondition::LifeBelow { threshold: v })),
            Err(k) => Err(k),
        },
        Mode::EsValue => match value_of(w) {
            Ok(v) => Ok(with_condition(d, PreCondition::EnergyBelow { threshold: v })),
            Err(k) => Err(k),
        },
        Mode::ManaValue => match value_of(w) {
            Ok(v) => Ok(with_condition(d, PreCondition::ManaBelow { threshold: v })),
            Err(k) => Err(k),
        },
        Mode::KeyValue => match key_of(w) {
            Ok(vk) => Ok(with_condition(d, PreCondition::KeyPress { vk })),
            Err(k) => Err(k),
        },
        Mode::DirectionValue => match direction_of(w) {
            Ok(dir) => Ok(with_condition(d, PreCondition::MouseWheel { dir })),
            Err(k) => Err(k),
        },
        Mode::ChatValue => match opened_of(w) {
            Ok(open) => Ok(with_condition(d, PreCondition::Chat { open })),
            Err(k) => Err(k),
        },
        Mode::PostKind => if w == "disconnect"@ {
            Ok(with_post(d, PostModel::Disconnect, Mode::Keyword))
        } else if is_key_word(w) {
            Ok(with_mode(d, Mode::PostValue))
        } else if w == "click"@ {
            Ok(with_mode(d, Mode::PostClick))
        } else if w == "type"@ {
            Ok(with_post(d, PostModel::Type { text: seq![] }, Mode::PostRemaining))
        } else if w == "price"@ {
            Ok(with_post(d, PostModel::ShowPrice, Mode::Keyword))
        } else if w == "invite"@ {
            Ok(with_post(d, PostModel::InviteLast, Mode::Keyword))
        } else if w == "destroy"@ {
            Ok(with_post(d, PostModel::Destroy, Mode::Keyword))
        } else if w == "downscale"@ {
            Ok(with_post(d, PostModel::Downscaling { enable: true }, Mode::Keyword))
        } else if w == "upscale"@ {
            Ok(with_post(d, PostModel::Downscaling { enable: false }, Mode::Keyword))
        } else if w == "disable"@ {
            Ok(with_post(d, PostModel::SetKeySuppression { suppress: true }, Mode::Keyword))
        } else if w == "enable"@ {
            Ok(with_post(d, PostModel::SetKeySuppression { suppress: false }, Mode::Keyword))
        } else {
            Err(ErrorKind::UnknownAction)
        },
        Mode::PostValue => match key_of(w) {
            Ok(vk) => Ok(with_post(d, PostModel::PressKey { vk }, Mode::Keyword)),
            Err(k) => Err(k),
        },
        Mode::PostClick => match button_of(w) {
            Ok(button) => Ok(with_post(d, PostModel::Click { button }, Mode::Keyword)),
            Err(k) => Err(k),
        },
        Mode::PostRemaining => {
            let text = typed(d);
            let next = if text.len() == 0 {
                w
            } else {
                text + " "@ + w
            };
            Ok(with_post(d, PostModel::Type { text: next }, Mode::PostRemaining))
        },
        Mode::DelayValue => match duration_of(w) {
            Ok(ms) => Ok(Draft { mode: Mode::Keyword, delay: ms, ..d }),
            Err(k) => Err(k),
        },
    }
}

/// Reads the words in order from `d`; an error names the word it stopped at.
pub open spec fn run_from(d: Draft, ws: Seq<Seq<char>>) -> Result<Draft, (ErrorKind, Seq<char>)>
    decreases ws.len(),
{
    if ws.len() == 0 {
        Ok(d)
    } else {
        match run_from(d, ws.drop_last()) {
            Ok(d2) => match step(d2, ws.last()) {
                Ok(d3) => Ok(d3),
                Err(k) => Err((k, ws.last())),
            },
            Err(e) => Err(e),
        }
    }
}

/// Reads the words of a line in order.
pub open spec fn run(ws: Seq<Seq<char>>) -> Result<Draft, (ErrorKind, Seq<char>)> {
    run_from(initial_draft(), ws)
}

/// Reading `xs + ys` is reading `xs`, then `ys` from where it left.
pub proof fn lemma_run_concat(d: Draft, xs: Seq<Seq<char>>, ys: Seq<Seq<char>>)
    ensures
        run_from(d, xs + ys) == match run_from(d, xs) {
            Ok(d2) => run_from(d2, ys),
            Err(e) => Err(e),
        },
    decreases ys.len(),
{
    if ys.len() == 0 {
        assert(xs + ys =~= xs);
    } else {
        lemma_run_concat(d, xs, ys.drop_last());
        assert((xs + ys).drop_last() =~= xs + ys.drop_last());
        assert((xs + ys).last() == ys.last());
        match run_from(d, xs) {
            Ok(d2) => {},
            Err(e) => {},
        }
    }
}

/// The conditions of `cs` whose latch flag is `latch`, in order.
pub open spec fn tagged(cs: Seq<(PreCondition, bool)>, latch: bool) -> Seq<PreCondition>
    decreases cs.len(),
{
    if cs.len() == 0 {
        seq![]
    } else if cs.last().1 == latch {
        tagged(cs.drop_last(), latch).push(cs.last().0)
    } else {
        tagged(cs.drop_last(), latch)
    }
}

/// The rule that a fully read line gives.
pub open spec fn finish(d: Draft) -> Result<RuleModel, ErrorKind> {
    if d.latch_next {
        Err(ErrorKind::UnfinishedAfter)
    } else if tagged(d.conds, false).len() == 0 {
        Err(ErrorKind::MissingCondition)
    } else {
        match d.post {
            None => Err(ErrorKind::MissingAction),
            Some(p) => Ok(
                RuleModel {
                    pre: tagged(d.conds, false),
                    after: tagged(d.conds, true),
                    post: p,
                    delay: d.delay,
                    windup: d.windup,
                    silent: d.silent,
                    toggle: d.toggle is Some,
                },
            ),
        }
    }
}

/// What a line of a rule file gives: `None` for a comment (`//`) or a line
/// without words, else the rule its words give once made lower case, or the
/// error with the word it is about (empty for the errors of the whole line).
pub open spec fn parse_line(line: Seq<char>) -> Result<Option<RuleModel>, (ErrorKind, Seq<char>)> {
    if has_prefix(line, "//"@) || words(line).len() == 0 {
        Ok(None)
    } else {
        match run(words(line).map_values(|w: Seq<char>| lower_word(w))) {
            Err(e) => Err(e),
            Ok(d) => match finish(d) {
                Ok(m) => Ok(Some(m)),
                Err(k) => Err((k, seq![])),
            },
        }
    }
}

/// A rule being read, as the executable parser holds it. The text of a `type`
/// action is kept apart until the line ends.
struct Parser {
    mode: Mode,
    conds: Vec<(PreCondition, bool)>,
    latch_next: bool,
    post: Option<PostCondition>,
    text: Vec<char>,
    delay: u64,
    windup: u64,
    silent: bool,
    toggle: Option<bool>,
}

impl Parser {
    spec fn draft(&self) -> Draft {
        Draft {
            mode: self.mode,
            conds: self.conds@,
            latch_next: self.latch_next,
            post: match self.post {
                Some(PostCondition::Type { .. }) => Some(PostModel::Type { text: self.text@ }),
                Some(p) => Some(p@),
                None => None,
            },
            delay: self.delay,
            windup: self.windup,
            silent: self.silent,
            toggle: self.toggle,
        }
    }

    fn push_condition(&mut self, c: PreCondition)
        ensures
            final(self).draft() == with_condition(old(self).draft(), c),
            final(self).post == old(self).post,
            final(self).text@ == old(self).text@,
    {
        self.conds.push((c, self.latch_next));
        self.latch_next = false;
        self.mode = Mode::Keyword;
    }

    fn set_post(&mut self, p: PostCondition, m: Mode)
        requires
            !(p is Type),
        ensures
            final(self).draft() == with_post(old(self).draft(), p@, m),
    {
        self.post = Some(p);
        self.mode = m;
    }

    fn read_keyword(&mut self, w: &Vec<char>) -> (r: Result<(), ParseError>)
        requires
            old(self).mode == Mode::Keyword,
        ensures
            match r {
                Ok(()) => step(old(self).draft(), w@) == Ok::<Draft, ErrorKind>(final(self).draft()),
                Err(e) => step(old(self).draft(), w@) == Err::<Draft, ErrorKind>(e.kind) && e.word@
                    == w@,
            },
    {
        let ghost d = self.draft();
        if is_word(w, "on") {
            self.mode = Mode::PreKind;
        } else if is_word(w, "do") {
            self.mode = Mode::PostKind;
        } else if is_word(w, "toggle") {
            self.toggle = Some(false);
            self.mode = Mode::PostKind;
        } else if is_word(w, "every") {
            self.mode = Mode::DelayValue;
        } else if is_word(w, "after") {
            self.latch_next = true;
            self.mode = Mode::AfterValue;
        } else if is_word(w, "silent") {
            self.silent = true;
        } else {
            return Err(error_at(ErrorKind::UnexpectedKeyword, w));
        }
        Ok(())
    }

    fn read_condition_kind(&mut self, w: &Vec<char>) -> (r: Result<(), ParseError>)
        requires
            old(self).mode == Mode::PreKind || old(self).mode == Mode::AfterValue,
        ensures
            match r {
                Ok(()) => step(old(self).draft(), w@) == Ok::<Draft, ErrorKind>(final(self).draft()),
                Err(e) => step(old(self).draft(), w@) == Err::<Draft, ErrorKind>(e.kind) && e.word@
                    == w@,
            },
    {
        let ghost d = self.draft();
        if is_word(w, "life") {
            self.mode = Mode::LifeValue;
        } else if is_word(w, "es") {
            self.mode = Mode::EsValue;
        } else if is_word(w, "mana") {
            self.mode = Mode::ManaValue;
        } else if is_word(w, "flask") || is_word(w, "key") || is_word(w, "skill") {
            self.mode = Mode::KeyValue;
        } else if is_word(w, "wheel") {
            self.mode = Mode::DirectionValue;
        } else if is_word(w, "town") {
            self.push_condition(PreCondition::InArea { town: true });
        } else if is_word(w, "map") {
            self.push_condition(PreCondition::InArea { town: false });
        } else if is_word(w, "transition") {
            self.push_condition(PreCondition::JustTransitioned);
        } else if is_word(w, "chat") {
            self.mode = Mode::ChatValue;
        } else if is_word(w, "focus") {
            self.push_condition(PreCondition::WindowFocus);
        } else if is_word(w, "blur") {
            self.push_condition(PreCondition::WindowBlur);
        } else if self.mode == Mode::AfterValue {
            let ms = Delay::from_word(w)?;
            self.windup = ms.0;
            self.latch_next = false;
            self.mode = Mode::Keyword;
        } else {
            return Err(error_at(ErrorKind::UnknownCondition, w));
        }
        Ok(())
    }

    fn read_post_kind(&mut self, w: &Vec<char>) -> (r: Result<(), ParseError>)
        requires
            old(self).mode == Mode::PostKind,
        ensures
            match r {
                Ok(()) => step(old(self).draft(), w@) == Ok::<Draft, ErrorKind>(final(self).draft()),
                Err(e) => step(old(self).draft(), w@) == Err::<Draft, ErrorKind>(e.kind) && e.word@
                    == w@,
            },
    {
        let ghost d = self.draft();
        if is_word(w, "disconnect") {
            self.set_post(PostCondition::Disconnect, Mode::Keyword);
        } else if is_word(w, "flask") || is_word(w, "key") || is_word(w, "skill") {
            self.mode = Mode::PostValue;
        } else if is_word(w, "click") {
            self.mode = Mode::PostClick;
        } else if is_word(w, "type") {
            self.post = Some(PostCondition::Type { string: String::new() });
            self.text = Vec::new();
            self.mode = Mode::PostRemaining;
        } else if is_word(w, "price") {
            self.set_post(PostCondition::ShowPrice, Mode::Keyword);
        } else if is_word(w, "invite") {
            self.set_post(PostCondition::InviteLast, Mode::Keyword);
        } else if is_word(w, "destroy") {
            self.set_post(PostCondition::Destroy, Mode::Keyword);
        } else if is_word(w, "downscale") {
            self.set_post(PostCondition::Downscaling { enable: true }, Mode::Keyword);
        } else if is_word(w, "upscale") {
            self.set_post(PostCondition::Downscaling { enable: false }, Mode::Keyword);
        } else if is_word(w, "disable") {
            self.set_post(PostCondition::SetKeySuppression { suppress: true }, Mode::Keyword);
        } else if is_word(w, "enable") {
            self.set_post(
                PostCondition::SetKeySuppression { suppress: false },
                Mode::Keyword,
            );
        } else {
            return Err(error_at(ErrorKind::UnknownAction, w));
        }
        Ok(())
    }

    fn read_typed(&mut self, w: &Vec<char>) -> (r: Result<(), ParseError>)
        requires
            old(self).mode == Mode::PostRemaining,
        ensures
            match r {
                Ok(()) => step(old(self).draft(), w@) == Ok::<Draft, ErrorKind>(final(self).draft()),
                Err(e) => step(old(self).draft(), w@) == Err::<Draft, ErrorKind>(e.kind) && e.word@
                    == w@,
            },
    {
        let ghost d = self.draft();
        if !(self.post matches Some(PostCondition::Type { .. })) {
            self.post = Some(PostCondition::Type { string: String::new() });
            self.text = Vec::new();
        }
        if self.text.len() > 0 {
            self.text.push(' ');
        }
        push_all(&mut self.text, w);
        proof {
            reveal_strlit(" ");
        }
        let ghost next = if typed(d).len() == 0 {
            w@
        } else {
            typed(d) + " "@ + w@
        };
        assert(self.text@ =~= next);
        Ok(())
    }

    fn read_value(&mut self, w: &Vec<char>) -> (r: Result<(), ParseError>)
        requires
            old(self).mode != Mode::Keyword && old(self).mode != Mode::PreKind && old(self).mode
                != Mode::AfterValue && old(self).mode != Mode::PostKind && old(self).mode
                != Mode::PostRemaining,
        ensures
            match r {
                Ok(()) => step(old(self).draft(), w@) == Ok::<Draft, ErrorKind>(final(self).draft()),
                Err(e) => step(old(self).draft(), w@) == Err::<Draft, ErrorKind>(e.kind) && e.word@
                    == w@,
            },
    {
        match self.mode {
            Mode::LifeValue => {
                let threshold = Value::from_word(w)?;
                self.push_condition(PreCondition::LifeBelow { threshold });
            },
            Mode::EsValue => {
                let threshold = Value::from_word(w)?;
                self.push_condition(PreCondition::EnergyBelow { threshold });
            },
            Mode::ManaValue => {
                let threshold = Value::from_word(w)?;
                self.push_condition(PreCondition::ManaBelow { threshold });
            },
            Mode::KeyValue => {
                let vk = Vk::from_word(w)?;
                self.push_condition(PreCondition::KeyPress { vk });
            },
            Mode::DirectionValue => {
                let dir = Direction::from_word(w)?;
                self.push_condition(PreCondition::MouseWheel { dir });
            },
            Mode::ChatValue => {
                let open = Opened::from_word(w)?;
                self.push_condition(PreCondition::Chat { open });
            },
            Mode::PostValue => {
                let vk = Vk::from_word(w)?;
                self.set_post(PostCondition::PressKey { vk }, Mode::Keyword);
            },
            Mode::PostClick => {
                let button = MouseButton::from_word(w)?;
                self.set_post(PostCondition::Click { button }, Mode::Keyword);
            },
            Mode::DelayValue => {
                let ms = Delay::from_word(w)?;
                self.delay = ms.0;
                self.mode = Mode::Keyword;
            },
            _ => {
                return Err(error_at(ErrorKind::UnexpectedKeyword, w));
            },
        }
        Ok(())
    }

    /// Reads one word.
    fn read(&mut self, w: &Vec<char>) -> (r: Result<(), ParseError>)
        ensures
            match r {
                Ok(()) => step(old(self).draft(), w@) == Ok::<Draft, ErrorKind>(final(self).draft()),
                Err(e) => step(old(self).draft(), w@) == Err::<Draft, ErrorKind>(e.kind) && e.word@
                    == w@,
            },
    {
        match self.mode {
            Mode::Keyword => self.read_keyword(w),
            Mode::PreKind | Mode::AfterValue => self.read_condition_kind(w),
            Mode::PostKind => self.read_post_kind(w),
            Mode::PostRemaining => self.read_typed(w),
            _ => self.read_value(w),
        }
    }
}

/// Once reading stops at an error, more words give the same error.
proof fn lemma_run_error_stays(ws: Seq<Seq<char>>, n: int)
    requires
        0 <= n <= ws.len(),
        run(ws.subrange(0, n)) is Err,
    ensures
        run(ws) == run(ws.subrange(0, n)),
    decreases ws.len() - n,
{
    if n < ws.len() {
        assert(ws.subrange(0, n + 1).drop_last() =~= ws.subrange(0, n));
        lemma_run_error_stays(ws, n + 1);
    } else {
        assert(ws.subrange(0, n) =~= ws);
    }
}

impl Action {
    /// Reads one line of a rule file: `Ok(None)` for a comment or a line
    /// without words, the rule it describes, or the reason it describes none.
    pub fn from_line(line: &str) -> (r: Result<Option<Action>, ParseError>)
        ensures
            match r {
                Ok(Some(a)) => parse_line(line@) == Ok::<Option<RuleModel>, (ErrorKind, Seq<char>)>(
                    Some(a.model()),
                ) && a.is_fresh() && a.source@ == line@,
                Ok(None) => parse_line(line@) == Ok::<Option<RuleModel>, (ErrorKind, Seq<char>)>(
                    None,
                ),
                Err(e) => parse_line(line@) == Err::<Option<RuleModel>, (ErrorKind, Seq<char>)>(
                    (e.kind, e.word@),
                ),
            },
    {
        let chars = chars_of(line);
        if starts_with(&chars, "//") {
            return Ok(None);
        }
        let ws = split_words(&chars);
        if ws.len() == 0 {
            return Ok(None);
        }
        let ghost lowered = words(line@).map_values(|w: Seq<char>| lower_word(w));
        let mut p = Parser {
            mode: Mode::Keyword,
            conds: Vec::new(),
            latch_next: false,
            post: None,
            text: Vec::new(),
            delay: DEFAULT_ACTION_DELAY,
            windup: DEFAULT_ACTION_WINDUP,
            silent: false,
            toggle: None,
        };
        let mut i: usize = 0;
        assert(lowered.subrange(0, 0) =~= Seq::<Seq<char>>::empty());
        while i < ws.len()
            invariant
                i <= ws.len() == lowered.len(),
                views(ws@) == words(line@),
                lowered == words(line@).map_values(|w: Seq<char>| lower_word(w)),
                run(lowered.subrange(0, i as int)) == Ok::<Draft, (ErrorKind, Seq<char>)>(p.draft()),
                !has_prefix(line@, "//"@),
            decreases ws.len() - i,
        {
            let lw = lowercase(&ws[i]);
            assert(views(ws@)[i as int] == ws@[i as int]@);
            assert(lw@ == lowered[i as int]);
            assert(lowered.subrange(0, i + 1).drop_last() =~= lowered.subrange(0, i as int));
            assert(lowered.subrange(0, i + 1).last() == lw@);
            match p.read(&lw) {
                Ok(()) => {},
                Err(e) => {
                    proof {
                        lemma_run_error_stays(lowered, i + 1);
                    }
                    return Err(e);
                },
            }
            i = i + 1;
        }
        assert(lowered.subrange(0, i as int) =~= lowered);
        let ghost d = p.draft();
        if p.latch_next {
            return Err(ParseError { kind: ErrorKind::UnfinishedAfter, word: String::new() });
        }
        let mut pre: Vec<PreCondition> = Vec::new();
        let mut after_pre: Vec<(PreCondition, bool)> = Vec::new();
        let mut k: usize = 0;
        while k < p.conds.len()
            invariant
                k <= p.conds.len(),
                p.draft() == d,
                pre@ == tagged(p.conds@.subrange(0, k as int), false),
                latch_conditions(after_pre@) == tagged(p.conds@.subrange(0, k as int), true),
                forall|j: int| 0 <= j < after_pre@.len() ==> !(#[trigger] after_pre@[j]).1,
            decreases p.conds.len() - k,
        {
            let (c, latch) = p.conds[k];
            assert(p.conds@.subrange(0, k + 1).drop_last() =~= p.conds@.subrange(0, k as int));
            if latch {
                after_pre.push((c, false));
            } else {
                pre.push(c);
            }
            k = k + 1;
            assert(latch_conditions(after_pre@) =~= tagged(p.conds@.subrange(0, k as int), true));
        }
        assert(p.conds@.subrange(0, k as int) =~= p.conds@);
        if pre.len() == 0 {
            return Err(ParseError { kind: ErrorKind::MissingCondition, word: String::new() });
        }
        let post = match p.post {
            None => {
                return Err(ParseError { kind: ErrorKind::MissingAction, word: String::new() });
            },
            Some(PostCondition::Type { .. }) => PostCondition::Type { string: string_of(&p.text) },
            Some(other) => other,
        };
        Ok(
            Some(
                Action {
                    pre,
                    after_pre,
                    post,
                    last_trigger: None,
                    delay: Delay(p.delay),
                    windup_start: None,
                    windup_time: Delay(p.windup),
                    silent: p.silent,
                    toggle: if p.toggle.is_some() {
                        Some(false)
                    } else {
                        None
                    },
                    toggle_pre_held: false,
                    source: String::from_str(line),
                },
            ),
        )
    }
}

} // verus!
