//! Writing a rule back and reading it again gives the same rule.
use vstd::prelude::*;
use crate::text::{
    all_digits, dec_str, digit_char, digit_value, digits_value, hex2_str, hex_str, is_space,
    is_token, lower, lower_word, signed_of, unsigned_of,
};
use crate::types::{
    button_text, direction_of, direction_text, duration_of, duration_text, key_of, key_text,
    opened_of, opened_text, trim_percent, value_of, value_text, button_of, Direction, ErrorKind,
    MouseButton, Opened, Value, Vk,
};
use crate::pre::PreCondition;
use crate::parse::{
    finish, initial_draft, lemma_run_concat, run, run_from, step, tagged, typed, with_condition,
    with_mode, with_post, Draft, Mode,
};
use crate::post::{action_text, PostModel};
use crate::action::{RuleModel, DEFAULT_ACTION_DELAY, DEFAULT_ACTION_WINDUP};
use crate::text::{
    join, lemma_words_append, lemma_words_token, lemma_words_token_space,
    lemma_words_trailing_space, scan, words, has_prefix,
};
use crate::parse::parse_line;
use crate::pre::condition_text;
use crate::action::{clauses, rule_text};

verus! {

/// Whether `w` has no capital ASCII letter.
pub open spec fn no_capital(w: Seq<char>) -> bool {
    forall|i: int| 0 <= i < w.len() ==> !('A' <= #[trigger] w[i] && w[i] <= 'Z')
}

pub proof fn lemma_lower_plain(w: Seq<char>)
    requires
        no_capital(w),
    ensures
        lower_word(w) == w,
{
    assert(lower_word(w) =~= w);
}

/// Whether every character of `w` is an ASCII decimal digit.
pub open spec fn is_decimal(w: Seq<char>) -> bool {
    forall|i: int| 0 <= i < w.len() ==> '0' <= #[trigger] w[i] && w[i] <= '9'
}

proof fn lemma_dec_str(n: nat)
    ensures
        dec_str(n).len() > 0,
        is_decimal(dec_str(n)),
        all_digits(dec_str(n), 10),
        digits_value(dec_str(n), 10) == n,
    decreases n,
{
    if n >= 10 {
        lemma_dec_str(n / 10);
        let s = dec_str(n);
        assert(s.drop_last() =~= dec_str(n / 10));
        assert(digit_value(s.last(), 10) == Some(n % 10));
        assert(n == (n / 10) * 10 + n % 10);
        assert forall|i: int| 0 <= i < s.len() implies digit_value(#[trigger] s[i], 10).is_some() by {
            if i < s.len() - 1 {
                assert(s[i] == dec_str(n / 10)[i]);
            }
        }
    } else {
        assert(digit_value(digit_char(n), 10) == Some(n));
        assert(dec_str(n).drop_last() =~= Seq::<char>::empty());
        assert(digits_value(Seq::<char>::empty(), 10) == 0);
    }
}

/// A decimal number reads back as itself.
pub proof fn lemma_dec_round_trip(n: nat)
    ensures
        unsigned_of(dec_str(n), 10) == Some(n),
        signed_of(dec_str(n)) == Some(n as int),
        is_token(dec_str(n)),
        no_capital(dec_str(n)),
        dec_str(n)[0] != '+' && dec_str(n)[0] != '-',
        '0' <= dec_str(n)[0] && dec_str(n)[0] <= '9',
        dec_str(n).last() != '%',
{
    lemma_dec_str(n);
    let s = dec_str(n);
    assert('0' <= s[0] && s[0] <= '9');
    assert('0' <= s.last() && s.last() <= '9');
    assert forall|i: int| 0 <= i < s.len() implies !is_space(#[trigger] s[i]) by {
        assert('0' <= s[i] && s[i] <= '9');
    }
    assert forall|i: int| 0 <= i < s.len() implies !('A' <= #[trigger] s[i] && s[i] <= 'Z') by {
        assert('0' <= s[i] && s[i] <= '9');
    }
}

proof fn lemma_hex_str(n: nat)
    ensures
        hex_str(n).len() > 0,
        all_digits(lower_word(hex_str(n)), 16),
        digits_value(lower_word(hex_str(n)), 16) == n,
        is_token(hex_str(n)),
        hex_str(n)[0] != '+',
    decreases n,
{
    let s = hex_str(n);
    let l = lower_word(s);
    if n >= 16 {
        lemma_hex_str(n / 16);
        assert(s.drop_last() =~= hex_str(n / 16));
        assert(l.drop_last() =~= lower_word(hex_str(n / 16)));
        assert(digit_value(lower(digit_char(n % 16)), 16) == Some(n % 16));
        assert(n == (n / 16) * 16 + n % 16);
        assert forall|i: int| 0 <= i < l.len() implies digit_value(#[trigger] l[i], 16).is_some() by {
            if i < l.len() - 1 {
                assert(l[i] == lower_word(hex_str(n / 16))[i]);
            }
        }
        assert forall|i: int| 0 <= i < s.len() implies !is_space(#[trigger] s[i]) by {
            if i < s.len() - 1 {
                assert(s[i] == hex_str(n / 16)[i]);
            }
        }
    } else {
        assert(digit_value(lower(digit_char(n)), 16) == Some(n));
        assert(l.drop_last() =~= Seq::<char>::empty());
        assert(digits_value(Seq::<char>::empty(), 16) == 0);
    }
}

/// A key as written back reads, once made lower case, as itself.
pub proof fn lemma_key_round_trip(k: Vk)
    ensures
        key_of(lower_word(key_text(k))) == Ok::<Vk, crate::types::ErrorKind>(k),
        is_token(key_text(k)),
{
    reveal_strlit("0x");
    let h = hex2_str(k.0 as nat);
    let t = key_text(k);
    let l = lower_word(t);
    lemma_hex_str(k.0 as nat);
    let lh = lower_word(h);
    assert(l =~= "0x"@ + lh);
    assert(l.subrange(0, 2) =~= "0x"@);
    assert(l.subrange(2, l.len() as int) =~= lh);
    if k.0 < 16 {
        assert(digit_value(lower(digit_char(k.0 as nat)), 16) == Some(k.0 as nat));
        assert(lh.drop_last() =~= seq!['0']);
        assert(seq!['0'].drop_last() =~= Seq::<char>::empty());
        assert(digits_value(Seq::<char>::empty(), 16) == 0);
        assert(digits_value(seq!['0'], 16) == 0);
        assert(all_digits(lh, 16)) by {
            assert forall|i: int| 0 <= i < lh.len() implies digit_value(#[trigger] lh[i], 16).is_some() by {
                if i == 0 {
                    assert(lh[0] == '0');
                }
            }
        }
        assert forall|i: int| 0 <= i < t.len() implies !is_space(#[trigger] t[i]) by {
            assert(t =~= seq!['0', 'x', '0', digit_char(k.0 as nat)]);
        }
    } else {
        assert(lh =~= lower_word(hex_str(k.0 as nat)));
        assert forall|i: int| 0 <= i < t.len() implies !is_space(#[trigger] t[i]) by {
            if i >= 2 {
                assert(t[i] == hex_str(k.0 as nat)[i - 2]);
            }
        }
    }
}

/// A threshold that reading can give: a percentage up to one hundred, or a
/// flat amount that is not negative.
pub open spec fn value_ok(v: Value) -> bool {
    match v {
        Value::Percent(p) => p <= 100,
        Value::Flat(f) => f >= 0,
    }
}

/// A threshold as written back reads as itself.
pub proof fn lemma_value_round_trip(v: Value)
    requires
        value_ok(v),
    ensures
        value_of(value_text(v)) == Ok::<Value, crate::types::ErrorKind>(v),
        is_token(value_text(v)),
        no_capital(value_text(v)),
        '0' <= value_text(v)[0] && value_text(v)[0] <= '9',
{
    match v {
        Value::Percent(p) => {
            lemma_dec_round_trip(p as nat);
            let d = dec_str(p as nat);
            let t = d.push('%');
            assert(t.drop_last() =~= d);
            assert(trim_percent(t) == trim_percent(d));
            assert(t[0] == d[0]);
            assert forall|i: int| 0 <= i < t.len() implies !is_space(#[trigger] t[i]) && !('A' <= t[i] && t[i] <= 'Z') by {
                if i < d.len() {
                    assert(t[i] == d[i]);
                }
            }
        },
        Value::Flat(f) => {
            lemma_dec_round_trip(f as nat);
        },
    }
}

/// A duration as written back reads as itself.
pub proof fn lemma_duration_round_trip(ms: u64)
    ensures
        duration_of(duration_text(ms)) == Ok::<u64, crate::types::ErrorKind>(ms),
        is_token(duration_text(ms)),
        no_capital(duration_text(ms)),
        '0' <= duration_text(ms)[0] && duration_text(ms)[0] <= '9',
{
    reveal_strlit("ms");
    lemma_dec_round_trip(ms as nat);
    let d = dec_str(ms as nat);
    let t = duration_text(ms);
    assert(t =~= d + seq!['m', 's']);
    assert(t.subrange(t.len() - 2, t.len() as int) =~= "ms"@);
    assert(t.subrange(0, t.len() - 2) =~= d);
    assert(t[0] == d[0]);
    assert forall|i: int| 0 <= i < t.len() implies !is_space(#[trigger] t[i]) && !('A' <= t[i] && t[i] <= 'Z') by {
        if i < d.len() {
            assert(t[i] == d[i]);
        }
    }
}

pub open spec fn lower_all(ws: Seq<Seq<char>>) -> Seq<Seq<char>> {
    ws.map_values(|w: Seq<char>| lower_word(w))
}

pub proof fn lemma_lower_all_concat(xs: Seq<Seq<char>>, ys: Seq<Seq<char>>)
    ensures
        lower_all(xs + ys) == lower_all(xs) + lower_all(ys),
{
    assert(lower_all(xs + ys) =~= lower_all(xs) + lower_all(ys));
}

/// A condition as the words it is written with.
pub open spec fn cond_words(c: PreCondition) -> Seq<Seq<char>> {
    match c {
        PreCondition::LifeBelow { threshold } => seq!["life"@, value_text(threshold)],
        PreCondition::EnergyBelow { threshold } => seq!["es"@, value_text(threshold)],
        PreCondition::ManaBelow { threshold } => seq!["mana"@, value_text(threshold)],
        PreCondition::KeyPress { vk } => seq!["key"@, key_text(vk)],
        PreCondition::MouseWheel { dir } => seq!["wheel"@, direction_text(dir)],
        PreCondition::InArea { town } => if town {
            seq!["town"@]
        } else {
            seq!["map"@]
        },
        PreCondition::JustTransitioned => seq!["transition"@],
        PreCondition::Chat { open } => seq!["chat"@, opened_text(open)],
        PreCondition::WindowFocus => seq!["focus"@],
        PreCondition::WindowBlur => seq!["blur"@],
    }
}

/// A condition that reading can give.
pub open spec fn cond_ok(c: PreCondition) -> bool {
    match c {
        PreCondition::LifeBelow { threshold } => value_ok(threshold),
        PreCondition::EnergyBelow { threshold } => value_ok(threshold),
        PreCondition::ManaBelow { threshold } => value_ok(threshold),
        _ => true,
    }
}

proof fn lemma_plain_literals()
    ensures
        lower_word("life"@) == "life"@,
        lower_word("es"@) == "es"@,
        lower_word("mana"@) == "mana"@,
        lower_word("key"@) == "key"@,
        lower_word("wheel"@) == "wheel"@,
        lower_word("town"@) == "town"@,
        lower_word("map"@) == "map"@,
        lower_word("transition"@) == "transition"@,
        lower_word("chat"@) == "chat"@,
        lower_word("focus"@) == "focus"@,
        lower_word("blur"@) == "blur"@,
        lower_word("up"@) == "up"@,
        lower_word("down"@) == "down"@,
        lower_word("opened"@) == "opened"@,
        lower_word("closed"@) == "closed"@,
{
    reveal_strlit("life");
    reveal_strlit("es");
    reveal_strlit("mana");
    reveal_strlit("key");
    reveal_strlit("wheel");
    reveal_strlit("town");
    reveal_strlit("map");
    reveal_strlit("transition");
    reveal_strlit("chat");
    reveal_strlit("focus");
    reveal_strlit("blur");
    reveal_strlit("up");
    reveal_strlit("down");
    reveal_strlit("opened");
    reveal_strlit("closed");
    assert(lower_word("life"@) =~= "life"@);
    assert(lower_word("es"@) =~= "es"@);
    assert(lower_word("mana"@) =~= "mana"@);
    assert(lower_word("key"@) =~= "key"@);
    assert(lower_word("wheel"@) =~= "wheel"@);
    assert(lower_word("town"@) =~= "town"@);
    assert(lower_word("map"@) =~= "map"@);
    assert(lower_word("transition"@) =~= "transition"@);
    assert(lower_word("chat"@) =~= "chat"@);
    assert(lower_word("focus"@) =~= "focus"@);
    assert(lower_word("blur"@) =~= "blur"@);
    assert(lower_word("up"@) =~= "up"@);
    assert(lower_word("down"@) =~= "down"@);
    assert(lower_word("opened"@) =~= "opened"@);
    assert(lower_word("closed"@) =~= "closed"@);
}

/// Reading one word.
pub proof fn lemma_run_one(d: Draft, a: Seq<char>)
    ensures
        run_from(d, seq![a]) == match step(d, a) {
            Ok(d1) => Ok::<Draft, (ErrorKind, Seq<char>)>(d1),
            Err(k) => Err((k, a)),
        },
{
    assert(seq![a].drop_last() =~= Seq::<Seq<char>>::empty());
    assert(seq![a].last() == a);
    assert(run_from(d, Seq::<Seq<char>>::empty()) == Ok::<Draft, (ErrorKind, Seq<char>)>(d));
}

/// Reading two words.
pub proof fn lemma_run_two(d: Draft, a: Seq<char>, b: Seq<char>)
    ensures
        run_from(d, seq![a, b]) == match step(d, a) {
            Ok(d1) => match step(d1, b) {
                Ok(d2) => Ok::<Draft, (ErrorKind, Seq<char>)>(d2),
                Err(k) => Err((k, b)),
            },
            Err(k) => Err((k, a)),
        },
{
    assert(seq![a, b].drop_last() =~= seq![a]);
    lemma_run_one(d, a);
}

#[verifier::rlimit(100)]
proof fn lemma_cond_threshold(d: Draft, c: PreCondition)
    requires
        d.mode == Mode::PreKind || d.mode == Mode::AfterValue,
        cond_ok(c),
        c is LifeBelow || c is EnergyBelow || c is ManaBelow,
    ensures
        run_from(d, lower_all(cond_words(c))) == Ok::<Draft, (ErrorKind, Seq<char>)>(with_condition(d, c)),
{
    lemma_plain_literals();
    reveal_strlit("life");
    reveal_strlit("es");
    reveal_strlit("mana");
    reveal_strlit("flask");
    reveal_strlit("key");
    reveal_strlit("skill");
    reveal_strlit("wheel");
    reveal_strlit("town");
    reveal_strlit("map");
    reveal_strlit("transition");
    reveal_strlit("chat");
    reveal_strlit("focus");
    reveal_strlit("blur");
    let ws = lower_all(cond_words(c));
    match c {
        PreCondition::LifeBelow { threshold } => {
            lemma_value_round_trip(threshold);
            lemma_lower_plain(value_text(threshold));
            assert(ws =~= seq!["life"@, value_text(threshold)]);
            lemma_run_two(d, "life"@, value_text(threshold));
        },
        PreCondition::EnergyBelow { threshold } => {
            lemma_value_round_trip(threshold);
            lemma_lower_plain(value_text(threshold));
            assert(ws =~= seq!["es"@, value_text(threshold)]);
            lemma_run_two(d, "es"@, value_text(threshold));
        },
        PreCondition::ManaBelow { threshold } => {
            lemma_value_round_trip(threshold);
            lemma_lower_plain(value_text(threshold));
            assert(ws =~= seq!["mana"@, value_text(threshold)]);
            lemma_run_two(d, "mana"@, value_text(threshold));
        },
        _ => {},
    }

}

#[verifier::rlimit(100)]
proof fn lemma_cond_key(d: Draft, c: PreCondition)
    requires
        d.mode == Mode::PreKind || d.mode == Mode::AfterValue,
        cond_ok(c),
        c is KeyPress,
    ensures
        run_from(d, lower_all(cond_words(c))) == Ok::<Draft, (ErrorKind, Seq<char>)>(with_condition(d, c)),
{
    lemma_plain_literals();
    reveal_strlit("life");
    reveal_strlit("es");
    reveal_strlit("mana");
    reveal_strlit("flask");
    reveal_strlit("key");
    reveal_strlit("skill");
    reveal_strlit("wheel");
    reveal_strlit("town");
    reveal_strlit("map");
    reveal_strlit("transition");
    reveal_strlit("chat");
    reveal_strlit("focus");
    reveal_strlit("blur");
    let ws = lower_all(cond_words(c));
    if let PreCondition::KeyPress { vk } = c {
        lemma_key_round_trip(vk);
        assert(ws =~= seq!["key"@, lower_word(key_text(vk))]);
        lemma_run_two(d, "key"@, lower_word(key_text(vk)));
    }

}

#[verifier::rlimit(40)]
proof fn lemma_cond_wheel(d: Draft, c: PreCondition)
    requires
        d.mode == Mode::PreKind || d.mode == Mode::AfterValue,
        cond_ok(c),
        c is MouseWheel,
    ensures
        run_from(d, lower_all(cond_words(c))) == Ok::<Draft, (ErrorKind, Seq<char>)>(with_condition(d, c)),
{
    lemma_plain_literals();
    reveal_strlit("life");
    reveal_strlit("es");
    reveal_strlit("mana");
    reveal_strlit("flask");
    reveal_strlit("key");
    reveal_strlit("skill");
    reveal_strlit("wheel");
    reveal_strlit("town");
    reveal_strlit("map");
    reveal_strlit("transition");
    reveal_strlit("chat");
    reveal_strlit("focus");
    reveal_strlit("blur");
    reveal_strlit("up");
    reveal_strlit("down");
    let ws = lower_all(cond_words(c));
    if let PreCondition::MouseWheel { dir } = c {
        assert(ws =~= seq!["wheel"@, direction_text(dir)]);
        lemma_lower_plain(direction_text(dir));
        lemma_run_two(d, "wheel"@, direction_text(dir));
        assert(direction_of(direction_text(dir)) == Ok::<Direction, ErrorKind>(dir));
    }

}

#[verifier::rlimit(40)]
proof fn lemma_cond_chat(d: Draft, c: PreCondition)
    requires
        d.mode == Mode::PreKind || d.mode == Mode::AfterValue,
        cond_ok(c),
        c is Chat,
    ensures
        run_from(d, lower_all(cond_words(c))) == Ok::<Draft, (ErrorKind, Seq<char>)>(with_condition(d, c)),
{
    lemma_plain_literals();
    reveal_strlit("life");
    reveal_strlit("es");
    reveal_strlit("mana");
    reveal_strlit("flask");
    reveal_strlit("key");
    reveal_strlit("skill");
    reveal_strlit("wheel");
    reveal_strlit("town");
    reveal_strlit("map");
    reveal_strlit("transition");
    reveal_strlit("chat");
    reveal_strlit("focus");
    reveal_strlit("blur");
    reveal_strlit("open");
    reveal_strlit("opened");
    reveal_strlit("close");
    reveal_strlit("closed");
    let ws = lower_all(cond_words(c));
    if let PreCondition::Chat { open } = c {
        assert(ws =~= seq!["chat"@, opened_text(open)]);
        lemma_run_two(d, "chat"@, opened_text(open));
        assert(opened_of(opened_text(open)) == Ok::<Opened, ErrorKind>(open));
    }

}

#[verifier::rlimit(40)]
proof fn lemma_cond_single(d: Draft, c: PreCondition)
    requires
        d.mode == Mode::PreKind || d.mode == Mode::AfterValue,
        cond_ok(c),
        c is InArea || c is JustTransitioned || c is WindowFocus || c is WindowBlur,
    ensures
        run_from(d, lower_all(cond_words(c))) == Ok::<Draft, (ErrorKind, Seq<char>)>(with_condition(d, c)),
{
    lemma_plain_literals();
    reveal_strlit("life");
    reveal_strlit("es");
    reveal_strlit("mana");
    reveal_strlit("flask");
    reveal_strlit("key");
    reveal_strlit("skill");
    reveal_strlit("wheel");
    reveal_strlit("town");
    reveal_strlit("map");
    reveal_strlit("transition");
    reveal_strlit("chat");
    reveal_strlit("focus");
    reveal_strlit("blur");
    let ws = lower_all(cond_words(c));
    assert(ws.drop_last() =~= Seq::<Seq<char>>::empty());
    match c {
        PreCondition::InArea { town } => {
            if town {
                assert(ws =~= seq!["town"@]);
            } else {
                assert(ws =~= seq!["map"@]);
            }
        },
        PreCondition::JustTransitioned => {
            assert(ws =~= seq!["transition"@]);
            assert(ws.last() == "transition"@);
            assert(run_from(d, ws.drop_last()) == Ok::<Draft, (ErrorKind, Seq<char>)>(d));
            assert("transition"@ != "life"@);
            assert(step(d, "transition"@) == Ok::<Draft, ErrorKind>(with_condition(d, c)));
        },
        PreCondition::WindowFocus => {
            assert(ws =~= seq!["focus"@]);
        },
        PreCondition::WindowBlur => {
            assert(ws =~= seq!["blur"@]);
        },
        _ => {},
    }
}

/// The condition words, read where a condition is due, add that condition.
pub proof fn lemma_cond_chunk(d: Draft, c: PreCondition)
    requires
        d.mode == Mode::PreKind || d.mode == Mode::AfterValue,
        cond_ok(c),
    ensures
        run_from(d, lower_all(cond_words(c))) == Ok::<Draft, (ErrorKind, Seq<char>)>(with_condition(d, c)),
{
    match c {
        PreCondition::LifeBelow { .. } | PreCondition::EnergyBelow { .. } | PreCondition::ManaBelow { .. } => lemma_cond_threshold(d, c),
        PreCondition::KeyPress { .. } => lemma_cond_key(d, c),
        PreCondition::MouseWheel { .. } => lemma_cond_wheel(d, c),
        PreCondition::Chat { .. } => lemma_cond_chat(d, c),
        _ => lemma_cond_single(d, c),
    }
}

pub open spec fn tag_all(cs: Seq<PreCondition>, latch: bool) -> Seq<(PreCondition, bool)> {
    cs.map_values(|c: PreCondition| (c, latch))
}

/// `d` with the conditions `cs` read after it.
pub open spec fn with_conds(d: Draft, cs: Seq<PreCondition>, latch: bool) -> Draft {
    Draft { mode: Mode::Keyword, conds: d.conds + tag_all(cs, latch), latch_next: false, ..d }
}

/// The clauses `<kw> <condition>` for each condition, as words.
pub open spec fn clause_words(kw: Seq<char>, cs: Seq<PreCondition>) -> Seq<Seq<char>>
    decreases cs.len(),
{
    if cs.len() == 0 {
        seq![]
    } else {
        clause_words(kw, cs.drop_last()) + seq![kw] + cond_words(cs.last())
    }
}

pub open spec fn all_ok(cs: Seq<PreCondition>) -> bool {
    forall|i: int| 0 <= i < cs.len() ==> cond_ok(#[trigger] cs[i])
}

/// The draft once the keyword of a clause is read.
pub open spec fn clause_opened(d: Draft, latch: bool) -> Draft {
    if latch {
        Draft { mode: Mode::AfterValue, latch_next: true, ..d }
    } else {
        with_mode(d, Mode::PreKind)
    }
}

proof fn lemma_clause_keyword(d: Draft, kw: Seq<char>, latch: bool)
    requires
        d.mode == Mode::Keyword,
        (kw == "on"@ && !latch) || (kw == "after"@ && latch),
    ensures
        lower_word(kw) == kw,
        step(d, kw) == Ok::<Draft, ErrorKind>(clause_opened(d, latch)),
{
    reveal_strlit("on");
    reveal_strlit("do");
    reveal_strlit("toggle");
    reveal_strlit("every");
    reveal_strlit("after");
    assert(lower_word(kw) =~= kw);
}

/// Clauses read from the keyword state add their conditions, tagged as latches
/// when they come after `after`.
pub proof fn lemma_clauses_chunk(d: Draft, kw: Seq<char>, cs: Seq<PreCondition>, latch: bool)
    requires
        d.mode == Mode::Keyword,
        !d.latch_next,
        all_ok(cs),
        (kw == "on"@ && !latch) || (kw == "after"@ && latch),
    ensures
        run_from(d, lower_all(clause_words(kw, cs))) == Ok::<Draft, (ErrorKind, Seq<char>)>(
            with_conds(d, cs, latch),
        ),
    decreases cs.len(),
{
    if cs.len() == 0 {
        assert(lower_all(clause_words(kw, cs)) =~= Seq::<Seq<char>>::empty());
        assert(with_conds(d, cs, latch) =~= d) by {
            assert(d.conds + tag_all(cs, latch) =~= d.conds);
        }
    } else {
        let init = cs.drop_last();
        let c = cs.last();
        assert(all_ok(init)) by {
            assert forall|i: int| 0 <= i < init.len() implies cond_ok(#[trigger] init[i]) by {
                assert(init[i] == cs[i]);
            }
        }
        assert(cond_ok(c)) by {
            assert(cs[cs.len() - 1] == c);
        }
        lemma_clauses_chunk(d, kw, init, latch);
        let d1 = with_conds(d, init, latch);
        let a = lower_all(clause_words(kw, init));
        let b = lower_all(seq![kw]);
        let e = lower_all(cond_words(c));
        lemma_lower_all_concat(clause_words(kw, init), seq![kw]);
        lemma_lower_all_concat(clause_words(kw, init) + seq![kw], cond_words(c));
        lemma_clause_keyword(d1, kw, latch);
        assert(b =~= seq![kw]);
        lemma_run_concat(d, a + b, e);
        lemma_run_concat(d, a, b);
        lemma_run_one(d1, kw);
        let d2 = clause_opened(d1, latch);
        lemma_cond_chunk(d2, c);
        assert(with_condition(d2, c) =~= with_conds(d, cs, latch)) by {
            assert(d1.conds.push((c, latch)) =~= d.conds + tag_all(cs, latch));
        }
    }
}

/// `every <duration>` sets the interval.
pub proof fn lemma_every_chunk(d: Draft, ms: u64)
    requires
        d.mode == Mode::Keyword,
    ensures
        run_from(d, lower_all(seq!["every"@, duration_text(ms)])) == Ok::<Draft, (ErrorKind, Seq<char>)>(
            Draft { delay: ms, ..d },
        ),
{
    reveal_strlit("on");
    reveal_strlit("do");
    reveal_strlit("toggle");
    reveal_strlit("every");
    lemma_duration_round_trip(ms);
    lemma_lower_plain(duration_text(ms));
    assert(lower_word("every"@) =~= "every"@);
    assert(lower_all(seq!["every"@, duration_text(ms)]) =~= seq!["every"@, duration_text(ms)]);
    lemma_run_two(d, "every"@, duration_text(ms));
    assert(Draft { mode: Mode::Keyword, delay: ms, ..with_mode(d, Mode::DelayValue) } == Draft { delay: ms, ..d });
}

/// `after <duration>` sets the windup: a duration names no condition.
#[verifier::rlimit(40)]
pub proof fn lemma_windup_chunk(d: Draft, ms: u64)
    requires
        d.mode == Mode::Keyword,
        !d.latch_next,
    ensures
        run_from(d, lower_all(seq!["after"@, duration_text(ms)])) == Ok::<Draft, (ErrorKind, Seq<char>)>(
            Draft { windup: ms, ..d },
        ),
{
    reveal_strlit("on");
    reveal_strlit("do");
    reveal_strlit("toggle");
    reveal_strlit("every");
    reveal_strlit("after");
    reveal_strlit("life");
    reveal_strlit("es");
    reveal_strlit("mana");
    reveal_strlit("flask");
    reveal_strlit("key");
    reveal_strlit("skill");
    reveal_strlit("wheel");
    reveal_strlit("town");
    reveal_strlit("map");
    reveal_strlit("transition");
    reveal_strlit("chat");
    reveal_strlit("focus");
    reveal_strlit("blur");
    let t = duration_text(ms);
    lemma_duration_round_trip(ms);
    lemma_lower_plain(t);
    assert(lower_word("after"@) =~= "after"@);
    assert(lower_all(seq!["after"@, t]) =~= seq!["after"@, t]);
    lemma_run_two(d, "after"@, t);
    let d1 = Draft { mode: Mode::AfterValue, latch_next: true, ..d };
    assert(t != "life"@ && t != "es"@ && t != "mana"@ && t != "wheel"@ && t != "town"@) by {
        assert(t[0] != 'l' && t[0] != 'e' && t[0] != 'm' && t[0] != 'w' && t[0] != 't');
    }
    assert(t != "map"@ && t != "transition"@ && t != "chat"@ && t != "focus"@ && t != "blur"@) by {
        assert(t[0] != 'm' && t[0] != 't' && t[0] != 'c' && t[0] != 'f' && t[0] != 'b');
    }
    assert(t != "flask"@ && t != "key"@ && t != "skill"@) by {
        assert(t[0] != 'f' && t[0] != 'k' && t[0] != 's');
    }
    assert(step(d1, t) == Ok::<Draft, ErrorKind>(Draft { mode: Mode::Keyword, latch_next: false, windup: ms, ..d1 }));
}

/// `silent` sets the flag.
pub proof fn lemma_silent_chunk(d: Draft)
    requires
        d.mode == Mode::Keyword,
    ensures
        run_from(d, lower_all(seq!["silent"@])) == Ok::<Draft, (ErrorKind, Seq<char>)>(
            Draft { silent: true, ..d },
        ),
{
    reveal_strlit("on");
    reveal_strlit("do");
    reveal_strlit("toggle");
    reveal_strlit("every");
    reveal_strlit("after");
    reveal_strlit("silent");
    assert(lower_word("silent"@) =~= "silent"@);
    assert(lower_all(seq!["silent"@]) =~= seq!["silent"@]);
    lemma_run_one(d, "silent"@);
}

/// The words of a `type` action accumulate, joined by spaces.
pub proof fn lemma_typed_chunk(d: Draft, ws: Seq<Seq<char>>)
    requires
        d.mode == Mode::PostRemaining,
        d.post == Some(PostModel::Type { text: seq![] }),
    ensures
        run_from(d, ws) == Ok::<Draft, (ErrorKind, Seq<char>)>(
            Draft { post: Some(PostModel::Type { text: join(ws) }), ..d },
        ),
    decreases ws.len(),
{
    if ws.len() == 0 {
        assert(Draft { post: Some(PostModel::Type { text: join(ws) }), ..d } == d);
    } else {
        lemma_typed_chunk(d, ws.drop_last());
        let d1 = Draft { post: Some(PostModel::Type { text: join(ws.drop_last()) }), ..d };
        assert(typed(d1) == join(ws.drop_last()));
    }
}

/// An action as the words it is written with.
pub open spec fn action_words(p: PostModel) -> Seq<Seq<char>> {
    match p {
        PostModel::PressKey { vk } => seq!["key"@, key_text(vk)],
        PostModel::Click { button } => seq!["click"@, button_text(button)],
        PostModel::Disconnect => seq!["disconnect"@],
        PostModel::Type { text } => seq!["type"@] + words(text),
        PostModel::ShowPrice => seq!["price"@],
        PostModel::InviteLast => seq!["invite"@],
        PostModel::Destroy => seq!["destroy"@],
        PostModel::Downscaling { enable } => if enable {
            seq!["downscale"@]
        } else {
            seq!["upscale"@]
        },
        PostModel::SetKeySuppression { suppress } => if suppress {
            seq!["disable"@]
        } else {
            seq!["enable"@]
        },
    }
}

/// A typed text that reads back as itself: it is its words, made lower case,
/// joined by single spaces.
pub open spec fn text_ok(t: Seq<char>) -> bool {
    join(lower_all(words(t))) == t
}

pub open spec fn post_ok(p: PostModel) -> bool {
    match p {
        PostModel::Type { text } => text_ok(text),
        _ => true,
    }
}

/// The draft once action `p` is read.
pub open spec fn with_action(d: Draft, p: PostModel) -> Draft {
    Draft {
        mode: if p is Type {
            Mode::PostRemaining
        } else {
            Mode::Keyword
        },
        post: Some(p),
        ..d
    }
}

#[verifier::rlimit(40)]
proof fn lemma_action_pair(d: Draft, p: PostModel)
    requires
        d.mode == Mode::PostKind,
        p is PressKey || p is Click,
    ensures
        run_from(d, lower_all(action_words(p))) == Ok::<Draft, (ErrorKind, Seq<char>)>(with_action(d, p)),
{
    reveal_strlit("disconnect");
    reveal_strlit("flask");
    reveal_strlit("key");
    reveal_strlit("skill");
    reveal_strlit("click");
    reveal_strlit("type");
    reveal_strlit("price");
    reveal_strlit("invite");
    reveal_strlit("destroy");
    reveal_strlit("downscale");
    reveal_strlit("upscale");
    reveal_strlit("disable");
    reveal_strlit("enable");
    reveal_strlit("left");
    reveal_strlit("right");
    reveal_strlit("middle");
    reveal_strlit("1");
    reveal_strlit("2");
    reveal_strlit("3");
    match p {
        PostModel::PressKey { vk } => {
            lemma_key_round_trip(vk);
            assert(lower_word("key"@) =~= "key"@);
            assert(lower_all(action_words(p)) =~= seq!["key"@, lower_word(key_text(vk))]);
            lemma_run_two(d, "key"@, lower_word(key_text(vk)));
        },
        PostModel::Click { button } => {
            assert(lower_word("click"@) =~= "click"@);
            assert(lower_word(button_text(button)) =~= button_text(button));
            assert(lower_all(action_words(p)) =~= seq!["click"@, button_text(button)]);
            lemma_run_two(d, "click"@, button_text(button));
            assert(button_of(button_text(button)) == Ok::<MouseButton, ErrorKind>(button));
        },
        _ => {},
    }
}

#[verifier::rlimit(40)]
proof fn lemma_action_single(d: Draft, p: PostModel)
    requires
        d.mode == Mode::PostKind,
        !(p is PressKey || p is Click || p is Type),
    ensures
        run_from(d, lower_all(action_words(p))) == Ok::<Draft, (ErrorKind, Seq<char>)>(with_action(d, p)),
{
    reveal_strlit("disconnect");
    reveal_strlit("flask");
    reveal_strlit("key");
    reveal_strlit("skill");
    reveal_strlit("click");
    reveal_strlit("type");
    reveal_strlit("price");
    reveal_strlit("invite");
    reveal_strlit("destroy");
    reveal_strlit("downscale");
    reveal_strlit("upscale");
    reveal_strlit("disable");
    reveal_strlit("enable");
    let w = action_words(p)[0];
    assert(action_words(p) =~= seq![w]);
    assert(lower_word(w) =~= w);
    assert(lower_all(action_words(p)) =~= seq![w]);
    lemma_run_one(d, w);
}

proof fn lemma_action_type(d: Draft, p: PostModel)
    requires
        d.mode == Mode::PostKind,
        p is Type,
        post_ok(p),
    ensures
        run_from(d, lower_all(action_words(p))) == Ok::<Draft, (ErrorKind, Seq<char>)>(with_action(d, p)),
{
    reveal_strlit("disconnect");
    reveal_strlit("flask");
    reveal_strlit("key");
    reveal_strlit("skill");
    reveal_strlit("click");
    reveal_strlit("type");
    reveal_strlit("price");
    reveal_strlit("invite");
    reveal_strlit("destroy");
    reveal_strlit("downscale");
    reveal_strlit("upscale");
    reveal_strlit("disable");
    reveal_strlit("enable");
    if let PostModel::Type { text } = p {
        assert(lower_word("type"@) =~= "type"@);
        lemma_lower_all_concat(seq!["type"@], words(text));
        assert(lower_all(seq!["type"@]) =~= seq!["type"@]);
        lemma_run_concat(d, seq!["type"@], lower_all(words(text)));
        lemma_run_one(d, "type"@);
        let d1 = with_post(d, PostModel::Type { text: seq![] }, Mode::PostRemaining);
        assert(step(d, "type"@) == Ok::<Draft, ErrorKind>(d1));
        lemma_typed_chunk(d1, lower_all(words(text)));
    }
}

/// `do` or `toggle`, then an action, read from the keyword state.
#[verifier::rlimit(40)]
pub proof fn lemma_action_chunk(d: Draft, toggle: bool, p: PostModel)
    requires
        d.mode == Mode::Keyword,
        post_ok(p),
    ensures
        run_from(d, lower_all(seq![if toggle { "toggle"@ } else { "do"@ }] + action_words(p))) == Ok::<
            Draft,
            (ErrorKind, Seq<char>),
        >(with_action(Draft { toggle: if toggle { Some(false) } else { d.toggle }, ..d }, p)),
{
    reveal_strlit("on");
    reveal_strlit("do");
    reveal_strlit("toggle");
    let kw = if toggle { "toggle"@ } else { "do"@ };
    assert(lower_word(kw) =~= kw);
    lemma_lower_all_concat(seq![kw], action_words(p));
    assert(lower_all(seq![kw]) =~= seq![kw]);
    lemma_run_concat(d, seq![kw], lower_all(action_words(p)));
    lemma_run_one(d, kw);
    let d1 = Draft { mode: Mode::PostKind, toggle: if toggle { Some(false) } else { d.toggle }, ..d };
    assert(step(d, kw) == Ok::<Draft, ErrorKind>(d1));
    if p is PressKey || p is Click {
        lemma_action_pair(d1, p);
    } else if p is Type {
        lemma_action_type(d1, p);
    } else {
        lemma_action_single(d1, p);
    }
}

/// A rule as the words it is written back with.
pub open spec fn rule_words(m: RuleModel) -> Seq<Seq<char>> {
    clause_words("on"@, m.pre) + clause_words("after"@, m.after) + timing_words(m) + (seq![
        if m.toggle {
            "toggle"@
        } else {
            "do"@
        },
    ] + action_words(m.post))
}

/// A rule that reading a line can give.
pub open spec fn rule_ok(m: RuleModel) -> bool {
    m.pre.len() > 0 && all_ok(m.pre) && all_ok(m.after) && post_ok(m.post)
}

/// The draft that reading the words of `m` ends with.
pub open spec fn rule_draft(m: RuleModel) -> Draft {
    with_action(
        Draft {
            mode: Mode::Keyword,
            conds: tag_all(m.pre, false) + tag_all(m.after, true),
            latch_next: false,
            post: None,
            delay: m.delay,
            windup: m.windup,
            silent: m.silent,
            toggle: if m.toggle {
                Some(false)
            } else {
                None
            },
        },
        m.post,
    )
}

/// Reading from `d` the words `ws` is reading `xs` then `ys`, where `ws` is `xs + ys`
/// with each word made lower case.
proof fn lemma_run_lower_concat(d: Draft, xs: Seq<Seq<char>>, ys: Seq<Seq<char>>)
    ensures
        run_from(d, lower_all(xs + ys)) == match run_from(d, lower_all(xs)) {
            Ok(d2) => run_from(d2, lower_all(ys)),
            Err(e) => Err(e),
        },
{
    lemma_lower_all_concat(xs, ys);
    lemma_run_concat(d, lower_all(xs), lower_all(ys));
}

/// The optional words of a rule between its clauses and its action.
pub open spec fn timing_words(m: RuleModel) -> Seq<Seq<char>> {
    (if m.delay != DEFAULT_ACTION_DELAY {
        seq!["every"@, duration_text(m.delay)]
    } else {
        seq![]
    }) + (if m.windup != DEFAULT_ACTION_WINDUP {
        seq!["after"@, duration_text(m.windup)]
    } else {
        seq![]
    }) + (if m.silent {
        seq!["silent"@]
    } else {
        seq![]
    })
}

#[verifier::rlimit(100)]
proof fn lemma_read_timing(d: Draft, m: RuleModel)
    requires
        d.mode == Mode::Keyword,
        !d.latch_next,
        d.delay == DEFAULT_ACTION_DELAY,
        d.windup == DEFAULT_ACTION_WINDUP,
        !d.silent,
    ensures
        run_from(d, lower_all(timing_words(m))) == Ok::<Draft, (ErrorKind, Seq<char>)>(
            Draft { delay: m.delay, windup: m.windup, silent: m.silent, ..d },
        ),
{
    let e = if m.delay != DEFAULT_ACTION_DELAY {
        seq!["every"@, duration_text(m.delay)]
    } else {
        seq![]
    };
    let w = if m.windup != DEFAULT_ACTION_WINDUP {
        seq!["after"@, duration_text(m.windup)]
    } else {
        seq![]
    };
    let si = if m.silent {
        seq!["silent"@]
    } else {
        seq![]
    };
    let d3 = Draft { delay: m.delay, ..d };
    if m.delay != DEFAULT_ACTION_DELAY {
        lemma_every_chunk(d, m.delay);
    } else {
        assert(lower_all(e) =~= Seq::<Seq<char>>::empty());
        assert(d3 == d);
    }
    let d4 = Draft { windup: m.windup, ..d3 };
    if m.windup != DEFAULT_ACTION_WINDUP {
        lemma_windup_chunk(d3, m.windup);
    } else {
        assert(lower_all(w) =~= Seq::<Seq<char>>::empty());
        assert(d4 == d3);
    }
    lemma_run_lower_concat(d, e, w);
    let d5 = Draft { silent: m.silent, ..d4 };
    if m.silent {
        lemma_silent_chunk(d4);
    } else {
        assert(lower_all(si) =~= Seq::<Seq<char>>::empty());
        assert(d5 == d4);
    }
    lemma_run_lower_concat(d, e + w, si);
}

proof fn lemma_read_clauses(m: RuleModel)
    requires
        rule_ok(m),
    ensures
        run(lower_all(clause_words("on"@, m.pre) + clause_words("after"@, m.after))) == Ok::<
            Draft,
            (ErrorKind, Seq<char>),
        >(Draft { conds: tag_all(m.pre, false) + tag_all(m.after, true), ..initial_draft() }),
{
    reveal_strlit("on");
    reveal_strlit("after");
    let d0 = initial_draft();
    lemma_clauses_chunk(d0, "on"@, m.pre, false);
    let d1 = with_conds(d0, m.pre, false);
    lemma_clauses_chunk(d1, "after"@, m.after, true);
    lemma_run_lower_concat(d0, clause_words("on"@, m.pre), clause_words("after"@, m.after));
    assert(d0.conds + tag_all(m.pre, false) =~= tag_all(m.pre, false));
    assert(with_conds(d1, m.after, true) == Draft {
        conds: tag_all(m.pre, false) + tag_all(m.after, true),
        ..initial_draft()
    });
}

/// Reading the words of a rule gives back its draft.
#[verifier::rlimit(100)]
pub proof fn lemma_read_rule_words(m: RuleModel)
    requires
        rule_ok(m),
    ensures
        run(lower_all(rule_words(m))) == Ok::<Draft, (ErrorKind, Seq<char>)>(rule_draft(m)),
{
    let c = clause_words("on"@, m.pre) + clause_words("after"@, m.after);
    let t = timing_words(m);
    let k = seq![if m.toggle { "toggle"@ } else { "do"@ }];
    let a = action_words(m.post);
    lemma_read_clauses(m);
    let d2 = Draft { conds: tag_all(m.pre, false) + tag_all(m.after, true), ..initial_draft() };
    lemma_read_timing(d2, m);
    lemma_run_lower_concat(initial_draft(), c, t);
    let d5 = Draft { delay: m.delay, windup: m.windup, silent: m.silent, ..d2 };
    lemma_action_chunk(d5, m.toggle, m.post);
    lemma_run_lower_concat(initial_draft(), c + t, k + a);
    assert(with_action(Draft { toggle: if m.toggle { Some(false) } else { d5.toggle }, ..d5 }, m.post) == rule_draft(m));
}

proof fn lemma_tagged_concat(xs: Seq<(PreCondition, bool)>, ys: Seq<(PreCondition, bool)>, latch: bool)
    ensures
        tagged(xs + ys, latch) == tagged(xs, latch) + tagged(ys, latch),
    decreases ys.len(),
{
    if ys.len() == 0 {
        assert(xs + ys =~= xs);
        assert(tagged(xs, latch) + tagged(ys, latch) =~= tagged(xs, latch));
    } else {
        lemma_tagged_concat(xs, ys.drop_last(), latch);
        assert((xs + ys).drop_last() =~= xs + ys.drop_last());
        assert((xs + ys).last() == ys.last());
        assert((tagged(xs, latch) + tagged(ys.drop_last(), latch)).push(ys.last().0) =~= tagged(xs, latch) + tagged(ys.drop_last(), latch).push(ys.last().0));
    }
}

proof fn lemma_tagged_all(cs: Seq<PreCondition>, latch: bool, want: bool)
    ensures
        tagged(tag_all(cs, latch), want) == (if latch == want {
            cs
        } else {
            seq![]
        }),
    decreases cs.len(),
{
    if cs.len() > 0 {
        lemma_tagged_all(cs.drop_last(), latch, want);
        assert(tag_all(cs, latch).drop_last() =~= tag_all(cs.drop_last(), latch));
        assert(cs.drop_last().push(cs.last()) =~= cs);
    } else {
        assert(tag_all(cs, latch) =~= Seq::<(PreCondition, bool)>::empty());
        assert(cs =~= Seq::<PreCondition>::empty());
    }
}

/// The draft of a rule finishes as the rule.
pub proof fn lemma_finish_rule_draft(m: RuleModel)
    requires
        rule_ok(m),
    ensures
        finish(rule_draft(m)) == Ok::<RuleModel, ErrorKind>(m),
{
    let conds = tag_all(m.pre, false) + tag_all(m.after, true);
    lemma_tagged_concat(tag_all(m.pre, false), tag_all(m.after, true), false);
    lemma_tagged_concat(tag_all(m.pre, false), tag_all(m.after, true), true);
    lemma_tagged_all(m.pre, false, false);
    lemma_tagged_all(m.pre, false, true);
    lemma_tagged_all(m.after, true, false);
    lemma_tagged_all(m.after, true, true);
    assert(tagged(conds, false) =~= m.pre);
    assert(tagged(conds, true) =~= m.after);
}

/// Empty, or ending with white space: what may stand before a word.
pub open spec fn ends_open(x: Seq<char>) -> bool {
    x.len() == 0 || is_space(x.last())
}

proof fn lemma_ends_open_concat(a: Seq<char>, b: Seq<char>)
    requires
        ends_open(a),
        ends_open(b),
    ensures
        ends_open(a + b),
{
    if b.len() == 0 {
        assert(a + b =~= a);
    } else {
        assert((a + b).last() == b.last());
    }
}

/// The words of `w + " "`, for a literal word `w`.
proof fn lemma_word_space(w: Seq<char>, ws: Seq<char>)
    requires
        is_token(w),
        ws == w + " "@,
    ensures
        words(ws) == seq![w],
        ends_open(ws),
{
    reveal_strlit(" ");
    lemma_words_token_space(w);
    assert(ws.last() == ' ');
}

/// The words of `kw + t + " "`, for literal `kw` (with its space) and a word `t`.
proof fn lemma_two_words(kw: Seq<char>, kws: Seq<char>, t: Seq<char>)
    requires
        is_token(kw),
        kws == kw + " "@,
        is_token(t),
    ensures
        words(kws + t + " "@) == seq![kw, t],
{
    lemma_word_space(kw, kws);
    lemma_words_token_space(t);
    lemma_words_append(kws, t + " "@);
    assert(kws + t + " "@ =~= kws + (t + " "@));
    assert(seq![kw] + seq![t] =~= seq![kw, t]);
}

#[verifier::rlimit(60)]
proof fn lemma_words_cond_text(c: PreCondition)
    requires
        cond_ok(c),
    ensures
        words(condition_text(c) + " "@) == cond_words(c),
{
    reveal_strlit(" ");
    match c {
        PreCondition::LifeBelow { threshold } => {
    reveal_strlit("life");
    reveal_strlit("life ");
    assert("life "@ =~= "life"@ + " "@);
    assert(is_token("life"@));
            lemma_value_round_trip(threshold);
            lemma_two_words("life"@, "life "@, value_text(threshold));
        },
        PreCondition::EnergyBelow { threshold } => {
    reveal_strlit("es");
    reveal_strlit("es ");
    assert("es "@ =~= "es"@ + " "@);
    assert(is_token("es"@));
            lemma_value_round_trip(threshold);
            lemma_two_words("es"@, "es "@, value_text(threshold));
        },
        PreCondition::ManaBelow { threshold } => {
    reveal_strlit("mana");
    reveal_strlit("mana ");
    assert("mana "@ =~= "mana"@ + " "@);
    assert(is_token("mana"@));
            lemma_value_round_trip(threshold);
            lemma_two_words("mana"@, "mana "@, value_text(threshold));
        },
        PreCondition::KeyPress { vk } => {
    reveal_strlit("key");
    reveal_strlit("key ");
    assert("key "@ =~= "key"@ + " "@);
    assert(is_token("key"@));
            lemma_key_round_trip(vk);
            lemma_two_words("key"@, "key "@, key_text(vk));
        },
        PreCondition::MouseWheel { dir } => {
    reveal_strlit("wheel");
    reveal_strlit("wheel ");
    assert("wheel "@ =~= "wheel"@ + " "@);
    assert(is_token("wheel"@));
            reveal_strlit("up");
            reveal_strlit("down");
            assert(is_token(direction_text(dir)));
            lemma_two_words("wheel"@, "wheel "@, direction_text(dir));
        },
        PreCondition::Chat { open } => {
    reveal_strlit("chat");
    reveal_strlit("chat ");
    assert("chat "@ =~= "chat"@ + " "@);
    assert(is_token("chat"@));
            reveal_strlit("opened");
            reveal_strlit("closed");
            assert(is_token(opened_text(open)));
            lemma_two_words("chat"@, "chat "@, opened_text(open));
        },
        PreCondition::InArea { town } => {
            reveal_strlit("town");
            reveal_strlit("map");
            let w = if town { "town"@ } else { "map"@ };
            assert(is_token(w));
            lemma_word_space(w, condition_text(c) + " "@);
        },
        PreCondition::JustTransitioned => {
            reveal_strlit("transition");
            assert(is_token("transition"@));
            lemma_word_space("transition"@, condition_text(c) + " "@);
        },
        PreCondition::WindowFocus => {
            reveal_strlit("focus");
            assert(is_token("focus"@));
            lemma_word_space("focus"@, condition_text(c) + " "@);
        },
        PreCondition::WindowBlur => {
            reveal_strlit("blur");
            assert(is_token("blur"@));
            lemma_word_space("blur"@, condition_text(c) + " "@);
        },
    }
}

/// The clauses as written split into their words.
proof fn lemma_words_clauses(kw: Seq<char>, kws: Seq<char>, cs: Seq<PreCondition>)
    requires
        is_token(kw),
        kws == kw + " "@,
        all_ok(cs),
    ensures
        words(clauses(kws, cs)) == clause_words(kw, cs),
        ends_open(clauses(kws, cs)),
    decreases cs.len(),
{
    reveal_strlit(" ");
    if cs.len() == 0 {
        assert(words(Seq::<char>::empty()) =~= Seq::<Seq<char>>::empty()) by {
            assert(crate::text::scan(Seq::<char>::empty(), 0) == (Seq::<Seq<char>>::empty(), Seq::<char>::empty()));
        }
    } else {
        let init = cs.drop_last();
        let c = cs.last();
        assert(all_ok(init)) by {
            assert forall|i: int| 0 <= i < init.len() implies cond_ok(#[trigger] init[i]) by {
                assert(init[i] == cs[i]);
            }
        }
        assert(cond_ok(c)) by {
            assert(cs[cs.len() - 1] == c);
        }
        lemma_words_clauses(kw, kws, init);
        let p = clauses(kws, init);
        let tail = condition_text(c) + " "@;
        lemma_words_cond_text(c);
        lemma_word_space(kw, kws);
        lemma_words_append(kws, tail);
        lemma_words_append(p, kws + tail);
        assert(clauses(kws, cs) =~= p + (kws + tail));
        assert(clause_words(kw, cs) =~= words(p) + (seq![kw] + cond_words(c)));
        assert(clauses(kws, cs).last() == ' ');
    }
}

#[verifier::rlimit(60)]
proof fn lemma_words_action_text(p: PostModel)
    ensures
        words(action_text(p)) == action_words(p),
{
    reveal_strlit(" ");
    match p {
        PostModel::PressKey { vk } => {
            reveal_strlit("key");
            reveal_strlit("key ");
            assert("key "@ =~= "key"@ + " "@);
            assert(is_token("key"@));
            lemma_key_round_trip(vk);
            lemma_word_space("key"@, "key "@);
            lemma_words_token(key_text(vk));
            lemma_words_append("key "@, key_text(vk));
        },
        PostModel::Click { button } => {
            reveal_strlit("click");
            reveal_strlit("click ");
            reveal_strlit("left");
            reveal_strlit("right");
            reveal_strlit("middle");
            assert("click "@ =~= "click"@ + " "@);
            assert(is_token("click"@));
            assert(is_token(button_text(button)));
            lemma_word_space("click"@, "click "@);
            lemma_words_token(button_text(button));
            lemma_words_append("click "@, button_text(button));
        },
        PostModel::Type { text } => {
            reveal_strlit("type");
            reveal_strlit("type ");
            assert("type "@ =~= "type"@ + " "@);
            assert(is_token("type"@));
            lemma_word_space("type"@, "type "@);
            lemma_words_append("type "@, text);
        },
        PostModel::Disconnect => {
            reveal_strlit("disconnect");
            assert(is_token("disconnect"@));
            lemma_words_token("disconnect"@);
        },
        PostModel::ShowPrice => {
            reveal_strlit("price");
            assert(is_token("price"@));
            lemma_words_token("price"@);
        },
        PostModel::InviteLast => {
            reveal_strlit("invite");
            assert(is_token("invite"@));
            lemma_words_token("invite"@);
        },
        PostModel::Destroy => {
            reveal_strlit("destroy");
            assert(is_token("destroy"@));
            lemma_words_token("destroy"@);
        },
        PostModel::Downscaling { enable } => {
            reveal_strlit("downscale");
            reveal_strlit("upscale");
            let w = if enable { "downscale"@ } else { "upscale"@ };
            assert(is_token(w));
            lemma_words_token(w);
        },
        PostModel::SetKeySuppression { suppress } => {
            reveal_strlit("disable");
            reveal_strlit("enable");
            let w = if suppress { "disable"@ } else { "enable"@ };
            assert(is_token(w));
            lemma_words_token(w);
        },
    }
}

/// The optional parts of a rule as written, between its clauses and its action.
proof fn lemma_words_timing(m: RuleModel)
    ensures
        ({
            let e = if m.delay != DEFAULT_ACTION_DELAY {
                "every "@ + duration_text(m.delay) + " "@
            } else {
                seq![]
            };
            let w = if m.windup != DEFAULT_ACTION_WINDUP {
                "after "@ + duration_text(m.windup) + " "@
            } else {
                seq![]
            };
            let si = if m.silent {
                "silent "@
            } else {
                seq![]
            };
            &&& words(e + w + si) == timing_words(m)
            &&& ends_open(e)
            &&& ends_open(w)
            &&& ends_open(si)
        }),
{
    reveal_strlit(" ");
    reveal_strlit("every");
    reveal_strlit("every ");
    reveal_strlit("after");
    reveal_strlit("after ");
    reveal_strlit("silent");
    reveal_strlit("silent ");
    assert("every "@ =~= "every"@ + " "@);
    assert("after "@ =~= "after"@ + " "@);
    assert("silent "@ =~= "silent"@ + " "@);
    assert(is_token("every"@));
    assert(is_token("after"@));
    assert(is_token("silent"@));
    let e = if m.delay != DEFAULT_ACTION_DELAY {
        "every "@ + duration_text(m.delay) + " "@
    } else {
        seq![]
    };
    let w = if m.windup != DEFAULT_ACTION_WINDUP {
        "after "@ + duration_text(m.windup) + " "@
    } else {
        seq![]
    };
    let si = if m.silent {
        "silent "@
    } else {
        seq![]
    };
    assert(words(Seq::<char>::empty()) =~= Seq::<Seq<char>>::empty()) by {
        assert(crate::text::scan(Seq::<char>::empty(), 0) == (Seq::<Seq<char>>::empty(), Seq::<char>::empty()));
    }
    if m.delay != DEFAULT_ACTION_DELAY {
        lemma_duration_round_trip(m.delay);
        lemma_two_words("every"@, "every "@, duration_text(m.delay));
        assert(e.last() == ' ');
    }
    if m.windup != DEFAULT_ACTION_WINDUP {
        lemma_duration_round_trip(m.windup);
        lemma_two_words("after"@, "after "@, duration_text(m.windup));
        assert(w.last() == ' ');
    }
    if m.silent {
        lemma_word_space("silent"@, "silent "@);
    }
    lemma_words_append(e, w);
    lemma_ends_open_concat(e, w);
    lemma_words_append(e + w, si);
    let te = if m.delay != DEFAULT_ACTION_DELAY {
        seq!["every"@, duration_text(m.delay)]
    } else {
        seq![]
    };
    let tw = if m.windup != DEFAULT_ACTION_WINDUP {
        seq!["after"@, duration_text(m.windup)]
    } else {
        seq![]
    };
    let ts = if m.silent {
        seq!["silent"@]
    } else {
        seq![]
    };
    assert(words(e) == te);
    assert(words(w) == tw);
    assert(words(si) == ts);
}

/// A rule as written splits into the words it is written with.
#[verifier::rlimit(100)]
pub proof fn lemma_words_rule_text(m: RuleModel)
    requires
        rule_ok(m),
    ensures
        words(rule_text(m)) == rule_words(m),
{
    reveal_strlit(" ");
    reveal_strlit("on");
    reveal_strlit("on ");
    reveal_strlit("after");
    reveal_strlit("after ");
    reveal_strlit("do");
    reveal_strlit("do ");
    reveal_strlit("toggle");
    reveal_strlit("toggle ");
    assert("on "@ =~= "on"@ + " "@);
    assert("after "@ =~= "after"@ + " "@);
    assert("do "@ =~= "do"@ + " "@);
    assert("toggle "@ =~= "toggle"@ + " "@);
    assert(is_token("on"@));
    assert(is_token("after"@));
    assert(is_token("do"@));
    assert(is_token("toggle"@));
    lemma_words_clauses("on"@, "on "@, m.pre);
    lemma_words_clauses("after"@, "after "@, m.after);
    lemma_words_timing(m);
    lemma_words_action_text(m.post);
    let c1 = clauses("on "@, m.pre);
    let c2 = clauses("after "@, m.after);
    let e = if m.delay != DEFAULT_ACTION_DELAY {
        "every "@ + duration_text(m.delay) + " "@
    } else {
        seq![]
    };
    let w = if m.windup != DEFAULT_ACTION_WINDUP {
        "after "@ + duration_text(m.windup) + " "@
    } else {
        seq![]
    };
    let si = if m.silent {
        "silent "@
    } else {
        seq![]
    };
    let kw = if m.toggle { "toggle"@ } else { "do"@ };
    let k = if m.toggle { "toggle "@ } else { "do "@ };
    let t = e + w + si;
    lemma_ends_open_concat(e, w);
    lemma_ends_open_concat(e + w, si);
    lemma_word_space(kw, k);
    lemma_words_append(c1, c2);
    lemma_ends_open_concat(c1, c2);
    lemma_words_append(c1 + c2, t);
    lemma_ends_open_concat(c1 + c2, t);
    lemma_words_append(c1 + c2 + t, k);
    lemma_ends_open_concat(c1 + c2 + t, k);
    lemma_words_append(c1 + c2 + t + k, action_text(m.post));
    assert(rule_text(m) =~= c1 + c2 + t + k + action_text(m.post));
    assert(rule_words(m) =~= words(c1) + words(c2) + words(t) + words(k) + words(action_text(m.post)));
}

/// What reading keeps true of a draft: its thresholds are in range and its
/// typed text reads back as itself.
pub open spec fn draft_ok(d: Draft) -> bool {
    &&& forall|i: int| 0 <= i < d.conds.len() ==> cond_ok(#[trigger] d.conds[i].0)
    &&& match d.post {
        Some(p) => post_ok(p),
        None => true,
    }
}

proof fn lemma_text_step(t: Seq<char>, w: Seq<char>)
    requires
        text_ok(t),
        is_token(w),
        lower_word(w) == w,
    ensures
        text_ok(if t.len() == 0 {
            w
        } else {
            t + " "@ + w
        }),
{
    reveal_strlit(" ");
    lemma_words_token(w);
    assert(join(Seq::<Seq<char>>::empty()) == Seq::<char>::empty());
    if t.len() == 0 {
        assert(lower_all(seq![w]) =~= seq![w]);
        assert(seq![w].drop_last() =~= Seq::<Seq<char>>::empty());
        assert(join(seq![w]) == w);
    } else {
        let a = t + " "@;
        assert(a =~= t.push(' '));
        lemma_words_trailing_space(t);
        lemma_words_append(a, w);
        let l = lower_all(words(t));
        assert(words(a + w) == words(t) + seq![w]);
        assert(lower_all(words(t) + seq![w]) =~= l.push(w));
        assert(l.push(w).drop_last() =~= l);
        assert(l.push(w).last() == w);
        assert(join(l) == t);
        assert(join(l.push(w)) == t + " "@ + w);
        assert(t + " "@ + w == a + w);
    }
}

proof fn lemma_lower_token(w: Seq<char>)
    requires
        is_token(w),
    ensures
        is_token(lower_word(w)),
        lower_word(lower_word(w)) == lower_word(w),
{
    assert(lower_word(lower_word(w)) =~= lower_word(w));
    assert forall|i: int| 0 <= i < lower_word(w).len() implies !is_space(#[trigger] lower_word(w)[i]) by {
        assert(!is_space(w[i]));
    }
}

proof fn lemma_scan_tokens(s: Seq<char>, n: nat)
    requires
        n <= s.len(),
    ensures
        forall|i: int| 0 <= i < scan(s, n).0.len() ==> is_token(#[trigger] scan(s, n).0[i]),
        forall|i: int| 0 <= i < scan(s, n).1.len() ==> !is_space(#[trigger] scan(s, n).1[i]),
    decreases n,
{
    if n > 0 {
        lemma_scan_tokens(s, (n - 1) as nat);
        let (d, c) = scan(s, (n - 1) as nat);
        if !is_space(s[n - 1]) {
            assert forall|i: int| 0 <= i < c.push(s[n - 1]).len() implies !is_space(#[trigger] c.push(s[n - 1])[i]) by {
                if i < c.len() {
                    assert(c.push(s[n - 1])[i] == c[i]);
                }
            }
        } else if c.len() > 0 {
            assert forall|i: int| 0 <= i < d.push(c).len() implies is_token(#[trigger] d.push(c)[i]) by {
                if i < d.len() {
                    assert(d.push(c)[i] == d[i]);
                }
            }
        }
    }
}

/// The words of a line, made lower case, are words in lower case.
proof fn lemma_lowered_words(s: Seq<char>)
    ensures
        forall|i: int| 0 <= i < lower_all(words(s)).len() ==> is_token(#[trigger] lower_all(words(s))[i]) && lower_word(lower_all(words(s))[i]) == lower_all(words(s))[i],
{
    lemma_scan_tokens(s, s.len());
    let (d, c) = scan(s, s.len());
    assert forall|i: int| 0 <= i < words(s).len() implies is_token(#[trigger] words(s)[i]) by {
        if c.len() > 0 && i == d.len() {
        } else {
            assert(words(s)[i] == d[i]);
        }
    }
    assert forall|i: int| 0 <= i < lower_all(words(s)).len() implies is_token(#[trigger] lower_all(words(s))[i]) && lower_word(lower_all(words(s))[i]) == lower_all(words(s))[i] by {
        assert(is_token(words(s)[i]));
        lemma_lower_token(words(s)[i]);
    }
}

#[verifier::rlimit(100)]
proof fn lemma_step_ok(d: Draft, w: Seq<char>)
    requires
        draft_ok(d),
        is_token(w),
        lower_word(w) == w,
    ensures
        step(d, w) matches Ok(d2) ==> draft_ok(d2),
{
    if let Ok(d2) = step(d, w) {
        if d.mode == Mode::PostRemaining {
            let t = typed(d);
            assert(text_ok(t)) by {
                assert(words(Seq::<char>::empty()) =~= Seq::<Seq<char>>::empty()) by {
                    assert(scan(Seq::<char>::empty(), 0) == (Seq::<Seq<char>>::empty(), Seq::<char>::empty()));
                }
                assert(lower_all(Seq::<Seq<char>>::empty()) =~= Seq::<Seq<char>>::empty());
            }
            lemma_text_step(t, w);
        } else if d.mode == Mode::PostKind {
            assert(words(Seq::<char>::empty()) =~= Seq::<Seq<char>>::empty()) by {
                assert(scan(Seq::<char>::empty(), 0) == (Seq::<Seq<char>>::empty(), Seq::<char>::empty()));
            }
            assert(lower_all(Seq::<Seq<char>>::empty()) =~= Seq::<Seq<char>>::empty());
        } else {
            assert forall|i: int| 0 <= i < d2.conds.len() implies cond_ok(#[trigger] d2.conds[i].0) by {
                if i < d.conds.len() {
                    assert(d2.conds[i] == d.conds[i]);
                }
            }
        }
    }
}

proof fn lemma_run_ok(ws: Seq<Seq<char>>)
    requires
        forall|i: int| 0 <= i < ws.len() ==> is_token(#[trigger] ws[i]) && lower_word(ws[i]) == ws[i],
    ensures
        run(ws) matches Ok(d) ==> draft_ok(d),
    decreases ws.len(),
{
    if ws.len() > 0 {
        lemma_run_ok(ws.drop_last());
        assert(is_token(ws[ws.len() - 1]));
        if let Ok(d) = run(ws.drop_last()) {
            lemma_step_ok(d, ws.last());
        }
    }
}

proof fn lemma_tagged_ok(cs: Seq<(PreCondition, bool)>, latch: bool)
    requires
        forall|i: int| 0 <= i < cs.len() ==> cond_ok(#[trigger] cs[i].0),
    ensures
        all_ok(tagged(cs, latch)),
    decreases cs.len(),
{
    if cs.len() > 0 {
        lemma_tagged_ok(cs.drop_last(), latch);
        let t = tagged(cs.drop_last(), latch);
        assert(cond_ok(cs[cs.len() - 1].0));
        if cs.last().1 == latch {
            assert forall|i: int| 0 <= i < t.push(cs.last().0).len() implies cond_ok(#[trigger] t.push(cs.last().0)[i]) by {
                if i < t.len() {
                    assert(t.push(cs.last().0)[i] == t[i]);
                }
            }
        }
    }
}

/// Every rule that a line gives meets the conditions of writing it back.
pub proof fn lemma_parsed_rule_ok(line: Seq<char>, m: RuleModel)
    requires
        parse_line(line) == Ok::<Option<RuleModel>, (ErrorKind, Seq<char>)>(Some(m)),
    ensures
        rule_ok(m),
{
    let ws = words(line).map_values(|w: Seq<char>| lower_word(w));
    assert(ws =~= lower_all(words(line)));
    lemma_lowered_words(line);
    lemma_run_ok(ws);
    if let Ok(d) = run(ws) {
        lemma_tagged_ok(d.conds, false);
        lemma_tagged_ok(d.conds, true);
    }
}

proof fn lemma_clauses_start(kws: Seq<char>, cs: Seq<PreCondition>)
    requires
        kws.len() > 0,
        cs.len() > 0,
    ensures
        clauses(kws, cs).len() > 0,
        clauses(kws, cs)[0] == kws[0],
    decreases cs.len(),
{
    let init = cs.drop_last();
    if init.len() > 0 {
        lemma_clauses_start(kws, init);
    } else {
        assert(clauses(kws, init) =~= Seq::<char>::empty());
    }
}

/// Writing a rule back and reading the text again gives the same rule: its
/// trigger and latch conditions, action, interval, windup, silence and toggle.
pub proof fn lemma_round_trip(line: Seq<char>, m: RuleModel)
    requires
        parse_line(line) == Ok::<Option<RuleModel>, (ErrorKind, Seq<char>)>(Some(m)),
    ensures
        parse_line(rule_text(m)) == Ok::<Option<RuleModel>, (ErrorKind, Seq<char>)>(Some(m)),
{
    reveal_strlit("on ");
    reveal_strlit("//");
    lemma_parsed_rule_ok(line, m);
    lemma_words_rule_text(m);
    lemma_read_rule_words(m);
    lemma_finish_rule_draft(m);
    let t = rule_text(m);
    lemma_clauses_start("on "@, m.pre);
    assert(t[0] == clauses("on "@, m.pre)[0]);
    assert(!has_prefix(t, "//"@)) by {
        if has_prefix(t, "//"@) {
            assert(t.subrange(0, 2)[0] == t[0]);
        }
    }
    assert(rule_words(m).len() > 0);
    assert(words(t).map_values(|w: Seq<char>| lower_word(w)) =~= lower_all(rule_words(m)));
}

} // verus!
