use rshacks::action::{Action, TriggerResult};
use rshacks::action_set::ActionSet;
use rshacks::post::{PostCondition, PostResult};
use rshacks::pre::{
    FocusState, GameState, Health, LogState, Mana, MemoryState, MouseState, PreCondition,
    PreRequirement, ScreenState,
};
use rshacks::types::{Delay, Direction, ErrorKind, MouseButton, Button, Opened, Value, Vk};

fn rule(line: &str) -> Action {
    Action::from_line(line).unwrap().unwrap()
}

fn error_kind(line: &str) -> ErrorKind {
    Action::from_line(line).unwrap_err().kind
}

fn empty_state() -> GameState {
    GameState {
        area: None,
        focus: None,
        mouse: None,
        player: None,
        screen: None,
        held_keys: Vec::new(),
    }
}

fn player(hp: i32, max_hp: i32) -> MemoryState {
    MemoryState {
        health: Health {
            hp,
            max_hp,
            unreserved_hp: max_hp,
            es: 0,
            max_es: 0,
        },
        mana: Mana {
            mana: 50,
            max_mana: 100,
            unreserved_mana: 100,
        },
    }
}

fn keys(held: &[u16]) -> GameState {
    GameState {
        held_keys: held.to_vec(),
        ..empty_state()
    }
}

#[test]
fn round_trip_of_overriding_clauses() {
    let parsed = rule("on key A every 200ms do disconnect after 10ms on key Z every 300ms after 30ms do type test");
    assert_eq!(
        parsed.pre,
        vec![
            PreCondition::KeyPress { vk: Vk(0x41) },
            PreCondition::KeyPress { vk: Vk(0x5A) }
        ]
    );
    assert_eq!(parsed.delay, Delay(300));
    assert_eq!(parsed.windup_time, Delay(30));
    assert_eq!(parsed.post, PostCondition::Type { string: "test".to_string() });
    let reparsed = rule(&parsed.to_string());
    assert_eq!(parsed.pre, reparsed.pre);
    assert_eq!(parsed.after_pre, reparsed.after_pre);
    assert_eq!(parsed.post, reparsed.post);
    assert_eq!(parsed.delay, reparsed.delay);
    assert_eq!(parsed.windup_time, reparsed.windup_time);
    assert_eq!(parsed.silent, reparsed.silent);
    assert_eq!(parsed.toggle, reparsed.toggle);
}

#[test]
fn round_trip_of_every_kind() {
    for line in [
        "on wheel up after chat closed after town do click right silent",
        "toggle key f5 on map on focus on blur on transition",
        "on mana 0% after es 100% after 7s every 0 do key 0x1234",
        "on life 0 do price",
        "on key 9 do invite",
        "on key q do downscale",
        "on key q do upscale",
        "on key Q do type Hello   World  again",
    ] {
        let parsed = rule(line);
        let text = parsed.to_string();
        let reparsed = rule(&text);
        assert_eq!(parsed.pre, reparsed.pre, "{}", text);
        assert_eq!(parsed.after_pre, reparsed.after_pre, "{}", text);
        assert_eq!(parsed.post, reparsed.post, "{}", text);
        assert_eq!(parsed.delay, reparsed.delay, "{}", text);
        assert_eq!(parsed.windup_time, reparsed.windup_time, "{}", text);
        assert_eq!(parsed.silent, reparsed.silent, "{}", text);
        assert_eq!(parsed.toggle, reparsed.toggle, "{}", text);
    }
}

#[test]
fn written_form() {
    assert_eq!(
        rule("on wheel up after chat closed after town do click right silent").to_string(),
        "on wheel up after chat closed after town silent do click right"
    );
    assert_eq!(
        rule("toggle key f5 on map").to_string(),
        "on map toggle key 0x74"
    );
    assert_eq!(
        rule("on key Q do type Hello   World").to_string(),
        "on key 0x51 do type hello world"
    );
    assert_eq!(rule("on life 25% do disconnect every 0").to_string(), "on life 25% every 0ms do disconnect");
}

#[test]
fn parsed_values() {
    let a = rule("on wheel down on chat opened after focus do click 3 every 1s after 0");
    assert_eq!(
        a.pre,
        vec![
            PreCondition::MouseWheel { dir: Direction::Down },
            PreCondition::Chat { open: Opened::Open }
        ]
    );
    assert_eq!(a.after_pre, vec![(PreCondition::WindowFocus, false)]);
    assert_eq!(a.post, PostCondition::Click { button: MouseButton(Button::Middle) });
    assert_eq!(a.delay, Delay(1000));
    assert_eq!(a.windup_time, Delay(0));
    assert_eq!(a.toggle, None);
    assert!(!a.silent);
    assert_eq!(a.source, "on wheel down on chat opened after focus do click 3 every 1s after 0");
    assert_eq!(rule("on key f1 do key f24").post, PostCondition::PressKey { vk: Vk(0x87) });
    assert_eq!(rule("on key 0x2 toggle disable").toggle, Some(false));
}

#[test]
fn missing_trigger_or_action() {
    assert_eq!(error_kind("on key 0x1"), ErrorKind::MissingAction);
    assert_eq!(error_kind("do disconnect"), ErrorKind::MissingCondition);
    assert_eq!(error_kind("after transition do disconnect"), ErrorKind::MissingCondition);
}

#[test]
fn errors_name_the_word() {
    let e = Action::from_line("on key z do dance").unwrap_err();
    assert_eq!(e.kind, ErrorKind::UnknownAction);
    assert_eq!(e.word, "dance");
    let e = Action::from_line("on key z do disconnect loudly").unwrap_err();
    assert_eq!(e.kind, ErrorKind::UnexpectedKeyword);
    assert_eq!(e.word, "loudly");
    assert_eq!(error_kind("on health 5 do disconnect"), ErrorKind::UnknownCondition);
    assert_eq!(error_kind("on key z after soon do disconnect"), ErrorKind::UnknownDuration);
    assert_eq!(error_kind("on key z every 5xs do disconnect"), ErrorKind::InvalidDuration);
    assert_eq!(error_kind("on key z every 99999999999999999999s do disconnect"), ErrorKind::InvalidDuration);
    assert_eq!(error_kind("on life lots do disconnect"), ErrorKind::InvalidValue);
    assert_eq!(error_kind("on life -5 do disconnect"), ErrorKind::NegativeValue);
    assert_eq!(error_kind("on life 101% do disconnect"), ErrorKind::PercentTooLarge);
    assert_eq!(error_kind("on key 0x10000 do disconnect"), ErrorKind::InvalidHexKey);
    assert_eq!(error_kind("on key f256 do disconnect"), ErrorKind::InvalidFunctionKey);
    assert_eq!(error_kind("on key ab do disconnect"), ErrorKind::UnmappedKey);
    assert_eq!(error_kind("on key ! do disconnect"), ErrorKind::UnmappedKey);
    assert_eq!(error_kind("on wheel left do disconnect"), ErrorKind::InvalidDirection);
    assert_eq!(error_kind("on chat ajar do disconnect"), ErrorKind::InvalidOpened);
    assert_eq!(error_kind("on key z do click 4"), ErrorKind::InvalidButton);
    assert_eq!(error_kind("on key z do disconnect after"), ErrorKind::UnfinishedAfter);
    assert_eq!(error_kind("on key z do disconnect after life"), ErrorKind::UnfinishedAfter);
}

#[test]
fn percent_signs_are_trimmed() {
    assert_eq!(
        rule("on life 50%% do disconnect").pre,
        vec![PreCondition::LifeBelow { threshold: Value::Percent(50) }]
    );
    assert_eq!(
        rule("on mana +7 do disconnect").pre,
        vec![PreCondition::ManaBelow { threshold: Value::Flat(7) }]
    );
}

#[test]
fn threshold_semantics() {
    let life30 = PreCondition::LifeBelow { threshold: Value::Percent(30) };
    let flat = PreCondition::LifeBelow { threshold: Value::Flat(300) };
    let at = |hp: i32, max: i32| GameState { player: Some(player(hp, max)), ..empty_state() };
    assert!(life30.is_valid(&at(30, 100)));
    assert!(!life30.is_valid(&at(31, 100)));
    assert!(life30.is_valid(&at(299, 1000)));
    assert!(!life30.is_valid(&at(301, 1000)));
    assert!(life30.is_valid(&at(20, 67)));
    assert!(!life30.is_valid(&at(21, 67)));
    assert!(flat.is_valid(&at(300, 5000)));
    assert!(!flat.is_valid(&at(301, 5000)));
    assert!(Value::Percent(29).above(29, 100));
    assert!(!life30.is_valid(&empty_state()));
}

#[test]
fn dead_player_reads_nothing() {
    assert_eq!(player(0, 100).reading(), None);
    assert_eq!(player(-1, 100).reading(), None);
    assert_eq!(player(1, 100).reading(), Some(player(1, 100)));
    let state = GameState { player: player(0, 100).reading(), ..empty_state() };
    for c in [
        PreCondition::LifeBelow { threshold: Value::Percent(100) },
        PreCondition::EnergyBelow { threshold: Value::Flat(1_000_000) },
        PreCondition::ManaBelow { threshold: Value::Percent(100) },
    ] {
        assert!(!c.is_valid(&state));
    }
}

#[test]
fn suspicious_readings() {
    assert!(!player(50, 100).suspicious());
    assert!(player(0, 100).suspicious());
    assert!(player(101, 100).suspicious());
    assert!(player(50, 12001).suspicious());
    let mut m = player(50, 100);
    m.mana.unreserved_mana = -1;
    assert!(m.suspicious());
}

#[test]
fn other_sensors() {
    let mut s = empty_state();
    s.area = Some(LogState { in_town: Some(true), just_transitioned: true });
    s.focus = Some(FocusState { in_foreground: false });
    s.mouse = Some(MouseState { scrolled_up: true, scrolled_down: false });
    s.screen = Some(ScreenState { chat_open: Opened::Open });
    assert!(PreCondition::InArea { town: true }.is_valid(&s));
    assert!(!PreCondition::InArea { town: false }.is_valid(&s));
    assert!(PreCondition::JustTransitioned.is_valid(&s));
    assert!(PreCondition::WindowBlur.is_valid(&s));
    assert!(!PreCondition::WindowFocus.is_valid(&s));
    assert!(PreCondition::MouseWheel { dir: Direction::Up }.is_valid(&s));
    assert!(!PreCondition::MouseWheel { dir: Direction::Down }.is_valid(&s));
    assert!(PreCondition::Chat { open: Opened::Open }.is_valid(&s));
    s.area = Some(LogState { in_town: None, just_transitioned: false });
    assert!(!PreCondition::InArea { town: true }.is_valid(&s));
    assert!(!PreCondition::InArea { town: false }.is_valid(&s));
    assert!(PreCondition::WindowBlur.needs(PreRequirement::Focus));
    assert!(!PreCondition::KeyPress { vk: Vk(1) }.needs(PreRequirement::Focus));
}

#[test]
fn latch_needs_a_sighting_since_last_firing() {
    let mut a = rule("on key z after transition do disconnect every 0");
    let transition = |held: &[u16], seen: bool| GameState {
        area: Some(LogState { in_town: None, just_transitioned: seen }),
        ..keys(held)
    };
    assert_eq!(a.tick(&transition(&[0x5A], false), 10, false), None);
    assert_eq!(a.tick(&transition(&[], true), 20, false), None);
    assert_eq!(a.tick(&transition(&[0x5A], false), 30, false), Some(TriggerResult::Triggered));
    assert_eq!(a.tick(&transition(&[0x5A], false), 40, false), None);
    assert_eq!(a.tick(&transition(&[0x5A], true), 50, false), Some(TriggerResult::Triggered));
}

#[test]
fn refire_interval() {
    let mut a = rule("on key z do disconnect");
    let held = keys(&[0x5A]);
    assert_eq!(a.tick(&held, 1000, false), Some(TriggerResult::Triggered));
    for now in [1001, 1200, 1499, 1500] {
        assert_eq!(a.tick(&held, now, false), None);
    }
    assert_eq!(a.tick(&held, 1501, false), Some(TriggerResult::Triggered));
    assert_eq!(a.last_trigger, Some(1501));
}

#[test]
fn windup_queues_then_fires() {
    let mut a = rule("on key z do disconnect after 100ms");
    let held = keys(&[0x5A]);
    assert_eq!(a.tick(&held, 1000, false), Some(TriggerResult::Queued));
    assert_eq!(a.tick(&keys(&[]), 1050, false), Some(TriggerResult::Delayed));
    assert_eq!(a.tick(&keys(&[]), 1100, false), Some(TriggerResult::Triggered));
    assert_eq!(a.windup_start, None);
    assert_eq!(a.tick(&held, 1200, false), None);
}

#[test]
fn toggle_hysteresis() {
    let mut a = rule("on key z toggle disable every 0");
    let held = keys(&[0x5A]);
    a.try_toggle(&held);
    assert_eq!(a.toggle, Some(true));
    for _ in 0..5 {
        a.try_toggle(&held);
        assert_eq!(a.toggle, Some(true));
    }
    a.try_toggle(&keys(&[]));
    assert_eq!(a.toggle, Some(true));
    a.try_toggle(&held);
    assert_eq!(a.toggle, Some(false));
    a.try_toggle(&held);
    assert_eq!(a.toggle, Some(false));
}

#[test]
fn load_skips_bad_lines() {
    let mut lines: Vec<String> = (0..9).map(|i| format!("on key {} do disconnect", i)).collect();
    lines.insert(4, "on key 1 do juggle".to_string());
    lines.push("// a comment".to_string());
    lines.push("   ".to_string());
    let (set, warnings) = ActionSet::from_lines(&lines);
    assert_eq!(set.actions.len(), 9);
    assert_eq!(warnings.len(), 1);
    assert_eq!(warnings[0].0, 4);
    assert_eq!(warnings[0].1.kind, ErrorKind::UnknownAction);
    assert_eq!(warnings[0].1.word, "juggle");
}

#[test]
fn rule_set_pass_and_key_suppression() {
    let lines: Vec<String> = [
        "on key a do key b every 0",
        "on chat open do disable every 0",
        "on chat closed do enable every 0",
        "on wheel up do disconnect",
    ]
    .iter()
    .map(|s| s.to_string())
    .collect();
    let (mut set, warnings) = ActionSet::from_lines(&lines);
    assert!(warnings.is_empty());
    assert!(set.needs(PreRequirement::Screen));
    assert!(set.needs(PreRequirement::Mouse));
    assert!(set.needs_mouse_hook());
    assert!(!set.needs(PreRequirement::Player));
    let mut state = keys(&[0x41]);
    state.screen = Some(ScreenState { chat_open: Opened::Open });
    let out = set.check_all(&state, 10);
    assert_eq!(out, vec![(0, TriggerResult::Triggered), (1, TriggerResult::Triggered)]);
    assert!(set.inhibit_key_presses);
    let out = set.check_all(&state, 20);
    assert_eq!(out, vec![(1, TriggerResult::Triggered)]);
    state.screen = Some(ScreenState { chat_open: Opened::Closed });
    let out = set.check_all(&state, 30);
    assert_eq!(out, vec![(2, TriggerResult::Triggered)]);
    assert!(!set.inhibit_key_presses);
    let out = set.check_all(&state, 40);
    assert_eq!(out, vec![(0, TriggerResult::Triggered), (2, TriggerResult::Triggered)]);
}

#[test]
fn action_results() {
    assert_eq!(
        rule("on key a do disable").post.result(),
        PostResult::SetKeySuppression { suppress: true }
    );
    assert_eq!(rule("on key a do destroy").post.result(), PostResult::Nothing);
    assert!(rule("on key a do key b").post.is_key_press());
    assert!(!rule("on key a do click left").post.is_key_press());
}
