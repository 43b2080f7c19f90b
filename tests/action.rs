use rshacks::action::Action;
use rshacks::pre::PreCondition;
use rshacks::types::{Delay, Value, Vk};

fn action(line: &str) -> Action {
    Action::from_line(line).unwrap().unwrap()
}

#[test]
fn empty_action() {
    assert_eq!(Action::from_line("\t  \n"), Ok(None));
}

#[test]
fn comment_action() {
    assert_eq!(Action::from_line("// on key 0x1 do disconnect"), Ok(None));
}

#[test]
fn pre_no_post() {
    assert!(Action::from_line("on key 0x1").is_err());
}

#[test]
fn post_no_pre() {
    assert!(Action::from_line("do disconnect").is_err());
}

#[test]
fn life_percent() {
    assert_eq!(
        action("on life 50% do disconnect").pre,
        vec![PreCondition::LifeBelow {
            threshold: Value::Percent(50)
        }]
    );
}

#[test]
fn life_flat() {
    assert_eq!(
        action("on life 1000 do disconnect").pre,
        vec![PreCondition::LifeBelow {
            threshold: Value::Flat(1000)
        }]
    );
}

#[test]
fn es_percent() {
    assert_eq!(
        action("on es 50% do disconnect").pre,
        vec![PreCondition::EnergyBelow {
            threshold: Value::Percent(50)
        }]
    );
}

#[test]
fn es_flat() {
    assert_eq!(
        action("on es 1000 do disconnect").pre,
        vec![PreCondition::EnergyBelow {
            threshold: Value::Flat(1000)
        }]
    );
}

#[test]
fn mana_percent() {
    assert_eq!(
        action("on mana 50% do disconnect").pre,
        vec![PreCondition::ManaBelow {
            threshold: Value::Percent(50)
        }]
    );
}

#[test]
fn mana_flat() {
    assert_eq!(
        action("on mana 1000 do disconnect").pre,
        vec![PreCondition::ManaBelow {
            threshold: Value::Flat(1000)
        }]
    );
}

#[test]
fn after_delay() {
    assert_eq!(
        action("on life 1000 do disconnect every 1000ms after 140ms").windup_time,
        Delay(140)
    );
}

#[test]
fn after_pre() {
    assert_eq!(
        action("on key 0x01 after transition do flask 2 every 0").after_pre,
        vec![(PreCondition::JustTransitioned, false)]
    );
}

#[test]
fn key() {
    assert_eq!(
        action("on key z do disconnect").pre,
        vec![PreCondition::KeyPress { vk: Vk(0x5A) }]
    );
    assert_eq!(
        action("on key Z do disconnect").pre,
        vec![PreCondition::KeyPress { vk: Vk(0x5A) }]
    );
    assert_eq!(
        action("on key 6 do disconnect").pre,
        vec![PreCondition::KeyPress { vk: Vk(0x36) }]
    );
    assert_eq!(
        action("on key F11 do disconnect").pre,
        vec![PreCondition::KeyPress { vk: Vk(0x7A) }]
    );
    assert_eq!(
        action("on key 0x2 do disconnect").pre,
        vec![PreCondition::KeyPress { vk: Vk(0x02) }]
    );
}

#[test]
fn key_synonyms() {
    assert_eq!(
        action("on key Z do disconnect").pre,
        action("on flask Z do disconnect").pre
    );
    assert_eq!(
        action("on key Z do disconnect").pre,
        action("on skill Z do disconnect").pre
    );
}

fn parse_self(line: &str) {
    let parsed = action(line);
    let reparsed = action(&parsed.to_string());
    assert_eq!(parsed.pre, reparsed.pre);
    assert_eq!(parsed.after_pre, reparsed.after_pre);
    assert_eq!(parsed.post, reparsed.post);
    assert_eq!(parsed.delay, reparsed.delay);
    assert_eq!(parsed.windup_time, reparsed.windup_time);
    assert_eq!(parsed.silent, reparsed.silent);
}

#[test]
fn parse_self_display() {
    parse_self("on life 50% do disconnect");
    parse_self("do disconnect on life 1000");
    parse_self("every 200ms on es 50% do disconnect");
    parse_self("on es 1000 every 200ms do disconnect");
    parse_self("on mana 50% do disconnect every 200ms");
    parse_self("do disconnect every 200ms on mana 1000");
    parse_self("every 200ms on key z do type test after 50ms");
    parse_self("do destroy on key Z every 200ms after transition");
    parse_self("on chat open after chat closed do disable");
    parse_self("on key A do disable silent");
    parse_self("on key B do enable");
}

#[test]
fn display() {
    assert_eq!(
        action("on key Z do disconnect every 2s").to_string(),
        "on key 0x5A every 2000ms do disconnect"
    );

    assert_eq!(
        action("on key A every 200ms do disconnect after 10ms on key Z every 300ms after 30ms do type test")
            .to_string(),
        "on key 0x41 on key 0x5A every 300ms after 30ms do type test"
    );
}
