//! Sensor readings, the snapshot they form on each tick, and the trigger
//! conditions that rules evaluate against it.
use vstd::prelude::*;
use crate::text::push_str;
use crate::types::{
    below, direction_text, key_text, opened_text, value_text, Direction, Opened, Value, Vk,
};

verus! {

/// Life and energy shield of the player.
#[derive(Clone, Copy, Debug, PartialEq, Eq, Structural)]
pub struct Health {
    pub hp: i32,
    pub max_hp: i32,
    pub unreserved_hp: i32,
    pub es: i32,
    pub max_es: i32,
}

/// Mana of the player.
#[derive(Clone, Copy, Debug, PartialEq, Eq, Structural)]
pub struct Mana {
    pub mana: i32,
    pub max_mana: i32,
    pub unreserved_mana: i32,
}

/// A reading of the player's vitals.
#[derive(Clone, Copy, Debug, PartialEq, Eq, Structural)]
pub struct MemoryState {
    pub health: Health,
    pub mana: Mana,
}

/// Largest maximum life that a real character can have.
pub const SUSPICIOUS_MAX_HEALTH: i32 = 12000;

/// Largest maximum energy shield that a real character can have.
pub const SUSPICIOUS_MAX_ENERGY: i32 = 15000;

/// Largest maximum mana that a real character can have.
pub const SUSPICIOUS_MAX_MANA: i32 = 12000;

/// Whether a reading holds values that no living character has: the sign that
/// the memory was read at the wrong place.
pub open spec fn is_suspicious(m: MemoryState) -> bool {
    let h = m.health;
    let n = m.mana;
    ||| h.hp < 1
    ||| h.max_hp > SUSPICIOUS_MAX_HEALTH
    ||| h.hp > h.max_hp
    ||| h.unreserved_hp < 1
    ||| h.unreserved_hp > h.max_hp
    ||| h.es < 0
    ||| h.max_es > SUSPICIOUS_MAX_ENERGY
    ||| h.es > h.max_es
    ||| n.mana < 0
    ||| n.max_mana > SUSPICIOUS_MAX_MANA
    ||| n.mana > n.max_mana
    ||| n.unreserved_mana < 0
    ||| n.unreserved_mana > n.max_mana
}

impl MemoryState {
    /// Whether the values look out of the physical range (see [`is_suspicious`]).
    pub fn suspicious(&self) -> (r: bool)
        ensures
            r == is_suspicious(*self),
    {
        let h = &self.health;
        let n = &self.mana;
        h.hp < 1 || h.max_hp > SUSPICIOUS_MAX_HEALTH || h.hp > h.max_hp || h.unreserved_hp < 1
            || h.unreserved_hp > h.max_hp || h.es < 0 || h.max_es > SUSPICIOUS_MAX_ENERGY || h.es
            > h.max_es || n.mana < 0 || n.max_mana > SUSPICIOUS_MAX_MANA || n.mana > n.max_mana
            || n.unreserved_mana < 0 || n.unreserved_mana > n.max_mana
    }

    /// The reading as the snapshot holds it: absent when the life is zero or
    /// below (a dead character, or one still loading), else the reading itself.
    pub fn reading(self) -> (r: Option<MemoryState>)
        ensures
            r == player_reading(self),
    {
        if self.health.hp <= 0 {
            None
        } else {
            Some(self)
        }
    }
}

pub open spec fn player_reading(m: MemoryState) -> Option<MemoryState> {
    if m.health.hp <= 0 {
        None
    } else {
        Some(m)
    }
}

/// What the log says of the current area.
#[derive(Clone, Copy, Debug, PartialEq, Eq, Structural)]
pub struct LogState {
    /// Whether the area is a town; `None` while no area change has been seen.
    pub in_town: Option<bool>,
    /// Whether an area change finished since the last reading.
    pub just_transitioned: bool,
}

/// Whether the watched process owns the foreground window.
#[derive(Clone, Copy, Debug, PartialEq, Eq, Structural)]
pub struct FocusState {
    pub in_foreground: bool,
}

/// Whether the mouse wheel turned since the last reading.
#[derive(Clone, Copy, Debug, PartialEq, Eq, Structural)]
pub struct MouseState {
    pub scrolled_up: bool,
    pub scrolled_down: bool,
}

/// Whether the chat window is open, as the screen shows it.
#[derive(Clone, Copy, Debug, PartialEq, Eq, Structural)]
pub struct ScreenState {
    pub chat_open: Opened,
}

/// The readings of one tick. A reading is `None` when its sensor failed or
/// was never needed.
#[derive(Clone, Debug)]
pub struct GameState {
    pub area: Option<LogState>,
    pub focus: Option<FocusState>,
    pub mouse: Option<MouseState>,
    pub player: Option<MemoryState>,
    pub screen: Option<ScreenState>,
    /// The virtual keys held down during this tick.
    pub held_keys: Vec<u16>,
}

/// A kind of sensor that a condition reads.
#[derive(Clone, Copy, Debug, PartialEq, Eq, Structural)]
pub enum PreRequirement {
    Area,
    Focus,
    Mouse,
    Player,
    Screen,
}

/// A trigger condition.
#[derive(Clone, Copy, Debug, PartialEq, Eq, Structural)]
pub enum PreCondition {
    LifeBelow { threshold: Value },
    EnergyBelow { threshold: Value },
    ManaBelow { threshold: Value },
    KeyPress { vk: Vk },
    MouseWheel { dir: Direction },
    InArea { town: bool },
    JustTransitioned,
    Chat { open: Opened },
    WindowFocus,
    WindowBlur,
}

/// Whether condition `c` holds in snapshot `s`; a condition whose reading is
/// absent does not hold.
pub open spec fn holds(c: PreCondition, s: GameState) -> bool {
    match c {
        PreCondition::LifeBelow { threshold } => match s.player {
            Some(p) => below(threshold, p.health.hp, p.health.max_hp),
            None => false,
        },
        PreCondition::EnergyBelow { threshold } => match s.player {
            Some(p) => below(threshold, p.health.es, p.health.max_es),
            None => false,
        },
        PreCondition::ManaBelow { threshold } => match s.player {
            Some(p) => below(threshold, p.mana.mana, p.mana.max_mana),
            None => false,
        },
        PreCondition::KeyPress { vk } => s.held_keys@.contains(vk.0),
        PreCondition::MouseWheel { dir } => match s.mouse {
            Some(m) => match dir {
                Direction::Up => m.scrolled_up,
                Direction::Down => m.scrolled_down,
            },
            None => false,
        },
        PreCondition::InArea { town } => match s.area {
            Some(a) => a.in_town == Some(town),
            None => false,
        },
        PreCondition::JustTransitioned => match s.area {
            Some(a) => a.just_transitioned,
            None => false,
        },
        PreCondition::Chat { open } => match s.screen {
            Some(sc) => sc.chat_open == open,
            None => false,
        },
        PreCondition::WindowFocus => match s.focus {
            Some(f) => f.in_foreground,
            None => false,
        },
        PreCondition::WindowBlur => match s.focus {
            Some(f) => !f.in_foreground,
            None => false,
        },
    }
}

/// The sensor that condition `c` reads, if any (a key is read directly).
pub open spec fn requirement(c: PreCondition) -> Option<PreRequirement> {
    match c {
        PreCondition::LifeBelow { .. } => Some(PreRequirement::Player),
        PreCondition::EnergyBelow { .. } => Some(PreRequirement::Player),
        PreCondition::ManaBelow { .. } => Some(PreRequirement::Player),
        PreCondition::KeyPress { .. } => None,
        PreCondition::MouseWheel { .. } => Some(PreRequirement::Mouse),
        PreCondition::InArea { .. } => Some(PreRequirement::Area),
        PreCondition::JustTransitioned => Some(PreRequirement::Area),
        PreCondition::Chat { .. } => Some(PreRequirement::Screen),
        PreCondition::WindowFocus => Some(PreRequirement::Focus),
        PreCondition::WindowBlur => Some(PreRequirement::Focus),
    }
}

/// A condition as it is written in a rule.
pub open spec fn condition_text(c: PreCondition) -> Seq<char> {
    match c {
        PreCondition::LifeBelow { threshold } => "life "@ + value_text(threshold),
        PreCondition::EnergyBelow { threshold } => "es "@ + value_text(threshold),
        PreCondition::ManaBelow { threshold } => "mana "@ + value_text(threshold),
        PreCondition::KeyPress { vk } => "key "@ + key_text(vk),
        PreCondition::MouseWheel { dir } => "wheel "@ + direction_text(dir),
        PreCondition::InArea { town } => if town {
            "town"@
        } else {
            "map"@
        },
        PreCondition::JustTransitioned => "transition"@,
        PreCondition::Chat { open } => "chat "@ + opened_text(open),
        PreCondition::WindowFocus => "focus"@,
        PreCondition::WindowBlur => "blur"@,
    }
}

fn key_held(keys: &Vec<u16>, vk: u16) -> (r: bool)
    ensures
        r == keys@.contains(vk),
{
    let mut i: usize = 0;
    while i < keys.len()
        invariant
            i <= keys.len(),
            forall|j: int| 0 <= j < i ==> keys@[j] != vk,
        decreases keys.len() - i,
    {
        if keys[i] == vk {
            assert(keys@[i as int] == vk);
            return true;
        }
        i = i + 1;
    }
    false
}

impl PreCondition {
    /// Whether the condition holds in the snapshot.
    pub fn is_valid(&self, state: &GameState) -> (r: bool)
        ensures
            r == holds(*self, *state),
    {
        match self {
            PreCondition::LifeBelow { threshold } => match &state.player {
                Some(p) => threshold.above(p.health.hp, p.health.max_hp),
                None => false,
            },
            PreCondition::EnergyBelow { threshold } => match &state.player {
                Some(p) => threshold.above(p.health.es, p.health.max_es),
                None => false,
            },
            PreCondition::ManaBelow { threshold } => match &state.player {
                Some(p) => threshold.above(p.mana.mana, p.mana.max_mana),
                None => false,
            },
            PreCondition::KeyPress { vk } => key_held(&state.held_keys, vk.0),
            PreCondition::MouseWheel { dir } => match &state.mouse {
                Some(m) => match dir {
                    Direction::Up => m.scrolled_up,
                    Direction::Down => m.scrolled_down,
                },
                None => false,
            },
            PreCondition::InArea { town } => match &state.area {
                Some(a) => match a.in_town {
                    Some(t) => t == *town,
                    None => false,
                },
                None => false,
            },
            PreCondition::JustTransitioned => match &state.area {
                Some(a) => a.just_transitioned,
                None => false,
            },
            PreCondition::Chat { open } => match &state.screen {
                Some(sc) => sc.chat_open == *open,
                None => false,
            },
            PreCondition::WindowFocus => match &state.focus {
                Some(f) => f.in_foreground,
                None => false,
            },
            PreCondition::WindowBlur => match &state.focus {
                Some(f) => !f.in_foreground,
                None => false,
            },
        }
    }

    /// Whether the condition reads the given sensor.
    pub fn needs(&self, requirement: PreRequirement) -> (r: bool)
        ensures
            r == (crate::pre::requirement(*self) == Some(requirement)),
    {
        match self {
            PreCondition::LifeBelow { .. } | PreCondition::EnergyBelow { .. }
            | PreCondition::ManaBelow { .. } => requirement == PreRequirement::Player,
            PreCondition::KeyPress { .. } => false,
            PreCondition::MouseWheel { .. } => requirement == PreRequirement::Mouse,
            PreCondition::InArea { .. } | PreCondition::JustTransitioned => requirement
                == PreRequirement::Area,
            PreCondition::Chat { .. } => requirement == PreRequirement::Screen,
            PreCondition::WindowFocus | PreCondition::WindowBlur => requirement
                == PreRequirement::Focus,
        }
    }

    /// Appends the condition as it is written in a rule.
    pub fn push_text(&self, out: &mut Vec<char>)
        ensures
            final(out)@ == old(out)@ + condition_text(*self),
    {
        let ghost start = out@;
        match self {
            PreCondition::LifeBelow { threshold } => {
                push_str(out, "life ");
                threshold.push_text(out);
            },
            PreCondition::EnergyBelow { threshold } => {
                push_str(out, "es ");
                threshold.push_text(out);
            },
            PreCondition::ManaBelow { threshold } => {
                push_str(out, "mana ");
                threshold.push_text(out);
            },
            PreCondition::KeyPress { vk } => {
                push_str(out, "key ");
                vk.push_text(out);
            },
            PreCondition::MouseWheel { dir } => {
                push_str(out, "wheel ");
                dir.push_text(out);
            },
            PreCondition::InArea { town } => {
                if *town {
                    push_str(out, "town");
                } else {
                    push_str(out, "map");
                }
            },
            PreCondition::JustTransitioned => push_str(out, "transition"),
            PreCondition::Chat { open } => {
                push_str(out, "chat ");
                open.push_text(out);
            },
            PreCondition::WindowFocus => push_str(out, "focus"),
            PreCondition::WindowBlur => push_str(out, "blur"),
        }
        assert(out@ =~= start + condition_text(*self));
    }
}

/// A threshold condition compares the current amount with its maximum: with a
/// percentage `p` it holds exactly when `current * 100 <= p * max`, with a flat
/// amount `f` exactly when `current <= f`.
pub proof fn lemma_threshold_semantics(t: Value, s: GameState)
    requires
        s.player is Some,
    ensures
        ({
            let h = s.player.unwrap().health;
            holds(PreCondition::LifeBelow { threshold: t }, s) <==> match t {
                Value::Percent(p) => h.hp * 100 <= p * h.max_hp,
                Value::Flat(f) => h.hp <= f,
            }
        }),
        ({
            let h = s.player.unwrap().health;
            holds(PreCondition::EnergyBelow { threshold: t }, s) <==> match t {
                Value::Percent(p) => h.es * 100 <= p * h.max_es,
                Value::Flat(f) => h.es <= f,
            }
        }),
        ({
            let m = s.player.unwrap().mana;
            holds(PreCondition::ManaBelow { threshold: t }, s) <==> match t {
                Value::Percent(p) => m.mana * 100 <= p * m.max_mana,
                Value::Flat(f) => m.mana <= f,
            }
        }),
{
}

/// A reading whose life is zero or below leaves the snapshot without a player,
/// so no condition on the player's vitals holds against it.
pub proof fn lemma_dead_player_reads_nothing(raw: MemoryState, s: GameState, c: PreCondition)
    requires
        raw.health.hp <= 0,
        s.player == player_reading(raw),
    ensures
        s.player is None,
        requirement(c) == Some(PreRequirement::Player) ==> !holds(c, s),
{
}

} // verus!
