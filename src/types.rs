//! The value types of the rule language: thresholds, keys, durations,
//! directions, chat states and mouse buttons, each read from one word.
use vstd::prelude::*;
use crate::text::{
    dec_str, ends_with, has_prefix, has_suffix, hex2_str, is_word,
    parse_signed, parse_unsigned, push_dec, push_hex, push_str, signed_of, slice, starts_with,
    unsigned_of,
};

verus! {

/// Why a rule line could not be read.
#[derive(Clone, Copy, Debug, PartialEq, Eq, Structural)]
pub enum ErrorKind {
    /// A word where a keyword (`on`, `do`, `toggle`, `every`, `after`, `silent`) was due.
    UnexpectedKeyword,
    /// A word after `on` or `after` that names no condition.
    UnknownCondition,
    /// A word after `do` or `toggle` that names no action.
    UnknownAction,
    /// A duration without a unit.
    UnknownDuration,
    /// A duration whose number is not valid.
    InvalidDuration,
    /// A threshold that is not a number.
    InvalidValue,
    /// A negative threshold.
    NegativeValue,
    /// A percentage above one hundred.
    PercentTooLarge,
    /// A `0x` key code that is not a 16-bit hexadecimal number.
    InvalidHexKey,
    /// An `f<N>` function key whose number is not a byte.
    InvalidFunctionKey,
    /// A key word that names no virtual key.
    UnmappedKey,
    /// A wheel direction other than `up` or `down`.
    InvalidDirection,
    /// A chat state other than open or closed.
    InvalidOpened,
    /// A mouse button other than left, right or middle.
    InvalidButton,
    /// The line ends right after `after` or before its condition is complete.
    UnfinishedAfter,
    /// The rule has no trigger condition.
    MissingCondition,
    /// The rule has no action.
    MissingAction,
    /// A pointer chain without any offset.
    EmptyPointerMap,
    /// A pointer offset that is not a decimal or `0x` hexadecimal number.
    InvalidOffset,
}

/// A parse error: its kind and the word it is about (empty for the errors of a whole line).
#[derive(Clone, Debug, PartialEq, Eq)]
pub struct ParseError {
    pub kind: ErrorKind,
    pub word: String,
}

pub fn error_at(kind: ErrorKind, word: &Vec<char>) -> (e: ParseError)
    ensures
        e.kind == kind,
        e.word@ == word@,
{
    ParseError { kind, word: crate::text::string_of(word) }
}

/// A threshold: a percentage of a maximum, or a flat amount.
#[derive(Clone, Copy, Debug, PartialEq, Eq, Structural)]
pub enum Value {
    /// Whole percentage points, from 0 to 100.
    Percent(u32),
    Flat(i32),
}

/// Whether `current` is at or below the threshold, out of `max`.
pub open spec fn below(v: Value, current: i32, max: i32) -> bool {
    match v {
        Value::Percent(p) => current * 100 <= p * max,
        Value::Flat(f) => current <= f,
    }
}

/// `w` without its trailing `%` signs.
pub open spec fn trim_percent(w: Seq<char>) -> Seq<char>
    decreases w.len(),
{
    if w.len() > 0 && w.last() == '%' {
        trim_percent(w.drop_last())
    } else {
        w
    }
}

/// The threshold written by a word: `<int>%` or `<int>`.
pub open spec fn value_of(w: Seq<char>) -> Result<Value, ErrorKind> {
    let percent = w.len() > 0 && w.last() == '%';
    match signed_of(trim_percent(w)) {
        None => Err(ErrorKind::InvalidValue),
        Some(v) => if v < i32::MIN || v > i32::MAX {
            Err(ErrorKind::InvalidValue)
        } else if v < 0 {
            Err(ErrorKind::NegativeValue)
        } else if percent {
            if v > 100 {
                Err(ErrorKind::PercentTooLarge)
            } else {
                Ok(Value::Percent(v as u32))
            }
        } else {
            Ok(Value::Flat(v as i32))
        },
    }
}

pub open spec fn value_text(v: Value) -> Seq<char> {
    match v {
        Value::Percent(p) => dec_str(p as nat).push('%'),
        Value::Flat(f) => if f < 0 {
            seq!['-'] + dec_str((-f) as nat)
        } else {
            dec_str(f as nat)
        },
    }
}

impl Value {
    /// Whether `current` is at or below this threshold, out of `max`.
    pub fn above(&self, current: i32, max: i32) -> (r: bool)
        ensures
            r == below(*self, current, max),
    {
        match self {
            Value::Percent(p) => {
                let pp = *p as i128;
                let mm = max as i128;
                assert(-0x1_0000_0000_0000_0000 <= pp * mm <= 0x1_0000_0000_0000_0000) by (nonlinear_arith)
                    requires
                        0 <= pp <= 0xFFFF_FFFF,
                        -0x8000_0000 <= mm <= 0x7FFF_FFFF,
                ;
                (current as i128) * 100 <= pp * mm
            },
            Value::Flat(f) => current <= *f,
        }
    }

    pub fn from_word(w: &Vec<char>) -> (r: Result<Value, ParseError>)
        ensures
            match r {
                Ok(v) => value_of(w@) == Ok::<Value, ErrorKind>(v),
                Err(e) => value_of(w@) == Err::<Value, ErrorKind>(e.kind) && e.word@ == w@,
            },
    {
        let percent = w.len() > 0 && w[w.len() - 1] == '%';
        let mut k: usize = w.len();
        assert(w@.subrange(0, k as int) =~= w@);
        while k > 0 && w[k - 1] == '%'
            invariant
                k <= w.len(),
                trim_percent(w@.subrange(0, k as int)) == trim_percent(w@),
            decreases k,
        {
            assert(w@.subrange(0, k as int).drop_last() =~= w@.subrange(0, k - 1));
            k = k - 1;
        }
        let body = slice(w, 0, k);
        assert(trim_percent(body@) == body@);
        match parse_signed(&body) {
            None => Err(error_at(ErrorKind::InvalidValue, w)),
            Some((neg, m)) => {
                if neg && m > 0 {
                    if m > 2147483648 {
                        Err(error_at(ErrorKind::InvalidValue, w))
                    } else {
                        Err(error_at(ErrorKind::NegativeValue, w))
                    }
                } else if m > 2147483647 {
                    Err(error_at(ErrorKind::InvalidValue, w))
                } else if percent {
                    if m > 100 {
                        Err(error_at(ErrorKind::PercentTooLarge, w))
                    } else {
                        Ok(Value::Percent(m as u32))
                    }
                } else {
                    Ok(Value::Flat(m as i32))
                }
            },
        }
    }

    pub fn push_text(&self, out: &mut Vec<char>)
        ensures
            final(out)@ == old(out)@ + value_text(*self),
    {
        match self {
            Value::Percent(p) => {
                push_dec(out, *p as u64);
                out.push('%');
            },
            Value::Flat(f) => {
                if *f < 0 {
                    out.push('-');
                    push_dec(out, (-(*f as i64)) as u64);
                } else {
                    push_dec(out, *f as u64);
                }
            },
        }
    }
}

/// A virtual key code.
#[derive(Clone, Copy, Debug, PartialEq, Eq, Structural)]
pub struct Vk(pub u16);

/// The first virtual key code of the function keys, less one: `f<N>` is this plus `N`.
pub const FN_KEY_BASE: u16 = 0x6F;

/// The virtual key of a single character: letters and digits, whose codes are
/// those of the capital letter and the digit.
pub open spec fn char_key(c: char) -> Option<u16> {
    if 'a' <= c && c <= 'z' {
        Some((c as u16 - 32) as u16)
    } else if ('A' <= c && c <= 'Z') || ('0' <= c && c <= '9') {
        Some(c as u16)
    } else {
        None
    }
}

/// The key written by a word: `0x<hex>`, `f<N>`, or one letter or digit.
pub open spec fn key_of(w: Seq<char>) -> Result<Vk, ErrorKind> {
    if has_prefix(w, "0x"@) {
        match unsigned_of(w.subrange(2, w.len() as int), 16) {
            Some(n) => if n <= u16::MAX {
                Ok(Vk(n as u16))
            } else {
                Err(ErrorKind::InvalidHexKey)
            },
            None => Err(ErrorKind::InvalidHexKey),
        }
    } else if w.len() == 1 {
        match char_key(w[0]) {
            Some(k) => Ok(Vk(k)),
            None => Err(ErrorKind::UnmappedKey),
        }
    } else if w.len() > 1 && w[0] == 'f' {
        match unsigned_of(w.drop_first(), 10) {
            Some(n) => if n <= u8::MAX {
                Ok(Vk((FN_KEY_BASE + n) as u16))
            } else {
                Err(ErrorKind::InvalidFunctionKey)
            },
            None => Err(ErrorKind::InvalidFunctionKey),
        }
    } else {
        Err(ErrorKind::UnmappedKey)
    }
}

/// A key as it is written back: `0x` and at least two capital hex digits.
pub open spec fn key_text(k: Vk) -> Seq<char> {
    "0x"@ + hex2_str(k.0 as nat)
}

impl Vk {
    pub fn from_word(w: &Vec<char>) -> (r: Result<Vk, ParseError>)
        ensures
            match r {
                Ok(v) => key_of(w@) == Ok::<Vk, ErrorKind>(v),
                Err(e) => key_of(w@) == Err::<Vk, ErrorKind>(e.kind) && e.word@ == w@,
            },
    {
        if starts_with(w, "0x") {
            proof {
                reveal_strlit("0x");
            }
            let rest = slice(w, 2, w.len());
            match parse_unsigned(&rest, 16) {
                Some(n) => if n <= 0xFFFF {
                    Ok(Vk(n as u16))
                } else {
                    Err(error_at(ErrorKind::InvalidHexKey, w))
                },
                None => Err(error_at(ErrorKind::InvalidHexKey, w)),
            }
        } else if w.len() == 1 {
            let c = w[0];
            if 'a' <= c && c <= 'z' {
                Ok(Vk((c as u16) - 32))
            } else if ('A' <= c && c <= 'Z') || ('0' <= c && c <= '9') {
                Ok(Vk(c as u16))
            } else {
                Err(error_at(ErrorKind::UnmappedKey, w))
            }
        } else if w.len() > 1 && w[0] == 'f' {
            let rest = slice(w, 1, w.len());
            assert(rest@ =~= w@.drop_first());
            match parse_unsigned(&rest, 10) {
                Some(n) => if n <= 255 {
                    Ok(Vk(FN_KEY_BASE + n as u16))
                } else {
                    Err(error_at(ErrorKind::InvalidFunctionKey, w))
                },
                None => Err(error_at(ErrorKind::InvalidFunctionKey, w)),
            }
        } else {
            Err(error_at(ErrorKind::UnmappedKey, w))
        }
    }

    pub fn push_text(&self, out: &mut Vec<char>)
        ensures
            final(out)@ == old(out)@ + key_text(*self),
    {
        push_str(out, "0x");
        if self.0 < 16 {
            out.push('0');
            push_hex(out, self.0 as u64);
            proof {
                reveal_with_fuel(crate::text::hex_str, 1);
            }
            assert(final(out)@ =~= old(out)@ + key_text(*self)) by {
                reveal_with_fuel(crate::text::hex_str, 1);
            }
        } else {
            push_hex(out, self.0 as u64);
            assert(out@ =~= old(out)@ + key_text(*self));
        }
    }
}

/// A duration in milliseconds.
#[derive(Clone, Copy, Debug, PartialEq, Eq, Structural)]
pub struct Delay(pub u64);

/// The milliseconds written by a word: `<int>ms`, `<int>s` or `0`.
pub open spec fn duration_of(w: Seq<char>) -> Result<u64, ErrorKind> {
    let (number, factor) = if has_suffix(w, "ms"@) {
        (w.subrange(0, w.len() - 2), 1nat)
    } else if has_suffix(w, "s"@) {
        (w.drop_last(), 1000nat)
    } else if w == "0"@ {
        (w, 0nat)
    } else {
        (w, 2nat)
    };
    if factor == 2 {
        Err(ErrorKind::UnknownDuration)
    } else {
        match unsigned_of(number, 10) {
            Some(n) => if n <= u64::MAX && n * factor <= u64::MAX {
                Ok((n * factor) as u64)
            } else {
                Err(ErrorKind::InvalidDuration)
            },
            None => Err(ErrorKind::InvalidDuration),
        }
    }
}

pub open spec fn duration_text(ms: u64) -> Seq<char> {
    dec_str(ms as nat) + "ms"@
}

impl Delay {
    pub fn from_word(w: &Vec<char>) -> (r: Result<Delay, ParseError>)
        ensures
            match r {
                Ok(d) => duration_of(w@) == Ok::<u64, ErrorKind>(d.0),
                Err(e) => duration_of(w@) == Err::<u64, ErrorKind>(e.kind) && e.word@ == w@,
            },
    {
        let (number, factor): (Vec<char>, u64) = if ends_with(w, "ms") {
            proof {
                reveal_strlit("ms");
            }
            (slice(w, 0, w.len() - 2), 1)
        } else if ends_with(w, "s") {
            proof {
                reveal_strlit("s");
            }
            let n = slice(w, 0, w.len() - 1);
            assert(n@ =~= w@.drop_last());
            (n, 1000)
        } else if is_word(w, "0") {
            (slice(w, 0, w.len()), 0)
        } else {
            return Err(error_at(ErrorKind::UnknownDuration, w));
        };
        assert(w@.subrange(0, w.len() as int) =~= w@);
        match parse_unsigned(&number, 10) {
            Some(n) => match n.checked_mul(factor) {
                Some(v) => Ok(Delay(v)),
                None => Err(error_at(ErrorKind::InvalidDuration, w)),
            },
            None => Err(error_at(ErrorKind::InvalidDuration, w)),
        }
    }

    pub fn push_text(&self, out: &mut Vec<char>)
        ensures
            final(out)@ == old(out)@ + duration_text(self.0),
    {
        push_dec(out, self.0);
        push_str(out, "ms");
        assert(out@ =~= old(out)@ + duration_text(self.0));
    }
}

/// A direction of the mouse wheel.
#[derive(Clone, Copy, Debug, PartialEq, Eq, Structural)]
pub enum Direction {
    Up,
    Down,
}

pub open spec fn direction_of(w: Seq<char>) -> Result<Direction, ErrorKind> {
    if w == "up"@ {
        Ok(Direction::Up)
    } else if w == "down"@ {
        Ok(Direction::Down)
    } else {
        Err(ErrorKind::InvalidDirection)
    }
}

pub open spec fn direction_text(d: Direction) -> Seq<char> {
    match d {
        Direction::Up => "up"@,
        Direction::Down => "down"@,
    }
}

impl Direction {
    pub fn from_word(w: &Vec<char>) -> (r: Result<Direction, ParseError>)
        ensures
            match r {
                Ok(d) => direction_of(w@) == Ok::<Direction, ErrorKind>(d),
                Err(e) => direction_of(w@) == Err::<Direction, ErrorKind>(e.kind) && e.word@ == w@,
            },
    {
        if is_word(w, "up") {
            Ok(Direction::Up)
        } else if is_word(w, "down") {
            Ok(Direction::Down)
        } else {
            Err(error_at(ErrorKind::InvalidDirection, w))
        }
    }

    pub fn push_text(&self, out: &mut Vec<char>)
        ensures
            final(out)@ == old(out)@ + direction_text(*self),
    {
        match self {
            Direction::Up => push_str(out, "up"),
            Direction::Down => push_str(out, "down"),
        }
    }
}

/// Whether the chat window is open.
#[derive(Clone, Copy, Debug, PartialEq, Eq, Structural)]
pub enum Opened {
    Closed,
    Open,
}

pub open spec fn opened_of(w: Seq<char>) -> Result<Opened, ErrorKind> {
    if w == "open"@ || w == "opened"@ {
        Ok(Opened::Open)
    } else if w == "close"@ || w == "closed"@ {
        Ok(Opened::Closed)
    } else {
        Err(ErrorKind::InvalidOpened)
    }
}

pub open spec fn opened_text(o: Opened) -> Seq<char> {
    match o {
        Opened::Open => "opened"@,
        Opened::Closed => "closed"@,
    }
}

impl Opened {
    pub fn from_word(w: &Vec<char>) -> (r: Result<Opened, ParseError>)
        ensures
            match r {
                Ok(o) => opened_of(w@) == Ok::<Opened, ErrorKind>(o),
                Err(e) => opened_of(w@) == Err::<Opened, ErrorKind>(e.kind) && e.word@ == w@,
            },
    {
        if is_word(w, "open") || is_word(w, "opened") {
            Ok(Opened::Open)
        } else if is_word(w, "close") || is_word(w, "closed") {
            Ok(Opened::Closed)
        } else {
            Err(error_at(ErrorKind::InvalidOpened, w))
        }
    }

    pub fn push_text(&self, out: &mut Vec<char>)
        ensures
            final(out)@ == old(out)@ + opened_text(*self),
    {
        match self {
            Opened::Open => push_str(out, "opened"),
            Opened::Closed => push_str(out, "closed"),
        }
    }
}

/// A mouse button.
#[derive(Clone, Copy, Debug, PartialEq, Eq, Structural)]
pub enum Button {
    Left,
    Right,
    Middle,
}

/// The button of a click action.
#[derive(Clone, Copy, Debug, PartialEq, Eq, Structural)]
pub struct MouseButton(pub Button);

pub open spec fn button_of(w: Seq<char>) -> Result<MouseButton, ErrorKind> {
    if w == "left"@ || w == "1"@ {
        Ok(MouseButton(Button::Left))
    } else if w == "right"@ || w == "2"@ {
        Ok(MouseButton(Button::Right))
    } else if w == "middle"@ || w == "3"@ {
        Ok(MouseButton(Button::Middle))
    } else {
        Err(ErrorKind::InvalidButton)
    }
}

pub open spec fn button_text(b: MouseButton) -> Seq<char> {
    match b.0 {
        Button::Left => "left"@,
        Button::Right => "right"@,
        Button::Middle => "middle"@,
    }
}

impl MouseButton {
    pub fn from_word(w: &Vec<char>) -> (r: Result<MouseButton, ParseError>)
        ensures
            match r {
                Ok(b) => button_of(w@) == Ok::<MouseButton, ErrorKind>(b),
                Err(e) => button_of(w@) == Err::<MouseButton, ErrorKind>(e.kind) && e.word@ == w@,
            },
    {
        if is_word(w, "left") || is_word(w, "1") {
            Ok(MouseButton(Button::Left))
        } else if is_word(w, "right") || is_word(w, "2") {
            Ok(MouseButton(Button::Right))
        } else if is_word(w, "middle") || is_word(w, "3") {
            Ok(MouseButton(Button::Middle))
        } else {
            Err(error_at(ErrorKind::InvalidButton, w))
        }
    }

    pub fn push_text(&self, out: &mut Vec<char>)
        ensures
            final(out)@ == old(out)@ + button_text(*self),
    {
        match self.0 {
            Button::Left => push_str(out, "left"),
            Button::Right => push_str(out, "right"),
            Button::Middle => push_str(out, "middle"),
        }
    }
}

} // verus!
