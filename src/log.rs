//! The client log: area changes and finished transitions, read line by line.
use vstd::prelude::*;
use crate::pre::LogState;
use crate::text::{
    chars_of, ends_with, has_prefix, has_suffix, is_space, is_space_char, slice, starts_with,
};

verus! {

/// The first index at or after `from` where `s` holds `c`.
pub open spec fn find_from(s: Seq<char>, c: char, from: nat) -> Option<nat>
    decreases s.len() - from,
{
    if from >= s.len() {
        None
    } else if s[from as int] == c {
        Some(from)
    } else {
        find_from(s, c, from + 1)
    }
}

/// `s` without its leading white space.
pub open spec fn skip_spaces(s: Seq<char>) -> Seq<char>
    decreases s.len(),
{
    if s.len() > 0 && is_space(s[0]) {
        skip_spaces(s.drop_first())
    } else {
        s
    }
}

/// The message of a log line: what follows its first `]`, without leading space.
pub open spec fn message(l: Seq<char>) -> Option<Seq<char>> {
    match find_from(l, ']', 0) {
        Some(i) => Some(skip_spaces(l.subrange(i as int + 1, l.len() as int))),
        None => None,
    }
}

/// The name between the first two quotes of `m`.
pub open spec fn quoted(m: Seq<char>) -> Option<Seq<char>> {
    match find_from(m, '"', 0) {
        Some(a) => match find_from(m, '"', a + 1) {
            Some(b) => Some(m.subrange(a as int + 1, b as int)),
            None => None,
        },
        None => None,
    }
}

/// Whether the line reports a new area, and if so whether it is a town.
pub open spec fn line_area(l: Seq<char>) -> Option<bool> {
    match message(l) {
        Some(m) => if has_prefix(m, "Generating level"@) {
            match quoted(m) {
                Some(level) => Some(has_suffix(level, "_town"@)),
                None => None,
            }
        } else {
            None
        },
        None => None,
    }
}

/// Whether the line reports that an area finished loading.
pub open spec fn line_transition(l: Seq<char>) -> bool {
    match message(l) {
        Some(m) => !has_prefix(m, "Generating level"@) && has_prefix(m, "[SHADER] Delay: ON"@),
        None => false,
    }
}

/// The area after reading `ls`, starting from `init`: the last area reported.
pub open spec fn area_after(ls: Seq<Seq<char>>, init: Option<bool>) -> Option<bool>
    decreases ls.len(),
{
    if ls.len() == 0 {
        init
    } else {
        match line_area(ls.last()) {
            Some(t) => Some(t),
            None => area_after(ls.drop_last(), init),
        }
    }
}

fn find(s: &Vec<char>, c: char, from: usize) -> (r: Option<usize>)
    requires
        from <= s.len(),
    ensures
        r matches Some(i) ==> from <= i < s.len() && find_from(s@, c, from as nat) == Some(i as nat),
        r is None ==> find_from(s@, c, from as nat) is None,
    decreases s.len() - from,
{
    if from >= s.len() {
        None
    } else if s[from] == c {
        Some(from)
    } else {
        find(s, c, from + 1)
    }
}

fn skip_leading(s: &Vec<char>, from: usize) -> (r: Vec<char>)
    requires
        from <= s.len(),
    ensures
        r@ == skip_spaces(s@.subrange(from as int, s.len() as int)),
    decreases s.len() - from,
{
    if from < s.len() && is_space_char(s[from]) {
        assert(s@.subrange(from as int, s.len() as int).drop_first() =~= s@.subrange(from + 1, s.len() as int));
        skip_leading(s, from + 1)
    } else {
        slice(s, from, s.len())
    }
}

fn read_message(l: &Vec<char>) -> (r: Option<Vec<char>>)
    ensures
        match message(l@) {
            Some(m) => r matches Some(v) && v@ == m,
            None => r is None,
        },
{
    match find(l, ']', 0) {
        Some(i) => {
            let m = skip_leading(l, i + 1);
            Some(m)
        },
        None => None,
    }
}

/// Reads the area a line reports, if any.
pub fn area_of_line(l: &str) -> (r: Option<bool>)
    ensures
        r == line_area(l@),
{
    let cs = chars_of(l);
    match read_message(&cs) {
        None => None,
        Some(m) => {
            if !starts_with(&m, "Generating level") {
                return None;
            }
            match find(&m, '"', 0) {
                None => None,
                Some(a) => match find(&m, '"', a + 1) {
                    None => None,
                    Some(b) => {
                        let level = slice(&m, a + 1, b);
                        Some(ends_with(&level, "_town"))
                    },
                },
            }
        },
    }
}

/// Whether a line reports that an area finished loading.
pub fn transition_in_line(l: &str) -> (r: bool)
    ensures
        r == line_transition(l@),
{
    let cs = chars_of(l);
    match read_message(&cs) {
        None => false,
        Some(m) => !starts_with(&m, "Generating level") && starts_with(&m, "[SHADER] Delay: ON"),
    }
}

/// Follows the client log: remembers the last area it reported.
pub struct LogChecker {
    pub in_town: Option<bool>,
}

impl LogChecker {
    pub fn new() -> (r: LogChecker)
        ensures
            r.in_town is None,
    {
        LogChecker { in_town: None }
    }

    /// Reads the lines added to the log since the last call.
    pub fn check(&mut self, lines: &Vec<String>) -> (r: LogState)
        ensures
            final(self).in_town == area_after(lines@.map_values(|l: String| l@), old(self).in_town),
            r.in_town == final(self).in_town,
            r.just_transitioned == exists|i: int| 0 <= i < lines@.len() && line_transition(#[trigger] lines@[i]@),
    {
        let ghost ls = lines@.map_values(|l: String| l@);
        let ghost init = self.in_town;
        let mut transitioned = false;
        let mut i: usize = 0;
        while i < lines.len()
            invariant
                i <= lines.len(),
                ls == lines@.map_values(|l: String| l@),
                self.in_town == area_after(ls.subrange(0, i as int), init),
                transitioned == exists|j: int| 0 <= j < i && line_transition(#[trigger] lines@[j]@),
            decreases lines.len() - i,
        {
            assert(ls.subrange(0, i + 1).drop_last() =~= ls.subrange(0, i as int));
            assert(ls.subrange(0, i + 1).last() == lines@[i as int]@);
            let line = lines[i].as_str();
            match area_of_line(line) {
                Some(t) => {
                    self.in_town = Some(t);
                },
                None => {},
            }
            if transition_in_line(line) {
                transitioned = true;
            }
            i = i + 1;
        }
        assert(ls.subrange(0, i as int) =~= ls);
        LogState { in_town: self.in_town, just_transitioned: transitioned }
    }
}

} // verus!
