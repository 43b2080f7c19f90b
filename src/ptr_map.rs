//! Pointer chains: the offsets that lead from a module's base address to a
//! value in another process's memory, as kept in the calibration file.
use vstd::prelude::*;
use crate::text::{
    has_prefix, hex_str, push_all, push_hex, push_str, slice, split_words, starts_with,
    string_of, unsigned_of, views, words,
};
use crate::types::{error_at, ErrorKind, ParseError};

verus! {

/// A pointer chain: the first offset is added to the base address, each
/// further one to the value read at the address before it.
#[derive(Clone, Debug, PartialEq, Eq)]
pub struct PtrMap {
    pub offsets: Vec<u64>,
}

/// `s` without its commas.
pub open spec fn without_commas(s: Seq<char>) -> Seq<char>
    decreases s.len(),
{
    if s.len() == 0 {
        seq![]
    } else if s.last() == ',' {
        without_commas(s.drop_last())
    } else {
        without_commas(s.drop_last()).push(s.last())
    }
}

/// The number written by one word: `0x`/`0X` and hexadecimal digits, or decimal digits.
pub open spec fn offset_of(w: Seq<char>) -> Option<u64> {
    let n = if has_prefix(w, "0x"@) || has_prefix(w, "0X"@) {
        unsigned_of(w.subrange(2, w.len() as int), 16)
    } else {
        unsigned_of(w, 10)
    };
    match n {
        Some(v) => if v <= u64::MAX {
            Some(v as u64)
        } else {
            None
        },
        None => None,
    }
}

/// The offsets of the words, or the index of the first that is not a number.
pub open spec fn offsets_of(ws: Seq<Seq<char>>) -> Result<Seq<u64>, int>
    decreases ws.len(),
{
    if ws.len() == 0 {
        Ok(seq![])
    } else {
        match offsets_of(ws.drop_last()) {
            Err(i) => Err(i),
            Ok(os) => match offset_of(ws.last()) {
                Some(v) => Ok(os.push(v)),
                None => Err(ws.len() - 1),
            },
        }
    }
}

/// `n` as eight or more capital hexadecimal digits.
pub open spec fn hex8_str(n: nat) -> Seq<char> {
    let h = hex_str(n);
    if h.len() < 8 {
        Seq::new((8 - h.len()) as nat, |i: int| '0') + h
    } else {
        h
    }
}

/// The tail of a chain as written: `, 0x<hex>` for each offset.
pub open spec fn tail_text(os: Seq<u64>) -> Seq<char>
    decreases os.len(),
{
    if os.len() == 0 {
        seq![]
    } else {
        tail_text(os.drop_last()) + ", 0x"@ + hex_str(os.last() as nat)
    }
}

/// A chain as written in the calibration file.
pub open spec fn chain_text(os: Seq<u64>) -> Seq<char> {
    "0x"@ + hex8_str(os[0] as nat) + tail_text(os.drop_first())
}

/// `base + delta`, wrapped around the 64-bit range.
pub open spec fn wrapped(base: u64, delta: i64) -> u64 {
    if base + delta > u64::MAX {
        (base + delta - 0x1_0000_0000_0000_0000) as u64
    } else if base + delta < 0 {
        (base + delta + 0x1_0000_0000_0000_0000) as u64
    } else {
        (base + delta) as u64
    }
}

fn remove_commas(s: &Vec<char>) -> (r: Vec<char>)
    ensures
        r@ == without_commas(s@),
{
    let mut r: Vec<char> = Vec::new();
    let mut i: usize = 0;
    while i < s.len()
        invariant
            i <= s.len(),
            r@ == without_commas(s@.subrange(0, i as int)),
        decreases s.len() - i,
    {
        assert(s@.subrange(0, i + 1).drop_last() =~= s@.subrange(0, i as int));
        if s[i] != ',' {
            r.push(s[i]);
        }
        i = i + 1;
    }
    assert(s@.subrange(0, i as int) =~= s@);
    r
}

fn parse_offset(w: &Vec<char>) -> (r: Option<u64>)
    ensures
        r == offset_of(w@),
{
    let n = if starts_with(w, "0x") || starts_with(w, "0X") {
        proof {
            reveal_strlit("0x");
            reveal_strlit("0X");
        }
        let rest = slice(w, 2, w.len());
        crate::text::parse_unsigned(&rest, 16)
    } else {
        crate::text::parse_unsigned(w, 10)
    };
    n
}

impl PtrMap {
    pub open spec fn wf(&self) -> bool {
        self.offsets@.len() > 0
    }

    /// Reads a chain: numbers separated by white space, commas ignored.
    pub fn from_text(s: &str) -> (r: Result<PtrMap, ParseError>)
        ensures
            match offsets_of(words(without_commas(s@))) {
                Ok(os) => if os.len() > 0 {
                    r matches Ok(m) && m.offsets@ == os
                } else {
                    r matches Err(e) && e.kind == ErrorKind::EmptyPointerMap
                },
                Err(i) => r matches Err(e) && e.kind == ErrorKind::InvalidOffset && e.word@ == words(
                    without_commas(s@),
                )[i],
            },
    {
        let cs = crate::text::chars_of(s);
        let cleaned = remove_commas(&cs);
        let ws = split_words(&cleaned);
        let ghost all = words(without_commas(s@));
        let mut offsets: Vec<u64> = Vec::new();
        let mut i: usize = 0;
        while i < ws.len()
            invariant
                i <= ws.len(),
                views(ws@) == all,
                all == words(without_commas(s@)),
                offsets_of(all.subrange(0, i as int)) == Ok::<Seq<u64>, int>(offsets@),
            decreases ws.len() - i,
        {
            assert(all.subrange(0, i + 1).drop_last() =~= all.subrange(0, i as int));
            assert(all[i as int] == ws@[i as int]@);
            match parse_offset(&ws[i]) {
                Some(v) => offsets.push(v),
                None => {
                    proof {
                        lemma_offsets_error_stays(all, i as int + 1);
                    }
                    return Err(error_at(ErrorKind::InvalidOffset, &ws[i]));
                },
            }
            i = i + 1;
        }
        assert(all.subrange(0, i as int) =~= all);
        if offsets.len() == 0 {
            return Err(ParseError { kind: ErrorKind::EmptyPointerMap, word: String::new() });
        }
        Ok(PtrMap { offsets })
    }

    /// Moves the base offset by `delta`, wrapping around.
    pub fn nudge_base(&mut self, delta: i64)
        requires
            old(self).wf(),
        ensures
            final(self).offsets@ == old(self).offsets@.update(0, wrapped(old(self).offsets@[0], delta)),
    {
        let v = self.offsets[0].wrapping_add_signed(delta);
        self.offsets.set(0, v);
    }

    /// The chain as written in the calibration file.
    pub fn to_string(&self) -> (r: String)
        requires
            self.wf(),
        ensures
            r@ == chain_text(self.offsets@),
    {
        let mut out: Vec<char> = Vec::new();
        push_str(&mut out, "0x");
        let mut h: Vec<char> = Vec::new();
        push_hex(&mut h, self.offsets[0]);
        let mut k: usize = h.len();
        let ghost before = out@;
        while k < 8
            invariant
                h.len() <= k <= 8 || (k == h.len() && k >= 8),
                out@ == before + Seq::new((k - h.len()) as nat, |i: int| '0'),
            decreases 8 - k,
        {
            out.push('0');
            k = k + 1;
            assert(out@ =~= before + Seq::new((k - h.len()) as nat, |i: int| '0'));
        }
        push_all(&mut out, &h);
        assert(out@ =~= "0x"@ + hex8_str(self.offsets@[0] as nat)) by {
            if h.len() >= 8 {
                assert(Seq::new((k - h.len()) as nat, |i: int| '0') =~= Seq::<char>::empty());
            }
        }
        let ghost head = out@;
        let ghost rest = self.offsets@.drop_first();
        let mut i: usize = 1;
        while i < self.offsets.len()
            invariant
                1 <= i <= self.offsets.len(),
                rest == self.offsets@.drop_first(),
                out@ == head + tail_text(rest.subrange(0, i - 1)),
            decreases self.offsets.len() - i,
        {
            push_str(&mut out, ", 0x");
            push_hex(&mut out, self.offsets[i]);
            assert(rest.subrange(0, i as int).drop_last() =~= rest.subrange(0, i - 1));
            i = i + 1;
            assert(out@ =~= head + tail_text(rest.subrange(0, i - 1)));
        }
        assert(rest.subrange(0, i - 1) =~= rest);
        string_of(&out)
    }
}

proof fn lemma_offsets_error_stays(ws: Seq<Seq<char>>, n: int)
    requires
        0 <= n <= ws.len(),
        offsets_of(ws.subrange(0, n)) is Err,
    ensures
        offsets_of(ws) == offsets_of(ws.subrange(0, n)),
    decreases ws.len() - n,
{
    if n < ws.len() {
        assert(ws.subrange(0, n + 1).drop_last() =~= ws.subrange(0, n));
        lemma_offsets_error_stays(ws, n + 1);
    } else {
        assert(ws.subrange(0, n) =~= ws);
    }
}

} // verus!
