//! Characters, words and numbers: the lexical layer of the rule language.
use vstd::prelude::*;

verus! {

/// Whether `c` is white space (Unicode's White_Space property).
pub open spec fn is_space(c: char) -> bool {
    ||| c == ' '
    ||| ('\t' <= c && c <= '\r')
    ||| c == '\u{85}'
    ||| c == '\u{A0}'
    ||| c == '\u{1680}'
    ||| ('\u{2000}' <= c && c <= '\u{200A}')
    ||| c == '\u{2028}'
    ||| c == '\u{2029}'
    ||| c == '\u{202F}'
    ||| c == '\u{205F}'
    ||| c == '\u{3000}'
}

pub fn is_space_char(c: char) -> (r: bool)
    ensures
        r == is_space(c),
{
    c == ' ' || ('\t' <= c && c <= '\r') || c == '\u{85}' || c == '\u{A0}' || c == '\u{1680}'
        || ('\u{2000}' <= c && c <= '\u{200A}') || c == '\u{2028}' || c == '\u{2029}'
        || c == '\u{202F}' || c == '\u{205F}' || c == '\u{3000}'
}

/// The words found in the first `n` characters of `s`, as the pair of the
/// finished words and the word still being read.
pub open spec fn scan(s: Seq<char>, n: nat) -> (Seq<Seq<char>>, Seq<char>)
    decreases n,
{
    if n == 0 || n > s.len() {
        (seq![], seq![])
    } else {
        let (done, cur) = scan(s, (n - 1) as nat);
        let c = s[n - 1];
        if is_space(c) {
            if cur.len() > 0 {
                (done.push(cur), seq![])
            } else {
                (done, seq![])
            }
        } else {
            (done, cur.push(c))
        }
    }
}

/// The maximal runs of non-space characters of `s`, in order.
pub open spec fn words(s: Seq<char>) -> Seq<Seq<char>> {
    let (done, cur) = scan(s, s.len());
    if cur.len() > 0 {
        done.push(cur)
    } else {
        done
    }
}

/// `c` with an ASCII capital letter made small; every other character is kept.
pub open spec fn lower(c: char) -> char {
    if 'A' <= c && c <= 'Z' {
        ((c as u8) + 32) as char
    } else {
        c
    }
}

pub open spec fn lower_word(w: Seq<char>) -> Seq<char> {
    w.map_values(|c: char| lower(c))
}

/// Relies on `str::chars`, collected into a `Vec`: the characters of `s` in order.
#[verifier::external_body]
pub(crate) fn chars_of(s: &str) -> (r: Vec<char>)
    ensures
        r@ == s@,
{
    s.chars().collect()
}

/// Relies on `String: FromIterator<&char>` (`collect`): the string of the characters of `v`.
#[verifier::external_body]
pub(crate) fn string_of(v: &Vec<char>) -> (r: String)
    ensures
        r@ == v@,
{
    v.iter().collect()
}

pub fn lower_char(c: char) -> (r: char)
    ensures
        r == lower(c),
{
    if 'A' <= c && c <= 'Z' {
        ((c as u8) + 32) as char
    } else {
        c
    }
}

pub fn lowercase(w: &Vec<char>) -> (r: Vec<char>)
    ensures
        r@ == lower_word(w@),
{
    let mut r: Vec<char> = Vec::new();
    let mut i: usize = 0;
    while i < w.len()
        invariant
            i <= w.len(),
            r@ == lower_word(w@.subrange(0, i as int)),
        decreases w.len() - i,
    {
        r.push(lower_char(w[i]));
        i = i + 1;
        assert(lower_word(w@.subrange(0, i as int)) =~= lower_word(w@.subrange(0, i - 1)).push(
            lower(w@[i - 1]),
        ));
    }
    assert(w@.subrange(0, w.len() as int) =~= w@);
    r
}

pub open spec fn views(v: Seq<Vec<char>>) -> Seq<Seq<char>> {
    v.map_values(|w: Vec<char>| w@)
}

/// Splits `s` into its words.
pub fn split_words(s: &Vec<char>) -> (r: Vec<Vec<char>>)
    ensures
        views(r@) == words(s@),
{
    let mut done: Vec<Vec<char>> = Vec::new();
    let mut cur: Vec<char> = Vec::new();
    let mut i: usize = 0;
    while i < s.len()
        invariant
            i <= s.len(),
            (views(done@), cur@) == scan(s@, i as nat),
        decreases s.len() - i,
    {
        let c = s[i];
        if is_space_char(c) {
            if cur.len() > 0 {
                let w = cur;
                done.push(w);
                cur = Vec::new();
            }
        } else {
            cur.push(c);
        }
        i = i + 1;
        assert(views(done@) =~= scan(s@, i as nat).0);
        assert(cur@ =~= scan(s@, i as nat).1);
    }
    if cur.len() > 0 {
        done.push(cur);
        assert(views(done@) =~= words(s@));
    }
    done
}

/// Whether `w` starts with `p`.
pub open spec fn has_prefix(w: Seq<char>, p: Seq<char>) -> bool {
    p.len() <= w.len() && w.subrange(0, p.len() as int) == p
}

/// Whether `w` ends with `p`.
pub open spec fn has_suffix(w: Seq<char>, p: Seq<char>) -> bool {
    p.len() <= w.len() && w.subrange(w.len() - p.len(), w.len() as int) == p
}

pub fn starts_with(w: &Vec<char>, p: &str) -> (r: bool)
    ensures
        r == has_prefix(w@, p@),
{
    let pc = chars_of(p);
    if pc.len() > w.len() {
        return false;
    }
    let mut i: usize = 0;
    while i < pc.len()
        invariant
            i <= pc.len() <= w.len(),
            pc@ == p@,
            w@.subrange(0, i as int) == pc@.subrange(0, i as int),
        decreases pc.len() - i,
    {
        if w[i] != pc[i] {
            assert(w@.subrange(0, pc.len() as int)[i as int] != pc@[i as int]);
            return false;
        }
        i = i + 1;
        assert(w@.subrange(0, i as int) =~= pc@.subrange(0, i as int));
    }
    assert(pc@.subrange(0, i as int) =~= pc@);
    true
}

pub fn ends_with(w: &Vec<char>, p: &str) -> (r: bool)
    ensures
        r == has_suffix(w@, p@),
{
    let pc = chars_of(p);
    if pc.len() > w.len() {
        return false;
    }
    let off = w.len() - pc.len();
    let mut i: usize = 0;
    while i < pc.len()
        invariant
            i <= pc.len() <= w.len(),
            off == w.len() - pc.len(),
            pc@ == p@,
            w@.subrange(off as int, off + i) == pc@.subrange(0, i as int),
        decreases pc.len() - i,
    {
        if w[off + i] != pc[i] {
            assert(w@.subrange(off as int, w.len() as int)[i as int] != pc@[i as int]);
            return false;
        }
        i = i + 1;
        assert(w@.subrange(off as int, off + i) =~= pc@.subrange(0, i as int));
    }
    assert(pc@.subrange(0, i as int) =~= pc@);
    true
}

/// Whether the word is exactly the given literal.
pub fn is_word(w: &Vec<char>, p: &str) -> (r: bool)
    ensures
        r == (w@ == p@),
{
    let pc = chars_of(p);
    if pc.len() != w.len() {
        return false;
    }
    let mut i: usize = 0;
    while i < pc.len()
        invariant
            i <= pc.len() == w.len(),
            pc@ == p@,
            w@.subrange(0, i as int) == pc@.subrange(0, i as int),
        decreases pc.len() - i,
    {
        if w[i] != pc[i] {
            return false;
        }
        i = i + 1;
        assert(w@.subrange(0, i as int) =~= pc@.subrange(0, i as int));
    }
    assert(w@ =~= w@.subrange(0, i as int));
    assert(pc@ =~= pc@.subrange(0, i as int));
    true
}

/// The characters `w[from..to]`.
pub fn slice(w: &Vec<char>, from: usize, to: usize) -> (r: Vec<char>)
    requires
        from <= to <= w.len(),
    ensures
        r@ == w@.subrange(from as int, to as int),
{
    let mut r: Vec<char> = Vec::new();
    let mut i: usize = from;
    while i < to
        invariant
            from <= i <= to <= w.len(),
            r@ == w@.subrange(from as int, i as int),
        decreases to - i,
    {
        r.push(w[i]);
        i = i + 1;
        assert(r@ =~= w@.subrange(from as int, i as int));
    }
    r
}

/// The value of a digit in the given radix, if it is one (either case for letters).
pub open spec fn digit_value(c: char, radix: nat) -> Option<nat> {
    let v: int = if '0' <= c && c <= '9' {
        c as int - '0' as int
    } else if 'a' <= c && c <= 'z' {
        c as int - 'a' as int + 10
    } else if 'A' <= c && c <= 'Z' {
        c as int - 'A' as int + 10
    } else {
        radix as int
    };
    if 0 <= v < radix {
        Some(v as nat)
    } else {
        None
    }
}

pub open spec fn all_digits(s: Seq<char>, radix: nat) -> bool {
    forall|i: int| 0 <= i < s.len() ==> (#[trigger] digit_value(s[i], radix)).is_some()
}

/// The number written by the digits of `s`, most significant first.
pub open spec fn digits_value(s: Seq<char>, radix: nat) -> nat
    decreases s.len(),
{
    if s.len() == 0 {
        0
    } else {
        digits_value(s.drop_last(), radix) * radix + digit_value(s.last(), radix).unwrap_or(0)
    }
}

/// What std's parse of an unsigned integer reads from `s`: an optional `+`
/// and at least one digit. The value is unbounded here.
pub open spec fn unsigned_of(s: Seq<char>, radix: nat) -> Option<nat> {
    let body = if s.len() > 0 && s[0] == '+' {
        s.drop_first()
    } else {
        s
    };
    if body.len() > 0 && all_digits(body, radix) {
        Some(digits_value(body, radix))
    } else {
        None
    }
}

/// What std's parse of a signed integer reads from `s`: an optional sign and
/// at least one digit.
pub open spec fn signed_of(s: Seq<char>) -> Option<int> {
    if s.len() > 0 && s[0] == '-' {
        let body = s.drop_first();
        if body.len() > 0 && all_digits(body, 10) {
            Some(-digits_value(body, 10))
        } else {
            None
        }
    } else {
        match unsigned_of(s, 10) {
            Some(n) => Some(n as int),
            None => None,
        }
    }
}

pub proof fn lemma_digits_value_grows(s: Seq<char>, t: Seq<char>, radix: nat)
    requires
        radix >= 1,
    ensures
        digits_value(s + t, radix) >= digits_value(s, radix),
    decreases t.len(),
{
    if t.len() > 0 {
        let u = s + t.drop_last();
        assert((s + t).drop_last() =~= u);
        lemma_digits_value_grows(s, t.drop_last(), radix);
        assert(digits_value(u, radix) * radix >= digits_value(u, radix)) by (nonlinear_arith)
            requires
                radix >= 1,
        ;
    }
}

fn digit_of(c: char, radix: u32) -> (r: Option<u32>)
    requires
        2 <= radix <= 36,
    ensures
        r matches Some(v) ==> digit_value(c, radix as nat) == Some(v as nat),
        r is None ==> digit_value(c, radix as nat) is None,
{
    let v: u32 = if '0' <= c && c <= '9' {
        (c as u32) - ('0' as u32)
    } else if 'a' <= c && c <= 'z' {
        (c as u32) - ('a' as u32) + 10
    } else if 'A' <= c && c <= 'Z' {
        (c as u32) - ('A' as u32) + 10
    } else {
        radix
    };
    if v < radix {
        Some(v)
    } else {
        None
    }
}

/// Reads digits `s[from..]` in the given radix; `None` when one is not a digit,
/// when there are none, or when the value does not fit in a `u64`.
fn digits_u64(s: &Vec<char>, from: usize, radix: u32) -> (r: Option<u64>)
    requires
        from <= s.len(),
        2 <= radix <= 36,
    ensures
        ({
            let body = s@.subrange(from as int, s.len() as int);
            match r {
                Some(v) => body.len() > 0 && all_digits(body, radix as nat) && v == digits_value(
                    body,
                    radix as nat,
                ),
                None => !(body.len() > 0 && all_digits(body, radix as nat) && digits_value(
                    body,
                    radix as nat,
                ) <= u64::MAX),
            }
        }),
{
    if from == s.len() {
        return None;
    }
    let ghost body = s@.subrange(from as int, s.len() as int);
    let mut acc: u64 = 0;
    let mut i: usize = from;
    while i < s.len()
        invariant
            from <= i <= s.len(),
            2 <= radix <= 36,
            body == s@.subrange(from as int, s.len() as int),
            all_digits(s@.subrange(from as int, i as int), radix as nat),
            acc == digits_value(s@.subrange(from as int, i as int), radix as nat),
        decreases s.len() - i,
    {
        let ghost pre = s@.subrange(from as int, i as int);
        let ghost next = s@.subrange(from as int, i + 1);
        assert(next.drop_last() =~= pre);
        assert(next.last() == s@[i as int]);
        match digit_of(s[i], radix) {
            None => {
                assert(!all_digits(body, radix as nat)) by {
                    assert(body[i - from] == s@[i as int]);
                }
                return None;
            },
            Some(d) => {
                let m = acc.checked_mul(radix as u64);
                match m {
                    None => {
                        proof {
                            assert(body =~= next + s@.subrange(i + 1, s.len() as int));
                            lemma_digits_value_grows(next, s@.subrange(i + 1, s.len() as int), radix as nat);
                        }
                        return None;
                    },
                    Some(m) => {
                        match m.checked_add(d as u64) {
                            None => {
                                proof {
                                    assert(body =~= next + s@.subrange(i + 1, s.len() as int));
                                    lemma_digits_value_grows(next, s@.subrange(i + 1, s.len() as int), radix as nat);
                                }
                                return None;
                            },
                            Some(v) => {
                                acc = v;
                            },
                        }
                    },
                }
            },
        }
        i = i + 1;
        assert(all_digits(next, radix as nat)) by {
            assert forall|k: int| 0 <= k < next.len() implies #[trigger] digit_value(next[k], radix as nat).is_some() by {
                if k < pre.len() {
                    assert(next[k] == pre[k]);
                }
            }
        }
    }
    assert(s@.subrange(from as int, i as int) =~= body);
    Some(acc)
}

/// std's parse of a `u64` in the given radix.
pub fn parse_unsigned(s: &Vec<char>, radix: u32) -> (r: Option<u64>)
    requires
        2 <= radix <= 36,
    ensures
        match unsigned_of(s@, radix as nat) {
            Some(n) => if n <= u64::MAX {
                r == Some(n as u64)
            } else {
                r is None
            },
            None => r is None,
        },
{
    let from: usize = if s.len() > 0 && s[0] == '+' {
        1
    } else {
        0
    };
    proof {
        if from == 1 {
            assert(s@.subrange(1, s.len() as int) =~= s@.drop_first());
        } else {
            assert(s@.subrange(0, s.len() as int) =~= s@);
        }
    }
    digits_u64(s, from, radix)
}

/// std's parse of an `i64` magnitude with an optional sign: `Some` exactly when
/// the text is a signed decimal number whose magnitude fits a `u64`.
pub fn parse_signed(s: &Vec<char>) -> (r: Option<(bool, u64)>)
    ensures
        match r {
            Some((neg, m)) => signed_of(s@) == Some(if neg {
                -(m as int)
            } else {
                m as int
            }),
            None => match signed_of(s@) {
                Some(v) => v > u64::MAX || v < -u64::MAX,
                None => true,
            },
        },
{
    if s.len() > 0 && s[0] == '-' {
        proof {
            assert(s@.subrange(1, s.len() as int) =~= s@.drop_first());
        }
        match digits_u64(s, 1, 10) {
            Some(m) => Some((true, m)),
            None => None,
        }
    } else {
        match parse_unsigned(s, 10) {
            Some(m) => Some((false, m)),
            None => None,
        }
    }
}

pub open spec fn digit_char(d: nat) -> char {
    if d < 10 {
        ((d + 48) as u8) as char
    } else {
        ((d + 55) as u8) as char
    }
}

/// `n` in decimal.
pub open spec fn dec_str(n: nat) -> Seq<char>
    decreases n,
{
    if n < 10 {
        seq![digit_char(n)]
    } else {
        dec_str(n / 10).push(digit_char(n % 10))
    }
}

/// `n` in hexadecimal with capital letters.
pub open spec fn hex_str(n: nat) -> Seq<char>
    decreases n,
{
    if n < 16 {
        seq![digit_char(n)]
    } else {
        hex_str(n / 16).push(digit_char(n % 16))
    }
}

/// `n` in hexadecimal with capital letters, at least two digits long.
pub open spec fn hex2_str(n: nat) -> Seq<char> {
    if n < 16 {
        seq!['0', digit_char(n)]
    } else {
        hex_str(n)
    }
}

fn digit_to_char(d: u64) -> (c: char)
    requires
        d < 16,
    ensures
        c == digit_char(d as nat),
{
    if d < 10 {
        ((d + 48) as u8) as char
    } else {
        ((d + 55) as u8) as char
    }
}

/// Appends `n` in decimal.
pub fn push_dec(out: &mut Vec<char>, n: u64)
    ensures
        final(out)@ == old(out)@ + dec_str(n as nat),
    decreases n,
{
    if n >= 10 {
        push_dec(out, n / 10);
    }
    out.push(digit_to_char(n % 10));
}

/// Appends `n` in hexadecimal with capital letters.
pub fn push_hex(out: &mut Vec<char>, n: u64)
    ensures
        final(out)@ == old(out)@ + hex_str(n as nat),
    decreases n,
{
    if n >= 16 {
        push_hex(out, n / 16);
    }
    out.push(digit_to_char(n % 16));
}

/// Appends the characters of a literal.
pub fn push_str(out: &mut Vec<char>, s: &str)
    ensures
        final(out)@ == old(out)@ + s@,
{
    let cs = chars_of(s);
    let mut i: usize = 0;
    let ghost start = out@;
    while i < cs.len()
        invariant
            i <= cs.len(),
            cs@ == s@,
            out@ == start + cs@.subrange(0, i as int),
        decreases cs.len() - i,
    {
        out.push(cs[i]);
        i = i + 1;
        assert(out@ =~= start + cs@.subrange(0, i as int));
    }
    assert(cs@.subrange(0, i as int) =~= cs@);
}

/// Appends the characters of `w`.
pub fn push_all(out: &mut Vec<char>, w: &Vec<char>)
    ensures
        final(out)@ == old(out)@ + w@,
{
    let mut i: usize = 0;
    let ghost start = out@;
    while i < w.len()
        invariant
            i <= w.len(),
            out@ == start + w@.subrange(0, i as int),
        decreases w.len() - i,
    {
        out.push(w[i]);
        i = i + 1;
        assert(out@ =~= start + w@.subrange(0, i as int));
    }
    assert(w@.subrange(0, i as int) =~= w@);
}

/// Scanning depends only on the characters scanned.
pub proof fn lemma_scan_prefix(s: Seq<char>, t: Seq<char>, n: nat)
    requires
        n <= s.len(),
        n <= t.len(),
        s.subrange(0, n as int) == t.subrange(0, n as int),
    ensures
        scan(s, n) == scan(t, n),
    decreases n,
{
    if n > 0 {
        assert(s.subrange(0, n - 1) =~= s.subrange(0, n as int).subrange(0, n - 1));
        assert(t.subrange(0, n - 1) =~= t.subrange(0, n as int).subrange(0, n - 1));
        lemma_scan_prefix(s, t, (n - 1) as nat);
        assert(s[n - 1] == s.subrange(0, n as int)[n - 1]);
        assert(t[n - 1] == t.subrange(0, n as int)[n - 1]);
    }
}

/// Scanning `x + y` where `x` ends between words scans `y` on from the words of `x`.
proof fn lemma_scan_shift(x: Seq<char>, y: Seq<char>, n: nat)
    requires
        n <= y.len(),
        scan(x, x.len()).1.len() == 0,
    ensures
        scan(x + y, x.len() + n) == (scan(x, x.len()).0 + scan(y, n).0, scan(y, n).1),
    decreases n,
{
    if n == 0 {
        assert((x + y).subrange(0, x.len() as int) =~= x.subrange(0, x.len() as int));
        lemma_scan_prefix(x + y, x, x.len());
        assert(scan(x, x.len()).0 + seq![] =~= scan(x, x.len()).0);
    } else {
        lemma_scan_shift(x, y, (n - 1) as nat);
        assert((x + y)[x.len() + n - 1] == y[n - 1]);
        let (d, c) = scan(y, (n - 1) as nat);
        let dx = scan(x, x.len()).0;
        assert((dx + d).push(c) =~= dx + d.push(c));
    }
}

/// The words of `a + b`, where `a` is empty or ends with white space, are those
/// of `a` followed by those of `b`.
pub proof fn lemma_words_append(a: Seq<char>, b: Seq<char>)
    requires
        a.len() == 0 || is_space(a.last()),
    ensures
        words(a + b) == words(a) + words(b),
{
    if a.len() == 0 {
        assert(a + b =~= b);
        assert(scan(a, 0) == (Seq::<Seq<char>>::empty(), Seq::<char>::empty()));
        assert(words(a) =~= Seq::<Seq<char>>::empty());
        assert(words(a) + words(b) =~= words(b));
    } else {
        lemma_scan_shift(a, b, b.len());
        assert(scan(a, a.len()).1.len() == 0);
        assert(words(a) == scan(a, a.len()).0);
        let (d, c) = scan(b, b.len());
        if c.len() > 0 {
            assert((scan(a, a.len()).0 + d).push(c) =~= scan(a, a.len()).0 + d.push(c));
        }
    }
}

/// A trailing space adds no word.
pub proof fn lemma_words_trailing_space(a: Seq<char>)
    ensures
        words(a.push(' ')) == words(a),
{
    let s = a.push(' ');
    assert(s.subrange(0, a.len() as int) =~= a.subrange(0, a.len() as int));
    lemma_scan_prefix(s, a, a.len());
}

/// Whether `w` is one word: not empty, without white space.
pub open spec fn is_token(w: Seq<char>) -> bool {
    w.len() > 0 && forall|i: int| 0 <= i < w.len() ==> !is_space(#[trigger] w[i])
}

proof fn lemma_scan_token(w: Seq<char>, n: nat)
    requires
        is_token(w),
        n <= w.len(),
    ensures
        scan(w, n) == (Seq::<Seq<char>>::empty(), w.subrange(0, n as int)),
    decreases n,
{
    if n > 0 {
        lemma_scan_token(w, (n - 1) as nat);
        assert(w.subrange(0, n - 1).push(w[n - 1]) =~= w.subrange(0, n as int));
    } else {
        assert(w.subrange(0, 0) =~= Seq::<char>::empty());
    }
}

/// A single word is its only word.
pub proof fn lemma_words_token(w: Seq<char>)
    requires
        is_token(w),
    ensures
        words(w) == seq![w],
{
    lemma_scan_token(w, w.len());
    assert(w.subrange(0, w.len() as int) =~= w);
    assert(Seq::<Seq<char>>::empty().push(w) =~= seq![w]);
}

/// The words of `t + " "`, when `t` is one word.
pub proof fn lemma_words_token_space(t: Seq<char>)
    requires
        is_token(t),
    ensures
        words(t + " "@) == seq![t],
{
    reveal_strlit(" ");
    assert(t + " "@ =~= t.push(' '));
    lemma_words_trailing_space(t);
    lemma_words_token(t);
}

/// Words joined by single spaces, as a typed text is built.
pub open spec fn join(ws: Seq<Seq<char>>) -> Seq<char>
    decreases ws.len(),
{
    if ws.len() == 0 {
        seq![]
    } else if join(ws.drop_last()).len() == 0 {
        ws.last()
    } else {
        join(ws.drop_last()) + " "@ + ws.last()
    }
}

} // verus!
