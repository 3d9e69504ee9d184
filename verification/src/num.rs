//! Exact decimal numbers.
//!
//! The file formats write coordinates, sizes and angles as decimal literals
//! with an optional sign and fraction (`-?\d+(\.\d+)?`). [`Decimal`] stores
//! such a value exactly as a count of millionths, which keeps all arithmetic
//! on parsed values exact and lets contracts speak of the mathematical value.

use crate::text;
use vstd::prelude::*;

verus! {

/// Millionths per whole unit.
pub const DECIMAL_SCALE: i64 = 1_000_000;

/// A signed decimal value with six fractional digits of precision,
/// stored as `micros` millionths of a unit.
#[derive(Clone, Copy, Debug, PartialEq, Eq, Hash, Structural)]
pub struct Decimal {
    pub micros: i64,
}

impl View for Decimal {
    type V = int;

    open spec fn view(&self) -> int {
        self.micros as int
    }
}

pub open spec fn is_digit(c: char) -> bool {
    '0' <= c && c <= '9'
}

pub open spec fn digit_val(c: char) -> int {
    c as u32 - '0' as u32
}

/// The value of a digit string read left to right.
pub open spec fn digits_val(s: Seq<char>) -> int
    decreases s.len(),
{
    if s.len() == 0 {
        0
    } else {
        digits_val(s.drop_last()) * 10 + digit_val(s.last())
    }
}

pub open spec fn all_digits(s: Seq<char>) -> bool {
    forall|k: int| 0 <= k < s.len() ==> is_digit(#[trigger] s[k])
}

/// A non-empty run of decimal digits.
pub open spec fn is_digit_seq(s: Seq<char>) -> bool {
    s.len() > 0 && all_digits(s)
}

/// Index of the first occurrence of `c` in `s`, or -1 if absent.
pub open spec fn find_char(s: Seq<char>, c: char) -> int
    decreases s.len(),
{
    if s.len() == 0 {
        -1
    } else if s[0] == c {
        0
    } else {
        let r = find_char(s.skip(1), c);
        if r < 0 {
            -1
        } else {
            r + 1
        }
    }
}

/// Does `w` match the numeric literal shape `-?\d+(\.\d+)?`.
pub open spec fn is_number_text(w: Seq<char>) -> bool {
    let b = if w.len() > 0 && w[0] == '-' {
        w.skip(1)
    } else {
        w
    };
    let d = find_char(b, '.');
    if d < 0 {
        is_digit_seq(b)
    } else {
        is_digit_seq(b.take(d)) && is_digit_seq(b.skip(d + 1))
    }
}

pub open spec fn pow10(n: nat) -> int
    decreases n,
{
    if n == 0 {
        1
    } else {
        10 * pow10((n - 1) as nat)
    }
}

/// Millionths contributed by a fraction digit string: only the first six
/// digits carry weight, further digits are below the stored precision.
pub open spec fn frac_micros(f: Seq<char>) -> int {
    let g = if f.len() > 6 {
        f.take(6)
    } else {
        f
    };
    digits_val(g) * pow10((6 - g.len()) as nat)
}

/// The exact value of a numeric literal, in millionths (before clamping).
pub open spec fn decimal_micros_exact(w: Seq<char>) -> int {
    let neg = w.len() > 0 && w[0] == '-';
    let b = if neg {
        w.skip(1)
    } else {
        w
    };
    let d = find_char(b, '.');
    let mag = if d < 0 {
        digits_val(b) * (DECIMAL_SCALE as int)
    } else {
        digits_val(b.take(d)) * (DECIMAL_SCALE as int) + frac_micros(b.skip(d + 1))
    };
    if neg {
        -mag
    } else {
        mag
    }
}

/// Division of a millionths count by the scale, truncating toward zero.
pub open spec fn trunc_div_scale(m: int) -> int {
    if m >= 0 {
        m / (DECIMAL_SCALE as int)
    } else {
        -((-m) / (DECIMAL_SCALE as int))
    }
}

pub open spec fn clamp_i32(v: int) -> int {
    if v > i32::MAX {
        i32::MAX as int
    } else if v < i32::MIN {
        i32::MIN as int
    } else {
        v
    }
}

pub open spec fn clamp_i64(v: int) -> int {
    if v > i64::MAX {
        i64::MAX as int
    } else if v < i64::MIN {
        i64::MIN as int
    } else {
        v
    }
}

/// The stored value of a numeric literal: its exact value in millionths,
/// clamped to the representable range.
pub open spec fn spec_decimal_of(w: Seq<char>) -> int {
    clamp_i64(decimal_micros_exact(w))
}

/// Digit-string values at or above this cap saturate the stored range
/// once scaled to millionths.
pub const DIGIT_CAP: i64 = 10_000_000_000_000;

pub proof fn lemma_digits_val_nonneg(s: Seq<char>)
    requires
        all_digits(s),
    ensures
        digits_val(s) >= 0,
    decreases s.len(),
{
    if s.len() > 0 {
        assert(all_digits(s.drop_last()));
        lemma_digits_val_nonneg(s.drop_last());
        assert(is_digit(s.last()));
    }
}

pub proof fn lemma_find_char_skip(s: Seq<char>, c: char, j: int)
    requires
        0 <= j <= s.len(),
        forall|k: int| 0 <= k < j ==> s[k] != c,
    ensures
        find_char(s, c) == if find_char(s.skip(j), c) < 0 {
            -1int
        } else {
            j + find_char(s.skip(j), c)
        },
    decreases j,
{
    if j == 0 {
        assert(s.skip(0) =~= s);
    } else {
        assert(s[0] != c);
        assert(s.len() > 0);
        lemma_find_char_skip(s.skip(1), c, j - 1);
        assert(s.skip(1).skip(j - 1) =~= s.skip(j));
    }
}

/// Index of the first occurrence of `c` among `cs[from..to]`, if any.
pub fn find_char_in(cs: &Vec<char>, from: usize, to: usize, c: char) -> (r: Option<usize>)
    requires
        from <= to <= cs@.len(),
    ensures
        ({
            let w = cs@.subrange(from as int, to as int);
            match r {
                Some(i) => from <= i < to && find_char(w, c) == i - from,
                None => find_char(w, c) == -1,
            }
        }),
{
    let ghost w = cs@.subrange(from as int, to as int);
    let mut i: usize = from;
    while i < to
        invariant
            from <= i <= to <= cs@.len(),
            w == cs@.subrange(from as int, to as int),
            forall|k: int| 0 <= k < i - from ==> w[k] != c,
        decreases to - i,
    {
        if cs[i] == c {
            proof {
                lemma_find_char_skip(w, c, i - from);
                assert(w.skip(i - from)[0] == w[i - from]);
                assert(w[i - from] == c);
            }
            return Some(i);
        }
        i = i + 1;
    }
    proof {
        lemma_find_char_skip(w, c, to - from);
        assert(w.skip(to - from) =~= Seq::<char>::empty());
    }
    None
}

/// Scan `cs[from..to]` as a digit run, returning its value capped at
/// [`DIGIT_CAP`], or `None` if the range is empty or holds a non-digit.
pub(crate) fn scan_digits(cs: &Vec<char>, from: usize, to: usize) -> (r: Option<i64>)
    requires
        from <= to <= cs@.len(),
    ensures
        ({
            let w = cs@.subrange(from as int, to as int);
            match r {
                Some(v) => is_digit_seq(w) && 0 <= v <= DIGIT_CAP && v == if digits_val(w)
                    >= DIGIT_CAP {
                    DIGIT_CAP as int
                } else {
                    digits_val(w)
                },
                None => !is_digit_seq(w),
            }
        }),
{
    let ghost w = cs@.subrange(from as int, to as int);
    if from == to {
        return None;
    }
    let mut acc: i64 = 0;
    let mut i: usize = from;
    while i < to
        invariant
            from <= i <= to <= cs@.len(),
            w == cs@.subrange(from as int, to as int),
            all_digits(w.take(i - from)),
            0 <= acc <= DIGIT_CAP,
            acc == if digits_val(w.take(i - from)) >= DIGIT_CAP {
                DIGIT_CAP as int
            } else {
                digits_val(w.take(i - from))
            },
        decreases to - i,
    {
        let c = cs[i];
        if !('0' <= c && c <= '9') {
            proof {
                assert(w[i - from] == c);
                assert(!is_digit(w[i - from]));
            }
            return None;
        }
        let d: i64 = (c as u32 - '0' as u32) as i64;
        proof {
            let p = w.take(i - from);
            let q = w.take(i + 1 - from);
            assert(q.drop_last() =~= p);
            assert(q.last() == w[i - from]);
            assert(w[i - from] == c);
            lemma_digits_val_nonneg(p);
        }
        if acc >= DIGIT_CAP / 10 + 1 {
            acc = DIGIT_CAP;
        } else {
            let next = acc * 10 + d;
            if next >= DIGIT_CAP {
                acc = DIGIT_CAP;
            } else {
                acc = next;
            }
        }
        i = i + 1;
    }
    proof {
        assert(w.take(to - from) =~= w);
    }
    Some(acc)
}

pub proof fn lemma_pow10_pos(n: nat)
    ensures
        pow10(n) >= 1,
    decreases n,
{
    if n > 0 {
        lemma_pow10_pos((n - 1) as nat);
    }
}

pub proof fn lemma_pow10_le(a: nat, b: nat)
    requires
        a <= b,
    ensures
        1 <= pow10(a) <= pow10(b),
    decreases b,
{
    lemma_pow10_pos(a);
    if a < b {
        lemma_pow10_le(a, (b - 1) as nat);
        lemma_pow10_pos((b - 1) as nat);
    }
}

pub proof fn lemma_digits_val_bound(s: Seq<char>)
    requires
        all_digits(s),
    ensures
        0 <= digits_val(s) < pow10(s.len()),
    decreases s.len(),
{
    if s.len() > 0 {
        assert(all_digits(s.drop_last()));
        lemma_digits_val_bound(s.drop_last());
        assert(is_digit(s.last()));
    }
}

/// Scan `cs[from..to]` as the fraction digits of a numeric literal,
/// returning the millionths they denote, or `None` if the range is empty
/// or holds a non-digit.
fn scan_frac(cs: &Vec<char>, from: usize, to: usize) -> (r: Option<i64>)
    requires
        from <= to <= cs@.len(),
    ensures
        ({
            let w = cs@.subrange(from as int, to as int);
            match r {
                Some(v) => is_digit_seq(w) && 0 <= v < 1_000_000 && v == frac_micros(w),
                None => !is_digit_seq(w),
            }
        }),
{
    let ghost w = cs@.subrange(from as int, to as int);
    if from == to {
        return None;
    }
    // Every character must be a digit, even those beyond the stored precision.
    let mut i: usize = from;
    while i < to
        invariant
            from <= i <= to <= cs@.len(),
            w == cs@.subrange(from as int, to as int),
            forall|k: int| 0 <= k < i - from ==> is_digit(#[trigger] w[k]),
        decreases to - i,
    {
        let c = cs[i];
        if !('0' <= c && c <= '9') {
            proof {
                assert(w[i - from] == c);
            }
            return None;
        }
        i = i + 1;
    }
    assert(all_digits(w));
    let len = to - from;
    let k: usize = if len > 6 {
        6
    } else {
        len
    };
    let ghost g = if w.len() > 6 {
        w.take(6)
    } else {
        w
    };
    proof {
        assert(g.len() == k);
        assert(all_digits(g));
    }
    let mut acc: i64 = 0;
    let mut j: usize = 0;
    while j < k
        invariant
            j <= k <= 6,
            k <= len,
            from + len <= cs@.len(),
            len == to - from,
            w == cs@.subrange(from as int, to as int),
            all_digits(w),
            g == if w.len() > 6 {
                w.take(6)
            } else {
                w
            },
            g.len() == k,
            acc == digits_val(g.take(j as int)),
            0 <= acc < pow10(j as nat),
        decreases k - j,
    {
        let c = cs[from + j];
        proof {
            assert(g[j as int] == w[j as int]);
            assert(w[j as int] == c);
            let p = g.take(j as int);
            let q = g.take(j + 1);
            assert(q.drop_last() =~= p);
            assert(q.last() == g[j as int]);
            assert(is_digit(c));
            assert(pow10((j + 1) as nat) == 10 * pow10(j as nat));
            lemma_pow10_le(j as nat, 6);
            assert(pow10(6) == 1_000_000) by { reveal_with_fuel(pow10, 7); };
        }
        let d: i64 = (c as u32 - '0' as u32) as i64;
        acc = acc * 10 + d;
        j = j + 1;
    }
    proof {
        assert(g.take(k as int) =~= g);
        assert(pow10(0) == 1) by { reveal_with_fuel(pow10, 1); };
        assert(digits_val(g) * pow10(0) == digits_val(g)) by (nonlinear_arith)
            requires
                pow10(0) == 1,
        ;
    }
    // Scale up for the digits that were not present.
    let mut m: usize = k;
    while m < 6
        invariant
            k <= m <= 6,
            all_digits(g),
            g.len() == k,
            acc == digits_val(g) * pow10((m - k) as nat),
            0 <= acc < pow10(m as nat),
        decreases 6 - m,
    {
        proof {
            assert(pow10(((m + 1) - k) as nat) == 10 * pow10((m - k) as nat));
            assert(pow10((m + 1) as nat) == 10 * pow10(m as nat));
            lemma_pow10_le(m as nat, 6);
            assert(pow10(6) == 1_000_000) by { reveal_with_fuel(pow10, 7); };
            let dv = digits_val(g);
            let p = pow10((m - k) as nat);
            assert(dv * (10 * p) == (dv * p) * 10) by (nonlinear_arith);
        }
        acc = acc * 10;
        m = m + 1;
    }
    proof {
        lemma_pow10_le(6, 6);
        assert(pow10(6) == 1_000_000) by { reveal_with_fuel(pow10, 7); };
        assert(frac_micros(w) == digits_val(g) * pow10((6 - k) as nat));
    }
    Some(acc)
}

/// Parse the characters `cs[from..to]` as a numeric literal
/// (`-?\d+(\.\d+)?`), yielding its clamped millionths value.
pub fn decimal_from_chars(cs: &Vec<char>, from: usize, to: usize) -> (r: Option<Decimal>)
    requires
        from <= to <= cs@.len(),
    ensures
        ({
            let w = cs@.subrange(from as int, to as int);
            match r {
                Some(d) => is_number_text(w) && d@ == spec_decimal_of(w),
                None => !is_number_text(w),
            }
        }),
{
    let ghost w = cs@.subrange(from as int, to as int);
    let neg = from < to && cs[from] == '-';
    let start: usize = if neg {
        from + 1
    } else {
        from
    };
    let ghost b = cs@.subrange(start as int, to as int);
    proof {
        if neg {
            assert(b =~= w.skip(1));
        } else {
            assert(b =~= w);
        }
    }
    let dot = find_char_in(cs, start, to, '.');
    match dot {
        None => {
            match scan_digits(cs, start, to) {
                None => None,
                Some(iv) => {
                    let mag: i128 = (iv as i128) * 1_000_000;
                    proof {
                        if iv < DIGIT_CAP {
                            assert(digits_val(b) == iv as int);
                        } else {
                            assert(digits_val(b) >= DIGIT_CAP);
                            assert(digits_val(b) * 1_000_000 >= (DIGIT_CAP as int)
                                * 1_000_000);
                        }
                    }
                    Some(clamp_magnitude(mag, neg, Ghost(decimal_micros_exact(w))))
                },
            }
        },
        Some(i) => {
            let ghost d = i - start;
            proof {
                assert(b.take(d) =~= cs@.subrange(start as int, i as int));
                assert(b.skip(d + 1) =~= cs@.subrange(i + 1, to as int));
            }
            match scan_digits(cs, start, i) {
                None => None,
                Some(iv) => {
                    match scan_frac(cs, i + 1, to) {
                        None => None,
                        Some(fv) => {
                            let mag: i128 = (iv as i128) * 1_000_000 + (fv as i128);
                            proof {
                                if iv < DIGIT_CAP {
                                    assert(digits_val(b.take(d)) == iv as int);
                                } else {
                                    assert(digits_val(b.take(d)) >= DIGIT_CAP);
                                    assert(digits_val(b.take(d)) * 1_000_000 >= (
                                    DIGIT_CAP as int) * 1_000_000);
                                }
                            }
                            Some(clamp_magnitude(mag, neg, Ghost(decimal_micros_exact(w))))
                        },
                    }
                },
            }
        },
    }
}

/// Clamp a signed millionths magnitude into the stored range.
fn clamp_magnitude(mag: i128, neg: bool, exact: Ghost<int>) -> (r: Decimal)
    requires
        0 <= mag <= 20_000_000_000_000_000_000,
        ({
            let tot = if neg {
                -mag as int
            } else {
                mag as int
            };
            tot == exact@ || (exact@ > i64::MAX && tot > i64::MAX) || (exact@ < i64::MIN
                && tot < i64::MIN)
        }),
    ensures
        r@ == clamp_i64(exact@),
{
    let tot: i128 = if neg {
        -mag
    } else {
        mag
    };
    if tot > i64::MAX as i128 {
        Decimal { micros: i64::MAX }
    } else if tot < i64::MIN as i128 {
        Decimal { micros: i64::MIN }
    } else {
        Decimal { micros: tot as i64 }
    }
}

pub open spec fn digit_char(d: int) -> char {
    ((48 + d) as u8) as char
}

/// The decimal digits of `n`, most significant first, no leading zeros.
pub open spec fn spec_udigits(n: nat) -> Seq<char>
    decreases n,
{
    if n < 10 {
        seq![digit_char(n as int)]
    } else {
        spec_udigits(n / 10).push(digit_char((n % 10) as int))
    }
}

/// The six fraction digits of a millionths remainder, zero-padded.
pub open spec fn pad6(fr: int) -> Seq<char> {
    Seq::new(6, |i: int| digit_char(fr / pow10((5 - i) as nat) % 10))
}

/// `s` with trailing `'0'` characters removed.
pub open spec fn trim_zeros(s: Seq<char>) -> Seq<char>
    decreases s.len(),
{
    if s.len() > 0 && s.last() == '0' {
        trim_zeros(s.drop_last())
    } else {
        s
    }
}

/// The canonical text of a millionths value: sign, whole part, and the
/// fraction digits with trailing zeros removed (omitted when zero).
pub open spec fn spec_decimal_text(m: int) -> Seq<char> {
    let a = if m < 0 {
        -m
    } else {
        m
    };
    let units = a / 1_000_000;
    let fr = a % 1_000_000;
    let sign: Seq<char> = if m < 0 {
        seq!['-']
    } else {
        Seq::empty()
    };
    let body = sign + spec_udigits(units as nat);
    if fr == 0 {
        body
    } else {
        body + seq!['.'] + trim_zeros(pad6(fr))
    }
}

proof fn lemma_trim_take(s: Seq<char>, keep: int)
    requires
        0 <= keep <= s.len(),
        keep > 0 ==> s[keep - 1] != '0',
        forall|j: int| keep <= j < s.len() ==> s[j] == '0',
    ensures
        trim_zeros(s) == s.take(keep),
    decreases s.len() - keep,
{
    if keep == s.len() {
        if keep == 0 {
            assert(trim_zeros(s) =~= s.take(0));
        } else {
            assert(s.last() != '0');
            assert(s.take(keep) =~= s);
        }
    } else {
        assert(s.last() == '0');
        lemma_trim_take(s.drop_last(), keep);
        assert(s.drop_last().take(keep) =~= s.take(keep));
    }
}

/// Append the decimal digits of `n` to `out`.
fn push_udigits(out: &mut Vec<char>, n: u64)
    ensures
        final(out)@ == old(out)@ + spec_udigits(n as nat),
    decreases n,
{
    if n < 10 {
        let c = (48u8 + (n as u8)) as char;
        out.push(c);
        proof {
            assert(final(out)@ =~= old(out)@ + spec_udigits(n as nat));
        }
    } else {
        push_udigits(out, n / 10);
        let c = (48u8 + ((n % 10) as u8)) as char;
        out.push(c);
        proof {
            assert(final(out)@ =~= old(out)@ + spec_udigits(n as nat));
        }
    }
}

impl Decimal {
    pub open spec fn spec_from_micros(m: i64) -> Decimal {
        Decimal { micros: m }
    }

    /// The canonical text of this value.
    pub fn to_text(&self) -> (r: String)
        ensures
            r@ == spec_decimal_text(self@),
    {
        let m = self.micros;
        let neg = m < 0;
        let a: u64 = if m < 0 {
            ((-(m + 1)) as u64) + 1
        } else {
            m as u64
        };
        proof {
            assert(a as int == if m < 0 {
                -(m as int)
            } else {
                m as int
            });
        }
        let units: u64 = a / 1_000_000;
        let fr: u64 = a % 1_000_000;
        let mut out: Vec<char> = Vec::new();
        if neg {
            out.push('-');
        }
        push_udigits(&mut out, units);
        let ghost body = (if neg {
            seq!['-']
        } else {
            Seq::<char>::empty()
        }) + spec_udigits(units as nat);
        proof {
            assert(out@ =~= body);
        }
        if fr > 0 {
            out.push('.');
            let ghost base = out@;
            let mut digs: Vec<char> = Vec::new();
            let mut p: u64 = 100_000;
            proof {
                assert(pow10(5) == 100_000) by { reveal_with_fuel(pow10, 6); };
            }
            let mut i: usize = 0;
            while i < 6
                invariant
                    i <= 6,
                    fr < 1_000_000,
                    i < 6 ==> p == pow10((5 - i) as nat),
                    digs@ == pad6(fr as int).take(i as int),
                decreases 6 - i,
            {
                proof {
                    lemma_pow10_le((5 - i) as nat, 5);
                    assert(pow10(5) == 100_000) by { reveal_with_fuel(pow10, 6); };
                    assert(pow10((5 - i) as nat) >= 1);
                }
                let d: u64 = (fr / p) % 10;
                let c = (48u8 + (d as u8)) as char;
                digs.push(c);
                proof {
                    assert(pad6(fr as int)[i as int] == digit_char(
                        (fr as int) / pow10((5 - i) as nat) % 10,
                    ));
                    assert(digs@ =~= pad6(fr as int).take(i + 1));
                    if i < 5 {
                        assert(pow10((5 - i) as nat) == 10 * pow10((5 - (i + 1)) as nat));
                    }
                }
                if i < 5 {
                    p = p / 10;
                }
                i = i + 1;
            }
            proof {
                assert(pad6(fr as int).take(6) =~= pad6(fr as int));
            }
            // Find how many digits remain once trailing zeros go.
            let mut keep: usize = 6;
            while keep > 0
                invariant
                    keep <= 6,
                    digs@ == pad6(fr as int),
                    forall|j: int| keep <= j < 6 ==> digs@[j] == '0',
                ensures
                    keep <= 6,
                    digs@ == pad6(fr as int),
                    forall|j: int| keep <= j < 6 ==> digs@[j] == '0',
                    keep > 0 ==> digs@[keep - 1] != '0',
                decreases keep,
            {
                if digs[keep - 1] != '0' {
                    break;
                }
                keep = keep - 1;
            }
            proof {
                lemma_trim_take(digs@, keep as int);
            }
            let mut t: usize = 0;
            while t < keep
                invariant
                    t <= keep <= 6,
                    digs@ == pad6(fr as int),
                    out@ == base + digs@.take(t as int),
                decreases keep - t,
            {
                out.push(digs[t]);
                proof {
                    assert(out@ =~= base + digs@.take(t + 1));
                }
                t = t + 1;
            }
            proof {
                assert(out@ =~= body + seq!['.'] + trim_zeros(pad6(fr as int)));
            }
        }
        text::string_from_chars(&out)
    }

    /// The value `m` millionths.
    pub fn from_micros(m: i64) -> (r: Decimal)
        ensures
            r.micros == m,
    {
        Decimal { micros: m }
    }

    pub fn zero() -> (r: Decimal)
        ensures
            r@ == 0,
    {
        Decimal { micros: 0 }
    }

    pub open spec fn spec_min(a: Decimal, b: Decimal) -> Decimal {
        if a@ <= b@ {
            a
        } else {
            b
        }
    }

    pub open spec fn spec_max(a: Decimal, b: Decimal) -> Decimal {
        if a@ >= b@ {
            a
        } else {
            b
        }
    }

    pub fn min_of(a: Decimal, b: Decimal) -> (r: Decimal)
        ensures
            r == Self::spec_min(a, b),
    {
        if a.micros <= b.micros {
            a
        } else {
            b
        }
    }

    pub fn max_of(a: Decimal, b: Decimal) -> (r: Decimal)
        ensures
            r == Self::spec_max(a, b),
    {
        if a.micros >= b.micros {
            a
        } else {
            b
        }
    }

    /// Truncating whole part of the value, clamped to the `i32` range.
    pub fn to_i32_trunc(&self) -> (r: i32)
        ensures
            r == clamp_i32(trunc_div_scale(self@)),
    {
        let m = self.micros;
        if m > (i32::MAX as i64) * DECIMAL_SCALE {
            i32::MAX
        } else if m < (i32::MIN as i64) * DECIMAL_SCALE {
            i32::MIN
        } else if m >= 0 {
            (m / DECIMAL_SCALE) as i32
        } else {
            (-((-m) / DECIMAL_SCALE)) as i32
        }
    }

    /// Difference `self - other`, clamped to the representable range.
    pub fn sub_sat(&self, other: &Decimal) -> (r: Decimal)
        ensures
            r@ == clamp_i64(self@ - other@),
    {
        let d = self.micros.checked_sub(other.micros);
        match d {
            Some(v) => Decimal { micros: v },
            None => {
                if self.micros >= 0 {
                    Decimal { micros: i64::MAX }
                } else {
                    Decimal { micros: i64::MIN }
                }
            },
        }
    }
}

} // verus!
