//! Raw-text statistics helpers for front ends: a complexity estimate from
//! record counts, and natural ordering of component references.

use crate::num;
use crate::pcb::simple_parser;
use crate::text;
use core::cmp::Ordering;
use vstd::prelude::*;
use vstd::string::StrSliceExecFns;

verus! {

/// How many non-overlapping occurrences of `pat` the text holds.
pub open spec fn count_sub(s: Seq<char>, pat: Seq<char>) -> nat
    decreases s.len(),
    via count_sub_decreases
{
    if pat.len() == 0 || s.len() == 0 {
        0
    } else if simple_parser::is_prefix(pat, s) {
        1 + count_sub(s.skip(pat.len() as int), pat)
    } else {
        count_sub(s.skip(1), pat)
    }
}

#[via_fn]
proof fn count_sub_decreases(s: Seq<char>, pat: Seq<char>) {
}

/// Count the non-overlapping occurrences of `pat` in `cs`.
fn count_sub_in(cs: &Vec<char>, pat: &str) -> (r: usize)
    requires
        pat@.len() > 0,
    ensures
        r == count_sub(cs@, pat@),
{
    let n = cs.len();
    let m = pat.unicode_len();
    let mut count: usize = 0;
    let mut i: usize = 0;
    proof {
        assert(cs@.skip(0) =~= cs@);
    }
    while i < n
        invariant
            i <= n,
            n == cs@.len(),
            m == pat@.len(),
            m > 0,
            count <= i,
            count_sub(cs@, pat@) == count + count_sub(cs@.skip(i as int), pat@),
        decreases n - i,
    {
        let ghost suf = cs@.skip(i as int);
        if simple_parser::is_prefix_at(cs, i, pat) {
            count = count + 1;
            i = i + m;
            proof {
                assert(i <= n);
                assert(cs@.skip(i as int) =~= suf.skip(m as int));
            }
        } else {
            i = i + 1;
            proof {
                assert(cs@.skip(i as int) =~= suf.skip(1));
            }
        }
    }
    proof {
        assert(cs@.skip(n as int) =~= Seq::<char>::empty());
    }
    count
}

/// The complexity label for given footprint and segment counts.
pub open spec fn spec_complexity(f: nat, t: nat) -> Seq<char> {
    if f <= 10 && t <= 50 {
        "Simple"@
    } else if 11 <= f <= 100 && 51 <= t <= 500 {
        "Moderate"@
    } else if 101 <= f <= 500 && 501 <= t <= 2000 {
        "Complex"@
    } else {
        "Very Complex"@
    }
}

/// Estimate how complex a board text is from its footprint and segment
/// record counts.
pub fn estimate_complexity(content: &str) -> (r: &'static str)
    ensures
        r@ == spec_complexity(
            count_sub(content@, "(footprint"@),
            count_sub(content@, "(segment"@),
        ),
{
    let cs = text::chars_of(content);
    proof {
        reveal_strlit("(footprint");
        reveal_strlit("(segment");
    }
    let f = count_sub_in(&cs, "(footprint");
    let t = count_sub_in(&cs, "(segment");
    if f <= 10 && t <= 50 {
        "Simple"
    } else if 11 <= f && f <= 100 && 51 <= t && t <= 500 {
        "Moderate"
    } else if 101 <= f && f <= 500 && 501 <= t && t <= 2000 {
        "Complex"
    } else {
        "Very Complex"
    }
}

/// First index at or after `i` holding an ASCII decimal digit, or the
/// end; digits outside ASCII do not split a reference.
pub open spec fn digit_pos(s: Seq<char>, i: int) -> int
    decreases s.len() - i,
{
    if i < 0 || i >= s.len() || num::is_digit(s[i]) {
        i
    } else {
        digit_pos(s, i + 1)
    }
}

/// The value of `s` read as an unsigned 32-bit number: one or more
/// digits making a value in range, with nothing else; zero otherwise.
pub open spec fn spec_parse_u32_or_zero(s: Seq<char>) -> u32 {
    if num::is_digit_seq(s) && num::digits_val(s) <= u32::MAX {
        num::digits_val(s) as u32
    } else {
        0
    }
}

/// A reference split into its leading text and the number that follows:
/// the split falls at the first ASCII digit, and a reference with no such
/// digit past its first character keeps its whole text with number zero.
pub open spec fn spec_split_reference(s: Seq<char>) -> (Seq<char>, u32) {
    let d = digit_pos(s, 0);
    if d <= 0 || d >= s.len() {
        (s, 0u32)
    } else {
        (s.take(d), spec_parse_u32_or_zero(s.skip(d)))
    }
}

/// Split a component reference into its leading text and number
/// (`R10` gives `R` and 10); the split falls at the first ASCII digit.
pub fn split_reference(reference: &str) -> (r: (String, u32))
    ensures
        (r.0@, r.1) == spec_split_reference(reference@),
{
    let cs = text::chars_of(reference);
    let n = cs.len();
    let mut d: usize = 0;
    while d < n
        invariant_except_break
            d <= n,
            n == cs@.len(),
            digit_pos(cs@, 0) == digit_pos(cs@, d as int),
        ensures
            d <= n,
            digit_pos(cs@, 0) == d as int,
        decreases n - d,
    {
        let c = cs[d];
        if '0' <= c && c <= '9' {
            proof {
                assert(digit_pos(cs@, d as int) == d as int);
            }
            break;
        }
        d = d + 1;
    }
    if d == 0 || d >= n {
        proof {
            assert(cs@.subrange(0, n as int) =~= cs@);
        }
        (text::string_from_range(&cs, 0, n), 0)
    } else {
        let prefix = text::string_from_range(&cs, 0, d);
        let ghost tail = cs@.skip(d as int);
        proof {
            assert(cs@.subrange(d as int, n as int) =~= tail);
        }
        let num: u32 = match num::scan_digits(&cs, d, n) {
            Some(v) => {
                if v <= 0xFFFF_FFFF {
                    v as u32
                } else {
                    0
                }
            },
            None => 0,
        };
        (prefix, num)
    }
}

/// Lexicographic order of two character sequences by code point.
pub open spec fn lex_cmp(a: Seq<char>, b: Seq<char>) -> Ordering
    decreases a.len(),
{
    if a.len() == 0 && b.len() == 0 {
        Ordering::Equal
    } else if a.len() == 0 {
        Ordering::Less
    } else if b.len() == 0 {
        Ordering::Greater
    } else if (a[0] as u32) < (b[0] as u32) {
        Ordering::Less
    } else if (a[0] as u32) > (b[0] as u32) {
        Ordering::Greater
    } else {
        lex_cmp(a.skip(1), b.skip(1))
    }
}

fn lex_cmp_exec(a: &Vec<char>, b: &Vec<char>) -> (r: Ordering)
    ensures
        r == lex_cmp(a@, b@),
{
    let na = a.len();
    let nb = b.len();
    proof {
        assert(a@.skip(0) =~= a@);
        assert(b@.skip(0) =~= b@);
    }
    let mut i: usize = 0;
    while i < na && i < nb
        invariant
            i <= na,
            i <= nb,
            na == a@.len(),
            nb == b@.len(),
            lex_cmp(a@, b@) == lex_cmp(a@.skip(i as int), b@.skip(i as int)),
        decreases na - i,
    {
        let ghost sa = a@.skip(i as int);
        let ghost sb = b@.skip(i as int);
        let ca = a[i];
        let cb = b[i];
        proof {
            assert(sa[0] == a@[i as int]);
            assert(sb[0] == b@[i as int]);
        }
        if (ca as u32) < (cb as u32) {
            return Ordering::Less;
        }
        if (ca as u32) > (cb as u32) {
            return Ordering::Greater;
        }
        i = i + 1;
        proof {
            assert(a@.skip(i as int) =~= sa.skip(1));
            assert(b@.skip(i as int) =~= sb.skip(1));
        }
    }
    proof {
        if i == na {
            assert(a@.skip(i as int) =~= Seq::<char>::empty());
        }
        if i == nb {
            assert(b@.skip(i as int) =~= Seq::<char>::empty());
        }
    }
    if na == nb {
        Ordering::Equal
    } else if i == na {
        Ordering::Less
    } else {
        Ordering::Greater
    }
}

/// The natural order of two references: by letter prefix, then by number
/// (`R2` sorts before `R10`).
pub open spec fn spec_natural_sort(a: Seq<char>, b: Seq<char>) -> Ordering {
    let sa = spec_split_reference(a);
    let sb = spec_split_reference(b);
    match lex_cmp(sa.0, sb.0) {
        Ordering::Equal => if sa.1 < sb.1 {
            Ordering::Less
        } else if sa.1 > sb.1 {
            Ordering::Greater
        } else {
            Ordering::Equal
        },
        Ordering::Less => Ordering::Less,
        Ordering::Greater => Ordering::Greater,
    }
}

/// Order two component references naturally: by letter prefix, then by
/// number.
pub fn natural_sort(a: &str, b: &str) -> (r: Ordering)
    ensures
        r == spec_natural_sort(a@, b@),
{
    let (ap, an) = split_reference(a);
    let (bp, bn) = split_reference(b);
    let acs = text::chars_of(ap.as_str());
    let bcs = text::chars_of(bp.as_str());
    match lex_cmp_exec(&acs, &bcs) {
        Ordering::Equal => {
            if an < bn {
                Ordering::Less
            } else if an > bn {
                Ordering::Greater
            } else {
                Ordering::Equal
            }
        },
        Ordering::Less => Ordering::Less,
        Ordering::Greater => Ordering::Greater,
    }
}

} // verus!
