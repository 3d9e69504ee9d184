//! The fast layer extractor.
//!
//! A reduced, line-oriented pass over only the layer-table region of a
//! board-layout text, bypassing the full grammar: it locates the first
//! `(layers` marker, reads one layer per line, and stops at the first line
//! opening with a closing parenthesis once at least one layer was read.
//! This is a documented performance shortcut with weaker guarantees than
//! the full grammar: a layer entry legitimately spanning multiple lines is
//! mishandled here but handled correctly by the full parse. A line that
//! does not parse as a layer entry is skipped, never an error.

use crate::error::KicadError;
use crate::num;
use crate::pcb::types::{Layer, LayerV, PcbFile, PcbFileV};
use crate::text;
use crate::token;
use std::collections::HashMap;
use vstd::prelude::*;
use vstd::string::StrSliceExecFns;
use vstd::string::StringExecFns;

verus! {

/// Does `pat` occur at the start of `s`.
pub open spec fn is_prefix(pat: Seq<char>, s: Seq<char>) -> bool {
    pat.len() <= s.len() && s.take(pat.len() as int) == pat
}

/// Index of the first occurrence of `pat` in `s`, or -1 if absent.
pub open spec fn find_sub(s: Seq<char>, pat: Seq<char>) -> int
    decreases s.len(),
{
    if is_prefix(pat, s) {
        0
    } else if s.len() == 0 {
        -1
    } else {
        let r = find_sub(s.skip(1), pat);
        if r < 0 {
            -1
        } else {
            r + 1
        }
    }
}

proof fn lemma_find_sub_skip(s: Seq<char>, pat: Seq<char>, j: int)
    requires
        0 <= j <= s.len(),
        forall|k: int| 0 <= k < j ==> !is_prefix(pat, #[trigger] s.skip(k)),
    ensures
        find_sub(s, pat) == if find_sub(s.skip(j), pat) < 0 {
            -1int
        } else {
            j + find_sub(s.skip(j), pat)
        },
    decreases j,
{
    if j == 0 {
        assert(s.skip(0) =~= s);
    } else {
        assert(!is_prefix(pat, s.skip(0)));
        assert(s.skip(0) =~= s);
        assert forall|k: int| 0 <= k < j - 1 implies !is_prefix(
            pat,
            #[trigger] s.skip(1).skip(k),
        ) by {
            assert(s.skip(1).skip(k) =~= s.skip(k + 1));
        }
        lemma_find_sub_skip(s.skip(1), pat, j - 1);
        assert(s.skip(1).skip(j - 1) =~= s.skip(j));
    }
}

/// Does `pat` occur at the start of `cs[i..]`.
pub(crate) fn is_prefix_at(cs: &Vec<char>, i: usize, pat: &str) -> (r: bool)
    requires
        i <= cs@.len(),
    ensures
        r == is_prefix(pat@, cs@.skip(i as int)),
{
    let m = pat.unicode_len();
    let n = cs.len();
    if n - i < m {
        return false;
    }
    let mut k: usize = 0;
    while k < m
        invariant
            k <= m,
            m == pat@.len(),
            n == cs@.len(),
            i <= n,
            i + m <= n,
            forall|j: int| 0 <= j < k ==> cs@.skip(i as int)[j] == pat@[j],
        decreases m - k,
    {
        if cs[i + k] != pat.get_char(k) {
            proof {
                assert(cs@.skip(i as int)[k as int] == cs@[i + k]);
            }
            return false;
        }
        proof {
            assert(cs@.skip(i as int)[k as int] == cs@[i + k]);
        }
        k = k + 1;
    }
    proof {
        assert(cs@.skip(i as int).take(m as int) =~= pat@);
    }
    true
}

/// Index of the first occurrence of `pat` in `cs`, if any.
fn find_sub_in(cs: &Vec<char>, pat: &str) -> (r: Option<usize>)
    ensures
        match r {
            Some(i) => i <= cs@.len() && find_sub(cs@, pat@) == i,
            None => find_sub(cs@, pat@) == -1,
        },
{
    let n = cs.len();
    if pat.unicode_len() == 0 {
        proof {
            assert(cs@.take(0) =~= pat@);
        }
        return Some(0);
    }
    let mut i: usize = 0;
    while i < n
        invariant
            i <= n,
            n == cs@.len(),
            pat@.len() > 0,
            forall|k: int| 0 <= k < i ==> !is_prefix(pat@, #[trigger] cs@.skip(k)),
        decreases n - i,
    {
        if is_prefix_at(cs, i, pat) {
            proof {
                lemma_find_sub_skip(cs@, pat@, i as int);
            }
            return Some(i);
        }
        i = i + 1;
    }
    proof {
        assert forall|k: int| 0 <= k < n implies !is_prefix(pat@, #[trigger] cs@.skip(k)) by {}
        lemma_find_sub_skip(cs@, pat@, n as int);
        assert(cs@.skip(n as int) =~= Seq::<char>::empty());
    }
    None
}

/// `s` with leading whitespace removed.
pub open spec fn trim_start(s: Seq<char>) -> Seq<char>
    decreases s.len(),
{
    if s.len() > 0 && token::is_ws(s[0]) {
        trim_start(s.skip(1))
    } else {
        s
    }
}

/// `s` with trailing whitespace removed.
pub open spec fn trim_end(s: Seq<char>) -> Seq<char>
    decreases s.len(),
{
    if s.len() > 0 && token::is_ws(s.last()) {
        trim_end(s.drop_last())
    } else {
        s
    }
}

/// `s` with surrounding whitespace removed.
pub open spec fn spec_trim(s: Seq<char>) -> Seq<char> {
    trim_end(trim_start(s))
}

/// `s` with every leading occurrence of `c` removed.
pub open spec fn trim_lead_char(s: Seq<char>, c: char) -> Seq<char>
    decreases s.len(),
{
    if s.len() > 0 && s[0] == c {
        trim_lead_char(s.skip(1), c)
    } else {
        s
    }
}

/// `s` with every trailing occurrence of `c` removed.
pub open spec fn trim_trail_char(s: Seq<char>, c: char) -> Seq<char>
    decreases s.len(),
{
    if s.len() > 0 && s.last() == c {
        trim_trail_char(s.drop_last(), c)
    } else {
        s
    }
}

/// `s` with surrounding quote characters removed.
pub open spec fn trim_quotes(s: Seq<char>) -> Seq<char> {
    trim_trail_char(trim_lead_char(s, '"'), '"')
}

/// First index at or after `i` holding a whitespace character, or the end.
pub open spec fn nonws_end(s: Seq<char>, i: int) -> int
    decreases s.len() - i,
{
    if i < 0 || i >= s.len() || token::is_ws(s[i]) {
        i
    } else {
        nonws_end(s, i + 1)
    }
}

proof fn lemma_nonws_end_bounds(s: Seq<char>, i: int)
    requires
        0 <= i <= s.len(),
    ensures
        i <= nonws_end(s, i) <= s.len(),
    decreases s.len() - i,
{
    if i < s.len() && !token::is_ws(s[i]) {
        lemma_nonws_end_bounds(s, i + 1);
    }
}

/// The whitespace-separated fields of `s`, in order.
pub open spec fn split_ws(s: Seq<char>) -> Seq<Seq<char>>
    decreases s.len(),
    via split_ws_decreases
{
    if s.len() == 0 {
        Seq::empty()
    } else if token::is_ws(s[0]) {
        split_ws(s.skip(1))
    } else {
        let j = nonws_end(s, 0);
        seq![s.take(j)] + split_ws(s.skip(j))
    }
}

#[via_fn]
proof fn split_ws_decreases(s: Seq<char>) {
    if s.len() > 0 && !token::is_ws(s[0]) {
        lemma_nonws_end_bounds(s, 1);
        assert(nonws_end(s, 0) == nonws_end(s, 1));
    }
}

/// The fields joined with single spaces.
pub open spec fn join_space(ps: Seq<Seq<char>>) -> Seq<char>
    decreases ps.len(),
{
    if ps.len() == 0 {
        Seq::empty()
    } else if ps.len() == 1 {
        ps[0]
    } else {
        ps[0] + seq![' '] + join_space(ps.skip(1))
    }
}

/// The value of `s` read as a 32-bit integer: an optional sign, then one
/// or more digits making a value in range, with nothing else.
pub open spec fn spec_parse_i32(s: Seq<char>) -> Option<i32> {
    let neg = s.len() > 0 && s[0] == '-';
    let b = if s.len() > 0 && (s[0] == '-' || s[0] == '+') {
        s.skip(1)
    } else {
        s
    };
    if num::is_digit_seq(b) {
        let v = if neg {
            -num::digits_val(b)
        } else {
            num::digits_val(b)
        };
        if i32::MIN <= v <= i32::MAX {
            Some(v as i32)
        } else {
            None
        }
    } else {
        None
    }
}

/// What a single trimmed line of the layer table denotes, if anything:
/// the fields are the ID, the quoted name, the quoted category, and an
/// optional display name joined from any remaining fields.
pub open spec fn spec_layer_line(line: Seq<char>) -> Option<LayerV> {
    let stripped = trim_trail_char(trim_lead_char(line, '('), ')');
    let parts = split_ws(stripped);
    if parts.len() >= 3 {
        match spec_parse_i32(parts[0]) {
            Some(id) => Some(
                LayerV {
                    id: id,
                    name: trim_quotes(parts[1]),
                    layer_type: trim_quotes(parts[2]),
                    user_name: if parts.len() > 3 {
                        Some(trim_quotes(join_space(parts.skip(3))))
                    } else {
                        None
                    },
                },
            ),
            None => None,
        }
    } else {
        None
    }
}

/// The layer map read line by line from the section `s`: a trimmed line
/// is a candidate entry iff it opens with a parenthesis, contains a quote,
/// and is not the table's own opening line; the scan stops at the first
/// line opening with a closing parenthesis once one layer was recorded.
pub open spec fn spec_scan_lines(s: Seq<char>, acc: Map<i32, LayerV>, got: bool) -> Map<
    i32,
    LayerV,
>
    decreases s.len(),
    via spec_scan_lines_decreases
{
    if s.len() == 0 {
        acc
    } else {
        let e = num::find_char(s, '\n');
        let raw = if e < 0 {
            s
        } else {
            s.take(e)
        };
        let body = if raw.len() > 0 && raw.last() == '\r' {
            raw.drop_last()
        } else {
            raw
        };
        let line = spec_trim(body);
        let rest = if e < 0 {
            Seq::empty()
        } else {
            s.skip(e + 1)
        };
        if line.len() > 0 && line[0] == '(' && num::find_char(line, '"') >= 0 && !is_prefix(
            "(layers"@,
            line,
        ) {
            match spec_layer_line(line) {
                Some(l) => spec_scan_lines(rest, acc.insert(l.id, l), true),
                None => spec_scan_lines(rest, acc, got),
            }
        } else if line.len() > 0 && line[0] == ')' && got {
            acc
        } else {
            spec_scan_lines(rest, acc, got)
        }
    }
}

#[via_fn]
proof fn spec_scan_lines_decreases(s: Seq<char>, acc: Map<i32, LayerV>, got: bool) {
    if s.len() > 0 {
        let e = num::find_char(s, '\n');
        lemma_find_char_bounds(s, '\n');
    }
}

pub proof fn lemma_find_char_bounds(s: Seq<char>, c: char)
    ensures
        num::find_char(s, c) >= 0 ==> num::find_char(s, c) < s.len() && s[num::find_char(
            s,
            c,
        )] == c,
        num::find_char(s, c) >= -1,
    decreases s.len(),
{
    if s.len() > 0 && s[0] != c {
        lemma_find_char_bounds(s.skip(1), c);
        if num::find_char(s.skip(1), c) >= 0 {
            assert(s.skip(1)[num::find_char(s.skip(1), c)] == s[num::find_char(s, c)]);
        }
    }
}

/// `cs` with leading characters satisfying the trim removed, then
/// trailing ones; `lead` and `trail` name the characters stripped.
fn trim_lead_trail(cs: &Vec<char>, lead: char, trail: char) -> (r: Vec<char>)
    ensures
        r@ == trim_trail_char(trim_lead_char(cs@, lead), trail),
{
    let n = cs.len();
    proof {
        assert(cs@.skip(0) =~= cs@);
    }
    let mut a: usize = 0;
    while a < n
        invariant_except_break
            a <= n,
            n == cs@.len(),
            trim_lead_char(cs@, lead) == trim_lead_char(cs@.skip(a as int), lead),
        ensures
            a <= n,
            trim_lead_char(cs@, lead) == trim_lead_char(cs@.skip(a as int), lead),
            a == n || cs@[a as int] != lead,
        decreases n - a,
    {
        let ghost pre = cs@.skip(a as int);
        if cs[a] != lead {
            proof {
                assert(pre[0] == cs@[a as int]);
            }
            break;
        }
        a = a + 1;
        proof {
            assert(cs@.skip(a as int) =~= pre.skip(1));
        }
    }
    proof {
        if a == n {
            assert(cs@.skip(a as int) =~= Seq::<char>::empty());
        } else {
            assert(cs@.skip(a as int)[0] == cs@[a as int]);
        }
        assert(trim_lead_char(cs@, lead) == cs@.skip(a as int));
    }
    let ghost s1 = cs@.skip(a as int);
    proof {
        assert(s1.take((n - a) as int) =~= s1);
    }
    let mut b: usize = n - a;
    while b > 0
        invariant_except_break
            b <= n - a,
            a <= n,
            n == cs@.len(),
            s1 == cs@.skip(a as int),
            trim_trail_char(s1, trail) == trim_trail_char(s1.take(b as int), trail),
        ensures
            b <= n - a,
            trim_trail_char(s1, trail) == trim_trail_char(s1.take(b as int), trail),
            b == 0 || cs@[a + b - 1] != trail,
        decreases b,
    {
        let ghost cur = s1.take(b as int);
        if cs[a + (b - 1)] != trail {
            break;
        }
        proof {
            assert(cur.last() == s1[b - 1]);
            assert(s1[b - 1] == cs@[a + (b - 1)]);
            assert(cur.drop_last() =~= s1.take(b - 1));
        }
        b = b - 1;
    }
    proof {
        if b == 0 {
            assert(s1.take(0) =~= Seq::<char>::empty());
        } else {
            assert(s1.take(b as int).last() == s1[b - 1]);
            assert(s1[b - 1] == cs@[a + b - 1]);
        }
        assert(trim_trail_char(s1, trail) == s1.take(b as int));
        assert(s1.take(b as int) =~= cs@.subrange(a as int, (a + b) as int));
    }
    text::chars_range(cs, a, a + b)
}

/// `cs` with surrounding whitespace removed.
fn trim_ws(cs: &Vec<char>) -> (r: Vec<char>)
    ensures
        r@ == spec_trim(cs@),
{
    let n = cs.len();
    proof {
        assert(cs@.skip(0) =~= cs@);
    }
    let mut a: usize = 0;
    while a < n
        invariant_except_break
            a <= n,
            n == cs@.len(),
            trim_start(cs@) == trim_start(cs@.skip(a as int)),
        ensures
            a <= n,
            trim_start(cs@) == trim_start(cs@.skip(a as int)),
            a == n || !token::is_ws(cs@[a as int]),
        decreases n - a,
    {
        let ghost pre = cs@.skip(a as int);
        let c = cs[a];
        if !(c == ' ' || c == '\t' || c == '\n' || c == '\r' || c == '\u{c}') {
            proof {
                assert(pre[0] == cs@[a as int]);
            }
            break;
        }
        a = a + 1;
        proof {
            assert(cs@.skip(a as int) =~= pre.skip(1));
        }
    }
    proof {
        if a == n {
            assert(cs@.skip(a as int) =~= Seq::<char>::empty());
        } else {
            assert(cs@.skip(a as int)[0] == cs@[a as int]);
        }
        assert(trim_start(cs@) == cs@.skip(a as int));
    }
    let ghost s1 = cs@.skip(a as int);
    proof {
        assert(s1.take((n - a) as int) =~= s1);
    }
    let mut b: usize = n - a;
    while b > 0
        invariant_except_break
            b <= n - a,
            a <= n,
            n == cs@.len(),
            s1 == cs@.skip(a as int),
            trim_end(s1) == trim_end(s1.take(b as int)),
        ensures
            b <= n - a,
            trim_end(s1) == trim_end(s1.take(b as int)),
            b == 0 || !token::is_ws(cs@[a + b - 1]),
        decreases b,
    {
        let ghost cur = s1.take(b as int);
        let c = cs[a + (b - 1)];
        if !(c == ' ' || c == '\t' || c == '\n' || c == '\r' || c == '\u{c}') {
            break;
        }
        proof {
            assert(cur.last() == s1[b - 1]);
            assert(s1[b - 1] == cs@[a + (b - 1)]);
            assert(cur.drop_last() =~= s1.take(b - 1));
        }
        b = b - 1;
    }
    proof {
        if b == 0 {
            assert(s1.take(0) =~= Seq::<char>::empty());
        } else {
            assert(s1.take(b as int).last() == s1[b - 1]);
            assert(s1[b - 1] == cs@[a + b - 1]);
        }
        assert(trim_end(s1) == s1.take(b as int));
        assert(s1.take(b as int) =~= cs@.subrange(a as int, (a + b) as int));
    }
    text::chars_range(cs, a, a + b)
}

/// The whitespace-separated fields of `cs`, in order.
fn split_ws_exec(cs: &Vec<char>) -> (r: Vec<String>)
    ensures
        r.deep_view() == split_ws(cs@),
{
    let n = cs.len();
    let mut out: Vec<String> = Vec::new();
    proof {
        assert(out.deep_view() =~= Seq::<Seq<char>>::empty());
        assert(cs@.skip(0) =~= cs@);
        assert(out.deep_view() + split_ws(cs@) =~= split_ws(cs@));
    }
    let mut i: usize = 0;
    while i < n
        invariant
            i <= n,
            n == cs@.len(),
            split_ws(cs@) == out.deep_view() + split_ws(cs@.skip(i as int)),
        decreases n - i,
    {
        let ghost suf = cs@.skip(i as int);
        let ghost out0 = out.deep_view();
        let c = cs[i];
        if c == ' ' || c == '\t' || c == '\n' || c == '\r' || c == '\u{c}' {
            i = i + 1;
            proof {
                assert(cs@.skip(i as int) =~= suf.skip(1));
            }
        } else {
            let mut j: usize = i;
            while j < n
                invariant_except_break
                    i <= j <= n,
                    n == cs@.len(),
                    suf == cs@.skip(i as int),
                    nonws_end(suf, 0) == nonws_end(suf, j - i),
                ensures
                    i <= j <= n,
                    nonws_end(suf, 0) == j - i,
                decreases n - j,
            {
                let d = cs[j];
                proof {
                    assert(suf[j - i] == cs@[j as int]);
                }
                if d == ' ' || d == '\t' || d == '\n' || d == '\r' || d == '\u{c}' {
                    proof {
                        assert(nonws_end(suf, j - i) == j - i);
                    }
                    break;
                }
                j = j + 1;
            }
            let w = text::string_from_range(cs, i, j);
            out.push(w);
            proof {
                assert(suf.take(j - i) =~= cs@.subrange(i as int, j as int));
                assert(out.deep_view() =~= out0.push(suf.take(j - i)));
                assert(cs@.skip(j as int) =~= suf.skip(j - i));
                assert(out.deep_view() + split_ws(cs@.skip(j as int)) =~= out0 + (seq![
                    suf.take(j - i)] + split_ws(suf.skip(j - i))));
            }
            i = j;
        }
    }
    proof {
        assert(cs@.skip(n as int) =~= Seq::<char>::empty());
        assert(out.deep_view() + split_ws(cs@.skip(n as int)) =~= out.deep_view());
    }
    out
}

/// The fields from index `from` on, joined with single spaces.
fn join_tail(parts: &Vec<String>, from: usize) -> (r: String)
    requires
        from <= parts@.len(),
    ensures
        r@ == join_space(parts.deep_view().skip(from as int)),
    decreases parts@.len() - from,
{
    let ghost ps = parts.deep_view();
    if from == parts.len() {
        proof {
            assert(ps.skip(from as int) =~= Seq::<Seq<char>>::empty());
        }
        String::new()
    } else if from + 1 == parts.len() {
        proof {
            assert(ps.skip(from as int).len() == 1);
            assert(ps.skip(from as int)[0] == ps[from as int]);
        }
        parts[from].clone()
    } else {
        let mut s = parts[from].clone();
        s.append(" ");
        let rest = join_tail(parts, from + 1);
        s.append(rest.as_str());
        proof {
            reveal_strlit(" ");
            assert(" "@ =~= seq![' ']);
            assert(ps.skip(from as int)[0] == ps[from as int]);
            assert(ps.skip(from as int).skip(1) =~= ps.skip(from + 1));
            assert(s@ =~= ps.skip(from as int)[0] + seq![' '] + join_space(
                ps.skip(from + 1),
            ));
        }
        s
    }
}

/// The value of the characters read as a 32-bit integer, if they are one.
pub(crate) fn parse_i32_chars(cs: &Vec<char>) -> (r: Option<i32>)
    ensures
        r == spec_parse_i32(cs@),
{
    let n = cs.len();
    let neg = n > 0 && cs[0] == '-';
    let signed = n > 0 && (cs[0] == '-' || cs[0] == '+');
    let start: usize = if signed {
        1
    } else {
        0
    };
    proof {
        if signed {
            assert(cs@.subrange(1, n as int) =~= cs@.skip(1));
        } else {
            assert(cs@.subrange(0, n as int) =~= cs@);
        }
    }
    match num::scan_digits(cs, start, n) {
        None => None,
        Some(v) => {
            if neg {
                if v <= 2_147_483_648 {
                    Some((-v) as i32)
                } else {
                    None
                }
            } else {
                if v <= 2_147_483_647 {
                    Some(v as i32)
                } else {
                    None
                }
            }
        },
    }
}

/// Parse a single trimmed layer-table line `(ID "Name" "Type" [User...])`;
/// `None` if the line is not a layer entry.
pub fn parse_layer_line(line: &str) -> (r: Option<Layer>)
    ensures
        match r {
            Some(l) => spec_layer_line(line@) == Some(l@),
            None => spec_layer_line(line@) is None,
        },
{
    let cs = text::chars_of(line);
    let stripped = trim_lead_trail(&cs, '(', ')');
    let parts = split_ws_exec(&stripped);
    if parts.len() >= 3 {
        let id_cs = text::chars_of(parts[0].as_str());
        match parse_i32_chars(&id_cs) {
            Some(id) => {
                let name_cs = text::chars_of(parts[1].as_str());
                let name_v = trim_lead_trail(&name_cs, '"', '"');
                let name = text::string_from_chars(&name_v);
                let type_cs = text::chars_of(parts[2].as_str());
                let type_v = trim_lead_trail(&type_cs, '"', '"');
                let layer_type = text::string_from_chars(&type_v);
                let user_name: Option<String> = if parts.len() > 3 {
                    let joined = join_tail(&parts, 3);
                    let joined_cs = text::chars_of(joined.as_str());
                    let user_v = trim_lead_trail(&joined_cs, '"', '"');
                    Some(text::string_from_chars(&user_v))
                } else {
                    None
                };
                proof {
                    assert(parts.deep_view()[0] == parts@[0]@);
                    assert(parts.deep_view()[1] == parts@[1]@);
                    assert(parts.deep_view()[2] == parts@[2]@);
                }
                Some(Layer { id, name, layer_type, user_name })
            },
            None => None,
        }
    } else {
        None
    }
}

/// Fast partial parse of a board-layout text: only the layer table is
/// populated; other collections stay empty; version and generator carry
/// fixed sentinel values that mark the result as a fast, not full, pass.
/// Duplicate layer IDs resolve to the later entry. The call always
/// succeeds; a malformed line is skipped, not an error.
#[verifier::rlimit(100)]
pub fn parse_layers_only(content: &str) -> (r: Result<PcbFile, KicadError>)
    ensures
        r is Ok,
        r->Ok_0@ == spec_layers_only(content@),
{
    let cs = text::chars_of(content);
    let n = cs.len();
    let mut layers: HashMap<i32, Layer> = HashMap::new();
    let ghost fspec = spec_layers_only(content@);
    proof {
        assert(layers@.map_values(|l: Layer| l@) =~= Map::<i32, LayerV>::empty());
    }
    match find_sub_in(&cs, "(layers") {
        None => {},
        Some(idx) => {
            let ghost section = cs@.skip(idx as int);
            let mut got = false;
            let mut i: usize = idx;
            while i < n
                invariant_except_break
                    idx <= i <= n,
                    n == cs@.len(),
                    section == cs@.skip(idx as int),
                    spec_scan_lines(section, Map::empty(), false) == spec_scan_lines(
                        cs@.skip(i as int),
                        layers@.map_values(|l: Layer| l@),
                        got,
                    ),
                ensures
                    spec_scan_lines(section, Map::empty(), false) == layers@.map_values(
                        |l: Layer| l@,
                    ),
                decreases n - i,
            {
                let ghost suf = cs@.skip(i as int);
                let ghost acc0 = layers@.map_values(|l: Layer| l@);
                let e = num::find_char_in(&cs, i, n, '\n');
                let ghost espec = num::find_char(suf, '\n');
                proof {
                    assert(cs@.subrange(i as int, n as int) =~= suf);
                }
                let line_end: usize = match e {
                    Some(j) => j,
                    None => n,
                };
                let body_end: usize = if line_end > i && cs[line_end - 1] == '\r' {
                    line_end - 1
                } else {
                    line_end
                };
                proof {
                    let raw = if espec < 0 {
                        suf
                    } else {
                        suf.take(espec)
                    };
                    assert(raw =~= cs@.subrange(i as int, line_end as int));
                    if raw.len() > 0 && raw.last() == '\r' {
                        assert(raw.last() == cs@[line_end - 1]);
                        assert(raw.drop_last() =~= cs@.subrange(i as int, body_end as int));
                    } else {
                        if line_end > i {
                            assert(raw.last() == cs@[line_end - 1]);
                        }
                        assert(raw =~= cs@.subrange(i as int, body_end as int));
                    }
                }
                let body = text::chars_range(&cs, i, body_end);
                let line = trim_ws(&body);
                let ghost linev = line@;
                let nonempty = line.len() > 0;
                let opens = nonempty && line[0] == '(';
                let has_quote = match num::find_char_in(&line, 0, line.len(), '"') {
                    Some(_) => true,
                    None => false,
                };
                proof {
                    assert(line@.subrange(0, line@.len() as int) =~= line@);
                }
                let own_line = is_prefix_at(&line, 0, "(layers");
                proof {
                    assert(line@.skip(0) =~= line@);
                }
                let closes = nonempty && line[0] == ')';
                if opens && has_quote && !own_line {
                    let line_str = text::string_from_chars(&line);
                    match parse_layer_line(line_str.as_str()) {
                        Some(layer) => {
                            let ghost lv = layer@;
                            let ghost layers0 = layers@;
                            layers.insert(layer.id, layer);
                            got = true;
                            proof {
                                assert(layers@ == layers0.insert(lv.id as i32, layer));
                                assert(layers@.map_values(|l: Layer| l@) =~= layers0.map_values(
                                    |l: Layer| l@,
                                ).insert(lv.id as i32, lv));
                            }
                        },
                        None => {},
                    }
                } else if closes && got {
                    proof {
                        assert(spec_scan_lines(suf, acc0, got) == acc0);
                    }
                    break;
                }
                match e {
                    Some(j) => {
                        i = j + 1;
                        proof {
                            assert(cs@.skip(i as int) =~= suf.skip(espec + 1));
                        }
                    },
                    None => {
                        i = n;
                        proof {
                            assert(cs@.skip(i as int) =~= Seq::<char>::empty());
                        }
                    },
                }
            }
        },
    }
    let mut pcb = PcbFile::new();
    pcb.version = String::from_str("unknown");
    pcb.generator = String::from_str("simple_parser");
    pcb.layers = layers;
    proof {
        assert(pcb@.footprints =~= fspec.footprints);
        assert(pcb@.tracks =~= fspec.tracks);
        assert(pcb@.vias =~= fspec.vias);
        assert(pcb@.zones =~= fspec.zones);
        assert(pcb@.texts =~= fspec.texts);
        assert(pcb@.graphics =~= fspec.graphics);
    }
    Ok(pcb)
}

/// The document the fast pass yields: fixed sentinel header values that
/// signal a fast, not full, pass, the layers read from the layer-table
/// region, and every other collection empty.
pub open spec fn spec_layers_only(s: Seq<char>) -> PcbFileV {
    let idx = find_sub(s, "(layers"@);
    PcbFileV {
        version: "unknown"@,
        generator: "simple_parser"@,
        layers: if idx >= 0 {
            spec_scan_lines(s.skip(idx), Map::empty(), false)
        } else {
            Map::empty()
        },
        ..PcbFileV::empty()
    }
}

} // verus!
