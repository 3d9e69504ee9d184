//! The symbol-library grammar.
//!
//! A library is scanned for `(symbol name ...)` records at any depth. Each
//! record's declared name is stripped from the first `_` on — the format's
//! convention for naming graphical variants of one logical part — and a
//! record whose stripped name is already registered is discarded whole, so
//! one logical part yields exactly one entry. Inside a kept record, the
//! first `(property "Description" "...")` form, wherever nested, provides
//! the description; everything else is skipped.

use crate::engine;
use crate::engine::ErrK;
use crate::error::KicadError;
use crate::num;
use crate::pcb::pcb_parser::PcbParser;
use crate::symbol::types::Symbol;
use crate::symbol::types::SymbolV;
use crate::text;
use crate::token;
use crate::token::TokenV;
use vstd::prelude::*;
use vstd::string::StrSliceExecFns;
use vstd::string::StringExecFns;

verus! {

/// A declared symbol name with everything from the first `_` on removed.
pub open spec fn spec_strip_name(s: Seq<char>) -> Seq<char> {
    let d = num::find_char(s, '_');
    if d < 0 {
        s
    } else {
        s.take(d)
    }
}

/// Is a symbol with this name already registered.
pub open spec fn spec_has_name(acc: Seq<SymbolV>, n: Seq<char>) -> bool {
    exists|i: int| 0 <= i < acc.len() && acc[i].name == n
}

/// Depth-first scan of a symbol record's body for its description, from
/// nesting depth `depth`; the first `Description` property wins, and the
/// scan ends just past the form that brought the depth to zero.
pub open spec fn spec_sym_scan(t: Seq<TokenV>, depth: nat, desc: Option<Seq<char>>) -> Result<
    (Option<Seq<char>>, Seq<TokenV>),
    ErrK,
>
    decreases t.len(),
    via spec_sym_scan_decreases
{
    if depth == 0 {
        Ok((desc, t))
    } else if t.len() == 0 {
        Err(ErrK::Parse)
    } else if t[0] is RParen {
        spec_sym_scan(t.skip(1), (depth - 1) as nat, desc)
    } else if t[0] is LParen {
        if t.len() >= 2 && t[1] == TokenV::Ident("property"@) {
            let t2 = t.skip(2);
            if t2.len() > 0 && (t2[0] is Str || t2[0] is Ident) {
                let name = if t2[0] is Str {
                    t2[0]->Str_0
                } else {
                    t2[0]->Ident_0
                };
                let t3 = t2.skip(1);
                if name == "Description"@ && t3.len() > 0 && t3[0] is Str {
                    let value = t3[0]->Str_0;
                    let d2 = if desc is None {
                        Some(value)
                    } else {
                        desc
                    };
                    spec_sym_scan(engine::spec_skip_form(t3.skip(1), 1), depth, d2)
                } else {
                    spec_sym_scan(engine::spec_skip_form(t3, 1), depth, desc)
                }
            } else if t2.len() == 0 {
                Err(ErrK::Parse)
            } else {
                spec_sym_scan(engine::spec_skip_form(t2, 1), depth, desc)
            }
        } else {
            spec_sym_scan(t.skip(1), depth + 1, desc)
        }
    } else {
        spec_sym_scan(t.skip(1), depth, desc)
    }
}

#[via_fn]
proof fn spec_sym_scan_decreases(t: Seq<TokenV>, depth: nat, desc: Option<Seq<char>>) {
    engine::lemma_skip_form_len(t.skip(2), 1);
    engine::lemma_skip_form_len(t.skip(3), 1);
    engine::lemma_skip_form_len(t.skip(4), 1);
    if t.len() >= 3 {
        assert(t.skip(2).skip(1) =~= t.skip(3));
    }
    if t.len() >= 4 {
        assert(t.skip(3).skip(1) =~= t.skip(4));
    }
}

pub proof fn lemma_sym_scan_len(t: Seq<TokenV>, depth: nat, desc: Option<Seq<char>>)
    ensures
        spec_sym_scan(t, depth, desc) is Ok ==> spec_sym_scan(t, depth, desc)->Ok_0.1.len()
            <= t.len(),
    decreases t.len(),
{
    engine::lemma_skip_form_len(t.skip(2), 1);
    engine::lemma_skip_form_len(t.skip(3), 1);
    engine::lemma_skip_form_len(t.skip(4), 1);
    if t.len() >= 3 {
        assert(t.skip(2).skip(1) =~= t.skip(3));
    }
    if t.len() >= 4 {
        assert(t.skip(3).skip(1) =~= t.skip(4));
    }
    if depth == 0 {
    } else if t.len() == 0 {
    } else if t[0] is RParen {
        lemma_sym_scan_len(t.skip(1), (depth - 1) as nat, desc);
    } else if t[0] is LParen {
        if t.len() >= 2 && t[1] == TokenV::Ident("property"@) {
            let t2 = t.skip(2);
            if t2.len() > 0 && (t2[0] is Str || t2[0] is Ident) {
                let name = if t2[0] is Str {
                    t2[0]->Str_0
                } else {
                    t2[0]->Ident_0
                };
                let t3 = t2.skip(1);
                if name == "Description"@ && t3.len() > 0 && t3[0] is Str {
                    let value = t3[0]->Str_0;
                    let d2 = if desc is None {
                        Some(value)
                    } else {
                        desc
                    };
                    lemma_sym_scan_len(engine::spec_skip_form(t3.skip(1), 1), depth, d2);
                } else {
                    lemma_sym_scan_len(engine::spec_skip_form(t3, 1), depth, desc);
                }
            } else if t2.len() == 0 {
            } else {
                lemma_sym_scan_len(engine::spec_skip_form(t2, 1), depth, desc);
            }
        } else {
            lemma_sym_scan_len(t.skip(1), depth + 1, desc);
        }
    } else {
        lemma_sym_scan_len(t.skip(1), depth, desc);
    }
}

/// The symbols a token sequence yields, appended to `acc`: every
/// `(symbol name ...)` record, at any depth, whose stripped name is not
/// yet registered.
pub open spec fn spec_symbols(t: Seq<TokenV>, acc: Seq<SymbolV>) -> Result<Seq<SymbolV>, ErrK>
    decreases t.len(),
    via spec_symbols_decreases
{
    if t.len() == 0 {
        Ok(acc)
    } else if t[0] is LParen {
        if t.len() >= 2 && t[1] == TokenV::Ident("symbol"@) {
            let t2 = t.skip(2);
            if t2.len() > 0 && (t2[0] is Str || t2[0] is Ident) {
                let raw = if t2[0] is Str {
                    t2[0]->Str_0
                } else {
                    t2[0]->Ident_0
                };
                let stripped = spec_strip_name(raw);
                let t3 = t2.skip(1);
                if spec_has_name(acc, stripped) {
                    spec_symbols(engine::spec_skip_form(t3, 1), acc)
                } else {
                    match spec_sym_scan(t3, 1, None) {
                        Err(k) => Err(k),
                        Ok((desc, rest)) => spec_symbols(
                            rest,
                            acc.push(
                                SymbolV {
                                    name: stripped,
                                    description: match desc {
                                        Some(d) => d,
                                        None => Seq::empty(),
                                    },
                                },
                            ),
                        ),
                    }
                }
            } else {
                Err(ErrK::Parse)
            }
        } else if t.len() >= 2 {
            spec_symbols(t.skip(2), acc)
        } else {
            Ok(acc)
        }
    } else {
        spec_symbols(t.skip(1), acc)
    }
}

#[via_fn]
proof fn spec_symbols_decreases(t: Seq<TokenV>, acc: Seq<SymbolV>) {
    engine::lemma_skip_form_len(t.skip(3), 1);
    lemma_sym_scan_len(t.skip(3), 1, None);
    if t.len() >= 3 {
        assert(t.skip(2).skip(1) =~= t.skip(3));
    }
}

/// All names in a run of symbols are pairwise distinct.
pub open spec fn spec_names_distinct(syms: Seq<SymbolV>) -> bool {
    forall|i: int, j: int|
        0 <= i < j < syms.len() ==> (#[trigger] syms[i]).name != (#[trigger] syms[j]).name
}

/// Law: a later record sharing a stripped name never overwrites an
/// existing entry and creates no duplicate, so the names of a parsed
/// library are pairwise distinct.
pub proof fn lemma_symbol_names_distinct(t: Seq<TokenV>, acc: Seq<SymbolV>)
    requires
        spec_names_distinct(acc),
        spec_symbols(t, acc) is Ok,
    ensures
        spec_names_distinct(spec_symbols(t, acc)->Ok_0),
    decreases t.len(),
{
    engine::lemma_skip_form_len(t.skip(3), 1);
    lemma_sym_scan_len(t.skip(3), 1, None);
    if t.len() >= 3 {
        assert(t.skip(2).skip(1) =~= t.skip(3));
    }
    if t.len() == 0 {
    } else if t[0] is LParen {
        if t.len() >= 2 && t[1] == TokenV::Ident("symbol"@) {
            let t2 = t.skip(2);
            if t2.len() > 0 && (t2[0] is Str || t2[0] is Ident) {
                let raw = if t2[0] is Str {
                    t2[0]->Str_0
                } else {
                    t2[0]->Ident_0
                };
                let stripped = spec_strip_name(raw);
                let t3 = t2.skip(1);
                if spec_has_name(acc, stripped) {
                    lemma_symbol_names_distinct(engine::spec_skip_form(t3, 1), acc);
                } else {
                    match spec_sym_scan(t3, 1, None) {
                        Err(_) => {},
                        Ok((desc, rest)) => {
                            let entry = SymbolV {
                                name: stripped,
                                description: match desc {
                                    Some(d) => d,
                                    None => Seq::empty(),
                                },
                            };
                            let acc2 = acc.push(entry);
                            assert forall|i: int, j: int| 0 <= i < j < acc2.len() implies (
                            #[trigger] acc2[i]).name != (#[trigger] acc2[j]).name by {
                                if j == acc2.len() - 1 {
                                    assert(acc2[i] == acc[i]);
                                    assert(!spec_has_name(acc, stripped));
                                    assert(acc2[j] == entry);
                                } else {
                                    assert(acc2[i] == acc[i]);
                                    assert(acc2[j] == acc[j]);
                                }
                            }
                            lemma_symbol_names_distinct(rest, acc2);
                        },
                    }
                }
            }
        } else if t.len() >= 2 {
            lemma_symbol_names_distinct(t.skip(2), acc);
        }
    } else {
        lemma_symbol_names_distinct(t.skip(1), acc);
    }
}

/// A declared name with everything from the first `_` on removed.
fn strip_name(raw: &String) -> (r: String)
    ensures
        r@ == spec_strip_name(raw@),
{
    let cs = text::chars_of(raw.as_str());
    let n = cs.len();
    proof {
        assert(cs@.subrange(0, n as int) =~= cs@);
    }
    match num::find_char_in(&cs, 0, n, '_') {
        Some(i) => text::string_from_range(&cs, 0, i),
        None => text::string_from_range(&cs, 0, n),
    }
}

/// Is a symbol with this name already registered.
fn has_name(out: &Vec<Symbol>, n: &String) -> (r: bool)
    ensures
        r == spec_has_name(out.deep_view(), n@),
{
    let mut i: usize = 0;
    while i < out.len()
        invariant
            i <= out@.len(),
            forall|k: int| 0 <= k < i ==> out.deep_view()[k].name != n@,
        decreases out@.len() - i,
    {
        if text::string_eq_str(&out[i].name, n.as_str()) {
            proof {
                assert(out.deep_view()[i as int].name == n@);
            }
            return true;
        }
        i = i + 1;
    }
    false
}

/// Scan one symbol record's body for the first `Description` property,
/// consuming tokens through the record's closing parenthesis.
#[verifier::rlimit(60)]
fn parse_sym_scan(p: &mut PcbParser) -> (r: Result<Option<String>, KicadError>)
    requires
        old(p).wf(),
    ensures
        final(p).wf(),
        final(p).toks() == old(p).toks(),
        match spec_sym_scan(old(p).rem(), 1, None) {
            Ok((desc, rest)) => r is Ok && r->Ok_0.deep_view() == desc && final(p).rem()
                == rest,
            Err(k) => r is Err && engine::matches_kind(r->Err_0, k),
        },
{
    let ghost rem_all = p.rem();
    let mut depth: u128 = 1;
    let mut desc: Option<String> = None;
    let ghost pos0 = rem_all.len();
    proof {
        p.lemma_rem_len_bound();
    }
    while depth > 0
        invariant
            p.wf(),
            p.toks() == old(p).toks(),
            rem_all == old(p).rem(),
            pos0 == rem_all.len(),
            pos0 <= usize::MAX,
            depth <= 1 + (pos0 - p.rem().len()),
            p.rem().len() <= pos0,
            spec_sym_scan(rem_all, 1, None) == spec_sym_scan(
                p.rem(),
                depth as nat,
                desc.deep_view(),
            ),
        decreases p.rem().len(),
    {
        let ghost rem0 = p.rem();
        let ghost desc0 = desc.deep_view();
        if p.current().is_none() {
            proof {
                assert(spec_sym_scan(rem0, depth as nat, desc0) is Err);
            }
            return Err(
                KicadError::ParseError(
                    String::from_str("unexpected end of input in symbol record"),
                ),
            );
        }
        if p.at_rparen() {
            p.advance();
            depth = depth - 1;
        } else if p.at_lparen() {
            if p.peek_next_kw("property") {
                p.advance();
                p.advance();
                proof {
                    assert(p.rem() =~= rem0.skip(2));
                }
                if p.at_text() {
                    let name = match p.parse_string() {
                        Ok(v) => v,
                        Err(e) => {
                            return Err(e);
                        },
                    };
                    if text::string_eq_str(&name, "Description") && p.at_str() {
                        let value = match p.parse_string() {
                            Ok(v) => v,
                            Err(e) => {
                                return Err(e);
                            },
                        };
                        if desc.is_none() {
                            desc = Some(value);
                        }
                        match p.skip_sexp() {
                            Ok(()) => (),
                            Err(e) => {
                                return Err(e);
                            },
                        }
                    } else {
                        match p.skip_sexp() {
                            Ok(()) => (),
                            Err(e) => {
                                return Err(e);
                            },
                        }
                    }
                } else if p.current().is_none() {
                    proof {
                        assert(spec_sym_scan(rem0, depth as nat, desc0) is Err);
                    }
                    return Err(
                        KicadError::ParseError(
                            String::from_str("unexpected end of input in property form"),
                        ),
                    );
                } else {
                    match p.skip_sexp() {
                        Ok(()) => (),
                        Err(e) => {
                            return Err(e);
                        },
                    }
                }
            } else {
                p.advance();
                depth = depth + 1;
                proof {
                    assert(p.rem() =~= rem0.skip(1));
                }
            }
        } else {
            p.advance();
            proof {
                assert(p.rem() =~= rem0.skip(1));
            }
        }
    }
    Ok(desc)
}

/// Parse a symbol-library text: one entry per logical part, with the
/// format's variant suffix stripped from each name, a later record
/// sharing a stripped name discarded whole, and each description taken
/// from the record's first `Description` property.
pub fn parse_symbol_lib(content: &str) -> (r: Result<Vec<Symbol>, KicadError>)
    ensures
        match spec_symbols(token::spec_tokens(content@), Seq::empty()) {
            Ok(syms) => r is Ok && r->Ok_0.deep_view() == syms,
            Err(k) => r is Err && engine::matches_kind(r->Err_0, k),
        },
        r is Ok ==> spec_names_distinct(r->Ok_0.deep_view()),
{
    let mut p = PcbParser::new(content);
    let ghost rem_all = p.rem();
    let mut out: Vec<Symbol> = Vec::new();
    proof {
        assert(out.deep_view() =~= Seq::<SymbolV>::empty());
    }
    while p.current().is_some()
        invariant
            p.wf(),
            rem_all == token::spec_tokens(content@),
            spec_symbols(rem_all, Seq::empty()) == spec_symbols(p.rem(), out.deep_view()),
        decreases p.rem().len(),
    {
        let ghost rem0 = p.rem();
        let ghost out0 = out.deep_view();
        if p.at_lparen() {
            if p.peek_next_kw("symbol") {
                p.advance();
                p.advance();
                proof {
                    assert(p.rem() =~= rem0.skip(2));
                }
                if p.at_text() {
                    let raw = match p.parse_string() {
                        Ok(v) => v,
                        Err(e) => {
                            return Err(e);
                        },
                    };
                    let stripped = strip_name(&raw);
                    if has_name(&out, &stripped) {
                        match p.skip_sexp() {
                            Ok(()) => (),
                            Err(e) => {
                                return Err(e);
                            },
                        }
                    } else {
                        let ghost scan_at = p.rem();
                        let desc = match parse_sym_scan(&mut p) {
                            Ok(v) => v,
                            Err(e) => {
                                proof {
                                    assert(spec_symbols(rem0, out0) is Err);
                                }
                                return Err(e);
                            },
                        };
                        let description = match desc {
                            Some(d) => d,
                            None => String::new(),
                        };
                        let ghost sv = SymbolV { name: stripped@, description: description@ };
                        out.push(Symbol { name: stripped, description });
                        proof {
                            lemma_sym_scan_len(scan_at, 1, None);
                            assert(out.deep_view() =~= out0.push(sv));
                        }
                    }
                } else {
                    proof {
                        assert(spec_symbols(rem0, out0) is Err);
                    }
                    return Err(KicadError::ParseError(String::from_str("expected symbol name")));
                }
            } else {
                p.advance();
                proof {
                    assert(p.rem() =~= rem0.skip(1));
                }
                if p.current().is_some() {
                    p.advance();
                    proof {
                        assert(p.rem() =~= rem0.skip(2));
                    }
                }
            }
        } else {
            p.advance();
            proof {
                assert(p.rem() =~= rem0.skip(1));
            }
        }
    }
    proof {
        lemma_symbol_names_distinct(rem_all, Seq::empty());
    }
    Ok(out)
}

} // verus!
