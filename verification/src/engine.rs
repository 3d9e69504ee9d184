//! Shared recursive-descent services.
//!
//! Both grammars walk a token vector with a cursor. The spec functions here
//! describe the primitive moves over the remaining token suffix: expecting a
//! token, reading a number or string, and the skip-to-balance recovery that
//! discards one unrecognized parenthesized form. Skipping is the
//! forward-compatibility mechanism: content inside a skipped form is never
//! inspected, so it can never raise an error.

use crate::token::Token;
use crate::token::TokenV;
use vstd::prelude::*;

verus! {

/// The kind of a structural failure, mirrored by the error variants.
pub ghost enum ErrK {
    /// A general parse failure.
    Parse,
    /// An expected token class or keyword was not found.
    Unexpected,
    /// A recognized record lacked a mandatory sub-field.
    Missing,
}

/// Consume tokens while tracking nesting depth, starting from `depth` open
/// parentheses, until the matching close or end of input; the remainder.
pub open spec fn spec_skip_form(t: Seq<TokenV>, depth: nat) -> Seq<TokenV>
    decreases t.len(),
{
    if depth == 0 || t.len() == 0 {
        t
    } else {
        let d = match t[0] {
            TokenV::LParen => depth + 1,
            TokenV::RParen => (depth - 1) as nat,
            _ => depth,
        };
        spec_skip_form(t.skip(1), d)
    }
}

pub proof fn lemma_skip_form_len(t: Seq<TokenV>, depth: nat)
    ensures
        spec_skip_form(t, depth).len() <= t.len(),
        depth > 0 && t.len() > 0 ==> spec_skip_form(t, depth).len() < t.len(),
    decreases t.len(),
{
    if depth > 0 && t.len() > 0 {
        let d = match t[0] {
            TokenV::LParen => depth + 1,
            TokenV::RParen => (depth - 1) as nat,
            _ => depth,
        };
        lemma_skip_form_len(t.skip(1), d);
    }
}

/// Consuming one expected token.
pub open spec fn spec_expect(t: Seq<TokenV>, k: TokenV) -> Result<Seq<TokenV>, ErrK> {
    if t.len() > 0 && t[0] == k {
        Ok(t.skip(1))
    } else {
        Err(ErrK::Unexpected)
    }
}

/// Consuming one numeric token; its millionths value and the remainder.
pub open spec fn spec_number(t: Seq<TokenV>) -> Result<(int, Seq<TokenV>), ErrK> {
    if t.len() > 0 && t[0] is Num {
        Ok((t[0]->Num_0, t.skip(1)))
    } else {
        Err(ErrK::Parse)
    }
}

/// Consuming one string or identifier token; its text and the remainder.
pub open spec fn spec_string(t: Seq<TokenV>) -> Result<(Seq<char>, Seq<TokenV>), ErrK> {
    if t.len() > 0 && t[0] is Str {
        Ok((t[0]->Str_0, t.skip(1)))
    } else if t.len() > 0 && t[0] is Ident {
        Ok((t[0]->Ident_0, t.skip(1)))
    } else {
        Err(ErrK::Parse)
    }
}

/// What a failed expectation reports it found: the class of the token in
/// the expected one's place, or the end of input.
pub open spec fn spec_found_text(rem: Seq<TokenV>) -> Seq<char> {
    if rem.len() > 0 {
        crate::token::spec_describe(rem[0])
    } else {
        "end of input"@
    }
}

/// The message a failed `expect` carries: the expected token and what
/// actually stood in its place.
pub open spec fn spec_expect_msg(expected: TokenV, rem: Seq<TokenV>) -> Seq<char> {
    "expected "@ + crate::token::spec_describe(expected) + ", found "@ + spec_found_text(rem)
}

/// The message a failed keyword expectation carries: the keyword and what
/// actually stood in its place.
pub open spec fn spec_expect_kw_msg(kw: Seq<char>, rem: Seq<TokenV>) -> Seq<char> {
    "expected keyword "@ + kw + ", found "@ + spec_found_text(rem)
}

/// Does the error value carry the kind a spec-level failure names.
pub open spec fn matches_kind(e: crate::error::KicadError, k: ErrK) -> bool {
    match k {
        ErrK::Parse => e is ParseError,
        ErrK::Unexpected => e is UnexpectedToken,
        ErrK::Missing => e is MissingField,
    }
}

/// Structural equality of two tokens.
pub fn token_eq(a: &Token, b: &Token) -> (r: bool)
    ensures
        r == (a@ == b@),
{
    match (a, b) {
        (Token::LParen, Token::LParen) => true,
        (Token::RParen, Token::RParen) => true,
        (Token::Num(x), Token::Num(y)) => x.micros == y.micros,
        (Token::Str(x), Token::Str(y)) => crate::text::string_eq_str(x, y.as_str()),
        (Token::Ident(x), Token::Ident(y)) => crate::text::string_eq_str(x, y.as_str()),
        _ => false,
    }
}

/// Is the token an identifier with the given text.
pub fn token_is_kw(t: &Token, kw: &str) -> (r: bool)
    ensures
        r == (t@ == TokenV::Ident(kw@)),
{
    match t {
        Token::Ident(s) => crate::text::string_eq_str(s, kw),
        _ => false,
    }
}

/// Advance the cursor past one form, tracking nesting depth from 1.
///
/// The cursor stands just past the opening parenthesis of the form (on its
/// keyword, if any); afterwards it stands just past the matching close, or
/// at the end of input if the form never closes.
pub fn skip_form_at(tokens: &Vec<Token>, pos: &mut usize)
    requires
        *old(pos) <= tokens@.len(),
    ensures
        *final(pos) <= tokens@.len(),
        tokens.deep_view().skip(*final(pos) as int) == spec_skip_form(
            tokens.deep_view().skip(*old(pos) as int),
            1,
        ),
{
    let ghost toks = tokens.deep_view();
    let ghost rem0 = toks.skip(*pos as int);
    let n = tokens.len();
    let mut depth: u128 = 1;
    proof {
        assert(toks.len() == tokens@.len());
    }
    while depth > 0 && *pos < n
        invariant
            *pos <= n,
            n == tokens@.len(),
            toks == tokens.deep_view(),
            rem0 == toks.skip(*old(pos) as int),
            depth <= 1 + (*pos - *old(pos)),
            spec_skip_form(rem0, 1) == spec_skip_form(toks.skip(*pos as int), depth as nat),
        decreases n - *pos,
    {
        let ghost before = toks.skip(*pos as int);
        proof {
            assert(before[0] == tokens.deep_view()[*pos as int]);
        }
        let t = &tokens[*pos];
        match t {
            Token::LParen => {
                depth = depth + 1;
            },
            Token::RParen => {
                depth = depth - 1;
            },
            _ => {},
        }
        *pos = *pos + 1;
        proof {
            assert(toks.skip(*pos as int) =~= before.skip(1));
        }
    }
    proof {
        if depth == 0 {
            assert(spec_skip_form(toks.skip(*pos as int), 0) == toks.skip(*pos as int));
        } else {
            assert(toks.skip(*pos as int) =~= Seq::<TokenV>::empty());
            assert(spec_skip_form(toks.skip(*pos as int), depth as nat) == toks.skip(
                *pos as int,
            ));
        }
    }
}

} // verus!
