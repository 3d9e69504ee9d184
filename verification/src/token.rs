//! The shared lexer.
//!
//! Both file formats share one parenthesized surface syntax. [`tokenize`]
//! turns raw text into the flat token sequence [`spec_tokens`] describes:
//! parentheses, numeric literals, quoted strings with backslash escapes
//! resolved, and bare identifiers. Whitespace and `#` line comments are
//! discarded. A span that looks numeric but fails numeric decoding falls
//! back to an identifier, so a lexing failure never aborts the scan.
//!
//! One recovery is deliberately not local: a quoted string that never
//! closes extends to the end of the input and becomes one string token,
//! so everything after a stray quote belongs to that token.

use crate::num;
use crate::num::Decimal;
use crate::text;
use vstd::prelude::*;

verus! {

/// One token of the parenthesized surface syntax.
#[derive(Debug, Clone, PartialEq)]
pub enum Token {
    LParen,
    RParen,
    /// A numeric literal, held as an exact decimal.
    Num(Decimal),
    /// A quoted string, quotes stripped and escapes resolved.
    Str(String),
    /// A bare identifier (keywords are identifiers with known text).
    Ident(String),
}

/// The mathematical value of a token.
pub ghost enum TokenV {
    LParen,
    RParen,
    /// Millionths value of a numeric literal.
    Num(int),
    Str(Seq<char>),
    Ident(Seq<char>),
}

impl View for Token {
    type V = TokenV;

    open spec fn view(&self) -> TokenV {
        match self {
            Token::LParen => TokenV::LParen,
            Token::RParen => TokenV::RParen,
            Token::Num(d) => TokenV::Num(d@),
            Token::Str(s) => TokenV::Str(s@),
            Token::Ident(s) => TokenV::Ident(s@),
        }
    }
}

impl DeepView for Token {
    type V = TokenV;

    open spec fn deep_view(&self) -> TokenV {
        self.view()
    }
}

/// The short rendering of a token class, used in error messages.
pub open spec fn spec_describe(t: TokenV) -> Seq<char> {
    match t {
        TokenV::LParen => "'('"@,
        TokenV::RParen => "')'"@,
        TokenV::Num(_) => "a number"@,
        TokenV::Str(_) => "a string"@,
        TokenV::Ident(_) => "an identifier"@,
    }
}

impl Token {
    /// A short rendering of the token class, for error messages.
    pub fn describe(&self) -> (r: &'static str)
        ensures
            r@ == spec_describe(self@),
    {
        match self {
            Token::LParen => "'('",
            Token::RParen => "')'",
            Token::Num(_) => "a number",
            Token::Str(_) => "a string",
            Token::Ident(_) => "an identifier",
        }
    }
}

pub open spec fn is_ws(c: char) -> bool {
    c == ' ' || c == '\t' || c == '\n' || c == '\r' || c == '\u{c}'
}

/// Word characters make up identifiers and numeric literals: anything that
/// is not whitespace, a parenthesis, a quote or a comment mark.
pub open spec fn is_word_char(c: char) -> bool {
    !(is_ws(c) || c == '(' || c == ')' || c == '"' || c == '#')
}

/// First index at or after `i` holding a newline, or the end of `s`.
pub open spec fn comment_end(s: Seq<char>, i: int) -> int
    decreases s.len() - i,
{
    if i < 0 || i >= s.len() {
        s.len() as int
    } else if s[i] == '\n' {
        i
    } else {
        comment_end(s, i + 1)
    }
}

/// End of the word starting at `i`: the first non-word index at or after `i`.
pub open spec fn word_end(s: Seq<char>, i: int) -> int
    decreases s.len() - i,
{
    if i < 0 || i >= s.len() || !is_word_char(s[i]) {
        i
    } else {
        word_end(s, i + 1)
    }
}

/// Index just past the closing quote of a string whose body starts at `i`;
/// a string that never closes extends to the end of `s`.
pub open spec fn string_end(s: Seq<char>, i: int) -> int
    decreases s.len() - i,
{
    if i < 0 || i >= s.len() {
        s.len() as int
    } else if s[i] == '"' {
        i + 1
    } else if s[i] == '\\' {
        if i + 1 < s.len() {
            string_end(s, i + 2)
        } else {
            s.len() as int
        }
    } else {
        string_end(s, i + 1)
    }
}

/// Decoded body of a string starting at `i`: a backslash takes the next
/// character literally; the body ends at the closing quote, or at the end
/// of the input when the string never closes.
pub open spec fn string_content(s: Seq<char>, i: int) -> Seq<char>
    decreases s.len() - i,
{
    if i < 0 || i >= s.len() {
        Seq::empty()
    } else if s[i] == '"' {
        Seq::empty()
    } else if s[i] == '\\' {
        if i + 1 < s.len() {
            seq![s[i + 1]] + string_content(s, i + 2)
        } else {
            Seq::empty()
        }
    } else {
        seq![s[i]] + string_content(s, i + 1)
    }
}

pub proof fn lemma_comment_end_bounds(s: Seq<char>, i: int)
    requires
        0 <= i <= s.len(),
    ensures
        i <= comment_end(s, i) <= s.len(),
    decreases s.len() - i,
{
    if i < s.len() && s[i] != '\n' {
        lemma_comment_end_bounds(s, i + 1);
    }
}

pub proof fn lemma_word_end_bounds(s: Seq<char>, i: int)
    requires
        0 <= i <= s.len(),
    ensures
        i <= word_end(s, i) <= s.len(),
    decreases s.len() - i,
{
    if i < s.len() && is_word_char(s[i]) {
        lemma_word_end_bounds(s, i + 1);
    }
}

pub proof fn lemma_string_end_bounds(s: Seq<char>, i: int)
    requires
        0 <= i <= s.len(),
    ensures
        i <= string_end(s, i) <= s.len(),
    decreases s.len() - i,
{
    if i < s.len() {
        if s[i] == '"' {
        } else if s[i] == '\\' {
            if i + 1 < s.len() {
                lemma_string_end_bounds(s, i + 2);
            }
        } else {
            lemma_string_end_bounds(s, i + 1);
        }
    }
}

/// The token sequence of the text from index `i` on.
pub open spec fn spec_tokens_from(s: Seq<char>, i: int) -> Seq<TokenV>
    decreases s.len() - i,
    via spec_tokens_from_decreases
{
    if i < 0 || i >= s.len() {
        Seq::empty()
    } else {
        let c = s[i];
        if is_ws(c) {
            spec_tokens_from(s, i + 1)
        } else if c == '#' {
            spec_tokens_from(s, comment_end(s, i + 1))
        } else if c == '(' {
            seq![TokenV::LParen] + spec_tokens_from(s, i + 1)
        } else if c == ')' {
            seq![TokenV::RParen] + spec_tokens_from(s, i + 1)
        } else if c == '"' {
            seq![TokenV::Str(string_content(s, i + 1))] + spec_tokens_from(
                s,
                string_end(s, i + 1),
            )
        } else {
            let j = word_end(s, i);
            let w = s.subrange(i, j);
            (if num::is_number_text(w) {
                seq![TokenV::Num(num::spec_decimal_of(w))]
            } else {
                seq![TokenV::Ident(w)]
            }) + spec_tokens_from(s, j)
        }
    }
}

#[via_fn]
proof fn spec_tokens_from_decreases(s: Seq<char>, i: int) {
    if 0 <= i < s.len() {
        let c = s[i];
        if is_ws(c) {
        } else if c == '#' {
            lemma_comment_end_bounds(s, i + 1);
        } else if c == '(' || c == ')' {
        } else if c == '"' {
            lemma_string_end_bounds(s, i + 1);
        } else {
            assert(is_word_char(c));
            lemma_word_end_bounds(s, i + 1);
            assert(word_end(s, i) == word_end(s, i + 1));
        }
    }
}

/// The token sequence of a whole text.
pub open spec fn spec_tokens(s: Seq<char>) -> Seq<TokenV> {
    spec_tokens_from(s, 0)
}

fn is_ws_exec(c: char) -> (r: bool)
    ensures
        r == is_ws(c),
{
    c == ' ' || c == '\t' || c == '\n' || c == '\r' || c == '\u{c}'
}

fn is_word_char_exec(c: char) -> (r: bool)
    ensures
        r == is_word_char(c),
{
    !(is_ws_exec(c) || c == '(' || c == ')' || c == '"' || c == '#')
}

/// Tokenize `text`: the resulting tokens are exactly [`spec_tokens`] of it.
pub fn tokenize(text: &str) -> (r: Vec<Token>)
    ensures
        r.deep_view() == spec_tokens(text@),
{
    let cs = text::chars_of(text);
    let ghost s = cs@;
    let n = cs.len();
    let mut out: Vec<Token> = Vec::new();
    let mut i: usize = 0;
    while i < n
        invariant
            i <= n,
            n == s.len(),
            s == cs@,
            s == text@,
            spec_tokens_from(s, 0) == out.deep_view() + spec_tokens_from(s, i as int),
        decreases n - i,
    {
        let ghost i0 = i as int;
        let ghost out0 = out.deep_view();
        let c = cs[i];
        if is_ws_exec(c) {
            i = i + 1;
            proof {
                assert(spec_tokens_from(s, i0) == spec_tokens_from(s, i as int));
            }
        } else if c == '#' {
            let mut j: usize = i + 1;
            while j < n
                invariant_except_break
                    i0 + 1 <= j <= n,
                    n == s.len(),
                    s == cs@,
                    comment_end(s, i0 + 1) == comment_end(s, j as int),
                ensures
                    i0 + 1 <= j <= n,
                    comment_end(s, i0 + 1) == j as int,
                decreases n - j,
            {
                if cs[j] == '\n' {
                    proof {
                        assert(comment_end(s, j as int) == j as int);
                    }
                    break;
                }
                j = j + 1;
            }
            i = j;
            proof {
                assert(spec_tokens_from(s, i0) == spec_tokens_from(s, i as int));
            }
        } else if c == '(' {
            out.push(Token::LParen);
            i = i + 1;
            proof {
                assert(out.deep_view() =~= out0.push(TokenV::LParen));
                assert(out.deep_view() + spec_tokens_from(s, i as int) =~= out0 + (
                seq![TokenV::LParen] + spec_tokens_from(s, i as int)));
            }
        } else if c == ')' {
            out.push(Token::RParen);
            i = i + 1;
            proof {
                assert(out.deep_view() =~= out0.push(TokenV::RParen));
                assert(out.deep_view() + spec_tokens_from(s, i as int) =~= out0 + (
                seq![TokenV::RParen] + spec_tokens_from(s, i as int)));
            }
        } else if c == '"' {
            let mut content = String::new();
            let mut j: usize = i + 1;
            let mut closed = false;
            while j < n
                invariant_except_break
                    i0 + 1 <= j <= n,
                    n == s.len(),
                    s == cs@,
                    !closed,
                    string_content(s, i0 + 1) == content@ + string_content(s, j as int),
                    string_end(s, i0 + 1) == string_end(s, j as int),
                ensures
                    i0 + 1 <= j <= n,
                    content@ == string_content(s, i0 + 1),
                    closed ==> j < n && string_end(s, i0 + 1) == j + 1,
                    !closed ==> string_end(s, i0 + 1) == n as int,
                decreases n - j,
            {
                let d = cs[j];
                if d == '"' {
                    closed = true;
                    proof {
                        assert(string_content(s, j as int) =~= Seq::<char>::empty());
                        assert(content@ + string_content(s, j as int) =~= content@);
                        assert(string_end(s, j as int) == j + 1);
                    }
                    break;
                } else if d == '\\' {
                    if j + 1 < n {
                        let ghost c0 = content@;
                        text::push_char(&mut content, cs[j + 1]);
                        proof {
                            assert(string_content(s, j as int) =~= seq![s[j + 1]]
                                + string_content(s, j + 2));
                            assert(c0 + (seq![s[j + 1]] + string_content(s, j + 2)) =~= content@
                                + string_content(s, j + 2));
                        }
                        j = j + 2;
                    } else {
                        proof {
                            assert(string_content(s, j as int) =~= Seq::<char>::empty());
                            assert(content@ + string_content(s, j as int) =~= content@);
                            assert(string_end(s, j as int) == n as int);
                            assert(string_content(s, n as int) =~= Seq::<char>::empty());
                            assert(string_end(s, n as int) == n as int);
                        }
                        j = n;
                    }
                } else {
                    let ghost c0 = content@;
                    text::push_char(&mut content, d);
                    proof {
                        assert(string_content(s, j as int) =~= seq![s[j as int]]
                            + string_content(s, j + 1));
                        assert(c0 + (seq![s[j as int]] + string_content(s, j + 1)) =~= content@
                            + string_content(s, j + 1));
                    }
                    j = j + 1;
                }
            }
            let ghost tok = TokenV::Str(string_content(s, i0 + 1));
            out.push(Token::Str(content));
            if closed {
                i = j + 1;
            } else {
                i = n;
            }
            proof {
                assert(out.deep_view() =~= out0.push(tok));
                assert(i as int == string_end(s, i0 + 1));
                assert(out.deep_view() + spec_tokens_from(s, i as int) =~= out0 + (seq![tok]
                    + spec_tokens_from(s, i as int)));
            }
        } else {
            proof {
                assert(is_word_char(s[i0]));
            }
            let mut j: usize = i;
            while j < n
                invariant_except_break
                    i0 <= j <= n,
                    n == s.len(),
                    s == cs@,
                    word_end(s, i0) == word_end(s, j as int),
                ensures
                    i0 <= j <= n,
                    word_end(s, i0) == j as int,
                decreases n - j,
            {
                if !is_word_char_exec(cs[j]) {
                    proof {
                        assert(word_end(s, j as int) == j as int);
                    }
                    break;
                }
                j = j + 1;
            }
            proof {
                lemma_word_end_bounds(s, i0 + 1);
                assert(word_end(s, i0) == word_end(s, i0 + 1));
                assert(j > i);
            }
            let ghost w = s.subrange(i0, j as int);
            let ghost tok = if num::is_number_text(w) {
                TokenV::Num(num::spec_decimal_of(w))
            } else {
                TokenV::Ident(w)
            };
            match num::decimal_from_chars(&cs, i, j) {
                Some(d) => {
                    out.push(Token::Num(d));
                },
                None => {
                    let ident = text::string_from_range(&cs, i, j);
                    out.push(Token::Ident(ident));
                },
            }
            i = j;
            proof {
                assert(out.deep_view() =~= out0.push(tok));
                assert(out.deep_view() + spec_tokens_from(s, i as int) =~= out0 + (seq![tok]
                    + spec_tokens_from(s, i as int)));
            }
        }
    }
    proof {
        assert(spec_tokens_from(s, n as int) =~= Seq::<TokenV>::empty());
        assert(out.deep_view() + spec_tokens_from(s, n as int) =~= out.deep_view());
    }
    out
}

} // verus!
