use crate::preprocess::{is_ident_byte, is_ident_byte_exec, BACKSLASH, DIGIT_0, DIGIT_9, DQUOTE, SQUOTE};
use vstd::prelude::*;

verus! {

/// The class of a token.
#[derive(Clone, Copy, Debug, PartialEq, Eq, Structural)]
pub enum TokenKind {
    Ident,
    Keyword,
    Int,
    /// A quoted string or character literal, quotes included.
    Literal,
    Punct,
}

/// A token: its class and the bytes `start..end` of the source it spans.
#[derive(Clone, Copy, Debug, PartialEq, Eq, Structural)]
pub struct Token {
    pub kind: TokenKind,
    pub start: usize,
    pub end: usize,
}

/// A lexical error, tagged with the byte offset where it was found.
#[derive(Clone, Copy, Debug, PartialEq, Eq, Structural)]
pub enum LexError {
    InvalidChar { at: usize },
    UnterminatedLiteral { start: usize },
}

pub open spec fn is_space(c: u8) -> bool {
    c == 32u8 || c == 9u8 || c == 10u8 || c == 13u8
}

pub open spec fn is_digit(c: u8) -> bool {
    DIGIT_0 <= c && c <= DIGIT_9
}

pub open spec fn starts_word(c: u8) -> bool {
    is_ident_byte(c) && !is_digit(c)
}

/// The reserved words, type names included.
pub open spec fn is_keyword(w: Seq<u8>) -> bool {
    w == seq![102, 110u8]
        || w == seq![115, 116, 114, 117, 99, 116u8]
        || w == seq![105, 109, 112, 108u8]
        || w == seq![108, 101, 116u8]
        || w == seq![109, 117, 116u8]
        || w == seq![105, 102u8]
        || w == seq![101, 108, 115, 101u8]
        || w == seq![108, 111, 111, 112u8]
        || w == seq![98, 114, 101, 97, 107u8]
        || w == seq![99, 111, 110, 116, 105, 110, 117, 101u8]
        || w == seq![114, 101, 116, 117, 114, 110u8]
        || w == seq![119, 104, 105, 108, 101u8]
        || w == seq![99, 111, 110, 115, 116u8]
        || w == seq![116, 114, 117, 101u8]
        || w == seq![102, 97, 108, 115, 101u8]
        || w == seq![115, 101, 108, 102u8]
        || w == seq![83, 101, 108, 102u8]
        || w == seq![97, 115u8]
        || w == seq![105, 51, 50u8]
        || w == seq![98, 111, 111, 108u8]
        || w == seq![117, 115, 105, 122, 101u8]
        || w == seq![115, 116, 114u8]
}

pub open spec fn is_two_char_punct(a: u8, b: u8) -> bool {
    (a == 61u8 && b == 61u8)
        || (a == 33u8 && b == 61u8)
        || (a == 60u8 && b == 61u8)
        || (a == 62u8 && b == 61u8)
        || (a == 38u8 && b == 38u8)
        || (a == 124u8 && b == 124u8)
        || (a == 43u8 && b == 61u8)
        || (a == 45u8 && b == 61u8)
        || (a == 42u8 && b == 61u8)
        || (a == 47u8 && b == 61u8)
        || (a == 45u8 && b == 62u8)
        || (a == 58u8 && b == 58u8)
        || (a == 61u8 && b == 62u8)
}

pub open spec fn is_one_char_punct(c: u8) -> bool {
    c == 43u8
        || c == 45u8
        || c == 42u8
        || c == 47u8
        || c == 37u8
        || c == 61u8
        || c == 60u8
        || c == 62u8
        || c == 33u8
        || c == 38u8
        || c == 124u8
        || c == 40u8
        || c == 41u8
        || c == 123u8
        || c == 125u8
        || c == 91u8
        || c == 93u8
        || c == 59u8
        || c == 44u8
        || c == 46u8
        || c == 58u8
}

/// The end of the run of identifier characters that starts at `i`.
pub open spec fn word_end(s: Seq<u8>, i: int) -> int
    decreases s.len() - i,
{
    if 0 <= i < s.len() && is_ident_byte(s[i]) { word_end(s, i + 1) } else { i }
}

/// The end of the run of digits that starts at `i`.
pub open spec fn digits_end(s: Seq<u8>, i: int) -> int
    decreases s.len() - i,
{
    if 0 <= i < s.len() && is_digit(s[i]) { digits_end(s, i + 1) } else { i }
}

/// Just past the `quote` that closes a literal whose body starts at `i`,
/// a backslash escaping the byte after it; `None` when the input ends first.
pub open spec fn quoted_end(s: Seq<u8>, i: int, quote: u8) -> Option<int>
    decreases s.len() - i,
{
    if i < 0 || i >= s.len() {
        None
    } else if s[i] == BACKSLASH {
        if i + 1 < s.len() { quoted_end(s, i + 2, quote) } else { None }
    } else if s[i] == quote {
        Some(i + 1)
    } else {
        quoted_end(s, i + 1, quote)
    }
}

/// The token that starts at `i`, a byte that is no whitespace.
pub open spec fn token_at(s: Seq<u8>, i: int) -> Result<Token, LexError> {
    let c = s[i];
    if starts_word(c) {
        let e = word_end(s, i);
        let kind = if is_keyword(s.subrange(i, e)) { TokenKind::Keyword } else { TokenKind::Ident };
        Ok(Token { kind, start: i as usize, end: e as usize })
    } else if is_digit(c) {
        Ok(Token { kind: TokenKind::Int, start: i as usize, end: digits_end(s, i) as usize })
    } else if c == DQUOTE || c == SQUOTE {
        match quoted_end(s, i + 1, c) {
            Some(e) => Ok(Token { kind: TokenKind::Literal, start: i as usize, end: e as usize }),
            None => Err(LexError::UnterminatedLiteral { start: i as usize }),
        }
    } else if i + 1 < s.len() && is_two_char_punct(c, s[i + 1]) {
        Ok(Token { kind: TokenKind::Punct, start: i as usize, end: (i + 2) as usize })
    } else if is_one_char_punct(c) {
        Ok(Token { kind: TokenKind::Punct, start: i as usize, end: (i + 1) as usize })
    } else {
        Err(LexError::InvalidChar { at: i as usize })
    }
}

pub open spec fn push_front(t: Token, r: Result<Seq<Token>, LexError>) -> Result<Seq<Token>, LexError> {
    match r {
        Ok(ts) => Ok(seq![t] + ts),
        Err(e) => Err(e),
    }
}

/// The tokens of `s` from position `i` on, whitespace skipped; the first
/// error ends the scan.
pub open spec fn tokens_from(s: Seq<u8>, i: int) -> Result<Seq<Token>, LexError>
    decreases s.len() - i,
{
    if i < 0 || i >= s.len() {
        Ok(Seq::empty())
    } else if is_space(s[i]) {
        tokens_from(s, i + 1)
    } else {
        match token_at(s, i) {
            Ok(t) => if i < t.end <= s.len() { push_front(t, tokens_from(s, t.end as int)) } else { Ok(Seq::empty()) },
            Err(e) => Err(e),
        }
    }
}

/// Whether the bytes `start..end` of `s` spell `w`.
pub(crate) fn word_is(s: &Vec<u8>, start: usize, end: usize, w: &[u8]) -> (r: bool)
    requires
        start <= end <= s@.len(),
    ensures
        r == (s@.subrange(start as int, end as int) == w@),
{
    if end - start != w.len() {
        proof {
            assert(s@.subrange(start as int, end as int).len() != w@.len());
        }
        return false;
    }
    let mut k: usize = 0;
    while k < w.len()
        invariant
            start <= end <= s@.len(),
            end - start == w@.len(),
            k <= w@.len(),
            forall|m: int| 0 <= m < k ==> s@[start + m] == w@[m],
        decreases w@.len() - k,
    {
        if s[start + k] != w[k] {
            proof {
                assert(s@.subrange(start as int, end as int)[k as int] != w@[k as int]);
            }
            return false;
        }
        k = k + 1;
    }
    assert(s@.subrange(start as int, end as int) =~= w@);
    true
}

fn is_keyword_exec(s: &Vec<u8>, start: usize, end: usize) -> (r: bool)
    requires
        start <= end <= s@.len(),
    ensures
        r == is_keyword(s@.subrange(start as int, end as int)),
{
    word_is(s, start, end, &[102, 110u8])
        || word_is(s, start, end, &[115, 116, 114, 117, 99, 116u8])
        || word_is(s, start, end, &[105, 109, 112, 108u8])
        || word_is(s, start, end, &[108, 101, 116u8])
        || word_is(s, start, end, &[109, 117, 116u8])
        || word_is(s, start, end, &[105, 102u8])
        || word_is(s, start, end, &[101, 108, 115, 101u8])
        || word_is(s, start, end, &[108, 111, 111, 112u8])
        || word_is(s, start, end, &[98, 114, 101, 97, 107u8])
        || word_is(s, start, end, &[99, 111, 110, 116, 105, 110, 117, 101u8])
        || word_is(s, start, end, &[114, 101, 116, 117, 114, 110u8])
        || word_is(s, start, end, &[119, 104, 105, 108, 101u8])
        || word_is(s, start, end, &[99, 111, 110, 115, 116u8])
        || word_is(s, start, end, &[116, 114, 117, 101u8])
        || word_is(s, start, end, &[102, 97, 108, 115, 101u8])
        || word_is(s, start, end, &[115, 101, 108, 102u8])
        || word_is(s, start, end, &[83, 101, 108, 102u8])
        || word_is(s, start, end, &[97, 115u8])
        || word_is(s, start, end, &[105, 51, 50u8])
        || word_is(s, start, end, &[98, 111, 111, 108u8])
        || word_is(s, start, end, &[117, 115, 105, 122, 101u8])
        || word_is(s, start, end, &[115, 116, 114u8])
}

fn is_two_char_punct_exec(a: u8, b: u8) -> (r: bool)
    ensures
        r == is_two_char_punct(a, b),
{
    (a == 61u8 && b == 61u8)
        || (a == 33u8 && b == 61u8)
        || (a == 60u8 && b == 61u8)
        || (a == 62u8 && b == 61u8)
        || (a == 38u8 && b == 38u8)
        || (a == 124u8 && b == 124u8)
        || (a == 43u8 && b == 61u8)
        || (a == 45u8 && b == 61u8)
        || (a == 42u8 && b == 61u8)
        || (a == 47u8 && b == 61u8)
        || (a == 45u8 && b == 62u8)
        || (a == 58u8 && b == 58u8)
        || (a == 61u8 && b == 62u8)
}

fn is_one_char_punct_exec(c: u8) -> (r: bool)
    ensures
        r == is_one_char_punct(c),
{
    c == 43u8
        || c == 45u8
        || c == 42u8
        || c == 47u8
        || c == 37u8
        || c == 61u8
        || c == 60u8
        || c == 62u8
        || c == 33u8
        || c == 38u8
        || c == 124u8
        || c == 40u8
        || c == 41u8
        || c == 123u8
        || c == 125u8
        || c == 91u8
        || c == 93u8
        || c == 59u8
        || c == 44u8
        || c == 46u8
        || c == 58u8
}

fn word_end_exec(s: &Vec<u8>, i: usize) -> (e: usize)
    requires
        i <= s@.len(),
    ensures
        e == word_end(s@, i as int),
        i <= e <= s@.len(),
{
    let mut j: usize = i;
    while j < s.len() && is_ident_byte_exec(s[j])
        invariant
            i <= j <= s@.len(),
            word_end(s@, j as int) == word_end(s@, i as int),
        decreases s@.len() - j,
    {
        j = j + 1;
    }
    j
}

fn digits_end_exec(s: &Vec<u8>, i: usize) -> (e: usize)
    requires
        i <= s@.len(),
    ensures
        e == digits_end(s@, i as int),
        i <= e <= s@.len(),
{
    let mut j: usize = i;
    while j < s.len() && DIGIT_0 <= s[j] && s[j] <= DIGIT_9
        invariant
            i <= j <= s@.len(),
            digits_end(s@, j as int) == digits_end(s@, i as int),
        decreases s@.len() - j,
    {
        j = j + 1;
    }
    j
}

fn quoted_end_exec(s: &Vec<u8>, i: usize, quote: u8) -> (r: Option<usize>)
    requires
        i <= s@.len(),
    ensures
        r is None ==> quoted_end(s@, i as int, quote) is None,
        r is Some ==> quoted_end(s@, i as int, quote) == Some(r.unwrap() as int) && i < r.unwrap()
            <= s@.len(),
{
    let mut j: usize = i;
    while j < s.len()
        invariant
            i <= j <= s@.len(),
            quoted_end(s@, j as int, quote) == quoted_end(s@, i as int, quote),
        decreases s@.len() - j,
    {
        if s[j] == BACKSLASH {
            if j + 1 < s.len() {
                j = j + 2;
            } else {
                return None;
            }
        } else if s[j] == quote {
            return Some(j + 1);
        } else {
            j = j + 1;
        }
    }
    None
}

/// The token that starts at `i`, a byte that is no whitespace.
pub fn next_token(s: &Vec<u8>, i: usize) -> (r: Result<Token, LexError>)
    requires
        i < s@.len(),
        !is_space(s@[i as int]),
    ensures
        r == token_at(s@, i as int),
        r is Ok ==> i < r.unwrap().end <= s@.len() && r.unwrap().start == i,
{
    let len = s.len();
    let c = s[i];
    if is_ident_byte_exec(c) && !(DIGIT_0 <= c && c <= DIGIT_9) {
        let e = word_end_exec(s, i + 1);
        let kind = if is_keyword_exec(s, i, e) {
            TokenKind::Keyword
        } else {
            TokenKind::Ident
        };
        Ok(Token { kind, start: i, end: e })
    } else if DIGIT_0 <= c && c <= DIGIT_9 {
        let e = digits_end_exec(s, i + 1);
        Ok(Token { kind: TokenKind::Int, start: i, end: e })
    } else if c == DQUOTE || c == SQUOTE {
        match quoted_end_exec(s, i + 1, c) {
            Some(e) => Ok(Token { kind: TokenKind::Literal, start: i, end: e }),
            None => Err(LexError::UnterminatedLiteral { start: i }),
        }
    } else if i + 1 < len && is_two_char_punct_exec(c, s[i + 1]) {
        Ok(Token { kind: TokenKind::Punct, start: i, end: i + 2 })
    } else if is_one_char_punct_exec(c) {
        Ok(Token { kind: TokenKind::Punct, start: i, end: i + 1 })
    } else {
        Err(LexError::InvalidChar { at: i })
    }
}

pub open spec fn tokens_view(r: Result<Vec<Token>, LexError>) -> Result<Seq<Token>, LexError> {
    match r {
        Ok(v) => Ok(v@),
        Err(e) => Err(e),
    }
}

pub open spec fn append_all(out: Seq<Token>, r: Result<Seq<Token>, LexError>) -> Result<Seq<Token>, LexError> {
    match r {
        Ok(ts) => Ok(out + ts),
        Err(e) => Err(e),
    }
}

/// Splits preprocessed source text into tokens, skipping whitespace; fails
/// on the first byte that starts no token or on an unterminated literal.
pub fn tokenize(s: &Vec<u8>) -> (r: Result<Vec<Token>, LexError>)
    ensures
        tokens_view(r) == tokens_from(s@, 0),
{
    let mut out: Vec<Token> = Vec::new();
    let mut i: usize = 0;
    while i < s.len()
        invariant
            i <= s@.len(),
            append_all(out@, tokens_from(s@, i as int)) == tokens_from(s@, 0),
        decreases s@.len() - i,
    {
        let c = s[i];
        if c == 32u8 || c == 9u8 || c == 10u8 || c == 13u8 {
            i = i + 1;
        } else {
            match next_token(s, i) {
                Ok(t) => {
                    let ghost before = out@;
                    out.push(t);
                    proof {
                        match tokens_from(s@, t.end as int) {
                            Ok(ts) => {
                                assert(before + (seq![t] + ts) =~= before.push(t) + ts);
                            },
                            Err(_) => {},
                        }
                    }
                    i = t.end;
                },
                Err(e) => {
                    return Err(e);
                },
            }
        }
    }
    assert(out@ + Seq::<Token>::empty() =~= out@);
    Ok(out)
}

} // verus!
