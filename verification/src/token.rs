//! The words of a line: numbers, names and signs, each with its place.

use crate::decimal::is_digit;
use vstd::prelude::*;
use vstd::string::{is_ascii_spec_bytes, StrSliceExecFns, StringSliceAdditionalSpecFns};
use vstd::utf8::is_ascii_chars;

verus! {

/// What a token is.
#[derive(Clone, Copy, PartialEq, Eq, Structural, Debug)]
pub enum TokenKind {
    /// Digits, with `_` between them at will, and at most one point that a
    /// digit follows.
    Number,
    /// A letter or `_`, then letters, digits and `_`.
    Identifier,
    /// `+`
    Plus,
    /// `-`
    Minus,
    /// `*`
    Times,
    /// `/`
    Divide,
    /// `%`
    Modulo,
    /// `^`
    Power,
    /// `=`
    Assign,
    /// `(`
    Open,
    /// `)`
    Close,
    /// `~`, which marks the conversion to an approximate value.
    Convert,
}

/// A token and the characters of the line that it covers, from `start` up to
/// `end`.
#[derive(Clone, Copy, PartialEq, Eq, Structural, Debug)]
pub struct Token {
    pub kind: TokenKind,
    pub start: usize,
    pub end: usize,
}

/// A character that separates tokens and is no part of one.
pub open spec fn is_space(c: char) -> bool {
    c == ' ' || c == '\t' || c == '\n' || c == '\r'
}

/// A letter of the basic alphabet.
pub open spec fn is_letter(c: char) -> bool {
    'a' <= c <= 'z' || 'A' <= c <= 'Z'
}

/// A character that goes on a number, or with `letters` an identifier, once
/// it has begun.
pub open spec fn continues(c: char, letters: bool) -> bool {
    is_digit(c) || c == '_' || (letters && is_letter(c))
}

/// The sign that a character is, if it is one.
pub open spec fn sign(c: char) -> Option<TokenKind> {
    if c == '+' {
        Some(TokenKind::Plus)
    } else if c == '-' {
        Some(TokenKind::Minus)
    } else if c == '*' {
        Some(TokenKind::Times)
    } else if c == '/' {
        Some(TokenKind::Divide)
    } else if c == '%' {
        Some(TokenKind::Modulo)
    } else if c == '^' {
        Some(TokenKind::Power)
    } else if c == '=' {
        Some(TokenKind::Assign)
    } else if c == '(' {
        Some(TokenKind::Open)
    } else if c == ')' {
        Some(TokenKind::Close)
    } else if c == '~' {
        Some(TokenKind::Convert)
    } else {
        None
    }
}

/// Where the longest run of continuing characters from `from` ends.
pub open spec fn run_end(s: Seq<char>, from: int, letters: bool) -> int
    decreases s.len() - from,
{
    if 0 <= from < s.len() && continues(s[from], letters) {
        run_end(s, from + 1, letters)
    } else {
        from
    }
}

/// Where the number that begins at `start` ends: after its digits, and after
/// the digits behind a point where a digit follows the point.
pub open spec fn number_end(s: Seq<char>, start: int) -> int {
    let whole = run_end(s, start, false);
    if whole + 1 < s.len() && s[whole] == '.' && is_digit(s[whole + 1]) {
        run_end(s, whole + 1, false)
    } else {
        whole
    }
}

/// The token that begins at `pos`, where one does.
pub open spec fn token_at(s: Seq<char>, pos: int) -> Option<Token>
    recommends
        0 <= pos < s.len(),
{
    let c = s[pos];
    if is_digit(c) {
        Some(
            Token {
                kind: TokenKind::Number,
                start: pos as usize,
                end: number_end(s, pos) as usize,
            },
        )
    } else if continues(c, true) {
        Some(
            Token {
                kind: TokenKind::Identifier,
                start: pos as usize,
                end: run_end(s, pos + 1, true) as usize,
            },
        )
    } else {
        match sign(c) {
            Some(kind) => Some(Token { kind, start: pos as usize, end: (pos + 1) as usize }),
            None => None,
        }
    }
}

/// The tokens of the line from `pos` on, where the rest is made of tokens and
/// spaces alone.
pub open spec fn tokens_from(s: Seq<char>, pos: int) -> Option<Seq<Token>>
    decreases s.len() - pos,
{
    if !(0 <= pos < s.len()) {
        Some(Seq::empty())
    } else if is_space(s[pos]) {
        tokens_from(s, pos + 1)
    } else {
        match token_at(s, pos) {
            None => None,
            Some(token) => {
                proof {
                    lemma_run_end_bounds(s, pos, false);
                    lemma_run_end_bounds(s, pos + 1, true);
                    lemma_run_end_bounds(s, run_end(s, pos, false) + 1, false);
                }
                if pos < token.end <= s.len() {
                    match tokens_from(s, token.end as int) {
                        None => None,
                        Some(rest) => Some(seq![token] + rest),
                    }
                } else {
                    None
                }
            },
        }
    }
}

/// The tokens of a line. A line that holds a character outside the basic
/// set, or one that begins no token, has none.
pub open spec fn tokens_of(s: Seq<char>) -> Option<Seq<Token>> {
    if is_ascii_chars(s) && s.len() <= usize::MAX {
        tokens_from(s, 0)
    } else {
        None
    }
}

/// Every token covers at least one character of the line, and the tokens
/// follow each other without overlap.
pub open spec fn tokens_fit(s: Seq<char>, tokens: Seq<Token>) -> bool {
    forall|i: int|
        0 <= i < tokens.len() ==> (#[trigger] tokens[i]).start < tokens[i].end <= s.len()
}

/// A run ends at or after its start, within the line, at a character that
/// does not continue it.
pub proof fn lemma_run_end_bounds(s: Seq<char>, from: int, letters: bool)
    ensures
        0 <= from <= s.len() ==> from <= run_end(s, from, letters) <= s.len(),
        0 <= from <= s.len() ==> forall|i: int|
            from <= i < run_end(s, from, letters) ==> continues(#[trigger] s[i], letters),
        0 <= from && run_end(s, from, letters) < s.len() ==> !continues(
            s[run_end(s, from, letters)],
            letters,
        ),
    decreases s.len() - from,
{
    if 0 <= from < s.len() && continues(s[from], letters) {
        lemma_run_end_bounds(s, from + 1, letters);
    }
}

/// A run of continuing characters that the line's end or another character
/// follows ends there.
pub proof fn lemma_run_end_exact(s: Seq<char>, from: int, end: int, letters: bool)
    requires
        0 <= from <= end <= s.len(),
        forall|i: int| from <= i < end ==> continues(#[trigger] s[i], letters),
        end < s.len() ==> !continues(s[end], letters),
    ensures
        run_end(s, from, letters) == end,
    decreases end - from,
{
    if from < end {
        lemma_run_end_exact(s, from + 1, end, letters);
    }
}

/// Digits that the line's end follows, or a character that is no digit, no
/// separator and no point, are one number token.
pub proof fn lemma_digits_are_a_token(s: Seq<char>, from: int, end: int)
    requires
        0 <= from < end <= s.len() <= usize::MAX,
        forall|i: int| from <= i < end ==> is_digit(#[trigger] s[i]),
        end < s.len() ==> !continues(s[end], false) && s[end] != '.',
    ensures
        tokens_from(s, from) == match tokens_from(s, end) {
            Some(rest) => Some(
                seq![Token { kind: TokenKind::Number, start: from as usize, end: end as usize }]
                    + rest,
            ),
            None => None,
        },
{
    lemma_run_end_exact(s, from, end, false);
    assert(is_digit(s[from]));
    assert(number_end(s, from) == end);
}

/// A sign is a token.
pub proof fn lemma_sign_is_a_token(s: Seq<char>, pos: int, kind: TokenKind)
    requires
        0 <= pos < s.len() <= usize::MAX,
        sign(s[pos]) == Some(kind),
    ensures
        tokens_from(s, pos) == match tokens_from(s, pos + 1) {
            Some(rest) => Some(
                seq![Token { kind, start: pos as usize, end: (pos + 1) as usize }] + rest,
            ),
            None => None,
        },
{
}

/// The tokens of a line lie within it.
pub proof fn lemma_tokens_fit(s: Seq<char>, pos: int)
    requires
        s.len() <= usize::MAX,
    ensures
        tokens_from(s, pos) matches Some(tokens) ==> tokens_fit(s, tokens),
    decreases s.len() - pos,
{
    if 0 <= pos < s.len() {
        if is_space(s[pos]) {
            lemma_tokens_fit(s, pos + 1);
        } else if let Some(token) = token_at(s, pos) {
            if pos < token.end <= s.len() {
                lemma_tokens_fit(s, token.end as int);
            }
        }
    }
}

/// The character at a place of a line of basic characters.
pub(crate) fn char_at(line: &str, i: usize) -> (c: char)
    requires
        is_ascii_chars(line@),
        i < line@.len(),
    ensures
        c == line@[i as int],
{
    let b = line.get_ascii(i);
    b as char
}

/// The number of characters of a line of basic characters.
pub(crate) fn char_count(line: &str) -> (n: usize)
    requires
        is_ascii_chars(line@),
    ensures
        n == line@.len(),
{
    proof {
        assert(vstd::string::is_ascii(line));
        is_ascii_spec_bytes(line);
        assert(line.spec_bytes().len() == line@.len());
    }
    line.as_bytes().len()
}

/// Where the longest run of continuing characters from `from` ends.
fn scan_run(line: &str, from: usize, letters: bool) -> (end: usize)
    requires
        is_ascii_chars(line@),
        from <= line@.len(),
    ensures
        end == run_end(line@, from as int, letters),
        from <= end <= line@.len(),
{
    let n = char_count(line);
    let mut end = from;
    while end < n
        invariant
            is_ascii_chars(line@),
            n == line@.len(),
            from <= end <= n,
            run_end(line@, from as int, letters) == run_end(line@, end as int, letters),
        decreases n - end,
    {
        let c = char_at(line, end);
        let goes_on = ('0' <= c && c <= '9') || c == '_' || (letters && (('a' <= c && c <= 'z') || (
        'A' <= c && c <= 'Z')));
        if !goes_on {
            return end;
        }
        end = end + 1;
    }
    end
}

/// The sign that a character is, if it is one.
fn sign_of(c: char) -> (kind: Option<TokenKind>)
    ensures
        kind == sign(c),
{
    if c == '+' {
        Some(TokenKind::Plus)
    } else if c == '-' {
        Some(TokenKind::Minus)
    } else if c == '*' {
        Some(TokenKind::Times)
    } else if c == '/' {
        Some(TokenKind::Divide)
    } else if c == '%' {
        Some(TokenKind::Modulo)
    } else if c == '^' {
        Some(TokenKind::Power)
    } else if c == '=' {
        Some(TokenKind::Assign)
    } else if c == '(' {
        Some(TokenKind::Open)
    } else if c == ')' {
        Some(TokenKind::Close)
    } else if c == '~' {
        Some(TokenKind::Convert)
    } else {
        None
    }
}

/// The token that begins at `pos`, where one does.
fn scan_token(line: &str, pos: usize) -> (token: Option<Token>)
    requires
        is_ascii_chars(line@),
        pos < line@.len(),
        line@.len() <= usize::MAX,
    ensures
        token == token_at(line@, pos as int),
        token matches Some(t) ==> pos < t.end <= line@.len(),
{
    let n = char_count(line);
    let c = char_at(line, pos);
    proof {
        lemma_run_end_bounds(line@, pos as int, false);
        lemma_run_end_bounds(line@, pos + 1, true);
        lemma_run_end_bounds(line@, run_end(line@, pos as int, false) + 1, false);
    }
    if '0' <= c && c <= '9' {
        let whole = scan_run(line, pos, false);
        let end = if whole < n - 1 && char_at(line, whole) == '.' && is_digit_char(
            char_at(line, whole + 1),
        ) {
            scan_run(line, whole + 1, false)
        } else {
            whole
        };
        Some(Token { kind: TokenKind::Number, start: pos, end })
    } else if c == '_' || ('a' <= c && c <= 'z') || ('A' <= c && c <= 'Z') {
        let end = scan_run(line, pos + 1, true);
        Some(Token { kind: TokenKind::Identifier, start: pos, end })
    } else {
        match sign_of(c) {
            Some(kind) => Some(Token { kind, start: pos, end: pos + 1 }),
            None => None,
        }
    }
}

/// Whether a character is a decimal digit.
pub(crate) fn is_digit_char(c: char) -> (b: bool)
    ensures
        b == is_digit(c),
{
    '0' <= c && c <= '9'
}

/// Splits a line into its tokens. There are none where the line holds a
/// character that no token begins with or goes on with.
pub fn tokenize(line: &str) -> (r: Option<Vec<Token>>)
    ensures
        match tokens_of(line@) {
            Some(tokens) => r matches Some(v) && v@ == tokens,
            None => r is None,
        },
        r matches Some(v) ==> tokens_fit(line@, v@),
{
    if !line.is_ascii() {
        return None;
    }
    let n = char_count(line);
    let mut tokens: Vec<Token> = Vec::new();
    let mut pos: usize = 0;
    proof {
        lemma_tokens_fit(line@, 0);
    }
    while pos < n
        invariant
            is_ascii_chars(line@),
            n == line@.len(),
            pos <= n,
            tokens_from(line@, 0) == match tokens_from(line@, pos as int) {
                Some(rest) => Some(tokens@ + rest),
                None => None,
            },
        decreases n - pos,
    {
        let c = char_at(line, pos);
        if c == ' ' || c == '\t' || c == '\n' || c == '\r' {
            pos = pos + 1;
        } else {
            match scan_token(line, pos) {
                None => {
                    return None;
                },
                Some(token) => {
                    proof {
                        let rest = tokens_from(line@, token.end as int);
                        if let Some(rest) = rest {
                            assert(tokens@ + (seq![token] + rest) =~= tokens@.push(token) + rest);
                        }
                    }
                    tokens.push(token);
                    pos = token.end;
                },
            }
        }
    }
    proof {
        assert(tokens@ + Seq::<Token>::empty() =~= tokens@);
    }
    Some(tokens)
}

} // verus!
