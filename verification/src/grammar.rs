//! The mathematical model of scanning: what the token sequence of a source
//! text is, independent of how a scanner walks it.

use vstd::prelude::*;
use crate::chars::{is_blank, is_digit, is_letter, is_word_char};
use crate::scanner::ScannerError;
use crate::token::{keyword_of, DecimalView, LiteralView, TokenType, TokenView};

verus! {

/// The classes of characters that a scanner consumes in maximal runs.
#[derive(Debug, Clone, Copy, PartialEq, Eq, Structural)]
pub enum CharClass {
    /// Decimal digits.
    Digit,
    /// Characters that continue an identifier.
    Word,
    /// Anything up to the end of the line.
    CommentBody,
    /// Anything up to the closing quote.
    StringBody,
}

/// Whether `c` belongs to `class`.
pub open spec fn in_class(class: CharClass, c: char) -> bool {
    match class {
        CharClass::Digit => is_digit(c),
        CharClass::Word => is_word_char(c),
        CharClass::CommentBody => c != '\n',
        CharClass::StringBody => c != '"',
    }
}

/// The length of the longest run of characters of `class` that starts at
/// `pos`.
pub open spec fn run_len(s: Seq<char>, pos: int, class: CharClass) -> nat
    decreases s.len() - pos,
{
    if 0 <= pos < s.len() && in_class(class, s[pos]) {
        1 + run_len(s, pos + 1, class)
    } else {
        0
    }
}

/// The number of newline characters among the first `n` characters of `s`.
pub open spec fn count_newlines(s: Seq<char>, n: int) -> nat
    decreases n,
{
    if n <= 0 || n > s.len() {
        0
    } else if s[n - 1] == '\n' {
        1 + count_newlines(s, n - 1)
    } else {
        count_newlines(s, n - 1)
    }
}

/// There are no more newlines among `n` characters than characters.
pub proof fn lemma_newlines_bounded(s: Seq<char>, n: int)
    requires
        0 <= n,
    ensures
        count_newlines(s, n) <= n,
    decreases n,
{
    if 0 < n <= s.len() {
        lemma_newlines_bounded(s, n - 1);
    }
}

/// The 1-based line on which position `pos` of `s` lies.
pub open spec fn line_at(s: Seq<char>, pos: int) -> nat {
    1 + count_newlines(s, pos)
}

/// Whether the character at `pos` exists and is `c`.
pub open spec fn has_char(s: Seq<char>, pos: int, c: char) -> bool {
    0 <= pos < s.len() && s[pos] == c
}

/// Whether the character at `pos` exists and is a digit.
pub open spec fn has_digit(s: Seq<char>, pos: int) -> bool {
    0 <= pos < s.len() && is_digit(s[pos])
}

/// What stands at one position of the source.
pub enum Element {
    /// A token of `kind` that spans `len` characters.
    Token { kind: TokenType, len: nat },
    /// Whitespace or a comment of `len` characters, which yields no token.
    Trivia { len: nat },
    /// Nothing that the language knows.
    Fail { error: ScannerError },
}

/// The kind of the one-character punctuation `c`, if it is one. The slash is
/// not among them: what it means depends on what follows.
pub open spec fn punctuation_of(c: char) -> Option<TokenType> {
    if c == '(' {
        Some(TokenType::LeftParen)
    } else if c == ')' {
        Some(TokenType::RightParen)
    } else if c == '{' {
        Some(TokenType::LeftBrace)
    } else if c == '}' {
        Some(TokenType::RightBrace)
    } else if c == ',' {
        Some(TokenType::Comma)
    } else if c == '.' {
        Some(TokenType::Dot)
    } else if c == '-' {
        Some(TokenType::Minus)
    } else if c == '+' {
        Some(TokenType::Plus)
    } else if c == ';' {
        Some(TokenType::SemiColon)
    } else if c == '*' {
        Some(TokenType::Star)
    } else {
        None
    }
}

/// The two kinds of an operator character that `=` may follow.
pub struct Operator {
    /// Its kind when it stands alone.
    pub alone: TokenType,
    /// Its kind together with a following `=`.
    pub with_equal: TokenType,
}

/// The kinds of `c`, if it is an operator character that `=` may follow.
pub open spec fn operator_of(c: char) -> Option<Operator> {
    if c == '!' {
        Some(Operator { alone: TokenType::Bang, with_equal: TokenType::BangEqual })
    } else if c == '=' {
        Some(Operator { alone: TokenType::Equal, with_equal: TokenType::EqualEqual })
    } else if c == '<' {
        Some(Operator { alone: TokenType::Less, with_equal: TokenType::LessEqual })
    } else if c == '>' {
        Some(Operator { alone: TokenType::Greater, with_equal: TokenType::GreaterEqual })
    } else {
        None
    }
}

/// The length of the numeral that starts with the digit at `pos`: a maximal
/// run of digits, then, only if a point and a digit follow, the point and a
/// second maximal run of digits.
pub open spec fn number_len(s: Seq<char>, pos: int) -> nat {
    let whole = 1 + run_len(s, pos + 1, CharClass::Digit);
    if has_char(s, pos + whole, '.') && has_digit(s, pos + whole + 1) {
        whole + 1 + run_len(s, pos + whole + 1, CharClass::Digit)
    } else {
        whole
    }
}

/// The kind of an identifier-shaped run: that of the reserved word it spells,
/// or `Identifier`.
pub open spec fn word_kind(text: Seq<char>) -> TokenType {
    match keyword_of(text) {
        Some(kind) => kind,
        None => TokenType::Identifier,
    }
}

/// The element that starts at `pos`, for `0 <= pos < s.len()`.
pub open spec fn element_at(s: Seq<char>, pos: int) -> Element {
    let c = s[pos];
    if punctuation_of(c) is Some {
        Element::Token { kind: punctuation_of(c)->0, len: 1 }
    } else if operator_of(c) is Some {
        if has_char(s, pos + 1, '=') {
            Element::Token { kind: operator_of(c)->0.with_equal, len: 2 }
        } else {
            Element::Token { kind: operator_of(c)->0.alone, len: 1 }
        }
    } else if c == '/' {
        if has_char(s, pos + 1, '/') {
            Element::Trivia { len: 2 + run_len(s, pos + 2, CharClass::CommentBody) }
        } else {
            Element::Token { kind: TokenType::Slash, len: 1 }
        }
    } else if is_blank(c) {
        Element::Trivia { len: 1 }
    } else if c == '"' {
        let body = run_len(s, pos + 1, CharClass::StringBody);
        if pos + 1 + body < s.len() {
            Element::Token { kind: TokenType::String, len: body + 2 }
        } else {
            Element::Fail { error: ScannerError::UnterminatedString }
        }
    } else if is_digit(c) {
        Element::Token { kind: TokenType::Number, len: number_len(s, pos) }
    } else if is_letter(c) {
        let len = 1 + run_len(s, pos + 1, CharClass::Word);
        Element::Token { kind: word_kind(s.subrange(pos, pos + len)), len }
    } else {
        Element::Fail { error: ScannerError::InvalidCharacter(c) }
    }
}

/// The place and kind of one token: it spans `s[start..end]`.
pub struct Span {
    pub kind: TokenType,
    pub start: int,
    pub end: int,
}

/// The place and kind of one failure: nothing that the language knows
/// starts at `start`.
pub struct Fault {
    pub error: ScannerError,
    pub start: int,
}

/// The outcome of a scan, as spans: the spans of all tokens, or the first
/// failure.
pub enum Spans {
    Found(Seq<Span>),
    Failed(Fault),
}

/// Puts the spans `done` in front of what the rest of the scan gave.
pub open spec fn prefixed(done: Seq<Span>, rest: Spans) -> Spans {
    match rest {
        Spans::Found(spans) => Spans::Found(done + spans),
        Spans::Failed(fault) => Spans::Failed(fault),
    }
}

/// The spans of the tokens of `s` from `pos` on, closed by the end marker at
/// the end of the source; or the first failure met.
pub open spec fn spans_from(s: Seq<char>, pos: int) -> Spans
    decreases s.len() - pos,
    via spans_from_terminates
{
    if pos < 0 || pos >= s.len() {
        Spans::Found(
            seq![Span { kind: TokenType::EndOfSource, start: s.len() as int, end: s.len() as int }],
        )
    } else {
        match element_at(s, pos) {
            Element::Fail { error } => Spans::Failed(Fault { error, start: pos }),
            Element::Trivia { len } => spans_from(s, pos + len),
            Element::Token { kind, len } => prefixed(
                seq![Span { kind, start: pos, end: pos + len }],
                spans_from(s, pos + len),
            ),
        }
    }
}

/// A run ends within the source.
pub proof fn lemma_run_fits(s: Seq<char>, pos: int, class: CharClass)
    requires
        0 <= pos <= s.len(),
    ensures
        pos + run_len(s, pos, class) <= s.len(),
    decreases s.len() - pos,
{
    if pos < s.len() && in_class(class, s[pos]) {
        lemma_run_fits(s, pos + 1, class);
    }
}

/// Every element holds at least one character and ends within the source.
pub proof fn lemma_element_fits(s: Seq<char>, pos: int)
    requires
        0 <= pos < s.len(),
    ensures
        match element_at(s, pos) {
            Element::Token { len, .. } => 1 <= len && pos + len <= s.len(),
            Element::Trivia { len } => 1 <= len && pos + len <= s.len(),
            Element::Fail { .. } => true,
        },
{
    lemma_run_fits(s, pos + 1, CharClass::Digit);
    lemma_run_fits(s, pos + 1, CharClass::Word);
    if has_char(s, pos + 1, '/') {
        lemma_run_fits(s, pos + 2, CharClass::CommentBody);
    }
    let whole = 1 + run_len(s, pos + 1, CharClass::Digit);
    if has_digit(s, pos + whole + 1) {
        lemma_run_fits(s, pos + whole + 1, CharClass::Digit);
    }
}

#[via_fn]
proof fn spans_from_terminates(s: Seq<char>, pos: int) {
    if 0 <= pos < s.len() {
        lemma_element_fits(s, pos);
    }
}

/// The outcome of a scan that goes on after failures: the spans of the
/// tokens found and the failures met, each in source order.
pub struct Recovery {
    pub spans: Seq<Span>,
    pub faults: Seq<Fault>,
}

/// Puts `spans` and `faults` in front of what the rest of the scan gave.
pub open spec fn resumed(spans: Seq<Span>, faults: Seq<Fault>, rest: Recovery) -> Recovery {
    Recovery { spans: spans + rest.spans, faults: faults + rest.faults }
}

/// The outcome of scanning `s` from `pos` on without stopping at a failure:
/// where nothing known starts, the failure is recorded, the one offending
/// character is skipped, and the scan goes on behind it.
pub open spec fn recover_from(s: Seq<char>, pos: int) -> Recovery
    decreases s.len() - pos,
    via recover_from_terminates
{
    if pos < 0 || pos >= s.len() {
        Recovery {
            spans: seq![
                Span { kind: TokenType::EndOfSource, start: s.len() as int, end: s.len() as int },
            ],
            faults: Seq::empty(),
        }
    } else {
        match element_at(s, pos) {
            Element::Fail { error } => resumed(
                Seq::empty(),
                seq![Fault { error, start: pos }],
                recover_from(s, pos + 1),
            ),
            Element::Trivia { len } => recover_from(s, pos + len),
            Element::Token { kind, len } => resumed(
                seq![Span { kind, start: pos, end: pos + len }],
                Seq::empty(),
                recover_from(s, pos + len),
            ),
        }
    }
}

#[via_fn]
proof fn recover_from_terminates(s: Seq<char>, pos: int) {
    if 0 <= pos < s.len() {
        lemma_element_fits(s, pos);
    }
}

/// The literal that a token of `kind` spanning `s[start..end]` carries: the
/// text between the quotes for a string, the numeral's digits for a number,
/// nothing for any other kind.
pub open spec fn literal_of(s: Seq<char>, kind: TokenType, start: int, end: int) -> Option<LiteralView> {
    match kind {
        TokenType::String => Some(LiteralView::Text(s.subrange(start + 1, end - 1))),
        TokenType::Number => {
            let whole = 1 + run_len(s, start + 1, CharClass::Digit);
            Some(LiteralView::Float(
                if start + whole < end {
                    DecimalView {
                        whole: s.subrange(start, start + whole),
                        fraction: s.subrange(start + whole + 1, end),
                    }
                } else {
                    DecimalView { whole: s.subrange(start, end), fraction: Seq::empty() }
                },
            ))
        },
        _ => None,
    }
}

/// The token that `span` stands for: its lexeme is the spanned text, its line
/// the line on which the span starts.
pub open spec fn token_of(s: Seq<char>, span: Span) -> TokenView {
    TokenView {
        token_type: span.kind,
        lexeme: s.subrange(span.start, span.end),
        literal: literal_of(s, span.kind, span.start, span.end),
        line: line_at(s, span.start),
    }
}

/// The tokens that `spans` stand for, in order.
pub open spec fn tokens_of(s: Seq<char>, spans: Seq<Span>) -> Seq<TokenView> {
    spans.map_values(|span: Span| token_of(s, span))
}

/// The result of scanning `s` from `pos` on.
pub open spec fn scan_from(s: Seq<char>, pos: int) -> Result<Seq<TokenView>, ScannerError> {
    match spans_from(s, pos) {
        Spans::Found(spans) => Ok(tokens_of(s, spans)),
        Spans::Failed(fault) => Err(fault.error),
    }
}

/// The result of scanning all of `s`: every token in source order and then
/// the end marker, or the first error.
pub open spec fn scan(s: Seq<char>) -> Result<Seq<TokenView>, ScannerError> {
    scan_from(s, 0)
}

} // verus!
