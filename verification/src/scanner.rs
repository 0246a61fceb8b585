//! The executable scanner.

use vstd::prelude::*;
use vstd::std_specs::iter::IteratorSpec;
use vstd::string::*;
use crate::chars::{digit, is_digit, letter, word_char};
use crate::grammar::{
    element_at, has_char, in_class, lemma_element_fits, lemma_newlines_bounded, lemma_run_fits,
    line_at, literal_of, number_len, prefixed, punctuation_of, recover_from, resumed, run_len,
    scan, scan_from, spans_from, token_of, tokens_of, word_kind, CharClass, Element, Fault, Span,
    Spans,
};
use crate::token::{
    literal_view, token_views, try_to_keyword, Decimal, Literal, Token, TokenType, TokenView,
};

verus! {

/// Why a scan failed.
#[derive(Debug, Clone, Copy, PartialEq, Eq, Structural)]
pub enum ScannerError {
    /// A character that begins no token.
    InvalidCharacter(char),
    /// A numeral that denotes no number.
    MalformedNumber,
    /// A string literal without its closing quote.
    UnterminatedString,
    /// The cursor cannot walk the source: it holds as many characters as
    /// the machine's word can count.
    CursorOutOfRange,
}

/// A failure of a scan and the line on which it lies.
#[derive(Debug, Clone, Copy, PartialEq, Eq, Structural)]
pub struct Diagnostic {
    pub error: ScannerError,
    pub line: usize,
}

/// Whether `diagnostics` report `faults` of `s`, one for one and in order:
/// each with the fault's error and the line on which the fault starts.
pub open spec fn reports(s: Seq<char>, faults: Seq<Fault>, diagnostics: Seq<Diagnostic>) -> bool {
    &&& diagnostics.len() == faults.len()
    &&& forall|i: int|
        0 <= i < faults.len() ==> {
            &&& (#[trigger] diagnostics[i]).error == faults[i].error
            &&& diagnostics[i].line == line_at(s, faults[i].start)
        }
}

/// Whether `after` is `before` and one more token, whose model is `token`.
pub open spec fn appended(before: Seq<Token>, after: Seq<Token>, token: TokenView) -> bool {
    &&& after.len() == before.len() + 1
    &&& after.drop_last() == before
    &&& after.last()@ == token
}

/// The models of a sequence that grew by one token grow by that token's
/// model.
pub proof fn lemma_appended_views(before: Seq<Token>, after: Seq<Token>, token: TokenView)
    requires
        appended(before, after, token),
    ensures
        token_views(after) == token_views(before).push(token),
{
    assert(token_views(after) =~= token_views(before).push(token));
}

/// `String::push` appends one character to the end of the string. Not proved:
/// the contract restates the documentation of the standard library.
pub assume_specification[ std::string::String::push ](s: &mut std::string::String, ch: char)
    ensures
        final(s)@ == old(s)@.push(ch),
;

/// A cursor over a source text, and the tokens found so far.
#[derive(Debug)]
pub struct Scanner {
    /// The characters of the source text.
    pub source: Vec<char>,
    /// The tokens recognised so far.
    pub tokens: Vec<Token>,
    /// Where the element under the cursor starts.
    pub start: usize,
    /// The next unread position.
    pub current: usize,
    /// The line on which `current` lies.
    pub line: usize,
}

/// The characters of `source`, in order.
fn decode(source: &str) -> (r: Vec<char>)
    ensures
        r@ == source@,
{
    broadcast use vstd::string::group_string_axioms;

    let mut chars: Vec<char> = Vec::new();
    let mut it = source.chars();
    loop
        invariant
            chars@ + it.remaining() == source@,
            it.obeys_prophetic_iter_laws(),
            it.decrease() is Some,
        decreases it.decrease()->0,
    {
        let ghost before = it;
        match it.next() {
            Some(c) => {
                assert(before.remaining() == seq![c] + it.remaining());
                assert(chars@.push(c) + it.remaining() == chars@ + before.remaining());
                chars.push(c);
            },
            None => {
                assert(chars@ + it.remaining() == chars@);
                return chars;
            },
        }
    }
}

/// The kind of the one-character punctuation `c`, if it is one.
fn punctuation(c: char) -> (r: Option<TokenType>)
    ensures
        r == punctuation_of(c),
{
    match c {
        '(' => Some(TokenType::LeftParen),
        ')' => Some(TokenType::RightParen),
        '{' => Some(TokenType::LeftBrace),
        '}' => Some(TokenType::RightBrace),
        ',' => Some(TokenType::Comma),
        '.' => Some(TokenType::Dot),
        '-' => Some(TokenType::Minus),
        '+' => Some(TokenType::Plus),
        ';' => Some(TokenType::SemiColon),
        '*' => Some(TokenType::Star),
        _ => None,
    }
}

/// Whether `c` belongs to `class`.
fn class_has(class: CharClass, c: char) -> (r: bool)
    ensures
        r == in_class(class, c),
{
    match class {
        CharClass::Digit => digit(c),
        CharClass::Word => word_char(c),
        CharClass::CommentBody => c != '\n',
        CharClass::StringBody => c != '"',
    }
}

/// A copy of `token`.
fn copy_token(token: &Token) -> (r: Token)
    ensures
        r@ == token@,
{
    let literal = match &token.literal {
        Some(Literal::Float(d)) => Some(
            Literal::Float(Decimal { whole: d.whole.clone(), fraction: d.fraction.clone() }),
        ),
        Some(Literal::Text(t)) => Some(Literal::Text(t.clone())),
        None => None,
    };
    Token::new(token.token_type, token.lexeme.clone(), literal, token.line)
}

/// A copy of `tokens`.
fn copy_tokens(tokens: &Vec<Token>) -> (r: Vec<Token>)
    ensures
        token_views(r@) == token_views(tokens@),
{
    let mut copy: Vec<Token> = Vec::new();
    let mut i: usize = 0;
    while i < tokens.len()
        invariant
            i <= tokens.len(),
            copy@.len() == i,
            forall|j: int| 0 <= j < i ==> (#[trigger] copy@[j])@ == tokens@[j]@,
        decreases tokens.len() - i,
    {
        let token = copy_token(&tokens[i]);
        copy.push(token);
        i += 1;
    }
    assert(token_views(copy@) =~= token_views(tokens@));
    copy
}

/// Scans all of `source`: every token in source order and then the end
/// marker, or the first error. A source of as many characters as the
/// machine's word can count is refused with `CursorOutOfRange`.
pub fn scan_source(source: &str) -> (r: Result<Vec<Token>, ScannerError>)
    ensures
        source@.len() >= usize::MAX ==> r is Err && r->Err_0 == ScannerError::CursorOutOfRange,
        source@.len() < usize::MAX ==> match scan(source@) {
            Ok(tokens) => r is Ok && token_views(r->Ok_0@) == tokens,
            Err(error) => r is Err && r->Err_0 == error,
        },
{
    let mut scanner = Scanner::new(source);
    assert(token_views(scanner.tokens@) =~= Seq::<TokenView>::empty());
    let r = scanner.try_scan_tokens();
    proof {
        if let Ok(tokens) = scan(source@) {
            assert(Seq::<TokenView>::empty() + tokens =~= tokens);
        }
    }
    r
}

impl Scanner {
    /// What holds of a scanner between operations: the cursor lies within
    /// the source, not before the start of the element under it, and `line`
    /// is the line of the cursor.
    pub open spec fn wf(&self) -> bool {
        &&& self.start <= self.current <= self.source@.len()
        &&& self.line == line_at(self.source@, self.current as int)
    }

    /// Whether the cursor can walk the source: the scanner is well formed
    /// and the source is short enough for a position behind its end, and
    /// with it every line number, to fit the machine's word.
    pub open spec fn walkable(&self) -> bool {
        self.wf() && self.source@.len() < usize::MAX
    }

    /// A scanner at the beginning of `source`, on line 1, with no tokens.
    pub fn new(source: &str) -> (r: Self)
        ensures
            r.wf(),
            r.source@ == source@,
            r.tokens@.len() == 0,
            r.start == 0,
            r.current == 0,
            r.line == 1,
    {
        Self { source: decode(source), tokens: Vec::new(), start: 0, current: 0, line: 1 }
    }

    /// Whether the cursor has reached the end of the source.
    pub fn is_at_end(&self) -> (r: bool)
        ensures
            r == (self.current >= self.source@.len()),
    {
        self.current >= self.source.len()
    }

    /// The character under the cursor, or NUL at the end of the source. The
    /// cursor stays.
    pub fn peek(&self) -> (c: char)
        ensures
            c == if self.current < self.source@.len() {
                self.source@[self.current as int]
            } else {
                '\0'
            },
    {
        if self.current < self.source.len() {
            self.source[self.current]
        } else {
            '\0'
        }
    }

    /// The character after the one under the cursor, or NUL where the source
    /// has none. The cursor stays.
    pub fn peek_next(&self) -> (c: char)
        requires
            self.walkable(),
        ensures
            c == if self.current + 1 < self.source@.len() {
                self.source@[self.current + 1]
            } else {
                '\0'
            },
    {
        if self.current + 1 < self.source.len() {
            self.source[self.current + 1]
        } else {
            '\0'
        }
    }

    /// Reads the character under the cursor and moves past it, on to the
    /// next line if it was a newline.
    pub fn advance(&mut self) -> (c: char)
        requires
            old(self).walkable(),
            old(self).current < old(self).source@.len(),
        ensures
            final(self).walkable(),
            c == old(self).source@[old(self).current as int],
            final(self).current == old(self).current + 1,
            final(self).source == old(self).source,
            final(self).tokens == old(self).tokens,
            final(self).start == old(self).start,
    {
        let c = self.source[self.current];
        proof {
            lemma_newlines_bounded(self.source@, self.current as int);
        }
        self.current = self.current + 1;
        if c == '\n' {
            self.line = self.line + 1;
        }
        c
    }

    /// Moves past the character under the cursor if it is `expected`, and
    /// says whether it did.
    pub fn is_next(&mut self, expected: char) -> (r: bool)
        requires
            old(self).walkable(),
        ensures
            final(self).walkable(),
            r == has_char(old(self).source@, old(self).current as int, expected),
            final(self).current == if r {
                old(self).current + 1
            } else {
                old(self).current as int
            },
            final(self).source == old(self).source,
            final(self).tokens == old(self).tokens,
            final(self).start == old(self).start,
    {
        if self.is_at_end() || self.peek() != expected {
            false
        } else {
            self.advance();
            true
        }
    }

    /// Whether a character of `class` is under the cursor.
    fn continues(&self, class: CharClass) -> (r: bool)
        ensures
            r == (self.current < self.source@.len() && in_class(
                class,
                self.source@[self.current as int],
            )),
    {
        self.current < self.source.len() && class_has(class, self.source[self.current])
    }

    /// Moves past the longest run of characters of `class` under the cursor.
    pub fn consume_run(&mut self, class: CharClass)
        requires
            old(self).walkable(),
        ensures
            final(self).walkable(),
            final(self).current == old(self).current + run_len(
                old(self).source@,
                old(self).current as int,
                class,
            ),
            final(self).source == old(self).source,
            final(self).tokens == old(self).tokens,
            final(self).start == old(self).start,
    {
        while self.continues(class)
            invariant
                self.walkable(),
                self.current + run_len(self.source@, self.current as int, class) == old(
                    self,
                ).current + run_len(old(self).source@, old(self).current as int, class),
                self.source == old(self).source,
                self.tokens == old(self).tokens,
                self.start == old(self).start,
            decreases self.source@.len() - self.current,
        {
            self.advance();
        }
    }

    /// The text of the source from `from` up to `to`.
    pub fn text(&self, from: usize, to: usize) -> (r: String)
        requires
            from <= to <= self.source@.len(),
        ensures
            r@ == self.source@.subrange(from as int, to as int),
    {
        let mut text = String::new();
        let mut i: usize = from;
        while i < to
            invariant
                from <= i <= to <= self.source@.len(),
                text@ == self.source@.subrange(from as int, i as int),
            decreases to - i,
        {
            assert(self.source@.subrange(from as int, i as int).push(self.source@[i as int])
                =~= self.source@.subrange(from as int, i + 1));
            text.push(self.source[i]);
            i += 1;
        }
        text
    }

    /// Appends the token of `token_type` whose lexeme is the text between
    /// `start` and the cursor.
    pub fn add_token(&mut self, token_type: TokenType, literal: Option<Literal>, line: usize)
        requires
            old(self).start <= old(self).current <= old(self).source@.len(),
        ensures
            appended(
                old(self).tokens@,
                final(self).tokens@,
                (TokenView {
                    token_type,
                    lexeme: old(self).source@.subrange(
                        old(self).start as int,
                        old(self).current as int,
                    ),
                    literal: literal_view(literal),
                    line: line as nat,
                }),
            ),
            final(self).source == old(self).source,
            final(self).start == old(self).start,
            final(self).current == old(self).current,
            final(self).line == old(self).line,
    {
        let lexeme = self.text(self.start, self.current);
        let token = Token::new(token_type, lexeme, literal, line);
        self.tokens.push(token);
        assert(self.tokens@.drop_last() =~= old(self).tokens@);
    }

    /// Scans the rest of a numeral whose first digit was just read, and
    /// appends its token.
    pub fn number(&mut self, line: usize)
        requires
            old(self).walkable(),
            old(self).start + 1 == old(self).current,
            is_digit(old(self).source@[old(self).start as int]),
        ensures
            final(self).walkable(),
            final(self).current == old(self).start + number_len(
                old(self).source@,
                old(self).start as int,
            ),
            appended(
                old(self).tokens@,
                final(self).tokens@,
                (TokenView {
                    line: line as nat,
                    ..token_of(
                        old(self).source@,
                        (Span {
                            kind: TokenType::Number,
                            start: old(self).start as int,
                            end: final(self).current as int,
                        }),
                    )
                }),
            ),
            final(self).source == old(self).source,
            final(self).start == old(self).start,
    {
        self.consume_run(CharClass::Digit);
        let point: usize = self.current;
        let mut fraction = String::new();
        if self.peek() == '.' && digit(self.peek_next()) {
            self.advance();
            self.consume_run(CharClass::Digit);
            fraction = self.text(point + 1, self.current);
        }
        let whole = self.text(self.start, point);
        proof {
            if self.current == point {
                assert(fraction@ =~= Seq::<char>::empty());
            }
        }
        self.add_token(TokenType::Number, Some(Literal::Float(Decimal { whole, fraction })), line);
    }

    /// Scans the rest of an identifier-shaped run whose first character was
    /// just read, and appends its token: a reserved word's, or `Identifier`.
    pub fn identifier(&mut self, line: usize)
        requires
            old(self).walkable(),
            old(self).start + 1 == old(self).current,
        ensures
            final(self).walkable(),
            final(self).current == old(self).current + run_len(
                old(self).source@,
                old(self).current as int,
                CharClass::Word,
            ),
            appended(
                old(self).tokens@,
                final(self).tokens@,
                (TokenView {
                    token_type: word_kind(
                        old(self).source@.subrange(
                            old(self).start as int,
                            final(self).current as int,
                        ),
                    ),
                    lexeme: old(self).source@.subrange(
                        old(self).start as int,
                        final(self).current as int,
                    ),
                    literal: None,
                    line: line as nat,
                }),
            ),
            final(self).source == old(self).source,
            final(self).start == old(self).start,
    {
        self.consume_run(CharClass::Word);
        let word = self.text(self.start, self.current);
        let token_type = match try_to_keyword(word.as_str()) {
            Some(kind) => kind,
            None => TokenType::Identifier,
        };
        self.add_token(token_type, None, line);
    }

    /// Scans the rest of a string literal whose opening quote was just read.
    /// Appends its token if the closing quote is found; fails, with the
    /// cursor at the end of the source, if it is not.
    pub fn string(&mut self, line: usize) -> (r: Result<(), ScannerError>)
        requires
            old(self).walkable(),
            old(self).start + 1 == old(self).current,
        ensures
            final(self).walkable(),
            final(self).source == old(self).source,
            final(self).start == old(self).start,
            ({
                let s = old(self).source@;
                let body = run_len(s, old(self).current as int, CharClass::StringBody);
                if old(self).current + body < s.len() {
                    &&& r is Ok
                    &&& final(self).current == old(self).current + body + 1
                    &&& appended(
                        old(self).tokens@,
                        final(self).tokens@,
                        (TokenView {
                            token_type: TokenType::String,
                            lexeme: s.subrange(
                                old(self).start as int,
                                final(self).current as int,
                            ),
                            literal: literal_of(
                                s,
                                TokenType::String,
                                old(self).start as int,
                                final(self).current as int,
                            ),
                            line: line as nat,
                        }),
                    )
                } else {
                    &&& r == Err::<(), ScannerError>(ScannerError::UnterminatedString)
                    &&& final(self).current == s.len()
                    &&& final(self).tokens == old(self).tokens
                }
            }),
    {
        proof {
            lemma_run_fits(self.source@, self.current as int, CharClass::StringBody);
        }
        self.consume_run(CharClass::StringBody);
        if self.is_at_end() {
            return Err(ScannerError::UnterminatedString);
        }
        self.advance();
        let body = self.text(self.start + 1, self.current - 1);
        self.add_token(TokenType::String, Some(Literal::Text(body)), line);
        Ok(())
    }

    /// Scans the one element under the cursor: appends its token, or skips
    /// it if it is whitespace or a comment. If nothing starts there that
    /// the language knows, fails and leaves the scanner as it was.
    pub fn try_scan_token(&mut self) -> (r: Result<(), ScannerError>)
        requires
            old(self).walkable(),
            old(self).start == old(self).current,
            old(self).current < old(self).source@.len(),
        ensures
            final(self).walkable(),
            final(self).source == old(self).source,
            final(self).start == old(self).start,
            match element_at(old(self).source@, old(self).current as int) {
                Element::Token { kind, len } => {
                    &&& r is Ok
                    &&& final(self).current == old(self).current + len
                    &&& appended(
                        old(self).tokens@,
                        final(self).tokens@,
                        token_of(
                            old(self).source@,
                            (Span {
                                kind,
                                start: old(self).current as int,
                                end: old(self).current + len,
                            }),
                        ),
                    )
                },
                Element::Trivia { len } => {
                    &&& r is Ok
                    &&& final(self).current == old(self).current + len
                    &&& final(self).tokens == old(self).tokens
                },
                Element::Fail { error } => {
                    &&& r == Err::<(), ScannerError>(error)
                    &&& final(self).current == old(self).current
                    &&& final(self).line == old(self).line
                    &&& final(self).tokens == old(self).tokens
                },
            },
    {
        let line: usize = self.line;
        let c = self.advance();
        if let Some(kind) = punctuation(c) {
            self.add_token(kind, None, line);
        } else if c == '!' {
            let kind = if self.is_next('=') {
                TokenType::BangEqual
            } else {
                TokenType::Bang
            };
            self.add_token(kind, None, line);
        } else if c == '=' {
            let kind = if self.is_next('=') {
                TokenType::EqualEqual
            } else {
                TokenType::Equal
            };
            self.add_token(kind, None, line);
        } else if c == '<' {
            let kind = if self.is_next('=') {
                TokenType::LessEqual
            } else {
                TokenType::Less
            };
            self.add_token(kind, None, line);
        } else if c == '>' {
            let kind = if self.is_next('=') {
                TokenType::GreaterEqual
            } else {
                TokenType::Greater
            };
            self.add_token(kind, None, line);
        } else if c == '/' {
            if self.is_next('/') {
                self.consume_run(CharClass::CommentBody);
            } else {
                self.add_token(TokenType::Slash, None, line);
            }
        } else if c == ' ' || c == '\r' || c == '\t' || c == '\n' {
        } else if c == '"' {
            if let Err(error) = self.string(line) {
                self.current = self.start;
                self.line = line;
                return Err(error);
            }
        } else if digit(c) {
            self.number(line);
        } else if letter(c) {
            self.identifier(line);
        } else {
            self.current = self.start;
            self.line = line;
            return Err(ScannerError::InvalidCharacter(c));
        }
        Ok(())
    }

    /// Scans the source from the cursor to its end. On success returns the
    /// tokens held before, then every token from the cursor on in source
    /// order, then the end marker; the scanner keeps the same tokens and its
    /// cursor is at the end. On the first element that the language does not
    /// know, returns its error, drops the tokens found in this scan and
    /// leaves the cursor, and with it `line`, at the start of that element.
    /// A source of as many characters as the machine's word can count is
    /// refused with `CursorOutOfRange`, and the scanner stays as it was.
    pub fn try_scan_tokens(&mut self) -> (r: Result<Vec<Token>, ScannerError>)
        requires
            old(self).wf(),
        ensures
            final(self).wf(),
            final(self).source == old(self).source,
            old(self).source@.len() >= usize::MAX ==> {
                &&& r is Err
                &&& r->Err_0 == ScannerError::CursorOutOfRange
                &&& *final(self) == *old(self)
            },
            old(self).source@.len() < usize::MAX ==> match spans_from(
                old(self).source@,
                old(self).current as int,
            ) {
                Spans::Found(spans) => {
                    &&& r is Ok
                    &&& token_views(r->Ok_0@) == token_views(old(self).tokens@) + tokens_of(
                        old(self).source@,
                        spans,
                    )
                    &&& token_views(final(self).tokens@) == token_views(r->Ok_0@)
                    &&& final(self).start == final(self).source@.len()
                    &&& final(self).current == final(self).source@.len()
                },
                Spans::Failed(fault) => {
                    &&& r is Err
                    &&& r->Err_0 == fault.error
                    &&& final(self).start == fault.start
                    &&& final(self).current == fault.start
                    &&& final(self).line == line_at(old(self).source@, fault.start)
                    &&& final(self).tokens@ == old(self).tokens@
                },
            },
            old(self).source@.len() < usize::MAX ==> match scan_from(
                old(self).source@,
                old(self).current as int,
            ) {
                Ok(found) => r is Ok && token_views(r->Ok_0@) == token_views(old(self).tokens@)
                    + found,
                Err(error) => r is Err && r->Err_0 == error,
            },
    {
        if self.source.len() == usize::MAX {
            return Err(ScannerError::CursorOutOfRange);
        }
        let held: usize = self.tokens.len();
        let ghost s = self.source@;
        let ghost from = self.current as int;
        let ghost mut done: Seq<Span> = Seq::empty();
        assert(tokens_of(s, done) =~= Seq::<TokenView>::empty());
        assert(token_views(self.tokens@) =~= token_views(self.tokens@) + tokens_of(s, done));
        assert(spans_from(s, from) == prefixed(done, spans_from(s, from))) by {
            if let Spans::Found(rest) = spans_from(s, from) {
                assert(done + rest =~= rest);
            }
        }
        while !self.is_at_end()
            invariant
                self.walkable(),
                self.source@ == s,
                self.source == old(self).source,
                from == old(self).current,
                from <= self.current,
                held == old(self).tokens@.len(),
                held <= self.tokens@.len(),
                self.tokens@.subrange(0, held as int) == old(self).tokens@,
                token_views(self.tokens@) == token_views(old(self).tokens@) + tokens_of(s, done),
                spans_from(s, from) == prefixed(done, spans_from(s, self.current as int)),
            decreases s.len() - self.current,
        {
            self.start = self.current;
            let ghost here = self.current as int;
            let ghost before = self.tokens@;
            proof {
                lemma_element_fits(s, here);
            }
            if let Err(error) = self.try_scan_token() {
                self.tokens.truncate(held);
                return Err(error);
            }
            proof {
                if let Element::Token { kind, len } = element_at(s, here) {
                    let span = Span { kind, start: here, end: here + len };
                    let next = done.push(span);
                    lemma_appended_views(before, self.tokens@, token_of(s, span));
                    assert(self.tokens@.subrange(0, held as int) =~= before.subrange(
                        0,
                        held as int,
                    ));
                    assert(tokens_of(s, next) =~= tokens_of(s, done).push(token_of(s, span)));
                    assert(token_views(self.tokens@) =~= token_views(old(self).tokens@)
                        + tokens_of(s, next));
                    if let Spans::Found(rest) = spans_from(s, here + len) {
                        assert(done + (seq![span] + rest) =~= next + rest);
                    }
                    done = next;
                }
            }
        }
        self.start = self.current;
        let ghost before = self.tokens@;
        self.add_token(TokenType::EndOfSource, None, self.line);
        proof {
            let end = Span { kind: TokenType::EndOfSource, start: s.len() as int, end: s.len() as int };
            lemma_appended_views(before, self.tokens@, token_of(s, end));
            assert(spans_from(s, s.len() as int) == Spans::Found(seq![end]));
            assert(tokens_of(s, done + seq![end]) =~= tokens_of(s, done).push(token_of(s, end)));
            assert(token_views(self.tokens@) =~= token_views(old(self).tokens@) + tokens_of(
                s,
                done + seq![end],
            ));
        }
        Ok(copy_tokens(&self.tokens))
    }

    /// Scans the source from the cursor to its end without stopping at a
    /// failure: each element that the language does not know is reported
    /// with its line, its first character is skipped and the scan goes on.
    /// Returns the tokens held before, every token found from the cursor on
    /// and the end marker, together with the reports in source order. A
    /// source of as many characters as the machine's word can count is not
    /// scanned: the only report is `CursorOutOfRange` and the scanner stays
    /// as it was.
    pub fn scan_all_tokens(&mut self) -> (r: (Vec<Token>, Vec<Diagnostic>))
        requires
            old(self).wf(),
        ensures
            final(self).wf(),
            final(self).source == old(self).source,
            old(self).source@.len() >= usize::MAX ==> {
                &&& token_views(r.0@) == token_views(old(self).tokens@)
                &&& r.1@ == seq![
                    Diagnostic { error: ScannerError::CursorOutOfRange, line: old(self).line },
                ]
                &&& *final(self) == *old(self)
            },
            old(self).source@.len() < usize::MAX ==> {
                let found = recover_from(old(self).source@, old(self).current as int);
                &&& token_views(r.0@) == token_views(old(self).tokens@) + tokens_of(
                    old(self).source@,
                    found.spans,
                )
                &&& token_views(final(self).tokens@) == token_views(r.0@)
                &&& reports(old(self).source@, found.faults, r.1@)
                &&& final(self).start == final(self).source@.len()
                &&& final(self).current == final(self).source@.len()
            },
    {
        let mut diagnostics: Vec<Diagnostic> = Vec::new();
        if self.source.len() == usize::MAX {
            diagnostics.push(Diagnostic { error: ScannerError::CursorOutOfRange, line: self.line });
            return (copy_tokens(&self.tokens), diagnostics);
        }
        let ghost s = self.source@;
        let ghost from = self.current as int;
        let ghost mut spans: Seq<Span> = Seq::empty();
        let ghost mut faults: Seq<Fault> = Seq::empty();
        proof {
            let rest = recover_from(s, from);
            assert(tokens_of(s, spans) =~= Seq::<TokenView>::empty());
            assert(token_views(self.tokens@) =~= token_views(self.tokens@) + tokens_of(s, spans));
            assert(spans + rest.spans =~= rest.spans);
            assert(faults + rest.faults =~= rest.faults);
        }
        while !self.is_at_end()
            invariant
                self.walkable(),
                self.source@ == s,
                self.source == old(self).source,
                from == old(self).current,
                from <= self.current,
                token_views(self.tokens@) == token_views(old(self).tokens@) + tokens_of(s, spans),
                reports(s, faults, diagnostics@),
                forall|i: int| 0 <= i < faults.len() ==> 0 <= (#[trigger] faults[i]).start < s.len(),
                recover_from(s, from) == resumed(spans, faults, recover_from(s, self.current as int)),
            decreases s.len() - self.current,
        {
            self.start = self.current;
            let ghost here = self.current as int;
            let ghost before = self.tokens@;
            let ghost rest = recover_from(s, here);
            proof {
                lemma_element_fits(s, here);
            }
            match self.try_scan_token() {
                Err(error) => {
                    diagnostics.push(Diagnostic { error, line: self.line });
                    self.advance();
                    proof {
                        let next = recover_from(s, here + 1);
                        let fault = Fault { error, start: here };
                        assert(rest == resumed(Seq::empty(), seq![fault], next));
                        assert(spans + rest.spans =~= spans + next.spans);
                        assert(faults + rest.faults =~= faults.push(fault) + next.faults);
                        faults = faults.push(fault);
                    }
                },
                Ok(()) => {
                    proof {
                        if let Element::Token { kind, len } = element_at(s, here) {
                            let span = Span { kind, start: here, end: here + len };
                            let next = recover_from(s, here + len);
                            assert(rest == resumed(seq![span], Seq::empty(), next));
                            lemma_appended_views(before, self.tokens@, token_of(s, span));
                            assert(tokens_of(s, spans.push(span)) =~= tokens_of(s, spans).push(
                                token_of(s, span),
                            ));
                            assert(token_views(self.tokens@) =~= token_views(old(self).tokens@)
                                + tokens_of(s, spans.push(span)));
                            assert(spans + rest.spans =~= spans.push(span) + next.spans);
                            assert(faults + rest.faults =~= faults + next.faults);
                            spans = spans.push(span);
                        }
                    }
                },
            }
        }
        self.start = self.current;
        let ghost before = self.tokens@;
        self.add_token(TokenType::EndOfSource, None, self.line);
        proof {
            let end = Span { kind: TokenType::EndOfSource, start: s.len() as int, end: s.len() as int };
            lemma_appended_views(before, self.tokens@, token_of(s, end));
            let rest = recover_from(s, s.len() as int);
            assert(rest.spans == seq![end]);
            assert(faults + rest.faults =~= faults);
            assert(tokens_of(s, spans + seq![end]) =~= tokens_of(s, spans).push(token_of(s, end)));
            assert(token_views(self.tokens@) =~= token_views(old(self).tokens@) + tokens_of(
                s,
                spans + seq![end],
            ));
        }
        (copy_tokens(&self.tokens), diagnostics)
    }
}

} // verus!
