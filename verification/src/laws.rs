//! General facts about every scan, proved from the model in
//! [`crate::grammar`].

use vstd::prelude::*;
use crate::chars::{is_blank, is_digit, is_letter, is_word_char};
use crate::grammar::{
    count_newlines, element_at, has_char, in_class, lemma_element_fits, lemma_run_fits, line_at,
    literal_of, punctuation_of, recover_from, run_len, scan, spans_from, token_of, tokens_of,
    word_kind, CharClass, Element, Fault, Span, Spans,
};
use crate::scanner::ScannerError;
use crate::token::{keyword_of, TokenType, TokenView};

verus! {

/// The span of the end marker of `s`.
pub open spec fn end_span(s: Seq<char>) -> Span {
    Span { kind: TokenType::EndOfSource, start: s.len() as int, end: s.len() as int }
}

/// The spans of the tokens of a source that scans without error.
pub open spec fn token_spans(s: Seq<char>) -> Seq<Span> {
    spans_from(s, 0)->Found_0
}

/// Whether `spans` lie in `s` from `pos` on as the spans of a scan do: each
/// within the source, each but the last a non-empty token that stands at its
/// start and ends before the next begins, the last the end marker.
pub open spec fn placed(s: Seq<char>, pos: int, spans: Seq<Span>) -> bool {
    &&& spans.len() >= 1
    &&& spans.last() == end_span(s)
    &&& forall|i: int|
        0 <= i < spans.len() ==> pos <= (#[trigger] spans[i]).start <= spans[i].end <= s.len()
    &&& forall|i: int|
        0 <= i < spans.len() - 1 ==> {
            &&& (#[trigger] spans[i]).start < spans[i].end
            &&& element_at(s, spans[i].start) == (Element::Token {
                kind: spans[i].kind,
                len: (spans[i].end - spans[i].start) as nat,
            })
        }
    &&& forall|i: int, j: int|
        0 <= i < j < spans.len() ==> (#[trigger] spans[i]).end <= (#[trigger] spans[j]).start
}

/// Every character of a run belongs to the run's class.
pub proof fn lemma_run_members(s: Seq<char>, pos: int, class: CharClass, k: int)
    requires
        0 <= pos <= k < pos + run_len(s, pos, class),
    ensures
        k < s.len(),
        in_class(class, s[k]),
    decreases k - pos,
{
    if k > pos {
        lemma_run_members(s, pos + 1, class, k);
    }
}

/// A run is maximal: it ends at the end of the source or before a character
/// that is not of its class.
pub proof fn lemma_run_maximal(s: Seq<char>, pos: int, class: CharClass)
    requires
        0 <= pos <= s.len(),
    ensures
        pos + run_len(s, pos, class) == s.len() || !in_class(
            class,
            s[pos + run_len(s, pos, class)],
        ),
    decreases s.len() - pos,
{
    if pos < s.len() && in_class(class, s[pos]) {
        lemma_run_maximal(s, pos + 1, class);
    }
}

/// The spans of a successful scan lie in the source in order, without
/// overlap, each token where the grammar finds it.
pub proof fn lemma_spans_placed(s: Seq<char>, pos: int)
    requires
        0 <= pos <= s.len(),
        spans_from(s, pos) is Found,
    ensures
        placed(s, pos, spans_from(s, pos)->Found_0),
    decreases s.len() - pos,
{
    if pos < s.len() {
        lemma_element_fits(s, pos);
        match element_at(s, pos) {
            Element::Fail { .. } => {},
            Element::Trivia { len } => {
                lemma_spans_placed(s, pos + len);
            },
            Element::Token { kind, len } => {
                lemma_spans_placed(s, pos + len);
                let first = Span { kind, start: pos, end: pos + len };
                let rest = spans_from(s, pos + len)->Found_0;
                let spans = spans_from(s, pos)->Found_0;
                assert(spans == seq![first] + rest);
                assert(spans.last() == rest.last());
                assert forall|i: int| 0 <= i < spans.len() implies pos <= (
                #[trigger] spans[i]).start <= spans[i].end <= s.len() by {
                    if i > 0 {
                        assert(spans[i] == rest[i - 1]);
                    }
                }
                assert forall|i: int| 0 <= i < spans.len() - 1 implies {
                    &&& (#[trigger] spans[i]).start < spans[i].end
                    &&& element_at(s, spans[i].start) == (Element::Token {
                        kind: spans[i].kind,
                        len: (spans[i].end - spans[i].start) as nat,
                    })
                } by {
                    if i > 0 {
                        assert(spans[i] == rest[i - 1]);
                    }
                }
                assert forall|i: int, j: int| 0 <= i < j < spans.len() implies (
                #[trigger] spans[i]).end <= (#[trigger] spans[j]).start by {
                    assert(spans[j] == rest[j - 1]);
                    if i > 0 {
                        assert(spans[i] == rest[i - 1]);
                    }
                }
            },
        }
    }
}

/// The count of newlines grows with the position.
pub proof fn lemma_newlines_monotone(s: Seq<char>, m: int, n: int)
    requires
        0 <= m <= n <= s.len(),
    ensures
        count_newlines(s, m) <= count_newlines(s, n),
    decreases n - m,
{
    if m < n {
        lemma_newlines_monotone(s, m, n - 1);
    }
}

/// A scan that succeeds gives one token for each span, with the span's text
/// as its lexeme, and ends with the one end marker; its tokens lie in the
/// source in order and without overlap.
pub proof fn lemma_tokens_follow_spans(s: Seq<char>)
    requires
        scan(s) is Ok,
    ensures
        scan(s)->Ok_0.len() == token_spans(s).len(),
        placed(s, 0, token_spans(s)),
        scan(s)->Ok_0.last().token_type == TokenType::EndOfSource,
        scan(s)->Ok_0.last().lexeme == Seq::<char>::empty(),
        scan(s)->Ok_0.last().line == line_at(s, s.len() as int),
        forall|i: int|
            0 <= i < token_spans(s).len() ==> (#[trigger] scan(s)->Ok_0[i]) == token_of(
                s,
                token_spans(s)[i],
            ),
        forall|i: int|
            0 <= i < token_spans(s).len() - 1 ==> (#[trigger] scan(s)->Ok_0[i]).token_type
                != TokenType::EndOfSource,
{
    lemma_spans_placed(s, 0);
    let spans = token_spans(s);
    assert(scan(s)->Ok_0 == tokens_of(s, spans));
    assert(s.subrange(s.len() as int, s.len() as int) =~= Seq::<char>::empty());
    assert forall|i: int| 0 <= i < spans.len() - 1 implies (#[trigger] scan(s)->Ok_0[i]).token_type
        != TokenType::EndOfSource by {
        assert(spans[i].start < spans[i].end);
        lemma_element_kinds(s, spans[i].start);
    }
}

/// No element of the source is an end marker.
pub proof fn lemma_element_kinds(s: Seq<char>, pos: int)
    requires
        0 <= pos < s.len(),
    ensures
        match element_at(s, pos) {
            Element::Token { kind, .. } => kind != TokenType::EndOfSource,
            _ => true,
        },
{
    let len = 1 + run_len(s, pos + 1, CharClass::Word);
    let text = s.subrange(pos, pos + len);
    assert(word_kind(text) != TokenType::EndOfSource);
}

/// Line numbers never decrease along the token sequence, and the line of a
/// token is 1 plus the number of newline characters in the source before the
/// token's first character.
pub proof fn lemma_lines(s: Seq<char>, i: int, j: int)
    requires
        scan(s) is Ok,
        0 <= i <= j < scan(s)->Ok_0.len(),
    ensures
        scan(s)->Ok_0[i].line <= scan(s)->Ok_0[j].line,
        scan(s)->Ok_0[i].line == 1 + count_newlines(s, token_spans(s)[i].start),
        scan(s)->Ok_0[i].lexeme == s.subrange(token_spans(s)[i].start, token_spans(s)[i].end),
        0 <= token_spans(s)[i].start <= token_spans(s)[j].start <= s.len(),
{
    lemma_tokens_follow_spans(s);
    let spans = token_spans(s);
    assert(0 <= spans[i].start <= spans[i].end);
    assert(spans[j].start <= s.len());
    lemma_newlines_monotone(s, spans[i].start, spans[j].start);
}


/// A character of one-character punctuation, the slash among them.
pub open spec fn is_punctuation(c: char) -> bool {
    punctuation_of(c) is Some || c == '/'
}

/// The kind of the punctuation character `c`.
pub open spec fn punctuation_kind(c: char) -> TokenType {
    if c == '/' {
        TokenType::Slash
    } else {
        punctuation_of(c)->0
    }
}

/// Whether `s` holds punctuation only, and no slash directly after another
/// (two slashes would begin a comment).
pub open spec fn punctuation_only(s: Seq<char>) -> bool {
    &&& forall|i: int| 0 <= i < s.len() ==> is_punctuation(#[trigger] s[i])
    &&& forall|i: int| 0 <= i < s.len() - 1 ==> !(#[trigger] s[i] == '/' && s[i + 1] == '/')
}

/// From `pos` on, a source of punctuation gives one span for each character
/// and then the end marker.
pub proof fn lemma_punctuation_spans(s: Seq<char>, pos: int)
    requires
        punctuation_only(s),
        0 <= pos <= s.len(),
    ensures
        spans_from(s, pos) is Found,
        spans_from(s, pos)->Found_0.len() == s.len() - pos + 1,
        forall|k: int|
            0 <= k < s.len() - pos ==> (#[trigger] spans_from(s, pos)->Found_0[k]) == (Span {
                kind: punctuation_kind(s[pos + k]),
                start: pos + k,
                end: pos + k + 1,
            }),
        spans_from(s, pos)->Found_0[s.len() - pos] == end_span(s),
    decreases s.len() - pos,
{
    if pos < s.len() {
        lemma_punctuation_spans(s, pos + 1);
        let c = s[pos];
        assert(is_punctuation(c));
        let first = Span { kind: punctuation_kind(c), start: pos, end: pos + 1 };
        assert(element_at(s, pos) == (Element::Token { kind: punctuation_kind(c), len: 1 }));
        let rest = spans_from(s, pos + 1)->Found_0;
        let spans = spans_from(s, pos)->Found_0;
        assert(spans == seq![first] + rest);
        assert forall|k: int| 0 <= k < s.len() - pos implies (#[trigger] spans[k]) == (Span {
            kind: punctuation_kind(s[pos + k]),
            start: pos + k,
            end: pos + k + 1,
        }) by {
            if k > 0 {
                assert(spans[k] == rest[k - 1]);
            }
        }
        assert(spans[s.len() - pos] == rest[s.len() - pos - 1]);
    }
}

/// A source that holds one-character punctuation only, with no two slashes
/// in a row, scans to one token for each character and the end marker: as
/// many tokens as characters plus one, each lexeme the one character it
/// stands for.
pub proof fn lemma_punctuation_only(s: Seq<char>)
    requires
        punctuation_only(s),
    ensures
        scan(s) is Ok,
        scan(s)->Ok_0.len() == s.len() + 1,
        forall|i: int|
            0 <= i < s.len() ==> (#[trigger] scan(s)->Ok_0[i]) == (TokenView {
                token_type: punctuation_kind(s[i]),
                lexeme: seq![s[i]],
                literal: None,
                line: 1,
            }),
        scan(s)->Ok_0[s.len() as int].token_type == TokenType::EndOfSource,
{
    lemma_punctuation_spans(s, 0);
    let spans = token_spans(s);
    assert(scan(s)->Ok_0 == tokens_of(s, spans));
    assert forall|i: int| 0 <= i < s.len() implies (#[trigger] scan(s)->Ok_0[i]) == (TokenView {
        token_type: punctuation_kind(s[i]),
        lexeme: seq![s[i]],
        literal: None,
        line: 1,
    }) by {
        assert(spans[i].start == i);
        assert(s.subrange(i, i + 1) =~= seq![s[i]]);
        lemma_no_newline_in_punctuation(s, i);
    }
}

/// No newline stands among punctuation.
proof fn lemma_no_newline_in_punctuation(s: Seq<char>, n: int)
    requires
        punctuation_only(s),
        0 <= n <= s.len(),
    ensures
        count_newlines(s, n) == 0,
    decreases n,
{
    if n > 0 {
        assert(is_punctuation(s[n - 1]));
        lemma_no_newline_in_punctuation(s, n - 1);
    }
}

/// The kinds of the reserved words.
pub open spec fn is_reserved(kind: TokenType) -> bool {
    matches!(
        kind,
        TokenType::And | TokenType::Class | TokenType::Else | TokenType::False | TokenType::For
            | TokenType::If | TokenType::Nil | TokenType::Or | TokenType::Print | TokenType::Return
            | TokenType::Super | TokenType::This | TokenType::True | TokenType::Var
            | TokenType::While
    )
}

/// An identifier or reserved word is a maximal run: it begins with a letter
/// or underscore, every character of it may continue an identifier, and the
/// character after it, if there is one, may not. Its kind is decided by the
/// whole run: a reserved word's kind if and only if the run spells that
/// word, `Identifier` otherwise.
pub proof fn lemma_maximal_munch(s: Seq<char>, i: int)
    requires
        scan(s) is Ok,
        0 <= i < scan(s)->Ok_0.len(),
        scan(s)->Ok_0[i].token_type == TokenType::Identifier || is_reserved(
            scan(s)->Ok_0[i].token_type,
        ),
    ensures
        ({
            let token = scan(s)->Ok_0[i];
            let span = token_spans(s)[i];
            &&& 0 <= span.start < span.end <= s.len()
            &&& token.lexeme == s.subrange(span.start, span.end)
            &&& is_letter(s[span.start])
            &&& forall|k: int| span.start <= k < span.end ==> is_word_char(#[trigger] s[k])
            &&& span.end == s.len() || !is_word_char(s[span.end])
            &&& token.token_type == word_kind(token.lexeme)
            &&& token.token_type == TokenType::Identifier <==> keyword_of(token.lexeme) is None
        }),
{
    lemma_tokens_follow_spans(s);
    let span = token_spans(s)[i];
    assert(0 <= span.start < span.end <= s.len());
    lemma_run_maximal(s, span.start + 1, CharClass::Word);
    assert forall|k: int| span.start <= k < span.end implies is_word_char(#[trigger] s[k]) by {
        if k > span.start {
            lemma_run_members(s, span.start + 1, CharClass::Word, k);
        }
    }
}

/// A scan fails only where nothing that the language knows starts: at a
/// character of the source that begins no token, or at the quote of a string
/// that is not closed.
pub proof fn lemma_errors(s: Seq<char>, pos: int)
    requires
        0 <= pos <= s.len(),
        spans_from(s, pos) is Failed,
    ensures
        pos <= spans_from(s, pos)->Failed_0.start < s.len(),
        element_at(s, spans_from(s, pos)->Failed_0.start) == (Element::Fail {
            error: spans_from(s, pos)->Failed_0.error,
        }),
        match spans_from(s, pos)->Failed_0.error {
            ScannerError::InvalidCharacter(c) => s.contains(c),
            ScannerError::UnterminatedString => s.contains('"'),
            _ => false,
        },
    decreases s.len() - pos,
{
    if pos < s.len() {
        lemma_element_fits(s, pos);
        match element_at(s, pos) {
            Element::Fail { error } => {
                assert(s[pos] == s[pos]);
            },
            Element::Trivia { len } => {
                lemma_errors(s, pos + len);
            },
            Element::Token { kind, len } => {
                lemma_errors(s, pos + len);
            },
        }
    }
}


/// Whether the character at `k` is kept as it stands when whitespace and
/// comments are removed: it is no whitespace, opens no string and begins no
/// comment.
pub open spec fn is_plain_at(s: Seq<char>, k: int) -> bool {
    !is_blank(s[k]) && s[k] != '"' && !(s[k] == '/' && has_char(s, k + 1, '/'))
}

/// The source from `pos` on with whitespace and comments removed: newlines
/// and other whitespace are dropped, a comment is dropped from its two
/// slashes up to the end of its line, a string literal is kept whole with
/// its quotes, and every other character is kept.
pub open spec fn stripped_from(s: Seq<char>, pos: int) -> Seq<char>
    decreases s.len() - pos,
    via stripped_from_terminates
{
    if pos < 0 || pos >= s.len() {
        Seq::empty()
    } else if is_blank(s[pos]) {
        stripped_from(s, pos + 1)
    } else if s[pos] == '/' && has_char(s, pos + 1, '/') {
        stripped_from(s, pos + 2 + run_len(s, pos + 2, CharClass::CommentBody))
    } else if s[pos] == '"' {
        let body = run_len(s, pos + 1, CharClass::StringBody);
        if pos + 1 + body < s.len() {
            s.subrange(pos, pos + body + 2) + stripped_from(s, pos + body + 2)
        } else {
            s.subrange(pos, s.len() as int)
        }
    } else {
        seq![s[pos]] + stripped_from(s, pos + 1)
    }
}

#[via_fn]
proof fn stripped_from_terminates(s: Seq<char>, pos: int) {
    if 0 <= pos < s.len() {
        if has_char(s, pos + 1, '/') {
            lemma_run_fits(s, pos + 2, CharClass::CommentBody);
        }
        lemma_run_fits(s, pos + 1, CharClass::StringBody);
    }
}

/// The source with whitespace and comments removed.
pub open spec fn stripped(s: Seq<char>) -> Seq<char> {
    stripped_from(s, 0)
}

/// The lexemes of `tokens`, joined in order.
pub open spec fn joined(tokens: Seq<TokenView>) -> Seq<char>
    decreases tokens.len(),
{
    if tokens.len() == 0 {
        Seq::empty()
    } else {
        joined(tokens.drop_last()) + tokens.last().lexeme
    }
}

/// Joining goes through a token put in front.
pub proof fn lemma_joined_front(first: TokenView, rest: Seq<TokenView>)
    ensures
        joined(seq![first] + rest) == first.lexeme + joined(rest),
    decreases rest.len(),
{
    let all = seq![first] + rest;
    if rest.len() == 0 {
        assert(all.drop_last() =~= Seq::<TokenView>::empty());
        assert(joined(Seq::<TokenView>::empty()) =~= Seq::<char>::empty());
        assert(all.last() == first);
        assert(joined(all) =~= first.lexeme);
        assert(first.lexeme + joined(rest) =~= first.lexeme);
    } else {
        lemma_joined_front(first, rest.drop_last());
        assert(all.drop_last() =~= seq![first] + rest.drop_last());
        assert(all.last() == rest.last());
        assert(joined(all) =~= first.lexeme + joined(rest));
    }
}

/// A stretch of characters that are all kept is kept as it stands.
pub proof fn lemma_plain_stretch(s: Seq<char>, pos: int, end: int)
    requires
        0 <= pos <= end <= s.len(),
        forall|k: int| pos <= k < end ==> is_plain_at(s, k),
    ensures
        stripped_from(s, pos) == s.subrange(pos, end) + stripped_from(s, end),
    decreases end - pos,
{
    if pos == end {
        assert(s.subrange(pos, end) + stripped_from(s, end) =~= stripped_from(s, end));
    } else {
        lemma_plain_stretch(s, pos + 1, end);
        assert(is_plain_at(s, pos));
        assert(seq![s[pos]] + (s.subrange(pos + 1, end) + stripped_from(s, end)) =~= s.subrange(
            pos,
            end,
        ) + stripped_from(s, end));
    }
}

/// A token is kept as it stands when whitespace and comments are removed.
pub proof fn lemma_token_kept(s: Seq<char>, pos: int)
    requires
        0 <= pos < s.len(),
        element_at(s, pos) is Token,
    ensures
        pos + element_at(s, pos)->Token_len <= s.len(),
        stripped_from(s, pos) == s.subrange(pos, pos + element_at(s, pos)->Token_len)
            + stripped_from(s, pos + element_at(s, pos)->Token_len),
{
    lemma_element_fits(s, pos);
    let c = s[pos];
    let end = pos + element_at(s, pos)->Token_len;
    if c == '"' {
    } else {
        assert forall|k: int| pos <= k < end implies is_plain_at(s, k) by {
            if is_digit(c) {
                let whole = 1 + run_len(s, pos + 1, CharClass::Digit);
                if pos < k < pos + whole {
                    lemma_run_members(s, pos + 1, CharClass::Digit, k);
                } else if k > pos + whole {
                    lemma_run_members(s, pos + whole + 1, CharClass::Digit, k);
                }
            } else if is_letter(c) && k > pos {
                lemma_run_members(s, pos + 1, CharClass::Word, k);
            }
        }
        lemma_plain_stretch(s, pos, end);
    }
}

/// From `pos` on, the joined lexemes are the source without whitespace and
/// comments.
pub proof fn lemma_joined_from(s: Seq<char>, pos: int)
    requires
        0 <= pos <= s.len(),
        spans_from(s, pos) is Found,
    ensures
        joined(tokens_of(s, spans_from(s, pos)->Found_0)) == stripped_from(s, pos),
    decreases s.len() - pos,
{
    let spans = spans_from(s, pos)->Found_0;
    if pos >= s.len() {
        let end = tokens_of(s, spans);
        assert(end.drop_last() =~= Seq::<TokenView>::empty());
        assert(joined(Seq::<TokenView>::empty()) =~= Seq::<char>::empty());
        assert(end.last().lexeme =~= Seq::<char>::empty());
        assert(joined(end) =~= Seq::<char>::empty());
    } else {
        lemma_element_fits(s, pos);
        match element_at(s, pos) {
            Element::Fail { .. } => {},
            Element::Trivia { len } => {
                lemma_joined_from(s, pos + len);
            },
            Element::Token { kind, len } => {
                lemma_joined_from(s, pos + len);
                lemma_token_kept(s, pos);
                let first = Span { kind, start: pos, end: pos + len };
                let rest = spans_from(s, pos + len)->Found_0;
                assert(tokens_of(s, spans) =~= seq![token_of(s, first)] + tokens_of(s, rest));
                lemma_joined_front(token_of(s, first), tokens_of(s, rest));
            },
        }
    }
}

/// Round trip: the lexemes of a successful scan, joined in order without
/// the end marker, are the source with whitespace and comments removed;
/// string literals stand in it in their quoted form.
pub proof fn lemma_round_trip(s: Seq<char>)
    requires
        scan(s) is Ok,
    ensures
        joined(scan(s)->Ok_0.drop_last()) == stripped(s),
        joined(scan(s)->Ok_0) == stripped(s),
{
    lemma_joined_from(s, 0);
    lemma_tokens_follow_spans(s);
    let tokens = scan(s)->Ok_0;
    assert(joined(tokens) =~= joined(tokens.drop_last()));
}


/// The scan that stops at the first failure and the scan that goes on
/// agree: where the first succeeds, the second finds the same tokens and no
/// failure; where the first fails, its error is the first failure of the
/// second.
pub proof fn lemma_recovery_agrees(s: Seq<char>, pos: int)
    requires
        0 <= pos <= s.len(),
    ensures
        match spans_from(s, pos) {
            Spans::Found(spans) => {
                &&& recover_from(s, pos).spans == spans
                &&& recover_from(s, pos).faults.len() == 0
            },
            Spans::Failed(fault) => {
                &&& recover_from(s, pos).faults.len() > 0
                &&& recover_from(s, pos).faults[0] == fault
            },
        },
    decreases s.len() - pos,
{
    if pos < s.len() {
        lemma_element_fits(s, pos);
        match element_at(s, pos) {
            Element::Fail { error } => {},
            Element::Trivia { len } => {
                lemma_recovery_agrees(s, pos + len);
            },
            Element::Token { kind, len } => {
                lemma_recovery_agrees(s, pos + len);
                let rest = recover_from(s, pos + len);
                assert(Seq::<Fault>::empty() + rest.faults =~= rest.faults);
            },
        }
    }
}


/// Whether every character of `text` is a decimal digit.
pub open spec fn all_digits(text: Seq<char>) -> bool {
    forall|k: int| 0 <= k < text.len() ==> is_digit(#[trigger] text[k])
}

/// A number token is a well-formed numeral that cannot be extended: its
/// literal holds at least one digit before the point and only digits on
/// either side, its lexeme is those digits, joined by a point where there
/// are digits behind it, and no digit follows the token.
pub proof fn lemma_number_tokens(s: Seq<char>, i: int)
    requires
        scan(s) is Ok,
        0 <= i < scan(s)->Ok_0.len(),
        scan(s)->Ok_0[i].token_type == TokenType::Number,
    ensures
        ({
            let token = scan(s)->Ok_0[i];
            let span = token_spans(s)[i];
            &&& token.literal is Some
            &&& token.literal->0 is Float
            &&& token.literal->0->Float_0.whole.len() >= 1
            &&& all_digits(token.literal->0->Float_0.whole)
            &&& all_digits(token.literal->0->Float_0.fraction)
            &&& token.lexeme == if token.literal->0->Float_0.fraction.len() == 0 {
                token.literal->0->Float_0.whole
            } else {
                token.literal->0->Float_0.whole + seq!['.'] + token.literal->0->Float_0.fraction
            }
            &&& span.end == s.len() || !is_digit(s[span.end])
        }),
{
    lemma_tokens_follow_spans(s);
    let span = token_spans(s)[i];
    let pos = span.start;
    assert(0 <= pos < span.end <= s.len());
    assert(is_digit(s[pos]));
    let whole = 1 + run_len(s, pos + 1, CharClass::Digit);
    lemma_run_fits(s, pos + 1, CharClass::Digit);
    lemma_run_maximal(s, pos + 1, CharClass::Digit);
    let d = literal_of(s, TokenType::Number, pos, span.end)->0->Float_0;
    assert forall|k: int| 0 <= k < d.whole.len() implies is_digit(#[trigger] d.whole[k]) by {
        if k > 0 {
            lemma_run_members(s, pos + 1, CharClass::Digit, pos + k);
        }
    }
    if pos + whole < span.end {
        lemma_run_fits(s, pos + whole + 1, CharClass::Digit);
        lemma_run_maximal(s, pos + whole + 1, CharClass::Digit);
        assert forall|k: int| 0 <= k < d.fraction.len() implies is_digit(
            #[trigger] d.fraction[k],
        ) by {
            lemma_run_members(s, pos + whole + 1, CharClass::Digit, pos + whole + 1 + k);
        }
        assert(s.subrange(pos, span.end) =~= d.whole + seq!['.'] + d.fraction);
    }
}

/// A string token is its text between two quotes, and the text holds no
/// quote.
pub proof fn lemma_string_tokens(s: Seq<char>, i: int)
    requires
        scan(s) is Ok,
        0 <= i < scan(s)->Ok_0.len(),
        scan(s)->Ok_0[i].token_type == TokenType::String,
    ensures
        ({
            let token = scan(s)->Ok_0[i];
            &&& token.literal is Some
            &&& token.literal->0 is Text
            &&& token.lexeme == seq!['"'] + token.literal->0->Text_0 + seq!['"']
            &&& !token.literal->0->Text_0.contains('"')
        }),
{
    lemma_tokens_follow_spans(s);
    let span = token_spans(s)[i];
    let pos = span.start;
    assert(0 <= pos < span.end <= s.len());
    assert(s[pos] == '"');
    lemma_run_maximal(s, pos + 1, CharClass::StringBody);
    assert(s[span.end - 1] == '"');
    let text = s.subrange(pos + 1, span.end - 1);
    assert(s.subrange(pos, span.end) =~= seq!['"'] + text + seq!['"']);
    assert forall|k: int| 0 <= k < text.len() implies text[k] != '"' by {
        lemma_run_members(s, pos + 1, CharClass::StringBody, pos + 1 + k);
    }
}

} // verus!
