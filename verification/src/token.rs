//! Tokens and the reserved-word table.

use vstd::prelude::*;
use vstd::string::*;

verus! {

/// The closed set of token kinds.
#[derive(Debug, Clone, Copy, PartialEq, Eq, Structural)]
pub enum TokenType {
    /// `(`
    LeftParen,
    /// `)`
    RightParen,
    /// `{`
    LeftBrace,
    /// `}`
    RightBrace,
    /// `,`
    Comma,
    /// `.`
    Dot,
    /// `-`
    Minus,
    /// `+`
    Plus,
    /// `;`
    SemiColon,
    /// `/`
    Slash,
    /// `*`
    Star,
    /// `!`
    Bang,
    /// `!=`
    BangEqual,
    /// `=`
    Equal,
    /// `==`
    EqualEqual,
    /// `>`
    Greater,
    /// `>=`
    GreaterEqual,
    /// `<`
    Less,
    /// `<=`
    LessEqual,
    Identifier,
    /// A quoted string.
    String,
    /// A decimal number.
    Number,
    And,
    Class,
    Else,
    False,
    For,
    If,
    Nil,
    Or,
    Print,
    Return,
    Super,
    This,
    True,
    Var,
    While,
    /// The marker that ends every token sequence.
    EndOfSource,
}

/// The reserved word that `text` spells, if it spells one. The match is exact
/// and case-sensitive.
pub open spec fn keyword_of(text: Seq<char>) -> Option<TokenType> {
    if text == "and"@ {
        Some(TokenType::And)
    } else if text == "class"@ {
        Some(TokenType::Class)
    } else if text == "else"@ {
        Some(TokenType::Else)
    } else if text == "false"@ {
        Some(TokenType::False)
    } else if text == "for"@ {
        Some(TokenType::For)
    } else if text == "if"@ {
        Some(TokenType::If)
    } else if text == "nil"@ {
        Some(TokenType::Nil)
    } else if text == "or"@ {
        Some(TokenType::Or)
    } else if text == "print"@ {
        Some(TokenType::Print)
    } else if text == "return"@ {
        Some(TokenType::Return)
    } else if text == "super"@ {
        Some(TokenType::Super)
    } else if text == "this"@ {
        Some(TokenType::This)
    } else if text == "true"@ {
        Some(TokenType::True)
    } else if text == "var"@ {
        Some(TokenType::Var)
    } else if text == "while"@ {
        Some(TokenType::While)
    } else {
        None
    }
}

/// Whether the first `n` characters of `text` are all of `text` and spell
/// `word`.
fn spells(text: &str, n: usize, word: &str) -> (r: bool)
    requires
        n == text@.len(),
    ensures
        r == (text@ == word@),
{
    let m: usize = word.unicode_len();
    if n != m {
        return false;
    }
    let mut i: usize = 0;
    while i < m
        invariant
            n == text@.len(),
            m == word@.len(),
            n == m,
            i <= m,
            forall|j: int| 0 <= j < i ==> text@[j] == word@[j],
        decreases m - i,
    {
        if text.get_char(i) != word.get_char(i) {
            return false;
        }
        i += 1;
    }
    assert(text@ =~= word@);
    true
}

/// Looks `text` up in the reserved-word table.
pub fn try_to_keyword(text: &str) -> (r: Option<TokenType>)
    ensures
        r == keyword_of(text@),
{
    let n: usize = text.unicode_len();
    if n < 2 || n > 6 {
        proof {
            reveal_strlit("and");
            reveal_strlit("class");
            reveal_strlit("else");
            reveal_strlit("false");
            reveal_strlit("for");
            reveal_strlit("if");
            reveal_strlit("nil");
            reveal_strlit("or");
            reveal_strlit("print");
            reveal_strlit("return");
            reveal_strlit("super");
            reveal_strlit("this");
            reveal_strlit("true");
            reveal_strlit("var");
            reveal_strlit("while");
        }
        None
    } else if spells(text, n, "and") {
        Some(TokenType::And)
    } else if spells(text, n, "class") {
        Some(TokenType::Class)
    } else if spells(text, n, "else") {
        Some(TokenType::Else)
    } else if spells(text, n, "false") {
        Some(TokenType::False)
    } else if spells(text, n, "for") {
        Some(TokenType::For)
    } else if spells(text, n, "if") {
        Some(TokenType::If)
    } else if spells(text, n, "nil") {
        Some(TokenType::Nil)
    } else if spells(text, n, "or") {
        Some(TokenType::Or)
    } else if spells(text, n, "print") {
        Some(TokenType::Print)
    } else if spells(text, n, "return") {
        Some(TokenType::Return)
    } else if spells(text, n, "super") {
        Some(TokenType::Super)
    } else if spells(text, n, "this") {
        Some(TokenType::This)
    } else if spells(text, n, "true") {
        Some(TokenType::True)
    } else if spells(text, n, "var") {
        Some(TokenType::Var)
    } else if spells(text, n, "while") {
        Some(TokenType::While)
    } else {
        None
    }
}

/// The exact decimal numeral of a number token: the digits before the point
/// and the digits after it (none where the numeral has no point).
#[derive(Debug, Clone, PartialEq, Eq)]
pub struct Decimal {
    pub whole: String,
    pub fraction: String,
}

pub struct DecimalView {
    pub whole: Seq<char>,
    pub fraction: Seq<char>,
}

impl View for Decimal {
    type V = DecimalView;

    open spec fn view(&self) -> DecimalView {
        DecimalView { whole: self.whole@, fraction: self.fraction@ }
    }
}

/// The value carried by a literal token.
#[derive(Debug, Clone, PartialEq, Eq)]
pub enum Literal {
    /// The numeral of a `Number` token.
    Float(Decimal),
    /// The text between the quotes of a `String` token.
    Text(String),
}

pub enum LiteralView {
    Float(DecimalView),
    Text(Seq<char>),
}

impl View for Literal {
    type V = LiteralView;

    open spec fn view(&self) -> LiteralView {
        match self {
            Literal::Float(d) => LiteralView::Float(d@),
            Literal::Text(t) => LiteralView::Text(t@),
        }
    }
}

/// One classified unit of source text.
#[derive(Debug, Clone, PartialEq, Eq)]
pub struct Token {
    pub token_type: TokenType,
    pub lexeme: String,
    pub literal: Option<Literal>,
    pub line: usize,
}

pub struct TokenView {
    pub token_type: TokenType,
    pub lexeme: Seq<char>,
    pub literal: Option<LiteralView>,
    pub line: nat,
}

/// The model of an optional literal.
pub open spec fn literal_view(literal: Option<Literal>) -> Option<LiteralView> {
    match literal {
        Some(l) => Some(l@),
        None => None,
    }
}

impl View for Token {
    type V = TokenView;

    open spec fn view(&self) -> TokenView {
        TokenView {
            token_type: self.token_type,
            lexeme: self.lexeme@,
            literal: literal_view(self.literal),
            line: self.line as nat,
        }
    }
}

/// The models of a sequence of tokens, in order.
pub open spec fn token_views(tokens: Seq<Token>) -> Seq<TokenView> {
    tokens.map_values(|t: Token| t@)
}

impl Token {
    pub fn new(token_type: TokenType, lexeme: String, literal: Option<Literal>, line: usize) -> (r:
        Self)
        ensures
            r.token_type == token_type,
            r.lexeme == lexeme,
            r.literal == literal,
            r.line == line,
    {
        Self { token_type, lexeme, literal, line }
    }
}

} // verus!
