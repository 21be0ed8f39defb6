use vstd::prelude::*;

verus! {

/// Mathematical image of a token kind: literal payloads become character
/// sequences, so that contracts can speak of them without exec types.
pub ghost enum SpecTokenKind {
    LeftParen,
    RightParen,
    LeftBrace,
    RightBrace,
    Comma,
    Dot,
    Minus,
    Plus,
    Semicolon,
    Star,
    Slash,
    Bang,
    BangEqual,
    Equal,
    EqualEqual,
    Less,
    LessEqual,
    Greater,
    GreaterEqual,
    Number(Seq<char>),
    StrLit(Seq<char>),
    Identifier(Seq<char>),
    And,
    Class,
    Else,
    False,
    Fun,
    For,
    If,
    Nil,
    Or,
    Print,
    Return,
    Super,
    This,
    True,
    Var,
    While,
    Eof,
}

/// Mathematical image of a token: kind, verbatim lexeme, 1-based line.
pub ghost struct SpecToken {
    pub kind: SpecTokenKind,
    pub lexeme: Seq<char>,
    pub line: nat,
}

/// The closed set of lexical categories. A numeric literal carries its exact
/// decimal spelling (digits, optionally a point and more digits); the spelling
/// is the canonical form of the value, and a driver that wants a machine float
/// decodes it outside the scanning core. A string literal carries its decoded
/// contents (the span between the quotes); an identifier carries its own text.
#[derive(Debug, PartialEq)]
pub enum TokenType {
    LeftParen,
    RightParen,
    LeftBrace,
    RightBrace,
    Comma,
    Dot,
    Minus,
    Plus,
    Semicolon,
    Star,
    Slash,
    Bang,
    BangEqual,
    Equal,
    EqualEqual,
    Less,
    LessEqual,
    Greater,
    GreaterEqual,
    Number(String),
    StrLit(String),
    Identifier(String),
    And,
    Class,
    Else,
    False,
    Fun,
    For,
    If,
    Nil,
    Or,
    Print,
    Return,
    Super,
    This,
    True,
    Var,
    While,
    Eof,
}

impl View for TokenType {
    type V = SpecTokenKind;

    open spec fn view(&self) -> SpecTokenKind {
        match self {
            TokenType::LeftParen => SpecTokenKind::LeftParen,
            TokenType::RightParen => SpecTokenKind::RightParen,
            TokenType::LeftBrace => SpecTokenKind::LeftBrace,
            TokenType::RightBrace => SpecTokenKind::RightBrace,
            TokenType::Comma => SpecTokenKind::Comma,
            TokenType::Dot => SpecTokenKind::Dot,
            TokenType::Minus => SpecTokenKind::Minus,
            TokenType::Plus => SpecTokenKind::Plus,
            TokenType::Semicolon => SpecTokenKind::Semicolon,
            TokenType::Star => SpecTokenKind::Star,
            TokenType::Slash => SpecTokenKind::Slash,
            TokenType::Bang => SpecTokenKind::Bang,
            TokenType::BangEqual => SpecTokenKind::BangEqual,
            TokenType::Equal => SpecTokenKind::Equal,
            TokenType::EqualEqual => SpecTokenKind::EqualEqual,
            TokenType::Less => SpecTokenKind::Less,
            TokenType::LessEqual => SpecTokenKind::LessEqual,
            TokenType::Greater => SpecTokenKind::Greater,
            TokenType::GreaterEqual => SpecTokenKind::GreaterEqual,
            TokenType::Number(s) => SpecTokenKind::Number(s@),
            TokenType::StrLit(s) => SpecTokenKind::StrLit(s@),
            TokenType::Identifier(s) => SpecTokenKind::Identifier(s@),
            TokenType::And => SpecTokenKind::And,
            TokenType::Class => SpecTokenKind::Class,
            TokenType::Else => SpecTokenKind::Else,
            TokenType::False => SpecTokenKind::False,
            TokenType::Fun => SpecTokenKind::Fun,
            TokenType::For => SpecTokenKind::For,
            TokenType::If => SpecTokenKind::If,
            TokenType::Nil => SpecTokenKind::Nil,
            TokenType::Or => SpecTokenKind::Or,
            TokenType::Print => SpecTokenKind::Print,
            TokenType::Return => SpecTokenKind::Return,
            TokenType::Super => SpecTokenKind::Super,
            TokenType::This => SpecTokenKind::This,
            TokenType::True => SpecTokenKind::True,
            TokenType::Var => SpecTokenKind::Var,
            TokenType::While => SpecTokenKind::While,
            TokenType::Eof => SpecTokenKind::Eof,
        }
    }
}

impl Clone for TokenType {
    fn clone(&self) -> (r: Self)
        ensures
            r == self,
    {
        match self {
            TokenType::LeftParen => TokenType::LeftParen,
            TokenType::RightParen => TokenType::RightParen,
            TokenType::LeftBrace => TokenType::LeftBrace,
            TokenType::RightBrace => TokenType::RightBrace,
            TokenType::Comma => TokenType::Comma,
            TokenType::Dot => TokenType::Dot,
            TokenType::Minus => TokenType::Minus,
            TokenType::Plus => TokenType::Plus,
            TokenType::Semicolon => TokenType::Semicolon,
            TokenType::Star => TokenType::Star,
            TokenType::Slash => TokenType::Slash,
            TokenType::Bang => TokenType::Bang,
            TokenType::BangEqual => TokenType::BangEqual,
            TokenType::Equal => TokenType::Equal,
            TokenType::EqualEqual => TokenType::EqualEqual,
            TokenType::Less => TokenType::Less,
            TokenType::LessEqual => TokenType::LessEqual,
            TokenType::Greater => TokenType::Greater,
            TokenType::GreaterEqual => TokenType::GreaterEqual,
            TokenType::Number(s) => TokenType::Number(s.clone()),
            TokenType::StrLit(s) => TokenType::StrLit(s.clone()),
            TokenType::Identifier(s) => TokenType::Identifier(s.clone()),
            TokenType::And => TokenType::And,
            TokenType::Class => TokenType::Class,
            TokenType::Else => TokenType::Else,
            TokenType::False => TokenType::False,
            TokenType::Fun => TokenType::Fun,
            TokenType::For => TokenType::For,
            TokenType::If => TokenType::If,
            TokenType::Nil => TokenType::Nil,
            TokenType::Or => TokenType::Or,
            TokenType::Print => TokenType::Print,
            TokenType::Return => TokenType::Return,
            TokenType::Super => TokenType::Super,
            TokenType::This => TokenType::This,
            TokenType::True => TokenType::True,
            TokenType::Var => TokenType::Var,
            TokenType::While => TokenType::While,
            TokenType::Eof => TokenType::Eof,
        }
    }
}

/// One classified unit of lexical meaning. Every token other than the
/// end-of-input marker covers a non-empty contiguous span of the source;
/// the end-of-input marker has an empty lexeme.
#[derive(Debug, PartialEq)]
pub struct Token {
    pub token_type: TokenType,
    pub lexeme: String,
    pub line: usize,
}

impl View for Token {
    type V = SpecToken;

    open spec fn view(&self) -> SpecToken {
        SpecToken { kind: self.token_type@, lexeme: self.lexeme@, line: self.line as nat }
    }
}

impl Clone for Token {
    fn clone(&self) -> (r: Self)
        ensures
            r == self,
    {
        Token { token_type: self.token_type.clone(), lexeme: self.lexeme.clone(), line: self.line }
    }
}

/// The reserved-word table: a fixed, case-sensitive map from spelling to
/// keyword kind, never extended at run time.
pub open spec fn spec_keyword(s: Seq<char>) -> Option<SpecTokenKind> {
    if s == "and"@ {
        Some(SpecTokenKind::And)
    } else if s == "class"@ {
        Some(SpecTokenKind::Class)
    } else if s == "else"@ {
        Some(SpecTokenKind::Else)
    } else if s == "false"@ {
        Some(SpecTokenKind::False)
    } else if s == "fun"@ {
        Some(SpecTokenKind::Fun)
    } else if s == "for"@ {
        Some(SpecTokenKind::For)
    } else if s == "if"@ {
        Some(SpecTokenKind::If)
    } else if s == "nil"@ {
        Some(SpecTokenKind::Nil)
    } else if s == "or"@ {
        Some(SpecTokenKind::Or)
    } else if s == "print"@ {
        Some(SpecTokenKind::Print)
    } else if s == "return"@ {
        Some(SpecTokenKind::Return)
    } else if s == "super"@ {
        Some(SpecTokenKind::Super)
    } else if s == "this"@ {
        Some(SpecTokenKind::This)
    } else if s == "true"@ {
        Some(SpecTokenKind::True)
    } else if s == "var"@ {
        Some(SpecTokenKind::Var)
    } else if s == "while"@ {
        Some(SpecTokenKind::While)
    } else {
        None
    }
}

/// Character-wise string comparison, so that keyword lookup needs no trust
/// in derived equality.
pub fn str_eq(a: &str, b: &str) -> (r: bool)
    ensures
        r == (a@ == b@),
{
    let an = a.unicode_len();
    let bn = b.unicode_len();
    if an != bn {
        proof {
            assert(a@ != b@) by {
                assert(a@.len() != b@.len());
            }
        }
        return false;
    }
    let mut i: usize = 0;
    while i < an
        invariant
            an == a@.len(),
            an == b@.len(),
            0 <= i <= an,
            forall|j: int| 0 <= j < i ==> a@[j] == b@[j],
        decreases an - i,
    {
        if a.get_char(i) != b.get_char(i) {
            return false;
        }
        i += 1;
    }
    proof {
        assert(a@ =~= b@);
    }
    true
}

/// Exact-match lookup in the reserved-word table.
pub fn keyword_kind(s: &str) -> (r: Option<TokenType>)
    ensures
        match r {
            Some(t) => spec_keyword(s@) == Some(t@),
            None => spec_keyword(s@) is None,
        },
{
    if str_eq(s, "and") {
        Some(TokenType::And)
    } else if str_eq(s, "class") {
        Some(TokenType::Class)
    } else if str_eq(s, "else") {
        Some(TokenType::Else)
    } else if str_eq(s, "false") {
        Some(TokenType::False)
    } else if str_eq(s, "fun") {
        Some(TokenType::Fun)
    } else if str_eq(s, "for") {
        Some(TokenType::For)
    } else if str_eq(s, "if") {
        Some(TokenType::If)
    } else if str_eq(s, "nil") {
        Some(TokenType::Nil)
    } else if str_eq(s, "or") {
        Some(TokenType::Or)
    } else if str_eq(s, "print") {
        Some(TokenType::Print)
    } else if str_eq(s, "return") {
        Some(TokenType::Return)
    } else if str_eq(s, "super") {
        Some(TokenType::Super)
    } else if str_eq(s, "this") {
        Some(TokenType::This)
    } else if str_eq(s, "true") {
        Some(TokenType::True)
    } else if str_eq(s, "var") {
        Some(TokenType::Var)
    } else if str_eq(s, "while") {
        Some(TokenType::While)
    } else {
        None
    }
}

} // verus!
