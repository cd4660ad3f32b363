//! Tokens of the tree-walk front end.
use vstd::prelude::*;
use crate::lexer::keywords::Keyword;
use crate::text::{copy_string, is_digit};

verus! {

/// The kinds of tokens.
#[derive(Clone, Copy, Debug, PartialEq, Eq, Structural)]
pub enum TokenType {
    // Single-character tokens.
    LeftParen,
    RightParen,
    LeftBrace,
    RightBrace,
    Comma,
    Dot,
    Minus,
    Plus,
    Semicolon,
    Slash,
    Star,

    // One or two character tokens.
    Bang,
    BangEqual,
    Equal,
    EqualEqual,
    Greater,
    GreaterEqual,
    Less,
    LessEqual,

    // Literals.
    Identifier,
    String,
    Number,

    // Keywords.
    And,
    Class,
    Else,
    False,
    Fun,
    For,
    If,
    Nil,
    Or,
    Print,
    Return,
    Super,
    This,
    True,
    Var,
    While,

    Eof,
}

/// The token kind of a reserved word.
pub open spec fn keyword_token(k: Keyword) -> TokenType {
    match k {
        Keyword::And => TokenType::And,
        Keyword::Class => TokenType::Class,
        Keyword::Else => TokenType::Else,
        Keyword::False => TokenType::False,
        Keyword::For => TokenType::For,
        Keyword::Fun => TokenType::Fun,
        Keyword::If => TokenType::If,
        Keyword::Nil => TokenType::Nil,
        Keyword::Or => TokenType::Or,
        Keyword::Print => TokenType::Print,
        Keyword::Return => TokenType::Return,
        Keyword::Super => TokenType::Super,
        Keyword::This => TokenType::This,
        Keyword::True => TokenType::True,
        Keyword::Var => TokenType::Var,
        Keyword::While => TokenType::While,
    }
}

/// The token kind of a reserved word.
pub fn keyword_type(k: Keyword) -> (t: TokenType)
    ensures
        t == keyword_token(k),
{
    match k {
        Keyword::And => TokenType::And,
        Keyword::Class => TokenType::Class,
        Keyword::Else => TokenType::Else,
        Keyword::False => TokenType::False,
        Keyword::For => TokenType::For,
        Keyword::Fun => TokenType::Fun,
        Keyword::If => TokenType::If,
        Keyword::Nil => TokenType::Nil,
        Keyword::Or => TokenType::Or,
        Keyword::Print => TokenType::Print,
        Keyword::Return => TokenType::Return,
        Keyword::Super => TokenType::Super,
        Keyword::This => TokenType::This,
        Keyword::True => TokenType::True,
        Keyword::Var => TokenType::Var,
        Keyword::While => TokenType::While,
    }
}

/// `s` is the text of a Lox number literal: digits, then optionally `.` and digits.
pub open spec fn is_number_text(s: Seq<char>) -> bool {
    s.len() > 0 && is_digit(s[0]) && (forall|i: int| 0 <= i < s.len() ==> is_digit(#[trigger] s[i]) || {
        &&& s[i] == '.'
        &&& 0 < i < s.len() - 1
        &&& forall|j: int| 0 <= j < s.len() && j != i ==> is_digit(s[j])
    })
}

/// A number literal, held by its source text.
pub struct Number {
    text: String,
}

impl Number {
    #[verifier::type_invariant]
    spec fn well_formed(self) -> bool {
        is_number_text(self.text@)
    }

    /// The source text of the literal.
    pub closed spec fn spec_text(self) -> Seq<char> {
        self.text@
    }

    /// The source text of the literal.
    pub fn text(&self) -> (s: &String)
        ensures
            s@ == self.spec_text(),
    {
        &self.text
    }

    /// The number written `text`, if `text` is a number literal.
    pub fn from_text(text: &str) -> (n: Option<Number>)
        ensures
            n is Some <==> is_number_text(text@),
            n matches Some(m) ==> m.spec_text() == text@,
    {
        let v = crate::text::chars_of(text);
        if v.len() == 0 || !crate::lexer::scanner::digit(v[0]) {
            return None;
        }
        let mut dot: usize = v.len();
        let mut i: usize = 0;
        while i < v.len()
            invariant
                v@ == text@,
                v.len() > 0,
                is_digit(v@[0]),
                i <= v.len(),
                dot == v.len() || (0 < dot < i && dot + 1 < v.len() && v@[dot as int] == '.'),
                forall|j: int| 0 <= j < i && j != dot ==> is_digit(#[trigger] v@[j]),
            decreases v.len() - i,
        {
            if v[i] == '.' {
                if dot != v.len() || i + 1 == v.len() {
                    proof {
                        if dot != v.len() {
                            assert(!is_digit(v@[i as int]) && i != dot);
                            assert(!is_digit(v@[dot as int]) && dot != i);
                        }
                    }
                    return None;
                }
                dot = i;
            } else if !crate::lexer::scanner::digit(v[i]) {
                return None;
            }
            i = i + 1;
        }
        proof {
            assert forall|i: int| 0 <= i < v@.len() implies is_digit(#[trigger] v@[i]) || {
                &&& v@[i] == '.'
                &&& 0 < i < v@.len() - 1
                &&& forall|j: int| 0 <= j < v@.len() && j != i ==> is_digit(v@[j])
            } by {
                if i == dot {
                    assert(dot < v.len() - 1);
                }
            }
        }
        Some(Number { text: copy_string(&crate::text::string_of(&v, 0, v.len())) })
    }

    /// A copy of the literal.
    pub fn copied(&self) -> (n: Number)
        ensures
            n == *self,
    {
        proof { use_type_invariant(self); }
        Number { text: copy_string(&self.text) }
    }
}

/// The value a token carries.
pub enum Literal {
    Nil,
    String(String),
    Number(Number),
    Bool(bool),
}

/// What a literal carries, as mathematical values.
pub enum LiteralView {
    Nil,
    Str(Seq<char>),
    Number(Seq<char>),
    Bool(bool),
}

impl View for Literal {
    type V = LiteralView;

    open spec fn view(&self) -> LiteralView {
        match self {
            Literal::Nil => LiteralView::Nil,
            Literal::String(s) => LiteralView::Str(s@),
            Literal::Number(n) => LiteralView::Number(n.spec_text()),
            Literal::Bool(b) => LiteralView::Bool(*b),
        }
    }
}

impl Literal {
    /// A copy of the literal.
    pub fn copied(&self) -> (l: Literal)
        ensures
            l == *self,
    {
        match self {
            Literal::Nil => Literal::Nil,
            Literal::String(s) => Literal::String(copy_string(s)),
            Literal::Number(n) => Literal::Number(n.copied()),
            Literal::Bool(b) => Literal::Bool(*b),
        }
    }
}

/// A token: its kind, its text in the source, the value it carries and its line.
pub struct Token {
    tok_type: TokenType,
    lexeme: String,
    literal: Literal,
    line: usize,
}

/// A token, as mathematical values.
pub struct TokenView {
    pub kind: TokenType,
    pub lexeme: Seq<char>,
    pub literal: LiteralView,
    pub line: nat,
}

impl View for Token {
    type V = TokenView;

    open spec fn view(&self) -> TokenView {
        TokenView {
            kind: self.spec_type(),
            lexeme: self.spec_lexeme(),
            literal: self.spec_literal(),
            line: self.spec_line() as nat,
        }
    }
}

impl Token {
    pub closed spec fn spec_type(&self) -> TokenType {
        self.tok_type
    }

    pub closed spec fn spec_lexeme(&self) -> Seq<char> {
        self.lexeme@
    }

    pub closed spec fn spec_literal(&self) -> LiteralView {
        self.literal@
    }

    pub closed spec fn spec_line(&self) -> usize {
        self.line
    }

    /// A token of kind `tok_type` with text `lexeme`, value `literal`, on `line`.
    pub fn new(tok_type: TokenType, lexeme: &str, literal: Literal, line: usize) -> (t: Token)
        ensures
            t@ == (TokenView { kind: tok_type, lexeme: lexeme@, literal: literal@, line: line as nat }),
    {
        Token { tok_type, lexeme: lexeme.to_owned(), literal, line }
    }

    /// The token's text in the source.
    pub fn get_lexeme(&self) -> (s: &str)
        ensures
            s@ == self@.lexeme,
    {
        self.lexeme.as_str()
    }

    /// The token's kind.
    pub fn get_type(&self) -> (t: &TokenType)
        ensures
            *t == self@.kind,
    {
        &self.tok_type
    }

    /// The value the token carries.
    pub fn get_literal(&self) -> (l: &Literal)
        ensures
            l@ == self@.literal,
    {
        &self.literal
    }

    /// The line the token ends on.
    pub fn get_line(&self) -> (n: usize)
        ensures
            n == self@.line,
    {
        self.line
    }

    /// A copy of the token.
    pub fn copied(&self) -> (t: Token)
        ensures
            t == *self,
    {
        Token {
            tok_type: self.tok_type,
            lexeme: copy_string(&self.lexeme),
            literal: self.literal.copied(),
            line: self.line,
        }
    }
}

} // verus!
