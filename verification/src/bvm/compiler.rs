//! Compile errors and the precedence levels of the bytecode compiler.
use vstd::prelude::*;
use crate::bvm::token::TokenType;
use crate::text::push_str;

verus! {

/// An error met while compiling, with its message.
#[derive(Debug)]
pub struct CompileError {
    message: &'static str,
}

impl CompileError {
    /// The message of the error.
    pub closed spec fn spec_message(&self) -> Seq<char> {
        self.message@
    }

    /// An error with `message`.
    pub fn new(message: &'static str) -> (e: CompileError)
        ensures
            e.spec_message() == message@,
    {
        CompileError { message }
    }

    /// The message of the error.
    pub fn message(&self) -> (m: &'static str)
        ensures
            m@ == self.spec_message(),
    {
        self.message
    }

    /// The error as displayed: `CompileError: ` and the message.
    pub fn to_string(&self) -> (s: String)
        ensures
            s@ == "CompileError: "@ + self.spec_message(),
    {
        let mut s = String::new();
        push_str(&mut s, "CompileError: ");
        push_str(&mut s, self.message);
        assert(s@ =~= "CompileError: "@ + self.spec_message());
        s
    }
}

/// How tightly an operator binds, from loosest to tightest.
#[derive(Debug, Clone, Copy, PartialEq, Eq, Structural)]
pub enum Precedence {
    Lowest,
    Assignment, // =
    Or,         // or
    And,        // and
    Equality,   // == !=
    Comparison, // < > <= >=
    Term,       // + -
    Factor,     // * /
    Unary,      // ! -
    Call,       // . ()
    Primary,
}

/// The level just above `p` (the top level stays itself).
pub open spec fn next_precedence(p: Precedence) -> Precedence {
    match p {
        Precedence::Lowest => Precedence::Assignment,
        Precedence::Assignment => Precedence::Or,
        Precedence::Or => Precedence::And,
        Precedence::And => Precedence::Equality,
        Precedence::Equality => Precedence::Comparison,
        Precedence::Comparison => Precedence::Term,
        Precedence::Term => Precedence::Factor,
        Precedence::Factor => Precedence::Unary,
        Precedence::Unary => Precedence::Call,
        Precedence::Call => Precedence::Primary,
        Precedence::Primary => Precedence::Primary,
    }
}

/// The rank of a precedence level, from 0 for `Lowest` to 10 for `Primary`.
pub open spec fn rank(p: Precedence) -> nat {
    match p {
        Precedence::Lowest => 0,
        Precedence::Assignment => 1,
        Precedence::Or => 2,
        Precedence::And => 3,
        Precedence::Equality => 4,
        Precedence::Comparison => 5,
        Precedence::Term => 6,
        Precedence::Factor => 7,
        Precedence::Unary => 8,
        Precedence::Call => 9,
        Precedence::Primary => 10,
    }
}

impl Precedence {
    /// The next tighter level; there is none after `Primary`.
    pub fn inc(precedence: Precedence) -> (p: Precedence)
        requires
            precedence != Precedence::Primary,
        ensures
            rank(p) == rank(precedence) + 1,
            p == next_precedence(precedence),
    {
        match precedence {
            Precedence::Lowest => Precedence::Assignment,
            Precedence::Assignment => Precedence::Or,
            Precedence::Or => Precedence::And,
            Precedence::And => Precedence::Equality,
            Precedence::Equality => Precedence::Comparison,
            Precedence::Comparison => Precedence::Term,
            Precedence::Term => Precedence::Factor,
            Precedence::Factor => Precedence::Unary,
            Precedence::Unary => Precedence::Call,
            Precedence::Call => Precedence::Primary,
            Precedence::Primary => Precedence::Primary,
        }
    }

    /// Whether this level binds at most as tightly as `other`.
    pub fn at_most(self, other: Precedence) -> (b: bool)
        ensures
            b == (rank(self) <= rank(other)),
    {
        Self::level(self) <= Self::level(other)
    }

    fn level(p: Precedence) -> (n: u8)
        ensures
            n == rank(p),
    {
        match p {
            Precedence::Lowest => 0,
            Precedence::Assignment => 1,
            Precedence::Or => 2,
            Precedence::And => 3,
            Precedence::Equality => 4,
            Precedence::Comparison => 5,
            Precedence::Term => 6,
            Precedence::Factor => 7,
            Precedence::Unary => 8,
            Precedence::Call => 9,
            Precedence::Primary => 10,
        }
    }
}


/// The routine of the compiler that parses an expression which starts with,
/// or continues at, a token.
#[derive(Debug, Clone, Copy, PartialEq, Eq, Structural)]
pub enum Handler {
    Grouping,
    Call,
    Unary,
    Binary,
    Variable,
    String,
    Number,
    And,
    Or,
    Literal,
}

/// How a token takes part in an expression: the routine for an expression
/// that starts with it, the routine for one that continues at it, and how
/// tightly it binds there.
#[derive(Debug, Clone, Copy, PartialEq, Eq, Structural)]
pub struct ParseRule {
    pub prefix: Option<Handler>,
    pub infix: Option<Handler>,
    pub precedence: Precedence,
}

/// The table of parse rules.
pub open spec fn rule_of(op: TokenType) -> ParseRule {
    match op {
        TokenType::LeftParen => ParseRule { prefix: Some(Handler::Grouping), infix: Some(Handler::Call), precedence: Precedence::Call },
        TokenType::RightParen => ParseRule { prefix: None, infix: None, precedence: Precedence::Lowest },
        TokenType::LeftBrace => ParseRule { prefix: None, infix: None, precedence: Precedence::Lowest },
        TokenType::RightBrace => ParseRule { prefix: None, infix: None, precedence: Precedence::Lowest },
        TokenType::Comma => ParseRule { prefix: None, infix: None, precedence: Precedence::Lowest },
        TokenType::Dot => ParseRule { prefix: None, infix: None, precedence: Precedence::Lowest },
        TokenType::Minus => ParseRule { prefix: Some(Handler::Unary), infix: Some(Handler::Binary), precedence: Precedence::Term },
        TokenType::Plus => ParseRule { prefix: None, infix: Some(Handler::Binary), precedence: Precedence::Term },
        TokenType::Semicolon => ParseRule { prefix: None, infix: None, precedence: Precedence::Lowest },
        TokenType::Slash => ParseRule { prefix: None, infix: Some(Handler::Binary), precedence: Precedence::Factor },
        TokenType::Star => ParseRule { prefix: None, infix: Some(Handler::Binary), precedence: Precedence::Factor },
        TokenType::Bang => ParseRule { prefix: Some(Handler::Unary), infix: None, precedence: Precedence::Lowest },
        TokenType::BangEqual => ParseRule { prefix: None, infix: Some(Handler::Binary), precedence: Precedence::Equality },
        TokenType::Equal => ParseRule { prefix: None, infix: None, precedence: Precedence::Lowest },
        TokenType::EqualEqual => ParseRule { prefix: None, infix: Some(Handler::Binary), precedence: Precedence::Equality },
        TokenType::Greater => ParseRule { prefix: None, infix: Some(Handler::Binary), precedence: Precedence::Comparison },
        TokenType::GreaterEqual => ParseRule { prefix: None, infix: Some(Handler::Binary), precedence: Precedence::Comparison },
        TokenType::Less => ParseRule { prefix: None, infix: Some(Handler::Binary), precedence: Precedence::Comparison },
        TokenType::LessEqual => ParseRule { prefix: None, infix: Some(Handler::Binary), precedence: Precedence::Comparison },
        TokenType::Identifier => ParseRule { prefix: Some(Handler::Variable), infix: None, precedence: Precedence::Lowest },
        TokenType::String => ParseRule { prefix: Some(Handler::String), infix: None, precedence: Precedence::Lowest },
        TokenType::Number => ParseRule { prefix: Some(Handler::Number), infix: None, precedence: Precedence::Lowest },
        TokenType::And => ParseRule { prefix: None, infix: Some(Handler::And), precedence: Precedence::And },
        TokenType::Class => ParseRule { prefix: None, infix: None, precedence: Precedence::Lowest },
        TokenType::Else => ParseRule { prefix: None, infix: None, precedence: Precedence::Lowest },
        TokenType::False => ParseRule { prefix: Some(Handler::Literal), infix: None, precedence: Precedence::Lowest },
        TokenType::For => ParseRule { prefix: None, infix: None, precedence: Precedence::Lowest },
        TokenType::Fun => ParseRule { prefix: None, infix: None, precedence: Precedence::Lowest },
        TokenType::If => ParseRule { prefix: None, infix: None, precedence: Precedence::Lowest },
        TokenType::Nil => ParseRule { prefix: Some(Handler::Literal), infix: None, precedence: Precedence::Lowest },
        TokenType::Or => ParseRule { prefix: None, infix: Some(Handler::Or), precedence: Precedence::Or },
        TokenType::Print => ParseRule { prefix: None, infix: None, precedence: Precedence::Lowest },
        TokenType::Return => ParseRule { prefix: None, infix: None, precedence: Precedence::Lowest },
        TokenType::Super => ParseRule { prefix: None, infix: None, precedence: Precedence::Lowest },
        TokenType::This => ParseRule { prefix: None, infix: None, precedence: Precedence::Lowest },
        TokenType::True => ParseRule { prefix: Some(Handler::Literal), infix: None, precedence: Precedence::Lowest },
        TokenType::Var => ParseRule { prefix: None, infix: None, precedence: Precedence::Lowest },
        TokenType::While => ParseRule { prefix: None, infix: None, precedence: Precedence::Lowest },
        TokenType::Error => ParseRule { prefix: None, infix: None, precedence: Precedence::Lowest },
        TokenType::EoF => ParseRule { prefix: None, infix: None, precedence: Precedence::Lowest },
    }
}

/// The parse rule of tokens of kind `op`.
pub fn get_rule(op: TokenType) -> (r: ParseRule)
    ensures
        r == rule_of(op),
{
    match op {
        TokenType::LeftParen => ParseRule { prefix: Some(Handler::Grouping), infix: Some(Handler::Call), precedence: Precedence::Call },
        TokenType::RightParen => ParseRule { prefix: None, infix: None, precedence: Precedence::Lowest },
        TokenType::LeftBrace => ParseRule { prefix: None, infix: None, precedence: Precedence::Lowest },
        TokenType::RightBrace => ParseRule { prefix: None, infix: None, precedence: Precedence::Lowest },
        TokenType::Comma => ParseRule { prefix: None, infix: None, precedence: Precedence::Lowest },
        TokenType::Dot => ParseRule { prefix: None, infix: None, precedence: Precedence::Lowest },
        TokenType::Minus => ParseRule { prefix: Some(Handler::Unary), infix: Some(Handler::Binary), precedence: Precedence::Term },
        TokenType::Plus => ParseRule { prefix: None, infix: Some(Handler::Binary), precedence: Precedence::Term },
        TokenType::Semicolon => ParseRule { prefix: None, infix: None, precedence: Precedence::Lowest },
        TokenType::Slash => ParseRule { prefix: None, infix: Some(Handler::Binary), precedence: Precedence::Factor },
        TokenType::Star => ParseRule { prefix: None, infix: Some(Handler::Binary), precedence: Precedence::Factor },
        TokenType::Bang => ParseRule { prefix: Some(Handler::Unary), infix: None, precedence: Precedence::Lowest },
        TokenType::BangEqual => ParseRule { prefix: None, infix: Some(Handler::Binary), precedence: Precedence::Equality },
        TokenType::Equal => ParseRule { prefix: None, infix: None, precedence: Precedence::Lowest },
        TokenType::EqualEqual => ParseRule { prefix: None, infix: Some(Handler::Binary), precedence: Precedence::Equality },
        TokenType::Greater => ParseRule { prefix: None, infix: Some(Handler::Binary), precedence: Precedence::Comparison },
        TokenType::GreaterEqual => ParseRule { prefix: None, infix: Some(Handler::Binary), precedence: Precedence::Comparison },
        TokenType::Less => ParseRule { prefix: None, infix: Some(Handler::Binary), precedence: Precedence::Comparison },
        TokenType::LessEqual => ParseRule { prefix: None, infix: Some(Handler::Binary), precedence: Precedence::Comparison },
        TokenType::Identifier => ParseRule { prefix: Some(Handler::Variable), infix: None, precedence: Precedence::Lowest },
        TokenType::String => ParseRule { prefix: Some(Handler::String), infix: None, precedence: Precedence::Lowest },
        TokenType::Number => ParseRule { prefix: Some(Handler::Number), infix: None, precedence: Precedence::Lowest },
        TokenType::And => ParseRule { prefix: None, infix: Some(Handler::And), precedence: Precedence::And },
        TokenType::Class => ParseRule { prefix: None, infix: None, precedence: Precedence::Lowest },
        TokenType::Else => ParseRule { prefix: None, infix: None, precedence: Precedence::Lowest },
        TokenType::False => ParseRule { prefix: Some(Handler::Literal), infix: None, precedence: Precedence::Lowest },
        TokenType::For => ParseRule { prefix: None, infix: None, precedence: Precedence::Lowest },
        TokenType::Fun => ParseRule { prefix: None, infix: None, precedence: Precedence::Lowest },
        TokenType::If => ParseRule { prefix: None, infix: None, precedence: Precedence::Lowest },
        TokenType::Nil => ParseRule { prefix: Some(Handler::Literal), infix: None, precedence: Precedence::Lowest },
        TokenType::Or => ParseRule { prefix: None, infix: Some(Handler::Or), precedence: Precedence::Or },
        TokenType::Print => ParseRule { prefix: None, infix: None, precedence: Precedence::Lowest },
        TokenType::Return => ParseRule { prefix: None, infix: None, precedence: Precedence::Lowest },
        TokenType::Super => ParseRule { prefix: None, infix: None, precedence: Precedence::Lowest },
        TokenType::This => ParseRule { prefix: None, infix: None, precedence: Precedence::Lowest },
        TokenType::True => ParseRule { prefix: Some(Handler::Literal), infix: None, precedence: Precedence::Lowest },
        TokenType::Var => ParseRule { prefix: None, infix: None, precedence: Precedence::Lowest },
        TokenType::While => ParseRule { prefix: None, infix: None, precedence: Precedence::Lowest },
        TokenType::Error => ParseRule { prefix: None, infix: None, precedence: Precedence::Lowest },
        TokenType::EoF => ParseRule { prefix: None, infix: None, precedence: Precedence::Lowest },
    }
}

/// A token continues an expression exactly when it binds more tightly than
/// the lowest level: the expression parser, which goes on while the next
/// token binds at least as tightly as the level it parses at, never reaches
/// a token that has no routine to continue with.
pub proof fn lemma_infix_iff_binding(op: TokenType)
    ensures
        rule_of(op).infix is Some <==> rule_of(op).precedence != Precedence::Lowest,
{
}

} // verus!
