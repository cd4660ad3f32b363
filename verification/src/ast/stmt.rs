//! Statements.
use vstd::prelude::*;
use crate::ast::expr::{Expr, ExprView};
use crate::lexer::token::{Token, TokenView};

verus! {

broadcast use vstd::std_specs::vec::group_vec_axioms;

/// A statement.
pub enum Stmt {
    Block(Vec<Stmt>),
    Class(Token, Option<Expr>, Vec<Stmt>),
    Expression(Expr),
    Function(Token, Vec<Token>, Vec<Stmt>),
    If(Expr, Box<Stmt>, Option<Box<Stmt>>),
    Print(Expr),
    Return(Token, Expr),
    Var(Token, Expr),       // (name, initializer)
    While(Expr, Box<Stmt>), // (condition, body)
}

/// A statement, as mathematical values.
pub enum StmtView {
    Block(Seq<StmtView>),
    Class(TokenView, Option<ExprView>, Seq<StmtView>),
    Expression(ExprView),
    Function(TokenView, Seq<TokenView>, Seq<StmtView>),
    If(ExprView, Box<StmtView>, Option<Box<StmtView>>),
    Print(ExprView),
    Return(TokenView, ExprView),
    Var(TokenView, ExprView),
    While(ExprView, Box<StmtView>),
}

/// The views of a sequence of tokens.
pub open spec fn tokens_view(s: Seq<Token>) -> Seq<TokenView> {
    s.map_values(|t: Token| t@)
}

/// The view of a statement.
pub open spec fn stmt_view(s: Stmt) -> StmtView
    decreases s, 1nat,
{
    match s {
        Stmt::Block(b) => {
            proof { assert(decreases_to!(s => s->Block_0)); }
            StmtView::Block(stmts_view(b@))
        }
        Stmt::Class(n, sup, methods) => {
            proof { assert(decreases_to!(s => s->Class_2)); }
            StmtView::Class(n@, match sup { Some(e) => Some(e@), None => None }, stmts_view(methods@))
        }
        Stmt::Expression(e) => StmtView::Expression(e@),
        Stmt::Function(n, params, body) => {
            proof { assert(decreases_to!(s => s->Function_2)); }
            StmtView::Function(n@, tokens_view(params@), stmts_view(body@))
        }
        Stmt::If(c, t, e) => StmtView::If(c@, Box::new(stmt_view(*t)), match e {
            Some(b) => Some(Box::new(stmt_view(*b))),
            None => None,
        }),
        Stmt::Print(e) => StmtView::Print(e@),
        Stmt::Return(k, v) => StmtView::Return(k@, v@),
        Stmt::Var(n, i) => StmtView::Var(n@, i@),
        Stmt::While(c, b) => StmtView::While(c@, Box::new(stmt_view(*b))),
    }
}

/// The views of a sequence of statements.
pub open spec fn stmts_view(s: Seq<Stmt>) -> Seq<StmtView>
    decreases s, 0nat,
{
    if s.len() == 0 {
        Seq::empty()
    } else {
        stmts_view(s.drop_last()).push(stmt_view(s.last()))
    }
}

/// The views of a sequence of statements are as many as the statements,
/// each the view of its statement.
pub proof fn lemma_stmts_view_len(s: Seq<Stmt>)
    ensures
        stmts_view(s).len() == s.len(),
        forall|i: int| 0 <= i < s.len() ==> #[trigger] stmts_view(s)[i] == s[i]@,
    decreases s.len(),
{
    if s.len() > 0 {
        lemma_stmts_view_len(s.drop_last());
    }
}

/// The views of two statements.
pub proof fn lemma_stmts_view_pair(s: Seq<Stmt>)
    requires
        s.len() == 2,
    ensures
        stmts_view(s) == seq![s[0]@, s[1]@],
{
    reveal_with_fuel(stmts_view, 3);
    assert(s.drop_last().drop_last() =~= Seq::<Stmt>::empty());
    assert(stmts_view(s.drop_last()) =~= seq![s[0]@]);
    assert(stmts_view(s) =~= seq![s[0]@, s[1]@]);
}

impl View for Stmt {
    type V = StmtView;

    open spec fn view(&self) -> StmtView {
        stmt_view(*self)
    }
}

} // verus!
