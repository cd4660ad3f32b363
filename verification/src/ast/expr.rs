//! Expressions.
use vstd::prelude::*;
use crate::lexer::token::{Literal, LiteralView, Token, TokenView};

verus! {

broadcast use vstd::std_specs::vec::group_vec_axioms;

/// An expression.
pub enum Expr {
    Assign(Token, Box<Expr>),
    Binary(Box<Expr>, Token, Box<Expr>),
    Call(Box<Expr>, Token, Vec<Expr>),
    Get(Box<Expr>, Token),
    Grouping(Box<Expr>),
    LiteralExpr(Literal),
    Logical(Box<Expr>, Token, Box<Expr>),
    Unary(Token, Box<Expr>),
    SetProperty(Box<Expr>, Token, Box<Expr>),
    Super(Token, Token),
    This(Token),
    Variable(Token),
}

/// An expression, as mathematical values.
pub enum ExprView {
    Assign(TokenView, Box<ExprView>),
    Binary(Box<ExprView>, TokenView, Box<ExprView>),
    Call(Box<ExprView>, TokenView, Seq<ExprView>),
    Get(Box<ExprView>, TokenView),
    Grouping(Box<ExprView>),
    LiteralExpr(LiteralView),
    Logical(Box<ExprView>, TokenView, Box<ExprView>),
    Unary(TokenView, Box<ExprView>),
    SetProperty(Box<ExprView>, TokenView, Box<ExprView>),
    Super(TokenView, TokenView),
    This(TokenView),
    Variable(TokenView),
}

/// The view of an expression.
pub open spec fn expr_view(e: Expr) -> ExprView
    decreases e, 1nat,
{
    match e {
        Expr::Assign(t, v) => ExprView::Assign(t@, Box::new(expr_view(*v))),
        Expr::Binary(l, t, r) => ExprView::Binary(Box::new(expr_view(*l)), t@, Box::new(expr_view(*r))),
        Expr::Call(c, t, args) => {
            proof {
                assert(decreases_to!(e => e->Call_2));
            }
            ExprView::Call(Box::new(expr_view(*c)), t@, exprs_view(args@))
        }
        Expr::Get(o, t) => ExprView::Get(Box::new(expr_view(*o)), t@),
        Expr::Grouping(g) => ExprView::Grouping(Box::new(expr_view(*g))),
        Expr::LiteralExpr(l) => ExprView::LiteralExpr(l@),
        Expr::Logical(l, t, r) => ExprView::Logical(Box::new(expr_view(*l)), t@, Box::new(expr_view(*r))),
        Expr::Unary(t, r) => ExprView::Unary(t@, Box::new(expr_view(*r))),
        Expr::SetProperty(o, t, v) => ExprView::SetProperty(Box::new(expr_view(*o)), t@, Box::new(expr_view(*v))),
        Expr::Super(k, m) => ExprView::Super(k@, m@),
        Expr::This(t) => ExprView::This(t@),
        Expr::Variable(t) => ExprView::Variable(t@),
    }
}

/// The views of a sequence of expressions.
pub open spec fn exprs_view(s: Seq<Expr>) -> Seq<ExprView>
    decreases s, 0nat,
{
    if s.len() == 0 {
        Seq::empty()
    } else {
        exprs_view(s.drop_last()).push(expr_view(s.last()))
    }
}

/// The views of a sequence of expressions are as many as the expressions.
pub proof fn lemma_exprs_view_len(s: Seq<Expr>)
    ensures
        exprs_view(s).len() == s.len(),
        forall|i: int| 0 <= i < s.len() ==> #[trigger] exprs_view(s)[i] == s[i]@,
    decreases s.len(),
{
    if s.len() > 0 {
        lemma_exprs_view_len(s.drop_last());
    }
}

impl View for Expr {
    type V = ExprView;

    open spec fn view(&self) -> ExprView {
        expr_view(*self)
    }
}

impl Expr {
    /// A copy of the expression.
    pub fn copied(&self) -> (e: Expr)
        ensures
            e@ == self@,
        decreases self, 1nat,
    {
        match self {
            Expr::Assign(t, v) => Expr::Assign(t.copied(), Box::new(v.copied())),
            Expr::Binary(l, t, r) => Expr::Binary(Box::new(l.copied()), t.copied(), Box::new(r.copied())),
            Expr::Call(c, t, args) => {
                let out = copy_exprs(args);
                Expr::Call(Box::new(c.copied()), t.copied(), out)
            }
            Expr::Get(o, t) => Expr::Get(Box::new(o.copied()), t.copied()),
            Expr::Grouping(g) => Expr::Grouping(Box::new(g.copied())),
            Expr::LiteralExpr(l) => Expr::LiteralExpr(l.copied()),
            Expr::Logical(l, t, r) => Expr::Logical(Box::new(l.copied()), t.copied(), Box::new(r.copied())),
            Expr::Unary(t, r) => Expr::Unary(t.copied(), Box::new(r.copied())),
            Expr::SetProperty(o, t, v) => Expr::SetProperty(Box::new(o.copied()), t.copied(), Box::new(v.copied())),
            Expr::Super(k, m) => Expr::Super(k.copied(), m.copied()),
            Expr::This(t) => Expr::This(t.copied()),
            Expr::Variable(t) => Expr::Variable(t.copied()),
        }
    }
}

/// A copy of a list of expressions.
pub fn copy_exprs(args: &Vec<Expr>) -> (out: Vec<Expr>)
    ensures
        exprs_view(out@) == exprs_view(args@),
    decreases args, 0nat,
{
    let mut out: Vec<Expr> = Vec::new();
    let mut i: usize = 0;
    while i < args.len()
        invariant
            i <= args.len(),
            out@.len() == i,
            exprs_view(out@) == exprs_view(args@.subrange(0, i as int)),
        decreases args.len() - i,
    {
        let ghost before = out@;
        out.push(args[i].copied());
        proof {
            assert(out@.drop_last() =~= before);
            assert(args@.subrange(0, i + 1).drop_last() =~= args@.subrange(0, i as int));
        }
        i = i + 1;
    }
    assert(args@.subrange(0, args.len() as int) =~= args@);
    out
}

} // verus!
