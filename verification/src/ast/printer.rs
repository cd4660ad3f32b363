//! Printing the syntax tree as parenthesized text.
use vstd::prelude::*;
use crate::ast::expr::{exprs_view, Expr, ExprView};
use crate::ast::stmt::{stmts_view, tokens_view, Stmt, StmtView};
use crate::lexer::scanner::{digit, digits_end, word_kind};
use crate::parser::p_primary;
use crate::lexer::token::{Literal, LiteralView, Number, Token, TokenType, TokenView};
use crate::text::{chars_of, push_chars, push_str};
use crate::Visitor;

verus! {

broadcast use vstd::std_specs::vec::group_vec_axioms;

/// The first position in `i..end - 1` that does not hold `0`, or `end - 1`.
pub open spec fn skip_zeros(t: Seq<char>, i: int, end: int) -> int
    decreases end - i,
{
    if i < end - 1 && t[i] == '0' {
        skip_zeros(t, i + 1, end)
    } else {
        i
    }
}

/// The end of `t[start..j]` once the zeros at its end are dropped.
pub open spec fn drop_zeros(t: Seq<char>, start: int, j: int) -> int
    decreases j - start,
{
    if j > start && t[j - 1] == '0' {
        drop_zeros(t, start, j - 1)
    } else {
        j
    }
}

/// How a number literal written `t` is displayed: the integer part without
/// leading zeros, then the fraction without trailing zeros, if any is left.
pub open spec fn number_display(t: Seq<char>) -> Seq<char> {
    let d = digits_end(t, 0);
    let whole = t.subrange(skip_zeros(t, 0, d), d);
    if d < t.len() {
        let e = drop_zeros(t, d + 1, t.len() as int);
        if e > d + 1 {
            whole + t.subrange(d, e)
        } else {
            whole
        }
    } else {
        whole
    }
}

/// How a literal is displayed.
pub open spec fn literal_text(l: LiteralView) -> Seq<char> {
    match l {
        LiteralView::Nil => "nil"@,
        LiteralView::Str(s) => s,
        LiteralView::Number(t) => number_display(t),
        LiteralView::Bool(b) => if b { "true"@ } else { "false"@ },
    }
}

/// A boolean or `nil` literal prints as the reserved word that reads back
/// as it: the scanner takes the printed text of `Bool(b)` for the token
/// `true` or `false` as `b` is, and that of `Nil` for `nil`, and the parser
/// turns a token of that kind back into the same literal. So distinct
/// literals print differently.
pub proof fn law_literal_words(b: bool, ts: Seq<TokenView>, p: int)
    ensures
        word_kind(literal_text(LiteralView::Bool(b))) == (if b { TokenType::True } else { TokenType::False }),
        word_kind(literal_text(LiteralView::Nil)) == TokenType::Nil,
        literal_text(LiteralView::Bool(b)) != literal_text(LiteralView::Bool(!b)),
        literal_text(LiteralView::Bool(b)) != literal_text(LiteralView::Nil),
        0 <= p < ts.len() && ts[p].kind == word_kind(literal_text(LiteralView::Bool(b)))
            ==> p_primary(ts, p).value == Some(ExprView::LiteralExpr(LiteralView::Bool(b))),
        0 <= p < ts.len() && ts[p].kind == word_kind(literal_text(LiteralView::Nil))
            ==> p_primary(ts, p).value == Some(ExprView::LiteralExpr(LiteralView::Nil)),
{
    reveal_strlit("true");
    reveal_strlit("false");
    reveal_strlit("nil");
    assert("true"@ =~= seq!['t', 'r', 'u', 'e']);
    assert("false"@ =~= seq!['f', 'a', 'l', 's', 'e']);
    assert("nil"@ =~= seq!['n', 'i', 'l']);
}

/// The printed form of an expression.
pub open spec fn expr_text(e: ExprView) -> Seq<char>
    decreases e, 1nat,
{
    match e {
        ExprView::Assign(n, v) => "(= "@ + n.lexeme + " "@ + expr_text(*v) + ")"@,
        ExprView::Binary(l, op, r) => "("@ + op.lexeme + " "@ + expr_text(*l) + " "@ + expr_text(*r) + ")"@,
        ExprView::Call(c, _, args) => {
            proof {
                assert(decreases_to!(e => e->Call_2));
            }
            "(call "@ + expr_text(*c) + " "@ + args_text(args) + ")"@
        }
        ExprView::Get(o, n) => "(. "@ + expr_text(*o) + " "@ + n.lexeme + ")"@,
        ExprView::Grouping(g) => "(group "@ + expr_text(*g) + ")"@,
        ExprView::LiteralExpr(l) => literal_text(l),
        ExprView::Logical(l, op, r) => "("@ + op.lexeme + " "@ + expr_text(*l) + " "@ + expr_text(*r) + ")"@,
        ExprView::Unary(op, r) => "("@ + op.lexeme + " "@ + expr_text(*r) + ")"@,
        ExprView::SetProperty(o, n, v) => "(= "@ + expr_text(*o) + " "@ + n.lexeme + " "@ + expr_text(*v) + ")"@,
        ExprView::Super(_, m) => "(super "@ + m.lexeme + ")"@,
        ExprView::This(_) => "this"@,
        ExprView::Variable(t) => t.lexeme,
    }
}

/// The printed arguments of a call, each after a space.
pub open spec fn args_text(s: Seq<ExprView>) -> Seq<char>
    decreases s, 0nat,
{
    if s.len() == 0 {
        Seq::empty()
    } else {
        args_text(s.drop_last()) + " "@ + expr_text(s.last())
    }
}

/// Parameter names separated by spaces.
pub open spec fn params_text(ps: Seq<TokenView>) -> Seq<char>
    decreases ps.len(),
{
    if ps.len() == 0 {
        Seq::empty()
    } else if ps.len() == 1 {
        ps[0].lexeme
    } else {
        params_text(ps.drop_last()) + " "@ + ps.last().lexeme
    }
}

/// The printed form of a statement.
pub open spec fn stmt_text(s: StmtView) -> Seq<char>
    decreases s, 1nat,
{
    match s {
        StmtView::Block(b) => {
            proof {
                assert(decreases_to!(s => s->Block_0));
            }
            "block "@ + stmts_text(b) + ")"@
        }
        StmtView::Class(n, sup, ms) => {
            proof {
                assert(decreases_to!(s => s->Class_2));
            }
            let head = "(class "@ + n.lexeme;
            let head = match sup {
                Some(e) => head + " < "@ + expr_text(e),
                None => head,
            };
            head + methods_text(ms) + ")"@
        }
        StmtView::Expression(e) => "(; "@ + expr_text(e) + ")"@,
        StmtView::Function(n, ps, body) => {
            proof {
                assert(decreases_to!(s => s->Function_2));
            }
            "(fun "@ + n.lexeme + "("@ + params_text(ps) + ")"@ + stmts_text(body) + ")"@
        }
        StmtView::If(c, t, e) => match e {
            Some(eb) => "(if-else "@ + expr_text(c) + " "@ + stmt_text(*t) + " "@ + stmt_text(*eb) + ")"@,
            None => "(if "@ + expr_text(c) + " "@ + stmt_text(*t) + ")"@,
        },
        StmtView::Print(e) => "(print "@ + expr_text(e) + ")"@,
        StmtView::Return(_, v) => if v == ExprView::LiteralExpr(LiteralView::Nil) {
            "(return)"@
        } else {
            "(return "@ + expr_text(v) + ")"@
        },
        StmtView::Var(n, i) => if i == ExprView::LiteralExpr(LiteralView::Nil) {
            "(var "@ + n.lexeme + ")"@
        } else {
            "(var "@ + n.lexeme + " = "@ + expr_text(i) + ")"@
        },
        StmtView::While(c, b) => "(while "@ + expr_text(c) + " "@ + stmt_text(*b) + ")"@,
    }
}

/// The printed statements, one after the other.
pub open spec fn stmts_text(s: Seq<StmtView>) -> Seq<char>
    decreases s, 0nat,
{
    if s.len() == 0 {
        Seq::empty()
    } else {
        stmts_text(s.drop_last()) + stmt_text(s.last())
    }
}

/// The printed methods of a class, each after a space.
pub open spec fn methods_text(s: Seq<StmtView>) -> Seq<char>
    decreases s, 0nat,
{
    if s.len() == 0 {
        Seq::empty()
    } else {
        methods_text(s.drop_last()) + " "@ + stmt_text(s.last())
    }
}

/// Prints a syntax tree as parenthesized text.
pub struct AstPrinter;

/// How a number literal is displayed.
pub fn display_number(n: &Number) -> (s: String)
    ensures
        s@ == number_display(n.spec_text()),
{
    let v = chars_of(n.text().as_str());
    let ghost t = v@;
    let mut d: usize = 0;
    while d < v.len() && digit(v[d])
        invariant
            t == v@,
            d <= v.len(),
            digits_end(t, 0) == digits_end(t, d as int),
        decreases v.len() - d,
    {
        d = d + 1;
    }
    assert(digits_end(t, d as int) == d);
    let mut a: usize = 0;
    while a + 1 < d && v[a] == '0'
        invariant
            t == v@,
            a < d || d == 0,
            a <= d,
            d <= v.len(),
            skip_zeros(t, 0, d as int) == skip_zeros(t, a as int, d as int),
        decreases d - a,
    {
        a = a + 1;
    }
    assert(skip_zeros(t, a as int, d as int) == a);
    let mut s = String::new();
    push_chars(&mut s, &v, a, d);
    if d < v.len() {
        let mut e: usize = v.len();
        while e > d + 1 && v[e - 1] == '0'
            invariant
                t == v@,
                d + 1 <= e <= v.len(),
                drop_zeros(t, d + 1, v.len() as int) == drop_zeros(t, d + 1, e as int),
            decreases e,
        {
            e = e - 1;
        }
        assert(drop_zeros(t, d + 1, e as int) == e);
        if e > d + 1 {
            push_chars(&mut s, &v, d, e);
        }
    }
    assert(s@ =~= number_display(t));
    s
}

/// How a literal is displayed.
pub fn display_literal(l: &Literal) -> (s: String)
    ensures
        s@ == literal_text(l@),
{
    match l {
        Literal::Nil => "nil".to_owned(),
        Literal::String(x) => crate::text::copy_string(x),
        Literal::Number(n) => display_number(n),
        Literal::Bool(b) => if *b { "true".to_owned() } else { "false".to_owned() },
    }
}

/// Appends the printed form of `e` to `out`.
fn print_expr(out: &mut String, e: &Expr)
    ensures
        final(out)@ == old(out)@ + expr_text(e@),
    decreases e, 1nat,
{
    let ghost o = out@;
    match e {
        Expr::Assign(n, v) => {
            push_str(out, "(= ");
            push_str(out, n.get_lexeme());
            push_str(out, " ");
            print_expr(out, v);
            push_str(out, ")");
        }
        Expr::Binary(l, op, r) => {
            push_str(out, "(");
            push_str(out, op.get_lexeme());
            push_str(out, " ");
            print_expr(out, l);
            push_str(out, " ");
            print_expr(out, r);
            push_str(out, ")");
        }
        Expr::Logical(l, op, r) => {
            push_str(out, "(");
            push_str(out, op.get_lexeme());
            push_str(out, " ");
            print_expr(out, l);
            push_str(out, " ");
            print_expr(out, r);
            push_str(out, ")");
        }
        Expr::Call(c, _, args) => {
            push_str(out, "(call ");
            print_expr(out, c);
            push_str(out, " ");
            print_args(out, args);
            push_str(out, ")");
        }
        Expr::Get(obj, n) => {
            push_str(out, "(. ");
            print_expr(out, obj);
            push_str(out, " ");
            push_str(out, n.get_lexeme());
            push_str(out, ")");
        }
        Expr::Grouping(g) => {
            push_str(out, "(group ");
            print_expr(out, g);
            push_str(out, ")");
        }
        Expr::LiteralExpr(l) => {
            let s = display_literal(l);
            push_str(out, s.as_str());
        }
        Expr::Unary(op, r) => {
            push_str(out, "(");
            push_str(out, op.get_lexeme());
            push_str(out, " ");
            print_expr(out, r);
            push_str(out, ")");
        }
        Expr::SetProperty(obj, n, v) => {
            push_str(out, "(= ");
            print_expr(out, obj);
            push_str(out, " ");
            push_str(out, n.get_lexeme());
            push_str(out, " ");
            print_expr(out, v);
            push_str(out, ")");
        }
        Expr::Super(_, m) => {
            push_str(out, "(super ");
            push_str(out, m.get_lexeme());
            push_str(out, ")");
        }
        Expr::This(_) => {
            push_str(out, "this");
        }
        Expr::Variable(t) => {
            push_str(out, t.get_lexeme());
        }
    }
    assert(out@ =~= o + expr_text(e@));
}

/// Appends the printed arguments, each after a space.
fn print_args(out: &mut String, args: &Vec<Expr>)
    ensures
        final(out)@ == old(out)@ + args_text(exprs_view(args@)),
    decreases args, 0nat,
{
    let ghost o = out@;
    let mut i: usize = 0;
    while i < args.len()
        invariant
            i <= args.len(),
            out@ == o + args_text(exprs_view(args@.subrange(0, i as int))),
        decreases args.len() - i,
    {
        let ghost before = out@;
        push_str(out, " ");
        print_expr(out, &args[i]);
        proof {
            let sub = args@.subrange(0, i + 1);
            assert(sub.drop_last() =~= args@.subrange(0, i as int));
            assert(sub.last() == args@[i as int]);
            assert(exprs_view(sub).drop_last() =~= exprs_view(args@.subrange(0, i as int)));
            assert(exprs_view(sub).last() == args@[i as int]@);
            assert(out@ =~= o + args_text(exprs_view(sub)));
        }
        i = i + 1;
    }
    assert(args@.subrange(0, args.len() as int) =~= args@);
}

/// Appends the parameter names, separated by spaces.
fn print_params(out: &mut String, params: &Vec<Token>)
    ensures
        final(out)@ == old(out)@ + params_text(tokens_view(params@)),
{
    let ghost o = out@;
    let mut i: usize = 0;
    while i < params.len()
        invariant
            i <= params.len(),
            out@ == o + params_text(tokens_view(params@.subrange(0, i as int))),
        decreases params.len() - i,
    {
        if i != 0 {
            push_str(out, " ");
        }
        push_str(out, params[i].get_lexeme());
        proof {
            let sub = tokens_view(params@.subrange(0, i + 1));
            assert(sub.drop_last() =~= tokens_view(params@.subrange(0, i as int)));
            if i == 0 {
                assert(out@ =~= o + params_text(sub));
            } else {
                assert(out@ =~= o + params_text(sub));
            }
        }
        i = i + 1;
    }
    assert(params@.subrange(0, params.len() as int) =~= params@);
}

/// Appends the printed form of `s` to `out`.
#[verifier::rlimit(100)]
#[verifier::spinoff_prover]
fn print_stmt(out: &mut String, s: &Stmt)
    ensures
        final(out)@ == old(out)@ + stmt_text(s@),
    decreases s, 1nat,
{
    let ghost o = out@;
    match s {
        Stmt::Block(b) => {
            push_str(out, "block ");
            print_stmts(out, b, false);
            push_str(out, ")");
        }
        Stmt::Class(n, sup, methods) => {
            push_str(out, "(class ");
            push_str(out, n.get_lexeme());
            match sup {
                Some(e) => {
                    push_str(out, " < ");
                    print_expr(out, e);
                }
                None => {}
            }
            print_stmts(out, methods, true);
            push_str(out, ")");
        }
        Stmt::Expression(e) => {
            push_str(out, "(; ");
            print_expr(out, e);
            push_str(out, ")");
        }
        Stmt::Function(n, params, body) => {
            push_str(out, "(fun ");
            push_str(out, n.get_lexeme());
            push_str(out, "(");
            print_params(out, params);
            push_str(out, ")");
            print_stmts(out, body, false);
            push_str(out, ")");
        }
        Stmt::If(c, t, e) => {
            match e {
                Some(eb) => {
                    push_str(out, "(if-else ");
                    print_expr(out, c);
                    push_str(out, " ");
                    print_stmt(out, t);
                    push_str(out, " ");
                    print_stmt(out, eb);
                    push_str(out, ")");
                }
                None => {
                    push_str(out, "(if ");
                    print_expr(out, c);
                    push_str(out, " ");
                    print_stmt(out, t);
                    push_str(out, ")");
                }
            }
        }
        Stmt::Print(e) => {
            push_str(out, "(print ");
            print_expr(out, e);
            push_str(out, ")");
        }
        Stmt::Return(_, v) => {
            if let Expr::LiteralExpr(Literal::Nil) = v {
                push_str(out, "(return)");
            } else {
                push_str(out, "(return ");
                print_expr(out, v);
                push_str(out, ")");
            }
        }
        Stmt::Var(n, i) => {
            if let Expr::LiteralExpr(Literal::Nil) = i {
                push_str(out, "(var ");
                push_str(out, n.get_lexeme());
                push_str(out, ")");
            } else {
                push_str(out, "(var ");
                push_str(out, n.get_lexeme());
                push_str(out, " = ");
                print_expr(out, i);
                push_str(out, ")");
            }
        }
        Stmt::While(c, b) => {
            push_str(out, "(while ");
            print_expr(out, c);
            push_str(out, " ");
            print_stmt(out, b);
            push_str(out, ")");
        }
    }
    assert(out@ =~= o + stmt_text(s@));
}

/// Appends the printed statements, each after a space when `spaced`.
fn print_stmts(out: &mut String, v: &Vec<Stmt>, spaced: bool)
    ensures
        final(out)@ == old(out)@ + if spaced {
            methods_text(stmts_view(v@))
        } else {
            stmts_text(stmts_view(v@))
        },
    decreases v, 0nat,
{
    let ghost o = out@;
    let mut i: usize = 0;
    while i < v.len()
        invariant
            i <= v.len(),
            out@ == o + if spaced {
                methods_text(stmts_view(v@.subrange(0, i as int)))
            } else {
                stmts_text(stmts_view(v@.subrange(0, i as int)))
            },
        decreases v.len() - i,
    {
        if spaced {
            push_str(out, " ");
        }
        print_stmt(out, &v[i]);
        proof {
            let sub = v@.subrange(0, i + 1);
            assert(sub.drop_last() =~= v@.subrange(0, i as int));
            assert(sub.last() == v@[i as int]);
            assert(stmts_view(sub).drop_last() =~= stmts_view(v@.subrange(0, i as int)));
            assert(stmts_view(sub).last() == v@[i as int]@);
            if spaced {
                assert(out@ =~= o + methods_text(stmts_view(sub)));
            } else {
                assert(out@ =~= o + stmts_text(stmts_view(sub)));
            }
        }
        i = i + 1;
    }
    assert(v@.subrange(0, v.len() as int) =~= v@);
}

impl Visitor<String, String> for AstPrinter {
    /// The printed form of `e`.
    fn visit_expr(&mut self, e: &Expr) -> (r: String)
        ensures
            r@ == expr_text(e@),
    {
        let mut out = String::new();
        print_expr(&mut out, e);
        assert(out@ =~= expr_text(e@));
        out
    }

    /// The printed form of `s`.
    fn visit_stmt(&mut self, s: &Stmt) -> (r: String)
        ensures
            r@ == stmt_text(s@),
    {
        let mut out = String::new();
        print_stmt(&mut out, s);
        assert(out@ =~= stmt_text(s@));
        out
    }
}

} // verus!
