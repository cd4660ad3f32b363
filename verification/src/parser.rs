//! The recursive descent parser of the tree-walk front end.
use vstd::prelude::*;
use crate::ast::expr::{copy_exprs, exprs_view, lemma_exprs_view_len, Expr, ExprView};
use crate::ast::stmt::{lemma_stmts_view_pair, stmts_view, tokens_view, Stmt, StmtView};
use crate::lexer::token::{Literal, LiteralView, Token, TokenType, TokenView};
use crate::report::{token_report, Lox};
use crate::text::push_str;

verus! {

broadcast use vstd::std_specs::vec::group_vec_axioms;

// ---------------------------------------------------------------------------
// The grammar, as functions on the token sequence.
// ---------------------------------------------------------------------------

/// What parsing a piece from some position gives: the piece (`None` on a
/// syntax error), the position after it, and the reports made.
pub struct Parsed<T> {
    pub value: Option<T>,
    pub pos: int,
    pub reports: Seq<Seq<char>>,
}

/// A failed parse at `pos` with `reports`.
pub open spec fn failed<T>(pos: int, reports: Seq<Seq<char>>) -> Parsed<T> {
    Parsed { value: None, pos, reports }
}

/// The kind of the token at `p`; past the end, the end of file.
pub open spec fn kind_at(ts: Seq<TokenView>, p: int) -> TokenType {
    if 0 <= p < ts.len() { ts[p].kind } else { TokenType::Eof }
}

/// The token at `p` is the end of file.
pub open spec fn at_end(ts: Seq<TokenView>, p: int) -> bool {
    kind_at(ts, p) == TokenType::Eof
}

/// The token at `p` is of kind `k` (and not the end).
pub open spec fn check(ts: Seq<TokenView>, p: int, k: TokenType) -> bool {
    !at_end(ts, p) && kind_at(ts, p) == k
}

/// The position after consuming the token at `p` (the end is never passed).
pub open spec fn step(ts: Seq<TokenView>, p: int) -> int {
    if at_end(ts, p) { p } else { p + 1 }
}

/// Expecting a token of kind `k` at `p`: the token, or the report of `message` there.
pub open spec fn consume(ts: Seq<TokenView>, p: int, k: TokenType, message: Seq<char>) -> Parsed<TokenView> {
    if check(ts, p, k) {
        Parsed { value: Some(ts[p]), pos: p + 1, reports: Seq::empty() }
    } else {
        failed(p, seq![token_report(ts[p], message)])
    }
}

/// `p < q <= ts.len()`: a position strictly after `p`.
pub open spec fn ahead(ts: Seq<TokenView>, p: int, q: int) -> bool {
    p < q <= ts.len()
}

/// The operators of binary level `l`: 1 factor, 2 term, 3 comparison,
/// 4 equality, 5 and, 6 or.
pub open spec fn level_op(l: nat, k: TokenType) -> bool {
    if l == 1 { k == TokenType::Slash || k == TokenType::Star }
    else if l == 2 { k == TokenType::Minus || k == TokenType::Plus }
    else if l == 3 { k == TokenType::Greater || k == TokenType::GreaterEqual || k == TokenType::Less || k == TokenType::LessEqual }
    else if l == 4 { k == TokenType::BangEqual || k == TokenType::EqualEqual }
    else if l == 5 { k == TokenType::And }
    else { k == TokenType::Or }
}

/// The node joining `left` and `right` with `op` at level `l`.
pub open spec fn join(l: nat, left: ExprView, op: TokenView, right: ExprView) -> ExprView {
    if l >= 5 {
        ExprView::Logical(Box::new(left), op, Box::new(right))
    } else {
        ExprView::Binary(Box::new(left), op, Box::new(right))
    }
}

/// `primary`: literals, names and parenthesized expressions.
pub open spec fn p_primary(ts: Seq<TokenView>, p: int) -> Parsed<ExprView>
    decreases ts.len() - p, 18nat,
{
    let k = kind_at(ts, p);
    if at_end(ts, p) {
        failed(p, seq![token_report(ts[p], "Expect expression."@)])
    } else if k == TokenType::False {
        Parsed { value: Some(ExprView::LiteralExpr(LiteralView::Bool(false))), pos: p + 1, reports: Seq::empty() }
    } else if k == TokenType::True {
        Parsed { value: Some(ExprView::LiteralExpr(LiteralView::Bool(true))), pos: p + 1, reports: Seq::empty() }
    } else if k == TokenType::Nil {
        Parsed { value: Some(ExprView::LiteralExpr(LiteralView::Nil)), pos: p + 1, reports: Seq::empty() }
    } else if k == TokenType::Number || k == TokenType::String {
        match ts[p].literal {
            LiteralView::Number(n) => Parsed { value: Some(ExprView::LiteralExpr(LiteralView::Number(n))), pos: p + 1, reports: Seq::empty() },
            LiteralView::Str(s) => Parsed { value: Some(ExprView::LiteralExpr(LiteralView::Str(s))), pos: p + 1, reports: Seq::empty() },
            _ => failed(p + 1, seq![token_report(ts[p], "Expected Number or String."@)]),
        }
    } else if k == TokenType::Identifier {
        Parsed { value: Some(ExprView::Variable(ts[p])), pos: p + 1, reports: Seq::empty() }
    } else if k == TokenType::LeftParen {
        if !ahead(ts, p, p + 1) {
            failed(p, Seq::empty())
        } else {
            let e = p_expression(ts, p + 1);
            match e.value {
                None => e,
                Some(x) => {
                    let c = consume(ts, e.pos, TokenType::RightParen, "Expect ')' after expression!"@);
                    match c.value {
                        None => failed(c.pos, e.reports + c.reports),
                        Some(_) => Parsed { value: Some(ExprView::Grouping(Box::new(x))), pos: c.pos, reports: e.reports },
                    }
                }
            }
        }
    } else {
        failed(p, seq![token_report(ts[p], "Expect expression."@)])
    }
}

/// The arguments of a call from `p`, after the arguments `acc` already parsed.
pub open spec fn p_arguments(ts: Seq<TokenView>, p: int, acc: Seq<ExprView>) -> Parsed<Seq<ExprView>>
    decreases ts.len() - p, 47nat,
{
    let warn: Seq<Seq<char>> = if acc.len() >= 255 {
        seq![token_report(ts[p], "Can't have more than 255 arguments."@)]
    } else {
        Seq::empty()
    };
    let e = p_expression(ts, p);
    match e.value {
        None => failed(e.pos, warn + e.reports),
        Some(x) => {
            if check(ts, e.pos, TokenType::Comma) {
                if !(p <= e.pos && ahead(ts, e.pos, e.pos + 1)) {
                    failed(e.pos, warn + e.reports)
                } else {
                    let r = p_arguments(ts, e.pos + 1, acc.push(x));
                    Parsed { value: r.value, pos: r.pos, reports: warn + e.reports + r.reports }
                }
            } else {
                Parsed { value: Some(acc.push(x)), pos: e.pos, reports: warn + e.reports }
            }
        }
    }
}

/// The rest of a call after `(` at `p - 1`: its arguments and `)`.
pub open spec fn p_finish_call(ts: Seq<TokenView>, p: int, callee: ExprView) -> Parsed<ExprView>
    decreases ts.len() - p, 48nat,
{
    let a = if !check(ts, p, TokenType::RightParen) {
        p_arguments(ts, p, Seq::empty())
    } else {
        Parsed { value: Some(Seq::empty()), pos: p, reports: Seq::empty() }
    };
    match a.value {
        None => a.map_none(),
        Some(args) => {
            let c = consume(ts, a.pos, TokenType::RightParen, "Expect ')' after arguments."@);
            match c.value {
                None => failed(c.pos, a.reports + c.reports),
                Some(paren) => Parsed {
                    value: Some(ExprView::Call(Box::new(callee), paren, args)),
                    pos: c.pos,
                    reports: a.reports,
                },
            }
        }
    }
}

impl<T> Parsed<T> {
    /// The same failure, at another type.
    pub open spec fn map_none<U>(self) -> Parsed<U> {
        Parsed { value: None, pos: self.pos, reports: self.reports }
    }
}

/// Calls applied to `callee`, from `p`.
pub open spec fn p_call_rest(ts: Seq<TokenView>, p: int, callee: ExprView) -> Parsed<ExprView>
    decreases ts.len() - p, 17nat,
{
    if check(ts, p, TokenType::LeftParen) && ahead(ts, p, p + 1) {
        let f = p_finish_call(ts, p + 1, callee);
        match f.value {
            None => f,
            Some(x) => {
                if !ahead(ts, p, f.pos) {
                    failed(f.pos, f.reports)
                } else {
                    let r = p_call_rest(ts, f.pos, x);
                    Parsed { value: r.value, pos: r.pos, reports: f.reports + r.reports }
                }
            }
        }
    } else {
        Parsed { value: Some(callee), pos: p, reports: Seq::empty() }
    }
}

/// `call`: a primary expression followed by calls.
pub open spec fn p_call(ts: Seq<TokenView>, p: int) -> Parsed<ExprView>
    decreases ts.len() - p, 19nat,
{
    let a = p_primary(ts, p);
    match a.value {
        None => a,
        Some(x) => {
            if !ahead(ts, p, a.pos) {
                failed(a.pos, a.reports)
            } else {
                let r = p_call_rest(ts, a.pos, x);
                Parsed { value: r.value, pos: r.pos, reports: a.reports + r.reports }
            }
        }
    }
}

/// `unary`: `!` or `-` applied to a unary expression, or a call.
pub open spec fn p_unary(ts: Seq<TokenView>, p: int) -> Parsed<ExprView>
    decreases ts.len() - p, 20nat,
{
    if (check(ts, p, TokenType::Bang) || check(ts, p, TokenType::Minus)) && ahead(ts, p, p + 1) {
        let r = p_unary(ts, p + 1);
        match r.value {
            None => r,
            Some(x) => Parsed { value: Some(ExprView::Unary(ts[p], Box::new(x))), pos: r.pos, reports: r.reports },
        }
    } else {
        p_call(ts, p)
    }
}

/// The operand of level `l`: the level below, or a unary expression below level 1.
pub open spec fn p_operand(ts: Seq<TokenView>, p: int, l: nat) -> Parsed<ExprView>
    decreases ts.len() - p, 21nat + 3 * l,
{
    if l <= 1 { p_unary(ts, p) } else { p_level(ts, p, (l - 1) as nat) }
}

/// The operators of level `l` and their operands, from `p`, after `left`.
pub open spec fn p_level_rest(ts: Seq<TokenView>, p: int, l: nat, left: ExprView) -> Parsed<ExprView>
    decreases ts.len() - p, 21nat + 3 * l,
{
    if 1 <= l <= 6 && !at_end(ts, p) && level_op(l, kind_at(ts, p)) && ahead(ts, p, p + 1) {
        let r = p_operand(ts, p + 1, l);
        match r.value {
            None => r,
            Some(right) => {
                if !ahead(ts, p, r.pos) {
                    failed(r.pos, r.reports)
                } else {
                    let rest = p_level_rest(ts, r.pos, l, join(l, left, ts[p], right));
                    Parsed { value: rest.value, pos: rest.pos, reports: r.reports + rest.reports }
                }
            }
        }
    } else {
        Parsed { value: Some(left), pos: p, reports: Seq::empty() }
    }
}

/// Level `l` (1 to 6): operands of the level below joined, from the left, by
/// the operators of level `l`.
pub open spec fn p_level(ts: Seq<TokenView>, p: int, l: nat) -> Parsed<ExprView>
    decreases ts.len() - p, 22nat + 3 * l,
{
    let a = p_operand(ts, p, l);
    match a.value {
        None => a,
        Some(x) => {
            if !ahead(ts, p, a.pos) {
                failed(a.pos, a.reports)
            } else {
                let r = p_level_rest(ts, a.pos, l, x);
                Parsed { value: r.value, pos: r.pos, reports: a.reports + r.reports }
            }
        }
    }
}

/// `assignment`: a name, `=` and an assignment; or a logical `or` expression.
pub open spec fn p_assignment(ts: Seq<TokenView>, p: int) -> Parsed<ExprView>
    decreases ts.len() - p, 45nat,
{
    let a = p_level(ts, p, 6);
    match a.value {
        None => a,
        Some(x) => {
            if check(ts, a.pos, TokenType::Equal) {
                if !(p <= a.pos && ahead(ts, a.pos, a.pos + 1)) {
                    failed(a.pos, a.reports)
                } else {
                    let equals = ts[a.pos];
                    let b = p_assignment(ts, a.pos + 1);
                    match b.value {
                        None => failed(b.pos, a.reports + b.reports),
                        Some(value) => match x {
                            ExprView::Variable(name) => Parsed {
                                value: Some(ExprView::Assign(name, Box::new(value))),
                                pos: b.pos,
                                reports: a.reports + b.reports,
                            },
                            _ => Parsed {
                                value: Some(x),
                                pos: b.pos,
                                reports: a.reports + b.reports + seq![token_report(equals, "Invalid assignment target."@)],
                            },
                        },
                    }
                }
            } else {
                a
            }
        }
    }
}

/// How tightly a binary or logical operator binds in Lox's grammar, from 1
/// for `*` and `/` (tightest) to 6 for `or` (loosest); 0 for other tokens.
pub open spec fn binding(k: TokenType) -> nat {
    match k {
        TokenType::Star | TokenType::Slash => 1,
        TokenType::Plus | TokenType::Minus => 2,
        TokenType::Greater | TokenType::GreaterEqual | TokenType::Less | TokenType::LessEqual => 3,
        TokenType::BangEqual | TokenType::EqualEqual => 4,
        TokenType::And => 5,
        TokenType::Or => 6,
        _ => 0,
    }
}

/// `e` respects precedence and left associativity within level `l`: a
/// binary (`*` to `==`) or logical (`and`, `or`) node binds no more loosely
/// than `l`, its left operand no more loosely than itself, and its right
/// operand strictly more tightly. Other nodes, parentheses among them, bound
/// what is inside them.
pub open spec fn prec_ok(e: ExprView, l: nat) -> bool
    decreases e,
{
    match e {
        ExprView::Binary(a, op, b) => {
            let m = binding(op.kind);
            &&& 1 <= m <= 4
            &&& m <= l
            &&& prec_ok(*a, m)
            &&& prec_ok(*b, (m - 1) as nat)
        }
        ExprView::Logical(a, op, b) => {
            let m = binding(op.kind);
            &&& 5 <= m <= 6
            &&& m <= l
            &&& prec_ok(*a, m)
            &&& prec_ok(*b, (m - 1) as nat)
        }
        _ => true,
    }
}

proof fn lemma_level_op_binding(l: nat, k: TokenType)
    requires
        1 <= l <= 6,
        level_op(l, k),
    ensures
        binding(k) == l,
{
}

proof fn lemma_prec_mono(e: ExprView, l: nat, m: nat)
    requires
        prec_ok(e, l),
        l <= m,
    ensures
        prec_ok(e, m),
{
}

proof fn lemma_call_rest_flat(ts: Seq<TokenView>, p: int, callee: ExprView)
    requires
        prec_ok(callee, 0),
    ensures
        p_call_rest(ts, p, callee).value matches Some(e) ==> prec_ok(e, 0),
    decreases ts.len() - p,
{
    if check(ts, p, TokenType::LeftParen) && ahead(ts, p, p + 1) {
        let f = p_finish_call(ts, p + 1, callee);
        if let Some(x) = f.value {
            assert(x is Call);
            if ahead(ts, p, f.pos) {
                lemma_call_rest_flat(ts, f.pos, x);
            }
        }
    }
}

proof fn lemma_unary_flat(ts: Seq<TokenView>, p: int)
    ensures
        p_unary(ts, p).value matches Some(e) ==> prec_ok(e, 0),
    decreases ts.len() - p,
{
    if (check(ts, p, TokenType::Bang) || check(ts, p, TokenType::Minus)) && ahead(ts, p, p + 1) {
        let r = p_unary(ts, p + 1);
        if let Some(x) = r.value {
            assert(p_unary(ts, p).value == Some(ExprView::Unary(ts[p], Box::new(x))));
        } else {
            assert(p_unary(ts, p).value is None);
        }
    } else {
        assert(p_unary(ts, p) == p_call(ts, p));
        let a = p_primary(ts, p);
        if let Some(x) = a.value {
            assert(!(x is Binary) && !(x is Logical));
            assert(prec_ok(x, 0));
            if ahead(ts, p, a.pos) {
                lemma_call_rest_flat(ts, a.pos, x);
                assert(p_call(ts, p).value == p_call_rest(ts, a.pos, x).value);
            }
        }
    }
}

proof fn lemma_operand_prec(ts: Seq<TokenView>, p: int, l: nat)
    requires
        1 <= l <= 6,
    ensures
        p_operand(ts, p, l).value matches Some(e) ==> prec_ok(e, (l - 1) as nat),
    decreases ts.len() - p, 21nat + 3 * l,
{
    if l <= 1 {
        lemma_unary_flat(ts, p);
    } else {
        lemma_level_prec(ts, p, (l - 1) as nat);
    }
}

proof fn lemma_level_rest_prec(ts: Seq<TokenView>, p: int, l: nat, left: ExprView)
    requires
        1 <= l <= 6,
        prec_ok(left, l),
    ensures
        p_level_rest(ts, p, l, left).value matches Some(e) ==> prec_ok(e, l),
    decreases ts.len() - p, 21nat + 3 * l,
{
    if 1 <= l <= 6 && !at_end(ts, p) && level_op(l, kind_at(ts, p)) && ahead(ts, p, p + 1) {
        let r = p_operand(ts, p + 1, l);
        lemma_operand_prec(ts, p + 1, l);
        if let Some(right) = r.value {
            if ahead(ts, p, r.pos) {
                lemma_level_op_binding(l, ts[p].kind);
                let j = join(l, left, ts[p], right);
                assert(prec_ok(j, l));
                lemma_level_rest_prec(ts, r.pos, l, j);
            }
        }
    }
}

proof fn lemma_level_prec(ts: Seq<TokenView>, p: int, l: nat)
    requires
        1 <= l <= 6,
    ensures
        p_level(ts, p, l).value matches Some(e) ==> prec_ok(e, l),
    decreases ts.len() - p, 22nat + 3 * l,
{
    let a = p_operand(ts, p, l);
    lemma_operand_prec(ts, p, l);
    if let Some(x) = a.value {
        if ahead(ts, p, a.pos) {
            lemma_prec_mono(x, (l - 1) as nat, l);
            lemma_level_rest_prec(ts, a.pos, l, x);
        }
    }
}

/// Every expression the parser builds respects the precedence of Lox's
/// operators: `*` `/` bind tightest, then `+` `-`, the comparisons, `==`
/// `!=`, `and`, and `or` loosest, each level associating to the left; so
/// `a or b and c` groups as `a or (b and c)` and `a - b - c` as
/// `(a - b) - c`. Comparisons and arithmetic make binary nodes, `and` and
/// `or` logical ones.
pub proof fn law_parse_respects_precedence(ts: Seq<TokenView>, p: int)
    ensures
        p_expression(ts, p).value matches Some(e) ==> prec_ok(e, 6),
        forall|l: nat, k: TokenType| 1 <= l <= 6 && level_op(l, k) ==> binding(k) == l,
{
    lemma_level_prec(ts, p, 6);
    assert forall|l: nat, k: TokenType| 1 <= l <= 6 && level_op(l, k) implies binding(k) == l by {
        lemma_level_op_binding(l, k);
    }
}

/// `expression`.
pub open spec fn p_expression(ts: Seq<TokenView>, p: int) -> Parsed<ExprView>
    decreases ts.len() - p, 46nat,
{
    p_assignment(ts, p)
}


/// An expression at `p`, as the statements see it.
#[verifier::opaque]
pub open spec fn p_expr(ts: Seq<TokenView>, p: int) -> Parsed<ExprView> {
    p_expression(ts, p)
}

/// `expression ;`.
pub open spec fn p_expression_stmt(ts: Seq<TokenView>, p: int) -> Parsed<StmtView>
    decreases ts.len() - p, 58nat,
{
    let e = p_expr(ts, p);
    match e.value {
        None => e.map_none(),
        Some(x) => {
            let c = consume(ts, e.pos, TokenType::Semicolon, "Expect ';' after value."@);
            match c.value {
                None => failed(c.pos, e.reports + c.reports),
                Some(_) => Parsed { value: Some(StmtView::Expression(x)), pos: c.pos, reports: e.reports },
            }
        }
    }
}

/// `print expression ;`, after `print`.
pub open spec fn p_print_stmt(ts: Seq<TokenView>, p: int) -> Parsed<StmtView>
    decreases ts.len() - p, 57nat,
{
    let e = p_expr(ts, p);
    match e.value {
        None => e.map_none(),
        Some(x) => {
            let c = consume(ts, e.pos, TokenType::Semicolon, "Expect ';' after value."@);
            match c.value {
                None => failed(c.pos, e.reports + c.reports),
                Some(_) => Parsed { value: Some(StmtView::Print(x)), pos: c.pos, reports: e.reports },
            }
        }
    }
}

/// `var name ( = expression )? ;`, after `var`.
pub open spec fn p_var_declaration(ts: Seq<TokenView>, p: int) -> Parsed<StmtView>
    decreases ts.len() - p, 57nat,
{
    let n = consume(ts, p, TokenType::Identifier, "Expect variable name."@);
    match n.value {
        None => n.map_none(),
        Some(name) => {
            let i = if check(ts, n.pos, TokenType::Equal) && ahead(ts, p, n.pos + 1) {
                p_expr(ts, n.pos + 1)
            } else {
                Parsed { value: Some(ExprView::LiteralExpr(LiteralView::Nil)), pos: n.pos, reports: Seq::empty() }
            };
            match i.value {
                None => i.map_none(),
                Some(init) => {
                    let c = consume(ts, i.pos, TokenType::Semicolon, "Expect ';' after variable declaration."@);
                    match c.value {
                        None => failed(c.pos, i.reports + c.reports),
                        Some(_) => Parsed { value: Some(StmtView::Var(name, init)), pos: c.pos, reports: i.reports },
                    }
                }
            }
        }
    }
}

/// `while ( expression ) statement`, after `while`.
pub open spec fn p_while_stmt(ts: Seq<TokenView>, p: int) -> Parsed<StmtView>
    decreases ts.len() - p, 57nat,
{
    let o = consume(ts, p, TokenType::LeftParen, "Expect '(' after 'while'."@);
    if o.value is None || !ahead(ts, p, o.pos) {
        o.map_none()
    } else {
        let cond = p_expr(ts, o.pos);
        match cond.value {
            None => cond.map_none(),
            Some(c) => {
                let k = consume(ts, cond.pos, TokenType::RightParen, "Expect ')' after condition."@);
                if k.value is None || !ahead(ts, p, k.pos) {
                    failed(k.pos, cond.reports + k.reports)
                } else {
                    let b = p_statement(ts, k.pos);
                    match b.value {
                        None => failed(b.pos, cond.reports + b.reports),
                        Some(body) => Parsed {
                            value: Some(StmtView::While(c, Box::new(body))),
                            pos: b.pos,
                            reports: cond.reports + b.reports,
                        },
                    }
                }
            }
        }
    }
}

/// `if ( expression ) statement ( else statement )?`, after `if`.
pub open spec fn p_if_stmt(ts: Seq<TokenView>, p: int) -> Parsed<StmtView>
    decreases ts.len() - p, 57nat,
{
    let o = consume(ts, p, TokenType::LeftParen, "Expect '(' after 'if'."@);
    if o.value is None || !ahead(ts, p, o.pos) {
        o.map_none()
    } else {
        let cond = p_expr(ts, o.pos);
        match cond.value {
            None => cond.map_none(),
            Some(c) => {
                let k = consume(ts, cond.pos, TokenType::RightParen, "Expect ')' after if condition."@);
                if k.value is None || !ahead(ts, p, k.pos) {
                    failed(k.pos, cond.reports + k.reports)
                } else {
                    let t = p_statement(ts, k.pos);
                    match t.value {
                        None => failed(t.pos, cond.reports + t.reports),
                        Some(then_branch) => {
                            if check(ts, t.pos, TokenType::Else) && ahead(ts, p, t.pos + 1) {
                                let e = p_statement(ts, t.pos + 1);
                                match e.value {
                                    None => failed(e.pos, cond.reports + t.reports + e.reports),
                                    Some(else_branch) => Parsed {
                                        value: Some(StmtView::If(c, Box::new(then_branch), Some(Box::new(else_branch)))),
                                        pos: e.pos,
                                        reports: cond.reports + t.reports + e.reports,
                                    },
                                }
                            } else {
                                Parsed {
                                    value: Some(StmtView::If(c, Box::new(then_branch), None)),
                                    pos: t.pos,
                                    reports: cond.reports + t.reports,
                                }
                            }
                        }
                    }
                }
            }
        }
    }
}

/// The initializer clause of a `for` loop at `q`: nothing (`;`), a variable
/// declaration or an expression statement.
pub open spec fn p_for_init(ts: Seq<TokenView>, q: int) -> Parsed<Option<StmtView>>
    decreases ts.len() - q, 59nat,
{
    if check(ts, q, TokenType::Semicolon) {
        Parsed { value: Some(None), pos: q + 1, reports: Seq::empty() }
    } else if check(ts, q, TokenType::Var) && ahead(ts, q, q + 1) {
        let v = p_var_declaration(ts, q + 1);
        match v.value {
            None => v.map_none(),
            Some(s) => Parsed { value: Some(Some(s)), pos: v.pos, reports: v.reports },
        }
    } else {
        let v = p_expression_stmt(ts, q);
        match v.value {
            None => v.map_none(),
            Some(s) => Parsed { value: Some(Some(s)), pos: v.pos, reports: v.reports },
        }
    }
}

/// An optional expression at `q`, absent when the token there is of kind `stop`.
pub open spec fn p_optional_expression(ts: Seq<TokenView>, q: int, stop: TokenType) -> Parsed<Option<ExprView>>
    decreases ts.len() - q, 59nat,
{
    if !check(ts, q, stop) {
        let e = p_expr(ts, q);
        match e.value {
            None => e.map_none(),
            Some(x) => Parsed { value: Some(Some(x)), pos: e.pos, reports: e.reports },
        }
    } else {
        Parsed { value: Some(None), pos: q, reports: Seq::empty() }
    }
}

/// The loop that a `for` statement stands for.
pub open spec fn desugar_for(init: Option<StmtView>, cond: Option<ExprView>, inc: Option<ExprView>, body: StmtView) -> StmtView {
    let b1 = match inc {
        Some(e) => StmtView::Block(seq![body, StmtView::Expression(e)]),
        None => body,
    };
    let c = match cond {
        Some(c) => c,
        None => ExprView::LiteralExpr(LiteralView::Bool(true)),
    };
    let b2 = StmtView::While(c, Box::new(b1));
    match init {
        Some(s) => StmtView::Block(seq![s, b2]),
        None => b2,
    }
}

/// `for ( init cond ; inc ) statement`, after `for`.
pub open spec fn p_for_stmt(ts: Seq<TokenView>, p: int) -> Parsed<StmtView>
    decreases ts.len() - p, 60nat,
{
    let o = consume(ts, p, TokenType::LeftParen, "Expect '(' after 'for'."@);
    if o.value is None || !ahead(ts, p, o.pos) {
        o.map_none()
    } else {
        let i = p_for_init(ts, o.pos);
        if i.value is None || !ahead(ts, p, i.pos) {
            i.map_none()
        } else {
            let c = p_optional_expression(ts, i.pos, TokenType::Semicolon);
            if c.value is None {
                failed(c.pos, i.reports + c.reports)
            } else {
                let s1 = consume(ts, c.pos, TokenType::Semicolon, "Expect ';' after loop condition."@);
                if s1.value is None || !ahead(ts, p, s1.pos) {
                    failed(s1.pos, i.reports + c.reports + s1.reports)
                } else {
                    let n = p_optional_expression(ts, s1.pos, TokenType::RightParen);
                    if n.value is None {
                        failed(n.pos, i.reports + c.reports + n.reports)
                    } else {
                        let s2 = consume(ts, n.pos, TokenType::RightParen, "Expect ')' after for clauses."@);
                        if s2.value is None || !ahead(ts, p, s2.pos) {
                            failed(s2.pos, i.reports + c.reports + n.reports + s2.reports)
                        } else {
                            let b = p_statement(ts, s2.pos);
                            match b.value {
                                None => failed(b.pos, i.reports + c.reports + n.reports + b.reports),
                                Some(body) => Parsed {
                                    value: Some(desugar_for(i.value->0, c.value->0, n.value->0, body)),
                                    pos: b.pos,
                                    reports: i.reports + c.reports + n.reports + b.reports,
                                },
                            }
                        }
                    }
                }
            }
        }
    }
}

/// Declarations up to `}` from `p`, after the statements `acc`, and the `}`.
pub open spec fn p_block_rest(ts: Seq<TokenView>, p: int, acc: Seq<StmtView>) -> Parsed<Seq<StmtView>>
    decreases ts.len() - p, 66nat,
{
    if !check(ts, p, TokenType::RightBrace) && !at_end(ts, p) {
        let d = p_declaration(ts, p);
        if !ahead(ts, p, d.pos) {
            failed(d.pos, d.reports)
        } else {
            let acc2 = match d.value {
                Some(s) => acc.push(s),
                None => acc,
            };
            let r = p_block_rest(ts, d.pos, acc2);
            Parsed { value: r.value, pos: r.pos, reports: d.reports + r.reports }
        }
    } else {
        let c = consume(ts, p, TokenType::RightBrace, "Expect '}' after block."@);
        match c.value {
            None => c.map_none(),
            Some(_) => Parsed { value: Some(acc), pos: c.pos, reports: Seq::empty() },
        }
    }
}

/// `{ declarations }`, after `{`.
pub open spec fn p_block(ts: Seq<TokenView>, p: int) -> Parsed<StmtView>
    decreases ts.len() - p, 68nat,
{
    let b = p_block_rest(ts, p, Seq::empty());
    match b.value {
        None => b.map_none(),
        Some(s) => Parsed { value: Some(StmtView::Block(s)), pos: b.pos, reports: b.reports },
    }
}

/// Parameter names from `q`, after the names `acc`.
pub open spec fn p_parameters(ts: Seq<TokenView>, q: int, acc: Seq<TokenView>) -> Parsed<Seq<TokenView>>
    decreases ts.len() - q,
{
    let warn: Seq<Seq<char>> = if acc.len() >= 255 {
        seq![token_report(ts[q], "Can't have more than 255 parameters."@)]
    } else {
        Seq::empty()
    };
    let c = consume(ts, q, TokenType::Identifier, "Expect parameter name."@);
    match c.value {
        None => failed(c.pos, warn + c.reports),
        Some(t) => {
            if check(ts, c.pos, TokenType::Comma) && ahead(ts, q, c.pos + 1) {
                let r = p_parameters(ts, c.pos + 1, acc.push(t));
                Parsed { value: r.value, pos: r.pos, reports: warn + r.reports }
            } else {
                Parsed { value: Some(acc.push(t)), pos: c.pos, reports: warn }
            }
        }
    }
}

/// A function of kind `kind`: name, parameters and body, after `fun`.
pub open spec fn p_function(ts: Seq<TokenView>, p: int, kind: Seq<char>) -> Parsed<StmtView>
    decreases ts.len() - p, 57nat,
{
    let n = consume(ts, p, TokenType::Identifier, "Expect "@ + kind + " name."@);
    match n.value {
        None => n.map_none(),
        Some(name) => {
            let o = consume(ts, n.pos, TokenType::LeftParen, "Expect '(' after "@ + kind + " name."@);
            if o.value is None {
                o.map_none()
            } else {
                let ps = if !check(ts, o.pos, TokenType::RightParen) {
                    p_parameters(ts, o.pos, Seq::empty())
                } else {
                    Parsed { value: Some(Seq::empty()), pos: o.pos, reports: Seq::empty() }
                };
                match ps.value {
                    None => ps.map_none(),
                    Some(params) => {
                        let c1 = consume(ts, ps.pos, TokenType::RightParen, "Expect ')' after parameters."@);
                        if c1.value is None {
                            failed(c1.pos, ps.reports + c1.reports)
                        } else {
                            let c2 = consume(ts, c1.pos, TokenType::LeftBrace, "Expect '{' before "@ + kind + " body."@);
                            if c2.value is None || !ahead(ts, p, c2.pos) {
                                failed(c2.pos, ps.reports + c2.reports)
                            } else {
                                let b = p_block_rest(ts, c2.pos, Seq::empty());
                                match b.value {
                                    None => failed(b.pos, ps.reports + b.reports),
                                    Some(body) => Parsed {
                                        value: Some(StmtView::Function(name, params, body)),
                                        pos: b.pos,
                                        reports: ps.reports + b.reports,
                                    },
                                }
                            }
                        }
                    }
                }
            }
        }
    }
}

/// `statement`.
pub open spec fn p_statement(ts: Seq<TokenView>, p: int) -> Parsed<StmtView>
    decreases ts.len() - p, 63nat,
{
    if check(ts, p, TokenType::For) {
        p_for_stmt(ts, p + 1)
    } else if check(ts, p, TokenType::If) {
        p_if_stmt(ts, p + 1)
    } else if check(ts, p, TokenType::Print) {
        p_print_stmt(ts, p + 1)
    } else if check(ts, p, TokenType::While) {
        p_while_stmt(ts, p + 1)
    } else if check(ts, p, TokenType::LeftBrace) {
        p_block(ts, p + 1)
    } else {
        p_expression_stmt(ts, p)
    }
}

/// A token kind that starts a declaration or statement, where recovery stops.
pub open spec fn starts_statement(k: TokenType) -> bool {
    k == TokenType::Class || k == TokenType::Fun || k == TokenType::Var || k == TokenType::For
        || k == TokenType::If || k == TokenType::While || k == TokenType::Print || k == TokenType::Return
}

/// Recovery: skipping tokens from `q` until after a `;` or before a statement keyword.
pub open spec fn sync_from(ts: Seq<TokenView>, q: int) -> int
    decreases ts.len() - q,
{
    if !(0 <= q < ts.len()) || at_end(ts, q) {
        q
    } else if kind_at(ts, q - 1) == TokenType::Semicolon {
        q
    } else if starts_statement(kind_at(ts, q)) {
        q
    } else {
        sync_from(ts, q + 1)
    }
}

/// Recovery after an error at `p`: the token there is skipped first.
pub open spec fn synchronized(ts: Seq<TokenView>, p: int) -> int {
    sync_from(ts, step(ts, p))
}

/// `declaration`: a function, a variable or a statement; after an error, the
/// position where recovery stops.
pub open spec fn p_declaration(ts: Seq<TokenView>, p: int) -> Parsed<StmtView>
    decreases ts.len() - p, 65nat,
{
    let r = p_declaration_body(ts, p);
    match r.value {
        Some(_) => r,
        None => failed(synchronized(ts, r.pos), r.reports),
    }
}

/// A function, a variable or a statement, before any recovery.
pub open spec fn p_declaration_body(ts: Seq<TokenView>, p: int) -> Parsed<StmtView>
    decreases ts.len() - p, 64nat,
{
    if check(ts, p, TokenType::Fun) {
        p_function(ts, p + 1, "function"@)
    } else if check(ts, p, TokenType::Var) {
        p_var_declaration(ts, p + 1)
    } else {
        p_statement(ts, p)
    }
}

/// A program: its declarations (`None` for one with a syntax error) and the reports.
pub struct Program {
    pub stmts: Seq<Option<StmtView>>,
    pub reports: Seq<Seq<char>>,
}

/// The declarations from `p` to the end of file.
pub open spec fn parse_from(ts: Seq<TokenView>, p: int) -> Program
    decreases ts.len() - p,
{
    if !(0 <= p < ts.len()) || at_end(ts, p) {
        Program { stmts: Seq::empty(), reports: Seq::empty() }
    } else {
        let d = p_declaration(ts, p);
        if !ahead(ts, p, d.pos) {
            Program { stmts: seq![d.value], reports: d.reports }
        } else {
            let r = parse_from(ts, d.pos);
            Program { stmts: seq![d.value] + r.stmts, reports: d.reports + r.reports }
        }
    }
}

/// The program parsed from the tokens `ts`.
pub open spec fn parse_program(ts: Seq<TokenView>) -> Program {
    parse_from(ts, 0)
}

// ---------------------------------------------------------------------------
// The parser.
// ---------------------------------------------------------------------------

/// A syntax error; it has been reported when this is returned.
pub struct ParseError;

/// `r` is the expression described by `v` (an error when `v` is `None`).
pub open spec fn expr_outcome(r: Result<Expr, ParseError>, v: Option<ExprView>) -> bool {
    match (r, v) {
        (Ok(e), Some(x)) => e@ == x,
        (Err(_), None) => true,
        _ => false,
    }
}

/// `r` is the statement described by `v`.
pub open spec fn stmt_outcome(r: Result<Stmt, ParseError>, v: Option<StmtView>) -> bool {
    match (r, v) {
        (Ok(s), Some(x)) => s@ == x,
        (Err(_), None) => true,
        _ => false,
    }
}

/// The session `after` holds the reports of `before` followed by `reports`.
pub open spec fn reported(before: Lox, after: Lox, reports: Seq<Seq<char>>) -> bool {
    &&& after.reports() == before.reports() + reports
    &&& after.spec_had_error() == (before.spec_had_error() || reports.len() > 0)
    &&& after.spec_had_runtime_error() == before.spec_had_runtime_error()
}

proof fn lemma_reported_trans(a: Lox, b: Lox, c: Lox, r1: Seq<Seq<char>>, r2: Seq<Seq<char>>)
    requires
        reported(a, b, r1),
        reported(b, c, r2),
    ensures
        reported(a, c, r1 + r2),
{
    assert(a.reports() + (r1 + r2) =~= a.reports() + r1 + r2);
}

proof fn lemma_reported_none(a: Lox)
    ensures
        reported(a, a, Seq::empty()),
{
    assert(a.reports() + Seq::<Seq<char>>::empty() =~= a.reports());
}

/// A parser over a list of tokens that ends with the end-of-file token.
pub struct Parser {
    tokens: Vec<Token>,
    current: usize,
}

impl Parser {
    /// The tokens, as mathematical values.
    pub closed spec fn ts(&self) -> Seq<TokenView> {
        tokens_view(self.tokens@)
    }

    /// The position of the next token.
    pub closed spec fn position(&self) -> int {
        self.current as int
    }

    /// The tokens are not empty and end with the end of file, and the position is on a token.
    pub closed spec fn wf(&self) -> bool {
        &&& self.tokens@.len() > 0
        &&& self.tokens@.len() <= usize::MAX
        &&& self.tokens@.last()@.kind == TokenType::Eof
        &&& self.current < self.tokens@.len()
    }

    /// A parser at the first of `tokens`.
    pub fn new(tokens: Vec<Token>) -> (p: Parser)
        requires
            tokens@.len() > 0,
            tokens@.last()@.kind == TokenType::Eof,
        ensures
            p.wf(),
            p.ts() == tokens_view(tokens@),
            p.position() == 0,
    {
        let _n = tokens.len();
        Parser { tokens, current: 0 }
    }

    proof fn lemma_ts(&self)
        requires
            self.wf(),
        ensures
            self.ts().len() == self.tokens@.len(),
            forall|i: int| 0 <= i < self.tokens@.len() ==> #[trigger] self.ts()[i] == self.tokens@[i]@,
            self.ts()[self.ts().len() - 1].kind == TokenType::Eof,
    {
    }

    fn peek(&self) -> (t: &Token)
        requires
            self.wf(),
        ensures
            t@ == self.ts()[self.current as int],
    {
        proof { self.lemma_ts(); }
        &self.tokens[self.current]
    }

    fn previous(&self) -> (t: &Token)
        requires
            self.wf(),
            self.current >= 1,
        ensures
            t@ == self.ts()[self.current - 1],
    {
        proof { self.lemma_ts(); }
        &self.tokens[self.current - 1]
    }

    fn is_end(&self) -> (b: bool)
        requires
            self.wf(),
        ensures
            b == at_end(self.ts(), self.current as int),
    {
        proof { self.lemma_ts(); }
        *self.peek().get_type() == TokenType::Eof
    }

    fn check(&self, tok_type: &TokenType) -> (b: bool)
        requires
            self.wf(),
        ensures
            b == check(self.ts(), self.current as int, *tok_type),
    {
        proof { self.lemma_ts(); }
        if self.is_end() {
            return false;
        }
        *self.peek().get_type() == *tok_type
    }

    fn advance(&mut self)
        requires
            old(self).wf(),
        ensures
            final(self).wf(),
            final(self).tokens == old(self).tokens,
            final(self).current == step(old(self).ts(), old(self).current as int),
    {
        proof { self.lemma_ts(); }
        if !self.is_end() {
            assert(self.current + 1 < self.tokens@.len());
            self.current = self.current + 1;
        }
    }

    /// Consumes the next token if its kind is one of `tok_types`.
    fn match_tokens(&mut self, tok_types: &Vec<TokenType>) -> (b: bool)
        requires
            old(self).wf(),
        ensures
            final(self).wf(),
            final(self).tokens == old(self).tokens,
            b == exists|i: int| 0 <= i < tok_types@.len() && check(old(self).ts(), old(self).current as int, #[trigger] tok_types@[i]),
            final(self).current == if b { old(self).current + 1 } else { old(self).current as int },
    {
        let mut i: usize = 0;
        while i < tok_types.len()
            invariant
                self.wf(),
                *self == *old(self),
                i <= tok_types.len(),
                forall|j: int| 0 <= j < i ==> !check(self.ts(), self.current as int, #[trigger] tok_types@[j]),
            decreases tok_types.len() - i,
        {
            if self.check(&tok_types[i]) {
                self.advance();
                return true;
            }
            i = i + 1;
        }
        false
    }

    fn error(&mut self, interpreter: &mut Lox, token: &Token, message: &str) -> (e: ParseError)
        ensures
            *final(self) == *old(self),
            reported(*old(interpreter), *final(interpreter), seq![token_report(token@, message@)]),
    {
        interpreter.error(token, message);
        assert(old(interpreter).reports().push(token_report(token@, message@))
            =~= old(interpreter).reports() + seq![token_report(token@, message@)]);
        ParseError
    }

    fn consume(&mut self, interpreter: &mut Lox, tok_type: TokenType, message: &str) -> (r: Result<Token, ParseError>)
        requires
            old(self).wf(),
        ensures
            final(self).wf(),
            final(self).tokens == old(self).tokens,
            r is Ok ==> *final(interpreter) == *old(interpreter),
            ({
                let c = consume(old(self).ts(), old(self).current as int, tok_type, message@);
                &&& final(self).current == c.pos
                &&& reported(*old(interpreter), *final(interpreter), c.reports)
                &&& match (r, c.value) {
                    (Ok(t), Some(u)) => t@ == u,
                    (Err(_), None) => true,
                    _ => false,
                }
            }),
    {
        proof { self.lemma_ts(); }
        if self.check(&tok_type) {
            self.advance();
            proof { lemma_reported_none(*interpreter); }
            return Ok(self.previous().copied());
        }
        let token = self.peek().copied();
        Err(self.error(interpreter, &token, message))
    }

    /// `expression`.
    fn expression(&mut self, interpreter: &mut Lox) -> (r: Result<Expr, ParseError>)
        requires
            old(self).wf(),
        ensures
            final(self).wf(),
            final(self).tokens == old(self).tokens,
            old(self).current <= final(self).current,
            r is Ok ==> old(self).current < final(self).current,
            ({
                let e = p_expression(old(self).ts(), old(self).current as int);
                &&& final(self).current == e.pos
                &&& reported(*old(interpreter), *final(interpreter), e.reports)
                &&& expr_outcome(r, e.value)
            }),
        decreases old(self).tokens@.len() - old(self).current, 46nat,
    {
        self.assignment(interpreter)
    }

    /// `assignment`.
    fn assignment(&mut self, interpreter: &mut Lox) -> (r: Result<Expr, ParseError>)
        requires
            old(self).wf(),
        ensures
            final(self).wf(),
            final(self).tokens == old(self).tokens,
            old(self).current <= final(self).current,
            r is Ok ==> old(self).current < final(self).current,
            ({
                let e = p_assignment(old(self).ts(), old(self).current as int);
                &&& final(self).current == e.pos
                &&& reported(*old(interpreter), *final(interpreter), e.reports)
                &&& expr_outcome(r, e.value)
            }),
        decreases old(self).tokens@.len() - old(self).current, 45nat,
    {
        proof { self.lemma_ts(); }
        let ghost ts = self.ts();
        let ghost p = self.current as int;
        let ghost lox0 = *interpreter;
        let ghost a = p_level(ts, p, 6);
        let exp = self.or(interpreter);
        let exp = match exp {
            Ok(e) => e,
            Err(e) => {
                return Err(e);
            }
        };
        let ghost lox1 = *interpreter;

        let types = vec![TokenType::Equal];
        if self.match_tokens(&types) {
            assert(types@[0] == TokenType::Equal);
            let equals = self.previous().copied();
            let ghost b = p_assignment(ts, a.pos + 1);
            let value = self.assignment(interpreter);
            proof { lemma_reported_trans(lox0, lox1, *interpreter, a.reports, b.reports); }
            let value = match value {
                Ok(v) => v,
                Err(e) => {
                    return Err(e);
                }
            };
            let ghost lox2 = *interpreter;
            match exp {
                Expr::Variable(name) => {
                    return Ok(Expr::Assign(name, Box::new(value)));
                }
                _ => {
                    self.error(interpreter, &equals, "Invalid assignment target.");
                    proof {
                        lemma_reported_trans(lox0, lox2, *interpreter, a.reports + b.reports,
                            seq![token_report(equals@, "Invalid assignment target."@)]);
                    }
                }
            }
        } else {
            assert(!check(ts, a.pos, TokenType::Equal));
        }

        Ok(exp)
    }

    /// `or`.
    fn or(&mut self, interpreter: &mut Lox) -> (r: Result<Expr, ParseError>)
        requires
            old(self).wf(),
        ensures
            final(self).wf(),
            final(self).tokens == old(self).tokens,
            old(self).current <= final(self).current,
            r is Ok ==> old(self).current < final(self).current,
            ({
                let e = p_level(old(self).ts(), old(self).current as int, 6);
                &&& final(self).current == e.pos
                &&& reported(*old(interpreter), *final(interpreter), e.reports)
                &&& expr_outcome(r, e.value)
            }),
        decreases old(self).tokens@.len() - old(self).current, 41nat,
    {
        self.level(interpreter, 6)
    }

    /// `and`: level 5.
    fn and(&mut self, interpreter: &mut Lox) -> (r: Result<Expr, ParseError>)
        requires
            old(self).wf(),
        ensures
            final(self).wf(),
            final(self).tokens == old(self).tokens,
            old(self).current <= final(self).current,
            r is Ok ==> old(self).current < final(self).current,
            ({
                let e = p_level(old(self).ts(), old(self).current as int, 5);
                &&& final(self).current == e.pos
                &&& reported(*old(interpreter), *final(interpreter), e.reports)
                &&& expr_outcome(r, e.value)
            }),
        decreases old(self).tokens@.len() - old(self).current, 38nat,
    {
        self.level(interpreter, 5)
    }

    /// `equality`: level 4.
    fn equality(&mut self, interpreter: &mut Lox) -> (r: Result<Expr, ParseError>)
        requires
            old(self).wf(),
        ensures
            final(self).wf(),
            final(self).tokens == old(self).tokens,
            old(self).current <= final(self).current,
            r is Ok ==> old(self).current < final(self).current,
            ({
                let e = p_level(old(self).ts(), old(self).current as int, 4);
                &&& final(self).current == e.pos
                &&& reported(*old(interpreter), *final(interpreter), e.reports)
                &&& expr_outcome(r, e.value)
            }),
        decreases old(self).tokens@.len() - old(self).current, 35nat,
    {
        self.level(interpreter, 4)
    }

    /// `comparison`: level 3.
    fn comparison(&mut self, interpreter: &mut Lox) -> (r: Result<Expr, ParseError>)
        requires
            old(self).wf(),
        ensures
            final(self).wf(),
            final(self).tokens == old(self).tokens,
            old(self).current <= final(self).current,
            r is Ok ==> old(self).current < final(self).current,
            ({
                let e = p_level(old(self).ts(), old(self).current as int, 3);
                &&& final(self).current == e.pos
                &&& reported(*old(interpreter), *final(interpreter), e.reports)
                &&& expr_outcome(r, e.value)
            }),
        decreases old(self).tokens@.len() - old(self).current, 32nat,
    {
        self.level(interpreter, 3)
    }

    /// `term`: level 2.
    fn term(&mut self, interpreter: &mut Lox) -> (r: Result<Expr, ParseError>)
        requires
            old(self).wf(),
        ensures
            final(self).wf(),
            final(self).tokens == old(self).tokens,
            old(self).current <= final(self).current,
            r is Ok ==> old(self).current < final(self).current,
            ({
                let e = p_level(old(self).ts(), old(self).current as int, 2);
                &&& final(self).current == e.pos
                &&& reported(*old(interpreter), *final(interpreter), e.reports)
                &&& expr_outcome(r, e.value)
            }),
        decreases old(self).tokens@.len() - old(self).current, 29nat,
    {
        self.level(interpreter, 2)
    }

    /// `factor`: level 1.
    fn factor(&mut self, interpreter: &mut Lox) -> (r: Result<Expr, ParseError>)
        requires
            old(self).wf(),
        ensures
            final(self).wf(),
            final(self).tokens == old(self).tokens,
            old(self).current <= final(self).current,
            r is Ok ==> old(self).current < final(self).current,
            ({
                let e = p_level(old(self).ts(), old(self).current as int, 1);
                &&& final(self).current == e.pos
                &&& reported(*old(interpreter), *final(interpreter), e.reports)
                &&& expr_outcome(r, e.value)
            }),
        decreases old(self).tokens@.len() - old(self).current, 26nat,
    {
        self.level(interpreter, 1)
    }

    /// Whether the kind `k` is an operator of level `l`.
    fn level_op(l: u8, k: &TokenType) -> (b: bool)
        ensures
            b == level_op(l as nat, *k),
    {
        if l == 1 { *k == TokenType::Slash || *k == TokenType::Star }
        else if l == 2 { *k == TokenType::Minus || *k == TokenType::Plus }
        else if l == 3 { *k == TokenType::Greater || *k == TokenType::GreaterEqual || *k == TokenType::Less || *k == TokenType::LessEqual }
        else if l == 4 { *k == TokenType::BangEqual || *k == TokenType::EqualEqual }
        else if l == 5 { *k == TokenType::And }
        else { *k == TokenType::Or }
    }

    /// The operand of level `l`.
    fn operand(&mut self, interpreter: &mut Lox, l: u8) -> (r: Result<Expr, ParseError>)
        requires
            1 <= l <= 6,
            old(self).wf(),
        ensures
            final(self).wf(),
            final(self).tokens == old(self).tokens,
            old(self).current <= final(self).current,
            r is Ok ==> old(self).current < final(self).current,
            ({
                let e = p_operand(old(self).ts(), old(self).current as int, l as nat);
                &&& final(self).current == e.pos
                &&& reported(*old(interpreter), *final(interpreter), e.reports)
                &&& expr_outcome(r, e.value)
            }),
        decreases old(self).tokens@.len() - old(self).current, 21nat + 3 * l,
    {
        if l <= 1 {
            self.unary(interpreter)
        } else if l == 2 {
            self.factor(interpreter)
        } else if l == 3 {
            self.term(interpreter)
        } else if l == 4 {
            self.comparison(interpreter)
        } else if l == 5 {
            self.equality(interpreter)
        } else {
            self.and(interpreter)
        }
    }

    /// Operands of the level below joined by the operators of level `l`.
    fn level(&mut self, interpreter: &mut Lox, l: u8) -> (r: Result<Expr, ParseError>)
        requires
            1 <= l <= 6,
            old(self).wf(),
        ensures
            final(self).wf(),
            final(self).tokens == old(self).tokens,
            old(self).current <= final(self).current,
            r is Ok ==> old(self).current < final(self).current,
            ({
                let e = p_level(old(self).ts(), old(self).current as int, l as nat);
                &&& final(self).current == e.pos
                &&& reported(*old(interpreter), *final(interpreter), e.reports)
                &&& expr_outcome(r, e.value)
            }),
        decreases old(self).tokens@.len() - old(self).current, 22nat + 3 * l,
    {
        let ghost lox0 = *interpreter;
        let ghost ts = self.ts();
        let ghost p = self.current as int;
        let exp = self.operand(interpreter, l);
        let exp = match exp {
            Ok(e) => e,
            Err(e) => { return Err(e); }
        };
        proof { self.lemma_ts(); }
        let ghost lox1 = *interpreter;
        let ghost a = p_operand(ts, p, l as nat);
        let ghost rr = p_level_rest(ts, a.pos, l as nat, exp@);
        let r = self.level_rest(interpreter, l, exp);
        proof { lemma_reported_trans(lox0, lox1, *interpreter, a.reports, rr.reports); }
        r
    }

    /// The operators of level `l` and their operands, after `left`.
    fn level_rest(&mut self, interpreter: &mut Lox, l: u8, left: Expr) -> (r: Result<Expr, ParseError>)
        requires
            1 <= l <= 6,
            old(self).wf(),
        ensures
            final(self).wf(),
            final(self).tokens == old(self).tokens,
            old(self).current <= final(self).current,
            ({
                let e = p_level_rest(old(self).ts(), old(self).current as int, l as nat, left@);
                &&& final(self).current == e.pos
                &&& reported(*old(interpreter), *final(interpreter), e.reports)
                &&& expr_outcome(r, e.value)
            }),
        decreases old(self).tokens@.len() - old(self).current, 21nat + 3 * l,
    {
        proof { self.lemma_ts(); }
        let ghost lox0 = *interpreter;
        let ghost ts = self.ts();
        let ghost p = self.current as int;
        if !self.is_end() && Self::level_op(l, self.peek().get_type()) {
            let operator = self.peek().copied();
            self.advance();
            let ghost o = p_operand(ts, p + 1, l as nat);
            let right = self.operand(interpreter, l);
            let right = match right {
                Ok(e) => e,
                Err(e) => { return Err(e); }
            };
            let ghost lox1 = *interpreter;
            let exp = if l >= 5 {
                Expr::Logical(Box::new(left), operator, Box::new(right))
            } else {
                Expr::Binary(Box::new(left), operator, Box::new(right))
            };
            let ghost rr = p_level_rest(ts, o.pos, l as nat, exp@);
            let r = self.level_rest(interpreter, l, exp);
            proof { lemma_reported_trans(lox0, lox1, *interpreter, o.reports, rr.reports); }
            r
        } else {
            proof { lemma_reported_none(*interpreter); }
            Ok(left)
        }
    }

    /// `unary`.
    fn unary(&mut self, interpreter: &mut Lox) -> (r: Result<Expr, ParseError>)
        requires
            old(self).wf(),
        ensures
            final(self).wf(),
            final(self).tokens == old(self).tokens,
            old(self).current <= final(self).current,
            r is Ok ==> old(self).current < final(self).current,
            ({
                let e = p_unary(old(self).ts(), old(self).current as int);
                &&& final(self).current == e.pos
                &&& reported(*old(interpreter), *final(interpreter), e.reports)
                &&& expr_outcome(r, e.value)
            }),
        decreases old(self).tokens@.len() - old(self).current, 20nat,
    {
        proof { self.lemma_ts(); }
        let tok_types = vec![TokenType::Bang, TokenType::Minus];
        if self.match_tokens(&tok_types) {
            let operator = self.previous().copied();
            let right = self.unary(interpreter);
            let right = match right {
                Ok(e) => e,
                Err(e) => { return Err(e); }
            };
            return Ok(Expr::Unary(operator, Box::new(right)));
        }
        assert(!check(self.ts(), self.current as int, tok_types@[0]));
        assert(!check(self.ts(), self.current as int, tok_types@[1]));
        self.call(interpreter)
    }

    /// `call`.
    fn call(&mut self, interpreter: &mut Lox) -> (r: Result<Expr, ParseError>)
        requires
            old(self).wf(),
        ensures
            final(self).wf(),
            final(self).tokens == old(self).tokens,
            old(self).current <= final(self).current,
            r is Ok ==> old(self).current < final(self).current,
            ({
                let e = p_call(old(self).ts(), old(self).current as int);
                &&& final(self).current == e.pos
                &&& reported(*old(interpreter), *final(interpreter), e.reports)
                &&& expr_outcome(r, e.value)
            }),
        decreases old(self).tokens@.len() - old(self).current, 19nat,
    {
        let ghost lox0 = *interpreter;
        let ghost ts = self.ts();
        let ghost p = self.current as int;
        let exp = self.primary(interpreter);
        let exp = match exp {
            Ok(e) => e,
            Err(e) => { return Err(e); }
        };
        let ghost lox1 = *interpreter;
        let ghost a = p_primary(ts, p);
        let ghost rr = p_call_rest(ts, a.pos, exp@);
        let r = self.call_rest(interpreter, exp);
        proof { lemma_reported_trans(lox0, lox1, *interpreter, a.reports, rr.reports); }
        r
    }

    /// Calls applied to `callee`.
    fn call_rest(&mut self, interpreter: &mut Lox, callee: Expr) -> (r: Result<Expr, ParseError>)
        requires
            old(self).wf(),
        ensures
            final(self).wf(),
            final(self).tokens == old(self).tokens,
            old(self).current <= final(self).current,
            ({
                let e = p_call_rest(old(self).ts(), old(self).current as int, callee@);
                &&& final(self).current == e.pos
                &&& reported(*old(interpreter), *final(interpreter), e.reports)
                &&& expr_outcome(r, e.value)
            }),
        decreases old(self).tokens@.len() - old(self).current, 17nat,
    {
        proof { self.lemma_ts(); }
        let ghost lox0 = *interpreter;
        let ghost ts = self.ts();
        let ghost p = self.current as int;
        let types = vec![TokenType::LeftParen];
        if self.match_tokens(&types) {
            assert(types@[0] == TokenType::LeftParen);
            let ghost f = p_finish_call(ts, p + 1, callee@);
            let exp = self.finish_call(interpreter, callee);
            let exp = match exp {
                Ok(e) => e,
                Err(e) => { return Err(e); }
            };
            let ghost lox1 = *interpreter;
            let ghost rr = p_call_rest(ts, f.pos, exp@);
            let r = self.call_rest(interpreter, exp);
            proof { lemma_reported_trans(lox0, lox1, *interpreter, f.reports, rr.reports); }
            r
        } else {
            assert(!check(ts, p, types@[0]));
            proof { lemma_reported_none(*interpreter); }
            Ok(callee)
        }
    }

    /// The rest of a call after its `(`.
    fn finish_call(&mut self, interpreter: &mut Lox, callee: Expr) -> (r: Result<Expr, ParseError>)
        requires
            old(self).wf(),
        ensures
            final(self).wf(),
            final(self).tokens == old(self).tokens,
            old(self).current <= final(self).current,
            r is Ok ==> old(self).current < final(self).current,
            ({
                let e = p_finish_call(old(self).ts(), old(self).current as int, callee@);
                &&& final(self).current == e.pos
                &&& reported(*old(interpreter), *final(interpreter), e.reports)
                &&& expr_outcome(r, e.value)
            }),
        decreases old(self).tokens@.len() - old(self).current, 48nat,
    {
        proof { self.lemma_ts(); }
        let ghost lox0 = *interpreter;
        let ghost ts = self.ts();
        let ghost p = self.current as int;
        let ghost a = if !check(ts, p, TokenType::RightParen) {
            p_arguments(ts, p, Seq::empty())
        } else {
            Parsed { value: Some(Seq::<ExprView>::empty()), pos: p, reports: Seq::<Seq<char>>::empty() }
        };
        let arguments = if !self.check(&TokenType::RightParen) {
            let empty: Vec<Expr> = Vec::new();
            assert(exprs_view(empty@) =~= Seq::<ExprView>::empty());
            let r = self.arguments(interpreter, empty);
            match r {
                Ok(v) => v,
                Err(e) => { return Err(e); }
            }
        } else {
            proof { lemma_reported_none(*interpreter); }
            let v: Vec<Expr> = Vec::new();
            assert(exprs_view(v@) =~= Seq::<ExprView>::empty());
            v
        };
        let ghost lox1 = *interpreter;
        let ghost c = consume(ts, a.pos, TokenType::RightParen, "Expect ')' after arguments."@);
        let paren = self.consume(interpreter, TokenType::RightParen, "Expect ')' after arguments.");
        proof { lemma_reported_trans(lox0, lox1, *interpreter, a.reports, c.reports); }
        let paren = match paren {
            Ok(t) => t,
            Err(e) => { return Err(e); }
        };
        assert(a.reports + c.reports =~= a.reports);
        Ok(Expr::Call(Box::new(callee), paren, arguments))
    }

    /// The arguments of a call, after those in `acc`.
    fn arguments(&mut self, interpreter: &mut Lox, acc: Vec<Expr>) -> (r: Result<Vec<Expr>, ParseError>)
        requires
            old(self).wf(),
        ensures
            final(self).wf(),
            final(self).tokens == old(self).tokens,
            old(self).current <= final(self).current,
            ({
                let e = p_arguments(old(self).ts(), old(self).current as int, exprs_view(acc@));
                &&& final(self).current == e.pos
                &&& reported(*old(interpreter), *final(interpreter), e.reports)
                &&& match (r, e.value) {
                    (Ok(v), Some(x)) => exprs_view(v@) == x,
                    (Err(_), None) => true,
                    _ => false,
                }
            }),
        decreases old(self).tokens@.len() - old(self).current, 47nat,
    {
        proof { self.lemma_ts(); }
        let ghost lox0 = *interpreter;
        let ghost ts = self.ts();
        let ghost p = self.current as int;
        let ghost warn: Seq<Seq<char>> = if acc@.len() >= 255 {
            seq![token_report(ts[p], "Can't have more than 255 arguments."@)]
        } else {
            Seq::empty()
        };
        let mut acc = acc;
        let ghost acc0 = acc@;
        proof { lemma_exprs_view_len(acc0); }
        if acc.len() >= 255 {
            let tok = self.peek().copied();
            self.error(interpreter, &tok, "Can't have more than 255 arguments.");
        } else {
            proof { lemma_reported_none(*interpreter); }
        }
        let ghost lox1 = *interpreter;
        let ghost e = p_expression(ts, p);
        let exp = self.expression(interpreter);
        proof { lemma_reported_trans(lox0, lox1, *interpreter, warn, e.reports); }
        let exp = match exp {
            Ok(x) => x,
            Err(err) => { return Err(err); }
        };
        let ghost lox2 = *interpreter;
        acc.push(exp);
        proof {
            assert(acc@.drop_last() =~= acc0);
            assert(exprs_view(acc@) == exprs_view(acc0).push(exp@));
        }
        let types = vec![TokenType::Comma];
        if self.match_tokens(&types) {
            assert(types@[0] == TokenType::Comma);
            let ghost rr = p_arguments(ts, e.pos + 1, exprs_view(acc@));
            let r = self.arguments(interpreter, acc);
            proof { lemma_reported_trans(lox0, lox2, *interpreter, warn + e.reports, rr.reports); }
            r
        } else {
            assert(!check(ts, e.pos, types@[0]));
            Ok(acc)
        }
    }

    /// `primary`.
    fn primary(&mut self, interpreter: &mut Lox) -> (r: Result<Expr, ParseError>)
        requires
            old(self).wf(),
        ensures
            final(self).wf(),
            final(self).tokens == old(self).tokens,
            old(self).current <= final(self).current,
            r is Ok ==> old(self).current < final(self).current,
            ({
                let e = p_primary(old(self).ts(), old(self).current as int);
                &&& final(self).current == e.pos
                &&& reported(*old(interpreter), *final(interpreter), e.reports)
                &&& expr_outcome(r, e.value)
            }),
        decreases old(self).tokens@.len() - old(self).current, 18nat,
    {
        proof { self.lemma_ts(); }
        let ghost ts = self.ts();
        let ghost p = self.current as int;
        let ghost lox0 = *interpreter;
        proof { lemma_reported_none(*interpreter); }
        let t_false = vec![TokenType::False];
        if self.match_tokens(&t_false) {
            assert(t_false@[0] == TokenType::False);
            return Ok(Expr::LiteralExpr(Literal::Bool(false)));
        }
        assert(!check(ts, p, t_false@[0]));
        let t_true = vec![TokenType::True];
        if self.match_tokens(&t_true) {
            assert(t_true@[0] == TokenType::True);
            return Ok(Expr::LiteralExpr(Literal::Bool(true)));
        }
        assert(!check(ts, p, t_true@[0]));
        let t_nil = vec![TokenType::Nil];
        if self.match_tokens(&t_nil) {
            assert(t_nil@[0] == TokenType::Nil);
            return Ok(Expr::LiteralExpr(Literal::Nil));
        }
        assert(!check(ts, p, t_nil@[0]));

        let tok_types = vec![TokenType::Number, TokenType::String];
        if self.match_tokens(&tok_types) {
            assert(tok_types@[0] == TokenType::Number && tok_types@[1] == TokenType::String);
            let exp = match self.previous().get_literal() {
                Literal::Number(n) => Expr::LiteralExpr(Literal::Number(n.copied())),
                Literal::String(s) => Expr::LiteralExpr(Literal::String(crate::text::copy_string(s))),
                _ => {
                    let tok = self.previous().copied();
                    return Err(self.error(interpreter, &tok, "Expected Number or String."));
                }
            };
            return Ok(exp);
        }
        assert(!check(ts, p, tok_types@[0]) && !check(ts, p, tok_types@[1]));

        let t_ident = vec![TokenType::Identifier];
        if self.match_tokens(&t_ident) {
            assert(t_ident@[0] == TokenType::Identifier);
            return Ok(Expr::Variable(self.previous().copied()));
        }
        assert(!check(ts, p, t_ident@[0]));

        let t_paren = vec![TokenType::LeftParen];
        if self.match_tokens(&t_paren) {
            assert(t_paren@[0] == TokenType::LeftParen);
            let ghost e = p_expression(ts, p + 1);
            let exp = self.expression(interpreter);
            let exp = match exp {
                Ok(x) => x,
                Err(err) => { return Err(err); }
            };
            let ghost lox1 = *interpreter;
            let ghost c = consume(ts, e.pos, TokenType::RightParen, "Expect ')' after expression!"@);
            let close = self.consume(interpreter, TokenType::RightParen, "Expect ')' after expression!");
            proof { lemma_reported_trans(lox0, lox1, *interpreter, e.reports, c.reports); }
            match close {
                Ok(_) => (),
                Err(err) => { return Err(err); }
            };
            assert(e.reports + c.reports =~= e.reports);
            return Ok(Expr::Grouping(Box::new(exp)));
        }
        assert(!check(ts, p, t_paren@[0]));

        let token = self.peek().copied();
        Err(self.error(interpreter, &token, "Expect expression."))
    }

    /// `expression`, as the statements see it.
    fn expr(&mut self, interpreter: &mut Lox) -> (r: Result<Expr, ParseError>)
        requires
            old(self).wf(),
        ensures
            final(self).wf(),
            final(self).tokens == old(self).tokens,
            old(self).current <= final(self).current,
            r is Ok ==> old(self).current < final(self).current,
            ({
                let e = p_expr(old(self).ts(), old(self).current as int);
                &&& final(self).current == e.pos
                &&& reported(*old(interpreter), *final(interpreter), e.reports)
                &&& expr_outcome(r, e.value)
            }),
    {
        proof { reveal(p_expr); }
        self.expression(interpreter)
    }

    /// `expression ;`.
    fn expression_stmt(&mut self, interpreter: &mut Lox) -> (r: Result<Stmt, ParseError>)
        requires
            old(self).wf(),
        ensures
            final(self).wf(),
            final(self).tokens == old(self).tokens,
            old(self).current <= final(self).current,
            r is Ok ==> old(self).current < final(self).current,
            ({
                let e = p_expression_stmt(old(self).ts(), old(self).current as int);
                &&& final(self).current == e.pos
                &&& reported(*old(interpreter), *final(interpreter), e.reports)
                &&& stmt_outcome(r, e.value)
            }),
        decreases old(self).tokens@.len() - old(self).current, 58nat,
    {
        let ghost lox0 = *interpreter;
        let ghost ts = self.ts();
        let ghost e = p_expr(ts, self.current as int);
        let exp = self.expr(interpreter);
        let exp = match exp {
            Ok(x) => x,
            Err(err) => { return Err(err); }
        };
        let ghost lox1 = *interpreter;
        let ghost c = consume(ts, e.pos, TokenType::Semicolon, "Expect ';' after value."@);
        let semi = self.consume(interpreter, TokenType::Semicolon, "Expect ';' after value.");
        proof { lemma_reported_trans(lox0, lox1, *interpreter, e.reports, c.reports); }
        match semi {
            Ok(_) => (),
            Err(err) => { return Err(err); }
        };
        assert(e.reports + c.reports =~= e.reports);
        Ok(Stmt::Expression(exp))
    }

    /// `print expression ;`, after `print`.
    fn print_stmt(&mut self, interpreter: &mut Lox) -> (r: Result<Stmt, ParseError>)
        requires
            old(self).wf(),
        ensures
            final(self).wf(),
            final(self).tokens == old(self).tokens,
            old(self).current <= final(self).current,
            r is Ok ==> old(self).current < final(self).current,
            ({
                let e = p_print_stmt(old(self).ts(), old(self).current as int);
                &&& final(self).current == e.pos
                &&& reported(*old(interpreter), *final(interpreter), e.reports)
                &&& stmt_outcome(r, e.value)
            }),
        decreases old(self).tokens@.len() - old(self).current, 57nat,
    {
        let ghost lox0 = *interpreter;
        let ghost ts = self.ts();
        let ghost e = p_expr(ts, self.current as int);
        let value = self.expr(interpreter);
        let value = match value {
            Ok(x) => x,
            Err(err) => { return Err(err); }
        };
        let ghost lox1 = *interpreter;
        let ghost c = consume(ts, e.pos, TokenType::Semicolon, "Expect ';' after value."@);
        let semi = self.consume(interpreter, TokenType::Semicolon, "Expect ';' after value.");
        proof { lemma_reported_trans(lox0, lox1, *interpreter, e.reports, c.reports); }
        match semi {
            Ok(_) => (),
            Err(err) => { return Err(err); }
        };
        assert(e.reports + c.reports =~= e.reports);
        Ok(Stmt::Print(value))
    }

    /// `var name ( = expression )? ;`, after `var`.
    fn var_declaration(&mut self, interpreter: &mut Lox) -> (r: Result<Stmt, ParseError>)
        requires
            old(self).wf(),
        ensures
            final(self).wf(),
            final(self).tokens == old(self).tokens,
            old(self).current <= final(self).current,
            r is Ok ==> old(self).current < final(self).current,
            ({
                let e = p_var_declaration(old(self).ts(), old(self).current as int);
                &&& final(self).current == e.pos
                &&& reported(*old(interpreter), *final(interpreter), e.reports)
                &&& stmt_outcome(r, e.value)
            }),
        decreases old(self).tokens@.len() - old(self).current, 57nat,
    {
        proof { self.lemma_ts(); }
        let ghost lox0 = *interpreter;
        let ghost ts = self.ts();
        let ghost p = self.current as int;
        let name = self.consume(interpreter, TokenType::Identifier, "Expect variable name.");
        let name = match name {
            Ok(t) => t,
            Err(err) => { return Err(err); }
        };
        proof { lemma_reported_none(*interpreter); }
        let ghost lox1 = *interpreter;
        let ghost q = self.current as int;
        let ghost i = if check(ts, q, TokenType::Equal) && ahead(ts, p, q + 1) {
            p_expr(ts, q + 1)
        } else {
            Parsed { value: Some(ExprView::LiteralExpr(LiteralView::Nil)), pos: q, reports: Seq::<Seq<char>>::empty() }
        };
        let mut initializer = Expr::LiteralExpr(Literal::Nil);
        let types = vec![TokenType::Equal];
        if self.match_tokens(&types) {
            assert(types@[0] == TokenType::Equal);
            let e = self.expr(interpreter);
            initializer = match e {
                Ok(x) => x,
                Err(err) => { return Err(err); }
            };
        } else {
            assert(!check(ts, q, types@[0]));
            proof { lemma_reported_none(*interpreter); }
        }
        let ghost lox2 = *interpreter;
        let ghost c = consume(ts, i.pos, TokenType::Semicolon, "Expect ';' after variable declaration."@);
        let semi = self.consume(interpreter, TokenType::Semicolon, "Expect ';' after variable declaration.");
        proof { lemma_reported_trans(lox1, lox2, *interpreter, i.reports, c.reports); }
        match semi {
            Ok(_) => (),
            Err(err) => { return Err(err); }
        };
        assert(i.reports + c.reports =~= i.reports);
        Ok(Stmt::Var(name, initializer))
    }

    /// `while ( expression ) statement`, after `while`.
    #[verifier::rlimit(100)]
    fn while_stmt(&mut self, interpreter: &mut Lox) -> (r: Result<Stmt, ParseError>)
        requires
            old(self).wf(),
        ensures
            final(self).wf(),
            final(self).tokens == old(self).tokens,
            old(self).current <= final(self).current,
            r is Ok ==> old(self).current < final(self).current,
            ({
                let e = p_while_stmt(old(self).ts(), old(self).current as int);
                &&& final(self).current == e.pos
                &&& reported(*old(interpreter), *final(interpreter), e.reports)
                &&& stmt_outcome(r, e.value)
            }),
        decreases old(self).tokens@.len() - old(self).current, 57nat,
    {
        let ghost ts = old(self).ts();
        let ghost p = old(self).current as int;
        let ghost spec = p_while_stmt(ts, p);
        let ghost o = consume(ts, p, TokenType::LeftParen, "Expect '(' after 'while'."@);
        proof { self.lemma_ts(); }
        let open = self.consume(interpreter, TokenType::LeftParen, "Expect '(' after 'while'.");
        match open {
            Ok(_) => (),
            Err(err) => {
                assert(spec == o.map_none::<StmtView>());
                return Err(err);
            }
        };
        proof { lemma_reported_none(*interpreter); }
        let ghost lox1 = *interpreter;
        let ghost cond = p_expr(ts, o.pos);
        let condition = self.expr(interpreter);
        let condition = match condition {
            Ok(x) => x,
            Err(err) => {
                assert(spec == cond.map_none::<StmtView>());
                return Err(err);
            }
        };
        let ghost lox2 = *interpreter;
        let ghost k = consume(ts, cond.pos, TokenType::RightParen, "Expect ')' after condition."@);
        let close = self.consume(interpreter, TokenType::RightParen, "Expect ')' after condition.");
        proof { lemma_reported_trans(lox1, lox2, *interpreter, cond.reports, k.reports); }
        match close {
            Ok(_) => (),
            Err(err) => {
                assert(spec == failed::<StmtView>(k.pos, cond.reports + k.reports));
                return Err(err);
            }
        };
        assert(cond.reports + k.reports =~= cond.reports);
        assert(ahead(ts, p, k.pos));
        let ghost lox3 = *interpreter;
        let ghost b = p_statement(ts, k.pos);
        let body = self.statement(interpreter);
        proof { lemma_reported_trans(lox1, lox3, *interpreter, cond.reports, b.reports); }
        let body = match body {
            Ok(x) => x,
            Err(err) => {
                assert(spec == failed::<StmtView>(b.pos, cond.reports + b.reports));
                return Err(err);
            }
        };
        assert(spec == (Parsed {
            value: Some(StmtView::While(condition@, Box::new(body@))),
            pos: b.pos,
            reports: cond.reports + b.reports,
        }));
        Ok(Stmt::While(condition, Box::new(body)))
    }

    /// `if ( expression ) statement ( else statement )?`, after `if`.
    #[verifier::rlimit(100)]
    fn if_stmt(&mut self, interpreter: &mut Lox) -> (r: Result<Stmt, ParseError>)
        requires
            old(self).wf(),
        ensures
            final(self).wf(),
            final(self).tokens == old(self).tokens,
            old(self).current <= final(self).current,
            r is Ok ==> old(self).current < final(self).current,
            ({
                let e = p_if_stmt(old(self).ts(), old(self).current as int);
                &&& final(self).current == e.pos
                &&& reported(*old(interpreter), *final(interpreter), e.reports)
                &&& stmt_outcome(r, e.value)
            }),
        decreases old(self).tokens@.len() - old(self).current, 57nat,
    {
        proof { self.lemma_ts(); }
        let ghost ts = self.ts();
        let ghost p = self.current as int;
        let open = self.consume(interpreter, TokenType::LeftParen, "Expect '(' after 'if'.");
        match open {
            Ok(_) => (),
            Err(err) => { return Err(err); }
        };
        proof { lemma_reported_none(*interpreter); }
        let ghost lox1 = *interpreter;
        let ghost cond = p_expr(ts, self.current as int);
        let condition = self.expr(interpreter);
        let condition = match condition {
            Ok(x) => x,
            Err(err) => { return Err(err); }
        };
        let ghost lox2 = *interpreter;
        let ghost k = consume(ts, cond.pos, TokenType::RightParen, "Expect ')' after if condition."@);
        let close = self.consume(interpreter, TokenType::RightParen, "Expect ')' after if condition.");
        proof { lemma_reported_trans(lox1, lox2, *interpreter, cond.reports, k.reports); }
        match close {
            Ok(_) => (),
            Err(err) => { return Err(err); }
        };
        assert(cond.reports + k.reports =~= cond.reports);
        let ghost lox2b = *interpreter;
        let ghost t = p_statement(ts, k.pos);
        let then_branch = self.statement(interpreter);
        proof { lemma_reported_trans(lox1, lox2b, *interpreter, cond.reports, t.reports); }
        let then_branch = match then_branch {
            Ok(x) => x,
            Err(err) => { return Err(err); }
        };
        let ghost lox3 = *interpreter;
        let types = vec![TokenType::Else];
        let else_branch = if self.match_tokens(&types) {
            assert(types@[0] == TokenType::Else);
            let ghost e = p_statement(ts, t.pos + 1);
            let b = self.statement(interpreter);
            proof { lemma_reported_trans(lox1, lox3, *interpreter, cond.reports + t.reports, e.reports); }
            match b {
                Ok(x) => Some(Box::new(x)),
                Err(err) => { return Err(err); }
            }
        } else {
            assert(!check(ts, t.pos, types@[0]));
            None
        };
        Ok(Stmt::If(condition, Box::new(then_branch), else_branch))
    }

    /// The initializer clause of a `for` loop.
    fn for_init(&mut self, interpreter: &mut Lox) -> (r: Result<Option<Stmt>, ParseError>)
        requires
            old(self).wf(),
        ensures
            final(self).wf(),
            final(self).tokens == old(self).tokens,
            old(self).current <= final(self).current,
            r is Ok ==> old(self).current < final(self).current,
            ({
                let e = p_for_init(old(self).ts(), old(self).current as int);
                &&& final(self).current == e.pos
                &&& reported(*old(interpreter), *final(interpreter), e.reports)
                &&& match (r, e.value) {
                    (Ok(Some(s)), Some(Some(v))) => s@ == v,
                    (Ok(None), Some(None)) => true,
                    (Err(_), None) => true,
                    _ => false,
                }
            }),
        decreases old(self).tokens@.len() - old(self).current, 59nat,
    {
        let t_semi = vec![TokenType::Semicolon];
        if self.match_tokens(&t_semi) {
            assert(t_semi@[0] == TokenType::Semicolon);
            proof { lemma_reported_none(*interpreter); }
            return Ok(None);
        }
        assert(!check(old(self).ts(), old(self).current as int, t_semi@[0]));
        let t_var = vec![TokenType::Var];
        if self.match_tokens(&t_var) {
            assert(t_var@[0] == TokenType::Var);
            return match self.var_declaration(interpreter) {
                Ok(s) => Ok(Some(s)),
                Err(err) => Err(err),
            };
        }
        assert(!check(old(self).ts(), old(self).current as int, t_var@[0]));
        match self.expression_stmt(interpreter) {
            Ok(s) => Ok(Some(s)),
            Err(err) => Err(err),
        }
    }

    /// An optional expression, absent when the next token is of kind `stop`.
    fn optional_expression(&mut self, interpreter: &mut Lox, stop: TokenType) -> (r: Result<Option<Expr>, ParseError>)
        requires
            old(self).wf(),
        ensures
            final(self).wf(),
            final(self).tokens == old(self).tokens,
            old(self).current <= final(self).current,
            ({
                let e = p_optional_expression(old(self).ts(), old(self).current as int, stop);
                &&& final(self).current == e.pos
                &&& reported(*old(interpreter), *final(interpreter), e.reports)
                &&& match (r, e.value) {
                    (Ok(Some(s)), Some(Some(v))) => s@ == v,
                    (Ok(None), Some(None)) => true,
                    (Err(_), None) => true,
                    _ => false,
                }
            }),
        decreases old(self).tokens@.len() - old(self).current, 59nat,
    {
        if !self.check(&stop) {
            match self.expr(interpreter) {
                Ok(e) => Ok(Some(e)),
                Err(err) => Err(err),
            }
        } else {
            proof { lemma_reported_none(*interpreter); }
            Ok(None)
        }
    }

    /// `for ( init cond ; inc ) statement`, after `for`, as the loop it stands for.
    #[verifier::rlimit(100)]
    fn for_stmt(&mut self, interpreter: &mut Lox) -> (r: Result<Stmt, ParseError>)
        requires
            old(self).wf(),
        ensures
            final(self).wf(),
            final(self).tokens == old(self).tokens,
            old(self).current <= final(self).current,
            r is Ok ==> old(self).current < final(self).current,
            ({
                let e = p_for_stmt(old(self).ts(), old(self).current as int);
                &&& final(self).current == e.pos
                &&& reported(*old(interpreter), *final(interpreter), e.reports)
                &&& stmt_outcome(r, e.value)
            }),
        decreases old(self).tokens@.len() - old(self).current, 60nat,
    {
        proof { self.lemma_ts(); }
        let ghost ts = self.ts();
        let ghost p = self.current as int;
        let open = self.consume(interpreter, TokenType::LeftParen, "Expect '(' after 'for'.");
        match open {
            Ok(_) => (),
            Err(err) => { return Err(err); }
        };
        proof { lemma_reported_none(*interpreter); }
        let ghost lox1 = *interpreter;

        let ghost i = p_for_init(ts, self.current as int);
        let initializer = self.for_init(interpreter);
        let initializer = match initializer {
            Ok(x) => x,
            Err(err) => { return Err(err); }
        };
        let ghost lox2 = *interpreter;

        let ghost c = p_optional_expression(ts, i.pos, TokenType::Semicolon);
        let condition = self.optional_expression(interpreter, TokenType::Semicolon);
        proof { lemma_reported_trans(lox1, lox2, *interpreter, i.reports, c.reports); }
        let condition = match condition {
            Ok(x) => x,
            Err(err) => { return Err(err); }
        };
        let ghost lox3 = *interpreter;
        let ghost s1 = consume(ts, c.pos, TokenType::Semicolon, "Expect ';' after loop condition."@);
        let semi = self.consume(interpreter, TokenType::Semicolon, "Expect ';' after loop condition.");
        proof { lemma_reported_trans(lox1, lox3, *interpreter, i.reports + c.reports, s1.reports); }
        match semi {
            Ok(_) => (),
            Err(err) => { return Err(err); }
        };
        assert(i.reports + c.reports + s1.reports =~= i.reports + c.reports);
        let ghost lox4 = *interpreter;

        let ghost n = p_optional_expression(ts, s1.pos, TokenType::RightParen);
        let increment = self.optional_expression(interpreter, TokenType::RightParen);
        proof { lemma_reported_trans(lox1, lox4, *interpreter, i.reports + c.reports, n.reports); }
        let increment = match increment {
            Ok(x) => x,
            Err(err) => { return Err(err); }
        };
        let ghost lox5 = *interpreter;
        let ghost s2 = consume(ts, n.pos, TokenType::RightParen, "Expect ')' after for clauses."@);
        let close = self.consume(interpreter, TokenType::RightParen, "Expect ')' after for clauses.");
        proof { lemma_reported_trans(lox1, lox5, *interpreter, i.reports + c.reports + n.reports, s2.reports); }
        match close {
            Ok(_) => (),
            Err(err) => { return Err(err); }
        };
        assert(i.reports + c.reports + n.reports + s2.reports =~= i.reports + c.reports + n.reports);
        let ghost lox6 = *interpreter;

        let ghost b = p_statement(ts, s2.pos);
        let body = self.statement(interpreter);
        proof { lemma_reported_trans(lox1, lox6, *interpreter, i.reports + c.reports + n.reports, b.reports); }
        let mut body = match body {
            Ok(x) => x,
            Err(err) => { return Err(err); }
        };
        let ghost body_view = body@;
        let ghost iv = i.value->0;
        let ghost cv = c.value->0;
        let ghost nv = n.value->0;

        if let Some(exp) = increment {
            let v = vec![body, Stmt::Expression(exp)];
            proof { lemma_stmts_view_pair(v@); }
            body = Stmt::Block(v);
        }
        assert(body@ == match nv {
            Some(e) => StmtView::Block(seq![body_view, StmtView::Expression(e)]),
            None => body_view,
        });
        let ghost b1 = body@;

        body = match condition {
            Some(cond) => Stmt::While(cond, Box::new(body)),
            None => {
                let cond = Expr::LiteralExpr(Literal::Bool(true));
                Stmt::While(cond, Box::new(body))
            }
        };
        assert(body@ == StmtView::While(match cv {
            Some(x) => x,
            None => ExprView::LiteralExpr(LiteralView::Bool(true)),
        }, Box::new(b1)));
        let ghost b2 = body@;

        if let Some(init_stmt) = initializer {
            let v = vec![init_stmt, body];
            proof { lemma_stmts_view_pair(v@); }
            body = Stmt::Block(v);
        }
        assert(body@ == match iv {
            Some(s) => StmtView::Block(seq![s, b2]),
            None => b2,
        });
        assert(body@ == desugar_for(iv, cv, nv, body_view));
        Ok(body)
    }

    /// `{ declarations }`, after `{`.
    #[verifier::rlimit(100)]
    fn block(&mut self, interpreter: &mut Lox) -> (r: Result<Stmt, ParseError>)
        requires
            old(self).wf(),
        ensures
            final(self).wf(),
            final(self).tokens == old(self).tokens,
            old(self).current <= final(self).current,
            r is Ok ==> old(self).current < final(self).current,
            ({
                let e = p_block(old(self).ts(), old(self).current as int);
                &&& final(self).current == e.pos
                &&& reported(*old(interpreter), *final(interpreter), e.reports)
                &&& stmt_outcome(r, e.value)
            }),
        decreases old(self).tokens@.len() - old(self).current, 68nat,
    {
        let statements = self.block_statements(interpreter);
        let statements = match statements {
            Ok(x) => x,
            Err(err) => { return Err(err); }
        };
        Ok(Stmt::Block(statements))
    }

    /// Declarations up to `}`, and the `}`.
    fn block_statements(&mut self, interpreter: &mut Lox) -> (r: Result<Vec<Stmt>, ParseError>)
        requires
            old(self).wf(),
        ensures
            final(self).wf(),
            final(self).tokens == old(self).tokens,
            old(self).current <= final(self).current,
            r is Ok ==> old(self).current < final(self).current,
            ({
                let e = p_block_rest(old(self).ts(), old(self).current as int, Seq::empty());
                &&& final(self).current == e.pos
                &&& reported(*old(interpreter), *final(interpreter), e.reports)
                &&& match (r, e.value) {
                    (Ok(v), Some(x)) => stmts_view(v@) == x,
                    (Err(_), None) => true,
                    _ => false,
                }
            }),
        decreases old(self).tokens@.len() - old(self).current, 67nat,
    {
        let statements: Vec<Stmt> = Vec::new();
        assert(stmts_view(statements@) =~= Seq::<StmtView>::empty());
        self.block_rest(interpreter, statements)
    }

    /// Declarations up to `}` after those in `statements`, and the `}`.
    #[verifier::rlimit(100)]
    fn block_rest(&mut self, interpreter: &mut Lox, statements: Vec<Stmt>) -> (r: Result<Vec<Stmt>, ParseError>)
        requires
            old(self).wf(),
        ensures
            final(self).wf(),
            final(self).tokens == old(self).tokens,
            old(self).current <= final(self).current,
            r is Ok ==> old(self).current < final(self).current,
            ({
                let e = p_block_rest(old(self).ts(), old(self).current as int, stmts_view(statements@));
                &&& final(self).current == e.pos
                &&& reported(*old(interpreter), *final(interpreter), e.reports)
                &&& match (r, e.value) {
                    (Ok(v), Some(x)) => stmts_view(v@) == x,
                    (Err(_), None) => true,
                    _ => false,
                }
            }),
        decreases old(self).tokens@.len() - old(self).current, 66nat,
    {
        proof { self.lemma_ts(); }
        let ghost ts = self.ts();
        let ghost p = self.current as int;
        let ghost lox0 = *interpreter;
        let mut statements = statements;
        if !self.check(&TokenType::RightBrace) && !self.is_end() {
            let ghost d = p_declaration(ts, p);
            let dec = self.declaration(interpreter);
            let ghost lox1 = *interpreter;
            let ghost before = statements@;
            if let Some(dec) = dec {
                statements.push(dec);
                proof { assert(statements@.drop_last() =~= before); }
            }
            let ghost rr = p_block_rest(ts, d.pos, stmts_view(statements@));
            let r = self.block_rest(interpreter, statements);
            proof { lemma_reported_trans(lox0, lox1, *interpreter, d.reports, rr.reports); }
            r
        } else {
            let close = self.consume(interpreter, TokenType::RightBrace, "Expect '}' after block.");
            match close {
                Ok(_) => (),
                Err(err) => { return Err(err); }
            };
            proof { lemma_reported_none(*interpreter); }
            Ok(statements)
        }
    }

    /// `statement`.
    #[verifier::rlimit(100)]
    fn statement(&mut self, interpreter: &mut Lox) -> (r: Result<Stmt, ParseError>)
        requires
            old(self).wf(),
        ensures
            final(self).wf(),
            final(self).tokens == old(self).tokens,
            old(self).current <= final(self).current,
            r is Ok ==> old(self).current < final(self).current,
            ({
                let e = p_statement(old(self).ts(), old(self).current as int);
                &&& final(self).current == e.pos
                &&& reported(*old(interpreter), *final(interpreter), e.reports)
                &&& stmt_outcome(r, e.value)
            }),
        decreases old(self).tokens@.len() - old(self).current, 63nat,
    {
        let ghost ts = self.ts();
        let ghost p = self.current as int;
        let t_for = vec![TokenType::For];
        if self.match_tokens(&t_for) {
            assert(t_for@[0] == TokenType::For);
            return self.for_stmt(interpreter);
        }
        assert(!check(ts, p, t_for@[0]));
        let t_if = vec![TokenType::If];
        if self.match_tokens(&t_if) {
            assert(t_if@[0] == TokenType::If);
            return self.if_stmt(interpreter);
        }
        assert(!check(ts, p, t_if@[0]));
        let t_print = vec![TokenType::Print];
        if self.match_tokens(&t_print) {
            assert(t_print@[0] == TokenType::Print);
            return self.print_stmt(interpreter);
        }
        assert(!check(ts, p, t_print@[0]));
        let t_while = vec![TokenType::While];
        if self.match_tokens(&t_while) {
            assert(t_while@[0] == TokenType::While);
            return self.while_stmt(interpreter);
        }
        assert(!check(ts, p, t_while@[0]));
        let t_brace = vec![TokenType::LeftBrace];
        if self.match_tokens(&t_brace) {
            assert(t_brace@[0] == TokenType::LeftBrace);
            return self.block(interpreter);
        }
        assert(!check(ts, p, t_brace@[0]));
        self.expression_stmt(interpreter)
    }

    /// Parameter names, after those in `acc`.
    fn parameters(&mut self, interpreter: &mut Lox, acc: Vec<Token>) -> (r: Result<Vec<Token>, ParseError>)
        requires
            old(self).wf(),
        ensures
            final(self).wf(),
            final(self).tokens == old(self).tokens,
            old(self).current <= final(self).current,
            ({
                let e = p_parameters(old(self).ts(), old(self).current as int, tokens_view(acc@));
                &&& final(self).current == e.pos
                &&& reported(*old(interpreter), *final(interpreter), e.reports)
                &&& match (r, e.value) {
                    (Ok(v), Some(x)) => tokens_view(v@) == x,
                    (Err(_), None) => true,
                    _ => false,
                }
            }),
        decreases old(self).tokens@.len() - old(self).current,
    {
        proof { self.lemma_ts(); }
        let ghost lox0 = *interpreter;
        let ghost ts = self.ts();
        let ghost p = self.current as int;
        let ghost warn: Seq<Seq<char>> = if acc@.len() >= 255 {
            seq![token_report(ts[p], "Can't have more than 255 parameters."@)]
        } else {
            Seq::empty()
        };
        let mut acc = acc;
        if acc.len() >= 255 {
            let tok = self.peek().copied();
            self.error(interpreter, &tok, "Can't have more than 255 parameters.");
        } else {
            proof { lemma_reported_none(*interpreter); }
        }
        let ghost lox1 = *interpreter;
        let ghost c = consume(ts, p, TokenType::Identifier, "Expect parameter name."@);
        let name = self.consume(interpreter, TokenType::Identifier, "Expect parameter name.");
        proof { lemma_reported_trans(lox0, lox1, *interpreter, warn, c.reports); }
        let name = match name {
            Ok(t) => t,
            Err(err) => { return Err(err); }
        };
        let ghost before = acc@;
        acc.push(name);
        assert(tokens_view(acc@) =~= tokens_view(before).push(name@));
        assert(warn + c.reports =~= warn);
        let ghost lox2 = *interpreter;
        let types = vec![TokenType::Comma];
        if self.match_tokens(&types) {
            assert(types@[0] == TokenType::Comma);
            let ghost rr = p_parameters(ts, c.pos + 1, tokens_view(acc@));
            let r = self.parameters(interpreter, acc);
            proof { lemma_reported_trans(lox0, lox2, *interpreter, warn, rr.reports); }
            r
        } else {
            assert(!check(ts, c.pos, types@[0]));
            Ok(acc)
        }
    }

    /// A function of kind `kind`: name, parameters and body, after `fun`.
    #[verifier::rlimit(100)]
    fn function(&mut self, interpreter: &mut Lox, kind: &str) -> (r: Result<Stmt, ParseError>)
        requires
            old(self).wf(),
        ensures
            final(self).wf(),
            final(self).tokens == old(self).tokens,
            old(self).current <= final(self).current,
            r is Ok ==> old(self).current < final(self).current,
            ({
                let e = p_function(old(self).ts(), old(self).current as int, kind@);
                &&& final(self).current == e.pos
                &&& reported(*old(interpreter), *final(interpreter), e.reports)
                &&& stmt_outcome(r, e.value)
            }),
        decreases old(self).tokens@.len() - old(self).current, 57nat,
    {
        proof { self.lemma_ts(); }
        let ghost ts = self.ts();
        let ghost p = self.current as int;
        let mut message = String::new();
        push_str(&mut message, "Expect ");
        push_str(&mut message, kind);
        push_str(&mut message, " name.");
        assert(message@ =~= "Expect "@ + kind@ + " name."@);
        let name = self.consume(interpreter, TokenType::Identifier, message.as_str());
        let name = match name {
            Ok(t) => t,
            Err(err) => { return Err(err); }
        };

        message = String::new();
        push_str(&mut message, "Expect '(' after ");
        push_str(&mut message, kind);
        push_str(&mut message, " name.");
        assert(message@ =~= "Expect '(' after "@ + kind@ + " name."@);
        let open = self.consume(interpreter, TokenType::LeftParen, message.as_str());
        match open {
            Ok(_) => (),
            Err(err) => { return Err(err); }
        };
        proof { lemma_reported_none(*interpreter); }
        let ghost lox1 = *interpreter;
        let ghost q = self.current as int;
        let ghost ps = if !check(ts, q, TokenType::RightParen) {
            p_parameters(ts, q, Seq::empty())
        } else {
            Parsed { value: Some(Seq::<TokenView>::empty()), pos: q, reports: Seq::<Seq<char>>::empty() }
        };

        let parameters = if !self.check(&TokenType::RightParen) {
            let empty: Vec<Token> = Vec::new();
            assert(tokens_view(empty@) =~= Seq::<TokenView>::empty());
            match self.parameters(interpreter, empty) {
                Ok(v) => v,
                Err(err) => { return Err(err); }
            }
        } else {
            proof { lemma_reported_none(*interpreter); }
            let v: Vec<Token> = Vec::new();
            assert(tokens_view(v@) =~= Seq::<TokenView>::empty());
            v
        };
        let ghost lox2 = *interpreter;

        let ghost c1 = consume(ts, ps.pos, TokenType::RightParen, "Expect ')' after parameters."@);
        let close = self.consume(interpreter, TokenType::RightParen, "Expect ')' after parameters.");
        proof { lemma_reported_trans(lox1, lox2, *interpreter, ps.reports, c1.reports); }
        match close {
            Ok(_) => (),
            Err(err) => { return Err(err); }
        };
        assert(ps.reports + c1.reports =~= ps.reports);
        let ghost lox3 = *interpreter;

        message = String::new();
        push_str(&mut message, "Expect '{' before ");
        push_str(&mut message, kind);
        push_str(&mut message, " body.");
        assert(message@ =~= "Expect '{' before "@ + kind@ + " body."@);
        let ghost c2 = consume(ts, c1.pos, TokenType::LeftBrace, message@);
        let brace = self.consume(interpreter, TokenType::LeftBrace, message.as_str());
        proof { lemma_reported_trans(lox1, lox3, *interpreter, ps.reports, c2.reports); }
        match brace {
            Ok(_) => (),
            Err(err) => { return Err(err); }
        };
        assert(ps.reports + c2.reports =~= ps.reports);
        let ghost lox4 = *interpreter;

        let ghost b = p_block_rest(ts, c2.pos, Seq::empty());
        let body = self.block_statements(interpreter);
        proof { lemma_reported_trans(lox1, lox4, *interpreter, ps.reports, b.reports); }
        let body = match body {
            Ok(x) => x,
            Err(err) => { return Err(err); }
        };
        Ok(Stmt::Function(name, parameters, body))
    }

    /// Skips tokens after an error until after a `;` or before a statement keyword.
    fn synchronize(&mut self)
        requires
            old(self).wf(),
        ensures
            final(self).wf(),
            final(self).tokens == old(self).tokens,
            final(self).current == synchronized(old(self).ts(), old(self).current as int),
    {
        proof { self.lemma_ts(); }
        let ghost ts = self.ts();
        self.advance();

        while !self.is_end()
            invariant
                self.wf(),
                self.tokens == old(self).tokens,
                self.ts() == ts,
                sync_from(ts, self.current as int) == synchronized(ts, old(self).current as int),
                !at_end(ts, self.current as int) ==> self.current >= 1,
            decreases self.tokens@.len() - self.current,
        {
            proof { self.lemma_ts(); }
            if *self.previous().get_type() == TokenType::Semicolon {
                return;
            }

            let k = *self.peek().get_type();
            if k == TokenType::Class || k == TokenType::Fun || k == TokenType::Var || k == TokenType::For
                || k == TokenType::If || k == TokenType::While || k == TokenType::Print || k == TokenType::Return
            {
                return;
            }

            self.advance();
        }
    }

    /// A function, a variable or a statement, before any recovery.
    #[verifier::rlimit(100)]
    fn declaration_body(&mut self, interpreter: &mut Lox) -> (r: Result<Stmt, ParseError>)
        requires
            old(self).wf(),
        ensures
            final(self).wf(),
            final(self).tokens == old(self).tokens,
            old(self).current <= final(self).current,
            r is Ok ==> old(self).current < final(self).current,
            ({
                let e = p_declaration_body(old(self).ts(), old(self).current as int);
                &&& final(self).current == e.pos
                &&& reported(*old(interpreter), *final(interpreter), e.reports)
                &&& stmt_outcome(r, e.value)
            }),
        decreases old(self).tokens@.len() - old(self).current, 64nat,
    {
        proof { self.lemma_ts(); }
        let ghost ts = self.ts();
        let ghost p = self.current as int;
        let t_fun = vec![TokenType::Fun];
        if self.match_tokens(&t_fun) {
            assert(t_fun@[0] == TokenType::Fun);
            return self.function(interpreter, "function");
        }
        assert(!check(ts, p, t_fun@[0]));
        let t_var = vec![TokenType::Var];
        if self.match_tokens(&t_var) {
            assert(t_var@[0] == TokenType::Var);
            return self.var_declaration(interpreter);
        }
        assert(!check(ts, p, t_var@[0]));
        self.statement(interpreter)
    }

    /// `declaration`; after a syntax error, recovers and gives `None`.
    fn declaration(&mut self, interpreter: &mut Lox) -> (r: Option<Stmt>)
        requires
            old(self).wf(),
        ensures
            final(self).wf(),
            final(self).tokens == old(self).tokens,
            old(self).current <= final(self).current,
            !at_end(old(self).ts(), old(self).current as int) ==> old(self).current < final(self).current,
            ({
                let e = p_declaration(old(self).ts(), old(self).current as int);
                &&& final(self).current == e.pos
                &&& reported(*old(interpreter), *final(interpreter), e.reports)
                &&& match (r, e.value) {
                    (Some(s), Some(v)) => s@ == v,
                    (None, None) => true,
                    _ => false,
                }
            }),
        decreases old(self).tokens@.len() - old(self).current, 65nat,
    {
        let ghost ts = self.ts();
        let ghost p = self.current as int;
        match self.declaration_body(interpreter) {
            Ok(s) => Some(s),
            Err(_) => {
                proof { self.lemma_ts(); }
                let ghost q = self.current as int;
                self.synchronize();
                proof { lemma_sync_progress(ts, q); }
                None
            }
        }
    }

    /// Parses the declarations up to the end of file; one with a syntax error
    /// is `None`, and its errors are reported to `interpreter`.
    #[verifier::rlimit(100)]
    pub fn parse(&mut self, interpreter: &mut Lox) -> (statements: Vec<Option<Stmt>>)
        requires
            old(self).wf(),
        ensures
            final(self).wf(),
            ({
                let prog = parse_from(old(self).ts(), old(self).position());
                &&& opt_stmts_view(statements@) == prog.stmts
                &&& reported(*old(interpreter), *final(interpreter), prog.reports)
            }),
    {
        proof { self.lemma_ts(); }
        let ghost ts = self.ts();
        let ghost p0 = self.current as int;
        let ghost lox0 = *interpreter;
        let ghost total = parse_from(ts, p0);
        let ghost mut so_far: Seq<Seq<char>> = Seq::empty();
        let mut statements: Vec<Option<Stmt>> = Vec::new();
        proof {
            lemma_reported_none(*interpreter);
            assert(opt_stmts_view(statements@) =~= Seq::<Option<StmtView>>::empty());
            assert(so_far + total.reports =~= total.reports);
            assert(opt_stmts_view(statements@) + total.stmts =~= total.stmts);
        }
        while !self.is_end()
            invariant
                self.wf(),
                self.tokens == old(self).tokens,
                self.ts() == ts,
                reported(lox0, *interpreter, so_far),
                ({
                    let now = parse_from(ts, self.current as int);
                    &&& total.stmts == opt_stmts_view(statements@) + now.stmts
                    &&& total.reports == so_far + now.reports
                }),
            decreases self.tokens@.len() - self.current,
        {
            proof { self.lemma_ts(); }
            let ghost p = self.current as int;
            let ghost d = p_declaration(ts, p);
            let ghost lox1 = *interpreter;
            let ghost before = statements@;
            let dec = self.declaration(interpreter);
            proof { lemma_reported_trans(lox0, lox1, *interpreter, so_far, d.reports); }
            statements.push(dec);
            proof {
                let now = parse_from(ts, self.current as int);
                assert(statements@.drop_last() =~= before);
                assert(opt_stmts_view(statements@) == opt_stmts_view(before).push(opt_stmt_view(dec)));
                assert(opt_stmts_view(before) + (seq![d.value] + now.stmts) =~= opt_stmts_view(statements@) + now.stmts);
                assert(so_far + (d.reports + now.reports) =~= (so_far + d.reports) + now.reports);
                so_far = so_far + d.reports;
            }
        }
        proof {
            let now = parse_from(ts, self.current as int);
            assert(total.stmts =~= opt_stmts_view(statements@));
            assert(total.reports =~= so_far);
        }
        statements
    }
}

/// The view of an optional statement.
pub open spec fn opt_stmt_view(o: Option<Stmt>) -> Option<StmtView> {
    match o {
        Some(s) => Some(s@),
        None => None,
    }
}

/// The views of a sequence of optional statements.
pub open spec fn opt_stmts_view(s: Seq<Option<Stmt>>) -> Seq<Option<StmtView>> {
    s.map_values(|o: Option<Stmt>| opt_stmt_view(o))
}

proof fn lemma_sync_from(ts: Seq<TokenView>, q: int)
    requires
        0 <= q,
    ensures
        q <= sync_from(ts, q),
    decreases ts.len() - q,
{
    if 0 <= q < ts.len() && !at_end(ts, q) && kind_at(ts, q - 1) != TokenType::Semicolon
        && !starts_statement(kind_at(ts, q)) {
        lemma_sync_from(ts, q + 1);
    }
}

proof fn lemma_sync_progress(ts: Seq<TokenView>, p: int)
    requires
        0 <= p,
    ensures
        p <= step(ts, p) <= synchronized(ts, p),
        !at_end(ts, p) ==> p < synchronized(ts, p),
{
    lemma_sync_from(ts, step(ts, p));
}

} // verus!
