//! Static resolution of variables: how many scopes out each local variable
//! use lives, and the errors that can be found before running.
use vstd::prelude::*;
use crate::ast::expr::{exprs_view, lemma_exprs_view_len, Expr, ExprView};
use crate::ast::stmt::{lemma_stmts_view_len, stmts_view, tokens_view, Stmt, StmtView};
use crate::evaluator::environment::{find, lemma_find, lemma_find_first};
use crate::lexer::token::{Literal, LiteralView, Token, TokenView};
use crate::parser::{opt_stmt_view, opt_stmts_view};
use crate::report::{token_report, Lox};
use crate::text::same_text;

verus! {

broadcast use vstd::std_specs::vec::group_vec_axioms;

/// The kind of function whose body is being resolved.
#[derive(Clone, Copy, Debug, PartialEq, Eq, Structural)]
pub enum FunctionType {
    TopLevel,
    Func,
    Initializer,
    Method,
}

/// Whether a class body is being resolved.
#[derive(Clone, Copy, Debug, PartialEq, Eq, Structural)]
pub enum ClassType {
    Outside,
    Class,
}

/// A scope: each name declared in it, and whether its declaration is finished.
pub type ScopeView = Seq<(Seq<char>, bool)>;

/// What the resolver knows: the open scopes (innermost last), the uses of
/// local variables found so far with their depths, the kinds of the
/// enclosing function and class, and the reports made.
pub struct Resolution {
    pub scopes: Seq<ScopeView>,
    pub locals: Seq<(ExprView, nat)>,
    pub fun: FunctionType,
    pub class: ClassType,
    pub reports: Seq<Seq<char>>,
}

/// The names of a scope.
pub open spec fn scope_names(sc: ScopeView) -> Seq<Seq<char>> {
    sc.map_values(|p: (Seq<char>, bool)| p.0)
}

/// Whether `k` is declared in `sc`, and if so whether it is finished.
pub open spec fn scope_get(sc: ScopeView, k: Seq<char>) -> Option<bool> {
    let i = find(scope_names(sc), k);
    if i >= 0 { Some(sc[i].1) } else { None }
}

/// No name is declared twice in `sc`.
pub open spec fn names_distinct(sc: ScopeView) -> bool {
    forall|i: int, j: int| 0 <= i < j < sc.len() ==> #[trigger] sc[i].0 != #[trigger] sc[j].0
}

/// Declaring a name in a scope keeps its names distinct.
pub proof fn lemma_scope_put_distinct(sc: ScopeView, k: Seq<char>, b: bool)
    requires
        names_distinct(sc),
    ensures
        names_distinct(scope_put(sc, k, b)),
{
    lemma_find(scope_names(sc), k);
    let i = find(scope_names(sc), k);
    let r = scope_put(sc, k, b);
    assert forall|x: int, y: int| 0 <= x < y < r.len() implies #[trigger] r[x].0 != #[trigger] r[y].0 by {
        if i >= 0 {
            assert(scope_names(sc)[i] == sc[i].0);
            assert(r[x].0 == sc[x].0 && r[y].0 == sc[y].0);
        } else if y == sc.len() {
            assert(scope_names(sc)[x] == sc[x].0);
        } else {
            assert(r[x] == sc[x] && r[y] == sc[y]);
        }
    }
}

/// `sc` with `k` declared, finished or not as `b`.
pub open spec fn scope_put(sc: ScopeView, k: Seq<char>, b: bool) -> ScopeView {
    let i = find(scope_names(sc), k);
    if i >= 0 { sc.update(i, (k, b)) } else { sc.push((k, b)) }
}

/// How many scopes out from the innermost `k` is declared, if in any.
pub open spec fn depth_of(scopes: Seq<ScopeView>, k: Seq<char>) -> Option<nat>
    decreases scopes.len(),
{
    if scopes.len() == 0 {
        None
    } else if scope_get(scopes.last(), k) is Some {
        Some(0)
    } else {
        match depth_of(scopes.drop_last(), k) {
            Some(d) => Some(d + 1),
            None => None,
        }
    }
}

/// `st` with `report` added when `cond` holds.
pub open spec fn report_if(st: Resolution, cond: bool, t: TokenView, message: Seq<char>) -> Resolution {
    if cond {
        Resolution { reports: st.reports.push(token_report(t, message)), ..st }
    } else {
        st
    }
}

/// `st` with the innermost scope replaced by `sc`.
pub open spec fn with_top(st: Resolution, sc: ScopeView) -> Resolution {
    Resolution { scopes: st.scopes.update(st.scopes.len() - 1, sc), ..st }
}

/// Declaring `name` in the innermost scope, if there is one; declaring it
/// twice there is reported.
pub open spec fn declare(st: Resolution, name: TokenView) -> Resolution {
    if st.scopes.len() == 0 {
        st
    } else {
        let sc = st.scopes.last();
        let st1 = report_if(st, scope_get(sc, name.lexeme) is Some, name,
            "Already a variable with this name in this scope."@);
        with_top(st1, scope_put(sc, name.lexeme, false))
    }
}

/// Finishing the declaration of `name` in the innermost scope, if there is one.
pub open spec fn define(st: Resolution, name: TokenView) -> Resolution {
    if st.scopes.len() == 0 {
        st
    } else {
        with_top(st, scope_put(st.scopes.last(), name.lexeme, true))
    }
}

/// Recording the use `e` of `name` with its depth, when it is local.
pub open spec fn resolve_local(st: Resolution, e: ExprView, name: TokenView) -> Resolution {
    match depth_of(st.scopes, name.lexeme) {
        Some(d) => Resolution { locals: st.locals.push((e, d)), ..st },
        None => st,
    }
}

/// The recorded uses as the interpreter reads them: a map from each
/// expression to its depth, in which a later entry for an expression
/// replaces an earlier one.
pub open spec fn locals_map(locals: Seq<(ExprView, nat)>) -> Map<ExprView, nat>
    decreases locals.len(),
{
    if locals.len() == 0 {
        Map::empty()
    } else {
        locals_map(locals.drop_last()).insert(locals.last().0, locals.last().1)
    }
}

/// Recording a use of a local variable sets its depth in the map of uses,
/// replacing the one recorded before for the same expression, and changes
/// nothing for a global variable.
pub proof fn lemma_resolve_local_map(st: Resolution, e: ExprView, name: TokenView)
    ensures
        locals_map(resolve_local(st, e, name).locals) == match depth_of(st.scopes, name.lexeme) {
            Some(d) => locals_map(st.locals).insert(e, d),
            None => locals_map(st.locals),
        },
{
    if let Some(d) = depth_of(st.scopes, name.lexeme) {
        assert(st.locals.push((e, d)).drop_last() =~= st.locals);
    }
}

/// Opening a scope.
pub open spec fn begin_scope(st: Resolution) -> Resolution {
    Resolution { scopes: st.scopes.push(Seq::empty()), ..st }
}

/// Closing the innermost scope.
pub open spec fn end_scope(st: Resolution) -> Resolution {
    if st.scopes.len() == 0 { st } else { Resolution { scopes: st.scopes.drop_last(), ..st } }
}

/// Resolving an expression.
pub open spec fn res_expr(e: ExprView, st: Resolution) -> Resolution
    decreases e, 1nat,
{
    match e {
        ExprView::Variable(name) => {
            let st1 = report_if(st,
                st.scopes.len() > 0 && scope_get(st.scopes.last(), name.lexeme) == Some(false), name,
                "Can't read local variable in its own initializer."@);
            resolve_local(st1, e, name)
        }
        ExprView::Assign(name, v) => resolve_local(res_expr(*v, st), e, name),
        ExprView::Binary(l, _, r) => res_expr(*r, res_expr(*l, st)),
        ExprView::Call(c, _, args) => {
            proof {
                assert(decreases_to!(e => e->Call_2));
            }
            res_args(args, res_expr(*c, st))
        }
        ExprView::Get(o, _) => res_expr(*o, st),
        ExprView::Grouping(g) => res_expr(*g, st),
        ExprView::LiteralExpr(_) => st,
        ExprView::Logical(l, _, r) => res_expr(*r, res_expr(*l, st)),
        ExprView::Unary(_, r) => res_expr(*r, st),
        ExprView::SetProperty(o, _, v) => res_expr(*o, res_expr(*v, st)),
        ExprView::Super(keyword, _) => resolve_local(st, e, keyword),
        ExprView::This(keyword) => {
            let st1 = report_if(st, st.class == ClassType::Outside, keyword,
                "Can't use 'this' outside of a class."@);
            resolve_local(st1, e, keyword)
        }
    }
}

/// Resolving a list of expressions, first to last.
pub open spec fn res_args(s: Seq<ExprView>, st: Resolution) -> Resolution
    decreases s, 0nat,
{
    if s.len() == 0 { st } else { res_expr(s.last(), res_args(s.drop_last(), st)) }
}

/// Declaring and defining each parameter, first to last.
pub open spec fn res_params(ps: Seq<TokenView>, st: Resolution) -> Resolution
    decreases ps.len(),
{
    if ps.len() == 0 {
        st
    } else {
        let st1 = res_params(ps.drop_last(), st);
        define(declare(st1, ps.last()), ps.last())
    }
}

/// Every class in the statement lists only functions as its methods.
pub open spec fn methods_are_functions(s: StmtView) -> bool
    decreases s, 1nat,
{
    match s {
        StmtView::Block(b) => {
            proof { assert(decreases_to!(s => s->Block_0)); }
            all_methods_are_functions(b)
        }
        StmtView::Class(_, _, ms) => {
            proof { assert(decreases_to!(s => s->Class_2)); }
            &&& forall|i: int| 0 <= i < ms.len() ==> #[trigger] ms[i] is Function
            &&& all_methods_are_functions(ms)
        }
        StmtView::Function(_, _, body) => {
            proof { assert(decreases_to!(s => s->Function_2)); }
            all_methods_are_functions(body)
        }
        StmtView::If(_, t, e) => methods_are_functions(*t) && match e {
            Some(b) => methods_are_functions(*b),
            None => true,
        },
        StmtView::While(_, b) => methods_are_functions(*b),
        _ => true,
    }
}

/// `methods_are_functions` of each statement.
pub open spec fn all_methods_are_functions(s: Seq<StmtView>) -> bool
    decreases s, 0nat,
{
    s.len() == 0 || (all_methods_are_functions(s.drop_last()) && methods_are_functions(s.last()))
}

/// The kind of function a method is: an initializer when it is called `init`.
pub open spec fn method_kind(m: StmtView) -> FunctionType {
    match m {
        StmtView::Function(name, _, _) => if name.lexeme == "init"@ {
            FunctionType::Initializer
        } else {
            FunctionType::Method
        },
        _ => FunctionType::Method,
    }
}

/// Resolving a statement.
pub open spec fn res_stmt(s: StmtView, st: Resolution) -> Resolution
    decreases s, 2nat,
{
    match s {
        StmtView::Block(b) => {
            proof { assert(decreases_to!(s => s->Block_0)); }
            end_scope(res_stmts(b, begin_scope(st)))
        }
        StmtView::Class(name, _, methods) => {
            proof { assert(decreases_to!(s => s->Class_2)); }
            let st1 = Resolution { class: ClassType::Class, ..st };
            let st2 = begin_scope(define(declare(st1, name), name));
            let st3 = with_top(st2, scope_put(st2.scopes.last(), "this"@, true));
            let st4 = end_scope(res_methods(methods, st3));
            Resolution { class: st.class, ..st4 }
        }
        StmtView::Var(name, init) => {
            let st1 = declare(st, name);
            let st2 = if init != ExprView::LiteralExpr(LiteralView::Nil) { res_expr(init, st1) } else { st1 };
            define(st2, name)
        }
        StmtView::Function(name, _, _) => {
            let st1 = define(declare(st, name), name);
            res_function(s, FunctionType::Func, st1)
        }
        StmtView::Expression(e) => res_expr(e, st),
        StmtView::If(c, t, e) => {
            let st1 = res_stmt(*t, res_expr(c, st));
            match e {
                Some(b) => res_stmt(*b, st1),
                None => st1,
            }
        }
        StmtView::Print(e) => res_expr(e, st),
        StmtView::Return(keyword, value) => {
            let st1 = report_if(st, st.fun == FunctionType::TopLevel, keyword, "Can't return from top-level code."@);
            if value != ExprView::LiteralExpr(LiteralView::Nil) {
                let st2 = report_if(st1, st.fun == FunctionType::Initializer, keyword,
                    "Can't return a value from an initializer."@);
                res_expr(value, st2)
            } else {
                st1
            }
        }
        StmtView::While(c, b) => res_stmt(*b, res_expr(c, st)),
    }
}

/// Resolving the body of a function of kind `kind`: its parameters in a new
/// scope, then its statements.
pub open spec fn res_function(f: StmtView, kind: FunctionType, st: Resolution) -> Resolution
    decreases f, 1nat,
{
    match f {
        StmtView::Function(_, params, body) => {
            proof { assert(decreases_to!(f => f->Function_2)); }
            let st1 = begin_scope(Resolution { fun: kind, ..st });
            let st2 = end_scope(res_stmts(body, res_params(params, st1)));
            Resolution { fun: st.fun, ..st2 }
        }
        _ => st,
    }
}

/// Resolving a list of statements, first to last.
pub open spec fn res_stmts(s: Seq<StmtView>, st: Resolution) -> Resolution
    decreases s, 0nat,
{
    if s.len() == 0 { st } else { res_stmt(s.last(), res_stmts(s.drop_last(), st)) }
}

/// Resolving the methods of a class, first to last.
pub open spec fn res_methods(s: Seq<StmtView>, st: Resolution) -> Resolution
    decreases s, 0nat,
{
    if s.len() == 0 {
        st
    } else {
        res_function(s.last(), method_kind(s.last()), res_methods(s.drop_last(), st))
    }
}

/// The uses of names in an expression, in the order they are evaluated:
/// each variable read, assignment, `this` and `super`, with its name.
pub open spec fn uses_expr(e: ExprView) -> Seq<(ExprView, Seq<char>)>
    decreases e, 1nat,
{
    match e {
        ExprView::Variable(name) => seq![(e, name.lexeme)],
        ExprView::Assign(name, v) => uses_expr(*v).push((e, name.lexeme)),
        ExprView::Binary(l, _, r) => uses_expr(*l) + uses_expr(*r),
        ExprView::Call(c, _, args) => {
            proof {
                assert(decreases_to!(e => e->Call_2));
            }
            uses_expr(*c) + uses_args(args)
        }
        ExprView::Get(o, _) => uses_expr(*o),
        ExprView::Grouping(g) => uses_expr(*g),
        ExprView::LiteralExpr(_) => Seq::empty(),
        ExprView::Logical(l, _, r) => uses_expr(*l) + uses_expr(*r),
        ExprView::Unary(_, r) => uses_expr(*r),
        ExprView::SetProperty(o, _, v) => uses_expr(*v) + uses_expr(*o),
        ExprView::Super(keyword, _) => seq![(e, keyword.lexeme)],
        ExprView::This(keyword) => seq![(e, keyword.lexeme)],
    }
}

/// The uses of names in a list of expressions, first to last.
pub open spec fn uses_args(s: Seq<ExprView>) -> Seq<(ExprView, Seq<char>)>
    decreases s, 0nat,
{
    if s.len() == 0 { Seq::empty() } else { uses_args(s.drop_last()) + uses_expr(s.last()) }
}

/// A statement that declares nothing and opens no scope: an expression,
/// `print`, `return`, or an `if` or `while` of such statements.
pub open spec fn declares_nothing(s: StmtView) -> bool
    decreases s,
{
    match s {
        StmtView::Expression(_) => true,
        StmtView::Print(_) => true,
        StmtView::Return(_, _) => true,
        StmtView::If(_, t, e) => declares_nothing(*t) && match e {
            Some(b) => declares_nothing(*b),
            None => true,
        },
        StmtView::While(_, b) => declares_nothing(*b),
        _ => false,
    }
}

/// The uses of names in a statement, in the order they are evaluated: the
/// condition of an `if` or `while`, then its branches or body.
pub open spec fn uses_stmt(s: StmtView) -> Seq<(ExprView, Seq<char>)>
    decreases s,
{
    match s {
        StmtView::Expression(e) => uses_expr(e),
        StmtView::Print(e) => uses_expr(e),
        StmtView::Return(_, v) => uses_expr(v),
        StmtView::If(c, t, e) => uses_expr(c) + uses_stmt(*t) + match e {
            Some(b) => uses_stmt(*b),
            None => Seq::empty(),
        },
        StmtView::While(c, b) => uses_expr(c) + uses_stmt(*b),
        _ => Seq::empty(),
    }
}

/// The uses among `u` whose names are declared in `scopes`, each with how
/// many scopes out its name is.
pub open spec fn recorded(u: Seq<(ExprView, Seq<char>)>, scopes: Seq<ScopeView>) -> Seq<(ExprView, nat)>
    decreases u.len(),
{
    if u.len() == 0 {
        Seq::empty()
    } else {
        recorded(u.drop_last(), scopes) + match depth_of(scopes, u.last().1) {
            Some(d) => seq![(u.last().0, d)],
            None => Seq::empty(),
        }
    }
}

proof fn lemma_recorded_add(a: Seq<(ExprView, Seq<char>)>, b: Seq<(ExprView, Seq<char>)>, scopes: Seq<ScopeView>)
    ensures
        recorded(a + b, scopes) == recorded(a, scopes) + recorded(b, scopes),
    decreases b.len(),
{
    if b.len() == 0 {
        assert(a + b =~= a);
        assert(recorded(a, scopes) + recorded(b, scopes) =~= recorded(a, scopes));
    } else {
        lemma_recorded_add(a, b.drop_last(), scopes);
        assert((a + b).drop_last() =~= a + b.drop_last());
        assert((a + b).last() == b.last());
        let tail = match depth_of(scopes, b.last().1) {
            Some(d) => seq![(b.last().0, d)],
            None => Seq::<(ExprView, nat)>::empty(),
        };
        assert(recorded(a, scopes) + recorded(b.drop_last(), scopes) + tail
            =~= recorded(a, scopes) + (recorded(b.drop_last(), scopes) + tail));
    }
}

proof fn lemma_recorded_one(e: ExprView, k: Seq<char>, scopes: Seq<ScopeView>)
    ensures
        recorded(seq![(e, k)], scopes) == match depth_of(scopes, k) {
            Some(d) => seq![(e, d)],
            None => Seq::<(ExprView, nat)>::empty(),
        },
{
    assert(seq![(e, k)].drop_last() =~= Seq::<(ExprView, Seq<char>)>::empty());
    assert(seq![(e, k)].last() == (e, k));
    assert(recorded(Seq::<(ExprView, Seq<char>)>::empty(), scopes) == Seq::<(ExprView, nat)>::empty());
    let r = match depth_of(scopes, k) {
        Some(d) => seq![(e, d)],
        None => Seq::<(ExprView, nat)>::empty(),
    };
    assert(Seq::<(ExprView, nat)>::empty() + r =~= r);
}

proof fn lemma_res_expr_uses(e: ExprView, st: Resolution)
    ensures
        res_expr(e, st).scopes == st.scopes,
        res_expr(e, st).locals == st.locals + recorded(uses_expr(e), st.scopes),
    decreases e, 1nat,
{
    let sc = st.scopes;
    match e {
        ExprView::Variable(name) => {
            lemma_recorded_one(e, name.lexeme, sc);
        }
        ExprView::Assign(name, v) => {
            lemma_res_expr_uses(*v, st);
            lemma_recorded_add(uses_expr(*v), seq![(e, name.lexeme)], sc);
            assert(uses_expr(*v).push((e, name.lexeme)) =~= uses_expr(*v) + seq![(e, name.lexeme)]);
            lemma_recorded_one(e, name.lexeme, sc);
            let m = res_expr(*v, st);
            if let Some(d) = depth_of(sc, name.lexeme) {
                assert(m.locals.push((e, d)) =~= st.locals + (recorded(uses_expr(*v), sc) + seq![(e, d)]));
            } else {
                assert(st.locals + (recorded(uses_expr(*v), sc) + Seq::<(ExprView, nat)>::empty())
                    =~= st.locals + recorded(uses_expr(*v), sc));
            }
        }
        ExprView::Binary(l, _, r) => {
            lemma_res_expr_uses(*l, st);
            lemma_res_expr_uses(*r, res_expr(*l, st));
            lemma_recorded_add(uses_expr(*l), uses_expr(*r), sc);
            assert(st.locals + recorded(uses_expr(*l), sc) + recorded(uses_expr(*r), sc)
                =~= st.locals + (recorded(uses_expr(*l), sc) + recorded(uses_expr(*r), sc)));
        }
        ExprView::Logical(l, _, r) => {
            lemma_res_expr_uses(*l, st);
            lemma_res_expr_uses(*r, res_expr(*l, st));
            lemma_recorded_add(uses_expr(*l), uses_expr(*r), sc);
            assert(st.locals + recorded(uses_expr(*l), sc) + recorded(uses_expr(*r), sc)
                =~= st.locals + (recorded(uses_expr(*l), sc) + recorded(uses_expr(*r), sc)));
        }
        ExprView::Call(c, _, args) => {
            assert(decreases_to!(e => e->Call_2));
            lemma_res_expr_uses(*c, st);
            lemma_res_args_uses(args, res_expr(*c, st));
            lemma_recorded_add(uses_expr(*c), uses_args(args), sc);
            assert(st.locals + recorded(uses_expr(*c), sc) + recorded(uses_args(args), sc)
                =~= st.locals + (recorded(uses_expr(*c), sc) + recorded(uses_args(args), sc)));
        }
        ExprView::Get(o, _) => {
            lemma_res_expr_uses(*o, st);
        }
        ExprView::Grouping(g) => {
            lemma_res_expr_uses(*g, st);
        }
        ExprView::LiteralExpr(_) => {
            assert(st.locals + Seq::<(ExprView, nat)>::empty() =~= st.locals);
        }
        ExprView::Unary(_, r) => {
            lemma_res_expr_uses(*r, st);
        }
        ExprView::SetProperty(o, _, v) => {
            lemma_res_expr_uses(*v, st);
            lemma_res_expr_uses(*o, res_expr(*v, st));
            lemma_recorded_add(uses_expr(*v), uses_expr(*o), sc);
            assert(st.locals + recorded(uses_expr(*v), sc) + recorded(uses_expr(*o), sc)
                =~= st.locals + (recorded(uses_expr(*v), sc) + recorded(uses_expr(*o), sc)));
        }
        ExprView::Super(keyword, _) => {
            lemma_recorded_one(e, keyword.lexeme, sc);
        }
        ExprView::This(keyword) => {
            lemma_recorded_one(e, keyword.lexeme, sc);
        }
    }
}

proof fn lemma_res_args_uses(s: Seq<ExprView>, st: Resolution)
    ensures
        res_args(s, st).scopes == st.scopes,
        res_args(s, st).locals == st.locals + recorded(uses_args(s), st.scopes),
    decreases s, 0nat,
{
    if s.len() == 0 {
        assert(st.locals + Seq::<(ExprView, nat)>::empty() =~= st.locals);
    } else {
        let sc = st.scopes;
        lemma_res_args_uses(s.drop_last(), st);
        lemma_res_expr_uses(s.last(), res_args(s.drop_last(), st));
        lemma_recorded_add(uses_args(s.drop_last()), uses_expr(s.last()), sc);
        assert(st.locals + recorded(uses_args(s.drop_last()), sc) + recorded(uses_expr(s.last()), sc)
            =~= st.locals + (recorded(uses_args(s.drop_last()), sc) + recorded(uses_expr(s.last()), sc)));
    }
}

proof fn lemma_res_stmt_uses(s: StmtView, st: Resolution)
    requires
        declares_nothing(s),
    ensures
        res_stmt(s, st).scopes == st.scopes,
        res_stmt(s, st).locals == st.locals + recorded(uses_stmt(s), st.scopes),
    decreases s, 1nat,
{
    match s {
        StmtView::Expression(e) => {
            lemma_res_expr_uses(e, st);
        }
        StmtView::Print(e) => {
            lemma_res_expr_uses(e, st);
        }
        StmtView::Return(keyword, v) => {
            let st1 = report_if(st, st.fun == FunctionType::TopLevel, keyword, "Can't return from top-level code."@);
            let st2 = report_if(st1, st.fun == FunctionType::Initializer, keyword,
                "Can't return a value from an initializer."@);
            lemma_res_expr_uses(v, st2);
            if v == ExprView::LiteralExpr(LiteralView::Nil) {
                assert(st.locals + Seq::<(ExprView, nat)>::empty() =~= st.locals);
            }
        }
        StmtView::If(_, _, _) => {
            lemma_res_if_uses(s, st);
        }
        StmtView::While(_, _) => {
            lemma_res_while_uses(s, st);
        }
        _ => {}
    }
}

proof fn lemma_res_if_uses(s: StmtView, st: Resolution)
    requires
        declares_nothing(s),
        s is If,
    ensures
        res_stmt(s, st).scopes == st.scopes,
        res_stmt(s, st).locals == st.locals + recorded(uses_stmt(s), st.scopes),
    decreases s, 0nat,
{
    let sc = st.scopes;
    if let StmtView::If(c, t, e) = s {
        lemma_res_expr_uses(c, st);
        let st0 = res_expr(c, st);
        lemma_res_stmt_uses(*t, st0);
        let st1 = res_stmt(*t, st0);
        let tail = match e {
            Some(b) => uses_stmt(*b),
            None => Seq::<(ExprView, Seq<char>)>::empty(),
        };
        match e {
            Some(b) => {
                lemma_res_stmt_uses(*b, st1);
            }
            None => {
                assert(recorded(tail, sc) == Seq::<(ExprView, nat)>::empty());
            }
        }
        assert(uses_stmt(s) == uses_expr(c) + uses_stmt(*t) + tail);
        lemma_recorded_add(uses_expr(c), uses_stmt(*t), sc);
        lemma_recorded_add(uses_expr(c) + uses_stmt(*t), tail, sc);
        assert(st.locals + recorded(uses_expr(c), sc) + recorded(uses_stmt(*t), sc) + recorded(tail, sc)
            =~= st.locals + (recorded(uses_expr(c), sc) + recorded(uses_stmt(*t), sc) + recorded(tail, sc)));
        assert(res_stmt(s, st) == match e {
            Some(b) => res_stmt(*b, st1),
            None => st1,
        });
    }
}

proof fn lemma_res_while_uses(s: StmtView, st: Resolution)
    requires
        declares_nothing(s),
        s is While,
    ensures
        res_stmt(s, st).scopes == st.scopes,
        res_stmt(s, st).locals == st.locals + recorded(uses_stmt(s), st.scopes),
    decreases s, 0nat,
{
    let sc = st.scopes;
    if let StmtView::While(c, b) = s {
        lemma_res_expr_uses(c, st);
        lemma_res_stmt_uses(*b, res_expr(c, st));
        lemma_recorded_add(uses_expr(c), uses_stmt(*b), sc);
        assert(st.locals + recorded(uses_expr(c), sc) + recorded(uses_stmt(*b), sc)
            =~= st.locals + (recorded(uses_expr(c), sc) + recorded(uses_stmt(*b), sc)));
    }
}

/// Resolving records every use of a local name, where it is: in an
/// expression, or in a statement that declares nothing (an expression,
/// `print`, `return`, and the condition and every branch or body of an
/// `if` or `while`), each variable read, assignment, `this` and `super` whose
/// name is declared in an open scope is recorded, in order of evaluation,
/// with how many scopes out its name is; the uses of other names are left to
/// the globals. The scopes are as before.
pub proof fn law_resolve_records_every_use(s: StmtView, e: ExprView, st: Resolution)
    ensures
        res_expr(e, st).locals == st.locals + recorded(uses_expr(e), st.scopes),
        res_expr(e, st).scopes == st.scopes,
        declares_nothing(s) ==> res_stmt(s, st).locals == st.locals + recorded(uses_stmt(s), st.scopes),
        declares_nothing(s) ==> res_stmt(s, st).scopes == st.scopes,
{
    lemma_res_expr_uses(e, st);
    if declares_nothing(s) {
        lemma_res_stmt_uses(s, st);
    }
}

/// The statements of a list in which each is present.
pub open spec fn present_views(s: Seq<Option<Stmt>>) -> Seq<StmtView> {
    s.map_values(|o: Option<Stmt>| match o {
        Some(x) => x@,
        None => StmtView::Block(Seq::empty()),
    })
}

proof fn lemma_all_methods(s: Seq<StmtView>)
    requires
        all_methods_are_functions(s),
    ensures
        forall|i: int| 0 <= i < s.len() ==> #[trigger] methods_are_functions(s[i]),
    decreases s.len(),
{
    if s.len() > 0 {
        lemma_all_methods(s.drop_last());
        assert forall|i: int| 0 <= i < s.len() implies #[trigger] methods_are_functions(s[i]) by {
            if i < s.len() - 1 {
                assert(s.drop_last()[i] == s[i]);
            }
        }
    }
}


/// The reports of `after` are `reports`, which extend those of `before`, and
/// the error flag is up when it was or a report was added.
pub open spec fn reported_to(before: Lox, after: Lox) -> bool {
    &&& after.reports().len() >= before.reports().len()
    &&& after.reports().subrange(0, before.reports().len() as int) == before.reports()
    &&& after.spec_had_error() == (before.spec_had_error() || after.reports().len() > before.reports().len())
    &&& after.spec_had_runtime_error() == before.spec_had_runtime_error()
}

pub proof fn lemma_reported_to_trans(a: Lox, b: Lox, c: Lox)
    requires
        reported_to(a, b),
        reported_to(b, c),
    ensures
        reported_to(a, c),
{
    assert(c.reports().subrange(0, a.reports().len() as int) =~= b.reports().subrange(0, a.reports().len() as int));
}

pub proof fn lemma_reported_to_refl(a: Lox)
    ensures
        reported_to(a, a),
{
    assert(a.reports().subrange(0, a.reports().len() as int) =~= a.reports());
}

/// A scope of the resolver.
struct Scope {
    names: Vec<String>,
    done: Vec<bool>,
}

impl Scope {
    spec fn view(&self) -> ScopeView {
        Seq::new(self.names@.len(), |i: int| (self.names@[i]@, self.done@[i]))
    }

    spec fn wf(&self) -> bool {
        &&& self.names@.len() == self.done@.len()
        &&& names_distinct(self.view())
    }

    proof fn lemma_names(&self)
        requires
            self.names@.len() == self.done@.len(),
        ensures
            scope_names(self.view()) == self.names@.map_values(|s: String| s@),
    {
        assert(scope_names(self.view()) =~= self.names@.map_values(|s: String| s@));
    }

    fn new() -> (sc: Scope)
        ensures
            sc.wf(),
            sc.view() == Seq::<(Seq<char>, bool)>::empty(),
    {
        let sc = Scope { names: Vec::new(), done: Vec::new() };
        assert(sc.view() =~= Seq::<(Seq<char>, bool)>::empty());
        sc
    }

    fn slot(&self, k: &str) -> (r: Option<usize>)
        requires
            self.wf(),
        ensures
            match r {
                Some(i) => i as int == find(scope_names(self.view()), k@) && i < self.names@.len(),
                None => find(scope_names(self.view()), k@) == -1,
            },
    {
        proof {
            self.lemma_names();
            lemma_find(scope_names(self.view()), k@);
        }
        let ghost names = scope_names(self.view());
        let mut i: usize = 0;
        while i < self.names.len()
            invariant
                i <= self.names@.len(),
                names == self.names@.map_values(|s: String| s@),
                names.len() == self.names@.len(),
                forall|j: int| 0 <= j < i ==> names[j] != k@,
            decreases self.names@.len() - i,
        {
            if same_text(self.names[i].as_str(), k) {
                proof {
                    assert(names[i as int] == self.names@[i as int]@);
                    assert(names[i as int] == k@);
                    lemma_find_first(names, k@, i as int);
                    assert(find(names, k@) == i as int);
                    assert(names == scope_names(self.view()));
                }
                return Some(i);
            }
            i = i + 1;
        }
        None
    }

    fn get(&self, k: &str) -> (r: Option<bool>)
        requires
            self.wf(),
        ensures
            r == scope_get(self.view(), k@),
    {
        match self.slot(k) {
            Some(i) => Some(self.done[i]),
            None => None,
        }
    }

    fn put(&mut self, k: &str, b: bool)
        requires
            old(self).wf(),
        ensures
            final(self).wf(),
            final(self).view() == scope_put(old(self).view(), k@, b),
    {
        proof { lemma_scope_put_distinct(old(self).view(), k@, b); }
        match self.slot(k) {
            Some(i) => {
                self.done.set(i, b);
                proof {
                    self.lemma_names();
                    lemma_find(scope_names(old(self).view()), k@);
                }
                assert(self.view() =~= scope_put(old(self).view(), k@, b));
            }
            None => {
                self.names.push(k.to_owned());
                self.done.push(b);
                assert(self.view() =~= scope_put(old(self).view(), k@, b));
            }
        }
    }
}

/// Finds, for each use of a local variable, how many scopes out it was
/// declared, and reports the misuses that can be seen before running.
pub struct Resolver {
    scopes: Vec<Scope>,
    locals: Vec<(Expr, usize)>,
    current_function: FunctionType,
    current_class: ClassType,
}

impl Resolver {
    /// Every scope is consistent.
    pub closed spec fn wf(&self) -> bool {
        forall|i: int| 0 <= i < self.scopes@.len() ==> #[trigger] self.scopes@[i].wf()
    }

    /// The open scopes, innermost last.
    pub closed spec fn scopes_view(&self) -> Seq<ScopeView> {
        self.scopes@.map_values(|s: Scope| s.view())
    }

    /// The uses of local variables found so far, with their depths.
    pub closed spec fn locals_view(&self) -> Seq<(ExprView, nat)> {
        self.locals@.map_values(|p: (Expr, usize)| (p.0@, p.1 as nat))
    }

    /// What the resolver knows, with the reports of `lox`.
    pub closed spec fn state(&self, lox: Lox) -> Resolution {
        Resolution {
            scopes: self.scopes_view(),
            locals: self.locals_view(),
            fun: self.current_function,
            class: self.current_class,
            reports: lox.reports(),
        }
    }

    /// A resolver at top level, outside any class, with no scope open.
    pub fn new() -> (r: Resolver)
        ensures
            r.wf(),
            forall|lox: Lox| #[trigger] r.state(lox) == (Resolution {
                scopes: Seq::empty(),
                locals: Seq::empty(),
                fun: FunctionType::TopLevel,
                class: ClassType::Outside,
                reports: lox.reports(),
            }),
    {
        let r = Resolver {
            scopes: Vec::new(),
            locals: Vec::new(),
            current_function: FunctionType::TopLevel,
            current_class: ClassType::Outside,
        };
        assert forall|lox: Lox| #[trigger] r.state(lox) == (Resolution {
            scopes: Seq::empty(),
            locals: Seq::empty(),
            fun: FunctionType::TopLevel,
            class: ClassType::Outside,
            reports: lox.reports(),
        }) by {
            assert(r.state(lox).scopes =~= Seq::<ScopeView>::empty());
            assert(r.state(lox).locals =~= Seq::<(ExprView, nat)>::empty());
        }
        r
    }

    /// The uses of local variables found, each with its depth.
    pub fn locals(&self) -> (l: &Vec<(Expr, usize)>)
        ensures
            l@.map_values(|p: (Expr, usize)| (p.0@, p.1 as nat)) == self.locals_view(),
    {
        &self.locals
    }

    fn begin_scope(&mut self)
        requires
            old(self).wf(),
        ensures
            final(self).wf(),
            forall|lox: Lox| #[trigger] final(self).state(lox) == begin_scope(old(self).state(lox)),
    {
        self.scopes.push(Scope::new());
        proof {
            assert forall|lox: Lox| #[trigger] self.state(lox) == begin_scope(old(self).state(lox)) by {
                assert(self.state(lox).scopes =~= old(self).state(lox).scopes.push(Seq::empty()));
            }
        }
    }

    fn end_scope(&mut self)
        requires
            old(self).wf(),
        ensures
            final(self).wf(),
            forall|lox: Lox| #[trigger] final(self).state(lox) == end_scope(old(self).state(lox)),
    {
        let _ = self.scopes.pop();
        proof {
            assert forall|lox: Lox| #[trigger] self.state(lox) == end_scope(old(self).state(lox)) by {
                if old(self).scopes@.len() > 0 {
                    assert(self.state(lox).scopes =~= old(self).state(lox).scopes.drop_last());
                }
            }
        }
    }

    /// Sets the innermost scope's entry for `k`.
    fn put_top(&mut self, k: &str, b: bool)
        requires
            old(self).wf(),
            old(self).scopes@.len() > 0,
        ensures
            final(self).wf(),
            forall|lox: Lox| #[trigger] final(self).state(lox) == with_top(old(self).state(lox),
                scope_put(old(self).state(lox).scopes.last(), k@, b)),
    {
        let mut sc = self.scopes.pop().unwrap();
        sc.put(k, b);
        self.scopes.push(sc);
        proof {
            assert forall|lox: Lox| #[trigger] self.state(lox) == with_top(old(self).state(lox),
                scope_put(old(self).state(lox).scopes.last(), k@, b)) by {
                assert(self.state(lox).scopes =~= old(self).state(lox).scopes.update(
                    old(self).scopes@.len() - 1, scope_put(old(self).state(lox).scopes.last(), k@, b)));
            }
        }
    }

    fn declare(&mut self, interpreter: &mut Lox, name: &Token)
        requires
            old(self).wf(),
        ensures
            final(self).wf(),
            final(self).state(*final(interpreter)) == declare(old(self).state(*old(interpreter)), name@),
            reported_to(*old(interpreter), *final(interpreter)),
    {
        proof { lemma_reported_to_refl(*interpreter); }
        if self.scopes.len() == 0 {
            return;
        }
        let top = self.scopes.len() - 1;
        if self.scopes[top].get(name.get_lexeme()).is_some() {
            interpreter.error(name, "Already a variable with this name in this scope.");
            proof {
                assert(interpreter.reports().subrange(0, old(interpreter).reports().len() as int) =~= old(interpreter).reports());
            }
        }
        self.put_top(name.get_lexeme(), false);
    }

    fn define(&mut self, name: &Token)
        requires
            old(self).wf(),
        ensures
            final(self).wf(),
            forall|lox: Lox| #[trigger] final(self).state(lox) == define(old(self).state(lox), name@),
    {
        if self.scopes.len() == 0 {
            return;
        }
        self.put_top(name.get_lexeme(), true);
    }

    /// How many scopes out from the innermost `k` is declared, if in any.
    fn depth(&self, k: &str) -> (r: Option<usize>)
        requires
            self.wf(),
        ensures
            match r {
                Some(d) => depth_of(self.scopes_view(), k@) == Some(d as nat),
                None => depth_of(self.scopes_view(), k@) is None,
            },
    {
        let ghost scopes = self.scopes_view();
        let n = self.scopes.len();
        let mut depth: usize = 0;
        assert(scopes.subrange(0, n as int) =~= scopes);
        while depth < n
            invariant
                n == self.scopes@.len(),
                scopes == self.scopes_view(),
                self.wf(),
                depth <= n,
                depth_of(scopes, k@) == match depth_of(scopes.subrange(0, n - depth), k@) {
                    Some(d) => Some((d + depth) as nat),
                    None => None::<nat>,
                },
            decreases n - depth,
        {
            let ghost sub = scopes.subrange(0, n - depth);
            assert(sub.last() == self.scopes@[n - 1 - depth].view());
            if self.scopes[n - 1 - depth].get(k).is_some() {
                return Some(depth);
            }
            assert(sub.drop_last() =~= scopes.subrange(0, n - depth - 1));
            depth = depth + 1;
        }
        None
    }

    fn resolve_local(&mut self, e: &Expr, name: &Token)
        requires
            old(self).wf(),
        ensures
            final(self).wf(),
            forall|lox: Lox| #[trigger] final(self).state(lox) == resolve_local(old(self).state(lox), e@, name@),
    {
        match self.depth(name.get_lexeme()) {
            Some(d) => {
                self.locals.push((e.copied(), d));
                proof {
                    assert forall|lox: Lox| #[trigger] self.state(lox) == resolve_local(old(self).state(lox), e@, name@) by {
                        assert(self.locals_view() =~= old(self).locals_view().push((e@, d as nat)));
                    }
                }
            }
            None => {}
        }
    }

    /// Resolves the expression `e`.
    #[verifier::rlimit(100)]
    #[verifier::spinoff_prover]
    pub fn visit_expr(&mut self, interpreter: &mut Lox, e: &Expr)
        requires
            old(self).wf(),
        ensures
            final(self).wf(),
            final(self).state(*final(interpreter)) == res_expr(e@, old(self).state(*old(interpreter))),
            reported_to(*old(interpreter), *final(interpreter)),
        decreases e, 1nat,
    {
        let ghost lox0 = *interpreter;
        let ghost st0 = self.state(*interpreter);
        proof { lemma_reported_to_refl(*interpreter); }
        match e {
            Expr::Variable(name) => {
                if self.scopes.len() > 0 {
                    let top = self.scopes.len() - 1;
                    assert(st0.scopes.last() == self.scopes@[top as int].view());
                    let b = self.scopes[top].get(name.get_lexeme());
                    if let Some(false) = b {
                        interpreter.error(name, "Can't read local variable in its own initializer.");
                        proof {
                            assert(interpreter.reports().subrange(0, lox0.reports().len() as int) =~= lox0.reports());
                        }
                    }
                }
                let ghost lox1 = *interpreter;
                self.resolve_local(e, name);
                assert(self.state(lox1) == resolve_local(report_if(st0,
                    st0.scopes.len() > 0 && scope_get(st0.scopes.last(), name@.lexeme) == Some(false), name@,
                    "Can't read local variable in its own initializer."@), e@, name@));
            }
            Expr::Assign(name, value) => {
                self.visit_expr(interpreter, value);
                let ghost lox1 = *interpreter;
                self.resolve_local(e, name);
                assert(self.state(lox1) == resolve_local(res_expr(value@, st0), e@, name@));
            }
            Expr::Binary(l, _, r) => {
                self.visit_expr(interpreter, l);
                let ghost lox1 = *interpreter;
                self.visit_expr(interpreter, r);
                proof { lemma_reported_to_trans(lox0, lox1, *interpreter); }
            }
            Expr::Call(callee, _, arguments) => {
                self.visit_expr(interpreter, callee);
                let ghost lox1 = *interpreter;
                self.visit_args(interpreter, arguments);
                proof { lemma_reported_to_trans(lox0, lox1, *interpreter); }
            }
            Expr::Get(object, _) => {
                self.visit_expr(interpreter, object);
            }
            Expr::Grouping(inner) => {
                self.visit_expr(interpreter, inner);
            }
            Expr::LiteralExpr(_) => {}
            Expr::Logical(l, _, r) => {
                self.visit_expr(interpreter, l);
                let ghost lox1 = *interpreter;
                self.visit_expr(interpreter, r);
                proof { lemma_reported_to_trans(lox0, lox1, *interpreter); }
            }
            Expr::Unary(_, r) => {
                self.visit_expr(interpreter, r);
            }
            Expr::SetProperty(object, _, value) => {
                self.visit_expr(interpreter, value);
                let ghost lox1 = *interpreter;
                self.visit_expr(interpreter, object);
                proof { lemma_reported_to_trans(lox0, lox1, *interpreter); }
            }
            Expr::Super(keyword, _) => {
                self.resolve_local(e, keyword);
                assert(self.state(lox0) == resolve_local(st0, e@, keyword@));
            }
            Expr::This(keyword) => {
                if self.current_class == ClassType::Outside {
                    interpreter.error(keyword, "Can't use 'this' outside of a class.");
                    proof {
                        assert(interpreter.reports().subrange(0, lox0.reports().len() as int) =~= lox0.reports());
                    }
                }
                let ghost lox1 = *interpreter;
                self.resolve_local(e, keyword);
                assert(self.state(lox1) == resolve_local(report_if(st0, st0.class == ClassType::Outside, keyword@,
                    "Can't use 'this' outside of a class."@), e@, keyword@));
            }
        }
    }

    fn visit_args(&mut self, interpreter: &mut Lox, args: &Vec<Expr>)
        requires
            old(self).wf(),
        ensures
            final(self).wf(),
            final(self).state(*final(interpreter)) == res_args(exprs_view(args@), old(self).state(*old(interpreter))),
            reported_to(*old(interpreter), *final(interpreter)),
        decreases args, 0nat,
    {
        let ghost lox0 = *interpreter;
        let ghost st0 = self.state(*interpreter);
        proof { lemma_reported_to_refl(*interpreter); }
        let mut i: usize = 0;
        assert(args@.subrange(0, 0) =~= Seq::<Expr>::empty());
        while i < args.len()
            invariant
                i <= args.len(),
                self.wf(),
                self.state(*interpreter) == res_args(exprs_view(args@.subrange(0, i as int)), st0),
                reported_to(lox0, *interpreter),
            decreases args.len() - i,
        {
            let ghost lox1 = *interpreter;
            self.visit_expr(interpreter, &args[i]);
            proof {
                lemma_reported_to_trans(lox0, lox1, *interpreter);
                let sub = args@.subrange(0, i + 1);
                assert(sub.drop_last() =~= args@.subrange(0, i as int));
                assert(sub.last() == args@[i as int]);
                assert(exprs_view(sub).drop_last() =~= exprs_view(args@.subrange(0, i as int)));
                assert(exprs_view(sub).last() == args@[i as int]@);
            }
            i = i + 1;
        }
        assert(args@.subrange(0, args.len() as int) =~= args@);
    }

    fn resolve_params(&mut self, interpreter: &mut Lox, params: &Vec<Token>)
        requires
            old(self).wf(),
        ensures
            final(self).wf(),
            final(self).state(*final(interpreter)) == res_params(tokens_view(params@), old(self).state(*old(interpreter))),
            reported_to(*old(interpreter), *final(interpreter)),
    {
        let ghost lox0 = *interpreter;
        let ghost st0 = self.state(*interpreter);
        proof { lemma_reported_to_refl(*interpreter); }
        let mut i: usize = 0;
        assert(tokens_view(params@.subrange(0, 0)) =~= Seq::<TokenView>::empty());
        while i < params.len()
            invariant
                i <= params.len(),
                self.wf(),
                self.state(*interpreter) == res_params(tokens_view(params@.subrange(0, i as int)), st0),
                reported_to(lox0, *interpreter),
            decreases params.len() - i,
        {
            let ghost lox1 = *interpreter;
            self.declare(interpreter, &params[i]);
            let ghost lox2 = *interpreter;
            self.define(&params[i]);
            proof {
                lemma_reported_to_trans(lox0, lox1, *interpreter);
                let sub = tokens_view(params@.subrange(0, i + 1));
                assert(sub.drop_last() =~= tokens_view(params@.subrange(0, i as int)));
            }
            i = i + 1;
        }
        assert(params@.subrange(0, params.len() as int) =~= params@);
    }

    /// Resolves the statement `s`.
    #[verifier::rlimit(100)]
    #[verifier::spinoff_prover]
    pub fn visit_stmt(&mut self, interpreter: &mut Lox, s: &Stmt)
        requires
            old(self).wf(),
            methods_are_functions(s@),
        ensures
            final(self).wf(),
            final(self).state(*final(interpreter)) == res_stmt(s@, old(self).state(*old(interpreter))),
            reported_to(*old(interpreter), *final(interpreter)),
        decreases s, 2nat,
    {
        let ghost lox0 = *interpreter;
        let ghost st0 = self.state(*interpreter);
        proof { lemma_reported_to_refl(*interpreter); }
        match s {
            Stmt::Block(statements) => {
                self.begin_scope();
                self.visit_stmts(interpreter, statements);
                let ghost lox1 = *interpreter;
                self.end_scope();
                assert(self.state(lox1) == end_scope(res_stmts(stmts_view(statements@), begin_scope(st0))));
            }
            Stmt::Class(..) => {
                self.visit_class(interpreter, s);
            }
            Stmt::Var(name, initializer) => {
                self.declare(interpreter, name);
                let ghost lox1 = *interpreter;
                if let Expr::LiteralExpr(Literal::Nil) = initializer {
                    proof { lemma_reported_to_refl(*interpreter); }
                } else {
                    self.visit_expr(interpreter, initializer);
                }
                let ghost lox2 = *interpreter;
                proof { lemma_reported_to_trans(lox0, lox1, *interpreter); }
                self.define(name);
                assert(self.state(lox2) == define(
                    if initializer@ != ExprView::LiteralExpr(LiteralView::Nil) {
                        res_expr(initializer@, declare(st0, name@))
                    } else {
                        declare(st0, name@)
                    }, name@));
            }
            Stmt::Function(name, _, _) => {
                self.declare(interpreter, name);
                let ghost lox1 = *interpreter;
                self.define(name);
                assert(self.state(lox1) == define(declare(st0, name@), name@));
                self.resolve_function(interpreter, s, FunctionType::Func);
                proof { lemma_reported_to_trans(lox0, lox1, *interpreter); }
            }
            Stmt::Expression(exp) => {
                self.visit_expr(interpreter, exp);
            }
            Stmt::If(cond, then_branch, else_branch) => {
                self.visit_expr(interpreter, cond);
                let ghost lox1 = *interpreter;
                self.visit_stmt(interpreter, then_branch);
                proof { lemma_reported_to_trans(lox0, lox1, *interpreter); }
                let ghost lox2 = *interpreter;
                match else_branch {
                    Some(b) => {
                        self.visit_stmt(interpreter, b);
                        proof { lemma_reported_to_trans(lox0, lox2, *interpreter); }
                    }
                    None => {}
                }
            }
            Stmt::Print(exp) => {
                self.visit_expr(interpreter, exp);
            }
            Stmt::Return(keyword, value) => {
                if self.current_function == FunctionType::TopLevel {
                    interpreter.error(keyword, "Can't return from top-level code.");
                    proof {
                        assert(interpreter.reports().subrange(0, lox0.reports().len() as int) =~= lox0.reports());
                    }
                }
                let ghost lox1 = *interpreter;
                if let Expr::LiteralExpr(Literal::Nil) = value {
                } else {
                    if self.current_function == FunctionType::Initializer {
                        interpreter.error(keyword, "Can't return a value from an initializer.");
                        proof {
                            assert(interpreter.reports().subrange(0, lox1.reports().len() as int) =~= lox1.reports());
                            lemma_reported_to_trans(lox0, lox1, *interpreter);
                        }
                    }
                    let ghost lox2 = *interpreter;
                    self.visit_expr(interpreter, value);
                    proof { lemma_reported_to_trans(lox0, lox2, *interpreter); }
                }
            }
            Stmt::While(cond, body) => {
                self.visit_expr(interpreter, cond);
                let ghost lox1 = *interpreter;
                self.visit_stmt(interpreter, body);
                proof { lemma_reported_to_trans(lox0, lox1, *interpreter); }
            }
        }
    }

    #[verifier::rlimit(100)]
    #[verifier::spinoff_prover]
    fn visit_class(&mut self, interpreter: &mut Lox, s: &Stmt)
        requires
            old(self).wf(),
            s is Class,
            methods_are_functions(s@),
        ensures
            final(self).wf(),
            final(self).state(*final(interpreter)) == res_stmt(s@, old(self).state(*old(interpreter))),
            reported_to(*old(interpreter), *final(interpreter)),
        decreases s, 1nat,
    {
        let ghost lox0 = *interpreter;
        let ghost st0 = self.state(*interpreter);
        match s {
            Stmt::Class(name, _, methods) => {
                let enclosing_class = self.current_class;
                self.current_class = ClassType::Class;
                let ghost st1 = self.state(*interpreter);
                assert(st1 == Resolution { class: ClassType::Class, ..st0 });
                self.declare(interpreter, name);
                let ghost lox1 = *interpreter;
                self.define(name);
                self.begin_scope();
                let ghost st2 = self.state(lox1);
                assert(st2 == begin_scope(define(declare(st1, name@), name@)));
                self.put_top("this", true);
                let ghost st3 = self.state(lox1);
                assert(st3 == with_top(st2, scope_put(st2.scopes.last(), "this"@, true)));
                proof {
                    lemma_stmts_view_len(methods@);
                    lemma_all_methods(stmts_view(methods@));
                    assert forall|j: int| 0 <= j < methods@.len() implies #[trigger] methods_are_functions(methods@[j]@) by {
                        assert(stmts_view(methods@)[j] == methods@[j]@);
                    }
                    assert forall|j: int| 0 <= j < methods@.len() implies #[trigger] methods@[j]@ is Function by {
                        assert(stmts_view(methods@)[j] == methods@[j]@);
                    }
                }
                self.visit_methods(interpreter, methods);
                let ghost lox2 = *interpreter;
                assert(self.state(lox2) == res_methods(stmts_view(methods@), st3));
                self.end_scope();
                assert(self.state(lox2) == end_scope(res_methods(stmts_view(methods@), st3)));
                self.current_class = enclosing_class;
                proof { lemma_reported_to_trans(lox0, lox1, *interpreter); }
                assert(self.state(lox2) == Resolution {
                    class: st0.class,
                    ..end_scope(res_methods(stmts_view(methods@), st3))
                });
            }
            _ => {
                proof { assert(false); }
            }
        }
    }

    fn resolve_function(&mut self, interpreter: &mut Lox, f: &Stmt, kind: FunctionType)
        requires
            old(self).wf(),
            f@ is Function,
            methods_are_functions(f@),
        ensures
            final(self).wf(),
            final(self).state(*final(interpreter)) == res_function(f@, kind, old(self).state(*old(interpreter))),
            reported_to(*old(interpreter), *final(interpreter)),
        decreases f, 1nat,
    {
        let ghost lox0 = *interpreter;
        let ghost st0 = self.state(*interpreter);
        match f {
            Stmt::Function(_, params, body) => {
                let enclosing_fun = self.current_function;
                self.current_function = kind;
                self.begin_scope();
                let ghost st1 = self.state(*interpreter);
                assert(st1 == begin_scope(Resolution { fun: kind, ..st0 }));
                self.resolve_params(interpreter, params);
                let ghost lox1 = *interpreter;
                proof {
                    assert(all_methods_are_functions(stmts_view(body@)));
                }
                self.visit_stmts(interpreter, body);
                let ghost lox2 = *interpreter;
                assert(self.state(lox2) == res_stmts(stmts_view(body@), res_params(tokens_view(params@), st1)));
                self.end_scope();
                assert(self.state(lox2) == end_scope(res_stmts(stmts_view(body@), res_params(tokens_view(params@), st1))));
                self.current_function = enclosing_fun;
                proof { lemma_reported_to_trans(lox0, lox1, *interpreter); }
                assert(self.state(lox2) == Resolution {
                    fun: st0.fun,
                    ..end_scope(res_stmts(stmts_view(body@), res_params(tokens_view(params@), st1)))
                });
            }
            _ => {
                proof { assert(false); }
            }
        }
    }

    fn visit_stmts(&mut self, interpreter: &mut Lox, v: &Vec<Stmt>)
        requires
            old(self).wf(),
            all_methods_are_functions(stmts_view(v@)),
        ensures
            final(self).wf(),
            final(self).state(*final(interpreter)) == res_stmts(stmts_view(v@), old(self).state(*old(interpreter))),
            reported_to(*old(interpreter), *final(interpreter)),
        decreases v, 0nat,
    {
        let ghost lox0 = *interpreter;
        let ghost st0 = self.state(*interpreter);
        proof {
            lemma_reported_to_refl(*interpreter);
            lemma_stmts_view_len(v@);
            lemma_all_methods(stmts_view(v@));
            assert forall|j: int| 0 <= j < v@.len() implies #[trigger] methods_are_functions(v@[j]@) by {
                assert(stmts_view(v@)[j] == v@[j]@);
            }
        }
        let mut i: usize = 0;
        assert(v@.subrange(0, 0) =~= Seq::<Stmt>::empty());
        while i < v.len()
            invariant
                i <= v.len(),
                self.wf(),
                forall|j: int| 0 <= j < v@.len() ==> #[trigger] methods_are_functions(v@[j]@),
                self.state(*interpreter) == res_stmts(stmts_view(v@.subrange(0, i as int)), st0),
                reported_to(lox0, *interpreter),
            decreases v.len() - i,
        {
            let ghost lox1 = *interpreter;
            assert(methods_are_functions(v@[i as int]@));
            self.visit_stmt(interpreter, &v[i]);
            proof {
                lemma_reported_to_trans(lox0, lox1, *interpreter);
                let sub = v@.subrange(0, i + 1);
                assert(sub.drop_last() =~= v@.subrange(0, i as int));
                assert(sub.last() == v@[i as int]);
                assert(stmts_view(sub).drop_last() =~= stmts_view(v@.subrange(0, i as int)));
                assert(stmts_view(sub).last() == v@[i as int]@);
            }
            i = i + 1;
        }
        assert(v@.subrange(0, v.len() as int) =~= v@);
    }

    fn visit_methods(&mut self, interpreter: &mut Lox, v: &Vec<Stmt>)
        requires
            old(self).wf(),
            forall|j: int| 0 <= j < v@.len() ==> #[trigger] v@[j]@ is Function,
            forall|j: int| 0 <= j < v@.len() ==> #[trigger] methods_are_functions(v@[j]@),
        ensures
            final(self).wf(),
            final(self).state(*final(interpreter)) == res_methods(stmts_view(v@), old(self).state(*old(interpreter))),
            reported_to(*old(interpreter), *final(interpreter)),
        decreases v, 0nat,
    {
        let ghost lox0 = *interpreter;
        let ghost st0 = self.state(*interpreter);
        proof { lemma_reported_to_refl(*interpreter); }
        let mut i: usize = 0;
        assert(v@.subrange(0, 0) =~= Seq::<Stmt>::empty());
        while i < v.len()
            invariant
                i <= v.len(),
                self.wf(),
                forall|j: int| 0 <= j < v@.len() ==> #[trigger] v@[j]@ is Function,
                forall|j: int| 0 <= j < v@.len() ==> #[trigger] methods_are_functions(v@[j]@),
                self.state(*interpreter) == res_methods(stmts_view(v@.subrange(0, i as int)), st0),
                reported_to(lox0, *interpreter),
            decreases v.len() - i,
        {
            let ghost lox1 = *interpreter;
            let kind = match &v[i] {
                Stmt::Function(name, _, _) => {
                    proof { reveal_strlit("init"); }
                    if same_text(name.get_lexeme(), "init") {
                        FunctionType::Initializer
                    } else {
                        FunctionType::Method
                    }
                }
                _ => FunctionType::Method,
            };
            assert(kind == method_kind(v@[i as int]@));
            self.resolve_function(interpreter, &v[i], kind);
            proof {
                lemma_reported_to_trans(lox0, lox1, *interpreter);
                let sub = v@.subrange(0, i + 1);
                assert(sub.drop_last() =~= v@.subrange(0, i as int));
                assert(sub.last() == v@[i as int]);
                assert(stmts_view(sub).drop_last() =~= stmts_view(v@.subrange(0, i as int)));
                assert(stmts_view(sub).last() == v@[i as int]@);
            }
            i = i + 1;
        }
        assert(v@.subrange(0, v.len() as int) =~= v@);
    }

    /// Resolves each statement of a parsed program, first to last; every one
    /// must be present (the program parsed without error).
    pub fn resolve_optional_stmts(&mut self, interpreter: &mut Lox, statements: &Vec<Option<Stmt>>)
        requires
            old(self).wf(),
            forall|i: int| 0 <= i < statements@.len() ==> #[trigger] statements@[i] is Some,
            all_methods_are_functions(present_views(statements@)),
        ensures
            final(self).wf(),
            final(self).state(*final(interpreter)) == res_stmts(present_views(statements@), old(self).state(*old(interpreter))),
            reported_to(*old(interpreter), *final(interpreter)),
    {
        let ghost lox0 = *interpreter;
        let ghost st0 = self.state(*interpreter);
        let ghost all = present_views(statements@);
        proof {
            lemma_reported_to_refl(*interpreter);
            lemma_all_methods(all);
        }
        let mut i: usize = 0;
        while i < statements.len()
            invariant
                i <= statements.len(),
                self.wf(),
                all == present_views(statements@),
                forall|j: int| 0 <= j < statements@.len() ==> #[trigger] statements@[j] is Some,
                forall|j: int| 0 <= j < all.len() ==> #[trigger] methods_are_functions(all[j]),
                self.state(*interpreter) == res_stmts(all.subrange(0, i as int), st0),
                reported_to(lox0, *interpreter),
            decreases statements.len() - i,
        {
            let ghost lox1 = *interpreter;
            assert(statements@[i as int] is Some);
            match &statements[i] {
                Some(st) => {
                    assert(all[i as int] == st@);
                    self.visit_stmt(interpreter, st);
                }
                None => {}
            }
            proof {
                lemma_reported_to_trans(lox0, lox1, *interpreter);
                let sub = all.subrange(0, i + 1);
                assert(sub.drop_last() =~= all.subrange(0, i as int));
            }
            i = i + 1;
        }
        assert(all.subrange(0, statements.len() as int) =~= all);
    }

}

} // verus!
