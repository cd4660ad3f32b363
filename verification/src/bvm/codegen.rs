//! What the bytecode compiler computes, as functions on its state: every
//! step of the single pass (reading a token, reporting an error, emitting a
//! byte, parsing an expression or a statement) maps one state to the next.
use vstd::prelude::*;
use crate::bvm::chunk::{op_byte, OpCode};
use crate::bvm::compiler::{next_precedence, rank, rule_of, Handler, Precedence};
use crate::bvm::emit::{Constant, Compiler, FunType, Function, Local, UpvalueRef};
use crate::bvm::scanner::scan_next;
use crate::bvm::token::{Token, TokenType};
use crate::lexer::token::is_number_text;
use crate::report::compile_report_text;
use crate::text::decimal;

verus! {

/// A compiled function: name, parameters, captures, bytecode, lines and constants.
#[verifier::ext_equal]
pub struct FunView {
    pub name: Seq<char>,
    pub arity: nat,
    pub upvalue_count: nat,
    pub code: Seq<u8>,
    pub lines: Seq<isize>,
    pub consts: Seq<ConstView>,
}

/// A constant: a number by its text, a string, or a compiled function.
pub enum ConstView {
    Number(Seq<char>),
    Str(Seq<char>),
    Function(FunView),
}

/// The state kept for one function being compiled.
#[verifier::ext_equal]
pub struct FrameView {
    pub fun: FunView,
    pub kind: FunType,
    pub locals: Seq<Local>,
    pub upvalues: Seq<UpvalueRef>,
    pub depth: int,
}

/// The whole state of the compiler: the text and where the scanner is in it,
/// the look-ahead and previous tokens, the error flags, the function being
/// compiled and those around it, and the reports made so far.
#[verifier::ext_equal]
pub struct CState {
    pub text: Seq<char>,
    pub pos: int,
    pub line: int,
    pub current: Token,
    pub previous: Token,
    pub had_error: bool,
    pub panic: bool,
    pub frame: FrameView,
    pub enclosing: Seq<FrameView>,
    pub reports: Seq<Seq<char>>,
}

pub open spec fn const_view(c: Constant) -> ConstView
    decreases c,
{
    match c {
        Constant::Number(n) => ConstView::Number(n.spec_text()),
        Constant::Str(s) => ConstView::Str(s@),
        Constant::Function(b) => ConstView::Function(fun_view(*b)),
    }
}

/// The view of a compiled function.
pub open spec fn fun_view(f: Function) -> FunView
    decreases f,
{
    FunView {
        name: f.name@,
        arity: f.arity as nat,
        upvalue_count: f.upvalue_count as nat,
        code: f.chunk.code@,
        lines: f.chunk.lines@,
        consts: consts_view(f.chunk.constants@),
    }
}

pub open spec fn consts_view(cs: Seq<Constant>) -> Seq<ConstView>
    decreases cs,
{
    if cs.len() == 0 {
        Seq::empty()
    } else {
        consts_view(cs.drop_last()).push(const_view(cs.last()))
    }
}

pub proof fn lemma_consts_view_len(cs: Seq<Constant>)
    ensures
        consts_view(cs).len() == cs.len(),
    decreases cs.len(),
{
    if cs.len() > 0 {
        lemma_consts_view_len(cs.drop_last());
    }
}

pub open spec fn frame_view(c: Compiler) -> FrameView {
    FrameView {
        fun: fun_view(c.function),
        kind: c.kind,
        locals: c.locals@,
        upvalues: c.upvalues@,
        depth: c.scope_depth as int,
    }
}

pub open spec fn frames_view(cs: Seq<Compiler>) -> Seq<FrameView> {
    cs.map_values(|c: Compiler| frame_view(c))
}

// ---------------------------------------------------------------------------
// Steps that are not recursive.
// ---------------------------------------------------------------------------

/// What is left to read: the characters after the scanner, and one more
/// while the look-ahead token is not the end of file.
pub open spec fn mes(s: CState) -> nat {
    ((s.text.len() - s.pos) + if s.current.kind == TokenType::EoF { 0int } else { 1int }) as nat
}

/// The text a token spans, cut at the end of `text`.
pub open spec fn lexeme_of(text: Seq<char>, t: Token) -> Seq<char> {
    let len = text.len() as int;
    let b = if (t.start as int) < len { t.start as int } else { len };
    let e = if t.start + t.length < len { t.start + t.length } else { len };
    text.subrange(b, e)
}

/// Two tokens name the same identifier: same length, same text.
pub open spec fn same_ident(text: Seq<char>, a: Token, b: Token) -> bool {
    a.length == b.length && lexeme_of(text, a) == lexeme_of(text, b)
}

pub open spec fn with_fun(s: CState, f: FunView) -> CState {
    CState { frame: FrameView { fun: f, ..s.frame }, ..s }
}

/// Appends byte `b`, from the line of the previous token.
#[verifier::opaque]
pub open spec fn emit(s: CState, b: u8) -> CState {
    with_fun(s, FunView { code: s.frame.fun.code.push(b), lines: s.frame.fun.lines.push(s.previous.line), ..s.frame.fun })
}

#[verifier::opaque]
pub open spec fn emit_op(s: CState, op: OpCode) -> CState {
    emit(s, op_byte(op))
}

#[verifier::opaque]
pub open spec fn emit_op_byte(s: CState, op: OpCode, b: u8) -> CState {
    emit(emit_op(s, op), b)
}

#[verifier::opaque]
pub open spec fn emit_return(s: CState) -> CState {
    emit_op(emit_op(s, OpCode::Nil), OpCode::Return)
}

/// Where an error at `t` is said to be: at the end, nowhere for a scanning
/// error, or at the look-ahead token's text.
pub open spec fn place_of(s: CState, t: Token) -> Seq<char> {
    if t.kind == TokenType::EoF {
        " at end"@
    } else if t.kind == TokenType::Error {
        ""@
    } else {
        " at '"@ + lexeme_of(s.text, s.current) + "'"@
    }
}

/// Reports `msg` at `t`, unless an error of the same statement was reported.
#[verifier::opaque]
pub open spec fn err_at(s: CState, t: Token, msg: Seq<char>) -> CState {
    if s.panic {
        s
    } else {
        CState {
            panic: true,
            had_error: true,
            reports: s.reports.push(compile_report_text(t.line as int, place_of(s, t), msg)),
            ..s
        }
    }
}

#[verifier::opaque]
pub open spec fn err(s: CState, msg: Seq<char>) -> CState {
    err_at(s, s.previous, msg)
}

#[verifier::opaque]
pub open spec fn err_cur(s: CState, msg: Seq<char>) -> CState {
    err_at(s, s.current, msg)
}


/// Reporting an error does not move the scanner.
pub proof fn lemma_err_at_keeps(s: CState, t: Token, msg: Seq<char>)
    ensures
        err_at(s, t, msg).pos == s.pos,
        err_at(s, t, msg).text == s.text,
        err_at(s, t, msg).current == s.current,
{
    reveal(err_at);
}

pub proof fn lemma_mes_emit_op(s: CState, op: OpCode)
    ensures
        mes(emit_op(s, op)) == mes(s),
{
    reveal(emit_op);
    reveal(emit);
}

pub proof fn lemma_mes_emit_jump(s: CState, op: OpCode)
    ensures
        mes(emit_jump(s, op).0) == mes(s),
{
    reveal(emit_jump);
    reveal(emit_op);
    reveal(emit);
}

pub proof fn lemma_mes_patch_jump(s: CState, offset: int)
    ensures
        mes(patch_jump(s, offset)) == mes(s),
{
    reveal(patch_jump);
    reveal(err);
    reveal(err_at);
}

pub proof fn lemma_mes_begin_scope(s: CState)
    ensures
        mes(begin_scope(s)) == mes(s),
{
    reveal(begin_scope);
}

/// Reads tokens until one is not an error, reporting the errors.
#[verifier::opaque]
pub open spec fn scan(s: CState) -> CState
    decreases s.text.len() - s.pos,
{
    let x = scan_next(s.text, s.pos, s.line);
    let s1 = CState { pos: x.next, line: x.line, ..s };
    match x.outcome {
        Ok(t) => CState { current: t, ..s1 },
        Err(e) => if s.pos < x.next <= s.text.len() {
            proof { lemma_err_at_keeps(s1, s.current, e.1); }
            scan(err_at(s1, s.current, e.1))
        } else {
            s1
        },
    }
}

/// Moves to the next token.
#[verifier::opaque]
pub open spec fn advance(s: CState) -> CState {
    scan(CState { previous: s.current, ..s })
}

pub open spec fn check(s: CState, k: TokenType) -> bool {
    s.current.kind == k
}

#[verifier::opaque]
pub open spec fn fit(s: CState, k: TokenType) -> (CState, bool) {
    if check(s, k) { (advance(s), true) } else { (s, false) }
}

#[verifier::opaque]
pub open spec fn consume(s: CState, k: TokenType, msg: Seq<char>) -> CState {
    if check(s, k) { advance(s) } else { err_cur(s, msg) }
}

pub open spec fn frame_at(s: CState, level: int) -> FrameView {
    if level == s.enclosing.len() { s.frame } else { s.enclosing[level] }
}

pub open spec fn with_frame_at(s: CState, level: int, f: FrameView) -> CState {
    if level == s.enclosing.len() {
        CState { frame: f, ..s }
    } else {
        CState { enclosing: s.enclosing.update(level, f), ..s }
    }
}

/// The last of the first `i` locals named like `name`, or -1.
pub open spec fn find_local(text: Seq<char>, ls: Seq<Local>, name: Token, i: int) -> int
    decreases i,
{
    if i <= 0 {
        -1
    } else if same_ident(text, name, ls[i - 1].name) {
        i - 1
    } else {
        find_local(text, ls, name, i - 1)
    }
}

/// The local of level `level` named like `name` (the innermost), or -1; a
/// local read in its own initializer is reported.
#[verifier::opaque]
pub open spec fn resolve_local_at(s: CState, level: int, name: Token) -> (CState, int) {
    let ls = frame_at(s, level).locals;
    let r = find_local(s.text, ls, name, ls.len() as int);
    if r >= 0 && ls[r].depth == -1 {
        (err(s, "Can't read local variable in its own initializer."@), r)
    } else {
        (s, r)
    }
}

/// The first of the upvalues from `i` on that refers to `index` as `is_local`, or -1.
pub open spec fn find_upvalue(ups: Seq<UpvalueRef>, index: u8, is_local: bool, i: int) -> int
    decreases ups.len() - i,
{
    if i < 0 || i >= ups.len() {
        -1
    } else if ups[i].index == index && ups[i].is_local == is_local {
        i
    } else {
        find_upvalue(ups, index, is_local, i + 1)
    }
}

/// The upvalue of level `level` for `index`, added when new; a 257th one is
/// reported and gives 0.
#[verifier::opaque]
pub open spec fn add_upvalue_at(s: CState, level: int, index: u8, is_local: bool) -> (CState, int) {
    let f = frame_at(s, level);
    let j = find_upvalue(f.upvalues, index, is_local, 0);
    if j >= 0 {
        (s, j)
    } else if f.upvalues.len() == 256 {
        (err(s, "Too many closure variables in function."@), 0)
    } else {
        (with_frame_at(s, level, FrameView { upvalues: f.upvalues.push(UpvalueRef { index, is_local }), ..f }),
            f.upvalues.len() as int)
    }
}

/// Marks slot `index` of level `level` as captured.
#[verifier::opaque]
pub open spec fn set_captured(s: CState, level: int, index: int) -> CState {
    let f = frame_at(s, level);
    with_frame_at(s, level, FrameView { locals: f.locals.update(index, Local { is_captured: true, ..f.locals[index] }), ..f })
}

/// Resolves `name` as a variable captured from the levels outside `level`.
#[verifier::opaque]
pub open spec fn resolve_upvalue(s: CState, level: int, name: Token) -> (CState, int)
    decreases level,
{
    if level <= 0 {
        (s, -1)
    } else {
        let (s1, local) = resolve_local_at(s, level - 1, name);
        if local != -1 {
            add_upvalue_at(set_captured(s1, level - 1, local), level, local as u8, true)
        } else {
            let (s2, up) = resolve_upvalue(s1, level - 1, name);
            if up != -1 {
                add_upvalue_at(s2, level, up as u8, false)
            } else {
                (s2, -1)
            }
        }
    }
}

#[verifier::opaque]
pub open spec fn add_local(s: CState, name: Token) -> CState {
    if s.frame.locals.len() >= 256 {
        err(s, "Too many local variables in function. Current variable count: "@ + decimal(s.frame.locals.len()) + "."@)
    } else {
        CState { frame: FrameView { locals: s.frame.locals.push(Local { name, depth: -1isize, is_captured: false }), ..s.frame }, ..s }
    }
}

/// Whether one of the first `i` locals, in the scope at `depth`, is named like `name`.
pub open spec fn declared_in_scope(text: Seq<char>, ls: Seq<Local>, depth: int, name: Token, i: int) -> bool
    decreases i,
{
    if i <= 0 {
        false
    } else if ls[i - 1].depth != -1 && ls[i - 1].depth < depth {
        false
    } else if same_ident(text, name, ls[i - 1].name) {
        true
    } else {
        declared_in_scope(text, ls, depth, name, i - 1)
    }
}

/// Declares the variable named by the previous token (nothing at top level).
#[verifier::opaque]
pub open spec fn declare_variable(s: CState) -> CState {
    if s.frame.depth == 0 {
        s
    } else {
        let name = s.previous;
        let s1 = if declared_in_scope(s.text, s.frame.locals, s.frame.depth, name, s.frame.locals.len() as int) {
            err(s, "Already a variable with this name '"@ + lexeme_of(s.text, name) + "' in this scope (current depth: "@
                + decimal(s.frame.depth as nat) + ")."@)
        } else {
            s
        };
        add_local(s1, name)
    }
}

#[verifier::opaque]
pub open spec fn mark_initialized(s: CState) -> CState {
    if s.frame.depth == 0 || s.frame.locals.len() == 0 {
        s
    } else {
        let last = s.frame.locals.len() - 1;
        CState {
            frame: FrameView {
                locals: s.frame.locals.update(last, Local { depth: s.frame.depth as isize, ..s.frame.locals[last] }),
                ..s.frame
            },
            ..s
        }
    }
}

/// Adds constant `c`; past 256 constants, reports and gives 0.
#[verifier::opaque]
pub open spec fn make_constant(s: CState, c: ConstView) -> (CState, u8) {
    let n = s.frame.fun.consts.len();
    let s1 = with_fun(s, FunView { consts: s.frame.fun.consts.push(c), ..s.frame.fun });
    if n > 255 {
        (err(s1, "Too many constants in one chunk."@), 0)
    } else {
        (s1, n as u8)
    }
}

#[verifier::opaque]
pub open spec fn emit_constant(s: CState, c: ConstView) -> CState {
    let (s1, i) = make_constant(s, c);
    emit_op_byte(s1, OpCode::Constant, i)
}

#[verifier::opaque]
pub open spec fn identifier_constant(s: CState, t: Token) -> (CState, u8) {
    make_constant(s, ConstView::Str(lexeme_of(s.text, t)))
}

#[verifier::opaque]
pub open spec fn define_variable(s: CState, global: u8) -> CState {
    if s.frame.depth > 0 {
        mark_initialized(s)
    } else {
        emit_op_byte(s, OpCode::DefineGlobal, global)
    }
}

#[verifier::opaque]
pub open spec fn parse_variable(s: CState, msg: Seq<char>) -> (CState, u8) {
    let s2 = declare_variable(consume(s, TokenType::Identifier, msg));
    if s2.frame.depth > 0 {
        (s2, 0)
    } else {
        identifier_constant(s2, s2.previous)
    }
}

#[verifier::opaque]
pub open spec fn begin_scope(s: CState) -> CState {
    CState { frame: FrameView { depth: s.frame.depth + 1, ..s.frame }, ..s }
}

/// Drops the locals deeper than the current depth, innermost first.
#[verifier::opaque]
pub open spec fn pop_locals(s: CState) -> CState
    decreases s.frame.locals.len(),
{
    let ls = s.frame.locals;
    if ls.len() > 0 && ls.last().depth > s.frame.depth {
        let s1 = emit_op(s, if ls.last().is_captured { OpCode::CloseUpvalue } else { OpCode::Pop });
        pop_locals(CState { frame: FrameView { locals: ls.drop_last(), ..s1.frame }, ..s1 })
    } else {
        s
    }
}

#[verifier::opaque]
pub open spec fn end_scope(s: CState) -> CState {
    pop_locals(CState { frame: FrameView { depth: s.frame.depth - 1, ..s.frame }, ..s })
}

/// A jump with a placeholder distance, and the place of that distance.
#[verifier::opaque]
pub open spec fn emit_jump(s: CState, op: OpCode) -> (CState, int) {
    (emit(emit(emit_op(s, op), 255u8), 255u8), s.frame.fun.code.len() + 1int)
}

pub open spec fn hi_byte(n: int) -> u8 {
    ((n / 256) % 256) as u8
}

pub open spec fn lo_byte(n: int) -> u8 {
    (n % 256) as u8
}

/// Writes at `offset` the big-endian distance to the end of the code.
#[verifier::opaque]
pub open spec fn patch_jump(s: CState, offset: int) -> CState {
    let jump = s.frame.fun.code.len() - offset - 2;
    let s1 = if jump > 65535 { err(s, "Too much code to jump over."@) } else { s };
    with_fun(s1, FunView {
        code: s1.frame.fun.code.update(offset, hi_byte(jump)).update(offset + 1, lo_byte(jump)),
        ..s1.frame.fun
    })
}

/// A backward jump to `start`.
#[verifier::opaque]
pub open spec fn emit_loop(s: CState, start: int) -> CState {
    let s1 = emit_op(s, OpCode::Loop);
    let distance = s1.frame.fun.code.len() - start + 2;
    let s2 = if distance > 65535 { err(s1, "Loop body too large."@) } else { s1 };
    emit(emit(s2, hi_byte(distance)), lo_byte(distance))
}

/// Ends the function being compiled: its closing return, and back to the
/// function around it; gives the finished function and its captures.
#[verifier::opaque]
pub open spec fn end_function(s: CState) -> (CState, FunView, Seq<UpvalueRef>) {
    let s1 = emit_return(s);
    let f = s1.frame;
    (CState { frame: s1.enclosing.last(), enclosing: s1.enclosing.drop_last(), ..s1 },
        FunView { upvalue_count: f.upvalues.len(), ..f.fun },
        f.upvalues)
}

/// The operand pairs of a `Closure` instruction, from capture `i` on.
#[verifier::opaque]
pub open spec fn emit_captures(s: CState, ups: Seq<UpvalueRef>, i: int) -> CState
    decreases ups.len() - i,
{
    if i < 0 || i >= ups.len() {
        s
    } else {
        emit_captures(emit(emit(s, if ups[i].is_local { 1u8 } else { 0u8 }), ups[i].index), ups, i + 1)
    }
}

/// The slot every function keeps for itself.
pub open spec fn self_slot() -> Local {
    Local { name: Token { kind: TokenType::Identifier, start: 0usize, length: 0usize, line: -1isize }, depth: 0isize, is_captured: false }
}

/// The state of a new function of kind `kind` named `name`.
pub open spec fn new_frame(name: Seq<char>, kind: FunType) -> FrameView {
    FrameView {
        fun: FunView { name, arity: 0, upvalue_count: 0, code: Seq::empty(), lines: Seq::empty(), consts: Seq::empty() },
        kind,
        locals: seq![self_slot()],
        upvalues: Seq::empty(),
        depth: 0,
    }
}

/// The operator bytes of a binary operator.
#[verifier::opaque]
pub open spec fn binary_ops(s: CState, op: TokenType) -> CState {
    if op == TokenType::BangEqual {
        emit_op(emit_op(s, OpCode::Equal), OpCode::Not)
    } else if op == TokenType::EqualEqual {
        emit_op(s, OpCode::Equal)
    } else if op == TokenType::Greater {
        emit_op(s, OpCode::Greater)
    } else if op == TokenType::GreaterEqual {
        emit_op(emit_op(s, OpCode::Less), OpCode::Not)
    } else if op == TokenType::Less {
        emit_op(s, OpCode::Less)
    } else if op == TokenType::LessEqual {
        emit_op(emit_op(s, OpCode::Greater), OpCode::Not)
    } else if op == TokenType::Plus {
        emit_op(s, OpCode::Add)
    } else if op == TokenType::Minus {
        emit_op(s, OpCode::Subtract)
    } else if op == TokenType::Star {
        emit_op(s, OpCode::Multiply)
    } else {
        emit_op(s, OpCode::Divide)
    }
}

/// The operators that `binary_ops` compiles.
pub open spec fn is_binary_operator(op: TokenType) -> bool {
    op == TokenType::BangEqual || op == TokenType::EqualEqual || op == TokenType::Greater
        || op == TokenType::GreaterEqual || op == TokenType::Less || op == TokenType::LessEqual
        || op == TokenType::Plus || op == TokenType::Minus || op == TokenType::Star || op == TokenType::Slash
}

/// How the binary operators compile. `a <= b` is the negation of `a > b`,
/// `a >= b` the negation of `a < b` and `a != b` the negation of `a == b`;
/// `>`, `<` and `==` append their own instruction, and each arithmetic
/// operator appends the instruction of the same name. The operand code is
/// kept, and no two operators append the same bytes.
pub proof fn law_binary_operators(s: CState)
    ensures
        binary_ops(s, TokenType::LessEqual) == emit_op(binary_ops(s, TokenType::Greater), OpCode::Not),
        binary_ops(s, TokenType::GreaterEqual) == emit_op(binary_ops(s, TokenType::Less), OpCode::Not),
        binary_ops(s, TokenType::BangEqual) == emit_op(binary_ops(s, TokenType::EqualEqual), OpCode::Not),
        binary_ops(s, TokenType::Greater) == emit_op(s, OpCode::Greater),
        binary_ops(s, TokenType::Less) == emit_op(s, OpCode::Less),
        binary_ops(s, TokenType::EqualEqual) == emit_op(s, OpCode::Equal),
        binary_ops(s, TokenType::Plus) == emit_op(s, OpCode::Add),
        binary_ops(s, TokenType::Minus) == emit_op(s, OpCode::Subtract),
        binary_ops(s, TokenType::Star) == emit_op(s, OpCode::Multiply),
        binary_ops(s, TokenType::Slash) == emit_op(s, OpCode::Divide),
        binary_ops(s, TokenType::LessEqual).frame.fun.code
            == s.frame.fun.code.push(op_byte(OpCode::Greater)).push(op_byte(OpCode::Not)),
        binary_ops(s, TokenType::GreaterEqual).frame.fun.code
            == s.frame.fun.code.push(op_byte(OpCode::Less)).push(op_byte(OpCode::Not)),
        forall|op1: TokenType, op2: TokenType|
            is_binary_operator(op1) && is_binary_operator(op2) && op1 != op2
                ==> #[trigger] binary_ops(s, op1).frame.fun.code != #[trigger] binary_ops(s, op2).frame.fun.code,
        forall|op: TokenType| is_binary_operator(op) ==>
            (#[trigger] binary_ops(s, op)).frame.fun.code.subrange(0, s.frame.fun.code.len() as int) == s.frame.fun.code,
{
    reveal(binary_ops);
    reveal(emit_op);
    reveal(emit);
    let c = s.frame.fun.code;
    assert forall|op1: TokenType, op2: TokenType|
        is_binary_operator(op1) && is_binary_operator(op2) && op1 != op2
            implies #[trigger] binary_ops(s, op1).frame.fun.code != #[trigger] binary_ops(s, op2).frame.fun.code by {
        let a = binary_ops(s, op1).frame.fun.code;
        let b = binary_ops(s, op2).frame.fun.code;
        if a.len() == b.len() {
            if a.len() == c.len() + 1 {
                assert(a[c.len() as int] != b[c.len() as int]);
            } else {
                assert(a[c.len() as int] != b[c.len() as int]);
            }
        }
    }
    assert forall|op: TokenType| is_binary_operator(op) implies
        (#[trigger] binary_ops(s, op)).frame.fun.code.subrange(0, c.len() as int) == c by {
        assert(binary_ops(s, op).frame.fun.code.subrange(0, c.len() as int) =~= c);
    }
}

/// The text of a string literal: its lexeme without the quotes.
pub open spec fn string_text(full: Seq<char>) -> Seq<char> {
    if full.len() >= 2 { full.subrange(1, full.len() - 1) } else { Seq::empty() }
}

/// A token that starts a statement, where recovery after an error stops.
pub open spec fn starts_statement(k: TokenType) -> bool {
    k == TokenType::Class || k == TokenType::Fun || k == TokenType::Var || k == TokenType::For
        || k == TokenType::If || k == TokenType::While || k == TokenType::Print || k == TokenType::Return
}

/// Skips tokens after an error until a statement boundary.
pub open spec fn sync_loop(s: CState) -> CState
    decreases mes(s),
{
    if s.current.kind == TokenType::EoF || s.previous.kind == TokenType::Semicolon || starts_statement(s.current.kind) {
        s
    } else {
        let s1 = advance(s);
        if mes(s1) < mes(s) { sync_loop(s1) } else { s1 }
    }
}

pub open spec fn synchronize(s: CState) -> CState {
    sync_loop(CState { panic: false, ..s })
}

// ---------------------------------------------------------------------------
// Expressions and statements. Each call on a later state is made only when
// less is left to read (or as much, for a step of lower rank); the compiler
// always meets these conditions.
// ---------------------------------------------------------------------------

pub open spec fn expression(s: CState) -> CState
    decreases mes(s), 20nat,
{
    parse_precedence(s, Precedence::Assignment)
}

/// An expression whose operators bind at least as tightly as `prec`.
pub open spec fn parse_precedence(s: CState, prec: Precedence) -> CState
    decreases mes(s), 10nat,
{
    let s1 = advance(s);
    let can_assign = rank(prec) <= rank(Precedence::Assignment);
    match rule_of(s1.previous.kind).prefix {
        None => err(s1, "Expect expression."@),
        Some(h) => {
            if mes(s1) < mes(s) {
                let s2 = prefix(s1, h, can_assign);
                if mes(s2) < mes(s) {
                    let (s3, stopped) = infix_loop(s2, prec);
                    if stopped || !can_assign {
                        s3
                    } else {
                        let (s4, b) = fit(s3, TokenType::Equal);
                        if b { err(s4, "Invalid assignment target."@) } else { s4 }
                    }
                } else {
                    s2
                }
            } else {
                s1
            }
        }
    }
}

/// The infix operators that bind at least as tightly as `prec`; says whether
/// an operator without an infix rule stopped it.
pub open spec fn infix_loop(s: CState, prec: Precedence) -> (CState, bool)
    decreases mes(s), 11nat,
{
    if !(rank(prec) <= rank(rule_of(s.current.kind).precedence)) {
        (s, false)
    } else {
        let s1 = advance(s);
        match rule_of(s1.previous.kind).infix {
            None => (err(s1, "Expect valid infix handler."@), true),
            Some(h) => {
                if mes(s1) < mes(s) {
                    let s2 = infix(s1, h);
                    if mes(s2) < mes(s) { infix_loop(s2, prec) } else { (s2, false) }
                } else {
                    (s1, false)
                }
            }
        }
    }
}

pub open spec fn prefix(s: CState, h: Handler, can_assign: bool) -> CState
    decreases mes(s), 40nat,
{
    match h {
        Handler::Grouping => consume(expression(s), TokenType::RightParen, "Expect ')' after expression."@),
        Handler::Unary => {
            let op = s.previous.kind;
            let s1 = parse_precedence(s, Precedence::Unary);
            emit_op(s1, if op == TokenType::Bang { OpCode::Not } else { OpCode::Negate })
        }
        Handler::Variable => variable(s, can_assign),
        Handler::String => emit_constant(s, ConstView::Str(string_text(lexeme_of(s.text, s.previous)))),
        Handler::Number => {
            let text = lexeme_of(s.text, s.previous);
            if is_number_text(text) {
                emit_constant(s, ConstView::Number(text))
            } else {
                err(s, "Failed parsing float number."@)
            }
        }
        Handler::Literal => {
            let k = s.previous.kind;
            emit_op(s, if k == TokenType::False { OpCode::False } else if k == TokenType::Nil { OpCode::Nil } else { OpCode::True })
        }
        _ => s,
    }
}

/// Resolves the variable named by the previous token: local, captured or
/// global, and its slot, upvalue or name constant.
pub open spec fn resolve_variable(s: CState) -> (CState, OpCode, OpCode, u8) {
    let name = s.previous;
    let level = s.enclosing.len() as int;
    let (s1, arg) = resolve_local_at(s, level, name);
    if arg != -1 {
        (s1, OpCode::GetLocal, OpCode::SetLocal, arg as u8)
    } else {
        let (s2, up) = resolve_upvalue(s1, level, name);
        if up != -1 {
            (s2, OpCode::GetUpvalue, OpCode::SetUpvalue, up as u8)
        } else {
            let (s3, c) = identifier_constant(s2, name);
            (s3, OpCode::GetGlobal, OpCode::SetGlobal, c)
        }
    }
}

pub open spec fn variable(s: CState, can_assign: bool) -> CState
    decreases mes(s), 30nat,
{
    let (s1, get_op, set_op, a) = resolve_variable(s);
    if can_assign && check(s1, TokenType::Equal) {
        let s2 = fit(s1, TokenType::Equal).0;
        if mes(s2) <= mes(s) {
            emit_op_byte(expression(s2), set_op, a)
        } else {
            s2
        }
    } else {
        emit_op_byte(s1, get_op, a)
    }
}

pub open spec fn infix(s: CState, h: Handler) -> CState
    decreases mes(s), 40nat,
{
    match h {
        Handler::Binary => binary(s),
        Handler::Call => call(s),
        Handler::And => and_(s),
        _ => or_(s),
    }
}

pub open spec fn binary(s: CState) -> CState
    decreases mes(s), 30nat,
{
    let op = s.previous.kind;
    let next = next_precedence(rule_of(op).precedence);
    binary_ops(parse_precedence(s, next), op)
}

pub open spec fn call(s: CState) -> CState
    decreases mes(s), 30nat,
{
    let (s1, count) = argument_list(s);
    emit_op_byte(s1, OpCode::Call, count)
}

/// The arguments of a call, after `(`, and how many there are (modulo 256).
pub open spec fn argument_list(s: CState) -> (CState, u8)
    decreases mes(s), 25nat,
{
    let (s1, count) = if check(s, TokenType::RightParen) { (s, 0u8) } else { argument_loop(s, 0) };
    if mes(s1) <= mes(s) {
        (consume(s1, TokenType::RightParen, "Expect ')' after arguments."@), count)
    } else {
        (s1, count)
    }
}

pub open spec fn argument_loop(s: CState, count: u8) -> (CState, u8)
    decreases mes(s), 24nat,
{
    let s1 = expression(s);
    let s2 = if count == 255 { err(s1, "Can't have more than 255 arguments."@) } else { s1 };
    let c = if count == 255 { 0u8 } else { (count + 1) as u8 };
    let (s3, more) = fit(s2, TokenType::Comma);
    if more && mes(s3) < mes(s) { argument_loop(s3, c) } else { (s3, c) }
}

pub open spec fn and_(s: CState) -> CState
    decreases mes(s), 30nat,
{
    let (s1, end_jump) = emit_jump(s, OpCode::JumpIfFalse);
    proof {
        lemma_mes_emit_jump(s, OpCode::JumpIfFalse);
        lemma_mes_emit_op(s1, OpCode::Pop);
    }
    let s2 = parse_precedence(emit_op(s1, OpCode::Pop), Precedence::And);
    patch_jump(s2, end_jump)
}

pub open spec fn or_(s: CState) -> CState
    decreases mes(s), 30nat,
{
    let (s1, else_jump) = emit_jump(s, OpCode::JumpIfFalse);
    let (s2, end_jump) = emit_jump(s1, OpCode::Jump);
    let s3 = emit_op(patch_jump(s2, else_jump), OpCode::Pop);
    proof {
        lemma_mes_emit_jump(s, OpCode::JumpIfFalse);
        lemma_mes_emit_jump(s1, OpCode::Jump);
        lemma_mes_patch_jump(s2, else_jump);
        lemma_mes_emit_op(patch_jump(s2, else_jump), OpCode::Pop);
    }
    patch_jump(parse_precedence(s3, Precedence::Or), end_jump)
}

pub open spec fn print_stmt(s: CState) -> CState
    decreases mes(s), 40nat,
{
    emit_op(consume(expression(s), TokenType::Semicolon, "Expect ';' after value."@), OpCode::Print)
}

pub open spec fn expression_stmt(s: CState) -> CState
    decreases mes(s), 40nat,
{
    emit_op(consume(expression(s), TokenType::Semicolon, "Expect ';' after expression."@), OpCode::Pop)
}

pub open spec fn var_declaration(s: CState) -> CState
    decreases mes(s), 40nat,
{
    let (s1, global) = parse_variable(s, "Expect variable name."@);
    let (s2, b) = fit(s1, TokenType::Equal);
    if mes(s2) <= mes(s) {
        let s3 = if b { expression(s2) } else { emit_op(s2, OpCode::Nil) };
        define_variable(consume(s3, TokenType::Semicolon, "Expect ';' after variable declaration."@), global)
    } else {
        s2
    }
}

pub open spec fn return_stmt(s: CState) -> CState
    decreases mes(s), 40nat,
{
    let s1 = if s.frame.kind == FunType::Script { err(s, "Can't return from top-level code."@) } else { s };
    let (s2, b) = fit(s1, TokenType::Semicolon);
    if b {
        emit_return(s2)
    } else {
        emit_op(consume(expression(s2), TokenType::Semicolon, "Expect ';' after return value."@), OpCode::Return)
    }
}

pub open spec fn if_stmt(s: CState) -> CState
    decreases mes(s), 70nat,
{
    let s1 = consume(s, TokenType::LeftParen, "Expect '(' after 'if'."@);
    if mes(s1) <= mes(s) {
        let s2 = consume(expression(s1), TokenType::RightParen, "Expect ')' after condition."@);
        let (s3, then_jump) = emit_jump(s2, OpCode::JumpIfFalse);
        let s4 = emit_op(s3, OpCode::Pop);
        if mes(s4) <= mes(s) {
            let s5 = statement(s4);
            let (s6, else_jump) = emit_jump(s5, OpCode::Jump);
            let s7 = emit_op(patch_jump(s6, then_jump), OpCode::Pop);
            let (s8, b) = fit(s7, TokenType::Else);
            let s9 = if b { if mes(s8) <= mes(s) { statement(s8) } else { s8 } } else { s8 };
            patch_jump(s9, else_jump)
        } else {
            s4
        }
    } else {
        s1
    }
}

pub open spec fn while_stmt(s: CState) -> CState
    decreases mes(s), 70nat,
{
    let loop_start = s.frame.fun.code.len() as int;
    let s1 = consume(s, TokenType::LeftParen, "Expect '(' after 'while'."@);
    if mes(s1) <= mes(s) {
        let s2 = consume(expression(s1), TokenType::RightParen, "Expect ')' after condition."@);
        let (s3, exit_jump) = emit_jump(s2, OpCode::JumpIfFalse);
        let s4 = emit_op(s3, OpCode::Pop);
        if mes(s4) <= mes(s) {
            emit_op(patch_jump(emit_loop(statement(s4), loop_start), exit_jump), OpCode::Pop)
        } else {
            s4
        }
    } else {
        s1
    }
}

/// The initializer clause of a `for`.
pub open spec fn for_init(s: CState) -> CState
    decreases mes(s), 60nat,
{
    let (s1, semi) = fit(s, TokenType::Semicolon);
    if semi {
        s1
    } else {
        let (s2, var) = fit(s1, TokenType::Var);
        if var {
            if mes(s2) <= mes(s) { var_declaration(s2) } else { s2 }
        } else {
            expression_stmt(s2)
        }
    }
}

#[verifier::rlimit(60)]
pub open spec fn for_stmt(s: CState) -> CState
    decreases mes(s), 70nat,
{
    let s1 = consume(begin_scope(s), TokenType::LeftParen, "Expect '(' after 'for'."@);
    if mes(s1) <= mes(s) {
        let s2 = for_init(s1);
        let loop_start = s2.frame.fun.code.len() as int;
        let (s3, semi) = fit(s2, TokenType::Semicolon);
        let (s4, exit_jump) = if semi {
            (s3, -1int)
        } else if mes(s3) <= mes(s) {
            let (s5, j) = emit_jump(consume(expression(s3), TokenType::Semicolon, "Expect ';' after loop condition."@),
                OpCode::JumpIfFalse);
            (emit_op(s5, OpCode::Pop), j)
        } else {
            (s3, -1int)
        };
        let (s6, paren) = fit(s4, TokenType::RightParen);
        let (s7, start) = if paren {
            (s6, loop_start)
        } else if mes(s6) <= mes(s) {
            let (s8, body_jump) = emit_jump(s6, OpCode::Jump);
            let increment_start = s8.frame.fun.code.len() as int;
            let s9 = consume(emit_op(expression(s8), OpCode::Pop), TokenType::RightParen, "Expect ')' after for clauses."@);
            (patch_jump(emit_loop(s9, loop_start), body_jump), increment_start)
        } else {
            (s6, loop_start)
        };
        if mes(s7) <= mes(s) {
            let s10 = emit_loop(statement(s7), start);
            let s11 = if exit_jump >= 0 { emit_op(patch_jump(s10, exit_jump), OpCode::Pop) } else { s10 };
            end_scope(s11)
        } else {
            s7
        }
    } else {
        s1
    }
}

/// Declarations up to `}` or the end.
pub open spec fn block_loop(s: CState) -> CState
    decreases mes(s), 69nat,
{
    if check(s, TokenType::RightBrace) || check(s, TokenType::EoF) {
        s
    } else {
        let s1 = declaration(s);
        if mes(s1) < mes(s) { block_loop(s1) } else { s1 }
    }
}

pub open spec fn block(s: CState) -> CState
    decreases mes(s), 70nat,
{
    let s1 = block_loop(s);
    if mes(s1) <= mes(s) { consume(s1, TokenType::RightBrace, "Expect '}' after block."@) } else { s1 }
}

pub open spec fn statement(s: CState) -> CState
    decreases mes(s), 50nat,
{
    let (s1, b1) = fit(s, TokenType::Print);
    if b1 {
        if mes(s1) < mes(s) { print_stmt(s1) } else { s1 }
    } else {
        let (s2, b2) = fit(s, TokenType::For);
        if b2 {
            if mes(s2) < mes(s) { for_stmt(s2) } else { s2 }
        } else {
            let (s3, b3) = fit(s, TokenType::If);
            if b3 {
                if mes(s3) < mes(s) { if_stmt(s3) } else { s3 }
            } else {
                let (s4, b4) = fit(s, TokenType::Return);
                if b4 {
                    if mes(s4) < mes(s) { return_stmt(s4) } else { s4 }
                } else {
                    let (s5, b5) = fit(s, TokenType::While);
                    if b5 {
                        if mes(s5) < mes(s) { while_stmt(s5) } else { s5 }
                    } else {
                        let (s6, b6) = fit(s, TokenType::LeftBrace);
                        if b6 {
                            if mes(s6) < mes(s) {
                                proof { lemma_mes_begin_scope(s6); }
                                let s7 = block(begin_scope(s6));
                                end_scope(s7)
                            } else {
                                s6
                            }
                        } else {
                            expression_stmt(s)
                        }
                    }
                }
            }
        }
    }
}

pub open spec fn declaration(s: CState) -> CState
    decreases mes(s), 60nat,
{
    let (s1, b1) = fit(s, TokenType::Fun);
    let s3 = if b1 {
        if mes(s1) < mes(s) { fun_declaration(s1) } else { s1 }
    } else {
        let (s2, b2) = fit(s, TokenType::Var);
        if b2 {
            if mes(s2) < mes(s) { var_declaration(s2) } else { s2 }
        } else {
            statement(s)
        }
    };
    if s3.panic { synchronize(s3) } else { s3 }
}

pub open spec fn fun_declaration(s: CState) -> CState
    decreases mes(s), 90nat,
{
    let (s1, global) = parse_variable(s, "Expect function name."@);
    let s2 = mark_initialized(s1);
    if mes(s2) <= mes(s) {
        define_variable(function(s2, FunType::Function), global)
    } else {
        s2
    }
}

/// The parameters of a function, from the `arity`th on.
pub open spec fn param_loop(s: CState, arity: nat) -> (CState, nat)
    decreases mes(s), 79nat,
{
    let a = arity + 1;
    let s1 = if a > 255 { err_cur(s, "Can't have more than 255 parameters."@) } else { s };
    let (s2, c) = parse_variable(s1, "Expect parameter name."@);
    let (s3, more) = fit(define_variable(s2, c), TokenType::Comma);
    if more && mes(s3) < mes(s) { param_loop(s3, a) } else { (s3, a) }
}

/// A function's parameters and body, compiled into a new function, then the
/// `Closure` instruction that makes it.
pub open spec fn function(s: CState, kind: FunType) -> CState
    decreases mes(s), 80nat,
{
    let s1 = CState { frame: new_frame(lexeme_of(s.text, s.previous), kind), enclosing: s.enclosing.push(s.frame), ..s };
    let s2 = consume(begin_scope(s1), TokenType::LeftParen, "Expect '(' after function name."@);
    if mes(s2) <= mes(s) {
        let (s3, arity) = if check(s2, TokenType::RightParen) { (s2, 0nat) } else { param_loop(s2, 0) };
        let s4 = with_fun(s3, FunView { arity, ..s3.frame.fun });
        let s5 = consume(consume(s4, TokenType::RightParen, "Expect ')' after parameters."@), TokenType::LeftBrace,
            "Expect '{' before function body."@);
        if mes(s5) <= mes(s) {
            let (s6, proto, ups) = end_function(block(s5));
            let (s7, index) = make_constant(s6, ConstView::Function(proto));
            emit_captures(emit_op_byte(s7, OpCode::Closure, index), ups, 0)
        } else {
            s5
        }
    } else {
        s2
    }
}

/// Declarations up to the end of the text.
pub open spec fn program_loop(s: CState) -> CState
    decreases mes(s),
{
    let (s1, end) = fit(s, TokenType::EoF);
    if end {
        s1
    } else {
        let s2 = declaration(s1);
        if mes(s2) < mes(s) { program_loop(s2) } else { s2 }
    }
}

/// The state before compiling `source`, with the reports `reports` already made.
pub open spec fn start_state(source: Seq<char>, reports: Seq<Seq<char>>) -> CState {
    let placeholder = Token { kind: TokenType::Error, start: 0usize, length: 0usize, line: -1isize };
    CState {
        text: source.push('\0'),
        pos: 0,
        line: 1,
        current: placeholder,
        previous: placeholder,
        had_error: false,
        panic: false,
        frame: new_frame(Seq::empty(), FunType::Script),
        enclosing: Seq::empty(),
        reports,
    }
}

/// The state after compiling `source` as the top-level script: its reports
/// follow `reports`, and its frame holds the script's function.
pub open spec fn compiled(source: Seq<char>, reports: Seq<Seq<char>>) -> CState {
    emit_return(program_loop(advance(start_state(source, reports))))
}

/// The script's function that compiling `source` gives.
pub open spec fn script_of(st: CState) -> FunView {
    FunView { upvalue_count: st.frame.upvalues.len(), ..st.frame.fun }
}

} // verus!
