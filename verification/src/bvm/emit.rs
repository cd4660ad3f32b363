//! The bytecode compiler: a single pass that parses the source and writes
//! bytecode into the chunk of the function being compiled.
use vstd::prelude::*;
use crate::bvm::chunk::{op_byte, Chunk, OpCode};
use crate::bvm::codegen::{self, frame_view, frames_view, hi_byte, lexeme_of, lo_byte, mes, same_ident, CState};
use crate::bvm::compiler::{get_rule, rank, rule_of, CompileError, Handler, Precedence};
use crate::bvm::scanner::Scanner;
use crate::bvm::token::{Token, TokenType};
use crate::lexer::token::Number;
use crate::report::Lox;
use crate::resolver::reported_to;
use crate::text::{decimal_string, push_str, same_text};

verus! {

broadcast use vstd::std_specs::vec::group_vec_axioms;

/// A constant of a chunk: a number (by its source text), a string, or a
/// compiled function.
pub enum Constant {
    Number(Number),
    Str(String),
    Function(Box<Function>),
}

/// A compiled function: its name (empty for the top-level script), how many
/// parameters it takes, how many variables it captures, and its bytecode.
pub struct Function {
    pub name: String,
    pub arity: usize,
    pub upvalue_count: usize,
    pub chunk: Chunk<Constant>,
}

impl Function {
    /// The top-level script's function before compiling: no name, no
    /// parameter, no capture and no code.
    pub fn new() -> (f: Function)
        ensures
            f.name@ == Seq::<char>::empty(),
            f.arity == 0,
            f.upvalue_count == 0,
            f.chunk.code@ == Seq::<u8>::empty(),
            f.chunk.lines@ == Seq::<isize>::empty(),
            f.chunk.constants@.len() == 0,
    {
        Function { name: String::new(), arity: 0, upvalue_count: 0, chunk: Chunk::new() }
    }

    /// How many parameters the function takes.
    pub fn arity(&self) -> (n: usize)
        ensures
            n == self.arity,
    {
        self.arity
    }

    /// Sets how many parameters the function takes.
    pub fn change_arity(&mut self, arity: usize)
        ensures
            *final(self) == (Function { arity, ..*old(self) }),
    {
        self.arity = arity;
    }

    /// How many variables the function captures.
    pub fn upvalue_count(&self) -> (n: usize)
        ensures
            n == self.upvalue_count,
    {
        self.upvalue_count
    }

    /// Sets how many variables the function captures.
    pub fn change_upvalue_count(&mut self, upvalue_count: usize)
        ensures
            *final(self) == (Function { upvalue_count, ..*old(self) }),
    {
        self.upvalue_count = upvalue_count;
    }

    /// The function's bytecode.
    pub fn chunk(&self) -> (c: &Chunk<Constant>)
        ensures
            *c == self.chunk,
    {
        &self.chunk
    }

    /// The function's name (empty for the top-level script).
    pub fn name(&self) -> (s: String)
        ensures
            s@ == self.name@,
    {
        self.name.clone()
    }

    /// Clears the function's name and empties its chunk.
    pub fn free(&mut self)
        ensures
            final(self).name@ == Seq::<char>::empty(),
            final(self).chunk.code@ == Seq::<u8>::empty(),
            final(self).chunk.lines@ == Seq::<isize>::empty(),
            final(self).chunk.constants@.len() == 0,
            final(self).arity == old(self).arity,
            final(self).upvalue_count == old(self).upvalue_count,
    {
        self.name = String::new();
        self.chunk.free();
    }

    /// Gives the function the name `name`.
    pub fn set_name(&mut self, name: String)
        ensures
            final(self).name@ == name@,
            final(self).arity == old(self).arity,
            final(self).upvalue_count == old(self).upvalue_count,
            final(self).chunk == old(self).chunk,
    {
        self.name = name;
    }
}

/// A local variable slot: its name token, the scope depth it was declared at
/// (-1 while its initializer is compiled), and whether a closure captures it.
#[derive(Clone, Copy, Debug)]
pub struct Local {
    pub name: Token,
    pub depth: isize,
    pub is_captured: bool,
}

impl Local {
    /// The slot of `name`, declared at `depth`, captured or not.
    pub fn new(name: Token, depth: isize, is_captured: bool) -> (l: Local)
        ensures
            l == (Local { name, depth, is_captured }),
    {
        Local { name, depth, is_captured }
    }
}

/// A variable a function captures: the slot or upvalue of the enclosing
/// function it refers to.
#[derive(Clone, Copy, Debug)]
pub struct UpvalueRef {
    pub index: u8,
    pub is_local: bool,
}

/// Whether the code being compiled is a function body or the top-level script.
#[derive(Clone, Copy, Debug, PartialEq, Eq, Structural)]
pub enum FunType {
    Function,
    Script,
}

/// The compiler's state for one function being compiled.
pub struct Compiler {
    pub function: Function,
    pub kind: FunType,
    pub locals: Vec<Local>,
    pub upvalues: Vec<UpvalueRef>,
    pub scope_depth: isize,
}

impl Compiler {
    /// The state for compiling `function`, of kind `kind`, with `locals`,
    /// `upvalues` and the scope depth `scope_depth`.
    pub fn new(function: Function, kind: FunType, locals: Vec<Local>, upvalues: Vec<UpvalueRef>, scope_depth: isize) -> (c: Compiler)
        ensures
            c == (Compiler { function, kind, locals, upvalues, scope_depth }),
    {
        Compiler { function, kind, locals, upvalues, scope_depth }
    }
}

/// The frame's tables are within the one-byte operand limits.
pub open spec fn frame_ok(f: Compiler) -> bool {
    &&& f.locals@.len() <= 256
    &&& f.upvalues@.len() <= 256
    &&& f.scope_depth >= 0
}

/// A chunk has one line for each byte of code.
pub open spec fn lines_match(c: Chunk<Constant>) -> bool {
    c.code@.len() == c.lines@.len()
}

/// The chunk being written and those of the enclosing functions have one
/// line per byte.
#[verifier::opaque]
pub open spec fn chunks_ok(c: Chunk<Constant>, enc: Seq<Compiler>) -> bool {
    &&& lines_match(c)
    &&& forall|i: int| 0 <= i < enc.len() ==> #[trigger] lines_match(enc[i].function.chunk)
}

/// The parser and code generator of the bytecode machine.
pub struct Parser {
    scanner: Scanner,
    current: Token,
    previous: Token,
    had_error: bool,
    panic_mode: bool,
    frame: Compiler,
    enclosing: Vec<Compiler>,
    base: Ghost<nat>,
}

/// Facts of the parse-rule table that the expression parser relies on.
pub proof fn lemma_rules(k: TokenType)
    ensures
        rule_of(k).prefix is Some ==> k != TokenType::EoF,
        k == TokenType::EoF ==> rule_of(k).precedence == Precedence::Lowest,
        rule_of(k).infix == Some(Handler::Binary) ==> rule_of(k).precedence != Precedence::Primary,
        rule_of(k).infix is Some ==> rule_of(k).infix == Some(Handler::Binary) || rule_of(k).infix == Some(Handler::Call)
            || rule_of(k).infix == Some(Handler::And) || rule_of(k).infix == Some(Handler::Or),
        rule_of(k).prefix == Some(Handler::Unary) ==> k == TokenType::Minus || k == TokenType::Bang,
        rule_of(k).prefix == Some(Handler::Literal) ==> k == TokenType::False || k == TokenType::Nil || k == TokenType::True,
        rule_of(k).prefix == Some(Handler::String) ==> k == TokenType::String,
{
}

/// What is left to read is the same in the compiler and in its state.
pub broadcast proof fn lemma_mes_view(p: Parser, lox: Lox)
    ensures
        #[trigger] mes(p.cview(lox)) == p.measure(),
{
}

impl Parser {
    /// What is left to read: the characters after the scanner's position, and
    /// one more while the look-ahead token is not the end of file.
    pub closed spec fn measure(&self) -> nat {
        ((self.scanner.text().len() - self.scanner.position())
            + if self.current.kind == TokenType::EoF { 0int } else { 1int }) as nat
    }

    /// A bound on scope depths: the length of the text, plus two.
    pub closed spec fn cap(&self) -> int {
        self.scanner.text().len() + 2int
    }

    /// The bookkeeping is consistent.
    pub closed spec fn wf(&self) -> bool {
        &&& self.scanner.wf()
        &&& self.scanner.text().len() + 8 < isize::MAX
        &&& 0 <= self.scanner.position() < self.scanner.text().len()
        &&& frame_ok(self.frame)
        &&& self.frame.scope_depth + self.measure() <= self.cap()
        &&& forall|i: int| 0 <= i < self.enclosing@.len() ==> #[trigger] frame_ok(self.enclosing@[i])
        &&& forall|i: int| 0 <= i < self.enclosing@.len() ==>
            #[trigger] self.enclosing@[i].scope_depth + self.measure() <= self.cap()
        &&& (self.previous.kind == TokenType::String ==> self.previous.length >= 2)
        &&& (self.current.kind == TokenType::String ==> self.current.length >= 2)
        &&& self.frame_at(0).upvalues@.len() == 0
        &&& chunks_ok(self.frame.function.chunk, self.enclosing@)
    }

    /// The parser's error flag is up exactly when reports were added to `lox`
    /// since compiling began.
    pub closed spec fn synced(&self, lox: Lox) -> bool {
        &&& lox.reports().len() >= self.base@
        &&& (self.had_error <==> lox.reports().len() > self.base@)
    }

    /// `self` follows `old` in one step of compiling: consistent, no more to
    /// read, the same scopes open, the reports only added to.
    pub closed spec fn follows(&self, old: Parser, lox0: Lox, lox1: Lox) -> bool {
        &&& self.wf()
        &&& self.synced(lox1)
        &&& reported_to(lox0, lox1)
        &&& self.base == old.base
        &&& self.scanner.text() == old.scanner.text()
        &&& self.measure() <= old.measure()
        &&& self.frame.scope_depth == old.frame.scope_depth
        &&& self.frame.kind == old.frame.kind
        &&& self.frame.function.name == old.frame.function.name
        &&& self.frame.function.arity == old.frame.function.arity
        &&& self.frame.function.chunk.code@.len() >= old.frame.function.chunk.code@.len()
        &&& self.enclosing@.len() == old.enclosing@.len()
        &&& forall|i: int| 0 <= i < old.enclosing@.len() ==> {
            &&& (#[trigger] self.enclosing@[i]).scope_depth == old.enclosing@[i].scope_depth
            &&& self.enclosing@[i].kind == old.enclosing@[i].kind
            &&& self.enclosing@[i].function == old.enclosing@[i].function
        }
    }

    /// The compiler's state, with the reports of `lox`.
    pub closed spec fn cview(&self, lox: Lox) -> CState {
        CState {
            text: self.scanner.text(),
            pos: self.scanner.position(),
            line: self.scanner.spec_line(),
            current: self.current,
            previous: self.previous,
            had_error: self.had_error,
            panic: self.panic_mode,
            frame: frame_view(self.frame),
            enclosing: frames_view(self.enclosing@),
            reports: lox.reports(),
        }
    }

    /// The look-ahead token is not the end of file.
    pub closed spec fn ahead(&self) -> bool {
        self.current.kind != TokenType::EoF
    }

    proof fn lemma_follows_refl(&self, lox: Lox)
        requires
            self.wf(),
            self.synced(lox),
        ensures
            self.follows(*self, lox, lox),
    {
        crate::resolver::lemma_reported_to_refl(lox);
    }

    proof fn lemma_follows_trans(a: Parser, b: Parser, c: Parser, la: Lox, lb: Lox, lc: Lox)
        requires
            b.follows(a, la, lb),
            c.follows(b, lb, lc),
        ensures
            c.follows(a, la, lc),
    {
        crate::resolver::lemma_reported_to_trans(la, lb, lc);
    }

    /// Reports `message` at `token` (once per statement: nothing while
    /// recovering from an error).
    fn error_at(&mut self, interpreter: &mut Lox, token: Token, message: &str)
        requires
            old(self).wf(),
            old(self).synced(*old(interpreter)),
        ensures
            final(self).cview(*final(interpreter)) == codegen::err_at(old(self).cview(*old(interpreter)), token, message@),
            final(self).follows(*old(self), *old(interpreter), *final(interpreter)),
            final(self).measure() == old(self).measure(),
            final(self).frame == old(self).frame,
            final(self).enclosing == old(self).enclosing,
            final(self).current == old(self).current,
            final(self).previous == old(self).previous,
            final(self).scanner == old(self).scanner,
            final(self).panic_mode,
            !old(self).panic_mode ==> final(interpreter).reports().len() == old(interpreter).reports().len() + 1,
            old(self).panic_mode ==> *final(interpreter) == *old(interpreter),
    {
        let ghost l0 = *interpreter;
        self.report_scan_error(interpreter, token, message);
        proof { crate::resolver::lemma_reported_to_refl(l0); }
    }

    /// Reports `message` at the previous token.
    fn error(&mut self, interpreter: &mut Lox, message: &str)
        requires
            old(self).wf(),
            old(self).synced(*old(interpreter)),
        ensures
            final(self).cview(*final(interpreter)) == codegen::err(old(self).cview(*old(interpreter)), message@),
            final(self).follows(*old(self), *old(interpreter), *final(interpreter)),
            final(self).measure() == old(self).measure(),
            final(self).frame == old(self).frame,
            final(self).enclosing == old(self).enclosing,
            final(self).current == old(self).current,
            final(self).previous == old(self).previous,
            !old(self).panic_mode ==> final(interpreter).reports().len() == old(interpreter).reports().len() + 1,
            old(self).panic_mode ==> *final(interpreter) == *old(interpreter),
    {
        proof { reveal(codegen::err); }
        let t = self.previous;
        self.error_at(interpreter, t, message);
    }

    /// Reports `message` at the look-ahead token.
    fn error_at_current(&mut self, interpreter: &mut Lox, message: &str)
        requires
            old(self).wf(),
            old(self).synced(*old(interpreter)),
        ensures
            final(self).cview(*final(interpreter)) == codegen::err_cur(old(self).cview(*old(interpreter)), message@),
            final(self).follows(*old(self), *old(interpreter), *final(interpreter)),
            final(self).measure() == old(self).measure(),
            final(self).frame == old(self).frame,
            final(self).enclosing == old(self).enclosing,
            final(self).current == old(self).current,
            final(self).previous == old(self).previous,
            !old(self).panic_mode ==> final(interpreter).reports().len() == old(interpreter).reports().len() + 1,
            old(self).panic_mode ==> *final(interpreter) == *old(interpreter),
    {
        proof { reveal(codegen::err_cur); }
        let t = self.current;
        self.error_at(interpreter, t, message);
    }

    /// Moves to the next token, reporting the scanner's errors on the way.
    fn advance(&mut self, interpreter: &mut Lox)
        requires
            old(self).wf(),
            old(self).synced(*old(interpreter)),
        ensures
            final(self).cview(*final(interpreter)) == codegen::advance(old(self).cview(*old(interpreter))),
            final(self).follows(*old(self), *old(interpreter), *final(interpreter)),
            old(self).ahead() ==> final(self).measure() < old(self).measure(),
            final(self).previous == old(self).current,
            final(self).frame == old(self).frame,
            final(self).enclosing == old(self).enclosing,
    {
        proof { reveal(codegen::advance); reveal_with_fuel(codegen::scan, 1); }
        let ghost p0 = *self;
        let ghost l0 = *interpreter;
        proof {
            self.scanner.lemma_position_bounds();
            crate::resolver::lemma_reported_to_refl(l0);
        }
        self.previous = self.current;
        let ghost target = codegen::scan(self.cview(*interpreter));
        loop
            invariant_except_break
                self.current == p0.current,
                codegen::scan(self.cview(*interpreter)) == target,
            invariant
                self.scanner.wf(),
                self.scanner.text() == p0.scanner.text(),
                p0.scanner.position() <= self.scanner.position() < self.scanner.text().len(),
                self.previous == p0.current,
                self.frame == p0.frame,
                self.enclosing == p0.enclosing,
                self.base == p0.base,
                self.synced(*interpreter),
                reported_to(l0, *interpreter),
                p0.wf(),
            ensures
                self.current.kind == TokenType::String ==> self.current.length >= 2,
                self.current.kind != TokenType::EoF ==> p0.scanner.position() < self.scanner.position(),
                self.cview(*interpreter) == target,
            decreases self.scanner.text().len() - self.scanner.position(),
        {
            proof { reveal_with_fuel(codegen::scan, 1); }
            let ghost pos = self.scanner.position();
            match self.scanner.scan_token() {
                Ok(token) => {
                    proof { self.scanner.lemma_position_bounds(); }
                    self.current = token;
                    break;
                }
                Err(err) => {
                    proof { self.scanner.lemma_position_bounds(); }
                    let ghost l1 = *interpreter;
                    let message = err.message();
                    let t = self.current;
                    self.report_scan_error(interpreter, t, message);
                    proof { crate::resolver::lemma_reported_to_trans(l0, l1, *interpreter); }
                }
            }
        }
    }

    /// The reporting part of `error_at`, for states between two tokens.
    fn report_scan_error(&mut self, interpreter: &mut Lox, token: Token, message: &str)
        requires
            old(self).synced(*old(interpreter)),
            old(self).scanner.wf(),
        ensures
            final(self).cview(*final(interpreter)) == codegen::err_at(old(self).cview(*old(interpreter)), token, message@),
            final(self).synced(*final(interpreter)),
            reported_to(*old(interpreter), *final(interpreter)),
            final(self).scanner == old(self).scanner,
            final(self).current == old(self).current,
            final(self).previous == old(self).previous,
            final(self).frame == old(self).frame,
            final(self).enclosing == old(self).enclosing,
            final(self).base == old(self).base,
            final(self).panic_mode,
            !old(self).panic_mode ==> final(interpreter).reports().len() == old(interpreter).reports().len() + 1,
            old(self).panic_mode ==> *final(interpreter) == *old(interpreter),
    {
        proof { reveal(codegen::err_at); }
        proof { crate::resolver::lemma_reported_to_refl(*interpreter); }
        if self.panic_mode {
            return;
        }
        self.panic_mode = true;
        let ghost lox0 = *interpreter;
        if token.kind == TokenType::EoF {
            interpreter.compiler_error(token.line, " at end", message);
        } else if token.kind == TokenType::Error {
            interpreter.compiler_error(token.line, "", message);
        } else {
            let mut place = String::new();
            push_str(&mut place, " at '");
            let lexeme = self.scanner.lexeme(self.current.start, self.current.length);
            push_str(&mut place, lexeme.as_str());
            push_str(&mut place, "'");
            interpreter.compiler_error(token.line, place.as_str(), message);
        }
        self.had_error = true;
        proof {
            assert(interpreter.reports().subrange(0, lox0.reports().len() as int) =~= lox0.reports());
        }
    }

    /// Everything but the bytecode of the function being compiled is as in `old`.
    pub closed spec fn same_but_code(&self, old: Parser) -> bool {
        &&& self.scanner == old.scanner
        &&& self.current == old.current
        &&& self.previous == old.previous
        &&& self.had_error == old.had_error
        &&& self.panic_mode == old.panic_mode
        &&& self.base == old.base
        &&& self.enclosing == old.enclosing
        &&& self.frame.kind == old.frame.kind
        &&& self.frame.locals == old.frame.locals
        &&& self.frame.upvalues == old.frame.upvalues
        &&& self.frame.scope_depth == old.frame.scope_depth
        &&& self.frame.function.name == old.frame.function.name
        &&& self.frame.function.arity == old.frame.function.arity
        &&& self.frame.function.upvalue_count == old.frame.function.upvalue_count
        &&& self.frame.function.chunk.lines@.len() + old.frame.function.chunk.code@.len()
            == self.frame.function.chunk.code@.len() + old.frame.function.chunk.lines@.len()
    }

    /// The bytecode written so far for the function being compiled.
    pub closed spec fn code(&self) -> Seq<u8> {
        self.frame.function.chunk.code@
    }

    proof fn lemma_same_but_code(&self, old: Parser, lox: Lox)
        requires
            old.wf(),
            old.synced(lox),
            self.same_but_code(old),
            self.code().len() >= old.code().len(),
        ensures
            self.follows(old, lox, lox),
            self.measure() == old.measure(),
    {
        reveal(chunks_ok);
        crate::resolver::lemma_reported_to_refl(lox);
    }

    /// Appends the byte `b`, from the line of the previous token.
    fn emit_byte(&mut self, b: u8)
        ensures
            forall|lox: Lox| #[trigger] final(self).cview(lox) == codegen::emit(old(self).cview(lox), b),
            final(self).same_but_code(*old(self)),
            final(self).code() == old(self).code().push(b),
            final(self).frame.function.chunk.constants@ == old(self).frame.function.chunk.constants@,
    {
        proof { reveal(codegen::emit); }
        let line = self.previous.line;
        self.frame.function.chunk.write_raw_instruction(b, line);
        proof {
            assert forall|lox: Lox| #[trigger] self.cview(lox) == codegen::emit(old(self).cview(lox), b) by {
                assert(self.cview(lox).frame.fun =~= codegen::emit(old(self).cview(lox), b).frame.fun);
                assert(self.cview(lox).frame =~= codegen::emit(old(self).cview(lox), b).frame);
            }
        }
    }

    /// Appends the instruction `op`.
    fn emit_op(&mut self, op: OpCode)
        ensures
            forall|lox: Lox| #[trigger] final(self).cview(lox) == codegen::emit_op(old(self).cview(lox), op),
            final(self).same_but_code(*old(self)),
            final(self).code() == old(self).code().push(op_byte(op)),
            final(self).frame.function.chunk.constants@ == old(self).frame.function.chunk.constants@,
    {
        proof { reveal(codegen::emit_op); reveal(codegen::emit); }
        let line = self.previous.line;
        self.frame.function.chunk.write_instruction(op, line);
        proof {
            assert forall|lox: Lox| #[trigger] self.cview(lox) == codegen::emit_op(old(self).cview(lox), op) by {
                assert(self.cview(lox).frame.fun =~= codegen::emit_op(old(self).cview(lox), op).frame.fun);
                assert(self.cview(lox).frame =~= codegen::emit_op(old(self).cview(lox), op).frame);
            }
        }
    }

    /// Appends the instruction `op` and its operand byte `b`.
    fn emit_op_byte(&mut self, op: OpCode, b: u8)
        ensures
            forall|lox: Lox| #[trigger] final(self).cview(lox) == codegen::emit_op_byte(old(self).cview(lox), op, b),
            final(self).same_but_code(*old(self)),
            final(self).code() == old(self).code().push(op_byte(op)).push(b),
            final(self).frame.function.chunk.constants@ == old(self).frame.function.chunk.constants@,
    {
        proof { reveal(codegen::emit_op_byte); }
        self.emit_op(op);
        self.emit_byte(b);
    }

    /// Appends `Nil` and `Return`: the end of every function.
    fn emit_return(&mut self)
        ensures
            forall|lox: Lox| #[trigger] final(self).cview(lox) == codegen::emit_return(old(self).cview(lox)),
            final(self).same_but_code(*old(self)),
            final(self).code() == old(self).code().push(op_byte(OpCode::Nil)).push(op_byte(OpCode::Return)),
            final(self).frame.function.chunk.constants@ == old(self).frame.function.chunk.constants@,
    {
        proof { reveal(codegen::emit_return); }
        self.emit_op(OpCode::Nil);
        self.emit_op(OpCode::Return);
    }

    /// Appends the jump instruction `op` with a placeholder distance, and gives
    /// the place of that distance.
    fn emit_jump(&mut self, op: OpCode) -> (offset: usize)
        ensures
            forall|lox: Lox| #[trigger] final(self).cview(lox) == codegen::emit_jump(old(self).cview(lox), op).0
                && offset as int == codegen::emit_jump(old(self).cview(lox), op).1,
            final(self).same_but_code(*old(self)),
            final(self).code() == old(self).code().push(op_byte(op)).push(255u8).push(255u8),
            offset == old(self).code().len() + 1,
            final(self).frame.function.chunk.constants@ == old(self).frame.function.chunk.constants@,
    {
        proof { reveal(codegen::emit_jump); }
        self.emit_op(op);
        self.emit_byte(255);
        self.emit_byte(255);
        self.frame.function.chunk.code.len() - 2
    }

    /// Writes at `offset` the distance from after the placeholder to the end
    /// of the code, big-endian; a distance over 65535 is reported.
    fn patch_jump(&mut self, interpreter: &mut Lox, offset: usize)
        requires
            old(self).wf(),
            old(self).synced(*old(interpreter)),
            offset + 2 <= old(self).code().len(),
        ensures
            final(self).cview(*final(interpreter)) == codegen::patch_jump(old(self).cview(*old(interpreter)), offset as int),
            final(self).follows(*old(self), *old(interpreter), *final(interpreter)),
            final(self).measure() == old(self).measure(),
            final(self).current == old(self).current,
            final(self).previous == old(self).previous,
            ({
                let jump = old(self).code().len() - offset - 2;
                &&& final(self).code() == old(self).code().update(offset as int, hi_byte(jump)).update(offset + 1, lo_byte(jump))
                &&& (jump > 65535 && !old(self).panic_mode ==> final(interpreter).reports().len() > old(interpreter).reports().len())
                &&& (jump <= 65535 ==> *final(interpreter) == *old(interpreter))
            }),
            final(self).frame.locals == old(self).frame.locals,
            final(self).frame.upvalues == old(self).frame.upvalues,
            final(self).enclosing == old(self).enclosing,
    {
        proof { reveal(codegen::patch_jump); }
        let jump = self.frame.function.chunk.code.len() - offset - 2;
        if jump > 65535 {
            self.error(interpreter, "Too much code to jump over.");
        } else {
            proof { crate::resolver::lemma_reported_to_refl(*interpreter); }
        }
        let ghost p1 = *self;
        self.frame.function.chunk.code.set(offset, ((jump / 256) % 256) as u8);
        self.frame.function.chunk.code.set(offset + 1, (jump % 256) as u8);
        proof { self.lemma_same_but_code(p1, *interpreter); }
    }

    /// Appends a `Loop` back to `loop_start`; a distance over 65535 is reported.
    fn emit_loop(&mut self, interpreter: &mut Lox, loop_start: usize)
        requires
            old(self).wf(),
            old(self).synced(*old(interpreter)),
            loop_start <= old(self).code().len(),
        ensures
            final(self).cview(*final(interpreter)) == codegen::emit_loop(old(self).cview(*old(interpreter)), loop_start as int),
            final(self).follows(*old(self), *old(interpreter), *final(interpreter)),
            final(self).measure() == old(self).measure(),
            final(self).current == old(self).current,
            final(self).previous == old(self).previous,
            ({
                let back = old(self).code().len() + 1 - loop_start + 2;
                final(self).code() == old(self).code().push(op_byte(OpCode::Loop)).push(hi_byte(back)).push(lo_byte(back))
            }),
            final(self).frame.locals == old(self).frame.locals,
            final(self).frame.upvalues == old(self).frame.upvalues,
            final(self).enclosing == old(self).enclosing,
    {
        proof { reveal(codegen::emit_loop); }
        let ghost p0 = *self;
        self.emit_op(OpCode::Loop);
        proof { self.lemma_same_but_code(p0, *interpreter); }
        let distance: u128 = (self.frame.function.chunk.code.len() - loop_start) as u128 + 2;
        if distance > 65535 {
            self.error(interpreter, "Loop body too large.");
        }
        let ghost p1 = *self;
        let ghost l1 = *interpreter;
        self.emit_byte(((distance / 256) % 256) as u8);
        self.emit_byte((distance % 256) as u8);
        proof {
            self.lemma_same_but_code(p1, l1);
            Self::lemma_follows_trans(p0, p1, *self, *old(interpreter), l1, *interpreter);
        }
    }

    /// Adds the constant `value` and gives its index, or reports that there
    /// are too many and gives 0.
    fn make_constant(&mut self, interpreter: &mut Lox, value: Constant) -> (i: u8)
        requires
            old(self).wf(),
            old(self).synced(*old(interpreter)),
        ensures
            (final(self).cview(*final(interpreter)), i) == codegen::make_constant(old(self).cview(*old(interpreter)), codegen::const_view(value)),
            final(self).follows(*old(self), *old(interpreter), *final(interpreter)),
            final(self).measure() == old(self).measure(),
            final(self).current == old(self).current,
            final(self).previous == old(self).previous,
            final(self).code() == old(self).code(),
            final(self).frame.function.chunk.constants@.len() == old(self).frame.function.chunk.constants@.len() + 1,
            old(self).frame.function.chunk.constants@.len() <= 255 ==> i == old(self).frame.function.chunk.constants@.len(),
            old(self).frame.function.chunk.constants@.len() > 255 ==> i == 0,
            final(self).frame.locals == old(self).frame.locals,
            final(self).frame.upvalues == old(self).frame.upvalues,
            final(self).enclosing == old(self).enclosing,
    {
        proof { reveal(codegen::make_constant); reveal(chunks_ok); }
        let ghost p0 = *self;
        let ghost v = value;
        let index = self.frame.function.chunk.write_value(value);
        proof {
            let cs = old(self).frame.function.chunk.constants@;
            assert(self.frame.function.chunk.constants@.drop_last() =~= cs);
            assert(codegen::consts_view(self.frame.function.chunk.constants@)
                == codegen::consts_view(cs).push(codegen::const_view(v)));
            let t = codegen::with_fun(old(self).cview(*interpreter), codegen::FunView {
                consts: old(self).cview(*interpreter).frame.fun.consts.push(codegen::const_view(v)),
                ..old(self).cview(*interpreter).frame.fun });
            assert(self.cview(*interpreter).frame.fun =~= t.frame.fun);
            assert(self.cview(*interpreter).frame =~= t.frame);
            assert(self.cview(*interpreter) =~= t);
            codegen::lemma_consts_view_len(cs);
        }
        proof { self.lemma_same_but_code(p0, *interpreter); }
        if index > 255 {
            let ghost p1 = *self;
            self.error(interpreter, "Too many constants in one chunk.");
            proof { Self::lemma_follows_trans(p0, p1, *self, *old(interpreter), *old(interpreter), *interpreter); }
            return 0;
        }
        index as u8
    }

    /// Appends a `Constant` instruction for `value`.
    fn emit_constant(&mut self, interpreter: &mut Lox, value: Constant)
        requires
            old(self).wf(),
            old(self).synced(*old(interpreter)),
        ensures
            final(self).cview(*final(interpreter)) == codegen::emit_constant(old(self).cview(*old(interpreter)), codegen::const_view(value)),
            final(self).follows(*old(self), *old(interpreter), *final(interpreter)),
            final(self).measure() == old(self).measure(),
            final(self).current == old(self).current,
            final(self).previous == old(self).previous,
            final(self).frame.locals == old(self).frame.locals,
            final(self).frame.upvalues == old(self).frame.upvalues,
            final(self).enclosing == old(self).enclosing,
    {
        proof { reveal(codegen::emit_constant); }
        let ghost p0 = *self;
        let index = self.make_constant(interpreter, value);
        let ghost p1 = *self;
        let ghost l1 = *interpreter;
        self.emit_op_byte(OpCode::Constant, index);
        proof {
            self.lemma_same_but_code(p1, l1);
            Self::lemma_follows_trans(p0, p1, *self, *old(interpreter), l1, *interpreter);
        }
    }

    /// Whether the look-ahead token is of kind `kind`.
    fn check(&self, kind: TokenType) -> (b: bool)
        ensures
            b == (self.current.kind == kind),
    {
        self.current.kind == kind
    }

    /// Moves on when the look-ahead token is of kind `kind`, and says whether it was.
    fn fit(&mut self, interpreter: &mut Lox, kind: TokenType) -> (b: bool)
        requires
            old(self).wf(),
            old(self).synced(*old(interpreter)),
        ensures
            (final(self).cview(*final(interpreter)), b) == codegen::fit(old(self).cview(*old(interpreter)), kind),
            final(self).follows(*old(self), *old(interpreter), *final(interpreter)),
            b == (old(self).current.kind == kind),
            b ==> final(self).previous == old(self).current,
            b && kind != TokenType::EoF ==> final(self).measure() < old(self).measure(),
            !b ==> *final(self) == *old(self) && *final(interpreter) == *old(interpreter),
            final(self).frame == old(self).frame,
            final(self).enclosing == old(self).enclosing,
    {
        proof { reveal(codegen::fit); }
        if !self.check(kind) {
            proof { self.lemma_follows_refl(*interpreter); }
            return false;
        }
        self.advance(interpreter);
        true
    }

    /// Moves past a token of kind `kind`, or reports `message` at the look-ahead token.
    fn consume(&mut self, interpreter: &mut Lox, kind: TokenType, message: &str)
        requires
            old(self).wf(),
            old(self).synced(*old(interpreter)),
        ensures
            final(self).cview(*final(interpreter)) == codegen::consume(old(self).cview(*old(interpreter)), kind, message@),
            final(self).follows(*old(self), *old(interpreter), *final(interpreter)),
            final(self).frame == old(self).frame,
            final(self).enclosing == old(self).enclosing,
    {
        proof { reveal(codegen::consume); }
        if self.check(kind) {
            self.advance(interpreter);
            return;
        }
        self.error_at_current(interpreter, message);
    }


    /// The frame at nesting level `level`: the enclosing frames are levels
    /// `0..enclosing.len()`, the current one is the last level.
    pub closed spec fn frame_at(&self, level: int) -> Compiler {
        if level == self.enclosing@.len() { self.frame } else { self.enclosing@[level] }
    }

    /// Replacing the frame at one level is replacing it in the view.
    proof fn lemma_with_frame_at(a: Parser, b: Parser, level: int, c: Compiler, lox: Lox)
        requires
            0 <= level <= a.enclosing@.len(),
            b.scanner == a.scanner,
            b.current == a.current,
            b.previous == a.previous,
            b.had_error == a.had_error,
            b.panic_mode == a.panic_mode,
            level == a.enclosing@.len() ==> b.frame == c && b.enclosing@ == a.enclosing@,
            level < a.enclosing@.len() ==> b.frame == a.frame && b.enclosing@ == a.enclosing@.update(level, c),
        ensures
            b.cview(lox) == codegen::with_frame_at(a.cview(lox), level, frame_view(c)),
    {
        if level < a.enclosing@.len() {
            assert(frames_view(b.enclosing@) =~= frames_view(a.enclosing@).update(level, frame_view(c)));
        }
    }

    /// The frame at a level, in the view.
    proof fn lemma_frame_at_view(&self, level: int, lox: Lox)
        requires
            0 <= level <= self.enclosing@.len(),
        ensures
            codegen::frame_at(self.cview(lox), level) == frame_view(self.frame_at(level)),
    {
    }

    /// Whether tokens `a` and `b` name the same identifier.
    fn identifiers_equal(&self, a: &Token, b: &Token) -> (r: bool)
        requires
            self.scanner.wf(),
        ensures
            r == same_ident(self.scanner.text(), *a, *b),
    {
        if a.length != b.length {
            return false;
        }
        let name_a = self.scanner.lexeme(a.start, a.length);
        let name_b = self.scanner.lexeme(b.start, b.length);
        same_text(name_a.as_str(), name_b.as_str())
    }

    /// The innermost local of level `level` named like `name`, or -1; a local
    /// read in its own initializer is reported.
    fn resolve_local_at(&mut self, interpreter: &mut Lox, level: usize, name: &Token) -> (r: isize)
        requires
            old(self).wf(),
            old(self).synced(*old(interpreter)),
            level <= old(self).enclosing@.len(),
        ensures
            (final(self).cview(*final(interpreter)), r as int) == codegen::resolve_local_at(old(self).cview(*old(interpreter)), level as int, *name),
            final(self).follows(*old(self), *old(interpreter), *final(interpreter)),
            final(self).measure() == old(self).measure(),
            final(self).frame == old(self).frame,
            final(self).enclosing == old(self).enclosing,
            final(self).current == old(self).current,
            final(self).previous == old(self).previous,
            ({
                let ls = old(self).frame_at(level as int).locals@;
                let text = old(self).scanner.text();
                &&& -1 <= r < ls.len()
                &&& r >= 0 ==> same_ident(text, ls[r as int].name, *name)
                &&& forall|j: int| r < j < ls.len() ==> !same_ident(text, #[trigger] ls[j].name, *name)
            }),
    {
        proof { reveal(codegen::resolve_local_at); }
        proof {
            if level < self.enclosing@.len() { assert(frame_ok(self.enclosing@[level as int])); }
        }
        proof { self.lemma_frame_at_view(level as int, *interpreter); }
        let n = if level == self.enclosing.len() {
            self.frame.locals.len()
        } else {
            self.enclosing[level].locals.len()
        };
        let mut i = n;
        while i > 0
            invariant
                *self == *old(self),
                *interpreter == *old(interpreter),
                old(self).wf(),
                old(self).synced(*old(interpreter)),
                i <= n,
                n <= 256,
                n == self.frame_at(level as int).locals@.len(),
                level <= self.enclosing@.len(),
                self.scanner.wf(),
                forall|j: int| i <= j < n ==> !same_ident(self.scanner.text(), #[trigger] self.frame_at(level as int).locals@[j].name, *name),
                codegen::find_local(self.scanner.text(), self.frame_at(level as int).locals@, *name, n as int)
                    == codegen::find_local(self.scanner.text(), self.frame_at(level as int).locals@, *name, i as int),
            decreases i,
        {
            proof { reveal(codegen::resolve_local_at); }
            let local = if level == self.enclosing.len() {
                self.frame.locals[i - 1]
            } else {
                self.enclosing[level].locals[i - 1]
            };
            if self.identifiers_equal(name, &local.name) {
                if local.depth == -1 {
                    self.error(interpreter, "Can't read local variable in its own initializer.");
                } else {
                    proof { self.lemma_follows_refl(*interpreter); }
                }
                return (i - 1) as isize;
            }
            i = i - 1;
        }
        proof { self.lemma_follows_refl(*interpreter); }
        -1
    }

    /// The upvalue of level `level` that refers to `index` (a slot of the
    /// enclosing level when `is_local`, else an upvalue of it), added when new;
    /// a 257th one is reported and gives 0.
    fn add_upvalue_at(&mut self, interpreter: &mut Lox, level: usize, index: u8, is_local: bool) -> (r: isize)
        requires
            old(self).wf(),
            old(self).synced(*old(interpreter)),
            1 <= level <= old(self).enclosing@.len(),
        ensures
            (final(self).cview(*final(interpreter)), r as int) == codegen::add_upvalue_at(old(self).cview(*old(interpreter)), level as int, index, is_local),
            final(self).follows(*old(self), *old(interpreter), *final(interpreter)),
            final(self).measure() == old(self).measure(),
            final(self).current == old(self).current,
            final(self).previous == old(self).previous,
            0 <= r < 256,
            ({
                let ups = old(self).frame_at(level as int).upvalues@;
                let ups2 = final(self).frame_at(level as int).upvalues@;
                &&& (exists|j: int| 0 <= j < ups.len() && ups[j].index == index && ups[j].is_local == is_local)
                    ==> ups2 == ups && ups[r as int].index == index && ups[r as int].is_local == is_local
                &&& (forall|j: int| 0 <= j < ups.len() ==> !(ups[j].index == index && ups[j].is_local == is_local))
                    && ups.len() < 256 ==> r == ups.len() && ups2 == ups.push(UpvalueRef { index, is_local })
            }),
            forall|l: int| 0 <= l <= old(self).enclosing@.len() && l != level ==>
                #[trigger] final(self).frame_at(l) == old(self).frame_at(l),
            final(self).frame_at(level as int).locals == old(self).frame_at(level as int).locals,
    {
        proof { reveal(codegen::add_upvalue_at); reveal(chunks_ok); }
        proof {
            if level < self.enclosing@.len() { assert(frame_ok(self.enclosing@[level as int])); }
        }
        proof { self.lemma_frame_at_view(level as int, *interpreter); }
        let at_top = level == self.enclosing.len();
        let count = if at_top { self.frame.upvalues.len() } else { self.enclosing[level].upvalues.len() };
        let mut i: usize = 0;
        while i < count
            invariant
                *self == *old(self),
                *interpreter == *old(interpreter),
                old(self).wf(),
                old(self).synced(*old(interpreter)),
                i <= count,
                level <= self.enclosing@.len(),
                at_top == (level == self.enclosing@.len()),
                count == self.frame_at(level as int).upvalues@.len(),
                count <= 256,
                forall|j: int| 0 <= j < i ==> !(#[trigger] self.frame_at(level as int).upvalues@[j].index == index
                    && self.frame_at(level as int).upvalues@[j].is_local == is_local),
                codegen::find_upvalue(self.frame_at(level as int).upvalues@, index, is_local, 0)
                    == codegen::find_upvalue(self.frame_at(level as int).upvalues@, index, is_local, i as int),
            decreases count - i,
        {
            proof { reveal(codegen::add_upvalue_at); }
            let u = if at_top { self.frame.upvalues[i] } else { self.enclosing[level].upvalues[i] };
            if u.index == index && u.is_local == is_local {
                proof { self.lemma_follows_refl(*interpreter); }
                return i as isize;
            }
            i = i + 1;
        }
        if count == 256 {
            self.error(interpreter, "Too many closure variables in function.");
            return 0;
        }
        let ghost p0 = *self;
        if at_top {
            self.frame.upvalues.push(UpvalueRef { index, is_local });
            proof {
                Self::lemma_with_frame_at(p0, *self, level as int, self.frame, *interpreter);
                assert(frame_view(self.frame) =~= codegen::FrameView {
                    upvalues: frame_view(p0.frame).upvalues.push(UpvalueRef { index, is_local }), ..frame_view(p0.frame) });
            }
        } else {
            let mut f = self.enclosing.remove(level);
            f.upvalues.push(UpvalueRef { index, is_local });
            let ghost fv = f;
            self.enclosing.insert(level, f);
            assert(self.enclosing@ =~= p0.enclosing@.update(level as int, fv));
            proof {
                Self::lemma_with_frame_at(p0, *self, level as int, fv, *interpreter);
                assert(frame_view(fv) =~= codegen::FrameView {
                    upvalues: frame_view(p0.enclosing@[level as int]).upvalues.push(UpvalueRef { index, is_local }),
                    ..frame_view(p0.enclosing@[level as int]) });
            }
        }
        proof {
            assert forall|l: int| 0 <= l < self.enclosing@.len() implies #[trigger] frame_ok(self.enclosing@[l]) by {
                if l != level {
                    assert(self.enclosing@[l] == p0.enclosing@[l]);
                    assert(frame_ok(p0.enclosing@[l]));
                } else {
                    assert(frame_ok(p0.enclosing@[l]));
                }
            }
            assert forall|l: int| 0 <= l < self.enclosing@.len() implies
                (#[trigger] self.enclosing@[l]).function == p0.enclosing@[l].function by {
                if l != level {
                    assert(self.enclosing@[l] == p0.enclosing@[l]);
                }
            }
            assert forall|l: int| 0 <= l < self.enclosing@.len() implies
                #[trigger] self.enclosing@[l].scope_depth + self.measure() <= self.cap() by {
                assert(self.enclosing@[l].scope_depth == p0.enclosing@[l].scope_depth);
            }
            crate::resolver::lemma_reported_to_refl(*interpreter);
        }
        count as isize
    }


    /// Marks slot `index` of level `level` as captured by a closure.
    fn set_captured(&mut self, level: usize, index: usize)
        requires
            old(self).wf(),
            level <= old(self).enclosing@.len(),
            index < old(self).frame_at(level as int).locals@.len(),
        ensures
            forall|lox: Lox| #[trigger] final(self).cview(lox) == codegen::set_captured(old(self).cview(lox), level as int, index as int),
            final(self).wf(),
            final(self).measure() == old(self).measure(),
            final(self).scanner == old(self).scanner,
            final(self).current == old(self).current,
            final(self).previous == old(self).previous,
            final(self).had_error == old(self).had_error,
            final(self).panic_mode == old(self).panic_mode,
            final(self).base == old(self).base,
            final(self).enclosing@.len() == old(self).enclosing@.len(),
            forall|l: int| 0 <= l <= old(self).enclosing@.len() ==> {
                &&& (#[trigger] final(self).frame_at(l)).scope_depth == old(self).frame_at(l).scope_depth
                &&& final(self).frame_at(l).kind == old(self).frame_at(l).kind
                &&& final(self).frame_at(l).function == old(self).frame_at(l).function
                &&& final(self).frame_at(l).upvalues == old(self).frame_at(l).upvalues
                &&& final(self).frame_at(l).locals@.len() == old(self).frame_at(l).locals@.len()
            },
            final(self).frame_at(level as int).locals@[index as int].is_captured,
    {
        proof { reveal(codegen::set_captured); reveal(chunks_ok); }
        let ghost p0 = *self;
        if level == self.enclosing.len() {
            let mut l = self.frame.locals[index];
            l.is_captured = true;
            self.frame.locals.set(index, l);
        } else {
            let mut f = self.enclosing.remove(level);
            let mut l = f.locals[index];
            l.is_captured = true;
            f.locals.set(index, l);
            let ghost fv = f;
            self.enclosing.insert(level, f);
            assert(self.enclosing@ =~= p0.enclosing@.update(level as int, fv));
        }
        proof {
            assert forall|l: int| 0 <= l < self.enclosing@.len() implies #[trigger] frame_ok(self.enclosing@[l]) by {
                assert(frame_ok(p0.enclosing@[l]));
            }
            assert forall|l: int| 0 <= l < self.enclosing@.len() implies
                (#[trigger] self.enclosing@[l]).function == p0.enclosing@[l].function by {
            }
            assert forall|l: int| 0 <= l < self.enclosing@.len() implies
                #[trigger] self.enclosing@[l].scope_depth + self.measure() <= self.cap() by {
                assert(self.enclosing@[l].scope_depth == p0.enclosing@[l].scope_depth);
            }
        }
    }

    /// Resolves `name` as a variable captured by level `level` from the
    /// levels around it, adding the upvalues on the way; -1 when it is none.
    fn resolve_upvalue(&mut self, interpreter: &mut Lox, level: usize, name: &Token) -> (r: isize)
        requires
            old(self).wf(),
            old(self).synced(*old(interpreter)),
            level <= old(self).enclosing@.len(),
        ensures
            (final(self).cview(*final(interpreter)), r as int) == codegen::resolve_upvalue(old(self).cview(*old(interpreter)), level as int, *name),
            final(self).follows(*old(self), *old(interpreter), *final(interpreter)),
            final(self).measure() == old(self).measure(),
            final(self).current == old(self).current,
            final(self).previous == old(self).previous,
            -1 <= r < 256,
        decreases level,
    {
        proof { reveal_with_fuel(codegen::resolve_upvalue, 1); }
        if level == 0 {
            proof { self.lemma_follows_refl(*interpreter); }
            return -1;
        }
        let ghost p0 = *self;
        let ghost l0 = *interpreter;
        let local = self.resolve_local_at(interpreter, level - 1, name);
        if local != -1 {
            let ghost p1 = *self;
            let ghost l1 = *interpreter;
            self.set_captured(level - 1, local as usize);
            proof {
                crate::resolver::lemma_reported_to_refl(l1);
                assert forall|i: int| 0 <= i < p0.enclosing@.len() implies {
                    &&& (#[trigger] self.enclosing@[i]).scope_depth == p0.enclosing@[i].scope_depth
                    &&& self.enclosing@[i].kind == p0.enclosing@[i].kind
                    &&& self.enclosing@[i].function == p0.enclosing@[i].function
                } by {
                    assert(self.frame_at(i) == self.enclosing@[i]);
                    assert(p1.frame_at(i) == p1.enclosing@[i]);
                }
                assert(self.frame_at(p0.enclosing@.len() as int) == self.frame);
                assert(p1.frame_at(p0.enclosing@.len() as int) == p1.frame);
                assert(self.follows(p1, l1, l1));
                Self::lemma_follows_trans(p0, p1, *self, l0, l1, l1);
            }
            let ghost p2 = *self;
            let r = self.add_upvalue_at(interpreter, level, local as u8, true);
            proof { Self::lemma_follows_trans(p0, p2, *self, l0, l1, *interpreter); }
            return r;
        }
        let ghost p1 = *self;
        let ghost l1 = *interpreter;
        let up = self.resolve_upvalue(interpreter, level - 1, name);
        proof { Self::lemma_follows_trans(p0, p1, *self, l0, l1, *interpreter); }
        if up != -1 {
            let ghost p2 = *self;
            let ghost l2 = *interpreter;
            let r = self.add_upvalue_at(interpreter, level, up as u8, false);
            proof { Self::lemma_follows_trans(p0, p2, *self, l0, l2, *interpreter); }
            return r;
        }
        -1
    }

    /// Adds a local slot for `name`, not yet initialized; a 257th local is
    /// reported and not added.
    fn add_local(&mut self, interpreter: &mut Lox, name: Token)
        requires
            old(self).wf(),
            old(self).synced(*old(interpreter)),
        ensures
            final(self).cview(*final(interpreter)) == codegen::add_local(old(self).cview(*old(interpreter)), name),
            final(self).follows(*old(self), *old(interpreter), *final(interpreter)),
            final(self).measure() == old(self).measure(),
            final(self).current == old(self).current,
            final(self).previous == old(self).previous,
            old(self).frame.locals@.len() < 256 ==> final(self).frame.locals@ == old(self).frame.locals@.push(
                Local { name, depth: -1isize, is_captured: false }),
            old(self).frame.locals@.len() >= 256 ==> final(self).frame.locals@ == old(self).frame.locals@,
    {
        proof { reveal(codegen::add_local); }
        if self.frame.locals.len() >= 256 {
            let mut msg = String::new();
            push_str(&mut msg, "Too many local variables in function. Current variable count: ");
            push_str(&mut msg, decimal_string(self.frame.locals.len()).as_str());
            push_str(&mut msg, ".");
            self.error(interpreter, msg.as_str());
            return;
        }
        self.frame.locals.push(Local { name, depth: -1, is_captured: false });
        proof { crate::resolver::lemma_reported_to_refl(*interpreter); }
    }

    /// Declares the variable named by the previous token in the current scope
    /// (nothing at top level); one already declared in that scope is reported.
    fn declare_variable(&mut self, interpreter: &mut Lox)
        requires
            old(self).wf(),
            old(self).synced(*old(interpreter)),
        ensures
            final(self).cview(*final(interpreter)) == codegen::declare_variable(old(self).cview(*old(interpreter))),
            final(self).follows(*old(self), *old(interpreter), *final(interpreter)),
            final(self).measure() == old(self).measure(),
            final(self).current == old(self).current,
            final(self).previous == old(self).previous,
    {
        proof { reveal(codegen::declare_variable); }
        if self.frame.scope_depth == 0 {
            proof { self.lemma_follows_refl(*interpreter); }
            return;
        }
        let name = self.previous;
        let n = self.frame.locals.len();
        let mut i = n;
        let mut failed = false;
        while i > 0
            invariant_except_break
                !failed,
                codegen::declared_in_scope(self.scanner.text(), self.frame.locals@, self.frame.scope_depth as int, name, n as int)
                    == codegen::declared_in_scope(self.scanner.text(), self.frame.locals@, self.frame.scope_depth as int, name, i as int),
            invariant
                *self == *old(self),
                old(self).wf(),
                i <= n,
                n == self.frame.locals@.len(),
                name == self.previous,
            ensures
                failed == codegen::declared_in_scope(self.scanner.text(), self.frame.locals@, self.frame.scope_depth as int, name, n as int),
            decreases i,
        {
            let local = self.frame.locals[i - 1];
            if local.depth != -1 && local.depth < self.frame.scope_depth {
                break;
            }
            if self.identifiers_equal(&name, &local.name) {
                failed = true;
                break;
            }
            i = i - 1;
        }
        let ghost p0 = *self;
        let ghost l0 = *interpreter;
        if failed {
            let mut msg = String::new();
            push_str(&mut msg, "Already a variable with this name '");
            let text = self.scanner.lexeme(name.start, name.length);
            push_str(&mut msg, text.as_str());
            push_str(&mut msg, "' in this scope (current depth: ");
            push_str(&mut msg, decimal_string(self.frame.scope_depth as usize).as_str());
            push_str(&mut msg, ").");
            self.error(interpreter, msg.as_str());
        } else {
            proof { self.lemma_follows_refl(*interpreter); }
        }
        let ghost p1 = *self;
        let ghost l1 = *interpreter;
        self.add_local(interpreter, name);
        proof { Self::lemma_follows_trans(p0, p1, *self, l0, l1, *interpreter); }
    }

    /// Marks the newest local as initialized (nothing at top level).
    fn mark_initialized(&mut self)
        requires
            old(self).wf(),
        ensures
            forall|lox: Lox| #[trigger] final(self).cview(lox) == codegen::mark_initialized(old(self).cview(lox)),
            final(self).wf(),
            final(self).measure() == old(self).measure(),
            final(self).scanner == old(self).scanner,
            final(self).current == old(self).current,
            final(self).previous == old(self).previous,
            final(self).had_error == old(self).had_error,
            final(self).panic_mode == old(self).panic_mode,
            final(self).base == old(self).base,
            final(self).enclosing == old(self).enclosing,
            final(self).frame.function == old(self).frame.function,
            final(self).frame.kind == old(self).frame.kind,
            final(self).frame.scope_depth == old(self).frame.scope_depth,
            final(self).frame.upvalues == old(self).frame.upvalues,
            final(self).frame.locals@.len() == old(self).frame.locals@.len(),
    {
        proof { reveal(codegen::mark_initialized); }
        if self.frame.scope_depth == 0 || self.frame.locals.len() == 0 {
            return;
        }
        let last = self.frame.locals.len() - 1;
        let mut l = self.frame.locals[last];
        l.depth = self.frame.scope_depth;
        self.frame.locals.set(last, l);
    }

    proof fn lemma_mark_follows(&self, old: Parser, lox: Lox)
        requires
            old.wf(),
            old.synced(lox),
            self.wf(),
            self.measure() == old.measure(),
            self.scanner == old.scanner,
            self.had_error == old.had_error,
            self.base == old.base,
            self.enclosing == old.enclosing,
            self.frame.function == old.frame.function,
            self.frame.kind == old.frame.kind,
            self.frame.scope_depth == old.frame.scope_depth,
        ensures
            self.follows(old, lox, lox),
    {
        crate::resolver::lemma_reported_to_refl(lox);
    }

    /// The constant index of the name the token `token` spans.
    fn identifier_constant(&mut self, interpreter: &mut Lox, token: Token) -> (i: u8)
        requires
            old(self).wf(),
            old(self).synced(*old(interpreter)),
        ensures
            (final(self).cview(*final(interpreter)), i) == codegen::identifier_constant(old(self).cview(*old(interpreter)), token),
            final(self).follows(*old(self), *old(interpreter), *final(interpreter)),
            final(self).measure() == old(self).measure(),
            final(self).current == old(self).current,
            final(self).previous == old(self).previous,
            final(self).code() == old(self).code(),
    {
        proof { reveal(codegen::identifier_constant); }
        let name = self.scanner.lexeme(token.start, token.length);
        self.make_constant(interpreter, Constant::Str(name))
    }

    /// Defines the variable just declared: a global by its name constant
    /// `global`, or a local by marking it initialized.
    fn define_variable(&mut self, interpreter: &mut Lox, global: u8)
        requires
            old(self).wf(),
            old(self).synced(*old(interpreter)),
        ensures
            final(self).cview(*final(interpreter)) == codegen::define_variable(old(self).cview(*old(interpreter)), global),
            final(self).follows(*old(self), *old(interpreter), *final(interpreter)),
            final(self).measure() == old(self).measure(),
            final(self).current == old(self).current,
            final(self).previous == old(self).previous,
    {
        proof { reveal(codegen::define_variable); }
        let ghost p0 = *self;
        if self.frame.scope_depth > 0 {
            self.mark_initialized();
            proof { self.lemma_mark_follows(p0, *interpreter); }
            return;
        }
        self.emit_op_byte(OpCode::DefineGlobal, global);
        proof { self.lemma_same_but_code(p0, *interpreter); }
    }

    /// Reads a variable name (or reports `message`) and declares it; gives the
    /// name's constant at top level, else 0.
    fn parse_variable(&mut self, interpreter: &mut Lox, message: &str) -> (i: u8)
        requires
            old(self).wf(),
            old(self).synced(*old(interpreter)),
        ensures
            (final(self).cview(*final(interpreter)), i) == codegen::parse_variable(old(self).cview(*old(interpreter)), message@),
            final(self).follows(*old(self), *old(interpreter), *final(interpreter)),
    {
        proof { reveal(codegen::parse_variable); }
        let ghost p0 = *self;
        let ghost l0 = *interpreter;
        self.consume(interpreter, TokenType::Identifier, message);
        let ghost p1 = *self;
        let ghost l1 = *interpreter;
        self.declare_variable(interpreter);
        proof { Self::lemma_follows_trans(p0, p1, *self, l0, l1, *interpreter); }
        if self.frame.scope_depth > 0 {
            return 0;
        }
        let ghost p2 = *self;
        let ghost l2 = *interpreter;
        let t = self.previous;
        let r = self.identifier_constant(interpreter, t);
        proof { Self::lemma_follows_trans(p0, p2, *self, l0, l2, *interpreter); }
        r
    }

    /// Opens a scope.
    fn begin_scope(&mut self)
        requires
            old(self).wf(),
            old(self).frame.scope_depth + 1 + old(self).measure() <= old(self).cap(),
        ensures
            forall|lox: Lox| #[trigger] final(self).cview(lox) == codegen::begin_scope(old(self).cview(lox)),
            final(self).wf(),
            *final(self) == (Parser { frame: Compiler { scope_depth: (old(self).frame.scope_depth + 1) as isize, ..old(self).frame }, ..*old(self) }),
    {
        proof { reveal(codegen::begin_scope); }
        self.frame.scope_depth = self.frame.scope_depth + 1;
    }

    /// Closes the innermost scope, popping (or closing, when captured) its locals.
    fn end_scope(&mut self, interpreter: &mut Lox)
        requires
            old(self).wf(),
            old(self).synced(*old(interpreter)),
            old(self).frame.scope_depth >= 1,
        ensures
            final(self).cview(*final(interpreter)) == codegen::end_scope(old(self).cview(*old(interpreter))),
            final(self).wf(),
            final(self).synced(*final(interpreter)),
            *final(interpreter) == *old(interpreter),
            final(self).measure() == old(self).measure(),
            final(self).scanner == old(self).scanner,
            final(self).current == old(self).current,
            final(self).previous == old(self).previous,
            final(self).base == old(self).base,
            final(self).enclosing == old(self).enclosing,
            final(self).frame.kind == old(self).frame.kind,
            final(self).frame.scope_depth == old(self).frame.scope_depth - 1,
            final(self).frame.function.name == old(self).frame.function.name,
            final(self).frame.function.arity == old(self).frame.function.arity,
            final(self).code().len() >= old(self).code().len(),
    {
        proof { reveal(codegen::end_scope); reveal_with_fuel(codegen::pop_locals, 1); }
        self.frame.scope_depth = self.frame.scope_depth - 1;
        let ghost target = codegen::pop_locals(self.cview(*interpreter));
        while self.frame.locals.len() > 0
            && self.frame.locals[self.frame.locals.len() - 1].depth > self.frame.scope_depth
            invariant
                codegen::pop_locals(self.cview(*interpreter)) == target,
                self.wf(),
                self.synced(*interpreter),
                *interpreter == *old(interpreter),
                self.measure() == old(self).measure(),
                self.scanner == old(self).scanner,
                self.current == old(self).current,
                self.previous == old(self).previous,
                self.base == old(self).base,
                self.enclosing == old(self).enclosing,
                self.frame.kind == old(self).frame.kind,
                self.frame.scope_depth == old(self).frame.scope_depth - 1,
                self.frame.function.name == old(self).frame.function.name,
                self.frame.function.arity == old(self).frame.function.arity,
                self.code().len() >= old(self).code().len(),
            decreases self.frame.locals@.len(),
        {
            proof { reveal_with_fuel(codegen::pop_locals, 1); }
            let ghost c0 = self.cview(*interpreter);
            let last = self.frame.locals.len() - 1;
            if self.frame.locals[last].is_captured {
                self.emit_op(OpCode::CloseUpvalue);
            } else {
                self.emit_op(OpCode::Pop);
            }
            let ghost c1 = self.cview(*interpreter);
            self.frame.locals.pop();
            proof {
                let c2 = CState { frame: codegen::FrameView { locals: c0.frame.locals.drop_last(), ..c1.frame }, ..c1 };
                assert(self.cview(*interpreter).frame =~= c2.frame);
                assert(self.cview(*interpreter) =~= c2);
                assert(chunks_ok(self.frame.function.chunk, self.enclosing@)) by {
                    reveal(chunks_ok);
                }
            }
        }
        proof { reveal_with_fuel(codegen::pop_locals, 1); }
    }


    /// `expression`: an assignment or anything that binds more tightly.
    fn expression(&mut self, interpreter: &mut Lox)
        requires
            old(self).wf(),
            old(self).synced(*old(interpreter)),
        ensures
            final(self).cview(*final(interpreter)) == codegen::expression(old(self).cview(*old(interpreter))),
            final(self).follows(*old(self), *old(interpreter), *final(interpreter)),
            old(self).ahead() ==> final(self).measure() < old(self).measure(),
        decreases old(self).measure(), 20nat,
    {
        proof { broadcast use lemma_mes_view; }
        self.parse_precedence(interpreter, Precedence::Assignment);
    }

    /// Parses an expression whose operators bind at least as tightly as `precedence`.
    fn parse_precedence(&mut self, interpreter: &mut Lox, precedence: Precedence)
        requires
            old(self).wf(),
            old(self).synced(*old(interpreter)),
            rank(precedence) >= 1,
        ensures
            final(self).cview(*final(interpreter)) == codegen::parse_precedence(old(self).cview(*old(interpreter)), precedence),
            final(self).follows(*old(self), *old(interpreter), *final(interpreter)),
            old(self).ahead() ==> final(self).measure() < old(self).measure(),
        decreases old(self).measure(), 10nat,
    {
        proof { broadcast use lemma_mes_view; }
        let ghost p0 = *self;
        let ghost l0 = *interpreter;
        self.advance(interpreter);
        let rule = get_rule(self.previous.kind);
        let can_assign = precedence.at_most(Precedence::Assignment);
        proof { lemma_rules(self.previous.kind); }
        match rule.prefix {
            Some(h) => {
                let ghost p1 = *self;
                let ghost l1 = *interpreter;
                self.prefix(interpreter, h, can_assign);
                proof { Self::lemma_follows_trans(p0, p1, *self, l0, l1, *interpreter); }
            }
            None => {
                let ghost p1 = *self;
                let ghost l1 = *interpreter;
                self.error(interpreter, "Expect expression.");
                proof { Self::lemma_follows_trans(p0, p1, *self, l0, l1, *interpreter); }
                return;
            }
        }
        let ghost target = codegen::infix_loop(self.cview(*interpreter), precedence);
        loop
            invariant
                codegen::infix_loop(self.cview(*interpreter), precedence) == target,
                self.follows(p0, l0, *interpreter),
                p0.ahead() ==> self.measure() < p0.measure(),
                p0.wf(),
                p0 == *old(self),
                rank(precedence) >= 1,
            ensures
                self.cview(*interpreter) == target.0,
                !target.1,
            decreases self.measure(),
        {
            proof { broadcast use lemma_mes_view; }
            let next = get_rule(self.current.kind);
            proof { lemma_rules(self.current.kind); }
            if !precedence.at_most(next.precedence) {
                break;
            }
            let ghost p1 = *self;
            let ghost l1 = *interpreter;
            self.advance(interpreter);
            proof { Self::lemma_follows_trans(p0, p1, *self, l0, l1, *interpreter); }
            let rule = get_rule(self.previous.kind);
            proof { lemma_rules(self.previous.kind); }
            match rule.infix {
                Some(h) => {
                    let ghost p2 = *self;
                    let ghost l2 = *interpreter;
                    self.infix(interpreter, h);
                    proof { Self::lemma_follows_trans(p0, p2, *self, l0, l2, *interpreter); }
                }
                None => {
                    let ghost p2 = *self;
                    let ghost l2 = *interpreter;
                    self.error(interpreter, "Expect valid infix handler.");
                    proof { Self::lemma_follows_trans(p0, p2, *self, l0, l2, *interpreter); }
                    return;
                }
            }
        }
        if can_assign {
            let ghost p1 = *self;
            let ghost l1 = *interpreter;
            if self.fit(interpreter, TokenType::Equal) {
                let ghost p2 = *self;
                let ghost l2 = *interpreter;
                self.error(interpreter, "Invalid assignment target.");
                proof { Self::lemma_follows_trans(p1, p2, *self, l1, l2, *interpreter); }
            }
            proof { Self::lemma_follows_trans(p0, p1, *self, l0, l1, *interpreter); }
        }
    }

    /// Runs the routine `h` for an expression that starts with the previous token.
    fn prefix(&mut self, interpreter: &mut Lox, h: Handler, can_assign: bool)
        requires
            old(self).wf(),
            old(self).synced(*old(interpreter)),
            rule_of(old(self).previous.kind).prefix == Some(h),
        ensures
            final(self).cview(*final(interpreter)) == codegen::prefix(old(self).cview(*old(interpreter)), h, can_assign),
            final(self).follows(*old(self), *old(interpreter), *final(interpreter)),
        decreases old(self).measure(), 40nat,
    {
        proof { broadcast use lemma_mes_view; }
        let ghost p0 = *self;
        let ghost l0 = *interpreter;
        proof { lemma_rules(self.previous.kind); }
        match h {
            Handler::Grouping => {
                self.expression(interpreter);
                let ghost p1 = *self;
                let ghost l1 = *interpreter;
                self.consume(interpreter, TokenType::RightParen, "Expect ')' after expression.");
                proof { Self::lemma_follows_trans(p0, p1, *self, l0, l1, *interpreter); }
            }
            Handler::Unary => {
                let op = self.previous.kind;
                self.parse_precedence(interpreter, Precedence::Unary);
                let ghost p1 = *self;
                if op == TokenType::Bang {
                    self.emit_op(OpCode::Not);
                } else {
                    self.emit_op(OpCode::Negate);
                }
                proof {
                    self.lemma_same_but_code(p1, *interpreter);
                    Self::lemma_follows_trans(p0, p1, *self, l0, *interpreter, *interpreter);
                }
            }
            Handler::Variable => {
                self.variable(interpreter, can_assign);
            }
            Handler::String => {
                let t = self.previous;
                let full = self.scanner.lexeme(t.start, t.length);
                let chars = crate::text::chars_of(full.as_str());
                let inner = if chars.len() >= 2 {
                    crate::text::string_of(&chars, 1, chars.len() - 1)
                } else {
                    String::new()
                };
                self.emit_constant(interpreter, Constant::Str(inner));
            }
            Handler::Number => {
                let t = self.previous;
                let text = self.scanner.lexeme(t.start, t.length);
                match Number::from_text(text.as_str()) {
                    Some(n) => self.emit_constant(interpreter, Constant::Number(n)),
                    None => self.error(interpreter, "Failed parsing float number."),
                }
            }
            Handler::Literal => {
                let k = self.previous.kind;
                if k == TokenType::False {
                    self.emit_op(OpCode::False);
                } else if k == TokenType::Nil {
                    self.emit_op(OpCode::Nil);
                } else {
                    self.emit_op(OpCode::True);
                }
                proof { self.lemma_same_but_code(p0, *interpreter); }
            }
            _ => {
                proof { self.lemma_follows_refl(*interpreter); }
            }
        }
    }

    /// A variable read or, when allowed and followed by `=`, assigned: local,
    /// captured, or global, in that order.
    fn variable(&mut self, interpreter: &mut Lox, can_assign: bool)
        requires
            old(self).wf(),
            old(self).synced(*old(interpreter)),
        ensures
            final(self).cview(*final(interpreter)) == codegen::variable(old(self).cview(*old(interpreter)), can_assign),
            final(self).follows(*old(self), *old(interpreter), *final(interpreter)),
        decreases old(self).measure(), 30nat,
    {
        proof { broadcast use lemma_mes_view; }
        let ghost p0 = *self;
        let ghost l0 = *interpreter;
        let name = self.previous;
        let level = self.enclosing.len();
        let mut arg = self.resolve_local_at(interpreter, level, &name);
        let get_op;
        let set_op;
        if arg != -1 {
            get_op = OpCode::GetLocal;
            set_op = OpCode::SetLocal;
        } else {
            let ghost p1 = *self;
            let ghost l1 = *interpreter;
            arg = self.resolve_upvalue(interpreter, level, &name);
            proof { Self::lemma_follows_trans(p0, p1, *self, l0, l1, *interpreter); }
            if arg != -1 {
                get_op = OpCode::GetUpvalue;
                set_op = OpCode::SetUpvalue;
            } else {
                let ghost p2 = *self;
                let ghost l2 = *interpreter;
                arg = self.identifier_constant(interpreter, name) as isize;
                proof { Self::lemma_follows_trans(p0, p2, *self, l0, l2, *interpreter); }
                get_op = OpCode::GetGlobal;
                set_op = OpCode::SetGlobal;
            }
        }
        let a = arg as u8;
        let ghost p3 = *self;
        let ghost l3 = *interpreter;
        if can_assign && self.check(TokenType::Equal) {
            self.fit(interpreter, TokenType::Equal);
            let ghost p3b = *self;
            let ghost l3b = *interpreter;
            self.expression(interpreter);
            let ghost p4 = *self;
            self.emit_op_byte(set_op, a);
            proof {
                self.lemma_same_but_code(p4, *interpreter);
                Self::lemma_follows_trans(p3b, p4, *self, l3b, *interpreter, *interpreter);
                Self::lemma_follows_trans(p3, p3b, *self, l3, l3b, *interpreter);
            }
        } else {
            self.emit_op_byte(get_op, a);
            proof { self.lemma_same_but_code(p3, *interpreter); }
        }
        proof { Self::lemma_follows_trans(p0, p3, *self, l0, l3, *interpreter); }
    }

    /// Runs the routine `h` for an expression that continues at the previous token.
    fn infix(&mut self, interpreter: &mut Lox, h: Handler)
        requires
            old(self).wf(),
            old(self).synced(*old(interpreter)),
            rule_of(old(self).previous.kind).infix == Some(h),
        ensures
            final(self).cview(*final(interpreter)) == codegen::infix(old(self).cview(*old(interpreter)), h),
            final(self).follows(*old(self), *old(interpreter), *final(interpreter)),
        decreases old(self).measure(), 40nat,
    {
        proof { broadcast use lemma_mes_view; }
        proof { lemma_rules(self.previous.kind); }
        match h {
            Handler::Binary => self.binary(interpreter),
            Handler::Call => self.call(interpreter),
            Handler::And => self.and_(interpreter),
            _ => self.or_(interpreter),
        }
    }

    /// The right operand of a binary operator, then its instructions.
    fn binary(&mut self, interpreter: &mut Lox)
        requires
            old(self).wf(),
            old(self).synced(*old(interpreter)),
            rule_of(old(self).previous.kind).infix == Some(Handler::Binary),
        ensures
            final(self).cview(*final(interpreter)) == codegen::binary(old(self).cview(*old(interpreter))),
            final(self).follows(*old(self), *old(interpreter), *final(interpreter)),
        decreases old(self).measure(), 30nat,
    {
        proof { reveal(codegen::binary_ops); }
        proof { broadcast use lemma_mes_view; }
        let ghost p0 = *self;
        let ghost l0 = *interpreter;
        proof { lemma_rules(self.previous.kind); }
        let op = self.previous.kind;
        let rule = get_rule(op);
        let precedence = Precedence::inc(rule.precedence);
        self.parse_precedence(interpreter, precedence);
        let ghost p1 = *self;
        if op == TokenType::BangEqual {
            self.emit_op(OpCode::Equal);
            self.emit_op(OpCode::Not);
        } else if op == TokenType::EqualEqual {
            self.emit_op(OpCode::Equal);
        } else if op == TokenType::Greater {
            self.emit_op(OpCode::Greater);
        } else if op == TokenType::GreaterEqual {
            self.emit_op(OpCode::Less);
            self.emit_op(OpCode::Not);
        } else if op == TokenType::Less {
            self.emit_op(OpCode::Less);
        } else if op == TokenType::LessEqual {
            self.emit_op(OpCode::Greater);
            self.emit_op(OpCode::Not);
        } else if op == TokenType::Plus {
            self.emit_op(OpCode::Add);
        } else if op == TokenType::Minus {
            self.emit_op(OpCode::Subtract);
        } else if op == TokenType::Star {
            self.emit_op(OpCode::Multiply);
        } else {
            self.emit_op(OpCode::Divide);
        }
        proof {
            self.lemma_same_but_code(p1, *interpreter);
            Self::lemma_follows_trans(p0, p1, *self, l0, *interpreter, *interpreter);
        }
    }

    /// A call: its arguments, then `Call` with their count.
    fn call(&mut self, interpreter: &mut Lox)
        requires
            old(self).wf(),
            old(self).synced(*old(interpreter)),
        ensures
            final(self).cview(*final(interpreter)) == codegen::call(old(self).cview(*old(interpreter))),
            final(self).follows(*old(self), *old(interpreter), *final(interpreter)),
        decreases old(self).measure(), 30nat,
    {
        proof { broadcast use lemma_mes_view; }
        let ghost p0 = *self;
        let ghost l0 = *interpreter;
        let count = self.argument_list(interpreter);
        let ghost p1 = *self;
        self.emit_op_byte(OpCode::Call, count);
        proof {
            self.lemma_same_but_code(p1, *interpreter);
            Self::lemma_follows_trans(p0, p1, *self, l0, *interpreter, *interpreter);
        }
    }

    /// The arguments of a call up to `)`, and how many there are (the 256th
    /// is reported, and the count wraps).
    fn argument_list(&mut self, interpreter: &mut Lox) -> (count: u8)
        requires
            old(self).wf(),
            old(self).synced(*old(interpreter)),
        ensures
            (final(self).cview(*final(interpreter)), count) == codegen::argument_list(old(self).cview(*old(interpreter))),
            final(self).follows(*old(self), *old(interpreter), *final(interpreter)),
        decreases old(self).measure(), 25nat,
    {
        proof { broadcast use lemma_mes_view; }
        let ghost p0 = *self;
        let ghost l0 = *interpreter;
        proof { self.lemma_follows_refl(*interpreter); }
        let mut count: u8 = 0;
        if !self.check(TokenType::RightParen) {
            let ghost target = codegen::argument_loop(self.cview(*interpreter), 0);
            loop
                invariant_except_break
                    codegen::argument_loop(self.cview(*interpreter), count) == target,
                invariant
                    self.follows(p0, l0, *interpreter),
                    p0.wf(),
                    p0 == *old(self),
                ensures
                    (self.cview(*interpreter), count) == target,
                decreases self.measure(),
            {
                proof { broadcast use lemma_mes_view; }
                let ghost p1 = *self;
                let ghost l1 = *interpreter;
                self.expression(interpreter);
                if count == 255 {
                    let ghost p2 = *self;
                    let ghost l2 = *interpreter;
                    self.error(interpreter, "Can't have more than 255 arguments.");
                    proof { Self::lemma_follows_trans(p1, p2, *self, l1, l2, *interpreter); }
                }
                count = if count == 255 { 0 } else { count + 1 };
                let ghost p3 = *self;
                let ghost l3 = *interpreter;
                let more = self.fit(interpreter, TokenType::Comma);
                proof {
                    Self::lemma_follows_trans(p1, p3, *self, l1, l3, *interpreter);
                    Self::lemma_follows_trans(p0, p1, *self, l0, l1, *interpreter);
                }
                if !more {
                    break;
                }
            }
        }
        let ghost p4 = *self;
        let ghost l4 = *interpreter;
        self.consume(interpreter, TokenType::RightParen, "Expect ')' after arguments.");
        proof { Self::lemma_follows_trans(p0, p4, *self, l0, l4, *interpreter); }
        count
    }

    /// `and`: skips the right operand when the left one is false.
    fn and_(&mut self, interpreter: &mut Lox)
        requires
            old(self).wf(),
            old(self).synced(*old(interpreter)),
        ensures
            final(self).cview(*final(interpreter)) == codegen::and_(old(self).cview(*old(interpreter))),
            final(self).follows(*old(self), *old(interpreter), *final(interpreter)),
        decreases old(self).measure(), 30nat,
    {
        proof { broadcast use lemma_mes_view; }
        let ghost p0 = *self;
        let ghost l0 = *interpreter;
        let end_jump = self.emit_jump(OpCode::JumpIfFalse);
        self.emit_op(OpCode::Pop);
        proof { self.lemma_same_but_code(p0, *interpreter); }
        let ghost p1 = *self;
        self.parse_precedence(interpreter, Precedence::And);
        let ghost p2 = *self;
        let ghost l2 = *interpreter;
        self.patch_jump(interpreter, end_jump);
        proof {
            Self::lemma_follows_trans(p0, p1, p2, l0, l0, l2);
            Self::lemma_follows_trans(p0, p2, *self, l0, l2, *interpreter);
        }
    }

    /// `or`: skips the right operand when the left one is true.
    fn or_(&mut self, interpreter: &mut Lox)
        requires
            old(self).wf(),
            old(self).synced(*old(interpreter)),
        ensures
            final(self).cview(*final(interpreter)) == codegen::or_(old(self).cview(*old(interpreter))),
            final(self).follows(*old(self), *old(interpreter), *final(interpreter)),
        decreases old(self).measure(), 30nat,
    {
        proof { broadcast use lemma_mes_view; }
        let ghost p0 = *self;
        let ghost l0 = *interpreter;
        let else_jump = self.emit_jump(OpCode::JumpIfFalse);
        let end_jump = self.emit_jump(OpCode::Jump);
        proof { self.lemma_same_but_code(p0, *interpreter); }
        let ghost p1 = *self;
        self.patch_jump(interpreter, else_jump);
        let ghost p2 = *self;
        let ghost l2 = *interpreter;
        self.emit_op(OpCode::Pop);
        proof {
            self.lemma_same_but_code(p2, l2);
            Self::lemma_follows_trans(p0, p1, p2, l0, l0, l2);
            Self::lemma_follows_trans(p0, p2, *self, l0, l2, l2);
        }
        let ghost p3 = *self;
        self.parse_precedence(interpreter, Precedence::Or);
        let ghost p4 = *self;
        let ghost l4 = *interpreter;
        self.patch_jump(interpreter, end_jump);
        proof {
            Self::lemma_follows_trans(p0, p3, p4, l0, l2, l4);
            Self::lemma_follows_trans(p0, p4, *self, l0, l4, *interpreter);
        }
    }


    /// Closing a scope opened by `begin_scope` gives back a state that
    /// follows the one before it.
    proof fn lemma_scoped(a: Parser, b: Parser, c: Parser, d: Parser, la: Lox, lc: Lox)
        requires
            a.wf(),
            b == (Parser { frame: Compiler { scope_depth: (a.frame.scope_depth + 1) as isize, ..a.frame }, ..a }),
            c.follows(b, la, lc),
            d.wf(),
            d.synced(lc),
            d.measure() == c.measure(),
            d.scanner == c.scanner,
            d.base == c.base,
            d.enclosing == c.enclosing,
            d.frame.kind == c.frame.kind,
            d.frame.scope_depth == c.frame.scope_depth - 1,
            d.frame.function.name == c.frame.function.name,
            d.frame.function.arity == c.frame.function.arity,
            d.code().len() >= c.code().len(),
        ensures
            d.follows(a, la, lc),
    {
    }

    /// `print expression ;`, after `print`.
    fn print_stmt(&mut self, interpreter: &mut Lox)
        requires
            old(self).wf(),
            old(self).synced(*old(interpreter)),
        ensures
            final(self).cview(*final(interpreter)) == codegen::print_stmt(old(self).cview(*old(interpreter))),
            final(self).follows(*old(self), *old(interpreter), *final(interpreter)),
        decreases old(self).measure(), 40nat,
    {
        proof { broadcast use lemma_mes_view; }
        let ghost p0 = *self;
        let ghost l0 = *interpreter;
        self.expression(interpreter);
        let ghost p1 = *self;
        let ghost l1 = *interpreter;
        self.consume(interpreter, TokenType::Semicolon, "Expect ';' after value.");
        let ghost p2 = *self;
        let ghost l2 = *interpreter;
        self.emit_op(OpCode::Print);
        proof {
            self.lemma_same_but_code(p2, l2);
            Self::lemma_follows_trans(p0, p1, p2, l0, l1, l2);
            Self::lemma_follows_trans(p0, p2, *self, l0, l2, l2);
        }
    }

    /// `expression ;`, whose value is dropped.
    fn expression_stmt(&mut self, interpreter: &mut Lox)
        requires
            old(self).wf(),
            old(self).synced(*old(interpreter)),
        ensures
            final(self).cview(*final(interpreter)) == codegen::expression_stmt(old(self).cview(*old(interpreter))),
            final(self).follows(*old(self), *old(interpreter), *final(interpreter)),
            old(self).ahead() ==> final(self).measure() < old(self).measure(),
        decreases old(self).measure(), 40nat,
    {
        proof { broadcast use lemma_mes_view; }
        let ghost p0 = *self;
        let ghost l0 = *interpreter;
        self.expression(interpreter);
        let ghost p1 = *self;
        let ghost l1 = *interpreter;
        self.consume(interpreter, TokenType::Semicolon, "Expect ';' after expression.");
        let ghost p2 = *self;
        let ghost l2 = *interpreter;
        self.emit_op(OpCode::Pop);
        proof {
            self.lemma_same_but_code(p2, l2);
            Self::lemma_follows_trans(p0, p1, p2, l0, l1, l2);
            Self::lemma_follows_trans(p0, p2, *self, l0, l2, l2);
        }
    }

    /// `var name ( = expression )? ;`, after `var`.
    fn var_declaration(&mut self, interpreter: &mut Lox)
        requires
            old(self).wf(),
            old(self).synced(*old(interpreter)),
        ensures
            final(self).cview(*final(interpreter)) == codegen::var_declaration(old(self).cview(*old(interpreter))),
            final(self).follows(*old(self), *old(interpreter), *final(interpreter)),
        decreases old(self).measure(), 40nat,
    {
        proof { broadcast use lemma_mes_view; }
        let ghost p0 = *self;
        let ghost l0 = *interpreter;
        let global = self.parse_variable(interpreter, "Expect variable name.");
        let ghost p1 = *self;
        let ghost l1 = *interpreter;
        if self.fit(interpreter, TokenType::Equal) {
            let ghost p2 = *self;
            let ghost l2 = *interpreter;
            self.expression(interpreter);
            proof { Self::lemma_follows_trans(p1, p2, *self, l1, l2, *interpreter); }
        } else {
            self.emit_op(OpCode::Nil);
            proof { self.lemma_same_but_code(p1, l1); }
        }
        proof { Self::lemma_follows_trans(p0, p1, *self, l0, l1, *interpreter); }
        let ghost p3 = *self;
        let ghost l3 = *interpreter;
        self.consume(interpreter, TokenType::Semicolon, "Expect ';' after variable declaration.");
        let ghost p4 = *self;
        let ghost l4 = *interpreter;
        self.define_variable(interpreter, global);
        proof {
            Self::lemma_follows_trans(p0, p3, p4, l0, l3, l4);
            Self::lemma_follows_trans(p0, p4, *self, l0, l4, *interpreter);
        }
    }

    /// `return ( expression )? ;`, after `return`; not allowed at top level.
    fn return_stmt(&mut self, interpreter: &mut Lox)
        requires
            old(self).wf(),
            old(self).synced(*old(interpreter)),
        ensures
            final(self).cview(*final(interpreter)) == codegen::return_stmt(old(self).cview(*old(interpreter))),
            final(self).follows(*old(self), *old(interpreter), *final(interpreter)),
        decreases old(self).measure(), 40nat,
    {
        proof { broadcast use lemma_mes_view; }
        let ghost p0 = *self;
        let ghost l0 = *interpreter;
        if self.frame.kind == FunType::Script {
            self.error(interpreter, "Can't return from top-level code.");
        } else {
            proof { self.lemma_follows_refl(*interpreter); }
        }
        let ghost p1 = *self;
        let ghost l1 = *interpreter;
        if self.fit(interpreter, TokenType::Semicolon) {
            let ghost p2 = *self;
            let ghost l2 = *interpreter;
            self.emit_return();
            proof {
                self.lemma_same_but_code(p2, l2);
                Self::lemma_follows_trans(p1, p2, *self, l1, l2, l2);
            }
        } else {
            self.expression(interpreter);
            let ghost p2 = *self;
            let ghost l2 = *interpreter;
            self.consume(interpreter, TokenType::Semicolon, "Expect ';' after return value.");
            let ghost p3 = *self;
            let ghost l3 = *interpreter;
            self.emit_op(OpCode::Return);
            proof {
                self.lemma_same_but_code(p3, l3);
                Self::lemma_follows_trans(p1, p2, p3, l1, l2, l3);
                Self::lemma_follows_trans(p1, p3, *self, l1, l3, l3);
            }
        }
        proof { Self::lemma_follows_trans(p0, p1, *self, l0, l1, *interpreter); }
    }

    /// `if ( condition ) statement ( else statement )?`, after `if`.
    #[verifier::rlimit(100)]
    #[verifier::spinoff_prover]
    fn if_stmt(&mut self, interpreter: &mut Lox)
        requires
            old(self).wf(),
            old(self).synced(*old(interpreter)),
        ensures
            final(self).cview(*final(interpreter)) == codegen::if_stmt(old(self).cview(*old(interpreter))),
            final(self).follows(*old(self), *old(interpreter), *final(interpreter)),
        decreases old(self).measure(), 70nat,
    {
        proof { broadcast use lemma_mes_view; }
        let ghost p0 = *self;
        let ghost l0 = *interpreter;
        self.consume(interpreter, TokenType::LeftParen, "Expect '(' after 'if'.");
        let ghost p1 = *self;
        let ghost l1 = *interpreter;
        self.expression(interpreter);
        let ghost p2 = *self;
        let ghost l2 = *interpreter;
        self.consume(interpreter, TokenType::RightParen, "Expect ')' after condition.");
        proof {
            Self::lemma_follows_trans(p0, p1, p2, l0, l1, l2);
            Self::lemma_follows_trans(p0, p2, *self, l0, l2, *interpreter);
        }
        let ghost p3 = *self;
        let ghost l3 = *interpreter;
        let then_jump = self.emit_jump(OpCode::JumpIfFalse);
        self.emit_op(OpCode::Pop);
        proof {
            self.lemma_same_but_code(p3, l3);
            Self::lemma_follows_trans(p0, p3, *self, l0, l3, l3);
        }
        let ghost p4 = *self;
        self.statement(interpreter);
        let ghost p5 = *self;
        let ghost l5 = *interpreter;
        let else_jump = self.emit_jump(OpCode::Jump);
        proof {
            self.lemma_same_but_code(p5, l5);
            Self::lemma_follows_trans(p4, p5, *self, l3, l5, l5);
            Self::lemma_follows_trans(p0, p4, *self, l0, l3, l5);
        }
        let ghost p6 = *self;
        self.patch_jump(interpreter, then_jump);
        let ghost p7 = *self;
        let ghost l7 = *interpreter;
        self.emit_op(OpCode::Pop);
        proof {
            self.lemma_same_but_code(p7, l7);
            Self::lemma_follows_trans(p6, p7, *self, l5, l7, l7);
            Self::lemma_follows_trans(p0, p6, *self, l0, l5, l7);
        }
        let ghost p8 = *self;
        if self.fit(interpreter, TokenType::Else) {
            let ghost p9 = *self;
            let ghost l9 = *interpreter;
            self.statement(interpreter);
            proof { Self::lemma_follows_trans(p8, p9, *self, l7, l9, *interpreter); }
        }
        proof { Self::lemma_follows_trans(p0, p8, *self, l0, l7, *interpreter); }
        let ghost p10 = *self;
        let ghost l10 = *interpreter;
        self.patch_jump(interpreter, else_jump);
        proof { Self::lemma_follows_trans(p0, p10, *self, l0, l10, *interpreter); }
    }

    /// `while ( condition ) statement`, after `while`.
    #[verifier::rlimit(100)]
    #[verifier::spinoff_prover]
    fn while_stmt(&mut self, interpreter: &mut Lox)
        requires
            old(self).wf(),
            old(self).synced(*old(interpreter)),
        ensures
            final(self).cview(*final(interpreter)) == codegen::while_stmt(old(self).cview(*old(interpreter))),
            final(self).follows(*old(self), *old(interpreter), *final(interpreter)),
        decreases old(self).measure(), 70nat,
    {
        proof { broadcast use lemma_mes_view; }
        let ghost p0 = *self;
        let ghost l0 = *interpreter;
        let loop_start = self.frame.function.chunk.code.len();
        self.consume(interpreter, TokenType::LeftParen, "Expect '(' after 'while'.");
        let ghost p1 = *self;
        let ghost l1 = *interpreter;
        self.expression(interpreter);
        let ghost p2 = *self;
        let ghost l2 = *interpreter;
        self.consume(interpreter, TokenType::RightParen, "Expect ')' after condition.");
        proof {
            Self::lemma_follows_trans(p0, p1, p2, l0, l1, l2);
            Self::lemma_follows_trans(p0, p2, *self, l0, l2, *interpreter);
        }
        let ghost p3 = *self;
        let ghost l3 = *interpreter;
        let exit_jump = self.emit_jump(OpCode::JumpIfFalse);
        self.emit_op(OpCode::Pop);
        proof {
            self.lemma_same_but_code(p3, l3);
            Self::lemma_follows_trans(p0, p3, *self, l0, l3, l3);
        }
        let ghost p4 = *self;
        self.statement(interpreter);
        proof { Self::lemma_follows_trans(p0, p4, *self, l0, l3, *interpreter); }
        let ghost p5 = *self;
        let ghost l5 = *interpreter;
        self.emit_loop(interpreter, loop_start);
        proof { Self::lemma_follows_trans(p0, p5, *self, l0, l5, *interpreter); }
        let ghost p6 = *self;
        let ghost l6 = *interpreter;
        self.patch_jump(interpreter, exit_jump);
        let ghost p7 = *self;
        let ghost l7 = *interpreter;
        self.emit_op(OpCode::Pop);
        proof {
            self.lemma_same_but_code(p7, l7);
            Self::lemma_follows_trans(p0, p6, p7, l0, l6, l7);
            Self::lemma_follows_trans(p0, p7, *self, l0, l7, l7);
        }
    }

    /// `for ( init ; condition ; increment ) statement`, after `for`, in a
    /// scope of its own.
    #[verifier::rlimit(100)]
    fn for_stmt(&mut self, interpreter: &mut Lox)
        requires
            old(self).wf(),
            old(self).synced(*old(interpreter)),
            old(self).frame.scope_depth + 1 + old(self).measure() <= old(self).cap(),
        ensures
            final(self).cview(*final(interpreter)) == codegen::for_stmt(old(self).cview(*old(interpreter))),
            final(self).follows(*old(self), *old(interpreter), *final(interpreter)),
        decreases old(self).measure(), 70nat,
    {
        proof { broadcast use lemma_mes_view; }
        let ghost p0 = *self;
        let ghost l0 = *interpreter;
        self.begin_scope();
        let ghost b = *self;
        proof { self.lemma_follows_refl(l0); }
        self.consume(interpreter, TokenType::LeftParen, "Expect '(' after 'for'.");
        proof { Self::lemma_follows_trans(b, b, *self, l0, l0, *interpreter); }
        let ghost q1 = *self;
        let ghost m1 = *interpreter;
        if self.fit(interpreter, TokenType::Semicolon) {
        } else if self.fit(interpreter, TokenType::Var) {
            let ghost q2 = *self;
            let ghost m2 = *interpreter;
            self.var_declaration(interpreter);
            proof { Self::lemma_follows_trans(q1, q2, *self, m1, m2, *interpreter); }
        } else {
            self.expression_stmt(interpreter);
        }
        proof { Self::lemma_follows_trans(b, q1, *self, l0, m1, *interpreter); }

        let mut loop_start = self.frame.function.chunk.code.len();
        let mut exit_jump: Option<usize> = None;
        let ghost q3 = *self;
        let ghost m3 = *interpreter;
        if !self.fit(interpreter, TokenType::Semicolon) {
            self.expression(interpreter);
            let ghost q4 = *self;
            let ghost m4 = *interpreter;
            self.consume(interpreter, TokenType::Semicolon, "Expect ';' after loop condition.");
            let ghost q5 = *self;
            let ghost m5 = *interpreter;
            exit_jump = Some(self.emit_jump(OpCode::JumpIfFalse));
            self.emit_op(OpCode::Pop);
            proof {
                self.lemma_same_but_code(q5, m5);
                Self::lemma_follows_trans(q3, q4, q5, m3, m4, m5);
                Self::lemma_follows_trans(q3, q5, *self, m3, m5, m5);
            }
        }
        proof { Self::lemma_follows_trans(b, q3, *self, l0, m3, *interpreter); }

        let ghost q6 = *self;
        let ghost m6 = *interpreter;
        if !self.fit(interpreter, TokenType::RightParen) {
            let ghost q7 = *self;
            let body_jump = self.emit_jump(OpCode::Jump);
            let increment_start = self.frame.function.chunk.code.len();
            proof { self.lemma_same_but_code(q7, *interpreter); }
            let ghost q8 = *self;
            let ghost m8 = *interpreter;
            self.expression(interpreter);
            let ghost q9 = *self;
            let ghost m9 = *interpreter;
            self.emit_op(OpCode::Pop);
            proof { self.lemma_same_but_code(q9, *interpreter); }
            let ghost q10 = *self;
            let ghost m10 = *interpreter;
            self.consume(interpreter, TokenType::RightParen, "Expect ')' after for clauses.");
            let ghost q11 = *self;
            let ghost m11 = *interpreter;
            self.emit_loop(interpreter, loop_start);
            let ghost q12 = *self;
            let ghost m12 = *interpreter;
            loop_start = increment_start;
            self.patch_jump(interpreter, body_jump);
            proof {
                Self::lemma_follows_trans(q7, q8, q9, m6, m8, m9);
                Self::lemma_follows_trans(q7, q9, q10, m6, m9, m9);
                Self::lemma_follows_trans(q7, q10, q11, m6, m10, m11);
                Self::lemma_follows_trans(q7, q11, q12, m6, m11, m12);
                Self::lemma_follows_trans(q7, q12, *self, m6, m12, *interpreter);
            }
        }
        proof { Self::lemma_follows_trans(b, q6, *self, l0, m6, *interpreter); }

        let ghost q13 = *self;
        let ghost m13 = *interpreter;
        self.statement(interpreter);
        let ghost q14 = *self;
        let ghost m14 = *interpreter;
        self.emit_loop(interpreter, loop_start);
        proof {
            Self::lemma_follows_trans(q13, q14, *self, m13, m14, *interpreter);
            Self::lemma_follows_trans(b, q13, *self, l0, m13, *interpreter);
        }

        match exit_jump {
            Some(j) => {
                let ghost q15 = *self;
                let ghost m15 = *interpreter;
                self.patch_jump(interpreter, j);
                let ghost q16 = *self;
                let ghost m16 = *interpreter;
                self.emit_op(OpCode::Pop);
                proof {
                    self.lemma_same_but_code(q16, m16);
                    Self::lemma_follows_trans(q15, q16, *self, m15, m16, m16);
                    Self::lemma_follows_trans(b, q15, *self, l0, m15, m16);
                }
            }
            None => {}
        }
        let ghost c = *self;
        let ghost lc = *interpreter;
        self.end_scope(interpreter);
        proof { Self::lemma_scoped(p0, b, c, *self, l0, lc); }
    }

    /// Declarations up to `}`, and the `}`.
    #[verifier::rlimit(100)]
    #[verifier::spinoff_prover]
    fn block(&mut self, interpreter: &mut Lox)
        requires
            old(self).wf(),
            old(self).synced(*old(interpreter)),
        ensures
            final(self).cview(*final(interpreter)) == codegen::block(old(self).cview(*old(interpreter))),
            final(self).follows(*old(self), *old(interpreter), *final(interpreter)),
        decreases old(self).measure(), 70nat,
    {
        proof { broadcast use lemma_mes_view; }
        let ghost p0 = *self;
        let ghost l0 = *interpreter;
        proof { self.lemma_follows_refl(l0); }
        let ghost target = codegen::block_loop(self.cview(*interpreter));
        while !self.check(TokenType::RightBrace) && !self.check(TokenType::EoF)
            invariant
                codegen::block_loop(self.cview(*interpreter)) == target,
                self.follows(p0, l0, *interpreter),
                p0.wf(),
                p0 == *old(self),
            decreases self.measure(),
        {
            proof { broadcast use lemma_mes_view; }
            let ghost p1 = *self;
            let ghost l1 = *interpreter;
            self.declaration(interpreter);
            proof { Self::lemma_follows_trans(p0, p1, *self, l0, l1, *interpreter); }
        }
        let ghost p2 = *self;
        let ghost l2 = *interpreter;
        self.consume(interpreter, TokenType::RightBrace, "Expect '}' after block.");
        proof { Self::lemma_follows_trans(p0, p2, *self, l0, l2, *interpreter); }
    }

    /// A statement.
    #[verifier::rlimit(100)]
    #[verifier::spinoff_prover]
    fn statement(&mut self, interpreter: &mut Lox)
        requires
            old(self).wf(),
            old(self).synced(*old(interpreter)),
        ensures
            final(self).cview(*final(interpreter)) == codegen::statement(old(self).cview(*old(interpreter))),
            final(self).follows(*old(self), *old(interpreter), *final(interpreter)),
            old(self).ahead() ==> final(self).measure() < old(self).measure(),
        decreases old(self).measure(), 50nat,
    {
        proof { broadcast use lemma_mes_view; }
        let ghost p0 = *self;
        let ghost l0 = *interpreter;
        if self.fit(interpreter, TokenType::Print) {
            let ghost p1 = *self;
            let ghost l1 = *interpreter;
            self.print_stmt(interpreter);
            proof { Self::lemma_follows_trans(p0, p1, *self, l0, l1, *interpreter); }
        } else if self.fit(interpreter, TokenType::For) {
            let ghost p1 = *self;
            let ghost l1 = *interpreter;
            self.for_stmt(interpreter);
            proof { Self::lemma_follows_trans(p0, p1, *self, l0, l1, *interpreter); }
        } else if self.fit(interpreter, TokenType::If) {
            let ghost p1 = *self;
            let ghost l1 = *interpreter;
            self.if_stmt(interpreter);
            proof { Self::lemma_follows_trans(p0, p1, *self, l0, l1, *interpreter); }
        } else if self.fit(interpreter, TokenType::Return) {
            let ghost p1 = *self;
            let ghost l1 = *interpreter;
            self.return_stmt(interpreter);
            proof { Self::lemma_follows_trans(p0, p1, *self, l0, l1, *interpreter); }
        } else if self.fit(interpreter, TokenType::While) {
            let ghost p1 = *self;
            let ghost l1 = *interpreter;
            self.while_stmt(interpreter);
            proof { Self::lemma_follows_trans(p0, p1, *self, l0, l1, *interpreter); }
        } else if self.fit(interpreter, TokenType::LeftBrace) {
            let ghost p1 = *self;
            let ghost l1 = *interpreter;
            self.begin_scope();
            let ghost b = *self;
            self.block(interpreter);
            let ghost c = *self;
            let ghost lc = *interpreter;
            self.end_scope(interpreter);
            proof {
                Self::lemma_scoped(p1, b, c, *self, l1, lc);
                Self::lemma_follows_trans(p0, p1, *self, l0, l1, *interpreter);
            }
        } else {
            self.expression_stmt(interpreter);
        }
    }

    /// Skips tokens after an error until a statement boundary.
    fn synchronize(&mut self, interpreter: &mut Lox)
        requires
            old(self).wf(),
            old(self).synced(*old(interpreter)),
        ensures
            final(self).cview(*final(interpreter)) == codegen::synchronize(old(self).cview(*old(interpreter))),
            final(self).follows(*old(self), *old(interpreter), *final(interpreter)),
    {
        proof { broadcast use lemma_mes_view; }
        let ghost p0 = *self;
        let ghost l0 = *interpreter;
        self.panic_mode = false;
        proof { self.lemma_follows_refl(l0); }
        let ghost target = codegen::sync_loop(self.cview(*interpreter));
        while self.current.kind != TokenType::EoF
            invariant
                codegen::sync_loop(self.cview(*interpreter)) == target,
                target == codegen::synchronize(old(self).cview(*old(interpreter))),
                self.follows(p0, l0, *interpreter),
                p0 == *old(self),
                l0 == *old(interpreter),
            decreases self.measure(),
        {
            proof { broadcast use lemma_mes_view; }
            if self.previous.kind == TokenType::Semicolon {
                return;
            }
            let k = self.current.kind;
            if k == TokenType::Class || k == TokenType::Fun || k == TokenType::Var || k == TokenType::For
                || k == TokenType::If || k == TokenType::While || k == TokenType::Print || k == TokenType::Return
            {
                return;
            }
            let ghost p1 = *self;
            let ghost l1 = *interpreter;
            self.advance(interpreter);
            proof { Self::lemma_follows_trans(p0, p1, *self, l0, l1, *interpreter); }
        }
    }

    /// A declaration; after an error, recovers at the next statement.
    #[verifier::rlimit(100)]
    #[verifier::spinoff_prover]
    fn declaration(&mut self, interpreter: &mut Lox)
        requires
            old(self).wf(),
            old(self).synced(*old(interpreter)),
        ensures
            final(self).cview(*final(interpreter)) == codegen::declaration(old(self).cview(*old(interpreter))),
            final(self).follows(*old(self), *old(interpreter), *final(interpreter)),
            old(self).ahead() ==> final(self).measure() < old(self).measure(),
        decreases old(self).measure(), 60nat,
    {
        proof { broadcast use lemma_mes_view; }
        let ghost p0 = *self;
        let ghost l0 = *interpreter;
        if self.fit(interpreter, TokenType::Fun) {
            let ghost p1 = *self;
            let ghost l1 = *interpreter;
            self.fun_declaration(interpreter);
            proof { Self::lemma_follows_trans(p0, p1, *self, l0, l1, *interpreter); }
        } else if self.fit(interpreter, TokenType::Var) {
            let ghost p1 = *self;
            let ghost l1 = *interpreter;
            self.var_declaration(interpreter);
            proof { Self::lemma_follows_trans(p0, p1, *self, l0, l1, *interpreter); }
        } else {
            self.statement(interpreter);
        }
        if self.panic_mode {
            let ghost p2 = *self;
            let ghost l2 = *interpreter;
            self.synchronize(interpreter);
            proof { Self::lemma_follows_trans(p0, p2, *self, l0, l2, *interpreter); }
        }
    }

    /// `fun name ( params ) { body }`, after `fun`.
    fn fun_declaration(&mut self, interpreter: &mut Lox)
        requires
            old(self).wf(),
            old(self).synced(*old(interpreter)),
        ensures
            final(self).cview(*final(interpreter)) == codegen::fun_declaration(old(self).cview(*old(interpreter))),
            final(self).follows(*old(self), *old(interpreter), *final(interpreter)),
        decreases old(self).measure(), 90nat,
    {
        proof { broadcast use lemma_mes_view; }
        let ghost p0 = *self;
        let ghost l0 = *interpreter;
        let global = self.parse_variable(interpreter, "Expect function name.");
        let ghost p1 = *self;
        let ghost l1 = *interpreter;
        self.mark_initialized();
        proof {
            self.lemma_mark_follows(p1, l1);
            Self::lemma_follows_trans(p0, p1, *self, l0, l1, l1);
        }
        let ghost p2 = *self;
        self.function(interpreter, FunType::Function);
        let ghost p3 = *self;
        let ghost l3 = *interpreter;
        self.define_variable(interpreter, global);
        proof {
            Self::lemma_follows_trans(p0, p2, p3, l0, l1, l3);
            Self::lemma_follows_trans(p0, p3, *self, l0, l3, *interpreter);
        }
    }

    /// Ends the function being compiled: appends its return, and goes back
    /// to the enclosing one; gives the finished function and its upvalues.
    fn end_function(&mut self) -> (r: (Function, Vec<UpvalueRef>))
        requires
            old(self).wf(),
            old(self).enclosing@.len() >= 1,
        ensures
            forall|lox: Lox| #[trigger] final(self).cview(lox) == codegen::end_function(old(self).cview(lox)).0
                && codegen::fun_view(r.0) == codegen::end_function(old(self).cview(lox)).1
                && r.1@ == codegen::end_function(old(self).cview(lox)).2,
            final(self).wf(),
            final(self).frame == old(self).enclosing@.last(),
            final(self).enclosing@ == old(self).enclosing@.drop_last(),
            final(self).scanner == old(self).scanner,
            final(self).current == old(self).current,
            final(self).previous == old(self).previous,
            final(self).had_error == old(self).had_error,
            final(self).base == old(self).base,
            r.0.name == old(self).frame.function.name,
            r.0.arity == old(self).frame.function.arity,
            r.0.upvalue_count == old(self).frame.upvalues@.len(),
            r.0.chunk.code@ == old(self).code().push(op_byte(OpCode::Nil)).push(op_byte(OpCode::Return)),
            r.1@ == old(self).frame.upvalues@,
    {
        proof { reveal(codegen::end_function); reveal(codegen::emit_return); }
        self.emit_return();
        let ghost e1 = *self;
        let mut f = self.enclosing.pop().unwrap();
        std::mem::swap(&mut self.frame, &mut f);
        let ups = f.upvalues;
        let mut proto = f.function;
        proto.upvalue_count = ups.len();
        proof {
            assert(frame_ok(old(self).enclosing@[old(self).enclosing@.len() - 1]));
            assert forall|i: int| 0 <= i < self.enclosing@.len() implies #[trigger] frame_ok(self.enclosing@[i]) by {
                assert(self.enclosing@[i] == old(self).enclosing@[i]);
                assert(frame_ok(old(self).enclosing@[i]));
            }
            assert(chunks_ok(self.frame.function.chunk, self.enclosing@)) by {
                reveal(chunks_ok);
                assert(e1.enclosing@ == old(self).enclosing@);
                assert(lines_match(e1.enclosing@[e1.enclosing@.len() - 1].function.chunk));
                assert forall|i: int| 0 <= i < self.enclosing@.len() implies #[trigger] lines_match(self.enclosing@[i].function.chunk) by {
                    assert(self.enclosing@[i] == e1.enclosing@[i]);
                }
            }
            assert forall|i: int| 0 <= i < self.enclosing@.len() implies
                #[trigger] self.enclosing@[i].scope_depth + self.measure() <= self.cap() by {
                assert(self.enclosing@[i] == old(self).enclosing@[i]);
            }
            assert(old(self).enclosing@[old(self).enclosing@.len() - 1].scope_depth + old(self).measure() <= old(self).cap());
            assert forall|lox: Lox| #[trigger] self.cview(lox) == codegen::end_function(old(self).cview(lox)).0
                && codegen::fun_view(proto) == codegen::end_function(old(self).cview(lox)).1
                && ups@ == codegen::end_function(old(self).cview(lox)).2 by {
                assert(e1.cview(lox) == codegen::emit_return(old(self).cview(lox)));
                assert(frames_view(self.enclosing@) =~= frames_view(e1.enclosing@).drop_last());
                assert(frame_view(self.frame) == frames_view(e1.enclosing@).last());
                assert(self.cview(lox) =~= codegen::end_function(old(self).cview(lox)).0);
                assert(codegen::fun_view(proto) =~= codegen::end_function(old(self).cview(lox)).1);
            }
        }
        (proto, ups)
    }

    /// The parameters and body of a function of kind `kind`, compiled into a
    /// new function; then the `Closure` instruction that makes it, with the
    /// variables it captures.
    #[verifier::rlimit(100)]
    fn function(&mut self, interpreter: &mut Lox, kind: FunType)
        requires
            old(self).wf(),
            old(self).synced(*old(interpreter)),
        ensures
            final(self).cview(*final(interpreter)) == codegen::function(old(self).cview(*old(interpreter)), kind),
            final(self).follows(*old(self), *old(interpreter), *final(interpreter)),
        decreases old(self).measure(), 80nat,
    {
        proof { broadcast use lemma_mes_view; }
        let ghost p0 = *self;
        let ghost l0 = *interpreter;
        let name = self.scanner.lexeme(self.previous.start, self.previous.length);
        let mut locals: Vec<Local> = Vec::new();
        locals.push(Local { name: Token::new(TokenType::Identifier, 0, 0, -1), depth: 0, is_captured: false });
        let mut f = Compiler {
            function: Function { name, arity: 0, upvalue_count: 0, chunk: Chunk::new() },
            kind,
            locals,
            upvalues: Vec::new(),
            scope_depth: 0,
        };
        let ghost c0 = self.cview(*interpreter);
        std::mem::swap(&mut self.frame, &mut f);
        self.enclosing.push(f);
        proof {
            let s1 = CState {
                frame: codegen::new_frame(lexeme_of(c0.text, c0.previous), kind),
                enclosing: c0.enclosing.push(c0.frame),
                ..c0
            };
            assert(self.frame.locals@ =~= seq![codegen::self_slot()]);
            assert(self.frame.function.chunk.constants@ =~= Seq::<Constant>::empty());
            assert(frame_view(self.frame).fun =~= s1.frame.fun);
            assert(frame_view(self.frame) =~= s1.frame);
            assert(frames_view(self.enclosing@) =~= s1.enclosing);
            assert(self.cview(*interpreter) =~= s1);
        }
        proof {
            assert forall|i: int| 0 <= i < self.enclosing@.len() implies #[trigger] frame_ok(self.enclosing@[i]) by {
                if i < p0.enclosing@.len() {
                    assert(self.enclosing@[i] == p0.enclosing@[i]);
                    assert(frame_ok(p0.enclosing@[i]));
                }
            }
            assert(chunks_ok(self.frame.function.chunk, self.enclosing@)) by {
                reveal(chunks_ok);
                assert forall|i: int| 0 <= i < self.enclosing@.len() implies #[trigger] lines_match(self.enclosing@[i].function.chunk) by {
                    if i < p0.enclosing@.len() {
                        assert(self.enclosing@[i] == p0.enclosing@[i]);
                    }
                }
            }
            assert forall|i: int| 0 <= i < self.enclosing@.len() implies
                #[trigger] self.enclosing@[i].scope_depth + self.measure() <= self.cap() by {
                if i < p0.enclosing@.len() {
                    assert(self.enclosing@[i] == p0.enclosing@[i]);
                }
            }
            self.scanner.lemma_position_bounds();
        }
        self.begin_scope();
        let ghost q0 = *self;
        proof { self.lemma_follows_refl(l0); }
        self.consume(interpreter, TokenType::LeftParen, "Expect '(' after function name.");
        proof { Self::lemma_follows_trans(q0, q0, *self, l0, l0, *interpreter); }
        let ghost qs = *self;
        let ghost ls = *interpreter;
        proof { self.lemma_follows_refl(ls); }
        let mut arity: usize = 0;
        if !self.check(TokenType::RightParen) {
            let ghost target = codegen::param_loop(self.cview(*interpreter), 0);
            loop
                invariant_except_break
                    arity + self.measure() <= self.cap(),
                    codegen::param_loop(self.cview(*interpreter), arity as nat) == target,
                invariant
                    self.follows(qs, ls, *interpreter),
                ensures
                    arity <= self.cap() + 1,
                    (self.cview(*interpreter), arity as nat) == target,
                decreases self.measure(),
            {
                proof { broadcast use lemma_mes_view; }
                let ghost q3 = *self;
                let ghost m3 = *interpreter;
                arity = arity + 1;
                if arity > 255 {
                    self.error_at_current(interpreter, "Can't have more than 255 parameters.");
                } else {
                    proof { self.lemma_follows_refl(m3); }
                }
                let ghost q4 = *self;
                let ghost m4 = *interpreter;
                let constant = self.parse_variable(interpreter, "Expect parameter name.");
                let ghost q5 = *self;
                let ghost m5 = *interpreter;
                self.define_variable(interpreter, constant);
                let ghost q6 = *self;
                let ghost m6 = *interpreter;
                let more = self.fit(interpreter, TokenType::Comma);
                proof {
                    Self::lemma_follows_trans(q3, q4, q5, m3, m4, m5);
                    Self::lemma_follows_trans(q3, q5, q6, m3, m5, m6);
                    Self::lemma_follows_trans(q3, q6, *self, m3, m6, *interpreter);
                    Self::lemma_follows_trans(qs, q3, *self, ls, m3, *interpreter);
                }
                if !more {
                    break;
                }
            }
        } else {
            proof { self.lemma_follows_refl(*interpreter); }
        }
        let ghost qa = *self;
        let ghost la = *interpreter;
        self.frame.function.arity = arity;
        let ghost qb = *self;
        proof {
            Self::lemma_follows_trans(q0, qs, qa, l0, ls, la);
            let ca = qa.cview(la);
            let t = codegen::with_fun(ca, codegen::FunView { arity: arity as nat, ..ca.frame.fun });
            assert(qb.cview(la).frame.fun =~= t.frame.fun);
            assert(qb.cview(la).frame =~= t.frame);
            assert(qb.cview(la) =~= t);
        }
        self.consume(interpreter, TokenType::RightParen, "Expect ')' after parameters.");
        let ghost q7 = *self;
        let ghost m7 = *interpreter;
        self.consume(interpreter, TokenType::LeftBrace, "Expect '{' before function body.");
        let ghost q8 = *self;
        let ghost m8 = *interpreter;
        self.block(interpreter);
        let ghost q9 = *self;
        let ghost m9 = *interpreter;
        proof {
            Self::lemma_follows_trans(qb, q7, q8, la, m7, m8);
            Self::lemma_follows_trans(qb, q8, q9, la, m8, m9);
        }
        let (proto, upvalues) = self.end_function();
        let ghost q10 = *self;
        proof {
            let n = p0.enclosing@.len() as int;
            assert(q0.enclosing@ == p0.enclosing@.push(p0.frame));
            assert(qb.enclosing == qa.enclosing);
            assert(q9.enclosing@[n].function == qb.enclosing@[n].function);
            assert(qa.enclosing@[n].function == q0.enclosing@[n].function);
            assert forall|i: int| 0 <= i < n implies {
                &&& (#[trigger] q10.enclosing@[i]).scope_depth == p0.enclosing@[i].scope_depth
                &&& q10.enclosing@[i].kind == p0.enclosing@[i].kind
                &&& q10.enclosing@[i].function == p0.enclosing@[i].function
            } by {
                assert(q10.enclosing@[i] == q9.enclosing@[i]);
                assert(q9.enclosing@[i].function == qb.enclosing@[i].function);
                assert(qa.enclosing@[i].function == q0.enclosing@[i].function);
                assert(q0.enclosing@[i] == p0.enclosing@[i]);
            }
            crate::resolver::lemma_reported_to_trans(l0, la, m9);
            assert(q10.follows(p0, l0, m9));
        }
        let index = self.make_constant(interpreter, Constant::Function(Box::new(proto)));
        let ghost q11 = *self;
        let ghost m11 = *interpreter;
        self.emit_op_byte(OpCode::Closure, index);
        let ghost ct = codegen::emit_captures(self.cview(*interpreter), upvalues@, 0);
        let mut i: usize = 0;
        while i < upvalues.len()
            invariant
                codegen::emit_captures(self.cview(*interpreter), upvalues@, i as int) == ct,
                *interpreter == m11,
                i <= upvalues@.len(),
                self.same_but_code(q11),
                self.code().len() >= q11.code().len(),
            decreases upvalues@.len() - i,
        {
            proof { reveal_with_fuel(codegen::emit_captures, 1); }
            let u = upvalues[i];
            self.emit_byte(if u.is_local { 1 } else { 0 });
            self.emit_byte(u.index);
            i = i + 1;
        }
        proof { reveal_with_fuel(codegen::emit_captures, 1); }
        proof {
            self.lemma_same_but_code(q11, m11);
            Self::lemma_follows_trans(p0, q10, q11, l0, m9, m11);
            Self::lemma_follows_trans(p0, q11, *self, l0, m11, m11);
        }
    }


    /// Declarations up to the end of the text, and the end of file.
    #[verifier::rlimit(100)]
    #[verifier::spinoff_prover]
    fn declarations(&mut self, interpreter: &mut Lox)
        requires
            old(self).wf(),
            old(self).synced(*old(interpreter)),
        ensures
            final(self).cview(*final(interpreter)) == codegen::program_loop(old(self).cview(*old(interpreter))),
            final(self).follows(*old(self), *old(interpreter), *final(interpreter)),
    {
        let ghost p0 = *self;
        let ghost l0 = *interpreter;
        let ghost target = codegen::program_loop(self.cview(*interpreter));
        proof { self.lemma_follows_refl(l0); }
        loop
            invariant_except_break
                codegen::program_loop(self.cview(*interpreter)) == target,
            invariant
                self.follows(p0, l0, *interpreter),
            ensures
                self.follows(p0, l0, *interpreter),
                self.cview(*interpreter) == target,
            decreases self.measure(),
        {
            proof { broadcast use lemma_mes_view; }
            let ghost p1 = *self;
            let ghost l1 = *interpreter;
            if self.fit(interpreter, TokenType::EoF) {
                proof { Self::lemma_follows_trans(p0, p1, *self, l0, l1, *interpreter); }
                break;
            }
            self.declaration(interpreter);
            proof { Self::lemma_follows_trans(p0, p1, *self, l0, l1, *interpreter); }
        }
    }

    /// Compiles `source` as the top-level script: the reports and the
    /// function are those of `compiled(source, reports)`. The errors found
    /// are reported to `interpreter`; the result is the script's function
    /// when none was, and the error `had_error = true.` when some were.
    #[verifier::rlimit(100)]
    #[verifier::spinoff_prover]
    pub fn compile(interpreter: &mut Lox, source: &str) -> (r: Result<Function, CompileError>)
        requires
            source@.len() + 16 < isize::MAX,
        ensures
            reported_to(*old(interpreter), *final(interpreter)),
            r is Err <==> final(interpreter).reports().len() > old(interpreter).reports().len(),
            r matches Err(e) ==> e.spec_message() == "had_error = true."@,
            ({
                let st = codegen::compiled(source@, old(interpreter).reports());
                &&& final(interpreter).reports() == st.reports
                &&& (r is Ok <==> !st.had_error)
                &&& (r matches Ok(f) ==> codegen::fun_view(f) == codegen::script_of(st))
            }),
            r is Ok ==> final(interpreter).reports() == old(interpreter).reports(),
            r matches Ok(f) ==> {
                &&& f.name@ == Seq::<char>::empty()
                &&& f.arity == 0
                &&& f.upvalue_count == 0
                &&& f.chunk.code@.len() >= 2
                &&& f.chunk.code@[f.chunk.code@.len() - 2] == op_byte(OpCode::Nil)
                &&& f.chunk.code@[f.chunk.code@.len() - 1] == op_byte(OpCode::Return)
                &&& f.chunk.code@.len() == f.chunk.lines@.len()
            },
    {
        let mut locals: Vec<Local> = Vec::new();
        locals.push(Local { name: Token::new(TokenType::Identifier, 0, 0, -1), depth: 0, is_captured: false });
        let frame = Compiler {
            function: Function::new(),
            kind: FunType::Script,
            locals,
            upvalues: Vec::new(),
            scope_depth: 0,
        };
        let mut parser = Parser {
            scanner: Scanner::new(source.to_owned()),
            current: Token::default(),
            previous: Token::default(),
            had_error: false,
            panic_mode: false,
            frame,
            enclosing: Vec::new(),
            base: Ghost(interpreter.reports().len()),
        };
        let ghost p0 = parser;
        let ghost l0 = *interpreter;
        proof {
            broadcast use lemma_mes_view;
            parser.scanner.lemma_position_bounds();
            assert(chunks_ok(parser.frame.function.chunk, parser.enclosing@)) by {
                reveal(chunks_ok);
            }
            parser.lemma_follows_refl(l0);
            let st = codegen::start_state(source@, l0.reports());
            assert(parser.frame.locals@ =~= seq![codegen::self_slot()]);
            assert(parser.frame.function.chunk.constants@ =~= Seq::<Constant>::empty());
            assert(frame_view(parser.frame).fun =~= st.frame.fun);
            assert(frame_view(parser.frame) =~= st.frame);
            assert(frames_view(parser.enclosing@) =~= st.enclosing);
            assert(parser.cview(l0) =~= st);
        }
        let ghost st0 = codegen::start_state(source@, l0.reports());
        parser.advance(interpreter);
        let ghost p1 = parser;
        let ghost l1 = *interpreter;
        proof { assert(parser.cview(*interpreter) == codegen::advance(st0)); }
        parser.declarations(interpreter);
        proof {
            Self::lemma_follows_trans(p0, p1, parser, l0, l1, *interpreter);
            assert(parser.cview(*interpreter) == codegen::program_loop(codegen::advance(st0)));
        }
        let ghost p2 = parser;
        parser.emit_return();
        proof {
            assert(parser.cview(*interpreter) == codegen::emit_return(p2.cview(*interpreter)));
            assert(parser.cview(*interpreter) == codegen::compiled(source@, l0.reports()));
        }
        if parser.had_error {
            return Err(CompileError::new("had_error = true."));
        }
        proof {
            assert(interpreter.reports().subrange(0, l0.reports().len() as int) =~= interpreter.reports());
        }
        let ghost fin = parser;
        proof {
            parser.lemma_same_but_code(p2, *interpreter);
            assert(lines_match(fin.frame.function.chunk)) by {
                reveal(chunks_ok);
            }
        }
        let mut function = parser.frame.function;
        function.upvalue_count = parser.frame.upvalues.len();
        proof {
            assert(codegen::fun_view(function) =~= codegen::script_of(fin.cview(*interpreter)));
        }
        Ok(function)
    }

}

} // verus!
