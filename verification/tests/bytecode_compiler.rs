use lox::bvm::debug::{can_disassemble, disassemble_instruction};
use lox::bvm::emit::{Constant, Function, Parser};
use lox::bvm::scanner::Scanner as ByteScanner;
use lox::bvm::token::TokenType as ByteTokenType;
use lox::evaluator::environment::Environment;
use lox::lexer::token::{Literal, Token, TokenType};
use lox::Lox;

fn compiled(source: &str) -> Function {
    let mut interpreter = Lox::new();
    match Parser::compile(&mut interpreter, source) {
        Ok(f) => {
            assert!(!interpreter.had_error());
            assert!(interpreter.messages().is_empty());
            f
        }
        Err(e) => panic!("unexpected error {} {:?}", e.message(), interpreter.messages()),
    }
}

fn errors(source: &str) -> Vec<String> {
    let mut interpreter = Lox::new();
    match Parser::compile(&mut interpreter, source) {
        Ok(_) => panic!("expected an error"),
        Err(e) => {
            assert_eq!(e.message(), "had_error = true.");
            assert!(interpreter.had_error());
            interpreter.messages().clone()
        }
    }
}

fn function_constant(f: &Function, index: usize) -> &Function {
    match &f.chunk.constants[index] {
        Constant::Function(g) => g,
        _ => panic!("not a function"),
    }
}

#[test]
fn print_of_a_number() {
    let f = compiled("print 1;");
    assert_eq!(f.name, "");
    assert_eq!(f.arity, 0);
    assert_eq!(f.chunk.code, vec![0, 0, 24, 1, 33]);
    assert_eq!(f.chunk.lines, vec![1, 1, 1, 1, 1]);
    match &f.chunk.constants[0] {
        Constant::Number(n) => assert_eq!(n.text(), "1"),
        _ => panic!("not a number"),
    }
}

#[test]
fn empty_script_is_nil_return() {
    let f = compiled("");
    assert_eq!(f.chunk.code, vec![1, 33]);
    assert_eq!(f.upvalue_count, 0);
}

#[test]
fn globals_are_defined_and_read_by_name() {
    let f = compiled("var a = 1; print a;");
    assert_eq!(f.chunk.code, vec![0, 1, 8, 0, 7, 2, 24, 1, 33]);
    match &f.chunk.constants[0] {
        Constant::Str(s) => assert_eq!(s, "a"),
        _ => panic!("not a name"),
    }
    match &f.chunk.constants[2] {
        Constant::Str(s) => assert_eq!(s, "a"),
        _ => panic!("not a name"),
    }
}

#[test]
fn strings_lose_their_quotes() {
    let f = compiled("print \"hi\";");
    match &f.chunk.constants[0] {
        Constant::Str(s) => assert_eq!(s, "hi"),
        _ => panic!("not a string"),
    }
}

#[test]
fn arithmetic_follows_precedence() {
    let f = compiled("print 1 + 2 * 3;");
    // 1, 2, 3, Multiply, Add, Print
    assert_eq!(f.chunk.code, vec![0, 0, 0, 1, 0, 2, 20, 18, 24, 1, 33]);
    let g = compiled("print !(1 >= 2);");
    // 1, 2, Less, Not, Not, Print
    assert_eq!(g.chunk.code, vec![0, 0, 0, 1, 17, 22, 22, 24, 1, 33]);
}

#[test]
fn if_jumps_are_patched_big_endian() {
    let f = compiled("if (true) print 1;");
    assert_eq!(f.chunk.code, vec![2, 26, 0, 7, 4, 0, 0, 24, 25, 0, 1, 4, 1, 33]);
    assert_eq!(f.chunk.lines.len(), f.chunk.code.len());
}

#[test]
fn while_loops_jump_back() {
    let f = compiled("while (false) print 1;");
    assert_eq!(f.chunk.code, vec![3, 26, 0, 7, 4, 0, 0, 24, 27, 0, 11, 4, 1, 33]);
}

#[test]
fn long_jumps_use_both_bytes() {
    let mut source = String::from("if (true) {");
    for _ in 0..100 {
        source.push_str("print 1;");
    }
    source.push('}');
    let f = compiled(&source);
    // 100 times Constant (2 bytes) and Print: 300 bytes, then the else jump.
    assert_eq!(&f.chunk.code[1..4], &[26, 1, 48]);
}

#[test]
fn locals_live_in_slots() {
    let f = compiled("{ var a = 1; print a; }");
    // Constant 0, GetLocal 1, Print, Pop at the end of the block.
    assert_eq!(f.chunk.code, vec![0, 0, 5, 1, 24, 4, 1, 33]);
}

#[test]
fn functions_are_compiled_into_constants() {
    let f = compiled("fun f(a) { return a; }");
    assert_eq!(f.chunk.code, vec![31, 1, 8, 0, 1, 33]);
    let g = function_constant(&f, 1);
    assert_eq!(g.name(), "f");
    assert_eq!(g.arity(), 1);
    assert_eq!(g.upvalue_count(), 0);
    assert_eq!(g.chunk().code, vec![5, 1, 33, 1, 33]);
    let mut h = Function::new();
    h.set_name("h".to_string());
    h.change_arity(2);
    h.change_upvalue_count(1);
    assert_eq!((h.name().as_str(), h.arity(), h.upvalue_count()), ("h", 2, 1));
    let mut f = f;
    f.free();
    assert_eq!(f.name(), "");
    assert!(f.chunk().code.is_empty() && f.chunk().constants.is_empty());
}

#[test]
fn closures_capture_enclosing_locals() {
    let f = compiled("fun o() { var x = 1; fun i() { return x; } }");
    assert_eq!(f.upvalue_count, 0);
    let o = function_constant(&f, 1);
    assert_eq!(o.upvalue_count, 0);
    assert_eq!(o.chunk.code, vec![0, 0, 31, 1, 1, 1, 1, 33]);
    let i = function_constant(o, 1);
    assert_eq!(i.upvalue_count, 1);
    assert_eq!(i.chunk.code, vec![10, 0, 33, 1, 33]);
}

#[test]
fn calls_count_their_arguments() {
    let f = compiled("f(1, 2);");
    assert_eq!(f.chunk.code, vec![7, 0, 0, 1, 0, 2, 28, 2, 4, 1, 33]);
}

// The place of an error names the look-ahead token, also for errors found at
// the token before it.
#[test]
fn missing_expression_is_reported() {
    assert_eq!(errors("print ;"), vec!["[line 1] CompileError at '': Expect expression.".to_string()]);
}

#[test]
fn compile_errors_name_their_place() {
    assert_eq!(
        errors("{ var a = a; }"),
        vec!["[line 1] CompileError at ';': Can't read local variable in its own initializer.".to_string()]
    );
    assert_eq!(
        errors("return 1;"),
        vec!["[line 1] CompileError at '1': Can't return from top-level code.".to_string()]
    );
    assert_eq!(errors("print 1"), vec!["[line 1] CompileError at end: Expect ';' after value.".to_string()]);
    assert_eq!(errors("1 = 2;"), vec!["[line 1] CompileError at '2': Invalid assignment target.".to_string()]);
}

#[test]
fn scan_errors_are_reported_once_per_statement() {
    let messages = errors("print @;\nprint 1");
    assert_eq!(messages.len(), 2);
    assert_eq!(messages[0], "[line 1] CompileError at 'print': Unexpected character.");
    assert_eq!(messages[1], "[line 2] CompileError at end: Expect ';' after value.");
}

#[test]
fn assign_changes_only_the_innermost_binding() {
    let mut global: Environment<i32> = Environment::new(None, 0);
    global.define("a".to_string(), 1);
    let mut inner = Environment::new(Some(Box::new(global)), 0);
    inner.define("a".to_string(), 2);
    let a = Token::new(TokenType::Identifier, "a", Literal::Nil, 1);
    assert!(inner.assign(&a, 3).is_ok());
    assert_eq!(*inner.get(&a).ok().unwrap(), 3);
    let outer = Environment::from_inner(inner.into_enclosing(), 0);
    assert_eq!(*outer.get(&a).ok().unwrap(), 1);
}

const ONES: &str = "var one = \"1\";
var ones = \"\";

for (var i = 1; i < 10; i = i + 2) {
    ones = ones + one;
}

print ones;
";

#[test]
fn readme_program_compiles_to_the_listed_bytecode() {
    let f = compiled(ONES);
    assert_eq!(
        f.chunk.code,
        vec![
            0, 1, 8, 0, 0, 3, 8, 2, 0, 4, 5, 1, 0, 5, 17, 26, 0, 26, 4, 25, 0, 11, 5, 1, 0, 6, 18, 6, 1, 4,
            27, 0, 23, 7, 8, 7, 9, 18, 9, 7, 4, 27, 0, 22, 4, 4, 7, 10, 24, 1, 33
        ]
    );
    assert_eq!(f.chunk.lines[0], 1);
    assert_eq!(f.chunk.lines[4], 2);
    assert_eq!(f.chunk.lines[8], 4);
    assert_eq!(f.chunk.lines[33], 5);
    assert_eq!(f.chunk.lines[41], 6);
    assert_eq!(f.chunk.lines[46], 8);
    assert_eq!(f.chunk.lines[49], 9);
    let texts: Vec<String> = f
        .chunk
        .constants
        .iter()
        .map(|c| match c {
            Constant::Number(n) => n.text().to_string(),
            Constant::Str(s) => s.clone(),
            Constant::Function(g) => g.name.clone(),
        })
        .collect();
    assert_eq!(texts, vec!["one", "1", "ones", "", "1", "10", "2", "ones", "ones", "one", "ones"]);
    let mut offset = 0;
    let mut count = 0;
    while offset < f.chunk.code.len() {
        assert!(can_disassemble(&f.chunk, offset));
        let (_, _, next) = disassemble_instruction(&f.chunk, offset);
        offset = next;
        count += 1;
    }
    assert_eq!(count, 29);
}

#[test]
fn scanner_lines_count_line_breaks() {
    let mut scanner = ByteScanner::new(ONES.to_string());
    let mut last = None;
    loop {
        match scanner.scan_token() {
            Ok(t) => {
                let breaks = ONES.chars().take(t.start + t.length).filter(|c| *c == '\n').count();
                assert_eq!(t.line as usize, 1 + breaks);
                if scanner.lexeme(t.start, t.length) == "print" {
                    assert_eq!(t.line, 8);
                }
                if t.kind == ByteTokenType::EoF {
                    assert_eq!(t.line, 9);
                    last = Some(t);
                    break;
                }
            }
            Err(_) => panic!("no scan error expected"),
        }
    }
    let again = scanner.scan_token().ok().unwrap();
    assert_eq!(again.kind, ByteTokenType::EoF);
    assert_eq!(again.start, last.unwrap().start);
}

#[test]
fn limits_are_reported() {
    let mut locals = String::from("{");
    for i in 0..256 {
        locals.push_str(&format!(" var a{i};"));
    }
    locals.push_str(" }");
    assert_eq!(
        errors(&locals),
        vec!["[line 1] CompileError at ';': Too many local variables in function. Current variable count: 256.".to_string()]
    );

    let mut constants = String::new();
    for i in 0..257 {
        constants.push_str(&format!("print {i};"));
    }
    assert_eq!(errors(&constants), vec!["[line 1] CompileError at ';': Too many constants in one chunk.".to_string()]);

    let params: Vec<String> = (0..256).map(|i| format!("a{i}")).collect();
    let function = format!("fun f({}) {{}}", params.join(", "));
    assert_eq!(errors(&function), vec!["[line 1] CompileError at 'a255': Can't have more than 255 parameters.".to_string()]);
}
