use lox::ast::expr::Expr;
use lox::ast::stmt::Stmt;
use lox::evaluator::environment::Environment;
use lox::evaluator::RuntimeError;
use lox::lexer::scanner::Scanner;
use lox::lexer::token::{Literal, Token, TokenType};
use lox::parser::Parser;
use lox::resolver::Resolver;
use lox::Lox;

fn ident(name: &str) -> Token {
    Token::new(TokenType::Identifier, name, Literal::Nil, 1)
}

fn parse(interpreter: &mut Lox, source: &str) -> Vec<Option<Stmt>> {
    let mut scanner = Scanner::new(source);
    scanner.scan_tokens(interpreter);
    let tokens: Vec<Token> = scanner.tokens().iter().map(|t| t.copied()).collect();
    Parser::new(tokens).parse(interpreter)
}

fn resolve(source: &str) -> (Lox, Vec<(String, usize)>) {
    let mut interpreter = Lox::new();
    let statements = parse(&mut interpreter, source);
    assert!(!interpreter.had_error());
    let mut resolver = Resolver::new();
    resolver.resolve_optional_stmts(&mut interpreter, &statements);
    let locals = resolver
        .locals()
        .iter()
        .map(|(e, d)| match e {
            Expr::Variable(t) | Expr::Assign(t, _) => (t.get_lexeme().to_string(), *d),
            _ => ("?".to_string(), *d),
        })
        .collect();
    (interpreter, locals)
}

#[test]
fn lookup_after_define_and_assign() {
    let mut global: Environment<i32> = Environment::new(None, 0);
    global.define("a".to_string(), 1);
    assert_eq!(*global.get(&ident("a")).ok().unwrap(), 1);
    assert_eq!(*global.get(&ident("clock")).ok().unwrap(), 0);
    global.define("a".to_string(), 2);
    assert_eq!(*global.get(&ident("a")).ok().unwrap(), 2);
    assert!(global.assign(&ident("a"), 3).is_ok());
    assert_eq!(*global.get(&ident("a")).ok().unwrap(), 3);
}

#[test]
fn undefined_variables_are_errors() {
    let mut global: Environment<i32> = Environment::new(None, 0);
    let err: RuntimeError = global.get(&ident("b")).err().unwrap();
    assert_eq!(err.get_message(), "Undefined variable 'b'.");
    assert_eq!(err.get_token().get_lexeme(), "b");
    let err = global.assign(&ident("b"), 5).err().unwrap();
    assert_eq!(err.get_message(), "Undefined variable 'b'.");
    assert!(global.get(&ident("b")).is_err());

    let mut interpreter = Lox::new();
    interpreter.runtime_error(err);
    assert!(interpreter.had_runtime_error());
    assert_eq!(interpreter.messages(), &vec!["Undefined variable 'b'.\n[line 1]".to_string()]);
}

#[test]
fn inner_scopes_see_and_change_outer_ones() {
    let mut global: Environment<i32> = Environment::new(None, 0);
    global.define("a".to_string(), 1);
    let mut inner = Environment::new(Some(Box::new(global)), 0);
    inner.define("b".to_string(), 10);
    assert_eq!(*inner.get(&ident("a")).ok().unwrap(), 1);
    assert!(inner.assign(&ident("a"), 7).is_ok());
    inner.define("a".to_string(), 100);
    assert_eq!(*inner.get(&ident("a")).ok().unwrap(), 100);
    let outer = Environment::from_inner(inner.into_enclosing(), 0);
    assert_eq!(*outer.get(&ident("a")).ok().unwrap(), 7);
    assert!(outer.get(&ident("b")).is_err());
}

#[test]
fn resolver_finds_depths_of_locals() {
    let (interpreter, locals) = resolve("var g = 1; { var a = 1; { print a; print g; a = 2; } }");
    assert!(!interpreter.had_error());
    assert_eq!(locals, vec![("a".to_string(), 1), ("a".to_string(), 1)]);

    let (_, locals) = resolve("fun f(x, y) { print x + y; }");
    assert_eq!(locals, vec![("x".to_string(), 0), ("y".to_string(), 0)]);
}

#[test]
fn resolver_reports_misuse() {
    let (interpreter, _) = resolve("{ var a = a; }");
    assert_eq!(
        interpreter.messages(),
        &vec!["[line 1] Error at 'a': Can't read local variable in its own initializer.".to_string()]
    );
    let (interpreter, _) = resolve("{ var a = 1; var a = 2; }");
    assert_eq!(
        interpreter.messages(),
        &vec!["[line 1] Error at 'a': Already a variable with this name in this scope.".to_string()]
    );
    let (interpreter, _) = resolve("var a = 1; var a = 2;");
    assert!(!interpreter.had_error());
}

#[test]
fn resolver_checks_returns_and_this() {
    let mut interpreter = Lox::new();
    let ret = Stmt::Return(
        Token::new(TokenType::Return, "return", Literal::Nil, 3),
        Expr::LiteralExpr(Literal::Bool(true)),
    );
    let this = Stmt::Expression(Expr::This(Token::new(TokenType::This, "this", Literal::Nil, 4)));
    let mut resolver = Resolver::new();
    resolver.resolve_optional_stmts(&mut interpreter, &vec![Some(ret), Some(this)]);
    assert_eq!(
        interpreter.messages(),
        &vec![
            "[line 3] Error at 'return': Can't return from top-level code.".to_string(),
            "[line 4] Error at 'this': Can't use 'this' outside of a class.".to_string(),
        ]
    );
}

#[test]
fn resolved_reads_and_writes_go_to_the_right_scope() {
    let mut global: Environment<i32> = Environment::new(None, 0);
    global.define("a".to_string(), 1);
    let mut middle = Environment::new(Some(Box::new(global)), 0);
    middle.define("a".to_string(), 2);
    let mut inner = Environment::new(Some(Box::new(middle)), 0);
    inner.define("a".to_string(), 3);
    assert_eq!(*inner.get_at(0, "a"), 3);
    assert_eq!(*inner.get_at(1, "a"), 2);
    assert_eq!(*inner.get_at(2, "a"), 1);
    inner.assign_at(2, &ident("a"), 10);
    inner.assign_at(1, &ident("b"), 20);
    assert_eq!(*inner.get_at(2, "a"), 10);
    assert_eq!(*inner.get_at(1, "b"), 20);
    assert_eq!(*inner.get(&ident("a")).ok().unwrap(), 3);
    assert_eq!(*inner.get(&ident("b")).ok().unwrap(), 20);
}

#[test]
fn front_end_stops_on_syntax_errors() {
    let mut interpreter = Lox::new();
    let statements = lox::front_end(&mut interpreter, "print 1; print 2;").unwrap();
    assert_eq!(statements.len(), 2);
    assert!(lox::front_end(&mut interpreter, "print ;").is_none());
    assert!(interpreter.had_error());
    assert_eq!(interpreter.messages(), &vec!["[line 1] Error at ';': Expect expression.".to_string()]);
}
