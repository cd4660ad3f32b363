use lox::ast::expr::Expr;
use lox::ast::printer::{display_number, AstPrinter};
use lox::ast::stmt::Stmt;
use lox::bvm::scanner::Scanner as ByteScanner;
use lox::bvm::token::TokenType as ByteTokenType;
use lox::lexer::scanner::Scanner;
use lox::lexer::token::{Literal, Number, Token, TokenType};
use lox::parser::Parser;
use lox::text::decimal_string;
use lox::{Lox, Visitor};

fn scan(interpreter: &mut Lox, source: &str) -> Vec<Token> {
    let mut scanner = Scanner::new(source);
    scanner.scan_tokens(interpreter);
    scanner.tokens().iter().map(|t| t.copied()).collect()
}

fn parse(interpreter: &mut Lox, source: &str) -> Vec<Option<Stmt>> {
    let tokens = scan(interpreter, source);
    let mut parser = Parser::new(tokens);
    parser.parse(interpreter)
}

fn run(source: &str) -> String {
    let mut interpreter = Lox::new();
    let statements = parse(&mut interpreter, source);

    let mut printer = AstPrinter;
    for statement in statements {
        match statement {
            Some(s) => return format!("{}", printer.visit_stmt(&s)),
            None => panic!("Failed while printing AST. (None Stmt)."),
        }
    }

    panic!("Failed while printing AST.");
}

fn number(x: f64) -> Literal {
    Literal::Number(Number::from_text(&format!("{:?}", x)).unwrap())
}

#[test]
fn test_simple_print() {
    let mut printer = AstPrinter;
    let expression = Expr::Binary(
        Box::new(Expr::Unary(
            Token::new(TokenType::Minus, "-", Literal::Nil, 1),
            Box::new(Expr::LiteralExpr(number(123.0))),
        )),
        Token::new(TokenType::Star, "*", Literal::Nil, 1),
        Box::new(Expr::Grouping(Box::new(Expr::LiteralExpr(number(45.67))))),
    );
    let ref_result = "(* (- 123) (group 45.67))";
    assert_eq!(
        printer.visit_expr(&expression),
        ref_result,
        "Failed printing simple AST!"
    );
}

#[test]
fn test_basic() {
    let source = "print 1 - (2 + 3) / 7 != \"name\";";
    assert_eq!(run(source), "(print (!= (- 1 (/ (group (+ 2 3)) 7)) name))",);

    let source = "print -1 + 3 * 4 - 6 / 3.0 * 9 * (10 * 11) >= \"a\" + \"c\" * (-20);";
    assert_eq!(
        run(source),
        "(print (>= (- (+ (- 1) (* 3 4)) (* (* (/ 6 3) 9) (group (* 10 11)))) (+ a (* c (group (- 20))))))",
    );
}

#[test]
fn number_literals_display_like_their_value() {
    let cases = [("123", "123"), ("3.0", "3"), ("45.67", "45.67"), ("007.500", "7.5"), ("0.25", "0.25"), ("0", "0"), ("10.00", "10")];
    for (text, shown) in cases {
        let n = Number::from_text(text).unwrap();
        assert_eq!(display_number(&n), shown);
    }
    assert!(Number::from_text("1.").is_none());
    assert!(Number::from_text(".5").is_none());
    assert!(Number::from_text("1.2.3").is_none());
    assert!(Number::from_text("").is_none());
}

#[test]
fn scanner_yields_kinds_and_ends_with_eof() {
    let mut interpreter = Lox::new();
    let tokens = scan(&mut interpreter, "var x = (1.5 >= 2) and !nil; // note\n\"s\"");
    let kinds: Vec<TokenType> = tokens.iter().map(|t| *t.get_type()).collect();
    assert_eq!(
        kinds,
        vec![
            TokenType::Var,
            TokenType::Identifier,
            TokenType::Equal,
            TokenType::LeftParen,
            TokenType::Number,
            TokenType::GreaterEqual,
            TokenType::Number,
            TokenType::RightParen,
            TokenType::And,
            TokenType::Bang,
            TokenType::Nil,
            TokenType::Semicolon,
            TokenType::String,
            TokenType::Eof,
        ]
    );
    assert_eq!(tokens[12].get_line(), 2);
    match tokens[12].get_literal() {
        Literal::String(s) => assert_eq!(s, "s"),
        _ => panic!("string literal expected"),
    }
    assert!(!interpreter.had_error());
}

#[test]
fn every_keyword_is_recognised() {
    let mut interpreter = Lox::new();
    let tokens = scan(
        &mut interpreter,
        "and class else false for fun if nil or print return super this true var while andy",
    );
    let kinds: Vec<TokenType> = tokens.iter().map(|t| *t.get_type()).collect();
    assert_eq!(
        kinds,
        vec![
            TokenType::And,
            TokenType::Class,
            TokenType::Else,
            TokenType::False,
            TokenType::For,
            TokenType::Fun,
            TokenType::If,
            TokenType::Nil,
            TokenType::Or,
            TokenType::Print,
            TokenType::Return,
            TokenType::Super,
            TokenType::This,
            TokenType::True,
            TokenType::Var,
            TokenType::While,
            TokenType::Identifier,
            TokenType::Eof,
        ]
    );
}

#[test]
fn scanner_reports_bad_characters_and_open_strings() {
    let mut interpreter = Lox::new();
    scan(&mut interpreter, "1 @ 2\n\"open");
    assert!(interpreter.had_error());
    assert_eq!(
        interpreter.messages(),
        &vec![
            "[line 1] Error: Unexpected character!".to_string(),
            "[line 2] Error: Unterminated string!".to_string(),
        ]
    );
}

#[test]
fn parser_reports_and_recovers() {
    let mut interpreter = Lox::new();
    let statements = parse(&mut interpreter, "print 1 +; print 2;");
    assert!(interpreter.had_error());
    assert_eq!(
        interpreter.messages(),
        &vec!["[line 1] Error at ';': Expect expression.".to_string()]
    );
    assert_eq!(statements.len(), 2);
    assert!(statements[0].is_none());
    let mut printer = AstPrinter;
    assert_eq!(printer.visit_stmt(statements[1].as_ref().unwrap()), "(print 2)");
}

#[test]
fn parser_reports_at_end() {
    let mut interpreter = Lox::new();
    let statements = parse(&mut interpreter, "print (1");
    assert_eq!(statements.len(), 1);
    assert!(statements[0].is_none());
    assert_eq!(
        interpreter.messages(),
        &vec!["[line 1] Error at end: Expect ')' after expression!".to_string()]
    );
}

#[test]
fn invalid_assignment_target_is_reported() {
    let mut interpreter = Lox::new();
    let statements = parse(&mut interpreter, "1 = 2;");
    assert!(interpreter.had_error());
    assert_eq!(
        interpreter.messages(),
        &vec!["[line 1] Error at '=': Invalid assignment target.".to_string()]
    );
    assert_eq!(statements.len(), 1);
}

#[test]
fn statements_print_in_prefix_form() {
    assert_eq!(run("var a;"), "(var a)");
    assert_eq!(run("var a = 1 + 2;"), "(var a = (+ 1 2))");
    assert_eq!(run("if (a) print 1; else print 2;"), "(if-else a (print 1) (print 2))");
    assert_eq!(run("if (a or b) print 1;"), "(if (or a b) (print 1))");
    assert_eq!(run("while (x) x = x - 1;"), "(while x (; (= x (- x 1))))");
    assert_eq!(run("{ print 1; print 2; }"), "block (print 1)(print 2))");
    assert_eq!(run("fun add(a, b) { print a + b; }"), "(fun add(a b)(print (+ a b)))");
    assert_eq!(run("f(1, 2)(3);"), "(; (call (call f  1 2)  3))");
    assert_eq!(run("g();"), "(; (call g ))");
    assert_eq!(run("a = b = 1;"), "(; (= a (= b 1)))");
}

#[test]
fn for_loops_become_while_loops() {
    assert_eq!(
        run("for (var i = 0; i < 3; i = i + 1) print i;"),
        "block (var i = 0)(while (< i 3) block (print i)(; (= i (+ i 1))))))"
    );
    assert_eq!(run("for (;;) print 1;"), "(while true (print 1))");
}

#[test]
fn too_many_parameters_are_reported_but_parsed() {
    let names: Vec<String> = (0..256).map(|i| format!("p{}", i)).collect();
    let source = format!("fun f({}) {{}}", names.join(", "));
    let mut interpreter = Lox::new();
    let statements = parse(&mut interpreter, &source);
    assert_eq!(statements.len(), 1);
    assert!(statements[0].is_some());
    assert_eq!(
        interpreter.messages(),
        &vec!["[line 1] Error at 'p255': Can't have more than 255 parameters.".to_string()]
    );
}

#[test]
fn clear_error_resets_the_flag() {
    let mut interpreter = Lox::new();
    interpreter.lex_error(3, "Oops.");
    assert!(interpreter.had_error());
    interpreter.clear_error();
    assert!(!interpreter.had_error());
    interpreter.runtime_error_at("Bad operand.", 12);
    assert!(interpreter.had_runtime_error());
    assert_eq!(
        interpreter.messages(),
        &vec!["[line 3] Error: Oops.".to_string(), "Bad operand.\n[line 12]".to_string()]
    );
}

#[test]
fn decimal_strings() {
    assert_eq!(decimal_string(0), "0");
    assert_eq!(decimal_string(7), "7");
    assert_eq!(decimal_string(1203), "1203");
}

fn byte_kinds(source: &str) -> Vec<ByteTokenType> {
    let mut scanner = ByteScanner::new(source.to_string());
    let mut kinds = Vec::new();
    loop {
        match scanner.scan_token() {
            Ok(t) => {
                kinds.push(t.kind);
                if t.kind == ByteTokenType::EoF {
                    break;
                }
            }
            Err(e) => {
                kinds.push(e.token().kind);
            }
        }
    }
    kinds
}

#[test]
fn byte_scanner_trie_finds_every_keyword() {
    let kinds = byte_kinds("and class else false for fun if nil or print return super this true var while");
    assert_eq!(
        kinds,
        vec![
            ByteTokenType::And,
            ByteTokenType::Class,
            ByteTokenType::Else,
            ByteTokenType::False,
            ByteTokenType::For,
            ByteTokenType::Fun,
            ByteTokenType::If,
            ByteTokenType::Nil,
            ByteTokenType::Or,
            ByteTokenType::Print,
            ByteTokenType::Return,
            ByteTokenType::Super,
            ByteTokenType::This,
            ByteTokenType::True,
            ByteTokenType::Var,
            ByteTokenType::While,
            ByteTokenType::EoF,
        ]
    );
    let kinds = byte_kinds("an classy f fa th thistle");
    assert!(kinds[..6].iter().all(|k| *k == ByteTokenType::Identifier));
}

#[test]
fn byte_scanner_spans_and_errors() {
    let mut scanner = ByteScanner::new("x1 = 12.5; // c\n\"ab\" #".to_string());
    let t = scanner.scan_token().ok().unwrap();
    assert_eq!((t.kind, t.start, t.length, t.line), (ByteTokenType::Identifier, 0, 2, 1));
    assert_eq!(scanner.lexeme(t.start, t.length), "x1");
    let t = scanner.scan_token().ok().unwrap();
    assert_eq!(t.kind, ByteTokenType::Equal);
    let t = scanner.scan_token().ok().unwrap();
    assert_eq!((t.kind, t.start, t.length), (ByteTokenType::Number, 5, 4));
    let t = scanner.scan_token().ok().unwrap();
    assert_eq!(t.kind, ByteTokenType::Semicolon);
    let t = scanner.scan_token().ok().unwrap();
    assert_eq!((t.kind, t.line), (ByteTokenType::String, 2));
    assert_eq!(scanner.lexeme(t.start, t.length), "\"ab\"");
    match scanner.scan_token() {
        Err(e) => assert_eq!(e.message(), "Unexpected character."),
        Ok(_) => panic!("an error was expected"),
    }
    let t = scanner.scan_token().ok().unwrap();
    assert_eq!(t.kind, ByteTokenType::EoF);
}
