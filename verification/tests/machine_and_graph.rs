use lox::ast::expr::Expr;
use lox::ast::graphviz::{auxiliary_node, define_node, define_row, expr_node_count, fix_content, stmt_node_count, AstVis};
use lox::benchmark::fib;
use lox::bvm::chunk::{Chunk, OpCode};
use lox::bvm::debug::{disassemble_instruction, Shown};
use lox::bvm::compiler::{get_rule, CompileError, Handler, ParseRule, Precedence};
use lox::bvm::token::TokenType as ByteTokenType;
use lox::bvm::object::Native;
use lox::bvm::vm::InterpretResult;
use lox::bvm::{set_config, Config};
use lox::evaluator::native::Clock;
use lox::lexer::scanner::Scanner;
use lox::lexer::token::{Literal, Token, TokenType};
use lox::parser::Parser;
use lox::Lox;

#[test]
fn every_opcode_round_trips_through_its_byte() {
    for b in 0u8..=255 {
        match OpCode::from_byte(b) {
            Ok(op) => {
                assert!(b < 37);
                assert_eq!(op.byte(), b);
            }
            Err(message) => {
                assert!(b >= 37);
                assert_eq!(message, "Failed to convert from u8: unknown OpCode.");
            }
        }
    }
    assert_eq!(OpCode::from_byte(0), Ok(OpCode::Constant));
    assert_eq!(OpCode::from_byte(36), Ok(OpCode::Method));
    assert_eq!(OpCode::Return.byte(), 33);
}

#[test]
fn precedence_steps_up_one_level() {
    assert_eq!(Precedence::inc(Precedence::Lowest), Precedence::Assignment);
    assert_eq!(Precedence::inc(Precedence::Term), Precedence::Factor);
    assert_eq!(Precedence::inc(Precedence::Call), Precedence::Primary);
    assert!(Precedence::Or.at_most(Precedence::And));
    assert!(Precedence::Unary.at_most(Precedence::Unary));
    assert!(!Precedence::Primary.at_most(Precedence::Call));
}

#[test]
fn config_options() {
    let c = Config::new();
    assert!(!c.bytecode && !c.debug && !c.scanner && !c.trace);
    let d = Config::default();
    assert!(!d.bytecode && !d.debug && !d.scanner && !d.trace);
    let mut c = Config::new();
    set_config(&mut c, "-t");
    assert!(c.trace && !c.bytecode && !c.debug && !c.scanner);
    set_config(&mut c, "-b");
    assert!(c.trace && c.bytecode && !c.debug && !c.scanner);
    set_config(&mut c, "-s");
    set_config(&mut c, "-d");
    assert!(c.trace && c.bytecode && c.debug && c.scanner);
}

#[test]
fn natives_and_errors_are_named() {
    let n = Native::new("clock".to_string());
    assert_eq!(n.name(), "clock");
    assert_eq!(n.to_string(), "<native fun clock>");
    assert!(n.same(&Native::new("clock".to_string())));
    assert!(!n.same(&Native::new("time".to_string())));
    let clock = Clock;
    assert_eq!(clock.arity(), 0);
    assert_eq!(clock.stringify(), "<native fun 'clock'>");
    let e = CompileError::new("Expect expression.");
    assert_eq!(e.message(), "Expect expression.");
    assert_eq!(e.to_string(), "CompileError: Expect expression.");
    assert_eq!(InterpretResult::Success.exit_code(), 0);
    assert_eq!(InterpretResult::CompileError.exit_code(), 65);
    assert_eq!(InterpretResult::RuntimeError.exit_code(), 70);
}

#[test]
fn fibonacci_numbers() {
    assert_eq!(fib(0), 0);
    assert_eq!(fib(1), 1);
    assert_eq!(fib(10), 55);
    assert_eq!(fib(20), 6765);
}

#[test]
fn graph_pieces() {
    assert_eq!(fix_content("<="), "&lt;=");
    assert_eq!(fix_content(">"), "&gt;");
    assert_eq!(fix_content("+"), "+");
    assert_eq!(
        define_row("<", Some("b")),
        "\t\t\t<tr> <td align=\"center\"><b>&lt;</b></td> </tr>\n"
    );
    assert_eq!(define_row("x", None), "\t\t\t<tr> <td align=\"center\">x</td> </tr>\n");
    assert_eq!(
        auxiliary_node(3, "#a88f85", "Arguments"),
        "\tN3 [\n\t\tcolor=\"#a88f85\"\n\t\tlabel=\"Arguments\"\n\t]\n"
    );
    let node = define_node(12, "#9fc5e8", "Expr", "Unary", vec!["-"]);
    assert!(node.starts_with("\tN12 [\n\t\tcolor=\"#9fc5e8\"\n\t\tlabel=<<table"));
    assert!(node.ends_with("\t\t</table>>\n\t\tshape=plain\n\t]\n"));
    assert!(node.contains(&define_row("-", None)));
}

#[test]
fn graph_of_a_variable() {
    let mut vis = AstVis::new();
    let e = Expr::Variable(Token::new(TokenType::Identifier, "x", Literal::Nil, 1));
    assert_eq!(expr_node_count(&e), Some(2));
    let (text, n) = vis.visit_expr(&e);
    assert_eq!(n, 1);
    assert_eq!(vis.current_node(), 2);
    let expected = define_node(1, "#9fc5e8", "Expr", "Variable", vec![])
        + &define_node(2, "#c27ba0", "Token", "Identifier", vec!["x"])
        + "\tN1 -> N2\n";
    assert_eq!(text, expected);
    assert_eq!(vis.graph(), "");
}

#[test]
fn graph_of_a_program() {
    let mut interpreter = Lox::new();
    let mut scanner = Scanner::new("print -2; var a = 1 < 2;");
    scanner.scan_tokens(&mut interpreter);
    let tokens: Vec<Token> = scanner.tokens().iter().map(|t| t.copied()).collect();
    let statements = Parser::new(tokens).parse(&mut interpreter);
    let mut vis = AstVis::new();
    assert!(vis.fits(&statements));
    let counted: usize = statements
        .iter()
        .map(|s| stmt_node_count(s.as_ref().unwrap()).unwrap())
        .sum();
    assert_eq!(counted, 8);
    vis.draw(&statements);
    let g = vis.graph();
    assert!(g.starts_with("digraph Program {\nsubgraph stmt0 {\n\tfontname=\"Helvetica,Arial,sans-serif\"\n"));
    assert!(g.ends_with("}\n}\n"));
    assert!(g.contains("subgraph stmt1 {\n"));
    assert!(g.contains("\tN1 -> N2\n"));
    assert!(g.contains("\tN2 -> N3\n"));
    assert!(g.contains("&lt;"));
    assert!(g.contains("\tN4 -> {N5, N6}\n"));
    assert_eq!(vis.current_node(), 8);
}

#[test]
fn chunks_hold_code_lines_and_constants() {
    let mut chunk: Chunk<i64> = Chunk::new();
    let i = chunk.write_value(42);
    assert_eq!(i, 0);
    assert_eq!(chunk.write_value(7), 1);
    chunk.write_instruction(OpCode::Constant, 1);
    chunk.write_raw_instruction(1, 1);
    chunk.write_instruction(OpCode::Return, 2);
    assert_eq!(chunk.code, vec![0, 1, 33]);
    assert_eq!(chunk.lines, vec![1, 1, 2]);
    assert_eq!(chunk.constants, vec![42, 7]);
    chunk.free();
    assert!(chunk.code.is_empty() && chunk.lines.is_empty() && chunk.constants.is_empty());
    let d: Chunk<i64> = Chunk::default();
    assert!(d.code.is_empty());
}

#[test]
fn disassembler_decodes_instructions() {
    let mut chunk: Chunk<i64> = Chunk::new();
    chunk.write_value(5);
    chunk.write_instruction(OpCode::Constant, 1);
    chunk.write_raw_instruction(0, 1);
    chunk.write_instruction(OpCode::GetLocal, 2);
    chunk.write_raw_instruction(3, 2);
    chunk.write_instruction(OpCode::Jump, 2);
    chunk.write_raw_instruction(1, 2);
    chunk.write_raw_instruction(2, 2);
    chunk.write_instruction(OpCode::Loop, 3);
    chunk.write_raw_instruction(0, 3);
    chunk.write_raw_instruction(9, 3);
    chunk.write_instruction(OpCode::Closure, 3);
    chunk.write_instruction(OpCode::Negate, 4);
    assert_eq!(disassemble_instruction(&chunk, 0), (Shown::Constant("OP_CONSTANT", 0), false, 2));
    assert_eq!(disassemble_instruction(&chunk, 2), (Shown::Byte("OP_GET_LOCAL", 3), false, 4));
    assert_eq!(disassemble_instruction(&chunk, 4), (Shown::Jump("OP_JUMP", 4, 4 + 3 + 258), true, 7));
    assert_eq!(disassemble_instruction(&chunk, 7), (Shown::Jump("OP_LOOP", 7, 7 + 3 - 9), false, 10));
    assert_eq!(disassemble_instruction(&chunk, 10), (Shown::Unknown(31), true, 11));
    assert_eq!(disassemble_instruction(&chunk, 11), (Shown::Simple("OP_NEGATE"), false, 12));
}

#[test]
fn parse_rules_of_the_bytecode_compiler() {
    let r = get_rule(ByteTokenType::LeftParen);
    assert_eq!(r, ParseRule { prefix: Some(Handler::Grouping), infix: Some(Handler::Call), precedence: Precedence::Call });
    let r = get_rule(ByteTokenType::Minus);
    assert_eq!(r, ParseRule { prefix: Some(Handler::Unary), infix: Some(Handler::Binary), precedence: Precedence::Term });
    let r = get_rule(ByteTokenType::Or);
    assert_eq!(r, ParseRule { prefix: None, infix: Some(Handler::Or), precedence: Precedence::Or });
    let r = get_rule(ByteTokenType::Nil);
    assert_eq!(r, ParseRule { prefix: Some(Handler::Literal), infix: None, precedence: Precedence::Lowest });
    let r = get_rule(ByteTokenType::EoF);
    assert_eq!(r, ParseRule { prefix: None, infix: None, precedence: Precedence::Lowest });
}
