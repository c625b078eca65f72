//! Stage-level tests: the scanner, the parser, the layout pass and the
//! emission primitives through their public interfaces.

use toycc::ast::CompoundStatement;
use toycc::ast::Expression;
use toycc::ast::LocalId;
use toycc::ast::Program;
use toycc::codegen::num_string;
use toycc::codegen::Assembly;
use toycc::parser::Function;
use toycc::parser::Parser;
use toycc::tokenizer::Token;
use toycc::tokenizer::TokenKind;
use toycc::tokenizer::Tokenizer;
use toycc::Error;
use toycc::Span;

#[test]
fn scanner_orders_and_reverses_tokens() {
    let v = Tokenizer::new("1 + foo").run().unwrap();
    // The scanner hands the tokens over reversed, so the parser can pop
    // the next token from the vector's end.
    assert_eq!(v.len(), 3);
    assert!(matches!(v[2].kind, TokenKind::Num(1)));
    assert!(matches!(v[1].kind, TokenKind::Plus));
    assert!(matches!(&v[0].kind, TokenKind::Ident(s) if s == "foo"));
}

#[test]
fn scanner_records_character_offsets() {
    let v = Tokenizer::new("12 <= abc").run().unwrap();
    assert_eq!(v.len(), 3);
    let num = &v[2];
    assert_eq!((num.start, num.end), (0, 2));
    let le = &v[1];
    assert!(matches!(le.kind, TokenKind::LowerEqual));
    assert_eq!((le.start, le.end), (3, 5));
    let id = &v[0];
    assert_eq!((id.start, id.end), (6, 9));
}

#[test]
fn scanner_knows_reserved_words() {
    let v = Tokenizer::new("return if else while for returned").run().unwrap();
    assert_eq!(v.len(), 6);
    assert!(matches!(v[5].kind, TokenKind::Return));
    assert!(matches!(v[4].kind, TokenKind::If));
    assert!(matches!(v[3].kind, TokenKind::Else));
    assert!(matches!(v[2].kind, TokenKind::While));
    assert!(matches!(v[1].kind, TokenKind::For));
    assert!(matches!(&v[0].kind, TokenKind::Ident(s) if s == "returned"));
}

#[test]
fn scanner_prefers_two_character_punctuators() {
    let v = Tokenizer::new("<= >= == != < > = !").run().unwrap();
    assert_eq!(v.len(), 8);
    assert!(matches!(v[7].kind, TokenKind::LowerEqual));
    assert!(matches!(v[6].kind, TokenKind::GreaterEqual));
    assert!(matches!(v[5].kind, TokenKind::EqualEqual));
    assert!(matches!(v[4].kind, TokenKind::NotEqual));
    assert!(matches!(v[3].kind, TokenKind::Lower));
    assert!(matches!(v[2].kind, TokenKind::Greater));
    assert!(matches!(v[1].kind, TokenKind::Equal));
    assert!(matches!(v[0].kind, TokenKind::Not));
}

#[test]
fn scanner_rejects_foreign_characters() {
    assert!(Tokenizer::new("a # b").run().is_err());
    assert!(Tokenizer::new("\u{e9}").run().is_err());
}

#[test]
fn scanner_rejects_oversized_literal() {
    assert!(Tokenizer::new("99999999999999999999999999999").run().is_err());
}

#[test]
fn binary_kind_classification() {
    assert!(TokenKind::Plus.binary());
    assert!(TokenKind::Slash.binary());
    assert!(TokenKind::LowerEqual.binary());
    assert!(!TokenKind::Semicolon.binary());
    assert!(!TokenKind::Equal.binary());
    assert!(!TokenKind::Return.binary());
}

#[test]
fn parser_builds_precedence_shaped_tree() {
    let src = "1+2*3";
    let toks = Tokenizer::new(src).run().unwrap();
    let mut p = Parser::new(src, toks);
    let e = p.expression(0).unwrap();
    match e {
        Expression::Binary(add) => {
            assert!(matches!(add.op, toycc::ast::BinOp::Add));
            assert!(matches!(*add.lhs, Expression::NumberLiteral(1)));
            match *add.rhs {
                Expression::Binary(mul) => {
                    assert!(matches!(mul.op, toycc::ast::BinOp::Mul));
                    assert!(matches!(*mul.lhs, Expression::NumberLiteral(2)));
                    assert!(matches!(*mul.rhs, Expression::NumberLiteral(3)));
                },
                other => panic!("expected a product on the right, got {:?}", other),
            }
        },
        other => panic!("expected a sum, got {:?}", other),
    }
}

#[test]
fn parser_resolves_repeated_names_to_one_slot() {
    let src = "a+b+a";
    let toks = Tokenizer::new(src).run().unwrap();
    let mut p = Parser::new(src, toks);
    let _ = p.expression(0).unwrap();
    assert_eq!(p.locals.len(), 2);
    assert_eq!(p.locals[0].name(), "a");
    assert_eq!(p.locals[1].name(), "b");
}

#[test]
fn layout_assigns_reverse_order_offsets() {
    let src = "{ a=1; b=2; c=3; }";
    let toks = Tokenizer::new(src).run().unwrap();
    let mut p = Parser::new(src, toks);
    let prog = p.run().unwrap();
    let locals = p.locals;
    let f = Function::new(prog, locals);
    assert_eq!(f.stack_size(), 32);
    let a = f.local(LocalId(0));
    assert_eq!(a.name(), "a");
    assert_eq!(a.offset(), 24);
    let b = f.local(LocalId(1));
    assert_eq!(b.name(), "b");
    assert_eq!(b.offset(), 16);
    let c = f.local(LocalId(2));
    assert_eq!(c.name(), "c");
    assert_eq!(c.offset(), 8);
    assert_eq!(f.body().stmts.len(), 3);
}

#[test]
fn layout_of_empty_table_is_empty_frame() {
    let f = Function::new(Program { stmt: CompoundStatement { stmts: vec![] } }, vec![]);
    assert_eq!(f.stack_size(), 0);
    assert_eq!(f.body().stmts.len(), 0);
}

#[test]
fn emission_primitives_append_text() {
    let f = Function::new(Program { stmt: CompoundStatement { stmts: vec![] } }, vec![]);
    let mut a = Assembly::new(&f);
    a.writeln("hello");
    a.write("x");
    a.push();
    a.pop("%rdi");
    let s = a.finish();
    assert_eq!(s, "hello\nx  push %rax\n  pop %rdi\n");
}

#[test]
fn generator_emits_address_of_local() {
    let src = "{ a=1; }";
    let toks = Tokenizer::new(src).run().unwrap();
    let mut p = Parser::new(src, toks);
    let prog = p.run().unwrap();
    let f = Function::new(prog, p.locals);
    let mut a = Assembly::new(&f);
    a.gen_addr(LocalId(0));
    assert_eq!(a.finish(), "  lea -8(%rbp), %rax\n");
}

#[test]
fn decimal_rendering() {
    assert_eq!(num_string(0), "0");
    assert_eq!(num_string(7), "7");
    assert_eq!(num_string(10), "10");
    assert_eq!(num_string(16), "16");
    assert_eq!(num_string(905), "905");
    assert_eq!(num_string(18446744073709551615), "18446744073709551615");
}

#[test]
fn diagnostic_carries_caret() {
    let e = Error::new(String::from("boom"), Some(Span::new(3)));
    assert_eq!(e.render(), "error: `boom`  ^");
    let at_start = Error::new(String::from("boom"), Some(Span::new(0)));
    assert_eq!(at_start.render(), "error: `boom`^");
    let spanless = Error::new(String::from("boom"), None);
    assert_eq!(spanless.render(), "error: `boom`");
}

#[test]
fn span_holds_its_position() {
    let s = Span::new(5);
    assert_eq!(s.pos(), 5);
}

#[test]
fn scanner_failure_renders_a_message() {
    let e = toycc::run("{ # }").unwrap_err();
    let text = e.render();
    assert!(text.starts_with("error: `"));
    assert!(text.contains("^"));
}

#[test]
fn cloned_tokens_match() {
    let v = Tokenizer::new("x=1").run().unwrap();
    let t: Token = v[2].clone();
    assert_eq!(t.start, v[2].start);
    assert_eq!(t.end, v[2].end);
    assert!(matches!(&t.kind, TokenKind::Ident(s) if s == "x"));
}
