use compiler::compiler::ast::{
    BinaryOp, Block, Expression, FunctionCall, Identifier, If, Literal, LiteralValue, UnaryOp,
    VarDeclaration, While,
};
use compiler::compiler::parser::{Expected, Parser};
use compiler::compiler::tokenizer::{tokenize, Location, Token, TokenType};
use compiler::compiler::types::Type;

fn sp() -> Location {
    Location::special()
}

fn int_lit(v: i8) -> Expression {
    Expression::Literal(Literal::new(LiteralValue::Int(v), sp()))
}

fn boolean(b: bool) -> Expression {
    Expression::Literal(Literal::new(LiteralValue::Bool(b), sp()))
}

fn unit() -> Expression {
    Expression::Literal(Literal::none(sp()))
}

fn ident(name: &str) -> Expression {
    Expression::Identifier(Identifier::new(name, sp()))
}

fn bin(left: Expression, op: &str, right: Expression) -> Expression {
    Expression::BinaryOp(BinaryOp::new(Box::new(left), op, Box::new(right)))
}

fn if_expr(cond: Expression, then_branch: Expression, else_branch: Option<Expression>) -> Expression {
    Expression::If(If::new(Box::new(cond), Box::new(then_branch), else_branch.map(Box::new), sp()))
}

fn call(name: &str, args: Vec<Expression>) -> Expression {
    Expression::FunctionCall(FunctionCall::new(Identifier::new(name, sp()), args))
}

fn block(statements: Vec<Expression>) -> Expression {
    Expression::Block(Block::new(statements, sp()))
}

fn var_decl(name: &str, declared_type: Option<Type>, init: Expression) -> Expression {
    Expression::VarDeclaration(VarDeclaration::new(Identifier::new(name, sp()), declared_type, Box::new(init)))
}

fn while_expr(cond: Expression, body: Expression) -> Expression {
    Expression::While(While::new(Box::new(cond), Box::new(body), sp()))
}

fn unary(op: &str, right: Expression) -> Expression {
    Expression::UnaryOp(UnaryOp::new(op, Box::new(right), sp()))
}

fn parse(source: &str) -> Expression {
    Parser::new(tokenize(source, "file.txt")).parse().unwrap()
}

#[test]
fn test_peek() {
    let tokens = tokenize("2 - 3 + 1", "file.txt");
    let p: Parser = Parser::new(tokens);
    assert_eq!(
        Token {
            text: "2".to_string(),
            token_type: TokenType::Integer,
            loc: Location {
                file: "file.txt".to_string(),
                line: "1".to_string(),
                column: "1".to_string()
            }
        },
        p.peek()
    );
}

#[test]
fn test_consume_single() {
    let tokens = tokenize("2 - 3 + 1", "file.txt");
    let mut p: Parser = Parser::new(tokens);
    let exp_single: String = "2".to_string();
    let exp_mult: Vec<String> = vec!["-".to_string(), "+".to_string()];
    assert_eq!(
        Token {
            text: "2".to_string(),
            token_type: TokenType::Integer,
            loc: Location::special(),
        },
        p.consume_expect(Expected::Single(exp_single)).unwrap(),
    );
    assert_eq!(
        Token {
            text: "-".to_string(),
            token_type: TokenType::Operator,
            loc: Location::special(),
        },
        p.consume_expect(Expected::Multiple(exp_mult)).unwrap()
    );
}

#[test]
#[should_panic]
fn test_consume_single_panic() {
    let tokens = tokenize("2 - 3 + 1", "file.txt");
    let mut p: Parser = Parser::new(tokens);
    let exp: String = "-".to_string();

    p.consume_expect(Expected::Single(exp)).unwrap();
}

#[test]
#[should_panic]
fn test_consume_mul_panic() {
    let tokens = tokenize("2 - 3 + 1", "file.txt");
    let mut p: Parser = Parser::new(tokens);
    let exp: Vec<String> = vec![
        "-".to_string(),
        "+".to_string(),
        "a".to_string(),
        "c".to_string(),
        "d".to_string(),
        "b".to_string(),
    ];

    p.consume_expect(Expected::Multiple(exp)).unwrap();
}

#[test]
fn test_parse_int_literal() {
    let tokens = tokenize("2 + 2", "file.txt");
    let mut p = Parser::new(tokens);
    assert_eq!(int_lit(2), Expression::Literal(p.parse_int_literal().unwrap()));
}

#[test]
fn test_parse_identifier() {
    let tokens = tokenize("a + 1", "file.txt");
    let mut p = Parser::new(tokens);
    assert_eq!(ident("a"), Expression::Identifier(p.parse_identifier().unwrap()));
}

#[test]
fn test_parse_parenthesized() {
    let tokens = tokenize("2 + (3 * 4)", "file.txt");
    let mut p = Parser::new(tokens);
    let bin_op = bin(int_lit(2), "+", bin(int_lit(3), "*", int_lit(4)));
    assert_eq!(bin_op, p.parse_expression().unwrap());
}

#[test]
#[should_panic]
fn test_parse_parenthesized_panic() {
    let tokens = tokenize("2 (3 * 4", "file.txt");
    let mut p = Parser::new(tokens);
    p.parse_parenthesized().unwrap();
}

#[test]
fn test_semicolon() {
    let tokens = tokenize("a + b;", "file.txt");
    let mut p = Parser::new(tokens);
    let expected = bin(ident("a"), "+", ident("b"));
    assert_eq!(expected, p.parse_expression().unwrap());
    assert_eq!(p.peek().text, ";".to_string());
}

#[test]
fn parser_test_parse_unary() {
    let tokens = tokenize("not x", "file.txt");
    let mut p = Parser::new(tokens);
    let expected = unary("not", ident("x"));
    assert_eq!(expected, p.parse().unwrap());
}

#[test]
#[should_panic]
fn test_parse_identifier_panic() {
    let tokens = tokenize("1abc = 10", "file.txt");
    let mut p = Parser::new(tokens);
    p.parse().unwrap();
}

#[test]
fn test_parse() {
    let expected = bin(bin(int_lit(2), "+", int_lit(1)), "-", int_lit(3));
    assert_eq!(expected, parse("2 + 1 - 3"));
}

#[test]
fn test_parse_mult() {
    let expected = bin(int_lit(2), "+", bin(int_lit(4), "*", int_lit(3)));
    assert_eq!(expected, parse("2 + 4 * 3"));
}

#[test]
#[should_panic]
fn test_parse_empty() {
    let tokens = tokenize("", "file.txt");
    let mut p: Parser = Parser::new(tokens);
    p.parse().unwrap();
}

#[test]
#[should_panic]
fn test_parse_panic() {
    let tokens = tokenize("a * 2 c", "file.txt");
    let mut p: Parser = Parser::new(tokens);
    p.parse().unwrap();
}

#[test]
#[should_panic]
fn test_parse_comma_panic() {
    let tokens = tokenize("a, b, c", "file.txt");
    let mut p = Parser::new(tokens);
    p.parse().unwrap();
}

#[test]
fn test_parse_if() {
    let expected = if_expr(ident("a"), bin(ident("b"), "+", ident("c")), None);
    assert_eq!(expected, parse("if a then b + c"));
}

#[test]
fn test_parse_if_else() {
    let expected = if_expr(
        ident("a"),
        bin(ident("b"), "+", ident("c")),
        Some(bin(ident("b"), "*", ident("c"))),
    );
    assert_eq!(expected, parse("if a then b + c else b * c"));
}

#[test]
fn test_parse_embedded_if() {
    let expected = bin(int_lit(1), "+", if_expr(boolean(true), int_lit(2), Some(int_lit(3))));
    assert_eq!(expected, parse("1 + if true then 2 else 3"));
}

#[test]
#[should_panic]
fn test_parse_if_panic() {
    let tokens = tokenize("1 + if true then", "file.txt");
    let mut p = Parser::new(tokens);
    p.parse().unwrap();
}

#[test]
fn test_parse_nested_if() {
    let expected = if_expr(
        ident("a"),
        if_expr(ident("b"), ident("c"), Some(ident("d"))),
        Some(ident("e")),
    );
    assert_eq!(expected, parse("if a then if b then c else d else e"));
}

#[test]
fn test_parse_function() {
    let expected1 = call("a", vec![int_lit(1), int_lit(2), int_lit(3)]);
    assert_eq!(expected1, parse("a(1, 2, 3)"));

    let expected2 = call("b", vec![ident("c"), ident("d"), ident("e")]);
    assert_eq!(expected2, parse("b(c, d, e)"));

    let expected3 = call("c", vec![]);
    assert_eq!(expected3, parse("c()"));

    let expected4 = call(
        "d",
        vec![bin(int_lit(1), "+", int_lit(2)), if_expr(boolean(true), int_lit(3), Some(int_lit(1)))],
    );
    assert_eq!(expected4, parse("d(1 + 2, if true then 3 else 1)"));
}

#[test]
fn test_parse_or() {
    let expected = bin(boolean(true), "or", boolean(false));
    assert_eq!(expected, parse("true or false"));
}

#[test]
fn test_if_or() {
    let expected = if_expr(
        bin(
            bin(ident("a"), "==", bin(int_lit(2), "+", int_lit(2))),
            "or",
            bin(ident("b"), "==", bin(int_lit(2), "+", int_lit(2))),
        ),
        bin(ident("a"), "+", int_lit(2)),
        Some(bin(ident("b"), "+", int_lit(2))),
    );
    assert_eq!(expected, parse("if a == 2 + 2 or b == 2 + 2 then a + 2 else b + 2"));
}

#[test]
fn test_binary_op_precedence() {
    let expected = bin(ident("a"), "=", bin(int_lit(2), "+", bin(int_lit(3), "*", int_lit(4))));
    assert_eq!(expected, parse("a = 2 + 3 * 4"));
}

#[test]
fn test_assignment() {
    let expected = bin(ident("a"), "=", bin(ident("b"), "=", ident("c")));
    assert_eq!(expected, parse("a = b = c"));
}

#[test]
fn test_parse_block() {
    let expected1 = block(vec![bin(ident("a"), "+", ident("b")), ident("a")]);
    let expected2 = block(vec![bin(ident("a"), "+", ident("b")), ident("a"), unit()]);
    assert_eq!(expected1, parse("{a + b; a}"));
    assert_eq!(expected2, parse("{a + b; a;}"));
}

#[test]
fn test_parse_large_block() {
    let source = "{
                while f() do {
                    x = 10;
                    y = if g(x) then {
                        x = x + 1;
                        x
                    } else {
                        g(x)
                    }
                    g(y);
                }
                123
            }";
    let expected = block(vec![
        while_expr(
            call("f", vec![]),
            block(vec![
                bin(ident("x"), "=", int_lit(10)),
                bin(
                    ident("y"),
                    "=",
                    if_expr(
                        call("g", vec![ident("x")]),
                        block(vec![bin(ident("x"), "=", bin(ident("x"), "+", int_lit(1))), ident("x")]),
                        Some(block(vec![call("g", vec![ident("x")])])),
                    ),
                ),
                call("g", vec![ident("y")]),
                unit(),
            ]),
        ),
        int_lit(123),
    ]);
    assert_eq!(expected, parse(source));
}

#[test]
fn test_var_declaration() {
    let expected1 = var_decl("x", None, int_lit(1));
    let expected2 = block(vec![var_decl("x", None, int_lit(1)), unit()]);
    assert_eq!(expected1, parse("var x = 1"));
    assert_eq!(expected2, parse("{ var x = 1; }"));
}

#[test]
fn test_var_declaration_panic() {
    let mut p1 = Parser::new(tokenize("if var x = 1 then 2", "file.txt"));
    let mut p2 = Parser::new(tokenize("a + var x = 1", "file.txt"));
    let mut p3 = Parser::new(tokenize("while var x = 1 do y", "file.txt"));
    let result1 = p1.parse();
    let result2 = p2.parse();
    let result3 = p3.parse();
    assert!(result1.is_err(), "expected error but got: {:?}", result1);
    assert!(result2.is_err(), "expected error but got: {:?}", result2);
    assert!(result3.is_err(), "expected error but got: {:?}", result3);
}

#[test]
fn test_parse_while() {
    let expected = while_expr(ident("x"), ident("y"));
    assert_eq!(expected, parse("while x do y"));
}

#[test]
fn test_block_cases() {
    let result1 = Parser::new(tokenize("{ { a } { b } }", "file.txt")).parse();
    let result2 = Parser::new(tokenize("{ a b }", "file.txt")).parse();
    let result3 = Parser::new(tokenize("{ if true then { a } b }", "file.txt")).parse();
    let result4 = Parser::new(tokenize("{ if true then { a }; b }", "file.txt")).parse();
    let result5 = Parser::new(tokenize("{ if true then { a } b c }", "file.txt")).parse();
    let result6 = Parser::new(tokenize("{ if true then { a } b; c }", "file.txt")).parse();
    let result7 = Parser::new(tokenize("{ if true then { a } else { b } c }", "file.txt")).parse();
    let result8 = Parser::new(tokenize("x = { { f(a) } { b } }", "file.txt")).parse();
    let result9 = Parser::new(tokenize("{ while true do { f(g) } g }", "file.txt")).parse();

    assert!(result1.is_ok(), "1: expected expression but got {:?}", result1);
    assert!(result2.is_err(), "2: expected error but got {:?}", result2);
    assert!(result3.is_ok(), "3: expected expression but got {:?}", result3);
    assert!(result4.is_ok(), "4: expected expression but got {:?}", result4);
    assert!(result5.is_err(), "5: expected error but got {:?}", result5);
    assert!(result6.is_ok(), "6: expected expression but got {:?}", result6);
    assert!(result7.is_ok(), "7: expected expression but got {:?}", result7);
    assert!(result8.is_ok(), "8: expected expression but got {:?}", result8);
    assert!(result9.is_ok(), "9: expected expression but got {:?}", result9);
}

#[test]
fn parser_test_test_parse_unary() {
    let expected1 = bin(unary("-", int_lit(1)), "and", unary("not", ident("x")));
    let expected2 = while_expr(unary("not", boolean(true)), boolean(false));
    let expected3 = if_expr(unary("not", boolean(true)), ident("x"), None);
    let expected4 = unary("not", block(vec![bin(boolean(true), "or", boolean(false))]));
    let expected5 = bin(unary("-", int_lit(1)), "-", unary("-", int_lit(1)));

    assert_eq!(expected1, parse("-1 and not x"));
    assert_eq!(expected2, parse("while not true do false"));
    let mut p3 = Parser::new(tokenize("if not true then x", "filte.txt"));
    assert_eq!(expected3, p3.parse().unwrap());
    assert_eq!(expected4, parse("not { true or false }"));
    assert_eq!(expected5, parse("-1 - -1"));
}

#[test]
fn test_parse_typed_var_declaration() {
    let expected1 = var_decl("a", Some(Type::Int), int_lit(1));
    let expected2 = var_decl("b", Some(Type::Bool), boolean(true));
    let expected3 = var_decl("c", Some(Type::Unit), block(vec![bin(int_lit(1), "+", int_lit(1))]));
    assert_eq!(expected1, parse("var a: Int = 1"));
    assert_eq!(expected2, parse("var b: Bool = true"));
    assert_eq!(expected3, parse("var c: Unit = {1 + 1}"));
}

#[test]
fn parse_top_level_block() {
    let expected1 = block(vec![
        bin(int_lit(1), "+", int_lit(1)),
        bin(int_lit(2), "+", int_lit(2)),
        block(vec![bin(int_lit(3), "+", int_lit(3))]),
    ]);
    let expected2 = block(vec![
        block(vec![bin(int_lit(1), "+", int_lit(1))]),
        block(vec![bin(int_lit(2), "+", int_lit(2))]),
        bin(int_lit(3), "+", int_lit(3)),
        unit(),
    ]);
    assert_eq!(
        expected1,
        parse(
            "
            1 + 1;
            2+2;
            {3+3}"
        )
    );
    assert_eq!(
        expected2,
        parse(
            "
            {1 + 1}
            {2 + 2}
            3 + 3;
            "
        )
    );
}

#[test]
fn operators_group_around_any_operands() {
    assert_eq!(
        parse("f(1) - (2) * x"),
        bin(call("f", vec![int_lit(1)]), "-", bin(int_lit(2), "*", ident("x")))
    );
    assert_eq!(
        parse("(a) - f(b) - { c }"),
        bin(bin(ident("a"), "-", call("f", vec![ident("b")])), "-", block(vec![ident("c")]))
    );
    assert_eq!(parse("a = b = -c"), bin(ident("a"), "=", bin(ident("b"), "=", unary("-", ident("c")))));
}
