use compiler::compiler::ast::{BinaryOp, Expression, Identifier, Literal, LiteralValue};
use compiler::compiler::ir::{IRVar, Instruction, Label, LoadIntConst};
use compiler::compiler::ir_generator::{generate_ir, IrError};
use compiler::compiler::parser::{Parser, ParserError};
use compiler::compiler::tokenizer::{tokenize, tokens_of_line, CaptureGroup, Location, Token, TokenType};
use compiler::compiler::symtab::SymTab;
use compiler::compiler::type_checker::{init_globals, typecheck, TypeError};
use compiler::compiler::types::Type;
use compiler::compiler::{compile, CompileError};

fn int_literal(v: i8) -> Expression {
    Expression::Literal(Literal::new(LiteralValue::Int(v), Location::special()))
}

#[test]
fn compile_if_else_prints_its_value() {
    let ir = compile("if true then false else true", "file.txt").unwrap();
    let expected = "LoadBoolConst(true, x0)
CondJump(x0, Label(then), Label(else))
Label(then)
LoadBoolConst(false, x2)
Copy(x2, x1)
Jump(Label(if_end))
Label(else)
LoadBoolConst(true, x3)
Copy(x3, x1)
Label(if_end)
Call(print_bool, [x1], x4)";
    assert_eq!(ir, expected);
}

#[test]
fn compile_nested_if_numbers_inner_labels() {
    let ir = compile("if true then if false then 1 else 2 else 3", "file.txt").unwrap();
    let expected = "LoadBoolConst(true, x0)
CondJump(x0, Label(then), Label(else))
Label(then)
LoadBoolConst(false, x2)
CondJump(x2, Label(then0), Label(else0))
Label(then0)
LoadIntConst(1, x4)
Copy(x4, x3)
Jump(Label(if_end0))
Label(else0)
LoadIntConst(2, x5)
Copy(x5, x3)
Label(if_end0)
Copy(x3, x1)
Jump(Label(if_end))
Label(else)
LoadIntConst(3, x6)
Copy(x6, x1)
Label(if_end)
Call(print_int, [x1], x7)";
    assert_eq!(ir, expected);
}

#[test]
fn compile_block_value_is_a_fresh_variable() {
    let ir = compile("{ 1; true }", "file.txt").unwrap();
    let expected = "LoadIntConst(1, x0)
LoadBoolConst(true, x1)
Call(print_bool, [x2], x3)";
    assert_eq!(ir, expected);
}

#[test]
fn compile_unit_program_prints_nothing() {
    let ir = compile("while false do 1", "file.txt").unwrap();
    let expected = "Label(while_start)
LoadBoolConst(false, x0)
CondJump(x0, Label(while_body), Label(while_end))
Label(while_body)
LoadIntConst(1, x1)
Jump(Label(while_start))
Label(while_end)";
    assert_eq!(ir, expected);
}

#[test]
fn compile_reports_parse_error() {
    match compile("a * 2 c", "file.txt") {
        Err(CompileError::Parse(ParserError::UnexpectedToken { expected, found, location })) => {
            assert_eq!(expected, ";");
            assert_eq!(found, "c");
            assert_eq!(location.line, "1");
            assert_eq!(location.column, "7");
        },
        other => panic!("unexpected result {:?}", other),
    }
}

#[test]
fn compile_reports_type_error() {
    match compile("1 == true", "file.txt") {
        Err(CompileError::Type(TypeError::MismatchedTypes { expected, .. })) => {
            assert_eq!(expected, Type::Int);
        },
        other => panic!("unexpected result {:?}", other),
    }
}

#[test]
fn compile_reports_unlowered_expressions() {
    // A declaration is located at the name it declares.
    for (source, column) in [("print_int(1)", "1"), ("var x = 1", "5"), ("-1", "1")] {
        match compile(source, "file.txt") {
            Err(CompileError::Ir(IrError::UnknownExpression(loc))) => {
                assert_eq!(loc.line, "1");
                assert_eq!(loc.column, column);
            },
            other => panic!("unexpected result {:?} for {}", other, source),
        }
    }
}

#[test]
fn compile_reports_assignment_as_unknown_operator() {
    match compile("{ 1; }", "file.txt") {
        Ok(ir) => assert_eq!(ir, "LoadIntConst(1, x0)"),
        other => panic!("unexpected result {:?}", other),
    }
    match generate_ir(Vec::new(), Expression::BinaryOp(BinaryOp::new(
        Box::new(Expression::Identifier(Identifier::new("a", Location::special()))),
        "=",
        Box::new(int_literal(1)),
    ))) {
        Err(IrError::UnknownOperator(op)) => assert_eq!(op, "="),
        other => panic!("unexpected result {:?}", other),
    }
}

#[test]
fn generate_reports_unknown_variable() {
    let roots = vec![(IRVar::new("+"), Type::Int)];
    let tree = Expression::BinaryOp(BinaryOp::new(
        Box::new(int_literal(1)),
        "+",
        Box::new(Expression::Identifier(Identifier::new("b", Location::special()))),
    ));
    match generate_ir(roots, tree) {
        Err(IrError::VarNotFound(name)) => assert_eq!(name, "b"),
        other => panic!("unexpected result {:?}", other),
    }
}

#[test]
fn generate_skips_variables_in_use() {
    // `x0` and `x1` are taken by the roots, so the constant goes to `x2`.
    let roots = vec![(IRVar::new("x1"), Type::Bool), (IRVar::new("x0"), Type::Int)];
    let ir = generate_ir(roots, int_literal(7)).unwrap();
    let text: Vec<String> = ir.iter().map(|i| i.as_string()).collect();
    assert_eq!(text, vec!["LoadIntConst(7, x2)", "Call(print_int, [x2], x3)"]);
}

#[test]
fn generate_first_root_binding_counts() {
    // The first binding of `a` is a boolean, so its value is printed as one.
    let roots = vec![(IRVar::new("a"), Type::Bool), (IRVar::new("a"), Type::Int)];
    let tree = Expression::Identifier(Identifier::new("a", Location::special()));
    let ir = generate_ir(roots, tree).unwrap();
    let text: Vec<String> = ir.iter().map(|i| i.as_string()).collect();
    assert_eq!(text, vec!["Call(print_bool, [a], x0)"]);
}

#[test]
fn negative_constants_print_with_sign() {
    let i = Instruction::LoadIntConst(LoadIntConst::new(-128, IRVar::new("x9"), Location::special()));
    assert_eq!(i.as_string(), "LoadIntConst(-128, x9)");
    let l = Instruction::Label(Label::new("then3", Location::special()));
    assert_eq!(l.as_string(), "Label(then3)");
}

#[test]
fn tokens_carry_line_and_column() {
    let tokens = tokenize("a\n  bb // c\r\n\n 12", "f.txt");
    let at = |line: &str, column: &str| Location {
        file: "f.txt".to_string(),
        line: line.to_string(),
        column: column.to_string(),
    };
    assert_eq!(
        tokens,
        vec![
            Token { text: "a".to_string(), token_type: TokenType::Identifier, loc: at("1", "1") },
            Token { text: "bb".to_string(), token_type: TokenType::Identifier, loc: at("2", "3") },
            Token { text: "12".to_string(), token_type: TokenType::Integer, loc: at("4", "2") },
        ]
    );
    assert_ne!(at("1", "1"), at("1", "2"));
    assert_eq!(at("1", "1"), Location::special());
}

#[test]
fn tokens_for_keywords() {
    let tokens = tokenize("true and false or not x", "f.txt");
    let types: Vec<TokenType> = tokens.iter().map(|t| t.token_type).collect();
    assert_eq!(
        types,
        vec![
            TokenType::Boolean,
            TokenType::Operator,
            TokenType::Boolean,
            TokenType::Operator,
            TokenType::Identifier,
            TokenType::Identifier,
        ]
    );
}

#[test]
fn parse_reports_invalid_integer() {
    let mut p = Parser::new(tokenize("300", "f.txt"));
    match p.parse() {
        Err(ParserError::InvalidInteger(text)) => assert_eq!(text, "300"),
        other => panic!("unexpected result {:?}", other),
    }
}

#[test]
fn parse_reports_var_where_an_operand_stands() {
    let mut p = Parser::new(tokenize("1 + var x = 2", "f.txt"));
    match p.parse() {
        Err(ParserError::VarNotAllowed { location }) => assert_eq!(location.column, "5"),
        other => panic!("unexpected result {:?}", other),
    }
}

#[test]
fn operators_group_by_precedence_then_to_the_left() {
    let a = || Box::new(Expression::Identifier(Identifier::new("a", Location::special())));
    let b = || Box::new(Expression::Identifier(Identifier::new("b", Location::special())));
    let c = || Box::new(Expression::Identifier(Identifier::new("c", Location::special())));
    let parse = |s: &str| Parser::new(tokenize(s, "f.txt")).parse().unwrap();

    let left = Expression::BinaryOp(BinaryOp::new(
        Box::new(Expression::BinaryOp(BinaryOp::new(a(), "*", b()))),
        "+",
        c(),
    ));
    assert_eq!(parse("a * b + c"), left);

    let left2 = Expression::BinaryOp(BinaryOp::new(
        Box::new(Expression::BinaryOp(BinaryOp::new(a(), "-", b()))),
        "+",
        c(),
    ));
    assert_eq!(parse("a - b + c"), left2);

    let right = Expression::BinaryOp(BinaryOp::new(
        a(),
        "or",
        Box::new(Expression::BinaryOp(BinaryOp::new(b(), "and", c()))),
    ));
    assert_eq!(parse("a or b and c"), right);
}

#[test]
fn consume_past_the_end_gives_end_tokens() {
    let mut p = Parser::new(tokenize("x", "f.txt"));
    assert_eq!(p.consume().unwrap().text, "x");
    let end = p.consume().unwrap();
    assert_eq!(end.token_type, TokenType::End);
    assert_eq!(end.loc.column, "1");
    match p.consume_expect(compiler::compiler::parser::Expected::Multiple(vec!["a".to_string(), "b".to_string()])) {
        Err(ParserError::UnexpectedToken { expected, found, .. }) => {
            assert_eq!(expected, "a, b");
            assert_eq!(found, "");
        },
        other => panic!("unexpected result {:?}", other),
    }
}

#[test]
fn types_print_as_in_the_language() {
    let f = Type::FunType { args: vec![Box::new(Type::Int), Box::new(Type::Bool)], result: Box::new(Type::Unit) };
    assert_eq!(f.as_string(), "(Int, Bool) =>  Unit");
    assert_eq!(Type::Int.as_string(), "Int");
}

#[test]
fn greetings_are_matched() {
    let words: Vec<String> = ["hello", "Hello", "HELLO", "HellO", "hell0", "Hell0", "say hello!"]
        .iter()
        .map(|s| s.to_string())
        .collect();
    let reports = compiler::greeting::greeting_reports(&words).unwrap();
    assert_eq!(
        reports,
        vec![
            "\"hello\" is a match :)",
            "\"Hello\" is a match :)",
            "\"HELLO\" is not a match :(",
            "\"HellO\" is a match :)",
            "\"hell0\" is a match :)",
            "\"Hell0\" is a match :)",
            "\"say hello!\" is a match :)",
        ]
    );
}

#[test]
fn checking_only_fills_in_types() {
    let source = "{ var a = 1; if a < 2 then { a = a + 1 } else { a = 0 }; print_int(a) }";
    let mut tree = Parser::new(tokenize(source, "f.txt")).parse().unwrap();
    let mut st = SymTab::new();
    init_globals(&mut st);
    assert_eq!(typecheck(&mut tree, &mut st).unwrap(), Type::Unit);
    assert_eq!(tree.get_type(), &Type::Unit);
    assert_eq!(tree, Parser::new(tokenize(source, "f.txt")).parse().unwrap());
}

#[test]
fn parsing_stops_only_at_the_end() {
    for source in ["a b", "1 + 2 )", "if a then b c"] {
        assert!(Parser::new(tokenize(source, "f.txt")).parse().is_err(), "{}", source);
    }
}

#[test]
fn literal_values_from_plain_values() {
    let i: LiteralValue = 2.into();
    assert_eq!(i, LiteralValue::Int(2));
    assert_eq!(LiteralValue::from(true), LiteralValue::Bool(true));
    assert_eq!(Expression::Literal(Literal::new(5.into(), Location::special())), int_literal(5));
}

#[test]
fn tokens_of_one_line_from_its_captures() {
    let g = |text: &str, start: usize| Some(CaptureGroup { text: text.to_string(), start });
    let caps = vec![
        vec![g("and", 4), g("and", 4), None, None, None],
        vec![g("7", 0), None, g("7", 0), None, None],
        vec![g(";", 9), None, None, None, g(";", 9)],
        vec![g("?", 2), None, None, None, None],
    ];
    let tokens = tokens_of_line(&caps, "f.txt", 2);
    let at = |column: &str| Location { file: "f.txt".to_string(), line: "3".to_string(), column: column.to_string() };
    assert_eq!(
        tokens,
        vec![
            Token { text: "and".to_string(), token_type: TokenType::Operator, loc: at("5") },
            Token { text: "7".to_string(), token_type: TokenType::Integer, loc: at("1") },
            Token { text: ";".to_string(), token_type: TokenType::Punctuation, loc: at("10") },
        ]
    );
}

#[test]
fn built_ins_go_into_the_scope_itself() {
    let mut outer: SymTab<Type> = SymTab::new();
    outer.insert("x", Type::Bool);
    init_globals(&mut outer);
    let mut inner = SymTab::new_with_parent(&outer);
    init_globals(&mut inner);
    let names: Vec<String> = inner.local_bindings().iter().map(|(n, _)| n.clone()).collect();
    assert_eq!(
        names,
        vec![
            "print_int", "print_bool", "+", "-", "/", "%", "*", ">", "<", "<=", ">=", "and", "or",
            "unary_not", "unary_-",
        ]
    );
    assert_eq!(inner.get("x"), Some(&Type::Bool));
    assert_eq!(outer.local_bindings().len(), 16);
}

#[test]
fn declarations_stay_in_their_scope() {
    let mut st: SymTab<Type> = SymTab::new();
    init_globals(&mut st);
    let mut block = Parser::new(tokenize("{ var y = 1; y }", "f.txt")).parse().unwrap();
    assert_eq!(typecheck(&mut block, &mut st).unwrap(), Type::Int);
    assert_eq!(st.local_bindings().len(), 15);
    assert_eq!(st.get("y"), None);
    let mut decl = Parser::new(tokenize("var y = true", "f.txt")).parse().unwrap();
    assert_eq!(typecheck(&mut decl, &mut st).unwrap(), Type::Unit);
    assert_eq!(st.local_bindings().len(), 16);
    assert_eq!(st.get("y"), Some(&Type::Bool));
}

#[test]
fn integer_operands_group_by_precedence() {
    let parse = |s: &str| Parser::new(tokenize(s, "f.txt")).parse().unwrap();
    let n = |v: i8| Box::new(int_literal(v));
    assert_eq!(
        parse("1 - 2 * 3"),
        Expression::BinaryOp(BinaryOp::new(n(1), "-", Box::new(Expression::BinaryOp(BinaryOp::new(n(2), "*", n(3))))))
    );
    assert_eq!(
        parse("1 < 2 == 3"),
        Expression::BinaryOp(BinaryOp::new(Box::new(Expression::BinaryOp(BinaryOp::new(n(1), "<", n(2)))), "==", n(3)))
    );
}

fn check_program(source: &str) -> Result<Type, TypeError> {
    let mut tree = Parser::new(tokenize(source, "f.txt")).parse().unwrap();
    let mut st = SymTab::new();
    init_globals(&mut st);
    typecheck(&mut tree, &mut st)
}

#[test]
fn assignment_chains_end_in_any_expression() {
    assert_eq!(check_program("{ var a = 0; var b = 0; a = b = a + 1 }").unwrap(), Type::Unit);
    assert_eq!(check_program("{ var a = true; var b = false; a = b = 1 < 2 }").unwrap(), Type::Unit);
    assert_eq!(check_program("{ var a = 0; var b = 0; a = b = if true then 1 else 2 }").unwrap(), Type::Unit);
    assert!(check_program("{ var a = 0; var b = 0; a = b = 1 < 2 }").is_err());
    assert!(check_program("{ var a = 0; var b = true; a = b = 1 + 1 }").is_err());
}

#[test]
fn every_parse_step_consumes_input() {
    let tree = Parser::new(tokenize("f(1, (2), { 3 })", "f.txt")).parse().unwrap();
    assert!(matches!(tree, Expression::FunctionCall(_)));
    for source in ["f(", "(", "{", "if", "while x do", "var"] {
        assert!(Parser::new(tokenize(source, "f.txt")).parse().is_err(), "{}", source);
    }
}
