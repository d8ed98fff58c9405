use compiler::compiler::parser::Parser;
use compiler::compiler::symtab::SymTab;
use compiler::compiler::tokenizer::tokenize;
use compiler::compiler::type_checker::{init_globals, typecheck};
use compiler::compiler::types::Type;

#[test]
fn test_typecheck_bin_op() {
    let tokens1 = tokenize("1 + 1", "file.txt");
    let mut p1 = Parser::new(tokens1);
    let mut parsed1 = p1.parse().unwrap();
    let mut st = SymTab::new();
    init_globals(&mut st);
    assert_eq!(typecheck(&mut parsed1, &mut st).unwrap(), Type::Int);
    assert_eq!(parsed1.get_type(), &Type::Int);

    let tokens2 = tokenize("1 == 1", "file.txt");
    let mut p2 = Parser::new(tokens2);
    let mut parsed2 = p2.parse().unwrap();
    assert_eq!(typecheck(&mut parsed2, &mut st).unwrap(), Type::Bool);
    assert_eq!(parsed2.get_type(), &Type::Bool);
}

#[test]
#[should_panic]
fn test_typecheck_bin_op_panic() {
    let tokens = tokenize("var x = 1;\nvar y = false;\nx + y", "file.txt");
    let mut p = Parser::new(tokens);
    let mut st = SymTab::new();
    init_globals(&mut st);
    typecheck(&mut p.parse().unwrap(), &mut st).unwrap();
}

#[test]
fn test_typecheck_if() {
    let tokens1 = tokenize("var a = if true or false then 1 else 2;\na", "file.txt");
    let mut p1 = Parser::new(tokens1);
    let mut parsed1 = p1.parse().unwrap();
    let mut st1 = SymTab::new();
    init_globals(&mut st1);
    assert_eq!(typecheck(&mut parsed1, &mut st1).unwrap(), Type::Int);
    assert_eq!(parsed1.get_type(), &Type::Int);

    let mut st2 = SymTab::new();
    init_globals(&mut st2);
    let tokens2 = tokenize("if true then 1", "file.txt");
    let mut p2 = Parser::new(tokens2);
    let mut parsed2 = p2.parse().unwrap();
    assert_eq!(typecheck(&mut parsed2, &mut st2).unwrap(), Type::Unit);
    assert_eq!(parsed2.get_type(), &Type::Unit);
}

#[test]
#[should_panic]
fn test_typecheck_if_panic() {
    let tokens = tokenize("if 1 + 1 then true else false", "file.txt");
    let mut p = Parser::new(tokens);
    let mut st = SymTab::new();
    init_globals(&mut st);
    typecheck(&mut p.parse().unwrap(), &mut st).unwrap();
}

#[test]
fn test_typetype_check_unary_op() {
    let tokens1 = tokenize("-1", "file.txt");
    let mut p1 = Parser::new(tokens1);
    let mut parsed1 = p1.parse().unwrap();
    let mut st = SymTab::new();
    init_globals(&mut st);
    assert_eq!(typecheck(&mut parsed1, &mut st).unwrap(), Type::Int);
    assert_eq!(parsed1.get_type(), &Type::Int);

    let tokens2 = tokenize("{\nvar x = false;\n not x\n}", "file.txt");
    let mut p2 = Parser::new(tokens2);
    let mut parsed2 = p2.parse().unwrap();
    assert_eq!(typecheck(&mut parsed2, &mut st).unwrap(), Type::Bool);
    assert_eq!(parsed2.get_type(), &Type::Bool);
}
#[test]
#[should_panic]
fn test_typecheck_unary_op_panic() {
    let tokens = tokenize("not 1", "file.txt");
    let mut p = Parser::new(tokens);
    let mut st = SymTab::new();
    init_globals(&mut st);
    typecheck(&mut p.parse().unwrap(), &mut st).unwrap();
}

#[test]
fn test_typecheck_var_declaration() {
    let tokens = tokenize("{\nvar a: Int = 1;\na\n}", "file.txt");
    let mut p = Parser::new(tokens);
    let mut parsed = p.parse().unwrap();
    let mut st = SymTab::new();
    init_globals(&mut st);
    assert_eq!(typecheck(&mut parsed, &mut st).unwrap(), Type::Int);
    assert_eq!(parsed.get_type(), &Type::Int);
}

#[test]
#[should_panic]
fn test_typecheck_var_declaration_panic() {
    let tokens = tokenize("var x: Int = true", "file.txt");
    let mut p = Parser::new(tokens);
    let mut st = SymTab::new();
    init_globals(&mut st);
    typecheck(&mut p.parse().unwrap(), &mut st).unwrap();
}

#[test]
fn test_typecheck_block() {
    let tokens1 = tokenize("{\nvar x: Int = {1 + 1}\n}", "file.txt");
    let mut p1 = Parser::new(tokens1);
    let mut parsed1 = p1.parse().unwrap();
    let mut st = SymTab::new();
    init_globals(&mut st);
    assert_eq!(typecheck(&mut parsed1, &mut st).unwrap(), Type::Unit);
    assert_eq!(parsed1.get_type(), &Type::Unit);

    let tokens2 = tokenize("{\n1 > 1\n}", "file.txt");
    let mut p2 = Parser::new(tokens2);
    let mut parsed2 = p2.parse().unwrap();
    assert_eq!(typecheck(&mut parsed2, &mut st).unwrap(), Type::Bool);
    assert_eq!(parsed2.get_type(), &Type::Bool);
}

#[test]
fn test_typecheck_var_assignment() {
    let tokens = tokenize(
        "{\nvar a = 0;\nvar b = 0;\nvar c = a + b;\na = b = c = 1\n}",
        "file.txt",
    );
    let mut p = Parser::new(tokens);
    let mut parsed = p.parse().unwrap();
    let mut st = SymTab::new();
    init_globals(&mut st);

    assert_eq!(typecheck(&mut parsed, &mut st).unwrap(), Type::Unit);
    assert_eq!(parsed.get_type(), &Type::Unit);
}

#[test]
#[should_panic]
fn test_typecheck_var_assignment_panic() {
    let tokens = tokenize(
        "var x = 1;\nvar y = 1;\nvar z = true;\nx = y = z = 1",
        "file.txt",
    );
    let mut p = Parser::new(tokens);

    let mut st = SymTab::new();
    init_globals(&mut st);

    typecheck(&mut p.parse().unwrap(), &mut st).unwrap();
}

#[test]
fn test_typecheck_special_operators() {
    let tokens1 = tokenize("true == false", "file.txt");
    let mut p1 = Parser::new(tokens1);
    let mut parsed1 = p1.parse().unwrap();
    let mut st = SymTab::new();
    init_globals(&mut st);
    assert_eq!(typecheck(&mut parsed1, &mut st).unwrap(), Type::Bool);
    assert_eq!(parsed1.get_type(), &Type::Bool);

    let tokens2 = tokenize("1 != 2", "file.txt");
    let mut p2 = Parser::new(tokens2);
    let mut parsed2 = p2.parse().unwrap();
    assert_eq!(typecheck(&mut parsed2, &mut st).unwrap(), Type::Bool);
    assert_eq!(parsed2.get_type(), &Type::Bool);
}

#[test]
#[should_panic]
fn test_typecheck_special_operators_panic() {
    let tokens = tokenize("1 == true", "file.txt");
    let mut p = Parser::new(tokens);
    let mut st = SymTab::new();
    init_globals(&mut st);
    typecheck(&mut p.parse().unwrap(), &mut st).unwrap();
}

#[test]
fn test_typecheck_function_call() {
    let tokens1 = tokenize("{\nvar x = true;\nprint_bool(x)\n}", "file.txt");
    let mut p1 = Parser::new(tokens1);
    let mut parsed1 = p1.parse().unwrap();
    let mut st = SymTab::new();
    init_globals(&mut st);
    assert_eq!(typecheck(&mut parsed1, &mut st).unwrap(), Type::Unit);
    assert_eq!(parsed1.get_type(), &Type::Unit);

    let tokens2 = tokenize("{\nvar y = 1; print_int(y)\n}", "file.txt");
    let mut p2 = Parser::new(tokens2);
    let mut parsed2 = p2.parse().unwrap();
    assert_eq!(typecheck(&mut parsed2, &mut st).unwrap(), Type::Unit);
    assert_eq!(parsed2.get_type(), &Type::Unit);
}

#[test]
#[should_panic]
fn test_typecheck_function_call_panic() {
    let tokens = tokenize("print_int(false)", "file.txt");
    let mut p = Parser::new(tokens);
    let mut st = SymTab::new();
    init_globals(&mut st);
    typecheck(&mut p.parse().unwrap(), &mut st).unwrap();
}

#[test]
fn test_typecheck_while() {
    let tokens = tokenize("var x = 0; while x < 10 do x + 1", "file.txt");
    let mut p = Parser::new(tokens);
    let mut st = SymTab::new();
    init_globals(&mut st);

    let mut parsed = p.parse().unwrap();
    assert_eq!(typecheck(&mut parsed, &mut st).unwrap(), Type::Unit);
    assert_eq!(parsed.get_type(), &Type::Unit);
}

#[test]
#[should_panic]
fn test_typecheck_while_panic() {
    let tokens = tokenize("while 1 + 1 do false", "file.txt");
    let mut p = Parser::new(tokens);
    let mut st = SymTab::new();
    init_globals(&mut st);
    typecheck(&mut p.parse().unwrap(), &mut st).unwrap();
}
