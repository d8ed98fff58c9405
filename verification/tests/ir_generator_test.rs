use compiler::compiler::ir::{Call, IRVar, Instruction, LoadIntConst};
use compiler::compiler::ir_generator::generate_ir;
use compiler::compiler::parser::Parser;
use compiler::compiler::symtab::SymTab;
use compiler::compiler::tokenizer::{tokenize, Location};
use compiler::compiler::type_checker::{init_globals, typecheck};
use compiler::compiler::types::Type;

/// The variables and functions bound in `st`, as roots of a lowering.
fn root_types_of(st: &SymTab<Type>) -> Vec<(IRVar, Type)> {
    let mut root_types: Vec<(IRVar, Type)> = Vec::new();
    for (name, t) in st.local_bindings().iter() {
        root_types.push((IRVar { name: name.clone() }, t.clone()));
    }
    root_types
}

fn ir_text(ir: &[Instruction]) -> String {
    ir.iter().map(|arg| arg.as_string()).collect::<Vec<_>>().join("\n")
}

fn var(name: &str) -> IRVar {
    IRVar { name: name.to_string() }
}

#[test]
fn test_gen_bin_op_ir() {
    let tokens1 = tokenize("1 + 2 * 3", "file.txt");
    let tokens2 = tokenize("1 + 2 * 3;", "file.txt");

    let mut p1 = Parser::new(tokens1);
    let mut p2 = Parser::new(tokens2);

    let mut parsed1 = p1.parse().unwrap();
    let mut parsed2 = p2.parse().unwrap();

    let mut st1: SymTab<Type> = SymTab::new();
    let mut st2: SymTab<Type> = SymTab::new();

    init_globals(&mut st1);
    init_globals(&mut st2);

    typecheck(&mut parsed1, &mut st1).unwrap();
    typecheck(&mut parsed2, &mut st2).unwrap();

    let root_types1 = root_types_of(&st1);
    let root_types2 = root_types_of(&st2);

    let ir1 = generate_ir(root_types1, parsed1).unwrap();
    let ir2 = generate_ir(root_types2, parsed2).unwrap();

    let expected1: Vec<Instruction> = vec![
        Instruction::LoadIntConst(LoadIntConst::new(1, var("x0"), Location::special())),
        Instruction::LoadIntConst(LoadIntConst::new(2, var("x1"), Location::special())),
        Instruction::LoadIntConst(LoadIntConst::new(3, var("x2"), Location::special())),
        Instruction::Call(Call::new(var("*"), vec![var("x1"), var("x2")], var("x3"), Location::special())),
        Instruction::Call(Call::new(var("+"), vec![var("x0"), var("x3")], var("x4"), Location::special())),
        Instruction::Call(Call::new(var("print_int"), vec![var("x4")], var("x5"), Location::special())),
    ];

    let expected2: Vec<Instruction> = vec![
        Instruction::LoadIntConst(LoadIntConst::new(1, var("x0"), Location::special())),
        Instruction::LoadIntConst(LoadIntConst::new(2, var("x1"), Location::special())),
        Instruction::LoadIntConst(LoadIntConst::new(3, var("x2"), Location::special())),
        Instruction::Call(Call::new(var("*"), vec![var("x1"), var("x2")], var("x3"), Location::special())),
        Instruction::Call(Call::new(var("+"), vec![var("x0"), var("x3")], var("x4"), Location::special())),
    ];

    for (actual, expected) in ir1.iter().zip(expected1.iter()) {
        assert_eq!(actual.as_string(), expected.as_string());
    }

    for (actual, expected) in ir2.iter().zip(expected2.iter()) {
        assert_eq!(actual.as_string(), expected.as_string());
    }
}

fn generate(source_code: &str) -> String {
    let tokens = tokenize(source_code, "file.txt");
    let mut p = Parser::new(tokens);
    let mut parsed = p.parse().unwrap();
    let mut st = SymTab::new();
    init_globals(&mut st);
    typecheck(&mut parsed, &mut st).unwrap();
    let root_types = root_types_of(&st);
    let ir = generate_ir(root_types, parsed).unwrap();
    ir_text(&ir)
}

#[test]
fn test_gen_if_ir() {
    let ir_string = generate("if true then false");
    let expected = "LoadBoolConst(true, x0)
CondJump(x0, Label(then), Label(if_end))
Label(then)
LoadBoolConst(false, x1)
Label(if_end)"
        .to_string();

    assert_eq!(ir_string, expected);
}

#[test]
fn test_gen_if_else_ir() {
    let ir_string = generate("if true then false else true");
    let expected = "LoadBoolConst(true, x0)
CondJump(x0, Label(then), Label(else))
Label(then)
LoadBoolConst(false, x2)
Copy(x2, x1)
Jump(Label(if_end))
Label(else)
LoadBoolConst(true, x3)
Copy(x3, x1)
Label(if_end)
Call(print_bool, [x1], x4)"
        .to_string();
    assert_eq!(ir_string, expected);
}

#[test]
fn test_gen_while_ir() {
    let ir_string = generate("while true do 1 + 1");
    let expected = "Label(while_start)
LoadBoolConst(true, x0)
CondJump(x0, Label(while_body), Label(while_end))
Label(while_body)
LoadIntConst(1, x1)
LoadIntConst(1, x2)
Call(+, [x1, x2], x3)
Jump(Label(while_start))
Label(while_end)"
        .to_string();
    assert_eq!(ir_string, expected);
}
