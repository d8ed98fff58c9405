use compiler::compiler::symtab::SymTab;
use compiler::compiler::types::Type;

#[test]
fn test_symtable() {
    let mut symtab = SymTab::new();
    symtab.insert("a", Type::Int);
    symtab.insert("b", Type::Bool);
    symtab.insert("e", Type::Int);

    assert_eq!(symtab.get("a"), Some(&Type::Int));
    assert_eq!(symtab.get("b"), Some(&Type::Bool));
    assert_eq!(symtab.get("e"), Some(&Type::Int));
    {
        let mut child_symtab = SymTab::new_with_parent(&symtab);
        child_symtab.insert("c", Type::Int);
        child_symtab.insert("d", Type::Bool);
        child_symtab.insert("e", Type::Bool);

        assert_eq!(child_symtab.get("c"), Some(&Type::Int));
        assert_eq!(child_symtab.get("d"), Some(&Type::Bool));
        assert_eq!(child_symtab.get("a"), Some(&Type::Int));
        assert_eq!(child_symtab.get("b"), Some(&Type::Bool));
        assert_eq!(child_symtab.get("e"), Some(&Type::Bool));
        {
            let mut grandchild_symtab = SymTab::new_with_parent(&child_symtab);

            grandchild_symtab.insert("f", Type::Int);
            grandchild_symtab.insert("g", Type::Bool);

            assert_eq!(grandchild_symtab.get("f"), Some(&Type::Int));
            assert_eq!(grandchild_symtab.get("g"), Some(&Type::Bool));
            assert_eq!(grandchild_symtab.get("e"), Some(&Type::Bool));
            assert_eq!(grandchild_symtab.get("a"), Some(&Type::Int));
        }
    }

    symtab.insert(
        "print_int",
        Type::FunType {
            args: vec![Box::new(Type::Int)],
            result: Box::new(Type::Unit),
        },
    );

    assert_eq!(
        symtab.get("print_int"),
        Some(&Type::FunType {
            args: vec![Box::new(Type::Int)],
            result: Box::new(Type::Unit)
        })
    );
}
