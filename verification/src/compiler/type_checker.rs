//! Type checking: computes the type of an expression tree, records it in the
//! tree's type slots, and binds declared variables in the symbol table.
//!
//! `spec_check` states the checker over tree values and an environment (the
//! bindings visible in the current scope); [`typecheck`] is proved to compute it.
use super::ast::{exprs_value, lemma_exprs_value, IdentV, lemma_strips, lemma_strips_eq, opt_type_value, strip, strips, BinaryOp, Block, ExprV, Expression, FunctionCall, If, Literal, LiteralValue, UnaryOp, VarDeclaration, While};
use super::symtab::{chain_lookup, local_lookup, SymTab};
use super::tokenizer::{LocV, Location};
use super::text::same_text;
use super::types::{lemma_types_value, types_value, Type, TypeV};
use vstd::prelude::*;
use vstd::string::*;

verus! {

/// Why an expression does not type-check.
#[derive(Debug)]
pub enum TypeError {
    /// The expression at `loc` should have had type `expected`.
    MismatchedTypes { expected: Type, loc: Location },
    /// The name of an operator or a called function is bound to a non-function type.
    NotAFunction(String),
    /// The argument types do not match the parameter types of the named function.
    MismatchedArgTypes(String),
    /// The left side of an assignment at `loc` is not a variable name.
    AssignmentTarget { loc: Location },
    /// No typing rule for the operator `op` at `loc`.
    InvalidOperator { op: String, loc: Location },
    /// A declared type differs from the type of the initializer.
    DeclaredTypeMismatch { declared: Type, found: Type },
    /// A variable that no enclosing scope declares.
    UnknownVariable(String),
    /// A function that no enclosing scope declares.
    UnknownFunction(String),
}

/// The value of a [`TypeError`].
pub enum TErrV {
    MismatchedTypes { expected: TypeV, loc: LocV },
    NotAFunction(Seq<char>),
    MismatchedArgTypes(Seq<char>),
    AssignmentTarget { loc: LocV },
    InvalidOperator { op: Seq<char>, loc: LocV },
    DeclaredTypeMismatch { declared: TypeV, found: TypeV },
    UnknownVariable(Seq<char>),
    UnknownFunction(Seq<char>),
}

impl View for TypeError {
    type V = TErrV;

    open spec fn view(&self) -> TErrV {
        match self {
            TypeError::MismatchedTypes { expected, loc } => TErrV::MismatchedTypes {
                expected: expected@,
                loc: loc@,
            },
            TypeError::NotAFunction(s) => TErrV::NotAFunction(s@),
            TypeError::MismatchedArgTypes(s) => TErrV::MismatchedArgTypes(s@),
            TypeError::AssignmentTarget { loc } => TErrV::AssignmentTarget { loc: loc@ },
            TypeError::InvalidOperator { op, loc } => TErrV::InvalidOperator { op: op@, loc: loc@ },
            TypeError::DeclaredTypeMismatch { declared, found } => TErrV::DeclaredTypeMismatch {
                declared: declared@,
                found: found@,
            },
            TypeError::UnknownVariable(s) => TErrV::UnknownVariable(s@),
            TypeError::UnknownFunction(s) => TErrV::UnknownFunction(s@),
        }
    }
}

/// The bindings visible in a scope.
pub type Env = Map<Seq<char>, TypeV>;

/// A stack of scopes, outermost first: the types that each scope binds. A name
/// is looked up from the innermost scope out, and declarations go into the
/// innermost scope.
pub type Scopes = Seq<Env>;

/// The outcome of checking a tree: its type or an error, the tree with its type
/// slots filled in as far as checking got, and the scopes afterwards.
pub type Checked = (Result<TypeV, TErrV>, ExprV, Scopes);

/// The type `n` is bound to in the innermost scope of `s` that binds it.
pub open spec fn lookup_scopes(s: Scopes, n: Seq<char>) -> Option<TypeV>
    decreases s.len(),
{
    if s.len() == 0 {
        None
    } else if s.last().contains_key(n) {
        Some(s.last()[n])
    } else {
        lookup_scopes(s.drop_last(), n)
    }
}

/// `s` with its innermost scope replaced by `m`.
pub open spec fn with_top(s: Scopes, m: Env) -> Scopes {
    if s.len() == 0 {
        seq![m]
    } else {
        s.update(s.len() - 1, m)
    }
}

/// `s` with `n` bound to `t` in its innermost scope.
pub open spec fn declare(s: Scopes, n: Seq<char>, t: TypeV) -> Scopes {
    with_top(s, if s.len() == 0 { Map::empty() } else { s.last() }.insert(n, t))
}


/// The number of nodes of a tree.
pub open spec fn size(e: ExprV) -> nat
    decreases e,
{
    match e {
        ExprV::Literal { .. } => 1,
        ExprV::Identifier { .. } => 1,
        ExprV::BinaryOp { left, right, .. } => 1 + size(*left) + size(*right),
        ExprV::If { cond, then_branch, else_branch, .. } => 1 + size(*cond) + size(*then_branch)
            + match else_branch {
            Some(b) => size(*b),
            None => 0,
        },
        ExprV::FunctionCall { args, .. } => 1 + sizes(args),
        ExprV::Block { statements, .. } => 1 + sizes(statements),
        ExprV::VarDeclaration { initializer, .. } => 1 + size(*initializer),
        ExprV::While { cond, body, .. } => 1 + size(*cond) + size(*body),
        ExprV::UnaryOp { right, .. } => 1 + size(*right),
    }
}

/// The number of nodes of a sequence of trees.
pub open spec fn sizes(s: Seq<ExprV>) -> nat
    decreases s,
{
    if s.len() == 0 {
        0
    } else {
        size(s[0]) + sizes(s.subrange(1, s.len() as int))
    }
}

/// Checking only fills in type slots, so it keeps the size of a tree
/// ([`law_check_keeps_size`]); this outcome stands for a check that changed the
/// size of a tree, or for an assignment check of a node that is no assignment,
/// and is never produced. [`spec_check`] still tests for it because its
/// termination rests on the size being kept, which it cannot assume of itself.
pub open spec fn reshaped() -> TErrV {
    TErrV::UnknownVariable(seq![])
}

pub proof fn lemma_size_positive(e: ExprV)
    ensures
        size(e) >= 1,
{
}

pub open spec fn literal_type(v: Option<LiteralValue>) -> TypeV {
    match v {
        Some(LiteralValue::Int(_)) => TypeV::Int,
        Some(LiteralValue::Bool(_)) => TypeV::Bool,
        None => TypeV::Unit,
    }
}

/// Checks `e` in `env`.
pub open spec fn spec_check(e: ExprV, env: Scopes) -> Checked
    decreases size(e), 1int,
{
    match e {
        ExprV::Literal { value, loc, t } => {
            let ty = literal_type(value);
            (Ok(ty), e.with_type(ty), env)
        },
        ExprV::Identifier { id } => match lookup_scopes(env, id.name) {
            Some(ty) => (Ok(ty), e.with_type(ty), env),
            None => (Err(TErrV::UnknownVariable(id.name)), e, env),
        },
        ExprV::BinaryOp { left, op, right, loc, t } => {
            let (r1, l1, env1) = spec_check(*left, env);
            let n1 = ExprV::BinaryOp { left: Box::new(l1), op, right, loc, t };
            match r1 {
                Err(x) => (Err(x), n1, env1),
                Ok(t1) => {
                    let (r2, rn, env2) = spec_check(*right, env1);
                    let n2 = ExprV::BinaryOp { left: Box::new(l1), op, right: Box::new(rn), loc, t };
                    match r2 {
                        Err(x) => (Err(x), n2, env2),
                        Ok(t2) => match lookup_scopes(env2, op) {
                            Some(TypeV::Fun(args, res)) => if seq![t1, t2] == args {
                                (Ok(*res), n2.with_type(*res), env2)
                            } else {
                                (Err(TErrV::MismatchedArgTypes(op)), n2, env2)
                            },
                            Some(_) => (Err(TErrV::NotAFunction(op)), n2, env2),
                            None => if op == "=="@ || op == "!="@ {
                                if t1 == t2 {
                                    (Ok(TypeV::Bool), n2.with_type(TypeV::Bool), env2)
                                } else {
                                    (Err(TErrV::MismatchedTypes { expected: t1, loc: rn.loc() }), n2, env2)
                                }
                            } else if op == "="@ {
                                if l1 is Identifier {
                                    if size(n2) != size(e) {
                                        (Err(reshaped()), n2, env2)
                                    } else {
                                        spec_assign(n2.with_type(TypeV::Unit), env2, true)
                                    }
                                } else {
                                    (Err(TErrV::AssignmentTarget { loc: l1.loc() }), n2, env2)
                                }
                            } else {
                                (Err(TErrV::InvalidOperator { op, loc }), n2, env2)
                            },
                        },
                    }
                },
            }
        },
        ExprV::If { cond, then_branch, else_branch, loc, t } => {
            let (r1, c1, env1) = spec_check(*cond, env);
            let n1 = ExprV::If { cond: Box::new(c1), then_branch, else_branch, loc, t };
            match r1 {
                Err(x) => (Err(x), n1, env1),
                Ok(tc) => if tc != TypeV::Bool {
                    (Err(TErrV::MismatchedTypes { expected: TypeV::Bool, loc: c1.loc() }), n1, env1)
                } else {
                    let (r2, t2, env2) = spec_check(*then_branch, env1);
                    let n2 = ExprV::If { cond: Box::new(c1), then_branch: Box::new(t2), else_branch, loc, t };
                    match r2 {
                        Err(x) => (Err(x), n2, env2),
                        Ok(tt) => match else_branch {
                            Some(eb) => {
                                let (r3, e3, env3) = spec_check(*eb, env2);
                                let n3 = ExprV::If {
                                    cond: Box::new(c1),
                                    then_branch: Box::new(t2),
                                    else_branch: Some(Box::new(e3)),
                                    loc,
                                    t,
                                };
                                match r3 {
                                    Err(x) => (Err(x), n3, env3),
                                    Ok(te) => if tt != te {
                                        (Err(TErrV::MismatchedTypes { expected: TypeV::Bool, loc: e3.loc() }), n3, env3)
                                    } else {
                                        (Ok(tt), n3.with_type(tt), env3)
                                    },
                                }
                            },
                            None => (Ok(TypeV::Unit), n2.with_type(TypeV::Unit), env2),
                        },
                    }
                },
            }
        },
        ExprV::FunctionCall { name, args, loc, t } => match lookup_scopes(env, name.name) {
            None => (Err(TErrV::UnknownFunction(name.name)), e, env),
            Some(TypeV::Fun(expected, res)) => {
                let (r, args1, env1) = spec_check_seq(args, env);
                let n1 = ExprV::FunctionCall { name, args: args1, loc, t };
                match r {
                    Err(x) => (Err(x), n1, env1),
                    Ok(ts) => if ts == expected {
                        (Ok(*res), n1.with_type(*res), env1)
                    } else {
                        (Err(TErrV::MismatchedArgTypes(name.name)), n1, env1)
                    },
                }
            },
            Some(_) => (Err(TErrV::NotAFunction(name.name)), e, env),
        },
        ExprV::Block { statements, loc, t } => {
            let (r, stmts1, inner) = spec_check_seq(statements, env.push(Map::empty()));
            let n1 = ExprV::Block { statements: stmts1, loc, t };
            match r {
                Err(x) => (Err(x), n1, env),
                Ok(_) => if stmts1.len() == 0 {
                    (Ok(TypeV::Unit), n1.with_type(TypeV::Unit), env)
                } else if size(stmts1.last()) >= size(e) {
                    (Err(reshaped()), n1, env)
                } else {
                    let (r2, last, _) = spec_check(stmts1.last(), inner);
                    let n2 = ExprV::Block {
                        statements: stmts1.update(stmts1.len() - 1, last),
                        loc,
                        t,
                    };
                    match r2 {
                        Err(x) => (Err(x), n2, env),
                        Ok(tl) => (Ok(tl), n2.with_type(tl), env),
                    }
                },
            }
        },
        ExprV::VarDeclaration { var, declared_type, initializer, loc, t } => {
            let (r, i1, env1) = spec_check(*initializer, env);
            let n1 = ExprV::VarDeclaration { var, declared_type, initializer: Box::new(i1), loc, t };
            match r {
                Err(x) => (Err(x), n1, env1),
                Ok(ti) => match declared_type {
                    Some(d) => if d != ti {
                        (Err(TErrV::DeclaredTypeMismatch { declared: d, found: ti }), n1, env1)
                    } else {
                        (Ok(TypeV::Unit), n1.with_type(TypeV::Unit), declare(env1, var.name, ti))
                    },
                    None => (Ok(TypeV::Unit), n1.with_type(TypeV::Unit), declare(env1, var.name, ti)),
                },
            }
        },
        ExprV::While { cond, body, loc, t } => {
            let (r, c1, env1) = spec_check(*cond, env);
            let n1 = ExprV::While { cond: Box::new(c1), body, loc, t };
            match r {
                Err(x) => (Err(x), n1, env1),
                Ok(tc) => if tc != TypeV::Bool {
                    (Err(TErrV::MismatchedTypes { expected: TypeV::Bool, loc }), n1, env1)
                } else {
                    (Ok(TypeV::Unit), n1, env1)
                },
            }
        },
        ExprV::UnaryOp { op, right, loc, t } => {
            let name = "unary_"@ + op;
            match lookup_scopes(env, name) {
                Some(TypeV::Fun(args, res)) => {
                    let (r, r1, env1) = spec_check(*right, env);
                    let n1 = ExprV::UnaryOp { op, right: Box::new(r1), loc, t };
                    match r {
                        Err(x) => (Err(x), n1, env1),
                        Ok(t1) => if seq![t1] == args {
                            (Ok(*res), n1.with_type(*res), env1)
                        } else {
                            (Err(TErrV::MismatchedArgTypes(name)), n1, env1)
                        },
                    }
                },
                _ => (Err(TErrV::InvalidOperator { op, loc }), e, env),
            }
        },
    }
}

/// Checks the trees of `s` in order, each in the environment the previous one
/// left, stopping at the first error; their types when all pass.
pub open spec fn spec_check_seq(s: Seq<ExprV>, env: Scopes) -> (Result<Seq<TypeV>, TErrV>, Seq<ExprV>, Scopes)
    decreases sizes(s), 2int,
{
    if s.len() == 0 {
        (Ok(seq![]), seq![], env)
    } else {
        let rest = s.subrange(1, s.len() as int);
        proof {
            lemma_size_positive(s[0]);
        }
        let (r, x, env1) = spec_check(s[0], env);
        match r {
            Err(err) => (Err(err), seq![x] + rest, env1),
            Ok(t) => {
                let (rr, xs, env2) = spec_check_seq(rest, env1);
                match rr {
                    Err(err) => (Err(err), seq![x] + xs, env2),
                    Ok(ts) => (Ok(seq![t] + ts), seq![x] + xs, env2),
                }
            },
        }
    }
}

/// Checks the assignment `node` (a `=` node) again, and the assignments it
/// chains to on its right: both sides must have the same type; the outermost
/// assignment has type `Unit`, an inner one the type of its target.
pub open spec fn spec_assign(node: ExprV, env: Scopes, leftmost: bool) -> Checked
    decreases size(node), 0int,
{
    match node {
        ExprV::BinaryOp { left, op, right, loc, t } => {
            let (r1, l1, env1) = spec_check(*left, env);
            let n1 = ExprV::BinaryOp { left: Box::new(l1), op, right, loc, t };
            match r1 {
                Err(x) => (Err(x), n1, env1),
                Ok(t1) => {
                    let (r2, rn, env2) = if (*right) matches ExprV::BinaryOp { op: rop, .. } && rop == "="@ {
                        spec_assign(*right, env1, false)
                    } else {
                        spec_check(*right, env1)
                    };
                    let n2 = ExprV::BinaryOp { left: Box::new(l1), op, right: Box::new(rn), loc, t };
                    match r2 {
                        Err(x) => (Err(x), n2, env2),
                        Ok(t2) => if t1 != t2 {
                            (Err(TErrV::MismatchedTypes { expected: t1, loc: rn.loc() }), n2, env2)
                        } else {
                            (Ok(if leftmost { TypeV::Unit } else { t1 }), n2, env2)
                        },
                    }
                },
            }
        },
        _ => (Err(reshaped()), node, env),
    }
}


// ---------------------------------------------------------------------------
// The checker
// ---------------------------------------------------------------------------
/// The bindings visible in the scope `st`.
pub open spec fn sym_env<'a>(st: &SymTab<'a, Type>) -> Env {
    Map::new(|n: Seq<char>| st.lookup(n).is_some(), |n: Seq<char>| st.lookup(n).unwrap()@)
}

/// The types bound by the bindings `b` of one scope.
pub open spec fn bindings_env(b: Seq<(String, Type)>) -> Env {
    Map::new(|n: Seq<char>| local_lookup(b, n).is_some(), |n: Seq<char>| local_lookup(b, n).unwrap()@)
}

/// The scopes of `st`, outermost first, its own bindings innermost.
pub open spec fn scopes_of<'a>(st: &SymTab<'a, Type>) -> Scopes {
    st.chain().map_values(|b: Seq<(String, Type)>| bindings_env(b))
}

proof fn lemma_chain_scopes(c: Seq<Seq<(String, Type)>>, n: Seq<char>)
    ensures
        lookup_scopes(c.map_values(|b: Seq<(String, Type)>| bindings_env(b)), n) == opt_type_value(
            chain_lookup(c, n),
        ),
    decreases c.len(),
{
    if c.len() > 0 {
        let m = c.map_values(|b: Seq<(String, Type)>| bindings_env(b));
        assert(m.drop_last() =~= c.drop_last().map_values(|b: Seq<(String, Type)>| bindings_env(b)));
        lemma_chain_scopes(c.drop_last(), n);
    }
}

/// Looking up in the scopes of `st` is looking up in `st`, and its innermost
/// scope holds its own bindings.
pub proof fn lemma_scopes_of<'a>(st: &SymTab<'a, Type>)
    ensures
        scopes_of(st).len() >= 1,
        scopes_of(st).last() == bindings_env(st.bindings()),
        forall|n: Seq<char>| #[trigger] lookup_scopes(scopes_of(st), n) == opt_type_value(st.lookup(n)),
{
    st.lemma_chain();
    assert forall|n: Seq<char>| #[trigger] lookup_scopes(scopes_of(st), n) == opt_type_value(st.lookup(n)) by {
        lemma_chain_scopes(st.chain(), n);
    }
}

pub open spec fn result_value(r: Result<Type, TypeError>) -> Result<TypeV, TErrV> {
    match r {
        Ok(t) => Ok(t@),
        Err(e) => Err(e@),
    }
}

pub open spec fn results_value(r: Result<Vec<Type>, TypeError>) -> Result<Seq<TypeV>, TErrV> {
    match r {
        Ok(ts) => Ok(ts@.map_values(|t: Type| t@)),
        Err(e) => Err(e@),
    }
}

pub proof fn lemma_sizes(s: Seq<ExprV>)
    ensures
        forall|i: int| 0 <= i < s.len() ==> #[trigger] size(s[i]) <= sizes(s),
    decreases s.len(),
{
    if s.len() > 0 {
        let t = s.subrange(1, s.len() as int);
        lemma_sizes(t);
        assert forall|i: int| 0 <= i < s.len() implies #[trigger] size(s[i]) <= sizes(s) by {
            if i > 0 {
                assert(t[i - 1] == s[i]);
            }
        }
    }
}

/// `r` is the outcome of checking `e` in `env`, and `after` the environment then.
pub open spec fn checks_as(r: (Result<Type, TypeError>, Expression), e: ExprV, env: Scopes, after: Scopes) -> bool {
    let s = spec_check(e, env);
    &&& result_value(r.0) == s.0
    &&& r.1@ == s.1
    &&& after == s.2
    &&& size(r.1@) == size(e)
}

/// The type `name` is bound to in `st`.
fn lookup_type(st: &SymTab<Type>, name: &str) -> (r: Option<Type>)
    ensures
        opt_type_value(r) == lookup_scopes(scopes_of(st), name@),
{
    proof {
        lemma_scopes_of(st);
    }
    match st.get(name) {
        Some(t) => Some(t.copy()),
        None => None,
    }
}

/// Whether the argument types `args` are exactly the parameter types `expected`.
pub fn fun_args_are_correct(args: &Vec<Type>, expected: &Vec<Box<Type>>) -> (r: bool)
    ensures
        r == (args@.map_values(|t: Type| t@) == types_value(expected@)),
{
    proof {
        lemma_types_value(expected@);
    }
    let ghost a = args@.map_values(|t: Type| t@);
    if expected.len() != args.len() {
        assert(a.len() != types_value(expected@).len());
        return false;
    }
    let mut i: usize = 0;
    while i < args.len()
        invariant
            i <= args@.len(),
            args@.len() == expected@.len(),
            a == args@.map_values(|t: Type| t@),
            types_value(expected@).len() == expected@.len(),
            forall|j: int| 0 <= j < expected@.len() ==> #[trigger] types_value(expected@)[j] == (*expected@[j]).value(),
            forall|j: int| 0 <= j < i ==> a[j] == types_value(expected@)[j],
        decreases args@.len() - i,
    {
        if !args[i].type_eq(&expected[i]) {
            assert(a[i as int] != types_value(expected@)[i as int]);
            return false;
        }
        i = i + 1;
    }
    assert(a =~= types_value(expected@));
    true
}

fn literal_type_of(v: &Option<LiteralValue>) -> (t: Type)
    ensures
        t@ == literal_type(*v),
{
    match v {
        Some(LiteralValue::Int(_)) => Type::Int,
        Some(LiteralValue::Bool(_)) => Type::Bool,
        None => Type::Unit,
    }
}

/// Checks `node` (see [`spec_check`]) and returns it with its type slots filled.
fn check(node: Expression, st: &mut SymTab<Type>) -> (r: (Result<Type, TypeError>, Expression))
    ensures
        checks_as(r, node@, scopes_of(old(st)), scopes_of(final(st))),
        final(st).parent_scope() == old(st).parent_scope(),
        old(st).wf() ==> final(st).wf(),
    decreases size(node@), 3int,
{
    let ghost e = node@;
    let ghost env = scopes_of(st);
    match node {
        Expression::Literal(mut l) => {
            let ty = literal_type_of(&l.value);
            l.t = ty.copy();
            (Ok(ty), Expression::Literal(l))
        },
        Expression::Identifier(mut i) => match lookup_type(st, i.name.as_str()) {
            Some(ty) => {
                i.t = ty.copy();
                (Ok(ty), Expression::Identifier(i))
            },
            None => {
                let n = i.name.clone();
                (Err(TypeError::UnknownVariable(n)), Expression::Identifier(i))
            },
        },
        Expression::BinaryOp(b) => check_binary_op(b, st),
        Expression::If(i) => check_if(i, st),
        Expression::FunctionCall(f) => check_function_call(f, st),
        Expression::Block(b) => check_block(b, st),
        Expression::VarDeclaration(v) => check_var_declaration(v, st),
        Expression::While(w) => {
            let While { cond, body, loc, t } = w;
            let (r, c1) = check(*cond, st);
            match r {
                Err(x) => (Err(x), Expression::While(While { cond: Box::new(c1), body, loc, t })),
                Ok(tc) => if !tc.type_eq(&Type::Bool) {
                    let l = loc.clone();
                    (
                        Err(TypeError::MismatchedTypes { expected: Type::Bool, loc: l }),
                        Expression::While(While { cond: Box::new(c1), body, loc, t }),
                    )
                } else {
                    (Ok(Type::Unit), Expression::While(While { cond: Box::new(c1), body, loc, t }))
                },
            }
        },
        Expression::UnaryOp(u) => check_unary_op(u, st),
    }
}


fn node_binop(left: Expression, op: String, right: Box<Expression>, loc: Location, t: Type) -> (e: Expression)
    ensures
        e@ == (ExprV::BinaryOp {
            left: Box::new(left@),
            op: op@,
            right: Box::new((*right)@),
            loc: loc@,
            t: t@,
        }),
{
    Expression::BinaryOp(BinaryOp { left: Box::new(left), op, right, loc, t })
}

fn check_binary_op(b: BinaryOp, st: &mut SymTab<Type>) -> (r: (Result<Type, TypeError>, Expression))
    ensures
        checks_as(r, Expression::BinaryOp(b)@, scopes_of(old(st)), scopes_of(final(st))),
        final(st).parent_scope() == old(st).parent_scope(),
        old(st).wf() ==> final(st).wf(),
    decreases size(Expression::BinaryOp(b)@), 2int,
{
    let ghost e = Expression::BinaryOp(b)@;
    let BinaryOp { left, op, right, loc, t } = b;
    let (r1, l1) = check(*left, st);
    let t1 = match r1 {
        Ok(t1) => t1,
        Err(x) => return (Err(x), node_binop(l1, op, right, loc, t)),
    };
    let (r2, rn) = check(*right, st);
    let t2 = match r2 {
        Ok(t2) => t2,
        Err(x) => return (Err(x), node_binop(l1, op, Box::new(rn), loc, t)),
    };
    match lookup_type(st, op.as_str()) {
        Some(Type::FunType { args, result }) => {
            let mut actual: Vec<Type> = Vec::new();
            actual.push(t1);
            actual.push(t2);
            proof {
                assert(actual@.map_values(|t: Type| t@) =~= seq![actual@[0]@, actual@[1]@]);
            }
            if fun_args_are_correct(&actual, &args) {
                let ty = *result;
                let ty2 = ty.copy();
                (Ok(ty2), node_binop(l1, op, Box::new(rn), loc, ty))
            } else {
                let n = op.clone();
                (Err(TypeError::MismatchedArgTypes(n)), node_binop(l1, op, Box::new(rn), loc, t))
            }
        },
        Some(_) => {
            let n = op.clone();
            (Err(TypeError::NotAFunction(n)), node_binop(l1, op, Box::new(rn), loc, t))
        },
        None => {
            if same_text(op.as_str(), "==") || same_text(op.as_str(), "!=") {
                if t1.type_eq(&t2) {
                    (Ok(Type::Bool), node_binop(l1, op, Box::new(rn), loc, Type::Bool))
                } else {
                    let l = rn.get_loc().clone();
                    (
                        Err(TypeError::MismatchedTypes { expected: t1, loc: l }),
                        node_binop(l1, op, Box::new(rn), loc, t),
                    )
                }
            } else if same_text(op.as_str(), "=") {
                let is_ident = match &l1 {
                    Expression::Identifier(_) => true,
                    _ => false,
                };
                if is_ident {
                    let node = BinaryOp { left: Box::new(l1), op, right: Box::new(rn), loc, t: Type::Unit };
                    let (r, bn) = assign(node, st, true);
                    (r, Expression::BinaryOp(bn))
                } else {
                    let l = l1.get_loc().clone();
                    (Err(TypeError::AssignmentTarget { loc: l }), node_binop(l1, op, Box::new(rn), loc, t))
                }
            } else {
                let l = loc.clone();
                let o = op.clone();
                (
                    Err(TypeError::InvalidOperator { op: o, loc: l }),
                    node_binop(l1, op, Box::new(rn), loc, t),
                )
            }
        },
    }
}

/// Checks the assignment `node` again (see [`spec_assign`]); returns it with
/// its sides re-checked and its own type slot unchanged.
fn assign(node: BinaryOp, st: &mut SymTab<Type>, leftmost: bool) -> (r: (Result<Type, TypeError>, BinaryOp))
    ensures
        ({
            let s = spec_assign(Expression::BinaryOp(node)@, scopes_of(old(st)), leftmost);
            &&& result_value(r.0) == s.0
            &&& Expression::BinaryOp(r.1)@ == s.1
            &&& scopes_of(final(st)) == s.2
            &&& size(Expression::BinaryOp(r.1)@) == size(Expression::BinaryOp(node)@)
        }),
        final(st).parent_scope() == old(st).parent_scope(),
        old(st).wf() ==> final(st).wf(),
    decreases size(Expression::BinaryOp(node)@), 1int,
{
    let BinaryOp { left, op, right, loc, t } = node;
    let (r1, l1) = check(*left, st);
    let t1 = match r1 {
        Ok(t1) => t1,
        Err(x) => return (Err(x), BinaryOp { left: Box::new(l1), op, right, loc, t }),
    };
    let (r2, rn) = match *right {
        Expression::BinaryOp(rb) => if same_text(rb.op.as_str(), "=") {
            let (rr, rbn) = assign(rb, st, false);
            (rr, Expression::BinaryOp(rbn))
        } else {
            check(Expression::BinaryOp(rb), st)
        },
        other => check(other, st),
    };
    let t2 = match r2 {
        Ok(t2) => t2,
        Err(x) => return (Err(x), BinaryOp { left: Box::new(l1), op, right: Box::new(rn), loc, t }),
    };
    if !t1.type_eq(&t2) {
        let l = rn.get_loc().clone();
        return (
            Err(TypeError::MismatchedTypes { expected: t1, loc: l }),
            BinaryOp { left: Box::new(l1), op, right: Box::new(rn), loc, t },
        );
    }
    let ty = if leftmost {
        Type::Unit
    } else {
        t1
    };
    (Ok(ty), BinaryOp { left: Box::new(l1), op, right: Box::new(rn), loc, t })
}


fn node_if(
    cond: Expression,
    then_branch: Box<Expression>,
    else_branch: Option<Box<Expression>>,
    loc: Location,
    t: Type,
) -> (e: Expression)
    ensures
        e@ == Expression::If(If { cond: Box::new(cond), then_branch, else_branch, loc, t })@,
{
    Expression::If(If { cond: Box::new(cond), then_branch, else_branch, loc, t })
}

fn check_if(i: If, st: &mut SymTab<Type>) -> (r: (Result<Type, TypeError>, Expression))
    ensures
        checks_as(r, Expression::If(i)@, scopes_of(old(st)), scopes_of(final(st))),
        final(st).parent_scope() == old(st).parent_scope(),
        old(st).wf() ==> final(st).wf(),
    decreases size(Expression::If(i)@), 2int,
{
    let If { cond, then_branch, else_branch, loc, t } = i;
    let (r1, c1) = check(*cond, st);
    let tc = match r1 {
        Ok(tc) => tc,
        Err(x) => return (Err(x), node_if(c1, then_branch, else_branch, loc, t)),
    };
    if !tc.type_eq(&Type::Bool) {
        let l = c1.get_loc().clone();
        return (
            Err(TypeError::MismatchedTypes { expected: Type::Bool, loc: l }),
            node_if(c1, then_branch, else_branch, loc, t),
        );
    }
    let (r2, t2) = check(*then_branch, st);
    let tt = match r2 {
        Ok(tt) => tt,
        Err(x) => return (Err(x), node_if(c1, Box::new(t2), else_branch, loc, t)),
    };
    match else_branch {
        Some(eb) => {
            let (r3, e3) = check(*eb, st);
            let te = match r3 {
                Ok(te) => te,
                Err(x) => return (Err(x), node_if(c1, Box::new(t2), Some(Box::new(e3)), loc, t)),
            };
            if !tt.type_eq(&te) {
                let l = e3.get_loc().clone();
                (
                    Err(TypeError::MismatchedTypes { expected: Type::Bool, loc: l }),
                    node_if(c1, Box::new(t2), Some(Box::new(e3)), loc, t),
                )
            } else {
                let ty = tt.copy();
                (Ok(tt), node_if(c1, Box::new(t2), Some(Box::new(e3)), loc, ty))
            }
        },
        None => (Ok(Type::Unit), node_if(c1, Box::new(t2), None, loc, Type::Unit)),
    }
}

fn check_function_call(f: FunctionCall, st: &mut SymTab<Type>) -> (r: (Result<Type, TypeError>, Expression))
    ensures
        checks_as(r, Expression::FunctionCall(f)@, scopes_of(old(st)), scopes_of(final(st))),
        final(st).parent_scope() == old(st).parent_scope(),
        old(st).wf() ==> final(st).wf(),
    decreases size(Expression::FunctionCall(f)@), 2int,
{
    let FunctionCall { name, args, loc, t } = f;
    match lookup_type(st, name.name.as_str()) {
        None => {
            let n = name.name.clone();
            (Err(TypeError::UnknownFunction(n)), Expression::FunctionCall(FunctionCall { name, args, loc, t }))
        },
        Some(Type::FunType { args: expected, result }) => {
            let (r, args1) = check_seq(args, st);
            match r {
                Err(x) => (Err(x), Expression::FunctionCall(FunctionCall { name, args: args1, loc, t })),
                Ok(ts) => if fun_args_are_correct(&ts, &expected) {
                    let ty = *result;
                    let ty2 = ty.copy();
                    (Ok(ty2), Expression::FunctionCall(FunctionCall { name, args: args1, loc, t: ty }))
                } else {
                    let n = name.name.clone();
                    (
                        Err(TypeError::MismatchedArgTypes(n)),
                        Expression::FunctionCall(FunctionCall { name, args: args1, loc, t }),
                    )
                },
            }
        },
        Some(_) => {
            let n = name.name.clone();
            (Err(TypeError::NotAFunction(n)), Expression::FunctionCall(FunctionCall { name, args, loc, t }))
        },
    }
}

fn check_block(b: Block, st: &mut SymTab<Type>) -> (r: (Result<Type, TypeError>, Expression))
    ensures
        checks_as(r, Expression::Block(b)@, scopes_of(old(st)), scopes_of(final(st))),
        final(st).parent_scope() == old(st).parent_scope(),
        old(st).wf() ==> final(st).wf(),
    decreases size(Expression::Block(b)@), 2int,
{
    let ghost e = Expression::Block(b)@;
    let Block { statements, loc, t } = b;
    let ghost orig = exprs_value(statements@);
    let mut local = SymTab::new_with_parent(st);
    proof {
        st.lemma_chain();
        local.lemma_chain();
        assert(local.chain() =~= st.chain().push(Seq::<(String, Type)>::empty()));
        assert(bindings_env(Seq::<(String, Type)>::empty()) =~= Map::<Seq<char>, TypeV>::empty());
        assert(scopes_of(&local) =~= scopes_of(st).push(Map::empty()));
    }
    let (r, mut stmts1) = check_seq(statements, &mut local);
    match r {
        Err(x) => return (Err(x), Expression::Block(Block { statements: stmts1, loc, t })),
        Ok(_) => {},
    }
    if stmts1.len() == 0 {
        return (Ok(Type::Unit), Expression::Block(Block { statements: stmts1, loc, t: Type::Unit }));
    }
    let ghost before = stmts1@;
    proof {
        lemma_exprs_value(before);
        lemma_sizes(exprs_value(before));
        assert(exprs_value(before).last() == before.last()@);
    }
    let last = stmts1.pop().unwrap();
    let (r2, last2) = check(last, &mut local);
    stmts1.push(last2);
    proof {
        lemma_exprs_value(stmts1@);
        assert(exprs_value(stmts1@) =~= exprs_value(before).update(before.len() - 1, last2@));
        lemma_sizes_update(exprs_value(before), before.len() - 1, last2@);
    }
    match r2 {
        Err(x) => (Err(x), Expression::Block(Block { statements: stmts1, loc, t })),
        Ok(tl) => {
            let ty = tl.copy();
            (Ok(tl), Expression::Block(Block { statements: stmts1, loc, t: ty }))
        },
    }
}

pub proof fn lemma_sizes_update(s: Seq<ExprV>, i: int, x: ExprV)
    requires
        0 <= i < s.len(),
        size(x) == size(s[i]),
    ensures
        sizes(s.update(i, x)) == sizes(s),
    decreases s.len(),
{
    let u = s.update(i, x);
    if i > 0 {
        lemma_sizes_update(s.subrange(1, s.len() as int), i - 1, x);
        assert(u.subrange(1, u.len() as int) =~= s.subrange(1, s.len() as int).update(i - 1, x));
    } else {
        assert(u.subrange(1, u.len() as int) =~= s.subrange(1, s.len() as int));
    }
}

fn check_var_declaration(v: VarDeclaration, st: &mut SymTab<Type>) -> (r: (Result<Type, TypeError>, Expression))
    ensures
        checks_as(r, Expression::VarDeclaration(v)@, scopes_of(old(st)), scopes_of(final(st))),
        final(st).parent_scope() == old(st).parent_scope(),
        old(st).wf() ==> final(st).wf(),
    decreases size(Expression::VarDeclaration(v)@), 2int,
{
    let VarDeclaration { var, declared_type, initializer, loc, t } = v;
    let (r, i1) = check(*initializer, st);
    let ti = match r {
        Ok(ti) => ti,
        Err(x) => return (
            Err(x),
            Expression::VarDeclaration(VarDeclaration { var, declared_type, initializer: Box::new(i1), loc, t }),
        ),
    };
    match &declared_type {
        Some(d) => if !d.type_eq(&ti) {
            let dd = d.copy();
            return (
                Err(TypeError::DeclaredTypeMismatch { declared: dd, found: ti }),
                Expression::VarDeclaration(VarDeclaration { var, declared_type, initializer: Box::new(i1), loc, t }),
            );
        },
        None => {},
    }
    bind(st, var.name.as_str(), ti);
    (
        Ok(Type::Unit),
        Expression::VarDeclaration(VarDeclaration { var, declared_type, initializer: Box::new(i1), loc, t: Type::Unit }),
    )
}

fn check_unary_op(u: UnaryOp, st: &mut SymTab<Type>) -> (r: (Result<Type, TypeError>, Expression))
    ensures
        checks_as(r, Expression::UnaryOp(u)@, scopes_of(old(st)), scopes_of(final(st))),
        final(st).parent_scope() == old(st).parent_scope(),
        old(st).wf() ==> final(st).wf(),
    decreases size(Expression::UnaryOp(u)@), 2int,
{
    let UnaryOp { op, right, loc, t } = u;
    let mut name = "unary_".to_owned();
    name.append(op.as_str());
    proof {
        reveal_strlit("unary_");
    }
    match lookup_type(st, name.as_str()) {
        Some(Type::FunType { args, result }) => {
            let (r, r1) = check(*right, st);
            let t1 = match r {
                Ok(t1) => t1,
                Err(x) => return (Err(x), Expression::UnaryOp(UnaryOp { op, right: Box::new(r1), loc, t })),
            };
            let mut actual: Vec<Type> = Vec::new();
            actual.push(t1);
            proof {
                assert(actual@.map_values(|t: Type| t@) =~= seq![actual@[0]@]);
            }
            if fun_args_are_correct(&actual, &args) {
                let ty = *result;
                let ty2 = ty.copy();
                (Ok(ty2), Expression::UnaryOp(UnaryOp { op, right: Box::new(r1), loc, t: ty }))
            } else {
                (Err(TypeError::MismatchedArgTypes(name)), Expression::UnaryOp(UnaryOp { op, right: Box::new(r1), loc, t }))
            }
        },
        _ => {
            let o = op.clone();
            let l = loc.clone();
            (Err(TypeError::InvalidOperator { op: o, loc: l }), Expression::UnaryOp(UnaryOp { op, right, loc, t }))
        },
    }
}

/// Checks `stmts` in order (see [`spec_check_seq`]).
fn check_seq(stmts: Vec<Expression>, st: &mut SymTab<Type>) -> (r: (Result<Vec<Type>, TypeError>, Vec<Expression>))
    ensures
        ({
            let s = spec_check_seq(exprs_value(stmts@), scopes_of(old(st)));
            &&& results_value(r.0) == s.0
            &&& exprs_value(r.1@) == s.1
            &&& scopes_of(final(st)) == s.2
            &&& sizes(exprs_value(r.1@)) == sizes(exprs_value(stmts@))
        }),
        final(st).parent_scope() == old(st).parent_scope(),
        old(st).wf() ==> final(st).wf(),
    decreases sizes(exprs_value(stmts@)), 4int,
{
    let mut stmts = stmts;
    let ghost sv = exprs_value(stmts@);
    proof {
        lemma_exprs_value(stmts@);
    }
    if stmts.len() == 0 {
        let empty: Vec<Type> = Vec::new();
        proof {
            assert(exprs_value(stmts@) =~= Seq::<ExprV>::empty());
            assert(empty@.map_values(|t: Type| t@) =~= Seq::<TypeV>::empty());
        }
        return (Ok(empty), stmts);
    }
    let first = stmts.remove(0);
    proof {
        lemma_exprs_value(stmts@);
        assert(exprs_value(stmts@) =~= sv.subrange(1, sv.len() as int));
        lemma_size_positive(first@);
    }
    let (r, x) = check(first, st);
    match r {
        Err(err) => {
            stmts.insert(0, x);
            proof {
                lemma_exprs_value(stmts@);
                assert(exprs_value(stmts@) =~= seq![x@] + sv.subrange(1, sv.len() as int));
                let nv = exprs_value(stmts@);
                assert(nv.subrange(1, nv.len() as int) =~= sv.subrange(1, sv.len() as int));
                assert(nv[0] == x@);
            }
            (Err(err), stmts)
        },
        Ok(t) => {
            let (rr, mut xs) = check_seq(stmts, st);
            let ghost xs0 = xs@;
            xs.insert(0, x);
            proof {
                lemma_exprs_value(xs0);
                lemma_exprs_value(xs@);
                assert(exprs_value(xs@) =~= seq![x@] + exprs_value(xs0));
                assert(exprs_value(xs@).subrange(1, xs@.len() as int) =~= exprs_value(xs0));
            }
            match rr {
                Err(err) => (Err(err), xs),
                Ok(ts) => {
                    let mut ts = ts;
                    let ghost ts0 = ts@;
                    ts.insert(0, t);
                    proof {
                        assert(ts@.map_values(|t: Type| t@) =~= seq![t@] + ts0.map_values(|t: Type| t@));
                    }
                    (Ok(ts), xs)
                },
            }
        },
    }
}

/// Type-checks `node` in the scope `symtab` (see [`spec_check`]): returns its
/// type or why it has none, fills in the type slots of the tree as far as
/// checking got, and binds the variables that `node` declares outside blocks in
/// `symtab`'s own scope (the innermost of its scopes); declarations inside a
/// block stay in that block.
pub fn typecheck(node: &mut Expression, symtab: &mut SymTab<Type>) -> (r: Result<Type, TypeError>)
    ensures
        result_value(r) == spec_check(old(node)@, scopes_of(old(symtab))).0,
        final(node)@ == spec_check(old(node)@, scopes_of(old(symtab))).1,
        scopes_of(final(symtab)) == spec_check(old(node)@, scopes_of(old(symtab))).2,
        bindings_env(final(symtab).bindings()) == spec_check(old(node)@, scopes_of(old(symtab))).2.last(),
        final(symtab).parent_scope() == old(symtab).parent_scope(),
        old(symtab).wf() ==> final(symtab).wf(),
{
    let mut owned = Expression::Literal(Literal::none(Location::special()));
    std::mem::swap(node, &mut owned);
    let (r, e) = check(owned, symtab);
    *node = e;
    proof {
        lemma_scopes_of(symtab);
    }
    r
}


/// The function type from `args` to `result`.
pub open spec fn fun_type(args: Seq<TypeV>, result: TypeV) -> TypeV {
    TypeV::Fun(args, Box::new(result))
}

/// `env` with the built-in functions and operators bound: printing, integer
/// arithmetic and comparison, boolean `and`/`or`, and the unary `not` and `-`.
pub open spec fn globals_env(env: Env) -> Env {
    let int2 = seq![TypeV::Int, TypeV::Int];
    let bool2 = seq![TypeV::Bool, TypeV::Bool];
    env.insert("print_int"@, fun_type(seq![TypeV::Int], TypeV::Unit))
        .insert("print_bool"@, fun_type(seq![TypeV::Bool], TypeV::Unit))
        .insert("+"@, fun_type(int2, TypeV::Int))
        .insert("-"@, fun_type(int2, TypeV::Int))
        .insert("/"@, fun_type(int2, TypeV::Int))
        .insert("%"@, fun_type(int2, TypeV::Int))
        .insert("*"@, fun_type(int2, TypeV::Int))
        .insert(">"@, fun_type(int2, TypeV::Bool))
        .insert("<"@, fun_type(int2, TypeV::Bool))
        .insert("<="@, fun_type(int2, TypeV::Bool))
        .insert(">="@, fun_type(int2, TypeV::Bool))
        .insert("and"@, fun_type(bool2, TypeV::Bool))
        .insert("or"@, fun_type(bool2, TypeV::Bool))
        .insert("unary_not"@, fun_type(seq![TypeV::Bool], TypeV::Bool))
        .insert("unary_-"@, fun_type(seq![TypeV::Int], TypeV::Int))
}

fn fun1(a: Type, result: Type) -> (t: Type)
    ensures
        t@ == fun_type(seq![a@], result@),
{
    let mut args: Vec<Box<Type>> = Vec::new();
    args.push(Box::new(a));
    proof {
        lemma_types_value(args@);
        assert(types_value(args@) =~= seq![a@]);
    }
    Type::FunType { args, result: Box::new(result) }
}

fn fun2(a: Type, b: Type, result: Type) -> (t: Type)
    ensures
        t@ == fun_type(seq![a@, b@], result@),
{
    let mut args: Vec<Box<Type>> = Vec::new();
    args.push(Box::new(a));
    args.push(Box::new(b));
    proof {
        lemma_types_value(args@);
        assert(types_value(args@) =~= seq![a@, b@]);
    }
    Type::FunType { args, result: Box::new(result) }
}

/// Two scopes with the same enclosing scope differ only in their own bindings.
proof fn lemma_same_parent_scopes<'a>(a: &SymTab<'a, Type>, b: &SymTab<'a, Type>)
    requires
        a.parent_scope() == b.parent_scope(),
    ensures
        scopes_of(b) == with_top(scopes_of(a), bindings_env(b.bindings())),
{
    lemma_scopes_of(a);
    lemma_scopes_of(b);
    let (ca, cb) = (a.chain(), b.chain());
    assert(cb.drop_last() =~= ca.drop_last()) by {
        match a.parent_scope() {
            Some(p) => {
                assert(ca.drop_last() =~= p.chain());
                assert(cb.drop_last() =~= p.chain());
            },
            None => {},
        }
    }
    assert(scopes_of(b) =~= with_top(scopes_of(a), bindings_env(b.bindings()))) by {
        assert forall|i: int| 0 <= i < cb.len() - 1 implies #[trigger] cb[i] == ca[i] by {
            assert(cb[i] == cb.drop_last()[i]);
            assert(ca[i] == ca.drop_last()[i]);
        }
    }
}

fn bind(st: &mut SymTab<Type>, name: &str, t: Type)
    ensures
        forall|n: Seq<char>| #[trigger] local_lookup(final(st).bindings(), n) == if n == name@ {
            Some(t)
        } else {
            local_lookup(old(st).bindings(), n)
        },
        scopes_of(final(st)) == declare(scopes_of(old(st)), name@, t@),
        final(st).parent_scope() == old(st).parent_scope(),
        old(st).wf() ==> final(st).wf(),
{
    let ghost st0 = *st;
    let ghost tv = t@;
    st.insert(name, t);
    proof {
        lemma_scopes_of(&st0);
        lemma_same_parent_scopes(&st0, st);
        assert(bindings_env(st.bindings()) =~= bindings_env(st0.bindings()).insert(name@, tv));
    }
}

/// Binds the built-in functions and operators in `st`'s own scope (see
/// [`globals_env`]); nothing else changes.
pub fn init_globals(st: &mut SymTab<Type>)
    ensures
        bindings_env(final(st).bindings()) == globals_env(bindings_env(old(st).bindings())),
        scopes_of(final(st)) == with_top(scopes_of(old(st)), globals_env(scopes_of(old(st)).last())),
        final(st).parent_scope() == old(st).parent_scope(),
        old(st).wf() ==> final(st).wf(),
        lookup_scopes(scopes_of(final(st)), "print_int"@) == Some(TypeV::Fun(seq![TypeV::Int], Box::new(TypeV::Unit))),
        lookup_scopes(scopes_of(final(st)), "print_bool"@) == Some(TypeV::Fun(seq![TypeV::Bool], Box::new(TypeV::Unit))),
        lookup_scopes(scopes_of(final(st)), "+"@) == Some(TypeV::Fun(seq![TypeV::Int, TypeV::Int], Box::new(TypeV::Int))),
        lookup_scopes(scopes_of(final(st)), "-"@) == Some(TypeV::Fun(seq![TypeV::Int, TypeV::Int], Box::new(TypeV::Int))),
        lookup_scopes(scopes_of(final(st)), "/"@) == Some(TypeV::Fun(seq![TypeV::Int, TypeV::Int], Box::new(TypeV::Int))),
        lookup_scopes(scopes_of(final(st)), "%"@) == Some(TypeV::Fun(seq![TypeV::Int, TypeV::Int], Box::new(TypeV::Int))),
        lookup_scopes(scopes_of(final(st)), "*"@) == Some(TypeV::Fun(seq![TypeV::Int, TypeV::Int], Box::new(TypeV::Int))),
        lookup_scopes(scopes_of(final(st)), "<"@) == Some(TypeV::Fun(seq![TypeV::Int, TypeV::Int], Box::new(TypeV::Bool))),
        lookup_scopes(scopes_of(final(st)), "<="@) == Some(TypeV::Fun(seq![TypeV::Int, TypeV::Int], Box::new(TypeV::Bool))),
        lookup_scopes(scopes_of(final(st)), ">"@) == Some(TypeV::Fun(seq![TypeV::Int, TypeV::Int], Box::new(TypeV::Bool))),
        lookup_scopes(scopes_of(final(st)), ">="@) == Some(TypeV::Fun(seq![TypeV::Int, TypeV::Int], Box::new(TypeV::Bool))),
        lookup_scopes(scopes_of(final(st)), "and"@) == Some(TypeV::Fun(seq![TypeV::Bool, TypeV::Bool], Box::new(TypeV::Bool))),
        lookup_scopes(scopes_of(final(st)), "or"@) == Some(TypeV::Fun(seq![TypeV::Bool, TypeV::Bool], Box::new(TypeV::Bool))),
        lookup_scopes(scopes_of(final(st)), "unary_not"@) == Some(TypeV::Fun(seq![TypeV::Bool], Box::new(TypeV::Bool))),
        lookup_scopes(scopes_of(final(st)), "unary_-"@) == Some(TypeV::Fun(seq![TypeV::Int], Box::new(TypeV::Int))),
{
    let ghost st0 = *st;
    bind(st, "print_int", fun1(Type::Int, Type::Unit));
    bind(st, "print_bool", fun1(Type::Bool, Type::Unit));
    bind(st, "+", fun2(Type::Int, Type::Int, Type::Int));
    bind(st, "-", fun2(Type::Int, Type::Int, Type::Int));
    bind(st, "/", fun2(Type::Int, Type::Int, Type::Int));
    bind(st, "%", fun2(Type::Int, Type::Int, Type::Int));
    bind(st, "*", fun2(Type::Int, Type::Int, Type::Int));
    bind(st, ">", fun2(Type::Int, Type::Int, Type::Bool));
    bind(st, "<", fun2(Type::Int, Type::Int, Type::Bool));
    bind(st, "<=", fun2(Type::Int, Type::Int, Type::Bool));
    bind(st, ">=", fun2(Type::Int, Type::Int, Type::Bool));
    bind(st, "and", fun2(Type::Bool, Type::Bool, Type::Bool));
    bind(st, "or", fun2(Type::Bool, Type::Bool, Type::Bool));
    bind(st, "unary_not", fun1(Type::Bool, Type::Bool));
    bind(st, "unary_-", fun1(Type::Int, Type::Int));
    proof {
        lemma_scopes_of(&st0);
        lemma_same_parent_scopes(&st0, st);
        assert(bindings_env(st.bindings()) =~= globals_env(bindings_env(st0.bindings())));
        let s0 = scopes_of(&st0);
        law_builtin_types(s0.last());
        assert(scopes_of(st).last() == globals_env(s0.last()));
        assert(scopes_of(st).len() > 0);
    }
}

/// The built-in functions and operators and their types: the arithmetic
/// operators `+ - * / %` take two integers to an integer, the comparisons
/// `< <= > >=` two integers to a boolean, `and` and `or` two booleans to a
/// boolean; `print_int` and `print_bool` print an integer or a boolean; the
/// unary `not` and `-` keep a boolean or an integer.
pub proof fn law_builtin_types(env: Env)
    ensures
        globals_env(env).contains_key("print_int"@) && globals_env(env)["print_int"@] == TypeV::Fun(seq![TypeV::Int], Box::new(TypeV::Unit)),
        globals_env(env).contains_key("print_bool"@) && globals_env(env)["print_bool"@] == TypeV::Fun(seq![TypeV::Bool], Box::new(TypeV::Unit)),
        globals_env(env).contains_key("+"@) && globals_env(env)["+"@] == TypeV::Fun(seq![TypeV::Int, TypeV::Int], Box::new(TypeV::Int)),
        globals_env(env).contains_key("-"@) && globals_env(env)["-"@] == TypeV::Fun(seq![TypeV::Int, TypeV::Int], Box::new(TypeV::Int)),
        globals_env(env).contains_key("/"@) && globals_env(env)["/"@] == TypeV::Fun(seq![TypeV::Int, TypeV::Int], Box::new(TypeV::Int)),
        globals_env(env).contains_key("%"@) && globals_env(env)["%"@] == TypeV::Fun(seq![TypeV::Int, TypeV::Int], Box::new(TypeV::Int)),
        globals_env(env).contains_key("*"@) && globals_env(env)["*"@] == TypeV::Fun(seq![TypeV::Int, TypeV::Int], Box::new(TypeV::Int)),
        globals_env(env).contains_key("<"@) && globals_env(env)["<"@] == TypeV::Fun(seq![TypeV::Int, TypeV::Int], Box::new(TypeV::Bool)),
        globals_env(env).contains_key("<="@) && globals_env(env)["<="@] == TypeV::Fun(seq![TypeV::Int, TypeV::Int], Box::new(TypeV::Bool)),
        globals_env(env).contains_key(">"@) && globals_env(env)[">"@] == TypeV::Fun(seq![TypeV::Int, TypeV::Int], Box::new(TypeV::Bool)),
        globals_env(env).contains_key(">="@) && globals_env(env)[">="@] == TypeV::Fun(seq![TypeV::Int, TypeV::Int], Box::new(TypeV::Bool)),
        globals_env(env).contains_key("and"@) && globals_env(env)["and"@] == TypeV::Fun(seq![TypeV::Bool, TypeV::Bool], Box::new(TypeV::Bool)),
        globals_env(env).contains_key("or"@) && globals_env(env)["or"@] == TypeV::Fun(seq![TypeV::Bool, TypeV::Bool], Box::new(TypeV::Bool)),
        globals_env(env).contains_key("unary_not"@) && globals_env(env)["unary_not"@] == TypeV::Fun(seq![TypeV::Bool], Box::new(TypeV::Bool)),
        globals_env(env).contains_key("unary_-"@) && globals_env(env)["unary_-"@] == TypeV::Fun(seq![TypeV::Int], Box::new(TypeV::Int)),
{
    reveal_strlit("print_int");
    reveal_strlit("print_bool");
    reveal_strlit("+");
    reveal_strlit("-");
    reveal_strlit("/");
    reveal_strlit("%");
    reveal_strlit("*");
    reveal_strlit("<");
    reveal_strlit("<=");
    reveal_strlit(">");
    reveal_strlit(">=");
    reveal_strlit("and");
    reveal_strlit("or");
    reveal_strlit("unary_not");
    reveal_strlit("unary_-");
    assert("print_int"@ != "print_bool"@) by { assert("print_int"@.len() != "print_bool"@.len()); }
    assert("print_int"@ != "+"@) by { assert("print_int"@.len() != "+"@.len()); }
    assert("print_int"@ != "-"@) by { assert("print_int"@.len() != "-"@.len()); }
    assert("print_int"@ != "/"@) by { assert("print_int"@.len() != "/"@.len()); }
    assert("print_int"@ != "%"@) by { assert("print_int"@.len() != "%"@.len()); }
    assert("print_int"@ != "*"@) by { assert("print_int"@.len() != "*"@.len()); }
    assert("print_int"@ != ">"@) by { assert("print_int"@.len() != ">"@.len()); }
    assert("print_int"@ != "<"@) by { assert("print_int"@.len() != "<"@.len()); }
    assert("print_int"@ != "<="@) by { assert("print_int"@.len() != "<="@.len()); }
    assert("print_int"@ != ">="@) by { assert("print_int"@.len() != ">="@.len()); }
    assert("print_int"@ != "and"@) by { assert("print_int"@.len() != "and"@.len()); }
    assert("print_int"@ != "or"@) by { assert("print_int"@.len() != "or"@.len()); }
    assert("print_int"@ != "unary_not"@) by { assert("print_int"@[0] != "unary_not"@[0]); }
    assert("print_int"@ != "unary_-"@) by { assert("print_int"@.len() != "unary_-"@.len()); }
    assert("print_bool"@ != "+"@) by { assert("print_bool"@.len() != "+"@.len()); }
    assert("print_bool"@ != "-"@) by { assert("print_bool"@.len() != "-"@.len()); }
    assert("print_bool"@ != "/"@) by { assert("print_bool"@.len() != "/"@.len()); }
    assert("print_bool"@ != "%"@) by { assert("print_bool"@.len() != "%"@.len()); }
    assert("print_bool"@ != "*"@) by { assert("print_bool"@.len() != "*"@.len()); }
    assert("print_bool"@ != ">"@) by { assert("print_bool"@.len() != ">"@.len()); }
    assert("print_bool"@ != "<"@) by { assert("print_bool"@.len() != "<"@.len()); }
    assert("print_bool"@ != "<="@) by { assert("print_bool"@.len() != "<="@.len()); }
    assert("print_bool"@ != ">="@) by { assert("print_bool"@.len() != ">="@.len()); }
    assert("print_bool"@ != "and"@) by { assert("print_bool"@.len() != "and"@.len()); }
    assert("print_bool"@ != "or"@) by { assert("print_bool"@.len() != "or"@.len()); }
    assert("print_bool"@ != "unary_not"@) by { assert("print_bool"@.len() != "unary_not"@.len()); }
    assert("print_bool"@ != "unary_-"@) by { assert("print_bool"@.len() != "unary_-"@.len()); }
    assert("+"@ != "-"@) by { assert("+"@[0] != "-"@[0]); }
    assert("+"@ != "/"@) by { assert("+"@[0] != "/"@[0]); }
    assert("+"@ != "%"@) by { assert("+"@[0] != "%"@[0]); }
    assert("+"@ != "*"@) by { assert("+"@[0] != "*"@[0]); }
    assert("+"@ != ">"@) by { assert("+"@[0] != ">"@[0]); }
    assert("+"@ != "<"@) by { assert("+"@[0] != "<"@[0]); }
    assert("+"@ != "<="@) by { assert("+"@.len() != "<="@.len()); }
    assert("+"@ != ">="@) by { assert("+"@.len() != ">="@.len()); }
    assert("+"@ != "and"@) by { assert("+"@.len() != "and"@.len()); }
    assert("+"@ != "or"@) by { assert("+"@.len() != "or"@.len()); }
    assert("+"@ != "unary_not"@) by { assert("+"@.len() != "unary_not"@.len()); }
    assert("+"@ != "unary_-"@) by { assert("+"@.len() != "unary_-"@.len()); }
    assert("-"@ != "/"@) by { assert("-"@[0] != "/"@[0]); }
    assert("-"@ != "%"@) by { assert("-"@[0] != "%"@[0]); }
    assert("-"@ != "*"@) by { assert("-"@[0] != "*"@[0]); }
    assert("-"@ != ">"@) by { assert("-"@[0] != ">"@[0]); }
    assert("-"@ != "<"@) by { assert("-"@[0] != "<"@[0]); }
    assert("-"@ != "<="@) by { assert("-"@.len() != "<="@.len()); }
    assert("-"@ != ">="@) by { assert("-"@.len() != ">="@.len()); }
    assert("-"@ != "and"@) by { assert("-"@.len() != "and"@.len()); }
    assert("-"@ != "or"@) by { assert("-"@.len() != "or"@.len()); }
    assert("-"@ != "unary_not"@) by { assert("-"@.len() != "unary_not"@.len()); }
    assert("-"@ != "unary_-"@) by { assert("-"@.len() != "unary_-"@.len()); }
    assert("/"@ != "%"@) by { assert("/"@[0] != "%"@[0]); }
    assert("/"@ != "*"@) by { assert("/"@[0] != "*"@[0]); }
    assert("/"@ != ">"@) by { assert("/"@[0] != ">"@[0]); }
    assert("/"@ != "<"@) by { assert("/"@[0] != "<"@[0]); }
    assert("/"@ != "<="@) by { assert("/"@.len() != "<="@.len()); }
    assert("/"@ != ">="@) by { assert("/"@.len() != ">="@.len()); }
    assert("/"@ != "and"@) by { assert("/"@.len() != "and"@.len()); }
    assert("/"@ != "or"@) by { assert("/"@.len() != "or"@.len()); }
    assert("/"@ != "unary_not"@) by { assert("/"@.len() != "unary_not"@.len()); }
    assert("/"@ != "unary_-"@) by { assert("/"@.len() != "unary_-"@.len()); }
    assert("%"@ != "*"@) by { assert("%"@[0] != "*"@[0]); }
    assert("%"@ != ">"@) by { assert("%"@[0] != ">"@[0]); }
    assert("%"@ != "<"@) by { assert("%"@[0] != "<"@[0]); }
    assert("%"@ != "<="@) by { assert("%"@.len() != "<="@.len()); }
    assert("%"@ != ">="@) by { assert("%"@.len() != ">="@.len()); }
    assert("%"@ != "and"@) by { assert("%"@.len() != "and"@.len()); }
    assert("%"@ != "or"@) by { assert("%"@.len() != "or"@.len()); }
    assert("%"@ != "unary_not"@) by { assert("%"@.len() != "unary_not"@.len()); }
    assert("%"@ != "unary_-"@) by { assert("%"@.len() != "unary_-"@.len()); }
    assert("*"@ != ">"@) by { assert("*"@[0] != ">"@[0]); }
    assert("*"@ != "<"@) by { assert("*"@[0] != "<"@[0]); }
    assert("*"@ != "<="@) by { assert("*"@.len() != "<="@.len()); }
    assert("*"@ != ">="@) by { assert("*"@.len() != ">="@.len()); }
    assert("*"@ != "and"@) by { assert("*"@.len() != "and"@.len()); }
    assert("*"@ != "or"@) by { assert("*"@.len() != "or"@.len()); }
    assert("*"@ != "unary_not"@) by { assert("*"@.len() != "unary_not"@.len()); }
    assert("*"@ != "unary_-"@) by { assert("*"@.len() != "unary_-"@.len()); }
    assert(">"@ != "<"@) by { assert(">"@[0] != "<"@[0]); }
    assert(">"@ != "<="@) by { assert(">"@.len() != "<="@.len()); }
    assert(">"@ != ">="@) by { assert(">"@.len() != ">="@.len()); }
    assert(">"@ != "and"@) by { assert(">"@.len() != "and"@.len()); }
    assert(">"@ != "or"@) by { assert(">"@.len() != "or"@.len()); }
    assert(">"@ != "unary_not"@) by { assert(">"@.len() != "unary_not"@.len()); }
    assert(">"@ != "unary_-"@) by { assert(">"@.len() != "unary_-"@.len()); }
    assert("<"@ != "<="@) by { assert("<"@.len() != "<="@.len()); }
    assert("<"@ != ">="@) by { assert("<"@.len() != ">="@.len()); }
    assert("<"@ != "and"@) by { assert("<"@.len() != "and"@.len()); }
    assert("<"@ != "or"@) by { assert("<"@.len() != "or"@.len()); }
    assert("<"@ != "unary_not"@) by { assert("<"@.len() != "unary_not"@.len()); }
    assert("<"@ != "unary_-"@) by { assert("<"@.len() != "unary_-"@.len()); }
    assert("<="@ != ">="@) by { assert("<="@[0] != ">="@[0]); }
    assert("<="@ != "and"@) by { assert("<="@.len() != "and"@.len()); }
    assert("<="@ != "or"@) by { assert("<="@[0] != "or"@[0]); }
    assert("<="@ != "unary_not"@) by { assert("<="@.len() != "unary_not"@.len()); }
    assert("<="@ != "unary_-"@) by { assert("<="@.len() != "unary_-"@.len()); }
    assert(">="@ != "and"@) by { assert(">="@.len() != "and"@.len()); }
    assert(">="@ != "or"@) by { assert(">="@[0] != "or"@[0]); }
    assert(">="@ != "unary_not"@) by { assert(">="@.len() != "unary_not"@.len()); }
    assert(">="@ != "unary_-"@) by { assert(">="@.len() != "unary_-"@.len()); }
    assert("and"@ != "or"@) by { assert("and"@.len() != "or"@.len()); }
    assert("and"@ != "unary_not"@) by { assert("and"@.len() != "unary_not"@.len()); }
    assert("and"@ != "unary_-"@) by { assert("and"@.len() != "unary_-"@.len()); }
    assert("or"@ != "unary_not"@) by { assert("or"@.len() != "unary_not"@.len()); }
    assert("or"@ != "unary_-"@) by { assert("or"@.len() != "unary_-"@.len()); }
    assert("unary_not"@ != "unary_-"@) by { assert("unary_not"@.len() != "unary_-"@.len()); }
}


/// A successful check records its type in the checked tree: the tree's type
/// slot holds the type returned (a `while` has no type slot to fill).
pub proof fn law_checked_type_slot(e: ExprV, env: Scopes)
    ensures
        spec_check(e, env).0 matches Ok(t) ==> (e is While || spec_check(e, env).1.ty() == t),
{
    if let ExprV::BinaryOp { left, op, right, loc, t } = e {
        let (r1, l1, env1) = spec_check(*left, env);
        if let Ok(t1) = r1 {
            let (r2, rn, env2) = spec_check(*right, env1);
            let n2 = ExprV::BinaryOp { left: Box::new(l1), op, right: Box::new(rn), loc, t };
            if r2 is Ok && lookup_scopes(env2, op).is_none() && op == "="@ && l1 is Identifier && size(n2) == size(e) {
                lemma_assign_type_slot(n2.with_type(TypeV::Unit), env2);
            }
        }
    }
}

proof fn lemma_assign_type_slot(node: ExprV, env: Scopes)
    requires
        node is BinaryOp,
        node.ty() == TypeV::Unit,
    ensures
        spec_assign(node, env, true).0 matches Ok(t) ==> spec_assign(node, env, true).1.ty() == t,
{
}

/// Checking only fills in types: the checked tree is the input tree but for
/// its type slots, whether checking succeeds or not.
pub proof fn law_check_keeps_tree(e: ExprV, env: Scopes)
    ensures
        strip(spec_check(e, env).1) == strip(e),
    decreases size(e), 1int,
{
    match e {
        ExprV::BinaryOp { left, op, right, loc, t } => {
            law_check_keeps_tree(*left, env);
            let (r1, l1, env1) = spec_check(*left, env);
            law_check_keeps_tree(*right, env1);
            let (r2, rn, env2) = spec_check(*right, env1);
            let n2 = ExprV::BinaryOp { left: Box::new(l1), op, right: Box::new(rn), loc, t };
            if r1 is Ok && r2 is Ok && size(n2) == size(e) {
                lemma_assign_keeps_tree(n2.with_type(TypeV::Unit), env2, true);
            }
        },
        ExprV::If { cond, then_branch, else_branch, .. } => {
            law_check_keeps_tree(*cond, env);
            let (_, _, env1) = spec_check(*cond, env);
            law_check_keeps_tree(*then_branch, env1);
            let (_, _, env2) = spec_check(*then_branch, env1);
            if let Some(eb) = else_branch {
                law_check_keeps_tree(*eb, env2);
            }
        },
        ExprV::FunctionCall { args, .. } => {
            lemma_check_seq_keeps_trees(args, env);
        },
        ExprV::Block { statements, loc, t } => {
            lemma_check_seq_keeps_trees(statements, env.push(Map::empty()));
            let (r, stmts1, inner) = spec_check_seq(statements, env.push(Map::empty()));
            if r is Ok && stmts1.len() > 0 && size(stmts1.last()) < size(e) {
                let n = stmts1.len() - 1;
                law_check_keeps_tree(stmts1.last(), inner);
                let last = spec_check(stmts1.last(), inner).1;
                let updated = stmts1.update(n, last);
                lemma_strips(stmts1);
                lemma_strips(updated);
                lemma_strips_eq(updated, stmts1);
            }
        },
        ExprV::VarDeclaration { initializer, .. } => {
            law_check_keeps_tree(*initializer, env);
        },
        ExprV::While { cond, .. } => {
            law_check_keeps_tree(*cond, env);
        },
        ExprV::UnaryOp { right, .. } => {
            law_check_keeps_tree(*right, env);
        },
        _ => {},
    }
}

proof fn lemma_assign_keeps_tree(node: ExprV, env: Scopes, leftmost: bool)
    ensures
        strip(spec_assign(node, env, leftmost).1) == strip(node),
    decreases size(node), 0int,
{
    if let ExprV::BinaryOp { left, op, right, loc, t } = node {
        law_check_keeps_tree(*left, env);
        let (r1, l1, env1) = spec_check(*left, env);
        if r1 is Ok {
            if (*right) matches ExprV::BinaryOp { op: rop, .. } && rop == "="@ {
                lemma_assign_keeps_tree(*right, env1, false);
            } else {
                law_check_keeps_tree(*right, env1);
            }
        }
    }
}

proof fn lemma_check_seq_keeps_trees(s: Seq<ExprV>, env: Scopes)
    ensures
        strips(spec_check_seq(s, env).1) == strips(s),
    decreases sizes(s), 2int,
{
    if s.len() > 0 {
        let rest = s.subrange(1, s.len() as int);
        lemma_size_positive(s[0]);
        law_check_keeps_tree(s[0], env);
        let (r, x, env1) = spec_check(s[0], env);
        lemma_check_seq_keeps_trees(rest, env1);
        let (_, xs, _) = spec_check_seq(rest, env1);
        lemma_strips(s);
        lemma_strips(rest);
        lemma_strips(xs);
        lemma_strips(seq![x] + rest);
        lemma_strips(seq![x] + xs);
        if r is Ok {
            assert forall|i: int| 0 <= i < s.len() implies #[trigger] strip((seq![x] + xs)[i]) == strip(
                s[i],
            ) by {
                if i > 0 {
                    assert(strips(xs)[i - 1] == strips(rest)[i - 1]);
                    assert(rest[i - 1] == s[i]);
                }
            }
            lemma_strips_eq(seq![x] + xs, s);
        } else {
            assert forall|i: int| 0 <= i < s.len() implies #[trigger] strip((seq![x] + rest)[i]) == strip(
                s[i],
            ) by {
                if i > 0 {
                    assert(rest[i - 1] == s[i]);
                }
            }
            lemma_strips_eq(seq![x] + rest, s);
        }
    }
}

/// A call `f(args)` checks exactly when `f` is bound to a function type whose
/// parameter types are the types of the arguments, checked in order; its type
/// is then the function's result type, recorded in its type slot. A name bound
/// to anything else, or to nothing, cannot be called.
pub proof fn law_function_call(name: IdentV, args: Seq<ExprV>, loc: LocV, t: TypeV, env: Scopes)
    ensures
        ({
            let r = spec_check(ExprV::FunctionCall { name, args, loc, t }, env);
            match lookup_scopes(env, name.name) {
                Some(TypeV::Fun(ps, res)) => {
                    &&& (r.0 is Ok <==> spec_check_seq(args, env).0 == Ok::<Seq<TypeV>, TErrV>(ps))
                    &&& (r.0 is Ok ==> r.0 == Ok::<TypeV, TErrV>(*res) && r.1.ty() == *res)
                },
                _ => r.0 is Err,
            }
        }),
{
}

/// An assignment whose left side is not a name is an error, unless checking
/// its two sides bound `=` itself as a function.
pub proof fn law_assignment_target(left: ExprV, right: ExprV, loc: LocV, t: TypeV, env: Scopes)
    requires
        !(left is Identifier),
    ensures
        ({
            let env1 = spec_check(left, env).2;
            let env2 = spec_check(right, env1).2;
            lookup_scopes(env2, "="@).is_none() ==> spec_check(
                ExprV::BinaryOp { left: Box::new(left), op: "="@, right: Box::new(right), loc, t },
                env,
            ).0 is Err
        }),
{
    law_check_keeps_tree(left, env);
    let (r1, l1, env1) = spec_check(left, env);
    assert(!(strip(left) is Identifier));
    assert(!(l1 is Identifier));
    let (r2, rn, env2) = spec_check(right, env1);
    let e = ExprV::BinaryOp { left: Box::new(left), op: "="@, right: Box::new(right), loc, t };
    reveal_strlit("=");
    reveal_strlit("==");
    reveal_strlit("!=");
    assert("="@ != "=="@ && "="@ != "!="@) by {
        assert("="@.len() == 1 && "=="@.len() == 2 && "!="@.len() == 2);
    }
    if r1 is Ok && r2 is Ok && lookup_scopes(env2, "="@).is_none() {
        let n2 = ExprV::BinaryOp { left: Box::new(l1), op: "="@, right: Box::new(rn), loc, t };
        assert(spec_check(e, env) == (Err::<TypeV, TErrV>(TErrV::AssignmentTarget { loc: l1.loc() }), n2, env2));
    }
}

/// Ignoring types keeps the number of nodes.
proof fn lemma_size_strip(e: ExprV)
    ensures
        size(strip(e)) == size(e),
    decreases e,
{
    match e {
        ExprV::BinaryOp { left, right, .. } => {
            lemma_size_strip(*left);
            lemma_size_strip(*right);
        },
        ExprV::If { cond, then_branch, else_branch, .. } => {
            lemma_size_strip(*cond);
            lemma_size_strip(*then_branch);
            if let Some(b) = else_branch {
                lemma_size_strip(*b);
            }
        },
        ExprV::FunctionCall { args, .. } => {
            lemma_sizes_strip(args);
        },
        ExprV::Block { statements, .. } => {
            lemma_sizes_strip(statements);
        },
        ExprV::VarDeclaration { initializer, .. } => {
            lemma_size_strip(*initializer);
        },
        ExprV::While { cond, body, .. } => {
            lemma_size_strip(*cond);
            lemma_size_strip(*body);
        },
        ExprV::UnaryOp { right, .. } => {
            lemma_size_strip(*right);
        },
        _ => {},
    }
}

proof fn lemma_sizes_strip(s: Seq<ExprV>)
    ensures
        sizes(strips(s)) == sizes(s),
    decreases s,
{
    if s.len() > 0 {
        let rest = s.subrange(1, s.len() as int);
        lemma_size_strip(s[0]);
        lemma_sizes_strip(rest);
        let st = strips(s);
        assert(st.subrange(1, st.len() as int) =~= strips(rest));
    }
}

/// Ignoring types keeps a tree's location, whether it is a name, and whether
/// it is an assignment.
proof fn lemma_strip_shape(x: ExprV)
    ensures
        strip(x).loc() == x.loc(),
        strip(x) is Identifier <==> x is Identifier,
        is_assignment(strip(x)) <==> is_assignment(x),
{
}

/// `x` is an assignment node (a binary `=`).
pub open spec fn is_assignment(x: ExprV) -> bool {
    x matches ExprV::BinaryOp { op, .. } && op == "="@
}

/// Checking reads no type slot: two trees that differ only in their type slots
/// check to the same outcome and leave the same scopes.
pub proof fn lemma_check_ignores_types(a: ExprV, b: ExprV, env: Scopes)
    requires
        strip(a) == strip(b),
    ensures
        spec_check(a, env).0 == spec_check(b, env).0,
        spec_check(a, env).2 == spec_check(b, env).2,
    decreases size(a), 1int,
{
    lemma_size_strip(a);
    lemma_size_strip(b);
    match a {
        ExprV::BinaryOp { left, op, right, loc, t } => match b {
            ExprV::BinaryOp { left: lb, right: rb, t: tb, .. } => {
                lemma_check_ignores_types(*left, *lb, env);
                let (r1, l1, env1) = spec_check(*left, env);
                let l1b = spec_check(*lb, env).1;
                lemma_check_ignores_types(*right, *rb, env1);
                let (r2, rn, env2) = spec_check(*right, env1);
                let rnb = spec_check(*rb, env1).1;
                law_check_keeps_tree(*left, env);
                law_check_keeps_tree(*lb, env);
                law_check_keeps_tree(*right, env1);
                law_check_keeps_tree(*rb, env1);
                lemma_strip_shape(l1);
                lemma_strip_shape(l1b);
                lemma_strip_shape(rn);
                lemma_strip_shape(rnb);
                law_check_keeps_size(a, env);
                law_check_keeps_size(b, env);
                if r1 is Ok && r2 is Ok {
                    let n2 = ExprV::BinaryOp { left: Box::new(l1), op, right: Box::new(rn), loc, t: TypeV::Unit };
                    let n2b = ExprV::BinaryOp { left: Box::new(l1b), op, right: Box::new(rnb), loc, t: TypeV::Unit };
                    lemma_assign_ignores_types(n2, n2b, env2, true);
                }
            },
            _ => {},
        },
        ExprV::If { cond, then_branch, else_branch, .. } => match b {
            ExprV::If { cond: cb, then_branch: tb, else_branch: eb, .. } => {
                lemma_check_ignores_types(*cond, *cb, env);
                let (_, c1, env1) = spec_check(*cond, env);
                law_check_keeps_tree(*cond, env);
                law_check_keeps_tree(*cb, env);
                lemma_strip_shape(c1);
                lemma_strip_shape(spec_check(*cb, env).1);
                lemma_check_ignores_types(*then_branch, *tb, env1);
                let env2 = spec_check(*then_branch, env1).2;
                if let Some(x) = else_branch {
                    let y = eb.unwrap();
                    lemma_check_ignores_types(*x, *y, env2);
                    law_check_keeps_tree(*x, env2);
                    law_check_keeps_tree(*y, env2);
                    lemma_strip_shape(spec_check(*x, env2).1);
                    lemma_strip_shape(spec_check(*y, env2).1);
                }
            },
            _ => {},
        },
        ExprV::FunctionCall { args, .. } => match b {
            ExprV::FunctionCall { args: ab, .. } => {
                lemma_check_seq_ignores_types(args, ab, env);
            },
            _ => {},
        },
        ExprV::Block { statements, .. } => match b {
            ExprV::Block { statements: sb, .. } => {
                let inner_env = env.push(Map::empty());
                lemma_check_seq_ignores_types(statements, sb, inner_env);
                let (r, stmts1, inner) = spec_check_seq(statements, inner_env);
                let stmts1b = spec_check_seq(sb, inner_env).1;
                law_check_keeps_size(a, env);
                law_check_keeps_size(b, env);
                lemma_check_seq_keeps_trees(statements, inner_env);
                lemma_check_seq_keeps_trees(sb, inner_env);
                lemma_strips(stmts1);
                lemma_strips(stmts1b);
                if r is Ok && stmts1.len() > 0 {
                    assert(strips(stmts1)[stmts1.len() - 1] == strips(stmts1b)[stmts1.len() - 1]);
                    lemma_check_ignores_types(stmts1.last(), stmts1b.last(), inner);
                }
            },
            _ => {},
        },
        ExprV::VarDeclaration { initializer, .. } => match b {
            ExprV::VarDeclaration { initializer: ib, .. } => {
                lemma_check_ignores_types(*initializer, *ib, env);
            },
            _ => {},
        },
        ExprV::While { cond, .. } => match b {
            ExprV::While { cond: cb, .. } => {
                lemma_check_ignores_types(*cond, *cb, env);
            },
            _ => {},
        },
        ExprV::UnaryOp { right, .. } => match b {
            ExprV::UnaryOp { right: rb, .. } => {
                lemma_check_ignores_types(*right, *rb, env);
            },
            _ => {},
        },
        _ => {},
    }
}

proof fn lemma_check_seq_ignores_types(s: Seq<ExprV>, s2: Seq<ExprV>, env: Scopes)
    requires
        strips(s) == strips(s2),
    ensures
        spec_check_seq(s, env).0 == spec_check_seq(s2, env).0,
        spec_check_seq(s, env).2 == spec_check_seq(s2, env).2,
    decreases sizes(s), 2int,
{
    lemma_strips(s);
    lemma_strips(s2);
    if s.len() > 0 {
        let rest = s.subrange(1, s.len() as int);
        let rest2 = s2.subrange(1, s2.len() as int);
        lemma_size_positive(s[0]);
        assert(s2.len() == s.len());
        assert(strip(s[0]) == strips(s)[0]);
        assert(strip(s2[0]) == strips(s2)[0]);
        lemma_check_ignores_types(s[0], s2[0], env);
        assert forall|i: int| 0 <= i < rest.len() implies #[trigger] strip(rest[i]) == strip(rest2[i]) by {
            assert(strip(s[i + 1]) == strips(s)[i + 1]);
            assert(strip(s2[i + 1]) == strips(s2)[i + 1]);
            assert(rest[i] == s[i + 1]);
            assert(rest2[i] == s2[i + 1]);
        }
        lemma_strips_eq(rest, rest2);
        lemma_check_seq_ignores_types(rest, rest2, spec_check(s[0], env).2);
    }
}

proof fn lemma_assign_ignores_types(a: ExprV, b: ExprV, env: Scopes, leftmost: bool)
    requires
        strip(a) == strip(b),
    ensures
        spec_assign(a, env, leftmost).0 == spec_assign(b, env, leftmost).0,
        spec_assign(a, env, leftmost).2 == spec_assign(b, env, leftmost).2,
    decreases size(a), 0int,
{
    match a {
        ExprV::BinaryOp { left, right, .. } => match b {
            ExprV::BinaryOp { left: lb, right: rb, .. } => {
                lemma_check_ignores_types(*left, *lb, env);
                let env1 = spec_check(*left, env).2;
                lemma_strip_shape(*right);
                lemma_strip_shape(*rb);
                if is_assignment(*right) {
                    lemma_assign_ignores_types(*right, *rb, env1, false);
                    lemma_assign_keeps_tree(*right, env1, false);
                    lemma_assign_keeps_tree(*rb, env1, false);
                    lemma_strip_shape(spec_assign(*right, env1, false).1);
                    lemma_strip_shape(spec_assign(*rb, env1, false).1);
                } else {
                    lemma_check_ignores_types(*right, *rb, env1);
                    law_check_keeps_tree(*right, env1);
                    law_check_keeps_tree(*rb, env1);
                    lemma_strip_shape(spec_check(*right, env1).1);
                    lemma_strip_shape(spec_check(*rb, env1).1);
                }
            },
            _ => {},
        },
        _ => {},
    }
}

/// `c` is an assignment chain `x0 = (x1 = (... = last))` whose targets are
/// the names `names` and whose last right side `last` is not an assignment.
pub open spec fn chain_of(c: ExprV, names: Seq<Seq<char>>) -> bool
    decreases names.len(),
{
    if names.len() == 0 {
        !is_assignment(c)
    } else {
        &&& c matches ExprV::BinaryOp { left, op, right, .. }
        &&& op == "="@
        &&& (*left) matches ExprV::Identifier { id }
        &&& id.name == names[0]
        &&& chain_of(*right, names.drop_first())
    }
}

/// The last right side of an assignment chain.
pub open spec fn chain_end(c: ExprV) -> ExprV
    decreases c,
{
    match c {
        ExprV::BinaryOp { op, right, .. } => if op == "="@ {
            chain_end(*right)
        } else {
            c
        },
        _ => c,
    }
}

/// Every target of a chain has the type `ty` in `env`, and its last right side
/// checks to `ty` there.
pub open spec fn chain_typed(c: ExprV, names: Seq<Seq<char>>, env: Scopes, ty: TypeV) -> bool {
    &&& spec_check(chain_end(c), env).0 == Ok::<TypeV, TErrV>(ty)
    &&& forall|i: int| 0 <= i < names.len() ==> #[trigger] lookup_scopes(env, names[i]) == Some(ty)
}

proof fn lemma_chain_strip(c: ExprV, c2: ExprV, names: Seq<Seq<char>>)
    requires
        chain_of(c, names),
        strip(c2) == strip(c),
    ensures
        chain_of(c2, names),
        strip(chain_end(c2)) == strip(chain_end(c)),
        size(c2) == size(c),
    decreases names.len(),
{
    lemma_size_strip(c);
    lemma_size_strip(c2);
    lemma_strip_shape(c);
    lemma_strip_shape(c2);
    if names.len() > 0 {
        if let ExprV::BinaryOp { left, op, right, .. } = c {
            match c2 {
                ExprV::BinaryOp { left: left2, op: op2, right: right2, .. } => {
                    assert(strip(*left2) == strip(*left));
                    assert(strip(*right2) == strip(*right));
                    lemma_strip_shape(*left);
                    lemma_strip_shape(*left2);
                    lemma_chain_strip(*right, *right2, names.drop_first());
                },
                _ => {},
            }
        }
    }
}

/// Checking a chain (again, as the right side of an assignment) whose last
/// right side leaves the scopes as they were, leaves them so too, and succeeds
/// exactly when the chain is typed.
proof fn lemma_assign_chain(c: ExprV, names: Seq<Seq<char>>, env: Scopes, leftmost: bool)
    requires
        chain_of(c, names),
        names.len() >= 1,
        spec_check(chain_end(c), env).2 == env,
    ensures
        spec_assign(c, env, leftmost).2 == env,
        spec_assign(c, env, leftmost).0 is Ok <==> exists|ty: TypeV| chain_typed(c, names, env, ty),
        spec_assign(c, env, leftmost).0 is Ok ==> spec_assign(c, env, leftmost).0 == Ok::<TypeV, TErrV>(
            if leftmost { TypeV::Unit } else { lookup_scopes(env, names[0]).unwrap() },
        ),
    decreases names.len(),
{
    reveal_strlit("=");
    if let ExprV::BinaryOp { left, op, right, loc, t } = c {
        let rest = names.drop_first();
        assert(chain_of(*right, rest));
        assert(chain_end(c) == chain_end(*right));
        let (r1, l1, env1) = spec_check(*left, env);
        assert(env1 == env);
        assert(r1 == match lookup_scopes(env, names[0]) {
            Some(t0) => Ok::<TypeV, TErrV>(t0),
            None => Err(TErrV::UnknownVariable(names[0])),
        });
        if names.len() >= 2 {
            lemma_assign_chain(*right, rest, env, false);
            if exists|ty: TypeV| chain_typed(*right, rest, env, ty) {
                let ty = choose|ty: TypeV| chain_typed(*right, rest, env, ty);
                assert(lookup_scopes(env, rest[0]) == Some(ty));
                if lookup_scopes(env, names[0]) == Some(ty) {
                    assert(chain_typed(c, names, env, ty)) by {
                        assert forall|i: int| 0 <= i < names.len() implies #[trigger] lookup_scopes(env, names[i]) == Some(ty) by {
                            if i > 0 {
                                assert(names[i] == rest[i - 1]);
                            }
                        }
                    }
                } else {
                    assert forall|ty2: TypeV| !chain_typed(c, names, env, ty2) by {
                        if chain_typed(c, names, env, ty2) {
                            assert(lookup_scopes(env, names[0]) == Some(ty2));
                            assert(lookup_scopes(env, names[1]) == Some(ty2));
                            assert(names[1] == rest[0]);
                            assert(chain_typed(*right, rest, env, ty2)) by {
                                assert forall|i: int| 0 <= i < rest.len() implies #[trigger] lookup_scopes(env, rest[i]) == Some(ty2) by {
                                    assert(rest[i] == names[i + 1]);
                                }
                            }
                        }
                    }
                }
            } else {
                assert forall|ty2: TypeV| !chain_typed(c, names, env, ty2) by {
                    if chain_typed(c, names, env, ty2) {
                        assert(chain_typed(*right, rest, env, ty2)) by {
                            assert forall|i: int| 0 <= i < rest.len() implies #[trigger] lookup_scopes(env, rest[i]) == Some(ty2) by {
                                assert(rest[i] == names[i + 1]);
                            }
                        }
                    }
                }
            }
        } else {
            assert(rest.len() == 0);
            assert(!is_assignment(*right));
            assert(chain_end(*right) == *right);
            let (r2, rn, env2) = spec_check(*right, env);
            assert(env2 == env);
            assert forall|ty2: TypeV| chain_typed(c, names, env, ty2) <==> (r2 == Ok::<TypeV, TErrV>(ty2)
                && lookup_scopes(env, names[0]) == Some(ty2)) by {
                if r2 == Ok::<TypeV, TErrV>(ty2) && lookup_scopes(env, names[0]) == Some(ty2) {
                    assert forall|i: int| 0 <= i < names.len() implies #[trigger] lookup_scopes(env, names[i]) == Some(ty2) by {
                        assert(i == 0);
                    }
                }
            }
            if let Ok(ty) = r2 {
                if lookup_scopes(env, names[0]) == Some(ty) {
                    assert(chain_typed(c, names, env, ty));
                }
            }
        }
    }
}

/// Chained assignment: `x0 = (x1 = (... = last))`, where `=` is not bound as a
/// function and checking `last` leaves the scopes as they were, checks exactly
/// when every target has one common type and `last` checks to that type, and
/// then has type `Unit`; the scopes stay as they were.
pub proof fn law_assignment_chain(c: ExprV, names: Seq<Seq<char>>, env: Scopes)
    requires
        chain_of(c, names),
        names.len() >= 1,
        lookup_scopes(env, "="@).is_none(),
        spec_check(chain_end(c), env).2 == env,
    ensures
        spec_check(c, env).0 is Ok <==> exists|ty: TypeV| chain_typed(c, names, env, ty),
        spec_check(c, env).0 is Ok ==> spec_check(c, env).0 == Ok::<TypeV, TErrV>(TypeV::Unit),
        spec_check(c, env).2 == env,
    decreases names.len(),
{
    reveal_strlit("=");
    reveal_strlit("==");
    reveal_strlit("!=");
    assert("="@ != "=="@ && "="@ != "!="@) by {
        assert("="@.len() == 1 && "=="@.len() == 2 && "!="@.len() == 2);
    }
    if let ExprV::BinaryOp { left, op, right, loc, t } = c {
        let rest = names.drop_first();
        assert(chain_of(*right, rest));
        assert(chain_end(c) == chain_end(*right));
        let (r1, l1, env1) = spec_check(*left, env);
        assert(env1 == env);
        assert(l1 is Identifier);
        assert(size(l1) == size(*left));
        let (r2, rn, env2) = spec_check(*right, env);
        if names.len() >= 2 {
            law_assignment_chain(*right, rest, env);
        } else {
            assert(!is_assignment(*right));
            assert(chain_end(*right) == *right);
        }
        assert(env2 == env);
        law_check_keeps_tree(*right, env);
        lemma_chain_strip(*right, rn, rest);
        lemma_check_ignores_types(chain_end(rn), chain_end(*right), env);
        let n2 = ExprV::BinaryOp { left: Box::new(l1), op, right: Box::new(rn), loc, t };
        assert(size(n2) == size(c));
        let n3 = n2.with_type(TypeV::Unit);
        lemma_chain_of_assign(n3, l1, rn, names, rest, loc);
        assert(chain_end(n3) == chain_end(rn));
        lemma_assign_chain(n3, names, env, true);
        assert forall|ty: TypeV| chain_typed(n3, names, env, ty) == chain_typed(c, names, env, ty) by {}
        if exists|ty: TypeV| chain_typed(c, names, env, ty) {
            let ty = choose|ty: TypeV| chain_typed(c, names, env, ty);
            assert(lookup_scopes(env, names[0]) == Some(ty));
            if names.len() >= 2 {
                assert(chain_typed(*right, rest, env, ty)) by {
                    assert forall|i: int| 0 <= i < rest.len() implies #[trigger] lookup_scopes(env, rest[i]) == Some(ty) by {
                        assert(rest[i] == names[i + 1]);
                    }
                }
            }
        }
    }
}

proof fn lemma_chain_of_assign(
    n3: ExprV,
    l1: ExprV,
    rn: ExprV,
    names: Seq<Seq<char>>,
    rest: Seq<Seq<char>>,
    loc: LocV,
)
    requires
        names.len() >= 1,
        rest == names.drop_first(),
        l1 matches ExprV::Identifier { id } && id.name == names[0],
        chain_of(rn, rest),
        n3 == (ExprV::BinaryOp { left: Box::new(l1), op: "="@, right: Box::new(rn), loc, t: TypeV::Unit }),
    ensures
        chain_of(n3, names),
{
}

/// Checking keeps the size of a tree: the size guards in [`spec_check`] (the
/// two places that lead to [`reshaped`]) always pass, so `reshaped()` is never
/// the outcome of those branches.
pub proof fn law_check_keeps_size(e: ExprV, env: Scopes)
    ensures
        size(spec_check(e, env).1) == size(e),
        e matches ExprV::BinaryOp { left, op, right, loc, t } ==> ({
            let (_, l1, env1) = spec_check(*left, env);
            let rn = spec_check(*right, env1).1;
            size(ExprV::BinaryOp { left: Box::new(l1), op, right: Box::new(rn), loc, t }) == size(e)
        }),
        e matches ExprV::Block { statements, .. } ==> ({
            let stmts1 = spec_check_seq(statements, env.push(Map::empty())).1;
            stmts1.len() == statements.len() && (stmts1.len() > 0 ==> size(stmts1.last()) < size(e))
        }),
{
    law_check_keeps_tree(e, env);
    lemma_size_strip(e);
    lemma_size_strip(spec_check(e, env).1);
    if let ExprV::BinaryOp { left, op, right, loc, t } = e {
        let (_, l1, env1) = spec_check(*left, env);
        let rn = spec_check(*right, env1).1;
        law_check_keeps_tree(*left, env);
        law_check_keeps_tree(*right, env1);
        lemma_size_strip(*left);
        lemma_size_strip(l1);
        lemma_size_strip(*right);
        lemma_size_strip(rn);
    }
    if let ExprV::Block { statements, .. } = e {
        let stmts1 = spec_check_seq(statements, env.push(Map::empty())).1;
        lemma_check_seq_keeps_trees(statements, env.push(Map::empty()));
        lemma_strips(statements);
        lemma_strips(stmts1);
        lemma_sizes_strip(statements);
        lemma_sizes_strip(stmts1);
        if stmts1.len() > 0 {
            lemma_sizes(stmts1);
        }
    }
}

/// `==` and `!=`, when not bound as functions, compare two operands of the
/// same type and have type `Bool`; operands of different types are an error
/// that names the left operand's type.
pub proof fn law_equality(left: ExprV, op: Seq<char>, right: ExprV, loc: LocV, t: TypeV, env: Scopes)
    requires
        op == "=="@ || op == "!="@,
    ensures
        ({
            let (r1, l1, env1) = spec_check(left, env);
            let (r2, rn, env2) = spec_check(right, env1);
            let r = spec_check(ExprV::BinaryOp { left: Box::new(left), op, right: Box::new(right), loc, t }, env);
            match (r1, r2) {
                (Ok(t1), Ok(t2)) => lookup_scopes(env2, op).is_none() ==> if t1 == t2 {
                    r.0 == Ok::<TypeV, TErrV>(TypeV::Bool) && r.1.ty() == TypeV::Bool
                } else {
                    r.0 == Err::<TypeV, TErrV>(TErrV::MismatchedTypes { expected: t1, loc: rn.loc() })
                },
                _ => r.0 is Err,
            }
        }),
{
}

/// A binary operator bound to a function type checks as a call of it on the
/// two operand types: the result type when they are the parameter types, an
/// error otherwise.
pub proof fn law_operator_call(left: ExprV, op: Seq<char>, right: ExprV, loc: LocV, t: TypeV, env: Scopes)
    ensures
        ({
            let (r1, l1, env1) = spec_check(left, env);
            let (r2, rn, env2) = spec_check(right, env1);
            let r = spec_check(ExprV::BinaryOp { left: Box::new(left), op, right: Box::new(right), loc, t }, env);
            match (r1, r2, lookup_scopes(env2, op)) {
                (Ok(t1), Ok(t2), Some(TypeV::Fun(ps, res))) => if ps == seq![t1, t2] {
                    r.0 == Ok::<TypeV, TErrV>(*res) && r.1.ty() == *res
                } else {
                    r.0 == Err::<TypeV, TErrV>(TErrV::MismatchedArgTypes(op))
                },
                (Err(_), _, _) => r.0 is Err,
                (_, Err(_), _) => r.0 is Err,
                _ => true,
            }
        }),
{
}

/// `if c then a else b` has the type of its branches when `c` is a boolean and
/// both branches have one type; an `if` without `else` has type `Unit` when
/// `c` is a boolean and its branch checks; anything else is an error.
pub proof fn law_if(cond: ExprV, then_branch: ExprV, else_branch: Option<ExprV>, loc: LocV, t: TypeV, env: Scopes)
    ensures
        ({
            let (rc, _, env1) = spec_check(cond, env);
            let (ra, _, env2) = spec_check(then_branch, env1);
            let e = ExprV::If {
                cond: Box::new(cond),
                then_branch: Box::new(then_branch),
                else_branch: match else_branch {
                    Some(b) => Some(Box::new(b)),
                    None => None,
                },
                loc,
                t,
            };
            let r = spec_check(e, env);
            &&& rc != Ok::<TypeV, TErrV>(TypeV::Bool) ==> r.0 is Err
            &&& rc == Ok::<TypeV, TErrV>(TypeV::Bool) ==> match ra {
                Err(_) => r.0 is Err,
                Ok(ta) => match else_branch {
                    None => r.0 == Ok::<TypeV, TErrV>(TypeV::Unit) && r.1.ty() == TypeV::Unit,
                    Some(b) => if spec_check(b, env2).0 == Ok::<TypeV, TErrV>(ta) {
                        r.0 == Ok::<TypeV, TErrV>(ta) && r.1.ty() == ta
                    } else {
                        r.0 is Err
                    },
                },
            }
        }),
{
}

/// `while c do b` has type `Unit` when `c` is a boolean and is an error
/// otherwise; its body is not checked.
pub proof fn law_while(cond: ExprV, body: ExprV, loc: LocV, t: TypeV, env: Scopes)
    ensures
        ({
            let r = spec_check(ExprV::While { cond: Box::new(cond), body: Box::new(body), loc, t }, env);
            &&& r.0 is Ok <==> spec_check(cond, env).0 == Ok::<TypeV, TErrV>(TypeV::Bool)
            &&& r.0 is Ok ==> r.0 == Ok::<TypeV, TErrV>(TypeV::Unit)
            &&& r.2 == spec_check(cond, env).2
        }),
{
}

/// `var x [: d] = init` has type `Unit` and declares `x` in the innermost
/// scope with the type of `init`, unless a declared type `d` differs from it,
/// which is an error.
pub proof fn law_var_declaration(
    var: IdentV,
    declared_type: Option<TypeV>,
    init: ExprV,
    loc: LocV,
    t: TypeV,
    env: Scopes,
)
    ensures
        ({
            let (ri, _, env1) = spec_check(init, env);
            let e = ExprV::VarDeclaration { var, declared_type, initializer: Box::new(init), loc, t };
            let r = spec_check(e, env);
            match ri {
                Err(_) => r.0 is Err,
                Ok(ti) => if declared_type.is_some() && declared_type.unwrap() != ti {
                    r.0 == Err::<TypeV, TErrV>(
                        TErrV::DeclaredTypeMismatch { declared: declared_type.unwrap(), found: ti },
                    )
                } else {
                    &&& r.0 == Ok::<TypeV, TErrV>(TypeV::Unit)
                    &&& r.1.ty() == TypeV::Unit
                    &&& r.2 == declare(env1, var.name, ti)
                },
            }
        }),
{
}

/// A block checks its statements in order in a new innermost scope, and
/// leaves the scopes as they were, whatever the outcome. An empty block has
/// type `Unit`; otherwise, when all statements check, the block has the type
/// of its last statement, checked again in the block's scope.
pub proof fn law_block(statements: Seq<ExprV>, loc: LocV, t: TypeV, env: Scopes)
    ensures
        ({
            let r = spec_check(ExprV::Block { statements, loc, t }, env);
            let (rs, stmts1, inner) = spec_check_seq(statements, env.push(Map::empty()));
            &&& r.2 == env
            &&& rs is Err ==> r.0 is Err
            &&& (rs is Ok && statements.len() == 0) ==> r.0 == Ok::<TypeV, TErrV>(TypeV::Unit)
            &&& (rs is Ok && statements.len() > 0) ==> r.0 == spec_check(stmts1.last(), inner).0
        }),
{
    law_check_keeps_size(ExprV::Block { statements, loc, t }, env);
}

} // verus!
