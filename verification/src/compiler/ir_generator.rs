//! Lowering of a type-checked tree to the intermediate representation.
//!
//! Every intermediate value gets a fresh variable `x0`, `x1`, ... (the least
//! index not yet taken), and every jump target a label named after its role
//! (`then`, `else`, `if_end`, `while_start`, `while_body`, `while_end`).
use super::ast::{exprs_value, lemma_exprs_value, ExprV, Expression, LiteralValue};
use super::ir::{
    instrs_view, Call, CondJump, IRVar, InstrV, Instruction, Jump, Label, LabelV,
    LoadBoolConst, LoadIntConst,
};
use super::symtab::{lemma_local_names, local_lookup, local_names, SymTab};
use super::text::{decimal, decimal_string, digits};
use super::tokenizer::{loc_eq, special_loc, LocV, Location};
use super::type_checker::{lemma_size_positive, lemma_sizes, size, sizes, sym_env, Env};
use super::types::{Type, TypeV};
use vstd::prelude::*;
use vstd::set_lib::*;
use vstd::string::*;

verus! {

broadcast use vstd::std_specs::vec::group_vec_axioms;

/// Why a tree has no lowering.
#[derive(Debug)]
pub enum IrError {
    /// An identifier that names no variable in scope.
    VarNotFound(String),
    /// A binary operator that names no function in scope (`=` among them).
    UnknownOperator(String),
    /// A function call, variable declaration or unary operation, which have no
    /// lowering; with the location where it starts.
    UnknownExpression(Location),
}

/// The value of an [`IrError`].
pub enum IrErrV {
    VarNotFound(Seq<char>),
    UnknownOperator(Seq<char>),
    UnknownExpression(LocV),
}

impl View for IrError {
    type V = IrErrV;

    open spec fn view(&self) -> IrErrV {
        match self {
            IrError::VarNotFound(n) => IrErrV::VarNotFound(n@),
            IrError::UnknownOperator(n) => IrErrV::UnknownOperator(n@),
            IrError::UnknownExpression(l) => IrErrV::UnknownExpression(l@),
        }
    }
}

/// The state of a lowering: the instructions emitted so far and the type of
/// every variable in use.
pub struct IrGen {
    pub instrs: Seq<InstrV>,
    pub vars: Env,
}

// ---------------------------------------------------------------------------
// Fresh variables
// ---------------------------------------------------------------------------
/// The name of the `j`-th generated variable: `x` followed by `j` in decimal.
pub open spec fn var_name(j: nat) -> Seq<char> {
    seq!['x'] + decimal(j)
}

/// `j` is the least index whose variable is not in use.
pub open spec fn is_first_free(vars: Env, j: nat) -> bool {
    &&& !vars.contains_key(var_name(j))
    &&& forall|k: nat| k < j ==> #[trigger] vars.contains_key(var_name(k))
}

/// The least index whose variable is not in use.
pub open spec fn first_free(vars: Env) -> nat {
    choose|j: nat| is_first_free(vars, j)
}

/// A fresh variable of type `t`: its name, and the variables with it added.
pub open spec fn fresh_var(vars: Env, t: TypeV) -> (Seq<char>, Env) {
    let n = var_name(first_free(vars));
    (n, vars.insert(n, t))
}

pub proof fn lemma_decimal_len(n: nat)
    ensures
        decimal(n).len() >= 1,
        n >= 10 ==> decimal(n).len() >= 2,
    decreases n,
{
    if n >= 10 {
        lemma_decimal_len(n / 10);
    }
}

/// Distinct numbers have distinct decimal texts.
pub proof fn lemma_decimal_injective(a: nat, b: nat)
    requires
        decimal(a) == decimal(b),
    ensures
        a == b,
    decreases a,
{
    lemma_decimal_len(a);
    lemma_decimal_len(b);
    let d = digits();
    if a < 10 && b < 10 {
        assert(decimal(a)[0] == d[a as int]);
        assert(decimal(b)[0] == d[b as int]);
    } else if a >= 10 && b >= 10 {
        let da = decimal(a);
        let db = decimal(b);
        assert(da.drop_last() =~= decimal(a / 10));
        assert(db.drop_last() =~= decimal(b / 10));
        lemma_decimal_injective(a / 10, b / 10);
        assert(da.last() == d[(a % 10) as int]);
        assert(db.last() == d[(b % 10) as int]);
    }
}

pub proof fn lemma_var_name_injective(a: nat, b: nat)
    requires
        var_name(a) == var_name(b),
    ensures
        a == b,
{
    assert(decimal(a) =~= var_name(a).drop_first());
    assert(decimal(b) =~= var_name(b).drop_first());
    lemma_decimal_injective(a, b);
}

/// When the first `m` generated variables are all in use, there are at least
/// `m` variables in use.
pub proof fn lemma_names_bound(vars: Env, m: nat)
    requires
        vars.dom().finite(),
        forall|k: nat| k < m ==> #[trigger] vars.contains_key(var_name(k)),
    ensures
        m <= vars.dom().len(),
{
    let r = set_int_range(0, m as int);
    let f = |k: int| var_name(k as nat);
    lemma_int_range(0, m as int);
    assert forall|a: int, b: int| r.contains(a) && r.contains(b) && #[trigger] f(a) == #[trigger] f(b)
        implies a == b by {
        lemma_var_name_injective(a as nat, b as nat);
    }
    lemma_map_size(r, r.map(f), f);
    assert forall|n: Seq<char>| r.map(f).contains(n) implies vars.dom().contains(n) by {
        let k = choose|k: int| r.contains(k) && f(k) == n;
        assert(vars.contains_key(var_name(k as nat)));
    }
    lemma_len_subset(r.map(f), vars.dom());
}

/// A least free index is the least free index.
pub proof fn lemma_first_free(vars: Env, j: nat)
    requires
        is_first_free(vars, j),
    ensures
        first_free(vars) == j,
{
    let f = first_free(vars);
    assert(is_first_free(vars, f));
    if f < j {
        assert(vars.contains_key(var_name(f)));
    } else if j < f {
        assert(vars.contains_key(var_name(j)));
    }
}

/// Among finitely many variables in use, there is a least free index.
pub proof fn lemma_first_free_exists(vars: Env)
    requires
        vars.dom().finite(),
    ensures
        is_first_free(vars, first_free(vars)),
{
    if forall|k: nat| k <= vars.dom().len() ==> #[trigger] vars.contains_key(var_name(k)) {
        assert forall|k: nat| k < vars.dom().len() + 1 implies #[trigger] vars.contains_key(var_name(k)) by {
            assert(k <= vars.dom().len());
        }
        lemma_names_bound(vars, vars.dom().len() + 1);
    }
    let k = choose|k: nat| k <= vars.dom().len() && !#[trigger] vars.contains_key(var_name(k));
    lemma_least_free_below(vars, k);
}

proof fn lemma_least_free_below(vars: Env, k: nat)
    requires
        !vars.contains_key(var_name(k)),
    ensures
        is_first_free(vars, first_free(vars)),
    decreases k,
{
    if forall|j: nat| j < k ==> #[trigger] vars.contains_key(var_name(j)) {
        lemma_first_free(vars, k);
    } else {
        let j = choose|j: nat| j < k && !#[trigger] vars.contains_key(var_name(j));
        lemma_least_free_below(vars, j);
    }
}

/// A fresh variable is not in use, while every generated name with a smaller
/// index is; it then has the type it was made with.
pub proof fn law_fresh_var(vars: Env, t: TypeV)
    requires
        vars.dom().finite(),
    ensures
        !vars.contains_key(fresh_var(vars, t).0),
        fresh_var(vars, t).0 == var_name(first_free(vars)),
        forall|k: nat| k < first_free(vars) ==> #[trigger] vars.contains_key(var_name(k)),
        fresh_var(vars, t).1 == vars.insert(fresh_var(vars, t).0, t),
{
    lemma_first_free_exists(vars);
}

/// The variables in use in `var_types`, with their types.
pub open spec fn var_env<'a>(var_types: &SymTab<'a, Type>) -> Env {
    sym_env(var_types)
}

proof fn lemma_var_env_finite<'a>(var_types: &SymTab<'a, Type>)
    requires
        var_types.parent_scope().is_none(),
    ensures
        var_env(var_types).dom().finite(),
        var_env(var_types).dom().len() <= var_types.bindings().len(),
{
    lemma_local_names(var_types.bindings());
    assert(var_env(var_types).dom() =~= local_names(var_types.bindings()));
}

/// The text of [`var_name`].
fn var_name_string(j: usize) -> (s: String)
    ensures
        s@ == var_name(j as nat),
{
    let mut s = "x".to_owned();
    proof {
        reveal_strlit("x");
    }
    let n: u128 = j as u128;
    s.append(decimal_string(n).as_str());
    s
}

/// Adds a fresh variable of type `t` (see [`fresh_var`]) and returns it.
fn new_var(t: Type, var_types: &mut SymTab<Type>) -> (v: IRVar)
    requires
        old(var_types).parent_scope().is_none(),
    ensures
        final(var_types).parent_scope().is_none(),
        (v@, var_env(final(var_types))) == fresh_var(var_env(old(var_types)), t@),
{
    let ghost vars = var_env(var_types);
    let bound = var_types.local_bindings().len();
    proof {
        lemma_var_env_finite(var_types);
    }
    let mut i: usize = 0;
    let mut name = var_name_string(0);
    while var_types.get(name.as_str()).is_some()
        invariant
            var_types.parent_scope().is_none(),
            vars == var_env(var_types),
            vars.dom().finite(),
            vars.dom().len() <= bound,
            name@ == var_name(i as nat),
            i <= vars.dom().len(),
            forall|k: nat| k < i ==> #[trigger] vars.contains_key(var_name(k)),
        decreases vars.dom().len() - i,
    {
        proof {
            assert(vars.contains_key(var_name(i as nat)));
            assert forall|k: nat| k < i + 1 implies #[trigger] vars.contains_key(var_name(k)) by {
                if k == i {
                    assert(vars.contains_key(var_name(i as nat)));
                }
            }
            lemma_names_bound(vars, (i + 1) as nat);
        }
        i = i + 1;
        name = var_name_string(i);
    }
    proof {
        assert(!vars.contains_key(var_name(i as nat)));
        lemma_first_free(vars, i as nat);
    }
    let ghost tv = t@;
    var_types.insert(name.as_str(), t);
    proof {
        assert(var_env(var_types) =~= vars.insert(name@, tv));
    }
    IRVar { name }
}

// ---------------------------------------------------------------------------
// Labels
// ---------------------------------------------------------------------------
/// The label that [`new_label`] picks for `base` at `loc`, scanning the labels
/// among `instrs` with the counter at `i`: while the labels met are
/// `base0`, `base1`, ... at `loc` (locations compared as [`loc_eq`] does), the
/// counter goes up; the first label that differs yields `base` followed by the
/// counter; when the labels run out, the label is `base` itself.
pub open spec fn label_scan(instrs: Seq<InstrV>, base: Seq<char>, loc: LocV, i: nat) -> LabelV
    decreases instrs.len(),
{
    if instrs.len() == 0 {
        LabelV { name: base, loc }
    } else {
        match instrs[0] {
            InstrV::Label(l) => {
                let cand = LabelV { name: base + decimal(i), loc };
                if l.name == cand.name && loc_eq(l.loc, loc) {
                    label_scan(instrs.drop_first(), base, loc, i + 1)
                } else {
                    cand
                }
            },
            _ => label_scan(instrs.drop_first(), base, loc, i),
        }
    }
}

/// The label for `base` at `loc` after the instructions `instrs`.
pub open spec fn label_for(instrs: Seq<InstrV>, base: Seq<char>, loc: LocV) -> LabelV {
    label_scan(instrs, base, loc, 0)
}

/// The labels among `instrs`, in order.
pub open spec fn labels_of(instrs: Seq<InstrV>) -> Seq<LabelV>
    decreases instrs.len(),
{
    if instrs.len() == 0 {
        seq![]
    } else {
        match instrs[0] {
            InstrV::Label(l) => seq![l] + labels_of(instrs.drop_first()),
            _ => labels_of(instrs.drop_first()),
        }
    }
}

/// The first `n` labels of `ls` are `base` numbered from `j` on, at `loc`.
pub open spec fn numbered_from(ls: Seq<LabelV>, base: Seq<char>, loc: LocV, j: nat, n: nat) -> bool {
    forall|k: int| 0 <= k < n ==> #[trigger] ls[k].name == base + decimal((j + k) as nat) && loc_eq(ls[k].loc, loc)
}

/// `l` is the label that numbering gives `base` at `loc` after the labels `ls`,
/// counting from `j`: the labels of `ls` are read while they are `base`
/// numbered on from `j` at `loc`; the first one that is not makes `l` the
/// next number; when all are, `l` is `base` alone.
pub open spec fn numbered_after(l: LabelV, ls: Seq<LabelV>, base: Seq<char>, loc: LocV, j: nat) -> bool {
    &&& l.loc == loc
    &&& exists|n: nat| #![trigger numbered_from(ls, base, loc, j, n)]
        {
            &&& n <= ls.len()
            &&& numbered_from(ls, base, loc, j, n)
            &&& if n == ls.len() {
                l.name == base
            } else {
                &&& !(ls[n as int].name == base + decimal(j + n) && loc_eq(ls[n as int].loc, loc))
                &&& l.name == base + decimal(j + n)
            }
        }
}

/// `l` is the label that numbering gives `base` at `loc` after the
/// instructions `before`: `base` alone exactly when the labels already there
/// are `base0`, `base1`, ... at `loc`, and otherwise `base` with a number,
/// one that the label at that place in the count does not have.
pub open spec fn numbered_label(l: LabelV, before: Seq<InstrV>, base: Seq<char>, loc: LocV) -> bool {
    numbered_after(l, labels_of(before), base, loc, 0)
}

proof fn lemma_label_scan_numbered(instrs: Seq<InstrV>, base: Seq<char>, loc: LocV, j: nat)
    ensures
        numbered_after(label_scan(instrs, base, loc, j), labels_of(instrs), base, loc, j),
    decreases instrs.len(),
{
    let ls = labels_of(instrs);
    let l = label_scan(instrs, base, loc, j);
    if instrs.len() == 0 {
        assert(numbered_from(ls, base, loc, j, 0));
    } else {
        let rest = instrs.drop_first();
        lemma_label_scan_numbered(rest, base, loc, j + 1);
        lemma_label_scan_numbered(rest, base, loc, j);
        match instrs[0] {
            InstrV::Label(l0) => {
                let rls = labels_of(rest);
                assert(ls == seq![l0] + rls);
                if l0.name == base + decimal(j) && loc_eq(l0.loc, loc) {
                    let n = choose|n: nat| #![trigger numbered_from(rls, base, loc, j + 1, n)]
                        {
                            &&& n <= rls.len()
                            &&& numbered_from(rls, base, loc, j + 1, n)
                            &&& if n == rls.len() {
                                l.name == base
                            } else {
                                &&& !(rls[n as int].name == base + decimal(j + 1 + n) && loc_eq(rls[n as int].loc, loc))
                                &&& l.name == base + decimal(j + 1 + n)
                            }
                        };
                    assert(numbered_from(ls, base, loc, j, n + 1)) by {
                        assert forall|k: int| 0 <= k < n + 1 implies #[trigger] ls[k].name == base + decimal((j + k) as nat)
                            && loc_eq(ls[k].loc, loc) by {
                            if k > 0 {
                                assert(ls[k] == rls[k - 1]);
                                assert(rls[k - 1].name == base + decimal((j + 1 + (k - 1)) as nat));
                            }
                        }
                    }
                    if n < rls.len() {
                        assert(ls[n + 1 as int] == rls[n as int]);
                        assert(j + (n + 1) == j + 1 + n);
                    }
                } else {
                    assert(numbered_from(ls, base, loc, j, 0));
                    assert(ls[0] == l0);
                }
            },
            _ => {
                assert(ls == labels_of(rest));
            },
        }
    }
}

/// The label picked for `base` at `loc` after `instrs` is numbered as
/// [`numbered_label`] says.
pub proof fn law_label_numbering(instrs: Seq<InstrV>, base: Seq<char>, loc: LocV)
    ensures
        numbered_label(label_for(instrs, base, loc), instrs, base, loc),
{
    lemma_label_scan_numbered(instrs, base, loc, 0);
}

/// `base` followed by `i` in decimal.
fn numbered(base: &str, i: usize) -> (s: String)
    ensures
        s@ == base@ + decimal(i as nat),
{
    let mut s = base.to_owned();
    let n: u128 = i as u128;
    s.append(decimal_string(n).as_str());
    s
}

/// Picks a label for `base` at `loc` (see [`label_for`]).
fn new_label(ins: &Vec<Instruction>, base: &str, loc: Location) -> (l: Label)
    ensures
        l@ == label_for(instrs_view(ins@), base@, loc@),
{
    let ghost all = instrs_view(ins@);
    proof {
        assert(all.subrange(0, all.len() as int) =~= all);
    }
    let mut i: usize = 0;
    let mut k: usize = 0;
    while k < ins.len()
        invariant
            k <= ins@.len(),
            i <= k,
            all == instrs_view(ins@),
            all.len() == ins@.len(),
            label_for(all, base@, loc@) == label_scan(
                all.subrange(k as int, all.len() as int),
                base@,
                loc@,
                i as nat,
            ),
        decreases ins@.len() - k,
    {
        proof {
            let rest = all.subrange(k as int, all.len() as int);
            assert(rest.drop_first() =~= all.subrange(k + 1, all.len() as int));
            assert(rest[0] == ins@[k as int]@);
        }
        match &ins[k] {
            Instruction::Label(label) => {
                let cand = Label::new(numbered(base, i).as_str(), loc.clone());
                if label.name == cand.name && label.loc.loc_equals(&cand.loc) {
                    i = i + 1;
                } else {
                    return cand;
                }
            },
            _ => {},
        }
        k = k + 1;
    }
    proof {
        assert(all.subrange(k as int, all.len() as int).len() == 0);
    }
    Label::new(base, loc)
}

// ---------------------------------------------------------------------------
// Lowering
// ---------------------------------------------------------------------------
/// The variable that stands for the unit value.
pub open spec fn unit_name() -> Seq<char> {
    "unit"@
}

/// The outcome of lowering a tree: the variable that holds its value, or why
/// it has no lowering, and the state afterwards (as far as lowering got).
pub type Lowered = (Result<Seq<char>, IrErrV>, IrGen);

/// `g` with the instruction `i` emitted.
pub open spec fn emit(g: IrGen, i: InstrV) -> IrGen {
    IrGen { instrs: g.instrs.push(i), vars: g.vars }
}

/// `g` with a fresh variable of type `t`: the variable and the new state.
pub open spec fn with_fresh(g: IrGen, t: TypeV) -> (Seq<char>, IrGen) {
    let (x, vars) = fresh_var(g.vars, t);
    (x, IrGen { instrs: g.instrs, vars })
}

/// Lowers the tree `e` in state `g`, where `names` are the names in scope
/// (each stands for the variable of the same name):
/// - a literal loads its constant into a fresh variable; the unit literal is
///   the variable `unit`;
/// - an identifier is its own variable, if it is in scope;
/// - `l op r` lowers `l`, then `r`, then calls the function `op` (which must
///   be in scope) on both into a fresh variable of the node's type;
/// - `if c then a else b` takes labels `then`, `else`, `if_end` first, then
///   lowers `c`, makes a fresh variable of the node's type, jumps on `c`, and
///   lowers each branch after its label, copying its value into the fresh
///   variable (both copies located at the `then` branch); without `else`,
///   there are only `then` and `if_end`, no copy, and the value is `unit`;
/// - a block lowers its statements in order, then makes a fresh variable of
///   the block's type;
/// - `while c do b` takes labels `while_start`, `while_body`, `while_end`,
///   lowers `c` after the first, `b` after the second, jumps back, and has the
///   value `unit`;
/// - function calls, declarations and unary operations have no lowering.
pub open spec fn spec_visit(e: ExprV, names: Set<Seq<char>>, g: IrGen) -> Lowered
    decreases size(e), 1int,
{
    match e {
        ExprV::Literal { value, loc, .. } => match value {
            None => (Ok(unit_name()), g),
            Some(LiteralValue::Int(v)) => {
                let (x, g1) = with_fresh(g, TypeV::Int);
                (Ok(x), emit(g1, InstrV::LoadIntConst { value: v, dest: x, loc }))
            },
            Some(LiteralValue::Bool(b)) => {
                let (x, g1) = with_fresh(g, TypeV::Bool);
                (Ok(x), emit(g1, InstrV::LoadBoolConst { value: b, dest: x, loc }))
            },
        },
        ExprV::Identifier { id } => if names.contains(id.name) {
            (Ok(id.name), g)
        } else {
            (Err(IrErrV::VarNotFound(id.name)), g)
        },
        ExprV::BinaryOp { left, op, right, loc, t } => if !names.contains(op) {
            (Err(IrErrV::UnknownOperator(op)), g)
        } else {
            let (rl, g1) = spec_visit(*left, names, g);
            match rl {
                Err(x) => (Err(x), g1),
                Ok(l) => {
                    let (rr, g2) = spec_visit(*right, names, g1);
                    match rr {
                        Err(x) => (Err(x), g2),
                        Ok(r) => {
                            let (x, g3) = with_fresh(g2, t);
                            (Ok(x), emit(g3, InstrV::Call { fun: op, args: seq![l, r], dest: x, loc }))
                        },
                    }
                },
            }
        },
        ExprV::If { cond, then_branch, else_branch, loc, t } => {
            let tloc = then_branch.loc();
            let l_then = label_for(g.instrs, "then"@, tloc);
            match else_branch {
                Some(els) => {
                    let l_else = label_for(g.instrs, "else"@, els.loc());
                    let l_end = label_for(g.instrs, "if_end"@, loc);
                    let (rc, g1) = spec_visit(*cond, names, g);
                    match rc {
                        Err(x) => (Err(x), g1),
                        Ok(c) => {
                            let (v, g2) = with_fresh(g1, t);
                            let g3 = emit(
                                emit(g2, InstrV::CondJump { cond: c, then_label: l_then, else_label: l_else, loc }),
                                InstrV::Label(l_then),
                            );
                            let (ra, g4) = spec_visit(*then_branch, names, g3);
                            match ra {
                                Err(x) => (Err(x), g4),
                                Ok(a) => {
                                    let g5 = emit(
                                        emit(
                                            emit(g4, InstrV::Copy { source: a, dest: v, loc: tloc }),
                                            InstrV::Jump { label: l_end, loc: tloc },
                                        ),
                                        InstrV::Label(l_else),
                                    );
                                    let (rb, g6) = spec_visit(*els, names, g5);
                                    match rb {
                                        Err(x) => (Err(x), g6),
                                        Ok(b) => (
                                            Ok(v),
                                            emit(
                                                emit(g6, InstrV::Copy { source: b, dest: v, loc: tloc }),
                                                InstrV::Label(l_end),
                                            ),
                                        ),
                                    }
                                },
                            }
                        },
                    }
                },
                None => {
                    let l_end = label_for(g.instrs, "if_end"@, loc);
                    let (rc, g1) = spec_visit(*cond, names, g);
                    match rc {
                        Err(x) => (Err(x), g1),
                        Ok(c) => {
                            let g2 = emit(
                                emit(g1, InstrV::CondJump { cond: c, then_label: l_then, else_label: l_end, loc }),
                                InstrV::Label(l_then),
                            );
                            let (ra, g3) = spec_visit(*then_branch, names, g2);
                            match ra {
                                Err(x) => (Err(x), g3),
                                Ok(_) => (Ok(unit_name()), emit(g3, InstrV::Label(l_end))),
                            }
                        },
                    }
                },
            }
        },
        ExprV::Block { statements, t, .. } => {
            let (r, g1) = spec_visit_seq(statements, names, g);
            match r {
                Err(x) => (Err(x), g1),
                Ok(_) => {
                    let (x, g2) = with_fresh(g1, t);
                    (Ok(x), g2)
                },
            }
        },
        ExprV::While { cond, body, loc, .. } => {
            let l_start = label_for(g.instrs, "while_start"@, loc);
            let l_body = label_for(g.instrs, "while_body"@, body.loc());
            let l_end = label_for(g.instrs, "while_end"@, loc);
            let (rc, g1) = spec_visit(*cond, names, emit(g, InstrV::Label(l_start)));
            match rc {
                Err(x) => (Err(x), g1),
                Ok(c) => {
                    let g2 = emit(
                        emit(g1, InstrV::CondJump { cond: c, then_label: l_body, else_label: l_end, loc }),
                        InstrV::Label(l_body),
                    );
                    let (rb, g3) = spec_visit(*body, names, g2);
                    match rb {
                        Err(x) => (Err(x), g3),
                        Ok(_) => (
                            Ok(unit_name()),
                            emit(emit(g3, InstrV::Jump { label: l_start, loc }), InstrV::Label(l_end)),
                        ),
                    }
                },
            }
        },
        _ => (Err(IrErrV::UnknownExpression(e.loc())), g),
    }
}

/// Lowers the trees of `s` in order, stopping at the first that has no
/// lowering; the state afterwards either way.
pub open spec fn spec_visit_seq(s: Seq<ExprV>, names: Set<Seq<char>>, g: IrGen) -> (Result<(), IrErrV>, IrGen)
    decreases sizes(s), 2int,
{
    if s.len() == 0 {
        (Ok(()), g)
    } else {
        proof {
            lemma_size_positive(s[0]);
        }
        let (r, g1) = spec_visit(s[0], names, g);
        match r {
            Err(x) => (Err(x), g1),
            Ok(_) => spec_visit_seq(s.subrange(1, s.len() as int), names, g1),
        }
    }
}

/// `g2` continues `g`: the instructions of `g` come first in `g2`, and every
/// variable of `g` is still in use in `g2` with the same type; both have
/// finitely many variables.
pub open spec fn extends(g: IrGen, g2: IrGen) -> bool {
    &&& g.vars.dom().finite()
    &&& g2.vars.dom().finite()
    &&& g.instrs.len() <= g2.instrs.len()
    &&& g2.instrs.subrange(0, g.instrs.len() as int) == g.instrs
    &&& forall|n: Seq<char>| #[trigger] g.vars.contains_key(n) ==> g2.vars.contains_key(n) && g2.vars[n] == g.vars[n]
}

proof fn lemma_extends_trans(a: IrGen, b: IrGen, c: IrGen)
    requires
        extends(a, b),
        extends(b, c),
    ensures
        extends(a, c),
{
    assert(c.instrs.subrange(0, a.instrs.len() as int) =~= c.instrs.subrange(0, b.instrs.len() as int).subrange(
        0,
        a.instrs.len() as int,
    ));
}

proof fn lemma_extends_refl(g: IrGen)
    requires
        g.vars.dom().finite(),
    ensures
        extends(g, g),
{
    assert(g.instrs.subrange(0, g.instrs.len() as int) =~= g.instrs);
}

proof fn lemma_emit_extends(g: IrGen, i: InstrV)
    requires
        g.vars.dom().finite(),
    ensures
        extends(g, emit(g, i)),
{
    assert(emit(g, i).instrs.subrange(0, g.instrs.len() as int) =~= g.instrs);
}

proof fn lemma_fresh_extends(g: IrGen, t: TypeV)
    requires
        g.vars.dom().finite(),
    ensures
        extends(g, with_fresh(g, t).1),
{
    law_fresh_var(g.vars, t);
    assert(with_fresh(g, t).1.instrs.subrange(0, g.instrs.len() as int) =~= g.instrs);
}

/// `extends(g, h)` for a state `h` one emitted instruction after `g`.
proof fn lemma_emit_extends_trans(g0: IrGen, g: IrGen, i: InstrV)
    requires
        extends(g0, g),
    ensures
        extends(g0, emit(g, i)),
{
    lemma_emit_extends(g, i);
    lemma_extends_trans(g0, g, emit(g, i));
}

/// Lowering only adds, whether it succeeds or not: the instructions emitted
/// before stay as they were, at the front, and every variable in use keeps
/// its type.
pub proof fn law_lowering_appends(e: ExprV, names: Set<Seq<char>>, g: IrGen)
    requires
        g.vars.dom().finite(),
    ensures
        extends(g, spec_visit(e, names, g).1),
    decreases size(e), 1int,
{
    lemma_extends_refl(g);
    match e {
        ExprV::Literal { value, loc, .. } => match value {
            None => {},
            Some(LiteralValue::Int(v)) => {
                let (x, g1) = with_fresh(g, TypeV::Int);
                lemma_fresh_extends(g, TypeV::Int);
                lemma_emit_extends_trans(g, g1, InstrV::LoadIntConst { value: v, dest: x, loc });
            },
            Some(LiteralValue::Bool(b)) => {
                let (x, g1) = with_fresh(g, TypeV::Bool);
                lemma_fresh_extends(g, TypeV::Bool);
                lemma_emit_extends_trans(g, g1, InstrV::LoadBoolConst { value: b, dest: x, loc });
            },
        },
        ExprV::BinaryOp { left, op, right, loc, t } => {
            law_lowering_appends(*left, names, g);
            let (rl, g1) = spec_visit(*left, names, g);
            law_lowering_appends(*right, names, g1);
            let (rr, g2) = spec_visit(*right, names, g1);
            lemma_extends_trans(g, g1, g2);
            if let (Ok(l), Ok(r)) = (rl, rr) {
                let (x, g3) = with_fresh(g2, t);
                lemma_fresh_extends(g2, t);
                lemma_extends_trans(g, g2, g3);
                lemma_emit_extends_trans(g, g3, InstrV::Call { fun: op, args: seq![l, r], dest: x, loc });
            }
        },
        ExprV::If { cond, then_branch, else_branch, loc, t } => {
            let tloc = then_branch.loc();
            let l_then = label_for(g.instrs, "then"@, tloc);
            law_lowering_appends(*cond, names, g);
            let (rc, g1) = spec_visit(*cond, names, g);
            match else_branch {
                Some(els) => {
                    let l_else = label_for(g.instrs, "else"@, els.loc());
                    let l_end = label_for(g.instrs, "if_end"@, loc);
                    if let Ok(c) = rc {
                        let (v, g2) = with_fresh(g1, t);
                        lemma_fresh_extends(g1, t);
                        lemma_extends_trans(g, g1, g2);
                        let i1 = InstrV::CondJump { cond: c, then_label: l_then, else_label: l_else, loc };
                        lemma_emit_extends_trans(g, g2, i1);
                        lemma_emit_extends_trans(g, emit(g2, i1), InstrV::Label(l_then));
                        let g3 = emit(emit(g2, i1), InstrV::Label(l_then));
                        law_lowering_appends(*then_branch, names, g3);
                        let (ra, g4) = spec_visit(*then_branch, names, g3);
                        lemma_extends_trans(g, g3, g4);
                        if let Ok(a) = ra {
                            let i2 = InstrV::Copy { source: a, dest: v, loc: tloc };
                            let i3 = InstrV::Jump { label: l_end, loc: tloc };
                            lemma_emit_extends_trans(g, g4, i2);
                            lemma_emit_extends_trans(g, emit(g4, i2), i3);
                            lemma_emit_extends_trans(g, emit(emit(g4, i2), i3), InstrV::Label(l_else));
                            let g5 = emit(emit(emit(g4, i2), i3), InstrV::Label(l_else));
                            law_lowering_appends(*els, names, g5);
                            let (rb, g6) = spec_visit(*els, names, g5);
                            lemma_extends_trans(g, g5, g6);
                            if let Ok(b) = rb {
                                let i4 = InstrV::Copy { source: b, dest: v, loc: tloc };
                                lemma_emit_extends_trans(g, g6, i4);
                                lemma_emit_extends_trans(g, emit(g6, i4), InstrV::Label(l_end));
                            }
                        }
                    }
                },
                None => {
                    let l_end = label_for(g.instrs, "if_end"@, loc);
                    if let Ok(c) = rc {
                        let i1 = InstrV::CondJump { cond: c, then_label: l_then, else_label: l_end, loc };
                        lemma_emit_extends_trans(g, g1, i1);
                        lemma_emit_extends_trans(g, emit(g1, i1), InstrV::Label(l_then));
                        let g2 = emit(emit(g1, i1), InstrV::Label(l_then));
                        law_lowering_appends(*then_branch, names, g2);
                        let (ra, g3) = spec_visit(*then_branch, names, g2);
                        lemma_extends_trans(g, g2, g3);
                        lemma_emit_extends_trans(g, g3, InstrV::Label(l_end));
                    }
                },
            }
        },
        ExprV::Block { statements, t, .. } => {
            law_lowering_seq_appends(statements, names, g);
            let (r, g1) = spec_visit_seq(statements, names, g);
            lemma_fresh_extends(g1, t);
            lemma_extends_trans(g, g1, with_fresh(g1, t).1);
        },
        ExprV::While { cond, body, loc, .. } => {
            let l_start = label_for(g.instrs, "while_start"@, loc);
            let l_body = label_for(g.instrs, "while_body"@, body.loc());
            let l_end = label_for(g.instrs, "while_end"@, loc);
            let g0 = emit(g, InstrV::Label(l_start));
            lemma_emit_extends(g, InstrV::Label(l_start));
            law_lowering_appends(*cond, names, g0);
            let (rc, g1) = spec_visit(*cond, names, g0);
            lemma_extends_trans(g, g0, g1);
            if let Ok(c) = rc {
                let i1 = InstrV::CondJump { cond: c, then_label: l_body, else_label: l_end, loc };
                lemma_emit_extends_trans(g, g1, i1);
                lemma_emit_extends_trans(g, emit(g1, i1), InstrV::Label(l_body));
                let g2 = emit(emit(g1, i1), InstrV::Label(l_body));
                law_lowering_appends(*body, names, g2);
                let (rb, g3) = spec_visit(*body, names, g2);
                lemma_extends_trans(g, g2, g3);
                let i2 = InstrV::Jump { label: l_start, loc };
                lemma_emit_extends_trans(g, g3, i2);
                lemma_emit_extends_trans(g, emit(g3, i2), InstrV::Label(l_end));
            }
        },
        _ => {},
    }
}

/// Lowering `if c then a else b` takes its labels by the common numbering
/// (see [`numbered_label`]), counted over the instructions emitted before it:
/// when lowering succeeds, it jumps on `c` either to its `then` label, placed
/// right after that jump, or to its `else` label, which follows the jump from
/// the end of `a` to its `if_end` label; the `if_end` label is its last
/// instruction.
pub proof fn law_if_else_labels(
    cond: ExprV,
    then_branch: ExprV,
    else_branch: ExprV,
    loc: LocV,
    t: TypeV,
    names: Set<Seq<char>>,
    g: IrGen,
)
    requires
        g.vars.dom().finite(),
    ensures
        ({
            let e = ExprV::If {
                cond: Box::new(cond),
                then_branch: Box::new(then_branch),
                else_branch: Some(Box::new(else_branch)),
                loc,
                t,
            };
            let (r, g2) = spec_visit(e, names, g);
            let (n0, n) = (g.instrs.len() as int, g2.instrs.len() as int);
            r is Ok ==> {
                &&& n0 < n
                &&& g2.instrs[n - 1] matches InstrV::Label(le) && numbered_label(le, g.instrs, "if_end"@, loc)
                &&& exists|k: int, k2: int|
                    #![trigger g2.instrs[k], g2.instrs[k2]]
                    n0 <= k && k + 1 < k2 < n - 1 && (g2.instrs[k] matches InstrV::CondJump {
                        then_label,
                        else_label,
                        ..
                    } && g2.instrs[k + 1] == InstrV::Label(then_label) && g2.instrs[k2] == InstrV::Label(else_label)
                        && g2.instrs[k2 - 1] == (InstrV::Jump { label: g2.instrs[n - 1]->0, loc: then_branch.loc() })
                        && numbered_label(then_label, g.instrs, "then"@, then_branch.loc()) && numbered_label(
                        else_label,
                        g.instrs,
                        "else"@,
                        else_branch.loc(),
                    ))
            }
        }),
{
    let tloc = then_branch.loc();
    let l_then = label_for(g.instrs, "then"@, tloc);
    let l_else = label_for(g.instrs, "else"@, else_branch.loc());
    let l_end = label_for(g.instrs, "if_end"@, loc);
    law_label_numbering(g.instrs, "then"@, tloc);
    law_label_numbering(g.instrs, "else"@, else_branch.loc());
    law_label_numbering(g.instrs, "if_end"@, loc);
    law_lowering_appends(cond, names, g);
    let (rc, g1) = spec_visit(cond, names, g);
    if let Ok(c) = rc {
        let (v, g2) = with_fresh(g1, t);
        lemma_fresh_extends(g1, t);
        let k = g2.instrs.len() as int;
        let g3 = emit(
            emit(g2, InstrV::CondJump { cond: c, then_label: l_then, else_label: l_else, loc }),
            InstrV::Label(l_then),
        );
        law_lowering_appends(then_branch, names, g3);
        let (ra, g4) = spec_visit(then_branch, names, g3);
        if let Ok(a) = ra {
            let g5 = emit(
                emit(emit(g4, InstrV::Copy { source: a, dest: v, loc: tloc }), InstrV::Jump { label: l_end, loc: tloc }),
                InstrV::Label(l_else),
            );
            let k2 = g4.instrs.len() as int + 2;
            law_lowering_appends(else_branch, names, g5);
            let (rb, g6) = spec_visit(else_branch, names, g5);
            if let Ok(b) = rb {
                let fin = emit(emit(g6, InstrV::Copy { source: b, dest: v, loc: tloc }), InstrV::Label(l_end));
                assert(g4.instrs[k] == g4.instrs.subrange(0, g3.instrs.len() as int)[k]);
                assert(g4.instrs[k + 1] == g4.instrs.subrange(0, g3.instrs.len() as int)[k + 1]);
                assert(g6.instrs[k] == g6.instrs.subrange(0, g5.instrs.len() as int)[k]);
                assert(g6.instrs[k + 1] == g6.instrs.subrange(0, g5.instrs.len() as int)[k + 1]);
                assert(g6.instrs[k2] == g6.instrs.subrange(0, g5.instrs.len() as int)[k2]);
                assert(g6.instrs[k2 - 1] == g6.instrs.subrange(0, g5.instrs.len() as int)[k2 - 1]);
                assert(fin.instrs[k] == g6.instrs[k]);
                assert(fin.instrs[k + 1] == g6.instrs[k + 1]);
                assert(fin.instrs[k2] == g6.instrs[k2]);
                assert(fin.instrs[k2 - 1] == g6.instrs[k2 - 1]);
            }
        }
    }
}

/// Lowering `if c then a` (without `else`) takes its labels by the common
/// numbering (see [`numbered_label`]), counted over the instructions emitted
/// before it: when lowering succeeds, it jumps on `c` either to its `then`
/// label, placed right after that jump, or to its `if_end` label, which is its
/// last instruction.
pub proof fn law_if_labels(cond: ExprV, then_branch: ExprV, loc: LocV, t: TypeV, names: Set<Seq<char>>, g: IrGen)
    requires
        g.vars.dom().finite(),
    ensures
        ({
            let e = ExprV::If { cond: Box::new(cond), then_branch: Box::new(then_branch), else_branch: None, loc, t };
            let (r, g2) = spec_visit(e, names, g);
            let (n0, n) = (g.instrs.len() as int, g2.instrs.len() as int);
            r is Ok ==> {
                &&& n0 < n
                &&& g2.instrs[n - 1] matches InstrV::Label(le) && numbered_label(le, g.instrs, "if_end"@, loc)
                &&& exists|k: int|
                    #![trigger g2.instrs[k]]
                    n0 <= k && k + 1 < n - 1 && (g2.instrs[k] matches InstrV::CondJump { then_label, else_label, .. }
                        && g2.instrs[k + 1] == InstrV::Label(then_label) && InstrV::Label(else_label) == g2.instrs[n
                        - 1] && numbered_label(then_label, g.instrs, "then"@, then_branch.loc()))
            }
        }),
{
    let tloc = then_branch.loc();
    let l_then = label_for(g.instrs, "then"@, tloc);
    let l_end = label_for(g.instrs, "if_end"@, loc);
    law_label_numbering(g.instrs, "then"@, tloc);
    law_label_numbering(g.instrs, "if_end"@, loc);
    law_lowering_appends(cond, names, g);
    let (rc, g1) = spec_visit(cond, names, g);
    if let Ok(c) = rc {
        let k = g1.instrs.len() as int;
        let g2 = emit(
            emit(g1, InstrV::CondJump { cond: c, then_label: l_then, else_label: l_end, loc }),
            InstrV::Label(l_then),
        );
        law_lowering_appends(then_branch, names, g2);
        let (ra, g3) = spec_visit(then_branch, names, g2);
        if ra is Ok {
            let fin = emit(g3, InstrV::Label(l_end));
            assert(g3.instrs[k] == g3.instrs.subrange(0, g2.instrs.len() as int)[k]);
            assert(g3.instrs[k + 1] == g3.instrs.subrange(0, g2.instrs.len() as int)[k + 1]);
            assert(fin.instrs[k] == g3.instrs[k]);
            assert(fin.instrs[k + 1] == g3.instrs[k + 1]);
        }
    }
}

/// Lowering `while c do b` takes its labels by the common numbering (see
/// [`numbered_label`]), counted over the instructions emitted before the loop:
/// its first instruction is its start label, numbered for `while_start`; when
/// lowering succeeds, the loop jumps on `c` either to its body label, numbered
/// for `while_body` and placed right after that jump, or to its end label,
/// numbered for `while_end`, which is its last instruction and follows a jump
/// back to the start label.
pub proof fn law_while_labels(cond: ExprV, body: ExprV, loc: LocV, t: TypeV, names: Set<Seq<char>>, g: IrGen)
    requires
        g.vars.dom().finite(),
    ensures
        ({
            let (r, g2) = spec_visit(ExprV::While { cond: Box::new(cond), body: Box::new(body), loc, t }, names, g);
            let (n0, n) = (g.instrs.len() as int, g2.instrs.len() as int);
            &&& n0 < n
            &&& g2.instrs[n0] matches InstrV::Label(ls) && numbered_label(ls, g.instrs, "while_start"@, loc)
            &&& r is Ok ==> {
                &&& g2.instrs[n - 1] matches InstrV::Label(le) && numbered_label(le, g.instrs, "while_end"@, loc)
                &&& g2.instrs[n - 2] == (InstrV::Jump { label: g2.instrs[n0]->0, loc })
                &&& exists|k: int|
                    #![trigger g2.instrs[k]]
                    n0 < k < n - 2 && (g2.instrs[k] matches InstrV::CondJump { then_label, else_label, .. }
                        && g2.instrs[k + 1] == InstrV::Label(then_label) && InstrV::Label(else_label) == g2.instrs[n
                        - 1] && numbered_label(then_label, g.instrs, "while_body"@, body.loc()))
            }
        }),
{
    let e = ExprV::While { cond: Box::new(cond), body: Box::new(body), loc, t };
    let n0 = g.instrs.len() as int;
    let l_start = label_for(g.instrs, "while_start"@, loc);
    let l_body = label_for(g.instrs, "while_body"@, body.loc());
    let l_end = label_for(g.instrs, "while_end"@, loc);
    law_label_numbering(g.instrs, "while_start"@, loc);
    law_label_numbering(g.instrs, "while_body"@, body.loc());
    law_label_numbering(g.instrs, "while_end"@, loc);
    let g0 = emit(g, InstrV::Label(l_start));
    law_lowering_appends(cond, names, g0);
    let (rc, g1) = spec_visit(cond, names, g0);
    assert(g1.instrs[n0] == g1.instrs.subrange(0, g0.instrs.len() as int)[n0]);
    assert(g1.instrs[n0] == InstrV::Label(l_start));
    if let Ok(c) = rc {
        let k = g1.instrs.len() as int;
        let g2 = emit(
            emit(g1, InstrV::CondJump { cond: c, then_label: l_body, else_label: l_end, loc }),
            InstrV::Label(l_body),
        );
        law_lowering_appends(body, names, g2);
        let (rb, g3) = spec_visit(body, names, g2);
        assert(g3.instrs[n0] == g3.instrs.subrange(0, g2.instrs.len() as int)[n0]);
        assert(g3.instrs[k] == g3.instrs.subrange(0, g2.instrs.len() as int)[k]);
        assert(g3.instrs[k + 1] == g3.instrs.subrange(0, g2.instrs.len() as int)[k + 1]);
        if rb is Ok {
            let fin = emit(emit(g3, InstrV::Jump { label: l_start, loc }), InstrV::Label(l_end));
            assert(spec_visit(e, names, g).1 == fin);
            assert(fin.instrs[k] == g3.instrs[k]);
            assert(fin.instrs[k + 1] == g3.instrs[k + 1]);
            assert(fin.instrs[n0] == g3.instrs[n0]);
        }
    }
}

/// [`law_lowering_appends`] for a sequence of trees.
pub proof fn law_lowering_seq_appends(s: Seq<ExprV>, names: Set<Seq<char>>, g: IrGen)
    requires
        g.vars.dom().finite(),
    ensures
        extends(g, spec_visit_seq(s, names, g).1),
    decreases sizes(s), 2int,
{
    lemma_extends_refl(g);
    if s.len() > 0 {
        lemma_size_positive(s[0]);
        law_lowering_appends(s[0], names, g);
        let (r, g1) = spec_visit(s[0], names, g);
        if r is Ok {
            law_lowering_seq_appends(s.subrange(1, s.len() as int), names, g1);
            lemma_extends_trans(g, g1, spec_visit_seq(s.subrange(1, s.len() as int), names, g1).1);
        }
    }
}

/// The state of a lowering held in `ins` and `var_types`.
pub open spec fn gen_of<'a>(ins: Seq<Instruction>, var_types: &SymTab<'a, Type>) -> IrGen {
    IrGen { instrs: instrs_view(ins), vars: var_env(var_types) }
}

/// The names in scope in `st`.
pub open spec fn scope_names<'a>(st: &SymTab<'a, IRVar>) -> Set<Seq<char>> {
    Set::new(|n: Seq<char>| st.lookup(n).is_some())
}

/// Every name in scope in `st` stands for the variable of that name.
pub open spec fn names_match<'a>(st: &SymTab<'a, IRVar>) -> bool {
    forall|n: Seq<char>| #[trigger] st.lookup(n) matches Some(v) ==> v@ == n
}

/// `r` and the state `after` are what the lowering `s` gives.
pub open spec fn lowered(r: Result<IRVar, IrError>, after: IrGen, s: Lowered) -> bool {
    &&& after == s.1
    &&& match s.0 {
        Ok(n) => r matches Ok(v) && v@ == n,
        Err(e) => r matches Err(x) && x@ == e,
    }
}

fn push_instr(ins: &mut Vec<Instruction>, i: Instruction)
    ensures
        instrs_view(final(ins)@) == instrs_view(old(ins)@).push(i@),
{
    let ghost iv = i@;
    ins.push(i);
    assert(instrs_view(ins@) =~= instrs_view(old(ins)@).push(iv));
}

/// Lowers `expr` (see [`spec_visit`]), emitting into `ins` and adding the
/// variables it makes to `var_types`.
fn visit(st: &SymTab<IRVar>, expr: &Expression, ins: &mut Vec<Instruction>, var_types: &mut SymTab<Type>) -> (r:
    Result<IRVar, IrError>)
    requires
        names_match(st),
        old(var_types).parent_scope().is_none(),
    ensures
        final(var_types).parent_scope().is_none(),
        lowered(
            r,
            gen_of(final(ins)@, final(var_types)),
            spec_visit(expr@, scope_names(st), gen_of(old(ins)@, old(var_types))),
        ),
        extends(gen_of(old(ins)@, old(var_types)), gen_of(final(ins)@, final(var_types))),
    decreases size(expr@), 2int,
{
    proof {
        lemma_var_env_finite(var_types);
        let g0 = gen_of(ins@, var_types);
        law_lowering_appends(expr@, scope_names(st), g0);
        lemma_extends_refl(g0);
    }
    let loc = expr.get_loc().clone();
    match expr {
        Expression::Literal(l) => match &l.value {
            None => Ok(IRVar::new("unit")),
            Some(LiteralValue::Int(v)) => {
                let var = new_var(Type::Int, var_types);
                push_instr(ins, Instruction::LoadIntConst(LoadIntConst::new(*v, var.clone(), loc)));
                Ok(var)
            },
            Some(LiteralValue::Bool(b)) => {
                let var = new_var(Type::Bool, var_types);
                push_instr(ins, Instruction::LoadBoolConst(LoadBoolConst::new(*b, var.clone(), loc)));
                Ok(var)
            },
        },
        Expression::Identifier(i) => match st.get(i.name.as_str()) {
            Some(v) => Ok(v.clone()),
            None => Err(IrError::VarNotFound(i.name.clone())),
        },
        Expression::BinaryOp(_) => visit_binary_op(st, expr, ins, var_types),
        Expression::If(_) => visit_if(st, expr, ins, var_types),
        Expression::Block(_) => visit_block(st, expr, ins, var_types),
        Expression::While(_) => visit_while(st, expr, ins, var_types),
        _ => Err(IrError::UnknownExpression(loc)),
    }
}

fn visit_binary_op(
    st: &SymTab<IRVar>,
    expr: &Expression,
    ins: &mut Vec<Instruction>,
    var_types: &mut SymTab<Type>,
) -> (r: Result<IRVar, IrError>)
    requires
        names_match(st),
        old(var_types).parent_scope().is_none(),
        expr is BinaryOp,
    ensures
        final(var_types).parent_scope().is_none(),
        lowered(
            r,
            gen_of(final(ins)@, final(var_types)),
            spec_visit(expr@, scope_names(st), gen_of(old(ins)@, old(var_types))),
        ),
        extends(gen_of(old(ins)@, old(var_types)), gen_of(final(ins)@, final(var_types))),
    decreases size(expr@), 1int,
{
    let ghost names = scope_names(st);
    let ghost g0 = gen_of(ins@, var_types);
    proof {
        lemma_var_env_finite(var_types);
        law_lowering_appends(expr@, names, g0);
        lemma_extends_refl(g0);
    }
    match expr {
        Expression::BinaryOp(b) => {
            let loc = b.loc.clone();
            let var_op = match st.get(b.op.as_str()) {
                Some(v) => v.clone(),
                None => return Err(IrError::UnknownOperator(b.op.clone())),
            };
            let var_left = match visit(st, &b.left, ins, var_types) {
                Ok(v) => v,
                Err(x) => return Err(x),
            };
            let var_right = match visit(st, &b.right, ins, var_types) {
                Ok(v) => v,
                Err(x) => return Err(x),
            };
            let ghost g2 = gen_of(ins@, var_types);
            let var_result = new_var(b.t.copy(), var_types);
            let ghost g3 = gen_of(ins@, var_types);
            proof {
                assert(with_fresh(g2, b.t@) == (var_result@, g3));
            }
            let mut args: Vec<IRVar> = Vec::new();
            args.push(var_left);
            args.push(var_right);
            let ghost call = InstrV::Call {
                fun: var_op@,
                args: seq![var_left@, var_right@],
                dest: var_result@,
                loc: loc@,
            };
            let i = Instruction::Call(Call::new(var_op, args, var_result.clone(), loc));
            proof {
                assert(i@ == call) by {
                    assert(super::ir::vars_view(args@) =~= seq![var_left@, var_right@]);
                }
            }
            push_instr(ins, i);
            proof {
                assert(gen_of(ins@, var_types) == emit(g3, call));
            }
            Ok(var_result)
        },
        _ => {
            proof {
                assert(false);
            }
            Err(IrError::UnknownExpression(expr.get_loc().clone()))
        },
    }
}

fn visit_if(st: &SymTab<IRVar>, expr: &Expression, ins: &mut Vec<Instruction>, var_types: &mut SymTab<Type>) -> (r:
    Result<IRVar, IrError>)
    requires
        names_match(st),
        old(var_types).parent_scope().is_none(),
        expr is If,
    ensures
        final(var_types).parent_scope().is_none(),
        lowered(
            r,
            gen_of(final(ins)@, final(var_types)),
            spec_visit(expr@, scope_names(st), gen_of(old(ins)@, old(var_types))),
        ),
        extends(gen_of(old(ins)@, old(var_types)), gen_of(final(ins)@, final(var_types))),
    decreases size(expr@), 1int,
{
    let ghost names = scope_names(st);
    let ghost g0 = gen_of(ins@, var_types);
    proof {
        lemma_var_env_finite(var_types);
        law_lowering_appends(expr@, names, g0);
        lemma_extends_refl(g0);
    }
    match expr {
        Expression::If(i) => {
            let loc = i.loc.clone();
            let tloc = i.then_branch.get_loc().clone();
            let l_then = new_label(ins, "then", tloc.clone());
            match &i.else_branch {
                Some(els) => {
                    let l_else = new_label(ins, "else", els.get_loc().clone());
                    let l_end = new_label(ins, "if_end", loc.clone());
                    let var_cond = match visit(st, &i.cond, ins, var_types) {
                        Ok(v) => v,
                        Err(x) => return Err(x),
                    };
                    let ghost g1 = gen_of(ins@, var_types);
                    let if_var = new_var(i.t.copy(), var_types);
                    let ghost g2 = gen_of(ins@, var_types);
                    proof {
                        assert(with_fresh(g1, i.t@) == (if_var@, g2));
                    }
                    push_instr(
                        ins,
                        Instruction::CondJump(CondJump::new(var_cond, l_then.clone(), l_else.clone(), loc.clone())),
                    );
                    push_instr(ins, Instruction::Label(l_then));
                    let then_var = match visit(st, &i.then_branch, ins, var_types) {
                        Ok(v) => v,
                        Err(x) => return Err(x),
                    };
                    push_instr(
                        ins,
                        Instruction::Copy(crate::compiler::ir::Copy::new(then_var, if_var.clone(), tloc.clone())),
                    );
                    push_instr(ins, Instruction::Jump(Jump::new(l_end.clone(), tloc.clone())));
                    push_instr(ins, Instruction::Label(l_else));
                    let else_var = match visit(st, els, ins, var_types) {
                        Ok(v) => v,
                        Err(x) => return Err(x),
                    };
                    push_instr(
                        ins,
                        Instruction::Copy(crate::compiler::ir::Copy::new(else_var, if_var.clone(), tloc)),
                    );
                    push_instr(ins, Instruction::Label(l_end));
                    Ok(if_var)
                },
                None => {
                    let l_end = new_label(ins, "if_end", loc.clone());
                    let var_cond = match visit(st, &i.cond, ins, var_types) {
                        Ok(v) => v,
                        Err(x) => return Err(x),
                    };
                    push_instr(
                        ins,
                        Instruction::CondJump(CondJump::new(var_cond, l_then.clone(), l_end.clone(), loc)),
                    );
                    push_instr(ins, Instruction::Label(l_then));
                    match visit(st, &i.then_branch, ins, var_types) {
                        Ok(_) => {},
                        Err(x) => return Err(x),
                    }
                    push_instr(ins, Instruction::Label(l_end));
                    Ok(IRVar::new("unit"))
                },
            }
        },
        _ => {
            proof {
                assert(false);
            }
            Err(IrError::UnknownExpression(expr.get_loc().clone()))
        },
    }
}

#[verifier::loop_isolation(false)]
fn visit_block(
    st: &SymTab<IRVar>,
    expr: &Expression,
    ins: &mut Vec<Instruction>,
    var_types: &mut SymTab<Type>,
) -> (r: Result<IRVar, IrError>)
    requires
        names_match(st),
        old(var_types).parent_scope().is_none(),
        expr is Block,
    ensures
        final(var_types).parent_scope().is_none(),
        lowered(
            r,
            gen_of(final(ins)@, final(var_types)),
            spec_visit(expr@, scope_names(st), gen_of(old(ins)@, old(var_types))),
        ),
        extends(gen_of(old(ins)@, old(var_types)), gen_of(final(ins)@, final(var_types))),
    decreases size(expr@), 1int,
{
    let ghost names = scope_names(st);
    let ghost g0 = gen_of(ins@, var_types);
    proof {
        lemma_var_env_finite(var_types);
        law_lowering_appends(expr@, names, g0);
        lemma_extends_refl(g0);
    }
    match expr {
        Expression::Block(b) => {
            let ghost sv = exprs_value(b.statements@);
            proof {
                lemma_exprs_value(b.statements@);
                lemma_sizes(sv);
                assert(sv.subrange(0, sv.len() as int) =~= sv);
            }
            let mut k: usize = 0;
            while k < b.statements.len()
                invariant
                    k <= b.statements@.len(),
                    sv == exprs_value(b.statements@),
                    sv.len() == b.statements@.len(),
                    forall|j: int| 0 <= j < sv.len() ==> #[trigger] sv[j] == b.statements@[j]@,
                    forall|j: int| 0 <= j < sv.len() ==> #[trigger] size(sv[j]) <= sizes(sv),
                    size(expr@) == 1 + sizes(sv),
                    names == scope_names(st),
                    names_match(st),
                    var_types.parent_scope().is_none(),
                    spec_visit_seq(sv, names, g0) == spec_visit_seq(
                        sv.subrange(k as int, sv.len() as int),
                        names,
                        gen_of(ins@, var_types),
                    ),
                decreases b.statements@.len() - k,
            {
                proof {
                    let rest = sv.subrange(k as int, sv.len() as int);
                    assert(rest.subrange(1, rest.len() as int) =~= sv.subrange(k + 1, sv.len() as int));
                    assert(rest[0] == sv[k as int]);
                }
                let ghost gk = gen_of(ins@, var_types);
                match visit(st, &b.statements[k], ins, var_types) {
                    Ok(_) => {
                    },
                    Err(x) => {
                        proof {
                            assert(spec_visit(sv[k as int], names, gk).0 == Result::<Seq<char>, IrErrV>::Err(x@));
                            assert(spec_visit_seq(sv, names, g0) == (Result::<(), IrErrV>::Err(x@), gen_of(ins@, var_types)));
                        }
                        return Err(x);
                    },
                }
                k = k + 1;
            }
            proof {
                assert(sv.subrange(k as int, sv.len() as int).len() == 0);
            }
            let block_var = new_var(b.t.copy(), var_types);
            Ok(block_var)
        },
        _ => {
            proof {
                assert(false);
            }
            Err(IrError::UnknownExpression(expr.get_loc().clone()))
        },
    }
}

fn visit_while(
    st: &SymTab<IRVar>,
    expr: &Expression,
    ins: &mut Vec<Instruction>,
    var_types: &mut SymTab<Type>,
) -> (r: Result<IRVar, IrError>)
    requires
        names_match(st),
        old(var_types).parent_scope().is_none(),
        expr is While,
    ensures
        final(var_types).parent_scope().is_none(),
        lowered(
            r,
            gen_of(final(ins)@, final(var_types)),
            spec_visit(expr@, scope_names(st), gen_of(old(ins)@, old(var_types))),
        ),
        extends(gen_of(old(ins)@, old(var_types)), gen_of(final(ins)@, final(var_types))),
    decreases size(expr@), 1int,
{
    let ghost names = scope_names(st);
    let ghost g0 = gen_of(ins@, var_types);
    proof {
        lemma_var_env_finite(var_types);
        law_lowering_appends(expr@, names, g0);
        lemma_extends_refl(g0);
    }
    match expr {
        Expression::While(w) => {
            let loc = w.loc.clone();
            let l_while = new_label(ins, "while_start", loc.clone());
            let l_body = new_label(ins, "while_body", w.body.get_loc().clone());
            let l_end = new_label(ins, "while_end", loc.clone());
            push_instr(ins, Instruction::Label(l_while.clone()));
            let var_cond = match visit(st, &w.cond, ins, var_types) {
                Ok(v) => v,
                Err(x) => return Err(x),
            };
            push_instr(
                ins,
                Instruction::CondJump(CondJump::new(var_cond, l_body.clone(), l_end.clone(), loc.clone())),
            );
            push_instr(ins, Instruction::Label(l_body));
            match visit(st, &w.body, ins, var_types) {
                Ok(_) => {},
                Err(x) => return Err(x),
            }
            push_instr(ins, Instruction::Jump(Jump::new(l_while, loc)));
            push_instr(ins, Instruction::Label(l_end));
            Ok(IRVar::new("unit"))
        },
        _ => {
            proof {
                assert(false);
            }
            Err(IrError::UnknownExpression(expr.get_loc().clone()))
        },
    }
}

// ---------------------------------------------------------------------------
// The whole program
// ---------------------------------------------------------------------------
/// The names of `roots` with their types; the first binding of a name counts.
pub open spec fn root_env(roots: Seq<(Seq<char>, TypeV)>) -> Env
    decreases roots.len(),
{
    if roots.len() == 0 {
        Map::empty()
    } else {
        root_env(roots.drop_first()).insert(roots[0].0, roots[0].1)
    }
}

pub open spec fn roots_view(roots: Seq<(IRVar, Type)>) -> Seq<(Seq<char>, TypeV)> {
    roots.map_values(|p: (IRVar, Type)| (p.0@, p.1@))
}

/// The bindings `locals` of a scope, taken by their values.
pub open spec fn bindings_view(locals: Seq<(String, Type)>) -> Seq<(Seq<char>, TypeV)> {
    locals.map_values(|p: (String, Type)| (p.0@, p.1@))
}

/// The environment of the bindings of a scope is what looking names up in
/// that scope gives.
pub proof fn lemma_root_env_bindings(locals: Seq<(String, Type)>)
    ensures
        forall|n: Seq<char>| #[trigger]
            root_env(bindings_view(locals)).contains_key(n) == local_lookup(locals, n).is_some(),
        forall|n: Seq<char>| #[trigger]
            local_lookup(locals, n).is_some() ==> root_env(bindings_view(locals))[n] == local_lookup(
                locals,
                n,
            ).unwrap()@,
    decreases locals.len(),
{
    let bv = bindings_view(locals);
    if locals.len() > 0 {
        let rest = locals.drop_first();
        lemma_root_env_bindings(rest);
        assert(bv.drop_first() =~= bindings_view(rest));
        assert(bv[0] == (locals[0].0@, locals[0].1@));
        assert(root_env(bv) == root_env(bindings_view(rest)).insert(locals[0].0@, locals[0].1@));
        assert forall|n: Seq<char>| #[trigger] local_lookup(locals, n).is_some() implies root_env(bv)[n]
            == local_lookup(locals, n).unwrap()@ by {
            if n != locals[0].0@ {
                assert(local_lookup(locals, n) == local_lookup(rest, n));
            }
        }
    } else {
        assert(root_env(bv) == Map::<Seq<char>, TypeV>::empty());
    }
}

/// The call that prints `v` with the function `fun`, into a fresh variable of
/// type `t`, after the state `g`.
pub open spec fn print_call(g: IrGen, fun: Seq<char>, v: Seq<char>, t: TypeV) -> Seq<InstrV> {
    let (x, _) = fresh_var(g.vars, t);
    g.instrs.push(InstrV::Call { fun, args: seq![v], dest: x, loc: special_loc() })
}

/// The program for the tree `root`, where `roots` are the variables and
/// functions in scope with their types: the lowering of `root` (see
/// [`spec_visit`]) with `unit` of type `Unit` added to the variables, followed
/// by a call of `print_int` or `print_bool` on its value when that value is an
/// integer or a boolean.
pub open spec fn spec_generate(roots: Env, root: ExprV) -> Result<Seq<InstrV>, IrErrV> {
    let g0 = IrGen { instrs: seq![], vars: roots.insert(unit_name(), TypeV::Unit) };
    let (r, g) = spec_visit(root, roots.dom(), g0);
    match r {
        Err(x) => Err(x),
        Ok(v) => if g.vars.contains_key(v) && g.vars[v] == TypeV::Int {
            Ok(print_call(g, "print_int"@, v, TypeV::Int))
        } else if g.vars.contains_key(v) && g.vars[v] == TypeV::Bool {
            Ok(print_call(g, "print_bool"@, v, TypeV::Bool))
        } else {
            Ok(g.instrs)
        },
    }
}

/// `r` is the program or the error that `s` gives.
pub open spec fn generated(r: Result<Vec<Instruction>, IrError>, s: Result<Seq<InstrV>, IrErrV>) -> bool {
    match s {
        Ok(instrs) => r matches Ok(v) && instrs_view(v@) == instrs,
        Err(e) => r matches Err(x) && x@ == e,
    }
}

/// Emits the call of `fun` on `v` into a fresh variable of type `t`.
fn push_print(ins: &mut Vec<Instruction>, var_types: &mut SymTab<Type>, fun: &str, v: IRVar, t: Type)
    requires
        old(var_types).parent_scope().is_none(),
    ensures
        instrs_view(final(ins)@) == print_call(gen_of(old(ins)@, old(var_types)), fun@, v@, t@),
{
    let ghost g = gen_of(ins@, var_types);
    let ghost tv = t@;
    let mut args: Vec<IRVar> = Vec::new();
    args.push(v);
    let dest = new_var(t, var_types);
    let ghost call = InstrV::Call { fun: fun@, args: seq![v@], dest: dest@, loc: special_loc() };
    let i = Instruction::Call(Call::new(IRVar::new(fun), args, dest, Location::special()));
    proof {
        assert(super::ir::vars_view(args@) =~= seq![v@]);
        assert(i@ == call);
    }
    push_instr(ins, i);
}

/// Generates the program for `root_expr` (see [`spec_generate`]), where
/// `root_types` are the variables and functions in scope with their types (the
/// first binding of a name counts).
pub fn generate_ir(root_types: Vec<(IRVar, Type)>, root_expr: Expression) -> (r: Result<
    Vec<Instruction>,
    IrError,
>)
    ensures
        generated(r, spec_generate(root_env(roots_view(root_types@)), root_expr@)),
{
    let ghost rv = roots_view(root_types@);
    let mut var_types: SymTab<Type> = SymTab::new();
    let mut root_symtab: SymTab<IRVar> = SymTab::new();
    let mut k: usize = root_types.len();
    proof {
        assert(rv.subrange(k as int, rv.len() as int).len() == 0);
        assert(var_env(&var_types) =~= Map::<Seq<char>, TypeV>::empty());
        assert(scope_names(&root_symtab) =~= Set::<Seq<char>>::empty());
    }
    while k > 0
        invariant
            k <= root_types@.len(),
            rv == roots_view(root_types@),
            rv.len() == root_types@.len(),
            var_types.parent_scope().is_none(),
            var_env(&var_types) == root_env(rv.subrange(k as int, rv.len() as int)),
            scope_names(&root_symtab) == root_env(rv.subrange(k as int, rv.len() as int)).dom(),
            names_match(&root_symtab),
        decreases k,
    {
        k = k - 1;
        let ghost before_vars = var_env(&var_types);
        let ghost before_names = scope_names(&root_symtab);
        var_types.insert(root_types[k].0.name.as_str(), root_types[k].1.copy());
        root_symtab.insert(root_types[k].0.name.as_str(), root_types[k].0.clone());
        proof {
            let s = rv.subrange(k as int, rv.len() as int);
            assert(s.drop_first() =~= rv.subrange(k + 1, rv.len() as int));
            assert(s[0] == rv[k as int]);
            assert(var_env(&var_types) =~= before_vars.insert(s[0].0, s[0].1));
            assert(scope_names(&root_symtab) =~= before_names.insert(s[0].0));
        }
    }
    proof {
        assert(rv.subrange(0, rv.len() as int) =~= rv);
    }
    let ghost roots = root_env(rv);
    var_types.insert("unit", Type::Unit);
    proof {
        assert(var_env(&var_types) =~= roots.insert(unit_name(), TypeV::Unit));
    }
    let mut ins: Vec<Instruction> = Vec::new();
    proof {
        assert(instrs_view(ins@) =~= Seq::<InstrV>::empty());
    }
    let var_final_result = match visit(&root_symtab, &root_expr, &mut ins, &mut var_types) {
        Ok(v) => v,
        Err(x) => return Err(x),
    };
    let is_int = match var_types.get(var_final_result.name.as_str()) {
        Some(t) => t.type_eq(&Type::Int),
        None => false,
    };
    let is_bool = match var_types.get(var_final_result.name.as_str()) {
        Some(t) => t.type_eq(&Type::Bool),
        None => false,
    };
    if is_int {
        push_print(&mut ins, &mut var_types, "print_int", var_final_result, Type::Int);
    } else if is_bool {
        push_print(&mut ins, &mut var_types, "print_bool", var_final_result, Type::Bool);
    }
    Ok(ins)
}

} // verus!
