//! The abstract syntax tree. Every node carries the location where it starts
//! and a type slot that the type checker fills in.
use super::tokenizer::{loc_eq, LocV, Location};
use super::types::{Type, TypeV};
use vstd::prelude::*;
use vstd::std_specs::cmp::PartialEqSpecImpl;
use vstd::std_specs::convert::FromSpecImpl;

verus! {

broadcast use vstd::std_specs::vec::group_vec_axioms;

/// The value of a literal.
#[derive(Debug, Clone, Copy, PartialEq, Eq, Structural)]
pub enum LiteralValue {
    Int(i8),
    Bool(bool),
}

impl From<i8> for LiteralValue {
    fn from(value: i8) -> (r: Self) {
        LiteralValue::Int(value)
    }
}

impl FromSpecImpl<i8> for LiteralValue {
    open spec fn obeys_from_spec() -> bool {
        true
    }

    open spec fn from_spec(value: i8) -> Self {
        LiteralValue::Int(value)
    }
}

impl From<bool> for LiteralValue {
    fn from(value: bool) -> (r: Self) {
        LiteralValue::Bool(value)
    }
}

impl FromSpecImpl<bool> for LiteralValue {
    open spec fn obeys_from_spec() -> bool {
        true
    }

    open spec fn from_spec(value: bool) -> Self {
        LiteralValue::Bool(value)
    }
}

/// An integer or boolean literal, or the unit value (no value).
#[derive(Debug)]
pub struct Literal {
    pub value: Option<LiteralValue>,
    pub loc: Location,
    pub t: Type,
}

/// A variable or function name.
#[derive(Debug)]
pub struct Identifier {
    pub name: String,
    pub loc: Location,
    pub t: Type,
}

/// `left op right`, where `op` is an operator or `=` (assignment).
#[derive(Debug)]
pub struct BinaryOp {
    pub left: Box<Expression>,
    pub op: String,
    pub right: Box<Expression>,
    pub loc: Location,
    pub t: Type,
}

/// `if cond then then_branch [else else_branch]`.
#[derive(Debug)]
pub struct If {
    pub cond: Box<Expression>,
    pub then_branch: Box<Expression>,
    pub else_branch: Option<Box<Expression>>,
    pub loc: Location,
    pub t: Type,
}

/// `name(args...)`.
#[derive(Debug)]
pub struct FunctionCall {
    pub name: Identifier,
    pub args: Vec<Expression>,
    pub loc: Location,
    pub t: Type,
}

/// `{ statements... }`; the last statement gives the block its value.
#[derive(Debug)]
pub struct Block {
    pub statements: Vec<Expression>,
    pub loc: Location,
    pub t: Type,
}

/// `var name [: declared_type] = initializer`.
#[derive(Debug)]
pub struct VarDeclaration {
    pub var: Identifier,
    pub declared_type: Option<Type>,
    pub initializer: Box<Expression>,
    pub loc: Location,
    pub t: Type,
}

/// `while cond do body`.
#[derive(Debug)]
pub struct While {
    pub cond: Box<Expression>,
    pub body: Box<Expression>,
    pub loc: Location,
    pub t: Type,
}

/// `op right`, where `op` is `-` or `not`.
#[derive(Debug)]
pub struct UnaryOp {
    pub op: String,
    pub right: Box<Expression>,
    pub loc: Location,
    pub t: Type,
}

/// An expression: one node of the tree.
#[derive(Debug)]
pub enum Expression {
    Literal(Literal),
    Identifier(Identifier),
    BinaryOp(BinaryOp),
    If(If),
    FunctionCall(FunctionCall),
    Block(Block),
    VarDeclaration(VarDeclaration),
    While(While),
    UnaryOp(UnaryOp),
}

/// The value of an [`Identifier`].
pub struct IdentV {
    pub name: Seq<char>,
    pub loc: LocV,
    pub t: TypeV,
}

/// The value of an [`Expression`].
pub enum ExprV {
    Literal { value: Option<LiteralValue>, loc: LocV, t: TypeV },
    Identifier { id: IdentV },
    BinaryOp { left: Box<ExprV>, op: Seq<char>, right: Box<ExprV>, loc: LocV, t: TypeV },
    If {
        cond: Box<ExprV>,
        then_branch: Box<ExprV>,
        else_branch: Option<Box<ExprV>>,
        loc: LocV,
        t: TypeV,
    },
    FunctionCall { name: IdentV, args: Seq<ExprV>, loc: LocV, t: TypeV },
    Block { statements: Seq<ExprV>, loc: LocV, t: TypeV },
    VarDeclaration {
        var: IdentV,
        declared_type: Option<TypeV>,
        initializer: Box<ExprV>,
        loc: LocV,
        t: TypeV,
    },
    While { cond: Box<ExprV>, body: Box<ExprV>, loc: LocV, t: TypeV },
    UnaryOp { op: Seq<char>, right: Box<ExprV>, loc: LocV, t: TypeV },
}

impl Identifier {
    pub open spec fn value(&self) -> IdentV {
        IdentV { name: self.name@, loc: self.loc@, t: self.t@ }
    }
}

pub open spec fn opt_type_value(t: Option<Type>) -> Option<TypeV> {
    match t {
        Some(t) => Some(t@),
        None => None,
    }
}

impl Expression {
    /// The value of this expression.
    pub open spec fn value(&self) -> ExprV
        decreases self,
    {
        match self {
            Expression::Literal(l) => ExprV::Literal { value: l.value, loc: l.loc@, t: l.t@ },
            Expression::Identifier(i) => ExprV::Identifier { id: i.value() },
            Expression::BinaryOp(b) => ExprV::BinaryOp {
                left: Box::new((*b.left).value()),
                op: b.op@,
                right: Box::new((*b.right).value()),
                loc: b.loc@,
                t: b.t@,
            },
            Expression::If(i) => ExprV::If {
                cond: Box::new((*i.cond).value()),
                then_branch: Box::new((*i.then_branch).value()),
                else_branch: match &i.else_branch {
                    Some(e) => Some(Box::new((**e).value())),
                    None => None,
                },
                loc: i.loc@,
                t: i.t@,
            },
            Expression::FunctionCall(f) => ExprV::FunctionCall {
                name: f.name.value(),
                args: exprs_value(f.args@),
                loc: f.loc@,
                t: f.t@,
            },
            Expression::Block(b) => ExprV::Block {
                statements: exprs_value(b.statements@),
                loc: b.loc@,
                t: b.t@,
            },
            Expression::VarDeclaration(v) => ExprV::VarDeclaration {
                var: v.var.value(),
                declared_type: opt_type_value(v.declared_type),
                initializer: Box::new((*v.initializer).value()),
                loc: v.loc@,
                t: v.t@,
            },
            Expression::While(w) => ExprV::While {
                cond: Box::new((*w.cond).value()),
                body: Box::new((*w.body).value()),
                loc: w.loc@,
                t: w.t@,
            },
            Expression::UnaryOp(u) => ExprV::UnaryOp {
                op: u.op@,
                right: Box::new((*u.right).value()),
                loc: u.loc@,
                t: u.t@,
            },
        }
    }
}

/// The values of a sequence of expressions.
pub open spec fn exprs_value(s: Seq<Expression>) -> Seq<ExprV>
    decreases s,
{
    if s.len() == 0 {
        seq![]
    } else {
        seq![s[0].value()] + exprs_value(s.subrange(1, s.len() as int))
    }
}

impl View for Expression {
    type V = ExprV;

    open spec fn view(&self) -> ExprV {
        self.value()
    }
}

pub proof fn lemma_exprs_value(s: Seq<Expression>)
    ensures
        exprs_value(s).len() == s.len(),
        forall|i: int| 0 <= i < s.len() ==> #[trigger] exprs_value(s)[i] == s[i].value(),
    decreases s.len(),
{
    if s.len() > 0 {
        let t = s.subrange(1, s.len() as int);
        lemma_exprs_value(t);
        assert forall|i: int| 0 <= i < s.len() implies #[trigger] exprs_value(s)[i]
            == s[i].value() by {
            if i > 0 {
                assert(t[i - 1] == s[i]);
            }
        }
    }
}

pub proof fn lemma_exprs_value_push(s: Seq<Expression>, e: Expression)
    ensures
        exprs_value(s.push(e)) == exprs_value(s).push(e.value()),
{
    lemma_exprs_value(s);
    lemma_exprs_value(s.push(e));
    assert(exprs_value(s.push(e)) =~= exprs_value(s).push(e.value()));
}

impl ExprV {
    /// Where the expression starts.
    pub open spec fn loc(self) -> LocV {
        match self {
            ExprV::Literal { loc, .. } => loc,
            ExprV::Identifier { id } => id.loc,
            ExprV::BinaryOp { loc, .. } => loc,
            ExprV::If { loc, .. } => loc,
            ExprV::FunctionCall { loc, .. } => loc,
            ExprV::Block { loc, .. } => loc,
            ExprV::VarDeclaration { loc, .. } => loc,
            ExprV::While { loc, .. } => loc,
            ExprV::UnaryOp { loc, .. } => loc,
        }
    }

    /// The type slot of the expression.
    pub open spec fn ty(self) -> TypeV {
        match self {
            ExprV::Literal { t, .. } => t,
            ExprV::Identifier { id } => id.t,
            ExprV::BinaryOp { t, .. } => t,
            ExprV::If { t, .. } => t,
            ExprV::FunctionCall { t, .. } => t,
            ExprV::Block { t, .. } => t,
            ExprV::VarDeclaration { t, .. } => t,
            ExprV::While { t, .. } => t,
            ExprV::UnaryOp { t, .. } => t,
        }
    }

    /// The expression with its type slot set to `t`; a `while` has no type slot
    /// to set and stays as it is.
    pub open spec fn with_type(self, t: TypeV) -> ExprV {
        match self {
            ExprV::Literal { value, loc, .. } => ExprV::Literal { value, loc, t },
            ExprV::Identifier { id } => ExprV::Identifier { id: IdentV { t, ..id } },
            ExprV::BinaryOp { left, op, right, loc, .. } => ExprV::BinaryOp { left, op, right, loc, t },
            ExprV::If { cond, then_branch, else_branch, loc, .. } => ExprV::If {
                cond,
                then_branch,
                else_branch,
                loc,
                t,
            },
            ExprV::FunctionCall { name, args, loc, .. } => ExprV::FunctionCall { name, args, loc, t },
            ExprV::Block { statements, loc, .. } => ExprV::Block { statements, loc, t },
            ExprV::VarDeclaration { var, declared_type, initializer, loc, .. } => ExprV::VarDeclaration {
                var,
                declared_type,
                initializer,
                loc,
                t,
            },
            ExprV::While { .. } => self,
            ExprV::UnaryOp { op, right, loc, .. } => ExprV::UnaryOp { op, right, loc, t },
        }
    }

    /// Whether the expression ends with a block (`}`), so that no `;` has to
    /// follow it inside a block.
    pub open spec fn is_block(self) -> bool
        decreases self,
    {
        match self {
            ExprV::Literal { .. } => false,
            ExprV::Identifier { .. } => false,
            ExprV::FunctionCall { .. } => false,
            ExprV::Block { .. } => true,
            ExprV::BinaryOp { right, .. } => right.is_block(),
            ExprV::If { then_branch, else_branch, .. } => match else_branch {
                Some(e) => e.is_block(),
                None => then_branch.is_block(),
            },
            ExprV::VarDeclaration { initializer, .. } => initializer.is_block(),
            ExprV::While { body, .. } => body.is_block(),
            ExprV::UnaryOp { right, .. } => right.is_block(),
        }
    }
}


/// The tree `e` with every type slot set to `Unit`: what is left of a tree
/// when its types are ignored.
pub open spec fn strip(e: ExprV) -> ExprV
    decreases e,
{
    match e {
        ExprV::Literal { value, loc, .. } => ExprV::Literal { value, loc, t: TypeV::Unit },
        ExprV::Identifier { id } => ExprV::Identifier { id: IdentV { t: TypeV::Unit, ..id } },
        ExprV::BinaryOp { left, op, right, loc, .. } => ExprV::BinaryOp {
            left: Box::new(strip(*left)),
            op,
            right: Box::new(strip(*right)),
            loc,
            t: TypeV::Unit,
        },
        ExprV::If { cond, then_branch, else_branch, loc, .. } => ExprV::If {
            cond: Box::new(strip(*cond)),
            then_branch: Box::new(strip(*then_branch)),
            else_branch: match else_branch {
                Some(b) => Some(Box::new(strip(*b))),
                None => None,
            },
            loc,
            t: TypeV::Unit,
        },
        ExprV::FunctionCall { name, args, loc, .. } => ExprV::FunctionCall {
            name,
            args: strips(args),
            loc,
            t: TypeV::Unit,
        },
        ExprV::Block { statements, loc, .. } => ExprV::Block {
            statements: strips(statements),
            loc,
            t: TypeV::Unit,
        },
        ExprV::VarDeclaration { var, declared_type, initializer, loc, .. } => ExprV::VarDeclaration {
            var,
            declared_type,
            initializer: Box::new(strip(*initializer)),
            loc,
            t: TypeV::Unit,
        },
        ExprV::While { cond, body, loc, .. } => ExprV::While {
            cond: Box::new(strip(*cond)),
            body: Box::new(strip(*body)),
            loc,
            t: TypeV::Unit,
        },
        ExprV::UnaryOp { op, right, loc, .. } => ExprV::UnaryOp {
            op,
            right: Box::new(strip(*right)),
            loc,
            t: TypeV::Unit,
        },
    }
}

/// [`strip`] of every tree of `s`.
pub open spec fn strips(s: Seq<ExprV>) -> Seq<ExprV>
    decreases s,
{
    if s.len() == 0 {
        seq![]
    } else {
        seq![strip(s[0])] + strips(s.subrange(1, s.len() as int))
    }
}

pub proof fn lemma_strips(s: Seq<ExprV>)
    ensures
        strips(s).len() == s.len(),
        forall|i: int| 0 <= i < s.len() ==> #[trigger] strips(s)[i] == strip(s[i]),
    decreases s.len(),
{
    if s.len() > 0 {
        let t = s.subrange(1, s.len() as int);
        lemma_strips(t);
        assert forall|i: int| 0 <= i < s.len() implies #[trigger] strips(s)[i] == strip(s[i]) by {
            if i > 0 {
                assert(t[i - 1] == s[i]);
            }
        }
    }
}

/// Two sequences whose trees agree up to types have equal [`strips`].
pub proof fn lemma_strips_eq(a: Seq<ExprV>, b: Seq<ExprV>)
    requires
        a.len() == b.len(),
        forall|i: int| 0 <= i < a.len() ==> #[trigger] strip(a[i]) == strip(b[i]),
    ensures
        strips(a) == strips(b),
{
    lemma_strips(a);
    lemma_strips(b);
    assert(strips(a) =~= strips(b));
}

/// Structural equality of expressions, as the language compares trees:
/// locations and type slots are ignored, except in the name of a function call,
/// which is compared with its location and type.
pub open spec fn expr_eq(a: ExprV, b: ExprV) -> bool
    decreases a,
{
    match a {
        ExprV::Literal { value: v1, .. } => match b {
            ExprV::Literal { value: v2, .. } => v1 == v2,
            _ => false,
        },
        ExprV::Identifier { id: i1 } => match b {
            ExprV::Identifier { id: i2 } => i1.name == i2.name,
            _ => false,
        },
        ExprV::BinaryOp { left: l1, op: o1, right: r1, .. } => match b {
            ExprV::BinaryOp { left: l2, op: o2, right: r2, .. } => expr_eq(*l1, *l2) && o1 == o2
                && expr_eq(*r1, *r2),
            _ => false,
        },
        ExprV::If { cond: c1, then_branch: t1, else_branch: e1, .. } => match b {
            ExprV::If { cond: c2, then_branch: t2, else_branch: e2, .. } => expr_eq(*c1, *c2)
                && expr_eq(*t1, *t2) && match e1 {
                None => e2.is_none(),
                Some(x) => match e2 {
                    Some(y) => expr_eq(*x, *y),
                    None => false,
                },
            },
            _ => false,
        },
        ExprV::FunctionCall { name: n1, args: a1, .. } => match b {
            ExprV::FunctionCall { name: n2, args: a2, .. } => n1.name == n2.name && loc_eq(
                n1.loc,
                n2.loc,
            ) && n1.t == n2.t && exprs_eq(a1, a2),
            _ => false,
        },
        ExprV::Block { statements: s1, .. } => match b {
            ExprV::Block { statements: s2, .. } => exprs_eq(s1, s2),
            _ => false,
        },
        ExprV::VarDeclaration { var: v1, declared_type: d1, initializer: i1, .. } => match b {
            ExprV::VarDeclaration { var: v2, declared_type: d2, initializer: i2, .. } => v1.name
                == v2.name && expr_eq(*i1, *i2) && d1 == d2,
            _ => false,
        },
        ExprV::While { cond: c1, body: b1, .. } => match b {
            ExprV::While { cond: c2, body: b2, .. } => expr_eq(*c1, *c2) && expr_eq(*b1, *b2),
            _ => false,
        },
        ExprV::UnaryOp { op: o1, right: r1, .. } => match b {
            ExprV::UnaryOp { op: o2, right: r2, .. } => expr_eq(*r1, *r2) && o1 == o2,
            _ => false,
        },
    }
}

/// Element-wise [`expr_eq`] of two sequences of the same length.
pub open spec fn exprs_eq(a: Seq<ExprV>, b: Seq<ExprV>) -> bool
    decreases a,
{
    if a.len() != b.len() {
        false
    } else if a.len() == 0 {
        true
    } else {
        expr_eq(a[0], b[0]) && exprs_eq(a.subrange(1, a.len() as int), b.subrange(1, b.len() as int))
    }
}

pub proof fn lemma_exprs_eq(a: Seq<ExprV>, b: Seq<ExprV>)
    ensures
        exprs_eq(a, b) <==> (a.len() == b.len() && forall|i: int|
            0 <= i < a.len() ==> #[trigger] expr_eq(a[i], b[i])),
    decreases a.len(),
{
    if a.len() == b.len() && a.len() > 0 {
        let a1 = a.subrange(1, a.len() as int);
        let b1 = b.subrange(1, b.len() as int);
        lemma_exprs_eq(a1, b1);
        if forall|i: int| 0 <= i < a.len() ==> #[trigger] expr_eq(a[i], b[i]) {
            assert forall|i: int| 0 <= i < a1.len() implies #[trigger] expr_eq(a1[i], b1[i]) by {
                assert(a1[i] == a[i + 1] && b1[i] == b[i + 1]);
            }
            assert(expr_eq(a[0], b[0]));
        }
        if exprs_eq(a, b) {
            assert forall|i: int| 0 <= i < a.len() implies #[trigger] expr_eq(a[i], b[i]) by {
                if i > 0 {
                    assert(a1[i - 1] == a[i] && b1[i - 1] == b[i]);
                }
            }
        }
    }
}

fn opt_type_eq(a: &Option<Type>, b: &Option<Type>) -> (r: bool)
    ensures
        r == (opt_type_value(*a) == opt_type_value(*b)),
{
    match (a, b) {
        (None, None) => true,
        (Some(x), Some(y)) => x.type_eq(y),
        _ => false,
    }
}

impl Expression {
    /// Where the expression starts.
    pub fn get_loc(&self) -> (l: &Location)
        ensures
            l@ == self@.loc(),
    {
        match self {
            Expression::Literal(e) => &e.loc,
            Expression::Identifier(e) => &e.loc,
            Expression::BinaryOp(e) => &e.loc,
            Expression::If(e) => &e.loc,
            Expression::FunctionCall(e) => &e.loc,
            Expression::Block(e) => &e.loc,
            Expression::VarDeclaration(e) => &e.loc,
            Expression::While(e) => &e.loc,
            Expression::UnaryOp(e) => &e.loc,
        }
    }

    /// The type slot of the expression.
    pub fn get_type(&self) -> (t: &Type)
        ensures
            t@ == self@.ty(),
    {
        match self {
            Expression::Literal(e) => &e.t,
            Expression::Identifier(e) => &e.t,
            Expression::BinaryOp(e) => &e.t,
            Expression::If(e) => &e.t,
            Expression::FunctionCall(e) => &e.t,
            Expression::Block(e) => &e.t,
            Expression::VarDeclaration(e) => &e.t,
            Expression::While(e) => &e.t,
            Expression::UnaryOp(e) => &e.t,
        }
    }

    /// Sets the type slot; a `while` keeps its type.
    pub fn set_type(&mut self, t: Type)
        ensures
            final(self)@ == old(self)@.with_type(t@),
    {
        match self {
            Expression::Literal(e) => e.t = t,
            Expression::Identifier(e) => e.t = t,
            Expression::BinaryOp(e) => e.t = t,
            Expression::If(e) => e.t = t,
            Expression::FunctionCall(e) => e.t = t,
            Expression::Block(e) => e.t = t,
            Expression::VarDeclaration(e) => e.t = t,
            Expression::While(_) => {},
            Expression::UnaryOp(e) => e.t = t,
        }
    }

    /// Whether the expression ends with a block (see [`ExprV::is_block`]).
    pub fn is_block(&self) -> (r: bool)
        ensures
            r == self@.is_block(),
        decreases self,
    {
        match self {
            Expression::Literal(_) => false,
            Expression::Identifier(_) => false,
            Expression::FunctionCall(_) => false,
            Expression::Block(_) => true,
            Expression::BinaryOp(e) => e.right.is_block(),
            Expression::If(e) => match &e.else_branch {
                Some(x) => x.is_block(),
                None => e.then_branch.is_block(),
            },
            Expression::VarDeclaration(e) => e.initializer.is_block(),
            Expression::While(e) => e.body.is_block(),
            Expression::UnaryOp(e) => e.right.is_block(),
        }
    }

    /// Structural equality (see [`expr_eq`]).
    pub fn eq_expr(&self, other: &Expression) -> (r: bool)
        ensures
            r == expr_eq(self@, other@),
        decreases self,
    {
        match self {
            Expression::Literal(a) => match other {
                Expression::Literal(b) => a.value == b.value,
                _ => false,
            },
            Expression::Identifier(a) => match other {
                Expression::Identifier(b) => a.name == b.name,
                _ => false,
            },
            Expression::BinaryOp(a) => match other {
                Expression::BinaryOp(b) => a.left.eq_expr(&b.left) && a.op == b.op && a.right.eq_expr(
                    &b.right,
                ),
                _ => false,
            },
            Expression::If(a) => match other {
                Expression::If(b) => {
                    let c = a.cond.eq_expr(&b.cond);
                    let t = a.then_branch.eq_expr(&b.then_branch);
                    let e = match &a.else_branch {
                        None => b.else_branch.is_none(),
                        Some(x) => match &b.else_branch {
                            Some(y) => x.eq_expr(y),
                            None => false,
                        },
                    };
                    c && t && e
                },
                _ => false,
            },
            Expression::FunctionCall(a) => match other {
                Expression::FunctionCall(b) => a.name.name == b.name.name && a.name.loc.loc_equals(
                    &b.name.loc,
                ) && a.name.t.type_eq(&b.name.t) && exprs_equal(&a.args, &b.args),
                _ => false,
            },
            Expression::Block(a) => match other {
                Expression::Block(b) => exprs_equal(&a.statements, &b.statements),
                _ => false,
            },
            Expression::VarDeclaration(a) => match other {
                Expression::VarDeclaration(b) => a.var.name == b.var.name
                    && a.initializer.eq_expr(&b.initializer) && opt_type_eq(
                    &a.declared_type,
                    &b.declared_type,
                ),
                _ => false,
            },
            Expression::While(a) => match other {
                Expression::While(b) => a.cond.eq_expr(&b.cond) && a.body.eq_expr(&b.body),
                _ => false,
            },
            Expression::UnaryOp(a) => match other {
                Expression::UnaryOp(b) => a.right.eq_expr(&b.right) && a.op == b.op,
                _ => false,
            },
        }
    }
}

/// Element-wise structural equality (see [`exprs_eq`]).
#[verifier::loop_isolation(false)]
pub fn exprs_equal(a: &Vec<Expression>, b: &Vec<Expression>) -> (r: bool)
    ensures
        r == exprs_eq(exprs_value(a@), exprs_value(b@)),
    decreases a,
{
    proof {
        lemma_exprs_value(a@);
        lemma_exprs_value(b@);
        lemma_exprs_eq(exprs_value(a@), exprs_value(b@));
    }
    if a.len() != b.len() {
        return false;
    }
    let mut i: usize = 0;
    while i < a.len()
        invariant
            i <= a@.len(),
            a@.len() == b@.len(),
            forall|j: int| 0 <= j < i ==> #[trigger] expr_eq(a@[j].value(), b@[j].value()),
        decreases a@.len() - i,
    {
        if !a[i].eq_expr(&b[i]) {
            assert(!expr_eq(exprs_value(a@)[i as int], exprs_value(b@)[i as int]));
            return false;
        }
        i = i + 1;
    }
    assert forall|j: int| 0 <= j < a@.len() implies #[trigger] expr_eq(
        exprs_value(a@)[j],
        exprs_value(b@)[j],
    ) by {
        assert(expr_eq(a@[j].value(), b@[j].value()));
    }
    true
}

impl PartialEq for Expression {
    fn eq(&self, other: &Self) -> (r: bool) {
        self.eq_expr(other)
    }
}

impl PartialEqSpecImpl for Expression {
    open spec fn obeys_eq_spec() -> bool {
        true
    }

    open spec fn eq_spec(&self, other: &Expression) -> bool {
        expr_eq(self@, other@)
    }
}


impl Literal {
    /// A literal of `value` at `loc`, of type `Unit` until checked.
    pub fn new(value: LiteralValue, loc: Location) -> (r: Self)
        ensures
            r.value == Some(value),
            r.loc == loc,
            r.t@ == TypeV::Unit,
    {
        Literal { value: Some(value), loc, t: Type::Unit }
    }

    pub fn new_with_type(value: LiteralValue, loc: Location, t: Type) -> (r: Self)
        ensures
            r.value == Some(value),
            r.loc == loc,
            r.t == t,
    {
        Literal { value: Some(value), loc, t }
    }

    /// The unit value at `loc`.
    pub fn none(loc: Location) -> (r: Self)
        ensures
            r.value.is_none(),
            r.loc == loc,
            r.t@ == TypeV::Unit,
    {
        Literal { value: None, loc, t: Type::Unit }
    }
}

impl Identifier {
    pub fn new(name: &str, loc: Location) -> (r: Self)
        ensures
            r.name@ == name@,
            r.loc == loc,
            r.t@ == TypeV::Unit,
    {
        Identifier { name: name.to_owned(), loc, t: Type::Unit }
    }

    pub fn new_with_type(name: &str, loc: Location, t: Type) -> (r: Self)
        ensures
            r.name@ == name@,
            r.loc == loc,
            r.t == t,
    {
        Identifier { name: name.to_owned(), loc, t }
    }
}

impl BinaryOp {
    /// `left op right`, located where `left` starts.
    pub fn new(left: Box<Expression>, op: &str, right: Box<Expression>) -> (r: Self)
        ensures
            r.left == left,
            r.op@ == op@,
            r.right == right,
            r.loc@ == left@.loc(),
            r.t@ == TypeV::Unit,
    {
        BinaryOp { loc: left.get_loc().clone(), left, op: op.to_owned(), right, t: Type::Unit }
    }

    pub fn new_with_type(left: Box<Expression>, op: &str, right: Box<Expression>, t: Type) -> (r: Self)
        ensures
            r.left == left,
            r.op@ == op@,
            r.right == right,
            r.loc@ == left@.loc(),
            r.t == t,
    {
        BinaryOp { loc: left.get_loc().clone(), left, op: op.to_owned(), right, t }
    }
}

impl If {
    pub fn new(
        cond: Box<Expression>,
        then_branch: Box<Expression>,
        else_branch: Option<Box<Expression>>,
        loc: Location,
    ) -> (r: Self)
        ensures
            r.cond == cond,
            r.then_branch == then_branch,
            r.else_branch == else_branch,
            r.loc == loc,
            r.t@ == TypeV::Unit,
    {
        If { cond, then_branch, else_branch, loc, t: Type::Unit }
    }

    pub fn new_with_type(
        cond: Box<Expression>,
        then_branch: Box<Expression>,
        else_branch: Option<Box<Expression>>,
        loc: Location,
        t: Type,
    ) -> (r: Self)
        ensures
            r.cond == cond,
            r.then_branch == then_branch,
            r.else_branch == else_branch,
            r.loc == loc,
            r.t == t,
    {
        If { cond, then_branch, else_branch, loc, t }
    }
}

impl FunctionCall {
    /// `name(args...)`, located where the name is.
    pub fn new(name: Identifier, args: Vec<Expression>) -> (r: Self)
        ensures
            r.name == name,
            r.args == args,
            r.loc == name.loc,
            r.t@ == TypeV::Unit,
    {
        FunctionCall { loc: name.loc.clone(), name, args, t: Type::Unit }
    }

    pub fn new_with_type(name: Identifier, args: Vec<Expression>, t: Type) -> (r: Self)
        ensures
            r.name == name,
            r.args == args,
            r.loc == name.loc,
            r.t == t,
    {
        FunctionCall { loc: name.loc.clone(), name, args, t }
    }
}

impl Block {
    pub fn new(statements: Vec<Expression>, loc: Location) -> (r: Self)
        ensures
            r.statements == statements,
            r.loc == loc,
            r.t@ == TypeV::Unit,
    {
        Block { statements, loc, t: Type::Unit }
    }

    pub fn new_with_type(statements: Vec<Expression>, loc: Location, t: Type) -> (r: Self)
        ensures
            r.statements == statements,
            r.loc == loc,
            r.t == t,
    {
        Block { statements, loc, t }
    }
}

impl VarDeclaration {
    /// `var var [: declared_type] = initializer`, located where the name is.
    pub fn new(var: Identifier, declared_type: Option<Type>, initializer: Box<Expression>) -> (r: Self)
        ensures
            r.var == var,
            r.declared_type == declared_type,
            r.initializer == initializer,
            r.loc == var.loc,
            r.t@ == TypeV::Unit,
    {
        VarDeclaration { loc: var.loc.clone(), var, initializer, declared_type, t: Type::Unit }
    }

    pub fn new_with_type(
        var: Identifier,
        declared_type: Option<Type>,
        initializer: Box<Expression>,
        t: Type,
    ) -> (r: Self)
        ensures
            r.var == var,
            r.declared_type == declared_type,
            r.initializer == initializer,
            r.loc == var.loc,
            r.t == t,
    {
        VarDeclaration { loc: var.loc.clone(), var, initializer, declared_type, t }
    }
}

impl While {
    pub fn new(cond: Box<Expression>, body: Box<Expression>, loc: Location) -> (r: Self)
        ensures
            r.cond == cond,
            r.body == body,
            r.loc == loc,
            r.t@ == TypeV::Unit,
    {
        While { cond, body, loc, t: Type::Unit }
    }
}

impl UnaryOp {
    pub fn new(op: &str, right: Box<Expression>, loc: Location) -> (r: Self)
        ensures
            r.op@ == op@,
            r.right == right,
            r.loc == loc,
            r.t@ == TypeV::Unit,
    {
        UnaryOp { op: op.to_owned(), right, loc, t: Type::Unit }
    }

    pub fn new_with_type(op: &str, right: Box<Expression>, loc: Location, t: Type) -> (r: Self)
        ensures
            r.op@ == op@,
            r.right == right,
            r.loc == loc,
            r.t == t,
    {
        UnaryOp { op: op.to_owned(), right, loc, t }
    }
}

} // verus!
