//! The types of the language.
use vstd::prelude::*;
use vstd::std_specs::cmp::PartialEqSpecImpl;
use vstd::string::*;

verus! {

broadcast use vstd::std_specs::vec::group_vec_axioms;

/// A type: `Int`, `Bool`, `Unit`, or a function type from argument types to a
/// result type.
#[derive(Debug)]
pub enum Type {
    Int,
    Bool,
    Unit,
    FunType { args: Vec<Box<Type>>, result: Box<Type> },
}

/// The value of a [`Type`].
pub enum TypeV {
    Int,
    Bool,
    Unit,
    Fun(Seq<TypeV>, Box<TypeV>),
}

impl Type {
    /// The value of this type.
    pub open spec fn value(&self) -> TypeV
        decreases self,
    {
        match self {
            Type::Int => TypeV::Int,
            Type::Bool => TypeV::Bool,
            Type::Unit => TypeV::Unit,
            Type::FunType { args, result } => TypeV::Fun(
                types_value(args@),
                Box::new((**result).value()),
            ),
        }
    }
}

/// The values of a sequence of boxed types.
pub open spec fn types_value(s: Seq<Box<Type>>) -> Seq<TypeV>
    decreases s,
{
    if s.len() == 0 {
        seq![]
    } else {
        seq![(*s[0]).value()] + types_value(s.subrange(1, s.len() as int))
    }
}

impl View for Type {
    type V = TypeV;

    open spec fn view(&self) -> TypeV {
        self.value()
    }
}


pub proof fn lemma_types_value(s: Seq<Box<Type>>)
    ensures
        types_value(s).len() == s.len(),
        forall|i: int| 0 <= i < s.len() ==> #[trigger] types_value(s)[i] == (*s[i]).value(),
    decreases s.len(),
{
    if s.len() > 0 {
        let t = s.subrange(1, s.len() as int);
        lemma_types_value(t);
        assert forall|i: int| 0 <= i < s.len() implies #[trigger] types_value(s)[i] == (*s[i]).value() by {
            if i > 0 {
                assert(t[i - 1] == s[i]);
            }
        }
    }
}

/// The text of a type: `Int`, `Bool`, `Unit`, or `(A, B) =>  R` for a function
/// type (arguments separated by `", "`, two spaces before the result).
pub open spec fn type_string(t: TypeV) -> Seq<char>
    decreases t,
{
    match t {
        TypeV::Int => seq!['I', 'n', 't'],
        TypeV::Bool => seq!['B', 'o', 'o', 'l'],
        TypeV::Unit => seq!['U', 'n', 'i', 't'],
        TypeV::Fun(args, r) => seq!['('] + join_types(args) + seq![')', ' ', '=', '>', ' ', ' ']
            + type_string(*r),
    }
}

/// The texts of `args` separated by `", "`.
pub open spec fn join_types(args: Seq<TypeV>) -> Seq<char>
    decreases args,
{
    if args.len() == 0 {
        seq![]
    } else if args.len() == 1 {
        type_string(args[0])
    } else {
        join_types(args.subrange(0, args.len() - 1)) + seq![',', ' '] + type_string(args.last())
    }
}

fn lit_string(lit: &str) -> (s: String)
    ensures
        s@ == lit@,
{
    lit.to_owned()
}

impl Type {
    /// The text of this type (see [`type_string`]).
    #[verifier::loop_isolation(false)]
    pub fn as_string(&self) -> (s: String)
        ensures
            s@ == type_string(self@),
        decreases self,
    {
        proof {
            reveal_strlit("Int");
            reveal_strlit("Bool");
            reveal_strlit("Unit");
            reveal_strlit(", ");
            reveal_strlit("(");
            reveal_strlit(") =>  ");
        }
        match self {
            Type::Int => {
                let s = lit_string("Int");
                assert(s@ =~= seq!['I', 'n', 't']);
                s
            },
            Type::Bool => {
                let s = lit_string("Bool");
                assert(s@ =~= seq!['B', 'o', 'o', 'l']);
                s
            },
            Type::Unit => {
                let s = lit_string("Unit");
                assert(s@ =~= seq!['U', 'n', 'i', 't']);
                s
            },
            Type::FunType { args, result } => {
                proof {
                    lemma_types_value(args@);
                }
                let ghost tv = types_value(args@);
                let mut joined = String::new();
                let mut i: usize = 0;
                while i < args.len()
                    invariant
                        i <= args@.len(),
                        tv == types_value(args@),
                        tv.len() == args@.len(),
                        forall|j: int| 0 <= j < args@.len() ==> #[trigger] tv[j] == (*args@[j]).value(),
                        joined@ == join_types(tv.subrange(0, i as int)),
                    decreases args@.len() - i,
                {
                    let a = args[i].as_string();
                    if i > 0 {
                        joined.append(", ");
                    }
                    joined.append(a.as_str());
                    proof {
                        let next = tv.subrange(0, i + 1);
                        assert(next.subrange(0, i as int) =~= tv.subrange(0, i as int));
                        if i == 0 {
                            assert(join_types(next) == type_string(next[0]));
                            assert(joined@ =~= join_types(next));
                        } else {
                            assert(next.last() == tv[i as int]);
                            assert(tv[i as int] == (*args@[i as int]).value());
                            assert(joined@ =~= join_types(next));
                        }
                    }
                    i = i + 1;
                }
                assert(tv.subrange(0, i as int) =~= tv);
                let mut s = lit_string("(");
                s.append(joined.as_str());
                s.append(") =>  ");
                let r = result.as_string();
                s.append(r.as_str());
                assert(s@ =~= type_string(self@));
                s
            },
        }
    }

    /// Structural equality of types.
    #[verifier::loop_isolation(false)]
    pub fn type_eq(&self, other: &Type) -> (r: bool)
        ensures
            r == (self@ == other@),
        decreases self,
    {
        match (self, other) {
            (Type::Int, Type::Int) => true,
            (Type::Bool, Type::Bool) => true,
            (Type::Unit, Type::Unit) => true,
            (Type::FunType { args: a1, result: r1 }, Type::FunType { args: a2, result: r2 }) => {
                proof {
                    lemma_types_value(a1@);
                    lemma_types_value(a2@);
                }
                if a1.len() != a2.len() {
                    return false;
                }
                let mut i: usize = 0;
                while i < a1.len()
                    invariant
                        i <= a1@.len(),
                        a1@.len() == a2@.len(),
                        types_value(a1@).len() == a1@.len(),
                        types_value(a2@).len() == a2@.len(),
                        forall|j: int| 0 <= j < a1@.len() ==> #[trigger] types_value(a1@)[j] == (*a1@[j]).value(),
                        forall|j: int| 0 <= j < a2@.len() ==> #[trigger] types_value(a2@)[j] == (*a2@[j]).value(),
                        forall|j: int| 0 <= j < i ==> types_value(a1@)[j] == types_value(a2@)[j],
                    decreases a1@.len() - i,
                {
                    if !a1[i].type_eq(&a2[i]) {
                        assert(types_value(a1@)[i as int] != types_value(a2@)[i as int]);
                        return false;
                    }
                    i = i + 1;
                }
                assert(types_value(a1@) =~= types_value(a2@));
                r1.type_eq(r2)
            },
            _ => false,
        }
    }

    /// A copy of this type.
    #[verifier::loop_isolation(false)]
    pub fn copy(&self) -> (r: Type)
        ensures
            r@ == self@,
        decreases self,
    {
        match self {
            Type::Int => Type::Int,
            Type::Bool => Type::Bool,
            Type::Unit => Type::Unit,
            Type::FunType { args, result } => {
                proof {
                    lemma_types_value(args@);
                }
                let mut v: Vec<Box<Type>> = Vec::new();
                let mut i: usize = 0;
                while i < args.len()
                    invariant
                        i <= args@.len(),
                        v@.len() == i,
                        types_value(args@).len() == args@.len(),
                        forall|j: int| 0 <= j < args@.len() ==> #[trigger] types_value(args@)[j] == (*args@[j]).value(),
                        forall|j: int| 0 <= j < i ==> (*v@[j]).value() == (*args@[j]).value(),
                    decreases args@.len() - i,
                {
                    let c = args[i].copy();
                    v.push(Box::new(c));
                    i = i + 1;
                }
                proof {
                    lemma_types_value(v@);
                    assert(types_value(v@) =~= types_value(args@));
                }
                Type::FunType { args: v, result: Box::new(result.copy()) }
            },
        }
    }
}

impl Clone for Type {
    fn clone(&self) -> (r: Self)
        ensures
            r@ == self@,
    {
        self.copy()
    }
}

impl PartialEq for Type {
    fn eq(&self, other: &Self) -> (r: bool) {
        self.type_eq(other)
    }
}

impl PartialEqSpecImpl for Type {
    open spec fn obeys_eq_spec() -> bool {
        true
    }

    open spec fn eq_spec(&self, other: &Type) -> bool {
        self@ == other@
    }
}

} // verus!
