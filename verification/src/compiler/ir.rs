//! The intermediate representation: a flat list of instructions over named
//! variables, with labels for jumps.
use super::text::{decimal, decimal_string, join_names};
use super::tokenizer::{LocV, Location};
use vstd::prelude::*;
use vstd::string::*;

verus! {

/// A variable of the intermediate representation.
#[derive(Debug, PartialEq)]
pub struct IRVar {
    pub name: String,
}

impl View for IRVar {
    type V = Seq<char>;

    open spec fn view(&self) -> Seq<char> {
        self.name@
    }
}

impl Clone for IRVar {
    fn clone(&self) -> (r: Self)
        ensures
            r == *self,
    {
        IRVar { name: self.name.clone() }
    }
}

impl IRVar {
    pub fn new(name: &str) -> (v: Self)
        ensures
            v@ == name@,
    {
        IRVar { name: name.to_owned() }
    }

    /// The variable's name.
    pub fn as_string(&self) -> (s: String)
        ensures
            s@ == self@,
    {
        self.name.clone()
    }
}

/// A jump target.
#[derive(Debug, PartialEq)]
pub struct Label {
    pub name: String,
    pub loc: Location,
}

/// The value of a [`Label`].
pub struct LabelV {
    pub name: Seq<char>,
    pub loc: LocV,
}

impl View for Label {
    type V = LabelV;

    open spec fn view(&self) -> LabelV {
        LabelV { name: self.name@, loc: self.loc@ }
    }
}

impl Clone for Label {
    fn clone(&self) -> (r: Self)
        ensures
            r == *self,
    {
        Label { name: self.name.clone(), loc: self.loc.clone() }
    }
}

impl Label {
    pub fn new(name: &str, loc: Location) -> (l: Self)
        ensures
            l.name@ == name@,
            l.loc == loc,
    {
        Label { name: name.to_owned(), loc }
    }
}

/// `dest := value` for a boolean constant.
#[derive(Debug, PartialEq)]
pub struct LoadBoolConst {
    pub value: bool,
    pub dest: IRVar,
    pub loc: Location,
}

impl LoadBoolConst {
    pub fn new(value: bool, dest: IRVar, loc: Location) -> (i: Self)
        ensures
            i.value == value,
            i.dest == dest,
            i.loc == loc,
    {
        LoadBoolConst { value, dest, loc }
    }
}

/// `dest := value` for an integer constant.
#[derive(Debug, PartialEq)]
pub struct LoadIntConst {
    pub value: i8,
    pub dest: IRVar,
    pub loc: Location,
}

impl LoadIntConst {
    pub fn new(value: i8, dest: IRVar, loc: Location) -> (i: Self)
        ensures
            i.value == value,
            i.dest == dest,
            i.loc == loc,
    {
        LoadIntConst { value, dest, loc }
    }
}

/// `dest := source`.
#[derive(Debug, PartialEq)]
pub struct Copy {
    pub source: IRVar,
    pub dest: IRVar,
    pub loc: Location,
}

impl Copy {
    pub fn new(source: IRVar, dest: IRVar, loc: Location) -> (i: Self)
        ensures
            i.source == source,
            i.dest == dest,
            i.loc == loc,
    {
        Copy { source, dest, loc }
    }
}

/// `dest := fun(args...)`.
#[derive(Debug, PartialEq)]
pub struct Call {
    pub fun: IRVar,
    pub args: Vec<IRVar>,
    pub dest: IRVar,
    pub loc: Location,
}

impl Call {
    pub fn new(fun: IRVar, args: Vec<IRVar>, dest: IRVar, loc: Location) -> (i: Self)
        ensures
            i.fun == fun,
            i.args == args,
            i.dest == dest,
            i.loc == loc,
    {
        Call { fun, args, dest, loc }
    }
}

/// Jump to `label`.
#[derive(Debug, PartialEq)]
pub struct Jump {
    pub label: Label,
    pub loc: Location,
}

impl Jump {
    pub fn new(label: Label, loc: Location) -> (i: Self)
        ensures
            i.label == label,
            i.loc == loc,
    {
        Jump { label, loc }
    }
}

/// Jump to `then_label` if `cond` holds, else to `else_label`.
#[derive(Debug, PartialEq)]
pub struct CondJump {
    pub cond: IRVar,
    pub then_label: Label,
    pub else_label: Label,
    pub loc: Location,
}

impl CondJump {
    pub fn new(cond: IRVar, then_label: Label, else_label: Label, loc: Location) -> (i: Self)
        ensures
            i.cond == cond,
            i.then_label == then_label,
            i.else_label == else_label,
            i.loc == loc,
    {
        CondJump { cond, then_label, else_label, loc }
    }
}

/// One instruction.
#[derive(Debug, PartialEq)]
pub enum Instruction {
    Label(Label),
    LoadBoolConst(LoadBoolConst),
    LoadIntConst(LoadIntConst),
    Copy(Copy),
    Call(Call),
    Jump(Jump),
    CondJump(CondJump),
}

/// The value of an [`Instruction`].
pub enum InstrV {
    Label(LabelV),
    LoadBoolConst { value: bool, dest: Seq<char>, loc: LocV },
    LoadIntConst { value: i8, dest: Seq<char>, loc: LocV },
    Copy { source: Seq<char>, dest: Seq<char>, loc: LocV },
    Call { fun: Seq<char>, args: Seq<Seq<char>>, dest: Seq<char>, loc: LocV },
    Jump { label: LabelV, loc: LocV },
    CondJump { cond: Seq<char>, then_label: LabelV, else_label: LabelV, loc: LocV },
}

pub open spec fn vars_view(v: Seq<IRVar>) -> Seq<Seq<char>> {
    v.map_values(|x: IRVar| x@)
}

impl View for Instruction {
    type V = InstrV;

    open spec fn view(&self) -> InstrV {
        match self {
            Instruction::Label(l) => InstrV::Label(l@),
            Instruction::LoadBoolConst(i) => InstrV::LoadBoolConst { value: i.value, dest: i.dest@, loc: i.loc@ },
            Instruction::LoadIntConst(i) => InstrV::LoadIntConst { value: i.value, dest: i.dest@, loc: i.loc@ },
            Instruction::Copy(i) => InstrV::Copy { source: i.source@, dest: i.dest@, loc: i.loc@ },
            Instruction::Call(i) => InstrV::Call {
                fun: i.fun@,
                args: vars_view(i.args@),
                dest: i.dest@,
                loc: i.loc@,
            },
            Instruction::Jump(i) => InstrV::Jump { label: i.label@, loc: i.loc@ },
            Instruction::CondJump(i) => InstrV::CondJump {
                cond: i.cond@,
                then_label: i.then_label@,
                else_label: i.else_label@,
                loc: i.loc@,
            },
        }
    }
}

pub open spec fn instrs_view(s: Seq<Instruction>) -> Seq<InstrV> {
    s.map_values(|i: Instruction| i@)
}

/// The decimal text of an integer, with a leading `-` when negative.
pub open spec fn int_text(v: int) -> Seq<char> {
    if v < 0 {
        seq!['-'] + decimal((-v) as nat)
    } else {
        decimal(v as nat)
    }
}

pub open spec fn label_text(l: LabelV) -> Seq<char> {
    "Label("@ + l.name + ")"@
}

/// The text of an instruction, as printed in the output of the compiler.
pub open spec fn instr_text(i: InstrV) -> Seq<char> {
    match i {
        InstrV::Label(l) => label_text(l),
        InstrV::LoadBoolConst { value, dest, .. } => "LoadBoolConst("@ + (if value {
            "true"@
        } else {
            "false"@
        }) + ", "@ + dest + ")"@,
        InstrV::LoadIntConst { value, dest, .. } => "LoadIntConst("@ + int_text(value as int) + ", "@
            + dest + ")"@,
        InstrV::Copy { source, dest, .. } => "Copy("@ + source + ", "@ + dest + ")"@,
        InstrV::Call { fun, args, dest, .. } => "Call("@ + fun + ", ["@ + join_names(args) + "], "@
            + dest + ")"@,
        InstrV::Jump { label, .. } => "Jump("@ + label_text(label) + ")"@,
        InstrV::CondJump { cond, then_label, else_label, .. } => "CondJump("@ + cond + ", "@
            + label_text(then_label) + ", "@ + label_text(else_label) + ")"@,
    }
}

fn int_string(v: i8) -> (s: String)
    ensures
        s@ == int_text(v as int),
{
    if v < 0 {
        let m: i32 = v as i32;
        let n: u128 = (0 - m) as u128;
        let mut s = "-".to_owned();
        proof {
            reveal_strlit("-");
        }
        s.append(decimal_string(n).as_str());
        assert(s@ =~= int_text(v as int));
        s
    } else {
        let n: u128 = v as u128;
        decimal_string(n)
    }
}

fn label_string(l: &Label) -> (s: String)
    ensures
        s@ == label_text(l@),
{
    let mut s = "Label(".to_owned();
    s.append(l.name.as_str());
    s.append(")");
    s
}

/// The names of `args` separated by `", "`.
fn join_vars(args: &Vec<IRVar>) -> (s: String)
    ensures
        s@ == join_names(vars_view(args@)),
{
    let ghost names = vars_view(args@);
    let mut s = String::new();
    let mut i: usize = 0;
    while i < args.len()
        invariant
            i <= args@.len(),
            names == vars_view(args@),
            s@ == join_names(names.take(i as int)),
        decreases args@.len() - i,
    {
        if i > 0 {
            s.append(", ");
        }
        s.append(args[i].name.as_str());
        proof {
            let next = names.take(i + 1);
            assert(next.drop_last() =~= names.take(i as int));
            if i == 0 {
                assert(s@ =~= join_names(next));
            } else {
                assert(s@ =~= join_names(next));
            }
        }
        i = i + 1;
    }
    assert(names.take(i as int) =~= names);
    s
}

impl Instruction {
    /// The text of the instruction (see [`instr_text`]).
    pub fn as_string(&self) -> (s: String)
        ensures
            s@ == instr_text(self@),
    {
        match self {
            Instruction::Label(l) => label_string(l),
            Instruction::LoadBoolConst(i) => {
                let mut s = "LoadBoolConst(".to_owned();
                s.append(if i.value {
                    "true"
                } else {
                    "false"
                });
                s.append(", ");
                s.append(i.dest.name.as_str());
                s.append(")");
                s
            },
            Instruction::LoadIntConst(i) => {
                let mut s = "LoadIntConst(".to_owned();
                s.append(int_string(i.value).as_str());
                s.append(", ");
                s.append(i.dest.name.as_str());
                s.append(")");
                s
            },
            Instruction::Copy(i) => {
                let mut s = "Copy(".to_owned();
                s.append(i.source.name.as_str());
                s.append(", ");
                s.append(i.dest.name.as_str());
                s.append(")");
                s
            },
            Instruction::Call(i) => {
                let mut s = "Call(".to_owned();
                s.append(i.fun.name.as_str());
                s.append(", [");
                s.append(join_vars(&i.args).as_str());
                s.append("], ");
                s.append(i.dest.name.as_str());
                s.append(")");
                s
            },
            Instruction::Jump(i) => {
                let mut s = "Jump(".to_owned();
                s.append(label_string(&i.label).as_str());
                s.append(")");
                s
            },
            Instruction::CondJump(i) => {
                let mut s = "CondJump(".to_owned();
                s.append(i.cond.name.as_str());
                s.append(", ");
                s.append(label_string(&i.then_label).as_str());
                s.append(", ");
                s.append(label_string(&i.else_label).as_str());
                s.append(")");
                s
            },
        }
    }
}

} // verus!
