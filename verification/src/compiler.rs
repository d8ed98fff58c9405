//! The compiler: source text to tokens, tokens to a tree, type checking, and
//! lowering to the intermediate representation, printed one instruction per
//! line.
pub mod ast;
pub mod ir;
pub mod ir_generator;
pub mod parser;
pub mod symtab;
pub mod text;
pub mod tokenizer;
pub mod type_checker;
pub mod types;

use ir::{instr_text, instrs_view, IRVar, InstrV, Instruction};
use ir_generator::{
    bindings_view, generate_ir, lemma_root_env_bindings, root_env, roots_view, spec_generate,
    IrErrV, IrError,
};
use parser::{spec_parse, PErrV, Parser, ParserError};
use symtab::{local_lookup, SymTab};
use tokenizer::{regex_compiles, spec_tokenize, tokenize_checked, TokenV, TOKEN_PATTERN};
use type_checker::{
    bindings_env, globals_env, init_globals, lemma_scopes_of, scopes_of, spec_check, typecheck, TErrV,
    TypeError,
};
use types::{Type, TypeV};
use vstd::prelude::*;
use vstd::string::*;

verus! {

/// Why a program does not compile.
#[derive(Debug)]
pub enum CompileError {
    /// The regular expression library refuses the token pattern.
    TokenPattern,
    /// The tokens do not form a program.
    Parse(ParserError),
    /// The program does not type-check.
    Type(TypeError),
    /// The program has no lowering.
    Ir(IrError),
}

/// The value of a [`CompileError`].
pub enum CompileErrV {
    TokenPattern,
    Parse(PErrV),
    Type(TErrV),
    Ir(IrErrV),
}

impl View for CompileError {
    type V = CompileErrV;

    open spec fn view(&self) -> CompileErrV {
        match self {
            CompileError::TokenPattern => CompileErrV::TokenPattern,
            CompileError::Parse(e) => CompileErrV::Parse(e@),
            CompileError::Type(e) => CompileErrV::Type(e@),
            CompileError::Ir(e) => CompileErrV::Ir(e@),
        }
    }
}

/// `lines` separated by newlines.
pub open spec fn join_lines(lines: Seq<Seq<char>>) -> Seq<char>
    decreases lines.len(),
{
    if lines.len() == 0 {
        seq![]
    } else if lines.len() == 1 {
        lines[0]
    } else {
        join_lines(lines.drop_last()) + seq!['\n'] + lines.last()
    }
}

/// The text of a program: one instruction per line.
pub open spec fn program_text(instrs: Seq<InstrV>) -> Seq<char> {
    join_lines(instrs.map_values(|i: InstrV| instr_text(i)))
}

/// Compiling the tokens `toks`: parse them from the first token, type-check
/// the tree with only the built-in functions in scope, and lower the checked
/// tree with everything then in scope as the variables.
pub open spec fn spec_compile_tokens(toks: Seq<TokenV>) -> Result<Seq<char>, CompileErrV> {
    match spec_parse(toks, 0) {
        Err(e) => Err(CompileErrV::Parse(e)),
        Ok((tree, _)) => {
            let (r, checked, scopes) = spec_check(tree, seq![globals_env(Map::empty())]);
            match r {
                Err(e) => Err(CompileErrV::Type(e)),
                Ok(_) => match spec_generate(scopes.last(), checked) {
                    Err(e) => Err(CompileErrV::Ir(e)),
                    Ok(instrs) => Ok(program_text(instrs)),
                },
            }
        },
    }
}

/// `r` is the text or the error that `s` gives.
pub open spec fn compiled(r: Result<String, CompileError>, s: Result<Seq<char>, CompileErrV>) -> bool {
    match s {
        Ok(text) => r matches Ok(t) && t@ == text,
        Err(e) => r matches Err(x) && x@ == e,
    }
}

/// The text of `ir`, one instruction per line.
fn ir_text(ir: &Vec<Instruction>) -> (s: String)
    ensures
        s@ == program_text(instrs_view(ir@)),
{
    let ghost texts = instrs_view(ir@).map_values(|i: InstrV| instr_text(i));
    let mut s = String::new();
    let mut k: usize = 0;
    while k < ir.len()
        invariant
            k <= ir@.len(),
            texts == instrs_view(ir@).map_values(|i: InstrV| instr_text(i)),
            texts.len() == ir@.len(),
            s@ == join_lines(texts.take(k as int)),
        decreases ir@.len() - k,
    {
        if k > 0 {
            s.append("\n");
            proof {
                reveal_strlit("\n");
            }
        }
        s.append(ir[k].as_string().as_str());
        proof {
            let next = texts.take(k + 1);
            assert(next.drop_last() =~= texts.take(k as int));
            assert(next.last() == instr_text(ir@[k as int]@));
            assert(s@ =~= join_lines(next));
        }
        k = k + 1;
    }
    assert(texts.take(k as int) =~= texts);
    s
}

/// Compiles `source_code` (from the file `file_name`) to the text of its
/// intermediate representation (see [`spec_compile_tokens`]).
pub fn compile(source_code: &str, file_name: &str) -> (r: Result<String, CompileError>)
    ensures
        !regex_compiles(TOKEN_PATTERN@) ==> r matches Err(CompileError::TokenPattern),
        regex_compiles(TOKEN_PATTERN@) ==> compiled(
            r,
            spec_compile_tokens(spec_tokenize(source_code@, file_name@)),
        ),
{
    let tokens = match tokenize_checked(source_code, file_name) {
        Some(t) => t,
        None => return Err(CompileError::TokenPattern),
    };
    let mut p = Parser::new(tokens);
    let mut parsed = match p.parse() {
        Ok(e) => e,
        Err(e) => return Err(CompileError::Parse(e)),
    };
    let mut st: SymTab<Type> = SymTab::new();
    proof {
        lemma_scopes_of(&st);
        assert(bindings_env(st.bindings()) =~= Map::<Seq<char>, TypeV>::empty());
        assert(scopes_of(&st) =~= seq![Map::<Seq<char>, TypeV>::empty()]);
    }
    init_globals(&mut st);
    proof {
        assert(scopes_of(&st) =~= seq![globals_env(Map::empty())]);
    }
    match typecheck(&mut parsed, &mut st) {
        Ok(_) => {},
        Err(e) => return Err(CompileError::Type(e)),
    }
    let locals = st.local_bindings();
    let ghost bv = bindings_view(locals@);
    let mut root_types: Vec<(IRVar, Type)> = Vec::new();
    let mut k: usize = 0;
    while k < locals.len()
        invariant
            k <= locals@.len(),
            bv == bindings_view(locals@),
            bv.len() == locals@.len(),
            roots_view(root_types@) == bv.take(k as int),
        decreases locals@.len() - k,
    {
        let pair = (IRVar::new(locals[k].0.as_str()), locals[k].1.copy());
        let ghost before = root_types@;
        root_types.push(pair);
        proof {
            assert(roots_view(root_types@) =~= roots_view(before).push(bv[k as int]));
            assert(bv.take(k + 1) =~= bv.take(k as int).push(bv[k as int]));
        }
        k = k + 1;
    }
    proof {
        assert(bv.take(k as int) =~= bv);
        lemma_root_env_bindings(locals@);
        lemma_scopes_of(&st);
        assert(root_env(roots_view(root_types@)) =~= bindings_env(st.bindings()));
    }
    let ir = match generate_ir(root_types, parsed) {
        Ok(ir) => ir,
        Err(e) => return Err(CompileError::Ir(e)),
    };
    Ok(ir_text(&ir))
}

} // verus!
