//! Tokens to an expression tree: a recursive-descent parser with an operator
//! stack for binary operators. The `spec_*` functions state what each parsing
//! step yields from a token sequence and a position; the parser's methods are
//! proved to compute exactly that.
use super::ast::{opt_type_value, exprs_value, lemma_exprs_value, lemma_exprs_value_push, Block, BinaryOp, ExprV, Expression, FunctionCall, IdentV, Identifier, If, Literal, LiteralValue, UnaryOp, VarDeclaration, While};
use super::text::{chars_of, contains_text, join_names, join_texts, same_text, texts_view};
use super::tokenizer::{special_loc, token_type_name, tokens_view, LocV, Location, Token, TokenType, TokenV};
use super::types::{Type, TypeV};
use vstd::prelude::*;

verus! {

// ---------------------------------------------------------------------------
// Errors
// ---------------------------------------------------------------------------
/// Why the tokens do not form an expression.
#[derive(Debug, PartialEq)]
pub enum ParserError {
    /// The token at `location` with text `found` is not what was `expected`.
    UnexpectedToken { location: Location, expected: String, found: String },
    /// An integer token whose text is not a valid 8-bit integer.
    InvalidInteger(String),
    /// A boolean token whose text is neither `true` nor `false`.
    InvalidBoolean(String),
    /// A `var` declaration where only an operand may stand (it is allowed
    /// directly inside blocks and at the top level only).
    VarNotAllowed { location: Location },
}

/// The value of a [`ParserError`].
pub enum PErrV {
    UnexpectedToken { location: LocV, expected: Seq<char>, found: Seq<char> },
    InvalidInteger(Seq<char>),
    InvalidBoolean(Seq<char>),
    VarNotAllowed { location: LocV },
}

impl View for ParserError {
    type V = PErrV;

    open spec fn view(&self) -> PErrV {
        match self {
            ParserError::UnexpectedToken { location, expected, found } => PErrV::UnexpectedToken {
                location: location@,
                expected: expected@,
                found: found@,
            },
            ParserError::InvalidInteger(s) => PErrV::InvalidInteger(s@),
            ParserError::InvalidBoolean(s) => PErrV::InvalidBoolean(s@),
            ParserError::VarNotAllowed { location } => PErrV::VarNotAllowed { location: location@ },
        }
    }
}

// ---------------------------------------------------------------------------
// Literal texts
// ---------------------------------------------------------------------------
pub open spec fn is_digit(c: char) -> bool {
    '0' <= c && c <= '9'
}

pub open spec fn all_digits(s: Seq<char>) -> bool {
    forall|i: int| 0 <= i < s.len() ==> #[trigger] is_digit(s[i])
}

/// The number written by the decimal digits `s`.
pub open spec fn digits_value(s: Seq<char>) -> int
    decreases s.len(),
{
    if s.len() == 0 {
        0
    } else {
        digits_value(s.drop_last()) * 10 + (s.last() as int - '0' as int)
    }
}

/// The 8-bit integer written by `s`: an optional `+` or `-`, then at least one
/// decimal digit; `None` when `s` has another form or the number is out of range.
pub open spec fn parse_i8(s: Seq<char>) -> Option<i8> {
    if s.len() > 0 && (s[0] == '-' || s[0] == '+') {
        let d = s.drop_first();
        if d.len() > 0 && all_digits(d) && s[0] == '-' && digits_value(d) <= 128 {
            Some((-digits_value(d)) as i8)
        } else if d.len() > 0 && all_digits(d) && s[0] == '+' && digits_value(d) <= 127 {
            Some(digits_value(d) as i8)
        } else {
            None
        }
    } else if s.len() > 0 && all_digits(s) && digits_value(s) <= 127 {
        Some(digits_value(s) as i8)
    } else {
        None
    }
}

/// The boolean written by `s`: exactly `true` or `false`.
pub open spec fn parse_bool(s: Seq<char>) -> Option<bool> {
    if s == "true"@ {
        Some(true)
    } else if s == "false"@ {
        Some(false)
    } else {
        None
    }
}

// ---------------------------------------------------------------------------
// Tokens
// ---------------------------------------------------------------------------
/// The token at position `p`; past the end, an `End` token with empty text,
/// located at the last token (or at the special location when there are none).
pub open spec fn spec_peek(toks: Seq<TokenV>, p: int) -> TokenV {
    if 0 <= p < toks.len() {
        toks[p]
    } else if toks.len() > 0 {
        TokenV { text: seq![], token_type: TokenType::End, loc: toks.last().loc }
    } else {
        TokenV { text: seq![], token_type: TokenType::End, loc: special_loc() }
    }
}

pub open spec fn unexpected(tok: TokenV, expected: Seq<char>) -> PErrV {
    PErrV::UnexpectedToken { location: tok.loc, expected, found: tok.text }
}

/// Consumes the token at `p` if its text is `s` (never empty); the position
/// after it, or the error that names `s`.
pub open spec fn spec_expect(toks: Seq<TokenV>, p: int, s: Seq<char>) -> Result<int, PErrV> {
    if 0 <= p < toks.len() && toks[p].text == s {
        Ok(p + 1)
    } else {
        Err(unexpected(spec_peek(toks, p), s))
    }
}

/// What [`Parser::consume_expect`] accepts as the text of the current token.
pub enum Expected {
    /// Exactly this text.
    Single(String),
    /// Any of these texts.
    Multiple(Vec<String>),
    /// Any token.
    Any,
}

/// The value of an [`Expected`].
pub enum ExpectedV {
    Single(Seq<char>),
    Multiple(Seq<Seq<char>>),
    Any,
}

impl View for Expected {
    type V = ExpectedV;

    open spec fn view(&self) -> ExpectedV {
        match self {
            Expected::Single(s) => ExpectedV::Single(s@),
            Expected::Multiple(v) => ExpectedV::Multiple(texts_view(v@)),
            Expected::Any => ExpectedV::Any,
        }
    }
}

/// Consumes the token at `p` (see [`spec_peek`]) if `expected` accepts its
/// text: the token and the position after it (past the end, the position
/// stays), or the error that names what was expected, several texts
/// separated by `", "`.
pub open spec fn spec_consume(toks: Seq<TokenV>, p: int, expected: ExpectedV) -> Result<(TokenV, int), PErrV> {
    let tok = spec_peek(toks, p);
    let next = if 0 <= p < toks.len() {
        p + 1
    } else {
        p
    };
    match expected {
        ExpectedV::Single(s) => if s != tok.text {
            Err(unexpected(tok, s))
        } else {
            Ok((tok, next))
        },
        ExpectedV::Multiple(v) => if !v.contains(tok.text) {
            Err(unexpected(tok, join_names(v)))
        } else {
            Ok((tok, next))
        },
        ExpectedV::Any => Ok((tok, next)),
    }
}

/// The precedence level of a binary operator: higher binds tighter; operators
/// not in the table bind tightest.
pub open spec fn prec(op: Seq<char>) -> int {
    if op == "="@ {
        0
    } else if op == "or"@ {
        1
    } else if op == "and"@ {
        2
    } else if op == "=="@ || op == "!="@ {
        3
    } else if op == "<"@ || op == "<="@ || op == ">"@ || op == ">="@ {
        4
    } else if op == "+"@ || op == "-"@ {
        5
    } else if op == "*"@ || op == "/"@ || op == "&"@ {
        6
    } else {
        7
    }
}

// ---------------------------------------------------------------------------
// Tree values built by the parser
// ---------------------------------------------------------------------------
pub open spec fn mk_binop(l: ExprV, op: Seq<char>, r: ExprV) -> ExprV {
    ExprV::BinaryOp { left: Box::new(l), op, right: Box::new(r), loc: l.loc(), t: TypeV::Unit }
}

pub open spec fn unit_literal(loc: LocV) -> ExprV {
    ExprV::Literal { value: None, loc, t: TypeV::Unit }
}

pub open spec fn mk_block(statements: Seq<ExprV>, loc: LocV) -> ExprV {
    ExprV::Block { statements, loc, t: TypeV::Unit }
}

/// What a parsing step yields: the tree and the position after it.
pub type SpecParse = Result<(ExprV, int), PErrV>;

/// The result of a sub-parse that did not move forward. Every successful
/// sub-parse consumes at least one token ([`law_parse_advances`]), so this value
/// is never produced; the definitions below still test for it because their
/// termination rests on each step moving forward, which they cannot assume of
/// themselves.
pub open spec fn stalled() -> PErrV {
    PErrV::InvalidInteger(seq![])
}

/// `q` is a position reached from `p` by consuming at least one token.
pub open spec fn advanced(toks: Seq<TokenV>, p: int, q: int) -> bool {
    p < q <= toks.len()
}

// ---------------------------------------------------------------------------
// Operator stacks
// ---------------------------------------------------------------------------
/// Replaces the two topmost operands and the topmost operator by one node.
pub open spec fn combine(exprs: Seq<ExprV>, ops: Seq<Seq<char>>) -> (Seq<ExprV>, Seq<Seq<char>>) {
    let n = exprs.len();
    (exprs.take(n - 2).push(mk_binop(exprs[n - 2], ops.last(), exprs[n - 1])), ops.drop_last())
}

/// Before `op` is pushed: combines while the operator on top binds tighter than
/// `op`, or as tight and `op` is not `=` (all operators but `=` associate to the
/// left).
pub open spec fn reduce_for(exprs: Seq<ExprV>, ops: Seq<Seq<char>>, op: Seq<char>) -> (Seq<ExprV>, Seq<Seq<char>>)
    decreases ops.len(),
{
    if ops.len() == 0 {
        (exprs, ops)
    } else if prec(op) < prec(ops.last()) || (prec(op) == prec(ops.last()) && op != "="@) {
        let (e2, o2) = combine(exprs, ops);
        reduce_for(e2, o2, op)
    } else {
        (exprs, ops)
    }
}

/// Combines everything left on the stacks into one tree.
pub open spec fn reduce_all(exprs: Seq<ExprV>, ops: Seq<Seq<char>>) -> ExprV
    decreases ops.len(),
{
    if ops.len() == 0 {
        exprs.last()
    } else {
        let (e2, o2) = combine(exprs, ops);
        reduce_all(e2, o2)
    }
}

// ---------------------------------------------------------------------------
// The grammar
// ---------------------------------------------------------------------------
/// A binary-operator expression: operands joined by operator tokens.
pub open spec fn spec_binary_op(toks: Seq<TokenV>, p: int) -> SpecParse
    decreases toks.len() - p, 12int,
{
    match spec_factor(toks, p) {
        Err(e) => Err(e),
        Ok((f, q)) => if !advanced(toks, p, q) {
            Err(stalled())
        } else {
            spec_binop_loop(toks, q, seq![f], seq![])
        },
    }
}

/// The operator loop of [`spec_binary_op`], with the operand and operator stacks.
pub open spec fn spec_binop_loop(toks: Seq<TokenV>, p: int, exprs: Seq<ExprV>, ops: Seq<Seq<char>>) -> SpecParse
    decreases toks.len() - p, 11int,
{
    let tok = spec_peek(toks, p);
    if tok.token_type == TokenType::Operator {
        match spec_factor(toks, p + 1) {
            Err(e) => Err(e),
            Ok((right, q)) => if !advanced(toks, p, q) {
                Err(stalled())
            } else {
                let (e2, o2) = reduce_for(exprs, ops, tok.text);
                spec_binop_loop(toks, q, e2.push(right), o2.push(tok.text))
            },
        }
    } else {
        Ok((reduce_all(exprs, ops), p))
    }
}

/// An integer literal.
pub open spec fn spec_int_literal(toks: Seq<TokenV>, p: int) -> SpecParse {
    let tok = spec_peek(toks, p);
    if tok.token_type == TokenType::Integer {
        match parse_i8(tok.text) {
            Some(v) => Ok((
                ExprV::Literal { value: Some(LiteralValue::Int(v)), loc: tok.loc, t: TypeV::Unit },
                p + 1,
            )),
            None => Err(PErrV::InvalidInteger(tok.text)),
        }
    } else {
        Err(unexpected(tok, token_type_name(TokenType::Integer)))
    }
}

/// A boolean literal.
pub open spec fn spec_bool_literal(toks: Seq<TokenV>, p: int) -> SpecParse {
    let tok = spec_peek(toks, p);
    if tok.token_type == TokenType::Boolean {
        match parse_bool(tok.text) {
            Some(v) => Ok((
                ExprV::Literal { value: Some(LiteralValue::Bool(v)), loc: tok.loc, t: TypeV::Unit },
                p + 1,
            )),
            None => Err(PErrV::InvalidBoolean(tok.text)),
        }
    } else {
        Err(unexpected(tok, token_type_name(TokenType::Boolean)))
    }
}

/// An identifier.
pub open spec fn spec_identifier(toks: Seq<TokenV>, p: int) -> Result<(IdentV, int), PErrV> {
    let tok = spec_peek(toks, p);
    if tok.token_type == TokenType::Identifier {
        Ok((IdentV { name: tok.text, loc: tok.loc, t: TypeV::Unit }, p + 1))
    } else {
        Err(unexpected(tok, token_type_name(TokenType::Identifier)))
    }
}

/// An operand: a unary operation, a parenthesized expression, an `if`, a
/// `while`, a block, a literal, an identifier or a function call.
pub open spec fn spec_factor(toks: Seq<TokenV>, p: int) -> SpecParse
    decreases toks.len() - p, 10int,
{
    let tok = spec_peek(toks, p);
    if tok.text == "var"@ {
        Err(PErrV::VarNotAllowed { location: tok.loc })
    } else if tok.text == "-"@ || tok.text == "not"@ {
        spec_unary_op(toks, p)
    } else if tok.text == "("@ {
        spec_parenthesized(toks, p)
    } else if tok.text == "if"@ {
        spec_if(toks, p)
    } else if tok.text == "while"@ {
        spec_while(toks, p)
    } else if tok.text == "{"@ {
        spec_block(toks, p)
    } else {
        match tok.token_type {
            TokenType::Integer => spec_int_literal(toks, p),
            TokenType::Identifier => match spec_identifier(toks, p) {
                Err(e) => Err(e),
                Ok((id, q)) => if 0 <= q < toks.len() && toks[q].text == "("@ {
                    spec_function_call(toks, q, id)
                } else {
                    Ok((ExprV::Identifier { id }, q))
                },
            },
            TokenType::Boolean => spec_bool_literal(toks, p),
            _ => Err(unexpected(tok, "Integer or Identifier"@)),
        }
    }
}

/// `not x` or `- x`.
pub open spec fn spec_unary_op(toks: Seq<TokenV>, p: int) -> SpecParse
    decreases toks.len() - p, 5int,
{
    let tok = spec_peek(toks, p);
    if 0 <= p < toks.len() && (tok.text == "not"@ || tok.text == "-"@) {
        match spec_factor(toks, p + 1) {
            Err(e) => Err(e),
            Ok((right, q)) => Ok((
                ExprV::UnaryOp { op: tok.text, right: Box::new(right), loc: tok.loc, t: TypeV::Unit },
                q,
            )),
        }
    } else {
        Err(unexpected(tok, "not, -"@))
    }
}

/// `( e )`: the tree of `e`.
pub open spec fn spec_parenthesized(toks: Seq<TokenV>, p: int) -> SpecParse
    decreases toks.len() - p, 5int,
{
    match spec_expect(toks, p, "("@) {
        Err(e) => Err(e),
        Ok(q) => match spec_binary_op(toks, q) {
            Err(e) => Err(e),
            Ok((e, q2)) => match spec_expect(toks, q2, ")"@) {
                Err(err) => Err(err),
                Ok(q3) => Ok((e, q3)),
            },
        },
    }
}

/// `if c then a [else b]`, located at the `if`.
pub open spec fn spec_if(toks: Seq<TokenV>, p: int) -> SpecParse
    decreases toks.len() - p, 5int,
{
    let loc = spec_peek(toks, p).loc;
    match spec_expect(toks, p, "if"@) {
        Err(e) => Err(e),
        Ok(q) => match spec_binary_op(toks, q) {
            Err(e) => Err(e),
            Ok((c, q2)) => if !advanced(toks, p, q2) {
                Err(stalled())
            } else {
                match spec_expect(toks, q2, "then"@) {
                    Err(e) => Err(e),
                    Ok(q3) => match spec_binary_op(toks, q3) {
                        Err(e) => Err(e),
                        Ok((t, q4)) => if !advanced(toks, p, q4) {
                            Err(stalled())
                        } else if 0 <= q4 < toks.len() && toks[q4].text == "else"@ {
                            match spec_binary_op(toks, q4 + 1) {
                                Err(e) => Err(e),
                                Ok((e, q5)) => Ok((
                                    ExprV::If {
                                        cond: Box::new(c),
                                        then_branch: Box::new(t),
                                        else_branch: Some(Box::new(e)),
                                        loc,
                                        t: TypeV::Unit,
                                    },
                                    q5,
                                )),
                            }
                        } else {
                            Ok((
                                ExprV::If {
                                    cond: Box::new(c),
                                    then_branch: Box::new(t),
                                    else_branch: None,
                                    loc,
                                    t: TypeV::Unit,
                                },
                                q4,
                            ))
                        },
                    },
                }
            },
        },
    }
}

/// `while c do b`, located at the `while`.
pub open spec fn spec_while(toks: Seq<TokenV>, p: int) -> SpecParse
    decreases toks.len() - p, 5int,
{
    let loc = spec_peek(toks, p).loc;
    match spec_expect(toks, p, "while"@) {
        Err(e) => Err(e),
        Ok(q) => match spec_binary_op(toks, q) {
            Err(e) => Err(e),
            Ok((c, q2)) => if !advanced(toks, p, q2) {
                Err(stalled())
            } else {
                match spec_expect(toks, q2, "do"@) {
                    Err(e) => Err(e),
                    Ok(q3) => match spec_binary_op(toks, q3) {
                        Err(e) => Err(e),
                        Ok((b, q4)) => Ok((
                            ExprV::While { cond: Box::new(c), body: Box::new(b), loc, t: TypeV::Unit },
                            q4,
                        )),
                    },
                }
            },
        },
    }
}

/// The optional `: Int`, `: Bool` or `: Unit` of a declaration at `q`.
pub open spec fn spec_declared_type(toks: Seq<TokenV>, q: int) -> Result<(Option<TypeV>, int), PErrV> {
    if 0 <= q < toks.len() && toks[q].text == ":"@ {
        let tt = spec_peek(toks, q + 1);
        if 0 <= q + 1 < toks.len() && tt.text == "Int"@ {
            Ok((Some(TypeV::Int), q + 2))
        } else if 0 <= q + 1 < toks.len() && tt.text == "Bool"@ {
            Ok((Some(TypeV::Bool), q + 2))
        } else if 0 <= q + 1 < toks.len() && tt.text == "Unit"@ {
            Ok((Some(TypeV::Unit), q + 2))
        } else {
            Err(unexpected(tt, "Int, Bool, Unit"@))
        }
    } else {
        Ok((None, q))
    }
}

/// `var x [: T] = e`, located at the name.
pub open spec fn spec_var_declaration(toks: Seq<TokenV>, p: int) -> SpecParse
    decreases toks.len() - p, 5int,
{
    match spec_expect(toks, p, "var"@) {
        Err(e) => Err(e),
        Ok(q) => {
            let tok = spec_peek(toks, q);
            if tok.token_type != TokenType::Identifier {
                Err(
                    PErrV::UnexpectedToken {
                        location: tok.loc,
                        expected: token_type_name(TokenType::Identifier),
                        found: token_type_name(tok.token_type),
                    },
                )
            } else {
                let var = IdentV { name: tok.text, loc: tok.loc, t: TypeV::Unit };
                match spec_declared_type(toks, q + 1) {
                    Err(e) => Err(e),
                    Ok((declared_type, q2)) => match spec_expect(toks, q2, "="@) {
                        Err(e) => Err(e),
                        Ok(q3) => match spec_binary_op(toks, q3) {
                            Err(e) => Err(e),
                            Ok((init, q4)) => Ok((
                                ExprV::VarDeclaration {
                                    var,
                                    declared_type,
                                    initializer: Box::new(init),
                                    loc: var.loc,
                                    t: TypeV::Unit,
                                },
                                q4,
                            )),
                        },
                    },
                }
            }
        },
    }
}

/// `{ s1; s2 ... }`, located at the `{`.
pub open spec fn spec_block(toks: Seq<TokenV>, p: int) -> SpecParse
    decreases toks.len() - p, 5int,
{
    let loc = spec_peek(toks, p).loc;
    match spec_expect(toks, p, "{"@) {
        Err(e) => Err(e),
        Ok(q) => spec_block_loop(toks, q, seq![], loc),
    }
}

/// The statements of a block after its `{`. A statement is followed by `;`, by
/// the closing `}` (it is then the block's value), or by nothing when it ends
/// with a block itself. A `}` right after a `;` (or after the `{`) gives the
/// block the unit value, located at that `}`.
pub open spec fn spec_block_loop(toks: Seq<TokenV>, q: int, stmts: Seq<ExprV>, loc: LocV) -> SpecParse
    decreases toks.len() - q, 20int,
{
    if 0 <= q < toks.len() && toks[q].text == "}"@ {
        Ok((mk_block(stmts.push(unit_literal(toks[q].loc)), loc), q + 1))
    } else {
        match spec_expression(toks, q) {
            Err(e) => Err(e),
            Ok((e, q2)) => if !advanced(toks, q, q2) {
                Err(stalled())
            } else {
                let next = spec_peek(toks, q2);
                if next.token_type == TokenType::Punctuation && next.text == ";"@ {
                    spec_block_loop(toks, q2 + 1, stmts.push(e), loc)
                } else if next.token_type == TokenType::Punctuation && next.text == "}"@ {
                    Ok((mk_block(stmts.push(e), loc), q2 + 1))
                } else if e.is_block() {
                    spec_block_loop(toks, q2, stmts.push(e), loc)
                } else {
                    Err(unexpected(next, "}"@))
                }
            },
        }
    }
}

/// `name(a1, a2, ...)`, from the `(` at `q`.
pub open spec fn spec_function_call(toks: Seq<TokenV>, q: int, name: IdentV) -> SpecParse
    decreases toks.len() - q, 5int,
{
    match spec_expect(toks, q, "("@) {
        Err(e) => Err(e),
        Ok(q1) => spec_args_loop(toks, q1, seq![], name),
    }
}

/// The arguments of a call after its `(`, each followed by `,` or by `)`.
pub open spec fn spec_args_loop(toks: Seq<TokenV>, q: int, args: Seq<ExprV>, name: IdentV) -> SpecParse
    decreases toks.len() - q, 20int,
{
    if 0 <= q < toks.len() && toks[q].text == ")"@ {
        Ok((ExprV::FunctionCall { name, args, loc: name.loc, t: TypeV::Unit }, q + 1))
    } else {
        match spec_binary_op(toks, q) {
            Err(e) => Err(e),
            Ok((a, q2)) => if !advanced(toks, q, q2) {
                Err(stalled())
            } else if 0 <= q2 < toks.len() && toks[q2].text == ")"@ {
                spec_args_loop(toks, q2, args.push(a), name)
            } else {
                match spec_expect(toks, q2, ","@) {
                    Err(e) => Err(e),
                    Ok(q3) => spec_args_loop(toks, q3, args.push(a), name),
                }
            },
        }
    }
}

/// An expression where a statement may stand: a declaration, an `if`, a
/// `while`, a block, or a binary-operator expression.
pub open spec fn spec_expression(toks: Seq<TokenV>, p: int) -> SpecParse
    decreases toks.len() - p, 15int,
{
    let text = spec_peek(toks, p).text;
    if text == "var"@ {
        spec_var_declaration(toks, p)
    } else if text == "if"@ {
        spec_if(toks, p)
    } else if text == "while"@ {
        spec_while(toks, p)
    } else if text == "{"@ {
        spec_block(toks, p)
    } else {
        spec_binary_op(toks, p)
    }
}

/// The remaining top-level statements. A statement is followed by `;`, by the
/// end of input (it is then the value), or by nothing when it ends with a
/// block. Ending on `;` (or a block) appends the unit value, located where the
/// input ends.
pub open spec fn spec_top_loop(toks: Seq<TokenV>, q: int, stmts: Seq<ExprV>) -> Result<(Seq<ExprV>, int), PErrV>
    decreases toks.len() - q, 20int,
{
    if spec_peek(toks, q).token_type == TokenType::End {
        Ok((stmts.push(unit_literal(spec_peek(toks, q).loc)), q))
    } else {
        match spec_expression(toks, q) {
            Err(e) => Err(e),
            Ok((e, q2)) => if !advanced(toks, q, q2) {
                Err(stalled())
            } else {
                let next = spec_peek(toks, q2);
                if 0 <= q2 < toks.len() && next.text == ";"@ {
                    spec_top_loop(toks, q2 + 1, stmts.push(e))
                } else if next.token_type == TokenType::End {
                    Ok((stmts.push(e), q2))
                } else if e.is_block() {
                    spec_top_loop(toks, q2, stmts.push(e))
                } else {
                    Err(unexpected(next, ";"@))
                }
            },
        }
    }
}

/// The top-level statements after the first one, `first`, which must be
/// followed by `;` unless it ends with a block.
pub open spec fn spec_top_level(toks: Seq<TokenV>, p: int, first: ExprV) -> Result<(Seq<ExprV>, int), PErrV>
    decreases toks.len() - p, 21int,
{
    if first.is_block() {
        spec_top_loop(toks, p, seq![first])
    } else {
        match spec_expect(toks, p, ";"@) {
            Err(e) => Err(e),
            Ok(q) => spec_top_loop(toks, q, seq![first]),
        }
    }
}

/// A whole program from position `p`: one expression, or, when more follows,
/// a block of all the top-level statements located at the first token.
pub open spec fn spec_parse(toks: Seq<TokenV>, p: int) -> SpecParse {
    let start = spec_peek(toks, p).loc;
    match spec_expression(toks, p) {
        Err(e) => Err(e),
        Ok((e, q)) => if spec_peek(toks, q).token_type != TokenType::End {
            match spec_top_level(toks, q, e) {
                Err(err) => Err(err),
                Ok((stmts, q2)) => Ok((mk_block(stmts, start), q2)),
            }
        } else {
            Ok((e, q))
        },
    }
}


// ---------------------------------------------------------------------------
// The parser
// ---------------------------------------------------------------------------
/// A parser over a token sequence, with the position of the next token.
pub struct Parser {
    pos: usize,
    tokens: Vec<Token>,
}

/// `res` is what the parsing step `s` yields, and `pos` the position after it
/// when it succeeds.
pub open spec fn outcome(res: Result<Expression, ParserError>, pos: int, s: SpecParse) -> bool {
    match s {
        Ok((e, q)) => res matches Ok(x) && x@ == e && pos == q,
        Err(err) => res matches Err(x) && x@ == err,
    }
}

/// `res` is the literal that the parsing step `s` yields, and `pos` the
/// position after it when it succeeds.
pub open spec fn literal_outcome(res: Result<Literal, ParserError>, pos: int, s: SpecParse) -> bool {
    match s {
        Ok((e, q)) => res matches Ok(x) && Expression::Literal(x)@ == e && pos == q,
        Err(err) => res matches Err(x) && x@ == err,
    }
}

pub open spec fn ops_view(ops: Seq<String>) -> Seq<Seq<char>> {
    ops.map_values(|s: String| s@)
}

fn unexpected_error(tok: &Token, expected: &str) -> (e: ParserError)
    ensures
        e@ == unexpected(tok@, expected@),
{
    ParserError::UnexpectedToken {
        location: tok.loc.clone(),
        expected: expected.to_owned(),
        found: tok.text.clone(),
    }
}

fn type_name_error(tok: &Token, expected: TokenType) -> (e: ParserError)
    ensures
        e@ == unexpected(tok@, token_type_name(expected)),
{
    ParserError::UnexpectedToken {
        location: tok.loc.clone(),
        expected: expected.to_string(),
        found: tok.text.clone(),
    }
}

proof fn lemma_digits_value_nonneg(s: Seq<char>)
    requires
        all_digits(s),
    ensures
        digits_value(s) >= 0,
    decreases s.len(),
{
    if s.len() > 0 {
        assert(is_digit(s[s.len() - 1]));
        assert forall|i: int| 0 <= i < s.drop_last().len() implies #[trigger] is_digit(s.drop_last()[i]) by {
            assert(is_digit(s[i]));
        }
        lemma_digits_value_nonneg(s.drop_last());
    }
}

/// Reads `s` as an 8-bit integer (see [`parse_i8`]).
fn parse_i8_text(s: &str) -> (r: Option<i8>)
    ensures
        r == parse_i8(s@),
{
    let v = chars_of(s);
    let n = v.len();
    if n == 0 {
        return None;
    }
    let neg = v[0] == '-';
    let start: usize = if v[0] == '-' || v[0] == '+' {
        1
    } else {
        0
    };
    if start == n {
        return None;
    }
    let mut acc: u32 = 0;
    let mut i: usize = start;
    while i < n
        invariant
            v@ == s@,
            n == v@.len(),
            start <= i <= n,
            start < n,
            start == 0 || start == 1,
            (start == 1) == (s@[0] == '-' || s@[0] == '+'),
            neg == (s@[0] == '-'),
            all_digits(v@.subrange(start as int, i as int)),
            acc == if digits_value(v@.subrange(start as int, i as int)) >= 1000 {
                1000
            } else {
                digits_value(v@.subrange(start as int, i as int))
            },
        decreases n - i,
    {
        let c = v[i];
        if !('0' <= c && c <= '9') {
            proof {
                let d = v@.subrange(start as int, n as int);
                assert(!is_digit(d[i - start]));
                if start == 1 {
                    assert(d =~= s@.drop_first());
                } else {
                    assert(d =~= s@);
                }
            }
            return None;
        }
        let ghost prev = v@.subrange(start as int, i as int);
        let ghost next = v@.subrange(start as int, i + 1);
        proof {
            assert(next.drop_last() =~= prev);
            assert forall|j: int| 0 <= j < next.len() implies #[trigger] is_digit(next[j]) by {
                if j < prev.len() {
                    assert(next[j] == prev[j]);
                }
            }
            lemma_digits_value_nonneg(prev);
        }
        let d: u32 = (c as u32) - 48;
        if acc >= 1000 {
            acc = 1000;
        } else {
            let x = acc * 10 + d;
            acc = if x >= 1000 {
                1000
            } else {
                x
            };
        }
        i = i + 1;
    }
    proof {
        let d = v@.subrange(start as int, n as int);
        if start == 1 {
            assert(d =~= s@.drop_first());
        } else {
            assert(d =~= s@);
        }
        lemma_digits_value_nonneg(d);
    }
    if neg {
        if acc <= 128 {
            let x: i32 = 0 - (acc as i32);
            Some(x as i8)
        } else {
            None
        }
    } else if acc <= 127 {
        Some(acc as i8)
    } else {
        None
    }
}

/// Reads `s` as a boolean (see [`parse_bool`]).
fn parse_bool_text(s: &str) -> (r: Option<bool>)
    ensures
        r == parse_bool(s@),
{
    if same_text(s, "true") {
        Some(true)
    } else if same_text(s, "false") {
        Some(false)
    } else {
        None
    }
}

/// The precedence level of a binary operator (see [`prec`]).
fn op_precedence(op: &str) -> (r: usize)
    ensures
        r as int == prec(op@),
{
    if same_text(op, "=") {
        0
    } else if same_text(op, "or") {
        1
    } else if same_text(op, "and") {
        2
    } else if same_text(op, "==") || same_text(op, "!=") {
        3
    } else if same_text(op, "<") || same_text(op, "<=") || same_text(op, ">") || same_text(op, ">=") {
        4
    } else if same_text(op, "+") || same_text(op, "-") {
        5
    } else if same_text(op, "*") || same_text(op, "/") || same_text(op, "&") {
        6
    } else {
        7
    }
}

/// Replaces the two topmost operands and the topmost operator by one node.
fn combine_top(exprs: &mut Vec<Expression>, ops: &mut Vec<String>)
    requires
        old(exprs)@.len() == old(ops)@.len() + 1,
        old(ops)@.len() > 0,
    ensures
        final(exprs)@.len() == final(ops)@.len() + 1,
        final(ops)@.len() == old(ops)@.len() - 1,
        (exprs_value(final(exprs)@), ops_view(final(ops)@)) == combine(
            exprs_value(old(exprs)@),
            ops_view(old(ops)@),
        ),
{
    let ghost e0 = exprs@;
    let ghost o0 = ops@;
    proof {
        lemma_exprs_value(e0);
    }
    let r = exprs.pop().unwrap();
    let l = exprs.pop().unwrap();
    let o = ops.pop().unwrap();
    let node = Expression::BinaryOp(BinaryOp::new(Box::new(l), o.as_str(), Box::new(r)));
    let ghost rest = exprs@;
    exprs.push(node);
    proof {
        let n = e0.len();
        assert(rest =~= e0.take(n - 2));
        lemma_exprs_value(rest);
        lemma_exprs_value(e0.take(n - 2));
        lemma_exprs_value_push(rest, node);
        assert(exprs_value(rest) =~= exprs_value(e0).take(n - 2));
        assert(ops_view(ops@) =~= ops_view(o0).drop_last());
    }
}

/// Combines before `op` is pushed (see [`reduce_for`]).
fn reduce_stack(exprs: &mut Vec<Expression>, ops: &mut Vec<String>, op: &str)
    requires
        old(exprs)@.len() == old(ops)@.len() + 1,
    ensures
        final(exprs)@.len() == final(ops)@.len() + 1,
        (exprs_value(final(exprs)@), ops_view(final(ops)@)) == reduce_for(
            exprs_value(old(exprs)@),
            ops_view(old(ops)@),
            op@,
        ),
{
    let curr = op_precedence(op);
    let is_assign = same_text(op, "=");
    let mut done = false;
    while !done && ops.len() > 0
        invariant
            exprs@.len() == ops@.len() + 1,
            curr as int == prec(op@),
            is_assign == (op@ == "="@),
            done ==> reduce_for(exprs_value(exprs@), ops_view(ops@), op@) == (exprs_value(exprs@), ops_view(ops@)),
            reduce_for(exprs_value(old(exprs)@), ops_view(old(ops)@), op@) == reduce_for(
                exprs_value(exprs@),
                ops_view(ops@),
                op@,
            ),
        decreases ops@.len(), if done { 0int } else { 1int },
    {
        let prev = op_precedence(ops[ops.len() - 1].as_str());
        proof {
            lemma_exprs_value(exprs@);
            assert(ops_view(ops@).last() == ops@.last()@);
        }
        if curr < prev || (curr == prev && !is_assign) {
            combine_top(exprs, ops);
        } else {
            done = true;
        }
    }
    proof {
        lemma_exprs_value(exprs@);
    }
}

/// Combines everything on the stacks into one tree (see [`reduce_all`]).
fn reduce_everything(exprs: &mut Vec<Expression>, ops: &mut Vec<String>) -> (e: Expression)
    requires
        old(exprs)@.len() == old(ops)@.len() + 1,
    ensures
        e@ == reduce_all(exprs_value(old(exprs)@), ops_view(old(ops)@)),
{
    while ops.len() > 0
        invariant
            exprs@.len() == ops@.len() + 1,
            reduce_all(exprs_value(old(exprs)@), ops_view(old(ops)@)) == reduce_all(
                exprs_value(exprs@),
                ops_view(ops@),
            ),
        decreases ops@.len(),
    {
        combine_top(exprs, ops);
    }
    proof {
        lemma_exprs_value(exprs@);
        assert(ops_view(ops@) =~= Seq::<Seq<char>>::empty());
    }
    exprs.pop().unwrap()
}


impl Parser {
    /// The tokens.
    pub closed spec fn toks(&self) -> Seq<TokenV> {
        tokens_view(self.tokens@)
    }

    /// The position of the next token.
    pub closed spec fn position(&self) -> int {
        self.pos as int
    }

    /// A parser at the first of `tokens`.
    pub fn new(tokens: Vec<Token>) -> (p: Self)
        ensures
            p.toks() == tokens_view(tokens@),
            p.position() == 0,
    {
        Parser { tokens, pos: 0 }
    }

    /// The token at the current position (see [`spec_peek`]).
    pub fn peek(&self) -> (t: Token)
        ensures
            t@ == spec_peek(self.toks(), self.position()),
    {
        let n = self.tokens.len();
        if self.pos < n {
            self.tokens[self.pos].clone()
        } else if n > 0 {
            Token {
                text: String::new(),
                token_type: TokenType::End,
                loc: self.tokens[n - 1].loc.clone(),
            }
        } else {
            Token { text: String::new(), token_type: TokenType::End, loc: Location::special() }
        }
    }

    /// Whether the current token exists and has the text `s`.
    fn at_text(&self, s: &str) -> (r: bool)
        ensures
            r == (0 <= self.position() < self.toks().len() && self.toks()[self.position()].text
                == s@),
    {
        self.pos < self.tokens.len() && same_text(self.tokens[self.pos].text.as_str(), s)
    }

    fn advance(&mut self)
        requires
            old(self).position() < old(self).toks().len(),
        ensures
            final(self).toks() == old(self).toks(),
            final(self).position() == old(self).position() + 1,
    {
        let n = self.tokens.len();
        assert(self.toks().len() == n);
        self.pos = self.pos + 1;
    }

    /// Consumes the current token if its text is `s` (see [`spec_expect`]).
    fn expect(&mut self, s: &str) -> (r: Result<(), ParserError>)
        ensures
            final(self).toks() == old(self).toks(),
            match spec_expect(old(self).toks(), old(self).position(), s@) {
                Ok(q) => r is Ok && final(self).position() == q,
                Err(e) => r matches Err(x) && x@ == e,
            },
    {
        if self.at_text(s) {
            self.advance();
            Ok(())
        } else {
            let tok = self.peek();
            Err(unexpected_error(&tok, s))
        }
    }

    /// Consumes the current token if `expected` accepts its text (see
    /// [`spec_consume`]) and returns it.
    pub fn consume_expect(&mut self, expected: Expected) -> (res: Result<Token, ParserError>)
        ensures
            final(self).toks() == old(self).toks(),
            match spec_consume(old(self).toks(), old(self).position(), expected@) {
                Ok((t, q)) => res matches Ok(x) && x@ == t && final(self).position() == q,
                Err(e) => res matches Err(x) && x@ == e && final(self).position() == old(self).position(),
            },
    {
        let token = self.peek();
        match expected {
            Expected::Single(s) => {
                if !same_text(s.as_str(), token.text.as_str()) {
                    return Err(
                        ParserError::UnexpectedToken { location: token.loc, expected: s, found: token.text },
                    );
                }
            },
            Expected::Multiple(v) => {
                if !contains_text(&v, token.text.as_str()) {
                    let expected = join_texts(&v);
                    return Err(ParserError::UnexpectedToken { location: token.loc, expected, found: token.text });
                }
            },
            Expected::Any => {},
        }
        if self.pos < self.tokens.len() {
            self.advance();
        }
        Ok(token)
    }

    /// Consumes the current token, whatever it is, and returns it.
    pub fn consume(&mut self) -> (res: Result<Token, ParserError>)
        ensures
            final(self).toks() == old(self).toks(),
            match spec_consume(old(self).toks(), old(self).position(), ExpectedV::Any) {
                Ok((t, q)) => res matches Ok(x) && x@ == t && final(self).position() == q,
                Err(e) => res matches Err(x) && x@ == e && final(self).position() == old(self).position(),
            },
    {
        self.consume_expect(Expected::Any)
    }

    /// Parses an integer literal (see [`spec_int_literal`]).
    pub fn parse_int_literal(&mut self) -> (res: Result<Literal, ParserError>)
        ensures
            final(self).toks() == old(self).toks(),
            literal_outcome(res, final(self).position(), spec_int_literal(old(self).toks(), old(self).position())),
            res is Ok ==> advanced(old(self).toks(), old(self).position(), final(self).position()),
    {
        let tok = self.peek();
        if tok.token_type == TokenType::Integer {
            self.advance();
            match parse_i8_text(tok.text.as_str()) {
                Some(v) => Ok(Literal::new(LiteralValue::Int(v), tok.loc)),
                None => Err(ParserError::InvalidInteger(tok.text)),
            }
        } else {
            Err(type_name_error(&tok, TokenType::Integer))
        }
    }

    /// Parses a boolean literal (see [`spec_bool_literal`]).
    pub fn parse_bool_literal(&mut self) -> (res: Result<Literal, ParserError>)
        ensures
            final(self).toks() == old(self).toks(),
            literal_outcome(res, final(self).position(), spec_bool_literal(old(self).toks(), old(self).position())),
            res is Ok ==> advanced(old(self).toks(), old(self).position(), final(self).position()),
    {
        let tok = self.peek();
        if tok.token_type == TokenType::Boolean {
            self.advance();
            match parse_bool_text(tok.text.as_str()) {
                Some(v) => Ok(Literal::new(LiteralValue::Bool(v), tok.loc)),
                None => Err(ParserError::InvalidBoolean(tok.text)),
            }
        } else {
            Err(type_name_error(&tok, TokenType::Boolean))
        }
    }

    /// Parses an identifier (see [`spec_identifier`]).
    pub fn parse_identifier(&mut self) -> (res: Result<Identifier, ParserError>)
        ensures
            final(self).toks() == old(self).toks(),
            match spec_identifier(old(self).toks(), old(self).position()) {
                Ok((id, q)) => res matches Ok(x) && x.value() == id && final(self).position() == q,
                Err(e) => res matches Err(x) && x@ == e,
            },
            res is Ok ==> advanced(old(self).toks(), old(self).position(), final(self).position()),
    {
        let tok = self.peek();
        if tok.token_type == TokenType::Identifier {
            self.advance();
            Ok(Identifier::new(tok.text.as_str(), tok.loc))
        } else {
            Err(type_name_error(&tok, TokenType::Identifier))
        }
    }

    /// Parses a binary-operator expression (see [`spec_binary_op`]).
    fn parse_binary_op(&mut self) -> (res: Result<Expression, ParserError>)
        ensures
            final(self).toks() == old(self).toks(),
            outcome(res, final(self).position(), spec_binary_op(old(self).toks(), old(self).position())),
            res is Ok ==> advanced(old(self).toks(), old(self).position(), final(self).position()),
        decreases old(self).toks().len() - old(self).position(), 12int,
    {
        let ghost p0 = self.position();
        let ghost toks = self.toks();
        let f = match self.parse_factor() {
            Ok(f) => f,
            Err(e) => return Err(e),
        };
        let mut exprs: Vec<Expression> = Vec::new();
        let mut ops: Vec<String> = Vec::new();
        proof {
            lemma_exprs_value_push(exprs@, f);
            assert(exprs_value(exprs@) =~= Seq::<ExprV>::empty());
            assert(ops_view(ops@) =~= Seq::<Seq<char>>::empty());
        }
        exprs.push(f);
        loop
            invariant
                self.toks() == toks,
                toks == old(self).toks(),
                p0 == old(self).position(),
                p0 < self.position() <= toks.len(),
                exprs@.len() == ops@.len() + 1,
                spec_binary_op(toks, p0) == spec_binop_loop(
                    toks,
                    self.position(),
                    exprs_value(exprs@),
                    ops_view(ops@),
                ),
            decreases toks.len() - self.position(),
        {
            let tok = self.peek();
            if tok.token_type == TokenType::Operator {
                self.advance();
                let right = match self.parse_factor() {
                    Ok(r) => r,
                    Err(e) => return Err(e),
                };
                reduce_stack(&mut exprs, &mut ops, tok.text.as_str());
                proof {
                    lemma_exprs_value_push(exprs@, right);
                    assert(ops_view(ops@.push(tok.text)) =~= ops_view(ops@).push(tok.text@));
                }
                exprs.push(right);
                ops.push(tok.text);
            } else {
                let e = reduce_everything(&mut exprs, &mut ops);
                return Ok(e);
            }
        }
    }

    /// Parses an operand (see [`spec_factor`]).
    fn parse_factor(&mut self) -> (res: Result<Expression, ParserError>)
        ensures
            final(self).toks() == old(self).toks(),
            outcome(res, final(self).position(), spec_factor(old(self).toks(), old(self).position())),
            res is Ok ==> advanced(old(self).toks(), old(self).position(), final(self).position()),
        decreases old(self).toks().len() - old(self).position(), 10int,
    {
        let tok = self.peek();
        let text = tok.text.as_str();
        if same_text(text, "var") {
            Err(ParserError::VarNotAllowed { location: tok.loc })
        } else if same_text(text, "-") || same_text(text, "not") {
            self.parse_unary_op()
        } else if same_text(text, "(") {
            self.parse_parenthesized()
        } else if same_text(text, "if") {
            self.parse_if()
        } else if same_text(text, "while") {
            self.parse_while()
        } else if same_text(text, "{") {
            self.parse_block()
        } else {
            match tok.token_type {
                TokenType::Integer => match self.parse_int_literal() {
                    Ok(l) => Ok(Expression::Literal(l)),
                    Err(e) => Err(e),
                },
                TokenType::Identifier => {
                    let id = match self.parse_identifier() {
                        Ok(id) => id,
                        Err(e) => return Err(e),
                    };
                    if self.at_text("(") {
                        self.parse_function_call(id)
                    } else {
                        Ok(Expression::Identifier(id))
                    }
                },
                TokenType::Boolean => match self.parse_bool_literal() {
                    Ok(l) => Ok(Expression::Literal(l)),
                    Err(e) => Err(e),
                },
                _ => Err(unexpected_error(&tok, "Integer or Identifier")),
            }
        }
    }

    /// Parses `not x` or `- x` (see [`spec_unary_op`]).
    fn parse_unary_op(&mut self) -> (res: Result<Expression, ParserError>)
        ensures
            final(self).toks() == old(self).toks(),
            outcome(res, final(self).position(), spec_unary_op(old(self).toks(), old(self).position())),
            res is Ok ==> advanced(old(self).toks(), old(self).position(), final(self).position()),
        decreases old(self).toks().len() - old(self).position(), 5int,
    {
        let tok = self.peek();
        if self.pos < self.tokens.len() && (same_text(tok.text.as_str(), "not") || same_text(
            tok.text.as_str(),
            "-",
        )) {
            self.advance();
            let right = match self.parse_factor() {
                Ok(r) => r,
                Err(e) => return Err(e),
            };
            Ok(Expression::UnaryOp(UnaryOp::new(tok.text.as_str(), Box::new(right), tok.loc)))
        } else {
            Err(unexpected_error(&tok, "not, -"))
        }
    }

    /// Parses `( e )` (see [`spec_parenthesized`]).
    pub fn parse_parenthesized(&mut self) -> (res: Result<Expression, ParserError>)
        ensures
            final(self).toks() == old(self).toks(),
            outcome(res, final(self).position(), spec_parenthesized(old(self).toks(), old(self).position())),
            res is Ok ==> advanced(old(self).toks(), old(self).position(), final(self).position()),
        decreases old(self).toks().len() - old(self).position(), 5int,
    {
        match self.expect("(") {
            Ok(()) => {},
            Err(e) => return Err(e),
        }
        let e = match self.parse_binary_op() {
            Ok(e) => e,
            Err(err) => return Err(err),
        };
        match self.expect(")") {
            Ok(()) => Ok(e),
            Err(err) => Err(err),
        }
    }

    /// Parses `if c then a [else b]` (see [`spec_if`]).
    fn parse_if(&mut self) -> (res: Result<Expression, ParserError>)
        ensures
            final(self).toks() == old(self).toks(),
            outcome(res, final(self).position(), spec_if(old(self).toks(), old(self).position())),
            res is Ok ==> advanced(old(self).toks(), old(self).position(), final(self).position()),
        decreases old(self).toks().len() - old(self).position(), 5int,
    {
        let loc = self.peek().loc;
        match self.expect("if") {
            Ok(()) => {},
            Err(e) => return Err(e),
        }
        let c = match self.parse_binary_op() {
            Ok(c) => c,
            Err(e) => return Err(e),
        };
        match self.expect("then") {
            Ok(()) => {},
            Err(e) => return Err(e),
        }
        let t = match self.parse_binary_op() {
            Ok(t) => t,
            Err(e) => return Err(e),
        };
        if self.at_text("else") {
            self.advance();
            let e = match self.parse_binary_op() {
                Ok(e) => e,
                Err(err) => return Err(err),
            };
            Ok(Expression::If(If::new(Box::new(c), Box::new(t), Some(Box::new(e)), loc)))
        } else {
            Ok(Expression::If(If::new(Box::new(c), Box::new(t), None, loc)))
        }
    }

    /// Parses `while c do b` (see [`spec_while`]).
    fn parse_while(&mut self) -> (res: Result<Expression, ParserError>)
        ensures
            final(self).toks() == old(self).toks(),
            outcome(res, final(self).position(), spec_while(old(self).toks(), old(self).position())),
            res is Ok ==> advanced(old(self).toks(), old(self).position(), final(self).position()),
        decreases old(self).toks().len() - old(self).position(), 5int,
    {
        let loc = self.peek().loc;
        match self.expect("while") {
            Ok(()) => {},
            Err(e) => return Err(e),
        }
        let c = match self.parse_binary_op() {
            Ok(c) => c,
            Err(e) => return Err(e),
        };
        match self.expect("do") {
            Ok(()) => {},
            Err(e) => return Err(e),
        }
        let b = match self.parse_binary_op() {
            Ok(b) => b,
            Err(e) => return Err(e),
        };
        Ok(Expression::While(While::new(Box::new(c), Box::new(b), loc)))
    }

    /// Parses the optional declared type of a declaration (see
    /// [`spec_declared_type`]).
    fn parse_declared_type(&mut self) -> (res: Result<Option<Type>, ParserError>)
        ensures
            final(self).toks() == old(self).toks(),
            match spec_declared_type(old(self).toks(), old(self).position()) {
                Ok((t, q)) => res matches Ok(x) && opt_type_value(x) == t && final(self).position() == q,
                Err(e) => res matches Err(x) && x@ == e,
            },
            res is Ok ==> old(self).position() <= final(self).position(),
    {
        if self.at_text(":") {
            self.advance();
            let tt = self.peek();
            let here = self.pos < self.tokens.len();
            if here && same_text(tt.text.as_str(), "Int") {
                self.advance();
                Ok(Some(Type::Int))
            } else if here && same_text(tt.text.as_str(), "Bool") {
                self.advance();
                Ok(Some(Type::Bool))
            } else if here && same_text(tt.text.as_str(), "Unit") {
                self.advance();
                Ok(Some(Type::Unit))
            } else {
                Err(unexpected_error(&tt, "Int, Bool, Unit"))
            }
        } else {
            Ok(None)
        }
    }

    /// Parses `var x [: T] = e` (see [`spec_var_declaration`]).
    fn parse_var_declaration(&mut self) -> (res: Result<Expression, ParserError>)
        ensures
            final(self).toks() == old(self).toks(),
            outcome(res, final(self).position(), spec_var_declaration(old(self).toks(), old(self).position())),
            res is Ok ==> advanced(old(self).toks(), old(self).position(), final(self).position()),
        decreases old(self).toks().len() - old(self).position(), 5int,
    {
        match self.expect("var") {
            Ok(()) => {},
            Err(e) => return Err(e),
        }
        let tok = self.peek();
        if tok.token_type != TokenType::Identifier {
            return Err(
                ParserError::UnexpectedToken {
                    location: tok.loc,
                    expected: TokenType::Identifier.to_string(),
                    found: tok.token_type.to_string(),
                },
            );
        }
        self.advance();
        let var = Identifier::new(tok.text.as_str(), tok.loc);
        let declared_type = match self.parse_declared_type() {
            Ok(t) => t,
            Err(e) => return Err(e),
        };
        match self.expect("=") {
            Ok(()) => {},
            Err(e) => return Err(e),
        }
        let init = match self.parse_binary_op() {
            Ok(i) => i,
            Err(e) => return Err(e),
        };
        Ok(Expression::VarDeclaration(VarDeclaration::new(var, declared_type, Box::new(init))))
    }

    /// Parses `{ ... }` (see [`spec_block`]).
    fn parse_block(&mut self) -> (res: Result<Expression, ParserError>)
        ensures
            final(self).toks() == old(self).toks(),
            outcome(res, final(self).position(), spec_block(old(self).toks(), old(self).position())),
            res is Ok ==> advanced(old(self).toks(), old(self).position(), final(self).position()),
        decreases old(self).toks().len() - old(self).position(), 5int,
    {
        let ghost p0 = self.position();
        let ghost toks = self.toks();
        let loc = self.peek().loc;
        match self.expect("{") {
            Ok(()) => {},
            Err(e) => return Err(e),
        }
        let mut stmts: Vec<Expression> = Vec::new();
        proof {
            assert(exprs_value(stmts@) =~= Seq::<ExprV>::empty());
        }
        loop
            invariant
                self.toks() == toks,
                toks == old(self).toks(),
                p0 == old(self).position(),
                p0 < self.position() <= toks.len(),
                spec_block(toks, p0) == spec_block_loop(toks, self.position(), exprs_value(stmts@), loc@),
            decreases toks.len() - self.position(),
        {
            if self.at_text("}") {
                let end = self.peek().loc;
                self.advance();
                let unit = Expression::Literal(Literal::none(end));
                proof {
                    lemma_exprs_value_push(stmts@, unit);
                }
                stmts.push(unit);
                return Ok(Expression::Block(Block::new(stmts, loc)));
            }
            let e = match self.parse_expression() {
                Ok(e) => e,
                Err(err) => return Err(err),
            };
            let next = self.peek();
            proof {
                lemma_exprs_value_push(stmts@, e);
            }
            if next.token_type == TokenType::Punctuation && same_text(next.text.as_str(), ";") {
                self.advance();
                stmts.push(e);
            } else if next.token_type == TokenType::Punctuation && same_text(next.text.as_str(), "}") {
                self.advance();
                stmts.push(e);
                return Ok(Expression::Block(Block::new(stmts, loc)));
            } else if e.is_block() {
                stmts.push(e);
            } else {
                return Err(unexpected_error(&next, "}"));
            }
        }
    }

    /// Parses the arguments of a call to `name` (see [`spec_function_call`]).
    fn parse_function_call(&mut self, name: Identifier) -> (res: Result<Expression, ParserError>)
        ensures
            final(self).toks() == old(self).toks(),
            outcome(
                res,
                final(self).position(),
                spec_function_call(old(self).toks(), old(self).position(), name.value()),
            ),
            res is Ok ==> advanced(old(self).toks(), old(self).position(), final(self).position()),
        decreases old(self).toks().len() - old(self).position(), 5int,
    {
        let ghost p0 = self.position();
        let ghost toks = self.toks();
        let ghost idv = name.value();
        match self.expect("(") {
            Ok(()) => {},
            Err(e) => return Err(e),
        }
        let mut args: Vec<Expression> = Vec::new();
        proof {
            assert(exprs_value(args@) =~= Seq::<ExprV>::empty());
        }
        loop
            invariant
                self.toks() == toks,
                toks == old(self).toks(),
                p0 == old(self).position(),
                p0 < self.position() <= toks.len(),
                idv == name.value(),
                spec_function_call(toks, p0, idv) == spec_args_loop(
                    toks,
                    self.position(),
                    exprs_value(args@),
                    idv,
                ),
            decreases toks.len() - self.position(),
        {
            if self.at_text(")") {
                self.advance();
                return Ok(Expression::FunctionCall(FunctionCall::new(name, args)));
            }
            let a = match self.parse_binary_op() {
                Ok(a) => a,
                Err(e) => return Err(e),
            };
            proof {
                lemma_exprs_value_push(args@, a);
            }
            if self.at_text(")") {
                args.push(a);
            } else {
                match self.expect(",") {
                    Ok(()) => {},
                    Err(e) => return Err(e),
                }
                args.push(a);
            }
        }
    }

    /// Parses a statement-level expression (see [`spec_expression`]).
    pub fn parse_expression(&mut self) -> (res: Result<Expression, ParserError>)
        ensures
            final(self).toks() == old(self).toks(),
            outcome(res, final(self).position(), spec_expression(old(self).toks(), old(self).position())),
            res is Ok ==> advanced(old(self).toks(), old(self).position(), final(self).position()),
        decreases old(self).toks().len() - old(self).position(), 15int,
    {
        let tok = self.peek();
        let text = tok.text.as_str();
        if same_text(text, "var") {
            self.parse_var_declaration()
        } else if same_text(text, "if") {
            self.parse_if()
        } else if same_text(text, "while") {
            self.parse_while()
        } else if same_text(text, "{") {
            self.parse_block()
        } else {
            self.parse_binary_op()
        }
    }

    /// Parses the top-level statements after `first` (see [`spec_top_level`]).
    fn parse_top_level_statements(&mut self, first: Expression) -> (res: Result<Vec<Expression>, ParserError>)
        requires
            old(self).position() <= old(self).toks().len(),
        ensures
            final(self).toks() == old(self).toks(),
            match spec_top_level(old(self).toks(), old(self).position(), first@) {
                Ok((stmts, q)) => res matches Ok(v) && exprs_value(v@) == stmts && final(self).position() == q,
                Err(e) => res matches Err(x) && x@ == e,
            },
    {
        let ghost p0 = self.position();
        let ghost toks = self.toks();
        let ghost fv = first@;
        if !first.is_block() {
            match self.expect(";") {
                Ok(()) => {},
                Err(e) => return Err(e),
            }
        }
        let mut stmts: Vec<Expression> = Vec::new();
        proof {
            lemma_exprs_value_push(stmts@, first);
            assert(exprs_value(stmts@) =~= Seq::<ExprV>::empty());
        }
        stmts.push(first);
        loop
            invariant
                self.toks() == toks,
                toks == old(self).toks(),
                p0 == old(self).position(),
                p0 <= self.position() <= toks.len(),
                fv == first@,
                spec_top_level(toks, p0, fv) == spec_top_loop(toks, self.position(), exprs_value(stmts@)),
            decreases toks.len() - self.position(),
        {
            let tok = self.peek();
            if tok.token_type == TokenType::End {
                let unit = Expression::Literal(Literal::none(tok.loc));
                proof {
                    lemma_exprs_value_push(stmts@, unit);
                }
                stmts.push(unit);
                return Ok(stmts);
            }
            let e = match self.parse_expression() {
                Ok(e) => e,
                Err(err) => return Err(err),
            };
            let next = self.peek();
            proof {
                lemma_exprs_value_push(stmts@, e);
            }
            if self.at_text(";") {
                self.advance();
                stmts.push(e);
            } else if next.token_type == TokenType::End {
                stmts.push(e);
                return Ok(stmts);
            } else if e.is_block() {
                stmts.push(e);
            } else {
                return Err(unexpected_error(&next, ";"));
            }
        }
    }

    /// Parses a whole program from the current position (see [`spec_parse`]):
    /// one expression, or a block of all top-level statements when more than
    /// one expression follows.
    pub fn parse(&mut self) -> (res: Result<Expression, ParserError>)
        ensures
            final(self).toks() == old(self).toks(),
            outcome(res, final(self).position(), spec_parse(old(self).toks(), old(self).position())),
    {
        let start = self.peek().loc;
        let e = match self.parse_expression() {
            Ok(e) => e,
            Err(err) => return Err(err),
        };
        let tok = self.peek();
        if tok.token_type != TokenType::End {
            let stmts = match self.parse_top_level_statements(e) {
                Ok(s) => s,
                Err(err) => return Err(err),
            };
            Ok(Expression::Block(Block::new(stmts, start)))
        } else {
            Ok(e)
        }
    }
}

// ---------------------------------------------------------------------------
// Laws
// ---------------------------------------------------------------------------
/// Texts that begin something other than a name where an operand may stand.
pub open spec fn is_keyword(text: Seq<char>) -> bool {
    text == "var"@ || text == "-"@ || text == "not"@ || text == "("@ || text == "if"@ || text == "while"@
        || text == "{"@
}

/// A token that can stand alone as an operand: a name that is not a keyword,
/// or an integer literal within the range of `i8`.
pub open spec fn is_simple_operand(t: TokenV) -> bool {
    &&& !is_keyword(t.text)
    &&& (t.token_type == TokenType::Identifier || (t.token_type == TokenType::Integer && parse_i8(
        t.text,
    ).is_some()))
}

/// The tree of a simple operand token.
pub open spec fn operand_expr(t: TokenV) -> ExprV {
    if t.token_type == TokenType::Integer {
        ExprV::Literal { value: Some(LiteralValue::Int(parse_i8(t.text).unwrap())), loc: t.loc, t: TypeV::Unit }
    } else {
        ExprV::Identifier { id: IdentV { name: t.text, loc: t.loc, t: TypeV::Unit } }
    }
}

proof fn lemma_operand_factor(toks: Seq<TokenV>, p: int)
    requires
        0 <= p < toks.len(),
        is_simple_operand(toks[p]),
        p + 1 < toks.len() ==> toks[p + 1].text != "("@,
    ensures
        spec_factor(toks, p) == Ok::<(ExprV, int), PErrV>((operand_expr(toks[p]), p + 1)),
{
    assert(spec_peek(toks, p) == toks[p]);
}

/// Operator precedence and associativity: `a o1 b o2 c`, with operands `a`,
/// `b`, `c` (names or integer literals) and binary operators `o1`, `o2`,
/// groups around the operator that binds tighter; with equal precedence it
/// groups to the left, except for the assignment `=`, which groups to the
/// right.
pub proof fn law_binary_operators(toks: Seq<TokenV>)
    requires
        toks.len() == 5,
        is_simple_operand(toks[0]),
        is_simple_operand(toks[2]),
        is_simple_operand(toks[4]),
        toks[1].token_type == TokenType::Operator && toks[1].text != "("@,
        toks[3].token_type == TokenType::Operator && toks[3].text != "("@,
    ensures
        ({
            let (a, b, c) = (operand_expr(toks[0]), operand_expr(toks[2]), operand_expr(toks[4]));
            let (o1, o2) = (toks[1].text, toks[3].text);
            let tree = if prec(o2) < prec(o1) || (prec(o2) == prec(o1) && o2 != "="@) {
                mk_binop(mk_binop(a, o1, b), o2, c)
            } else {
                mk_binop(a, o1, mk_binop(b, o2, c))
            };
            spec_parse(toks, 0) == Ok::<(ExprV, int), PErrV>((tree, 5int))
        }),
{
    lemma_operand_factor(toks, 0);
    lemma_operand_factor(toks, 2);
    lemma_operand_factor(toks, 4);
    assert(spec_peek(toks, 0) == toks[0]);
    assert(spec_peek(toks, 1) == toks[1]);
    assert(spec_peek(toks, 3) == toks[3]);
    assert(spec_peek(toks, 5).token_type == TokenType::End);
    law_operator_grouping(
        toks,
        0,
        1,
        3,
        5,
        operand_expr(toks[0]),
        operand_expr(toks[2]),
        operand_expr(toks[4]),
    );
}

proof fn lemma_binary_op_advances(toks: Seq<TokenV>, p: int)
    ensures
        spec_binary_op(toks, p) matches Ok((_, q)) ==> advanced(toks, p, q),
    decreases toks.len() - p, 12int,
{
    lemma_factor_advances(toks, p);
    if let Ok((f, q)) = spec_factor(toks, p) {
        if advanced(toks, p, q) {
            lemma_binop_loop_advances(toks, q, seq![f], seq![]);
        }
    }
}

proof fn lemma_binop_loop_advances(toks: Seq<TokenV>, p: int, exprs: Seq<ExprV>, ops: Seq<Seq<char>>)
    ensures
        0 <= p <= toks.len() ==> (spec_binop_loop(toks, p, exprs, ops) matches Ok((_, q)) ==> p <= q <= toks.len()),
    decreases toks.len() - p, 11int,
{
    let tok = spec_peek(toks, p);
    if 0 <= p < toks.len() && tok.token_type == TokenType::Operator {
        lemma_factor_advances(toks, p + 1);
        if let Ok((right, q)) = spec_factor(toks, p + 1) {
            if advanced(toks, p, q) {
                let (e2, o2) = reduce_for(exprs, ops, tok.text);
                lemma_binop_loop_advances(toks, q, e2.push(right), o2.push(tok.text));
            }
        }
    }
}

proof fn lemma_factor_advances(toks: Seq<TokenV>, p: int)
    ensures
        spec_factor(toks, p) matches Ok((_, q)) ==> advanced(toks, p, q),
    decreases toks.len() - p, 10int,
{
    if 0 <= p < toks.len() {
        lemma_unary_op_advances(toks, p);
        lemma_parenthesized_advances(toks, p);
        lemma_if_advances(toks, p);
        lemma_while_advances(toks, p);
        lemma_block_advances(toks, p);
        if let Ok((id, q)) = spec_identifier(toks, p) {
            lemma_function_call_advances(toks, q, id);
        }
    }
}

proof fn lemma_unary_op_advances(toks: Seq<TokenV>, p: int)
    ensures
        spec_unary_op(toks, p) matches Ok((_, q)) ==> advanced(toks, p, q),
    decreases toks.len() - p, 5int,
{
    if 0 <= p < toks.len() {
        lemma_factor_advances(toks, p + 1);
    }
}

proof fn lemma_parenthesized_advances(toks: Seq<TokenV>, p: int)
    ensures
        spec_parenthesized(toks, p) matches Ok((_, q)) ==> advanced(toks, p, q),
    decreases toks.len() - p, 5int,
{
    if 0 <= p < toks.len() {
        lemma_binary_op_advances(toks, p + 1);
    }
}

proof fn lemma_if_advances(toks: Seq<TokenV>, p: int)
    ensures
        spec_if(toks, p) matches Ok((_, q)) ==> advanced(toks, p, q),
    decreases toks.len() - p, 5int,
{
    if 0 <= p < toks.len() {
        lemma_binary_op_advances(toks, p + 1);
        if let Ok((_, q2)) = spec_binary_op(toks, p + 1) {
            if p < q2 < toks.len() {
                lemma_binary_op_advances(toks, q2 + 1);
                if let Ok((_, q4)) = spec_binary_op(toks, q2 + 1) {
                    if p < q4 < toks.len() {
                        lemma_binary_op_advances(toks, q4 + 1);
                    }
                }
            }
        }
    }
}

proof fn lemma_while_advances(toks: Seq<TokenV>, p: int)
    ensures
        spec_while(toks, p) matches Ok((_, q)) ==> advanced(toks, p, q),
    decreases toks.len() - p, 5int,
{
    if 0 <= p < toks.len() {
        lemma_binary_op_advances(toks, p + 1);
        if let Ok((_, q2)) = spec_binary_op(toks, p + 1) {
            if p < q2 < toks.len() {
                lemma_binary_op_advances(toks, q2 + 1);
            }
        }
    }
}

proof fn lemma_var_declaration_advances(toks: Seq<TokenV>, p: int)
    ensures
        spec_var_declaration(toks, p) matches Ok((_, q)) ==> advanced(toks, p, q),
    decreases toks.len() - p, 5int,
{
    if 0 <= p < toks.len() {
        if let Ok((_, q2)) = spec_declared_type(toks, p + 2) {
            if p < q2 < toks.len() {
                lemma_binary_op_advances(toks, q2 + 1);
            }
        }
    }
}

proof fn lemma_block_advances(toks: Seq<TokenV>, p: int)
    ensures
        spec_block(toks, p) matches Ok((_, q)) ==> advanced(toks, p, q),
    decreases toks.len() - p, 5int,
{
    if 0 <= p < toks.len() {
        lemma_block_loop_advances(toks, p + 1, seq![], spec_peek(toks, p).loc);
    }
}

proof fn lemma_block_loop_advances(toks: Seq<TokenV>, q: int, stmts: Seq<ExprV>, loc: LocV)
    ensures
        spec_block_loop(toks, q, stmts, loc) matches Ok((_, r)) ==> advanced(toks, q, r),
    decreases toks.len() - q, 20int,
{
    if !(0 <= q < toks.len() && toks[q].text == "}"@) {
        lemma_expression_advances(toks, q);
        if let Ok((e, q2)) = spec_expression(toks, q) {
            if advanced(toks, q, q2) {
                lemma_block_loop_advances(toks, q2, stmts.push(e), loc);
                if q2 < toks.len() {
                    lemma_block_loop_advances(toks, q2 + 1, stmts.push(e), loc);
                }
            }
        }
    }
}

proof fn lemma_function_call_advances(toks: Seq<TokenV>, q: int, name: IdentV)
    ensures
        spec_function_call(toks, q, name) matches Ok((_, r)) ==> advanced(toks, q, r),
    decreases toks.len() - q, 5int,
{
    if 0 <= q < toks.len() {
        lemma_args_loop_advances(toks, q + 1, seq![], name);
    }
}

proof fn lemma_args_loop_advances(toks: Seq<TokenV>, q: int, args: Seq<ExprV>, name: IdentV)
    ensures
        spec_args_loop(toks, q, args, name) matches Ok((_, r)) ==> advanced(toks, q, r),
    decreases toks.len() - q, 20int,
{
    if !(0 <= q < toks.len() && toks[q].text == ")"@) {
        lemma_binary_op_advances(toks, q);
        if let Ok((a, q2)) = spec_binary_op(toks, q) {
            if advanced(toks, q, q2) {
                lemma_args_loop_advances(toks, q2, args.push(a), name);
                if q2 < toks.len() {
                    lemma_args_loop_advances(toks, q2 + 1, args.push(a), name);
                }
            }
        }
    }
}

proof fn lemma_expression_advances(toks: Seq<TokenV>, p: int)
    ensures
        spec_expression(toks, p) matches Ok((_, q)) ==> advanced(toks, p, q),
    decreases toks.len() - p, 15int,
{
    lemma_var_declaration_advances(toks, p);
    lemma_if_advances(toks, p);
    lemma_while_advances(toks, p);
    lemma_block_advances(toks, p);
    lemma_binary_op_advances(toks, p);
}

/// Every parsing step that succeeds consumes at least one token and stops
/// within the input; so the checks for a step that did not move forward (the
/// branches that lead to [`stalled`]) always pass, and `stalled()` is never
/// the outcome of those branches.
pub proof fn law_parse_advances(toks: Seq<TokenV>, p: int)
    ensures
        spec_expression(toks, p) matches Ok((_, q)) ==> advanced(toks, p, q),
        spec_binary_op(toks, p) matches Ok((_, q)) ==> advanced(toks, p, q),
        spec_factor(toks, p) matches Ok((_, q)) ==> advanced(toks, p, q),
{
    lemma_expression_advances(toks, p);
    lemma_binary_op_advances(toks, p);
    lemma_factor_advances(toks, p);
}

/// Operator precedence and associativity, for any operands: when `a`, `b` and
/// `c` parse as operands (at `p`, after the operator `o1` and after the
/// operator `o2`) and no operator follows `c`, `a o1 b o2 c` groups around the
/// operator that binds tighter; with equal precedence it groups to the left,
/// except for the assignment `=`, which groups to the right.
pub proof fn law_operator_grouping(
    toks: Seq<TokenV>,
    p: int,
    i: int,
    j: int,
    k: int,
    a: ExprV,
    b: ExprV,
    c: ExprV,
)
    requires
        spec_factor(toks, p) == Ok::<(ExprV, int), PErrV>((a, i)),
        spec_peek(toks, i).token_type == TokenType::Operator,
        spec_factor(toks, i + 1) == Ok::<(ExprV, int), PErrV>((b, j)),
        spec_peek(toks, j).token_type == TokenType::Operator,
        spec_factor(toks, j + 1) == Ok::<(ExprV, int), PErrV>((c, k)),
        spec_peek(toks, k).token_type != TokenType::Operator,
    ensures
        ({
            let (o1, o2) = (spec_peek(toks, i).text, spec_peek(toks, j).text);
            let tree = if prec(o2) < prec(o1) || (prec(o2) == prec(o1) && o2 != "="@) {
                mk_binop(mk_binop(a, o1, b), o2, c)
            } else {
                mk_binop(a, o1, mk_binop(b, o2, c))
            };
            spec_binary_op(toks, p) == Ok::<(ExprV, int), PErrV>((tree, k))
        }),
{
    let (o1, o2) = (spec_peek(toks, i).text, spec_peek(toks, j).text);
    law_parse_advances(toks, p);
    law_parse_advances(toks, i + 1);
    law_parse_advances(toks, j + 1);
    assert(reduce_for(seq![a], seq![], o1) == (seq![a], Seq::<Seq<char>>::empty()));
    assert(seq![a].push(b) =~= seq![a, b]);
    assert(Seq::<Seq<char>>::empty().push(o1) =~= seq![o1]);
    let (e2, s2) = reduce_for(seq![a, b], seq![o1], o2);
    if prec(o2) < prec(o1) || (prec(o2) == prec(o1) && o2 != "="@) {
        let ab = mk_binop(a, o1, b);
        assert(combine(seq![a, b], seq![o1]) == (seq![ab], Seq::<Seq<char>>::empty())) by {
            assert(seq![a, b].take(0).push(ab) =~= seq![ab]);
            assert(seq![o1].drop_last() =~= Seq::<Seq<char>>::empty());
        }
        assert(reduce_for(seq![ab], Seq::<Seq<char>>::empty(), o2) == (seq![ab], Seq::<Seq<char>>::empty()));
        assert(e2 == seq![ab] && s2 == Seq::<Seq<char>>::empty());
        assert(e2.push(c) =~= seq![ab, c]);
        assert(s2.push(o2) =~= seq![o2]);
        let r = mk_binop(ab, o2, c);
        assert(combine(seq![ab, c], seq![o2]) == (seq![r], Seq::<Seq<char>>::empty())) by {
            assert(seq![ab, c].take(0).push(r) =~= seq![r]);
            assert(seq![o2].drop_last() =~= Seq::<Seq<char>>::empty());
        }
        assert(reduce_all(seq![r], Seq::<Seq<char>>::empty()) == r);
        assert(reduce_all(seq![ab, c], seq![o2]) == r);
        assert(spec_binop_loop(toks, k, seq![ab, c], seq![o2]) == Ok::<(ExprV, int), PErrV>((r, k)));
        assert(spec_binop_loop(toks, j, seq![a, b], seq![o1]) == Ok::<(ExprV, int), PErrV>((r, k)));
        assert(spec_binop_loop(toks, i, seq![a], seq![]) == Ok::<(ExprV, int), PErrV>((r, k)));
    } else {
        assert(e2 == seq![a, b] && s2 == seq![o1]);
        assert(e2.push(c) =~= seq![a, b, c]);
        assert(s2.push(o2) =~= seq![o1, o2]);
        let bc = mk_binop(b, o2, c);
        let r = mk_binop(a, o1, bc);
        assert(combine(seq![a, b, c], seq![o1, o2]) == (seq![a, bc], seq![o1])) by {
            assert(seq![a, b, c].take(1).push(bc) =~= seq![a, bc]);
            assert(seq![o1, o2].drop_last() =~= seq![o1]);
        }
        assert(combine(seq![a, bc], seq![o1]) == (seq![r], Seq::<Seq<char>>::empty())) by {
            assert(seq![a, bc].take(0).push(r) =~= seq![r]);
            assert(seq![o1].drop_last() =~= Seq::<Seq<char>>::empty());
        }
        assert(reduce_all(seq![r], Seq::<Seq<char>>::empty()) == r);
        assert(reduce_all(seq![a, bc], seq![o1]) == r);
        assert(reduce_all(seq![a, b, c], seq![o1, o2]) == r);
        assert(spec_binop_loop(toks, k, seq![a, b, c], seq![o1, o2]) == Ok::<(ExprV, int), PErrV>((r, k)));
        assert(spec_binop_loop(toks, j, seq![a, b], seq![o1]) == Ok::<(ExprV, int), PErrV>((r, k)));
        assert(spec_binop_loop(toks, i, seq![a], seq![]) == Ok::<(ExprV, int), PErrV>((r, k)));
    }
}

/// The binary operators by precedence level, loosest first: `=`, then `or`,
/// `and`, the equalities, the comparisons, `+ -`, and `* / &`, which bind
/// tightest.
pub open spec fn precedence_levels() -> Seq<Seq<Seq<char>>> {
    seq![seq!["="@], seq!["or"@], seq!["and"@], seq!["=="@, "!="@], seq!["<"@, "<="@, ">"@, ">="@], seq!["+"@, "-"@], seq!["*"@, "/"@, "&"@]]
}

/// The operator `levels[x][m]` has precedence `x`.
proof fn lemma_level_prec(x: int, m: int)
    requires
        0 <= x < precedence_levels().len(),
        0 <= m < precedence_levels()[x].len(),
    ensures
        prec(precedence_levels()[x][m]) == x,
{
    reveal_strlit("=");
    reveal_strlit("or");
    reveal_strlit("and");
    reveal_strlit("==");
    reveal_strlit("!=");
    reveal_strlit("<");
    reveal_strlit("<=");
    reveal_strlit(">");
    reveal_strlit(">=");
    reveal_strlit("+");
    reveal_strlit("-");
    reveal_strlit("*");
    reveal_strlit("/");
    reveal_strlit("&");
    if x == 0 && m == 0 {
        assert(precedence_levels()[0][0] == "="@);
    } else if x == 1 && m == 0 {
        assert(precedence_levels()[1][0] == "or"@);
        assert("or"@ != "="@) by { assert("or"@.len() != "="@.len()); }
    } else if x == 2 && m == 0 {
        assert(precedence_levels()[2][0] == "and"@);
        assert("and"@ != "="@) by { assert("and"@.len() != "="@.len()); }
        assert("and"@ != "or"@) by { assert("and"@.len() != "or"@.len()); }
    } else if x == 3 && m == 0 {
        assert(precedence_levels()[3][0] == "=="@);
        assert("=="@ != "="@) by { assert("=="@.len() != "="@.len()); }
        assert("=="@ != "or"@) by { assert("=="@[0] != "or"@[0]); }
        assert("=="@ != "and"@) by { assert("=="@.len() != "and"@.len()); }
    } else if x == 3 && m == 1 {
        assert(precedence_levels()[3][1] == "!="@);
        assert("!="@ != "="@) by { assert("!="@.len() != "="@.len()); }
        assert("!="@ != "or"@) by { assert("!="@[0] != "or"@[0]); }
        assert("!="@ != "and"@) by { assert("!="@.len() != "and"@.len()); }
        assert("!="@ != "=="@) by { assert("!="@[0] != "=="@[0]); }
    } else if x == 4 && m == 0 {
        assert(precedence_levels()[4][0] == "<"@);
        assert("<"@ != "="@) by { assert("<"@[0] != "="@[0]); }
        assert("<"@ != "or"@) by { assert("<"@.len() != "or"@.len()); }
        assert("<"@ != "and"@) by { assert("<"@.len() != "and"@.len()); }
        assert("<"@ != "=="@) by { assert("<"@.len() != "=="@.len()); }
        assert("<"@ != "!="@) by { assert("<"@.len() != "!="@.len()); }
    } else if x == 4 && m == 1 {
        assert(precedence_levels()[4][1] == "<="@);
        assert("<="@ != "="@) by { assert("<="@.len() != "="@.len()); }
        assert("<="@ != "or"@) by { assert("<="@[0] != "or"@[0]); }
        assert("<="@ != "and"@) by { assert("<="@.len() != "and"@.len()); }
        assert("<="@ != "=="@) by { assert("<="@[0] != "=="@[0]); }
        assert("<="@ != "!="@) by { assert("<="@[0] != "!="@[0]); }
        assert("<="@ != "<"@) by { assert("<="@.len() != "<"@.len()); }
    } else if x == 4 && m == 2 {
        assert(precedence_levels()[4][2] == ">"@);
        assert(">"@ != "="@) by { assert(">"@[0] != "="@[0]); }
        assert(">"@ != "or"@) by { assert(">"@.len() != "or"@.len()); }
        assert(">"@ != "and"@) by { assert(">"@.len() != "and"@.len()); }
        assert(">"@ != "=="@) by { assert(">"@.len() != "=="@.len()); }
        assert(">"@ != "!="@) by { assert(">"@.len() != "!="@.len()); }
        assert(">"@ != "<"@) by { assert(">"@[0] != "<"@[0]); }
        assert(">"@ != "<="@) by { assert(">"@.len() != "<="@.len()); }
    } else if x == 4 && m == 3 {
        assert(precedence_levels()[4][3] == ">="@);
        assert(">="@ != "="@) by { assert(">="@.len() != "="@.len()); }
        assert(">="@ != "or"@) by { assert(">="@[0] != "or"@[0]); }
        assert(">="@ != "and"@) by { assert(">="@.len() != "and"@.len()); }
        assert(">="@ != "=="@) by { assert(">="@[0] != "=="@[0]); }
        assert(">="@ != "!="@) by { assert(">="@[0] != "!="@[0]); }
        assert(">="@ != "<"@) by { assert(">="@.len() != "<"@.len()); }
        assert(">="@ != "<="@) by { assert(">="@[0] != "<="@[0]); }
        assert(">="@ != ">"@) by { assert(">="@.len() != ">"@.len()); }
    } else if x == 5 && m == 0 {
        assert(precedence_levels()[5][0] == "+"@);
        assert("+"@ != "="@) by { assert("+"@[0] != "="@[0]); }
        assert("+"@ != "or"@) by { assert("+"@.len() != "or"@.len()); }
        assert("+"@ != "and"@) by { assert("+"@.len() != "and"@.len()); }
        assert("+"@ != "=="@) by { assert("+"@.len() != "=="@.len()); }
        assert("+"@ != "!="@) by { assert("+"@.len() != "!="@.len()); }
        assert("+"@ != "<"@) by { assert("+"@[0] != "<"@[0]); }
        assert("+"@ != "<="@) by { assert("+"@.len() != "<="@.len()); }
        assert("+"@ != ">"@) by { assert("+"@[0] != ">"@[0]); }
        assert("+"@ != ">="@) by { assert("+"@.len() != ">="@.len()); }
    } else if x == 5 && m == 1 {
        assert(precedence_levels()[5][1] == "-"@);
        assert("-"@ != "="@) by { assert("-"@[0] != "="@[0]); }
        assert("-"@ != "or"@) by { assert("-"@.len() != "or"@.len()); }
        assert("-"@ != "and"@) by { assert("-"@.len() != "and"@.len()); }
        assert("-"@ != "=="@) by { assert("-"@.len() != "=="@.len()); }
        assert("-"@ != "!="@) by { assert("-"@.len() != "!="@.len()); }
        assert("-"@ != "<"@) by { assert("-"@[0] != "<"@[0]); }
        assert("-"@ != "<="@) by { assert("-"@.len() != "<="@.len()); }
        assert("-"@ != ">"@) by { assert("-"@[0] != ">"@[0]); }
        assert("-"@ != ">="@) by { assert("-"@.len() != ">="@.len()); }
        assert("-"@ != "+"@) by { assert("-"@[0] != "+"@[0]); }
    } else if x == 6 && m == 0 {
        assert(precedence_levels()[6][0] == "*"@);
        assert("*"@ != "="@) by { assert("*"@[0] != "="@[0]); }
        assert("*"@ != "or"@) by { assert("*"@.len() != "or"@.len()); }
        assert("*"@ != "and"@) by { assert("*"@.len() != "and"@.len()); }
        assert("*"@ != "=="@) by { assert("*"@.len() != "=="@.len()); }
        assert("*"@ != "!="@) by { assert("*"@.len() != "!="@.len()); }
        assert("*"@ != "<"@) by { assert("*"@[0] != "<"@[0]); }
        assert("*"@ != "<="@) by { assert("*"@.len() != "<="@.len()); }
        assert("*"@ != ">"@) by { assert("*"@[0] != ">"@[0]); }
        assert("*"@ != ">="@) by { assert("*"@.len() != ">="@.len()); }
        assert("*"@ != "+"@) by { assert("*"@[0] != "+"@[0]); }
        assert("*"@ != "-"@) by { assert("*"@[0] != "-"@[0]); }
    } else if x == 6 && m == 1 {
        assert(precedence_levels()[6][1] == "/"@);
        assert("/"@ != "="@) by { assert("/"@[0] != "="@[0]); }
        assert("/"@ != "or"@) by { assert("/"@.len() != "or"@.len()); }
        assert("/"@ != "and"@) by { assert("/"@.len() != "and"@.len()); }
        assert("/"@ != "=="@) by { assert("/"@.len() != "=="@.len()); }
        assert("/"@ != "!="@) by { assert("/"@.len() != "!="@.len()); }
        assert("/"@ != "<"@) by { assert("/"@[0] != "<"@[0]); }
        assert("/"@ != "<="@) by { assert("/"@.len() != "<="@.len()); }
        assert("/"@ != ">"@) by { assert("/"@[0] != ">"@[0]); }
        assert("/"@ != ">="@) by { assert("/"@.len() != ">="@.len()); }
        assert("/"@ != "+"@) by { assert("/"@[0] != "+"@[0]); }
        assert("/"@ != "-"@) by { assert("/"@[0] != "-"@[0]); }
        assert("/"@ != "*"@) by { assert("/"@[0] != "*"@[0]); }
    } else if x == 6 && m == 2 {
        assert(precedence_levels()[6][2] == "&"@);
        assert("&"@ != "="@) by { assert("&"@[0] != "="@[0]); }
        assert("&"@ != "or"@) by { assert("&"@.len() != "or"@.len()); }
        assert("&"@ != "and"@) by { assert("&"@.len() != "and"@.len()); }
        assert("&"@ != "=="@) by { assert("&"@.len() != "=="@.len()); }
        assert("&"@ != "!="@) by { assert("&"@.len() != "!="@.len()); }
        assert("&"@ != "<"@) by { assert("&"@[0] != "<"@[0]); }
        assert("&"@ != "<="@) by { assert("&"@.len() != "<="@.len()); }
        assert("&"@ != ">"@) by { assert("&"@[0] != ">"@[0]); }
        assert("&"@ != ">="@) by { assert("&"@.len() != ">="@.len()); }
        assert("&"@ != "+"@) by { assert("&"@[0] != "+"@[0]); }
        assert("&"@ != "-"@) by { assert("&"@[0] != "-"@[0]); }
        assert("&"@ != "*"@) by { assert("&"@[0] != "*"@[0]); }
        assert("&"@ != "/"@) by { assert("&"@[0] != "/"@[0]); }
    }
}
/// Precedence and associativity by the table of levels: with `a`, `b` and `c`
/// parsed as operands as in [`law_operator_grouping`], the operator `o1` of
/// level `x1` and the operator `o2` of level `x2`, `a o1 b o2 c` groups as
/// `(a o1 b) o2 c` when `o2` is on a looser level than `o1`, or on the same
/// level and not `=`; otherwise it groups as `a o1 (b o2 c)`. So `a + b / c`
/// is `a + (b / c)`, `a / b - c` is `(a / b) - c`, `a - b + c` is
/// `(a - b) + c` and `a = b = c` is `a = (b = c)`.
pub proof fn law_precedence_levels(
    toks: Seq<TokenV>,
    p: int,
    i: int,
    j: int,
    k: int,
    a: ExprV,
    b: ExprV,
    c: ExprV,
    x1: int,
    m1: int,
    x2: int,
    m2: int,
)
    requires
        spec_factor(toks, p) == Ok::<(ExprV, int), PErrV>((a, i)),
        spec_peek(toks, i).token_type == TokenType::Operator,
        spec_factor(toks, i + 1) == Ok::<(ExprV, int), PErrV>((b, j)),
        spec_peek(toks, j).token_type == TokenType::Operator,
        spec_factor(toks, j + 1) == Ok::<(ExprV, int), PErrV>((c, k)),
        spec_peek(toks, k).token_type != TokenType::Operator,
        0 <= x1 < precedence_levels().len(),
        0 <= m1 < precedence_levels()[x1].len(),
        spec_peek(toks, i).text == precedence_levels()[x1][m1],
        0 <= x2 < precedence_levels().len(),
        0 <= m2 < precedence_levels()[x2].len(),
        spec_peek(toks, j).text == precedence_levels()[x2][m2],
    ensures
        ({
            let (o1, o2) = (spec_peek(toks, i).text, spec_peek(toks, j).text);
            let tree = if x2 < x1 || (x2 == x1 && o2 != "="@) {
                mk_binop(mk_binop(a, o1, b), o2, c)
            } else {
                mk_binop(a, o1, mk_binop(b, o2, c))
            };
            spec_binary_op(toks, p) == Ok::<(ExprV, int), PErrV>((tree, k))
        }),
{
    lemma_level_prec(x1, m1);
    lemma_level_prec(x2, m2);
    law_operator_grouping(toks, p, i, j, k, a, b, c);
}

proof fn lemma_top_loop_reaches_end(toks: Seq<TokenV>, q: int, stmts: Seq<ExprV>)
    ensures
        spec_top_loop(toks, q, stmts) matches Ok((_, q2)) ==> spec_peek(toks, q2).token_type == TokenType::End,
    decreases toks.len() - q,
{
    if spec_peek(toks, q).token_type != TokenType::End {
        if let Ok((e, q2)) = spec_expression(toks, q) {
            if advanced(toks, q, q2) {
                let next = spec_peek(toks, q2);
                if 0 <= q2 < toks.len() && next.text == ";"@ {
                    lemma_top_loop_reaches_end(toks, q2 + 1, stmts.push(e));
                } else if next.token_type != TokenType::End && e.is_block() {
                    lemma_top_loop_reaches_end(toks, q2, stmts.push(e));
                }
            }
        }
    }
}

/// A program parses only up to the end of its input: after a successful parse
/// no token is left.
pub proof fn law_parse_reaches_end(toks: Seq<TokenV>, p: int)
    ensures
        spec_parse(toks, p) matches Ok((_, q)) ==> spec_peek(toks, q).token_type == TokenType::End,
{
    if let Ok((e, q)) = spec_expression(toks, p) {
        if spec_peek(toks, q).token_type != TokenType::End {
            if e.is_block() {
                lemma_top_loop_reaches_end(toks, q, seq![e]);
            } else if let Ok(q1) = spec_expect(toks, q, ";"@) {
                lemma_top_loop_reaches_end(toks, q1, seq![e]);
            }
        }
    }
}

} // verus!
