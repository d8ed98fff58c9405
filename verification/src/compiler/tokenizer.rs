//! Source text to tokens. The lexical classes are recognised by one regular
//! expression (through the `regex` crate); splitting into lines, removing
//! comments, keyword classes and source locations are this module's own logic.
use super::text::{chars_of, decimal, find_char, find_double_slash, one_based_string, split_lines, strip_comment, strip_cr};
use regex::Regex;
use vstd::prelude::*;
use vstd::std_specs::cmp::PartialEqSpecImpl;
use vstd::string::*;

verus! {

/// A position in a source file: file name, one-based line and column, as text.
/// The "special" location (all three fields `"SPECIAL"`) compares equal to
/// every location; tests use it to ignore positions.
#[derive(Debug)]
pub struct Location {
    pub file: String,
    pub line: String,
    pub column: String,
}

/// The value of a [`Location`].
pub struct LocV {
    pub file: Seq<char>,
    pub line: Seq<char>,
    pub column: Seq<char>,
}

impl View for Location {
    type V = LocV;

    open spec fn view(&self) -> LocV {
        LocV { file: self.file@, line: self.line@, column: self.column@ }
    }
}

pub open spec fn special_text() -> Seq<char> {
    seq!['S', 'P', 'E', 'C', 'I', 'A', 'L']
}

/// The location that equals every location.
pub open spec fn special_loc() -> LocV {
    LocV { file: special_text(), line: special_text(), column: special_text() }
}

/// Location equality: either side special, or all three fields equal.
pub open spec fn loc_eq(a: LocV, b: LocV) -> bool {
    a == special_loc() || b == special_loc() || a == b
}

fn special_string() -> (s: String)
    ensures
        s@ == special_text(),
{
    let lit = "SPECIAL";
    proof {
        reveal_strlit("SPECIAL");
    }
    lit.to_owned()
}

impl Location {
    /// The special location, equal to every other location.
    pub fn special() -> (l: Location)
        ensures
            l@ == special_loc(),
    {
        Location { file: special_string(), line: special_string(), column: special_string() }
    }

    fn is_special(&self) -> (r: bool)
        ensures
            r == (self@ == special_loc()),
    {
        let s = special_string();
        self.file == s && self.line == s && self.column == s
    }

    /// Location equality (see [`loc_eq`]).
    pub fn loc_equals(&self, other: &Location) -> (r: bool)
        ensures
            r == loc_eq(self@, other@),
    {
        self.is_special() || other.is_special() || (self.file == other.file && self.line
            == other.line && self.column == other.column)
    }
}

/// The special location equals every location, whichever side it stands on.
pub proof fn law_special_location(l: LocV)
    ensures
        loc_eq(special_loc(), l),
        loc_eq(l, special_loc()),
{
}

impl Clone for Location {
    fn clone(&self) -> (r: Self)
        ensures
            r == *self,
    {
        Location { file: self.file.clone(), line: self.line.clone(), column: self.column.clone() }
    }
}

impl PartialEq for Location {
    fn eq(&self, other: &Self) -> (r: bool) {
        self.loc_equals(other)
    }
}

impl PartialEqSpecImpl for Location {
    open spec fn obeys_eq_spec() -> bool {
        true
    }

    open spec fn eq_spec(&self, other: &Location) -> bool {
        loc_eq(self@, other@)
    }
}

/// The lexical class of a token. `End` marks the end of the input; it is never
/// produced by [`tokenize`].
#[derive(Debug, Clone, Copy, PartialEq, Eq, Structural)]
pub enum TokenType {
    Integer,
    Operator,
    Punctuation,
    Identifier,
    Boolean,
    End,
}

/// The name of a token class, as the parser reports it in errors.
pub open spec fn token_type_name(t: TokenType) -> Seq<char> {
    match t {
        TokenType::Integer => seq!['I', 'n', 't', 'e', 'g', 'e', 'r'],
        TokenType::Operator => seq!['O', 'p', 'e', 'r', 'a', 't', 'o', 'r'],
        TokenType::Punctuation => seq!['P', 'u', 'n', 'c', 't', 'u', 'a', 't', 'i', 'o', 'n'],
        TokenType::Identifier => seq!['I', 'd', 'e', 'n', 't', 'i', 'f', 'i', 'e', 'r'],
        TokenType::Boolean => seq!['B', 'o', 'o', 'l', 'e', 'a', 'n'],
        TokenType::End => seq!['E', 'n', 'd'],
    }
}

impl TokenType {
    /// The name of the class.
    pub fn to_string(&self) -> (s: String)
        ensures
            s@ == token_type_name(*self),
    {
        let lit = match self {
            TokenType::Integer => "Integer",
            TokenType::Operator => "Operator",
            TokenType::Punctuation => "Punctuation",
            TokenType::Identifier => "Identifier",
            TokenType::Boolean => "Boolean",
            TokenType::End => "End",
        };
        proof {
            reveal_strlit("Integer");
            reveal_strlit("Operator");
            reveal_strlit("Punctuation");
            reveal_strlit("Identifier");
            reveal_strlit("Boolean");
            reveal_strlit("End");
        }
        lit.to_owned()
    }
}

/// A token: its text, its class and where it starts.
#[derive(Debug, PartialEq)]
pub struct Token {
    pub text: String,
    pub token_type: TokenType,
    pub loc: Location,
}

/// The value of a [`Token`].
pub struct TokenV {
    pub text: Seq<char>,
    pub token_type: TokenType,
    pub loc: LocV,
}

impl View for Token {
    type V = TokenV;

    open spec fn view(&self) -> TokenV {
        TokenV { text: self.text@, token_type: self.token_type, loc: self.loc@ }
    }
}

pub open spec fn tokens_view(s: Seq<Token>) -> Seq<TokenV> {
    s.map_values(|t: Token| t@)
}

impl Clone for Token {
    fn clone(&self) -> (r: Self)
        ensures
            r == *self,
    {
        Token { text: self.text.clone(), token_type: self.token_type, loc: self.loc.clone() }
    }
}

impl Token {
    pub fn new(text: &str, token_type: TokenType, loc: Location) -> (t: Token)
        ensures
            t.text@ == text@,
            t.token_type == token_type,
            t.loc == loc,
    {
        Token { text: text.to_owned(), token_type, loc }
    }

    /// The token's text.
    pub fn get_text(&self) -> (s: &str)
        ensures
            s@ == self.text@,
    {
        self.text.as_str()
    }

    /// The token's class.
    pub fn get_type(&self) -> (t: &TokenType)
        ensures
            *t == self.token_type,
    {
        &self.token_type
    }

    /// Where the token starts.
    pub fn get_loc(&self) -> (l: &Location)
        ensures
            *l == self.loc,
    {
        &self.loc
    }
}

// ---------------------------------------------------------------------------
// The regular expression
// ---------------------------------------------------------------------------
#[verifier::external_type_specification]
#[verifier::external_body]
pub struct ExRegex(Regex);

/// A compiled regular expression together with the pattern it was compiled
/// from. Only [`compile_regex`] builds one, so `regex` always matches `pattern`.
pub struct CompiledRegex {
    regex: Regex,
    pattern: String,
}

impl CompiledRegex {
    /// The pattern this regular expression was compiled from.
    pub closed spec fn pattern(&self) -> Seq<char> {
        self.pattern@
    }
}

/// One capture group of one match: the matched text and the byte offset in the
/// searched text where it starts.
pub struct CaptureGroup {
    pub text: String,
    pub start: usize,
}

pub open spec fn group_view(g: Option<CaptureGroup>) -> Option<(Seq<char>, nat)> {
    match g {
        Some(m) => Some((m.text@, m.start as nat)),
        None => None,
    }
}

pub open spec fn groups_view(gs: Seq<Option<CaptureGroup>>) -> Seq<Option<(Seq<char>, nat)>> {
    gs.map_values(|g: Option<CaptureGroup>| group_view(g))
}

pub open spec fn captures_view(c: Seq<Vec<Option<CaptureGroup>>>) -> Seq<
    Seq<Option<(Seq<char>, nat)>>,
> {
    c.map_values(|gs: Vec<Option<CaptureGroup>>| groups_view(gs@))
}

/// Whether `regex::Regex::new` accepts `pattern`.
pub uninterp spec fn regex_compiles(pattern: Seq<char>) -> bool;

/// What `regex::Regex::captures_iter` yields for the regular expression of
/// `pattern` on `haystack`: for each successive non-overlapping match, every
/// capture group in order (group 0 is the whole match), each either absent or
/// its text with its starting byte offset.
pub uninterp spec fn regex_captures(pattern: Seq<char>, haystack: Seq<char>) -> Seq<
    Seq<Option<(Seq<char>, nat)>>,
>;

/// Calls `regex::Regex::new(pattern)`. Claims only that it succeeds exactly when
/// `regex_compiles(pattern)`, and that the result remembers `pattern`.
#[verifier::external_body]
pub(crate) fn compile_regex(pattern: &str) -> (r: Option<CompiledRegex>)
    ensures
        r.is_some() == regex_compiles(pattern@),
        r matches Some(t) ==> t.pattern() == pattern@,
{
    Regex::new(pattern).ok().map(|regex| CompiledRegex { regex, pattern: pattern.to_string() })
}

/// Calls `regex::Regex::captures_iter(haystack)` and converts every capture
/// group with `Captures::iter`, `Match::as_str` and `Match::start`. Claims that
/// the result is [`regex_captures`] of the pattern and the haystack.
#[verifier::external_body]
fn captures_of(re: &CompiledRegex, haystack: &str) -> (caps: Vec<Vec<Option<CaptureGroup>>>)
    ensures
        captures_view(caps@) == regex_captures(re.pattern(), haystack@),
{
    re.regex.captures_iter(haystack).map(
        |c| c.iter().map(|g| g.map(|m| CaptureGroup { text: m.as_str().to_string(), start: m.start() })).collect(),
    ).collect()
}


/// Whether `regex::Regex::is_match` finds a match of the regular expression of
/// `pattern` somewhere in `haystack`.
pub uninterp spec fn regex_is_match(pattern: Seq<char>, haystack: Seq<char>) -> bool;

/// Calls `regex::Regex::is_match(haystack)`. Claims that the answer is
/// [`regex_is_match`] of the pattern and the haystack.
#[verifier::external_body]
pub(crate) fn is_match_of(re: &CompiledRegex, haystack: &str) -> (r: bool)
    ensures
        r == regex_is_match(re.pattern(), haystack@),
{
    re.regex.is_match(haystack)
}

// ---------------------------------------------------------------------------
// Tokenizing
// ---------------------------------------------------------------------------
/// The regular expression of the four lexical classes, one capture group each:
/// identifiers, integers, operators, punctuation.
pub const TOKEN_PATTERN: &'static str =
    r"([a-zA-Z_]+[a-zA-Z0-9]*)|([0-9]+)|(\*|\+|\-|\/|==|!=|<=|>=|=|>|<)|([\(\)\[\]\{\}\,\;\:])";

/// The class of a word matched as an identifier: `true` and `false` are
/// booleans, `and` and `or` are operators.
pub open spec fn word_type(text: Seq<char>) -> TokenType {
    if text == seq!['t', 'r', 'u', 'e'] || text == seq!['f', 'a', 'l', 's', 'e'] {
        TokenType::Boolean
    } else if text == seq!['a', 'n', 'd'] || text == seq!['o', 'r'] {
        TokenType::Operator
    } else {
        TokenType::Identifier
    }
}

pub open spec fn group_at(gs: Seq<Option<(Seq<char>, nat)>>, i: int) -> Option<(Seq<char>, nat)> {
    if 0 <= i < gs.len() {
        gs[i]
    } else {
        None
    }
}

pub open spec fn make_token(file: Seq<char>, line: nat, g: (Seq<char>, nat), t: TokenType) -> TokenV {
    TokenV {
        text: g.0,
        token_type: t,
        loc: LocV { file, line: decimal(line + 1), column: decimal(g.1 + 1) },
    }
}

/// The token of one match on line `line` (zero-based): from the first of the
/// groups 1 to 4 that took part in the match.
pub open spec fn capture_token(file: Seq<char>, line: nat, gs: Seq<Option<(Seq<char>, nat)>>) -> Option<TokenV> {
    if let Some(g) = group_at(gs, 1) {
        Some(make_token(file, line, g, word_type(g.0)))
    } else if let Some(g) = group_at(gs, 2) {
        Some(make_token(file, line, g, TokenType::Integer))
    } else if let Some(g) = group_at(gs, 3) {
        Some(make_token(file, line, g, TokenType::Operator))
    } else if let Some(g) = group_at(gs, 4) {
        Some(make_token(file, line, g, TokenType::Punctuation))
    } else {
        None
    }
}

/// The tokens of the matches `caps` of one line, in order.
pub open spec fn line_tokens(file: Seq<char>, line: nat, caps: Seq<Seq<Option<(Seq<char>, nat)>>>) -> Seq<TokenV>
    decreases caps.len(),
{
    if caps.len() == 0 {
        seq![]
    } else {
        let rest = line_tokens(file, line, caps.drop_last());
        match capture_token(file, line, caps.last()) {
            Some(t) => rest.push(t),
            None => rest,
        }
    }
}

/// The tokens of `lines`, the first of which is line number `first` (zero-based):
/// each line without its comment, matched against `pattern`.
pub open spec fn lines_tokens(pattern: Seq<char>, file: Seq<char>, lines: Seq<Seq<char>>, first: nat) -> Seq<TokenV>
    decreases lines.len(),
{
    if lines.len() == 0 {
        seq![]
    } else {
        line_tokens(file, first, regex_captures(pattern, strip_comment(lines[0])))
            + lines_tokens(pattern, file, lines.drop_first(), first + 1)
    }
}

/// The tokens of `source` in file `file`.
pub open spec fn spec_tokenize(source: Seq<char>, file: Seq<char>) -> Seq<TokenV> {
    lines_tokens(TOKEN_PATTERN@, file, split_lines(source), 0)
}

fn build_token(g: &CaptureGroup, t: TokenType, file: &str, line: usize) -> (r: Token)
    ensures
        r@ == make_token(file@, line as nat, (g.text@, g.start as nat), t),
{
    Token {
        text: g.text.clone(),
        token_type: t,
        loc: Location { file: file.to_owned(), line: one_based_string(line), column: one_based_string(g.start) },
    }
}

fn text_is(s: &String, lit: &str) -> (r: bool)
    ensures
        r == (s@ == lit@),
{
    *s == lit.to_owned()
}

fn word_type_of(text: &String) -> (t: TokenType)
    ensures
        t == word_type(text@),
{
    proof {
        reveal_strlit("true");
        reveal_strlit("false");
        reveal_strlit("and");
        reveal_strlit("or");
        assert("true"@ =~= seq!['t', 'r', 'u', 'e']);
        assert("false"@ =~= seq!['f', 'a', 'l', 's', 'e']);
        assert("and"@ =~= seq!['a', 'n', 'd']);
        assert("or"@ =~= seq!['o', 'r']);
    }
    if text_is(text, "true") || text_is(text, "false") {
        TokenType::Boolean
    } else if text_is(text, "and") || text_is(text, "or") {
        TokenType::Operator
    } else {
        TokenType::Identifier
    }
}

fn token_of_capture(gs: &Vec<Option<CaptureGroup>>, file: &str, line: usize) -> (r: Option<Token>)
    ensures
        match r {
            Some(t) => capture_token(file@, line as nat, groups_view(gs@)) == Some(t@),
            None => capture_token(file@, line as nat, groups_view(gs@)).is_none(),
        },
{
    let n = gs.len();
    let ghost v = groups_view(gs@);
    if n > 1 {
        if let Some(g) = &gs[1] {
            assert(group_at(v, 1) == Some((g.text@, g.start as nat)));
            return Some(build_token(g, word_type_of(&g.text), file, line));
        }
    }
    assert(group_at(v, 1).is_none());
    if n > 2 {
        if let Some(g) = &gs[2] {
            assert(group_at(v, 2) == Some((g.text@, g.start as nat)));
            return Some(build_token(g, TokenType::Integer, file, line));
        }
    }
    assert(group_at(v, 2).is_none());
    if n > 3 {
        if let Some(g) = &gs[3] {
            assert(group_at(v, 3) == Some((g.text@, g.start as nat)));
            return Some(build_token(g, TokenType::Operator, file, line));
        }
    }
    assert(group_at(v, 3).is_none());
    if n > 4 {
        if let Some(g) = &gs[4] {
            assert(group_at(v, 4) == Some((g.text@, g.start as nat)));
            return Some(build_token(g, TokenType::Punctuation, file, line));
        }
    }
    assert(group_at(v, 4).is_none());
    None
}

/// Appends the tokens of the matches `caps` of line `line`.
fn push_line_tokens(tokens: &mut Vec<Token>, caps: &Vec<Vec<Option<CaptureGroup>>>, file: &str, line: usize)
    ensures
        tokens_view(final(tokens)@) == tokens_view(old(tokens)@) + line_tokens(
            file@,
            line as nat,
            captures_view(caps@),
        ),
{
    let ghost start = tokens_view(tokens@);
    let mut i: usize = 0;
    while i < caps.len()
        invariant
            i <= caps@.len(),
            tokens_view(tokens@) == start + line_tokens(file@, line as nat, captures_view(caps@).take(i as int)),
        decreases caps@.len() - i,
    {
        let ghost before = tokens@;
        let ghost cv = captures_view(caps@);
        assert(cv.take(i + 1).drop_last() =~= cv.take(i as int));
        assert(cv.take(i + 1).last() == groups_view(caps@[i as int]@));
        match token_of_capture(&caps[i], file, line) {
            Some(t) => {
                tokens.push(t);
                assert(tokens_view(tokens@) =~= tokens_view(before).push(t@));
            },
            None => {},
        }
        i = i + 1;
    }
    assert(captures_view(caps@).take(i as int) =~= captures_view(caps@));
}

/// The tokens of one line from the capture groups of its matches against
/// [`TOKEN_PATTERN`] (see [`line_tokens`]); `line` counts from zero.
pub fn tokens_of_line(caps: &Vec<Vec<Option<CaptureGroup>>>, file: &str, line: usize) -> (tokens: Vec<Token>)
    ensures
        tokens_view(tokens@) == line_tokens(file@, line as nat, captures_view(caps@)),
{
    let mut tokens: Vec<Token> = Vec::new();
    push_line_tokens(&mut tokens, caps, file, line);
    assert(tokens_view(Seq::<Token>::empty()) =~= Seq::<TokenV>::empty());
    assert(Seq::<TokenV>::empty() + line_tokens(file@, line as nat, captures_view(caps@)) =~= line_tokens(
        file@,
        line as nat,
        captures_view(caps@),
    ));
    tokens
}

/// The tokens of `source_code` under the regular expression `re`.
fn tokenize_with(re: &CompiledRegex, source_code: &str, file_name: &str) -> (tokens: Vec<Token>)
    ensures
        tokens_view(tokens@) == lines_tokens(re.pattern(), file_name@, split_lines(source_code@), 0),
{
    let v = chars_of(source_code);
    let n = v.len();
    let mut tokens: Vec<Token> = Vec::new();
    let mut p: usize = 0;
    let mut k: usize = 0;
    let ghost pat = re.pattern();
    let ghost f = file_name@;
    assert(v@.subrange(0, n as int) =~= v@);
    assert(tokens_view(tokens@) =~= Seq::<TokenV>::empty());
    while p < n
        invariant
            n == v@.len(),
            v@ == source_code@,
            p <= n,
            k <= p,
            pat == re.pattern(),
            f == file_name@,
            lines_tokens(pat, f, split_lines(v@), 0) == tokens_view(tokens@) + lines_tokens(
                pat,
                f,
                split_lines(v@.subrange(p as int, n as int)),
                k as nat,
            ),
        decreases n - p,
    {
        let ghost sub = v@.subrange(p as int, n as int);
        let q = find_char(&v, p, n, '\n');
        let e = if q < n && q > p && v[q - 1] == '\r' {
            q - 1
        } else {
            q
        };
        let a = find_double_slash(&v, p, e);
        let b = find_char(&v, p, a, '#');
        let hay = source_code.substring_char(p, b);
        let caps = captures_of(re, hay);
        let ghost before = tokens_view(tokens@);
        push_line_tokens(&mut tokens, &caps, file_name, k);
        proof {
            let line = v@.subrange(p as int, e as int);
            assert(v@.subrange(p as int, a as int) =~= line.take(a - p));
            assert(v@.subrange(p as int, a as int).take(b - p) =~= v@.subrange(p as int, b as int));
            assert(strip_comment(line) == hay@);
            if q < n {
                assert(sub.take(q - p) =~= v@.subrange(p as int, q as int));
                assert(strip_cr(sub.take(q - p)) =~= line);
                assert(sub.skip(q - p + 1) =~= v@.subrange(q + 1, n as int));
                assert(split_lines(sub) == seq![line] + split_lines(v@.subrange(q + 1, n as int)));
                assert((seq![line] + split_lines(v@.subrange(q + 1, n as int))).drop_first()
                    =~= split_lines(v@.subrange(q + 1, n as int)));
            } else {
                assert(line =~= sub);
                assert(split_lines(sub) == seq![line]);
                assert(seq![line].drop_first() =~= Seq::<Seq<char>>::empty());
                assert(v@.subrange(n as int, n as int) =~= Seq::<char>::empty());
            }
        }
        if q < n {
            p = q + 1;
        } else {
            p = n;
        }
        k = k + 1;
    }
    assert(v@.subrange(p as int, n as int) =~= Seq::<char>::empty());
    assert(tokens_view(tokens@) + Seq::<TokenV>::empty() =~= tokens_view(tokens@));
    tokens
}

/// Splits `source_code` into tokens. Each line (split at `\n` or `\r\n`) loses
/// what follows the first `//`, then what follows the first `#`; the rest is
/// matched against [`TOKEN_PATTERN`], and every match becomes a token located at
/// its one-based line and column (the column counts bytes).
pub fn tokenize(source_code: &str, file_name: &str) -> (tokens: Vec<Token>)
    requires
        regex_compiles(TOKEN_PATTERN@),
    ensures
        tokens_view(tokens@) == spec_tokenize(source_code@, file_name@),
{
    match compile_regex(TOKEN_PATTERN) {
        Some(re) => tokenize_with(&re, source_code, file_name),
        None => {
            proof {
                assert(false);
            }
            Vec::new()
        },
    }
}

/// [`tokenize`], or `None` when the regular expression library refuses
/// [`TOKEN_PATTERN`].
pub fn tokenize_checked(source_code: &str, file_name: &str) -> (r: Option<Vec<Token>>)
    ensures
        r.is_some() == regex_compiles(TOKEN_PATTERN@),
        r matches Some(tokens) ==> tokens_view(tokens@) == spec_tokenize(source_code@, file_name@),
{
    match compile_regex(TOKEN_PATTERN) {
        Some(_) => Some(tokenize(source_code, file_name)),
        None => None,
    }
}

} // verus!
