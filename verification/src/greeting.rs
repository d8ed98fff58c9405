//! Which words contain a greeting: a match of `[hH]ell[oO0]`.
use crate::compiler::tokenizer::{compile_regex, is_match_of, regex_compiles, regex_is_match};
use vstd::prelude::*;

verus! {

/// The regular expression of a greeting.
pub const GREETING_PATTERN: &'static str = r"[hH]ell[oO0]";

/// The report on `text`: the text in quotes, then whether it matched.
pub open spec fn report_line(text: Seq<char>, matched: bool) -> Seq<char> {
    "\""@ + text + if matched {
        "\" is a match :)"@
    } else {
        "\" is not a match :("@
    }
}

fn report(text: &str, matched: bool) -> (s: String)
    ensures
        s@ == report_line(text@, matched),
{
    let mut s = "\"".to_owned();
    s.append(text);
    if matched {
        s.append("\" is a match :)");
    } else {
        s.append("\" is not a match :(");
    }
    s
}

/// For each of `texts`, in order, the report on whether it contains a greeting
/// (see [`GREETING_PATTERN`]); `None` when the regular expression library
/// refuses the pattern.
pub fn greeting_reports(texts: &Vec<String>) -> (r: Option<Vec<String>>)
    ensures
        r.is_some() == regex_compiles(GREETING_PATTERN@),
        r matches Some(lines) ==> {
            &&& lines@.len() == texts@.len()
            &&& forall|i: int|
                0 <= i < texts@.len() ==> #[trigger] lines@[i]@ == report_line(
                    texts@[i]@,
                    regex_is_match(GREETING_PATTERN@, texts@[i]@),
                )
        },
{
    let re = match compile_regex(GREETING_PATTERN) {
        Some(re) => re,
        None => return None,
    };
    let mut lines: Vec<String> = Vec::new();
    let mut k: usize = 0;
    while k < texts.len()
        invariant
            k <= texts@.len(),
            re.pattern() == GREETING_PATTERN@,
            lines@.len() == k,
            forall|i: int|
                0 <= i < k ==> #[trigger] lines@[i]@ == report_line(
                    texts@[i]@,
                    regex_is_match(GREETING_PATTERN@, texts@[i]@),
                ),
        decreases texts@.len() - k,
    {
        let matched = is_match_of(&re, texts[k].as_str());
        lines.push(report(texts[k].as_str(), matched));
        k = k + 1;
    }
    Some(lines)
}

} // verus!
