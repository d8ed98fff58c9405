//! Character-level helpers: decimal rendering, line splitting and comment
//! stripping, all stated over `Seq<char>`.
use vstd::prelude::*;
use vstd::string::*;

verus! {

/// The ten decimal digits, in order.
pub open spec fn digits() -> Seq<char> {
    seq!['0', '1', '2', '3', '4', '5', '6', '7', '8', '9']
}

/// The decimal representation of `n`, most significant digit first, without
/// leading zeros (`0` is written `"0"`).
pub open spec fn decimal(n: nat) -> Seq<char>
    decreases n,
{
    if n < 10 {
        seq![digits()[n as int]]
    } else {
        decimal(n / 10).push(digits()[(n % 10) as int])
    }
}

/// A one-character string holding the digit `d`.
fn digit_str(d: u128) -> (s: &'static str)
    requires
        d < 10,
    ensures
        s@ == seq![digits()[d as int]],
{
    let all = "0123456789";
    proof {
        reveal_strlit("0123456789");
    }
    let u: usize = d as usize;
    all.substring_char(u, u + 1)
}

/// Renders `n` in decimal.
pub fn decimal_string(n: u128) -> (s: String)
    ensures
        s@ == decimal(n as nat),
    decreases n,
{
    if n < 10 {
        digit_str(n).to_owned()
    } else {
        let mut s = decimal_string(n / 10);
        s.append(digit_str(n % 10));
        s
    }
}

/// Renders `n + 1` in decimal (a one-based position from a zero-based index).
pub fn one_based_string(n: usize) -> (s: String)
    ensures
        s@ == decimal(n as nat + 1),
{
    let m: u128 = n as u128;
    decimal_string(m + 1)
}


/// Index of the first occurrence of `c` in `s`, or `s.len()` when there is none.
pub open spec fn index_of_char(s: Seq<char>, c: char) -> nat
    decreases s.len(),
{
    if s.len() == 0 {
        0
    } else if s[0] == c {
        0
    } else {
        1 + index_of_char(s.drop_first(), c)
    }
}

/// `s` holds `"//"` starting at index `j`.
pub open spec fn slashes_at(s: Seq<char>, j: int) -> bool {
    s[j] == '/' && s[j + 1] == '/'
}

/// Index of the first `"//"` in `s`, or `s.len()` when there is none.
pub open spec fn index_of_double_slash(s: Seq<char>) -> nat
    decreases s.len(),
{
    if s.len() < 2 {
        s.len()
    } else if s[0] == '/' && s[1] == '/' {
        0
    } else {
        1 + index_of_double_slash(s.drop_first())
    }
}

/// The part of `s` before the first `c` (all of `s` when `c` does not occur).
pub open spec fn before_char(s: Seq<char>, c: char) -> Seq<char> {
    s.take(index_of_char(s, c) as int)
}

/// The part of `s` before the first `"//"`.
pub open spec fn before_double_slash(s: Seq<char>) -> Seq<char> {
    s.take(index_of_double_slash(s) as int)
}

/// A source line without its comment: the text before the first `//`, and of
/// that the text before the first `#`.
pub open spec fn strip_comment(line: Seq<char>) -> Seq<char> {
    before_char(before_double_slash(line), '#')
}

/// Drops one trailing carriage return.
pub open spec fn strip_cr(s: Seq<char>) -> Seq<char> {
    if s.len() > 0 && s.last() == '\r' {
        s.drop_last()
    } else {
        s
    }
}

/// The lines of `s`: split at `"\n"` or `"\r\n"`; a final line ending is optional
/// and does not start an empty line.
pub open spec fn split_lines(s: Seq<char>) -> Seq<Seq<char>>
    decreases s.len(),
{
    if s.len() == 0 {
        seq![]
    } else {
        let i = index_of_char(s, '\n');
        if i >= s.len() {
            seq![s]
        } else {
            seq![strip_cr(s.take(i as int))] + split_lines(s.skip(i + 1 as int))
        }
    }
}

pub proof fn lemma_index_of_char(s: Seq<char>, c: char, k: int)
    requires
        0 <= k <= s.len(),
        k < s.len() ==> s[k] == c,
        forall|j: int| 0 <= j < k ==> s[j] != c,
    ensures
        index_of_char(s, c) == k,
    decreases s.len(),
{
    if s.len() > 0 && k > 0 {
        assert forall|j: int| 0 <= j < k - 1 implies s.drop_first()[j] != c by {
            assert(s.drop_first()[j] == s[j + 1]);
        }
        lemma_index_of_char(s.drop_first(), c, k - 1);
    }
}

pub proof fn lemma_index_of_double_slash(s: Seq<char>, k: int)
    requires
        0 <= k <= s.len(),
        k < s.len() ==> k + 1 < s.len() && slashes_at(s, k),
        forall|j: int| 0 <= j < k && j + 1 < s.len() ==> !#[trigger] slashes_at(s, j),
    ensures
        index_of_double_slash(s) == k,
    decreases s.len(),
{
    if s.len() >= 2 && k > 0 {
        let t = s.drop_first();
        assert forall|j: int| 0 <= j < k - 1 && j + 1 < t.len() implies !#[trigger] slashes_at(t, j) by {
            assert(t[j] == s[j + 1] && t[j + 1] == s[j + 2]);
            assert(!slashes_at(s, j + 1));
        }
        assert(!slashes_at(s, 0));
        if k < s.len() {
            assert(t[k - 1] == s[k] && t[k] == s[k + 1]);
        }
        lemma_index_of_double_slash(t, k - 1);
    }
}

/// The characters of `s`.
pub fn chars_of(s: &str) -> (v: Vec<char>)
    ensures
        v@ == s@,
{
    let n = s.unicode_len();
    let mut v: Vec<char> = Vec::new();
    let mut i: usize = 0;
    while i < n
        invariant
            n == s@.len(),
            i <= n,
            v@ == s@.take(i as int),
        decreases n - i,
    {
        v.push(s.get_char(i));
        i = i + 1;
        assert(v@ =~= s@.take(i as int));
    }
    assert(v@ =~= s@);
    v
}

/// First index in `start..end` holding `c`, or `end`.
pub fn find_char(v: &Vec<char>, start: usize, end: usize, c: char) -> (k: usize)
    requires
        start <= end <= v@.len(),
    ensures
        start <= k <= end,
        k == start + index_of_char(v@.subrange(start as int, end as int), c),
{
    let mut k = start;
    while k < end && v[k] != c
        invariant
            start <= k <= end <= v@.len(),
            forall|j: int| start <= j < k ==> v@[j] != c,
        decreases end - k,
    {
        k = k + 1;
    }
    proof {
        let s = v@.subrange(start as int, end as int);
        assert forall|j: int| 0 <= j < k - start implies s[j] != c by {
            assert(s[j] == v@[start + j]);
        }
        lemma_index_of_char(s, c, k - start);
    }
    k
}

/// First index in `start..end` where `"//"` begins within that range, or `end`.
pub fn find_double_slash(v: &Vec<char>, start: usize, end: usize) -> (k: usize)
    requires
        start <= end <= v@.len(),
    ensures
        start <= k <= end,
        k == start + index_of_double_slash(v@.subrange(start as int, end as int)),
{
    let mut k = start;
    let mut found = false;
    while end - k > 1 && !found
        invariant
            start <= k <= end <= v@.len(),
            found ==> k + 1 < end && v@[k as int] == '/' && v@[k + 1] == '/',
            forall|j: int| start <= j < k ==> !#[trigger] slashes_at(v@, j),
        decreases end - k, if found { 0int } else { 1int },
    {
        if v[k] == '/' && v[k + 1] == '/' {
            found = true;
        } else {
            k = k + 1;
        }
    }
    let r = if found { k } else { end };
    proof {
        let s = v@.subrange(start as int, end as int);
        assert forall|j: int| 0 <= j < r - start && j + 1 < s.len() implies !#[trigger] slashes_at(s, j) by {
            assert(s[j] == v@[start + j] && s[j + 1] == v@[start + j + 1]);
            assert(!slashes_at(v@, start + j));
        }
        lemma_index_of_double_slash(s, r - start);
    }
    r
}


/// Whether two texts are equal.
pub fn same_text(a: &str, b: &str) -> (r: bool)
    ensures
        r == (a@ == b@),
{
    a.to_owned() == b.to_owned()
}

/// `names` separated by `", "`.
pub open spec fn join_names(names: Seq<Seq<char>>) -> Seq<char>
    decreases names.len(),
{
    if names.len() == 0 {
        seq![]
    } else if names.len() == 1 {
        names[0]
    } else {
        join_names(names.drop_last()) + ", "@ + names.last()
    }
}

pub open spec fn texts_view(v: Seq<String>) -> Seq<Seq<char>> {
    v.map_values(|s: String| s@)
}

/// The texts of `v` separated by `", "`.
pub fn join_texts(v: &Vec<String>) -> (s: String)
    ensures
        s@ == join_names(texts_view(v@)),
{
    let ghost names = texts_view(v@);
    let mut s = String::new();
    let mut i: usize = 0;
    while i < v.len()
        invariant
            i <= v@.len(),
            names == texts_view(v@),
            s@ == join_names(names.take(i as int)),
        decreases v@.len() - i,
    {
        if i > 0 {
            s.append(", ");
        }
        s.append(v[i].as_str());
        proof {
            let next = names.take(i + 1);
            assert(next.drop_last() =~= names.take(i as int));
            assert(s@ =~= join_names(next));
        }
        i = i + 1;
    }
    assert(names.take(i as int) =~= names);
    s
}

/// Whether one of the texts of `v` is `t`.
pub fn contains_text(v: &Vec<String>, t: &str) -> (r: bool)
    ensures
        r == texts_view(v@).contains(t@),
{
    let ghost names = texts_view(v@);
    let mut i: usize = 0;
    while i < v.len()
        invariant
            i <= v@.len(),
            names == texts_view(v@),
            forall|j: int| 0 <= j < i ==> names[j] != t@,
        decreases v@.len() - i,
    {
        if same_text(v[i].as_str(), t) {
            assert(names[i as int] == t@);
            return true;
        }
        i = i + 1;
    }
    false
}

} // verus!
