//! Primitive matching utilities: edit-distance scoring, textual diffs,
//! cookie decoding and the comparator predicates the engine builds on.
//!
//! The outside calls (the `levenshtein`, `difference`, `basic_cookies` and
//! `regex` crates, and a few `str` functions of std that vstd does not
//! specify) each stand behind one trusted wrapper; everything else here is
//! verified against the wrappers' contracts.

use vstd::prelude::*;
use crate::data::HttpMockRequest;
use crate::data::ReqView;

verus! {

// ------------------------------------------------------------------
// Trusted wrappers around outside calls
// ------------------------------------------------------------------

pub open spec fn min3(a: nat, b: nat, c: nat) -> nat {
    if a <= b && a <= c {
        a
    } else if b <= c {
        b
    } else {
        c
    }
}

/// The Levenshtein distance between two character sequences: the minimum
/// number of single-character insertions, deletions and substitutions that
/// turn `a` into `b`.
pub open spec fn lev(a: Seq<char>, b: Seq<char>) -> nat
    decreases a.len() + b.len(),
{
    if a.len() == 0 {
        b.len()
    } else if b.len() == 0 {
        a.len()
    } else if a[0] == b[0] {
        lev(a.skip(1), b.skip(1))
    } else {
        1 + min3(lev(a.skip(1), b), lev(a, b.skip(1)), lev(a.skip(1), b.skip(1)))
    }
}

/// Relies on `levenshtein::levenshtein`: the Levenshtein distance between
/// the two strings' character sequences.
#[verifier::external_body]
pub fn levenshtein_distance(a: &str, b: &str) -> (r: usize)
    ensures
        r == lev(a@, b@),
{
    levenshtein::levenshtein(a, b)
}

/// What `str::to_lowercase` returns for a given character sequence; the
/// result depends on the characters alone.
pub uninterp spec fn lower_of(s: Seq<char>) -> Seq<char>;

/// Relies on `str::to_lowercase`: the result depends on the characters
/// alone, and an empty string stays empty.
#[verifier::external_body]
pub fn lowercase(s: &str) -> (r: String)
    ensures
        r@ == lower_of(s@),
        s@.len() == 0 ==> r@.len() == 0,
{
    s.to_lowercase()
}

/// `needle` occurs contiguously inside `hay`.
pub open spec fn str_contains(hay: Seq<char>, needle: Seq<char>) -> bool {
    exists|i: int|
        0 <= i && i + needle.len() <= hay.len() && #[trigger] hay.subrange(
            i,
            i + needle.len() as int,
        ) == needle
}

/// Relies on `str::contains` with a `&str` pattern: true iff the pattern
/// matches a sub-slice of the string.
#[verifier::external_body]
pub fn contains_str(hay: &str, needle: &str) -> (r: bool)
    ensures
        r == str_contains(hay@, needle@),
{
    hay.contains(needle)
}

/// Relies on `str`'s `==`: two string slices are equal exactly when their
/// character sequences are.
#[verifier::external_body]
pub fn str_eq(a: &str, b: &str) -> (r: bool)
    ensures
        r == (a@ == b@),
{
    a == b
}

/// Compares a `String` to a `&str` by value.
pub fn string_eq_str(a: &String, b: &str) -> (r: bool)
    ensures
        r == (a@ == b@),
{
    str_eq(a.as_str(), b)
}

/// Whether `regex::Regex::new` accepts this pattern source.
pub uninterp spec fn regex_valid(pattern: Seq<char>) -> bool;

/// What `regex::Regex::is_match` returns for a pattern and a haystack; for a
/// valid pattern the result depends on the two character sequences alone.
pub uninterp spec fn regex_match_of(pattern: Seq<char>, text: Seq<char>) -> bool;

/// Relies on `regex::Regex::new` (compilation succeeds exactly on valid
/// patterns) and `regex::Regex::is_match` (whether the compiled pattern
/// matches anywhere in the haystack).
#[verifier::external_body]
pub fn regex_matches(pattern: &str, text: &str) -> (r: Option<bool>)
    ensures
        r is Some <==> regex_valid(pattern@),
        r matches Some(b) ==> b == regex_match_of(pattern@, text@),
{
    match regex::Regex::new(pattern) {
        Ok(re) => Some(re.is_match(text)),
        Err(_) => None,
    }
}

/// What `basic_cookies::Cookie::parse` returns for a `Cookie` header value:
/// `None` when the header does not parse, otherwise the (name, value) pairs
/// in order of appearance.
pub uninterp spec fn cookie_parse_of(s: Seq<char>) -> Option<Seq<(Seq<char>, Seq<char>)>>;

/// Relies on `basic_cookies::Cookie::parse` (with `get_name` / `get_value`
/// to read each parsed cookie); the error text is the parser's own message.
#[verifier::external_body]
pub fn parse_cookie_header(s: &str) -> (r: Result<Vec<(String, String)>, String>)
    ensures
        r matches Ok(v) ==> cookie_parse_of(s@) == Some(v.deep_view()),
        r is Err <==> cookie_parse_of(s@) is None,
{
    match basic_cookies::Cookie::parse(s) {
        Ok(cs) => Ok(
            cs.into_iter().map(|c| (c.get_name().to_owned(), c.get_value().to_owned())).collect(),
        ),
        Err(e) => Err(e.to_string()),
    }
}

/// What `difference::Changeset::new` returns: the ordered edit script (each
/// entry an operation tag 0 = same, 1 = add, 2 = remove, with its text) and
/// the changeset's edit distance, for a given base, edit and separator.
pub uninterp spec fn changeset_of(base: Seq<char>, edit: Seq<char>, sep: Seq<char>) -> (
    Seq<(int, Seq<char>)>,
    int,
);

/// Relies on `difference::Changeset::new`: the edit script and edit distance
/// depend on the two strings and the separator alone.
#[verifier::external_body]
fn changeset(base: &str, edit: &str, sep: &str) -> (r: (Vec<(u8, String)>, i32))
    ensures
        r.0.deep_view().map_values(|p: (u8, Seq<char>)| (p.0 as int, p.1)) == changeset_of(
            base@,
            edit@,
            sep@,
        ).0,
        r.1 as int == changeset_of(base@, edit@, sep@).1,
        forall|j: int| 0 <= j < r.0@.len() ==> (#[trigger] r.0@[j]).0 <= 2,
{
    let cs = difference::Changeset::new(base, edit, sep);
    let diffs = cs
        .diffs
        .into_iter()
        .map(|d| match d {
            difference::Difference::Same(v) => (0u8, v),
            difference::Difference::Add(v) => (1u8, v),
            difference::Difference::Rem(v) => (2u8, v),
        })
        .collect();
    (diffs, cs.distance)
}

// ------------------------------------------------------------------
// Diff records
// ------------------------------------------------------------------

/// One entry of a textual edit script.
#[derive(Debug, PartialEq)]
pub enum Diff {
    Same(String),
    Add(String),
    Rem(String),
}

impl Diff {
    /// The (operation tag, text) encoding this entry stands for.
    pub open spec fn model(self) -> (int, Seq<char>) {
        match self {
            Diff::Same(s) => (0int, s@),
            Diff::Add(s) => (1int, s@),
            Diff::Rem(s) => (2int, s@),
        }
    }
}

/// The granularity at which a textual diff is computed.
#[derive(Debug, PartialEq, Eq, Structural, Clone, Copy)]
pub enum Tokenizer {
    Line,
    Word,
    Character,
}

impl Tokenizer {
    /// The separator handed to the diff library for this granularity.
    pub open spec fn spec_separator(self) -> Seq<char> {
        match self {
            Tokenizer::Line => "\n"@,
            Tokenizer::Word => " "@,
            Tokenizer::Character => ""@,
        }
    }
}

/// An edit script between an expected and an actual string.
#[derive(Debug)]
pub struct DetailedDiffResult {
    pub differences: Vec<Diff>,
    pub distance: i32,
    pub tokenizer: Tokenizer,
}

/// Computes the edit script between `base` and `edit` at the granularity
/// the tokenizer names.
pub fn diff_str(base: &str, edit: &str, tokenizer: Tokenizer) -> (r: DetailedDiffResult)
    ensures
        r.tokenizer == tokenizer,
        r.differences@.map_values(|d: Diff| d.model()) == changeset_of(
            base@,
            edit@,
            tokenizer.spec_separator(),
        ).0,
        r.distance as int == changeset_of(base@, edit@, tokenizer.spec_separator()).1,
{
    let splitter: &str = match tokenizer {
        Tokenizer::Line => "\n",
        Tokenizer::Word => " ",
        Tokenizer::Character => "",
    };
    let (raw, distance) = changeset(base, edit, splitter);
    let mut differences: Vec<Diff> = Vec::new();
    let mut i: usize = 0;
    while i < raw.len()
        invariant
            0 <= i <= raw.len(),
            forall|j: int| 0 <= j < raw@.len() ==> (#[trigger] raw@[j]).0 <= 2,
            differences@.len() == i,
            forall|j: int|
                0 <= j < i ==> (#[trigger] differences@[j]).model() == (
                raw@[j].0 as int,
                raw@[j].1@,
            ),
        decreases raw.len() - i,
    {
        let (tag, text) = &raw[i];
        proof {
            assert(raw.deep_view()[i as int] == (raw@[i as int].0, raw@[i as int].1@));
        }
        let d = if *tag == 0u8 {
            Diff::Same(text.clone())
        } else if *tag == 1u8 {
            Diff::Add(text.clone())
        } else {
            Diff::Rem(text.clone())
        };
        differences.push(d);
        i = i + 1;
    }
    proof {
        assert(differences@.map_values(|d: Diff| d.model()) =~= raw.deep_view().map_values(
            |p: (u8, Seq<char>)| (p.0 as int, p.1),
        ));
    }
    DetailedDiffResult { differences, distance, tokenizer }
}

/// The Levenshtein distance between two strings; the sibling of `diff_str`
/// that reports a bare number instead of a script.
pub fn diff_str_new(s1: &str, s2: &str) -> (r: usize)
    ensures
        r == lev(s1@, s2@),
{
    levenshtein_distance(s1, s2)
}

// ------------------------------------------------------------------
// Mismatch records
// ------------------------------------------------------------------

/// The expected and actual value of one failing facet.
#[derive(Debug)]
pub struct SimpleDiffResult {
    pub expected: String,
    pub actual: String,
    pub operation_name: String,
    pub best_match: bool,
}

/// Why one facet of one mock failed against a request.
#[derive(Debug)]
pub struct Mismatch {
    pub title: String,
    pub message: Option<String>,
    pub reason: Option<SimpleDiffResult>,
    pub detailed_diff: Option<DetailedDiffResult>,
    pub score: usize,
}

// ------------------------------------------------------------------
// Distance scoring
// ------------------------------------------------------------------

/// The per-facet distance score: with `L` the total length of the two
/// sides and `d` their Levenshtein distance, the score is
/// `100 - (L - d) / L`, and 0 when both sides are empty. It is 0 exactly
/// when both sides are empty; an exact non-empty match scores 99.
pub open spec fn spec_distance(expected: Seq<char>, actual: Seq<char>) -> nat {
    let l = (expected.len() + actual.len()) as int;
    let d = lev(expected, actual) as int;
    if l == 0 {
        0
    } else {
        (100 - (l - d) / l) as nat
    }
}

/// The Levenshtein distance never exceeds the combined length of the two
/// sequences, and is zero exactly on equal sequences.
pub proof fn lemma_lev_bounds(a: Seq<char>, b: Seq<char>)
    ensures
        lev(a, b) <= a.len() + b.len(),
        lev(a, b) == 0 <==> a == b,
    decreases a.len() + b.len(),
{
    if a.len() == 0 {
        if b.len() == 0 {
            assert(a =~= b);
        } else {
            assert(a.len() != b.len());
        }
    } else if b.len() == 0 {
        assert(a.len() != b.len());
    } else if a[0] == b[0] {
        lemma_lev_bounds(a.skip(1), b.skip(1));
        if lev(a, b) == 0 {
            assert(a.skip(1) == b.skip(1));
            assert forall|i: int| 0 <= i < a.len() implies a[i] == b[i] by {
                if i > 0 {
                    assert(a.skip(1)[i - 1] == b.skip(1)[i - 1]);
                }
            }
            assert(a =~= b);
        } else {
            if a == b {
                assert(a.skip(1) =~= b.skip(1));
            }
        }
    } else {
        lemma_lev_bounds(a.skip(1), b);
        lemma_lev_bounds(a, b.skip(1));
        lemma_lev_bounds(a.skip(1), b.skip(1));
        if a == b {
            assert(a[0] == b[0]);
        }
    }
}

/// The score is always 0, 99 or 100, and pins down the formula's cases.
pub proof fn lemma_distance_cases(expected: Seq<char>, actual: Seq<char>)
    ensures
        expected.len() + actual.len() == 0 ==> spec_distance(expected, actual) == 0,
        expected.len() + actual.len() > 0 && expected == actual ==> spec_distance(expected, actual)
            == 99,
        expected.len() + actual.len() > 0 && expected != actual ==> spec_distance(expected, actual)
            == 100,
        spec_distance(expected, actual) <= 100,
{
    let l = (expected.len() + actual.len()) as int;
    lemma_lev_bounds(expected, actual);
    let d = lev(expected, actual) as int;
    if l > 0 {
        if expected == actual {
            assert(d == 0);
            assert(l / l == 1) by {
                vstd::arithmetic::div_mod::lemma_div_by_self(l);
            }
        } else {
            assert(d >= 1);
            assert(0 <= l - d < l);
            assert((l - d) / l == 0) by {
                vstd::arithmetic::div_mod::lemma_basic_div(l - d, l);
            }
        }
    }
}

/// The distance score of two strings, per the formula of `spec_distance`.
pub fn distance_for(expected: &str, actual: &str) -> (r: usize)
    ensures
        r == spec_distance(expected@, actual@),
        r <= 100,
{
    proof {
        lemma_lev_bounds(expected@, actual@);
        lemma_distance_cases(expected@, actual@);
    }
    // The integer division in the formula collapses every case to 0, 99 or
    // 100; `lemma_distance_cases` proves the three branches equal to it.
    let d = levenshtein_distance(expected, actual);
    if expected.is_empty() && actual.is_empty() {
        0
    } else if d == 0 {
        99
    } else {
        100
    }
}

/// The summed distance scores of `expected` against each entry of `actual`.
pub open spec fn spec_distance_vec(expected: Seq<char>, actual: Seq<Seq<char>>) -> nat
    decreases actual.len(),
{
    if actual.len() == 0 {
        0
    } else {
        spec_distance(expected, actual[0]) + spec_distance_vec(expected, actual.skip(1))
    }
}

/// Sums the distance score of `expected` against every string in `actual`.
pub fn distance_for_vec(expected: &str, actual: &Vec<String>) -> (r: u128)
    ensures
        r == spec_distance_vec(expected@, actual.deep_view()),
{
    let mut total: u128 = 0;
    let mut i: usize = 0;
    proof {
        assert(actual.deep_view().skip(0) =~= actual.deep_view());
    }
    while i < actual.len()
        invariant
            0 <= i <= actual.len(),
            actual.deep_view().len() == actual@.len(),
            total + spec_distance_vec(expected@, actual.deep_view().skip(i as int))
                == spec_distance_vec(expected@, actual.deep_view()),
            total <= 100 * i,
        decreases actual.len() - i,
    {
        let d = distance_for(expected, actual[i].as_str());
        proof {
            assert(actual.deep_view().skip(i as int)[0] == actual@[i as int]@);
            assert(actual.deep_view().skip(i as int).skip(1) =~= actual.deep_view().skip(
                i + 1 as int,
            ));
        }
        total = total + d as u128;
        i = i + 1;
    }
    proof {
        assert(actual.deep_view().skip(i as int) =~= Seq::<Seq<char>>::empty());
    }
    total
}

/// The distance score of two optional strings; an absent side counts as the
/// empty string.
pub fn distance_for_opt(expected: Option<&String>, actual: Option<&String>) -> (r: usize)
    ensures
        r == spec_distance(
            match expected {
                Some(e) => e@,
                None => Seq::<char>::empty(),
            },
            match actual {
                Some(a) => a@,
                None => Seq::<char>::empty(),
            },
        ),
{
    let e: &str = match expected {
        Some(s) => s.as_str(),
        None => "",
    };
    let a: &str = match actual {
        Some(s) => s.as_str(),
        None => "",
    };
    proof {
        reveal_strlit("");
        assert(""@ =~= Seq::<char>::empty());
    }
    distance_for(e, a)
}

// ------------------------------------------------------------------
// Cookie decoding
// ------------------------------------------------------------------

/// The least index `>= i` of a header named `cookie` (case-insensitively).
pub open spec fn first_cookie_index(hs: Seq<(Seq<char>, Seq<char>)>, i: int) -> Option<int>
    decreases hs.len() - i,
{
    if i < 0 || i >= hs.len() {
        None
    } else if lower_of(hs[i].0) == "cookie"@ {
        Some(i)
    } else {
        first_cookie_index(hs, i + 1)
    }
}

/// The value of the first header whose name, lowercased, is `cookie`.
pub open spec fn cookie_header_value(req: ReqView) -> Option<Seq<char>> {
    match req.headers {
        None => None,
        Some(hs) => match first_cookie_index(hs, 0) {
            None => None,
            Some(i) => Some(hs[i].1),
        },
    }
}

/// What `parse_cookies` yields: the request's `Cookie` header decoded into
/// (lowercased name, value) pairs; `None` stands for a parse error, and a
/// missing header decodes to no pairs.
pub open spec fn spec_cookies(req: ReqView) -> Option<Seq<(Seq<char>, Seq<char>)>> {
    match cookie_header_value(req) {
        None => Some(Seq::empty()),
        Some(h) => match cookie_parse_of(h) {
            None => None,
            Some(ps) => Some(ps.map_values(|p: (Seq<char>, Seq<char>)| (lower_of(p.0), p.1))),
        },
    }
}

/// Returns the value of the first header named `cookie`, case-insensitively.
fn find_cookie_header(req: &HttpMockRequest) -> (r: Option<String>)
    ensures
        r matches Some(h) ==> cookie_header_value(req@) == Some(h@),
        r is None <==> cookie_header_value(req@) is None,
{
    match &req.headers {
        None => None,
        Some(hs) => {
            let ghost hsv = hs.deep_view();
            proof {
                assert(req@.headers == Some(hsv));
            }
            let mut i: usize = 0;
            while i < hs.len()
                invariant
                    0 <= i <= hs.len(),
                    hsv == hs.deep_view(),
                    hsv.len() == hs@.len(),
                    req@.headers == Some(hsv),
                    first_cookie_index(hsv, 0) == first_cookie_index(hsv, i as int),
                decreases hs.len() - i,
            {
                let (name, value) = &hs[i];
                proof {
                    assert(hsv[i as int] == (hs@[i as int].0@, hs@[i as int].1@));
                }
                let lname = lowercase(name.as_str());
                if string_eq_str(&lname, "cookie") {
                    assert(first_cookie_index(hsv, i as int) == Some(i as int));
                    return Some(value.clone());
                }
                assert(first_cookie_index(hsv, i as int) == first_cookie_index(hsv, i + 1));
                i = i + 1;
            }
            assert(first_cookie_index(hsv, i as int) is None);
            None
        },
    }
}

/// Decodes the request's cookies: finds the `Cookie` header
/// (case-insensitive name), parses it, and lowercases each cookie name.
/// A missing header yields no pairs; a malformed header yields the parser's
/// error message.
pub fn parse_cookies(req: &HttpMockRequest) -> (r: Result<Vec<(String, String)>, String>)
    ensures
        r matches Ok(v) ==> spec_cookies(req@) == Some(v.deep_view()),
        r is Err <==> spec_cookies(req@) is None,
{
    let header = find_cookie_header(req);
    match header {
        None => {
            let empty: Vec<(String, String)> = Vec::new();
            assert(empty.deep_view() =~= Seq::<(Seq<char>, Seq<char>)>::empty());
            Ok(empty)
        },
        Some(h) => match parse_cookie_header(h.as_str()) {
            Err(e) => Err(e),
            Ok(raw) => {
                let ghost ps = raw.deep_view();
                let mut out: Vec<(String, String)> = Vec::new();
                let mut i: usize = 0;
                while i < raw.len()
                    invariant
                        0 <= i <= raw.len(),
                        ps == raw.deep_view(),
                        ps.len() == raw@.len(),
                        out@.len() == i,
                        forall|j: int|
                            0 <= j < i ==> (#[trigger] out@[j]).0@ == lower_of(ps[j].0)
                                && out@[j].1@ == ps[j].1,
                    decreases raw.len() - i,
                {
                    let (name, value) = &raw[i];
                    proof {
                        assert(ps[i as int] == (raw@[i as int].0@, raw@[i as int].1@));
                    }
                    out.push((lowercase(name.as_str()), value.clone()));
                    i = i + 1;
                }
                proof {
                    assert(out.deep_view() =~~= ps.map_values(
                        |p: (Seq<char>, Seq<char>)| (lower_of(p.0), p.1),
                    ));
                }
                Ok(out)
            },
        },
    }
}

} // verus!
