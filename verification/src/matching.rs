//! The matching engine: whether a request satisfies a mock's requirements,
//! and, when it does not, the per-facet mismatch records and their
//! edit-distance scores.
//!
//! `spec_matches` is the mathematical statement of the matching rule: a
//! request matches a mock exactly when every facet the mock sets passes;
//! unset facets always pass. `all_entries` is the mathematical statement of
//! the mismatch list: one (title, score) entry per failing item, in
//! matcher-declaration order.

use vstd::prelude::*;
use vstd::string::StrSliceExecFns;
use crate::data::{HttpMockRequest, RequestRequirements, ReqView, ReqsView, PairsView};
use crate::matchers::{
    Mismatch, SimpleDiffResult, Tokenizer, Diff, diff_str, distance_for, spec_distance,
    str_contains, contains_str, regex_valid, regex_match_of, regex_matches, spec_cookies,
    parse_cookies, lower_of, lowercase, str_eq, changeset_of,
};

verus! {

/// One summarized mismatch: the facet title and its distance score.
pub type FacetEntry = (Seq<char>, nat);

// ------------------------------------------------------------------
// Spec-level views of the request's facets
// ------------------------------------------------------------------

pub open spec fn req_query(req: ReqView) -> PairsView {
    match req.query_params {
        None => Seq::empty(),
        Some(q) => q,
    }
}

pub open spec fn req_headers(req: ReqView) -> PairsView {
    match req.headers {
        None => Seq::empty(),
        Some(h) => h,
    }
}

pub open spec fn req_body(req: ReqView) -> Seq<char> {
    match req.body {
        None => Seq::empty(),
        Some(b) => b,
    }
}

pub open spec fn opt_or_empty(o: Option<Seq<char>>) -> Seq<char> {
    match o {
        None => Seq::empty(),
        Some(s) => s,
    }
}

// ------------------------------------------------------------------
// Pair lookup
// ------------------------------------------------------------------

/// The pair (k, v) occurs in `ps` (names case-sensitive).
pub open spec fn has_pair(ps: PairsView, k: Seq<char>, v: Seq<char>) -> bool {
    exists|i: int| 0 <= i < ps.len() && (#[trigger] ps[i]).0 == k && ps[i].1 == v
}

/// The pair (k, v) occurs in `ps`, names compared case-insensitively.
pub open spec fn has_pair_ci(ps: PairsView, k: Seq<char>, v: Seq<char>) -> bool {
    exists|i: int|
        0 <= i < ps.len() && lower_of((#[trigger] ps[i]).0) == lower_of(k) && ps[i].1 == v
}

/// The pair (lowercase k, v) occurs in `ps`, whose names are already
/// lowercased.
pub open spec fn has_pair_lowered(ps: PairsView, k: Seq<char>, v: Seq<char>) -> bool {
    exists|i: int| 0 <= i < ps.len() && (#[trigger] ps[i]).0 == lower_of(k) && ps[i].1 == v
}

/// The value of the first pair at or after `i` whose name is `k`.
pub open spec fn first_value_for(ps: PairsView, k: Seq<char>, i: int) -> Option<Seq<char>>
    decreases ps.len() - i,
{
    if i < 0 || i >= ps.len() {
        None
    } else if ps[i].0 == k {
        Some(ps[i].1)
    } else {
        first_value_for(ps, k, i + 1)
    }
}

/// The value of the first pair at or after `i` whose name equals `k`
/// case-insensitively.
pub open spec fn first_value_for_ci(ps: PairsView, k: Seq<char>, i: int) -> Option<Seq<char>>
    decreases ps.len() - i,
{
    if i < 0 || i >= ps.len() {
        None
    } else if lower_of(ps[i].0) == lower_of(k) {
        Some(ps[i].1)
    } else {
        first_value_for_ci(ps, k, i + 1)
    }
}

/// The value of the first pair at or after `i` whose (already lowercased)
/// name equals the lowercased `k`.
pub open spec fn first_value_for_low(ps: PairsView, k: Seq<char>, i: int) -> Option<Seq<char>>
    decreases ps.len() - i,
{
    if i < 0 || i >= ps.len() {
        None
    } else if ps[i].0 == lower_of(k) {
        Some(ps[i].1)
    } else {
        first_value_for_low(ps, k, i + 1)
    }
}

// ------------------------------------------------------------------
// When does a request match a mock's requirements
// ------------------------------------------------------------------

/// A request matches requirements exactly when every facet the mock sets
/// passes; an unset facet always passes.
pub open spec fn spec_matches(req: ReqView, rr: ReqsView) -> bool {
    &&& (rr.method matches Some(m) ==> req.method == m)
    &&& (rr.path matches Some(p) ==> req.path == p)
    &&& (rr.path_contains matches Some(cs) ==> forall|i: int|
        0 <= i < cs.len() ==> str_contains(req.path, #[trigger] cs[i]))
    &&& (rr.path_matches matches Some(ps) ==> forall|i: int|
        0 <= i < ps.len() ==> regex_valid(#[trigger] ps[i]) && regex_match_of(ps[i], req.path))
    &&& (rr.query_param matches Some(qs) ==> forall|i: int|
        0 <= i < qs.len() ==> has_pair(req_query(req), (#[trigger] qs[i]).0, qs[i].1))
    &&& (rr.headers matches Some(hs) ==> forall|i: int|
        0 <= i < hs.len() ==> has_pair_ci(req_headers(req), (#[trigger] hs[i]).0, hs[i].1))
    &&& (rr.cookies matches Some(cs) ==> spec_cookies(req) matches Some(parsed) && forall|i: int|
        0 <= i < cs.len() ==> has_pair_lowered(parsed, (#[trigger] cs[i]).0, cs[i].1))
    &&& (rr.body matches Some(b) ==> req_body(req) == b)
    &&& (rr.body_contains matches Some(cs) ==> forall|i: int|
        0 <= i < cs.len() ==> str_contains(req_body(req), #[trigger] cs[i]))
    &&& (rr.body_matches matches Some(ps) ==> forall|i: int|
        0 <= i < ps.len() ==> regex_valid(#[trigger] ps[i]) && regex_match_of(
            ps[i],
            req_body(req),
        ))
}

// ------------------------------------------------------------------
// Mismatch entries (title, score), in matcher-declaration order
// ------------------------------------------------------------------

/// Entry for an exact-string facet: empty when it passes, else one entry
/// scored by the distance formula.
pub open spec fn eq_entries(title: Seq<char>, expected: Option<Seq<char>>, actual: Seq<char>) -> Seq<
    FacetEntry,
> {
    match expected {
        None => Seq::empty(),
        Some(e) => if actual == e {
            Seq::empty()
        } else {
            seq![(title, spec_distance(e, actual))]
        },
    }
}

/// Entries for a substring-set facet: one per needle that does not occur.
pub open spec fn contains_entries(title: Seq<char>, hay: Seq<char>, needles: Seq<Seq<char>>) -> Seq<
    FacetEntry,
>
    decreases needles.len(),
{
    if needles.len() == 0 {
        Seq::empty()
    } else {
        (if str_contains(hay, needles[0]) {
            Seq::empty()
        } else {
            seq![(title, spec_distance(needles[0], hay))]
        }) + contains_entries(title, hay, needles.skip(1))
    }
}

/// Entries for a regex-set facet: one per pattern that is invalid or does
/// not match.
pub open spec fn regex_entries(title: Seq<char>, text: Seq<char>, pats: Seq<Seq<char>>) -> Seq<
    FacetEntry,
>
    decreases pats.len(),
{
    if pats.len() == 0 {
        Seq::empty()
    } else {
        (if regex_valid(pats[0]) && regex_match_of(pats[0], text) {
            Seq::empty()
        } else {
            seq![(title, spec_distance(pats[0], text))]
        }) + regex_entries(title, text, pats.skip(1))
    }
}

/// Entries for the query facet: one per required pair not present.
pub open spec fn query_pair_entries(actual: PairsView, required: PairsView) -> Seq<FacetEntry>
    decreases required.len(),
{
    if required.len() == 0 {
        Seq::empty()
    } else {
        (if has_pair(actual, required[0].0, required[0].1) {
            Seq::empty()
        } else {
            seq![
                (
                    "Query parameter"@,
                    spec_distance(required[0].1, opt_or_empty(first_value_for(actual, required[0].0, 0))),
                ),
            ]
        }) + query_pair_entries(actual, required.skip(1))
    }
}

/// Entries for the header facet: one per required pair not present.
pub open spec fn header_pair_entries(actual: PairsView, required: PairsView) -> Seq<FacetEntry>
    decreases required.len(),
{
    if required.len() == 0 {
        Seq::empty()
    } else {
        (if has_pair_ci(actual, required[0].0, required[0].1) {
            Seq::empty()
        } else {
            seq![
                (
                    "Header"@,
                    spec_distance(
                        required[0].1,
                        opt_or_empty(first_value_for_ci(actual, required[0].0, 0)),
                    ),
                ),
            ]
        }) + header_pair_entries(actual, required.skip(1))
    }
}

/// Entries for the cookie facet once the header parsed: one per required
/// pair not present.
pub open spec fn cookie_pair_entries(parsed: PairsView, required: PairsView) -> Seq<FacetEntry>
    decreases required.len(),
{
    if required.len() == 0 {
        Seq::empty()
    } else {
        (if has_pair_lowered(parsed, required[0].0, required[0].1) {
            Seq::empty()
        } else {
            seq![
                (
                    "Cookie"@,
                    spec_distance(
                        required[0].1,
                        opt_or_empty(first_value_for_low(parsed, required[0].0, 0)),
                    ),
                ),
            ]
        }) + cookie_pair_entries(parsed, required.skip(1))
    }
}

/// Entries for the cookie facet: a single full-score entry when the header
/// does not parse, else one entry per missing pair.
pub open spec fn cookie_entries(req: ReqView, rr: ReqsView) -> Seq<FacetEntry> {
    match rr.cookies {
        None => Seq::empty(),
        Some(cs) => match spec_cookies(req) {
            None => seq![("Cookie"@, 100nat)],
            Some(parsed) => cookie_pair_entries(parsed, cs),
        },
    }
}

pub open spec fn opt_seq<A>(o: Option<Seq<A>>) -> Seq<A> {
    match o {
        None => Seq::empty(),
        Some(s) => s,
    }
}

/// The entries of the method, path and query facets.
pub open spec fn head_entries(req: ReqView, rr: ReqsView) -> Seq<FacetEntry> {
    eq_entries("Method"@, rr.method, req.method) + eq_entries("Path"@, rr.path, req.path)
        + contains_entries("Path contains"@, req.path, opt_seq(rr.path_contains)) + regex_entries(
        "Path matches"@,
        req.path,
        opt_seq(rr.path_matches),
    ) + query_pair_entries(req_query(req), opt_seq(rr.query_param))
}

/// The entries of the header, cookie and body facets.
pub open spec fn tail_entries(req: ReqView, rr: ReqsView) -> Seq<FacetEntry> {
    header_pair_entries(req_headers(req), opt_seq(rr.headers)) + cookie_entries(req, rr)
        + eq_entries("Body"@, rr.body, req_body(req)) + contains_entries(
        "Body contains"@,
        req_body(req),
        opt_seq(rr.body_contains),
    ) + regex_entries("Body matches"@, req_body(req), opt_seq(rr.body_matches))
}

/// All mismatch entries of one mock against one request, in
/// matcher-declaration order.
pub open spec fn all_entries(req: ReqView, rr: ReqsView) -> Seq<FacetEntry> {
    head_entries(req, rr) + tail_entries(req, rr)
}

/// The total distance score: the sum of every entry's score.
pub open spec fn sum_entries(es: Seq<FacetEntry>) -> nat
    decreases es.len(),
{
    if es.len() == 0 {
        0
    } else {
        es[0].1 + sum_entries(es.skip(1))
    }
}

/// The total distance score of one mock against one request.
pub open spec fn total_score(req: ReqView, rr: ReqsView) -> nat {
    sum_entries(all_entries(req, rr))
}

/// The (title, score) summaries of a mismatch list.
pub open spec fn mm_models(ms: Seq<Mismatch>) -> Seq<FacetEntry> {
    ms.map_values(|m: Mismatch| (m.title@, m.score as nat))
}

// ------------------------------------------------------------------
// Executable pair lookup
// ------------------------------------------------------------------

/// Whether (k, v) occurs in `ps`, names case-sensitive.
fn find_pair(ps: &Vec<(String, String)>, k: &String, v: &String) -> (r: bool)
    ensures
        r == has_pair(ps.deep_view(), k@, v@),
{
    let ghost psv = ps.deep_view();
    let mut i: usize = 0;
    while i < ps.len()
        invariant
            0 <= i <= ps.len(),
            psv == ps.deep_view(),
            psv.len() == ps@.len(),
            forall|j: int| 0 <= j < i ==> !((#[trigger] psv[j]).0 == k@ && psv[j].1 == v@),
        decreases ps.len() - i,
    {
        let (pk, pv) = &ps[i];
        proof {
            assert(psv[i as int] == (ps@[i as int].0@, ps@[i as int].1@));
        }
        if str_eq(pk.as_str(), k.as_str()) && str_eq(pv.as_str(), v.as_str()) {
            return true;
        }
        i = i + 1;
    }
    false
}

/// Whether (k, v) occurs in `ps`, names compared case-insensitively.
fn find_pair_ci(ps: &Vec<(String, String)>, k: &String, v: &String) -> (r: bool)
    ensures
        r == has_pair_ci(ps.deep_view(), k@, v@),
{
    let ghost psv = ps.deep_view();
    let lk = lowercase(k.as_str());
    let mut i: usize = 0;
    while i < ps.len()
        invariant
            0 <= i <= ps.len(),
            psv == ps.deep_view(),
            psv.len() == ps@.len(),
            lk@ == lower_of(k@),
            forall|j: int|
                0 <= j < i ==> !(lower_of((#[trigger] psv[j]).0) == lower_of(k@) && psv[j].1
                    == v@),
        decreases ps.len() - i,
    {
        let (pk, pv) = &ps[i];
        proof {
            assert(psv[i as int] == (ps@[i as int].0@, ps@[i as int].1@));
        }
        let lpk = lowercase(pk.as_str());
        if str_eq(lpk.as_str(), lk.as_str()) && str_eq(pv.as_str(), v.as_str()) {
            return true;
        }
        i = i + 1;
    }
    false
}

/// Whether (lowercase k, v) occurs in `ps`, whose names are lowercased.
fn find_pair_lowered(ps: &Vec<(String, String)>, k: &String, v: &String) -> (r: bool)
    ensures
        r == has_pair_lowered(ps.deep_view(), k@, v@),
{
    let ghost psv = ps.deep_view();
    let lk = lowercase(k.as_str());
    let mut i: usize = 0;
    while i < ps.len()
        invariant
            0 <= i <= ps.len(),
            psv == ps.deep_view(),
            psv.len() == ps@.len(),
            lk@ == lower_of(k@),
            forall|j: int|
                0 <= j < i ==> !((#[trigger] psv[j]).0 == lower_of(k@) && psv[j].1 == v@),
        decreases ps.len() - i,
    {
        let (pk, pv) = &ps[i];
        proof {
            assert(psv[i as int] == (ps@[i as int].0@, ps@[i as int].1@));
        }
        if str_eq(pk.as_str(), lk.as_str()) && str_eq(pv.as_str(), v.as_str()) {
            return true;
        }
        i = i + 1;
    }
    false
}

/// The value of the first pair named `k`, or the empty string.
fn first_value(ps: &Vec<(String, String)>, k: &String) -> (r: String)
    ensures
        r@ == opt_or_empty(first_value_for(ps.deep_view(), k@, 0)),
{
    let ghost psv = ps.deep_view();
    let mut i: usize = 0;
    while i < ps.len()
        invariant
            0 <= i <= ps.len(),
            psv == ps.deep_view(),
            psv.len() == ps@.len(),
            first_value_for(psv, k@, 0) == first_value_for(psv, k@, i as int),
        decreases ps.len() - i,
    {
        let (pk, pv) = &ps[i];
        proof {
            assert(psv[i as int] == (ps@[i as int].0@, ps@[i as int].1@));
        }
        if str_eq(pk.as_str(), k.as_str()) {
            assert(first_value_for(psv, k@, i as int) == Some(psv[i as int].1));
            return pv.clone();
        }
        assert(first_value_for(psv, k@, i as int) == first_value_for(psv, k@, i + 1));
        i = i + 1;
    }
    assert(first_value_for(psv, k@, i as int) is None);
    String::new()
}

/// The value of the first pair whose name equals `k` case-insensitively,
/// or the empty string.
fn first_value_ci(ps: &Vec<(String, String)>, k: &String) -> (r: String)
    ensures
        r@ == opt_or_empty(first_value_for_ci(ps.deep_view(), k@, 0)),
{
    let ghost psv = ps.deep_view();
    let lk = lowercase(k.as_str());
    let mut i: usize = 0;
    while i < ps.len()
        invariant
            0 <= i <= ps.len(),
            psv == ps.deep_view(),
            psv.len() == ps@.len(),
            lk@ == lower_of(k@),
            first_value_for_ci(psv, k@, 0) == first_value_for_ci(psv, k@, i as int),
        decreases ps.len() - i,
    {
        let (pk, pv) = &ps[i];
        proof {
            assert(psv[i as int] == (ps@[i as int].0@, ps@[i as int].1@));
        }
        let lpk = lowercase(pk.as_str());
        if str_eq(lpk.as_str(), lk.as_str()) {
            assert(first_value_for_ci(psv, k@, i as int) == Some(psv[i as int].1));
            return pv.clone();
        }
        assert(first_value_for_ci(psv, k@, i as int) == first_value_for_ci(psv, k@, i + 1));
        i = i + 1;
    }
    assert(first_value_for_ci(psv, k@, i as int) is None);
    String::new()
}

/// The value of the first pair whose (lowercased) name equals the
/// lowercased `k`, or the empty string.
fn first_value_low(ps: &Vec<(String, String)>, k: &String) -> (r: String)
    ensures
        r@ == opt_or_empty(first_value_for_low(ps.deep_view(), k@, 0)),
{
    let ghost psv = ps.deep_view();
    let lk = lowercase(k.as_str());
    let mut i: usize = 0;
    while i < ps.len()
        invariant
            0 <= i <= ps.len(),
            psv == ps.deep_view(),
            psv.len() == ps@.len(),
            lk@ == lower_of(k@),
            first_value_for_low(psv, k@, 0) == first_value_for_low(psv, k@, i as int),
        decreases ps.len() - i,
    {
        let (pk, pv) = &ps[i];
        proof {
            assert(psv[i as int] == (ps@[i as int].0@, ps@[i as int].1@));
        }
        if str_eq(pk.as_str(), lk.as_str()) {
            assert(first_value_for_low(psv, k@, i as int) == Some(psv[i as int].1));
            return pv.clone();
        }
        assert(first_value_for_low(psv, k@, i as int) == first_value_for_low(psv, k@, i + 1));
        i = i + 1;
    }
    assert(first_value_for_low(psv, k@, i as int) is None);
    String::new()
}

// ------------------------------------------------------------------
// Executable matching
// ------------------------------------------------------------------

/// Every needle occurs in `hay`.
fn all_contained(hay: &String, needles: &Vec<String>) -> (r: bool)
    ensures
        r == forall|i: int|
            0 <= i < needles.deep_view().len() ==> str_contains(
                hay@,
                #[trigger] needles.deep_view()[i],
            ),
{
    let ghost nv = needles.deep_view();
    let mut i: usize = 0;
    while i < needles.len()
        invariant
            0 <= i <= needles.len(),
            nv == needles.deep_view(),
            nv.len() == needles@.len(),
            forall|j: int| 0 <= j < i ==> str_contains(hay@, #[trigger] nv[j]),
        decreases needles.len() - i,
    {
        proof {
            assert(nv[i as int] == needles@[i as int]@);
        }
        if !contains_str(hay.as_str(), needles[i].as_str()) {
            return false;
        }
        i = i + 1;
    }
    true
}

/// Every pattern is a valid regex that matches `text`.
fn all_regex_match(text: &String, pats: &Vec<String>) -> (r: bool)
    ensures
        r == forall|i: int|
            0 <= i < pats.deep_view().len() ==> regex_valid(#[trigger] pats.deep_view()[i])
                && regex_match_of(pats.deep_view()[i], text@),
{
    let ghost pv = pats.deep_view();
    let mut i: usize = 0;
    while i < pats.len()
        invariant
            0 <= i <= pats.len(),
            pv == pats.deep_view(),
            pv.len() == pats@.len(),
            forall|j: int|
                0 <= j < i ==> regex_valid(#[trigger] pv[j]) && regex_match_of(pv[j], text@),
        decreases pats.len() - i,
    {
        proof {
            assert(pv[i as int] == pats@[i as int]@);
        }
        match regex_matches(pats[i].as_str(), text.as_str()) {
            None => {
                return false;
            },
            Some(m) => {
                if !m {
                    return false;
                }
            },
        }
        i = i + 1;
    }
    true
}

/// Every required pair is present (names case-sensitive).
fn all_pairs(actual: &Vec<(String, String)>, required: &Vec<(String, String)>) -> (r: bool)
    ensures
        r == forall|i: int|
            0 <= i < required.deep_view().len() ==> has_pair(
                actual.deep_view(),
                (#[trigger] required.deep_view()[i]).0,
                required.deep_view()[i].1,
            ),
{
    let ghost rv = required.deep_view();
    let mut i: usize = 0;
    while i < required.len()
        invariant
            0 <= i <= required.len(),
            rv == required.deep_view(),
            rv.len() == required@.len(),
            forall|j: int|
                0 <= j < i ==> has_pair(actual.deep_view(), (#[trigger] rv[j]).0, rv[j].1),
        decreases required.len() - i,
    {
        let (k, v) = &required[i];
        proof {
            assert(rv[i as int] == (required@[i as int].0@, required@[i as int].1@));
        }
        if !find_pair(actual, k, v) {
            return false;
        }
        i = i + 1;
    }
    true
}

/// Every required pair is present (names case-insensitive).
fn all_pairs_ci(actual: &Vec<(String, String)>, required: &Vec<(String, String)>) -> (r: bool)
    ensures
        r == forall|i: int|
            0 <= i < required.deep_view().len() ==> has_pair_ci(
                actual.deep_view(),
                (#[trigger] required.deep_view()[i]).0,
                required.deep_view()[i].1,
            ),
{
    let ghost rv = required.deep_view();
    let mut i: usize = 0;
    while i < required.len()
        invariant
            0 <= i <= required.len(),
            rv == required.deep_view(),
            rv.len() == required@.len(),
            forall|j: int|
                0 <= j < i ==> has_pair_ci(actual.deep_view(), (#[trigger] rv[j]).0, rv[j].1),
        decreases required.len() - i,
    {
        let (k, v) = &required[i];
        proof {
            assert(rv[i as int] == (required@[i as int].0@, required@[i as int].1@));
        }
        if !find_pair_ci(actual, k, v) {
            return false;
        }
        i = i + 1;
    }
    true
}

/// Every required cookie is present in the parsed, name-lowercased pairs.
fn all_pairs_lowered(actual: &Vec<(String, String)>, required: &Vec<(String, String)>) -> (r: bool)
    ensures
        r == forall|i: int|
            0 <= i < required.deep_view().len() ==> has_pair_lowered(
                actual.deep_view(),
                (#[trigger] required.deep_view()[i]).0,
                required.deep_view()[i].1,
            ),
{
    let ghost rv = required.deep_view();
    let mut i: usize = 0;
    while i < required.len()
        invariant
            0 <= i <= required.len(),
            rv == required.deep_view(),
            rv.len() == required@.len(),
            forall|j: int|
                0 <= j < i ==> has_pair_lowered(
                    actual.deep_view(),
                    (#[trigger] rv[j]).0,
                    rv[j].1,
                ),
        decreases required.len() - i,
    {
        let (k, v) = &required[i];
        proof {
            assert(rv[i as int] == (required@[i as int].0@, required@[i as int].1@));
        }
        if !find_pair_lowered(actual, k, v) {
            return false;
        }
        i = i + 1;
    }
    true
}

/// Whether the request satisfies every facet the requirements set.
pub fn request_matches(req: &HttpMockRequest, rr: &RequestRequirements) -> (r: bool)
    ensures
        r == spec_matches(req@, rr@),
{
    let empty_string = String::new();
    let empty_pairs: Vec<(String, String)> = Vec::new();
    proof {
        assert(empty_pairs.deep_view() =~= Seq::<(Seq<char>, Seq<char>)>::empty());
        assert(req@.method == req.method@);
        assert(req@.path == req.path@);
        assert(req@.query_params == req.query_params.deep_view());
        assert(req@.headers == req.headers.deep_view());
        assert(req@.body == req.body.deep_view());
    }
    match &rr.method {
        Some(m) => {
            proof {
                assert(rr@.method == Some(m@));
            }
            if !str_eq(m.as_str(), req.method.as_str()) {
                return false;
            }
        },
        None => {},
    }
    match &rr.path {
        Some(p) => {
            proof {
                assert(rr@.path == Some(p@));
            }
            if !str_eq(p.as_str(), req.path.as_str()) {
                return false;
            }
        },
        None => {},
    }
    match &rr.path_contains {
        Some(cs) => {
            proof {
                assert(rr@.path_contains == Some(cs.deep_view()));
            }
            if !all_contained(&req.path, cs) {
                proof {
                    let csv = cs.deep_view();
                    assert(!(forall|i: int|
                        0 <= i < csv.len() ==> str_contains(req.path@, #[trigger] csv[i])));
                    assert(rr@.path_contains matches Some(c2) && c2 == csv);
                    assert(!spec_matches(req@, rr@));
                }
                return false;
            }
            proof {
                let csv = cs.deep_view();
                assert(forall|i: int|
                    0 <= i < csv.len() ==> str_contains(req.path@, #[trigger] csv[i]));
            }
        },
        None => {},
    }
    match &rr.path_matches {
        Some(ps) => {
            proof {
                assert(rr@.path_matches == Some(ps.deep_view()));
            }
            if !all_regex_match(&req.path, ps) {
                proof {
                    let pv = ps.deep_view();
                    assert(!(forall|i: int|
                        0 <= i < pv.len() ==> regex_valid(#[trigger] pv[i]) && regex_match_of(
                            pv[i],
                            req.path@,
                        )));
                    assert(rr@.path_matches matches Some(p2) && p2 == pv);
                    assert(!spec_matches(req@, rr@));
                }
                return false;
            }
            proof {
                let pv = ps.deep_view();
                assert(forall|i: int|
                    0 <= i < pv.len() ==> regex_valid(#[trigger] pv[i]) && regex_match_of(
                        pv[i],
                        req.path@,
                    ));
            }
        },
        None => {},
    }
    let actual_query: &Vec<(String, String)> = match &req.query_params {
        Some(q) => q,
        None => &empty_pairs,
    };
    proof {
        assert(actual_query.deep_view() == req_query(req@));
    }
    match &rr.query_param {
        Some(qs) => {
            proof {
                assert(rr@.query_param == Some(qs.deep_view()));
            }
            if !all_pairs(actual_query, qs) {
                proof {
                    let qv = qs.deep_view();
                    assert(!(forall|i: int|
                        0 <= i < qv.len() ==> has_pair(
                            actual_query.deep_view(),
                            (#[trigger] qv[i]).0,
                            qv[i].1,
                        )));
                    assert(rr@.query_param matches Some(q2) && q2 == qv);
                    assert(actual_query.deep_view() == req_query(req@));
                    assert(!spec_matches(req@, rr@));
                }
                return false;
            }
            proof {
                let qv = qs.deep_view();
                assert(actual_query.deep_view() == req_query(req@));
                assert(forall|i: int|
                    0 <= i < qv.len() ==> has_pair(
                        req_query(req@),
                        (#[trigger] qv[i]).0,
                        qv[i].1,
                    ));
            }
        },
        None => {},
    }
    let actual_headers: &Vec<(String, String)> = match &req.headers {
        Some(h) => h,
        None => &empty_pairs,
    };
    proof {
        assert(actual_headers.deep_view() == req_headers(req@));
    }
    match &rr.headers {
        Some(hs) => {
            proof {
                assert(rr@.headers == Some(hs.deep_view()));
            }
            if !all_pairs_ci(actual_headers, hs) {
                proof {
                    let hv = hs.deep_view();
                    assert(!(forall|i: int|
                        0 <= i < hv.len() ==> has_pair_ci(
                            actual_headers.deep_view(),
                            (#[trigger] hv[i]).0,
                            hv[i].1,
                        )));
                    assert(rr@.headers matches Some(h2) && h2 == hv);
                    assert(actual_headers.deep_view() == req_headers(req@));
                    assert(!spec_matches(req@, rr@));
                }
                return false;
            }
            proof {
                let hv = hs.deep_view();
                assert(actual_headers.deep_view() == req_headers(req@));
                assert(forall|i: int|
                    0 <= i < hv.len() ==> has_pair_ci(
                        req_headers(req@),
                        (#[trigger] hv[i]).0,
                        hv[i].1,
                    ));
            }
        },
        None => {},
    }
    match &rr.cookies {
        Some(cs) => {
            proof {
                assert(rr@.cookies == Some(cs.deep_view()));
            }
            match parse_cookies(req) {
                Err(_) => {
                    proof {
                        assert(spec_cookies(req@) is None);
                        assert(!spec_matches(req@, rr@));
                    }
                    return false;
                },
                Ok(parsed) => {
                    proof {
                        assert(spec_cookies(req@) == Some(parsed.deep_view()));
                    }
                    if !all_pairs_lowered(&parsed, cs) {
                        proof {
                            let cv = cs.deep_view();
                            assert(!(forall|i: int|
                                0 <= i < cv.len() ==> has_pair_lowered(
                                    parsed.deep_view(),
                                    (#[trigger] cv[i]).0,
                                    cv[i].1,
                                )));
                            assert(rr@.cookies matches Some(c2) && c2 == cv);
                            assert(!spec_matches(req@, rr@));
                        }
                        return false;
                    }
                    proof {
                        let cv = cs.deep_view();
                        assert(forall|i: int|
                            0 <= i < cv.len() ==> has_pair_lowered(
                                parsed.deep_view(),
                                (#[trigger] cv[i]).0,
                                cv[i].1,
                            ));
                        assert(rr@.cookies matches Some(c2) && spec_cookies(req@) matches Some(
                            p2,
                        ) && forall|i: int|
                            0 <= i < c2.len() ==> has_pair_lowered(
                                p2,
                                (#[trigger] c2[i]).0,
                                c2[i].1,
                            ));
                    }
                },
            }
        },
        None => {},
    }
    let actual_body: &String = match &req.body {
        Some(b) => b,
        None => &empty_string,
    };
    proof {
        assert(actual_body@ == req_body(req@));
    }
    match &rr.body {
        Some(b) => {
            proof {
                assert(rr@.body == Some(b@));
            }
            if !str_eq(b.as_str(), actual_body.as_str()) {
                return false;
            }
        },
        None => {},
    }
    match &rr.body_contains {
        Some(cs) => {
            proof {
                assert(rr@.body_contains == Some(cs.deep_view()));
            }
            if !all_contained(actual_body, cs) {
                proof {
                    let csv = cs.deep_view();
                    assert(!(forall|i: int|
                        0 <= i < csv.len() ==> str_contains(actual_body@, #[trigger] csv[i])));
                    assert(rr@.body_contains matches Some(c2) && c2 == csv);
                    assert(actual_body@ == req_body(req@));
                    assert(!spec_matches(req@, rr@));
                }
                return false;
            }
            proof {
                let csv = cs.deep_view();
                assert(actual_body@ == req_body(req@));
                assert(forall|i: int|
                    0 <= i < csv.len() ==> str_contains(req_body(req@), #[trigger] csv[i]));
            }
        },
        None => {},
    }
    match &rr.body_matches {
        Some(ps) => {
            proof {
                assert(rr@.body_matches == Some(ps.deep_view()));
            }
            if !all_regex_match(actual_body, ps) {
                proof {
                    let pv = ps.deep_view();
                    assert(!(forall|i: int|
                        0 <= i < pv.len() ==> regex_valid(#[trigger] pv[i]) && regex_match_of(
                            pv[i],
                            actual_body@,
                        )));
                    assert(rr@.body_matches matches Some(p2) && p2 == pv);
                    assert(actual_body@ == req_body(req@));
                    assert(!spec_matches(req@, rr@));
                }
                return false;
            }
            proof {
                let pv = ps.deep_view();
                assert(actual_body@ == req_body(req@));
                assert(forall|i: int|
                    0 <= i < pv.len() ==> regex_valid(#[trigger] pv[i]) && regex_match_of(
                        pv[i],
                        req_body(req@),
                    ));
            }
        },
        None => {},
    }
    true
}

// ------------------------------------------------------------------
// Executable mismatch construction
// ------------------------------------------------------------------

/// The diff granularity for a pair of strings: by lines when either side
/// holds a newline, else by words when either holds a space, else by
/// characters.
pub open spec fn pick_tokenizer(e: Seq<char>, a: Seq<char>) -> Tokenizer {
    if str_contains(e, "\n"@) || str_contains(a, "\n"@) {
        Tokenizer::Line
    } else if str_contains(e, " "@) || str_contains(a, " "@) {
        Tokenizer::Word
    } else {
        Tokenizer::Character
    }
}

/// Every mismatch carries a reason whose `best_match` flag is `b`.
pub open spec fn all_best(ms: Seq<Mismatch>, b: bool) -> bool {
    forall|i: int|
        0 <= i < ms.len() ==> ((#[trigger] ms[i]).reason matches Some(sd) && sd.best_match == b)
}

/// Builds the mismatch record for one failing string comparison, attaching
/// a textual diff when both sides are short (at most 256 characters): by
/// lines if either side holds a newline, else by words if either holds a
/// space, else by characters.
fn build_mismatch(title: &str, op: &str, expected: &String, actual: &String, best: bool) -> (m:
    Mismatch)
    ensures
        m.title@ == title@,
        m.score == spec_distance(expected@, actual@),
        m.reason matches Some(sd) && sd.best_match == best,
        m.detailed_diff is Some <==> (expected@.len() <= 256 && actual@.len() <= 256),
        m.detailed_diff matches Some(dd) ==> {
            let tok = pick_tokenizer(expected@, actual@);
            &&& dd.tokenizer == tok
            &&& dd.differences@.map_values(|d: Diff| d.model()) == changeset_of(
                expected@,
                actual@,
                tok.spec_separator(),
            ).0
            &&& dd.distance as int == changeset_of(expected@, actual@, tok.spec_separator()).1
        },
{
    let score = distance_for(expected.as_str(), actual.as_str());
    let detailed: Option<crate::matchers::DetailedDiffResult> = if expected.as_str().unicode_len()
        <= 256 && actual.as_str().unicode_len() <= 256 {
        let tok = if contains_str(expected.as_str(), "\n") || contains_str(actual.as_str(), "\n") {
            Tokenizer::Line
        } else if contains_str(expected.as_str(), " ") || contains_str(actual.as_str(), " ") {
            Tokenizer::Word
        } else {
            Tokenizer::Character
        };
        Some(diff_str(expected.as_str(), actual.as_str(), tok))
    } else {
        None
    };
    Mismatch {
        title: title.to_owned(),
        message: None,
        reason: Some(
            SimpleDiffResult {
                expected: expected.clone(),
                actual: actual.clone(),
                operation_name: op.to_owned(),
                best_match: best,
            },
        ),
        detailed_diff: detailed,
        score,
    }
}

/// Mismatches of an exact-string facet: none when it passes.
fn eq_mismatches(title: &str, op: &str, expected: &Option<String>, actual: &String, best: bool) -> (
    r: Vec<Mismatch>)
    ensures
        mm_models(r@) == eq_entries(title@, expected.deep_view(), actual@),
        all_best(r@, best),
{
    let mut r: Vec<Mismatch> = Vec::new();
    proof {
        assert(mm_models(r@) =~= Seq::<FacetEntry>::empty());
    }
    match expected {
        None => {
            assert(expected.deep_view() is None);
        },
        Some(e) => {
            assert(expected.deep_view() == Some(e@));
            if !str_eq(e.as_str(), actual.as_str()) {
                let m = build_mismatch(title, op, e, actual, best);
                r.push(m);
                proof {
                    assert(mm_models(r@) =~= seq![(title@, spec_distance(e@, actual@))]);
                }
            }
        },
    }
    r
}

/// Mismatches of a substring-set facet: one per needle that is absent.
fn contains_mismatches(title: &str, hay: &String, needles: &Vec<String>, best: bool) -> (r: Vec<
    Mismatch,
>)
    ensures
        mm_models(r@) == contains_entries(title@, hay@, needles.deep_view()),
        all_best(r@, best),
{
    let ghost nv = needles.deep_view();
    let mut r: Vec<Mismatch> = Vec::new();
    let mut i: usize = 0;
    proof {
        assert(nv.skip(0) =~= nv);
        assert(mm_models(r@) =~= Seq::<FacetEntry>::empty());
    }
    while i < needles.len()
        invariant
            0 <= i <= needles.len(),
            nv == needles.deep_view(),
            nv.len() == needles@.len(),
            mm_models(r@) + contains_entries(title@, hay@, nv.skip(i as int)) == contains_entries(
                title@,
                hay@,
                nv,
            ),
            all_best(r@, best),
        decreases needles.len() - i,
    {
        proof {
            assert(nv[i as int] == needles@[i as int]@);
            assert(nv.skip(i as int)[0] == nv[i as int]);
            assert(nv.skip(i as int).skip(1) =~= nv.skip(i + 1 as int));
        }
        let ghost prev = mm_models(r@);
        if !contains_str(hay.as_str(), needles[i].as_str()) {
            let m = build_mismatch(title, "contains", &needles[i], hay, best);
            r.push(m);
            proof {
                assert(mm_models(r@) =~= prev + seq![(title@, spec_distance(nv[i as int], hay@))]);
            }
        }
        i = i + 1;
    }
    proof {
        assert(nv.skip(i as int) =~= Seq::<Seq<char>>::empty());
        assert(mm_models(r@) + Seq::<FacetEntry>::empty() =~= mm_models(r@));
    }
    r
}

/// Mismatches of a regex-set facet: one per pattern that is invalid or
/// does not match.
fn regex_mismatches(title: &str, text: &String, pats: &Vec<String>, best: bool) -> (r: Vec<
    Mismatch,
>)
    ensures
        mm_models(r@) == regex_entries(title@, text@, pats.deep_view()),
        all_best(r@, best),
{
    let ghost pv = pats.deep_view();
    let mut r: Vec<Mismatch> = Vec::new();
    let mut i: usize = 0;
    proof {
        assert(pv.skip(0) =~= pv);
        assert(mm_models(r@) =~= Seq::<FacetEntry>::empty());
    }
    while i < pats.len()
        invariant
            0 <= i <= pats.len(),
            pv == pats.deep_view(),
            pv.len() == pats@.len(),
            mm_models(r@) + regex_entries(title@, text@, pv.skip(i as int)) == regex_entries(
                title@,
                text@,
                pv,
            ),
            all_best(r@, best),
        decreases pats.len() - i,
    {
        proof {
            assert(pv[i as int] == pats@[i as int]@);
            assert(pv.skip(i as int)[0] == pv[i as int]);
            assert(pv.skip(i as int).skip(1) =~= pv.skip(i + 1 as int));
        }
        let ghost prev = mm_models(r@);
        let ok = match regex_matches(pats[i].as_str(), text.as_str()) {
            None => false,
            Some(m) => m,
        };
        if !ok {
            let m = build_mismatch(title, "matches regex", &pats[i], text, best);
            r.push(m);
            proof {
                assert(mm_models(r@) =~= prev + seq![
                    (title@, spec_distance(pv[i as int], text@)),
                ]);
            }
        }
        i = i + 1;
    }
    proof {
        assert(pv.skip(i as int) =~= Seq::<Seq<char>>::empty());
        assert(mm_models(r@) + Seq::<FacetEntry>::empty() =~= mm_models(r@));
    }
    r
}

/// Mismatches of the query facet: one per required pair not present.
fn query_mismatches(actual: &Vec<(String, String)>, required: &Vec<(String, String)>, best: bool) -> (
    r: Vec<Mismatch>)
    ensures
        mm_models(r@) == query_pair_entries(actual.deep_view(), required.deep_view()),
        all_best(r@, best),
{
    let ghost av = actual.deep_view();
    let ghost rv = required.deep_view();
    let mut r: Vec<Mismatch> = Vec::new();
    let mut i: usize = 0;
    proof {
        assert(rv.skip(0) =~= rv);
        assert(mm_models(r@) =~= Seq::<FacetEntry>::empty());
    }
    while i < required.len()
        invariant
            0 <= i <= required.len(),
            av == actual.deep_view(),
            rv == required.deep_view(),
            rv.len() == required@.len(),
            mm_models(r@) + query_pair_entries(av, rv.skip(i as int)) == query_pair_entries(
                av,
                rv,
            ),
            all_best(r@, best),
        decreases required.len() - i,
    {
        let (k, v) = &required[i];
        proof {
            assert(rv[i as int] == (required@[i as int].0@, required@[i as int].1@));
            assert(rv.skip(i as int)[0] == rv[i as int]);
            assert(rv.skip(i as int).skip(1) =~= rv.skip(i + 1 as int));
        }
        let ghost prev = mm_models(r@);
        if !find_pair(actual, k, v) {
            let fv = first_value(actual, k);
            let m = build_mismatch("Query parameter", "key-value pair present", v, &fv, best);
            r.push(m);
            proof {
                assert(mm_models(r@) =~= prev + seq![
                    (
                        "Query parameter"@,
                        spec_distance(
                            rv[i as int].1,
                            opt_or_empty(first_value_for(av, rv[i as int].0, 0)),
                        ),
                    ),
                ]);
            }
        }
        i = i + 1;
    }
    proof {
        assert(rv.skip(i as int) =~= Seq::<(Seq<char>, Seq<char>)>::empty());
        assert(mm_models(r@) + Seq::<FacetEntry>::empty() =~= mm_models(r@));
    }
    r
}

/// Mismatches of the header facet: one per required pair not present.
fn header_mismatches(actual: &Vec<(String, String)>, required: &Vec<(String, String)>, best: bool) -> (
    r: Vec<Mismatch>)
    ensures
        mm_models(r@) == header_pair_entries(actual.deep_view(), required.deep_view()),
        all_best(r@, best),
{
    let ghost av = actual.deep_view();
    let ghost rv = required.deep_view();
    let mut r: Vec<Mismatch> = Vec::new();
    let mut i: usize = 0;
    proof {
        assert(rv.skip(0) =~= rv);
        assert(mm_models(r@) =~= Seq::<FacetEntry>::empty());
    }
    while i < required.len()
        invariant
            0 <= i <= required.len(),
            av == actual.deep_view(),
            rv == required.deep_view(),
            rv.len() == required@.len(),
            mm_models(r@) + header_pair_entries(av, rv.skip(i as int)) == header_pair_entries(
                av,
                rv,
            ),
            all_best(r@, best),
        decreases required.len() - i,
    {
        let (k, v) = &required[i];
        proof {
            assert(rv[i as int] == (required@[i as int].0@, required@[i as int].1@));
            assert(rv.skip(i as int)[0] == rv[i as int]);
            assert(rv.skip(i as int).skip(1) =~= rv.skip(i + 1 as int));
        }
        let ghost prev = mm_models(r@);
        if !find_pair_ci(actual, k, v) {
            let fv = first_value_ci(actual, k);
            let m = build_mismatch("Header", "key-value pair present", v, &fv, best);
            r.push(m);
            proof {
                assert(mm_models(r@) =~= prev + seq![
                    (
                        "Header"@,
                        spec_distance(
                            rv[i as int].1,
                            opt_or_empty(first_value_for_ci(av, rv[i as int].0, 0)),
                        ),
                    ),
                ]);
            }
        }
        i = i + 1;
    }
    proof {
        assert(rv.skip(i as int) =~= Seq::<(Seq<char>, Seq<char>)>::empty());
        assert(mm_models(r@) + Seq::<FacetEntry>::empty() =~= mm_models(r@));
    }
    r
}

/// Mismatches of the cookie facet once parsed: one per required pair not
/// present.
fn cookie_pair_mismatches(
    parsed: &Vec<(String, String)>,
    required: &Vec<(String, String)>,
    best: bool,
) -> (r: Vec<Mismatch>)
    ensures
        mm_models(r@) == cookie_pair_entries(parsed.deep_view(), required.deep_view()),
        all_best(r@, best),
{
    let ghost av = parsed.deep_view();
    let ghost rv = required.deep_view();
    let mut r: Vec<Mismatch> = Vec::new();
    let mut i: usize = 0;
    proof {
        assert(rv.skip(0) =~= rv);
        assert(mm_models(r@) =~= Seq::<FacetEntry>::empty());
    }
    while i < required.len()
        invariant
            0 <= i <= required.len(),
            av == parsed.deep_view(),
            rv == required.deep_view(),
            rv.len() == required@.len(),
            mm_models(r@) + cookie_pair_entries(av, rv.skip(i as int)) == cookie_pair_entries(
                av,
                rv,
            ),
            all_best(r@, best),
        decreases required.len() - i,
    {
        let (k, v) = &required[i];
        proof {
            assert(rv[i as int] == (required@[i as int].0@, required@[i as int].1@));
            assert(rv.skip(i as int)[0] == rv[i as int]);
            assert(rv.skip(i as int).skip(1) =~= rv.skip(i + 1 as int));
        }
        let ghost prev = mm_models(r@);
        if !find_pair_lowered(parsed, k, v) {
            let fv = first_value_low(parsed, k);
            let m = build_mismatch("Cookie", "key-value pair present", v, &fv, best);
            r.push(m);
            proof {
                assert(mm_models(r@) =~= prev + seq![
                    (
                        "Cookie"@,
                        spec_distance(
                            rv[i as int].1,
                            opt_or_empty(first_value_for_low(av, rv[i as int].0, 0)),
                        ),
                    ),
                ]);
            }
        }
        i = i + 1;
    }
    proof {
        assert(rv.skip(i as int) =~= Seq::<(Seq<char>, Seq<char>)>::empty());
        assert(mm_models(r@) + Seq::<FacetEntry>::empty() =~= mm_models(r@));
    }
    r
}

/// `mm_models` distributes over concatenation, and `all_best` is preserved
/// by it.
proof fn lemma_mm_append(a: Seq<Mismatch>, b: Seq<Mismatch>, best: bool)
    requires
        all_best(a, best),
        all_best(b, best),
    ensures
        mm_models(a + b) == mm_models(a) + mm_models(b),
        all_best(a + b, best),
{
    assert(mm_models(a + b) =~= mm_models(a) + mm_models(b));
    assert forall|i: int| 0 <= i < (a + b).len() implies ((#[trigger] (a + b)[i]).reason
        matches Some(sd) && sd.best_match == best) by {
        if i < a.len() {
            assert((a + b)[i] == a[i]);
        } else {
            assert((a + b)[i] == b[i - a.len()]);
        }
    }
}

/// Mismatches of the method, path and query facets.
#[verifier::rlimit(60)]
fn mismatches_head(req: &HttpMockRequest, rr: &RequestRequirements, best: bool) -> (r: Vec<
    Mismatch,
>)
    ensures
        mm_models(r@) == head_entries(req@, rr@),
        all_best(r@, best),
{
    let empty_string = String::new();
    let empty_pairs: Vec<(String, String)> = Vec::new();
    proof {
        assert(empty_pairs.deep_view() =~= Seq::<(Seq<char>, Seq<char>)>::empty());
        assert(req@.path == req.path@);
        assert(req@.method == req.method@);
        assert(rr@.method == rr.method.deep_view());
        assert(rr@.path == rr.path.deep_view());
        assert(rr@.path_contains == rr.path_contains.deep_view());
        assert(rr@.path_matches == rr.path_matches.deep_view());
        assert(rr@.query_param == rr.query_param.deep_view());
        assert(rr@.headers == rr.headers.deep_view());
        assert(rr@.cookies == rr.cookies.deep_view());
        assert(rr@.body == rr.body.deep_view());
        assert(rr@.body_contains == rr.body_contains.deep_view());
        assert(rr@.body_matches == rr.body_matches.deep_view());
    }
    let mut out: Vec<Mismatch> = Vec::new();
    proof {
        assert(mm_models(out@) =~= Seq::<FacetEntry>::empty());
    }

    let mut m1 = eq_mismatches("Method", "equals", &rr.method, &req.method, best);
    let ghost acc0 = out@;
    let ghost e1 = m1@;
    proof {
        lemma_mm_append(acc0, e1, best);
    }
    out.append(&mut m1);

    let mut m2 = eq_mismatches("Path", "equals", &rr.path, &req.path, best);
    let ghost acc1 = out@;
    let ghost e2 = m2@;
    proof {
        lemma_mm_append(acc1, e2, best);
    }
    out.append(&mut m2);

    let mut m3 = match &rr.path_contains {
        Some(cs) => contains_mismatches("Path contains", &req.path, cs, best),
        None => Vec::new(),
    };
    proof {
        assert(match rr@.path_contains {
            Some(csv) => mm_models(m3@) == contains_entries("Path contains"@, req@.path, csv),
            None => mm_models(m3@) =~= Seq::<FacetEntry>::empty(),
        });
        assert(mm_models(m3@) == contains_entries(
            "Path contains"@,
            req@.path,
            opt_seq(rr@.path_contains),
        )) by {
            if rr@.path_contains is None {
                assert(contains_entries("Path contains"@, req@.path, Seq::empty())
                    =~= Seq::<FacetEntry>::empty());
            }
        }
    }
    let ghost acc2 = out@;
    let ghost e3 = m3@;
    proof {
        lemma_mm_append(acc2, e3, best);
    }
    out.append(&mut m3);

    let mut m4 = match &rr.path_matches {
        Some(ps) => regex_mismatches("Path matches", &req.path, ps, best),
        None => Vec::new(),
    };
    proof {
        assert(mm_models(m4@) == regex_entries(
            "Path matches"@,
            req@.path,
            opt_seq(rr@.path_matches),
        )) by {
            if rr@.path_matches is None {
                assert(mm_models(m4@) =~= Seq::<FacetEntry>::empty());
                assert(regex_entries("Path matches"@, req@.path, Seq::empty())
                    =~= Seq::<FacetEntry>::empty());
            }
        }
    }
    let ghost acc3 = out@;
    let ghost e4 = m4@;
    proof {
        lemma_mm_append(acc3, e4, best);
    }
    out.append(&mut m4);

    let actual_query: &Vec<(String, String)> = match &req.query_params {
        Some(q) => q,
        None => &empty_pairs,
    };
    proof {
        assert(actual_query.deep_view() == req_query(req@));
    }
    let mut m5 = match &rr.query_param {
        Some(qs) => query_mismatches(actual_query, qs, best),
        None => Vec::new(),
    };
    proof {
        assert(mm_models(m5@) == query_pair_entries(req_query(req@), opt_seq(rr@.query_param)))
            by {
            if rr@.query_param is None {
                assert(mm_models(m5@) =~= Seq::<FacetEntry>::empty());
                assert(query_pair_entries(req_query(req@), Seq::empty())
                    =~= Seq::<FacetEntry>::empty());
            }
        }
    }
    let ghost acc4 = out@;
    let ghost e5 = m5@;
    proof {
        lemma_mm_append(acc4, e5, best);
    }
    out.append(&mut m5);

    proof {
        assert(mm_models(out@) =~= head_entries(req@, rr@));
    }
    out
}

/// Mismatches of the header, cookie and body facets.
#[verifier::rlimit(100)]
#[verifier::spinoff_prover]
fn mismatches_tail(req: &HttpMockRequest, rr: &RequestRequirements, best: bool) -> (r: Vec<
    Mismatch,
>)
    ensures
        mm_models(r@) == tail_entries(req@, rr@),
        all_best(r@, best),
{
    let empty_string = String::new();
    let empty_pairs: Vec<(String, String)> = Vec::new();
    proof {
        assert(empty_pairs.deep_view() =~= Seq::<(Seq<char>, Seq<char>)>::empty());
        assert(req@.body == req.body.deep_view());
        assert(req@.headers == req.headers.deep_view());
        assert(rr@.headers == rr.headers.deep_view());
        assert(rr@.cookies == rr.cookies.deep_view());
        assert(rr@.body == rr.body.deep_view());
        assert(rr@.body_contains == rr.body_contains.deep_view());
        assert(rr@.body_matches == rr.body_matches.deep_view());
    }
    let mut out: Vec<Mismatch> = Vec::new();
    proof {
        assert(mm_models(out@) =~= Seq::<FacetEntry>::empty());
    }
    let actual_headers: &Vec<(String, String)> = match &req.headers {
        Some(h) => h,
        None => &empty_pairs,
    };
    proof {
        assert(actual_headers.deep_view() == req_headers(req@));
    }
    let mut m6 = match &rr.headers {
        Some(hs) => header_mismatches(actual_headers, hs, best),
        None => Vec::new(),
    };
    proof {
        assert(mm_models(m6@) == header_pair_entries(req_headers(req@), opt_seq(rr@.headers)))
            by {
            if rr@.headers is None {
                assert(mm_models(m6@) =~= Seq::<FacetEntry>::empty());
                assert(header_pair_entries(req_headers(req@), Seq::empty())
                    =~= Seq::<FacetEntry>::empty());
            }
        }
    }
    let ghost acc5 = out@;
    let ghost e6 = m6@;
    proof {
        lemma_mm_append(acc5, e6, best);
    }
    out.append(&mut m6);

    let mut m7: Vec<Mismatch> = match &rr.cookies {
        None => Vec::new(),
        Some(cs) => match parse_cookies(req) {
            Err(e) => {
                let mut v: Vec<Mismatch> = Vec::new();
                let m = Mismatch {
                    title: "Cookie".to_owned(),
                    message: Some(e),
                    reason: Some(
                        SimpleDiffResult {
                            expected: String::new(),
                            actual: String::new(),
                            operation_name: "cookie header parses".to_owned(),
                            best_match: best,
                        },
                    ),
                    detailed_diff: None,
                    score: 100,
                };
                v.push(m);
                proof {
                    assert(mm_models(v@) =~= seq![("Cookie"@, 100nat)]);
                }
                v
            },
            Ok(parsed) => cookie_pair_mismatches(&parsed, cs, best),
        },
    };
    proof {
        assert(mm_models(m7@) == cookie_entries(req@, rr@)) by {
            if rr@.cookies is None {
                assert(mm_models(m7@) =~= Seq::<FacetEntry>::empty());
            }
        }
    }
    let ghost acc6 = out@;
    let ghost e7 = m7@;
    proof {
        lemma_mm_append(acc6, e7, best);
    }
    out.append(&mut m7);

    let actual_body: &String = match &req.body {
        Some(b) => b,
        None => &empty_string,
    };
    proof {
        assert(actual_body@ == req_body(req@));
    }
    let mut m8 = eq_mismatches("Body", "equals", &rr.body, actual_body, best);
    let ghost acc7 = out@;
    let ghost e8 = m8@;
    proof {
        lemma_mm_append(acc7, e8, best);
    }
    out.append(&mut m8);

    let mut m9 = match &rr.body_contains {
        Some(cs) => contains_mismatches("Body contains", actual_body, cs, best),
        None => Vec::new(),
    };
    proof {
        assert(mm_models(m9@) == contains_entries(
            "Body contains"@,
            req_body(req@),
            opt_seq(rr@.body_contains),
        )) by {
            if rr@.body_contains is None {
                assert(mm_models(m9@) =~= Seq::<FacetEntry>::empty());
                assert(contains_entries("Body contains"@, req_body(req@), Seq::empty())
                    =~= Seq::<FacetEntry>::empty());
            }
        }
    }
    let ghost acc8 = out@;
    let ghost e9 = m9@;
    proof {
        lemma_mm_append(acc8, e9, best);
    }
    out.append(&mut m9);

    let mut m10 = match &rr.body_matches {
        Some(ps) => regex_mismatches("Body matches", actual_body, ps, best),
        None => Vec::new(),
    };
    proof {
        assert(mm_models(m10@) == regex_entries(
            "Body matches"@,
            req_body(req@),
            opt_seq(rr@.body_matches),
        )) by {
            if rr@.body_matches is None {
                assert(mm_models(m10@) =~= Seq::<FacetEntry>::empty());
                assert(regex_entries("Body matches"@, req_body(req@), Seq::empty())
                    =~= Seq::<FacetEntry>::empty());
            }
        }
    }
    let ghost e10 = mm_models(m10@);
    let ghost acc9 = mm_models(out@);
    out.append(&mut m10);
    proof {
        assert(mm_models(out@) =~= tail_entries(req@, rr@));
    }
    out
}

/// All mismatches of one mock against one request, in matcher-declaration
/// order; each record's `best_match` flag is `best`.
pub fn mismatches_for(req: &HttpMockRequest, rr: &RequestRequirements, best: bool) -> (r: Vec<
    Mismatch,
>)
    ensures
        mm_models(r@) == all_entries(req@, rr@),
        all_best(r@, best),
{
    let mut out = mismatches_head(req, rr, best);
    let mut t = mismatches_tail(req, rr, best);
    let ghost a = out@;
    let ghost b = t@;
    proof {
        lemma_mm_append(a, b, best);
    }
    out.append(&mut t);
    out
}

/// The total distance score of a mismatch list: the sum of its scores.
pub fn score_of_mismatches(ms: &Vec<Mismatch>) -> (r: u128)
    ensures
        r == sum_entries(mm_models(ms@)),
{
    let ghost mv = mm_models(ms@);
    let mut total: u128 = 0;
    let mut i: usize = 0;
    proof {
        assert(mv.skip(0) =~= mv);
    }
    while i < ms.len()
        invariant
            0 <= i <= ms.len(),
            mv == mm_models(ms@),
            mv.len() == ms@.len(),
            total + sum_entries(mv.skip(i as int)) == sum_entries(mv),
            total as int <= i as int * (usize::MAX as int),
        decreases ms.len() - i,
    {
        proof {
            assert(mv[i as int] == (ms@[i as int].title@, ms@[i as int].score as nat));
            assert(mv.skip(i as int)[0] == mv[i as int]);
            assert(mv.skip(i as int).skip(1) =~= mv.skip(i + 1 as int));
            assert((i as int + 1) * (usize::MAX as int) == i as int * (usize::MAX as int) + (
            usize::MAX as int)) by (nonlinear_arith);
            assert(i as int * (usize::MAX as int) + (usize::MAX as int) <= (usize::MAX as int) * (
            usize::MAX as int) + (usize::MAX as int)) by (nonlinear_arith)
                requires
                    0 <= i as int <= usize::MAX as int,
            ;
            assert((usize::MAX as int) * (usize::MAX as int) + (usize::MAX as int)
                < 0x100000000000000000000000000000000) by (nonlinear_arith);
        }
        total = total + ms[i].score as u128;
        i = i + 1;
    }
    proof {
        assert(mv.skip(i as int) =~= Seq::<FacetEntry>::empty());
    }
    total
}

// ------------------------------------------------------------------
// Coherence: matching and the mismatch list agree
// ------------------------------------------------------------------

proof fn lemma_contains_entries_empty(title: Seq<char>, hay: Seq<char>, needles: Seq<Seq<char>>)
    ensures
        (contains_entries(title, hay, needles).len() == 0) <==> (forall|i: int|
            0 <= i < needles.len() ==> str_contains(hay, #[trigger] needles[i])),
    decreases needles.len(),
{
    if needles.len() > 0 {
        lemma_contains_entries_empty(title, hay, needles.skip(1));
        assert forall|i: int|
            0 <= i < needles.skip(1).len() implies needles.skip(1)[i] == needles[i + 1] by {}
        if forall|i: int| 0 <= i < needles.len() ==> str_contains(hay, #[trigger] needles[i]) {
            assert(str_contains(hay, needles[0]));
            assert forall|i: int| 0 <= i < needles.skip(1).len() implies str_contains(
                hay,
                #[trigger] needles.skip(1)[i],
            ) by {
                assert(needles.skip(1)[i] == needles[i + 1]);
            }
        }
        if contains_entries(title, hay, needles).len() == 0 {
            assert forall|i: int| 0 <= i < needles.len() implies str_contains(
                hay,
                #[trigger] needles[i],
            ) by {
                if i > 0 {
                    assert(needles.skip(1)[i - 1] == needles[i]);
                }
            }
        }
    }
}

proof fn lemma_regex_entries_empty(title: Seq<char>, text: Seq<char>, pats: Seq<Seq<char>>)
    ensures
        (regex_entries(title, text, pats).len() == 0) <==> (forall|i: int|
            0 <= i < pats.len() ==> regex_valid(#[trigger] pats[i]) && regex_match_of(
                pats[i],
                text,
            )),
    decreases pats.len(),
{
    if pats.len() > 0 {
        lemma_regex_entries_empty(title, text, pats.skip(1));
        if forall|i: int|
            0 <= i < pats.len() ==> regex_valid(#[trigger] pats[i]) && regex_match_of(
                pats[i],
                text,
            ) {
            assert(regex_valid(pats[0]) && regex_match_of(pats[0], text));
            assert forall|i: int| 0 <= i < pats.skip(1).len() implies regex_valid(
                #[trigger] pats.skip(1)[i],
            ) && regex_match_of(pats.skip(1)[i], text) by {
                assert(pats.skip(1)[i] == pats[i + 1]);
            }
        }
        if regex_entries(title, text, pats).len() == 0 {
            assert forall|i: int| 0 <= i < pats.len() implies regex_valid(#[trigger] pats[i])
                && regex_match_of(pats[i], text) by {
                if i > 0 {
                    assert(pats.skip(1)[i - 1] == pats[i]);
                }
            }
        }
    }
}

proof fn lemma_query_entries_empty(actual: PairsView, required: PairsView)
    ensures
        (query_pair_entries(actual, required).len() == 0) <==> (forall|i: int|
            0 <= i < required.len() ==> has_pair(actual, (#[trigger] required[i]).0,
            required[i].1)),
    decreases required.len(),
{
    if required.len() > 0 {
        lemma_query_entries_empty(actual, required.skip(1));
        if forall|i: int|
            0 <= i < required.len() ==> has_pair(actual, (#[trigger] required[i]).0,
            required[i].1) {
            assert(has_pair(actual, required[0].0, required[0].1));
            assert forall|i: int| 0 <= i < required.skip(1).len() implies has_pair(
                actual,
                (#[trigger] required.skip(1)[i]).0,
                required.skip(1)[i].1,
            ) by {
                assert(required.skip(1)[i] == required[i + 1]);
            }
        }
        if query_pair_entries(actual, required).len() == 0 {
            assert forall|i: int| 0 <= i < required.len() implies has_pair(
                actual,
                (#[trigger] required[i]).0,
                required[i].1,
            ) by {
                if i > 0 {
                    assert(required.skip(1)[i - 1] == required[i]);
                }
            }
        }
    }
}

proof fn lemma_header_entries_empty(actual: PairsView, required: PairsView)
    ensures
        (header_pair_entries(actual, required).len() == 0) <==> (forall|i: int|
            0 <= i < required.len() ==> has_pair_ci(actual, (#[trigger] required[i]).0,
            required[i].1)),
    decreases required.len(),
{
    if required.len() > 0 {
        lemma_header_entries_empty(actual, required.skip(1));
        if forall|i: int|
            0 <= i < required.len() ==> has_pair_ci(actual, (#[trigger] required[i]).0,
            required[i].1) {
            assert(has_pair_ci(actual, required[0].0, required[0].1));
            assert forall|i: int| 0 <= i < required.skip(1).len() implies has_pair_ci(
                actual,
                (#[trigger] required.skip(1)[i]).0,
                required.skip(1)[i].1,
            ) by {
                assert(required.skip(1)[i] == required[i + 1]);
            }
        }
        if header_pair_entries(actual, required).len() == 0 {
            assert forall|i: int| 0 <= i < required.len() implies has_pair_ci(
                actual,
                (#[trigger] required[i]).0,
                required[i].1,
            ) by {
                if i > 0 {
                    assert(required.skip(1)[i - 1] == required[i]);
                }
            }
        }
    }
}

proof fn lemma_cookie_entries_empty(parsed: PairsView, required: PairsView)
    ensures
        (cookie_pair_entries(parsed, required).len() == 0) <==> (forall|i: int|
            0 <= i < required.len() ==> has_pair_lowered(parsed, (#[trigger] required[i]).0,
            required[i].1)),
    decreases required.len(),
{
    if required.len() > 0 {
        lemma_cookie_entries_empty(parsed, required.skip(1));
        if forall|i: int|
            0 <= i < required.len() ==> has_pair_lowered(parsed, (#[trigger] required[i]).0,
            required[i].1) {
            assert(has_pair_lowered(parsed, required[0].0, required[0].1));
            assert forall|i: int| 0 <= i < required.skip(1).len() implies has_pair_lowered(
                parsed,
                (#[trigger] required.skip(1)[i]).0,
                required.skip(1)[i].1,
            ) by {
                assert(required.skip(1)[i] == required[i + 1]);
            }
        }
        if cookie_pair_entries(parsed, required).len() == 0 {
            assert forall|i: int| 0 <= i < required.len() implies has_pair_lowered(
                parsed,
                (#[trigger] required[i]).0,
                required[i].1,
            ) by {
                if i > 0 {
                    assert(required.skip(1)[i - 1] == required[i]);
                }
            }
        }
    }
}

/// Coherence of matching and the mismatch list: a request matches a mock exactly
/// when the mock yields no mismatch entry against it, so the total score
/// of a matching mock is 0.
pub proof fn lemma_matches_iff_no_mismatches(req: ReqView, rr: ReqsView)
    ensures
        spec_matches(req, rr) <==> all_entries(req, rr).len() == 0,
        spec_matches(req, rr) ==> total_score(req, rr) == 0,
{
    lemma_contains_entries_empty("Path contains"@, req.path, opt_seq(rr.path_contains));
    lemma_regex_entries_empty("Path matches"@, req.path, opt_seq(rr.path_matches));
    lemma_query_entries_empty(req_query(req), opt_seq(rr.query_param));
    lemma_header_entries_empty(req_headers(req), opt_seq(rr.headers));
    lemma_contains_entries_empty("Body contains"@, req_body(req), opt_seq(rr.body_contains));
    lemma_regex_entries_empty("Body matches"@, req_body(req), opt_seq(rr.body_matches));
    match rr.cookies {
        None => {},
        Some(cs) => {
            match spec_cookies(req) {
                None => {},
                Some(parsed) => {
                    lemma_cookie_entries_empty(parsed, cs);
                },
            }
        },
    }
    if all_entries(req, rr).len() == 0 {
        assert(sum_entries(all_entries(req, rr)) == 0);
    }
}

} // verus!\n} // verus!
