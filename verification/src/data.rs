//! The request model: a normalized inbound HTTP request, a mock's
//! expectations, and the stored mock records.
//!
//! Each executable type has a mathematical view (`@` / `deep_view`) over
//! which every contract in this crate is stated.

use vstd::prelude::*;

verus! {

/// An HTTP method.
#[derive(Debug, Clone, Copy, PartialEq, Eq, Structural)]
pub enum Method {
    GET,
    HEAD,
    POST,
    PUT,
    DELETE,
    CONNECT,
    OPTIONS,
    TRACE,
    PATCH,
}

impl Method {
    /// The method's canonical upper-case spelling.
    pub open spec fn spec_name(self) -> Seq<char> {
        match self {
            Method::GET => "GET"@,
            Method::HEAD => "HEAD"@,
            Method::POST => "POST"@,
            Method::PUT => "PUT"@,
            Method::DELETE => "DELETE"@,
            Method::CONNECT => "CONNECT"@,
            Method::OPTIONS => "OPTIONS"@,
            Method::TRACE => "TRACE"@,
            Method::PATCH => "PATCH"@,
        }
    }

    /// The method as a string, e.g. `"GET"`.
    pub fn name(&self) -> (r: String)
        ensures
            r@ == self.spec_name(),
    {
        match self {
            Method::GET => "GET".to_owned(),
            Method::HEAD => "HEAD".to_owned(),
            Method::POST => "POST".to_owned(),
            Method::PUT => "PUT".to_owned(),
            Method::DELETE => "DELETE".to_owned(),
            Method::CONNECT => "CONNECT".to_owned(),
            Method::OPTIONS => "OPTIONS".to_owned(),
            Method::TRACE => "TRACE".to_owned(),
            Method::PATCH => "PATCH".to_owned(),
        }
    }
}

/// Mathematical view of a name/value pair list.
pub type PairsView = Seq<(Seq<char>, Seq<char>)>;

/// A normalized inbound HTTP request.
///
/// Query pairs and headers keep their order of appearance; header names are
/// matched case-insensitively but preserved as sent.
#[derive(Debug)]
pub struct HttpMockRequest {
    pub method: String,
    pub path: String,
    pub query_params: Option<Vec<(String, String)>>,
    pub headers: Option<Vec<(String, String)>>,
    pub body: Option<String>,
}

/// Mathematical view of [`HttpMockRequest`].
#[verifier::ext_equal]
pub struct ReqView {
    pub method: Seq<char>,
    pub path: Seq<char>,
    pub query_params: Option<PairsView>,
    pub headers: Option<PairsView>,
    pub body: Option<Seq<char>>,
}

impl View for HttpMockRequest {
    type V = ReqView;

    open spec fn view(&self) -> ReqView {
        ReqView {
            method: self.method@,
            path: self.path@,
            query_params: self.query_params.deep_view(),
            headers: self.headers.deep_view(),
            body: self.body.deep_view(),
        }
    }
}

/// A mock's expectations. Every field is optional; an absent field means
/// "don't care". Regex facets hold the pattern source text.
#[derive(Debug)]
pub struct RequestRequirements {
    pub method: Option<String>,
    pub path: Option<String>,
    pub path_contains: Option<Vec<String>>,
    pub path_matches: Option<Vec<String>>,
    pub query_param: Option<Vec<(String, String)>>,
    pub headers: Option<Vec<(String, String)>>,
    pub cookies: Option<Vec<(String, String)>>,
    pub body: Option<String>,
    pub body_contains: Option<Vec<String>>,
    pub body_matches: Option<Vec<String>>,
}

/// Mathematical view of [`RequestRequirements`].
#[verifier::ext_equal]
pub struct ReqsView {
    pub method: Option<Seq<char>>,
    pub path: Option<Seq<char>>,
    pub path_contains: Option<Seq<Seq<char>>>,
    pub path_matches: Option<Seq<Seq<char>>>,
    pub query_param: Option<PairsView>,
    pub headers: Option<PairsView>,
    pub cookies: Option<PairsView>,
    pub body: Option<Seq<char>>,
    pub body_contains: Option<Seq<Seq<char>>>,
    pub body_matches: Option<Seq<Seq<char>>>,
}

impl View for RequestRequirements {
    type V = ReqsView;

    open spec fn view(&self) -> ReqsView {
        ReqsView {
            method: self.method.deep_view(),
            path: self.path.deep_view(),
            path_contains: self.path_contains.deep_view(),
            path_matches: self.path_matches.deep_view(),
            query_param: self.query_param.deep_view(),
            headers: self.headers.deep_view(),
            cookies: self.cookies.deep_view(),
            body: self.body.deep_view(),
            body_contains: self.body_contains.deep_view(),
            body_matches: self.body_matches.deep_view(),
        }
    }
}

/// The canned response a mock serves, with an optional pre-response delay in
/// milliseconds (applied by the HTTP front-end, not by the engine).
#[derive(Debug)]
pub struct MockResponse {
    pub status: u16,
    pub headers: Option<Vec<(String, String)>>,
    pub body: Option<String>,
    pub delay_ms: Option<u64>,
}

/// Mathematical view of [`MockResponse`].
#[verifier::ext_equal]
pub struct RespView {
    pub status: u16,
    pub headers: Option<PairsView>,
    pub body: Option<Seq<char>>,
    pub delay_ms: Option<u64>,
}

impl View for MockResponse {
    type V = RespView;

    open spec fn view(&self) -> RespView {
        RespView {
            status: self.status,
            headers: self.headers.deep_view(),
            body: self.body.deep_view(),
            delay_ms: self.delay_ms,
        }
    }
}

/// A mock definition: the expected request shape plus the response to serve.
#[derive(Debug)]
pub struct MockDefinition {
    pub request: RequestRequirements,
    pub response: MockResponse,
}

/// Mathematical view of [`MockDefinition`].
#[verifier::ext_equal]
pub struct DefView {
    pub request: ReqsView,
    pub response: RespView,
}

impl View for MockDefinition {
    type V = DefView;

    open spec fn view(&self) -> DefView {
        DefView { request: self.request@, response: self.response@ }
    }
}

/// The id the registry assigned to a newly created mock.
#[derive(Debug, PartialEq, Eq, Structural)]
pub struct MockIdentification {
    pub mock_id: usize,
}

impl MockIdentification {
    pub fn new(mock_id: usize) -> (r: MockIdentification)
        ensures
            r.mock_id == mock_id,
    {
        MockIdentification { mock_id }
    }
}

/// A stored mock: its id, its definition, and how many requests it has served.
#[derive(Debug)]
pub struct ActiveMock {
    pub id: usize,
    pub call_counter: usize,
    pub definition: MockDefinition,
}

/// Mathematical view of [`ActiveMock`].
#[verifier::ext_equal]
pub struct MockView {
    pub id: int,
    pub call_counter: nat,
    pub definition: DefView,
}

impl View for ActiveMock {
    type V = MockView;

    open spec fn view(&self) -> MockView {
        MockView {
            id: self.id as int,
            call_counter: self.call_counter as nat,
            definition: self.definition@,
        }
    }
}

/// Copies a vector of strings, preserving each element's value.
pub fn copy_strings(v: &Vec<String>) -> (r: Vec<String>)
    ensures
        r.deep_view() == v.deep_view(),
{
    let mut r: Vec<String> = Vec::new();
    let mut i: usize = 0;
    while i < v.len()
        invariant
            0 <= i <= v.len(),
            r@.len() == i,
            forall|j: int| 0 <= j < i ==> r@[j]@ == v@[j]@,
        decreases v.len() - i,
    {
        r.push(v[i].clone());
        i = i + 1;
    }
    assert(r.deep_view() =~~= v.deep_view());
    r
}

/// Copies a vector of string pairs, preserving each element's value.
pub fn copy_pairs(v: &Vec<(String, String)>) -> (r: Vec<(String, String)>)
    ensures
        r.deep_view() == v.deep_view(),
{
    let mut r: Vec<(String, String)> = Vec::new();
    let mut i: usize = 0;
    while i < v.len()
        invariant
            0 <= i <= v.len(),
            r@.len() == i,
            forall|j: int| 0 <= j < i ==> r@[j].0@ == v@[j].0@ && r@[j].1@ == v@[j].1@,
        decreases v.len() - i,
    {
        let (a, b) = &v[i];
        r.push((a.clone(), b.clone()));
        i = i + 1;
    }
    assert(r.deep_view() =~~= v.deep_view());
    r
}

/// Copies an optional string, preserving its value.
pub fn copy_opt_string(v: &Option<String>) -> (r: Option<String>)
    ensures
        r.deep_view() == v.deep_view(),
{
    match v {
        Option::Some(s) => Option::Some(s.clone()),
        Option::None => Option::None,
    }
}

/// Copies an optional vector of strings, preserving its value.
pub fn copy_opt_strings(v: &Option<Vec<String>>) -> (r: Option<Vec<String>>)
    ensures
        r.deep_view() == v.deep_view(),
{
    match v {
        Option::Some(s) => Option::Some(copy_strings(s)),
        Option::None => Option::None,
    }
}

/// Copies an optional vector of string pairs, preserving its value.
pub fn copy_opt_pairs(v: &Option<Vec<(String, String)>>) -> (r: Option<Vec<(String, String)>>)
    ensures
        r.deep_view() == v.deep_view(),
{
    match v {
        Option::Some(s) => Option::Some(copy_pairs(s)),
        Option::None => Option::None,
    }
}

impl RequestRequirements {
    /// Requirements with every facet left unset: matches every request.
    pub fn empty() -> (r: RequestRequirements)
        ensures
            r@.method is None,
            r@.path is None,
            r@.path_contains is None,
            r@.path_matches is None,
            r@.query_param is None,
            r@.headers is None,
            r@.cookies is None,
            r@.body is None,
            r@.body_contains is None,
            r@.body_matches is None,
    {
        RequestRequirements {
            method: Option::None,
            path: Option::None,
            path_contains: Option::None,
            path_matches: Option::None,
            query_param: Option::None,
            headers: Option::None,
            cookies: Option::None,
            body: Option::None,
            body_contains: Option::None,
            body_matches: Option::None,
        }
    }

    /// A value-preserving copy.
    pub fn duplicate(&self) -> (r: RequestRequirements)
        ensures
            r@ == self@,
    {
        let r = RequestRequirements {
            method: copy_opt_string(&self.method),
            path: copy_opt_string(&self.path),
            path_contains: copy_opt_strings(&self.path_contains),
            path_matches: copy_opt_strings(&self.path_matches),
            query_param: copy_opt_pairs(&self.query_param),
            headers: copy_opt_pairs(&self.headers),
            cookies: copy_opt_pairs(&self.cookies),
            body: copy_opt_string(&self.body),
            body_contains: copy_opt_strings(&self.body_contains),
            body_matches: copy_opt_strings(&self.body_matches),
        };
        assert(r@ =~= self@);
        r
    }
}

impl MockResponse {
    /// A value-preserving copy.
    pub fn duplicate(&self) -> (r: MockResponse)
        ensures
            r@ == self@,
    {
        let r = MockResponse {
            status: self.status,
            headers: copy_opt_pairs(&self.headers),
            body: copy_opt_string(&self.body),
            delay_ms: self.delay_ms,
        };
        assert(r@ =~= self@);
        r
    }
}

impl MockDefinition {
    /// A value-preserving copy.
    pub fn duplicate(&self) -> (r: MockDefinition)
        ensures
            r@ == self@,
    {
        let r = MockDefinition {
            request: self.request.duplicate(),
            response: self.response.duplicate(),
        };
        assert(r@ =~= self@);
        r
    }
}

impl ActiveMock {
    /// A value-preserving copy.
    pub fn duplicate(&self) -> (r: ActiveMock)
        ensures
            r@ == self@,
    {
        let r = ActiveMock {
            id: self.id,
            call_counter: self.call_counter,
            definition: self.definition.duplicate(),
        };
        assert(r@ =~= self@);
        r
    }
}

} // verus!
