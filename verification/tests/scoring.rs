use httpmock_core::adapter::{LocalMockServerAdapter, RemoteMockServerAdapter};
use httpmock_core::data::{HttpMockRequest, MockDefinition, MockResponse, RequestRequirements};
use httpmock_core::matchers::{
    diff_str, diff_str_new, distance_for, distance_for_opt, distance_for_vec, parse_cookies, Diff,
    Tokenizer,
};
use httpmock_core::state::MockServerState;

#[test]
fn distance_formula_cases() {
    // both sides empty: 0 by convention
    assert_eq!(distance_for("", ""), 0);
    // exact non-empty match: 100 - (L - 0)/L = 99
    assert_eq!(distance_for("a", "a"), 99);
    assert_eq!(distance_for("hello", "hello"), 99);
    // any difference: 100 - 0 = 100
    assert_eq!(distance_for("a", "b"), 100);
    assert_eq!(distance_for("foo", "hello"), 100);
    assert_eq!(distance_for("", "x"), 100);
}

#[test]
fn distance_for_vec_sums_over_actuals() {
    let actual = vec!["foo".to_string(), "hello".to_string()];
    // 99 (exact) + 100 (different)
    assert_eq!(distance_for_vec("foo", &actual), 199);
    let empty: Vec<String> = Vec::new();
    assert_eq!(distance_for_vec("foo", &empty), 0);
}

#[test]
fn distance_for_opt_treats_absent_as_empty() {
    assert_eq!(distance_for_opt(None, None), 0);
    let s = "abc".to_string();
    assert_eq!(distance_for_opt(Some(&s), None), 100);
    assert_eq!(distance_for_opt(None, Some(&s)), 100);
    assert_eq!(distance_for_opt(Some(&s), Some(&s)), 99);
}

#[test]
fn levenshtein_distances() {
    assert_eq!(diff_str_new("kitten", "sitting"), 3);
    assert_eq!(diff_str_new("foo", "hello"), 4);
    assert_eq!(diff_str_new("same", "same"), 0);
    assert_eq!(diff_str_new("", "abc"), 3);
}

#[test]
fn diff_str_produces_edit_script() {
    let d = diff_str("test", "tent", Tokenizer::Character);
    assert_eq!(d.tokenizer, Tokenizer::Character);
    assert_eq!(
        d.differences,
        vec![
            Diff::Same("te".to_string()),
            Diff::Rem("s".to_string()),
            Diff::Add("n".to_string()),
            Diff::Same("t".to_string()),
        ]
    );
    assert!(d.distance > 0);
    let same = diff_str("abc", "abc", Tokenizer::Word);
    assert_eq!(same.distance, 0);
    assert_eq!(same.differences, vec![Diff::Same("abc".to_string())]);
}

fn request_with_headers(headers: Vec<(String, String)>) -> HttpMockRequest {
    HttpMockRequest {
        method: "GET".to_string(),
        path: "/".to_string(),
        query_params: None,
        headers: Some(headers),
        body: None,
    }
}

#[test]
fn parse_cookies_lowercases_names() {
    let req = request_with_headers(vec![(
        "Cookie".to_string(),
        "SessionId=abc123; OTHER=x".to_string(),
    )]);
    let cookies = parse_cookies(&req).unwrap();
    assert_eq!(
        cookies,
        vec![
            ("sessionid".to_string(), "abc123".to_string()),
            ("other".to_string(), "x".to_string()),
        ]
    );
}

#[test]
fn parse_cookies_without_header_is_empty() {
    let req = HttpMockRequest {
        method: "GET".to_string(),
        path: "/".to_string(),
        query_params: None,
        headers: None,
        body: None,
    };
    assert_eq!(parse_cookies(&req).unwrap(), Vec::new());
    let other = request_with_headers(vec![("Accept".to_string(), "text/plain".to_string())]);
    assert_eq!(parse_cookies(&other).unwrap(), Vec::new());
}

#[test]
fn query_and_header_matching() {
    let mut state = MockServerState::new();
    let mut reqs = RequestRequirements::empty();
    reqs.query_param = Some(vec![("k".to_string(), "v".to_string())]);
    reqs.headers = Some(vec![("Content-Type".to_string(), "text/plain".to_string())]);
    state
        .add_new_mock(MockDefinition {
            request: reqs,
            response: MockResponse { status: 200, headers: None, body: None, delay_ms: None },
        })
        .unwrap();

    let req = HttpMockRequest {
        method: "GET".to_string(),
        path: "/".to_string(),
        query_params: Some(vec![
            ("other".to_string(), "1".to_string()),
            ("k".to_string(), "v".to_string()),
        ]),
        headers: Some(vec![("CONTENT-TYPE".to_string(), "text/plain".to_string())]),
        body: None,
    };
    let winner = state.find_for(&req).unwrap();
    assert_eq!(winner.id, 1);

    // query names are case-sensitive: K=v is not k=v
    let wrong = HttpMockRequest {
        method: "GET".to_string(),
        path: "/".to_string(),
        query_params: Some(vec![("K".to_string(), "v".to_string())]),
        headers: Some(vec![("content-type".to_string(), "text/plain".to_string())]),
        body: None,
    };
    let rej = state.find_for(&wrong).unwrap_err();
    assert_eq!(rej.mismatches.len(), 1);
    assert_eq!(rej.mismatches[0].title, "Query parameter");
}

#[test]
fn local_adapter_round_trip() {
    let state = MockServerState::new();
    let mut adapter = LocalMockServerAdapter::new("127.0.0.1".to_string(), 5000, state);
    assert_eq!(adapter.server_port(), 5000);
    assert_eq!(adapter.server_host(), "127.0.0.1");
    assert_eq!(adapter.server_address(), "127.0.0.1:5000");

    let mut reqs = RequestRequirements::empty();
    reqs.path = Some("/p".to_string());
    let def = MockDefinition {
        request: reqs,
        response: MockResponse { status: 201, headers: None, body: None, delay_ms: Some(10) },
    };
    let ident = adapter.create_mock(&def).unwrap();
    assert_eq!(ident.mock_id, 1);
    let fetched = adapter.fetch_mock(ident.mock_id).unwrap();
    assert_eq!(fetched.definition.request.path, Some("/p".to_string()));
    assert_eq!(fetched.definition.response.status, 201);
    assert_eq!(fetched.definition.response.delay_ms, Some(10));
    adapter.delete_mock(ident.mock_id).unwrap();
    assert!(adapter.fetch_mock(ident.mock_id).is_err());
    assert!(adapter.delete_mock(ident.mock_id).is_err());
    adapter.delete_all_mocks().unwrap();
}

#[test]
fn remote_adapter_coordinates() {
    let adapter = RemoteMockServerAdapter::new("localhost".to_string(), 65535);
    assert_eq!(adapter.server_port(), 65535);
    assert_eq!(adapter.server_host(), "localhost");
    assert_eq!(adapter.server_address(), "localhost:65535");
    assert!(adapter.create_succeeded(201));
    assert!(!adapter.create_succeeded(500));
    assert!(adapter.fetch_succeeded(200));
    assert!(!adapter.fetch_succeeded(404));
    assert!(adapter.delete_succeeded(202));
    assert!(!adapter.delete_succeeded(404));
}

#[test]
fn path_facets_combine() {
    let mut state = MockServerState::new();
    let mut reqs = RequestRequirements::empty();
    reqs.path_contains = Some(vec!["api".to_string(), "users".to_string()]);
    reqs.path_matches = Some(vec!["^/api".to_string()]);
    state
        .add_new_mock(MockDefinition {
            request: reqs,
            response: MockResponse { status: 200, headers: None, body: None, delay_ms: None },
        })
        .unwrap();
    let mut hit = HttpMockRequest {
        method: "GET".to_string(),
        path: "/api/users/7".to_string(),
        query_params: None,
        headers: None,
        body: None,
    };
    assert_eq!(state.find_for(&hit).unwrap().id, 1);
    hit.path = "/v2/users".to_string();
    let rej = state.find_for(&hit).unwrap_err();
    // one missing substring and one failing regex
    assert_eq!(rej.mismatches.len(), 2);
    assert_eq!(rej.mismatches[0].title, "Path contains");
    assert_eq!(rej.mismatches[1].title, "Path matches");
}

#[test]
fn malformed_cookie_header_is_a_mismatch() {
    // a cookie header without any key=value shape does not parse
    let req = request_with_headers(vec![("Cookie".to_string(), ";".to_string())]);
    assert!(parse_cookies(&req).is_err());

    // a mock that requires cookies reports the facet as failed, with the
    // parser's message attached
    let mut state = MockServerState::new();
    let mut reqs = RequestRequirements::empty();
    reqs.cookies = Some(vec![("a".to_string(), "b".to_string())]);
    state
        .add_new_mock(MockDefinition {
            request: reqs,
            response: MockResponse { status: 200, headers: None, body: None, delay_ms: None },
        })
        .unwrap();
    let rej = state.find_for(&req).unwrap_err();
    assert_eq!(rej.best_match_id, Some(1));
    assert_eq!(rej.mismatches.len(), 1);
    assert_eq!(rej.mismatches[0].title, "Cookie");
    assert_eq!(rej.mismatches[0].score, 100);
    assert!(rej.mismatches[0].message.is_some());
}
