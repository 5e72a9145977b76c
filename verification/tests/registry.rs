use httpmock_core::data::{HttpMockRequest, Method, MockDefinition, MockResponse, RequestRequirements};
use httpmock_core::state::{MockServerState, Rejection};

fn plain_response() -> MockResponse {
    MockResponse { status: 200, headers: None, body: Some("ok".to_string()), delay_ms: None }
}

fn def_with(requirements: RequestRequirements) -> MockDefinition {
    MockDefinition { request: requirements, response: plain_response() }
}

fn get_request(path: &str) -> HttpMockRequest {
    HttpMockRequest {
        method: "GET".to_string(),
        path: path.to_string(),
        query_params: None,
        headers: None,
        body: None,
    }
}

#[test]
fn add_then_read_round_trip() {
    let mut state = MockServerState::new();
    let mut reqs = RequestRequirements::empty();
    reqs.method = Some("GET".to_string());
    reqs.path = Some("/a".to_string());
    let id = state.add_new_mock(def_with(reqs)).unwrap();
    assert_eq!(id, 1);
    let mock = state.read_one(id).unwrap();
    assert_eq!(mock.id, 1);
    assert_eq!(mock.call_counter, 0);
    assert_eq!(mock.definition.request.method, Some("GET".to_string()));
    assert_eq!(mock.definition.request.path, Some("/a".to_string()));
    assert_eq!(mock.definition.response.status, 200);
    assert_eq!(mock.definition.response.body, Some("ok".to_string()));
}

#[test]
fn ids_strictly_increase_across_operations() {
    let mut state = MockServerState::new();
    let id1 = state.add_new_mock(def_with(RequestRequirements::empty())).unwrap();
    let id2 = state.add_new_mock(def_with(RequestRequirements::empty())).unwrap();
    assert!(state.delete_one(id1));
    let id3 = state.add_new_mock(def_with(RequestRequirements::empty())).unwrap();
    state.delete_all();
    let id4 = state.add_new_mock(def_with(RequestRequirements::empty())).unwrap();
    assert_eq!((id1, id2, id3, id4), (1, 2, 3, 4));
}

#[test]
fn delete_all_is_idempotent() {
    let mut state = MockServerState::new();
    state.add_new_mock(def_with(RequestRequirements::empty())).unwrap();
    state.add_new_mock(def_with(RequestRequirements::empty())).unwrap();
    state.delete_all();
    assert!(state.read_one(1).is_none());
    assert!(state.read_one(2).is_none());
    state.delete_all();
    assert!(state.read_one(1).is_none());
    let id = state.add_new_mock(def_with(RequestRequirements::empty())).unwrap();
    assert_eq!(id, 3);
}

#[test]
fn no_match_after_delete() {
    let mut state = MockServerState::new();
    let mut reqs = RequestRequirements::empty();
    reqs.path = Some("/x".to_string());
    let id = state.add_new_mock(def_with(reqs)).unwrap();
    assert!(state.delete_one(id));
    match state.find_for(&get_request("/x")) {
        Ok(m) => panic!("unexpected winner {}", m.id),
        Err(rej) => {
            assert_eq!(rej.best_match_id, None);
            assert!(rej.mismatches.is_empty());
            assert!(rej.scores.is_empty());
        }
    }
}

#[test]
fn counter_counts_successful_finds() {
    let mut state = MockServerState::new();
    let mut ra = RequestRequirements::empty();
    ra.path = Some("/a".to_string());
    let mut rb = RequestRequirements::empty();
    rb.path = Some("/b".to_string());
    let ida = state.add_new_mock(def_with(ra)).unwrap();
    let idb = state.add_new_mock(def_with(rb)).unwrap();
    for _ in 0..3 {
        let winner = state.find_for(&get_request("/a")).unwrap();
        assert_eq!(winner.id, ida);
    }
    let winner_b = state.find_for(&get_request("/b")).unwrap();
    assert_eq!(winner_b.id, idb);
    assert_eq!(state.read_one(ida).unwrap().call_counter, 3);
    assert_eq!(state.read_one(idb).unwrap().call_counter, 1);
}

#[test]
fn exact_method_and_path_scenario() {
    let mut state = MockServerState::new();
    let mut reqs = RequestRequirements::empty();
    reqs.method = Some("GET".to_string());
    reqs.path = Some("/a".to_string());
    let id = state.add_new_mock(def_with(reqs)).unwrap();
    assert_eq!(id, 1);

    let winner = state.find_for(&get_request("/a")).unwrap();
    assert_eq!(winner.id, 1);
    assert_eq!(winner.call_counter, 1);

    let mut post = get_request("/a");
    post.method = "POST".to_string();
    let rej: Rejection = state.find_for(&post).unwrap_err();
    assert_eq!(rej.best_match_id, Some(1));
    assert_eq!(rej.mismatches.len(), 1);
    let mm = &rej.mismatches[0];
    assert_eq!(mm.title, "Method");
    assert!(mm.score > 0);
    let reason = mm.reason.as_ref().unwrap();
    assert_eq!(reason.expected, "GET");
    assert_eq!(reason.actual, "POST");
    assert!(reason.best_match);
    // the counter was not bumped by the miss
    assert_eq!(state.read_one(1).unwrap().call_counter, 1);
}

#[test]
fn first_registered_mock_wins() {
    let mut state = MockServerState::new();
    let mut r1 = RequestRequirements::empty();
    r1.path = Some("/x".to_string());
    let mut r2 = RequestRequirements::empty();
    r2.path = Some("/x".to_string());
    let id1 = state.add_new_mock(def_with(r1)).unwrap();
    let id2 = state.add_new_mock(def_with(r2)).unwrap();
    let winner = state.find_for(&get_request("/x")).unwrap();
    assert_eq!(winner.id, id1);
    assert_eq!(state.read_one(id1).unwrap().call_counter, 1);
    assert_eq!(state.read_one(id2).unwrap().call_counter, 0);
}

#[test]
fn cookie_names_match_case_insensitively() {
    let mut state = MockServerState::new();
    let mut reqs = RequestRequirements::empty();
    reqs.cookies = Some(vec![("Session".to_string(), "abc".to_string())]);
    state.add_new_mock(def_with(reqs)).unwrap();
    let mut req = get_request("/");
    req.headers = Some(vec![("cookie".to_string(), "SESSION=abc".to_string())]);
    let winner = state.find_for(&req).unwrap();
    assert_eq!(winner.id, 1);

    let mut wrong = get_request("/");
    wrong.headers = Some(vec![("Cookie".to_string(), "SESSION=zzz".to_string())]);
    let rej = state.find_for(&wrong).unwrap_err();
    assert_eq!(rej.best_match_id, Some(1));
    assert_eq!(rej.mismatches[0].title, "Cookie");
}

#[test]
fn substring_and_regex_body_scenario() {
    let mut state = MockServerState::new();
    let mut reqs = RequestRequirements::empty();
    reqs.body_contains = Some(vec!["foo".to_string()]);
    reqs.body_matches = Some(vec!["^h.*o$".to_string()]);
    state.add_new_mock(def_with(reqs)).unwrap();

    let mut hit = get_request("/");
    hit.body = Some("hello foo".to_string());
    let winner = state.find_for(&hit).unwrap();
    assert_eq!(winner.id, 1);

    let mut miss = get_request("/");
    miss.body = Some("hello".to_string());
    let rej = state.find_for(&miss).unwrap_err();
    assert_eq!(rej.best_match_id, Some(1));
    // only the substring facet fails: the regex still matches "hello"
    assert_eq!(rej.mismatches.len(), 1);
    assert_eq!(rej.mismatches[0].title, "Body contains");
    assert_eq!(rej.mismatches[0].score, 100);
    // the closest-match distance between the two strings themselves
    assert_eq!(httpmock_core::matchers::diff_str_new("foo", "hello"), 4);
}

#[test]
fn closest_mock_has_minimum_score() {
    let mut state = MockServerState::new();
    // two failing facets => total 200
    let mut far = RequestRequirements::empty();
    far.method = Some("POST".to_string());
    far.path = Some("/far".to_string());
    // one failing facet => total 100
    let mut near = RequestRequirements::empty();
    near.path = Some("/near".to_string());
    let id_far = state.add_new_mock(def_with(far)).unwrap();
    let id_near = state.add_new_mock(def_with(near)).unwrap();
    let rej = state.find_for(&get_request("/a")).unwrap_err();
    assert_eq!(rej.best_match_id, Some(id_near));
    assert_eq!(rej.scores.len(), 2);
    assert_eq!(rej.scores[0], (id_far, 200));
    assert_eq!(rej.scores[1], (id_near, 100));
}

#[test]
fn empty_requirements_match_any_request() {
    let mut state = MockServerState::new();
    state.add_new_mock(def_with(RequestRequirements::empty())).unwrap();
    let mut req = get_request("/whatever");
    req.method = "PATCH".to_string();
    req.body = Some("anything".to_string());
    let winner = state.find_for(&req).unwrap();
    assert_eq!(winner.id, 1);
}

#[test]
fn invalid_regex_is_rejected_without_storing() {
    let mut state = MockServerState::new();
    let mut reqs = RequestRequirements::empty();
    reqs.path_matches = Some(vec!["(".to_string()]);
    assert!(state.add_new_mock(def_with(reqs)).is_err());
    assert!(state.read_one(1).is_none());
    // the failed add consumed no id
    let id = state.add_new_mock(def_with(RequestRequirements::empty())).unwrap();
    assert_eq!(id, 1);
}

#[test]
fn missing_id_reads_and_deletes() {
    let mut state = MockServerState::new();
    assert!(state.read_one(7).is_none());
    assert!(!state.delete_one(7));
    state.add_new_mock(def_with(RequestRequirements::empty())).unwrap();
    assert!(state.read_one(1).is_some());
    assert!(state.delete_one(1));
    assert!(!state.delete_one(1));
}

#[test]
fn method_names_render_uppercase() {
    assert_eq!(Method::GET.name(), "GET");
    assert_eq!(Method::DELETE.name(), "DELETE");
    assert_eq!(Method::PATCH.name(), "PATCH");
}

#[test]
fn hundred_mocks_each_find_their_own() {
    let mut state = MockServerState::new();
    let mut ids = Vec::new();
    for i in 0..100usize {
        let mut reqs = RequestRequirements::empty();
        reqs.path = Some(format!("/m{}", i));
        let id = state.add_new_mock(def_with(reqs)).unwrap();
        assert!(!ids.contains(&id));
        ids.push(id);
    }
    for i in 0..100usize {
        let winner = state.find_for(&get_request(&format!("/m{}", i))).unwrap();
        assert_eq!(winner.id, ids[i]);
    }
    let mut total = 0usize;
    for id in &ids {
        total += state.read_one(*id).unwrap().call_counter;
    }
    assert_eq!(total, 100);
}
