use webrust::gateway::{handle_request, PageKind, Reply};
use webrust::session::{create_input_request_typed, GuiState};

fn json_of(r: Reply) -> String {
    match r {
        Reply::Json(b) => b,
        _ => panic!("expected a JSON reply"),
    }
}

#[test]
fn gateway_state_before_any_output_is_empty() {
    let mut s = GuiState::new();
    let r = handle_request(&mut s, "GET", "/api/state", "", 5);
    assert_eq!(
        json_of(r),
        "{\"output\":[],\"pending_inputs\":[],\"program_finished\":false}"
    );
    assert_eq!(s.last_request_time, Some(5));
    assert!(s.has_received_requests);
}

#[test]
fn gateway_state_shows_the_pending_request() {
    let mut s = GuiState::new();
    let id = create_input_request_typed(&mut s, "age?", "integer");
    assert_eq!(id, "input_1");
    let r = handle_request(&mut s, "GET", "/api/state", "", 1);
    assert_eq!(
        json_of(r),
        "{\"output\":[\"INPUT_REQUEST:input_1:age?\"],\"pending_inputs\":[\"input_1\"],\"program_finished\":false}"
    );
}

#[test]
fn gateway_input_resolves_and_delivers() {
    let mut s = GuiState::new();
    create_input_request_typed(&mut s, "age?", "integer");
    let r = handle_request(
        &mut s,
        "POST",
        "/api/input",
        "{\"id\":\"input_1\",\"value\":\"30\"}",
        2,
    );
    match r {
        Reply::SubmitOk(Some((id, value))) => {
            assert_eq!(id, "input_1");
            assert_eq!(value, "30");
        },
        _ => panic!("expected an accepted submission"),
    }
    assert_eq!(s.output_buffer, vec!["INPUT_REQUEST:input_1:age?", "30"]);
    assert_eq!(s.pending_inputs.len(), 0);
}

#[test]
fn gateway_duplicate_submission_answers_ok_without_effect() {
    let mut s = GuiState::new();
    create_input_request_typed(&mut s, "age?", "integer");
    let body = "{\"id\":\"input_1\",\"value\":\"30\"}";
    handle_request(&mut s, "POST", "/api/input", body, 2);
    let before = s.output_buffer.clone();
    let r = handle_request(&mut s, "POST", "/api/input", body, 3);
    assert!(matches!(r, Reply::SubmitOk(None)));
    assert_eq!(s.output_buffer, before);
}

#[test]
fn gateway_malformed_submission_answers_ok_without_effect() {
    let mut s = GuiState::new();
    let r = handle_request(&mut s, "POST", "/api/input", "not json", 2);
    assert!(matches!(r, Reply::SubmitOk(None)));
    assert_eq!(s.output_buffer.len(), 0);
}

#[test]
fn gateway_validate_answers_the_result() {
    let mut s = GuiState::new();
    create_input_request_typed(&mut s, "age?", "integer");
    let bad = handle_request(
        &mut s,
        "POST",
        "/api/validate",
        "{\"id\":\"input_1\",\"value\":\"abc\"}",
        2,
    );
    assert_eq!(
        json_of(bad),
        "{\"valid\":false,\"error\":\"invalid digit found in string\"}"
    );
    let good = handle_request(
        &mut s,
        "POST",
        "/api/validate",
        "{\"id\":\"input_1\",\"value\":\"30\"}",
        3,
    );
    assert_eq!(json_of(good), "{\"valid\":true}");
    // the advisory endpoint must not resolve the request
    assert_eq!(s.pending_inputs.len(), 1);
}

#[test]
fn gateway_validate_unknown_id_is_invalid_request() {
    let mut s = GuiState::new();
    let r = handle_request(
        &mut s,
        "POST",
        "/api/validate",
        "{\"id\":\"input_9\",\"value\":\"30\"}",
        2,
    );
    assert_eq!(
        json_of(r),
        "{\"valid\":false,\"error\":\"Invalid request\"}"
    );
    let r2 = handle_request(&mut s, "POST", "/api/validate", "garbage", 3);
    assert_eq!(
        json_of(r2),
        "{\"valid\":false,\"error\":\"Invalid request\"}"
    );
}

#[test]
fn gateway_serves_the_static_routes() {
    let mut s = GuiState::new();
    assert!(matches!(
        handle_request(&mut s, "GET", "/", "", 1),
        Reply::Page(PageKind::Index)
    ));
    assert!(matches!(
        handle_request(&mut s, "GET", "/style.css", "", 2),
        Reply::Page(PageKind::Style)
    ));
    assert!(matches!(
        handle_request(&mut s, "GET", "/script.js", "", 3),
        Reply::Page(PageKind::Script)
    ));
}

#[test]
fn gateway_unknown_routes_are_not_found() {
    let mut s = GuiState::new();
    assert!(matches!(
        handle_request(&mut s, "GET", "/nope", "", 1),
        Reply::NotFound
    ));
    assert!(matches!(
        handle_request(&mut s, "GET", "/api/nope", "", 2),
        Reply::NotFound
    ));
    assert!(matches!(
        handle_request(&mut s, "POST", "/api/other", "", 3),
        Reply::NotFound
    ));
    assert!(matches!(
        handle_request(&mut s, "PUT", "/", "", 4),
        Reply::NotFound
    ));
    // even a not-found request counts as activity
    assert_eq!(s.last_request_time, Some(4));
}
