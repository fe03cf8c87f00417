use webrust::session::{
    add_output, add_output_new_line, add_output_same_line, create_input_request,
    create_input_request_typed, lookup_type_tag, snapshot, submit_response, GuiState,
};

#[test]
fn session_fresh_state_is_empty() {
    let s = GuiState::new();
    assert_eq!(s.output_buffer.len(), 0);
    assert_eq!(s.pending_inputs.len(), 0);
    assert_eq!(s.input_counter, 0);
    assert!(!s.program_finished);
    assert!(s.last_request_time.is_none());
    assert!(!s.has_received_requests);
}

#[test]
fn session_output_keeps_append_order() {
    let mut s = GuiState::new();
    add_output_new_line(&mut s, "one".to_string());
    add_output_new_line(&mut s, "two".to_string());
    add_output(&mut s, "three".to_string());
    assert_eq!(s.output_buffer, vec!["one", "two", "three"]);
}

#[test]
fn session_append_to_last_touches_only_last() {
    let mut s = GuiState::new();
    add_output_new_line(&mut s, "a".to_string());
    add_output_new_line(&mut s, "b".to_string());
    add_output_same_line(&mut s, "-more".to_string());
    assert_eq!(s.output_buffer, vec!["a", "b-more"]);
}

#[test]
fn session_append_to_last_on_empty_starts_a_line() {
    let mut s = GuiState::new();
    add_output_same_line(&mut s, "first".to_string());
    assert_eq!(s.output_buffer, vec!["first"]);
}

#[test]
fn session_create_request_builds_id_and_line() {
    let mut s = GuiState::new();
    let id = create_input_request_typed(&mut s, "age?", "integer");
    assert_eq!(id, "input_1");
    assert_eq!(s.input_counter, 1);
    assert_eq!(s.output_buffer, vec!["INPUT_REQUEST:input_1:age?"]);
    assert_eq!(s.pending_inputs.len(), 1);
    assert_eq!(s.pending_inputs[0].id, "input_1");
    assert_eq!(s.pending_inputs[0].type_tag, "integer");
}

#[test]
fn session_create_request_ids_are_distinct() {
    let mut s = GuiState::new();
    let a = create_input_request_typed(&mut s, "first", "integer");
    let b = create_input_request_typed(&mut s, "second", "boolean");
    let c = create_input_request(&mut s, "third");
    assert_eq!(a, "input_1");
    assert_eq!(b, "input_2");
    assert_eq!(c, "input_3");
    assert_ne!(a, b);
    assert_ne!(b, c);
    assert_eq!(s.pending_inputs.len(), 3);
    assert_eq!(s.pending_inputs[2].type_tag, "String");
}

#[test]
fn session_submit_resolves_and_records() {
    let mut s = GuiState::new();
    let id = create_input_request_typed(&mut s, "age?", "integer");
    let ok = submit_response(&mut s, &id, "30".to_string());
    assert!(ok);
    assert_eq!(s.pending_inputs.len(), 0);
    assert_eq!(
        s.output_buffer,
        vec!["INPUT_REQUEST:input_1:age?", "30"]
    );
}

#[test]
fn session_second_submission_is_a_noop() {
    let mut s = GuiState::new();
    let id = create_input_request_typed(&mut s, "age?", "integer");
    assert!(submit_response(&mut s, &id, "30".to_string()));
    let before = s.output_buffer.clone();
    let again = submit_response(&mut s, &id, "31".to_string());
    assert!(!again);
    assert_eq!(s.output_buffer, before);
    assert_eq!(s.pending_inputs.len(), 0);
}

#[test]
fn session_submit_unknown_id_is_a_noop() {
    let mut s = GuiState::new();
    add_output_new_line(&mut s, "x".to_string());
    let r = submit_response(&mut s, "input_9", "v".to_string());
    assert!(!r);
    assert_eq!(s.output_buffer, vec!["x"]);
}

#[test]
fn session_snapshot_copies_everything() {
    let mut s = GuiState::new();
    add_output_new_line(&mut s, "line".to_string());
    let id = create_input_request_typed(&mut s, "p", "char");
    let snap = snapshot(&s);
    assert_eq!(snap.output, vec!["line", "INPUT_REQUEST:input_1:p"]);
    assert_eq!(snap.pending_ids, vec![id]);
    assert!(!snap.finished);
}

#[test]
fn session_lookup_type_tag_finds_pending_only() {
    let mut s = GuiState::new();
    let id = create_input_request_typed(&mut s, "p", "bool");
    assert_eq!(lookup_type_tag(&s, &id), Some("bool".to_string()));
    assert_eq!(lookup_type_tag(&s, "input_7"), None);
    submit_response(&mut s, &id, "true".to_string());
    assert_eq!(lookup_type_tag(&s, &id), None);
}

#[test]
fn session_request_line_survives_same_line_append() {
    let mut s = GuiState::new();
    let id = create_input_request_typed(&mut s, "p", "integer");
    // the request announcement is the last line; extending it keeps its head
    add_output_same_line(&mut s, " (waiting)".to_string());
    assert_eq!(s.output_buffer, vec!["INPUT_REQUEST:input_1:p (waiting)"]);
    assert!(submit_response(&mut s, &id, "3".to_string()));
    assert_eq!(
        s.output_buffer,
        vec!["INPUT_REQUEST:input_1:p (waiting)", "3"]
    );
}
