use webrust::json::{body_id_value_exec, parse_object_exec, state_json_exec, validate_err_exec};

#[test]
fn json_state_reply_escapes_strings() {
    let output = vec!["say \"hi\"".to_string(), "a\\b".to_string(), "x\ny".to_string()];
    let ids: Vec<String> = vec![];
    let r = state_json_exec(&output, &ids, true);
    assert_eq!(
        r,
        "{\"output\":[\"say \\\"hi\\\"\",\"a\\\\b\",\"x\\ny\"],\"pending_inputs\":[],\"program_finished\":true}"
    );
}

#[test]
fn json_state_reply_escapes_control_characters() {
    let output = vec!["a\u{1}b".to_string()];
    let ids: Vec<String> = vec![];
    let r = state_json_exec(&output, &ids, false);
    assert_eq!(
        r,
        "{\"output\":[\"a\\u0001b\"],\"pending_inputs\":[],\"program_finished\":false}"
    );
}

#[test]
fn json_error_reply_quotes_the_message() {
    assert_eq!(
        validate_err_exec("bad \"x\""),
        "{\"valid\":false,\"error\":\"bad \\\"x\\\"\"}"
    );
}

#[test]
fn json_body_reads_id_and_value() {
    let r = body_id_value_exec("{\"id\":\"input_1\",\"value\":\"30\"}");
    assert_eq!(r, Some(("input_1".to_string(), "30".to_string())));
}

#[test]
fn json_body_field_order_does_not_matter() {
    let r = body_id_value_exec(" { \"value\" : \"yes\" , \"id\" : \"input_2\" } ");
    assert_eq!(r, Some(("input_2".to_string(), "yes".to_string())));
}

#[test]
fn json_body_extra_string_fields_are_ignored() {
    let r = body_id_value_exec("{\"id\":\"a\",\"note\":\"x\",\"value\":\"b\"}");
    assert_eq!(r, Some(("a".to_string(), "b".to_string())));
}

#[test]
fn json_body_unescapes_the_value() {
    let r = body_id_value_exec("{\"id\":\"a\",\"value\":\"say \\\"hi\\\"\\n\\\\\"}");
    assert_eq!(r, Some(("a".to_string(), "say \"hi\"\n\\".to_string())));
}

#[test]
fn json_body_duplicate_key_last_wins() {
    let r = body_id_value_exec("{\"id\":\"a\",\"id\":\"b\",\"value\":\"v\"}");
    assert_eq!(r, Some(("b".to_string(), "v".to_string())));
}

#[test]
fn json_malformed_bodies_are_rejected() {
    assert_eq!(body_id_value_exec(""), None);
    assert_eq!(body_id_value_exec("not json"), None);
    assert_eq!(body_id_value_exec("{\"id\":\"a\"}"), None);
    assert_eq!(body_id_value_exec("{\"value\":\"v\"}"), None);
    assert_eq!(body_id_value_exec("{\"id\":\"a\",\"value\":5}"), None);
    assert_eq!(body_id_value_exec("{\"id\":\"a\",\"value\":\"v\"} x"), None);
    assert_eq!(body_id_value_exec("{\"id\":\"a\",\"value\":\"v\""), None);
    assert_eq!(body_id_value_exec("[\"id\",\"value\"]"), None);
}

#[test]
fn json_empty_object_parses_to_no_fields() {
    let r = parse_object_exec(" { } ");
    assert_eq!(r, Some(vec![]));
    assert_eq!(body_id_value_exec("{}"), None);
}

#[test]
fn json_blank_bodies_are_rejected() {
    assert_eq!(body_id_value_exec("   "), None);
    assert_eq!(body_id_value_exec("\n\t"), None);
}
