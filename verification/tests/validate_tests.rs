use webrust::validate::{
    valid_bool_exec, valid_char_exec, valid_float_exec, valid_i32_exec, validate_input_rust,
};

#[test]
fn validate_integer_accepts_digits() {
    assert!(validate_input_rust("42", "integer").is_ok());
    assert!(validate_input_rust("-7", "integer").is_ok());
    assert!(validate_input_rust("+7", "integer").is_ok());
    assert!(validate_input_rust(" 42 ", "integer").is_ok());
    assert!(validate_input_rust("0000042", "integer").is_ok());
    assert!(validate_input_rust("42", "i32").is_ok());
}

#[test]
fn validate_integer_rejects_with_message() {
    let r = validate_input_rust("abc", "integer");
    assert_eq!(r, Err("invalid digit found in string".to_string()));
    assert!(validate_input_rust("", "integer").is_err());
    assert!(validate_input_rust("4 2", "integer").is_err());
    assert!(validate_input_rust("4.2", "integer").is_err());
    assert!(validate_input_rust("-", "integer").is_err());
}

#[test]
fn validate_integer_respects_the_range() {
    assert!(valid_i32_exec("2147483647"));
    assert!(!valid_i32_exec("2147483648"));
    assert!(valid_i32_exec("-2147483648"));
    assert!(!valid_i32_exec("-2147483649"));
    assert!(!valid_i32_exec("99999999999999999999"));
}

#[test]
fn validate_boolean_is_case_insensitive() {
    assert!(validate_input_rust("true", "boolean").is_ok());
    assert!(validate_input_rust("TRUE", "boolean").is_ok());
    assert!(validate_input_rust("False", "boolean").is_ok());
    assert!(validate_input_rust(" true ", "bool").is_ok());
    let r = validate_input_rust("yes", "boolean");
    assert_eq!(
        r,
        Err("provided string was not 'true' or 'false'".to_string())
    );
    assert!(!valid_bool_exec("truth"));
}

#[test]
fn validate_float_accepts_the_literal_grammar() {
    assert!(valid_float_exec("3.14"));
    assert!(valid_float_exec("-0.5"));
    assert!(valid_float_exec(".5"));
    assert!(valid_float_exec("5."));
    assert!(valid_float_exec("1e-5"));
    assert!(valid_float_exec("2E+10"));
    assert!(valid_float_exec("inf"));
    assert!(valid_float_exec("-Infinity"));
    assert!(valid_float_exec("NaN"));
    assert!(validate_input_rust("2.5", "float").is_ok());
    assert!(validate_input_rust("2.5", "f64").is_ok());
}

#[test]
fn validate_float_rejects_with_message() {
    let r = validate_input_rust("abc", "float");
    assert_eq!(r, Err("invalid float literal".to_string()));
    assert!(!valid_float_exec("."));
    assert!(!valid_float_exec(""));
    assert!(!valid_float_exec("1e"));
    assert!(!valid_float_exec("1.2.3"));
    assert!(!valid_float_exec("1,2"));
}

#[test]
fn validate_char_wants_exactly_one() {
    assert!(validate_input_rust("x", "char").is_ok());
    assert!(validate_input_rust(" é ", "char").is_ok());
    let r = validate_input_rust("ab", "char");
    assert_eq!(r, Err("input too long for character".to_string()));
    assert!(validate_input_rust("", "char").is_err());
    assert!(!valid_char_exec("  "));
}

#[test]
fn validate_free_text_always_passes() {
    assert!(validate_input_rust("anything", "free text").is_ok());
    assert!(validate_input_rust("", "String").is_ok());
    assert!(validate_input_rust("abc", "unknown-tag").is_ok());
}
