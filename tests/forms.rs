use rustnext::forms::{check_rule, is_float_literal, Form, ValidationRule};

fn chars(s: &str) -> Vec<char> {
    s.chars().collect()
}

#[test]
fn form_validation_reports_each_failure() {
    let mut form = Form::new();
    let i = form.add_field("email", "email", true);
    let f = form.fields[i].copy().required().email().max_length(5);
    form.set_field(i, f);
    assert!(form.set_value("email", "abc"));
    assert!(!form.validate());
    assert!(!form.is_valid);
    assert_eq!(
        form.fields[i].errors,
        vec!["email must be a valid email".to_string()]
    );
    assert!(form.set_value("email", "a@b.c"));
    assert!(form.validate());
    assert!(form.fields[i].errors.is_empty());
}

#[test]
fn required_and_length_messages() {
    let mut form = Form::new();
    let i = form.add_field("name", "text", true);
    let f = form.fields[i].copy().required().min_length(3);
    form.set_field(i, f);
    form.set_value("name", "  ");
    assert!(!form.validate());
    assert_eq!(
        form.fields[i].errors,
        vec!["name is required".to_string(), "name must be at least 3 characters".to_string()]
    );
    assert!(!form.set_value("missing", "x"));
}

#[test]
fn adding_a_field_twice_replaces_it() {
    let mut form = Form::new();
    let a = form.add_field("x", "text", false);
    let b = form.add_field("x", "number", true);
    assert_eq!(a, b);
    assert_eq!(form.fields.len(), 1);
    assert_eq!(form.fields[0].field_type, "number");
}

#[test]
fn lengths_count_bytes() {
    assert!(check_rule(ValidationRule::MaxLength(2), "é"));
    assert!(!check_rule(ValidationRule::MaxLength(1), "é"));
    assert!(check_rule(ValidationRule::MinLength(2), "é"));
}

#[test]
fn numeric_follows_float_grammar() {
    for ok in ["1", "-1.5", "+.5", "5.", "1e10", "1E-3", "inf", "-Infinity", "NaN", "0.0e+0"] {
        assert!(is_float_literal(&chars(ok)), "{}", ok);
        assert_eq!(check_rule(ValidationRule::Numeric, ok), ok.parse::<f64>().is_ok());
    }
    for bad in ["", ".", "e5", "1e", "1.2.3", "abc", " 1", "1 ", "+", "--1", "infin", "1e+"] {
        assert!(!is_float_literal(&chars(bad)), "{}", bad);
        assert_eq!(check_rule(ValidationRule::Numeric, bad), bad.parse::<f64>().is_ok());
    }
}

#[test]
fn populate_sets_named_fields_only() {
    let mut form = Form::new();
    form.add_field("name", "text", true);
    form.add_field("age", "number", false);
    let query = rustnext::request::parse_query(Some("name=Ada&other=1"));
    form.populate(&query);
    assert_eq!(form.fields[0].value, "Ada");
    assert_eq!(form.fields[1].value, "");
}

#[test]
fn validation_keeps_field_settings_and_is_repeatable() {
    let mut form = Form::new();
    let i = form.add_field("age", "number", true);
    let f = form.fields[i].copy().required().numeric();
    assert_eq!(f.field_type, "number");
    assert!(f.required);
    form.set_field(i, f);
    form.set_value("age", "x1");
    let first = form.validate();
    let errors = form.fields[i].errors.clone();
    let second = form.validate();
    assert_eq!(first, second);
    assert_eq!(form.fields[i].errors, errors);
    assert_eq!(errors, vec!["age must be a number".to_string()]);
    assert_eq!(form.fields[i].field_type, "number");
    assert!(form.errors.is_empty());
}
