use reasonable_envsubst::environment::Environment;
use reasonable_envsubst::substitute::{replace_env_vars, substitute};

fn env_of(pairs: &[(&str, &str)]) -> Environment {
    let mut env = Environment::new();
    for (name, value) in pairs {
        env.set(name, value);
    }
    env
}

#[test]
fn test_env_var_replacement() {
    let env = env_of(&[("KNOWN_VAR", "rust-lang")]);
    let input = "Hello, ${KNOWN_VAR}! Your flags are: ${VAR_THAT_DOES_NOT_EXIST}.";
    let expected_output = "Hello, rust-lang! Your flags are: ${VAR_THAT_DOES_NOT_EXIST}.";
    let output = replace_env_vars(input, &env);
    assert_eq!(output, expected_output);
    let expansion = substitute(input, &env);
    assert_eq!(expansion.text, expected_output);
    assert_eq!(expansion.unresolved, vec!["VAR_THAT_DOES_NOT_EXIST".to_string()]);
}

#[test]
fn test_env_object_pattern_replacement() {
    let env = env_of(&[("MY_VAR", "my-value"), ("ANOTHER_VAR", "another-value")]);
    let input = r#"Config: { env = "MY_VAR" } and { env = "ANOTHER_VAR" }, unknown: { env = "UNKNOWN_VAR" }"#;
    let expected_output = r#"Config: "my-value" and "another-value", unknown: { env = "UNKNOWN_VAR" }"#;
    let output = replace_env_vars(input, &env);
    assert_eq!(output, expected_output);
}

#[test]
fn test_mixed_patterns() {
    let env = env_of(&[("VAR1", "value1"), ("VAR2", "value2")]);
    let input = r#"Old style: ${VAR1}, new style: { env = "VAR2" }"#;
    let expected_output = r#"Old style: value1, new style: "value2""#;
    let output = replace_env_vars(input, &env);
    assert_eq!(output, expected_output);
}

#[test]
fn test_dollar_brace_pattern() {
    let env = env_of(&[
        ("KNOWN_VAR", "rust-lang"),
        ("VAR1", "value1"),
        ("MULTIPLE1", "first"),
        ("MULTIPLE2", "second"),
    ]);
    assert_eq!(replace_env_vars("Hello, ${KNOWN_VAR}!", &env), "Hello, rust-lang!");
    assert_eq!(
        replace_env_vars("Known: ${KNOWN_VAR}, unknown: ${UNKNOWN_VAR}", &env),
        "Known: rust-lang, unknown: ${UNKNOWN_VAR}"
    );
    assert_eq!(replace_env_vars("${MULTIPLE1} and ${MULTIPLE2}", &env), "first and second");
    assert_eq!(replace_env_vars("From stdin: ${VAR1}", &env), "From stdin: value1");
}

#[test]
fn test_env_object_pattern() {
    let env = env_of(&[
        ("MY_VAR", "my-value"),
        ("VAR2", "value2"),
        ("A", "apple"),
        ("B", "banana"),
    ]);
    assert_eq!(replace_env_vars(r#"Config: { env = "MY_VAR" }"#, &env), r#"Config: "my-value""#);
    assert_eq!(
        replace_env_vars(r#"Known: { env = "MY_VAR" }, unknown: { env = "UNKNOWN_VAR" }"#, &env),
        r#"Known: "my-value", unknown: { env = "UNKNOWN_VAR" }"#
    );
    assert_eq!(
        replace_env_vars(r#"{ env = "A" } and { env = "B" }"#, &env),
        r#""apple" and "banana""#
    );
    assert_eq!(
        replace_env_vars(r#"From stdin: { env = "VAR2" } and ${VAR2}"#, &env),
        r#"From stdin: "value2" and value2"#
    );
}

#[test]
fn plain_text_passes_through_without_reports() {
    let env = Environment::new();
    let expansion = substitute("plain text with no refs", &env);
    assert_eq!(expansion.text, "plain text with no refs");
    assert!(expansion.unresolved.is_empty());
}

#[test]
fn empty_input_gives_empty_output() {
    let env = env_of(&[("A", "apple")]);
    let expansion = substitute("", &env);
    assert_eq!(expansion.text, "");
    assert!(expansion.unresolved.is_empty());
}

#[test]
fn comment_shapes_get_no_special_treatment() {
    let env = env_of(&[("COMMENT_VAR", "should-not-replace"), ("ACTIVE_VAR", "should-replace")]);
    assert_eq!(
        replace_env_vars(r#"# { env = "COMMENT_VAR" }"#, &env),
        r#"# "should-not-replace""#
    );
    assert_eq!(
        replace_env_vars("active: { env = \"ACTIVE_VAR\" }\n# commented: { env = \"COMMENT_VAR\" }", &env),
        "active: \"should-replace\"\n# commented: \"should-not-replace\""
    );
    assert_eq!(
        replace_env_vars(r#"# This is a comment ${COMMENT_VAR}"#, &env),
        r#"# This is a comment should-not-replace"#
    );
}

#[test]
fn empty_names_are_kept_and_reported() {
    let env = env_of(&[("A", "apple")]);
    let expansion = substitute(r#"x ${} y { env = "" } z"#, &env);
    assert_eq!(expansion.text, r#"x ${} y { env = "" } z"#);
    assert_eq!(expansion.unresolved, vec![String::new(), String::new()]);
}

#[test]
fn unterminated_brace_runs_to_the_end() {
    let env = env_of(&[("FOO", "bar")]);
    assert_eq!(replace_env_vars("x ${FOO", &env), "x bar");
    let expansion = substitute("x ${FOO and more", &env);
    assert_eq!(expansion.text, "x ${FOO and more");
    assert_eq!(expansion.unresolved, vec!["FOO and more".to_string()]);
}

#[test]
fn malformed_object_references_are_literal() {
    let env = env_of(&[("FOO", "bar")]);
    for input in [r#"{ env = "FOO"}"#, r#"{ env = "FOO"  }"#, r#"{ env = "FOO"#, r#"{env = "FOO" }"#] {
        let expansion = substitute(input, &env);
        assert_eq!(expansion.text, input);
        assert!(expansion.unresolved.is_empty());
    }
}

#[test]
fn object_closer_must_follow_the_first_quote() {
    let env = env_of(&[("FOO", "bar")]);
    let input = r#"{ env = "FOO" x" }"#;
    assert_eq!(replace_env_vars(input, &env), input);
}

#[test]
fn values_are_not_expanded_again() {
    let env = env_of(&[("A", "${B}"), ("B", "banana"), ("C", r#"{ env = "B" }"#)]);
    assert_eq!(replace_env_vars("${A}", &env), "${B}");
    assert_eq!(replace_env_vars(r#"{ env = "C" }"#, &env), r#""{ env = "B" }""#);
    assert_eq!(replace_env_vars("${A}${A}", &env), "${B}${B}");
}

#[test]
fn object_value_is_quoted_as_is() {
    let env = env_of(&[("Q", r#"say "hi""#), ("E", "")]);
    assert_eq!(replace_env_vars(r#"{ env = "Q" }"#, &env), r#""say "hi"""#);
    assert_eq!(replace_env_vars(r#"[{ env = "E" }]"#, &env), r#"[""]"#);
    assert_eq!(replace_env_vars("[${E}]", &env), "[]");
}

#[test]
fn each_unresolved_reference_is_reported_in_order() {
    let env = env_of(&[("K", "k")]);
    let expansion = substitute(r#"${U} ${K} { env = "V" } ${U}"#, &env);
    assert_eq!(expansion.text, r#"${U} k { env = "V" } ${U}"#);
    assert_eq!(
        expansion.unresolved,
        vec!["U".to_string(), "V".to_string(), "U".to_string()]
    );
}

#[test]
fn unresolved_span_is_skipped_whole() {
    let env = env_of(&[("A", "apple")]);
    let input = r#"${ { env = "A" } }"#;
    let expansion = substitute(input, &env);
    assert_eq!(expansion.text, input);
    assert_eq!(expansion.unresolved, vec![r#" { env = "A" "#.to_string()]);
}

#[test]
fn expanding_twice_changes_nothing() {
    let env = env_of(&[("A", "apple"), ("B", "banana")]);
    let input = r#"${A}, { env = "B" }, ${MISSING}, { env = "GONE" }"#;
    let once = replace_env_vars(input, &env);
    assert_eq!(once, r#"apple, "banana", ${MISSING}, { env = "GONE" }"#);
    assert_eq!(replace_env_vars(&once, &env), once);
}

#[test]
fn lone_dollar_and_braces_are_literal() {
    let env = env_of(&[("A", "apple")]);
    let input = "$ {A} $A }{ $";
    let expansion = substitute(input, &env);
    assert_eq!(expansion.text, input);
    assert!(expansion.unresolved.is_empty());
}

#[test]
fn text_beyond_ascii_is_kept() {
    let env = env_of(&[("NAME", "wörld")]);
    assert_eq!(replace_env_vars("héllo ${NAME} ✓", &env), "héllo wörld ✓");
    let env = env_of(&[("ü", "u")]);
    assert_eq!(replace_env_vars("${ü}", &env), "u");
}

#[test]
fn later_setting_replaces_earlier() {
    let mut env = Environment::new();
    env.set("A", "one");
    env.set("A", "two");
    assert_eq!(env.get("A"), Some("two".to_string()));
    assert_eq!(env.get("B"), None);
    assert_eq!(replace_env_vars("${A}", &env), "two");
}

#[test]
fn empty_value_is_a_resolved_value() {
    let env = env_of(&[("E", "")]);
    let expansion = substitute("a${E}b", &env);
    assert_eq!(expansion.text, "ab");
    assert!(expansion.unresolved.is_empty());
}
