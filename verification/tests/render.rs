use varj::VarjMap;

#[test]
fn render_single_var() {
    test_render_vars(
        "testKey: testValue;",
        "testKey: {{ testKey }};",
        &[("testKey", "testValue")],
    );
}

#[test]
fn render_multiple_vars() {
    test_render_vars(
        "testKey: testValue; testKey2: testValue2;",
        "testKey: {{testKey}}; testKey2: {{ testKey2 }};",
        &[("testKey", "testValue"), ("testKey2", "testValue2")],
    );
}

#[test]
fn render_without_vars() {
    test_render_vars(
        "testKey: testValue; testKey2: testValue2;",
        "testKey: testValue; testKey2: testValue2;",
        &[],
    );
}

#[test]
fn render_incorrect_vars() {
    let input = "testKey: {{testKey}}; testValue2: {{ wrongKey }};";
    let mut map = VarjMap::new();
    map.insert("testKey", "testValue");
    map.insert("testKey2", "testValue2");

    let expected = varj::Error {
        line: 1,
        col: 35,
        key: "wrongKey".to_owned(),
    };

    let actual = map.render(input).expect_err("parsing should error");
    assert_eq!(expected.line, actual.line);
    assert_eq!(expected.col, actual.col);
    assert_eq!(expected.key, actual.key);

    let expected_error_msg = format!(
        "{}:{} unknown variable '{}'",
        expected.line, expected.col, expected.key
    );
    let actual_error_msg = actual.message();
    assert_eq!(expected_error_msg, actual_error_msg);
}

#[test]
fn render_stray_braces_are_literal() {
    test_render_vars("a { b } c {x} }{", "a { b } c {x} }{", &[("x", "v")]);
}

#[test]
fn render_unterminated_marker_is_dropped() {
    test_render_vars("head {{ key", "head {{ key", &[("key", "value")]);
}

#[test]
fn render_empty_input() {
    test_render_vars("", "", &[("key", "value")]);
}

#[test]
fn render_empty_key() {
    test_render_vars("x", "{{}}", &[("", "x")]);
    test_render_vars("x", "{{   }}", &[("", "x")]);
}

#[test]
fn render_adjacent_markers() {
    test_render_vars("12", "{{a}}{{b}}", &[("a", "1"), ("b", "2")]);
}

#[test]
fn render_whitespace_insensitive() {
    test_render_vars("v", "{{key}}", &[("key", "v")]);
    test_render_vars("v", "{{ key }}", &[("key", "v")]);
    test_render_vars("v", "{{   key   }}", &[("key", "v")]);
}

#[test]
fn render_reports_first_unresolved() {
    let mut map = VarjMap::new();
    map.insert("present", "p");
    let err = map
        .render("{{ present }} {{ first }} {{ second }}")
        .expect_err("two keys are unresolved");
    assert_eq!("first", err.key);
    assert_eq!(1, err.line);
    assert_eq!(15, err.col);
}

#[test]
fn render_does_not_rescan_values() {
    let mut map = VarjMap::new();
    map.insert("key", "{{other}}");
    map.insert("other", "expanded");
    let actual = map.render("-{{key}}-").expect("key is set");
    assert_eq!("-{{other}}-", actual);
}

#[test]
fn render_length_invariant() {
    let input = "x {{k}} y";
    let mut map = VarjMap::new();
    map.insert("k", "value");
    let actual = map.render(input).expect("key is set");
    assert_eq!("x value y", actual);
    // One span of length 5, one resolved value of length 5.
    assert_eq!(actual.len(), input.len() - 5 + 5);
}

#[test]
fn render_marker_spanning_newline() {
    let mut map = VarjMap::new();
    map.insert("k", "v");
    let actual = map.render("a\n{{ k\n}}b").expect("key is set");
    assert_eq!("a\nvb", actual);
}

#[test]
fn render_error_position_on_later_line() {
    let mut map = VarjMap::new();
    map.insert("k", "v");
    let template = "{{k}}\n\n  {{ missing }}";
    let err = map.render(template).expect_err("missing is unresolved");
    assert_eq!("missing", err.key);
    assert_eq!(3, err.line);
    assert_eq!(3, err.col);
    assert_eq!("3:3 unknown variable 'missing'", err.message());
}

#[test]
fn render_uses_latest_value_for_duplicate_key() {
    let mut map = VarjMap::new();
    map.insert("k", "old");
    map.insert("k", "new");
    let actual = map.render("{{ k }}").expect("key is set");
    assert_eq!("new", actual);
}

#[test]
fn error_message_multi_digit_position() {
    let err = varj::Error {
        key: "k".to_owned(),
        line: 203,
        col: 45,
    };
    assert_eq!("203:45 unknown variable 'k'", err.message());
}

fn test_render_vars(expected: &str, template: &str, vars: &[(&str, &str)]) {
    let mut map = VarjMap::new();
    for (k, v) in vars {
        map.insert(k, v);
    }
    let actual = map.render(template).expect("rendering should succeed");
    assert_eq!(expected, actual);
}
