use varj::VarjMap;

#[test]
fn replace_single_variable() {
    let mut map = VarjMap::new();
    map.insert("name", "TestName");

    let json = "{\n        \"name\" = \"{{ name }}\"\n    }";

    let expected = "{\n        \"name\" = \"TestName\"\n    }";

    test_render(json, map, expected);
}

#[test]
fn replace_multiple_variables() {
    let mut map = VarjMap::new();
    map.insert("name", "TestName");
    map.insert("age", "30");

    let json = "{\n        \"name\" = \"{{ name }}\",\n        \"age\" = {{ age }}\n    }";

    let expected = "{\n        \"name\" = \"TestName\",\n        \"age\" = 30\n    }";

    test_render(json, map, expected);
}

fn test_render(template: &str, map: VarjMap, expected: &str) {
    let actual = map.render(template).expect("rendering should succeed");
    assert_eq!(expected, actual);
}
