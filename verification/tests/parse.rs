use varj::parse_blocks;
use varj::Block;

#[test]
fn parse_single_block_with_whitespace() {
    test_parsed_blocks(
        "testKey: {{ testKey }};",
        vec![Block {
            start: 9,
            len: 13,
            line: 1,
            col: 10,
            variable_key: "testKey".to_owned(),
        }],
    );
}

#[test]
fn parse_single_block_without_whitespace() {
    test_parsed_blocks(
        "testKey: {{testKey}};",
        vec![Block {
            start: 9,
            len: 11,
            line: 1,
            col: 10,
            variable_key: "testKey".to_owned(),
        }],
    );
}

#[test]
fn parse_single_block_at_start() {
    test_parsed_blocks(
        "{{testKey}}: testKey",
        vec![Block {
            start: 0,
            len: 11,
            line: 1,
            col: 1,
            variable_key: "testKey".to_owned(),
        }],
    );
}

#[test]
fn parse_single_block_at_len() {
    test_parsed_blocks(
        "testKey: {{testKey}}",
        vec![Block {
            start: 9,
            len: 11,
            line: 1,
            col: 10,
            variable_key: "testKey".to_owned(),
        }],
    );
}

#[test]
fn parse_single_block_with_added_braces() {
    test_parsed_blocks(
        "test{Key: {{ test}Key }};",
        vec![Block {
            start: 10,
            len: 14,
            line: 1,
            col: 11,
            variable_key: "test}Key".to_owned(),
        }],
    );
}

#[test]
fn parse_multiple_blocks() {
    test_parsed_blocks(
        "testKey: {{testKey}}; testKey2: {{ testKey2 }};",
        vec![
            Block {
                start: 9,
                len: 11,
                line: 1,
                col: 10,
                variable_key: "testKey".to_owned(),
            },
            Block {
                start: 32,
                len: 14,
                line: 1,
                col: 33,
                variable_key: "testKey2".to_owned(),
            },
        ],
    );
}

#[test]
fn parse_multiple_blocks_on_multiple_lines() {
    test_parsed_blocks(
        "testKey: {{testKey}};\ntestKey2: {{ testKey2 }};",
        vec![
            Block {
                start: 9,
                len: 11,
                line: 1,
                col: 10,
                variable_key: "testKey".to_owned(),
            },
            Block {
                start: 32,
                len: 14,
                line: 2,
                col: 11,
                variable_key: "testKey2".to_owned(),
            },
        ],
    );
}

#[test]
fn parse_no_blocks() {
    let actual = parse_blocks("no markers here, only { single } braces");
    assert_eq!(0, actual.len());
}

#[test]
fn parse_unterminated_block_is_dropped() {
    let actual = parse_blocks("text {{ key without end");
    assert_eq!(0, actual.len());
}

#[test]
fn parse_restarts_on_second_opening() {
    test_parsed_blocks(
        "{{ a {{ b }}",
        vec![Block {
            start: 5,
            len: 7,
            line: 1,
            col: 6,
            variable_key: "b".to_owned(),
        }],
    );
}

#[test]
fn parse_triple_braces() {
    test_parsed_blocks(
        "{{{key}}}",
        vec![Block {
            start: 0,
            len: 8,
            line: 1,
            col: 1,
            variable_key: "{key".to_owned(),
        }],
    );
}

#[test]
fn parse_key_keeps_inner_brace() {
    test_parsed_blocks(
        "{{ a}b }}",
        vec![Block {
            start: 0,
            len: 9,
            line: 1,
            col: 1,
            variable_key: "a}b".to_owned(),
        }],
    );
}

fn test_parsed_blocks(input: &str, expected: Vec<Block>) {
    let actual = parse_blocks(input);
    assert_eq!(expected.len(), actual.len());
    for (idx, _block) in actual.iter().enumerate() {
        assert_eq!(expected[idx], actual[idx]);
    }
}
