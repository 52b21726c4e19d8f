use easy_template::utils::strings::Block::{Dynamic, Static};
use easy_template::utils::strings::{
    find, find_block, find_block_skip_ignore, is_expr, next_expr, remove_skip_block, Block,
};

#[test]
fn test_find() {
    assert_eq!(find("hello world", 1, "world"), Some(6));
    assert_eq!(find("hello \\world", 1, "world"), None);
    assert_eq!(find("hello \\world world", 1, "world"), Some(13));
}

#[test]
fn test_find_block() {
    assert_eq!(
        find_block("Hello {{world}}", 0, "{{", "}}"),
        Some((6, Some(15)))
    );
    assert_eq!(
        find_block("Hello {{world\\}}", 0, "{{", "}}"),
        Some((6, None))
    );
    assert_eq!(find_block("Hello \\{{world}}", 0, "{{", "}}"), None);
}

#[test]
fn test_find_nesting_block() {
    fn get_expr(src: &str) -> Option<&str> {
        find_block_skip_ignore(src, 0, "{{", "}}", &vec![("\"", "\""), ("'", "'")])
            .map(|e| &src[e.0..e.1])
    }
    assert_eq!(
        get_expr(r#"hello {{ self.data + current.context + 'item}}' + "" }}"#),
        Some(r#"{{ self.data + current.context + 'item}}' + "" }}"#)
    );
    assert_eq!(
        get_expr(r#"hello {{ self.data + current.context + 'item}}' + " }}"#),
        None
    );
    assert_eq!(get_expr(r#"hello world"#), None);
    assert_eq!(get_expr(r#"hello {{world}}"#), Some("{{world}}"));
    assert_eq!(get_expr(r#"hello {{wo\}}rld}}"#), Some("{{wo\\}}rld}}"));
    assert_eq!(get_expr("hello {{wo\nrld}}"), Some("{{wo\nrld}}"));
    assert_eq!(get_expr("hello好{{wo\nrld}}"), Some("{{wo\nrld}}"));
}

#[test]
fn test_split_block() {
    fn split_block_test(src: &str) -> Vec<Block> {
        Block::new_group(src, "{{", "}}", &vec![("\"", "\""), ("'", "'")], false)
    }
    assert_eq!(
        split_block_test("hello {{world}}"),
        vec![Static("hello "), Dynamic("world")]
    );
    assert_eq!(
        split_block_test("hello \\{{ {{world}}"),
        vec![Static("hello "), Static("{{ "), Dynamic("world")]
    );

    assert_eq!(
        split_block_test("hello \\}} {{world}}"),
        vec![Static("hello "), Static("}} "), Dynamic("world")]
    );
    assert_eq!(
        split_block_test("hello \\}} {{world\\}}}}"),
        vec![Static("hello "), Static("}} "), Dynamic("world\\}}")]
    );
}

#[test]
fn str_test() {
    println!("{:?}", remove_skip_block(r#"测试测\\"试测试"#, "\""));
}

#[test]
fn remove_skip_block_keeps_doubled_escape() {
    assert_eq!(remove_skip_block(r#"测试测\\"试测试"#, "\""), vec![r#"测试测\\"试测试"#]);
}

#[test]
fn remove_skip_block_moves_tag_to_next_piece() {
    assert_eq!(remove_skip_block("ab\\{{cd\\{{ef", "{{"), vec!["ab", "{{cd", "{{ef"]);
    assert_eq!(remove_skip_block("plain", "{{"), vec!["plain"]);
    assert_eq!(remove_skip_block("\\{{abc", "{{"), vec!["", "abc"]);
}

#[test]
fn new_group_replaces_escapes_in_blocks_on_request() {
    let v = Block::new_group("a{{x\\}}y}}b", "{{", "}}", &vec![], true);
    assert_eq!(v, vec![Static("a"), Dynamic("x"), Dynamic("}}y"), Static("b")]);
    let v = Block::new_group("a{{x\\}}y}}b", "{{", "}}", &vec![], false);
    assert_eq!(v, vec![Static("a"), Dynamic("x\\}}y"), Static("b")]);
}

#[test]
fn find_block_skip_ignore_widens_past_quoted_tag() {
    assert_eq!(
        find_block_skip_ignore("{{ '}}' }}", 0, "{{", "}}", &vec![("'", "'")]),
        Some((0, 10))
    );
    assert_eq!(
        find_block_skip_ignore("{{ '}} }}", 0, "{{", "}}", &vec![("'", "'")]),
        None
    );
}

#[test]
fn is_expr_accepts_identifiers_only() {
    assert!(is_expr("abc_1"));
    assert!(is_expr("_x"));
    assert!(!is_expr("1abc"));
    assert!(!is_expr("a-b"));
    assert!(!is_expr("(a"));
    assert!(!is_expr("变量"));
}

#[test]
fn next_expr_finds_runs() {
    assert_eq!(next_expr("  abc def", false), Some((2, 5)));
    assert_eq!(next_expr("+abc ", false), None);
    assert_eq!(next_expr("+abc ", true), Some((1, 4)));
    assert_eq!(next_expr("abc", true), None);
    assert_eq!(next_expr("ab+c", true), Some((0, 2)));
}
