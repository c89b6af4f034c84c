use sim_platform::text_edit::{apply_edit, apply_edit_lines};

#[test]
fn exact_edits_require_a_unique_pattern() {
    assert_eq!(apply_edit("a b a", "b", "c", false), Ok("a c a".to_string()));
    assert_eq!(
        apply_edit("a b a", "a", "x", false),
        Err("edit: pattern is not unique (2 matches); pass replace_all".to_string())
    );
    assert_eq!(apply_edit("a b a", "a", "x", true), Ok("x b x".to_string()));
    assert_eq!(apply_edit("aaa", "aa", "b", true), Ok("ba".to_string()));
    assert_eq!(
        apply_edit("abc", "z\"", "y", false),
        Err("edit: pattern not found: \"z\\\"\"".to_string())
    );
    assert_eq!(apply_edit("abc", "", "y", false), Err("edit: old pattern is empty".to_string()));
    assert_eq!(apply_edit("grüße", "ü", "ue", false), Ok("grueße".to_string()));
}

#[test]
fn line_edits_replace_inclusive_ranges() {
    let text = "one\ntwo\nthree\n";
    assert_eq!(apply_edit_lines(text, 2, 2, "TWO\n"), Ok("one\nTWO\nthree\n".to_string()));
    assert_eq!(apply_edit_lines(text, 1, 3, ""), Ok(String::new()));
    assert_eq!(apply_edit_lines("a\nb", 2, 2, "c"), Ok("a\nc".to_string()));
    assert_eq!(
        apply_edit_lines(text, 0, 1, "x"),
        Err("edit-lines: start must be at least 1".to_string())
    );
    assert_eq!(
        apply_edit_lines(text, 3, 2, "x"),
        Err("edit-lines: end must be greater than or equal to start".to_string())
    );
    assert_eq!(
        apply_edit_lines(text, 2, 4, "x"),
        Err("edit-lines: range 2..4 exceeds 3 line(s)".to_string())
    );
    assert_eq!(
        apply_edit_lines("", 1, 1, "x"),
        Err("edit-lines: range 1..1 exceeds 0 line(s)".to_string())
    );
}
