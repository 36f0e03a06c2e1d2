use flyway::statements::split_statements;
use flyway::strutil::{i32_dec_string, join_strings, u32_dec_string};

#[test]
fn test_split_statements_on_semicolon_newline() {
    assert_eq!(
        split_statements("select 1;\nselect 2"),
        vec!["select 1".to_string(), "select 2".to_string()]
    );
    assert_eq!(
        split_statements("select 1;   \nselect 2;\n"),
        vec!["select 1".to_string(), "select 2".to_string(), "".to_string()]
    );
}

#[test]
fn test_split_statements_needs_the_newline() {
    // A semicolon without a following newline separates nothing.
    assert_eq!(
        split_statements("select 1; select 2"),
        vec!["select 1; select 2".to_string()]
    );
    // Only spaces may stand between the semicolon and the newline.
    assert_eq!(
        split_statements("a;\tx\nb"),
        vec!["a;\tx\nb".to_string()]
    );
    assert_eq!(split_statements(""), vec!["".to_string()]);
}

#[test]
fn test_split_statements_takes_leftmost_separator() {
    assert_eq!(
        split_statements("a; ;\nb"),
        vec!["a; ".to_string(), "b".to_string()]
    );
}

#[test]
fn test_decimal_strings() {
    assert_eq!(u32_dec_string(0), "0");
    assert_eq!(u32_dec_string(4294967295), "4294967295");
    assert_eq!(i32_dec_string(841265288), "841265288");
    assert_eq!(i32_dec_string(0), "0");
    assert_eq!(i32_dec_string(-1), "-1");
    assert_eq!(i32_dec_string(-2147483648), "-2147483648");
    assert_eq!(i32_dec_string(2147483647), "2147483647");
}

#[test]
fn test_join_strings() {
    let parts: Vec<String> = vec!["1.0.0".into(), "1.0.1".into(), "2".into()];
    assert_eq!(join_strings(&parts, ", "), "1.0.0, 1.0.1, 2");
    let one: Vec<String> = vec!["1".into()];
    assert_eq!(join_strings(&one, ", "), "1");
    let none: Vec<String> = vec![];
    assert_eq!(join_strings(&none, ", "), "");
}
