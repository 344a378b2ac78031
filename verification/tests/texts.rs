use config_lint::text::{join, same};

#[test]
fn join_of_nothing_is_empty() {
    assert_eq!(join(&vec![], "\n"), "");
}

#[test]
fn join_of_one_part_is_the_part() {
    assert_eq!(join(&vec!["alone".to_string()], "\n"), "alone");
}

#[test]
fn join_puts_the_separator_between_parts() {
    let parts = vec!["a".to_string(), "b".to_string(), "c".to_string()];
    assert_eq!(join(&parts, "\n"), "a\nb\nc");
    assert_eq!(join(&parts, ", "), "a, b, c");
}

#[test]
fn join_keeps_empty_parts() {
    let parts = vec!["".to_string(), "b".to_string(), "".to_string()];
    assert_eq!(join(&parts, "-"), "-b-");
}

#[test]
fn same_compares_texts() {
    assert!(same("fooBar", "fooBar"));
    assert!(!same("fooBar", "foobar"));
    assert!(same("", ""));
}
