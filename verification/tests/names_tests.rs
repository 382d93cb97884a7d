use astdisplay::names::{fmt_ident, split_upper, str_eq, truncate_stmt_suffix};

#[test]
fn truncate_stmt_suffix_drops_singular() {
    assert_eq!(truncate_stmt_suffix("AlterConnectionStatement"), "AlterConnection");
    assert_eq!(truncate_stmt_suffix("DiscardStatement"), "Discard");
}

#[test]
fn truncate_stmt_suffix_drops_plural_marker() {
    // the plural form loses its trailing `s` together with the suffix
    assert_eq!(truncate_stmt_suffix("DropRolesStatement"), "DropRole");
}

#[test]
fn truncate_stmt_suffix_repeats() {
    assert_eq!(truncate_stmt_suffix("XStatementStatement"), "X");
    assert_eq!(truncate_stmt_suffix("Statement"), "");
}

#[test]
fn truncate_stmt_suffix_leaves_others_alone() {
    assert_eq!(truncate_stmt_suffix("Select"), "Select");
    assert_eq!(truncate_stmt_suffix(""), "");
    assert_eq!(truncate_stmt_suffix("StatementOfIntent"), "StatementOfIntent");
}

#[test]
fn split_upper_splits_words() {
    assert_eq!(split_upper("DropRole"), vec!["Drop", "Role"]);
    assert_eq!(split_upper("AlterConnection"), vec!["Alter", "Connection"]);
}

#[test]
fn split_upper_consecutive_capitals() {
    assert_eq!(split_upper("ABC"), vec!["A", "B", "C"]);
}

#[test]
fn split_upper_no_capitals() {
    assert_eq!(split_upper("lower"), vec!["lower"]);
    assert_eq!(split_upper(""), vec![""]);
    assert_eq!(split_upper("X"), vec!["X"]);
}

#[test]
fn fmt_ident_type_names() {
    assert_eq!(fmt_ident("DropDatabaseStatement"), "DROP DATABASE");
    assert_eq!(fmt_ident("Values"), "VALUES");
    assert_eq!(fmt_ident("Wildcard"), "WILDCARD");
}

#[test]
fn fmt_ident_field_names() {
    assert_eq!(fmt_ident("if_exists"), "IF EXISTS");
    assert_eq!(fmt_ident("projection"), "PROJECTION");
    assert_eq!(fmt_ident("group_by"), "GROUP BY");
}

#[test]
fn fmt_ident_empty() {
    assert_eq!(fmt_ident(""), "");
}

#[test]
fn str_eq_compares_by_characters() {
    assert!(str_eq("abc", "abc"));
    assert!(!str_eq("abc", "abd"));
    assert!(!str_eq("abc", "ab"));
    assert!(str_eq("", ""));
}
