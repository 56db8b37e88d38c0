use attendance::schema::{column_exists, missing_columns, required_column_names};

fn names(list: &[&str]) -> Vec<String> {
    list.iter().map(|s| s.to_string()).collect()
}

const ALL: [&str; 8] =
    ["shifthour", "shiftminutes", "shiftendhour", "shiftendminutes", "reqtime", "full", "notfull", "notcome"];

#[test]
fn required_names_in_order() {
    assert_eq!(required_column_names(), names(&ALL));
}

#[test]
fn column_exists_finds_name() {
    let cols = names(&["username", "password", "full"]);
    assert!(column_exists(&cols, "full"));
    assert!(column_exists(&cols, "username"));
    assert!(!column_exists(&cols, "notfull"));
    assert!(!column_exists(&cols, "ful"));
    assert!(!column_exists(&Vec::new(), "full"));
}

#[test]
fn missing_from_bare_table() {
    let cols = names(&["username", "password"]);
    assert_eq!(missing_columns(&cols), names(&ALL));
}

#[test]
fn missing_some() {
    let cols = names(&["username", "reqtime", "shifthour", "notcome"]);
    assert_eq!(
        missing_columns(&cols),
        names(&["shiftminutes", "shiftendhour", "shiftendminutes", "full", "notfull"])
    );
}

#[test]
fn missing_none_from_full_table() {
    let mut cols = names(&["username"]);
    cols.extend(names(&ALL));
    assert!(missing_columns(&cols).is_empty());
}

#[test]
fn adding_missing_completes_table() {
    let mut cols = names(&["username", "full", "reqtime"]);
    let added = missing_columns(&cols);
    cols.extend(added);
    assert!(missing_columns(&cols).is_empty());
}
