use imag::commands::get_commands;

fn names(v: &[&str]) -> Vec<Option<String>> {
    v.iter().map(|s| Some(s.to_string())).collect()
}

#[test]
fn commands_are_the_imag_executables_sorted() {
    let found = get_commands(&names(&["imag-todo", "ls", "imag-diary", "imag", "imag-", "imag-bookmark"]));
    assert_eq!(found, vec!["", "bookmark", "diary", "todo"]);
}

#[test]
fn unreadable_names_are_skipped() {
    let mut v = names(&["imag-b", "imag-a"]);
    v.push(None);
    assert_eq!(get_commands(&v), vec!["a", "b"]);
}

#[test]
fn order_is_that_of_strings() {
    let found = get_commands(&names(&["imag-ab", "imag-a", "imag-B", "imag-ä", "imag-b"]));
    let mut expected = vec!["ab".to_string(), "a".to_string(), "B".to_string(), "ä".to_string(), "b".to_string()];
    expected.sort();
    assert_eq!(found, expected);
}

#[test]
fn duplicates_are_kept() {
    let found = get_commands(&names(&["imag-x", "imag-x"]));
    assert_eq!(found, vec!["x", "x"]);
}
