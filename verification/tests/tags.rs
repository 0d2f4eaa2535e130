use imag::tags::{extract_tags, get_add_tags, get_remove_tags, list};

fn strings(v: &[&str]) -> Vec<String> {
    v.iter().map(|s| s.to_string()).collect()
}

#[test]
fn tags_subcommand_values_are_taken_as_they_are() {
    assert_eq!(extract_tags(Some(Some(strings(&["a", "b"]))), None, '+'), Some(strings(&["a", "b"])));
    assert_eq!(extract_tags(Some(None), Some(strings(&["+a"])), '+'), None);
}

#[test]
fn marked_specifications() {
    assert_eq!(
        extract_tags(None, Some(strings(&["+foo", "-bar", "+", "baz", "+ä"])), '+'),
        Some(strings(&["foo", "", "ä"]))
    );
    assert_eq!(extract_tags(None, None, '+'), None);
}

#[test]
fn add_and_remove_tags() {
    assert_eq!(get_add_tags(None, Some(strings(&["+x", "-y"])), None), Some(strings(&["x"])));
    assert_eq!(get_add_tags(None, None, Some(strings(&["z"]))), Some(strings(&["z"])));
    // Removal reads the specifications marked with `+` as well.
    assert_eq!(get_remove_tags(None, Some(strings(&["+x", "-y"])), None), Some(strings(&["x"])));
    assert_eq!(get_remove_tags(None, None, Some(strings(&["w"]))), Some(strings(&["w"])));
    assert_eq!(get_remove_tags(None, None, None), None);
}

#[test]
fn listing_forms() {
    let tags = strings(&["a", "b", "c"]);
    assert_eq!(list(&tags, false, None, false), strings(&["a, b, c"]));
    assert_eq!(list(&tags, true, None, false), strings(&["a", "b", "c"]));
    assert_eq!(list(&tags, false, Some(";"), false), strings(&["a;b;c"]));
    assert_eq!(list(&tags, true, Some("|"), true), strings(&["a", "b", "c", "a|b|c", "a, b, c"]));
    assert_eq!(list(&vec![], false, None, false), strings(&[""]));
}
