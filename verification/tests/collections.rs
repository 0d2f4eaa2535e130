use imag::collections::IsInCollectionsFilter;

fn id(parts: &[&str]) -> Vec<Option<String>> {
    parts.iter().map(|p| Some(p.to_string())).collect()
}

#[test]
fn no_collections_accept_everything() {
    let f = IsInCollectionsFilter::new(None);
    assert!(f.filter(&id(&["notes", "a"])));
}

#[test]
fn collections_are_matched_as_a_prefix() {
    let f = IsInCollectionsFilter::new(Some(vec!["notes".to_string()]));
    assert!(f.filter(&id(&["notes", "a"])));
    assert!(!f.filter(&id(&["diary", "a"])));
    let f = IsInCollectionsFilter::new(Some(vec!["diary".to_string(), "work".to_string()]));
    assert!(f.filter(&id(&["diary", "work", "2018"])));
    assert!(!f.filter(&id(&["diary", "home", "2018"])));
    // Only the components that are there are compared.
    assert!(f.filter(&id(&["diary"])));
}

#[test]
fn a_component_that_is_not_a_name_never_matches() {
    let f = IsInCollectionsFilter::new(Some(vec!["notes".to_string()]));
    assert!(!f.filter(&vec![None, Some("notes".to_string())]));
}
