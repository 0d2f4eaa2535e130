use imag::diagnostics::{store_version, summarize, Diagnostic};
use imag::toml_access::{ReadError, ValueShape};

fn diag(version: &str, sections: usize, content: usize, overall: usize, verified: bool, links: usize) -> Diagnostic {
    Diagnostic {
        id: "x".to_string(),
        entry_store_version: version.to_string(),
        header_sections: sections,
        bytecount_content: content,
        overall_byte_size: overall,
        verified,
        num_internal_links: links,
    }
}

#[test]
fn store_versions() {
    assert_eq!(store_version(Ok(Some(ValueShape::String("0.7.0".to_string())))), "0.7.0");
    assert_eq!(store_version(Ok(Some(ValueShape::Integer(7)))), "Non-String type in 'imag.version'");
    assert_eq!(store_version(Ok(None)), "No version");
    assert_eq!(store_version(Err(ReadError::Lookup)), "Error reading version");
}

#[test]
fn diagnostic_of_an_entry() {
    let h = "[imag]\nversion = \"0.7.0\"\n[other]\n".parse::<toml::Value>().unwrap();
    let d = Diagnostic::for_entry("diary/1".to_string(), &h, 10, 50, true, 2);
    assert_eq!(d.id, "diary/1");
    assert_eq!(d.entry_store_version, "0.7.0");
    assert_eq!(d.header_sections, 2);
    assert_eq!(d.bytecount_content, 10);
    assert_eq!(d.overall_byte_size, 50);
    assert!(d.verified);
    assert_eq!(d.num_internal_links, 2);
    let h = "foo = 1\n".parse::<toml::Value>().unwrap();
    let d = Diagnostic::for_entry("a".to_string(), &h, 0, 0, false, 0);
    assert_eq!(d.entry_store_version, "No version");
    assert_eq!(d.header_sections, 1);
    let h = "[imag]\nversion = 7\n".parse::<toml::Value>().unwrap();
    let d = Diagnostic::for_entry("b".to_string(), &h, 0, 0, false, 0);
    assert_eq!(d.entry_store_version, "Non-String type in 'imag.version'");
    let h = "imag = 3\n".parse::<toml::Value>().unwrap();
    let d = Diagnostic::for_entry("c".to_string(), &h, 0, 0, false, 0);
    assert_eq!(d.entry_store_version, "Error reading version");
}

#[test]
fn summary_over_entries() {
    let ds = vec![
        diag("0.7.0", 2, 10, 100, true, 3),
        diag("0.6.0", 1, 20, 50, false, 5),
        diag("0.7.0", 3, 30, 300, true, 5),
    ];
    let s = summarize(&ds);
    assert_eq!(s.entries, 3);
    assert_eq!(s.versions, vec!["0.7.0".to_string(), "0.6.0".to_string()]);
    assert_eq!(s.version_counts, vec![2, 1]);
    assert_eq!(s.version_counts.iter().sum::<usize>(), s.entries);
    assert_eq!(s.sum_header_sections, 6);
    assert_eq!(s.sum_bytecount_content, 60);
    assert_eq!(s.sum_overall_byte_size, 450);
    assert_eq!(s.sum_internal_links, 13);
    // The search for the largest entry starts from the first entry's link count.
    assert_eq!(s.largest, Some((300, 2)));
    assert_eq!(s.most_linked, Some((5, 1)));
    assert_eq!(s.verified_count, 2);
    assert_eq!(s.unverified_count, 1);
    assert_eq!(s.averages(), Some((2, 20, 150, 4)));
}

#[test]
fn largest_entry_search_starts_from_the_first_entrys_links() {
    let ds = vec![diag("v", 0, 0, 100, true, 500), diag("v", 0, 0, 200, true, 0)];
    let s = summarize(&ds);
    assert_eq!(s.largest, Some((500, 0)));
}

#[test]
fn summary_of_no_entries() {
    let s = summarize(&vec![]);
    assert_eq!(s.entries, 0);
    assert_eq!(s.largest, None);
    assert_eq!(s.most_linked, None);
    assert_eq!(s.averages(), None);
}
