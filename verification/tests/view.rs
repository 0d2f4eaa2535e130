use imag::view::build_seperator;

#[test]
fn separator_fills_the_width() {
    assert_eq!(build_seperator("-", 5), "-----");
    assert_eq!(build_seperator("=-", 5), "=-=-");
    assert_eq!(build_seperator("ab", 1), "");
    // Widths count bytes: `ä` takes two.
    assert_eq!(build_seperator("ä", 5), "ää");
    assert_eq!(build_seperator("-", 80).len(), 80);
}
