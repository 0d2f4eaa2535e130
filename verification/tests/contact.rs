use imag::contact::{
    build_data_object_for_handlebars, contact_matches, decimal_string, str_contains, find_contacts, Vcard,
};
use imag::text::join;

fn strings(v: &[&str]) -> Vec<String> {
    v.iter().map(|s| s.to_string()).collect()
}

#[test]
fn containment() {
    assert!(str_contains("Max Mustermann", "Muster"));
    assert!(str_contains("abc", ""));
    assert!(!str_contains("abc", "abcd"));
    assert!(str_contains("Zürich", "ür"));
    assert!(!str_contains("Zurich", "ür"));
}

#[test]
fn find_looks_at_addresses_emails_and_names() {
    let grep = strings(&["example.org", "Berlin"]);
    assert!(contact_matches(&strings(&["Main St, Berlin"]), &vec![], &vec![], &grep));
    assert!(contact_matches(&vec![], &strings(&["max@example.org"]), &vec![], &grep));
    assert!(!contact_matches(
        &strings(&["Hamburg"]),
        &strings(&["max@example.com"]),
        &strings(&["Max"]),
        &grep
    ));
    assert!(!contact_matches(&strings(&["Berlin"]), &vec![], &vec![], &vec![]));
}

#[test]
fn joining() {
    assert_eq!(join(&vec![], ", "), "");
    assert_eq!(join(&strings(&["a"]), ", "), "a");
    assert_eq!(join(&strings(&["a", "b", "c"]), ", "), "a, b, c");
}

#[test]
fn decimal_notation() {
    assert_eq!(decimal_string(0), "0");
    assert_eq!(decimal_string(7), "7");
    assert_eq!(decimal_string(1024), "1024");
    assert_eq!(decimal_string(usize::MAX), format!("{}", usize::MAX));
}

fn empty_vcard() -> Vcard {
    Vcard {
        adr: vec![], anniversary: None, bday: None, categories: vec![], clientpidmap: None,
        email: vec![], fullname: vec![], gender: None, geo: vec![], impp: vec![], key: vec![],
        lang: vec![], logo: vec![], member: vec![], name: None, nickname: vec![], note: vec![],
        org: vec![], photo: vec![], proid: None, related: vec![], rev: None, role: vec![],
        sound: vec![], tel: vec![], title: vec![], tz: vec![], uid: None, url: vec![], version: None,
    }
}

#[test]
fn data_object_of_a_contact() {
    let mut v = empty_vcard();
    v.email = strings(&["a@b.c", "d@e.f"]);
    v.bday = Some("1990-01-01".to_string());
    v.proid = Some("-//x".to_string());
    v.fullname = strings(&["Ann"]);
    let data = build_data_object_for_handlebars(12, "hash".to_string(), &v);
    let keys: Vec<&str> = data.iter().map(|(k, _)| k.as_str()).collect();
    assert_eq!(
        keys,
        vec![
            "ADR", "ANNIVERSARY", "BDAY", "CATEGORIES", "CLIENTPIDMAP", "EMAIL", "FN", "GENDER",
            "GEO", "IMPP", "KEY", "LANG", "LOGO", "MEMBER", "N", "NICKNAME", "NOTE", "ORG",
            "PHOTO", "PRIOD", "RELATED", "REV", "ROLE", "SOUND", "TEL", "TITLE", "TZ", "UID",
            "URL", "VERSION", "i", "id",
        ]
    );
    let get = |k: &str| data.iter().find(|(n, _)| n == k).map(|(_, v)| v.clone()).unwrap();
    assert_eq!(get("i"), "12");
    assert_eq!(get("id"), "hash");
    assert_eq!(get("EMAIL"), "a@b.c, d@e.f");
    assert_eq!(get("BDAY"), "1990-01-01");
    assert_eq!(get("PRIOD"), "-//x");
    assert_eq!(get("FN"), "Ann");
    assert_eq!(get("GENDER"), "");
    assert_eq!(get("TEL"), "");
}

#[test]
fn find_lists_matching_contacts_in_order() {
    let mut a = empty_vcard();
    a.fullname = strings(&["Ann Smith"]);
    let mut b = empty_vcard();
    b.email = strings(&["bob@example.org"]);
    let mut c = empty_vcard();
    c.adr = strings(&["Smith Street 1"]);
    let cards = vec![a, b, c];
    assert_eq!(find_contacts(&cards, &strings(&["Smith"])), vec![0, 2]);
    assert_eq!(find_contacts(&cards, &strings(&["example", "nobody"])), vec![1]);
    assert_eq!(find_contacts(&cards, &strings(&["zzz"])), Vec::<usize>::new());
}
