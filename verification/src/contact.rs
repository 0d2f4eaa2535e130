//! Contacts: which ones `find` selects, and the data object a contact is
//! rendered from.

use vstd::prelude::*;
use crate::text::{
    chars_of, chars_occur_at, join, joined, occurs_at, push_char, texts_view,
};

verus! {

// ---------------------------------------------------------------------------
// `find`
// ---------------------------------------------------------------------------

/// `w` occurs somewhere in `s` (the empty text occurs everywhere).
pub open spec fn contains(s: Seq<char>, w: Seq<char>) -> bool {
    exists|i: int| occurs_at(s, w, i)
}

/// One of `needles` occurs in `s`.
pub open spec fn contains_any(s: Seq<char>, needles: Seq<Seq<char>>) -> bool {
    exists|k: int| 0 <= k < needles.len() && contains(s, #[trigger] needles[k])
}

/// One of `needles` occurs in one of `texts`.
pub open spec fn any_contains_any(texts: Seq<Seq<char>>, needles: Seq<Seq<char>>) -> bool {
    exists|k: int| 0 <= k < texts.len() && contains_any(#[trigger] texts[k], needles)
}

/// Whether `w` occurs in `s`.
pub fn str_contains(s: &str, w: &str) -> (res: bool)
    ensures
        res == contains(s@, w@),
{
    let cs = chars_of(s);
    let ws = chars_of(w);
    if ws.len() > cs.len() {
        proof {
            assert forall|i: int| !occurs_at(s@, w@, i) by {}
        }
        return false;
    }
    let last = cs.len() - ws.len();
    let mut i: usize = 0;
    loop
        invariant
            cs@ == s@,
            ws@ == w@,
            last == cs.len() - ws.len(),
            i <= last,
            forall|j: int| 0 <= j < i ==> !occurs_at(s@, w@, j),
        ensures
            forall|j: int| 0 <= j <= last ==> !occurs_at(s@, w@, j),
        decreases last - i,
    {
        if chars_occur_at(&cs, &ws, i) {
            return true;
        }
        if i == last {
            break;
        }
        i = i + 1;
    }
    proof {
        assert forall|j: int| !occurs_at(s@, w@, j) by {
            if 0 <= j <= last {
            }
        }
    }
    false
}

/// Whether one of `needles` occurs in `s`.
pub fn str_contains_any(s: &String, needles: &Vec<String>) -> (res: bool)
    ensures
        res == contains_any(s@, texts_view(needles@)),
{
    let mut k: usize = 0;
    while k < needles.len()
        invariant
            k <= needles.len(),
            forall|j: int| 0 <= j < k ==> !contains(s@, #[trigger] texts_view(needles@)[j]),
        decreases needles.len() - k,
    {
        if str_contains(s.as_str(), needles[k].as_str()) {
            assert(texts_view(needles@)[k as int] == needles@[k as int]@);
            return true;
        }
        k = k + 1;
    }
    false
}

fn any_text_contains_any(texts: &Vec<String>, needles: &Vec<String>) -> (res: bool)
    ensures
        res == any_contains_any(texts_view(texts@), texts_view(needles@)),
{
    let mut k: usize = 0;
    while k < texts.len()
        invariant
            k <= texts.len(),
            forall|j: int|
                0 <= j < k ==> !contains_any(#[trigger] texts_view(texts@)[j], texts_view(needles@)),
        decreases texts.len() - k,
    {
        if str_contains_any(&texts[k], needles) {
            assert(texts_view(texts@)[k as int] == texts@[k as int]@);
            return true;
        }
        k = k + 1;
    }
    false
}

/// Whether `find` selects a contact: one of the searched texts occurs in
/// one of its addresses, e-mail addresses or full names.
pub fn contact_matches(
    addresses: &Vec<String>,
    emails: &Vec<String>,
    fullnames: &Vec<String>,
    grep: &Vec<String>,
) -> (res: bool)
    ensures
        res == (any_contains_any(texts_view(addresses@), texts_view(grep@)) || any_contains_any(
            texts_view(emails@),
            texts_view(grep@),
        ) || any_contains_any(texts_view(fullnames@), texts_view(grep@))),
{
    any_text_contains_any(addresses, grep) || any_text_contains_any(emails, grep)
        || any_text_contains_any(fullnames, grep)
}

// ---------------------------------------------------------------------------
// The data object of a contact
// ---------------------------------------------------------------------------

/// The properties of a contact that its data object shows, by their raw
/// values: a property that may occur several times as the list of its
/// values, one that occurs at most once as an option.
#[derive(Debug, Clone, PartialEq, Eq)]
pub struct Vcard {
    /// `ADR`.
    pub adr: Vec<String>,
    /// `ANNIVERSARY`.
    pub anniversary: Option<String>,
    /// `BDAY`.
    pub bday: Option<String>,
    /// `CATEGORIES`.
    pub categories: Vec<String>,
    /// `CLIENTPIDMAP`.
    pub clientpidmap: Option<String>,
    /// `EMAIL`.
    pub email: Vec<String>,
    /// `FN`.
    pub fullname: Vec<String>,
    /// `GENDER`.
    pub gender: Option<String>,
    /// `GEO`.
    pub geo: Vec<String>,
    /// `IMPP`.
    pub impp: Vec<String>,
    /// `KEY`.
    pub key: Vec<String>,
    /// `LANG`.
    pub lang: Vec<String>,
    /// `LOGO`.
    pub logo: Vec<String>,
    /// `MEMBER`.
    pub member: Vec<String>,
    /// `N`.
    pub name: Option<String>,
    /// `NICKNAME`.
    pub nickname: Vec<String>,
    /// `NOTE`.
    pub note: Vec<String>,
    /// `ORG`.
    pub org: Vec<String>,
    /// `PHOTO`.
    pub photo: Vec<String>,
    /// `PROID` (written under the key `PRIOD`).
    pub proid: Option<String>,
    /// `RELATED`.
    pub related: Vec<String>,
    /// `REV`.
    pub rev: Option<String>,
    /// `ROLE`.
    pub role: Vec<String>,
    /// `SOUND`.
    pub sound: Vec<String>,
    /// `TEL`.
    pub tel: Vec<String>,
    /// `TITLE`.
    pub title: Vec<String>,
    /// `TZ`.
    pub tz: Vec<String>,
    /// `UID`.
    pub uid: Option<String>,
    /// `URL`.
    pub url: Vec<String>,
    /// `VERSION`.
    pub version: Option<String>,
}

/// Whether `find` selects the contact `v`: one of the searched texts occurs
/// in one of its addresses, e-mail addresses or full names.
pub open spec fn spec_selected(v: Vcard, grep: Seq<Seq<char>>) -> bool {
    any_contains_any(texts_view(v.adr@), grep) || any_contains_any(texts_view(v.email@), grep)
        || any_contains_any(texts_view(v.fullname@), grep)
}

/// The positions of the contacts `find` selects, in order.
pub open spec fn spec_found(cards: Seq<Vcard>, grep: Seq<Seq<char>>) -> Seq<usize> {
    Seq::new(cards.len(), |i: int| i as usize).filter(|i: usize| spec_selected(cards[i as int], grep))
}

/// The contacts `find` lists, as positions in `cards`, in order; each is
/// shown with its position in the result as its number.
pub fn find_contacts(cards: &Vec<Vcard>, grep: &Vec<String>) -> (res: Vec<usize>)
    ensures
        res@ == spec_found(cards@, texts_view(grep@)),
{
    let ghost g = texts_view(grep@);
    let ghost all = Seq::new(cards@.len(), |i: int| i as usize);
    let ghost p = |i: usize| spec_selected(cards@[i as int], g);
    let mut res: Vec<usize> = Vec::new();
    let mut k: usize = 0;
    while k < cards.len()
        invariant
            k <= cards.len(),
            g == texts_view(grep@),
            all == Seq::new(cards@.len(), |i: int| i as usize),
            p == (|i: usize| spec_selected(cards@[i as int], g)),
            res@ == all.take(k as int).filter(p),
        decreases cards.len() - k,
    {
        proof {
            assert(all.take(k + 1) == all.take(k as int).push(all[k as int]));
            all.take(k as int).lemma_filter_push(all[k as int], p);
        }
        let c = &cards[k];
        if contact_matches(&c.adr, &c.email, &c.fullname, grep) {
            res.push(k);
        }
        k = k + 1;
    }
    assert(all.take(cards.len() as int) =~= all);
    res
}

/// How the data object shows a property that may occur several times: its
/// values joined with `, ` (nothing where it does not occur).
pub open spec fn list_text(v: Vec<String>) -> Seq<char> {
    joined(texts_view(v@), ", "@)
}

/// How the data object shows a property that occurs at most once: its
/// value, or nothing.
pub open spec fn opt_text(o: Option<String>) -> Seq<char> {
    match o {
        Some(s) => s@,
        None => Seq::empty(),
    }
}

fn list_value(v: &Vec<String>) -> (res: String)
    ensures
        res@ == list_text(*v),
{
    join(v, ", ")
}

fn opt_value(o: &Option<String>) -> (res: String)
    ensures
        res@ == opt_text(*o),
{
    match o {
        Some(s) => s.clone(),
        None => String::new(),
    }
}

/// The decimal digit `d`.
pub open spec fn digit_char(d: nat) -> char {
    ('0' as nat + d) as char
}

/// The decimal notation of `n`, as `format!("{}", n)` writes it.
pub open spec fn decimal(n: nat) -> Seq<char>
    decreases n,
{
    if n < 10 {
        seq![digit_char(n)]
    } else {
        decimal(n / 10).push(digit_char(n % 10))
    }
}

fn digit(d: usize) -> (c: char)
    requires
        d < 10,
    ensures
        c == digit_char(d as nat),
{
    match d {
        0 => '0',
        1 => '1',
        2 => '2',
        3 => '3',
        4 => '4',
        5 => '5',
        6 => '6',
        7 => '7',
        8 => '8',
        _ => '9',
    }
}

/// The decimal notation of `n`.
pub fn decimal_string(n: usize) -> (res: String)
    ensures
        res@ == decimal(n as nat),
    decreases n,
{
    let c = digit(n % 10);
    if n < 10 {
        let mut s = String::new();
        push_char(&mut s, c);
        s
    } else {
        let mut s = decimal_string(n / 10);
        push_char(&mut s, c);
        s
    }
}

/// The data object of a contact, its entries in the order of their keys:
/// each property of the contact under its key, then `i` (its position in
/// the listing) and `id` (its hash).
pub open spec fn spec_data_object(i: nat, hash: Seq<char>, v: Vcard) -> Seq<(Seq<char>, Seq<char>)> {
    seq![
        ("ADR"@, list_text(v.adr)),
        ("ANNIVERSARY"@, opt_text(v.anniversary)),
        ("BDAY"@, opt_text(v.bday)),
        ("CATEGORIES"@, list_text(v.categories)),
        ("CLIENTPIDMAP"@, opt_text(v.clientpidmap)),
        ("EMAIL"@, list_text(v.email)),
        ("FN"@, list_text(v.fullname)),
        ("GENDER"@, opt_text(v.gender)),
        ("GEO"@, list_text(v.geo)),
        ("IMPP"@, list_text(v.impp)),
        ("KEY"@, list_text(v.key)),
        ("LANG"@, list_text(v.lang)),
        ("LOGO"@, list_text(v.logo)),
        ("MEMBER"@, list_text(v.member)),
        ("N"@, opt_text(v.name)),
        ("NICKNAME"@, list_text(v.nickname)),
        ("NOTE"@, list_text(v.note)),
        ("ORG"@, list_text(v.org)),
        ("PHOTO"@, list_text(v.photo)),
        ("PRIOD"@, opt_text(v.proid)),
        ("RELATED"@, list_text(v.related)),
        ("REV"@, opt_text(v.rev)),
        ("ROLE"@, list_text(v.role)),
        ("SOUND"@, list_text(v.sound)),
        ("TEL"@, list_text(v.tel)),
        ("TITLE"@, list_text(v.title)),
        ("TZ"@, list_text(v.tz)),
        ("UID"@, opt_text(v.uid)),
        ("URL"@, list_text(v.url)),
        ("VERSION"@, opt_text(v.version)),
        ("i"@, decimal(i)),
        ("id"@, hash),
    ]
}

pub open spec fn pairs_view(v: Seq<(String, String)>) -> Seq<(Seq<char>, Seq<char>)> {
    v.map_values(|p: (String, String)| (p.0@, p.1@))
}

/// The data object a contact is rendered from.
pub fn build_data_object_for_handlebars(i: usize, hash: String, vcard: &Vcard) -> (res: Vec<(String, String)>)
    ensures
        pairs_view(res@) == spec_data_object(i as nat, hash@, *vcard),
{
    let ghost h = hash@;
    let mut res: Vec<(String, String)> = Vec::new();
    res.push(("ADR".to_owned(), list_value(&vcard.adr)));
    res.push(("ANNIVERSARY".to_owned(), opt_value(&vcard.anniversary)));
    res.push(("BDAY".to_owned(), opt_value(&vcard.bday)));
    res.push(("CATEGORIES".to_owned(), list_value(&vcard.categories)));
    res.push(("CLIENTPIDMAP".to_owned(), opt_value(&vcard.clientpidmap)));
    res.push(("EMAIL".to_owned(), list_value(&vcard.email)));
    res.push(("FN".to_owned(), list_value(&vcard.fullname)));
    res.push(("GENDER".to_owned(), opt_value(&vcard.gender)));
    res.push(("GEO".to_owned(), list_value(&vcard.geo)));
    res.push(("IMPP".to_owned(), list_value(&vcard.impp)));
    res.push(("KEY".to_owned(), list_value(&vcard.key)));
    res.push(("LANG".to_owned(), list_value(&vcard.lang)));
    res.push(("LOGO".to_owned(), list_value(&vcard.logo)));
    res.push(("MEMBER".to_owned(), list_value(&vcard.member)));
    res.push(("N".to_owned(), opt_value(&vcard.name)));
    res.push(("NICKNAME".to_owned(), list_value(&vcard.nickname)));
    res.push(("NOTE".to_owned(), list_value(&vcard.note)));
    res.push(("ORG".to_owned(), list_value(&vcard.org)));
    res.push(("PHOTO".to_owned(), list_value(&vcard.photo)));
    res.push(("PRIOD".to_owned(), opt_value(&vcard.proid)));
    res.push(("RELATED".to_owned(), list_value(&vcard.related)));
    res.push(("REV".to_owned(), opt_value(&vcard.rev)));
    res.push(("ROLE".to_owned(), list_value(&vcard.role)));
    res.push(("SOUND".to_owned(), list_value(&vcard.sound)));
    res.push(("TEL".to_owned(), list_value(&vcard.tel)));
    res.push(("TITLE".to_owned(), list_value(&vcard.title)));
    res.push(("TZ".to_owned(), list_value(&vcard.tz)));
    res.push(("UID".to_owned(), opt_value(&vcard.uid)));
    res.push(("URL".to_owned(), list_value(&vcard.url)));
    res.push(("VERSION".to_owned(), opt_value(&vcard.version)));
    res.push(("i".to_owned(), decimal_string(i)));
    res.push(("id".to_owned(), hash));
    assert(pairs_view(res@) =~= spec_data_object(i as nat, h, *vcard));
    res
}

} // verus!
