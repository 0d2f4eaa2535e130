//! Access to TOML documents (entry headers, configuration files).
//!
//! A document is a `toml::Value`; what it holds is modelled by `SToml`
//! (`toml_model`). Paths are resolved with `toml_query`, whose result is
//! named over that model (`toml_query_read`); the paths on which
//! `toml_query` would panic are answered with an error by `read_checked`
//! before it is called.

use vstd::prelude::*;
use toml_query::read::{TomlValueReadExt, TomlValueReadTypeExt};

verus! {

#[verifier::external_type_specification]
#[verifier::external_body]
pub struct ExTomlValue(toml::Value);

#[verifier::external_type_specification]
#[verifier::external_body]
#[verifier::reject_recursive_types(K)]
#[verifier::reject_recursive_types(V)]
pub struct ExTomlMap<K, V>(toml::map::Map<K, V>);

/// Shallow, plain-value description of a TOML value: what the logic of the
/// library reads from a header or configuration value.
#[derive(Debug, PartialEq, Eq)]
pub enum ValueShape {
    Boolean(bool),
    Integer(i64),
    String(String),
    /// An array, with its number of elements.
    Array(usize),
    /// A table, with its number of entries.
    Table(usize),
    Float,
    Datetime,
}

/// Failure of a path lookup in a TOML document.
#[derive(Debug, Clone, Copy, PartialEq, Eq)]
pub enum ReadError {
    /// The path could not be resolved (malformed path, indexing a
    /// non-array, ...).
    Lookup,
}

/// Mathematical model of a TOML value: what a document holds, with the
/// entries of a table in the table's order (by key). Floats and datetimes
/// are only told apart by their kind.
pub enum SToml {
    Boolean(bool),
    Integer(i64),
    Str(Seq<char>),
    Array(Seq<SToml>),
    Table(Seq<(Seq<char>, SToml)>),
    Float,
    Datetime,
}

/// What a `toml::Value` holds.
pub uninterp spec fn toml_model(v: toml::Value) -> SToml;

/// The entries of a `toml::map::Map`, in its order.
pub uninterp spec fn table_model(t: toml::map::Map<String, toml::Value>) -> Seq<(Seq<char>, SToml)>;

/// What `toml_query`'s `read` gives for `path` in a document holding `doc`:
/// `Some(Some(v))` for a value found, `Some(None)` where a table lacks a
/// key on the way, `None` for an error.
pub uninterp spec fn toml_query_read(doc: SToml, path: Seq<char>) -> Option<Option<SToml>>;

/// The model of a read's outcome.
pub open spec fn read_outcome(res: Result<Option<&toml::Value>, ReadError>) -> Option<Option<SToml>> {
    match res {
        Ok(Some(v)) => Some(Some(toml_model(*v))),
        Ok(None) => Some(None),
        Err(_) => None,
    }
}

pub open spec fn is_ascii_digit(c: char) -> bool {
    '0' <= c && c <= '9'
}

/// The number written by the decimal digits `ds`.
pub open spec fn digits_value(ds: Seq<char>) -> nat
    decreases ds.len(),
{
    if ds.len() == 0 {
        0
    } else {
        digits_value(ds.drop_last()) * 10 + ((ds.last() as int - '0' as int) as nat)
    }
}

/// `p[i..j]` is one whole segment of the dot-separated path `p`.
pub open spec fn segment_at(p: Seq<char>, i: int, j: int) -> bool {
    &&& 0 <= i <= j <= p.len()
    &&& i == 0 || p[i - 1] == '.'
    &&& j == p.len() || p[j] == '.'
    &&& forall|t: int| i <= t < j ==> p[t] != '.'
}

/// A segment written as an array index (`[` ... `]`) holds a decimal
/// number that fits in `usize`; other segments are keys.
pub open spec fn index_segment_ok(s: Seq<char>) -> bool {
    s.len() >= 2 && s[0] == '[' && s[s.len() - 1] == ']' ==> {
        let inner = s.subrange(1, s.len() - 1);
        &&& inner.len() > 0
        &&& forall|t: int| 0 <= t < inner.len() ==> is_ascii_digit(#[trigger] inner[t])
        &&& digits_value(inner) <= usize::MAX
    }
}

/// Every index segment of `p` is a decimal number that fits in `usize`.
/// `toml_query` fails on a bracketed segment that holds anything else, and
/// panics on one whose digits are not ASCII or do not fit.
pub open spec fn index_segments_ok(p: Seq<char>) -> bool {
    forall|i: int, j: int| #[trigger] segment_at(p, i, j) ==> index_segment_ok(p.subrange(i, j))
}

/// Every proper prefix of `p` that ends before a dot reads without error.
/// Where one of them fails, so does the whole path, or `toml_query` panics
/// (an index past the end of an array that is not the last segment).
pub open spec fn prefixes_read(doc: SToml, p: Seq<char>) -> bool {
    forall|k: int| 0 <= k < p.len() && p[k] == '.' ==> #[trigger] toml_query_read(doc, p.take(k)) is Some
}

/// What reading `path` in `doc` gives, with the paths on which `toml_query`
/// would panic answered by an error.
pub open spec fn spec_read(doc: SToml, path: Seq<char>) -> Option<Option<SToml>> {
    if index_segments_ok(path) && prefixes_read(doc, path) {
        toml_query_read(doc, path)
    } else {
        None
    }
}

/// `toml_query::read::TomlValueReadExt::read`: resolves the dot-separated
/// `path` in `doc`. The result is named by `toml_query_read`: the value
/// found, `None` where a table lacks the key, an error where the path is
/// malformed or runs through a value of the wrong kind.
///
/// `toml_query` panics on an index segment whose digits are not ASCII or do
/// not fit in `usize` (its tokenizer unwraps the number parse), and on an
/// index past the end of an array that is not the last segment (its
/// resolver unwraps the element); the `requires` leaves both out.
#[verifier::external_body]
pub(crate) fn read_path<'a>(doc: &'a toml::Value, path: &str) -> (res: Result<Option<&'a toml::Value>, ReadError>)
    requires
        index_segments_ok(path@),
        prefixes_read(toml_model(*doc), path@),
    ensures
        read_outcome(res) == toml_query_read(toml_model(*doc), path@),
{
    match doc.read(path) {
        Ok(v) => Ok(v),
        Err(_) => Err(ReadError::Lookup),
    }
}

/// `toml_query::read::TomlValueReadTypeExt::read_string`: `read`, then the
/// string found; `None` where nothing is found; an error where `read`
/// fails or finds a value of another kind.
#[verifier::external_body]
pub(crate) fn read_string_path(doc: &toml::Value, path: &str) -> (res: Result<Option<String>, ReadError>)
    requires
        index_segments_ok(path@),
        prefixes_read(toml_model(*doc), path@),
    ensures
        match res {
            Ok(Some(s)) => toml_query_read(toml_model(*doc), path@) == Some(Some(SToml::Str(s@))),
            Ok(None) => toml_query_read(toml_model(*doc), path@) == Some(None::<SToml>),
            Err(_) => match toml_query_read(toml_model(*doc), path@) {
                Some(Some(SToml::Str(_))) => false,
                Some(None) => false,
                _ => true,
            },
        },
{
    match doc.read_string(path) {
        Ok(v) => Ok(v),
        Err(_) => Err(ReadError::Lookup),
    }
}

/// Whether the index segments of `cs` are all ASCII decimal numbers that
/// fit in `usize`.
fn check_index_segments(cs: &Vec<char>) -> (ok: bool)
    ensures
        ok == index_segments_ok(cs@),
{
    let n = cs.len();
    let mut start: usize = 0;
    let mut i: usize = 0;
    while i <= n
        invariant
            n == cs.len(),
            start <= i <= n,
            start == 0 || cs@[start - 1] == '.',
            forall|t: int| start <= t < i && t < n ==> cs@[t] != '.',
            forall|a: int, b: int| #[trigger] segment_at(cs@, a, b) && b < start ==> index_segment_ok(cs@.subrange(a, b)),
        decreases n + 1 - i,
    {
        if i == n || cs[i] == '.' {
            if !segment_ok(cs, start, i) {
                assert(segment_at(cs@, start as int, i as int));
                return false;
            }
            proof {
                assert forall|a: int, b: int| #[trigger] segment_at(cs@, a, b) && b < i + 1 implies index_segment_ok(cs@.subrange(a, b)) by {
                    if b >= start {
                        lemma_segment_unique(cs@, a, b, start as int, i as int);
                    }
                }
            }
            if i == n {
                assert forall|a: int, b: int| #[trigger] segment_at(cs@, a, b) implies index_segment_ok(cs@.subrange(a, b)) by {
                    assert(b < i + 1);
                }
                return true;
            }
            start = i + 1;
        }
        i = i + 1;
    }
    true
}

/// Two whole segments that overlap, or end at the same place, are the same.
proof fn lemma_segment_unique(p: Seq<char>, a: int, b: int, c: int, d: int)
    requires
        segment_at(p, a, b),
        segment_at(p, c, d),
        c <= b <= d,
    ensures
        a == c && b == d,
{
    if b < d {
        assert(p[b] == '.');
        assert(p[b] != '.');
    }
    if a < c {
        assert(p[c - 1] == '.');
        assert(p[c - 1] != '.');
    }
    if c < a {
        assert(p[a - 1] == '.');
        assert(p[a - 1] != '.');
    }
}

/// Whether the segment `cs[start..end]` is a key or an index that fits.
fn segment_ok(cs: &Vec<char>, start: usize, end: usize) -> (ok: bool)
    requires
        start <= end <= cs.len(),
    ensures
        ok == index_segment_ok(cs@.subrange(start as int, end as int)),
{
    let ghost s = cs@.subrange(start as int, end as int);
    if end - start < 2 || cs[start] != '[' || cs[end - 1] != ']' {
        return true;
    }
    let ghost inner = s.subrange(1, s.len() - 1);
    assert(s.len() >= 2 && s[0] == '[' && s[s.len() - 1] == ']');
    if end - start == 2 {
        return false;
    }
    let mut acc: usize = 0;
    let mut k: usize = start + 1;
    while k < end - 1
        invariant
            start + 1 <= k <= end - 1,
            end <= cs.len(),
            s == cs@.subrange(start as int, end as int),
            inner == s.subrange(1, s.len() - 1),
            s.len() >= 2 && s[0] == '[' && s[s.len() - 1] == ']',
            forall|t: int| 0 <= t < k - start - 1 ==> is_ascii_digit(#[trigger] inner[t]),
            acc == digits_value(inner.take(k - start - 1)),
        decreases end - 1 - k,
    {
        let c = cs[k];
        assert(c == inner[k - start - 1]);
        if !('0' <= c && c <= '9') {
            assert(!is_ascii_digit(inner[k - start - 1]));
            return false;
        }
        let d = (c as u32 - '0' as u32) as usize;
        assert(inner.take(k - start).drop_last() =~= inner.take(k - start - 1));
        assert(inner.take(k - start).last() == c);
        assert(digits_value(inner.take(k - start)) == acc * 10 + d);
        let m = match acc.checked_mul(10) {
            Some(m) => m,
            None => {
                proof { lemma_digits_grow(inner, (k - start) as nat); }
                return false;
            },
        };
        acc = match m.checked_add(d) {
            Some(a) => a,
            None => {
                proof { lemma_digits_grow(inner, (k - start) as nat); }
                return false;
            },
        };
        k = k + 1;
    }
    assert(inner.take(inner.len() as int) =~= inner);
    true
}

/// The number written by a longer run of digits is at least that of a
/// shorter one.
proof fn lemma_digits_grow(ds: Seq<char>, k: nat)
    requires
        k <= ds.len(),
    ensures
        digits_value(ds) >= digits_value(ds.take(k as int)),
    decreases ds.len(),
{
    if k < ds.len() {
        assert(ds.drop_last().take(k as int) =~= ds.take(k as int));
        lemma_digits_grow(ds.drop_last(), k);
        assert(digits_value(ds) >= digits_value(ds.drop_last())) by (nonlinear_arith)
            requires
                digits_value(ds) == digits_value(ds.drop_last()) * 10 + ((ds.last() as int - '0' as int) as nat),
        ;
    } else {
        assert(ds.take(k as int) =~= ds);
    }
}

/// Reads `path` in `doc` as `toml_query` does, answering with an error the
/// paths on which `toml_query` would panic: first the index segments are
/// checked, then every prefix before a dot is read, in order.
pub fn read_checked<'a>(doc: &'a toml::Value, path: &str) -> (res: Result<Option<&'a toml::Value>, ReadError>)
    ensures
        read_outcome(res) == spec_read(toml_model(*doc), path@),
{
    let cs = crate::text::chars_of(path);
    if !check_index_segments(&cs) {
        return Err(ReadError::Lookup);
    }
    if !check_prefixes(doc, path, &cs) {
        return Err(ReadError::Lookup);
    }
    read_path(doc, path)
}

/// What reading the string at `path` in `doc` gives: the string, `None`
/// where nothing is there, an error where the read fails or finds another
/// kind of value.
pub open spec fn spec_read_string(doc: SToml, path: Seq<char>) -> Option<Option<Seq<char>>> {
    match spec_read(doc, path) {
        Some(Some(SToml::Str(s))) => Some(Some(s)),
        Some(None) => Some(None),
        _ => None,
    }
}

/// Reads the string at `path` in `doc` as `toml_query` does, answering with
/// an error the paths on which `toml_query` would panic.
pub fn read_string_checked(doc: &toml::Value, path: &str) -> (res: Result<Option<String>, ReadError>)
    ensures
        match res {
            Ok(Some(s)) => spec_read_string(toml_model(*doc), path@) == Some(Some(s@)),
            Ok(None) => spec_read_string(toml_model(*doc), path@) == Some(None::<Seq<char>>),
            Err(_) => spec_read_string(toml_model(*doc), path@) is None,
        },
{
    let cs = crate::text::chars_of(path);
    if !check_index_segments(&cs) {
        return Err(ReadError::Lookup);
    }
    if !check_prefixes(doc, path, &cs) {
        return Err(ReadError::Lookup);
    }
    read_string_path(doc, path)
}

/// Whether every prefix of `path` before a dot reads without error.
fn check_prefixes(doc: &toml::Value, path: &str, cs: &Vec<char>) -> (ok: bool)
    requires
        cs@ == path@,
        index_segments_ok(path@),
    ensures
        ok == prefixes_read(toml_model(*doc), path@),
{
    let n = cs.len();
    let mut k: usize = 0;
    while k < n
        invariant
            n == cs.len(),
            cs@ == path@,
            k <= n,
            index_segments_ok(path@),
            forall|j: int| 0 <= j < k && path@[j] == '.' ==> #[trigger] toml_query_read(toml_model(*doc), path@.take(j)) is Some,
        decreases n - k,
    {
        if cs[k] == '.' {
            let prefix = path.substring_char(0, k);
            proof {
                lemma_prefix_segments(path@, k as int);
                assert(prefix@ == path@.take(k as int));
                assert forall|j: int| 0 <= j < prefix@.len() && prefix@[j] == '.' implies #[trigger] toml_query_read(toml_model(*doc), prefix@.take(j)) is Some by {
                    assert(prefix@.take(j) =~= path@.take(j));
                }
            }
            match read_path(doc, prefix) {
                Ok(_) => {},
                Err(_) => {
                    return false;
                },
            }
        }
        k = k + 1;
    }
    true
}

/// The index segments of a prefix ending before a dot are index segments of
/// the whole path.
proof fn lemma_prefix_segments(p: Seq<char>, k: int)
    requires
        index_segments_ok(p),
        0 <= k < p.len(),
        p[k] == '.',
    ensures
        index_segments_ok(p.take(k)),
{
    let q = p.take(k);
    assert forall|i: int, j: int| #[trigger] segment_at(q, i, j) implies index_segment_ok(q.subrange(i, j)) by {
        assert(forall|t: int| i <= t < j ==> q[t] == p[t]);
        if j < k {
            assert(q[j] == p[j]);
        }
        if i > 0 {
            assert(q[i - 1] == p[i - 1]);
        }
        assert(segment_at(p, i, j));
        assert(q.subrange(i, j) =~= p.subrange(i, j));
    }
}

/// Mathematical view of a [`ValueShape`].
pub enum SValueShape {
    Boolean(bool),
    Integer(i64),
    String(Seq<char>),
    Array(usize),
    Table(usize),
    Float,
    Datetime,
}

impl View for ValueShape {
    type V = SValueShape;

    open spec fn view(&self) -> SValueShape {
        match self {
            ValueShape::Boolean(b) => SValueShape::Boolean(*b),
            ValueShape::Integer(i) => SValueShape::Integer(*i),
            ValueShape::String(s) => SValueShape::String(s@),
            ValueShape::Array(n) => SValueShape::Array(*n),
            ValueShape::Table(n) => SValueShape::Table(*n),
            ValueShape::Float => SValueShape::Float,
            ValueShape::Datetime => SValueShape::Datetime,
        }
    }
}

/// The variant of a `toml::Value`, with its payload by reference.
pub(crate) enum TomlRef<'a> {
    Boolean(bool),
    Integer(i64),
    String(&'a String),
    Array(&'a Vec<toml::Value>),
    Table(&'a toml::map::Map<String, toml::Value>),
    Float,
    Datetime,
}

/// `toml::Value`'s variants: tells them apart, handing on the payload.
/// Each variant's payload is what the model of the value holds.
#[verifier::external_body]
pub(crate) fn classify<'a>(v: &'a toml::Value) -> (res: TomlRef<'a>)
    ensures
        match res {
            TomlRef::Boolean(b) => toml_model(*v) == SToml::Boolean(b),
            TomlRef::Integer(i) => toml_model(*v) == SToml::Integer(i),
            TomlRef::String(s) => toml_model(*v) == SToml::Str(s@),
            TomlRef::Array(a) => toml_model(*v) == SToml::Array(
                a@.map_values(|x: toml::Value| toml_model(x)),
            ),
            TomlRef::Table(t) => toml_model(*v) == SToml::Table(table_model(*t)),
            TomlRef::Float => toml_model(*v) == SToml::Float,
            TomlRef::Datetime => toml_model(*v) == SToml::Datetime,
        },
{
    match v {
        toml::Value::Boolean(b) => TomlRef::Boolean(*b),
        toml::Value::Integer(i) => TomlRef::Integer(*i),
        toml::Value::String(s) => TomlRef::String(s),
        toml::Value::Array(a) => TomlRef::Array(a),
        toml::Value::Table(t) => TomlRef::Table(t),
        toml::Value::Float(_) => TomlRef::Float,
        toml::Value::Datetime(_) => TomlRef::Datetime,
    }
}

/// `toml::map::Map::len`: the number of entries of a table.
#[verifier::external_body]
pub(crate) fn table_len(t: &toml::map::Map<String, toml::Value>) -> (res: usize)
    ensures
        res == table_model(*t).len(),
{
    t.len()
}

/// `toml::map::Map::iter`: the entries of a table, in the table's order.
#[verifier::external_body]
pub(crate) fn table_iter<'a>(t: &'a toml::map::Map<String, toml::Value>) -> (res: Vec<(&'a String, &'a toml::Value)>)
    ensures
        res@.len() == table_model(*t).len(),
        forall|i: int|
            0 <= i < res@.len() ==> (#[trigger] res@[i]).0@ == table_model(*t)[i].0 && toml_model(
                *res@[i].1,
            ) == table_model(*t)[i].1,
{
    t.iter().collect()
}

/// The shape of a modelled value.
pub open spec fn shape_model(v: SToml) -> SValueShape {
    match v {
        SToml::Boolean(b) => SValueShape::Boolean(b),
        SToml::Integer(i) => SValueShape::Integer(i),
        SToml::Str(s) => SValueShape::String(s),
        SToml::Array(a) => SValueShape::Array(a.len() as usize),
        SToml::Table(t) => SValueShape::Table(t.len() as usize),
        SToml::Float => SValueShape::Float,
        SToml::Datetime => SValueShape::Datetime,
    }
}

/// The shape of what a read found.
pub open spec fn found_shape_model(r: Option<SToml>) -> Option<SValueShape> {
    match r {
        Some(v) => Some(shape_model(v)),
        None => None,
    }
}

/// Describes a `toml::Value` by its variant and its plain payload (for an
/// array or a table, its number of elements).
pub fn shape_of(v: &toml::Value) -> (res: ValueShape)
    ensures
        res@ == shape_model(toml_model(*v)),
{
    match classify(v) {
        TomlRef::Boolean(b) => ValueShape::Boolean(b),
        TomlRef::Integer(i) => ValueShape::Integer(i),
        TomlRef::String(s) => ValueShape::String(s.clone()),
        TomlRef::Array(a) => ValueShape::Array(a.len()),
        TomlRef::Table(t) => ValueShape::Table(table_len(t)),
        TomlRef::Float => ValueShape::Float,
        TomlRef::Datetime => ValueShape::Datetime,
    }
}

/// `std::str::from_utf8`: the bytes as a string slice when they are valid
/// UTF-8, as its documentation states; `None` otherwise.
#[verifier::external_body]
pub(crate) fn utf8_str(b: &[u8]) -> (res: Option<&str>)
    ensures
        res is Some <==> vstd::utf8::valid_utf8(b@),
        res matches Some(s) ==> vstd::utf8::encode_utf8(s@) == b@,
{
    std::str::from_utf8(b).ok()
}


/// The entries of a modelled table, its keys and values; `None` for a value
/// that is not a table.
pub open spec fn entries_model(v: SToml) -> Option<Seq<(Seq<char>, SToml)>> {
    match v {
        SToml::Table(t) => Some(t),
        _ => None,
    }
}

/// The entries of a table, in the table's order; `None` for a value that is
/// not a table.
pub fn table_entries<'a>(v: &'a toml::Value) -> (res: Option<Vec<(String, &'a toml::Value)>>)
    ensures
        match (res, entries_model(toml_model(*v))) {
            (Some(es), Some(t)) => es@.len() == t.len() && forall|i: int|
                0 <= i < t.len() ==> (#[trigger] es@[i]).0@ == t[i].0 && toml_model(*es@[i].1)
                    == t[i].1,
            (None, None) => true,
            _ => false,
        },
{
    match classify(v) {
        TomlRef::Table(t) => {
            let entries = table_iter(t);
            let ghost tm = table_model(*t);
            let mut res: Vec<(String, &'a toml::Value)> = Vec::new();
            let mut k: usize = 0;
            while k < entries.len()
                invariant
                    k <= entries@.len(),
                    entries@.len() == tm.len(),
                    forall|i: int|
                        0 <= i < entries@.len() ==> (#[trigger] entries@[i]).0@ == tm[i].0
                            && toml_model(*entries@[i].1) == tm[i].1,
                    res@.len() == k,
                    forall|i: int|
                        0 <= i < k ==> (#[trigger] res@[i]).0@ == tm[i].0 && toml_model(*res@[i].1)
                            == tm[i].1,
                decreases entries.len() - k,
            {
                let (key, value) = entries[k];
                assert(entries@[k as int].0@ == tm[k as int].0);
                res.push((key.clone(), value));
                k = k + 1;
            }
            Some(res)
        },
        _ => None,
    }
}

/// The elements of a modelled array; `None` for a value that is not an
/// array.
pub open spec fn items_model(v: SToml) -> Option<Seq<SToml>> {
    match v {
        SToml::Array(a) => Some(a),
        _ => None,
    }
}

/// The elements of an array, in order; `None` for a value that is not an
/// array.
pub fn array_items<'a>(v: &'a toml::Value) -> (res: Option<Vec<&'a toml::Value>>)
    ensures
        match (res, items_model(toml_model(*v))) {
            (Some(xs), Some(a)) => xs@.len() == a.len() && forall|i: int|
                0 <= i < a.len() ==> toml_model(*(#[trigger] xs@[i])) == a[i],
            (None, None) => true,
            _ => false,
        },
{
    match classify(v) {
        TomlRef::Array(a) => {
            let ghost items = a@.map_values(|x: toml::Value| toml_model(x));
            let mut res: Vec<&'a toml::Value> = Vec::new();
            let mut k: usize = 0;
            while k < a.len()
                invariant
                    k <= a@.len(),
                    items == a@.map_values(|x: toml::Value| toml_model(x)),
                    res@.len() == k,
                    forall|i: int| 0 <= i < k ==> toml_model(*(#[trigger] res@[i])) == items[i],
                decreases a.len() - k,
            {
                res.push(&a[k]);
                k = k + 1;
            }
            Some(res)
        },
        _ => None,
    }
}

} // verus!
