//! Diagnostics of a store: what is reported of each entry, and the summary
//! over all entries.

use vstd::prelude::*;
use crate::text::str_eq;
use crate::toml_access::{
    ReadError, SToml, SValueShape, ValueShape, read_checked, shape_model, shape_of, spec_read,
    toml_model,
};

verus! {

/// What is reported of one entry.
pub struct Diagnostic {
    /// The id of the entry (its location in the store).
    pub id: String,
    /// The store version the entry was written with, or why it is unknown.
    pub entry_store_version: String,
    /// The number of sections of the header.
    pub header_sections: usize,
    /// The length of the content, in bytes.
    pub bytecount_content: usize,
    /// The length of the whole entry as stored, in bytes.
    pub overall_byte_size: usize,
    /// Whether the entry passes verification.
    pub verified: bool,
    /// The number of internal links of the entry.
    pub num_internal_links: usize,
}

/// The store version reported for an entry, given the outcome of reading
/// `imag.version` from its header.
pub open spec fn spec_store_version(found: Result<Option<SValueShape>, ReadError>) -> Seq<char> {
    match found {
        Ok(Some(SValueShape::String(s))) => s,
        Ok(Some(_)) => "Non-String type in 'imag.version'"@,
        Ok(None) => "No version"@,
        Err(_) => "Error reading version"@,
    }
}

pub open spec fn found_view(found: Result<Option<ValueShape>, ReadError>) -> Result<Option<SValueShape>, ReadError> {
    match found {
        Ok(Some(v)) => Ok(Some(v@)),
        Ok(None) => Ok(None),
        Err(e) => Err(e),
    }
}

/// The store version reported for an entry, given the outcome of reading
/// `imag.version` from its header.
pub fn store_version(found: Result<Option<ValueShape>, ReadError>) -> (res: String)
    ensures
        res@ == spec_store_version(found_view(found)),
{
    match found {
        Ok(Some(ValueShape::String(s))) => s,
        Ok(Some(_)) => "Non-String type in 'imag.version'".to_owned(),
        Ok(None) => "No version".to_owned(),
        Err(_) => "Error reading version".to_owned(),
    }
}

/// The number of sections of a header that is a table with `shape`; 0 for
/// a header that is not a table.
pub open spec fn spec_header_sections(shape: SValueShape) -> usize {
    match shape {
        SValueShape::Table(n) => n,
        _ => 0,
    }
}

/// What reading `imag.version` of a header holding `doc` gives, by shape.
pub open spec fn version_found(doc: SToml) -> Result<Option<SValueShape>, ReadError> {
    match spec_read(doc, "imag.version"@) {
        None => Err(ReadError::Lookup),
        Some(None) => Ok(None),
        Some(Some(v)) => Ok(Some(shape_model(v))),
    }
}

impl Diagnostic {
    /// The diagnostic of the entry `id` with the given header, lengths,
    /// verification outcome and number of internal links.
    pub fn for_entry(
        id: String,
        header: &toml::Value,
        bytecount_content: usize,
        overall_byte_size: usize,
        verified: bool,
        num_internal_links: usize,
    ) -> (res: Diagnostic)
        ensures
            res.id == id,
            res.entry_store_version@ == spec_store_version(version_found(toml_model(*header))),
            res.header_sections == spec_header_sections(shape_model(toml_model(*header))),
            res.bytecount_content == bytecount_content,
            res.overall_byte_size == overall_byte_size,
            res.verified == verified,
            res.num_internal_links == num_internal_links,
    {
        let found = match read_checked(header, "imag.version") {
            Ok(Some(v)) => Ok(Some(shape_of(v))),
            Ok(None) => Ok(None),
            Err(e) => Err(e),
        };
        assert(found_view(found) == version_found(toml_model(*header)));
        let entry_store_version = store_version(found);
        let shape = shape_of(header);
        let header_sections = match shape {
            ValueShape::Table(n) => n,
            _ => 0,
        };
        Diagnostic {
            id,
            entry_store_version,
            header_sections,
            bytecount_content,
            overall_byte_size,
            verified,
            num_internal_links,
        }
    }
}

/// Mathematical view of a diagnostic.
pub struct SDiagnostic {
    pub id: Seq<char>,
    pub version: Seq<char>,
    pub header_sections: nat,
    pub bytecount_content: nat,
    pub overall_byte_size: nat,
    pub verified: bool,
    pub num_internal_links: nat,
}

impl View for Diagnostic {
    type V = SDiagnostic;

    open spec fn view(&self) -> SDiagnostic {
        SDiagnostic {
            id: self.id@,
            version: self.entry_store_version@,
            header_sections: self.header_sections as nat,
            bytecount_content: self.bytecount_content as nat,
            overall_byte_size: self.overall_byte_size as nat,
            verified: self.verified,
            num_internal_links: self.num_internal_links as nat,
        }
    }
}

pub open spec fn diags_view(ds: Seq<Diagnostic>) -> Seq<SDiagnostic> {
    ds.map_values(|d: Diagnostic| d@)
}

/// The totals of the header sections, content bytes, entry bytes and
/// internal links of the entries.
pub open spec fn totals(ds: Seq<SDiagnostic>) -> (nat, nat, nat, nat)
    decreases ds.len(),
{
    if ds.len() == 0 {
        (0, 0, 0, 0)
    } else {
        let t = totals(ds.drop_last());
        let d = ds.last();
        (
            t.0 + d.header_sections,
            t.1 + d.bytecount_content,
            t.2 + d.overall_byte_size,
            t.3 + d.num_internal_links,
        )
    }
}

/// The number of entries that pass verification.
pub open spec fn verified_count(ds: Seq<SDiagnostic>) -> nat
    decreases ds.len(),
{
    if ds.len() == 0 {
        0
    } else {
        verified_count(ds.drop_last()) + if ds.last().verified {
            1nat
        } else {
            0nat
        }
    }
}

/// The number of entries written with store version `v`.
pub open spec fn version_count(ds: Seq<SDiagnostic>, v: Seq<char>) -> nat
    decreases ds.len(),
{
    if ds.len() == 0 {
        0
    } else {
        version_count(ds.drop_last(), v) + if ds.last().version == v {
            1nat
        } else {
            0nat
        }
    }
}

/// The store versions of the entries, each once, in the order in which they
/// first occur.
pub open spec fn versions_in_order(ds: Seq<SDiagnostic>) -> Seq<Seq<char>>
    decreases ds.len(),
{
    if ds.len() == 0 {
        Seq::empty()
    } else {
        let r = versions_in_order(ds.drop_last());
        if r.contains(ds.last().version) {
            r
        } else {
            r.push(ds.last().version)
        }
    }
}

/// The entry reported as the largest, as its reported size and its
/// position: the first entry starts the search, reported with its number of
/// internal links as its size; each later entry whose byte size exceeds the
/// size reported so far replaces it.
pub open spec fn largest(ds: Seq<SDiagnostic>) -> Option<(nat, nat)>
    decreases ds.len(),
{
    if ds.len() == 0 {
        None
    } else if ds.len() == 1 {
        Some((ds[0].num_internal_links, 0))
    } else {
        let (num, i) = largest(ds.drop_last())->0;
        if num < ds.last().overall_byte_size {
            Some((ds.last().overall_byte_size, (ds.len() - 1) as nat))
        } else {
            Some((num, i))
        }
    }
}

/// `(m, i)`: entry `i` is the first of the entries with the most internal
/// links, `m` of them.
pub open spec fn is_most_linked(ds: Seq<SDiagnostic>, m: nat, i: nat) -> bool {
    &&& i < ds.len()
    &&& ds[i as int].num_internal_links == m
    &&& forall|j: int| 0 <= j < ds.len() ==> (#[trigger] ds[j]).num_internal_links <= m
    &&& forall|j: int| 0 <= j < i ==> (#[trigger] ds[j]).num_internal_links < m
}

/// The summary over all entries of a store.
pub struct Summary {
    pub entries: usize,
    /// The store versions, each once, in the order of their first entry.
    pub versions: Vec<String>,
    /// The number of entries of each of `versions`.
    pub version_counts: Vec<usize>,
    pub sum_header_sections: usize,
    pub sum_bytecount_content: usize,
    pub sum_overall_byte_size: usize,
    pub sum_internal_links: usize,
    /// The reported size and position of the entry reported as the largest.
    pub largest: Option<(usize, usize)>,
    /// The number and position of the first entry with the most internal
    /// links.
    pub most_linked: Option<(usize, usize)>,
    pub verified_count: usize,
    pub unverified_count: usize,
}

pub open spec fn strings_view(v: Seq<String>) -> Seq<Seq<char>> {
    v.map_values(|s: String| s@)
}

pub open spec fn opt_pair(o: Option<(usize, usize)>) -> Option<(nat, nat)> {
    match o {
        Some((a, b)) => Some((a as nat, b as nat)),
        None => None,
    }
}

/// The summary is that of the entries `ds`.
pub open spec fn is_summary_of(s: Summary, ds: Seq<SDiagnostic>) -> bool {
    let t = totals(ds);
    &&& s.entries == ds.len()
    &&& strings_view(s.versions@) == versions_in_order(ds)
    &&& s.version_counts.len() == s.versions.len()
    &&& forall|k: int|
        0 <= k < s.versions.len() ==> #[trigger] s.version_counts@[k] == version_count(
            ds,
            s.versions@[k]@,
        )
    &&& s.sum_header_sections == t.0
    &&& s.sum_bytecount_content == t.1
    &&& s.sum_overall_byte_size == t.2
    &&& s.sum_internal_links == t.3
    &&& opt_pair(s.largest) == largest(ds)
    &&& match s.most_linked {
        None => ds.len() == 0,
        Some((m, i)) => is_most_linked(ds, m as nat, i as nat),
    }
    &&& s.verified_count == verified_count(ds)
    &&& s.unverified_count + s.verified_count == ds.len()
}

proof fn lemma_totals_monotone(ds: Seq<SDiagnostic>, k: int)
    requires
        0 <= k <= ds.len(),
    ensures
        totals(ds.take(k)).0 <= totals(ds).0,
        totals(ds.take(k)).1 <= totals(ds).1,
        totals(ds.take(k)).2 <= totals(ds).2,
        totals(ds.take(k)).3 <= totals(ds).3,
    decreases ds.len() - k,
{
    if k < ds.len() {
        lemma_totals_monotone(ds, k + 1);
        assert(ds.take(k + 1).drop_last() =~= ds.take(k));
    } else {
        assert(ds.take(k) =~= ds);
    }
}

proof fn lemma_counts_bounded(ds: Seq<SDiagnostic>, v: Seq<char>)
    ensures
        version_count(ds, v) <= ds.len(),
        verified_count(ds) <= ds.len(),
    decreases ds.len(),
{
    if ds.len() > 0 {
        lemma_counts_bounded(ds.drop_last(), v);
    }
}

/// Counts the store version of `d`, one more entry after the entries `pre`.
fn count_version(
    versions: &mut Vec<String>,
    version_counts: &mut Vec<usize>,
    Ghost(pre): Ghost<Seq<SDiagnostic>>,
    d: &Diagnostic,
)
    requires
        strings_view(old(versions)@) == versions_in_order(pre),
        old(version_counts).len() == old(versions).len(),
        forall|j: int|
            0 <= j < old(versions).len() ==> #[trigger] old(version_counts)@[j] == version_count(
                pre,
                old(versions)@[j]@,
            ),
        pre.len() < usize::MAX,
    ensures
        strings_view(final(versions)@) == versions_in_order(pre.push(d@)),
        final(version_counts).len() == final(versions).len(),
        forall|j: int|
            0 <= j < final(versions).len() ==> #[trigger] final(version_counts)@[j]
                == version_count(pre.push(d@), final(versions)@[j]@),
{
    let ghost cur = pre.push(d@);
    proof {
        assert(cur.drop_last() =~= pre);
        assert(cur.last() == d@);
        lemma_counts_bounded(pre, d.entry_store_version@);
    }
    let mut p: usize = 0;
    let mut found = false;
    while p < versions.len()
        invariant_except_break
            p <= versions.len(),
            !found,
            forall|j: int| 0 <= j < p ==> versions@[j]@ != d.entry_store_version@,
        ensures
            found ==> p < versions.len() && versions@[p as int]@ == d.entry_store_version@,
            !found ==> forall|j: int|
                0 <= j < versions.len() ==> versions@[j]@ != d.entry_store_version@,
        decreases versions.len() - p,
    {
        if str_eq(versions[p].as_str(), d.entry_store_version.as_str()) {
            found = true;
            break;
        }
        p = p + 1;
    }
    let ghost old_versions = strings_view(versions@);
    let ghost old_counts = version_counts@;
    if found {
        assert(version_counts@[p as int] == version_count(pre, versions@[p as int]@));
        assert(version_counts@[p as int] <= pre.len());
        let c = version_counts[p] + 1;
        version_counts.set(p, c);
        proof {
            assert(old_versions[p as int] == d.entry_store_version@);
            assert(old_versions.contains(d.entry_store_version@));
            lemma_versions_distinct(pre);
            assert forall|j: int| 0 <= j < versions.len() implies #[trigger] version_counts@[j]
                == version_count(cur, versions@[j]@) by {
                if j != p {
                    assert(old_versions[j] == versions@[j]@);
                }
            }
        }
    } else {
        versions.push(d.entry_store_version.clone());
        version_counts.push(1);
        proof {
            assert(!old_versions.contains(d.entry_store_version@)) by {
                if old_versions.contains(d.entry_store_version@) {
                    let j = choose|j: int|
                        0 <= j < old_versions.len() && old_versions[j]
                            == d.entry_store_version@;
                    assert(old_versions[j] == versions@[j]@);
                }
            }
            assert(strings_view(versions@) =~= old_versions.push(d.entry_store_version@));
            assert(version_count(pre, d.entry_store_version@) == 0) by {
                lemma_count_absent(pre, d.entry_store_version@);
            }
            assert forall|j: int| 0 <= j < versions.len() implies #[trigger] version_counts@[j]
                == version_count(cur, versions@[j]@) by {
                if j < versions.len() - 1 {
                    assert(old_versions[j] == versions@[j]@);
                    assert(versions@[j]@ != d.entry_store_version@);
                }
            }
        }
    }
}

/// The summary of the diagnostics `ds`; the totals must fit in `usize`.
pub fn summarize(ds: &Vec<Diagnostic>) -> (res: Summary)
    requires
        totals(diags_view(ds@)).0 <= usize::MAX,
        totals(diags_view(ds@)).1 <= usize::MAX,
        totals(diags_view(ds@)).2 <= usize::MAX,
        totals(diags_view(ds@)).3 <= usize::MAX,
    ensures
        is_summary_of(res, diags_view(ds@)),
{
    let ghost dv = diags_view(ds@);
    let mut versions: Vec<String> = Vec::new();
    let mut version_counts: Vec<usize> = Vec::new();
    let mut sum_header_sections: usize = 0;
    let mut sum_bytecount_content: usize = 0;
    let mut sum_overall_byte_size: usize = 0;
    let mut sum_internal_links: usize = 0;
    let mut largest_entry: Option<(usize, usize)> = None;
    let mut most_linked: Option<(usize, usize)> = None;
    let mut verified: usize = 0;
    let mut unverified: usize = 0;
    let mut k: usize = 0;
    assert(dv.take(0) =~= Seq::<SDiagnostic>::empty());
    while k < ds.len()
        invariant
            k <= ds.len(),
            dv == diags_view(ds@),
            totals(dv).0 <= usize::MAX,
            totals(dv).1 <= usize::MAX,
            totals(dv).2 <= usize::MAX,
            totals(dv).3 <= usize::MAX,
            strings_view(versions@) == versions_in_order(dv.take(k as int)),
            version_counts.len() == versions.len(),
            forall|j: int|
                0 <= j < versions.len() ==> #[trigger] version_counts@[j] == version_count(
                    dv.take(k as int),
                    versions@[j]@,
                ),
            sum_header_sections == totals(dv.take(k as int)).0,
            sum_bytecount_content == totals(dv.take(k as int)).1,
            sum_overall_byte_size == totals(dv.take(k as int)).2,
            sum_internal_links == totals(dv.take(k as int)).3,
            opt_pair(largest_entry) == largest(dv.take(k as int)),
            match most_linked {
                None => k == 0,
                Some((m, i)) => is_most_linked(dv.take(k as int), m as nat, i as nat),
            },
            verified == verified_count(dv.take(k as int)),
            verified + unverified == k,
        decreases ds.len() - k,
    {
        let d = &ds[k];
        let ghost pre = dv.take(k as int);
        let ghost cur = dv.take(k + 1);
        proof {
            assert(cur.drop_last() =~= pre);
            assert(cur.last() == d@);
            assert(dv[k as int] == d@);
            assert(cur =~= pre.push(d@));
            lemma_totals_monotone(dv, k + 1);
            lemma_counts_bounded(pre, d.entry_store_version@);
        }
        sum_header_sections = sum_header_sections + d.header_sections;
        sum_bytecount_content = sum_bytecount_content + d.bytecount_content;
        sum_overall_byte_size = sum_overall_byte_size + d.overall_byte_size;
        sum_internal_links = sum_internal_links + d.num_internal_links;
        largest_entry = match largest_entry {
            None => Some((d.num_internal_links, k)),
            Some((num, i)) => if num < d.overall_byte_size {
                Some((d.overall_byte_size, k))
            } else {
                Some((num, i))
            },
        };
        most_linked = match most_linked {
            None => Some((d.num_internal_links, k)),
            Some((num, i)) => if num < d.num_internal_links {
                Some((d.num_internal_links, k))
            } else {
                Some((num, i))
            },
        };
        if d.verified {
            verified = verified + 1;
        } else {
            unverified = unverified + 1;
        }
        count_version(&mut versions, &mut version_counts, Ghost(pre), d);
        proof {
            match most_linked {
                Some((m, i)) => {
                    assert forall|j: int| 0 <= j < cur.len() implies (
                    #[trigger] cur[j]).num_internal_links <= m by {
                        if j < k {
                            assert(cur[j] == pre[j]);
                        }
                    }
                    assert forall|j: int| 0 <= j < i implies (#[trigger] cur[j]).num_internal_links
                        < m by {
                        assert(cur[j] == pre[j]);
                    }
                },
                None => {},
            }
        }
        k = k + 1;
    }
    assert(dv.take(ds.len() as int) =~= dv);
    Summary {
        entries: ds.len(),
        versions,
        version_counts,
        sum_header_sections,
        sum_bytecount_content,
        sum_overall_byte_size,
        sum_internal_links,
        largest: largest_entry,
        most_linked,
        verified_count: verified,
        unverified_count: unverified,
    }
}

/// Each store version occurs once among the versions in order.
proof fn lemma_versions_distinct(ds: Seq<SDiagnostic>)
    ensures
        forall|i: int, j: int|
            0 <= i < j < versions_in_order(ds).len() ==> versions_in_order(ds)[i]
                != versions_in_order(ds)[j],
    decreases ds.len(),
{
    if ds.len() > 0 {
        lemma_versions_distinct(ds.drop_last());
        let r = versions_in_order(ds.drop_last());
        let x = ds.last().version;
        if !r.contains(x) {
            assert forall|i: int, j: int|
                0 <= i < j < r.push(x).len() implies r.push(x)[i] != r.push(x)[j] by {
                if j == r.len() {
                    assert(r.push(x)[i] == r[i]);
                    if r[i] == x {
                        assert(r.contains(x));
                    }
                } else {
                    assert(r.push(x)[i] == r[i] && r.push(x)[j] == r[j]);
                }
            }
        }
    }
}

/// A version that no entry was written with is not counted.
proof fn lemma_count_absent(ds: Seq<SDiagnostic>, v: Seq<char>)
    requires
        !versions_in_order(ds).contains(v),
    ensures
        version_count(ds, v) == 0,
    decreases ds.len(),
{
    if ds.len() > 0 {
        let r = versions_in_order(ds.drop_last());
        if r.contains(ds.last().version) {
            lemma_count_absent(ds.drop_last(), v);
            if ds.last().version == v {
                assert(false);
            }
        } else {
            let x = ds.last().version;
            assert(versions_in_order(ds) == r.push(x));
            if x == v {
                assert(r.push(x)[r.len() as int] == v);
                assert(false);
            }
            if r.contains(v) {
                let j = choose|j: int| 0 <= j < r.len() && r[j] == v;
                assert(r.push(x)[j] == v);
                assert(false);
            }
            lemma_count_absent(ds.drop_last(), v);
        }
    }
}

impl Summary {
    /// The averages per entry of the header sections, content bytes, entry
    /// bytes and internal links, rounded down; none without entries.
    pub fn averages(&self) -> (res: Option<(usize, usize, usize, usize)>)
        ensures
            self.entries == 0 ==> res is None,
            self.entries > 0 ==> res == Some(
                (
                    (self.sum_header_sections / self.entries) as usize,
                    (self.sum_bytecount_content / self.entries) as usize,
                    (self.sum_overall_byte_size / self.entries) as usize,
                    (self.sum_internal_links / self.entries) as usize,
                ),
            ),
    {
        if self.entries == 0 {
            None
        } else {
            Some(
                (
                    self.sum_header_sections / self.entries,
                    self.sum_bytecount_content / self.entries,
                    self.sum_overall_byte_size / self.entries,
                    self.sum_internal_links / self.entries,
                ),
            )
        }
    }
}

} // verus!

verus! {

/// The number of entries of the versions `vs`, added up.
pub open spec fn total_of_versions(ds: Seq<SDiagnostic>, vs: Seq<Seq<char>>) -> nat
    decreases vs.len(),
{
    if vs.len() == 0 {
        0
    } else {
        total_of_versions(ds, vs.drop_last()) + version_count(ds, vs.last())
    }
}

proof fn lemma_total_after_push(d: Seq<SDiagnostic>, x: SDiagnostic, vs: Seq<Seq<char>>)
    requires
        forall|i: int, j: int| 0 <= i < j < vs.len() ==> vs[i] != vs[j],
    ensures
        total_of_versions(d.push(x), vs) == total_of_versions(d, vs) + if vs.contains(x.version) {
            1nat
        } else {
            0nat
        },
    decreases vs.len(),
{
    if vs.len() > 0 {
        let init = vs.drop_last();
        assert forall|i: int, j: int| 0 <= i < j < init.len() implies init[i] != init[j] by {
            assert(init[i] == vs[i] && init[j] == vs[j]);
        }
        lemma_total_after_push(d, x, init);
        assert(d.push(x).drop_last() =~= d);
        assert(d.push(x).last() == x);
        if vs.last() == x.version {
            assert(vs[vs.len() - 1] == x.version);
            assert(!init.contains(x.version)) by {
                if init.contains(x.version) {
                    let i = choose|i: int| 0 <= i < init.len() && init[i] == x.version;
                    assert(vs[i] == vs[vs.len() - 1]);
                }
            }
        } else {
            assert(vs.contains(x.version) == init.contains(x.version)) by {
                if vs.contains(x.version) {
                    let i = choose|i: int| 0 <= i < vs.len() && vs[i] == x.version;
                    assert(init[i] == x.version);
                }
                if init.contains(x.version) {
                    let i = choose|i: int| 0 <= i < init.len() && init[i] == x.version;
                    assert(vs[i] == x.version);
                }
            }
        }
    }
}

proof fn lemma_total_unaffected(ds: Seq<SDiagnostic>, vs: Seq<Seq<char>>, v: Seq<char>)
    ensures
        total_of_versions(ds, vs.push(v)) == total_of_versions(ds, vs) + version_count(ds, v),
{
    assert(vs.push(v).drop_last() =~= vs);
}

/// The entries of the store versions reported add up to all entries.
pub proof fn law_version_counts_add_up(ds: Seq<SDiagnostic>)
    ensures
        total_of_versions(ds, versions_in_order(ds)) == ds.len(),
    decreases ds.len(),
{
    if ds.len() > 0 {
        let d = ds.drop_last();
        let x = ds.last();
        assert(ds =~= d.push(x));
        law_version_counts_add_up(d);
        let r = versions_in_order(d);
        lemma_versions_distinct(d);
        lemma_total_after_push(d, x, r);
        if !r.contains(x.version) {
            lemma_total_unaffected(ds, r, x.version);
            lemma_count_absent(d, x.version);
            assert(version_count(ds, x.version) == version_count(d, x.version) + 1);
        }
    }
}

} // verus!
