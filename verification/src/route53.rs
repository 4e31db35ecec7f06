//! The aggregation engine: folds the synthesized record stream into a
//! map keyed by canonical key, merging same-key records and rejecting
//! incompatible ones, with the all-or-nothing result contract.

use vstd::prelude::*;

use crate::text::lower_str;
use crate::text::replace_str;
use crate::text::spec_lower;
use crate::text::spec_replace;
use crate::text::spec_trim_dot;
use crate::text::str_eq;
use crate::text::trim_dot;
use crate::types::Route53Record;
use crate::types::Route53RecordView;
use crate::types::TinyDNSRecord;
use crate::types::TinyDNSRecordView;

verus! {

// --- the canonical key ---

/// The deduplication key of a record: `kind.name` with one trailing
/// dot trimmed, lower-cased, and every `.` replaced by `-`.
pub open spec fn spec_key(rtype: Seq<char>, name: Seq<char>) -> Seq<char> {
    spec_replace(spec_lower(spec_trim_dot(rtype + "."@ + name)), '.', '-')
}

/// Computes the canonical deduplication key from a record type and a
/// record name.
pub fn canonical_key(rtype: &str, name: &str) -> (k: String)
    ensures
        k@ == spec_key(rtype@, name@),
{
    let mut joined = String::from_str(rtype);
    joined.append(".");
    joined.append(name);
    let trimmed = trim_dot(joined.as_str());
    let lowered = lower_str(trimmed.as_str());
    replace_str(lowered.as_str(), '.', '-')
}

// --- the aggregation map ---

/// View of one map entry.
pub ghost struct MapEntryView {
    pub key: Seq<char>,
    pub rec: Route53RecordView,
}

/// One entry of the aggregation map: a canonical key and the record
/// aggregated under it.
#[derive(Debug)]
pub struct MapEntry {
    pub key: String,
    pub rec: Route53Record,
}

impl View for MapEntry {
    type V = MapEntryView;

    open spec fn view(&self) -> MapEntryView {
        MapEntryView { key: self.key@, rec: self.rec@ }
    }
}

impl DeepView for MapEntry {
    type V = MapEntryView;

    open spec fn deep_view(&self) -> MapEntryView {
        self.view()
    }
}

/// The aggregated record map, in first-insertion order, with pairwise
/// distinct canonical keys.
#[derive(Debug)]
pub struct RecordMap {
    pub entries: Vec<MapEntry>,
}

impl View for RecordMap {
    type V = Seq<MapEntryView>;

    open spec fn view(&self) -> Seq<MapEntryView> {
        self.entries.deep_view()
    }
}

/// The first index holding key `k`, or -1.
pub open spec fn spec_find(m: Seq<MapEntryView>, k: Seq<char>) -> int
    decreases m.len(),
{
    if m.len() == 0 {
        -1
    } else if m[0].key == k {
        0
    } else {
        let r = spec_find(m.drop_first(), k);
        if r == -1 {
            -1
        } else {
            r + 1
        }
    }
}

/// What `spec_find` returns: -1 exactly when no entry holds the key,
/// and otherwise the first index that does.
pub proof fn lemma_find_spec(m: Seq<MapEntryView>, k: Seq<char>)
    ensures
        spec_find(m, k) == -1 ==> forall|j: int| 0 <= j < m.len() ==> m[j].key != k,
        spec_find(m, k) != -1 ==> {
            let i = spec_find(m, k);
            &&& 0 <= i < m.len()
            &&& m[i].key == k
            &&& forall|j: int| 0 <= j < i ==> m[j].key != k
        },
    decreases m.len(),
{
    if m.len() > 0 && m[0].key != k {
        lemma_find_spec(m.drop_first(), k);
        let r = spec_find(m.drop_first(), k);
        if r == -1 {
            assert forall|j: int| 0 <= j < m.len() implies m[j].key != k by {
                if j > 0 {
                    assert(m.drop_first()[j - 1].key != k);
                }
            }
        } else {
            assert(m[r + 1].key == m.drop_first()[r].key);
            assert forall|j: int| 0 <= j < r + 1 implies m[j].key != k by {
                if j > 0 {
                    assert(m.drop_first()[j - 1].key != k);
                }
            }
        }
    }
}

/// The index a search that saw keys different from `k` at every index
/// below `i`, and `k` itself at `i`, has found.
pub proof fn lemma_find_first(m: Seq<MapEntryView>, k: Seq<char>, i: int)
    requires
        0 <= i < m.len(),
        m[i].key == k,
        forall|j: int| 0 <= j < i ==> m[j].key != k,
    ensures
        spec_find(m, k) == i,
    decreases i,
{
    if i > 0 {
        lemma_find_first(m.drop_first(), k, i - 1);
    }
}

/// The result that searching for `k` where no entry holds it yields.
pub proof fn lemma_find_none(m: Seq<MapEntryView>, k: Seq<char>)
    requires
        forall|j: int| 0 <= j < m.len() ==> m[j].key != k,
    ensures
        spec_find(m, k) == -1,
    decreases m.len(),
{
    if m.len() > 0 {
        assert forall|j: int| 0 <= j < m.drop_first().len() implies m.drop_first()[j].key != k by {
            assert(m.drop_first()[j] == m[j + 1]);
        }
        lemma_find_none(m.drop_first(), k);
    }
}

// --- one aggregation step ---

/// The outcome of offering one record to the map.
pub ghost struct UpsertResultView {
    pub entries: Seq<MapEntryView>,
    pub conflict: bool,
}

/// One aggregation step: an absent key inserts a new entry at the end;
/// a present key merges when the kinds match and neither side is PTR,
/// the incoming record's values going in front and its scalar fields
/// winning; a kind mismatch or a second PTR claim is a conflict that
/// leaves the map unchanged.
pub open spec fn spec_upsert(m: Seq<MapEntryView>, rec: Route53RecordView) -> UpsertResultView {
    let k = spec_key(rec.rtype, rec.name);
    let i = spec_find(m, k);
    if i == -1 {
        UpsertResultView { entries: m.push(MapEntryView { key: k, rec: rec }), conflict: false }
    } else if m[i].rec.rtype != rec.rtype {
        UpsertResultView { entries: m, conflict: true }
    } else if rec.rtype == "PTR"@ {
        UpsertResultView { entries: m, conflict: true }
    } else {
        let merged = Route53RecordView {
            zone_id: rec.zone_id,
            name: rec.name,
            rtype: rec.rtype,
            records: rec.records + m[i].rec.records,
            ttl: rec.ttl,
        };
        UpsertResultView {
            entries: m.update(i, MapEntryView { key: k, rec: merged }),
            conflict: false,
        }
    }
}

impl RecordMap {
    /// Pairwise distinct canonical keys.
    pub open spec fn wf(self) -> bool {
        forall|i: int, j: int| 0 <= i < j < self@.len() ==> self@[i].key != self@[j].key
    }

    pub fn new() -> (r: RecordMap)
        ensures
            r@ == Seq::<MapEntryView>::empty(),
            r.wf(),
    {
        let r = RecordMap { entries: Vec::new() };
        proof {
            assert(r@ =~= Seq::<MapEntryView>::empty());
        }
        r
    }

    pub fn len(&self) -> (n: usize)
        ensures
            n == self@.len(),
    {
        self.entries.len()
    }

    fn find(&self, k: &String) -> (r: Option<usize>)
        ensures
            match r {
                None => spec_find(self@, k@) == -1,
                Some(i) => spec_find(self@, k@) == i && 0 <= i < self@.len() && self@[i as int].key
                    == k@,
            },
    {
        let mut i: usize = 0;
        let n = self.entries.len();
        while i < n
            invariant
                i <= n,
                n == self@.len(),
                forall|j: int| 0 <= j < i ==> self@[j].key != k@,
            decreases n - i,
        {
            proof {
                assert(self@[i as int].key == self.entries[i as int].key@);
            }
            if str_eq(self.entries[i].key.as_str(), k.as_str()) {
                proof {
                    lemma_find_first(self@, k@, i as int);
                }
                return Some(i);
            }
            i += 1;
        }
        proof {
            lemma_find_none(self@, k@);
        }
        None
    }

    /// Whether any entry holds the canonical key `k`.
    pub fn contains_key(&self, k: &String) -> (r: bool)
        ensures
            r == exists|j: int| 0 <= j < self@.len() && self@[j].key == k@,
    {
        proof {
            lemma_find_spec(self@, k@);
        }
        match self.find(k) {
            Some(i) => {
                proof {
                    assert(self@[i as int].key == k@);
                }
                true
            },
            None => false,
        }
    }

    /// The record under the canonical key `k`, if any entry holds it.
    pub fn get(&self, k: &String) -> (r: Option<&Route53Record>)
        ensures
            match r {
                Some(rec) => spec_find(self@, k@) >= 0 && rec@ == self@[spec_find(self@, k@)].rec,
                None => spec_find(self@, k@) == -1,
            },
    {
        match self.find(k) {
            Some(i) => Some(&self.entries[i].rec),
            None => None,
        }
    }

    /// Offers one record to the map and reports whether it conflicted;
    /// on a conflict the map is unchanged.
    pub fn upsert(&mut self, rec: Route53Record) -> (conflict: bool)
        requires
            old(self).wf(),
        ensures
            ({
                let u = spec_upsert(old(self)@, rec@);
                &&& final(self)@ == u.entries
                &&& conflict == u.conflict
                &&& final(self).wf()
            }),
    {
        let ghost m0 = self@;
        let key = canonical_key(rec.rtype.as_str(), rec.name.as_str());
        proof {
            assert(key@ == spec_key(rec@.rtype, rec@.name));
            lemma_find_spec(m0, key@);
        }
        match self.find(&key) {
            None => {
                let ghost prev = self@;
                self.entries.push(MapEntry { key, rec });
                proof {
                    assert(self@ =~= prev.push(
                        MapEntryView { key: spec_key(rec@.rtype, rec@.name), rec: rec@ },
                    ));
                }
                false
            },
            Some(i) => {
                if !str_eq(self.entries[i].rec.rtype.as_str(), rec.rtype.as_str()) {
                    proof {
                        assert(m0[i as int].rec.rtype == self.entries[i as int].rec.rtype@);
                    }
                    true
                } else if str_eq(rec.rtype.as_str(), "PTR") {
                    true
                } else {
                    let ghost old_rec = m0[i as int].rec;
                    let mut entry = self.entries.remove(i);
                    let ok = entry.rec.merge(&rec);
                    proof {
                        assert(ok);
                    }
                    entry.rec.zone_id = rec.zone_id;
                    entry.rec.name = rec.name;
                    entry.rec.ttl = rec.ttl;
                    let ghost merged = Route53RecordView {
                        zone_id: rec@.zone_id,
                        name: rec@.name,
                        rtype: rec@.rtype,
                        records: rec@.records + old_rec.records,
                        ttl: rec@.ttl,
                    };
                    proof {
                        assert(entry.rec@.records =~= merged.records);
                        assert(entry.rec@ == merged);
                    }
                    self.entries.insert(i, entry);
                    proof {
                        assert(self@ =~= m0.update(
                            i as int,
                            MapEntryView { key: key@, rec: merged },
                        ));
                    }
                    false
                }
            },
        }
    }
}

// --- laws of the aggregation step ---

/// The accepted-merge law: offering a record whose canonical key is
/// already present, with matching kinds and neither side PTR, prepends
/// the incoming record's values ahead of the stored ones, takes the
/// scalar fields from the incoming side, leaves every other entry
/// unchanged, and reports no conflict.
pub proof fn lemma_merge_prepends(m: Seq<MapEntryView>, rec: Route53RecordView)
    requires
        spec_find(m, spec_key(rec.rtype, rec.name)) >= 0,
        m[spec_find(m, spec_key(rec.rtype, rec.name))].rec.rtype == rec.rtype,
        rec.rtype != "PTR"@,
    ensures
        ({
            let i = spec_find(m, spec_key(rec.rtype, rec.name));
            let u = spec_upsert(m, rec);
            &&& !u.conflict
            &&& u.entries.len() == m.len()
            &&& u.entries[i].rec.records == rec.records + m[i].rec.records
            &&& u.entries[i].rec.zone_id == rec.zone_id
            &&& u.entries[i].rec.name == rec.name
            &&& u.entries[i].rec.rtype == rec.rtype
            &&& u.entries[i].rec.ttl == rec.ttl
            &&& u.entries[i].key == m[i].key
            &&& forall|j: int| 0 <= j < m.len() && j != i ==> u.entries[j] == m[j]
        }),
{
    lemma_find_spec(m, spec_key(rec.rtype, rec.name));
}

/// The PTR-conflict law: a second PTR record resolving to a canonical
/// key already held by a PTR record is rejected — the conflict is
/// reported, no overwrite happens and the stored entry is retained.
pub proof fn lemma_ptr_conflict(m: Seq<MapEntryView>, rec: Route53RecordView)
    requires
        spec_find(m, spec_key(rec.rtype, rec.name)) >= 0,
        rec.rtype == "PTR"@,
        m[spec_find(m, spec_key(rec.rtype, rec.name))].rec.rtype == "PTR"@,
    ensures
        spec_upsert(m, rec).conflict,
        spec_upsert(m, rec).entries == m,
{
}

/// The kind-mismatch law: offering a record to an occupied canonical
/// key holding a record of a different kind is rejected, the stored
/// entry is retained, and the conflict is reported.
pub proof fn lemma_kind_mismatch(m: Seq<MapEntryView>, rec: Route53RecordView)
    requires
        spec_find(m, spec_key(rec.rtype, rec.name)) >= 0,
        m[spec_find(m, spec_key(rec.rtype, rec.name))].rec.rtype != rec.rtype,
    ensures
        spec_upsert(m, rec).conflict,
        spec_upsert(m, rec).entries == m,
{
}

// --- the whole-stream fold ---

/// The aggregated form of one synthesized record: PTR records go under
/// the reverse zone reference, everything else under the forward one,
/// and the record's single value is its target.
pub open spec fn spec_to_route53(t: TinyDNSRecordView, fz: Seq<char>, rz: Seq<char>) -> Route53RecordView {
    Route53RecordView {
        zone_id: if t.rtype == "PTR"@ {
            rz
        } else {
            fz
        },
        name: t.fqdn,
        rtype: t.rtype,
        records: seq![t.target],
        ttl: t.ttl,
    }
}

/// The outcome of aggregating a record stream.
pub ghost struct GenerateResultView {
    pub entries: Seq<MapEntryView>,
    pub failed: bool,
}

/// The fold of the record stream: every record is offered to the map
/// in order, and one conflict marks the whole aggregation failed while
/// the fold continues.
pub open spec fn spec_generate(ts: Seq<TinyDNSRecordView>, fz: Seq<char>, rz: Seq<char>) -> GenerateResultView
    decreases ts.len(),
{
    if ts.len() == 0 {
        GenerateResultView { entries: Seq::<MapEntryView>::empty(), failed: false }
    } else {
        let p = spec_generate(ts.drop_last(), fz, rz);
        let u = spec_upsert(p.entries, spec_to_route53(ts.last(), fz, rz));
        GenerateResultView { entries: u.entries, failed: p.failed || u.conflict }
    }
}

/// Failure persists: once some prefix of the record stream has failed
/// to aggregate, the whole stream has, however far the fold continues.
pub proof fn lemma_failure_persists(
    ts: Seq<TinyDNSRecordView>,
    fz: Seq<char>,
    rz: Seq<char>,
    i: int,
)
    requires
        0 <= i <= ts.len(),
        spec_generate(ts.subrange(0, i), fz, rz).failed,
    ensures
        spec_generate(ts, fz, rz).failed,
    decreases ts.len() - i,
{
    if i == ts.len() {
        assert(ts.subrange(0, i) =~= ts);
    } else {
        assert(ts.subrange(0, i + 1).drop_last() =~= ts.subrange(0, i));
        lemma_failure_persists(ts, fz, rz, i + 1);
    }
}

/// Aggregates synthesized records into the canonical map, or reports
/// failure when any record conflicted; on failure no partial map is
/// returned.
pub fn generate(fzone: &str, rzone: &str, tdrs: &Vec<TinyDNSRecord>) -> (r: Option<RecordMap>)
    ensures
        ({
            let g = spec_generate(tdrs.deep_view(), fzone@, rzone@);
            match r {
                Some(m) => !g.failed && m@ == g.entries && m.wf(),
                None => g.failed,
            }
        }),
{
    let ghost ts = tdrs.deep_view();
    let mut retval = RecordMap::new();
    let mut error_flag = false;
    let mut i: usize = 0;
    while i < tdrs.len()
        invariant
            i <= tdrs.len(),
            ts == tdrs.deep_view(),
            retval@ == spec_generate(ts.subrange(0, i as int), fzone@, rzone@).entries,
            error_flag == spec_generate(ts.subrange(0, i as int), fzone@, rzone@).failed,
            retval.wf(),
        decreases tdrs.len() - i,
    {
        let ghost pre = ts.subrange(0, i as int);
        let ghost ext = ts.subrange(0, i + 1 as int);
        proof {
            assert(ext.drop_last() =~= pre);
            assert(ext.last() == ts[i as int]);
            assert(ts[i as int] == tdrs[i as int]@);
        }
        let tdr = &tdrs[i];
        let zoneid: &str = if str_eq(tdr.rtype.as_str(), "PTR") {
            rzone
        } else {
            fzone
        };
        let r53r = Route53Record::new(
            zoneid,
            tdr.fqdn.as_str(),
            tdr.rtype.as_str(),
            tdr.target.as_str(),
            tdr.ttl,
        );
        proof {
            assert(r53r@ == spec_to_route53(ts[i as int], fzone@, rzone@));
        }
        let conflict = retval.upsert(r53r);
        if conflict {
            error_flag = true;
        }
        i += 1;
    }
    proof {
        assert(ts.subrange(0, tdrs.len() as int) =~= ts);
    }
    if error_flag {
        None
    } else {
        Some(retval)
    }
}

// --- the output document shape ---

/// One resource section of the output document: a resource-type label
/// over the aggregated records.
#[derive(Debug)]
pub struct ResourceSection {
    pub label: String,
    pub records: RecordMap,
}

/// The document the emitter serializes: the aggregated record map
/// wrapped in resource sections.
#[derive(Debug)]
pub struct Route53File {
    pub resource: Vec<ResourceSection>,
}

} // verus!
