//! The record types: the ephemeral parser output (`TinyDNSRecord`) and
//! the aggregated, provider-style record (`Route53Record`), with merge
//! and order-insensitive equality semantics.

use vstd::prelude::*;

use crate::text::str_eq;

verus! {

// --- mathematical views ---

/// View of a `TinyDNSRecord`.
pub ghost struct TinyDNSRecordView {
    pub rtype: Seq<char>,
    pub fqdn: Seq<char>,
    pub target: Seq<char>,
    pub ttl: int,
}

/// View of a `Route53Record`.
pub ghost struct Route53RecordView {
    pub zone_id: Seq<char>,
    pub name: Seq<char>,
    pub rtype: Seq<char>,
    pub records: Seq<Seq<char>>,
    pub ttl: int,
}

// --- the parser's ephemeral record ---

/// One typed DNS record synthesized from a dialect line, consumed by
/// the aggregator.
#[derive(Debug)]
pub struct TinyDNSRecord {
    pub rtype: String,
    pub fqdn: String,
    pub target: String,
    pub ttl: i32,
}

impl View for TinyDNSRecord {
    type V = TinyDNSRecordView;

    open spec fn view(&self) -> TinyDNSRecordView {
        TinyDNSRecordView {
            rtype: self.rtype@,
            fqdn: self.fqdn@,
            target: self.target@,
            ttl: self.ttl as int,
        }
    }
}

impl DeepView for TinyDNSRecord {
    type V = TinyDNSRecordView;

    open spec fn deep_view(&self) -> TinyDNSRecordView {
        self.view()
    }
}

// --- the aggregated record ---

/// One aggregated record: a zone reference, a name, a type, the ordered
/// value sequence, and a time-to-live.
#[derive(Debug)]
pub struct Route53Record {
    pub zone_id: String,
    pub name: String,
    pub rtype: String,
    pub records: Vec<String>,
    pub ttl: i32,
}

impl View for Route53Record {
    type V = Route53RecordView;

    open spec fn view(&self) -> Route53RecordView {
        Route53RecordView {
            zone_id: self.zone_id@,
            name: self.name@,
            rtype: self.rtype@,
            records: self.records.deep_view(),
            ttl: self.ttl as int,
        }
    }
}

impl DeepView for Route53Record {
    type V = Route53RecordView;

    open spec fn deep_view(&self) -> Route53RecordView {
        self.view()
    }
}

pub(crate) fn clone_strings(v: &Vec<String>) -> (r: Vec<String>)
    ensures
        r.deep_view() == v.deep_view(),
{
    let mut out: Vec<String> = Vec::new();
    let mut i: usize = 0;
    while i < v.len()
        invariant
            i <= v.len(),
            out.len() == i,
            forall|j: int| 0 <= j < i ==> out.deep_view()[j] == v.deep_view()[j],
        decreases v.len() - i,
    {
        let ghost prev = out.deep_view();
        let s = v[i].clone();
        out.push(s);
        proof {
            assert forall|j: int| 0 <= j < i + 1 implies out.deep_view()[j] == v.deep_view()[j] by {
                if j < i {
                    assert(out.deep_view()[j] == prev[j]);
                }
            }
        }
        i += 1;
    }
    proof {
        assert(out.deep_view() =~= v.deep_view());
    }
    out
}

impl Route53Record {
    pub fn new(zone_id: &str, name: &str, rtype: &str, record: &str, ttl: i32) -> (r: Self)
        ensures
            r@ == (Route53RecordView {
                zone_id: zone_id@,
                name: name@,
                rtype: rtype@,
                records: seq![record@],
                ttl: ttl as int,
            }),
    {
        let mut records: Vec<String> = Vec::new();
        records.push(String::from_str(record));
        let r = Route53Record {
            zone_id: String::from_str(zone_id),
            name: String::from_str(name),
            rtype: String::from_str(rtype),
            records,
            ttl,
        };
        proof {
            assert(r@.records =~= seq![record@]);
        }
        r
    }

    /// Appends one value at the end of the record's value sequence.
    pub fn add_record(&mut self, record: &str)
        ensures
            final(self)@ == (Route53RecordView {
                records: old(self)@.records.push(record@),
                ..old(self)@
            }),
    {
        let ghost prev = self.records.deep_view();
        self.records.push(String::from_str(record));
        proof {
            assert(self.records.deep_view() =~= prev.push(record@));
        }
    }

    /// Merges another record's values into this one, the other record's
    /// values going in front; refused (and the record left unchanged)
    /// when the record types differ.
    pub fn merge(&mut self, other: &Self) -> (ok: bool)
        ensures
            ok == (old(self)@.rtype == other@.rtype),
            ok ==> final(self)@ == (Route53RecordView {
                records: other@.records + old(self)@.records,
                ..old(self)@
            }),
            !ok ==> final(self)@ == old(self)@,
    {
        if !str_eq(self.rtype.as_str(), other.rtype.as_str()) {
            return false;
        }
        let ghost mine = self.records.deep_view();
        let mut newvec = clone_strings(&other.records);
        let ghost theirs = newvec.deep_view();
        newvec.append(&mut self.records);
        proof {
            assert(newvec.deep_view() =~= theirs + mine);
        }
        self.records = newvec;
        true
    }
}

// --- order-insensitive equality on the value sequence ---

/// How many fields of `s` equal `x`.
pub open spec fn seq_count(s: Seq<Seq<char>>, x: Seq<char>) -> nat
    decreases s.len(),
{
    if s.len() == 0 {
        0
    } else {
        seq_count(s.drop_last(), x) + (if s.last() == x {
            1nat
        } else {
            0nat
        })
    }
}

/// Counting a value in a sequence agrees with the count in the
/// sequence's multiset abstraction.
pub proof fn lemma_seq_count_multiset(s: Seq<Seq<char>>, x: Seq<char>)
    ensures
        s.to_multiset().count(x) == seq_count(s, x),
    decreases s.len(),
{
    broadcast use vstd::seq_lib::group_to_multiset_ensures;
    broadcast use vstd::multiset::group_multiset_axioms;

    if s.len() == 0 {
        vstd::multiset::lemma_multiset_empty_len(s.to_multiset());
    } else {
        let pre = s.drop_last();
        lemma_seq_count_multiset(pre, x);
        assert(pre.push(s.last()) =~= s);
        assert(pre.push(s.last()).to_multiset() =~= pre.to_multiset().insert(s.last()));
    }
}

fn count_str(v: &Vec<String>, x: &String) -> (n: usize)
    ensures
        n as nat == seq_count(v.deep_view(), x@),
{
    let ghost dv = v.deep_view();
    let mut n: usize = 0;
    let mut i: usize = 0;
    while i < v.len()
        invariant
            i <= v.len(),
            n <= i,
            dv == v.deep_view(),
            n as nat == seq_count(dv.subrange(0, i as int), x@),
        decreases v.len() - i,
    {
        proof {
            assert(dv.subrange(0, i + 1 as int).drop_last() =~= dv.subrange(0, i as int));
            assert(dv.subrange(0, i + 1 as int).last() == dv[i as int]);
            assert(dv[i as int] == v[i as int]@);
        }
        if str_eq(v[i].as_str(), x.as_str()) {
            n += 1;
        }
        i += 1;
    }
    proof {
        assert(dv.subrange(0, v.len() as int) =~= dv);
    }
    n
}

/// The order-insensitivity law of record equality: two records with
/// equal scalar fields are equal exactly when their value sequences
/// are permutations of one another — order does not matter, but
/// multiplicity does.
pub proof fn lemma_eq_ignores_value_order(a: &Route53Record, b: &Route53Record)
    requires
        a@.zone_id == b@.zone_id,
        a@.name == b@.name,
        a@.rtype == b@.rtype,
        a@.ttl == b@.ttl,
    ensures
        vstd::std_specs::cmp::PartialEqSpec::eq_spec(a, b) == (a@.records.to_multiset()
            == b@.records.to_multiset()),
{
}

impl vstd::std_specs::cmp::PartialEqSpecImpl for Route53Record {
    open spec fn obeys_eq_spec() -> bool {
        true
    }

    open spec fn eq_spec(&self, other: &Route53Record) -> bool {
        &&& self@.zone_id == other@.zone_id
        &&& self@.name == other@.name
        &&& self@.rtype == other@.rtype
        &&& self@.ttl == other@.ttl
        &&& self@.records.to_multiset() == other@.records.to_multiset()
    }
}

impl PartialEq for Route53Record {
    /// Structural equality on the scalar fields, with the value
    /// sequences compared as multisets: order does not matter, but
    /// multiplicity does.
    fn eq(&self, other: &Self) -> (r: bool) {
        let ghost a = self@.records;
        let ghost b = other@.records;
        proof {
            broadcast use vstd::seq_lib::group_to_multiset_ensures;
        }
        let scalars = str_eq(self.zone_id.as_str(), other.zone_id.as_str()) && str_eq(
            self.name.as_str(),
            other.name.as_str(),
        ) && str_eq(self.rtype.as_str(), other.rtype.as_str()) && self.ttl == other.ttl;
        if !scalars {
            return false;
        }
        if self.records.len() != other.records.len() {
            proof {
                broadcast use vstd::seq_lib::group_to_multiset_ensures;

                assert(a.to_multiset().len() == a.len());
                assert(b.to_multiset().len() == b.len());
            }
            return false;
        }
        let mut i: usize = 0;
        while i < self.records.len()
            invariant
                i <= self.records.len(),
                a == self@.records,
                b == other@.records,
                forall|j: int| 0 <= j < i ==> seq_count(a, a[j]) == seq_count(b, a[j]),
            decreases self.records.len() - i,
        {
            let c1 = count_str(&self.records, &self.records[i]);
            let c2 = count_str(&other.records, &self.records[i]);
            proof {
                assert(self.records[i as int]@ == a[i as int]);
            }
            if c1 != c2 {
                proof {
                    lemma_seq_count_multiset(a, a[i as int]);
                    lemma_seq_count_multiset(b, a[i as int]);
                }
                return false;
            }
            i += 1;
        }
        let mut k: usize = 0;
        while k < other.records.len()
            invariant
                k <= other.records.len(),
                a == self@.records,
                b == other@.records,
                forall|j: int| 0 <= j < a.len() ==> seq_count(a, a[j]) == seq_count(b, a[j]),
                forall|j: int| 0 <= j < k ==> seq_count(a, b[j]) == seq_count(b, b[j]),
            decreases other.records.len() - k,
        {
            let c1 = count_str(&self.records, &other.records[k]);
            let c2 = count_str(&other.records, &other.records[k]);
            proof {
                assert(other.records[k as int]@ == b[k as int]);
            }
            if c1 != c2 {
                proof {
                    lemma_seq_count_multiset(a, b[k as int]);
                    lemma_seq_count_multiset(b, b[k as int]);
                }
                return false;
            }
            k += 1;
        }
        proof {
            broadcast use vstd::multiset::group_multiset_axioms;

            assert forall|x: Seq<char>| a.to_multiset().count(x) == b.to_multiset().count(x) by {
                lemma_seq_count_multiset(a, x);
                lemma_seq_count_multiset(b, x);
                if a.to_multiset().count(x) > 0 {
                    assert(a.contains(x));
                    let j = choose|j: int| 0 <= j < a.len() && a[j] == x;
                    assert(seq_count(a, a[j]) == seq_count(b, a[j]));
                } else if b.to_multiset().count(x) > 0 {
                    assert(b.contains(x));
                    let j = choose|j: int| 0 <= j < b.len() && b[j] == x;
                    assert(seq_count(a, b[j]) == seq_count(b, b[j]));
                }
            }
            assert(a.to_multiset() =~= b.to_multiset());
        }
        true
    }
}

} // verus!
