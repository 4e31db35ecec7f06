//! The record synthesizer: expands one dialect line into zero, one, two
//! or three typed DNS records, dispatching on the line's one-character
//! prefix and applying the per-family field-defaulting rules.
//!
//! A line that synthesizes zero records is a failed line: too few
//! fields for its family, an invalid address in an address-typed field,
//! or an unrecognized prefix.

use vstd::prelude::*;

use crate::ipv4::is_ipv4;
use crate::ipv4::spec_is_ipv4;
use crate::num::i32_to_string;
use crate::num::spec_dec_i32;
use crate::num::spec_dec_u64;
use crate::num::spec_i32_or;
use crate::num::spec_u64_or;
use crate::num::parse_i32_or;
use crate::num::parse_u64_or;
use crate::num::u64_to_string;
use crate::text::contains_char;
use crate::text::spec_split;
use crate::text::spec_strip_quotes;
use crate::text::split_str;
use crate::text::str_eq;
use crate::text::strip_quotes;
use crate::types::TinyDNSRecord;
use crate::types::TinyDNSRecordView;

verus! {

// --- field defaulting ---

/// The value of the optional `i32` field at `i`: the default when the
/// field is missing or fails integer parsing.
pub open spec fn spec_field_i32(parts: Seq<Seq<char>>, i: int, d: int) -> int {
    if parts.len() <= i {
        d
    } else {
        spec_i32_or(parts[i], d)
    }
}

/// The value of the optional `u64` field at `i`, with the same policy.
pub open spec fn spec_field_u64(parts: Seq<Seq<char>>, i: int, d: int) -> int {
    if parts.len() <= i {
        d
    } else {
        spec_u64_or(parts[i], d)
    }
}

pub(crate) fn field_i32(parts: &Vec<String>, i: usize, d: i32) -> (r: i32)
    ensures
        r as int == spec_field_i32(parts.deep_view(), i as int, d as int),
{
    if i < parts.len() {
        proof {
            assert(parts.deep_view()[i as int] == parts[i as int]@);
        }
        parse_i32_or(parts[i].as_str(), d)
    } else {
        d
    }
}

fn field_u64(parts: &Vec<String>, i: usize, d: u64) -> (r: u64)
    ensures
        r as int == spec_field_u64(parts.deep_view(), i as int, d as int),
{
    if i < parts.len() {
        proof {
            assert(parts.deep_view()[i as int] == parts[i as int]@);
        }
        parse_u64_or(parts[i].as_str(), d)
    } else {
        d
    }
}

// --- derived names ---

/// The derived-name rule shared by the MX and NS-bearing families: a
/// bare label (no `.`) becomes `x<marker>fqdn` where the marker carries
/// the family's fixed infix; a name already containing a `.` is used
/// verbatim.
pub open spec fn spec_expand_host(x: Seq<char>, marker: Seq<char>, fqdn: Seq<char>) -> Seq<char> {
    if x.contains('.') {
        x
    } else {
        x + marker + fqdn
    }
}

// --- the single-record families: +, ^, C, ' ---

/// Records of a basic line `fqdn:target(:ttl:...)`. For the `A` family
/// the target must be a well-formed IPv4 address; the target is stored
/// with double quotes stripped; a missing or unparsable ttl becomes
/// 300.
pub open spec fn spec_parse_basic(rtype: Seq<char>, data: Seq<char>) -> Seq<TinyDNSRecordView> {
    let parts = spec_split(data, ':');
    if parts.len() < 2 {
        Seq::<TinyDNSRecordView>::empty()
    } else if rtype == "A"@ && !spec_is_ipv4(parts[1]) {
        Seq::<TinyDNSRecordView>::empty()
    } else {
        seq![
            TinyDNSRecordView {
                rtype: rtype,
                fqdn: parts[0],
                target: spec_strip_quotes(parts[1]),
                ttl: spec_field_i32(parts, 2, 300),
            },
        ]
    }
}

/// Parses one basic line (`A`, `PTR`, `CNAME` or `TXT`) into at most
/// one record; an empty result marks a failed line.
pub fn parse(rtype: &str, data: &str) -> (r: Vec<TinyDNSRecord>)
    ensures
        r.deep_view() == spec_parse_basic(rtype@, data@),
{
    let mut retval: Vec<TinyDNSRecord> = Vec::new();
    let parts = split_str(data, ':');
    let ghost dv = parts.deep_view();
    if parts.len() < 2 {
        proof {
            assert(retval.deep_view() =~= spec_parse_basic(rtype@, data@));
        }
        return retval;
    }
    proof {
        assert(dv[0] == parts[0]@);
        assert(dv[1] == parts[1]@);
    }
    if str_eq(rtype, "A") && !is_ipv4(parts[1].as_str()) {
        proof {
            assert(retval.deep_view() =~= spec_parse_basic(rtype@, data@));
        }
        return retval;
    }
    let target = strip_quotes(parts[1].as_str());
    let ttl = field_i32(&parts, 2, 300);
    let tdr = TinyDNSRecord {
        rtype: String::from_str(rtype),
        fqdn: parts[0].clone(),
        target,
        ttl,
    };
    retval.push(tdr);
    proof {
        assert(retval.deep_view() =~= spec_parse_basic(rtype@, data@));
    }
    retval
}

// --- the MX family: @ ---

/// Records of an MX line `fqdn:ip:x(:dist:ttl:...)`: one MX record
/// whose target is `dist x`, and one companion A record for the mail
/// host, whose name follows the derived-name rule with marker `.mx.`.
pub open spec fn spec_parse_mx(data: Seq<char>) -> Seq<TinyDNSRecordView> {
    let parts = spec_split(data, ':');
    if parts.len() < 3 {
        Seq::<TinyDNSRecordView>::empty()
    } else if !spec_is_ipv4(parts[1]) {
        Seq::<TinyDNSRecordView>::empty()
    } else {
        let fqdn = parts[0];
        let ip = parts[1];
        let mx_fqdn = spec_expand_host(parts[2], ".mx."@, fqdn);
        let dist = if parts.len() <= 3 {
            0
        } else {
            spec_i32_or(parts[3], 0)
        };
        let ttl = if parts.len() <= 4 {
            300
        } else {
            spec_i32_or(parts[4], 300)
        };
        seq![
            TinyDNSRecordView {
                rtype: "MX"@,
                fqdn: fqdn,
                target: spec_dec_i32(dist) + " "@ + mx_fqdn,
                ttl: ttl,
            },
            TinyDNSRecordView { rtype: "A"@, fqdn: mx_fqdn, target: ip, ttl: ttl },
        ]
    }
}

/// Parses one MX line into an MX record and a companion A record; an
/// empty result marks a failed line.
pub fn parse_mx(data: &str) -> (r: Vec<TinyDNSRecord>)
    ensures
        r.deep_view() == spec_parse_mx(data@),
{
    let mut retval: Vec<TinyDNSRecord> = Vec::new();
    let parts = split_str(data, ':');
    let ghost dv = parts.deep_view();
    if parts.len() < 3 {
        proof {
            assert(retval.deep_view() =~= spec_parse_mx(data@));
        }
        return retval;
    }
    proof {
        assert(dv[0] == parts[0]@);
        assert(dv[1] == parts[1]@);
        assert(dv[2] == parts[2]@);
    }
    if !is_ipv4(parts[1].as_str()) {
        proof {
            assert(retval.deep_view() =~= spec_parse_mx(data@));
        }
        return retval;
    }
    let mx_fqdn = if contains_char(parts[2].as_str(), '.') {
        parts[2].clone()
    } else {
        let mut h = parts[2].clone();
        h.append(".mx.");
        h.append(parts[0].as_str());
        h
    };
    let dist = if parts.len() <= 3 {
        0
    } else {
        proof {
            assert(dv[3] == parts[3]@);
        }
        parse_i32_or(parts[3].as_str(), 0)
    };
    let ttl = if parts.len() <= 4 {
        300
    } else {
        proof {
            assert(dv[4] == parts[4]@);
        }
        parse_i32_or(parts[4].as_str(), 300)
    };
    let mut target = i32_to_string(dist);
    target.append(" ");
    target.append(mx_fqdn.as_str());
    let tdr1 = TinyDNSRecord {
        rtype: String::from_str("MX"),
        fqdn: parts[0].clone(),
        target,
        ttl,
    };
    let tdr2 = TinyDNSRecord {
        rtype: String::from_str("A"),
        fqdn: mx_fqdn,
        target: parts[1].clone(),
        ttl,
    };
    retval.push(tdr1);
    retval.push(tdr2);
    proof {
        assert(retval.deep_view() =~= spec_parse_mx(data@));
    }
    retval
}

// --- the SOA family: Z ---

/// Records of an SOA line `fqdn:ns:contact(:serial:refresh:retry:expire:min:ttl:...)`.
/// The serial defaults to the caller-supplied clock value `now`; the
/// remaining numeric fields default to 16384, 2048, 1048576, 2560 and
/// 300. The record's target is the space-joined sequence
/// `ns contact serial refresh retry expire min`.
pub open spec fn spec_parse_soa(data: Seq<char>, now: int) -> Seq<TinyDNSRecordView> {
    let parts = spec_split(data, ':');
    if parts.len() < 3 {
        Seq::<TinyDNSRecordView>::empty()
    } else {
        let ns = parts[1];
        let contact = parts[2];
        let ser = spec_field_u64(parts, 3, now);
        let refr = spec_field_i32(parts, 4, 16384);
        let retr = spec_field_i32(parts, 5, 2048);
        let exp = spec_field_i32(parts, 6, 1048576);
        let min = spec_field_i32(parts, 7, 2560);
        let ttl = spec_field_i32(parts, 8, 300);
        let target = ns + " "@ + contact + " "@ + spec_dec_u64(ser as nat) + " "@ + spec_dec_i32(
            refr,
        ) + " "@ + spec_dec_i32(retr) + " "@ + spec_dec_i32(exp) + " "@ + spec_dec_i32(min);
        seq![TinyDNSRecordView { rtype: "SOA"@, fqdn: parts[0], target: target, ttl: ttl }]
    }
}

/// Parses one SOA line into one record, with `now` standing in for a
/// missing or unparsable serial; an empty result marks a failed line.
pub fn parse_soa(data: &str, now: u64) -> (r: Vec<TinyDNSRecord>)
    ensures
        r.deep_view() == spec_parse_soa(data@, now as int),
{
    let mut retval: Vec<TinyDNSRecord> = Vec::new();
    let parts = split_str(data, ':');
    let ghost dv = parts.deep_view();
    if parts.len() < 3 {
        proof {
            assert(retval.deep_view() =~= spec_parse_soa(data@, now as int));
        }
        return retval;
    }
    proof {
        assert(dv[0] == parts[0]@);
        assert(dv[1] == parts[1]@);
        assert(dv[2] == parts[2]@);
    }
    let ser = field_u64(&parts, 3, now);
    let refr = field_i32(&parts, 4, 16384);
    let retr = field_i32(&parts, 5, 2048);
    let exp = field_i32(&parts, 6, 1048576);
    let min = field_i32(&parts, 7, 2560);
    let ttl = field_i32(&parts, 8, 300);
    let mut target = parts[1].clone();
    target.append(" ");
    target.append(parts[2].as_str());
    target.append(" ");
    let ser_s = u64_to_string(ser);
    target.append(ser_s.as_str());
    target.append(" ");
    let refr_s = i32_to_string(refr);
    target.append(refr_s.as_str());
    target.append(" ");
    let retr_s = i32_to_string(retr);
    target.append(retr_s.as_str());
    target.append(" ");
    let exp_s = i32_to_string(exp);
    target.append(exp_s.as_str());
    target.append(" ");
    let min_s = i32_to_string(min);
    target.append(min_s.as_str());
    let tdr = TinyDNSRecord {
        rtype: String::from_str("SOA"),
        fqdn: parts[0].clone(),
        target,
        ttl,
    };
    retval.push(tdr);
    proof {
        assert(retval.deep_view() =~= spec_parse_soa(data@, now as int));
    }
    retval
}

// --- the A/NS/SOA combo family: . ---

/// Records of a `.` line `fqdn:ip:x(:ttl:...)`: an NS record for the
/// name server (derived-name rule, marker `.ns.`), an A record for it
/// when the ip field is non-empty, and an SOA record whose target uses
/// the fixed literal defaults `1 1 1 1 60`. A non-empty ip must be a
/// well-formed IPv4 address.
pub open spec fn spec_parse_anssoa(data: Seq<char>) -> Seq<TinyDNSRecordView> {
    let parts = spec_split(data, ':');
    if parts.len() < 3 {
        Seq::<TinyDNSRecordView>::empty()
    } else if parts[1].len() > 0 && !spec_is_ipv4(parts[1]) {
        Seq::<TinyDNSRecordView>::empty()
    } else {
        let fqdn = parts[0];
        let ip = parts[1];
        let ttl = spec_field_i32(parts, 3, 300);
        let ns_fqdn = spec_expand_host(parts[2], ".ns."@, fqdn);
        let ns_rec = TinyDNSRecordView { rtype: "NS"@, fqdn: ns_fqdn, target: fqdn, ttl: ttl };
        let a_recs = if ip.len() == 0 {
            Seq::<TinyDNSRecordView>::empty()
        } else {
            seq![TinyDNSRecordView { rtype: "A"@, fqdn: ns_fqdn, target: ip, ttl: ttl }]
        };
        let soa_rec = TinyDNSRecordView {
            rtype: "SOA"@,
            fqdn: fqdn,
            target: ns_fqdn + " hostmaster."@ + fqdn + " 1 1 1 1 60"@,
            ttl: ttl,
        };
        seq![ns_rec] + a_recs + seq![soa_rec]
    }
}

/// Parses one `.` line into NS, optional A, and SOA records; an empty
/// result marks a failed line.
pub fn parse_anssoa(data: &str) -> (r: Vec<TinyDNSRecord>)
    ensures
        r.deep_view() == spec_parse_anssoa(data@),
{
    let mut retval: Vec<TinyDNSRecord> = Vec::new();
    let parts = split_str(data, ':');
    let ghost dv = parts.deep_view();
    if parts.len() < 3 {
        proof {
            assert(retval.deep_view() =~= spec_parse_anssoa(data@));
        }
        return retval;
    }
    proof {
        assert(dv[0] == parts[0]@);
        assert(dv[1] == parts[1]@);
        assert(dv[2] == parts[2]@);
    }
    let ip_empty = parts[1].as_str().unicode_len() == 0;
    if !ip_empty && !is_ipv4(parts[1].as_str()) {
        proof {
            assert(retval.deep_view() =~= spec_parse_anssoa(data@));
        }
        return retval;
    }
    let ttl = field_i32(&parts, 3, 300);
    let ns_fqdn = if contains_char(parts[2].as_str(), '.') {
        parts[2].clone()
    } else {
        let mut h = parts[2].clone();
        h.append(".ns.");
        h.append(parts[0].as_str());
        h
    };
    let tdr1 = TinyDNSRecord {
        rtype: String::from_str("NS"),
        fqdn: ns_fqdn.clone(),
        target: parts[0].clone(),
        ttl,
    };
    retval.push(tdr1);
    if !ip_empty {
        let tdr2 = TinyDNSRecord {
            rtype: String::from_str("A"),
            fqdn: ns_fqdn.clone(),
            target: parts[1].clone(),
            ttl,
        };
        retval.push(tdr2);
    }
    let mut target = ns_fqdn.clone();
    target.append(" hostmaster.");
    target.append(parts[0].as_str());
    target.append(" 1 1 1 1 60");
    let tdr3 = TinyDNSRecord {
        rtype: String::from_str("SOA"),
        fqdn: parts[0].clone(),
        target,
        ttl,
    };
    retval.push(tdr3);
    proof {
        assert(retval.deep_view() =~= spec_parse_anssoa(data@));
    }
    retval
}

// --- the A/NS combo family: & ---

/// Records of an `&` line `fqdn:ip:x(:ttl:...)`: an NS record and an A
/// record for the name server (derived-name rule, marker `.ns.`).
pub open spec fn spec_parse_ans(data: Seq<char>) -> Seq<TinyDNSRecordView> {
    let parts = spec_split(data, ':');
    if parts.len() < 3 {
        Seq::<TinyDNSRecordView>::empty()
    } else if !spec_is_ipv4(parts[1]) {
        Seq::<TinyDNSRecordView>::empty()
    } else {
        let fqdn = parts[0];
        let ttl = spec_field_i32(parts, 3, 300);
        let ns_fqdn = spec_expand_host(parts[2], ".ns."@, fqdn);
        seq![
            TinyDNSRecordView { rtype: "NS"@, fqdn: ns_fqdn, target: fqdn, ttl: ttl },
            TinyDNSRecordView { rtype: "A"@, fqdn: ns_fqdn, target: parts[1], ttl: ttl },
        ]
    }
}

/// Parses one `&` line into NS and A records; an empty result marks a
/// failed line.
pub fn parse_ans(data: &str) -> (r: Vec<TinyDNSRecord>)
    ensures
        r.deep_view() == spec_parse_ans(data@),
{
    let mut retval: Vec<TinyDNSRecord> = Vec::new();
    let parts = split_str(data, ':');
    let ghost dv = parts.deep_view();
    if parts.len() < 3 {
        proof {
            assert(retval.deep_view() =~= spec_parse_ans(data@));
        }
        return retval;
    }
    proof {
        assert(dv[0] == parts[0]@);
        assert(dv[1] == parts[1]@);
        assert(dv[2] == parts[2]@);
    }
    if !is_ipv4(parts[1].as_str()) {
        proof {
            assert(retval.deep_view() =~= spec_parse_ans(data@));
        }
        return retval;
    }
    let ttl = field_i32(&parts, 3, 300);
    let ns_fqdn = if contains_char(parts[2].as_str(), '.') {
        parts[2].clone()
    } else {
        let mut h = parts[2].clone();
        h.append(".ns.");
        h.append(parts[0].as_str());
        h
    };
    let tdr1 = TinyDNSRecord {
        rtype: String::from_str("NS"),
        fqdn: ns_fqdn.clone(),
        target: parts[0].clone(),
        ttl,
    };
    let tdr2 = TinyDNSRecord {
        rtype: String::from_str("A"),
        fqdn: ns_fqdn,
        target: parts[1].clone(),
        ttl,
    };
    retval.push(tdr1);
    retval.push(tdr2);
    proof {
        assert(retval.deep_view() =~= spec_parse_ans(data@));
    }
    retval
}

// --- the A/PTR combo family: = ---

/// The reverse-lookup name of an IPv4 address `a.b.c.d`: the octets
/// reversed, joined with dots, with `.in-addr.arpa` appended.
pub open spec fn spec_ptr_name(ip: Seq<char>) -> Seq<char> {
    crate::text::spec_join(spec_split(ip, '.').reverse(), '.') + ".in-addr.arpa"@
}

/// Records of an `=` line `fqdn:ip(:ttl:...)`: an A record for the
/// name, and a PTR record under the reverse-lookup name of the address.
pub open spec fn spec_parse_aptr(data: Seq<char>) -> Seq<TinyDNSRecordView> {
    let parts = spec_split(data, ':');
    if parts.len() < 2 {
        Seq::<TinyDNSRecordView>::empty()
    } else if !spec_is_ipv4(parts[1]) {
        Seq::<TinyDNSRecordView>::empty()
    } else {
        let fqdn = parts[0];
        let ip = parts[1];
        let ttl = spec_field_i32(parts, 2, 300);
        seq![
            TinyDNSRecordView { rtype: "A"@, fqdn: fqdn, target: ip, ttl: ttl },
            TinyDNSRecordView { rtype: "PTR"@, fqdn: spec_ptr_name(ip), target: fqdn, ttl: ttl },
        ]
    }
}

/// Parses one `=` line into an A record and a PTR record; an empty
/// result marks a failed line.
pub fn parse_aptr(data: &str) -> (r: Vec<TinyDNSRecord>)
    ensures
        r.deep_view() == spec_parse_aptr(data@),
{
    let mut retval: Vec<TinyDNSRecord> = Vec::new();
    let parts = split_str(data, ':');
    let ghost dv = parts.deep_view();
    if parts.len() < 2 {
        proof {
            assert(retval.deep_view() =~= spec_parse_aptr(data@));
        }
        return retval;
    }
    proof {
        assert(dv[0] == parts[0]@);
        assert(dv[1] == parts[1]@);
    }
    if !is_ipv4(parts[1].as_str()) {
        proof {
            assert(retval.deep_view() =~= spec_parse_aptr(data@));
        }
        return retval;
    }
    let ttl = field_i32(&parts, 2, 300);
    let octets = split_str(parts[1].as_str(), '.');
    let rev = crate::text::reverse_strs(&octets);
    let mut ptr_fqdn = crate::text::join_str(&rev, '.');
    ptr_fqdn.append(".in-addr.arpa");
    let tdr1 = TinyDNSRecord {
        rtype: String::from_str("A"),
        fqdn: parts[0].clone(),
        target: parts[1].clone(),
        ttl,
    };
    let tdr2 = TinyDNSRecord {
        rtype: String::from_str("PTR"),
        fqdn: ptr_fqdn,
        target: parts[0].clone(),
        ttl,
    };
    retval.push(tdr1);
    retval.push(tdr2);
    proof {
        assert(retval.deep_view() =~= spec_parse_aptr(data@));
    }
    retval
}

// --- per-line dispatch and the whole-input scan ---

/// The records one dialect line synthesizes: dispatch on the first
/// character over the nine recognized prefixes; an empty or
/// unrecognized line synthesizes no records.
pub open spec fn spec_line_records(line: Seq<char>, now: int) -> Seq<TinyDNSRecordView> {
    if line.len() == 0 {
        Seq::<TinyDNSRecordView>::empty()
    } else {
        let data = line.drop_first();
        if line[0] == '+' {
            spec_parse_basic("A"@, data)
        } else if line[0] == '^' {
            spec_parse_basic("PTR"@, data)
        } else if line[0] == 'C' {
            spec_parse_basic("CNAME"@, data)
        } else if line[0] == '\'' {
            spec_parse_basic("TXT"@, data)
        } else if line[0] == '@' {
            spec_parse_mx(data)
        } else if line[0] == 'Z' {
            spec_parse_soa(data, now)
        } else if line[0] == '.' {
            spec_parse_anssoa(data)
        } else if line[0] == '&' {
            spec_parse_ans(data)
        } else if line[0] == '=' {
            spec_parse_aptr(data)
        } else {
            Seq::<TinyDNSRecordView>::empty()
        }
    }
}

/// Synthesizes the records of one dialect line; an empty result marks
/// a failed line.
pub fn line_records(line: &str, now: u64) -> (r: Vec<TinyDNSRecord>)
    ensures
        r.deep_view() == spec_line_records(line@, now as int),
{
    let n = line.unicode_len();
    if n == 0 {
        let r: Vec<TinyDNSRecord> = Vec::new();
        proof {
            assert(r.deep_view() =~= spec_line_records(line@, now as int));
        }
        return r;
    }
    let prefix = line.get_char(0);
    let data = line.substring_char(1, n);
    proof {
        assert(data@ =~= line@.drop_first());
    }
    let r = if prefix == '+' {
        parse("A", data)
    } else if prefix == '^' {
        parse("PTR", data)
    } else if prefix == 'C' {
        parse("CNAME", data)
    } else if prefix == '\'' {
        parse("TXT", data)
    } else if prefix == '@' {
        parse_mx(data)
    } else if prefix == 'Z' {
        parse_soa(data, now)
    } else if prefix == '.' {
        parse_anssoa(data)
    } else if prefix == '&' {
        parse_ans(data)
    } else if prefix == '=' {
        parse_aptr(data)
    } else {
        Vec::new()
    };
    proof {
        assert(r.deep_view() =~= spec_line_records(line@, now as int));
    }
    r
}

// --- laws of the synthesizer ---

/// The ttl defaulting law of the single-record families: a valid line
/// yields ttl 300 when the ttl field is absent or unparsable, and the
/// field's own value whenever it parses as a number.
pub proof fn lemma_basic_ttl_default(rtype: Seq<char>, data: Seq<char>)
    ensures
        ({
            let parts = spec_split(data, ':');
            let recs = spec_parse_basic(rtype, data);
            recs.len() == 1 ==> {
                &&& recs[0].ttl == spec_field_i32(parts, 2, 300)
                &&& (parts.len() <= 2 ==> recs[0].ttl == 300)
                &&& (parts.len() > 2 && crate::num::spec_parse_i32(parts[2]) is None ==> recs[0].ttl
                    == 300)
                &&& (parts.len() > 2 && crate::num::spec_parse_i32(parts[2]) is Some ==> recs[0].ttl
                    == crate::num::spec_parse_i32(parts[2])->0)
            }
        }),
{
}

/// An empty line, or one whose prefix is not one of the nine
/// recognized characters, synthesizes no records.
pub proof fn lemma_unrecognized_prefix(line: Seq<char>, now: int)
    requires
        line.len() == 0 || !(line[0] == '+' || line[0] == '^' || line[0] == 'C' || line[0] == '\''
            || line[0] == '@' || line[0] == 'Z' || line[0] == '.' || line[0] == '&' || line[0]
            == '='),
    ensures
        spec_line_records(line, now).len() == 0,
{
}

/// A line with fewer than the minimum required fields for its family
/// synthesizes no records: two fields for the single-record and
/// address/reverse families, three for the MX, SOA and name-server
/// families.
pub proof fn lemma_short_line(rtype: Seq<char>, data: Seq<char>, now: int)
    ensures
        spec_split(data, ':').len() < 2 ==> spec_parse_basic(rtype, data).len() == 0,
        spec_split(data, ':').len() < 3 ==> spec_parse_mx(data).len() == 0,
        spec_split(data, ':').len() < 3 ==> spec_parse_soa(data, now).len() == 0,
        spec_split(data, ':').len() < 3 ==> spec_parse_anssoa(data).len() == 0,
        spec_split(data, ':').len() < 3 ==> spec_parse_ans(data).len() == 0,
        spec_split(data, ':').len() < 2 ==> spec_parse_aptr(data).len() == 0,
{
}

/// The derived-name law of the MX family: a bare mail-host label (no
/// `.`) has `.mx.` and the line's own name appended; a label that
/// already contains a `.` is used unchanged.
pub proof fn lemma_mx_derived_name(data: Seq<char>)
    ensures
        ({
            let parts = spec_split(data, ':');
            let recs = spec_parse_mx(data);
            recs.len() == 2 ==> {
                &&& (!parts[2].contains('.') ==> recs[1].fqdn == parts[2] + ".mx."@ + parts[0])
                &&& (parts[2].contains('.') ==> recs[1].fqdn == parts[2])
            }
        }),
{
}

/// One failed line — zero records synthesized — marks the whole scan
/// failed, wherever in the input it stands.
pub proof fn lemma_failed_line_flags(lines: Seq<Seq<char>>, now: int, i: int)
    requires
        0 <= i < lines.len(),
        spec_line_records(lines[i], now).len() == 0,
    ensures
        spec_scan(lines, now).failed,
    decreases lines.len(),
{
    if i < lines.len() - 1 {
        assert(lines.drop_last()[i] == lines[i]);
        lemma_failed_line_flags(lines.drop_last(), now, i);
    }
}

/// The result of scanning a whole input: every synthesized record in
/// line order, and whether any line failed.
pub ghost struct ScanResultView {
    pub records: Seq<TinyDNSRecordView>,
    pub failed: bool,
}

/// The scan of a sequence of dialect lines: records accumulate across
/// lines, and one failed line marks the whole scan failed while the
/// scan continues.
pub open spec fn spec_scan(lines: Seq<Seq<char>>, now: int) -> ScanResultView
    decreases lines.len(),
{
    if lines.len() == 0 {
        ScanResultView { records: Seq::<TinyDNSRecordView>::empty(), failed: false }
    } else {
        let p = spec_scan(lines.drop_last(), now);
        let r = spec_line_records(lines.last(), now);
        ScanResultView { records: p.records + r, failed: p.failed || r.len() == 0 }
    }
}

/// Scans all lines of one input and returns the synthesized records,
/// or nothing when any line failed; the scan always reads every line.
pub fn from_lines(lines: &Vec<String>, now: u64) -> (r: Option<Vec<TinyDNSRecord>>)
    ensures
        ({
            let s = spec_scan(lines.deep_view(), now as int);
            match r {
                Some(v) => !s.failed && v.deep_view() == s.records,
                None => s.failed,
            }
        }),
{
    let ghost dl = lines.deep_view();
    let mut retval: Vec<TinyDNSRecord> = Vec::new();
    let mut error_flag = false;
    let mut i: usize = 0;
    while i < lines.len()
        invariant
            i <= lines.len(),
            dl == lines.deep_view(),
            retval.deep_view() == spec_scan(dl.subrange(0, i as int), now as int).records,
            error_flag == spec_scan(dl.subrange(0, i as int), now as int).failed,
        decreases lines.len() - i,
    {
        let ghost pre = dl.subrange(0, i as int);
        let ghost ext = dl.subrange(0, i + 1 as int);
        proof {
            assert(ext.drop_last() =~= pre);
            assert(ext.last() == dl[i as int]);
            assert(dl[i as int] == lines[i as int]@);
        }
        let ghost prev = retval.deep_view();
        let mut parsed = line_records(lines[i].as_str(), now);
        let ghost pv = parsed.deep_view();
        if parsed.is_empty() {
            error_flag = true;
            proof {
                assert(retval.deep_view() =~= prev + pv);
            }
        } else {
            retval.append(&mut parsed);
            proof {
                assert(retval.deep_view() =~= prev + pv);
            }
        }
        i += 1;
    }
    proof {
        assert(dl.subrange(0, lines.len() as int) =~= dl);
    }
    if error_flag {
        None
    } else {
        Some(retval)
    }
}

} // verus!
