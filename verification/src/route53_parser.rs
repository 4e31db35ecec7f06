//! The simplified single-record pipeline: each line of the four basic
//! families (`+`, `^`, `C`, `'`) becomes at most one aggregated record
//! directly, with the zone reference rendered as a templated string,
//! and the same canonical-key aggregation as the full pipeline.

use vstd::prelude::*;

use crate::ipv4::is_ipv4;
use crate::ipv4::spec_is_ipv4;
use crate::route53::GenerateResultView;
use crate::route53::RecordMap;
use crate::route53::spec_upsert;
use crate::text::replace_str;
use crate::text::spec_replace;
use crate::text::spec_split;
use crate::text::spec_strip_quotes;
use crate::text::split_str;
use crate::text::str_eq;
use crate::text::strip_quotes;
use crate::tinydns::field_i32;
use crate::tinydns::spec_field_i32;
use crate::types::Route53Record;
use crate::types::Route53RecordView;

verus! {

/// The record type the four basic prefixes select.
pub open spec fn spec_prefix_rtype(c: char) -> Option<Seq<char>> {
    if c == '+' {
        Some("A"@)
    } else if c == '^' {
        Some("PTR"@)
    } else if c == 'C' {
        Some("CNAME"@)
    } else if c == '\'' {
        Some("TXT"@)
    } else {
        None
    }
}

/// The templated zone reference built from a zone label, with every
/// `.` in the label rewritten to `-`.
pub open spec fn spec_zone_ref(zone: Seq<char>) -> Seq<char> {
    "${aws_route53_zone."@ + spec_replace(zone, '.', '-') + ".zone_id}"@
}

/// The record a basic line yields in the simplified pipeline, if any:
/// the family's record type from the prefix, name and target from the
/// first two fields (target unquoted; for the `A` family it must be a
/// well-formed IPv4 address), ttl defaulting to 300 when absent or
/// unparsable, and the templated zone reference.
pub open spec fn spec_parse_line(line: Seq<char>, zone: Seq<char>) -> Option<Route53RecordView> {
    if line.len() == 0 {
        None
    } else {
        match spec_prefix_rtype(line[0]) {
            None => None,
            Some(rtype) => {
                let parts = spec_split(line.drop_first(), ':');
                if parts.len() < 2 {
                    None
                } else if rtype == "A"@ && !spec_is_ipv4(parts[1]) {
                    None
                } else {
                    Some(
                        Route53RecordView {
                            zone_id: spec_zone_ref(zone),
                            name: parts[0],
                            rtype: rtype,
                            records: seq![spec_strip_quotes(parts[1])],
                            ttl: spec_field_i32(parts, 2, 300),
                        },
                    )
                }
            },
        }
    }
}

/// Parses one basic dialect line into one aggregated record, or
/// nothing when the line is malformed for its family or its prefix is
/// not one of the four basic ones.
pub fn parse_line(line: &str, zone: &str) -> (r: Option<Route53Record>)
    ensures
        match (r, spec_parse_line(line@, zone@)) {
            (Some(rec), Some(v)) => rec@ == v,
            (None, None) => true,
            _ => false,
        },
{
    let n = line.unicode_len();
    if n == 0 {
        return None;
    }
    let prefix = line.get_char(0);
    let rtype: &str = if prefix == '+' {
        "A"
    } else if prefix == '^' {
        "PTR"
    } else if prefix == 'C' {
        "CNAME"
    } else if prefix == '\'' {
        "TXT"
    } else {
        return None;
    };
    let data = line.substring_char(1, n);
    proof {
        assert(data@ =~= line@.drop_first());
    }
    let parts = split_str(data, ':');
    let ghost dv = parts.deep_view();
    if parts.len() < 2 {
        return None;
    }
    proof {
        assert(dv[0] == parts[0]@);
        assert(dv[1] == parts[1]@);
    }
    if str_eq(rtype, "A") && !is_ipv4(parts[1].as_str()) {
        return None;
    }
    let unquoted = strip_quotes(parts[1].as_str());
    let ttl = field_i32(&parts, 2, 300);
    let mut zone_id = String::from_str("${aws_route53_zone.");
    let dashed = replace_str(zone, '.', '-');
    zone_id.append(dashed.as_str());
    zone_id.append(".zone_id}");
    let record = Route53Record::new(
        zone_id.as_str(),
        parts[0].as_str(),
        rtype,
        unquoted.as_str(),
        ttl,
    );
    Some(record)
}

// --- laws of the simplified pipeline ---

/// The ttl defaulting law of the simplified pipeline: a line that
/// parses yields ttl 300 when the field is absent or unparsable, and
/// the field's own value whenever it parses as a number.
pub proof fn lemma_parse_line_ttl(line: Seq<char>, zone: Seq<char>)
    ensures
        ({
            let parts = spec_split(line.drop_first(), ':');
            match spec_parse_line(line, zone) {
                Some(v) => {
                    &&& v.ttl == spec_field_i32(parts, 2, 300)
                    &&& (parts.len() <= 2 ==> v.ttl == 300)
                    &&& (parts.len() > 2 && crate::num::spec_parse_i32(parts[2]) is None ==> v.ttl
                        == 300)
                    &&& (parts.len() > 2 && crate::num::spec_parse_i32(parts[2]) is Some ==> v.ttl
                        == crate::num::spec_parse_i32(parts[2])->0)
                },
                None => true,
            }
        }),
{
}

/// An empty line, or one whose prefix is not one of the four basic
/// prefixes, yields no record in the simplified pipeline.
pub proof fn lemma_parse_line_bad_prefix(line: Seq<char>, zone: Seq<char>)
    requires
        line.len() == 0 || !(line[0] == '+' || line[0] == '^' || line[0] == 'C' || line[0] == '\''),
    ensures
        spec_parse_line(line, zone) is None,
{
}

/// One malformed line marks the whole simplified run failed, wherever
/// in the input it stands.
pub proof fn lemma_bad_line_flags(lines: Seq<Seq<char>>, zone: Seq<char>, i: int)
    requires
        0 <= i < lines.len(),
        spec_parse_line(lines[i], zone) is None,
    ensures
        spec_parse_lines(lines, zone).failed,
    decreases lines.len(),
{
    if i < lines.len() - 1 {
        assert(lines.drop_last()[i] == lines[i]);
        lemma_bad_line_flags(lines.drop_last(), zone, i);
    }
}

/// The fold of the simplified pipeline over whole lines: a line that
/// parses is offered to the map, a line that does not marks the run
/// failed, and the fold continues either way.
pub open spec fn spec_parse_lines(lines: Seq<Seq<char>>, zone: Seq<char>) -> GenerateResultView
    decreases lines.len(),
{
    if lines.len() == 0 {
        GenerateResultView { entries: Seq::empty(), failed: false }
    } else {
        let p = spec_parse_lines(lines.drop_last(), zone);
        match spec_parse_line(lines.last(), zone) {
            None => GenerateResultView { entries: p.entries, failed: true },
            Some(v) => {
                let u = spec_upsert(p.entries, v);
                GenerateResultView { entries: u.entries, failed: p.failed || u.conflict }
            },
        }
    }
}

/// Processes whole dialect lines into the aggregated map, or reports
/// failure when any line was malformed or any record conflicted; the
/// scan always reads every line, and on failure no partial map is
/// returned.
pub fn parse_lines(lines: &Vec<String>, zone: &str) -> (r: Option<RecordMap>)
    ensures
        ({
            let g = spec_parse_lines(lines.deep_view(), zone@);
            match r {
                Some(m) => !g.failed && m@ == g.entries && m.wf(),
                None => g.failed,
            }
        }),
{
    let ghost dl = lines.deep_view();
    let mut retval = RecordMap::new();
    let mut error_flag = false;
    let mut i: usize = 0;
    while i < lines.len()
        invariant
            i <= lines.len(),
            dl == lines.deep_view(),
            retval@ == spec_parse_lines(dl.subrange(0, i as int), zone@).entries,
            error_flag == spec_parse_lines(dl.subrange(0, i as int), zone@).failed,
            retval.wf(),
        decreases lines.len() - i,
    {
        let ghost pre = dl.subrange(0, i as int);
        let ghost ext = dl.subrange(0, i + 1 as int);
        proof {
            assert(ext.drop_last() =~= pre);
            assert(ext.last() == dl[i as int]);
            assert(dl[i as int] == lines[i as int]@);
        }
        match parse_line(lines[i].as_str(), zone) {
            None => {
                error_flag = true;
            },
            Some(record) => {
                let conflict = retval.upsert(record);
                if conflict {
                    error_flag = true;
                }
            },
        }
        i += 1;
    }
    proof {
        assert(dl.subrange(0, lines.len() as int) =~= dl);
    }
    if error_flag {
        None
    } else {
        Some(retval)
    }
}

} // verus!
