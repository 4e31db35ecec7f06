// Tests of the record synthesizer: the per-family expansion of one
// dialect line into typed records, and the whole-input scan.

use tiny2terra::tinydns::from_lines;
use tiny2terra::tinydns::line_records;
use tiny2terra::tinydns::parse;
use tiny2terra::tinydns::parse_ans;
use tiny2terra::tinydns::parse_anssoa;
use tiny2terra::tinydns::parse_aptr;
use tiny2terra::tinydns::parse_mx;
use tiny2terra::tinydns::parse_soa;

// A basic A line becomes one record with its fields in place.
#[test]
fn test_parse_a() {
    let r = parse("A", "test.foo.com:1.2.3.4:450");
    assert_eq!(r.len(), 1);
    assert_eq!(r[0].rtype, "A".to_string());
    assert_eq!(r[0].fqdn, "test.foo.com".to_string());
    assert_eq!(r[0].target, "1.2.3.4".to_string());
    assert_eq!(r[0].ttl, 450);
}

// The ttl of a basic line defaults to 300 when absent and when
// non-numeric, and a valid numeric ttl is never altered.
#[test]
fn test_parse_ttl_defaulting() {
    assert_eq!(parse("CNAME", "bar:foo")[0].ttl, 300);
    assert_eq!(parse("CNAME", "bar:foo:oops")[0].ttl, 300);
    assert_eq!(parse("CNAME", "bar:foo:86400")[0].ttl, 86400);
    assert_eq!(parse("CNAME", "bar:foo:99999999999")[0].ttl, 300);
    assert_eq!(parse("CNAME", "bar:foo:-5")[0].ttl, -5);
}

// A basic line with fewer than two fields fails.
#[test]
fn test_parse_too_few_fields() {
    assert!(parse("TXT", "loner").is_empty());
}

// An A line whose target is not a well-formed address fails; the
// other basic families accept any target.
#[test]
fn test_parse_address_check() {
    assert!(parse("A", "test.foo.com:not-an-ip:300").is_empty());
    assert!(parse("A", "test.foo.com:1.2.3.4.5:300").is_empty());
    assert_eq!(parse("PTR", "4.3.2.1.in-addr.arpa:not-an-ip:300").len(), 1);
}

// Quotes in a basic line's target are stripped.
#[test]
fn test_parse_strips_quotes() {
    let r = parse("TXT", "txt.foo.com:\"hello world\":300");
    assert_eq!(r[0].target, "hello world".to_string());
}

// An MX line yields the MX record and its companion A record, the
// mail host's name derived with the `.mx.` marker when bare.
#[test]
fn test_parse_mx_derived_name() {
    let r = parse_mx("example.com:1.2.3.4:mail1:10:600");
    assert_eq!(r.len(), 2);
    assert_eq!(r[0].rtype, "MX".to_string());
    assert_eq!(r[0].fqdn, "example.com".to_string());
    assert_eq!(r[0].target, "10 mail1.mx.example.com".to_string());
    assert_eq!(r[0].ttl, 600);
    assert_eq!(r[1].rtype, "A".to_string());
    assert_eq!(r[1].fqdn, "mail1.mx.example.com".to_string());
    assert_eq!(r[1].target, "1.2.3.4".to_string());
}

// A mail host name that already contains a dot is used verbatim.
#[test]
fn test_parse_mx_verbatim_name() {
    let r = parse_mx("example.com:1.2.3.4:mail.example.org");
    assert_eq!(r.len(), 2);
    assert_eq!(r[0].target, "0 mail.example.org".to_string());
    assert_eq!(r[1].fqdn, "mail.example.org".to_string());
    assert_eq!(r[0].ttl, 300);
}

// An MX line needs three fields and a valid address.
#[test]
fn test_parse_mx_failures() {
    assert!(parse_mx("example.com:1.2.3.4").is_empty());
    assert!(parse_mx("example.com:bad:mail1").is_empty());
}

// An SOA line's target is the space-joined sequence of name server,
// contact and the five numeric fields, with the caller's clock value
// standing in for a missing serial.
#[test]
fn test_parse_soa_defaults() {
    let r = parse_soa("example.com:ns1.example.com:host.example.com", 777);
    assert_eq!(r.len(), 1);
    assert_eq!(r[0].rtype, "SOA".to_string());
    assert_eq!(r[0].fqdn, "example.com".to_string());
    assert_eq!(
        r[0].target,
        "ns1.example.com host.example.com 777 16384 2048 1048576 2560".to_string()
    );
    assert_eq!(r[0].ttl, 300);
}

// Explicit SOA numeric fields are used, and an unparsable one falls
// back to its own default.
#[test]
fn test_parse_soa_explicit() {
    let r = parse_soa("example.com:ns1:host:5:6:7:8:9:60", 777);
    assert_eq!(r[0].target, "ns1 host 5 6 7 8 9".to_string());
    assert_eq!(r[0].ttl, 60);
    let d = parse_soa("example.com:ns1:host:oops:6", 777);
    assert_eq!(d[0].target, "ns1 host 777 6 2048 1048576 2560".to_string());
}

// A `.` line yields NS, A and SOA records, the SOA target ending in
// the fixed literal defaults.
#[test]
fn test_parse_anssoa() {
    let r = parse_anssoa("example.com:1.2.3.4:a:600");
    assert_eq!(r.len(), 3);
    assert_eq!(r[0].rtype, "NS".to_string());
    assert_eq!(r[0].fqdn, "a.ns.example.com".to_string());
    assert_eq!(r[0].target, "example.com".to_string());
    assert_eq!(r[1].rtype, "A".to_string());
    assert_eq!(r[1].fqdn, "a.ns.example.com".to_string());
    assert_eq!(r[1].target, "1.2.3.4".to_string());
    assert_eq!(r[2].rtype, "SOA".to_string());
    assert_eq!(r[2].fqdn, "example.com".to_string());
    assert_eq!(
        r[2].target,
        "a.ns.example.com hostmaster.example.com 1 1 1 1 60".to_string()
    );
}

// A `.` line with an empty address field skips the A record.
#[test]
fn test_parse_anssoa_empty_ip() {
    let r = parse_anssoa("example.com::a:600");
    assert_eq!(r.len(), 2);
    assert_eq!(r[0].rtype, "NS".to_string());
    assert_eq!(r[1].rtype, "SOA".to_string());
}

// An `&` line yields NS and A records for the name server.
#[test]
fn test_parse_ans() {
    let r = parse_ans("example.com:1.2.3.4:b");
    assert_eq!(r.len(), 2);
    assert_eq!(r[0].rtype, "NS".to_string());
    assert_eq!(r[0].fqdn, "b.ns.example.com".to_string());
    assert_eq!(r[0].target, "example.com".to_string());
    assert_eq!(r[1].rtype, "A".to_string());
    assert_eq!(r[1].target, "1.2.3.4".to_string());
}

// An `=` line yields an A record and a PTR record under the
// reverse-lookup name with the octets reversed.
#[test]
fn test_parse_aptr() {
    let r = parse_aptr("fqdn.example.com:10.0.0.1");
    assert_eq!(r.len(), 2);
    assert_eq!(r[0].rtype, "A".to_string());
    assert_eq!(r[0].fqdn, "fqdn.example.com".to_string());
    assert_eq!(r[0].target, "10.0.0.1".to_string());
    assert_eq!(r[1].rtype, "PTR".to_string());
    assert_eq!(r[1].fqdn, "1.0.0.10.in-addr.arpa".to_string());
    assert_eq!(r[1].target, "fqdn.example.com".to_string());
    assert_eq!(r[1].ttl, 300);
}

// An `=` line needs two fields and a valid address.
#[test]
fn test_parse_aptr_failures() {
    assert!(parse_aptr("fqdn.example.com").is_empty());
    assert!(parse_aptr("fqdn.example.com:10.0.0").is_empty());
}

// A line with an unrecognized prefix, or an empty line, synthesizes
// zero records.
#[test]
fn test_line_records_unrecognized_prefix() {
    assert!(line_records("?what.example.com:1.2.3.4", 0).is_empty());
    assert!(line_records("", 0).is_empty());
}

// Each recognized prefix dispatches to its family.
#[test]
fn test_line_records_dispatch() {
    assert_eq!(line_records("+a.example.com:1.2.3.4", 0)[0].rtype, "A".to_string());
    assert_eq!(line_records("^4.3.2.1.in-addr.arpa:x", 0)[0].rtype, "PTR".to_string());
    assert_eq!(line_records("Ca.example.com:b.example.com", 0)[0].rtype, "CNAME".to_string());
    assert_eq!(line_records("'a.example.com:text", 0)[0].rtype, "TXT".to_string());
    assert_eq!(line_records("@a.example.com:1.2.3.4:m", 0)[0].rtype, "MX".to_string());
    assert_eq!(line_records("Za.example.com:ns:ct", 0)[0].rtype, "SOA".to_string());
    assert_eq!(line_records(".a.example.com:1.2.3.4:n", 0).len(), 3);
    assert_eq!(line_records("&a.example.com:1.2.3.4:n", 0).len(), 2);
    assert_eq!(line_records("=a.example.com:1.2.3.4", 0).len(), 2);
}

// A scan over well-formed lines flattens every family's records; one
// failed line anywhere makes the whole scan yield nothing.
#[test]
fn test_from_lines() {
    let good = vec![
        "+a.example.com:1.2.3.4:300".to_string(),
        "=b.example.com:5.6.7.8".to_string(),
    ];
    let recs = from_lines(&good, 42).unwrap();
    assert_eq!(recs.len(), 3);

    let bad = vec![
        "+a.example.com:1.2.3.4:300".to_string(),
        "?bogus".to_string(),
        "=b.example.com:5.6.7.8".to_string(),
    ];
    assert!(from_lines(&bad, 42).is_none());
}
