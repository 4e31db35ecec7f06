// Tests of the simplified single-record pipeline: one line in, at most
// one aggregated record out, and the whole-input fold.

use tiny2terra::route53_parser::parse_line;
use tiny2terra::route53_parser::parse_lines;
use tiny2terra::types::Route53Record;

// Ensure parse_line turns a valid line into a valid Route53Record
#[test]
fn test_r53_parse_line() {
    let line = "+test.foo.com:1.2.3.4:450";
    let zone = "${aws_route53_zone.zone.zone_id}";
    let x = Route53Record::new(&zone, "test.foo.com", "A", "1.2.3.4", 450);
    let y = parse_line(&line, "zone").unwrap();
    assert_eq!(x, y);
}

// Ensure a return of None on unsupported prefix
#[test]
fn test_r53_parse_line_bad_prefix() {
    let x = parse_line("@foo.com:1.2.3.4:123", "zone");
    assert_eq!(x.is_none(), true);
}

// Ensure a return of None on invalid line (doesn't split on : into 3)
#[test]
fn test_r53_parse_line_bad_line() {
    let x = parse_line("foo", "zone");
    assert_eq!(x.is_none(), true);
}

// Ensure non-integer TTL is ignored and replaced by 300
#[test]
fn test_r53_parse_line_bad_ttl() {
    let line = "+test.foo.com:1.2.3.4:foo";
    let y = parse_line(&line, "zone").unwrap();
    assert_eq!(300, y.ttl);
}

// Make sure the 4 accepted prefixes are all accepted
#[test]
fn test_r53_parse_line_check_prefixes() {
    let a = parse_line("+test.foo.com:1.2.3.4:300", "z");
    let ptr = parse_line("^4.3.2.1.in-addr.arpa:foo:300", "z");
    let cn = parse_line("Cbar:foo:300", "z");
    let txt = parse_line("'baz:string:300", "z");
    assert_eq!(a.is_some(), true);
    assert_eq!(ptr.is_some(), true);
    assert_eq!(cn.is_some(), true);
    assert_eq!(txt.is_some(), true);
}

// A ttl field that is missing altogether also defaults to 300.
#[test]
fn test_r53_parse_line_absent_ttl() {
    let y = parse_line("+test.foo.com:1.2.3.4", "zone").unwrap();
    assert_eq!(300, y.ttl);
}

// An A-family line whose target is not a well-formed IPv4 address is
// rejected.
#[test]
fn test_r53_parse_line_bad_address() {
    assert!(parse_line("+test.foo.com:1.2.3.256:300", "zone").is_none());
    assert!(parse_line("+test.foo.com:01.2.3.4:300", "zone").is_none());
    assert!(parse_line("+test.foo.com:1.2.3:300", "zone").is_none());
}

// Double quotes in the target are stripped.
#[test]
fn test_r53_parse_line_strips_quotes() {
    let y = parse_line("'txt.foo.com:\"Some text\":300", "zone").unwrap();
    assert_eq!(y.records, vec!["Some text".to_string()]);
}

// The zone label's dots are rewritten to dashes inside the templated
// zone reference.
#[test]
fn test_r53_parse_line_zone_template() {
    let y = parse_line("+test.foo.com:1.2.3.4:300", "foo.com").unwrap();
    assert_eq!(y.zone_id, "${aws_route53_zone.foo-com.zone_id}".to_string());
}

// A run over lines with one bad line yields no map at all.
#[test]
fn test_parse_lines_bad_line() {
    let lines = vec!["+good.foo.com:1.2.3.4:300".to_string(), "baddata".to_string()];
    let x = parse_lines(&lines, "foo");
    assert!(x.is_none());
}

// A well-formed input of one line per basic family produces exactly
// four entries, each under its lowercase, dot-to-hyphen key.
#[test]
fn test_parse_lines_good_input() {
    let lines = vec![
        "+foo.nike.com:1.2.3.4:600".to_string(),
        "^4.3.2.1.in-addr.arpa:foo.nike.com:600".to_string(),
        "Cbar.nike.com:foo.nike.com:600".to_string(),
        "'txt.nike.com:\"Some text string\":600".to_string(),
    ];
    let x = parse_lines(&lines, "foo").unwrap();
    assert_eq!(4, x.len());
    assert!(x.contains_key(&"a-foo-nike-com".to_string()));
    assert!(x.contains_key(&"ptr-4-3-2-1-in-addr-arpa".to_string()));
    assert!(x.contains_key(&"cname-bar-nike-com".to_string()));
    assert!(x.contains_key(&"txt-txt-nike-com".to_string()));
    let zone = "${aws_route53_zone.foo.zone_id}";
    let a = Route53Record::new(&zone, "foo.nike.com", "A", "1.2.3.4", 600);
    let got = x.get(&"a-foo-nike-com".to_string()).unwrap();
    assert_eq!(&a, got);
    let txt = Route53Record::new(&zone, "txt.nike.com", "TXT", "Some text string", 600);
    let got_txt = x.get(&"txt-txt-nike-com".to_string()).unwrap();
    assert_eq!(&txt, got_txt);
}

// Two same-key records of one kind merge into one entry, the newer
// values in front.
#[test]
fn test_parse_lines_merges_same_key() {
    let lines = vec![
        "+host.foo.com:1.2.3.4:300".to_string(),
        "+host.foo.com:5.6.7.8:300".to_string(),
    ];
    let x = parse_lines(&lines, "foo").unwrap();
    assert_eq!(1, x.len());
    let got = x.get(&"a-host-foo-com".to_string()).unwrap();
    assert_eq!(got.records, vec!["5.6.7.8".to_string(), "1.2.3.4".to_string()]);
}
