// Tests of the aggregation engine: canonical keys, zone selection,
// merging, conflicts, and the end-to-end pipeline.

use tiny2terra::route53::canonical_key;
use tiny2terra::route53::generate;
use tiny2terra::route53::ResourceSection;
use tiny2terra::route53::Route53File;
use tiny2terra::tinydns::from_lines;
use tiny2terra::types::TinyDNSRecord;

fn tdr(rtype: &str, fqdn: &str, target: &str, ttl: i32) -> TinyDNSRecord {
    TinyDNSRecord {
        rtype: rtype.to_string(),
        fqdn: fqdn.to_string(),
        target: target.to_string(),
        ttl,
    }
}

// The canonical key trims one trailing dot, lower-cases, and rewrites
// dots to dashes.
#[test]
fn test_canonical_key() {
    assert_eq!(canonical_key("A", "Foo.Example.Com"), "a-foo-example-com".to_string());
    assert_eq!(canonical_key("PTR", "4.3.2.1.in-addr.arpa"), "ptr-4-3-2-1-in-addr-arpa".to_string());
    assert_eq!(canonical_key("CNAME", "bar.example.com."), "cname-bar-example-com".to_string());
}

// PTR records go under the reverse zone, everything else under the
// forward zone.
#[test]
fn test_generate_zone_selection() {
    let tdrs = vec![
        tdr("A", "a.example.com", "1.2.3.4", 300),
        tdr("PTR", "4.3.2.1.in-addr.arpa", "a.example.com", 300),
    ];
    let map = generate("fwd", "rev", &tdrs).unwrap();
    assert_eq!(map.len(), 2);
    let a = map.get(&"a-a-example-com".to_string()).unwrap();
    assert_eq!(a.zone_id, "fwd".to_string());
    let p = map.get(&"ptr-4-3-2-1-in-addr-arpa".to_string()).unwrap();
    assert_eq!(p.zone_id, "rev".to_string());
}

// Merging two same-key records of one kind prepends the newer values:
// ["b"] merged into an entry holding ["a"] yields ["b", "a"], and the
// scalar fields follow the newest side.
#[test]
fn test_generate_merge_prepends() {
    let tdrs = vec![
        tdr("A", "host.example.com", "a", 300),
        tdr("A", "host.example.com", "b", 600),
    ];
    let map = generate("fwd", "rev", &tdrs).unwrap();
    assert_eq!(map.len(), 1);
    let rec = map.get(&"a-host-example-com".to_string()).unwrap();
    assert_eq!(rec.records, vec!["b".to_string(), "a".to_string()]);
    assert_eq!(rec.ttl, 600);
}

// Two PTR records resolving to the same canonical key are a rejected
// merge: the whole aggregation reports failure.
#[test]
fn test_generate_ptr_conflict() {
    let tdrs = vec![
        tdr("PTR", "4.3.2.1.in-addr.arpa", "a.example.com", 300),
        tdr("PTR", "4.3.2.1.in-addr.arpa", "b.example.com", 300),
    ];
    assert!(generate("fwd", "rev", &tdrs).is_none());
}

// Same-key records of differing kinds are a rejected merge too.
#[test]
fn test_generate_kind_mismatch() {
    let tdrs = vec![
        tdr("A", "weird", "1.2.3.4", 300),
        tdr("a", "WEIRD", "x", 300),
    ];
    assert!(generate("fwd", "rev", &tdrs).is_none());
}

// Differing names that canonicalize alike share one entry.
#[test]
fn test_generate_key_canonicalization() {
    let tdrs = vec![
        tdr("A", "Host.Example.Com.", "a", 300),
        tdr("A", "host.example.com", "b", 300),
    ];
    let map = generate("fwd", "rev", &tdrs).unwrap();
    assert_eq!(map.len(), 1);
    let rec = map.get(&"a-host-example-com".to_string()).unwrap();
    assert_eq!(rec.records, vec!["b".to_string(), "a".to_string()]);
    assert_eq!(rec.name, "host.example.com".to_string());
}

// The output document wraps the aggregated map in a labelled
// resource section.
#[test]
fn test_route53_file_shape() {
    let tdrs = vec![tdr("A", "a.example.com", "1.2.3.4", 300)];
    let map = generate("fwd", "rev", &tdrs).unwrap();
    let doc = Route53File {
        resource: vec![ResourceSection {
            label: "aws_route53_record".to_string(),
            records: map,
        }],
    };
    assert_eq!(doc.resource.len(), 1);
    assert_eq!(doc.resource[0].label, "aws_route53_record".to_string());
    assert_eq!(doc.resource[0].records.len(), 1);
}

// End to end: one line per basic family scans and aggregates into
// exactly four entries, each under its lowercase dot-to-hyphen key.
#[test]
fn test_end_to_end() {
    let lines = vec![
        "+foo.nike.com:1.2.3.4:600".to_string(),
        "^4.3.2.1.in-addr.arpa:foo.nike.com:600".to_string(),
        "Cbar.nike.com:foo.nike.com:600".to_string(),
        "'txt.nike.com:\"Some text string\":600".to_string(),
    ];
    let recs = from_lines(&lines, 0).unwrap();
    assert_eq!(recs.len(), 4);
    let map = generate("fwd", "rev", &recs).unwrap();
    assert_eq!(map.len(), 4);
    assert!(map.contains_key(&"a-foo-nike-com".to_string()));
    assert!(map.contains_key(&"ptr-4-3-2-1-in-addr-arpa".to_string()));
    assert!(map.contains_key(&"cname-bar-nike-com".to_string()));
    assert!(map.contains_key(&"txt-txt-nike-com".to_string()));
    let txt = map.get(&"txt-txt-nike-com".to_string()).unwrap();
    assert_eq!(txt.records, vec!["Some text string".to_string()]);
    assert_eq!(txt.ttl, 600);
}
