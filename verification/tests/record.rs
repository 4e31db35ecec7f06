// Tests of the aggregated record type: construction, appending,
// merging, and order-insensitive equality.

use tiny2terra::types::Route53Record;

// Make sure the 'new' function properly converts the &strs sent to it
// into Strings, and the record &str into a Vec<String>.
#[test]
fn test_record_new() {
    let rec = vec!["a".to_string()];
    let x = Route53Record {
        zone_id: "zone".to_string(),
        name: "name".to_string(),
        rtype: "rtype".to_string(),
        records: rec,
        ttl: 123,
    };
    let y = Route53Record::new("zone", "name", "rtype", "a", 123);
    assert_eq!(x, y);
}

// Make sure add_record properly adds a &str to the records Vec
#[test]
fn test_record_add() {
    let rec = vec!["a".to_string(), "b".to_string()];
    let x = Route53Record {
        zone_id: "zone".to_string(),
        name: "name".to_string(),
        rtype: "rtype".to_string(),
        records: rec,
        ttl: 123,
    };
    let mut y = Route53Record::new("zone", "name", "rtype", "a", 123);
    y.add_record("b");
    assert_eq!(x, y);
}

// Make sure merge properly merges together the records vectors of the two
// structs involved
#[test]
fn test_record_merge() {
    let rec = vec!["a".to_string(), "b".to_string()];
    let x = Route53Record {
        zone_id: "zone".to_string(),
        name: "name".to_string(),
        rtype: "rtype".to_string(),
        records: rec,
        ttl: 123,
    };
    let mut y = Route53Record::new("zone", "name", "rtype", "a", 123);
    let z = Route53Record::new("zone", "name", "rtype", "b", 123);
    y.merge(&z);
    assert_eq!(x, y);
}

// Test equality
#[test]
fn test_record_eq() {
    let x = Route53Record::new("zone", "name", "rtype", "a", 123);
    let y = Route53Record::new("zone", "name", "rtype", "a", 123);
    let z = Route53Record::new("zone", "name", "rtype", "b", 123);
    let a = Route53Record::new("zone", "eman", "rtype", "a", 123);
    assert_eq!(x, y);
    assert_ne!(x, z);
    assert_ne!(x, a);
}

// The merge method prepends the other record's values ahead of this
// record's values, preserving order.
#[test]
fn test_merge_prepends_other() {
    let mut y = Route53Record::new("zone", "name", "rtype", "a", 123);
    let z = Route53Record::new("zone", "name", "rtype", "b", 123);
    let ok = y.merge(&z);
    assert!(ok);
    assert_eq!(y.records, vec!["b".to_string(), "a".to_string()]);
}

// A merge across differing record types is refused and changes nothing.
#[test]
fn test_merge_type_mismatch() {
    let mut y = Route53Record::new("zone", "name", "A", "a", 123);
    let z = Route53Record::new("zone", "name", "CNAME", "b", 123);
    let ok = y.merge(&z);
    assert!(!ok);
    assert_eq!(y.records, vec!["a".to_string()]);
}

// Equality ignores the order of values but not their multiplicity.
#[test]
fn test_eq_value_order() {
    let mut x = Route53Record::new("zone", "name", "rtype", "a", 123);
    x.add_record("b");
    let mut y = Route53Record::new("zone", "name", "rtype", "b", 123);
    y.add_record("a");
    assert_eq!(x, y);

    let single = Route53Record::new("zone", "name", "rtype", "a", 123);
    let mut doubled = Route53Record::new("zone", "name", "rtype", "a", 123);
    doubled.add_record("a");
    assert_ne!(single, doubled);
}
