use dns_server::message::{ARecord, Class, DnsError, Ipv4Address, Name, Record};
use dns_server::record_database::RecordDatabase;
use dns_server::responder::{handle_request, respond};
use dns_server::zone::{parse_zone_line, record_from_fields, records_from_lines};

fn a_record(name: &str, ttl: u32, address: &str) -> ARecord {
    ARecord::new(Name::new(name), Class::IN, ttl, Ipv4Address::new(address).unwrap())
}

fn request_bytes(id: u16, name: &[&str]) -> Vec<u8> {
    let mut out = vec![(id >> 8) as u8, id as u8, 0x01, 0x00, 0, 1, 0, 0, 0, 0, 0, 0];
    for label in name {
        out.push(label.len() as u8);
        out.extend_from_slice(label.as_bytes());
    }
    out.extend_from_slice(&[0, 0, 1, 0, 1]);
    out
}

#[test]
fn lookup_finds_exact_name() {
    let db = RecordDatabase::new(vec![a_record("example.com", 60, "127.0.0.1")]);
    let found = db.get_record(&Name::new("example.com")).unwrap();
    assert_eq!(found.get_name(), &Name::new("example.com"));
    assert_eq!(found.address.octets(), [127, 0, 0, 1]);
    assert!(db.get_record(&Name::new("other.com")).is_none());
    assert!(db.get_record(&Name::new("EXAMPLE.com")).is_none());
}

#[test]
fn repeated_lookups_agree() {
    let db = RecordDatabase::new(vec![
        a_record("a.com", 1, "1.1.1.1"),
        a_record("example.com", 60, "127.0.0.1"),
    ]);
    let first = db.get_record(&Name::new("example.com")).map(|r| r.address.octets());
    let second = db.get_record(&Name::new("example.com")).map(|r| r.address.octets());
    assert_eq!(first, second);
    assert_eq!(first, Some([127, 0, 0, 1]));
}

#[test]
fn first_of_duplicates_wins() {
    let db = RecordDatabase::new(vec![
        a_record("dup.com", 1, "1.1.1.1"),
        a_record("dup.com", 2, "2.2.2.2"),
    ]);
    let found = db.get_record(&Name::new("dup.com")).unwrap();
    assert_eq!(found.ttl, 1);
    assert_eq!(found.address.octets(), [1, 1, 1, 1]);
}

#[test]
fn empty_table_finds_nothing() {
    let db: RecordDatabase<ARecord> = RecordDatabase::new(vec![]);
    assert!(db.get_record(&Name::new("example.com")).is_none());
}

#[test]
fn request_for_example_com_gets_its_address() {
    let db = RecordDatabase::new(vec![a_record("example.com", 60, "127.0.0.1")]);
    let raw = request_bytes(0x1234, &["example", "com"]);
    let reply = respond(&db, &raw).unwrap();
    assert_eq!(&reply[0..4], &[0x12, 0x34, 0x80, 0x00]);
    assert_eq!(&reply[4..12], &[0, 1, 0, 1, 0, 0, 0, 0]);
    assert_eq!(&reply[12..29], &raw[12..29]);
    assert_eq!(
        &reply[29..],
        &[
            0x07, 0x65, 0x78, 0x61, 0x6D, 0x70, 0x6C, 0x65, 0x03, 0x63, 0x6F, 0x6D, 0x00, 0x00,
            0x01, 0x00, 0x01, 0x00, 0x00, 0x00, 0x3C, 0x00, 0x04, 0x7F, 0x00, 0x00, 0x01
        ]
    );
}

#[test]
fn request_for_unknown_name_gets_empty_answer() {
    let db = RecordDatabase::new(vec![a_record("example.com", 60, "127.0.0.1")]);
    let raw = request_bytes(0x0042, &["other", "com"]);
    let reply = respond(&db, &raw).unwrap();
    assert_eq!(&reply[0..12], &[0x00, 0x42, 0x80, 0, 0, 1, 0, 0, 0, 0, 0, 0]);
    assert_eq!(&reply[12..], &raw[12..]);
}

#[test]
fn malformed_request_gets_no_reply() {
    let db = RecordDatabase::new(vec![a_record("example.com", 60, "127.0.0.1")]);
    assert_eq!(respond(&db, &[1, 2, 3]).unwrap_err(), DnsError::MalformedMessage);
    let mut raw = request_bytes(1, &["example", "com"]);
    raw[12] = 40;
    assert_eq!(respond(&db, &raw).unwrap_err(), DnsError::MalformedMessage);
}

#[test]
fn handle_request_builds_response() {
    let db = RecordDatabase::new(vec![a_record("example.com", 60, "127.0.0.1")]);
    let raw = request_bytes(0x1234, &["example", "com"]);
    let request = dns_server::message::DnsMessage::from_bytes(&raw).unwrap();
    let response = handle_request(&db, request);
    assert_eq!(response.header.id, 0x1234);
    assert!(response.header.qr);
    assert_eq!(response.header.ancount, 1);
    assert!(response.answer.is_some());
}

#[test]
fn zone_line_gives_address_record() {
    let rec = parse_zone_line("example.com   IN\tA 127.0.0.1", 60).unwrap().unwrap();
    assert_eq!(rec.name, Name::new("example.com"));
    assert_eq!(rec.class, Class::IN);
    assert_eq!(rec.ttl, 60);
    assert_eq!(rec.address.octets(), [127, 0, 0, 1]);
}

#[test]
fn zone_blank_and_comment_lines_are_skipped() {
    assert!(parse_zone_line("", 1).unwrap().is_none());
    assert!(parse_zone_line("; a comment", 1).unwrap().is_none());
}

#[test]
fn zone_line_errors() {
    assert_eq!(
        parse_zone_line("x.com IN MX 1.2.3.4", 1).unwrap_err(),
        DnsError::UnsupportedRecordType
    );
    assert_eq!(
        parse_zone_line("x.com CH A 1.2.3.4", 1).unwrap_err(),
        DnsError::UnsupportedClass
    );
    assert_eq!(
        parse_zone_line("x.com IN A 1.2.3.400", 1).unwrap_err(),
        DnsError::InvalidAddressLiteral
    );
    assert_eq!(
        parse_zone_line("x.com IN A", 1).unwrap_err(),
        DnsError::MalformedZoneEntry
    );
    assert_eq!(
        parse_zone_line("   ", 1).unwrap_err(),
        DnsError::MalformedZoneEntry
    );
}

#[test]
fn fields_give_record() {
    let fields: Vec<String> = ["host", "IN", "A", "10.1.2.3"].iter().map(|s| s.to_string()).collect();
    let rec = record_from_fields(&fields, 5).unwrap();
    assert_eq!(rec.name, Name::new("host"));
    assert_eq!(rec.address.octets(), [10, 1, 2, 3]);
    let short: Vec<String> = vec!["host".to_string()];
    assert_eq!(record_from_fields(&short, 5).unwrap_err(), DnsError::MalformedZoneEntry);
}

#[test]
fn unicode_white_space_separates_fields() {
    let rec = parse_zone_line("host\u{3000}IN\u{a0}A\u{2003}9.8.7.6", 3).unwrap().unwrap();
    assert_eq!(rec.name, Name::new("host"));
    assert_eq!(rec.address.octets(), [9, 8, 7, 6]);
}

#[test]
fn zone_lines_load_in_order_skipping_bad_entries() {
    let lines: Vec<String> = [
        "; zone",
        "",
        "one.com IN A 1.1.1.1",
        "two.com IN MX 2.2.2.2",
        "three.com CH A 3.3.3.3",
        "four.com IN A",
        "five.com IN A 5.5.5.5",
    ]
    .iter()
    .map(|s| s.to_string())
    .collect();
    let records = records_from_lines(&lines, 7).unwrap();
    assert_eq!(records.len(), 2);
    assert_eq!(records[0].name, Name::new("one.com"));
    assert_eq!(records[1].name, Name::new("five.com"));
    assert_eq!(records[1].address.octets(), [5, 5, 5, 5]);
    assert_eq!(records[1].ttl, 7);
}

#[test]
fn zone_load_fails_on_bad_address() {
    let lines: Vec<String> = ["one.com IN A 1.1.1.1", "bad.com IN A 1.1.1.256"]
        .iter()
        .map(|s| s.to_string())
        .collect();
    assert_eq!(
        records_from_lines(&lines, 1).unwrap_err(),
        DnsError::InvalidAddressLiteral
    );
    assert!(records_from_lines(&vec![], 1).unwrap().is_empty());
}
