use bytes::BytesMut;
use dns_server::wire::output_buffer;
use dns_server::message::{
    ARecord, Answer, Class, DnsError, DnsMessage, Ipv4Address, Label, Name, QName, Question,
};

fn request_bytes(id: u16, name: &[&str], qtype: u16, qclass: u16) -> Vec<u8> {
    let mut out = vec![(id >> 8) as u8, id as u8, 0x01, 0x00, 0, 1, 0, 0, 0, 0, 0, 0];
    for label in name {
        out.push(label.len() as u8);
        out.extend_from_slice(label.as_bytes());
    }
    out.push(0);
    out.extend_from_slice(&qtype.to_be_bytes());
    out.extend_from_slice(&qclass.to_be_bytes());
    out
}

#[test]
fn test_write_answer() {
    let mut buf = BytesMut::with_capacity(512);
    let record = ARecord::new(
        Name::new("example.com"),
        Class::IN,
        1,
        Ipv4Address::new("127.0.0.1").unwrap(),
    );
    let answer = Answer::new(Some(&record)).unwrap();
    answer.write(&mut buf).unwrap();
    assert_eq!(
        buf.to_vec(),
        vec![
            7, 101, 120, 97, 109, 112, 108, 101, 3, 99, 111, 109, 0, 0, 1, 0, 1, 0, 0, 0, 1, 0,
            4, 127, 0, 0, 1
        ]
    );
}

#[test]
fn test_write_question() {
    let mut buf = BytesMut::with_capacity(512);
    let question = Question {
        name: QName {
            labels: vec![
                Label {
                    value: "example".to_string(),
                },
                Label {
                    value: "com".to_string(),
                },
            ],
        },
        qtype: 1,
        qclass: 1,
    };
    question.write(&mut buf).unwrap();
    assert_eq!(
        buf.to_vec(),
        vec![7, 101, 120, 97, 109, 112, 108, 101, 3, 99, 111, 109, 0, 0, 1, 0, 1]
    );
}

#[test]
fn answer_section_for_example_com_with_ttl_sixty() {
    let mut buf = BytesMut::new();
    let record = ARecord::new(
        Name::new("example.com"),
        Class::IN,
        60,
        Ipv4Address::new("127.0.0.1").unwrap(),
    );
    Answer::new(Some(&record)).unwrap().write(&mut buf).unwrap();
    assert_eq!(
        buf.to_vec(),
        vec![
            0x07, 0x65, 0x78, 0x61, 0x6D, 0x70, 0x6C, 0x65, 0x03, 0x63, 0x6F, 0x6D, 0x00, 0x00,
            0x01, 0x00, 0x01, 0x00, 0x00, 0x00, 0x3C, 0x00, 0x04, 0x7F, 0x00, 0x00, 0x01
        ]
    );
}

#[test]
fn answer_absent_without_record() {
    assert!(Answer::new::<ARecord>(None).is_none());
}

#[test]
fn question_decodes_after_header() {
    let raw = request_bytes(7, &["example", "com"], 1, 1);
    let (question, used) = Question::from_request(&raw).unwrap();
    assert_eq!(used, 17);
    assert_eq!(question.qtype, 1);
    assert_eq!(question.qclass, 1);
    assert_eq!(question.get_qname().to_name(), Name::new("example.com"));
}

#[test]
fn question_type_and_class_are_big_endian() {
    let raw = request_bytes(7, &["a"], 0x1c01, 0x00ff);
    let (question, _) = Question::from_request(&raw).unwrap();
    assert_eq!(question.qtype, 0x1c01);
    assert_eq!(question.qclass, 0x00ff);
}

#[test]
fn question_missing_type_is_malformed() {
    let mut raw = request_bytes(7, &["example", "com"], 1, 1);
    raw.truncate(raw.len() - 1);
    assert_eq!(
        Question::from_request(&raw).unwrap_err(),
        DnsError::MalformedMessage
    );
}

#[test]
fn message_decodes_header_and_question() {
    let raw = request_bytes(0xbeef, &["example", "com"], 1, 1);
    let message = DnsMessage::from_bytes(&raw).unwrap();
    assert_eq!(message.header.id, 0xbeef);
    assert!(message.header.rd);
    assert!(!message.header.qr);
    assert_eq!(message.header.qdcount, 1);
    assert!(message.answer.is_none());
    assert_eq!(
        message.get_question().get_qname().to_name(),
        Name::new("example.com")
    );
}

#[test]
fn short_buffer_is_malformed() {
    let raw = [0u8; 11];
    assert_eq!(
        DnsMessage::from_bytes(&raw).unwrap_err(),
        DnsError::MalformedMessage
    );
    assert_eq!(
        DnsMessage::from_bytes(&[]).unwrap_err(),
        DnsError::MalformedMessage
    );
}

#[test]
fn header_only_buffer_is_malformed() {
    let raw = [0u8; 12];
    assert_eq!(
        DnsMessage::from_bytes(&raw).unwrap_err(),
        DnsError::MalformedMessage
    );
}

#[test]
fn label_running_past_the_buffer_is_malformed() {
    let mut raw = request_bytes(1, &[], 1, 1);
    raw.truncate(12);
    raw.extend_from_slice(&[10, b'a', b'b']);
    assert_eq!(
        DnsMessage::from_bytes(&raw).unwrap_err(),
        DnsError::MalformedMessage
    );
}

#[test]
fn later_label_running_past_the_buffer_is_malformed() {
    let mut raw = request_bytes(1, &[], 1, 1);
    raw.truncate(12);
    raw.extend_from_slice(&[1, b'a', 200, b'b']);
    assert_eq!(
        DnsMessage::from_bytes(&raw).unwrap_err(),
        DnsError::MalformedMessage
    );
}

#[test]
fn label_longer_than_sixty_three_is_malformed() {
    let mut raw = request_bytes(1, &[], 1, 1);
    raw.truncate(12);
    raw.push(64);
    raw.extend_from_slice(&[b'x'; 64]);
    raw.extend_from_slice(&[0, 0, 1, 0, 1]);
    assert_eq!(
        DnsMessage::from_bytes(&raw).unwrap_err(),
        DnsError::MalformedMessage
    );
}

#[test]
fn label_that_is_not_utf8_is_malformed() {
    let mut raw = request_bytes(1, &[], 1, 1);
    raw.truncate(12);
    raw.extend_from_slice(&[2, 0xff, 0xfe, 0, 0, 1, 0, 1]);
    assert_eq!(
        DnsMessage::from_bytes(&raw).unwrap_err(),
        DnsError::MalformedMessage
    );
}

#[test]
fn utf8_label_decodes_to_its_text() {
    let mut raw = request_bytes(1, &[], 1, 1);
    raw.truncate(12);
    raw.extend_from_slice(&[2, 0xc3, 0xa9, 0, 0, 1, 0, 1]);
    let message = DnsMessage::from_bytes(&raw).unwrap();
    assert_eq!(message.get_question().get_qname().to_name(), Name::new("é"));
}

#[test]
fn response_echoes_id_and_counts_one_answer() {
    let raw = request_bytes(0x1234, &["example", "com"], 1, 1);
    let request = DnsMessage::from_bytes(&raw).unwrap();
    let record = ARecord::new(
        Name::new("example.com"),
        Class::IN,
        60,
        Ipv4Address::new("127.0.0.1").unwrap(),
    );
    let response = DnsMessage::answer(request, Some(&record));
    assert_eq!(response.header.id, 0x1234);
    assert!(response.header.qr);
    assert_eq!(response.header.ancount, 1);
    assert_eq!(response.header.qdcount, 1);
    assert!(response.answer.is_some());
}

#[test]
fn response_without_match_has_no_answer() {
    let raw = request_bytes(0x1234, &["other", "com"], 1, 1);
    let request = DnsMessage::from_bytes(&raw).unwrap();
    let response = DnsMessage::answer::<ARecord>(request, None);
    assert_eq!(response.header.id, 0x1234);
    assert!(response.header.qr);
    assert_eq!(response.header.ancount, 0);
    assert!(response.answer.is_none());
    let bytes = response.to_bytes().unwrap();
    assert_eq!(bytes.len(), 12 + 11 + 4);
    assert_eq!(&bytes[12..], &raw[12..]);
}

#[test]
fn response_encodes_sections_in_order() {
    let raw = request_bytes(0x1234, &["example", "com"], 1, 1);
    let request = DnsMessage::from_bytes(&raw).unwrap();
    let record = ARecord::new(
        Name::new("example.com"),
        Class::IN,
        60,
        Ipv4Address::new("127.0.0.1").unwrap(),
    );
    let bytes = DnsMessage::answer(request, Some(&record)).to_bytes().unwrap();
    assert_eq!(&bytes[0..12], &[0x12, 0x34, 0x80, 0, 0, 1, 0, 1, 0, 0, 0, 0]);
    assert_eq!(&bytes[12..29], &raw[12..29]);
    assert_eq!(
        &bytes[29..],
        &[
            0x07, 0x65, 0x78, 0x61, 0x6D, 0x70, 0x6C, 0x65, 0x03, 0x63, 0x6F, 0x6D, 0x00, 0x00,
            0x01, 0x00, 0x01, 0x00, 0x00, 0x00, 0x3C, 0x00, 0x04, 0x7F, 0x00, 0x00, 0x01
        ]
    );
}

#[test]
fn record_with_overlong_label_is_not_written() {
    let long = "x".repeat(64);
    let record = ARecord::new(
        Name::new(&format!("{}.com", long)),
        Class::IN,
        60,
        Ipv4Address::new("10.0.0.1").unwrap(),
    );
    let mut buf = BytesMut::new();
    let answer = Answer::new(Some(&record)).unwrap();
    assert_eq!(answer.write(&mut buf).unwrap_err(), DnsError::InvalidName);
    assert!(buf.is_empty());
}

#[test]
fn address_literal_out_of_range_is_rejected() {
    assert_eq!(
        Ipv4Address::new("256.1.1.1").unwrap_err(),
        DnsError::InvalidAddressLiteral
    );
}

#[test]
fn address_literal_gives_octets() {
    assert_eq!(Ipv4Address::new("1.2.3.4").unwrap().octets(), [1, 2, 3, 4]);
    assert_eq!(
        Ipv4Address::new("255.0.010.99").unwrap().octets(),
        [255, 0, 10, 99]
    );
}

#[test]
fn address_literal_shapes_are_checked() {
    for bad in ["1.2.3", "1.2.3.4.5", "", "a.b.c.d", "1..3.4", "1.2.3.", " 1.2.3.4", "1.2.3.-4"] {
        assert_eq!(
            Ipv4Address::new(bad).unwrap_err(),
            DnsError::InvalidAddressLiteral,
            "{}",
            bad
        );
    }
}

#[test]
fn class_token_is_parsed() {
    assert_eq!(Class::try_from("IN").unwrap(), Class::IN);
    assert_eq!(Class::try_from("CH").unwrap_err(), DnsError::UnsupportedClass);
    assert_eq!(Class::try_from("in").unwrap_err(), DnsError::UnsupportedClass);
    assert_eq!(Class::IN.code(), 1);
}

#[test]
fn message_that_cannot_be_written_leaves_buffer_untouched() {
    let raw = request_bytes(0x1234, &["example", "com"], 1, 1);
    let request = DnsMessage::from_bytes(&raw).unwrap();
    let record = ARecord::new(
        Name::new("bad..name"),
        Class::IN,
        60,
        Ipv4Address::new("127.0.0.1").unwrap(),
    );
    let response = DnsMessage::answer(request, Some(&record));
    let mut buf = output_buffer(64);
    buf.extend_from_slice(&[9]);
    assert_eq!(response.write(&mut buf).unwrap_err(), DnsError::InvalidName);
    assert_eq!(buf.to_vec(), vec![9]);
    assert_eq!(response.to_bytes().unwrap_err(), DnsError::InvalidName);
}

#[test]
fn output_buffer_starts_empty() {
    let mut buf = output_buffer(16);
    assert!(buf.is_empty());
    Name::new("a").to_qname().write(&mut buf).unwrap();
    assert_eq!(buf.to_vec(), vec![1, b'a', 0]);
}
