use bytes::BytesMut;
use dns_server::header::Header;
use dns_server::message::DnsError;

fn sample() -> Header {
    Header {
        id: 0xabcd,
        qr: true,
        opcode: 0b1010,
        aa: false,
        tc: true,
        rd: true,
        ra: true,
        z: 0b101,
        rcode: 0b0011,
        qdcount: 1,
        ancount: 0x0102,
        nscount: 0xfffe,
        arcount: 7,
    }
}

#[test]
fn header_packs_bits() {
    let bytes = sample().to_bytes();
    assert_eq!(
        bytes,
        [0xab, 0xcd, 0b1101_0011, 0b1101_0011, 0, 1, 1, 2, 0xff, 0xfe, 0, 7]
    );
}

#[test]
fn header_decode_of_encode_is_identity() {
    let h = sample();
    assert_eq!(Header::from_bytes(&h.to_bytes()).unwrap(), h);
}

#[test]
fn header_encode_of_decode_is_identity() {
    for raw in [
        [0u8; 12],
        [0xff; 12],
        [0x12, 0x34, 0x81, 0x7f, 0, 1, 2, 3, 4, 5, 6, 7],
    ] {
        assert_eq!(Header::from_bytes(&raw).unwrap().to_bytes(), raw);
    }
}

#[test]
fn header_needs_twelve_bytes() {
    assert_eq!(
        Header::from_bytes(&[0u8; 11]).unwrap_err(),
        DnsError::MalformedMessage
    );
    let mut longer = sample().to_bytes().to_vec();
    longer.push(99);
    assert_eq!(Header::from_bytes(&longer).unwrap(), sample());
}

#[test]
fn header_write_appends_bytes() {
    let mut buf = BytesMut::new();
    buf.extend_from_slice(&[5]);
    sample().write(&mut buf);
    let mut expected = vec![5];
    expected.extend_from_slice(&sample().to_bytes());
    assert_eq!(buf.to_vec(), expected);
}

#[test]
fn response_header_from_request() {
    let h = Header::from_request(&sample(), 1);
    assert_eq!(h.id, 0xabcd);
    assert!(h.qr);
    assert_eq!(h.opcode, 0);
    assert_eq!(h.z, 0);
    assert_eq!(h.rcode, 0);
    assert_eq!((h.qdcount, h.ancount, h.nscount, h.arcount), (1, 1, 0, 0));
    assert_eq!(Header::from_request(&sample(), 0).ancount, 0);
}
