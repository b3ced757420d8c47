//! Questions, resource records and whole messages: decoding a request and
//! building and encoding the response.

pub use crate::error::DnsError;
pub use crate::header::Header;
pub use crate::name::{Label, Name, QName};
use crate::header::HEADER_LEN;
use crate::name::{decode_qname, name_labels, qname_encodable, qname_wire, split_on, MAX_NAME_WIRE_LEN};
use crate::wire::{
    be16, be32, buf_bytes, buf_into_vec, buf_limit, from_be16, new_buf, put_slice, put_u16, put_u32,
};
use bytes::BytesMut;
use vstd::prelude::*;
use vstd::string::StringSliceAdditionalSpecFns;

verus! {

/// The addressing class of a record; only the Internet class is served.
#[derive(Debug, Clone, Copy, PartialEq, Eq, Structural)]
pub enum Class {
    IN,
}

impl Class {
    /// The class's 16-bit code on the wire.
    pub open spec fn spec_code(&self) -> u16 {
        match self {
            Class::IN => 1,
        }
    }

    /// The class's 16-bit code on the wire.
    pub fn code(&self) -> (r: u16)
        ensures
            r == self.spec_code(),
    {
        match self {
            Class::IN => 1,
        }
    }
}

impl<'a> TryFrom<&'a str> for Class {
    type Error = DnsError;

    /// Reads a class token of a zone entry: `IN` is the Internet class; any
    /// other token gives `UnsupportedClass`.
    fn try_from(value: &'a str) -> (r: Result<Class, DnsError>)
        ensures
            value.spec_bytes() == seq![73u8, 78u8] ==> r == Ok::<Class, DnsError>(Class::IN),
            value.spec_bytes() != seq![73u8, 78u8] ==> r == Err::<Class, DnsError>(
                DnsError::UnsupportedClass,
            ),
    {
        let b = value.as_bytes();
        if b.len() == 2 && b[0] == 73u8 && b[1] == 78u8 {
            assert(b@ =~= seq![73u8, 78u8]);
            Ok(Class::IN)
        } else {
            Err(DnsError::UnsupportedClass)
        }
    }
}

impl<'a> vstd::std_specs::convert::TryFromSpecImpl<&'a str> for Class {
    open spec fn obeys_try_from_spec() -> bool {
        true
    }

    open spec fn try_from_spec(value: &'a str) -> Result<Class, DnsError> {
        if value.spec_bytes() == seq![73u8, 78u8] {
            Ok(Class::IN)
        } else {
            Err(DnsError::UnsupportedClass)
        }
    }
}

/// The type of a resource record; only address records exist here.
#[derive(Debug, Clone, Copy, PartialEq, Eq, Structural)]
pub enum RrType {
    A,
}

impl RrType {
    /// The type's 16-bit code on the wire.
    pub open spec fn spec_code(&self) -> u16 {
        match self {
            RrType::A => 1,
        }
    }

    /// The type's 16-bit code on the wire.
    pub fn code(&self) -> (r: u16)
        ensures
            r == self.spec_code(),
    {
        match self {
            RrType::A => 1,
        }
    }
}

/// The single question of a message.
#[derive(Debug)]
pub struct Question {
    pub name: QName,
    pub qtype: u16,
    pub qclass: u16,
}

/// The question read at `pos` in `b`: its labels, type, class and the position
/// just past it.
pub open spec fn decode_question(b: Seq<u8>, pos: int) -> Option<(Seq<Seq<char>>, u16, u16, int)> {
    match decode_qname(b, pos) {
        Some((q, end)) => if end + 4 <= b.len() {
            Some((q, from_be16(b[end], b[end + 1]), from_be16(b[end + 2], b[end + 3]), end + 4))
        } else {
            None
        },
        None => None,
    }
}

impl Question {
    /// The bytes this question is written as.
    pub open spec fn spec_wire(&self) -> Seq<u8> {
        qname_wire(self.name@) + be16(self.qtype) + be16(self.qclass)
    }

    /// The question can be written: its labels fit.
    pub open spec fn encodable(&self) -> bool {
        qname_encodable(self.name@)
    }

    /// Appends the question to `buf`: labels, type, class. Fails with
    /// `InvalidName`, leaving `buf` as it was, where the labels do not fit.
    pub fn write(&self, buf: &mut BytesMut) -> (r: Result<(), DnsError>)
        requires
            buf_bytes(*old(buf)).len() + MAX_NAME_WIRE_LEN + 4 <= buf_limit(),
        ensures
            self.encodable() ==> r is Ok && buf_bytes(*final(buf)) == buf_bytes(*old(buf))
                + self.spec_wire(),
            !self.encodable() ==> r == Err::<(), DnsError>(DnsError::InvalidName) && buf_bytes(
                *final(buf),
            ) == buf_bytes(*old(buf)),
    {
        self.name.write(buf)?;
        put_u16(buf, self.qtype);
        put_u16(buf, self.qclass);
        proof {
            assert(buf_bytes(*buf) =~= buf_bytes(*old(buf)) + self.spec_wire());
        }
        Ok(())
    }

    /// Reads the question that follows the 12-byte header of `request`; gives
    /// it with the number of bytes it takes.
    pub fn from_request(request: &[u8]) -> (r: Result<(Question, usize), DnsError>)
        ensures
            match decode_question(request@, 12) {
                Some((q, t, c, end)) => r is Ok && r->Ok_0.0.name@ == q && r->Ok_0.0.qtype == t
                    && r->Ok_0.0.qclass == c && r->Ok_0.1 == end - 12,
                None => r == Err::<(Question, usize), DnsError>(DnsError::MalformedMessage),
            },
    {
        let decoded = QName::decode(request, HEADER_LEN);
        let (name, used) = match decoded {
            Ok(d) => d,
            Err(e) => {
                return Err(e);
            },
        };
        let total = request.len();
        proof {
            let e = decode_qname(request@, 12)->Some_0.1;
            assert(HEADER_LEN == 12);
            assert(used == e - 12 && e <= request@.len());
            assert(HEADER_LEN + used <= total);
        }
        let end = HEADER_LEN + used;
        if end > request.len() || request.len() - end < 4 {
            return Err(DnsError::MalformedMessage);
        }
        let qtype: u16 = (request[end] as u16) << 8u16 | request[end + 1] as u16;
        let qclass: u16 = (request[end + 2] as u16) << 8u16 | request[end + 3] as u16;
        Ok((Question { name, qtype, qclass }, used + 4))
    }

    pub fn get_qname(&self) -> (r: &QName)
        ensures
            r == &self.name,
    {
        &self.name
    }
}

/// An IPv4 address as its four octets.
#[derive(Debug, Clone, Copy)]
pub struct Ipv4Address([u8; 4]);

impl View for Ipv4Address {
    type V = Seq<u8>;

    closed spec fn view(&self) -> Seq<u8> {
        self.0@
    }
}

/// An ASCII decimal digit.
pub open spec fn is_digit(b: u8) -> bool {
    48 <= b <= 57
}

/// The value of a run of ASCII decimal digits.
pub open spec fn decimal_value(s: Seq<u8>) -> nat
    decreases s.len(),
{
    if s.len() == 0 {
        0
    } else {
        decimal_value(s.drop_last()) * 10 + (s.last() - 48) as nat
    }
}

/// One or more decimal digits whose value is at most 255.
pub open spec fn octet_text(s: Seq<u8>) -> bool {
    &&& s.len() >= 1
    &&& forall|i: int| 0 <= i < s.len() ==> is_digit(#[trigger] s[i])
    &&& decimal_value(s) <= 255
}

/// The octets written in `text` as four dot-separated decimal integers from 0
/// to 255; `None` for any other text.
pub open spec fn parse_ipv4(text: Seq<u8>) -> Option<Seq<u8>> {
    let parts = split_on(text, 46u8);
    if parts.len() == 4 && forall|i: int| 0 <= i < 4 ==> octet_text(#[trigger] parts[i]) {
        Some(parts.map_values(|p: Seq<u8>| decimal_value(p) as u8))
    } else {
        None
    }
}

/// The value of a run of digits, capped at 256.
spec fn capped(v: int) -> int {
    if v > 256 { 256 } else { v }
}

proof fn lemma_split_step(s: Seq<u8>, c: u8, sep: u8)
    ensures
        split_on(s, sep).len() >= 1,
        c == sep ==> split_on(s.push(c), sep) == split_on(s, sep).push(Seq::<u8>::empty()),
        c != sep ==> split_on(s.push(c), sep) == split_on(s, sep).update(
            split_on(s, sep).len() - 1,
            split_on(s, sep).last().push(c),
        ),
    decreases s.len(),
{
    assert(s.push(c).drop_last() =~= s);
    if s.len() > 0 {
        lemma_split_step(s.drop_last(), s.last(), sep);
        assert(s.drop_last().push(s.last()) =~= s);
    }
}

impl Ipv4Address {
    /// Reads an address written as four dot-separated decimal integers from 0 to
    /// 255, such as `127.0.0.1`; any other text gives `InvalidAddressLiteral`.
    #[verifier::rlimit(40)]
    pub fn new(address: &str) -> (r: Result<Ipv4Address, DnsError>)
        ensures
            match parse_ipv4(address.spec_bytes()) {
                Some(o) => r is Ok && r->Ok_0@ == o,
                None => r == Err::<Ipv4Address, DnsError>(DnsError::InvalidAddressLiteral),
            },
    {
        let text = address.as_bytes();
        let ghost b = text@;
        let mut octets: Vec<u8> = Vec::new();
        let mut good = true;
        let mut cur: u32 = 0;
        let mut cur_len: usize = 0;
        let mut i: usize = 0;
        let ghost mut parts: Seq<Seq<u8>> = seq![Seq::<u8>::empty()];
        proof {
            assert(b.subrange(0, 0) =~= Seq::<u8>::empty());
        }
        while i < text.len()
            invariant
                b == text@,
                i <= b.len(),
                cur_len <= i,
                parts == split_on(b.subrange(0, i as int), 46u8),
                parts.len() == octets@.len() + 1,
                cur_len == parts.last().len(),
                good ==> cur as int == capped(decimal_value(parts.last()) as int),
                good == ((forall|j: int| 0 <= j < octets@.len() ==> octet_text(#[trigger] parts[j]))
                    && (forall|k: int| 0 <= k < cur_len ==> is_digit(#[trigger] parts.last()[k]))),
                good ==> forall|j: int|
                    0 <= j < octets@.len() ==> octets@[j] as nat == decimal_value(
                        #[trigger] parts[j],
                    ),
            decreases b.len() - i,
        {
            let c = text[i];
            proof {
                lemma_split_step(b.subrange(0, i as int), c, 46u8);
                assert(b.subrange(0, i + 1) =~= b.subrange(0, i as int).push(c));
            }
            let ghost p = parts;
            if c == 46u8 {
                if good && cur_len > 0 && cur <= 255 {
                    octets.push(cur as u8);
                } else {
                    octets.push(0);
                    good = false;
                }
                cur = 0;
                cur_len = 0;
                proof {
                    parts = p.push(Seq::<u8>::empty());
                    assert(decimal_value(Seq::<u8>::empty()) == 0);
                    assert forall|j: int| 0 <= j < p.len() implies parts[j] == p[j] by {}
                }
            } else {
                if 48u8 <= c && c <= 57u8 {
                    let d = (c - 48u8) as u32;
                    if cur <= 256 {
                        let next = cur * 10 + d;
                        cur = if next > 256 {
                            256
                        } else {
                            next
                        };
                    }
                    proof {
                        let last = p.last();
                        assert(last.push(c).drop_last() =~= last);
                        let v = decimal_value(last);
                        assert(decimal_value(last.push(c)) == v * 10 + d);
                        assert(capped(v * 10 + d) == capped(capped(v as int) * 10 + d));
                    }
                } else {
                    good = false;
                }
                cur_len = cur_len + 1;
                proof {
                    parts = p.update(p.len() - 1, p.last().push(c));
                    assert forall|j: int| 0 <= j < p.len() - 1 implies parts[j] == p[j] by {}
                    assert forall|k: int| 0 <= k < cur_len - 1 implies parts.last()[k] == p.last()[k] by {}
                    assert(parts.last()[cur_len - 1] == c);
                }
            }
            i = i + 1;
        }
        proof {
            assert(b.subrange(0, b.len() as int) =~= b);
        }
        if good && cur_len > 0 && cur <= 255 && octets.len() == 3 {
            let r = Ipv4Address([octets[0], octets[1], octets[2], cur as u8]);
            proof {
                assert(octet_text(parts[3]));
                assert(r@ =~= parts.map_values(|p: Seq<u8>| decimal_value(p) as u8));
            }
            Ok(r)
        } else {
            proof {
                if parts.len() == 4 && forall|i: int| 0 <= i < 4 ==> octet_text(#[trigger] parts[i]) {
                    assert(octet_text(parts[3]));
                    assert(octet_text(parts[0]) && octet_text(parts[1]) && octet_text(parts[2]));
                    assert(good);
                }
            }
            Err(DnsError::InvalidAddressLiteral)
        }
    }

    pub fn octets(&self) -> (r: [u8; 4])
        ensures
            r@ == self@,
    {
        self.0
    }
}

/// What a resource record is, as plain values.
pub struct RrView {
    pub name: Seq<char>,
    pub rtype: RrType,
    pub class: Class,
    pub ttl: u32,
    pub rdlength: u16,
    pub rdata: Seq<u8>,
}

/// The bytes a resource record is written as: its name as a label sequence,
/// type, class, time to live, data length and data.
pub open spec fn rr_wire(v: RrView) -> Seq<u8> {
    qname_wire(name_labels(v.name)) + be16(v.rtype.spec_code()) + be16(v.class.spec_code()) + be32(
        v.ttl,
    ) + be16(v.rdlength) + v.rdata
}

/// Why the record cannot be written: `InvalidName` where its name's labels do
/// not fit, else `MalformedMessage` where the data length is not that of the
/// data; `None` where it can be.
pub open spec fn rr_error(v: RrView) -> Option<DnsError> {
    if !qname_encodable(name_labels(v.name)) {
        Some(DnsError::InvalidName)
    } else if v.rdlength != v.rdata.len() {
        Some(DnsError::MalformedMessage)
    } else {
        None
    }
}

/// One entry of the answer section.
#[derive(Debug)]
pub struct ResourceRecord {
    name: Name,
    rtype: RrType,
    class: Class,
    ttl: u32,
    rdlength: u16,
    rdata: Vec<u8>,
}

impl View for ResourceRecord {
    type V = RrView;

    closed spec fn view(&self) -> RrView {
        RrView {
            name: self.name@,
            rtype: self.rtype,
            class: self.class,
            ttl: self.ttl,
            rdlength: self.rdlength,
            rdata: self.rdata@,
        }
    }
}

/// Largest resource record on the wire: name, ten fixed bytes, data.
pub open spec fn max_rr_len() -> int {
    MAX_NAME_WIRE_LEN + 10 + u16::MAX
}

impl ResourceRecord {
    /// Whether the record can be written, and if not, why.
    pub fn check(&self) -> (r: Result<(), DnsError>)
        ensures
            r is Ok <==> rr_error(self@) is None,
            rr_error(self@) matches Some(e) ==> r == Err::<(), DnsError>(e),
    {
        let qname = self.name.to_qname();
        if !qname.is_encodable() {
            return Err(DnsError::InvalidName);
        }
        if self.rdlength as usize != self.rdata.len() {
            return Err(DnsError::MalformedMessage);
        }
        Ok(())
    }

    /// Appends the record to `buf`; where it cannot be written, fails with the
    /// error `rr_error` names and leaves `buf` as it was.
    pub fn write(&self, buf: &mut BytesMut) -> (r: Result<(), DnsError>)
        requires
            buf_bytes(*old(buf)).len() + max_rr_len() <= buf_limit(),
        ensures
            rr_error(self@) is None ==> r is Ok && buf_bytes(*final(buf)) == buf_bytes(*old(buf))
                + rr_wire(self@),
            rr_error(self@) matches Some(e) ==> r == Err::<(), DnsError>(e) && buf_bytes(
                *final(buf),
            ) == buf_bytes(*old(buf)),
    {
        self.check()?;
        let qname = self.name.to_qname();
        qname.write(buf)?;
        put_u16(buf, self.rtype.code());
        put_u16(buf, self.class.code());
        put_u32(buf, self.ttl);
        put_u16(buf, self.rdlength);
        put_slice(buf, self.rdata.as_slice());
        proof {
            assert(buf_bytes(*buf) =~= buf_bytes(*old(buf)) + rr_wire(self@));
        }
        Ok(())
    }
}

/// What the record table holds: something that has an owning name and can be
/// rendered as an answer entry.
pub trait Record {
    /// The name that owns the record.
    spec fn spec_owner(&self) -> Seq<char>;

    /// The answer entry the record renders as.
    spec fn spec_rr(&self) -> RrView;

    /// The answer entry for this record.
    fn into_resource_record(&self) -> (r: ResourceRecord)
        ensures
            r@ == self.spec_rr(),
    ;

    /// The name that owns this record, the key of lookups.
    fn get_name(&self) -> (r: &Name)
        ensures
            r@ == self.spec_owner(),
    ;
}

/// An address record: a name, its class, a time to live in seconds and an IPv4
/// address.
#[derive(Debug, Clone)]
pub struct ARecord {
    pub name: Name,
    pub class: Class,
    pub ttl: u32,
    pub address: Ipv4Address,
}

impl ARecord {
    pub fn new(name: Name, class: Class, ttl: u32, address: Ipv4Address) -> (r: ARecord)
        ensures
            r.name@ == name@,
            r.class == class,
            r.ttl == ttl,
            r.address@ == address@,
    {
        ARecord { name, class, ttl, address }
    }
}

impl Record for ARecord {
    open spec fn spec_owner(&self) -> Seq<char> {
        self.name@
    }

    /// An address record answers with type A, its class and time to live, and
    /// the four address octets as data.
    open spec fn spec_rr(&self) -> RrView {
        RrView {
            name: self.name@,
            rtype: RrType::A,
            class: self.class,
            ttl: self.ttl,
            rdlength: 4,
            rdata: self.address@,
        }
    }

    fn into_resource_record(&self) -> (r: ResourceRecord) {
        let octets = self.address.octets();
        let mut rdata: Vec<u8> = Vec::new();
        rdata.push(octets[0]);
        rdata.push(octets[1]);
        rdata.push(octets[2]);
        rdata.push(octets[3]);
        let r = ResourceRecord {
            name: self.name.clone(),
            rtype: RrType::A,
            class: self.class,
            ttl: self.ttl,
            rdlength: 4,
            rdata,
        };
        proof {
            lemma_octets_len(self.address);
            assert(r.rdata@ =~= self.address@);
        }
        r
    }

    fn get_name(&self) -> (r: &Name) {
        &self.name
    }
}

proof fn lemma_octets_len(a: Ipv4Address)
    ensures
        a@.len() == 4,
{
}

/// The answer section: a single resource record.
#[derive(Debug)]
pub struct Answer {
    pub record: ResourceRecord,
}

impl Answer {
    /// The answer for a matched record, or none without a match.
    pub fn new<R: Record>(record: Option<&R>) -> (r: Option<Answer>)
        ensures
            record is None ==> r is None,
            record matches Some(rec) ==> (r matches Some(a) && a.record@ == rec.spec_rr()),
    {
        match record {
            Some(rec) => Some(Answer { record: rec.into_resource_record() }),
            None => None,
        }
    }

    /// Appends the answer's record to `buf`, as `ResourceRecord::write` does.
    pub fn write(&self, buf: &mut BytesMut) -> (r: Result<(), DnsError>)
        requires
            buf_bytes(*old(buf)).len() + max_rr_len() <= buf_limit(),
        ensures
            rr_error(self.record@) is None ==> r is Ok && buf_bytes(*final(buf)) == buf_bytes(
                *old(buf),
            ) + rr_wire(self.record@),
            rr_error(self.record@) matches Some(e) ==> r == Err::<(), DnsError>(e) && buf_bytes(
                *final(buf),
            ) == buf_bytes(*old(buf)),
    {
        self.record.write(buf)
    }
}

/// A whole message: header, one question and at most one answer.
#[derive(Debug)]
pub struct DnsMessage {
    pub header: Header,
    pub question: Question,
    pub answer: Option<Answer>,
}

/// The bytes of the answer section, empty without an answer.
pub open spec fn answer_wire(a: Option<RrView>) -> Seq<u8> {
    match a {
        Some(v) => rr_wire(v),
        None => Seq::empty(),
    }
}

impl DnsMessage {
    /// The answer entry this message carries, if any.
    pub open spec fn spec_answer(&self) -> Option<RrView> {
        match &self.answer {
            Some(a) => Some(a.record@),
            None => None,
        }
    }

    /// Why the message cannot be written: `InvalidName` where the question's
    /// labels do not fit, else what keeps the answer from being written; `None`
    /// where it can be.
    pub open spec fn spec_error(&self) -> Option<DnsError> {
        if !self.question.encodable() {
            Some(DnsError::InvalidName)
        } else {
            match self.spec_answer() {
                Some(v) => rr_error(v),
                None => None,
            }
        }
    }

    /// The bytes this message is written as: header, question, then the answer
    /// if there is one, in that order.
    pub open spec fn spec_wire(&self) -> Seq<u8> {
        self.header.spec_bytes() + self.question.spec_wire() + answer_wire(self.spec_answer())
    }

    /// Reads a request: the 12-byte header, then the question right after it;
    /// a request carries no answer. Gives `MalformedMessage` where the bytes
    /// run out or a label is malformed.
    pub fn from_bytes(raw: &[u8]) -> (r: Result<DnsMessage, DnsError>)
        ensures
            raw@.len() < 12 ==> r == Err::<DnsMessage, DnsError>(DnsError::MalformedMessage),
            raw@.len() >= 12 ==> match decode_question(raw@, 12) {
                Some((q, t, c, _)) => (r matches Ok(m) && m.header == Header::spec_from_bytes(raw@)
                    && m.question.name@ == q && m.question.qtype == t && m.question.qclass == c
                    && m.answer is None),
                None => r == Err::<DnsMessage, DnsError>(DnsError::MalformedMessage),
            },
    {
        let header = Header::from_bytes(raw)?;
        let (question, _) = Question::from_request(raw)?;
        Ok(DnsMessage { header, question, answer: None })
    }

    /// The response to `request`: its id echoed, marked as a response, its
    /// question kept, and an answer rendered from `record` when there is one,
    /// announced by an answer count of 1 (else 0).
    pub fn answer<R: Record>(request: DnsMessage, record: Option<&R>) -> (r: DnsMessage)
        ensures
            r.header == Header::spec_response(request.header, if record is Some { 1 } else { 0 }),
            r.question == request.question,
            record is None ==> r.answer is None,
            record matches Some(rec) ==> r.spec_answer() == Some(rec.spec_rr()),
    {
        let ancount: u16 = if record.is_some() {
            1
        } else {
            0
        };
        let header = Header::from_request(&request.header, ancount);
        DnsMessage { header, question: request.question, answer: Answer::new(record) }
    }

    /// Appends the message to `buf`: header, question, then the answer if any.
    /// Where it cannot be written, fails with the error `spec_error` names and
    /// leaves `buf` as it was.
    pub fn write(&self, buf: &mut BytesMut) -> (r: Result<(), DnsError>)
        requires
            self.header.wf(),
            buf_bytes(*old(buf)).len() + 12 + MAX_NAME_WIRE_LEN + 4 + max_rr_len() <= buf_limit(),
        ensures
            self.spec_error() is None ==> r is Ok && buf_bytes(*final(buf)) == buf_bytes(*old(buf))
                + self.spec_wire(),
            self.spec_error() matches Some(e) ==> r == Err::<(), DnsError>(e) && buf_bytes(
                *final(buf),
            ) == buf_bytes(*old(buf)),
    {
        if !self.question.name.is_encodable() {
            return Err(DnsError::InvalidName);
        }
        if let Some(answer) = &self.answer {
            answer.record.check()?;
        }
        self.header.write(buf);
        self.question.write(buf)?;
        if let Some(answer) = &self.answer {
            answer.write(buf)?;
        }
        proof {
            assert(buf_bytes(*buf) =~= buf_bytes(*old(buf)) + self.spec_wire());
        }
        Ok(())
    }

    /// The message as bytes, as `write` lays it out, or the error it gives.
    pub fn to_bytes(&self) -> (r: Result<Vec<u8>, DnsError>)
        requires
            self.header.wf(),
        ensures
            self.spec_error() is None ==> (r matches Ok(v) && v@ == self.spec_wire()),
            self.spec_error() matches Some(e) ==> r == Err::<Vec<u8>, DnsError>(e),
    {
        let mut buf = new_buf(512);
        self.write(&mut buf)?;
        Ok(buf_into_vec(buf))
    }

    pub fn get_question(&self) -> (r: &Question)
        ensures
            r == &self.question,
    {
        &self.question
    }
}

} // verus!
