//! Answering a request: decode it, look its name up, build and encode the reply.

use crate::header::Header;
use crate::message::{answer_wire, decode_question, rr_error, DnsError, DnsMessage, Record, RrView};
use crate::name::{join_labels, label_walk_reaches, lemma_label_overrun, qname_encodable, qname_wire};
use crate::record_database::{lookup_result, RecordDatabase};
use crate::wire::be16;
use vstd::prelude::*;

verus! {

/// The answer entry a lookup result renders as.
pub open spec fn found_rr<R: Record>(found: Option<R>) -> Option<RrView> {
    match found {
        Some(rec) => Some(rec.spec_rr()),
        None => None,
    }
}

/// The reply to a request with header `h` and question `q`, `t`, `c`, given
/// what the lookup of its name found.
pub open spec fn response_wire(h: Header, q: Seq<Seq<char>>, t: u16, c: u16, found: Option<RrView>) -> Seq<u8> {
    Header::spec_response(h, if found is Some { 1 } else { 0 }).spec_bytes() + qname_wire(q) + be16(t)
        + be16(c) + answer_wire(found)
}

/// Why that reply cannot be written: `InvalidName` where the question's
/// labels do not fit, else what keeps the answer from being written; `None`
/// where it can be.
pub open spec fn response_error(q: Seq<Seq<char>>, found: Option<RrView>) -> Option<DnsError> {
    if !qname_encodable(q) {
        Some(DnsError::InvalidName)
    } else {
        match found {
            Some(v) => rr_error(v),
            None => None,
        }
    }
}

/// The response to `request`: the record that `database` holds for the
/// question's name answers it, if there is one.
pub fn handle_request<R: Record>(database: &RecordDatabase<R>, request: DnsMessage) -> (r: DnsMessage)
    ensures
        exists|found: Option<R>|
            {
                &&& lookup_result(database.spec_records(), join_labels(request.question.name@), found)
                &&& r.header == Header::spec_response(request.header, if found is Some { 1 } else { 0 })
                &&& r.question == request.question
                &&& r.spec_answer() == found_rr(found)
            },
{
    let name = request.get_question().get_qname().to_name();
    let record = database.get_record(&name);
    let ghost found = match record {
        Some(rec) => Some(*rec),
        None => None,
    };
    let ghost req_header = request.header;
    let ghost req_name = request.question.name@;
    assert(name@ == join_labels(req_name));
    let r = DnsMessage::answer(request, record);
    assert(lookup_result(database.spec_records(), join_labels(req_name), found));
    assert(r.header == Header::spec_response(req_header, if found is Some { 1 } else { 0 }));
    assert(r.spec_answer() == found_rr(found));
    r
}

/// The reply bytes to the request bytes `raw`: `MalformedMessage` where the
/// request cannot be read; otherwise the encoded response, or an error where
/// that response cannot be written.
pub fn respond<R: Record>(database: &RecordDatabase<R>, raw: &[u8]) -> (r: Result<Vec<u8>, DnsError>)
    ensures
        decode_question(raw@, 12) is None ==> r == Err::<Vec<u8>, DnsError>(
            DnsError::MalformedMessage,
        ),
        decode_question(raw@, 12) matches Some((q, t, c, _)) ==> exists|found: Option<R>|
            {
                &&& lookup_result(database.spec_records(), join_labels(q), found)
                &&& response_error(q, found_rr(found)) is None ==> (r matches Ok(v) && v@
                    == response_wire(Header::spec_from_bytes(raw@), q, t, c, found_rr(found)))
                &&& response_error(q, found_rr(found)) matches Some(e) ==> r == Err::<
                    Vec<u8>,
                    DnsError,
                >(e)
            },
{
    proof {
        lemma_malformed_request(raw@);
    }
    let request = DnsMessage::from_bytes(raw)?;
    let response = handle_request(database, request);
    let r = response.to_bytes();
    proof {
        let found = choose|found: Option<R>|
            {
                &&& lookup_result(database.spec_records(), join_labels(request.question.name@), found)
                &&& response.header == Header::spec_response(request.header, if found is Some { 1 } else { 0 })
                &&& response.question == request.question
                &&& response.spec_answer() == found_rr(found)
            };
        assert(response.spec_wire() == response_wire(
            Header::spec_from_bytes(raw@),
            request.question.name@,
            request.question.qtype,
            request.question.qclass,
            found_rr(found),
        ));
    }
    r
}

/// Requests shorter than the 12-byte header, or holding nothing after it, are
/// malformed: they have no question to read, and `DnsMessage::from_bytes`
/// gives `MalformedMessage` for them.
pub proof fn lemma_malformed_request(raw: Seq<u8>)
    ensures
        raw.len() <= 12 ==> decode_question(raw, 12) is None,
{
}

/// A request in which a label-length byte of the question's name announces
/// more bytes than the request holds is malformed: reading stops there with no
/// question, and `DnsMessage::from_bytes` gives `MalformedMessage` for it.
pub proof fn lemma_label_overrun_request(raw: Seq<u8>, pos: int)
    requires
        label_walk_reaches(raw, 12, pos),
        0 <= pos < raw.len(),
        pos + 1 + raw[pos] > raw.len(),
    ensures
        decode_question(raw, 12) is None,
{
    lemma_label_overrun(raw, 12, pos);
}

} // verus!
