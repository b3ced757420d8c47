//! Reading a zone file, line by line, into address records.

use crate::message::{parse_ipv4, ARecord, Class, DnsError, Ipv4Address, Name};
use vstd::prelude::*;
use vstd::string::StringSliceAdditionalSpecFns;
use vstd::utf8::encode_utf8;

verus! {

/// A character of the Unicode `White_Space` property.
pub open spec fn is_white_space(c: char) -> bool {
    let v = c as u32;
    (9 <= v <= 13) || v == 32 || v == 0x85 || v == 0xa0 || v == 0x1680 || (0x2000 <= v <= 0x200a)
        || v == 0x2028 || v == 0x2029 || v == 0x202f || v == 0x205f || v == 0x3000
}

/// The fields of a line: its maximal runs of non-white-space characters, in order.
pub open spec fn whitespace_fields(s: Seq<char>) -> Seq<Seq<char>>
    decreases s.len(),
{
    if s.len() == 0 {
        Seq::empty()
    } else {
        let p = whitespace_fields(s.drop_last());
        let c = s.last();
        if is_white_space(c) {
            p
        } else if s.len() >= 2 && !is_white_space(s[s.len() - 2]) {
            p.update(p.len() - 1, p.last().push(c))
        } else {
            p.push(seq![c])
        }
    }
}

/// Relies on `str::split_whitespace`: it yields the maximal runs of characters
/// outside Unicode `White_Space`, in order.
#[verifier::external_body]
fn split_fields(line: &str) -> (r: Vec<String>)
    ensures
        r@.map_values(|f: String| f@) == whitespace_fields(line@),
{
    line.split_whitespace().map(|f| f.to_string()).collect()
}

/// Why the fields `f` of a zone entry give no record, or `None` where they
/// describe one, `name IN A a.b.c.d`: the first problem found of a wrong
/// number of fields, a type other than `A`, a class other than `IN`, and an
/// address that does not read as one.
pub open spec fn entry_error(f: Seq<Seq<char>>) -> Option<DnsError> {
    if f.len() != 4 {
        Some(DnsError::MalformedZoneEntry)
    } else if encode_utf8(f[2]) != seq![65u8] {
        Some(DnsError::UnsupportedRecordType)
    } else if encode_utf8(f[1]) != seq![73u8, 78u8] {
        Some(DnsError::UnsupportedClass)
    } else if parse_ipv4(encode_utf8(f[3])) is None {
        Some(DnsError::InvalidAddressLiteral)
    } else {
        None
    }
}

/// `rec` is the record that the fields `f` describe, with time to live `ttl`.
pub open spec fn entry_record(f: Seq<Seq<char>>, ttl: u32, rec: ARecord) -> bool {
    &&& rec.name@ == f[0]
    &&& rec.class == Class::IN
    &&& rec.ttl == ttl
    &&& rec.address@ == parse_ipv4(encode_utf8(f[3]))->Some_0
}

/// A blank line or a `;` comment, which holds no entry.
pub open spec fn line_is_blank(l: Seq<char>) -> bool {
    encode_utf8(l).len() == 0 || encode_utf8(l)[0] == 59
}

/// Why a line gives no record: `None` for a blank line or one that does.
pub open spec fn line_error(l: Seq<char>) -> Option<DnsError> {
    if line_is_blank(l) {
        None
    } else {
        entry_error(whitespace_fields(l))
    }
}

/// The line describes a record.
pub open spec fn line_has_record(l: Seq<char>) -> bool {
    !line_is_blank(l) && entry_error(whitespace_fields(l)) is None
}

/// The lines that describe a record, in order.
pub open spec fn record_lines(ls: Seq<Seq<char>>) -> Seq<Seq<char>>
    decreases ls.len(),
{
    if ls.len() == 0 {
        Seq::empty()
    } else if line_has_record(ls.last()) {
        record_lines(ls.drop_last()).push(ls.last())
    } else {
        record_lines(ls.drop_last())
    }
}

/// The record that the fields of a zone entry describe (name, class, type,
/// address), given a time to live of `ttl` seconds.
pub fn record_from_fields(fields: &Vec<String>, ttl: u32) -> (r: Result<ARecord, DnsError>)
    ensures
        entry_error(fields@.map_values(|f: String| f@)) matches Some(e) ==> r == Err::<
            ARecord,
            DnsError,
        >(e),
        entry_error(fields@.map_values(|f: String| f@)) is None ==> (r matches Ok(rec)
            && entry_record(fields@.map_values(|f: String| f@), ttl, rec)),
{
    let ghost f = fields@.map_values(|f: String| f@);
    if fields.len() != 4 {
        return Err(DnsError::MalformedZoneEntry);
    }
    proof {
        assert(f[0] == fields@[0]@ && f[1] == fields@[1]@ && f[2] == fields@[2]@ && f[3]
            == fields@[3]@);
    }
    let rtype = fields[2].as_str().as_bytes();
    if !(rtype.len() == 1 && rtype[0] == 65u8) {
        proof {
            if encode_utf8(f[2]) == seq![65u8] {
                assert(rtype@ == seq![65u8]);
            }
        }
        return Err(DnsError::UnsupportedRecordType);
    }
    assert(rtype@ =~= seq![65u8]);
    let class = Class::try_from(fields[1].as_str())?;
    let address = Ipv4Address::new(fields[3].as_str())?;
    Ok(ARecord::new(Name::new(fields[0].as_str()), class, ttl, address))
}

/// Reads one line of a zone file: nothing for a blank line or a `;` comment,
/// else the record its fields describe, as `record_from_fields` gives it.
pub fn parse_zone_line(line: &str, ttl: u32) -> (r: Result<Option<ARecord>, DnsError>)
    ensures
        line_is_blank(line@) ==> r == Ok::<Option<ARecord>, DnsError>(None),
        line_error(line@) matches Some(e) ==> r == Err::<Option<ARecord>, DnsError>(e),
        line_has_record(line@) ==> (r matches Ok(Some(rec)) && entry_record(
            whitespace_fields(line@),
            ttl,
            rec,
        )),
{
    let bytes = line.as_bytes();
    if bytes.len() == 0 || bytes[0] == 59u8 {
        return Ok(None);
    }
    let fields = split_fields(line);
    match record_from_fields(&fields, ttl) {
        Ok(rec) => Ok(Some(rec)),
        Err(e) => Err(e),
    }
}

/// Loads the records of a zone file's lines, in order. Blank lines and
/// comments hold nothing; an entry with a wrong number of fields, another type
/// than `A` or another class than `IN` is skipped; an address that does not
/// read as one fails the whole load with `InvalidAddressLiteral`.
pub fn records_from_lines(lines: &Vec<String>, ttl: u32) -> (r: Result<Vec<ARecord>, DnsError>)
    ensures
        (exists|i: int|
            0 <= i < lines@.len() && line_error(#[trigger] lines@[i]@) == Some(
                DnsError::InvalidAddressLiteral,
            )) ==> r == Err::<Vec<ARecord>, DnsError>(DnsError::InvalidAddressLiteral),
        (forall|i: int|
            0 <= i < lines@.len() ==> line_error(#[trigger] lines@[i]@) != Some(
                DnsError::InvalidAddressLiteral,
            )) ==> (r matches Ok(v) && v@.len() == record_lines(
            lines@.map_values(|s: String| s@),
        ).len() && forall|k: int|
            0 <= k < v@.len() ==> entry_record(
                whitespace_fields(record_lines(lines@.map_values(|s: String| s@))[k]),
                ttl,
                #[trigger] v@[k],
            )),
{
    let ghost ls = lines@.map_values(|s: String| s@);
    let mut out: Vec<ARecord> = Vec::new();
    let mut i: usize = 0;
    proof {
        assert(ls.subrange(0, 0) =~= Seq::<Seq<char>>::empty());
    }
    while i < lines.len()
        invariant
            i <= lines@.len(),
            ls == lines@.map_values(|s: String| s@),
            forall|j: int|
                0 <= j < i ==> line_error(#[trigger] lines@[j]@) != Some(
                    DnsError::InvalidAddressLiteral,
                ),
            out@.len() == record_lines(ls.subrange(0, i as int)).len(),
            forall|k: int|
                0 <= k < out@.len() ==> entry_record(
                    whitespace_fields(record_lines(ls.subrange(0, i as int))[k]),
                    ttl,
                    #[trigger] out@[k],
                ),
        decreases lines@.len() - i,
    {
        let ghost prev = record_lines(ls.subrange(0, i as int));
        proof {
            assert(ls.subrange(0, i + 1).drop_last() =~= ls.subrange(0, i as int));
            assert(ls.subrange(0, i + 1).last() == lines@[i as int]@);
        }
        match parse_zone_line(lines[i].as_str(), ttl) {
            Ok(Some(rec)) => {
                out.push(rec);
                proof {
                    assert(record_lines(ls.subrange(0, i + 1)) == prev.push(lines@[i as int]@));
                    assert forall|k: int| 0 <= k < out@.len() implies entry_record(
                        whitespace_fields(record_lines(ls.subrange(0, i + 1))[k]),
                        ttl,
                        #[trigger] out@[k],
                    ) by {
                        if k < out@.len() - 1 {
                            assert(record_lines(ls.subrange(0, i + 1))[k] == prev[k]);
                        }
                    }
                }
            },
            Ok(None) => {
                assert(record_lines(ls.subrange(0, i + 1)) == prev);
            },
            Err(DnsError::InvalidAddressLiteral) => {
                return Err(DnsError::InvalidAddressLiteral);
            },
            Err(_) => {
                assert(record_lines(ls.subrange(0, i + 1)) == prev);
            },
        }
        i = i + 1;
    }
    proof {
        assert(ls.subrange(0, lines@.len() as int) =~= ls);
    }
    Ok(out)
}

} // verus!
