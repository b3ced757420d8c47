//! Domain names: the dotted text form and the length-prefixed label sequence
//! they are written as on the wire.

use crate::error::DnsError;
use crate::wire::{buf_bytes, buf_limit, put_u8, put_slice, string_from_utf8};
use bytes::BytesMut;
use vstd::prelude::*;
use vstd::string::{StrSliceExecFns, StringExecFns};
use vstd::utf8::{decode_utf8, encode_utf8, valid_utf8};

verus! {

/// Longest label, in bytes.
pub const MAX_LABEL_LEN: usize = 63;

/// Longest label sequence on the wire, terminator included.
pub const MAX_NAME_WIRE_LEN: usize = 255;

/// Splits `s` at each occurrence of `sep`; the result always has at least one part.
pub open spec fn split_on<T>(s: Seq<T>, sep: T) -> Seq<Seq<T>>
    decreases s.len(),
{
    if s.len() == 0 {
        seq![Seq::<T>::empty()]
    } else {
        let p = split_on(s.drop_last(), sep);
        if s.last() == sep {
            p.push(Seq::<T>::empty())
        } else {
            p.update(p.len() - 1, p.last().push(s.last()))
        }
    }
}

/// The labels of a dotted name: its text split at each `.`.
pub open spec fn name_labels(n: Seq<char>) -> Seq<Seq<char>> {
    split_on(n, '.')
}

/// The dotted name made of `ls`, with one `.` between neighbours.
pub open spec fn join_labels(ls: Seq<Seq<char>>) -> Seq<char>
    decreases ls.len(),
{
    if ls.len() == 0 {
        Seq::empty()
    } else if ls.len() == 1 {
        ls[0]
    } else {
        join_labels(ls.drop_last()) + seq!['.'] + ls.last()
    }
}

/// A length byte followed by the label's bytes.
pub open spec fn label_wire(l: Seq<u8>) -> Seq<u8> {
    seq![l.len() as u8] + l
}

/// The length-prefixed labels, without the terminating zero byte.
pub open spec fn labels_body(ls: Seq<Seq<u8>>) -> Seq<u8>
    decreases ls.len(),
{
    if ls.len() == 0 {
        Seq::empty()
    } else {
        labels_body(ls.drop_last()) + label_wire(ls.last())
    }
}

/// The UTF-8 bytes of each label.
pub open spec fn label_bytes(q: Seq<Seq<char>>) -> Seq<Seq<u8>> {
    q.map_values(|l: Seq<char>| encode_utf8(l))
}

/// The wire form of a label sequence: each label length-prefixed, then a zero byte.
pub open spec fn qname_wire(q: Seq<Seq<char>>) -> Seq<u8> {
    labels_body(label_bytes(q)) + seq![0u8]
}

/// Each label holds 1 to 63 bytes.
pub open spec fn labels_fit(q: Seq<Seq<char>>) -> bool {
    forall|i: int| 0 <= i < q.len() ==> 1 <= #[trigger] encode_utf8(q[i]).len() <= MAX_LABEL_LEN
}

/// Each label holds 1 to 63 bytes and the wire form holds at most 255.
pub open spec fn qname_encodable(q: Seq<Seq<char>>) -> bool {
    &&& labels_fit(q)
    &&& qname_wire(q).len() <= MAX_NAME_WIRE_LEN
}

/// The raw labels of a label sequence starting at `pos` in `b`, and the position
/// just past its zero byte; `None` where a length byte is missing, exceeds 63, or
/// announces more bytes than `b` holds.
pub open spec fn parse_labels(b: Seq<u8>, pos: int) -> Option<(Seq<Seq<u8>>, int)>
    decreases b.len() - pos,
{
    if pos < 0 || pos >= b.len() {
        None
    } else {
        let n = b[pos] as int;
        if n == 0 {
            Some((Seq::empty(), pos + 1))
        } else if n > MAX_LABEL_LEN || pos + 1 + n > b.len() {
            None
        } else {
            match parse_labels(b, pos + 1 + n) {
                Some((rest, end)) => Some((seq![b.subrange(pos + 1, pos + 1 + n)] + rest, end)),
                None => None,
            }
        }
    }
}

/// Reading labels from `start` in `b` arrives at a length byte at `pos`: each
/// label passed on the way is nonempty, at most 63 bytes and inside `b`.
pub open spec fn label_walk_reaches(b: Seq<u8>, start: int, pos: int) -> bool
    decreases b.len() - start,
{
    if start == pos {
        true
    } else if start < 0 || start >= b.len() || b[start] == 0 || b[start] > MAX_LABEL_LEN
        || start + 1 + b[start] > b.len() {
        false
    } else {
        label_walk_reaches(b, start + 1 + b[start], pos)
    }
}

/// A length byte that the label walk arrives at and that announces more bytes
/// than `b` holds makes the label sequence malformed.
pub proof fn lemma_label_overrun(b: Seq<u8>, start: int, pos: int)
    requires
        label_walk_reaches(b, start, pos),
        0 <= pos < b.len(),
        pos + 1 + b[pos] > b.len(),
    ensures
        parse_labels(b, start) is None,
    decreases b.len() - start,
{
    if start != pos {
        lemma_label_overrun(b, start + 1 + b[start], pos);
    }
}

/// The labels, as text, of the label sequence at `pos` in `b`, and the position
/// just past it; `None` where it is malformed, longer than 255 bytes, or a label
/// is not UTF-8.
pub open spec fn decode_qname(b: Seq<u8>, pos: int) -> Option<(Seq<Seq<char>>, int)> {
    match parse_labels(b, pos) {
        Some((raw, end)) => if end - pos <= MAX_NAME_WIRE_LEN && forall|i: int|
            0 <= i < raw.len() ==> valid_utf8(#[trigger] raw[i]) {
            Some((raw.map_values(|l: Seq<u8>| decode_utf8(l)), end))
        } else {
            None
        },
        None => None,
    }
}

/// One label of a name, as text.
#[derive(Debug)]
pub struct Label {
    pub value: String,
}

/// A name as its sequence of labels.
#[derive(Debug)]
pub struct QName {
    pub labels: Vec<Label>,
}

impl View for QName {
    type V = Seq<Seq<char>>;

    open spec fn view(&self) -> Seq<Seq<char>> {
        self.labels@.map_values(|l: Label| l.value@)
    }
}

/// A name in its dotted text form, the key of lookups.
#[derive(Debug)]
pub struct Name(String);

impl View for Name {
    type V = Seq<char>;

    closed spec fn view(&self) -> Seq<char> {
        self.0@
    }
}

impl Clone for Name {
    fn clone(&self) -> (r: Name)
        ensures
            r@ == self@,
    {
        Name(self.0.clone())
    }
}

impl PartialEq for Name {
    fn eq(&self, other: &Name) -> (r: bool)
        ensures
            r == (self@ == other@),
    {
        self.0 == other.0
    }
}

impl vstd::std_specs::cmp::PartialEqSpecImpl for Name {
    open spec fn obeys_eq_spec() -> bool {
        true
    }

    open spec fn eq_spec(&self, other: &Name) -> bool {
        self@ == other@
    }
}

impl Name {
    /// The name whose dotted text is `name`.
    pub fn new(name: &str) -> (r: Name)
        ensures
            r@ == name@,
    {
        Name(name.to_owned())
    }

    /// The labels of this name: its text split at each `.` (so `k` dots give
    /// `k + 1` labels, and the empty name one empty label).
    pub fn to_qname(&self) -> (r: QName)
        ensures
            r@ == name_labels(self@),
    {
        let s = self.0.as_str();
        let len = s.unicode_len();
        let mut labels: Vec<Label> = Vec::new();
        let mut start: usize = 0;
        let mut i: usize = 0;
        proof {
            assert(s@.subrange(0, 0) =~= Seq::<char>::empty());
            assert(labels@.map_values(|l: Label| l.value@) + seq![s@.subrange(0, 0)] =~= seq![
                Seq::<char>::empty(),
            ]);
        }
        while i < len
            invariant
                0 <= start <= i <= len,
                len == s@.len(),
                s@ == self@,
                split_on(s@.subrange(0, i as int), '.') == labels@.map_values(|l: Label| l.value@)
                    + seq![s@.subrange(start as int, i as int)],
            decreases len - i,
        {
            let c = s.get_char(i);
            let ghost before = labels@.map_values(|l: Label| l.value@);
            proof {
                assert(s@.subrange(0, i + 1).drop_last() =~= s@.subrange(0, i as int));
                assert(s@.subrange(0, i + 1).last() == c);
            }
            if c == '.' {
                let part = s.substring_char(start, i);
                labels.push(Label { value: part.to_owned() });
                start = i + 1;
                proof {
                    assert(labels@.map_values(|l: Label| l.value@) =~= before.push(part@));
                    assert(s@.subrange(start as int, i + 1) =~= Seq::<char>::empty());
                    assert(split_on(s@.subrange(0, i + 1), '.') =~= labels@.map_values(
                        |l: Label| l.value@,
                    ) + seq![s@.subrange(start as int, i + 1)]);
                }
            } else {
                proof {
                    assert(s@.subrange(start as int, i as int).push(c) =~= s@.subrange(
                        start as int,
                        i + 1,
                    ));
                    assert(split_on(s@.subrange(0, i + 1), '.') =~= before + seq![
                        s@.subrange(start as int, i + 1),
                    ]);
                }
            }
            i = i + 1;
        }
        let part = s.substring_char(start, len);
        let ghost before = labels@.map_values(|l: Label| l.value@);
        labels.push(Label { value: part.to_owned() });
        proof {
            assert(labels@.map_values(|l: Label| l.value@) =~= before.push(part@));
            assert(s@.subrange(0, len as int) =~= s@);
            assert(before + seq![part@] =~= before.push(part@));
        }
        QName { labels }
    }
}

impl QName {
    /// The dotted name of these labels.
    pub fn to_name(&self) -> (r: Name)
        ensures
            r@ == join_labels(self@),
    {
        let mut name = String::new();
        let mut i: usize = 0;
        proof {
            reveal_strlit(".");
            assert(self@.subrange(0, 0) =~= Seq::<Seq<char>>::empty());
        }
        while i < self.labels.len()
            invariant
                i <= self.labels@.len(),
                name@ == join_labels(self@.subrange(0, i as int)),
            decreases self.labels@.len() - i,
        {
            let ghost prev = name@;
            if i > 0 {
                name.append(".");
                proof {
                    reveal_strlit(".");
                    assert(name@ =~= prev + seq!['.']);
                }
            }
            name.append(self.labels[i].value.as_str());
            proof {
                let q = self@;
                assert(q.subrange(0, i + 1).drop_last() =~= q.subrange(0, i as int));
                assert(q[i as int] == self.labels@[i as int].value@);
                if i == 0 {
                    assert(name@ =~= q.subrange(0, 1)[0]);
                } else {
                    assert(name@ =~= prev + seq!['.'] + q[i as int]);
                }
            }
            i = i + 1;
        }
        proof {
            assert(self@.subrange(0, self.labels@.len() as int) =~= self@);
        }
        Name(name)
    }

    /// Whether these labels can be written: each holds 1 to 63 bytes and the
    /// wire form holds at most 255.
    pub fn is_encodable(&self) -> (r: bool)
        ensures
            r == qname_encodable(self@),
    {
        let ghost q = self@;
        let ghost lb = label_bytes(q);
        let mut total: usize = 1;
        let mut i: usize = 0;
        proof {
            assert(lb.subrange(0, 0) =~= Seq::<Seq<u8>>::empty());
        }
        while i < self.labels.len()
            invariant
                i <= self.labels@.len(),
                q == self@,
                lb == label_bytes(q),
                lb.len() == q.len() == self.labels@.len(),
                forall|j: int| 0 <= j < i ==> 1 <= #[trigger] encode_utf8(q[j]).len() <= MAX_LABEL_LEN,
                total == labels_body(lb.subrange(0, i as int)).len() + 1,
                total <= MAX_NAME_WIRE_LEN,
            decreases self.labels@.len() - i,
        {
            let n = self.labels[i].value.as_str().as_bytes().len();
            proof {
                assert(q[i as int] == self.labels@[i as int].value@);
                assert(lb[i as int] == encode_utf8(q[i as int]));
                assert(lb.subrange(0, i + 1).drop_last() =~= lb.subrange(0, i as int));
                lemma_labels_body_prefix(lb, i + 1);
                lemma_labels_body_prefix(lb, lb.len() as int);
                assert(lb.subrange(0, lb.len() as int) =~= lb);
            }
            if n == 0 || n > MAX_LABEL_LEN {
                return false;
            }
            if n + 1 > MAX_NAME_WIRE_LEN - total {
                return false;
            }
            proof {
                assert(n == encode_utf8(q[i as int]).len());
                assert(label_wire(lb[i as int]).len() == n + 1);
            }
            total = total + n + 1;
            i = i + 1;
        }
        proof {
            assert(lb.subrange(0, lb.len() as int) =~= lb);
        }
        true
    }

    /// Appends the wire form of these labels to `buf`, or fails with
    /// `InvalidName`, leaving `buf` as it was, where a label is empty or longer
    /// than 63 bytes or the whole would exceed 255 bytes.
    pub fn write(&self, buf: &mut BytesMut) -> (r: Result<(), DnsError>)
        requires
            buf_bytes(*old(buf)).len() + MAX_NAME_WIRE_LEN <= buf_limit(),
        ensures
            qname_encodable(self@) ==> r is Ok && buf_bytes(*final(buf)) == buf_bytes(*old(buf))
                + qname_wire(self@),
            !qname_encodable(self@) ==> r == Err::<(), DnsError>(DnsError::InvalidName)
                && buf_bytes(*final(buf)) == buf_bytes(*old(buf)),
    {
        if !self.is_encodable() {
            return Err(DnsError::InvalidName);
        }
        let ghost q = self@;
        let ghost lb = label_bytes(q);
        assert(qname_wire(q).len() == labels_body(lb).len() + 1);
        let mut k: usize = 0;
        let ghost start = buf_bytes(*buf);
        proof {
            assert(start + labels_body(lb.subrange(0, 0)) =~= start);
        }
        while k < self.labels.len()
            invariant
                k <= self.labels@.len(),
                q == self@,
                lb == label_bytes(q),
                lb.len() == q.len() == self.labels@.len(),
                qname_encodable(q),
                labels_body(lb).len() + 1 <= MAX_NAME_WIRE_LEN,
                start.len() + MAX_NAME_WIRE_LEN <= buf_limit(),
                buf_bytes(*buf) == start + labels_body(lb.subrange(0, k as int)),
            decreases self.labels@.len() - k,
        {
            let bytes = self.labels[k].value.as_str().as_bytes();
            proof {
                assert(q[k as int] == self.labels@[k as int].value@);
                assert(lb[k as int] == encode_utf8(q[k as int]));
                assert(lb.subrange(0, k + 1).drop_last() =~= lb.subrange(0, k as int));
                assert(lb.subrange(0, k + 1).last() == lb[k as int]);
                lemma_labels_body_prefix(lb, k + 1);
                assert(lb.subrange(0, lb.len() as int) =~= lb);
            }
            put_u8(buf, bytes.len() as u8);
            put_slice(buf, bytes);
            proof {
                assert(buf_bytes(*buf) =~= start + labels_body(lb.subrange(0, k + 1)));
            }
            k = k + 1;
        }
        assert(lb.subrange(0, lb.len() as int) =~= lb);
        put_u8(buf, 0);
        proof {
            assert(buf_bytes(*buf) =~= start + qname_wire(q));
        }
        Ok(())
    }

    /// Reads the label sequence that starts at `start` in `buf`. On success gives
    /// the labels and the number of bytes read, the terminating zero included;
    /// gives `MalformedMessage` where a label runs past `buf`, a label is longer
    /// than 63 bytes or not UTF-8, or the sequence is longer than 255 bytes.
    pub fn decode(buf: &[u8], start: usize) -> (r: Result<(QName, usize), DnsError>)
        ensures
            match decode_qname(buf@, start as int) {
                Some((q, end)) => r is Ok && r->Ok_0.0@ == q && r->Ok_0.1 == end - start && start
                    < end <= buf@.len(),
                None => r == Err::<(QName, usize), DnsError>(DnsError::MalformedMessage),
            },
    {
        let ghost b = buf@;
        proof {
            lemma_parse_end(b, start as int);
        }
        let mut labels: Vec<Label> = Vec::new();
        let mut pos: usize = start;
        let ghost mut raw: Seq<Seq<u8>> = Seq::empty();
        proof {
            assert(raw.map_values(|l: Seq<u8>| decode_utf8(l)) =~= labels@.map_values(
                |l: Label| l.value@,
            ));
            match parse_labels(b, pos as int) {
                Some((r, e)) => {
                    assert(raw + r =~= r);
                },
                None => {},
            }
        }
        loop
            invariant
                b == buf@,
                start <= pos,
                forall|i: int| 0 <= i < raw.len() ==> valid_utf8(#[trigger] raw[i]),
                raw.map_values(|l: Seq<u8>| decode_utf8(l)) == labels@.map_values(
                    |l: Label| l.value@,
                ),
                parse_labels(b, start as int) == match parse_labels(b, pos as int) {
                    Some((r, e)) => Some((raw + r, e)),
                    None => None,
                },
            decreases buf@.len() - pos,
        {
            if pos >= buf.len() {
                return Err(DnsError::MalformedMessage);
            }
            let n = buf[pos] as usize;
            if n == 0 {
                proof {
                    assert(raw + Seq::<Seq<u8>>::empty() =~= raw);
                }
                if pos + 1 - start > MAX_NAME_WIRE_LEN {
                    return Err(DnsError::MalformedMessage);
                }
                return Ok((QName { labels }, pos + 1 - start));
            }
            if n > MAX_LABEL_LEN || n > buf.len() - pos - 1 {
                return Err(DnsError::MalformedMessage);
            }
            let part = vstd::slice::slice_to_vec(&buf[pos + 1..pos + 1 + n]);
            let ghost lab = b.subrange(pos + 1, pos + 1 + n);
            proof {
                assert(part@ == lab);
                match parse_labels(b, pos + 1 + n) {
                    Some((r, e)) => {
                        assert(raw + (seq![lab] + r) =~= raw.push(lab) + r);
                        assert((raw.push(lab) + r)[raw.len() as int] == lab);
                    },
                    None => {},
                }
            }
            match string_from_utf8(part) {
                None => {
                    return Err(DnsError::MalformedMessage);
                },
                Some(text) => {
                    let ghost before = labels@.map_values(|l: Label| l.value@);
                    labels.push(Label { value: text });
                    proof {
                        assert(labels@.map_values(|l: Label| l.value@) =~= before.push(text@));
                        assert(raw.push(lab).map_values(|l: Seq<u8>| decode_utf8(l)) =~= raw.map_values(
                            |l: Seq<u8>| decode_utf8(l),
                        ).push(decode_utf8(lab)));
                        raw = raw.push(lab);
                    }
                    pos = pos + 1 + n;
                },
            }
        }
    }
}

proof fn lemma_parse_end(b: Seq<u8>, pos: int)
    ensures
        parse_labels(b, pos) matches Some((_, end)) ==> pos < end <= b.len(),
    decreases b.len() - pos,
{
    if 0 <= pos < b.len() {
        let n = b[pos] as int;
        if n != 0 && n <= MAX_LABEL_LEN && pos + 1 + n <= b.len() {
            lemma_parse_end(b, pos + 1 + n);
        }
    }
}

/// The wire form of a prefix of the labels is no longer than that of all of them,
/// and grows by one label's wire form at a time.
proof fn lemma_labels_body_prefix(ls: Seq<Seq<u8>>, j: int)
    requires
        0 < j <= ls.len(),
    ensures
        labels_body(ls.subrange(0, j)) == labels_body(ls.subrange(0, j - 1)) + label_wire(ls[j - 1]),
        labels_body(ls.subrange(0, j)).len() <= labels_body(ls).len(),
    decreases ls.len(),
{
    assert(ls.subrange(0, j).drop_last() =~= ls.subrange(0, j - 1));
    if j < ls.len() {
        assert(ls.drop_last().subrange(0, j) =~= ls.subrange(0, j));
        assert(ls.drop_last().subrange(0, j - 1) =~= ls.subrange(0, j - 1));
        lemma_labels_body_prefix(ls.drop_last(), j);
    } else {
        assert(ls.subrange(0, j) =~= ls);
    }
}

proof fn lemma_join_split(s: Seq<char>)
    ensures
        split_on(s, '.').len() >= 1,
        join_labels(split_on(s, '.')) == s,
    decreases s.len(),
{
    if s.len() > 0 {
        let t = s.drop_last();
        lemma_join_split(t);
        let p = split_on(t, '.');
        let q = split_on(s, '.');
        if s.last() == '.' {
            assert(q.drop_last() =~= p);
            assert(s =~= t + seq!['.'] + Seq::<char>::empty());
        } else {
            if p.len() == 1 {
                assert(s =~= p[0].push(s.last()));
            } else {
                assert(q.drop_last() =~= p.drop_last());
                assert(t == join_labels(p.drop_last()) + seq!['.'] + p.last());
                assert(s =~= t.push(s.last()));
                assert(s =~= join_labels(p.drop_last()) + seq!['.'] + p.last().push(s.last()));
            }
        }
    }
}

proof fn lemma_labels_body_front(ls: Seq<Seq<u8>>)
    requires
        ls.len() >= 1,
    ensures
        labels_body(ls) == label_wire(ls[0]) + labels_body(ls.drop_first()),
    decreases ls.len(),
{
    if ls.len() == 1 {
        assert(ls.drop_first() =~= Seq::<Seq<u8>>::empty());
        assert(ls.drop_last() =~= Seq::<Seq<u8>>::empty());
        assert(labels_body(ls.drop_last()) == Seq::<u8>::empty());
        assert(labels_body(ls.drop_first()) == Seq::<u8>::empty());
        assert(labels_body(ls) =~= label_wire(ls[0]));
    } else {
        let dl = ls.drop_last();
        lemma_labels_body_front(dl);
        assert(dl.drop_first() =~= ls.drop_first().drop_last());
        assert(ls.drop_first().last() == ls.last());
        assert(labels_body(ls) =~= label_wire(ls[0]) + labels_body(ls.drop_first()));
    }
}

proof fn lemma_parse_body(pre: Seq<u8>, ls: Seq<Seq<u8>>, rest: Seq<u8>)
    requires
        forall|i: int| 0 <= i < ls.len() ==> 1 <= #[trigger] ls[i].len() <= MAX_LABEL_LEN,
    ensures
        parse_labels(pre + labels_body(ls) + seq![0u8] + rest, pre.len() as int) == Some(
            (ls, (pre.len() + labels_body(ls).len() + 1) as int),
        ),
    decreases ls.len(),
{
    let b = pre + labels_body(ls) + seq![0u8] + rest;
    if ls.len() == 0 {
        assert(b[pre.len() as int] == 0);
        assert(ls =~= Seq::<Seq<u8>>::empty());
    } else {
        lemma_labels_body_front(ls);
        let tail = ls.drop_first();
        let pre2 = pre + label_wire(ls[0]);
        assert(b =~= pre2 + labels_body(tail) + seq![0u8] + rest);
        assert forall|i: int| 0 <= i < tail.len() implies 1 <= #[trigger] tail[i].len()
            <= MAX_LABEL_LEN by {
            assert(tail[i] == ls[i + 1]);
        }
        lemma_parse_body(pre2, tail, rest);
        let n = ls[0].len() as int;
        assert(b[pre.len() as int] as int == n);
        assert(b.subrange(pre.len() + 1 as int, pre.len() + 1 + n) =~= ls[0]);
        assert(seq![ls[0]] + tail =~= ls);
    }
}

/// Reading back the wire form of labels that each hold 1 to 63 bytes, 255
/// bytes in all at most, gives those labels, having read exactly the wire form,
/// whatever follows it.
pub proof fn lemma_qname_round_trip(q: Seq<Seq<char>>, rest: Seq<u8>)
    requires
        qname_encodable(q),
    ensures
        decode_qname(qname_wire(q) + rest, 0) == Some((q, qname_wire(q).len() as int)),
{
    broadcast use vstd::utf8::encode_utf8_valid_utf8, vstd::utf8::encode_utf8_decode_utf8;

    let lb = label_bytes(q);
    assert forall|i: int| 0 <= i < lb.len() implies 1 <= #[trigger] lb[i].len()
        <= MAX_LABEL_LEN by {
        assert(lb[i] == encode_utf8(q[i]));
    }
    lemma_parse_body(Seq::empty(), lb, rest);
    assert(qname_wire(q) + rest =~= Seq::<u8>::empty() + labels_body(lb) + seq![0u8] + rest);
    assert forall|i: int| 0 <= i < lb.len() implies valid_utf8(#[trigger] lb[i]) by {
        assert(lb[i] == encode_utf8(q[i]));
    }
    assert(lb.map_values(|l: Seq<u8>| decode_utf8(l)) =~= q);
}

/// A name whose labels each hold 1 to 63 bytes (so no label is empty), 255
/// bytes in all at most on the wire, survives being written as a label
/// sequence and read back: the labels read are the name's own, they join into
/// the name, and exactly the written bytes are read.
pub proof fn lemma_name_round_trip(n: Seq<char>, rest: Seq<u8>)
    requires
        qname_encodable(name_labels(n)),
    ensures
        decode_qname(qname_wire(name_labels(n)) + rest, 0) == Some(
            (name_labels(n), qname_wire(name_labels(n)).len() as int),
        ),
        join_labels(name_labels(n)) == n,
{
    lemma_qname_round_trip(name_labels(n), rest);
    lemma_join_split(n);
}

} // verus!
