//! The table of authoritative records, searched by exact name.

use crate::message::{Name, Record};
use vstd::prelude::*;

verus! {

/// The records served, in the order they were given.
pub struct RecordDatabase<R: Record> {
    records: Vec<R>,
}

/// `r` is what a lookup of `name` among `records` gives: the first record owned
/// by exactly that name, or none when no record is.
pub open spec fn lookup_result<R: Record>(records: Seq<R>, name: Seq<char>, r: Option<R>) -> bool {
    match r {
        None => forall|i: int| 0 <= i < records.len() ==> #[trigger] records[i].spec_owner() != name,
        Some(rec) => exists|i: int|
            0 <= i < records.len() && records[i] == rec && records[i].spec_owner() == name && (
            forall|j: int| 0 <= j < i ==> #[trigger] records[j].spec_owner() != name),
    }
}

impl<R: Record> RecordDatabase<R> {
    /// The records held, in order.
    pub closed spec fn spec_records(&self) -> Seq<R> {
        self.records@
    }

    /// A table holding `records`, in the order given.
    pub fn new(records: Vec<R>) -> (r: RecordDatabase<R>)
        ensures
            r.spec_records() == records@,
    {
        RecordDatabase { records }
    }

    /// The first record whose name is exactly `name`, if any.
    pub fn get_record(&self, name: &Name) -> (r: Option<&R>)
        ensures
            lookup_result(
                self.spec_records(),
                name@,
                match r {
                    Some(rec) => Some(*rec),
                    None => None,
                },
            ),
    {
        let mut i: usize = 0;
        while i < self.records.len()
            invariant
                i <= self.records@.len(),
                forall|j: int| 0 <= j < i ==> #[trigger] self.records@[j].spec_owner() != name@,
            decreases self.records@.len() - i,
        {
            if self.records[i].get_name() == name {
                return Some(&self.records[i]);
            }
            i = i + 1;
        }
        None
    }
}

/// Lookups are deterministic: a table and a name admit a single lookup result,
/// so repeated lookups give the same record, or none each time.
pub proof fn lemma_lookup_deterministic<R: Record>(
    records: Seq<R>,
    name: Seq<char>,
    r1: Option<R>,
    r2: Option<R>,
)
    requires
        lookup_result(records, name, r1),
        lookup_result(records, name, r2),
    ensures
        r1 == r2,
{
    match (r1, r2) {
        (Some(a), Some(b)) => {
            let i = choose|i: int|
                0 <= i < records.len() && records[i] == a && records[i].spec_owner() == name && (
                forall|j: int| 0 <= j < i ==> #[trigger] records[j].spec_owner() != name);
            let k = choose|k: int|
                0 <= k < records.len() && records[k] == b && records[k].spec_owner() == name && (
                forall|j: int| 0 <= j < k ==> #[trigger] records[j].spec_owner() != name);
            assert(!(i < k));
            assert(!(k < i));
        },
        (Some(a), None) => {
            let i = choose|i: int| 0 <= i < records.len() && records[i] == a && records[i].spec_owner() == name && (
                forall|j: int| 0 <= j < i ==> #[trigger] records[j].spec_owner() != name);
            assert(records[i].spec_owner() != name);
        },
        (None, Some(b)) => {
            let k = choose|k: int| 0 <= k < records.len() && records[k] == b && records[k].spec_owner() == name && (
                forall|j: int| 0 <= j < k ==> #[trigger] records[j].spec_owner() != name);
            assert(records[k].spec_owner() != name);
        },
        (None, None) => {},
    }
}

} // verus!
