//! The contract that submissions rely on, as an in-memory store.
//!
//! A store keeps at most one record per path. A mutation for a path that the
//! store does not know adds a record. A mutation whose checksum equals that
//! of the record changes nothing. Any other mutation replaces the record as
//! a whole, so nothing of the earlier version survives.

use vstd::prelude::*;
use crate::pipeline::{Mutation, MutationView};
use crate::resource::eq_bytes;
use crate::text::{chars_of, eq_chars};

verus! {

/// What a mutation did to the store.
#[derive(Clone, Copy, Debug, PartialEq, Eq, Structural)]
pub enum Applied {
    /// The path was new: a record was added.
    Created,
    /// The checksum differed: the record was replaced.
    Replaced,
    /// The checksum was the same: nothing changed.
    Unchanged,
}

/// The position of the record for `path`, or the number of records if there
/// is none.
pub open spec fn position(records: Seq<MutationView>, path: Seq<char>) -> int
    decreases records.len(),
{
    if records.len() == 0 {
        0
    } else if records[0].path == path {
        0
    } else {
        1 + position(records.drop_first(), path)
    }
}

/// Whether no two records have the same path.
pub open spec fn distinct_paths(records: Seq<MutationView>) -> bool {
    forall|i: int, j: int|
        0 <= i < j < records.len() ==> (#[trigger] records[i]).path != (#[trigger] records[j]).path
}

/// What a mutation does to the records.
pub open spec fn effect(records: Seq<MutationView>, m: MutationView) -> Applied {
    let k = position(records, m.path);
    if !(0 <= k < records.len()) {
        Applied::Created
    } else if records[k].checksum == m.checksum {
        Applied::Unchanged
    } else {
        Applied::Replaced
    }
}

/// The records after a mutation.
pub open spec fn upserted(records: Seq<MutationView>, m: MutationView) -> Seq<MutationView> {
    match effect(records, m) {
        Applied::Created => records.push(m),
        Applied::Unchanged => records,
        Applied::Replaced => records.update(position(records, m.path), m),
    }
}

/// `position` is within bounds, no record before it has the path, and the
/// record at it has, if there is one.
pub proof fn lemma_position(records: Seq<MutationView>, path: Seq<char>)
    ensures
        0 <= position(records, path) <= records.len(),
        forall|j: int| 0 <= j < position(records, path) ==> (#[trigger] records[j]).path != path,
        position(records, path) < records.len() ==> records[position(records, path)].path == path,
    decreases records.len(),
{
    if records.len() > 0 && records[0].path != path {
        let rest = records.drop_first();
        lemma_position(rest, path);
        assert forall|j: int| 0 <= j < position(records, path) implies (#[trigger] records[j]).path
            != path by {
            if j > 0 {
                assert(rest[j - 1] == records[j]);
            }
        }
        if position(records, path) < records.len() {
            assert(rest[position(rest, path)] == records[position(records, path)]);
        }
    }
}

/// The position at which a scan from the front stops is `position`.
pub proof fn lemma_position_is(records: Seq<MutationView>, path: Seq<char>, k: int)
    requires
        0 <= k <= records.len(),
        forall|j: int| 0 <= j < k ==> (#[trigger] records[j]).path != path,
        k < records.len() ==> records[k].path == path,
    ensures
        position(records, path) == k,
    decreases records.len(),
{
    if records.len() > 0 && k > 0 {
        let rest = records.drop_first();
        assert(records[0].path != path);
        assert forall|j: int| 0 <= j < k - 1 implies (#[trigger] rest[j]).path != path by {
            assert(rest[j] == records[j + 1]);
        }
        if k - 1 < rest.len() {
            assert(rest[k - 1] == records[k]);
        }
        lemma_position_is(rest, path, k - 1);
    }
}

/// After a mutation the store holds exactly one record for its path, and
/// the records of other paths are as before.
pub proof fn lemma_upserted_one_record(records: Seq<MutationView>, m: MutationView)
    requires
        distinct_paths(records),
    ensures
        distinct_paths(upserted(records, m)),
        position(upserted(records, m), m.path) < upserted(records, m).len(),
        effect(records, m) != Applied::Unchanged ==> upserted(records, m)[position(
            upserted(records, m),
            m.path,
        )] == m,
        effect(records, m) == Applied::Created ==> upserted(records, m).len() == records.len() + 1,
        effect(records, m) != Applied::Created ==> upserted(records, m).len() == records.len(),
        forall|j: int|
            0 <= j < records.len() && (#[trigger] records[j]).path != m.path ==> upserted(
                records,
                m,
            )[j] == records[j],
{
    let k = position(records, m.path);
    let after = upserted(records, m);
    lemma_position(records, m.path);
    assert forall|i: int, j: int| 0 <= i < j < after.len() implies (#[trigger] after[i]).path != (
    #[trigger] after[j]).path by {
        if j < records.len() {
            assert(after[i].path == records[i].path);
            assert(after[j].path == records[j].path);
        } else {
            assert(after[i] == records[i]);
        }
    }
    if k < records.len() {
        assert(after[k].path == m.path);
        assert forall|j: int| 0 <= j < k implies (#[trigger] after[j]).path != m.path by {
            assert(after[j] == records[j]);
        }
        lemma_position_is(after, m.path, k);
    } else {
        assert forall|j: int| 0 <= j < k implies (#[trigger] after[j]).path != m.path by {
            assert(after[j] == records[j]);
        }
        lemma_position_is(after, m.path, k);
    }
}

/// Submitting the same mutation twice is submitting it once: the second
/// submission finds its checksum in the store and changes nothing.
pub proof fn lemma_upsert_idempotent(records: Seq<MutationView>, m: MutationView)
    requires
        distinct_paths(records),
    ensures
        effect(upserted(records, m), m) == Applied::Unchanged,
        upserted(upserted(records, m), m) == upserted(records, m),
{
    lemma_upserted_one_record(records, m);
    lemma_position(records, m.path);
    lemma_position(upserted(records, m), m.path);
}

/// A store in memory.
#[derive(Debug)]
pub struct MemoryStore {
    pub records: Vec<Mutation>,
}

impl View for MemoryStore {
    type V = Seq<MutationView>;

    open spec fn view(&self) -> Seq<MutationView> {
        self.records@.map_values(|m: Mutation| m@)
    }
}

impl MemoryStore {
    /// A store is well formed when it holds at most one record per path.
    pub open spec fn wf(&self) -> bool {
        distinct_paths(self@)
    }

    /// The empty store.
    pub fn new() -> (s: MemoryStore)
        ensures
            s.wf(),
            s@ == Seq::<MutationView>::empty(),
    {
        let s = MemoryStore { records: Vec::new() };
        assert(s@ =~= Seq::<MutationView>::empty());
        s
    }

    /// How many records the store holds.
    pub fn len(&self) -> (n: usize)
        ensures
            n == self@.len(),
    {
        self.records.len()
    }

    /// The record for `path`, if the store holds one.
    pub fn get(&self, path: &str) -> (r: Option<&Mutation>)
        ensures
            r is Some <==> position(self@, path@) < self@.len(),
            r matches Some(m) ==> m@ == self@[position(self@, path@)],
    {
        let wanted = chars_of(path);
        let mut k: usize = 0;
        while k < self.records.len()
            invariant
                k <= self.records.len(),
                wanted@ == path@,
                forall|j: int| 0 <= j < k ==> (#[trigger] self@[j]).path != path@,
            decreases self.records.len() - k,
        {
            let here = chars_of(self.records[k].path.as_str());
            if eq_chars(&here, &wanted) {
                proof {
                    assert(self@[k as int] == self.records@[k as int]@);
                    lemma_position_is(self@, path@, k as int);
                }
                return Some(&self.records[k]);
            }
            assert(self@[k as int] == self.records@[k as int]@);
            k += 1;
        }
        proof {
            lemma_position_is(self@, path@, k as int);
        }
        None
    }

    /// Applies a mutation.
    pub fn ingest(&mut self, m: Mutation) -> (applied: Applied)
        requires
            old(self).wf(),
        ensures
            final(self).wf(),
            final(self)@ == upserted(old(self)@, m@),
            applied == effect(old(self)@, m@),
    {
        let ghost before = self@;
        let mut k: usize = 0;
        while k < self.records.len()
            invariant
                k <= self.records.len(),
                self@ == before,
                before == old(self)@,
                distinct_paths(before),
                forall|j: int| 0 <= j < k ==> (#[trigger] before[j]).path != m.path@,
            decreases self.records.len() - k,
        {
            assert(before[k as int] == self.records@[k as int]@);
            if self.records[k].path == m.path {
                proof {
                    lemma_position_is(before, m@.path, k as int);
                    lemma_upserted_one_record(before, m@);
                }
                if eq_bytes(&self.records[k].checksum, &m.checksum) {
                    return Applied::Unchanged;
                }
                let ghost mv = m@;
                self.records.set(k, m);
                assert(self@ =~= before.update(k as int, mv));
                return Applied::Replaced;
            }
            k += 1;
        }
        proof {
            lemma_position_is(before, m@.path, k as int);
            lemma_upserted_one_record(before, m@);
        }
        let ghost mv = m@;
        self.records.push(m);
        assert(self@ =~= before.push(mv));
        Applied::Created
    }
}

} // verus!
