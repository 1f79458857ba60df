//! The durable store's data model: rows keyed by id, idempotent insertion,
//! and checkpoint derivation from the maximum stored timestamp.

use vstd::prelude::*;
use crate::record::AbsRow;
use crate::record::Row;
use crate::strorder::lex_le;
use crate::strorder::lemma_lex_le_refl;
use crate::strorder::lemma_lex_le_total;
use crate::strorder::lemma_lex_le_trans;
use crate::strorder::str_le;
use vstd::string::StringExecFns;

verus! {

/// Whether some row of `s` has primary key `id`.
pub open spec fn contains_id(s: Seq<AbsRow>, id: u64) -> bool {
    exists|i: int| 0 <= i < s.len() && s[i].id == id
}

/// The store contents after an idempotent insert: unchanged when the key is
/// already present, extended by the row otherwise.
pub open spec fn spec_insert(s: Seq<AbsRow>, r: AbsRow) -> Seq<AbsRow> {
    if contains_id(s, r.id) {
        s
    } else {
        s.push(r)
    }
}

/// Primary keys are unique across the store.
pub open spec fn unique_ids(s: Seq<AbsRow>) -> bool {
    forall|i: int, j: int|
        0 <= i < s.len() && 0 <= j < s.len() && i != j ==> s[i].id != s[j].id
}

/// The fixed epoch sentinel used as the checkpoint of an empty store.
pub open spec fn epoch_checkpoint() -> Seq<char> {
    "1970-01-01T00:00:00Z"@
}

/// Law: insertion is idempotent on the primary key. Once a row with some id
/// is stored, inserting any row with the same id changes nothing, so the
/// originally inserted field values survive.
pub proof fn lemma_insert_idempotent(s: Seq<AbsRow>, r1: AbsRow, r2: AbsRow)
    requires
        r2.id == r1.id,
    ensures
        spec_insert(spec_insert(s, r1), r2) == spec_insert(s, r1),
{
    if !contains_id(s, r1.id) {
        assert(s.push(r1)[s.len() as int] == r1);
        assert(contains_id(s.push(r1), r2.id));
    }
}

/// The store: one row per id, in insertion order.
pub struct Store {
    rows: Vec<Row>,
}

impl View for Store {
    type V = Seq<AbsRow>;

    closed spec fn view(&self) -> Seq<AbsRow> {
        self.rows@.map_values(|r: Row| r@)
    }
}

impl Store {
    /// The store's invariant: no two rows share an id.
    pub open spec fn wf(&self) -> bool {
        unique_ids(self@)
    }

    /// Creates an empty store.
    pub fn new() -> (s: Store)
        ensures
            s@ == Seq::<AbsRow>::empty(),
            s.wf(),
    {
        let s = Store { rows: Vec::new() };
        proof {
            assert(s@ =~= Seq::<AbsRow>::empty());
        }
        s
    }

    /// The number of stored rows.
    pub fn len(&self) -> (n: usize)
        ensures
            n == self@.len(),
    {
        self.rows.len()
    }

    /// The row at a position.
    pub fn get(&self, i: usize) -> (r: &Row)
        requires
            i < self@.len(),
        ensures
            r@ == self@[i as int],
    {
        &self.rows[i]
    }

    /// Whether a row with this id is already stored.
    pub fn contains(&self, id: u64) -> (r: bool)
        ensures
            r == contains_id(self@, id),
    {
        let mut i: usize = 0;
        while i < self.rows.len()
            invariant
                0 <= i <= self.rows@.len(),
                self@.len() == self.rows@.len(),
                forall|j: int| 0 <= j < i ==> self@[j].id != id,
            decreases self.rows@.len() - i,
        {
            if self.rows[i].id == id {
                assert(self@[i as int].id == id);
                return true;
            }
            i = i + 1;
        }
        false
    }

    /// Inserts a row idempotently: a no-op when the id is already stored.
    /// Reports whether the row was added.
    pub fn insert(&mut self, row: Row) -> (added: bool)
        requires
            old(self).wf(),
        ensures
            final(self)@ == spec_insert(old(self)@, row@),
            final(self).wf(),
            added == !contains_id(old(self)@, row@.id),
    {
        if self.contains(row.id) {
            false
        } else {
            let ghost prev = self@;
            self.rows.push(row);
            proof {
                assert(self@ =~= prev.push(row@));
                assert forall|i: int, j: int|
                    0 <= i < self@.len() && 0 <= j < self@.len() && i != j implies self@[i].id
                    != self@[j].id by {
                    if i < prev.len() && j < prev.len() {
                        assert(prev[i].id != prev[j].id);
                    }
                }
            }
            true
        }
    }

    /// The maximum stored timestamp in lexicographic order, or `None` when
    /// the store is empty.
    pub fn max_timestamp(&self) -> (r: Option<String>)
        ensures
            r is None <==> self@.len() == 0,
            r matches Some(t) ==> {
                &&& exists|i: int| 0 <= i < self@.len() && self@[i].timestamp == t@
                &&& forall|i: int| 0 <= i < self@.len() ==> lex_le(self@[i].timestamp, t@)
            },
    {
        if self.rows.len() == 0 {
            return None;
        }
        let mut best: String = self.rows[0].timestamp.clone();
        proof {
            lemma_lex_le_refl(best@);
            assert(self@[0].timestamp == best@);
        }
        let mut i: usize = 1;
        while i < self.rows.len()
            invariant
                1 <= i <= self.rows@.len(),
                self@.len() == self.rows@.len(),
                exists|j: int| 0 <= j < i && self@[j].timestamp == best@,
                forall|j: int| 0 <= j < i ==> lex_le(self@[j].timestamp, best@),
            decreases self.rows@.len() - i,
        {
            let cand = &self.rows[i].timestamp;
            if str_le(best.as_str(), cand.as_str()) {
                let ghost prev_best = best@;
                best = cand.clone();
                proof {
                    assert(self@[i as int].timestamp == best@);
                    lemma_lex_le_refl(best@);
                    assert forall|j: int| 0 <= j < i implies lex_le(
                        self@[j].timestamp,
                        best@,
                    ) by {
                        lemma_lex_le_trans(self@[j].timestamp, prev_best, best@);
                    }
                }
            } else {
                proof {
                    lemma_lex_le_total(best@, cand@);
                    assert(self@[i as int].timestamp == cand@);
                }
            }
            i = i + 1;
        }
        Some(best)
    }

    /// Resolves the checkpoint for the next run: the maximum stored
    /// timestamp, or the epoch sentinel when the store is empty.
    pub fn checkpoint(&self) -> (r: String)
        ensures
            self@.len() == 0 ==> r@ == epoch_checkpoint(),
            self@.len() > 0 ==> {
                &&& exists|i: int| 0 <= i < self@.len() && self@[i].timestamp == r@
                &&& forall|i: int| 0 <= i < self@.len() ==> lex_le(self@[i].timestamp, r@)
            },
    {
        resolve_checkpoint(self.max_timestamp())
    }
}

/// Turns the store's maximum-timestamp query result into the run's starting
/// cursor: the timestamp itself, or the epoch sentinel for an empty store.
pub fn resolve_checkpoint(max_ts: Option<String>) -> (r: String)
    ensures
        max_ts matches Some(t) ==> r@ == t@,
        max_ts is None ==> r@ == epoch_checkpoint(),
{
    match max_ts {
        Some(t) => t,
        None => String::from_str("1970-01-01T00:00:00Z"),
    }
}

} // verus!
