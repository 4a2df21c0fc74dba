//! The transposition table.

use vstd::prelude::*;
use vstd::layout::size_of;
use crate::types::Move;

verus! {

/// What a stored score says about the true score of its position.
#[derive(Clone, Copy, Debug, PartialEq, Eq, Structural)]
pub enum Bound {
    Exact,
    Lower,
    Upper,
}

/// One remembered search result.
#[derive(Clone, Copy, Debug, PartialEq, Eq, Structural)]
pub struct TTEntry {
    pub hash: u64,
    pub depth: u8,
    pub score: i32,
    pub bound: Bound,
    pub best_move: Option<Move>,
}

/// A table of search results with one slot per index and no second probe.
pub struct TranspositionTable {
    entries: Vec<Option<TTEntry>>,
    size: usize,
}

/// Bytes in a megabyte.
pub const MEGABYTE: usize = 1048576;

/// The number of slots that fit into `size_mb` megabytes.
pub open spec fn tt_capacity(size_mb: usize) -> nat {
    let slot = size_of::<Option<TTEntry>>();
    if size_mb == 0 || slot == 0 {
        0
    } else {
        ((size_mb * MEGABYTE) / (slot as int)) as nat
    }
}

/// The slot in which a position with this hash is kept.
pub open spec fn tt_index(hash: u64, capacity: nat) -> int {
    (hash as int) % (capacity as int)
}

/// What a lookup of `hash` finds: the entry in its slot, if that entry was
/// stored for the same hash.
pub open spec fn tt_lookup(table: Seq<Option<TTEntry>>, hash: u64) -> Option<TTEntry> {
    if table.len() == 0 {
        None
    } else {
        match table[tt_index(hash, table.len())] {
            Some(e) => if e.hash == hash {
                Some(e)
            } else {
                None
            },
            None => None,
        }
    }
}

/// Whether a result of `depth` for `hash` takes the place of what is in
/// `slot`: always where the slot is empty or holds another position, and
/// otherwise where it is at least as deep.
pub open spec fn tt_replaces(slot: Option<TTEntry>, hash: u64, depth: u8) -> bool {
    match slot {
        None => true,
        Some(existing) => existing.hash != hash || depth >= existing.depth,
    }
}

/// The table after `entry` has been offered to it.
pub open spec fn tt_stored(table: Seq<Option<TTEntry>>, entry: TTEntry) -> Seq<Option<TTEntry>> {
    if table.len() == 0 {
        table
    } else {
        let idx = tt_index(entry.hash, table.len());
        if tt_replaces(table[idx], entry.hash, entry.depth) {
            table.update(idx, Some(entry))
        } else {
            table
        }
    }
}

/// After an entry has been offered, a lookup of its hash finds it if it took
/// the slot, and otherwise still finds the deeper entry of the same position
/// that was there. Slots of other indices are as they were.
pub proof fn lemma_store_then_get(table: Seq<Option<TTEntry>>, entry: TTEntry)
    requires
        table.len() > 0,
    ensures
        ({
            let slot = table[tt_index(entry.hash, table.len())];
            let after = tt_stored(table, entry);
            &&& after.len() == table.len()
            &&& tt_replaces(slot, entry.hash, entry.depth) ==> tt_lookup(after, entry.hash)
                == Some(entry)
            &&& !tt_replaces(slot, entry.hash, entry.depth) ==> {
                &&& slot is Some
                &&& slot.unwrap().hash == entry.hash
                &&& slot.unwrap().depth > entry.depth
                &&& tt_lookup(after, entry.hash) == slot
            }
            &&& forall|h: u64|
                tt_index(h, table.len()) != tt_index(entry.hash, table.len()) ==> tt_lookup(
                    after,
                    h,
                ) == tt_lookup(table, h)
        }),
{
}

impl View for TranspositionTable {
    type V = Seq<Option<TTEntry>>;

    /// The slots in order.
    closed spec fn view(&self) -> Seq<Option<TTEntry>> {
        self.entries@
    }
}

impl TranspositionTable {
    /// The recorded capacity is the number of slots.
    #[verifier::type_invariant]
    closed spec fn inv(&self) -> bool {
        self.size == self.entries@.len()
    }

    /// An empty table of `size_mb` megabytes; none at all for 0.
    pub fn new(size_mb: usize) -> (table: Self)
        requires
            size_mb * MEGABYTE <= usize::MAX,
        ensures
            table@.len() == tt_capacity(size_mb),
            forall|i: int| 0 <= i < table@.len() ==> table@[i] is None,
    {
        let entry_size = core::mem::size_of::<Option<TTEntry>>();
        if size_mb == 0 || entry_size == 0 {
            return TranspositionTable { entries: Vec::new(), size: 0 };
        }
        let num_entries = (size_mb * MEGABYTE) / entry_size;
        let mut entries: Vec<Option<TTEntry>> = Vec::new();
        let mut i: usize = 0;
        while i < num_entries
            invariant
                i <= num_entries,
                entries@.len() == i,
                forall|j: int| 0 <= j < i ==> entries@[j] is None,
            decreases num_entries - i,
        {
            entries.push(None);
            i += 1;
        }
        TranspositionTable { entries, size: num_entries }
    }

    /// Whether the table has any slot.
    pub fn is_enabled(&self) -> (on: bool)
        ensures
            on == (self@.len() > 0),
    {
        proof {
            use_type_invariant(self);
        }
        self.size > 0
    }

    /// The slot of `hash`.
    fn get_index(&self, hash: u64) -> (idx: usize)
        requires
            self@.len() > 0,
        ensures
            idx == tt_index(hash, self@.len()),
            idx < self@.len(),
    {
        proof {
            use_type_invariant(self);
        }
        (hash % (self.size as u64)) as usize
    }

    /// The entry stored for `hash`, if its slot holds one for this very hash.
    pub fn get(&self, hash: u64) -> (res: Option<&TTEntry>)
        ensures
            match res {
                Some(e) => tt_lookup(self@, hash) == Some(*e),
                None => tt_lookup(self@, hash) is None,
            },
    {
        if !self.is_enabled() {
            return None;
        }
        let idx = self.get_index(hash);
        if let Some(entry) = &self.entries[idx] {
            if entry.hash == hash {
                return Some(entry);
            }
        }
        None
    }

    /// Offers a result to the table. It takes its slot if the slot is empty,
    /// holds another position, or holds a result that is not deeper.
    pub fn store(&mut self, hash: u64, depth: u8, score: i32, bound: Bound, best_move: Option<Move>)
        ensures
            final(self)@ == tt_stored(
                old(self)@,
                TTEntry { hash, depth, score, bound, best_move },
            ),
    {
        if !self.is_enabled() {
            return ;
        }
        let idx = self.get_index(hash);
        let should_replace = match &self.entries[idx] {
            None => true,
            Some(existing) => existing.hash != hash || depth >= existing.depth,
        };
        if should_replace {
            proof {
                use_type_invariant(&*self);
            }
            self.entries[idx] = Some(TTEntry { hash, depth, score, bound, best_move });
        }
    }

    /// Empties every slot; the capacity stays.
    pub fn clear(&mut self)
        ensures
            final(self)@.len() == old(self)@.len(),
            forall|i: int| 0 <= i < final(self)@.len() ==> final(self)@[i] is None,
    {
        proof {
            use_type_invariant(&*self);
        }
        let n = self.entries.len();
        let mut i: usize = 0;
        while i < n
            invariant
                n == self.entries@.len(),
                self.size == old(self).size,
                self.size == n,
                i <= n,
                forall|j: int| 0 <= j < i ==> self.entries@[j] is None,
            decreases n - i,
        {
            self.entries[i] = None;
            i += 1;
        }
    }
}

} // verus!
