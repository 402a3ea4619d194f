use vstd::prelude::*;
use crate::moves::Move;

verus! {

/// Scores beyond this magnitude encode a forced mate.
pub const CHECKMATE_THRESHOLD: i32 = 16800;

pub const MEGABYTE: usize = 1048576;

/// A table payload: something that remembers the hash of the position it describes.
pub trait TableEntry: Sized {
    spec fn spec_hash(&self) -> u64;

    /// Whether this is the entry a fresh table holds.
    spec fn spec_is_blank(&self) -> bool;

    fn hash(&self) -> (r: u64)
        ensures
            r == self.spec_hash(),
    ;

    /// The entry a fresh table holds.
    fn blank() -> (r: Self)
        ensures
            r.spec_is_blank(),
    ;
}

/// A fixed-size table addressed by `hash % size`, overwriting on every store.
pub struct TranspositionTable<Entry> where Entry: TableEntry + Default + Clone {
    entries: Vec<Entry>,
    size: usize,
}

#[derive(Clone, Copy, Debug, PartialEq, Eq, Structural)]
pub struct PerftTableEntry {
    pub hash: u64,
    pub node_count: u64,
    pub depth: u8,
}

/// How a stored search score bounds the true score.
#[derive(Clone, Copy, Debug, PartialEq, Eq, Structural)]
pub enum SearchEntryFlag {
    Exact,
    Alpha,
    Beta,
}

#[derive(Clone, Copy, Debug)]
pub struct SearchTableEntry {
    pub hash: u64,
    pub depth: u8,
    pub score: i32,
    pub flag: SearchEntryFlag,
    pub best_move: Move,
}

impl PerftTableEntry {
    pub fn new(hash: u64, node_count: u64, depth: u8) -> (r: PerftTableEntry)
        ensures
            r == (PerftTableEntry { hash, node_count, depth }),
    {
        PerftTableEntry { hash, node_count, depth }
    }
}

impl Default for PerftTableEntry {
    fn default() -> (r: PerftTableEntry)
        ensures
            r == (PerftTableEntry { hash: 0, node_count: 0, depth: 0 }),
    {
        PerftTableEntry { hash: 0, node_count: 0, depth: 0 }
    }
}

impl TableEntry for PerftTableEntry {
    open spec fn spec_hash(&self) -> u64 {
        self.hash
    }

    open spec fn spec_is_blank(&self) -> bool {
        *self == (PerftTableEntry { hash: 0, node_count: 0, depth: 0 })
    }

    fn hash(&self) -> (r: u64) {
        self.hash
    }

    fn blank() -> (r: PerftTableEntry) {
        PerftTableEntry { hash: 0, node_count: 0, depth: 0 }
    }
}

/// A score made independent of the ply it was found at: mate scores count from the
/// stored position instead of the root.
pub open spec fn score_to_table(score: int, ply: int) -> int {
    if score > CHECKMATE_THRESHOLD {
        score + ply
    } else if score < -CHECKMATE_THRESHOLD {
        score - ply
    } else {
        score
    }
}

/// The stored score seen from a probe at `ply`.
pub open spec fn score_from_table(score: int, ply: int) -> int {
    if score > CHECKMATE_THRESHOLD {
        score - ply
    } else if score < -CHECKMATE_THRESHOLD {
        score + ply
    } else {
        score
    }
}

/// The score a probe may use: an exact score, or a bound that closes the window.
pub open spec fn usable_score(e: SearchTableEntry, hash: u64, depth: u8, ply: u8, alpha: i32, beta: i32) -> Option<i32> {
    if e.hash == hash && e.depth >= depth {
        let s = score_from_table(e.score as int, ply as int);
        match e.flag {
            SearchEntryFlag::Exact => Some(s as i32),
            SearchEntryFlag::Alpha => if alpha >= s { Some(alpha) } else { None },
            SearchEntryFlag::Beta => if beta <= s { Some(beta) } else { None },
        }
    } else {
        None
    }
}

impl SearchTableEntry {
    pub fn new(hash: u64, depth: u8, score: i32, ply: u8, flag: SearchEntryFlag, best_move: Move) -> (r: SearchTableEntry)
        requires
            i32::MIN + 256 <= score <= i32::MAX - 256,
        ensures
            r.hash == hash,
            r.depth == depth,
            r.score == score_to_table(score as int, ply as int),
            r.flag == flag,
            r.best_move == best_move,
    {
        let mut score = score;
        if score > CHECKMATE_THRESHOLD {
            score = score + ply as i32;
        } else if score < -CHECKMATE_THRESHOLD {
            score = score - ply as i32;
        }
        SearchTableEntry { hash, depth, score, flag, best_move }
    }

    /// What a probe at `ply` with window `[alpha, beta]` learns: a usable score (see
    /// `usable_score`) and the stored best move (the null move if the hash differs).
    pub fn get(&self, hash: u64, depth: u8, ply: u8, alpha: i32, beta: i32) -> (r: (Option<i32>, Move))
        requires
            i32::MIN + 256 <= self.score <= i32::MAX - 256,
        ensures
            r.0 == usable_score(*self, hash, depth, ply, alpha, beta),
            self.hash == hash ==> r.1 == self.best_move,
            self.hash != hash ==> r.1.spec_bits() == 0,
    {
        let mut score: Option<i32> = None;
        let mut best_move = Move::null();
        if self.hash == hash {
            best_move = self.best_move;
            if self.depth >= depth {
                let mut entry_score = self.score;
                if entry_score > CHECKMATE_THRESHOLD {
                    entry_score = entry_score - ply as i32;
                } else if entry_score < -CHECKMATE_THRESHOLD {
                    entry_score = entry_score + ply as i32;
                }
                match self.flag {
                    SearchEntryFlag::Exact => {
                        score = Some(entry_score);
                    },
                    SearchEntryFlag::Alpha => {
                        if alpha >= entry_score {
                            score = Some(alpha);
                        }
                    },
                    SearchEntryFlag::Beta => {
                        if beta <= entry_score {
                            score = Some(beta);
                        }
                    },
                }
            }
        }
        (score, best_move)
    }
}

impl Default for SearchTableEntry {
    fn default() -> (r: SearchTableEntry)
        ensures
            r.hash == 0 && r.depth == 0 && r.score == 0 && r.flag == SearchEntryFlag::Exact
                && r.best_move.spec_bits() == 0,
    {
        SearchTableEntry { hash: 0, depth: 0, score: 0, flag: SearchEntryFlag::Exact, best_move: Move::null() }
    }
}

impl TableEntry for SearchTableEntry {
    open spec fn spec_hash(&self) -> u64 {
        self.hash
    }

    open spec fn spec_is_blank(&self) -> bool {
        self.hash == 0 && self.depth == 0 && self.score == 0 && self.flag == SearchEntryFlag::Exact
            && self.best_move.spec_bits() == 0
    }

    fn hash(&self) -> (r: u64) {
        self.hash
    }

    fn blank() -> (r: SearchTableEntry) {
        SearchTableEntry { hash: 0, depth: 0, score: 0, flag: SearchEntryFlag::Exact, best_move: Move::null() }
    }
}

/// Entries in a table of `size_in_mb` megabytes with entries of `entry_size` bytes (a
/// zero size counts as one byte), and at least one.
pub open spec fn spec_table_len(size_in_mb: int, entry_size: int) -> int {
    let n = (size_in_mb * MEGABYTE) / (if entry_size == 0 { 1 } else { entry_size });
    if n == 0 {
        1
    } else {
        n
    }
}

impl<Entry> View for TranspositionTable<Entry> where Entry: TableEntry + Default + Clone {
    type V = Seq<Entry>;

    closed spec fn view(&self) -> Seq<Entry> {
        self.entries@
    }
}

impl<Entry> TranspositionTable<Entry> where Entry: TableEntry + Default + Clone {
    pub closed spec fn wf(&self) -> bool {
        self.size == self.entries@.len() && self.size > 0
    }

    /// A table of `size_in_mb` megabytes' worth of default entries (at least one entry).
    pub fn new(size_in_mb: usize) -> (r: Self)
        requires
            size_in_mb * MEGABYTE <= usize::MAX,
        ensures
            r.wf(),
            r@.len() > 0,
            r@.len() == spec_table_len(size_in_mb as int, vstd::layout::size_of::<Entry>() as int),
            forall|k: int| 0 <= k < r@.len() ==> (#[trigger] r@[k]).spec_is_blank(),
    {
        let entry_size = core::mem::size_of::<Entry>();
        let entry_size = if entry_size == 0 { 1 } else { entry_size };
        let mut size = (size_in_mb * MEGABYTE) / entry_size;
        if size == 0 {
            size = 1;
        }
        let mut entries: Vec<Entry> = Vec::new();
        let mut i: usize = 0;
        while i < size
            invariant
                i <= size,
                entries@.len() == i,
                forall|k: int| 0 <= k < i ==> (#[trigger] entries@[k]).spec_is_blank(),
            decreases size - i,
        {
            entries.push(Entry::blank());
            i += 1;
        }
        TranspositionTable { entries, size }
    }

    /// A table always has a slot.
    pub proof fn lemma_has_slot(&self)
        requires
            self.wf(),
        ensures
            self@.len() > 0,
            forall|hash: u64| 0 <= #[trigger] self.spec_index(hash) < self@.len(),
    {
    }

    pub open spec fn spec_index(&self, hash: u64) -> int {
        (hash as int) % (self@.len() as int)
    }

    /// Writes `entry` at the slot of its hash, replacing what was there.
    pub fn store(&mut self, entry: Entry)
        requires
            old(self).wf(),
        ensures
            final(self).wf(),
            old(self)@.len() > 0,
            final(self)@.len() == old(self)@.len(),
            final(self)@ == old(self)@.update(old(self).spec_index(entry.spec_hash()), entry),
    {
        let index = self.get_index(entry.hash());
        self.entries.set(index, entry);
    }

    /// The entry at the slot of `hash` (it may describe another position).
    pub fn probe(&self, hash: u64) -> (r: &Entry)
        requires
            self.wf(),
        ensures
            *r == self@[self.spec_index(hash)],
    {
        let index = self.get_index(hash);
        &self.entries[index]
    }

    fn get_index(&self, hash: u64) -> (r: usize)
        requires
            self.wf(),
        ensures
            r == self.spec_index(hash),
            r < self@.len(),
    {
        (hash % (self.size as u64)) as usize
    }
}

} // verus!
