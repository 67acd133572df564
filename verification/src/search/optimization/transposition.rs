use vstd::prelude::*;
use crate::board::board::Board;
use crate::evaluation::Score;
use crate::transposition_table::{
    TranspositionTable, BoundType, TableModel, zobrist, hit, keeps_existing, stored,
};

verus! {

/// The score a table entry settles for an alpha-beta window: an exact score, a
/// lower bound at or above beta, or an upper bound at or below alpha.
pub open spec fn usable_score(bound: BoundType, score: Score, alpha: Score, beta: Score) -> Option<Score> {
    match bound {
        BoundType::Exact => Some(score),
        BoundType::Lower => if score >= beta { Some(score) } else { None },
        BoundType::Upper => if score <= alpha { Some(score) } else { None },
    }
}

/// The bound a search result gives for the window it was searched with.
pub open spec fn bound_for(score: Score, alpha: Score, beta: Score) -> BoundType {
    if score <= alpha { BoundType::Upper } else if score >= beta { BoundType::Lower } else { BoundType::Exact }
}

/// A result stored with the bound its window gives is settled again by a probe
/// with the same window: at every depth up to the one it was stored with the
/// probe gives the stored score; deeper probes miss, when no other entry of the
/// position was kept.
pub proof fn lemma_store_then_probe(t: TableModel, hash: u64, depth: u32, score: Score, alpha: Score, beta: Score, asked: u32)
    requires
        !t.entries.contains_key(hash),
    ensures
        ({
            let t2 = stored(t, hash, depth, score, bound_for(score, alpha, beta));
            &&& asked <= depth ==> hit(t2, hash, asked)
                && usable_score(t2.entries[hash].bound, t2.entries[hash].score, alpha, beta) == Some(score)
            &&& asked > depth ==> !hit(t2, hash, asked)
        }),
{
}

/// The transposition table as the search uses it.
pub struct TranspositionIntegration;

impl TranspositionIntegration {
    /// The stored score of the position if its entry is deep enough and settles the window.
    pub fn probe_hash(tt: &mut TranspositionTable, board: &Board, depth: u32, alpha: Score, beta: Score) -> (r: Option<Score>)
        requires
            hit(old(tt)@, zobrist(board@), depth) ==> old(tt)@.hits < u64::MAX,
            !hit(old(tt)@, zobrist(board@), depth) ==> old(tt)@.misses < u64::MAX,
        ensures
            r == if hit(old(tt)@, zobrist(board@), depth) {
                let e = old(tt)@.entries[zobrist(board@)];
                usable_score(e.bound, e.score, alpha, beta)
            } else {
                None::<Score>
            },
            final(tt)@ == if hit(old(tt)@, zobrist(board@), depth) {
                TableModel { hits: (old(tt)@.hits + 1) as u64, ..old(tt)@ }
            } else {
                TableModel { misses: (old(tt)@.misses + 1) as u64, ..old(tt)@ }
            },
    {
        match tt.lookup(board, depth) {
            Some(entry) => match entry.bound {
                BoundType::Exact => Some(entry.score),
                BoundType::Lower => {
                    if entry.score >= beta {
                        Some(entry.score)
                    } else {
                        None
                    }
                },
                BoundType::Upper => {
                    if entry.score <= alpha {
                        Some(entry.score)
                    } else {
                        None
                    }
                },
            },
            None => None,
        }
    }

    /// Stores a search result with the bound its window gives.
    pub fn store_hash(tt: &mut TranspositionTable, board: &Board, depth: u32, score: Score, alpha: Score, beta: Score)
        requires
            old(tt)@.entries.contains_key(zobrist(board@)) && !keeps_existing(old(tt)@, zobrist(board@), depth)
                ==> old(tt)@.collisions < u64::MAX,
        ensures
            final(tt)@ == stored(old(tt)@, zobrist(board@), depth, score, bound_for(score, alpha, beta)),
    {
        let bound = if score <= alpha {
            BoundType::Upper
        } else if score >= beta {
            BoundType::Lower
        } else {
            BoundType::Exact
        };
        tt.store(board, depth, score, bound);
    }

    pub fn clear_hash(tt: &mut TranspositionTable)
        ensures
            final(tt)@ == (TableModel {
                entries: Map::empty(),
                age: vstd::wrapping::u32_specs::wrapping_add(old(tt)@.age, 1),
                ..old(tt)@
            }),
    {
        tt.clear();
    }

    pub fn hash_stats(tt: &TranspositionTable) -> (r: (u64, u64, u64, usize))
        ensures
            r == (tt@.hits, tt@.misses, tt@.collisions, tt@.entries.len() as usize),
    {
        tt.stats()
    }
}

} // verus!
