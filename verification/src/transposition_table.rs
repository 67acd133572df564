//! The transposition table: search results keyed by a Zobrist-style hash of the position.

use vstd::prelude::*;
use std::collections::HashMap;
use crate::board::board::{Board, BoardModel, Color};
use crate::board::pieces::Piece;
use crate::evaluation::Score;

verus! {

#[derive(Debug, Clone, Copy, PartialEq, Eq, Structural)]
pub enum BoundType {
    Exact,
    Lower,
    Upper,
}

#[derive(Debug, Clone, Copy)]
pub struct TranspositionEntry {
    pub hash: u64,
    pub depth: u32,
    pub score: Score,
    pub bound: BoundType,
    pub age: u32,
}

pub open spec fn wrap_add(x: u64, y: u64) -> u64 {
    vstd::wrapping::u64_specs::wrapping_add(x, y)
}

pub open spec fn wrap_mul(x: u64, y: u64) -> u64 {
    vstd::wrapping::u64_specs::wrapping_mul(x, y)
}

/// The key of a piece kind on a square: a multiplicative hash of (piece, rank, file)
/// mixed with a constant.
pub open spec fn square_key(piece: u64, rank: u64, file: u64) -> u64 {
    let h1 = wrap_add(wrap_mul(0, 65599), piece);
    let h2 = wrap_add(wrap_mul(h1, 65599), rank);
    let h3 = wrap_add(wrap_mul(h2, 65599), file);
    let h4 = wrap_add(h3, 0x9e3779b97f4a7c15u64);
    h4 ^ (h4 >> 33u64)
}

/// The index of a piece kind in the key table.
pub open spec fn zobrist_index(p: Piece) -> u64 {
    match p {
        Piece::WhitePawn => 0,
        Piece::WhiteKnight => 1,
        Piece::WhiteBishop => 2,
        Piece::WhiteRook => 3,
        Piece::WhiteQueen => 4,
        Piece::WhiteKing => 5,
        Piece::BlackPawn => 6,
        Piece::BlackKnight => 7,
        Piece::BlackBishop => 8,
        Piece::BlackRook => 9,
        Piece::BlackQueen => 10,
        Piece::BlackKing => 11,
        Piece::Empty => 12,
    }
}

pub open spec fn side_key() -> u64 {
    0x123456789abcdef0u64
}

pub open spec fn castling_key(i: int) -> u64 {
    if i == 0 {
        0x8f6b40f8d1b2e9c4u64
    } else if i == 1 {
        0xa7c5e1f3b9d8f2e1u64
    } else if i == 2 {
        0xc3e7a1f5b1d9e8f0u64
    } else {
        0xd1f5b7c3e9a8f2e1u64
    }
}

pub open spec fn en_passant_key(file: int) -> u64 {
    let f = file % 8;
    if f == 0 {
        0x1a2b3c4d5e6f7a8bu64
    } else if f == 1 {
        0x2b3c4d5e6f7a8b9cu64
    } else if f == 2 {
        0x3c4d5e6f7a8b9ca0u64
    } else if f == 3 {
        0x4d5e6f7a8b9ca1b1u64
    } else if f == 4 {
        0x5e6f7a8b9ca1b2c2u64
    } else if f == 5 {
        0x6f7a8b9ca1b2c3d3u64
    } else if f == 6 {
        0x7a8b9ca1b2c3d4e4u64
    } else {
        0x8b9ca1b2c3d4e5f5u64
    }
}

/// The XOR of the keys of the pieces on the first `n` squares in rank-major order.
pub open spec fn squares_hash(m: BoardModel, n: int) -> u64
    decreases n,
{
    if n <= 0 {
        0
    } else {
        let prev = squares_hash(m, n - 1);
        let r = (n - 1) / 8;
        let f = (n - 1) % 8;
        let p = m.at(r, f);
        if p != Piece::Empty { prev ^ square_key(zobrist_index(p), r as u64, f as u64) } else { prev }
    }
}

/// The hash of a position: the piece keys, then the side to move, the castling
/// rights and the en passant file.
pub open spec fn zobrist(m: BoardModel) -> u64 {
    let h0 = squares_hash(m, 64);
    let h1 = if m.turn == Color::Black { h0 ^ side_key() } else { h0 };
    let h2 = if m.castling.white_kingside { h1 ^ castling_key(0) } else { h1 };
    let h3 = if m.castling.white_queenside { h2 ^ castling_key(1) } else { h2 };
    let h4 = if m.castling.black_kingside { h3 ^ castling_key(2) } else { h3 };
    let h5 = if m.castling.black_queenside { h4 ^ castling_key(3) } else { h4 };
    match m.en_passant {
        Some(ep) => h5 ^ en_passant_key(ep.1 as int),
        None => h5,
    }
}

/// The abstract state of the table.
pub ghost struct TableModel {
    pub entries: Map<u64, TranspositionEntry>,
    pub age: u32,
    pub max_entries: usize,
    pub hits: u64,
    pub misses: u64,
    pub collisions: u64,
}

/// A store at this hash is skipped: a deeper entry of the current age is kept.
pub open spec fn keeps_existing(t: TableModel, hash: u64, depth: u32) -> bool {
    t.entries.contains_key(hash) && depth < t.entries[hash].depth && t.entries[hash].age == t.age
}

/// The table after storing a search result for the position with the given hash:
/// unless a deeper entry of the current age is kept, the entry replaces any
/// previous one (counted as a collision); a full table is cleared first, which
/// starts a new age.
pub open spec fn stored(t: TableModel, hash: u64, depth: u32, score: Score, bound: BoundType) -> TableModel {
    if keeps_existing(t, hash, depth) {
        t
    } else {
        let entry = TranspositionEntry { hash, depth, score, bound, age: t.age };
        let collisions = if t.entries.contains_key(hash) { (t.collisions + 1) as u64 } else { t.collisions };
        if t.entries.len() >= t.max_entries {
            TableModel {
                entries: Map::empty().insert(hash, entry),
                age: vstd::wrapping::u32_specs::wrapping_add(t.age, 1),
                collisions,
                ..t
            }
        } else {
            TableModel { entries: t.entries.insert(hash, entry), collisions, ..t }
        }
    }
}

/// A lookup finds an entry searched at least as deep as asked.
pub open spec fn hit(t: TableModel, hash: u64, depth: u32) -> bool {
    t.entries.contains_key(hash) && t.entries[hash].depth >= depth
}

/// A stored result is found again by a lookup of the same position at a depth
/// no greater than the one it was stored with.
pub proof fn lemma_store_then_lookup(t: TableModel, hash: u64, depth: u32, score: Score, bound: BoundType, asked: u32)
    requires
        !keeps_existing(t, hash, depth),
        asked <= depth,
    ensures
        hit(stored(t, hash, depth, score, bound), hash, asked),
        stored(t, hash, depth, score, bound).entries[hash]
            == (TranspositionEntry { hash, depth, score, bound, age: t.age }),
{
}

pub struct TranspositionTable {
    entries: HashMap<u64, TranspositionEntry>,
    age: u32,
    max_entries: usize,
    hits: u64,
    misses: u64,
    collisions: u64,
}

impl TranspositionTable {
    pub closed spec fn model(&self) -> TableModel {
        TableModel {
            entries: self.entries@,
            age: self.age,
            max_entries: self.max_entries,
            hits: self.hits,
            misses: self.misses,
            collisions: self.collisions,
        }
    }
}

impl View for TranspositionTable {
    type V = TableModel;

    open spec fn view(&self) -> TableModel {
        self.model()
    }
}

impl TranspositionTable {
    /// An empty table sized for `size_mb` megabytes of 32-byte entries.
    pub fn new(size_mb: u32) -> (t: Self)
        requires
            size_mb * 1024 * 1024 <= usize::MAX,
        ensures
            t@.entries == Map::<u64, TranspositionEntry>::empty(),
            t@.max_entries == size_mb * 1024 * 1024 / 32,
            t@.age == 0,
            t@.hits == 0,
            t@.misses == 0,
            t@.collisions == 0,
    {
        let max_entries = (size_mb as usize * 1024 * 1024) / 32;
        TranspositionTable {
            entries: HashMap::with_capacity(max_entries),
            age: 0,
            max_entries,
            hits: 0,
            misses: 0,
            collisions: 0,
        }
    }

    /// Stores a search result for the position.
    pub fn store(&mut self, board: &Board, depth: u32, score: Score, bound: BoundType)
        requires
            old(self)@.entries.contains_key(zobrist(board@)) && !keeps_existing(old(self)@, zobrist(board@), depth)
                ==> old(self)@.collisions < u64::MAX,
        ensures
            final(self)@ == stored(old(self)@, zobrist(board@), depth, score, bound),
    {
        let hash = Self::zobrist_hash(board);
        let existing = self.entries.get(&hash);
        match existing {
            Some(e) => {
                if depth < e.depth && e.age == self.age {
                    return;
                }
                self.collisions = self.collisions + 1;
            },
            None => {},
        }
        let entry = TranspositionEntry { hash, depth, score, bound, age: self.age };
        if self.entries.len() >= self.max_entries {
            self.clear();
        }
        self.entries.insert(hash, entry);
        proof {
            assert(self@.entries =~= stored(old(self)@, hash, depth, score, bound).entries);
        }
    }

    /// The entry for the position if it was searched at least `depth` deep.
    pub fn lookup(&mut self, board: &Board, depth: u32) -> (r: Option<TranspositionEntry>)
        requires
            hit(old(self)@, zobrist(board@), depth) ==> old(self)@.hits < u64::MAX,
            !hit(old(self)@, zobrist(board@), depth) ==> old(self)@.misses < u64::MAX,
        ensures
            r == if hit(old(self)@, zobrist(board@), depth) {
                Some(old(self)@.entries[zobrist(board@)])
            } else {
                None::<TranspositionEntry>
            },
            final(self)@ == if hit(old(self)@, zobrist(board@), depth) {
                TableModel { hits: (old(self)@.hits + 1) as u64, ..old(self)@ }
            } else {
                TableModel { misses: (old(self)@.misses + 1) as u64, ..old(self)@ }
            },
    {
        let hash = Self::zobrist_hash(board);
        let found = self.entries.get(&hash);
        match found {
            Some(entry) => {
                if entry.depth >= depth {
                    let e = *entry;
                    self.hits = self.hits + 1;
                    return Some(e);
                }
            },
            None => {},
        }
        self.misses = self.misses + 1;
        None
    }

    /// Empties the table and starts a new age.
    pub fn clear(&mut self)
        ensures
            final(self)@ == (TableModel {
                entries: Map::empty(),
                age: vstd::wrapping::u32_specs::wrapping_add(old(self)@.age, 1),
                ..old(self)@
            }),
    {
        self.entries.clear();
        self.age = self.age.wrapping_add(1);
    }

    pub fn reset_stats(&mut self)
        ensures
            final(self)@ == (TableModel { hits: 0, misses: 0, collisions: 0, ..old(self)@ }),
    {
        self.hits = 0;
        self.misses = 0;
        self.collisions = 0;
    }

    /// Hits, misses, collisions and the number of entries.
    pub fn stats(&self) -> (r: (u64, u64, u64, usize))
        ensures
            r == (self@.hits, self@.misses, self@.collisions, self@.entries.len() as usize),
    {
        (self.hits, self.misses, self.collisions, self.entries.len())
    }

    /// The hash of a position.
    pub fn zobrist_hash(board: &Board) -> (h: u64)
        ensures
            h == zobrist(board@),
    {
        let ghost m = board@;
        let mut hash: u64 = 0;
        let mut i: usize = 0;
        while i < 64
            invariant
                i <= 64,
                m == board@,
                hash == squares_hash(m, i as int),
            decreases 64 - i,
        {
            let rank = i / 8;
            let file = i % 8;
            let piece = board.squares[rank][file];
            if piece != Piece::Empty {
                let piece_index = Self::piece_to_zobrist_index(piece);
                hash = hash ^ Self::zobrist_table(piece_index, rank, file);
            }
            i = i + 1;
        }
        if board.turn == Color::Black {
            hash = hash ^ Self::zobrist_side_to_move();
        }
        if board.castling_rights.white_kingside {
            hash = hash ^ Self::zobrist_castling(0);
        }
        if board.castling_rights.white_queenside {
            hash = hash ^ Self::zobrist_castling(1);
        }
        if board.castling_rights.black_kingside {
            hash = hash ^ Self::zobrist_castling(2);
        }
        if board.castling_rights.black_queenside {
            hash = hash ^ Self::zobrist_castling(3);
        }
        if let Some((_ep_rank, ep_file)) = board.en_passant_square {
            hash = hash ^ Self::zobrist_en_passant(ep_file);
        }
        hash
    }

    fn piece_to_zobrist_index(piece: Piece) -> (i: usize)
        ensures
            i == zobrist_index(piece),
    {
        match piece {
            Piece::WhitePawn => 0,
            Piece::WhiteKnight => 1,
            Piece::WhiteBishop => 2,
            Piece::WhiteRook => 3,
            Piece::WhiteQueen => 4,
            Piece::WhiteKing => 5,
            Piece::BlackPawn => 6,
            Piece::BlackKnight => 7,
            Piece::BlackBishop => 8,
            Piece::BlackRook => 9,
            Piece::BlackQueen => 10,
            Piece::BlackKing => 11,
            Piece::Empty => 12,
        }
    }

    fn zobrist_table(piece: usize, rank: usize, file: usize) -> (h: u64)
        ensures
            h == square_key(piece as u64, rank as u64, file as u64),
    {
        let mut hash: u64 = 0;
        hash = hash.wrapping_mul(65599).wrapping_add(piece as u64);
        hash = hash.wrapping_mul(65599).wrapping_add(rank as u64);
        hash = hash.wrapping_mul(65599).wrapping_add(file as u64);
        hash = hash.wrapping_add(0x9e3779b97f4a7c15);
        hash ^ (hash >> 33)
    }

    fn zobrist_side_to_move() -> (h: u64)
        ensures
            h == side_key(),
    {
        0x123456789abcdef0u64
    }

    fn zobrist_castling(castling_index: u8) -> (h: u64)
        ensures
            h == castling_key((castling_index % 4) as int),
    {
        match castling_index % 4 {
            0 => 0x8f6b40f8d1b2e9c4u64,
            1 => 0xa7c5e1f3b9d8f2e1u64,
            2 => 0xc3e7a1f5b1d9e8f0u64,
            _ => 0xd1f5b7c3e9a8f2e1u64,
        }
    }

    fn zobrist_en_passant(file: usize) -> (h: u64)
        ensures
            h == en_passant_key(file as int),
    {
        match file % 8 {
            0 => 0x1a2b3c4d5e6f7a8bu64,
            1 => 0x2b3c4d5e6f7a8b9cu64,
            2 => 0x3c4d5e6f7a8b9ca0u64,
            3 => 0x4d5e6f7a8b9ca1b1u64,
            4 => 0x5e6f7a8b9ca1b2c2u64,
            5 => 0x6f7a8b9ca1b2c3d3u64,
            6 => 0x7a8b9ca1b2c3d4e4u64,
            _ => 0x8b9ca1b2c3d4e5f5u64,
        }
    }
}

} // verus!
