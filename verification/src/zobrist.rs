use vstd::prelude::*;

use crate::bitboard::BitB64;
use crate::bits::{bit64, bit8, lemma_bit64_ops, lemma_xor_shuffle, lemma_xor_zero};
use crate::chess::{PieceType, PlayerColor};
use crate::rules::Board;

verus! {

/// Relies on rand::random (the standard distribution over u64): a fresh
/// pseudorandom value. Nothing is promised of it; every contract downstream
/// holds whatever value comes back.
#[verifier::external_body]
fn random_u64() -> u64 {
    rand::random::<u64>()
}

/// The table of random constants a position hash is XOR-combined from: one
/// entry per piece kind, side and square (stored flat, kind varying
/// slowest), one per castling right, and one for the side to move.
pub struct ZobristTable {
    pub table: Vec<u64>,
    pub castling_rights: Vec<u64>,
    pub black_to_move: u64,
}

impl ZobristTable {
    pub open spec fn wf(self) -> bool {
        self.table@.len() == 768 && self.castling_rights@.len() == 4
    }

    /// Offset of the (kind, color) block in the flat piece table.
    pub open spec fn base(k: PieceType, c: PlayerColor) -> int {
        (k.idx() * 2 + c.idx()) * 64
    }

    /// The random constant for a piece of kind `k` and color `c` on square `s`.
    pub open spec fn entry(self, k: PieceType, c: PlayerColor, s: int) -> u64 {
        self.table@[Self::base(k, c) + s]
    }

    /// Fills every slot with an independent random value.
    pub fn new() -> (r: ZobristTable)
        ensures
            r.wf(),
    {
        let mut table: Vec<u64> = Vec::new();
        for _i in 0..768usize
            invariant
                table@.len() == _i,
        {
            table.push(random_u64());
        }
        let mut castling_rights: Vec<u64> = Vec::new();
        for _i in 0..4usize
            invariant
                castling_rights@.len() == _i,
        {
            castling_rights.push(random_u64());
        }
        ZobristTable { table, castling_rights, black_to_move: random_u64() }
    }

    /// Reads the constant for (kind, color, square) out of the flat table.
    pub fn entry_at(&self, k: PieceType, c: PlayerColor, s: u8) -> (r: u64)
        requires
            self.wf(),
            s < 64,
        ensures
            r == self.entry(k, c, s as int),
    {
        let ki: usize = match k {
            PieceType::Pawn => 0,
            PieceType::Knight => 1,
            PieceType::Bishop => 2,
            PieceType::Rook => 3,
            PieceType::Queen => 4,
            PieceType::King => 5,
        };
        let ci: usize = match c {
            PlayerColor::White => 0,
            PlayerColor::Black => 1,
        };
        self.table[(ki * 2 + ci) * 64 + (s as usize)]
    }
}

// ---------------------------------------------------------------------------
// The full hash of a board, defined from scratch: the XOR of the constants
// of every occupied square, of every castling right held, and of the
// side-to-move constant when black is to move.
// ---------------------------------------------------------------------------
/// XOR of `tab[base + s]` over the set bits `s < n` of `m`.
pub open spec fn mask_hash(tab: Seq<u64>, base: int, m: u64, n: int) -> u64
    decreases n,
{
    if n <= 0 {
        0u64
    } else {
        mask_hash(tab, base, m, n - 1) ^ (if bit64(m, (n - 1) as u64) {
            tab[base + n - 1]
        } else {
            0u64
        })
    }
}

/// XOR of the castling constants of the rights held.
pub open spec fn castle_hash(cr: Seq<u64>, rights: u8) -> u64 {
    (if bit8(rights, 0) {
        cr[0]
    } else {
        0u64
    }) ^ (if bit8(rights, 1) {
        cr[1]
    } else {
        0u64
    }) ^ (if bit8(rights, 2) {
        cr[2]
    } else {
        0u64
    }) ^ (if bit8(rights, 3) {
        cr[3]
    } else {
        0u64
    })
}

pub open spec fn kind_of_term(i: int) -> PieceType {
    if i % 6 == 0 {
        PieceType::Pawn
    } else if i % 6 == 1 {
        PieceType::Knight
    } else if i % 6 == 2 {
        PieceType::Bishop
    } else if i % 6 == 3 {
        PieceType::Rook
    } else if i % 6 == 4 {
        PieceType::Queen
    } else {
        PieceType::King
    }
}

pub open spec fn color_of_term(i: int) -> PlayerColor {
    if i < 6 {
        PlayerColor::White
    } else {
        PlayerColor::Black
    }
}

/// The fourteen contributions a board's hash is folded from: six per-kind
/// mask terms per side, the castling term, and the side-to-move term.
pub open spec fn hash_terms(t: ZobristTable, b: Board) -> Seq<u64> {
    Seq::new(
        14,
        |i: int|
            if i < 12 {
                mask_hash(
                    t.table@,
                    ZobristTable::base(kind_of_term(i), color_of_term(i)),
                    b.side(color_of_term(i)).pieces_spec(kind_of_term(i)),
                    64,
                )
            } else if i == 12 {
                castle_hash(t.castling_rights@, b.castling_rights)
            } else {
                if b.black_to_move {
                    t.black_to_move
                } else {
                    0u64
                }
            },
    )
}

pub open spec fn xor_seq(s: Seq<u64>) -> u64
    decreases s.len(),
{
    if s.len() == 0 {
        0u64
    } else {
        xor_seq(s.drop_last()) ^ s.last()
    }
}

/// The hash a board's placement, castling rights and side to move determine.
pub open spec fn full_hash(t: ZobristTable, b: Board) -> u64 {
    xor_seq(hash_terms(t, b))
}

// ---------------------------------------------------------------------------
// How the hash responds to single changes; the incremental updates in
// position code are proved against these.
// ---------------------------------------------------------------------------
/// XOR-ing one element of a fold by `d` XORs the fold by `d`.
pub proof fn lemma_xor_seq_update(s: Seq<u64>, i: int, d: u64)
    requires
        0 <= i < s.len(),
    ensures
        xor_seq(s.update(i, s[i] ^ d)) == xor_seq(s) ^ d,
    decreases s.len(),
{
    let su = s.update(i, s[i] ^ d);
    if i == s.len() - 1 {
        assert(su.drop_last() =~= s.drop_last());
        lemma_xor_shuffle(xor_seq(s.drop_last()), s.last(), d);
    } else {
        assert(su.drop_last() =~= s.drop_last().update(i, s[i] ^ d));
        lemma_xor_seq_update(s.drop_last(), i, d);
        lemma_xor_shuffle(xor_seq(s.drop_last()), s.last(), d);
    }
}

/// Flipping bit `i` of a mask XORs its mask term by the constant at `i`.
pub proof fn lemma_mask_hash_flip(tab: Seq<u64>, base: int, m: u64, i: u64)
    requires
        i < 64,
    ensures
        mask_hash(tab, base, m ^ (1u64 << i), 64) == mask_hash(tab, base, m, 64) ^ tab[base
            + i as int],
{
    lemma_bit64_ops();
    lemma_mask_hash_flip_rec(tab, base, m, i, 64);
}

proof fn lemma_mask_hash_flip_rec(tab: Seq<u64>, base: int, m: u64, i: u64, n: int)
    requires
        i < 64,
        n <= 64,
        forall|a: u64, b: u64, j: u64|
            j < 64 ==> (#[trigger] bit64(a ^ b, j) == (bit64(a, j) != bit64(b, j))),
        forall|k: u64, j: u64| k < 64 && j < 64 ==> (#[trigger] bit64(1u64 << k, j) == (j == k)),
    ensures
        i < n ==> mask_hash(tab, base, m ^ (1u64 << i), n) == mask_hash(tab, base, m, n) ^ tab[base
            + i as int],
        n <= i ==> mask_hash(tab, base, m ^ (1u64 << i), n) == mask_hash(tab, base, m, n),
    decreases n,
{
    let mf = m ^ (1u64 << i);
    if n <= 0 {
    } else {
        lemma_mask_hash_flip_rec(tab, base, m, i, n - 1);
        let j = (n - 1) as u64;
        assert(bit64(mf, j) == (bit64(m, j) != bit64(1u64 << i, j)));
        let contrib_m: u64 = if bit64(m, j) {
            tab[base + n - 1]
        } else {
            0u64
        };
        let contrib_f: u64 = if bit64(mf, j) {
            tab[base + n - 1]
        } else {
            0u64
        };
        if i == j {
            // the flipped square: its contribution toggles
            assert(bit64(mf, j) == !bit64(m, j));
            let prev = mask_hash(tab, base, m, n - 1);
            let e = tab[base + n - 1];
            if bit64(m, j) {
                // contribution e drops out: prev ^ 0 == (prev ^ e) ^ e
                lemma_xor_zero(prev);
                crate::bits::lemma_xor_cancel(prev, e);
                lemma_xor_shuffle(prev, e, e);
            } else {
                lemma_xor_zero(prev);
            }
        } else if i < n - 1 {
            lemma_xor_shuffle(mask_hash(tab, base, m, n - 1), contrib_m, tab[base + i as int]);
            assert(contrib_f == contrib_m);
        } else {
            assert(contrib_f == contrib_m);
        }
    }
}

/// Flipping one placement bit of side `c`, kind `k`, square `i` XORs the
/// full hash by that square's constant.
pub proof fn lemma_full_hash_piece_flip(t: ZobristTable, b: Board, c: PlayerColor, k: PieceType, i: u64)
    requires
        i < 64,
    ensures
        full_hash(
            t,
            b.with_side(c, b.side(c).with_pieces(k, b.side(c).pieces_spec(k) ^ (1u64 << i))),
        ) == full_hash(t, b) ^ t.entry(k, c, i as int),
{
    let b2 = b.with_side(c, b.side(c).with_pieces(k, b.side(c).pieces_spec(k) ^ (1u64 << i)));
    let idx: int = k.idx() + (if c == PlayerColor::Black {
        6int
    } else {
        0int
    });
    assert(kind_of_term(idx) == k);
    assert(color_of_term(idx) == c);
    let old_terms = hash_terms(t, b);
    let new_terms = hash_terms(t, b2);
    let d = t.entry(k, c, i as int);
    lemma_mask_hash_flip(t.table@, ZobristTable::base(k, c), b.side(c).pieces_spec(k), i);
    assert(new_terms =~= old_terms.update(idx, old_terms[idx] ^ d));
    lemma_xor_seq_update(old_terms, idx, d);
}

/// Flipping the side to move XORs the full hash by the side-to-move constant.
pub proof fn lemma_full_hash_turn_flip(t: ZobristTable, b: Board)
    ensures
        full_hash(t, Board { black_to_move: !b.black_to_move, ..b }) == full_hash(t, b)
            ^ t.black_to_move,
{
    let b2 = Board { black_to_move: !b.black_to_move, ..b };
    let old_terms = hash_terms(t, b);
    let new_terms = hash_terms(t, b2);
    let bc = t.black_to_move;
    if b.black_to_move {
        crate::bits::lemma_xor_cancel(bc, bc);
        assert(new_terms =~= old_terms.update(13, old_terms[13] ^ bc));
    } else {
        lemma_xor_zero(bc);
        assert(new_terms =~= old_terms.update(13, old_terms[13] ^ bc));
    }
    lemma_xor_seq_update(old_terms, 13, bc);
}

/// Boards that agree on placement, castling rights and side to move hash
/// alike: en-passant flags do not contribute.
pub proof fn lemma_full_hash_ignores_ep(t: ZobristTable, b1: Board, b2: Board)
    requires
        b1.white == b2.white,
        b1.black == b2.black,
        b1.black_to_move == b2.black_to_move,
        b1.castling_rights == b2.castling_rights,
    ensures
        full_hash(t, b1) == full_hash(t, b2),
{
    assert(hash_terms(t, b1) =~= hash_terms(t, b2));
}

} // verus!
