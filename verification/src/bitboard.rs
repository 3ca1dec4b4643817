use vstd::prelude::*;

use crate::bits::{bit64, lemma_bit64_ops};
use crate::chess::{PieceType, PlayerColor};

verus! {

pub const NUM_SQUARES: usize = 64;

pub const NUM_ROWS: usize = 8;

pub const NUM_COLS: usize = 8;

/// One bit per board square: bit `i` is square `i`, with square 0 = A1,
/// square 63 = H8, row-major, the file varying fastest.
pub type BitB64 = u64;

pub const EMPTY_BOARD: BitB64 = 0u64;

pub const FULL_BOARD: BitB64 = u64::MAX;

pub const A1: u8 = 0;

pub const B1: u8 = 1;

pub const C1: u8 = 2;

pub const D1: u8 = 3;

pub const E1: u8 = 4;

pub const F1: u8 = 5;

pub const G1: u8 = 6;

pub const H1: u8 = 7;

pub const A2: u8 = 8;

pub const B2: u8 = 9;

pub const C2: u8 = 10;

pub const D2: u8 = 11;

pub const E2: u8 = 12;

pub const F2: u8 = 13;

pub const G2: u8 = 14;

pub const H2: u8 = 15;

pub const A3: u8 = 16;

pub const B3: u8 = 17;

pub const C3: u8 = 18;

pub const D3: u8 = 19;

pub const E3: u8 = 20;

pub const F3: u8 = 21;

pub const G3: u8 = 22;

pub const H3: u8 = 23;

pub const A4: u8 = 24;

pub const B4: u8 = 25;

pub const C4: u8 = 26;

pub const D4: u8 = 27;

pub const E4: u8 = 28;

pub const F4: u8 = 29;

pub const G4: u8 = 30;

pub const H4: u8 = 31;

pub const A5: u8 = 32;

pub const B5: u8 = 33;

pub const C5: u8 = 34;

pub const D5: u8 = 35;

pub const E5: u8 = 36;

pub const F5: u8 = 37;

pub const G5: u8 = 38;

pub const H5: u8 = 39;

pub const A6: u8 = 40;

pub const B6: u8 = 41;

pub const C6: u8 = 42;

pub const D6: u8 = 43;

pub const E6: u8 = 44;

pub const F6: u8 = 45;

pub const G6: u8 = 46;

pub const H6: u8 = 47;

pub const A7: u8 = 48;

pub const B7: u8 = 49;

pub const C7: u8 = 50;

pub const D7: u8 = 51;

pub const E7: u8 = 52;

pub const F7: u8 = 53;

pub const G7: u8 = 54;

pub const H7: u8 = 55;

pub const A8: u8 = 56;

pub const B8: u8 = 57;

pub const C8: u8 = 58;

pub const D8: u8 = 59;

pub const E8: u8 = 60;

pub const F8: u8 = 61;

pub const G8: u8 = 62;

pub const H8: u8 = 63;

/// The placement of one side's pieces, one mask per piece kind.
#[derive(Clone, Copy, PartialEq, Eq, Structural, Debug)]
#[verifier::ext_equal]
pub struct PlayerBitboard {
    pub pawns: BitB64,
    pub knights: BitB64,
    pub bishops: BitB64,
    pub rooks: BitB64,
    pub queens: BitB64,
    pub king: BitB64,
}

impl PlayerBitboard {
    /// The six masks, pairwise disjoint: no square holds two pieces.
    pub open spec fn wf(self) -> bool {
        &&& self.pawns & self.knights == 0
        &&& self.pawns & self.bishops == 0
        &&& self.pawns & self.rooks == 0
        &&& self.pawns & self.queens == 0
        &&& self.pawns & self.king == 0
        &&& self.knights & self.bishops == 0
        &&& self.knights & self.rooks == 0
        &&& self.knights & self.queens == 0
        &&& self.knights & self.king == 0
        &&& self.bishops & self.rooks == 0
        &&& self.bishops & self.queens == 0
        &&& self.bishops & self.king == 0
        &&& self.rooks & self.queens == 0
        &&& self.rooks & self.king == 0
        &&& self.queens & self.king == 0
    }

    pub open spec fn pieces_spec(self, typpe: PieceType) -> BitB64 {
        match typpe {
            PieceType::Pawn => self.pawns,
            PieceType::Knight => self.knights,
            PieceType::Bishop => self.bishops,
            PieceType::Rook => self.rooks,
            PieceType::Queen => self.queens,
            PieceType::King => self.king,
        }
    }

    pub open spec fn with_pieces(self, typpe: PieceType, m: BitB64) -> PlayerBitboard {
        match typpe {
            PieceType::Pawn => PlayerBitboard { pawns: m, ..self },
            PieceType::Knight => PlayerBitboard { knights: m, ..self },
            PieceType::Bishop => PlayerBitboard { bishops: m, ..self },
            PieceType::Rook => PlayerBitboard { rooks: m, ..self },
            PieceType::Queen => PlayerBitboard { queens: m, ..self },
            PieceType::King => PlayerBitboard { king: m, ..self },
        }
    }

    pub open spec fn all_spec(self) -> BitB64 {
        self.pawns | self.knights | self.bishops | self.rooks | self.queens | self.king
    }

    /// This side occupies square `s` with a piece of kind `t`.
    pub open spec fn has(self, t: PieceType, s: u64) -> bool {
        bit64(self.pieces_spec(t), s)
    }

    /// This side occupies square `s`.
    pub open spec fn occupies(self, s: u64) -> bool {
        bit64(self.all_spec(), s)
    }

    /// The kind of the piece this side keeps on square `s`, if any; with a
    /// well-formed side at most one mask holds the bit, and the masks are
    /// searched pawn first, king last.
    pub open spec fn piece_at(self, s: u64) -> Option<PieceType> {
        if bit64(self.pawns, s) {
            Some(PieceType::Pawn)
        } else if bit64(self.knights, s) {
            Some(PieceType::Knight)
        } else if bit64(self.bishops, s) {
            Some(PieceType::Bishop)
        } else if bit64(self.rooks, s) {
            Some(PieceType::Rook)
        } else if bit64(self.queens, s) {
            Some(PieceType::Queen)
        } else if bit64(self.king, s) {
            Some(PieceType::King)
        } else {
            None
        }
    }

    /// Disjointness of the six masks, stated bit by bit.
    pub open spec fn pairwise_ok(self) -> bool {
        forall|t1: PieceType, t2: PieceType, i: u64|
            #![trigger self.has(t1, i), self.has(t2, i)]
            t1 != t2 && i < 64 ==> !(self.has(t1, i) && self.has(t2, i))
    }

    pub open spec fn empty_spec() -> PlayerBitboard {
        PlayerBitboard {
            pawns: 0,
            knights: 0,
            bishops: 0,
            rooks: 0,
            queens: 0,
            king: 0,
        }
    }

    /// The standard starting placement for `color`.
    pub open spec fn initial_spec(color: PlayerColor) -> PlayerBitboard {
        match color {
            PlayerColor::White => PlayerBitboard {
                pawns: (1u64 << A2) | (1u64 << B2) | (1u64 << C2) | (1u64 << D2) | (1u64 << E2) | (
                1u64 << F2) | (1u64 << G2) | (1u64 << H2),
                knights: (1u64 << B1) | (1u64 << G1),
                bishops: (1u64 << C1) | (1u64 << F1),
                rooks: (1u64 << A1) | (1u64 << H1),
                queens: (1u64 << D1),
                king: (1u64 << E1),
            },
            PlayerColor::Black => PlayerBitboard {
                pawns: (1u64 << A7) | (1u64 << B7) | (1u64 << C7) | (1u64 << D7) | (1u64 << E7) | (
                1u64 << F7) | (1u64 << G7) | (1u64 << H7),
                knights: (1u64 << B8) | (1u64 << G8),
                bishops: (1u64 << C8) | (1u64 << F8),
                rooks: (1u64 << A8) | (1u64 << H8),
                queens: (1u64 << D8),
                king: (1u64 << E8),
            },
        }
    }

    pub fn empty() -> (r: PlayerBitboard)
        ensures
            r == PlayerBitboard::empty_spec(),
    {
        PlayerBitboard { pawns: 0, knights: 0, bishops: 0, rooks: 0, queens: 0, king: 0 }
    }

    pub fn new(color: PlayerColor) -> (r: PlayerBitboard)
        ensures
            r == PlayerBitboard::initial_spec(color),
    {
        match color {
            PlayerColor::White => PlayerBitboard {
                pawns: (1u64 << A2) | (1u64 << B2) | (1u64 << C2) | (1u64 << D2) | (1u64 << E2) | (
                1u64 << F2) | (1u64 << G2) | (1u64 << H2),
                knights: (1u64 << B1) | (1u64 << G1),
                bishops: (1u64 << C1) | (1u64 << F1),
                rooks: (1u64 << A1) | (1u64 << H1),
                queens: (1u64 << D1),
                king: (1u64 << E1),
            },
            PlayerColor::Black => PlayerBitboard {
                pawns: (1u64 << A7) | (1u64 << B7) | (1u64 << C7) | (1u64 << D7) | (1u64 << E7) | (
                1u64 << F7) | (1u64 << G7) | (1u64 << H7),
                knights: (1u64 << B8) | (1u64 << G8),
                bishops: (1u64 << C8) | (1u64 << F8),
                rooks: (1u64 << A8) | (1u64 << H8),
                queens: (1u64 << D8),
                king: (1u64 << E8),
            },
        }
    }

    /// The union of the six masks: every square this side occupies.
    pub fn all_pieces(&self) -> (r: BitB64)
        ensures
            r == self.all_spec(),
    {
        self.pawns | self.knights | self.bishops | self.rooks | self.queens | self.king
    }

    pub fn pieces(&self, typpe: PieceType) -> (r: &BitB64)
        ensures
            *r == self.pieces_spec(typpe),
    {
        match typpe {
            PieceType::Pawn => &self.pawns,
            PieceType::Knight => &self.knights,
            PieceType::Bishop => &self.bishops,
            PieceType::Rook => &self.rooks,
            PieceType::Queen => &self.queens,
            PieceType::King => &self.king,
        }
    }

    /// The kind of the piece on square `s`, if any.
    pub fn piece_kind_at(&self, s: u8) -> (r: Option<PieceType>)
        requires
            s < 64,
        ensures
            r == self.piece_at(s as u64),
    {
        let sq: u64 = 1u64 << (s as u64);
        if self.pawns & sq != 0 {
            Some(PieceType::Pawn)
        } else if self.knights & sq != 0 {
            Some(PieceType::Knight)
        } else if self.bishops & sq != 0 {
            Some(PieceType::Bishop)
        } else if self.rooks & sq != 0 {
            Some(PieceType::Rook)
        } else if self.queens & sq != 0 {
            Some(PieceType::Queen)
        } else if self.king & sq != 0 {
            Some(PieceType::King)
        } else {
            None
        }
    }

    pub fn mut_pieces(&mut self, typpe: PieceType) -> (r: &mut BitB64)
        ensures
            *r == old(self).pieces_spec(typpe),
            *final(self) == old(self).with_pieces(typpe, *final(r)),
    {
        match typpe {
            PieceType::Pawn => &mut self.pawns,
            PieceType::Knight => &mut self.knights,
            PieceType::Bishop => &mut self.bishops,
            PieceType::Rook => &mut self.rooks,
            PieceType::Queen => &mut self.queens,
            PieceType::King => &mut self.king,
        }
    }
}

/// A square is in the union of the six masks exactly when one of them holds it.
pub proof fn lemma_all_pieces_bits(pb: PlayerBitboard, s: u64)
    requires
        s < 64,
    ensures
        pb.occupies(s) <==> (bit64(pb.pawns, s) || bit64(pb.knights, s) || bit64(pb.bishops, s)
            || bit64(pb.rooks, s) || bit64(pb.queens, s) || bit64(pb.king, s)),
{
    lemma_bit64_ops();
}

/// Two masks without common squares never share a set bit.
pub proof fn lemma_disjoint_masks_bit(a: BitB64, b: BitB64, s: u64)
    requires
        a & b == 0 || b & a == 0,
        s < 64,
    ensures
        !(bit64(a, s) && bit64(b, s)),
{
    lemma_bit64_ops();
    assert(bit64(a & b, s) == (bit64(a, s) && bit64(b, s)));
    assert(bit64(b & a, s) == (bit64(b, s) && bit64(a, s)));
}

/// Pairwise disjointness of the six masks, read bit by bit: a well-formed
/// side never holds two piece kinds on one square.
pub proof fn lemma_wf_masks_disjoint(pb: PlayerBitboard, t1: PieceType, t2: PieceType, s: u64)
    requires
        pb.wf(),
        t1 != t2,
        s < 64,
    ensures
        !(pb.has(t1, s) && pb.has(t2, s)),
{
    lemma_disjoint_masks_bit(pb.pieces_spec(t1), pb.pieces_spec(t2), s);
}

/// The two readings of a side's disjointness invariant agree: the fifteen
/// mask equations hold exactly when no square carries two kinds.
pub proof fn lemma_wf_iff_pairwise(pb: PlayerBitboard)
    ensures
        pb.wf() <==> pb.pairwise_ok(),
{
    if pb.wf() {
        assert forall|t1: PieceType, t2: PieceType, i: u64|
            t1 != t2 && i < 64 implies !(#[trigger] pb.has(t1, i) && #[trigger] pb.has(t2, i)) by {
            lemma_wf_masks_disjoint(pb, t1, t2, i);
        }
    }
    if pb.pairwise_ok() {
        assert forall|i: u64| i < 64 implies !(bit64(pb.pawns, i) && bit64(pb.knights, i)) by {
            assert(!(pb.has(PieceType::Pawn, i) && pb.has(PieceType::Knight, i)));
        }
        crate::bits::lemma_masks_disjoint_from_bits(pb.pawns, pb.knights);
        assert forall|i: u64| i < 64 implies !(bit64(pb.pawns, i) && bit64(pb.bishops, i)) by {
            assert(!(pb.has(PieceType::Pawn, i) && pb.has(PieceType::Bishop, i)));
        }
        crate::bits::lemma_masks_disjoint_from_bits(pb.pawns, pb.bishops);
        assert forall|i: u64| i < 64 implies !(bit64(pb.pawns, i) && bit64(pb.rooks, i)) by {
            assert(!(pb.has(PieceType::Pawn, i) && pb.has(PieceType::Rook, i)));
        }
        crate::bits::lemma_masks_disjoint_from_bits(pb.pawns, pb.rooks);
        assert forall|i: u64| i < 64 implies !(bit64(pb.pawns, i) && bit64(pb.queens, i)) by {
            assert(!(pb.has(PieceType::Pawn, i) && pb.has(PieceType::Queen, i)));
        }
        crate::bits::lemma_masks_disjoint_from_bits(pb.pawns, pb.queens);
        assert forall|i: u64| i < 64 implies !(bit64(pb.pawns, i) && bit64(pb.king, i)) by {
            assert(!(pb.has(PieceType::Pawn, i) && pb.has(PieceType::King, i)));
        }
        crate::bits::lemma_masks_disjoint_from_bits(pb.pawns, pb.king);
        assert forall|i: u64| i < 64 implies !(bit64(pb.knights, i) && bit64(pb.bishops, i)) by {
            assert(!(pb.has(PieceType::Knight, i) && pb.has(PieceType::Bishop, i)));
        }
        crate::bits::lemma_masks_disjoint_from_bits(pb.knights, pb.bishops);
        assert forall|i: u64| i < 64 implies !(bit64(pb.knights, i) && bit64(pb.rooks, i)) by {
            assert(!(pb.has(PieceType::Knight, i) && pb.has(PieceType::Rook, i)));
        }
        crate::bits::lemma_masks_disjoint_from_bits(pb.knights, pb.rooks);
        assert forall|i: u64| i < 64 implies !(bit64(pb.knights, i) && bit64(pb.queens, i)) by {
            assert(!(pb.has(PieceType::Knight, i) && pb.has(PieceType::Queen, i)));
        }
        crate::bits::lemma_masks_disjoint_from_bits(pb.knights, pb.queens);
        assert forall|i: u64| i < 64 implies !(bit64(pb.knights, i) && bit64(pb.king, i)) by {
            assert(!(pb.has(PieceType::Knight, i) && pb.has(PieceType::King, i)));
        }
        crate::bits::lemma_masks_disjoint_from_bits(pb.knights, pb.king);
        assert forall|i: u64| i < 64 implies !(bit64(pb.bishops, i) && bit64(pb.rooks, i)) by {
            assert(!(pb.has(PieceType::Bishop, i) && pb.has(PieceType::Rook, i)));
        }
        crate::bits::lemma_masks_disjoint_from_bits(pb.bishops, pb.rooks);
        assert forall|i: u64| i < 64 implies !(bit64(pb.bishops, i) && bit64(pb.queens, i)) by {
            assert(!(pb.has(PieceType::Bishop, i) && pb.has(PieceType::Queen, i)));
        }
        crate::bits::lemma_masks_disjoint_from_bits(pb.bishops, pb.queens);
        assert forall|i: u64| i < 64 implies !(bit64(pb.bishops, i) && bit64(pb.king, i)) by {
            assert(!(pb.has(PieceType::Bishop, i) && pb.has(PieceType::King, i)));
        }
        crate::bits::lemma_masks_disjoint_from_bits(pb.bishops, pb.king);
        assert forall|i: u64| i < 64 implies !(bit64(pb.rooks, i) && bit64(pb.queens, i)) by {
            assert(!(pb.has(PieceType::Rook, i) && pb.has(PieceType::Queen, i)));
        }
        crate::bits::lemma_masks_disjoint_from_bits(pb.rooks, pb.queens);
        assert forall|i: u64| i < 64 implies !(bit64(pb.rooks, i) && bit64(pb.king, i)) by {
            assert(!(pb.has(PieceType::Rook, i) && pb.has(PieceType::King, i)));
        }
        crate::bits::lemma_masks_disjoint_from_bits(pb.rooks, pb.king);
        assert forall|i: u64| i < 64 implies !(bit64(pb.queens, i) && bit64(pb.king, i)) by {
            assert(!(pb.has(PieceType::Queen, i) && pb.has(PieceType::King, i)));
        }
        crate::bits::lemma_masks_disjoint_from_bits(pb.queens, pb.king);
    }
}

/// A move of one piece: origin and destination squares (0 to 63), and the
/// kind tag that selects any side effects beyond the basic relocation.
#[derive(Clone, Copy, PartialEq, Eq, Structural, Debug)]
pub struct BitboardMove {
    pub from: u8,
    pub to: u8,
    pub sp_move_type: SpecialMoveType,
}

#[derive(Clone, Copy, PartialEq, Eq, Structural, Debug)]
pub enum SpecialMoveType {
    RegularMove,
    ShortCastle,
    LongCastle,
    PromotionToKnight,
    PromotionToBishop,
    PromotionToRook,
    PromotionToQueen,
    EnPassantLeft,
    EnPassantRight,
}

pub struct MoveScore {
    pub score: i64,
}

pub struct ScoredMove {
    pub score: MoveScore,
    pub mov: BitboardMove,
}

} // verus!
