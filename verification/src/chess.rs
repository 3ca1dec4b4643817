use vstd::prelude::*;

verus! {

#[derive(Clone, Copy, PartialEq, Eq, Structural, Debug, Hash)]
pub enum PlayerColor {
    White,
    Black,
}

impl PlayerColor {
    /// The opposing side.
    pub fn other(color: PlayerColor) -> (r: PlayerColor)
        ensures
            r == color.other_spec(),
    {
        match color {
            PlayerColor::Black => PlayerColor::White,
            PlayerColor::White => PlayerColor::Black,
        }
    }

    pub open spec fn other_spec(self) -> PlayerColor {
        match self {
            PlayerColor::Black => PlayerColor::White,
            PlayerColor::White => PlayerColor::Black,
        }
    }

    /// Index of the color in the Zobrist table: white 0, black 1.
    pub open spec fn idx(self) -> int {
        match self {
            PlayerColor::White => 0,
            PlayerColor::Black => 1,
        }
    }

    /// The position with this color's piece masks replaced.
    pub open spec fn write_side(
        self,
        p: crate::position::Position,
        pb: crate::bitboard::PlayerBitboard,
    ) -> crate::position::Position {
        match self {
            PlayerColor::White => crate::position::Position { white: pb, ..p },
            PlayerColor::Black => crate::position::Position { black: pb, ..p },
        }
    }
}

#[derive(Clone, Copy, PartialEq, Eq, Structural, Debug, Hash)]
pub enum PieceType {
    Pawn,
    Knight,
    Bishop,
    Rook,
    Queen,
    King,
}

impl PieceType {
    /// Index of the piece kind in the Zobrist table, pawn 0 through king 5.
    pub open spec fn idx(self) -> int {
        match self {
            PieceType::Pawn => 0,
            PieceType::Knight => 1,
            PieceType::Bishop => 2,
            PieceType::Rook => 3,
            PieceType::Queen => 4,
            PieceType::King => 5,
        }
    }
}

/// The six piece kinds, in Zobrist-table order.
pub fn all_piece_types() -> (r: [PieceType; 6])
    ensures
        r@ == all_piece_types_seq(),
{
    [
        PieceType::Pawn,
        PieceType::Knight,
        PieceType::Bishop,
        PieceType::Rook,
        PieceType::Queen,
        PieceType::King,
    ]
}

pub open spec fn all_piece_types_seq() -> Seq<PieceType> {
    seq![
        PieceType::Pawn,
        PieceType::Knight,
        PieceType::Bishop,
        PieceType::Rook,
        PieceType::Queen,
        PieceType::King,
    ]
}

#[derive(Clone, Copy, PartialEq, Eq, Structural, Debug)]
pub struct ChessPiece {
    pub typpe: PieceType,
    pub color: PlayerColor,
}

} // verus!
