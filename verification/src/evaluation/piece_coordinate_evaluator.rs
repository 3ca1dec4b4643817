use vstd::prelude::*;

use super::PositionEvaluator;
use crate::chess::{PieceType, PlayerColor};
use crate::position::Position;
use crate::rules::{file_of, rank_of, Board};

verus! {

/// The placement bonus of a white piece of kind `k` on (rank `i`, file
/// `j`): development and center squares reward minor pieces, advanced
/// ranks reward pawns, the castled corner rewards the king.
pub open spec fn white_coord_value(k: PieceType, i: int, j: int) -> int {
    match k {
        PieceType::Bishop => if (i == 0 && (j == 2 || j == 5)) || (i == 1 && (j == 3 || j == 4))
            || (i == 2 && (j == 2 || j == 5)) || (i == 3 && (j == 3 || j == 4)) {
            20int
        } else if (i == 2 && (j == 1 || j == 6)) || (i == 3 && (j == 2 || j == 5)) || (i == 4 && (j
            == 3 || j == 4)) || (i == 5 && (j == 2 || j == 5)) || (i == 6 && (j == 3 || j == 4)) {
            30int
        } else if (i == 4 && (j == 1 || j == 6)) || (i == 5 && (j == 0 || j == 7)) || (i == 6 && (j
            == 1 || j == 6)) {
            20int
        } else if (i == 1 && (j == 1 || j == 6)) || (i == 6 && (j == 0 || j == 7)) {
            0int
        } else if (i == 0 || i == 7) && (j == 0 || j == 7) {
            -20int
        } else {
            10int
        },
        PieceType::Knight => if (i == 2 && (j == 3 || j == 4)) || (i == 3 && (j == 2 || j == 5))
            || (i == 4 && (j == 3 || j == 4)) || (i == 5 && (j == 2 || j == 5)) {
            30int
        } else if (i == 1 && (j == 2 || j == 5)) || (i == 2 && (j == 2 || j == 5)) || (i == 3 && (j
            == 3 || j == 4)) || (i == 4 && (j == 2 || j == 5)) || (i == 5 && (j == 3 || j == 4))
            || (i == 6 && (j == 2 || j == 5)) {
            20int
        } else if (i == 0 && (j == 1 || j == 6)) || (i == 1 && (j == 3 || j == 4)) || (i == 2 && (j
            == 1 || j == 6)) || (i == 3 && (j == 1 || j == 6)) || (i == 4 && (j == 1 || j == 6))
            || (i == 5 && (j == 1 || j == 6)) || (i == 6 && (j == 3 || j == 4)) || (i == 7 && (j
            == 1 || j == 6)) {
            10int
        } else if j == 0 || j == 7 {
            0int
        } else {
            -10int
        },
        PieceType::Pawn => (if i == 2 {
            10int
        } else if i == 3 {
            20int
        } else if i == 4 {
            30int
        } else if i == 5 {
            50int
        } else if i == 6 {
            80int
        } else {
            0int
        }) + (if j == 3 || j == 4 {
            10int
        } else if j == 2 || j == 5 {
            5int
        } else {
            0int
        }),
        PieceType::Queen => if (i == 3 || i == 4) && (j == 3 || j == 4) {
            30int
        } else if 2 <= i <= 5 && 2 <= j <= 5 {
            20int
        } else {
            0int
        },
        PieceType::Rook => if (i == 0 || i == 7) && (j == 0 || j == 7) {
            0int
        } else if j == 0 || j == 7 {
            5int
        } else {
            -5int
        },
        PieceType::King => if i == 0 && (j == 6 || j == 2) {
            20int
        } else if i == 1 && (j == 5 || j == 3) {
            10int
        } else if 2 <= i <= 5 && 2 <= j <= 5 {
            -10int
        } else {
            0int
        },
    }
}

/// A black piece reads the table through the mirrored square 63 - s.
pub open spec fn coord_value(k: PieceType, c: PlayerColor, s: int) -> int {
    match c {
        PlayerColor::White => white_coord_value(k, rank_of(s), file_of(s)),
        PlayerColor::Black => white_coord_value(k, rank_of(63 - s), file_of(63 - s)),
    }
}

pub open spec fn square_coord(b: Board, s: int) -> int {
    (match b.white.piece_at(s as u64) {
        Some(k) => coord_value(k, PlayerColor::White, s),
        None => 0,
    }) - (match b.black.piece_at(s as u64) {
        Some(k) => coord_value(k, PlayerColor::Black, s),
        None => 0,
    })
}

pub open spec fn coordinates_upto(b: Board, n: int) -> int
    decreases n,
{
    if n <= 0 {
        0
    } else {
        coordinates_upto(b, n - 1) + square_coord(b, n - 1)
    }
}

/// White's placement bonus minus black's, over the whole board.
pub open spec fn coordinates_of(b: Board) -> int {
    coordinates_upto(b, 64)
}

pub proof fn lemma_coord_value_bounds(k: PieceType, i: int, j: int)
    ensures
        -20 <= white_coord_value(k, i, j) <= 90,
{
}

pub proof fn lemma_coordinates_bounds(b: Board, n: int)
    requires
        0 <= n <= 64,
    ensures
        -110 * n <= coordinates_upto(b, n) <= 110 * n,
    decreases n,
{
    if n > 0 {
        lemma_coordinates_bounds(b, n - 1);
        let s = n - 1;
        match b.white.piece_at(s as u64) {
            Some(k) => {
                lemma_coord_value_bounds(k, rank_of(s), file_of(s));
            },
            None => {},
        }
        match b.black.piece_at(s as u64) {
            Some(k) => {
                lemma_coord_value_bounds(k, rank_of(63 - s), file_of(63 - s));
            },
            None => {},
        }
    }
}

/// The whole-board placement score is far inside the i32 range.
pub proof fn lemma_coordinates_tight(b: Board)
    ensures
        -7040 <= coordinates_of(b) <= 7040,
{
    lemma_coordinates_bounds(b, 64);
}

/// Rewards pieces for standing on good squares, by kind-specific tables,
/// black reading the mirrored table.
pub struct PieceCoordinateEvaluator {}

impl PieceCoordinateEvaluator {
    pub fn new() -> (r: PieceCoordinateEvaluator)
        ensures
            r.wf(),
    {
        PieceCoordinateEvaluator {  }
    }
}

/// The placement bonus table, as executable code.
pub fn coord_value_exec(k: PieceType, c: PlayerColor, s: u8) -> (r: i32)
    requires
        s < 64,
    ensures
        r as int == coord_value(k, c, s as int),
{
    let sq: u8 = match c {
        PlayerColor::White => s,
        PlayerColor::Black => 63 - s,
    };
    let i = sq / 8;
    let j = sq % 8;
    proof {
        assert(i as int == rank_of(sq as int) && j as int == file_of(sq as int));
    }
    match k {
        PieceType::Bishop => {
            if (i == 0 && (j == 2 || j == 5)) || (i == 1 && (j == 3 || j == 4)) || (i == 2 && (j
                == 2 || j == 5)) || (i == 3 && (j == 3 || j == 4)) {
                20
            } else if (i == 2 && (j == 1 || j == 6)) || (i == 3 && (j == 2 || j == 5)) || (i == 4
                && (j == 3 || j == 4)) || (i == 5 && (j == 2 || j == 5)) || (i == 6 && (j == 3 || j
                == 4)) {
                30
            } else if (i == 4 && (j == 1 || j == 6)) || (i == 5 && (j == 0 || j == 7)) || (i == 6
                && (j == 1 || j == 6)) {
                20
            } else if (i == 1 && (j == 1 || j == 6)) || (i == 6 && (j == 0 || j == 7)) {
                0
            } else if (i == 0 || i == 7) && (j == 0 || j == 7) {
                -20
            } else {
                10
            }
        },
        PieceType::Knight => {
            if (i == 2 && (j == 3 || j == 4)) || (i == 3 && (j == 2 || j == 5)) || (i == 4 && (j
                == 3 || j == 4)) || (i == 5 && (j == 2 || j == 5)) {
                30
            } else if (i == 1 && (j == 2 || j == 5)) || (i == 2 && (j == 2 || j == 5)) || (i == 3
                && (j == 3 || j == 4)) || (i == 4 && (j == 2 || j == 5)) || (i == 5 && (j == 3 || j
                == 4)) || (i == 6 && (j == 2 || j == 5)) {
                20
            } else if (i == 0 && (j == 1 || j == 6)) || (i == 1 && (j == 3 || j == 4)) || (i == 2
                && (j == 1 || j == 6)) || (i == 3 && (j == 1 || j == 6)) || (i == 4 && (j == 1 || j
                == 6)) || (i == 5 && (j == 1 || j == 6)) || (i == 6 && (j == 3 || j == 4)) || (i
                == 7 && (j == 1 || j == 6)) {
                10
            } else if j == 0 || j == 7 {
                0
            } else {
                -10
            }
        },
        PieceType::Pawn => {
            (if i == 2 {
                10
            } else if i == 3 {
                20
            } else if i == 4 {
                30
            } else if i == 5 {
                50
            } else if i == 6 {
                80
            } else {
                0
            }) + (if j == 3 || j == 4 {
                10
            } else if j == 2 || j == 5 {
                5
            } else {
                0
            })
        },
        PieceType::Queen => {
            if (i == 3 || i == 4) && (j == 3 || j == 4) {
                30
            } else if 2 <= i && i <= 5 && 2 <= j && j <= 5 {
                20
            } else {
                0
            }
        },
        PieceType::Rook => {
            if (i == 0 || i == 7) && (j == 0 || j == 7) {
                0
            } else if j == 0 || j == 7 {
                5
            } else {
                -5
            }
        },
        PieceType::King => {
            if i == 0 && (j == 6 || j == 2) {
                20
            } else if i == 1 && (j == 5 || j == 3) {
                10
            } else if 2 <= i && i <= 5 && 2 <= j && j <= 5 {
                -10
            } else {
                0
            }
        },
    }
}

impl PositionEvaluator for PieceCoordinateEvaluator {
    open spec fn spec_evaluate(&self, b: Board) -> int {
        coordinates_of(b)
    }

    open spec fn wf(&self) -> bool {
        true
    }

    proof fn evaluate_bounds(&self, b: Board) {
        lemma_coordinates_tight(b);
    }

    fn evaluate(&self, position: &Position) -> (r: i32) {
        let ghost b = position.board_of();
        let mut score: i32 = 0;
        for s in 0..64u8
            invariant
                b == position.board_of(),
                score as int == coordinates_upto(b, s as int),
                -110 * (s as int) <= score as int <= 110 * (s as int),
        {
            let w = match position.white.piece_kind_at(s) {
                Some(k) => coord_value_exec(k, PlayerColor::White, s),
                None => 0,
            };
            let bl = match position.black.piece_kind_at(s) {
                Some(k) => coord_value_exec(k, PlayerColor::Black, s),
                None => 0,
            };
            proof {
                match b.white.piece_at(s as u64) {
                    Some(k) => {
                        lemma_coord_value_bounds(k, rank_of(s as int), file_of(s as int));
                    },
                    None => {},
                }
                match b.black.piece_at(s as u64) {
                    Some(k) => {
                        lemma_coord_value_bounds(
                            k,
                            rank_of(63 - s as int),
                            file_of(63 - s as int),
                        );
                    },
                    None => {},
                }
            }
            score = score + (w - bl);
        }
        score
    }
}

} // verus!
