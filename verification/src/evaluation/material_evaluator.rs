use vstd::prelude::*;

use super::PositionEvaluator;
use crate::bitboard::BitB64;
use crate::bits::bit64;
use crate::chess::{PieceType, PlayerColor};
use crate::position::Position;
use crate::rules::Board;

verus! {

/// The material worth of one piece kind, in centipawn-like units.
pub open spec fn piece_value(k: PieceType) -> int {
    match k {
        PieceType::Pawn => 105,
        PieceType::Knight => 310,
        PieceType::Bishop => 325,
        PieceType::Rook => 500,
        PieceType::Queen => 900,
        PieceType::King => 0,
    }
}

/// What one square contributes: the value of a white piece there, minus
/// the value of a black piece there.
pub open spec fn square_material(b: Board, s: int) -> int {
    (match b.white.piece_at(s as u64) {
        Some(k) => piece_value(k),
        None => 0,
    }) - (match b.black.piece_at(s as u64) {
        Some(k) => piece_value(k),
        None => 0,
    })
}

pub open spec fn material_upto(b: Board, n: int) -> int
    decreases n,
{
    if n <= 0 {
        0
    } else {
        material_upto(b, n - 1) + square_material(b, n - 1)
    }
}

/// White's material minus black's, over the whole board.
pub open spec fn material_of(b: Board) -> int {
    material_upto(b, 64)
}

/// The running material sum never leaves 900 units per square counted.
pub proof fn lemma_material_bounds(b: Board, n: int)
    requires
        0 <= n <= 64,
    ensures
        -900 * n <= material_upto(b, n) <= 900 * n,
    decreases n,
{
    if n > 0 {
        lemma_material_bounds(b, n - 1);
    }
}

/// The whole-board material score is far inside the i32 range.
pub proof fn lemma_material_tight(b: Board)
    ensures
        -57600 <= material_of(b) <= 57600,
{
    lemma_material_bounds(b, 64);
}

/// Sums piece values per side and returns white's total minus black's.
pub struct MaterialEvaluator {}

impl MaterialEvaluator {
    pub fn new() -> (r: MaterialEvaluator)
        ensures
            r.wf(),
    {
        MaterialEvaluator {  }
    }
}

/// The worth of one piece kind, as executable code.
pub fn piece_value_exec(k: PieceType) -> (r: i32)
    ensures
        r as int == piece_value(k),
{
    match k {
        PieceType::Pawn => 105,
        PieceType::Knight => 310,
        PieceType::Bishop => 325,
        PieceType::Rook => 500,
        PieceType::Queen => 900,
        PieceType::King => 0,
    }
}

impl PositionEvaluator for MaterialEvaluator {
    open spec fn spec_evaluate(&self, b: Board) -> int {
        material_of(b)
    }

    open spec fn wf(&self) -> bool {
        true
    }

    proof fn evaluate_bounds(&self, b: Board) {
        lemma_material_tight(b);
    }

    fn evaluate(&self, position: &Position) -> (r: i32) {
        let ghost b = position.board_of();
        let mut score: i32 = 0;
        for s in 0..64u8
            invariant
                b == position.board_of(),
                score as int == material_upto(b, s as int),
                -900 * (s as int) <= score as int <= 900 * (s as int),
        {
            let w = match position.white.piece_kind_at(s) {
                Some(k) => piece_value_exec(k),
                None => 0,
            };
            let bl = match position.black.piece_kind_at(s) {
                Some(k) => piece_value_exec(k),
                None => 0,
            };
            score = score + (w - bl);
        }
        score
    }
}

} // verus!
