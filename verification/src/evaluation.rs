pub mod checkmate_evaluator;
pub mod material_evaluator;
pub mod piece_coordinate_evaluator;
pub mod position_evaluator;
pub mod search_evaluator;

use vstd::prelude::*;

use crate::position::Position;
use crate::rules::Board;

verus! {

/// The capability the search depends on: evaluating a position into a
/// score. Implementations state their score as a function of the board and
/// prove it bounded, so search results are pinned exactly.
pub trait PositionEvaluator {
    spec fn spec_evaluate(&self, b: Board) -> int;

    spec fn wf(&self) -> bool;

    /// Every score this evaluator gives fits an i32.
    proof fn evaluate_bounds(&self, b: Board)
        ensures
            i32::MIN as int <= self.spec_evaluate(b) <= i32::MAX as int,
    ;

    fn evaluate(&self, position: &Position) -> (r: i32)
        requires
            position.wf_pos(),
            self.wf(),
        ensures
            r as int == self.spec_evaluate(position.board_of()),
    ;
}

/// A fixed sum of the three concrete evaluators the engine ships.
pub struct PositionEvaluationPipeline {
    pub material: material_evaluator::MaterialEvaluator,
    pub coordinates: piece_coordinate_evaluator::PieceCoordinateEvaluator,
    pub checkmate: checkmate_evaluator::CheckmateEvaluator,
}

impl PositionEvaluator for PositionEvaluationPipeline {
    open spec fn spec_evaluate(&self, b: Board) -> int {
        self.material.spec_evaluate(b) + self.coordinates.spec_evaluate(b)
            + self.checkmate.spec_evaluate(b)
    }

    open spec fn wf(&self) -> bool {
        true
    }

    proof fn evaluate_bounds(&self, b: Board) {
        self.material.evaluate_bounds(b);
        self.coordinates.evaluate_bounds(b);
        self.checkmate.evaluate_bounds(b);
        material_evaluator::lemma_material_tight(b);
        piece_coordinate_evaluator::lemma_coordinates_tight(b);
    }

    fn evaluate(&self, position: &Position) -> (r: i32) {
        let m = self.material.evaluate(position);
        let c = self.coordinates.evaluate(position);
        let k = self.checkmate.evaluate(position);
        proof {
            material_evaluator::lemma_material_tight(position.board_of());
            piece_coordinate_evaluator::lemma_coordinates_tight(position.board_of());
        }
        (m + c) + k
    }
}

} // verus!
