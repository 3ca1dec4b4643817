use chess_engine::evaluation::checkmate_evaluator::CheckmateEvaluator;
use chess_engine::evaluation::material_evaluator::MaterialEvaluator;
use chess_engine::evaluation::piece_coordinate_evaluator::PieceCoordinateEvaluator;
use chess_engine::evaluation::search_evaluator::MinimaxSearchEvaluator;
use chess_engine::evaluation::{PositionEvaluationPipeline, PositionEvaluator};
use chess_engine::position::{Position, UciRequest};
use chess_engine::server::{handle_position_eval_request, sq_id_to_name};
use chess_engine::transposition_table::TranspositionTable;
use chess_engine::zobrist::ZobristTable;

fn req(board: &str, side: &str) -> UciRequest {
    UciRequest {
        p_to_move: side.to_string(),
        board: board.to_string(),
        req_type: "pos_eval".to_string(),
        timeout: 0,
    }
}

fn board_with(pieces: &[(u8, char)]) -> String {
    let mut cells: Vec<char> = vec!['.'; 64];
    for (sq, ch) in pieces.iter() {
        cells[*sq as usize] = *ch;
    }
    cells.into_iter().collect()
}

#[test]
fn alpha_beta_matches_plain_minimax() {
    // pruning is a performance optimization, not a semantic change: both
    // searches give one synthetic middle game the same score at each depth
    let table = ZobristTable::new();
    let board = board_with(&[
        (4, 'k'),
        (11, 'q'),
        (16, 'r'),
        (22, 'n'),
        (60, 'K'),
        (51, 'Q'),
        (47, 'R'),
        (42, 'b'),
        (12, 'p'),
        (52, 'P'),
    ]);
    let pos = Position::from_uci(&req(&board, "W"), &table).expect("decodes");
    for depth in 0..3u8 {
        let searcher = MinimaxSearchEvaluator::new(
            MaterialEvaluator::new(),
            depth,
            ZobristTable::new(),
        );
        let (pruned, _) = searcher.minimax(&pos, depth, i32::MIN, i32::MAX);
        let (plain, _) = searcher.minimax_plain(&pos, depth);
        assert_eq!(plain, pruned);
    }
}

#[test]
fn material_counts_both_sides() {
    let table = ZobristTable::new();
    // a white queen and pawn against a black rook
    let board = board_with(&[(3, 'q'), (12, 'p'), (56, 'R'), (4, 'k'), (60, 'K')]);
    let pos = Position::from_uci(&req(&board, "W"), &table).expect("decodes");
    let score = MaterialEvaluator::new().evaluate(&pos);
    assert_eq!(900 + 105 - 500, score);
}

#[test]
fn coordinate_tables_mirror_for_black() {
    let table = ZobristTable::new();
    // knights on mirrored squares cancel out
    let board = board_with(&[(18, 'n'), (45, 'N'), (4, 'k'), (60, 'K')]);
    let pos = Position::from_uci(&req(&board, "W"), &table).expect("decodes");
    let score = PieceCoordinateEvaluator::new().evaluate(&pos);
    // the kings mirror as well, so the whole position is balanced
    assert_eq!(0, score);
}

#[test]
fn pipeline_sums_its_evaluators() {
    let table = ZobristTable::new();
    let board = board_with(&[(3, 'q'), (56, 'R'), (4, 'k'), (60, 'K')]);
    let pos = Position::from_uci(&req(&board, "W"), &table).expect("decodes");
    let pipeline = PositionEvaluationPipeline {
        material: MaterialEvaluator::new(),
        coordinates: PieceCoordinateEvaluator::new(),
        checkmate: CheckmateEvaluator {},
    };
    let total = pipeline.evaluate(&pos);
    let by_hand = MaterialEvaluator::new().evaluate(&pos)
        + PieceCoordinateEvaluator::new().evaluate(&pos)
        + CheckmateEvaluator {}.evaluate(&pos);
    assert_eq!(by_hand, total);
}

#[test]
fn transposition_table_stores_and_retrieves() {
    let mut tt = TranspositionTable::new();
    assert_eq!(None, tt.retrieve(42));
    tt.store(42, -17);
    tt.store(7, 5);
    assert_eq!(Some(-17), tt.retrieve(42));
    assert_eq!(Some(5), tt.retrieve(7));
    tt.store(42, 9);
    assert_eq!(Some(9), tt.retrieve(42));
}

#[test]
fn square_names_follow_algebraic_notation() {
    assert_eq!("A1", sq_id_to_name(0));
    assert_eq!("E2", sq_id_to_name(12));
    assert_eq!("H8", sq_id_to_name(63));
}

#[test]
fn position_eval_request_answers_in_decimal() {
    let table = ZobristTable::new();
    let board = board_with(&[(3, 'q'), (4, 'k'), (60, 'K')]);
    let resp = handle_position_eval_request(&req(&board, "W"), table).expect("decodes");
    assert!(resp.pos_score.parse::<i32>().is_ok());
    assert_eq!("", resp.best_moves);
    assert_eq!("", resp.possible_moves);
    let table2 = ZobristTable::new();
    assert!(handle_position_eval_request(&req("short", "W"), table2).is_err());
}

#[test]
fn search_depth_zero_is_the_leaf_evaluator() {
    let table = ZobristTable::new();
    let board = board_with(&[(3, 'q'), (4, 'k'), (60, 'K')]);
    let pos = Position::from_uci(&req(&board, "W"), &table).expect("decodes");
    let searcher =
        MinimaxSearchEvaluator::new(MaterialEvaluator::new(), 0, ZobristTable::new());
    let leaf = MaterialEvaluator::new().evaluate(&pos);
    assert_eq!(leaf, searcher.evaluate(&pos));
}

#[test]
fn position_eval_request_renders_the_search_score() {
    // the response must carry exactly the score the search computes
    let table = ZobristTable::new();
    let board = board_with(&[(3, 'q'), (12, 'p'), (56, 'R'), (4, 'k'), (60, 'K')]);
    let pos = Position::from_uci(&req(&board, "W"), &table).expect("decodes");
    let pipeline = PositionEvaluationPipeline {
        material: MaterialEvaluator::new(),
        coordinates: PieceCoordinateEvaluator::new(),
        checkmate: CheckmateEvaluator {},
    };
    let searcher = MinimaxSearchEvaluator::new(pipeline, 4, ZobristTable::new());
    let expected = searcher.evaluate(&pos);
    let resp = handle_position_eval_request(&req(&board, "W"), ZobristTable::new())
        .expect("decodes");
    assert_eq!(expected.to_string(), resp.pos_score);
}
