use vstd::prelude::*;

use crate::evaluation::checkmate_evaluator::CheckmateEvaluator;
use crate::evaluation::material_evaluator::MaterialEvaluator;
use crate::evaluation::piece_coordinate_evaluator::PieceCoordinateEvaluator;
use crate::evaluation::search_evaluator::{minimax_value, MinimaxSearchEvaluator};
use crate::evaluation::{PositionEvaluationPipeline, PositionEvaluator};
use crate::position::{DecodeError, Position, UciRequest, UciResponse};
use crate::rules::{file_of, rank_of};
use crate::zobrist::ZobristTable;

verus! {

/// The digit character of one decimal place.
pub open spec fn digit_char(d: int) -> char {
    if d == 0 {
        '0'
    } else if d == 1 {
        '1'
    } else if d == 2 {
        '2'
    } else if d == 3 {
        '3'
    } else if d == 4 {
        '4'
    } else if d == 5 {
        '5'
    } else if d == 6 {
        '6'
    } else if d == 7 {
        '7'
    } else if d == 8 {
        '8'
    } else {
        '9'
    }
}

/// The decimal digits of a non-negative number, most significant first.
pub open spec fn dec_digits(n: int) -> Seq<char>
    decreases n,
{
    if n <= 0 {
        Seq::empty()
    } else {
        dec_digits(n / 10) + seq![digit_char(n % 10)]
    }
}

/// The decimal rendering of an integer, a leading minus for negatives.
pub open spec fn dec_string(n: int) -> Seq<char> {
    if n == 0 {
        seq!['0']
    } else if n < 0 {
        seq!['-'] + dec_digits(-n)
    } else {
        dec_digits(n)
    }
}

/// Relies on i32's Display implementation: std documents that it renders
/// the number in decimal, a leading `-` for negatives.
#[verifier::external_body]
fn int_to_string(n: i32) -> (r: String)
    ensures
        r@ == dec_string(n as int),
{
    n.to_string()
}

/// The rank digit of a square, "1" through "8".
pub fn row_to_str(row: u8) -> (r: String)
    requires
        row < 8,
    ensures
        r@ == seq![digit_char(row as int + 1)],
{
    proof {
        reveal_strlit("1");
        reveal_strlit("2");
        reveal_strlit("3");
        reveal_strlit("4");
        reveal_strlit("5");
        reveal_strlit("6");
        reveal_strlit("7");
        reveal_strlit("8");
    }
    let r = match row {
        0 => "1",
        1 => "2",
        2 => "3",
        3 => "4",
        4 => "5",
        5 => "6",
        6 => "7",
        _ => "8",
    }.to_owned();
    proof {
        assert(r@ =~= seq![digit_char(row as int + 1)]);
    }
    r
}

/// The file letter of a square.
pub open spec fn col_char(col: int) -> char {
    if col == 0 {
        'A'
    } else if col == 1 {
        'B'
    } else if col == 2 {
        'C'
    } else if col == 3 {
        'D'
    } else if col == 4 {
        'E'
    } else if col == 5 {
        'F'
    } else if col == 6 {
        'G'
    } else {
        'H'
    }
}

pub fn col_to_str(col: u8) -> (r: &'static str)
    requires
        col < 8,
    ensures
        r@ == seq![col_char(col as int)],
{
    proof {
        reveal_strlit("A");
        reveal_strlit("B");
        reveal_strlit("C");
        reveal_strlit("D");
        reveal_strlit("E");
        reveal_strlit("F");
        reveal_strlit("G");
        reveal_strlit("H");
    }
    let r = match col {
        0 => "A",
        1 => "B",
        2 => "C",
        3 => "D",
        4 => "E",
        5 => "F",
        6 => "G",
        _ => "H",
    };
    proof {
        assert(r@ =~= seq![col_char(col as int)]);
    }
    r
}

/// The algebraic name of a square: file letter then rank digit.
pub open spec fn sq_name(sq: int) -> Seq<char> {
    seq![col_char(file_of(sq)), digit_char(rank_of(sq) + 1)]
}

pub fn sq_id_to_name(sq_id: u8) -> (r: String)
    requires
        sq_id < 64,
    ensures
        r@ == sq_name(sq_id as int),
{
    let row = sq_id / 8;
    let col = sq_id % 8;
    let mut r = col_to_str(col).to_owned();
    let row_s = row_to_str(row);
    r.append(row_s.as_str());
    proof {
        assert(r@ =~= sq_name(sq_id as int));
    }
    r
}

/// Evaluates the decoded position with the full evaluator pipeline under
/// an alpha-beta search and answers with the score in decimal. A board
/// description that cannot be decoded is a hard failure.
pub fn handle_position_eval_request(uci_req: &UciRequest, table: ZobristTable) -> (r: Result<
    UciResponse,
    DecodeError,
>)
    requires
        table.wf(),
    ensures
        r is Ok <==> (crate::position::board_text_ok(uci_req.board@) && (uci_req.p_to_move@
            =~= "W"@ || uci_req.p_to_move@ =~= "B"@)),
        r is Ok ==> ({
            let b = crate::position::decode_board(uci_req.board@, uci_req.p_to_move@ =~= "B"@);
            let pipeline = PositionEvaluationPipeline {
                material: MaterialEvaluator {  },
                coordinates: PieceCoordinateEvaluator {  },
                checkmate: CheckmateEvaluator {  },
            };
            &&& r.unwrap().pos_score@ == dec_string(minimax_value(&pipeline, b, 4))
            &&& r.unwrap().best_moves@ == Seq::<char>::empty()
            &&& r.unwrap().possible_moves@ == Seq::<char>::empty()
        }),
{
    let eval_pipeline = PositionEvaluationPipeline {
        material: MaterialEvaluator::new(),
        coordinates: PieceCoordinateEvaluator::new(),
        checkmate: CheckmateEvaluator {  },
    };
    let position = match Position::from_uci(uci_req, &table) {
        Ok(p) => p,
        Err(e) => { return Err(e) },
    };
    let minimax_evaluator = MinimaxSearchEvaluator::new(eval_pipeline, 4, table);
    let score = minimax_evaluator.evaluate(&position);
    Ok(
        UciResponse {
            best_moves: String::new(),
            possible_moves: String::new(),
            pos_score: int_to_string(score),
        },
    )
}

} // verus!
