use chess_engine::bitboard::{A3, B1, C3, F3, G1, H3};
use chess_engine::move_gen::bishop::BishopBitboardMoveGenerator;
use chess_engine::move_gen::internal::get_initial_position;
use chess_engine::move_gen::king::KingBitboardMoveGenerator;
use chess_engine::move_gen::knight::KnightBitboardMoveGenerator;
use chess_engine::move_gen::pawn::PawnBitboardMoveGenerator;
use chess_engine::move_gen::queen::QueenBitboardMoveGenerator;
use chess_engine::move_gen::rook::RookBitboardMoveGenerator;
use chess_engine::move_gen::{
    BitboardMoveGenerator, MoveGenOpts, MoveGenPerspective, MovesMap, PieceAndMoves,
};
use chess_engine::zobrist::ZobristTable;

fn moving() -> MoveGenOpts {
    MoveGenOpts { perspective: MoveGenPerspective::MovingPlayer }
}

fn dest_mask(pm: &PieceAndMoves) -> u64 {
    let mut m: u64 = 0;
    for mv in pm.moves.iter() {
        m |= 1u64 << mv.to;
    }
    m
}

fn nth(n: u8) -> u64 {
    1u64 << n
}

#[test]
fn bishop_test_test_initial_pos() {
    // Initial position has no moves for bishops.
    let table = ZobristTable::new();
    let pos = get_initial_position(&table);
    let map = BishopBitboardMoveGenerator::generate_moves(&pos, moving());
    assert_eq!(0, map.len());
}

#[test]
fn king_test_test_initial_pos() {
    let table = ZobristTable::new();
    let pos = get_initial_position(&table);
    let map = KingBitboardMoveGenerator::generate_moves(&pos, moving());
    assert_eq!(0, map.len());
}

#[test]
fn knight_test_test_initial_pos() {
    let table = ZobristTable::new();
    let pos = get_initial_position(&table);
    let map = KnightBitboardMoveGenerator::generate_moves(&pos, moving());
    assert_eq!(2, map.len());
    let b1 = map.get(B1).expect("knight on B1");
    assert_eq!(nth(A3) | nth(C3), dest_mask(b1));
    let g1 = map.get(G1).expect("knight on G1");
    assert_eq!(nth(F3) | nth(H3), dest_mask(g1));
}

#[test]
fn pawn_test_test_initial_pos() {
    let table = ZobristTable::new();
    let pos = get_initial_position(&table);
    let map = PawnBitboardMoveGenerator::generate_moves(&pos, moving());
    assert_eq!(8, map.len());
    for file in 0..8u8 {
        let from = 8 + file;
        let pm = map.get(from).expect("pawn on the second rank");
        assert_eq!(nth(from + 8) | nth(from + 16), dest_mask(pm));
    }
}

#[test]
fn queen_test_test_initial_pos() {
    let table = ZobristTable::new();
    let pos = get_initial_position(&table);
    let map = QueenBitboardMoveGenerator::generate_moves(&pos, moving());
    assert_eq!(0, map.len());
}

#[test]
fn rook_test_test_initial_pos() {
    let table = ZobristTable::new();
    let pos = get_initial_position(&table);
    let map = RookBitboardMoveGenerator::generate_moves(&pos, moving());
    assert_eq!(0, map.len());
}

#[test]
fn merge_extends_shared_squares() {
    let table = ZobristTable::new();
    let pos = get_initial_position(&table);
    let knights = KnightBitboardMoveGenerator::generate_moves(&pos, moving());
    let mut merged: MovesMap = KnightBitboardMoveGenerator::generate_moves(&pos, moving());
    // merging a map into itself repeats each square's moves
    chess_engine::move_gen::merge_moves_map(knights, &mut merged);
    assert_eq!(2, merged.len());
    let b1 = merged.get(B1).expect("knight on B1");
    assert_eq!(4, b1.moves.len());
    assert_eq!(nth(A3) | nth(C3), dest_mask(b1));
}

#[test]
fn raw_pawn_attacks_cover_diagonals() {
    // a lone white pawn on D4 covers C5 and E5 whether or not an enemy
    // stands there
    let mut board = String::new();
    for sq in 0..64 {
        board.push(if sq == 27 { 'p' } else { '.' });
    }
    let table = ZobristTable::new();
    let req = chess_engine::position::UciRequest {
        p_to_move: "W".to_string(),
        board,
        req_type: "possible_moves".to_string(),
        timeout: 0,
    };
    let pos = chess_engine::position::Position::from_uci(&req, &table).expect("decodes");
    let attacks = chess_engine::move_gen::pawn::compute_pawn_attacking_moves_internal(
        &pos.white,
        &pos.black,
        chess_engine::chess::PlayerColor::White,
    );
    assert_eq!(nth(34) | nth(36), attacks);
}
