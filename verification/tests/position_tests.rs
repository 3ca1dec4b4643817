use chess_engine::bitboard::{BitboardMove, SpecialMoveType};
use chess_engine::chess::{ChessPiece, PieceType, PlayerColor};
use chess_engine::move_gen::MoveGenPerspective;
use chess_engine::position::{DecodeError, Position, UciRequest};
use chess_engine::zobrist::ZobristTable;

const STANDARD_LAYOUT: &str =
    "rnbqkbnrpppppppp................................PPPPPPPPRNBQKBNR";

fn req(board: &str, side: &str) -> UciRequest {
    UciRequest {
        p_to_move: side.to_string(),
        board: board.to_string(),
        req_type: "possible_moves".to_string(),
        timeout: 0,
    }
}

fn board_with(pieces: &[(u8, char)]) -> String {
    let mut cells: Vec<char> = vec!['.'; 64];
    for (sq, ch) in pieces.iter() {
        cells[*sq as usize] = *ch;
    }
    cells.into_iter().collect()
}

fn regular(from: u8, to: u8) -> BitboardMove {
    BitboardMove { from, to, sp_move_type: SpecialMoveType::RegularMove }
}

fn masks_disjoint(pb: &chess_engine::bitboard::PlayerBitboard) -> bool {
    let masks = [pb.pawns, pb.knights, pb.bishops, pb.rooks, pb.queens, pb.king];
    for i in 0..6 {
        for j in (i + 1)..6 {
            if masks[i] & masks[j] != 0 {
                return false;
            }
        }
    }
    true
}

#[test]
fn hash_stays_consistent_across_moves() {
    // the incrementally maintained hash always matches the hash recomputed
    // from scratch
    let table = ZobristTable::new();
    let mut pos = Position::new(&table);
    let line = [
        (regular(12, 28), PieceType::Pawn),   // E2-E4
        (regular(52, 36), PieceType::Pawn),   // E7-E5
        (regular(6, 21), PieceType::Knight),  // G1-F3
        (regular(57, 42), PieceType::Knight), // B8-C6
        (regular(21, 36), PieceType::Knight), // NxE5 capture
    ];
    for (mv, kind) in line.iter() {
        let color = pos.player_to_move();
        pos = pos.make_move(mv, ChessPiece { typpe: *kind, color }, &table);
        let mut audit = pos;
        audit.compute_zobrist_hash(&table);
        assert_eq!(audit.position_info.zobrist_hash, pos.position_info.zobrist_hash);
    }
}

#[test]
fn masks_stay_pairwise_disjoint() {
    let table = ZobristTable::new();
    let mut pos = Position::new(&table);
    assert!(masks_disjoint(&pos.white));
    assert!(masks_disjoint(&pos.black));
    assert_eq!(0, pos.white.all_pieces() & pos.black.all_pieces());
    let line = [
        (regular(12, 28), PieceType::Pawn),
        (regular(51, 35), PieceType::Pawn),
        (regular(28, 35), PieceType::Pawn), // ExD5 capture
    ];
    for (mv, kind) in line.iter() {
        let color = pos.player_to_move();
        pos = pos.make_move(mv, ChessPiece { typpe: *kind, color }, &table);
        assert!(masks_disjoint(&pos.white));
        assert!(masks_disjoint(&pos.black));
        assert_eq!(0, pos.white.all_pieces() & pos.black.all_pieces());
    }
}

#[test]
fn standard_layout_round_trip() {
    // decoding the standard layout gives the very same position and move
    // set as the built-in initial position
    let table = ZobristTable::new();
    let initial = Position::new(&table);
    let decoded = Position::from_uci(&req(STANDARD_LAYOUT, "W"), &table).expect("decodes");
    assert!(initial == decoded);
    let a = initial.legal_continuations(&table);
    let b = decoded.legal_continuations(&table);
    assert!(a.entries == b.entries);
}

#[test]
fn initial_position_has_twenty_legal_moves() {
    let table = ZobristTable::new();
    let pos = Position::new(&table);
    let map = pos.legal_continuations(&table);
    let mut total = 0;
    for i in 0..map.len() {
        total += map.entry_at(i).1.moves.len();
    }
    assert_eq!(20, total);
    // the pawn on A2 advances one or two squares
    let a2 = map.get(8).expect("pawn on A2");
    assert_eq!(2, a2.moves.len());
    assert_eq!(vec![regular(8, 16), regular(8, 24)], a2.moves);
    // the knight on B1 reaches A3 and C3
    let b1 = map.get(1).expect("knight on B1");
    assert_eq!(vec![regular(1, 16), regular(1, 18)], b1.moves);
}

#[test]
fn rays_stop_at_first_blocker() {
    // a rook on D4 with an own pawn on D6, an enemy pawn on D2 and an
    // enemy rook on G4: each ray stops exactly at the first piece, which
    // is kept only when it is an enemy
    let table = ZobristTable::new();
    let board = board_with(&[(27, 'r'), (43, 'p'), (11, 'P'), (30, 'R'), (7, 'k'), (60, 'K')]);
    let pos = Position::from_uci(&req(&board, "W"), &table).expect("decodes");
    let map = pos.legal_continuations(&table);
    let rook = map.get(27).expect("rook on D4");
    let mut mask: u64 = 0;
    for mv in rook.moves.iter() {
        mask |= 1u64 << mv.to;
    }
    let expected: u64 = (1u64 << 35)  // D5, below the own pawn on D6
        | (1u64 << 19) | (1u64 << 11)  // D3 and the capture on D2
        | (1u64 << 26) | (1u64 << 25) | (1u64 << 24)  // C4, B4, A4
        | (1u64 << 28) | (1u64 << 29) | (1u64 << 30);  // E4, F4, the capture on G4
    assert_eq!(expected, mask);
}

#[test]
fn castling_depends_on_rights_path_and_safety() {
    let table = ZobristTable::new();
    // king and rook at home, path clear, nothing attacks E1, F1 or G1
    let base = board_with(&[(4, 'k'), (7, 'r'), (60, 'K')]);
    let pos = Position::from_uci(&req(&base, "W"), &table).expect("decodes");
    let king = pos.legal_continuations(&table);
    let king_moves = king.get(4).expect("king on E1");
    assert!(king_moves.moves.iter().any(|m| m.sp_move_type == SpecialMoveType::ShortCastle));

    // clearing the rights bit withdraws the castle
    let mut no_rights = pos;
    no_rights.position_info.castling_rights = 0;
    no_rights.compute_zobrist_hash(&table);
    let map = no_rights.legal_continuations(&table);
    let km = map.get(4).expect("king on E1");
    assert!(!km.moves.iter().any(|m| m.sp_move_type == SpecialMoveType::ShortCastle));

    // a piece on the path withdraws the castle
    let blocked = board_with(&[(4, 'k'), (7, 'r'), (5, 'b'), (60, 'K')]);
    let bpos = Position::from_uci(&req(&blocked, "W"), &table).expect("decodes");
    let map = bpos.legal_continuations(&table);
    let km = map.get(4).expect("king on E1");
    assert!(!km.moves.iter().any(|m| m.sp_move_type == SpecialMoveType::ShortCastle));

    // an attacked crossing square withdraws the castle
    let attacked = board_with(&[(4, 'k'), (7, 'r'), (61, 'R'), (60, 'K')]);
    let apos = Position::from_uci(&req(&attacked, "W"), &table).expect("decodes");
    let map = apos.legal_continuations(&table);
    let km = map.get(4).expect("king on E1");
    assert!(!km.moves.iter().any(|m| m.sp_move_type == SpecialMoveType::ShortCastle));
}

#[test]
fn pinned_piece_moves_are_filtered() {
    // a white rook on E2 is pinned by the black rook on E8: stepping off
    // the file is pseudo-legal but never legal
    let table = ZobristTable::new();
    let board = board_with(&[(4, 'k'), (12, 'r'), (60, 'R'), (63, 'K')]);
    let pos = Position::from_uci(&req(&board, "W"), &table).expect("decodes");
    let pseudo = pos.pseudolegal_continuations();
    let rook_pseudo = pseudo.get(12).expect("rook on E2");
    assert!(rook_pseudo.moves.iter().any(|m| m.to == 13));
    let legal = pos.legal_continuations(&table);
    let rook_legal = legal.get(12).expect("rook on E2");
    assert!(!rook_legal.moves.iter().any(|m| m.to == 13));
    // along the file the rook still moves
    assert!(rook_legal.moves.iter().any(|m| m.to == 20));
}

#[test]
fn far_rank_pawn_moves_become_promotions() {
    let table = ZobristTable::new();
    let board = board_with(&[(48, 'p'), (4, 'k'), (63, 'K')]);
    let pos = Position::from_uci(&req(&board, "W"), &table).expect("decodes");
    let map = pos.legal_continuations(&table);
    let pawn = map.get(48).expect("pawn on A7");
    assert_eq!(4, pawn.moves.len());
    let kinds: Vec<SpecialMoveType> = pawn.moves.iter().map(|m| m.sp_move_type).collect();
    assert_eq!(
        vec![
            SpecialMoveType::PromotionToBishop,
            SpecialMoveType::PromotionToKnight,
            SpecialMoveType::PromotionToRook,
            SpecialMoveType::PromotionToQueen,
        ],
        kinds
    );
    assert!(pawn.moves.iter().all(|m| m.to == 56));
}

#[test]
fn double_advance_enables_en_passant() {
    let table = ZobristTable::new();
    // a black pawn on B4 may take the white A-pawn in passing after its
    // double advance
    let board = board_with(&[(8, 'p'), (25, 'P'), (4, 'k'), (60, 'K')]);
    let pos = Position::from_uci(&req(&board, "W"), &table).expect("decodes");
    let after = pos.make_move(
        &regular(8, 24),
        ChessPiece { typpe: PieceType::Pawn, color: PlayerColor::White },
        &table,
    );
    assert_eq!(1, after.position_info.black_usable_en_passant);
    let map = after.legal_continuations(&table);
    let pawn = map.get(25).expect("pawn on B4");
    let ep: Vec<&BitboardMove> = pawn
        .moves
        .iter()
        .filter(|m| m.sp_move_type == SpecialMoveType::EnPassantLeft)
        .collect();
    assert_eq!(1, ep.len());
    assert_eq!(16, ep[0].to);
    // taking in passing removes the passed pawn
    let taken = after.make_move(
        ep[0],
        ChessPiece { typpe: PieceType::Pawn, color: PlayerColor::Black },
        &table,
    );
    assert_eq!(0, taken.white.pawns);
    assert_eq!(1u64 << 16, taken.black.pawns);
    let mut audit = taken;
    audit.compute_zobrist_hash(&table);
    assert_eq!(audit.position_info.zobrist_hash, taken.position_info.zobrist_hash);
}

#[test]
fn decode_rejects_bad_input() {
    let table = ZobristTable::new();
    assert_eq!(
        Err(DecodeError::WrongBoardLength),
        Position::decode_pieces("rnbq").map(|_| ())
    );
    let mut bad = String::from(STANDARD_LAYOUT);
    bad.replace_range(0..1, "x");
    assert_eq!(
        Err(DecodeError::UnknownPieceChar),
        Position::decode_pieces(&bad).map(|_| ())
    );
    match Position::from_uci(&req(STANDARD_LAYOUT, "?"), &table) {
        Err(DecodeError::UnknownSideToMove) => {},
        _ => panic!("an unknown side token must be rejected"),
    }
    assert!(Position::from_uci(&req(STANDARD_LAYOUT, "B"), &table).is_ok());
}

#[test]
fn check_detection_sees_attacked_king() {
    let table = ZobristTable::new();
    let board = board_with(&[(4, 'k'), (60, 'R'), (63, 'K')]);
    let pos = Position::from_uci(&req(&board, "W"), &table).expect("decodes");
    assert!(pos.can_king_be_captured(MoveGenPerspective::MovingPlayer));
    assert!(!pos.can_king_be_captured(MoveGenPerspective::WaitingPlayer));
}
