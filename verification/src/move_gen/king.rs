use vstd::prelude::*;

use super::{BitboardMoveGenerator, MoveGenOpts, MoveGenPerspective, MovesMap};
use crate::bitboard::{BitB64, PlayerBitboard};
use crate::bits::{bit64, bit8, lemma_bit64_ops, lemma_bit8_ops, BitArraySize};
use crate::chess::{PieceType, PlayerColor};
use crate::position::{Position, PositionInfo};
use crate::rules::{
    attacked_by, home_rank, king_home, king_shape, kind_attacks, long_castle_ok, persp_board,
    piece_covers, short_castle_ok, square_at, valid_square, Board,
};

verus! {

/// Whether a piece stands between king and rook on the long-castle side:
/// B, C and D of the home rank.
pub fn long_castle_not_blocked_by_pieces(
    ally_pieces: &PlayerBitboard,
    enemy_pieces: &PlayerBitboard,
    p_to_move: PlayerColor,
) -> (r: bool)
    ensures
        ({
            let occ = ally_pieces.all_spec() | enemy_pieces.all_spec();
            let rk = home_rank(p_to_move);
            r == (bit64(occ, square_at(rk, 1) as u64) || bit64(occ, square_at(rk, 2) as u64)
                || bit64(occ, square_at(rk, 3) as u64))
        }),
{
    let mask: u64 = match p_to_move {
        PlayerColor::White => (1u64 << 1u64) | (1u64 << 2u64) | (1u64 << 3u64),
        PlayerColor::Black => (1u64 << 57u64) | (1u64 << 58u64) | (1u64 << 59u64),
    };
    let occ = ally_pieces.all_pieces() | enemy_pieces.all_pieces();
    let r = occ & mask != 0;
    proof {
        lemma_bit64_ops();
        let rk = home_rank(p_to_move);
        if occ & mask != 0 {
            crate::bits::lemma_nonzero_has_bit(occ & mask);
            let i = choose|i: u64| i < 64 && bit64(occ & mask, i);
            assert(bit64(occ, i) && bit64(mask, i));
            assert(i == square_at(rk, 1) as u64 || i == square_at(rk, 2) as u64 || i == square_at(
                rk,
                3,
            ) as u64);
        } else {
            assert(!bit64(occ & mask, square_at(rk, 1) as u64));
            assert(!bit64(occ & mask, square_at(rk, 2) as u64));
            assert(!bit64(occ & mask, square_at(rk, 3) as u64));
            assert(bit64(mask, square_at(rk, 1) as u64));
            assert(bit64(mask, square_at(rk, 2) as u64));
            assert(bit64(mask, square_at(rk, 3) as u64));
        }
    }
    r
}

/// Whether a piece stands between king and rook on the short-castle side:
/// F and G of the home rank.
pub fn short_castle_not_blocked_by_pieces(
    ally_pieces: &PlayerBitboard,
    enemy_pieces: &PlayerBitboard,
    p_to_move: PlayerColor,
) -> (r: bool)
    ensures
        ({
            let occ = ally_pieces.all_spec() | enemy_pieces.all_spec();
            let rk = home_rank(p_to_move);
            r == (bit64(occ, square_at(rk, 5) as u64) || bit64(occ, square_at(rk, 6) as u64))
        }),
{
    let mask: u64 = match p_to_move {
        PlayerColor::White => (1u64 << 5u64) | (1u64 << 6u64),
        PlayerColor::Black => (1u64 << 61u64) | (1u64 << 62u64),
    };
    let occ = ally_pieces.all_pieces() | enemy_pieces.all_pieces();
    let r = occ & mask != 0;
    proof {
        lemma_bit64_ops();
        let rk = home_rank(p_to_move);
        if occ & mask != 0 {
            crate::bits::lemma_nonzero_has_bit(occ & mask);
            let i = choose|i: u64| i < 64 && bit64(occ & mask, i);
            assert(bit64(occ, i) && bit64(mask, i));
            assert(i == square_at(rk, 5) as u64 || i == square_at(rk, 6) as u64);
        } else {
            assert(!bit64(occ & mask, square_at(rk, 5) as u64));
            assert(!bit64(occ & mask, square_at(rk, 6) as u64));
            assert(bit64(mask, square_at(rk, 5) as u64));
            assert(bit64(mask, square_at(rk, 6) as u64));
        }
    }
    r
}

/// Where the king lands on a short castle: G of the home rank.
pub fn get_short_castle_sq_id(p_to_move: PlayerColor) -> (r: u8)
    ensures
        r as int == square_at(home_rank(p_to_move), 6),
{
    match p_to_move {
        PlayerColor::White => 6,
        PlayerColor::Black => 62,
    }
}

/// Where the king lands on a long castle: C of the home rank.
pub fn get_long_castle_sq_id(p_to_move: PlayerColor) -> (r: u8)
    ensures
        r as int == square_at(home_rank(p_to_move), 2),
{
    match p_to_move {
        PlayerColor::White => 2,
        PlayerColor::Black => 58,
    }
}

/// Short castling is offered exactly when the rights bit is set, king and
/// rook stand on their home squares, the path is clear, and none of the
/// origin, crossing and landing squares is attacked.
pub fn short_castle_valid(
    ally_pieces: &PlayerBitboard,
    enemy_pieces: &PlayerBitboard,
    p_to_move: PlayerColor,
    pos_info: &PositionInfo,
    enemy_attacked_squares: BitB64,
    Ghost(b): Ghost<Board>,
) -> (r: bool)
    requires
        b.side(p_to_move) == *ally_pieces,
        b.side(p_to_move.other_spec()) == *enemy_pieces,
        b.castling_rights == pos_info.castling_rights,
        forall|t: int|
            0 <= t < 64 ==> (bit64(enemy_attacked_squares, t as u64) == #[trigger] attacked_by(
                b,
                p_to_move.other_spec(),
                t,
            )),
    ensures
        r == short_castle_ok(b, p_to_move),
{
    proof {
        lemma_bit64_ops();
        lemma_bit8_ops();
        crate::bits::lemma_and_or_comm(b.white.all_spec(), b.black.all_spec());
    }
    let rk_base: u8 = match p_to_move {
        PlayerColor::White => 0,
        PlayerColor::Black => 56,
    };
    if !pos_info.has_short_castling_rights(p_to_move) {
        false
    } else if ally_pieces.king & (1u64 << ((rk_base + 4) as u64)) == 0 {
        false
    } else if ally_pieces.rooks & (1u64 << ((rk_base + 7) as u64)) == 0 {
        false
    } else if short_castle_not_blocked_by_pieces(ally_pieces, enemy_pieces, p_to_move) {
        false
    } else if enemy_attacked_squares & ((1u64 << ((rk_base + 4) as u64)) | (1u64 << ((rk_base + 5)
        as u64)) | (1u64 << ((rk_base + 6) as u64))) != 0 {
        proof {
            let m = enemy_attacked_squares & ((1u64 << ((rk_base + 4) as u64)) | (1u64 << ((rk_base
                + 5) as u64)) | (1u64 << ((rk_base + 6) as u64)));
            crate::bits::lemma_nonzero_has_bit(m);
        }
        false
    } else {
        proof {
            let rk = home_rank(p_to_move);
            assert(!bit64(enemy_attacked_squares, square_at(rk, 4) as u64)) by {
                assert(bit64(
                    enemy_attacked_squares & ((1u64 << ((rk_base + 4) as u64)) | (1u64 << ((rk_base
                        + 5) as u64)) | (1u64 << ((rk_base + 6) as u64))),
                    square_at(rk, 4) as u64,
                ) == false);
            }
            assert(!bit64(enemy_attacked_squares, square_at(rk, 5) as u64)) by {
                assert(bit64(
                    enemy_attacked_squares & ((1u64 << ((rk_base + 4) as u64)) | (1u64 << ((rk_base
                        + 5) as u64)) | (1u64 << ((rk_base + 6) as u64))),
                    square_at(rk, 5) as u64,
                ) == false);
            }
            assert(!bit64(enemy_attacked_squares, square_at(rk, 6) as u64)) by {
                assert(bit64(
                    enemy_attacked_squares & ((1u64 << ((rk_base + 4) as u64)) | (1u64 << ((rk_base
                        + 5) as u64)) | (1u64 << ((rk_base + 6) as u64))),
                    square_at(rk, 6) as u64,
                ) == false);
            }
        }
        true
    }
}

/// Long castling, symmetrically: rights, home squares, the clear B-C-D
/// path, and safe C, D and origin squares.
pub fn long_castle_valid(
    ally_pieces: &PlayerBitboard,
    enemy_pieces: &PlayerBitboard,
    p_to_move: PlayerColor,
    pos_info: &PositionInfo,
    enemy_attacked_squares: BitB64,
    Ghost(b): Ghost<Board>,
) -> (r: bool)
    requires
        b.side(p_to_move) == *ally_pieces,
        b.side(p_to_move.other_spec()) == *enemy_pieces,
        b.castling_rights == pos_info.castling_rights,
        forall|t: int|
            0 <= t < 64 ==> (bit64(enemy_attacked_squares, t as u64) == #[trigger] attacked_by(
                b,
                p_to_move.other_spec(),
                t,
            )),
    ensures
        r == long_castle_ok(b, p_to_move),
{
    proof {
        lemma_bit64_ops();
        lemma_bit8_ops();
        crate::bits::lemma_and_or_comm(b.white.all_spec(), b.black.all_spec());
    }
    let rk_base: u8 = match p_to_move {
        PlayerColor::White => 0,
        PlayerColor::Black => 56,
    };
    if !pos_info.has_long_castling_rights(p_to_move) {
        false
    } else if ally_pieces.king & (1u64 << ((rk_base + 4) as u64)) == 0 {
        false
    } else if ally_pieces.rooks & (1u64 << (rk_base as u64)) == 0 {
        false
    } else if long_castle_not_blocked_by_pieces(ally_pieces, enemy_pieces, p_to_move) {
        false
    } else if enemy_attacked_squares & ((1u64 << ((rk_base + 2) as u64)) | (1u64 << ((rk_base + 3)
        as u64)) | (1u64 << ((rk_base + 4) as u64))) != 0 {
        proof {
            let m = enemy_attacked_squares & ((1u64 << ((rk_base + 2) as u64)) | (1u64 << ((rk_base
                + 3) as u64)) | (1u64 << ((rk_base + 4) as u64)));
            crate::bits::lemma_nonzero_has_bit(m);
        }
        false
    } else {
        proof {
            let rk = home_rank(p_to_move);
            assert(!bit64(enemy_attacked_squares, square_at(rk, 2) as u64)) by {
                assert(bit64(
                    enemy_attacked_squares & ((1u64 << ((rk_base + 2) as u64)) | (1u64 << ((rk_base
                        + 3) as u64)) | (1u64 << ((rk_base + 4) as u64))),
                    square_at(rk, 2) as u64,
                ) == false);
            }
            assert(!bit64(enemy_attacked_squares, square_at(rk, 3) as u64)) by {
                assert(bit64(
                    enemy_attacked_squares & ((1u64 << ((rk_base + 2) as u64)) | (1u64 << ((rk_base
                        + 3) as u64)) | (1u64 << ((rk_base + 4) as u64))),
                    square_at(rk, 3) as u64,
                ) == false);
            }
            assert(!bit64(enemy_attacked_squares, square_at(rk, 4) as u64)) by {
                assert(bit64(
                    enemy_attacked_squares & ((1u64 << ((rk_base + 2) as u64)) | (1u64 << ((rk_base
                        + 3) as u64)) | (1u64 << ((rk_base + 4) as u64))),
                    square_at(rk, 4) as u64,
                ) == false);
            }
        }
        true
    }
}

/// The step destinations of a single king on `id`: the eight neighbors in
/// coordinates, ally squares excluded.
pub(crate) fn compute_single_king_moves(
    ally_pieces: &PlayerBitboard,
    enemy_pieces: &PlayerBitboard,
    id: u8,
) -> (r: BitB64)
    requires
        id < 64,
    ensures
        forall|t: int|
            0 <= t < 64 ==> (bit64(r, t as u64) == (#[trigger] king_shape(id as int, t) && !bit64(
                ally_pieces.all_spec(),
                t as u64,
            ))),
{
    let ally_all = ally_pieces.all_pieces();
    let mut result: u64 = 0;
    proof {
        lemma_bit64_ops();
    }
    let i0: u8 = id / 8;
    let j0: u8 = id % 8;
    proof {
        assert(0 <= (i0 as int) < 8 && 0 <= (j0 as int) < 8) by (nonlinear_arith)
            requires
                i0 as int == (id as int) / 8 && j0 as int == (id as int) % 8 && 0 <= id < 64,
        ;
    }
    for t in 0..64u8
        invariant
            ally_all == ally_pieces.all_spec(),
            i0 as int == crate::rules::rank_of(id as int),
            j0 as int == crate::rules::file_of(id as int),
            0 <= i0 < 8,
            0 <= j0 < 8,
            forall|u: int|
                0 <= u < t ==> (bit64(result, u as u64) == (#[trigger] king_shape(id as int, u)
                    && !bit64(ally_all, u as u64))),
            forall|u: int| t <= u < 64 ==> !(#[trigger] bit64(result, u as u64)),
    {
        proof {
            lemma_bit64_ops();
        }
        let ti: u8 = t / 8;
        let tj: u8 = t % 8;
        proof {
            assert(ti as int == crate::rules::rank_of(t as int) && tj as int == crate::rules::file_of(
                t as int,
            ));
            assert(0 <= (ti as int) < 8 && 0 <= (tj as int) < 8) by (nonlinear_arith)
                requires
                    ti as int == (t as int) / 8 && tj as int == (t as int) % 8 && 0 <= t < 64,
            ;
        }
        let di: i32 = (ti as i32) - (i0 as i32);
        let dj: i32 = (tj as i32) - (j0 as i32);
        let shape: bool = di >= -1 && di <= 1 && dj >= -1 && dj <= 1 && t != id;
        proof {
            let d = di as int;
            let e = dj as int;
            assert((-1 <= d <= 1) == (d * d <= 1)) by (nonlinear_arith)
                requires
                    -7 <= d <= 7,
            ;
            assert((-1 <= e <= 1) == (e * e <= 1)) by (nonlinear_arith)
                requires
                    -7 <= e <= 7,
            ;
        }
        if shape && (ally_all & (1u64 << (t as u64))) == 0 {
            result = result | (1u64 << (t as u64));
        }
        proof {
            assert(bit64(result, t as u64) == (king_shape(id as int, t as int) && !bit64(
                ally_all,
                t as u64,
            )));
        }
    }
    result
}

/// The union of the step destinations of every king square of one side.
pub fn compute_raw_king_attacking_moves_internal(
    ally_pieces: &PlayerBitboard,
    enemy_pieces: &PlayerBitboard,
) -> (r: BitB64)
    ensures
        forall|t: int|
            0 <= t < 64 ==> ((#[trigger] bit64(r, t as u64)) == exists|s: int|
                0 <= s < 64 && bit64(ally_pieces.king, s as u64) && #[trigger] king_shape(s, t)
                    && !bit64(ally_pieces.all_spec(), t as u64)),
{
    let mut result: u64 = 0;
    proof {
        lemma_bit64_ops();
    }
    for s in 0..64u8
        invariant
            forall|t: int|
                0 <= t < 64 ==> ((#[trigger] bit64(result, t as u64)) == exists|sp: int|
                    0 <= sp < s && bit64(ally_pieces.king, sp as u64) && #[trigger] king_shape(
                        sp,
                        t,
                    ) && !bit64(ally_pieces.all_spec(), t as u64)),
    {
        proof {
            lemma_bit64_ops();
        }
        let has_piece = ally_pieces.king & (1u64 << (s as u64)) != 0;
        if has_piece {
            let ghost old_result = result;
            let single = compute_single_king_moves(ally_pieces, enemy_pieces, s);
            result = result | single;
            proof {
                assert forall|t: int| 0 <= t < 64 implies ((#[trigger] bit64(result, t as u64))
                    == exists|sp: int| 0 <= sp < s + 1 && bit64(ally_pieces.king, sp as u64) && #[trigger] king_shape(sp, t) && !bit64(ally_pieces.all_spec(), t as u64)) by {
                    if bit64(result, t as u64) {
                        if !bit64(old_result, t as u64) {
                            assert(bit64(single, t as u64) == (king_shape(s as int, t) && !bit64(ally_pieces.all_spec(), t as u64)));
                            assert(bit64(single, t as u64));
                            assert(king_shape(s as int, t) && bit64(ally_pieces.king, s as u64) && !bit64(ally_pieces.all_spec(), t as u64));
                        } else {
                            let sp = choose|sp: int| 0 <= sp < s && bit64(ally_pieces.king, sp as u64) && #[trigger] king_shape(sp, t) && !bit64(ally_pieces.all_spec(), t as u64);
                            assert(0 <= sp < s + 1);
                        }
                    }
                    if exists|sp: int| 0 <= sp < s + 1 && bit64(ally_pieces.king, sp as u64) && #[trigger] king_shape(sp, t) && !bit64(ally_pieces.all_spec(), t as u64) {
                        let sp = choose|sp: int| 0 <= sp < s + 1 && bit64(ally_pieces.king, sp as u64) && #[trigger] king_shape(sp, t) && !bit64(ally_pieces.all_spec(), t as u64);
                        if sp < s {
                            assert(bit64(old_result, t as u64));
                        } else {
                            assert(bit64(single, t as u64));
                        }
                        assert(bit64(result, t as u64));
                    }
                }
            }
        } else {
            proof {
                assert forall|t: int| 0 <= t < 64 implies ((#[trigger] bit64(result, t as u64))
                    == exists|sp: int| 0 <= sp < s + 1 && bit64(ally_pieces.king, sp as u64) && #[trigger] king_shape(sp, t) && !bit64(ally_pieces.all_spec(), t as u64)) by {
                    if exists|sp: int| 0 <= sp < s + 1 && bit64(ally_pieces.king, sp as u64) && #[trigger] king_shape(sp, t) && !bit64(ally_pieces.all_spec(), t as u64) {
                        let sp = choose|sp: int| 0 <= sp < s + 1 && bit64(ally_pieces.king, sp as u64) && #[trigger] king_shape(sp, t) && !bit64(ally_pieces.all_spec(), t as u64);
                        assert(sp < s);
                    }
                }
            }
        }
    }
    result
}

pub struct KingBitboardMoveGenerator {}

impl BitboardMoveGenerator for KingBitboardMoveGenerator {
    open spec fn kind() -> PieceType {
        PieceType::King
    }

    fn get_raw_attacking_moves(pos: &Position, opts: MoveGenOpts) -> (r: BitB64) {
        let (ally_pieces, enemy_pieces) = match opts.perspective {
            MoveGenPerspective::MovingPlayer => (pos.pieces_to_move(), pos.enemy_pieces()),
            MoveGenPerspective::WaitingPlayer => (pos.enemy_pieces(), pos.pieces_to_move()),
        };
        let r = compute_raw_king_attacking_moves_internal(ally_pieces, enemy_pieces);
        proof {
            let b = pos.board_of();
            let c = persp_board(b, opts.perspective.is_waiting()).to_move();
            assert(*ally_pieces == b.side(c));
            assert forall|t: int| 0 <= t < 64 implies (bit64(r, t as u64)
                == #[trigger] kind_attacks(b, c, PieceType::King, t)) by {
                if bit64(r, t as u64) {
                    let s = choose|s: int|
                        0 <= s < 64 && bit64(ally_pieces.king, s as u64) && #[trigger] king_shape(
                            s,
                            t,
                        ) && !bit64(ally_pieces.all_spec(), t as u64);
                    assert(piece_covers(b, c, PieceType::King, s, t));
                }
                if kind_attacks(b, c, PieceType::King, t) {
                    let s = choose|s: int|
                        valid_square(s) && b.side(c).has(PieceType::King, s as u64)
                            && #[trigger] piece_covers(b, c, PieceType::King, s, t);
                    assert(bit64(ally_pieces.king, s as u64) && king_shape(s, t));
                }
            }
        }
        r
    }

    fn get_attacking_moves(pos: &Position, opts: MoveGenOpts) -> (r: MovesMap) {
        super::build_attack_map(pos, opts, PieceType::King)
    }

    fn generate_moves(pos: &Position, opts: MoveGenOpts) -> (r: MovesMap) {
        super::build_kind_map(pos, opts, PieceType::King)
    }
}

/// The kings' pseudo-legal move map, as a free function.
pub fn generate_king_moves(pos: &Position, opts: MoveGenOpts) -> (r: MovesMap)
    requires
        pos.wf_pos(),
    ensures
        r@ == crate::rules::kind_map(
            crate::rules::persp_board(pos.board_of(), opts.perspective.is_waiting()),
            PieceType::King,
        ),
        r.wf(),
{
    KingBitboardMoveGenerator::generate_moves(pos, opts)
}


} // verus!
