use vstd::prelude::*;

use super::{BitboardMoveGenerator, MoveGenOpts, MovesMap};
use crate::bitboard::{BitB64, PlayerBitboard};
use crate::bits::{bit64, lemma_bit64_ops};
use crate::chess::PieceType;
use crate::position::Position;
use crate::rules::{kind_attacks, kind_map, knight_shape, persp_board};

verus! {

/// The destinations of a single knight on `id`: every square a rank/file
/// knight offset reaches without leaving the board, ally squares excluded.
/// Edges are respected in coordinates, never by shifting bits, which would
/// wrap across ranks.
pub fn compute_single_knight_attacking_moves(
    ally_pieces: &PlayerBitboard,
    enemy_pieces: &PlayerBitboard,
    id: u8,
) -> (r: BitB64)
    requires
        id < 64,
    ensures
        forall|t: int|
            0 <= t < 64 ==> (bit64(r, t as u64) == (#[trigger] knight_shape(id as int, t) && !bit64(
                ally_pieces.all_spec(),
                t as u64,
            ))),
{
    let ally_all = ally_pieces.all_pieces();
    let mut result: u64 = 0;
    proof {
        lemma_bit64_ops();
    }
    let i0: u8 = id / 8;
    let j0: u8 = id % 8;
    proof {
        assert(0 <= (i0 as int) < 8 && 0 <= (j0 as int) < 8) by (nonlinear_arith)
            requires
                i0 as int == (id as int) / 8 && j0 as int == (id as int) % 8 && 0 <= id < 64,
        ;
    }
    for t in 0..64u8
        invariant
            ally_all == ally_pieces.all_spec(),
            i0 as int == crate::rules::rank_of(id as int),
            j0 as int == crate::rules::file_of(id as int),
            0 <= i0 < 8,
            0 <= j0 < 8,
            forall|u: int|
                0 <= u < t ==> (bit64(result, u as u64) == (#[trigger] knight_shape(id as int, u)
                    && !bit64(ally_all, u as u64))),
            forall|u: int| t <= u < 64 ==> !(#[trigger] bit64(result, u as u64)),
    {
        proof {
            lemma_bit64_ops();
        }
        let ti: u8 = t / 8;
        let tj: u8 = t % 8;
        proof {
            assert(ti as int == crate::rules::rank_of(t as int) && tj as int == crate::rules::file_of(
                t as int,
            ));
            assert(0 <= (ti as int) < 8 && 0 <= (tj as int) < 8) by (nonlinear_arith)
                requires
                    ti as int == (t as int) / 8 && tj as int == (t as int) % 8 && 0 <= t < 64,
            ;
        }
        let di: i32 = (ti as i32) - (i0 as i32);
        let dj: i32 = (tj as i32) - (j0 as i32);
        let shape: bool = ((di == 1 || di == -1) && (dj == 2 || dj == -2)) || ((di == 2 || di
            == -2) && (dj == 1 || dj == -1));
        proof {
            let d = di as int;
            let e = dj as int;
            assert((((d == 1 || d == -1) && (e == 2 || e == -2)) || ((d == 2 || d == -2) && (e == 1
                || e == -1))) == (d * d + e * e == 5)) by (nonlinear_arith)
                requires
                    -7 <= d <= 7,
                    -7 <= e <= 7,
            ;
        }
        if shape && (ally_all & (1u64 << (t as u64))) == 0 {
            result = result | (1u64 << (t as u64));
        }
        proof {
            assert(bit64(result, t as u64) == (knight_shape(id as int, t as int) && !bit64(
                ally_all,
                t as u64,
            )));
        }
    }
    result
}

/// The union of every knight's destinations for one side.
pub fn compute_raw_knight_attacking_moves_internal(
    ally_pieces: &PlayerBitboard,
    enemy_pieces: &PlayerBitboard,
) -> (r: BitB64)
    ensures
        forall|t: int|
            0 <= t < 64 ==> ((#[trigger] bit64(r, t as u64)) == exists|s: int|
                0 <= s < 64 && bit64(ally_pieces.knights, s as u64) && #[trigger] knight_shape(s, t)
                    && !bit64(ally_pieces.all_spec(), t as u64)),
{
    let mut result: u64 = 0;
    proof {
        lemma_bit64_ops();
    }
    for s in 0..64u8
        invariant
            forall|t: int|
                0 <= t < 64 ==> ((#[trigger] bit64(result, t as u64)) == exists|sp: int|
                    0 <= sp < s && bit64(ally_pieces.knights, sp as u64) && #[trigger] knight_shape(
                        sp,
                        t,
                    ) && !bit64(ally_pieces.all_spec(), t as u64)),
    {
        proof {
            lemma_bit64_ops();
        }
        let has_piece = ally_pieces.knights & (1u64 << (s as u64)) != 0;
        if has_piece {
            let ghost old_result = result;
            let single = compute_single_knight_attacking_moves(ally_pieces, enemy_pieces, s);
            result = result | single;
            proof {
                assert forall|t: int| 0 <= t < 64 implies ((#[trigger] bit64(result, t as u64))
                    == exists|sp: int| 0 <= sp < s + 1 && bit64(ally_pieces.knights, sp as u64) && #[trigger] knight_shape(sp, t) && !bit64(ally_pieces.all_spec(), t as u64)) by {
                    if bit64(result, t as u64) {
                        if !bit64(old_result, t as u64) {
                            assert(bit64(single, t as u64) == (knight_shape(s as int, t) && !bit64(ally_pieces.all_spec(), t as u64)));
                            assert(bit64(single, t as u64));
                            assert(knight_shape(s as int, t) && bit64(ally_pieces.knights, s as u64) && !bit64(ally_pieces.all_spec(), t as u64));
                        } else {
                            let sp = choose|sp: int| 0 <= sp < s && bit64(ally_pieces.knights, sp as u64) && #[trigger] knight_shape(sp, t) && !bit64(ally_pieces.all_spec(), t as u64);
                            assert(0 <= sp < s + 1);
                        }
                    }
                    if exists|sp: int| 0 <= sp < s + 1 && bit64(ally_pieces.knights, sp as u64) && #[trigger] knight_shape(sp, t) && !bit64(ally_pieces.all_spec(), t as u64) {
                        let sp = choose|sp: int| 0 <= sp < s + 1 && bit64(ally_pieces.knights, sp as u64) && #[trigger] knight_shape(sp, t) && !bit64(ally_pieces.all_spec(), t as u64);
                        if sp < s {
                            assert(bit64(old_result, t as u64));
                        } else {
                            assert(bit64(single, t as u64));
                        }
                        assert(bit64(result, t as u64));
                    }
                }
            }
        } else {
            proof {
                assert forall|t: int| 0 <= t < 64 implies ((#[trigger] bit64(result, t as u64))
                    == exists|sp: int| 0 <= sp < s + 1 && bit64(ally_pieces.knights, sp as u64) && #[trigger] knight_shape(sp, t) && !bit64(ally_pieces.all_spec(), t as u64)) by {
                    if exists|sp: int| 0 <= sp < s + 1 && bit64(ally_pieces.knights, sp as u64) && #[trigger] knight_shape(sp, t) && !bit64(ally_pieces.all_spec(), t as u64) {
                        let sp = choose|sp: int| 0 <= sp < s + 1 && bit64(ally_pieces.knights, sp as u64) && #[trigger] knight_shape(sp, t) && !bit64(ally_pieces.all_spec(), t as u64);
                        assert(sp < s);
                    }
                }
            }
        }
    }
    result
}

pub struct KnightBitboardMoveGenerator {}

impl BitboardMoveGenerator for KnightBitboardMoveGenerator {
    open spec fn kind() -> PieceType {
        PieceType::Knight
    }

    fn get_raw_attacking_moves(pos: &Position, opts: MoveGenOpts) -> (r: BitB64) {
        let (ally_pieces, enemy_pieces) = match opts.perspective {
            super::MoveGenPerspective::MovingPlayer => (pos.pieces_to_move(), pos.enemy_pieces()),
            super::MoveGenPerspective::WaitingPlayer => (pos.enemy_pieces(), pos.pieces_to_move()),
        };
        let r = compute_raw_knight_attacking_moves_internal(ally_pieces, enemy_pieces);
        proof {
            let b = pos.board_of();
            let c = persp_board(b, opts.perspective.is_waiting()).to_move();
            assert(*ally_pieces == b.side(c));
            assert forall|t: int| 0 <= t < 64 implies (bit64(r, t as u64)
                == #[trigger] kind_attacks(b, c, PieceType::Knight, t)) by {
                if bit64(r, t as u64) {
                    let s = choose|s: int|
                        0 <= s < 64 && bit64(ally_pieces.knights, s as u64)
                            && #[trigger] knight_shape(s, t) && !bit64(
                            ally_pieces.all_spec(),
                            t as u64,
                        );
                    assert(b.side(c).has(PieceType::Knight, s as u64));
                    assert(crate::rules::piece_covers(b, c, PieceType::Knight, s, t));
                }
                if kind_attacks(b, c, PieceType::Knight, t) {
                    let s = choose|s: int|
                        crate::rules::valid_square(s) && b.side(c).has(PieceType::Knight, s as u64)
                            && #[trigger] crate::rules::piece_covers(b, c, PieceType::Knight, s, t);
                    assert(bit64(ally_pieces.knights, s as u64) && knight_shape(s, t));
                }
            }
        }
        r
    }

    fn get_attacking_moves(pos: &Position, opts: MoveGenOpts) -> (r: MovesMap) {
        super::build_attack_map(pos, opts, PieceType::Knight)
    }

    fn generate_moves(pos: &Position, opts: MoveGenOpts) -> (r: MovesMap) {
        super::build_kind_map(pos, opts, PieceType::Knight)
    }
}

/// The knights' pseudo-legal move map, as a free function.
pub fn generate_knight_moves(pos: &Position, opts: MoveGenOpts) -> (r: MovesMap)
    requires
        pos.wf_pos(),
    ensures
        r@ == crate::rules::kind_map(
            crate::rules::persp_board(pos.board_of(), opts.perspective.is_waiting()),
            PieceType::Knight,
        ),
        r.wf(),
{
    KnightBitboardMoveGenerator::generate_moves(pos, opts)
}


} // verus!
