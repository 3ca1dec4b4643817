use vstd::prelude::*;

use super::internal::{cast_ray, get_ij_from_sq_id};
use super::{BitboardMoveGenerator, MoveGenOpts, MoveGenPerspective, MovesMap};
use crate::bitboard::{BitB64, PlayerBitboard};
use crate::bits::{bit64, lemma_bit64_ops};
use crate::chess::PieceType;
use crate::position::Position;
use crate::rules::{diag_attack, kind_attacks, persp_board, piece_covers, valid_square};

verus! {

/// The diagonal destinations of one slider on `id`: each of the four
/// diagonal rays, stopped exactly at its first blocker, which is kept only
/// when it is an enemy.
pub fn compute_single_bishop_attacking_moves(
    ally_pieces: &PlayerBitboard,
    enemy_pieces: &PlayerBitboard,
    id: u8,
) -> (r: BitB64)
    requires
        id < 64,
    ensures
        forall|t: int|
            0 <= t < 64 ==> (bit64(r, t as u64) == (#[trigger] diag_attack(
                ally_pieces.all_spec() | enemy_pieces.all_spec(),
                id as int,
                t,
            ) && !bit64(ally_pieces.all_spec(), t as u64))),
{
    let (i0, j0) = get_ij_from_sq_id(id as i8);
    proof {
        assert(crate::rules::square_at(i0 as int, j0 as int) == id as int);
        lemma_bit64_ops();
    }
    let r1 = cast_ray(ally_pieces, enemy_pieces, i0, j0, 1, 1);
    let r2 = cast_ray(ally_pieces, enemy_pieces, i0, j0, 1, -1);
    let r3 = cast_ray(ally_pieces, enemy_pieces, i0, j0, -1, 1);
    let r4 = cast_ray(ally_pieces, enemy_pieces, i0, j0, -1, -1);
    let r = ((r1 | r2) | r3) | r4;
    proof {
        lemma_bit64_ops();
        let ghost occ = ally_pieces.all_spec() | enemy_pieces.all_spec();
        let ghost ss = crate::rules::square_at(i0 as int, j0 as int);
        assert forall|t: int| 0 <= t < 64 implies (bit64(r, t as u64) == (#[trigger] diag_attack(
            occ,
            id as int,
            t,
        ) && !bit64(ally_pieces.all_spec(), t as u64))) by {
            assert(bit64(r1, t as u64) == (crate::rules::ray_attack(occ, ss, 1, 1, t)
                && !bit64(ally_pieces.all_spec(), t as u64)));
            assert(bit64(r2, t as u64) == (crate::rules::ray_attack(occ, ss, 1, -1, t)
                && !bit64(ally_pieces.all_spec(), t as u64)));
            assert(bit64(r3, t as u64) == (crate::rules::ray_attack(occ, ss, -1, 1, t)
                && !bit64(ally_pieces.all_spec(), t as u64)));
            assert(bit64(r4, t as u64) == (crate::rules::ray_attack(occ, ss, -1, -1, t)
                && !bit64(ally_pieces.all_spec(), t as u64)));
        }
    }
    r
}

/// The union of the diagonal destinations of every piece of `real_type`:
/// the bishop's pattern, reused by the queen.
pub fn compute_raw_attacking_moves_as_bishop_internal(
    ally_pieces: &PlayerBitboard,
    enemy_pieces: &PlayerBitboard,
    real_type: PieceType,
) -> (r: BitB64)
    ensures
        forall|t: int|
            0 <= t < 64 ==> ((#[trigger] bit64(r, t as u64)) == exists|s: int|
                0 <= s < 64 && bit64(ally_pieces.pieces_spec(real_type), s as u64)
                    && #[trigger] diag_attack(
                    ally_pieces.all_spec() | enemy_pieces.all_spec(),
                    s,
                    t,
                ) && !bit64(ally_pieces.all_spec(), t as u64)),
{
    let piece_mask = *ally_pieces.pieces(real_type);
    let mut result: u64 = 0;
    proof {
        lemma_bit64_ops();
    }
    for s in 0..64u8
        invariant
            piece_mask == ally_pieces.pieces_spec(real_type),
            forall|t: int|
                0 <= t < 64 ==> ((#[trigger] bit64(result, t as u64)) == exists|sp: int|
                    0 <= sp < s && bit64(ally_pieces.pieces_spec(real_type), sp as u64)
                        && #[trigger] diag_attack(
                        ally_pieces.all_spec() | enemy_pieces.all_spec(),
                        sp,
                        t,
                    ) && !bit64(ally_pieces.all_spec(), t as u64)),
    {
        proof {
            lemma_bit64_ops();
        }
        let has_piece = piece_mask & (1u64 << (s as u64)) != 0;
        if has_piece {
            let ghost old_result = result;
            let single = compute_single_bishop_attacking_moves(ally_pieces, enemy_pieces, s);
            result = result | single;
            proof {
                assert forall|t: int| 0 <= t < 64 implies ((#[trigger] bit64(result, t as u64))
                    == exists|sp: int| 0 <= sp < s + 1 && bit64(ally_pieces.pieces_spec(real_type), sp as u64) && #[trigger] diag_attack(ally_pieces.all_spec() | enemy_pieces.all_spec(), sp, t) && !bit64(ally_pieces.all_spec(), t as u64)) by {
                    if bit64(result, t as u64) {
                        if !bit64(old_result, t as u64) {
                            assert(bit64(single, t as u64) ==> diag_attack(ally_pieces.all_spec()
                                | enemy_pieces.all_spec(), s as int, t) && !bit64(
                                ally_pieces.all_spec(),
                                t as u64,
                            ));
                            assert(bit64(single, t as u64));
                            assert(diag_attack(ally_pieces.all_spec() | enemy_pieces.all_spec(), s as int, t) && bit64(ally_pieces.pieces_spec(real_type), s as u64) && !bit64(ally_pieces.all_spec(), t as u64));
                        } else {
                            let sp = choose|sp: int| 0 <= sp < s && bit64(ally_pieces.pieces_spec(real_type), sp as u64) && #[trigger] diag_attack(ally_pieces.all_spec() | enemy_pieces.all_spec(), sp, t) && !bit64(ally_pieces.all_spec(), t as u64);
                            assert(0 <= sp < s + 1);
                        }
                    }
                    if exists|sp: int| 0 <= sp < s + 1 && bit64(ally_pieces.pieces_spec(real_type), sp as u64) && #[trigger] diag_attack(ally_pieces.all_spec() | enemy_pieces.all_spec(), sp, t) && !bit64(ally_pieces.all_spec(), t as u64) {
                        let sp = choose|sp: int| 0 <= sp < s + 1 && bit64(ally_pieces.pieces_spec(real_type), sp as u64) && #[trigger] diag_attack(ally_pieces.all_spec() | enemy_pieces.all_spec(), sp, t) && !bit64(ally_pieces.all_spec(), t as u64);
                        if sp < s {
                            assert(bit64(old_result, t as u64));
                        } else {
                            assert(bit64(single, t as u64));
                        }
                        assert(bit64(result, t as u64));
                    }
                }
            }
        } else {
            proof {
                assert forall|t: int| 0 <= t < 64 implies ((#[trigger] bit64(result, t as u64))
                    == exists|sp: int| 0 <= sp < s + 1 && bit64(ally_pieces.pieces_spec(real_type), sp as u64) && #[trigger] diag_attack(ally_pieces.all_spec() | enemy_pieces.all_spec(), sp, t) && !bit64(ally_pieces.all_spec(), t as u64)) by {
                    if exists|sp: int| 0 <= sp < s + 1 && bit64(ally_pieces.pieces_spec(real_type), sp as u64) && #[trigger] diag_attack(ally_pieces.all_spec() | enemy_pieces.all_spec(), sp, t) && !bit64(ally_pieces.all_spec(), t as u64) {
                        let sp = choose|sp: int| 0 <= sp < s + 1 && bit64(ally_pieces.pieces_spec(real_type), sp as u64) && #[trigger] diag_attack(ally_pieces.all_spec() | enemy_pieces.all_spec(), sp, t) && !bit64(ally_pieces.all_spec(), t as u64);
                        assert(sp < s);
                    }
                }
            }
        }
    }
    result
}

/// The per-square map of diagonal moves of every piece of `real_type`.
pub fn get_attacking_moves_as_bishop_internal(
    ally_pieces: &PlayerBitboard,
    enemy_pieces: &PlayerBitboard,
    real_type: PieceType,
) -> (r: MovesMap)
    ensures
        r@ == crate::rules::slider_map_upto(
            real_type,
            ally_pieces.pieces_spec(real_type),
            ally_pieces.all_spec() | enemy_pieces.all_spec(),
            ally_pieces.all_spec(),
            true,
            64,
        ),
        r.wf(),
{
    let ghost occ = ally_pieces.all_spec() | enemy_pieces.all_spec();
    let piece_mask = *ally_pieces.pieces(real_type);
    let mut result = MovesMap::new();
    for s in 0..64u8
        invariant
            piece_mask == ally_pieces.pieces_spec(real_type),
            occ == ally_pieces.all_spec() | enemy_pieces.all_spec(),
            result.wf(),
            forall|i: int| 0 <= i < result@.len() ==> (#[trigger] result@[i].0) < s,
            result@ == crate::rules::slider_map_upto(
                real_type,
                piece_mask,
                occ,
                ally_pieces.all_spec(),
                true,
                s as int,
            ),
    {
        if piece_mask & (1u64 << (s as u64)) != 0 {
            let moves_mask = compute_single_bishop_attacking_moves(ally_pieces, enemy_pieces, s);
            proof {
                crate::rules::lemma_mask_slider_list(
                    occ,
                    ally_pieces.all_spec(),
                    true,
                    s as int,
                    moves_mask,
                    64,
                );
                crate::rules::lemma_mask_list_empty(s as int, moves_mask);
            }
            if moves_mask != 0 {
                let moves = super::internal::bitb64_to_moves_list(s, moves_mask);
                result.push_entry(s, super::PieceAndMoves { typpe: real_type, moves });
            }
        }
    }
    result
}

pub struct BishopBitboardMoveGenerator {}

impl BitboardMoveGenerator for BishopBitboardMoveGenerator {
    open spec fn kind() -> PieceType {
        PieceType::Bishop
    }

    fn get_raw_attacking_moves(pos: &Position, opts: MoveGenOpts) -> (r: BitB64) {
        let (ally_pieces, enemy_pieces) = match opts.perspective {
            MoveGenPerspective::MovingPlayer => (pos.pieces_to_move(), pos.enemy_pieces()),
            MoveGenPerspective::WaitingPlayer => (pos.enemy_pieces(), pos.pieces_to_move()),
        };
        let r = compute_raw_attacking_moves_as_bishop_internal(
            ally_pieces,
            enemy_pieces,
            PieceType::Bishop,
        );
        proof {
            let b = pos.board_of();
            let c = persp_board(b, opts.perspective.is_waiting()).to_move();
            assert(*ally_pieces == b.side(c));
            crate::bits::lemma_and_or_comm(b.white.all_spec(), b.black.all_spec());
            assert(ally_pieces.all_spec() | enemy_pieces.all_spec() == b.occ_all());
            assert forall|t: int| 0 <= t < 64 implies (bit64(r, t as u64)
                == #[trigger] kind_attacks(b, c, PieceType::Bishop, t)) by {
                if bit64(r, t as u64) {
                    let s = choose|s: int|
                        0 <= s < 64 && bit64(
                            ally_pieces.pieces_spec(PieceType::Bishop),
                            s as u64,
                        ) && #[trigger] diag_attack(
                            ally_pieces.all_spec() | enemy_pieces.all_spec(),
                            s,
                            t,
                        ) && !bit64(ally_pieces.all_spec(), t as u64);
                    assert(piece_covers(b, c, PieceType::Bishop, s, t));
                }
                if kind_attacks(b, c, PieceType::Bishop, t) {
                    let s = choose|s: int|
                        valid_square(s) && b.side(c).has(PieceType::Bishop, s as u64)
                            && #[trigger] piece_covers(b, c, PieceType::Bishop, s, t);
                    assert(bit64(ally_pieces.pieces_spec(PieceType::Bishop), s as u64)
                        && diag_attack(ally_pieces.all_spec() | enemy_pieces.all_spec(), s, t));
                }
            }
        }
        r
    }

    fn get_attacking_moves(pos: &Position, opts: MoveGenOpts) -> (r: MovesMap) {
        super::build_attack_map(pos, opts, PieceType::Bishop)
    }

    fn generate_moves(pos: &Position, opts: MoveGenOpts) -> (r: MovesMap) {
        super::build_kind_map(pos, opts, PieceType::Bishop)
    }
}

/// The bishops' pseudo-legal move map, as a free function.
pub fn generate_bishop_moves(pos: &Position, opts: MoveGenOpts) -> (r: MovesMap)
    requires
        pos.wf_pos(),
    ensures
        r@ == crate::rules::kind_map(
            crate::rules::persp_board(pos.board_of(), opts.perspective.is_waiting()),
            PieceType::Bishop,
        ),
        r.wf(),
{
    BishopBitboardMoveGenerator::generate_moves(pos, opts)
}


} // verus!
