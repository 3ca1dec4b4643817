use vstd::prelude::*;

use crate::bitboard::{BitB64, BitboardMove, PlayerBitboard, SpecialMoveType};
use crate::bits::bit64;
use crate::position::Position;
use crate::rules::{file_of, mask_move_list, on_board, rank_of, ray_hit_upto, square_at, valid_square};
use crate::zobrist::ZobristTable;

verus! {

pub fn bounded(val: i8, min: i8, max: i8) -> (r: bool)
    ensures
        r == (min <= val && val <= max),
{
    min <= val && val <= max
}

/// The rank (row) of a square id.
pub fn get_i_from_sq_id(sq_id: i8) -> (r: i8)
    requires
        0 <= sq_id < 64,
    ensures
        r as int == rank_of(sq_id as int),
        0 <= r < 8,
{
    sq_id / 8
}

/// The file (column) of a square id.
pub fn get_j_from_sq_id(sq_id: i8) -> (r: i8)
    requires
        0 <= sq_id < 64,
    ensures
        r as int == file_of(sq_id as int),
        0 <= r < 8,
{
    sq_id % 8
}

pub fn get_ij_from_sq_id(sq_id: i8) -> (r: (i8, i8))
    requires
        0 <= sq_id < 64,
    ensures
        r.0 as int == rank_of(sq_id as int),
        r.1 as int == file_of(sq_id as int),
        0 <= r.0 < 8,
        0 <= r.1 < 8,
{
    (get_i_from_sq_id(sq_id), get_j_from_sq_id(sq_id))
}

pub fn get_sq_id_from_ij(i: i8, j: i8) -> (r: i8)
    requires
        on_board(i as int, j as int),
    ensures
        r as int == square_at(i as int, j as int),
        0 <= r < 64,
{
    i * 8 + j
}

pub fn is_inside_board(i: i8, j: i8) -> (r: bool)
    ensures
        r == on_board(i as int, j as int),
{
    bounded(i, 0, 7) && bounded(j, 0, 7)
}

/// Whether two masks share a square.
pub fn intersect(bitb_a: BitB64, bitb_b: BitB64) -> (r: bool)
    ensures
        r == ((bitb_a & bitb_b) != 0),
{
    bitb_a & bitb_b != 0
}

/// The ascending list of regular moves a destination mask stands for.
pub fn bitb64_to_moves_list(id: u8, mask: BitB64) -> (r: Vec<BitboardMove>)
    ensures
        r@ == mask_move_list(id as int, mask, 64),
{
    let mut r: Vec<BitboardMove> = Vec::new();
    proof {
        assert(r@ =~= mask_move_list(id as int, mask, 0));
    }
    for t in 0..64u8
        invariant
            r@ == mask_move_list(id as int, mask, t as int),
    {
        if mask & (1u64 << (t as u64)) != 0 {
            r.push(BitboardMove { from: id, to: t, sp_move_type: SpecialMoveType::RegularMove });
            proof {
                assert(r@ =~= mask_move_list(id as int, mask, t as int) + seq![
                    BitboardMove { from: id, to: t, sp_move_type: SpecialMoveType::RegularMove },
                ]);
            }
        }
    }
    r
}

/// Walks one square of a sliding ray in (rank, file) space; see the
/// wrapper of the same name in the parent module for the step semantics.
pub fn try_generate_move_in_direction(
    ij: (i8, i8),
    ally_pieces: &PlayerBitboard,
    enemy_pieces: &PlayerBitboard,
    is_direction_blocked: &mut bool,
    cur_piece_moves: &mut u64,
) -> (advanced: bool)
    ensures
        !on_board(ij.0 as int, ij.1 as int) ==> (*final(is_direction_blocked) && *final(
            cur_piece_moves
        ) == *old(cur_piece_moves) && !advanced),
        on_board(ij.0 as int, ij.1 as int) && *old(is_direction_blocked) ==> (*final(
            is_direction_blocked
        ) && *final(cur_piece_moves) == *old(cur_piece_moves) && !advanced),
        on_board(ij.0 as int, ij.1 as int) && !*old(is_direction_blocked) ==> ({
            let sqb = 1u64 << (square_at(ij.0 as int, ij.1 as int) as u64);
            if bit64(ally_pieces.all_spec(), square_at(ij.0 as int, ij.1 as int) as u64) {
                *final(is_direction_blocked) && *final(cur_piece_moves) == *old(cur_piece_moves)
                    && !advanced
            } else if bit64(enemy_pieces.all_spec(), square_at(ij.0 as int, ij.1 as int) as u64) {
                *final(is_direction_blocked) && *final(cur_piece_moves) == (*old(cur_piece_moves)
                    | sqb) && advanced
            } else {
                !*final(is_direction_blocked) && *final(cur_piece_moves) == (*old(cur_piece_moves)
                    | sqb) && advanced
            }
        }),
{
    if !is_inside_board(ij.0, ij.1) {
        *is_direction_blocked = true;
        return false;
    }
    let sq_bitb: u64 = 1u64 << (get_sq_id_from_ij(ij.0, ij.1) as u64);
    proof {
        crate::bits::lemma_and_or_comm(sq_bitb, ally_pieces.all_spec());
        crate::bits::lemma_and_or_comm(sq_bitb, enemy_pieces.all_spec());
    }
    if *is_direction_blocked {
        false
    } else {
        if intersect(sq_bitb, ally_pieces.all_pieces()) {
            *is_direction_blocked = true;
            false
        } else if intersect(sq_bitb, enemy_pieces.all_pieces()) {
            *cur_piece_moves = *cur_piece_moves | sq_bitb;
            *is_direction_blocked = true;
            true
        } else {
            *cur_piece_moves = *cur_piece_moves | sq_bitb;
            true
        }
    }
}

/// Walks one whole ray from (i0, j0) in direction (di, dj): delivers the
/// squares before the first blocker, the blocker included only when it is
/// an enemy. This is where sliding rays stop exactly at the first piece.
#[verifier::rlimit(50)]
pub fn cast_ray(
    ally_pieces: &PlayerBitboard,
    enemy_pieces: &PlayerBitboard,
    i0: i8,
    j0: i8,
    di: i8,
    dj: i8,
) -> (r: u64)
    requires
        on_board(i0 as int, j0 as int),
        -1 <= di <= 1,
        -1 <= dj <= 1,
        !(di == 0 && dj == 0),
    ensures
        forall|t: int|
            0 <= t < 64 ==> (bit64(r, t as u64) == (#[trigger] crate::rules::ray_attack(
                ally_pieces.all_spec() | enemy_pieces.all_spec(),
                square_at(i0 as int, j0 as int),
                di as int,
                dj as int,
                t,
            ) && !bit64(ally_pieces.all_spec(), t as u64))),
{
    let ghost s = square_at(i0 as int, j0 as int);
    let ghost occ = ally_pieces.all_spec() | enemy_pieces.all_spec();
    let ghost dii = di as int;
    let ghost djj = dj as int;
    let mut acc: u64 = 0;
    let mut blocked = false;
    let mut k: i8 = 1;
    let mut ii: i8 = i0 + di;
    let mut jj: i8 = j0 + dj;
    proof {
        assert(rank_of(s) == i0 as int && file_of(s) == j0 as int) by (nonlinear_arith)
            requires
                s == i0 as int * 8 + j0 as int && 0 <= i0 < 8 && 0 <= j0 < 8,
        ;
        crate::bits::lemma_bit64_ops();
    }
    while k < 8
        invariant
            on_board(i0 as int, j0 as int),
            -1 <= di <= 1,
            -1 <= dj <= 1,
            s == square_at(i0 as int, j0 as int),
            valid_square(s),
            rank_of(s) == i0 as int,
            file_of(s) == j0 as int,
            occ == ally_pieces.all_spec() | enemy_pieces.all_spec(),
            dii == di as int,
            djj == dj as int,
            1 <= k <= 8,
            ii as int == rank_of(s) + k * dii,
            jj as int == file_of(s) + k * djj,
            forall|t: int|
                0 <= t < 64 ==> (bit64(acc, t as u64) == (#[trigger] ray_hit_upto(
                    occ,
                    s,
                    dii,
                    djj,
                    k as int,
                    t,
                ) && !bit64(ally_pieces.all_spec(), t as u64))),
            !blocked ==> (forall|m: int|
                1 <= m < k ==> (on_board(rank_of(s) + m * dii, file_of(s) + m * djj) && !bit64(
                    occ,
                    #[trigger] square_at(rank_of(s) + m * dii, file_of(s) + m * djj) as u64,
                ))),
            blocked ==> (forall|t: int|
                ray_hit_upto(occ, s, dii, djj, 8, t) == #[trigger] ray_hit_upto(
                    occ,
                    s,
                    dii,
                    djj,
                    k as int,
                    t,
                )),
        decreases 8 - k,
    {
        let ghost kk = k as int;
        let ghost old_blocked = blocked;
        let ghost old_acc = acc;
        let ghost t0 = square_at(rank_of(s) + kk * dii, file_of(s) + kk * djj);
        let ghost ck_on = on_board(rank_of(s) + kk * dii, file_of(s) + kk * djj);
        proof {
            crate::bits::lemma_bit64_ops();
        }
        try_generate_move_in_direction((ii, jj), ally_pieces, enemy_pieces, &mut blocked, &mut acc);
        k = k + 1;
        ii = ii + di;
        jj = jj + dj;
        proof {
            assert((kk + 1) * dii == kk * dii + dii) by (nonlinear_arith);
            assert((kk + 1) * djj == kk * djj + djj) by (nonlinear_arith);
            assert forall|t: int| true implies (#[trigger] ray_hit_upto(occ, s, dii, djj, kk + 1, t)
                == (ray_hit_upto(occ, s, dii, djj, kk, t) || (ck_on && t == t0 && !old_blocked))) by {
                crate::rules::lemma_ray_upto_step(occ, s, dii, djj, kk, t);
                if old_blocked && ck_on && t == t0 && (forall|m: int|
                    1 <= m < kk ==> !bit64(
                        occ,
                        #[trigger] square_at(rank_of(s) + m * dii, file_of(s) + m * djj) as u64,
                    )) {
                    // a blocked walk has its saturation recorded: the new
                    // candidate was already reachable, or not a hit at all
                    crate::rules::lemma_ray_upto_mono(occ, s, dii, djj, kk + 1, 8, t);
                }
                if !old_blocked && ck_on && t == t0 {
                    assert(ray_hit_upto(occ, s, dii, djj, kk + 1, t));
                }
            }
            if !ck_on {
                assert forall|t: int| true implies (#[trigger] ray_hit_upto(occ, s, dii, djj, 8, t)
                    == ray_hit_upto(occ, s, dii, djj, kk + 1, t)) by {
                    crate::rules::lemma_ray_edge_stays(occ, s, dii, djj, kk, t);
                    crate::rules::lemma_ray_upto_step(occ, s, dii, djj, kk, t);
                }
            } else if !old_blocked && bit64(occ, t0 as u64) {
                assert forall|t: int| true implies (#[trigger] ray_hit_upto(occ, s, dii, djj, 8, t)
                    == ray_hit_upto(occ, s, dii, djj, kk + 1, t)) by {
                    crate::rules::lemma_ray_blocked_stays(occ, s, dii, djj, kk, t);
                }
            } else if old_blocked {
                assert forall|t: int| true implies (#[trigger] ray_hit_upto(occ, s, dii, djj, 8, t)
                    == ray_hit_upto(occ, s, dii, djj, kk + 1, t)) by {
                    crate::rules::lemma_ray_upto_step(occ, s, dii, djj, kk, t);
                    crate::rules::lemma_ray_upto_mono(occ, s, dii, djj, kk + 1, 8, t);
                    if ray_hit_upto(occ, s, dii, djj, 8, t) {
                        assert(ray_hit_upto(occ, s, dii, djj, kk, t));
                    }
                }
            }
            if !blocked {
                assert(!bit64(occ, t0 as u64));
                assert forall|m: int| 1 <= m < kk + 1 implies (on_board(
                    rank_of(s) + m * dii,
                    file_of(s) + m * djj,
                ) && !bit64(
                    occ,
                    #[trigger] square_at(rank_of(s) + m * dii, file_of(s) + m * djj) as u64,
                )) by {
                    if m == kk {
                        assert(ck_on);
                    }
                }
            }
            assert forall|t: int| 0 <= t < 64 implies (bit64(acc, t as u64) == (
            #[trigger] ray_hit_upto(occ, s, dii, djj, kk + 1, t) && !bit64(
                ally_pieces.all_spec(),
                t as u64,
            ))) by {
                assert(bit64(old_acc, t as u64) == (ray_hit_upto(occ, s, dii, djj, kk, t)
                    && !bit64(ally_pieces.all_spec(), t as u64)));
                assert(ray_hit_upto(occ, s, dii, djj, kk + 1, t) == (ray_hit_upto(
                    occ,
                    s,
                    dii,
                    djj,
                    kk,
                    t,
                ) || (ck_on && t == t0 && !old_blocked)));
                if ck_on && !old_blocked {
                    let sqb = 1u64 << (t0 as u64);
                    if bit64(ally_pieces.all_spec(), t0 as u64) {
                        assert(acc == old_acc);
                        if t == t0 {
                            assert(!(ray_hit_upto(occ, s, dii, djj, kk + 1, t) && !bit64(
                                ally_pieces.all_spec(),
                                t as u64,
                            )));
                        }
                    } else {
                        assert(acc == old_acc | sqb);
                        assert(bit64(acc, t as u64) == (bit64(old_acc, t as u64) || t == t0));
                        if t == t0 {
                            assert(ray_hit_upto(occ, s, dii, djj, kk + 1, t));
                        }
                    }
                } else {
                    assert(acc == old_acc);
                }
            }
        }
    }
    proof {
        assert forall|t: int| 0 <= t < 64 implies (bit64(acc, t as u64)
            == (#[trigger] crate::rules::ray_attack(occ, s, dii, djj, t) && !bit64(
            ally_pieces.all_spec(),
            t as u64,
        ))) by {
            crate::rules::lemma_ray_upto_full(occ, s, dii, djj, t);
        }
    }
    acc
}

/// The standard starting position, for tests and examples.
pub fn get_initial_position(table: &ZobristTable) -> (r: Position)
    requires
        table.wf(),
    ensures
        r.board_of() == crate::rules::initial_board(),
        r.wf_pos(),
        r.hash_ok(*table),
{
    Position::new(table)
}

} // verus!
