use vstd::prelude::*;

use super::{BitboardMoveGenerator, MoveGenOpts, MoveGenPerspective, MovesMap};
use crate::bitboard::{BitB64, BitboardMove, PlayerBitboard, SpecialMoveType};
use crate::bits::{bit64, lemma_bit64_ops};
use crate::chess::{PieceType, PlayerColor};
use crate::position::Position;
use crate::rules::{
    kind_attacks, pawn_dest, pawn_shape, persp_board, piece_covers, promo_expand, valid_square,
    Board,
};

verus! {

/// The squares a single pawn on `id` covers: one rank ahead in its side's
/// direction, one file aside, ally squares excluded. A pawn covers its
/// diagonals whether or not a capture is available there.
pub fn compute_raw_single_pawn_attacking_moves(
    ally_pieces: &PlayerBitboard,
    enemy_pieces: &PlayerBitboard,
    p_to_move: PlayerColor,
    id: u8,
) -> (r: BitB64)
    requires
        id < 64,
    ensures
        forall|t: int|
            0 <= t < 64 ==> (bit64(r, t as u64) == (#[trigger] pawn_shape(p_to_move, id as int, t)
                && !bit64(ally_pieces.all_spec(), t as u64))),
{
    let ally_all = ally_pieces.all_pieces();
    let mut result: u64 = 0;
    proof {
        lemma_bit64_ops();
    }
    let i0: u8 = id / 8;
    let j0: u8 = id % 8;
    proof {
        assert(0 <= (i0 as int) < 8 && 0 <= (j0 as int) < 8) by (nonlinear_arith)
            requires
                i0 as int == (id as int) / 8 && j0 as int == (id as int) % 8 && 0 <= id < 64,
        ;
    }
    let dir: i8 = match p_to_move {
        PlayerColor::White => 1,
        PlayerColor::Black => -1,
    };
    for t in 0..64u8
        invariant
            ally_all == ally_pieces.all_spec(),
            i0 as int == crate::rules::rank_of(id as int),
            j0 as int == crate::rules::file_of(id as int),
            0 <= i0 < 8,
            0 <= j0 < 8,
            dir as int == crate::rules::pawn_dir(p_to_move),
            forall|u: int|
                0 <= u < t ==> (bit64(result, u as u64) == (#[trigger] pawn_shape(
                    p_to_move,
                    id as int,
                    u,
                ) && !bit64(ally_all, u as u64))),
            forall|u: int| t <= u < 64 ==> !(#[trigger] bit64(result, u as u64)),
    {
        proof {
            lemma_bit64_ops();
        }
        let ti: u8 = t / 8;
        let tj: u8 = t % 8;
        proof {
            assert(ti as int == crate::rules::rank_of(t as int) && tj as int == crate::rules::file_of(
                t as int,
            ));
            assert(0 <= (ti as int) < 8 && 0 <= (tj as int) < 8) by (nonlinear_arith)
                requires
                    ti as int == (t as int) / 8 && tj as int == (t as int) % 8 && 0 <= t < 64,
            ;
        }
        let di: i32 = (ti as i32) - (i0 as i32);
        let dj: i32 = (tj as i32) - (j0 as i32);
        let shape: bool = di == (dir as i32) && (dj == 1 || dj == -1);
        proof {
            let e = dj as int;
            assert((e == 1 || e == -1) == (e * e == 1)) by (nonlinear_arith)
                requires
                    -7 <= e <= 7,
            ;
        }
        if shape && (ally_all & (1u64 << (t as u64))) == 0 {
            result = result | (1u64 << (t as u64));
        }
        proof {
            assert(bit64(result, t as u64) == (pawn_shape(p_to_move, id as int, t as int) && !bit64(
                ally_all,
                t as u64,
            )));
        }
    }
    result
}

/// The union of every pawn's covered squares for one side.
pub fn compute_pawn_attacking_moves_internal(
    ally_pieces: &PlayerBitboard,
    enemy_pieces: &PlayerBitboard,
    p_to_move: PlayerColor,
) -> (r: BitB64)
    ensures
        forall|t: int|
            0 <= t < 64 ==> ((#[trigger] bit64(r, t as u64)) == exists|s: int|
                0 <= s < 64 && bit64(ally_pieces.pawns, s as u64) && #[trigger] pawn_shape(
                    p_to_move,
                    s,
                    t,
                ) && !bit64(ally_pieces.all_spec(), t as u64)),
{
    let mut result: u64 = 0;
    proof {
        lemma_bit64_ops();
    }
    for s in 0..64u8
        invariant
            forall|t: int|
                0 <= t < 64 ==> ((#[trigger] bit64(result, t as u64)) == exists|sp: int|
                    0 <= sp < s && bit64(ally_pieces.pawns, sp as u64) && #[trigger] pawn_shape(
                        p_to_move,
                        sp,
                        t,
                    ) && !bit64(ally_pieces.all_spec(), t as u64)),
    {
        proof {
            lemma_bit64_ops();
        }
        let has_piece = ally_pieces.pawns & (1u64 << (s as u64)) != 0;
        if has_piece {
            let ghost old_result = result;
            let single = compute_raw_single_pawn_attacking_moves(ally_pieces, enemy_pieces, p_to_move, s);
            result = result | single;
            proof {
                assert forall|t: int| 0 <= t < 64 implies ((#[trigger] bit64(result, t as u64))
                    == exists|sp: int| 0 <= sp < s + 1 && bit64(ally_pieces.pawns, sp as u64) && #[trigger] pawn_shape(p_to_move, sp, t) && !bit64(ally_pieces.all_spec(), t as u64)) by {
                    if bit64(result, t as u64) {
                        if !bit64(old_result, t as u64) {
                            assert(bit64(single, t as u64) ==> pawn_shape(p_to_move, s as int, t)
                                && !bit64(ally_pieces.all_spec(), t as u64));
                            assert(bit64(single, t as u64));
                            assert(pawn_shape(p_to_move, s as int, t) && bit64(ally_pieces.pawns, s as u64) && !bit64(ally_pieces.all_spec(), t as u64));
                        } else {
                            let sp = choose|sp: int| 0 <= sp < s && bit64(ally_pieces.pawns, sp as u64) && #[trigger] pawn_shape(p_to_move, sp, t) && !bit64(ally_pieces.all_spec(), t as u64);
                            assert(0 <= sp < s + 1);
                        }
                    }
                    if exists|sp: int| 0 <= sp < s + 1 && bit64(ally_pieces.pawns, sp as u64) && #[trigger] pawn_shape(p_to_move, sp, t) && !bit64(ally_pieces.all_spec(), t as u64) {
                        let sp = choose|sp: int| 0 <= sp < s + 1 && bit64(ally_pieces.pawns, sp as u64) && #[trigger] pawn_shape(p_to_move, sp, t) && !bit64(ally_pieces.all_spec(), t as u64);
                        if sp < s {
                            assert(bit64(old_result, t as u64));
                        } else {
                            assert(bit64(single, t as u64));
                        }
                        assert(bit64(result, t as u64));
                    }
                }
            }
        } else {
            proof {
                assert forall|t: int| 0 <= t < 64 implies ((#[trigger] bit64(result, t as u64))
                    == exists|sp: int| 0 <= sp < s + 1 && bit64(ally_pieces.pawns, sp as u64) && #[trigger] pawn_shape(p_to_move, sp, t) && !bit64(ally_pieces.all_spec(), t as u64)) by {
                    if exists|sp: int| 0 <= sp < s + 1 && bit64(ally_pieces.pawns, sp as u64) && #[trigger] pawn_shape(p_to_move, sp, t) && !bit64(ally_pieces.all_spec(), t as u64) {
                        let sp = choose|sp: int| 0 <= sp < s + 1 && bit64(ally_pieces.pawns, sp as u64) && #[trigger] pawn_shape(p_to_move, sp, t) && !bit64(ally_pieces.all_spec(), t as u64);
                        assert(sp < s);
                    }
                }
            }
        }
    }
    result
}

/// The ordinary destinations of a single pawn: the one-square advance onto
/// an empty square, the two-square advance from the start rank over two
/// empty squares, and the diagonal captures of an enemy.
pub(crate) fn compute_single_pawn_moves(
    ally_pieces: &PlayerBitboard,
    enemy_pieces: &PlayerBitboard,
    p_to_move: PlayerColor,
    id: u8,
    Ghost(b): Ghost<Board>,
) -> (r: BitB64)
    requires
        id < 64,
        b.ally() == *ally_pieces,
        b.enemy() == *enemy_pieces,
        b.to_move() == p_to_move,
    ensures
        forall|t: int|
            0 <= t < 64 ==> (bit64(r, t as u64) == #[trigger] pawn_dest(b, id as int, t)),
{
    let ally_all = ally_pieces.all_pieces();
    let enemy_all = enemy_pieces.all_pieces();
    let occ: u64 = ally_all | enemy_all;
    proof {
        lemma_bit64_ops();
        crate::bits::lemma_and_or_comm(b.white.all_spec(), b.black.all_spec());
        assert(occ == b.occ_all());
    }
    let mut result: u64 = 0;
    let i0: u8 = id / 8;
    let j0: u8 = id % 8;
    proof {
        assert(0 <= (i0 as int) < 8 && 0 <= (j0 as int) < 8) by (nonlinear_arith)
            requires
                i0 as int == (id as int) / 8 && j0 as int == (id as int) % 8 && 0 <= id < 64,
        ;
    }
    let dir: i8 = match p_to_move {
        PlayerColor::White => 1,
        PlayerColor::Black => -1,
    };
    let start_rank: u8 = match p_to_move {
        PlayerColor::White => 1,
        PlayerColor::Black => 6,
    };
    for t in 0..64u8
        invariant
            ally_all == ally_pieces.all_spec(),
            enemy_all == enemy_pieces.all_spec(),
            occ == b.occ_all(),
            b.ally() == *ally_pieces,
            b.enemy() == *enemy_pieces,
            b.to_move() == p_to_move,
            id < 64,
            i0 as int == crate::rules::rank_of(id as int),
            j0 as int == crate::rules::file_of(id as int),
            0 <= i0 < 8,
            0 <= j0 < 8,
            dir as int == crate::rules::pawn_dir(p_to_move),
            start_rank as int == crate::rules::pawn_start_rank(p_to_move),
            forall|u: int| 0 <= u < t ==> (bit64(result, u as u64) == #[trigger] pawn_dest(b, id as int, u)),
            forall|u: int| t <= u < 64 ==> !(#[trigger] bit64(result, u as u64)),
    {
        proof {
            lemma_bit64_ops();
        }
        let ti: u8 = t / 8;
        let tj: u8 = t % 8;
        proof {
            assert(ti as int == crate::rules::rank_of(t as int) && tj as int == crate::rules::file_of(
                t as int,
            ));
            assert(0 <= (ti as int) < 8 && 0 <= (tj as int) < 8) by (nonlinear_arith)
                requires
                    ti as int == (t as int) / 8 && tj as int == (t as int) % 8 && 0 <= t < 64,
            ;
        }
        let di: i32 = (ti as i32) - (i0 as i32);
        let dj: i32 = (tj as i32) - (j0 as i32);
        let advance_ok: bool = dj == 0 && di == (dir as i32) && (occ & (1u64 << (t as u64))) == 0;
        let mi: i8 = (i0 as i8) + dir;
        let mid_empty: bool = if mi >= 0 && mi <= 7 {
            occ & (1u64 << ((mi as u8 as u64) * 8 + (j0 as u64))) == 0
        } else {
            false
        };
        let double_ok: bool = dj == 0 && i0 == start_rank && di == 2 * (dir as i32) && mid_empty
            && (occ & (1u64 << (t as u64))) == 0;
        let capture_ok: bool = di == (dir as i32) && (dj == 1 || dj == -1) && (enemy_all & (1u64
            << (t as u64))) != 0;
        proof {
            let e = dj as int;
            assert((e == 1 || e == -1) == (e * e == 1)) by (nonlinear_arith)
                requires
                    -7 <= e <= 7,
            ;
        }
        if advance_ok || double_ok || capture_ok {
            result = result | (1u64 << (t as u64));
            proof {
                assert(pawn_dest(b, id as int, t as int));
            }
        } else {
            proof {
                if pawn_dest(b, id as int, t as int) {
                    assert(false);
                }
            }
        }
    }
    result
}

/// Expands every move of a far-rank pawn into the four promotions, bishop,
/// knight, rook then queen for each destination.
pub fn add_promotion_moves(moves_list: Vec<BitboardMove>) -> (r: Vec<BitboardMove>)
    ensures
        r@ == promo_expand(moves_list@),
{
    let mut r: Vec<BitboardMove> = Vec::new();
    let n = moves_list.len();
    proof {
        assert(moves_list@.take(0) =~= Seq::<BitboardMove>::empty());
    }
    let mut i: usize = 0;
    while i < n
        invariant
            n == moves_list@.len(),
            i <= n,
            r@ == promo_expand(moves_list@.take(i as int)),
        decreases n - i,
    {
        let mv = moves_list[i];
        r.push(BitboardMove { from: mv.from, to: mv.to, sp_move_type: SpecialMoveType::PromotionToBishop });
        r.push(BitboardMove { from: mv.from, to: mv.to, sp_move_type: SpecialMoveType::PromotionToKnight });
        r.push(BitboardMove { from: mv.from, to: mv.to, sp_move_type: SpecialMoveType::PromotionToRook });
        r.push(BitboardMove { from: mv.from, to: mv.to, sp_move_type: SpecialMoveType::PromotionToQueen });
        i = i + 1;
        proof {
            assert(moves_list@.take(i as int).drop_last() =~= moves_list@.take(i as int - 1));
            assert(moves_list@.take(i as int).last() == moves_list@[i as int - 1]);
            assert(r@ =~= promo_expand(moves_list@.take(i as int - 1)) + crate::rules::promo_moves(
                mv.from as int,
                mv.to as int,
            ));
        }
    }
    proof {
        assert(moves_list@.take(n as int) =~= moves_list@);
    }
    r
}

pub struct PawnBitboardMoveGenerator {}

impl BitboardMoveGenerator for PawnBitboardMoveGenerator {
    open spec fn kind() -> PieceType {
        PieceType::Pawn
    }

    fn get_raw_attacking_moves(pos: &Position, opts: MoveGenOpts) -> (r: BitB64) {
        let (ally_pieces, enemy_pieces, p_to_move) = match opts.perspective {
            MoveGenPerspective::MovingPlayer => (
                pos.pieces_to_move(),
                pos.enemy_pieces(),
                pos.player_to_move(),
            ),
            MoveGenPerspective::WaitingPlayer => (
                pos.enemy_pieces(),
                pos.pieces_to_move(),
                pos.waiting_player(),
            ),
        };
        let r = compute_pawn_attacking_moves_internal(ally_pieces, enemy_pieces, p_to_move);
        proof {
            let b = pos.board_of();
            let c = persp_board(b, opts.perspective.is_waiting()).to_move();
            assert(*ally_pieces == b.side(c));
            assert(p_to_move == c);
            assert forall|t: int| 0 <= t < 64 implies (bit64(r, t as u64)
                == #[trigger] kind_attacks(b, c, PieceType::Pawn, t)) by {
                if bit64(r, t as u64) {
                    let s = choose|s: int|
                        0 <= s < 64 && bit64(ally_pieces.pawns, s as u64) && #[trigger] pawn_shape(
                            p_to_move,
                            s,
                            t,
                        ) && !bit64(ally_pieces.all_spec(), t as u64);
                    assert(piece_covers(b, c, PieceType::Pawn, s, t));
                }
                if kind_attacks(b, c, PieceType::Pawn, t) {
                    let s = choose|s: int|
                        valid_square(s) && b.side(c).has(PieceType::Pawn, s as u64)
                            && #[trigger] piece_covers(b, c, PieceType::Pawn, s, t);
                    assert(bit64(ally_pieces.pawns, s as u64) && pawn_shape(p_to_move, s, t));
                }
            }
        }
        r
    }

    fn get_attacking_moves(pos: &Position, opts: MoveGenOpts) -> (r: MovesMap) {
        super::build_attack_map(pos, opts, PieceType::Pawn)
    }

    fn generate_moves(pos: &Position, opts: MoveGenOpts) -> (r: MovesMap) {
        super::build_kind_map(pos, opts, PieceType::Pawn)
    }
}

/// The pawns' pseudo-legal move map, as a free function.
pub fn generate_pawn_moves(pos: &Position, opts: MoveGenOpts) -> (r: MovesMap)
    requires
        pos.wf_pos(),
    ensures
        r@ == crate::rules::kind_map(
            crate::rules::persp_board(pos.board_of(), opts.perspective.is_waiting()),
            PieceType::Pawn,
        ),
        r.wf(),
{
    PawnBitboardMoveGenerator::generate_moves(pos, opts)
}


} // verus!
