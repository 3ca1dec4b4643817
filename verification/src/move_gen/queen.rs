use vstd::prelude::*;

use super::{bishop, rook, BitboardMoveGenerator, MoveGenOpts, MoveGenPerspective, MovesMap};
use crate::bitboard::BitB64;
use crate::bits::{bit64, lemma_bit64_ops};
use crate::chess::PieceType;
use crate::position::Position;
use crate::rules::{diag_attack, kind_attacks, ortho_attack, persp_board, piece_covers, valid_square};

verus! {

/// The queen's raw attacks: the union of its diagonal and straight rays.
pub fn compute_queen_attacking_moves(pos: &Position, opts: MoveGenOpts) -> (r: BitB64)
    requires
        pos.wf_pos(),
    ensures
        forall|t: int|
            0 <= t < 64 ==> (bit64(r, t as u64) == #[trigger] kind_attacks(
                pos.board_of(),
                persp_board(pos.board_of(), opts.perspective.is_waiting()).to_move(),
                PieceType::Queen,
                t,
            )),
{
    let (ally_pieces, enemy_pieces) = match opts.perspective {
        MoveGenPerspective::MovingPlayer => (pos.pieces_to_move(), pos.enemy_pieces()),
        MoveGenPerspective::WaitingPlayer => (pos.enemy_pieces(), pos.pieces_to_move()),
    };
    let rd = bishop::compute_raw_attacking_moves_as_bishop_internal(
        ally_pieces,
        enemy_pieces,
        PieceType::Queen,
    );
    let ro = rook::compute_raw_attacking_moves_as_rook(ally_pieces, enemy_pieces, PieceType::Queen);
    let r = rd | ro;
    proof {
        lemma_bit64_ops();
        let b = pos.board_of();
        let c = persp_board(b, opts.perspective.is_waiting()).to_move();
        assert(*ally_pieces == b.side(c));
        crate::bits::lemma_and_or_comm(b.white.all_spec(), b.black.all_spec());
        assert(ally_pieces.all_spec() | enemy_pieces.all_spec() == b.occ_all());
        assert forall|t: int| 0 <= t < 64 implies (bit64(r, t as u64) == #[trigger] kind_attacks(
            b,
            c,
            PieceType::Queen,
            t,
        )) by {
            if bit64(rd, t as u64) {
                let s = choose|s: int|
                    0 <= s < 64 && bit64(ally_pieces.pieces_spec(PieceType::Queen), s as u64)
                        && #[trigger] diag_attack(
                        ally_pieces.all_spec() | enemy_pieces.all_spec(),
                        s,
                        t,
                    ) && !bit64(ally_pieces.all_spec(), t as u64);
                assert(piece_covers(b, c, PieceType::Queen, s, t));
            }
            if bit64(ro, t as u64) {
                let s = choose|s: int|
                    0 <= s < 64 && bit64(ally_pieces.pieces_spec(PieceType::Queen), s as u64)
                        && #[trigger] ortho_attack(
                        ally_pieces.all_spec() | enemy_pieces.all_spec(),
                        s,
                        t,
                    ) && !bit64(ally_pieces.all_spec(), t as u64);
                assert(piece_covers(b, c, PieceType::Queen, s, t));
            }
            if kind_attacks(b, c, PieceType::Queen, t) {
                let s = choose|s: int|
                    valid_square(s) && b.side(c).has(PieceType::Queen, s as u64)
                        && #[trigger] piece_covers(b, c, PieceType::Queen, s, t);
                if diag_attack(b.occ_all(), s, t) {
                    assert(bit64(rd, t as u64));
                } else {
                    assert(bit64(ro, t as u64));
                }
            }
        }
    }
    r
}

pub struct QueenBitboardMoveGenerator {}

impl BitboardMoveGenerator for QueenBitboardMoveGenerator {
    open spec fn kind() -> PieceType {
        PieceType::Queen
    }

    fn get_raw_attacking_moves(pos: &Position, opts: MoveGenOpts) -> (r: BitB64) {
        compute_queen_attacking_moves(pos, opts)
    }

    fn get_attacking_moves(pos: &Position, opts: MoveGenOpts) -> (r: MovesMap) {
        super::build_attack_map(pos, opts, PieceType::Queen)
    }

    fn generate_moves(pos: &Position, opts: MoveGenOpts) -> (r: MovesMap) {
        super::build_kind_map(pos, opts, PieceType::Queen)
    }
}

/// The queens' pseudo-legal move map, as a free function.
pub fn generate_queen_moves(pos: &Position, opts: MoveGenOpts) -> (r: MovesMap)
    requires
        pos.wf_pos(),
    ensures
        r@ == crate::rules::kind_map(
            crate::rules::persp_board(pos.board_of(), opts.perspective.is_waiting()),
            PieceType::Queen,
        ),
        r.wf(),
{
    QueenBitboardMoveGenerator::generate_moves(pos, opts)
}


} // verus!
