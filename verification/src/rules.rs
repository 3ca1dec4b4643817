use vstd::prelude::*;

use crate::bitboard::{BitB64, BitboardMove, PlayerBitboard, SpecialMoveType};
use crate::bits::{bit64, bit8};
use crate::chess::{ChessPiece, PieceType, PlayerColor};

verus! {

// ---------------------------------------------------------------------------
// The mathematical model of the game: a board, what each piece attacks, which
// moves are pseudo-legal, and how a move transforms the board. Everything here
// is specification; the executable code elsewhere is proved against it.
// ---------------------------------------------------------------------------
/// Everything move generation reads: both sides' masks, whose turn it is,
/// the four castling-rights bits, and the usable en-passant files of each
/// side. The Zobrist hash is deliberately absent: no rule depends on it.
#[verifier::ext_equal]
pub struct Board {
    pub white: PlayerBitboard,
    pub black: PlayerBitboard,
    pub black_to_move: bool,
    pub castling_rights: u8,
    pub white_usable_en_passant: u8,
    pub black_usable_en_passant: u8,
}

impl Board {
    pub open spec fn to_move(self) -> PlayerColor {
        if self.black_to_move {
            PlayerColor::Black
        } else {
            PlayerColor::White
        }
    }

    pub open spec fn side(self, c: PlayerColor) -> PlayerBitboard {
        match c {
            PlayerColor::White => self.white,
            PlayerColor::Black => self.black,
        }
    }

    pub open spec fn with_side(self, c: PlayerColor, pb: PlayerBitboard) -> Board {
        match c {
            PlayerColor::White => Board { white: pb, ..self },
            PlayerColor::Black => Board { black: pb, ..self },
        }
    }

    pub open spec fn ally(self) -> PlayerBitboard {
        self.side(self.to_move())
    }

    pub open spec fn enemy(self) -> PlayerBitboard {
        self.side(self.to_move().other_spec())
    }

    /// Union of every piece of both sides.
    pub open spec fn occ_all(self) -> BitB64 {
        self.white.all_spec() | self.black.all_spec()
    }

    pub open spec fn occupied(self, s: int) -> bool {
        bit64(self.occ_all(), s as u64)
    }

    /// Both sides well formed and no square held by both sides.
    pub open spec fn wf(self) -> bool {
        &&& self.white.wf()
        &&& self.black.wf()
        &&& self.white.all_spec() & self.black.all_spec() == 0
    }

    pub open spec fn usable_en_passant(self, c: PlayerColor) -> u8 {
        match c {
            PlayerColor::White => self.white_usable_en_passant,
            PlayerColor::Black => self.black_usable_en_passant,
        }
    }

    pub open spec fn has_short_castling_rights(self, c: PlayerColor) -> bool {
        match c {
            PlayerColor::White => bit8(self.castling_rights, 0),
            PlayerColor::Black => bit8(self.castling_rights, 2),
        }
    }

    pub open spec fn has_long_castling_rights(self, c: PlayerColor) -> bool {
        match c {
            PlayerColor::White => bit8(self.castling_rights, 1),
            PlayerColor::Black => bit8(self.castling_rights, 3),
        }
    }
}

/// The standard starting board: full initial placement, white to move,
/// all four castling rights, no en passant.
pub open spec fn initial_board() -> Board {
    Board {
        white: PlayerBitboard::initial_spec(PlayerColor::White),
        black: PlayerBitboard::initial_spec(PlayerColor::Black),
        black_to_move: false,
        castling_rights: 0xf,
        white_usable_en_passant: 0,
        black_usable_en_passant: 0,
    }
}

// ---------------------------------------------------------------------------
// Squares in (rank, file) coordinates.
// ---------------------------------------------------------------------------
pub open spec fn rank_of(s: int) -> int {
    s / 8
}

pub open spec fn file_of(s: int) -> int {
    s % 8
}

pub open spec fn square_at(i: int, j: int) -> int {
    i * 8 + j
}

pub open spec fn on_board(i: int, j: int) -> bool {
    0 <= i < 8 && 0 <= j < 8
}

pub open spec fn valid_square(s: int) -> bool {
    0 <= s < 64
}

/// The rank pawns of `c` advance toward: +1 for white, -1 for black.
pub open spec fn pawn_dir(c: PlayerColor) -> int {
    match c {
        PlayerColor::White => 1,
        PlayerColor::Black => -1,
    }
}

pub open spec fn pawn_start_rank(c: PlayerColor) -> int {
    match c {
        PlayerColor::White => 1,
        PlayerColor::Black => 6,
    }
}

/// The rank a pawn promotes FROM: one advance lands on the far rank.
pub open spec fn pawn_promo_rank(c: PlayerColor) -> int {
    match c {
        PlayerColor::White => 6,
        PlayerColor::Black => 1,
    }
}

/// The rank on which a pawn of `c` may capture en passant.
pub open spec fn ep_rank(c: PlayerColor) -> int {
    match c {
        PlayerColor::White => 4,
        PlayerColor::Black => 3,
    }
}

// ---------------------------------------------------------------------------
// Attack shapes. Each relates an origin and a destination square in (rank,
// file) space; board edges are respected by construction, never by bit
// shifting, which would wrap across ranks.
// ---------------------------------------------------------------------------
pub open spec fn knight_shape(s: int, t: int) -> bool {
    let di = rank_of(t) - rank_of(s);
    let dj = file_of(t) - file_of(s);
    valid_square(s) && valid_square(t) && di * di + dj * dj == 5
}

pub open spec fn king_shape(s: int, t: int) -> bool {
    let di = rank_of(t) - rank_of(s);
    let dj = file_of(t) - file_of(s);
    valid_square(s) && valid_square(t) && di * di <= 1 && dj * dj <= 1 && t != s
}

/// A pawn of `c` on `s` covers `t`: one rank ahead, one file aside.
pub open spec fn pawn_shape(c: PlayerColor, s: int, t: int) -> bool {
    let di = rank_of(t) - rank_of(s);
    let dj = file_of(t) - file_of(s);
    valid_square(s) && valid_square(t) && di == pawn_dir(c) && dj * dj == 1
}

/// A sliding attack along one direction: `t` is the `k`-th square from `s`
/// in direction (di, dj), every strictly closer square on the ray is empty,
/// and the walk stops exactly at the first occupied square, which is
/// therefore the only occupied square a ray may deliver.
pub open spec fn ray_attack(occ: BitB64, s: int, di: int, dj: int, t: int) -> bool {
    exists|k: int|
        #![trigger square_at(rank_of(s) + k * di, file_of(s) + k * dj)]
        1 <= k < 8 && on_board(rank_of(s) + k * di, file_of(s) + k * dj) && t == square_at(
            rank_of(s) + k * di,
            file_of(s) + k * dj,
        ) && (forall|m: int|
            1 <= m < k ==> !bit64(
                occ,
                #[trigger] square_at(rank_of(s) + m * di, file_of(s) + m * dj) as u64,
            ))
}

/// `ray_attack` cut off at walk distance `kmax` instead of 8: what a
/// partial walk of a ray has established.
pub open spec fn ray_hit_upto(occ: BitB64, s: int, di: int, dj: int, kmax: int, t: int) -> bool {
    exists|k: int|
        #![trigger square_at(rank_of(s) + k * di, file_of(s) + k * dj)]
        1 <= k < kmax && on_board(rank_of(s) + k * di, file_of(s) + k * dj) && t == square_at(
            rank_of(s) + k * di,
            file_of(s) + k * dj,
        ) && (forall|m: int|
            1 <= m < k ==> !bit64(
                occ,
                #[trigger] square_at(rank_of(s) + m * di, file_of(s) + m * dj) as u64,
            ))
}

/// At full distance the cut-off form is the ray attack itself.
pub proof fn lemma_ray_upto_full(occ: BitB64, s: int, di: int, dj: int, t: int)
    ensures
        ray_hit_upto(occ, s, di, dj, 8, t) == ray_attack(occ, s, di, dj, t),
{
}

/// Larger cut-offs keep every hit.
pub proof fn lemma_ray_upto_mono(occ: BitB64, s: int, di: int, dj: int, k1: int, k2: int, t: int)
    requires
        k1 <= k2,
    ensures
        ray_hit_upto(occ, s, di, dj, k1, t) ==> ray_hit_upto(occ, s, di, dj, k2, t),
{
}

/// Extending the cut-off by one admits exactly the next square of the
/// walk, and only with the whole prefix empty.
pub proof fn lemma_ray_upto_step(occ: BitB64, s: int, di: int, dj: int, kk: int, t: int)
    requires
        1 <= kk,
    ensures
        ray_hit_upto(occ, s, di, dj, kk + 1, t) == (ray_hit_upto(occ, s, di, dj, kk, t) || (
        on_board(rank_of(s) + kk * di, file_of(s) + kk * dj) && t == square_at(
            rank_of(s) + kk * di,
            file_of(s) + kk * dj,
        ) && (forall|m: int|
            1 <= m < kk ==> !bit64(
                occ,
                #[trigger] square_at(rank_of(s) + m * di, file_of(s) + m * dj) as u64,
            )))),
{
    if ray_hit_upto(occ, s, di, dj, kk + 1, t) {
        let k = choose|k: int|
            #![trigger square_at(rank_of(s) + k * di, file_of(s) + k * dj)]
            1 <= k < kk + 1 && on_board(rank_of(s) + k * di, file_of(s) + k * dj) && t == square_at(
                rank_of(s) + k * di,
                file_of(s) + k * dj,
            ) && (forall|m: int|
                1 <= m < k ==> !bit64(
                    occ,
                    #[trigger] square_at(rank_of(s) + m * di, file_of(s) + m * dj) as u64,
                ));
        if k < kk {
            assert(ray_hit_upto(occ, s, di, dj, kk, t));
        }
    }
    if ray_hit_upto(occ, s, di, dj, kk, t) {
        lemma_ray_upto_mono(occ, s, di, dj, kk, kk + 1, t);
    }
}

/// Once a walk leaves the board it never returns: whichever coordinate
/// left its range keeps moving away.
pub proof fn lemma_ray_off_board_stays(s: int, di: int, dj: int, k0: int, m: int)
    requires
        valid_square(s),
        -1 <= di <= 1,
        -1 <= dj <= 1,
        1 <= k0 <= m,
        !on_board(rank_of(s) + k0 * di, file_of(s) + k0 * dj),
    ensures
        !on_board(rank_of(s) + m * di, file_of(s) + m * dj),
{
    let i0 = rank_of(s);
    let j0 = file_of(s);
    assert(0 <= i0 < 8 && 0 <= j0 < 8);
    if di == 1 {
        assert(m * di >= k0 * di) by (nonlinear_arith)
            requires
                m >= k0 && di == 1,
        ;
    }
    if di == -1 {
        assert(m * di <= k0 * di) by (nonlinear_arith)
            requires
                m >= k0 && di == -1,
        ;
    }
    if dj == 1 {
        assert(m * dj >= k0 * dj) by (nonlinear_arith)
            requires
                m >= k0 && dj == 1,
        ;
    }
    if dj == -1 {
        assert(m * dj <= k0 * dj) by (nonlinear_arith)
            requires
                m >= k0 && dj == -1,
        ;
    }
    if di == 0 {
        assert(m * di == 0 && k0 * di == 0) by (nonlinear_arith)
            requires
                di == 0,
        ;
    }
    if dj == 0 {
        assert(m * dj == 0 && k0 * dj == 0) by (nonlinear_arith)
            requires
                dj == 0,
        ;
    }
}

/// Past an occupied square a ray yields nothing new: every hit of the full
/// walk was reached before the blocker.
pub proof fn lemma_ray_blocked_stays(
    occ: BitB64,
    s: int,
    di: int,
    dj: int,
    k0: int,
    t: int,
)
    requires
        1 <= k0 < 8,
        on_board(rank_of(s) + k0 * di, file_of(s) + k0 * dj),
        bit64(occ, square_at(rank_of(s) + k0 * di, file_of(s) + k0 * dj) as u64),
    ensures
        ray_hit_upto(occ, s, di, dj, 8, t) == ray_hit_upto(occ, s, di, dj, k0 + 1, t),
{
    lemma_ray_upto_mono(occ, s, di, dj, k0 + 1, 8, t);
    if ray_hit_upto(occ, s, di, dj, 8, t) {
        let k = choose|k: int|
            #![trigger square_at(rank_of(s) + k * di, file_of(s) + k * dj)]
            1 <= k < 8 && on_board(rank_of(s) + k * di, file_of(s) + k * dj) && t == square_at(
                rank_of(s) + k * di,
                file_of(s) + k * dj,
            ) && (forall|m: int|
                1 <= m < k ==> !bit64(
                    occ,
                    #[trigger] square_at(rank_of(s) + m * di, file_of(s) + m * dj) as u64,
                ));
        if k > k0 {
            assert(!bit64(
                occ,
                square_at(rank_of(s) + k0 * di, file_of(s) + k0 * dj) as u64,
            ));
            assert(false);
        }
        assert(ray_hit_upto(occ, s, di, dj, k0 + 1, t));
    }
}

/// Similarly, past the edge of the board a ray yields nothing new.
pub proof fn lemma_ray_edge_stays(occ: BitB64, s: int, di: int, dj: int, k0: int, t: int)
    requires
        valid_square(s),
        -1 <= di <= 1,
        -1 <= dj <= 1,
        1 <= k0 <= 8,
        !on_board(rank_of(s) + k0 * di, file_of(s) + k0 * dj),
    ensures
        ray_hit_upto(occ, s, di, dj, 8, t) == ray_hit_upto(occ, s, di, dj, k0, t),
{
    lemma_ray_upto_mono(occ, s, di, dj, k0, 8, t);
    if ray_hit_upto(occ, s, di, dj, 8, t) {
        let k = choose|k: int|
            #![trigger square_at(rank_of(s) + k * di, file_of(s) + k * dj)]
            1 <= k < 8 && on_board(rank_of(s) + k * di, file_of(s) + k * dj) && t == square_at(
                rank_of(s) + k * di,
                file_of(s) + k * dj,
            ) && (forall|m: int|
                1 <= m < k ==> !bit64(
                    occ,
                    #[trigger] square_at(rank_of(s) + m * di, file_of(s) + m * dj) as u64,
                ));
        if k >= k0 {
            lemma_ray_off_board_stays(s, di, dj, k0, k);
            assert(false);
        }
        assert(ray_hit_upto(occ, s, di, dj, k0, t));
    }
}

/// Attack along any of the four diagonals.
pub open spec fn diag_attack(occ: BitB64, s: int, t: int) -> bool {
    valid_square(s) && (ray_attack(occ, s, 1, 1, t) || ray_attack(occ, s, 1, -1, t) || ray_attack(
        occ,
        s,
        -1,
        1,
        t,
    ) || ray_attack(occ, s, -1, -1, t))
}

/// Attack along any rank or file direction.
pub open spec fn ortho_attack(occ: BitB64, s: int, t: int) -> bool {
    valid_square(s) && (ray_attack(occ, s, 1, 0, t) || ray_attack(occ, s, -1, 0, t) || ray_attack(
        occ,
        s,
        0,
        1,
    t) || ray_attack(occ, s, 0, -1, t))
}

/// A piece of kind `k` belonging to `c`, standing on `s`, covers `t` on
/// board `b` (self-occupancy of `t` not yet considered).
pub open spec fn piece_covers(b: Board, c: PlayerColor, k: PieceType, s: int, t: int) -> bool {
    match k {
        PieceType::Pawn => pawn_shape(c, s, t),
        PieceType::Knight => knight_shape(s, t),
        PieceType::Bishop => diag_attack(b.occ_all(), s, t),
        PieceType::Rook => ortho_attack(b.occ_all(), s, t),
        PieceType::Queen => diag_attack(b.occ_all(), s, t) || ortho_attack(b.occ_all(), s, t),
        PieceType::King => king_shape(s, t),
    }
}

/// Square `t` is in the raw-attack set of side `c`: some piece of `c`
/// covers it and `c` does not occupy it itself.
pub open spec fn attacked_by(b: Board, c: PlayerColor, t: int) -> bool {
    valid_square(t) && !b.side(c).occupies(t as u64) && exists|k: PieceType, s: int|
        valid_square(s) && b.side(c).has(k, s as u64) && #[trigger] piece_covers(b, c, k, s, t)
}

/// The king of side `c` stands on a square the other side attacks.
pub open spec fn king_capturable(b: Board, c: PlayerColor) -> bool {
    exists|t: int|
        valid_square(t) && bit64(b.side(c).king, t as u64) && #[trigger] attacked_by(
            b,
            c.other_spec(),
            t,
        )
}

// ---------------------------------------------------------------------------
// Pseudo-legal destinations, per piece kind, for the side to move.
// ---------------------------------------------------------------------------
/// A knight of the side to move on `s` may go to `t`.
pub open spec fn knight_dest(b: Board, s: int, t: int) -> bool {
    knight_shape(s, t) && !b.ally().occupies(t as u64)
}

/// A king of the side to move on `s` may step to `t` (castling aside).
pub open spec fn king_dest(b: Board, s: int, t: int) -> bool {
    king_shape(s, t) && !b.ally().occupies(t as u64)
}

pub open spec fn bishop_dest(b: Board, s: int, t: int) -> bool {
    diag_attack(b.occ_all(), s, t) && !b.ally().occupies(t as u64)
}

pub open spec fn rook_dest(b: Board, s: int, t: int) -> bool {
    ortho_attack(b.occ_all(), s, t) && !b.ally().occupies(t as u64)
}

pub open spec fn queen_dest(b: Board, s: int, t: int) -> bool {
    bishop_dest(b, s, t) || rook_dest(b, s, t)
}

/// A pawn of the side to move on `s` may go to `t` by an ordinary move:
/// a one-square advance onto an empty square, a two-square advance from the
/// start rank across two empty squares, or a diagonal capture of an enemy.
pub open spec fn pawn_dest(b: Board, s: int, t: int) -> bool {
    let c = b.to_move();
    let d = pawn_dir(c);
    valid_square(s) && valid_square(t) && (
    (file_of(t) == file_of(s) && rank_of(t) == rank_of(s) + d && !b.occupied(t)) || (file_of(t)
        == file_of(s) && rank_of(s) == pawn_start_rank(c) && rank_of(t) == rank_of(s) + 2 * d
        && !b.occupied(square_at(rank_of(s) + d, file_of(s))) && !b.occupied(t)) || (pawn_shape(
        c,
        s,
        t,
    ) && b.enemy().occupies(t as u64)))
}

/// The flagged en-passant capture: the side to move holds the flag for file
/// `file_of(t)`, its pawn stands on the en-passant rank one file aside, the
/// enemy pawn that just double-advanced stands beside it, and the
/// destination square is empty.
pub open spec fn ep_dest(b: Board, s: int, t: int) -> bool {
    let c = b.to_move();
    valid_square(s) && valid_square(t) && bit8(b.usable_en_passant(c), file_of(t) as u8) && rank_of(
        s,
    ) == ep_rank(c) && rank_of(t) == rank_of(s) + pawn_dir(c) && (file_of(t) - file_of(s)) * (
    file_of(t) - file_of(s)) == 1 && b.enemy().has(
        PieceType::Pawn,
        square_at(rank_of(s), file_of(t)) as u64,
    ) && !b.occupied(t)
}

// ---------------------------------------------------------------------------
// Castling.
// ---------------------------------------------------------------------------
pub open spec fn home_rank(c: PlayerColor) -> int {
    match c {
        PlayerColor::White => 0,
        PlayerColor::Black => 7,
    }
}

pub open spec fn king_home(c: PlayerColor) -> int {
    square_at(home_rank(c), 4)
}

/// Short castling is offered exactly when the rights bit is set, king and
/// rook stand on their home squares, the two squares between them are
/// empty, and none of the king's origin, crossing and landing squares is
/// attacked by the other side.
pub open spec fn short_castle_ok(b: Board, c: PlayerColor) -> bool {
    let r = home_rank(c);
    &&& b.has_short_castling_rights(c)
    &&& bit64(b.side(c).king, king_home(c) as u64)
    &&& b.side(c).has(PieceType::Rook, square_at(r, 7) as u64)
    &&& !b.occupied(square_at(r, 5))
    &&& !b.occupied(square_at(r, 6))
    &&& !attacked_by(b, c.other_spec(), square_at(r, 4))
    &&& !attacked_by(b, c.other_spec(), square_at(r, 5))
    &&& !attacked_by(b, c.other_spec(), square_at(r, 6))
}

/// Long castling, symmetrically; the rook's path B-C-D must be empty while
/// only C, D and the king's origin E need to be safe.
pub open spec fn long_castle_ok(b: Board, c: PlayerColor) -> bool {
    let r = home_rank(c);
    &&& b.has_long_castling_rights(c)
    &&& bit64(b.side(c).king, king_home(c) as u64)
    &&& b.side(c).has(PieceType::Rook, square_at(r, 0) as u64)
    &&& !b.occupied(square_at(r, 1))
    &&& !b.occupied(square_at(r, 2))
    &&& !b.occupied(square_at(r, 3))
    &&& !attacked_by(b, c.other_spec(), square_at(r, 2))
    &&& !attacked_by(b, c.other_spec(), square_at(r, 3))
    &&& !attacked_by(b, c.other_spec(), square_at(r, 4))
}

// ---------------------------------------------------------------------------
// What applying a move needs and does.
// ---------------------------------------------------------------------------
/// The occupancy facts a move must satisfy for `apply_board` to preserve
/// well-formedness: the mover stands on the origin, the destination is free
/// of allies, and each special kind finds the pieces its side effects touch.
/// Every pseudo-legal move satisfies this.
pub open spec fn move_ok(b: Board, mv: BitboardMove, piece: ChessPiece) -> bool {
    let c = piece.color;
    let from = mv.from as int;
    let to = mv.to as int;
    &&& c == b.to_move()
    &&& valid_square(from)
    &&& valid_square(to)
    &&& to != from
    &&& b.side(c).has(piece.typpe, mv.from as u64)
    &&& !b.side(c).occupies(mv.to as u64)
    &&& match mv.sp_move_type {
        SpecialMoveType::RegularMove => true,
        SpecialMoveType::ShortCastle => {
            let r = home_rank(c);
            &&& piece.typpe == PieceType::King
            &&& from == king_home(c)
            &&& to == square_at(r, 6)
            &&& b.side(c).has(PieceType::Rook, square_at(r, 7) as u64)
            &&& !b.occupied(square_at(r, 5))
            &&& !b.occupied(square_at(r, 6))
        },
        SpecialMoveType::LongCastle => {
            let r = home_rank(c);
            &&& piece.typpe == PieceType::King
            &&& from == king_home(c)
            &&& to == square_at(r, 2)
            &&& b.side(c).has(PieceType::Rook, square_at(r, 0) as u64)
            &&& !b.occupied(square_at(r, 1))
            &&& !b.occupied(square_at(r, 2))
            &&& !b.occupied(square_at(r, 3))
        },
        SpecialMoveType::PromotionToKnight
        | SpecialMoveType::PromotionToBishop
        | SpecialMoveType::PromotionToRook
        | SpecialMoveType::PromotionToQueen => {
            &&& piece.typpe == PieceType::Pawn
            &&& rank_of(from) == pawn_promo_rank(c)
        },
        SpecialMoveType::EnPassantLeft | SpecialMoveType::EnPassantRight => {
            &&& piece.typpe == PieceType::Pawn
            &&& ep_dest(b, from, to)
        },
    }
}

/// Distinct on-board coordinates give distinct squares.
pub proof fn lemma_square_at_injective(a: int, c: int, d: int, e: int)
    requires
        on_board(a, c),
        on_board(d, e),
        square_at(a, c) == square_at(d, e),
    ensures
        a == d && c == e,
{
}

/// An ordinary destination never sits on an ally square nor on the origin.
pub proof fn lemma_piece_dest_move_ok(b: Board, k: PieceType, s: int, t: int)
    requires
        b.wf(),
        valid_square(s),
        valid_square(t),
        piece_dest(b, k, s, t),
    ensures
        !b.ally().occupies(t as u64),
        t != s,
{
    crate::bits::lemma_bit64_ops();
    crate::bitboard::lemma_all_pieces_bits(b.ally(), t as u64);
    crate::bitboard::lemma_all_pieces_bits(b.enemy(), t as u64);
    match k {
        PieceType::Pawn => {
            if pawn_dest(b, s, t) {
                if rank_of(t) != rank_of(s) {
                    assert(t != s);
                }
                if b.enemy().occupies(t as u64) {
                    // the sides never share a square
                    crate::bitboard::lemma_disjoint_masks_bit(
                        b.white.all_spec(),
                        b.black.all_spec(),
                        t as u64,
                    );
                } else {
                    assert(!b.occupied(t));
                }
            }
        },
        PieceType::Knight => {
            if t == s {
                assert(rank_of(t) - rank_of(s) == 0 && file_of(t) - file_of(s) == 0);
            }
        },
        PieceType::King => {},
        _ => {
            let occ = b.occ_all();
            assert forall|di: int, dj: int|
                (-1 <= di <= 1 && -1 <= dj <= 1 && !(di == 0 && dj == 0) && #[trigger] ray_attack(
                    occ,
                    s,
                    di,
                    dj,
                    t,
                )) implies t != s by {
                let kk = choose|kk: int|
                    #![trigger square_at(rank_of(s) + kk * di, file_of(s) + kk * dj)]
                    1 <= kk < 8 && on_board(rank_of(s) + kk * di, file_of(s) + kk * dj) && t
                        == square_at(rank_of(s) + kk * di, file_of(s) + kk * dj) && (forall|m: int|
                        1 <= m < kk ==> !bit64(
                            occ,
                            #[trigger] square_at(
                                rank_of(s) + m * di,
                                file_of(s) + m * dj,
                            ) as u64,
                        ));
                if t == s {
                    assert(square_at(rank_of(s), file_of(s)) == s);
                    lemma_square_at_injective(
                        rank_of(s) + kk * di,
                        file_of(s) + kk * dj,
                        rank_of(s),
                        file_of(s),
                    );
                    assert(kk * di == 0 && kk * dj == 0);
                    assert(di == 0 && dj == 0) by (nonlinear_arith)
                        requires
                            kk * di == 0 && kk * dj == 0 && 1 <= kk,
                    ;
                }
            }
        },
    }
}

/// Every move the canonical destination walk lists satisfies the
/// occupancy facts `apply_board` needs.
pub proof fn lemma_square_upto_ok(b: Board, k: PieceType, s: int, n: int, i: int)
    requires
        b.wf(),
        valid_square(s),
        b.ally().has(k, s as u64),
        0 <= n <= 64,
        0 <= i < square_moves_upto(b, k, s, n).len(),
    ensures
        move_ok(
            b,
            square_moves_upto(b, k, s, n)[i],
            ChessPiece { typpe: k, color: b.to_move() },
        ),
    decreases n,
{
    let piece = ChessPiece { typpe: k, color: b.to_move() };
    if n > 0 {
        let prev = square_moves_upto(b, k, s, n - 1);
        if i < prev.len() {
            lemma_square_upto_ok(b, k, s, n - 1, i);
        } else {
            let t = n - 1;
            assert(piece_dest(b, k, s, t));
            lemma_piece_dest_move_ok(b, k, s, t);
            let mv = square_moves_upto(b, k, s, n)[i];
            assert(mv.from == s && mv.to == t);
        }
    }
}

/// Every move in a piece's canonical pseudo-legal list satisfies the
/// occupancy facts `apply_board` needs: the board after any of them is
/// well formed and correctly hashed.
pub proof fn lemma_square_moves_ok(b: Board, k: PieceType, s: int, i: int)
    requires
        b.wf(),
        valid_square(s),
        b.ally().has(k, s as u64),
        0 <= i < square_moves(b, k, s).len(),
    ensures
        move_ok(b, square_moves(b, k, s)[i], ChessPiece { typpe: k, color: b.to_move() }),
{
    crate::bits::lemma_bit64_ops();
    let piece = ChessPiece { typpe: k, color: b.to_move() };
    let base = square_moves_upto(b, k, s, 64);
    if i < base.len() {
        lemma_square_upto_ok(b, k, s, 64, i);
    } else {
        let c = b.to_move();
        match k {
            PieceType::Pawn => {
                let mv = square_moves(b, k, s)[i];
                assert(ep_dest(b, s, mv.to as int));
                crate::bitboard::lemma_all_pieces_bits(b.ally(), mv.to as u64);
            },
            PieceType::King => {
                let mv = square_moves(b, k, s)[i];
                let r = home_rank(c);
                crate::bitboard::lemma_all_pieces_bits(b.ally(), mv.to as u64);
                if mv.sp_move_type == SpecialMoveType::ShortCastle {
                    assert(short_castle_ok(b, c));
                    assert(mv.to as int == square_at(r, 6));
                    assert(!b.occupied(square_at(r, 6)));
                } else {
                    assert(long_castle_ok(b, c));
                    assert(mv.to as int == square_at(r, 2));
                    assert(!b.occupied(square_at(r, 2)));
                }
            },
            _ => {
                assert(false);
            },
        }
    }
}

/// What each entry of the canonical legal map holds: its square's piece
/// kind and that piece's filtered move list.
pub proof fn lemma_legal_map_entry(b: Board, n: int, i: int)
    requires
        0 <= n <= 64,
        0 <= i < legal_map_upto(b, n).len(),
    ensures
        ({
            let e = legal_map_upto(b, n)[i];
            &&& (e.0 as int) < n
            &&& moving_piece(b, e.0 as int) == Some(e.1)
            &&& e.2 == legal_square_moves(b, e.1, e.0 as int)
        }),
    decreases n,
{
    if n > 0 {
        let prev = legal_map_upto(b, n - 1);
        if i < prev.len() {
            lemma_legal_map_entry(b, n - 1, i);
        }
    }
}

/// Every move the legality filter keeps was in the unfiltered list.
pub proof fn lemma_filter_legal_sub(b: Board, k: PieceType, l: Seq<BitboardMove>, i: int)
    requires
        0 <= i < filter_legal(b, k, l).len(),
    ensures
        exists|jj: int| 0 <= jj < l.len() && l[jj] == filter_legal(b, k, l)[i],
        !leaves_king_capturable(b, k, filter_legal(b, k, l)[i]),
    decreases l.len(),
{
    if l.len() > 0 {
        let prev = filter_legal(b, k, l.drop_last());
        if i < prev.len() {
            lemma_filter_legal_sub(b, k, l.drop_last(), i);
            let jj = choose|jj: int|
                0 <= jj < l.drop_last().len() && l.drop_last()[jj] == prev[i];
            assert(l[jj] == prev[i]);
        } else {
            assert(l[l.len() - 1] == filter_legal(b, k, l)[i]);
        }
    }
}

/// A move that leaves the mover's own king capturable never appears in
/// the legal map, though it may appear in the pseudo-legal one.
pub proof fn lemma_legal_map_keeps_king_safe(b: Board, i: int, j: int)
    requires
        0 <= i < legal_map(b).len(),
        0 <= j < legal_map(b)[i].2.len(),
    ensures
        !leaves_king_capturable(b, legal_map(b)[i].1, legal_map(b)[i].2[j]),
{
    lemma_legal_map_entry(b, 64, i);
    let e = legal_map(b)[i];
    lemma_filter_legal_sub(b, e.1, square_moves(b, e.1, e.0 as int), j);
}

/// The mask `m` with bit `s` cleared.
pub open spec fn clear_bit(m: BitB64, s: int) -> BitB64 {
    m & (u64::MAX ^ (1u64 << s as u64))
}

/// The side with whatever piece stands on `s` removed.
pub open spec fn clear_square(pb: PlayerBitboard, s: int) -> PlayerBitboard {
    PlayerBitboard {
        pawns: clear_bit(pb.pawns, s),
        knights: clear_bit(pb.knights, s),
        bishops: clear_bit(pb.bishops, s),
        rooks: clear_bit(pb.rooks, s),
        queens: clear_bit(pb.queens, s),
        king: clear_bit(pb.king, s),
    }
}

/// The side with its piece of kind `k` relocated from `from` to `to`.
pub open spec fn relocate(pb: PlayerBitboard, k: PieceType, from: int, to: int) -> PlayerBitboard {
    pb.with_pieces(k, (pb.pieces_spec(k) ^ (1u64 << from as u64)) | (1u64 << to as u64))
}

pub open spec fn promo_kind(t: SpecialMoveType) -> PieceType {
    match t {
        SpecialMoveType::PromotionToKnight => PieceType::Knight,
        SpecialMoveType::PromotionToBishop => PieceType::Bishop,
        SpecialMoveType::PromotionToRook => PieceType::Rook,
        SpecialMoveType::PromotionToQueen => PieceType::Queen,
        _ => PieceType::Pawn,
    }
}

/// Whether this move is a pawn double advance, which raises the other
/// side's en-passant flag on the pawn's file.
pub open spec fn is_double_advance(mv: BitboardMove, piece: ChessPiece) -> bool {
    piece.typpe == PieceType::Pawn && mv.sp_move_type == SpecialMoveType::RegularMove && (rank_of(
        mv.to as int,
    ) - rank_of(mv.from as int)) * (rank_of(mv.to as int) - rank_of(mv.from as int)) == 4
}

/// The square of the pawn an en-passant capture removes: beside the
/// capturing pawn's origin, on the destination file.
pub open spec fn ep_victim_square(mv: BitboardMove) -> int {
    square_at(rank_of(mv.from as int), file_of(mv.to as int))
}

/// The board after `piece` makes `mv`: the mover relocated, any enemy piece
/// on the destination (or the passed pawn) removed, castling's rook
/// co-moved, a promotion's pawn exchanged for the chosen kind, the turn
/// flipped, and the mover's own en-passant flags consumed while a double
/// advance raises the other side's flag on that file.
pub open spec fn apply_board(b: Board, mv: BitboardMove, piece: ChessPiece) -> Board {
    let c = piece.color;
    let from = mv.from as int;
    let to = mv.to as int;
    let moved = relocate(b.side(c), piece.typpe, from, to);
    let ally1 = match mv.sp_move_type {
        SpecialMoveType::ShortCastle => relocate(
            moved,
            PieceType::Rook,
            square_at(home_rank(c), 7),
            square_at(home_rank(c), 5),
        ),
        SpecialMoveType::LongCastle => relocate(
            moved,
            PieceType::Rook,
            square_at(home_rank(c), 0),
            square_at(home_rank(c), 3),
        ),
        SpecialMoveType::PromotionToKnight
        | SpecialMoveType::PromotionToBishop
        | SpecialMoveType::PromotionToRook
        | SpecialMoveType::PromotionToQueen => moved.with_pieces(
            promo_kind(mv.sp_move_type),
            moved.pieces_spec(promo_kind(mv.sp_move_type)) ^ (1u64 << to as u64),
        ).with_pieces(PieceType::Pawn, moved.pawns ^ (1u64 << to as u64)),
        _ => moved,
    };
    let enemy1 = match mv.sp_move_type {
        SpecialMoveType::EnPassantLeft | SpecialMoveType::EnPassantRight => clear_square(
            b.side(c.other_spec()),
            ep_victim_square(mv),
        ),
        _ => clear_square(b.side(c.other_spec()), to),
    };
    let ep_file_mask: u8 = if is_double_advance(mv, piece) {
        1u8 << (file_of(to) as u8)
    } else {
        0u8
    };
    Board {
        white: if c == PlayerColor::White {
            ally1
        } else {
            enemy1
        },
        black: if c == PlayerColor::Black {
            ally1
        } else {
            enemy1
        },
        black_to_move: !b.black_to_move,
        castling_rights: b.castling_rights,
        white_usable_en_passant: if c == PlayerColor::Black {
            ep_file_mask
        } else {
            0u8
        },
        black_usable_en_passant: if c == PlayerColor::White {
            ep_file_mask
        } else {
            0u8
        },
    }
}

/// The piece the side to move would move from square `s`.
pub open spec fn moving_piece(b: Board, s: int) -> Option<PieceType> {
    b.ally().piece_at(s as u64)
}

/// A move of the side to move that leaves its own king capturable; such
/// moves are pseudo-legal at most, never legal.
pub open spec fn leaves_king_capturable(b: Board, k: PieceType, mv: BitboardMove) -> bool {
    king_capturable(
        apply_board(b, mv, ChessPiece { typpe: k, color: b.to_move() }),
        b.to_move(),
    )
}

// ---------------------------------------------------------------------------
// The canonical move lists: per origin square, destinations ascending, a
// far-rank pawn destination expanded into the four promotions, en-passant
// and castle moves appended last. Move maps list origin squares ascending.
// ---------------------------------------------------------------------------
pub open spec fn mk_move(s: int, t: int, sp: SpecialMoveType) -> BitboardMove {
    BitboardMove { from: s as u8, to: t as u8, sp_move_type: sp }
}

/// Whether a piece of kind `k` of the side to move on `s` may go to `t` by
/// an ordinary destination move (captures included, specials excluded).
pub open spec fn piece_dest(b: Board, k: PieceType, s: int, t: int) -> bool {
    match k {
        PieceType::Pawn => pawn_dest(b, s, t),
        PieceType::Knight => knight_dest(b, s, t),
        PieceType::Bishop => bishop_dest(b, s, t),
        PieceType::Rook => rook_dest(b, s, t),
        PieceType::Queen => queen_dest(b, s, t),
        PieceType::King => king_dest(b, s, t),
    }
}

pub open spec fn promo_moves(s: int, t: int) -> Seq<BitboardMove> {
    seq![
        mk_move(s, t, SpecialMoveType::PromotionToBishop),
        mk_move(s, t, SpecialMoveType::PromotionToKnight),
        mk_move(s, t, SpecialMoveType::PromotionToRook),
        mk_move(s, t, SpecialMoveType::PromotionToQueen),
    ]
}

/// The moves a destination square contributes to the canonical list.
pub open spec fn dest_moves(b: Board, k: PieceType, s: int, t: int) -> Seq<BitboardMove> {
    if piece_dest(b, k, s, t) {
        if k == PieceType::Pawn && rank_of(s) == pawn_promo_rank(b.to_move()) {
            promo_moves(s, t)
        } else {
            seq![mk_move(s, t, SpecialMoveType::RegularMove)]
        }
    } else {
        Seq::empty()
    }
}

pub open spec fn square_moves_upto(b: Board, k: PieceType, s: int, n: int) -> Seq<BitboardMove>
    decreases n,
{
    if n <= 0 {
        Seq::empty()
    } else {
        square_moves_upto(b, k, s, n - 1) + dest_moves(b, k, s, n - 1)
    }
}

/// The en-passant moves appended to a pawn's list: capture toward the lower
/// file first, then toward the higher.
pub open spec fn pawn_extra_moves(b: Board, s: int) -> Seq<BitboardMove> {
    let c = b.to_move();
    let tl = square_at(rank_of(s) + pawn_dir(c), file_of(s) - 1);
    let tr = square_at(rank_of(s) + pawn_dir(c), file_of(s) + 1);
    (if file_of(s) > 0 && ep_dest(b, s, tl) {
        seq![mk_move(s, tl, SpecialMoveType::EnPassantLeft)]
    } else {
        Seq::empty()
    }) + (if file_of(s) < 7 && ep_dest(b, s, tr) {
        seq![mk_move(s, tr, SpecialMoveType::EnPassantRight)]
    } else {
        Seq::empty()
    })
}

/// The castle moves appended to the king's list: short before long.
pub open spec fn king_extra_moves(b: Board, s: int) -> Seq<BitboardMove> {
    let c = b.to_move();
    let r = home_rank(c);
    (if s == king_home(c) && short_castle_ok(b, c) {
        seq![mk_move(s, square_at(r, 6), SpecialMoveType::ShortCastle)]
    } else {
        Seq::empty()
    }) + (if s == king_home(c) && long_castle_ok(b, c) {
        seq![mk_move(s, square_at(r, 2), SpecialMoveType::LongCastle)]
    } else {
        Seq::empty()
    })
}

/// The full canonical pseudo-legal list of the piece of kind `k` on `s`.
pub open spec fn square_moves(b: Board, k: PieceType, s: int) -> Seq<BitboardMove> {
    square_moves_upto(b, k, s, 64) + (match k {
        PieceType::Pawn => pawn_extra_moves(b, s),
        PieceType::King => king_extra_moves(b, s),
        _ => Seq::empty(),
    })
}

/// One entry of a moves map: an origin square, the piece kind there, and
/// its move list.
pub type MapEntry = (u8, PieceType, Seq<BitboardMove>);

/// The canonical map one generator produces: an entry for each square
/// below `n` holding a piece of kind `k` with at least one move.
pub open spec fn kind_map_upto(b: Board, k: PieceType, n: int) -> Seq<MapEntry>
    decreases n,
{
    if n <= 0 {
        Seq::empty()
    } else {
        let s = n - 1;
        kind_map_upto(b, k, n - 1) + (if b.ally().has(k, s as u64) && square_moves(b, k, s).len()
            > 0 {
            seq![(s as u8, k, square_moves(b, k, s))]
        } else {
            Seq::empty()
        })
    }
}

pub open spec fn kind_map(b: Board, k: PieceType) -> Seq<MapEntry> {
    kind_map_upto(b, k, 64)
}

/// The canonical pseudo-legal map: for every occupied square of the side to
/// move whose piece has at least one move, its entry, squares ascending.
pub open spec fn pseudo_map_upto(b: Board, n: int) -> Seq<MapEntry>
    decreases n,
{
    if n <= 0 {
        Seq::empty()
    } else {
        let s = n - 1;
        pseudo_map_upto(b, n - 1) + (match moving_piece(b, s) {
            Some(k) => if square_moves(b, k, s).len() > 0 {
                seq![(s as u8, k, square_moves(b, k, s))]
            } else {
                Seq::empty()
            },
            None => Seq::empty(),
        })
    }
}

pub open spec fn pseudo_map(b: Board) -> Seq<MapEntry> {
    pseudo_map_upto(b, 64)
}

/// A move list with every move that leaves the mover's king capturable
/// removed, original order kept.
pub open spec fn filter_legal(b: Board, k: PieceType, l: Seq<BitboardMove>) -> Seq<BitboardMove>
    decreases l.len(),
{
    if l.len() == 0 {
        Seq::empty()
    } else {
        filter_legal(b, k, l.drop_last()) + (if !leaves_king_capturable(b, k, l.last()) {
            seq![l.last()]
        } else {
            Seq::empty()
        })
    }
}

/// The legal moves of the piece of kind `k` on `s`: its pseudo-legal list
/// with every move that leaves the mover's king capturable removed.
pub open spec fn legal_square_moves(b: Board, k: PieceType, s: int) -> Seq<BitboardMove> {
    filter_legal(b, k, square_moves(b, k, s))
}

/// The canonical legal map: squares whose pieces keep at least one legal
/// move, ascending, each with its filtered list.
pub open spec fn legal_map_upto(b: Board, n: int) -> Seq<MapEntry>
    decreases n,
{
    if n <= 0 {
        Seq::empty()
    } else {
        let s = n - 1;
        legal_map_upto(b, n - 1) + (match moving_piece(b, s) {
            Some(k) => if legal_square_moves(b, k, s).len() > 0 {
                seq![(s as u8, k, legal_square_moves(b, k, s))]
            } else {
                Seq::empty()
            },
            None => Seq::empty(),
        })
    }
}

pub open spec fn legal_map(b: Board) -> Seq<MapEntry> {
    legal_map_upto(b, 64)
}

/// The destinations-ascending move list a mask stands for: one regular
/// move per set bit below `n`.
pub open spec fn mask_move_list(from: int, m: BitB64, n: int) -> Seq<BitboardMove>
    decreases n,
{
    if n <= 0 {
        Seq::empty()
    } else {
        mask_move_list(from, m, n - 1) + (if bit64(m, (n - 1) as u64) {
            seq![mk_move(from, n - 1, SpecialMoveType::RegularMove)]
        } else {
            Seq::empty()
        })
    }
}

/// The same list with each move expanded into the four promotions.
pub open spec fn promo_expand(l: Seq<BitboardMove>) -> Seq<BitboardMove>
    decreases l.len(),
{
    if l.len() == 0 {
        Seq::empty()
    } else {
        promo_expand(l.drop_last()) + promo_moves(l.last().from as int, l.last().to as int)
    }
}

/// Which side a perspective selects as "ally": the side to move, or the
/// waiting side, whose moves are generated as if it were its turn.
pub open spec fn persp_board(b: Board, waiting: bool) -> Board {
    if waiting {
        Board { black_to_move: !b.black_to_move, ..b }
    } else {
        b
    }
}

/// The squares a side's pieces of one kind cover, self-occupied squares
/// left out: that kind's contribution to the raw-attack set.
pub open spec fn kind_attacks(b: Board, c: PlayerColor, k: PieceType, t: int) -> bool {
    valid_square(t) && !b.side(c).occupies(t as u64) && exists|s: int|
        valid_square(s) && b.side(c).has(k, s as u64) && #[trigger] piece_covers(b, c, k, s, t)
}

/// A capture-pattern destination of the piece of kind `k` on `s`: a square
/// the piece covers and no ally occupies. For every kind but the pawn this
/// coincides with its ordinary destinations.
pub open spec fn attack_dest(b: Board, k: PieceType, s: int, t: int) -> bool {
    piece_covers(b, b.to_move(), k, s, t) && !b.ally().occupies(t as u64)
}

pub open spec fn attack_list_upto(b: Board, k: PieceType, s: int, n: int) -> Seq<BitboardMove>
    decreases n,
{
    if n <= 0 {
        Seq::empty()
    } else {
        attack_list_upto(b, k, s, n - 1) + (if attack_dest(b, k, s, n - 1) {
            seq![mk_move(s, n - 1, SpecialMoveType::RegularMove)]
        } else {
            Seq::empty()
        })
    }
}

/// The capture-pattern list of the piece of kind `k` on `s`.
pub open spec fn attack_list(b: Board, k: PieceType, s: int) -> Seq<BitboardMove> {
    attack_list_upto(b, k, s, 64)
}

pub open spec fn kind_attack_map_upto(b: Board, k: PieceType, n: int) -> Seq<MapEntry>
    decreases n,
{
    if n <= 0 {
        Seq::empty()
    } else {
        let s = n - 1;
        kind_attack_map_upto(b, k, n - 1) + (if b.ally().has(k, s as u64) && attack_list(
            b,
            k,
            s,
        ).len() > 0 {
            seq![(s as u8, k, attack_list(b, k, s))]
        } else {
            Seq::empty()
        })
    }
}

/// The capture-pattern map of one kind, squares ascending.
pub open spec fn kind_attack_map(b: Board, k: PieceType) -> Seq<MapEntry> {
    kind_attack_map_upto(b, k, 64)
}

/// A mask whose bits are a piece's ordinary destinations lists the same
/// moves as the canonical destination walk (promotion squares aside).
pub proof fn lemma_mask_list_matches(b: Board, k: PieceType, s: int, m: BitB64, n: int)
    requires
        n <= 64,
        forall|t: int| 0 <= t < 64 ==> (bit64(m, t as u64) == #[trigger] piece_dest(b, k, s, t)),
        k == PieceType::Pawn ==> rank_of(s) != pawn_promo_rank(b.to_move()),
    ensures
        mask_move_list(s, m, n) == square_moves_upto(b, k, s, n),
    decreases n,
{
    if n > 0 {
        lemma_mask_list_matches(b, k, s, m, n - 1);
    }
}

/// On a promotion square, expanding the mask's list into the four
/// promotions gives the canonical destination walk.
pub proof fn lemma_mask_list_promo(b: Board, s: int, m: BitB64, n: int)
    requires
        n <= 64,
        forall|t: int|
            0 <= t < 64 ==> (bit64(m, t as u64) == #[trigger] piece_dest(b, PieceType::Pawn, s, t)),
        rank_of(s) == pawn_promo_rank(b.to_move()),
    ensures
        promo_expand(mask_move_list(s, m, n)) == square_moves_upto(b, PieceType::Pawn, s, n),
    decreases n,
{
    if n > 0 {
        lemma_mask_list_promo(b, s, m, n - 1);
        let l = mask_move_list(s, m, n);
        let l0 = mask_move_list(s, m, n - 1);
        if bit64(m, (n - 1) as u64) {
            assert(l.drop_last() =~= l0);
        } else {
            assert(l =~= l0);
        }
    }
}

/// The same for a capture-pattern mask and the capture-pattern list.
pub proof fn lemma_mask_attack_list(b: Board, k: PieceType, s: int, m: BitB64, n: int)
    requires
        n <= 64,
        forall|t: int| 0 <= t < 64 ==> (bit64(m, t as u64) == #[trigger] attack_dest(b, k, s, t)),
    ensures
        mask_move_list(s, m, n) == attack_list_upto(b, k, s, n),
    decreases n,
{
    if n > 0 {
        lemma_mask_attack_list(b, k, s, m, n - 1);
    }
}

/// The destination list of a single slider, from raw masks: diagonal rays
/// when `diag`, rank-and-file rays otherwise.
pub open spec fn slider_list_upto(
    occ: BitB64,
    ally_all: BitB64,
    diag: bool,
    s: int,
    n: int,
) -> Seq<BitboardMove>
    decreases n,
{
    if n <= 0 {
        Seq::empty()
    } else {
        slider_list_upto(occ, ally_all, diag, s, n - 1) + (if (if diag {
            diag_attack(occ, s, n - 1)
        } else {
            ortho_attack(occ, s, n - 1)
        }) && !bit64(ally_all, (n - 1) as u64) {
            seq![mk_move(s, n - 1, SpecialMoveType::RegularMove)]
        } else {
            Seq::empty()
        })
    }
}

/// The per-square move map of every slider in `pieces`, squares ascending.
pub open spec fn slider_map_upto(
    k: PieceType,
    pieces: BitB64,
    occ: BitB64,
    ally_all: BitB64,
    diag: bool,
    n: int,
) -> Seq<MapEntry>
    decreases n,
{
    if n <= 0 {
        Seq::empty()
    } else {
        let s = n - 1;
        slider_map_upto(k, pieces, occ, ally_all, diag, n - 1) + (if bit64(pieces, s as u64)
            && slider_list_upto(occ, ally_all, diag, s, 64).len() > 0 {
            seq![(s as u8, k, slider_list_upto(occ, ally_all, diag, s, 64))]
        } else {
            Seq::empty()
        })
    }
}

/// A mask holding exactly a slider's ray destinations lists the same moves
/// as the slider's canonical list.
pub proof fn lemma_mask_slider_list(
    occ: BitB64,
    ally_all: BitB64,
    diag: bool,
    s: int,
    m: BitB64,
    n: int,
)
    requires
        n <= 64,
        forall|t: int|
            0 <= t < 64 ==> ((#[trigger] bit64(m, t as u64)) == ((if diag {
                diag_attack(occ, s, t)
            } else {
                ortho_attack(occ, s, t)
            }) && !bit64(ally_all, t as u64))),
    ensures
        mask_move_list(s, m, n) == slider_list_upto(occ, ally_all, diag, s, n),
    decreases n,
{
    if n > 0 {
        lemma_mask_slider_list(occ, ally_all, diag, s, m, n - 1);
        assert(bit64(m, (n - 1) as u64) == ((if diag {
            diag_attack(occ, s, n - 1)
        } else {
            ortho_attack(occ, s, n - 1)
        }) && !bit64(ally_all, (n - 1) as u64)));
    }
}

/// A mask's move list is empty exactly when the mask is zero.
pub proof fn lemma_mask_list_empty(s: int, m: BitB64)
    ensures
        (mask_move_list(s, m, 64).len() == 0) <==> (m == 0),
{
    lemma_bit64_ops();
    lemma_mask_list_len_rec(s, m, 64);
    if m != 0 {
        crate::bits::lemma_nonzero_has_bit(m);
    }
    if mask_move_list(s, m, 64).len() == 0 && m != 0 {
        let i = choose|i: u64| i < 64 && bit64(m, i);
        assert(false);
    }
}

proof fn lemma_mask_list_len_rec(s: int, m: BitB64, n: int)
    requires
        0 <= n <= 64,
    ensures
        (mask_move_list(s, m, n).len() == 0) <==> (forall|i: u64| i < n ==> !bit64(m, i)),
    decreases n,
{
    if n > 0 {
        lemma_mask_list_len_rec(s, m, n - 1);
        if mask_move_list(s, m, n).len() == 0 {
            assert forall|i: u64| i < n implies !bit64(m, i) by {
                if i < n - 1 {
                } else {
                    assert(!bit64(m, (n - 1) as u64));
                }
            }
        }
    }
}

/// Raw attacks do not depend on whose turn it is: flipping the perspective
/// changes which side is generated for, not what any side attacks.
pub proof fn lemma_attacked_by_btm_indep(b: Board, w: bool, c: PlayerColor, t: int)
    ensures
        attacked_by(persp_board(b, w), c, t) == attacked_by(b, c, t),
{
    let b2 = persp_board(b, w);
    assert(b2.side(c) == b.side(c));
    assert(b2.occ_all() == b.occ_all());
    if attacked_by(b2, c, t) {
        let (k, s) = choose|k: PieceType, s: int|
            valid_square(s) && b2.side(c).has(k, s as u64) && #[trigger] piece_covers(
                b2,
                c,
                k,
                s,
                t,
            );
        assert(piece_covers(b, c, k, s, t));
    }
    if attacked_by(b, c, t) {
        let (k, s) = choose|k: PieceType, s: int|
            valid_square(s) && b.side(c).has(k, s as u64) && #[trigger] piece_covers(b, c, k, s, t);
        assert(piece_covers(b2, c, k, s, t));
    }
}

/// The raw-attack set is the union of the six kinds' contributions.
pub proof fn lemma_attacked_by_kinds(b: Board, c: PlayerColor, t: int)
    ensures
        attacked_by(b, c, t) <==> (kind_attacks(b, c, PieceType::Pawn, t) || kind_attacks(
            b,
            c,
            PieceType::Knight,
            t,
        ) || kind_attacks(b, c, PieceType::Bishop, t) || kind_attacks(b, c, PieceType::Rook, t)
            || kind_attacks(b, c, PieceType::Queen, t) || kind_attacks(b, c, PieceType::King, t)),
{
    if attacked_by(b, c, t) {
        let (k, s) = choose|k: PieceType, s: int|
            valid_square(s) && b.side(c).has(k, s as u64) && #[trigger] piece_covers(b, c, k, s, t);
        assert(kind_attacks(b, c, k, t));
    }
}

// ---------------------------------------------------------------------------
// How the primitive board transformations read bit by bit, and that each
// keeps a side well formed. `apply_board` is their composition.
// ---------------------------------------------------------------------------
use crate::bits::lemma_bit64_ops;
use crate::bitboard::{lemma_all_pieces_bits, lemma_wf_iff_pairwise, lemma_wf_masks_disjoint};

pub proof fn lemma_relocate_props(pb: PlayerBitboard, k: PieceType, from: int, to: int)
    requires
        pb.wf(),
        0 <= from < 64,
        0 <= to < 64,
        from != to,
        pb.has(k, from as u64),
        !pb.occupies(to as u64),
    ensures
        relocate(pb, k, from, to).wf(),
        forall|t: PieceType, i: u64|
            i < 64 ==> (#[trigger] relocate(pb, k, from, to).has(t, i) == (if t == k {
                i as int == to || (pb.has(t, i) && i as int != from)
            } else {
                pb.has(t, i)
            })),
        forall|i: u64|
            i < 64 ==> (#[trigger] relocate(pb, k, from, to).occupies(i) == (i as int == to || (
            pb.occupies(i) && i as int != from))),
{
    lemma_bit64_ops();
    lemma_wf_iff_pairwise(pb);
    let pb2 = relocate(pb, k, from, to);
    lemma_all_pieces_bits(pb, to as u64);
    assert forall|t: PieceType, i: u64| i < 64 implies (#[trigger] pb2.has(t, i) == (if t == k {
        i as int == to || (pb.has(t, i) && i as int != from)
    } else {
        pb.has(t, i)
    })) by {
        assert(pb2.pieces_spec(k) == (pb.pieces_spec(k) ^ (1u64 << from as u64)) | (1u64
            << to as u64));
    }
    assert forall|i: u64| i < 64 implies (#[trigger] pb2.occupies(i) == (i as int == to || (
    pb.occupies(i) && i as int != from))) by {
        lemma_all_pieces_bits(pb, i);
        lemma_all_pieces_bits(pb2, i);
        if i as int == from {
            assert forall|t: PieceType| t != k implies !(#[trigger] pb.has(t, from as u64)) by {
                lemma_wf_masks_disjoint(pb, k, t, from as u64);
            }
            assert(!pb.has(PieceType::Pawn, i) || k == PieceType::Pawn);
            assert(!pb2.has(PieceType::Pawn, i));
            assert(!pb2.has(PieceType::Knight, i));
            assert(!pb2.has(PieceType::Bishop, i));
            assert(!pb2.has(PieceType::Rook, i));
            assert(!pb2.has(PieceType::Queen, i));
            assert(!pb2.has(PieceType::King, i));
            assert(!pb2.occupies(i));
        }
    }
    assert forall|t1: PieceType, t2: PieceType, i: u64|
        t1 != t2 && i < 64 implies !(#[trigger] pb2.has(t1, i) && #[trigger] pb2.has(
        t2,
        i,
    )) by {
        lemma_all_pieces_bits(pb, i);
        assert(!(pb.has(t1, i) && pb.has(t2, i)));
        if i as int == to {
            assert(!pb.has(t1, i) && !pb.has(t2, i));
        }
    }
    lemma_wf_iff_pairwise(pb2);
}

pub proof fn lemma_clear_square_props(pb: PlayerBitboard, s: int)
    requires
        pb.wf(),
        0 <= s < 64,
    ensures
        clear_square(pb, s).wf(),
        forall|t: PieceType, i: u64|
            i < 64 ==> (#[trigger] clear_square(pb, s).has(t, i) == (pb.has(t, i) && i as int
                != s)),
        forall|i: u64|
            i < 64 ==> (#[trigger] clear_square(pb, s).occupies(i) == (pb.occupies(i) && i as int
                != s)),
        pb.piece_at(s as u64) is Some ==> clear_square(pb, s) == pb.with_pieces(
            pb.piece_at(s as u64).unwrap(),
            pb.pieces_spec(pb.piece_at(s as u64).unwrap()) ^ (1u64 << s as u64),
        ),
        pb.piece_at(s as u64) is None ==> clear_square(pb, s) == pb,
{
    lemma_bit64_ops();
    lemma_wf_iff_pairwise(pb);
    let pb2 = clear_square(pb, s);
    assert forall|t: PieceType, i: u64| i < 64 implies (#[trigger] pb2.has(t, i) == (pb.has(t, i)
        && i as int != s)) by {
        assert(pb2.pieces_spec(t) == pb.pieces_spec(t) & (u64::MAX ^ (1u64 << s as u64)));
    }
    assert forall|i: u64| i < 64 implies (#[trigger] pb2.occupies(i) == (pb.occupies(i) && i as int
        != s)) by {
        lemma_all_pieces_bits(pb, i);
        lemma_all_pieces_bits(pb2, i);
    }
    assert forall|t1: PieceType, t2: PieceType, i: u64|
        t1 != t2 && i < 64 implies !(#[trigger] pb2.has(t1, i) && #[trigger] pb2.has(
        t2,
        i,
    )) by {
        assert(!(pb.has(t1, i) && pb.has(t2, i)));
    }
    lemma_wf_iff_pairwise(pb2);
    match pb.piece_at(s as u64) {
        Some(ck) => {
            assert forall|t: PieceType| t != ck implies !(#[trigger] pb.has(t, s as u64)) by {
                lemma_wf_masks_disjoint(pb, ck, t, s as u64);
            }
            assert(!pb.has(PieceType::Pawn, s as u64) || ck == PieceType::Pawn);
            let pb3 = pb.with_pieces(ck, pb.pieces_spec(ck) ^ (1u64 << s as u64));
            assert forall|t: PieceType| true implies #[trigger] pb2.pieces_spec(t)
                == pb3.pieces_spec(t) by {
                if t == ck {
                    crate::bits::lemma_set_clear_are_flips(pb.pieces_spec(t), s as u64);
                } else {
                    assert(pb.pieces_spec(t) & (1u64 << s as u64) == 0) by {
                        if pb.pieces_spec(t) & (1u64 << s as u64) != 0 {
                            assert(pb.has(t, s as u64));
                        }
                    }
                    crate::bits::lemma_clear_absent(pb.pieces_spec(t), s as u64);
                }
            }
            assert(pb2.pieces_spec(PieceType::Pawn) == pb3.pieces_spec(PieceType::Pawn));
            assert(pb2.pieces_spec(PieceType::Knight) == pb3.pieces_spec(PieceType::Knight));
            assert(pb2.pieces_spec(PieceType::Bishop) == pb3.pieces_spec(PieceType::Bishop));
            assert(pb2.pieces_spec(PieceType::Rook) == pb3.pieces_spec(PieceType::Rook));
            assert(pb2.pieces_spec(PieceType::Queen) == pb3.pieces_spec(PieceType::Queen));
            assert(pb2.pieces_spec(PieceType::King) == pb3.pieces_spec(PieceType::King));
            assert(pb2 =~= pb3);
        },
        None => {
            assert forall|t: PieceType| true implies #[trigger] pb2.pieces_spec(t)
                == pb.pieces_spec(t) by {
                assert(pb.pieces_spec(t) & (1u64 << s as u64) == 0) by {
                    if pb.pieces_spec(t) & (1u64 << s as u64) != 0 {
                        assert(pb.has(t, s as u64));
                        assert(pb.piece_at(s as u64) is Some);
                    }
                }
                crate::bits::lemma_clear_absent(pb.pieces_spec(t), s as u64);
            }
            assert(pb2.pieces_spec(PieceType::Pawn) == pb.pieces_spec(PieceType::Pawn));
            assert(pb2.pieces_spec(PieceType::Knight) == pb.pieces_spec(PieceType::Knight));
            assert(pb2.pieces_spec(PieceType::Bishop) == pb.pieces_spec(PieceType::Bishop));
            assert(pb2.pieces_spec(PieceType::Rook) == pb.pieces_spec(PieceType::Rook));
            assert(pb2.pieces_spec(PieceType::Queen) == pb.pieces_spec(PieceType::Queen));
            assert(pb2.pieces_spec(PieceType::King) == pb.pieces_spec(PieceType::King));
            assert(pb2 =~= pb);
        },
    }
}

/// The promotion exchange on the destination square: the pawn that just
/// arrived leaves the pawn mask and the chosen kind gains the square.
pub open spec fn promote_on(pb: PlayerBitboard, pk: PieceType, to: int) -> PlayerBitboard {
    pb.with_pieces(pk, pb.pieces_spec(pk) ^ (1u64 << to as u64)).with_pieces(
        PieceType::Pawn,
        pb.pawns ^ (1u64 << to as u64),
    )
}

pub proof fn lemma_promote_props(pb: PlayerBitboard, pk: PieceType, to: int)
    requires
        pb.wf(),
        0 <= to < 64,
        pb.has(PieceType::Pawn, to as u64),
        pk != PieceType::Pawn,
    ensures
        promote_on(pb, pk, to).wf(),
        forall|t: PieceType, i: u64|
            i < 64 ==> (#[trigger] promote_on(pb, pk, to).has(t, i) == (if t == PieceType::Pawn {
                pb.has(t, i) && i as int != to
            } else if t == pk {
                pb.has(t, i) || i as int == to
            } else {
                pb.has(t, i)
            })),
        forall|i: u64| i < 64 ==> (#[trigger] promote_on(pb, pk, to).occupies(i) == pb.occupies(i)),
{
    lemma_bit64_ops();
    lemma_wf_iff_pairwise(pb);
    let pb2 = promote_on(pb, pk, to);
    assert(!pb.has(pk, to as u64)) by {
        lemma_wf_masks_disjoint(pb, PieceType::Pawn, pk, to as u64);
    }
    assert forall|t: PieceType, i: u64| i < 64 implies (#[trigger] pb2.has(t, i) == (if t
        == PieceType::Pawn {
        pb.has(t, i) && i as int != to
    } else if t == pk {
        pb.has(t, i) || i as int == to
    } else {
        pb.has(t, i)
    })) by {
        assert(pb2.pieces_spec(PieceType::Pawn) == pb.pawns ^ (1u64 << to as u64));
        assert(pb2.pieces_spec(pk) == pb.pieces_spec(pk) ^ (1u64 << to as u64));
    }
    assert forall|i: u64| i < 64 implies (#[trigger] pb2.occupies(i) == pb.occupies(i)) by {
        lemma_all_pieces_bits(pb, i);
        lemma_all_pieces_bits(pb2, i);
    }
    assert forall|t1: PieceType, t2: PieceType, i: u64|
        t1 != t2 && i < 64 implies !(#[trigger] pb2.has(t1, i) && #[trigger] pb2.has(
        t2,
        i,
    )) by {
        assert(!(pb.has(t1, i) && pb.has(t2, i)));
        if i as int == to {
            assert forall|t: PieceType| t != PieceType::Pawn implies !(#[trigger] pb.has(
                t,
                to as u64,
            )) by {
                lemma_wf_masks_disjoint(pb, PieceType::Pawn, t, to as u64);
            }
            assert(!pb.has(PieceType::Knight, i) || PieceType::Pawn == PieceType::Knight);
        }
    }
    lemma_wf_iff_pairwise(pb2);
}

/// Applying a move that satisfies `move_ok` to a well-formed board yields a
/// well-formed board: the disjointness invariant is preserved.
pub proof fn lemma_apply_board_wf(b: Board, mv: BitboardMove, piece: ChessPiece)
    requires
        b.wf(),
        move_ok(b, mv, piece),
    ensures
        apply_board(b, mv, piece).wf(),
        forall|i: u64|
            i < 64 ==> (#[trigger] apply_board(b, mv, piece).side(piece.color).occupies(i)
                ==> (b.side(piece.color).occupies(i) || i == mv.to as u64 || (
            mv.sp_move_type == SpecialMoveType::ShortCastle && i == square_at(
                home_rank(piece.color),
                5,
            ) as u64) || (mv.sp_move_type == SpecialMoveType::LongCastle && i == square_at(
                home_rank(piece.color),
                3,
            ) as u64))),
        forall|i: u64|
            i < 64 ==> (#[trigger] apply_board(b, mv, piece).side(
                piece.color.other_spec(),
            ).occupies(i) ==> b.side(piece.color.other_spec()).occupies(i)),
{
    lemma_bit64_ops();
    let c = piece.color;
    let w = c.other_spec();
    let b2 = apply_board(b, mv, piece);
    let from = mv.from as int;
    let to = mv.to as int;
    let ally = b.side(c);
    let enemy = b.side(w);
    lemma_all_pieces_bits(ally, mv.to as u64);
    lemma_all_pieces_bits(enemy, mv.to as u64);
    let moved = relocate(ally, piece.typpe, from, to);
    lemma_relocate_props(ally, piece.typpe, from, to);
    match mv.sp_move_type {
        SpecialMoveType::ShortCastle => {
            let r = home_rank(c);
            assert(bit64(b.occ_all(), square_at(r, 5) as u64) == (ally.occupies(
                square_at(r, 5) as u64,
            ) || enemy.occupies(square_at(r, 5) as u64)));
            lemma_relocate_props(moved, PieceType::Rook, square_at(r, 7), square_at(r, 5));
        },
        SpecialMoveType::LongCastle => {
            let r = home_rank(c);
            assert(bit64(b.occ_all(), square_at(r, 3) as u64) == (ally.occupies(
                square_at(r, 3) as u64,
            ) || enemy.occupies(square_at(r, 3) as u64)));
            lemma_relocate_props(moved, PieceType::Rook, square_at(r, 0), square_at(r, 3));
        },
        SpecialMoveType::PromotionToKnight
        | SpecialMoveType::PromotionToBishop
        | SpecialMoveType::PromotionToRook
        | SpecialMoveType::PromotionToQueen => {
            assert(b2.side(c) == promote_on(moved, promo_kind(mv.sp_move_type), to));
            lemma_promote_props(moved, promo_kind(mv.sp_move_type), to);
        },
        _ => {},
    }
    let cleared_at: int = match mv.sp_move_type {
        SpecialMoveType::EnPassantLeft | SpecialMoveType::EnPassantRight => ep_victim_square(mv),
        _ => to,
    };
    match mv.sp_move_type {
        SpecialMoveType::EnPassantLeft | SpecialMoveType::EnPassantRight => {
            lemma_clear_square_props(enemy, ep_victim_square(mv));
        },
        _ => {
            lemma_clear_square_props(enemy, to);
        },
    }
    assert(b2.side(c).wf());
    assert(b2.side(w).wf());
    // the two sides stay disjoint: the mover's side only gains squares the
    // other side does not keep
    assert forall|i: u64| i < 64 implies !(bit64(b2.white.all_spec(), i) && bit64(
        b2.black.all_spec(),
        i,
    )) by {
        assert(b2.side(c).occupies(i) ==> (ally.occupies(i) || i == mv.to as u64 || (
        mv.sp_move_type == SpecialMoveType::ShortCastle && i == square_at(home_rank(c), 5) as u64)
            || (mv.sp_move_type == SpecialMoveType::LongCastle && i == square_at(
            home_rank(c),
            3,
        ) as u64)));
        assert(b2.side(w).occupies(i) == (enemy.occupies(i) && i as int != cleared_at));
        crate::bitboard::lemma_disjoint_masks_bit(b.white.all_spec(), b.black.all_spec(), i);
    }
    crate::bits::lemma_masks_disjoint_from_bits(b2.white.all_spec(), b2.black.all_spec());
}

} // verus!
