use vstd::prelude::*;

use crate::bitboard::{BitB64, BitboardMove, PlayerBitboard, SpecialMoveType};
use crate::bits::{
    bit64, bit8, lemma_bit64_ops, lemma_bit8_ops, lemma_no_bits_zero, lemma_set_clear_are_flips,
    lemma_xor_assoc, lemma_xor_zero, BitArraySize,
};
use crate::chess::{ChessPiece, PieceType, PlayerColor};
use crate::rules::{
    apply_board, ep_victim_square, initial_board, is_double_advance, move_ok, promo_kind, Board,
};
use crate::zobrist::{castle_hash, full_hash, hash_terms, mask_hash, xor_seq, ZobristTable};

verus! {

/// A score given to a whole position, with room for mate distance and
/// state flags beside the raw value.
pub struct PositionScore {
    pub score: i32,
    pub mate_in: u8,
    pub metadata: u8,
    pub pinned_pieces: u64,
}

pub struct ScoredPosition {
    pub position: Position,
    pub score: PositionScore,
}

/// The four castling rights, in the bit order of
/// `PositionInfo::castling_rights`.
#[derive(Clone, Copy, PartialEq, Eq, Structural, Debug)]
pub enum CastlingRightsBits {
    WhiteShortCastlingRights,
    WhiteLongCastlingRights,
    BlackShortCastlingRights,
    BlackLongCastlingRights,
}

/// Everything a position carries beyond piece placement: usable en-passant
/// files per side, the castling-rights bits, the side-to-move bit (bit 0 of
/// `metadata`; clear means white), and the position's Zobrist hash.
#[derive(Clone, Copy, PartialEq, Eq, Structural, Debug)]
#[verifier::ext_equal]
pub struct PositionInfo {
    pub white_usable_en_passant: u8,
    pub black_usable_en_passant: u8,
    pub castling_rights: u8,
    pub metadata: u8,
    pub zobrist_hash: u64,
}

impl PositionInfo {
    pub open spec fn black_to_move_spec(self) -> bool {
        bit8(self.metadata, 0)
    }

    pub open spec fn player_to_move_spec(self) -> PlayerColor {
        if self.black_to_move_spec() {
            PlayerColor::Black
        } else {
            PlayerColor::White
        }
    }

    pub fn new() -> (r: PositionInfo)
        ensures
            r.white_usable_en_passant == 0,
            r.black_usable_en_passant == 0,
            r.castling_rights == 0,
            r.metadata == 0,
            r.zobrist_hash == 0,
    {
        PositionInfo {
            white_usable_en_passant: 0,
            black_usable_en_passant: 0,
            castling_rights: 0,
            metadata: 0,
            zobrist_hash: 0,
        }
    }

    /// Flips the side-to-move bit and folds the side-to-move constant into
    /// the hash.
    pub fn pass_turn(&mut self, table: &ZobristTable)
        ensures
            *final(self) == (PositionInfo {
                metadata: old(self).metadata ^ (1u8 << 0u8),
                zobrist_hash: old(self).zobrist_hash ^ table.black_to_move,
                ..*old(self)
            }),
            final(self).black_to_move_spec() == !old(self).black_to_move_spec(),
    {
        self.metadata = self.metadata ^ u8::nth(0);
        self.zobrist_hash = self.zobrist_hash ^ table.black_to_move;
        proof {
            lemma_bit8_ops();
        }
    }

    pub fn enemy_player(&self) -> (r: PlayerColor)
        ensures
            r == self.player_to_move_spec().other_spec(),
    {
        if Self::white_to_move(&self) {
            PlayerColor::Black
        } else {
            PlayerColor::White
        }
    }

    pub fn player_to_move(&self) -> (r: PlayerColor)
        ensures
            r == self.player_to_move_spec(),
    {
        if Self::white_to_move(&self) {
            PlayerColor::White
        } else {
            PlayerColor::Black
        }
    }

    /// Sets the side to move; returns the new metadata byte for callers
    /// that want to read it back.
    pub fn set_player_to_move(&mut self, color: PlayerColor) -> (r: u8)
        ensures
            *final(self) == (PositionInfo {
                metadata: final(self).metadata,
                ..*old(self)
            }),
            final(self).metadata == (match color {
                PlayerColor::White => old(self).metadata & (u8::MAX ^ (1u8 << 0u8)),
                PlayerColor::Black => old(self).metadata | (1u8 << 0u8),
            }),
            final(self).player_to_move_spec() == color,
            r == final(self).metadata,
    {
        proof {
            lemma_bit8_ops();
        }
        let result = match color {
            PlayerColor::White => u8::disable_nth(self.metadata, 0),
            PlayerColor::Black => u8::enable_nth(self.metadata, 0),
        };
        self.metadata = result;
        self.metadata
    }

    pub fn white_to_move(&self) -> (r: bool)
        ensures
            r == !self.black_to_move_spec(),
    {
        self.metadata & u8::nth(0) == 0
    }

    pub fn black_to_move(&self) -> (r: bool)
        ensures
            r == self.black_to_move_spec(),
    {
        !self.white_to_move()
    }

    pub open spec fn has_short_castling_rights_spec(self, color: PlayerColor) -> bool {
        match color {
            PlayerColor::White => bit8(self.castling_rights, 0),
            PlayerColor::Black => bit8(self.castling_rights, 2),
        }
    }

    pub open spec fn has_long_castling_rights_spec(self, color: PlayerColor) -> bool {
        match color {
            PlayerColor::White => bit8(self.castling_rights, 1),
            PlayerColor::Black => bit8(self.castling_rights, 3),
        }
    }

    pub fn has_short_castling_rights(&self, color: PlayerColor) -> (r: bool)
        ensures
            r == self.has_short_castling_rights_spec(color),
    {
        match color {
            PlayerColor::White => self.castling_rights & u8::nth(0) != 0,
            PlayerColor::Black => self.castling_rights & u8::nth(2) != 0,
        }
    }

    pub fn has_long_castling_rights(&self, color: PlayerColor) -> (r: bool)
        ensures
            r == self.has_long_castling_rights_spec(color),
    {
        match color {
            PlayerColor::White => self.castling_rights & u8::nth(1) != 0,
            PlayerColor::Black => self.castling_rights & u8::nth(3) != 0,
        }
    }
}

/// Why a board description was rejected.
#[derive(Clone, Copy, PartialEq, Eq, Structural, Debug)]
pub enum DecodeError {
    WrongBoardLength,
    UnknownPieceChar,
    UnknownSideToMove,
}

/// A request from the engine's front end: a 64-character board layout, a
/// side-to-move token, the request kind and a time budget. The core reads
/// only the first two.
pub struct UciRequest {
    pub p_to_move: String,
    pub board: String,
    pub req_type: String,
    pub timeout: u32,
}

/// The engine's answer, as plain strings for the front end to send.
pub struct UciResponse {
    pub best_moves: String,
    pub possible_moves: String,
    pub pos_score: String,
}

// ---------------------------------------------------------------------------
// Decoding a layout string. Lowercase letters are white pieces, uppercase
// black, '.' an empty square; anything else is a hard failure.
// ---------------------------------------------------------------------------
pub open spec fn piece_char_ok(ch: char) -> bool {
    ch == '.' || ch == 'k' || ch == 'K' || ch == 'q' || ch == 'Q' || ch == 'r' || ch == 'R' || ch
        == 'b' || ch == 'B' || ch == 'n' || ch == 'N' || ch == 'p' || ch == 'P'
}

pub open spec fn board_text_ok(s: Seq<char>) -> bool {
    s.len() == 64 && forall|i: int| 0 <= i < 64 ==> piece_char_ok(#[trigger] s[i])
}

/// The mask of the squares below `n` whose character is `ch`.
pub open spec fn char_mask(s: Seq<char>, ch: char, n: int) -> u64
    decreases n,
{
    if n <= 0 {
        0u64
    } else {
        char_mask(s, ch, n - 1) | (if s[n - 1] == ch {
            1u64 << ((n - 1) as u64)
        } else {
            0u64
        })
    }
}

pub open spec fn decode_white(s: Seq<char>) -> PlayerBitboard {
    PlayerBitboard {
        pawns: char_mask(s, 'p', 64),
        knights: char_mask(s, 'n', 64),
        bishops: char_mask(s, 'b', 64),
        rooks: char_mask(s, 'r', 64),
        queens: char_mask(s, 'q', 64),
        king: char_mask(s, 'k', 64),
    }
}

pub open spec fn decode_black(s: Seq<char>) -> PlayerBitboard {
    PlayerBitboard {
        pawns: char_mask(s, 'P', 64),
        knights: char_mask(s, 'N', 64),
        bishops: char_mask(s, 'B', 64),
        rooks: char_mask(s, 'R', 64),
        queens: char_mask(s, 'Q', 64),
        king: char_mask(s, 'K', 64),
    }
}

/// The board a layout string and side-to-move flag describe: the layout
/// carries no castling or en-passant information, so all four rights are
/// assumed held and no en-passant capture is available.
pub open spec fn decode_board(s: Seq<char>, black_to_move: bool) -> Board {
    Board {
        white: decode_white(s),
        black: decode_black(s),
        black_to_move,
        castling_rights: 0xf,
        white_usable_en_passant: 0,
        black_usable_en_passant: 0,
    }
}

/// Which bits a character mask holds.
pub proof fn lemma_char_mask_bits(s: Seq<char>, ch: char, n: int, i: u64)
    requires
        0 <= n <= 64,
        i < 64,
    ensures
        bit64(char_mask(s, ch, n), i) <==> (i < n && s[i as int] == ch),
    decreases n,
{
    lemma_bit64_ops();
    if n > 0 {
        lemma_char_mask_bits(s, ch, n - 1, i);
    }
}

/// Masks of different characters never share a square.
pub proof fn lemma_char_masks_disjoint(s: Seq<char>, c1: char, c2: char)
    requires
        c1 != c2,
    ensures
        char_mask(s, c1, 64) & char_mask(s, c2, 64) == 0,
{
    lemma_bit64_ops();
    let m = char_mask(s, c1, 64) & char_mask(s, c2, 64);
    assert forall|i: u64| i < 64 implies !bit64(m, i) by {
        lemma_char_mask_bits(s, c1, 64, i);
        lemma_char_mask_bits(s, c2, 64, i);
    }
    lemma_no_bits_zero(m);
}

/// A decoded board is well formed: each square holds at most one piece.
pub proof fn lemma_decode_board_wf(s: Seq<char>, black_to_move: bool)
    ensures
        decode_board(s, black_to_move).wf(),
{
    let b = decode_board(s, black_to_move);
    lemma_char_masks_disjoint(s, 'p', 'n');
    lemma_char_masks_disjoint(s, 'p', 'b');
    lemma_char_masks_disjoint(s, 'p', 'r');
    lemma_char_masks_disjoint(s, 'p', 'q');
    lemma_char_masks_disjoint(s, 'p', 'k');
    lemma_char_masks_disjoint(s, 'n', 'b');
    lemma_char_masks_disjoint(s, 'n', 'r');
    lemma_char_masks_disjoint(s, 'n', 'q');
    lemma_char_masks_disjoint(s, 'n', 'k');
    lemma_char_masks_disjoint(s, 'b', 'r');
    lemma_char_masks_disjoint(s, 'b', 'q');
    lemma_char_masks_disjoint(s, 'b', 'k');
    lemma_char_masks_disjoint(s, 'r', 'q');
    lemma_char_masks_disjoint(s, 'r', 'k');
    lemma_char_masks_disjoint(s, 'q', 'k');
    lemma_char_masks_disjoint(s, 'P', 'N');
    lemma_char_masks_disjoint(s, 'P', 'B');
    lemma_char_masks_disjoint(s, 'P', 'R');
    lemma_char_masks_disjoint(s, 'P', 'Q');
    lemma_char_masks_disjoint(s, 'P', 'K');
    lemma_char_masks_disjoint(s, 'N', 'B');
    lemma_char_masks_disjoint(s, 'N', 'R');
    lemma_char_masks_disjoint(s, 'N', 'Q');
    lemma_char_masks_disjoint(s, 'N', 'K');
    lemma_char_masks_disjoint(s, 'B', 'R');
    lemma_char_masks_disjoint(s, 'B', 'Q');
    lemma_char_masks_disjoint(s, 'B', 'K');
    lemma_char_masks_disjoint(s, 'R', 'Q');
    lemma_char_masks_disjoint(s, 'R', 'K');
    lemma_char_masks_disjoint(s, 'Q', 'K');
    assert forall|i: u64| i < 64 implies !bit64(b.white.all_spec() & b.black.all_spec(), i) by {
        lemma_bit64_ops();
        lemma_char_mask_bits(s, 'p', 64, i);
        lemma_char_mask_bits(s, 'n', 64, i);
        lemma_char_mask_bits(s, 'b', 64, i);
        lemma_char_mask_bits(s, 'r', 64, i);
        lemma_char_mask_bits(s, 'q', 64, i);
        lemma_char_mask_bits(s, 'k', 64, i);
        lemma_char_mask_bits(s, 'P', 64, i);
        lemma_char_mask_bits(s, 'N', 64, i);
        lemma_char_mask_bits(s, 'B', 64, i);
        lemma_char_mask_bits(s, 'R', 64, i);
        lemma_char_mask_bits(s, 'Q', 64, i);
        lemma_char_mask_bits(s, 'K', 64, i);
    }
    lemma_no_bits_zero(b.white.all_spec() & b.black.all_spec());
}

// ---------------------------------------------------------------------------
// The position itself: a value type. Making a move returns a new Position;
// none is mutated after construction.
// ---------------------------------------------------------------------------
/// A chess position: both sides' piece masks plus metadata. Its invariant
/// `wf_pos` keeps every mask pair disjoint, and `hash_ok` keeps the stored
/// Zobrist hash equal to the hash recomputed from scratch.
#[derive(Clone, Copy, PartialEq, Eq, Structural, Debug)]
#[verifier::ext_equal]
pub struct Position {
    pub white: PlayerBitboard,
    pub black: PlayerBitboard,
    pub position_info: PositionInfo,
}

impl Position {
    /// The rule-level abstraction of this position: everything move
    /// generation reads, the hash left out.
    pub open spec fn board_of(self) -> Board {
        Board {
            white: self.white,
            black: self.black,
            black_to_move: self.position_info.black_to_move_spec(),
            castling_rights: self.position_info.castling_rights,
            white_usable_en_passant: self.position_info.white_usable_en_passant,
            black_usable_en_passant: self.position_info.black_usable_en_passant,
        }
    }

    pub open spec fn wf_pos(self) -> bool {
        self.board_of().wf()
    }

    /// The stored hash agrees with the hash of the placement, castling
    /// rights and side to move: the central hashing invariant.
    pub open spec fn hash_ok(self, table: ZobristTable) -> bool {
        self.position_info.zobrist_hash == full_hash(table, self.board_of())
    }

    /// The standard starting position, its hash computed from scratch.
    pub fn new(table: &ZobristTable) -> (r: Position)
        requires
            table.wf(),
        ensures
            r.board_of() == initial_board(),
            r.wf_pos(),
            r.hash_ok(*table),
    {
        let mut info = PositionInfo::new();
        info.castling_rights = 0xf;
        let mut result = Position {
            white: PlayerBitboard::new(PlayerColor::White),
            black: PlayerBitboard::new(PlayerColor::Black),
            position_info: info,
        };
        result.compute_zobrist_hash(table);
        proof {
            lemma_bit8_ops();
            assert(result.board_of() =~= initial_board());
            lemma_initial_board_wf();
        }
        result
    }

    pub fn player_to_move(&self) -> (r: PlayerColor)
        ensures
            r == self.board_of().to_move(),
    {
        self.position_info.player_to_move()
    }

    pub fn waiting_player(&self) -> (r: PlayerColor)
        ensures
            r == self.board_of().to_move().other_spec(),
    {
        self.position_info.enemy_player()
    }

    pub fn white_to_move(&self) -> (r: bool)
        ensures
            r == (self.board_of().to_move() == PlayerColor::White),
    {
        self.position_info.white_to_move()
    }

    pub fn black_to_move(&self) -> (r: bool)
        ensures
            r == (self.board_of().to_move() == PlayerColor::Black),
    {
        self.position_info.black_to_move()
    }

    pub fn pieces_to_move(&self) -> (r: &PlayerBitboard)
        ensures
            *r == self.board_of().ally(),
    {
        match self.player_to_move() {
            PlayerColor::Black => &self.black,
            PlayerColor::White => &self.white,
        }
    }

    pub fn enemy_pieces(&self) -> (r: &PlayerBitboard)
        ensures
            *r == self.board_of().enemy(),
    {
        match self.player_to_move() {
            PlayerColor::White => &self.black,
            PlayerColor::Black => &self.white,
        }
    }

    /// Mutable access to the side to move's masks.
    pub fn mut_pieces_to_move(&mut self) -> (r: &mut PlayerBitboard)
        ensures
            *r == old(self).board_of().ally(),
            *final(self) == old(self).board_of().to_move().write_side(*old(self), *final(r)),
    {
        match self.player_to_move() {
            PlayerColor::Black => &mut self.black,
            PlayerColor::White => &mut self.white,
        }
    }

    /// Mutable access to the waiting side's masks.
    pub fn mut_enemy_pieces(&mut self) -> (r: &mut PlayerBitboard)
        ensures
            *r == old(self).board_of().enemy(),
            *final(self) == old(self).board_of().to_move().other_spec().write_side(
                *old(self),
                *final(r),
            ),
    {
        match self.player_to_move() {
            PlayerColor::White => &mut self.black,
            PlayerColor::Black => &mut self.white,
        }
    }

    /// Flips the turn, folding the side-to-move constant into the hash.
    pub fn pass_turn(&mut self, table: &ZobristTable)
        ensures
            final(self).white == old(self).white,
            final(self).black == old(self).black,
            final(self).position_info == (PositionInfo {
                metadata: old(self).position_info.metadata ^ (1u8 << 0u8),
                zobrist_hash: old(self).position_info.zobrist_hash ^ table.black_to_move,
                ..old(self).position_info
            }),
            final(self).board_of() == (Board {
                black_to_move: !old(self).board_of().black_to_move,
                ..old(self).board_of()
            }),
            old(self).hash_ok(*table) ==> final(self).hash_ok(*table),
    {
        self.position_info.pass_turn(table);
        proof {
            assert(final(self).board_of() =~= (Board {
                black_to_move: !old(self).board_of().black_to_move,
                ..old(self).board_of()
            }));
            crate::zobrist::lemma_full_hash_turn_flip(*table, old(self).board_of());
        }
    }

    pub fn update_info(&mut self, table: &ZobristTable)
        ensures
            final(self).white == old(self).white,
            final(self).black == old(self).black,
            final(self).board_of() == (Board {
                black_to_move: !old(self).board_of().black_to_move,
                ..old(self).board_of()
            }),
            old(self).hash_ok(*table) ==> final(self).hash_ok(*table),
    {
        self.pass_turn(table);
    }

    /// Decodes a 64-character layout into the two sides' masks; fails on a
    /// wrong length or an unrecognized character, never silently.
    pub fn decode_pieces(board: &str) -> (r: Result<(PlayerBitboard, PlayerBitboard), DecodeError>)
        ensures
            r is Ok <==> board_text_ok(board@),
            r is Ok ==> r.unwrap() == (decode_white(board@), decode_black(board@)),
            r == Err::<(PlayerBitboard, PlayerBitboard), DecodeError>(DecodeError::WrongBoardLength)
                <==> board@.len() != 64,
            r == Err::<(PlayerBitboard, PlayerBitboard), DecodeError>(DecodeError::UnknownPieceChar)
                <==> (board@.len() == 64 && !board_text_ok(board@)),
    {
        if board.unicode_len() != 64 {
            return Err(DecodeError::WrongBoardLength);
        }
        let mut white = PlayerBitboard::empty();
        let mut black = PlayerBitboard::empty();
        proof {
            crate::bits::lemma_or_zero_all();
        }
        for i in 0..64usize
            invariant
                board@.len() == 64,
                forall|j: int| 0 <= j < i ==> piece_char_ok(#[trigger] board@[j]),
                white.pawns == char_mask(board@, 'p', i as int),
                white.knights == char_mask(board@, 'n', i as int),
                white.bishops == char_mask(board@, 'b', i as int),
                white.rooks == char_mask(board@, 'r', i as int),
                white.queens == char_mask(board@, 'q', i as int),
                white.king == char_mask(board@, 'k', i as int),
                black.pawns == char_mask(board@, 'P', i as int),
                black.knights == char_mask(board@, 'N', i as int),
                black.bishops == char_mask(board@, 'B', i as int),
                black.rooks == char_mask(board@, 'R', i as int),
                black.queens == char_mask(board@, 'Q', i as int),
                black.king == char_mask(board@, 'K', i as int),
                forall|m: u64| #[trigger] (m | 0u64) == m,
        {
            let ch = board.get_char(i);
            let sq: u64 = 1u64 << (i as u64);
            if ch == '.' {
            } else if ch == 'k' {
                white.king = white.king | sq;
            } else if ch == 'K' {
                black.king = black.king | sq;
            } else if ch == 'q' {
                white.queens = white.queens | sq;
            } else if ch == 'Q' {
                black.queens = black.queens | sq;
            } else if ch == 'r' {
                white.rooks = white.rooks | sq;
            } else if ch == 'R' {
                black.rooks = black.rooks | sq;
            } else if ch == 'b' {
                white.bishops = white.bishops | sq;
            } else if ch == 'B' {
                black.bishops = black.bishops | sq;
            } else if ch == 'n' {
                white.knights = white.knights | sq;
            } else if ch == 'N' {
                black.knights = black.knights | sq;
            } else if ch == 'p' {
                white.pawns = white.pawns | sq;
            } else if ch == 'P' {
                black.pawns = black.pawns | sq;
            } else {
                return Err(DecodeError::UnknownPieceChar);
            }
        }
        Ok((white, black))
    }

    /// Decodes the side-to-move token. The layout string carries no
    /// castling information, so all four rights are assumed held.
    pub fn decode_position_info(uci_req: &UciRequest) -> (r: Result<PositionInfo, DecodeError>)
        ensures
            r is Ok <==> (uci_req.p_to_move@ =~= "W"@ || uci_req.p_to_move@ =~= "B"@),
            r is Ok ==> {
                let info = r.unwrap();
                &&& info.player_to_move_spec() == (if uci_req.p_to_move@ =~= "B"@ {
                    PlayerColor::Black
                } else {
                    PlayerColor::White
                })
                &&& info.castling_rights == 0xf
                &&& info.white_usable_en_passant == 0
                &&& info.black_usable_en_passant == 0
                &&& info.zobrist_hash == 0
            },
            r is Err ==> r == Err::<PositionInfo, DecodeError>(DecodeError::UnknownSideToMove),
    {
        proof {
            reveal_strlit("W");
            reveal_strlit("B");
        }
        let tok: &str = uci_req.p_to_move.as_str();
        let is_w = tok.unicode_len() == 1 && tok.get_char(0) == 'W';
        let is_b = tok.unicode_len() == 1 && tok.get_char(0) == 'B';
        if !is_w && !is_b {
            return Err(DecodeError::UnknownSideToMove);
        }
        proof {
            if is_w {
                assert(tok@ =~= "W"@);
            } else {
                assert(tok@ =~= "B"@);
            }
        }
        let mut result = PositionInfo::new();
        result.castling_rights = 0xf;
        result.set_player_to_move(
            if is_b {
                PlayerColor::Black
            } else {
                PlayerColor::White
            },
        );
        Ok(result)
    }

    /// Builds a position from an external board description: masks from
    /// the layout string, metadata from the side token, hash from scratch.
    pub fn from_uci(uci_req: &UciRequest, table: &ZobristTable) -> (r: Result<
        Position,
        DecodeError,
    >)
        requires
            table.wf(),
        ensures
            r is Ok <==> (board_text_ok(uci_req.board@) && (uci_req.p_to_move@ =~= "W"@
                || uci_req.p_to_move@ =~= "B"@)),
            r == Err::<Position, DecodeError>(DecodeError::UnknownSideToMove) <==> !(
            uci_req.p_to_move@ =~= "W"@ || uci_req.p_to_move@ =~= "B"@),
            r == Err::<Position, DecodeError>(DecodeError::WrongBoardLength) <==> ((
            uci_req.p_to_move@ =~= "W"@ || uci_req.p_to_move@ =~= "B"@) && uci_req.board@.len()
                != 64),
            r == Err::<Position, DecodeError>(DecodeError::UnknownPieceChar) <==> ((
            uci_req.p_to_move@ =~= "W"@ || uci_req.p_to_move@ =~= "B"@) && uci_req.board@.len()
                == 64 && !board_text_ok(uci_req.board@)),
            r is Ok ==> {
                let p = r.unwrap();
                &&& p.board_of() == decode_board(
                    uci_req.board@,
                    uci_req.p_to_move@ =~= "B"@,
                )
                &&& p.wf_pos()
                &&& p.hash_ok(*table)
            },
    {
        let pos_info = match Self::decode_position_info(uci_req) {
            Ok(info) => info,
            Err(e) => { return Err(e) },
        };
        let (white, black) = match Self::decode_pieces(&uci_req.board) {
            Ok(wb) => wb,
            Err(e) => { return Err(e) },
        };
        let mut result = Position { white, black, position_info: pos_info };
        result.compute_zobrist_hash(table);
        proof {
            reveal_strlit("W");
            reveal_strlit("B");
            if uci_req.p_to_move@ =~= "W"@ && uci_req.p_to_move@ =~= "B"@ {
                assert(uci_req.p_to_move@[0] == 'W');
                assert(uci_req.p_to_move@[0] == 'B');
                assert(false);
            }
            assert(result.board_of() =~= decode_board(
                uci_req.board@,
                uci_req.p_to_move@ =~= "B"@,
            ));
            lemma_decode_board_wf(uci_req.board@, uci_req.p_to_move@ =~= "B"@);
        }
        Ok(result)
    }

    /// Recomputes the hash from scratch: XOR over every occupied square,
    /// every castling right held, and the side to move. Used at
    /// construction and for auditing; moves update the hash incrementally.
    pub fn compute_zobrist_hash(&mut self, table: &ZobristTable)
        requires
            table.wf(),
        ensures
            final(self).white == old(self).white,
            final(self).black == old(self).black,
            final(self).position_info == (PositionInfo {
                zobrist_hash: final(self).position_info.zobrist_hash,
                ..old(self).position_info
            }),
            final(self).board_of() == old(self).board_of(),
            final(self).hash_ok(*table),
    {
        let ghost b = self.board_of();
        let ghost terms = hash_terms(*table, b);
        let mut h: u64 = 0;
        proof {
            assert(terms.take(0) =~= Seq::<u64>::empty());
        }
        let kinds = crate::chess::all_piece_types();
        let mut idx: usize = 0;
        while idx < 12
            invariant
                table.wf(),
                idx <= 12,
                kinds@ == crate::chess::all_piece_types_seq(),
                terms == hash_terms(*table, b),
                b == self.board_of(),
                h == xor_seq(terms.take(idx as int)),
            decreases 12 - idx,
        {
            let k = kinds[idx % 6];
            let c = if idx < 6 {
                PlayerColor::White
            } else {
                PlayerColor::Black
            };
            let side = if idx < 6 {
                &self.white
            } else {
                &self.black
            };
            let m = *side.pieces(k);
            let term = mask_hash_exec(table, k, c, m);
            proof {
                assert(crate::zobrist::kind_of_term(idx as int) == k);
                assert(crate::zobrist::color_of_term(idx as int) == c);
                assert(terms[idx as int] == term);
                assert(terms.take(idx as int + 1).drop_last() =~= terms.take(idx as int));
                assert(terms.take(idx as int + 1).last() == terms[idx as int]);
            }
            h = h ^ term;
            idx = idx + 1;
        }
        let ct = castle_hash_exec(table, self.position_info.castling_rights);
        proof {
            assert(terms[12] == ct);
            assert(terms.take(13).drop_last() =~= terms.take(12));
            assert(terms.take(13).last() == terms[12]);
        }
        h = h ^ ct;
        proof {
            assert(h == xor_seq(terms.take(13)));
        }
        let st = if self.position_info.black_to_move() {
            table.black_to_move
        } else {
            0u64
        };
        proof {
            assert(terms[13] == st);
            assert(terms.take(14).drop_last() =~= terms.take(13));
            assert(terms.take(14).last() == terms[13]);
            assert(terms.take(14) =~= terms);
        }
        h = h ^ st;
        proof {
            assert(h == xor_seq(terms.take(14)));
            assert(h == xor_seq(terms));
        }
        self.position_info.zobrist_hash = h;
        proof {
            assert(self.board_of() =~= b);
        }
    }
}

impl Position {
    /// Relocates a piece of kind `typpe` of the moving side from `from` to
    /// `to`, removes whatever enemy piece stands on `to`, and returns the
    /// Zobrist delta of exactly those changes.
    pub fn make_raw_bitboard_move(
        from: u8,
        to: u8,
        moving_player: PlayerColor,
        waiting_player: PlayerColor,
        moving_pieces: &mut PlayerBitboard,
        waiting_pieces: &mut PlayerBitboard,
        typpe: PieceType,
        table: &ZobristTable,
    ) -> (delta: u64)
        requires
            table.wf(),
            from < 64,
            to < 64,
            old(waiting_pieces).wf(),
        ensures
            *final(moving_pieces) == crate::rules::relocate(
                *old(moving_pieces),
                typpe,
                from as int,
                to as int,
            ),
            *final(waiting_pieces) == crate::rules::clear_square(
                *old(waiting_pieces),
                to as int,
            ),
            delta == (match old(waiting_pieces).piece_at(to as u64) {
                Some(ck) => (table.entry(typpe, moving_player, from as int) ^ table.entry(
                    typpe,
                    moving_player,
                    to as int,
                )) ^ table.entry(ck, waiting_player, to as int),
                None => table.entry(typpe, moving_player, from as int) ^ table.entry(
                    typpe,
                    moving_player,
                    to as int,
                ),
            }),
    {
        let from_sq: u64 = 1u64 << (from as u64);
        let to_sq: u64 = 1u64 << (to as u64);
        let moving_piece_set = moving_pieces.mut_pieces(typpe);
        *moving_piece_set = (*moving_piece_set ^ from_sq) | to_sq;
        let mut zobrist_mutation: u64 = table.entry_at(typpe, moving_player, from) ^ table.entry_at(
            typpe,
            moving_player,
            to,
        );
        if waiting_pieces.pawns & to_sq != 0 {
            waiting_pieces.pawns = waiting_pieces.pawns ^ to_sq;
            zobrist_mutation = zobrist_mutation ^ table.entry_at(
                PieceType::Pawn,
                waiting_player,
                to,
            );
        } else if waiting_pieces.knights & to_sq != 0 {
            waiting_pieces.knights = waiting_pieces.knights ^ to_sq;
            zobrist_mutation = zobrist_mutation ^ table.entry_at(
                PieceType::Knight,
                waiting_player,
                to,
            );
        } else if waiting_pieces.bishops & to_sq != 0 {
            waiting_pieces.bishops = waiting_pieces.bishops ^ to_sq;
            zobrist_mutation = zobrist_mutation ^ table.entry_at(
                PieceType::Bishop,
                waiting_player,
                to,
            );
        } else if waiting_pieces.rooks & to_sq != 0 {
            waiting_pieces.rooks = waiting_pieces.rooks ^ to_sq;
            zobrist_mutation = zobrist_mutation ^ table.entry_at(
                PieceType::Rook,
                waiting_player,
                to,
            );
        } else if waiting_pieces.queens & to_sq != 0 {
            waiting_pieces.queens = waiting_pieces.queens ^ to_sq;
            zobrist_mutation = zobrist_mutation ^ table.entry_at(
                PieceType::Queen,
                waiting_player,
                to,
            );
        } else if waiting_pieces.king & to_sq != 0 {
            waiting_pieces.king = waiting_pieces.king ^ to_sq;
            zobrist_mutation = zobrist_mutation ^ table.entry_at(
                PieceType::King,
                waiting_player,
                to,
            );
        }
        proof {
            crate::rules::lemma_clear_square_props(*old(waiting_pieces), to as int);
            match old(waiting_pieces).piece_at(to as u64) {
                Some(ck) => {
                    assert(*waiting_pieces =~= old(waiting_pieces).with_pieces(
                        ck,
                        old(waiting_pieces).pieces_spec(ck) ^ to_sq,
                    ));
                },
                None => {
                    assert(*waiting_pieces =~= *old(waiting_pieces));
                },
            }
        }
        zobrist_mutation
    }
}

impl Position {
    /// Applies a move, returning a new Position: the mover relocated, any
    /// captured piece removed, castling's rook co-moved, promotions
    /// exchanged, en passant's victim removed, the turn flipped. The hash
    /// is updated by XOR-ing exactly the deltas of those changes, never
    /// recomputed, and the hashing invariant is preserved.
    pub fn make_move(&self, mv: &BitboardMove, piece: ChessPiece, table: &ZobristTable) -> (r:
        Position)
        requires
            table.wf(),
            self.wf_pos(),
            move_ok(self.board_of(), *mv, piece),
        ensures
            r.board_of() == apply_board(self.board_of(), *mv, piece),
            r.wf_pos(),
            self.hash_ok(*table) ==> r.hash_ok(*table),
    {
        let ghost b0 = self.board_of();
        proof {
            crate::rules::lemma_apply_board_wf(b0, *mv, piece);
        }
        let c = piece.color;
        let wc = PlayerColor::other(c);
        let mut ally = match c {
            PlayerColor::White => self.white,
            PlayerColor::Black => self.black,
        };
        let mut enemy = match c {
            PlayerColor::White => self.black,
            PlayerColor::Black => self.white,
        };
        let mut hash = self.position_info.zobrist_hash;
        let d1 = Position::make_raw_bitboard_move(
            mv.from,
            mv.to,
            c,
            wc,
            &mut ally,
            &mut enemy,
            piece.typpe,
            table,
        );
        hash = hash ^ d1;
        let ghost b1 = b0.with_side(
            c,
            crate::rules::relocate(b0.side(c), piece.typpe, mv.from as int, mv.to as int),
        ).with_side(wc, crate::rules::clear_square(b0.side(wc), mv.to as int));
        proof {
            crate::bitboard::lemma_all_pieces_bits(b0.side(c), mv.to as u64);
            lemma_full_hash_raw_move(*table, b0, c, piece.typpe, mv.from, mv.to);
            assert(full_hash(*table, b1) == full_hash(*table, b0) ^ d1);
            assert(ally == b1.side(c));
            assert(enemy == b1.side(wc));
        }
        let ghost mut b2: Board = b1;
        match mv.sp_move_type {
            SpecialMoveType::RegularMove => {},
            SpecialMoveType::ShortCastle => {
                let (rf, rt): (u8, u8) = crate::move_gen::rook::get_rook_move_for_short_castle(
                    c,
                );
                proof {
                    lemma_bit64_ops();
                    crate::rules::lemma_relocate_props(
                        b0.side(c),
                        piece.typpe,
                        mv.from as int,
                        mv.to as int,
                    );
                    crate::rules::lemma_clear_square_props(b0.side(wc), mv.to as int);
                    crate::bitboard::lemma_all_pieces_bits(b0.side(c), rt as u64);
                    crate::bitboard::lemma_all_pieces_bits(b0.side(wc), rt as u64);
                    assert(!b1.side(c).occupies(rt as u64));
                    assert(b1.side(wc).wf());
                }
                let d2 = Position::make_raw_bitboard_move(
                    rf,
                    rt,
                    c,
                    wc,
                    &mut ally,
                    &mut enemy,
                    PieceType::Rook,
                    table,
                );
                hash = hash ^ d2;
                proof {
                    b2 = b1.with_side(
                        c,
                        crate::rules::relocate(b1.side(c), PieceType::Rook, rf as int, rt as int),
                    ).with_side(wc, crate::rules::clear_square(b1.side(wc), rt as int));
                    lemma_full_hash_raw_move(*table, b1, c, PieceType::Rook, rf, rt);
                    assert(full_hash(*table, b2) == full_hash(*table, b1) ^ d2);
                    crate::bitboard::lemma_all_pieces_bits(b1.side(wc), rt as u64);
                    assert(!b1.side(wc).occupies(rt as u64));
                    crate::rules::lemma_clear_square_props(b1.side(wc), rt as int);
                    assert(b1.side(wc).piece_at(rt as u64) is None);
                    assert(crate::rules::clear_square(b1.side(wc), rt as int) == b1.side(wc));
                    assert(rf as int == crate::rules::square_at(crate::rules::home_rank(c), (rf
                        % 8) as int));
                }
            },
            SpecialMoveType::LongCastle => {
                let (rf, rt): (u8, u8) = crate::move_gen::rook::get_rook_move_for_long_castle(c);
                proof {
                    lemma_bit64_ops();
                    crate::rules::lemma_relocate_props(
                        b0.side(c),
                        piece.typpe,
                        mv.from as int,
                        mv.to as int,
                    );
                    crate::rules::lemma_clear_square_props(b0.side(wc), mv.to as int);
                    crate::bitboard::lemma_all_pieces_bits(b0.side(c), rt as u64);
                    crate::bitboard::lemma_all_pieces_bits(b0.side(wc), rt as u64);
                    assert(!b1.side(c).occupies(rt as u64));
                    assert(b1.side(wc).wf());
                }
                let d2 = Position::make_raw_bitboard_move(
                    rf,
                    rt,
                    c,
                    wc,
                    &mut ally,
                    &mut enemy,
                    PieceType::Rook,
                    table,
                );
                hash = hash ^ d2;
                proof {
                    b2 = b1.with_side(
                        c,
                        crate::rules::relocate(b1.side(c), PieceType::Rook, rf as int, rt as int),
                    ).with_side(wc, crate::rules::clear_square(b1.side(wc), rt as int));
                    lemma_full_hash_raw_move(*table, b1, c, PieceType::Rook, rf, rt);
                    assert(full_hash(*table, b2) == full_hash(*table, b1) ^ d2);
                    crate::bitboard::lemma_all_pieces_bits(b1.side(wc), rt as u64);
                    assert(!b1.side(wc).occupies(rt as u64));
                    crate::rules::lemma_clear_square_props(b1.side(wc), rt as int);
                    assert(b1.side(wc).piece_at(rt as u64) is None);
                    assert(crate::rules::clear_square(b1.side(wc), rt as int) == b1.side(wc));
                    assert(rf as int == crate::rules::square_at(crate::rules::home_rank(c), (rf
                        % 8) as int));
                }
            },
            SpecialMoveType::PromotionToKnight
            | SpecialMoveType::PromotionToBishop
            | SpecialMoveType::PromotionToRook
            | SpecialMoveType::PromotionToQueen => {
                let pk = match mv.sp_move_type {
                    SpecialMoveType::PromotionToKnight => PieceType::Knight,
                    SpecialMoveType::PromotionToBishop => PieceType::Bishop,
                    SpecialMoveType::PromotionToRook => PieceType::Rook,
                    _ => PieceType::Queen,
                };
                let to_sq: u64 = 1u64 << (mv.to as u64);
                let pm = ally.mut_pieces(pk);
                *pm = *pm ^ to_sq;
                ally.pawns = ally.pawns ^ to_sq;
                let e_pk = table.entry_at(pk, c, mv.to);
                let e_p = table.entry_at(PieceType::Pawn, c, mv.to);
                let d2 = e_pk ^ e_p;
                hash = hash ^ d2;
                proof {
                    b2 = b1.with_side(c, crate::rules::promote_on(b1.side(c), pk, mv.to as int));
                    assert(pk == promo_kind(mv.sp_move_type));
                    assert(ally =~= b2.side(c));
                    let ga2 = b1.with_side(
                        c,
                        b1.side(c).with_pieces(pk, b1.side(c).pieces_spec(pk) ^ to_sq),
                    );
                    crate::zobrist::lemma_full_hash_piece_flip(*table, b1, c, pk, mv.to as u64);
                    assert(full_hash(*table, ga2) == full_hash(*table, b1) ^ e_pk);
                    let gb2 = ga2.with_side(
                        c,
                        ga2.side(c).with_pieces(
                            PieceType::Pawn,
                            ga2.side(c).pieces_spec(PieceType::Pawn) ^ to_sq,
                        ),
                    );
                    crate::zobrist::lemma_full_hash_piece_flip(
                        *table,
                        ga2,
                        c,
                        PieceType::Pawn,
                        mv.to as u64,
                    );
                    assert(full_hash(*table, gb2) == full_hash(*table, ga2) ^ e_p);
                    assert(gb2 =~= b2);
                    lemma_xor_assoc(full_hash(*table, b1), e_pk, e_p);
                    assert(full_hash(*table, b2) == full_hash(*table, b1) ^ d2);
                }
            },
            SpecialMoveType::EnPassantLeft | SpecialMoveType::EnPassantRight => {
                let victim: u8 = (mv.from / 8) * 8 + (mv.to % 8);
                let v_sq: u64 = 1u64 << (victim as u64);
                enemy.pawns = enemy.pawns ^ v_sq;
                let d2 = table.entry_at(PieceType::Pawn, wc, victim);
                hash = hash ^ d2;
                proof {
                    lemma_bit64_ops();
                    assert(victim as int == ep_victim_square(*mv));
                    crate::rules::lemma_clear_square_props(b0.side(wc), mv.to as int);
                    assert(b1.side(wc) == b0.side(wc));
                    b2 = b1.with_side(
                        wc,
                        crate::rules::clear_square(b1.side(wc), victim as int),
                    );
                    crate::zobrist::lemma_full_hash_piece_flip(
                        *table,
                        b1,
                        wc,
                        PieceType::Pawn,
                        victim as u64,
                    );
                    crate::rules::lemma_clear_square_props(b1.side(wc), victim as int);
                    assert(b1.side(wc).piece_at(victim as u64) == Some(PieceType::Pawn));
                    assert(enemy =~= b2.side(wc));
                    assert(full_hash(*table, b2) == full_hash(*table, b1) ^ d2);
                }
            },
        }
        proof {
            assert(ally == b2.side(c));
            assert(enemy == b2.side(wc));
        }
        let mut result = *self;
        match c {
            PlayerColor::White => {
                result.white = ally;
                result.black = enemy;
            },
            PlayerColor::Black => {
                result.black = ally;
                result.white = enemy;
            },
        }
        result.position_info.zobrist_hash = hash;
        let rank_to: u8 = mv.to / 8;
        let rank_from: u8 = mv.from / 8;
        let is_dbl: bool = match piece.typpe {
            PieceType::Pawn => match mv.sp_move_type {
                SpecialMoveType::RegularMove => rank_to == rank_from + 2 || rank_from == rank_to
                    + 2,
                _ => false,
            },
            _ => false,
        };
        proof {
            let d = crate::rules::rank_of(mv.to as int) - crate::rules::rank_of(mv.from as int);
            assert((d * d == 4) == (d == 2 || d == -2)) by (nonlinear_arith)
                requires
                    -8 <= d <= 8,
            ;
            assert(is_dbl == is_double_advance(*mv, piece));
        }
        let ep_mask: u8 = if is_dbl {
            1u8 << (mv.to % 8)
        } else {
            0
        };
        match c {
            PlayerColor::White => {
                result.position_info.black_usable_en_passant = ep_mask;
                result.position_info.white_usable_en_passant = 0;
            },
            PlayerColor::Black => {
                result.position_info.white_usable_en_passant = ep_mask;
                result.position_info.black_usable_en_passant = 0;
            },
        }
        proof {
            let b3 = result.board_of();
            assert(b3.white == b2.white && b3.black == b2.black);
            assert(b3.black_to_move == b2.black_to_move);
            assert(b3.castling_rights == b2.castling_rights);
            crate::zobrist::lemma_full_hash_ignores_ep(*table, b3, b2);
            assert(self.hash_ok(*table) ==> result.position_info.zobrist_hash == full_hash(
                *table,
                b3,
            ));
        }
        result.update_info(table);
        proof {
            let ap = apply_board(b0, *mv, piece);
            let rb = result.board_of();
            assert(rb.side(c) == b2.side(c));
            assert(rb.side(wc) == b2.side(wc));
            assert(ap.side(c) == b2.side(c));
            assert(ap.side(wc) == b2.side(wc));
            assert(rb.white == ap.white && rb.black == ap.black);
            assert(rb.black_to_move == ap.black_to_move);
            assert(rb.castling_rights == ap.castling_rights);
            assert(rb.white_usable_en_passant == ap.white_usable_en_passant);
            assert(rb.black_usable_en_passant == ap.black_usable_en_passant);
            assert(rb =~= ap);
        }
        result
    }
}

impl Position {
    /// Every square the perspective's side attacks, over all six kinds.
    pub fn get_raw_attacked_squares(&self, perspective: &crate::move_gen::MoveGenPerspective) -> (r:
        BitB64)
        requires
            self.wf_pos(),
        ensures
            forall|t: int|
                0 <= t < 64 ==> (bit64(r, t as u64) == #[trigger] crate::rules::attacked_by(
                    self.board_of(),
                    crate::rules::persp_board(self.board_of(), perspective.is_waiting()).to_move(),
                    t,
                )),
    {
        crate::move_gen::raw_attacked_squares(
            self,
            &crate::move_gen::MoveGenOpts { perspective: *perspective },
        )
    }

    /// Whether the king the perspective selects stands on a square the
    /// other side attacks.
    pub fn can_king_be_captured(&self, perspective: crate::move_gen::MoveGenPerspective) -> (r:
        bool)
        requires
            self.wf_pos(),
        ensures
            r == crate::rules::king_capturable(
                self.board_of(),
                crate::rules::persp_board(self.board_of(), perspective.is_waiting()).to_move(),
            ),
    {
        let ghost b = self.board_of();
        let ghost c = crate::rules::persp_board(b, perspective.is_waiting()).to_move();
        let king_pieces = match perspective {
            crate::move_gen::MoveGenPerspective::MovingPlayer => self.pieces_to_move(),
            crate::move_gen::MoveGenPerspective::WaitingPlayer => self.enemy_pieces(),
        };
        let attacked_squares_perspective = match perspective {
            crate::move_gen::MoveGenPerspective::MovingPlayer => crate::move_gen::MoveGenPerspective::WaitingPlayer,
            crate::move_gen::MoveGenPerspective::WaitingPlayer => crate::move_gen::MoveGenPerspective::MovingPlayer,
        };
        let attacks = self.get_raw_attacked_squares(&attacked_squares_perspective);
        let r = crate::move_gen::internal::intersect(king_pieces.king, attacks);
        proof {
            lemma_bit64_ops();
            assert(*king_pieces == b.side(c));
            assert(crate::rules::persp_board(b, attacked_squares_perspective.is_waiting()).to_move()
                == c.other_spec());
            if king_pieces.king & attacks != 0 {
                crate::bits::lemma_nonzero_has_bit(king_pieces.king & attacks);
                let t = choose|t: u64| t < 64 && bit64(king_pieces.king & attacks, t);
                assert(bit64(b.side(c).king, t) && crate::rules::attacked_by(
                    b,
                    c.other_spec(),
                    t as int,
                ));
                assert(crate::rules::king_capturable(b, c));
            }
            if crate::rules::king_capturable(b, c) {
                let t = choose|t: int|
                    crate::rules::valid_square(t) && bit64(b.side(c).king, t as u64)
                        && #[trigger] crate::rules::attacked_by(b, c.other_spec(), t);
                assert(bit64(king_pieces.king & attacks, t as u64));
                if king_pieces.king & attacks == 0 {
                    assert(!bit64(king_pieces.king & attacks, t as u64));
                }
            }
        }
        r
    }

    /// Whether making this move leaves the mover's own king capturable:
    /// the test that separates legal from merely pseudo-legal moves.
    pub fn move_puts_own_king_in_check(
        &self,
        mv: &BitboardMove,
        piece: ChessPiece,
        table: &ZobristTable,
    ) -> (r: bool)
        requires
            table.wf(),
            self.wf_pos(),
            move_ok(self.board_of(), *mv, piece),
        ensures
            r == crate::rules::leaves_king_capturable(self.board_of(), piece.typpe, *mv),
    {
        let new = self.make_move(mv, piece, table);
        let r = new.can_king_be_captured(crate::move_gen::MoveGenPerspective::WaitingPlayer);
        proof {
            let b = self.board_of();
            let nb = apply_board(b, *mv, piece);
            assert(crate::rules::persp_board(nb, true).to_move() == b.to_move());
        }
        r
    }

    /// The canonical pseudo-legal map: for every piece of the side to move
    /// with at least one move, its square and full move list, squares
    /// ascending.
    pub fn pseudolegal_continuations(&self) -> (r: crate::move_gen::MovesMap)
        requires
            self.wf_pos(),
        ensures
            r@ == crate::rules::pseudo_map(self.board_of()),
            r.wf(),
    {
        let ghost b = self.board_of();
        let opts = crate::move_gen::MoveGenOpts {
            perspective: crate::move_gen::MoveGenPerspective::MovingPlayer,
        };
        let mut result = crate::move_gen::MovesMap::new();
        for s in 0..64u8
            invariant
                self.wf_pos(),
                b == self.board_of(),
                opts.perspective == crate::move_gen::MoveGenPerspective::MovingPlayer,
                result.wf(),
                forall|i: int| 0 <= i < result@.len() ==> (#[trigger] result@[i].0) < s,
                result@ == crate::rules::pseudo_map_upto(b, s as int),
        {
            match self.pieces_to_move().piece_kind_at(s) {
                Some(k) => {
                    proof {
                        assert(crate::rules::moving_piece(b, s as int) == Some(k));
                        assert(crate::rules::persp_board(b, opts.perspective.is_waiting()) == b);
                    }
                    let moves = crate::move_gen::square_moves_exec(self, &opts, k, s);
                    proof {
                        assert(moves@ == crate::rules::square_moves(b, k, s as int));
                    }
                    if moves.len() > 0 {
                        result.push_entry(
                            s,
                            crate::move_gen::PieceAndMoves { typpe: k, moves },
                        );
                        proof {
                            assert(result@ =~= crate::rules::pseudo_map_upto(b, s as int + 1));
                        }
                    } else {
                        proof {
                            assert(result@ =~= crate::rules::pseudo_map_upto(b, s as int + 1));
                        }
                    }
                },
                None => {
                    proof {
                        assert(crate::rules::moving_piece(b, s as int) is None);
                        assert(result@ =~= crate::rules::pseudo_map_upto(b, s as int + 1));
                    }
                },
            }
        }
        result
    }

    /// The legal moves: the pseudo-legal map with every move that leaves
    /// the mover's own king capturable removed, and pieces left without
    /// moves dropped entirely.
    #[verifier::rlimit(100)]
    pub fn legal_continuations(&self, table: &ZobristTable) -> (r: crate::move_gen::MovesMap)
        requires
            self.wf_pos(),
            table.wf(),
        ensures
            r@ == crate::rules::legal_map(self.board_of()),
            r.wf(),
    {
        let ghost b = self.board_of();
        let opts = crate::move_gen::MoveGenOpts {
            perspective: crate::move_gen::MoveGenPerspective::MovingPlayer,
        };
        let mut result = crate::move_gen::MovesMap::new();
        for s in 0..64u8
            invariant
                self.wf_pos(),
                table.wf(),
                b == self.board_of(),
                opts.perspective == crate::move_gen::MoveGenPerspective::MovingPlayer,
                result.wf(),
                forall|i: int| 0 <= i < result@.len() ==> (#[trigger] result@[i].0) < s,
                result@ == crate::rules::legal_map_upto(b, s as int),
        {
            match self.pieces_to_move().piece_kind_at(s) {
                Some(k) => {
                    proof {
                        assert(crate::rules::moving_piece(b, s as int) == Some(k));
                        assert(b.ally().has(k, s as u64));
                    }
                    proof {
                        assert(crate::rules::persp_board(b, opts.perspective.is_waiting()) == b);
                    }
                    let moves_list = crate::move_gen::square_moves_exec(self, &opts, k, s);
                    let ghost full = crate::rules::square_moves(b, k, s as int);
                    proof {
                        assert(moves_list@ == full);
                    }
                    let mut legal_moves: Vec<BitboardMove> = Vec::new();
                    let n = moves_list.len();
                    proof {
                        assert(legal_moves@ =~= crate::rules::filter_legal(b, k, full.take(0)));
                    }
                    let mut i: usize = 0;
                    while i < n
                        invariant
                            self.wf_pos(),
                            table.wf(),
                            b == self.board_of(),
                            s < 64,
                            b.ally().has(k, s as u64),
                            n == moves_list@.len(),
                            i <= n,
                            moves_list@ == full,
                            full == crate::rules::square_moves(b, k, s as int),
                            legal_moves@ == crate::rules::filter_legal(b, k, full.take(i as int)),
                        decreases n - i,
                    {
                        let mv = moves_list[i];
                        proof {
                            crate::rules::lemma_square_moves_ok(b, k, s as int, i as int);
                        }
                        let piece = ChessPiece { typpe: k, color: self.player_to_move() };
                        if !self.move_puts_own_king_in_check(&mv, piece, table) {
                            legal_moves.push(mv);
                        }
                        i = i + 1;
                        proof {
                            assert(full.take(i as int).drop_last() =~= full.take(i as int - 1));
                            assert(full.take(i as int).last() == full[i as int - 1]);
                        }
                    }
                    proof {
                        assert(full.take(n as int) =~= full);
                        assert(legal_moves@ == crate::rules::legal_square_moves(b, k, s as int));
                    }
                    if legal_moves.len() > 0 {
                        result.push_entry(
                            s,
                            crate::move_gen::PieceAndMoves { typpe: k, moves: legal_moves },
                        );
                        proof {
                            assert(result@ =~= crate::rules::legal_map_upto(b, s as int + 1));
                        }
                    } else {
                        proof {
                            assert(result@ =~= crate::rules::legal_map_upto(b, s as int + 1));
                        }
                    }
                },
                None => {
                    proof {
                        assert(crate::rules::moving_piece(b, s as int) is None);
                        assert(result@ =~= crate::rules::legal_map_upto(b, s as int + 1));
                    }
                },
            }
        }
        result
    }
}

/// The raw piece relocation plus capture changes the full hash by exactly
/// the delta `make_raw_bitboard_move` returns.
proof fn lemma_full_hash_raw_move(
    t: ZobristTable,
    b: Board,
    c: PlayerColor,
    k: PieceType,
    from: u8,
    to: u8,
)
    requires
        from < 64,
        to < 64,
        from != to,
        !b.side(c).occupies(to as u64),
        b.side(c.other_spec()).wf(),
    ensures
        ({
            let b2 = b.with_side(
                c,
                crate::rules::relocate(b.side(c), k, from as int, to as int),
            ).with_side(
                c.other_spec(),
                crate::rules::clear_square(b.side(c.other_spec()), to as int),
            );
            full_hash(t, b2) == (match b.side(c.other_spec()).piece_at(to as u64) {
                Some(ck) => full_hash(t, b) ^ ((t.entry(k, c, from as int) ^ t.entry(
                    k,
                    c,
                    to as int,
                )) ^ t.entry(ck, c.other_spec(), to as int)),
                None => full_hash(t, b) ^ (t.entry(k, c, from as int) ^ t.entry(k, c, to as int)),
            })
        }),
{
    let w = c.other_spec();
    let b2 = b.with_side(c, crate::rules::relocate(b.side(c), k, from as int, to as int)).with_side(
        w,
        crate::rules::clear_square(b.side(w), to as int),
    );
    let m0 = b.side(c).pieces_spec(k);
    let f = 1u64 << (from as u64);
    let tt = 1u64 << (to as u64);
    lemma_bit64_ops();
    crate::bitboard::lemma_all_pieces_bits(b.side(c), to as u64);
    assert(!bit64(m0, to as u64));
    let ga = b.with_side(c, b.side(c).with_pieces(k, m0 ^ f));
    crate::zobrist::lemma_full_hash_piece_flip(t, b, c, k, from as u64);
    assert(full_hash(t, ga) == full_hash(t, b) ^ t.entry(k, c, from as int));
    let m1 = m0 ^ f;
    assert(ga.side(c).pieces_spec(k) == m1);
    let gb = ga.with_side(c, ga.side(c).with_pieces(k, m1 ^ tt));
    crate::zobrist::lemma_full_hash_piece_flip(t, ga, c, k, to as u64);
    assert(full_hash(t, gb) == full_hash(t, ga) ^ t.entry(k, c, to as int));
    assert(!bit64(f, to as u64));
    assert(!bit64(m1, to as u64));
    lemma_set_clear_are_flips(m1, to as u64);
    assert(m1 | tt == m1 ^ tt);
    assert(gb.side(c) =~= crate::rules::relocate(b.side(c), k, from as int, to as int));
    crate::rules::lemma_clear_square_props(b.side(w), to as int);
    let ef = t.entry(k, c, from as int);
    let et = t.entry(k, c, to as int);
    match b.side(w).piece_at(to as u64) {
        Some(ck) => {
            assert(gb.side(w) == b.side(w));
            let gc = gb.with_side(w, gb.side(w).with_pieces(ck, gb.side(w).pieces_spec(ck) ^ tt));
            crate::zobrist::lemma_full_hash_piece_flip(t, gb, w, ck, to as u64);
            assert(full_hash(t, gc) == full_hash(t, gb) ^ t.entry(ck, w, to as int));
            assert(gc.side(w) =~= crate::rules::clear_square(b.side(w), to as int));
            assert(gc =~= b2);
            lemma_xor_assoc(full_hash(t, b), ef, et);
            lemma_xor_assoc(full_hash(t, b), ef ^ et, t.entry(ck, w, to as int));
        },
        None => {
            assert(crate::rules::clear_square(b.side(w), to as int) == b.side(w));
            assert(b2 =~= gb);
            lemma_xor_assoc(full_hash(t, b), ef, et);
        },
    }
}

/// XOR of the table constants of the set bits of `m`, square ascending.
fn mask_hash_exec(table: &ZobristTable, k: PieceType, c: PlayerColor, m: u64) -> (r: u64)
    requires
        table.wf(),
    ensures
        r == mask_hash(table.table@, ZobristTable::base(k, c), m, 64),
{
    let mut r: u64 = 0;
    proof {
        lemma_xor_zero(0u64);
    }
    for s in 0..64u64
        invariant
            table.wf(),
            r == mask_hash(table.table@, ZobristTable::base(k, c), m, s as int),
    {
        if m & (1u64 << s) != 0 {
            r = r ^ table.entry_at(k, c, s as u8);
        } else {
            proof {
                lemma_xor_zero(r);
            }
        }
    }
    r
}

/// XOR of the castling constants of the rights held in `rights`.
fn castle_hash_exec(table: &ZobristTable, rights: u8) -> (r: u64)
    requires
        table.wf(),
    ensures
        r == castle_hash(table.castling_rights@, rights),
{
    let c0 = if rights & (1u8 << 0u8) != 0 {
        table.castling_rights[0]
    } else {
        0u64
    };
    let c1 = if rights & (1u8 << 1u8) != 0 {
        table.castling_rights[1]
    } else {
        0u64
    };
    let c2 = if rights & (1u8 << 2u8) != 0 {
        table.castling_rights[2]
    } else {
        0u64
    };
    let c3 = if rights & (1u8 << 3u8) != 0 {
        table.castling_rights[3]
    } else {
        0u64
    };
    ((c0 ^ c1) ^ c2) ^ c3
}

/// The standard starting board is well formed.
pub proof fn lemma_initial_board_wf()
    ensures
        initial_board().wf(),
{
    assert(((1u64<<8)|(1u64<<9)|(1u64<<10)|(1u64<<11)|(1u64<<12)|(1u64<<13)|(1u64<<14)|(1u64<<15)) & ((1u64<<1)|(1u64<<6)) == 0 && ((1u64<<8)|(1u64<<9)|(1u64<<10)|(1u64<<11)|(1u64<<12)|(1u64<<13)|(1u64<<14)|(1u64<<15)) & ((1u64<<2)|(1u64<<5)) == 0 && ((1u64<<8)|(1u64<<9)|(1u64<<10)|(1u64<<11)|(1u64<<12)|(1u64<<13)|(1u64<<14)|(1u64<<15)) & ((1u64<<0)|(1u64<<7)) == 0 && ((1u64<<8)|(1u64<<9)|(1u64<<10)|(1u64<<11)|(1u64<<12)|(1u64<<13)|(1u64<<14)|(1u64<<15)) & ((1u64<<3)) == 0 && ((1u64<<8)|(1u64<<9)|(1u64<<10)|(1u64<<11)|(1u64<<12)|(1u64<<13)|(1u64<<14)|(1u64<<15)) & ((1u64<<4)) == 0 && ((1u64<<1)|(1u64<<6)) & ((1u64<<2)|(1u64<<5)) == 0 && ((1u64<<1)|(1u64<<6)) & ((1u64<<0)|(1u64<<7)) == 0 && ((1u64<<1)|(1u64<<6)) & ((1u64<<3)) == 0 && ((1u64<<1)|(1u64<<6)) & ((1u64<<4)) == 0 && ((1u64<<2)|(1u64<<5)) & ((1u64<<0)|(1u64<<7)) == 0 && ((1u64<<2)|(1u64<<5)) & ((1u64<<3)) == 0 && ((1u64<<2)|(1u64<<5)) & ((1u64<<4)) == 0 && ((1u64<<0)|(1u64<<7)) & ((1u64<<3)) == 0 && ((1u64<<0)|(1u64<<7)) & ((1u64<<4)) == 0 && ((1u64<<3)) & ((1u64<<4)) == 0 && ((1u64<<48)|(1u64<<49)|(1u64<<50)|(1u64<<51)|(1u64<<52)|(1u64<<53)|(1u64<<54)|(1u64<<55)) & ((1u64<<57)|(1u64<<62)) == 0 && ((1u64<<48)|(1u64<<49)|(1u64<<50)|(1u64<<51)|(1u64<<52)|(1u64<<53)|(1u64<<54)|(1u64<<55)) & ((1u64<<58)|(1u64<<61)) == 0 && ((1u64<<48)|(1u64<<49)|(1u64<<50)|(1u64<<51)|(1u64<<52)|(1u64<<53)|(1u64<<54)|(1u64<<55)) & ((1u64<<56)|(1u64<<63)) == 0 && ((1u64<<48)|(1u64<<49)|(1u64<<50)|(1u64<<51)|(1u64<<52)|(1u64<<53)|(1u64<<54)|(1u64<<55)) & ((1u64<<59)) == 0 && ((1u64<<48)|(1u64<<49)|(1u64<<50)|(1u64<<51)|(1u64<<52)|(1u64<<53)|(1u64<<54)|(1u64<<55)) & ((1u64<<60)) == 0 && ((1u64<<57)|(1u64<<62)) & ((1u64<<58)|(1u64<<61)) == 0 && ((1u64<<57)|(1u64<<62)) & ((1u64<<56)|(1u64<<63)) == 0 && ((1u64<<57)|(1u64<<62)) & ((1u64<<59)) == 0 && ((1u64<<57)|(1u64<<62)) & ((1u64<<60)) == 0 && ((1u64<<58)|(1u64<<61)) & ((1u64<<56)|(1u64<<63)) == 0 && ((1u64<<58)|(1u64<<61)) & ((1u64<<59)) == 0 && ((1u64<<58)|(1u64<<61)) & ((1u64<<60)) == 0 && ((1u64<<56)|(1u64<<63)) & ((1u64<<59)) == 0 && ((1u64<<56)|(1u64<<63)) & ((1u64<<60)) == 0 && ((1u64<<59)) & ((1u64<<60)) == 0 && (((1u64<<8)|(1u64<<9)|(1u64<<10)|(1u64<<11)|(1u64<<12)|(1u64<<13)|(1u64<<14)|(1u64<<15))|((1u64<<1)|(1u64<<6))|((1u64<<2)|(1u64<<5))|((1u64<<0)|(1u64<<7))|((1u64<<3))|((1u64<<4))) & (((1u64<<48)|(1u64<<49)|(1u64<<50)|(1u64<<51)|(1u64<<52)|(1u64<<53)|(1u64<<54)|(1u64<<55))|((1u64<<57)|(1u64<<62))|((1u64<<58)|(1u64<<61))|((1u64<<56)|(1u64<<63))|((1u64<<59))|((1u64<<60))) == 0) by (bit_vector);
}


/// Decoding the standard layout with white to move yields exactly the
/// built-in initial board, so the two produce the same legal move set.
#[verifier::rlimit(100)]
pub proof fn lemma_standard_layout_decodes_to_initial()
    ensures
        decode_board("rnbqkbnrpppppppp................................PPPPPPPPRNBQKBNR"@, false) == initial_board(),
        crate::rules::legal_map(decode_board("rnbqkbnrpppppppp................................PPPPPPPPRNBQKBNR"@, false)) == crate::rules::legal_map(
            initial_board(),
        ),
{
    reveal_strlit("rnbqkbnrpppppppp................................PPPPPPPPRNBQKBNR");
    let s = "rnbqkbnrpppppppp................................PPPPPPPPRNBQKBNR"@;
    lemma_bit64_ops();
    assert forall|i: u64| i < 64 implies (bit64(char_mask(s, 'p', 64), i) == bit64(
        (1u64 << 8) | (1u64 << 9) | (1u64 << 10) | (1u64 << 11) | (1u64 << 12) | (1u64 << 13) | (1u64 << 14) | (1u64 << 15),
        i,
    )) by {
        lemma_char_mask_bits(s, 'p', 64, i);
    }
    crate::bits::lemma_bit64_ext(char_mask(s, 'p', 64), (1u64 << 8) | (1u64 << 9) | (1u64 << 10) | (1u64 << 11) | (1u64 << 12) | (1u64 << 13) | (1u64 << 14) | (1u64 << 15));
    assert forall|i: u64| i < 64 implies (bit64(char_mask(s, 'n', 64), i) == bit64(
        (1u64 << 1) | (1u64 << 6),
        i,
    )) by {
        lemma_char_mask_bits(s, 'n', 64, i);
    }
    crate::bits::lemma_bit64_ext(char_mask(s, 'n', 64), (1u64 << 1) | (1u64 << 6));
    assert forall|i: u64| i < 64 implies (bit64(char_mask(s, 'b', 64), i) == bit64(
        (1u64 << 2) | (1u64 << 5),
        i,
    )) by {
        lemma_char_mask_bits(s, 'b', 64, i);
    }
    crate::bits::lemma_bit64_ext(char_mask(s, 'b', 64), (1u64 << 2) | (1u64 << 5));
    assert forall|i: u64| i < 64 implies (bit64(char_mask(s, 'r', 64), i) == bit64(
        (1u64 << 0) | (1u64 << 7),
        i,
    )) by {
        lemma_char_mask_bits(s, 'r', 64, i);
    }
    crate::bits::lemma_bit64_ext(char_mask(s, 'r', 64), (1u64 << 0) | (1u64 << 7));
    assert forall|i: u64| i < 64 implies (bit64(char_mask(s, 'q', 64), i) == bit64(
        (1u64 << 3),
        i,
    )) by {
        lemma_char_mask_bits(s, 'q', 64, i);
    }
    crate::bits::lemma_bit64_ext(char_mask(s, 'q', 64), (1u64 << 3));
    assert forall|i: u64| i < 64 implies (bit64(char_mask(s, 'k', 64), i) == bit64(
        (1u64 << 4),
        i,
    )) by {
        lemma_char_mask_bits(s, 'k', 64, i);
    }
    crate::bits::lemma_bit64_ext(char_mask(s, 'k', 64), (1u64 << 4));
    assert forall|i: u64| i < 64 implies (bit64(char_mask(s, 'P', 64), i) == bit64(
        (1u64 << 48) | (1u64 << 49) | (1u64 << 50) | (1u64 << 51) | (1u64 << 52) | (1u64 << 53) | (1u64 << 54) | (1u64 << 55),
        i,
    )) by {
        lemma_char_mask_bits(s, 'P', 64, i);
    }
    crate::bits::lemma_bit64_ext(char_mask(s, 'P', 64), (1u64 << 48) | (1u64 << 49) | (1u64 << 50) | (1u64 << 51) | (1u64 << 52) | (1u64 << 53) | (1u64 << 54) | (1u64 << 55));
    assert forall|i: u64| i < 64 implies (bit64(char_mask(s, 'N', 64), i) == bit64(
        (1u64 << 57) | (1u64 << 62),
        i,
    )) by {
        lemma_char_mask_bits(s, 'N', 64, i);
    }
    crate::bits::lemma_bit64_ext(char_mask(s, 'N', 64), (1u64 << 57) | (1u64 << 62));
    assert forall|i: u64| i < 64 implies (bit64(char_mask(s, 'B', 64), i) == bit64(
        (1u64 << 58) | (1u64 << 61),
        i,
    )) by {
        lemma_char_mask_bits(s, 'B', 64, i);
    }
    crate::bits::lemma_bit64_ext(char_mask(s, 'B', 64), (1u64 << 58) | (1u64 << 61));
    assert forall|i: u64| i < 64 implies (bit64(char_mask(s, 'R', 64), i) == bit64(
        (1u64 << 56) | (1u64 << 63),
        i,
    )) by {
        lemma_char_mask_bits(s, 'R', 64, i);
    }
    crate::bits::lemma_bit64_ext(char_mask(s, 'R', 64), (1u64 << 56) | (1u64 << 63));
    assert forall|i: u64| i < 64 implies (bit64(char_mask(s, 'Q', 64), i) == bit64(
        (1u64 << 59),
        i,
    )) by {
        lemma_char_mask_bits(s, 'Q', 64, i);
    }
    crate::bits::lemma_bit64_ext(char_mask(s, 'Q', 64), (1u64 << 59));
    assert forall|i: u64| i < 64 implies (bit64(char_mask(s, 'K', 64), i) == bit64(
        (1u64 << 60),
        i,
    )) by {
        lemma_char_mask_bits(s, 'K', 64, i);
    }
    crate::bits::lemma_bit64_ext(char_mask(s, 'K', 64), (1u64 << 60));
    assert(decode_board(s, false) =~= initial_board());
}

} // verus!
