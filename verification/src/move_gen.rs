pub mod bishop;
pub mod internal;
pub mod king;
pub mod knight;
pub mod pawn;
pub mod queen;
pub mod rook;

use vstd::prelude::*;

use crate::bitboard::{BitB64, BitboardMove, PlayerBitboard};
use crate::bits::bit64;
use crate::chess::PieceType;
use crate::position::Position;
use crate::rules::{kind_attacks, kind_map, persp_board, Board, MapEntry};

verus! {

/// The piece standing on one origin square together with its move list.
#[derive(Clone, PartialEq, Eq, Debug)]
pub struct PieceAndMoves {
    pub typpe: PieceType,
    pub moves: Vec<BitboardMove>,
}

/// The map from origin square to the piece there and its moves, for every
/// piece with at least one move. Entries are kept ascending by square, so
/// two maps with the same content are equal values.
pub struct MovesMap {
    pub entries: Vec<(u8, PieceAndMoves)>,
}

impl View for MovesMap {
    type V = Seq<MapEntry>;

    open spec fn view(&self) -> Seq<MapEntry> {
        Seq::new(
            self.entries@.len(),
            |i: int|
                (self.entries@[i].0, self.entries@[i].1.typpe, self.entries@[i].1.moves@),
        )
    }
}

impl MovesMap {
    /// Squares strictly ascending and below 64, every move list nonempty.
    pub open spec fn wf(self) -> bool {
        &&& forall|i: int, j: int| 0 <= i < j < self@.len() ==> (#[trigger] self@[i].0) < (#[trigger] self@[j].0)
        &&& forall|i: int| 0 <= i < self@.len() ==> (#[trigger] self@[i].0) < 64
        &&& forall|i: int| 0 <= i < self@.len() ==> (#[trigger] self@[i].2).len() > 0
    }

    pub fn new() -> (r: MovesMap)
        ensures
            r@ == Seq::<MapEntry>::empty(),
            r.wf(),
    {
        let r = MovesMap { entries: Vec::new() };
        proof {
            assert(r@ =~= Seq::<MapEntry>::empty());
        }
        r
    }

    pub fn len(&self) -> (n: usize)
        ensures
            n == self@.len(),
    {
        self.entries.len()
    }

    pub fn is_empty(&self) -> (r: bool)
        ensures
            r == (self@.len() == 0),
    {
        self.entries.len() == 0
    }

    /// The entry at position `i` in square order.
    pub fn entry_at(&self, i: usize) -> (r: &(u8, PieceAndMoves))
        requires
            i < self@.len(),
        ensures
            r.0 == self@[i as int].0,
            r.1.typpe == self@[i as int].1,
            r.1.moves@ == self@[i as int].2,
    {
        &self.entries[i]
    }

    /// Appends an entry whose square lies beyond every present square.
    pub fn push_entry(&mut self, sq: u8, pm: PieceAndMoves)
        requires
            old(self)@.len() > 0 ==> old(self)@[old(self)@.len() - 1].0 < sq,
        ensures
            final(self)@ == old(self)@ + seq![(sq, pm.typpe, pm.moves@)],
    {
        self.entries.push((sq, pm));
        proof {
            assert(final(self)@ =~= old(self)@ + seq![(sq, pm.typpe, pm.moves@)]);
        }
    }

    /// The moves recorded for origin square `sq`, if any.
    pub fn get(&self, sq: u8) -> (r: Option<&PieceAndMoves>)
        ensures
            match r {
                Some(pm) => exists|i: int|
                    0 <= i < self@.len() && #[trigger] self@[i] == (sq, pm.typpe, pm.moves@),
                None => forall|i: int| 0 <= i < self@.len() ==> (#[trigger] self@[i].0) != sq,
            },
    {
        let n = self.entries.len();
        let mut i: usize = 0;
        while i < n
            invariant
                n == self@.len(),
                i <= n,
                forall|j: int| 0 <= j < i ==> (#[trigger] self@[j].0) != sq,
            decreases n - i,
        {
            if self.entries[i].0 == sq {
                proof {
                    assert(self@[i as int] == (
                        sq,
                        self.entries@[i as int].1.typpe,
                        self.entries@[i as int].1.moves@,
                    ));
                }
                return Some(&self.entries[i].1);
            }
            i = i + 1;
        }
        None
    }
}

/// Whose pieces count as "ally" during generation: check detection needs
/// the waiting side's attacks computed without first passing the turn.
#[derive(Clone, Copy, PartialEq, Eq, Structural, Debug)]
pub enum MoveGenPerspective {
    MovingPlayer,
    WaitingPlayer,
}

impl MoveGenPerspective {
    pub open spec fn is_waiting(self) -> bool {
        self == MoveGenPerspective::WaitingPlayer
    }
}

pub struct MoveGenOpts {
    pub perspective: MoveGenPerspective,
}

/// One move generator per piece kind. The raw-attack mask serves check and
/// castle-safety detection; `generate_moves` yields the kind's canonical
/// pseudo-legal map for the chosen perspective.
pub trait BitboardMoveGenerator {
    spec fn kind() -> PieceType;

    /// The squares this kind attacks, for the perspective's side.
    fn get_raw_attacking_moves(pos: &Position, opts: MoveGenOpts) -> (r: BitB64)
        requires
            pos.wf_pos(),
        ensures
            forall|t: int|
                0 <= t < 64 ==> (bit64(r, t as u64) == #[trigger] kind_attacks(
                    pos.board_of(),
                    persp_board(pos.board_of(), opts.perspective.is_waiting()).to_move(),
                    Self::kind(),
                    t,
                )),
    ;

    /// This kind's pieces with their capture-pattern moves.
    fn get_attacking_moves(pos: &Position, opts: MoveGenOpts) -> (r: MovesMap)
        requires
            pos.wf_pos(),
        ensures
            r@ == attack_map_spec(
                persp_board(pos.board_of(), opts.perspective.is_waiting()),
                Self::kind(),
            ),
            r.wf(),
    ;

    /// This kind's pieces with their full pseudo-legal move lists.
    fn generate_moves(pos: &Position, opts: MoveGenOpts) -> (r: MovesMap)
        requires
            pos.wf_pos(),
        ensures
            r@ == kind_map(persp_board(pos.board_of(), opts.perspective.is_waiting()), Self::kind()),
            r.wf(),
    ;
}

/// The capture-pattern map of one kind: for most kinds its full move map;
/// the pawn's and king's move maps add what no capture pattern shows
/// (advances and promotions, castling).
pub open spec fn attack_map_spec(b: Board, k: PieceType) -> Seq<MapEntry> {
    crate::rules::kind_attack_map(b, k)
}

/// Merging two square-ascending maps: entries interleave by square, and a
/// square present in both keeps the output's entry extended by the input's
/// moves. Merging the same map twice therefore only repeats move lists,
/// never drops or reorders entries.
pub open spec fn merge_entries(a: Seq<MapEntry>, b: Seq<MapEntry>) -> Seq<MapEntry>
    decreases a.len() + b.len(),
{
    if a.len() == 0 {
        b
    } else if b.len() == 0 {
        a
    } else if a[0].0 < b[0].0 {
        seq![a[0]] + merge_entries(a.skip(1), b)
    } else if b[0].0 < a[0].0 {
        seq![b[0]] + merge_entries(a, b.skip(1))
    } else {
        seq![(a[0].0, a[0].1, a[0].2 + b[0].2)] + merge_entries(a.skip(1), b.skip(1))
    }
}

/// The map-entry reading of a raw entry vector.
pub open spec fn entries_as_map(s: Seq<(u8, PieceAndMoves)>) -> Seq<MapEntry> {
    Seq::new(s.len(), |i: int| (s[i].0, s[i].1.typpe, s[i].1.moves@))
}

/// A copy of a move vector.
fn copy_moves(v: &Vec<BitboardMove>) -> (r: Vec<BitboardMove>)
    ensures
        r@ == v@,
{
    let mut r: Vec<BitboardMove> = Vec::new();
    let n = v.len();
    let mut i: usize = 0;
    while i < n
        invariant
            n == v@.len(),
            i <= n,
            r@ == v@.take(i as int),
        decreases n - i,
    {
        r.push(v[i]);
        i = i + 1;
        proof {
            assert(v@.take(i as int) =~= v@.take(i as int - 1) + seq![v@[i as int - 1]]);
            assert(r@ =~= v@.take(i as int));
        }
    }
    proof {
        assert(v@.take(n as int) =~= v@);
    }
    r
}

/// Appends `more` to `moves`.
fn append_moves(moves: &mut Vec<BitboardMove>, more: &Vec<BitboardMove>)
    ensures
        final(moves)@ == old(moves)@ + more@,
{
    let n = more.len();
    let mut i: usize = 0;
    while i < n
        invariant
            n == more@.len(),
            i <= n,
            moves@ == old(moves)@ + more@.take(i as int),
        decreases n - i,
    {
        moves.push(more[i]);
        i = i + 1;
        proof {
            assert(old(moves)@ + more@.take(i as int) =~= (old(moves)@ + more@.take(i as int - 1))
                + seq![more@[i as int - 1]]);
        }
    }
    proof {
        assert(old(moves)@ + more@.take(n as int) =~= old(moves)@ + more@);
    }
}

/// Merges `input` into `output`: squares interleave ascending; where both
/// maps list a square, the output's move list is extended by the input's.
pub fn merge_moves_map(input: MovesMap, output: &mut MovesMap)
    ensures
        final(output)@ == merge_entries(old(output)@, input@),
{
    let ghost a = old(output)@;
    let ghost b = input@;
    let mut merged: Vec<(u8, PieceAndMoves)> = Vec::new();
    let mut i: usize = 0;
    let mut j: usize = 0;
    let na = output.entries.len();
    let nb = input.entries.len();
    proof {
        assert(a.skip(0) =~= a);
        assert(b.skip(0) =~= b);
        assert(entries_as_map(merged@) =~= Seq::<MapEntry>::empty());
        assert(entries_as_map(merged@) + merge_entries(a, b) =~= merge_entries(a, b));
    }
    while i < na || j < nb
        invariant
            i <= na,
            j <= nb,
            na == a.len(),
            nb == b.len(),
            output@ == a,
            input@ == b,
            output.entries@.len() == na,
            input.entries@.len() == nb,
            merge_entries(a, b) == entries_as_map(merged@) + merge_entries(
                a.skip(i as int),
                b.skip(j as int),
            ),
        decreases (na - i) + (nb - j),
    {
        let ghost av = a.skip(i as int);
        let ghost bv = b.skip(j as int);
        proof {
            if i < na {
                assert(av[0] == a[i as int]);
                assert(a[i as int] == (output.entries@[i as int].0, output.entries@[i as int].1.typpe,
                    output.entries@[i as int].1.moves@));
            }
            if j < nb {
                assert(bv[0] == b[j as int]);
                assert(b[j as int] == (input.entries@[j as int].0, input.entries@[j as int].1.typpe,
                    input.entries@[j as int].1.moves@));
            }
        }
        if i < na && j < nb && output.entries[i].0 == input.entries[j].0 {
            let sq = output.entries[i].0;
            let typpe = output.entries[i].1.typpe;
            let mut moves = copy_moves(&output.entries[i].1.moves);
            append_moves(&mut moves, &input.entries[j].1.moves);
            merged.push((sq, PieceAndMoves { typpe, moves }));
            i = i + 1;
            j = j + 1;
            proof {
                assert(av.skip(1) =~= a.skip(i as int));
                assert(bv.skip(1) =~= b.skip(j as int));
                assert(merge_entries(av, bv) == seq![(av[0].0, av[0].1, av[0].2 + bv[0].2)]
                    + merge_entries(a.skip(i as int), b.skip(j as int)));
                assert(entries_as_map(merged@) =~= entries_as_map(merged@.drop_last()) + seq![(
                    av[0].0,
                    av[0].1,
                    av[0].2 + bv[0].2,
                )]);
                assert(merge_entries(a, b) =~= entries_as_map(merged@) + merge_entries(
                    a.skip(i as int),
                    b.skip(j as int),
                ));
            }
        } else if j >= nb || (i < na && output.entries[i].0 < input.entries[j].0) {
            let sq = output.entries[i].0;
            let typpe = output.entries[i].1.typpe;
            let moves = copy_moves(&output.entries[i].1.moves);
            merged.push((sq, PieceAndMoves { typpe, moves }));
            i = i + 1;
            proof {
                assert(av.skip(1) =~= a.skip(i as int));
                if bv.len() == 0 {
                    assert(merge_entries(av, bv) == av);
                    assert(av =~= seq![av[0]] + av.skip(1));
                } else {
                    assert(merge_entries(av, bv) == seq![av[0]] + merge_entries(
                        a.skip(i as int),
                        bv,
                    ));
                }
                assert(entries_as_map(merged@) =~= entries_as_map(merged@.drop_last())
                    + seq![av[0]]);
                assert(merge_entries(a, b) =~= entries_as_map(merged@) + merge_entries(
                    a.skip(i as int),
                    b.skip(j as int),
                ));
            }
        } else {
            let sq = input.entries[j].0;
            let typpe = input.entries[j].1.typpe;
            let moves = copy_moves(&input.entries[j].1.moves);
            merged.push((sq, PieceAndMoves { typpe, moves }));
            j = j + 1;
            proof {
                assert(bv.skip(1) =~= b.skip(j as int));
                if av.len() == 0 {
                    assert(merge_entries(av, bv) == bv);
                    assert(bv =~= seq![bv[0]] + bv.skip(1));
                } else {
                    assert(merge_entries(av, bv) == seq![bv[0]] + merge_entries(
                        av,
                        b.skip(j as int),
                    ));
                }
                assert(entries_as_map(merged@) =~= entries_as_map(merged@.drop_last())
                    + seq![bv[0]]);
                assert(merge_entries(a, b) =~= entries_as_map(merged@) + merge_entries(
                    a.skip(i as int),
                    b.skip(j as int),
                ));
            }
        }
    }
    proof {
        assert(a.skip(na as int) =~= Seq::<MapEntry>::empty());
        assert(b.skip(nb as int) =~= Seq::<MapEntry>::empty());
        assert(merge_entries(a, b) =~= entries_as_map(merged@));
    }
    output.entries = merged;
    proof {
        assert(final(output)@ =~= entries_as_map(final(output).entries@));
    }
}

/// The side the perspective generates for, with its opponent's pieces and
/// its color.
fn persp_sides<'a>(pos: &'a Position, opts: &MoveGenOpts) -> (r: (
    &'a PlayerBitboard,
    &'a PlayerBitboard,
    crate::chess::PlayerColor,
))
    ensures
        ({
            let b = pos.board_of();
            let c = persp_board(b, opts.perspective.is_waiting()).to_move();
            *r.0 == b.side(c) && *r.1 == b.side(c.other_spec()) && r.2 == c
        }),
{
    match opts.perspective {
        MoveGenPerspective::MovingPlayer => (
            pos.pieces_to_move(),
            pos.enemy_pieces(),
            pos.player_to_move(),
        ),
        MoveGenPerspective::WaitingPlayer => (
            pos.enemy_pieces(),
            pos.pieces_to_move(),
            pos.waiting_player(),
        ),
    }
}

/// Every square the perspective's side attacks: the union of the six
/// kinds' raw attacks.
pub fn raw_attacked_squares(pos: &Position, opts: &MoveGenOpts) -> (r: BitB64)
    requires
        pos.wf_pos(),
    ensures
        forall|t: int|
            0 <= t < 64 ==> (bit64(r, t as u64) == #[trigger] crate::rules::attacked_by(
                pos.board_of(),
                persp_board(pos.board_of(), opts.perspective.is_waiting()).to_move(),
                t,
            )),
{
    let p = opts.perspective;
    let m1 = crate::move_gen::pawn::PawnBitboardMoveGenerator::get_raw_attacking_moves(
        pos,
        MoveGenOpts { perspective: p },
    );
    let m2 = crate::move_gen::knight::KnightBitboardMoveGenerator::get_raw_attacking_moves(
        pos,
        MoveGenOpts { perspective: p },
    );
    let m3 = crate::move_gen::bishop::BishopBitboardMoveGenerator::get_raw_attacking_moves(
        pos,
        MoveGenOpts { perspective: p },
    );
    let m4 = crate::move_gen::rook::RookBitboardMoveGenerator::get_raw_attacking_moves(
        pos,
        MoveGenOpts { perspective: p },
    );
    let m5 = crate::move_gen::queen::QueenBitboardMoveGenerator::get_raw_attacking_moves(
        pos,
        MoveGenOpts { perspective: p },
    );
    let m6 = crate::move_gen::king::KingBitboardMoveGenerator::get_raw_attacking_moves(
        pos,
        MoveGenOpts { perspective: p },
    );
    let r = ((((m1 | m2) | m3) | m4) | m5) | m6;
    proof {
        crate::bits::lemma_bit64_ops();
        let b = pos.board_of();
        let c = persp_board(b, p.is_waiting()).to_move();
        assert forall|t: int| 0 <= t < 64 implies (bit64(r, t as u64)
            == #[trigger] crate::rules::attacked_by(b, c, t)) by {
            crate::rules::lemma_attacked_by_kinds(b, c, t);
        }
    }
    r
}

/// The destinations mask of the piece of kind `k` on `s`, for the
/// perspective's side.
fn square_dest_mask(pos: &Position, opts: &MoveGenOpts, k: PieceType, s: u8) -> (r: BitB64)
    requires
        pos.wf_pos(),
        s < 64,
    ensures
        ({
            let b = persp_board(pos.board_of(), opts.perspective.is_waiting());
            forall|t: int|
                0 <= t < 64 ==> (bit64(r, t as u64) == #[trigger] crate::rules::piece_dest(
                    b,
                    k,
                    s as int,
                    t,
                ))
        }),
{
    let (ally, enemy, c) = persp_sides(pos, opts);
    let ghost b0 = pos.board_of();
    let ghost b = persp_board(b0, opts.perspective.is_waiting());
    proof {
        assert(b.ally() == *ally);
        assert(b.enemy() == *enemy);
        assert(b.to_move() == c);
        crate::bits::lemma_and_or_comm(b.white.all_spec(), b.black.all_spec());
        crate::bits::lemma_bit64_ops();
    }
    match k {
        PieceType::Pawn => {
            let r = crate::move_gen::pawn::compute_single_pawn_moves(ally, enemy, c, s, Ghost(b));
            proof {
                assert forall|t: int| 0 <= t < 64 implies (bit64(r, t as u64)
                    == #[trigger] crate::rules::piece_dest(b, k, s as int, t)) by {
                    assert(bit64(r, t as u64) == crate::rules::pawn_dest(b, s as int, t));
                }
            }
            r
        },
        PieceType::Knight => {
            let r = crate::move_gen::knight::compute_single_knight_attacking_moves(ally, enemy, s);
            proof {
                assert forall|t: int| 0 <= t < 64 implies (bit64(r, t as u64)
                    == #[trigger] crate::rules::piece_dest(b, k, s as int, t)) by {
                    assert(bit64(r, t as u64) == (crate::rules::knight_shape(s as int, t) && !bit64(
                        ally.all_spec(),
                        t as u64,
                    )));
                }
            }
            r
        },
        PieceType::Bishop => {
            let r = crate::move_gen::bishop::compute_single_bishop_attacking_moves(ally, enemy, s);
            proof {
                assert forall|t: int| 0 <= t < 64 implies (bit64(r, t as u64)
                    == #[trigger] crate::rules::piece_dest(b, k, s as int, t)) by {
                    assert(bit64(r, t as u64) == (crate::rules::diag_attack(
                        ally.all_spec() | enemy.all_spec(),
                        s as int,
                        t,
                    ) && !bit64(ally.all_spec(), t as u64)));
                    assert(ally.all_spec() | enemy.all_spec() == b.occ_all());
                }
            }
            r
        },
        PieceType::Rook => {
            let r = crate::move_gen::rook::compute_single_rook_attacking_moves(ally, enemy, s);
            proof {
                assert forall|t: int| 0 <= t < 64 implies (bit64(r, t as u64)
                    == #[trigger] crate::rules::piece_dest(b, k, s as int, t)) by {
                    assert(bit64(r, t as u64) == (crate::rules::ortho_attack(
                        ally.all_spec() | enemy.all_spec(),
                        s as int,
                        t,
                    ) && !bit64(ally.all_spec(), t as u64)));
                    assert(ally.all_spec() | enemy.all_spec() == b.occ_all());
                }
            }
            r
        },
        PieceType::Queen => {
            let rd = crate::move_gen::bishop::compute_single_bishop_attacking_moves(
                ally,
                enemy,
                s,
            );
            let ro = crate::move_gen::rook::compute_single_rook_attacking_moves(ally, enemy, s);
            let r = rd | ro;
            proof {
                crate::bits::lemma_bit64_ops();
                assert forall|t: int| 0 <= t < 64 implies (bit64(r, t as u64)
                    == #[trigger] crate::rules::piece_dest(b, k, s as int, t)) by {
                    assert(bit64(rd, t as u64) ==> crate::rules::diag_attack(
                        ally.all_spec() | enemy.all_spec(),
                        s as int,
                        t,
                    ) && !bit64(ally.all_spec(), t as u64));
                    assert(crate::rules::diag_attack(
                        ally.all_spec() | enemy.all_spec(),
                        s as int,
                        t,
                    ) && !bit64(ally.all_spec(), t as u64) ==> bit64(rd, t as u64));
                    assert(bit64(ro, t as u64) == (crate::rules::ortho_attack(
                        ally.all_spec() | enemy.all_spec(),
                        s as int,
                        t,
                    ) && !bit64(ally.all_spec(), t as u64)));
                    assert(ally.all_spec() | enemy.all_spec() == b.occ_all());
                }
            }
            r
        },
        PieceType::King => {
            let r = crate::move_gen::king::compute_single_king_moves(ally, enemy, s);
            proof {
                assert forall|t: int| 0 <= t < 64 implies (bit64(r, t as u64)
                    == #[trigger] crate::rules::piece_dest(b, k, s as int, t)) by {
                    assert(bit64(r, t as u64) ==> crate::rules::king_shape(s as int, t) && !bit64(
                        ally.all_spec(),
                        t as u64,
                    ));
                    assert(crate::rules::king_shape(s as int, t) && !bit64(
                        ally.all_spec(),
                        t as u64,
                    ) ==> bit64(r, t as u64));
                }
            }
            r
        },
    }
}

/// The capture-pattern mask of the piece of kind `k` on `s`.
fn square_attack_mask(pos: &Position, opts: &MoveGenOpts, k: PieceType, s: u8) -> (r: BitB64)
    requires
        pos.wf_pos(),
        s < 64,
    ensures
        ({
            let b = persp_board(pos.board_of(), opts.perspective.is_waiting());
            forall|t: int|
                0 <= t < 64 ==> (bit64(r, t as u64) == #[trigger] crate::rules::attack_dest(
                    b,
                    k,
                    s as int,
                    t,
                ))
        }),
{
    let (ally, enemy, c) = persp_sides(pos, opts);
    let ghost b0 = pos.board_of();
    let ghost b = persp_board(b0, opts.perspective.is_waiting());
    proof {
        assert(b.ally() == *ally);
        assert(b.enemy() == *enemy);
        assert(b.to_move() == c);
        crate::bits::lemma_and_or_comm(b.white.all_spec(), b.black.all_spec());
        crate::bits::lemma_bit64_ops();
    }
    match k {
        PieceType::Pawn => {
            let r = crate::move_gen::pawn::compute_raw_single_pawn_attacking_moves(
                ally,
                enemy,
                c,
                s,
            );
            proof {
                assert forall|t: int| 0 <= t < 64 implies (bit64(r, t as u64)
                    == #[trigger] crate::rules::attack_dest(b, k, s as int, t)) by {
                    assert(bit64(r, t as u64) == (crate::rules::pawn_shape(c, s as int, t)
                        && !bit64(ally.all_spec(), t as u64)));
                }
            }
            r
        },
        PieceType::Knight => {
            let r = crate::move_gen::knight::compute_single_knight_attacking_moves(ally, enemy, s);
            proof {
                assert forall|t: int| 0 <= t < 64 implies (bit64(r, t as u64)
                    == #[trigger] crate::rules::attack_dest(b, k, s as int, t)) by {
                    assert(bit64(r, t as u64) == (crate::rules::knight_shape(s as int, t) && !bit64(
                        ally.all_spec(),
                        t as u64,
                    )));
                }
            }
            r
        },
        PieceType::Bishop => {
            let r = crate::move_gen::bishop::compute_single_bishop_attacking_moves(ally, enemy, s);
            proof {
                assert forall|t: int| 0 <= t < 64 implies (bit64(r, t as u64)
                    == #[trigger] crate::rules::attack_dest(b, k, s as int, t)) by {
                    assert(bit64(r, t as u64) == (crate::rules::diag_attack(
                        ally.all_spec() | enemy.all_spec(),
                        s as int,
                        t,
                    ) && !bit64(ally.all_spec(), t as u64)));
                    assert(ally.all_spec() | enemy.all_spec() == b.occ_all());
                }
            }
            r
        },
        PieceType::Rook => {
            let r = crate::move_gen::rook::compute_single_rook_attacking_moves(ally, enemy, s);
            proof {
                assert forall|t: int| 0 <= t < 64 implies (bit64(r, t as u64)
                    == #[trigger] crate::rules::attack_dest(b, k, s as int, t)) by {
                    assert(bit64(r, t as u64) == (crate::rules::ortho_attack(
                        ally.all_spec() | enemy.all_spec(),
                        s as int,
                        t,
                    ) && !bit64(ally.all_spec(), t as u64)));
                    assert(ally.all_spec() | enemy.all_spec() == b.occ_all());
                }
            }
            r
        },
        PieceType::Queen => {
            let rd = crate::move_gen::bishop::compute_single_bishop_attacking_moves(
                ally,
                enemy,
                s,
            );
            let ro = crate::move_gen::rook::compute_single_rook_attacking_moves(ally, enemy, s);
            let r = rd | ro;
            proof {
                crate::bits::lemma_bit64_ops();
                assert forall|t: int| 0 <= t < 64 implies (bit64(r, t as u64)
                    == #[trigger] crate::rules::attack_dest(b, k, s as int, t)) by {
                    assert(bit64(rd, t as u64) ==> crate::rules::diag_attack(
                        ally.all_spec() | enemy.all_spec(),
                        s as int,
                        t,
                    ) && !bit64(ally.all_spec(), t as u64));
                    assert(crate::rules::diag_attack(
                        ally.all_spec() | enemy.all_spec(),
                        s as int,
                        t,
                    ) && !bit64(ally.all_spec(), t as u64) ==> bit64(rd, t as u64));
                    assert(bit64(ro, t as u64) == (crate::rules::ortho_attack(
                        ally.all_spec() | enemy.all_spec(),
                        s as int,
                        t,
                    ) && !bit64(ally.all_spec(), t as u64)));
                    assert(ally.all_spec() | enemy.all_spec() == b.occ_all());
                }
            }
            r
        },
        PieceType::King => {
            let r = crate::move_gen::king::compute_single_king_moves(ally, enemy, s);
            proof {
                assert forall|t: int| 0 <= t < 64 implies (bit64(r, t as u64)
                    == #[trigger] crate::rules::attack_dest(b, k, s as int, t)) by {
                    assert(bit64(r, t as u64) ==> crate::rules::king_shape(s as int, t) && !bit64(
                        ally.all_spec(),
                        t as u64,
                    ));
                    assert(crate::rules::king_shape(s as int, t) && !bit64(
                        ally.all_spec(),
                        t as u64,
                    ) ==> bit64(r, t as u64));
                }
            }
            r
        },
    }
}

/// The full canonical pseudo-legal move list of the piece of kind `k` on
/// `s`: destination moves ascending, promotions expanded, en-passant and
/// castle moves appended.
pub(crate) fn square_moves_exec(pos: &Position, opts: &MoveGenOpts, k: PieceType, s: u8) -> (r: Vec<
    BitboardMove,
>)
    requires
        pos.wf_pos(),
        s < 64,
    ensures
        r@ == crate::rules::square_moves(
            persp_board(pos.board_of(), opts.perspective.is_waiting()),
            k,
            s as int,
        ),
{
    let ghost b = persp_board(pos.board_of(), opts.perspective.is_waiting());
    let (ally, enemy, c) = persp_sides(pos, opts);
    let ghost c2 = b.to_move();
    let mask = square_dest_mask(pos, opts, k, s);
    let is_pawn = match k {
        PieceType::Pawn => true,
        _ => false,
    };
    let promo_rank: u8 = match c {
        crate::chess::PlayerColor::White => 6,
        crate::chess::PlayerColor::Black => 1,
    };
    let base = crate::move_gen::internal::bitb64_to_moves_list(s, mask);
    let mut moves: Vec<BitboardMove> = if is_pawn && s / 8 == promo_rank {
        proof {
            crate::rules::lemma_mask_list_promo(b, s as int, mask, 64);
        }
        crate::move_gen::pawn::add_promotion_moves(base)
    } else {
        proof {
            crate::rules::lemma_mask_list_matches(b, k, s as int, mask, 64);
        }
        base
    };
    proof {
        assert(moves@ == crate::rules::square_moves_upto(b, k, s as int, 64));
    }
    match k {
        PieceType::Pawn => {
            let ep = pawn_extra_moves_exec(pos, opts, s);
            append_moves(&mut moves, &ep);
            proof {
                assert(moves@ == crate::rules::square_moves(b, PieceType::Pawn, s as int));
            }
        },
        PieceType::King => {
            let extra = king_extra_moves_exec(pos, opts, s);
            append_moves(&mut moves, &extra);
            proof {
                assert(moves@ == crate::rules::square_moves(b, PieceType::King, s as int));
            }
        },
        _ => {
            proof {
                assert(crate::rules::square_moves(b, k, s as int) =~= moves@);
            }
        },
    }
    moves
}

/// The en-passant moves of the pawn on `s`, lower file first.
fn pawn_extra_moves_exec(pos: &Position, opts: &MoveGenOpts, s: u8) -> (r: Vec<BitboardMove>)
    requires
        pos.wf_pos(),
        s < 64,
    ensures
        r@ == crate::rules::pawn_extra_moves(
            persp_board(pos.board_of(), opts.perspective.is_waiting()),
            s as int,
        ),
{
    let ghost b = persp_board(pos.board_of(), opts.perspective.is_waiting());
    let (ally, enemy, c) = persp_sides(pos, opts);
    proof {
        assert(b.enemy() == *enemy);
        assert(b.to_move() == c);
        crate::bits::lemma_bit64_ops();
        crate::bits::lemma_bit8_ops();
        crate::bits::lemma_and_or_comm(b.white.all_spec(), b.black.all_spec());
    }
    let usable: u8 = match c {
        crate::chess::PlayerColor::White => pos.position_info.white_usable_en_passant,
        crate::chess::PlayerColor::Black => pos.position_info.black_usable_en_passant,
    };
    proof {
        assert(usable == b.usable_en_passant(b.to_move()));
    }
    let mut r: Vec<BitboardMove> = Vec::new();
    let i0: u8 = s / 8;
    let j0: u8 = s % 8;
    let (dir, ep_rank_e): (i8, u8) = match c {
        crate::chess::PlayerColor::White => (1, 4),
        crate::chess::PlayerColor::Black => (-1, 3),
    };
    let occ = ally.all_pieces() | enemy.all_pieces();
    proof {
        assert(occ == b.occ_all());
    }
    if j0 > 0 {
        let tf: u8 = j0 - 1;
        let ti: i8 = (i0 as i8) + dir;
        if i0 == ep_rank_e && ti >= 0 && ti < 8 && (usable & (1u8 << tf)) != 0 && (enemy.pawns & (
        1u64 << ((i0 * 8 + tf) as u64))) != 0 && (occ & (1u64 << (((ti as u8) * 8 + tf) as u64)))
            == 0 {
            let t: u8 = (ti as u8) * 8 + tf;
            r.push(
                BitboardMove {
                    from: s,
                    to: t,
                    sp_move_type: crate::bitboard::SpecialMoveType::EnPassantLeft,
                },
            );
            proof {
                assert(i0 as int == crate::rules::rank_of(s as int) && j0 as int
                    == crate::rules::file_of(s as int));
                assert(crate::rules::rank_of(t as int) == ti as int && crate::rules::file_of(
                    t as int,
                ) == tf as int) by (nonlinear_arith)
                    requires
                        t as int == (ti as int) * 8 + tf as int && 0 <= ti < 8 && 0 <= tf < 8,
                ;
                assert(crate::bits::bit8(b.usable_en_passant(b.to_move()), tf));
                assert(b.enemy().has(crate::chess::PieceType::Pawn, (i0 * 8 + tf) as u64));
                assert(!b.occupied(t as int));
                let fd = crate::rules::file_of(t as int) - crate::rules::file_of(s as int);
                assert(fd == -1);
                assert(fd * fd == 1) by (nonlinear_arith)
                    requires
                        fd == -1,
                ;
                assert(crate::rules::ep_dest(b, s as int, t as int));
            }
        } else {
            proof {
                let tl = crate::rules::square_at(
                    crate::rules::rank_of(s as int) + crate::rules::pawn_dir(b.to_move()),
                    crate::rules::file_of(s as int) - 1,
                );
                if crate::rules::ep_dest(b, s as int, tl) {
                    assert(false);
                }
            }
        }
    }
    let ghost left_part = r@;
    if j0 < 7 {
        let tf: u8 = j0 + 1;
        let ti: i8 = (i0 as i8) + dir;
        if i0 == ep_rank_e && ti >= 0 && ti < 8 && (usable & (1u8 << tf)) != 0 && (enemy.pawns & (
        1u64 << ((i0 * 8 + tf) as u64))) != 0 && (occ & (1u64 << (((ti as u8) * 8 + tf) as u64)))
            == 0 {
            let t: u8 = (ti as u8) * 8 + tf;
            r.push(
                BitboardMove {
                    from: s,
                    to: t,
                    sp_move_type: crate::bitboard::SpecialMoveType::EnPassantRight,
                },
            );
            proof {
                assert(i0 as int == crate::rules::rank_of(s as int) && j0 as int
                    == crate::rules::file_of(s as int));
                assert(crate::rules::rank_of(t as int) == ti as int && crate::rules::file_of(
                    t as int,
                ) == tf as int) by (nonlinear_arith)
                    requires
                        t as int == (ti as int) * 8 + tf as int && 0 <= ti < 8 && 0 <= tf < 8,
                ;
                assert(crate::bits::bit8(b.usable_en_passant(b.to_move()), tf));
                assert(b.enemy().has(crate::chess::PieceType::Pawn, (i0 * 8 + tf) as u64));
                assert(!b.occupied(t as int));
                let fd = crate::rules::file_of(t as int) - crate::rules::file_of(s as int);
                assert(fd == 1);
                assert(fd * fd == 1) by (nonlinear_arith)
                    requires
                        fd == 1,
                ;
                assert(crate::rules::ep_dest(b, s as int, t as int));
            }
        } else {
            proof {
                let tr = crate::rules::square_at(
                    crate::rules::rank_of(s as int) + crate::rules::pawn_dir(b.to_move()),
                    crate::rules::file_of(s as int) + 1,
                );
                if crate::rules::ep_dest(b, s as int, tr) {
                    assert(false);
                }
            }
        }
    }
    proof {
        assert(r@ =~= crate::rules::pawn_extra_moves(b, s as int));
    }
    r
}

/// The castle moves of the king on `s`, short before long.
fn king_extra_moves_exec(pos: &Position, opts: &MoveGenOpts, s: u8) -> (r: Vec<BitboardMove>)
    requires
        pos.wf_pos(),
        s < 64,
    ensures
        r@ == crate::rules::king_extra_moves(
            persp_board(pos.board_of(), opts.perspective.is_waiting()),
            s as int,
        ),
{
    let ghost b = persp_board(pos.board_of(), opts.perspective.is_waiting());
    let (ally, enemy, c) = persp_sides(pos, opts);
    let flipped = MoveGenOpts {
        perspective: match opts.perspective {
            MoveGenPerspective::MovingPlayer => MoveGenPerspective::WaitingPlayer,
            MoveGenPerspective::WaitingPlayer => MoveGenPerspective::MovingPlayer,
        },
    };
    let enemy_attacked = raw_attacked_squares(pos, &flipped);
    proof {
        assert(persp_board(pos.board_of(), flipped.perspective.is_waiting()).to_move()
            == c.other_spec());
        assert forall|t: int| 0 <= t < 64 implies (bit64(enemy_attacked, t as u64)
            == #[trigger] crate::rules::attacked_by(b, c.other_spec(), t)) by {
            crate::rules::lemma_attacked_by_btm_indep(
                pos.board_of(),
                opts.perspective.is_waiting(),
                c.other_spec(),
                t,
            );
        }
        assert(b.side(c) == *ally);
        assert(b.side(c.other_spec()) == *enemy);
    }
    let mut r: Vec<BitboardMove> = Vec::new();
    let home: u8 = match c {
        crate::chess::PlayerColor::White => 4,
        crate::chess::PlayerColor::Black => 60,
    };
    proof {
        assert(home as int == crate::rules::king_home(c));
    }
    if s == home {
        let short_ok = crate::move_gen::king::short_castle_valid(
            ally,
            enemy,
            c,
            &pos.position_info,
            enemy_attacked,
            Ghost(b),
        );
        if short_ok {
            r.push(
                BitboardMove {
                    from: s,
                    to: crate::move_gen::king::get_short_castle_sq_id(c),
                    sp_move_type: crate::bitboard::SpecialMoveType::ShortCastle,
                },
            );
        }
        let long_ok = crate::move_gen::king::long_castle_valid(
            ally,
            enemy,
            c,
            &pos.position_info,
            enemy_attacked,
            Ghost(b),
        );
        if long_ok {
            r.push(
                BitboardMove {
                    from: s,
                    to: crate::move_gen::king::get_long_castle_sq_id(c),
                    sp_move_type: crate::bitboard::SpecialMoveType::LongCastle,
                },
            );
        }
    }
    proof {
        assert(b.to_move() == c);
        assert(r@ =~= crate::rules::king_extra_moves(b, s as int));
    }
    r
}

/// One kind's canonical pseudo-legal map: its pieces' squares ascending,
/// each with its full move list, squares without moves left out.
pub(crate) fn build_kind_map(pos: &Position, opts: MoveGenOpts, k: PieceType) -> (r: MovesMap)
    requires
        pos.wf_pos(),
    ensures
        r@ == kind_map(persp_board(pos.board_of(), opts.perspective.is_waiting()), k),
        r.wf(),
{
    let ghost b = persp_board(pos.board_of(), opts.perspective.is_waiting());
    let mut result = MovesMap::new();
    let piece_mask = {
        let (ally, _enemy, _c) = persp_sides(pos, &opts);
        *ally.pieces(k)
    };
    proof {
        assert(piece_mask == b.ally().pieces_spec(k));
        crate::bits::lemma_bit64_ops();
    }
    for s in 0..64u8
        invariant
            pos.wf_pos(),
            b == persp_board(pos.board_of(), opts.perspective.is_waiting()),
            piece_mask == b.ally().pieces_spec(k),
            result.wf(),
            forall|i: int| 0 <= i < result@.len() ==> (#[trigger] result@[i].0) < s,
            result@ == crate::rules::kind_map_upto(b, k, s as int),
    {
        proof {
            crate::bits::lemma_bit64_ops();
        }
        if piece_mask & (1u64 << (s as u64)) != 0 {
            let moves = square_moves_exec(pos, &opts, k, s);
            if moves.len() > 0 {
                result.push_entry(s, PieceAndMoves { typpe: k, moves });
            }
        }
    }
    result
}

/// One kind's capture-pattern map.
pub(crate) fn build_attack_map(pos: &Position, opts: MoveGenOpts, k: PieceType) -> (r: MovesMap)
    requires
        pos.wf_pos(),
    ensures
        r@ == attack_map_spec(persp_board(pos.board_of(), opts.perspective.is_waiting()), k),
        r.wf(),
{
    let ghost b = persp_board(pos.board_of(), opts.perspective.is_waiting());
    let mut result = MovesMap::new();
    let piece_mask = {
        let (ally, _enemy, _c) = persp_sides(pos, &opts);
        *ally.pieces(k)
    };
    proof {
        assert(piece_mask == b.ally().pieces_spec(k));
        crate::bits::lemma_bit64_ops();
    }
    for s in 0..64u8
        invariant
            pos.wf_pos(),
            b == persp_board(pos.board_of(), opts.perspective.is_waiting()),
            piece_mask == b.ally().pieces_spec(k),
            result.wf(),
            forall|i: int| 0 <= i < result@.len() ==> (#[trigger] result@[i].0) < s,
            result@ == crate::rules::kind_attack_map_upto(b, k, s as int),
    {
        proof {
            crate::bits::lemma_bit64_ops();
        }
        if piece_mask & (1u64 << (s as u64)) != 0 {
            let mask = square_attack_mask(pos, &opts, k, s);
            proof {
                crate::rules::lemma_mask_attack_list(b, k, s as int, mask, 64);
                crate::rules::lemma_mask_list_empty(s as int, mask);
            }
            if mask != 0 {
                let moves = crate::move_gen::internal::bitb64_to_moves_list(s, mask);
                result.push_entry(s, PieceAndMoves { typpe: k, moves });
            }
        }
    }
    result
}

/// Walks one step along a sliding ray: off the board or onto an ally the
/// direction closes; onto an enemy the square is taken and the direction
/// closes; onto an empty square the square is taken and the walk goes on.
pub fn try_generate_move_in_direction(
    sq_id: i8,
    ally_pieces: &PlayerBitboard,
    enemy_pieces: &PlayerBitboard,
    is_direction_blocked: &mut bool,
    cur_piece_moves: &mut u64,
)
    ensures
        ({
            let i = crate::rules::rank_of(sq_id as int);
            let j = crate::rules::file_of(sq_id as int);
            &&& (!(0 <= sq_id < 64) || *old(is_direction_blocked)) ==> (*final(
                is_direction_blocked
            ) == *old(is_direction_blocked) && *final(cur_piece_moves) == *old(cur_piece_moves))
            &&& (0 <= sq_id < 64 && !*old(is_direction_blocked)) ==> ({
                let sqb = 1u64 << (sq_id as u64);
                if bit64(ally_pieces.all_spec(), sq_id as u64) {
                    *final(is_direction_blocked) && *final(cur_piece_moves) == *old(
                        cur_piece_moves
                    )
                } else if bit64(enemy_pieces.all_spec(), sq_id as u64) {
                    *final(is_direction_blocked) && *final(cur_piece_moves) == (*old(
                        cur_piece_moves
                    ) | sqb)
                } else {
                    !*final(is_direction_blocked) && *final(cur_piece_moves) == (*old(
                        cur_piece_moves
                    ) | sqb)
                }
            })
        }),
{
    if !(*is_direction_blocked) && sq_id >= 0 && sq_id < 64 {
        let sq_in_direction: u64 = 1u64 << (sq_id as u64);
        if ally_pieces.all_pieces() & sq_in_direction != 0 {
            *is_direction_blocked = true;
        } else if enemy_pieces.all_pieces() & sq_in_direction != 0 {
            *cur_piece_moves = *cur_piece_moves | sq_in_direction;
            *is_direction_blocked = true;
        } else {
            *cur_piece_moves = *cur_piece_moves | sq_in_direction;
        }
    }
}

} // verus!
