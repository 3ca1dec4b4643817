use vstd::prelude::*;

use super::PositionEvaluator;
use crate::bitboard::BitboardMove;
use crate::chess::{ChessPiece, PieceType, PlayerColor};
use crate::position::Position;
use crate::rules::{apply_board, legal_map, legal_square_moves, move_ok, Board, MapEntry};
use crate::zobrist::ZobristTable;

verus! {

/// One entry's moves, each tagged with its piece kind.
pub open spec fn tag_moves(e: MapEntry) -> Seq<(PieceType, BitboardMove)> {
    Seq::new(e.2.len(), |i: int| (e.1, e.2[i]))
}

/// Every move of a map, in map order.
pub open spec fn flat_moves(entries: Seq<MapEntry>) -> Seq<(PieceType, BitboardMove)>
    decreases entries.len(),
{
    if entries.len() == 0 {
        Seq::empty()
    } else {
        flat_moves(entries.drop_last()) + tag_moves(entries.last())
    }
}

/// White maximizes; black minimizes.
pub open spec fn maximizing(b: Board) -> bool {
    b.to_move() == PlayerColor::White
}

/// The fold's identity: the worst score for the side to move.
pub open spec fn fold_init(b: Board) -> int {
    if maximizing(b) {
        i32::MIN as int
    } else {
        i32::MAX as int
    }
}

/// Keep the better score for the side to move.
pub open spec fn comb(b: Board, x: int, y: int) -> int {
    if maximizing(b) {
        if x >= y {
            x
        } else {
            y
        }
    } else {
        if x <= y {
            x
        } else {
            y
        }
    }
}

/// The board a tagged move leads to.
pub open spec fn child_board(b: Board, m: (PieceType, BitboardMove)) -> Board {
    apply_board(b, m.1, ChessPiece { typpe: m.0, color: b.to_move() })
}

/// The minimax value of a board at a given depth: the leaf evaluator at
/// depth zero or with no legal continuation, otherwise the best child
/// value for the side to move.
pub open spec fn minimax_value<E: PositionEvaluator>(ev: &E, b: Board, depth: nat) -> int
    decreases depth, flat_moves(legal_map(b)).len() + 1,
{
    let flat = flat_moves(legal_map(b));
    if depth == 0 || flat.len() == 0 {
        ev.spec_evaluate(b)
    } else {
        minimax_moves(ev, b, flat, depth)
    }
}

/// The best value over a list of tagged moves, folded left to right.
pub open spec fn minimax_moves<E: PositionEvaluator>(
    ev: &E,
    b: Board,
    ms: Seq<(PieceType, BitboardMove)>,
    depth: nat,
) -> int
    decreases depth, ms.len(),
{
    if ms.len() == 0 || depth == 0 {
        fold_init(b)
    } else {
        comb(
            b,
            minimax_moves(ev, b, ms.drop_last(), depth),
            minimax_value(ev, child_board(b, ms.last()), (depth - 1) as nat),
        )
    }
}

/// Every minimax value fits an i32: leaves are bounded by the evaluator's
/// obligation, and folds only choose among leaves and the fold identity.
pub proof fn lemma_minimax_bounds<E: PositionEvaluator>(ev: &E, b: Board, depth: nat)
    ensures
        i32::MIN as int <= minimax_value(ev, b, depth) <= i32::MAX as int,
    decreases depth, flat_moves(legal_map(b)).len() + 1,
{
    let flat = flat_moves(legal_map(b));
    if depth == 0 || flat.len() == 0 {
        ev.evaluate_bounds(b);
    } else {
        lemma_moves_bounds(ev, b, flat, depth);
    }
}

pub proof fn lemma_moves_bounds<E: PositionEvaluator>(
    ev: &E,
    b: Board,
    ms: Seq<(PieceType, BitboardMove)>,
    depth: nat,
)
    ensures
        i32::MIN as int <= minimax_moves(ev, b, ms, depth) <= i32::MAX as int,
    decreases depth, ms.len(),
{
    if ms.len() == 0 || depth == 0 {
    } else {
        lemma_moves_bounds(ev, b, ms.drop_last(), depth);
        lemma_minimax_bounds(ev, child_board(b, ms.last()), (depth - 1) as nat);
    }
}

/// Folding a longer prefix never loses ground for the side to move.
pub proof fn lemma_moves_prefix_mono<E: PositionEvaluator>(
    ev: &E,
    b: Board,
    ms: Seq<(PieceType, BitboardMove)>,
    depth: nat,
    j: int,
)
    requires
        0 <= j <= ms.len(),
    ensures
        maximizing(b) ==> minimax_moves(ev, b, ms.take(j), depth) <= minimax_moves(
            ev,
            b,
            ms,
            depth,
        ),
        !maximizing(b) ==> minimax_moves(ev, b, ms.take(j), depth) >= minimax_moves(
            ev,
            b,
            ms,
            depth,
        ),
    decreases ms.len() - j,
{
    if j == ms.len() {
        assert(ms.take(j) =~= ms);
    } else {
        lemma_moves_prefix_mono(ev, b, ms, depth, j + 1);
        let p1 = ms.take(j + 1);
        assert(p1.drop_last() =~= ms.take(j));
        if depth == 0 {
        } else {
            assert(minimax_moves(ev, b, p1, depth) == comb(
                b,
                minimax_moves(ev, b, ms.take(j), depth),
                minimax_value(ev, child_board(b, ms[j]), (depth - 1) as nat),
            ));
        }
    }
}

/// A map's flattened prefix is a prefix of its flattened whole.
pub proof fn lemma_flat_take_prefix(entries: Seq<MapEntry>, i: int)
    requires
        0 <= i <= entries.len(),
    ensures
        flat_moves(entries).take(flat_moves(entries.take(i)).len() as int) == flat_moves(
            entries.take(i),
        ),
        flat_moves(entries.take(i)).len() <= flat_moves(entries).len(),
    decreases entries.len(),
{
    if i == entries.len() {
        assert(entries.take(i) =~= entries);
        assert(flat_moves(entries).take(flat_moves(entries).len() as int) =~= flat_moves(entries));
    } else {
        let prev = entries.drop_last();
        assert(prev.take(i) =~= entries.take(i));
        lemma_flat_take_prefix(prev, i);
        assert(flat_moves(entries) == flat_moves(prev) + tag_moves(entries.last()));
        assert(flat_moves(entries).take(flat_moves(prev).len() as int) =~= flat_moves(prev));
        assert(flat_moves(entries).take(flat_moves(entries.take(i)).len() as int) =~= flat_moves(
            prev,
        ).take(flat_moves(entries.take(i)).len() as int));
    }
}

/// A score this search gives a whole move, with the depth it came from.
pub struct MoveScore {
    pub score: i32,
    pub depth: u8,
}

/// Depth-bounded minimax with alpha-beta pruning over the legal
/// continuations, bottoming out in the injected leaf evaluator. Positions
/// are immutable values: every candidate move builds a fresh child.
pub struct MinimaxSearchEvaluator<E: PositionEvaluator> {
    pub leaf_evaluator: E,
    pub depth: u8,
    pub table: ZobristTable,
}

impl<E: PositionEvaluator> MinimaxSearchEvaluator<E> {
    pub fn new(leaf_evaluator: E, depth: u8, table: ZobristTable) -> (r:
        MinimaxSearchEvaluator<E>)
        requires
            table.wf(),
            leaf_evaluator.wf(),
        ensures
            r.wf(),
            r.leaf_evaluator == leaf_evaluator,
            r.depth == depth,
    {
        MinimaxSearchEvaluator { leaf_evaluator, depth, table }
    }

    /// Depth-bounded alpha-beta search. The score is pinned by the three
    /// fail-soft window clauses: inside the window it equals the unpruned
    /// minimax value; at or below alpha it is an upper bound on it; at or
    /// above beta a lower bound. Node counts saturate rather than wrap.
    #[verifier::rlimit(100)]
    #[verifier::spinoff_prover]
    pub fn minimax(&self, position: &Position, remaining_depth: u8, alpha: i32, beta: i32) -> (r: (
        i32,
        u64,
    ))
        requires
            self.wf(),
            position.wf_pos(),
            alpha < beta,
        ensures
            ({
                let v = minimax_value(
                    &self.leaf_evaluator,
                    position.board_of(),
                    remaining_depth as nat,
                );
                &&& r.0 as int <= alpha as int ==> v <= r.0 as int
                &&& ((alpha as int) < (r.0 as int) && (r.0 as int) < (beta as int)) ==> r.0 as int == v
                &&& r.0 as int >= beta as int ==> v >= r.0 as int
                &&& r.1 >= 1
            }),
        decreases remaining_depth,
    {
        let ghost b = position.board_of();
        let ghost ev = &self.leaf_evaluator;
        let ghost dd = remaining_depth as nat;
        if remaining_depth == 0 {
            return (self.leaf_evaluator.evaluate(position), 1);
        }
        let continuation_map = position.legal_continuations(&self.table);
        let ghost entries = legal_map(b);
        let ghost flat = flat_moves(entries);
        let ne = continuation_map.len();
        if ne == 0 {
            proof {
                assert(entries =~= Seq::<MapEntry>::empty());
                assert(flat.len() == 0);
            }
            return (self.leaf_evaluator.evaluate(position), 1);
        }
        proof {
            assert(entries.len() > 0);
            assert(flat_moves(entries) == flat_moves(entries.drop_last()) + tag_moves(
                entries.last(),
            ));
            assert(entries.last().2.len() > 0);
            assert(flat.len() > 0);
            lemma_moves_bounds(ev, b, flat, dd);
        }
        let maxp = position.white_to_move();
        proof {
            assert(maxp == maximizing(b));
        }
        let moving_player = position.player_to_move();
        let mut best: i32 = if maxp {
            i32::MIN
        } else {
            i32::MAX
        };
        let mut a: i32 = alpha;
        let mut bt: i32 = beta;
        let mut total_nodes: u64 = 0;
        let mut done = false;
        let ghost mut pf: Seq<(PieceType, BitboardMove)> = Seq::empty();
        let mut ei: usize = 0;
        proof {
            assert(pf =~= flat_moves(entries.take(0)));
            assert(flat.take(0) =~= pf);
            lemma_flat_take_prefix(entries, 0);
        }
        while ei < ne && !done
            invariant
                self.wf(),
                position.wf_pos(),
                b == position.board_of(),
                ev == &self.leaf_evaluator,
                dd == remaining_depth as nat,
                remaining_depth >= 1,
                alpha < beta,
                maxp == maximizing(b),
                moving_player == b.to_move(),
                continuation_map@ == entries,
                continuation_map.wf(),
                entries == legal_map(b),
                flat == flat_moves(entries),
                ne == entries.len(),
                ei <= ne,
                !done ==> pf == flat_moves(entries.take(ei as int)),
                pf.len() <= flat.len(),
                flat.take(pf.len() as int) == pf,
                pf.len() > 0 ==> total_nodes >= 1,
                maxp ==> bt == beta,
                !maxp ==> a == alpha,
                maxp ==> a as int == (if alpha as int >= best as int {
                    alpha as int
                } else {
                    best as int
                }),
                !maxp ==> bt as int == (if beta as int <= best as int {
                    beta as int
                } else {
                    best as int
                }),
                !done ==> a < bt,
                !done && maxp ==> minimax_moves(ev, b, pf, dd) <= best as int,
                !done && maxp ==> best as int <= (if alpha as int >= minimax_moves(ev, b, pf, dd) {
                    alpha as int
                } else {
                    minimax_moves(ev, b, pf, dd)
                }),
                !done && !maxp ==> minimax_moves(ev, b, pf, dd) >= best as int,
                !done && !maxp ==> best as int >= (if beta as int <= minimax_moves(ev, b, pf, dd) {
                    beta as int
                } else {
                    minimax_moves(ev, b, pf, dd)
                }),
                done ==> total_nodes >= 1,
                done && maxp ==> (best as int >= beta as int && minimax_moves(ev, b, pf, dd)
                    >= best as int),
                done && !maxp ==> (best as int <= alpha as int && minimax_moves(ev, b, pf, dd)
                    <= best as int),
            decreases ne - ei,
        {
            let entry_sq = continuation_map.entry_at(ei).0;
            let typpe = continuation_map.entry_at(ei).1.typpe;
            let nm = continuation_map.entry_at(ei).1.moves.len();
            let ghost e = entries[ei as int];
            proof {
                crate::rules::lemma_legal_map_entry(b, 64, ei as int);
                assert(b.ally().has(e.1, e.0 as u64));
            }
            let mut mi: usize = 0;
            while mi < nm && !done
                invariant
                    self.wf(),
                    position.wf_pos(),
                    b == position.board_of(),
                    ev == &self.leaf_evaluator,
                    dd == remaining_depth as nat,
                    remaining_depth >= 1,
                    alpha < beta,
                    maxp == maximizing(b),
                    moving_player == b.to_move(),
                    continuation_map@ == entries,
                    continuation_map.wf(),
                    entries == legal_map(b),
                    flat == flat_moves(entries),
                    ne == entries.len(),
                    ei < ne,
                    e == entries[ei as int],
                    entry_sq == e.0,
                    typpe == e.1,
                    (e.0 as int) < 64,
                    crate::rules::moving_piece(b, e.0 as int) == Some(e.1),
                    e.2 == legal_square_moves(b, e.1, e.0 as int),
                    b.ally().has(e.1, e.0 as u64),
                    nm == e.2.len(),
                    mi <= nm,
                    pf == flat_moves(entries.take(ei as int)) + tag_moves(e).take(mi as int),
                    pf.len() <= flat.len(),
                    flat.take(pf.len() as int) == pf,
                    pf.len() > 0 ==> total_nodes >= 1,
                    maxp ==> bt == beta,
                    !maxp ==> a == alpha,
                    maxp ==> a as int == (if alpha as int >= best as int {
                        alpha as int
                    } else {
                        best as int
                    }),
                    !maxp ==> bt as int == (if beta as int <= best as int {
                        beta as int
                    } else {
                        best as int
                    }),
                    !done ==> a < bt,
                    !done && maxp ==> minimax_moves(ev, b, pf, dd) <= best as int,
                    !done && maxp ==> best as int <= (if alpha as int >= minimax_moves(
                        ev,
                        b,
                        pf,
                        dd,
                    ) {
                        alpha as int
                    } else {
                        minimax_moves(ev, b, pf, dd)
                    }),
                    !done && !maxp ==> minimax_moves(ev, b, pf, dd) >= best as int,
                    !done && !maxp ==> best as int >= (if beta as int <= minimax_moves(
                        ev,
                        b,
                        pf,
                        dd,
                    ) {
                        beta as int
                    } else {
                        minimax_moves(ev, b, pf, dd)
                    }),
                    done ==> total_nodes >= 1,
                    done && maxp ==> (best as int >= beta as int && minimax_moves(ev, b, pf, dd)
                        >= best as int),
                    done && !maxp ==> (best as int <= alpha as int && minimax_moves(ev, b, pf, dd)
                        <= best as int),
                decreases nm - mi,
            {
                let mv = continuation_map.entry_at(ei).1.moves[mi];
                proof {
                    assert(mv == e.2[mi as int]);
                    crate::rules::lemma_filter_legal_sub(
                        b,
                        e.1,
                        crate::rules::square_moves(b, e.1, e.0 as int),
                        mi as int,
                    );
                    let jj = choose|jj: int|
                        0 <= jj < crate::rules::square_moves(b, e.1, e.0 as int).len()
                            && crate::rules::square_moves(b, e.1, e.0 as int)[jj] == e.2[mi as int];
                    crate::rules::lemma_square_moves_ok(b, e.1, e.0 as int, jj);
                    assert(move_ok(b, mv, ChessPiece { typpe: e.1, color: b.to_move() }));
                }
                let piece = ChessPiece { typpe, color: moving_player };
                let new_pos = position.make_move(&mv, piece, &self.table);
                let (score, nodes_explored) = self.minimax(&new_pos, remaining_depth - 1, a, bt);
                total_nodes = if u64::MAX - total_nodes < nodes_explored {
                    u64::MAX
                } else {
                    total_nodes + nodes_explored
                };
                let ghost old_best = best;
                let ghost old_pf = pf;
                let ghost vi = minimax_value(ev, child_board(b, (e.1, mv)), (dd - 1) as nat);
                if maxp {
                    if score > best {
                        best = score;
                    }
                    if best > a {
                        a = best;
                    }
                } else {
                    if score < best {
                        best = score;
                    }
                    if best < bt {
                        bt = best;
                    }
                }
                proof {
                    pf = pf.push((e.1, mv));
                    assert(pf.drop_last() =~= old_pf);
                    assert(minimax_moves(ev, b, pf, dd) == comb(
                        b,
                        minimax_moves(ev, b, old_pf, dd),
                        vi,
                    ));
                    assert(new_pos.board_of() == child_board(b, (e.1, mv)));
                    lemma_minimax_bounds(ev, child_board(b, (e.1, mv)), (dd - 1) as nat);
                    // the prefix stays a prefix: its next element is this move
                    assert(tag_moves(e).take(mi as int + 1).drop_last() =~= tag_moves(e).take(
                        mi as int,
                    ));
                    assert(pf =~= flat_moves(entries.take(ei as int)) + tag_moves(e).take(
                        mi as int + 1,
                    ));
                    lemma_flat_take_prefix(entries, ei as int + 1);
                    assert(flat_moves(entries.take(ei as int + 1)) == flat_moves(
                        entries.take(ei as int + 1).drop_last(),
                    ) + tag_moves(entries.take(ei as int + 1).last()));
                    assert(entries.take(ei as int + 1).drop_last() =~= entries.take(ei as int));
                    assert(entries.take(ei as int + 1).last() == e);
                    assert(tag_moves(e).take(mi as int + 1).is_prefix_of(tag_moves(e)));
                    assert(pf.is_prefix_of(flat_moves(entries.take(ei as int + 1))));
                    assert(flat.take(flat_moves(entries.take(ei as int + 1)).len() as int)
                        == flat_moves(entries.take(ei as int + 1)));
                    assert(flat.take(pf.len() as int) =~= pf);
                }
                if maxp {
                    if a >= bt {
                        done = true;
                        proof {
                            assert(best == score);
                            assert(score as int >= beta as int);
                            assert(vi >= score as int);
                            assert(minimax_moves(ev, b, pf, dd) >= vi);
                        }
                    }
                } else {
                    if a >= bt {
                        done = true;
                        proof {
                            assert(best == score);
                            assert(score as int <= alpha as int);
                            assert(vi <= score as int);
                            assert(minimax_moves(ev, b, pf, dd) <= vi);
                        }
                    }
                }
                mi = mi + 1;
            }
            proof {
                if !done {
                    assert(mi == nm);
                    assert(tag_moves(e).take(nm as int) =~= tag_moves(e));
                    assert(flat_moves(entries.take(ei as int + 1)) == flat_moves(
                        entries.take(ei as int + 1).drop_last(),
                    ) + tag_moves(entries.take(ei as int + 1).last()));
                    assert(entries.take(ei as int + 1).drop_last() =~= entries.take(ei as int));
                    assert(entries.take(ei as int + 1).last() == e);
                    assert(pf =~= flat_moves(entries.take(ei as int + 1)));
                }
            }
            ei = ei + 1;
            proof {
                if !done {
                    assert(pf == flat_moves(entries.take(ei as int)));
                }
            }
        }
        proof {
            if !done {
                assert(ei == ne);
                assert(entries.take(ne as int) =~= entries);
                assert(pf == flat);
                assert(minimax_value(ev, b, dd) == minimax_moves(ev, b, flat, dd));
                if maxp {
                    if best as int > alpha as int && (best as int) < beta as int {
                        assert(best as int == minimax_moves(ev, b, pf, dd));
                    }
                } else {
                    if best as int > alpha as int && (best as int) < beta as int {
                        assert(best as int == minimax_moves(ev, b, pf, dd));
                    }
                }
            } else {
                lemma_moves_prefix_mono(ev, b, flat, dd, pf.len() as int);
                assert(flat.take(pf.len() as int) == pf);
                assert(minimax_value(ev, b, dd) == minimax_moves(ev, b, flat, dd));
            }
        }
        (best, total_nodes)
    }

    /// Minimax without pruning: walks every child and returns exactly the
    /// minimax value. The reference alpha-beta is held to.
    pub fn minimax_plain(&self, position: &Position, remaining_depth: u8) -> (r: (i32, u64))
        requires
            self.wf(),
            position.wf_pos(),
        ensures
            r.0 as int == minimax_value(
                &self.leaf_evaluator,
                position.board_of(),
                remaining_depth as nat,
            ),
            r.1 >= 1,
        decreases remaining_depth,
    {
        let ghost b = position.board_of();
        let ghost ev = &self.leaf_evaluator;
        let ghost dd = remaining_depth as nat;
        if remaining_depth == 0 {
            return (self.leaf_evaluator.evaluate(position), 1);
        }
        let continuation_map = position.legal_continuations(&self.table);
        let ghost entries = legal_map(b);
        let ghost flat = flat_moves(entries);
        let ne = continuation_map.len();
        if ne == 0 {
            proof {
                assert(entries =~= Seq::<MapEntry>::empty());
                assert(flat.len() == 0);
            }
            return (self.leaf_evaluator.evaluate(position), 1);
        }
        proof {
            assert(flat_moves(entries) == flat_moves(entries.drop_last()) + tag_moves(
                entries.last(),
            ));
            assert(entries.last().2.len() > 0);
            assert(flat.len() > 0);
            lemma_moves_bounds(ev, b, flat, dd);
        }
        let maxp = position.white_to_move();
        let moving_player = position.player_to_move();
        let mut best: i32 = if maxp {
            i32::MIN
        } else {
            i32::MAX
        };
        let mut total_nodes: u64 = 0;
        let ghost mut pf: Seq<(PieceType, BitboardMove)> = Seq::empty();
        let mut ei: usize = 0;
        proof {
            assert(pf =~= flat_moves(entries.take(0)));
        }
        while ei < ne
            invariant
                self.wf(),
                position.wf_pos(),
                b == position.board_of(),
                ev == &self.leaf_evaluator,
                dd == remaining_depth as nat,
                remaining_depth >= 1,
                maxp == maximizing(b),
                moving_player == b.to_move(),
                continuation_map@ == entries,
                continuation_map.wf(),
                entries == legal_map(b),
                flat == flat_moves(entries),
                ne == entries.len(),
                ei <= ne,
                pf == flat_moves(entries.take(ei as int)),
                pf.len() > 0 ==> total_nodes >= 1,
                best as int == minimax_moves(ev, b, pf, dd),
            decreases ne - ei,
        {
            let typpe = continuation_map.entry_at(ei).1.typpe;
            let nm = continuation_map.entry_at(ei).1.moves.len();
            let ghost e = entries[ei as int];
            proof {
                crate::rules::lemma_legal_map_entry(b, 64, ei as int);
                assert(b.ally().has(e.1, e.0 as u64));
            }
            let mut mi: usize = 0;
            while mi < nm
                invariant
                    self.wf(),
                    position.wf_pos(),
                    b == position.board_of(),
                    ev == &self.leaf_evaluator,
                    dd == remaining_depth as nat,
                    remaining_depth >= 1,
                    maxp == maximizing(b),
                    moving_player == b.to_move(),
                    continuation_map@ == entries,
                    continuation_map.wf(),
                    entries == legal_map(b),
                    flat == flat_moves(entries),
                    ne == entries.len(),
                    ei < ne,
                    e == entries[ei as int],
                    typpe == e.1,
                    (e.0 as int) < 64,
                    crate::rules::moving_piece(b, e.0 as int) == Some(e.1),
                    e.2 == legal_square_moves(b, e.1, e.0 as int),
                    b.ally().has(e.1, e.0 as u64),
                    nm == e.2.len(),
                    mi <= nm,
                    pf == flat_moves(entries.take(ei as int)) + tag_moves(e).take(mi as int),
                    pf.len() > 0 ==> total_nodes >= 1,
                    best as int == minimax_moves(ev, b, pf, dd),
                decreases nm - mi,
            {
                let mv = continuation_map.entry_at(ei).1.moves[mi];
                proof {
                    assert(mv == e.2[mi as int]);
                    crate::rules::lemma_filter_legal_sub(
                        b,
                        e.1,
                        crate::rules::square_moves(b, e.1, e.0 as int),
                        mi as int,
                    );
                    let jj = choose|jj: int|
                        0 <= jj < crate::rules::square_moves(b, e.1, e.0 as int).len()
                            && crate::rules::square_moves(b, e.1, e.0 as int)[jj] == e.2[mi as int];
                    crate::rules::lemma_square_moves_ok(b, e.1, e.0 as int, jj);
                }
                let piece = ChessPiece { typpe, color: moving_player };
                let new_pos = position.make_move(&mv, piece, &self.table);
                let (score, nodes_explored) = self.minimax_plain(&new_pos, remaining_depth - 1);
                total_nodes = if u64::MAX - total_nodes < nodes_explored {
                    u64::MAX
                } else {
                    total_nodes + nodes_explored
                };
                let ghost old_pf = pf;
                let ghost vi = minimax_value(ev, child_board(b, (e.1, mv)), (dd - 1) as nat);
                if maxp {
                    if score > best {
                        best = score;
                    }
                } else {
                    if score < best {
                        best = score;
                    }
                }
                proof {
                    pf = pf.push((e.1, mv));
                    assert(pf.drop_last() =~= old_pf);
                    assert(new_pos.board_of() == child_board(b, (e.1, mv)));
                    assert(minimax_moves(ev, b, pf, dd) == comb(
                        b,
                        minimax_moves(ev, b, old_pf, dd),
                        vi,
                    ));
                    assert(tag_moves(e).take(mi as int + 1).drop_last() =~= tag_moves(e).take(
                        mi as int,
                    ));
                    assert(pf =~= flat_moves(entries.take(ei as int)) + tag_moves(e).take(
                        mi as int + 1,
                    ));
                }
                mi = mi + 1;
            }
            proof {
                assert(tag_moves(e).take(nm as int) =~= tag_moves(e));
                assert(flat_moves(entries.take(ei as int + 1)) == flat_moves(
                    entries.take(ei as int + 1).drop_last(),
                ) + tag_moves(entries.take(ei as int + 1).last()));
                assert(entries.take(ei as int + 1).drop_last() =~= entries.take(ei as int));
                assert(entries.take(ei as int + 1).last() == e);
                assert(pf =~= flat_moves(entries.take(ei as int + 1)));
            }
            ei = ei + 1;
        }
        proof {
            assert(entries.take(ne as int) =~= entries);
            assert(pf == flat);
        }
        (best, total_nodes)
    }
}

impl<E: PositionEvaluator> PositionEvaluator for MinimaxSearchEvaluator<E> {
    open spec fn spec_evaluate(&self, b: Board) -> int {
        minimax_value(&self.leaf_evaluator, b, self.depth as nat)
    }

    open spec fn wf(&self) -> bool {
        self.table.wf() && self.leaf_evaluator.wf()
    }

    proof fn evaluate_bounds(&self, b: Board) {
        lemma_minimax_bounds(&self.leaf_evaluator, b, self.depth as nat);
    }

    fn evaluate(&self, position: &Position) -> (r: i32) {
        let (score, _nodes_explored) = self.minimax(position, self.depth, i32::MIN, i32::MAX);
        proof {
            lemma_alpha_beta_agrees_with_minimax(
                &self.leaf_evaluator,
                position.board_of(),
                self.depth as nat,
                score as int,
            );
        }
        score
    }
}

/// Pruning is a performance optimization, not a semantic change: a score
/// that satisfies the fail-soft window clauses for the full window equals
/// the unpruned minimax value, so alpha-beta search and plain minimax
/// return the same best score for any depth and evaluator.
pub proof fn lemma_alpha_beta_agrees_with_minimax<E: PositionEvaluator>(
    ev: &E,
    b: Board,
    depth: nat,
    score: int,
)
    requires
        i32::MIN as int <= score <= i32::MAX as int,
        score <= i32::MIN as int ==> minimax_value(ev, b, depth) <= score,
        ((i32::MIN as int) < score && score < (i32::MAX as int)) ==> score == minimax_value(
            ev,
            b,
            depth,
        ),
        score >= i32::MAX as int ==> minimax_value(ev, b, depth) >= score,
    ensures
        score == minimax_value(ev, b, depth),
{
    lemma_minimax_bounds(ev, b, depth);
}

} // verus!
