//! Whether the king of the side to move is attacked.
use vstd::prelude::*;
use crate::board::{Board, BoardView};
use crate::model::{Color, Piece, Position};
use crate::move_calculator::{piece_moves, raw_target};

verus! {

/// Whether the square `f` holds a piece of `color`.
pub open spec fn holds_color(v: BoardView, f: Position, color: Color) -> bool {
    v.at(f) matches Some(p) && p.color() == color
}

/// Whether a piece of `color` can physically reach `sq`.
pub open spec fn attacked_by(v: BoardView, sq: Position, color: Color) -> bool {
    exists|f: Position|
        #![trigger holds_color(v, f, color), raw_target(v, f, sq)]
        f.wf() && holds_color(v, f, color) && raw_target(v, f, sq)
}

/// Whether a king of the side to move stands on a square that a piece of the other side
/// can physically reach.
pub open spec fn in_check(v: BoardView) -> bool {
    exists|k: Position|
        #![trigger v.at(k)]
        k.wf() && v.at(k) == Some(Piece::King(v.current)) && attacked_by(v, k, v.current.other())
}

/// Tests for check by running the move generator of every piece of the other side.
pub struct CheckVerifier;

pub fn create_check_verifier() -> (r: CheckVerifier) {
    CheckVerifier::new()
}

impl CheckVerifier {
    pub fn new() -> (r: CheckVerifier) {
        CheckVerifier
    }

    /// Whether the king of the side to move is in check. A board without that king is an
    /// internal error and is not accepted.
    pub fn is_check(&self, board: &Board) -> (r: bool)
        requires
            board.wf(),
            board@.has_king(board@.current),
        ensures
            r == in_check(board@),
    {
        let ghost v = board@;
        let current = board.get_current();
        let opponent = current.opponent();
        let mut i: usize = 0;
        while i < 64
            invariant
                board.wf(),
                v == board@,
                current == v.current,
                opponent == v.current.other(),
                i <= 64,
                forall|f: Position, t: Position|
                    f.wf() && t.wf() && f.idx() < i && holds_color(v, f, opponent) && #[trigger] raw_target(v, f, t) ==> v.at(t) != Some(
                        Piece::King(current),
                    ),
            decreases 64 - i,
        {
            let from = Position::from_index(i);
            match board.piece_at(from) {
                Some(piece) => {
                    if piece.get_color() == opponent {
                        let moves = piece_moves(board, from);
                        let mut j: usize = 0;
                        while j < moves.len()
                            invariant
                                board.wf(),
                                v == board@,
                                from.wf(),
                                crate::move_calculator::distinct_squares(moves@),
                                forall|q: Position|
                                    q.wf() ==> (#[trigger] moves@.contains(q) <==> raw_target(
                                        v,
                                        from,
                                        q,
                                    )),
                                holds_color(v, from, opponent),
                                opponent == v.current.other(),
                                current == v.current,
                                j <= moves@.len(),
                                forall|m: int| 0 <= m < j ==> v.at(moves@[m]) != Some(
                                    Piece::King(current),
                                ),
                            decreases moves@.len() - j,
                        {
                            let to = moves[j];
                            if board.piece_at(to) == Some(Piece::King(current)) {
                                proof {
                                    assert(moves@.contains(to));
                                    assert(raw_target(v, from, to));
                                    assert(attacked_by(v, to, v.current.other()));
                                }
                                return true;
                            }
                            j = j + 1;
                        }
                        proof {
                            assert forall|f: Position, t: Position|
                                f.wf() && t.wf() && f.idx() < i + 1 && holds_color(v, f, opponent) && #[trigger] raw_target(
                                    v,
                                    f,
                                    t,
                                ) implies v.at(t) != Some(Piece::King(current)) by {
                                if f.idx() == i {
                                    crate::model::lemma_index_injective(f, from);
                                    assert(moves@.contains(t));
                                }
                            }
                        }
                    } else {
                        proof {
                            assert forall|f: Position| f.wf() && f.idx() == i implies f
                                == from by {
                                crate::model::lemma_index_injective(f, from);
                            }
                        }
                    }
                },
                None => {
                    proof {
                        assert forall|f: Position| f.wf() && f.idx() == i implies f == from by {
                            crate::model::lemma_index_injective(f, from);
                        }
                    }
                },
            }
            i = i + 1;
        }
        proof {
            if in_check(v) {
                let k = choose|k: Position|
                    k.wf() && v.at(k) == Some(Piece::King(v.current)) && attacked_by(
                        v,
                        k,
                        v.current.other(),
                    );
                let f = choose|f: Position|
                    f.wf() && holds_color(v, f, v.current.other()) && raw_target(v, f, k);
                assert(f.idx() < 64);
            }
        }
        false
    }
}

} // verus!
