//! Legal moves: the physically reachable squares, plus castling, that do not leave the
//! mover's own king in check; and the positions where the side to move has none.
use vstd::prelude::*;
use crate::board::{
    Board, BoardView, castle_rook, cell, enemy, free, lemma_first_occupied_beyond, open_to,
};
use crate::check_verifier::{CheckVerifier, attacked_by, holds_color, in_check};
use crate::model::{Color, Piece, Position, column_char, on_board, parse_position};
use crate::move_calculator::{
    distinct_squares, push_position, king_on, piece_moves, ray_free, raw_target, scale, slide_target, steps,
};

verus! {

/// The piece that lands on `to` when the piece at `from` is tried there: a pawn reaching
/// its last rank becomes a queen.
pub open spec fn tried_piece(v: BoardView, from: Position, to: Position) -> Piece {
    let piece = v.at(from).unwrap();
    match piece.default_promotion(to) {
        Some(q) => q,
        None => piece,
    }
}

/// The board on which the piece at `from` has been tried out at `to`, with the mover's
/// color still to move.
pub open spec fn tried(v: BoardView, from: Position, to: Position) -> BoardView {
    v.moved(from, to, tried_piece(v, from, to), true).with_current(v.at(from).unwrap().color())
}

/// The board on which the king at `from` stands on file `file` of its rank instead,
/// with its color to move.
pub open spec fn king_moved_to(v: BoardView, from: Position, file: int) -> BoardView {
    BoardView {
        current: v.at(from).unwrap().color(),
        cells: v.cells.update(from.idx(), None).update((from.r() - 1) * 8 + file, v.at(from)),
        ..v
    }
}

/// Whether the king at `from` would be in check standing on file `file` of its rank.
pub open spec fn passage_attacked(v: BoardView, from: Position, file: int) -> bool {
    in_check(king_moved_to(v, from, file))
}

/// Whether `x` lies strictly between `a` and `b`.
pub open spec fn strictly_between(a: int, b: int, x: int) -> bool {
    (a < x && x < b) || (b < x && x < a)
}

/// Whether the king of `color` at `from` may castle towards the h file (`king_side`) or
/// the a file: the right holds and the king is not in check; walking outward from the
/// king, the first occupied square holds a rook of its color, and no square passed on the
/// way is attacked; the square the king lands on is empty or holds that rook.
pub open spec fn castle_side_ok(v: BoardView, from: Position, color: Color, king_side: bool) -> bool {
    let d = if king_side {
        1int
    } else {
        -1int
    };
    &&& v.castling.allows(color, king_side)
    &&& !in_check(v.with_current(color))
    &&& castle_rook(v, from, color, d) matches Some(rf)
    &&& free(v, from.r(), from.c() + 2 * d) || rf == from.c() + 2 * d
    &&& forall|f: int|
        strictly_between(from.c(), rf, f) ==> !#[trigger] passage_attacked(v, from, f)
}

/// Whether the king at `from` castles to `to`: it stands on its starting square and
/// steps two files towards a rook it may castle with.
pub open spec fn castle_target(v: BoardView, from: Position, to: Position) -> bool {
    &&& v.at(from) matches Some(Piece::King(c))
    &&& from.r() == c.back_row() && from.c() == 4
    &&& to.r() == from.r()
    &&& (to.c() == 6 && castle_side_ok(v, from, c, true)) || (to.c() == 2 && castle_side_ok(
        v,
        from,
        c,
        false,
    ))
}

/// Whether the piece at `from` may legally go to `to`: it reaches `to`, or castles there,
/// and its own king is not in check afterwards.
pub open spec fn legal_target(v: BoardView, from: Position, to: Position) -> bool {
    &&& raw_target(v, from, to) || castle_target(v, from, to)
    &&& !in_check(tried(v, from, to))
}

/// Whether the side to move has no legal move at all.
pub open spec fn terminal(v: BoardView) -> bool {
    forall|f: Position, t: Position|
        f.wf() && t.wf() && holds_color(v, f, v.current) ==> !#[trigger] legal_target(v, f, t)
}

/// A move that the piece at `from` reaches, or a castling, leaves a king of the mover's
/// color on the board, where there was one.
pub proof fn lemma_move_keeps_own_king(v: BoardView, from: Position, to: Position, placed: Piece)
    requires
        v.wf(),
        from.wf(),
        to.wf(),
        v.at(from).is_some(),
        v.has_king(v.at(from).unwrap().color()),
        raw_target(v, from, to) || castle_target(v, from, to),
        v.at(from).unwrap() is King ==> placed == v.at(from).unwrap(),
    ensures
        exists|k: Position|
            k.wf() && #[trigger] v.moved_cells(from, to, placed)[k.idx()] == Some(
                Piece::King(v.at(from).unwrap().color()),
            ),
{
    let p = v.at(from).unwrap();
    let c = p.color();
    let cells = v.moved_cells(from, to, placed);
    if p is King {
        assert(0 <= to.idx() < 64);
        assert(!v.is_en_passant_capture(from, to));
        if v.is_castling(from, to) {
            let d = if to.c() > from.c() {
                1int
            } else {
                -1int
            };
            if let Some(rf) = crate::board::castle_rook(v, from, c, d) {
                let base = (from.r() - 1) * 8;
                let s1 = v.cells.update(from.idx(), None).update(base + rf, None).update(
                    base + from.c() + d,
                    Some(Piece::Rook(c)),
                );
                crate::board::lemma_first_occupied_beyond(v, from.r(), from.c(), d);
                assert(cells == s1.update(to.idx(), Some(placed)));
                assert(s1.len() == 64);
            }
        }
        assert(cells[to.idx()] == Some(Piece::King(c)));
    } else {
        let k = choose|k: Position| k.wf() && #[trigger] v.at(k) == Some(Piece::King(c));
        if k.idx() == from.idx() {
            crate::model::lemma_index_injective(k, from);
        }
        if k.idx() == to.idx() {
            crate::model::lemma_index_injective(k, to);
        }
        assert(k.idx() != to.idx());
        if v.is_en_passant_capture(from, to) {
            let e = v.en_passant.unwrap();
            assert(e.idx() == (from.r() - 1) * 8 + to.c());
            assert(v.at(e) == Some(Piece::Pawn(c.other())));
        }
        assert(cells[k.idx()] == Some(Piece::King(c)));
    }
}

/// The board as the piece at `from` tries it out at `to`.
fn try_move(board: &Board, from: Position, to: Position) -> (r: Board)
    requires
        board.wf(),
        from.wf(),
        to.wf(),
        board@.at(from).is_some(),
        board@.has_king(board@.at(from).unwrap().color()),
        raw_target(board@, from, to) || castle_target(board@, from, to),
    ensures
        r.wf(),
        r@ == tried(board@, from, to),
        r@.has_king(r@.current),
{
    let piece = board.piece_at(from).unwrap();
    let promote = piece.get_valid_promotion(to);
    proof {
        lemma_move_keeps_own_king(board@, from, to, tried_piece(board@, from, to));
    }
    match crate::movement::perform_move(board, from, to, true, promote) {
        Ok(b) => {
            let r = b.with_current(piece.get_color());
            proof {
                let k = choose|k: Position|
                    k.wf() && #[trigger] board@.moved_cells(from, to, tried_piece(board@, from, to))[k.idx()]
                        == Some(Piece::King(piece.color()));
                assert(r@.at(k) == Some(Piece::King(r@.current)));
            }
            r
        },
        Err(_) => {
            proof {
                assert(false);
            }
            Board::new()
        },
    }
}

/// Keeps the candidates after which the mover's own king is not in check.
fn keep_safe(board: &Board, from: Position, candidates: &Vec<Position>) -> (r: Vec<Position>)
    requires
        board.wf(),
        from.wf(),
        board@.at(from).is_some(),
        board@.has_king(board@.at(from).unwrap().color()),
        distinct_squares(candidates@),
        forall|q: Position| q.wf() && #[trigger] candidates@.contains(q) ==> raw_target(board@, from, q),
    ensures
        distinct_squares(r@),
        forall|q: Position|
            q.wf() ==> (#[trigger] r@.contains(q) <==> (candidates@.contains(q) && !in_check(
                tried(board@, from, q),
            ))),
{
    let ghost v = board@;
    let mut result: Vec<Position> = Vec::new();
    let mut i: usize = 0;
    while i < candidates.len()
        invariant
            board.wf(),
            v == board@,
            from.wf(),
            v.at(from).is_some(),
            v.has_king(v.at(from).unwrap().color()),
            forall|q: Position| q.wf() && #[trigger] candidates@.contains(q) ==> raw_target(v, from, q),
            distinct_squares(candidates@),
            distinct_squares(result@),
            i <= candidates@.len(),
            forall|q: Position|
                q.wf() ==> (#[trigger] result@.contains(q) <==> (candidates@.subrange(
                    0,
                    i as int,
                ).contains(q) && !in_check(tried(v, from, q)))),
        decreases candidates@.len() - i,
    {
        let to = candidates[i];
        proof {
            crate::move_calculator::lemma_prefix_push(candidates@, i as int);
            crate::move_calculator::lemma_push_wf(candidates@.subrange(0, i as int), to);
            assert(candidates@.contains(to));
        }
        let next = try_move(board, from, to);
        if !CheckVerifier.is_check(&next) {
            push_position(&mut result, to);
        }
        i = i + 1;
    }
    proof {
        assert(candidates@.subrange(0, candidates@.len() as int) =~= candidates@);
    }
    result
}

/// The board on which the king at `from` stands on `file` of its rank instead.
fn king_moved(board: &Board, from: Position, file: u8) -> (r: Board)
    requires
        board.wf(),
        from.wf(),
        file < 8,
        board@.at(from).is_some(),
    ensures
        r.wf(),
        r@ == king_moved_to(board@, from, file as int),
        r@.has_king(r@.current) <== board@.at(from) matches Some(Piece::King(_)),
{
    let piece = board.piece_at(from).unwrap();
    let mut cells = crate::board::copy_vec(board.get_pieces());
    cells.set(from.index(), None);
    let to = Position { row: from.row, column: column_char(file) };
    cells.set(to.index(), Some(piece));
    let r = Board {
        current: piece.get_color(),
        cells,
        en_passant: board.get_en_passant_target(),
        castling: board.get_castling_rights(),
    };
    proof {
        assert(r@.cells =~= king_moved_to(board@, from, file as int).cells);
        assert(r@.at(to) == Some(piece));
    }
    r
}

/// The square the king at `from`, on its starting square, castles to towards the h file
/// (`king_side`) or the a file, if it may.
fn get_castle_position(board: &Board, from: Position, color: Color, king_side: bool) -> (r:
    Option<Position>)
    requires
        board.wf(),
        from.wf(),
        board@.at(from) == Some(Piece::King(color)),
        from.c() == 4,
    ensures
        r == (if castle_side_ok(board@, from, color, king_side) {
            Some(Position { row: from.row, column: if king_side { 'g' } else { 'c' } })
        } else {
            None::<Position>
        }),
{
    let ghost v = board@;
    if !board.get_castling_rights().can_castle(color, king_side) {
        return None;
    }
    proof {
        assert(board@.with_current(color).at(from) == Some(Piece::King(color)));
    }
    if CheckVerifier.is_check(&board.with_current(color)) {
        return None;
    }
    let d: i8 = if king_side {
        1
    } else {
        -1
    };
    let rf = match board.first_occupied_file(from, d) {
        Some(f) => f,
        None => return None,
    };
    if board.piece_at(Position { row: from.row, column: column_char(rf) }) != Some(
        Piece::Rook(color),
    ) {
        return None;
    }
    proof {
        lemma_first_occupied_beyond(v, from.r(), from.c(), d as int);
    }
    let dest_c: u8 = if king_side {
        6
    } else {
        2
    };
    let dest = Position { row: from.row, column: if king_side { 'g' } else { 'c' } };
    if !board.is_empty(dest) && rf != dest_c {
        return None;
    }
    let mut f: i8 = 4 + d;
    while f != rf as i8
        invariant
            board.wf(),
            v == board@,
            from.wf(),
            from.c() == 4,
            v.at(from) == Some(Piece::King(color)),
            d == 1 || d == -1,
            king_side == (d == 1),
            castle_rook(v, from, color, d as int) == Some(rf as int),
            0 <= rf < 8,
            d == 1 ==> 5 <= f <= rf,
            d == -1 ==> rf <= f <= 3,
            forall|g: int|
                strictly_between(4, rf as int, g) && (if d == 1 {
                    g < f
                } else {
                    g > f
                }) ==> !#[trigger] passage_attacked(v, from, g),
        decreases (if d == 1 {
            rf - f
        } else {
            f - rf
        }),
    {
        if CheckVerifier.is_check(&king_moved(board, from, f as u8)) {
            proof {
                assert(passage_attacked(v, from, f as int));
                assert(strictly_between(from.c(), rf as int, f as int));
            }
            return None;
        }
        f = f + d;
    }
    Some(dest)
}

/// The castling square towards the h file (`king_side`) or the a file, as a list of one
/// square where the king at `from` may castle there and stays out of check, else empty.
spec fn castle_square(v: BoardView, from: Position, king_side: bool) -> Seq<Position> {
    let to = Position { row: from.row, column: if king_side { 'g' } else { 'c' } };
    if castle_target(v, from, to) && !in_check(tried(v, from, to)) {
        seq![to]
    } else {
        Seq::empty()
    }
}

/// Appends to `positions` the castling squares of the king at `from` that do not leave
/// it in check: towards the h file first, then towards the a file.
fn add_castle_position(board: &Board, from: Position, positions: Vec<Position>) -> (r: Vec<
    Position,
>)
    requires
        board.wf(),
        from.wf(),
        board@.at(from) matches Some(Piece::King(_)),
        distinct_squares(positions@),
        forall|q: Position| q.wf() && #[trigger] positions@.contains(q) ==> raw_target(board@, from, q),
    ensures
        r@ == positions@ + castle_square(board@, from, true) + castle_square(board@, from, false),
        distinct_squares(r@),
        forall|q: Position|
            q.wf() ==> (#[trigger] r@.contains(q) <==> (positions@.contains(q) || (castle_target(
                board@,
                from,
                q,
            ) && !in_check(tried(board@, from, q))))),
{
    let ghost v = board@;
    let ghost start = positions@;
    let color = board.piece_at(from).unwrap().get_color();
    let home: u8 = match color {
        Color::White => 1,
        Color::Black => 8,
    };
    if from.row != home || from.column != 'e' {
        proof {
            assert(positions@ =~= positions@ + castle_square(v, from, true) + castle_square(
                v,
                from,
                false,
            ));
        }
        return positions;
    }
    let ghost g = Position { row: from.row, column: 'g' };
    let ghost c = Position { row: from.row, column: 'c' };
    proof {
        assert forall|q: Position| q.wf() && castle_target(v, from, q) implies q == g || q == c by {
            if q.c() == 6 {
                crate::model::lemma_position_eq(q, g);
            } else {
                crate::model::lemma_position_eq(q, c);
            }
        }
        assert(!start.contains(g)) by {
            if start.contains(g) {
                assert(raw_target(v, from, g));
            }
        }
        assert(!start.contains(c)) by {
            if start.contains(c) {
                assert(raw_target(v, from, c));
            }
        }
    }
    let mut positions = positions;
    if let Some(p) = get_castle_position(board, from, color, true) {
        if !CheckVerifier.is_check(&try_move(board, from, p)) {
            push_position(&mut positions, p);
        }
    }
    let ghost middle = positions@;
    proof {
        assert(middle =~= start + castle_square(v, from, true));
    }
    if let Some(p) = get_castle_position(board, from, color, false) {
        if !CheckVerifier.is_check(&try_move(board, from, p)) {
            proof {
                assert(g != c);
            }
            push_position(&mut positions, p);
        }
    }
    proof {
        assert(positions@ =~= start + castle_square(v, from, true) + castle_square(v, from, false));
    }
    positions
}

/// The legal destinations of the piece at `from`.
pub fn legal_moves(board: &Board, from: Position) -> (r: Vec<Position>)
    requires
        board.wf(),
        from.wf(),
        board@.at(from).is_some(),
        board@.has_king(board@.at(from).unwrap().color()),
    ensures
        distinct_squares(r@),
        forall|q: Position|
            q.wf() ==> (#[trigger] r@.contains(q) <==> legal_target(board@, from, q)),
{
    let raw = piece_moves(board, from);
    let safe = keep_safe(board, from, &raw);
    match board.piece_at(from) {
        Some(Piece::King(_)) => add_castle_position(board, from, safe),
        _ => safe,
    }
}

/// Whether the entries hold, in order of their squares, each occupied square with its
/// piece and its legal destinations.
pub open spec fn lists_all_legal_moves(
    v: BoardView,
    entries: Seq<((Piece, Position), Vec<Position>)>,
    upto: int,
) -> bool {
    &&& forall|k: int|
        0 <= k < entries.len() ==> {
            let ((piece, from), targets) = #[trigger] entries[k];
            &&& from.wf()
            &&& from.idx() < upto
            &&& v.at(from) == Some(piece)
            &&& distinct_squares(targets@)
            &&& forall|q: Position|
                q.wf() ==> (#[trigger] targets@.contains(q) <==> legal_target(v, from, q))
        }
    &&& forall|k: int, l: int|
        0 <= k < l < entries.len() ==> (#[trigger] entries[k]).0.1.idx() < (
        #[trigger] entries[l]).0.1.idx()
    &&& forall|f: Position|
        f.wf() && f.idx() < upto && (#[trigger] v.at(f)).is_some() ==> exists|k: int|
            0 <= k < entries.len() && (#[trigger] entries[k]).0.1 == f
}

/// Whether the entries name, in algebraic notation, each occupied square once, together
/// with the legal destinations of its piece, each listed once.
pub open spec fn names_legal_moves(v: BoardView, entries: Seq<(String, Vec<Position>)>) -> bool {
    &&& forall|k: int, l: int|
        0 <= k < l < entries.len() ==> (#[trigger] entries[k]).0@ != (#[trigger] entries[l]).0@
    &&& forall|k: int|
        0 <= k < entries.len() ==> (#[trigger] parse_position(entries[k].0@) matches Ok(f)
            && v.at(f).is_some() && distinct_squares(entries[k].1@) && forall|q: Position|
            q.wf() ==> (#[trigger] entries[k].1@.contains(q) <==> legal_target(v, f, q)))
    &&& forall|f: Position|
        f.wf() && (#[trigger] v.at(f)).is_some() ==> exists|k: int|
            0 <= k < entries.len() && (#[trigger] entries[k]).0@ == f.text()
}

/// The legal moves of every piece on the board, of either color.
pub struct AllPiecesAllowedMoveCalculator;

pub fn create_all_pieces_allowed_moved_calculator() -> (r: AllPiecesAllowedMoveCalculator) {
    AllPiecesAllowedMoveCalculator
}

impl AllPiecesAllowedMoveCalculator {
    pub fn new() -> (r: AllPiecesAllowedMoveCalculator) {
        create_all_pieces_allowed_moved_calculator()
    }

    /// For each occupied square, in order of the squares, its piece and the piece's legal
    /// destinations.
    pub fn calculate(&self, board: &Board) -> (r: Vec<((Piece, Position), Vec<Position>)>)
        requires
            board.wf(),
            board@.has_king(Color::White),
            board@.has_king(Color::Black),
        ensures
            lists_all_legal_moves(board@, r@, 64),
    {
        let ghost v = board@;
        let mut result: Vec<((Piece, Position), Vec<Position>)> = Vec::new();
        let mut i: usize = 0;
        while i < 64
            invariant
                board.wf(),
                v == board@,
                v.has_king(Color::White),
                v.has_king(Color::Black),
                i <= 64,
                lists_all_legal_moves(v, result@, i as int),
            decreases 64 - i,
        {
            let from = Position::from_index(i);
            let ghost before = result@;
            match board.piece_at(from) {
                Some(piece) => {
                    proof {
                        assert(piece.color() == Color::White || piece.color() == Color::Black);
                    }
                    let targets = legal_moves(board, from);
                    result.push(((piece, from), targets));
                    proof {
                        assert forall|f: Position|
                            f.wf() && f.idx() < i + 1 && (#[trigger] v.at(f)).is_some() implies exists|k: int|
                            0 <= k < result@.len() && (#[trigger] result@[k]).0.1 == f by {
                            if f.idx() == i {
                                crate::model::lemma_index_injective(f, from);
                                assert(result@[before.len() as int].0.1 == f);
                            } else {
                                let k = choose|k: int|
                                    0 <= k < before.len() && (#[trigger] before[k]).0.1 == f;
                                assert(result@[k] == before[k]);
                            }
                        }
                        assert forall|k: int, l: int|
                            0 <= k < l < result@.len() implies (#[trigger] result@[k]).0.1.idx() < (
                            #[trigger] result@[l]).0.1.idx() by {
                            if l < before.len() {
                                assert(result@[k] == before[k]);
                                assert(result@[l] == before[l]);
                            } else {
                                assert(result@[k] == before[k]);
                            }
                        }
                    }
                },
                None => {
                    proof {
                        assert forall|f: Position|
                            f.wf() && f.idx() < i + 1 && (#[trigger] v.at(f)).is_some() implies exists|k: int|
                            0 <= k < result@.len() && (#[trigger] result@[k]).0.1 == f by {
                            if f.idx() == i {
                                crate::model::lemma_index_injective(f, from);
                            }
                        }
                    }
                },
            }
            i = i + 1;
        }
        result
    }

    /// For each occupied square, named in algebraic notation, the legal destinations of
    /// its piece.
    pub fn get_allowed_positions(&self, board: &Board) -> (r: Vec<(String, Vec<Position>)>)
        requires
            board.wf(),
            board@.has_king(Color::White),
            board@.has_king(Color::Black),
        ensures
            names_legal_moves(board@, r@),
    {
        let ghost v = board@;
        let entries = self.calculate(board);
        let mut result: Vec<(String, Vec<Position>)> = Vec::new();
        let mut i: usize = 0;
        while i < entries.len()
            invariant
                board.wf(),
                v == board@,
                lists_all_legal_moves(v, entries@, 64),
                i <= entries@.len(),
                result@.len() == i,
                forall|k: int|
                    0 <= k < i ==> (#[trigger] result@[k]).0@ == entries@[k].0.1.text() && result@[k].1@
                        == entries@[k].1@,
            decreases entries@.len() - i,
        {
            let from = entries[i].0.1;
            let targets = crate::board::copy_vec(&entries[i].1);
            proof {
                let _ = entries@[i as int];
            }
            result.push((from.to_string(), targets));
            i = i + 1;
        }
        proof {
            assert forall|k: int| 0 <= k < result@.len() implies (#[trigger] parse_position(
                result@[k].0@,
            ) matches Ok(f) && v.at(f).is_some() && distinct_squares(result@[k].1@) && forall|q: Position|
                q.wf() ==> (#[trigger] result@[k].1@.contains(q) <==> legal_target(v, f, q))) by {
                let e = entries@[k];
                crate::model::lemma_parse_round_trip(e.0.1);
            }
            assert forall|f: Position| f.wf() && (#[trigger] v.at(f)).is_some() implies exists|k: int|
                0 <= k < result@.len() && (#[trigger] result@[k]).0@ == f.text() by {
                let k = choose|k: int| 0 <= k < entries@.len() && (#[trigger] entries@[k]).0.1 == f;
                assert(result@[k].0@ == f.text());
            }
            assert forall|k: int, l: int| 0 <= k < l < result@.len() implies (
            #[trigger] result@[k]).0@ != (#[trigger] result@[l]).0@ by {
                let (p, q) = (entries@[k].0.1, entries@[l].0.1);
                crate::model::lemma_parse_round_trip(p);
                crate::model::lemma_parse_round_trip(q);
                assert(p.idx() < q.idx());
            }
        }
        result
    }

    /// Whether the side to move has no legal move: checkmate where it is in check,
    /// stalemate where it is not.
    pub fn is_check_mate_or_stale_mate(&self, board: &Board) -> (r: bool)
        requires
            board.wf(),
            board@.has_king(board@.current),
        ensures
            r == terminal(board@),
    {
        let ghost v = board@;
        let current = board.get_current();
        let mut i: usize = 0;
        while i < 64
            invariant
                board.wf(),
                v == board@,
                current == v.current,
                v.has_king(current),
                i <= 64,
                forall|f: Position, t: Position|
                    f.wf() && t.wf() && f.idx() < i && holds_color(v, f, current)
                        ==> !#[trigger] legal_target(v, f, t),
            decreases 64 - i,
        {
            let from = Position::from_index(i);
            proof {
                assert forall|f: Position| f.wf() && f.idx() == i implies f == from by {
                    crate::model::lemma_index_injective(f, from);
                }
            }
            if let Some(piece) = board.piece_at(from) {
                if piece.get_color() == current {
                    let targets = legal_moves(board, from);
                    if targets.len() > 0 {
                        proof {
                            let t = targets@[0];
                            assert(targets@.contains(t));
                            assert(legal_target(v, from, t));
                        }
                        return false;
                    }
                    proof {
                        assert forall|t: Position| t.wf() implies !legal_target(v, from, t) by {
                            if legal_target(v, from, t) {
                                assert(targets@.contains(t));
                            }
                        }
                    }
                }
            }
            i = i + 1;
        }
        proof {
            assert forall|f: Position, t: Position|
                f.wf() && t.wf() && holds_color(v, f, v.current) implies !#[trigger] legal_target(
                v,
                f,
                t,
            ) by {
                assert(f.idx() < 64);
            }
        }
        true
    }
}

/// Every legal destination is one the piece reaches physically, or a castling of the
/// king from its starting square two files towards a rook.
pub proof fn lemma_legal_moves_are_candidates(v: BoardView, from: Position, to: Position)
    requires
        legal_target(v, from, to),
    ensures
        raw_target(v, from, to) || castle_target(v, from, to),
        !(v.at(from) matches Some(Piece::King(_))) ==> raw_target(v, from, to),
        castle_target(v, from, to) ==> (v.at(from) matches Some(Piece::King(c)) && from.r()
            == c.back_row() && from.c() == 4 && to.r() == from.r() && (to.c() == 6 || to.c()
            == 2)),
{
}

/// Whether `v1` and `v2` differ at most in the kind of the piece of `color` on `sq`,
/// which in both is neither a king nor a pawn.
pub open spec fn differ_in_kind_at(v1: BoardView, v2: BoardView, sq: Position, color: Color) -> bool {
    &&& v1.wf()
    &&& v2.wf()
    &&& sq.wf()
    &&& v1.current == v2.current
    &&& v1.en_passant == v2.en_passant
    &&& forall|i: int| 0 <= i < 64 && i != sq.idx() ==> #[trigger] v1.cells[i] == v2.cells[i]
    &&& v1.at(sq) matches Some(p) && p.color() == color && !(p is King) && !(p is Pawn)
    &&& v2.at(sq) matches Some(q) && q.color() == color && !(q is King) && !(q is Pawn)
}

proof fn lemma_cells_agree(v1: BoardView, v2: BoardView, sq: Position, color: Color, r: int, c: int)
    requires
        differ_in_kind_at(v1, v2, sq, color),
        on_board(r, c),
    ensures
        free(v1, r, c) == free(v2, r, c),
        forall|x: Color| enemy(v1, r, c, x) == enemy(v2, r, c, x),
        forall|x: Color| open_to(v1, r, c, x) == open_to(v2, r, c, x),
        forall|x: Color| king_on(v1, r, c, x) == king_on(v2, r, c, x),
        forall|x: Color| (cell(v1, r, c) == Some(Piece::Pawn(x))) == (cell(v2, r, c) == Some(Piece::Pawn(x))),
{
    if (r - 1) * 8 + c != sq.idx() {
        assert(v1.cells[(r - 1) * 8 + c] == v2.cells[(r - 1) * 8 + c]);
    }
}

proof fn lemma_slide_agrees(
    v1: BoardView,
    v2: BoardView,
    sq: Position,
    color: Color,
    from: Position,
    dr: int,
    dc: int,
    x: Color,
    to: Position,
)
    requires
        differ_in_kind_at(v1, v2, sq, color),
        from.wf(),
        to.wf(),
        -1 <= dr <= 1,
        -1 <= dc <= 1,
    ensures
        slide_target(v1, from, dr, dc, x, to) == slide_target(v2, from, dr, dc, x, to),
{
    let k = steps(from, to, dr, dc);
    lemma_cells_agree(v1, v2, sq, color, to.r(), to.c());
    if k >= 1 && to.r() == from.r() + scale(k, dr) && to.c() == from.c() + scale(k, dc) {
        assert forall|j: int|
            #![trigger ray_free(v1, from, dr, dc, j)]
            #![trigger ray_free(v2, from, dr, dc, j)]
            1 <= j < k implies ray_free(v1, from, dr, dc, j) == ray_free(v2, from, dr, dc, j) by {
            lemma_cells_agree(
                v1,
                v2,
                sq,
                color,
                from.r() + scale(j, dr),
                from.c() + scale(j, dc),
            );
        }
    }
}

proof fn lemma_raw_target_agrees(
    v1: BoardView,
    v2: BoardView,
    sq: Position,
    color: Color,
    f: Position,
    t: Position,
)
    requires
        differ_in_kind_at(v1, v2, sq, color),
        f.wf(),
        t.wf(),
        f != sq,
    ensures
        v1.at(f) == v2.at(f),
        raw_target(v1, f, t) == raw_target(v2, f, t),
{
    if f.idx() == sq.idx() {
        crate::model::lemma_index_injective(f, sq);
    }
    assert(v1.cells[f.idx()] == v2.cells[f.idx()]);
    lemma_cells_agree(v1, v2, sq, color, t.r(), t.c());
    match v1.at(f) {
        Some(Piece::Pawn(x)) => {
            if on_board(f.r() + x.forward(), f.c()) {
                lemma_cells_agree(v1, v2, sq, color, f.r() + x.forward(), f.c());
            }
            if let Some(e) = v1.en_passant {
                lemma_cells_agree(v1, v2, sq, color, e.r(), e.c());
            }
        },
        Some(Piece::King(x)) => {
            let (r, c) = (t.r(), t.c());
            if on_board(r + 1, c + 1) { lemma_cells_agree(v1, v2, sq, color, r + 1, c + 1); }
            if on_board(r + 1, c - 1) { lemma_cells_agree(v1, v2, sq, color, r + 1, c - 1); }
            if on_board(r - 1, c + 1) { lemma_cells_agree(v1, v2, sq, color, r - 1, c + 1); }
            if on_board(r - 1, c - 1) { lemma_cells_agree(v1, v2, sq, color, r - 1, c - 1); }
            if on_board(r + 1, c) { lemma_cells_agree(v1, v2, sq, color, r + 1, c); }
            if on_board(r, c + 1) { lemma_cells_agree(v1, v2, sq, color, r, c + 1); }
            if on_board(r - 1, c) { lemma_cells_agree(v1, v2, sq, color, r - 1, c); }
            if on_board(r, c - 1) { lemma_cells_agree(v1, v2, sq, color, r, c - 1); }
        },
        Some(Piece::Knight(_)) => {},
        Some(Piece::Bishop(x)) | Some(Piece::Rook(x)) | Some(Piece::Queen(x)) => {
            lemma_slide_agrees(v1, v2, sq, color, f, 1, 1, x, t);
            lemma_slide_agrees(v1, v2, sq, color, f, -1, 1, x, t);
            lemma_slide_agrees(v1, v2, sq, color, f, 1, -1, x, t);
            lemma_slide_agrees(v1, v2, sq, color, f, -1, -1, x, t);
            lemma_slide_agrees(v1, v2, sq, color, f, 1, 0, x, t);
            lemma_slide_agrees(v1, v2, sq, color, f, -1, 0, x, t);
            lemma_slide_agrees(v1, v2, sq, color, f, 0, 1, x, t);
            lemma_slide_agrees(v1, v2, sq, color, f, 0, -1, x, t);
        },
        None => {},
    }
}

/// Which piece of the side to move stands on a square, other than a king or a pawn, does
/// not decide whether that side is in check.
pub(crate) proof fn lemma_check_ignores_kind(v1: BoardView, v2: BoardView, sq: Position)
    requires
        differ_in_kind_at(v1, v2, sq, v1.current),
    ensures
        in_check(v1) == in_check(v2),
{
    let c = v1.current;
    if in_check(v1) {
        let k = choose|k: Position|
            #![trigger v1.at(k)]
            k.wf() && v1.at(k) == Some(Piece::King(c)) && attacked_by(v1, k, c.other());
        let f = choose|f: Position|
            #![trigger holds_color(v1, f, c.other()), raw_target(v1, f, k)]
            f.wf() && holds_color(v1, f, c.other()) && raw_target(v1, f, k);
        lemma_raw_target_agrees(v1, v2, sq, c, f, k);
        assert(k != sq);
        if k.idx() == sq.idx() {
            crate::model::lemma_index_injective(k, sq);
        }
        assert(v1.cells[k.idx()] == v2.cells[k.idx()]);
        assert(holds_color(v2, f, c.other()));
        assert(attacked_by(v2, k, c.other()));
        assert(v2.at(k) == Some(Piece::King(c)));
    }
    if in_check(v2) {
        let k = choose|k: Position|
            #![trigger v2.at(k)]
            k.wf() && v2.at(k) == Some(Piece::King(c)) && attacked_by(v2, k, c.other());
        let f = choose|f: Position|
            #![trigger holds_color(v2, f, c.other()), raw_target(v2, f, k)]
            f.wf() && holds_color(v2, f, c.other()) && raw_target(v2, f, k);
        lemma_raw_target_agrees(v1, v2, sq, c, f, k);
        if k.idx() == sq.idx() {
            crate::model::lemma_index_injective(k, sq);
        }
        assert(v1.cells[k.idx()] == v2.cells[k.idx()]);
        assert(holds_color(v1, f, c.other()));
        assert(attacked_by(v1, k, c.other()));
        assert(v1.at(k) == Some(Piece::King(c)));
    }
}

/// Checkmate: the side to move has no legal move and is in check.
pub open spec fn is_checkmate(v: BoardView) -> bool {
    terminal(v) && in_check(v)
}

/// Stalemate: the side to move has no legal move and is not in check.
pub open spec fn is_stalemate(v: BoardView) -> bool {
    terminal(v) && !in_check(v)
}

/// A position without legal moves is checkmate where the side to move is in check and
/// stalemate where it is not, never both.
pub proof fn lemma_terminal_is_mate_or_stalemate(v: BoardView)
    requires
        terminal(v),
    ensures
        in_check(v) ==> is_checkmate(v),
        !in_check(v) ==> is_stalemate(v),
        !(is_checkmate(v) && is_stalemate(v)),
{
}

} // verus!
