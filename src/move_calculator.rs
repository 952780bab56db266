//! The squares each kind of piece can physically reach, ignoring the safety of its own
//! king.
use vstd::prelude::*;
use crate::board::{Board, BoardView, cell, enemy, free, open_to};
use crate::model::{on_board, Color, Piece, Position};

verus! {

/// `k` steps of a direction component `d` in -1..=1.
pub open spec fn scale(k: int, d: int) -> int {
    if d > 0 {
        k
    } else if d < 0 {
        -k
    } else {
        0
    }
}

/// The number of steps along (`dr`, `dc`) that lead from `from` to `to`, where `to`
/// lies on that ray.
pub open spec fn steps(from: Position, to: Position, dr: int, dc: int) -> int {
    if dr != 0 {
        scale(to.r() - from.r(), dr)
    } else {
        scale(to.c() - from.c(), dc)
    }
}

/// Whether the square `j` steps from `from` along (`dr`, `dc`) is empty.
pub open spec fn ray_free(v: BoardView, from: Position, dr: int, dc: int, j: int) -> bool {
    free(v, from.r() + scale(j, dr), from.c() + scale(j, dc))
}

/// Whether a sliding piece of `color` at `from` reaches `to` along (`dr`, `dc`): `to`
/// lies on the ray, every square before it is empty, and `to` is empty or holds an enemy.
pub open spec fn slide_target(
    v: BoardView,
    from: Position,
    dr: int,
    dc: int,
    color: Color,
    to: Position,
) -> bool {
    let k = steps(from, to, dr, dc);
    &&& k >= 1
    &&& to.r() == from.r() + scale(k, dr)
    &&& to.c() == from.c() + scale(k, dc)
    &&& forall|j: int| 1 <= j < k ==> #[trigger] ray_free(v, from, dr, dc, j)
    &&& open_to(v, to.r(), to.c(), color)
}

pub open spec fn bishop_target(v: BoardView, from: Position, color: Color, to: Position) -> bool {
    ||| slide_target(v, from, 1, 1, color, to)
    ||| slide_target(v, from, -1, 1, color, to)
    ||| slide_target(v, from, 1, -1, color, to)
    ||| slide_target(v, from, -1, -1, color, to)
}

pub open spec fn rook_target(v: BoardView, from: Position, color: Color, to: Position) -> bool {
    ||| slide_target(v, from, 1, 0, color, to)
    ||| slide_target(v, from, -1, 0, color, to)
    ||| slide_target(v, from, 0, 1, color, to)
    ||| slide_target(v, from, 0, -1, color, to)
}

pub open spec fn is_knight_jump(dr: int, dc: int) -> bool {
    ||| (dr == 1 || dr == -1) && (dc == 2 || dc == -2)
    ||| (dr == 2 || dr == -2) && (dc == 1 || dc == -1)
}

pub open spec fn knight_target(v: BoardView, from: Position, color: Color, to: Position) -> bool {
    &&& is_knight_jump(to.r() - from.r(), to.c() - from.c())
    &&& open_to(v, to.r(), to.c(), color)
}

pub open spec fn is_king_step(dr: int, dc: int) -> bool {
    -1 <= dr <= 1 && -1 <= dc <= 1 && !(dr == 0 && dc == 0)
}

/// Whether the square (`r`, `c`) is on the board and holds the king of `color`.
pub open spec fn king_on(v: BoardView, r: int, c: int, color: Color) -> bool {
    on_board(r, c) && cell(v, r, c) == Some(Piece::King(color))
}

/// Whether a king of `color` stands on a square next to `sq`.
pub open spec fn king_near(v: BoardView, sq: Position, color: Color) -> bool {
    let (r, c) = (sq.r(), sq.c());
    ||| king_on(v, r + 1, c + 1, color)
    ||| king_on(v, r + 1, c - 1, color)
    ||| king_on(v, r - 1, c + 1, color)
    ||| king_on(v, r - 1, c - 1, color)
    ||| king_on(v, r + 1, c, color)
    ||| king_on(v, r, c + 1, color)
    ||| king_on(v, r - 1, c, color)
    ||| king_on(v, r, c - 1, color)
}

/// A king steps to an adjacent square that is empty or holds an enemy, and never next to
/// the other king.
pub open spec fn king_target(v: BoardView, from: Position, color: Color, to: Position) -> bool {
    &&& is_king_step(to.r() - from.r(), to.c() - from.c())
    &&& open_to(v, to.r(), to.c(), color)
    &&& !king_near(v, to, color.other())
}

/// A pawn steps forward onto an empty square, or two from its home rank over an empty
/// square, captures diagonally forward, or captures en passant the pawn beside it that
/// has just made its double step, landing on the empty square behind it.
pub open spec fn pawn_target(v: BoardView, from: Position, color: Color, to: Position) -> bool {
    let d = color.forward();
    ||| to.r() == from.r() + d && to.c() == from.c() && free(v, to.r(), to.c())
    ||| from.r() == color.pawn_home_row() && to.r() == from.r() + 2 * d && to.c() == from.c()
        && free(v, from.r() + d, from.c()) && free(v, to.r(), to.c())
    ||| to.r() == from.r() + d && (to.c() == from.c() + 1 || to.c() == from.c() - 1) && enemy(
        v,
        to.r(),
        to.c(),
        color,
    )
    ||| v.en_passant matches Some(e) && e.r() == from.r() && (e.c() == from.c() + 1 || e.c()
        == from.c() - 1) && v.at(e) == Some(Piece::Pawn(color.other())) && to.r() == from.r()
        + d && to.c() == e.c() && free(v, to.r(), to.c())
}

/// Whether the piece at `from` can physically reach `to`.
pub open spec fn raw_target(v: BoardView, from: Position, to: Position) -> bool {
    match v.at(from) {
        Some(Piece::Pawn(c)) => pawn_target(v, from, c, to),
        Some(Piece::Knight(c)) => knight_target(v, from, c, to),
        Some(Piece::Bishop(c)) => bishop_target(v, from, c, to),
        Some(Piece::Rook(c)) => rook_target(v, from, c, to),
        Some(Piece::Queen(c)) => bishop_target(v, from, c, to) || rook_target(v, from, c, to),
        Some(Piece::King(c)) => king_target(v, from, c, to),
        None => false,
    }
}

/// Valid squares, each listed once.
pub open spec fn distinct_squares(s: Seq<Position>) -> bool {
    &&& forall|i: int| 0 <= i < s.len() ==> (#[trigger] s[i]).wf()
    &&& s.no_duplicates()
}

/// Whether `q` lies on the ray from `from` along (`dr`, `dc`), `from` itself excluded.
pub open spec fn on_ray(from: Position, dr: int, dc: int, q: Position) -> bool {
    let k = steps(from, q, dr, dc);
    k >= 1 && q.r() == from.r() + scale(k, dr) && q.c() == from.c() + scale(k, dc)
}

pub(crate) proof fn lemma_push_wf(s: Seq<Position>, p: Position)
    requires
        distinct_squares(s),
        p.wf(),
        !s.contains(p),
    ensures
        distinct_squares(s.push(p)),
        forall|q: Position| #[trigger] s.push(p).contains(q) <==> (s.contains(q) || q == p),
{
    assert forall|q: Position| #[trigger] s.push(p).contains(q) <==> (s.contains(q) || q == p) by {
        if s.push(p).contains(q) {
            let i = choose|i: int| 0 <= i < s.push(p).len() && s.push(p)[i] == q;
            if i < s.len() {
                assert(s[i] == q);
            }
        }
        if s.contains(q) {
            let i = choose|i: int| 0 <= i < s.len() && s[i] == q;
            assert(s.push(p)[i] == q);
        }
        if q == p {
            assert(s.push(p)[s.len() as int] == q);
        }
    }
    assert forall|i: int, j: int| 0 <= i < s.push(p).len() && 0 <= j < s.push(p).len() && i != j
        implies s.push(p)[i] != s.push(p)[j] by {
        if i < s.len() && j < s.len() {
        } else if i < s.len() {
            assert(s.contains(s[i]));
        } else {
            assert(s.contains(s[j]));
        }
    }
}

/// The prefix of a list of distinct squares grows by the next element, which the
/// prefix does not hold.
pub(crate) proof fn lemma_prefix_push(s: Seq<Position>, i: int)
    requires
        distinct_squares(s),
        0 <= i < s.len(),
    ensures
        s.subrange(0, i + 1) == s.subrange(0, i).push(s[i]),
        distinct_squares(s.subrange(0, i)),
        !s.subrange(0, i).contains(s[i]),
{
    assert(s.subrange(0, i + 1) =~= s.subrange(0, i).push(s[i]));
    if s.subrange(0, i).contains(s[i]) {
        let j = choose|j: int| 0 <= j < i && s.subrange(0, i)[j] == s[i];
        assert(s[j] == s[i]);
    }
}

pub(crate) fn push_position(positions: &mut Vec<Position>, p: Position)
    requires
        distinct_squares(old(positions)@),
        p.wf(),
        !old(positions)@.contains(p),
    ensures
        final(positions)@ == old(positions)@.push(p),
        distinct_squares(final(positions)@),
        forall|q: Position| #[trigger]
            final(positions)@.contains(q) <==> (old(positions)@.contains(q) || q == p),
{
    proof {
        lemma_push_wf(positions@, p);
    }
    positions.push(p);
}

fn color_at(board: &Board, p: Position) -> (r: Option<Color>)
    requires
        board.wf(),
        p.wf(),
    ensures
        r == (match board@.at(p) {
            Some(q) => Some(q.color()),
            None => None::<Color>,
        }),
{
    match board.piece_at(p) {
        Some(q) => Some(q.get_color()),
        None => None,
    }
}

/// Adds the square (`dr`, `dc`) away from `from` where it is on the board and empty or
/// holds an enemy of `color`.
fn add_step(
    board: &Board,
    from: Position,
    dr: i8,
    dc: i8,
    color: Color,
    positions: &mut Vec<Position>,
)
    requires
        board.wf(),
        from.wf(),
        distinct_squares(old(positions)@),
        forall|q: Position| #[trigger]
            old(positions)@.contains(q) ==> !(q.r() == from.r() + dr && q.c() == from.c() + dc),
    ensures
        distinct_squares(final(positions)@),
        forall|q: Position|
            q.wf() ==> (#[trigger] final(positions)@.contains(q) <==> (old(positions)@.contains(q)
                || (q.r() == from.r() + dr && q.c() == from.c() + dc && open_to(
                board@,
                q.r(),
                q.c(),
                color,
            )))),
{
    if let Some(to) = from.inc(dr, dc) {
        let occupant = color_at(board, to);
        let open = match occupant {
            Some(c) => c != color,
            None => true,
        };
        if open {
            push_position(positions, to);
        }
        proof {
            assert forall|q: Position| q.wf() && q.r() == from.r() + dr && q.c() == from.c()
                + dc implies q == to by {
                crate::model::lemma_position_eq(q, to);
            }
        }
    }
}

/// Adds the squares that a slider of `color` at `from` reaches along (`dr`, `dc`).
fn add_slide(
    board: &Board,
    from: Position,
    dr: i8,
    dc: i8,
    color: Color,
    positions: &mut Vec<Position>,
)
    requires
        board.wf(),
        from.wf(),
        -1 <= dr <= 1,
        -1 <= dc <= 1,
        !(dr == 0 && dc == 0),
        distinct_squares(old(positions)@),
        forall|q: Position| #[trigger]
            old(positions)@.contains(q) ==> !on_ray(from, dr as int, dc as int, q),
    ensures
        distinct_squares(final(positions)@),
        forall|q: Position|
            q.wf() ==> (#[trigger] final(positions)@.contains(q) <==> (old(positions)@.contains(q)
                || slide_target(board@, from, dr as int, dc as int, color, q))),
{
    let ghost v = board@;
    let ghost start = positions@;
    let ghost (gr, gc) = (dr as int, dc as int);
    let mut cur = from;
    let ghost mut k: int = 0;
    loop
        invariant
            board.wf(),
            v == board@,
            start == old(positions)@,
            from.wf(),
            cur.wf(),
            -1 <= gr <= 1,
            -1 <= gc <= 1,
            gr == dr,
            gc == dc,
            !(gr == 0 && gc == 0),
            0 <= k <= 7,
            cur.r() == from.r() + scale(k, gr),
            cur.c() == from.c() + scale(k, gc),
            forall|j: int| 1 <= j <= k ==> #[trigger] ray_free(v, from, gr, gc, j),
            forall|q: Position| #[trigger] start.contains(q) ==> !on_ray(from, gr, gc, q),
            distinct_squares(positions@),
            forall|q: Position|
                q.wf() ==> (#[trigger] positions@.contains(q) <==> (start.contains(q) || (
                slide_target(v, from, gr, gc, color, q) && steps(from, q, gr, gc) <= k))),
        decreases 7 - k,
    {
        match cur.inc(dr, dc) {
            None => {
                proof {
                    assert forall|q: Position| q.wf() && slide_target(
                        v,
                        from,
                        gr,
                        gc,
                        color,
                        q,
                    ) implies steps(from, q, gr, gc) <= k by {
                        let kq = steps(from, q, gr, gc);
                        if kq > k {
                            // the square after `cur` lies between `cur` and `q`
                            assert(on_board(
                                from.r() + scale(k + 1, gr),
                                from.c() + scale(k + 1, gc),
                            ));
                        }
                    }
                    assert forall|q: Position| q.wf() implies (#[trigger] positions@.contains(q)
                        <==> (start.contains(q) || slide_target(v, from, gr, gc, color, q))) by {
                        if slide_target(v, from, gr, gc, color, q) {
                            assert(steps(from, q, gr, gc) <= k);
                        }
                    }
                }
                return ;
            },
            Some(next) => {
                let ghost prev = positions@;
                let occupant = color_at(board, next);
                proof {
                    assert(next.r() == from.r() + scale(k + 1, gr));
                    assert(next.c() == from.c() + scale(k + 1, gc));
                    assert(steps(from, next, gr, gc) == k + 1);
                    assert(on_ray(from, gr, gc, next));
                    assert(!positions@.contains(next)) by {
                        if positions@.contains(next) {
                            assert(start.contains(next) || steps(from, next, gr, gc) <= k);
                        }
                    }
                    assert forall|q: Position| q.wf() && steps(from, q, gr, gc) == k + 1 && q.r()
                        == from.r() + scale(k + 1, gr) && q.c() == from.c() + scale(
                        k + 1,
                        gc,
                    ) implies q == next by {
                        crate::model::lemma_position_eq(q, next);
                    }
                }
                match occupant {
                    None => {
                        push_position(positions, next);
                        proof {
                            assert(ray_free(v, from, gr, gc, k + 1));
                            assert forall|j: int| 1 <= j <= k + 1 implies #[trigger] ray_free(
                                v,
                                from,
                                gr,
                                gc,
                                j,
                            ) by {}
                            assert(slide_target(v, from, gr, gc, color, next));
                            k = k + 1;
                        }
                        cur = next;
                    },
                    Some(c) => {
                        if c != color {
                            push_position(positions, next);
                        }
                        proof {
                            assert(!ray_free(v, from, gr, gc, k + 1));
                            assert forall|q: Position| q.wf() && slide_target(
                                v,
                                from,
                                gr,
                                gc,
                                color,
                                q,
                            ) implies steps(from, q, gr, gc) <= k + 1 by {
                                let kq = steps(from, q, gr, gc);
                                if kq > k + 1 {
                                    assert(ray_free(v, from, gr, gc, k + 1));
                                }
                            }
                            assert forall|q: Position| q.wf() implies (
                            #[trigger] positions@.contains(q) <==> (start.contains(q)
                                || slide_target(v, from, gr, gc, color, q))) by {
                                if slide_target(v, from, gr, gc, color, q) {
                                    assert(steps(from, q, gr, gc) <= k + 1);
                                    if steps(from, q, gr, gc) == k + 1 {
                                        assert(q == next);
                                    }
                                }
                                if q == next && c != color {
                                    assert(slide_target(v, from, gr, gc, color, q));
                                }
                            }
                        }
                        return ;
                    },
                }
            },
        }
    }
}

pub struct BishopMoveCalulator;

impl BishopMoveCalulator {
    pub fn calculate(&self, board: &Board, from: Position) -> (r: Vec<Position>)
        requires
            board.wf(),
            from.wf(),
            board@.at(from) matches Some(Piece::Bishop(_)),
        ensures
            distinct_squares(r@),
            forall|q: Position|
                q.wf() ==> (#[trigger] r@.contains(q) <==> raw_target(board@, from, q)),
    {
        let color = board.piece_at(from).unwrap().get_color();
        let mut positions: Vec<Position> = Vec::new();
        add_slide(board, from, 1, 1, color, &mut positions);
        add_slide(board, from, -1, 1, color, &mut positions);
        add_slide(board, from, 1, -1, color, &mut positions);
        add_slide(board, from, -1, -1, color, &mut positions);
        positions
    }
}

pub struct RookMoveCalculator;

impl RookMoveCalculator {
    pub fn calculate(&self, board: &Board, from: Position) -> (r: Vec<Position>)
        requires
            board.wf(),
            from.wf(),
            board@.at(from) matches Some(Piece::Rook(_)),
        ensures
            distinct_squares(r@),
            forall|q: Position|
                q.wf() ==> (#[trigger] r@.contains(q) <==> raw_target(board@, from, q)),
    {
        let color = board.piece_at(from).unwrap().get_color();
        let mut positions: Vec<Position> = Vec::new();
        add_slide(board, from, 1, 0, color, &mut positions);
        add_slide(board, from, -1, 0, color, &mut positions);
        add_slide(board, from, 0, 1, color, &mut positions);
        add_slide(board, from, 0, -1, color, &mut positions);
        positions
    }
}

pub struct QueenMoveCalculator;

impl QueenMoveCalculator {
    pub fn calculate(&self, board: &Board, from: Position) -> (r: Vec<Position>)
        requires
            board.wf(),
            from.wf(),
            board@.at(from) matches Some(Piece::Queen(_)),
        ensures
            distinct_squares(r@),
            forall|q: Position|
                q.wf() ==> (#[trigger] r@.contains(q) <==> raw_target(board@, from, q)),
    {
        let color = board.piece_at(from).unwrap().get_color();
        let mut positions: Vec<Position> = Vec::new();
        add_slide(board, from, 1, 1, color, &mut positions);
        add_slide(board, from, -1, 1, color, &mut positions);
        add_slide(board, from, 1, -1, color, &mut positions);
        add_slide(board, from, -1, -1, color, &mut positions);
        add_slide(board, from, 1, 0, color, &mut positions);
        add_slide(board, from, -1, 0, color, &mut positions);
        add_slide(board, from, 0, 1, color, &mut positions);
        add_slide(board, from, 0, -1, color, &mut positions);
        positions
    }
}

pub struct KnightMoveCalculator;

impl KnightMoveCalculator {
    pub fn calculate(&self, board: &Board, from: Position) -> (r: Vec<Position>)
        requires
            board.wf(),
            from.wf(),
            board@.at(from) matches Some(Piece::Knight(_)),
        ensures
            distinct_squares(r@),
            forall|q: Position|
                q.wf() ==> (#[trigger] r@.contains(q) <==> raw_target(board@, from, q)),
    {
        let color = board.piece_at(from).unwrap().get_color();
        let mut positions: Vec<Position> = Vec::new();
        add_step(board, from, 2, 1, color, &mut positions);
        add_step(board, from, -2, 1, color, &mut positions);
        add_step(board, from, 1, 2, color, &mut positions);
        add_step(board, from, -1, 2, color, &mut positions);
        add_step(board, from, -2, -1, color, &mut positions);
        add_step(board, from, 2, -1, color, &mut positions);
        add_step(board, from, -1, -2, color, &mut positions);
        add_step(board, from, 1, -2, color, &mut positions);
        positions
    }
}

/// Whether the square (`dr`, `dc`) away from `position` holds the king of `color`.
fn king_at_step(board: &Board, position: Position, dr: i8, dc: i8, color: Color) -> (r: bool)
    requires
        board.wf(),
        position.wf(),
    ensures
        r == king_on(board@, position.r() + dr, position.c() + dc, color),
{
    match position.inc(dr, dc) {
        Some(q) => match board.piece_at(q) {
            Some(Piece::King(c)) => c == color,
            _ => false,
        },
        None => false,
    }
}

/// Whether a king of `color` stands next to `position`.
fn is_king_around(board: &Board, position: Position, color: Color) -> (r: bool)
    requires
        board.wf(),
        position.wf(),
    ensures
        r == king_near(board@, position, color),
{
    king_at_step(board, position, 1, 1, color) || king_at_step(board, position, 1, -1, color)
        || king_at_step(board, position, -1, 1, color) || king_at_step(
        board,
        position,
        -1,
        -1,
        color,
    ) || king_at_step(board, position, 1, 0, color) || king_at_step(board, position, 0, 1, color)
        || king_at_step(board, position, -1, 0, color) || king_at_step(
        board,
        position,
        0,
        -1,
        color,
    )
}

/// Adds the square (`dr`, `dc`) away from the king of `color` at `from`, where it is
/// open to the king and not next to the other king.
fn add_king_step(
    board: &Board,
    from: Position,
    dr: i8,
    dc: i8,
    color: Color,
    positions: &mut Vec<Position>,
)
    requires
        board.wf(),
        from.wf(),
        distinct_squares(old(positions)@),
        forall|q: Position| #[trigger]
            old(positions)@.contains(q) ==> !(q.r() == from.r() + dr && q.c() == from.c() + dc),
    ensures
        distinct_squares(final(positions)@),
        forall|q: Position|
            q.wf() ==> (#[trigger] final(positions)@.contains(q) <==> (old(positions)@.contains(q)
                || (q.r() == from.r() + dr && q.c() == from.c() + dc && open_to(
                board@,
                q.r(),
                q.c(),
                color,
            ) && !king_near(board@, q, color.other())))),
{
    if let Some(to) = from.inc(dr, dc) {
        proof {
            assert forall|q: Position| q.wf() && q.r() == from.r() + dr && q.c() == from.c()
                + dc implies q == to by {
                crate::model::lemma_position_eq(q, to);
            }
        }
        if is_king_around(board, to, color.opponent()) {
            return ;
        }
        let open = match color_at(board, to) {
            Some(c) => c != color,
            None => true,
        };
        if open {
            push_position(positions, to);
        }
    }
}

pub struct KingMoveCalculator;

impl KingMoveCalculator {
    pub fn calculate(&self, board: &Board, from: Position) -> (r: Vec<Position>)
        requires
            board.wf(),
            from.wf(),
            board@.at(from) matches Some(Piece::King(_)),
        ensures
            distinct_squares(r@),
            forall|q: Position|
                q.wf() ==> (#[trigger] r@.contains(q) <==> raw_target(board@, from, q)),
    {
        let color = board.piece_at(from).unwrap().get_color();
        let mut positions: Vec<Position> = Vec::new();
        add_king_step(board, from, 1, 1, color, &mut positions);
        add_king_step(board, from, 1, -1, color, &mut positions);
        add_king_step(board, from, -1, 1, color, &mut positions);
        add_king_step(board, from, -1, -1, color, &mut positions);
        add_king_step(board, from, 1, 0, color, &mut positions);
        add_king_step(board, from, 0, 1, color, &mut positions);
        add_king_step(board, from, -1, 0, color, &mut positions);
        add_king_step(board, from, 0, -1, color, &mut positions);
        positions
    }
}

/// Whether `q` is the square `p`, compared by coordinates.
pub open spec fn same_square(q: Position, p: Position) -> bool {
    q.r() == p.r() && q.c() == p.c()
}

fn push_square(positions: &mut Vec<Position>, p: Position)
    requires
        distinct_squares(old(positions)@),
        p.wf(),
        forall|q: Position| #[trigger] old(positions)@.contains(q) ==> !same_square(q, p),
    ensures
        distinct_squares(final(positions)@),
        forall|q: Position|
            q.wf() ==> (#[trigger] final(positions)@.contains(q) <==> (old(positions)@.contains(q)
                || same_square(q, p))),
{
    push_position(positions, p);
    proof {
        assert forall|q: Position| q.wf() && same_square(q, p) implies q == p by {
            crate::model::lemma_position_eq(q, p);
        }
    }
}

pub struct PawnMoveCalculator;

impl PawnMoveCalculator {
    fn calculate_pawn_move_down(&self, board: &Board, from: Position, color: Color) -> (r: Vec<
        Position,
    >)
        requires
            board.wf(),
            from.wf(),
            board@.at(from) == Some(Piece::Pawn(color)),
            color == Color::Black,
        ensures
            distinct_squares(r@),
            forall|q: Position|
                q.wf() ==> (#[trigger] r@.contains(q) <==> pawn_target(board@, from, color, q)),
    {
        self.calculate_pawn_move(board, from, color, -1)
    }

    fn calculate_pawn_move_up(&self, board: &Board, from: Position, color: Color) -> (r: Vec<
        Position,
    >)
        requires
            board.wf(),
            from.wf(),
            board@.at(from) == Some(Piece::Pawn(color)),
            color == Color::White,
        ensures
            distinct_squares(r@),
            forall|q: Position|
                q.wf() ==> (#[trigger] r@.contains(q) <==> pawn_target(board@, from, color, q)),
    {
        self.calculate_pawn_move(board, from, color, 1)
    }

    /// One step forward onto an empty square, a second one from the home rank, the two
    /// diagonal captures, and the two en passant captures.
    fn calculate_pawn_move(&self, board: &Board, from: Position, color: Color, row_inc: i8) -> (r:
        Vec<Position>)
        requires
            board.wf(),
            from.wf(),
            board@.at(from) == Some(Piece::Pawn(color)),
            row_inc == color.forward(),
        ensures
            distinct_squares(r@),
            forall|q: Position|
                q.wf() ==> (#[trigger] r@.contains(q) <==> pawn_target(board@, from, color, q)),
    {
        let ghost v = board@;
        let ghost d = row_inc as int;
        let mut positions: Vec<Position> = Vec::new();
        let next = match from.inc(row_inc, 0) {
            Some(next) => next,
            None => {
                return positions;
            },
        };
        let home: u8 = if row_inc > 0 {
            2
        } else {
            7
        };
        if self.add_if_empty(board, next, &mut positions) {
            if from.row == home {
                if let Some(second) = next.inc(row_inc, 0) {
                    self.add_if_empty(board, second, &mut positions);
                }
            }
        }
        if let Some(diagonal) = from.inc(row_inc, 1) {
            self.add_if_oppenent(board, color, diagonal, &mut positions);
        }
        if let Some(diagonal) = from.inc(row_inc, -1) {
            self.add_if_oppenent(board, color, diagonal, &mut positions);
        }
        if let Some(side) = from.inc(0, -1) {
            self.add_if_en_passant(board, side, row_inc, color, &mut positions);
        }
        if let Some(side) = from.inc(0, 1) {
            self.add_if_en_passant(board, side, row_inc, color, &mut positions);
        }
        proof {
            assert forall|q: Position| q.wf() implies (#[trigger] positions@.contains(q)
                <==> pawn_target(v, from, color, q)) by {
                if q.r() == from.r() + 2 * d && q.c() == from.c() && from.r()
                    == color.pawn_home_row() {
                    assert(on_board(from.r() + 2 * d, from.c()));
                }
            }
        }
        positions
    }

    fn add_if_empty(&self, board: &Board, position: Position, positions: &mut Vec<Position>) -> (r:
        bool)
        requires
            board.wf(),
            position.wf(),
            distinct_squares(old(positions)@),
            forall|q: Position| #[trigger] old(positions)@.contains(q) ==> !same_square(q, position),
        ensures
            r == free(board@, position.r(), position.c()),
            distinct_squares(final(positions)@),
            forall|q: Position|
                q.wf() ==> (#[trigger] final(positions)@.contains(q) <==> (old(
                    positions,
                )@.contains(q) || (r && same_square(q, position)))),
    {
        if board.is_empty(position) {
            push_square(positions, position);
            true
        } else {
            false
        }
    }

    fn add_if_oppenent(
        &self,
        board: &Board,
        color: Color,
        position: Position,
        positions: &mut Vec<Position>,
    )
        requires
            board.wf(),
            position.wf(),
            distinct_squares(old(positions)@),
            forall|q: Position| #[trigger] old(positions)@.contains(q) ==> !same_square(q, position),
        ensures
            distinct_squares(final(positions)@),
            forall|q: Position|
                q.wf() ==> (#[trigger] final(positions)@.contains(q) <==> (old(
                    positions,
                )@.contains(q) || (same_square(q, position) && enemy(
                    board@,
                    position.r(),
                    position.c(),
                    color,
                )))),
    {
        if let Some(c) = color_at(board, position) {
            if c != color {
                push_square(positions, position);
            }
        }
    }

    /// Adds the square behind `position` where `position` holds an enemy pawn that has
    /// just made its double step and that square is empty.
    fn add_if_en_passant(
        &self,
        board: &Board,
        position: Position,
        row_inc: i8,
        color: Color,
        positions: &mut Vec<Position>,
    )
        requires
            board.wf(),
            position.wf(),
            on_board(position.r() + row_inc, position.c()),
            distinct_squares(old(positions)@),
            forall|q: Position| #[trigger]
                old(positions)@.contains(q) && q.r() == position.r() + row_inc && q.c()
                    == position.c() ==> enemy(board@, q.r(), q.c(), color),
        ensures
            distinct_squares(final(positions)@),
            forall|q: Position|
                q.wf() ==> (#[trigger] final(positions)@.contains(q) <==> (old(
                    positions,
                )@.contains(q) || (board@.en_passant == Some(position) && board@.at(position)
                    == Some(Piece::Pawn(color.other())) && q.r() == position.r() + row_inc && q.c()
                    == position.c() && free(board@, q.r(), q.c())))),
    {
        if let Some(en_passant) = board.get_en_passant_target() {
            if en_passant == position && board.piece_at(position) == Some(
                Piece::Pawn(color.opponent()),
            ) {
                let behind = position.inc(row_inc, 0).unwrap();
                if board.is_empty(behind) {
                    push_square(positions, behind);
                }
            }
        }
    }
}

impl PawnMoveCalculator {
    pub fn calculate(&self, board: &Board, from: Position) -> (r: Vec<Position>)
        requires
            board.wf(),
            from.wf(),
            board@.at(from) matches Some(Piece::Pawn(_)),
        ensures
            distinct_squares(r@),
            forall|q: Position|
                q.wf() ==> (#[trigger] r@.contains(q) <==> raw_target(board@, from, q)),
    {
        match board.piece_at(from) {
            Some(Piece::Pawn(Color::Black)) => self.calculate_pawn_move_down(
                board,
                from,
                Color::Black,
            ),
            _ => self.calculate_pawn_move_up(board, from, Color::White),
        }
    }
}

/// The squares the piece at `from` can physically reach, by its kind.
pub fn piece_moves(board: &Board, from: Position) -> (r: Vec<Position>)
    requires
        board.wf(),
        from.wf(),
        board@.at(from).is_some(),
    ensures
        distinct_squares(r@),
        forall|q: Position|
            q.wf() ==> (#[trigger] r@.contains(q) <==> raw_target(board@, from, q)),
{
    match board.piece_at(from) {
        Some(Piece::Pawn(_)) => PawnMoveCalculator.calculate(board, from),
        Some(Piece::Knight(_)) => KnightMoveCalculator.calculate(board, from),
        Some(Piece::Bishop(_)) => BishopMoveCalulator.calculate(board, from),
        Some(Piece::Rook(_)) => RookMoveCalculator.calculate(board, from),
        Some(Piece::Queen(_)) => QueenMoveCalculator.calculate(board, from),
        _ => KingMoveCalculator.calculate(board, from),
    }
}

} // verus!
