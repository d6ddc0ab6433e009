//! Rays and leaps from a square, and the rule by which the pieces on the
//! board stop them.

use vstd::prelude::*;
use crate::board::pieces::PieceColor;
use crate::board::position::Position;
use crate::board::{Board, BoardView};

verus! {

/// The collision rule along a walk: squares outside the board are passed
/// over; an empty square is taken and the walk goes on; a square with an
/// enemy piece is taken and ends the walk; a square with a friendly piece
/// ends the walk and is not taken.
pub open spec fn walk(b: BoardView, friendly: PieceColor, squares: Seq<Position>) -> Seq<Position>
    decreases squares.len(),
{
    if squares.len() == 0 {
        Seq::empty()
    } else {
        let p = squares[0];
        if !p.on_board() {
            walk(b, friendly, squares.drop_first())
        } else {
            match b.piece_at(p) {
                None => seq![p] + walk(b, friendly, squares.drop_first()),
                Some(q) => if q.color != friendly {
                    seq![p]
                } else {
                    Seq::empty()
                },
            }
        }
    }
}

/// `m` steps in the direction of `d`, which is read by its sign only.
pub open spec fn scale(d: int, m: int) -> int {
    if d > 0 {
        m
    } else if d < 0 {
        -m
    } else {
        0
    }
}

/// How many steps in the direction of `d` stay within `0..=7` from `x`.
pub open spec fn room(x: int, d: int) -> int {
    if d > 0 {
        7 - x
    } else if d < 0 {
        x
    } else {
        7
    }
}

/// How many steps in the direction `(di, dj)` stay on the board.
pub open spec fn reach(origin: Position, di: int, dj: int) -> int {
    let a = room(origin.i as int, di);
    let b = room(origin.j as int, dj);
    if a <= b {
        a
    } else {
        b
    }
}

/// The square `m` steps from `origin` in the direction `(di, dj)`.
pub open spec fn step(origin: Position, di: int, dj: int, m: int) -> Position {
    origin.shift(scale(di, m), scale(dj, m))
}

/// The first `n` squares from `origin` in the direction `(di, dj)`, nearest first.
pub open spec fn line(origin: Position, di: int, dj: int, n: int) -> Seq<Position> {
    Seq::new(n as nat, |k: int| step(origin, di, dj, k + 1))
}

/// What a ray piece of colour `friendly` on `origin` reaches in the
/// direction `(di, dj)`.
pub open spec fn ray(b: BoardView, friendly: PieceColor, origin: Position, di: int, dj: int) -> Seq<
    Position,
> {
    walk(b, friendly, line(origin, di, dj, reach(origin, di, dj)))
}

/// Both directions along the file: rank up, then rank down.
pub open spec fn vertical_rays(b: BoardView, friendly: PieceColor, origin: Position) -> Seq<Position> {
    ray(b, friendly, origin, 1, 0) + ray(b, friendly, origin, -1, 0)
}

/// Both directions along the rank: file up, then file down.
pub open spec fn horizontal_rays(b: BoardView, friendly: PieceColor, origin: Position) -> Seq<
    Position,
> {
    ray(b, friendly, origin, 0, 1) + ray(b, friendly, origin, 0, -1)
}

/// The four diagonals: rank and file up, rank and file down, rank up and
/// file down, rank down and file up.
pub open spec fn diagonal_rays(b: BoardView, friendly: PieceColor, origin: Position) -> Seq<Position> {
    ray(b, friendly, origin, 1, 1) + ray(b, friendly, origin, -1, -1) + ray(
        b,
        friendly,
        origin,
        1,
        -1,
    ) + ray(b, friendly, origin, -1, 1)
}

/// Whether a piece of colour `friendly` may land on `t`: a square of the
/// board that holds no friendly piece.
pub open spec fn can_land(b: BoardView, friendly: PieceColor, t: Position) -> bool {
    t.on_board() && !b.has_color(t, friendly)
}

/// `can_land` as a predicate on squares.
pub open spec fn landing(b: BoardView, friendly: PieceColor) -> spec_fn(Position) -> bool {
    |t: Position| can_land(b, friendly, t)
}

/// The targets on which a leaper of colour `friendly` may land, in the
/// order given.
pub open spec fn leap(b: BoardView, friendly: PieceColor, targets: Seq<Position>) -> Seq<Position> {
    targets.filter(landing(b, friendly))
}

/// The walk over a single square is the leaper's rule for it.
pub proof fn lemma_walk_one(b: BoardView, friendly: PieceColor, t: Position)
    ensures
        walk(b, friendly, seq![t]) == if can_land(b, friendly, t) {
            seq![t]
        } else {
            Seq::<Position>::empty()
        },
{
    let s = seq![t];
    assert(s.drop_first() =~= Seq::<Position>::empty());
    assert(walk(b, friendly, s.drop_first()) == Seq::<Position>::empty());
    assert(seq![t] + Seq::<Position>::empty() =~= seq![t]);
}

/// The shape of a walk over squares of the board: what is taken is a
/// prefix of the squares walked over; all of it but its last square is
/// empty; its last square holds no friendly piece; and a walk that stops
/// before the end stops on an enemy piece or in front of a friendly one.
pub proof fn lemma_walk_shape(b: BoardView, friendly: PieceColor, squares: Seq<Position>)
    requires
        forall|k: int| 0 <= k < squares.len() ==> (#[trigger] squares[k]).on_board(),
    ensures
        walk(b, friendly, squares).len() <= squares.len(),
        forall|k: int|
            0 <= k < walk(b, friendly, squares).len() ==> #[trigger] walk(b, friendly, squares)[k]
                == squares[k],
        forall|k: int|
            0 <= k < walk(b, friendly, squares).len() - 1 ==> b.piece_at(#[trigger] squares[k])
                is None,
        forall|k: int|
            0 <= k < walk(b, friendly, squares).len() ==> !b.has_color(
                #[trigger] squares[k],
                friendly,
            ),
        walk(b, friendly, squares).len() < squares.len() ==> {
            let n = walk(b, friendly, squares).len() as int;
            ||| n > 0 && b.piece_at(squares[n - 1]) is Some
            ||| b.has_color(squares[n], friendly)
        },
    decreases squares.len(),
{
    if squares.len() > 0 {
        let rest = squares.drop_first();
        assert forall|k: int| 0 <= k < rest.len() implies (#[trigger] rest[k]).on_board() by {
            assert(rest[k] == squares[k + 1]);
        }
        lemma_walk_shape(b, friendly, rest);
        let w = walk(b, friendly, squares);
        let wr = walk(b, friendly, rest);
        if b.piece_at(squares[0]) is None {
            assert(w == seq![squares[0]] + wr);
            assert forall|k: int| 0 <= k < w.len() implies #[trigger] w[k] == squares[k] by {
                if k > 0 {
                    assert(w[k] == wr[k - 1]);
                    assert(rest[k - 1] == squares[k]);
                }
            }
            assert forall|k: int| 0 <= k < w.len() - 1 implies b.piece_at(#[trigger] squares[k])
                is None by {
                if k > 0 {
                    assert(rest[k - 1] == squares[k]);
                }
            }
            assert forall|k: int| 0 <= k < w.len() implies !b.has_color(
                #[trigger] squares[k],
                friendly,
            ) by {
                if k > 0 {
                    assert(rest[k - 1] == squares[k]);
                }
            }
            if w.len() < squares.len() {
                let n = w.len() as int;
                assert(rest[n - 1] == squares[n]);
                if n - 1 > 0 {
                    assert(rest[n - 2] == squares[n - 1]);
                }
            }
        }
    }
}

/// A square is taken by a walk over squares of the board exactly if it
/// is one of them, holds no friendly piece, and every square before it is empty.
pub proof fn lemma_walk_contains(b: BoardView, friendly: PieceColor, squares: Seq<Position>, t: Position)
    requires
        forall|k: int| 0 <= k < squares.len() ==> (#[trigger] squares[k]).on_board(),
    ensures
        walk(b, friendly, squares).contains(t) <==> exists|k: int|
            {
                &&& 0 <= k < squares.len()
                &&& #[trigger] squares[k] == t
                &&& !b.has_color(t, friendly)
                &&& forall|m: int| 0 <= m < k ==> b.piece_at(#[trigger] squares[m]) is None
            },
{
    lemma_walk_shape(b, friendly, squares);
    let w = walk(b, friendly, squares);
    if w.contains(t) {
        let k = choose|k: int| 0 <= k < w.len() && w[k] == t;
        assert(squares[k] == t);
        assert(forall|m: int| 0 <= m < k ==> b.piece_at(#[trigger] squares[m]) is None);
    }
    if exists|k: int|
        {
            &&& 0 <= k < squares.len()
            &&& #[trigger] squares[k] == t
            &&& !b.has_color(t, friendly)
            &&& forall|m: int| 0 <= m < k ==> b.piece_at(#[trigger] squares[m]) is None
        } {
        let k = choose|k: int|
            {
                &&& 0 <= k < squares.len()
                &&& #[trigger] squares[k] == t
                &&& !b.has_color(t, friendly)
                &&& forall|m: int| 0 <= m < k ==> b.piece_at(#[trigger] squares[m]) is None
            };
        let n = w.len() as int;
        if n <= k {
            if n > 0 {
                assert(b.piece_at(squares[n - 1]) is None);
            }
            if n < k {
                assert(b.piece_at(squares[n]) is None);
            }
            assert(false);
        }
        assert(w[k] == squares[k]);
    }
}

/// The squares of a line to the edge are squares of the board.
pub proof fn lemma_line_on_board(origin: Position, di: int, dj: int)
    requires
        origin.on_board(),
        di != 0 || dj != 0,
    ensures
        0 <= reach(origin, di, dj) <= 7,
        forall|k: int|
            0 <= k < reach(origin, di, dj) ==> (#[trigger] line(
                origin,
                di,
                dj,
                reach(origin, di, dj),
            )[k]).on_board(),
{
}

/// What a ray piece reaches along one direction is a run of empty squares
/// next to it, one after the other, that may end with one square that
/// holds an enemy piece; no square of it holds a friendly piece; and it
/// ends before the edge of the board only on an enemy piece or in front of
/// a friendly one.
pub proof fn lemma_ray_shape(b: BoardView, friendly: PieceColor, origin: Position, di: int, dj: int)
    requires
        origin.on_board(),
        di != 0 || dj != 0,
    ensures
        ray(b, friendly, origin, di, dj).len() <= reach(origin, di, dj),
        forall|k: int|
            0 <= k < ray(b, friendly, origin, di, dj).len() ==> {
                let t = #[trigger] ray(b, friendly, origin, di, dj)[k];
                &&& t == step(origin, di, dj, k + 1)
                &&& t.on_board()
                &&& !b.has_color(t, friendly)
                &&& k < ray(b, friendly, origin, di, dj).len() - 1 ==> b.piece_at(t) is None
            },
        ray(b, friendly, origin, di, dj).len() < reach(origin, di, dj) ==> {
            let n = ray(b, friendly, origin, di, dj).len() as int;
            ||| n > 0 && b.piece_at(step(origin, di, dj, n)) is Some
            ||| b.has_color(step(origin, di, dj, n + 1), friendly)
        },
{
    let n = reach(origin, di, dj);
    let squares = line(origin, di, dj, n);
    lemma_line_on_board(origin, di, dj);
    lemma_walk_shape(b, friendly, squares);
    let r = ray(b, friendly, origin, di, dj);
    assert forall|k: int| 0 <= k < r.len() implies {
        let t = #[trigger] r[k];
        &&& t == step(origin, di, dj, k + 1)
        &&& t.on_board()
        &&& !b.has_color(t, friendly)
        &&& k < r.len() - 1 ==> b.piece_at(t) is None
    } by {
        assert(r[k] == squares[k]);
    }
    if r.len() < n {
        let m = r.len() as int;
        assert(squares[m] == step(origin, di, dj, m + 1));
        if m > 0 {
            assert(squares[m - 1] == step(origin, di, dj, m));
        }
    }
}

/// A square is reached along a direction exactly if it lies some steps
/// away in that direction, on the board, holds no friendly piece, and
/// every square on the way to it is empty.
pub proof fn lemma_ray_contains(
    b: BoardView,
    friendly: PieceColor,
    origin: Position,
    di: int,
    dj: int,
    t: Position,
)
    requires
        origin.on_board(),
        di != 0 || dj != 0,
    ensures
        ray(b, friendly, origin, di, dj).contains(t) <==> exists|n: int|
            {
                &&& 1 <= n <= reach(origin, di, dj)
                &&& #[trigger] step(origin, di, dj, n) == t
                &&& !b.has_color(t, friendly)
                &&& forall|m: int| 1 <= m < n ==> b.piece_at(#[trigger] step(origin, di, dj, m)) is None
            },
{
    let len = reach(origin, di, dj);
    let squares = line(origin, di, dj, len);
    lemma_line_on_board(origin, di, dj);
    lemma_walk_contains(b, friendly, squares, t);
    if ray(b, friendly, origin, di, dj).contains(t) {
        let k = choose|k: int|
            {
                &&& 0 <= k < squares.len()
                &&& #[trigger] squares[k] == t
                &&& !b.has_color(t, friendly)
                &&& forall|m: int| 0 <= m < k ==> b.piece_at(#[trigger] squares[m]) is None
            };
        assert(step(origin, di, dj, k + 1) == t);
        assert forall|m: int| 1 <= m < k + 1 implies b.piece_at(#[trigger] step(origin, di, dj, m))
            is None by {
            assert(squares[m - 1] == step(origin, di, dj, m));
        }
    }
    if exists|n: int|
        {
            &&& 1 <= n <= len
            &&& #[trigger] step(origin, di, dj, n) == t
            &&& !b.has_color(t, friendly)
            &&& forall|m: int| 1 <= m < n ==> b.piece_at(#[trigger] step(origin, di, dj, m)) is None
        } {
        let n = choose|n: int|
            {
                &&& 1 <= n <= len
                &&& #[trigger] step(origin, di, dj, n) == t
                &&& !b.has_color(t, friendly)
                &&& forall|m: int| 1 <= m < n ==> b.piece_at(#[trigger] step(origin, di, dj, m)) is None
            };
        assert(squares[n - 1] == t);
        assert forall|m: int| 0 <= m < n - 1 implies b.piece_at(#[trigger] squares[m]) is None by {
            assert(squares[m] == step(origin, di, dj, m + 1));
        }
    }
}

/// Collects the squares that a piece on `pos` may move to, pattern by pattern.
pub struct BoardPositionSelector<'a> {
    board: &'a Board,
    pos: Position,
    friendly_color: PieceColor,
    selected: Vec<Position>,
}

impl<'a> BoardPositionSelector<'a> {
    /// The board that the selector looks at.
    pub closed spec fn board(&self) -> BoardView {
        self.board@
    }

    /// The square from which the rays start.
    pub closed spec fn origin(&self) -> Position {
        self.pos
    }

    /// The colour whose pieces block.
    pub closed spec fn friendly(&self) -> PieceColor {
        self.friendly_color
    }

    /// What has been selected so far.
    pub closed spec fn selected(&self) -> Seq<Position> {
        self.selected@
    }

    /// The board is well formed and the origin is one of its squares.
    pub open spec fn wf(&self) -> bool {
        self.board().wf() && self.origin().on_board()
    }

    /// Whether `other` looks at the same board from the same square for the same colour.
    pub open spec fn same_setting(&self, other: &Self) -> bool {
        &&& self.board() == other.board()
        &&& self.origin() == other.origin()
        &&& self.friendly() == other.friendly()
    }

    /// A selector for a piece of `friendly_color` on the square `pos` of
    /// `board`, with nothing selected yet.
    pub fn new(board: &'a Board, pos: Position, friendly_color: PieceColor) -> (s: Self)
        requires
            board.wf(),
            pos.on_board(),
        ensures
            s.wf(),
            s.board() == board@,
            s.origin() == pos,
            s.friendly() == friendly_color,
            s.selected() == Seq::<Position>::empty(),
    {
        Self { board, pos, friendly_color, selected: Vec::new() }
    }

    /// What has been selected, in the order of selection.
    pub fn build_positions(self) -> (v: Vec<Position>)
        ensures
            v@ == self.selected(),
    {
        self.selected
    }

    /// The squares from the origin to the edge in one direction, nearest first.
    fn line_to_edge(&self, di: i8, dj: i8) -> (v: Vec<Position>)
        requires
            self.wf(),
            -1 <= di <= 1,
            -1 <= dj <= 1,
            di != 0 || dj != 0,
        ensures
            v@ == line(self.origin(), di as int, dj as int, reach(self.origin(), di as int, dj as int)),
    {
        let mut v: Vec<Position> = Vec::new();
        let mut i: i8 = self.pos.i();
        let mut j: i8 = self.pos.j();
        let ghost n = reach(self.pos, di as int, dj as int);
        let ghost mut m: int = 0;
        while 0 <= i + di && i + di <= 7 && 0 <= j + dj && j + dj <= 7
            invariant
                -1 <= di <= 1,
                -1 <= dj <= 1,
                di != 0 || dj != 0,
                self.pos.on_board(),
                n == reach(self.pos, di as int, dj as int),
                0 <= m <= n,
                i == self.pos.i + scale(di as int, m),
                j == self.pos.j + scale(dj as int, m),
                0 <= i <= 7,
                0 <= j <= 7,
                v@ == line(self.pos, di as int, dj as int, m),
            decreases n - m,
        {
            i = i + di;
            j = j + dj;
            proof {
                m = m + 1;
            }
            v.push(Position::new(i, j));
        }
        v
    }

    fn handle_collisions_and_positions_validity(&self, positions: Vec<Position>) -> (handled: Vec<
        Position,
    >)
        requires
            self.wf(),
        ensures
            handled@ == walk(self.board(), self.friendly(), positions@),
    {
        let mut handled: Vec<Position> = Vec::new();
        let mut k: usize = 0;
        let ghost all = walk(self.board@, self.friendly_color, positions@);
        proof {
            assert(positions@.skip(0) =~= positions@);
        }
        while k < positions.len()
            invariant_except_break
                k <= positions.len(),
                handled@ + walk(self.board@, self.friendly_color, positions@.skip(k as int)) == all,
            invariant
                self.board.wf(),
            ensures
                handled@ == all,
            decreases positions.len() - k,
        {
            let pos = positions[k];
            proof {
                assert(positions@.skip(k as int).drop_first() =~= positions@.skip(k + 1));
            }
            k += 1;
            if !Board::is_valid_position(pos) {
                continue ;
            }
            match self.board.piece_on(pos) {
                None => {
                    handled.push(pos);
                },
                Some(piece) => {
                    if piece.color != self.friendly_color {
                        handled.push(pos);
                    }
                    break ;
                },
            }
        }
        handled
    }

    fn extend(&mut self, more: Vec<Position>)
        ensures
            final(self).selected() == old(self).selected() + more@,
            final(self).same_setting(old(self)),
    {
        let mut k: usize = 0;
        while k < more.len()
            invariant
                k <= more.len(),
                self.selected@ == old(self).selected@ + more@.take(k as int),
                self.board == old(self).board,
                self.pos == old(self).pos,
                self.friendly_color == old(self).friendly_color,
            decreases more.len() - k,
        {
            self.selected.push(more[k]);
            k += 1;
        }
    }

    /// Adds what is reached along the file, rank up and then rank down.
    pub fn vertical(&mut self) -> (ret: &mut Self)
        requires
            old(self).wf(),
        ensures
            ret.selected() == old(self).selected() + vertical_rays(
                old(self).board(),
                old(self).friendly(),
                old(self).origin(),
            ),
            ret.same_setting(old(self)),
            *final(self) == *final(ret),
    {
        let up = self.line_to_edge(1, 0);
        let up_file = self.handle_collisions_and_positions_validity(up);
        let down = self.line_to_edge(-1, 0);
        let down_file = self.handle_collisions_and_positions_validity(down);
        self.extend(up_file);
        self.extend(down_file);
        self
    }

    /// Adds what is reached along the rank, file up and then file down.
    pub fn horizontal(&mut self) -> (ret: &mut Self)
        requires
            old(self).wf(),
        ensures
            ret.selected() == old(self).selected() + horizontal_rays(
                old(self).board(),
                old(self).friendly(),
                old(self).origin(),
            ),
            ret.same_setting(old(self)),
            *final(self) == *final(ret),
    {
        let right = self.line_to_edge(0, 1);
        let right_row = self.handle_collisions_and_positions_validity(right);
        let left = self.line_to_edge(0, -1);
        let left_row = self.handle_collisions_and_positions_validity(left);
        self.extend(right_row);
        self.extend(left_row);
        self
    }

    /// Adds what is reached along the four diagonals.
    pub fn diagonal(&mut self) -> (ret: &mut Self)
        requires
            old(self).wf(),
        ensures
            ret.selected() == old(self).selected() + diagonal_rays(
                old(self).board(),
                old(self).friendly(),
                old(self).origin(),
            ),
            ret.same_setting(old(self)),
            *final(self) == *final(ret),
    {
        let temp = self.line_to_edge(1, 1);
        let a = self.handle_collisions_and_positions_validity(temp);
        self.extend(a);
        let temp = self.line_to_edge(-1, -1);
        let b = self.handle_collisions_and_positions_validity(temp);
        self.extend(b);
        let temp = self.line_to_edge(1, -1);
        let c = self.handle_collisions_and_positions_validity(temp);
        self.extend(c);
        let temp = self.line_to_edge(-1, 1);
        let d = self.handle_collisions_and_positions_validity(temp);
        self.extend(d);
        self
    }

    /// Adds those of `positions` on which the piece may land, each judged
    /// by itself: nothing stands in a leaper's way.
    pub fn custom(&mut self, positions: Vec<Position>) -> (ret: &mut Self)
        requires
            old(self).wf(),
        ensures
            ret.selected() == old(self).selected() + leap(
                old(self).board(),
                old(self).friendly(),
                positions@,
            ),
            ret.same_setting(old(self)),
            *final(self) == *final(ret),
    {
        let ghost before = self.selected@;
        let ghost pred = landing(self.board@, self.friendly_color);
        let mut k: usize = 0;
        while k < positions.len()
            invariant
                k <= positions.len(),
                self.wf(),
                self.same_setting(old(self)),
                before == old(self).selected@,
                pred == landing(self.board@, self.friendly_color),
                self.selected@ == before + positions@.take(k as int).filter(pred),
            decreases positions.len() - k,
        {
            let pos = positions[k];
            let mut one: Vec<Position> = Vec::new();
            one.push(pos);
            let landed = self.handle_collisions_and_positions_validity(one);
            proof {
                lemma_walk_one(self.board@, self.friendly_color, pos);
                let head = positions@.take(k as int);
                assert(positions@.take(k + 1) =~= head.push(pos));
                head.lemma_filter_push(pos, pred);
            }
            self.extend(landed);
            k += 1;
        }
        proof {
            assert(positions@.take(k as int) =~= positions@);
        }
        self
    }
}

} // verus!
