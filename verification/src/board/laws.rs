//! What holds of every board and every move, proved from the definitions
//! of the rules.

use vstd::prelude::*;
use crate::board::pieces::moves::{
    after_force, ahead, castle_corner, castle_crossed, castle_step, en_passant, is_double_step,
    king_moves, king_steps, knight_jumps, last_rank, legal_moves, legal_pred, may_castle,
    move_kind, passant_open, passes, pawn_advances, pawn_capture, pawn_moves, pseudo_moves,
    rank_clear, simulate, touched,
};
use crate::board::pieces::{Piece, PieceColor, PieceKind};
use crate::board::position::selector::{
    can_land, diagonal_rays, horizontal_rays, landing, leap, lemma_ray_contains, lemma_ray_shape,
    line, ray, reach, step, vertical_rays, walk,
};
use crate::board::position::Position;
use crate::board::{
    after_move, attacked, attacks, checkmated, immobile, is_king, king_from, king_safe,
    king_square, pieces_of, square, squares, stands, BoardView,
};

verus! {

/// What stands on a square after something has been put on a square.
pub proof fn lemma_put(b: BoardView, p: Position, c: Option<Piece>)
    requires
        b.cells.len() == 64,
    ensures
        b.put(p, c).cells.len() == 64,
        b.put(p, c).passant == b.passant,
        b.put(p, c).lifetime == b.lifetime,
        forall|q: Position|
            #[trigger] b.put(p, c).piece_at(q) == (if q == p && p.on_board() {
                c
            } else {
                b.piece_at(q)
            }),
{
    assert forall|q: Position|
        #[trigger] b.put(p, c).piece_at(q) == (if q == p && p.on_board() {
            c
        } else {
            b.piece_at(q)
        }) by {
        if p.on_board() && q.on_board() && q != p {
            assert(q.index() != p.index());
        }
    }
}

/// A sequence made of two holds what either of them holds.
pub proof fn lemma_concat_contains(a: Seq<Position>, b: Seq<Position>, t: Position)
    ensures
        (a + b).contains(t) <==> a.contains(t) || b.contains(t),
{
    if a.contains(t) {
        let k = choose|k: int| 0 <= k < a.len() && a[k] == t;
        assert((a + b)[k] == t);
    }
    if b.contains(t) {
        let k = choose|k: int| 0 <= k < b.len() && b[k] == t;
        assert((a + b)[a.len() + k] == t);
    }
    if (a + b).contains(t) {
        let k = choose|k: int| 0 <= k < (a + b).len() && (a + b)[k] == t;
        if k < a.len() {
            assert(a[k] == t);
        } else {
            assert(b[k - a.len()] == t);
        }
    }
}

/// A leaper lands on a square exactly if the square is one of its
/// targets, lies on the board and holds no friendly piece.
pub proof fn lemma_leap_contains(b: BoardView, friendly: PieceColor, targets: Seq<Position>, t: Position)
    ensures
        leap(b, friendly, targets).contains(t) <==> targets.contains(t) && can_land(b, friendly, t),
{
    let pred = landing(b, friendly);
    if leap(b, friendly, targets).contains(t) {
        targets.lemma_filter_contains_rev(pred, t);
        let k = choose|k: int|
            0 <= k < targets.filter(pred).len() && targets.filter(pred)[k] == t;
        targets.lemma_filter_pred(pred, k);
    }
    if targets.contains(t) && can_land(b, friendly, t) {
        let k = choose|k: int| 0 <= k < targets.len() && targets[k] == t;
        assert(pred(targets[k]));
        targets.lemma_filter_contains(pred, k);
    }
}

/// Every pseudo-legal destination is a square of the board other than the
/// origin, and holds no piece of the mover's colour.
pub proof fn lemma_pseudo_lands(b: BoardView, p: Position, t: Position)
    requires
        b.cells.len() == 64,
        pseudo_moves(b, p).contains(t),
    ensures
        p.on_board(),
        t.on_board(),
        t != p,
        b.piece_at(p) matches Some(mover) && !b.has_color(t, mover.color),
{
    let mover = b.piece_at(p)->0;
    let c = mover.color;
    match mover.kind {
        PieceKind::King => {
            let near = leap(b, c, king_steps(p));
            let east = if may_castle(b, p, mover, 7) {
                leap(b, c, seq![p.shift(0, 2)])
            } else {
                Seq::empty()
            };
            let west = if may_castle(b, p, mover, 0) {
                leap(b, c, seq![p.shift(0, -2)])
            } else {
                Seq::empty()
            };
            lemma_concat_contains(near + east, west, t);
            lemma_concat_contains(near, east, t);
            lemma_leap_contains(b, c, king_steps(p), t);
            lemma_leap_contains(b, c, seq![p.shift(0, 2)], t);
            lemma_leap_contains(b, c, seq![p.shift(0, -2)], t);
        },
        PieceKind::Knight => {
            lemma_leap_contains(b, c, knight_jumps(p), t);
        },
        PieceKind::Queen => {
            lemma_concat_contains(
                vertical_rays(b, c, p) + horizontal_rays(b, c, p),
                diagonal_rays(b, c, p),
                t,
            );
            lemma_concat_contains(vertical_rays(b, c, p), horizontal_rays(b, c, p), t);
            lemma_rays_land(b, c, p, t);
        },
        PieceKind::Rook => {
            lemma_concat_contains(vertical_rays(b, c, p), horizontal_rays(b, c, p), t);
            lemma_rays_land(b, c, p, t);
        },
        PieceKind::Bishop => {
            lemma_rays_land(b, c, p, t);
        },
        PieceKind::Pawn => {
            let adv = pawn_advances(b, p, mover);
            let right = pawn_capture(b, c, ahead(p, c, 1, 1));
            let left = pawn_capture(b, c, ahead(p, c, 1, -1));
            let ep = en_passant(b, p, mover);
            lemma_concat_contains(adv + right + left, ep, t);
            lemma_concat_contains(adv + right, left, t);
            lemma_concat_contains(adv, right, t);
            if adv.contains(t) {
                let k = choose|k: int| 0 <= k < adv.len() && adv[k] == t;
                assert(adv[k] == t);
            } else if right.contains(t) {
                let k = choose|k: int| 0 <= k < right.len() && right[k] == t;
                assert(right[k] == t);
            } else if left.contains(t) {
                let k = choose|k: int| 0 <= k < left.len() && left[k] == t;
                assert(left[k] == t);
            } else {
                let k = choose|k: int| 0 <= k < ep.len() && ep[k] == t;
                assert(ep[k] == t);
            }
        },
    }
}

/// What is reached along the file, the rank or a diagonal is a square of
/// the board without a friendly piece on it.
proof fn lemma_rays_land(b: BoardView, c: PieceColor, p: Position, t: Position)
    requires
        p.on_board(),
    ensures
        vertical_rays(b, c, p).contains(t) || horizontal_rays(b, c, p).contains(t) || diagonal_rays(
            b,
            c,
            p,
        ).contains(t) ==> t.on_board() && !b.has_color(t, c),
{
    lemma_ray_lands(b, c, p, 1, 0, t);
    lemma_ray_lands(b, c, p, -1, 0, t);
    lemma_ray_lands(b, c, p, 0, 1, t);
    lemma_ray_lands(b, c, p, 0, -1, t);
    lemma_ray_lands(b, c, p, 1, 1, t);
    lemma_ray_lands(b, c, p, -1, -1, t);
    lemma_ray_lands(b, c, p, 1, -1, t);
    lemma_ray_lands(b, c, p, -1, 1, t);
    lemma_concat_contains(ray(b, c, p, 1, 0), ray(b, c, p, -1, 0), t);
    lemma_concat_contains(ray(b, c, p, 0, 1), ray(b, c, p, 0, -1), t);
    lemma_concat_contains(
        ray(b, c, p, 1, 1) + ray(b, c, p, -1, -1) + ray(b, c, p, 1, -1),
        ray(b, c, p, -1, 1),
        t,
    );
    lemma_concat_contains(ray(b, c, p, 1, 1) + ray(b, c, p, -1, -1), ray(b, c, p, 1, -1), t);
    lemma_concat_contains(ray(b, c, p, 1, 1), ray(b, c, p, -1, -1), t);
}

proof fn lemma_ray_lands(b: BoardView, c: PieceColor, p: Position, di: int, dj: int, t: Position)
    requires
        p.on_board(),
        di != 0 || dj != 0,
    ensures
        ray(b, c, p, di, dj).contains(t) ==> t.on_board() && !b.has_color(t, c),
{
    lemma_ray_shape(b, c, p, di, dj);
    if ray(b, c, p, di, dj).contains(t) {
        let k = choose|k: int| 0 <= k < ray(b, c, p, di, dj).len() && ray(b, c, p, di, dj)[k] == t;
        assert(ray(b, c, p, di, dj)[k] == t);
    }
}

/// A move is among the legal moves of a piece exactly if the piece belongs
/// to the side to move, the move is pseudo-legal, and it passes the test
/// of legality.
pub proof fn lemma_legal_iff(b: BoardView, fr: Position, turn: PieceColor, to: Position)
    ensures
        legal_moves(b, fr, turn).contains(to) <==> {
            &&& b.has_color(fr, turn)
            &&& pseudo_moves(b, fr).contains(to)
            &&& passes(b, fr, to)
        },
{
    let all = pseudo_moves(b, fr);
    let pred = legal_pred(b, fr);
    if legal_moves(b, fr, turn).contains(to) {
        all.lemma_filter_contains_rev(pred, to);
        let k = choose|k: int| 0 <= k < all.filter(pred).len() && all.filter(pred)[k] == to;
        all.lemma_filter_pred(pred, k);
    }
    if b.has_color(fr, turn) && all.contains(to) && passes(b, fr, to) {
        let k = choose|k: int| 0 <= k < all.len() && all[k] == to;
        assert(pred(all[k]));
        all.lemma_filter_contains(pred, k);
    }
}

/// The colour of what stands on `p`.
pub open spec fn stance(b: BoardView, p: Position) -> Option<PieceColor> {
    match b.piece_at(p) {
        Some(q) => Some(q.color),
        None => None,
    }
}

/// Whether two boards have pieces of the same colours on the same squares.
pub open spec fn same_stance(a: BoardView, b: BoardView) -> bool {
    forall|p: Position| #[trigger] stance(a, p) == stance(b, p)
}

/// Whether every piece of `side` on `a` stands on `b` too, the same in all.
pub open spec fn same_side(a: BoardView, b: BoardView, side: PieceColor) -> bool {
    forall|p: Position| a.has_color(p, side) ==> #[trigger] a.piece_at(p) == b.piece_at(p)
}

/// A walk depends on the colours of the pieces only.
proof fn lemma_walk_alike(a: BoardView, b: BoardView, friendly: PieceColor, squares: Seq<Position>)
    requires
        same_stance(a, b),
    ensures
        walk(a, friendly, squares) == walk(b, friendly, squares),
    decreases squares.len(),
{
    if squares.len() > 0 {
        assert(stance(a, squares[0]) == stance(b, squares[0]));
        lemma_walk_alike(a, b, friendly, squares.drop_first());
    }
}

/// A leap depends on the colours of the pieces only.
proof fn lemma_leap_alike(a: BoardView, b: BoardView, friendly: PieceColor, targets: Seq<Position>)
    requires
        same_stance(a, b),
    ensures
        leap(a, friendly, targets) == leap(b, friendly, targets),
{
    assert forall|t: Position| #[trigger] can_land(a, friendly, t) == can_land(b, friendly, t) by {
        assert(stance(a, t) == stance(b, t));
    }
    assert(landing(a, friendly) =~= landing(b, friendly));
}

/// The rays from a square depend on the colours of the pieces only.
proof fn lemma_rays_alike(a: BoardView, b: BoardView, friendly: PieceColor, p: Position)
    requires
        same_stance(a, b),
    ensures
        vertical_rays(a, friendly, p) == vertical_rays(b, friendly, p),
        horizontal_rays(a, friendly, p) == horizontal_rays(b, friendly, p),
        diagonal_rays(a, friendly, p) == diagonal_rays(b, friendly, p),
{
    lemma_walk_alike(a, b, friendly, line(p, 1, 0, reach(p, 1, 0)));
    lemma_walk_alike(a, b, friendly, line(p, -1, 0, reach(p, -1, 0)));
    lemma_walk_alike(a, b, friendly, line(p, 0, 1, reach(p, 0, 1)));
    lemma_walk_alike(a, b, friendly, line(p, 0, -1, reach(p, 0, -1)));
    lemma_walk_alike(a, b, friendly, line(p, 1, 1, reach(p, 1, 1)));
    lemma_walk_alike(a, b, friendly, line(p, -1, -1, reach(p, -1, -1)));
    lemma_walk_alike(a, b, friendly, line(p, 1, -1, reach(p, 1, -1)));
    lemma_walk_alike(a, b, friendly, line(p, -1, 1, reach(p, -1, 1)));
}

/// Whether a stretch of a rank is clear depends on which squares are empty only.
proof fn lemma_rank_clear_alike(a: BoardView, b: BoardView, i: int, lo: int, hi: int)
    requires
        same_stance(a, b),
    ensures
        rank_clear(a, i, lo, hi) == rank_clear(b, i, lo, hi),
{
    if rank_clear(a, i, lo, hi) {
        assert forall|q: Position| q.i == i && lo < q.j < hi implies (#[trigger] b.piece_at(q))
            is None by {
            assert(stance(a, q) == stance(b, q));
            assert(a.piece_at(q) is None);
        }
    }
    if rank_clear(b, i, lo, hi) {
        assert forall|q: Position| q.i == i && lo < q.j < hi implies (#[trigger] a.piece_at(q))
            is None by {
            assert(stance(a, q) == stance(b, q));
            assert(b.piece_at(q) is None);
        }
    }
}

/// The king's moves depend on the colours of the pieces and on the king's
/// own side only.
proof fn lemma_king_moves_alike(a: BoardView, b: BoardView, p: Position, king: Piece)
    requires
        same_stance(a, b),
        same_side(a, b, king.color),
        same_side(b, a, king.color),
    ensures
        king_moves(a, p, king) == king_moves(b, p, king),
{
    let c = king.color;
    lemma_leap_alike(a, b, c, king_steps(p));
    lemma_leap_alike(a, b, c, seq![p.shift(0, 2)]);
    lemma_leap_alike(a, b, c, seq![p.shift(0, -2)]);
    lemma_corner_alike(a, b, p, king, 7);
    lemma_corner_alike(a, b, p, king, 0);
}

proof fn lemma_corner_alike(a: BoardView, b: BoardView, p: Position, king: Piece, corner: int)
    requires
        same_stance(a, b),
        same_side(a, b, king.color),
        same_side(b, a, king.color),
    ensures
        may_castle(a, p, king, corner) == may_castle(b, p, king, corner),
{
    let at = Position::at(p.i as int, corner);
    assert(stance(a, at) == stance(b, at));
    if a.has_color(at, king.color) {
        assert(a.piece_at(at) == b.piece_at(at));
    }
    if b.has_color(at, king.color) {
        assert(b.piece_at(at) == a.piece_at(at));
    }
    lemma_rank_clear_alike(a, b, p.i as int, p.j as int, corner);
    lemma_rank_clear_alike(a, b, p.i as int, corner, p.j as int);
}

/// What a pawn may do other than capture en passant depends on the
/// colours of the pieces only.
proof fn lemma_pawn_alike(a: BoardView, b: BoardView, p: Position, pawn: Piece)
    requires
        same_stance(a, b),
    ensures
        pawn_advances(a, p, pawn) == pawn_advances(b, p, pawn),
        pawn_capture(a, pawn.color, ahead(p, pawn.color, 1, 1)) == pawn_capture(
            b,
            pawn.color,
            ahead(p, pawn.color, 1, 1),
        ),
        pawn_capture(a, pawn.color, ahead(p, pawn.color, 1, -1)) == pawn_capture(
            b,
            pawn.color,
            ahead(p, pawn.color, 1, -1),
        ),
{
    let c = pawn.color;
    assert(stance(a, ahead(p, c, 1, 0)) == stance(b, ahead(p, c, 1, 0)));
    assert(stance(a, ahead(p, c, 2, 0)) == stance(b, ahead(p, c, 2, 0)));
    assert(stance(a, ahead(p, c, 1, 1)) == stance(b, ahead(p, c, 1, 1)));
    assert(stance(a, ahead(p, c, 1, -1)) == stance(b, ahead(p, c, 1, -1)));
}

/// An en passant capture ends on an empty square.
proof fn lemma_en_passant_lands_empty(b: BoardView, p: Position, pawn: Piece, t: Position)
    requires
        en_passant(b, p, pawn).contains(t),
    ensures
        b.piece_at(t) is None,
{
    let ep = en_passant(b, p, pawn);
    let k = choose|k: int| 0 <= k < ep.len() && ep[k] == t;
    assert(ep[k] == t);
}

/// Between two boards with pieces of the same colours on the same
/// squares, and the same pieces of the mover's side, a pseudo-legal move
/// onto an occupied square is pseudo-legal on both.
proof fn lemma_move_carries(a: BoardView, b: BoardView, q: Position, t: Position)
    requires
        same_stance(a, b),
        a.piece_at(q) matches Some(x) && same_side(a, b, x.color) && same_side(b, a, x.color),
        a.piece_at(t) is Some,
        pseudo_moves(a, q).contains(t),
    ensures
        pseudo_moves(b, q).contains(t),
{
    let x = a.piece_at(q)->0;
    let c = x.color;
    assert(a.has_color(q, c));
    assert(b.piece_at(q) == Some(x));
    match x.kind {
        PieceKind::King => {
            lemma_king_moves_alike(a, b, q, x);
        },
        PieceKind::Knight => {
            lemma_leap_alike(a, b, c, knight_jumps(q));
        },
        PieceKind::Queen => {
            lemma_rays_alike(a, b, c, q);
        },
        PieceKind::Rook => {
            lemma_rays_alike(a, b, c, q);
        },
        PieceKind::Bishop => {
            lemma_rays_alike(a, b, c, q);
        },
        PieceKind::Pawn => {
            lemma_pawn_alike(a, b, q, x);
            let core = pawn_advances(a, q, x) + pawn_capture(a, c, ahead(q, c, 1, 1))
                + pawn_capture(a, c, ahead(q, c, 1, -1));
            lemma_concat_contains(core, en_passant(a, q, x), t);
            if en_passant(a, q, x).contains(t) {
                lemma_en_passant_lands_empty(a, q, x, t);
            }
            lemma_concat_contains(core, en_passant(b, q, x), t);
        },
    }
}

/// Between two such boards an attack on an occupied square is an attack on both.
proof fn lemma_attack_carries(a: BoardView, b: BoardView, t: Position, defender: PieceColor)
    requires
        same_stance(a, b),
        same_side(a, b, defender.opposite()),
        same_side(b, a, defender.opposite()),
        a.piece_at(t) is Some,
        attacked(a, t, defender),
    ensures
        attacked(b, t, defender),
{
    let q = choose|q: Position| attacks(a, q, t, defender);
    assert(a.has_color(q, defender.opposite()));
    lemma_move_carries(a, b, q, t);
    assert(attacks(b, q, t, defender));
}

/// The king is looked for among the kings only.
proof fn lemma_king_from_alike(a: BoardView, b: BoardView, color: PieceColor, k: int)
    requires
        forall|m: int| 0 <= m < 64 ==> is_king(a.cells[m], color) == is_king(b.cells[m], color),
    ensures
        king_from(a, color, k) == king_from(b, color, k),
    decreases 64 - k,
{
    if 0 <= k < 64 {
        lemma_king_from_alike(a, b, color, k + 1);
    }
}

/// Whether at most one king of `color` stands on the board.
pub open spec fn sole_king(b: BoardView, color: PieceColor) -> bool {
    forall|p: Position, q: Position|
        is_king(#[trigger] b.piece_at(p), color) && is_king(#[trigger] b.piece_at(q), color) ==> p
            == q
}

/// Whether the move from `fr` to `to` is a castling move.
pub open spec fn is_castling(b: BoardView, fr: Position, to: Position) -> bool {
    b.piece_at(fr) matches Some(mover) && move_kind(mover, b.piece_at(to), fr, to) is Castle
}

/// What a pseudo-legal castling move finds on the board: the king goes two
/// files along its rank, towards a corner that holds a rook of its colour,
/// and the square it crosses and the square it arrives on are empty
/// squares between the two.
pub proof fn lemma_castle_facts(b: BoardView, fr: Position, to: Position)
    requires
        b.cells.len() == 64,
        pseudo_moves(b, fr).contains(to),
        is_castling(b, fr, to),
    ensures
        fr.on_board(),
        to.on_board(),
        to.i == fr.i,
        to.j == fr.j + 2 || to.j == fr.j - 2,
        castle_corner(fr, to).on_board(),
        castle_crossed(fr, to).on_board(),
        castle_crossed(fr, to).j == (if to.j > fr.j {
            fr.j + 1
        } else {
            fr.j - 1
        }),
        castle_crossed(fr, to) == castle_step(fr, to),
        to.j > fr.j ==> to.j < 7,
        to.j < fr.j ==> to.j > 0,
        b.piece_at(fr) matches Some(king) && king.kind == PieceKind::King && may_castle(
            b,
            fr,
            king,
            castle_corner(fr, to).j as int,
        ) && b.has_color(castle_corner(fr, to), king.color),
        b.piece_at(to) is None,
        b.piece_at(castle_crossed(fr, to)) is None,
{
    let king = b.piece_at(fr)->0;
    let c = king.color;
    let all = king_moves(b, fr, king);
    let near = leap(b, c, king_steps(fr));
    let east_at = seq![fr.shift(0, 2)];
    let west_at = seq![fr.shift(0, -2)];
    let east = if may_castle(b, fr, king, 7) {
        leap(b, c, east_at)
    } else {
        Seq::empty()
    };
    let west = if may_castle(b, fr, king, 0) {
        leap(b, c, west_at)
    } else {
        Seq::empty()
    };
    lemma_pseudo_lands(b, fr, to);
    assert(all == near + east + west);
    lemma_concat_contains(near + east, west, to);
    lemma_concat_contains(near, east, to);
    lemma_leap_contains(b, c, king_steps(fr), to);
    lemma_leap_contains(b, c, east_at, to);
    lemma_leap_contains(b, c, west_at, to);
    if near.contains(to) {
        let m = choose|m: int| 0 <= m < king_steps(fr).len() && king_steps(fr)[m] == to;
        assert(king_steps(fr)[m] == to);
        assert(false);
    }
    if east.contains(to) {
        let m = choose|m: int| 0 <= m < east_at.len() && east_at[m] == to;
        assert(east_at[m] == to);
        assert(to == fr.shift(0, 2));
        let corner = Position::at(fr.i as int, 7);
        assert(b.has_color(corner, c));
        assert(to != corner);
        assert(b.piece_at(to) is None);
        let crossed = Position::at(fr.i as int, fr.j + 1);
        assert(b.piece_at(crossed) is None);
    } else {
        assert(west.contains(to));
        let m = choose|m: int| 0 <= m < west_at.len() && west_at[m] == to;
        assert(west_at[m] == to);
        assert(to == fr.shift(0, -2));
        let corner = Position::at(fr.i as int, 0);
        assert(b.has_color(corner, c));
        assert(to != corner);
        assert(b.piece_at(to) is None);
        let crossed = Position::at(fr.i as int, fr.j - 1);
        assert(b.piece_at(crossed) is None);
    }
}

/// Every pseudo-legal move of a pawn goes one rank ahead, or two.
pub proof fn lemma_pawn_goes_ahead(b: BoardView, p: Position, pawn: Piece, t: Position)
    requires
        p.on_board(),
        pawn_moves(b, p, pawn).contains(t),
    ensures
        t == ahead(p, pawn.color, 1, 0) || t == ahead(p, pawn.color, 2, 0) || t == ahead(
            p,
            pawn.color,
            1,
            1,
        ) || t == ahead(p, pawn.color, 1, -1),
        t == ahead(p, pawn.color, 2, 0) ==> b.piece_at(t) is None && p.mirror(pawn.color).i == 1,
        t.i != p.i,
{
    let c = pawn.color;
    let adv = pawn_advances(b, p, pawn);
    let right = pawn_capture(b, c, ahead(p, c, 1, 1));
    let left = pawn_capture(b, c, ahead(p, c, 1, -1));
    let ep = en_passant(b, p, pawn);
    lemma_concat_contains(adv + right + left, ep, t);
    lemma_concat_contains(adv + right, left, t);
    lemma_concat_contains(adv, right, t);
    if adv.contains(t) {
        let k = choose|k: int| 0 <= k < adv.len() && adv[k] == t;
        assert(adv[k] == t);
    } else if right.contains(t) {
        let k = choose|k: int| 0 <= k < right.len() && right[k] == t;
        assert(right[k] == t);
    } else if left.contains(t) {
        let k = choose|k: int| 0 <= k < left.len() && left[k] == t;
        assert(left[k] == t);
    } else {
        let k = choose|k: int| 0 <= k < ep.len() && ep[k] == t;
        assert(ep[k] == t);
    }
}

/// Two boards that hold kings of `color` on the same squares have the
/// king of `color` on the same square.
proof fn lemma_king_square_alike(a: BoardView, b: BoardView, color: PieceColor)
    requires
        a.cells.len() == 64,
        b.cells.len() == 64,
        forall|q: Position| is_king(#[trigger] a.piece_at(q), color) == is_king(b.piece_at(q), color),
    ensures
        king_square(a, color) == king_square(b, color),
{
    assert forall|m: int| 0 <= m < 64 implies is_king(a.cells[m], color) == is_king(
        b.cells[m],
        color,
    ) by {
        let q = square(m);
        assert(q.on_board() && q.index() == m);
        assert(a.piece_at(q) == a.cells[m]);
        assert(b.piece_at(q) == b.cells[m]);
    }
    lemma_king_from_alike(a, b, color, 0);
}

/// For a pseudo-legal move that is no castling move, the board on which
/// the move is judged and the board once it has been played agree on
/// whether the mover's king is attacked.
proof fn lemma_plain_move_judged_as_played(b: BoardView, turn: PieceColor, fr: Position, to: Position)
    requires
        b.wf(),
        b.has_color(fr, turn),
        pseudo_moves(b, fr).contains(to),
        !is_castling(b, fr, to),
    ensures
        king_safe(simulate(b, fr, to), turn) == king_safe(after_move(b, fr, to), turn),
{
    lemma_pseudo_lands(b, fr, to);
    let mover = b.piece_at(fr)->0;
    let kind = move_kind(mover, b.piece_at(to), fr, to);
    let a = after_move(b, fr, to);
    let s = simulate(b, fr, to);
    let enemy = turn.opposite();
    let captured = Position::at(fr.i as int, to.j as int);
    let lifted = b.put(fr, None);
    lemma_put(b, fr, None);
    lemma_put(lifted, to, Some(mover));
    lemma_put(lifted, to, Some(touched(mover)));
    lemma_put(
        lifted,
        to,
        Some(Piece { kind: PieceKind::Queen, color: mover.color, moved: false }),
    );
    lemma_put(lifted.put(to, Some(mover)), captured, None);
    lemma_put(lifted.put(to, Some(touched(mover))), captured, None);
    if kind is EnPassant {
        lemma_pawn_goes_ahead(b, fr, mover, to);
    }
    assert forall|q: Position|
        {
            &&& #[trigger] stance(a, q) == stance(s, q)
            &&& a.has_color(q, enemy) ==> a.piece_at(q) == s.piece_at(q)
            &&& s.has_color(q, enemy) ==> a.piece_at(q) == s.piece_at(q)
            &&& is_king(a.piece_at(q), turn) == is_king(s.piece_at(q), turn)
        } by {
        assert(a.piece_at(q) == after_force(b, fr, to).piece_at(q));
    }
    assert(same_stance(a, s));
    assert(same_stance(s, a)) by {
        assert forall|q: Position| #[trigger] stance(s, q) == stance(a, q) by {
            assert(stance(a, q) == stance(s, q));
        }
    }
    assert(same_side(a, s, enemy));
    assert(same_side(s, a, enemy));
    lemma_king_square_alike(a, s, turn);
    lemma_king_square_is_first(a, turn);
    if king_square(a, turn) is Some {
        let k = king_square(a, turn)->0;
        assert(stance(a, k) == stance(s, k));
        if attacked(a, k, turn) {
            lemma_attack_carries(a, s, k, turn);
        }
        if attacked(s, k, turn) {
            lemma_attack_carries(s, a, k, turn);
        }
    }
}

/// A pseudo-legal move that is no castling move is legal exactly if the
/// mover's king is not attacked once the move has been applied.
pub proof fn lemma_plain_move_legal_iff_safe(b: BoardView, turn: PieceColor, fr: Position, to: Position)
    requires
        b.wf(),
        b.has_color(fr, turn),
        pseudo_moves(b, fr).contains(to),
        !is_castling(b, fr, to),
    ensures
        legal_moves(b, fr, turn).contains(to) <==> king_safe(after_move(b, fr, to), turn),
{
    lemma_legal_iff(b, fr, turn, to);
    lemma_plain_move_judged_as_played(b, turn, fr, to);
}

/// The setting of the lemmas on the castling rook: on `s` a rook of the
/// defender stands in the corner `corner` of a rank and the square
/// `crossed` of that rank is empty; `t` is another square of that rank,
/// not beyond the corner, with a piece of the defender on it; and `s2` is
/// `s` with the rook taken from the corner and put on `crossed`.
pub open spec fn rook_shifted(
    s: BoardView,
    s2: BoardView,
    corner: Position,
    crossed: Position,
    t: Position,
    defender: PieceColor,
) -> bool {
    &&& s.cells.len() == 64
    &&& s2.cells.len() == 64
    &&& corner.on_board() && crossed.on_board() && t.on_board()
    &&& corner.j == 0 || corner.j == 7
    &&& corner.i == t.i && crossed.i == t.i
    &&& t != corner && t != crossed && crossed != corner
    &&& s.has_color(corner, defender)
    &&& s.has_color(t, defender)
    &&& s.piece_at(crossed) is None
    &&& s2.has_color(crossed, defender)
    &&& s2.piece_at(corner) is None
    &&& forall|q: Position| q != corner && q != crossed ==> #[trigger] s2.piece_at(q) == s.piece_at(q)
}

/// A ray that reaches `t` once the castling rook has left its corner
/// reaches it with the rook still there: the corner lies on no way to `t`.
proof fn lemma_ray_behind_rook(
    s: BoardView,
    s2: BoardView,
    corner: Position,
    crossed: Position,
    t: Position,
    defender: PieceColor,
    q: Position,
    di: int,
    dj: int,
)
    requires
        rook_shifted(s, s2, corner, crossed, t, defender),
        q.on_board(),
        di != 0 || dj != 0,
        ray(s2, defender.opposite(), q, di, dj).contains(t),
    ensures
        ray(s, defender.opposite(), q, di, dj).contains(t),
{
    let e = defender.opposite();
    lemma_ray_contains(s2, e, q, di, dj, t);
    lemma_ray_contains(s, e, q, di, dj, t);
    let n = choose|n: int|
        {
            &&& 1 <= n <= reach(q, di, dj)
            &&& #[trigger] step(q, di, dj, n) == t
            &&& !s2.has_color(t, e)
            &&& forall|m: int| 1 <= m < n ==> s2.piece_at(#[trigger] step(q, di, dj, m)) is None
        };
    assert forall|m: int| 1 <= m < n implies s.piece_at(#[trigger] step(q, di, dj, m)) is None by {
        let on_way = step(q, di, dj, m);
        assert(s2.piece_at(on_way) is None);
        assert(on_way != crossed);
        if on_way == corner {
            // The corner and `t` share a rank, so the way runs along it,
            // and starts beyond the corner: outside the board.
            assert(di == 0);
            assert(false);
        }
    }
    assert(step(q, di, dj, n) == t);
}

/// The rays that reach `t` once the castling rook has left its corner
/// reach it with the rook still there.
proof fn lemma_rays_behind_rook(
    s: BoardView,
    s2: BoardView,
    corner: Position,
    crossed: Position,
    t: Position,
    defender: PieceColor,
    q: Position,
)
    requires
        rook_shifted(s, s2, corner, crossed, t, defender),
        q.on_board(),
    ensures
        vertical_rays(s2, defender.opposite(), q).contains(t) ==> vertical_rays(
            s,
            defender.opposite(),
            q,
        ).contains(t),
        horizontal_rays(s2, defender.opposite(), q).contains(t) ==> horizontal_rays(
            s,
            defender.opposite(),
            q,
        ).contains(t),
        diagonal_rays(s2, defender.opposite(), q).contains(t) ==> diagonal_rays(
            s,
            defender.opposite(),
            q,
        ).contains(t),
{
    let e = defender.opposite();
    lemma_concat_contains(ray(s2, e, q, 1, 0), ray(s2, e, q, -1, 0), t);
    lemma_concat_contains(ray(s, e, q, 1, 0), ray(s, e, q, -1, 0), t);
    if ray(s2, e, q, 1, 0).contains(t) {
        lemma_ray_behind_rook(s, s2, corner, crossed, t, defender, q, 1, 0);
    }
    if ray(s2, e, q, -1, 0).contains(t) {
        lemma_ray_behind_rook(s, s2, corner, crossed, t, defender, q, -1, 0);
    }
    lemma_concat_contains(ray(s2, e, q, 0, 1), ray(s2, e, q, 0, -1), t);
    lemma_concat_contains(ray(s, e, q, 0, 1), ray(s, e, q, 0, -1), t);
    if ray(s2, e, q, 0, 1).contains(t) {
        lemma_ray_behind_rook(s, s2, corner, crossed, t, defender, q, 0, 1);
    }
    if ray(s2, e, q, 0, -1).contains(t) {
        lemma_ray_behind_rook(s, s2, corner, crossed, t, defender, q, 0, -1);
    }
    lemma_concat_contains(
        ray(s2, e, q, 1, 1) + ray(s2, e, q, -1, -1) + ray(s2, e, q, 1, -1),
        ray(s2, e, q, -1, 1),
        t,
    );
    lemma_concat_contains(ray(s2, e, q, 1, 1) + ray(s2, e, q, -1, -1), ray(s2, e, q, 1, -1), t);
    lemma_concat_contains(ray(s2, e, q, 1, 1), ray(s2, e, q, -1, -1), t);
    lemma_concat_contains(
        ray(s, e, q, 1, 1) + ray(s, e, q, -1, -1) + ray(s, e, q, 1, -1),
        ray(s, e, q, -1, 1),
        t,
    );
    lemma_concat_contains(ray(s, e, q, 1, 1) + ray(s, e, q, -1, -1), ray(s, e, q, 1, -1), t);
    lemma_concat_contains(ray(s, e, q, 1, 1), ray(s, e, q, -1, -1), t);
    if ray(s2, e, q, 1, 1).contains(t) {
        lemma_ray_behind_rook(s, s2, corner, crossed, t, defender, q, 1, 1);
    }
    if ray(s2, e, q, -1, -1).contains(t) {
        lemma_ray_behind_rook(s, s2, corner, crossed, t, defender, q, -1, -1);
    }
    if ray(s2, e, q, 1, -1).contains(t) {
        lemma_ray_behind_rook(s, s2, corner, crossed, t, defender, q, 1, -1);
    }
    if ray(s2, e, q, -1, 1).contains(t) {
        lemma_ray_behind_rook(s, s2, corner, crossed, t, defender, q, -1, 1);
    }
}

/// A castling move of the other side never ends on an occupied square.
proof fn lemma_castle_lands_empty(b: BoardView, p: Position, king: Piece, corner: int, t: Position)
    requires
        b.cells.len() == 64,
        p.on_board(),
        corner == 0 || corner == 7,
        may_castle(b, p, king, corner),
        leap(
            b,
            king.color,
            seq![
                p.shift(
                    0,
                    if corner == 7 {
                        2int
                    } else {
                        -2int
                    },
                ),
            ],
        ).contains(t),
    ensures
        b.piece_at(t) is None,
{
    let at = seq![
        p.shift(
            0,
            if corner == 7 {
                2int
            } else {
                -2int
            },
        ),
    ];
    lemma_leap_contains(b, king.color, at, t);
    let m = choose|m: int| 0 <= m < at.len() && at[m] == t;
    assert(at[m] == t);
    let rook_at = Position::at(p.i as int, corner);
    assert(b.has_color(rook_at, king.color));
    assert(t != rook_at);
}

/// A king that may step or castle onto the occupied square `t` on one
/// board may do so on another on which the same stands on `t`.
proof fn lemma_king_reaches_alike(s2: BoardView, s: BoardView, q: Position, x: Piece, t: Position)
    requires
        s2.cells.len() == 64,
        q.on_board(),
        s2.piece_at(t) is Some,
        s2.piece_at(t) == s.piece_at(t),
        king_moves(s2, q, x).contains(t),
    ensures
        king_moves(s, q, x).contains(t),
{
    let e = x.color;
    let near2 = leap(s2, e, king_steps(q));
    let east2 = if may_castle(s2, q, x, 7) {
        leap(s2, e, seq![q.shift(0, 2)])
    } else {
        Seq::empty()
    };
    let west2 = if may_castle(s2, q, x, 0) {
        leap(s2, e, seq![q.shift(0, -2)])
    } else {
        Seq::empty()
    };
    lemma_concat_contains(near2 + east2, west2, t);
    lemma_concat_contains(near2, east2, t);
    if east2.contains(t) {
        lemma_castle_lands_empty(s2, q, x, 7, t);
    }
    if west2.contains(t) {
        lemma_castle_lands_empty(s2, q, x, 0, t);
    }
    assert(near2.contains(t));
    lemma_leap_contains(s2, e, king_steps(q), t);
    lemma_leap_contains(s, e, king_steps(q), t);
    let near = leap(s, e, king_steps(q));
    let east = if may_castle(s, q, x, 7) {
        leap(s, e, seq![q.shift(0, 2)])
    } else {
        Seq::empty()
    };
    let west = if may_castle(s, q, x, 0) {
        leap(s, e, seq![q.shift(0, -2)])
    } else {
        Seq::empty()
    };
    assert(near.contains(t));
    lemma_concat_contains(near + east, west, t);
    lemma_concat_contains(near, east, t);
}

/// A pawn that may move onto the occupied square `t` on one board may do
/// so on another on which the same stands on `t`: it captures there.
proof fn lemma_pawn_reaches_alike(s2: BoardView, s: BoardView, q: Position, x: Piece, t: Position)
    requires
        s2.piece_at(t) is Some,
        s2.piece_at(t) == s.piece_at(t),
        pawn_moves(s2, q, x).contains(t),
    ensures
        pawn_moves(s, q, x).contains(t),
{
    let e = x.color;
    let adv2 = pawn_advances(s2, q, x);
    let right2 = pawn_capture(s2, e, ahead(q, e, 1, 1));
    let left2 = pawn_capture(s2, e, ahead(q, e, 1, -1));
    let ep2 = en_passant(s2, q, x);
    lemma_concat_contains(adv2 + right2 + left2, ep2, t);
    lemma_concat_contains(adv2 + right2, left2, t);
    lemma_concat_contains(adv2, right2, t);
    if ep2.contains(t) {
        lemma_en_passant_lands_empty(s2, q, x, t);
    }
    if adv2.contains(t) {
        let k = choose|k: int| 0 <= k < adv2.len() && adv2[k] == t;
        assert(adv2[k] == t);
    }
    let adv = pawn_advances(s, q, x);
    let right = pawn_capture(s, e, ahead(q, e, 1, 1));
    let left = pawn_capture(s, e, ahead(q, e, 1, -1));
    let ep = en_passant(s, q, x);
    lemma_concat_contains(adv + right + left, ep, t);
    lemma_concat_contains(adv + right, left, t);
    lemma_concat_contains(adv, right, t);
    if right2.contains(t) {
        let k = choose|k: int| 0 <= k < right2.len() && right2[k] == t;
        assert(right2[k] == t);
        assert(right =~= seq![t]);
        assert(right[0] == t);
    } else {
        assert(left2.contains(t));
        let k = choose|k: int| 0 <= k < left2.len() && left2[k] == t;
        assert(left2[k] == t);
        assert(left =~= seq![t]);
        assert(left[0] == t);
    }
}

/// An enemy that has `t` among its pseudo-legal destinations once the
/// castling rook has left its corner has it with the rook still there.
proof fn lemma_move_behind_rook(
    s: BoardView,
    s2: BoardView,
    corner: Position,
    crossed: Position,
    t: Position,
    defender: PieceColor,
    q: Position,
)
    requires
        rook_shifted(s, s2, corner, crossed, t, defender),
        s2.has_color(q, defender.opposite()),
        pseudo_moves(s2, q).contains(t),
    ensures
        pseudo_moves(s, q).contains(t),
{
    let e = defender.opposite();
    let x = s2.piece_at(q)->0;
    assert(q != corner && q != crossed);
    assert(s.piece_at(q) == Some(x));
    assert(s2.piece_at(t) == s.piece_at(t));
    match x.kind {
        PieceKind::King => {
            lemma_king_reaches_alike(s2, s, q, x, t);
        },
        PieceKind::Knight => {
            lemma_leap_contains(s2, e, knight_jumps(q), t);
            lemma_leap_contains(s, e, knight_jumps(q), t);
        },
        PieceKind::Queen => {
            lemma_rays_behind_rook(s, s2, corner, crossed, t, defender, q);
            lemma_concat_contains(
                vertical_rays(s2, e, q) + horizontal_rays(s2, e, q),
                diagonal_rays(s2, e, q),
                t,
            );
            lemma_concat_contains(vertical_rays(s2, e, q), horizontal_rays(s2, e, q), t);
            lemma_concat_contains(
                vertical_rays(s, e, q) + horizontal_rays(s, e, q),
                diagonal_rays(s, e, q),
                t,
            );
            lemma_concat_contains(vertical_rays(s, e, q), horizontal_rays(s, e, q), t);
        },
        PieceKind::Rook => {
            lemma_rays_behind_rook(s, s2, corner, crossed, t, defender, q);
            lemma_concat_contains(vertical_rays(s2, e, q), horizontal_rays(s2, e, q), t);
            lemma_concat_contains(vertical_rays(s, e, q), horizontal_rays(s, e, q), t);
        },
        PieceKind::Bishop => {
            lemma_rays_behind_rook(s, s2, corner, crossed, t, defender, q);
        },
        PieceKind::Pawn => {
            lemma_pawn_reaches_alike(s2, s, q, x, t);
        },
    }
}

/// A legal castling move leaves the king unattacked, on a board with no
/// other king of its colour.
proof fn lemma_castling_keeps_king_safe(b: BoardView, turn: PieceColor, fr: Position, to: Position)
    requires
        b.wf(),
        legal_moves(b, fr, turn).contains(to),
        is_castling(b, fr, to),
        sole_king(b, turn),
    ensures
        king_safe(after_move(b, fr, to), turn),
{
    lemma_legal_iff(b, fr, turn, to);
    lemma_castle_facts(b, fr, to);
    let king = b.piece_at(fr)->0;
    let enemy = turn.opposite();
    let corner = castle_corner(fr, to);
    let crossed = castle_crossed(fr, to);
    let rook = b.piece_at(corner)->0;
    let a = after_move(b, fr, to);
    let s = simulate(b, fr, to);
    let lifted = b.put(fr, None);
    let placed = lifted.put(to, Some(touched(king)));
    let s2 = s.put(corner, None).put(crossed, Some(touched(rook)));
    lemma_put(b, fr, None);
    lemma_put(lifted, to, Some(king));
    lemma_put(lifted, to, Some(touched(king)));
    lemma_put(placed, corner, None);
    lemma_put(placed.put(corner, None), crossed, Some(touched(rook)));
    lemma_put(s, corner, None);
    lemma_put(s.put(corner, None), crossed, Some(touched(rook)));
    assert(placed.piece_at(corner) == Some(rook));
    assert(a.cells == placed.put(corner, None).put(crossed, Some(touched(rook))).cells);
    assert forall|q: Position|
        {
            &&& #[trigger] a.piece_at(q) == placed.put(corner, None).put(
                crossed,
                Some(touched(rook)),
            ).piece_at(q)
            &&& stance(a, q) == stance(s2, q)
            &&& a.has_color(q, enemy) ==> a.piece_at(q) == s2.piece_at(q)
            &&& s2.has_color(q, enemy) ==> a.piece_at(q) == s2.piece_at(q)
            &&& is_king(a.piece_at(q), turn) == is_king(s.piece_at(q), turn)
            &&& is_king(a.piece_at(q), turn) ==> q == to
        } by {
        if q != fr && q != to && q != corner && q != crossed {
            assert(a.piece_at(q) == b.piece_at(q));
            if is_king(b.piece_at(q), turn) {
                assert(is_king(b.piece_at(fr), turn));
            }
        }
    }
    assert forall|q: Position| #[trigger] stance(a, q) == stance(s2, q) by {
        assert(a.piece_at(q) == placed.put(corner, None).put(crossed, Some(touched(rook))).piece_at(
            q,
        ));
    }
    assert(same_stance(a, s2));
    assert(same_side(a, s2, enemy));
    assert(same_side(s2, a, enemy));
    assert(rook_shifted(s, s2, corner, crossed, to, turn));
    lemma_king_square_alike(a, s, turn);
    lemma_king_square_is_first(a, turn);
    if king_square(a, turn) is Some {
        let k = king_square(a, turn)->0;
        assert(k == to);
        if attacked(a, k, turn) {
            lemma_attack_carries(a, s2, k, turn);
            let q = choose|q: Position| attacks(s2, q, k, turn);
            lemma_move_behind_rook(s, s2, corner, crossed, k, turn, q);
            assert(attacks(s, q, k, turn));
        }
    }
}

/// Whether a king is attacked does not depend on the en passant
/// bookkeeping: two boards with the same pieces on the same squares agree
/// on it.
pub proof fn lemma_king_safety_is_in_the_cells(a: BoardView, b: BoardView, color: PieceColor)
    requires
        a.cells.len() == 64,
        a.cells == b.cells,
    ensures
        king_safe(a, color) == king_safe(b, color),
{
    assert forall|q: Position| #[trigger] stance(a, q) == stance(b, q) by {
        assert(a.piece_at(q) == b.piece_at(q));
    }
    assert(same_stance(b, a)) by {
        assert forall|q: Position| #[trigger] stance(b, q) == stance(a, q) by {
            assert(stance(a, q) == stance(b, q));
        }
    }
    assert forall|q: Position| #[trigger] a.piece_at(q) == b.piece_at(q) by {}
    assert forall|q: Position| #[trigger] b.piece_at(q) == a.piece_at(q) by {}
    lemma_king_square_alike(a, b, color);
    lemma_king_square_is_first(a, color);
    if king_square(a, color) is Some {
        let k = king_square(a, color)->0;
        if attacked(a, k, color) {
            lemma_attack_carries(a, b, k, color);
        }
        if attacked(b, k, color) {
            lemma_attack_carries(b, a, k, color);
        }
    }
}

/// No legal move leaves the mover's own king attacked: once the move has
/// been made, by `Board::move_piece` or by `move_force`, the king of the
/// side that moved is not in check.
///
/// A castling move is held to this on a board with one king of the mover's
/// colour at most. With a second king the rook that leaves its corner may
/// uncover the one that is looked up first.
pub proof fn lemma_legal_move_keeps_king_safe(b: BoardView, turn: PieceColor, fr: Position, to: Position)
    requires
        b.wf(),
        legal_moves(b, fr, turn).contains(to),
        is_castling(b, fr, to) ==> sole_king(b, turn),
    ensures
        king_safe(after_move(b, fr, to), turn),
        king_safe(after_force(b, fr, to), turn),
{
    if is_castling(b, fr, to) {
        lemma_castling_keeps_king_safe(b, turn, fr, to);
    } else {
        lemma_legal_iff(b, fr, turn, to);
        lemma_plain_move_legal_iff_safe(b, turn, fr, to);
    }
    lemma_after_move_wf(b, fr, to);
    lemma_king_safety_is_in_the_cells(after_force(b, fr, to), after_move(b, fr, to), turn);
}

/// The square that a pawn skips when it advances from `fr` to `to` by two ranks.
pub open spec fn skipped(fr: Position, to: Position) -> Position {
    Position::at((fr.i + to.i) / 2, to.j as int)
}

/// The en passant target lives for one ply: after a legal move it is the
/// pawn that has just advanced two ranks, if the move was that, and is
/// not set after any other move. The board stays well formed and settled,
/// and the target, when set, names a square with a pawn on it.
pub proof fn lemma_passant_lives_one_ply(b: BoardView, turn: PieceColor, fr: Position, to: Position)
    requires
        b.wf(),
        b.settled(),
        b.passant_sound(),
        legal_moves(b, fr, turn).contains(to),
    ensures
        after_move(b, fr, to).passant == (if is_double_step(b, fr, to) {
            Some(to)
        } else {
            None
        }),
        after_move(b, fr, to).wf(),
        after_move(b, fr, to).settled(),
        after_move(b, fr, to).passant_sound(),
{
    lemma_legal_iff(b, fr, turn, to);
    lemma_pseudo_lands(b, fr, to);
    lemma_after_move_wf(b, fr, to);
    let mover = b.piece_at(fr)->0;
    let lifted = b.put(fr, None);
    lemma_put(b, fr, None);
    lemma_put(lifted, to, Some(touched(mover)));
    if is_double_step(b, fr, to) {
        lemma_pawn_goes_ahead(b, fr, mover, to);
        assert(b.piece_at(to) is None);
    }
}

/// A move that is asked for leaves the board well formed and settled; the
/// bare move leaves it well formed, with the lifetime counter as it was.
pub proof fn lemma_after_move_wf(b: BoardView, fr: Position, to: Position)
    requires
        b.wf(),
    ensures
        after_move(b, fr, to).wf(),
        after_move(b, fr, to).settled(),
        after_force(b, fr, to).wf(),
        after_force(b, fr, to).lifetime == b.lifetime,
        after_force(b, fr, to).cells == after_move(b, fr, to).cells,
{
    if b.piece_at(fr) is Some {
        let mover = b.piece_at(fr)->0;
        let lifted = b.put(fr, None);
        let placed = lifted.put(to, Some(touched(mover)));
        let corner = castle_corner(fr, to);
        let crossed = castle_crossed(fr, to);
        lemma_put(b, fr, None);
        lemma_put(lifted, to, Some(touched(mover)));
        lemma_put(
            lifted,
            to,
            Some(Piece { kind: PieceKind::Queen, color: mover.color, moved: false }),
        );
        lemma_put(placed, Position::at(fr.i as int, to.j as int), None);
        lemma_put(placed, corner, None);
        if placed.piece_at(corner) is Some {
            lemma_put(placed.put(corner, None), crossed, Some(touched(placed.piece_at(corner)->0)));
        }
    }
}

/// Right after a pawn has advanced two ranks, an enemy pawn that stands
/// next to it on its rank may capture it en passant: the square that was
/// skipped is among that pawn's pseudo-legal destinations.
pub proof fn lemma_passant_capture_offered(
    b: BoardView,
    turn: PieceColor,
    fr: Position,
    to: Position,
    p: Position,
)
    requires
        b.wf(),
        b.settled(),
        b.passant_sound(),
        legal_moves(b, fr, turn).contains(to),
        is_double_step(b, fr, to),
        p.i == to.i,
        p.j == to.j + 1 || p.j == to.j - 1,
        after_move(b, fr, to).piece_at(p) matches Some(x) && x.kind == PieceKind::Pawn && x.color
            != turn,
    ensures
        pseudo_moves(after_move(b, fr, to), p).contains(skipped(fr, to)),
{
    lemma_passant_lives_one_ply(b, turn, fr, to);
    lemma_legal_iff(b, fr, turn, to);
    lemma_pseudo_lands(b, fr, to);
    let mover = b.piece_at(fr)->0;
    let a = after_move(b, fr, to);
    let x = a.piece_at(p)->0;
    let lifted = b.put(fr, None);
    lemma_put(b, fr, None);
    lemma_put(lifted, to, Some(touched(mover)));
    lemma_pawn_goes_ahead(b, fr, mover, to);
    let mid = skipped(fr, to);
    assert(to == ahead(fr, turn, 2, 0));
    assert(mid == ahead(fr, turn, 1, 0));
    let adv = pawn_advances(b, fr, mover);
    assert(pawn_moves(b, fr, mover).contains(to));
    lemma_en_route_empty(b, fr, mover, to);
    assert(b.piece_at(mid) is None);
    assert(a.piece_at(mid) is None);
    assert(a.piece_at(to) == Some(touched(mover)));
    assert(passant_open(a, p, x));
    assert(mid == ahead(p, x.color, 1, to.j - p.j));
    let ep = en_passant(a, p, x);
    assert(ep =~= seq![mid]);
    assert(ep[0] == mid);
    let core = pawn_advances(a, p, x) + pawn_capture(a, x.color, ahead(p, x.color, 1, 1))
        + pawn_capture(a, x.color, ahead(p, x.color, 1, -1));
    lemma_concat_contains(core, ep, mid);
}

/// A pawn advances two ranks over an empty square only.
proof fn lemma_en_route_empty(b: BoardView, fr: Position, pawn: Piece, to: Position)
    requires
        fr.on_board(),
        pawn_moves(b, fr, pawn).contains(to),
        to == ahead(fr, pawn.color, 2, 0),
    ensures
        b.piece_at(ahead(fr, pawn.color, 1, 0)) is None,
{
    let c = pawn.color;
    let adv = pawn_advances(b, fr, pawn);
    let right = pawn_capture(b, c, ahead(fr, c, 1, 1));
    let left = pawn_capture(b, c, ahead(fr, c, 1, -1));
    let ep = en_passant(b, fr, pawn);
    lemma_concat_contains(adv + right + left, ep, to);
    lemma_concat_contains(adv + right, left, to);
    lemma_concat_contains(adv, right, to);
    if right.contains(to) {
        let k = choose|k: int| 0 <= k < right.len() && right[k] == to;
        assert(right[k] == to);
    }
    if left.contains(to) {
        let k = choose|k: int| 0 <= k < left.len() && left[k] == to;
        assert(left[k] == to);
    }
    if ep.contains(to) {
        let k = choose|k: int| 0 <= k < ep.len() && ep[k] == to;
        assert(ep[k] == to);
    }
    assert(adv.contains(to));
    let k = choose|k: int| 0 <= k < adv.len() && adv[k] == to;
    assert(adv[k] == to);
}

/// Without an en passant target no pawn captures en passant.
pub proof fn lemma_no_target_no_capture(b: BoardView, p: Position, pawn: Piece)
    requires
        b.passant is None,
    ensures
        en_passant(b, p, pawn) == Seq::<Position>::empty(),
{
}

/// A pawn that reaches the last rank of its colour becomes a queen of its
/// colour, whatever stood on the square before, whether the move is made
/// by `Board::move_piece` or by `move_force`.
pub proof fn lemma_promotion_yields_queen(b: BoardView, fr: Position, to: Position)
    requires
        b.cells.len() == 64,
        b.piece_at(fr) matches Some(pawn) && pawn.kind == PieceKind::Pawn && to.mirror(pawn.color).i
            == 7,
        to.on_board(),
    ensures
        after_move(b, fr, to).piece_at(to) == Some(
            Piece { kind: PieceKind::Queen, color: b.piece_at(fr)->0.color, moved: false },
        ),
        after_force(b, fr, to).piece_at(to) == after_move(b, fr, to).piece_at(to),
{
    let pawn = b.piece_at(fr)->0;
    lemma_put(b, fr, None);
    lemma_put(
        b.put(fr, None),
        to,
        Some(Piece { kind: PieceKind::Queen, color: pawn.color, moved: false }),
    );
    assert(to.i == last_rank(pawn.color));
    assert(move_kind(pawn, b.piece_at(to), fr, to) is Promote);
}

/// The file that the king reaches when it castles from file `j` towards `corner`.
pub open spec fn castling_file(j: int, corner: int) -> int {
    if corner == 7 {
        j + 2
    } else {
        j - 2
    }
}

/// With a king and the rook in a corner of its rank both unmoved, and
/// every square between them empty, the king's move by two files towards
/// that rook is offered, where it ends between the two. When it is
/// played, by `move_force` or by `Board::move_piece`, the rook goes to the
/// square that the king has crossed, the corner and the king's square are
/// left empty, both pieces are marked as moved, and every other square is
/// as it was. Whether the move is legal is not asked.
pub proof fn lemma_castling_offered_and_played(b: BoardView, p: Position, corner: int)
    requires
        b.cells.len() == 64,
        p.on_board(),
        corner == 0 || corner == 7,
        b.piece_at(p) matches Some(king) && king.kind == PieceKind::King && may_castle(
            b,
            p,
            king,
            corner,
        ),
        0 < castling_file(p.j as int, corner) < 7,
    ensures
        pseudo_moves(b, p).contains(Position::at(p.i as int, castling_file(p.j as int, corner))),
        ({
            let to = Position::at(p.i as int, castling_file(p.j as int, corner));
            let after = after_force(b, p, to);
            &&& after_move(b, p, to).cells == after.cells
            &&& after.piece_at(to) == Some(touched(b.piece_at(p)->0))
            &&& after.piece_at(castle_crossed(p, to)) == Some(
                touched(b.piece_at(Position::at(p.i as int, corner))->0),
            )
            &&& castle_crossed(p, to) == Position::at(p.i as int, (p.j + to.j) / 2)
            &&& after.piece_at(p) is None
            &&& after.piece_at(Position::at(p.i as int, corner)) is None
            &&& forall|q: Position|
                q != p && q != to && q != castle_crossed(p, to) && q != Position::at(
                    p.i as int,
                    corner,
                ) ==> #[trigger] after.piece_at(q) == b.piece_at(q)
        }),
{
    let king = b.piece_at(p)->0;
    let c = king.color;
    let to = Position::at(p.i as int, castling_file(p.j as int, corner));
    let at = seq![to];
    let corner_at = Position::at(p.i as int, corner);
    let rook = b.piece_at(corner_at)->0;
    assert(b.piece_at(to) is None);
    assert(at[0] == to);
    lemma_leap_contains(b, c, at, to);
    let near = leap(b, c, king_steps(p));
    let east = if may_castle(b, p, king, 7) {
        leap(b, c, seq![p.shift(0, 2)])
    } else {
        Seq::empty()
    };
    let west = if may_castle(b, p, king, 0) {
        leap(b, c, seq![p.shift(0, -2)])
    } else {
        Seq::empty()
    };
    lemma_concat_contains(near + east, west, to);
    lemma_concat_contains(near, east, to);
    if corner == 7 {
        assert(at =~= seq![p.shift(0, 2)]);
    } else {
        assert(at =~= seq![p.shift(0, -2)]);
    }
    let lifted = b.put(p, None);
    let placed = lifted.put(to, Some(touched(king)));
    let crossed = castle_crossed(p, to);
    lemma_put(b, p, None);
    lemma_put(lifted, to, Some(touched(king)));
    lemma_put(placed, corner_at, None);
    lemma_put(placed.put(corner_at, None), crossed, Some(touched(rook)));
    assert(castle_corner(p, to) == corner_at);
    assert(placed.piece_at(corner_at) == Some(rook));
    assert(move_kind(king, b.piece_at(to), p, to) is Castle);
}

/// A side without a legal move is checkmated exactly if its king is
/// attacked; where the king is not attacked the side is stalemated, which
/// is no checkmate.
pub proof fn lemma_checkmate_or_stalemate(b: BoardView, color: PieceColor)
    requires
        immobile(b, color),
    ensures
        checkmated(b, color) <==> !king_safe(b, color),
{
}

/// The squares listed for a side are the squares on which its pieces stand.
pub proof fn lemma_pieces_of_contains(b: BoardView, color: PieceColor, p: Position)
    requires
        b.cells.len() == 64,
    ensures
        pieces_of(b, color).contains(p) <==> b.has_color(p, color),
{
    let pred = stands(b, color);
    let all = squares();
    if pieces_of(b, color).contains(p) {
        all.lemma_filter_contains_rev(pred, p);
        let k = choose|k: int| 0 <= k < all.filter(pred).len() && all.filter(pred)[k] == p;
        all.lemma_filter_pred(pred, k);
    }
    if b.has_color(p, color) {
        assert(all[p.index()] == p);
        assert(pred(all[p.index()]));
        all.lemma_filter_contains(pred, p.index());
    }
}

/// The king of a side is looked up on the first square, in rank-major
/// order, on which a king of that side stands; none is found exactly if
/// none stands on the board.
pub proof fn lemma_king_square_is_first(b: BoardView, color: PieceColor)
    requires
        b.cells.len() == 64,
    ensures
        match king_square(b, color) {
            Some(k) => {
                &&& k.on_board()
                &&& is_king(b.piece_at(k), color)
                &&& forall|q: Position|
                    q.on_board() && q.index() < k.index() ==> !is_king(#[trigger] b.piece_at(q), color)
            },
            None => forall|q: Position| !is_king(#[trigger] b.piece_at(q), color),
        },
{
    lemma_king_from_is_first(b, color, 0);
}

proof fn lemma_king_from_is_first(b: BoardView, color: PieceColor, k: int)
    requires
        b.cells.len() == 64,
        0 <= k <= 64,
    ensures
        match king_from(b, color, k) {
            Some(p) => {
                &&& p.on_board()
                &&& k <= p.index()
                &&& is_king(b.piece_at(p), color)
                &&& forall|q: Position|
                    q.on_board() && k <= q.index() < p.index() ==> !is_king(
                        #[trigger] b.piece_at(q),
                        color,
                    )
            },
            None => forall|q: Position|
                q.on_board() && k <= q.index() ==> !is_king(#[trigger] b.piece_at(q), color),
        },
    decreases 64 - k,
{
    if k < 64 {
        if is_king(b.cells[k], color) {
            assert(square(k).index() == k);
        } else {
            lemma_king_from_is_first(b, color, k + 1);
            assert forall|q: Position| q.on_board() && q.index() == k implies !is_king(
                #[trigger] b.piece_at(q),
                color,
            ) by {
                assert(b.piece_at(q) == b.cells[k]);
            }
        }
    }
}

} // verus!
