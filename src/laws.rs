//! Properties of the rules engine that hold on every board.
use vstd::prelude::*;

use crate::board::{
    den_of, has_won, is_lake, may_stand, other, terrain, rank, spec_beats, start_tiles, tiles_wf, Ground, Piece,
    coord_of, idx, in_bounds, lemma_pieces_in, player_pieces, tile_at, Board, Player, Tile, TileCoord,
    TILES_COUNT,
};
use crate::rules::{
    can_step, destinations, is_leaper, is_legal_move, is_water, leap_allowed, leap_landing,
    leap_path_clear, leap_seq, leap_width, move_list, step_seq, moves_upto, next_moves, offered, shift,
};

verus! {

/// A cell inside the board is the cell of its own index.
proof fn lemma_coord_of_idx(c: TileCoord)
    requires
        in_bounds(c),
    ensures
        0 <= idx(c) < TILES_COUNT,
        coord_of(idx(c)) == c,
{
}

/// Both ends of a legal move lie on the board, and the moving piece may
/// stand where it lands.
pub(crate) proof fn lemma_legal_move_in_bounds(tiles: Seq<Tile>, who: Player, from: TileCoord, to: TileCoord)
    requires
        is_legal_move(tiles, who, from, to),
    ensures
        in_bounds(from),
        in_bounds(to),
        may_stand(tile_at(tiles, to).0, tile_at(tiles, from).1),
{
    let p = tile_at(tiles, from).1->Some_0.1;
    let d = destinations(tiles, who, p, from);
    let j = choose|j: int| 0 <= j < d.len() && d[j] == to;
    assert(can_step(tiles, who, p, from, d[j]));
    if p != Piece::Rat {
        lemma_destinations_dry(tiles, who, p, from, j);
    }
}

/// A pair is among the first `k` entries' moves exactly when one of those
/// entries has it as origin and one of its destinations.
proof fn lemma_moves_upto(nm: Seq<(Piece, TileCoord, Seq<TileCoord>)>, k: int, m: (TileCoord, TileCoord))
    requires
        0 <= k <= nm.len(),
    ensures
        moves_upto(nm, k).contains(m) <==> exists|i: int, j: int|
            0 <= i < k && nm[i].1 == m.0 && 0 <= j < nm[i].2.len() && #[trigger] nm[i].2[j] == m.1,
    decreases k,
{
    if k > 0 {
        lemma_moves_upto(nm, k - 1, m);
        let prev = moves_upto(nm, k - 1);
        let last = nm[k - 1].2.map_values(|d: TileCoord| (nm[k - 1].1, d));
        let cur = moves_upto(nm, k);
        assert(cur == prev + last);
        if cur.contains(m) {
            let x = choose|x: int| 0 <= x < cur.len() && cur[x] == m;
            if x >= prev.len() {
                let j = x - prev.len();
                assert(last[j] == m);
                assert(nm[k - 1].2[j] == m.1);
            } else {
                assert(prev[x] == m);
            }
        }
        if exists|i: int, j: int|
            0 <= i < k && nm[i].1 == m.0 && 0 <= j < nm[i].2.len() && #[trigger] nm[i].2[j] == m.1 {
            let (i, j) = choose|i: int, j: int|
                0 <= i < k && nm[i].1 == m.0 && 0 <= j < nm[i].2.len() && #[trigger] nm[i].2[j] == m.1;
            if i < k - 1 {
                let x = choose|x: int| 0 <= x < prev.len() && prev[x] == m;
                assert(cur[x] == m);
            } else {
                assert(last[j] == m);
                assert(cur[prev.len() + j] == m);
            }
        }
    }
}

/// The flat move list of `who` holds exactly the legal moves of `who`.
pub proof fn lemma_move_list(b: Board, who: Player, m: (TileCoord, TileCoord))
    requires
        b.wf(),
    ensures
        move_list(b@, who).contains(m) <==> is_legal_move(b@, who, m.0, m.1),
{
    let nm = next_moves(b@, who);
    lemma_moves_upto(nm, nm.len() as int, m);
    lemma_legality_closure(b, who, m.0, m.1);
}

/// `make_move` accepts exactly the moves that `get_next_moves` lists: a move
/// is listed if and only if a piece of the mover stands on its origin and may
/// go to its destination.
pub proof fn lemma_legality_closure(b: Board, who: Player, from: TileCoord, to: TileCoord)
    requires
        b.wf(),
    ensures
        offered(b@, who, from, to) <==> is_legal_move(b@, who, from, to),
{
    let tiles = b@;
    let ps = player_pieces(tiles, who);
    let nm = next_moves(tiles, who);
    lemma_pieces_in(tiles, who, TILES_COUNT as int);
    if offered(tiles, who, from, to) {
        let (k, j) = choose|k: int, j: int|
            0 <= k < nm.len() && nm[k].1 == from && 0 <= j < nm[k].2.len() && #[trigger] nm[k].2[j]
                == to;
        assert(ps[k].1 == from);
        assert(nm[k].2.contains(to));
    }
    if is_legal_move(tiles, who, from, to) {
        lemma_coord_of_idx(from);
        let i = idx(from);
        let p = tile_at(tiles, from).1->Some_0.1;
        assert(tiles[i].1 == Some((who, p)));
        assert(ps.contains((p, coord_of(i))));
        let k = choose|k: int| 0 <= k < ps.len() && ps[k] == (p, coord_of(i));
        let j = choose|j: int| 0 <= j < destinations(tiles, who, p, from).len() && destinations(tiles, who, p, from)[j] == to;
        assert(nm[k].2[j] == to);
    }
}

/// The cell mirrored through the centre of the board.
pub open spec fn mirror(c: TileCoord) -> TileCoord {
    ((6 - c.0) as isize, (8 - c.1) as isize)
}

/// The starting position is symmetric: a piece of Player1 stands on a cell
/// exactly when a piece of Player2 of the same kind stands on the mirrored
/// cell.
pub proof fn lemma_start_symmetric(c: TileCoord, p: Piece)
    requires
        in_bounds(c),
    ensures
        in_bounds(mirror(c)),
        tile_at(start_tiles(), c).1 == Some((Player::Player1, p)) <==> tile_at(
            start_tiles(),
            mirror(c),
        ).1 == Some((Player::Player2, p)),
{
    lemma_coord_of_idx(c);
    lemma_coord_of_idx(mirror(c));
}

/// A piece moving onto open ground held by the opponent captures exactly when
/// it beats the defender: an elephant never takes a rat, a rat always takes an
/// elephant, and otherwise the higher or equal rank wins. The one exception is
/// a rat leaving the water, which captures nothing.
pub proof fn lemma_rank_dominance(tiles: Seq<Tile>, who: Player, p: Piece, q: Piece, from: TileCoord, to: TileCoord)
    requires
        in_bounds(from),
        in_bounds(to),
        tile_at(tiles, to) == (Ground::Grass, Some((other(who), q))),
    ensures
        p == Piece::Elephant && q == Piece::Rat ==> !can_step(tiles, who, p, from, to),
        p == Piece::Rat && tile_at(tiles, from).0 == Ground::Water ==> !can_step(tiles, who, p, from, to),
        !(p == Piece::Rat && tile_at(tiles, from).0 == Ground::Water) ==> {
            &&& can_step(tiles, who, p, from, to) == spec_beats(p, q)
            &&& p == Piece::Rat && q == Piece::Elephant ==> can_step(tiles, who, p, from, to)
            &&& !(p == Piece::Rat && q == Piece::Elephant) && !(p == Piece::Elephant && q
                == Piece::Rat) ==> (can_step(tiles, who, p, from, to) <==> rank(p) >= rank(q))
        },
{
}

/// Only a rat ever enters the water: no destination listed for another piece
/// is a water cell.
pub proof fn lemma_water_exclusive(b: Board, who: Player, k: int, j: int)
    requires
        b.wf(),
        0 <= k < next_moves(b@, who).len(),
        next_moves(b@, who)[k].0 != Piece::Rat,
        0 <= j < next_moves(b@, who)[k].2.len(),
    ensures
        !is_water(b@, next_moves(b@, who)[k].2[j]),
{
    let e = next_moves(b@, who)[k];
    lemma_destinations_dry(b@, who, e.0, e.1, j);
}

proof fn lemma_destination_steps(tiles: Seq<Tile>, who: Player, p: Piece, c: TileCoord, j: int)
    requires
        0 <= j < destinations(tiles, who, p, c).len(),
    ensures
        can_step(tiles, who, p, c, destinations(tiles, who, p, c)[j]),
{
}

proof fn lemma_destinations_dry(tiles: Seq<Tile>, who: Player, p: Piece, c: TileCoord, j: int)
    requires
        p != Piece::Rat,
        0 <= j < destinations(tiles, who, p, c).len(),
    ensures
        !is_water(tiles, destinations(tiles, who, p, c)[j]),
{
    let d = destinations(tiles, who, p, c)[j];
    assert(can_step(tiles, who, p, c, d));
}

/// A tiger or a lion leaps over a lake exactly when no rat swims anywhere on
/// the water it crosses and it may land on the far bank: a rat on the path
/// removes the leap, and taking the rat away restores it.
pub proof fn lemma_leap_blocking(tiles: Seq<Tile>, who: Player, p: Piece, c: TileCoord, dx: int, dy: int)
    requires
        in_bounds(c),
        is_leaper(p),
        (dx == 0 && (dy == 1 || dy == -1)) || (dy == 0 && (dx == 1 || dx == -1)),
        is_water(tiles, shift(c, dx, dy)),
    ensures
        destinations(tiles, who, p, c).contains(leap_landing(c, dx, dy)) <==> (leap_path_clear(
            tiles,
            c,
            dx,
            dy,
        ) && can_step(tiles, who, p, c, leap_landing(c, dx, dy))),
{
    let d = destinations(tiles, who, p, c);
    let l = leap_landing(c, dx, dy);
    let s1 = step_seq(tiles, who, p, c, 0, 1);
    let s2 = step_seq(tiles, who, p, c, -1, 0);
    let s3 = step_seq(tiles, who, p, c, 1, 0);
    let s4 = step_seq(tiles, who, p, c, 0, -1);
    let l1 = leap_seq(tiles, who, p, c, 0, -1);
    let l2 = leap_seq(tiles, who, p, c, 0, 1);
    let l3 = leap_seq(tiles, who, p, c, -1, 0);
    let l4 = leap_seq(tiles, who, p, c, 1, 0);
    assert(d == s1 + s2 + s3 + s4 + l1 + l2 + l3 + l4);
    lemma_concat_contains(s1, s2, l);
    lemma_concat_contains(s1 + s2, s3, l);
    lemma_concat_contains(s1 + s2 + s3, s4, l);
    lemma_concat_contains(s1 + s2 + s3 + s4, l1, l);
    lemma_concat_contains(s1 + s2 + s3 + s4 + l1, l2, l);
    lemma_concat_contains(s1 + s2 + s3 + s4 + l1 + l2, l3, l);
    lemma_concat_contains(s1 + s2 + s3 + s4 + l1 + l2 + l3, l4, l);
    let own = leap_seq(tiles, who, p, c, dx, dy);
    assert(own.contains(l) <==> leap_allowed(tiles, who, p, c, dx, dy)) by {
        if leap_allowed(tiles, who, p, c, dx, dy) {
            assert(own[0] == l);
        }
    }
    assert(!s1.contains(l) && !s2.contains(l) && !s3.contains(l) && !s4.contains(l)) by {
        if s1.contains(l) {
            assert(s1[0] == l);
        }
        if s2.contains(l) {
            assert(s2[0] == l);
        }
        if s3.contains(l) {
            assert(s3[0] == l);
        }
        if s4.contains(l) {
            assert(s4[0] == l);
        }
    }
    assert(l1.contains(l) ==> dx == 0 && dy == -1) by {
        if l1.contains(l) {
            assert(l1[0] == l);
        }
    }
    assert(l2.contains(l) ==> dx == 0 && dy == 1) by {
        if l2.contains(l) {
            assert(l2[0] == l);
        }
    }
    assert(l3.contains(l) ==> dx == -1 && dy == 0) by {
        if l3.contains(l) {
            assert(l3[0] == l);
        }
    }
    assert(l4.contains(l) ==> dx == 1 && dy == 0) by {
        if l4.contains(l) {
            assert(l4[0] == l);
        }
    }
}

proof fn lemma_concat_contains(a: Seq<TileCoord>, b: Seq<TileCoord>, x: TileCoord)
    ensures
        (a + b).contains(x) <==> a.contains(x) || b.contains(x),
{
    if (a + b).contains(x) {
        let i = choose|i: int| 0 <= i < (a + b).len() && (a + b)[i] == x;
        if i >= a.len() {
            assert(b[i - a.len()] == x);
        }
    }
    if a.contains(x) {
        let i = choose|i: int| 0 <= i < a.len() && a[i] == x;
        assert((a + b)[i] == x);
    }
    if b.contains(x) {
        let i = choose|i: int| 0 <= i < b.len() && b[i] == x;
        assert((a + b)[a.len() + i] == x);
    }
}

/// Every cell a leap in direction (dx, dy) from `c` flies over is water.
pub open spec fn crosses_water(tiles: Seq<Tile>, c: TileCoord, dx: int, dy: int) -> bool {
    &&& is_water(tiles, shift(c, dx, dy))
    &&& is_water(tiles, shift(c, 2 * dx, 2 * dy))
    &&& (leap_width(dx) == 3 ==> is_water(tiles, shift(c, 3 * dx, 3 * dy)))
}

/// `d` is the landing cell of a leap from `c` in direction (dx, dy) over a
/// whole lake onto dry land.
pub open spec fn lands_across_lake(tiles: Seq<Tile>, c: TileCoord, d: TileCoord, dx: int, dy: int) -> bool {
    d == leap_landing(c, dx, dy) && crosses_water(tiles, c, dx, dy) && in_bounds(d) && !is_water(tiles, d)
}

/// Where the leaps in the four directions land.
proof fn lemma_leap_landings(c: TileCoord)
    ensures
        leap_landing(c, 0, 1) == shift(c, 0, 4),
        leap_landing(c, 0, -1) == shift(c, 0, -4),
        leap_landing(c, 1, 0) == shift(c, 3, 0),
        leap_landing(c, -1, 0) == shift(c, -3, 0),
{
    assert(leap_width(0) == 3);
    assert(leap_width(1) == 2);
    assert(leap_width(-1) == 2);
}

/// From dry land with water next to it, a lake spans the whole leap and the
/// far bank is dry land on the board.
proof fn lemma_lake_span(tiles: Seq<Tile>, c: TileCoord, dx: int, dy: int)
    requires
        tiles_wf(tiles),
        in_bounds(c),
        !is_water(tiles, c),
        (dx == 0 && (dy == 1 || dy == -1)) || (dy == 0 && (dx == 1 || dx == -1)),
        is_water(tiles, shift(c, dx, dy)),
    ensures
        lands_across_lake(tiles, c, leap_landing(c, dx, dy), dx, dy),
{
    let c1 = shift(c, dx, dy);
    let c2 = shift(c, 2 * dx, 2 * dy);
    let c3 = shift(c, 3 * dx, 3 * dy);
    let l = leap_landing(c, dx, dy);
    lemma_coord_of_idx(c);
    lemma_coord_of_idx(c1);
    assert(tiles[idx(c)].0 == terrain(c.0 as int, c.1 as int));
    assert(tiles[idx(c1)].0 == terrain(c1.0 as int, c1.1 as int));
    assert(is_lake(c1.0 as int, c1.1 as int));
    assert(!is_lake(c.0 as int, c.1 as int));
    lemma_leap_landings(c);
    if dx == 0 && dy == 1 {
        assert(c.1 == 2);
    } else if dx == 0 {
        assert(c.1 == 6);
    } else if dx == 1 {
        assert(c.0 == 0 || c.0 == 3);
    } else {
        assert(c.0 == 3 || c.0 == 6);
    }
    assert(in_bounds(c2) && in_bounds(l));
    lemma_coord_of_idx(c2);
    lemma_coord_of_idx(l);
    assert(tiles[idx(c2)].0 == terrain(c2.0 as int, c2.1 as int));
    assert(tiles[idx(l)].0 == terrain(l.0 as int, l.1 as int));
    if dx == 0 {
        assert(in_bounds(c3));
        lemma_coord_of_idx(c3);
        assert(tiles[idx(c3)].0 == terrain(c3.0 as int, c3.1 as int));
    }
}

/// Each destination listed for a piece is one of its four neighbours, or,
/// for a tiger or a lion, the far bank of a lake it leaps across.
pub proof fn lemma_destination_shape(b: Board, who: Player, k: int, j: int)
    requires
        b.wf(),
        0 <= k < next_moves(b@, who).len(),
        0 <= j < next_moves(b@, who)[k].2.len(),
    ensures
        ({
            let (p, c, ds) = next_moves(b@, who)[k];
            let d = ds[j];
            &&& in_bounds(d)
            &&& d == shift(c, 0, 1) || d == shift(c, -1, 0) || d == shift(c, 1, 0) || d == shift(c, 0, -1)
                || (is_leaper(p) && (lands_across_lake(b@, c, d, 0, -1) || lands_across_lake(b@, c, d, 0, 1)
                || lands_across_lake(b@, c, d, -1, 0) || lands_across_lake(b@, c, d, 1, 0)))
        }),
{
    let tiles = b@;
    let (p, c, ds) = next_moves(tiles, who)[k];
    let d = ds[j];
    lemma_pieces_in(tiles, who, TILES_COUNT as int);
    assert(player_pieces(tiles, who)[k] == (p, c));
    assert(tile_at(tiles, c).1 == Some((who, p)));
    assert(in_bounds(c));
    lemma_coord_of_idx(c);
    assert(ds == destinations(tiles, who, p, c));
    assert(ds.contains(d));
    assert(can_step(tiles, who, p, c, d)) by {
        lemma_destination_steps(tiles, who, p, c, j);
    }
    let s1 = step_seq(tiles, who, p, c, 0, 1);
    let s2 = step_seq(tiles, who, p, c, -1, 0);
    let s3 = step_seq(tiles, who, p, c, 1, 0);
    let s4 = step_seq(tiles, who, p, c, 0, -1);
    let l1 = leap_seq(tiles, who, p, c, 0, -1);
    let l2 = leap_seq(tiles, who, p, c, 0, 1);
    let l3 = leap_seq(tiles, who, p, c, -1, 0);
    let l4 = leap_seq(tiles, who, p, c, 1, 0);
    let steps = s1 + s2 + s3 + s4;
    lemma_concat_contains(s1, s2, d);
    lemma_concat_contains(s1 + s2, s3, d);
    lemma_concat_contains(s1 + s2 + s3, s4, d);
    if steps.contains(d) {
        if s1.contains(d) {
            assert(s1[0] == d);
        } else if s2.contains(d) {
            assert(s2[0] == d);
        } else if s3.contains(d) {
            assert(s3[0] == d);
        } else {
            assert(s4[0] == d);
        }
    } else {
        assert(is_leaper(p));
        assert(p != Piece::Rat);
        assert(!is_water(tiles, c));
        assert(ds == steps + l1 + l2 + l3 + l4);
        lemma_concat_contains(steps, l1, d);
        lemma_concat_contains(steps + l1, l2, d);
        lemma_concat_contains(steps + l1 + l2, l3, d);
        lemma_concat_contains(steps + l1 + l2 + l3, l4, d);
        if l1.contains(d) {
            assert(l1[0] == d);
            lemma_lake_span(tiles, c, 0, -1);
        } else if l2.contains(d) {
            assert(l2[0] == d);
            lemma_lake_span(tiles, c, 0, 1);
        } else if l3.contains(d) {
            assert(l3[0] == d);
            lemma_lake_span(tiles, c, -1, 0);
        } else {
            assert(l4.contains(d));
            assert(l4[0] == d);
            lemma_lake_span(tiles, c, 1, 0);
        }
    }
}

/// A player has won when one of their pieces stands on the opponent's den,
/// and when the opponent has no piece left on the board.
pub proof fn lemma_win_detection(tiles: Seq<Tile>, who: Player, p: Piece)
    requires
        tiles_wf(tiles),
    ensures
        tile_at(tiles, den_of(other(who))).1 == Some((who, p)) ==> has_won(tiles, who),
        (forall|i: int| 0 <= i < TILES_COUNT ==> !(#[trigger] tiles[i].1 matches Some((o, _)) && o == other(who)))
            ==> has_won(tiles, who),
{
    lemma_pieces_in(tiles, other(who), TILES_COUNT as int);
    let ps = player_pieces(tiles, other(who));
    if ps.len() > 0 {
        let e = ps[0];
        assert(tiles[idx(e.1)].1 == Some((other(who), e.0)));
    }
}

} // verus!
