//! Which steps and leaps a piece may make.
use vstd::prelude::*;

use crate::board::{
    in_bounds, player_pieces, spec_beats, tile_at, Ground, Piece, Player, Tile, TileCoord,
};

verus! {

/// Whether a piece `p` of `who` may go from a cell holding `from` to one
/// holding `to`. The first arm that matches decides.
pub open spec fn step_rule(who: Player, p: Piece, from: Tile, to: Tile) -> bool {
    match (p, from, to) {
        // a rat swims from water to water, and captures a rat swimming there
        (Piece::Rat, (Ground::Water, _), (Ground::Water, _)) => true,
        // a rat enters an empty lake cell from the bank
        (Piece::Rat, (Ground::Grass, _), (Ground::Water, None)) => true,
        (Piece::Rat, (Ground::Grass, _), (Ground::Water, Some(_))) => false,
        // a rat does not capture while leaving the water
        (Piece::Rat, (Ground::Water, _), (Ground::Grass, Some(_))) => false,
        // nothing else enters the water
        (_, _, (Ground::Water, _)) => false,
        (_, (Ground::Grass, _), (Ground::Grass, None)) => true,
        // a capture on open ground goes by rank, wherever the mover starts
        (_, _, (Ground::Grass, Some((owner, q)))) => owner != who && spec_beats(p, q),
        // a piece on its own side's trap falls to any opponent
        (_, _, (Ground::Trap(trap_owner), Some((owner, _)))) => trap_owner == owner && trap_owner != who,
        // the opponent's den may be entered, one's own never
        (_, _, (Ground::Den(den_owner), _)) => den_owner != who,
        _ => true,
    }
}

/// Step legality between two cells of a board.
pub open spec fn can_step(tiles: Seq<Tile>, who: Player, p: Piece, from: TileCoord, to: TileCoord) -> bool {
    in_bounds(from) && in_bounds(to) && step_rule(who, p, tile_at(tiles, from), tile_at(tiles, to))
}

pub open spec fn shift(c: TileCoord, dx: int, dy: int) -> TileCoord {
    ((c.0 + dx) as isize, (c.1 + dy) as isize)
}

pub open spec fn is_water(tiles: Seq<Tile>, c: TileCoord) -> bool {
    in_bounds(c) && tile_at(tiles, c).0 == Ground::Water
}

pub open spec fn is_rat(tiles: Seq<Tile>, c: TileCoord) -> bool {
    in_bounds(c) && match tile_at(tiles, c).1 {
        Some((_, p)) => p == Piece::Rat,
        None => false,
    }
}

pub open spec fn is_leaper(p: Piece) -> bool {
    p == Piece::Tiger || p == Piece::Lion
}

/// Number of water cells a leap in direction (dx, dy) crosses: lakes are two
/// columns wide and three rows tall.
pub open spec fn leap_width(dx: int) -> int {
    if dx == 0 {
        3
    } else {
        2
    }
}

/// Where a leap from `c` in direction (dx, dy) lands.
pub open spec fn leap_landing(c: TileCoord, dx: int, dy: int) -> TileCoord {
    shift(c, dx * (leap_width(dx) + 1), dy * (leap_width(dx) + 1))
}

/// No rat swims on the water a leap from `c` in direction (dx, dy) crosses.
pub open spec fn leap_path_clear(tiles: Seq<Tile>, c: TileCoord, dx: int, dy: int) -> bool {
    &&& !is_rat(tiles, shift(c, dx, dy))
    &&& !is_rat(tiles, shift(c, 2 * dx, 2 * dy))
    &&& (leap_width(dx) == 3 ==> !is_rat(tiles, shift(c, 3 * dx, 3 * dy)))
}

pub open spec fn leap_allowed(tiles: Seq<Tile>, who: Player, p: Piece, c: TileCoord, dx: int, dy: int) -> bool {
    &&& is_water(tiles, shift(c, dx, dy))
    &&& leap_path_clear(tiles, c, dx, dy)
    &&& can_step(tiles, who, p, c, leap_landing(c, dx, dy))
}

pub open spec fn step_seq(tiles: Seq<Tile>, who: Player, p: Piece, c: TileCoord, dx: int, dy: int) -> Seq<TileCoord> {
    if can_step(tiles, who, p, c, shift(c, dx, dy)) {
        seq![shift(c, dx, dy)]
    } else {
        seq![]
    }
}

pub open spec fn leap_seq(tiles: Seq<Tile>, who: Player, p: Piece, c: TileCoord, dx: int, dy: int) -> Seq<TileCoord> {
    if leap_allowed(tiles, who, p, c, dx, dy) {
        seq![leap_landing(c, dx, dy)]
    } else {
        seq![]
    }
}

/// Every cell a piece `p` of `who` at `c` may move to: the steps up, left,
/// right and down, then for a tiger or a lion the leaps down, up, left and
/// right.
pub open spec fn destinations(tiles: Seq<Tile>, who: Player, p: Piece, c: TileCoord) -> Seq<TileCoord> {
    let steps = step_seq(tiles, who, p, c, 0, 1) + step_seq(tiles, who, p, c, -1, 0)
        + step_seq(tiles, who, p, c, 1, 0) + step_seq(tiles, who, p, c, 0, -1);
    if is_leaper(p) {
        steps + leap_seq(tiles, who, p, c, 0, -1) + leap_seq(tiles, who, p, c, 0, 1)
            + leap_seq(tiles, who, p, c, -1, 0) + leap_seq(tiles, who, p, c, 1, 0)
    } else {
        steps
    }
}

/// What `legal_moves` reports: each piece of `who` in row-major order, with
/// its cell and its destinations.
pub open spec fn next_moves(tiles: Seq<Tile>, who: Player) -> Seq<(Piece, TileCoord, Seq<TileCoord>)> {
    player_pieces(tiles, who).map_values(
        |e: (Piece, TileCoord)| (e.0, e.1, destinations(tiles, who, e.0, e.1)),
    )
}

/// A move of `who` from `from` to `to` is legal: a piece of `who` stands on
/// `from` and may go to `to`.
pub open spec fn is_legal_move(tiles: Seq<Tile>, who: Player, from: TileCoord, to: TileCoord) -> bool {
    in_bounds(from) && match tile_at(tiles, from).1 {
        Some((owner, p)) => owner == who && destinations(tiles, who, p, from).contains(to),
        None => false,
    }
}

/// `get_next_moves` lists a move of `who` from `from` to `to`.
pub open spec fn offered(tiles: Seq<Tile>, who: Player, from: TileCoord, to: TileCoord) -> bool {
    exists|k: int, j: int|
        0 <= k < next_moves(tiles, who).len() && next_moves(tiles, who)[k].1 == from && 0 <= j
            < next_moves(tiles, who)[k].2.len() && #[trigger] next_moves(tiles, who)[k].2[j] == to
}

/// The moves listed by the first `k` entries of `nm`, as (origin, destination)
/// pairs, in order.
pub open spec fn moves_upto(nm: Seq<(Piece, TileCoord, Seq<TileCoord>)>, k: int) -> Seq<(TileCoord, TileCoord)>
    decreases k,
{
    if k <= 0 {
        seq![]
    } else {
        moves_upto(nm, k - 1) + nm[k - 1].2.map_values(|d: TileCoord| (nm[k - 1].1, d))
    }
}

/// Every move of `who`, piece by piece, in the order `get_next_moves` lists them.
pub open spec fn move_list(tiles: Seq<Tile>, who: Player) -> Seq<(TileCoord, TileCoord)> {
    moves_upto(next_moves(tiles, who), next_moves(tiles, who).len() as int)
}

/// Step legality on two tiles.
pub fn step_allowed(who: Player, p: Piece, from: Tile, to: Tile) -> (r: bool)
    ensures
        r == step_rule(who, p, from, to),
{
    match (p, from, to) {
        (Piece::Rat, (Ground::Water, _), (Ground::Water, _)) => true,
        (Piece::Rat, (Ground::Grass, _), (Ground::Water, None)) => true,
        (Piece::Rat, (Ground::Grass, _), (Ground::Water, Some(_))) => false,
        (Piece::Rat, (Ground::Water, _), (Ground::Grass, Some(_))) => false,
        (_, _, (Ground::Water, _)) => false,
        (_, (Ground::Grass, _), (Ground::Grass, None)) => true,
        (_, _, (Ground::Grass, Some((owner, q)))) => owner != who && p.beats(q),
        (_, _, (Ground::Trap(trap_owner), Some((owner, _)))) => trap_owner == owner && trap_owner != who,
        (_, _, (Ground::Den(den_owner), _)) => den_owner != who,
        _ => true,
    }
}

} // verus!
