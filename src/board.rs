//! Pieces, terrain and the board: its starting layout, its cells and the
//! moves its pieces may make.
use vstd::prelude::*;

use crate::laws::{lemma_legal_move_in_bounds, lemma_legality_closure};
use crate::rules::{
    can_step, destinations, is_legal_move, is_rat, is_water, leap_landing, leap_seq, next_moves,
    offered, shift, step_allowed, step_seq,
};

verus! {

/// The eight animals, weakest first.
#[derive(Debug, Copy, Clone, PartialEq, Eq, Structural)]
pub enum Piece {
    Rat,
    Cat,
    Dog,
    Wolf,
    Leopard,
    Tiger,
    Lion,
    Elephant,
}

/// Position of a piece in the order Rat < Cat < ... < Elephant.
pub open spec fn rank(p: Piece) -> int {
    match p {
        Piece::Rat => 0,
        Piece::Cat => 1,
        Piece::Dog => 2,
        Piece::Wolf => 3,
        Piece::Leopard => 4,
        Piece::Tiger => 5,
        Piece::Lion => 6,
        Piece::Elephant => 7,
    }
}

/// Whether a piece of kind `a` may capture a piece of kind `b` by rank alone.
pub open spec fn spec_beats(a: Piece, b: Piece) -> bool {
    if a == Piece::Rat && b == Piece::Elephant {
        true
    } else if a == Piece::Elephant && b == Piece::Rat {
        false
    } else {
        rank(a) >= rank(b)
    }
}

impl Piece {
    /// The piece's place in the rank order, from 0 for the rat to 7 for the
    /// elephant.
    pub fn rank_index(self) -> (r: u8)
        ensures
            r as int == rank(self),
    {
        match self {
            Piece::Rat => 0,
            Piece::Cat => 1,
            Piece::Dog => 2,
            Piece::Wolf => 3,
            Piece::Leopard => 4,
            Piece::Tiger => 5,
            Piece::Lion => 6,
            Piece::Elephant => 7,
        }
    }

    /// Whether this piece may capture `other` by rank.
    pub fn beats(self, other: Self) -> (r: bool)
        ensures
            r == spec_beats(self, other),
    {
        match (self, other) {
            (Piece::Rat, Piece::Elephant) => true,
            (Piece::Elephant, Piece::Rat) => false,
            (a, b) => a.rank_index() >= b.rank_index(),
        }
    }
}


/// The two sides. Player1 starts at the low rows, Player2 at the high rows.
#[derive(Debug, Copy, Clone, PartialEq, Eq, Structural)]
pub enum Player {
    Player1,
    Player2,
}

pub open spec fn other(p: Player) -> Player {
    match p {
        Player::Player1 => Player::Player2,
        Player::Player2 => Player::Player1,
    }
}

/// The opponent of `p`.
pub fn get_other_player(p: Player) -> (r: Player)
    ensures
        r == other(p),
        r != p,
{
    match p {
        Player::Player1 => Player::Player2,
        Player::Player2 => Player::Player1,
    }
}

/// Terrain of one cell.
#[derive(Debug, Copy, Clone, PartialEq, Eq, Structural)]
pub enum Ground {
    Grass,
    Water,
    Trap(Player),
    Den(Player),
}

/// A cell: its terrain and the piece standing on it, if any.
pub type Tile = (Ground, Option<(Player, Piece)>);

/// A cell's (column, row).
pub type TileCoord = (isize, isize);

pub const TILES_W: usize = 7;

pub const TILES_H: usize = 9;

pub const TILES_COUNT: usize = 63;

pub open spec fn in_bounds(c: TileCoord) -> bool {
    0 <= c.0 < TILES_W && 0 <= c.1 < TILES_H
}

/// Index of a cell in the row-major tile sequence.
pub open spec fn idx(c: TileCoord) -> int {
    c.1 * TILES_W + c.0
}

/// Cell of a row-major index.
pub open spec fn coord_of(i: int) -> TileCoord {
    ((i % TILES_W as int) as isize, (i / TILES_W as int) as isize)
}

/// Whether `c` is a cell of the board.
pub fn is_coord_in_bounds(c: TileCoord) -> (r: bool)
    ensures
        r == in_bounds(c),
{
    c.0 >= 0 && c.0 < (TILES_W as isize) && c.1 >= 0 && c.1 < (TILES_H as isize)
}

fn same_coord(a: TileCoord, b: TileCoord) -> (r: bool)
    ensures
        r == (a == b),
{
    a.0 == b.0 && a.1 == b.1
}

fn contains_coord(v: &Vec<TileCoord>, c: TileCoord) -> (r: bool)
    ensures
        r == v@.contains(c),
{
    let mut i: usize = 0;
    while i < v.len()
        invariant
            i <= v@.len(),
            forall|j: int| 0 <= j < i ==> v@[j] != c,
        decreases v.len() - i,
    {
        if same_coord(v[i], c) {
            return true;
        }
        i += 1;
    }
    false
}

fn copy_tiles(v: &Vec<Tile>) -> (r: Vec<Tile>)
    ensures
        r@ == v@,
{
    let mut r: Vec<Tile> = Vec::new();
    let mut i: usize = 0;
    while i < v.len()
        invariant
            i <= v@.len(),
            r@ == v@.subrange(0, i as int),
        decreases v.len() - i,
    {
        r.push(v[i]);
        assert(r@ =~= v@.subrange(0, i + 1));
        i += 1;
    }
    assert(r@ =~= v@);
    r
}

/// The row-major index of a cell.
pub fn map_project(c: TileCoord) -> (r: usize)
    requires
        in_bounds(c),
    ensures
        r as int == idx(c),
        r < TILES_COUNT,
{
    let row: isize = c.1 * (TILES_W as isize);
    (row + c.0) as usize
}

/// The cell of a row-major index.
pub fn map_unproject(i: usize) -> (r: TileCoord)
    ensures
        r == coord_of(i as int),
        i < TILES_COUNT ==> in_bounds(r) && idx(r) == i,
{
    ((i % TILES_W) as isize, (i / TILES_W) as isize)
}


/// Player1's starting piece at a cell; Player2's pieces are these mirrored
/// through the centre of the board.
pub open spec fn home_piece(x: int, y: int) -> Option<Piece> {
    if x == 0 && y == 0 {
        Some(Piece::Lion)
    } else if x == 6 && y == 0 {
        Some(Piece::Tiger)
    } else if x == 1 && y == 1 {
        Some(Piece::Dog)
    } else if x == 5 && y == 1 {
        Some(Piece::Cat)
    } else if x == 0 && y == 2 {
        Some(Piece::Rat)
    } else if x == 2 && y == 2 {
        Some(Piece::Leopard)
    } else if x == 4 && y == 2 {
        Some(Piece::Wolf)
    } else if x == 6 && y == 2 {
        Some(Piece::Elephant)
    } else {
        None
    }
}

/// The two lakes: columns 1-2 and 4-5, rows 3-5.
pub open spec fn is_lake(x: int, y: int) -> bool {
    (x == 1 || x == 2 || x == 4 || x == 5) && 3 <= y <= 5
}

/// Cells next to Player1's den that form its traps.
pub open spec fn is_home_trap(x: int, y: int) -> bool {
    (x == 2 && y == 0) || (x == 4 && y == 0) || (x == 3 && y == 1)
}

/// The fixed terrain of a cell.
pub open spec fn terrain(x: int, y: int) -> Ground {
    if x == 3 && y == 0 {
        Ground::Den(Player::Player1)
    } else if x == 3 && y == 8 {
        Ground::Den(Player::Player2)
    } else if is_home_trap(x, y) {
        Ground::Trap(Player::Player1)
    } else if is_home_trap(x, 8 - y) {
        Ground::Trap(Player::Player2)
    } else if is_lake(x, y) {
        Ground::Water
    } else {
        Ground::Grass
    }
}

/// The occupant of a cell at the start of a game.
pub open spec fn start_occupant(x: int, y: int) -> Option<(Player, Piece)> {
    match home_piece(x, y) {
        Some(p) => Some((Player::Player1, p)),
        None => match home_piece(6 - x, 8 - y) {
            Some(p) => Some((Player::Player2, p)),
            None => None,
        },
    }
}

/// The tiles of a new game, in row-major order.
pub open spec fn start_tiles() -> Seq<Tile> {
    Seq::new(
        TILES_COUNT as nat,
        |i: int| (terrain(coord_of(i).0 as int, coord_of(i).1 as int),
            start_occupant(coord_of(i).0 as int, coord_of(i).1 as int)),
    )
}

fn home_piece_at(x: isize, y: isize) -> (r: Option<Piece>)
    ensures
        r == home_piece(x as int, y as int),
{
    match (x, y) {
        (0, 0) => Some(Piece::Lion),
        (6, 0) => Some(Piece::Tiger),
        (1, 1) => Some(Piece::Dog),
        (5, 1) => Some(Piece::Cat),
        (0, 2) => Some(Piece::Rat),
        (2, 2) => Some(Piece::Leopard),
        (4, 2) => Some(Piece::Wolf),
        (6, 2) => Some(Piece::Elephant),
        _ => None,
    }
}

fn start_tile(x: isize, y: isize) -> (t: Tile)
    requires
        in_bounds((x, y)),
    ensures
        t == (terrain(x as int, y as int), start_occupant(x as int, y as int)),
{
    let ground = if x == 3 && y == 0 {
        Ground::Den(Player::Player1)
    } else if x == 3 && y == 8 {
        Ground::Den(Player::Player2)
    } else if (x == 2 && y == 0) || (x == 4 && y == 0) || (x == 3 && y == 1) {
        Ground::Trap(Player::Player1)
    } else if (x == 2 && y == 8) || (x == 4 && y == 8) || (x == 3 && y == 7) {
        Ground::Trap(Player::Player2)
    } else if (x == 1 || x == 2 || x == 4 || x == 5) && 3 <= y && y <= 5 {
        Ground::Water
    } else {
        Ground::Grass
    };
    let occupant = match home_piece_at(x, y) {
        Some(p) => Some((Player::Player1, p)),
        None => match home_piece_at(6 - x, 8 - y) {
            Some(p) => Some((Player::Player2, p)),
            None => None,
        },
    };
    (ground, occupant)
}

/// Builds the tiles of a new game.
pub fn init_map() -> (tiles: Vec<Tile>)
    ensures
        tiles@ == start_tiles(),
{
    let mut tiles: Vec<Tile> = Vec::new();
    let mut i: usize = 0;
    while i < TILES_COUNT
        invariant
            i <= TILES_COUNT,
            tiles@ == start_tiles().subrange(0, i as int),
        decreases TILES_COUNT - i,
    {
        let c = map_unproject(i);
        tiles.push(start_tile(c.0, c.1));
        assert(tiles@ =~= start_tiles().subrange(0, i + 1));
        i += 1;
    }
    assert(tiles@ =~= start_tiles());
    tiles
}


/// A snapshot of the game: terrain and occupancy of every cell.
#[derive(Debug, Clone)]
pub struct Board {
    tiles: Vec<Tile>,
}

/// Whether `occupant` may stand on ground `g`: only a rat swims.
pub open spec fn may_stand(g: Ground, occupant: Option<(Player, Piece)>) -> bool {
    g == Ground::Water ==> match occupant {
        Some((_, p)) => p == Piece::Rat,
        None => true,
    }
}

/// Tiles that form a board: one per cell, each cell with its fixed terrain,
/// and no piece but a rat in the water.
pub open spec fn tiles_wf(tiles: Seq<Tile>) -> bool {
    &&& tiles.len() == TILES_COUNT
    &&& forall|i: int|
        0 <= i < TILES_COUNT ==> {
            &&& (#[trigger] tiles[i]).0 == terrain(coord_of(i).0 as int, coord_of(i).1 as int)
            &&& may_stand(tiles[i].0, tiles[i].1)
        }
}

pub open spec fn tile_at(tiles: Seq<Tile>, c: TileCoord) -> Tile {
    tiles[idx(c)]
}

pub open spec fn den_of(who: Player) -> TileCoord {
    match who {
        Player::Player1 => (3, 0),
        Player::Player2 => (3, 8),
    }
}

/// The pieces of `who` among the first `n` cells, in row-major order.
pub open spec fn pieces_in(tiles: Seq<Tile>, who: Player, n: int) -> Seq<(Piece, TileCoord)>
    decreases n,
{
    if n <= 0 {
        seq![]
    } else {
        let prev = pieces_in(tiles, who, n - 1);
        match tiles[n - 1].1 {
            Some((owner, p)) => if owner == who {
                prev.push((p, coord_of(n - 1)))
            } else {
                prev
            },
            None => prev,
        }
    }
}

/// The pieces of `who` on the board, in row-major order.
pub open spec fn player_pieces(tiles: Seq<Tile>, who: Player) -> Seq<(Piece, TileCoord)> {
    pieces_in(tiles, who, TILES_COUNT as int)
}

/// `who` has won: a piece of theirs stands on the opponent's den, or the
/// opponent has no piece left.
pub open spec fn has_won(tiles: Seq<Tile>, who: Player) -> bool {
    ||| (match tile_at(tiles, den_of(other(who))).1 {
        Some((owner, _)) => owner == who,
        None => false,
    })
    ||| player_pieces(tiles, other(who)).len() == 0
}

/// What `pieces_in` holds: exactly the cells among the first `n` that hold a
/// piece of `who`, each once, in increasing index order.
pub proof fn lemma_pieces_in(tiles: Seq<Tile>, who: Player, n: int)
    requires
        0 <= n <= TILES_COUNT,
        tiles.len() == TILES_COUNT,
    ensures
        pieces_in(tiles, who, n).len() <= n,
        forall|k: int|
            #![trigger pieces_in(tiles, who, n)[k]]
            0 <= k < pieces_in(tiles, who, n).len() ==> {
                let e = pieces_in(tiles, who, n)[k];
                &&& in_bounds(e.1)
                &&& 0 <= idx(e.1) < n
                &&& coord_of(idx(e.1)) == e.1
                &&& tiles[idx(e.1)].1 == Some((who, e.0))
            },
        forall|k1: int, k2: int|
            #![trigger pieces_in(tiles, who, n)[k1], pieces_in(tiles, who, n)[k2]]
            0 <= k1 < k2 < pieces_in(tiles, who, n).len() ==> idx(pieces_in(tiles, who, n)[k1].1)
                < idx(pieces_in(tiles, who, n)[k2].1),
        forall|i: int|
            0 <= i < n ==> match #[trigger] tiles[i].1 {
                Some((owner, p)) => owner == who ==> pieces_in(tiles, who, n).contains((p, coord_of(i))),
                None => true,
            },
    decreases n,
{
    if n > 0 {
        lemma_pieces_in(tiles, who, n - 1);
        let prev = pieces_in(tiles, who, n - 1);
        let cur = pieces_in(tiles, who, n);
        let c = coord_of(n - 1);
        assert(in_bounds(c) && idx(c) == n - 1);
        assert forall|i: int|
            0 <= i < n && (#[trigger] tiles[i].1) is Some && tiles[i].1->Some_0.0 == who implies cur.contains(
                (tiles[i].1->Some_0.1, coord_of(i)),
            ) by {
            let p = tiles[i].1->Some_0.1;
            if i < n - 1 {
                let k = choose|k: int| 0 <= k < prev.len() && prev[k] == (p, coord_of(i));
                assert(cur[k] == prev[k]);
            } else {
                assert(cur[cur.len() - 1] == (p, coord_of(i)));
            }
        }
    }
}

/// The tiles after the piece on `from` moves to `to`, replacing whatever
/// stood there.
pub open spec fn apply_move(tiles: Seq<Tile>, from: TileCoord, to: TileCoord) -> Seq<Tile> {
    tiles.update(idx(from), (tiles[idx(from)].0, None)).update(
        idx(to),
        (tiles[idx(to)].0, tiles[idx(from)].1),
    )
}

/// The error of a move that `get_next_moves` does not offer.
#[derive(Debug, Copy, Clone, PartialEq, Eq)]
pub struct IllegalMove {
    pub from: TileCoord,
    pub to: TileCoord,
}

impl View for Board {
    type V = Seq<Tile>;

    closed spec fn view(&self) -> Seq<Tile> {
        self.tiles@
    }
}

impl Board {
    pub open spec fn wf(&self) -> bool {
        tiles_wf(self@)
    }

    pub fn new() -> (b: Self)
        ensures
            b.wf(),
            b@ == start_tiles(),
    {
        Board { tiles: init_map() }
    }

    pub fn get_den_coord_of(&self, who: Player) -> (r: TileCoord)
        ensures
            r == den_of(who),
    {
        match who {
            Player::Player1 => (3, 0),
            Player::Player2 => (3, (TILES_H - 1) as isize),
        }
    }

    pub fn get_piece_at(&self, at: TileCoord) -> (r: Option<(Player, Piece)>)
        requires
            self.wf(),
        ensures
            r == if in_bounds(at) {
                tile_at(self@, at).1
            } else {
                None
            },
    {
        if !is_coord_in_bounds(at) {
            None
        } else {
            self.tiles[map_project(at)].1
        }
    }

    /// The pieces of `who`, with their cells, in row-major order.
    pub fn get_player_pieces(&self, who: Player) -> (r: Vec<(Piece, TileCoord)>)
        requires
            self.wf(),
        ensures
            r@ == player_pieces(self@, who),
    {
        let mut r: Vec<(Piece, TileCoord)> = Vec::new();
        let mut i: usize = 0;
        while i < TILES_COUNT
            invariant
                self.wf(),
                i <= TILES_COUNT,
                r@ == pieces_in(self@, who, i as int),
            decreases TILES_COUNT - i,
        {
            match self.tiles[i].1 {
                Some((owner, p)) => {
                    if owner == who {
                        r.push((p, map_unproject(i)));
                    }
                },
                None => {},
            }
            i += 1;
        }
        r
    }

    pub fn has_player_won(&self, who: Player) -> (r: bool)
        requires
            self.wf(),
        ensures
            r == has_won(self@, who),
    {
        let opponent = get_other_player(who);
        match self.tiles[map_project(self.get_den_coord_of(opponent))].1 {
            Some((owner, _)) => if owner == who {
                true
            } else {
                self.get_player_pieces(opponent).len() == 0
            },
            None => self.get_player_pieces(opponent).len() == 0,
        }
    }

    pub fn is_game_over(&self) -> (r: bool)
        requires
            self.wf(),
        ensures
            r == (has_won(self@, Player::Player1) || has_won(self@, Player::Player2)),
    {
        self.has_player_won(Player::Player1) || self.has_player_won(Player::Player2)
    }

    /// The board after `who` moves the piece on `from` to `to`, with the
    /// winner if the move wins the game and the piece it captured, if any.
    pub fn make_move(&self, who: Player, from: TileCoord, to: TileCoord) -> (r: Result<
        (Board, Option<Player>, Option<(Player, Piece)>),
        IllegalMove,
    >)
        requires
            self.wf(),
        ensures
            r is Ok <==> is_legal_move(self@, who, from, to),
            r is Ok <==> offered(self@, who, from, to),
            r matches Ok(t) ==> {
                &&& t.0.wf()
                &&& t.0@ == apply_move(self@, from, to)
                &&& t.1 == if has_won(t.0@, who) {
                    Some(who)
                } else {
                    None
                }
                &&& t.2 == tile_at(self@, to).1
            },
            r matches Err(e) ==> e == (IllegalMove { from, to }),
    {
        let found = self.offers_move(who, from, to);
        proof {
            lemma_legality_closure(*self, who, from, to);
        }
        if !found {
            return Err(IllegalMove { from, to });
        }
        proof {
            lemma_legal_move_in_bounds(self@, who, from, to);
        }
        let captured = self.tiles[map_project(to)].1;
        let next_board = self.moved(from, to);
        let won = next_board.has_player_won(who);
        Ok((next_board, if won { Some(who) } else { None }, captured))
    }

    /// The same board with `occupant` standing on `at` instead of whatever
    /// stood there; the terrain stays.
    pub fn with_piece_at(&self, at: TileCoord, occupant: Option<(Player, Piece)>) -> (b: Board)
        requires
            self.wf(),
            in_bounds(at),
            may_stand(tile_at(self@, at).0, occupant),
        ensures
            b.wf(),
            b@ == self@.update(idx(at), (tile_at(self@, at).0, occupant)),
    {
        let mut tiles = copy_tiles(&self.tiles);
        let i = map_project(at);
        tiles.set(i, (self.tiles[i].0, occupant));
        Board { tiles }
    }

    /// Walks the cells in row-major order.
    pub fn iter(&self) -> (it: BoardIterator<'_>)
        requires
            self.wf(),
        ensures
            it.wf(),
            it@ == (self@, 0int),
    {
        BoardIterator { board: self, idx: 0 }
    }

    /// The board with the piece on `from` moved to `to`.
    fn moved(&self, from: TileCoord, to: TileCoord) -> (b: Board)
        requires
            self.wf(),
            in_bounds(from),
            in_bounds(to),
            may_stand(tile_at(self@, to).0, tile_at(self@, from).1),
        ensures
            b.wf(),
            b@ == apply_move(self@, from, to),
    {
        let mut tiles = copy_tiles(&self.tiles);
        let from_idx = map_project(from);
        let to_idx = map_project(to);
        let moving = self.tiles[from_idx].1;
        tiles.set(from_idx, (self.tiles[from_idx].0, None));
        tiles.set(to_idx, (self.tiles[to_idx].0, moving));
        Board { tiles }
    }

    /// Whether `get_next_moves` lists the move from `from` to `to`.
    fn offers_move(&self, who: Player, from: TileCoord, to: TileCoord) -> (found: bool)
        requires
            self.wf(),
        ensures
            found == offered(self@, who, from, to),
    {
        let moves = self.get_next_moves(who);
        let mut found = false;
        let mut k: usize = 0;
        while k < moves.len()
            invariant
                moves@.len() == next_moves(self@, who).len(),
                forall|m: int|
                    0 <= m < moves@.len() ==> (moves@[m].0, moves@[m].1, (#[trigger] moves@[m]).2@)
                        == next_moves(self@, who)[m],
                k <= moves@.len(),
                found <==> exists|m: int|
                    0 <= m < k && moves@[m].1 == from && (#[trigger] moves@[m].2@).contains(to),
            decreases moves.len() - k,
        {
            if same_coord(moves[k].1, from) && contains_coord(&moves[k].2, to) {
                found = true;
            }
            k += 1;
        }
        proof {
            let nm = next_moves(self@, who);
            if found {
                let m = choose|m: int|
                    0 <= m < k && moves@[m].1 == from && (#[trigger] moves@[m].2@).contains(to);
                assert(moves@[m].2@ == nm[m].2);
                let j = choose|j: int| 0 <= j < nm[m].2.len() && nm[m].2[j] == to;
                assert(nm[m].2[j] == to);
            }
            if offered(self@, who, from, to) {
                let (m, j) = choose|m: int, j: int|
                    0 <= m < nm.len() && nm[m].1 == from && 0 <= j < nm[m].2.len() && #[trigger] nm[m].2[j]
                        == to;
                assert(moves@[m].2@ == nm[m].2);
                assert(moves@[m].2@.contains(to));
            }
        }
        found
    }

    fn is_water_at(&self, c: TileCoord) -> (r: bool)
        requires
            self.wf(),
        ensures
            r == is_water(self@, c),
    {
        is_coord_in_bounds(c) && match self.tiles[map_project(c)].0 {
            Ground::Water => true,
            _ => false,
        }
    }

    fn is_rat_at(&self, c: TileCoord) -> (r: bool)
        requires
            self.wf(),
        ensures
            r == is_rat(self@, c),
    {
        is_coord_in_bounds(c) && match self.tiles[map_project(c)].1 {
            Some((_, Piece::Rat)) => true,
            _ => false,
        }
    }

    fn can_step_from_to(&self, who: Player, p: Piece, from: TileCoord, to: TileCoord) -> (r: bool)
        requires
            self.wf(),
        ensures
            r == can_step(self@, who, p, from, to),
    {
        is_coord_in_bounds(from) && is_coord_in_bounds(to) && step_allowed(
            who,
            p,
            self.tiles[map_project(from)],
            self.tiles[map_project(to)],
        )
    }

    /// Appends `c` shifted by (dx, dy) if the piece may step there.
    fn push_step(&self, who: Player, p: Piece, c: TileCoord, dx: isize, dy: isize, steps: &mut Vec<TileCoord>)
        requires
            self.wf(),
            in_bounds(c),
            -1 <= dx <= 1,
            -1 <= dy <= 1,
        ensures
            final(steps)@ == old(steps)@ + step_seq(self@, who, p, c, dx as int, dy as int),
    {
        let to = (c.0 + dx, c.1 + dy);
        if self.can_step_from_to(who, p, c, to) {
            steps.push(to);
        }
        assert(final(steps)@ =~= old(steps)@ + step_seq(self@, who, p, c, dx as int, dy as int));
    }

    /// Appends the landing cell of a leap from `c` over the lake in direction
    /// (dx, dy), if the leap is allowed.
    fn push_leap(&self, who: Player, p: Piece, c: TileCoord, dx: isize, dy: isize, steps: &mut Vec<TileCoord>)
        requires
            self.wf(),
            in_bounds(c),
            (dx == 0 && (dy == 1 || dy == -1)) || (dy == 0 && (dx == 1 || dx == -1)),
        ensures
            final(steps)@ == old(steps)@ + leap_seq(self@, who, p, c, dx as int, dy as int),
    {
        let first = (c.0 + dx, c.1 + dy);
        let second = (c.0 + 2 * dx, c.1 + 2 * dy);
        let third = (c.0 + 3 * dx, c.1 + 3 * dy);
        let vertical = dx == 0;
        let landing = if vertical {
            (c.0 + 4 * dx, c.1 + 4 * dy)
        } else {
            third
        };
        assert(first == shift(c, dx as int, dy as int));
        assert(second == shift(c, 2 * dx, 2 * dy));
        assert(third == shift(c, 3 * dx, 3 * dy));
        assert(landing == leap_landing(c, dx as int, dy as int)) by {
            if dx == 0 && dy == 1 {
                assert(leap_landing(c, 0, 1) == shift(c, 0, 4));
            } else if dx == 0 {
                assert(leap_landing(c, 0, -1) == shift(c, 0, -4));
            } else if dx == 1 {
                assert(leap_landing(c, 1, 0) == shift(c, 3, 0));
            } else {
                assert(leap_landing(c, -1, 0) == shift(c, -3, 0));
            }
        }
        if self.is_water_at(first) && !self.is_rat_at(first) && !self.is_rat_at(second) && (
        !vertical || !self.is_rat_at(third)) && self.can_step_from_to(who, p, c, landing) {
            steps.push(landing);
        }
        assert(final(steps)@ =~= old(steps)@ + leap_seq(self@, who, p, c, dx as int, dy as int));
    }

    /// Each piece of `who` with its cell and every cell it may move to.
    pub fn get_next_moves(&self, who: Player) -> (r: Vec<(Piece, TileCoord, Vec<TileCoord>)>)
        requires
            self.wf(),
        ensures
            r@.len() == next_moves(self@, who).len(),
            forall|k: int|
                0 <= k < r@.len() ==> (r@[k].0, r@[k].1, (#[trigger] r@[k]).2@) == next_moves(self@, who)[k],
    {
        let pieces = self.get_player_pieces(who);
        let mut r: Vec<(Piece, TileCoord, Vec<TileCoord>)> = Vec::new();
        let mut k: usize = 0;
        while k < pieces.len()
            invariant
                self.wf(),
                pieces@ == player_pieces(self@, who),
                k <= pieces@.len(),
                r@.len() == k,
                forall|j: int|
                    0 <= j < k ==> (r@[j].0, r@[j].1, (#[trigger] r@[j]).2@) == next_moves(self@, who)[j],
            decreases pieces.len() - k,
        {
            let (p, c) = pieces[k];
            assert(in_bounds(c)) by {
                lemma_pieces_in(self@, who, TILES_COUNT as int);
                assert(pieces@[k as int] == player_pieces(self@, who)[k as int]);
            }
            r.push((p, c, self.next_steps(who, p, c)));
            k += 1;
        }
        r
    }

    /// Every cell the piece `p` of `who` standing at `c` may move to.
    fn next_steps(&self, who: Player, p: Piece, c: TileCoord) -> (steps: Vec<TileCoord>)
        requires
            self.wf(),
            in_bounds(c),
        ensures
            steps@ == destinations(self@, who, p, c),
    {
        let mut steps: Vec<TileCoord> = Vec::new();
        self.push_step(who, p, c, 0, 1, &mut steps);
        self.push_step(who, p, c, -1, 0, &mut steps);
        self.push_step(who, p, c, 1, 0, &mut steps);
        self.push_step(who, p, c, 0, -1, &mut steps);
        match p {
            Piece::Tiger | Piece::Lion => {
                self.push_leap(who, p, c, 0, -1, &mut steps);
                self.push_leap(who, p, c, 0, 1, &mut steps);
                self.push_leap(who, p, c, -1, 0, &mut steps);
                self.push_leap(who, p, c, 1, 0, &mut steps);
            },
            _ => {},
        }
        assert(steps@ =~= destinations(self@, who, p, c));
        steps
    }
}


/// A walk over the cells of a board, each with its coordinate.
pub struct BoardIterator<'a> {
    board: &'a Board,
    idx: usize,
}

impl<'a> View for BoardIterator<'a> {
    /// The tiles walked over and the index of the next cell.
    type V = (Seq<Tile>, int);

    closed spec fn view(&self) -> (Seq<Tile>, int) {
        (self.board@, self.idx as int)
    }
}

impl<'a> BoardIterator<'a> {
    pub closed spec fn wf(&self) -> bool {
        self.board.wf() && self.idx <= TILES_COUNT
    }

    /// The next cell and its tile, or `None` once every cell was given.
    pub fn next(&mut self) -> (r: Option<(TileCoord, Tile)>)
        requires
            old(self).wf(),
        ensures
            final(self).wf(),
            final(self)@.0 == old(self)@.0,
            old(self)@.1 < TILES_COUNT ==> r == Some((coord_of(old(self)@.1), old(self)@.0[old(self)@.1]))
                && final(self)@.1 == old(self)@.1 + 1,
            old(self)@.1 >= TILES_COUNT ==> r is None && final(self)@.1 == old(self)@.1,
    {
        if self.idx >= TILES_COUNT {
            None
        } else {
            let result = Some((map_unproject(self.idx), self.board.tiles[self.idx]));
            self.idx += 1;
            result
        }
    }
}

} // verus!
