use jungle_chess::board::{
    get_other_player, is_coord_in_bounds, map_project, map_unproject, Board, Ground,
    IllegalMove, Piece, Player, TileCoord, TILES_W,
};

fn destinations_of(b: &Board, who: Player, at: TileCoord) -> Vec<TileCoord> {
    for (_, c, tos) in b.get_next_moves(who) {
        if c == at {
            return tos;
        }
    }
    Vec::new()
}

/// A board of the fixed terrain with no piece on it.
fn empty_board() -> Board {
    let mut b = Board::new();
    for y in 0..9isize {
        for x in 0..7isize {
            b = b.with_piece_at((x, y), None);
        }
    }
    b
}

#[test]
fn test_map_project() {
    assert_eq!(map_project((0, 0)), 0);
    assert_eq!(map_project((1, 0)), 1);
    assert_eq!(map_project((0, 1)), TILES_W);
    assert_eq!(map_project((1, 2)), 2 * TILES_W + 1);
}

#[test]
fn test_map_unproject() {
    assert_eq!(map_unproject(0), (0, 0));
    assert_eq!(map_unproject(TILES_W), (0, 1));
    assert_eq!(map_unproject(2 * TILES_W + 1), (1, 2));
    assert_eq!(map_unproject(4), (4, 0));
}

#[test]
fn test_get_player_pieces() {
    let b = Board::new();
    assert_eq!(
        vec![
            (Piece::Lion, (0, 0)),
            (Piece::Tiger, (6, 0)),
            (Piece::Dog, (1, 1)),
            (Piece::Cat, (5, 1)),
            (Piece::Rat, (0, 2)),
            (Piece::Leopard, (2, 2)),
            (Piece::Wolf, (4, 2)),
            (Piece::Elephant, (6, 2))
        ],
        b.get_player_pieces(Player::Player1)
    );
    assert_eq!(
        vec![
            (Piece::Elephant, (0, 6)),
            (Piece::Wolf, (2, 6)),
            (Piece::Leopard, (4, 6)),
            (Piece::Rat, (6, 6)),
            (Piece::Cat, (1, 7)),
            (Piece::Dog, (5, 7)),
            (Piece::Tiger, (0, 8)),
            (Piece::Lion, (6, 8))
        ],
        b.get_player_pieces(Player::Player2)
    );
}

#[test]
fn beats() {
    assert!(Piece::Elephant.beats(Piece::Lion));
    assert!(Piece::Elephant.beats(Piece::Elephant));
    assert!(Piece::Rat.beats(Piece::Elephant));
    assert!(Piece::Cat.beats(Piece::Rat));
    assert!(!(Piece::Elephant.beats(Piece::Rat)));
}

#[test]
fn iterates() {
    let b = Board::new();
    let mut it = b.iter();
    if let Some((coord, t)) = it.next() {
        assert_eq!(coord, (0, 0));
        assert_eq!(t, (Ground::Grass, Some((Player::Player1, Piece::Lion))));
    }

    let mut walk = b.iter();
    let mut count = 0;
    while walk.next().is_some() {
        // should terminate.
        count += 1;
    }
    assert_eq!(count, 63);

    let mut it = b.iter();
    let mut last = None;
    while let Some(item) = it.next() {
        last = Some(item);
    }
    assert_eq!(last, Some(((6, 8), (Ground::Grass, Some((Player::Player2, Piece::Lion))))));
}

#[test]
fn other_player_is_an_involution() {
    assert_eq!(get_other_player(Player::Player1), Player::Player2);
    assert_eq!(get_other_player(Player::Player2), Player::Player1);
    assert_eq!(get_other_player(get_other_player(Player::Player1)), Player::Player1);
}

#[test]
fn bounds_are_checked() {
    assert!(is_coord_in_bounds((0, 0)));
    assert!(is_coord_in_bounds((6, 8)));
    assert!(!is_coord_in_bounds((7, 0)));
    assert!(!is_coord_in_bounds((0, 9)));
    assert!(!is_coord_in_bounds((-1, 3)));
    assert_eq!(Board::new().get_piece_at((-1, 0)), None);
    assert_eq!(Board::new().get_piece_at((7, 8)), None);
}

#[test]
fn terrain_of_new_board() {
    let b = Board::new();
    let tiles: Vec<_> = {
        let mut it = b.iter();
        let mut v = Vec::new();
        while let Some(item) = it.next() {
            v.push(item);
        }
        v
    };
    let ground_at = |c: TileCoord| tiles[map_project(c)].1 .0;
    assert_eq!(ground_at((3, 0)), Ground::Den(Player::Player1));
    assert_eq!(ground_at((3, 8)), Ground::Den(Player::Player2));
    assert_eq!(ground_at((2, 0)), Ground::Trap(Player::Player1));
    assert_eq!(ground_at((4, 0)), Ground::Trap(Player::Player1));
    assert_eq!(ground_at((3, 1)), Ground::Trap(Player::Player1));
    assert_eq!(ground_at((2, 8)), Ground::Trap(Player::Player2));
    assert_eq!(ground_at((3, 7)), Ground::Trap(Player::Player2));
    let mut water = 0;
    for (c, (g, occ)) in &tiles {
        if *g == Ground::Water {
            water += 1;
            assert!(occ.is_none());
            assert!([1, 2, 4, 5].contains(&c.0) && (3..=5).contains(&c.1));
        }
    }
    assert_eq!(water, 12);
    assert_eq!(b.get_den_coord_of(Player::Player1), (3, 0));
    assert_eq!(b.get_den_coord_of(Player::Player2), (3, 8));
}

#[test]
fn start_position_is_point_symmetric() {
    let b = Board::new();
    for y in 0..9isize {
        for x in 0..7isize {
            match b.get_piece_at((x, y)) {
                Some((Player::Player1, p)) => {
                    assert_eq!(b.get_piece_at((6 - x, 8 - y)), Some((Player::Player2, p)))
                }
                Some((Player::Player2, p)) => {
                    assert_eq!(b.get_piece_at((6 - x, 8 - y)), Some((Player::Player1, p)))
                }
                None => assert_eq!(b.get_piece_at((6 - x, 8 - y)), None),
            }
        }
    }
}

#[test]
fn make_move_accepts_exactly_the_listed_moves() {
    let b = Board::new();
    let moves = b.get_next_moves(Player::Player1);
    let mut listed = 0;
    for (_, from, tos) in &moves {
        for to in tos {
            listed += 1;
            assert!(b.make_move(Player::Player1, *from, *to).is_ok());
        }
    }
    assert!(listed > 0);
    for y in 0..9isize {
        for x in 0..7isize {
            let from = (0, 2);
            let offered = destinations_of(&b, Player::Player1, from).contains(&(x, y));
            assert_eq!(b.make_move(Player::Player1, from, (x, y)).is_ok(), offered);
        }
    }
}

#[test]
fn illegal_move_is_rejected_with_its_cells() {
    let b = Board::new();
    // a Player2 piece cannot be moved by Player1
    assert_eq!(
        b.make_move(Player::Player1, (0, 6), (0, 5)).err(),
        Some(IllegalMove { from: (0, 6), to: (0, 5) })
    );
    // two cells at once is not a step
    assert_eq!(
        b.make_move(Player::Player1, (0, 2), (0, 4)).err(),
        Some(IllegalMove { from: (0, 2), to: (0, 4) })
    );
    // an empty cell
    assert!(b.make_move(Player::Player1, (3, 3), (3, 4)).is_err());
}

#[test]
fn rat_enters_the_lake() {
    let b = Board::new();
    let (next, winner, captured) = b.make_move(Player::Player1, (0, 2), (1, 2)).unwrap();
    assert_eq!(next.get_piece_at((0, 2)), None);
    assert_eq!(next.get_piece_at((1, 2)), Some((Player::Player1, Piece::Rat)));
    assert_eq!(winner, None);
    assert_eq!(captured, None);
    // the original board is untouched
    assert_eq!(b.get_piece_at((0, 2)), Some((Player::Player1, Piece::Rat)));
    // from (1, 2) the rat may swim into the lake at (1, 3)
    let (swum, _, _) = next.make_move(Player::Player1, (1, 2), (1, 3)).unwrap();
    assert_eq!(swum.get_piece_at((1, 3)), Some((Player::Player1, Piece::Rat)));
}

#[test]
fn elephant_is_not_offered_the_rat() {
    let b = empty_board()
        .with_piece_at((3, 3), Some((Player::Player1, Piece::Elephant)))
        .with_piece_at((3, 4), Some((Player::Player2, Piece::Rat)));
    let dests = destinations_of(&b, Player::Player1, (3, 3));
    assert!(!dests.contains(&(3, 4)));
    assert!(dests.contains(&(3, 2)));
    assert!(b.make_move(Player::Player1, (3, 3), (3, 4)).is_err());
    // the rat takes the elephant
    let rat_dests = destinations_of(&b, Player::Player2, (3, 4));
    assert!(rat_dests.contains(&(3, 3)));
    let (_, winner, captured) = b.make_move(Player::Player2, (3, 4), (3, 3)).unwrap();
    assert_eq!(captured, Some((Player::Player1, Piece::Elephant)));
    assert_eq!(winner, Some(Player::Player2));
}

#[test]
fn rank_decides_captures_on_grass() {
    let ranks = [
        Piece::Rat,
        Piece::Cat,
        Piece::Dog,
        Piece::Wolf,
        Piece::Leopard,
        Piece::Tiger,
        Piece::Lion,
        Piece::Elephant,
    ];
    for (i, a) in ranks.iter().enumerate() {
        for (j, d) in ranks.iter().enumerate() {
            let b = empty_board()
                .with_piece_at((3, 3), Some((Player::Player1, *a)))
                .with_piece_at((3, 4), Some((Player::Player2, *d)));
            let offered = destinations_of(&b, Player::Player1, (3, 3)).contains(&(3, 4));
            let expected = if *a == Piece::Rat && *d == Piece::Elephant {
                true
            } else if *a == Piece::Elephant && *d == Piece::Rat {
                false
            } else {
                i >= j
            };
            assert_eq!(offered, expected, "{:?} onto {:?}", a, d);
        }
    }
}

#[test]
fn own_pieces_are_never_captured() {
    let b = empty_board()
        .with_piece_at((3, 3), Some((Player::Player1, Piece::Elephant)))
        .with_piece_at((3, 4), Some((Player::Player1, Piece::Cat)));
    assert!(!destinations_of(&b, Player::Player1, (3, 3)).contains(&(3, 4)));
}

#[test]
fn only_rats_swim() {
    let b = Board::new();
    for who in [Player::Player1, Player::Player2] {
        for (p, _, tos) in b.get_next_moves(who) {
            for to in tos {
                let in_lake = [1, 2, 4, 5].contains(&to.0) && (3..=5).contains(&to.1);
                assert!(p == Piece::Rat || !in_lake);
            }
        }
    }
    let b = empty_board().with_piece_at((1, 2), Some((Player::Player1, Piece::Dog)));
    assert_eq!(destinations_of(&b, Player::Player1, (1, 2)), vec![(0, 2), (2, 2), (1, 1)]);
}

#[test]
fn rat_in_water() {
    // a rat in the lake may take a rat in the lake
    let b = empty_board()
        .with_piece_at((1, 3), Some((Player::Player1, Piece::Rat)))
        .with_piece_at((1, 4), Some((Player::Player2, Piece::Rat)))
        .with_piece_at((0, 3), Some((Player::Player2, Piece::Cat)));
    let dests = destinations_of(&b, Player::Player1, (1, 3));
    assert!(dests.contains(&(1, 4)));
    // but may not take anything while leaving the water
    assert!(!dests.contains(&(0, 3)));
    assert!(dests.contains(&(2, 3)));
    assert!(dests.contains(&(1, 2)));
    // and a rat on the bank may not take a rat in the water
    let b = empty_board()
        .with_piece_at((0, 3), Some((Player::Player1, Piece::Rat)))
        .with_piece_at((1, 3), Some((Player::Player2, Piece::Rat)));
    assert!(!destinations_of(&b, Player::Player1, (0, 3)).contains(&(1, 3)));
}

#[test]
fn tiger_leaps_unless_a_rat_swims_in_the_way() {
    let tiger_only = empty_board().with_piece_at((1, 2), Some((Player::Player1, Piece::Tiger)));
    let dests = destinations_of(&tiger_only, Player::Player1, (1, 2));
    assert_eq!(dests, vec![(0, 2), (2, 2), (1, 1), (1, 6)]);
    for lake_row in 3..=5isize {
        let blocked = tiger_only.with_piece_at((1, lake_row), Some((Player::Player2, Piece::Rat)));
        assert!(!destinations_of(&blocked, Player::Player1, (1, 2)).contains(&(1, 6)));
        let restored = blocked.with_piece_at((1, lake_row), None);
        assert!(destinations_of(&restored, Player::Player1, (1, 2)).contains(&(1, 6)));
    }
    // sideways over the two-wide lake
    let lion = empty_board().with_piece_at((0, 4), Some((Player::Player1, Piece::Lion)));
    assert!(destinations_of(&lion, Player::Player1, (0, 4)).contains(&(3, 4)));
    let blocked = lion.with_piece_at((2, 4), Some((Player::Player1, Piece::Rat)));
    assert!(!destinations_of(&blocked, Player::Player1, (0, 4)).contains(&(3, 4)));
    // a leopard does not leap
    let leopard = empty_board().with_piece_at((1, 2), Some((Player::Player1, Piece::Leopard)));
    assert_eq!(destinations_of(&leopard, Player::Player1, (1, 2)), vec![(0, 2), (2, 2), (1, 1)]);
}

#[test]
fn traps_and_dens() {
    // a piece of Player2 standing on a Player2 trap falls to any Player1 piece
    let b = empty_board()
        .with_piece_at((3, 6), Some((Player::Player1, Piece::Rat)))
        .with_piece_at((3, 7), Some((Player::Player2, Piece::Lion)));
    assert!(destinations_of(&b, Player::Player1, (3, 6)).contains(&(3, 7)));
    // a piece standing on the opponent's trap is not capturable
    let b = empty_board()
        .with_piece_at((3, 6), Some((Player::Player1, Piece::Elephant)))
        .with_piece_at((3, 7), Some((Player::Player1, Piece::Cat)))
        .with_piece_at((2, 7), Some((Player::Player2, Piece::Elephant)));
    assert!(!destinations_of(&b, Player::Player2, (2, 7)).contains(&(3, 7)));
    // one never enters one's own den
    let b = empty_board().with_piece_at((3, 1), Some((Player::Player1, Piece::Dog)));
    assert!(!destinations_of(&b, Player::Player1, (3, 1)).contains(&(3, 0)));
    // but always the opponent's
    let b = empty_board()
        .with_piece_at((3, 7), Some((Player::Player1, Piece::Rat)))
        .with_piece_at((0, 0), Some((Player::Player2, Piece::Rat)));
    let (after, winner, _) = b.make_move(Player::Player1, (3, 7), (3, 8)).unwrap();
    assert_eq!(winner, Some(Player::Player1));
    assert!(after.has_player_won(Player::Player1));
    assert!(after.is_game_over());
}

#[test]
fn win_detection() {
    let b = Board::new();
    assert!(!b.has_player_won(Player::Player1));
    assert!(!b.has_player_won(Player::Player2));
    assert!(!b.is_game_over());
    let in_den = b.with_piece_at((3, 8), Some((Player::Player1, Piece::Cat)));
    assert!(in_den.has_player_won(Player::Player1));
    assert!(!in_den.has_player_won(Player::Player2));
    let mut no_red = Board::new();
    for (_, c) in b.get_player_pieces(Player::Player2) {
        no_red = no_red.with_piece_at(c, None);
    }
    assert!(no_red.has_player_won(Player::Player1));
    assert!(no_red.is_game_over());
    assert!(!no_red.has_player_won(Player::Player2));
}

#[test]
fn capturing_the_last_piece_wins() {
    let b = empty_board()
        .with_piece_at((3, 3), Some((Player::Player1, Piece::Dog)))
        .with_piece_at((3, 4), Some((Player::Player2, Piece::Cat)));
    let (after, winner, captured) = b.make_move(Player::Player1, (3, 3), (3, 4)).unwrap();
    assert_eq!(captured, Some((Player::Player2, Piece::Cat)));
    assert_eq!(winner, Some(Player::Player1));
    assert!(after.get_player_pieces(Player::Player2).is_empty());
}

#[test]
fn destinations_are_neighbours_or_leaps_over_water() {
    let water = |c: TileCoord| [1, 2, 4, 5].contains(&c.0) && (3..=5).contains(&c.1);
    for (x, y) in [(0, 3), (3, 4), (6, 5), (1, 2), (2, 6), (4, 2), (5, 6)] {
        let b = empty_board().with_piece_at((x, y), Some((Player::Player1, Piece::Tiger)));
        for (_, c, tos) in b.get_next_moves(Player::Player1) {
            for d in tos {
                let (dx, dy) = (d.0 - c.0, d.1 - c.1);
                if dx.abs() + dy.abs() != 1 {
                    assert!((dx == 0 && dy.abs() == 4) || (dy == 0 && dx.abs() == 3));
                    let n = dx.abs().max(dy.abs());
                    for k in 1..n {
                        assert!(water((c.0 + dx / n * k, c.1 + dy / n * k)));
                    }
                    assert!(!water(d));
                }
            }
        }
    }
}
