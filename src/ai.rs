//! Position scoring and the alpha-beta adversary.
use rand::seq::SliceRandom;
use vstd::prelude::*;

use crate::board::{
    apply_move, den_of, has_won, in_bounds, lemma_pieces_in, other, player_pieces, rank, Board, Piece,
    Player, Tile, TileCoord, TILES_COUNT, get_other_player,
};
use crate::laws::lemma_move_list;
use crate::rules::{is_legal_move, move_list, moves_upto, next_moves};

verus! {

/// A score on a scale with a bottom below and a top above every finite value.
#[derive(PartialEq, PartialOrd, Eq, Ord, Clone, Copy, Debug)]
pub enum Evaluation {
    MinusInfinity,
    Evaluation(i32),
    PlusInfinity,
}

/// The place of an evaluation on the integers, in the order of the scale.
pub open spec fn score(e: Evaluation) -> int {
    match e {
        Evaluation::MinusInfinity => i32::MIN - 1,
        Evaluation::Evaluation(v) => v as int,
        Evaluation::PlusInfinity => i32::MAX + 1,
    }
}

pub open spec fn abs(v: int) -> int {
    if v < 0 {
        -v
    } else {
        v
    }
}

pub open spec fn manhattan(a: TileCoord, b: TileCoord) -> int {
    abs(a.0 - b.0) + abs(a.1 - b.1)
}

/// The sum over the pieces of their rank index plus one.
pub open spec fn material(ps: Seq<(Piece, TileCoord)>) -> int
    decreases ps.len(),
{
    if ps.len() == 0 {
        0
    } else {
        material(ps.drop_last()) + rank(ps.last().0) + 1
    }
}

/// The sum over the pieces of their distance to `target`.
pub open spec fn distance_sum(ps: Seq<(Piece, TileCoord)>, target: TileCoord) -> int
    decreases ps.len(),
{
    if ps.len() == 0 {
        0
    } else {
        distance_sum(ps.drop_last(), target) + manhattan(ps.last().1, target)
    }
}

/// The heuristic value of a position without a winner, for `who`.
pub open spec fn heuristic(tiles: Seq<Tile>, who: Player) -> int {
    80 * material(player_pieces(tiles, who)) - distance_sum(player_pieces(tiles, who), den_of(other(who)))
}

/// The evaluation of a position for `who`.
pub open spec fn evaluation(tiles: Seq<Tile>, who: Player) -> Evaluation {
    if has_won(tiles, who) {
        Evaluation::PlusInfinity
    } else if has_won(tiles, other(who)) {
        Evaluation::MinusInfinity
    } else {
        Evaluation::Evaluation(heuristic(tiles, who) as i32)
    }
}

/// The number of orthogonal steps between two cells.
pub fn manhattan_distance(a: TileCoord, b: TileCoord) -> (r: isize)
    requires
        in_bounds(a),
        in_bounds(b),
    ensures
        r == manhattan(a, b),
{
    let dx = if a.0 >= b.0 {
        a.0 - b.0
    } else {
        b.0 - a.0
    };
    let dy = if a.1 >= b.1 {
        a.1 - b.1
    } else {
        b.1 - a.1
    };
    dx + dy
}

/// Scores a position for `who`: the top of the scale once `who` has won,
/// the bottom once the opponent has, and otherwise 80 points per rank step
/// of material less the distance of each piece to the opponent's den.
pub fn evaluate_board(board: &Board, who: Player) -> (r: Evaluation)
    requires
        board.wf(),
    ensures
        r == evaluation(board@, who),
        !has_won(board@, who) && !has_won(board@, other(who)) ==> i32::MIN <= heuristic(board@, who)
            <= i32::MAX,
{
    if board.has_player_won(who) {
        return Evaluation::PlusInfinity;
    } else if board.has_player_won(get_other_player(who)) {
        return Evaluation::MinusInfinity;
    }
    let our_pieces = board.get_player_pieces(who);
    let target = board.get_den_coord_of(get_other_player(who));
    proof {
        lemma_pieces_in(board@, who, TILES_COUNT as int);
    }
    let mut values: i32 = 0;
    let mut distances: i32 = 0;
    let mut i: usize = 0;
    while i < our_pieces.len()
        invariant
            our_pieces@ == player_pieces(board@, who),
            our_pieces@.len() <= TILES_COUNT,
            forall|k: int| 0 <= k < our_pieces@.len() ==> in_bounds(#[trigger] our_pieces@[k].1),
            target == den_of(other(who)),
            i <= our_pieces@.len(),
            values == material(our_pieces@.subrange(0, i as int)),
            distances == distance_sum(our_pieces@.subrange(0, i as int), target),
            0 <= values <= 8 * i,
            0 <= distances <= 14 * i,
        decreases our_pieces.len() - i,
    {
        let (p, c) = our_pieces[i];
        assert(our_pieces@.subrange(0, i + 1).drop_last() == our_pieces@.subrange(0, i as int));
        values = values + p.rank_index() as i32 + 1;
        distances = distances + manhattan_distance(c, target) as i32;
        i += 1;
    }
    assert(our_pieces@.subrange(0, i as int) == our_pieces@);
    Evaluation::Evaluation(values * 80 - distances)
}


pub open spec fn game_over(tiles: Seq<Tile>) -> bool {
    has_won(tiles, Player::Player1) || has_won(tiles, Player::Player2)
}

pub open spec fn max(a: int, b: int) -> int {
    if a >= b {
        a
    } else {
        b
    }
}

pub open spec fn min(a: int, b: int) -> int {
    if a <= b {
        a
    } else {
        b
    }
}

/// `x` brought into the window [lo, hi]; `lo` when the window is empty.
pub open spec fn clamp(x: int, lo: int, hi: int) -> int {
    max(lo, min(x, hi))
}

pub open spec fn mover(who: Player, maxing: bool) -> Player {
    if maxing {
        who
    } else {
        other(who)
    }
}

/// The full minimax value for `who` of a position, `horizon` plies deep, with
/// `who` to move when `maxing` and the opponent to move otherwise.
pub open spec fn minimax_value(tiles: Seq<Tile>, who: Player, horizon: int, maxing: bool) -> int
    decreases horizon, 1int, 0int,
{
    if horizon <= 0 || game_over(tiles) {
        score(evaluation(tiles, who))
    } else {
        best_of(tiles, who, horizon, maxing, move_list(tiles, mover(who, maxing)).len() as int)
    }
}

/// The best value, for the side to move, among the first `n` moves of the
/// position: the greatest when `maxing`, the least otherwise.
pub open spec fn best_of(tiles: Seq<Tile>, who: Player, horizon: int, maxing: bool, n: int) -> int
    decreases horizon, 0int, n,
{
    if n <= 0 || horizon <= 0 {
        if maxing {
            score(Evaluation::MinusInfinity)
        } else {
            score(Evaluation::PlusInfinity)
        }
    } else {
        let m = move_list(tiles, mover(who, maxing))[n - 1];
        let v = minimax_value(
            apply_move(tiles, m.0, m.1),
            who,
            horizon - 1,
            !maxing,
        );
        if maxing {
            max(best_of(tiles, who, horizon, maxing, n - 1), v)
        } else {
            min(best_of(tiles, who, horizon, maxing, n - 1), v)
        }
    }
}

/// One more move taken into account by `best_of`.
proof fn lemma_best_of_step(tiles: Seq<Tile>, who: Player, horizon: int, maxing: bool, n: int)
    requires
        0 <= n,
        0 < horizon,
    ensures
        ({
            let m = move_list(tiles, mover(who, maxing))[n];
            let v = minimax_value(apply_move(tiles, m.0, m.1), who, horizon - 1, !maxing);
            best_of(tiles, who, horizon, maxing, n + 1) == if maxing {
                max(best_of(tiles, who, horizon, maxing, n), v)
            } else {
                min(best_of(tiles, who, horizon, maxing, n), v)
            }
        }),
        best_of(tiles, who, horizon, maxing, 0) == if maxing {
            score(Evaluation::MinusInfinity)
        } else {
            score(Evaluation::PlusInfinity)
        },
{
}

/// What a fail-soft alpha-beta search promises of its result `r` for a
/// position of value `v`, searched with the window (lo, hi): a result at or
/// below `lo` bounds `v` from above, one at or above `hi` bounds it from below,
/// and one inside the window is exact.
pub open spec fn fail_soft(r: int, v: int, lo: int, hi: int) -> bool {
    &&& r <= lo ==> v <= r
    &&& r >= hi ==> v >= r
    &&& lo < r < hi ==> r == v
}

/// One more child of a maximizing node: `x` and `y` are the best result and
/// the best value so far, `e` and `v` those of the child.
proof fn lemma_max_step(lo: int, hi: int, x: int, y: int, e: int, v: int)
    requires
        lo < hi,
        max(lo, x) < hi,
        y <= x,
        x > lo ==> y >= x,
        fail_soft(e, v, max(lo, x), hi),
    ensures
        max(lo, max(x, e)) < hi ==> max(y, v) <= max(x, e) && (max(x, e) > lo ==> max(y, v) >= max(x, e)),
        max(lo, max(x, e)) >= hi ==> max(x, e) >= hi && max(y, v) >= max(x, e),
{
}

/// One more child of a minimizing node, as `lemma_max_step` with the roles of
/// the bounds exchanged.
proof fn lemma_min_step(lo: int, hi: int, x: int, y: int, e: int, v: int)
    requires
        lo < hi,
        lo < min(hi, x),
        y >= x,
        x < hi ==> y <= x,
        fail_soft(e, v, lo, min(hi, x)),
    ensures
        lo < min(hi, min(x, e)) ==> min(y, v) >= min(x, e) && (min(x, e) < hi ==> min(y, v) <= min(x, e)),
        lo >= min(hi, min(x, e)) ==> min(x, e) <= lo && min(y, v) <= min(x, e),
{
}

/// Taking more moves into account only improves the best value for the side
/// to move.
proof fn lemma_best_of_monotone(tiles: Seq<Tile>, who: Player, horizon: int, maxing: bool, i: int, n: int)
    requires
        0 <= i <= n,
    ensures
        maxing ==> best_of(tiles, who, horizon, maxing, i) <= best_of(tiles, who, horizon, maxing, n),
        !maxing ==> best_of(tiles, who, horizon, maxing, n) <= best_of(tiles, who, horizon, maxing, i),
    decreases n,
{
    if i < n {
        lemma_best_of_monotone(tiles, who, horizon, maxing, i, n - 1);
    }
}

fn eval_less(a: Evaluation, b: Evaluation) -> (r: bool)
    ensures
        r == (score(a) < score(b)),
{
    match (a, b) {
        (Evaluation::MinusInfinity, Evaluation::MinusInfinity) => false,
        (Evaluation::MinusInfinity, _) => true,
        (Evaluation::Evaluation(x), Evaluation::Evaluation(y)) => x < y,
        (Evaluation::Evaluation(_), Evaluation::PlusInfinity) => true,
        _ => false,
    }
}

fn eval_max(a: Evaluation, b: Evaluation) -> (r: Evaluation)
    ensures
        score(r) == max(score(a), score(b)),
{
    if eval_less(a, b) {
        b
    } else {
        a
    }
}

fn eval_min(a: Evaluation, b: Evaluation) -> (r: Evaluation)
    ensures
        score(r) == min(score(a), score(b)),
{
    if eval_less(b, a) {
        b
    } else {
        a
    }
}

/// Every minimax value lies on the scale of evaluations.
proof fn lemma_value_in_range(tiles: Seq<Tile>, who: Player, horizon: int, maxing: bool)
    ensures
        i32::MIN - 1 <= minimax_value(tiles, who, horizon, maxing) <= i32::MAX + 1,
    decreases horizon, 1int, 0int,
{
    if !(horizon <= 0 || game_over(tiles)) {
        lemma_best_of_in_range(
            tiles,
            who,
            horizon,
            maxing,
            move_list(tiles, mover(who, maxing)).len() as int,
        );
    }
}

proof fn lemma_best_of_in_range(tiles: Seq<Tile>, who: Player, horizon: int, maxing: bool, n: int)
    ensures
        i32::MIN - 1 <= best_of(tiles, who, horizon, maxing, n) <= i32::MAX + 1,
    decreases horizon, 0int, n,
{
    if n > 0 && horizon > 0 {
        let m = move_list(tiles, mover(who, maxing))[n - 1];
        lemma_best_of_in_range(tiles, who, horizon, maxing, n - 1);
        lemma_value_in_range(apply_move(tiles, m.0, m.1), who, horizon - 1, !maxing);
    }
}

/// Pruning does not change the result: what `minimax` returns with the full
/// window [MinusInfinity, PlusInfinity] is the full minimax value.
pub proof fn lemma_full_window_exact(tiles: Seq<Tile>, who: Player, horizon: int, maxing: bool, r: Evaluation)
    requires
        clamp(score(r), score(Evaluation::MinusInfinity), score(Evaluation::PlusInfinity)) == clamp(
            minimax_value(tiles, who, horizon, maxing),
            score(Evaluation::MinusInfinity),
            score(Evaluation::PlusInfinity),
        ),
    ensures
        score(r) == minimax_value(tiles, who, horizon, maxing),
{
    lemma_value_in_range(tiles, who, horizon, maxing);
}

/// `m` is a legal move of `who`.
pub open spec fn is_legal_pair(tiles: Seq<Tile>, who: Player, m: (TileCoord, TileCoord)) -> bool {
    is_legal_move(tiles, who, m.0, m.1)
}

/// The minimax value, for `who`, of the position after `who` plays `m`.
#[verifier::opaque]
pub open spec fn move_score(tiles: Seq<Tile>, who: Player, horizon: int, m: (TileCoord, TileCoord)) -> int {
    minimax_value(apply_move(tiles, m.0, m.1), who, horizon, false)
}

/// Searches the position after `who` plays the `i`-th move, with the full
/// window; `None` if that move is not legal.
fn score_move(board: &Board, who: Player, horizon: i32, moves: &Vec<(TileCoord, TileCoord)>, i: usize) -> (r: Option<Evaluation>)
    requires
        board.wf(),
        0 <= i < moves@.len(),
    ensures
        r is Some <==> is_legal_pair(board@, who, moves@[i as int]),
        r matches Some(e) ==> score(e) == move_score(board@, who, horizon as int, moves@[i as int]),
{
    let (from, to) = moves[i];
    match board.make_move(who, from, to) {
        Ok(played) => {
            let r = minimax(
                &played.0,
                who,
                horizon,
                Evaluation::MinusInfinity,
                Evaluation::PlusInfinity,
                false,
            );
            proof {
                lemma_full_window_exact(played.0@, who, horizon as int, false, r);
                reveal(move_score);
            }
            Some(r)
        },
        Err(_) => None,
    }
}

/// The first of the legal candidate moves whose search value is the greatest;
/// `None` when no candidate is legal.
pub fn best_move_among(board: &Board, who: Player, horizon: i32, candidates: &Vec<(TileCoord, TileCoord)>) -> (r: Option<(TileCoord, TileCoord)>)
    requires
        board.wf(),
    ensures
        r is None <==> forall|j: int| 0 <= j < candidates@.len() ==> !is_legal_pair(board@, who, #[trigger] candidates@[j]),
        r matches Some(m) ==> exists|i: int|
            0 <= i < candidates@.len() && candidates@[i] == m && is_legal_pair(board@, who, m) && (forall|j: int|
                0 <= j < candidates@.len() && is_legal_pair(board@, who, #[trigger] candidates@[j])
                    ==> move_score(board@, who, horizon as int, candidates@[j])
                    <= move_score(board@, who, horizon as int, m)) && (forall|j: int|
                0 <= j < i && is_legal_pair(board@, who, #[trigger] candidates@[j]) ==> move_score(board@, who, horizon as int, candidates@[j])
                    < move_score(board@, who, horizon as int, m)),
{
    let mut best: Option<(usize, Evaluation)> = None;
    let mut i: usize = 0;
    while i < candidates.len()
        invariant
            board.wf(),
            i <= candidates@.len(),
            best is None ==> forall|j: int| 0 <= j < i ==> !is_legal_pair(board@, who, #[trigger] candidates@[j]),
            best matches Some(be) ==> {
                let (k, e) = be;
                &&& k < i
                &&& is_legal_pair(board@, who, candidates@[k as int])
                &&& score(e) == move_score(board@, who, horizon as int, candidates@[k as int])
                &&& forall|j: int|
                    0 <= j < i && is_legal_pair(board@, who, #[trigger] candidates@[j]) ==> move_score(board@, who, horizon as int, candidates@[j])
                        <= score(e)
                &&& forall|j: int|
                    0 <= j < k && is_legal_pair(board@, who, #[trigger] candidates@[j]) ==> move_score(board@, who, horizon as int, candidates@[j])
                        < score(e)
            },
        decreases candidates.len() - i,
    {
        match score_move(board, who, horizon, candidates, i) {
            Some(eval) => {
                match best {
                    Some((_, best_eval)) => {
                        if eval_less(best_eval, eval) {
                            best = Some((i, eval));
                        }
                    },
                    None => {
                        best = Some((i, eval));
                    },
                }
            },
            None => {},
        }
        i += 1;
    }
    match best {
        Some((k, _)) => Some(candidates[k]),
        None => None,
    }
}

/// Relies on rand's `SliceRandom::shuffle`, driven by `rand::thread_rng`:
/// the moves end in some order, each as often as before.
#[verifier::external_body]
fn shuffle_moves(moves: &mut Vec<(TileCoord, TileCoord)>)
    ensures
        final(moves)@.to_multiset() == old(moves)@.to_multiset(),
{
    moves.shuffle(&mut rand::thread_rng());
}

/// A move for `who` whose search value, `horizon` plies past the move, is the
/// greatest among the legal moves; ties go to one of the best at random.
/// `None` exactly when `who` has no legal move.
pub fn get_ai_move(board: &Board, who: Player, horizon: i32) -> (r: Option<(TileCoord, TileCoord)>)
    requires
        board.wf(),
    ensures
        r is None <==> !exists|f: TileCoord, t: TileCoord| is_legal_move(board@, who, f, t),
        r matches Some(m) ==> {
            &&& is_legal_move(board@, who, m.0, m.1)
            &&& forall|f: TileCoord, t: TileCoord|
                is_legal_move(board@, who, f, t) ==> move_score(board@, who, horizon as int, (f, t))
                    <= move_score(board@, who, horizon as int, m)
        },
{
    let mut moves = all_moves(board, who);
    let ghost listed = moves@;
    shuffle_moves(&mut moves);
    proof {
        broadcast use vstd::seq_lib::group_to_multiset_ensures;

        assert forall|m: (TileCoord, TileCoord)| moves@.contains(m) <==> is_legal_move(board@, who, m.0, m.1) by {
            lemma_move_list(*board, who, m);
            assert(moves@.to_multiset().count(m) == listed.to_multiset().count(m));
        }
    }
    let r = best_move_among(board, who, horizon, &moves);
    proof {
        if exists|f: TileCoord, t: TileCoord| is_legal_move(board@, who, f, t) {
            let (f, t) = choose|f: TileCoord, t: TileCoord| is_legal_move(board@, who, f, t);
            assert(moves@.contains((f, t)));
            let j = choose|j: int| 0 <= j < moves@.len() && moves@[j] == (f, t);
            assert(is_legal_pair(board@, who, moves@[j]));
        }
        if r is Some {
            let m = r->Some_0;
            assert forall|f: TileCoord, t: TileCoord|
                is_legal_move(board@, who, f, t) implies move_score(board@, who, horizon as int, (f, t))
                    <= move_score(board@, who, horizon as int, m) by {
                assert(moves@.contains((f, t)));
                let j = choose|j: int| 0 <= j < moves@.len() && moves@[j] == (f, t);
                assert(is_legal_pair(board@, who, moves@[j]));
            }
        } else {
            assert forall|f: TileCoord, t: TileCoord| !is_legal_move(board@, who, f, t) by {
                if is_legal_move(board@, who, f, t) {
                    assert(moves@.contains((f, t)));
                    let j = choose|j: int| 0 <= j < moves@.len() && moves@[j] == (f, t);
                    assert(is_legal_pair(board@, who, moves@[j]));
                }
            }
        }
    }
    r
}

/// Alpha-beta search, fail-soft: inside the window (alpha, beta) the result
/// is the full minimax value of the position, and outside it bounds that value.
/// A position at the horizon or already won gets its evaluation; a side to
/// move without a move gets the bottom of the scale when maximizing and the
/// top when minimizing.
pub fn minimax(
    board: &Board,
    who: Player,
    horizon: i32,
    alpha: Evaluation,
    beta: Evaluation,
    maxing: bool,
) -> (r: Evaluation)
    requires
        board.wf(),
    ensures
        clamp(score(r), score(alpha), score(beta)) == clamp(
            minimax_value(board@, who, horizon as int, maxing),
            score(alpha),
            score(beta),
        ),
        score(alpha) < score(beta) ==> fail_soft(
            score(r),
            minimax_value(board@, who, horizon as int, maxing),
            score(alpha),
            score(beta),
        ),
        horizon <= 0 || game_over(board@) ==> r == evaluation(board@, who),
        horizon > 0 && !game_over(board@) && move_list(board@, mover(who, maxing)).len() == 0 ==> r
            == if maxing {
            Evaluation::MinusInfinity
        } else {
            Evaluation::PlusInfinity
        },
    decreases horizon,
{
    if horizon <= 0 || board.is_game_over() {
        return evaluate_board(board, who);
    }
    let ghost lo = score(alpha);
    let ghost hi = score(beta);
    let mut mut_alpha = alpha;
    let mut mut_beta = beta;
    if maxing {
        let moves = all_moves(board, who);
        let mut max_eval = Evaluation::MinusInfinity;
        let mut pruned = false;
        let mut i: usize = 0;
        while i < moves.len() && !pruned
            invariant
                board.wf(),
                0 < horizon,
                maxing,
                moves@ == move_list(board@, who),
                i <= moves@.len(),
                i == 0 ==> max_eval == Evaluation::MinusInfinity && !pruned,
                lo == score(alpha),
                hi == score(beta),
                score(mut_alpha) == max(lo, score(max_eval)),
                mut_beta == beta,
                lo < hi && !pruned ==> {
                    &&& score(mut_alpha) < hi
                    &&& best_of(board@, who, horizon as int, true, i as int) <= score(max_eval)
                    &&& score(max_eval) > lo ==> best_of(board@, who, horizon as int, true, i as int)
                        >= score(max_eval)
                },
                lo < hi && pruned ==> {
                    &&& score(max_eval) >= hi
                    &&& best_of(board@, who, horizon as int, true, i as int) >= score(max_eval)
                },
            decreases moves.len() - i,
        {
            let next_board = apply_listed_move(board, who, &moves, i);
            let eval = minimax(&next_board, who, horizon - 1, mut_alpha, mut_beta, false);
            proof {
                lemma_best_of_step(board@, who, horizon as int, true, i as int);
                if lo < hi {
                    lemma_max_step(
                        lo,
                        hi,
                        score(max_eval),
                        best_of(board@, who, horizon as int, true, i as int),
                        score(eval),
                        minimax_value(next_board@, who, horizon - 1, false),
                    );
                }
            }
            max_eval = eval_max(max_eval, eval);
            mut_alpha = eval_max(mut_alpha, eval);
            if !eval_less(mut_alpha, mut_beta) {
                pruned = true;
            }
            i += 1;
        }
        proof {
            if pruned && lo < hi {
                lemma_best_of_monotone(board@, who, horizon as int, true, i as int, moves@.len() as int);
            }
        }
        max_eval
    } else {
        let other_player = get_other_player(who);
        let moves = all_moves(board, other_player);
        let mut min_eval = Evaluation::PlusInfinity;
        let mut pruned = false;
        let mut i: usize = 0;
        while i < moves.len() && !pruned
            invariant
                board.wf(),
                0 < horizon,
                !maxing,
                other_player == other(who),
                moves@ == move_list(board@, other_player),
                i <= moves@.len(),
                i == 0 ==> min_eval == Evaluation::PlusInfinity && !pruned,
                lo == score(alpha),
                hi == score(beta),
                score(mut_beta) == min(hi, score(min_eval)),
                mut_alpha == alpha,
                lo < hi && !pruned ==> {
                    &&& lo < score(mut_beta)
                    &&& best_of(board@, who, horizon as int, false, i as int) >= score(min_eval)
                    &&& score(min_eval) < hi ==> best_of(board@, who, horizon as int, false, i as int)
                        <= score(min_eval)
                },
                lo < hi && pruned ==> {
                    &&& score(min_eval) <= lo
                    &&& best_of(board@, who, horizon as int, false, i as int) <= score(min_eval)
                },
            decreases moves.len() - i,
        {
            let next_board = apply_listed_move(board, other_player, &moves, i);
            let eval = minimax(&next_board, who, horizon - 1, mut_alpha, mut_beta, true);
            proof {
                lemma_best_of_step(board@, who, horizon as int, false, i as int);
                if lo < hi {
                    lemma_min_step(
                        lo,
                        hi,
                        score(min_eval),
                        best_of(board@, who, horizon as int, false, i as int),
                        score(eval),
                        minimax_value(next_board@, who, horizon - 1, true),
                    );
                }
            }
            min_eval = eval_min(min_eval, eval);
            mut_beta = eval_min(mut_beta, eval);
            if !eval_less(mut_alpha, mut_beta) {
                pruned = true;
            }
            i += 1;
        }
        proof {
            if pruned && lo < hi {
                lemma_best_of_monotone(board@, who, horizon as int, false, i as int, moves@.len() as int);
            }
        }
        min_eval
    }
}

/// The board after the `i`-th move of `who`'s move list.
fn apply_listed_move(board: &Board, who: Player, moves: &Vec<(TileCoord, TileCoord)>, i: usize) -> (b: Board)
    requires
        board.wf(),
        moves@ == move_list(board@, who),
        i < moves@.len(),
    ensures
        b.wf(),
        b@ == apply_move(board@, moves@[i as int].0, moves@[i as int].1),
{
    let (from, to) = moves[i];
    proof {
        lemma_move_list(*board, who, (from, to));
    }
    board.make_move(who, from, to).unwrap().0
}

/// Every move of `who` as an (origin, destination) pair.
fn all_moves(board: &Board, who: Player) -> (r: Vec<(TileCoord, TileCoord)>)
    requires
        board.wf(),
    ensures
        r@ == move_list(board@, who),
{
    let next = board.get_next_moves(who);
    let ghost nm = next_moves(board@, who);
    let mut r: Vec<(TileCoord, TileCoord)> = Vec::new();
    let mut k: usize = 0;
    while k < next.len()
        invariant
            next@.len() == nm.len(),
            forall|m: int| 0 <= m < next@.len() ==> (next@[m].0, next@[m].1, (#[trigger] next@[m]).2@) == nm[m],
            k <= next@.len(),
            r@ == moves_upto(nm, k as int),
        decreases next.len() - k,
    {
        let from = next[k].1;
        let tos = &next[k].2;
        assert(tos@ == nm[k as int].2);
        let mut j: usize = 0;
        while j < tos.len()
            invariant
                j <= tos@.len(),
                r@ == moves_upto(nm, k as int) + tos@.take(j as int).map_values(|d: TileCoord| (from, d)),
            decreases tos.len() - j,
        {
            r.push((from, tos[j]));
            assert(tos@.take(j + 1).map_values(|d: TileCoord| (from, d)) =~= tos@.take(j as int).map_values(
                |d: TileCoord| (from, d),
            ).push((from, tos@[j as int])));
            j += 1;
        }
        assert(tos@.take(j as int) =~= tos@);
        assert(moves_upto(nm, k + 1) == moves_upto(nm, k as int) + nm[k as int].2.map_values(
            |d: TileCoord| (nm[k as int].1, d),
        ));
        k += 1;
    }
    r
}

} // verus!
