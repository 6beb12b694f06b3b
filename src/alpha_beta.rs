//! Alpha-beta pruning search, sequential and with a parallel root.
use crate::clock::{clock_now, millis_since};
use crate::evaluation::{lemma_evaluation_in_range, Evaluator};
use crate::game_tree::{
    apply_view, described, moves_view, moves_views, trust_headroom, GameTree, ResolutionSource,
};
use crate::minimax::{
    agree_below, agree_explored, chosen_move, draws_ok, extends, fixed_fn,
    improves, initial_best, is_leaf, lemma_apply_history, lemma_extends_push, lemma_merge_draws,
    lemma_minimax_local, lemma_some_draws, leaf_score, merge_draws, minimax, minimax_loop, saturate,
    some_draws, DrawFn,
};
use crate::{
    spec_opponent, GameState, Move, MoveView, Player, SearchResult, StateView, MAX_SCORE, SCORE_NEG_INF,
    SCORE_POS_INF,
};
use rayon::iter::{IndexedParallelIterator, IntoParallelRefIterator, ParallelIterator};
use vstd::prelude::*;

verus! {

pub open spec fn max_int(a: int, b: int) -> int {
    if a >= b {
        a
    } else {
        b
    }
}

pub open spec fn min_int(a: int, b: int) -> int {
    if a <= b {
        a
    } else {
        b
    }
}

/// Alpha-beta over the game tree in which claims are decided by `f` (as in
/// `minimax`), with window (`alpha`, `beta`): (value, index of the chosen move or
/// −1 at a leaf, nodes visited).
pub open spec fn alpha_beta(
    s: StateView,
    depth: nat,
    player: Player,
    maximizing: bool,
    alpha: int,
    beta: int,
    f: DrawFn,
) -> (int, int, nat)
    decreases depth, 1nat, 0int,
{
    if is_leaf(s, depth, player) {
        (leaf_score(s, player), -1, 1)
    } else {
        let r = alpha_beta_loop(
            s,
            depth,
            player,
            maximizing,
            f,
            0,
            initial_best(maximizing),
            -1,
            alpha,
            beta,
            0,
        );
        (r.0, r.1, r.2 + 1)
    }
}

/// The children of an alpha-beta node from move `i` on. After each child
/// the maximizer raises `alpha` (the minimizer lowers `beta`) to the child's
/// value; once `beta <= alpha` the remaining children are skipped.
pub open spec fn alpha_beta_loop(
    s: StateView,
    depth: nat,
    player: Player,
    maximizing: bool,
    f: DrawFn,
    i: int,
    best: int,
    best_index: int,
    alpha: int,
    beta: int,
    nodes: nat,
) -> (int, int, nat)
    decreases depth, 0nat, moves_view(s.phase, player).len() - i,
{
    let ms = moves_view(s.phase, player);
    if i < 0 || i >= ms.len() || depth == 0 {
        (best, best_index, nodes)
    } else {
        let c = alpha_beta(
            apply_view(s, ms[i], f(s, ms[i])),
            (depth - 1) as nat,
            spec_opponent(player),
            !maximizing,
            alpha,
            beta,
            f,
        );
        let better = improves(maximizing, c.0, best);
        let best2 = if better {
            c.0
        } else {
            best
        };
        let index2 = if better {
            i
        } else {
            best_index
        };
        let alpha2 = if maximizing {
            max_int(alpha, c.0)
        } else {
            alpha
        };
        let beta2 = if maximizing {
            beta
        } else {
            min_int(beta, c.0)
        };
        if beta2 <= alpha2 {
            (best2, index2, nodes + c.2)
        } else {
            alpha_beta_loop(s, depth, player, maximizing, f, i + 1, best2, index2, alpha2, beta2, nodes + c.2)
        }
    }
}

/// Whether alpha-beta from `s` prunes: some node of its search cuts off
/// while moves are left that it then never examines.
pub open spec fn prunes(
    s: StateView,
    depth: nat,
    player: Player,
    maximizing: bool,
    alpha: int,
    beta: int,
    f: DrawFn,
) -> bool
    decreases depth, 1nat, 0int,
{
    !is_leaf(s, depth, player) && prunes_loop(
        s,
        depth,
        player,
        maximizing,
        f,
        0,
        initial_best(maximizing),
        -1,
        alpha,
        beta,
        0,
    )
}

/// Whether the loop of `alpha_beta_loop` from move `i` on prunes, in a
/// child or by cutting off before its last move.
pub open spec fn prunes_loop(
    s: StateView,
    depth: nat,
    player: Player,
    maximizing: bool,
    f: DrawFn,
    i: int,
    best: int,
    best_index: int,
    alpha: int,
    beta: int,
    nodes: nat,
) -> bool
    decreases depth, 0nat, moves_view(s.phase, player).len() - i,
{
    let ms = moves_view(s.phase, player);
    if i < 0 || i >= ms.len() || depth == 0 {
        false
    } else {
        let child = apply_view(s, ms[i], f(s, ms[i]));
        let c = alpha_beta(child, (depth - 1) as nat, spec_opponent(player), !maximizing, alpha, beta, f);
        let better = improves(maximizing, c.0, best);
        let best2 = if better { c.0 } else { best };
        let index2 = if better { i } else { best_index };
        let alpha2 = if maximizing { max_int(alpha, c.0) } else { alpha };
        let beta2 = if maximizing { beta } else { min_int(beta, c.0) };
        prunes(child, (depth - 1) as nat, spec_opponent(player), !maximizing, alpha, beta, f) || if beta2
            <= alpha2 {
            i + 1 < ms.len()
        } else {
            prunes_loop(s, depth, player, maximizing, f, i + 1, best2, index2, alpha2, beta2, nodes + c.2)
        }
    }
}

/// What a fail-soft window promises of a value `v` against the true
/// minimax value `m`.
pub open spec fn window_bound(v: int, m: int, alpha: int, beta: int) -> bool {
    &&& v <= alpha ==> m <= v
    &&& v >= beta ==> m >= v
    &&& alpha < v < beta ==> m == v
}

proof fn lemma_minimax_range(s: StateView, depth: nat, player: Player, maximizing: bool, f: DrawFn)
    ensures
        -MAX_SCORE <= minimax(s, depth, player, maximizing, f).0 <= MAX_SCORE,
    decreases depth, 1nat, 0int,
{
    if is_leaf(s, depth, player) {
        lemma_evaluation_in_range(crate::evaluation::default_weights(), s, player);
    } else {
        lemma_minimax_loop_range(s, depth, player, maximizing, f, 0, initial_best(maximizing), -1, 0);
    }
}

proof fn lemma_minimax_loop_range(
    s: StateView,
    depth: nat,
    player: Player,
    maximizing: bool,
    f: DrawFn,
    i: int,
    best: int,
    best_index: int,
    nodes: nat,
)
    requires
        0 <= i <= moves_view(s.phase, player).len(),
        0 < moves_view(s.phase, player).len(),
        depth > 0,
        i == 0 ==> best == initial_best(maximizing),
        i > 0 ==> -MAX_SCORE <= best <= MAX_SCORE,
    ensures
        -MAX_SCORE <= minimax_loop(s, depth, player, maximizing, f, i, best, best_index, nodes).0
            <= MAX_SCORE,
        maximizing ==> minimax_loop(s, depth, player, maximizing, f, i, best, best_index, nodes).0
            >= best,
        !maximizing ==> minimax_loop(s, depth, player, maximizing, f, i, best, best_index, nodes).0
            <= best,
        minimax_loop(s, depth, player, maximizing, f, i, best, best_index, nodes).2 >= nodes,
        i < moves_view(s.phase, player).len() ==> minimax_loop(s, depth, player, maximizing, f, i, best, best_index, nodes).2 > nodes,
    decreases depth, 0nat, moves_view(s.phase, player).len() - i,
{
    let ms = moves_view(s.phase, player);
    if i < ms.len() {
        let c = minimax(apply_view(s, ms[i], f(s, ms[i])), (depth - 1) as nat, spec_opponent(player), !maximizing, f);
        lemma_minimax_range(apply_view(s, ms[i], f(s, ms[i])), (depth - 1) as nat, spec_opponent(player), !maximizing, f);
        if improves(maximizing, c.0, best) {
            lemma_minimax_loop_range(s, depth, player, maximizing, f, i + 1, c.0, i, nodes + c.2);
        } else {
            lemma_minimax_loop_range(s, depth, player, maximizing, f, i + 1, best, best_index, nodes + c.2);
        }
    }
}

proof fn lemma_alpha_beta_range(
    s: StateView,
    depth: nat,
    player: Player,
    maximizing: bool,
    alpha: int,
    beta: int,
    f: DrawFn,
)
    ensures
        -MAX_SCORE <= alpha_beta(s, depth, player, maximizing, alpha, beta, f).0 <= MAX_SCORE,
    decreases depth, 1nat, 0int,
{
    if is_leaf(s, depth, player) {
        lemma_evaluation_in_range(crate::evaluation::default_weights(), s, player);
    } else {
        lemma_alpha_beta_loop_range(
            s,
            depth,
            player,
            maximizing,
            f,
            0,
            initial_best(maximizing),
            -1,
            alpha,
            beta,
            0,
        );
    }
}

proof fn lemma_alpha_beta_loop_range(
    s: StateView,
    depth: nat,
    player: Player,
    maximizing: bool,
    f: DrawFn,
    i: int,
    best: int,
    best_index: int,
    alpha: int,
    beta: int,
    nodes: nat,
)
    requires
        0 <= i <= moves_view(s.phase, player).len(),
        0 < moves_view(s.phase, player).len(),
        depth > 0,
        i == 0 ==> best == initial_best(maximizing),
        i > 0 ==> -MAX_SCORE <= best <= MAX_SCORE,
    ensures
        -MAX_SCORE <= alpha_beta_loop(
            s,
            depth,
            player,
            maximizing,
            f,
            i,
            best,
            best_index,
            alpha,
            beta,
            nodes,
        ).0 <= MAX_SCORE,
    decreases depth, 0nat, moves_view(s.phase, player).len() - i,
{
    let ms = moves_view(s.phase, player);
    if i < ms.len() {
        let child = apply_view(s, ms[i], f(s, ms[i]));
        let c = alpha_beta(child, (depth - 1) as nat, spec_opponent(player), !maximizing, alpha, beta, f);
        lemma_alpha_beta_range(child, (depth - 1) as nat, spec_opponent(player), !maximizing, alpha, beta, f);
        let better = improves(maximizing, c.0, best);
        let best2 = if better { c.0 } else { best };
        let index2 = if better { i } else { best_index };
        let alpha2 = if maximizing { max_int(alpha, c.0) } else { alpha };
        let beta2 = if maximizing { beta } else { min_int(beta, c.0) };
        if !(beta2 <= alpha2) {
            lemma_alpha_beta_loop_range(s, depth, player, maximizing, f, i + 1, best2, index2, alpha2, beta2, nodes + c.2);
        }
    }
}

proof fn lemma_window(
    s: StateView,
    depth: nat,
    player: Player,
    maximizing: bool,
    alpha: int,
    beta: int,
    f: DrawFn,
)
    requires
        SCORE_NEG_INF <= alpha < beta <= SCORE_POS_INF,
    ensures
        window_bound(
            alpha_beta(s, depth, player, maximizing, alpha, beta, f).0,
            minimax(s, depth, player, maximizing, f).0,
            alpha,
            beta,
        ),
        alpha_beta(s, depth, player, maximizing, alpha, beta, f).2 <= minimax(
            s,
            depth,
            player,
            maximizing,
            f,
        ).2,
        prunes(s, depth, player, maximizing, alpha, beta, f) ==> alpha_beta(s, depth, player, maximizing, alpha, beta, f).2
            < minimax(s, depth, player, maximizing, f).2,
    decreases depth, 1nat, 0int,
{
    if !is_leaf(s, depth, player) {
        lemma_window_loop(
            s,
            depth,
            player,
            maximizing,
            f,
            0,
            initial_best(maximizing),
            -1,
            alpha,
            beta,
            0,
            initial_best(maximizing),
            -1,
            0,
            alpha,
            beta,
        );
    }
}

/// The loop of one node: `vb`, `alpha`, `beta` are the alpha-beta best and
/// window after move `i`, `mb` the minimax best; `alpha0`, `beta0` the
/// node's own window.
proof fn lemma_window_loop(
    s: StateView,
    depth: nat,
    player: Player,
    maximizing: bool,
    f: DrawFn,
    i: int,
    vb: int,
    vi: int,
    alpha: int,
    beta: int,
    vn: nat,
    mb: int,
    mi: int,
    mn: nat,
    alpha0: int,
    beta0: int,
)
    requires
        depth > 0,
        0 <= i <= moves_view(s.phase, player).len(),
        SCORE_NEG_INF <= alpha0 < beta0 <= SCORE_POS_INF,
        i == 0 ==> vb == initial_best(maximizing) && mb == initial_best(maximizing),
        i > 0 ==> -MAX_SCORE <= vb <= MAX_SCORE && -MAX_SCORE <= mb <= MAX_SCORE,
        alpha < beta,
        maximizing ==> beta == beta0 && alpha == max_int(alpha0, vb) && mb <= vb && (vb > alpha0
            ==> mb == vb),
        !maximizing ==> alpha == alpha0 && beta == min_int(beta0, vb) && mb >= vb && (vb < beta0
            ==> mb == vb),
    ensures
        window_bound(
            alpha_beta_loop(s, depth, player, maximizing, f, i, vb, vi, alpha, beta, vn).0,
            minimax_loop(s, depth, player, maximizing, f, i, mb, mi, mn).0,
            alpha0,
            beta0,
        ),
        alpha_beta_loop(s, depth, player, maximizing, f, i, vb, vi, alpha, beta, vn).2 - vn
            <= minimax_loop(s, depth, player, maximizing, f, i, mb, mi, mn).2 - mn,
        prunes_loop(s, depth, player, maximizing, f, i, vb, vi, alpha, beta, vn) ==> alpha_beta_loop(
            s,
            depth,
            player,
            maximizing,
            f,
            i,
            vb,
            vi,
            alpha,
            beta,
            vn,
        ).2 - vn < minimax_loop(s, depth, player, maximizing, f, i, mb, mi, mn).2 - mn,
    decreases depth, 0nat, moves_view(s.phase, player).len() - i,
{
    let ms = moves_view(s.phase, player);
    if i < ms.len() {
        let child = apply_view(s, ms[i], f(s, ms[i]));
        let cd = (depth - 1) as nat;
        let cp = spec_opponent(player);
        let c = alpha_beta(child, cd, cp, !maximizing, alpha, beta, f);
        let m = minimax(child, cd, cp, !maximizing, f);
        lemma_window(child, cd, cp, !maximizing, alpha, beta, f);
        lemma_alpha_beta_range(child, cd, cp, !maximizing, alpha, beta, f);
        lemma_minimax_range(child, cd, cp, !maximizing, f);
        let vbetter = improves(maximizing, c.0, vb);
        let vb2 = if vbetter { c.0 } else { vb };
        let vi2 = if vbetter { i } else { vi };
        let alpha2 = if maximizing { max_int(alpha, c.0) } else { alpha };
        let beta2 = if maximizing { beta } else { min_int(beta, c.0) };
        let mbetter = improves(maximizing, m.0, mb);
        let mb2 = if mbetter { m.0 } else { mb };
        let mi2 = if mbetter { i } else { mi };
        lemma_minimax_loop_range(s, depth, player, maximizing, f, i + 1, mb2, mi2, mn + m.2);
        if beta2 <= alpha2 {
        } else {
            lemma_window_loop(
                s,
                depth,
                player,
                maximizing,
                f,
                i + 1,
                vb2,
                vi2,
                alpha2,
                beta2,
                vn + c.2,
                mb2,
                mi2,
                mn + m.2,
                alpha0,
                beta0,
            );
        }
    }
}

/// With the full window, alpha-beta returns the minimax value, when every
/// claim is decided by the same draw.
pub proof fn lemma_alpha_beta_matches_minimax(
    s: StateView,
    depth: nat,
    player: Player,
    maximizing: bool,
    f: DrawFn,
)
    ensures
        alpha_beta(s, depth, player, maximizing, SCORE_NEG_INF as int, SCORE_POS_INF as int, f).0
            == minimax(s, depth, player, maximizing, f).0,
{
    lemma_window(s, depth, player, maximizing, SCORE_NEG_INF as int, SCORE_POS_INF as int, f);
    lemma_alpha_beta_range(s, depth, player, maximizing, SCORE_NEG_INF as int, SCORE_POS_INF as int, f);
}

proof fn lemma_root_choice_loop(
    s: StateView,
    depth: nat,
    player: Player,
    f: DrawFn,
    i: int,
    best: int,
    best_index: int,
    alpha: int,
    vn: nat,
    mn: nat,
)
    requires
        depth > 0,
        0 <= i <= moves_view(s.phase, player).len(),
        i == 0 ==> best == SCORE_NEG_INF && alpha == SCORE_NEG_INF,
        i > 0 ==> -MAX_SCORE <= best <= MAX_SCORE && alpha == best,
    ensures
        alpha_beta_loop(s, depth, player, true, f, i, best, best_index, alpha, SCORE_POS_INF as int, vn).1
            == minimax_loop(s, depth, player, true, f, i, best, best_index, mn).1,
    decreases moves_view(s.phase, player).len() - i,
{
    let ms = moves_view(s.phase, player);
    if i < ms.len() {
        let child = apply_view(s, ms[i], f(s, ms[i]));
        let cd = (depth - 1) as nat;
        let cp = spec_opponent(player);
        let c = alpha_beta(child, cd, cp, false, alpha, SCORE_POS_INF as int, f);
        let m = minimax(child, cd, cp, false, f);
        lemma_window(child, cd, cp, false, alpha, SCORE_POS_INF as int, f);
        lemma_alpha_beta_range(child, cd, cp, false, alpha, SCORE_POS_INF as int, f);
        lemma_minimax_range(child, cd, cp, false, f);
        if c.0 > best {
            lemma_root_choice_loop(s, depth, player, f, i + 1, c.0, i, c.0, vn + c.2, mn + m.2);
        } else {
            lemma_root_choice_loop(s, depth, player, f, i + 1, best, best_index, alpha, vn + c.2, mn + m.2);
        }
    }
}

/// At a maximizing root with the full window, alpha-beta chooses the same
/// move as minimax, when every claim is decided by the same draw.
pub proof fn lemma_alpha_beta_root_choice(s: StateView, depth: nat, player: Player, f: DrawFn)
    ensures
        alpha_beta(s, depth, player, true, SCORE_NEG_INF as int, SCORE_POS_INF as int, f).1
            == minimax(s, depth, player, true, f).1,
{
    if !is_leaf(s, depth, player) {
        lemma_root_choice_loop(s, depth, player, f, 0, SCORE_NEG_INF as int, -1, SCORE_NEG_INF as int, 0, 0);
    }
}

/// The minimax value of the `j`-th child of `s`.
pub open spec fn child_value(s: StateView, depth: nat, player: Player, maximizing: bool, f: DrawFn, j: int) -> int {
    let m = moves_view(s.phase, player)[j];
    minimax(apply_view(s, m, f(s, m)), (depth - 1) as nat, spec_opponent(player), !maximizing, f).0
}

/// The children before `i` are no better than `best`, which child `idx`
/// reaches, and those before `idx` are strictly worse.
pub open spec fn best_so_far(
    s: StateView,
    depth: nat,
    player: Player,
    maximizing: bool,
    f: DrawFn,
    i: int,
    best: int,
    idx: int,
) -> bool {
    &&& 0 <= idx < i
    &&& best == child_value(s, depth, player, maximizing, f, idx)
    &&& forall|j: int|
        0 <= j < i ==> !improves(maximizing, #[trigger] child_value(s, depth, player, maximizing, f, j), best)
    &&& forall|j: int|
        0 <= j < idx ==> improves(maximizing, best, #[trigger] child_value(s, depth, player, maximizing, f, j))
}

proof fn lemma_minimax_loop_best(
    s: StateView,
    depth: nat,
    player: Player,
    maximizing: bool,
    f: DrawFn,
    i: int,
    best: int,
    idx: int,
    nodes: nat,
)
    requires
        depth > 0,
        0 <= i <= moves_view(s.phase, player).len(),
        0 < moves_view(s.phase, player).len(),
        i == 0 ==> best == initial_best(maximizing),
        i > 0 ==> best_so_far(s, depth, player, maximizing, f, i, best, idx),
    ensures
        best_so_far(
            s,
            depth,
            player,
            maximizing,
            f,
            moves_view(s.phase, player).len() as int,
            minimax_loop(s, depth, player, maximizing, f, i, best, idx, nodes).0,
            minimax_loop(s, depth, player, maximizing, f, i, best, idx, nodes).1,
        ),
    decreases moves_view(s.phase, player).len() - i,
{
    let ms = moves_view(s.phase, player);
    if i < ms.len() {
        let child = apply_view(s, ms[i], f(s, ms[i]));
        let c = minimax(child, (depth - 1) as nat, spec_opponent(player), !maximizing, f);
        lemma_minimax_range(child, (depth - 1) as nat, spec_opponent(player), !maximizing, f);
        assert(c.0 == child_value(s, depth, player, maximizing, f, i));
        if improves(maximizing, c.0, best) {
            assert forall|j: int| 0 <= j < i + 1 implies !improves(
                maximizing,
                #[trigger] child_value(s, depth, player, maximizing, f, j),
                c.0,
            ) by {}
            lemma_minimax_loop_best(s, depth, player, maximizing, f, i + 1, c.0, i, nodes + c.2);
        } else {
            lemma_minimax_loop_best(s, depth, player, maximizing, f, i + 1, best, idx, nodes + c.2);
        }
    }
}

/// At a node that is no leaf, minimax's value is the best child value (the
/// largest when maximizing, the smallest when minimizing), and its move is
/// the first child that reaches it.
pub proof fn lemma_minimax_best_child(s: StateView, depth: nat, player: Player, maximizing: bool, f: DrawFn)
    requires
        !is_leaf(s, depth, player),
    ensures
        best_so_far(
            s,
            depth,
            player,
            maximizing,
            f,
            moves_view(s.phase, player).len() as int,
            minimax(s, depth, player, maximizing, f).0,
            minimax(s, depth, player, maximizing, f).1,
        ),
{
    lemma_minimax_loop_best(s, depth, player, maximizing, f, 0, initial_best(maximizing), -1, 0);
}

/// Alpha-beta visits strictly fewer nodes than minimax on the same state,
/// depth and player whenever it prunes, for any window in the score range
/// and any draws.
pub proof fn lemma_alpha_beta_prunes_nodes(
    s: StateView,
    depth: nat,
    player: Player,
    maximizing: bool,
    alpha: int,
    beta: int,
    f: DrawFn,
)
    requires
        SCORE_NEG_INF <= alpha < beta <= SCORE_POS_INF,
        prunes(s, depth, player, maximizing, alpha, beta, f),
    ensures
        alpha_beta(s, depth, player, maximizing, alpha, beta, f).2 < minimax(
            s,
            depth,
            player,
            maximizing,
            f,
        ).2,
{
    lemma_window(s, depth, player, maximizing, alpha, beta, f);
}

/// Alpha-beta visits no more nodes than minimax on the same state, depth
/// and player, for any window in the score range and any draw.
pub proof fn lemma_alpha_beta_visits_no_more_nodes(
    s: StateView,
    depth: nat,
    player: Player,
    maximizing: bool,
    alpha: int,
    beta: int,
    f: DrawFn,
)
    requires
        SCORE_NEG_INF <= alpha < beta <= SCORE_POS_INF,
    ensures
        alpha_beta(s, depth, player, maximizing, alpha, beta, f).2 <= minimax(
            s,
            depth,
            player,
            maximizing,
            f,
        ).2,
{
    lemma_window(s, depth, player, maximizing, alpha, beta, f);
}

/// Alpha-beta from `s` reads only the draws at `s` and below it.
pub proof fn lemma_alpha_beta_local(
    s: StateView,
    depth: nat,
    player: Player,
    maximizing: bool,
    alpha: int,
    beta: int,
    f: DrawFn,
    g: DrawFn,
)
    requires
        agree_below(f, g, s.move_history),
    ensures
        alpha_beta(s, depth, player, maximizing, alpha, beta, f) == alpha_beta(
            s,
            depth,
            player,
            maximizing,
            alpha,
            beta,
            g,
        ),
    decreases depth, 1nat, 0int,
{
    if !is_leaf(s, depth, player) {
        lemma_alpha_beta_loop_local(s, depth, player, maximizing, f, g, 0, initial_best(maximizing), -1, alpha, beta, 0);
    }
}

proof fn lemma_alpha_beta_loop_local(
    s: StateView,
    depth: nat,
    player: Player,
    maximizing: bool,
    f: DrawFn,
    g: DrawFn,
    i: int,
    best: int,
    best_index: int,
    alpha: int,
    beta: int,
    nodes: nat,
)
    requires
        agree_below(f, g, s.move_history),
    ensures
        alpha_beta_loop(s, depth, player, maximizing, f, i, best, best_index, alpha, beta, nodes)
            == alpha_beta_loop(s, depth, player, maximizing, g, i, best, best_index, alpha, beta, nodes),
    decreases depth, 0nat, moves_view(s.phase, player).len() - i,
{
    let ms = moves_view(s.phase, player);
    if 0 <= i < ms.len() && depth > 0 {
        let m = ms[i];
        assert(extends(s.move_history, s.move_history)) by {
            assert(s.move_history.subrange(0, s.move_history.len() as int) =~= s.move_history);
        }
        assert(f(s, m) == g(s, m));
        let child = apply_view(s, m, f(s, m));
        lemma_apply_history(s, m, f(s, m));
        assert forall|v: StateView, m2: MoveView| extends(v.move_history, child.move_history) implies #[trigger] f(
            v,
            m2,
        ) == g(v, m2) by {
            lemma_extends_push(v.move_history, s.move_history, m);
        }
        lemma_alpha_beta_local(child, (depth - 1) as nat, spec_opponent(player), !maximizing, alpha, beta, f, g);
        let c = alpha_beta(child, (depth - 1) as nat, spec_opponent(player), !maximizing, alpha, beta, f);
        let better = improves(maximizing, c.0, best);
        let best2 = if better { c.0 } else { best };
        let index2 = if better { i } else { best_index };
        let alpha2 = if maximizing { max_int(alpha, c.0) } else { alpha };
        let beta2 = if maximizing { beta } else { min_int(beta, c.0) };
        lemma_alpha_beta_loop_local(s, depth, player, maximizing, f, g, i + 1, best2, index2, alpha2, beta2, nodes + c.2);
    }
}

/// What an alpha-beta call from `s` under draws `f` returns (`r`), and does
/// to the node counter (from `n0` to `n1`).
pub open spec fn alpha_beta_outcome(
    s: StateView,
    depth: nat,
    player: Player,
    maximizing: bool,
    alpha: int,
    beta: int,
    f: DrawFn,
    n0: u64,
    n1: u64,
    r: (Option<Move>, i64),
) -> bool {
    let b = alpha_beta(s, depth, player, maximizing, alpha, beta, f);
    &&& r.1 == b.0
    &&& n1 == saturate(n0 + b.2)
    &&& r.0 is None ==> b.1 == -1
    &&& r.0 is Some ==> 0 <= b.1 < moves_view(s.phase, player).len() && r.0->0@ == moves_view(
        s.phase,
        player,
    )[b.1]
}

/// A root branch under draws `f`: the value and node count of alpha-beta
/// from a full window below the move.
pub open spec fn branch_value(s: StateView, m: MoveView, depth: u8, player: Player, f: DrawFn, r: (i64, u64)) -> bool {
    let b = alpha_beta(
        apply_view(s, m, f(s, m)),
        (depth - 1) as nat,
        spec_opponent(player),
        false,
        SCORE_NEG_INF as int,
        SCORE_POS_INF as int,
        f,
    );
    &&& r.0 == b.0
    &&& r.1 == saturate(b.2 as int)
}

/// What holds of one root branch searched on its own: `r` is its value and
/// the nodes its search visited, under some draws the source can give.
pub open spec fn branch_outcome(
    s: StateView,
    m: MoveView,
    depth: u8,
    player: Player,
    resolution: ResolutionSource,
    r: (i64, u64),
) -> bool {
    &&& -MAX_SCORE <= r.0 <= MAX_SCORE
    &&& r.1 > 0
    &&& exists|f: DrawFn| #[trigger] draws_ok(resolution, f) && branch_value(s, m, depth, player, f, r)
}

/// The node counts of the root branches before move `k`, each searched on
/// its own from a full window and capped at `u64::MAX`, summed.
pub open spec fn root_branch_nodes(s: StateView, depth: u8, player: Player, f: DrawFn, k: int) -> int
    decreases k,
{
    if k <= 0 || k > moves_view(s.phase, player).len() {
        0
    } else {
        root_branch_nodes(s, depth, player, f, k - 1) + saturate(
            alpha_beta(
                apply_view(s, moves_view(s.phase, player)[k - 1], f(s, moves_view(s.phase, player)[k - 1])),
                (depth - 1) as nat,
                spec_opponent(player),
                false,
                SCORE_NEG_INF as int,
                SCORE_POS_INF as int,
                f,
            ).2 as int,
        )
    }
}

proof fn lemma_root_branch_nodes_nonneg(s: StateView, depth: u8, player: Player, f: DrawFn, k: int)
    ensures
        root_branch_nodes(s, depth, player, f, k) >= 0,
    decreases k,
{
    if k > 0 && k <= moves_view(s.phase, player).len() {
        lemma_root_branch_nodes_nonneg(s, depth, player, f, k - 1);
    }
}

/// Searches the branch of one root move with a sequential alpha-beta search
/// of its own, from a full window: (value, nodes visited).
pub fn search_root_branch(
    tree: &GameTree,
    state: &GameState,
    move_candidate: &Move,
    depth: u8,
    player: Player,
    resolution: ResolutionSource,
) -> (r: (i64, u64))
    requires
        depth > 0,
        trust_headroom(state@),
    ensures
        branch_outcome(state@, move_candidate@, depth, player, resolution, r),
{
    let draw = resolution.draw();
    let child = tree.apply_move_with_draw(state, move_candidate, draw);
    let mut local_search = AlphaBetaSearch::with_resolution(depth - 1, false, resolution);
    let cr = local_search.alpha_beta(
        tree,
        &child,
        depth - 1,
        SCORE_NEG_INF,
        SCORE_POS_INF,
        player.opponent(),
        false,
    );
    let eval = cr.1;
    let r = (eval, local_search.nodes_explored);
    proof {
        let s = state@;
        let m = move_candidate@;
        let fc = choose|fc: DrawFn|
            #[trigger] draws_ok(resolution, fc) && alpha_beta_outcome(
                child@,
                (depth - 1) as nat,
                spec_opponent(player),
                false,
                SCORE_NEG_INF as int,
                SCORE_POS_INF as int,
                fc,
                0,
                local_search.nodes_explored,
                cr,
            );
        let f = if resolution is Fixed { fc } else { merge_draws(fc, fc, s, m, draw) };
        lemma_apply_history(s, m, draw);
        assert(f(s, m) == draw) by {
            if !(resolution is Fixed) {
                assert(!extends(s.move_history, s.move_history.push(m)));
            }
        }
        assert forall|v: StateView, m2: MoveView| extends(v.move_history, child@.move_history) implies #[trigger] fc(
            v,
            m2,
        ) == f(v, m2) by {}
        lemma_alpha_beta_local(child@, (depth - 1) as nat, spec_opponent(player), false, SCORE_NEG_INF as int, SCORE_POS_INF as int, fc, f);
        if !(resolution is Fixed) {
            assert forall|v: StateView, m2: MoveView| #[trigger] f(v, m2) < 1000 by {
                assert(fc(v, m2) < 1000);
            }
        }
        assert(draws_ok(resolution, f) && branch_value(s, m, depth, player, f, r));
        lemma_alpha_beta_range(child@, (depth - 1) as nat, spec_opponent(player), false, SCORE_NEG_INF as int, SCORE_POS_INF as int, fc);
    }
    r
}

/// Relies on rayon's `par_iter` over a slice, `map` and `collect_into_vec`:
/// the closure runs once for each move, and the result for a move lands at
/// that move's index.
#[verifier::external_body]
fn search_root_branches(
    tree: &GameTree,
    state: &GameState,
    moves: &Vec<Move>,
    depth: u8,
    player: Player,
    resolution: ResolutionSource,
) -> (r: Vec<(i64, u64)>)
    requires
        depth > 0,
        trust_headroom(state@),
    ensures
        r@.len() == moves@.len(),
        forall|i: int|
            0 <= i < moves@.len() ==> branch_outcome(
                state@,
                moves@[i]@,
                depth,
                player,
                resolution,
                #[trigger] r@[i],
            ),
{
    let mut results = Vec::new();
    moves.par_iter().map(
        |m| search_root_branch(tree, state, m, depth, player, resolution),
    ).collect_into_vec(&mut results);
    results
}

/// What the parallel root search from `s` under draws `f` returns (`r`),
/// and does to the node counter (from `n0` to `n1`): the minimax value and
/// move, and the root plus the sum of the branch counts.
pub open spec fn parallel_outcome(
    s: StateView,
    depth: u8,
    player: Player,
    f: DrawFn,
    n0: u64,
    n1: u64,
    r: (Option<Move>, i64),
) -> bool {
    let m = minimax(s, depth as nat, player, true, f);
    &&& r.1 == m.0
    &&& n1 == saturate(
        n0 + 1 + if is_leaf(s, depth as nat, player) {
            0
        } else {
            root_branch_nodes(s, depth, player, f, moves_view(s.phase, player).len() as int)
        },
    )
    &&& r.0 is None ==> m.1 == -1
    &&& r.0 is Some ==> 0 <= m.1 < moves_view(s.phase, player).len() && r.0->0@ == moves_view(
        s.phase,
        player,
    )[m.1]
}

/// What a search from `s` to `depth` under draws `f` reports: the minimax
/// value and move, and the node count of the sequential alpha-beta search,
/// or in parallel mode the root plus the counts of the root branches.
pub open spec fn search_outcome(
    s: StateView,
    depth: u8,
    player: Player,
    parallel: bool,
    f: DrawFn,
    r: SearchResult,
) -> bool {
    let m = minimax(s, depth as nat, player, true, f);
    &&& r.evaluation == m.0
    &&& r.best_move is None ==> m.1 == -1
    &&& r.best_move is Some ==> 0 <= m.1 && r.best_move->0@ == chosen_move(s, player, m.1)
    &&& !parallel ==> r.nodes_explored == saturate(
        alpha_beta(s, depth as nat, player, true, SCORE_NEG_INF as int, SCORE_POS_INF as int, f).2 as int,
    )
    &&& parallel ==> r.nodes_explored == saturate(
        1 + if is_leaf(s, depth as nat, player) {
            0
        } else {
            root_branch_nodes(s, depth, player, f, moves_view(s.phase, player).len() as int)
        },
    )
}

/// Alpha-Beta pruning search with an optional parallel root.
pub struct AlphaBetaSearch {
    max_depth: u8,
    nodes_explored: u64,
    enable_parallel: bool,
    resolution: ResolutionSource,
}

impl AlphaBetaSearch {
    pub closed spec fn spec_max_depth(&self) -> u8 {
        self.max_depth
    }

    pub closed spec fn spec_nodes_explored(&self) -> u64 {
        self.nodes_explored
    }

    pub closed spec fn spec_parallel(&self) -> bool {
        self.enable_parallel
    }

    pub closed spec fn spec_resolution(&self) -> ResolutionSource {
        self.resolution
    }

    /// Whether a search fans out over the root moves in parallel.
    pub open spec fn runs_parallel(&self) -> bool {
        self.spec_parallel() && self.spec_max_depth() > 3
    }

    /// A search to `max_depth` plies with claims decided at random.
    pub fn new(max_depth: u8, enable_parallel: bool) -> (r: Self)
        ensures
            r.spec_max_depth() == max_depth,
            r.spec_nodes_explored() == 0,
            r.spec_parallel() == enable_parallel,
            r.spec_resolution() == ResolutionSource::Random,
    {
        AlphaBetaSearch {
            max_depth,
            nodes_explored: 0,
            enable_parallel,
            resolution: ResolutionSource::Random,
        }
    }

    /// A search to `max_depth` plies with claims decided by `resolution`.
    pub fn with_resolution(max_depth: u8, enable_parallel: bool, resolution: ResolutionSource) -> (r:
        Self)
        ensures
            r.spec_max_depth() == max_depth,
            r.spec_nodes_explored() == 0,
            r.spec_parallel() == enable_parallel,
            r.spec_resolution() == resolution,
    {
        AlphaBetaSearch { max_depth, nodes_explored: 0, enable_parallel, resolution }
    }

    pub fn set_parallel(&mut self, enable: bool)
        ensures
            final(self).spec_parallel() == enable,
            final(self).spec_max_depth() == old(self).spec_max_depth(),
            final(self).spec_nodes_explored() == old(self).spec_nodes_explored(),
            final(self).spec_resolution() == old(self).spec_resolution(),
    {
        self.enable_parallel = enable;
    }

    /// Searches from `state` with `player` to move and maximizing. Whatever
    /// was drawn, the result is that of minimax over some draws the source
    /// can give. With no legal search below the root the result is the
    /// root's score, one node and no move. In parallel mode the node count
    /// is the root plus the sum of the counts of the root branches.
    pub fn search(&mut self, state: &GameState, player: Player) -> (r: SearchResult)
        ensures
            final(self).spec_max_depth() == old(self).spec_max_depth(),
            final(self).spec_parallel() == old(self).spec_parallel(),
            final(self).spec_resolution() == old(self).spec_resolution(),
            final(self).spec_nodes_explored() == r.nodes_explored,
            r.depth_reached == old(self).spec_max_depth(),
            r.nodes_explored > 0,
            -MAX_SCORE <= r.evaluation <= MAX_SCORE,
            exists|f: DrawFn|
                #[trigger] draws_ok(old(self).spec_resolution(), f) && search_outcome(
                    state@,
                    old(self).spec_max_depth(),
                    player,
                    old(self).runs_parallel(),
                    f,
                    r,
                ),
            is_leaf(state@, old(self).spec_max_depth() as nat, player) ==> {
                &&& r.evaluation == leaf_score(state@, player)
                &&& r.nodes_explored == 1
                &&& r.best_move is None
            },
            !is_leaf(state@, old(self).spec_max_depth() as nat, player) ==> r.best_move is Some
                && moves_view(state.phase, player).contains(r.best_move->0@),
            r.best_move is Some ==> described(r.best_move->0),
            old(self).spec_resolution() is Fixed ==> search_outcome(
                state@,
                old(self).spec_max_depth(),
                player,
                old(self).runs_parallel(),
                fixed_fn(old(self).spec_resolution()),
                r,
            ),
    {
        let start_time = clock_now();
        self.nodes_explored = 0;
        let tree = GameTree::new(state.clone());
        let (best_move, evaluation) = if self.enable_parallel && self.max_depth > 3 {
            self.parallel_alpha_beta(&tree, state, self.max_depth, player)
        } else {
            self.alpha_beta(&tree, state, self.max_depth, SCORE_NEG_INF, SCORE_POS_INF, player, true)
        };
        let time_ms = millis_since(&start_time);
        let r = SearchResult {
            best_move,
            evaluation,
            nodes_explored: self.nodes_explored,
            depth_reached: self.max_depth,
            time_ms,
        };
        proof {
            let depth = self.max_depth;
            if !self.runs_parallel() {
                let f = choose|f: DrawFn|
                    #[trigger] draws_ok(self.resolution, f) && alpha_beta_outcome(
                        state@,
                        depth as nat,
                        player,
                        true,
                        SCORE_NEG_INF as int,
                        SCORE_POS_INF as int,
                        f,
                        0,
                        self.nodes_explored,
                        (best_move, evaluation),
                    );
                lemma_alpha_beta_matches_minimax(state@, depth as nat, player, true, f);
                lemma_alpha_beta_root_choice(state@, depth as nat, player, f);
                assert(search_outcome(state@, depth, player, false, f, r));
            } else {
                let f = choose|f: DrawFn|
                    #[trigger] draws_ok(self.resolution, f) && parallel_outcome(
                        state@,
                        depth,
                        player,
                        f,
                        0,
                        self.nodes_explored,
                        (best_move, evaluation),
                    );
                assert(search_outcome(state@, depth, player, true, f, r));
            }
            if is_leaf(state@, depth as nat, player) {
                assert(r.nodes_explored == 1);
            }
        }
        r
    }

    fn alpha_beta(
        &mut self,
        tree: &GameTree,
        state: &GameState,
        depth: u8,
        alpha: i64,
        beta: i64,
        player: Player,
        is_maximizing: bool,
    ) -> (r: (Option<Move>, i64))
        ensures
            final(self).max_depth == old(self).max_depth,
            final(self).enable_parallel == old(self).enable_parallel,
            final(self).resolution == old(self).resolution,
            final(self).nodes_explored >= saturate(old(self).nodes_explored + 1),
            -MAX_SCORE <= r.1 <= MAX_SCORE,
            r.0 is Some <==> !is_leaf(state@, depth as nat, player),
            r.0 is Some ==> moves_view(state.phase, player).contains(r.0->0@),
            r.0 is Some ==> described(r.0->0),
            exists|f: DrawFn|
                #[trigger] draws_ok(old(self).resolution, f) && alpha_beta_outcome(
                    state@,
                    depth as nat,
                    player,
                    is_maximizing,
                    alpha as int,
                    beta as int,
                    f,
                    old(self).nodes_explored,
                    final(self).nodes_explored,
                    r,
                ),
        decreases depth,
    {
        self.nodes_explored = self.nodes_explored.saturating_add(1);
        proof {
            lemma_some_draws(self.resolution);
        }
        if depth == 0 || tree.is_terminal(state) {
            let eval = Evaluator::new().evaluate(state, player);
            assert(alpha_beta_outcome(state@, depth as nat, player, is_maximizing, alpha as int, beta as int, some_draws(self.resolution), old(self).nodes_explored, self.nodes_explored, (None, eval)));
            return (None, eval);
        }
        let moves = tree.generate_moves(state, player);
        if moves.len() == 0 {
            let eval = Evaluator::new().evaluate(state, player);
            assert(alpha_beta_outcome(state@, depth as nat, player, is_maximizing, alpha as int, beta as int, some_draws(self.resolution), old(self).nodes_explored, self.nodes_explored, (None, eval)));
            return (None, eval);
        }
        let ghost s = state@;
        let ghost ms = moves_view(state.phase, player);
        let ghost start = self.nodes_explored;
        let ghost alpha0 = alpha as int;
        let ghost beta0 = beta as int;
        let ghost mut fa: DrawFn = some_draws(self.resolution);
        let mut alpha = alpha;
        let mut beta = beta;
        let mut best: i64 = if is_maximizing {
            SCORE_NEG_INF
        } else {
            SCORE_POS_INF
        };
        let mut best_move: Option<Move> = None;
        let ghost mut best_index: int = -1;
        let ghost mut nodes: nat = 0;
        let mut cut = false;
        let mut i: usize = 0;
        while i < moves.len() && !cut
            invariant
                i <= moves@.len(),
                moves_views(moves@) == ms,
                ms == moves_view(state.phase, player),
                s == state@,
                !is_leaf(s, depth as nat, player),
                self.max_depth == old(self).max_depth,
                self.enable_parallel == old(self).enable_parallel,
                self.resolution == old(self).resolution,
                start == saturate(old(self).nodes_explored + 1),
                self.nodes_explored >= start,
                self.nodes_explored == saturate(start + nodes),
                i == 0 ==> best == initial_best(is_maximizing) && best_move is None && !cut,
                i > 0 ==> -MAX_SCORE <= best <= MAX_SCORE && best_move is Some,
                best_move is None ==> best_index == -1,
                best_move is Some ==> 0 <= best_index < ms.len() && best_move->0@ == ms[best_index],
                best_move is Some ==> described(best_move->0),
                forall|j: int| 0 <= j < moves@.len() ==> described(#[trigger] moves@[j]),
                draws_ok(self.resolution, fa),
                forall|g: DrawFn|
                    #[trigger] agree_explored(fa, g, s, ms, i as int) ==> {
                        &&& !cut ==> alpha_beta_loop(s, depth as nat, player, is_maximizing, g, 0, initial_best(is_maximizing), -1, alpha0, beta0, 0)
                            == alpha_beta_loop(s, depth as nat, player, is_maximizing, g, i as int, best as int, best_index, alpha as int, beta as int, nodes)
                        &&& cut ==> alpha_beta_loop(s, depth as nat, player, is_maximizing, g, 0, initial_best(is_maximizing), -1, alpha0, beta0, 0)
                            == (best as int, best_index, nodes)
                    },
            decreases moves@.len() - i,
        {
            let mv = moves[i].clone();
            assert(mv@ == ms[i as int]) by {
                assert(moves_views(moves@)[i as int] == moves@[i as int]@);
            }
            let draw = self.resolution.draw();
            let child = tree.apply_move_with_draw(state, &mv, draw);
            let ghost before = self.nodes_explored;
            let ghost a1 = alpha as int;
            let ghost b1 = beta as int;
            let cr = self.alpha_beta(
                tree,
                &child,
                depth - 1,
                alpha,
                beta,
                player.opponent(),
                !is_maximizing,
            );
            let eval = cr.1;
            let ghost fc = choose|fc: DrawFn|
                #[trigger] draws_ok(self.resolution, fc) && alpha_beta_outcome(
                    child@,
                    (depth - 1) as nat,
                    spec_opponent(player),
                    !is_maximizing,
                    a1,
                    b1,
                    fc,
                    before,
                    self.nodes_explored,
                    cr,
                );
            let ghost c = alpha_beta(child@, (depth - 1) as nat, spec_opponent(player), !is_maximizing, a1, b1, fc);
            let ghost fnew = if self.resolution is Fixed {
                fa
            } else {
                merge_draws(fa, fc, s, ms[i as int], draw)
            };
            let ghost old_best = best as int;
            let ghost old_index = best_index;
            let ghost old_nodes = nodes;
            let better = if is_maximizing {
                eval > best
            } else {
                eval < best
            };
            if better {
                best = eval;
                best_move = Some(mv);
                proof {
                    best_index = i as int;
                }
            }
            if is_maximizing {
                if eval > alpha {
                    alpha = eval;
                }
            } else {
                if eval < beta {
                    beta = eval;
                }
            }
            proof {
                nodes = nodes + c.2;
            }
            if beta <= alpha {
                cut = true;
            }
            proof {
                lemma_apply_history(s, ms[i as int], draw);
                assert forall|g: DrawFn| #[trigger] agree_explored(fnew, g, s, ms, i + 1) implies {
                    &&& !cut ==> alpha_beta_loop(s, depth as nat, player, is_maximizing, g, 0, initial_best(is_maximizing), -1, alpha0, beta0, 0)
                        == alpha_beta_loop(s, depth as nat, player, is_maximizing, g, i + 1, best as int, best_index, alpha as int, beta as int, nodes)
                    &&& cut ==> alpha_beta_loop(s, depth as nat, player, is_maximizing, g, 0, initial_best(is_maximizing), -1, alpha0, beta0, 0)
                        == (best as int, best_index, nodes)
                } by {
                    if self.resolution is Fixed {
                        assert(fc == fa);
                        assert(agree_explored(fa, g, s, ms, i as int));
                        assert(fa(s, ms[i as int]) == draw);
                        assert(agree_below(fc, g, child@.move_history));
                    } else {
                        lemma_merge_draws(fa, fc, g, s, player, i as int, draw);
                    }
                    lemma_alpha_beta_local(child@, (depth - 1) as nat, spec_opponent(player), !is_maximizing, a1, b1, fc, g);
                    assert(alpha_beta_loop(s, depth as nat, player, is_maximizing, g, 0, initial_best(is_maximizing), -1, alpha0, beta0, 0)
                        == alpha_beta_loop(s, depth as nat, player, is_maximizing, g, i as int, old_best, old_index, a1, b1, old_nodes));
                }
                if !(self.resolution is Fixed) {
                    assert forall|v: StateView, m: MoveView| #[trigger] fnew(v, m) < 1000 by {
                        assert(fa(v, m) < 1000);
                        assert(fc(v, m) < 1000);
                    }
                }
                fa = fnew;
            }
            i = i + 1;
        }
        proof {
            assert(agree_explored(fa, fa, s, ms, i as int));
        }
        assert(alpha_beta_outcome(state@, depth as nat, player, is_maximizing, alpha0, beta0, fa, old(self).nodes_explored, self.nodes_explored, (best_move, best)));
        (best_move, best)
    }

    fn parallel_alpha_beta(&mut self, tree: &GameTree, state: &GameState, depth: u8, player: Player) -> (r: (
        Option<Move>,
        i64,
    ))
        requires
            depth > 0,
        ensures
            final(self).max_depth == old(self).max_depth,
            final(self).enable_parallel == old(self).enable_parallel,
            final(self).resolution == old(self).resolution,
            final(self).nodes_explored >= saturate(old(self).nodes_explored + 1),
            -MAX_SCORE <= r.1 <= MAX_SCORE,
            r.0 is Some <==> !is_leaf(state@, depth as nat, player),
            r.0 is Some ==> moves_view(state.phase, player).contains(r.0->0@),
            r.0 is Some ==> described(r.0->0),
            exists|f: DrawFn|
                #[trigger] draws_ok(old(self).resolution, f) && parallel_outcome(
                    state@,
                    depth,
                    player,
                    f,
                    old(self).nodes_explored,
                    final(self).nodes_explored,
                    r,
                ),
    {
        self.nodes_explored = self.nodes_explored.saturating_add(1);
        proof {
            lemma_some_draws(self.resolution);
        }
        if tree.is_terminal(state) {
            let eval = Evaluator::new().evaluate(state, player);
            assert(parallel_outcome(state@, depth, player, some_draws(self.resolution), old(self).nodes_explored, self.nodes_explored, (None, eval)));
            return (None, eval);
        }
        let moves = tree.generate_moves(state, player);
        if moves.len() == 0 {
            let eval = Evaluator::new().evaluate(state, player);
            assert(parallel_outcome(state@, depth, player, some_draws(self.resolution), old(self).nodes_explored, self.nodes_explored, (None, eval)));
            return (None, eval);
        }
        let results = search_root_branches(tree, state, &moves, depth, player, self.resolution);
        let ghost s = state@;
        let ghost ms = moves_view(state.phase, player);
        let ghost start = self.nodes_explored;
        let ghost mut fa: DrawFn = some_draws(self.resolution);
        let mut best: i64 = SCORE_NEG_INF;
        let mut best_move: Option<Move> = None;
        let ghost mut best_index: int = -1;
        let ghost mut nodes: nat = 0;
        let mut i: usize = 0;
        while i < results.len()
            invariant
                i <= results@.len(),
                results@.len() == moves@.len(),
                moves_views(moves@) == ms,
                ms == moves_view(state.phase, player),
                s == state@,
                depth > 0,
                !is_leaf(s, depth as nat, player),
                forall|j: int|
                    0 <= j < moves@.len() ==> branch_outcome(
                        s,
                        moves@[j]@,
                        depth,
                        player,
                        self.resolution,
                        #[trigger] results@[j],
                    ),
                self.max_depth == old(self).max_depth,
                self.enable_parallel == old(self).enable_parallel,
                self.resolution == old(self).resolution,
                start == saturate(old(self).nodes_explored + 1),
                self.nodes_explored >= start,
                i == 0 ==> best == SCORE_NEG_INF && best_move is None,
                i > 0 ==> -MAX_SCORE <= best <= MAX_SCORE && best_move is Some,
                best_move is Some ==> ms.contains(best_move->0@),
                best_move is None ==> best_index == -1,
                best_move is Some ==> 0 <= best_index < ms.len() && best_move->0@ == ms[best_index],
                best_move is Some ==> described(best_move->0),
                forall|j: int| 0 <= j < moves@.len() ==> described(#[trigger] moves@[j]),
                draws_ok(self.resolution, fa),
                forall|g: DrawFn|
                    #[trigger] agree_explored(fa, g, s, ms, i as int) ==> {
                        &&& minimax_loop(s, depth as nat, player, true, g, 0, initial_best(true), -1, 0).0
                            == minimax_loop(s, depth as nat, player, true, g, i as int, best as int, best_index, nodes).0
                        &&& minimax_loop(s, depth as nat, player, true, g, 0, initial_best(true), -1, 0).1
                            == minimax_loop(s, depth as nat, player, true, g, i as int, best as int, best_index, nodes).1
                        &&& self.nodes_explored == saturate(start + root_branch_nodes(s, depth, player, g, i as int))
                    },
            decreases results@.len() - i,
        {
            let (eval, branch_nodes) = results[i];
            proof {
                assert(moves_views(moves@)[i as int] == moves@[i as int]@);
                assert(branch_outcome(s, moves@[i as int]@, depth, player, self.resolution, results@[i as int]));
            }
            let ghost fc = choose|fc: DrawFn|
                #[trigger] draws_ok(self.resolution, fc) && branch_value(s, ms[i as int], depth, player, fc, (eval, branch_nodes));
            let ghost draw = fc(s, ms[i as int]);
            let ghost child = apply_view(s, ms[i as int], draw);
            let ghost mc = minimax(child, (depth - 1) as nat, spec_opponent(player), false, fc);
            let ghost fnew = if self.resolution is Fixed {
                fa
            } else {
                merge_draws(fa, fc, s, ms[i as int], draw)
            };
            let ghost old_best = best as int;
            let ghost old_index = best_index;
            let ghost old_nodes = nodes;
            let ghost old_count = self.nodes_explored;
            proof {
                lemma_alpha_beta_matches_minimax(child, (depth - 1) as nat, spec_opponent(player), false, fc);
            }
            self.nodes_explored = self.nodes_explored.saturating_add(branch_nodes);
            let better = eval > best;
            if better {
                best = eval;
                best_move = Some(moves[i].clone());
                proof {
                    best_index = i as int;
                }
            }
            proof {
                nodes = nodes + mc.2;
                lemma_apply_history(s, ms[i as int], draw);
                assert forall|g: DrawFn| #[trigger] agree_explored(fnew, g, s, ms, i + 1) implies {
                    &&& minimax_loop(s, depth as nat, player, true, g, 0, initial_best(true), -1, 0).0
                        == minimax_loop(s, depth as nat, player, true, g, i + 1, best as int, best_index, nodes).0
                    &&& minimax_loop(s, depth as nat, player, true, g, 0, initial_best(true), -1, 0).1
                        == minimax_loop(s, depth as nat, player, true, g, i + 1, best as int, best_index, nodes).1
                    &&& self.nodes_explored == saturate(start + root_branch_nodes(s, depth, player, g, i + 1))
                } by {
                    if self.resolution is Fixed {
                        assert(fc == fa);
                        assert(agree_explored(fa, g, s, ms, i as int));
                        assert(agree_below(fc, g, child.move_history));
                    } else {
                        lemma_merge_draws(fa, fc, g, s, player, i as int, draw);
                    }
                    lemma_alpha_beta_local(child, (depth - 1) as nat, spec_opponent(player), false, SCORE_NEG_INF as int, SCORE_POS_INF as int, fc, g);
                    lemma_minimax_local(child, (depth - 1) as nat, spec_opponent(player), false, fc, g);
                    lemma_root_branch_nodes_nonneg(s, depth, player, g, i as int);
                    assert(old_count == saturate(start + root_branch_nodes(s, depth, player, g, i as int)));
                    assert(root_branch_nodes(s, depth, player, g, i + 1) == root_branch_nodes(s, depth, player, g, i as int) + branch_nodes);
                    assert(minimax_loop(s, depth as nat, player, true, g, 0, initial_best(true), -1, 0).0
                        == minimax_loop(s, depth as nat, player, true, g, i as int, old_best, old_index, old_nodes).0);
                }
                if !(self.resolution is Fixed) {
                    assert forall|v: StateView, m: MoveView| #[trigger] fnew(v, m) < 1000 by {
                        assert(fa(v, m) < 1000);
                        assert(fc(v, m) < 1000);
                    }
                }
                fa = fnew;
            }
            i = i + 1;
        }
        proof {
            assert(agree_explored(fa, fa, s, ms, i as int));
            lemma_root_branch_nodes_nonneg(s, depth, player, fa, i as int);
        }
        assert(parallel_outcome(state@, depth, player, fa, old(self).nodes_explored, self.nodes_explored, (best_move, best)));
        (best_move, best)
    }
}

} // verus!
