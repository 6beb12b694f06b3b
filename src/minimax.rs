//! Exhaustive minimax search to a fixed depth, without pruning.
use crate::clock::{clock_now, millis_since};
use crate::evaluation::{default_weights, evaluation, Evaluator};
use crate::game_tree::{
    apply_view, claim_move_view, described, moves_view, moves_views, terminal, GameTree, ResolutionSource,
};
use crate::{
    spec_opponent, Action, GameState, Move, MoveView, Phase, Player, SearchResult, StateView, MAX_SCORE,
    SCORE_NEG_INF, SCORE_POS_INF,
};
use vstd::prelude::*;

verus! {

/// A node is a leaf when the depth budget is spent, the state is terminal,
/// or the player to move has no move.
pub open spec fn is_leaf(s: StateView, depth: nat, player: Player) -> bool {
    depth == 0 || terminal(s) || moves_view(s.phase, player).len() == 0
}

/// The score of a leaf, for the player to move there.
pub open spec fn leaf_score(s: StateView, player: Player) -> int {
    evaluation(default_weights(), s, player)
}

pub open spec fn initial_best(maximizing: bool) -> int {
    if maximizing {
        SCORE_NEG_INF as int
    } else {
        SCORE_POS_INF as int
    }
}

/// Whether `v` is strictly better than `best` for the role.
pub open spec fn improves(maximizing: bool, v: int, best: int) -> bool {
    if maximizing {
        v > best
    } else {
        v < best
    }
}

/// The draw that a source fixes (meaningful for `Fixed` only).
pub open spec fn fixed_draw(src: ResolutionSource) -> u32 {
    match src {
        ResolutionSource::Fixed(d) => d,
        ResolutionSource::Random => 0,
    }
}

/// Which draw decides the claim resolved by a move at a state.
pub type DrawFn = spec_fn(StateView, MoveView) -> u32;

/// The draw function of a fixed source: the same draw everywhere.
pub open spec fn fixed_fn(src: ResolutionSource) -> DrawFn {
    |v: StateView, m: MoveView| fixed_draw(src)
}

/// What a source's draws can be: a fixed source draws its one value
/// everywhere, a random one draws below 1000.
pub open spec fn draws_ok(src: ResolutionSource, f: DrawFn) -> bool {
    match src {
        ResolutionSource::Fixed(_) => f == fixed_fn(src),
        ResolutionSource::Random => forall|v: StateView, m: MoveView| #[trigger] f(v, m) < 1000,
    }
}

/// `n` capped at `u64::MAX`.
pub open spec fn saturate(n: int) -> u64 {
    if n > u64::MAX {
        u64::MAX
    } else {
        n as u64
    }
}

/// Minimax over the game tree in which the claim resolved by move `m` at
/// state `v` is decided by draw `f(v, m)`:
/// (value, index of the chosen move or −1 at a leaf, nodes visited).
pub open spec fn minimax(s: StateView, depth: nat, player: Player, maximizing: bool, f: DrawFn) -> (
    int,
    int,
    nat,
)
    decreases depth, 1nat, 0int,
{
    if is_leaf(s, depth, player) {
        (leaf_score(s, player), -1, 1)
    } else {
        let r = minimax_loop(s, depth, player, maximizing, f, 0, initial_best(maximizing), -1, 0);
        (r.0, r.1, r.2 + 1)
    }
}

/// The children of a minimax node from move `i` on, given the best value,
/// its move index and the nodes counted so far; the first strictly better
/// child wins.
pub open spec fn minimax_loop(
    s: StateView,
    depth: nat,
    player: Player,
    maximizing: bool,
    f: DrawFn,
    i: int,
    best: int,
    best_index: int,
    nodes: nat,
) -> (int, int, nat)
    decreases depth, 0nat, moves_view(s.phase, player).len() - i,
{
    let ms = moves_view(s.phase, player);
    if i < 0 || i >= ms.len() || depth == 0 {
        (best, best_index, nodes)
    } else {
        let c = minimax(
            apply_view(s, ms[i], f(s, ms[i])),
            (depth - 1) as nat,
            spec_opponent(player),
            !maximizing,
            f,
        );
        if improves(maximizing, c.0, best) {
            minimax_loop(s, depth, player, maximizing, f, i + 1, c.0, i, nodes + c.2)
        } else {
            minimax_loop(s, depth, player, maximizing, f, i + 1, best, best_index, nodes + c.2)
        }
    }
}

/// History `h` extends history `p`: `p` is a prefix of `h`.
pub open spec fn extends(h: Seq<MoveView>, p: Seq<MoveView>) -> bool {
    p.len() <= h.len() && h.subrange(0, p.len() as int) == p
}

/// `f` and `g` give the same draws at every state whose history extends `p`.
pub open spec fn agree_below(f: DrawFn, g: DrawFn, p: Seq<MoveView>) -> bool {
    forall|v: StateView, m: MoveView| extends(v.move_history, p) ==> #[trigger] f(v, m) == g(v, m)
}

/// `f` and `g` give the same draws for the first `i` moves of `ms` at `s`
/// and below them.
pub open spec fn agree_explored(f: DrawFn, g: DrawFn, s: StateView, ms: Seq<MoveView>, i: int) -> bool {
    forall|j: int|
        0 <= j < i ==> #[trigger] f(s, ms[j]) == g(s, ms[j]) && agree_below(
            f,
            g,
            s.move_history.push(ms[j]),
        )
}

/// The draws of `f`, except for move `m` at `s` and below it, where they
/// are those of `fc`, and the draw for `m` at `s` itself, which is `draw`.
pub open spec fn merge_draws(f: DrawFn, fc: DrawFn, s: StateView, m: MoveView, draw: u32) -> DrawFn {
    |v: StateView, m2: MoveView|
        if extends(v.move_history, s.move_history.push(m)) {
            fc(v, m2)
        } else if v == s && m2 == m {
            draw
        } else {
            f(v, m2)
        }
}

/// Draws that a source can give: its fixed draw, or zero.
pub open spec fn some_draws(src: ResolutionSource) -> DrawFn {
    match src {
        ResolutionSource::Fixed(_) => fixed_fn(src),
        ResolutionSource::Random => |v: StateView, m: MoveView| 0u32,
    }
}

/// Such draws are draws the source can give.
pub proof fn lemma_some_draws(src: ResolutionSource)
    ensures
        draws_ok(src, some_draws(src)),
{
}

pub proof fn lemma_extends_push(h: Seq<MoveView>, p: Seq<MoveView>, m: MoveView)
    requires
        extends(h, p.push(m)),
    ensures
        extends(h, p),
        h[p.len() as int] == m,
{
    assert(h.subrange(0, p.len() as int) =~= p) by {
        assert forall|j: int| 0 <= j < p.len() implies h.subrange(0, p.len() as int)[j] == p[j] by {
            assert(h.subrange(0, p.len() as int + 1)[j] == p.push(m)[j]);
        }
    }
    assert(h.subrange(0, p.len() as int + 1)[p.len() as int] == p.push(m)[p.len() as int]);
}

/// The moves of a phase are pairwise distinct.
pub proof fn lemma_moves_distinct(phase: Phase, p: Player, j: int, k: int)
    requires
        0 <= j < moves_view(phase, p).len(),
        0 <= k < moves_view(phase, p).len(),
        j != k,
    ensures
        moves_view(phase, p)[j] != moves_view(phase, p)[k],
{
    reveal(moves_view);
    if phase == Phase::Claim {
        let a = moves_view(phase, p)[j];
        let b = moves_view(phase, p)[k];
        assert(a == claim_move_view(p, j));
        assert(b == claim_move_view(p, k));
        if j / 4 == k / 4 {
            assert(j % 4 != k % 4);
            assert(a.claim->0.claim_type != b.claim->0.claim_type);
        } else {
            assert(a.claim->0.boldness != b.claim->0.boldness);
        }
    }
}

/// Applying a move appends it to the history.
pub proof fn lemma_apply_history(s: StateView, m: MoveView, draw: u32)
    ensures
        apply_view(s, m, draw).move_history == s.move_history.push(m),
{
    reveal(apply_view);
}

/// Merging keeps the draws explored before move `i`, and the merged draws
/// agree with the child's below move `i` and give `draw` for it.
pub proof fn lemma_merge_draws(
    f: DrawFn,
    fc: DrawFn,
    g: DrawFn,
    s: StateView,
    p: Player,
    i: int,
    draw: u32,
)
    requires
        0 <= i < moves_view(s.phase, p).len(),
        agree_explored(
            merge_draws(f, fc, s, moves_view(s.phase, p)[i], draw),
            g,
            s,
            moves_view(s.phase, p),
            i + 1,
        ),
    ensures
        agree_explored(f, g, s, moves_view(s.phase, p), i),
        g(s, moves_view(s.phase, p)[i]) == draw,
        agree_below(fc, g, s.move_history.push(moves_view(s.phase, p)[i])),
{
    let ms = moves_view(s.phase, p);
    let h = merge_draws(f, fc, s, ms[i], draw);
    let ch = s.move_history.push(ms[i]);
    assert(h(s, ms[i]) == g(s, ms[i]));
    assert(!extends(s.move_history, ch));
    assert(agree_below(h, g, ch));
    assert forall|v: StateView, m: MoveView| extends(v.move_history, ch) implies #[trigger] fc(v, m)
        == g(v, m) by {
        assert(h(v, m) == g(v, m));
    }
    assert forall|j: int| 0 <= j < i implies #[trigger] f(s, ms[j]) == g(s, ms[j]) && agree_below(
        f,
        g,
        s.move_history.push(ms[j]),
    ) by {
        lemma_moves_distinct(s.phase, p, i, j);
        assert(h(s, ms[j]) == g(s, ms[j]));
        assert(agree_below(h, g, s.move_history.push(ms[j])));
        assert forall|v: StateView, m: MoveView| extends(v.move_history, s.move_history.push(ms[j]))
            implies #[trigger] f(v, m) == g(v, m) by {
            assert(h(v, m) == g(v, m));
            lemma_extends_push(v.move_history, s.move_history, ms[j]);
            if extends(v.move_history, ch) {
                lemma_extends_push(v.move_history, s.move_history, ms[i]);
            }
        }
    }
}

/// Minimax from `s` reads only the draws at `s` and below it.
pub proof fn lemma_minimax_local(
    s: StateView,
    depth: nat,
    player: Player,
    maximizing: bool,
    f: DrawFn,
    g: DrawFn,
)
    requires
        agree_below(f, g, s.move_history),
    ensures
        minimax(s, depth, player, maximizing, f) == minimax(s, depth, player, maximizing, g),
    decreases depth, 1nat, 0int,
{
    if !is_leaf(s, depth, player) {
        lemma_minimax_loop_local(s, depth, player, maximizing, f, g, 0, initial_best(maximizing), -1, 0);
    }
}

proof fn lemma_minimax_loop_local(
    s: StateView,
    depth: nat,
    player: Player,
    maximizing: bool,
    f: DrawFn,
    g: DrawFn,
    i: int,
    best: int,
    best_index: int,
    nodes: nat,
)
    requires
        agree_below(f, g, s.move_history),
    ensures
        minimax_loop(s, depth, player, maximizing, f, i, best, best_index, nodes) == minimax_loop(
            s,
            depth,
            player,
            maximizing,
            g,
            i,
            best,
            best_index,
            nodes,
        ),
    decreases depth, 0nat, moves_view(s.phase, player).len() - i,
{
    let ms = moves_view(s.phase, player);
    if 0 <= i < ms.len() && depth > 0 {
        let m = ms[i];
        assert(extends(s.move_history, s.move_history)) by {
            assert(s.move_history.subrange(0, s.move_history.len() as int) =~= s.move_history);
        }
        assert(f(s, m) == g(s, m));
        let child = apply_view(s, m, f(s, m));
        lemma_apply_history(s, m, f(s, m));
        assert forall|v: StateView, m2: MoveView| extends(v.move_history, child.move_history) implies #[trigger] f(
            v,
            m2,
        ) == g(v, m2) by {
            lemma_extends_push(v.move_history, s.move_history, m);
        }
        lemma_minimax_local(child, (depth - 1) as nat, spec_opponent(player), !maximizing, f, g);
        let c = minimax(child, (depth - 1) as nat, spec_opponent(player), !maximizing, f);
        lemma_minimax_loop_local(s, depth, player, maximizing, f, g, i + 1, c.0, i, nodes + c.2);
        lemma_minimax_loop_local(s, depth, player, maximizing, f, g, i + 1, best, best_index, nodes + c.2);
    }
}

/// What a minimax call from `s` under draws `f` returns (`r`), and does to
/// the node counter (from `n0` to `n1`).
pub open spec fn minimax_outcome(
    s: StateView,
    depth: nat,
    player: Player,
    maximizing: bool,
    f: DrawFn,
    n0: u64,
    n1: u64,
    r: (Option<Move>, i64),
) -> bool {
    let m = minimax(s, depth, player, maximizing, f);
    &&& r.1 == m.0
    &&& n1 == saturate(n0 + m.2)
    &&& r.0 is None ==> m.1 == -1
    &&& r.0 is Some ==> 0 <= m.1 < moves_view(s.phase, player).len() && r.0->0@ == moves_view(
        s.phase,
        player,
    )[m.1]
}

/// The move played when a search selects none.
pub open spec fn default_move_view(player: Player) -> MoveView {
    MoveView { action: Action::Accept, player, claim: None, confidence: 500 }
}

/// The root move a search reports for chosen index `idx`.
pub open spec fn chosen_move(s: StateView, player: Player, idx: int) -> MoveView {
    if 0 <= idx < moves_view(s.phase, player).len() {
        moves_view(s.phase, player)[idx]
    } else {
        default_move_view(player)
    }
}

/// The fallback move: accept, with confidence 0.5.
pub fn default_move(player: Player) -> (r: Move)
    ensures
        r@ == default_move_view(player),
{
    Move { action: Action::Accept, player, claim: None, confidence: 500 }
}

/// Minimax search algorithm implementation.
pub struct MinimaxSearch {
    max_depth: u8,
    nodes_explored: u64,
    resolution: ResolutionSource,
}

impl MinimaxSearch {
    pub closed spec fn spec_max_depth(&self) -> u8 {
        self.max_depth
    }

    pub closed spec fn spec_nodes_explored(&self) -> u64 {
        self.nodes_explored
    }

    pub closed spec fn spec_resolution(&self) -> ResolutionSource {
        self.resolution
    }

    /// A search to `max_depth` plies with claims decided at random.
    pub fn new(max_depth: u8) -> (r: Self)
        ensures
            r.spec_max_depth() == max_depth,
            r.spec_nodes_explored() == 0,
            r.spec_resolution() == ResolutionSource::Random,
    {
        MinimaxSearch { max_depth, nodes_explored: 0, resolution: ResolutionSource::Random }
    }

    /// A search to `max_depth` plies with claims decided by `resolution`.
    pub fn with_resolution(max_depth: u8, resolution: ResolutionSource) -> (r: Self)
        ensures
            r.spec_max_depth() == max_depth,
            r.spec_nodes_explored() == 0,
            r.spec_resolution() == resolution,
    {
        MinimaxSearch { max_depth, nodes_explored: 0, resolution }
    }

    /// Searches from `state` with `player` to move and maximizing. Whatever
    /// was drawn, the result is minimax over some draws the source can give;
    /// with no legal search below the root it is the root's score, one node
    /// and the fallback move.
    pub fn search(&mut self, state: &GameState, player: Player) -> (r: SearchResult)
        ensures
            final(self).spec_max_depth() == old(self).spec_max_depth(),
            final(self).spec_resolution() == old(self).spec_resolution(),
            final(self).spec_nodes_explored() == r.nodes_explored,
            r.depth_reached == old(self).spec_max_depth(),
            r.nodes_explored > 0,
            -MAX_SCORE <= r.evaluation <= MAX_SCORE,
            r.best_move is Some,
            described(r.best_move->0),
            exists|f: DrawFn|
                #[trigger] draws_ok(old(self).spec_resolution(), f) && {
                    let m = minimax(state@, old(self).spec_max_depth() as nat, player, true, f);
                    &&& r.evaluation == m.0
                    &&& r.nodes_explored == saturate(m.2 as int)
                    &&& r.best_move->0@ == chosen_move(state@, player, m.1)
                },
            is_leaf(state@, old(self).spec_max_depth() as nat, player) ==> {
                &&& r.evaluation == leaf_score(state@, player)
                &&& r.nodes_explored == 1
                &&& r.best_move->0@ == default_move_view(player)
            },
            !is_leaf(state@, old(self).spec_max_depth() as nat, player) ==> moves_view(
                state.phase,
                player,
            ).contains(r.best_move->0@),
            old(self).spec_resolution() is Fixed ==> {
                let m = minimax(
                    state@,
                    old(self).spec_max_depth() as nat,
                    player,
                    true,
                    fixed_fn(old(self).spec_resolution()),
                );
                &&& r.evaluation == m.0
                &&& r.nodes_explored == saturate(m.2 as int)
                &&& r.best_move->0@ == chosen_move(state@, player, m.1)
            },
    {
        let start_time = clock_now();
        self.nodes_explored = 0;
        let tree = GameTree::new(state.clone());
        let (best_move, evaluation) = self.minimax(&tree, state, self.max_depth, player, true);
        let time_ms = millis_since(&start_time);
        let best_move = match best_move {
            Some(m) => m,
            None => default_move(player),
        };
        SearchResult {
            best_move: Some(best_move),
            evaluation,
            nodes_explored: self.nodes_explored,
            depth_reached: self.max_depth,
            time_ms,
        }
    }

    fn minimax(
        &mut self,
        tree: &GameTree,
        state: &GameState,
        depth: u8,
        player: Player,
        is_maximizing: bool,
    ) -> (r: (Option<Move>, i64))
        ensures
            final(self).max_depth == old(self).max_depth,
            final(self).resolution == old(self).resolution,
            final(self).nodes_explored >= saturate(old(self).nodes_explored + 1),
            -MAX_SCORE <= r.1 <= MAX_SCORE,
            r.0 is Some <==> !is_leaf(state@, depth as nat, player),
            r.0 is Some ==> moves_view(state.phase, player).contains(r.0->0@),
            r.0 is Some ==> described(r.0->0),
            exists|f: DrawFn|
                #[trigger] draws_ok(old(self).resolution, f) && minimax_outcome(
                    state@,
                    depth as nat,
                    player,
                    is_maximizing,
                    f,
                    old(self).nodes_explored,
                    final(self).nodes_explored,
                    r,
                ),
        decreases depth,
    {
        self.nodes_explored = self.nodes_explored.saturating_add(1);
        proof {
            lemma_some_draws(self.resolution);
        }
        if depth == 0 || tree.is_terminal(state) {
            let eval = Evaluator::new().evaluate(state, player);
            assert(minimax_outcome(state@, depth as nat, player, is_maximizing, some_draws(self.resolution), old(self).nodes_explored, self.nodes_explored, (None, eval)));
            return (None, eval);
        }
        let moves = tree.generate_moves(state, player);
        if moves.len() == 0 {
            let eval = Evaluator::new().evaluate(state, player);
            assert(minimax_outcome(state@, depth as nat, player, is_maximizing, some_draws(self.resolution), old(self).nodes_explored, self.nodes_explored, (None, eval)));
            return (None, eval);
        }
        let ghost s = state@;
        let ghost ms = moves_view(state.phase, player);
        let ghost start = self.nodes_explored;
        let ghost mut fa: DrawFn = some_draws(self.resolution);
        let mut best: i64 = if is_maximizing {
            SCORE_NEG_INF
        } else {
            SCORE_POS_INF
        };
        let mut best_move: Option<Move> = None;
        let ghost mut best_index: int = -1;
        let ghost mut nodes: nat = 0;
        let mut i: usize = 0;
        while i < moves.len()
            invariant
                i <= moves@.len(),
                moves_views(moves@) == ms,
                ms == moves_view(state.phase, player),
                s == state@,
                !is_leaf(s, depth as nat, player),
                self.max_depth == old(self).max_depth,
                self.resolution == old(self).resolution,
                start == saturate(old(self).nodes_explored + 1),
                self.nodes_explored >= start,
                self.nodes_explored == saturate(start + nodes),
                i == 0 ==> best == initial_best(is_maximizing) && best_move is None,
                i > 0 ==> -MAX_SCORE <= best <= MAX_SCORE && best_move is Some,
                best_move is None ==> best_index == -1,
                best_move is Some ==> 0 <= best_index < ms.len() && best_move->0@ == ms[best_index],
                best_move is Some ==> described(best_move->0),
                forall|j: int| 0 <= j < moves@.len() ==> described(#[trigger] moves@[j]),
                draws_ok(self.resolution, fa),
                forall|g: DrawFn|
                    #[trigger] agree_explored(fa, g, s, ms, i as int) ==> minimax_loop(
                        s,
                        depth as nat,
                        player,
                        is_maximizing,
                        g,
                        0,
                        initial_best(is_maximizing),
                        -1,
                        0,
                    ) == minimax_loop(s, depth as nat, player, is_maximizing, g, i as int, best as int, best_index, nodes),
            decreases moves@.len() - i,
        {
            let mv = moves[i].clone();
            assert(mv@ == ms[i as int]) by {
                assert(moves_views(moves@)[i as int] == moves@[i as int]@);
            }
            let draw = self.resolution.draw();
            let child = tree.apply_move_with_draw(state, &mv, draw);
            let ghost before = self.nodes_explored;
            let cr = self.minimax(tree, &child, depth - 1, player.opponent(), !is_maximizing);
            let eval = cr.1;
            let ghost fc = choose|fc: DrawFn|
                #[trigger] draws_ok(self.resolution, fc) && minimax_outcome(
                    child@,
                    (depth - 1) as nat,
                    spec_opponent(player),
                    !is_maximizing,
                    fc,
                    before,
                    self.nodes_explored,
                    cr,
                );
            let ghost c = minimax(child@, (depth - 1) as nat, spec_opponent(player), !is_maximizing, fc);
            let ghost fnew = if self.resolution is Fixed {
                fa
            } else {
                merge_draws(fa, fc, s, ms[i as int], draw)
            };
            proof {
                lemma_apply_history(s, ms[i as int], draw);
                assert forall|g: DrawFn| #[trigger] agree_explored(fnew, g, s, ms, i + 1) implies minimax_loop(
                    s,
                    depth as nat,
                    player,
                    is_maximizing,
                    g,
                    0,
                    initial_best(is_maximizing),
                    -1,
                    0,
                ) == minimax_loop(s, depth as nat, player, is_maximizing, g, i as int, best as int, best_index, nodes)
                    && g(s, ms[i as int]) == draw && agree_below(fc, g, child@.move_history) by {
                    if self.resolution is Fixed {
                        assert(fc == fa);
                        assert(agree_explored(fa, g, s, ms, i as int));
                        assert(fa(s, ms[i as int]) == draw);
                        assert(agree_below(fc, g, child@.move_history));
                    } else {
                        lemma_merge_draws(fa, fc, g, s, player, i as int, draw);
                    }
                }
                if !(self.resolution is Fixed) {
                    assert forall|v: StateView, m: MoveView| #[trigger] fnew(v, m) < 1000 by {
                        assert(fa(v, m) < 1000);
                        assert(fc(v, m) < 1000);
                    }
                }
            }
            let better = if is_maximizing {
                eval > best
            } else {
                eval < best
            };
            proof {
                assert forall|g: DrawFn| #[trigger] agree_explored(fnew, g, s, ms, i + 1) implies minimax_loop(
                    s,
                    depth as nat,
                    player,
                    is_maximizing,
                    g,
                    0,
                    initial_best(is_maximizing),
                    -1,
                    0,
                ) == minimax_loop(
                    s,
                    depth as nat,
                    player,
                    is_maximizing,
                    g,
                    i + 1,
                    if better { eval as int } else { best as int },
                    if better { i as int } else { best_index },
                    nodes + c.2,
                ) by {
                    lemma_minimax_local(child@, (depth - 1) as nat, spec_opponent(player), !is_maximizing, fc, g);
                }
            }
            if better {
                best = eval;
                best_move = Some(mv);
                proof {
                    best_index = i as int;
                }
            }
            proof {
                nodes = nodes + c.2;
                fa = fnew;
            }
            i = i + 1;
        }
        proof {
            assert(agree_explored(fa, fa, s, ms, i as int));
        }
        assert(minimax_outcome(state@, depth as nat, player, is_maximizing, fa, old(self).nodes_explored, self.nodes_explored, (best_move, best)));
        (best_move, best)
    }
}

} // verus!
