//! The heuristic that scores a state for a player.
//!
//! Each of the five terms is computed exactly in units of 1/3000 of a point,
//! and each weight is held in tenths, so a weighted sum is in units of
//! 1/30000 of a point, that is in `SCORE_UNIT`s.
use crate::{GameState, Move, MoveView, Player, StateView, MAX_SCORE, SCORE_UNIT};
use vstd::prelude::*;

verus! {

/// Weights of the five terms, each in tenths (10 stands for 1.0).
#[derive(Debug, Clone, Copy, PartialEq, Eq, Structural)]
pub struct EvaluationWeights {
    pub trust_differential: u8,
    pub trust_absolute: u8,
    pub round_progress: u8,
    pub momentum: u8,
    pub position_advantage: u8,
}

pub open spec fn default_weights() -> EvaluationWeights {
    EvaluationWeights {
        trust_differential: 10,
        trust_absolute: 5,
        round_progress: 3,
        momentum: 7,
        position_advantage: 8,
    }
}

impl Default for EvaluationWeights {
    fn default() -> (r: Self)
        ensures
            r == default_weights(),
    {
        EvaluationWeights {
            trust_differential: 10,
            trust_absolute: 5,
            round_progress: 3,
            momentum: 7,
            position_advantage: 8,
        }
    }
}

pub open spec fn clamp(x: int, lo: int, hi: int) -> int {
    if x < lo {
        lo
    } else if x > hi {
        hi
    } else {
        x
    }
}

pub open spec fn own_trust(s: StateView, p: Player) -> int {
    match p {
        Player::Player1 => s.player1_trust as int,
        Player::Player2 => s.player2_trust as int,
    }
}

pub open spec fn opp_trust(s: StateView, p: Player) -> int {
    match p {
        Player::Player1 => s.player2_trust as int,
        Player::Player2 => s.player1_trust as int,
    }
}

/// (own − opponent) / 3 points, clamped to [-50, 50] points.
pub open spec fn trust_differential_term(s: StateView, p: Player) -> int {
    clamp((own_trust(s, p) - opp_trust(s, p)) * 1000, -150000, 150000)
}

/// +20 points at own trust 80 or more, −20 points at 0 or less.
pub open spec fn trust_absolute_term(s: StateView, p: Player) -> int {
    if own_trust(s, p) >= 80 {
        60000
    } else if own_trust(s, p) <= 0 {
        -60000
    } else {
        0
    }
}

/// Past three quarters of the twenty rounds (round > 15): the trust lead
/// times 2 · round / 20 points.
pub open spec fn round_progress_term(s: StateView, p: Player) -> int {
    if s.round > 15 {
        (own_trust(s, p) - opp_trust(s, p)) * s.round * 300
    } else {
        0
    }
}

/// The last (at most five) moves of a history.
pub open spec fn recent_moves(h: Seq<MoveView>) -> Seq<MoveView> {
    if h.len() > 5 {
        h.subrange(h.len() - 5, h.len() as int)
    } else {
        h
    }
}

/// How many moves of `h` the player made.
pub open spec fn moves_by(h: Seq<MoveView>, p: Player) -> int
    decreases h.len(),
{
    if h.len() == 0 {
        0
    } else {
        moves_by(h.drop_last(), p) + if h.last().player == p { 1int } else { 0int }
    }
}

/// The sum of the confidences of the moves of `h` that the player made.
pub open spec fn confidence_by(h: Seq<MoveView>, p: Player) -> int
    decreases h.len(),
{
    if h.len() == 0 {
        0
    } else {
        confidence_by(h.drop_last(), p) + if h.last().player == p {
            h.last().confidence as int
        } else {
            0int
        }
    }
}

/// (average own confidence over the recent moves − 0.5) · 20 points, once
/// three moves have been played and the player made one of the recent ones.
/// With `k` own moves and confidence sum `c` (in thousandths) this is
/// 60 · (c − 500 k) / k units; 60 is divisible by every `k` from 1 to 5.
pub open spec fn momentum_term(s: StateView, p: Player) -> int {
    let recent = recent_moves(s.move_history);
    let k = moves_by(recent, p);
    if s.move_history.len() < 3 || k == 0 {
        0
    } else {
        (60int / k) * (confidence_by(recent, p) - 500 * k)
    }
}

/// +30 points at own trust 90 or more, +25 at opponent trust −40 or less,
/// −25 at own trust −40 or less, −30 at opponent trust 90 or more.
pub open spec fn position_advantage_term(s: StateView, p: Player) -> int {
    (if own_trust(s, p) >= 90 { 90000int } else { 0int }) + (if opp_trust(s, p) <= -40 {
        75000int
    } else {
        0int
    }) - (if own_trust(s, p) <= -40 { 75000int } else { 0int }) - (if opp_trust(s, p) >= 90 {
        90000int
    } else {
        0int
    })
}

/// The weighted sum of the five terms, before clamping.
pub open spec fn weighted_sum(w: EvaluationWeights, s: StateView, p: Player) -> int {
    trust_differential_term(s, p) * w.trust_differential + trust_absolute_term(s, p)
        * w.trust_absolute + round_progress_term(s, p) * w.round_progress + momentum_term(s, p)
        * w.momentum + position_advantage_term(s, p) * w.position_advantage
}

/// The score of `s` for `p`, in score units, within [-MAX_SCORE, MAX_SCORE].
#[verifier::opaque]
pub open spec fn evaluation(w: EvaluationWeights, s: StateView, p: Player) -> int {
    clamp(weighted_sum(w, s, p), -MAX_SCORE as int, MAX_SCORE as int)
}

/// State evaluation function for game tree search.
pub struct Evaluator {
    weights: EvaluationWeights,
}

impl Evaluator {
    pub closed spec fn spec_weights(&self) -> EvaluationWeights {
        self.weights
    }

    pub fn new() -> (r: Self)
        ensures
            r.spec_weights() == default_weights(),
    {
        Evaluator { weights: EvaluationWeights::default() }
    }

    pub fn with_weights(weights: EvaluationWeights) -> (r: Self)
        ensures
            r.spec_weights() == weights,
    {
        Evaluator { weights }
    }

    /// Scores `state` from the perspective of `player`, in score units.
    pub fn evaluate(&self, state: &GameState, player: Player) -> (r: i64)
        ensures
            r == evaluation(self.spec_weights(), state@, player),
            -MAX_SCORE <= r <= MAX_SCORE,
    {
        reveal(evaluation);
        let d = self.evaluate_trust_differential(state, player);
        let a = self.evaluate_trust_absolute(state, player);
        let g = self.evaluate_round_progress(state, player);
        let m = self.evaluate_momentum(state, player);
        let v = self.evaluate_position_advantage(state, player);
        let w = self.weights;
        proof {
            assert(-150000 * 255 <= d * w.trust_differential <= 150000 * 255) by (nonlinear_arith)
                requires
                    -150000 <= d <= 150000,
                    0 <= w.trust_differential <= 255,
            ;
            assert(-60000 * 255 <= a * w.trust_absolute <= 60000 * 255) by (nonlinear_arith)
                requires
                    -60000 <= a <= 60000,
                    0 <= w.trust_absolute <= 255,
            ;
            assert(-0x4000_0000_0000_0000 <= g * w.round_progress <= 0x4000_0000_0000_0000)
                by (nonlinear_arith)
                requires
                    -0x40_0000_0000_0000 <= g <= 0x40_0000_0000_0000,
                    0 <= w.round_progress <= 255,
            ;
            assert(-0x10_0000_0000_0000 <= m * w.momentum <= 0x10_0000_0000_0000)
                by (nonlinear_arith)
                requires
                    -0x1000_0000_0000 <= m <= 0x1000_0000_0000,
                    0 <= w.momentum <= 255,
            ;
            assert(-165000 * 255 <= v * w.position_advantage <= 165000 * 255)
                by (nonlinear_arith)
                requires
                    -165000 <= v <= 165000,
                    0 <= w.position_advantage <= 255,
            ;
        }
        let score: i64 = d * (w.trust_differential as i64) + a * (w.trust_absolute as i64) + g
            * (w.round_progress as i64) + m * (w.momentum as i64) + v * (
        w.position_advantage as i64);
        if score < -MAX_SCORE {
            -MAX_SCORE
        } else if score > MAX_SCORE {
            MAX_SCORE
        } else {
            score
        }
    }

    fn own_and_opponent(state: &GameState, player: Player) -> (r: (i64, i64))
        ensures
            r.0 == own_trust(state@, player),
            r.1 == opp_trust(state@, player),
    {
        match player {
            Player::Player1 => (state.player1_trust as i64, state.player2_trust as i64),
            Player::Player2 => (state.player2_trust as i64, state.player1_trust as i64),
        }
    }

    fn evaluate_trust_differential(&self, state: &GameState, player: Player) -> (r: i64)
        ensures
            r == trust_differential_term(state@, player),
            -150000 <= r <= 150000,
    {
        let (my_trust, opp_trust) = Self::own_and_opponent(state, player);
        let scaled = (my_trust - opp_trust) * 1000;
        if scaled < -150000 {
            -150000
        } else if scaled > 150000 {
            150000
        } else {
            scaled
        }
    }

    fn evaluate_trust_absolute(&self, state: &GameState, player: Player) -> (r: i64)
        ensures
            r == trust_absolute_term(state@, player),
            -60000 <= r <= 60000,
    {
        let (my_trust, _) = Self::own_and_opponent(state, player);
        if my_trust >= 80 {
            60000
        } else if my_trust <= 0 {
            -60000
        } else {
            0
        }
    }

    fn evaluate_round_progress(&self, state: &GameState, player: Player) -> (r: i64)
        ensures
            r == round_progress_term(state@, player),
            -0x40_0000_0000_0000 <= r <= 0x40_0000_0000_0000,
    {
        let (my_trust, opp_trust) = Self::own_and_opponent(state, player);
        if state.round > 15 {
            let lead = my_trust - opp_trust;
            let round = state.round as i64;
            assert(-0x40_0000_0000_0000 <= lead * round * 300 <= 0x40_0000_0000_0000)
                by (nonlinear_arith)
                requires
                    -0x1_0000_0000 <= lead <= 0x1_0000_0000,
                    0 <= round <= 255,
            ;
            lead * round * 300
        } else {
            0
        }
    }

    fn evaluate_momentum(&self, state: &GameState, player: Player) -> (r: i64)
        ensures
            r == momentum_term(state@, player),
            -0x1000_0000_0000 <= r <= 0x1000_0000_0000,
    {
        let len = state.move_history.len();
        if len < 3 {
            return 0;
        }
        let start: usize = if len > 5 { len - 5 } else { 0 };
        let ghost h = state@.move_history;
        let ghost recent = recent_moves(h);
        assert(recent =~= h.subrange(start as int, len as int));
        let mut count: i64 = 0;
        let mut sum: i64 = 0;
        let mut i: usize = start;
        while i < len
            invariant
                start <= i <= len,
                len == state.move_history.len(),
                len - start <= 5,
                h == state@.move_history,
                count == moves_by(h.subrange(start as int, i as int), player),
                sum == confidence_by(h.subrange(start as int, i as int), player),
                0 <= count <= i - start,
                0 <= sum <= (i - start) * 0xFFFF_FFFF,
            decreases len - i,
        {
            let m: &Move = &state.move_history[i];
            proof {
                let prev = h.subrange(start as int, i as int);
                let next = h.subrange(start as int, i + 1);
                assert(next.drop_last() =~= prev);
                assert(next.last() == m@);
            }
            if m.player == player {
                count = count + 1;
                sum = sum + m.confidence as i64;
            }
            i = i + 1;
        }
        assert(h.subrange(start as int, len as int) =~= recent);
        if count == 0 {
            return 0;
        }
        let per: i64 = 60 / count;
        assert(-0x1000_0000_0000 <= per * (sum - 500 * count) <= 0x1000_0000_0000)
            by (nonlinear_arith)
            requires
                1 <= count <= 5,
                0 <= sum <= 5 * 0xFFFF_FFFF,
                0 <= per <= 60,
        ;
        per * (sum - 500 * count)
    }

    fn evaluate_position_advantage(&self, state: &GameState, player: Player) -> (r: i64)
        ensures
            r == position_advantage_term(state@, player),
            -165000 <= r <= 165000,
    {
        let (my_trust, opp_trust) = Self::own_and_opponent(state, player);
        let mut advantage: i64 = 0;
        if my_trust >= 90 {
            advantage = advantage + 90000;
        }
        if opp_trust <= -40 {
            advantage = advantage + 75000;
        }
        if my_trust <= -40 {
            advantage = advantage - 75000;
        }
        if opp_trust >= 90 {
            advantage = advantage - 90000;
        }
        advantage
    }
}

impl Default for Evaluator {
    fn default() -> (r: Self)
        ensures
            r.spec_weights() == default_weights(),
    {
        Self::new()
    }
}

/// Every evaluation lies within [-MAX_SCORE, MAX_SCORE] (±100 points).
pub proof fn lemma_evaluation_in_range(w: EvaluationWeights, s: StateView, p: Player)
    ensures
        -MAX_SCORE <= evaluation(w, s, p) <= MAX_SCORE,
{
    reveal(evaluation);
}

/// Own confidences sum to at most 1000 per own move when each confidence
/// is at most 1000.
proof fn lemma_confidence_bounds(h: Seq<MoveView>, p: Player)
    requires
        forall|i: int| 0 <= i < h.len() ==> (#[trigger] h[i]).confidence <= 1000,
    ensures
        0 <= confidence_by(h, p) <= 1000 * moves_by(h, p),
        0 <= moves_by(h, p) <= h.len(),
    decreases h.len(),
{
    if h.len() > 0 {
        let t = h.drop_last();
        assert forall|i: int| 0 <= i < t.len() implies (#[trigger] t[i]).confidence <= 1000 by {
            assert(t[i] == h[i]);
        }
        lemma_confidence_bounds(t, p);
        assert(h.last() == h[h.len() - 1]);
    }
}

/// With equal trusts strictly between 0 and 80, before round 16, and
/// confidences of at most 1.0, the default evaluation is within 7 points
/// of 0 (all that is left is the momentum term); with fewer than three
/// moves played it is exactly 0.
pub proof fn lemma_balanced_evaluation(s: StateView, p: Player)
    requires
        s.player1_trust == s.player2_trust,
        0 < s.player1_trust < 80,
        s.round <= 15,
        forall|i: int| 0 <= i < s.move_history.len() ==> (#[trigger] s.move_history[i]).confidence <= 1000,
    ensures
        -7 * SCORE_UNIT <= evaluation(default_weights(), s, p) <= 7 * SCORE_UNIT,
        s.move_history.len() < 3 ==> evaluation(default_weights(), s, p) == 0,
{
    reveal(evaluation);
    let h = s.move_history;
    let recent = recent_moves(h);
    assert forall|i: int| 0 <= i < recent.len() implies (#[trigger] recent[i]).confidence <= 1000 by {
        if h.len() > 5 {
            assert(recent[i] == h[i + h.len() - 5]);
        }
    }
    lemma_confidence_bounds(recent, p);
    let k = moves_by(recent, p);
    let c = confidence_by(recent, p);
    if h.len() >= 3 && k != 0 {
        assert(recent.len() <= 5);
        let per = 60int / k;
        assert(per * k == 60) by {
            if k == 1 {
                assert(60int / 1 == 60);
                assert(per * k == 60) by (nonlinear_arith)
                    requires
                        k == 1,
                        per == 60,
                ;
            } else if k == 2 {
                assert(60int / 2 == 30);
                assert(per * k == 60) by (nonlinear_arith)
                    requires
                        k == 2,
                        per == 30,
                ;
            } else if k == 3 {
                assert(60int / 3 == 20);
                assert(per * k == 60) by (nonlinear_arith)
                    requires
                        k == 3,
                        per == 20,
                ;
            } else if k == 4 {
                assert(60int / 4 == 15);
                assert(per * k == 60) by (nonlinear_arith)
                    requires
                        k == 4,
                        per == 15,
                ;
            } else {
                assert(k == 5);
                assert(60int / 5 == 12);
                assert(per * k == 60) by (nonlinear_arith)
                    requires
                        k == 5,
                        per == 12,
                ;
            }
        }
        assert(-30000 <= per * (c - 500 * k) <= 30000) by (nonlinear_arith)
            requires
                per * k == 60,
                0 <= c <= 1000 * k,
                1 <= k,
                per >= 0,
        ;
    }
}

} // verus!
