//! Adversarial search for a two-player trust and bluffing game.
//!
//! Real-valued quantities of the game are held as exact integers:
//! a claim's boldness in hundredths, a move's confidence in thousandths,
//! and an evaluation score in units of `1 / SCORE_UNIT` of a point.
use vstd::prelude::*;

pub mod alpha_beta;
mod clock;
pub mod evaluation;
pub mod game_tree;
pub mod minimax;

pub use alpha_beta::AlphaBetaSearch;
pub use evaluation::{EvaluationWeights, Evaluator};
pub use game_tree::{GameNode, GameTree, ResolutionSource};
pub use minimax::MinimaxSearch;

verus! {

/// Score units per evaluation point.
pub const SCORE_UNIT: i64 = 30000;

/// The largest score magnitude an evaluation can have (100 points).
pub const MAX_SCORE: i64 = 3000000;

/// A bound below every score, standing for minus infinity in the searches.
pub const SCORE_NEG_INF: i64 = -3000001;

/// A bound above every score, standing for plus infinity in the searches.
pub const SCORE_POS_INF: i64 = 3000001;

/// A game state: the payload of a node of the game tree.
#[derive(Debug)]
pub struct GameState {
    pub round: u8,
    pub phase: Phase,
    pub player1_trust: i32,
    pub player2_trust: i32,
    pub current_claim: Option<Claim>,
    pub move_history: Vec<Move>,
}

#[derive(Debug, Clone, Copy, PartialEq, Eq, Structural)]
pub enum Phase {
    Claim,
    Challenge,
    Resolution,
}

/// A claim; `boldness` is in hundredths (0 to 100 stands for 0.0 to 1.0).
#[derive(Debug)]
pub struct Claim {
    pub description: String,
    pub claim_type: ClaimType,
    pub boldness: u32,
    pub is_bluff: bool,
}

#[derive(Debug, Clone, Copy, PartialEq, Eq, Structural)]
pub enum ClaimType {
    Information,
    Prediction,
    Accusation,
    Alliance,
}

/// A move; `confidence` is in thousandths (0 to 1000 stands for 0.0 to 1.0).
#[derive(Debug)]
pub struct Move {
    pub action: Action,
    pub player: Player,
    pub claim: Option<Claim>,
    pub confidence: u32,
}

#[derive(Debug, Clone, Copy, PartialEq, Eq, Structural)]
pub enum Action {
    MakeClaim,
    Challenge,
    Accept,
}

#[derive(Debug, Clone, Copy, PartialEq, Eq, Structural)]
pub enum Player {
    Player1,
    Player2,
}

/// What the game logic reads of a claim: all but its description.
pub struct ClaimView {
    pub claim_type: ClaimType,
    pub boldness: u32,
    pub is_bluff: bool,
}

/// What the game logic reads of a move.
pub struct MoveView {
    pub action: Action,
    pub player: Player,
    pub claim: Option<ClaimView>,
    pub confidence: u32,
}

/// What the game logic reads of a state.
pub struct StateView {
    pub round: u8,
    pub phase: Phase,
    pub player1_trust: i32,
    pub player2_trust: i32,
    pub current_claim: Option<ClaimView>,
    pub move_history: Seq<MoveView>,
}

pub open spec fn claim_option_view(c: Option<Claim>) -> Option<ClaimView> {
    match c {
        Some(c) => Some(c@),
        None => None,
    }
}

impl View for Claim {
    type V = ClaimView;

    open spec fn view(&self) -> ClaimView {
        ClaimView { claim_type: self.claim_type, boldness: self.boldness, is_bluff: self.is_bluff }
    }
}

impl View for Move {
    type V = MoveView;

    open spec fn view(&self) -> MoveView {
        MoveView {
            action: self.action,
            player: self.player,
            claim: claim_option_view(self.claim),
            confidence: self.confidence,
        }
    }
}

impl View for GameState {
    type V = StateView;

    open spec fn view(&self) -> StateView {
        StateView {
            round: self.round,
            phase: self.phase,
            player1_trust: self.player1_trust,
            player2_trust: self.player2_trust,
            current_claim: claim_option_view(self.current_claim),
            move_history: self.move_history@.map_values(|m: Move| m@),
        }
    }
}

impl Clone for Claim {
    fn clone(&self) -> (r: Self)
        ensures
            r == *self,
    {
        Claim {
            description: self.description.clone(),
            claim_type: self.claim_type,
            boldness: self.boldness,
            is_bluff: self.is_bluff,
        }
    }
}

impl Clone for Move {
    fn clone(&self) -> (r: Self)
        ensures
            r == *self,
    {
        Move {
            action: self.action,
            player: self.player,
            claim: self.claim.clone(),
            confidence: self.confidence,
        }
    }
}

impl Clone for GameState {
    fn clone(&self) -> (r: Self)
        ensures
            r@ == self@,
            r.current_claim == self.current_claim,
            r.move_history@ == self.move_history@,
    {
        let history = self.move_history.clone();
        assert(history@ =~= self.move_history@);
        GameState {
            round: self.round,
            phase: self.phase,
            player1_trust: self.player1_trust,
            player2_trust: self.player2_trust,
            current_claim: self.current_claim.clone(),
            move_history: history,
        }
    }
}

pub open spec fn spec_opponent(p: Player) -> Player {
    match p {
        Player::Player1 => Player::Player2,
        Player::Player2 => Player::Player1,
    }
}

impl Player {
    pub fn opponent(&self) -> (r: Player)
        ensures
            r == spec_opponent(*self),
            r != *self,
    {
        match self {
            Player::Player1 => Player::Player2,
            Player::Player2 => Player::Player1,
        }
    }
}

/// The player for a numeric identifier: 1 is the first player, any other
/// value the second.
pub fn player_from_id(id: u8) -> (r: Player)
    ensures
        r == (if id == 1 {
            Player::Player1
        } else {
            Player::Player2
        }),
{
    if id == 1 {
        Player::Player1
    } else {
        Player::Player2
    }
}

pub open spec fn action_name(a: Action) -> Seq<char> {
    match a {
        Action::MakeClaim => "MakeClaim"@,
        Action::Challenge => "Challenge"@,
        Action::Accept => "Accept"@,
    }
}

impl Action {
    /// The action's name, as a report shows it.
    pub fn name(&self) -> (r: String)
        ensures
            r@ == action_name(*self),
    {
        match self {
            Action::MakeClaim => "MakeClaim".to_owned(),
            Action::Challenge => "Challenge".to_owned(),
            Action::Accept => "Accept".to_owned(),
        }
    }
}

/// Taking the opponent twice gives back the player.
pub proof fn lemma_opponent_involution(p: Player)
    ensures
        spec_opponent(spec_opponent(p)) == p,
{
}

/// Result of a search: the chosen move and diagnostics. Minimax always
/// reports a move (the fallback where it selects none); alpha-beta reports
/// none when the root has no move to search.
#[derive(Debug)]
pub struct SearchResult {
    pub best_move: Option<Move>,
    pub evaluation: i64,
    pub nodes_explored: u64,
    pub depth_reached: u8,
    pub time_ms: u64,
}

} // verus!
