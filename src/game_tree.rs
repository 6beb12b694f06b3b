//! The transition model of the game and the arena of explored nodes.
use crate::{
    spec_opponent, Action, Claim, ClaimType, ClaimView, GameState, Move,
    MoveView, Phase, Player, StateView,
};
use rand::Rng;
use vstd::prelude::*;

verus! {

/// Where the outcome of a resolved claim comes from.
///
/// An outcome is a draw in thousandths: the claim holds when the draw is
/// below its success chance. `Random` draws uniformly from `0..1000` at
/// each resolution; `Fixed(d)` uses `d` every time, which makes the game
/// tree deterministic.
#[derive(Debug, Clone, Copy, PartialEq, Eq, Structural)]
pub enum ResolutionSource {
    Random,
    Fixed(u32),
}

/// Relies on rand's `thread_rng` and `Rng::gen_range` on `0..bound`: a value
/// in that range; `gen_range` panics only when the range is empty.
#[verifier::external_body]
fn random_below(bound: u32) -> (r: u32)
    requires
        bound > 0,
    ensures
        r < bound,
{
    rand::thread_rng().gen_range(0..bound)
}

impl ResolutionSource {
    /// The draw for one resolution.
    pub fn draw(&self) -> (r: u32)
        ensures
            match *self {
                ResolutionSource::Fixed(d) => r == d,
                ResolutionSource::Random => r < 1000,
            },
    {
        match self {
            ResolutionSource::Fixed(d) => *d,
            ResolutionSource::Random => random_below(1000),
        }
    }
}

/// The success chance of a claim of the given boldness, in thousandths:
/// 0.6 − boldness · 0.3.
pub open spec fn success_threshold(boldness: u32) -> int {
    600 - 3 * boldness
}

/// Whether a claim holds under the draw.
pub open spec fn claim_holds(boldness: u32, draw: u32) -> bool {
    draw < success_threshold(boldness)
}

/// Trust values far enough from the ends of `i32` for one trust change.
pub open spec fn trust_headroom(s: StateView) -> bool {
    i32::MIN + 15 <= s.player1_trust <= i32::MAX - 15 && i32::MIN + 15 <= s.player2_trust
        <= i32::MAX - 15
}

/// `s` with `delta` added to the trust of `p`.
pub open spec fn add_trust(s: StateView, p: Player, delta: int) -> StateView {
    match p {
        Player::Player1 => StateView { player1_trust: (s.player1_trust + delta) as i32, ..s },
        Player::Player2 => StateView { player2_trust: (s.player2_trust + delta) as i32, ..s },
    }
}

/// The trust change that resolving claim `c` by move `m` makes.
pub open spec fn resolve_view(s: StateView, m: MoveView, c: ClaimView, draw: u32) -> StateView {
    if m.action == Action::Challenge {
        if claim_holds(c.boldness, draw) {
            add_trust(s, m.player, -15)
        } else {
            add_trust(s, m.player, 15)
        }
    } else {
        add_trust(s, spec_opponent(m.player), 5)
    }
}

/// The state that applying `m` to `s` gives, with `draw` deciding a claim.
#[verifier::opaque]
pub open spec fn apply_view(s: StateView, m: MoveView, draw: u32) -> StateView {
    let next = if m.action == Action::MakeClaim {
        StateView { current_claim: m.claim, phase: Phase::Challenge, ..s }
    } else {
        let r = StateView { phase: Phase::Resolution, ..s };
        match s.current_claim {
            Some(c) => resolve_view(r, m, c, draw),
            None => r,
        }
    };
    StateView { move_history: s.move_history.push(m), ..next }
}

/// A state is terminal at round 20 or later, or at a trust of 100 or more,
/// or of −50 or less.
pub open spec fn terminal(s: StateView) -> bool {
    s.round >= 20 || s.player1_trust >= 100 || s.player2_trust >= 100 || s.player1_trust <= -50
        || s.player2_trust <= -50
}

pub open spec fn claim_type_at(i: int) -> ClaimType {
    if i == 0 {
        ClaimType::Information
    } else if i == 1 {
        ClaimType::Prediction
    } else if i == 2 {
        ClaimType::Accusation
    } else {
        ClaimType::Alliance
    }
}

/// Boldness levels 0.2, 0.4, 0.6, 0.8, in hundredths.
pub open spec fn boldness_at(level: int) -> u32 {
    (20 * (level + 1)) as u32
}

/// The `i`-th claim move: boldness levels outermost, claim types innermost.
pub open spec fn claim_move_view(p: Player, i: int) -> MoveView {
    let b = boldness_at(i / 4);
    MoveView {
        action: Action::MakeClaim,
        player: p,
        claim: Some(ClaimView { claim_type: claim_type_at(i % 4), boldness: b, is_bluff: b > 50 }),
        confidence: (1000 - 3 * b) as u32,
    }
}

pub open spec fn challenge_move_view(p: Player) -> MoveView {
    MoveView { action: Action::Challenge, player: p, claim: None, confidence: 700 }
}

pub open spec fn accept_move_view(p: Player) -> MoveView {
    MoveView { action: Action::Accept, player: p, claim: None, confidence: 600 }
}

/// The moves that `p` has in a phase, in generation order.
#[verifier::opaque]
pub open spec fn moves_view(phase: Phase, p: Player) -> Seq<MoveView> {
    match phase {
        Phase::Claim => Seq::new(16, |i: int| claim_move_view(p, i)),
        Phase::Challenge => seq![challenge_move_view(p), accept_move_view(p)],
        Phase::Resolution => Seq::empty(),
    }
}

/// The text of a generated claim of the given boldness.
pub open spec fn claim_description(boldness: u32) -> Seq<char> {
    if boldness == 20 {
        "Generated claim with boldness 0.2"@
    } else if boldness == 40 {
        "Generated claim with boldness 0.4"@
    } else if boldness == 60 {
        "Generated claim with boldness 0.6"@
    } else {
        "Generated claim with boldness 0.8"@
    }
}

/// A move whose claim, if any, carries the text generated for its boldness.
pub open spec fn described(m: Move) -> bool {
    m.claim is Some ==> m.claim->0.description@ == claim_description(m.claim->0.boldness)
}

pub open spec fn moves_views(v: Seq<Move>) -> Seq<MoveView> {
    v.map_values(|m: Move| m@)
}

/// Represents a node in the game tree.
#[derive(Debug)]
pub struct GameNode {
    pub state: GameState,
    pub parent: Option<usize>,
    pub children: Vec<usize>,
    pub evaluation: i64,
    pub move_from_parent: Option<Move>,
}

impl GameNode {
    pub fn new(state: GameState) -> (r: Self)
        ensures
            r.state == state,
            r.parent is None,
            r.children@.len() == 0,
            r.evaluation == 0,
            r.move_from_parent is None,
    {
        GameNode {
            state,
            parent: None,
            children: Vec::new(),
            evaluation: 0,
            move_from_parent: None,
        }
    }

    pub fn with_parent(state: GameState, parent: usize, move_made: Move) -> (r: Self)
        ensures
            r.state == state,
            r.parent == Some(parent),
            r.children@.len() == 0,
            r.evaluation == 0,
            r.move_from_parent == Some(move_made),
    {
        GameNode {
            state,
            parent: Some(parent),
            children: Vec::new(),
            evaluation: 0,
            move_from_parent: Some(move_made),
        }
    }
}

/// Game tree: an append-only arena of nodes referenced by index.
pub struct GameTree {
    nodes: Vec<GameNode>,
}

impl View for GameTree {
    type V = Seq<GameNode>;

    closed spec fn view(&self) -> Seq<GameNode> {
        self.nodes@
    }
}

impl GameTree {
    pub fn new(root_state: GameState) -> (r: Self)
        ensures
            r@.len() == 1,
            r@[0].state == root_state,
            r@[0].parent is None,
            r@[0].children@.len() == 0,
            r@[0].move_from_parent is None,
    {
        let root = GameNode::new(root_state);
        let mut nodes = Vec::new();
        nodes.push(root);
        GameTree { nodes }
    }

    pub fn root(&self) -> (r: &GameNode)
        requires
            self@.len() > 0,
        ensures
            *r == self@[0],
    {
        &self.nodes[0]
    }

    pub fn get_node(&self, index: usize) -> (r: Option<&GameNode>)
        ensures
            index < self@.len() ==> r == Some(&self@[index as int]),
            index >= self@.len() ==> r is None,
    {
        if index < self.nodes.len() {
            Some(&self.nodes[index])
        } else {
            None
        }
    }

    pub fn get_node_mut(&mut self, index: usize) -> (r: Option<&mut GameNode>)
        ensures
            index < old(self)@.len() ==> r is Some && *r->0 == old(self)@[index as int]
                && final(self)@ == old(self)@.update(index as int, *final(r->0)),
            index >= old(self)@.len() ==> r is None && final(self)@ == old(self)@,
    {
        if index < self.nodes.len() {
            Some(&mut self.nodes[index])
        } else {
            None
        }
    }

    /// Appends a child of node `parent_index` and returns its index.
    pub fn add_child(&mut self, parent_index: usize, state: GameState, move_made: Move) -> (r:
        usize)
        requires
            old(self)@.len() < usize::MAX,
        ensures
            r == old(self)@.len(),
            final(self)@.len() == old(self)@.len() + 1,
            final(self)@[r as int].state == state,
            final(self)@[r as int].parent == Some(parent_index),
            final(self)@[r as int].children@.len() == 0,
            final(self)@[r as int].evaluation == 0,
            final(self)@[r as int].move_from_parent == Some(move_made),
            forall|i: int|
                0 <= i < old(self)@.len() && i != parent_index ==> final(self)@[i] == old(
                    self,
                )@[i],
            parent_index < old(self)@.len() ==> final(self)@[parent_index as int].children@
                == old(self)@[parent_index as int].children@.push(r),
            parent_index < old(self)@.len() ==> final(self)@[parent_index as int].state == old(
                self,
            )@[parent_index as int].state,
            parent_index < old(self)@.len() ==> final(self)@[parent_index as int].parent == old(
                self,
            )@[parent_index as int].parent,
            parent_index < old(self)@.len() ==> final(self)@[parent_index as int].evaluation == old(
                self,
            )@[parent_index as int].evaluation,
            parent_index < old(self)@.len() ==> final(self)@[parent_index as int].move_from_parent
                == old(self)@[parent_index as int].move_from_parent,
    {
        let child_index = self.nodes.len();
        let child = GameNode::with_parent(state, parent_index, move_made);
        self.nodes.push(child);
        if parent_index < child_index {
            let mut parent = self.nodes.remove(parent_index);
            parent.children.push(child_index);
            self.nodes.insert(parent_index, parent);
        }
        child_index
    }

    pub fn generate_moves(&self, state: &GameState, player: Player) -> (r: Vec<Move>)
        ensures
            moves_views(r@) == moves_view(state.phase, player),
            state.phase == Phase::Claim ==> r@.len() == 16,
            state.phase == Phase::Challenge ==> r@.len() == 2,
            state.phase == Phase::Resolution ==> r@.len() == 0,
            forall|i: int|
                0 <= i < r@.len() && (#[trigger] r@[i]).claim is Some ==> r@[i].claim->0.description@
                    == claim_description(r@[i].claim->0.boldness),
    {
        reveal(moves_view);
        match state.phase {
            Phase::Claim => self.generate_claim_moves(state, player),
            Phase::Challenge => self.generate_challenge_moves(state, player),
            Phase::Resolution => Vec::new(),
        }
    }

    fn generate_claim_moves(&self, state: &GameState, player: Player) -> (r: Vec<Move>)
        ensures
            moves_views(r@) == moves_view(Phase::Claim, player),
            r@.len() == 16,
            forall|i: int|
                0 <= i < r@.len() && (#[trigger] r@[i]).claim is Some ==> r@[i].claim->0.description@
                    == claim_description(r@[i].claim->0.boldness),
    {
        let mut moves: Vec<Move> = Vec::new();
        let mut i: usize = 0;
        while i < 16
            invariant
                i <= 16,
                moves@.len() == i,
                forall|j: int| 0 <= j < i ==> (#[trigger] moves@[j])@ == claim_move_view(player, j),
                forall|j: int|
                    0 <= j < i && (#[trigger] moves@[j]).claim is Some
                        ==> moves@[j].claim->0.description@ == claim_description(
                        moves@[j].claim->0.boldness,
                    ),
            decreases 16 - i,
        {
            let level = i / 4;
            let boldness: u32 = 20 * (level as u32 + 1);
            let description = if level == 0 {
                "Generated claim with boldness 0.2".to_owned()
            } else if level == 1 {
                "Generated claim with boldness 0.4".to_owned()
            } else if level == 2 {
                "Generated claim with boldness 0.6".to_owned()
            } else {
                "Generated claim with boldness 0.8".to_owned()
            };
            let claim_type = if i % 4 == 0 {
                ClaimType::Information
            } else if i % 4 == 1 {
                ClaimType::Prediction
            } else if i % 4 == 2 {
                ClaimType::Accusation
            } else {
                ClaimType::Alliance
            };
            let claim = Claim { description, claim_type, boldness, is_bluff: boldness > 50 };
            let m = Move {
                action: Action::MakeClaim,
                player,
                claim: Some(claim),
                confidence: 1000 - 3 * boldness,
            };
            assert(m@ == claim_move_view(player, i as int));
            moves.push(m);
            i = i + 1;
        }
        reveal(moves_view);
        assert(moves_views(moves@) =~= moves_view(Phase::Claim, player));
        moves
    }

    fn generate_challenge_moves(&self, state: &GameState, player: Player) -> (r: Vec<Move>)
        ensures
            moves_views(r@) == moves_view(Phase::Challenge, player),
            r@.len() == 2,
            forall|i: int| 0 <= i < r@.len() ==> (#[trigger] r@[i]).claim is None,
    {
        let mut moves: Vec<Move> = Vec::new();
        moves.push(Move { action: Action::Challenge, player, claim: None, confidence: 700 });
        moves.push(Move { action: Action::Accept, player, claim: None, confidence: 600 });
        reveal(moves_view);
        assert(moves_views(moves@) =~= moves_view(Phase::Challenge, player));
        moves
    }

    /// Applies a move, deciding a resolved claim by the given draw.
    pub fn apply_move_with_draw(&self, state: &GameState, move_made: &Move, draw: u32) -> (r:
        GameState)
        requires
            trust_headroom(state@),
        ensures
            r@ == apply_view(state@, move_made@, draw),
            r.move_history@ == state.move_history@.push(*move_made),
            r.current_claim == if move_made.action == Action::MakeClaim {
                move_made.claim
            } else {
                state.current_claim
            },
    {
        reveal(apply_view);
        let mut new_state = state.clone();
        match move_made.action {
            Action::MakeClaim => {
                new_state.current_claim = move_made.claim.clone();
                new_state.phase = Phase::Challenge;
            },
            Action::Challenge | Action::Accept => {
                new_state.phase = Phase::Resolution;
                let threshold: i64 = match &new_state.current_claim {
                    Some(claim) => 600 - 3 * (claim.boldness as i64),
                    None => 0,
                };
                if new_state.current_claim.is_some() {
                    let is_successful = (draw as i64) < threshold;
                    if move_made.action == Action::Challenge {
                        if !is_successful {
                            match move_made.player {
                                Player::Player1 => new_state.player1_trust =
                                    new_state.player1_trust + 15,
                                Player::Player2 => new_state.player2_trust =
                                    new_state.player2_trust + 15,
                            }
                        } else {
                            match move_made.player {
                                Player::Player1 => new_state.player1_trust =
                                    new_state.player1_trust - 15,
                                Player::Player2 => new_state.player2_trust =
                                    new_state.player2_trust - 15,
                            }
                        }
                    } else {
                        match move_made.player.opponent() {
                            Player::Player1 => new_state.player1_trust =
                                new_state.player1_trust + 5,
                            Player::Player2 => new_state.player2_trust =
                                new_state.player2_trust + 5,
                        }
                    }
                }
            },
        }
        new_state.move_history.push(move_made.clone());
        assert(new_state@.move_history =~= state@.move_history.push(move_made@));
        new_state
    }

    /// Applies a move; a resolved claim is decided by a uniform random draw.
    pub fn apply_move(&self, state: &GameState, move_made: &Move) -> (r: GameState)
        requires
            trust_headroom(state@),
        ensures
            exists|d: u32| d < 1000 && r@ == apply_view(state@, move_made@, d),
            r.move_history@ == state.move_history@.push(*move_made),
            r.current_claim == if move_made.action == Action::MakeClaim {
                move_made.claim
            } else {
                state.current_claim
            },
    {
        let draw = ResolutionSource::Random.draw();
        self.apply_move_with_draw(state, move_made, draw)
    }

    pub fn is_terminal(&self, state: &GameState) -> (r: bool)
        ensures
            r == terminal(state@),
    {
        state.round >= 20 || state.player1_trust >= 100 || state.player2_trust >= 100
            || state.player1_trust <= -50 || state.player2_trust <= -50
    }

    pub fn node_count(&self) -> (r: usize)
        ensures
            r == self@.len(),
    {
        self.nodes.len()
    }
}

/// Terminal states: round 20 whatever the trust, a trust of 100 or of −50
/// whatever the round; round 5 with both trusts at 50 is not terminal.
pub proof fn lemma_terminal_cases(s: StateView)
    ensures
        s.round >= 20 ==> terminal(s),
        s.player1_trust >= 100 || s.player2_trust >= 100 ==> terminal(s),
        s.player1_trust <= -50 || s.player2_trust <= -50 ==> terminal(s),
        s.round == 5 && s.player1_trust == 50 && s.player2_trust == 50 ==> !terminal(s),
{
}

} // verus!
