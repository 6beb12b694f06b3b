use rust_optimizer::{
    Action, Claim, ClaimType, GameState, GameTree, Move, Phase, Player, ResolutionSource,
};

fn create_test_state() -> GameState {
    GameState {
        round: 1,
        phase: Phase::Claim,
        player1_trust: 50,
        player2_trust: 50,
        current_claim: None,
        move_history: Vec::new(),
    }
}

fn claim_of(boldness: u32) -> Claim {
    Claim {
        description: "a claim".to_string(),
        claim_type: ClaimType::Information,
        boldness,
        is_bluff: boldness > 50,
    }
}

fn challenge_state(boldness: u32) -> GameState {
    let mut s = create_test_state();
    s.phase = Phase::Challenge;
    s.current_claim = Some(claim_of(boldness));
    s
}

#[test]
fn test_game_tree_creation() {
    let state = create_test_state();
    let tree = GameTree::new(state);
    assert_eq!(tree.node_count(), 1);
}

#[test]
fn test_generate_claim_moves() {
    let state = create_test_state();
    let tree = GameTree::new(state.clone());
    let moves = tree.generate_moves(&state, Player::Player1);
    assert!(!moves.is_empty());
}

#[test]
fn claim_phase_has_sixteen_moves() {
    let state = create_test_state();
    let tree = GameTree::new(state.clone());
    let moves = tree.generate_moves(&state, Player::Player2);
    assert_eq!(moves.len(), 16);
    let first = &moves[0];
    assert_eq!(first.action, Action::MakeClaim);
    assert_eq!(first.player, Player::Player2);
    assert_eq!(first.confidence, 940);
    let claim = first.claim.as_ref().unwrap();
    assert_eq!(claim.boldness, 20);
    assert_eq!(claim.claim_type, ClaimType::Information);
    assert!(!claim.is_bluff);
    assert_eq!(claim.description, "Generated claim with boldness 0.2");
    let last = &moves[15];
    let claim = last.claim.as_ref().unwrap();
    assert_eq!(claim.boldness, 80);
    assert_eq!(claim.claim_type, ClaimType::Alliance);
    assert!(claim.is_bluff);
    assert_eq!(last.confidence, 760);
    assert_eq!(claim.description, "Generated claim with boldness 0.8");
    let third_level = moves[9].claim.as_ref().unwrap();
    assert_eq!(third_level.boldness, 60);
    assert_eq!(third_level.claim_type, ClaimType::Prediction);
}

#[test]
fn challenge_phase_has_two_moves() {
    let state = challenge_state(40);
    let tree = GameTree::new(state.clone());
    let moves = tree.generate_moves(&state, Player::Player1);
    assert_eq!(moves.len(), 2);
    assert_eq!(moves[0].action, Action::Challenge);
    assert_eq!(moves[0].confidence, 700);
    assert_eq!(moves[1].action, Action::Accept);
    assert_eq!(moves[1].confidence, 600);
}

#[test]
fn resolution_phase_has_no_moves() {
    let mut state = create_test_state();
    state.phase = Phase::Resolution;
    let tree = GameTree::new(state.clone());
    assert!(tree.generate_moves(&state, Player::Player1).is_empty());
}

#[test]
fn terminal_states() {
    let tree = GameTree::new(create_test_state());
    let mut s = create_test_state();
    s.round = 5;
    assert!(!tree.is_terminal(&s));
    s.round = 20;
    assert!(tree.is_terminal(&s));
    s.player1_trust = -500;
    assert!(tree.is_terminal(&s));
    let mut t = create_test_state();
    t.round = 3;
    t.player2_trust = 100;
    assert!(tree.is_terminal(&t));
    t.player2_trust = 99;
    assert!(!tree.is_terminal(&t));
    t.player1_trust = -50;
    assert!(tree.is_terminal(&t));
    t.player1_trust = -49;
    assert!(!tree.is_terminal(&t));
}

#[test]
fn making_a_claim_moves_to_the_challenge_phase() {
    let state = create_test_state();
    let tree = GameTree::new(state.clone());
    let moves = tree.generate_moves(&state, Player::Player1);
    let next = tree.apply_move_with_draw(&state, &moves[5], 0);
    assert_eq!(next.phase, Phase::Challenge);
    assert_eq!(next.current_claim.as_ref().unwrap().boldness, 40);
    assert_eq!(next.move_history.len(), 1);
    assert_eq!(next.player1_trust, 50);
    assert_eq!(state.phase, Phase::Claim);
    assert!(state.move_history.is_empty());
}

#[test]
fn challenge_of_a_holding_claim_costs_trust() {
    // Boldness 0.2: the claim holds below a draw of 540 thousandths.
    let state = challenge_state(20);
    let tree = GameTree::new(state.clone());
    let challenge = Move { action: Action::Challenge, player: Player::Player1, claim: None, confidence: 700 };
    let held = tree.apply_move_with_draw(&state, &challenge, 539);
    assert_eq!(held.player1_trust, 35);
    assert_eq!(held.player2_trust, 50);
    assert_eq!(held.phase, Phase::Resolution);
    let exposed = tree.apply_move_with_draw(&state, &challenge, 540);
    assert_eq!(exposed.player1_trust, 65);
    assert_eq!(exposed.move_history.len(), 1);
    assert_eq!(exposed.move_history[0].action, Action::Challenge);
}

#[test]
fn accepting_rewards_the_claimant() {
    let state = challenge_state(80);
    let tree = GameTree::new(state.clone());
    let accept = Move { action: Action::Accept, player: Player::Player2, claim: None, confidence: 600 };
    let next = tree.apply_move_with_draw(&state, &accept, 0);
    assert_eq!(next.player1_trust, 55);
    assert_eq!(next.player2_trust, 50);
    assert_eq!(next.phase, Phase::Resolution);
}

#[test]
fn resolving_without_a_claim_changes_no_trust() {
    let mut state = create_test_state();
    state.phase = Phase::Challenge;
    let tree = GameTree::new(state.clone());
    let challenge = Move { action: Action::Challenge, player: Player::Player1, claim: None, confidence: 700 };
    let next = tree.apply_move_with_draw(&state, &challenge, 0);
    assert_eq!(next.player1_trust, 50);
    assert_eq!(next.phase, Phase::Resolution);
}

#[test]
fn random_resolution_gives_one_of_two_outcomes() {
    let state = challenge_state(60);
    let tree = GameTree::new(state.clone());
    let challenge = Move { action: Action::Challenge, player: Player::Player2, claim: None, confidence: 700 };
    for _ in 0..50 {
        let next = tree.apply_move(&state, &challenge);
        assert!(next.player2_trust == 35 || next.player2_trust == 65);
        assert_eq!(next.player1_trust, 50);
        assert_eq!(next.move_history.len(), 1);
    }
}

#[test]
fn random_draws_stay_below_one_thousand() {
    for _ in 0..2000 {
        assert!(ResolutionSource::Random.draw() < 1000);
    }
    assert_eq!(ResolutionSource::Fixed(1234).draw(), 1234);
}

#[test]
fn tree_arena_links_children() {
    let state = create_test_state();
    let mut tree = GameTree::new(state.clone());
    let moves = tree.generate_moves(&state, Player::Player1);
    let child_state = tree.apply_move_with_draw(&state, &moves[0], 0);
    let c = tree.add_child(0, child_state, moves[0].clone());
    assert_eq!(c, 1);
    assert_eq!(tree.node_count(), 2);
    assert_eq!(tree.root().children, vec![1]);
    let node = tree.get_node(1).unwrap();
    assert_eq!(node.parent, Some(0));
    assert_eq!(node.move_from_parent.as_ref().unwrap().action, Action::MakeClaim);
    assert!(tree.get_node(2).is_none());
    tree.get_node_mut(1).unwrap().evaluation = 7;
    assert_eq!(tree.get_node(1).unwrap().evaluation, 7);
    assert!(tree.get_node_mut(5).is_none());
}
