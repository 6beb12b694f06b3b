use rust_optimizer::{
    AlphaBetaSearch, Claim, ClaimType, GameState, MinimaxSearch, Phase, Player, ResolutionSource,
    MAX_SCORE,
};

fn create_test_state() -> GameState {
    GameState {
        round: 1,
        phase: Phase::Claim,
        player1_trust: 50,
        player2_trust: 50,
        current_claim: None,
        move_history: Vec::new(),
    }
}

fn sample_states() -> Vec<GameState> {
    let mut states = vec![create_test_state()];
    let mut late = create_test_state();
    late.round = 17;
    late.player1_trust = 85;
    late.player2_trust = 40;
    states.push(late);
    let mut challenge = create_test_state();
    challenge.phase = Phase::Challenge;
    challenge.player1_trust = 95;
    challenge.player2_trust = -40;
    challenge.current_claim = Some(Claim {
        description: "pending".to_string(),
        claim_type: ClaimType::Accusation,
        boldness: 70,
        is_bluff: true,
    });
    states.push(challenge);
    states
}

#[test]
fn test_alpha_beta_search() {
    let mut search = AlphaBetaSearch::new(4, false);
    let state = create_test_state();
    let result = search.search(&state, Player::Player1);

    assert!(result.nodes_explored > 0);
}

#[test]
fn test_parallel_search() {
    let mut search = AlphaBetaSearch::new(4, true);
    let state = create_test_state();
    let result = search.search(&state, Player::Player1);

    assert!(result.nodes_explored > 0);
}

#[test]
fn test_minimax_search() {
    let mut search = MinimaxSearch::new(3);
    let state = create_test_state();
    let result = search.search(&state, Player::Player1);

    assert!(result.nodes_explored > 0);
    assert!(result.depth_reached > 0);
}

#[test]
fn end_to_end_sequential_depth_four() {
    let mut search = AlphaBetaSearch::new(4, false);
    let result = search.search(&create_test_state(), Player::Player1);
    assert!(result.nodes_explored > 0);
    assert_eq!(result.depth_reached, 4);
    assert!(-MAX_SCORE <= result.evaluation && result.evaluation <= MAX_SCORE);
}

#[test]
fn alpha_beta_matches_minimax_under_fixed_draws() {
    for state in sample_states() {
        for draw in [0u32, 300, 450, 999] {
            for depth in 0u8..=4 {
                for player in [Player::Player1, Player::Player2] {
                    let source = ResolutionSource::Fixed(draw);
                    let mm = MinimaxSearch::with_resolution(depth, source).search(&state, player);
                    let ab = AlphaBetaSearch::with_resolution(depth, false, source)
                        .search(&state, player);
                    assert_eq!(mm.evaluation, ab.evaluation);
                    assert!(ab.nodes_explored <= mm.nodes_explored);
                    let mm_move = mm.best_move.as_ref().unwrap();
                    match ab.best_move.as_ref() {
                        None => {
                            assert_eq!(depth, 0);
                            assert_eq!(mm_move.action, rust_optimizer::Action::Accept);
                            assert_eq!(mm_move.confidence, 500);
                        }
                        Some(ab_move) => {
                            assert_eq!(ab_move.action, mm_move.action);
                            assert_eq!(ab_move.confidence, mm_move.confidence);
                            assert_eq!(
                                ab_move.claim.as_ref().map(|c| (c.boldness, c.claim_type)),
                                mm_move.claim.as_ref().map(|c| (c.boldness, c.claim_type))
                            );
                        }
                    }
                }
            }
        }
    }
}

#[test]
fn pruning_visits_strictly_fewer_nodes() {
    let source = ResolutionSource::Fixed(500);
    let state = create_test_state();
    let mm = MinimaxSearch::with_resolution(2, source).search(&state, Player::Player1);
    let ab = AlphaBetaSearch::with_resolution(2, false, source).search(&state, Player::Player1);
    // Root, sixteen claim replies, and two resolutions under each.
    assert_eq!(mm.nodes_explored, 49);
    assert!(ab.nodes_explored < mm.nodes_explored);
    assert_eq!(ab.evaluation, mm.evaluation);
}

#[test]
fn parallel_root_matches_minimax_under_fixed_draws() {
    for state in sample_states() {
        for draw in [0u32, 450, 999] {
            let source = ResolutionSource::Fixed(draw);
            let mm = MinimaxSearch::with_resolution(5, source).search(&state, Player::Player1);
            let par = AlphaBetaSearch::with_resolution(5, true, source).search(&state, Player::Player1);
            assert_eq!(par.evaluation, mm.evaluation);
            assert_eq!(par.best_move.as_ref().unwrap().action, mm.best_move.as_ref().unwrap().action);
            assert_eq!(par.best_move.as_ref().unwrap().confidence, mm.best_move.as_ref().unwrap().confidence);
            assert_eq!(
                par.best_move.as_ref().unwrap().claim.as_ref().map(|c| (c.boldness, c.claim_type)),
                mm.best_move.as_ref().unwrap().claim.as_ref().map(|c| (c.boldness, c.claim_type))
            );
            assert!(par.nodes_explored > 0);
        }
    }
}

#[test]
fn parallel_node_count_sums_the_branches() {
    let source = ResolutionSource::Fixed(0);
    let state = create_test_state();
    let mut par = AlphaBetaSearch::with_resolution(4, true, source);
    let result = par.search(&state, Player::Player1);
    // Each branch from a full window visits its claim reply and both resolutions.
    assert_eq!(result.nodes_explored, 1 + 16 * 3);
    let mut seq = AlphaBetaSearch::with_resolution(4, true, source);
    seq.set_parallel(false);
    let sequential = seq.search(&state, Player::Player1);
    assert_eq!(sequential.evaluation, result.evaluation);
    assert!(sequential.nodes_explored <= result.nodes_explored);
}

#[test]
fn terminal_root_yields_the_fallback_move() {
    let mut state = create_test_state();
    state.round = 20;
    let result = MinimaxSearch::new(3).search(&state, Player::Player1);
    assert_eq!(result.nodes_explored, 1);
    assert_eq!(result.best_move.as_ref().unwrap().action, rust_optimizer::Action::Accept);
    assert_eq!(result.best_move.as_ref().unwrap().confidence, 500);
    assert!(result.best_move.as_ref().unwrap().claim.is_none());
    let par = AlphaBetaSearch::new(5, true).search(&state, Player::Player2);
    assert!(par.best_move.is_none());
    assert_eq!(par.nodes_explored, 1);
    let seq = AlphaBetaSearch::new(3, false).search(&state, Player::Player1);
    assert!(seq.best_move.is_none());
    assert_eq!(seq.nodes_explored, 1);
    assert_eq!(seq.evaluation, rust_optimizer::Evaluator::new().evaluate(&state, Player::Player1));
}

#[test]
fn depth_zero_evaluates_the_root() {
    let state = create_test_state();
    let result = AlphaBetaSearch::new(0, false).search(&state, Player::Player1);
    assert!(result.best_move.is_none());
    assert_eq!(result.nodes_explored, 1);
    assert_eq!(result.evaluation, 0);
    assert_eq!(result.depth_reached, 0);
}

#[test]
fn random_searches_pick_a_root_move() {
    let state = create_test_state();
    let mm = MinimaxSearch::new(3).search(&state, Player::Player1);
    assert_eq!(mm.best_move.as_ref().unwrap().action, rust_optimizer::Action::MakeClaim);
    assert_eq!(mm.best_move.as_ref().unwrap().player, Player::Player1);
    let claim = mm.best_move.as_ref().unwrap().claim.as_ref().unwrap();
    assert_eq!(
        claim.description,
        format!("Generated claim with boldness 0.{}", claim.boldness / 10)
    );
    let ab = AlphaBetaSearch::new(3, false).search(&state, Player::Player2);
    assert_eq!(ab.best_move.as_ref().unwrap().action, rust_optimizer::Action::MakeClaim);
    assert_eq!(ab.best_move.as_ref().unwrap().player, Player::Player2);
}

#[test]
fn random_minimax_from_a_leaf_root_is_exact() {
    let mut state = create_test_state();
    state.phase = Phase::Resolution;
    let result = MinimaxSearch::new(4).search(&state, Player::Player2);
    assert_eq!(result.nodes_explored, 1);
    assert_eq!(result.evaluation, 0);
    let m = result.best_move.unwrap();
    assert_eq!(m.action, rust_optimizer::Action::Accept);
    assert_eq!(m.confidence, 500);
}

#[test]
fn random_searches_agree_on_a_tree_without_claims() {
    // From a challenge with no pending claim nothing is drawn that matters.
    let mut state = create_test_state();
    state.phase = Phase::Challenge;
    let fixed = MinimaxSearch::with_resolution(3, ResolutionSource::Fixed(0)).search(&state, Player::Player1);
    let random = MinimaxSearch::new(3).search(&state, Player::Player1);
    let pruned = AlphaBetaSearch::new(3, false).search(&state, Player::Player1);
    assert_eq!(random.evaluation, fixed.evaluation);
    assert_eq!(pruned.evaluation, fixed.evaluation);
    assert_eq!(random.nodes_explored, fixed.nodes_explored);
}
