use rust_optimizer::{
    EvaluationWeights, Evaluator, GameState, Move, Phase, Player, Action, MAX_SCORE, SCORE_UNIT,
};

fn create_test_state(p1_trust: i32, p2_trust: i32) -> GameState {
    GameState {
        round: 10,
        phase: Phase::Claim,
        player1_trust: p1_trust,
        player2_trust: p2_trust,
        current_claim: None,
        move_history: Vec::new(),
    }
}

fn plain_move(player: Player, confidence: u32) -> Move {
    Move { action: Action::Challenge, player, claim: None, confidence }
}

#[test]
fn test_evaluator_balanced() {
    let evaluator = Evaluator::new();
    let state = create_test_state(50, 50);
    let eval = evaluator.evaluate(&state, Player::Player1);

    assert!(eval.abs() < 10 * SCORE_UNIT); // Should be near zero for balanced state
}

#[test]
fn test_evaluator_advantage() {
    let evaluator = Evaluator::new();
    let state = create_test_state(80, 30);
    let eval = evaluator.evaluate(&state, Player::Player1);

    assert!(eval > 0); // Player1 should have positive evaluation
}

#[test]
fn test_evaluator_disadvantage() {
    let evaluator = Evaluator::new();
    let state = create_test_state(20, 70);
    let eval = evaluator.evaluate(&state, Player::Player1);

    assert!(eval < 0); // Player1 should have negative evaluation
}

#[test]
fn advantage_is_negative_for_the_other_player() {
    let state = create_test_state(80, 30);
    assert!(Evaluator::new().evaluate(&state, Player::Player2) < 0);
}

#[test]
fn balanced_is_zero_for_either_player() {
    let state = create_test_state(50, 50);
    assert_eq!(Evaluator::new().evaluate(&state, Player::Player1), 0);
    assert_eq!(Evaluator::new().evaluate(&state, Player::Player2), 0);
}

#[test]
fn exact_score_with_trust_lead() {
    // (80 - 30) / 3 points plus half of the 20-point bonus for trust 80.
    let state = create_test_state(80, 30);
    assert_eq!(Evaluator::new().evaluate(&state, Player::Player1), 800000);
    assert_eq!(Evaluator::new().evaluate(&state, Player::Player2), -500000);
}

#[test]
fn exact_score_late_in_the_game() {
    // Round 16: a lead of 10 adds 10 * (2 * 16 / 20) * 0.3 points.
    let mut state = create_test_state(60, 50);
    state.round = 16;
    assert_eq!(Evaluator::new().evaluate(&state, Player::Player1), 244000);
    state.round = 15;
    assert_eq!(Evaluator::new().evaluate(&state, Player::Player1), 100000);
}

#[test]
fn exact_momentum_score() {
    // Three own moves at confidence 0.7: (0.7 - 0.5) * 20 * 0.7 points.
    let mut state = create_test_state(50, 50);
    for _ in 0..3 {
        state.move_history.push(plain_move(Player::Player1, 700));
    }
    assert_eq!(Evaluator::new().evaluate(&state, Player::Player1), 84000);
    // The other player made none of the recent moves.
    assert_eq!(Evaluator::new().evaluate(&state, Player::Player2), 0);
}

#[test]
fn momentum_needs_three_moves() {
    let mut state = create_test_state(50, 50);
    state.move_history.push(plain_move(Player::Player1, 1000));
    state.move_history.push(plain_move(Player::Player1, 1000));
    assert_eq!(Evaluator::new().evaluate(&state, Player::Player1), 0);
}

#[test]
fn momentum_reads_the_last_five_moves() {
    let mut state = create_test_state(50, 50);
    state.move_history.push(plain_move(Player::Player1, 1000));
    for _ in 0..5 {
        state.move_history.push(plain_move(Player::Player2, 600));
    }
    assert_eq!(Evaluator::new().evaluate(&state, Player::Player1), 0);
    // Five own moves at 0.6: (0.6 - 0.5) * 20 * 0.7 points.
    assert_eq!(Evaluator::new().evaluate(&state, Player::Player2), 42000);
}

#[test]
fn exact_position_advantage() {
    // Trust 90 against 85: 5/3 points, +10 for trust of 80 or more, and
    // 30 points at weight 0.8 for own trust of 90 or more.
    let state = create_test_state(90, 85);
    assert_eq!(Evaluator::new().evaluate(&state, Player::Player1), 50000 + 300000 + 720000);
    assert_eq!(Evaluator::new().evaluate(&state, Player::Player2), -50000 + 300000 - 720000);
}

#[test]
fn evaluation_is_clamped_to_one_hundred_points() {
    let state = create_test_state(95, -45);
    assert_eq!(Evaluator::new().evaluate(&state, Player::Player1), MAX_SCORE);
    let mut late = create_test_state(i32::MAX, i32::MIN);
    late.round = 19;
    assert_eq!(Evaluator::new().evaluate(&late, Player::Player2), -MAX_SCORE);
    assert_eq!(Evaluator::new().evaluate(&late, Player::Player1), MAX_SCORE);
}

#[test]
fn evaluation_stays_in_range_over_many_states() {
    let evaluator = Evaluator::new();
    for t1 in [-60, -50, -40, 0, 1, 50, 79, 80, 90, 100, 150] {
        for t2 in [-60, -40, 0, 30, 90, 120] {
            for round in [0u8, 10, 15, 16, 19, 20, 255] {
                let mut s = create_test_state(t1, t2);
                s.round = round;
                for p in [Player::Player1, Player::Player2] {
                    let e = evaluator.evaluate(&s, p);
                    assert!(-MAX_SCORE <= e && e <= MAX_SCORE);
                }
            }
        }
    }
}

#[test]
fn custom_weights_change_the_score() {
    let weights = EvaluationWeights {
        trust_differential: 20,
        trust_absolute: 0,
        round_progress: 0,
        momentum: 0,
        position_advantage: 0,
    };
    let state = create_test_state(80, 30);
    assert_eq!(Evaluator::with_weights(weights).evaluate(&state, Player::Player1), 1000000);
    assert_eq!(EvaluationWeights::default().trust_differential, 10);
}
