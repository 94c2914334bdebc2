use tiny_adventure::{
    calculate_reward, compute_optimal_moves, deposit_sol, distribute_reward, game_is_consistent,
    generate_random_positions, initialize, move_player, reset, reset_game, DepositSol, Game,
    Initialize, Move, MyError, Quest, QuestPosition, Reset, Treasure,
};

const OWNER: [u8; 32] = [7u8; 32];
const PLAYER: [u8; 32] = [9u8; 32];

fn pos(x: u8, y: u8) -> QuestPosition {
    QuestPosition { x, y }
}

fn game(x: u8, y: u8, quests_reached: u8, moves_taken: u16) -> Game {
    Game { x, y, quests_reached, moves_taken }
}

fn scenario_quests() -> Vec<QuestPosition> {
    vec![pos(6, 5), pos(4, 3), pos(2, 1)]
}

fn move_ctx(g: Game, positions: Vec<QuestPosition>, balance: u64) -> Move {
    Move {
        game_account: g,
        quest_account: Quest { positions, original_positions: scenario_quests() },
        treasure_account: Treasure { owner: OWNER, balance },
        signer: PLAYER,
    }
}

#[test]
fn generator_decomposes_seed_digits() {
    assert_eq!(generate_random_positions(123456, 3), scenario_quests());
}

#[test]
fn generator_same_seed_same_list() {
    for seed in [0i64, 1, 99, 123456, 1_700_000_000, i64::MAX, i64::MIN, -42] {
        assert_eq!(generate_random_positions(seed, 3), generate_random_positions(seed, 3));
    }
}

#[test]
fn generator_skips_origin_pairs() {
    assert_eq!(generate_random_positions(100, 3), vec![pos(1, 0)]);
    assert_eq!(generate_random_positions(0, 3), vec![]);
    assert_eq!(generate_random_positions(123456, 0), vec![]);
}

#[test]
fn generator_keeps_repeats() {
    assert_eq!(generate_random_positions(121212, 3), vec![pos(2, 1), pos(2, 1), pos(2, 1)]);
}

#[test]
fn generator_negative_seed_uses_digits() {
    assert_eq!(generate_random_positions(-123456, 3), scenario_quests());
    for p in generate_random_positions(i64::MIN, 3) {
        assert!(p.x <= 9 && p.y <= 9);
    }
}

#[test]
fn optimal_moves_of_scenario() {
    assert_eq!(compute_optimal_moves(&vec![(6, 5), (4, 3), (2, 1)]), 18);
}

#[test]
fn optimal_moves_sorts_waypoints() {
    // sorted route (0,0) (1,9) (9,0) (9,9): 10 + 17 + 9
    assert_eq!(compute_optimal_moves(&vec![(9, 0), (1, 9)]), 36);
    assert_eq!(compute_optimal_moves(&vec![]), 18);
}

#[test]
fn reward_full_score() {
    assert_eq!(calculate_reward(18, 18, 3, 3), 1_000_000_000);
}

#[test]
fn reward_exact_values() {
    assert_eq!(calculate_reward(36, 18, 0, 3), 150_000_000);
    assert_eq!(calculate_reward(20, 18, 2, 3), 736_666_666);
}

#[test]
fn reward_is_clamped() {
    assert_eq!(calculate_reward(10, 18, 3, 3), 1_000_000_000);
    assert_eq!(calculate_reward(1, 65535, 255, 1), 1_000_000_000);
}

#[test]
fn reward_zero_cases() {
    assert_eq!(calculate_reward(65535, 0, 0, 3), 0);
    assert_eq!(calculate_reward(0, 0, 0, 0), 0);
    assert_eq!(calculate_reward(0, 50, 3, 0), 0);
}

#[test]
fn move_right_from_start() {
    let mut ctx = move_ctx(game(0, 0, 0, 0), scenario_quests(), 0);
    assert_eq!(move_player(&mut ctx, 3, 1), Ok(None));
    assert_eq!(ctx.game_account, game(1, 0, 0, 1));
    assert_eq!(ctx.quest_account.positions, scenario_quests());
}

#[test]
fn move_every_direction() {
    let mut ctx = move_ctx(game(5, 5, 0, 0), vec![], 0);
    assert_eq!(move_player(&mut ctx, 0, 1), Ok(None));
    assert_eq!((ctx.game_account.x, ctx.game_account.y), (5, 4));
    assert_eq!(move_player(&mut ctx, 1, 1), Ok(None));
    assert_eq!((ctx.game_account.x, ctx.game_account.y), (5, 5));
    assert_eq!(move_player(&mut ctx, 2, 1), Ok(None));
    assert_eq!((ctx.game_account.x, ctx.game_account.y), (4, 5));
    assert_eq!(move_player(&mut ctx, 3, 1), Ok(None));
    assert_eq!((ctx.game_account.x, ctx.game_account.y), (5, 5));
    assert_eq!(ctx.game_account.moves_taken, 4);
}

#[test]
fn invalid_move_changes_nothing() {
    let start = move_ctx(game(0, 0, 0, 4), scenario_quests(), 10);
    for direction in [0u8, 2, 4, 255] {
        let mut ctx = start.clone();
        assert_eq!(move_player(&mut ctx, direction, 1), Err(MyError::InvalidMove));
        assert_eq!(ctx, start);
    }
    let edge = move_ctx(game(9, 8, 0, 4), scenario_quests(), 10);
    let mut ctx = edge.clone();
    assert_eq!(move_player(&mut ctx, 3, 1), Err(MyError::InvalidMove));
    assert_eq!(ctx, edge);
}

#[test]
fn quest_pickup_counts_once_and_removes_all_copies() {
    let mut ctx = move_ctx(game(1, 1, 0, 3), vec![pos(2, 1), pos(4, 3), pos(2, 1)], 0);
    assert_eq!(move_player(&mut ctx, 3, 1), Ok(None));
    assert_eq!(ctx.game_account, game(2, 1, 1, 4));
    assert_eq!(ctx.quest_account.positions, vec![pos(4, 3)]);
    assert_eq!(ctx.quest_account.original_positions, scenario_quests());
}

#[test]
fn goal_pays_full_reward_and_resets() {
    let mut ctx = move_ctx(game(8, 9, 3, 17), vec![], 3_000_000_000);
    assert_eq!(move_player(&mut ctx, 3, 123456), Ok(Some(1_000_000_000)));
    assert_eq!(ctx.treasure_account.balance, 2_000_000_000);
    assert_eq!(ctx.treasure_account.owner, OWNER);
    assert_eq!(ctx.game_account, game(0, 0, 0, 0));
    assert_eq!(ctx.quest_account.positions, scenario_quests());
    assert_eq!(ctx.quest_account.original_positions, scenario_quests());
}

#[test]
fn goal_with_short_pool_changes_nothing() {
    let start = move_ctx(game(8, 9, 3, 17), vec![], 999_999_999);
    let mut ctx = start.clone();
    assert_eq!(move_player(&mut ctx, 3, 123456), Err(MyError::InsufficientBalance));
    assert_eq!(ctx, start);
}

#[test]
fn distribute_reward_debits_pool() {
    let q = Quest { positions: vec![], original_positions: scenario_quests() };
    let mut t = Treasure { owner: OWNER, balance: 1_000_000_000 };
    assert_eq!(distribute_reward(&mut t, &game(9, 9, 0, 36), &q), Ok(150_000_000));
    assert_eq!(t.balance, 850_000_000);
    let mut short = Treasure { owner: OWNER, balance: 1 };
    assert_eq!(distribute_reward(&mut short, &game(9, 9, 0, 36), &q), Err(MyError::InsufficientBalance));
    assert_eq!(short.balance, 1);
}

#[test]
fn moves_stay_on_board() {
    let mut ctx = move_ctx(game(0, 0, 0, 0), scenario_quests(), u64::MAX);
    let mut state: u32 = 12345;
    for _ in 0..2000 {
        state = state.wrapping_mul(1_103_515_245).wrapping_add(12345);
        let direction = ((state >> 16) % 6) as u8;
        let _ = move_player(&mut ctx, direction, 123456);
        assert!(ctx.game_account.x <= 9 && ctx.game_account.y <= 9);
        assert!(usize::from(ctx.game_account.quests_reached) <= ctx.quest_account.original_positions.len());
    }
}

#[test]
fn reset_restarts_game() {
    let mut ctx = Reset {
        game_account: game(4, 7, 2, 30),
        quest_account: Quest { positions: vec![pos(1, 1)], original_positions: vec![pos(1, 1), pos(2, 2)] },
        signer: PLAYER,
    };
    reset(&mut ctx, 987654);
    assert_eq!(ctx.game_account, game(0, 0, 0, 0));
    assert_eq!(ctx.quest_account.positions, vec![pos(4, 5), pos(6, 7), pos(8, 9)]);
    assert_eq!(ctx.quest_account.positions, ctx.quest_account.original_positions);
}

#[test]
fn reset_game_gives_independent_lists() {
    let mut g = game(3, 3, 1, 9);
    let mut q = Quest { positions: vec![], original_positions: vec![] };
    reset_game(&mut g, &mut q, 123456);
    q.positions.clear();
    assert_eq!(q.original_positions, scenario_quests());
    assert_eq!(g, game(0, 0, 0, 0));
}

#[test]
fn initialize_creates_missing_accounts() {
    let mut ctx = Initialize { game_account: None, quest_account: None, treasure_account: None, signer: PLAYER };
    initialize(&mut ctx, 123456);
    assert_eq!(ctx.game_account, Some(game(0, 0, 0, 0)));
    let q = ctx.quest_account.clone().unwrap();
    assert_eq!(q.positions, scenario_quests());
    assert_eq!(q.original_positions, scenario_quests());
    assert_eq!(ctx.treasure_account, Some(Treasure { owner: PLAYER, balance: 0 }));
}

#[test]
fn initialize_keeps_existing_accounts() {
    let existing = Initialize {
        game_account: Some(game(2, 3, 1, 5)),
        quest_account: Some(Quest { positions: vec![pos(4, 3)], original_positions: scenario_quests() }),
        treasure_account: Some(Treasure { owner: OWNER, balance: 77 }),
        signer: PLAYER,
    };
    let mut ctx = existing.clone();
    initialize(&mut ctx, 1);
    assert_eq!(ctx, existing);
}

#[test]
fn deposit_by_owner_adds_to_balance() {
    let mut ctx = DepositSol { owner: OWNER, treasure_account: Treasure { owner: OWNER, balance: 5 } };
    assert_eq!(deposit_sol(&mut ctx, 95), Ok(()));
    assert_eq!(ctx.treasure_account.balance, 100);
}

#[test]
fn deposit_by_stranger_is_unauthorized() {
    let start = DepositSol { owner: PLAYER, treasure_account: Treasure { owner: OWNER, balance: 5 } };
    let mut ctx = start;
    assert_eq!(deposit_sol(&mut ctx, 95), Err(MyError::Unauthorized));
    assert_eq!(ctx, start);
}

#[test]
fn consistency_check_of_stored_state() {
    let q = Quest { positions: vec![pos(4, 3)], original_positions: scenario_quests() };
    assert!(game_is_consistent(&game(9, 9, 2, 40), &q));
    assert!(!game_is_consistent(&game(9, 9, 3, 40), &q));
    assert!(!game_is_consistent(&game(10, 0, 0, 0), &q));
    let stray = Quest { positions: vec![pos(1, 1)], original_positions: scenario_quests() };
    assert!(!game_is_consistent(&game(0, 0, 0, 0), &stray));
    let off_board = Quest { positions: vec![], original_positions: vec![pos(12, 1)] };
    assert!(!game_is_consistent(&game(0, 0, 0, 0), &off_board));
    let too_many = Quest { positions: vec![], original_positions: vec![pos(1, 1); 4] };
    assert!(!game_is_consistent(&game(0, 0, 0, 0), &too_many));
}
