use std::collections::HashSet;

use botbowl::board::BoardDims;
use botbowl::builder::GameStateBuilder;
use botbowl::dice::{
    BlockDice, BlockDicePolicy, D6Target, DicePolicy, FixedDice, RequestedRoll, RollResult, Sum2D6Target, D6,
};
use botbowl::gamestate::{get_roll_result, DiceMode, GameInfo, GameState, IllegalMovePosition, InvalidPlayerId};
use botbowl::model::{BallState, DugoutPlace, PlayerStatus, Position, TeamType, Weather, HEIGHT_, WIDTH_};
use botbowl::player::PlayerStats;
use botbowl::table::{NumBlockDices, PlayerRole};
use rand::SeedableRng;
use rand_chacha::ChaCha8Rng;

#[test]
fn a_new_game_has_not_started() {
    let info = GameInfo::new();
    assert_eq!(info.half, 0);
    assert_eq!((info.home_turn, info.away_turn), (0, 0));
    assert_eq!(info.team_turn, TeamType::Away);
    assert_eq!(info.weather, Weather::Nice);
    assert!(info.blitz_available && info.pass_available && info.foul_available && info.handoff_available);
    assert!(!info.game_over && info.winner.is_none());
}

#[test]
fn rolls_follow_the_dice_mode() {
    let mut rng = ChaCha8Rng::seed_from_u64(5);
    let mut fixed = FixedDice::new();
    fixed.fix_d6(6);
    let mut mode = DiceMode::FixedDice(fixed);
    assert_eq!(get_roll_result(&mut mode, RequestedRoll::D6, &mut rng), RollResult::D6(D6::Six));
    assert_eq!(mode, DiceMode::default());

    let mut mode = DiceMode::DicePolicy(DicePolicy::SucceedAtOrEasier {
        d6: D6Target::ThreePlus,
        sum2d6: Sum2D6Target::SevenPlus,
        block_dice: BlockDicePolicy::Default,
    });
    assert_eq!(
        get_roll_result(&mut mode, RequestedRoll::D6PassFail(D6Target::FivePlus), &mut rng),
        RollResult::Fail
    );

    let mut mode = DiceMode::RollDice;
    for _ in 0..20 {
        let r = get_roll_result(&mut mode, RequestedRoll::D6, &mut rng);
        assert!(RequestedRoll::D6.is_compatible(r));
    }
    assert_eq!(mode, DiceMode::RollDice);
}

fn full_board() -> BoardDims {
    BoardDims::new(28, 17, 11)
}

/// Home on (1,2), (2,2), (3,1) and Away on (5,2), (5,5), (2,3), in that order of ids.
fn standard_placement() -> GameState {
    let mut state = GameState::empty_state_with(full_board());
    for (x, y) in [(1, 2), (2, 2), (3, 1)] {
        state.add_new_player_to_field(PlayerStats::new_lineman(TeamType::Home), Position::new((x, y))).unwrap();
    }
    for (x, y) in [(5, 2), (5, 5), (2, 3)] {
        state.add_new_player_to_field(PlayerStats::new_lineman(TeamType::Away), Position::new((x, y))).unwrap();
    }
    state
}

#[test]
fn player_unique_id_and_correct_positions() {
    let state = standard_placement();
    let mut ids = Vec::new();
    for x in 0..WIDTH_ {
        for y in 0..HEIGHT_ {
            let pos = Position::new((x, y));
            if let Some(player) = state.get_player_at(pos) {
                assert_eq!(player.position, pos);
                assert!(!ids.contains(&player.id));
                ids.push(player.id);
            }
        }
    }
    assert_eq!(ids.len(), 6);
    assert_eq!(0, ids.into_iter().filter(|id| *id >= 22).count());
}

#[test]
fn adjescent() {
    let state = standard_placement();
    let num_adj = state.get_adj_players(Position::new((2, 2))).len();
    assert_eq!(num_adj, 3);
}

#[test]
fn move_player() {
    let mut state = standard_placement();
    let id = 1;
    let old_pos = Position::new((2, 2));
    let new_pos = Position::new((WIDTH_ / 2, HEIGHT_ / 2));

    assert_eq!(state.get_player_id_at(old_pos), Some(id));
    assert_eq!(state.get_player(id).unwrap().position, old_pos);
    assert!(state.get_player_id_at(new_pos).is_none());

    state.move_player(id, new_pos).unwrap();

    assert!(state.get_player_id_at(old_pos).is_none());
    assert_eq!(state.get_player_id_at(new_pos), Some(id));
    assert_eq!(state.get_player(id).unwrap().position, new_pos);
}

#[test]
fn field_a_player() {
    let mut state = standard_placement();
    let player_stats = PlayerStats::new_lineman(TeamType::Home);
    let position = Position::new((WIDTH_ / 2, HEIGHT_ / 2));

    assert!(state.get_player_id_at(position).is_none());

    let id = state.add_new_player_to_field(player_stats, position).unwrap();

    assert_eq!(state.get_player_id_at(position), Some(id));
    assert_eq!(state.get_player(id).unwrap().position, position);

    state.unfield_player(id, DugoutPlace::Reserves).unwrap();

    assert!(state.get_player_id_at(position).is_none());
}

#[test]
fn test_unfield_all_players() {
    let mut state = standard_placement();
    state.set_ball(BallState::OnGround(Position::new((3, 2))));
    assert_eq!(state.get_players_on_pitch().len(), 6);
    state.unfield_all_players().unwrap();

    assert_eq!(state.get_players_on_pitch().len(), 0);
    assert_eq!(state.get_dugout().len(), 6);
    assert!(state.get_dugout().iter().all(|d| d.place == DugoutPlace::Reserves));
}

#[test]
fn test_clear_all_players() {
    let mut state = standard_placement();
    state.set_ball(BallState::OnGround(Position::new((3, 2))));
    assert_eq!(state.get_dugout().len(), 0);
    assert_eq!(state.get_players_on_pitch().len(), 6);

    state.clear_all_players().unwrap();

    assert_eq!(state.get_players_on_pitch().len(), 0);
    assert_eq!(state.get_dugout().len(), 0);
}

#[test]
fn new_players_take_the_first_free_slot_and_an_occupied_square_is_refused() {
    let mut state = standard_placement();
    state.unfield_player(1, DugoutPlace::KnockOut).unwrap();
    let id = state
        .add_new_player_to_field(PlayerStats::new_blitzer(TeamType::Home), Position::new((9, 9)))
        .unwrap();
    assert_eq!(id, 1);
    let fresh = state.get_player(1).unwrap();
    assert_eq!(fresh.status, PlayerStatus::Up);
    assert!(!fresh.used);
    assert_eq!(fresh.moves, 0);
    assert_eq!(
        state.add_new_player_to_field(PlayerStats::new_lineman(TeamType::Away), Position::new((9, 9))),
        Err(IllegalMovePosition { position: Position::new((9, 9)) })
    );
    let dugout = state.get_dugout();
    assert_eq!(dugout.len(), 1);
    assert_eq!(dugout[0].id, 0);
    assert_eq!(dugout[0].place, DugoutPlace::KnockOut);
}

#[test]
fn fielding_a_reserve_empties_its_dugout_slot() {
    let mut state = GameState::empty_state_with(full_board());
    state.dugout_add_new_player(PlayerStats::new_catcher(TeamType::Away), DugoutPlace::Reserves);
    state.dugout_add_new_player(PlayerStats::new_thrower(TeamType::Away), DugoutPlace::Reserves);
    assert_eq!(state.get_dugout_player(1).unwrap().stats.role, PlayerRole::Thrower);
    state.field_dugout_player(1, Position::new((20, 8)));
    assert!(state.get_dugout_player(1).is_none());
    let p = state.get_player_at(Position::new((20, 8))).unwrap();
    assert_eq!(p.id, 0);
    assert_eq!(p.stats.role, PlayerRole::Thrower);
}

#[test]
fn moving_an_absent_player_is_an_error() {
    let mut state = standard_placement();
    assert_eq!(state.move_player(7, Position::new((10, 10))), Err(InvalidPlayerId { id: 7 }));
    assert_eq!(state.get_players_on_pitch().len(), 6);
}

#[test]
fn the_ball_keeps_its_trail_only_in_the_air() {
    let mut state = standard_placement();
    state.set_ball(BallState::InAir(Position::new((7, 7))));
    state.set_ball(BallState::InAir(Position::new((8, 7))));
    assert_eq!(state.bounce_squares(), &vec![Position::new((7, 7)), Position::new((8, 7))]);
    assert_eq!(state.get_ball_position(), Some(Position::new((8, 7))));
    state.set_ball(BallState::Carried(4));
    assert!(state.bounce_squares().is_empty());
    assert_eq!(state.get_ball_position(), Some(Position::new((5, 5))));
}

#[test]
fn activating_a_player_starts_a_fresh_activation() {
    let mut state = standard_placement();
    state.info.pickup_this_activation = true;
    state.info.blitz_this_activation = true;
    assert!(state.get_active_player().is_none());
    state.set_active_player(2);
    assert_eq!(state.get_active_player().unwrap().position, Position::new((3, 1)));
    assert!(!state.info.pickup_this_activation && !state.info.blitz_this_activation);
    state.unfield_player(2, DugoutPlace::Reserves).unwrap();
    assert_eq!(state.info.active_player, None);
}

#[test]
fn pinned_dice_queue_and_drain() {
    let mut state = standard_placement();
    assert!(state.fixes_is_empty());
    state.fix_d6(4);
    state.fix_blockdice(BlockDice::Pow);
    state.fix_blockdice(BlockDice::Skull);
    assert!(!state.fixes_is_empty());
    assert_eq!(state.blockdice_fixes_len(), 2);
    state.set_dice_mode(DiceMode::RollDice);
    assert!(state.fixes_is_empty());
    assert_eq!(state.blockdice_fixes_len(), 0);
    assert_eq!(state.dice_mode(), &DiceMode::RollDice);
    state.assert_fixes_empty();
}

#[test]
fn tackle_zones_and_block_dice_on_the_pitch() {
    let state = standard_placement();
    // Home 1 on (2,2) is marked by Away 5 on (2,3).
    assert_eq!(state.get_tz_on(1), 1);
    assert_eq!(state.get_tz_on_except_from_id(1, 5), 0);
    // Home 1 against Away 5: Home 0 on (1,2) is free of zones and assists; nobody helps Away.
    assert_eq!(state.get_blockdices(1, 5), NumBlockDices::Two);
    assert_eq!(state.get_catch_target(1), Ok(D6Target::FivePlus));
    assert_eq!(state.get_catch_target(9), Err(InvalidPlayerId { id: 9 }));
}

#[test]
fn passing_ranges_from_the_game_state() {
    let state = standard_placement();
    let from = Position::new((3, 1));
    assert_eq!(state.get_pass_modifier(2, from, Position::new((6, 1))), Some(0));
    assert_eq!(state.get_pass_modifier(2, from, Position::new((3, 15))), None);
    assert_eq!(state.get_pass_target(2, from, Position::new((6, 1))), Some(D6Target::FourPlus));
}

#[test]
fn relabelling_the_second_half_drops_only_waiting_halves() {
    let mut state = standard_placement();
    assert_eq!(state.proc_stack_top(), None);
    state.set_half(2);
    assert_eq!(state.info.half, 2);
    assert!(state.proc_stack_peek().is_none());
}

#[test]
fn setup_legality_from_the_game_state() {
    let mut state = GameState::empty_state_with(full_board());
    let los = state.get_line_of_scrimage_x(TeamType::Home);
    for y in [6, 7, 8] {
        state.add_new_player_to_field(PlayerStats::new_lineman(TeamType::Home), Position::new((los, y))).unwrap();
    }
    // Three on the line and nobody in reserve: legal, though short of a full team.
    assert!(state.is_setup_legal(TeamType::Home));
    state.dugout_add_new_player(PlayerStats::new_lineman(TeamType::Home), DugoutPlace::Reserves);
    // A reserve who could play must.
    assert!(!state.is_setup_legal(TeamType::Home));
    // Away has nobody at all, which is legal.
    assert!(state.is_setup_legal(TeamType::Away));
}

#[test]
fn mutate_player() {
    let mut state = standard_placement();
    assert!(!(state.get_player(0).unwrap().used));
    state.get_mut_player(0).unwrap().used = true;
    assert!(state.get_player(0).unwrap().used);
}

#[test]
fn runtime_small_board_geometry() {
    let dims = BoardDims::new(16, 9, 3);
    let state = GameState::empty_state_with(dims);
    assert_eq!(state.board_dims, dims, "runtime dims propagate to the built state");
    assert!(!state.is_out(Position::new((14, 4))), "(14,4) is the last playable column");
    assert!(state.is_out(Position::new((15, 4))), "column 15 is the logical OOB border");
    assert!(!Position::new((20, 4)).is_out(), "col 20 is inside the *physical* 28-wide array (capacity check)");
    assert!(state.is_out(Position::new((20, 4))), "...but logically out on the 16-wide board");
}

#[test]
fn runtime_small_board_derived_geometry() {
    let state = GameState::empty_state_with(BoardDims::new(16, 9, 3));
    assert_eq!(state.get_line_of_scrimage_x(TeamType::Home), 8);
    assert_eq!(state.get_line_of_scrimage_x(TeamType::Away), 7);
    assert_eq!(state.get_endzone_x(TeamType::Home), 1);
    assert_eq!(state.get_endzone_x(TeamType::Away), 16 - 2);
    assert!(!state.board_dims.kickoff_table_enabled());
}

#[test]
fn the_active_players_team_is_looked_up_from_the_active_player() {
    let mut state = standard_placement();
    assert!(state.get_active_players_team().is_none());
    state.away.rerolls = 1;
    state.set_active_player(4);
    assert_eq!(state.get_active_players_team().unwrap().rerolls, 1);
    state.set_active_player(0);
    assert_eq!(state.get_active_players_team().unwrap().rerolls, 3);
}

#[test]
fn reseeding_keeps_the_dice_mode_and_the_players() {
    let mut state = standard_placement();
    state.set_dice_mode(DiceMode::RollDice);
    state.set_seed(42);
    assert_eq!(*state.dice_mode(), DiceMode::RollDice);
    assert_eq!(state.get_players_on_pitch().len(), 6);
}

#[test]
fn symmetric_interception_positions() {
    for dx in 0..14 {
        for dy in 0..14 {
            let from = Position::new((3, 3));
            let to = Position::new((3 + dx, 3 + dy));
            let to_from: HashSet<Position> = GameState::get_interception_positions(from, to).into_iter().collect();
            let from_to: HashSet<Position> = GameState::get_interception_positions(to, from).into_iter().collect();
            assert_eq!(to_from, from_to);
        }
    }
}

#[test]
fn interception_positions() {
    let correct_thing = [
        [
            ".......................",
            ".......................",
            ".....oo.................",
            "....XooX...............",
            ".....oo................",
            ".......................",
            ".......................",
        ],
        [
            ".......................",
            ".......................",
            ".......................",
            "....oooX................",
            "....Xooo..............",
            ".....................",
            ".......................",
        ],
        [
            ".......................",
            ".......................",
            ".....ooX...............",
            "....oooo................",
            "....Xoo...............",
            ".....................",
            ".......................",
        ],
        [
            ".......................",
            "......oX...............",
            ".....ooo...............",
            "....ooo.................",
            "....Xo................",
            ".....................",
            ".......................",
        ],
    ];
    for s in correct_thing {
        let mut to_from = Vec::new();
        let mut correct_intercepters = HashSet::new();
        for (y, line) in s.iter().enumerate() {
            for (x, c) in line.chars().enumerate() {
                let p = Position::new((x as i8 + 2, y as i8 + 2));
                if c == 'X' {
                    to_from.push(p);
                } else if c == 'o' {
                    correct_intercepters.insert(p);
                } else {
                    assert_eq!(c, '.');
                }
            }
        }
        assert!(to_from.len() == 2);
        let from = to_from.pop().unwrap();
        let to = to_from.pop().unwrap();
        let calc_intercepters: HashSet<Position> =
            GameState::get_interception_positions(from, to).into_iter().collect();
        assert_eq!(calc_intercepters, correct_intercepters);
    }
}

#[test]
fn a_new_game_starts_at_the_coin_toss() {
    let state = GameStateBuilder::new_start_of_game_with(BoardDims::new(28, 17, 11));
    assert!(state.away_to_act());
    assert!(state.is_legal_action(&botbowl::model::Action::Simple(botbowl::table::SimpleAT::Heads)));
    assert!(state.is_legal_action(&botbowl::model::Action::Simple(botbowl::table::SimpleAT::Tails)));
    assert!(!state.info.game_over);
    let dugout = state.get_dugout();
    assert_eq!(dugout.len(), 24);
    for team in [TeamType::Home, TeamType::Away] {
        let roles: Vec<PlayerRole> = dugout.iter().filter(|p| p.stats.team == team).map(|p| p.stats.role).collect();
        assert_eq!(roles.iter().filter(|r| **r == PlayerRole::Lineman).count(), 6);
        assert_eq!(roles.iter().filter(|r| **r == PlayerRole::Blitzer).count(), 2);
        assert_eq!(roles.iter().filter(|r| **r == PlayerRole::Catcher).count(), 2);
        assert_eq!(roles.iter().filter(|r| **r == PlayerRole::Thrower).count(), 2);
        assert!(dugout.iter().all(|p| p.place == DugoutPlace::Reserves));
    }
    assert_eq!(state.get_players_on_pitch().len(), 0);
}

#[test]
fn the_away_team_wins_the_toss_it_called() {
    let mut state = GameStateBuilder::new_start_of_game_with(BoardDims::new(28, 17, 11));
    state.fix_coin(botbowl::dice::Coin::Heads);
    state.step_simple(botbowl::table::SimpleAT::Heads);
    assert!(state.away_to_act());
    assert!(state.is_legal_action(&botbowl::model::Action::Simple(botbowl::table::SimpleAT::Kick)));
    assert!(state.is_legal_action(&botbowl::model::Action::Simple(botbowl::table::SimpleAT::Receive)));

    let mut other = GameStateBuilder::new_start_of_game_with(BoardDims::new(28, 17, 11));
    other.fix_coin(botbowl::dice::Coin::Tails);
    other.step_simple(botbowl::table::SimpleAT::Heads);
    assert!(other.home_to_act());
}
