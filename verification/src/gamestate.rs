//! The state of a game: turn information, the players on the pitch and in the dugouts, the
//! ball, and how the engine resolves the rolls its procedures ask for.

use vstd::prelude::*;

use rand_chacha::ChaCha8Rng;

use crate::dice::{
    spec_is_compatible, can_resolve, is_rng_outcome, policy_decides, spec_resolve_with_rng, resolve_from_fixes, resolve_with_rng, spec_policy_outcome,
    spec_resolve_from_fixes, spec_truncate_to, after_resolve, BlockDice, Coin, D6Target, DicePolicy,
    FixedDice, FixedDiceView,
    RequestedRoll, RollResult,
};
use crate::actions::{offers_simple_only, AvailableActions};
use crate::board::BoardDims;
use crate::model::{
    spec_other_team, all_directions, BallState, Coord, Direction, DugoutPlace, DugoutPlayerID, PlayerID, PlayerStatus,
    Position, TeamType, Weather,
    ROSTER_PER_TEAM, Action, MicroStepState, ProcInput, SomeProcInput, spec_proc_input_from, max_int, min_int,
};
use crate::outside::{cartesian_coords, chacha_from_entropy, chacha_seed_from_u64, seeded_chacha};
use crate::pitch::{in_pitch, FullPitch};
use crate::player::{DugoutPlayer, FieldedPlayer, PlayerStats, SkillSet, TeamState};
use crate::procedures::any_proc::{proc_accepts, proc_step_done, AnyProc};
use crate::procedures::procedure_tools::ProcState;
use crate::procedures::game_procs::{CoinToss, GameOver, Half};
use crate::builder::GameStateBuilder;
use crate::engine::{apply_proc_return, next_micro_step, stack_after};
use crate::rules::{
    self, adjacent, attacker_strength, defender_strength, marks, marks_except, spec_block_dice,
    spec_is_setup_legal, spec_kickoff_aim, spec_opponent_zones_at, spec_pass_modifier, spec_tz_on,
    spec_tz_on_except,
};
use crate::table::{NumBlockDices, PlayerRole, PosAT, SimpleAT, Skill};

verus! {

/// Turn, half and per-turn flags of a game.
#[derive(Clone, Debug, PartialEq, Eq, Structural)]
pub struct GameInfo {
    pub half: u8,
    pub home_turn: u8,
    pub away_turn: u8,
    pub winner: Option<TeamType>,
    pub turnover: bool,
    pub active_player: Option<PlayerID>,
    pub player_action_type: Option<PosAT>,
    pub team_turn: TeamType,
    pub game_over: bool,
    pub weather: Weather,
    pub kicking_first_half: TeamType,
    pub kickoff_by_team: Option<TeamType>,
    pub kicking_this_drive: TeamType,
    pub handoff_available: bool,
    pub foul_available: bool,
    pub pass_available: bool,
    pub blitz_available: bool,
    pub handle_td_by: Option<PlayerID>,
    /// The active player picked up the ball during this activation and has not yet started
    /// a follow-up move action.
    pub pickup_this_activation: bool,
    pub blitz_this_activation: bool,
}

impl GameInfo {
    /// The information of a game that has not started: no half played, Away kicking, every
    /// once-per-turn action still available.
    pub open spec fn spec_new() -> GameInfo {
        GameInfo {
            half: 0,
            home_turn: 0,
            away_turn: 0,
            winner: None,
            turnover: false,
            active_player: None,
            player_action_type: None,
            team_turn: TeamType::Away,
            game_over: false,
            weather: Weather::Nice,
            kicking_first_half: TeamType::Away,
            kickoff_by_team: None,
            kicking_this_drive: TeamType::Away,
            handoff_available: true,
            foul_available: true,
            pass_available: true,
            blitz_available: true,
            handle_td_by: None,
            pickup_this_activation: false,
            blitz_this_activation: false,
        }
    }

    pub fn new() -> (r: GameInfo)
        ensures
            r == GameInfo::spec_new(),
    {
        GameInfo {
            half: 0,
            active_player: None,
            team_turn: TeamType::Away,
            game_over: false,
            winner: None,
            weather: Weather::Nice,
            kicking_first_half: TeamType::Away,
            home_turn: 0,
            away_turn: 0,
            player_action_type: None,
            handoff_available: true,
            pass_available: true,
            foul_available: true,
            blitz_available: true,
            handle_td_by: None,
            kickoff_by_team: None,
            kicking_this_drive: TeamType::Away,
            turnover: false,
            pickup_this_activation: false,
            blitz_this_activation: false,
        }
    }
}

/// How the engine resolves the rolls its procedures ask for.
#[derive(Clone, Debug, PartialEq, Eq)]
pub enum DiceMode {
    /// Every roll is drawn from the game's generator.
    RollDice,
    /// Rolls are taken from queues of pinned dice values.
    FixedDice(FixedDice),
    /// The engine pauses on each roll and the caller hands the result in.
    RegisterRolls,
    /// The policy decides the rolls it overrides and draws the others from the generator.
    DicePolicy(DicePolicy),
}

impl Default for DiceMode {
    /// Pinned dice, with empty queues.
    fn default() -> (r: Self)
        ensures
            r matches DiceMode::FixedDice(f) && f@.is_empty(),
    {
        DiceMode::FixedDice(FixedDice::default())
    }
}

/// Resolve the pending roll under the dice mode. A paused engine never resolves a roll
/// itself, and pinned dice must hold enough values for the request.
pub fn get_roll_result(
    dice_mode: &mut DiceMode,
    requested_roll: RequestedRoll,
    rng: &mut ChaCha8Rng,
) -> (r: RollResult)
    requires
        !(*old(dice_mode) is RegisterRolls),
        *old(dice_mode) matches DiceMode::FixedDice(f) ==> can_resolve(requested_roll, f@),
    ensures
        match *old(dice_mode) {
            DiceMode::RollDice => *final(dice_mode) == DiceMode::RollDice && (r, *final(rng))
                == spec_resolve_with_rng(requested_roll, *old(rng)),
            DiceMode::FixedDice(f) => (*final(dice_mode) matches DiceMode::FixedDice(g) && g@
                == after_resolve(requested_roll, f@)) && r == spec_resolve_from_fixes(
                requested_roll,
                f@,
            ) && *final(rng) == *old(rng),
            DiceMode::DicePolicy(p) => *final(dice_mode) == DiceMode::DicePolicy(p)
                && spec_policy_outcome(p, requested_roll, r) && (policy_decides(p, requested_roll)
                ==> *final(rng) == *old(rng)) && (!policy_decides(p, requested_roll) ==> (r, *final(rng))
                == spec_resolve_with_rng(requested_roll, *old(rng))),
            DiceMode::RegisterRolls => false,
        },
{
    match dice_mode {
        DiceMode::RollDice => resolve_with_rng(requested_roll, rng),
        DiceMode::FixedDice(fixes) => resolve_from_fixes(requested_roll, fixes),
        DiceMode::DicePolicy(policy) => policy.resolve(requested_roll, rng),
        // Excluded by the precondition: a paused engine takes its rolls from the caller.
        DiceMode::RegisterRolls => resolve_with_rng(requested_roll, rng),
    }
}

} // verus!

verus! {

/// Slots for fielded and for dugout players: the whole roster of both teams.
pub const FIELD_SLOTS: usize = 2 * ROSTER_PER_TEAM;

/// A player id that names no fielded player.
#[derive(Debug, Clone, Copy, PartialEq, Eq, Structural)]
pub struct InvalidPlayerId {
    pub id: PlayerID,
}

/// A square that is already taken.
#[derive(Debug, Clone, Copy, PartialEq, Eq, Structural)]
pub struct IllegalMovePosition {
    pub position: Position,
}

/// The state of a game: teams, players on the pitch and in the dugouts, the ball, the
/// procedure stack, the offered actions and the dice.
#[derive(Debug)]
pub struct GameState {
    pub info: GameInfo,
    pub home: TeamState,
    pub away: TeamState,
    /// The board in play; constant for the life of a game.
    pub board_dims: BoardDims,
    fielded_players: Vec<Option<FieldedPlayer>>,
    dugout_players: Vec<Option<DugoutPlayer>>,
    board: FullPitch<Option<PlayerID>>,
    ball: BallState,
    /// Squares the ball has occupied during the current bounce or throw-in; empty unless the
    /// ball is in the air.
    bounce_squares: Vec<Position>,
    proc_stack: Vec<AnyProc>,
    pub available_actions: Box<AvailableActions>,
    dice_mode: DiceMode,
    pub pending_roll: Option<RequestedRoll>,
    registered_roll: Option<RollResult>,
    rng: ChaCha8Rng,
}

impl GameState {
    pub closed spec fn fielded(&self) -> Seq<Option<FieldedPlayer>> {
        self.fielded_players@
    }

    pub closed spec fn dugout(&self) -> Seq<Option<DugoutPlayer>> {
        self.dugout_players@
    }

    /// The id of the player on square `(x, y)`, if any.
    pub open spec fn board_at(&self, x: int, y: int) -> Option<PlayerID> {
        self.spec_board().at(x, y)
    }

    /// The state's random number generator.
    pub closed spec fn spec_rng(&self) -> ChaCha8Rng {
        self.rng
    }

    pub closed spec fn spec_board(&self) -> FullPitch<Option<PlayerID>> {
        self.board
    }

    pub closed spec fn spec_ball(&self) -> BallState {
        self.ball
    }

    pub closed spec fn spec_bounce_squares(&self) -> Seq<Position> {
        self.bounce_squares@
    }

    pub closed spec fn spec_proc_stack(&self) -> Seq<AnyProc> {
        self.proc_stack@
    }

    pub closed spec fn spec_dice_mode(&self) -> DiceMode {
        self.dice_mode
    }

    pub closed spec fn spec_info(&self) -> GameInfo {
        self.info
    }

    pub closed spec fn spec_dims(&self) -> BoardDims {
        self.board_dims
    }

    pub closed spec fn spec_team(&self, team: TeamType) -> TeamState {
        match team {
            TeamType::Home => self.home,
            TeamType::Away => self.away,
        }
    }

    pub closed spec fn spec_available_actions(&self) -> AvailableActions {
        *self.available_actions
    }

    /// The player with id `id` is on the pitch.
    pub open spec fn is_fielded(&self, id: int) -> bool {
        0 <= id < FIELD_SLOTS && self.fielded()[id] is Some
    }

    /// The players on the pitch and the board agree: each fielded player stands on a square of
    /// the pitch that names it, and each named square holds that player; every id is its slot;
    /// a carried ball is carried by a fielded player; the ball leaves a bounce trail only while
    /// in the air.
    pub closed spec fn wf(&self) -> bool {
        &&& self.board_dims.valid()
        &&& self.fielded_players@.len() == FIELD_SLOTS
        &&& self.dugout_players@.len() == FIELD_SLOTS
        &&& self.board.wf()
        &&& forall|id: int|
            0 <= id < FIELD_SLOTS && (#[trigger] self.fielded_players@[id]) is Some ==> {
                let p = self.fielded_players@[id]->0;
                &&& p.id == id
                &&& in_pitch(p.position.x as int, p.position.y as int)
                &&& self.board.at(p.position.x as int, p.position.y as int) == Some(id as usize)
            }
        &&& forall|x: int, y: int|
            in_pitch(x, y) && (#[trigger] self.board.at(x, y)) is Some ==> {
                let id = self.board.at(x, y)->0;
                &&& id < FIELD_SLOTS
                &&& self.fielded_players@[id as int] is Some
                &&& self.fielded_players@[id as int]->0.position.x == x
                &&& self.fielded_players@[id as int]->0.position.y == y
            }
        &&& forall|id: int|
            0 <= id < FIELD_SLOTS && (#[trigger] self.dugout_players@[id]) is Some
                ==> self.dugout_players@[id]->0.id == id
        &&& (self.ball matches BallState::Carried(id) ==> id < FIELD_SLOTS
            && self.fielded_players@[id as int] is Some)
        &&& (self.bounce_squares@.len() > 0 ==> self.ball is InAir)
        &&& self.available_actions.wf()
    }

    /// A state with nobody on the pitch or in the dugouts, the ball off the pitch, an empty
    /// procedure stack, pinned dice, and a generator seeded by the operating system.
    pub fn empty_state_with(board_dims: BoardDims) -> (r: GameState)
        requires
            board_dims.valid(),
        ensures
            r.wf(),
            r.spec_dims() == board_dims,
            forall|id: int| 0 <= id < FIELD_SLOTS ==> #[trigger] r.fielded()[id] is None,
            forall|id: int| 0 <= id < FIELD_SLOTS ==> #[trigger] r.dugout()[id] is None,
            r.spec_ball() == BallState::OffPitch,
            r.spec_proc_stack().len() == 0,
            r.spec_info() == GameInfo::spec_new(),
            r.spec_team(TeamType::Home) == TeamState::spec_new(),
            r.spec_team(TeamType::Away) == TeamState::spec_new(),
            r.spec_pending_roll() is None,
            r.spec_available_actions().simple_set() == Set::<SimpleAT>::empty(),
            !r.spec_available_actions().has_positional(),
            !r.spec_available_actions().spec_has_paths(),
            r.spec_available_actions().spec_team() is None,
            r.spec_dice_mode() matches DiceMode::FixedDice(f) && f@.is_empty(),
    {
        let mut fielded_players: Vec<Option<FieldedPlayer>> = Vec::new();
        let mut dugout_players: Vec<Option<DugoutPlayer>> = Vec::new();
        let mut i: usize = 0;
        while i < FIELD_SLOTS
            invariant
                i <= FIELD_SLOTS,
                fielded_players@.len() == i,
                dugout_players@.len() == i,
                forall|j: int| 0 <= j < i ==> #[trigger] fielded_players@[j] is None,
                forall|j: int| 0 <= j < i ==> #[trigger] dugout_players@[j] is None,
            decreases FIELD_SLOTS - i,
        {
            fielded_players.push(None);
            dugout_players.push(None);
            i += 1;
        }
        GameState {
            board_dims,
            fielded_players,
            home: TeamState::new(),
            away: TeamState::new(),
            board: FullPitch::new_empty(),
            ball: BallState::OffPitch,
            bounce_squares: Vec::new(),
            dugout_players,
            proc_stack: Vec::new(),
            available_actions: AvailableActions::new_empty(),
            rng: chacha_from_entropy(),
            info: GameInfo::new(),
            dice_mode: DiceMode::default(),
            pending_roll: None,
            registered_roll: None,
        }
    }
}


/// The present values among `s`, in order.
pub open spec fn somes<T>(s: Seq<Option<T>>) -> Seq<T>
    decreases s.len(),
{
    if s.len() == 0 {
        Seq::empty()
    } else {
        let rest = somes(s.drop_last());
        match s.last() {
            Some(v) => rest.push(v),
            None => rest,
        }
    }
}

fn collect_somes<T: Copy>(v: &Vec<Option<T>>) -> (r: Vec<T>)
    ensures
        r@ == somes(v@),
{
    let mut out: Vec<T> = Vec::new();
    let mut i: usize = 0;
    while i < v.len()
        invariant
            i <= v@.len(),
            out@ == somes(v@.take(i as int)),
        decreases v@.len() - i,
    {
        assert(v@.take(i + 1).drop_last() =~= v@.take(i as int));
        if let Some(x) = v[i] {
            out.push(x);
        }
        i += 1;
    }
    assert(v@.take(v@.len() as int) =~= v@);
    out
}

impl GameState {
    /// The players on the pitch, in id order.
    pub open spec fn on_pitch(&self) -> Seq<FieldedPlayer> {
        somes(self.fielded())
    }

    pub fn get_player_id_at_coord(&self, x: Coord, y: Coord) -> (r: Option<PlayerID>)
        requires
            self.wf(),
            in_pitch(x as int, y as int),
        ensures
            r == self.board_at(x as int, y as int),
    {
        *self.board.get_pos(Position::new((x, y)))
    }

    pub fn get_player_id_at(&self, p: Position) -> (r: Option<PlayerID>)
        requires
            self.wf(),
            in_pitch(p.x as int, p.y as int),
        ensures
            r == self.board_at(p.x as int, p.y as int),
    {
        self.get_player_id_at_coord(p.x, p.y)
    }

    pub fn get_player(&self, id: PlayerID) -> (r: Result<&FieldedPlayer, InvalidPlayerId>)
        requires
            self.wf(),
            id < FIELD_SLOTS,
        ensures
            match self.fielded()[id as int] {
                Some(p) => r matches Ok(q) && *q == p,
                None => r == Err::<&FieldedPlayer, InvalidPlayerId>(InvalidPlayerId { id }),
            },
    {
        match &self.fielded_players[id] {
            Some(player) => Ok(player),
            None => Err(InvalidPlayerId { id }),
        }
    }

    pub fn get_player_unsafe(&self, id: PlayerID) -> (r: &FieldedPlayer)
        requires
            self.wf(),
            self.is_fielded(id as int),
        ensures
            Some(*r) == self.fielded()[id as int],
    {
        self.fielded_players[id].as_ref().unwrap()
    }

    pub fn get_player_at_coord(&self, x: Coord, y: Coord) -> (r: Option<&FieldedPlayer>)
        requires
            self.wf(),
            in_pitch(x as int, y as int),
        ensures
            match self.board_at(x as int, y as int) {
                Some(id) => r matches Some(q) && Some(*q) == self.fielded()[id as int] && q.position.x
                    == x && q.position.y == y,
                None => r is None,
            },
    {
        match self.get_player_id_at_coord(x, y) {
            None => None,
            Some(id) => Some(self.get_player_unsafe(id)),
        }
    }

    pub fn get_player_at(&self, p: Position) -> (r: Option<&FieldedPlayer>)
        requires
            self.wf(),
            in_pitch(p.x as int, p.y as int),
        ensures
            match self.board_at(p.x as int, p.y as int) {
                Some(id) => r matches Some(q) && Some(*q) == self.fielded()[id as int] && q.position
                    == p,
                None => r is None,
            },
    {
        self.get_player_at_coord(p.x, p.y)
    }

    /// The players on the pitch, in id order.
    pub fn get_players_on_pitch(&self) -> (r: Vec<FieldedPlayer>)
        ensures
            r@ == self.on_pitch(),
    {
        collect_somes(&self.fielded_players)
    }

    /// The players of `team` on the pitch, in id order.
    pub fn get_players_on_pitch_in_team(&self, team: TeamType) -> (r: Vec<FieldedPlayer>)
        ensures
            r@ == self.on_pitch().filter(|p: FieldedPlayer| p.stats.team == team),
    {
        let all = self.get_players_on_pitch();
        let ghost f = |p: FieldedPlayer| p.stats.team == team;
        let mut out: Vec<FieldedPlayer> = Vec::new();
        let mut i: usize = 0;
        while i < all.len()
            invariant
                i <= all@.len(),
                f == (|p: FieldedPlayer| p.stats.team == team),
                out@ == all@.take(i as int).filter(f),
            decreases all@.len() - i,
        {
            if all[i].stats.team == team {
                out.push(all[i]);
            }
            proof {
                assert(all@.take(i + 1).drop_last() =~= all@.take(i as int));
                reveal_with_fuel(Seq::filter, 1);
            }
            i += 1;
        }
        assert(all@.take(all@.len() as int) =~= all@);
        out
    }

    /// The players in the dugouts, in id order.
    pub fn get_dugout(&self) -> (r: Vec<DugoutPlayer>)
        ensures
            r@ == somes(self.dugout()),
    {
        collect_somes(&self.dugout_players)
    }

    pub fn get_dugout_player(&self, id: DugoutPlayerID) -> (r: Option<&DugoutPlayer>)
        requires
            self.wf(),
            id < FIELD_SLOTS,
        ensures
            match self.dugout()[id as int] {
                Some(d) => r matches Some(q) && *q == d,
                None => r is None,
            },
    {
        self.dugout_players[id].as_ref()
    }

    pub fn get_team(&self, team: TeamType) -> (r: &TeamState)
        ensures
            *r == self.spec_team(team),
    {
        match team {
            TeamType::Home => &self.home,
            TeamType::Away => &self.away,
        }
    }

    /// The team of the player with id `id`.
    pub fn get_team_from_player(&self, id: PlayerID) -> (r: Result<&TeamState, InvalidPlayerId>)
        requires
            self.wf(),
            id < FIELD_SLOTS,
        ensures
            match self.fielded()[id as int] {
                Some(p) => r matches Ok(t) && *t == self.spec_team(p.stats.team),
                None => r == Err::<&TeamState, InvalidPlayerId>(InvalidPlayerId { id }),
            },
    {
        match self.get_player(id) {
            Ok(player) => Ok(self.get_team(player.stats.team)),
            Err(e) => Err(e),
        }
    }

    /// The team of the active player, when there is one on the pitch.
    pub fn get_active_players_team(&self) -> (r: Option<&TeamState>)
        requires
            self.wf(),
            self.spec_info().active_player matches Some(a) ==> a < FIELD_SLOTS,
        ensures
            match self.spec_info().active_player {
                Some(a) => match self.fielded()[a as int] {
                    Some(p) => r matches Some(t) && *t == self.spec_team(p.stats.team),
                    None => r is None,
                },
                None => r is None,
            },
    {
        match self.info.active_player {
            Some(id) => match self.get_player(id) {
                Ok(player) => Some(self.get_team(player.stats.team)),
                Err(_) => None,
            },
            None => None,
        }
    }

    pub fn get_endzone_x(&self, team: TeamType) -> (r: Coord)
        requires
            self.wf(),
        ensures
            r == self.spec_dims().spec_endzone_x(team),
    {
        self.board_dims.endzone_x(team)
    }

    /// Out of bounds of the board in play.
    pub fn is_out(&self, pos: Position) -> (r: bool)
        requires
            self.wf(),
        ensures
            r == self.spec_dims().spec_is_out(pos),
    {
        self.board_dims.is_out(pos)
    }

    pub fn is_on_team_side(&self, pos: Position, team: TeamType) -> (r: bool)
        ensures
            r == self.spec_dims().spec_is_on_team_side(pos, team),
    {
        self.board_dims.is_on_team_side(pos, team)
    }

    pub fn get_line_of_scrimage_x(&self, team: TeamType) -> (r: Coord)
        ensures
            r == self.spec_dims().spec_los_x(team),
    {
        self.board_dims.los_x(team)
    }

    pub fn get_available_actions(&self) -> (r: &AvailableActions)
        ensures
            *r == self.spec_available_actions(),
    {
        &self.available_actions
    }

    /// Whether `action` is among the actions offered now: a simple action in the offered set,
    /// or a positional one offered on its square. Path offerings come from the pathfinder,
    /// which this library does not hold, so only these offers count.
    pub fn is_legal_action(&self, action: &Action) -> (r: bool)
        requires
            self.wf(),
            *action matches Action::Positional(_, pos) ==> in_pitch(pos.x as int, pos.y as int),
        ensures
            r == match *action {
                Action::Simple(at) => self.spec_available_actions().simple_set().contains(at),
                Action::Positional(at, pos) => self.spec_available_actions().offered(
                    pos.x as int,
                    pos.y as int,
                ).contains(at),
            },
    {
        self.available_actions.is_legal_non_path_action(*action)
    }

    /// The team the engine waits on for an action, if any.
    pub fn get_active_teamtype(&self) -> (r: Option<TeamType>)
        ensures
            r == self.spec_available_actions().spec_team(),
    {
        self.available_actions.get_team()
    }

    pub fn home_to_act(&self) -> (r: bool)
        ensures
            r == (self.spec_available_actions().spec_team() == Some(TeamType::Home)),
    {
        match self.get_available_actions().get_team() {
            Some(team) => team == TeamType::Home,
            None => false,
        }
    }

    pub fn away_to_act(&self) -> (r: bool)
        ensures
            r == (self.spec_available_actions().spec_team() == Some(TeamType::Away)),
    {
        match self.get_available_actions().get_team() {
            Some(team) => team == TeamType::Away,
            None => false,
        }
    }

    /// Where the ball is: its square, or the carrier's square, or `None` off the pitch.
    pub fn get_ball_position(&self) -> (r: Option<Position>)
        requires
            self.wf(),
        ensures
            r == match self.spec_ball() {
                BallState::OffPitch => None,
                BallState::OnGround(pos) => Some(pos),
                BallState::Carried(id) => Some(self.fielded()[id as int]->0.position),
                BallState::InAir(pos) => Some(pos),
            },
    {
        match self.ball {
            BallState::OffPitch => None,
            BallState::OnGround(pos) => Some(pos),
            BallState::Carried(id) => Some(self.get_player_unsafe(id).position),
            BallState::InAir(pos) => Some(pos),
        }
    }

    pub fn ball(&self) -> (r: BallState)
        ensures
            r == self.spec_ball(),
    {
        self.ball
    }

    /// The squares the ball has occupied during the current bounce or throw-in.
    pub fn bounce_squares(&self) -> (r: &Vec<Position>)
        ensures
            r@ == self.spec_bounce_squares(),
    {
        &self.bounce_squares
    }
}


/// `i` is the first empty slot of `s`.
pub open spec fn is_first_free<T>(s: Seq<Option<T>>, i: int) -> bool {
    &&& 0 <= i < s.len()
    &&& s[i] is None
    &&& forall|j: int| 0 <= j < i ==> #[trigger] s[j] is Some
}

/// Some slot of `s` is empty.
pub open spec fn has_free_slot<T>(s: Seq<Option<T>>) -> bool {
    exists|i: int| 0 <= i < s.len() && #[trigger] s[i] is None
}

/// The index of the first empty slot of `v`; the vector must have one.
fn first_free_slot<T>(v: &Vec<Option<T>>) -> (r: usize)
    requires
        has_free_slot(v@),
    ensures
        is_first_free(v@, r as int),
{
    let mut i: usize = 0;
    while i < v.len() && v[i].is_some()
        invariant
            i <= v@.len(),
            forall|j: int| 0 <= j < i ==> #[trigger] v@[j] is Some,
        decreases v@.len() - i,
    {
        i += 1;
    }
    if i == v.len() {
        proof {
            let k = choose|k: int| 0 <= k < v@.len() && #[trigger] v@[k] is None;
            assert(v@[k] is Some);
        }
    }
    i
}

/// A player who has just come onto the pitch: standing, unused, with no movement spent.
pub open spec fn fresh_on_pitch(p: FieldedPlayer, id: int, stats: PlayerStats, position: Position) -> bool {
    &&& p.id == id
    &&& p.stats == stats
    &&& p.position == position
    &&& p.status == PlayerStatus::Up
    &&& !p.used
    &&& p.moves == 0
    &&& p.used_skills@ == Set::<Skill>::empty()
}

impl GameState {
    /// Everything but the players, the dugouts, the board and the turn information is the same
    /// in both states.
    pub open spec fn same_but_players_and_info(&self, other: &GameState) -> bool {
        &&& self.same_but_players_info_and_ball(other)
        &&& self.spec_ball() == other.spec_ball()
        &&& self.spec_bounce_squares() == other.spec_bounce_squares()
    }

    /// Everything but the players, the dugouts, the board, the turn information and the ball
    /// is the same in both states.
    pub open spec fn same_but_players_info_and_ball(&self, other: &GameState) -> bool {
        &&& self.spec_team(TeamType::Home) == other.spec_team(TeamType::Home)
        &&& self.spec_team(TeamType::Away) == other.spec_team(TeamType::Away)
        &&& self.same_machinery(other)
    }

    /// The board in play, the procedure stack, the offered actions and the dice are the same
    /// in both states.
    pub open spec fn same_machinery(&self, other: &GameState) -> bool {
        &&& self.spec_dims() == other.spec_dims()
        &&& self.spec_proc_stack() == other.spec_proc_stack()
        &&& self.spec_available_actions() == other.spec_available_actions()
        &&& self.spec_dice_mode() == other.spec_dice_mode()
        &&& self.spec_pending_roll() == other.spec_pending_roll()
        &&& self.spec_registered_roll() == other.spec_registered_roll()
    }


    /// Everything but the players, the dugouts and the board is the same in both states.
    pub open spec fn same_but_players(&self, other: &GameState) -> bool {
        &&& self.spec_info() == other.spec_info()
        &&& self.same_but_players_and_info(other)
    }

    /// Move the fielded player `id` to the free square `new_pos`.
    pub fn move_player(&mut self, id: PlayerID, new_pos: Position) -> (r: Result<(), InvalidPlayerId>)
        requires
            old(self).wf(),
            id < FIELD_SLOTS,
            in_pitch(new_pos.x as int, new_pos.y as int),
            old(self).fielded()[id as int] is Some ==> old(self).board_at(new_pos.x as int, new_pos.y as int) is None,
        ensures
            final(self).wf(),
            final(self).same_but_players(&*old(self)),
            final(self).dugout() == old(self).dugout(),
            match old(self).fielded()[id as int] {
                None => r == Err::<(), InvalidPlayerId>(InvalidPlayerId { id })
                    && final(self).fielded() == old(self).fielded()
                    && forall|x: int, y: int| #[trigger] final(self).board_at(x, y) == old(self).board_at(x, y),
                Some(p) => {
                    &&& r is Ok
                    &&& final(self).fielded() == old(self).fielded().update(
                        id as int,
                        Some(FieldedPlayer { position: new_pos, ..p }),
                    )
                    &&& final(self).board_at(new_pos.x as int, new_pos.y as int) == Some(id)
                    &&& final(self).board_at(p.position.x as int, p.position.y as int) is None
                    &&& forall|x: int, y: int|
                        in_pitch(x, y) && !(x == new_pos.x && y == new_pos.y) && !(x == p.position.x
                            && y == p.position.y)
                            ==> #[trigger] final(self).board_at(x, y) == old(self).board_at(x, y)
                },
            },
    {
        let old_pos = match self.get_player(id) {
            Ok(p) => p.position,
            Err(e) => {
                return Err(e);
            },
        };
        let ghost before = *self;
        let ghost p = self.fielded_players@[id as int]->0;
        *self.board.get_pos_mut(old_pos) = None;
        *self.board.get_pos_mut(new_pos) = Some(id);
        let mut moved = p_copy(self.fielded_players[id]);
        moved.position = new_pos;
        self.fielded_players.set(id, Some(moved));
        proof {
            assert forall|j: int| 0 <= j < FIELD_SLOTS && (#[trigger] self.fielded_players@[j]) is Some implies {
                let q = self.fielded_players@[j]->0;
                &&& q.id == j
                &&& in_pitch(q.position.x as int, q.position.y as int)
                &&& self.board.at(q.position.x as int, q.position.y as int) == Some(j as usize)
            } by {
                if j != id {
                    let q = before.fielded_players@[j]->0;
                    assert(before.board.at(q.position.x as int, q.position.y as int) == Some(j as usize));
                }
            }
            assert forall|x: int, y: int| in_pitch(x, y) && (#[trigger] self.board.at(x, y)) is Some implies {
                let k = self.board.at(x, y)->0;
                &&& k < FIELD_SLOTS
                &&& self.fielded_players@[k as int] is Some
                &&& self.fielded_players@[k as int]->0.position.x == x
                &&& self.fielded_players@[k as int]->0.position.y == y
            } by {
                if !(x == new_pos.x && y == new_pos.y) && !(x == old_pos.x && y == old_pos.y) {
                    assert(self.board.at(x, y) == before.board.at(x, y));
                    let k = before.board.at(x, y)->0;
                    assert(k != id);
                }
            }
        }
        Ok(())
    }
}

impl GameState {
    /// Bring a new player onto the free square `position`, in the first empty slot; an
    /// occupied square is refused.
    pub fn add_new_player_to_field(&mut self, player_stats: PlayerStats, position: Position) -> (r:
        Result<PlayerID, IllegalMovePosition>)
        requires
            old(self).wf(),
            in_pitch(position.x as int, position.y as int),
            old(self).board_at(position.x as int, position.y as int) is None ==> has_free_slot(
                old(self).fielded(),
            ),
        ensures
            final(self).wf(),
            final(self).same_but_players(&*old(self)),
            final(self).dugout() == old(self).dugout(),
            old(self).board_at(position.x as int, position.y as int) is Some ==> {
                &&& r == Err::<PlayerID, IllegalMovePosition>(IllegalMovePosition { position })
                &&& final(self).fielded() == old(self).fielded()
                &&& forall|x: int, y: int| #[trigger] final(self).board_at(x, y) == old(self).board_at(x, y)
            },
            old(self).board_at(position.x as int, position.y as int) is None ==> {
                &&& r matches Ok(id) && is_first_free(old(self).fielded(), id as int)
                &&& final(self).fielded().len() == old(self).fielded().len()
                &&& final(self).fielded()[r->Ok_0 as int] matches Some(p) && fresh_on_pitch(
                    p,
                    r->Ok_0 as int,
                    player_stats,
                    position,
                )
                &&& forall|j: int|
                    0 <= j < FIELD_SLOTS && j != r->Ok_0 ==> #[trigger] final(self).fielded()[j]
                        == old(self).fielded()[j]
                &&& final(self).board_at(position.x as int, position.y as int) == Some(r->Ok_0)
                &&& forall|x: int, y: int|
                    in_pitch(x, y) && !(x == position.x && y == position.y)
                        ==> #[trigger] final(self).board_at(x, y) == old(self).board_at(x, y)
            },
    {
        if self.board.get_pos(position).is_some() {
            return Err(IllegalMovePosition { position });
        }
        let id = first_free_slot(&self.fielded_players);
        let ghost before = *self;
        *self.board.get_pos_mut(position) = Some(id);
        self.fielded_players.set(
            id,
            Some(
                FieldedPlayer {
                    id,
                    stats: player_stats,
                    position,
                    status: PlayerStatus::Up,
                    used: false,
                    moves: 0,
                    used_skills: SkillSet::new(),
                },
            ),
        );
        proof {
            assert forall|j: int| 0 <= j < FIELD_SLOTS && (#[trigger] self.fielded_players@[j]) is Some implies {
                let q = self.fielded_players@[j]->0;
                &&& q.id == j
                &&& in_pitch(q.position.x as int, q.position.y as int)
                &&& self.board.at(q.position.x as int, q.position.y as int) == Some(j as usize)
            } by {
                if j != id {
                    let q = before.fielded_players@[j]->0;
                    assert(before.board.at(q.position.x as int, q.position.y as int) == Some(j as usize));
                }
            }
            assert forall|x: int, y: int| in_pitch(x, y) && (#[trigger] self.board.at(x, y)) is Some implies {
                let k = self.board.at(x, y)->0;
                &&& k < FIELD_SLOTS
                &&& self.fielded_players@[k as int] is Some
                &&& self.fielded_players@[k as int]->0.position.x == x
                &&& self.fielded_players@[k as int]->0.position.y == y
            } by {
                if !(x == position.x && y == position.y) {
                    assert(self.board.at(x, y) == before.board.at(x, y));
                    let k = before.board.at(x, y)->0;
                    assert(k != id);
                }
            }
        }
        Ok(id)
    }
}

impl GameState {
    /// Put a new player in the first empty dugout slot.
    pub fn dugout_add_new_player(&mut self, player_stats: PlayerStats, place: DugoutPlace)
        requires
            old(self).wf(),
            has_free_slot(old(self).dugout()),
        ensures
            final(self).wf(),
            final(self).same_but_players(&*old(self)),
            final(self).fielded() == old(self).fielded(),
            forall|x: int, y: int| #[trigger] final(self).board_at(x, y) == old(self).board_at(x, y),
            exists|i: int|
                is_first_free(old(self).dugout(), i) && final(self).dugout() == old(self).dugout().update(
                    i,
                    Some(DugoutPlayer { stats: player_stats, place, id: i as usize }),
                ),
    {
        let id = first_free_slot(&self.dugout_players);
        self.dugout_players.set(id, Some(DugoutPlayer { stats: player_stats, place, id }));
        assert(is_first_free(old(self).dugout(), id as int));
    }

    /// Bring the reserve `dugout_id` onto the free square `position`.
    pub fn field_dugout_player(&mut self, dugout_id: DugoutPlayerID, position: Position)
        requires
            old(self).wf(),
            dugout_id < FIELD_SLOTS,
            old(self).dugout()[dugout_id as int] matches Some(d) && d.place == DugoutPlace::Reserves,
            in_pitch(position.x as int, position.y as int),
            old(self).board_at(position.x as int, position.y as int) is None,
            has_free_slot(old(self).fielded()),
        ensures
            final(self).wf(),
            final(self).same_but_players(&*old(self)),
            final(self).dugout() == old(self).dugout().update(dugout_id as int, None),
            exists|id: int|
                {
                    &&& is_first_free(old(self).fielded(), id)
                    &&& final(self).fielded()[id] matches Some(p) && fresh_on_pitch(
                        p,
                        id,
                        old(self).dugout()[dugout_id as int]->0.stats,
                        position,
                    )
                    &&& forall|j: int|
                        0 <= j < FIELD_SLOTS && j != id ==> #[trigger] final(self).fielded()[j]
                            == old(self).fielded()[j]
                    &&& final(self).board_at(position.x as int, position.y as int) == Some(id as usize)
                },
            forall|x: int, y: int|
                in_pitch(x, y) && !(x == position.x && y == position.y)
                    ==> #[trigger] final(self).board_at(x, y) == old(self).board_at(x, y),
    {
        let d = self.dugout_players[dugout_id].unwrap();
        self.dugout_players.set(dugout_id, None);
        let r = self.add_new_player_to_field(d.stats, position);
        assert(r is Ok);
    }

    /// `self` is `before` after the fielded player `id` went into the first empty dugout slot
    /// at `place`: its square is free, and an active player stops being active.
    pub open spec fn unfielded(&self, before: &GameState, id: PlayerID, place: DugoutPlace) -> bool {
        let pos = before.fielded()[id as int]->0.position;
        &&& self.same_but_players_and_info(before)
        &&& self.spec_info() == (GameInfo {
            active_player: if before.spec_info().active_player == Some(id) {
                None
            } else {
                before.spec_info().active_player
            },
            ..before.spec_info()
        })
        &&& self.fielded() == before.fielded().update(id as int, None)
        &&& exists|i: int|
            is_first_free(before.dugout(), i) && self.dugout() == before.dugout().update(
                i,
                Some(DugoutPlayer { stats: before.fielded()[id as int]->0.stats, place, id: i as usize }),
            )
        &&& self.board_at(pos.x as int, pos.y as int) is None
        &&& forall|x: int, y: int|
            in_pitch(x, y) && !(x == pos.x && y == pos.y)
                ==> #[trigger] self.board_at(x, y) == before.board_at(x, y)
    }

    /// Take the fielded player `id` off the pitch into the first empty dugout slot, at
    /// `place`; an active player stops being active. The ball carrier cannot leave.
    pub fn unfield_player(&mut self, id: PlayerID, place: DugoutPlace) -> (r: Result<(), InvalidPlayerId>)
        requires
            old(self).wf(),
            old(self).is_fielded(id as int),
            old(self).spec_ball() != BallState::Carried(id),
            has_free_slot(old(self).dugout()),
        ensures
            r is Ok,
            final(self).wf(),
            final(self).unfielded(&*old(self), id, place),
    {
        if self.info.active_player == Some(id) {
            self.info.active_player = None;
        }
        let p = p_copy(self.fielded_players[id]);
        let ghost before = *self;
        self.fielded_players.set(id, None);
        let dugout_id = first_free_slot(&self.dugout_players);
        self.dugout_players.set(dugout_id, Some(DugoutPlayer { stats: p.stats, place, id: dugout_id }));
        *self.board.get_pos_mut(p.position) = None;
        proof {
            assert(is_first_free(old(self).dugout(), dugout_id as int));
            assert forall|j: int| 0 <= j < FIELD_SLOTS && (#[trigger] self.fielded_players@[j]) is Some implies {
                let q = self.fielded_players@[j]->0;
                &&& q.id == j
                &&& in_pitch(q.position.x as int, q.position.y as int)
                &&& self.board.at(q.position.x as int, q.position.y as int) == Some(j as usize)
            } by {
                let q = before.fielded_players@[j]->0;
                assert(before.board.at(q.position.x as int, q.position.y as int) == Some(j as usize));
            }
            assert forall|x: int, y: int| in_pitch(x, y) && (#[trigger] self.board.at(x, y)) is Some implies {
                let k = self.board.at(x, y)->0;
                &&& k < FIELD_SLOTS
                &&& self.fielded_players@[k as int] is Some
                &&& self.fielded_players@[k as int]->0.position.x == x
                &&& self.fielded_players@[k as int]->0.position.y == y
            } by {
                assert(self.board.at(x, y) == before.board.at(x, y));
                let k = before.board.at(x, y)->0;
                assert(k != id);
            }
        }
        Ok(())
    }

    /// Set the ball, keeping the record of the squares it has occupied while in the air: a ball
    /// in the air adds its square to the record, any other ball clears it.
    pub fn set_ball(&mut self, ball: BallState)
        requires
            old(self).wf(),
            ball matches BallState::Carried(id) ==> old(self).is_fielded(id as int),
        ensures
            final(self).wf(),
            final(self).spec_ball() == ball,
            final(self).spec_bounce_squares() == match ball {
                BallState::InAir(pos) => old(self).spec_bounce_squares().push(pos),
                _ => Seq::<Position>::empty(),
            },
            final(self).fielded() == old(self).fielded(),
            final(self).dugout() == old(self).dugout(),
            final(self).same_board(&*old(self)),
            final(self).spec_info() == old(self).spec_info(),
            final(self).same_but_players_info_and_ball(&*old(self)),
    {
        match ball {
            BallState::InAir(pos) => self.bounce_squares.push(pos),
            _ => self.bounce_squares.clear(),
        }
        self.ball = ball;
    }

    /// Make the fielded player `id` the active player, with a fresh activation.
    pub fn set_active_player(&mut self, id: PlayerID)
        requires
            old(self).wf(),
            old(self).is_fielded(id as int),
        ensures
            final(self).wf(),
            final(self).same_but_players_and_info(&*old(self)),
            final(self).fielded() == old(self).fielded(),
            final(self).dugout() == old(self).dugout(),
            forall|x: int, y: int| #[trigger] final(self).board_at(x, y) == old(self).board_at(x, y),
            final(self).same_board(&*old(self)),
            final(self).spec_info() == (GameInfo {
                active_player: Some(id),
                pickup_this_activation: false,
                blitz_this_activation: false,
                ..old(self).spec_info()
            }),
    {
        self.info.active_player = Some(id);
        self.info.pickup_this_activation = false;
        self.info.blitz_this_activation = false;
    }

    /// The active player, if there is one and it is on the pitch.
    pub fn get_active_player(&self) -> (r: Option<&FieldedPlayer>)
        requires
            self.wf(),
            self.spec_info().active_player matches Some(id) ==> id < FIELD_SLOTS,
        ensures
            match self.spec_info().active_player {
                Some(id) => match self.fielded()[id as int] {
                    Some(p) => r matches Some(q) && *q == p,
                    None => r is None,
                },
                None => r is None,
            },
    {
        match self.info.active_player {
            Some(id) => match self.get_player(id) {
                Ok(p) => Some(p),
                Err(_) => None,
            },
            None => None,
        }
    }
}

impl GameState {
    pub closed spec fn spec_registered_roll(&self) -> Option<RollResult> {
        self.registered_roll
    }

    pub closed spec fn spec_pending_roll(&self) -> Option<RequestedRoll> {
        self.pending_roll
    }

    /// Everything but the dice mode and the registered roll is the same in both states.
    pub open spec fn same_but_dice(&self, other: &GameState) -> bool {
        &&& self.spec_info() == other.spec_info()
        &&& self.spec_team(TeamType::Home) == other.spec_team(TeamType::Home)
        &&& self.spec_team(TeamType::Away) == other.spec_team(TeamType::Away)
        &&& self.spec_dims() == other.spec_dims()
        &&& self.fielded() == other.fielded()
        &&& self.dugout() == other.dugout()
        &&& self.same_board(other)
        &&& self.spec_ball() == other.spec_ball()
        &&& self.spec_bounce_squares() == other.spec_bounce_squares()
        &&& self.spec_proc_stack() == other.spec_proc_stack()
        &&& self.spec_available_actions() == other.spec_available_actions()
        &&& self.spec_pending_roll() == other.spec_pending_roll()
    }

    /// The pinned dice, when the dice are pinned.
    pub open spec fn pinned(&self) -> FixedDiceView
        recommends
            self.spec_dice_mode() is FixedDice,
    {
        self.spec_dice_mode()->FixedDice_0@
    }

    pub fn dice_mode(&self) -> (r: &DiceMode)
        ensures
            *r == self.spec_dice_mode(),
    {
        &self.dice_mode
    }

    /// Switch the way rolls are resolved; no roll may be pending. A registered roll is
    /// dropped.
    pub fn set_dice_mode(&mut self, mode: DiceMode)
        requires
            old(self).wf(),
            old(self).spec_pending_roll() is None,
        ensures
            final(self).wf(),
            final(self).same_but_dice(&*old(self)),
            final(self).spec_dice_mode() == mode,
            final(self).spec_registered_roll() is None,
    {
        self.registered_roll = None;
        self.dice_mode = mode;
    }

    /// Pin the next coin toss.
    pub fn fix_coin(&mut self, value: Coin)
        requires
            old(self).wf(),
            old(self).spec_dice_mode() is FixedDice,
        ensures
            final(self).wf(),
            final(self).same_but_dice(&*old(self)),
            final(self).spec_registered_roll() == old(self).spec_registered_roll(),
            final(self).spec_dice_mode() is FixedDice,
            final(self).pinned() == (FixedDiceView {
                coin: old(self).pinned().coin.push(value),
                ..old(self).pinned()
            }),
    {
        match &mut self.dice_mode {
            DiceMode::FixedDice(fixes) => fixes.fix_coin(value),
            _ => {},
        }
    }

    /// Pin the next D3 to `value`.
    pub fn fix_d3(&mut self, value: u8)
        requires
            old(self).wf(),
            old(self).spec_dice_mode() is FixedDice,
            1 <= value <= 3,
        ensures
            final(self).wf(),
            final(self).same_but_dice(&*old(self)),
            final(self).spec_registered_roll() == old(self).spec_registered_roll(),
            final(self).spec_dice_mode() is FixedDice,
            final(self).pinned().d3.len() == old(self).pinned().d3.len() + 1,
            final(self).pinned().d3.last().spec_value() == value,
            final(self).pinned().d3.drop_last() == old(self).pinned().d3,
            final(self).pinned() == (FixedDiceView { d3: final(self).pinned().d3, ..old(self).pinned() }),
    {
        match &mut self.dice_mode {
            DiceMode::FixedDice(fixes) => fixes.fix_d3(value),
            _ => {},
        }
    }

    /// Pin the next D6 to `value`.
    pub fn fix_d6(&mut self, value: u8)
        requires
            old(self).wf(),
            old(self).spec_dice_mode() is FixedDice,
            1 <= value <= 6,
        ensures
            final(self).wf(),
            final(self).same_but_dice(&*old(self)),
            final(self).spec_registered_roll() == old(self).spec_registered_roll(),
            final(self).spec_dice_mode() is FixedDice,
            final(self).pinned().d6.len() == old(self).pinned().d6.len() + 1,
            final(self).pinned().d6.last().spec_value() == value,
            final(self).pinned().d6.drop_last() == old(self).pinned().d6,
            final(self).pinned() == (FixedDiceView { d6: final(self).pinned().d6, ..old(self).pinned() }),
    {
        match &mut self.dice_mode {
            DiceMode::FixedDice(fixes) => fixes.fix_d6(value),
            _ => {},
        }
    }

    /// Pin the next D8 to `value`.
    pub fn fix_d8(&mut self, value: u8)
        requires
            old(self).wf(),
            old(self).spec_dice_mode() is FixedDice,
            1 <= value <= 8,
        ensures
            final(self).wf(),
            final(self).same_but_dice(&*old(self)),
            final(self).spec_registered_roll() == old(self).spec_registered_roll(),
            final(self).spec_dice_mode() is FixedDice,
            final(self).pinned().d8.len() == old(self).pinned().d8.len() + 1,
            final(self).pinned().d8.last().spec_value() == value,
            final(self).pinned().d8.drop_last() == old(self).pinned().d8,
            final(self).pinned() == (FixedDiceView { d8: final(self).pinned().d8, ..old(self).pinned() }),
    {
        match &mut self.dice_mode {
            DiceMode::FixedDice(fixes) => fixes.fix_d8(value),
            _ => {},
        }
    }

    /// Pin the next D8 to the face that points along `direction`.
    pub fn fix_d8_direction(&mut self, direction: Direction)
        requires
            old(self).wf(),
            old(self).spec_dice_mode() is FixedDice,
            all_directions().contains(direction),
        ensures
            final(self).wf(),
            final(self).same_but_dice(&*old(self)),
            final(self).spec_registered_roll() == old(self).spec_registered_roll(),
            final(self).spec_dice_mode() is FixedDice,
            final(self).pinned().d8.len() == old(self).pinned().d8.len() + 1,
            all_directions()[final(self).pinned().d8.last().spec_value() - 1] == direction,
            final(self).pinned().d8.drop_last() == old(self).pinned().d8,
            final(self).pinned() == (FixedDiceView { d8: final(self).pinned().d8, ..old(self).pinned() }),
    {
        match &mut self.dice_mode {
            DiceMode::FixedDice(fixes) => fixes.fix_d8_direction(direction),
            _ => {},
        }
    }

    /// Pin the next block die.
    pub fn fix_blockdice(&mut self, value: BlockDice)
        requires
            old(self).wf(),
            old(self).spec_dice_mode() is FixedDice,
        ensures
            final(self).wf(),
            final(self).same_but_dice(&*old(self)),
            final(self).spec_registered_roll() == old(self).spec_registered_roll(),
            final(self).spec_dice_mode() is FixedDice,
            final(self).pinned() == (FixedDiceView {
                blockdice: old(self).pinned().blockdice.push(value),
                ..old(self).pinned()
            }),
    {
        match &mut self.dice_mode {
            DiceMode::FixedDice(fixes) => fixes.fix_blockdice(value),
            _ => {},
        }
    }

    /// No pinned value is left; true in every mode without pinned dice.
    pub fn fixes_is_empty(&self) -> (r: bool)
        ensures
            r == match self.spec_dice_mode() {
                DiceMode::FixedDice(f) => f@.is_empty(),
                _ => true,
            },
    {
        match &self.dice_mode {
            DiceMode::FixedDice(fixes) => fixes.is_empty(),
            _ => true,
        }
    }

    /// How many block dice are pinned; none in a mode without pinned dice.
    pub fn blockdice_fixes_len(&self) -> (r: usize)
        ensures
            r == match self.spec_dice_mode() {
                DiceMode::FixedDice(f) => f@.blockdice.len(),
                _ => 0,
            },
    {
        match &self.dice_mode {
            DiceMode::FixedDice(fixes) => fixes.blockdice_fixes_len(),
            _ => 0,
        }
    }

    /// Checks that every pinned value was consumed.
    pub fn assert_fixes_empty(&self)
        requires
            self.spec_dice_mode() matches DiceMode::FixedDice(f) ==> f@.is_empty(),
    {
        match &self.dice_mode {
            DiceMode::FixedDice(fixes) => fixes.assert_is_empty(),
            _ => {},
        }
    }

    /// Reseed the generator from `state`.
    pub fn set_seed(&mut self, state: u64)
        requires
            old(self).wf(),
        ensures
            final(self).spec_rng() == seeded_chacha(state),
            final(self).wf(),
            final(self).same_but_dice(&*old(self)),
            final(self).spec_dice_mode() == old(self).spec_dice_mode(),
            final(self).spec_registered_roll() == old(self).spec_registered_roll(),
    {
        self.rng = chacha_seed_from_u64(state);
    }

    /// Resolve the pending roll under the dice mode.
    fn get_roll_result(&mut self) -> (r: RollResult)
        requires
            old(self).wf(),
            old(self).pending_roll is Some,
            !(old(self).spec_dice_mode() is RegisterRolls),
            old(self).spec_dice_mode() matches DiceMode::FixedDice(f) ==> can_resolve(
                old(self).pending_roll->0,
                f@,
            ),
        ensures
            roll_drawn(*old(self), *final(self), r),
    {
        let requested_roll = self.pending_roll.unwrap();
        get_roll_result(&mut self.dice_mode, requested_roll, &mut self.rng)
    }
}

/// Dropping the empty slots never lengthens a sequence.
pub proof fn lemma_somes_len<T>(s: Seq<Option<T>>)
    ensures
        somes(s).len() <= s.len(),
    decreases s.len(),
{
    if s.len() > 0 {
        lemma_somes_len(s.drop_last());
    }
}

/// The index in `all_directions()` of the step `(dx, dy)`, one of the eight king's steps.
pub open spec fn direction_index(dx: int, dy: int) -> int {
    if dy == 1 {
        if dx == 1 { 0 } else if dx == 0 { 1 } else { 2 }
    } else if dy == 0 {
        if dx == 1 { 3 } else { 4 }
    } else {
        if dx == 1 { 5 } else if dx == 0 { 6 } else { 7 }
    }
}

/// Players of `team` on the pitch.
pub open spec fn in_team(team: TeamType) -> spec_fn(FieldedPlayer) -> bool {
    |p: FieldedPlayer| p.stats.team == team
}

/// Reserves of `team` in the dugout.
pub open spec fn reserve_of(team: TeamType) -> spec_fn(DugoutPlayer) -> bool {
    |d: DugoutPlayer| d.stats.team == team && d.place == DugoutPlace::Reserves
}

impl GameState {
    /// The squares of `team`'s players on the pitch, in id order.
    pub open spec fn team_squares(&self, team: TeamType) -> Seq<Position> {
        self.on_pitch().filter(in_team(team)).map_values(|p: FieldedPlayer| p.position)
    }

    /// How many of `team`'s players wait in reserve.
    pub open spec fn reserves_count(&self, team: TeamType) -> nat {
        somes(self.dugout()).filter(reserve_of(team)).len()
    }

    /// At most every slot holds a player on the pitch.
    pub proof fn lemma_on_pitch_len(&self)
        requires
            self.wf(),
        ensures
            self.on_pitch().len() <= FIELD_SLOTS,
            somes(self.dugout()).len() <= FIELD_SLOTS,
    {
        lemma_somes_len(self.fielded());
        lemma_somes_len(self.dugout());
    }

    /// Tackle zones on the fielded player `id`.
    pub fn get_tz_on(&self, id: PlayerID) -> (r: u8)
        requires
            self.wf(),
            self.is_fielded(id as int),
        ensures
            r == spec_tz_on(self.on_pitch(), self.fielded()[id as int]->0),
    {
        let players = self.get_players_on_pitch();
        let player = self.get_player_unsafe(id);
        let n = rules::get_tz_on(players.as_slice(), player);
        proof {
            self.lemma_on_pitch_len();
            players@.lemma_filter_len(|o: FieldedPlayer| marks(o, *player));
        }
        n as u8
    }

    /// Tackle zones on the fielded player `id`, not counting those of `except_from_id`.
    pub fn get_tz_on_except_from_id(&self, id: PlayerID, except_from_id: PlayerID) -> (r: u8)
        requires
            self.wf(),
            self.is_fielded(id as int),
        ensures
            r == spec_tz_on_except(self.on_pitch(), self.fielded()[id as int]->0, except_from_id),
    {
        let players = self.get_players_on_pitch();
        let player = self.get_player_unsafe(id);
        let n = rules::tz_on_except(players.as_slice(), player, except_from_id);
        proof {
            self.lemma_on_pitch_len();
            players@.lemma_filter_len(|o: FieldedPlayer| marks_except(o, *player, except_from_id));
        }
        n as u8
    }

    /// The block dice of the fielded `attacker` blocking the fielded `defender` from
    /// `attacker_pos`.
    pub fn get_blockdices_from(&self, attacker: PlayerID, attacker_pos: Position, defender: PlayerID) -> (r:
        NumBlockDices)
        requires
            self.wf(),
            self.is_fielded(attacker as int),
            self.is_fielded(defender as int),
        ensures
            ({
                let a = self.fielded()[attacker as int]->0;
                let d = self.fielded()[defender as int]->0;
                r == spec_block_dice(
                    attacker_strength(self.on_pitch(), a, d),
                    defender_strength(self.on_pitch(), a, attacker_pos, d),
                )
            }),
    {
        let players = self.get_players_on_pitch();
        let a = self.get_player_unsafe(attacker);
        let d = self.get_player_unsafe(defender);
        rules::get_blockdices_from(players.as_slice(), a, attacker_pos, d)
    }

    /// The block dice of the fielded `attacker` blocking the fielded `defender` from where it
    /// stands.
    pub fn get_blockdices(&self, attacker: PlayerID, defender: PlayerID) -> (r: NumBlockDices)
        requires
            self.wf(),
            self.is_fielded(attacker as int),
            self.is_fielded(defender as int),
        ensures
            ({
                let a = self.fielded()[attacker as int]->0;
                let d = self.fielded()[defender as int]->0;
                r == spec_block_dice(
                    attacker_strength(self.on_pitch(), a, d),
                    defender_strength(self.on_pitch(), a, a.position, d),
                )
            }),
    {
        let attacker_pos = self.get_player_unsafe(attacker).position;
        self.get_blockdices_from(attacker, attacker_pos, defender)
    }

    /// The catch roll of `p`: its agility roll, one worse per opponent marking it and one
    /// worse again in rain, kept between 2+ and 6+.
    pub open spec fn catch_roll(&self, p: FieldedPlayer) -> int {
        let z = spec_opponent_zones_at(self.on_pitch(), p.stats.team, p.position);
        let t = spec_truncate_to(2, 6, 7 - p.stats.ag + z);
        if self.spec_info().weather == Weather::Rain {
            spec_truncate_to(2, 6, t + 1)
        } else {
            t
        }
    }

    /// The catch roll of the player `id`, or an error when no such player is on the pitch.
    pub fn get_catch_target(&self, id: PlayerID) -> (r: Result<D6Target, InvalidPlayerId>)
        requires
            self.wf(),
            id < FIELD_SLOTS,
            self.fielded()[id as int] matches Some(p) ==> 1 <= p.stats.ag <= 5,
        ensures
            match self.fielded()[id as int] {
                Some(p) => r matches Ok(t) && t.spec_value() == self.catch_roll(p),
                None => r == Err::<D6Target, InvalidPlayerId>(InvalidPlayerId { id }),
            },
    {
        let player = match self.get_player(id) {
            Ok(p) => p,
            Err(e) => {
                return Err(e);
            },
        };
        let players = self.get_players_on_pitch();
        proof {
            self.lemma_on_pitch_len();
            players@.lemma_filter_len(
                |o: FieldedPlayer|
                    adjacent(o.position, player.position) && o.stats.team != player.stats.team
                        && o.status == PlayerStatus::Up,
            );
        }
        Ok(rules::get_catch_target(players.as_slice(), player, self.info.weather))
    }

    /// The pass modifier of the fielded player `id` passing from `from` to `to`, or `None`
    /// beyond range.
    pub fn get_pass_modifier(&self, id: usize, from: Position, to: Position) -> (r: Option<i8>)
        requires
            self.wf(),
            self.is_fielded(id as int),
            from != to,
            -128 <= to.x - from.x <= 127 && -128 <= to.y - from.y <= 127,
        ensures
            match spec_pass_modifier(self.on_pitch(), self.fielded()[id as int]->0, from, to) {
                Some(m) => r == Some(m as i8),
                None => r is None,
            },
    {
        let players = self.get_players_on_pitch();
        let passer = self.get_player_unsafe(id);
        proof {
            self.lemma_on_pitch_len();
            players@.lemma_filter_len(
                |o: FieldedPlayer|
                    adjacent(o.position, from) && o.stats.team != passer.stats.team && o.status
                        == PlayerStatus::Up,
            );
        }
        rules::get_pass_modifier(players.as_slice(), passer, from, to)
    }

    /// The pass roll of the fielded player `id` passing from `from` to `to`, or `None`
    /// beyond range.
    pub fn get_pass_target(&self, id: usize, from: Position, to: Position) -> (r: Option<D6Target>)
        requires
            self.wf(),
            self.is_fielded(id as int),
            from != to,
            -128 <= to.x - from.x <= 127 && -128 <= to.y - from.y <= 127,
        ensures
            ({
                let p = self.fielded()[id as int]->0;
                match spec_pass_modifier(self.on_pitch(), p, from, to) {
                    Some(m) => r matches Some(t) && t.spec_value() == spec_truncate_to(
                        2,
                        6,
                        p.stats.pass.spec_value() - m,
                    ),
                    None => r is None,
                }
            }),
    {
        let players = self.get_players_on_pitch();
        let passer = self.get_player_unsafe(id);
        proof {
            self.lemma_on_pitch_len();
            players@.lemma_filter_len(
                |o: FieldedPlayer|
                    adjacent(o.position, from) && o.stats.team != passer.stats.team && o.status
                        == PlayerStatus::Up,
            );
        }
        rules::get_pass_target(players.as_slice(), passer, from, to)
    }

    /// Where `kicking_team`'s kickoff aims: the centre of the receiving half.
    pub fn get_best_kickoff_aim_for(&self, kicking_team: TeamType) -> (r: Position)
        requires
            self.wf(),
        ensures
            r.x == spec_kickoff_aim(self.spec_dims(), kicking_team).0,
            r.y == spec_kickoff_aim(self.spec_dims(), kicking_team).1,
    {
        rules::get_best_kickoff_aim_for(&self.board_dims, kicking_team)
    }

    /// The board in play.
    pub fn dims(&self) -> (r: BoardDims)
        ensures
            r == self.spec_dims(),
    {
        self.board_dims
    }

    /// The turn information.
    pub fn info(&self) -> (r: &GameInfo)
        ensures
            *r == self.spec_info(),
    {
        &self.info
    }

    /// The squares of `team`'s players on the pitch, in id order; all of them on the pitch.
    pub fn team_positions(&self, team: TeamType) -> (r: Vec<Position>)
        requires
            self.wf(),
        ensures
            r@ == self.team_squares(team),
            forall|i: int| 0 <= i < r@.len() ==> in_pitch(#[trigger] r@[i].x as int, r@[i].y as int),
    {
        let ghost f = in_team(team);
        let ghost g = |p: FieldedPlayer| p.position;
        let mut out: Vec<Position> = Vec::new();
        let mut j: usize = 0;
        while j < FIELD_SLOTS
            invariant
                j <= FIELD_SLOTS,
                self.wf(),
                f == in_team(team),
                g == (|p: FieldedPlayer| p.position),
                out@ == somes(self.fielded().take(j as int)).filter(f).map_values(g),
                forall|i: int| 0 <= i < out@.len() ==> in_pitch(#[trigger] out@[i].x as int, out@[i].y as int),
            decreases FIELD_SLOTS - j,
        {
            let ghost prefix = somes(self.fielded().take(j as int));
            proof {
                assert(self.fielded().take(j + 1).drop_last() =~= self.fielded().take(j as int));
            }
            match &self.fielded_players[j] {
                Some(p) => {
                    proof {
                        assert(somes(self.fielded().take(j + 1)) == prefix.push(*p));
                        prefix.lemma_filter_push(*p, f);
                    }
                    if p.stats.team == team {
                        out.push(p.position);
                        assert(out@ =~= prefix.push(*p).filter(f).map_values(g));
                    } else {
                        assert(out@ =~= prefix.push(*p).filter(f).map_values(g));
                    }
                },
                None => {
                    assert(somes(self.fielded().take(j + 1)) == prefix);
                },
            }
            j += 1;
        }
        assert(self.fielded().take(FIELD_SLOTS as int) =~= self.fielded());
        out
    }

    /// Whether `team`'s setup is legal, from its players on the pitch and its reserves.
    pub fn is_setup_legal(&self, team: TeamType) -> (r: bool)
        requires
            self.wf(),
        ensures
            r == spec_is_setup_legal(
                self.spec_dims(),
                team,
                self.team_squares(team),
                self.reserves_count(team),
            ),
    {
        let players = self.get_players_on_pitch_in_team(team);
        let mut squares: Vec<Position> = Vec::new();
        let mut i: usize = 0;
        while i < players.len()
            invariant
                i <= players@.len(),
                squares@ == players@.take(i as int).map_values(|p: FieldedPlayer| p.position),
            decreases players@.len() - i,
        {
            squares.push(players[i].position);
            i += 1;
            assert(squares@ =~= players@.take(i as int).map_values(|p: FieldedPlayer| p.position));
        }
        assert(players@.take(players@.len() as int) =~= players@);
        let dugout = self.get_dugout();
        let ghost f = reserve_of(team);
        let mut bench: usize = 0;
        let mut j: usize = 0;
        while j < dugout.len()
            invariant
                j <= dugout@.len(),
                bench <= j,
                f == reserve_of(team),
                bench == dugout@.take(j as int).filter(f).len(),
            decreases dugout@.len() - j,
        {
            if dugout[j].stats.team == team && dugout[j].place == DugoutPlace::Reserves {
                bench += 1;
            }
            proof {
                assert(dugout@.take(j + 1).drop_last() =~= dugout@.take(j as int));
                reveal_with_fuel(Seq::filter, 1);
            }
            j += 1;
        }
        assert(dugout@.take(dugout@.len() as int) =~= dugout@);
        proof {
            self.lemma_on_pitch_len();
            self.on_pitch().lemma_filter_len(in_team(team));
        }
        rules::is_setup_legal(&self.board_dims, team, squares.as_slice(), bench)
    }

    /// The eight squares around `position`, in the fixed order of the steps.
    pub fn get_adj_positions(&self, position: Position) -> (r: Vec<Position>)
        requires
            !position.spec_is_out(),
        ensures
            r@.len() == 8,
            forall|i: int|
                0 <= i < 8 ==> (#[trigger] r@[i]).x == position.x + all_directions()[i].dx && r@[i].y
                    == position.y + all_directions()[i].dy,
    {
        let dirs = Direction::all_directions_iter();
        let mut out: Vec<Position> = Vec::new();
        let mut i: usize = 0;
        while i < 8
            invariant
                i <= 8,
                dirs@ == all_directions(),
                !position.spec_is_out(),
                out@.len() == i,
                forall|k: int|
                    0 <= k < i ==> (#[trigger] out@[k]).x == position.x + all_directions()[k].dx
                        && out@[k].y == position.y + all_directions()[k].dy,
            decreases 8 - i,
        {
            let d = dirs[i];
            assert(-1 <= d.dx <= 1 && -1 <= d.dy <= 1);
            out.push(position.add_direction(d));
            i += 1;
        }
        out
    }

    /// The players on the squares around `p`, in the fixed order of the steps.
    pub fn get_adj_players(&self, p: Position) -> (r: Vec<FieldedPlayer>)
        requires
            self.wf(),
            !p.spec_is_out(),
        ensures
            forall|i: int| 0 <= i < r@.len() ==> adjacent((#[trigger] r@[i]).position, p),
            forall|i: int|
                0 <= i < r@.len() ==> Some(#[trigger] r@[i]) == self.fielded()[r@[i].id as int],
            forall|i: int| 0 <= i < r@.len() ==> (#[trigger] r@[i]).id < FIELD_SLOTS,
            forall|id: int|
                #[trigger] self.is_fielded(id) && adjacent(self.fielded()[id]->0.position, p) ==> exists|
                    i: int,
                | 0 <= i < r@.len() && r@[i].id == id,
    {
        let squares = self.get_adj_positions(p);
        let mut out: Vec<FieldedPlayer> = Vec::new();
        let mut i: usize = 0;
        while i < 8
            invariant
                i <= 8,
                self.wf(),
                !p.spec_is_out(),
                squares@.len() == 8,
                forall|k: int|
                    0 <= k < 8 ==> (#[trigger] squares@[k]).x == p.x + all_directions()[k].dx
                        && squares@[k].y == p.y + all_directions()[k].dy,
                forall|k: int| 0 <= k < out@.len() ==> adjacent((#[trigger] out@[k]).position, p),
                forall|k: int|
                    0 <= k < out@.len() ==> Some(#[trigger] out@[k]) == self.fielded()[out@[k].id as int],
                forall|k: int| 0 <= k < out@.len() ==> (#[trigger] out@[k]).id < FIELD_SLOTS,
                forall|id: int|
                    #[trigger] self.is_fielded(id) && (exists|k: int|
                        0 <= k < i && squares@[k] == self.fielded()[id]->0.position) ==> exists|m: int|
                        0 <= m < out@.len() && out@[m].id == id,
            decreases 8 - i,
        {
            let sq = squares[i];
            assert(in_pitch(sq.x as int, sq.y as int));
            let ghost before = out@;
            match self.get_player_at(sq) {
                Some(q) => {
                    out.push(*q);
                },
                None => {},
            }
            proof {
                assert forall|id: int|
                    #[trigger] self.is_fielded(id) && (exists|k: int|
                        0 <= k < i + 1 && squares@[k] == self.fielded()[id]->0.position) implies exists|
                        m: int,
                    | 0 <= m < out@.len() && out@[m].id == id by {
                    let k = choose|k: int| 0 <= k < i + 1 && squares@[k] == self.fielded()[id]->0.position;
                    if k < i {
                        let m = choose|m: int| 0 <= m < before.len() && before[m].id == id;
                        assert(out@[m] == before[m]);
                    } else {
                        let pos = self.fielded()[id]->0.position;
                        assert(self.board_at(pos.x as int, pos.y as int) == Some(id as usize));
                        assert(out@[before.len() as int].id == id);
                    }
                }
            }
            i += 1;
        }
        proof {
            assert forall|id: int|
                #[trigger] self.is_fielded(id) && adjacent(self.fielded()[id]->0.position, p) implies exists|
                    m: int,
                | 0 <= m < out@.len() && out@[m].id == id by {
                let q = self.fielded()[id]->0.position;
                let k = direction_index(q.x - p.x, q.y - p.y);
                assert(squares@[k] == q);
            }
        }
        out
    }
}

/// The first empty slot of `s`, when it has one.
pub open spec fn first_free<T>(s: Seq<Option<T>>) -> int {
    choose|i: int| is_first_free(s, i)
}

pub proof fn lemma_first_free_unique<T>(s: Seq<Option<T>>, i: int)
    requires
        is_first_free(s, i),
    ensures
        first_free(s) == i,
{
    let j = first_free(s);
    assert(is_first_free(s, j));
    if j < i {
        assert(s[j] is Some);
    } else if j > i {
        assert(s[i] is Some);
    }
}

/// A sequence with fewer values than slots has an empty slot.
pub proof fn lemma_free_slot_exists<T>(s: Seq<Option<T>>)
    requires
        somes(s).len() < s.len(),
    ensures
        has_free_slot(s),
    decreases s.len(),
{
    if s.last() is None {
        assert(s[s.len() - 1] is None);
    } else {
        lemma_free_slot_exists(s.drop_last());
        let k = choose|k: int| 0 <= k < s.drop_last().len() && #[trigger] s.drop_last()[k] is None;
        assert(s[k] is None);
    }
}

/// Overwriting one slot changes the number of values by what left and what came.
pub proof fn lemma_somes_update_len<T>(s: Seq<Option<T>>, i: int, v: Option<T>)
    requires
        0 <= i < s.len(),
    ensures
        somes(s.update(i, v)).len() == somes(s).len() - (if s[i] is Some { 1int } else { 0int }) + (
        if v is Some {
            1int
        } else {
            0int
        }),
    decreases s.len(),
{
    if i == s.len() - 1 {
        assert(s.update(i, v).drop_last() =~= s.drop_last());
    } else {
        assert(s.update(i, v).drop_last() =~= s.drop_last().update(i, v));
        lemma_somes_update_len(s.drop_last(), i, v);
    }
}

/// `d` after a player with `stats` went into its first empty slot, at `place`.
pub open spec fn dugout_with(d: Seq<Option<DugoutPlayer>>, stats: PlayerStats, place: DugoutPlace) -> Seq<
    Option<DugoutPlayer>,
> {
    d.update(first_free(d), Some(DugoutPlayer { stats, place, id: first_free(d) as usize }))
}

/// `d` after each of `ps`, in order, went into reserve.
pub open spec fn dugout_after_unfielding(d: Seq<Option<DugoutPlayer>>, ps: Seq<FieldedPlayer>) -> Seq<
    Option<DugoutPlayer>,
>
    decreases ps.len(),
{
    if ps.len() == 0 {
        d
    } else {
        dugout_with(dugout_after_unfielding(d, ps.drop_last()), ps.last().stats, DugoutPlace::Reserves)
    }
}

impl GameState {
    /// The active player stays active unless it is the fielded player with an id below `n`.
    pub open spec fn active_after_unfielding(&self, n: int) -> Option<PlayerID> {
        match self.spec_info().active_player {
            Some(k) => if k < n && self.is_fielded(k as int) {
                None
            } else {
                Some(k)
            },
            None => None,
        }
    }

    /// Take every player on the pitch into reserve, in id order. The ball may not be carried,
    /// and the dugouts must have room for everyone.
    pub fn unfield_all_players(&mut self) -> (r: Result<(), InvalidPlayerId>)
        requires
            old(self).wf(),
            !(old(self).spec_ball() is Carried),
            old(self).on_pitch().len() + somes(old(self).dugout()).len() <= FIELD_SLOTS,
        ensures
            r is Ok,
            final(self).wf(),
            final(self).same_but_players_and_info(&*old(self)),
            final(self).spec_info() == (GameInfo {
                active_player: old(self).active_after_unfielding(FIELD_SLOTS as int),
                ..old(self).spec_info()
            }),
            forall|j: int| 0 <= j < FIELD_SLOTS ==> #[trigger] final(self).fielded()[j] is None,
            forall|x: int, y: int| in_pitch(x, y) ==> #[trigger] final(self).board_at(x, y) is None,
            final(self).dugout() == dugout_after_unfielding(old(self).dugout(), old(self).on_pitch()),
    {
        let ghost orig = *self;
        let mut i: usize = 0;
        while i < FIELD_SLOTS
            invariant
                i <= FIELD_SLOTS,
                self.wf(),
                orig.wf(),
                !(self.spec_ball() is Carried),
                self.same_but_players_and_info(&orig),
                self.spec_info() == (GameInfo {
                    active_player: orig.active_after_unfielding(i as int),
                    ..orig.spec_info()
                }),
                forall|j: int| 0 <= j < i ==> #[trigger] self.fielded()[j] is None,
                forall|j: int| i <= j < FIELD_SLOTS ==> #[trigger] self.fielded()[j] == orig.fielded()[j],
                forall|x: int, y: int|
                    in_pitch(x, y) ==> #[trigger] self.board_at(x, y) == match orig.board_at(x, y) {
                        Some(k) => if k < i {
                            None
                        } else {
                            Some(k)
                        },
                        None => None,
                    },
                self.dugout() == dugout_after_unfielding(
                    orig.dugout(),
                    somes(orig.fielded().take(i as int)),
                ),
                self.on_pitch().len() + somes(self.dugout()).len() <= FIELD_SLOTS,
            decreases FIELD_SLOTS - i,
        {
            let ghost before = *self;
            proof {
                assert(orig.fielded().take(i + 1).drop_last() =~= orig.fielded().take(i as int));
            }
            if self.fielded_players[i].is_some() {
                proof {
                    assert(self.fielded()[i as int] == orig.fielded()[i as int]);
                    assert(somes(self.fielded()).len() >= 1) by {
                        lemma_somes_update_len(self.fielded(), i as int, None);
                    }
                    lemma_free_slot_exists(self.dugout());
                }
                let r = self.unfield_player(i, DugoutPlace::Reserves);
                proof {
                    let p = before.fielded()[i as int]->0;
                    lemma_somes_update_len(before.fielded(), i as int, None);
                    let k = choose|k: int|
                        is_first_free(before.dugout(), k) && self.dugout() == before.dugout().update(
                            k,
                            Some(
                                DugoutPlayer {
                                    stats: before.fielded()[i as int]->0.stats,
                                    place: DugoutPlace::Reserves,
                                    id: k as usize,
                                },
                            ),
                        );
                    lemma_first_free_unique(before.dugout(), k);
                    lemma_somes_update_len(
                        before.dugout(),
                        k,
                        Some(DugoutPlayer { stats: p.stats, place: DugoutPlace::Reserves, id: k as usize }),
                    );
                    let done = somes(orig.fielded().take(i as int));
                    assert(somes(orig.fielded().take(i + 1)) == done.push(p));
                    assert(done.push(p).drop_last() =~= done);
                    assert(self.dugout() == dugout_with(before.dugout(), p.stats, DugoutPlace::Reserves));
                    assert(self.dugout() == dugout_after_unfielding(
                        orig.dugout(),
                        somes(orig.fielded().take(i + 1)),
                    ));
                    assert forall|x: int, y: int| in_pitch(x, y) implies #[trigger] self.board_at(x, y)
                        == match orig.board_at(x, y) {
                        Some(k) => if k < i + 1 {
                            None
                        } else {
                            Some(k)
                        },
                        None => None,
                    } by {
                        if x == p.position.x && y == p.position.y {
                            assert(orig.board_at(x, y) == Some(i));
                        } else {
                            assert(self.board_at(x, y) == before.board_at(x, y));
                            if orig.board_at(x, y) == Some(i) {
                                assert(orig.fielded()[i as int]->0.position.x == x);
                            }
                        }
                    }
                }
            } else {
                proof {
                    assert(somes(orig.fielded().take(i + 1)) == somes(orig.fielded().take(i as int)));
                    assert forall|x: int, y: int| in_pitch(x, y) implies #[trigger] self.board_at(x, y)
                        == match orig.board_at(x, y) {
                        Some(k) => if k < i + 1 {
                            None
                        } else {
                            Some(k)
                        },
                        None => None,
                    } by {
                        if orig.board_at(x, y) == Some(i) {
                            assert(orig.fielded()[i as int] is Some);
                        }
                    }
                }
            }
            i += 1;
        }
        proof {
            assert(orig.fielded().take(FIELD_SLOTS as int) =~= orig.fielded());
        }
        Ok(())
    }

    /// Take every player off the pitch and empty both dugouts.
    pub fn clear_all_players(&mut self) -> (r: Result<(), InvalidPlayerId>)
        requires
            old(self).wf(),
            !(old(self).spec_ball() is Carried),
            old(self).on_pitch().len() + somes(old(self).dugout()).len() <= FIELD_SLOTS,
        ensures
            r is Ok,
            final(self).wf(),
            final(self).same_but_players_and_info(&*old(self)),
            final(self).spec_info() == (GameInfo {
                active_player: old(self).active_after_unfielding(FIELD_SLOTS as int),
                ..old(self).spec_info()
            }),
            forall|j: int| 0 <= j < FIELD_SLOTS ==> #[trigger] final(self).fielded()[j] is None,
            forall|j: int| 0 <= j < FIELD_SLOTS ==> #[trigger] final(self).dugout()[j] is None,
            forall|x: int, y: int| in_pitch(x, y) ==> #[trigger] final(self).board_at(x, y) is None,
    {
        let r = self.unfield_all_players();
        let mut empty: Vec<Option<DugoutPlayer>> = Vec::new();
        let mut i: usize = 0;
        while i < FIELD_SLOTS
            invariant
                i <= FIELD_SLOTS,
                empty@.len() == i,
                forall|j: int| 0 <= j < i ==> #[trigger] empty@[j] is None,
            decreases FIELD_SLOTS - i,
        {
            empty.push(None);
            i += 1;
        }
        self.dugout_players = empty;
        r
    }
}

/// A half that has not started yet.
pub open spec fn is_unstarted_half(p: AnyProc) -> bool {
    p matches AnyProc::Half(h) && !h.started
}

/// Procedures that survive relabelling the half in progress as the second one.
pub open spec fn kept_in_second_half() -> spec_fn(AnyProc) -> bool {
    |p: AnyProc| !is_unstarted_half(p)
}

impl GameState {
    /// Relabel the half in progress as `half`; as the second half, every half still waiting
    /// on the procedure stack is dropped, so the game ends when this half's turns run out.
    pub fn set_half(&mut self, half: u8)
        requires
            old(self).wf(),
            half == 1 || half == 2,
        ensures
            final(self).wf(),
            final(self).spec_info() == (GameInfo { half, ..old(self).spec_info() }),
            final(self).spec_proc_stack() == if half == 2 {
                old(self).spec_proc_stack().filter(kept_in_second_half())
            } else {
                old(self).spec_proc_stack()
            },
            final(self).fielded() == old(self).fielded(),
            final(self).dugout() == old(self).dugout(),
            forall|x: int, y: int| #[trigger] final(self).board_at(x, y) == old(self).board_at(x, y),
            final(self).spec_ball() == old(self).spec_ball(),
            final(self).spec_dice_mode() == old(self).spec_dice_mode(),
            final(self).spec_available_actions() == old(self).spec_available_actions(),
    {
        self.info.half = half;
        if half == 2 {
            let ghost orig = self.proc_stack@;
            let ghost keep = kept_in_second_half();
            let ghost start = *self;
            let mut i: usize = self.proc_stack.len();
            while i > 0
                invariant
                    i <= orig.len(),
                    start.wf(),
                    self.info == start.info,
                    self.board_dims == start.board_dims,
                    self.fielded_players@ == start.fielded_players@,
                    self.dugout_players@ == start.dugout_players@,
                    self.board == start.board,
                    self.ball == start.ball,
                    self.bounce_squares@ == start.bounce_squares@,
                    self.available_actions == start.available_actions,
                    self.dice_mode == start.dice_mode,
                    keep == kept_in_second_half(),
                    self.proc_stack@ == orig.subrange(0, i as int) + orig.subrange(i as int, orig.len() as int).filter(keep),
                decreases i,
            {
                i -= 1;
                let ghost rest = orig.subrange(i + 1, orig.len() as int);
                proof {
                    assert(orig.subrange(i as int, orig.len() as int) =~= seq![orig[i as int]] + rest);
                    rest.lemma_filter_prepend(orig[i as int], keep);
                    assert(orig.subrange(0, i + 1) =~= orig.subrange(0, i as int).push(orig[i as int]));
                }
                let unstarted = match &self.proc_stack[i] {
                    AnyProc::Half(h) => !h.started,
                    _ => false,
                };
                if unstarted {
                    self.proc_stack.remove(i);
                    assert(self.proc_stack@ =~= orig.subrange(0, i as int) + orig.subrange(i as int, orig.len() as int).filter(keep));
                } else {
                    assert(self.proc_stack@ =~= orig.subrange(0, i as int) + orig.subrange(i as int, orig.len() as int).filter(keep));
                }
            }
            assert(orig.subrange(0, orig.len() as int) =~= orig);
            assert(self.proc_stack@ =~= orig.filter(keep));
        }
    }

    /// The name of the procedure on top of the stack, if any.
    pub fn proc_stack_top(&self) -> (r: Option<&'static str>)
        ensures
            match r {
                Some(n) => self.spec_proc_stack().len() > 0 && n@ == self.spec_proc_stack().last().spec_name(),
                None => self.spec_proc_stack().len() == 0,
            },
    {
        match self.proc_stack.last() {
            Some(p) => Some(p.name()),
            None => None,
        }
    }

    /// The procedure on top of the stack, if any.
    pub fn proc_stack_peek(&self) -> (r: Option<&AnyProc>)
        ensures
            match r {
                Some(p) => self.spec_proc_stack().len() > 0 && *p == self.spec_proc_stack().last(),
                None => self.spec_proc_stack().len() == 0,
            },
    {
        self.proc_stack.last()
    }
}

impl GameState {
    /// Both states have the same board.
    pub open spec fn same_board(&self, other: &GameState) -> bool {
        self.spec_board() == other.spec_board()
    }

    /// `self` is `other` with the fielded players edited in place: nobody came or left, and
    /// every player kept its id and its square.
    pub open spec fn players_edited_in_place(&self, other: &GameState) -> bool {
        &&& self.same_but_players(other)
        &&& self.dugout() == other.dugout()
        &&& self.fielded().len() == other.fielded().len()
        &&& self.same_board(other)
        &&& forall|j: int|
            0 <= j < other.fielded().len() ==> (#[trigger] self.fielded()[j] is Some <==> other.fielded()[j] is Some)
        &&& forall|j: int|
            0 <= j < other.fielded().len() && #[trigger] self.fielded()[j] is Some ==> {
                &&& self.fielded()[j]->0.id == other.fielded()[j]->0.id
                &&& self.fielded()[j]->0.position == other.fielded()[j]->0.position
            }
    }

    /// A well-formed state has a slot for every player of both rosters, on the pitch and in
    /// the dugouts.
    pub proof fn lemma_slots(&self)
        requires
            self.wf(),
        ensures
            self.fielded().len() == FIELD_SLOTS,
            self.dugout().len() == FIELD_SLOTS,
    {
    }

    /// In a well-formed state the board and the fielded players agree: each fielded player
    /// stands on a square of the pitch that names it, each named square holds that player, and
    /// a carried ball is carried by a fielded player.
    pub proof fn lemma_board_agrees(&self)
        requires
            self.wf(),
        ensures
            forall|j: int|
                #[trigger] self.is_fielded(j) ==> {
                    let p = self.fielded()[j]->0;
                    &&& p.id == j
                    &&& in_pitch(p.position.x as int, p.position.y as int)
                    &&& self.board_at(p.position.x as int, p.position.y as int) == Some(j as usize)
                },
            forall|x: int, y: int|
                in_pitch(x, y) && (#[trigger] self.board_at(x, y)) is Some ==> {
                    let k = self.board_at(x, y)->0;
                    &&& self.is_fielded(k as int)
                    &&& self.fielded()[k as int]->0.position.x == x
                    &&& self.fielded()[k as int]->0.position.y == y
                },
            self.spec_ball() matches BallState::Carried(c) ==> self.is_fielded(c as int),
            self.spec_dims().valid(),
    {
    }

    /// Editing the players in place keeps a state well formed.
    pub proof fn lemma_edit_in_place_keeps_wf(&self, other: &GameState)
        requires
            other.wf(),
            self.players_edited_in_place(other),
        ensures
            self.wf(),
    {
    }

    /// Everything but the turn information is the same in both states.
    pub open spec fn same_but_info(&self, other: &GameState) -> bool {
        &&& self.fielded() == other.fielded()
        &&& self.dugout() == other.dugout()
        &&& self.same_board(other)
        &&& self.same_but_players_and_info(other)
    }

    /// The turn information, to edit in place.
    pub fn info_mut(&mut self) -> (r: &mut GameInfo)
        requires
            old(self).wf(),
        ensures
            *r == old(self).spec_info(),
            final(self).spec_info() == *final(r),
            final(self).wf(),
            final(self).same_but_info(&*old(self)),
    {
        &mut self.info
    }

    /// The state of `team`, to edit in place.
    pub fn get_mut_team(&mut self, team: TeamType) -> (r: &mut TeamState)
        requires
            old(self).wf(),
        ensures
            *r == old(self).spec_team(team),
            final(self).spec_team(team) == *final(r),
            final(self).spec_team(spec_other_team(team)) == old(self).spec_team(spec_other_team(team)),
            final(self).wf(),
            final(self).fielded() == old(self).fielded(),
            final(self).dugout() == old(self).dugout(),
            final(self).same_board(&*old(self)),
            final(self).spec_info() == old(self).spec_info(),
            final(self).spec_ball() == old(self).spec_ball(),
            final(self).spec_bounce_squares() == old(self).spec_bounce_squares(),
            final(self).spec_dims() == old(self).spec_dims(),
            final(self).spec_proc_stack() == old(self).spec_proc_stack(),
            final(self).spec_available_actions() == old(self).spec_available_actions(),
            final(self).spec_dice_mode() == old(self).spec_dice_mode(),
            final(self).spec_pending_roll() == old(self).spec_pending_roll(),
            final(self).spec_registered_roll() == old(self).spec_registered_roll(),
    {
        match team {
            TeamType::Home => &mut self.home,
            TeamType::Away => &mut self.away,
        }
    }

    /// The player `id` to edit in place, or an error when no such player is on the pitch.
    pub fn get_mut_player(&mut self, id: PlayerID) -> (r: Result<&mut FieldedPlayer, InvalidPlayerId>)
        requires
            old(self).wf(),
            id < FIELD_SLOTS,
        ensures
            final(self).dugout() == old(self).dugout(),
            final(self).same_but_players(&*old(self)),
            final(self).same_board(&*old(self)),
            match r {
                Ok(p) => {
                    &&& Some(*p) == old(self).fielded()[id as int]
                    &&& final(self).fielded() == old(self).fielded().update(id as int, Some(*final(p)))
                },
                Err(e) => {
                    &&& old(self).fielded()[id as int] is None
                    &&& e == InvalidPlayerId { id }
                    &&& final(self).fielded() == old(self).fielded()
                },
            },
    {
        match self.fielded_players[id].as_mut() {
            Some(p) => Ok(p),
            None => Err(InvalidPlayerId { id }),
        }
    }

    /// The fielded player `id`, to edit in place.
    pub fn get_mut_player_unsafe(&mut self, id: PlayerID) -> (r: &mut FieldedPlayer)
        requires
            old(self).wf(),
            old(self).is_fielded(id as int),
        ensures
            Some(*r) == old(self).fielded()[id as int],
            final(self).fielded() == old(self).fielded().update(id as int, Some(*final(r))),
            final(self).dugout() == old(self).dugout(),
            final(self).same_but_players(&*old(self)),
            final(self).same_board(&*old(self)),
    {
        self.fielded_players[id].as_mut().unwrap()
    }
}

fn p_copy(p: Option<FieldedPlayer>) -> (r: FieldedPlayer)
    requires
        p is Some,
    ensures
        Some(r) == p,
{
    match p {
        Some(q) => q,
        None => {
            proof {
                assert(false);
            }
            p.unwrap()
        },
    }
}

/// `g` is `before` with its top procedure taken off the stack, and nothing else changed.
pub open spec fn stack_popped(g: GameState, before: GameState) -> bool {
    &&& g.spec_proc_stack() == before.spec_proc_stack().drop_last()
    &&& g.spec_info() == before.spec_info()
    &&& g.spec_team(TeamType::Home) == before.spec_team(TeamType::Home)
    &&& g.spec_team(TeamType::Away) == before.spec_team(TeamType::Away)
    &&& g.spec_dims() == before.spec_dims()
    &&& g.fielded() == before.fielded()
    &&& g.dugout() == before.dugout()
    &&& g.spec_board() == before.spec_board()
    &&& g.spec_ball() == before.spec_ball()
    &&& g.spec_bounce_squares() == before.spec_bounce_squares()
    &&& g.spec_available_actions() == before.spec_available_actions()
    &&& g.spec_dice_mode() == before.spec_dice_mode()
    &&& g.spec_pending_roll() == before.spec_pending_roll()
    &&& g.spec_registered_roll() == before.spec_registered_roll()
    &&& g.spec_rng() == before.spec_rng()
}

/// `after` is `g` once the return `ret` of the stepped procedure `top` is settled: the
/// procedure stack as `stack_after` says, the roll waited for recorded, the offered actions
/// kept only while an action is awaited, and nothing else changed.
pub open spec fn settled(after: GameState, g: GameState, top: AnyProc, ret: ProcState) -> bool {
    &&& after.spec_proc_stack() == stack_after(g.spec_proc_stack(), top, ret)
    &&& after.spec_pending_roll() == match ret {
        ProcState::NeedRoll(roll) => Some(roll),
        _ => None,
    }
    &&& match ret {
        ProcState::NeedAction(aa) => after.spec_available_actions() == *aa,
        ProcState::NeedActionInPlace => after.spec_available_actions() == g.spec_available_actions(),
        _ => {
            &&& after.spec_available_actions().spec_team() is None
            &&& after.spec_available_actions().simple_set() == Set::<SimpleAT>::empty()
            &&& !after.spec_available_actions().has_positional()
            &&& !after.spec_available_actions().spec_has_paths()
        },
    }
    &&& after.spec_info() == g.spec_info()
    &&& after.spec_team(TeamType::Home) == g.spec_team(TeamType::Home)
    &&& after.spec_team(TeamType::Away) == g.spec_team(TeamType::Away)
    &&& after.spec_dims() == g.spec_dims()
    &&& after.fielded() == g.fielded()
    &&& after.dugout() == g.dugout()
    &&& after.spec_board() == g.spec_board()
    &&& after.spec_ball() == g.spec_ball()
    &&& after.spec_bounce_squares() == g.spec_bounce_squares()
    &&& after.spec_dice_mode() == g.spec_dice_mode()
    &&& after.spec_registered_roll() == g.spec_registered_roll()
    &&& after.spec_rng() == g.spec_rng()
}

/// The input is one the engine waits for: nothing when neither a roll nor an action is
/// awaited, an action when no roll is, and a roll of the awaited kind when nothing is on
/// offer.
pub open spec fn input_expected(gs: GameState, input: ProcInput) -> bool {
    let aa = gs.spec_available_actions();
    let empty = aa.simple_set() == Set::<SimpleAT>::empty() && !aa.spec_has_paths() && !aa.has_positional();
    match input {
        ProcInput::Nothing => gs.spec_pending_roll() is None && empty,
        ProcInput::Action(_) => gs.spec_pending_roll() is None,
        ProcInput::Roll(rr) => gs.spec_pending_roll() matches Some(req) && spec_is_compatible(req, rr) && empty,
    }
}

/// `micro_step` can take `input` in `gs`: the state is well formed and, unless the game is
/// over, a procedure is on the stack, the input is the one the engine waits for, and the top
/// procedure accepts it.
pub open spec fn micro_step_ok(gs: GameState, input: ProcInput) -> bool {
    &&& gs.wf()
    &&& !gs.spec_info().game_over ==> {
        &&& gs.spec_proc_stack().len() > 0
        &&& input_expected(gs, input)
        &&& forall|g: GameState|
            #[trigger] stack_popped(g, gs) ==> proc_accepts(gs.spec_proc_stack().last(), g, input)
    }
}

/// `after` and `r` are what one step of the engine makes of `gs` with `input`: when the game
/// is over nothing changes; otherwise the top procedure is popped and stepped, and what it
/// returns is settled on the stack.
pub open spec fn micro_stepped(gs: GameState, input: ProcInput, after: GameState, r: MicroStepState) -> bool {
    &&& after.wf()
    &&& gs.spec_info().game_over ==> r == MicroStepState::GameOver && after == gs
    &&& !gs.spec_info().game_over ==> exists|g: GameState, g2: GameState, top2: AnyProc, ret: ProcState|
        #![trigger proc_step_done(gs.spec_proc_stack().last(), top2, g, g2, input, ret)]
        {
            &&& stack_popped(g, gs)
            &&& proc_step_done(gs.spec_proc_stack().last(), top2, g, g2, input, ret)
            &&& settled(after, g2, top2, ret)
            &&& r == next_micro_step(ret)
        }
}

/// From `gs` the engine can take `input` and then run on by itself, `n` more steps at most,
/// until it needs a roll or an action or the game is over, without any procedure meeting an
/// input or a state it cannot handle.
pub open spec fn runs_clean(gs: GameState, input: ProcInput, n: nat) -> bool
    decreases n,
{
    &&& micro_step_ok(gs, input)
    &&& forall|after: GameState|
        #[trigger] micro_stepped(gs, input, after, MicroStepState::RunAgain) ==> n > 0 && runs_clean(
            after,
            ProcInput::Nothing,
            (n - 1) as nat,
        )
}

/// `after` and `r` are what resolving the roll pending in `gs` under its dice mode gives:
/// only the dice change, drawn from the generator, from the pinned values, or by the policy.
pub open spec fn roll_drawn(gs: GameState, after: GameState, r: RollResult) -> bool {
    let request = gs.spec_pending_roll()->0;
    &&& after.wf()
    &&& after.same_but_dice(&gs)
    &&& after.spec_registered_roll() == gs.spec_registered_roll()
    &&& match gs.spec_dice_mode() {
        DiceMode::RollDice => after.spec_dice_mode() == DiceMode::RollDice && (r, after.spec_rng())
            == spec_resolve_with_rng(request, gs.spec_rng()),
        DiceMode::FixedDice(f) => (after.spec_dice_mode() matches DiceMode::FixedDice(g) && g@ == after_resolve(
            request,
            f@,
        )) && r == spec_resolve_from_fixes(request, f@) && after.spec_rng() == gs.spec_rng(),
        DiceMode::DicePolicy(p) => after.spec_dice_mode() == DiceMode::DicePolicy(p) && spec_policy_outcome(
            p,
            request,
            r,
        ) && (policy_decides(p, request) ==> after.spec_rng() == gs.spec_rng()) && (!policy_decides(p, request)
            ==> (r, after.spec_rng()) == spec_resolve_with_rng(request, gs.spec_rng())),
        DiceMode::RegisterRolls => false,
    }
}

/// No pinned die is left unused; true in every mode without pinned dice.
pub open spec fn fixes_used_up(gs: GameState) -> bool {
    gs.spec_dice_mode() matches DiceMode::FixedDice(f) ==> f@.is_empty()
}

/// Some action is on offer: a simple one, a positional one, or a path.
pub open spec fn offers_action(gs: GameState) -> bool {
    let aa = gs.spec_available_actions();
    !(aa.simple_set() == Set::<SimpleAT>::empty() && !aa.spec_has_paths() && !aa.has_positional())
}

/// What `step` first feeds the engine: nothing when it waits for neither a roll nor an
/// action, the action otherwise.
pub open spec fn first_input(gs: GameState, action: Action) -> ProcInput {
    let aa = gs.spec_available_actions();
    if aa.simple_set() == Set::<SimpleAT>::empty() && !aa.spec_has_paths() && !aa.has_positional()
        && gs.spec_pending_roll() is None {
        ProcInput::Nothing
    } else {
        ProcInput::Action(action)
    }
}

/// From `gs` the engine can take `input`, run on, and have each roll it then asks for
/// resolved under its dice mode and taken in turn, `n` rolls at most, until it needs an action
/// or the game is over, without any procedure meeting an input or a state it cannot handle and
/// without a paused engine or pinned dice that run short; and where it stops for an action,
/// one is on offer.
pub open spec fn plays_clean(gs: GameState, input: ProcInput, n: nat) -> bool
    decreases n,
{
    &&& exists|k: nat| runs_clean(gs, input, k)
    &&& forall|after: GameState, r: MicroStepState, k: nat|
        #[trigger] runs_to(gs, input, after, r, k) && r != MicroStepState::NeedRoll ==> after.spec_info().game_over
            || offers_action(after)
    &&& forall|after: GameState, k: nat|
        #[trigger] runs_to(gs, input, after, MicroStepState::NeedRoll, k) ==> {
            &&& !(after.spec_dice_mode() is RegisterRolls)
            &&& (after.spec_dice_mode() matches DiceMode::FixedDice(f) ==> can_resolve(
                after.spec_pending_roll()->0,
                f@,
            ))
            &&& n > 0 && forall|rolled: GameState, rr: RollResult|
                #[trigger] roll_drawn(after, rolled, rr) ==> plays_clean(rolled, ProcInput::Roll(rr), (n - 1) as nat)
        }
}

/// The engine goes from `gs`, taking `input`, to `after`, where it needs an action or the game
/// is over, with `n` rolls asked for, resolved and taken on the way.
pub open spec fn plays_to(gs: GameState, input: ProcInput, after: GameState, n: nat) -> bool
    decreases n,
{
    if n == 0 {
        exists|r: MicroStepState, k: nat| #[trigger] runs_to(gs, input, after, r, k) && r != MicroStepState::NeedRoll
    } else {
        exists|mid: GameState, k: nat, rolled: GameState, rr: RollResult|
            #![trigger runs_to(gs, input, mid, MicroStepState::NeedRoll, k), roll_drawn(mid, rolled, rr)]
            runs_to(gs, input, mid, MicroStepState::NeedRoll, k) && roll_drawn(mid, rolled, rr) && plays_to(
                rolled,
                ProcInput::Roll(rr),
                after,
                (n - 1) as nat,
            )
    }
}

/// After one step of the engine that did not end the game, a roll is pending exactly when
/// the engine answers that it needs one.
pub proof fn lemma_answer_pending(gs: GameState, input: ProcInput, after: GameState, r: MicroStepState)
    requires
        micro_stepped(gs, input, after, r),
        !gs.spec_info().game_over,
    ensures
        r == MicroStepState::NeedRoll <==> after.spec_pending_roll() is Some,
{
    let (g, g2, top2, ret) = choose|g: GameState, g2: GameState, top2: AnyProc, ret: ProcState|
        #![trigger proc_step_done(gs.spec_proc_stack().last(), top2, g, g2, input, ret)]
        {
            &&& stack_popped(g, gs)
            &&& proc_step_done(gs.spec_proc_stack().last(), top2, g, g2, input, ret)
            &&& settled(after, g2, top2, ret)
            &&& r == next_micro_step(ret)
        };
}

/// The engine goes from `gs`, taking `input`, to `after` answering `r` (a roll or an action
/// needed, or the game over) in `n + 1` steps, all but the last answering to run again.
pub open spec fn runs_to(gs: GameState, input: ProcInput, after: GameState, r: MicroStepState, n: nat) -> bool
    decreases n,
{
    if n == 0 {
        micro_stepped(gs, input, after, r) && r != MicroStepState::RunAgain
    } else {
        exists|mid: GameState|
            #[trigger] micro_stepped(gs, input, mid, MicroStepState::RunAgain) && runs_to(
                mid,
                ProcInput::Nothing,
                after,
                r,
                (n - 1) as nat,
            )
    }
}

impl GameState {
    /// One step of the engine: unless the game is over, the top procedure takes the input,
    /// and what it returns is settled on the procedure stack.
    pub fn micro_step(&mut self, proc_input: ProcInput) -> (r: MicroStepState)
        requires
            micro_step_ok(*old(self), proc_input),
        ensures
            micro_stepped(*old(self), proc_input, *final(self), r),
    {
        if self.info.game_over {
            return MicroStepState::GameOver;
        }
        let ghost before = *self;
        let mut top = match self.proc_stack.pop() {
            Some(p) => p,
            None => {
                proof {
                    assert(false);
                }
                return MicroStepState::GameOver;
            },
        };
        let ghost g = *self;
        proof {
            assert(stack_popped(g, before));
        }
        let ghost top0 = top;
        let ret = top.step(self, proc_input);
        let ghost g2 = *self;
        let ghost ret0 = ret;
        proof {
            lemma_step_keeps_wf(top0, top, g, g2, proc_input, ret0);
        }
        let r = apply_proc_return(
            &mut self.proc_stack,
            top,
            ret,
            &mut self.available_actions,
            &mut self.pending_roll,
        );
        proof {
            assert(settled(*self, g2, top, ret0));
            assert(proc_step_done(top0, top, g, g2, proc_input, ret0));
            assert(self.wf());
        }
        r
    }

    /// Take an action or a roll result, then run the engine on by itself until it needs a
    /// roll or an action or the game is over.
    pub fn step_with_roll_or_action(&mut self, roll_or_action: SomeProcInput) -> (r: MicroStepState)
        requires
            exists|n: nat| runs_clean(*old(self), spec_proc_input_from(roll_or_action), n),
        ensures
            final(self).wf(),
            r != MicroStepState::RunAgain,
            exists|k: nat| runs_to(*old(self), spec_proc_input_from(roll_or_action), *final(self), r, k),
            old(self).spec_info().game_over ==> r == MicroStepState::GameOver && *final(self) == *old(self),
            !old(self).spec_info().game_over ==> (r == MicroStepState::NeedRoll <==> final(self).spec_pending_roll() is Some),
    {
        self.run_engine(ProcInput::from_some(roll_or_action))
    }

    /// Take `action`, or nothing when the engine waits for neither a roll nor an action, and
    /// run the engine on, resolving each roll it asks for under the dice mode, until it needs
    /// an action or the game is over.
    pub fn step(&mut self, action: Action) -> (r: Result<(), String>)
        requires
            exists|n: nat| plays_clean(*old(self), first_input(*old(self), action), n),
        ensures
            r is Ok,
            final(self).wf(),
            exists|m: nat| plays_to(*old(self), first_input(*old(self), action), *final(self), m),
            !final(self).spec_info().game_over ==> final(self).spec_pending_roll() is None,
            final(self).spec_info().game_over || offers_action(*final(self)),
    {
        let first = if self.available_actions.is_empty() && self.pending_roll.is_none() {
            ProcInput::Nothing
        } else {
            ProcInput::Action(action)
        };
        let ghost start = *self;
        let ghost mut fuel: nat = choose|n: nat| plays_clean(*self, first, n);
        let ghost mut rounds: nat = 0;
        let mut input = first;
        loop
            invariant
                start == *old(self),
                first == first_input(start, action),
                plays_clean(*self, input, fuel),
                forall|after: GameState, m: nat|
                    #[trigger] plays_to(*self, input, after, m) ==> plays_to(start, first, after, rounds + m),
            decreases fuel,
        {
            let ghost cur = *self;
            let ghost cur_input = input;
            let s = self.run_engine(input);
            if s == MicroStepState::NeedRoll {
                let ghost mid = *self;
                let ghost k: nat = choose|k: nat| runs_to(cur, cur_input, mid, MicroStepState::NeedRoll, k);
                proof {
                    assert(runs_to(cur, cur_input, mid, MicroStepState::NeedRoll, k));
                }
                let roll = self.get_roll_result();
                proof {
                    assert(roll_drawn(mid, *self, roll));
                    assert forall|after: GameState, m: nat|
                        #[trigger] plays_to(*self, ProcInput::Roll(roll), after, m) implies plays_to(
                        start,
                        first,
                        after,
                        rounds + 1 + m,
                    ) by {
                        assert(runs_to(cur, cur_input, mid, MicroStepState::NeedRoll, k));
                        assert(roll_drawn(mid, *self, roll));
                        assert(plays_to(cur, cur_input, after, m + 1));
                    }
                    fuel = (fuel - 1) as nat;
                    rounds = rounds + 1;
                }
                input = ProcInput::Roll(roll);
            } else {
                proof {
                    let k: nat = choose|k: nat| runs_to(cur, cur_input, *self, s, k);
                    assert(runs_to(cur, cur_input, *self, s, k));
                    assert(self.spec_info().game_over || offers_action(*self));
                    assert(plays_to(cur, cur_input, *self, 0));
                    assert(plays_to(start, first, *self, rounds));
                }
                return Ok(());
            }
        }
    }

    /// Take the simple action `action` as `step` does; every pinned die is used up by then.
    pub fn step_simple(&mut self, action: SimpleAT)
        requires
            exists|n: nat| plays_clean(*old(self), first_input(*old(self), Action::Simple(action)), n),
            forall|after: GameState, m: nat|
                #[trigger] plays_to(*old(self), first_input(*old(self), Action::Simple(action)), after, m)
                    ==> fixes_used_up(after),
        ensures
            final(self).wf(),
            exists|m: nat| plays_to(*old(self), first_input(*old(self), Action::Simple(action)), *final(self), m),
            !final(self).spec_info().game_over ==> final(self).spec_pending_roll() is None,
            final(self).spec_info().game_over || offers_action(*final(self)),
    {
        let ghost start = *self;
        let _ = self.step(Action::Simple(action));
        proof {
            let m: nat = choose|m: nat| plays_to(start, first_input(start, Action::Simple(action)), *self, m);
            assert(plays_to(start, first_input(start, Action::Simple(action)), *self, m));
        }
        self.assert_fixes_empty();
    }

    /// Take the positional action `action` on `position` as `step` does; every pinned die is
    /// used up by then.
    pub fn step_positional(&mut self, action: PosAT, position: Position)
        requires
            exists|n: nat| plays_clean(*old(self), first_input(*old(self), Action::Positional(action, position)), n),
            forall|after: GameState, m: nat|
                #[trigger] plays_to(*old(self), first_input(*old(self), Action::Positional(action, position)), after, m)
                    ==> fixes_used_up(after),
        ensures
            final(self).wf(),
            exists|m: nat|
                plays_to(*old(self), first_input(*old(self), Action::Positional(action, position)), *final(self), m),
            !final(self).spec_info().game_over ==> final(self).spec_pending_roll() is None,
            final(self).spec_info().game_over || offers_action(*final(self)),
    {
        let ghost start = *self;
        let _ = self.step(Action::Positional(action, position));
        proof {
            let m: nat = choose|m: nat| plays_to(start, first_input(start, Action::Positional(action, position)), *self, m);
            assert(plays_to(start, first_input(start, Action::Positional(action, position)), *self, m));
        }
        self.assert_fixes_empty();
    }

    /// Take `input`, then run the engine on by itself until it needs a roll or an action or
    /// the game is over.
    fn run_engine(&mut self, input: ProcInput) -> (r: MicroStepState)
        requires
            exists|n: nat| runs_clean(*old(self), input, n),
        ensures
            final(self).wf(),
            r != MicroStepState::RunAgain,
            exists|k: nat| runs_to(*old(self), input, *final(self), r, k),
            old(self).spec_info().game_over ==> r == MicroStepState::GameOver && *final(self) == *old(self),
            !old(self).spec_info().game_over ==> (r == MicroStepState::NeedRoll <==> final(self).spec_pending_roll() is Some),
    {
        let ghost start = *self;
        let ghost input0 = input;
        let ghost mut fuel: nat = choose|n: nat| runs_clean(*self, input0, n);
        let ghost mut taken: nat = 0;
        let mut proc_input = input;
        loop
            invariant
                start == *old(self),
                input0 == input,
                runs_clean(*self, proc_input, fuel),
                taken == 0 ==> *self == start && proc_input == input0,
                start.spec_info().game_over ==> taken == 0,
                taken > 0 ==> self.spec_pending_roll() is None,
                forall|after: GameState, r: MicroStepState, m: nat|
                    #[trigger] runs_to(*self, proc_input, after, r, m) ==> runs_to(start, input0, after, r, taken + m),
            decreases fuel,
        {
            let ghost cur = *self;
            let ghost cur_input = proc_input;
            let s = self.micro_step(proc_input);
            if s == MicroStepState::RunAgain {
                proof {
                    assert(micro_stepped(cur, cur_input, *self, MicroStepState::RunAgain));
                    lemma_answer_pending(cur, cur_input, *self, MicroStepState::RunAgain);
                    assert forall|after: GameState, r: MicroStepState, m: nat|
                        #[trigger] runs_to(*self, ProcInput::Nothing, after, r, m) implies runs_to(
                        start,
                        input0,
                        after,
                        r,
                        taken + 1 + m,
                    ) by {
                        assert(runs_to(cur, cur_input, after, r, m + 1));
                    }
                    fuel = (fuel - 1) as nat;
                    taken = taken + 1;
                }
                proc_input = ProcInput::Nothing;
            } else {
                proof {
                    assert(runs_to(cur, cur_input, *self, s, 0));
                    assert(runs_to(start, input0, *self, s, taken));
                    if !cur.spec_info().game_over {
                        lemma_answer_pending(cur, cur_input, *self, s);
                    }
                }
                return s;
            }
        }
    }
}

/// Every procedure's step leaves a well-formed state, and the actions it offers are well
/// formed.
pub proof fn lemma_step_keeps_wf(
    p: AnyProc,
    after: AnyProc,
    gs: GameState,
    gs2: GameState,
    input: ProcInput,
    r: ProcState,
)
    requires
        gs.wf(),
        proc_accepts(p, gs, input),
        proc_step_done(p, after, gs, gs2, input, r),
    ensures
        gs2.wf(),
        r matches ProcState::NeedAction(aa) ==> aa.wf(),
{
}

/// The square `(x, y)` can reach a pass from `from` to `to`: no farther from either end
/// than the ends are from each other, and within 1.2 squares of the line between them
/// (36 times the squared length of the pass at least 25 times the squared cross product).
pub open spec fn in_pass_corridor(from: Position, to: Position, x: int, y: int) -> bool {
    let dx = to.x - from.x;
    let dy = to.y - from.y;
    let d2 = dx * dx + dy * dy;
    let cross = (to.x - x) * dy - (to.y - y) * dx;
    &&& (x - from.x) * (x - from.x) + (y - from.y) * (y - from.y) <= d2
    &&& (x - to.x) * (x - to.x) + (y - to.y) * (y - to.y) <= d2
    &&& 36 * d2 >= 25 * (cross * cross)
}

/// A square of the box around the pass that a player could intercept it from: in the
/// corridor, on the physical pitch, and neither end of the pass.
pub open spec fn intercepts_from(from: Position, to: Position) -> spec_fn((i16, i16)) -> bool {
    |c: (i16, i16)| {
        let p = Position { x: c.0 as i8, y: c.1 as i8 };
        &&& in_pass_corridor(from, to, c.0 as int, c.1 as int)
        &&& !p.spec_is_out()
        &&& p != from
        &&& p != to
    }
}

/// The square with the coordinates `c`.
pub open spec fn to_square(c: (i16, i16)) -> Position {
    Position { x: c.0 as i8, y: c.1 as i8 }
}

/// The squares of the box one square around the pass from `from` to `to`, column by column.
pub open spec fn pass_box(from: Position, to: Position) -> Seq<(i16, i16)> {
    let x0 = min_int(from.x as int, to.x as int) - 1;
    let x1 = max_int(from.x as int, to.x as int) + 1;
    let y0 = min_int(from.y as int, to.y as int) - 1;
    let y1 = max_int(from.y as int, to.y as int) + 1;
    let h = y1 - y0 + 1;
    Seq::new(((x1 - x0 + 1) * h) as nat, |i: int| ((x0 + i / h) as i16, (y0 + i % h) as i16))
}

/// The squares from which a pass from `from` to `to` can be intercepted, column by column.
pub open spec fn spec_interception_positions(from: Position, to: Position) -> Seq<Position> {
    pass_box(from, to).filter(intercepts_from(from, to)).map_values(|c: (i16, i16)| to_square(c))
}

impl GameState {
    /// The squares from which a pass from `from` to `to` can be intercepted: in the box one
    /// square around the pass, no farther from either end than the ends are from each other,
    /// within 1.2 squares of the line of the pass, on the pitch, and neither end, column by
    /// column.
    pub fn get_interception_positions(from: Position, to: Position) -> (r: Vec<Position>)
        ensures
            r@ == spec_interception_positions(from, to),
    {
        let fr_x = from.x as i16;
        let fr_y = from.y as i16;
        let to_x = to.x as i16;
        let to_y = to.y as i16;
        let max_x = if fr_x < to_x { to_x } else { fr_x } + 1;
        let min_x = if fr_x < to_x { fr_x } else { to_x } - 1;
        let max_y = if fr_y < to_y { to_y } else { fr_y } + 1;
        let min_y = if fr_y < to_y { fr_y } else { to_y } - 1;
        let dx = to_x as i64 - fr_x as i64;
        let dy = to_y as i64 - fr_y as i64;
        proof {
            assert(0 <= dx * dx <= 65536 && 0 <= dy * dy <= 65536) by (nonlinear_arith)
                requires
                    -256 <= dx <= 256,
                    -256 <= dy <= 256,
            ;
        }
        let distance_squared = dx * dx + dy * dy;
        let cells = cartesian_coords(min_x, max_x, min_y, max_y);
        let ghost pred = intercepts_from(from, to);
        let ghost bx = pass_box(from, to);
        proof {
            assert(cells@ =~= bx);
            let w = max_x - min_x + 1;
            let h = max_y - min_y + 1;
            assert forall|j: int| 0 <= j < cells@.len() implies min_x <= #[trigger] cells@[j].0 <= max_x
                && min_y <= cells@[j].1 <= max_y by {
                assert(0 <= j / h < w && 0 <= j % h < h) by (nonlinear_arith)
                    requires
                        0 <= j < w * h,
                        w > 0,
                        h > 0,
                ;
            }
        }
        let mut out: Vec<Position> = Vec::new();
        let mut i: usize = 0;
        while i < cells.len()
            invariant
                cells@ == bx,
                bx == pass_box(from, to),
                pred == intercepts_from(from, to),
                i <= cells@.len(),
                -129 <= min_x && max_x <= 128 && -129 <= min_y && max_y <= 128,
                -256 <= dx <= 256 && -256 <= dy <= 256,
                0 <= distance_squared <= 131072,
                forall|j: int| 0 <= j < cells@.len() ==> min_x <= #[trigger] cells@[j].0 <= max_x && min_y <= cells@[j].1 <= max_y,
                dx == to.x - from.x,
                dy == to.y - from.y,
                fr_x == from.x && fr_y == from.y && to_x == to.x && to_y == to.y,
                distance_squared == dx * dx + dy * dy,
                out@ == cells@.take(i as int).filter(pred).map_values(|c: (i16, i16)| to_square(c)),
            decreases cells@.len() - i,
        {
            let (x, y) = cells[i];
            proof {
                let a = to_x - x;
                let b = to_y - y;
                assert(-65536 * 2 <= a * dy <= 65536 * 2 && -65536 * 2 <= b * dx <= 65536 * 2) by (nonlinear_arith)
                    requires
                        -512 <= a <= 512,
                        -512 <= b <= 512,
                        -256 <= dx <= 256,
                        -256 <= dy <= 256,
                ;
            }
            proof {
                let a1 = x - fr_x;
                let a2 = y - fr_y;
                let a3 = x - to_x;
                let a4 = y - to_y;
                assert(0 <= a1 * a1 <= 262144 && 0 <= a2 * a2 <= 262144 && 0 <= a3 * a3 <= 262144 && 0
                    <= a4 * a4 <= 262144) by (nonlinear_arith)
                    requires
                        -512 <= a1 <= 512,
                        -512 <= a2 <= 512,
                        -512 <= a3 <= 512,
                        -512 <= a4 <= 512,
                ;
            }
            let ax = x as i64 - fr_x as i64;
            let ay = y as i64 - fr_y as i64;
            let bx2 = x as i64 - to_x as i64;
            let by2 = y as i64 - to_y as i64;
            let cross = (to_x as i64 - x as i64) * dy - (to_y as i64 - y as i64) * dx;
            let acr: i64 = if cross < 0 { -cross } else { cross };
            proof {
                assert(acr * acr == cross * cross) by (nonlinear_arith)
                    requires
                        acr == cross || acr == -cross,
                ;
                assert(0 <= acr * acr <= 1000000000000) by (nonlinear_arith)
                    requires
                        0 <= acr <= 1000000,
                ;
            }
            let pos = Position::new((#[verifier::truncate] (x as i8), #[verifier::truncate] (y as i8)));
            let keep = ax * ax + ay * ay <= distance_squared && bx2 * bx2 + by2 * by2 <= distance_squared
                && 36 * distance_squared >= 25 * (acr * acr) && !pos.is_out() && pos != from && pos != to;
            proof {
                assert(keep == pred(cells@[i as int]));
                assert(cells@.take(i + 1).drop_last() =~= cells@.take(i as int));
                reveal_with_fuel(Seq::filter, 1);
            }
            if keep {
                out.push(pos);
            }
            proof {
                assert(out@ =~= cells@.take(i + 1).filter(pred).map_values(|c: (i16, i16)| to_square(c)));
            }
            i = i + 1;
        }
        proof {
            assert(cells@.take(cells@.len() as int) =~= cells@);
        }
        out
    }
}

impl GameState {
    /// A player of `team` who can catch stands on `p`.
    pub open spec fn catcher_of_team_at(&self, team: TeamType, p: Position) -> bool {
        &&& self.board_at(p.x as int, p.y as int) is Some
        &&& self.fielded()[self.board_at(p.x as int, p.y as int)->0 as int]->0.stats.team == team
        &&& self.fielded()[self.board_at(p.x as int, p.y as int)->0 as int]->0.status == PlayerStatus::Up
    }

    /// The squares from which players of `team` who can catch could intercept a pass from
    /// `from` to `to`.
    pub open spec fn intercepting_squares(&self, team: TeamType, from: Position, to: Position) -> Seq<Position> {
        spec_interception_positions(from, to).filter(|p: Position| self.catcher_of_team_at(team, p))
    }

    /// The players of `team` who could intercept a pass from `from` to `to`: the squares
    /// from which it can be intercepted that hold a player of the team who can catch, in
    /// order, each with that player's catch roll.
    pub fn get_intercepters(&self, team: TeamType, from: Position, to: Position) -> (r: Vec<(Position, D6Target)>)
        requires
            self.wf(),
            forall|i: int|
                0 <= i < spec_interception_positions(from, to).len() && self.catcher_of_team_at(
                    team,
                    #[trigger] spec_interception_positions(from, to)[i],
                ) ==> {
                    let p = spec_interception_positions(from, to)[i];
                    let q = self.fielded()[self.board_at(p.x as int, p.y as int)->0 as int]->0;
                    1 <= q.stats.ag <= 5
                },
        ensures
            r@.len() == self.intercepting_squares(team, from, to).len(),
            forall|i: int|
                0 <= i < r@.len() ==> {
                    let p = self.intercepting_squares(team, from, to)[i];
                    let q = self.fielded()[self.board_at(p.x as int, p.y as int)->0 as int]->0;
                    &&& (#[trigger] r@[i]).0 == p
                    &&& r@[i].1.spec_value() == self.catch_roll(q)
                },
    {
        let positions = GameState::get_interception_positions(from, to);
        let ghost ps = positions@;
        let ghost f = |p: Position| self.catcher_of_team_at(team, p);
        proof {
            self.lemma_board_agrees();
        }
        let mut out: Vec<(Position, D6Target)> = Vec::new();
        let mut i: usize = 0;
        while i < positions.len()
            invariant
                self.wf(),
                ps == positions@,
                ps == spec_interception_positions(from, to),
                f == (|p: Position| self.catcher_of_team_at(team, p)),
                i <= ps.len(),
                forall|j: int| 0 <= j < ps.len() ==> !(#[trigger] ps[j]).spec_is_out(),
                forall|j: int|
                    0 <= j < ps.len() && self.catcher_of_team_at(team, #[trigger] ps[j]) ==> {
                        let p = ps[j];
                        let q = self.fielded()[self.board_at(p.x as int, p.y as int)->0 as int]->0;
                        1 <= q.stats.ag <= 5
                    },
                out@.len() == ps.take(i as int).filter(f).len(),
                forall|k: int|
                    0 <= k < out@.len() ==> {
                        let p = ps.take(i as int).filter(f)[k];
                        let q = self.fielded()[self.board_at(p.x as int, p.y as int)->0 as int]->0;
                        &&& (#[trigger] out@[k]).0 == p
                        &&& out@[k].1.spec_value() == self.catch_roll(q)
                    },
            decreases ps.len() - i,
        {
            let pos = positions[i];
            proof {
                assert(ps.take(i + 1).drop_last() =~= ps.take(i as int));
                reveal_with_fuel(Seq::filter, 1);
            }
            match self.get_player_at(pos) {
                Some(p) => {
                    if p.stats.team == team && p.can_catch() {
                        match self.get_catch_target(p.id) {
                            Ok(t) => {
                                out.push((pos, t));
                            },
                            Err(_) => {},
                        }
                    }
                },
                None => {},
            }
            i = i + 1;
        }
        proof {
            assert(ps.take(ps.len() as int) =~= ps);
        }
        out
    }
}

/// The squares from which a pass can be intercepted lie on the pitch.
pub proof fn lemma_interception_positions_on_pitch(from: Position, to: Position)
    ensures
        forall|j: int|
            0 <= j < spec_interception_positions(from, to).len() ==> !(
            #[trigger] spec_interception_positions(from, to)[j]).spec_is_out() && in_pitch(
                spec_interception_positions(from, to)[j].x as int,
                spec_interception_positions(from, to)[j].y as int,
            ),
{
    let b = pass_box(from, to);
    let pred = intercepts_from(from, to);
    assert forall|j: int| 0 <= j < spec_interception_positions(from, to).len() implies !(
    #[trigger] spec_interception_positions(from, to)[j]).spec_is_out() by {
        b.lemma_filter_pred(pred, j);
    }
}

/// A pass can be intercepted from the same squares whichever way it is thrown: the squares
/// for a pass from `from` to `to` are those, in the same order, for a pass from `to` to
/// `from`.
pub proof fn lemma_interception_positions_symmetric(from: Position, to: Position)
    ensures
        spec_interception_positions(from, to) == spec_interception_positions(to, from),
{
    assert forall|c: (i16, i16)| #[trigger] intercepts_from(from, to)(c) == intercepts_from(to, from)(c) by {
        let x = c.0 as int;
        let y = c.1 as int;
        let dx = to.x - from.x;
        let dy = to.y - from.y;
        let cross = (to.x - x) * dy - (to.y - y) * dx;
        let back = (from.x - x) * (-dy) - (from.y - y) * (-dx);
        assert(back == -cross) by (nonlinear_arith)
            requires
                dx == to.x - from.x,
                dy == to.y - from.y,
                cross == (to.x - x) * dy - (to.y - y) * dx,
                back == (from.x - x) * (-dy) - (from.y - y) * (-dx),
        ;
        assert(back * back == cross * cross) by (nonlinear_arith)
            requires
                back == -cross,
        ;
        assert((-dx) * (-dx) + (-dy) * (-dy) == dx * dx + dy * dy) by (nonlinear_arith);
        assert(in_pass_corridor(from, to, x, y) == in_pass_corridor(to, from, x, y));
    }
    assert(intercepts_from(from, to) =~= intercepts_from(to, from));
    assert(pass_box(from, to) =~= pass_box(to, from));
}

/// The role of the `j`-th player of a start-of-game roster of `roster` players holding
/// `positionals` of each positional role: linemen first, then blitzers, catchers, throwers.
pub open spec fn roster_role(roster: int, positionals: int, j: int) -> PlayerRole {
    let linemen = roster - 3 * positionals;
    if j < linemen {
        PlayerRole::Lineman
    } else if j < linemen + positionals {
        PlayerRole::Blitzer
    } else if j < linemen + 2 * positionals {
        PlayerRole::Catcher
    } else {
        PlayerRole::Thrower
    }
}

/// How many of each positional role a start-of-game roster of `roster` players holds: a sixth
/// of it, at least one.
pub open spec fn roster_positionals(roster: int) -> int {
    if roster / 6 > 1 {
        roster / 6
    } else {
        1
    }
}

/// Dugout slot `i` as the start of a game on `dims` fills it: the home roster first, then the
/// away one, each `team_size + 1` fresh players in reserve; slots past them stay empty.
pub open spec fn start_roster_slot(dims: BoardDims, d: Option<DugoutPlayer>, i: int) -> bool {
    let roster = dims.team_size + 1;
    if i < 2 * roster {
        let team = if i < roster {
            TeamType::Home
        } else {
            TeamType::Away
        };
        let j = if i < roster {
            i
        } else {
            i - roster
        };
        &&& d matches Some(p)
        &&& p.id == i
        &&& p.place == DugoutPlace::Reserves
        &&& p.stats.spec_is_new(roster_role(roster, roster_positionals(roster), j), team)
    } else {
        d is None
    }
}

impl GameStateBuilder {
    /// A game at its very start on the board `board_dims`: both rosters in reserve, the two
    /// halves and the end of the game on the procedure stack, and the away team asked to call
    /// the coin toss.
    pub fn new_start_of_game_with(board_dims: BoardDims) -> (r: GameState)
        requires
            board_dims.valid(),
            board_dims.team_size >= 2,
        ensures
            r.wf(),
            r.spec_dims() == board_dims,
            forall|i: int| 0 <= i < FIELD_SLOTS ==> #[trigger] r.fielded()[i] is None,
            forall|i: int| 0 <= i < FIELD_SLOTS ==> start_roster_slot(board_dims, #[trigger] r.dugout()[i], i),
            r.spec_ball() == BallState::OffPitch,
            r.spec_info() == GameInfo::spec_new(),
            r.spec_team(TeamType::Home) == TeamState::spec_new(),
            r.spec_team(TeamType::Away) == TeamState::spec_new(),
            r.spec_proc_stack() == seq![
                AnyProc::GameOver(GameOver),
                AnyProc::Half(Half { half: 2, started: false, kicking_this_half: TeamType::Home, kickoff: None }),
                AnyProc::Half(Half { half: 1, started: false, kicking_this_half: TeamType::Home, kickoff: None }),
                AnyProc::CoinToss(CoinToss { coin_toss_winner: TeamType::Home }),
            ],
            offers_simple_only(r.spec_available_actions(), TeamType::Away, set![SimpleAT::Heads, SimpleAT::Tails]),
            r.spec_pending_roll() is None,
            r.spec_dice_mode() matches DiceMode::FixedDice(f) && f@.is_empty(),
    {
        let mut state = GameState::empty_state_with(board_dims);
        let roster = board_dims.roster_per_team();
        let positionals = if roster / 6 > 1 {
            roster / 6
        } else {
            1
        };
        let linemen = roster - 3 * positionals;
        let mut i: usize = 0;
        while i < 2 * roster
            invariant
                state.wf(),
                state.spec_dims() == board_dims,
                board_dims.valid(),
                board_dims.team_size >= 2,
                roster == board_dims.team_size + 1,
                positionals == roster_positionals(roster as int),
                linemen == roster - 3 * positionals,
                i <= 2 * roster,
                forall|k: int| 0 <= k < FIELD_SLOTS ==> #[trigger] state.fielded()[k] is None,
                forall|k: int|
                    0 <= k < FIELD_SLOTS ==> if k < i {
                        start_roster_slot(board_dims, #[trigger] state.dugout()[k], k)
                    } else {
                        state.dugout()[k] is None
                    },
                state.spec_ball() == BallState::OffPitch,
                state.spec_info() == GameInfo::spec_new(),
                state.spec_team(TeamType::Home) == TeamState::spec_new(),
                state.spec_team(TeamType::Away) == TeamState::spec_new(),
                state.spec_proc_stack().len() == 0,
                state.spec_pending_roll() is None,
                state.spec_available_actions().simple_set() == Set::<SimpleAT>::empty(),
                !state.spec_available_actions().has_positional(),
                !state.spec_available_actions().spec_has_paths(),
                state.spec_dice_mode() matches DiceMode::FixedDice(f) && f@.is_empty(),
            decreases 2 * roster - i,
        {
            let team = if i < roster {
                TeamType::Home
            } else {
                TeamType::Away
            };
            let j = if i < roster {
                i
            } else {
                i - roster
            };
            let stats = if j < linemen {
                PlayerStats::new_lineman(team)
            } else if j < linemen + positionals {
                PlayerStats::new_blitzer(team)
            } else if j < linemen + 2 * positionals {
                PlayerStats::new_catcher(team)
            } else {
                PlayerStats::new_thrower(team)
            };
            let ghost before = state;
            proof {
                assert(is_first_free(state.dugout(), i as int));
            }
            state.dugout_add_new_player(stats, DugoutPlace::Reserves);
            proof {
                let k = choose|k: int|
                    is_first_free(before.dugout(), k) && state.dugout() == before.dugout().update(
                        k,
                        Some(DugoutPlayer { stats, place: DugoutPlace::Reserves, id: k as usize }),
                    );
                lemma_first_free_unique(before.dugout(), k);
                lemma_first_free_unique(before.dugout(), i as int);
                assert(state.dugout() == before.dugout().update(
                    i as int,
                    Some(DugoutPlayer { stats, place: DugoutPlace::Reserves, id: i }),
                ));
                assert(start_roster_slot(board_dims, state.dugout()[i as int], i as int));
            }
            i += 1;
        }
        let ghost looped = state;
        let mut stack: Vec<AnyProc> = Vec::new();
        stack.push(AnyProc::GameOver(*GameOver::new()));
        stack.push(AnyProc::Half(*Half::new(2)));
        stack.push(AnyProc::Half(*Half::new(1)));
        stack.push(AnyProc::CoinToss(*CoinToss::new()));
        state.proc_stack = stack;
        let ghost at_toss = state;
        proof {
            assert(at_toss.fielded() == looped.fielded());
            assert(at_toss.dugout() == looped.dugout());
            assert forall|g: GameState| #[trigger] stack_popped(g, at_toss) implies proc_accepts(
                at_toss.spec_proc_stack().last(),
                g,
                ProcInput::Nothing,
            ) by {
                assert(g.wf());
            }
        }
        let answer = state.micro_step(ProcInput::Nothing);
        proof {
            let (g, g2, top2, ret) = choose|g: GameState, g2: GameState, top2: AnyProc, ret: ProcState|
                #![trigger proc_step_done(at_toss.spec_proc_stack().last(), top2, g, g2, ProcInput::Nothing, ret)]
                {
                    &&& stack_popped(g, at_toss)
                    &&& proc_step_done(at_toss.spec_proc_stack().last(), top2, g, g2, ProcInput::Nothing, ret)
                    &&& settled(state, g2, top2, ret)
                    &&& answer == next_micro_step(ret)
                };
            assert(state.spec_proc_stack() =~= at_toss.spec_proc_stack());
            assert(state.fielded() == at_toss.fielded());
            assert(state.dugout() == at_toss.dugout());
            assert forall|k: int| 0 <= k < FIELD_SLOTS implies #[trigger] state.fielded()[k] is None by {
                assert(looped.fielded()[k] is None);
            }
            assert forall|k: int| 0 <= k < FIELD_SLOTS implies start_roster_slot(board_dims, #[trigger] state.dugout()[k], k) by {
                if k < 2 * roster {
                    assert(start_roster_slot(board_dims, looped.dugout()[k], k));
                } else {
                    assert(looped.dugout()[k] is None);
                }
            }
        }
        state
    }
}

} // verus!
