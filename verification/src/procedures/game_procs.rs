use vstd::prelude::*;

use crate::actions::{count_at, offer_simple, offers_simple_only, AvailableActions};
use crate::gamestate::{dugout_after_unfielding, somes, GameInfo, GameState, FIELD_SLOTS};
use crate::procedures::kickoff_procs::{Kickoff, Setup};
use crate::player::FieldedPlayer;
use crate::model::{other_team, spec_other_team, Action, BallState, PlayerID, PlayerStatus, Position, ProcInput, TeamType};
use crate::pitch::in_pitch;
use crate::procedures::any_proc::AnyProc;
use crate::procedures::ball_procs::Touchdown;
use crate::procedures::block_procs::BlockAction;
use crate::procedures::movement_procs::{MoveAction, MoveActionState};
use crate::rules::adjacent;
use crate::table::PosAT;
use crate::procedures::procedure_tools::ProcState;
use crate::table::SimpleAT;
use crate::dice::{Coin, RequestedRoll, RollResult};

verus! {

#[derive(Clone, Debug, PartialEq, Eq, Structural, Hash)]
pub struct Half {
    pub half: u8,
    pub started: bool,
    pub kicking_this_half: TeamType,
    pub kickoff: Option<TeamType>,
}

impl Half {
    /// The first or the second half, not yet started.
    pub fn new(half: u8) -> (r: Box<Half>)
        requires
            half == 1 || half == 2,
        ensures
            *r == (Half { half, started: false, kicking_this_half: TeamType::Home, kickoff: None }),
    {
        Box::new(Half { half, started: false, kicking_this_half: TeamType::Home, kickoff: None })
    }
}

#[derive(Clone, Debug, PartialEq, Eq, Structural, Hash)]
pub struct TurnStunned {}

impl TurnStunned {
    pub fn new() -> (r: Box<TurnStunned>)
        ensures
            *r == (TurnStunned {  }),
    {
        Box::new(TurnStunned {  })
    }
}

#[derive(Clone, Debug, PartialEq, Eq, Structural, Hash)]
pub struct Turn {
    pub team: TeamType,
}

impl Turn {
    pub fn new(team: TeamType) -> (r: Box<Turn>)
        ensures
            *r == (Turn { team }),
    {
        Box::new(Turn { team })
    }
}

#[derive(Clone, Debug, PartialEq, Eq, Structural, Hash)]
pub struct GameOver;

impl GameOver {
    pub fn new() -> (r: Box<GameOver>)
        ensures
            *r == GameOver,
    {
        Box::new(GameOver)
    }
}

#[derive(Clone, Debug, PartialEq, Eq, Structural, Hash)]
pub struct KOWakeUp {}

impl KOWakeUp {
    pub fn new() -> (r: Box<KOWakeUp>)
        ensures
            *r == (KOWakeUp {  }),
    {
        Box::new(KOWakeUp {  })
    }
}

#[derive(Clone, Debug, PartialEq, Eq, Structural, Hash)]
pub struct CoinToss {
    pub coin_toss_winner: TeamType,
}

impl CoinToss {
    pub fn new() -> (r: Box<CoinToss>)
        ensures
            *r == (CoinToss { coin_toss_winner: TeamType::Home }),
    {
        Box::new(CoinToss { coin_toss_winner: TeamType::Home })
    }

    /// The inputs `step` takes in `gs`: nothing, the away team's call, the coin, or the
    /// winner's choice to receive or kick.
    pub open spec fn step_accepts(self, gs: GameState, input: ProcInput) -> bool {
        &&& gs.wf()
        &&& match input {
            ProcInput::Nothing => true,
            ProcInput::Action(Action::Simple(a)) => a == SimpleAT::Heads || a == SimpleAT::Tails || a
                == SimpleAT::Receive || a == SimpleAT::Kick,
            ProcInput::Roll(RollResult::Coin(_)) => true,
            _ => false,
        }
    }

    /// `after`, `gs2` and `r` are what `step` makes of `self` in `gs` with `input`. Between the
    /// call and the coin, `coin_toss_winner` holds the team that wins if the coin shows heads.
    pub open spec fn step_done(self, after: Self, gs: GameState, gs2: GameState, input: ProcInput, r: ProcState) -> bool {
        match input {
            ProcInput::Action(Action::Simple(a)) => if a == SimpleAT::Heads || a == SimpleAT::Tails {
                &&& after.coin_toss_winner == if a == SimpleAT::Heads {
                    TeamType::Away
                } else {
                    TeamType::Home
                }
                &&& gs2 == gs
                &&& r == ProcState::NeedRoll(RequestedRoll::Coin)
            } else {
                &&& after == self
                &&& gs2.wf()
                &&& gs2.same_but_info(&gs)
                &&& gs2.spec_info() == (GameInfo {
                    kicking_first_half: if a == SimpleAT::Kick {
                        self.coin_toss_winner
                    } else {
                        spec_other_team(self.coin_toss_winner)
                    },
                    ..gs.spec_info()
                })
                &&& r is Done
            },
            ProcInput::Roll(RollResult::Coin(c)) => {
                let w = if c == Coin::Heads {
                    self.coin_toss_winner
                } else {
                    spec_other_team(self.coin_toss_winner)
                };
                &&& after.coin_toss_winner == w
                &&& gs2 == gs
                &&& r matches ProcState::NeedAction(aa) && offers_simple_only(
                    *aa,
                    w,
                    set![SimpleAT::Receive, SimpleAT::Kick],
                )
            },
            _ => {
                &&& after == self
                &&& gs2 == gs
                &&& r matches ProcState::NeedAction(aa) && offers_simple_only(
                    *aa,
                    TeamType::Away,
                    set![SimpleAT::Heads, SimpleAT::Tails],
                )
            },
        }
    }

    /// The away team calls heads or tails and the coin is tossed; its winner chooses to
    /// receive or to kick the first half.
    pub fn step(&mut self, game_state: &mut GameState, input: ProcInput) -> (r: ProcState)
        requires
            old(self).step_accepts(*old(game_state), input),
        ensures
            old(self).step_done(*final(self), *old(game_state), *final(game_state), input, r),
    {
        match input {
            ProcInput::Action(Action::Simple(a)) => {
                if a == SimpleAT::Heads {
                    self.coin_toss_winner = TeamType::Away;
                    ProcState::NeedRoll(RequestedRoll::Coin)
                } else if a == SimpleAT::Tails {
                    self.coin_toss_winner = TeamType::Home;
                    ProcState::NeedRoll(RequestedRoll::Coin)
                } else {
                    let kicking = if a == SimpleAT::Kick {
                        self.coin_toss_winner
                    } else {
                        other_team(self.coin_toss_winner)
                    };
                    game_state.info_mut().kicking_first_half = kicking;
                    ProcState::Done
                }
            },
            ProcInput::Roll(RollResult::Coin(c)) => {
                let w = match c {
                    Coin::Heads => self.coin_toss_winner,
                    Coin::Tails => other_team(self.coin_toss_winner),
                };
                self.coin_toss_winner = w;
                ProcState::NeedAction(offer_simple(w, SimpleAT::Receive, Some(SimpleAT::Kick)))
            },
            _ => ProcState::NeedAction(offer_simple(TeamType::Away, SimpleAT::Heads, Some(SimpleAT::Tails))),
        }
    }
}

#[derive(Clone, Debug, PartialEq, Eq, Structural, Hash)]
pub struct TurnoverIfPossessionLost {}

impl TurnoverIfPossessionLost {
    pub fn new() -> (r: Box<TurnoverIfPossessionLost>)
        ensures
            *r == (TurnoverIfPossessionLost {  }),
    {
        Box::new(TurnoverIfPossessionLost {  })
    }
}

/// The winner of a game with the home and away scores: the higher score, none on a draw.
pub open spec fn winner_of(home: u8, away: u8) -> Option<TeamType> {
    if home < away {
        Some(TeamType::Away)
    } else if home == away {
        None
    } else {
        Some(TeamType::Home)
    }
}

impl GameOver {
    /// The inputs `step` takes in `gs`.
    pub open spec fn step_accepts(self, gs: GameState, input: ProcInput) -> bool {
        gs.wf()
    }

    /// `after`, `gs2` and `r` are what `step` makes of `self` in `gs` with `input`.
    pub open spec fn step_done(self, after: Self, gs: GameState, gs2: GameState, input: ProcInput, r: ProcState) -> bool {
        &&& after == self
        &&& gs2.wf()
        &&& gs2.same_but_info(&gs)
        &&& gs2.spec_info() == (GameInfo {
            winner: winner_of(gs.spec_team(TeamType::Home).score, gs.spec_team(TeamType::Away).score),
            game_over: true,
            ..gs.spec_info()
        })
        &&& r matches ProcState::NeedAction(aa) && offers_simple_only(
            *aa,
            TeamType::Home,
            set![SimpleAT::EndSetup, SimpleAT::DontUseReroll],
        )
    }

    /// The game ends: the team with the higher score wins, a draw has no winner. It then
    /// waits for ever on an action that is never taken.
    pub fn step(&mut self, game_state: &mut GameState, input: ProcInput) -> (r: ProcState)
        requires
            self.step_accepts(*old(game_state), input),
        ensures
            old(self).step_done(*final(self), *old(game_state), *final(game_state), input, r),
    {
        let home = game_state.get_team(TeamType::Home).score;
        let away = game_state.get_team(TeamType::Away).score;
        let winner = if home < away {
            Some(TeamType::Away)
        } else if home == away {
            None
        } else {
            Some(TeamType::Home)
        };
        let info = game_state.info_mut();
        info.winner = winner;
        info.game_over = true;
        ProcState::NeedAction(offer_simple(TeamType::Home, SimpleAT::EndSetup, Some(SimpleAT::DontUseReroll)))
    }
}

impl TurnoverIfPossessionLost {
    /// The inputs `step` takes in `gs`: the ball is loose, or carried by a player not of the
    /// team whose turn it is.
    pub open spec fn step_accepts(self, gs: GameState, input: ProcInput) -> bool {
        &&& gs.wf()
        &&& match gs.spec_ball() {
            BallState::OnGround(_) => true,
            BallState::InAir(_) => true,
            BallState::Carried(id) => gs.fielded()[id as int]->0.stats.team != gs.spec_info().team_turn,
            BallState::OffPitch => false,
        }
    }

    /// `after`, `gs2` and `r` are what `step` makes of `self` in `gs` with `input`.
    pub open spec fn step_done(self, after: Self, gs: GameState, gs2: GameState, input: ProcInput, r: ProcState) -> bool {
        &&& after == self
        &&& r is Done
        &&& gs2.wf()
        &&& gs2.same_but_info(&gs)
        &&& gs2.spec_info() == (GameInfo { turnover: true, ..gs.spec_info() })
    }

    /// The team whose turn it is lost the ball: a turnover.
    pub fn step(&mut self, game_state: &mut GameState, input: ProcInput) -> (r: ProcState)
        requires
            self.step_accepts(*old(game_state), input),
        ensures
            old(self).step_done(*final(self), *old(game_state), *final(game_state), input, r),
    {
        game_state.info_mut().turnover = true;
        ProcState::Done
    }
}

/// A stunned player of `team` turns over to lying down at the start of its turn, unless it
/// is the active player, who stunned itself.
pub open spec fn wakes(p: FieldedPlayer, team: TeamType, active: Option<PlayerID>) -> bool {
    p.stats.team == team && p.status == PlayerStatus::Stunned && active != Some(p.id)
}

/// The player in slot `o` after the stunned players of `team` turned over.
pub open spec fn turned_over(o: Option<FieldedPlayer>, team: TeamType, active: Option<PlayerID>) -> Option<
    FieldedPlayer,
> {
    match o {
        Some(p) => if wakes(p, team, active) {
            Some(FieldedPlayer { status: PlayerStatus::Down, ..p })
        } else {
            o
        },
        None => None,
    }
}

impl TurnStunned {
    /// The inputs `step` takes in `gs`.
    pub open spec fn step_accepts(self, gs: GameState, input: ProcInput) -> bool {
        gs.wf()
    }

    /// `after`, `gs2` and `r` are what `step` makes of `self` in `gs` with `input`.
    pub open spec fn step_done(self, after: Self, gs: GameState, gs2: GameState, input: ProcInput, r: ProcState) -> bool {
        &&& after == self
        &&& r is Done
        &&& gs2.wf()
        &&& gs2.dugout() == gs.dugout()
        &&& gs2.same_but_players(&gs)
        &&& gs2.same_board(&gs)
        &&& gs2.fielded().len() == gs.fielded().len()
        &&& forall|k: int|
            0 <= k < gs.fielded().len() ==> #[trigger] gs2.fielded()[k] == turned_over(
                gs.fielded()[k],
                gs.spec_info().team_turn,
                gs.spec_info().active_player,
            )
    }

    /// The stunned players of the team whose turn starts turn over to lying down, but the
    /// active player, who stunned itself.
    pub fn step(&mut self, game_state: &mut GameState, input: ProcInput) -> (r: ProcState)
        requires
            self.step_accepts(*old(game_state), input),
        ensures
            old(self).step_done(*final(self), *old(game_state), *final(game_state), input, r),
    {
        let team = game_state.info().team_turn;
        let active = game_state.info().active_player;
        let ghost before = *game_state;
        proof {
            before.lemma_slots();
            before.lemma_board_agrees();
        }
        let mut id: usize = 0;
        while id < FIELD_SLOTS
            invariant
                id <= FIELD_SLOTS,
                before.wf(),
                before.fielded().len() == FIELD_SLOTS,
                team == before.spec_info().team_turn,
                active == before.spec_info().active_player,
                game_state.wf(),
                game_state.spec_info() == before.spec_info(),
                game_state.dugout() == before.dugout(),
                game_state.same_but_players(&before),
                game_state.same_board(&before),
                game_state.fielded().len() == FIELD_SLOTS,
                forall|k: int| 0 <= k < id ==> #[trigger] game_state.fielded()[k] == turned_over(before.fielded()[k], team, active),
                forall|k: int| id <= k < FIELD_SLOTS ==> #[trigger] game_state.fielded()[k] == before.fielded()[k],
            decreases FIELD_SLOTS - id,
        {
            let ghost here = *game_state;
            proof {
                here.lemma_board_agrees();
            }
            match game_state.get_mut_player(id) {
                Ok(p) => {
                    let wake = match active {
                        Some(a) => p.stats.team == team && p.status == PlayerStatus::Stunned && a != p.id,
                        None => p.stats.team == team && p.status == PlayerStatus::Stunned,
                    };
                    if wake {
                        p.status = PlayerStatus::Down;
                    }
                },
                Err(_) => {},
            }
            proof {
                assert forall|j: int|
                    0 <= j < here.fielded().len() && #[trigger] game_state.fielded()[j] is Some implies {
                    &&& game_state.fielded()[j]->0.id == here.fielded()[j]->0.id
                    &&& game_state.fielded()[j]->0.position == here.fielded()[j]->0.position
                } by {
                    if j != id {
                        assert(game_state.fielded()[j] == here.fielded()[j]);
                    }
                }
                game_state.lemma_edit_in_place_keeps_wf(&here);
            }
            id = id + 1;
        }
        ProcState::Done
    }
}

/// An opponent of `team` standing up is next to the square `pos`.
pub open spec fn opponent_up_next_to(gs: GameState, team: TeamType, pos: Position) -> bool {
    exists|k: int|
        #[trigger] gs.is_fielded(k) && adjacent(gs.fielded()[k]->0.position, pos) && gs.fielded()[k]->0.status
            == PlayerStatus::Up && gs.fielded()[k]->0.stats.team != team
}

/// A player of `team` who has not acted this turn.
pub open spec fn is_ready(team: TeamType) -> spec_fn(FieldedPlayer) -> bool {
    |p: FieldedPlayer| p.stats.team == team && !p.used
}

/// The players of `team` on the pitch who have not acted this turn, in id order.
pub open spec fn ready_players(gs: GameState, team: TeamType) -> Seq<FieldedPlayer> {
    gs.on_pitch().filter(is_ready(team))
}

/// A ready player can start a block: it stands, next to a standing opponent.
pub open spec fn can_start_block(gs: GameState, team: TeamType) -> spec_fn(FieldedPlayer) -> bool {
    |p: FieldedPlayer| p.status == PlayerStatus::Up && opponent_up_next_to(gs, team, p.position)
}

/// The squares of the players of `team` who have not acted.
pub open spec fn turn_squares(gs: GameState, team: TeamType) -> Seq<Position> {
    ready_players(gs, team).map_values(|p: FieldedPlayer| p.position)
}

/// The squares of the players of `team` who have not acted and can start a block.
pub open spec fn block_squares(gs: GameState, team: TeamType) -> Seq<Position> {
    ready_players(gs, team).filter(can_start_block(gs, team)).map_values(|p: FieldedPlayer| p.position)
}

/// The actions offered on the square `(x, y)` at the start of an activation: a block for a
/// player who can start one, then a hand-off, a blitz and a foul while the team still has
/// them this turn, then a move, for each player of the team who has not acted.
pub open spec fn turn_offered(gs: GameState, team: TeamType, x: int, y: int) -> Seq<PosAT> {
    let info = gs.spec_info();
    let c = count_at(turn_squares(gs, team), x, y);
    Seq::new(count_at(block_squares(gs, team), x, y), |i: int| PosAT::StartBlock) + (if info.handoff_available {
        Seq::new(c, |i: int| PosAT::StartHandoff)
    } else {
        Seq::empty()
    }) + (if info.blitz_available {
        Seq::new(c, |i: int| PosAT::StartBlitz)
    } else {
        Seq::empty()
    }) + (if info.foul_available {
        Seq::new(c, |i: int| PosAT::StartFoul)
    } else {
        Seq::empty()
    }) + Seq::new(c, |i: int| PosAT::StartMove)
}

/// `aa` is what a turn of `team` offers in `gs`: the activations of its players who have not
/// acted, and ending the turn.
pub open spec fn turn_offer(aa: AvailableActions, gs: GameState, team: TeamType) -> bool {
    &&& aa.wf()
    &&& aa.spec_team() == Some(team)
    &&& aa.simple_set() == set![SimpleAT::EndTurn]
    &&& !aa.spec_has_paths()
    &&& aa.has_positional() == (turn_squares(gs, team).len() > 0)
    &&& forall|x: int, y: int| in_pitch(x, y) ==> #[trigger] aa.offered(x, y) == turn_offered(gs, team, x, y)
}

/// Whether an opponent of `team` standing up is next to `pos`.
fn has_opponent_up_next_to(gs: &GameState, team: TeamType, pos: Position) -> (r: bool)
    requires
        gs.wf(),
        !pos.spec_is_out(),
    ensures
        r == opponent_up_next_to(*gs, team, pos),
{
    let adj = gs.get_adj_players(pos);
    let mut i: usize = 0;
    while i < adj.len()
        invariant
            i <= adj@.len(),
            forall|j: int| 0 <= j < adj@.len() ==> adjacent((#[trigger] adj@[j]).position, pos),
            forall|j: int| 0 <= j < adj@.len() ==> Some(#[trigger] adj@[j]) == gs.fielded()[adj@[j].id as int],
            forall|j: int| 0 <= j < adj@.len() ==> (#[trigger] adj@[j]).id < FIELD_SLOTS,
            forall|j: int| 0 <= j < i ==> !((#[trigger] adj@[j]).status == PlayerStatus::Up && adj@[j].stats.team != team),
            gs.wf(),
        decreases adj@.len() - i,
    {
        if adj[i].status == PlayerStatus::Up && adj[i].stats.team != team {
            proof {
                let k = adj@[i as int].id as int;
                assert(gs.fielded()[k] == Some(adj@[i as int]));
                gs.lemma_slots();
                assert(gs.is_fielded(k));
            }
            return true;
        }
        i = i + 1;
    }
    proof {
        if opponent_up_next_to(*gs, team, pos) {
            let k = choose|k: int|
                #[trigger] gs.is_fielded(k) && adjacent(gs.fielded()[k]->0.position, pos) && gs.fielded()[k]->0.status
                    == PlayerStatus::Up && gs.fielded()[k]->0.stats.team != team;
            let j = choose|j: int| 0 <= j < adj@.len() && adj@[j].id == k;
            assert(adj@[j] == gs.fielded()[k]->0);
        }
    }
    false
}

impl Turn {
    /// What a turn of the team offers: the activations of its players who have not acted
    /// (a block for those next to a standing opponent, a hand-off, blitz and foul while the
    /// team still has them, and a move), and ending the turn.
    fn available_actions(&self, game_state: &GameState) -> (r: Box<AvailableActions>)
        requires
            game_state.wf(),
            forall|i: int|
                0 <= i < ready_players(*game_state, self.team).len() ==> !(#[trigger] ready_players(
                    *game_state,
                    self.team,
                )[i]).position.spec_is_out(),
        ensures
            turn_offer(*r, *game_state, self.team),
    {
        let team = self.team;
        let all = game_state.get_players_on_pitch();
        let ghost f = is_ready(team);
        let ghost h = can_start_block(*game_state, team);
        let ghost g = |p: FieldedPlayer| p.position;
        proof {
            assert forall|j: int| 0 <= j < all@.filter(f).len() implies !(#[trigger] all@.filter(f)[j]).position.spec_is_out() by {
                assert(all@.filter(f)[j] == ready_players(*game_state, self.team)[j]);
            }
        }
        let mut positions: Vec<Position> = Vec::new();
        let mut block_positions: Vec<Position> = Vec::new();
        let mut i: usize = 0;
        while i < all.len()
            invariant
                game_state.wf(),
                team == self.team,
                all@ == game_state.on_pitch(),
                f == is_ready(team),
                h == can_start_block(*game_state, team),
                g == (|p: FieldedPlayer| p.position),
                i <= all@.len(),
                forall|j: int|
                    0 <= j < all@.filter(f).len() ==> !(#[trigger] all@.filter(f)[j]).position.spec_is_out(),
                positions@ == all@.take(i as int).filter(f).map_values(g),
                block_positions@ == all@.take(i as int).filter(f).filter(h).map_values(g),
            decreases all@.len() - i,
        {
            let p = all[i];
            let ghost pre = all@.take(i as int);
            proof {
                assert(all@.take(i + 1) =~= pre.push(p));
                pre.lemma_filter_push(p, f);
            }
            if p.stats.team == team && !p.used {
                proof {
                    assert(all@.filter(f).contains(p)) by {
                        all@.lemma_filter_contains(f, i as int);
                    }
                    let j = choose|j: int| 0 <= j < all@.filter(f).len() && all@.filter(f)[j] == p;
                    assert(!all@.filter(f)[j].position.spec_is_out());
                }
                let ghost fb = pre.filter(f);
                positions.push(p.position);
                proof {
                    assert(positions@ =~= fb.push(p).map_values(g));
                    fb.lemma_filter_push(p, h);
                }
                if p.status == PlayerStatus::Up && has_opponent_up_next_to(game_state, team, p.position) {
                    block_positions.push(p.position);
                    proof {
                        assert(block_positions@ =~= fb.push(p).filter(h).map_values(g));
                    }
                } else {
                    proof {
                        assert(block_positions@ =~= fb.push(p).filter(h).map_values(g));
                    }
                }
            } else {
                proof {
                    assert(pre.push(p).filter(f) =~= pre.filter(f));
                }
            }
            i = i + 1;
        }
        proof {
            assert(all@.take(all@.len() as int) =~= all@);
        }
        let mut aa = AvailableActions::new(team);
        proof {
            assert forall|j: int| 0 <= j < positions@.len() implies in_pitch(
                #[trigger] positions@[j].x as int,
                positions@[j].y as int,
            ) by {
                assert(positions@[j] == all@.filter(f)[j].position);
            }
            all@.filter(f).lemma_filter_len(h);
            assert forall|j: int| 0 <= j < block_positions@.len() implies in_pitch(
                #[trigger] block_positions@[j].x as int,
                block_positions@[j].y as int,
            ) by {
                let q = all@.filter(f).filter(h)[j];
                all@.filter(f).lemma_filter_pred(h, j);
                assert(all@.filter(f).filter(h).contains(q));
                all@.filter(f).lemma_filter_contains_rev(h, q);
                let k = choose|k: int| 0 <= k < all@.filter(f).len() && all@.filter(f)[k] == q;
                assert(!all@.filter(f)[k].position.spec_is_out());
            }
        }
        let ghost sq = positions@;
        let ghost bq = block_positions@;
        if positions.len() > 0 {
            if block_positions.len() > 0 {
                aa.insert_positional(PosAT::StartBlock, block_positions);
            }
            if game_state.info().handoff_available {
                aa.insert_positional(PosAT::StartHandoff, positions.clone());
            }
            if game_state.info().blitz_available {
                aa.insert_positional(PosAT::StartBlitz, positions.clone());
            }
            if game_state.info().foul_available {
                aa.insert_positional(PosAT::StartFoul, positions.clone());
            }
            aa.insert_positional(PosAT::StartMove, positions);
        }
        aa.insert_simple(SimpleAT::EndTurn);
        proof {
            assert(aa.simple_set() =~= set![SimpleAT::EndTurn]);
            assert forall|x: int, y: int| in_pitch(x, y) implies #[trigger] aa.offered(x, y) == turn_offered(
                *game_state,
                team,
                x,
                y,
            ) by {
                if sq.len() == 0 {
                    assert(bq.len() == 0);
                    assert(sq.filter(|p: Position| p.x == x && p.y == y) =~= Seq::<Position>::empty());
                    assert(bq.filter(|p: Position| p.x == x && p.y == y) =~= Seq::<Position>::empty());
                }
                assert(turn_offered(*game_state, team, x, y) =~= aa.offered(x, y));
            }
        }
        aa
    }
}

/// The turn information once an activation starts afresh: no active player and no action.
pub open spec fn cleared(info: GameInfo) -> GameInfo {
    GameInfo { active_player: None, player_action_type: None, ..info }
}

/// The turn information once the player `id` starts the activation `at`: it is the active
/// player, with a fresh activation, and a hand-off, foul or blitz is used up for the turn.
pub open spec fn activation_info(info: GameInfo, id: PlayerID, at: PosAT) -> GameInfo {
    GameInfo {
        active_player: Some(id),
        pickup_this_activation: false,
        blitz_this_activation: false,
        player_action_type: Some(at),
        handoff_available: if at == PosAT::StartHandoff {
            false
        } else {
            info.handoff_available
        },
        foul_available: if at == PosAT::StartFoul {
            false
        } else {
            info.foul_available
        },
        blitz_available: if at == PosAT::StartBlitz {
            false
        } else {
            info.blitz_available
        },
        ..info
    }
}

/// The activations a coach can start from a turn.
pub open spec fn is_activation(at: PosAT) -> bool {
    at == PosAT::StartMove || at == PosAT::StartHandoff || at == PosAT::StartFoul || at == PosAT::StartBlitz
        || at == PosAT::StartBlock
}

impl Turn {
    /// The inputs `step` takes in `gs`.
    pub open spec fn step_accepts(self, gs: GameState, input: ProcInput) -> bool {
        let info = gs.spec_info();
        &&& gs.wf()
        &&& (info.handle_td_by is None && info.kickoff_by_team is None && !info.turnover ==> match input {
            ProcInput::Nothing => forall|i: int|
                0 <= i < ready_players(gs, self.team).len() ==> !(#[trigger] ready_players(gs, self.team)[i]).position.spec_is_out(),
            ProcInput::Action(Action::Positional(at, pos)) => {
                &&& is_activation(at)
                &&& in_pitch(pos.x as int, pos.y as int)
                &&& gs.board_at(pos.x as int, pos.y as int) is Some
            },
            ProcInput::Action(Action::Simple(a)) => a == SimpleAT::EndTurn,
            _ => false,
        })
    }

    /// `after`, `gs2` and `r` are what `step` makes of `self` in `gs` with `input`.
    pub open spec fn step_done(self, after: Self, gs: GameState, gs2: GameState, input: ProcInput, r: ProcState) -> bool {
        let info = gs.spec_info();
        &&& after == self
        &&& gs2.wf()
        &&& gs2.same_but_info(&gs)
        &&& match info.handle_td_by {
            Some(id) => {
                &&& gs2.spec_info() == (GameInfo { handle_td_by: None, ..info })
                &&& r == ProcState::NotDoneNew(AnyProc::Touchdown(Touchdown { id }))
            },
            None => if info.kickoff_by_team is Some || info.turnover {
                &&& gs2 == gs
                &&& r is Done
            } else {
                match input {
                    ProcInput::Nothing => {
                        &&& gs2.spec_info() == cleared(info)
                        &&& r matches ProcState::NeedAction(aa) && turn_offer(*aa, gs2, self.team)
                    },
                    ProcInput::Action(Action::Positional(at, pos)) => {
                        let id = gs.board_at(pos.x as int, pos.y as int)->0;
                        &&& gs2.spec_info() == activation_info(cleared(info), id, at)
                        &&& r == if at == PosAT::StartBlock {
                            ProcState::NotDoneNew(AnyProc::BlockAction(BlockAction {  }))
                        } else {
                            ProcState::NotDoneNew(
                                AnyProc::MoveAction(MoveAction { player_id: id, state: MoveActionState::Init }),
                            )
                        }
                    },
                    _ => {
                        &&& gs2.spec_info() == cleared(info)
                        &&& r is Done
                    },
                }
            },
        }
    }

    /// A touchdown scored during the turn is handled first; a kick-off or a turnover ends
    /// the turn. Otherwise the coach starts an activation of a player who has not acted, or
    /// ends the turn.
    pub fn step(&mut self, game_state: &mut GameState, input: ProcInput) -> (r: ProcState)
        requires
            old(self).step_accepts(*old(game_state), input),
        ensures
            old(self).step_done(*final(self), *old(game_state), *final(game_state), input, r),
    {
        match game_state.info().handle_td_by {
            Some(id) => {
                game_state.info_mut().handle_td_by = None;
                return ProcState::NotDoneNew(Touchdown::new(id));
            },
            None => {},
        }
        if game_state.info().kickoff_by_team.is_some() || game_state.info().turnover {
            return ProcState::Done;
        }
        let ghost before = *game_state;
        {
            let info = game_state.info_mut();
            info.active_player = None;
            info.player_action_type = None;
        }
        match input {
            ProcInput::Nothing => ProcState::NeedAction(self.available_actions(game_state)),
            ProcInput::Action(Action::Positional(at, position)) => {
                proof {
                    before.lemma_board_agrees();
                }
                let id = match game_state.get_player_id_at(position) {
                    Some(id) => id,
                    None => {
                        proof {
                            assert(false);
                        }
                        0
                    },
                };
                game_state.set_active_player(id);
                let info = game_state.info_mut();
                info.player_action_type = Some(at);
                match at {
                    PosAT::StartHandoff => {
                        info.handoff_available = false;
                    },
                    PosAT::StartFoul => {
                        info.foul_available = false;
                    },
                    PosAT::StartBlitz => {
                        info.blitz_available = false;
                    },
                    PosAT::StartBlock => {
                        return ProcState::NotDoneNew(BlockAction::new());
                    },
                    _ => {},
                }
                ProcState::NotDoneNew(MoveAction::new(id))
            },
            _ => ProcState::Done,
        }
    }
}

/// The half and the turn information once the half is under way: a half starting now
/// resets the turn counters and has its first kick-off by the team kicking this half; a half
/// under way takes up a kick-off the last drive asked for.
pub open spec fn half_resumed(h: Half, info: GameInfo) -> (Half, GameInfo) {
    if !h.started {
        let k = if h.half == 1 {
            info.kicking_first_half
        } else {
            spec_other_team(info.kicking_first_half)
        };
        (
            Half { started: true, kicking_this_half: k, kickoff: Some(k), ..h },
            GameInfo { half: h.half, home_turn: 0, away_turn: 0, ..info },
        )
    } else {
        (Half { kickoff: info.kickoff_by_team, ..h }, GameInfo { kickoff_by_team: None, ..info })
    }
}

/// The team whose turn comes next: the receiving team when both have had as many turns, the
/// kicking team otherwise.
pub open spec fn next_turn_team(h: Half, info: GameInfo) -> TeamType {
    if info.home_turn == info.away_turn {
        spec_other_team(h.kicking_this_half)
    } else {
        h.kicking_this_half
    }
}

/// The turn information as the turn of `team` starts.
pub open spec fn turn_started(info: GameInfo, team: TeamType) -> GameInfo {
    GameInfo {
        home_turn: if team == TeamType::Home {
            (info.home_turn + 1) as u8
        } else {
            info.home_turn
        },
        away_turn: if team == TeamType::Away {
            (info.away_turn + 1) as u8
        } else {
            info.away_turn
        },
        team_turn: team,
        handoff_available: true,
        blitz_available: true,
        foul_available: true,
        pass_available: true,
        turnover: false,
        ..info
    }
}

/// The player in slot `o` as the turn of `team` starts: a player of the team who is not
/// stunned has moved nothing, acted not, and used no skill.
pub open spec fn refreshed(o: Option<FieldedPlayer>, team: TeamType, q: Option<FieldedPlayer>) -> bool {
    match o {
        Some(p) => if p.stats.team == team && p.status != PlayerStatus::Stunned {
            &&& q is Some
            &&& q->0 == (FieldedPlayer { moves: 0, used: false, used_skills: q->0.used_skills, ..p })
            &&& q->0.used_skills@ == Set::<crate::table::Skill>::empty()
        } else {
            q == o
        },
        None => q is None,
    }
}

impl Half {
    /// The inputs `step` takes in `gs`.
    pub open spec fn step_accepts(self, gs: GameState, input: ProcInput) -> bool {
        let (h, info) = half_resumed(self, gs.spec_info());
        &&& gs.wf()
        &&& (self.started ==> gs.spec_info().home_turn < 255 && gs.spec_info().away_turn < 255)
        &&& (!(info.home_turn == 8 && info.away_turn == 8) && h.kickoff is Some ==> gs.on_pitch().len() + somes(
            gs.dugout(),
        ).len() <= FIELD_SLOTS)
    }

    /// `after`, `gs2` and `r` are what `step` makes of `self` in `gs` with `input`: the half
    /// ends after eight turns a side; a kick-off clears the pitch for both teams to set up,
    /// wakes the knocked-out players and kicks off; otherwise the next team's turn starts.
    pub open spec fn step_done(self, after: Self, gs: GameState, gs2: GameState, input: ProcInput, r: ProcState) -> bool {
        let (h, info) = half_resumed(self, gs.spec_info());
        &&& gs2.wf()
        &&& if info.home_turn == 8 && info.away_turn == 8 {
            &&& after == h
            &&& gs2.spec_info() == info
            &&& gs2.same_but_info(&gs)
            &&& r is Done
        } else if h.kickoff is Some {
            let team = h.kickoff->0;
            &&& after == (Half { kickoff: None, ..h })
            &&& gs2.spec_ball() == BallState::OffPitch
            &&& gs2.spec_info() == (GameInfo {
                kicking_this_drive: team,
                active_player: gs2.spec_info().active_player,
                ..info
            })
            &&& forall|j: int| 0 <= j < FIELD_SLOTS ==> #[trigger] gs2.fielded()[j] is None
            &&& gs2.dugout() == dugout_after_unfielding(gs.dugout(), gs.on_pitch())
            &&& gs2.spec_team(TeamType::Home) == gs.spec_team(TeamType::Home)
            &&& gs2.spec_team(TeamType::Away) == gs.spec_team(TeamType::Away)
            &&& r matches ProcState::NotDoneNewProcs(v) && v@ == seq![
                AnyProc::Kickoff(Kickoff { aim: Position { x: 0, y: 0 } }),
                AnyProc::Setup(Setup { team }),
                AnyProc::Setup(Setup { team: spec_other_team(team) }),
                AnyProc::KOWakeUp(KOWakeUp {  }),
            ]
        } else {
            let team = next_turn_team(h, info);
            &&& after == h
            &&& gs2.spec_info() == turn_started(info, team)
            &&& gs2.dugout() == gs.dugout()
            &&& gs2.same_board(&gs)
            &&& gs2.same_but_players_and_info(&gs)
            &&& gs2.fielded().len() == gs.fielded().len()
            &&& forall|k: int| 0 <= k < gs.fielded().len() ==> refreshed(gs.fielded()[k], team, #[trigger] gs2.fielded()[k])
            &&& r matches ProcState::NotDoneNewProcs(v) && v@ == seq![
                AnyProc::TurnStunned(TurnStunned {  }),
                AnyProc::Turn(Turn { team }),
            ]
        }
    }

    /// Start or resume the half: it ends after eight turns a side; a kick-off clears the
    /// pitch for both teams to set up, wakes the knocked-out players and kicks off; otherwise
    /// the turn of the next team starts with its players refreshed.
    #[verifier::spinoff_prover]
    #[verifier::rlimit(60)]
    pub fn step(&mut self, game_state: &mut GameState, input: ProcInput) -> (r: ProcState)
        requires
            old(self).step_accepts(*old(game_state), input),
        ensures
            old(self).step_done(*final(self), *old(game_state), *final(game_state), input, r),
    {
        if !self.started {
            self.started = true;
            let kicking_first = game_state.info().kicking_first_half;
            self.kicking_this_half = if self.half == 1 { kicking_first } else { other_team(kicking_first) };
            self.kickoff = Some(self.kicking_this_half);
            let info = game_state.info_mut();
            info.half = self.half;
            info.home_turn = 0;
            info.away_turn = 0;
        } else {
            let info = game_state.info_mut();
            self.kickoff = info.kickoff_by_team;
            info.kickoff_by_team = None;
        }
        if game_state.info().home_turn == 8 && game_state.info().away_turn == 8 {
            return ProcState::Done;
        }
        match self.kickoff {
            Some(team) => {
                self.kickoff = None;
                return Half::do_kickoff(team, game_state);
            },
            None => {},
        }
        let next_team = if game_state.info().home_turn == game_state.info().away_turn {
            other_team(self.kicking_this_half)
        } else {
            self.kicking_this_half
        };
        Half::start_turn(next_team, game_state);
        let mut procs: Vec<AnyProc> = Vec::new();
        procs.push(AnyProc::TurnStunned(TurnStunned {  }));
        procs.push(AnyProc::Turn(Turn { team: next_team }));
        assert(procs@ =~= seq![AnyProc::TurnStunned(TurnStunned {  }), AnyProc::Turn(Turn { team: next_team })]);
        ProcState::NotDoneNewProcs(procs)
    }

    /// Start the turn of `next_team`: count it, give the team its hand-off, blitz, foul and
    /// pass back, clear the turnover, and refresh its players who are not stunned.
    fn start_turn(next_team: TeamType, game_state: &mut GameState)
        requires
            old(game_state).wf(),
            next_team == TeamType::Home ==> old(game_state).spec_info().home_turn < 255,
            next_team == TeamType::Away ==> old(game_state).spec_info().away_turn < 255,
        ensures
            final(game_state).wf(),
            final(game_state).spec_info() == turn_started(old(game_state).spec_info(), next_team),
            final(game_state).dugout() == old(game_state).dugout(),
            final(game_state).same_board(&*old(game_state)),
            final(game_state).same_but_players_and_info(&*old(game_state)),
            final(game_state).fielded().len() == old(game_state).fielded().len(),
            forall|k: int|
                0 <= k < old(game_state).fielded().len() ==> refreshed(
                    old(game_state).fielded()[k],
                    next_team,
                    #[trigger] final(game_state).fielded()[k],
                ),
    {
        {
            let info = game_state.info_mut();
            match next_team {
                TeamType::Home => {
                    info.home_turn = info.home_turn + 1;
                },
                TeamType::Away => {
                    info.away_turn = info.away_turn + 1;
                },
            }
            info.team_turn = next_team;
            info.handoff_available = true;
            info.blitz_available = true;
            info.foul_available = true;
            info.pass_available = true;
            info.turnover = false;
        }
        let ghost before = *game_state;
        proof {
            before.lemma_slots();
        }
        let mut id: usize = 0;
        while id < FIELD_SLOTS
            invariant
                id <= FIELD_SLOTS,
                before.wf(),
                before.fielded().len() == FIELD_SLOTS,
                game_state.wf(),
                game_state.spec_info() == before.spec_info(),
                game_state.dugout() == before.dugout(),
                game_state.same_but_players(&before),
                game_state.same_board(&before),
                game_state.fielded().len() == FIELD_SLOTS,
                forall|k: int| 0 <= k < id ==> refreshed(before.fielded()[k], next_team, #[trigger] game_state.fielded()[k]),
                forall|k: int| id <= k < FIELD_SLOTS ==> #[trigger] game_state.fielded()[k] == before.fielded()[k],
            decreases FIELD_SLOTS - id,
        {
            let ghost here = *game_state;
            proof {
                here.lemma_board_agrees();
            }
            match game_state.get_mut_player(id) {
                Ok(p) => {
                    if p.stats.team == next_team && p.status != PlayerStatus::Stunned {
                        p.reset_skills_and_moves();
                    }
                },
                Err(_) => {},
            }
            proof {
                assert forall|j: int|
                    0 <= j < here.fielded().len() && #[trigger] game_state.fielded()[j] is Some implies {
                    &&& game_state.fielded()[j]->0.id == here.fielded()[j]->0.id
                    &&& game_state.fielded()[j]->0.position == here.fielded()[j]->0.position
                } by {
                    if j != id {
                        assert(game_state.fielded()[j] == here.fielded()[j]);
                    }
                }
                game_state.lemma_edit_in_place_keeps_wf(&here);
            }
            id = id + 1;
        }
    }

    /// Clear the pitch for a kick-off by `kicking_team`: both teams set up, the kicking team
    /// first, after the knocked-out players had their chance to wake, and then it kicks.
    fn do_kickoff(kicking_team: TeamType, game_state: &mut GameState) -> (r: ProcState)
        requires
            old(game_state).wf(),
            old(game_state).on_pitch().len() + somes(old(game_state).dugout()).len() <= FIELD_SLOTS,
        ensures
            final(game_state).wf(),
            final(game_state).spec_ball() == BallState::OffPitch,
            final(game_state).spec_info() == (GameInfo {
                kicking_this_drive: kicking_team,
                active_player: final(game_state).spec_info().active_player,
                ..old(game_state).spec_info()
            }),
            forall|j: int| 0 <= j < FIELD_SLOTS ==> #[trigger] final(game_state).fielded()[j] is None,
            final(game_state).dugout() == dugout_after_unfielding(old(game_state).dugout(), old(game_state).on_pitch()),
            final(game_state).spec_team(TeamType::Home) == old(game_state).spec_team(TeamType::Home),
            final(game_state).spec_team(TeamType::Away) == old(game_state).spec_team(TeamType::Away),
            r matches ProcState::NotDoneNewProcs(v) && v@ == seq![
                AnyProc::Kickoff(Kickoff { aim: Position { x: 0, y: 0 } }),
                AnyProc::Setup(Setup { team: kicking_team }),
                AnyProc::Setup(Setup { team: spec_other_team(kicking_team) }),
                AnyProc::KOWakeUp(KOWakeUp {  }),
            ],
    {
        game_state.info_mut().kicking_this_drive = kicking_team;
        let mut procs: Vec<AnyProc> = Vec::new();
        procs.push(Kickoff::new());
        procs.push(Setup::new(kicking_team));
        procs.push(Setup::new(other_team(kicking_team)));
        procs.push(AnyProc::KOWakeUp(KOWakeUp {  }));
        game_state.set_ball(BallState::OffPitch);
        let _ = game_state.unfield_all_players();
        assert(procs@ =~= seq![
            AnyProc::Kickoff(Kickoff { aim: Position { x: 0, y: 0 } }),
            AnyProc::Setup(Setup { team: kicking_team }),
            AnyProc::Setup(Setup { team: spec_other_team(kicking_team) }),
            AnyProc::KOWakeUp(KOWakeUp {  }),
        ]);
        ProcState::NotDoneNewProcs(procs)
    }
}

} // verus!
