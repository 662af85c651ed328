use vstd::prelude::*;

use crate::actions::{offer_simple, offers_simple_only};
use crate::board::{BoardDims, spec_bands};
use crate::dice::{spec_weather_from, RequestedRoll, RollResult, Sum2D6, D6Target};
use crate::gamestate::{GameInfo, GameState};
use crate::model::{
    all_directions, other_team, spec_other_team, Action, BallState, Coord, Direction, PlayerStatus, Position,
    ProcInput, TeamType, Weather, div_trunc, max_int, min_int,
};
use crate::pitch::in_pitch;
use crate::rules::spec_kickoff_aim;
use crate::player::TeamState;
use crate::procedures::any_proc::AnyProc;
use crate::procedures::ball_procs::{ball_square, fits_i8, stepped, Bounce, Catch, Touchback};
use crate::procedures::procedure_tools::{finishes_with, ProcState, RollProcState};
use crate::table::{PlayerRole, SimpleAT};

verus! {

#[derive(Clone, Debug, PartialEq, Eq, Structural, Hash)]
pub struct Kickoff {
    pub aim: Position,
}

impl Kickoff {
    pub fn new() -> (r: AnyProc)
        ensures
            r == AnyProc::Kickoff(Kickoff { aim: Position { x: 0, y: 0 } }),
    {
        AnyProc::Kickoff(Kickoff { aim: Position::new((0, 0)) })
    }
}

#[derive(Clone, Debug, PartialEq, Eq, Structural, Hash)]
pub struct KickoffTable {}

impl KickoffTable {
    pub fn new() -> (r: AnyProc)
        ensures
            r == AnyProc::KickoffTable(KickoffTable {  }),
    {
        AnyProc::KickoffTable(KickoffTable {  })
    }
}

#[derive(Clone, Debug, PartialEq, Eq, Structural, Hash)]
pub struct ChangingWeather {}

impl ChangingWeather {
    pub fn new() -> (r: AnyProc)
        ensures
            r == AnyProc::ChangingWeather(ChangingWeather {  }),
    {
        AnyProc::ChangingWeather(ChangingWeather {  })
    }
}

#[derive(Clone, Debug, PartialEq, Eq, Structural, Hash)]
pub struct LandKickoff {}

impl LandKickoff {
    pub fn new() -> (r: AnyProc)
        ensures
            r == AnyProc::LandKickoff(LandKickoff {  }),
    {
        AnyProc::LandKickoff(LandKickoff {  })
    }
}

/// Row of a formation slot.
#[derive(Clone, Copy, Debug, PartialEq, Eq, Structural, Hash)]
pub enum Row {
    /// The `i`-th row of the line-of-scrimmage band, counted outwards from the centre.
    Los(usize),
    /// `k` rows from the centre, clamped onto the pitch.
    Off(Coord),
    /// Outermost row of the north (-1) or south (any other value) wing.
    Wing(Coord),
}

/// One fielding slot: the role wanted there, how many squares back from the own line of
/// scrimmage, and which row.
pub type Slot = (PlayerRole, Coord, Row);

/// Pre-configured setups.
#[derive(Clone, Copy, Debug, PartialEq, Eq, Structural, Hash)]
pub enum Formation {
    Line,
    Spread,
    Wedge,
    Zone,
}

/// The `i`-th row of a line-of-scrimmage band of `los` rows around centre row `c`, counted
/// outwards: the centre, then one south, one north, two south, and so on; on an even band
/// the last row is the extra one on the north side.
pub open spec fn center_out_row(c: int, los: int, i: int) -> int {
    if i == 0 {
        c
    } else if los % 2 == 0 && i == los - 1 {
        c - los / 2
    } else if i % 2 == 1 {
        c + (i + 1) / 2
    } else {
        c - i / 2
    }
}

pub open spec fn spec_formation_slots(f: Formation) -> Seq<Slot> {
    match f {
        Formation::Line => seq![
            (PlayerRole::Lineman, 0i8, Row::Los(0)),
            (PlayerRole::Lineman, 0i8, Row::Los(1)),
            (PlayerRole::Lineman, 0i8, Row::Los(2)),
            (PlayerRole::Blitzer, 0i8, Row::Los(3)),
            (PlayerRole::Blitzer, 0i8, Row::Los(4)),
            (PlayerRole::Lineman, 0i8, Row::Los(5)),
            (PlayerRole::Lineman, 0i8, Row::Los(6)),
            (PlayerRole::Catcher, 2i8, Row::Off(-2i8)),
            (PlayerRole::Catcher, 2i8, Row::Off(2)),
            (PlayerRole::Thrower, 6i8, Row::Off(-3i8)),
            (PlayerRole::Thrower, 6i8, Row::Off(3)),
        ],
        Formation::Spread => seq![
            (PlayerRole::Lineman, 0i8, Row::Los(0)),
            (PlayerRole::Lineman, 0i8, Row::Los(1)),
            (PlayerRole::Lineman, 0i8, Row::Los(2)),
            (PlayerRole::Blitzer, 1i8, Row::Wing(-1i8)),
            (PlayerRole::Blitzer, 1i8, Row::Wing(1)),
            (PlayerRole::Catcher, 3i8, Row::Wing(-1i8)),
            (PlayerRole::Catcher, 3i8, Row::Wing(1)),
            (PlayerRole::Lineman, 0i8, Row::Los(3)),
            (PlayerRole::Lineman, 0i8, Row::Los(4)),
            (PlayerRole::Thrower, 5i8, Row::Off(0)),
            (PlayerRole::Thrower, 5i8, Row::Off(1)),
        ],
        Formation::Wedge => seq![
            (PlayerRole::Lineman, 0i8, Row::Los(0)),
            (PlayerRole::Lineman, 0i8, Row::Los(1)),
            (PlayerRole::Lineman, 0i8, Row::Los(2)),
            (PlayerRole::Thrower, 4i8, Row::Off(0)),
            (PlayerRole::Blitzer, 3i8, Row::Off(1)),
            (PlayerRole::Blitzer, 3i8, Row::Off(-1i8)),
            (PlayerRole::Lineman, 5i8, Row::Off(1)),
            (PlayerRole::Lineman, 5i8, Row::Off(-1i8)),
            (PlayerRole::Catcher, 2i8, Row::Off(3)),
            (PlayerRole::Catcher, 2i8, Row::Off(-3i8)),
            (PlayerRole::Lineman, 0i8, Row::Los(3)),
        ],
        Formation::Zone => seq![
            (PlayerRole::Lineman, 0i8, Row::Los(0)),
            (PlayerRole::Lineman, 0i8, Row::Los(1)),
            (PlayerRole::Lineman, 0i8, Row::Los(2)),
            (PlayerRole::Blitzer, 2i8, Row::Off(2)),
            (PlayerRole::Blitzer, 2i8, Row::Off(-2i8)),
            (PlayerRole::Lineman, 2i8, Row::Off(0)),
            (PlayerRole::Catcher, 4i8, Row::Off(3)),
            (PlayerRole::Catcher, 4i8, Row::Off(-3i8)),
            (PlayerRole::Thrower, 6i8, Row::Off(0)),
            (PlayerRole::Lineman, 0i8, Row::Los(3)),
            (PlayerRole::Lineman, 0i8, Row::Los(4)),
        ],
    }
}

pub open spec fn spec_formation_action(f: Formation) -> SimpleAT {
    match f {
        Formation::Line => SimpleAT::SetupLine,
        Formation::Spread => SimpleAT::SetupSpread,
        Formation::Wedge => SimpleAT::SetupWedge,
        Formation::Zone => SimpleAT::SetupZone,
    }
}

pub open spec fn spec_formation_from_action(at: SimpleAT) -> Option<Formation> {
    match at {
        SimpleAT::SetupLine => Some(Formation::Line),
        SimpleAT::SetupSpread => Some(Formation::Spread),
        SimpleAT::SetupWedge => Some(Formation::Wedge),
        SimpleAT::SetupZone => Some(Formation::Zone),
        _ => None,
    }
}

pub open spec fn spec_max_back(dims: BoardDims) -> int {
    div_trunc(dims.width as int, 2) - 2
}

pub open spec fn spec_fits(f: Formation, dims: BoardDims) -> bool {
    let depth = spec_max_back(dims);
    match f {
        Formation::Line => true,
        Formation::Spread => dims.team_size >= 4 && depth >= 3,
        Formation::Wedge => dims.team_size >= 4 && depth >= 5,
        Formation::Zone => dims.team_size >= 4 && depth >= 4,
    }
}

/// The row a slot's row resolves to on a board `h` rows high, or `None` when the board has
/// no such row.
pub open spec fn slot_row(h: int, row: Row) -> Option<int> {
    let center = div_trunc(h, 2);
    let los = spec_bands(h - 2).0;
    match row {
        Row::Los(i) => if i < los {
            Some(center_out_row(center, los, i as int))
        } else {
            None
        },
        Row::Off(k) => Some(max_int(1, min_int(center + k, h - 2))),
        Row::Wing(w) => if w == -1 {
            Some(1)
        } else {
            Some(h - 2)
        },
    }
}

/// The square a slot resolves to on `team`'s half, or `None` when the board has no row for it.
pub open spec fn spec_square(dims: BoardDims, team: TeamType, slot: Slot) -> Option<(int, int)> {
    let (_, back, row) = slot;
    match slot_row(dims.height as int, row) {
        Some(y) => {
            let b = min_int(back as int, spec_max_back(dims));
            let x = match team {
                TeamType::Home => dims.spec_los_home_x() + b,
                TeamType::Away => dims.spec_los_away_x() - b,
            };
            Some((x, y))
        },
        None => None,
    }
}

impl Formation {
    pub const ALL: [Formation; 4] = [
        Formation::Line,
        Formation::Spread,
        Formation::Wedge,
        Formation::Zone,
    ];

    /// The action that picks this formation.
    pub fn action(self) -> (r: SimpleAT)
        ensures
            r == spec_formation_action(self),
    {
        match self {
            Formation::Line => SimpleAT::SetupLine,
            Formation::Spread => SimpleAT::SetupSpread,
            Formation::Wedge => SimpleAT::SetupWedge,
            Formation::Zone => SimpleAT::SetupZone,
        }
    }

    /// The formation an action picks, if it picks one.
    pub fn from_action(at: SimpleAT) -> (r: Option<Formation>)
        ensures
            r == spec_formation_from_action(at),
    {
        match at {
            SimpleAT::SetupLine => Some(Formation::Line),
            SimpleAT::SetupSpread => Some(Formation::Spread),
            SimpleAT::SetupWedge => Some(Formation::Wedge),
            SimpleAT::SetupZone => Some(Formation::Zone),
            _ => None,
        }
    }

    /// The board can hold this formation; `Line` always fits.
    pub fn fits(self, dims: &BoardDims) -> (r: bool)
        ensures
            r == spec_fits(self, *dims),
    {
        let depth = Self::max_back(dims);
        match self {
            Formation::Line => true,
            Formation::Spread => dims.team_size >= 4 && depth >= 3,
            Formation::Wedge => dims.team_size >= 4 && depth >= 5,
            Formation::Zone => dims.team_size >= 4 && depth >= 4,
        }
    }

    /// The formations that fit the board, in menu order.
    pub fn available(dims: &BoardDims) -> (r: Vec<Formation>)
        ensures
            r@ == Formation::ALL@.filter(|f: Formation| spec_fits(f, *dims)),
    {
        let all = Formation::ALL;
        let mut out: Vec<Formation> = Vec::new();
        let mut i: usize = 0;
        while i < 4
            invariant
                all@ == Formation::ALL@,
                i <= 4,
                out@ == all@.take(i as int).filter(|f: Formation| spec_fits(f, *dims)),
            decreases 4 - i,
        {
            let f = all[i];
            if f.fits(dims) {
                out.push(f);
            }
            proof {
                assert(all@.take(i + 1).drop_last() =~= all@.take(i as int));
                reveal_with_fuel(Seq::filter, 1);
            }
            i += 1;
        }
        assert(all@.take(4) =~= all@);
        out
    }

    /// Deepest offset from the own line of scrimmage that stays on the own half.
    fn max_back(dims: &BoardDims) -> (r: Coord)
        ensures
            r == spec_max_back(*dims),
    {
        dims.width / 2 - 2
    }

    /// The slots of the formation in fielding priority order.
    pub fn slots(self) -> (r: Vec<Slot>)
        ensures
            r@ == spec_formation_slots(self),
    {
        let r = match self {
            Formation::Line => vec![
                (PlayerRole::Lineman, 0, Row::Los(0)),
                (PlayerRole::Lineman, 0, Row::Los(1)),
                (PlayerRole::Lineman, 0, Row::Los(2)),
                (PlayerRole::Blitzer, 0, Row::Los(3)),
                (PlayerRole::Blitzer, 0, Row::Los(4)),
                (PlayerRole::Lineman, 0, Row::Los(5)),
                (PlayerRole::Lineman, 0, Row::Los(6)),
                (PlayerRole::Catcher, 2, Row::Off(-2)),
                (PlayerRole::Catcher, 2, Row::Off(2)),
                (PlayerRole::Thrower, 6, Row::Off(-3)),
                (PlayerRole::Thrower, 6, Row::Off(3)),
            ],
            Formation::Spread => vec![
                (PlayerRole::Lineman, 0, Row::Los(0)),
                (PlayerRole::Lineman, 0, Row::Los(1)),
                (PlayerRole::Lineman, 0, Row::Los(2)),
                (PlayerRole::Blitzer, 1, Row::Wing(-1)),
                (PlayerRole::Blitzer, 1, Row::Wing(1)),
                (PlayerRole::Catcher, 3, Row::Wing(-1)),
                (PlayerRole::Catcher, 3, Row::Wing(1)),
                (PlayerRole::Lineman, 0, Row::Los(3)),
                (PlayerRole::Lineman, 0, Row::Los(4)),
                (PlayerRole::Thrower, 5, Row::Off(0)),
                (PlayerRole::Thrower, 5, Row::Off(1)),
            ],
            Formation::Wedge => vec![
                (PlayerRole::Lineman, 0, Row::Los(0)),
                (PlayerRole::Lineman, 0, Row::Los(1)),
                (PlayerRole::Lineman, 0, Row::Los(2)),
                (PlayerRole::Thrower, 4, Row::Off(0)),
                (PlayerRole::Blitzer, 3, Row::Off(1)),
                (PlayerRole::Blitzer, 3, Row::Off(-1)),
                (PlayerRole::Lineman, 5, Row::Off(1)),
                (PlayerRole::Lineman, 5, Row::Off(-1)),
                (PlayerRole::Catcher, 2, Row::Off(3)),
                (PlayerRole::Catcher, 2, Row::Off(-3)),
                (PlayerRole::Lineman, 0, Row::Los(3)),
            ],
            Formation::Zone => vec![
                (PlayerRole::Lineman, 0, Row::Los(0)),
                (PlayerRole::Lineman, 0, Row::Los(1)),
                (PlayerRole::Lineman, 0, Row::Los(2)),
                (PlayerRole::Blitzer, 2, Row::Off(2)),
                (PlayerRole::Blitzer, 2, Row::Off(-2)),
                (PlayerRole::Lineman, 2, Row::Off(0)),
                (PlayerRole::Catcher, 4, Row::Off(3)),
                (PlayerRole::Catcher, 4, Row::Off(-3)),
                (PlayerRole::Thrower, 6, Row::Off(0)),
                (PlayerRole::Lineman, 0, Row::Los(3)),
                (PlayerRole::Lineman, 0, Row::Los(4)),
            ],
        };
        assert(r@ =~= spec_formation_slots(self));
        r
    }

    /// The rows of the line-of-scrimmage band, centre first and then outwards.
    pub fn los_rows_center_out(dims: &BoardDims) -> (r: Vec<Coord>)
        requires
            dims.valid(),
        ensures
            r@.len() == dims.spec_los_rows(),
            forall|i: int|
                0 <= i < r@.len() ==> #[trigger] r@[i] == center_out_row(
                    div_trunc(dims.height as int, 2),
                    dims.spec_los_rows(),
                    i,
                ),
    {
        let band = dims.los_y_range();
        let lo = dims.wing_rows() + 1;
        let hi = dims.wing_rows() + dims.los_rows();
        let count = (hi - lo + 1) as usize;
        let center = dims.height / 2;
        let ghost los = dims.spec_los_rows();
        let ghost c = center as int;
        let mut rows: Vec<Coord> = Vec::new();
        rows.push(center);
        let mut step: Coord = 1;
        proof {
            crate::board::lemma_bands_tile_the_pitch(*dims);
        }
        while rows.len() < count
            invariant
                dims.valid(),
                los == dims.spec_los_rows(),
                3 <= los <= 7,
                count == los,
                lo == dims.spec_wing_rows() + 1,
                hi == dims.spec_wing_rows() + los,
                c == center,
                los % 2 == 1 ==> lo == c - (los - 1) / 2 && hi == c + (los - 1) / 2,
                los % 2 == 0 ==> lo == c - los / 2 && hi == c + los / 2 - 1,
                1 <= step <= 5,
                rows@.len() == min_int(2 * step - 1, los),
                2 * step - 1 <= los + 1,
                forall|i: int| 0 <= i < rows@.len() ==> #[trigger] rows@[i] == center_out_row(c, los, i),
            decreases los - rows@.len(),
        {
            let up = center + step;
            if lo <= up && up <= hi {
                rows.push(up);
            }
            let down = center - step;
            if lo <= down && down <= hi {
                rows.push(down);
            }
            step += 1;
        }
        let _ = band;
        rows
    }

    /// The square a slot resolves to on `team`'s half, or `None` when the board has no row
    /// for it.
    pub fn square(dims: &BoardDims, team: TeamType, slot: Slot) -> (r: Option<Position>)
        requires
            dims.valid(),
            slot.1 >= 0,
            slot.2 matches Row::Off(k) ==> -100 <= k <= 100,
        ensures
            match spec_square(*dims, team, slot) {
                Some(p) => r == Some(Position { x: p.0 as i8, y: p.1 as i8 }),
                None => r is None,
            },
    {
        let (_, back, row) = slot;
        let center = dims.height / 2;
        let y: Coord = match row {
            Row::Los(i) => {
                let rows = Self::los_rows_center_out(dims);
                if i < rows.len() {
                    rows[i]
                } else {
                    return None;
                }
            },
            Row::Off(k) => {
                let v = center + k;
                let hi = dims.height - 2;
                if v < 1 {
                    1
                } else if v > hi {
                    hi
                } else {
                    v
                }
            },
            Row::Wing(w) => {
                if w == -1 {
                    1
                } else {
                    dims.height - 2
                }
            },
        };
        let mb = Self::max_back(dims);
        let b = if back <= mb { back } else { mb };
        let x = match team {
            TeamType::Home => dims.los_x(team) + b,
            TeamType::Away => dims.los_x(team) - b,
        };
        Some(Position::new((x, y)))
    }
}

/// On every valid board, each formation slot that resolves to a square lands inside the
/// board, on its own team's half, and a line-of-scrimmage slot lands in the scrimmage band
/// on the scrimmage column.
pub proof fn lemma_formation_squares_on_own_half(
    dims: BoardDims,
    team: TeamType,
    f: Formation,
    i: int,
)
    requires
        dims.valid(),
        0 <= i < spec_formation_slots(f).len(),
    ensures
        spec_square(dims, team, spec_formation_slots(f)[i]) matches Some(p) ==> {
            &&& 1 <= p.0 <= dims.width - 2
            &&& 1 <= p.1 <= dims.height - 2
            &&& (team == TeamType::Home ==> p.0 >= div_trunc(dims.width as int, 2))
            &&& (team == TeamType::Away ==> p.0 < div_trunc(dims.width as int, 2))
            &&& (spec_formation_slots(f)[i].2 is Los ==> {
                &&& p.0 == dims.spec_los_x(team)
                &&& dims.spec_wing_rows() + 1 <= p.1 <= dims.spec_wing_rows() + dims.spec_los_rows()
            })
        },
{
    crate::board::lemma_bands_tile_the_pitch(dims);
}

/// The two teams' formations mirror each other: the same slot lands on the same row, and in
/// the column reflected about the halfway line.
pub proof fn lemma_formations_mirrored_between_teams(dims: BoardDims, f: Formation, i: int)
    requires
        dims.valid(),
        0 <= i < spec_formation_slots(f).len(),
    ensures
        spec_square(dims, TeamType::Home, spec_formation_slots(f)[i]) is Some
            <==> spec_square(dims, TeamType::Away, spec_formation_slots(f)[i]) is Some,
        spec_square(dims, TeamType::Home, spec_formation_slots(f)[i]) matches Some(h) ==> (
        spec_square(dims, TeamType::Away, spec_formation_slots(f)[i]) matches Some(a) && a.1
            == h.1 && a.0 == dims.width - 1 - h.0),
{
}

/// Every formation lists eleven slots, none further forward than the line of scrimmage and
/// none more than three rows off the centre.
pub proof fn lemma_formation_slots_well_shaped(f: Formation, i: int)
    requires
        0 <= i < spec_formation_slots(f).len(),
    ensures
        spec_formation_slots(f).len() == 11,
        0 <= spec_formation_slots(f)[i].1 <= 6,
        spec_formation_slots(f)[i].2 matches Row::Off(k) ==> -3 <= k <= 3,
{
}

/// Picking a formation by its action gives the formation back, and only the four setup
/// actions pick a formation.
pub proof fn lemma_formation_action_round_trip(f: Formation, at: SimpleAT)
    ensures
        spec_formation_from_action(spec_formation_action(f)) == Some(f),
        spec_formation_from_action(at) matches Some(g) ==> spec_formation_action(g) == at,
{
}

/// Every formation opens with the three centre rows of the line of scrimmage, so on every
/// valid board its first three slots land on three different squares of the line.
pub proof fn lemma_formation_opens_on_the_line(dims: BoardDims, team: TeamType, f: Formation, i: int)
    requires
        dims.valid(),
        0 <= i < 3,
    ensures
        spec_formation_slots(f)[i].2 == Row::Los(i as usize),
        spec_square(dims, team, spec_formation_slots(f)[i]) matches Some(p) && {
            &&& p.0 == dims.spec_los_x(team)
            &&& dims.spec_wing_rows() + 1 <= p.1 <= dims.spec_wing_rows() + dims.spec_los_rows()
            &&& p.1 == div_trunc(dims.height as int, 2) + (if i == 0 {
                0int
            } else if i == 1 {
                1int
            } else {
                -1int
            })
        },
{
    crate::board::lemma_bands_tile_the_pitch(dims);
}

#[derive(Clone, Debug, PartialEq, Eq, Structural, Hash)]
pub struct Setup {
    pub team: TeamType,
}

impl Setup {
    pub fn new(team: TeamType) -> (r: AnyProc)
        ensures
            r == AnyProc::Setup(Setup { team }),
    {
        AnyProc::Setup(Setup { team })
    }
}

/// Where a kick aimed at `aim` lands: the deviation roll's distance, capped at half the
/// board's width, along the rolled direction.
pub open spec fn kick_landing(aim: Position, dims: BoardDims, len: int, dir: Direction) -> (int, int) {
    let l = min_int(len, div_trunc(dims.width as int, 2));
    (aim.x + dir.dx * l, aim.y + dir.dy * l)
}

impl Kickoff {

    /// The inputs `step` takes in `gs`.
    pub open spec fn step_accepts(self, gs: GameState, input: ProcInput) -> bool {
        &&& (gs.wf())
        &&& (input is Nothing || input == ProcInput::Action(Action::Simple(SimpleAT::KickoffAimMiddle))
            || input matches ProcInput::Roll(RollResult::Deviate(_, _)))
        &&& (input matches ProcInput::Roll(RollResult::Deviate(len, dir)) ==> fits_i8(
            kick_landing(
                self.aim,
                gs.spec_dims(),
                len.spec_value() as int,
                all_directions()[dir.spec_value() - 1],
            ),
        ))
    }

    /// `after`, `gs2` and `r` are what `step` makes of `self` in `gs` with `input`.
    pub open spec fn step_done(self, after: Self, gs: GameState, gs2: GameState, input: ProcInput, r: ProcState) -> bool {
        &&& (gs2.wf())
        &&& (gs2.fielded() == gs.fielded())
        &&& (gs2.dugout() == gs.dugout())
        &&& (gs2.same_board(&gs))
        &&& (gs2.spec_info() == gs.spec_info())
        &&& (gs2.same_but_players_info_and_ball(&gs))
        &&& (match input {
            ProcInput::Roll(RollResult::Deviate(len, dir)) => {
                let q = kick_landing(
                    self.aim,
                    gs.spec_dims(),
                    len.spec_value() as int,
                    all_directions()[dir.spec_value() - 1],
                );
                &&& after == self
                &&& gs2.spec_ball() matches BallState::InAir(b) && b.x == q.0 && b.y == q.1
                &&& gs2.spec_bounce_squares() == gs.spec_bounce_squares().push(
                    gs2.spec_ball()->InAir_0,
                )
                &&& r == ProcState::DoneNew(
                    if gs.spec_dims().team_size >= 7 {
                        AnyProc::KickoffTable(KickoffTable {  })
                    } else {
                        AnyProc::LandKickoff(LandKickoff {  })
                    },
                )
            },
            ProcInput::Nothing => {
                &&& after == self
                &&& gs2 == gs
                &&& r matches ProcState::NeedAction(aa) && offers_simple_only(
                    *aa,
                    gs.spec_info().kicking_this_drive,
                    set![SimpleAT::KickoffAimMiddle],
                )
            },
            _ => {
                let aim = spec_kickoff_aim(gs.spec_dims(), gs.spec_info().kicking_this_drive);
                &&& after.aim.x == aim.0 && after.aim.y == aim.1
                &&& gs2 == gs
                &&& r == ProcState::NeedRoll(RequestedRoll::Deviate)
            },
        })
    }

    /// The kicking team aims at the centre of the receiving half; the kick then deviates and
    /// is in the air, to land after the kick-off table when the board has one.
    pub fn step(&mut self, game_state: &mut GameState, input: ProcInput) -> (r: ProcState)
        requires
            old(game_state).wf(),
            input is Nothing || input == ProcInput::Action(Action::Simple(SimpleAT::KickoffAimMiddle))
                || input matches ProcInput::Roll(RollResult::Deviate(_, _)),
            input matches ProcInput::Roll(RollResult::Deviate(len, dir)) ==> fits_i8(
                kick_landing(
                    old(self).aim,
                    old(game_state).spec_dims(),
                    len.spec_value() as int,
                    all_directions()[dir.spec_value() - 1],
                ),
            ),
        ensures
            final(game_state).wf(),
            final(game_state).fielded() == old(game_state).fielded(),
            final(game_state).dugout() == old(game_state).dugout(),
            final(game_state).same_board(&*old(game_state)),
            final(game_state).spec_info() == old(game_state).spec_info(),
            final(game_state).same_but_players_info_and_ball(&*old(game_state)),
            match input {
                ProcInput::Roll(RollResult::Deviate(len, dir)) => {
                    let q = kick_landing(
                        old(self).aim,
                        old(game_state).spec_dims(),
                        len.spec_value() as int,
                        all_directions()[dir.spec_value() - 1],
                    );
                    &&& *final(self) == *old(self)
                    &&& final(game_state).spec_ball() matches BallState::InAir(b) && b.x == q.0 && b.y == q.1
                    &&& final(game_state).spec_bounce_squares() == old(game_state).spec_bounce_squares().push(
                        final(game_state).spec_ball()->InAir_0,
                    )
                    &&& r == ProcState::DoneNew(
                        if old(game_state).spec_dims().team_size >= 7 {
                            AnyProc::KickoffTable(KickoffTable {  })
                        } else {
                            AnyProc::LandKickoff(LandKickoff {  })
                        },
                    )
                },
                ProcInput::Nothing => {
                    &&& *final(self) == *old(self)
                    &&& *final(game_state) == *old(game_state)
                    &&& r matches ProcState::NeedAction(aa) && offers_simple_only(
                        *aa,
                        old(game_state).spec_info().kicking_this_drive,
                        set![SimpleAT::KickoffAimMiddle],
                    )
                },
                _ => {
                    let aim = spec_kickoff_aim(old(game_state).spec_dims(), old(game_state).spec_info().kicking_this_drive);
                    &&& final(self).aim.x == aim.0 && final(self).aim.y == aim.1
                    &&& *final(game_state) == *old(game_state)
                    &&& r == ProcState::NeedRoll(RequestedRoll::Deviate)
                },
            },
    {
        let (len_roll, dir_roll) = match input {
            ProcInput::Nothing => {
                let team = game_state.info().kicking_this_drive;
                return ProcState::NeedAction(offer_simple(team, SimpleAT::KickoffAimMiddle, None));
            },
            ProcInput::Roll(RollResult::Deviate(len_roll, dir_roll)) => (len_roll, dir_roll),
            _ => {
                let team = game_state.info().kicking_this_drive;
                self.aim = game_state.get_best_kickoff_aim_for(team);
                return ProcState::NeedRoll(RequestedRoll::Deviate);
            },
        };
        proof {
            old(game_state).lemma_board_agrees();
        }
        let dims = game_state.dims();
        let m = dims.max_scatter();
        let l = len_roll.value() as i8;
        let len = if l <= m { l } else { m };
        let dir = dir_roll.to_direction();
        assert(-1 <= dir.dx <= 1 && -1 <= dir.dy <= 1);
        assert(1 <= len <= 6);
        assert(-6 <= dir.dx * len <= 6) by (nonlinear_arith)
            requires -1 <= dir.dx <= 1, 1 <= len <= 6;
        assert(-6 <= dir.dy * len <= 6) by (nonlinear_arith)
            requires -1 <= dir.dy <= 1, 1 <= len <= 6;
        let ball_pos = self.aim.add_direction(dir.scale(len));
        game_state.set_ball(BallState::InAir(ball_pos));
        if dims.kickoff_table_enabled() {
            ProcState::DoneNew(KickoffTable::new())
        } else {
            ProcState::DoneNew(LandKickoff::new())
        }
    }
}

/// The kick-off event of a roll of the table: a bribe each on 2, a time-out that moves both
/// turn markers on 3 (forward up to turn five, back after), changing weather on 8.
pub open spec fn kickoff_event_info(info: GameInfo, roll: Sum2D6) -> GameInfo {
    match roll {
        Sum2D6::Three => if info.home_turn <= 5 {
            GameInfo { away_turn: (info.away_turn + 1) as u8, home_turn: (info.home_turn + 1) as u8, ..info }
        } else {
            GameInfo { away_turn: (info.away_turn - 1) as u8, home_turn: (info.home_turn - 1) as u8, ..info }
        },
        _ => info,
    }
}

impl KickoffTable {

    /// The inputs `step` takes in `gs`.
    pub open spec fn step_accepts(self, gs: GameState, input: ProcInput) -> bool {
        &&& (gs.wf())
        &&& (input is Nothing || input matches ProcInput::Roll(RollResult::Sum2D6(_)))
        &&& (input == ProcInput::Roll(RollResult::Sum2D6(Sum2D6::Two)) ==> {
            &&& gs.spec_team(TeamType::Home).bribes < 255
            &&& gs.spec_team(TeamType::Away).bribes < 255
        })
        &&& (input == ProcInput::Roll(RollResult::Sum2D6(Sum2D6::Three)) ==> {
            let info = gs.spec_info();
            if info.home_turn <= 5 {
                info.away_turn < 255
            } else {
                info.away_turn >= 1
            }
        })
    }

    /// `after`, `gs2` and `r` are what `step` makes of `self` in `gs` with `input`.
    pub open spec fn step_done(self, after: Self, gs: GameState, gs2: GameState, input: ProcInput, r: ProcState) -> bool {
        &&& (after == self)
        &&& (gs2.wf())
        &&& (gs2.fielded() == gs.fielded())
        &&& (gs2.dugout() == gs.dugout())
        &&& (gs2.same_board(&gs))
        &&& (gs2.spec_ball() == gs.spec_ball())
        &&& (gs2.spec_bounce_squares() == gs.spec_bounce_squares())
        &&& (gs2.spec_dims() == gs.spec_dims())
        &&& (gs2.spec_proc_stack() == gs.spec_proc_stack())
        &&& (gs2.spec_available_actions() == gs.spec_available_actions())
        &&& (gs2.spec_dice_mode() == gs.spec_dice_mode())
        &&& (match input {
            ProcInput::Roll(RollResult::Sum2D6(roll)) => {
                let bribe = if roll == Sum2D6::Two { 1int } else { 0int };
                &&& gs2.spec_info() == kickoff_event_info(gs.spec_info(), roll)
                &&& gs2.spec_team(TeamType::Home) == (TeamState {
                    bribes: (gs.spec_team(TeamType::Home).bribes + bribe) as u8,
                    ..gs.spec_team(TeamType::Home)
                })
                &&& gs2.spec_team(TeamType::Away) == (TeamState {
                    bribes: (gs.spec_team(TeamType::Away).bribes + bribe) as u8,
                    ..gs.spec_team(TeamType::Away)
                })
                &&& finishes_with(
                    r,
                    if roll == Sum2D6::Eight {
                        seq![AnyProc::LandKickoff(LandKickoff {  }), AnyProc::ChangingWeather(ChangingWeather {  })]
                    } else {
                        seq![AnyProc::LandKickoff(LandKickoff {  })]
                    },
                )
            },
            _ => {
                &&& gs2 == gs
                &&& r == ProcState::NeedRoll(RequestedRoll::Sum2D6)
            },
        })
    }

    /// Roll on the kick-off table and apply the event; the kick lands afterwards.
    pub fn step(&mut self, game_state: &mut GameState, input: ProcInput) -> (r: ProcState)
        requires
            old(game_state).wf(),
            input is Nothing || input matches ProcInput::Roll(RollResult::Sum2D6(_)),
            input == ProcInput::Roll(RollResult::Sum2D6(Sum2D6::Two)) ==> {
                &&& old(game_state).spec_team(TeamType::Home).bribes < 255
                &&& old(game_state).spec_team(TeamType::Away).bribes < 255
            },
            input == ProcInput::Roll(RollResult::Sum2D6(Sum2D6::Three)) ==> {
                let info = old(game_state).spec_info();
                if info.home_turn <= 5 {
                    info.away_turn < 255
                } else {
                    info.away_turn >= 1
                }
            },
        ensures
            *final(self) == *old(self),
            final(game_state).wf(),
            final(game_state).fielded() == old(game_state).fielded(),
            final(game_state).dugout() == old(game_state).dugout(),
            final(game_state).same_board(&*old(game_state)),
            final(game_state).spec_ball() == old(game_state).spec_ball(),
            final(game_state).spec_bounce_squares() == old(game_state).spec_bounce_squares(),
            final(game_state).spec_dims() == old(game_state).spec_dims(),
            final(game_state).spec_proc_stack() == old(game_state).spec_proc_stack(),
            final(game_state).spec_available_actions() == old(game_state).spec_available_actions(),
            final(game_state).spec_dice_mode() == old(game_state).spec_dice_mode(),
            match input {
                ProcInput::Roll(RollResult::Sum2D6(roll)) => {
                    let bribe = if roll == Sum2D6::Two { 1int } else { 0int };
                    &&& final(game_state).spec_info() == kickoff_event_info(old(game_state).spec_info(), roll)
                    &&& final(game_state).spec_team(TeamType::Home) == (TeamState {
                        bribes: (old(game_state).spec_team(TeamType::Home).bribes + bribe) as u8,
                        ..old(game_state).spec_team(TeamType::Home)
                    })
                    &&& final(game_state).spec_team(TeamType::Away) == (TeamState {
                        bribes: (old(game_state).spec_team(TeamType::Away).bribes + bribe) as u8,
                        ..old(game_state).spec_team(TeamType::Away)
                    })
                    &&& finishes_with(
                        r,
                        if roll == Sum2D6::Eight {
                            seq![AnyProc::LandKickoff(LandKickoff {  }), AnyProc::ChangingWeather(ChangingWeather {  })]
                        } else {
                            seq![AnyProc::LandKickoff(LandKickoff {  })]
                        },
                    )
                },
                _ => {
                    &&& *final(game_state) == *old(game_state)
                    &&& r == ProcState::NeedRoll(RequestedRoll::Sum2D6)
                },
            },
    {
        let kickoff_roll = match input {
            ProcInput::Roll(RollResult::Sum2D6(kickoff_roll)) => kickoff_roll,
            _ => {
                return ProcState::NeedRoll(RequestedRoll::Sum2D6);
            },
        };
        let mut procs: Vec<AnyProc> = Vec::new();
        procs.push(LandKickoff::new());
        assert(procs@ =~= seq![AnyProc::LandKickoff(LandKickoff {  })]);
        match kickoff_roll {
            Sum2D6::Two => {
                let home = game_state.get_mut_team(TeamType::Home);
                home.bribes = home.bribes + 1;
                let away = game_state.get_mut_team(TeamType::Away);
                away.bribes = away.bribes + 1;
            },
            Sum2D6::Three => {
                let info = game_state.info_mut();
                if info.home_turn <= 5 {
                    info.away_turn = info.away_turn + 1;
                    info.home_turn = info.home_turn + 1;
                } else {
                    info.away_turn = info.away_turn - 1;
                    info.home_turn = info.home_turn - 1;
                }
            },
            Sum2D6::Eight => {
                procs.push(ChangingWeather::new());
                assert(procs@ =~= seq![
                    AnyProc::LandKickoff(LandKickoff {  }),
                    AnyProc::ChangingWeather(ChangingWeather {  }),
                ]);
            },
            _ => {},
        }
        ProcState::from(procs)
    }
}

impl ChangingWeather {

    /// The inputs `step` takes in `gs`.
    pub open spec fn step_accepts(self, gs: GameState, input: ProcInput) -> bool {
        &&& (gs.wf())
        &&& (input is Nothing || input matches ProcInput::Roll(RollResult::Sum2D6(_)) || input matches ProcInput::Roll(
            RollResult::D8(_),
        ))
        &&& (!(input is Nothing) ==> !(gs.spec_ball() is OffPitch))
        &&& (input matches ProcInput::Roll(RollResult::D8(d)) ==> fits_i8(
            (
                ball_square(gs).x + all_directions()[d.spec_value() - 1].dx,
                ball_square(gs).y + all_directions()[d.spec_value() - 1].dy,
            ),
        ))
    }

    /// `after`, `gs2` and `r` are what `step` makes of `self` in `gs` with `input`.
    pub open spec fn step_done(self, after: Self, gs: GameState, gs2: GameState, input: ProcInput, r: ProcState) -> bool {
        &&& (after == self)
        &&& (gs2.wf())
        &&& (gs2.fielded() == gs.fielded())
        &&& (gs2.dugout() == gs.dugout())
        &&& (gs2.same_board(&gs))
        &&& (gs2.same_but_players_info_and_ball(&gs))
        &&& (match input {
            ProcInput::Roll(RollResult::Sum2D6(roll)) => {
                let w = spec_weather_from(roll);
                &&& gs2.spec_info() == (GameInfo { weather: w, ..gs.spec_info() })
                &&& gs2.spec_ball() == gs.spec_ball()
                &&& gs2.spec_bounce_squares() == gs.spec_bounce_squares()
                &&& if w == Weather::Nice && !gs.spec_dims().spec_is_out(ball_square(gs)) {
                    r == ProcState::NeedRoll(RequestedRoll::D8)
                } else {
                    r is Done
                }
            },
            ProcInput::Roll(RollResult::D8(d)) => {
                let to = stepped(ball_square(gs), all_directions()[d.spec_value() - 1]);
                &&& gs2.spec_info() == gs.spec_info()
                &&& gs2.spec_ball() == BallState::InAir(to)
                &&& gs2.spec_bounce_squares() == gs.spec_bounce_squares().push(to)
                &&& r is Done
            },
            _ => {
                &&& gs2 == gs
                &&& r == ProcState::NeedRoll(RequestedRoll::Sum2D6)
            },
        })
    }

    /// Roll the new weather; nice weather brings a gust that scatters a ball in bounds one
    /// more square.
    pub fn step(&mut self, game_state: &mut GameState, input: ProcInput) -> (r: ProcState)
        requires
            old(game_state).wf(),
            input is Nothing || input matches ProcInput::Roll(RollResult::Sum2D6(_)) || input matches ProcInput::Roll(
                RollResult::D8(_),
            ),
            !(input is Nothing) ==> !(old(game_state).spec_ball() is OffPitch),
            input matches ProcInput::Roll(RollResult::D8(d)) ==> fits_i8(
                (
                    ball_square(*old(game_state)).x + all_directions()[d.spec_value() - 1].dx,
                    ball_square(*old(game_state)).y + all_directions()[d.spec_value() - 1].dy,
                ),
            ),
        ensures
            *final(self) == *old(self),
            final(game_state).wf(),
            final(game_state).fielded() == old(game_state).fielded(),
            final(game_state).dugout() == old(game_state).dugout(),
            final(game_state).same_board(&*old(game_state)),
            final(game_state).same_but_players_info_and_ball(&*old(game_state)),
            match input {
                ProcInput::Roll(RollResult::Sum2D6(roll)) => {
                    let w = spec_weather_from(roll);
                    &&& final(game_state).spec_info() == (GameInfo { weather: w, ..old(game_state).spec_info() })
                    &&& final(game_state).spec_ball() == old(game_state).spec_ball()
                    &&& final(game_state).spec_bounce_squares() == old(game_state).spec_bounce_squares()
                    &&& if w == Weather::Nice && !old(game_state).spec_dims().spec_is_out(ball_square(*old(game_state))) {
                        r == ProcState::NeedRoll(RequestedRoll::D8)
                    } else {
                        r is Done
                    }
                },
                ProcInput::Roll(RollResult::D8(d)) => {
                    let to = stepped(ball_square(*old(game_state)), all_directions()[d.spec_value() - 1]);
                    &&& final(game_state).spec_info() == old(game_state).spec_info()
                    &&& final(game_state).spec_ball() == BallState::InAir(to)
                    &&& final(game_state).spec_bounce_squares() == old(game_state).spec_bounce_squares().push(to)
                    &&& r is Done
                },
                _ => {
                    &&& *final(game_state) == *old(game_state)
                    &&& r == ProcState::NeedRoll(RequestedRoll::Sum2D6)
                },
            },
    {
        match input {
            ProcInput::Roll(RollResult::Sum2D6(roll)) => {
                let w = Weather::from_roll(roll);
                game_state.info_mut().weather = w;
                let ball_pos = game_state.get_ball_position().unwrap();
                let nice = match w {
                    Weather::Nice => true,
                    _ => false,
                };
                if nice && !game_state.is_out(ball_pos) {
                    ProcState::NeedRoll(RequestedRoll::D8)
                } else {
                    ProcState::Done
                }
            },
            ProcInput::Roll(RollResult::D8(d8)) => {
                let dir = d8.to_direction();
                assert(-1 <= dir.dx <= 1 && -1 <= dir.dy <= 1);
                let scattered = game_state.get_ball_position().unwrap().add_direction(dir);
                game_state.set_ball(BallState::InAir(scattered));
                ProcState::Done
            },
            _ => ProcState::NeedRoll(RequestedRoll::Sum2D6),
        }
    }
}

impl LandKickoff {

    /// The inputs `step` takes in `gs`.
    pub open spec fn step_accepts(self, gs: GameState, input: ProcInput) -> bool {
        &&& (gs.wf())
        &&& (gs.spec_ball() is InAir)
        &&& (({
            let pos = gs.spec_ball()->InAir_0;
            let dims = gs.spec_dims();
            !(dims.spec_is_out(pos) || !dims.spec_is_on_team_side(
                pos,
                spec_other_team(gs.spec_info().kicking_this_drive),
            )) ==> match gs.board_at(pos.x as int, pos.y as int) {
                Some(c) => 1 <= gs.fielded()[c as int]->0.stats.ag <= 5,
                None => true,
            }
        }))
    }

    /// `after`, `gs2` and `r` are what `step` makes of `self` in `gs` with `input`.
    pub open spec fn step_done(self, after: Self, gs: GameState, gs2: GameState, input: ProcInput, r: ProcState) -> bool {
        &&& (after == self)
        &&& (gs2 == gs)
        &&& (({
            let gs = gs;
            let pos = gs.spec_ball()->InAir_0;
            let dims = gs.spec_dims();
            if dims.spec_is_out(pos) || !dims.spec_is_on_team_side(
                pos,
                spec_other_team(gs.spec_info().kicking_this_drive),
            ) {
                r == ProcState::DoneNew(AnyProc::Touchback(Touchback {  }))
            } else {
                match gs.board_at(pos.x as int, pos.y as int) {
                    Some(c) => {
                        &&& r matches ProcState::DoneNew(AnyProc::Catch(cc))
                        &&& r->DoneNew_0->Catch_0.state == RollProcState::Init
                        &&& r->DoneNew_0->Catch_0.proc.id == c
                        &&& r->DoneNew_0->Catch_0.proc.kick
                        &&& r->DoneNew_0->Catch_0.proc.target.spec_value() == gs.catch_roll(
                            gs.fielded()[c as int]->0,
                        )
                    },
                    None => r == ProcState::DoneNew(AnyProc::Bounce(Bounce { kick: true })),
                }
            }
        }))
    }

    /// The kick comes down: off the pitch or on the kicking side it is a touchback; a player
    /// on the landing square tries to catch it, otherwise it bounces, still as a kick.
    pub fn step(&mut self, game_state: &mut GameState, input: ProcInput) -> (r: ProcState)
        requires
            old(game_state).wf(),
            old(game_state).spec_ball() is InAir,
            ({
                let pos = old(game_state).spec_ball()->InAir_0;
                let dims = old(game_state).spec_dims();
                !(dims.spec_is_out(pos) || !dims.spec_is_on_team_side(
                    pos,
                    spec_other_team(old(game_state).spec_info().kicking_this_drive),
                )) ==> match old(game_state).board_at(pos.x as int, pos.y as int) {
                    Some(c) => 1 <= old(game_state).fielded()[c as int]->0.stats.ag <= 5,
                    None => true,
                }
            }),
        ensures
            *final(self) == *old(self),
            *final(game_state) == *old(game_state),
            ({
                let gs = *old(game_state);
                let pos = gs.spec_ball()->InAir_0;
                let dims = gs.spec_dims();
                if dims.spec_is_out(pos) || !dims.spec_is_on_team_side(
                    pos,
                    spec_other_team(gs.spec_info().kicking_this_drive),
                ) {
                    r == ProcState::DoneNew(AnyProc::Touchback(Touchback {  }))
                } else {
                    match gs.board_at(pos.x as int, pos.y as int) {
                        Some(c) => {
                            &&& r matches ProcState::DoneNew(AnyProc::Catch(cc))
                            &&& r->DoneNew_0->Catch_0.state == RollProcState::Init
                            &&& r->DoneNew_0->Catch_0.proc.id == c
                            &&& r->DoneNew_0->Catch_0.proc.kick
                            &&& r->DoneNew_0->Catch_0.proc.target.spec_value() == gs.catch_roll(
                                gs.fielded()[c as int]->0,
                            )
                        },
                        None => r == ProcState::DoneNew(AnyProc::Bounce(Bounce { kick: true })),
                    }
                }
            }),
    {
        proof {
            old(game_state).lemma_board_agrees();
        }
        let ball_position = match game_state.ball() {
            BallState::InAir(p) => p,
            _ => {
                proof {
                    assert(false);
                }
                return ProcState::Done;
            },
        };
        let receiving = other_team(game_state.info().kicking_this_drive);
        if game_state.is_out(ball_position) || !game_state.is_on_team_side(ball_position, receiving) {
            return ProcState::DoneNew(Touchback::new());
        }
        match game_state.get_player_id_at(ball_position) {
            Some(id) => {
                let target = match game_state.get_catch_target(id) {
                    Ok(t) => t,
                    Err(_) => {
                        proof {
                            assert(false);
                        }
                        D6Target::TwoPlus
                    },
                };
                ProcState::DoneNew(Catch::new_with_kick_arg(id, target, true))
            },
            None => ProcState::DoneNew(Bounce::new_with_kick_arg(true)),
        }
    }
}

} // verus!
