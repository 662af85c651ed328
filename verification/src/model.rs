use vstd::prelude::*;

use crate::dice::RollResult;
use crate::table::{NumBlockDices, PosAT, SimpleAT};

verus! {

pub type PlayerID = usize;

pub type DugoutPlayerID = usize;

pub type Coord = i8;

/// Physical pitch width (columns, including the out-of-bounds border).
pub const WIDTH: usize = 28;

/// Physical pitch height (rows, including the out-of-bounds border).
pub const HEIGHT: usize = 17;

/// `WIDTH` as a coordinate.
pub const WIDTH_: Coord = 28;

/// `HEIGHT` as a coordinate.
pub const HEIGHT_: Coord = 17;

/// Most players a team can field.
pub const TEAM_SIZE: usize = 11;

/// Roster size of a team: the fielded players plus one reserve.
pub const ROSTER_PER_TEAM: usize = 12;

#[derive(Debug, Clone, Copy, PartialEq, Eq, Structural, Hash)]
pub enum TeamType {
    Home,
    Away,
}

pub open spec fn spec_other_team(team: TeamType) -> TeamType {
    match team {
        TeamType::Home => TeamType::Away,
        TeamType::Away => TeamType::Home,
    }
}

/// The opposing team.
pub fn other_team(team: TeamType) -> (r: TeamType)
    ensures
        r == spec_other_team(team),
        r != team,
{
    match team {
        TeamType::Home => TeamType::Away,
        TeamType::Away => TeamType::Home,
    }
}

/// Taking the opposing team twice gives back the team.
pub proof fn lemma_other_team_involution(team: TeamType)
    ensures
        spec_other_team(spec_other_team(team)) == team,
        spec_other_team(team) != team,
{
}

/// A step on the pitch.
#[derive(Debug, Clone, Copy, PartialEq, Eq, Structural, Hash)]
pub struct Direction {
    pub dx: Coord,
    pub dy: Coord,
}

/// The eight neighbouring steps, each with `dx = +1` before its `dx = -1` partner.
pub open spec fn all_directions() -> Seq<Direction> {
    seq![
        Direction { dx: 1i8, dy: 1i8 },
        Direction { dx: 0i8, dy: 1i8 },
        Direction { dx: -1i8, dy: 1i8 },
        Direction { dx: 1i8, dy: 0i8 },
        Direction { dx: -1i8, dy: 0i8 },
        Direction { dx: 1i8, dy: -1i8 },
        Direction { dx: 0i8, dy: -1i8 },
        Direction { dx: -1i8, dy: -1i8 },
    ]
}

/// `all_directions()` reflected in x.
pub open spec fn all_directions_mirrored() -> Seq<Direction> {
    seq![
        Direction { dx: -1i8, dy: 1i8 },
        Direction { dx: 0i8, dy: 1i8 },
        Direction { dx: 1i8, dy: 1i8 },
        Direction { dx: -1i8, dy: 0i8 },
        Direction { dx: 1i8, dy: 0i8 },
        Direction { dx: -1i8, dy: -1i8 },
        Direction { dx: 0i8, dy: -1i8 },
        Direction { dx: 1i8, dy: -1i8 },
    ]
}

pub open spec fn abs(v: int) -> int {
    if v < 0 {
        -v
    } else {
        v
    }
}

pub open spec fn max_int(a: int, b: int) -> int {
    if a >= b {
        a
    } else {
        b
    }
}

pub open spec fn min_int(a: int, b: int) -> int {
    if a <= b {
        a
    } else {
        b
    }
}

/// Integer division of `a` by `b > 0` rounding toward zero, as machine division does.
pub open spec fn div_trunc(a: int, b: int) -> int {
    if a >= 0 {
        a / b
    } else {
        -((-a) / b)
    }
}

impl Direction {
    /// Chebyshev length of the step.
    pub open spec fn spec_distance(self) -> int {
        max_int(abs(self.dx as int), abs(self.dy as int))
    }

    /// The step from a pair `(dx, dy)`.
    pub fn from_pair(dxdy: (Coord, Coord)) -> (r: Direction)
        ensures
            r.dx == dxdy.0,
            r.dy == dxdy.1,
    {
        Direction { dx: dxdy.0, dy: dxdy.1 }
    }

    /// The eight steps in their fixed order.
    pub fn all_directions_iter() -> (r: [Direction; 8])
        ensures
            r@ == all_directions(),
    {
        Direction::all_directions_as_array()
    }

    /// The eight steps, ordered so that steps toward `attacking_dx` come first.
    pub fn all_directions_toward(attacking_dx: Coord) -> (r: [Direction; 8])
        ensures
            attacking_dx < 0 ==> r@ == all_directions_mirrored(),
            attacking_dx >= 0 ==> r@ == all_directions(),
    {
        if attacking_dx < 0 {
            let r = [
                Direction { dx: -1, dy: 1 },
                Direction { dx: 0, dy: 1 },
                Direction { dx: 1, dy: 1 },
                Direction { dx: -1, dy: 0 },
                Direction { dx: 1, dy: 0 },
                Direction { dx: -1, dy: -1 },
                Direction { dx: 0, dy: -1 },
                Direction { dx: 1, dy: -1 },
            ];
            assert(r@ =~= all_directions_mirrored());
            r
        } else {
            Direction::all_directions_as_array()
        }
    }

    pub fn all_directions_as_array() -> (r: [Direction; 8])
        ensures
            r@ == all_directions(),
    {
        let r = [
            Direction { dx: 1, dy: 1 },
            Direction { dx: 0, dy: 1 },
            Direction { dx: -1, dy: 1 },
            Direction { dx: 1, dy: 0 },
            Direction { dx: -1, dy: 0 },
            Direction { dx: 1, dy: -1 },
            Direction { dx: 0, dy: -1 },
            Direction { dx: -1, dy: -1 },
        ];
        assert(r@ =~= all_directions());
        r
    }

    /// Chebyshev length of the step.
    pub fn distance(&self) -> (r: Coord)
        requires
            self.dx != i8::MIN,
            self.dy != i8::MIN,
        ensures
            r == self.spec_distance(),
    {
        let ax = if self.dx < 0 { -self.dx } else { self.dx };
        let ay = if self.dy < 0 { -self.dy } else { self.dy };
        if ax >= ay {
            ax
        } else {
            ay
        }
    }

    pub fn up() -> (r: Direction)
        ensures
            r == (Direction { dx: 0i8, dy: -1i8 }),
    {
        Direction { dx: 0, dy: -1 }
    }

    pub fn upleft() -> (r: Direction)
        ensures
            r == (Direction { dx: -1i8, dy: -1i8 }),
    {
        Direction { dx: -1, dy: -1 }
    }

    pub fn upright() -> (r: Direction)
        ensures
            r == (Direction { dx: 1i8, dy: -1i8 }),
    {
        Direction { dx: 1, dy: -1 }
    }

    pub fn left() -> (r: Direction)
        ensures
            r == (Direction { dx: -1i8, dy: 0i8 }),
    {
        Direction { dx: -1, dy: 0 }
    }

    pub fn right() -> (r: Direction)
        ensures
            r == (Direction { dx: 1i8, dy: 0i8 }),
    {
        Direction { dx: 1, dy: 0 }
    }

    pub fn down() -> (r: Direction)
        ensures
            r == (Direction { dx: 0i8, dy: 1i8 }),
    {
        Direction { dx: 0, dy: 1 }
    }

    pub fn downleft() -> (r: Direction)
        ensures
            r == (Direction { dx: -1i8, dy: 1i8 }),
    {
        Direction { dx: -1, dy: 1 }
    }

    pub fn downright() -> (r: Direction)
        ensures
            r == (Direction { dx: 1i8, dy: 1i8 }),
    {
        Direction { dx: 1, dy: 1 }
    }

    /// The step scaled by `k`.
    pub fn scale(self, k: i8) -> (r: Direction)
        requires
            i8::MIN <= self.dx * k <= i8::MAX,
            i8::MIN <= self.dy * k <= i8::MAX,
        ensures
            r.dx == self.dx * k,
            r.dy == self.dy * k,
    {
        Direction { dx: self.dx * k, dy: self.dy * k }
    }
}

/// Every entry of both direction tables is a unit step.
pub proof fn lemma_all_directions_are_unit_steps(i: int)
    requires
        0 <= i < 8,
    ensures
        all_directions()[i].spec_distance() == 1,
        all_directions_mirrored()[i].spec_distance() == 1,
        all_directions_mirrored()[i].dx == -all_directions()[i].dx,
        all_directions_mirrored()[i].dy == all_directions()[i].dy,
{
}

/// A square of the pitch.
#[derive(Debug, Clone, Copy, PartialEq, Eq, Structural, Hash, PartialOrd, Ord)]
pub struct Position {
    pub x: Coord,
    pub y: Coord,
}

/// A coordinate that does not fit the requested integer type.
#[derive(Debug, Clone, Copy, PartialEq, Eq, Structural)]
pub struct CoordOutOfRange;

impl Position {
    pub fn new(xy: (Coord, Coord)) -> (r: Position)
        ensures
            r.x == xy.0,
            r.y == xy.1,
    {
        Position { x: xy.0, y: xy.1 }
    }

    /// Coordinates as array indices; an error for a negative coordinate.
    pub fn to_usize(&self) -> (r: Result<(usize, usize), CoordOutOfRange>)
        ensures
            r is Ok <==> (self.x >= 0 && self.y >= 0),
            r matches Ok(p) ==> p.0 == self.x && p.1 == self.y,
    {
        if self.x < 0 || self.y < 0 {
            return Err(CoordOutOfRange);
        }
        Ok((self.x as usize, self.y as usize))
    }

    /// A square from array indices; an error when an index exceeds the coordinate range.
    pub fn from_usize(x: usize, y: usize) -> (r: Result<Position, CoordOutOfRange>)
        ensures
            r is Ok <==> (x <= i8::MAX && y <= i8::MAX),
            r matches Ok(p) ==> p.x == x && p.y == y,
    {
        if x > 127 || y > 127 {
            return Err(CoordOutOfRange);
        }
        Ok(Position { x: x as i8, y: y as i8 })
    }

    pub open spec fn spec_distance_to(self, other: Position) -> int {
        max_int(abs(self.x - other.x), abs(self.y - other.y))
    }

    /// Chebyshev distance between two squares.
    pub fn distance_to(&self, other: &Position) -> (r: Coord)
        requires
            i8::MIN < self.x - other.x <= i8::MAX,
            i8::MIN < self.y - other.y <= i8::MAX,
        ensures
            r == self.spec_distance_to(*other),
    {
        let d = self.sub_position(*other);
        d.distance()
    }

    pub open spec fn spec_is_out(self) -> bool {
        self.x <= 0 || self.x >= WIDTH_ - 1 || self.y <= 0 || self.y >= HEIGHT_ - 1
    }

    /// Outside the playable part of the physical pitch array.
    pub fn is_out(&self) -> (r: bool)
        ensures
            r == self.spec_is_out(),
    {
        self.x <= 0 || self.x >= WIDTH_ - 1 || self.y <= 0 || self.y >= HEIGHT_ - 1
    }

    /// Every square of the physical pitch, column by column.
    pub fn all_positions() -> (r: Vec<Position>)
        ensures
            r@.len() == WIDTH * HEIGHT,
            forall|i: int|
                0 <= i < WIDTH * HEIGHT ==> #[trigger] r@[i] == (Position {
                    x: (i / HEIGHT as int) as i8,
                    y: (i % HEIGHT as int) as i8,
                }),
    {
        let pairs = crate::outside::cartesian_coords(0, WIDTH_ as i16 - 1, 0, HEIGHT_ as i16 - 1);
        let mut out: Vec<Position> = Vec::new();
        let mut i: usize = 0;
        while i < pairs.len()
            invariant
                pairs@.len() == WIDTH * HEIGHT,
                i <= pairs@.len(),
                out@.len() == i,
                forall|j: int|
                    0 <= j < WIDTH * HEIGHT ==> #[trigger] pairs@[j] == ((j / HEIGHT as int) as i16, (j
                        % HEIGHT as int) as i16),
                forall|j: int|
                    0 <= j < i ==> #[trigger] out@[j] == (Position {
                        x: (j / HEIGHT as int) as i8,
                        y: (j % HEIGHT as int) as i8,
                    }),
            decreases pairs@.len() - i,
        {
            let p = pairs[i];
            proof {
                let k = i as int;
                assert(0 <= k / 17 <= 27) by (nonlinear_arith)
                    requires
                        0 <= k < 28 * 17,
                ;
                assert(0 <= k % 17 < 17);
            }
            out.push(Position { x: p.0 as i8, y: p.1 as i8 });
            i += 1;
        }
        out
    }

    /// The square reached by taking step `d`.
    pub fn add_direction(self, d: Direction) -> (r: Position)
        requires
            i8::MIN <= self.x + d.dx <= i8::MAX,
            i8::MIN <= self.y + d.dy <= i8::MAX,
        ensures
            r.x == self.x + d.dx,
            r.y == self.y + d.dy,
    {
        Position { x: self.x + d.dx, y: self.y + d.dy }
    }

    /// The square reached by taking step `d` backwards.
    pub fn sub_direction(self, d: Direction) -> (r: Position)
        requires
            i8::MIN <= self.x - d.dx <= i8::MAX,
            i8::MIN <= self.y - d.dy <= i8::MAX,
        ensures
            r.x == self.x - d.dx,
            r.y == self.y - d.dy,
    {
        Position { x: self.x - d.dx, y: self.y - d.dy }
    }

    /// The step leading from `other` to `self`.
    pub fn sub_position(self, other: Position) -> (r: Direction)
        requires
            i8::MIN <= self.x - other.x <= i8::MAX,
            i8::MIN <= self.y - other.y <= i8::MAX,
        ensures
            r.dx == self.x - other.x,
            r.dy == self.y - other.y,
    {
        Direction { dx: self.x - other.x, dy: self.y - other.y }
    }
}

/// Taking a step and then taking it back returns to the start square.
pub proof fn lemma_step_and_back(p: Position, d: Direction)
    requires
        i8::MIN <= p.x + d.dx <= i8::MAX,
        i8::MIN <= p.y + d.dy <= i8::MAX,
    ensures
        (Position { x: (p.x + d.dx) as i8, y: (p.y + d.dy) as i8 }).x - d.dx == p.x,
        (Position { x: (p.x + d.dx) as i8, y: (p.y + d.dy) as i8 }).y - d.dy == p.y,
{
}

#[derive(Debug, Clone, Copy, PartialEq, Eq, Structural, Hash, PartialOrd, Ord)]
pub enum Action {
    Positional(PosAT, Position),
    Simple(SimpleAT),
}

#[derive(Debug, PartialEq, Eq, Hash)]
pub enum ActionChoice {
    Positional(Vec<Position>),
    Simple,
}

#[derive(Debug, Clone, Copy, PartialEq, Eq, Structural, Hash)]
pub enum PlayerStatus {
    Up,
    Down,
    Stunned,
}

#[derive(Debug, Clone, Copy, PartialEq, Eq, Structural, Hash)]
pub enum DugoutPlace {
    Reserves,
    Heated,
    KnockOut,
    Injuried,
    Ejected,
}

#[derive(Debug, Clone, Copy, PartialEq, Eq, Structural, Hash)]
pub enum BallState {
    OffPitch,
    OnGround(Position),
    Carried(PlayerID),
    InAir(Position),
}

#[derive(Debug, Clone, Copy, PartialEq, Eq, Structural, Hash, PartialOrd, Ord)]
pub enum Weather {
    Nice,
    Sunny,
    Rain,
    Blizzard,
    Sweltering,
}

#[derive(Debug, Clone, Copy, PartialEq, Eq, Hash)]
pub enum SomeProcInput {
    Action(Action),
    Roll(RollResult),
}

#[derive(Debug, Clone, Copy, PartialEq, Eq, Hash)]
pub enum ProcInput {
    Nothing,
    Action(Action),
    Roll(RollResult),
}

impl SomeProcInput {
    pub fn from_action(action: Action) -> (r: SomeProcInput)
        ensures
            r == SomeProcInput::Action(action),
    {
        SomeProcInput::Action(action)
    }

    pub fn from_roll(roll: RollResult) -> (r: SomeProcInput)
        ensures
            r == SomeProcInput::Roll(roll),
    {
        SomeProcInput::Roll(roll)
    }
}

pub open spec fn spec_proc_input_from(input: SomeProcInput) -> ProcInput {
    match input {
        SomeProcInput::Action(action) => ProcInput::Action(action),
        SomeProcInput::Roll(roll) => ProcInput::Roll(roll),
    }
}

impl ProcInput {
    /// The procedure input carrying the same action or roll.
    pub fn from_some(input: SomeProcInput) -> (r: ProcInput)
        ensures
            r == spec_proc_input_from(input),
            r != ProcInput::Nothing,
    {
        match input {
            SomeProcInput::Action(action) => ProcInput::Action(action),
            SomeProcInput::Roll(roll) => ProcInput::Roll(roll),
        }
    }
}

#[derive(Debug, PartialEq, Eq, Structural, Hash, Clone, Copy)]
pub enum MicroStepState {
    RunAgain,
    NeedAction,
    NeedRoll,
    GameOver,
}

#[derive(Debug, Clone, Copy, PartialEq, Eq, Structural, Hash)]
pub struct BlockActionChoice {
    pub num_dices: NumBlockDices,
    pub position: Position,
}

#[derive(Debug, Clone, Copy, PartialEq, Eq, Structural, Hash)]
pub enum InjuryOutcome {
    Stunned,
    KO,
    Casualty,
}

} // verus!
