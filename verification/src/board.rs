use std::ops::RangeInclusive;

use vstd::prelude::*;
use vstd::string::StringExecFns;

use crate::model::{
    Coord, Position, TeamType, HEIGHT, TEAM_SIZE, WIDTH, div_trunc, max_int, min_int,
};

verus! {

/// The logical board in play, inset into the low corner of the physical pitch arrays.
#[derive(Debug, Clone, Copy, PartialEq, Eq, Structural, Hash)]
pub struct BoardDims {
    /// Width including the out-of-bounds border.
    pub width: Coord,
    /// Height including the out-of-bounds border.
    pub height: Coord,
    /// Players fielded per team.
    pub team_size: usize,
}

/// Split of `ph` playable rows into `(line of scrimmage rows, rows of each wing)`.
pub open spec fn spec_bands(ph: int) -> (int, int) {
    let cap: int = if ph > 0 && ph % 2 == 1 { 7 } else { 6 };
    let wing0: int = if ph - cap > 0 { (ph - cap) / 2 } else { 0 };
    let wing: int = if wing0 == 0 && ph - 2 >= 5 { 1 } else { wing0 };
    (ph - 2 * wing, wing)
}

/// The rules a board must satisfy, in the order they are checked.
pub open spec fn width_ok(width: int) -> bool {
    width - 2 >= 8 && (width - 2) % 2 == 0
}

pub open spec fn height_ok(height: int) -> bool {
    height - 2 >= 3
}

pub open spec fn team_size_ok(team_size: int) -> bool {
    team_size >= 1
}

pub open spec fn capacity_ok(width: int, height: int, team_size: int) -> bool {
    width <= WIDTH && height <= HEIGHT && team_size <= TEAM_SIZE
}

pub open spec fn valid_dims(width: int, height: int, team_size: int) -> bool {
    &&& width_ok(width)
    &&& height_ok(height)
    &&& team_size_ok(team_size)
    &&& capacity_ok(width, height, team_size)
}

pub open spec fn starts_with(s: Seq<char>, p: Seq<char>) -> bool {
    p.len() <= s.len() && s.subrange(0, p.len() as int) == p
}

pub open spec fn ends_with(s: Seq<char>, p: Seq<char>) -> bool {
    p.len() <= s.len() && s.subrange(s.len() - p.len(), s.len() as int) == p
}

pub open spec fn width_rule_text() -> Seq<char> {
    "playable width must be even and >= 8, got "@
}

pub open spec fn height_rule_text() -> Seq<char> {
    "playable height must be >= 3, got "@
}

pub open spec fn team_rule_text() -> Seq<char> {
    "team_size must be >= 1, got "@
}

pub open spec fn capacity_rule_text() -> Seq<char> {
    " exceeds compiled capacity 28x17/11 \u{2014} recompile with larger BOARD_SIZE_W/BOARD_SIZE_H/BOARD_PLAYERS"@
}

impl BoardDims {
    pub open spec fn valid(self) -> bool {
        valid_dims(self.width as int, self.height as int, self.team_size as int)
    }

    pub open spec fn spec_los_rows(self) -> int {
        spec_bands(self.height - 2).0
    }

    pub open spec fn spec_wing_rows(self) -> int {
        spec_bands(self.height - 2).1
    }

    pub open spec fn spec_los_home_x(self) -> int {
        div_trunc(self.width as int, 2)
    }

    pub open spec fn spec_los_away_x(self) -> int {
        div_trunc(self.width as int, 2) - 1
    }

    pub open spec fn spec_los_x(self, team: TeamType) -> int {
        match team {
            TeamType::Home => self.spec_los_home_x(),
            TeamType::Away => self.spec_los_away_x(),
        }
    }

    pub open spec fn spec_endzone_x(self, team: TeamType) -> int {
        match team {
            TeamType::Home => 1,
            TeamType::Away => self.width - 2,
        }
    }

    pub open spec fn spec_los_to_endzone_distance(self) -> int {
        div_trunc(self.width as int, 2) - 1
    }

    pub open spec fn spec_ma_cap(self) -> int {
        max_int(self.spec_los_to_endzone_distance() - 3, 0)
    }

    pub open spec fn spec_scatter_axis(self) -> int {
        max_int(min_int(self.width as int, self.height as int) - 2, 1)
    }

    pub open spec fn spec_scatter_divisor(self) -> int {
        (12 + self.spec_scatter_axis() - 1) / self.spec_scatter_axis()
    }

    pub open spec fn spec_is_out(self, pos: Position) -> bool {
        pos.x <= 0 || pos.x >= self.width - 1 || pos.y <= 0 || pos.y >= self.height - 1
    }

    pub open spec fn spec_is_on_team_side(self, pos: Position, team: TeamType) -> bool {
        match team {
            TeamType::Home => pos.x >= div_trunc(self.width as int, 2),
            TeamType::Away => pos.x < div_trunc(self.width as int, 2),
        }
    }

    /// A board; the caller must pass one that satisfies every rule.
    pub fn new(width: Coord, height: Coord, team_size: usize) -> (r: BoardDims)
        requires
            valid_dims(width as int, height as int, team_size as int),
        ensures
            r.width == width,
            r.height == height,
            r.team_size == team_size,
            r.valid(),
    {
        BoardDims { width, height, team_size }
    }

    /// The width or height of a board given its playable squares `playable`, or `full` when
    /// unset: the border adds one square on each side.
    pub open spec fn spec_axis(playable: Option<usize>, full: Coord) -> Coord {
        match playable {
            Some(p) => (p + 2) as Coord,
            None => full,
        }
    }

    /// The board with `playable_width` by `playable_height` squares inside the border and
    /// `team_size` players a side, each one left unset keeping the full board's; or the
    /// message of the first rule it breaks.
    pub fn try_from_playable(
        playable_width: Option<usize>,
        playable_height: Option<usize>,
        team_size: Option<usize>,
    ) -> (r: Result<BoardDims, String>)
        requires
            playable_width matches Some(w) ==> w + 2 <= usize::MAX && (w + 2) as Coord >= -126,
            playable_height matches Some(h) ==> h + 2 <= usize::MAX && (h + 2) as Coord >= -126,
        ensures
            ({
                let w = BoardDims::spec_axis(playable_width, 28);
                let h = BoardDims::spec_axis(playable_height, 17);
                let t = match team_size {
                    Some(t) => t,
                    None => 11,
                };
                &&& r is Ok <==> valid_dims(w as int, h as int, t as int)
                &&& r matches Ok(d) ==> d.width == w && d.height == h && d.team_size == t
            }),
    {
        let d = BoardDims::default();
        let width = match playable_width {
            Some(pw) => (pw + 2) as Coord,
            None => d.width,
        };
        let height = match playable_height {
            Some(ph) => (ph + 2) as Coord,
            None => d.height,
        };
        let team_size = match team_size {
            Some(t) => t,
            None => d.team_size,
        };
        BoardDims::try_new(width, height, team_size)
    }

    /// A board, or the message of the first rule it breaks: even playable width of at least
    /// 8, playable height of at least 3, at least one player, and within the compiled capacity.
    pub fn try_new(width: Coord, height: Coord, team_size: usize) -> (r: Result<BoardDims, String>)
        requires
            width >= -126,
            height >= -126,
        ensures
            r is Ok <==> valid_dims(width as int, height as int, team_size as int),
            r matches Ok(d) ==> d.width == width && d.height == height && d.team_size == team_size,
            r matches Err(m) ==> {
                if !width_ok(width as int) {
                    starts_with(m@, width_rule_text())
                } else if !height_ok(height as int) {
                    starts_with(m@, height_rule_text())
                } else if !team_size_ok(team_size as int) {
                    starts_with(m@, team_rule_text())
                } else {
                    starts_with(m@, "board "@) && ends_with(m@, capacity_rule_text())
                }
            },
    {
        let pw = width - 2;
        let ph = height - 2;
        if !(pw >= 8 && pw % 2 == 0) {
            let t = String::from_str("playable width must be even and >= 8, got ");
            let m = t.concat(pw.to_string().as_str());
            assert(m@.subrange(0, width_rule_text().len() as int) =~= width_rule_text());
            return Err(m);
        }
        if ph < 3 {
            let t = String::from_str("playable height must be >= 3, got ");
            let m = t.concat(ph.to_string().as_str());
            assert(m@.subrange(0, height_rule_text().len() as int) =~= height_rule_text());
            return Err(m);
        }
        if team_size < 1 {
            let t = String::from_str("team_size must be >= 1, got ");
            let m = t.concat(team_size.to_string().as_str());
            assert(m@.subrange(0, team_rule_text().len() as int) =~= team_rule_text());
            return Err(m);
        }
        if !(width as usize <= WIDTH && height as usize <= HEIGHT && team_size <= TEAM_SIZE) {
            let m = String::from_str("board ");
            let ghost p = m@;
            let m1 = m.concat(width.to_string().as_str());
            assert(m1@.subrange(0, p.len() as int) =~= p);
            let m2 = m1.concat("x");
            assert(m2@.subrange(0, p.len() as int) =~= p);
            let m3 = m2.concat(height.to_string().as_str());
            assert(m3@.subrange(0, p.len() as int) =~= p);
            let m4 = m3.concat("/");
            assert(m4@.subrange(0, p.len() as int) =~= p);
            let m5 = m4.concat(team_size.to_string().as_str());
            assert(m5@.subrange(0, p.len() as int) =~= p);
            let m = m5.concat(
                " exceeds compiled capacity 28x17/11 \u{2014} recompile with larger BOARD_SIZE_W/BOARD_SIZE_H/BOARD_PLAYERS",
            );
            assert(m@.subrange(0, p.len() as int) =~= p);
            assert(m@.subrange(m@.len() - capacity_rule_text().len(), m@.len() as int)
                =~= capacity_rule_text());
            return Err(m);
        }
        let dims = BoardDims { width, height, team_size };
        proof {
            lemma_bands_tile_the_pitch(dims);
        }
        Ok(dims)
    }

    /// Split the playable rows into `(los_rows, wing_rows)`, wings equal on both sides.
    fn bands(&self) -> (r: (Coord, Coord))
        requires
            self.height >= -119,
        ensures
            r.0 == spec_bands(self.height - 2).0,
            r.1 == spec_bands(self.height - 2).1,
    {
        let ph = self.height - 2;
        let cap: Coord = if ph % 2 == 1 { 7 } else { 6 };
        let mut wing: Coord = if ph - cap > 0 { (ph - cap) / 2 } else { 0 };
        if wing == 0 && ph - 2 >= 5 {
            wing = 1;
        }
        (ph - 2 * wing, wing)
    }

    /// Rows in the line-of-scrimmage band.
    pub fn los_rows(&self) -> (r: Coord)
        requires
            self.height >= -119,
        ensures
            r == self.spec_los_rows(),
    {
        self.bands().0
    }

    /// Rows in each wing.
    pub fn wing_rows(&self) -> (r: Coord)
        requires
            self.height >= -119,
        ensures
            r == self.spec_wing_rows(),
    {
        self.bands().1
    }

    /// Players a team may set up in one wing: half the wing's rows, rounded up.
    pub fn max_players_per_wing(&self) -> (r: usize)
        requires
            self.height >= -119,
        ensures
            r == (self.spec_wing_rows() + 1) / 2,
    {
        ((self.wing_rows() + 1) / 2) as usize
    }

    /// Players a team must put on the line of scrimmage: three, or the whole band if narrower.
    pub fn min_players_on_los(&self) -> (r: usize)
        requires
            self.height >= -119,
        ensures
            r == (min_int(self.spec_los_rows(), 3)) as usize,
    {
        let los = self.los_rows();
        let m = if los <= 3 { los } else { 3 };
        m as usize
    }

    pub fn los_home_x(&self) -> (r: Coord)
        ensures
            r == self.spec_los_home_x(),
    {
        self.width / 2
    }

    pub fn los_away_x(&self) -> (r: Coord)
        ensures
            r == self.spec_los_away_x(),
    {
        self.width / 2 - 1
    }

    pub fn los_x(&self, team: TeamType) -> (r: Coord)
        ensures
            r == self.spec_los_x(team),
    {
        match team {
            TeamType::Home => self.los_home_x(),
            TeamType::Away => self.los_away_x(),
        }
    }

    /// Rows of the line-of-scrimmage band.
    pub fn los_y_range(&self) -> (r: RangeInclusive<Coord>)
        requires
            self.height >= -119,
        ensures
            r@.start == self.spec_wing_rows() + 1,
            r@.end == self.spec_wing_rows() + self.spec_los_rows(),
            !r@.exhausted,
    {
        let (los, wing) = self.bands();
        RangeInclusive::new(wing + 1, wing + los)
    }

    /// Rows of the north wing; empty when the board has no wings.
    pub fn north_wing_y_range(&self) -> (r: RangeInclusive<Coord>)
        requires
            self.height >= -119,
        ensures
            r@.start == 1,
            r@.end == self.spec_wing_rows(),
            !r@.exhausted,
    {
        RangeInclusive::new(1, self.wing_rows())
    }

    /// Rows of the south wing; empty when the board has no wings.
    pub fn south_wing_y_range(&self) -> (r: RangeInclusive<Coord>)
        requires
            self.height >= -119,
        ensures
            r@.start == self.spec_wing_rows() + self.spec_los_rows() + 1,
            r@.end == self.height - 2,
            !r@.exhausted,
    {
        let (los, wing) = self.bands();
        RangeInclusive::new(wing + los + 1, self.height - 2)
    }

    pub fn endzone_x(&self, team: TeamType) -> (r: Coord)
        requires
            self.width >= -126,
        ensures
            r == self.spec_endzone_x(team),
    {
        match team {
            TeamType::Home => 1,
            TeamType::Away => self.width - 2,
        }
    }

    /// Squares from a team's line of scrimmage to the endzone it attacks.
    pub fn los_to_endzone_distance(&self) -> (r: Coord)
        ensures
            r == self.spec_los_to_endzone_distance(),
    {
        self.width / 2 - 1
    }

    /// The greatest MA that cannot reach the endzone from the line of scrimmage in one turn.
    pub fn ma_cap(&self) -> (r: Coord)
        ensures
            r == self.spec_ma_cap(),
    {
        let d = self.los_to_endzone_distance() - 3;
        if d >= 0 {
            d
        } else {
            0
        }
    }

    /// Cap on kickoff scatter and throw-in distances.
    pub fn max_scatter(&self) -> (r: Coord)
        ensures
            r == div_trunc(self.width as int, 2),
    {
        self.width / 2
    }

    /// Divisor applied to kickoff-deviate and throw-in rolls on a narrow board.
    pub fn scatter_divisor(&self) -> (r: Coord)
        requires
            -126 <= self.width,
            -126 <= self.height,
            min_int(self.width as int, self.height as int) - 2 <= 115,
        ensures
            r == self.spec_scatter_divisor(),
    {
        let m = if self.width <= self.height { self.width } else { self.height };
        let axis: Coord = if m - 2 >= 1 { m - 2 } else { 1 };
        (12 + axis - 1) / axis
    }

    pub fn kickoff_table_enabled(&self) -> (r: bool)
        ensures
            r == (self.team_size >= 7),
    {
        self.team_size >= 7
    }

    pub fn roster_per_team(&self) -> (r: usize)
        requires
            self.team_size < usize::MAX,
        ensures
            r == self.team_size + 1,
    {
        self.team_size + 1
    }

    /// Out of bounds of the logical board.
    pub fn is_out(&self, pos: Position) -> (r: bool)
        requires
            self.width >= -127,
            self.height >= -127,
        ensures
            r == self.spec_is_out(pos),
    {
        pos.x <= 0 || pos.x >= self.width - 1 || pos.y <= 0 || pos.y >= self.height - 1
    }

    pub fn is_on_team_side(&self, pos: Position, team: TeamType) -> (r: bool)
        ensures
            r == self.spec_is_on_team_side(pos, team),
    {
        match team {
            TeamType::Home => pos.x >= self.width / 2,
            TeamType::Away => pos.x < self.width / 2,
        }
    }
}

impl Default for BoardDims {
    /// The full compiled board.
    fn default() -> (r: Self)
        ensures
            r.width == 28,
            r.height == 17,
            r.team_size == 11,
    {
        BoardDims { width: 28, height: 17, team_size: 11 }
    }
}

/// On any board with at least one playable row the line of scrimmage and two equal wings
/// tile the playable rows exactly, the line keeps at least one row and at most seven, and
/// the three row ranges meet end to end.
pub proof fn lemma_bands_tile_the_pitch(dims: BoardDims)
    requires
        dims.height - 2 >= 1,
    ensures
        dims.spec_los_rows() >= 1,
        dims.spec_los_rows() <= 7,
        dims.spec_wing_rows() >= 0,
        dims.spec_los_rows() + 2 * dims.spec_wing_rows() == dims.height - 2,
        dims.spec_wing_rows() + dims.spec_los_rows() == dims.height - 2 - dims.spec_wing_rows(),
{
}

/// Mirroring a column in x (`x -> width - 1 - x`) on a board of even width swaps the two
/// halves, the two lines of scrimmage and the two endzones.
pub proof fn lemma_mirror_swaps_halves(dims: BoardDims, x: int)
    requires
        dims.width >= 0,
        dims.width % 2 == 0,
    ensures
        (x >= dims.spec_los_home_x()) <==> (dims.width - 1 - x < dims.spec_los_home_x()),
        dims.width - 1 - dims.spec_los_home_x() == dims.spec_los_away_x(),
        dims.width - 1 - dims.spec_endzone_x(TeamType::Home) == dims.spec_endzone_x(TeamType::Away),
{
}

/// The line of scrimmage and the wings are symmetric about the centre row.
pub proof fn lemma_bands_symmetric_in_y(dims: BoardDims)
    requires
        dims.height - 2 >= 1,
    ensures
        dims.height - 1 - (dims.spec_wing_rows() + dims.spec_los_rows()) == dims.spec_wing_rows()
            + 1,
        dims.height - 1 - 1 == dims.height - 2,
        dims.height - 1 - dims.spec_wing_rows() == dims.spec_wing_rows() + dims.spec_los_rows()
            + 1,
{
}

/// On every valid board a player at the stock movement cap plus two go-for-its falls short
/// of the endzone from a standing start on the line of scrimmage.
pub proof fn lemma_ma_cap_falls_short(dims: BoardDims)
    requires
        dims.valid(),
    ensures
        dims.spec_ma_cap() + 2 < dims.spec_los_to_endzone_distance(),
{
}

/// The largest 2D6 roll divided by the scatter divisor fits the narrower playable axis, and
/// the divisor is 1 once that axis holds 12 squares.
pub proof fn lemma_scatter_divisor_fits(dims: BoardDims)
    ensures
        dims.spec_scatter_divisor() >= 1,
        12int / dims.spec_scatter_divisor() <= dims.spec_scatter_axis(),
        dims.spec_scatter_axis() >= 12 ==> dims.spec_scatter_divisor() == 1,
{
    let a = dims.spec_scatter_axis();
    let d = dims.spec_scatter_divisor();
    assert(a >= 1);
    assert(d >= 1) by (nonlinear_arith)
        requires
            a >= 1,
            d == (12 + a - 1) / a,
    ;
    assert(12int / d <= a) by (nonlinear_arith)
        requires
            a >= 1,
            d == (12 + a - 1) / a,
            d >= 1,
    ;
    assert(a >= 12 ==> d == 1) by (nonlinear_arith)
        requires
            a >= 1,
            d == (12 + a - 1) / a,
    ;
}

/// A board can always satisfy its own line-of-scrimmage requirement.
pub proof fn lemma_setup_caps_fit_the_bands(dims: BoardDims)
    requires
        dims.valid(),
    ensures
        min_int(dims.spec_los_rows(), 3) <= dims.spec_los_rows(),
        min_int(dims.spec_los_rows(), 3) >= 1,
        (dims.spec_wing_rows() + 1) / 2 <= dims.spec_wing_rows() || dims.spec_wing_rows() == 0,
{
    lemma_bands_tile_the_pitch(dims);
}

} // verus!
