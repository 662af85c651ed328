//! Rules of the game that are functions of the board and the players on the pitch: block
//! dice, legal setups, the kickoff aim, tackle zones, and catch and pass rolls.

use vstd::prelude::*;

use crate::board::BoardDims;
use crate::dice::{spec_truncate_to, D6Target};
use crate::model::{abs, div_trunc, min_int, PlayerID, PlayerStatus, Position, TeamType, Weather};
use crate::player::FieldedPlayer;
use crate::table::NumBlockDices;

verus! {

/// The two squares touch: they are one king's step apart.
pub open spec fn adjacent(a: Position, b: Position) -> bool {
    a.spec_distance_to(b) == 1
}

fn is_adjacent(a: Position, b: Position) -> (r: bool)
    ensures
        r == adjacent(a, b),
{
    let dx: i16 = a.x as i16 - b.x as i16;
    let dy: i16 = a.y as i16 - b.y as i16;
    let ax: i16 = if dx < 0 { -dx } else { dx };
    let ay: i16 = if dy < 0 { -dy } else { dy };
    let m: i16 = if ax >= ay { ax } else { ay };
    m == 1
}

/// `o` puts a tackle zone on `q`, unless `o` is the player `except`.
pub open spec fn marks_except(o: FieldedPlayer, q: FieldedPlayer, except: PlayerID) -> bool {
    &&& adjacent(o.position, q.position)
    &&& o.stats.team != q.stats.team
    &&& o.status == PlayerStatus::Up
    &&& o.id != except
}

/// Tackle zones on `q` from the players on the pitch, not counting the player `except`.
pub open spec fn spec_tz_on_except(players: Seq<FieldedPlayer>, q: FieldedPlayer, except: PlayerID) -> nat {
    players.filter(|o: FieldedPlayer| marks_except(o, q, except)).len()
}

/// `a` assists `attacker` against `defender`: a free team-mate of the attacker standing
/// next to the defender.
pub open spec fn assists_attacker(
    players: Seq<FieldedPlayer>,
    attacker: FieldedPlayer,
    defender: FieldedPlayer,
    a: FieldedPlayer,
) -> bool {
    &&& adjacent(a.position, defender.position)
    &&& a.id != attacker.id
    &&& a.stats.team == attacker.stats.team
    &&& a.status == PlayerStatus::Up
    &&& spec_tz_on_except(players, a, defender.id) == 0
}

/// `d` assists `defender` against `attacker` blocking from `attacker_pos`: a free team-mate
/// of the defender standing next to that square.
pub open spec fn assists_defender(
    players: Seq<FieldedPlayer>,
    attacker: FieldedPlayer,
    attacker_pos: Position,
    defender: FieldedPlayer,
    d: FieldedPlayer,
) -> bool {
    &&& adjacent(d.position, attacker_pos)
    &&& d.id != defender.id
    &&& d.stats.team == defender.stats.team
    &&& d.status == PlayerStatus::Up
    &&& spec_tz_on_except(players, d, attacker.id) == 0
}

pub open spec fn attacker_strength(
    players: Seq<FieldedPlayer>,
    attacker: FieldedPlayer,
    defender: FieldedPlayer,
) -> int {
    attacker.stats.str_ + players.filter(
        |a: FieldedPlayer| assists_attacker(players, attacker, defender, a),
    ).len()
}

pub open spec fn defender_strength(
    players: Seq<FieldedPlayer>,
    attacker: FieldedPlayer,
    attacker_pos: Position,
    defender: FieldedPlayer,
) -> int {
    defender.stats.str_ + players.filter(
        |d: FieldedPlayer| assists_defender(players, attacker, attacker_pos, defender, d),
    ).len()
}

/// The block dice for an attacker of strength `a` against a defender of strength `d`.
pub open spec fn spec_block_dice(a: int, d: int) -> NumBlockDices {
    if a > 2 * d {
        NumBlockDices::Three
    } else if a > d {
        NumBlockDices::Two
    } else if a == d {
        NumBlockDices::One
    } else if 2 * a < d {
        NumBlockDices::ThreeUphill
    } else {
        NumBlockDices::TwoUphill
    }
}

pub(crate) fn tz_on_except(players: &[FieldedPlayer], q: &FieldedPlayer, except: PlayerID) -> (r: usize)
    ensures
        r == spec_tz_on_except(players@, *q, except),
{
    let ghost f = |o: FieldedPlayer| marks_except(o, *q, except);
    let mut c: usize = 0;
    let mut i: usize = 0;
    while i < players.len()
        invariant
            i <= players@.len(),
            c <= i,
            f == (|o: FieldedPlayer| marks_except(o, *q, except)),
            c == players@.take(i as int).filter(f).len(),
        decreases players@.len() - i,
    {
        let o = &players[i];
        if is_adjacent(o.position, q.position) && o.stats.team != q.stats.team
            && o.has_tackle_zone() && o.id != except {
            c += 1;
        }
        proof {
            assert(players@.take(i + 1).drop_last() =~= players@.take(i as int));
            reveal_with_fuel(Seq::filter, 1);
        }
        i += 1;
    }
    assert(players@.take(players@.len() as int) =~= players@);
    c
}

fn count_attacker_assists(
    players: &[FieldedPlayer],
    attacker: &FieldedPlayer,
    defender: &FieldedPlayer,
) -> (r: usize)
    ensures
        r == players@.filter(|a: FieldedPlayer| assists_attacker(players@, *attacker, *defender, a)).len(),
{
    let ghost f = |a: FieldedPlayer| assists_attacker(players@, *attacker, *defender, a);
    let mut c: usize = 0;
    let mut i: usize = 0;
    while i < players.len()
        invariant
            i <= players@.len(),
            c <= i,
            f == (|a: FieldedPlayer| assists_attacker(players@, *attacker, *defender, a)),
            c == players@.take(i as int).filter(f).len(),
        decreases players@.len() - i,
    {
        let a = &players[i];
        if is_adjacent(a.position, defender.position) && a.id != attacker.id
            && a.stats.team == attacker.stats.team && a.has_tackle_zone()
            && tz_on_except(players, a, defender.id) == 0 {
            c += 1;
        }
        proof {
            assert(players@.take(i + 1).drop_last() =~= players@.take(i as int));
            reveal_with_fuel(Seq::filter, 1);
        }
        i += 1;
    }
    assert(players@.take(players@.len() as int) =~= players@);
    c
}

fn count_defender_assists(
    players: &[FieldedPlayer],
    attacker: &FieldedPlayer,
    attacker_pos: Position,
    defender: &FieldedPlayer,
) -> (r: usize)
    ensures
        r == players@.filter(
            |d: FieldedPlayer| assists_defender(players@, *attacker, attacker_pos, *defender, d),
        ).len(),
{
    let ghost f = |d: FieldedPlayer| assists_defender(players@, *attacker, attacker_pos, *defender, d);
    let mut c: usize = 0;
    let mut i: usize = 0;
    while i < players.len()
        invariant
            i <= players@.len(),
            c <= i,
            f == (|d: FieldedPlayer| assists_defender(players@, *attacker, attacker_pos, *defender, d)),
            c == players@.take(i as int).filter(f).len(),
        decreases players@.len() - i,
    {
        let d = &players[i];
        if is_adjacent(d.position, attacker_pos) && d.id != defender.id
            && d.stats.team == defender.stats.team && d.has_tackle_zone()
            && tz_on_except(players, d, attacker.id) == 0 {
            c += 1;
        }
        proof {
            assert(players@.take(i + 1).drop_last() =~= players@.take(i as int));
            reveal_with_fuel(Seq::filter, 1);
        }
        i += 1;
    }
    assert(players@.take(players@.len() as int) =~= players@);
    c
}

/// The block dice when `attacker`, standing on `attacker_pos`, blocks `defender`, given the
/// players on the pitch. Each side adds one to its strength for every team-mate next to the
/// opposing player (next to `attacker_pos` for the defence) who has a tackle zone and is
/// marked by no opponent but the one being blocked or blocking.
pub fn get_blockdices_from(
    players: &[FieldedPlayer],
    attacker: &FieldedPlayer,
    attacker_pos: Position,
    defender: &FieldedPlayer,
) -> (r: NumBlockDices)
    ensures
        r == spec_block_dice(
            attacker_strength(players@, *attacker, *defender),
            defender_strength(players@, *attacker, attacker_pos, *defender),
        ),
{
    let a: u128 = attacker.stats.str_ as u128 + count_attacker_assists(players, attacker, defender) as u128;
    let d: u128 = defender.stats.str_ as u128 + count_defender_assists(
        players,
        attacker,
        attacker_pos,
        defender,
    ) as u128;
    if a > 2 * d {
        NumBlockDices::Three
    } else if a > d {
        NumBlockDices::Two
    } else if a == d {
        NumBlockDices::One
    } else if 2 * a < d {
        NumBlockDices::ThreeUphill
    } else {
        NumBlockDices::TwoUphill
    }
}


/// `p` is in the line-of-scrimmage band on `team`'s scrimmage column.
pub open spec fn on_los(dims: BoardDims, team: TeamType, p: Position) -> bool {
    &&& p.x == dims.spec_los_x(team)
    &&& dims.spec_wing_rows() + 1 <= p.y <= dims.spec_wing_rows() + dims.spec_los_rows()
}

/// `p` is in a row of the south wing.
pub open spec fn on_south_wing(dims: BoardDims, p: Position) -> bool {
    dims.spec_wing_rows() + dims.spec_los_rows() + 1 <= p.y <= dims.height - 2
}

/// `p` is in a row of the north wing.
pub open spec fn on_north_wing(dims: BoardDims, p: Position) -> bool {
    1 <= p.y <= dims.spec_wing_rows()
}

/// A player of `team` may stand on `p` at setup: in bounds and on the team's own side of
/// its scrimmage column.
pub open spec fn placed_ok(dims: BoardDims, team: TeamType, p: Position) -> bool {
    &&& !dims.spec_is_out(p)
    &&& !(team == TeamType::Home && p.x < dims.spec_los_x(team))
    &&& !(team == TeamType::Away && p.x > dims.spec_los_x(team))
}

/// Counted as a line-of-scrimmage player.
pub open spec fn counts_on_los(dims: BoardDims, team: TeamType, p: Position) -> bool {
    on_los(dims, team, p)
}

/// Counted as a south-wing player: off the line, in a south-wing row.
pub open spec fn counts_south(dims: BoardDims, team: TeamType, p: Position) -> bool {
    !on_los(dims, team, p) && on_south_wing(dims, p)
}

/// Counted as a north-wing player: off the line, in a north-wing row and not a south one.
pub open spec fn counts_north(dims: BoardDims, team: TeamType, p: Position) -> bool {
    !on_los(dims, team, p) && !on_south_wing(dims, p) && on_north_wing(dims, p)
}

/// A setup of `team` with its players on the squares `on_pitch` and `bench` more in
/// reserve is legal: as many on the pitch as the team size allows, but no more; each on its
/// own side and in bounds; at most two per wing; and at least three on the line of
/// scrimmage, or every available player when fewer.
pub open spec fn spec_is_setup_legal(
    dims: BoardDims,
    team: TeamType,
    on_pitch: Seq<Position>,
    bench: nat,
) -> bool {
    let n = on_pitch.len();
    let available = n + bench;
    &&& n >= min_int(dims.team_size as int, available as int)
    &&& n <= dims.team_size
    &&& forall|i: int| 0 <= i < n ==> placed_ok(dims, team, #[trigger] on_pitch[i])
    &&& on_pitch.filter(|p: Position| counts_north(dims, team, p)).len() <= 2
    &&& on_pitch.filter(|p: Position| counts_south(dims, team, p)).len() <= 2
    &&& on_pitch.filter(|p: Position| counts_on_los(dims, team, p)).len() >= min_int(
        3,
        available as int,
    )
}

/// Whether `team`'s setup is legal, given the squares of its players on the pitch and the
/// number of its players in reserve.
pub fn is_setup_legal(
    dims: &BoardDims,
    team: TeamType,
    on_pitch: &[Position],
    num_on_bench: usize,
) -> (r: bool)
    requires
        dims.height >= -119,
        dims.width >= -127,
        on_pitch@.len() + num_on_bench <= usize::MAX,
    ensures
        r == spec_is_setup_legal(*dims, team, on_pitch@, num_on_bench as nat),
{
    let ghost d = *dims;
    let ghost fnorth = |p: Position| counts_north(d, team, p);
    let ghost fsouth = |p: Position| counts_south(d, team, p);
    let ghost flos = |p: Position| counts_on_los(d, team, p);
    let n = on_pitch.len();
    let available = n + num_on_bench;
    let team_size = dims.team_size;
    let min_on_pitch = if team_size <= available { team_size } else { available };
    let min_on_los: usize = if 3 <= available { 3 } else { available };
    if n < min_on_pitch || n > team_size {
        return false;
    }
    let los_x = dims.los_x(team);
    let wing = dims.wing_rows();
    let los = dims.los_rows();
    let los_lo = wing + 1;
    let los_hi = wing + los;
    let south_lo = wing + los + 1;
    let south_hi = dims.height - 2;
    let mut north_wing: usize = 0;
    let mut south_wing: usize = 0;
    let mut line_of_scrimmage: usize = 0;
    let mut i: usize = 0;
    while i < n
        invariant
            n == on_pitch@.len(),
            i <= n,
            d == *dims,
            dims.height >= -119,
            dims.width >= -127,
            los_x == d.spec_los_x(team),
            los_lo == d.spec_wing_rows() + 1,
            los_hi == d.spec_wing_rows() + d.spec_los_rows(),
            south_lo == d.spec_wing_rows() + d.spec_los_rows() + 1,
            south_hi == d.height - 2,
            wing == d.spec_wing_rows(),
            fnorth == (|p: Position| counts_north(d, team, p)),
            fsouth == (|p: Position| counts_south(d, team, p)),
            flos == (|p: Position| counts_on_los(d, team, p)),
            forall|j: int| 0 <= j < i ==> placed_ok(d, team, #[trigger] on_pitch@[j]),
            north_wing == on_pitch@.take(i as int).filter(fnorth).len(),
            south_wing == on_pitch@.take(i as int).filter(fsouth).len(),
            line_of_scrimmage == on_pitch@.take(i as int).filter(flos).len(),
            north_wing <= i,
            south_wing <= i,
            line_of_scrimmage <= i,
        decreases n - i,
    {
        let pos = on_pitch[i];
        if dims.is_out(pos) || (team == TeamType::Home && pos.x < los_x) || (team == TeamType::Away
            && pos.x > los_x) {
            return false;
        }
        if pos.x == los_x && los_lo <= pos.y && pos.y <= los_hi {
            line_of_scrimmage += 1;
        } else if south_lo <= pos.y && pos.y <= south_hi {
            south_wing += 1;
        } else if 1 <= pos.y && pos.y <= wing {
            north_wing += 1;
        }
        proof {
            assert(on_pitch@.take(i + 1).drop_last() =~= on_pitch@.take(i as int));
            reveal_with_fuel(Seq::filter, 1);
        }
        i += 1;
    }
    assert(on_pitch@.take(n as int) =~= on_pitch@);
    north_wing <= 2 && south_wing <= 2 && line_of_scrimmage >= min_on_los
}

/// Where `kicking_team`'s kickoff aims: the centre of the receiving half, on the row above
/// the centre; the Away aim is the mirror image of the Home one.
pub open spec fn spec_kickoff_aim(dims: BoardDims, kicking_team: TeamType) -> (int, int) {
    let w = dims.width as int;
    let mid_y = div_trunc(dims.height as int, 2) - 1;
    let away_half_centre = div_trunc(w, 4);
    match kicking_team {
        TeamType::Home => (away_half_centre, mid_y),
        TeamType::Away => (w - 1 - away_half_centre, mid_y),
    }
}

/// Where `kicking_team`'s kickoff aims: the centre of the half of the team that receives.
pub fn get_best_kickoff_aim_for(dims: &BoardDims, kicking_team: TeamType) -> (r: Position)
    requires
        dims.valid(),
    ensures
        r.x == spec_kickoff_aim(*dims, kicking_team).0,
        r.y == spec_kickoff_aim(*dims, kicking_team).1,
{
    let w = dims.width;
    let mid_y = dims.height / 2 - 1;
    let away_half_centre = w / 4;
    match kicking_team {
        TeamType::Home => Position::new((away_half_centre, mid_y)),
        TeamType::Away => Position::new((w - 1 - away_half_centre, mid_y)),
    }
}

/// On every valid board the two kickoff aims sit on the same row, mirror each other about
/// `x -> width - 1 - x`, land in the receiving team's half and lie in bounds.
pub proof fn lemma_kickoff_aim_mirrored(dims: BoardDims)
    requires
        dims.valid(),
    ensures
        spec_kickoff_aim(dims, TeamType::Home).1 == spec_kickoff_aim(dims, TeamType::Away).1,
        spec_kickoff_aim(dims, TeamType::Away).0 == dims.width - 1 - spec_kickoff_aim(
            dims,
            TeamType::Home,
        ).0,
        spec_kickoff_aim(dims, TeamType::Home).0 < div_trunc(dims.width as int, 2),
        spec_kickoff_aim(dims, TeamType::Away).0 >= div_trunc(dims.width as int, 2),
        1 <= spec_kickoff_aim(dims, TeamType::Home).0 <= dims.width - 2,
        1 <= spec_kickoff_aim(dims, TeamType::Away).0 <= dims.width - 2,
        1 <= spec_kickoff_aim(dims, TeamType::Home).1 <= dims.height - 2,
{
}

/// `o` puts a tackle zone on `q`.
pub open spec fn marks(o: FieldedPlayer, q: FieldedPlayer) -> bool {
    &&& adjacent(o.position, q.position)
    &&& o.stats.team != q.stats.team
    &&& o.status == PlayerStatus::Up
}

/// Tackle zones on `q` from the players on the pitch.
pub open spec fn spec_tz_on(players: Seq<FieldedPlayer>, q: FieldedPlayer) -> nat {
    players.filter(|o: FieldedPlayer| marks(o, q)).len()
}

/// Tackle zones on `player` from the players on the pitch.
pub fn get_tz_on(players: &[FieldedPlayer], player: &FieldedPlayer) -> (r: usize)
    ensures
        r == spec_tz_on(players@, *player),
{
    let ghost f = |o: FieldedPlayer| marks(o, *player);
    let mut c: usize = 0;
    let mut i: usize = 0;
    while i < players.len()
        invariant
            i <= players@.len(),
            c <= i,
            f == (|o: FieldedPlayer| marks(o, *player)),
            c == players@.take(i as int).filter(f).len(),
        decreases players@.len() - i,
    {
        let o = &players[i];
        if is_adjacent(o.position, player.position) && o.stats.team != player.stats.team
            && o.has_tackle_zone() {
            c += 1;
        }
        proof {
            assert(players@.take(i + 1).drop_last() =~= players@.take(i as int));
            reveal_with_fuel(Seq::filter, 1);
        }
        i += 1;
    }
    assert(players@.take(players@.len() as int) =~= players@);
    c
}

/// Opponents with a tackle zone next to square `p` of a player of `team`.
pub open spec fn spec_opponent_zones_at(players: Seq<FieldedPlayer>, team: TeamType, p: Position) -> nat {
    players.filter(
        |o: FieldedPlayer|
            adjacent(o.position, p) && o.stats.team != team && o.status == PlayerStatus::Up,
    ).len()
}

fn opponent_zones_at(players: &[FieldedPlayer], team: TeamType, p: Position) -> (r: usize)
    ensures
        r == spec_opponent_zones_at(players@, team, p),
{
    let ghost f = |o: FieldedPlayer|
        adjacent(o.position, p) && o.stats.team != team && o.status == PlayerStatus::Up;
    let mut c: usize = 0;
    let mut i: usize = 0;
    while i < players.len()
        invariant
            i <= players@.len(),
            c <= i,
            f == (|o: FieldedPlayer|
                adjacent(o.position, p) && o.stats.team != team && o.status == PlayerStatus::Up),
            c == players@.take(i as int).filter(f).len(),
        decreases players@.len() - i,
    {
        let o = &players[i];
        if is_adjacent(o.position, p) && o.stats.team != team && o.has_tackle_zone() {
            c += 1;
        }
        proof {
            assert(players@.take(i + 1).drop_last() =~= players@.take(i as int));
            reveal_with_fuel(Seq::filter, 1);
        }
        i += 1;
    }
    assert(players@.take(players@.len() as int) =~= players@);
    c
}

/// The catch roll of `catcher`: its agility roll, one worse per opponent marking it and
/// one worse again in rain.
pub fn get_catch_target(players: &[FieldedPlayer], catcher: &FieldedPlayer, weather: Weather) -> (r: D6Target)
    requires
        1 <= catcher.stats.ag <= 5,
        spec_opponent_zones_at(players@, catcher.stats.team, catcher.position) <= 100,
    ensures
        r.spec_value() == ({
            let t = spec_truncate_to(
                2,
                6,
                7 - catcher.stats.ag + spec_opponent_zones_at(players@, catcher.stats.team, catcher.position),
            );
            if weather == Weather::Rain {
                spec_truncate_to(2, 6, t + 1)
            } else {
                t
            }
        }),
{
    let mut target = catcher.ag_target();
    let zones = opponent_zones_at(players, catcher.stats.team, catcher.position);
    target.add_modifer(-(zones as i8));
    if let Weather::Rain = weather {
        target.add_modifer(-1);
    }
    target
}

/// Pass range class by squares across and down: 0 quick, 1 short, 2 long, 3 long bomb, 8
/// the passer's own square, 9 out of range.
pub open spec fn pass_matrix() -> Seq<Seq<int>> {
    seq![
        seq![8, 0, 0, 0, 1, 1, 1, 2, 2, 2, 2, 3, 3, 3],
        seq![0, 0, 0, 0, 1, 1, 1, 2, 2, 2, 2, 3, 3, 3],
        seq![0, 0, 0, 1, 1, 1, 1, 2, 2, 2, 2, 3, 3, 9],
        seq![0, 0, 1, 1, 1, 1, 1, 2, 2, 2, 3, 3, 3, 9],
        seq![1, 1, 1, 1, 1, 1, 2, 2, 2, 2, 3, 3, 3, 9],
        seq![1, 1, 1, 1, 1, 2, 2, 2, 2, 3, 3, 3, 9, 9],
        seq![1, 1, 1, 1, 2, 2, 2, 2, 2, 3, 3, 3, 9, 9],
        seq![2, 2, 2, 2, 2, 2, 2, 2, 3, 3, 3, 9, 9, 9],
        seq![2, 2, 2, 2, 2, 2, 2, 3, 3, 3, 3, 9, 9, 9],
        seq![2, 2, 2, 2, 2, 3, 3, 3, 3, 3, 9, 9, 9, 9],
        seq![2, 2, 2, 3, 3, 3, 3, 3, 3, 9, 9, 9, 9, 9],
        seq![3, 3, 3, 3, 3, 3, 3, 9, 9, 9, 9, 9, 9, 9],
        seq![3, 3, 3, 3, 3, 9, 9, 9, 9, 9, 9, 9, 9, 9],
        seq![3, 3, 9, 9, 9, 9, 9, 9, 9, 9, 9, 9, 9, 9]
    ]
}

/// The modifier of a pass from `from` to `to` by `passer`: minus the range class, minus one
/// per opponent marking the square passed from; `None` when the target is out of range.
pub open spec fn spec_pass_modifier(
    players: Seq<FieldedPlayer>,
    passer: FieldedPlayer,
    from: Position,
    to: Position,
) -> Option<int> {
    let dx = abs(to.x - from.x);
    let dy = abs(to.y - from.y);
    if dx >= 14 || dy >= 14 || pass_matrix()[dx][dy] == 9 {
        None
    } else {
        Some(-(spec_opponent_zones_at(players, passer.stats.team, from) as int) - pass_matrix()[dx][dy])
    }
}

/// The pass modifier of `passer` passing from `from` to `to`, or `None` beyond range.
pub fn get_pass_modifier(players: &[FieldedPlayer], passer: &FieldedPlayer, from: Position, to: Position) -> (r: Option<i8>)
    requires
        from != to,
        -128 <= to.x - from.x <= 127 && -128 <= to.y - from.y <= 127,
        spec_opponent_zones_at(players@, passer.stats.team, from) <= 100,
    ensures
        match spec_pass_modifier(players@, *passer, from, to) {
            Some(m) => r == Some(m as i8),
            None => r is None,
        },
{
    let matrix: [[i8; 14]; 14] = [
            [8, 0, 0, 0, 1, 1, 1, 2, 2, 2, 2, 3, 3, 3],
            [0, 0, 0, 0, 1, 1, 1, 2, 2, 2, 2, 3, 3, 3],
            [0, 0, 0, 1, 1, 1, 1, 2, 2, 2, 2, 3, 3, 9],
            [0, 0, 1, 1, 1, 1, 1, 2, 2, 2, 3, 3, 3, 9],
            [1, 1, 1, 1, 1, 1, 2, 2, 2, 2, 3, 3, 3, 9],
            [1, 1, 1, 1, 1, 2, 2, 2, 2, 3, 3, 3, 9, 9],
            [1, 1, 1, 1, 2, 2, 2, 2, 2, 3, 3, 3, 9, 9],
            [2, 2, 2, 2, 2, 2, 2, 2, 3, 3, 3, 9, 9, 9],
            [2, 2, 2, 2, 2, 2, 2, 3, 3, 3, 3, 9, 9, 9],
            [2, 2, 2, 2, 2, 3, 3, 3, 3, 3, 9, 9, 9, 9],
            [2, 2, 2, 3, 3, 3, 3, 3, 3, 9, 9, 9, 9, 9],
            [3, 3, 3, 3, 3, 3, 3, 9, 9, 9, 9, 9, 9, 9],
            [3, 3, 3, 3, 3, 9, 9, 9, 9, 9, 9, 9, 9, 9],
            [3, 3, 9, 9, 9, 9, 9, 9, 9, 9, 9, 9, 9, 9]
    ];
    proof {
        assert forall|a: int, b: int| 0 <= a < 14 && 0 <= b < 14 implies #[trigger] matrix@[a]@[b] == pass_matrix()[a][b] by {
        }
    }
    let ddx: i16 = to.x as i16 - from.x as i16;
    let ddy: i16 = to.y as i16 - from.y as i16;
    let dx: usize = if ddx < 0 { (-ddx) as usize } else { ddx as usize };
    let dy: usize = if ddy < 0 { (-ddy) as usize } else { ddy as usize };
    if dx >= 14 || dy >= 14 {
        return None;
    }
    let class = matrix[dx][dy];
    if class == 9 {
        return None;
    }
    proof {
        assert(class != 8) by {
            if dx == 0 && dy == 0 {
                assert(from.x == to.x && from.y == to.y);
            }
        }
    }
    let zones = opponent_zones_at(players, passer.stats.team, from);
    Some(-(zones as i8) - class)
}

/// The pass roll of `passer` passing from `from` to `to`, or `None` beyond range.
pub fn get_pass_target(players: &[FieldedPlayer], passer: &FieldedPlayer, from: Position, to: Position) -> (r: Option<D6Target>)
    requires
        from != to,
        -128 <= to.x - from.x <= 127 && -128 <= to.y - from.y <= 127,
        spec_opponent_zones_at(players@, passer.stats.team, from) <= 100,
    ensures
        match spec_pass_modifier(players@, *passer, from, to) {
            Some(m) => r matches Some(t) && t.spec_value() == spec_truncate_to(2, 6, passer.stats.pass.spec_value() - m),
            None => r is None,
        },
{
    let mut target = passer.pass_target();
    match get_pass_modifier(players, passer, from, to) {
        Some(m) => {
            target.add_modifer(m);
            Some(target)
        },
        None => None,
    }
}

/// Block dice go by the strengths, whoever is stronger choosing: one die between equals, two
/// when one side is stronger, three when it is more than twice as strong; the defender chooses
/// (uphill) exactly when it is the stronger. Swapping the strengths swaps who chooses and keeps
/// the number of dice.
pub proof fn lemma_block_dice_by_strength(a: int, d: int)
    requires
        a > 0,
        d > 0,
    ensures
        spec_block_dice(a, d).spec_count() == if a > 2 * d || d > 2 * a {
            3int
        } else if a == d {
            1int
        } else {
            2int
        },
        (spec_block_dice(a, d) == NumBlockDices::TwoUphill || spec_block_dice(a, d) == NumBlockDices::ThreeUphill)
            <==> a < d,
        spec_block_dice(d, a).spec_count() == spec_block_dice(a, d).spec_count(),
        a != d ==> ((spec_block_dice(d, a) == NumBlockDices::TwoUphill || spec_block_dice(d, a)
            == NumBlockDices::ThreeUphill) <==> !(spec_block_dice(a, d) == NumBlockDices::TwoUphill
            || spec_block_dice(a, d) == NumBlockDices::ThreeUphill)),
{
}

} // verus!
