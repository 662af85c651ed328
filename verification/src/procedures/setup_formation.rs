//! Fielding a team in a pre-configured formation.

use vstd::prelude::*;
use vstd::relations::{sorted_by, total_ordering};

use crate::board::BoardDims;
use crate::procedures::formation_wings::{lemma_formation_wings_hold_two, wing_slot_count, wings_hold_two, north_row, south_row};
use crate::model::{div_trunc, Coord, PlayerID, Position, TeamType};
use crate::rules::{counts_north, counts_on_los, counts_south, on_los, placed_ok, spec_is_setup_legal};
use crate::procedures::kickoff_procs::{
    lemma_formation_opens_on_the_line, lemma_formation_slots_well_shaped,
    lemma_formation_squares_on_own_half, slot_row, spec_formation_slots, spec_square, Formation,
    Row, Setup, Slot,
};
use crate::table::PlayerRole;

verus! {

/// Fielding order of the roles: linemen first, then blitzers, catchers and throwers.
pub open spec fn spec_role_rank(role: PlayerRole) -> int {
    match role {
        PlayerRole::Lineman => 0,
        PlayerRole::Blitzer => 1,
        PlayerRole::Catcher => 2,
        PlayerRole::Thrower => 3,
    }
}

fn role_rank(role: PlayerRole) -> (r: u8)
    ensures
        r == spec_role_rank(role),
{
    match role {
        PlayerRole::Lineman => 0,
        PlayerRole::Blitzer => 1,
        PlayerRole::Catcher => 2,
        PlayerRole::Thrower => 3,
    }
}

/// Bench order: by role rank, then by id.
pub open spec fn bench_leq(a: (PlayerID, PlayerRole), b: (PlayerID, PlayerRole)) -> bool {
    spec_role_rank(a.1) < spec_role_rank(b.1) || (spec_role_rank(a.1) == spec_role_rank(b.1)
        && a.0 <= b.0)
}

proof fn lemma_bench_leq_total()
    ensures
        total_ordering(|a: (PlayerID, PlayerRole), b: (PlayerID, PlayerRole)| bench_leq(a, b)),
{
}

/// The reserves in bench order.
pub open spec fn sorted_bench(reserves: Seq<(PlayerID, PlayerRole)>) -> Seq<(PlayerID, PlayerRole)> {
    reserves.sort_by(|a: (PlayerID, PlayerRole), b: (PlayerID, PlayerRole)| bench_leq(a, b))
}

/// The bench order holds the same players as the reserves.
pub proof fn lemma_sorted_bench(reserves: Seq<(PlayerID, PlayerRole)>)
    ensures
        sorted_by(
            sorted_bench(reserves),
            |a: (PlayerID, PlayerRole), b: (PlayerID, PlayerRole)| bench_leq(a, b),
        ),
        sorted_bench(reserves).to_multiset() == reserves.to_multiset(),
        sorted_bench(reserves).len() == reserves.len(),
{
    lemma_bench_leq_total();
    reserves.lemma_sort_by_ensures(|a: (PlayerID, PlayerRole), b: (PlayerID, PlayerRole)| bench_leq(a, b));
    vstd::seq_lib::to_multiset_len(sorted_bench(reserves));
    vstd::seq_lib::to_multiset_len(reserves);
}

fn bench_less(a: (PlayerID, PlayerRole), b: (PlayerID, PlayerRole)) -> (r: bool)
    ensures
        r == (bench_leq(a, b) && a != b),
{
    let ra = role_rank(a.1);
    let rb = role_rank(b.1);
    ra < rb || (ra == rb && a.0 < b.0)
}

/// The reserves sorted into bench order.
fn sort_bench(reserves: &[(PlayerID, PlayerRole)]) -> (r: Vec<(PlayerID, PlayerRole)>)
    ensures
        r@ == sorted_bench(reserves@),
        r@.to_multiset() == reserves@.to_multiset(),
        r@.len() == reserves@.len(),
{
    broadcast use vstd::seq_lib::group_to_multiset_ensures;

    let ghost leq = |a: (PlayerID, PlayerRole), b: (PlayerID, PlayerRole)| bench_leq(a, b);
    let mut rest: Vec<(PlayerID, PlayerRole)> = Vec::new();
    let mut i: usize = 0;
    while i < reserves.len()
        invariant
            i <= reserves@.len(),
            rest@ == reserves@.take(i as int),
        decreases reserves@.len() - i,
    {
        rest.push(reserves[i]);
        assert(reserves@.take(i + 1) =~= reserves@.take(i as int).push(reserves@[i as int]));
        i += 1;
    }
    assert(reserves@.take(reserves@.len() as int) =~= reserves@);
    let mut out: Vec<(PlayerID, PlayerRole)> = Vec::new();
    while rest.len() > 0
        invariant
            leq == (|a: (PlayerID, PlayerRole), b: (PlayerID, PlayerRole)| bench_leq(a, b)),
            sorted_by(out@, leq),
            out@.to_multiset().add(rest@.to_multiset()) == reserves@.to_multiset(),
            forall|j: int, k: int| 0 <= j < out@.len() && 0 <= k < rest@.len() ==> bench_leq(out@[j], rest@[k]),
        decreases rest@.len(),
    {
        let mut m: usize = 0;
        let mut j: usize = 1;
        while j < rest.len()
            invariant
                0 <= m < rest@.len(),
                1 <= j <= rest@.len(),
                forall|k: int| 0 <= k < j ==> bench_leq(rest@[m as int], rest@[k]),
            decreases rest@.len() - j,
        {
            if bench_less(rest[j], rest[m]) {
                m = j;
            }
            j += 1;
        }
        let ghost before_rest = rest@;
        let ghost before_out = out@;
        let x = rest.remove(m);
        out.push(x);
        proof {
            broadcast use vstd::seq_lib::group_to_multiset_ensures;

            assert(before_rest.remove(m as int).to_multiset() == before_rest.to_multiset().remove(x));
            assert(before_out.push(x).to_multiset() == before_out.to_multiset().insert(x));
            assert(out@.to_multiset().add(rest@.to_multiset()) =~= reserves@.to_multiset());
            assert forall|a: int, b: int| 0 <= a < b < out@.len() implies leq(out@[a], out@[b]) by {
                if b == out@.len() - 1 {
                    assert(bench_leq(before_out[a], before_rest[m as int]));
                }
            }
            assert forall|a: int, k: int| 0 <= a < out@.len() && 0 <= k < rest@.len() implies bench_leq(
                out@[a],
                rest@[k],
            ) by {
                let kk = if k < m { k } else { k + 1 };
                assert(rest@[k] == before_rest[kk]);
                if a < out@.len() - 1 {
                    assert(bench_leq(before_out[a], before_rest[kk]));
                } else {
                    assert(bench_leq(before_rest[m as int], before_rest[kk]));
                }
            }
        }
    }
    proof {
        broadcast use vstd::seq_lib::group_to_multiset_ensures;

        assert(rest@.to_multiset() =~= vstd::multiset::Multiset::empty());
        assert(out@.to_multiset() =~= reserves@.to_multiset());
        lemma_bench_leq_total();
        lemma_sorted_bench(reserves@);
        let s = sorted_bench(reserves@);
        vstd::seq_lib::lemma_sorted_unique(out@, s, leq);
        vstd::seq_lib::to_multiset_len(out@);
        vstd::seq_lib::to_multiset_len(reserves@);
    }
    out
}

/// `i` is the first position of `s` whose element satisfies `p`.
pub open spec fn is_first_match<T>(s: Seq<T>, p: spec_fn(T) -> bool, i: int) -> bool {
    &&& 0 <= i < s.len()
    &&& p(s[i])
    &&& forall|j: int| 0 <= j < i ==> !p(#[trigger] s[j])
}

/// The first position of `s` whose element satisfies `p`, if any does.
pub open spec fn first_match<T>(s: Seq<T>, p: spec_fn(T) -> bool) -> Option<int> {
    if exists|i: int| 0 <= i < s.len() && p(#[trigger] s[i]) {
        Some(choose|i: int| is_first_match(s, p, i))
    } else {
        None
    }
}

proof fn lemma_first_match_exists<T>(s: Seq<T>, p: spec_fn(T) -> bool) -> (m: int)
    requires
        exists|i: int| 0 <= i < s.len() && p(#[trigger] s[i]),
    ensures
        is_first_match(s, p, m),
    decreases s.len(),
{
    let n = s.len() - 1;
    let init = s.drop_last();
    if exists|i: int| 0 <= i < init.len() && p(#[trigger] init[i]) {
        let m = lemma_first_match_exists(init, p);
        assert forall|j: int| 0 <= j < m implies !p(#[trigger] s[j]) by {
            assert(init[j] == s[j]);
        }
        m
    } else {
        let w = choose|i: int| 0 <= i < s.len() && p(#[trigger] s[i]);
        if w < n {
            assert(init[w] == s[w]);
        }
        assert forall|j: int| 0 <= j < n implies !p(#[trigger] s[j]) by {
            assert(init[j] == s[j]);
        }
        n
    }
}

/// `first_match` finds the first match, and finds none exactly when nothing matches.
pub proof fn lemma_first_match<T>(s: Seq<T>, p: spec_fn(T) -> bool)
    ensures
        first_match(s, p) matches Some(i) ==> is_first_match(s, p, i),
        first_match(s, p) is None <==> forall|j: int| 0 <= j < s.len() ==> !p(#[trigger] s[j]),
{
    if exists|i: int| 0 <= i < s.len() && p(#[trigger] s[i]) {
        let m = lemma_first_match_exists(s, p);
    }
}

/// The playable rows at distance at most `d` from the centre row `c`, nearest first and the
/// lower row first between two at the same distance.
pub open spec fn rows_near(c: int, h: int, d: nat) -> Seq<int>
    decreases d,
{
    if d == 0 {
        seq![c]
    } else {
        let prev = rows_near(c, h, (d - 1) as nat);
        let with_low = if c - d >= 1 { prev.push(c - d) } else { prev };
        if c + d <= h { with_low.push(c + d) } else { with_low }
    }
}

/// The playable rows ordered by their distance from the centre row, the lower row first
/// between two at the same distance.
pub open spec fn rows_from_center(dims: BoardDims) -> Seq<int> {
    rows_near(div_trunc(dims.height as int, 2), dims.height - 2, (dims.height - 2) as nat)
}

/// `y` is a row of either wing.
pub open spec fn in_wing(dims: BoardDims, y: int) -> bool {
    (1 <= y <= dims.spec_wing_rows()) || (dims.spec_wing_rows() + dims.spec_los_rows() + 1 <= y
        <= dims.height - 2)
}

/// The column `back` squares behind `team`'s line of scrimmage.
pub open spec fn back_column(dims: BoardDims, team: TeamType, back: int) -> int {
    match team {
        TeamType::Home => dims.spec_los_x(team) + back,
        TeamType::Away => dims.spec_los_x(team) - back,
    }
}

/// The squares of the first `b` columns behind the line, a column at a time, rows in
/// centre-out order.
pub open spec fn reserve_candidates_upto(dims: BoardDims, team: TeamType, b: nat) -> Seq<Position>
    decreases b,
{
    if b == 0 {
        Seq::empty()
    } else {
        reserve_candidates_upto(dims, team, (b - 1) as nat) + rows_from_center(dims).map_values(
            |y: int| Position { x: back_column(dims, team, b - 1) as i8, y: y as i8 },
        )
    }
}

/// Every square of the team's half, shallow columns first, rows centre-out.
pub open spec fn reserve_candidates(dims: BoardDims, team: TeamType) -> Seq<Position> {
    reserve_candidates_upto(dims, team, (div_trunc(dims.width as int, 2) - 1) as nat)
}

/// `p` is already taken, by a player standing there before the team sets up or by one the
/// team has placed.
pub open spec fn taken(occupied: Seq<Position>, placed: Seq<(PlayerID, Position)>, p: Position) -> bool {
    occupied.contains(p) || exists|i: int| 0 <= i < placed.len() && (#[trigger] placed[i]).1 == p
}

/// The square for a player the formation has no room for: the first free square of the
/// team's half outside the wings, or, when there is none, the first free square at all.
pub open spec fn spec_reserve_square(
    dims: BoardDims,
    team: TeamType,
    occupied: Seq<Position>,
    placed: Seq<(PlayerID, Position)>,
) -> Option<Position> {
    let cands = reserve_candidates(dims, team);
    match first_match(cands, |p: Position| !in_wing(dims, p.y as int) && !taken(occupied, placed, p)) {
        Some(i) => Some(cands[i]),
        None => match first_match(cands, |p: Position| !taken(occupied, placed, p)) {
            Some(i) => Some(cands[i]),
            None => None,
        },
    }
}

/// The rows as integers.
pub open spec fn coords_view(v: Seq<Coord>) -> Seq<int> {
    v.map_values(|c: Coord| c as int)
}

fn rows_center_out(dims: &BoardDims) -> (r: Vec<Coord>)
    requires
        dims.valid(),
    ensures
        coords_view(r@) == rows_from_center(*dims),
{
    let c: Coord = dims.height / 2;
    let h: Coord = dims.height - 2;
    let mut rows: Vec<Coord> = Vec::new();
    rows.push(c);
    assert(coords_view(rows@) =~= rows_near(c as int, h as int, 0));
    let mut d: Coord = 1;
    while d <= h
        invariant
            1 <= d <= h + 1,
            h == dims.height - 2,
            3 <= h <= 15,
            c == div_trunc(dims.height as int, 2),
            coords_view(rows@) == rows_near(c as int, h as int, (d - 1) as nat),
        decreases h + 1 - d,
    {
        let ghost prev = rows@;
        if c - d >= 1 {
            rows.push(c - d);
        }
        let ghost mid = rows@;
        if c + d <= h {
            rows.push(c + d);
        }
        proof {
            let p = rows_near(c as int, h as int, (d - 1) as nat);
            let wl = if c - d >= 1 { p.push(c - d) } else { p };
            assert(coords_view(mid) =~= wl);
            assert(coords_view(rows@) =~= if c + d <= h { wl.push(c + d) } else { wl });
        }
        d += 1;
    }
    rows
}

fn reserve_candidate_squares(dims: &BoardDims, team: TeamType) -> (r: Vec<Position>)
    requires
        dims.valid(),
    ensures
        r@ == reserve_candidates(*dims, team),
{
    let rows = rows_center_out(dims);
    let n_back: Coord = dims.width / 2 - 1;
    let los_x = dims.los_x(team);
    let mut out: Vec<Position> = Vec::new();
    let mut b: Coord = 0;
    proof {
        crate::board::lemma_bands_tile_the_pitch(*dims);
        lemma_rows_near_in_pitch(div_trunc(dims.height as int, 2), dims.height - 2, (dims.height - 2) as nat);
        assert forall|k: int| 0 <= k < rows@.len() implies 1 <= #[trigger] rows@[k] <= dims.height - 2 by {
            assert(coords_view(rows@)[k] == rows@[k] as int);
        }
    }
    while b < n_back
        invariant
            0 <= b <= n_back,
            n_back == div_trunc(dims.width as int, 2) - 1,
            dims.valid(),
            los_x == dims.spec_los_x(team),
            coords_view(rows@) == rows_from_center(*dims),
            forall|k: int| 0 <= k < rows@.len() ==> 1 <= #[trigger] rows@[k] <= dims.height - 2,
            out@ == reserve_candidates_upto(*dims, team, b as nat),
        decreases n_back - b,
    {
        let x: Coord = match team {
            TeamType::Home => los_x + b,
            TeamType::Away => los_x - b,
        };
        let ghost before = out@;
        let mut j: usize = 0;
        while j < rows.len()
            invariant
                j <= rows@.len(),
                x == back_column(*dims, team, b as int),
                coords_view(rows@) == rows_from_center(*dims),
                out@ == before + rows_from_center(*dims).take(j as int).map_values(
                    |y: int| Position { x: back_column(*dims, team, b as int) as i8, y: y as i8 },
                ),
            decreases rows@.len() - j,
        {
            out.push(Position { x, y: rows[j] });
            proof {
                let f = |y: int| Position { x: back_column(*dims, team, b as int) as i8, y: y as i8 };
                assert(rows_from_center(*dims)[j as int] == rows@[j as int] as int);
                assert(rows_from_center(*dims).take(j + 1).map_values(f) =~= rows_from_center(
                    *dims,
                ).take(j as int).map_values(f).push(f(rows_from_center(*dims)[j as int])));
            }
            j += 1;
        }
        proof {
            assert(rows_from_center(*dims).take(rows@.len() as int) =~= rows_from_center(*dims));
        }
        b += 1;
    }
    out
}

/// Every row of the centre-out order is a playable row.
proof fn lemma_rows_near_in_pitch(c: int, h: int, d: nat)
    requires
        1 <= c <= h,
    ensures
        forall|k: int| 0 <= k < rows_near(c, h, d).len() ==> 1 <= #[trigger] rows_near(c, h, d)[k] <= h,
    decreases d,
{
    if d > 0 {
        lemma_rows_near_in_pitch(c, h, (d - 1) as nat);
        let prev = rows_near(c, h, (d - 1) as nat);
        let wl = if c - d >= 1 { prev.push(c - d) } else { prev };
        assert forall|k: int| 0 <= k < wl.len() implies 1 <= #[trigger] wl[k] <= h by {
            if k < prev.len() {
                assert(wl[k] == prev[k]);
            }
        }
        let full = if c + d <= h { wl.push(c + d) } else { wl };
        assert forall|k: int| 0 <= k < full.len() implies 1 <= #[trigger] full[k] <= h by {
            if k < wl.len() {
                assert(full[k] == wl[k]);
            }
        }
        assert(rows_near(c, h, d) == full);
    }
}

/// Progress of fielding a team: the next formation slot, the players still on the bench,
/// the players placed so far, and whether a player found no square.
pub struct Fielding {
    pub k: nat,
    pub bench: Seq<(PlayerID, PlayerRole)>,
    pub placed: Seq<(PlayerID, Position)>,
    pub stuck: bool,
}

/// Fielding stops once the team size is reached, the bench is empty, or a player found no
/// square.
pub open spec fn fielding_done(dims: BoardDims, st: Fielding) -> bool {
    st.stuck || st.placed.len() >= dims.team_size || st.bench.len() == 0
}

/// The bench player taken for a slot: the first of the wanted role, else the first on the
/// bench.
pub open spec fn pick_index(bench: Seq<(PlayerID, PlayerRole)>, wanted: Option<PlayerRole>) -> int {
    match wanted {
        Some(w) => match first_match(bench, |e: (PlayerID, PlayerRole)| e.1 == w) {
            Some(i) => i,
            None => 0,
        },
        None => 0,
    }
}

pub open spec fn place(st: Fielding, pos: Position, wanted: Option<PlayerRole>) -> Fielding {
    let i = pick_index(st.bench, wanted);
    Fielding {
        k: st.k + 1,
        bench: st.bench.remove(i),
        placed: st.placed.push((st.bench[i].0, pos)),
        stuck: false,
    }
}

/// A square of the team's half for a player, or being stuck when there is none.
pub open spec fn place_in_reserve(
    dims: BoardDims,
    team: TeamType,
    occupied: Seq<Position>,
    st: Fielding,
    wanted: Option<PlayerRole>,
) -> Fielding {
    match spec_reserve_square(dims, team, occupied, st.placed) {
        Some(r) => place(st, r, wanted),
        None => Fielding { stuck: true, ..st },
    }
}

/// One round of fielding: the next formation slot, or a reserve square once the slots are
/// used up. A slot the board has no row for is skipped; a slot whose square is out or taken
/// sends its player to a reserve square.
pub open spec fn fielding_step(
    dims: BoardDims,
    team: TeamType,
    f: Formation,
    occupied: Seq<Position>,
    st: Fielding,
) -> Fielding {
    if fielding_done(dims, st) {
        st
    } else {
        let slots = spec_formation_slots(f);
        if st.k < slots.len() {
            let s = slots[st.k as int];
            match spec_square(dims, team, s) {
                None => Fielding { k: st.k + 1, ..st },
                Some(sq) => {
                    let pos = Position { x: sq.0 as i8, y: sq.1 as i8 };
                    if dims.spec_is_out(pos) || taken(occupied, st.placed, pos) {
                        place_in_reserve(dims, team, occupied, st, Some(s.0))
                    } else {
                        place(st, pos, Some(s.0))
                    }
                },
            }
        } else {
            place_in_reserve(dims, team, occupied, st, None)
        }
    }
}

pub open spec fn fielding_after(
    dims: BoardDims,
    team: TeamType,
    f: Formation,
    occupied: Seq<Position>,
    st: Fielding,
    n: nat,
) -> Fielding
    decreases n,
{
    if n == 0 {
        st
    } else {
        fielding_after(dims, team, f, occupied, fielding_step(dims, team, f, occupied, st), (n - 1) as nat)
    }
}

/// Fielding `reserves` in formation `f` on `team`'s half, with `occupied` squares taken
/// before the team sets up, run to its end.
pub open spec fn spec_setup_formation(
    dims: BoardDims,
    team: TeamType,
    f: Formation,
    reserves: Seq<(PlayerID, PlayerRole)>,
    occupied: Seq<Position>,
) -> Fielding {
    let init = Fielding { k: 0, bench: sorted_bench(reserves), placed: Seq::empty(), stuck: false };
    fielding_after(dims, team, f, occupied, init, 12 + reserves.len())
}

/// Rounds of fielding that can still happen.
pub open spec fn fielding_measure(st: Fielding) -> nat {
    (if st.k < 11 { 11 - st.k } else { 0int }) as nat + st.bench.len()
}

proof fn lemma_fielding_done_absorbs(
    dims: BoardDims,
    team: TeamType,
    f: Formation,
    occupied: Seq<Position>,
    st: Fielding,
    n: nat,
)
    requires
        fielding_done(dims, st),
    ensures
        fielding_after(dims, team, f, occupied, st, n) == st,
    decreases n,
{
    if n > 0 {
        lemma_fielding_done_absorbs(dims, team, f, occupied, st, (n - 1) as nat);
    }
}

proof fn lemma_fielding_after_add(
    dims: BoardDims,
    team: TeamType,
    f: Formation,
    occupied: Seq<Position>,
    st: Fielding,
    a: nat,
    b: nat,
)
    ensures
        fielding_after(dims, team, f, occupied, st, a + b) == fielding_after(
            dims,
            team,
            f,
            occupied,
            fielding_after(dims, team, f, occupied, st, a),
            b,
        ),
    decreases a,
{
    if a > 0 {
        lemma_fielding_after_add(
            dims,
            team,
            f,
            occupied,
            fielding_step(dims, team, f, occupied, st),
            (a - 1) as nat,
            b,
        );
        assert((a + b - 1) as nat == ((a - 1) as nat + b) as nat);
    }
}

proof fn lemma_fielding_after_step(
    dims: BoardDims,
    team: TeamType,
    f: Formation,
    occupied: Seq<Position>,
    st: Fielding,
    a: nat,
)
    ensures
        fielding_after(dims, team, f, occupied, st, a + 1) == fielding_step(
            dims,
            team,
            f,
            occupied,
            fielding_after(dims, team, f, occupied, st, a),
        ),
{
    lemma_fielding_after_add(dims, team, f, occupied, st, a, 1);
    let mid = fielding_after(dims, team, f, occupied, st, a);
    assert(fielding_after(dims, team, f, occupied, mid, 1) == fielding_after(
        dims,
        team,
        f,
        occupied,
        fielding_step(dims, team, f, occupied, mid),
        0,
    ));
}

fn contains_square(squares: &[Position], p: Position) -> (r: bool)
    ensures
        r == squares@.contains(p),
{
    let mut i: usize = 0;
    while i < squares.len()
        invariant
            i <= squares@.len(),
            forall|j: int| 0 <= j < i ==> squares@[j] != p,
        decreases squares@.len() - i,
    {
        if squares[i] == p {
            assert(squares@[i as int] == p);
            return true;
        }
        i += 1;
    }
    false
}

fn is_taken(occupied: &[Position], placed: &Vec<(PlayerID, Position)>, p: Position) -> (r: bool)
    ensures
        r == taken(occupied@, placed@, p),
{
    if contains_square(occupied, p) {
        return true;
    }
    let mut i: usize = 0;
    while i < placed.len()
        invariant
            i <= placed@.len(),
            !occupied@.contains(p),
            forall|j: int| 0 <= j < i ==> (#[trigger] placed@[j]).1 != p,
        decreases placed@.len() - i,
    {
        if placed[i].1 == p {
            assert(placed@[i as int].1 == p);
            return true;
        }
        i += 1;
    }
    false
}

fn is_wing_row(dims: &BoardDims, y: Coord) -> (r: bool)
    requires
        dims.valid(),
    ensures
        r == in_wing(*dims, y as int),
{
    let wing = dims.wing_rows();
    let los = dims.los_rows();
    (1 <= y && y <= wing) || (wing + los + 1 <= y && y <= dims.height - 2)
}

impl Setup {
    /// Fallback square for a player the formation has no room for: the first free square
    /// behind the own line of scrimmage, shallow columns first and rows centre-out, outside
    /// the wings unless every other square is taken.
    pub fn reserve_square(
        dims: &BoardDims,
        team: TeamType,
        occupied: &[Position],
        placed: &Vec<(PlayerID, Position)>,
    ) -> (r: Option<Position>)
        requires
            dims.valid(),
        ensures
            r == spec_reserve_square(*dims, team, occupied@, placed@),
    {
        let cands = reserve_candidate_squares(dims, team);
        let ghost pw = |p: Position| !in_wing(*dims, p.y as int) && !taken(occupied@, placed@, p);
        let ghost pf = |p: Position| !taken(occupied@, placed@, p);
        let mut i: usize = 0;
        while i < cands.len()
            invariant
                i <= cands@.len(),
                dims.valid(),
                cands@ == reserve_candidates(*dims, team),
                pw == (|p: Position| !in_wing(*dims, p.y as int) && !taken(occupied@, placed@, p)),
                forall|j: int| 0 <= j < i ==> !pw(#[trigger] cands@[j]),
            decreases cands@.len() - i,
        {
            let p = cands[i];
            if !is_wing_row(dims, p.y) && !is_taken(occupied, placed, p) {
                proof {
                    lemma_first_match(cands@, pw);
                    let m = first_match(cands@, pw)->0;
                    assert(pw(cands@[i as int]));
                    assert(m == i) by {
                        if m < i {
                            assert(!pw(cands@[m]));
                        }
                    }
                }
                return Some(p);
            }
            i += 1;
        }
        proof {
            lemma_first_match(cands@, pw);
        }
        let mut i: usize = 0;
        while i < cands.len()
            invariant
                i <= cands@.len(),
                cands@ == reserve_candidates(*dims, team),
                first_match(cands@, pw) is None,
                pw == (|p: Position| !in_wing(*dims, p.y as int) && !taken(occupied@, placed@, p)),
                pf == (|p: Position| !taken(occupied@, placed@, p)),
                forall|j: int| 0 <= j < i ==> !pf(#[trigger] cands@[j]),
            decreases cands@.len() - i,
        {
            let p = cands[i];
            if !is_taken(occupied, placed, p) {
                proof {
                    lemma_first_match(cands@, pf);
                    let m = first_match(cands@, pf)->0;
                    assert(pf(cands@[i as int]));
                    assert(m == i) by {
                        if m < i {
                            assert(!pf(cands@[m]));
                        }
                    }
                }
                return Some(p);
            }
            i += 1;
        }
        proof {
            lemma_first_match(cands@, pf);
        }
        None
    }
}

/// The first bench position holding a player of role `want`.
fn first_of_role(bench: &Vec<(PlayerID, PlayerRole)>, want: PlayerRole) -> (r: Option<usize>)
    ensures
        match first_match(bench@, |e: (PlayerID, PlayerRole)| e.1 == want) {
            Some(i) => r == Some(i as usize),
            None => r is None,
        },
{
    let ghost p = |e: (PlayerID, PlayerRole)| e.1 == want;
    let mut i: usize = 0;
    while i < bench.len()
        invariant
            i <= bench@.len(),
            p == (|e: (PlayerID, PlayerRole)| e.1 == want),
            forall|j: int| 0 <= j < i ==> !p(#[trigger] bench@[j]),
        decreases bench@.len() - i,
    {
        if bench[i].1 == want {
            proof {
                lemma_first_match(bench@, p);
                let m = first_match(bench@, p)->0;
                assert(p(bench@[i as int]));
                assert(m == i) by {
                    if m < i {
                        assert(!p(bench@[m]));
                    }
                }
            }
            return Some(i);
        }
        i += 1;
    }
    proof {
        lemma_first_match(bench@, p);
    }
    None
}

/// Take the bench player for a slot wanting `wanted`: the first of that role, else the first
/// on the bench.
fn take_from_bench(bench: &mut Vec<(PlayerID, PlayerRole)>, wanted: Option<PlayerRole>) -> (r: PlayerID)
    requires
        old(bench)@.len() > 0,
    ensures
        0 <= pick_index(old(bench)@, wanted) < old(bench)@.len(),
        r == old(bench)@[pick_index(old(bench)@, wanted)].0,
        final(bench)@ == old(bench)@.remove(pick_index(old(bench)@, wanted)),
{
    let idx: usize = match wanted {
        Some(want) => match first_of_role(bench, want) {
            Some(i) => i,
            None => 0,
        },
        None => 0,
    };
    proof {
        if let Some(want) = wanted {
            lemma_first_match(bench@, |e: (PlayerID, PlayerRole)| e.1 == want);
        }
    }
    let (id, _) = bench.remove(idx);
    id
}

impl Setup {
    /// Field `reserves` (the team's players on the bench) in `formation` on the team's half,
    /// given the squares `occupied` before the team sets up: one player per formation slot in
    /// order, the wanted role if one is left and otherwise the first on the bench in role
    /// order (linemen, blitzers, catchers, throwers, then by id), until the team size is
    /// reached or the bench is empty; leftover players go to reserve squares. Returns who went
    /// where, in fielding order.
    pub fn setup_formation(
        &self,
        dims: &BoardDims,
        formation: Formation,
        reserves: &[(PlayerID, PlayerRole)],
        occupied: &[Position],
    ) -> (r: Vec<(PlayerID, Position)>)
        requires
            dims.valid(),
            !spec_setup_formation(*dims, self.team, formation, reserves@, occupied@).stuck,
        ensures
            r@ == spec_setup_formation(*dims, self.team, formation, reserves@, occupied@).placed,
    {
        let team = self.team;
        let mut bench = sort_bench(reserves);
        let slots = formation.slots();
        let mut placed: Vec<(PlayerID, Position)> = Vec::new();
        let mut k: usize = 0;
        let ghost init = Fielding { k: 0, bench: bench@, placed: Seq::empty(), stuck: false };
        let ghost big_n: nat = 12 + reserves@.len();
        let ghost mut iter: nat = 0;
        proof {
            assert(bench@.to_multiset().len() == reserves@.to_multiset().len());
            lemma_formation_slots_well_shaped(formation, 0);
        }
        while !(placed.len() >= dims.team_size || bench.len() == 0)
            invariant
                dims.valid(),
                team == self.team,
                slots@ == spec_formation_slots(formation),
                slots@.len() == 11,
                init == (Fielding {
                    k: 0,
                    bench: sorted_bench(reserves@),
                    placed: Seq::empty(),
                    stuck: false,
                }),
                init.bench.len() == reserves@.len(),
                big_n == 12 + reserves@.len(),
                (Fielding { k: k as nat, bench: bench@, placed: placed@, stuck: false })
                    == fielding_after(*dims, team, formation, occupied@, init, iter),
                iter + fielding_measure(
                    Fielding { k: k as nat, bench: bench@, placed: placed@, stuck: false },
                ) <= fielding_measure(init),
                !spec_setup_formation(*dims, self.team, formation, reserves@, occupied@).stuck,
                placed@.len() <= dims.team_size,
                k <= 11 + placed@.len(),
            decreases fielding_measure(Fielding { k: k as nat, bench: bench@, placed: placed@, stuck: false }),
        {
            let ghost st = Fielding { k: k as nat, bench: bench@, placed: placed@, stuck: false };
            let ghost next = fielding_step(*dims, team, formation, occupied@, st);
            proof {
                lemma_fielding_after_step(*dims, team, formation, occupied@, init, iter);
            }
            let mut reserve_wanted: Option<Option<PlayerRole>> = None;
            if k < slots.len() {
                let s = slots[k];
                proof {
                    lemma_formation_slots_well_shaped(formation, k as int);
                }
                match Formation::square(dims, team, s) {
                    None => {
                        k += 1;
                    },
                    Some(pos) => {
                        if dims.is_out(pos) || is_taken(occupied, &placed, pos) {
                            reserve_wanted = Some(Some(s.0));
                        } else {
                            let id = take_from_bench(&mut bench, Some(s.0));
                            placed.push((id, pos));
                            k += 1;
                        }
                    },
                }
            } else {
                reserve_wanted = Some(None);
            }
            if let Some(wanted) = reserve_wanted {
                match Self::reserve_square(dims, team, occupied, &placed) {
                    Some(r) => {
                        let id = take_from_bench(&mut bench, wanted);
                        placed.push((id, r));
                        k += 1;
                    },
                    None => {
                        proof {
                            assert(next.stuck);
                            assert(fielding_done(*dims, next));
                            lemma_fielding_after_add(
                                *dims,
                                team,
                                formation,
                                occupied@,
                                init,
                                iter + 1,
                                (big_n - iter - 1) as nat,
                            );
                            lemma_fielding_done_absorbs(
                                *dims,
                                team,
                                formation,
                                occupied@,
                                next,
                                (big_n - iter - 1) as nat,
                            );
                            assert(iter + 1 + (big_n - iter - 1) == big_n);
                            assert(false);
                        }
                        return placed;
                    },
                }
            }
            proof {
                assert((Fielding { k: k as nat, bench: bench@, placed: placed@, stuck: false })
                    =~= next);
                iter = iter + 1;
            }
        }
        proof {
            let st = Fielding { k: k as nat, bench: bench@, placed: placed@, stuck: false };
            assert(fielding_done(*dims, st));
            lemma_fielding_after_add(*dims, team, formation, occupied@, init, iter, (big_n - iter) as nat);
            lemma_fielding_done_absorbs(*dims, team, formation, occupied@, st, (big_n - iter) as nat);
        }
        placed
    }
}

proof fn lemma_rows_near_prefix(c: int, h: int, d: nat)
    requires
        2 <= c,
        c + 1 <= h,
        d >= 1,
    ensures
        rows_near(c, h, d).len() >= 3,
        rows_near(c, h, d)[0] == c,
        rows_near(c, h, d)[1] == c - 1,
        rows_near(c, h, d)[2] == c + 1,
    decreases d,
{
    if d > 1 {
        lemma_rows_near_prefix(c, h, (d - 1) as nat);
        let prev = rows_near(c, h, (d - 1) as nat);
        let wl = if c - d >= 1 { prev.push(c - d) } else { prev };
        assert(wl.len() >= 3 && wl[0] == c && wl[1] == c - 1 && wl[2] == c + 1);
    } else {
        assert(rows_near(c, h, 0) == seq![c]);
    }
}

/// The centre row and its two neighbours are playable rows outside the wings.
proof fn lemma_center_rows_off_the_wings(dims: BoardDims)
    requires
        dims.valid(),
    ensures
        2 <= div_trunc(dims.height as int, 2),
        div_trunc(dims.height as int, 2) + 1 <= dims.height - 2,
        !in_wing(dims, div_trunc(dims.height as int, 2) - 1),
        !in_wing(dims, div_trunc(dims.height as int, 2)),
        !in_wing(dims, div_trunc(dims.height as int, 2) + 1),
{
    let h = dims.height;
    if h == 5 {
    } else if h == 6 {
    } else if h == 7 {
    } else if h == 8 {
    } else if h == 9 {
    } else if h == 10 {
    } else if h == 11 {
    } else if h == 12 {
    } else if h == 13 {
    } else if h == 14 {
    } else if h == 15 {
    } else if h == 16 {
    } else {
        assert(h == 17);
    }
}

/// The square `back` columns behind the line in row `y`.
pub open spec fn back_square(dims: BoardDims, team: TeamType, back: int, y: int) -> Position {
    Position { x: back_column(dims, team, back) as i8, y: y as i8 }
}

proof fn lemma_candidates_contain(dims: BoardDims, team: TeamType, n: nat, b: int, j: int)
    requires
        0 <= b < n,
        0 <= j < rows_from_center(dims).len(),
    ensures
        reserve_candidates_upto(dims, team, n).contains(
            back_square(dims, team, b, rows_from_center(dims)[j]),
        ),
    decreases n,
{
    let prev = reserve_candidates_upto(dims, team, (n - 1) as nat);
    let block = rows_from_center(dims).map_values(
        |y: int| Position { x: back_column(dims, team, n - 1) as i8, y: y as i8 },
    );
    let all = reserve_candidates_upto(dims, team, n);
    assert(all == prev + block);
    if b < n - 1 {
        lemma_candidates_contain(dims, team, (n - 1) as nat, b, j);
        let i = choose|i: int| 0 <= i < prev.len() && prev[i] == back_square(
            dims,
            team,
            b,
            rows_from_center(dims)[j],
        );
        assert(all[i] == prev[i]);
    } else {
        assert(all[prev.len() + j] == block[j]);
    }
}

proof fn lemma_candidates_own_half(dims: BoardDims, team: TeamType, n: nat)
    requires
        dims.valid(),
        n <= div_trunc(dims.width as int, 2) - 1,
    ensures
        forall|i: int|
            0 <= i < reserve_candidates_upto(dims, team, n).len() ==> {
                &&& placed_ok(dims, team, #[trigger] reserve_candidates_upto(dims, team, n)[i])
                &&& dims.spec_is_on_team_side(reserve_candidates_upto(dims, team, n)[i], team)
            },
    decreases n,
{
    if n > 0 {
        lemma_candidates_own_half(dims, team, (n - 1) as nat);
        let prev = reserve_candidates_upto(dims, team, (n - 1) as nat);
        let rows = rows_from_center(dims);
        let block = rows.map_values(
            |y: int| Position { x: back_column(dims, team, n - 1) as i8, y: y as i8 },
        );
        let all = reserve_candidates_upto(dims, team, n);
        lemma_rows_near_in_pitch(div_trunc(dims.height as int, 2), dims.height - 2, (dims.height - 2) as nat);
        assert forall|i: int| 0 <= i < all.len() implies {
            &&& placed_ok(dims, team, #[trigger] all[i])
            &&& dims.spec_is_on_team_side(all[i], team)
        } by {
            if i < prev.len() {
                assert(all[i] == prev[i]);
            } else {
                let j = i - prev.len();
                assert(all[i] == block[j]);
                assert(1 <= rows[j] <= dims.height - 2);
            }
        }
    }
}

/// Twelve squares of the team's half outside the wings: the centre row and its two
/// neighbours in the four columns nearest the line.
pub open spec fn twelve_squares(dims: BoardDims, team: TeamType) -> Seq<Position> {
    let c = div_trunc(dims.height as int, 2);
    seq![
        back_square(dims, team, 0, c), back_square(dims, team, 0, c - 1), back_square(dims, team, 0, c + 1),
        back_square(dims, team, 1, c), back_square(dims, team, 1, c - 1), back_square(dims, team, 1, c + 1),
        back_square(dims, team, 2, c), back_square(dims, team, 2, c - 1), back_square(dims, team, 2, c + 1),
        back_square(dims, team, 3, c), back_square(dims, team, 3, c - 1), back_square(dims, team, 3, c + 1),
    ]
}

proof fn lemma_twelve_distinct(dims: BoardDims, team: TeamType)
    requires
        dims.valid(),
    ensures
        twelve_squares(dims, team).no_duplicates(),
        twelve_squares(dims, team).len() == 12,
{
    let c = div_trunc(dims.height as int, 2);
    lemma_center_rows_off_the_wings(dims);
    let s = twelve_squares(dims, team);
    assert forall|m: int| 0 <= m < 12 implies (#[trigger] s[m]).x as int == back_column(dims, team, m / 3)
        && s[m].y as int == c + (if m % 3 == 0 { 0int } else if m % 3 == 1 { -1int } else { 1int }) by {
    }
    assert forall|a: int, b: int| 0 <= a < 12 && 0 <= b < 12 && a != b implies #[trigger] s[a] != #[trigger] s[b] by {
        if a / 3 != b / 3 {
            assert(s[a].x != s[b].x);
        } else {
            assert(s[a].y != s[b].y);
        }
    }
}

proof fn lemma_twelve_are_candidates(dims: BoardDims, team: TeamType, m: int)
    requires
        dims.valid(),
        0 <= m < 12,
    ensures
        reserve_candidates(dims, team).contains(twelve_squares(dims, team)[m]),
        !in_wing(dims, twelve_squares(dims, team)[m].y as int),
        dims.spec_is_on_team_side(twelve_squares(dims, team)[m], team),
{
    let n = (div_trunc(dims.width as int, 2) - 1) as nat;
    let rows = rows_from_center(dims);
    let c = div_trunc(dims.height as int, 2);
    lemma_center_rows_off_the_wings(dims);
    lemma_rows_near_prefix(c, dims.height - 2, (dims.height - 2) as nat);
    let b = m / 3;
    let j = m % 3;
    assert(twelve_squares(dims, team)[m] == back_square(dims, team, b, rows[j]));
    lemma_candidates_contain(dims, team, n, b, j);
    lemma_candidates_own_half(dims, team, n);
    let cands = reserve_candidates(dims, team);
    let i = choose|i: int| 0 <= i < cands.len() && cands[i] == back_square(dims, team, b, rows[j]);
    assert(dims.spec_is_on_team_side(cands[i], team));
}

/// While fewer than twelve players are placed and no one else stands on the team's half, a
/// square of the half outside the wings is still free.
proof fn lemma_free_square_off_the_wings(
    dims: BoardDims,
    team: TeamType,
    occupied: Seq<Position>,
    placed: Seq<(PlayerID, Position)>,
)
    requires
        dims.valid(),
        placed.len() < 12,
        forall|i: int| 0 <= i < occupied.len() ==> !dims.spec_is_on_team_side(#[trigger] occupied[i], team),
    ensures
        exists|i: int|
            0 <= i < reserve_candidates(dims, team).len() && ({
                let p = #[trigger] reserve_candidates(dims, team)[i];
                !in_wing(dims, p.y as int) && !taken(occupied, placed, p)
            }),
{
    let cands = reserve_candidates(dims, team);
    if !(exists|i: int|
        0 <= i < cands.len() && ({
            let p = #[trigger] cands[i];
            !in_wing(dims, p.y as int) && !taken(occupied, placed, p)
        })) {
        let s = twelve_squares(dims, team);
        let placed_squares = placed.map_values(|e: (PlayerID, Position)| e.1);
        assert forall|m: int| 0 <= m < 12 implies placed_squares.contains(#[trigger] s[m]) by {
            lemma_twelve_are_candidates(dims, team, m);
            let i = choose|i: int| 0 <= i < cands.len() && cands[i] == s[m];
            assert(taken(occupied, placed, cands[i]));
            if occupied.contains(s[m]) {
                let o = choose|o: int| 0 <= o < occupied.len() && occupied[o] == s[m];
                assert(!dims.spec_is_on_team_side(occupied[o], team));
            }
            let k = choose|k: int| 0 <= k < placed.len() && (#[trigger] placed[k]).1 == s[m];
            assert(placed_squares[k] == s[m]);
        }
        lemma_twelve_distinct(dims, team);
        s.unique_seq_to_set();
        placed_squares.lemma_cardinality_of_set();
        assert(s.to_set().subset_of(placed_squares.to_set()));
        vstd::set_lib::lemma_len_subset(s.to_set(), placed_squares.to_set());
    }
}

/// The squares of the placed players, in fielding order.
pub open spec fn placed_squares(placed: Seq<(PlayerID, Position)>) -> Seq<Position> {
    placed.map_values(|e: (PlayerID, Position)| e.1)
}

proof fn lemma_filter_push<T>(s: Seq<T>, x: T, p: spec_fn(T) -> bool)
    ensures
        s.push(x).filter(p) == (if p(x) {
            s.filter(p).push(x)
        } else {
            s.filter(p)
        }),
{
    reveal_with_fuel(Seq::filter, 1);
    assert(s.push(x).drop_last() =~= s);
}

proof fn lemma_filter_len_at_least<T>(s: Seq<T>, p: spec_fn(T) -> bool, m: int)
    requires
        0 <= m <= s.len(),
        forall|i: int| 0 <= i < m ==> p(#[trigger] s[i]),
    ensures
        s.filter(p).len() >= m,
    decreases s.len(),
{
    if s.len() > 0 {
        let init = s.drop_last();
        assert(s == init.push(s.last()));
        lemma_filter_push(init, s.last(), p);
        if m == s.len() {
            assert forall|i: int| 0 <= i < m - 1 implies p(#[trigger] init[i]) by {
                assert(init[i] == s[i]);
            }
            lemma_filter_len_at_least(init, p, m - 1);
            assert(p(s[m - 1]));
        } else {
            assert forall|i: int| 0 <= i < m implies p(#[trigger] init[i]) by {
                assert(init[i] == s[i]);
            }
            lemma_filter_len_at_least(init, p, m);
        }
    }
}

proof fn lemma_wing_slot_count_mono(h: int, f: Formation, north: bool, a: nat, b: nat)
    requires
        a <= b,
    ensures
        wing_slot_count(h, f, north, a) <= wing_slot_count(h, f, north, b),
    decreases b,
{
    if a < b {
        lemma_wing_slot_count_mono(h, f, north, a, (b - 1) as nat);
    }
}

proof fn lemma_pick_index_in_range(bench: Seq<(PlayerID, PlayerRole)>, wanted: Option<PlayerRole>)
    requires
        bench.len() > 0,
    ensures
        0 <= pick_index(bench, wanted) < bench.len(),
{
    if let Some(w) = wanted {
        lemma_first_match(bench, |e: (PlayerID, PlayerRole)| e.1 == w);
    }
}

/// Offset from the centre row of the `i`-th row of the line of scrimmage: 0, +1, -1.
pub open spec fn los_offset(i: int) -> int {
    if i == 0 {
        0
    } else if i == 1 {
        1
    } else {
        -1
    }
}

/// Slots of the formation looked at so far, at most all of them.
pub open spec fn slots_seen(k: nat) -> nat {
    if k < 11 {
        k
    } else {
        11
    }
}

/// What holds of the fielding after every round: nobody got stuck, every player is on the
/// bench or placed, every placed player stands on the team's half, the first three stand on
/// the line of scrimmage, and each wing holds no more players than the slots seen so far
/// send there.
pub open spec fn fielding_inv(
    dims: BoardDims,
    team: TeamType,
    f: Formation,
    total: nat,
    st: Fielding,
) -> bool {
    let sq = placed_squares(st.placed);
    let c = div_trunc(dims.height as int, 2);
    let h = dims.height as int;
    &&& !st.stuck
    &&& st.placed.len() + st.bench.len() == total
    &&& st.placed.len() <= dims.team_size
    &&& forall|i: int|
        0 <= i < sq.len() ==> placed_ok(dims, team, #[trigger] sq[i]) && dims.spec_is_on_team_side(
            sq[i],
            team,
        )
    &&& (st.k < 3 ==> st.placed.len() == st.k)
    &&& (st.k >= 3 ==> st.placed.len() >= 3)
    &&& forall|i: int|
        0 <= i < 3 && i < sq.len() ==> on_los(dims, team, #[trigger] sq[i]) && sq[i].y == c
            + los_offset(i)
    &&& sq.filter(|p: Position| counts_north(dims, team, p)).len() <= wing_slot_count(
        h,
        f,
        true,
        slots_seen(st.k),
    )
    &&& sq.filter(|p: Position| counts_south(dims, team, p)).len() <= wing_slot_count(
        h,
        f,
        false,
        slots_seen(st.k),
    )
}

/// Placing a player on a square of the team's half that keeps the line and the wings in
/// order keeps the invariant, and uses up a bench player.
proof fn lemma_place_keeps_inv(
    dims: BoardDims,
    team: TeamType,
    f: Formation,
    total: nat,
    st: Fielding,
    pos: Position,
    wanted: Option<PlayerRole>,
)
    requires
        dims.valid(),
        fielding_inv(dims, team, f, total, st),
        !fielding_done(dims, st),
        placed_ok(dims, team, pos),
        dims.spec_is_on_team_side(pos, team),
        st.k < 3 ==> on_los(dims, team, pos) && pos.y == div_trunc(dims.height as int, 2)
            + los_offset(st.k as int),
        wing_slot_count(dims.height as int, f, true, slots_seen(st.k + 1)) >= wing_slot_count(
            dims.height as int,
            f,
            true,
            slots_seen(st.k),
        ) + (if counts_north(dims, team, pos) {
            1int
        } else {
            0
        }),
        wing_slot_count(dims.height as int, f, false, slots_seen(st.k + 1)) >= wing_slot_count(
            dims.height as int,
            f,
            false,
            slots_seen(st.k),
        ) + (if counts_south(dims, team, pos) {
            1int
        } else {
            0
        }),
    ensures
        fielding_inv(dims, team, f, total, place(st, pos, wanted)),
        fielding_measure(place(st, pos, wanted)) < fielding_measure(st),
{
    lemma_pick_index_in_range(st.bench, wanted);
    let i = pick_index(st.bench, wanted);
    let next = place(st, pos, wanted);
    let sq = placed_squares(st.placed);
    let sq2 = placed_squares(next.placed);
    assert(sq2 =~= sq.push(pos));
    lemma_filter_push(sq, pos, |p: Position| counts_north(dims, team, p));
    lemma_filter_push(sq, pos, |p: Position| counts_south(dims, team, p));
    assert forall|j: int| 0 <= j < sq2.len() implies placed_ok(dims, team, #[trigger] sq2[j])
        && dims.spec_is_on_team_side(sq2[j], team) by {
        if j < sq.len() {
            assert(sq2[j] == sq[j]);
        }
    }
    assert forall|j: int| 0 <= j < 3 && j < sq2.len() implies on_los(dims, team, #[trigger] sq2[j])
        && sq2[j].y == div_trunc(dims.height as int, 2) + los_offset(j) by {
        if j < sq.len() {
            assert(sq2[j] == sq[j]);
        }
    }
}

/// A player sent to a reserve square while fewer than twelve are placed lands on a free
/// square of the team's half outside the wings, which keeps the invariant.
proof fn lemma_reserve_keeps_inv(
    dims: BoardDims,
    team: TeamType,
    f: Formation,
    occupied: Seq<Position>,
    total: nat,
    st: Fielding,
    wanted: Option<PlayerRole>,
)
    requires
        dims.valid(),
        forall|i: int| 0 <= i < occupied.len() ==> !dims.spec_is_on_team_side(#[trigger] occupied[i], team),
        fielding_inv(dims, team, f, total, st),
        !fielding_done(dims, st),
        st.k >= 3,
    ensures
        fielding_inv(dims, team, f, total, place_in_reserve(dims, team, occupied, st, wanted)),
        fielding_measure(place_in_reserve(dims, team, occupied, st, wanted)) < fielding_measure(st),
{
    let cands = reserve_candidates(dims, team);
    let pw = |p: Position| !in_wing(dims, p.y as int) && !taken(occupied, st.placed, p);
    lemma_free_square_off_the_wings(dims, team, occupied, st.placed);
    lemma_first_match(cands, pw);
    let i = first_match(cands, pw)->0;
    let r = cands[i];
    assert(spec_reserve_square(dims, team, occupied, st.placed) == Some(r));
    lemma_candidates_own_half(dims, team, (div_trunc(dims.width as int, 2) - 1) as nat);
    assert(placed_ok(dims, team, r) && dims.spec_is_on_team_side(r, team));
    assert(!in_wing(dims, r.y as int));
    lemma_wing_slot_count_mono(dims.height as int, f, true, slots_seen(st.k), slots_seen(st.k + 1));
    lemma_wing_slot_count_mono(dims.height as int, f, false, slots_seen(st.k), slots_seen(st.k + 1));
    lemma_place_keeps_inv(dims, team, f, total, st, r, wanted);
}

/// Every round of fielding keeps the invariant and brings the fielding closer to its end.
proof fn lemma_fielding_step_inv(
    dims: BoardDims,
    team: TeamType,
    f: Formation,
    occupied: Seq<Position>,
    total: nat,
    st: Fielding,
)
    requires
        dims.valid(),
        forall|i: int| 0 <= i < occupied.len() ==> !dims.spec_is_on_team_side(#[trigger] occupied[i], team),
        fielding_inv(dims, team, f, total, st),
        !fielding_done(dims, st),
    ensures
        fielding_inv(dims, team, f, total, fielding_step(dims, team, f, occupied, st)),
        fielding_measure(fielding_step(dims, team, f, occupied, st)) < fielding_measure(st),
{
    let h = dims.height as int;
    let slots = spec_formation_slots(f);
    lemma_formation_slots_well_shaped(f, 0);
    if st.k < 11 {
        let k = st.k as int;
        let s = slots[k];
        lemma_formation_squares_on_own_half(dims, team, f, k);
        if k < 3 {
            lemma_formation_opens_on_the_line(dims, team, f, k);
        }
        match spec_square(dims, team, s) {
            None => {
                assert(slot_row(h, s.2) is None);
                let next = Fielding { k: st.k + 1, ..st };
                assert(wing_slot_count(h, f, true, slots_seen(st.k + 1)) == wing_slot_count(h, f, true, slots_seen(st.k)));
                assert(wing_slot_count(h, f, false, slots_seen(st.k + 1)) == wing_slot_count(h, f, false, slots_seen(st.k)));
                assert(fielding_inv(dims, team, f, total, next));
            },
            Some(sq) => {
                let pos = Position { x: sq.0 as i8, y: sq.1 as i8 };
                assert(pos.x == sq.0 && pos.y == sq.1);
                assert(slot_row(h, s.2) == Some(sq.1));
                if dims.spec_is_out(pos) || taken(occupied, st.placed, pos) {
                    if k < 3 {
                        let sqs = placed_squares(st.placed);
                        assert(!occupied.contains(pos)) by {
                            if occupied.contains(pos) {
                                let o = choose|o: int| 0 <= o < occupied.len() && occupied[o] == pos;
                                assert(!dims.spec_is_on_team_side(occupied[o], team));
                            }
                        }
                        assert forall|j: int| 0 <= j < st.placed.len() implies (#[trigger] st.placed[j]).1 != pos by {
                            assert(sqs[j] == st.placed[j].1);
                            assert(sqs[j].y == div_trunc(dims.height as int, 2) + los_offset(j));
                        }
                        assert(false);
                    }
                    lemma_reserve_keeps_inv(dims, team, f, occupied, total, st, Some(s.0));
                } else {
                    lemma_place_keeps_inv(dims, team, f, total, st, pos, Some(s.0));
                }
            },
        }
    } else {
        lemma_reserve_keeps_inv(dims, team, f, occupied, total, st, None);
    }
}

proof fn lemma_fielding_after_inv(
    dims: BoardDims,
    team: TeamType,
    f: Formation,
    occupied: Seq<Position>,
    total: nat,
    st: Fielding,
    n: nat,
)
    requires
        dims.valid(),
        forall|i: int| 0 <= i < occupied.len() ==> !dims.spec_is_on_team_side(#[trigger] occupied[i], team),
        fielding_inv(dims, team, f, total, st),
    ensures
        fielding_inv(dims, team, f, total, fielding_after(dims, team, f, occupied, st, n)),
        fielding_done(dims, fielding_after(dims, team, f, occupied, st, n)) || fielding_measure(
            fielding_after(dims, team, f, occupied, st, n),
        ) + n <= fielding_measure(st),
    decreases n,
{
    if n > 0 {
        if fielding_done(dims, st) {
            lemma_fielding_done_absorbs(dims, team, f, occupied, st, n);
        } else {
            lemma_fielding_step_inv(dims, team, f, occupied, total, st);
            lemma_fielding_after_inv(
                dims,
                team,
                f,
                occupied,
                total,
                fielding_step(dims, team, f, occupied, st),
                (n - 1) as nat,
            );
        }
    }
}

/// Fielding any team in any formation on a valid board is a legal setup, provided nobody
/// else stands on the team's half and the team size is at least three: the whole team size
/// or the whole bench is fielded, everyone on the team's own half, three on the line of
/// scrimmage (or everyone when fewer are fielded), and at most two per wing. Nobody is left
/// without a square.
pub proof fn lemma_formation_setup_is_legal(
    dims: BoardDims,
    team: TeamType,
    f: Formation,
    reserves: Seq<(PlayerID, PlayerRole)>,
    occupied: Seq<Position>,
)
    requires
        dims.valid(),
        dims.team_size >= 3,
        forall|i: int| 0 <= i < occupied.len() ==> !dims.spec_is_on_team_side(#[trigger] occupied[i], team),
    ensures
        !spec_setup_formation(dims, team, f, reserves, occupied).stuck,
        spec_setup_formation(dims, team, f, reserves, occupied).placed.len()
            + spec_setup_formation(dims, team, f, reserves, occupied).bench.len() == reserves.len(),
        spec_is_setup_legal(
            dims,
            team,
            placed_squares(spec_setup_formation(dims, team, f, reserves, occupied).placed),
            spec_setup_formation(dims, team, f, reserves, occupied).bench.len(),
        ),
{
    let total = reserves.len();
    lemma_sorted_bench(reserves);
    let init = Fielding { k: 0, bench: sorted_bench(reserves), placed: Seq::empty(), stuck: false };
    let sq0 = placed_squares(init.placed);
    assert(sq0 =~= Seq::<Position>::empty());
    assert(sq0.filter(|p: Position| counts_north(dims, team, p)) =~= Seq::<Position>::empty());
    assert(sq0.filter(|p: Position| counts_south(dims, team, p)) =~= Seq::<Position>::empty());
    assert(fielding_inv(dims, team, f, total, init));
    let n = 12 + total;
    lemma_fielding_after_inv(dims, team, f, occupied, total, init, n as nat);
    let r = fielding_after(dims, team, f, occupied, init, n as nat);
    assert(r == spec_setup_formation(dims, team, f, reserves, occupied));
    assert(fielding_done(dims, r));
    let sq = placed_squares(r.placed);
    let h = dims.height as int;
    lemma_formation_wings_hold_two(h);
    lemma_wing_slot_count_mono(h, f, true, slots_seen(r.k), 11);
    lemma_wing_slot_count_mono(h, f, false, slots_seen(r.k), 11);
    assert(wing_slot_count(h, f, true, 11) <= 2) by {
        match f {
            Formation::Line => {},
            Formation::Spread => {},
            Formation::Wedge => {},
            Formation::Zone => {},
        }
    }
    assert(wing_slot_count(h, f, false, 11) <= 2) by {
        match f {
            Formation::Line => {},
            Formation::Spread => {},
            Formation::Wedge => {},
            Formation::Zone => {},
        }
    }
    let m: int = if sq.len() >= 3 { 3 } else { sq.len() as int };
    assert forall|i: int| 0 <= i < m implies counts_on_los(dims, team, #[trigger] sq[i]) by {}
    lemma_filter_len_at_least(sq, |p: Position| counts_on_los(dims, team, p), m);
}

} // verus!
