use std::time::{Duration, SystemTime};

use vstd::prelude::*;
use vstd::string::StringExecFns;

use crate::board::BoardDims;
use crate::model::{TeamType, HEIGHT, TEAM_SIZE, WIDTH};

verus! {

/// Schema version of the provenance records; bumped on any breaking change.
pub const FORMAT_VERSION: u32 = 1;

/// The git commit this library was built at, or `"unknown"` when none was stamped at build
/// time. This build stamps none.
pub fn git_commit() -> (r: &'static str)
    ensures
        r@ == "unknown"@,
{
    "unknown"
}

/// Whether the working tree had uncommitted changes at build time; with no stamped commit
/// there is nothing to qualify, so this build reports a clean tree.
pub fn git_dirty() -> (r: bool)
    ensures
        r == false,
{
    false
}

/// Which team acts at a node, kept apart from the engine's `TeamType` so the stored schema
/// does not depend on it.
#[derive(Clone, Copy, Debug, PartialEq, Eq, Structural)]
pub enum Team {
    Home,
    Away,
}

pub open spec fn team_from_team_type(t: TeamType) -> Team {
    match t {
        TeamType::Home => Team::Home,
        TeamType::Away => Team::Away,
    }
}

pub open spec fn team_type_from_team(t: Team) -> TeamType {
    match t {
        Team::Home => TeamType::Home,
        Team::Away => TeamType::Away,
    }
}

impl From<TeamType> for Team {
    fn from(t: TeamType) -> (r: Team) {
        match t {
            TeamType::Home => Team::Home,
            TeamType::Away => Team::Away,
        }
    }
}

impl vstd::std_specs::convert::FromSpecImpl<TeamType> for Team {
    open spec fn obeys_from_spec() -> bool {
        true
    }

    open spec fn from_spec(t: TeamType) -> Team {
        team_from_team_type(t)
    }
}

impl From<Team> for TeamType {
    fn from(t: Team) -> (r: TeamType) {
        match t {
            Team::Home => TeamType::Home,
            Team::Away => TeamType::Away,
        }
    }
}

impl vstd::std_specs::convert::FromSpecImpl<Team> for TeamType {
    open spec fn obeys_from_spec() -> bool {
        true
    }

    open spec fn from_spec(t: Team) -> TeamType {
        team_type_from_team(t)
    }
}

/// Converting a team to the schema's `Team` and back gives the team again, both ways round.
pub proof fn lemma_team_round_trip(t: TeamType, u: Team)
    ensures
        team_type_from_team(team_from_team_type(t)) == t,
        team_from_team_type(team_type_from_team(u)) == u,
{
}

/// The board capacity compiled into the library: the largest board it can run.
#[derive(Clone, Copy, Debug, PartialEq, Eq, Structural)]
pub struct BoardCapacity {
    /// Width including the out-of-bounds border.
    pub width: usize,
    /// Height including the out-of-bounds border.
    pub height: usize,
    /// Players fielded per team at most.
    pub team_size: usize,
}

impl BoardCapacity {
    /// The capacity compiled into the current build.
    pub fn current() -> (r: Self)
        ensures
            r.width == WIDTH,
            r.height == HEIGHT,
            r.team_size == TEAM_SIZE,
    {
        BoardCapacity { width: WIDTH, height: HEIGHT, team_size: TEAM_SIZE }
    }
}

#[verifier::external_type_specification]
#[verifier::external_body]
pub struct ExSystemTime(SystemTime);

/// Calls `SystemTime::now`. Nothing is claimed of the result: it is the wall clock.
#[verifier::external_body]
fn system_now() -> (r: SystemTime) {
    SystemTime::now()
}

/// Calls `SystemTime::duration_since` against the unix epoch: the time elapsed since then,
/// or `None` when `t` lies before the epoch. Nothing is claimed of the value: it is a reading
/// of the clock.
#[verifier::external_body]
fn elapsed_since_unix_epoch(t: SystemTime) -> (r: Option<Duration>) {
    match t.duration_since(SystemTime::UNIX_EPOCH) {
        Ok(d) => Some(d),
        Err(_) => None,
    }
}

/// Calls `Duration::as_secs`: the whole seconds of `d`. Nothing is claimed of the value, as
/// nothing is known of `d`.
#[verifier::external_body]
fn whole_secs(d: Duration) -> (r: u64) {
    d.as_secs()
}

/// Whole seconds from the unix epoch to `t`, or `None` when `t` lies before it.
fn secs_since_unix_epoch(t: SystemTime) -> (r: Option<u64>) {
    match elapsed_since_unix_epoch(t) {
        Some(d) => Some(whole_secs(d)),
        None => None,
    }
}

/// Provenance for a batch of samples: the build, the boards, the bots and the seed.
#[derive(Clone, Debug)]
pub struct TrajectoryMeta {
    pub format_version: u32,
    /// Git commit the generating build was made at, or `"unknown"`.
    pub git_commit: String,
    /// The working tree was dirty at build time.
    pub git_dirty: bool,
    /// Largest board the generating build supports.
    pub board_capacity: BoardCapacity,
    /// Board actually in play.
    pub board_dims: BoardDims,
    /// Where the data came from: `"self-play"`, a lecture name, and so on.
    pub source: String,
    /// Descriptor of the Home bot.
    pub home_bot: String,
    /// Descriptor of the Away bot.
    pub away_bot: String,
    /// The seed the trajectory was generated with, if any.
    pub seed: Option<u64>,
    /// Wall-clock creation time in unix seconds, best effort.
    pub created_unix_secs: Option<u64>,
    /// Free-form key/value extras, kept in key order, each key once.
    pub extra: Vec<(String, String)>,
}

/// The extras as key and value text.
pub open spec fn extra_view(extra: Seq<(String, String)>) -> Seq<(Seq<char>, Seq<char>)> {
    extra.map_values(|p: (String, String)| (p.0@, p.1@))
}

/// `i` is the first position of `key` among the extras' keys.
pub open spec fn first_key_at(extra: Seq<(Seq<char>, Seq<char>)>, key: Seq<char>, i: int) -> bool {
    &&& 0 <= i < extra.len()
    &&& extra[i].0 == key
    &&& forall|j: int| 0 <= j < i ==> extra[j].0 != key
}

/// The first position of `key` among the extras' keys, if it occurs.
pub open spec fn extra_position(extra: Seq<(Seq<char>, Seq<char>)>, key: Seq<char>) -> Option<int> {
    if exists|i: int| 0 <= i < extra.len() && extra[i].0 == key {
        Some(choose|i: int| first_key_at(extra, key, i))
    } else {
        None
    }
}

/// `a` sorts before `b` at place `i`: they agree before it, and there `a` has ended while `b`
/// goes on, or `a` has the smaller character.
pub open spec fn less_at(a: Seq<char>, b: Seq<char>, i: int) -> bool {
    &&& 0 <= i <= a.len()
    &&& i <= b.len()
    &&& forall|j: int| 0 <= j < i ==> a[j] == b[j]
    &&& ((i == a.len() && i < b.len()) || (i < a.len() && i < b.len() && a[i] < b[i]))
}

/// `a` sorts before `b` in the order of text: character by character, a proper prefix first.
/// For `str` this is the order of its UTF-8 bytes.
pub open spec fn key_less(a: Seq<char>, b: Seq<char>) -> bool {
    exists|i: int| #[trigger] less_at(a, b, i)
}

/// `p` is where `key` goes among the extras: every key before it sorts before `key`, and the
/// key at `p`, if any, does not.
pub open spec fn is_extra_slot(extra: Seq<(Seq<char>, Seq<char>)>, key: Seq<char>, p: int) -> bool {
    &&& 0 <= p <= extra.len()
    &&& forall|j: int| 0 <= j < p ==> key_less(#[trigger] extra[j].0, key)
    &&& p < extra.len() ==> !key_less(extra[p].0, key)
}

/// Where `key` goes among the extras.
pub open spec fn extra_slot(extra: Seq<(Seq<char>, Seq<char>)>, key: Seq<char>) -> int {
    choose|p: int| is_extra_slot(extra, key, p)
}

/// The extras after setting `key` to `value`, kept in key order: the key takes its place
/// before the first key that does not sort before it, and replaces that entry when it is the
/// same key.
pub open spec fn extra_set(
    extra: Seq<(Seq<char>, Seq<char>)>,
    key: Seq<char>,
    value: Seq<char>,
) -> Seq<(Seq<char>, Seq<char>)> {
    let p = extra_slot(extra, key);
    if p < extra.len() && extra[p].0 == key {
        extra.update(p, (key, value))
    } else {
        extra.insert(p, (key, value))
    }
}

/// Every key sorts before the next: each occurs once, in key order.
pub open spec fn keys_sorted(extra: Seq<(Seq<char>, Seq<char>)>) -> bool {
    forall|i: int| 0 <= i < extra.len() - 1 ==> key_less(#[trigger] extra[i].0, extra[i + 1].0)
}

/// No text sorts before itself.
proof fn lemma_key_irreflexive(a: Seq<char>)
    ensures
        !key_less(a, a),
{
}

/// There is exactly one place for a key among the extras.
proof fn lemma_extra_slot(extra: Seq<(Seq<char>, Seq<char>)>, key: Seq<char>)
    ensures
        is_extra_slot(extra, key, extra_slot(extra, key)),
        forall|q: int| is_extra_slot(extra, key, q) ==> q == extra_slot(extra, key),
    decreases extra.len(),
{
    if extra.len() == 0 {
        assert(is_extra_slot(extra, key, 0));
    } else {
        let init = extra.drop_last();
        lemma_extra_slot(init, key);
        let q = extra_slot(init, key);
        let n = init.len() as int;
        if q < n {
            assert forall|j: int| 0 <= j < q implies key_less(#[trigger] extra[j].0, key) by {
                assert(init[j] == extra[j]);
            }
            assert(init[q] == extra[q]);
            assert(is_extra_slot(extra, key, q));
        } else if key_less(extra[n].0, key) {
            assert forall|j: int| 0 <= j < n + 1 implies key_less(#[trigger] extra[j].0, key) by {
                if j < n {
                    assert(init[j] == extra[j]);
                }
            }
            assert(is_extra_slot(extra, key, n + 1));
        } else {
            assert forall|j: int| 0 <= j < n implies key_less(#[trigger] extra[j].0, key) by {
                assert(init[j] == extra[j]);
            }
            assert(is_extra_slot(extra, key, n));
        }
    }
    let p = extra_slot(extra, key);
    assert forall|q: int| is_extra_slot(extra, key, q) implies q == p by {
        if q < p {
            assert(key_less(extra[q].0, key));
        } else if p < q {
            assert(key_less(extra[p].0, key));
        }
    }
}

/// Two different texts are ordered one way or the other.
proof fn lemma_key_total(a: Seq<char>, b: Seq<char>)
    requires
        a != b,
    ensures
        key_less(a, b) || key_less(b, a),
    decreases a.len(),
{
    if a.len() == 0 {
        assert(b.len() > 0) by {
            if b.len() == 0 {
                assert(a =~= b);
            }
        }
        assert(less_at(a, b, 0));
    } else if b.len() == 0 {
        assert(less_at(b, a, 0));
    } else if a[0] != b[0] {
        if a[0] < b[0] {
            assert(less_at(a, b, 0));
        } else {
            assert(less_at(b, a, 0));
        }
    } else {
        let ta = a.drop_first();
        let tb = b.drop_first();
        assert(ta != tb) by {
            if ta =~= tb {
                assert(a =~= b) by {
                    assert forall|j: int| 0 <= j < a.len() implies a[j] == b[j] by {
                        if j > 0 {
                            assert(a[j] == ta[j - 1]);
                            assert(b[j] == tb[j - 1]);
                        }
                    }
                }
            }
        }
        lemma_key_total(ta, tb);
        if key_less(ta, tb) {
            let i = choose|i: int| less_at(ta, tb, i);
            assert forall|j: int| 0 <= j < i + 1 implies a[j] == b[j] by {
                if j > 0 {
                    assert(ta[j - 1] == tb[j - 1]);
                }
            }
            assert(less_at(a, b, i + 1));
        } else {
            let i = choose|i: int| less_at(tb, ta, i);
            assert forall|j: int| 0 <= j < i + 1 implies b[j] == a[j] by {
                if j > 0 {
                    assert(tb[j - 1] == ta[j - 1]);
                }
            }
            assert(less_at(b, a, i + 1));
        }
    }
}

/// Setting a key keeps the extras in key order, each key once.
pub proof fn lemma_extra_set_keeps_order(
    extra: Seq<(Seq<char>, Seq<char>)>,
    key: Seq<char>,
    value: Seq<char>,
)
    requires
        keys_sorted(extra),
    ensures
        keys_sorted(extra_set(extra, key, value)),
{
    lemma_extra_slot(extra, key);
    let p = extra_slot(extra, key);
    let s = extra_set(extra, key, value);
    if p < extra.len() && extra[p].0 == key {
        assert forall|i: int| 0 <= i < s.len() - 1 implies key_less(#[trigger] s[i].0, s[i + 1].0) by {
            assert(key_less(extra[i].0, extra[i + 1].0));
        }
    } else {
        if p < extra.len() {
            lemma_key_total(extra[p].0, key);
        }
        assert forall|i: int| 0 <= i < s.len() - 1 implies key_less(#[trigger] s[i].0, s[i + 1].0) by {
            if i < p - 1 {
                assert(key_less(extra[i].0, extra[i + 1].0));
            } else if i == p - 1 {
                assert(key_less(extra[i].0, key));
            } else if i == p {
                assert(s[i + 1] == extra[p]);
            } else {
                assert(s[i] == extra[i - 1]);
                assert(s[i + 1] == extra[i]);
                assert(key_less(extra[i - 1].0, extra[i].0));
            }
        }
    }
}

/// The value recorded for `key` in the extras, if any.
pub open spec fn extra_get(extra: Seq<(Seq<char>, Seq<char>)>, key: Seq<char>) -> Option<Seq<char>> {
    match extra_position(extra, key) {
        Some(i) => Some(extra[i].1),
        None => None,
    }
}

/// `extra_position` finds the first occurrence of the key, and finds none exactly when the
/// key does not occur.
proof fn lemma_extra_position(extra: Seq<(Seq<char>, Seq<char>)>, key: Seq<char>)
    ensures
        extra_position(extra, key) matches Some(i) ==> first_key_at(extra, key, i),
        extra_position(extra, key) is None <==> forall|j: int|
            0 <= j < extra.len() ==> extra[j].0 != key,
{
    if exists|i: int| 0 <= i < extra.len() && extra[i].0 == key {
        let m = lemma_first_key_exists(extra, key);
        assert(first_key_at(extra, key, m));
    }
}

/// Where the key occurs, it has a first position.
proof fn lemma_first_key_exists(extra: Seq<(Seq<char>, Seq<char>)>, key: Seq<char>) -> (m: int)
    requires
        exists|i: int| 0 <= i < extra.len() && extra[i].0 == key,
    ensures
        first_key_at(extra, key, m),
    decreases extra.len(),
{
    let n = extra.len() - 1;
    let init = extra.drop_last();
    if exists|i: int| 0 <= i < init.len() && init[i].0 == key {
        let m = lemma_first_key_exists(init, key);
        assert forall|j: int| 0 <= j < m implies extra[j].0 != key by {
            assert(init[j] == extra[j]);
        }
        m
    } else {
        let w = choose|i: int| 0 <= i < extra.len() && extra[i].0 == key;
        if w < n {
            assert(init[w] == extra[w]);
        }
        assert forall|j: int| 0 <= j < n implies extra[j].0 != key by {
            assert(init[j] == extra[j]);
        }
        n
    }
}

/// Setting a key and then reading it gives the value set; reading any other key gives what it
/// gave before.
pub proof fn lemma_extra_read_after_set(
    extra: Seq<(Seq<char>, Seq<char>)>,
    key: Seq<char>,
    value: Seq<char>,
    other: Seq<char>,
)
    ensures
        extra_get(extra_set(extra, key, value), key) == Some(value),
        other != key ==> extra_get(extra_set(extra, key, value), other) == extra_get(extra, other),
{
    lemma_extra_slot(extra, key);
    let p = extra_slot(extra, key);
    let s = extra_set(extra, key, value);
    lemma_extra_position(s, key);
    lemma_extra_position(extra, other);
    lemma_extra_position(s, other);
    lemma_key_irreflexive(key);
    assert forall|j: int| 0 <= j < p implies extra[j].0 != key by {
        assert(key_less(extra[j].0, key));
    }
    if p < extra.len() && extra[p].0 == key {
        assert(s[p].0 == key);
        let c = extra_position(s, key)->0;
        assert(c == p) by {
            if c < p {
                assert(s[c] == extra[c]);
            }
        }
        if other != key {
            assert forall|j: int| 0 <= j < s.len() implies (s[j].0 == other <==> extra[j].0 == other) by {
                if j != p {
                    assert(s[j] == extra[j]);
                }
            }
            match (extra_position(extra, other), extra_position(s, other)) {
                (Some(a), Some(b)) => {
                    assert(a == b) by {
                        if a < b {
                            assert(s[a].0 == other);
                        } else if b < a {
                            assert(extra[b].0 == other);
                        }
                    }
                    assert(s[a] == extra[a]);
                },
                (Some(a), None) => {
                    assert(s[a].0 == other);
                },
                (None, Some(b)) => {
                    assert(extra[b].0 == other);
                },
                (None, None) => {},
            }
        }
    } else {
        assert(s[p] == (key, value));
        let c = extra_position(s, key)->0;
        assert(c == p) by {
            if c < p {
                assert(s[c] == extra[c]);
            }
        }
        if other != key {
            match extra_position(extra, other) {
                Some(a) => {
                    let fa = if a < p {
                        a
                    } else {
                        a + 1
                    };
                    assert(s[fa] == extra[a]);
                    let b = extra_position(s, other)->0;
                    assert(b == fa) by {
                        if b < fa {
                            if b < p {
                                assert(s[b] == extra[b]);
                            } else if b > p {
                                assert(s[b] == extra[b - 1]);
                            }
                        } else if fa < b {
                            assert(s[fa].0 == other);
                        }
                    }
                },
                None => {
                    assert forall|j: int| 0 <= j < s.len() implies s[j].0 != other by {
                        if j < p {
                            assert(s[j] == extra[j]);
                        } else if j > p {
                            assert(s[j] == extra[j - 1]);
                        }
                    }
                },
            }
        }
    }
}

/// `a` sorts before `b` in the order of text.
fn str_less(a: &str, b: &str) -> (r: bool)
    ensures
        r == key_less(a@, b@),
{
    let la = a.unicode_len();
    let lb = b.unicode_len();
    let mut i: usize = 0;
    while i < la && i < lb
        invariant
            i <= la,
            i <= lb,
            la == a@.len(),
            lb == b@.len(),
            forall|j: int| 0 <= j < i ==> a@[j] == b@[j],
        decreases la - i,
    {
        let ca = a.get_char(i);
        let cb = b.get_char(i);
        if ca != cb {
            let r = ca < cb;
            proof {
                if r {
                    assert(less_at(a@, b@, i as int));
                } else {
                    assert forall|j: int| !less_at(a@, b@, j) by {
                        if j > i {
                            if less_at(a@, b@, j) {
                                assert(a@[i as int] == b@[i as int]);
                            }
                        }
                    }
                }
            }
            return r;
        }
        i += 1;
    }
    let r = la < lb;
    proof {
        if r {
            assert(less_at(a@, b@, i as int));
        } else {
            assert forall|j: int| !less_at(a@, b@, j) by {
                if j > i && less_at(a@, b@, j) {
                    assert(j <= b@.len());
                }
            }
        }
    }
    r
}

/// Sets `key` to `value` in the extras, kept in key order, in place of an earlier value of
/// that key.
fn set_extra(extra: &mut Vec<(String, String)>, k: String, v: String)
    ensures
        extra_view(final(extra)@) == extra_set(extra_view(old(extra)@), k@, v@),
{
    let ghost old_view = extra_view(extra@);
    let mut i: usize = 0;
    loop
        invariant
            i <= extra@.len(),
            extra@ == old(extra)@,
            old_view == extra_view(old(extra)@),
            forall|j: int| 0 <= j < i ==> key_less(#[trigger] old_view[j].0, k@),
        ensures
            i <= extra@.len(),
            extra@ == old(extra)@,
            forall|j: int| 0 <= j < i ==> key_less(#[trigger] old_view[j].0, k@),
            i < extra@.len() ==> !key_less(old_view[i as int].0, k@),
        decreases extra@.len() - i,
    {
        if i >= extra.len() {
            break;
        }
        if !str_less(extra[i].0.as_str(), k.as_str()) {
            break;
        }
        i += 1;
    }
    proof {
        assert(is_extra_slot(old_view, k@, i as int));
        lemma_extra_slot(old_view, k@);
    }
    let ghost kv = k@;
    let ghost vv = v@;
    let same = i < extra.len() && !str_less(k.as_str(), extra[i].0.as_str());
    proof {
        if i < extra.len() {
            if !key_less(kv, old_view[i as int].0) && old_view[i as int].0 != kv {
                lemma_key_total(old_view[i as int].0, kv);
            }
            lemma_key_irreflexive(kv);
        }
    }
    if same {
        extra.set(i, (k, v));
        assert(extra_view(extra@) =~= old_view.update(i as int, (kv, vv)));
    } else {
        extra.insert(i, (k, v));
        assert(extra_view(extra@) =~= old_view.insert(i as int, (kv, vv)));
    }
}

impl TrajectoryMeta {
    /// A record stamped with this build's commit and capacity and the current wall-clock
    /// time; bots and seed are filled in with the builder methods.
    pub fn new(source: &str, board_dims: BoardDims) -> (r: Self)
        ensures
            r.format_version == FORMAT_VERSION,
            r.git_commit@ == "unknown"@,
            r.git_dirty == false,
            r.board_capacity == (BoardCapacity { width: WIDTH, height: HEIGHT, team_size: TEAM_SIZE }),
            r.board_dims == board_dims,
            r.source@ == source@,
            r.home_bot@.len() == 0,
            r.away_bot@.len() == 0,
            r.seed is None,
            r.extra@.len() == 0,
    {
        let created = secs_since_unix_epoch(system_now());
        TrajectoryMeta {
            format_version: FORMAT_VERSION,
            git_commit: String::from_str(git_commit()),
            git_dirty: git_dirty(),
            board_capacity: BoardCapacity::current(),
            board_dims,
            source: String::from_str(source),
            home_bot: String::new(),
            away_bot: String::new(),
            seed: None,
            created_unix_secs: created,
            extra: Vec::new(),
        }
    }

    /// The record with the two bots' descriptors set.
    pub fn with_bots(self, home: &str, away: &str) -> (r: Self)
        ensures
            r.home_bot@ == home@,
            r.away_bot@ == away@,
            r.format_version == self.format_version,
            r.git_commit@ == self.git_commit@,
            r.git_dirty == self.git_dirty,
            r.board_capacity == self.board_capacity,
            r.board_dims == self.board_dims,
            r.source@ == self.source@,
            r.seed == self.seed,
            r.created_unix_secs == self.created_unix_secs,
            extra_view(r.extra@) == extra_view(self.extra@),
    {
        let mut m = self;
        m.home_bot = String::from_str(home);
        m.away_bot = String::from_str(away);
        m
    }

    /// The record with the seed set.
    pub fn with_seed(self, seed: u64) -> (r: Self)
        ensures
            r.seed == Some(seed),
            r.home_bot@ == self.home_bot@,
            r.away_bot@ == self.away_bot@,
            r.format_version == self.format_version,
            r.git_commit@ == self.git_commit@,
            r.git_dirty == self.git_dirty,
            r.board_capacity == self.board_capacity,
            r.board_dims == self.board_dims,
            r.source@ == self.source@,
            r.created_unix_secs == self.created_unix_secs,
            extra_view(r.extra@) == extra_view(self.extra@),
    {
        let mut m = self;
        m.seed = Some(seed);
        m
    }

    /// The record with extra `key` set to `value`, replacing an earlier value of that key.
    pub fn with_extra(self, key: &str, value: &str) -> (r: Self)
        ensures
            extra_view(r.extra@) == extra_set(extra_view(self.extra@), key@, value@),
            r.seed == self.seed,
            r.home_bot@ == self.home_bot@,
            r.away_bot@ == self.away_bot@,
            r.format_version == self.format_version,
            r.git_commit@ == self.git_commit@,
            r.git_dirty == self.git_dirty,
            r.board_capacity == self.board_capacity,
            r.board_dims == self.board_dims,
            r.source@ == self.source@,
            r.created_unix_secs == self.created_unix_secs,
    {
        let mut m = self;
        set_extra(&mut m.extra, String::from_str(key), String::from_str(value));
        m
    }
}

} // verus!
