use vstd::prelude::*;

use crate::dice::{D6Target, Sum2D6Target};
use crate::model::{DugoutPlace, DugoutPlayerID, PlayerID, PlayerStatus, Position, TeamType};
use crate::table::{PlayerRole, Skill, lemma_all_skills_indexed};

verus! {

/// A set of skills.
#[derive(Debug, Clone, Copy, Hash)]
pub struct SkillSet {
    flags: [bool; 39],
}

impl View for SkillSet {
    type V = Set<Skill>;

    closed spec fn view(&self) -> Set<Skill> {
        Set::new(|s: Skill| self.flags@[s.spec_index() as int])
    }
}

/// Two skills with the same index are the same skill.
pub proof fn lemma_skill_index_injective(a: Skill, b: Skill)
    requires
        a.spec_index() == b.spec_index(),
    ensures
        a == b,
{
    lemma_all_skill_round_trip(a);
    lemma_all_skill_round_trip(b);
}

/// A skill sits in `Skill::ALL` at its own index.
pub proof fn lemma_all_skill_round_trip(s: Skill)
    ensures
        Skill::ALL@[s.spec_index() as int] == s,
{
}

impl SkillSet {
    pub fn new() -> (r: SkillSet)
        ensures
            r@ == Set::<Skill>::empty(),
    {
        let r = SkillSet { flags: [false; 39] };
        assert(r@ =~= Set::<Skill>::empty());
        r
    }

    pub fn contains(&self, skill: &Skill) -> (r: bool)
        ensures
            r == self@.contains(*skill),
    {
        self.flags[skill.index()]
    }

    /// Add a skill; true if it was not there before.
    pub fn insert(&mut self, skill: Skill) -> (r: bool)
        ensures
            final(self)@ == old(self)@.insert(skill),
            r == !old(self)@.contains(skill),
    {
        let i = skill.index();
        let was = self.flags[i];
        self.flags[i] = true;
        proof {
            assert forall|s: Skill| #[trigger] final(self)@.contains(s) == old(self)@.insert(skill).contains(s) by {
                if s.spec_index() == skill.spec_index() {
                    lemma_skill_index_injective(s, skill);
                }
            }
            assert(final(self)@ =~= old(self)@.insert(skill));
        }
        !was
    }

    /// Remove every skill.
    pub fn clear(&mut self)
        ensures
            final(self)@ == Set::<Skill>::empty(),
    {
        *self = SkillSet::new();
    }

    /// A set holding the given skills.
    pub fn from_skills(skills: &[Skill]) -> (r: SkillSet)
        ensures
            r@ == skills@.to_set(),
    {
        let mut r = SkillSet::new();
        let mut i: usize = 0;
        while i < skills.len()
            invariant
                i <= skills@.len(),
                r@ == skills@.take(i as int).to_set(),
            decreases skills@.len() - i,
        {
            r.insert(skills[i]);
            proof {
                assert(skills@.take(i + 1) =~= skills@.take(i as int).push(skills@[i as int]));
                skills@.take(i as int).lemma_push_to_set_commute(skills@[i as int]);
            }
            i += 1;
        }
        assert(skills@.take(skills@.len() as int) =~= skills@);
        r
    }
}

impl PartialEq for SkillSet {
    fn eq(&self, other: &Self) -> (r: bool) {
        let mut i: usize = 0;
        while i < 39
            invariant
                i <= 39,
                forall|j: int| 0 <= j < i ==> self.flags@[j] == other.flags@[j],
            decreases 39 - i,
        {
            if self.flags[i] != other.flags[i] {
                proof {
                    lemma_all_skills_indexed(i as int);
                    let s = Skill::ALL@[i as int];
                    assert(self@.contains(s) != other@.contains(s));
                }
                return false;
            }
            i += 1;
        }
        assert(self@ =~= other@);
        true
    }
}

impl Eq for SkillSet {
}

impl vstd::std_specs::cmp::PartialEqSpecImpl for SkillSet {
    open spec fn obeys_eq_spec() -> bool {
        true
    }

    open spec fn eq_spec(&self, other: &Self) -> bool {
        self@ == other@
    }
}

/// Characteristics, skills and role of a player.
#[derive(Debug, Clone, Copy, PartialEq, Eq, Hash)]
pub struct PlayerStats {
    pub str_: u8,
    pub ma: u8,
    pub ag: u8,
    pub pass: D6Target,
    pub av: u8,
    pub team: TeamType,
    pub skills: SkillSet,
    pub role: PlayerRole,
}

impl PlayerStats {
    /// Inclusive cap on strength.
    pub const MAX_ST: u8 = 8;
    /// Inclusive cap on movement allowance.
    pub const MAX_MA: u8 = 10;
    /// Inclusive cap on agility (a D6 target).
    pub const MAX_AG: u8 = 6;
    /// Inclusive cap on armour value.
    pub const MAX_AV: u8 = 12;
    /// Movement allowance plus the two go-for-it squares.
    pub const MAX_MOVEMENT: u8 = 12;

    /// All four characteristics are within their caps.
    pub open spec fn within_caps(self) -> bool {
        &&& self.str_ <= PlayerStats::MAX_ST
        &&& self.ma <= PlayerStats::MAX_MA
        &&& self.ag <= PlayerStats::MAX_AG
        &&& self.av <= PlayerStats::MAX_AV
    }

    /// The characteristics and skills a fresh player of `role` for `team` starts with.
    pub open spec fn spec_is_new(self, role: PlayerRole, team: TeamType) -> bool {
        &&& self.team == team
        &&& self.role == role
        &&& self.within_caps()
        &&& match role {
            PlayerRole::Lineman => self.str_ == 3 && self.ma == 6 && self.ag == 3 && self.av == 8 && self.pass
                == D6Target::FourPlus && self.skills@ == Set::<Skill>::empty(),
            PlayerRole::Blitzer => self.str_ == 3 && self.ma == 7 && self.ag == 3 && self.av == 9 && self.pass
                == D6Target::FourPlus && self.skills@ == set![Skill::Block],
            PlayerRole::Catcher => self.str_ == 2 && self.ma == 8 && self.ag == 3 && self.av == 8 && self.pass
                == D6Target::FivePlus && self.skills@ == set![Skill::Dodge, Skill::Catch],
            PlayerRole::Thrower => self.str_ == 3 && self.ma == 6 && self.ag == 3 && self.av == 8 && self.pass
                == D6Target::TwoPlus && self.skills@ == set![Skill::SureHands, Skill::Throw],
        }
    }

    pub fn new_lineman(team: TeamType) -> (r: PlayerStats)
        ensures
            r.str_ == 3 && r.ma == 6 && r.ag == 3 && r.av == 8,
            r.pass == D6Target::FourPlus,
            r.team == team,
            r.role == PlayerRole::Lineman,
            r.skills@ == Set::<Skill>::empty(),
            r.within_caps(),
    {
        PlayerStats {
            str_: 3,
            ma: 6,
            ag: 3,
            av: 8,
            team,
            skills: SkillSet::new(),
            role: PlayerRole::Lineman,
            pass: D6Target::FourPlus,
        }
    }

    pub fn new_blitzer(team: TeamType) -> (r: PlayerStats)
        ensures
            r.str_ == 3 && r.ma == 7 && r.ag == 3 && r.av == 9,
            r.pass == D6Target::FourPlus,
            r.team == team,
            r.role == PlayerRole::Blitzer,
            r.skills@ == set![Skill::Block],
            r.within_caps(),
    {
        let mut skills = SkillSet::new();
        skills.insert(Skill::Block);
        assert(skills@ =~= set![Skill::Block]);
        PlayerStats {
            str_: 3,
            ma: 7,
            ag: 3,
            av: 9,
            team,
            skills,
            role: PlayerRole::Blitzer,
            pass: D6Target::FourPlus,
        }
    }

    pub fn new_catcher(team: TeamType) -> (r: PlayerStats)
        ensures
            r.str_ == 2 && r.ma == 8 && r.ag == 3 && r.av == 8,
            r.pass == D6Target::FivePlus,
            r.team == team,
            r.role == PlayerRole::Catcher,
            r.skills@ == set![Skill::Dodge, Skill::Catch],
            r.within_caps(),
    {
        let mut skills = SkillSet::new();
        skills.insert(Skill::Dodge);
        skills.insert(Skill::Catch);
        assert(skills@ =~= set![Skill::Dodge, Skill::Catch]);
        PlayerStats {
            str_: 2,
            ma: 8,
            ag: 3,
            av: 8,
            team,
            skills,
            role: PlayerRole::Catcher,
            pass: D6Target::FivePlus,
        }
    }

    pub fn new_thrower(team: TeamType) -> (r: PlayerStats)
        ensures
            r.str_ == 3 && r.ma == 6 && r.ag == 3 && r.av == 8,
            r.pass == D6Target::TwoPlus,
            r.team == team,
            r.role == PlayerRole::Thrower,
            r.skills@ == set![Skill::SureHands, Skill::Throw],
            r.within_caps(),
    {
        let mut skills = SkillSet::new();
        skills.insert(Skill::SureHands);
        skills.insert(Skill::Throw);
        assert(skills@ =~= set![Skill::SureHands, Skill::Throw]);
        PlayerStats {
            str_: 3,
            ma: 6,
            ag: 3,
            av: 8,
            team,
            skills,
            role: PlayerRole::Thrower,
            pass: D6Target::TwoPlus,
        }
    }

    pub fn give_skill(&mut self, skill: Skill)
        ensures
            final(self).skills@ == old(self).skills@.insert(skill),
            *final(self) == (PlayerStats { skills: final(self).skills, ..*old(self) }),
    {
        self.skills.insert(skill);
    }
}

#[derive(Debug, Clone, Copy, PartialEq, Eq, Hash)]
pub struct DugoutPlayer {
    pub stats: PlayerStats,
    pub place: DugoutPlace,
    pub id: DugoutPlayerID,
}

#[derive(Debug, Clone, Copy, PartialEq, Eq, Hash)]
pub struct FieldedPlayer {
    pub id: PlayerID,
    pub stats: PlayerStats,
    pub position: Position,
    pub status: PlayerStatus,
    pub used: bool,
    pub moves: u8,
    pub used_skills: SkillSet,
}

impl FieldedPlayer {
    /// Movement spent stays within MA plus the two go-for-its.
    pub open spec fn moves_in_range(self) -> bool {
        self.moves <= self.stats.ma + 2 && self.stats.ma + 2 <= u8::MAX
    }

    pub open spec fn spec_total_movement_left(self) -> int {
        self.stats.ma + 2 - self.moves
    }

    /// The armour roll that breaks this player's armour: AV + 1 or more.
    pub fn armor_target(&self) -> (r: Sum2D6Target)
        requires
            1 <= self.stats.av <= 11,
        ensures
            r.spec_value() == self.stats.av + 1,
    {
        match Sum2D6Target::from_value(self.stats.av + 1) {
            Some(t) => t,
            None => Sum2D6Target::TwoPlus,
        }
    }

    /// The agility roll: 7 - AG or more.
    pub fn ag_target(&self) -> (r: D6Target)
        requires
            1 <= self.stats.ag <= 5,
        ensures
            r.spec_value() == 7 - self.stats.ag,
    {
        match D6Target::from_value(7 - self.stats.ag) {
            Some(t) => t,
            None => D6Target::TwoPlus,
        }
    }

    pub fn pass_target(&self) -> (r: D6Target)
        ensures
            r == self.stats.pass,
    {
        self.stats.pass
    }

    pub fn can_catch(&self) -> (r: bool)
        ensures
            r == (self.status == PlayerStatus::Up),
    {
        match self.status {
            PlayerStatus::Up => true,
            PlayerStatus::Down => false,
            PlayerStatus::Stunned => false,
        }
    }

    pub fn has_tackle_zone(&self) -> (r: bool)
        ensures
            r == (self.status == PlayerStatus::Up),
    {
        match self.status {
            PlayerStatus::Up => true,
            PlayerStatus::Down => false,
            PlayerStatus::Stunned => false,
        }
    }

    /// Normal moves left: MA less the moves made, never below zero.
    pub fn moves_left(&self) -> (r: u8)
        ensures
            r == if self.moves <= self.stats.ma { self.stats.ma - self.moves } else { 0 },
    {
        if self.moves <= self.stats.ma {
            self.stats.ma - self.moves
        } else {
            0
        }
    }

    /// Go-for-its left: 2 until the normal moves run out.
    pub fn gfis_left(&self) -> (r: u8)
        requires
            self.moves_in_range(),
        ensures
            r == if self.moves <= self.stats.ma { 2 } else { 2 + self.stats.ma - self.moves },
    {
        if self.moves <= self.stats.ma {
            2
        } else {
            2 + self.stats.ma - self.moves
        }
    }

    /// Normal moves and go-for-its left together.
    pub fn total_movement_left(&self) -> (r: u8)
        requires
            self.moves_in_range(),
        ensures
            r == self.spec_total_movement_left(),
    {
        self.stats.ma + 2 - self.moves
    }

    pub fn add_move(&mut self, num_moves: u8)
        requires
            old(self).moves_in_range(),
            old(self).spec_total_movement_left() >= num_moves,
        ensures
            *final(self) == (FieldedPlayer { moves: (old(self).moves + num_moves) as u8, ..*old(self) }),
            final(self).moves_in_range(),
    {
        self.moves = self.moves + num_moves;
    }

    pub fn has_skill(&self, skill: Skill) -> (r: bool)
        ensures
            r == self.stats.skills@.contains(skill),
    {
        self.stats.skills.contains(&skill)
    }

    /// The player has the skill and has not spent it this activation.
    pub fn can_use_skill(&self, skill: Skill) -> (r: bool)
        ensures
            r == (self.stats.skills@.contains(skill) && !self.used_skills@.contains(skill)),
    {
        self.has_skill(skill) && !self.used_skills.contains(&skill)
    }

    pub fn use_skill(&mut self, skill: Skill)
        requires
            !old(self).used_skills@.contains(skill),
        ensures
            final(self).used_skills@ == old(self).used_skills@.insert(skill),
            *final(self) == (FieldedPlayer { used_skills: final(self).used_skills, ..*old(self) }),
    {
        self.used_skills.insert(skill);
    }

    pub fn reset_skills_and_moves(&mut self)
        ensures
            final(self).moves == 0,
            !final(self).used,
            final(self).used_skills@ == Set::<Skill>::empty(),
            *final(self) == (FieldedPlayer {
                moves: 0,
                used: false,
                used_skills: final(self).used_skills,
                ..*old(self)
            }),
    {
        self.moves = 0;
        self.used = false;
        self.used_skills.clear();
    }
}

/// A skill spent this activation cannot be used again until the player is reset.
pub proof fn lemma_used_skill_is_spent(p: FieldedPlayer, q: FieldedPlayer, skill: Skill)
    requires
        q.used_skills@ == p.used_skills@.insert(skill),
    ensures
        !(q.stats.skills@.contains(skill) && !q.used_skills@.contains(skill)),
{
}

#[derive(Debug, Clone, Copy, PartialEq, Eq, Hash)]
pub struct TeamState {
    pub bribes: u8,
    pub score: u8,
    pub rerolls: u8,
    /// A reroll was already spent this turn.
    pub reroll_used: bool,
}

impl TeamState {
    /// A reroll was already spent this turn.
    pub open spec fn spec_reroll_used(self) -> bool {
        self.reroll_used
    }

    pub open spec fn spec_can_use_reroll(self) -> bool {
        !self.spec_reroll_used() && self.rerolls > 0
    }

    /// A team at the start of a game: three rerolls, none used, no score, no bribes.
    pub open spec fn spec_new() -> TeamState {
        TeamState { rerolls: 3, reroll_used: false, score: 0, bribes: 0 }
    }

    pub fn new() -> (r: TeamState)
        ensures
            r == TeamState::spec_new(),
            r.rerolls == 3,
            r.score == 0,
            r.bribes == 0,
            !r.spec_reroll_used(),
    {
        TeamState { rerolls: 3, reroll_used: false, score: 0, bribes: 0 }
    }

    pub fn can_use_reroll(&self) -> (r: bool)
        ensures
            r == self.spec_can_use_reroll(),
    {
        !self.reroll_used && self.rerolls > 0
    }

    /// Spend one reroll for this turn.
    pub fn use_reroll(&mut self)
        requires
            old(self).spec_can_use_reroll(),
        ensures
            final(self).spec_reroll_used(),
            final(self).rerolls == old(self).rerolls - 1,
            final(self).score == old(self).score,
            final(self).bribes == old(self).bribes,
    {
        self.reroll_used = true;
        self.rerolls = self.rerolls - 1;
    }

    /// A new turn: a reroll may be used again.
    pub fn reset_reroll_used(&mut self)
        ensures
            !final(self).spec_reroll_used(),
            final(self).rerolls == old(self).rerolls,
            final(self).score == old(self).score,
            final(self).bribes == old(self).bribes,
    {
        self.reroll_used = false;
    }
}

/// At most one reroll per turn: once one is spent, none can be until the turn resets; after
/// the reset one can be again exactly when rerolls remain.
pub proof fn lemma_one_reroll_per_turn(spent: TeamState, reset: TeamState)
    requires
        spent.spec_reroll_used(),
        !reset.spec_reroll_used(),
        reset.rerolls == spent.rerolls,
    ensures
        !spent.spec_can_use_reroll(),
        reset.spec_can_use_reroll() <==> spent.rerolls > 0,
{
}

} // verus!
