use vstd::prelude::*;

verus! {

/// Action types that are played against a square of the pitch.
#[derive(Debug, Clone, Copy, PartialEq, Eq, Structural, Hash, PartialOrd, Ord)]
pub enum PosAT {
    StartMove,
    StartBlitz,
    StartPass,
    StartFoul,
    SelectPosition,
    Push,
    FollowUp,
    StartHandoff,
    Handoff,
    Pass,
    Move,
    Foul,
    StartBlock,
    Block,
}

/// Action types that carry no square.
#[derive(Debug, Clone, Copy, PartialEq, Eq, Structural, Hash, PartialOrd, Ord)]
pub enum SimpleAT {
    SelectBothDown,
    SelectPow,
    SelectPush,
    SelectPowPush,
    SelectSkull,
    UseReroll,
    DontUseReroll,
    EndPlayerTurn,
    EndTurn,
    Heads,
    Tails,
    Kick,
    Receive,
    SetupLine,
    EndSetup,
    KickoffAimMiddle,
    SetupSpread,
    SetupWedge,
    SetupZone,
}

impl SimpleAT {
    /// Number of simple action types.
    pub const COUNT: usize = 19;

    /// Dense index of the action type, in declaration order.
    pub open spec fn spec_index(self) -> nat {
        match self {
            SimpleAT::SelectBothDown => 0,
            SimpleAT::SelectPow => 1,
            SimpleAT::SelectPush => 2,
            SimpleAT::SelectPowPush => 3,
            SimpleAT::SelectSkull => 4,
            SimpleAT::UseReroll => 5,
            SimpleAT::DontUseReroll => 6,
            SimpleAT::EndPlayerTurn => 7,
            SimpleAT::EndTurn => 8,
            SimpleAT::Heads => 9,
            SimpleAT::Tails => 10,
            SimpleAT::Kick => 11,
            SimpleAT::Receive => 12,
            SimpleAT::SetupLine => 13,
            SimpleAT::EndSetup => 14,
            SimpleAT::KickoffAimMiddle => 15,
            SimpleAT::SetupSpread => 16,
            SimpleAT::SetupWedge => 17,
            SimpleAT::SetupZone => 18,
        }
    }

    /// Dense index of the action type, in declaration order.
    pub fn index(self) -> (r: usize)
        ensures
            r == self.spec_index(),
            r < SimpleAT::COUNT,
    {
        match self {
            SimpleAT::SelectBothDown => 0,
            SimpleAT::SelectPow => 1,
            SimpleAT::SelectPush => 2,
            SimpleAT::SelectPowPush => 3,
            SimpleAT::SelectSkull => 4,
            SimpleAT::UseReroll => 5,
            SimpleAT::DontUseReroll => 6,
            SimpleAT::EndPlayerTurn => 7,
            SimpleAT::EndTurn => 8,
            SimpleAT::Heads => 9,
            SimpleAT::Tails => 10,
            SimpleAT::Kick => 11,
            SimpleAT::Receive => 12,
            SimpleAT::SetupLine => 13,
            SimpleAT::EndSetup => 14,
            SimpleAT::KickoffAimMiddle => 15,
            SimpleAT::SetupSpread => 16,
            SimpleAT::SetupWedge => 17,
            SimpleAT::SetupZone => 18,
        }
    }
}

/// The simple action type with dense index `i`.
pub open spec fn simple_at_of_index(i: int) -> SimpleAT {
    if i == 0 {
        SimpleAT::SelectBothDown
    } else if i == 1 {
        SimpleAT::SelectPow
    } else if i == 2 {
        SimpleAT::SelectPush
    } else if i == 3 {
        SimpleAT::SelectPowPush
    } else if i == 4 {
        SimpleAT::SelectSkull
    } else if i == 5 {
        SimpleAT::UseReroll
    } else if i == 6 {
        SimpleAT::DontUseReroll
    } else if i == 7 {
        SimpleAT::EndPlayerTurn
    } else if i == 8 {
        SimpleAT::EndTurn
    } else if i == 9 {
        SimpleAT::Heads
    } else if i == 10 {
        SimpleAT::Tails
    } else if i == 11 {
        SimpleAT::Kick
    } else if i == 12 {
        SimpleAT::Receive
    } else if i == 13 {
        SimpleAT::SetupLine
    } else if i == 14 {
        SimpleAT::EndSetup
    } else if i == 15 {
        SimpleAT::KickoffAimMiddle
    } else if i == 16 {
        SimpleAT::SetupSpread
    } else if i == 17 {
        SimpleAT::SetupWedge
    } else {
        SimpleAT::SetupZone
    }
}

/// Every simple action type is found again from its index.
pub proof fn lemma_simple_at_index_round_trip(a: SimpleAT)
    ensures
        simple_at_of_index(a.spec_index() as int) == a,
        a.spec_index() < SimpleAT::COUNT,
{
}

/// Either kind of action type.
#[derive(Debug, Clone, Copy, PartialEq, Eq, Structural, Hash)]
pub enum AnyAT {
    Simple(SimpleAT),
    Postional(PosAT),
}

impl AnyAT {
    pub fn from_simple(at: SimpleAT) -> (r: AnyAT)
        ensures
            r == AnyAT::Simple(at),
    {
        AnyAT::Simple(at)
    }

    pub fn from_positional(at: PosAT) -> (r: AnyAT)
        ensures
            r == AnyAT::Postional(at),
    {
        AnyAT::Postional(at)
    }
}

#[derive(Debug, Clone, Copy, PartialEq, Eq, Structural, Hash)]
pub enum Skill {
    Catch,
    Dodge,
    JumpUp,
    Leap,
    SideStep,
    Sprint,
    SureFeet,
    DirtyPlayer,
    PileDriver,
    QuickFoul,
    Shadowing,
    SneakyGit,
    Block,
    Dauntless,
    Fend,
    Frenzy,
    Kick,
    SureHands,
    Tackle,
    Wrestle,
    Claws,
    Accurate,
    NervesOfSteel,
    OnTheBall,
    Pass,
    ArmBar,
    Brawler,
    BreakTackle,
    Grab,
    Guard,
    Juggernaut,
    MightyBlow,
    StandFirm,
    BoneHead,
    Loner,
    Stunty,
    Throw,
    WildAnimal,
    KickOffReturn,
}

impl Skill {
    /// Every skill, in declaration order; a skill's index is its position here.
    pub const ALL: [Skill; 39] = [
        Skill::Catch,
        Skill::Dodge,
        Skill::JumpUp,
        Skill::Leap,
        Skill::SideStep,
        Skill::Sprint,
        Skill::SureFeet,
        Skill::DirtyPlayer,
        Skill::PileDriver,
        Skill::QuickFoul,
        Skill::Shadowing,
        Skill::SneakyGit,
        Skill::Block,
        Skill::Dauntless,
        Skill::Fend,
        Skill::Frenzy,
        Skill::Kick,
        Skill::SureHands,
        Skill::Tackle,
        Skill::Wrestle,
        Skill::Claws,
        Skill::Accurate,
        Skill::NervesOfSteel,
        Skill::OnTheBall,
        Skill::Pass,
        Skill::ArmBar,
        Skill::Brawler,
        Skill::BreakTackle,
        Skill::Grab,
        Skill::Guard,
        Skill::Juggernaut,
        Skill::MightyBlow,
        Skill::StandFirm,
        Skill::BoneHead,
        Skill::Loner,
        Skill::Stunty,
        Skill::Throw,
        Skill::WildAnimal,
        Skill::KickOffReturn,
    ];

    /// Number of skill variants.
    pub const COUNT: usize = 39;

    /// Position of a skill in declaration order.
    pub open spec fn spec_index(self) -> nat {
        match self {
            Skill::Catch => 0,
            Skill::Dodge => 1,
            Skill::JumpUp => 2,
            Skill::Leap => 3,
            Skill::SideStep => 4,
            Skill::Sprint => 5,
            Skill::SureFeet => 6,
            Skill::DirtyPlayer => 7,
            Skill::PileDriver => 8,
            Skill::QuickFoul => 9,
            Skill::Shadowing => 10,
            Skill::SneakyGit => 11,
            Skill::Block => 12,
            Skill::Dauntless => 13,
            Skill::Fend => 14,
            Skill::Frenzy => 15,
            Skill::Kick => 16,
            Skill::SureHands => 17,
            Skill::Tackle => 18,
            Skill::Wrestle => 19,
            Skill::Claws => 20,
            Skill::Accurate => 21,
            Skill::NervesOfSteel => 22,
            Skill::OnTheBall => 23,
            Skill::Pass => 24,
            Skill::ArmBar => 25,
            Skill::Brawler => 26,
            Skill::BreakTackle => 27,
            Skill::Grab => 28,
            Skill::Guard => 29,
            Skill::Juggernaut => 30,
            Skill::MightyBlow => 31,
            Skill::StandFirm => 32,
            Skill::BoneHead => 33,
            Skill::Loner => 34,
            Skill::Stunty => 35,
            Skill::Throw => 36,
            Skill::WildAnimal => 37,
            Skill::KickOffReturn => 38,
        }
    }

    /// Dense index of a skill within `Skill::ALL`.
    pub fn index(self) -> (r: usize)
        ensures
            r == self.spec_index(),
            r < Skill::COUNT,
    {
        match self {
            Skill::Catch => 0,
            Skill::Dodge => 1,
            Skill::JumpUp => 2,
            Skill::Leap => 3,
            Skill::SideStep => 4,
            Skill::Sprint => 5,
            Skill::SureFeet => 6,
            Skill::DirtyPlayer => 7,
            Skill::PileDriver => 8,
            Skill::QuickFoul => 9,
            Skill::Shadowing => 10,
            Skill::SneakyGit => 11,
            Skill::Block => 12,
            Skill::Dauntless => 13,
            Skill::Fend => 14,
            Skill::Frenzy => 15,
            Skill::Kick => 16,
            Skill::SureHands => 17,
            Skill::Tackle => 18,
            Skill::Wrestle => 19,
            Skill::Claws => 20,
            Skill::Accurate => 21,
            Skill::NervesOfSteel => 22,
            Skill::OnTheBall => 23,
            Skill::Pass => 24,
            Skill::ArmBar => 25,
            Skill::Brawler => 26,
            Skill::BreakTackle => 27,
            Skill::Grab => 28,
            Skill::Guard => 29,
            Skill::Juggernaut => 30,
            Skill::MightyBlow => 31,
            Skill::StandFirm => 32,
            Skill::BoneHead => 33,
            Skill::Loner => 34,
            Skill::Stunty => 35,
            Skill::Throw => 36,
            Skill::WildAnimal => 37,
            Skill::KickOffReturn => 38,
        }
    }
}

impl Skill {
    /// The skills that random rosters may be handed.
    pub open spec fn spec_good_skills() -> Seq<Skill> {
        seq![
            Skill::Dodge,
            Skill::Block,
            Skill::Catch,
            Skill::JumpUp,
            Skill::SideStep,
            Skill::Guard,
            Skill::MightyBlow,
            Skill::Frenzy,
            Skill::Tackle,
            Skill::Wrestle,
            Skill::SureHands,
            Skill::StandFirm,
        ]
    }

    /// The skills that random rosters may be handed.
    pub fn good_skills() -> (r: Vec<Skill>)
        ensures
            r@ == Skill::spec_good_skills(),
    {
        let r = vec![
            Skill::Dodge,
            Skill::Block,
            Skill::Catch,
            Skill::JumpUp,
            Skill::SideStep,
            Skill::Guard,
            Skill::MightyBlow,
            Skill::Frenzy,
            Skill::Tackle,
            Skill::Wrestle,
            Skill::SureHands,
            Skill::StandFirm,
        ];
        assert(r@ =~= Skill::spec_good_skills());
        r
    }
}

/// The good skills are distinct skills.
pub proof fn lemma_good_skills_distinct(i: int, j: int)
    requires
        0 <= i < 12,
        0 <= j < 12,
        i != j,
    ensures
        Skill::spec_good_skills()[i] != Skill::spec_good_skills()[j],
        Skill::spec_good_skills()[i].spec_index() < 39,
{
}

/// Number of block dice, and who picks the face.
#[derive(Debug, Clone, Copy, PartialEq, Eq, Structural, Hash, PartialOrd, Ord)]
pub enum NumBlockDices {
    ThreeUphill,
    TwoUphill,
    One,
    Two,
    Three,
}

impl NumBlockDices {
    pub open spec fn spec_count(self) -> nat {
        match self {
            NumBlockDices::Three => 3,
            NumBlockDices::Two => 2,
            NumBlockDices::One => 1,
            NumBlockDices::TwoUphill => 2,
            NumBlockDices::ThreeUphill => 3,
        }
    }

    /// How many dice are rolled.
    pub fn count(self) -> (r: u8)
        ensures
            r == self.spec_count(),
            1 <= r <= 3,
    {
        match self {
            NumBlockDices::Three => 3,
            NumBlockDices::Two => 2,
            NumBlockDices::One => 1,
            NumBlockDices::TwoUphill => 2,
            NumBlockDices::ThreeUphill => 3,
        }
    }
}

#[derive(Debug, Clone, Copy, PartialEq, Eq, Structural, Hash)]
pub enum PlayerRole {
    Lineman,
    Blitzer,
    Thrower,
    Catcher,
}

/// `Skill::ALL` lists every skill exactly once, each at the position its index reports.
pub proof fn lemma_all_skills_indexed(i: int)
    requires
        0 <= i < 39,
    ensures
        Skill::ALL@[i].spec_index() == i,
{
}

} // verus!
