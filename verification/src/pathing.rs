use vstd::prelude::*;

use crate::dice::{D6Target, Sum2D6Target};
use crate::model::{PlayerID, Position};
use crate::table::NumBlockDices;

verus! {

/// Something that happens along a path besides moving a square.
#[derive(Debug, Clone, PartialEq, Eq, Structural, Hash)]
pub enum PathingEvent {
    Dodge(D6Target),
    GFI(D6Target),
    Pickup(D6Target),
    Block(PlayerID, NumBlockDices),
    Handoff(PlayerID, D6Target),
    Pass { to: Position, pass: D6Target, modifer: i8 },
    Touchdown(PlayerID),
    Foul(PlayerID, Sum2D6Target),
    StandUp,
}

pub open spec fn spec_event_ends_player_action(event: PathingEvent) -> bool {
    match event {
        PathingEvent::Handoff(_, _) => true,
        PathingEvent::Foul(_, _) => true,
        PathingEvent::Touchdown(_) => true,
        PathingEvent::Pass { .. } => true,
        _ => false,
    }
}

/// The event finishes the player's action: a hand-off, a foul, a touchdown or a pass.
pub fn event_ends_player_action(event: &PathingEvent) -> (r: bool)
    ensures
        r == spec_event_ends_player_action(*event),
{
    match event {
        PathingEvent::Handoff(_, _) => true,
        PathingEvent::Foul(_, _) => true,
        PathingEvent::Touchdown(_) => true,
        PathingEvent::Dodge(_) => false,
        PathingEvent::GFI(_) => false,
        PathingEvent::Pickup(_) => false,
        PathingEvent::Block(_, _) => false,
        PathingEvent::StandUp => false,
        PathingEvent::Pass { .. } => true,
    }
}

/// A queue of at most six values; the occupied slots form a prefix of the array.
#[derive(Debug, Clone, PartialEq, Eq)]
pub struct FixedQueue<T> {
    data: [Option<T>; 6],
}

/// Number of leading occupied slots.
pub open spec fn leading_some<T>(d: Seq<Option<T>>) -> nat {
    if d[0] is None {
        0
    } else if d[1] is None {
        1
    } else if d[2] is None {
        2
    } else if d[3] is None {
        3
    } else if d[4] is None {
        4
    } else if d[5] is None {
        5
    } else {
        6
    }
}

/// The leading count marks off occupied slots from the first empty one.
pub proof fn lemma_leading_some<T>(d: Seq<Option<T>>)
    requires
        d.len() == 6,
    ensures
        leading_some(d) <= 6,
        forall|k: int| 0 <= k < leading_some(d) ==> #[trigger] d[k] is Some,
        leading_some(d) < 6 ==> d[leading_some(d) as int] is None,
{
}

impl<T> View for FixedQueue<T> {
    type V = Seq<T>;

    closed spec fn view(&self) -> Seq<T> {
        Seq::new(leading_some(self.data@), |i: int| self.data@[i].unwrap())
    }
}

impl<T> FixedQueue<T> {
    /// Every slot after the occupied prefix is empty.
    pub closed spec fn wf(&self) -> bool {
        forall|i: int| leading_some(self.data@) <= i < 6 ==> #[trigger] self.data@[i] is None
    }

    pub fn new() -> (r: FixedQueue<T>)
        ensures
            r.wf(),
            r@ == Seq::<T>::empty(),
    {
        let r = FixedQueue { data: [None, None, None, None, None, None] };
        assert(r@ =~= Seq::<T>::empty());
        r
    }

    pub fn len(&self) -> (r: usize)
        requires
            self.wf(),
        ensures
            r == self@.len(),
    {
        let mut i: usize = 0;
        while i < 6 && self.data[i].is_some()
            invariant
                i <= 6,
                forall|j: int| 0 <= j < i ==> #[trigger] self.data@[j] is Some,
            decreases 6 - i,
        {
            i += 1;
        }
        i
    }

    pub fn is_empty(&self) -> (r: bool)
        requires
            self.wf(),
        ensures
            r == (self@.len() == 0),
    {
        self.data[0].is_none()
    }

    pub fn is_full(&self) -> (r: bool)
        requires
            self.wf(),
        ensures
            r == (self@.len() == 6),
    {
        self.data[5].is_some()
    }

    /// Append a value at the back.
    pub fn add(&mut self, val: T)
        requires
            old(self).wf(),
            old(self)@.len() < 6,
        ensures
            final(self).wf(),
            final(self)@ == old(self)@.push(val),
    {
        let ghost before = self@;
        let mut i: usize = 0;
        while self.data[i].is_some()
            invariant
                self.wf(),
                self@ == before,
                before.len() < 6,
                i <= before.len(),
                forall|j: int| 0 <= j < i ==> #[trigger] self.data@[j] is Some,
            decreases 6 - i,
        {
            i += 1;
        }
        assert(i == before.len());
        self.data[i] = Some(val);
        assert(self@ =~= before.push(val));
    }

    /// Append a value at the back.
    pub fn push_back(&mut self, val: T)
        requires
            old(self).wf(),
            old(self)@.len() < 6,
        ensures
            final(self).wf(),
            final(self)@ == old(self)@.push(val),
    {
        self.add(val)
    }

    /// Remove and return the front value.
    pub fn pop(&mut self) -> (r: Option<T>)
        requires
            old(self).wf(),
        ensures
            final(self).wf(),
            old(self)@.len() == 0 ==> r is None && final(self)@ == old(self)@,
            old(self)@.len() > 0 ==> r == Some(old(self)@[0]) && final(self)@ == old(self)@.drop_first(),
    {
        let ghost before = self.data@;
        if self.data[0].is_none() {
            return None;
        }
        let first = self.data[0].take();
        let mut i: usize = 0;
        while i < 5
            invariant
                i <= 5,
                forall|j: int| 0 <= j < i ==> #[trigger] self.data@[j] == before[j + 1],
                forall|j: int| i < j < 6 ==> #[trigger] self.data@[j] == before[j],
                self.data@[i as int] is None,
            decreases 5 - i,
        {
            let v = self.data[i + 1].take();
            self.data[i] = v;
            i += 1;
        }
        assert(self@ =~= Seq::new(leading_some(before), |k: int| before[k].unwrap()).drop_first());
        first
    }

    /// The back value, if any.
    pub fn last(&self) -> (r: Option<&T>)
        requires
            self.wf(),
        ensures
            self@.len() == 0 ==> r is None,
            self@.len() > 0 ==> r == Some(&self@.last()),
    {
        proof {
            lemma_leading_some(self.data@);
        }
        let mut i: usize = 6;
        while i > 0
            invariant
                i <= 6,
                self.wf(),
                leading_some(self.data@) <= i,
                forall|k: int| 0 <= k < leading_some(self.data@) ==> #[trigger] self.data@[k] is Some,
                leading_some(self.data@) < 6 ==> self.data@[leading_some(self.data@) as int] is None,
            decreases i,
        {
            match &self.data[i - 1] {
                Some(v) => {
                    return Some(v);
                },
                None => {},
            }
            i -= 1;
        }
        None
    }

    /// The values, front first.
    pub fn iter(&self) -> (r: Vec<&T>)
        requires
            self.wf(),
        ensures
            r@.len() == self@.len(),
            forall|i: int| 0 <= i < r@.len() ==> *#[trigger] r@[i] == self@[i],
    {
        let mut out: Vec<&T> = Vec::new();
        let mut i: usize = 0;
        while i < 6
            invariant
                i <= 6,
                out@.len() == i,
                i <= self@.len(),
                forall|j: int| 0 <= j < i ==> *#[trigger] out@[j] == self@[j],
            decreases 6 - i,
        {
            match &self.data[i] {
                Some(v) => {
                    out.push(v);
                },
                None => {
                    return out;
                },
            }
            i += 1;
        }
        out
    }

    /// The values, back first.
    pub fn iter_rev(&self) -> (r: Vec<&T>)
        requires
            self.wf(),
        ensures
            r@.len() == self@.len(),
            forall|i: int| 0 <= i < r@.len() ==> *#[trigger] r@[i] == self@[self@.len() - 1 - i],
    {
        proof {
            lemma_leading_some(self.data@);
        }
        let mut out: Vec<&T> = Vec::new();
        let mut i: usize = 6;
        while i > 0
            invariant
                i <= 6,
                self.wf(),
                forall|k: int| 0 <= k < leading_some(self.data@) ==> #[trigger] self.data@[k] is Some,
                out@.len() == if i >= self@.len() { 0 } else { self@.len() - i },
                forall|j: int| 0 <= j < out@.len() ==> *#[trigger] out@[j] == self@[self@.len() - 1 - j],
            decreases i,
        {
            match &self.data[i - 1] {
                Some(v) => {
                    out.push(v);
                },
                None => {},
            }
            i -= 1;
        }
        out
    }

    /// A queue holding the values of `vector` in order.
    pub fn from_vec(vector: Vec<T>) -> (r: FixedQueue<T>)
        requires
            vector@.len() <= 6,
        ensures
            r.wf(),
            r@ == vector@,
    {
        let mut q = FixedQueue::new();
        let mut v = vector;
        let ghost all = v@;
        let mut rest: Vec<T> = Vec::new();
        while v.len() > 0
            invariant
                rest@ + v@.reverse() =~= all.reverse(),
            decreases v@.len(),
        {
            let x = v.pop().unwrap();
            rest.push(x);
            proof {
                assert(v@.push(x).reverse() =~= seq![x] + v@.reverse());
            }
        }
        assert(rest@ =~= all.reverse());
        while rest.len() > 0
            invariant
                q.wf(),
                q@ + rest@.reverse() =~= all,
                all.len() <= 6,
            decreases rest@.len(),
        {
            let x = rest.pop().unwrap();
            proof {
                assert(rest@.push(x).reverse() =~= seq![x] + rest@.reverse());
            }
            q.add(x);
        }
        q
    }
}

impl<T> Default for FixedQueue<T> {
    fn default() -> (r: Self)
        ensures
            r.wf(),
            r@ == Seq::<T>::empty(),
    {
        FixedQueue::new()
    }
}

#[derive(Clone, Debug, PartialEq, Eq, Structural, Hash)]
pub enum PositionOrEvent {
    Position(Position),
    Event(PathingEvent),
}

/// Steps of a path, handed out last-pushed first.
#[derive(Clone, Debug, PartialEq, Eq, Hash)]
pub struct NodeIterator {
    stack: Vec<PositionOrEvent>,
}

impl View for NodeIterator {
    type V = Seq<PositionOrEvent>;

    closed spec fn view(&self) -> Seq<PositionOrEvent> {
        self.stack@
    }
}

impl NodeIterator {
    /// An iterator over the given stack; the last element comes out first.
    pub fn from_stack(stack: Vec<PositionOrEvent>) -> (r: NodeIterator)
        ensures
            r@ == stack@,
    {
        NodeIterator { stack }
    }

    pub fn len(&self) -> (r: usize)
        ensures
            r == self@.len(),
    {
        self.stack.len()
    }

    pub fn is_empty(&self) -> (r: bool)
        ensures
            r == (self@.len() == 0),
    {
        self.stack.len() == 0
    }

    /// The next step: the top of the stack.
    pub fn next(&mut self) -> (r: Option<PositionOrEvent>)
        ensures
            old(self)@.len() == 0 ==> r is None && final(self)@ == old(self)@,
            old(self)@.len() > 0 ==> r == Some(old(self)@.last()) && final(self)@
                == old(self)@.drop_last(),
    {
        self.stack.pop()
    }
}

} // verus!
