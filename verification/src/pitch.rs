use vstd::prelude::*;

use crate::model::{Coord, Position, HEIGHT, WIDTH};

verus! {

/// One value per square of the physical pitch, indexed `[x][y]`.
#[derive(Debug, Clone, PartialEq, Eq, Hash)]
pub struct FullPitch<T> {
    data: Vec<Vec<T>>,
}

impl<T> View for FullPitch<T> {
    type V = Seq<Seq<T>>;

    closed spec fn view(&self) -> Seq<Seq<T>> {
        self.data@.map_values(|row: Vec<T>| row@)
    }
}

/// The square `(x, y)` lies inside the physical pitch arrays.
pub open spec fn in_pitch(x: int, y: int) -> bool {
    0 <= x < WIDTH && 0 <= y < HEIGHT
}

/// Row-major index of a square in the flat listings of a pitch.
pub open spec fn flat_index(x: int, y: int) -> int {
    x * HEIGHT + y
}

impl<T> FullPitch<T> {
    /// The pitch holds exactly one value per square.
    pub open spec fn wf(&self) -> bool {
        &&& self@.len() == WIDTH
        &&& forall|x: int| 0 <= x < WIDTH ==> #[trigger] self@[x].len() == HEIGHT
    }

    pub open spec fn at(&self, x: int, y: int) -> T {
        self@[x][y]
    }

    pub fn get(&self, x: usize, y: usize) -> (r: &T)
        requires
            self.wf(),
            in_pitch(x as int, y as int),
        ensures
            *r == self.at(x as int, y as int),
    {
        assert(self.data@[x as int]@ == self@[x as int]);
        &self.data[x][y]
    }

    pub fn get_pos(&self, pos: Position) -> (r: &T)
        requires
            self.wf(),
            in_pitch(pos.x as int, pos.y as int),
        ensures
            *r == self.at(pos.x as int, pos.y as int),
    {
        assert(self.data@[pos.x as int]@ == self@[pos.x as int]);
        &self.data[pos.x as usize][pos.y as usize]
    }

    pub fn get_mut(&mut self, x: usize, y: usize) -> (r: &mut T)
        requires
            old(self).wf(),
            in_pitch(x as int, y as int),
        ensures
            *r == old(self).at(x as int, y as int),
            final(self)@ == old(self)@.update(
                x as int,
                old(self)@[x as int].update(y as int, *final(r)),
            ),
    {
        proof {
            assert(self.data@[x as int]@ == self@[x as int]);
        }
        let r = &mut self.data[x][y];
        proof {
            assert(after_borrow(self).data@ == old(self).data@.update(
                x as int,
                after_borrow(self).data@[x as int],
            ));
        }
        r
    }

    pub fn get_pos_mut(&mut self, pos: Position) -> (r: &mut T)
        requires
            old(self).wf(),
            in_pitch(pos.x as int, pos.y as int),
        ensures
            *r == old(self).at(pos.x as int, pos.y as int),
            final(self)@ == old(self)@.update(
                pos.x as int,
                old(self)@[pos.x as int].update(pos.y as int, *final(r)),
            ),
    {
        self.get_mut(pos.x as usize, pos.y as usize)
    }

    /// Every value, column by column.
    pub fn iter(&self) -> (r: Vec<&T>)
        requires
            self.wf(),
        ensures
            r@.len() == WIDTH * HEIGHT,
            forall|x: int, y: int|
                in_pitch(x, y) ==> *#[trigger] r@[flat_index(x, y)] == self.at(x, y),
    {
        let mut out: Vec<&T> = Vec::new();
        let mut x: usize = 0;
        while x < WIDTH
            invariant
                self.wf(),
                x <= WIDTH,
                out@.len() == x * HEIGHT,
                forall|i: int, j: int|
                    0 <= i < x && 0 <= j < HEIGHT ==> *#[trigger] out@[flat_index(i, j)]
                        == self.at(i, j),
            decreases WIDTH - x,
        {
            let mut y: usize = 0;
            while y < HEIGHT
                invariant
                    self.wf(),
                    x < WIDTH,
                    y <= HEIGHT,
                    out@.len() == x * HEIGHT + y,
                    forall|i: int, j: int|
                        0 <= i < x && 0 <= j < HEIGHT ==> *#[trigger] out@[flat_index(i, j)]
                            == self.at(i, j),
                    forall|j: int| 0 <= j < y ==> *#[trigger] out@[flat_index(x as int, j)] == self.at(x as int, j),
                decreases HEIGHT - y,
            {
                out.push(self.get(x, y));
                y += 1;
            }
            proof {
                assert forall|i: int, j: int|
                    0 <= i < x + 1 && 0 <= j < HEIGHT implies *#[trigger] out@[flat_index(i, j)] == self.at(i, j) by {
                    if i == x {
                    }
                }
            }
            x += 1;
        }
        out
    }

    /// Every square with its value, column by column.
    pub fn iter_position(&self) -> (r: Vec<(Position, &T)>)
        requires
            self.wf(),
        ensures
            r@.len() == WIDTH * HEIGHT,
            forall|x: int, y: int|
                in_pitch(x, y) ==> {
                    &&& (#[trigger] r@[flat_index(x, y)]).0 == Position { x: x as i8, y: y as i8 }
                    &&& *r@[flat_index(x, y)].1 == self.at(x, y)
                },
    {
        let mut out: Vec<(Position, &T)> = Vec::new();
        let mut x: usize = 0;
        while x < WIDTH
            invariant
                self.wf(),
                x <= WIDTH,
                out@.len() == x * HEIGHT,
                forall|i: int, j: int|
                    0 <= i < x && 0 <= j < HEIGHT ==> {
                        &&& (#[trigger] out@[flat_index(i, j)]).0 == Position { x: i as i8, y: j as i8 }
                        &&& *out@[flat_index(i, j)].1 == self.at(i, j)
                    },
            decreases WIDTH - x,
        {
            let mut y: usize = 0;
            while y < HEIGHT
                invariant
                    self.wf(),
                    x < WIDTH,
                    y <= HEIGHT,
                    out@.len() == x * HEIGHT + y,
                    forall|i: int, j: int|
                        0 <= i < x && 0 <= j < HEIGHT ==> {
                            &&& (#[trigger] out@[flat_index(i, j)]).0 == Position { x: i as i8, y: j as i8 }
                            &&& *out@[flat_index(i, j)].1 == self.at(i, j)
                        },
                    forall|j: int|
                        0 <= j < y ==> {
                            &&& (#[trigger] out@[flat_index(x as int, j)]).0 == Position {
                                x: x as i8,
                                y: j as i8,
                            }
                            &&& *out@[flat_index(x as int, j)].1 == self.at(x as int, j)
                        },
                decreases HEIGHT - y,
            {
                out.push((Position { x: x as Coord, y: y as Coord }, self.get(x, y)));
                y += 1;
            }
            proof {
                assert forall|i: int, j: int|
                    0 <= i < x + 1 && 0 <= j < HEIGHT implies {
                        &&& (#[trigger] out@[flat_index(i, j)]).0 == Position { x: i as i8, y: j as i8 }
                        &&& *out@[flat_index(i, j)].1 == self.at(i, j)
                    } by {
                    if i == x {
                    }
                }
            }
            x += 1;
        }
        out
    }
}

impl<T: Copy> FullPitch<T> {
    /// A pitch holding `value` on every square.
    pub fn filled(value: T) -> (r: FullPitch<T>)
        ensures
            r.wf(),
            forall|x: int, y: int| in_pitch(x, y) ==> #[trigger] r.at(x, y) == value,
    {
        let mut data: Vec<Vec<T>> = Vec::new();
        let mut x: usize = 0;
        while x < WIDTH
            invariant
                x <= WIDTH,
                data@.len() == x,
                forall|i: int| 0 <= i < x ==> #[trigger] data@[i]@.len() == HEIGHT,
                forall|i: int, j: int|
                    0 <= i < x && 0 <= j < HEIGHT ==> #[trigger] data@[i]@[j] == value,
            decreases WIDTH - x,
        {
            let mut row: Vec<T> = Vec::new();
            let mut y: usize = 0;
            while y < HEIGHT
                invariant
                    y <= HEIGHT,
                    row@.len() == y,
                    forall|j: int| 0 <= j < y ==> #[trigger] row@[j] == value,
                decreases HEIGHT - y,
            {
                row.push(value);
                y += 1;
            }
            data.push(row);
            x += 1;
        }
        FullPitch { data }
    }
}

impl<T> FullPitch<Vec<T>> {
    /// A pitch with an empty list on every square.
    pub fn new_empty_lists() -> (r: FullPitch<Vec<T>>)
        ensures
            r.wf(),
            forall|x: int, y: int| in_pitch(x, y) ==> (#[trigger] r.at(x, y))@.len() == 0,
    {
        let mut data: Vec<Vec<Vec<T>>> = Vec::new();
        let mut x: usize = 0;
        while x < WIDTH
            invariant
                x <= WIDTH,
                data@.len() == x,
                forall|i: int| 0 <= i < x ==> #[trigger] data@[i]@.len() == HEIGHT,
                forall|i: int, j: int|
                    0 <= i < x && 0 <= j < HEIGHT ==> (#[trigger] data@[i]@[j])@.len() == 0,
            decreases WIDTH - x,
        {
            let mut row: Vec<Vec<T>> = Vec::new();
            let mut y: usize = 0;
            while y < HEIGHT
                invariant
                    y <= HEIGHT,
                    row@.len() == y,
                    forall|j: int| 0 <= j < y ==> (#[trigger] row@[j])@.len() == 0,
                decreases HEIGHT - y,
            {
                row.push(Vec::new());
                y += 1;
            }
            data.push(row);
            x += 1;
        }
        FullPitch { data }
    }
}

impl<T> FullPitch<Option<T>> {
    /// A pitch with nothing on any square.
    pub fn new_empty() -> (r: FullPitch<Option<T>>)
        ensures
            r.wf(),
            forall|x: int, y: int| in_pitch(x, y) ==> #[trigger] r.at(x, y) == None::<T>,
    {
        let mut data: Vec<Vec<Option<T>>> = Vec::new();
        let mut x: usize = 0;
        while x < WIDTH
            invariant
                x <= WIDTH,
                data@.len() == x,
                forall|i: int| 0 <= i < x ==> #[trigger] data@[i]@.len() == HEIGHT,
                forall|i: int, j: int|
                    0 <= i < x && 0 <= j < HEIGHT ==> #[trigger] data@[i]@[j] == None::<T>,
            decreases WIDTH - x,
        {
            let mut row: Vec<Option<T>> = Vec::new();
            let mut y: usize = 0;
            while y < HEIGHT
                invariant
                    y <= HEIGHT,
                    row@.len() == y,
                    forall|j: int| 0 <= j < y ==> #[trigger] row@[j] == None::<T>,
                decreases HEIGHT - y,
            {
                row.push(None);
                y += 1;
            }
            data.push(row);
            x += 1;
        }
        FullPitch { data }
    }

    /// Empty every square.
    pub fn clear(&mut self)
        ensures
            final(self).wf(),
            forall|x: int, y: int| in_pitch(x, y) ==> #[trigger] final(self).at(x, y) == None::<T>,
    {
        *self = FullPitch::new_empty();
    }

    /// Remove and return what stands on `pos`.
    pub fn take_pos(&mut self, pos: Position) -> (r: Option<T>)
        requires
            old(self).wf(),
            in_pitch(pos.x as int, pos.y as int),
        ensures
            r == old(self).at(pos.x as int, pos.y as int),
            final(self).wf(),
            final(self)@ == old(self)@.update(
                pos.x as int,
                old(self)@[pos.x as int].update(pos.y as int, None),
            ),
    {
        let slot = self.get_pos_mut(pos);
        let r = slot.take();
        r
    }
}

impl<T> Default for FullPitch<Option<T>> {
    fn default() -> (r: Self)
        ensures
            r.wf(),
            forall|x: int, y: int| in_pitch(x, y) ==> #[trigger] r.at(x, y) == None::<T>,
    {
        FullPitch::new_empty()
    }
}

/// Writing a square through `get_pos_mut` and reading it back gives what was written, and
/// leaves every other square as it was.
pub proof fn lemma_pitch_read_after_write<T>(
    before: Seq<Seq<T>>,
    x: int,
    y: int,
    v: T,
    x2: int,
    y2: int,
)
    requires
        before.len() == WIDTH,
        forall|i: int| 0 <= i < WIDTH ==> #[trigger] before[i].len() == HEIGHT,
        in_pitch(x, y),
        in_pitch(x2, y2),
    ensures
        before.update(x, before[x].update(y, v))[x][y] == v,
        (x2 != x || y2 != y) ==> before.update(x, before[x].update(y, v))[x2][y2] == before[x2][y2],
{
}

} // verus!
