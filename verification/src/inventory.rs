//! The paddle's ball inventory: a fixed-capacity pocket of balls with a
//! fill cursor, grown by pickups and shrunk by penalties.

use vstd::prelude::*;

verus! {

/// The kinds of ball the paddle can fire.
#[derive(Clone, Copy, Debug, PartialEq, Eq, Structural)]
pub enum Ball {
    Tennis,
}

/// The ball pocket. `index` is the fill cursor: slots below it hold the
/// balls that can be drawn next, top first.
pub struct Inventory {
    capacity: usize,
    index: usize,
    pub balls: Vec<Option<Ball>>,
}

impl Inventory {
    /// The number of slots.
    pub closed spec fn spec_capacity(&self) -> int {
        self.capacity as int
    }

    /// The fill cursor.
    pub closed spec fn spec_index(&self) -> int {
        self.index as int
    }

    /// The slots.
    pub closed spec fn spec_balls(&self) -> Seq<Option<Ball>> {
        self.balls@
    }

    /// The pocket is well formed when the cursor is within the capacity
    /// and every slot up to the capacity is backed by storage.
    pub open spec fn wf(&self) -> bool {
        0 <= self.spec_index() <= self.spec_capacity() <= self.spec_balls().len()
    }

    /// A pocket of `capacity` slots, the first filled with the given
    /// balls and the cursor on top of them.
    pub fn new(capacity: usize, balls: &[Ball]) -> (r: Self)
        requires
            balls@.len() <= capacity,
        ensures
            r.wf(),
            r.spec_capacity() == capacity,
            r.spec_index() == balls@.len(),
            r.spec_balls().len() == capacity,
            forall|i: int|
                0 <= i < balls@.len() ==> r.spec_balls()[i] == Some(#[trigger] balls@[i]),
            forall|i: int| balls@.len() <= i < capacity ==> r.spec_balls()[i] is None,
    {
        let mut slots: Vec<Option<Ball>> = Vec::new();
        let mut i: usize = 0;
        while i < capacity
            invariant
                0 <= i <= capacity,
                balls@.len() <= capacity,
                slots@.len() == i as int,
                forall|j: int| 0 <= j < i && j < balls@.len() ==> slots@[j] == Some(#[trigger] balls@[j]),
                forall|j: int| balls@.len() <= j < i ==> #[trigger] slots@[j] is None,
            decreases capacity - i,
        {
            if i < balls.len() {
                slots.push(Some(balls[i]));
            } else {
                slots.push(None);
            }
            i = i + 1;
        }
        Inventory { capacity, index: balls.len(), balls: slots }
    }

    /// Stores a ball in the next free slot. Fails when the pocket has no
    /// capacity or is full.
    pub fn push(&mut self, ball: Ball) -> (r: Result<(), ()>)
        requires
            old(self).wf(),
        ensures
            final(self).wf(),
            final(self).spec_capacity() == old(self).spec_capacity(),
            old(self).spec_capacity() == 0 || old(self).spec_index() == old(self).spec_capacity()
                ==> r is Err && *final(self) == *old(self),
            old(self).spec_capacity() > 0 && old(self).spec_index() < old(self).spec_capacity()
                ==> {
                &&& r is Ok
                &&& final(self).spec_index() == old(self).spec_index() + 1
                &&& final(self).spec_balls() == old(self).spec_balls().update(
                    old(self).spec_index(),
                    Some(ball),
                )
            },
    {
        if self.capacity == 0 {
            return Err(());
        }
        if self.index < self.capacity {
            self.balls[self.index] = Some(ball);
            self.index = self.index + 1;
            Ok(())
        } else {
            Err(())
        }
    }

    /// Draws the topmost ball, emptying its slot and moving the cursor
    /// down. An empty pocket yields nothing.
    pub fn pop(&mut self) -> (r: Option<Ball>)
        requires
            old(self).wf(),
        ensures
            final(self).wf(),
            final(self).spec_capacity() == old(self).spec_capacity(),
            old(self).spec_index() == 0 ==> r is None && *final(self) == *old(self),
            old(self).spec_index() > 0 ==> {
                &&& r == old(self).spec_balls()[old(self).spec_index() - 1]
                &&& final(self).spec_index() == old(self).spec_index() - 1
                &&& final(self).spec_balls() == old(self).spec_balls().update(
                    old(self).spec_index() - 1,
                    None,
                )
            },
    {
        if self.index > 0 {
            self.index = self.index - 1;
            let r: Option<Ball> = self.balls[self.index];
            self.balls[self.index] = None;
            r
        } else {
            None
        }
    }

    /// The topmost ball, left in place.
    pub fn peek(&self) -> (r: Option<Ball>)
        requires
            self.wf(),
        ensures
            self.spec_index() == 0 ==> r is None,
            self.spec_index() > 0 ==> r == self.spec_balls()[self.spec_index() - 1],
    {
        if self.index > 0 {
            self.balls[self.index - 1]
        } else {
            None
        }
    }

    /// Whether no ball can be drawn.
    pub fn is_empty(&self) -> (r: bool)
        ensures
            r == (self.spec_index() == 0),
    {
        self.index == 0
    }

    /// The number of slots.
    pub fn capacity(&self) -> (r: usize)
        ensures
            r == self.spec_capacity(),
    {
        self.capacity
    }

    /// The fill cursor.
    pub fn index(&self) -> (r: usize)
        ensures
            r == self.spec_index(),
    {
        self.index
    }

    /// Grows the pocket by `num` empty slots.
    pub fn expansion(&mut self, num: usize)
        requires
            old(self).wf(),
            old(self).spec_capacity() + num <= usize::MAX,
            old(self).spec_balls().len() + num <= usize::MAX,
        ensures
            final(self).wf(),
            final(self).spec_capacity() == old(self).spec_capacity() + num,
            final(self).spec_index() == old(self).spec_index(),
            final(self).spec_balls().len() == old(self).spec_balls().len() + num,
            forall|i: int|
                0 <= i < old(self).spec_balls().len() ==> final(self).spec_balls()[i] == old(self).spec_balls()[i],
            forall|i: int|
                old(self).spec_balls().len() <= i < final(self).spec_balls().len() ==> final(self).spec_balls()[i] is None,
    {
        self.capacity = self.capacity + num;
        let mut k: usize = 0;
        while k < num
            invariant
                0 <= k <= num,
                self.capacity == old(self).capacity + num,
                self.index == old(self).index,
                self.balls@.len() == old(self).balls@.len() + k,
                forall|i: int|
                    0 <= i < old(self).balls@.len() ==> self.balls@[i] == old(self).balls@[i],
                forall|i: int|
                    old(self).balls@.len() <= i < self.balls@.len() ==> #[trigger] self.balls@[i] is None,
            decreases num - k,
        {
            self.balls.push(None);
            k = k + 1;
        }
    }

    /// Shrinks the pocket by `num` slots, dropping their contents and
    /// pulling the cursor down to the new capacity if it stuck out. A
    /// penalty larger than the capacity empties the pocket.
    pub fn redusing(&mut self, num: usize)
        requires
            old(self).wf(),
            old(self).spec_capacity() <= 0x7fffffff,
            num <= 0x7fffffff,
        ensures
            final(self).wf(),
            old(self).spec_capacity() == 0 ==> *final(self) == *old(self),
            old(self).spec_capacity() > 0 ==> {
                let dropped = if num > old(self).spec_capacity() {
                    num - old(self).spec_capacity()
                } else {
                    num as int
                };
                let removed = if dropped > old(self).spec_balls().len() {
                    old(self).spec_balls().len() as int
                } else {
                    dropped
                };
                &&& final(self).spec_capacity() == (if num > old(self).spec_capacity() {
                    0int
                } else {
                    old(self).spec_capacity() - num
                })
                &&& final(self).spec_index() == (if old(self).spec_index() <= final(self).spec_capacity() {
                    old(self).spec_index()
                } else {
                    final(self).spec_capacity()
                })
                &&& final(self).spec_balls() == old(self).spec_balls().take(
                    old(self).spec_balls().len() - removed,
                )
            },
    {
        if self.capacity == 0 {
            return ;
        }
        let n: usize;
        if num > self.capacity {
            n = num - self.capacity;
            self.capacity = 0;
        } else {
            self.capacity = self.capacity - num;
            n = num;
        }
        if self.capacity < self.index {
            self.index = self.capacity;
        }
        let ghost balls0 = self.balls@;
        let ghost capf = self.capacity;
        let ghost idxf = self.index;
        let mut k: usize = 0;
        while k < n
            invariant
                0 <= k <= n,
                self.capacity == capf,
                self.index == idxf,
                k <= balls0.len() ==> self.balls@ == balls0.take(balls0.len() - k),
                k > balls0.len() ==> self.balls@.len() == 0,
            decreases n - k,
        {
            proof {
                if (k as int) < balls0.len() {
                    assert(balls0.take(balls0.len() - k).drop_last() =~= balls0.take(
                        balls0.len() - (k + 1),
                    ));
                }
                if k == balls0.len() {
                    assert(balls0.take(0).len() == 0);
                }
            }
            self.balls.pop();
            k = k + 1;
        }
        proof {
            if n > balls0.len() {
                assert(self.balls@ =~= balls0.take(0));
            }
        }
    }

    /// Empties every slot, leaving the cursor where it was.
    pub fn clear(&mut self)
        ensures
            final(self).spec_capacity() == old(self).spec_capacity(),
            final(self).spec_index() == old(self).spec_index(),
            final(self).spec_balls().len() == old(self).spec_balls().len(),
            forall|i: int|
                0 <= i < final(self).spec_balls().len() ==> final(self).spec_balls()[i] is None,
    {
        let mut k: usize = 0;
        while k < self.balls.len()
            invariant
                0 <= k <= self.balls@.len(),
                self.capacity == old(self).capacity,
                self.index == old(self).index,
                self.balls@.len() == old(self).balls@.len(),
                forall|i: int| 0 <= i < k ==> #[trigger] self.balls@[i] is None,
            decreases self.balls@.len() - k,
        {
            self.balls[k] = None;
            k = k + 1;
        }
    }

    /// The ball in the given slot, or nothing outside the capacity.
    pub fn get(&self, index: usize) -> (r: Option<Ball>)
        requires
            self.wf(),
        ensures
            index < self.spec_capacity() ==> r == self.spec_balls()[index as int],
            index >= self.spec_capacity() ==> r is None,
    {
        if self.capacity == 0 || index > self.capacity - 1 {
            None
        } else {
            self.balls[index]
        }
    }
}

} // verus!
