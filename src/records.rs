use vstd::prelude::*;

verus! {

/// Number of slots in a bucket.
pub const BUCKET_SLOTS: i32 = 4;

/// A fixed-size bucket filled from the front; `len` slots are in use.
#[derive(Clone, Copy, Debug, PartialEq, Eq)]
pub struct Bucket {
    pub data: [i32; 4],
    pub len: i32,
}

/// `after` is `before` with `value` written into the next free slot.
pub open spec fn pushed(before: Bucket, value: i32, after: Bucket) -> bool {
    &&& after.data@ == before.data@.update(before.len as int, value)
    &&& after.len == before.len + 1
}

impl Bucket {
    /// Writes `value` into the next free slot.
    pub fn push(&mut self, value: i32)
        requires
            0 <= old(self).len < BUCKET_SLOTS,
        ensures
            pushed(*old(self), value, *final(self)),
    {
        let at = self.len as usize;
        self.data[at] = value;
        self.len += 1;
    }
}

/// Two pushes into a bucket land in consecutive slots, in order, and raise
/// its length by two; the other slots keep their values.
pub proof fn lemma_two_pushes(b0: Bucket, v1: i32, b1: Bucket, v2: i32, b2: Bucket)
    requires
        0 <= b0.len,
        b0.len + 2 <= BUCKET_SLOTS,
        pushed(b0, v1, b1),
        pushed(b1, v2, b2),
    ensures
        b2.len == b0.len + 2,
        b2.data@[b0.len as int] == v1,
        b2.data@[b0.len + 1] == v2,
        forall|k: int| 0 <= k < b0.len ==> b2.data@[k] == b0.data@[k],
{
}

/// A counter that grows by the deltas given to it.
#[derive(Clone, Copy, Debug, PartialEq, Eq, Structural)]
pub struct Counter {
    pub value: i32,
}

impl Counter {
    pub fn inc(&mut self, delta: i32)
        requires
            i32::MIN <= old(self).value + delta <= i32::MAX,
        ensures
            final(self).value == old(self).value + delta,
    {
        self.value += delta;
    }
}

/// A register read by shared reference and bumped by mutable reference.
#[derive(Clone, Copy, Debug, PartialEq, Eq, Structural)]
pub struct Register {
    pub value: i32,
}

impl Register {
    /// Adds `delta` and returns the new value.
    pub fn bump(&mut self, delta: i32) -> (r: i32)
        requires
            i32::MIN <= old(self).value + delta <= i32::MAX,
        ensures
            final(self).value == old(self).value + delta,
            r == final(self).value,
    {
        self.value = self.value + delta;
        self.value
    }

    /// The current value; the same whether reached through a reference or
    /// through the register itself.
    pub fn read(&self) -> (r: i32)
        ensures
            r == self.value,
    {
        self.value
    }
}

/// A running total.
#[derive(Clone, Copy, Debug, PartialEq, Eq, Structural)]
pub struct Sum {
    pub total: i32,
}

impl Sum {
    pub fn add(&mut self, v: i32)
        requires
            i32::MIN <= old(self).total + v <= i32::MAX,
        ensures
            final(self).total == old(self).total + v,
    {
        self.total = self.total + v;
    }
}

/// A single value passed around by value or by reference.
#[derive(Clone, Copy, Debug, PartialEq, Eq, Structural)]
pub struct Cell {
    pub v: i32,
}

/// A fresh copy of `cell`.
pub fn clone_cell(cell: &Cell) -> (r: Cell)
    ensures
        r == *cell,
{
    Cell { v: cell.v }
}

/// `cell.v + delta`, computed on a copy the caller handed over.
pub fn add_by_value(cell: Cell, delta: i32) -> (r: i32)
    requires
        i32::MIN <= cell.v + delta <= i32::MAX,
    ensures
        r == cell.v + delta,
{
    cell.v + delta
}

/// Adds `delta` to the caller's cell and returns its new value.
pub fn add_in_place(cell: &mut Cell, delta: i32) -> (r: i32)
    requires
        i32::MIN <= old(cell).v + delta <= i32::MAX,
    ensures
        final(cell).v == old(cell).v + delta,
        r == final(cell).v,
{
    cell.v = cell.v + delta;
    cell.v
}

/// An accumulator returned from blocks.
#[derive(Clone, Copy, Debug, PartialEq, Eq, Structural)]
pub struct Acc {
    pub cur: i32,
}

/// A new accumulator, `inc` past `acc`.
pub fn step(acc: Acc, inc: i32) -> (r: Acc)
    requires
        i32::MIN <= acc.cur + inc <= i32::MAX,
    ensures
        r.cur == acc.cur + inc,
{
    Acc { cur: acc.cur + inc }
}

/// The value of the block that seeds `build`: `t = (a + b) * (a - b)`,
/// then `-t` when negative and `t + 1` otherwise.
pub open spec fn block_value(a: int, b: int) -> int {
    let t = (a + b) * (a - b);
    if t < 0 { -t } else { t + 1 }
}

/// An accumulator seeded with `block_value(a, b)` and stepped by `b - a`.
pub fn build(a: i32, b: i32) -> (r: Acc)
    requires
        i32::MIN <= a + b <= i32::MAX,
        i32::MIN <= a - b <= i32::MAX,
        i32::MIN < (a + b) * (a - b) < i32::MAX,
        i32::MIN <= b - a <= i32::MAX,
        i32::MIN <= block_value(a as int, b as int) + (b - a) <= i32::MAX,
    ensures
        r.cur == block_value(a as int, b as int) + (b - a),
{
    let block_val: i32 = {
        let mut t: i32 = a + b;
        t = t * (a - b);
        if t < 0 {
            -t
        } else {
            t + 1
        }
    };
    {
        let seeded = Acc { cur: block_val };
        step(seeded, b - a)
    }
}

/// Two values, swapped by value.
#[derive(Clone, Copy, Debug, PartialEq, Eq, Structural)]
pub struct Pair {
    pub a: i32,
    pub b: i32,
}

/// A new pair with the fields of `pair` exchanged.
pub fn swap(pair: Pair) -> (r: Pair)
    ensures
        r.a == pair.b,
        r.b == pair.a,
{
    Pair { a: pair.b, b: pair.a }
}

/// A point in the plane.
#[derive(Clone, Copy, Debug, PartialEq, Eq, Structural)]
pub struct Point {
    pub x: i32,
    pub y: i32,
}

impl Point {
    pub fn from(x: i32, y: i32) -> (r: Point)
        ensures
            r.x == x,
            r.y == y,
    {
        Point { x: x, y: y }
    }

    /// The point mirrored on the diagonal.
    pub fn swap(self) -> (r: Point)
        ensures
            r.x == self.y,
            r.y == self.x,
    {
        Point { x: self.y, y: self.x }
    }
}

} // verus!
