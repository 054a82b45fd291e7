use vstd::prelude::*;

verus! {

/// Two coordinates read through `&self`.
#[derive(Clone, Copy, Debug, PartialEq, Eq, Structural)]
pub struct Foo {
    pub x: i32,
    pub y: i32,
}

impl Foo {
    /// `x + y + offset`.
    pub fn foo(&self, offset: i32) -> (r: i32)
        requires
            i32::MIN <= self.x + self.y <= i32::MAX,
            i32::MIN <= self.x + self.y + offset <= i32::MAX,
        ensures
            r == self.x + self.y + offset,
    {
        self.x + self.y + offset
    }
}

} // verus!
