use vstd::prelude::*;

verus! {

/// Two fields read through a shared reference.
#[derive(Clone, Copy, Debug, PartialEq, Eq, Structural)]
pub struct Foo {
    pub a: i32,
    pub b: i32,
}

impl Foo {
    pub fn sum(&self) -> (r: i32)
        requires
            i32::MIN <= self.a + self.b <= i32::MAX,
        ensures
            r == self.a + self.b,
    {
        self.a + self.b
    }

    pub fn set_a(&mut self, new_a: i32)
        ensures
            final(self).a == new_a,
            final(self).b == old(self).b,
    {
        self.a = new_a;
    }
}

/// The sum of the fields of the borrowed `x`.
pub fn bar(x: &Foo) -> (r: i32)
    requires
        i32::MIN <= x.a + x.b <= i32::MAX,
    ensures
        r == x.a + x.b,
{
    x.sum()
}

pub fn add(a: i32, b: i32) -> (r: i32)
    requires
        i32::MIN <= a + b <= i32::MAX,
    ensures
        r == a + b,
{
    a + b
}

pub fn mul(a: i32, b: i32) -> (r: i32)
    requires
        i32::MIN <= a * b <= i32::MAX,
    ensures
        r == a * b,
{
    a * b
}

pub fn is_positive(n: i32) -> (r: bool)
    ensures
        r == (n > 0),
{
    n > 0
}

/// Returns a binding of the unit type, holding the unit literal.
pub fn foo() -> (r: ())
    ensures
        r == (),
{
    let x: () = ();
    return x;
}

pub fn greet() -> (r: &'static str)
    ensures
        r@ == "hi"@,
{
    "hi"
}

} // verus!
