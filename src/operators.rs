use crate::lex::word_is;
use vstd::prelude::*;

verus! {

/// A binary operator, assignments included.
#[derive(Clone, Copy, Debug, PartialEq, Eq, Structural)]
pub enum BinOp {
    Mul,
    Div,
    Rem,
    Add,
    Sub,
    Eq,
    Ne,
    Lt,
    Le,
    Gt,
    Ge,
    And,
    Or,
    Assign,
    AddAssign,
    SubAssign,
    MulAssign,
    DivAssign,
}

/// The operator spelled `w`, if any.
pub open spec fn binop_named(w: Seq<u8>) -> Option<BinOp> {
    if w == seq![42u8] {
        Some(BinOp::Mul)
    } else     if w == seq![47u8] {
        Some(BinOp::Div)
    } else     if w == seq![37u8] {
        Some(BinOp::Rem)
    } else     if w == seq![43u8] {
        Some(BinOp::Add)
    } else     if w == seq![45u8] {
        Some(BinOp::Sub)
    } else     if w == seq![61, 61u8] {
        Some(BinOp::Eq)
    } else     if w == seq![33, 61u8] {
        Some(BinOp::Ne)
    } else     if w == seq![60u8] {
        Some(BinOp::Lt)
    } else     if w == seq![60, 61u8] {
        Some(BinOp::Le)
    } else     if w == seq![62u8] {
        Some(BinOp::Gt)
    } else     if w == seq![62, 61u8] {
        Some(BinOp::Ge)
    } else     if w == seq![38, 38u8] {
        Some(BinOp::And)
    } else     if w == seq![124, 124u8] {
        Some(BinOp::Or)
    } else     if w == seq![61u8] {
        Some(BinOp::Assign)
    } else     if w == seq![43, 61u8] {
        Some(BinOp::AddAssign)
    } else     if w == seq![45, 61u8] {
        Some(BinOp::SubAssign)
    } else     if w == seq![42, 61u8] {
        Some(BinOp::MulAssign)
    } else     if w == seq![47, 61u8] {
        Some(BinOp::DivAssign)
    } else {
        None
    }
}

/// Binding strength, higher binds tighter: `*` `/` `%`, then `+` `-`, then
/// comparisons, then `&&`, then `||`, then assignment. Prefix operators
/// bind tighter than all of them.
pub open spec fn precedence_spec(op: BinOp) -> u8 {
    match op {
        BinOp::Mul | BinOp::Div | BinOp::Rem => 6,
        BinOp::Add | BinOp::Sub => 5,
        BinOp::Eq | BinOp::Ne | BinOp::Lt | BinOp::Le | BinOp::Gt | BinOp::Ge => 4,
        BinOp::And => 3,
        BinOp::Or => 2,
        BinOp::Assign | BinOp::AddAssign | BinOp::SubAssign | BinOp::MulAssign | BinOp::DivAssign => 1,
    }
}

/// Assignments group to the right; every other operator to the left.
pub open spec fn right_assoc_spec(op: BinOp) -> bool {
    precedence_spec(op) == 1
}

/// Whether an operator-precedence parser holding `top` on its operator
/// stack reduces it before pushing `incoming`.
pub open spec fn reduces_spec(top: BinOp, incoming: BinOp) -> bool {
    precedence_spec(top) > precedence_spec(incoming) || (precedence_spec(top) == precedence_spec(
        incoming,
    ) && !right_assoc_spec(incoming))
}

/// Whether bytes `start..end` of `s` are the single byte `c`.
fn byte_is(s: &Vec<u8>, start: usize, end: usize, c: u8) -> (r: bool)
    requires
        start <= end <= s@.len(),
    ensures
        r == (s@.subrange(start as int, end as int) == seq![c]),
{
    if end - start == 1 && s[start] == c {
        assert(s@.subrange(start as int, end as int) =~= seq![c]);
        true
    } else {
        if end - start == 1 {
            assert(s@.subrange(start as int, end as int)[0] != seq![c][0]);
        } else {
            assert(s@.subrange(start as int, end as int).len() != seq![c].len());
        }
        false
    }
}

/// The operator spelled by bytes `start..end` of `s`.
pub fn binop_at(s: &Vec<u8>, start: usize, end: usize) -> (r: Option<BinOp>)
    requires
        start <= end <= s@.len(),
    ensures
        r == binop_named(s@.subrange(start as int, end as int)),
{
    if byte_is(s, start, end, 42u8) {
        Some(BinOp::Mul)
    } else     if byte_is(s, start, end, 47u8) {
        Some(BinOp::Div)
    } else     if byte_is(s, start, end, 37u8) {
        Some(BinOp::Rem)
    } else     if byte_is(s, start, end, 43u8) {
        Some(BinOp::Add)
    } else     if byte_is(s, start, end, 45u8) {
        Some(BinOp::Sub)
    } else     if word_is(s, start, end, &[61, 61u8]) {
        Some(BinOp::Eq)
    } else     if word_is(s, start, end, &[33, 61u8]) {
        Some(BinOp::Ne)
    } else     if byte_is(s, start, end, 60u8) {
        Some(BinOp::Lt)
    } else     if word_is(s, start, end, &[60, 61u8]) {
        Some(BinOp::Le)
    } else     if byte_is(s, start, end, 62u8) {
        Some(BinOp::Gt)
    } else     if word_is(s, start, end, &[62, 61u8]) {
        Some(BinOp::Ge)
    } else     if word_is(s, start, end, &[38, 38u8]) {
        Some(BinOp::And)
    } else     if word_is(s, start, end, &[124, 124u8]) {
        Some(BinOp::Or)
    } else     if byte_is(s, start, end, 61u8) {
        Some(BinOp::Assign)
    } else     if word_is(s, start, end, &[43, 61u8]) {
        Some(BinOp::AddAssign)
    } else     if word_is(s, start, end, &[45, 61u8]) {
        Some(BinOp::SubAssign)
    } else     if word_is(s, start, end, &[42, 61u8]) {
        Some(BinOp::MulAssign)
    } else     if word_is(s, start, end, &[47, 61u8]) {
        Some(BinOp::DivAssign)
    } else {
        None
    }
}

impl BinOp {
    pub fn precedence(&self) -> (r: u8)
        ensures
            r == precedence_spec(*self),
    {
        match self {
            BinOp::Mul | BinOp::Div | BinOp::Rem => 6,
            BinOp::Add | BinOp::Sub => 5,
            BinOp::Eq | BinOp::Ne | BinOp::Lt | BinOp::Le | BinOp::Gt | BinOp::Ge => 4,
            BinOp::And => 3,
            BinOp::Or => 2,
            BinOp::Assign | BinOp::AddAssign | BinOp::SubAssign | BinOp::MulAssign | BinOp::DivAssign => 1,
        }
    }

    pub fn is_right_assoc(&self) -> (r: bool)
        ensures
            r == right_assoc_spec(*self),
    {
        self.precedence() == 1
    }
}

/// Whether `top` is reduced before `incoming` is pushed.
pub fn reduces(top: BinOp, incoming: BinOp) -> (r: bool)
    ensures
        r == reduces_spec(top, incoming),
{
    let pt = top.precedence();
    let pi = incoming.precedence();
    pt > pi || (pt == pi && !incoming.is_right_assoc())
}

/// Operators of equal strength group to the left, except assignment,
/// which groups to the right; a tighter operator is always reduced first,
/// and a looser one never.
pub proof fn lemma_grouping(a: BinOp, b: BinOp)
    ensures
        precedence_spec(a) == precedence_spec(b) && precedence_spec(a) != 1 ==> reduces_spec(a, b),
        precedence_spec(a) == precedence_spec(b) && precedence_spec(a) == 1 ==> !reduces_spec(a, b),
        precedence_spec(a) > precedence_spec(b) ==> reduces_spec(a, b),
        precedence_spec(a) < precedence_spec(b) ==> !reduces_spec(a, b),
{
}

} // verus!
