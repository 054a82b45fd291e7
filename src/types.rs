use crate::methods::Receiver;
use vstd::prelude::*;

verus! {

/// A type of the language. Structs are named by the index of their
/// declaration; arrays carry their length.
#[derive(Debug, PartialEq, Eq)]
pub enum Ty {
    I32,
    Usize,
    Bool,
    Unit,
    Str,
    StructRef(usize),
    Array(Box<Ty>, usize),
    /// A reference, `&mut` when the flag is set.
    Reference(Box<Ty>, bool),
}

/// A typing rule that an expression breaks.
#[derive(Clone, Copy, Debug, PartialEq, Eq, Structural)]
pub enum TypeError {
    /// The branches of an `if` have different types, or an `if` without
    /// `else` has a non-unit branch.
    BranchMismatch,
    /// The `break`s of one loop carry values of different types.
    BreakMismatch,
    /// An index that is not of an unsigned integer type.
    IndexNotUnsigned,
    /// Indexing into something that is neither an array nor a reference
    /// to one.
    NotIndexable,
}

/// Structural equality of two types.
pub fn ty_eq(a: &Ty, b: &Ty) -> (r: bool)
    ensures
        r == (*a == *b),
    decreases a,
{
    match (a, b) {
        (Ty::I32, Ty::I32) => true,
        (Ty::Usize, Ty::Usize) => true,
        (Ty::Bool, Ty::Bool) => true,
        (Ty::Unit, Ty::Unit) => true,
        (Ty::Str, Ty::Str) => true,
        (Ty::StructRef(x), Ty::StructRef(y)) => *x == *y,
        (Ty::Array(x, n), Ty::Array(y, m)) => *n == *m && ty_eq(x, y),
        (Ty::Reference(x, p), Ty::Reference(y, q)) => *p == *q && ty_eq(x, y),
        _ => false,
    }
}

/// The type of `if c { then } else { els }`, or of `if c { then }` when
/// `els` is `None`.
pub open spec fn if_type(then_ty: Ty, els: Option<Ty>) -> Result<Ty, TypeError> {
    match els {
        None => if then_ty == Ty::Unit { Ok(Ty::Unit) } else { Err(TypeError::BranchMismatch) },
        Some(e) => if then_ty == e { Ok(then_ty) } else { Err(TypeError::BranchMismatch) },
    }
}

/// Unifies the branch types of an `if` expression.
pub fn unify_branches(then_ty: Ty, els: Option<Ty>) -> (r: Result<Ty, TypeError>)
    ensures
        r == if_type(then_ty, els),
{
    match els {
        None => {
            if ty_eq(&then_ty, &Ty::Unit) {
                Ok(Ty::Unit)
            } else {
                Err(TypeError::BranchMismatch)
            }
        },
        Some(e) => {
            if ty_eq(&then_ty, &e) {
                Ok(then_ty)
            } else {
                Err(TypeError::BranchMismatch)
            }
        },
    }
}

/// The type a `break` carries: a bare `break` carries unit.
pub open spec fn break_value(b: Option<Ty>) -> Ty {
    match b {
        Some(t) => t,
        None => Ty::Unit,
    }
}

/// The type of a `loop` whose `break`s carry `breaks`: unit when there is
/// none, else the type they all agree on.
pub open spec fn loop_type(breaks: Seq<Option<Ty>>) -> Result<Ty, TypeError> {
    if breaks.len() == 0 {
        Ok(Ty::Unit)
    } else if forall|k: int| 0 <= k < breaks.len() ==> break_value(#[trigger] breaks[k]) == break_value(breaks[0]) {
        Ok(break_value(breaks[0]))
    } else {
        Err(TypeError::BreakMismatch)
    }
}

/// Infers the type of a `loop` from the values its `break`s carry.
pub fn infer_loop_type(breaks: Vec<Option<Ty>>) -> (r: Result<Ty, TypeError>)
    ensures
        r == loop_type(breaks@),
{
    let n = breaks.len();
    if n == 0 {
        return Ok(Ty::Unit);
    }
    let ghost all = breaks@;
    let mut rest = breaks;
    let mut k: usize = n;
    let mut first: Option<Ty> = None;
    while k > 1
        invariant
            1 <= k <= n,
            n == all.len(),
            all == breaks@,
            rest@ == all.take(k as int),
            forall|j: int| k <= j < n ==> break_value(#[trigger] all[j]) == break_value(all[0]),
        decreases k,
    {
        let b = rest.pop().unwrap();
        let head: &Option<Ty> = &rest[0];
        let same = match (&b, head) {
            (Some(x), Some(y)) => ty_eq(x, y),
            (Some(x), None) => ty_eq(x, &Ty::Unit),
            (None, Some(y)) => ty_eq(&Ty::Unit, y),
            (None, None) => true,
        };
        if !same {
            proof {
                assert(b == all[k - 1]);
                assert(rest@[0] == all[0]);
                assert(break_value(all[k - 1]) != break_value(all[0]));
                assert(!(forall|j: int|
                    0 <= j < all.len() ==> break_value(#[trigger] all[j]) == break_value(all[0])));
                assert(loop_type(all) == Err::<Ty, TypeError>(TypeError::BreakMismatch));
            }
            return Err(TypeError::BreakMismatch);
        }
        k = k - 1;
        proof {
            assert(all.take(k as int) =~= all.take(k + 1).drop_last());
        }
    }
    let b0 = rest.pop().unwrap();
    match b0 {
        Some(t) => Ok(t),
        None => Ok(Ty::Unit),
    }
}

/// The element type reached by indexing a value of type `recv` with an
/// index of type `index`.
pub open spec fn index_type(recv: Ty, index: Ty) -> Result<Ty, TypeError> {
    if index != Ty::Usize {
        Err(TypeError::IndexNotUnsigned)
    } else {
        match recv {
            Ty::Array(elem, _) => Ok(*elem),
            Ty::Reference(inner, _) => match *inner {
                Ty::Array(elem, _) => Ok(*elem),
                _ => Err(TypeError::NotIndexable),
            },
            _ => Err(TypeError::NotIndexable),
        }
    }
}

/// Types an index expression.
pub fn infer_index_type(recv: Ty, index: &Ty) -> (r: Result<Ty, TypeError>)
    ensures
        r == index_type(recv, *index),
{
    if !ty_eq(index, &Ty::Usize) {
        return Err(TypeError::IndexNotUnsigned);
    }
    match recv {
        Ty::Array(elem, _) => Ok(*elem),
        Ty::Reference(inner, _) => match *inner {
            Ty::Array(elem, _) => Ok(*elem),
            _ => Err(TypeError::NotIndexable),
        },
        _ => Err(TypeError::NotIndexable),
    }
}

/// How many references stand above the value of type `t`.
pub open spec fn ref_depth(t: Ty) -> nat
    decreases t,
{
    match t {
        Ty::Reference(inner, _) => 1 + ref_depth(*inner),
        _ => 0,
    }
}

/// The type under all the references of `t`.
pub open spec fn base_type(t: Ty) -> Ty
    decreases t,
{
    match t {
        Ty::Reference(inner, _) => base_type(*inner),
        _ => t,
    }
}

/// Every reference in the chain on top of `t` is `&mut`.
pub open spec fn all_mut(t: Ty) -> bool
    decreases t,
{
    match t {
        Ty::Reference(inner, m) => m && all_mut(*inner),
        _ => true,
    }
}

proof fn lemma_depth_zero(t: Ty)
    ensures
        ref_depth(t) == 0 ==> all_mut(t) && !(t is Reference),
{
}

/// The struct a method call on a receiver of type `t` is looked up in,
/// with the receiver's shape for `adjust_receiver`; `None` when no struct
/// lies under the references. The value can be mutated through the
/// receiver when every reference on top is `&mut` and, for a bare value,
/// its binding is mutable.
pub fn method_receiver(t: &Ty, is_place: bool, binding_mutable: bool) -> (r: Option<(usize, Receiver)>)
    requires
        ref_depth(*t) <= usize::MAX,
    ensures
        r is Some <==> base_type(*t) is StructRef,
        r is Some ==> {
            &&& base_type(*t) == Ty::StructRef(r.unwrap().0)
            &&& r.unwrap().1.ref_depth == ref_depth(*t)
            &&& r.unwrap().1.is_place == is_place
            &&& r.unwrap().1.mutable == if ref_depth(*t) == 0 {
                binding_mutable
            } else {
                all_mut(*t)
            }
        },
    decreases t,
{
    match t {
        Ty::StructRef(id) => {
            proof {
                assert(ref_depth(*t) == 0);
                assert(base_type(*t) == *t);
            }
            Some((*id, Receiver { ref_depth: 0, is_place, mutable: binding_mutable }))
        },
        Ty::Reference(inner, m) => {
            proof {
                lemma_depth_zero(**inner);
            }
            match method_receiver(inner, is_place, binding_mutable) {
                None => None,
                Some((id, rcv)) => {
                    let below_mut = if rcv.ref_depth == 0 {
                        true
                    } else {
                        rcv.mutable
                    };
                    Some(
                        (
                            id,
                            Receiver {
                                ref_depth: rcv.ref_depth + 1,
                                is_place,
                                mutable: *m && below_mut,
                            },
                        ),
                    )
                },
            }
        },
        _ => None,
    }
}

} // verus!
