use vstd::prelude::*;

verus! {

/// How a method takes its receiver.
#[derive(Clone, Copy, Debug, PartialEq, Eq, Structural)]
pub enum ReceiverKind {
    /// `self`
    ByValue,
    /// `&self`
    Shared,
    /// `&mut self`
    Mutable,
}

/// The receiver expression at a call site: how many references stand
/// above the struct value (`T` is 0, `&T` is 1, `&&T` is 2, ...), whether
/// a bare value is an addressable place, and whether the value can be
/// mutated through it (a `mut` binding, or a `&mut` reference on top).
#[derive(Clone, Copy, Debug, PartialEq, Eq, Structural)]
pub struct Receiver {
    pub ref_depth: usize,
    pub is_place: bool,
    pub mutable: bool,
}

/// What the analyzer inserts before the call: `derefs` dereferences, then
/// a reference of the required mutability when `auto_ref` is set.
#[derive(Clone, Copy, Debug, PartialEq, Eq, Structural)]
pub struct Adjustment {
    pub derefs: usize,
    pub auto_ref: bool,
}

/// Why a receiver does not fit the method.
#[derive(Clone, Copy, Debug, PartialEq, Eq, Structural)]
pub enum MethodError {
    /// A reference is needed, but the receiver is a value with no storage.
    NotAPlace,
    /// `&mut self` on a receiver that cannot be mutated.
    NotMutable,
}

/// The reference depth that a method of kind `kind` expects.
pub open spec fn expected_depth(kind: ReceiverKind) -> int {
    match kind {
        ReceiverKind::ByValue => 0,
        _ => 1,
    }
}

/// The reference depth left after applying `adj` to a receiver at `depth`.
pub open spec fn adjusted_depth(depth: int, adj: Adjustment) -> int {
    depth - adj.derefs + if adj.auto_ref { 1int } else { 0int }
}

pub open spec fn adjust_spec(recv: Receiver, kind: ReceiverKind) -> Result<Adjustment, MethodError> {
    match kind {
        ReceiverKind::ByValue => Ok(Adjustment { derefs: recv.ref_depth, auto_ref: false }),
        _ => {
            if kind == ReceiverKind::Mutable && !recv.mutable {
                Err(MethodError::NotMutable)
            } else if recv.ref_depth == 0 {
                if recv.is_place {
                    Ok(Adjustment { derefs: 0, auto_ref: true })
                } else {
                    Err(MethodError::NotAPlace)
                }
            } else {
                Ok(Adjustment { derefs: (recv.ref_depth - 1) as usize, auto_ref: false })
            }
        },
    }
}

/// The dereferences and the reference to insert so that `recv` matches a
/// method of kind `kind`.
pub fn adjust_receiver(recv: Receiver, kind: ReceiverKind) -> (r: Result<Adjustment, MethodError>)
    ensures
        r == adjust_spec(recv, kind),
        r is Ok ==> adjusted_depth(recv.ref_depth as int, r.unwrap()) == expected_depth(kind),
        r is Ok ==> r.unwrap().derefs <= recv.ref_depth,
{
    match kind {
        ReceiverKind::ByValue => Ok(Adjustment { derefs: recv.ref_depth, auto_ref: false }),
        _ => {
            if kind == ReceiverKind::Mutable && !recv.mutable {
                Err(MethodError::NotMutable)
            } else if recv.ref_depth == 0 {
                if recv.is_place {
                    Ok(Adjustment { derefs: 0, auto_ref: true })
                } else {
                    Err(MethodError::NotAPlace)
                }
            } else {
                Ok(Adjustment { derefs: recv.ref_depth - 1, auto_ref: false })
            }
        },
    }
}

/// Auto-deref equivalence: a `&self` method reached through a reference
/// chain of any depth to a value, or through the value itself when it is a
/// place, is always resolved, and in every case receives one reference to
/// that same value.
pub proof fn lemma_shared_receiver_equivalence(owner: Receiver, via_ref: Receiver)
    requires
        owner.ref_depth == 0,
        owner.is_place,
        via_ref.ref_depth >= 1,
    ensures
        adjust_spec(owner, ReceiverKind::Shared) is Ok,
        adjust_spec(via_ref, ReceiverKind::Shared) is Ok,
        adjusted_depth(0, adjust_spec(owner, ReceiverKind::Shared).unwrap()) == 1,
        adjusted_depth(
            via_ref.ref_depth as int,
            adjust_spec(via_ref, ReceiverKind::Shared).unwrap(),
        ) == 1,
{
}

} // verus!
