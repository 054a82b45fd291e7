use crate::lex::word_is;
use vstd::prelude::*;

verus! {

/// The runtime functions that lowered code calls as opaque instructions.
#[derive(Clone, Copy, Debug, PartialEq, Eq, Structural)]
pub enum Intrinsic {
    PrintInt,
    PrintlnInt,
    Print,
    GetInt,
    Exit,
}

/// The types that appear in the intrinsics' fixed signatures.
#[derive(Clone, Copy, Debug, PartialEq, Eq, Structural)]
pub enum ValueType {
    I32,
    Str,
    Unit,
    /// The call does not return.
    Never,
}

/// The intrinsic that a call by name `w` refers to, if any.
pub open spec fn intrinsic_named(w: Seq<u8>) -> Option<Intrinsic> {
    if w == seq![112, 114, 105, 110, 116, 73, 110, 116u8] {
        Some(Intrinsic::PrintInt)
    } else     if w == seq![112, 114, 105, 110, 116, 108, 110, 73, 110, 116u8] {
        Some(Intrinsic::PrintlnInt)
    } else     if w == seq![112, 114, 105, 110, 116u8] {
        Some(Intrinsic::Print)
    } else     if w == seq![103, 101, 116, 73, 110, 116u8] {
        Some(Intrinsic::GetInt)
    } else     if w == seq![101, 120, 105, 116u8] {
        Some(Intrinsic::Exit)
    } else {
        None
    }
}

pub open spec fn param_spec(i: Intrinsic) -> Option<ValueType> {
    match i {
        Intrinsic::PrintInt | Intrinsic::PrintlnInt | Intrinsic::Exit => Some(ValueType::I32),
        Intrinsic::Print => Some(ValueType::Str),
        Intrinsic::GetInt => None,
    }
}

pub open spec fn result_spec(i: Intrinsic) -> ValueType {
    match i {
        Intrinsic::GetInt => ValueType::I32,
        Intrinsic::Exit => ValueType::Never,
        _ => ValueType::Unit,
    }
}

/// The intrinsic named `name`, if it is one.
pub fn lookup_intrinsic(name: &Vec<u8>) -> (r: Option<Intrinsic>)
    ensures
        r == intrinsic_named(name@),
{
    let len = name.len();
    if word_is(name, 0, len, &[112, 114, 105, 110, 116, 73, 110, 116u8]) {
        proof {
            assert(name@.subrange(0, len as int) =~= name@);
        }
        Some(Intrinsic::PrintInt)
    } else     if word_is(name, 0, len, &[112, 114, 105, 110, 116, 108, 110, 73, 110, 116u8]) {
        proof {
            assert(name@.subrange(0, len as int) =~= name@);
        }
        Some(Intrinsic::PrintlnInt)
    } else     if word_is(name, 0, len, &[112, 114, 105, 110, 116u8]) {
        proof {
            assert(name@.subrange(0, len as int) =~= name@);
        }
        Some(Intrinsic::Print)
    } else     if word_is(name, 0, len, &[103, 101, 116, 73, 110, 116u8]) {
        proof {
            assert(name@.subrange(0, len as int) =~= name@);
        }
        Some(Intrinsic::GetInt)
    } else     if word_is(name, 0, len, &[101, 120, 105, 116u8]) {
        proof {
            assert(name@.subrange(0, len as int) =~= name@);
        }
        Some(Intrinsic::Exit)
    } else {
        proof {
            assert(name@.subrange(0, len as int) =~= name@);
        }
        None
    }
}

impl Intrinsic {
    /// The type of the single parameter, or `None` for a call without one.
    pub fn param(&self) -> (r: Option<ValueType>)
        ensures
            r == param_spec(*self),
    {
        match self {
            Intrinsic::PrintInt | Intrinsic::PrintlnInt | Intrinsic::Exit => Some(ValueType::I32),
            Intrinsic::Print => Some(ValueType::Str),
            Intrinsic::GetInt => None,
        }
    }

    /// The type of the result.
    pub fn result(&self) -> (r: ValueType)
        ensures
            r == result_spec(*self),
    {
        match self {
            Intrinsic::GetInt => ValueType::I32,
            Intrinsic::Exit => ValueType::Never,
            _ => ValueType::Unit,
        }
    }
}

} // verus!
