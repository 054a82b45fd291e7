use crate::scope::bytes_equal;
use vstd::prelude::*;

verus! {

/// Why a struct literal does not fit its struct's declaration.
#[derive(Clone, Copy, Debug, PartialEq, Eq, Structural)]
pub enum LiteralError {
    /// The literal's field `at` names no declared field.
    UnknownField { at: usize },
    /// The literal's field `at` repeats an earlier one.
    DuplicateField { at: usize },
    /// Declared field `field` is not initialized.
    MissingField { field: usize },
}

pub open spec fn views(names: Seq<Vec<u8>>) -> Seq<Seq<u8>> {
    names.map_values(|v: Vec<u8>| v@)
}

/// The first index at or after `i` where `w` stands in `names`, or -1.
pub open spec fn position_from(names: Seq<Seq<u8>>, w: Seq<u8>, i: int) -> int
    decreases names.len() - i,
{
    if i < 0 || i >= names.len() {
        -1
    } else if names[i] == w {
        i
    } else {
        position_from(names, w, i + 1)
    }
}

pub open spec fn position(names: Seq<Seq<u8>>, w: Seq<u8>) -> int {
    position_from(names, w, 0)
}

/// For each declared field, where the literal initializes it; or the
/// first declared field from `j` on that it leaves out.
pub open spec fn check_missing(declared: Seq<Seq<u8>>, given: Seq<Seq<u8>>, j: int) -> Result<
    Seq<usize>,
    LiteralError,
>
    decreases declared.len() - j,
{
    if j < 0 || j >= declared.len() {
        Ok(Seq::new(declared.len(), |t: int| position(given, declared[t]) as usize))
    } else if position(given, declared[j]) < 0 {
        Err(LiteralError::MissingField { field: j as usize })
    } else {
        check_missing(declared, given, j + 1)
    }
}

/// Checks the literal's fields from `k` on, in order, then the declared
/// fields that it must cover.
pub open spec fn check_literal(declared: Seq<Seq<u8>>, given: Seq<Seq<u8>>, k: int) -> Result<
    Seq<usize>,
    LiteralError,
>
    decreases given.len() - k,
{
    if k < 0 || k >= given.len() {
        check_missing(declared, given, 0)
    } else if position(declared, given[k]) < 0 {
        Err(LiteralError::UnknownField { at: k as usize })
    } else if position(given, given[k]) < k {
        Err(LiteralError::DuplicateField { at: k as usize })
    } else {
        check_literal(declared, given, k + 1)
    }
}

pub open spec fn result_view(r: Result<Vec<usize>, LiteralError>) -> Result<Seq<usize>, LiteralError> {
    match r {
        Ok(v) => Ok(v@),
        Err(e) => Err(e),
    }
}

proof fn lemma_position_bounds(names: Seq<Seq<u8>>, w: Seq<u8>, i: int)
    requires
        0 <= i,
    ensures
        -1 <= position_from(names, w, i) < names.len(),
        position_from(names, w, i) >= 0 ==> position_from(names, w, i) >= i && names[position_from(
            names,
            w,
            i,
        )] == w,
    decreases names.len() - i,
{
    if i < names.len() && names[i] != w {
        lemma_position_bounds(names, w, i + 1);
    }
}

proof fn lemma_position_at_most(names: Seq<Seq<u8>>, w: Seq<u8>, i: int, k: int)
    requires
        0 <= i <= k < names.len(),
        names[k] == w,
    ensures
        i <= position_from(names, w, i) <= k,
    decreases k - i,
{
    if i < k && names[i] != w {
        lemma_position_at_most(names, w, i + 1, k);
    }
}

/// Where `w` first stands in `names`.
fn position_exec(names: &Vec<Vec<u8>>, w: &Vec<u8>) -> (r: Option<usize>)
    ensures
        r is None ==> position(views(names@), w@) == -1,
        r is Some ==> position(views(names@), w@) == r.unwrap() as int,
{
    let ghost nv = views(names@);
    let mut i: usize = 0;
    while i < names.len()
        invariant
            i <= names@.len(),
            nv == views(names@),
            position(nv, w@) == position_from(nv, w@, i as int),
        decreases names@.len() - i,
    {
        if bytes_equal(&names[i], w) {
            return Some(i);
        }
        i = i + 1;
    }
    None
}

/// Matches the fields of a struct literal against the struct's declared
/// fields: each given name must be declared and appear once, and each
/// declared field must be given, in any order. On success the result
/// says, for each declared field in order, which given field holds it.
pub fn match_struct_literal(declared: &Vec<Vec<u8>>, given: &Vec<Vec<u8>>) -> (r: Result<
    Vec<usize>,
    LiteralError,
>)
    ensures
        result_view(r) == check_literal(views(declared@), views(given@), 0),
{
    let ghost dv = views(declared@);
    let ghost gv = views(given@);
    let mut k: usize = 0;
    while k < given.len()
        invariant
            k <= given@.len(),
            dv == views(declared@),
            gv == views(given@),
            check_literal(dv, gv, 0) == check_literal(dv, gv, k as int),
        decreases given@.len() - k,
    {
        proof {
            assert(gv[k as int] == given@[k as int]@);
            lemma_position_at_most(gv, gv[k as int], 0, k as int);
        }
        match position_exec(declared, &given[k]) {
            None => {
                return Err(LiteralError::UnknownField { at: k });
            },
            Some(_) => {},
        }
        match position_exec(given, &given[k]) {
            Some(p) => {
                if p < k {
                    return Err(LiteralError::DuplicateField { at: k });
                }
            },
            None => {},
        }
        k = k + 1;
    }
    let mut out: Vec<usize> = Vec::new();
    let mut j: usize = 0;
    while j < declared.len()
        invariant
            j <= declared@.len(),
            dv == views(declared@),
            gv == views(given@),
            check_literal(dv, gv, 0) == check_missing(dv, gv, j as int),
            out@.len() == j,
            forall|t: int| 0 <= t < j ==> out@[t] == position(gv, dv[t]) as usize,
        decreases declared@.len() - j,
    {
        proof {
            assert(dv[j as int] == declared@[j as int]@);
        }
        match position_exec(given, &declared[j]) {
            None => {
                return Err(LiteralError::MissingField { field: j });
            },
            Some(p) => {
                out.push(p);
            },
        }
        j = j + 1;
    }
    assert(out@ =~= Seq::new(dv.len(), |t: int| position(gv, dv[t]) as usize));
    Ok(out)
}

/// A literal that passes the check gives every declared field exactly
/// once: each declared field is found among the given ones, under its own
/// name.
pub proof fn lemma_accepted_literal_covers_fields(declared: Seq<Seq<u8>>, given: Seq<Seq<u8>>, j: int)
    requires
        check_literal(declared, given, 0) is Ok,
        0 <= j < declared.len(),
    ensures
        0 <= position(given, declared[j]) < given.len(),
        given[position(given, declared[j])] == declared[j],
{
    lemma_literal_reaches_missing(declared, given, 0);
    lemma_missing_covers(declared, given, 0, j);
    lemma_position_bounds(given, declared[j], 0);
}

proof fn lemma_literal_reaches_missing(declared: Seq<Seq<u8>>, given: Seq<Seq<u8>>, k: int)
    requires
        0 <= k,
        check_literal(declared, given, k) is Ok,
    ensures
        check_missing(declared, given, 0) is Ok,
    decreases given.len() - k,
{
    if k < given.len() {
        lemma_literal_reaches_missing(declared, given, k + 1);
    }
}

proof fn lemma_missing_covers(declared: Seq<Seq<u8>>, given: Seq<Seq<u8>>, i: int, j: int)
    requires
        0 <= i <= j < declared.len(),
        check_missing(declared, given, i) is Ok,
    ensures
        position(given, declared[j]) >= 0,
    decreases j - i,
{
    if i < j {
        lemma_missing_covers(declared, given, i + 1, j);
    }
}

} // verus!
