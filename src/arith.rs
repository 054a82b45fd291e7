use vstd::prelude::*;

verus! {

/// Quotient rounded toward zero, as `/` does on `i32`.
pub open spec fn trunc_div(x: int, m: int) -> int {
    if x >= 0 { x / m } else { -((-x) / m) }
}

pub open spec fn mix_spec(a: int, b: int, c: int, d: int) -> int {
    (a + b * c) + (a - d) * (c + 1) - (trunc_div(d, 2) - b)
}

/// `a + b * c`, plus `(a - d) * (c + 1)`, minus `d / 2 - b`.
pub fn mix(a: i32, b: i32, c: i32, d: i32) -> (r: i32)
    requires
        i32::MIN <= b * c <= i32::MAX,
        i32::MIN <= a + b * c <= i32::MAX,
        i32::MIN <= a - d <= i32::MAX,
        i32::MIN <= c + 1 <= i32::MAX,
        i32::MIN <= (a - d) * (c + 1) <= i32::MAX,
        i32::MIN <= trunc_div(d as int, 2) - b <= i32::MAX,
        i32::MIN <= (a + b * c) + (a - d) * (c + 1) <= i32::MAX,
        i32::MIN <= mix_spec(a as int, b as int, c as int, d as int) <= i32::MAX,
    ensures
        r == mix_spec(a as int, b as int, c as int, d as int),
{
    let left: i32 = a + b * c;
    let right: i32 = (a - d) * (c + 1);
    let tail: i32 = d / 2 - b;
    left + right - tail
}

pub open spec fn fact(n: int) -> int
    decreases n,
{
    if n <= 1 { 1 } else { n * fact(n - 1) }
}

/// The largest `n` whose factorial fits in `i32`.
pub const FACT_MAX_ARG: i32 = 12;

proof fn lemma_fact_fits(n: int)
    requires
        n <= FACT_MAX_ARG,
    ensures
        1 <= fact(n) <= fact(FACT_MAX_ARG as int),
        fact(FACT_MAX_ARG as int) == 479001600,
    decreases n,
{
    reveal_with_fuel(fact, 13);
    if n > 1 {
        lemma_fact_fits(n - 1);
        assert(fact(n) == n * fact(n - 1));
        assert(1 <= n * fact(n - 1)) by (nonlinear_arith)
            requires
                n > 1,
                fact(n - 1) >= 1,
        ;
        lemma_fact_increasing(n, FACT_MAX_ARG as int);
    }
}

proof fn lemma_fact_increasing(n: int, m: int)
    requires
        n <= m,
    ensures
        fact(n) <= fact(m),
    decreases m - n,
{
    if n < m {
        lemma_fact_increasing(n, m - 1);
        lemma_fact_positive(m - 1);
        if m > 1 {
            assert(fact(m - 1) <= m * fact(m - 1)) by (nonlinear_arith)
                requires
                    m > 1,
                    fact(m - 1) >= 1,
            ;
        }
    }
}

proof fn lemma_fact_positive(n: int)
    ensures
        fact(n) >= 1,
    decreases n,
{
    if n > 1 {
        lemma_fact_positive(n - 1);
        assert(n * fact(n - 1) >= 1) by (nonlinear_arith)
            requires
                n > 1,
                fact(n - 1) >= 1,
        ;
    }
}

/// `n!`, with every `n <= 1` giving 1.
pub fn factorial(n: i32) -> (r: i32)
    requires
        n <= FACT_MAX_ARG,
    ensures
        r == fact(n as int),
    decreases n,
{
    if n <= 1 {
        1
    } else {
        proof {
            lemma_fact_fits(n as int);
        }
        n * factorial(n - 1)
    }
}

/// `1! + 2! + ... + n!`.
pub open spec fn fact_sum(n: int) -> int
    decreases n,
{
    if n <= 0 { 0 } else { fact_sum(n - 1) + fact(n) }
}

proof fn lemma_fact_sum_fits(n: int)
    requires
        n <= FACT_MAX_ARG,
    ensures
        0 <= fact_sum(n) <= 522956313,
{
    reveal_with_fuel(fact_sum, 13);
    reveal_with_fuel(fact, 13);
    if n > 0 {
        assert(fact_sum(FACT_MAX_ARG as int) == 522956313);
        lemma_fact_sum_increasing(n, FACT_MAX_ARG as int);
    }
}

proof fn lemma_fact_sum_increasing(n: int, m: int)
    requires
        n <= m,
    ensures
        fact_sum(n) <= fact_sum(m),
        n >= 0 ==> fact_sum(n) >= 0,
    decreases m - n,
{
    if n < m {
        lemma_fact_sum_increasing(n, m - 1);
        lemma_fact_positive(m);
    }
    if n >= 0 {
        lemma_fact_sum_nonneg(n);
    }
}

proof fn lemma_fact_sum_nonneg(n: int)
    ensures
        fact_sum(n) >= 0,
    decreases n,
{
    if n > 0 {
        lemma_fact_sum_nonneg(n - 1);
        lemma_fact_positive(n);
    }
}

/// The sum of the factorials of `1..=n`.
pub fn factorial_sum(n: i32) -> (r: i32)
    requires
        n <= FACT_MAX_ARG,
    ensures
        r == fact_sum(n as int),
{
    let mut total: i32 = 0;
    let mut i: i32 = 1;
    loop
        invariant
            1 <= i,
            i <= n + 1 || i == 1,
            n <= FACT_MAX_ARG,
            total == fact_sum(i - 1),
        ensures
            total == fact_sum(n as int),
        decreases n + 1 - i,
    {
        if i > n {
            break;
        }
        proof {
            lemma_fact_sum_fits(i as int);
        }
        total = total + factorial(i);
        i = i + 1;
    }
    total
}

/// `|v|`.
pub fn abs(v: i32) -> (r: i32)
    requires
        v != i32::MIN,
    ensures
        r == abs_spec(v as int),
        r >= 0,
{
    if v < 0 {
        -v
    } else {
        v
    }
}

/// Greatest common divisor by repeated subtraction; one zero argument
/// gives the other.
pub open spec fn gcd_spec(x: nat, y: nat) -> nat
    decreases x + y,
{
    if x == 0 {
        y
    } else if y == 0 {
        x
    } else if x > y {
        gcd_spec((x - y) as nat, y)
    } else {
        gcd_spec(x, (y - x) as nat)
    }
}

/// Greatest common divisor of `|a|` and `|b|` by repeated subtraction.
/// The subtraction never ends when `a` is zero and `b` is not, so that
/// input is left out.
pub fn gcd(a: i32, b: i32) -> (r: i32)
    requires
        a != i32::MIN,
        b != i32::MIN,
        a != 0 || b == 0,
    ensures
        r == gcd_spec(abs_spec(a as int), abs_spec(b as int)),
{
    let mut x: i32 = abs(a);
    let mut y: i32 = abs(b);
    loop
        invariant
            x >= 0,
            y >= 0,
            x > 0 || y == 0,
            gcd_spec(x as nat, y as nat) == gcd_spec(abs_spec(a as int), abs_spec(b as int)),
        ensures
            x == gcd_spec(abs_spec(a as int), abs_spec(b as int)),
        decreases x + y,
    {
        if y == 0 {
            break;
        }
        if x > y {
            x = x - y;
        } else {
            y = y - x;
        }
    }
    x
}

pub open spec fn abs_spec(v: int) -> nat {
    if v < 0 { (-v) as nat } else { v as nat }
}

/// The running total of two additions, the second after its variable was
/// declared again with the new value.
pub fn shadowing_total(first: i32, second: i32) -> (total: i32)
    requires
        i32::MIN <= first + second <= i32::MAX,
    ensures
        total == first + second,
{
    let mut x: i32 = first;
    let mut total: i32 = 0;
    total += x;
    let mut x: i32 = second;
    total += x;
    total
}

/// What one `(outer, inner)` pair adds: their distance when `outer` is the
/// larger, their sum otherwise.
pub open spec fn grid_term(outer: int, inner: int) -> int {
    if outer > inner { outer - inner } else { outer + inner }
}

/// The terms of `outer` with every `inner` in `1..k`.
pub open spec fn row_sum(outer: int, k: int) -> int
    decreases k,
{
    if k <= 1 { 0 } else { row_sum(outer, k - 1) + grid_term(outer, k - 1) }
}

/// The terms of every `outer` in `0..n` with every `inner` in `1..m`.
pub open spec fn grid_sum(n: int, m: int) -> int
    decreases n,
{
    if n <= 0 { 0 } else { grid_sum(n - 1, m) + row_sum(n - 1, m) }
}

proof fn lemma_row_sum_nonneg(outer: int, k: int)
    requires
        0 <= outer,
    ensures
        0 <= row_sum(outer, k),
    decreases k,
{
    if k > 1 {
        lemma_row_sum_nonneg(outer, k - 1);
    }
}

proof fn lemma_row_sum_increasing(outer: int, k: int, m: int)
    requires
        0 <= outer,
        k <= m,
    ensures
        row_sum(outer, k) <= row_sum(outer, m),
    decreases m - k,
{
    if k < m {
        lemma_row_sum_increasing(outer, k, m - 1);
    }
}

proof fn lemma_grid_sum_increasing(n1: int, n2: int, m: int)
    requires
        0 <= n1 <= n2,
    ensures
        0 <= grid_sum(n1, m) <= grid_sum(n2, m),
    decreases n2,
{
    if n2 > n1 {
        lemma_grid_sum_increasing(n1, n2 - 1, m);
        lemma_row_sum_nonneg(n2 - 1, m);
    } else if n1 > 0 {
        lemma_grid_sum_increasing(0, n1 - 1, m);
        lemma_grid_sum_increasing(n1 - 1, n1 - 1, m);
        lemma_row_sum_nonneg(n1 - 1, m);
    }
}

/// Runs `outer` over `0..outer_end` and, for each, `inner` over
/// `0..inner_end`, skipping `inner == 0`; adds `outer - inner` when
/// `outer > inner` and `outer + inner` otherwise.
pub fn nested_accumulate(outer_end: i32, inner_end: i32) -> (acc: i32)
    requires
        grid_sum(outer_end as int, inner_end as int) <= i32::MAX,
    ensures
        acc == grid_sum(outer_end as int, inner_end as int),
{
    let mut outer: i32 = 0;
    let mut acc: i32 = 0;
    loop
        invariant
            0 <= outer,
            outer <= outer_end || outer == 0,
            grid_sum(outer_end as int, inner_end as int) <= i32::MAX,
            acc == grid_sum(outer as int, inner_end as int),
        ensures
            acc == grid_sum(outer_end as int, inner_end as int),
        decreases outer_end - outer,
    {
        if outer >= outer_end {
            break;
        }
        proof {
            lemma_grid_sum_increasing(outer + 1, outer_end as int, inner_end as int);
            lemma_grid_sum_increasing(outer as int, outer as int, inner_end as int);
        }
        let mut inner: i32 = 0;
        loop
            invariant
                0 <= outer < outer_end,
                0 <= inner,
                inner <= inner_end || inner == 0,
                acc == grid_sum(outer as int, inner_end as int) + row_sum(outer as int, inner as int),
                grid_sum(outer as int + 1, inner_end as int) <= i32::MAX,
                0 <= grid_sum(outer as int, inner_end as int),
            ensures
                acc == grid_sum(outer as int + 1, inner_end as int),
            decreases inner_end - inner,
        {
            if inner >= inner_end {
                break;
            }
            if inner == 0 {
                inner = inner + 1;
                continue;
            }
            proof {
                lemma_row_sum_increasing(outer as int, inner + 1, inner_end as int);
                lemma_row_sum_nonneg(outer as int, inner as int);
            }
            if outer > inner {
                acc = acc + (outer - inner);
            } else {
                acc = acc + (outer + inner);
            }
            inner = inner + 1;
        }
        outer = outer + 1;
    }
    acc
}

/// `gcd(first, second) + gcd(second, third)`.
pub fn gcd_chain(first: i32, second: i32, third: i32) -> (r: i32)
    requires
        first != i32::MIN,
        second != i32::MIN,
        third != i32::MIN,
        first != 0 || second == 0,
        second != 0 || third == 0,
        gcd_spec(abs_spec(first as int), abs_spec(second as int)) + gcd_spec(
            abs_spec(second as int),
            abs_spec(third as int),
        ) <= i32::MAX,
    ensures
        r == gcd_spec(abs_spec(first as int), abs_spec(second as int)) + gcd_spec(
            abs_spec(second as int),
            abs_spec(third as int),
        ),
{
    gcd(first, second) + gcd(second, third)
}

/// What step `i` of the control-flow loop adds: `base = 4 * i - 1`, plus
/// one for even `i` and minus one for odd `i`.
pub open spec fn flow_term(i: int) -> int {
    let base = i * 3 + (i - 1);
    if i % 2 == 0 { base + 1 } else { base - 1 }
}

/// The terms of every `i` in `0..=last` but 2.
pub open spec fn flow_total(last: int) -> int
    decreases last + 1,
{
    if last < 0 {
        0
    } else if last == 2 {
        flow_total(last - 1)
    } else {
        flow_total(last - 1) + flow_term(last)
    }
}

proof fn lemma_flow_total_increasing(a: int, b: int)
    requires
        a <= b,
    ensures
        flow_total(a) <= flow_total(b),
        0 <= flow_total(b),
    decreases b + 1,
{
    if b >= 0 {
        if a < b {
            lemma_flow_total_increasing(a, b - 1);
        } else {
            lemma_flow_total_increasing(b - 1, b - 1);
        }
    }
}

/// Adds, into a running total, the term of every `i` in `0..=last` but 2.
pub fn control_flow_total(last: i32) -> (total: i32)
    requires
        flow_total(last as int) <= i32::MAX,
    ensures
        total == flow_total(last as int),
{
    let mut acc = crate::records::Sum { total: 0 };
    let mut i: i32 = 0;
    loop
        invariant
            0 <= i,
            i <= last + 1 || i == 0,
            flow_total(last as int) <= i32::MAX,
            acc.total == flow_total(i - 1),
        ensures
            acc.total == flow_total(last as int),
        decreases last + 1 - i,
    {
        if i > last {
            break;
        }
        if i == 2 {
            i = i + 1;
            continue;
        }
        proof {
            lemma_flow_total_increasing(i as int, last as int);
            lemma_flow_total_increasing(i - 1, i - 1);
            assert(flow_total(i as int) == flow_total(i - 1) + flow_term(i as int));
            assert(flow_term(i as int) >= 4 * i - 2);
            assert(4 * i - 1 <= i32::MAX);
        }
        let base: i32 = i * 3 + (i - 1);
        let even_mask: i32 = i - (i / 2) * 2;
        let term: i32 = if even_mask == 0 {
            base + 1
        } else {
            base - 1
        };
        acc.add(term);
        i = i + 1;
    }
    acc.total
}

} // verus!
