use vstd::prelude::*;

verus! {

pub const SEED_MUL: i32 = 1103;
pub const SEED_ADD: i32 = 4721;
pub const SEED_MOD: i32 = 1048583;
pub const ALPHABET: i32 = 26;

/// Remainder that takes the sign of the dividend, as `%` does on `i32`.
pub open spec fn trunc_rem(x: int, m: int) -> int {
    if x >= 0 { x % m } else { -((-x) % m) }
}

/// The seed after one step of the generator.
pub open spec fn next_seed(seed: int) -> int {
    let t = trunc_rem(seed * SEED_MUL + SEED_ADD, SEED_MOD as int);
    if t < 0 { -t } else { t }
}

/// The seed after `k` steps of the generator.
pub open spec fn nth_seed(seed: int, k: nat) -> int
    decreases k,
{
    if k == 0 { seed } else { next_seed(nth_seed(seed, (k - 1) as nat)) }
}

/// The first `n` symbols drawn from the generator started at `seed`.
pub open spec fn seeded(seed: int, n: nat) -> Seq<i32> {
    Seq::new(n, |k: int| trunc_rem(nth_seed(seed, (k + 1) as nat), ALPHABET as int) as i32)
}

/// The seed may be stepped without leaving `i32`.
pub open spec fn seed_steppable(seed: int) -> bool {
    i32::MIN <= seed * SEED_MUL && seed * SEED_MUL + SEED_ADD <= i32::MAX
}

/// Length of a longest common subsequence of `a` and `b`.
pub open spec fn lcs(a: Seq<i32>, b: Seq<i32>) -> int
    decreases a.len() + b.len(),
{
    if a.len() == 0 || b.len() == 0 {
        0
    } else if a.last() == b.last() {
        lcs(a.drop_last(), b.drop_last()) + 1
    } else {
        let x = lcs(a.drop_last(), b);
        let y = lcs(a, b.drop_last());
        if x > y { x } else { y }
    }
}

pub proof fn lemma_lcs_bounds(a: Seq<i32>, b: Seq<i32>)
    ensures
        0 <= lcs(a, b) <= a.len(),
        lcs(a, b) <= b.len(),
    decreases a.len() + b.len(),
{
    if a.len() != 0 && b.len() != 0 {
        lemma_lcs_bounds(a.drop_last(), b.drop_last());
        lemma_lcs_bounds(a.drop_last(), b);
        lemma_lcs_bounds(a, b.drop_last());
    }
}

pub open spec fn cell_index(width: int, i: int, j: int) -> int {
    i * width + j
}

proof fn lemma_cell_index_injective(w: int, i1: int, j1: int, i2: int, j2: int)
    requires
        0 <= j1 < w,
        0 <= j2 < w,
        0 <= i1,
        0 <= i2,
        cell_index(w, i1, j1) == cell_index(w, i2, j2),
    ensures
        i1 == i2,
        j1 == j2,
{
    if i1 < i2 {
        assert(i1 * w + w <= i2 * w) by (nonlinear_arith)
            requires
                i1 < i2,
                w > 0,
        ;
    } else if i2 < i1 {
        assert(i2 * w + w <= i1 * w) by (nonlinear_arith)
            requires
                i2 < i1,
                w > 0,
        ;
    }
}

proof fn lemma_cell_index_bound(w: int, n: int, i: int, j: int)
    requires
        0 <= i <= n,
        0 <= j < w,
    ensures
        0 <= cell_index(w, i, j) < (n + 1) * w,
{
    assert(0 <= i * w + j < (n + 1) * w) by (nonlinear_arith)
        requires
            0 <= i <= n,
            0 <= j < w,
    ;
}

/// Advances the generator's seed by one step.
pub fn update(seed: &mut i32)
    requires
        seed_steppable(*old(seed) as int),
    ensures
        *final(seed) == next_seed(*old(seed) as int),
        0 <= *final(seed) < SEED_MOD,
{
    *seed = (*seed * SEED_MUL + SEED_ADD) % SEED_MOD;
    if *seed < 0 {
        *seed = -*seed;
    }
}

proof fn lemma_seeds_stay_small(seed: int, k: nat)
    requires
        k >= 1,
    ensures
        0 <= nth_seed(seed, k) < SEED_MOD,
    decreases k,
{
    if k > 1 {
        lemma_seeds_stay_small(seed, (k - 1) as nat);
    }
}

/// Fills `out` with symbols drawn from the generator started at `seed`.
fn fill_seeded<const N: usize>(out: &mut [i32; N], seed: i32)
    requires
        seed_steppable(seed as int),
    ensures
        final(out)@ == seeded(seed as int, N as nat),
{
    let mut current_seed: i32 = seed;
    let mut i: usize = 0;
    while i < N
        invariant
            i <= N,
            out@.len() == N,
            current_seed == nth_seed(seed as int, i as nat),
            seed_steppable(current_seed as int),
            forall|k: int| 0 <= k < i ==> out@[k] == seeded(seed as int, N as nat)[k],
        decreases N - i,
    {
        update(&mut current_seed);
        out[i] = current_seed % ALPHABET;
        i += 1;
    }
    assert(out@ =~= seeded(seed as int, N as nat));
}

/// Fills both strings from the generator, the first started at `seed1` and
/// the second at `seed2`.
#[allow(non_snake_case)]
pub fn initializeStrings(str1: &mut [i32; 30], str2: &mut [i32; 25], seed1: i32, seed2: i32)
    requires
        seed_steppable(seed1 as int),
        seed_steppable(seed2 as int),
    ensures
        final(str1)@ == seeded(seed1 as int, 30),
        final(str2)@ == seeded(seed2 as int, 25),
{
    fill_seeded(str1, seed1);
    fill_seeded(str2, seed2);
}

/// Length of a longest common subsequence of `a` and `b`, computed over a
/// flat `(a.len() + 1) * (b.len() + 1)` table in row-major order.
pub fn lcs_length(a: &[i32], b: &[i32]) -> (r: i32)
    requires
        a@.len() < i32::MAX,
        (a@.len() + 1) * (b@.len() + 1) <= usize::MAX,
    ensures
        r == lcs(a@, b@),
{
    let n = a.len();
    let m = b.len();
    assert(m + 1 <= (n + 1) * (m + 1)) by (nonlinear_arith);
    let w = m + 1;
    let size = (n + 1) * w;
    let mut table: Vec<i32> = Vec::new();
    while table.len() < size
        invariant
            table@.len() <= size,
            forall|k: int| 0 <= k < table@.len() ==> table@[k] == 0,
        decreases size - table@.len(),
    {
        table.push(0);
    }
    proof {
        assert forall|j2: int| 0 <= j2 <= m implies table@[cell_index(w as int, 0, j2)] == lcs(
            a@.take(0),
            b@.take(j2),
        ) by {
            lemma_cell_index_bound(w as int, n as int, 0, j2);
        }
        assert forall|i2: int| 1 <= i2 <= n implies #[trigger] table@[cell_index(w as int, i2, 0)]
            == 0 by {
            lemma_cell_index_bound(w as int, n as int, i2, 0);
        }
    }
    let mut i: usize = 1;
    while i <= n
        invariant
            n == a@.len(),
            m == b@.len(),
            w == m + 1,
            size == (n + 1) * w,
            1 <= i <= n + 1,
            n < i32::MAX,
            table@.len() == size,
            forall|i2: int, j2: int|
                0 <= i2 < i && 0 <= j2 <= m ==> #[trigger] table@[cell_index(w as int, i2, j2)]
                    == lcs(a@.take(i2), b@.take(j2)),
            forall|i2: int| i <= i2 <= n ==> #[trigger] table@[cell_index(w as int, i2, 0)] == 0,
        decreases n + 1 - i,
    {
        proof {
            lemma_cell_index_bound(w as int, n as int, i as int, 0);
        }
        let mut j: usize = 1;
        while j <= m
            invariant
                n == a@.len(),
                m == b@.len(),
                w == m + 1,
                size == (n + 1) * w,
                1 <= i <= n,
                1 <= j <= m + 1,
                n < i32::MAX,
                table@.len() == size,
                forall|i2: int, j2: int|
                    0 <= i2 < i && 0 <= j2 <= m ==> #[trigger] table@[cell_index(w as int, i2, j2)]
                        == lcs(a@.take(i2), b@.take(j2)),
                forall|j2: int|
                    0 <= j2 < j ==> #[trigger] table@[cell_index(w as int, i as int, j2)] == lcs(
                        a@.take(i as int),
                        b@.take(j2),
                    ),
                forall|i2: int| i < i2 <= n ==> #[trigger] table@[cell_index(w as int, i2, 0)] == 0,
            decreases m + 1 - j,
        {
            proof {
                lemma_cell_index_bound(w as int, n as int, i as int, j as int);
                lemma_cell_index_bound(w as int, n as int, i - 1, j as int);
                lemma_cell_index_bound(w as int, n as int, i - 1, j - 1);
                lemma_cell_index_bound(w as int, n as int, i as int, j - 1);
            }
            let here = i * w + j;
            let ghost ai = a@.take(i as int);
            let ghost bj = b@.take(j as int);
            proof {
                assert(ai.drop_last() =~= a@.take(i - 1));
                assert(bj.drop_last() =~= b@.take(j - 1));
                assert(ai.last() == a@[i - 1]);
                assert(bj.last() == b@[j - 1]);
                lemma_lcs_bounds(a@.take(i - 1), b@.take(j - 1));
            }
            let v: i32 = if a[i - 1] == b[j - 1] {
                table[(i - 1) * w + (j - 1)] + 1
            } else {
                let option1: i32 = table[(i - 1) * w + j];
                let option2: i32 = table[i * w + (j - 1)];
                if option1 > option2 {
                    option1
                } else {
                    option2
                }
            };
            assert(v == lcs(ai, bj));
            let ghost old_table = table@;
            table.set(here, v);
            proof {
                assert forall|i2: int, j2: int|
                    0 <= i2 < i && 0 <= j2 <= m implies #[trigger] table@[cell_index(
                    w as int,
                    i2,
                    j2,
                )] == lcs(a@.take(i2), b@.take(j2)) by {
                    lemma_cell_index_bound(w as int, n as int, i2, j2);
                    if cell_index(w as int, i2, j2) == here {
                        lemma_cell_index_injective(w as int, i2, j2, i as int, j as int);
                    }
                    assert(old_table[cell_index(w as int, i2, j2)] == lcs(a@.take(i2), b@.take(j2)));
                }
                assert forall|j2: int| 0 <= j2 < j + 1 implies #[trigger] table@[cell_index(
                    w as int,
                    i as int,
                    j2,
                )] == lcs(a@.take(i as int), b@.take(j2)) by {
                    lemma_cell_index_bound(w as int, n as int, i as int, j2);
                    if j2 < j {
                        if cell_index(w as int, i as int, j2) == here {
                            lemma_cell_index_injective(w as int, i as int, j2, i as int, j as int);
                        }
                        assert(old_table[cell_index(w as int, i as int, j2)] == lcs(
                            a@.take(i as int),
                            b@.take(j2),
                        ));
                    }
                }
                assert forall|i2: int| i < i2 <= n implies #[trigger] table@[cell_index(
                    w as int,
                    i2,
                    0,
                )] == 0 by {
                    lemma_cell_index_bound(w as int, n as int, i2, 0);
                    if cell_index(w as int, i2, 0) == here {
                        lemma_cell_index_injective(w as int, i2, 0, i as int, j as int);
                    }
                    assert(old_table[cell_index(w as int, i2, 0)] == 0);
                }
            }
            j += 1;
        }
        i += 1;
    }
    proof {
        lemma_cell_index_bound(w as int, n as int, n as int, m as int);
        assert(a@.take(n as int) =~= a@);
        assert(b@.take(m as int) =~= b@);
        assert(table@[cell_index(w as int, n as int, m as int)] == lcs(a@, b@));
    }
    table[n * w + m]
}

/// Length of a longest common subsequence of the two generated strings,
/// of lengths 30 and 25, drawn from the seeds 17 and 23.
#[allow(non_snake_case)]
pub fn longestCommonSubsequence() -> (r: i32)
    ensures
        r == lcs(seeded(17, 30), seeded(23, 25)),
{
    let mut string1: [i32; 30] = [0; 30];
    let mut string2: [i32; 25] = [0; 25];
    initializeStrings(&mut string1, &mut string2, 17, 23);
    assert((30 + 1) * (25 + 1) <= usize::MAX) by (nonlinear_arith);
    lcs_length(&string1, &string2)
}

} // verus!
