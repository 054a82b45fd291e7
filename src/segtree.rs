use vstd::prelude::*;

verus! {

/// Capacity of the node arena; slot 0 stands for "no node".
pub const MAXSEG: usize = 32;

/// Node bounds stay below this, so that `l + r` and `mid + 1 + r` fit in `i32`.
pub const SPAN_LIMIT: i32 = 0x4000_0000;

/// A count of some food type; the better of two has the higher count, and
/// on equal counts the lower type.
#[derive(Clone, Copy, Debug, PartialEq, Eq, Structural)]
pub struct Food {
    pub cnt: i32,
    pub ty: i32,
}

/// A node of the arena: the interval `l..=r` it covers, the handles of its
/// children (0 when absent) and the best food of its interval.
#[derive(Clone, Copy, Debug, PartialEq, Eq, Structural)]
pub struct SegT {
    pub l: i32,
    pub r: i32,
    pub lc: usize,
    pub rc: usize,
    pub val: Food,
}

pub open spec fn better_spec(a: Food, b: Food) -> Food {
    if a.cnt == b.cnt {
        if a.ty < b.ty { a } else { b }
    } else if a.cnt > b.cnt {
        a
    } else {
        b
    }
}

impl Food {
    /// The better of `self` and `other`.
    pub fn better(self, other: Food) -> (r: Food)
        ensures
            r == better_spec(self, other),
            r == self || r == other,
            self.cnt > other.cnt ==> r == self,
            self.cnt < other.cnt ==> r == other,
            self.cnt == other.cnt && self.ty < other.ty ==> r == self,
            self.cnt == other.cnt && other.ty < self.ty ==> r == other,
    {
        if self.cnt == other.cnt {
            if self.ty < other.ty {
                self
            } else {
                other
            }
        } else if self.cnt > other.cnt {
            self
        } else {
            other
        }
    }
}

/// The midpoint at which the interval `l..=r` splits.
pub open spec fn mid_of(l: i32, r: i32) -> int {
    (l + r) / 2
}

pub open spec fn span(pool: Seq<SegT>, k: int) -> int {
    pool[k].r - pool[k].l
}

/// Node `k` covers a valid interval, and each present child covers the
/// matching half of it.
pub open spec fn node_ok(pool: Seq<SegT>, cnt: int, k: int) -> bool {
    let nd = pool[k];
    &&& 0 <= nd.l <= nd.r < SPAN_LIMIT
    &&& nd.lc <= cnt
    &&& nd.rc <= cnt
    &&& nd.lc != 0 ==> nd.l < nd.r && pool[nd.lc as int].l == nd.l && pool[nd.lc as int].r
        == mid_of(nd.l, nd.r)
    &&& nd.rc != 0 ==> nd.l < nd.r && pool[nd.rc as int].l == mid_of(nd.l, nd.r) + 1
        && pool[nd.rc as int].r == nd.r
}

/// The arena holds `cnt` live nodes at handles `1..=cnt`, each well formed.
pub open spec fn pool_wf(pool: Seq<SegT>, cnt: int) -> bool {
    &&& pool.len() == MAXSEG
    &&& 0 <= cnt < MAXSEG
    &&& forall|k: int| 1 <= k <= cnt ==> #[trigger] node_ok(pool, cnt, k)
}

/// The value of node `k` merged from its present children, starting from
/// an empty food.
pub open spec fn merged(pool: Seq<SegT>, k: int) -> Food {
    let nd = pool[k];
    let b0 = Food { cnt: 0, ty: 0 };
    let b1 = if nd.lc != 0 { better_spec(pool[nd.lc as int].val, b0) } else { b0 };
    if nd.rc != 0 { better_spec(pool[nd.rc as int].val, b1) } else { b1 }
}

/// Allocates the next node of the arena for `l..=r`, with no children and
/// value `val`, and returns its handle.
pub fn new_segt(pool: &mut [SegT; MAXSEG], seg_cnt: &mut usize, l: i32, r: i32, val: Food) -> (h: usize)
    requires
        *old(seg_cnt) + 1 < MAXSEG,
    ensures
        *final(seg_cnt) == *old(seg_cnt) + 1,
        h == *final(seg_cnt),
        final(pool)@ == old(pool)@.update(h as int, SegT { l, r, lc: 0, rc: 0, val }),
{
    *seg_cnt += 1;
    pool[*seg_cnt] = SegT { l: l, r: r, lc: 0, rc: 0, val: val };
    *seg_cnt
}

/// The value a fresh node for `l..=r` starts with.
pub open spec fn fresh_val(l: i32, r: i32) -> Food {
    if l == r { Food { cnt: 0, ty: l } } else { Food { cnt: 0, ty: 0 } }
}

/// Allocates a fresh node for `l..=r`: a leaf names its own position as
/// type, an inner node starts empty.
pub fn build(pool: &mut [SegT; MAXSEG], seg_cnt: &mut usize, l: i32, r: i32) -> (h: usize)
    requires
        *old(seg_cnt) + 1 < MAXSEG,
    ensures
        *final(seg_cnt) == *old(seg_cnt) + 1,
        h == *final(seg_cnt),
        final(pool)@ == old(pool)@.update(h as int, SegT { l, r, lc: 0, rc: 0, val: fresh_val(l, r) }),
{
    if l == r {
        return new_segt(pool, seg_cnt, l, r, Food { cnt: 0, ty: l });
    }
    new_segt(pool, seg_cnt, l, r, Food { cnt: 0, ty: 0 })
}

impl SegT {
    /// The value of the left child.
    pub fn lc_val(&self, pool: &[SegT; MAXSEG]) -> (r: Food)
        requires
            self.lc < MAXSEG,
        ensures
            r == pool@[self.lc as int].val,
    {
        pool[self.lc].val
    }

    /// The value of the right child.
    pub fn rc_val(&self, pool: &[SegT; MAXSEG]) -> (r: Food)
        requires
            self.rc < MAXSEG,
        ensures
            r == pool@[self.rc as int].val,
    {
        pool[self.rc].val
    }
}

/// Nodes `1..=cnt` of `post` keep the interval of `pre`, and every child
/// present in `pre` is still there.
pub open spec fn shape_kept(pre: Seq<SegT>, post: Seq<SegT>, cnt: int) -> bool {
    forall|k: int|
        1 <= k <= cnt ==> {
            &&& (#[trigger] post[k]).l == pre[k].l
            &&& post[k].r == pre[k].r
            &&& pre[k].lc != 0 ==> post[k].lc == pre[k].lc
            &&& pre[k].rc != 0 ==> post[k].rc == pre[k].rc
        }
}

/// The child of node `idx` on the side of `pos` (0 when absent).
pub open spec fn child_toward(pool: Seq<SegT>, idx: int, pos: i32) -> int {
    let nd = pool[idx];
    if pos <= mid_of(nd.l, nd.r) { nd.lc as int } else { nd.rc as int }
}

/// The last node reached from `idx` by following, while they exist, the
/// children on the side of `pos`: the leaf that covers `pos` when the
/// whole path is there.
pub open spec fn descend(pool: Seq<SegT>, idx: int, pos: i32) -> int
    decreases span(pool, idx),
{
    if idx <= 0 || idx >= pool.len() || pool[idx].l >= pool[idx].r {
        idx
    } else {
        let c = child_toward(pool, idx, pos);
        if c <= 0 || c >= pool.len() || span(pool, c) < 0 || span(pool, c) >= span(pool, idx) {
            idx
        } else {
            descend(pool, c, pos)
        }
    }
}

/// Adding `delta` to the count of the leaf that the path from `idx`
/// toward `pos` already reaches, if it reaches one, stays within `i32`.
pub open spec fn delta_fits(pool: Seq<SegT>, idx: int, pos: i32, delta: i32) -> bool {
    let d = descend(pool, idx, pos);
    pool[d].l == pool[d].r ==> i32::MIN <= pool[d].val.cnt + delta <= i32::MAX
}

/// How many nodes a path below a node of span `s` can need: each level
/// at least halves the span.
pub open spec fn levels(s: int) -> int
    decreases s,
{
    if s <= 0 { 0 } else { 1 + levels(s / 2) }
}

proof fn lemma_levels_monotone(a: int, b: int)
    requires
        a <= b,
    ensures
        0 <= levels(a) <= levels(b),
    decreases b,
{
    if a > 0 {
        lemma_levels_monotone(a / 2, b / 2);
    } else if b > 0 {
        lemma_levels_monotone(0, b / 2);
    }
}

/// The pool, counter and handle after making sure that inner node `idx`
/// has a child on the chosen side: an existing child is kept, a missing
/// one is allocated in the next slot and linked.
pub open spec fn attach(pool: Seq<SegT>, cnt: int, idx: int, go_left: bool) -> (Seq<SegT>, int, int) {
    let nd = pool[idx];
    let mid = mid_of(nd.l, nd.r);
    let existing = if go_left { nd.lc } else { nd.rc };
    if existing != 0 {
        (pool, cnt, existing as int)
    } else {
        let lo: i32 = if go_left { nd.l } else { (mid + 1) as i32 };
        let hi: i32 = if go_left { mid as i32 } else { nd.r };
        let c = cnt + 1;
        let fresh = SegT { l: lo, r: hi, lc: 0, rc: 0, val: fresh_val(lo, hi) };
        let linked = if go_left { SegT { lc: c as usize, ..nd } } else { SegT { rc: c as usize, ..nd } };
        (pool.update(c, fresh).update(idx, linked), c, c)
    }
}

/// The pool and counter after adding `delta` at position `pos` below node
/// `idx`: handle 0 changes nothing; a leaf gains `delta`; an inner node
/// gets its child toward `pos` (allocated if missing), the update goes on
/// in that child, and the node's value becomes the merge of its children.
pub open spec fn upd(pool: Seq<SegT>, cnt: int, idx: int, pos: i32, delta: i32) -> (Seq<SegT>, int)
    decreases span(pool, idx),
{
    if idx <= 0 || idx >= pool.len() {
        (pool, cnt)
    } else if pool[idx].l == pool[idx].r {
        let nd = pool[idx];
        (pool.update(idx, SegT { val: Food { cnt: (nd.val.cnt + delta) as i32, ty: nd.val.ty }, ..nd }), cnt)
    } else {
        let nd = pool[idx];
        let (p1, c1, child) = attach(pool, cnt, idx, pos <= mid_of(nd.l, nd.r));
        if 0 <= span(p1, child) < span(pool, idx) {
            let (p2, c2) = upd(p1, c1, child, pos, delta);
            (p2.update(idx, SegT { val: merged(p2, idx), ..p2[idx] }), c2)
        } else {
            (pool, cnt)
        }
    }
}

proof fn lemma_append_keeps_wf(pool: Seq<SegT>, cnt: int, nd: SegT)
    requires
        pool_wf(pool, cnt),
        cnt + 1 < MAXSEG,
        nd.lc == 0,
        nd.rc == 0,
        0 <= nd.l <= nd.r < SPAN_LIMIT,
    ensures
        pool_wf(pool.update(cnt + 1, nd), cnt + 1),
        shape_kept(pool, pool.update(cnt + 1, nd), cnt),
{
    let post = pool.update(cnt + 1, nd);
    assert forall|k: int| 1 <= k <= cnt + 1 implies #[trigger] node_ok(post, cnt + 1, k) by {
        if k <= cnt {
            assert(node_ok(pool, cnt, k));
        }
    }
}

/// After an update from `idx`, the path from `idx` toward `pos` ends in a
/// leaf, and that leaf's count is its count before (0 for a new leaf)
/// plus `delta`.
pub open spec fn leaf_gained(pre: Seq<SegT>, cnt: int, post: Seq<SegT>, idx: int, pos: i32, delta: i32) -> bool {
    let lf = descend(post, idx, pos);
    &&& 1 <= lf < post.len()
    &&& post[lf].l == post[lf].r
    &&& post[lf].val.cnt == (if lf <= cnt { pre[lf].val.cnt as int } else { 0int }) + delta
}

/// Node `k` lies on the path from `idx` toward `pos`.
pub open spec fn on_path(pool: Seq<SegT>, idx: int, pos: i32, k: int) -> bool
    decreases span(pool, idx),
{
    if k == idx {
        true
    } else if idx <= 0 || idx >= pool.len() || pool[idx].l >= pool[idx].r {
        false
    } else {
        let c = child_toward(pool, idx, pos);
        if c <= 0 || c >= pool.len() || span(pool, c) < 0 || span(pool, c) >= span(pool, idx) {
            false
        } else {
            on_path(pool, c, pos, k)
        }
    }
}

proof fn lemma_on_path_same_shape(p: Seq<SegT>, q: Seq<SegT>, idx: int, pos: i32, k: int)
    requires
        p.len() == q.len(),
        forall|j: int|
            0 <= j < p.len() ==> (#[trigger] p[j]).l == q[j].l && p[j].r == q[j].r && p[j].lc
                == q[j].lc && p[j].rc == q[j].rc,
    ensures
        on_path(p, idx, pos, k) == on_path(q, idx, pos, k),
    decreases span(p, idx),
{
    if k != idx && 0 < idx < p.len() && p[idx].l < p[idx].r {
        let c = child_toward(p, idx, pos);
        if 0 < c < p.len() && 0 <= span(p, c) < span(p, idx) {
            lemma_on_path_same_shape(p, q, c, pos, k);
        }
    }
}

/// Paths depend on the intervals and children alone, not on the values.
proof fn lemma_descend_same_shape(p: Seq<SegT>, q: Seq<SegT>, k: int, pos: i32)
    requires
        p.len() == q.len(),
        forall|j: int|
            0 <= j < p.len() ==> (#[trigger] p[j]).l == q[j].l && p[j].r == q[j].r && p[j].lc
                == q[j].lc && p[j].rc == q[j].rc,
    ensures
        descend(p, k, pos) == descend(q, k, pos),
    decreases span(p, k),
{
    if 0 < k < p.len() && p[k].l < p[k].r {
        let c = child_toward(p, k, pos);
        if 0 < c < p.len() && 0 <= span(p, c) < span(p, k) {
            lemma_descend_same_shape(p, q, c, pos);
        }
    }
}

/// The child of inner node `idx` on the chosen side, allocated first if absent.
fn ensure_child(pool: &mut [SegT; MAXSEG], seg_cnt: &mut usize, idx: usize, go_left: bool) -> (c: usize)
    requires
        pool_wf(old(pool)@, *old(seg_cnt) as int),
        1 <= idx <= *old(seg_cnt),
        old(pool)@[idx as int].l < old(pool)@[idx as int].r,
        *old(seg_cnt) + 1 < MAXSEG,
    ensures
        (final(pool)@, *final(seg_cnt) as int, c as int) == attach(
            old(pool)@,
            *old(seg_cnt) as int,
            idx as int,
            go_left,
        ),
        pool_wf(final(pool)@, *final(seg_cnt) as int),
        *final(seg_cnt) == *old(seg_cnt) || *final(seg_cnt) == *old(seg_cnt) + 1,
        shape_kept(old(pool)@, final(pool)@, *old(seg_cnt) as int),
        1 <= c <= *final(seg_cnt),
        go_left ==> final(pool)@[idx as int].lc == c,
        !go_left ==> final(pool)@[idx as int].rc == c,
{
    let ghost pool0 = pool@;
    let ghost cnt0 = *seg_cnt as int;
    assert(node_ok(pool0, cnt0, idx as int));
    let l: i32 = pool[idx].l;
    let r: i32 = pool[idx].r;
    let mid: i32 = (l + r) / 2;
    let existing = if go_left { pool[idx].lc } else { pool[idx].rc };
    if existing != 0 {
        return existing;
    }
    let (lo, hi) = if go_left { (l, mid) } else { (mid + 1, r) };
    proof {
        lemma_append_keeps_wf(pool@, cnt0, SegT { l: lo, r: hi, lc: 0, rc: 0, val: fresh_val(lo, hi) });
    }
    let c = build(pool, seg_cnt, lo, hi);
    let ghost pool1 = pool@;
    let mut node = pool[idx];
    if go_left {
        node.lc = c;
    } else {
        node.rc = c;
    }
    pool[idx] = node;
    proof {
        assert forall|k: int| 1 <= k <= cnt0 + 1 implies #[trigger] node_ok(pool@, cnt0 + 1, k) by {
            assert(node_ok(pool1, cnt0 + 1, k));
        }
    }
    c
}

/// Sets the value of inner node `idx` to the merge of its children's values.
fn pull_up(pool: &mut [SegT; MAXSEG], idx: usize, Ghost(cnt): Ghost<int>)
    requires
        pool_wf(old(pool)@, cnt),
        1 <= idx <= cnt,
    ensures
        final(pool)@ == old(pool)@.update(
            idx as int,
            SegT { val: merged(old(pool)@, idx as int), ..old(pool)@[idx as int] },
        ),
        pool_wf(final(pool)@, cnt),
        final(pool)@[idx as int].val == merged(final(pool)@, idx as int),
{
    let ghost pool0 = pool@;
    assert(node_ok(pool0, cnt, idx as int));
    let mut best: Food = Food { cnt: 0, ty: 0 };
    if pool[idx].lc != 0 {
        best = pool[idx].lc_val(pool).better(best);
    }
    if pool[idx].rc != 0 {
        best = pool[idx].rc_val(pool).better(best);
    }
    let mut node = pool[idx];
    node.val = best;
    pool[idx] = node;
    proof {
        assert forall|k: int| 1 <= k <= cnt implies #[trigger] node_ok(pool@, cnt, k) by {
            assert(node_ok(pool0, cnt, k));
        }
    }
}

proof fn lemma_child_span(l: i32, r: i32)
    requires
        0 <= l < r,
    ensures
        0 <= mid_of(l, r) - l <= (r - l) / 2,
        0 <= r - (mid_of(l, r) + 1) <= (r - l) / 2,
        levels(r - l) == 1 + levels((r - l) / 2),
{
}

/// Adds `delta` to the count of the leaf at `pos` below node `idx`,
/// allocating the missing nodes on the way, and merges the values back up
/// to `idx`.
pub fn update(pool: &mut [SegT; MAXSEG], seg_cnt: &mut usize, idx: usize, pos: i32, delta: i32)
    requires
        pool_wf(old(pool)@, *old(seg_cnt) as int),
        idx <= *old(seg_cnt),
        idx != 0 ==> *old(seg_cnt) + levels(span(old(pool)@, idx as int)) < MAXSEG,
        delta_fits(old(pool)@, idx as int, pos, delta),
    ensures
        (final(pool)@, *final(seg_cnt) as int) == upd(
            old(pool)@,
            *old(seg_cnt) as int,
            idx as int,
            pos,
            delta,
        ),
        pool_wf(final(pool)@, *final(seg_cnt) as int),
        *old(seg_cnt) <= *final(seg_cnt),
        idx != 0 ==> *final(seg_cnt) <= *old(seg_cnt) + levels(span(old(pool)@, idx as int)),
        shape_kept(old(pool)@, final(pool)@, *old(seg_cnt) as int),
        final(pool)@[0] == old(pool)@[0],
        forall|k: int| *final(seg_cnt) < k < MAXSEG ==> final(pool)@[k] == old(pool)@[k],
        idx == 0 ==> final(pool)@ == old(pool)@ && *final(seg_cnt) == *old(seg_cnt),
        idx != 0 && old(pool)@[idx as int].l == old(pool)@[idx as int].r ==> {
            &&& *final(seg_cnt) == *old(seg_cnt)
            &&& final(pool)@ == old(pool)@.update(
                idx as int,
                SegT {
                    val: Food {
                        cnt: (old(pool)@[idx as int].val.cnt + delta) as i32,
                        ty: old(pool)@[idx as int].val.ty,
                    },
                    ..old(pool)@[idx as int]
                },
            )
        },
        idx != 0 && old(pool)@[idx as int].l != old(pool)@[idx as int].r ==> final(pool)@[idx as int].val
            == merged(final(pool)@, idx as int),
        idx != 0 ==> leaf_gained(old(pool)@, *old(seg_cnt) as int, final(pool)@, idx as int, pos, delta),
        forall|k: int|
            1 <= k <= *old(seg_cnt) && !on_path(final(pool)@, idx as int, pos, k) ==> final(pool)@[k]
                == old(pool)@[k],
    decreases span(old(pool)@, idx as int),
{
    if idx == 0 {
        return;
    }
    let ghost pool0 = pool@;
    let ghost cnt0 = *seg_cnt as int;
    assert(node_ok(pool0, cnt0, idx as int));
    let l: i32 = pool[idx].l;
    let r: i32 = pool[idx].r;
    if l == r {
        let mut node = pool[idx];
        node.val.cnt += delta;
        pool[idx] = node;
        proof {
            assert forall|k: int| 1 <= k <= cnt0 implies #[trigger] node_ok(pool@, cnt0, k) by {
                assert(node_ok(pool0, cnt0, k));
            }
        }
        return;
    }
    let mid: i32 = (l + r) / 2;
    proof {
        lemma_child_span(l, r);
        lemma_levels_monotone(0, (r - l) / 2);
    }
    let child = ensure_child(pool, seg_cnt, idx, pos <= mid);
    let ghost pool2 = pool@;
    let ghost cnt2 = *seg_cnt as int;
    proof {
        assert(node_ok(pool2, cnt2, idx as int));
        assert(node_ok(pool2, cnt2, child as int));
        lemma_levels_monotone(span(pool2, child as int), (r - l) / 2);
        assert(0 <= span(pool2, child as int) < span(pool0, idx as int));
        if cnt2 == cnt0 {
            assert(pool2 == pool0);
            assert(child as int == child_toward(pool0, idx as int, pos));
            assert(descend(pool0, idx as int, pos) == descend(pool0, child as int, pos));
        } else {
            assert(descend(pool2, child as int, pos) == child as int);
        }
    }
    update(pool, seg_cnt, child, pos, delta);
    let ghost pool3 = pool@;
    proof {
        assert(node_ok(pool3, *seg_cnt as int, idx as int));
    }
    pull_up(pool, idx, Ghost(*seg_cnt as int));
    proof {
        let fin = pool@;
        let cnt3 = *seg_cnt as int;
        assert(node_ok(pool2, cnt2, idx as int));
        assert(child_toward(fin, idx as int, pos) == child as int);
        assert(node_ok(fin, cnt3, child as int));
        assert(span(fin, child as int) == span(pool2, child as int));
        assert(descend(fin, idx as int, pos) == descend(fin, child as int, pos));
        assert forall|j: int| 0 <= j < fin.len() implies (#[trigger] fin[j]).l == pool3[j].l && fin[j].r
            == pool3[j].r && fin[j].lc == pool3[j].lc && fin[j].rc == pool3[j].rc by {}
        lemma_descend_same_shape(fin, pool3, child as int, pos);
        assert forall|k: int|
            1 <= k <= cnt0 && !on_path(fin, idx as int, pos, k) implies fin[k] == pool0[k] by {
            assert(on_path(fin, idx as int, pos, k) == on_path(fin, child as int, pos, k));
            lemma_on_path_same_shape(fin, pool3, child as int, pos, k);
        }
        let lf = descend(fin, idx as int, pos);
        assert(lf != idx);
        assert(fin[lf] == pool3[lf]);
        if lf <= cnt0 {
            assert(pool2[lf].val == pool0[lf].val);
        }
    }
    proof {
        assert forall|k: int| 1 <= k <= cnt0 implies {
            &&& (#[trigger] pool@[k]).l == pool0[k].l
            &&& pool@[k].r == pool0[k].r
            &&& pool0[k].lc != 0 ==> pool@[k].lc == pool0[k].lc
            &&& pool0[k].rc != 0 ==> pool@[k].rc == pool0[k].rc
        } by {
            assert(pool2[k].l == pool0[k].l);
            assert(pool3[k].l == pool2[k].l);
        }
    }
}

/// Merging at a node is decided by count first and type second: when both
/// children hold the same positive count, the child with the lower type
/// wins, whichever side it stands on.
pub proof fn lemma_merge_tie_break(pool: Seq<SegT>, k: int)
    requires
        0 <= k < pool.len(),
        pool[k].lc != 0,
        pool[k].rc != 0,
        0 <= pool[k].lc < pool.len(),
        0 <= pool[k].rc < pool.len(),
        pool[pool[k].lc as int].val.cnt == pool[pool[k].rc as int].val.cnt,
        pool[pool[k].lc as int].val.cnt > 0,
    ensures
        pool[pool[k].lc as int].val.ty < pool[pool[k].rc as int].val.ty ==> merged(pool, k)
            == pool[pool[k].lc as int].val,
        pool[pool[k].rc as int].val.ty < pool[pool[k].lc as int].val.ty ==> merged(pool, k)
            == pool[pool[k].rc as int].val,
{
}

} // verus!
