use subset_front::segtree::{build, update, Food, SegT, MAXSEG};

fn empty_pool() -> [SegT; MAXSEG] {
    [SegT { l: 0, r: 0, lc: 0, rc: 0, val: Food { cnt: 0, ty: 0 } }; MAXSEG]
}

#[test]
fn arena_merge_picks_left_type() {
    let mut pool = empty_pool();
    let mut seg_cnt: usize = 0;
    let root = build(&mut pool, &mut seg_cnt, 1, 2);
    update(&mut pool, &mut seg_cnt, root, 1, 3);
    update(&mut pool, &mut seg_cnt, root, 2, 1);
    assert_eq!(pool[root].val.ty, 1);
    assert_eq!(pool[root].val.cnt, 3);
    assert_eq!(seg_cnt, 3);
}

#[test]
fn arena_merge_tie_keeps_lower_type() {
    let mut pool = empty_pool();
    let mut seg_cnt: usize = 0;
    let root = build(&mut pool, &mut seg_cnt, 1, 4);
    update(&mut pool, &mut seg_cnt, root, 4, 2);
    assert_eq!(pool[root].val, Food { cnt: 2, ty: 4 });
    update(&mut pool, &mut seg_cnt, root, 3, 2);
    assert_eq!(pool[root].val, Food { cnt: 2, ty: 3 });
    update(&mut pool, &mut seg_cnt, root, 4, 1);
    assert_eq!(pool[root].val, Food { cnt: 3, ty: 4 });
}

#[test]
fn leaf_update_adds_delta() {
    let mut pool = empty_pool();
    let mut seg_cnt: usize = 0;
    let leaf = build(&mut pool, &mut seg_cnt, 5, 5);
    assert_eq!(pool[leaf].val, Food { cnt: 0, ty: 5 });
    update(&mut pool, &mut seg_cnt, leaf, 5, -4);
    assert_eq!(pool[leaf].val, Food { cnt: -4, ty: 5 });
    assert_eq!(seg_cnt, 1);
}

#[test]
fn update_on_no_node_does_nothing() {
    let mut pool = empty_pool();
    let mut seg_cnt: usize = 0;
    update(&mut pool, &mut seg_cnt, 0, 1, 3);
    assert_eq!(seg_cnt, 0);
    assert_eq!(pool[0].val, Food { cnt: 0, ty: 0 });
}

#[test]
fn better_tie_break() {
    let a = Food { cnt: 5, ty: 3 };
    let b = Food { cnt: 5, ty: 7 };
    assert_eq!(a.better(b), a);
    assert_eq!(b.better(a), a);
    assert_eq!(Food { cnt: 6, ty: 9 }.better(a), Food { cnt: 6, ty: 9 });
    assert_eq!(a.better(Food { cnt: 6, ty: 9 }), Food { cnt: 6, ty: 9 });
    assert_eq!(a.better(a), a);
}

#[test]
fn child_values_read_through_handles() {
    let mut pool = empty_pool();
    let mut seg_cnt: usize = 0;
    let root = build(&mut pool, &mut seg_cnt, 1, 2);
    update(&mut pool, &mut seg_cnt, root, 1, 3);
    update(&mut pool, &mut seg_cnt, root, 2, 1);
    assert_eq!(pool[root].lc_val(&pool), Food { cnt: 3, ty: 1 });
    assert_eq!(pool[root].rc_val(&pool), Food { cnt: 1, ty: 2 });
}

#[test]
fn wide_root_allocates_one_path() {
    let mut pool = empty_pool();
    let mut seg_cnt: usize = 0;
    let root = build(&mut pool, &mut seg_cnt, 1, 40);
    update(&mut pool, &mut seg_cnt, root, 37, 5);
    assert_eq!(seg_cnt, 7);
    assert_eq!(pool[root].val, Food { cnt: 5, ty: 37 });
    update(&mut pool, &mut seg_cnt, root, 3, 5);
    assert_eq!(seg_cnt, 12);
    assert_eq!(pool[root].val, Food { cnt: 5, ty: 3 });
    update(&mut pool, &mut seg_cnt, root, 37, 1);
    assert_eq!(seg_cnt, 12);
    assert_eq!(pool[root].val, Food { cnt: 6, ty: 37 });
}

#[test]
fn sample_run_exact_pool() {
    let mut pool = empty_pool();
    let mut seg_cnt: usize = 0;
    let root = build(&mut pool, &mut seg_cnt, 1, 2);
    assert_eq!(root, 1);
    update(&mut pool, &mut seg_cnt, root, 1, 3);
    update(&mut pool, &mut seg_cnt, root, 2, 1);
    assert_eq!(seg_cnt, 3);
    assert_eq!(pool[1], SegT { l: 1, r: 2, lc: 2, rc: 3, val: Food { cnt: 3, ty: 1 } });
    assert_eq!(pool[2], SegT { l: 1, r: 1, lc: 0, rc: 0, val: Food { cnt: 3, ty: 1 } });
    assert_eq!(pool[3], SegT { l: 2, r: 2, lc: 0, rc: 0, val: Food { cnt: 1, ty: 2 } });
    assert_eq!(pool[0], SegT { l: 0, r: 0, lc: 0, rc: 0, val: Food { cnt: 0, ty: 0 } });
}

#[test]
fn tie_break_in_either_order() {
    for first_left in [true, false] {
        let mut pool = empty_pool();
        let mut seg_cnt: usize = 0;
        let root = build(&mut pool, &mut seg_cnt, 1, 2);
        let (a, b) = if first_left { (1, 2) } else { (2, 1) };
        update(&mut pool, &mut seg_cnt, root, a, 3);
        update(&mut pool, &mut seg_cnt, root, b, 3);
        assert_eq!(pool[root].val, Food { cnt: 3, ty: 1 });
    }
}

#[test]
fn leaf_update_leaves_other_nodes() {
    let mut pool = empty_pool();
    let mut seg_cnt: usize = 0;
    let root = build(&mut pool, &mut seg_cnt, 1, 2);
    update(&mut pool, &mut seg_cnt, root, 2, 4);
    let before = pool;
    update(&mut pool, &mut seg_cnt, 2, 99, 1);
    assert_eq!(seg_cnt, 2);
    assert_eq!(pool[2].val, Food { cnt: 5, ty: 2 });
    assert_eq!(pool[1], before[1]);
}
