use subset_front::receiver;
use subset_front::records::{
    add_by_value, add_in_place, build, clone_cell, step, swap, Acc, Bucket, Cell, Counter, Pair,
    Point, Register, Sum,
};
use subset_front::semantic::{add, bar, foo, greet, is_positive, mul, Foo};

#[test]
fn bucket_pushes_in_array() {
    let mut buckets: [Bucket; 1] = [Bucket { data: [0; 4], len: 0 }; 1];
    buckets[0].push(10);
    buckets[0].push(20);
    assert_eq!(buckets[0].data[0], 10);
    assert_eq!(buckets[0].data[1], 20);
    assert_eq!(buckets[0].len, 2);
    assert_eq!(buckets[0].data[2], 0);
}

#[test]
fn counters_in_array() {
    let mut counters: [Counter; 2] = [Counter { value: 0 }; 2];
    counters[0].inc(5);
    counters[1].inc(7);
    assert_eq!(counters[0].value, 5);
    assert_eq!(counters[1].value, 7);
}

#[test]
fn register_through_references() {
    let mut reg = Register { value: 1 };
    let handle: &mut Register = &mut reg;
    let step1 = handle.bump(2);
    let view: &Register = &reg;
    let peek = view.read();
    let direct = reg.read();
    assert_eq!(peek, direct);
    assert_eq!(step1 + peek + direct, 9);
}

#[test]
fn sum_add_accumulates() {
    let mut acc = Sum { total: 0 };
    acc.add(4);
    acc.add(-9);
    assert_eq!(acc.total, -5);
}

#[test]
fn value_copy_leaves_original() {
    let original = Cell { v: 5 };
    let untouched = add_by_value(clone_cell(&original), 2);
    let still_five = original.v;
    assert_eq!(still_five, 5);
    assert_eq!(untouched, 7);
    let mut copy = clone_cell(&original);
    add_in_place(&mut copy, 100);
    assert_eq!(original.v, 5);
    assert_eq!(copy.v, 105);
    let mut shared = Cell { v: 3 };
    let before = shared.v;
    let after = add_in_place(&mut shared, untouched - before);
    assert_eq!(shared.v, 7);
    assert_eq!(still_five + before + after, 15);
}

#[test]
fn struct_from_blocks() {
    assert_eq!(build(6, 2).cur, 29);
    assert_eq!(build(2, 6).cur, 36);
    assert_eq!(step(Acc { cur: 4 }, -9).cur, -5);
}

#[test]
fn pair_swap() {
    let flipped = swap(Pair { a: 7, b: -1 });
    assert_eq!(flipped, Pair { a: -1, b: 7 });
    assert_eq!(flipped.a + flipped.b, 6);
}

#[test]
fn point_from_and_swap() {
    let p = Point::from(3, 4);
    assert_eq!(p, Point { x: 3, y: 4 });
    assert_eq!(p.swap(), Point { x: 4, y: 3 });
}

#[test]
fn semantic_helpers() {
    let i = 10;
    let j = add(i, 5);
    let m = mul(j, 2);
    assert_eq!(j, 15);
    assert_eq!(m, 30);
    assert!(is_positive(j));
    assert!(!is_positive(0));
    assert_eq!(greet(), "hi");
    assert_eq!(add(mul(add(i, j), 3), 7), 82);
}

#[test]
fn foo_fields_through_reference() {
    let mut foo = Foo { a: 1, b: 2 };
    assert_eq!(bar(&foo), 3);
    assert_eq!(foo.sum(), 3);
    foo.set_a(10);
    assert_eq!(foo, Foo { a: 10, b: 2 });
    assert_eq!(bar(&foo), 12);
}

#[test]
fn self_receiver_method() {
    let foo = receiver::Foo { x: 10, y: 20 };
    assert_eq!(foo.foo(5), 35);
}

#[test]
fn unit_values() {
    let x: () = foo();
    assert_eq!(x, ());
}
