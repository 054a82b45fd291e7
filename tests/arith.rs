use subset_front::arith::{
    abs, control_flow_total, factorial, factorial_sum, gcd, gcd_chain, mix, nested_accumulate,
    shadowing_total,
};

#[test]
fn mix_example() {
    assert_eq!(mix(3, 4, 5, 8), -7);
}

#[test]
fn mix_divides_toward_zero() {
    assert_eq!(mix(0, 0, 0, -3), 4);
}

#[test]
fn factorial_values() {
    assert_eq!(factorial(0), 1);
    assert_eq!(factorial(1), 1);
    assert_eq!(factorial(5), 120);
    assert_eq!(factorial(12), 479001600);
    assert_eq!(factorial(-4), 1);
}

#[test]
fn factorial_sum_to_five() {
    assert_eq!(factorial_sum(5), 153);
}

#[test]
fn factorial_sum_edges() {
    assert_eq!(factorial_sum(0), 0);
    assert_eq!(factorial_sum(-2), 0);
    assert_eq!(factorial_sum(12), 522956313);
}

#[test]
fn abs_values() {
    assert_eq!(abs(-7), 7);
    assert_eq!(abs(7), 7);
    assert_eq!(abs(0), 0);
}

#[test]
fn gcd_values() {
    assert_eq!(gcd(12, 18), 6);
    assert_eq!(gcd(-12, 18), 6);
    assert_eq!(gcd(18, -12), 6);
    assert_eq!(gcd(7, 0), 7);
    assert_eq!(gcd(0, 0), 0);
    assert_eq!(gcd(17, 5), 1);
}

#[test]
fn nested_loop_accumulation() {
    assert_eq!(nested_accumulate(4, 3), 16);
}

#[test]
fn nested_loop_edges() {
    assert_eq!(nested_accumulate(0, 3), 0);
    assert_eq!(nested_accumulate(4, 1), 0);
    assert_eq!(nested_accumulate(2, 2), 3);
}

#[test]
fn shadowed_binding_sum() {
    assert_eq!(shadowing_total(1, 5), 6);
}

#[test]
fn control_flow_loop_total() {
    assert_eq!(control_flow_total(5), 46);
    assert_eq!(control_flow_total(-1), 0);
    assert_eq!(control_flow_total(0), 0);
    assert_eq!(control_flow_total(2), 2);
}

#[test]
fn gcd_chain_sum() {
    assert_eq!(gcd_chain(12, 18, 27), 15);
    assert_eq!(gcd_chain(5, 0, 0), 5);
}

#[test]
fn loops_beyond_small_bounds() {
    assert_eq!(nested_accumulate(2000, 3), 3992016);
    assert_eq!(control_flow_total(10000), 200009992);
}
