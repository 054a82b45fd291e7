use subset_front::layout::{element_field_slot, field_offset, struct_slots};
use subset_front::scope::{bytes_equal, Binding, ScopeError, Scopes};

fn name(s: &str) -> Vec<u8> {
    s.as_bytes().to_vec()
}

#[test]
fn redeclaration_shadows_in_same_scope() {
    let mut scopes = Scopes::new();
    scopes.declare(name("total"), Binding { slot: 0, mutable: true });
    scopes.declare(name("x"), Binding { slot: 1, mutable: true });
    assert_eq!(scopes.lookup(&name("x")), Some(Binding { slot: 1, mutable: true }));
    scopes.declare(name("x"), Binding { slot: 2, mutable: true });
    assert_eq!(scopes.lookup(&name("x")), Some(Binding { slot: 2, mutable: true }));
    assert_eq!(scopes.lookup(&name("total")), Some(Binding { slot: 0, mutable: true }));
}

#[test]
fn closing_a_scope_uncovers_the_outer_binding() {
    let mut scopes = Scopes::new();
    scopes.declare(name("x"), Binding { slot: 0, mutable: false });
    scopes.push_scope();
    scopes.declare(name("x"), Binding { slot: 1, mutable: true });
    scopes.declare(name("y"), Binding { slot: 2, mutable: true });
    assert_eq!(scopes.lookup(&name("x")), Some(Binding { slot: 1, mutable: true }));
    scopes.pop_scope();
    assert_eq!(scopes.lookup(&name("x")), Some(Binding { slot: 0, mutable: false }));
    assert_eq!(scopes.lookup(&name("y")), None);
}

#[test]
fn pop_without_open_scope_keeps_bindings() {
    let mut scopes = Scopes::new();
    scopes.declare(name("a"), Binding { slot: 4, mutable: true });
    scopes.pop_scope();
    assert_eq!(scopes.lookup(&name("a")), Some(Binding { slot: 4, mutable: true }));
}

#[test]
fn assignment_targets() {
    let mut scopes = Scopes::new();
    scopes.declare(name("m"), Binding { slot: 3, mutable: true });
    scopes.declare(name("c"), Binding { slot: 5, mutable: false });
    assert_eq!(scopes.assign_target(&name("m")), Ok(3));
    assert_eq!(scopes.assign_target(&name("c")), Err(ScopeError::AssignToImmutable));
    assert_eq!(scopes.assign_target(&name("nope")), Err(ScopeError::UndefinedName));
}

#[test]
fn byte_string_equality() {
    assert!(bytes_equal(&name("abc"), &name("abc")));
    assert!(!bytes_equal(&name("abc"), &name("abd")));
    assert!(!bytes_equal(&name("ab"), &name("abc")));
    assert!(bytes_equal(&name(""), &name("")));
}

#[test]
fn field_offsets_follow_declaration_order() {
    // struct SegT { l, r, lc, rc, val: Food { cnt, ty } }
    let sizes = vec![1, 1, 1, 1, 2];
    assert_eq!(field_offset(&sizes, 0), 0);
    assert_eq!(field_offset(&sizes, 4), 4);
    assert_eq!(struct_slots(&sizes), 6);
    // struct Bucket { data: [i32; 4], len: i32 }
    let bucket = vec![4, 1];
    assert_eq!(field_offset(&bucket, 1), 4);
    assert_eq!(struct_slots(&bucket), 5);
    assert_eq!(struct_slots(&vec![]), 0);
}

#[test]
fn array_of_struct_slots() {
    assert_eq!(element_field_slot(100, 3, 6, 4), 122);
    assert_eq!(element_field_slot(0, 0, 5, 4), 4);
    assert_eq!(element_field_slot(7, 2, 0, 0), 7);
}
