use subset_front::methods::{adjust_receiver, Adjustment, Receiver, ReceiverKind};
use subset_front::types::{
    infer_index_type, infer_loop_type, method_receiver, ty_eq, unify_branches, Ty, TypeError,
};

fn array(elem: Ty, n: usize) -> Ty {
    Ty::Array(Box::new(elem), n)
}

fn reference(inner: Ty, m: bool) -> Ty {
    Ty::Reference(Box::new(inner), m)
}

#[test]
fn structural_type_equality() {
    assert!(ty_eq(&array(Ty::I32, 4), &array(Ty::I32, 4)));
    assert!(!ty_eq(&array(Ty::I32, 4), &array(Ty::I32, 5)));
    assert!(!ty_eq(&reference(Ty::StructRef(0), true), &reference(Ty::StructRef(0), false)));
    assert!(!ty_eq(&Ty::StructRef(1), &Ty::StructRef(2)));
    assert!(ty_eq(&Ty::Unit, &Ty::Unit));
}

#[test]
fn if_expression_types() {
    assert_eq!(unify_branches(Ty::I32, Some(Ty::I32)), Ok(Ty::I32));
    assert_eq!(unify_branches(Ty::I32, Some(Ty::Bool)), Err(TypeError::BranchMismatch));
    assert_eq!(unify_branches(Ty::Unit, None), Ok(Ty::Unit));
    assert_eq!(unify_branches(Ty::I32, None), Err(TypeError::BranchMismatch));
}

#[test]
fn loop_expression_types() {
    assert_eq!(infer_loop_type(vec![]), Ok(Ty::Unit));
    assert_eq!(infer_loop_type(vec![None, None]), Ok(Ty::Unit));
    assert_eq!(infer_loop_type(vec![Some(Ty::I32), Some(Ty::I32)]), Ok(Ty::I32));
    assert_eq!(infer_loop_type(vec![Some(Ty::I32), None]), Err(TypeError::BreakMismatch));
    assert_eq!(infer_loop_type(vec![Some(Ty::Unit), None]), Ok(Ty::Unit));
    assert_eq!(
        infer_loop_type(vec![Some(Ty::I32), Some(Ty::I32), Some(Ty::Bool)]),
        Err(TypeError::BreakMismatch)
    );
}

#[test]
fn index_expression_types() {
    assert_eq!(infer_index_type(array(Ty::I32, 4), &Ty::Usize), Ok(Ty::I32));
    assert_eq!(infer_index_type(reference(array(Ty::I32, 4), true), &Ty::Usize), Ok(Ty::I32));
    assert_eq!(infer_index_type(array(Ty::I32, 4), &Ty::I32), Err(TypeError::IndexNotUnsigned));
    assert_eq!(infer_index_type(Ty::StructRef(0), &Ty::Usize), Err(TypeError::NotIndexable));
    let pool = array(Ty::StructRef(3), 32);
    assert_eq!(infer_index_type(pool, &Ty::Usize), Ok(Ty::StructRef(3)));
}

#[test]
fn method_receiver_shapes() {
    let reg = Ty::StructRef(7);
    assert_eq!(
        method_receiver(&reg, true, true),
        Some((7, Receiver { ref_depth: 0, is_place: true, mutable: true }))
    );
    let shared = reference(Ty::StructRef(7), false);
    assert_eq!(
        method_receiver(&shared, false, true),
        Some((7, Receiver { ref_depth: 1, is_place: false, mutable: false }))
    );
    let handle = reference(Ty::StructRef(7), true);
    assert_eq!(
        method_receiver(&handle, false, false),
        Some((7, Receiver { ref_depth: 1, is_place: false, mutable: true }))
    );
    let mixed = reference(reference(Ty::StructRef(7), false), true);
    assert_eq!(
        method_receiver(&mixed, false, false),
        Some((7, Receiver { ref_depth: 2, is_place: false, mutable: false }))
    );
    assert_eq!(method_receiver(&reference(Ty::I32, false), false, false), None);
}

#[test]
fn receiver_shape_feeds_adjustment() {
    let view = reference(Ty::StructRef(0), false);
    let (_, rcv) = method_receiver(&view, false, false).unwrap();
    assert_eq!(
        adjust_receiver(rcv, ReceiverKind::Shared),
        Ok(Adjustment { derefs: 0, auto_ref: false })
    );
    let (_, owner) = method_receiver(&Ty::StructRef(0), true, false).unwrap();
    assert_eq!(
        adjust_receiver(owner, ReceiverKind::Shared),
        Ok(Adjustment { derefs: 0, auto_ref: true })
    );
}
