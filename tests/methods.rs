use subset_front::methods::{adjust_receiver, Adjustment, MethodError, Receiver, ReceiverKind};

fn recv(ref_depth: usize, is_place: bool, mutable: bool) -> Receiver {
    Receiver { ref_depth, is_place, mutable }
}

#[test]
fn shared_method_via_value_and_reference() {
    // `reg.read()` and `view.read()` with `view: &Register`
    assert_eq!(
        adjust_receiver(recv(0, true, true), ReceiverKind::Shared),
        Ok(Adjustment { derefs: 0, auto_ref: true })
    );
    assert_eq!(
        adjust_receiver(recv(1, false, false), ReceiverKind::Shared),
        Ok(Adjustment { derefs: 0, auto_ref: false })
    );
    assert_eq!(
        adjust_receiver(recv(3, false, false), ReceiverKind::Shared),
        Ok(Adjustment { derefs: 2, auto_ref: false })
    );
}

#[test]
fn mutable_method_needs_mutable_receiver() {
    // `handle.bump(2)` with `handle: &mut Register`
    assert_eq!(
        adjust_receiver(recv(1, false, true), ReceiverKind::Mutable),
        Ok(Adjustment { derefs: 0, auto_ref: false })
    );
    assert_eq!(
        adjust_receiver(recv(0, true, true), ReceiverKind::Mutable),
        Ok(Adjustment { derefs: 0, auto_ref: true })
    );
    assert_eq!(
        adjust_receiver(recv(0, true, false), ReceiverKind::Mutable),
        Err(MethodError::NotMutable)
    );
    assert_eq!(
        adjust_receiver(recv(1, false, false), ReceiverKind::Mutable),
        Err(MethodError::NotMutable)
    );
}

#[test]
fn reference_needs_a_place() {
    assert_eq!(
        adjust_receiver(recv(0, false, false), ReceiverKind::Shared),
        Err(MethodError::NotAPlace)
    );
}

#[test]
fn by_value_method_strips_references() {
    // `p.swap()` on a value, and through `&&Point`
    assert_eq!(
        adjust_receiver(recv(0, false, false), ReceiverKind::ByValue),
        Ok(Adjustment { derefs: 0, auto_ref: false })
    );
    assert_eq!(
        adjust_receiver(recv(2, false, false), ReceiverKind::ByValue),
        Ok(Adjustment { derefs: 2, auto_ref: false })
    );
}
