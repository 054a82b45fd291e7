use subset_front::intrinsics::{lookup_intrinsic, Intrinsic, ValueType};

fn find(s: &str) -> Option<Intrinsic> {
    lookup_intrinsic(&s.as_bytes().to_vec())
}

#[test]
fn intrinsic_names() {
    assert_eq!(find("printInt"), Some(Intrinsic::PrintInt));
    assert_eq!(find("printlnInt"), Some(Intrinsic::PrintlnInt));
    assert_eq!(find("print"), Some(Intrinsic::Print));
    assert_eq!(find("getInt"), Some(Intrinsic::GetInt));
    assert_eq!(find("exit"), Some(Intrinsic::Exit));
    assert_eq!(find("println"), None);
    assert_eq!(find("printIn"), None);
    assert_eq!(find(""), None);
}

#[test]
fn intrinsic_signatures() {
    assert_eq!(Intrinsic::PrintInt.param(), Some(ValueType::I32));
    assert_eq!(Intrinsic::PrintlnInt.result(), ValueType::Unit);
    assert_eq!(Intrinsic::Print.param(), Some(ValueType::Str));
    assert_eq!(Intrinsic::GetInt.param(), None);
    assert_eq!(Intrinsic::GetInt.result(), ValueType::I32);
    assert_eq!(Intrinsic::Exit.param(), Some(ValueType::I32));
    assert_eq!(Intrinsic::Exit.result(), ValueType::Never);
}
