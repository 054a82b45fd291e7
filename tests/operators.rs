use subset_front::lex::tokenize;
use subset_front::operators::{binop_at, reduces, BinOp};

fn op(s: &str) -> Option<BinOp> {
    let bytes = s.as_bytes().to_vec();
    binop_at(&bytes, 0, bytes.len())
}

#[test]
fn operator_spellings() {
    assert_eq!(op("*"), Some(BinOp::Mul));
    assert_eq!(op("%"), Some(BinOp::Rem));
    assert_eq!(op("<="), Some(BinOp::Le));
    assert_eq!(op("&&"), Some(BinOp::And));
    assert_eq!(op("||"), Some(BinOp::Or));
    assert_eq!(op("="), Some(BinOp::Assign));
    assert_eq!(op("+="), Some(BinOp::AddAssign));
    assert_eq!(op("!"), None);
    assert_eq!(op("->"), None);
    assert_eq!(op(""), None);
}

#[test]
fn precedence_levels() {
    assert!(BinOp::Mul.precedence() > BinOp::Add.precedence());
    assert!(BinOp::Sub.precedence() > BinOp::Lt.precedence());
    assert!(BinOp::Ge.precedence() > BinOp::And.precedence());
    assert!(BinOp::And.precedence() > BinOp::Or.precedence());
    assert!(BinOp::Or.precedence() > BinOp::Assign.precedence());
    assert!(BinOp::Assign.is_right_assoc());
    assert!(!BinOp::Sub.is_right_assoc());
}

#[test]
fn reduce_decisions() {
    // a - b - c groups as (a - b) - c
    assert!(reduces(BinOp::Sub, BinOp::Sub));
    // a = b = c groups as a = (b = c)
    assert!(!reduces(BinOp::Assign, BinOp::Assign));
    // a * b + c reduces the product first
    assert!(reduces(BinOp::Mul, BinOp::Add));
    // a + b * c shifts the product
    assert!(!reduces(BinOp::Add, BinOp::Mul));
}

#[test]
fn operators_from_tokens() {
    let src = "i * 3 + (i - 1)";
    let bytes = src.as_bytes().to_vec();
    let toks = tokenize(&bytes).unwrap();
    let ops: Vec<BinOp> = toks.iter().filter_map(|t| binop_at(&bytes, t.start, t.end)).collect();
    assert_eq!(ops, vec![BinOp::Mul, BinOp::Add, BinOp::Sub]);
}
