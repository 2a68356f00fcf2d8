use risso_api::mode::{CommentMode, DEFAULT_MASK};

#[test]
fn default_mask_is_valid_or_soft_deleted() {
    let m = CommentMode::mask(None);
    assert_eq!(m.bits, DEFAULT_MASK);
    assert_eq!(m.bits, 5);
    assert!(m.admits(1));
    assert!(m.admits(4));
    assert!(!m.admits(2));
}

#[test]
fn mask_is_bitwise_containment() {
    let m = CommentMode::mask(Some(2));
    assert_eq!(m.bits, 2);
    assert!(m.admits(2));
    assert!(!m.admits(1));
    assert!(!m.admits(4));
    let all = CommentMode::mask(Some(7));
    assert!(all.admits(1) && all.admits(2) && all.admits(4));
    assert!(CommentMode::mask(Some(5)).admits(5));
    assert!(!CommentMode::mask(Some(5)).admits(3));
}

#[test]
fn mode_bits() {
    assert_eq!(CommentMode::Valid.bit(), 1);
    assert_eq!(CommentMode::Pending.bit(), 2);
    assert_eq!(CommentMode::SoftDeleted.bit(), 4);
}
