use rollback_core::Frame;

#[test]
fn greater_than_simple() {
    assert!(Frame(5).greater_than(Frame(3)));
    assert!(!Frame(3).greater_than(Frame(5)));
}

#[test]
fn greater_than_wraparound() {
    assert!(Frame(3).greater_than(Frame(u64::MAX - 1)));
    assert!(!Frame(u64::MAX - 1).greater_than(Frame(3)));
}

#[test]
fn greater_than_is_irreflexive() {
    assert!(!Frame(7).greater_than(Frame(7)));
    assert!(!Frame(0).greater_than(Frame(0)));
    assert!(!Frame(u64::MAX).greater_than(Frame(u64::MAX)));
}

#[test]
fn exactly_one_is_greater_within_half_range() {
    let pairs = [
        (0u64, 1u64),
        (5, 3),
        (100, u64::MAX - 50),
        (u64::MAX, 0),
        (1 << 62, 1 << 61),
        (42, 42 + (u64::MAX / 2)),
    ];
    for (a, b) in pairs {
        assert_ne!(a, b);
        let ab = Frame(a).greater_than(Frame(b));
        let ba = Frame(b).greater_than(Frame(a));
        assert!(ab != ba);
    }
}

#[test]
fn raw_value_returns_counter() {
    assert_eq!(Frame(17).raw_value(), 17);
    assert_eq!(Frame(u64::MAX).raw_value(), u64::MAX);
}

#[test]
fn add_wraps_modularly() {
    assert_eq!(Frame(10).add(5).raw_value(), 15);
    assert_eq!(Frame(u64::MAX).add(1).raw_value(), 0);
    assert_eq!(Frame(u64::MAX - 1).add(5).raw_value(), 3);
}

#[test]
fn add_keeps_ordering_across_wrap() {
    let near_top = Frame(u64::MAX - 2);
    let wrapped = near_top.add(5);
    assert_eq!(wrapped.raw_value(), 2);
    assert!(wrapped.greater_than(near_top));
    assert!(!near_top.greater_than(wrapped));
}

#[test]
fn add_assign_wraps_modularly() {
    let mut f = Frame(u64::MAX);
    f.add_assign(3);
    assert_eq!(f.raw_value(), 2);
    let mut g = Frame(7);
    g.add_assign(1);
    assert_eq!(g.raw_value(), 8);
}

#[test]
fn from_and_default() {
    assert_eq!(Frame::from(9).raw_value(), 9);
    let d: Frame = Default::default();
    assert_eq!(d.raw_value(), 0);
}
