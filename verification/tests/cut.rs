use awoo::Behavior;
use awoo::Blend;
use awoo::Cut;

#[test]
fn valid_bounds_build_and_measure() {
    let c = Cut::new(3, 11, Behavior::Constant(4)).unwrap();
    assert_eq!(c.start_t, 3);
    assert_eq!(c.stop_t, 11);
    assert_eq!(c.dur(), 8);
    assert!(c.blend.is_none());

    let empty = Cut::new(5, 5, Behavior::Time).unwrap();
    assert_eq!(empty.dur(), 0);

    let wide = Cut::new(-40, 60, Behavior::Silent).unwrap();
    assert_eq!(wide.dur(), 100);
}

#[test]
fn reversed_bounds_fail() {
    assert!(Cut::new(11, 3, Behavior::Constant(4)).is_none());
    assert!(Cut::new(0, -1, Behavior::Time).is_none());
}

#[test]
fn react_delegates_to_behavior() {
    let c = Cut::new(0, 10, Behavior::Constant(42)).unwrap();
    assert_eq!(c.react(5), Some(42));
    // A cut's react consults the behavior alone; range handling belongs to
    // the track that owns the cut.
    assert_eq!(c.react(999), Some(42));

    let t = Cut::new(0, 10, Behavior::Time).unwrap();
    assert_eq!(t.react(7), Some(7));

    let s = Cut::new(0, 10, Behavior::Silent).unwrap();
    assert_eq!(s.react(5), None);

    let g = Cut::new(0, 10, Behavior::Gated { value: 3, from: 2, until: 4 }).unwrap();
    assert_eq!(g.react(1), None);
    assert_eq!(g.react(2), Some(3));
    assert_eq!(g.react(3), Some(3));
    assert_eq!(g.react(4), None);
}

#[test]
fn react_blend_follows_the_tie_break_rule() {
    let plain = Cut::new(0, 10, Behavior::Constant(5)).unwrap();
    let summing = Cut::new(0, 10, Behavior::Constant(5)).unwrap().with_blend(Blend::Sum);
    let silent_summing = Cut::new(0, 10, Behavior::Silent).unwrap().with_blend(Blend::Sum);

    // Absent value: the next cut's output is taken, blend or not.
    assert_eq!(Cut::react_blend(None, &plain, 1), Some(5));
    assert_eq!(Cut::react_blend(None, &summing, 1), Some(5));
    assert_eq!(Cut::react_blend(None, &silent_summing, 1), None);

    // Present value, next cut without blend: the earlier value wins.
    assert_eq!(Cut::react_blend(Some(7), &plain, 1), Some(7));

    // Present value, next cut with a blend: the outputs are combined.
    assert_eq!(Cut::react_blend(Some(7), &summing, 1), Some(12));

    // Present value, blend declared but the next cut is disabled: the
    // earlier value stands.
    assert_eq!(Cut::react_blend(Some(7), &silent_summing, 1), Some(7));
}

#[test]
fn blend_operations() {
    assert_eq!(Blend::Sum.apply(3, 4), 7);
    assert_eq!(Blend::Sum.apply(i64::MAX, 1), i64::MAX);
    assert_eq!(Blend::Sum.apply(i64::MIN, -1), i64::MIN);
    assert_eq!(Blend::Min.apply(3, 4), 3);
    assert_eq!(Blend::Max.apply(3, 4), 4);
}
