use awoo::Behavior;
use awoo::Blend;
use awoo::Cut;
use awoo::Scheduler;
use awoo::SimpleTimeGenerator;
use awoo::Track;

#[test]
fn simple() {
    let tgen = SimpleTimeGenerator::new(0, 1);
    let behavior = Behavior::Time;
    let track = Track::new(vec![Cut::new(0, 10, behavior).unwrap()]).unwrap();
    let mut scheduler = Scheduler::new(vec![track], tgen);

    for _ in 0..10 {
        assert!(scheduler.next_value().is_some());
    }

    assert!(scheduler.next_value().is_none());
}

#[test]
fn single_track_run_yields_exact_values() {
    let tgen = SimpleTimeGenerator::new(0, 1);
    let track = Track::new(vec![Cut::new(0, 10, Behavior::Time).unwrap()]).unwrap();
    let mut scheduler = Scheduler::new(vec![track], tgen);

    for expected in 0..10 {
        assert_eq!(scheduler.next_value(), Some(expected));
    }
    assert_eq!(scheduler.next_value(), None);
}

#[test]
fn restart_by_resetting_the_generator() {
    let tgen = SimpleTimeGenerator::new(0, 1);
    let track = Track::new(vec![Cut::new(0, 3, Behavior::Time).unwrap()]).unwrap();
    let mut scheduler = Scheduler::new(vec![track], tgen);

    assert_eq!(scheduler.next_value(), Some(0));
    assert_eq!(scheduler.next_value(), Some(1));
    scheduler.reset();
    assert_eq!(scheduler.next_value(), Some(0));
}

#[test]
fn prev_value_steps_backwards() {
    let tgen = SimpleTimeGenerator::new(5, 2);
    let track = Track::new(vec![Cut::new(0, 10, Behavior::Time).unwrap()]).unwrap();
    let mut scheduler = Scheduler::new(vec![track], tgen);

    assert_eq!(scheduler.prev_value(), Some(5));
    assert_eq!(scheduler.prev_value(), Some(3));
    assert_eq!(scheduler.prev_value(), Some(1));
    assert_eq!(scheduler.prev_value(), None);
}

#[test]
fn value_at_is_deterministic() {
    let tgen = SimpleTimeGenerator::new(0, 1);
    let t1 = Track::new(vec![Cut::new(0, 10, Behavior::Time).unwrap()]).unwrap();
    let t2 = Track::new(vec![
        Cut::new(3, 10, Behavior::Constant(100)).unwrap().with_blend(Blend::Sum),
    ])
    .unwrap();
    let scheduler = Scheduler::new(vec![t1, t2], tgen);

    for t in -2..12 {
        assert_eq!(scheduler.value_at(t), scheduler.value_at(t));
    }
}

#[test]
fn gaps_are_a_normal_steady_state() {
    let tgen = SimpleTimeGenerator::new(0, 1);
    let track = Track::new(vec![
        Cut::new(0, 2, Behavior::Constant(1)).unwrap(),
        Cut::new(4, 6, Behavior::Constant(2)).unwrap(),
    ])
    .unwrap();
    let scheduler = Scheduler::new(vec![track], tgen);

    assert_eq!(scheduler.value_at(1), Some(1));
    assert_eq!(scheduler.value_at(2), None);
    assert_eq!(scheduler.value_at(3), None);
    assert_eq!(scheduler.value_at(4), Some(2));
    assert_eq!(scheduler.value_at(6), None);
}

#[test]
fn earlier_track_wins_without_blend() {
    // Blending law: the later cut declares no blend, so the earlier value
    // stands and the later output is discarded.
    let tgen = SimpleTimeGenerator::new(0, 1);
    let t1 = Track::new(vec![Cut::new(0, 10, Behavior::Constant(7)).unwrap()]).unwrap();
    let t2 = Track::new(vec![Cut::new(0, 10, Behavior::Constant(50)).unwrap()]).unwrap();
    let scheduler = Scheduler::new(vec![t1, t2], tgen);

    assert_eq!(scheduler.value_at(5), Some(7));
}

#[test]
fn later_track_fills_gap_whatever_its_blend() {
    // Blending law: the earlier track contributes nothing, so the later
    // cut's value is taken as it is even though it declares a blend.
    let tgen = SimpleTimeGenerator::new(0, 1);
    let t1 = Track::new(vec![Cut::new(0, 10, Behavior::Silent).unwrap()]).unwrap();
    let t2 = Track::new(vec![
        Cut::new(0, 10, Behavior::Constant(50)).unwrap().with_blend(Blend::Sum),
    ])
    .unwrap();
    let scheduler = Scheduler::new(vec![t1, t2], tgen);

    assert_eq!(scheduler.value_at(5), Some(50));
}

#[test]
fn end_to_end_overlap_blend() {
    // Two tracks: track 1 has a cut over [0, 10) with no blend producing 7,
    // track 2 has a cut over [3, 10) carrying a summing blend whose
    // behavior is disabled. The blend only fires when the later cut itself
    // produces a value, so inside [3, 10) the earlier value stands.
    let tgen = SimpleTimeGenerator::new(0, 1);
    let t1 = Track::new(vec![Cut::new(0, 10, Behavior::Constant(7)).unwrap()]).unwrap();
    let t2 = Track::new(vec![
        Cut::new(3, 10, Behavior::Silent).unwrap().with_blend(Blend::Sum),
    ])
    .unwrap();
    let scheduler = Scheduler::new(vec![t1, t2], tgen);

    for t in 3..10 {
        assert_eq!(scheduler.value_at(t), Some(7));
    }
}

#[test]
fn blend_fires_when_both_produce() {
    let tgen = SimpleTimeGenerator::new(0, 1);
    let t1 = Track::new(vec![Cut::new(0, 10, Behavior::Constant(7)).unwrap()]).unwrap();
    let t2 = Track::new(vec![
        Cut::new(3, 10, Behavior::Constant(3)).unwrap().with_blend(Blend::Sum),
    ])
    .unwrap();
    let scheduler = Scheduler::new(vec![t1, t2], tgen);

    assert_eq!(scheduler.value_at(2), Some(7));
    assert_eq!(scheduler.value_at(3), Some(10));
    assert_eq!(scheduler.value_at(9), Some(10));
    assert_eq!(scheduler.value_at(10), None);
}

#[test]
fn active_cuts_come_in_track_order() {
    let tgen = SimpleTimeGenerator::new(0, 1);
    let t1 = Track::new(vec![Cut::new(0, 10, Behavior::Constant(1)).unwrap()]).unwrap();
    let t2 = Track::new(vec![Cut::new(5, 15, Behavior::Constant(2)).unwrap()]).unwrap();
    let scheduler = Scheduler::new(vec![t1, t2], tgen);

    let at_7 = scheduler.active_cuts(7);
    assert_eq!(at_7.len(), 2);
    assert_eq!(at_7[0].behavior, Behavior::Constant(1));
    assert_eq!(at_7[1].behavior, Behavior::Constant(2));

    let at_2 = scheduler.active_cuts(2);
    assert_eq!(at_2.len(), 1);
    assert_eq!(at_2[0].behavior, Behavior::Constant(1));

    assert_eq!(scheduler.active_cuts(20).len(), 0);
}
