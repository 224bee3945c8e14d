use awoo::Behavior;
use awoo::Cut;
use awoo::Track;

#[test]
fn successful_building() {
    let behavior = Behavior::Time;

    let track = Track::new(vec![
        Cut::new(0, 10, behavior).unwrap(),
        Cut::new(10, 20, behavior).unwrap(),
        Cut::new(30, 200, behavior).unwrap(),
    ]);

    assert!(track.is_some());
}

#[test]
fn fail_building() {
    let behavior = Behavior::Time;

    let track = Track::new(vec![
        Cut::new(0, 10, behavior).unwrap(),
        Cut::new(5, 20, behavior).unwrap(),
    ]);

    assert!(track.is_none());
}

#[test]
fn active() {
    let behavior = Behavior::Time;

    let track = Track::new(vec![
        Cut::new(0, 10, behavior).unwrap(),
        Cut::new(10, 20, behavior).unwrap(),
        Cut::new(30, 200, behavior).unwrap(),
    ])
    .unwrap();

    // Intervals are start-inclusive and stop-exclusive throughout the
    // crate, so a stop instant already belongs to the next cut, or to the
    // gap after it.
    assert_eq!(track.active(0).unwrap().stop_t, 10);
    assert_eq!(track.active(1).unwrap().stop_t, 10);
    assert_eq!(track.active(19).unwrap().stop_t, 20);
    assert!(track.active(20).is_none());
    assert_eq!(track.active(30).unwrap().stop_t, 200);
    assert_eq!(track.active(199).unwrap().stop_t, 200);
    assert!(track.active(200).is_none());
    assert!(track.active(201).is_none());
}

#[test]
fn fail_building_either_order() {
    let behavior = Behavior::Constant(1);
    let a = Cut::new(0, 10, behavior).unwrap();
    let b = Cut::new(5, 20, behavior).unwrap();

    assert!(Track::new(vec![a, b]).is_none());
    assert!(Track::new(vec![b, a]).is_none());

    let c = Cut::new(3, 4, behavior).unwrap();
    assert!(Track::new(vec![a, c]).is_none());
    assert!(Track::new(vec![c, a]).is_none());
}

#[test]
fn builds_from_unsorted_input() {
    let behavior = Behavior::Constant(2);
    let track = Track::new(vec![
        Cut::new(30, 40, behavior).unwrap(),
        Cut::new(0, 10, behavior).unwrap(),
        Cut::new(10, 20, behavior).unwrap(),
    ])
    .unwrap();

    let cuts = track.cuts();
    assert_eq!(cuts.len(), 3);
    assert_eq!(cuts[0].start_t, 0);
    assert_eq!(cuts[1].start_t, 10);
    assert_eq!(cuts[2].start_t, 30);
}

#[test]
fn touching_cuts_are_legal() {
    let behavior = Behavior::Time;
    let track = Track::new(vec![
        Cut::new(0, 5, behavior).unwrap(),
        Cut::new(5, 5, behavior).unwrap(),
        Cut::new(5, 9, behavior).unwrap(),
    ]);

    assert!(track.is_some());
}

#[test]
fn empty_track_is_never_active() {
    let track = Track::new(Vec::new()).unwrap();
    assert!(track.active(0).is_none());
    assert!(track.active(-5).is_none());
    assert!(track.active(i64::MAX).is_none());
}

#[test]
fn zero_length_cut_covers_nothing() {
    let behavior = Behavior::Constant(9);
    let track = Track::new(vec![Cut::new(7, 7, behavior).unwrap()]).unwrap();
    assert!(track.active(6).is_none());
    assert!(track.active(7).is_none());
    assert!(track.active(8).is_none());
}

fn naive_scan(track: &Track, t: i64) -> Option<usize> {
    for (i, c) in track.cuts().iter().enumerate() {
        if c.start_t <= t && t < c.stop_t {
            return Some(i);
        }
    }
    None
}

#[test]
fn active_agrees_with_linear_scan() {
    let behavior = Behavior::Time;
    let mut cuts = Vec::new();
    // A large family of non-overlapping intervals with irregular gaps and
    // lengths, handed over in reverse order.
    let mut start = -3000;
    for k in 0..120 {
        let len = (k * 7) % 13;
        let gap = 1 + (k * 5) % 11;
        cuts.push(Cut::new(start, start + len, behavior).unwrap());
        start += len + gap;
    }
    cuts.reverse();
    let track = Track::new(cuts).unwrap();

    let mut t = -3010;
    while t < start + 10 {
        let expected = naive_scan(&track, t);
        match (track.active(t), expected) {
            (Some(c), Some(i)) => assert_eq!(*c, track.cuts()[i]),
            (None, None) => {}
            (got, want) => panic!("disagreement at {}: {:?} vs {:?}", t, got.is_some(), want),
        }
        t += 1;
    }
}
