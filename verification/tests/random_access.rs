use awoo::Behavior;
use awoo::InterruptPolicy;
use awoo::RandomAccessScheduler;
use awoo::SimpleTimeGenerator;
use awoo::Window;

#[test]
fn window_new_and_map() {
    let w = Window::new(0, 3);
    assert_eq!(w.start, 0);
    assert_eq!(w.end, 3);

    let mapped = w.map(Behavior::Constant(8));
    assert_eq!(mapped.window.start, 0);
    assert_eq!(mapped.window.end, 3);
    assert_eq!(mapped.carry, Behavior::Constant(8));
}

#[test]
fn schedule_runs_every_window_to_the_end() {
    let gen = SimpleTimeGenerator::new(0, 1);
    let windows = vec![
        Window::new(0, 3).map(Behavior::Time),
        Window::new(3, 10).map(Behavior::Constant(99)),
    ];
    let mut scheduler = RandomAccessScheduler::new(gen, windows).unwrap();

    let out = scheduler.schedule();
    let expected = vec![
        (0, 0),
        (1, 1),
        (2, 2),
        (3, 99),
        (4, 99),
        (5, 99),
        (6, 99),
        (7, 99),
        (8, 99),
        (9, 99),
    ];
    assert_eq!(out, expected);
}

#[test]
fn schedule_skips_gaps_and_disabled_behaviors() {
    let gen = SimpleTimeGenerator::new(0, 1);
    let windows = vec![
        Window::new(0, 2).map(Behavior::Time),
        Window::new(4, 6).map(Behavior::Silent),
        Window::new(6, 8).map(Behavior::Constant(5)),
    ];
    let mut scheduler = RandomAccessScheduler::new(gen, windows).unwrap();

    let out = scheduler.schedule();
    assert_eq!(out, vec![(0, 0), (1, 1), (6, 5), (7, 5)]);
}

#[test]
fn schedule_breaks_on_interrupt() {
    let gen = SimpleTimeGenerator::new(0, 1);
    let windows = vec![Window::new(0, 10).map(Behavior::Time)];
    let mut scheduler = RandomAccessScheduler::new(gen, windows).unwrap();
    scheduler.interruptible_with(InterruptPolicy::AtOrAfter(5));

    let out = scheduler.schedule();
    assert_eq!(out, vec![(0, 0), (1, 1), (2, 2), (3, 3), (4, 4)]);
}

#[test]
fn schedule_with_no_windows_completes_immediately() {
    let gen = SimpleTimeGenerator::new(0, 1);
    let mut scheduler = RandomAccessScheduler::new(gen, Vec::new()).unwrap();
    assert_eq!(scheduler.schedule(), Vec::new());
}

#[test]
fn overlapping_windows_are_refused() {
    let gen = SimpleTimeGenerator::new(0, 1);
    let windows = vec![
        Window::new(0, 5).map(Behavior::Time),
        Window::new(4, 9).map(Behavior::Time),
    ];
    assert!(RandomAccessScheduler::new(gen, windows).is_none());
}

#[test]
fn reversed_windows_are_refused() {
    let gen = SimpleTimeGenerator::new(0, 1);
    let windows = vec![Window::new(5, 2).map(Behavior::Time)];
    assert!(RandomAccessScheduler::new(gen, windows).is_none());
}

#[test]
fn active_window_index_finds_the_sorted_window() {
    let gen = SimpleTimeGenerator::new(0, 1);
    let windows = vec![
        Window::new(6, 9).map(Behavior::Time),
        Window::new(0, 3).map(Behavior::Time),
    ];
    let scheduler = RandomAccessScheduler::new(gen, windows).unwrap();

    assert_eq!(scheduler.active_window_index(1), Some(0));
    assert_eq!(scheduler.active_window_index(3), None);
    assert_eq!(scheduler.active_window_index(7), Some(1));
    assert_eq!(scheduler.active_window_index(9), None);
}
