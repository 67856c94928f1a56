use zeppelin_core::progress::Progress;

#[test]
fn fresh_progress() {
    let p = Progress::new();
    assert_eq!(p.get_count(), 0);
    assert_eq!(p.get_max(), 1);
    assert_eq!(p.get_state(), String::new());
}

#[test]
fn counting_and_targets() {
    let mut p = Progress::new();
    p.inc();
    p.inc();
    assert_eq!(p.get_count(), 2);
    p.set_max(10);
    assert_eq!(p.get_max(), 10);
    p.inc_max(5);
    assert_eq!(p.get_max(), 15);
    p.set_max_data(1000);
    assert_eq!(p.get_max(), 1000 / 64);
}

#[test]
fn state_text() {
    let mut p = Progress::new();
    p.set_state("Encrypting".to_string());
    assert_eq!(p.get_state(), "Encrypting".to_string());
}

#[test]
fn saturating_counters() {
    let mut p = Progress::new();
    p.set_max(usize::MAX);
    p.inc_max(3);
    assert_eq!(p.get_max(), usize::MAX);
}

/// Building a generator raises the target by one per mixing step and
/// counts every step it finishes.
#[test]
fn progress_of_generator_build() {
    let mut p = Progress::new();
    let _b = zeppelin_core::hash::Balloon::new(b"pw", vec![1], 20, 3, 1, &mut p);
    assert_eq!(p.get_max(), 1 + 20 * 3);
    assert_eq!(p.get_count(), 20 * 3);
    assert_eq!(p.get_state(), "Mixing buffer".to_string());
}
