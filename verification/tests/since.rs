use bullet_hell::since::Timer;

#[test]
fn timer_measures_laps() {
    let mut t = Timer::now();
    let first = t.elapsed();
    let second = t.elapsed();
    assert!(first.as_secs() < 60);
    assert!(second.as_secs() < 60);
}

#[test]
fn lap_returns_the_measure_and_restarts() {
    let start = std::time::Instant::now();
    let mut t = Timer::starting_at(start);
    let later = start + std::time::Duration::from_millis(5);
    let d = t.lap(std::time::Duration::from_millis(7), later);
    assert_eq!(d, std::time::Duration::from_millis(7));
    let d = t.elapsed();
    assert!(d.as_secs() < 60);
}
