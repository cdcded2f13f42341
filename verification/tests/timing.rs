use mimesis::stats::Benchmark;

#[test]
fn new_stopwatch_has_no_steps() {
    let benchmark = Benchmark::now();
    assert!(benchmark.get_steps().is_empty());
}

#[test]
fn steps_are_recorded_in_order() {
    let mut benchmark = Benchmark::now();
    benchmark.step("Load texture image");
    benchmark.step("Trace polygons");
    let steps = benchmark.get_steps();
    assert_eq!(steps.len(), 2);
    assert_eq!(steps[0].name, "Load texture image");
    assert_eq!(steps[1].name, "Trace polygons");
}

#[test]
fn total_covers_the_steps() {
    let mut benchmark = Benchmark::now();
    benchmark.step("one");
    benchmark.step("two");
    let total = benchmark.get_total_duration();
    let steps: u128 = benchmark.get_steps().iter().map(|s| s.duration).sum();
    assert!(total >= steps);
}

#[test]
fn steps_take_time() {
    let mut benchmark = Benchmark::now();
    let start = std::time::Instant::now();
    while start.elapsed() < std::time::Duration::from_millis(20) {}
    benchmark.step("sleep");
    assert!(benchmark.get_steps()[0].duration >= 20_000_000);
    assert!(benchmark.get_total_duration() >= 20_000_000);
    assert!(benchmark.get_total_duration() < 20_000_000_000);
}

#[test]
fn total_grows_with_every_step() {
    let mut benchmark = Benchmark::now();
    let mut before = benchmark.get_total_duration();
    for name in ["load", "trace", "mesh"] {
        let start = std::time::Instant::now();
        while start.elapsed() < std::time::Duration::from_millis(2) {}
        benchmark.step(name);
        let total = benchmark.get_total_duration();
        let step = benchmark.get_steps().last().unwrap().duration;
        assert!(step >= 2_000_000);
        assert!(total >= before + step);
        assert!(benchmark.get_steps().iter().all(|s| s.duration <= total));
        before = total;
    }
    assert_eq!(benchmark.get_total_duration(), before);
}

#[test]
fn recorded_step_takes_the_time_since_the_last_mark() {
    let mut benchmark = Benchmark::now();
    let start = benchmark.get_total_duration();
    benchmark.record("load", start + 500);
    assert_eq!(benchmark.get_steps()[0].name, "load");
    assert_eq!(benchmark.get_steps()[0].duration, 500);
    assert_eq!(benchmark.get_total_duration(), start + 500);
    benchmark.resume(start + 620);
    assert_eq!(benchmark.get_total_duration(), start + 620);
    benchmark.record("trace", start + 1620);
    assert_eq!(benchmark.get_steps()[1].duration, 1000);
    assert_eq!(benchmark.get_total_duration(), start + 1620);
    assert_eq!(benchmark.get_steps().len(), 2);
}

#[test]
fn reading_before_the_mark_takes_no_time() {
    let mut benchmark = Benchmark::now();
    let start = benchmark.get_total_duration();
    benchmark.resume(start + 1000);
    benchmark.record("early", start + 400);
    assert_eq!(benchmark.get_steps()[0].duration, 0);
    assert_eq!(benchmark.get_total_duration(), start + 1000);
    benchmark.resume(start + 10);
    assert_eq!(benchmark.get_total_duration(), start + 1000);
}
