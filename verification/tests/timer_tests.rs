use breezy_timer::{BreezyTimer, DisabledTimer, Timer, TimerError};

#[test]
fn check() {
    let mut btimer = BreezyTimer::new();

    let start = cpu_time::ProcessTime::now();
    btimer.start("loop");

    assert!(btimer.contains_key("loop"));
    let mut total: u64 = 0;
    for _ in 0..100 {
        total += std::hint::black_box(1);
    }
    std::hint::black_box(total);
    btimer.stop("loop").unwrap();

    let elapsed_ns = start.elapsed().as_nanos();

    let elapsed_breezy = btimer.elapsed("loop");
    assert!(elapsed_breezy.is_some());
    let elapsed_breezy = elapsed_breezy.unwrap() as u128;

    assert!(elapsed_breezy > 0);
    assert!(elapsed_breezy < elapsed_ns);
}

#[test]
fn sanity_check() {
    let mut btimer = BreezyTimer::new();

    let mut vectors: Vec<Vec<u8>> = Vec::new();

    btimer.start("total");
    for _ in 0..10 {
        btimer.start("allocations");
        let vec: Vec<u8> = (0..102400).map(|_| rand::random::<u8>()).collect();
        vectors.push(vec);
        btimer.stop("allocations").unwrap();

        btimer.start("sum");
        let mut total: u32 = 0;
        for v in vectors.iter() {
            total += v.iter().map(|x| *x as u32).sum::<u32>();
        }
        // used so that the compiler doesn't simply remove the loop because
        // nothing is done with total
        std::hint::black_box(total);
        btimer.stop("sum").unwrap();
    }
    btimer.stop("total").unwrap();
    assert!(btimer.elapsed("allocations").unwrap() < btimer.elapsed("total").unwrap());
    assert!(btimer.elapsed("sum").unwrap() < btimer.elapsed("total").unwrap())
}

#[test]
fn check_no_feature() {
    let mut btimer = DisabledTimer::new();
    btimer.start("loop");
    let mut total: u64 = 0;
    for _ in 0..100 {
        total += 1;
    }
    std::hint::black_box(total);
    btimer.stop("loop").unwrap();
    assert!(btimer.elapsed("loop").is_none());
}

#[test]
fn elapsed_never_started_is_no_data() {
    let mut btimer = BreezyTimer::new();
    assert!(btimer.elapsed("never").is_none());
    btimer.start("other");
    btimer.stop("other").unwrap();
    assert!(btimer.elapsed("never").is_none());
    assert!(!btimer.contains_key("never"));
}

#[test]
fn start_creates_entry_with_zero_total() {
    let mut btimer = BreezyTimer::new();
    btimer.start("x");
    assert_eq!(btimer.elapsed("x"), Some(0));
}

#[test]
fn restart_keeps_accumulated_total() {
    let mut btimer = BreezyTimer::new();
    btimer.start("x");
    btimer.stop("x").unwrap();
    let after_stop = btimer.elapsed("x").unwrap();
    btimer.start("x");
    assert_eq!(btimer.elapsed("x"), Some(after_stop));
}

#[test]
fn elapsed_non_decreasing_over_cycles() {
    let mut btimer = BreezyTimer::new();
    let mut previous: u64 = 0;
    for _ in 0..3 {
        btimer.start("cycle");
        let mut total: u64 = 0;
        for _ in 0..1000 {
            total += std::hint::black_box(1);
        }
        std::hint::black_box(total);
        btimer.stop("cycle").unwrap();
        let now = btimer.elapsed("cycle").unwrap();
        assert!(now >= previous);
        previous = now;
    }
}

#[test]
fn disjoint_labels_do_not_interfere() {
    let mut btimer = BreezyTimer::new();
    btimer.start("b");
    btimer.stop("b").unwrap();
    let b_total = btimer.elapsed("b").unwrap();
    for _ in 0..5 {
        btimer.start("a");
        let mut total: u64 = 0;
        for _ in 0..1000 {
            total += std::hint::black_box(1);
        }
        std::hint::black_box(total);
        btimer.stop("a").unwrap();
    }
    assert_eq!(btimer.elapsed("b"), Some(b_total));
}

#[test]
fn stop_never_started_signals_unknown_timer() {
    let mut btimer = BreezyTimer::new();
    btimer.start("known");
    let result = btimer.stop("never_started");
    assert!(matches!(result, Err(TimerError::UnknownTimer(_))));
    match result {
        Err(e) => assert_eq!(e.label().as_str(), "never_started"),
        Ok(()) => panic!("stop on an unknown label must not succeed"),
    }
    // the misuse left the registry untouched
    assert!(btimer.elapsed("never_started").is_none());
    assert_eq!(btimer.elapsed("known"), Some(0));
}

#[test]
fn disabled_registry_records_nothing() {
    let mut btimer = DisabledTimer::new();
    btimer.start("a");
    btimer.start("b");
    btimer.stop("a").unwrap();
    btimer.stop("missing").unwrap();
    assert!(btimer.elapsed("a").is_none());
    assert!(btimer.elapsed("b").is_none());
    assert!(btimer.elapsed("missing").is_none());
    assert!(btimer.snapshot().is_empty());
}

#[test]
fn snapshot_copies_every_entry() {
    let mut btimer = BreezyTimer::new();
    btimer.start("x");
    btimer.stop("x").unwrap();
    btimer.start("y");
    let x_total = btimer.elapsed("x").unwrap();
    let snap = btimer.snapshot();
    assert_eq!(snap.len(), 2);
    let x_entry = snap.iter().find(|e| e.0 == "x").unwrap();
    assert_eq!(x_entry.1.get_total_elapsed(), x_total);
    let y_entry = snap.iter().find(|e| e.0 == "y").unwrap();
    assert_eq!(y_entry.1.get_total_elapsed(), 0);
}

#[test]
fn snapshot_is_independent_of_later_calls() {
    let mut btimer = BreezyTimer::new();
    btimer.start("x");
    btimer.stop("x").unwrap();
    let snap = btimer.snapshot();
    let recorded = snap[0].1.get_total_elapsed();
    btimer.start("x");
    let mut total: u64 = 0;
    for _ in 0..1000 {
        total += std::hint::black_box(1);
    }
    std::hint::black_box(total);
    btimer.stop("x").unwrap();
    assert_eq!(snap[0].1.get_total_elapsed(), recorded);
}
