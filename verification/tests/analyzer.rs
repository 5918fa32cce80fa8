use bee::analyzer::{
    analyze_mem, usage_line, used_percent_text, Analysis, AnalyzeError, UsageReport,
};
use bee::binary64::Binary64;
use bee::snapshot::MemorySnapshot;

fn double(x: f64) -> Binary64 {
    Binary64::from_bits(x.to_bits())
}

fn snapshot(total_kb: u64, free_kb: u64, available_kb: u64) -> MemorySnapshot {
    MemorySnapshot { total_kb, free_kb, available_kb }
}

fn percent_of(a: &Analysis) -> f64 {
    f64::from_bits(a.report.unwrap().used_percent.to_bits())
}

#[test]
fn used_percent_is_used_over_total_times_hundred() {
    let a = analyze_mem(&snapshot(1000000, 200000, 500000), double(70.0), false).unwrap();
    assert_eq!(a.report.unwrap().used_kb, 500000);
    assert_eq!(percent_of(&a), 50.0);
    for (total, available) in [(3u64, 1u64), (7, 2), (1000, 1), (8589934, 655360), (u64::MAX, 1)] {
        let a = analyze_mem(&snapshot(total, 0, available), double(70.0), true).unwrap();
        let used = total - available;
        let exact = (used as f64 / total as f64) * 100.0;
        assert_eq!(a.report.unwrap().used_kb, used);
        assert_eq!(percent_of(&a).to_bits(), exact.to_bits());
        let ideal = used as f64 * 100.0 / total as f64;
        assert!((percent_of(&a) - ideal).abs() <= ideal * 1e-15);
    }
}

#[test]
fn nothing_is_computed_for_a_total_of_zero() {
    let none = Analysis { report: None, breach: false, escalate: false };
    assert_eq!(analyze_mem(&snapshot(0, 0, 0), double(70.0), true), Ok(none));
    assert_eq!(analyze_mem(&snapshot(0, 0, 0), double(0.0), true), Ok(none));
    assert_eq!(analyze_mem(&snapshot(0, 0, 0), double(-1.0), false), Ok(none));
    assert_eq!(analyze_mem(&snapshot(0, 5, 9), double(0.0), true), Ok(none));
    assert_eq!(used_percent_text(&snapshot(0, 0, 0)), None);
    assert_eq!(usage_line(&snapshot(0, 0, 0)), None);
}

#[test]
fn unsupported_snapshot_never_escalates() {
    let s = MemorySnapshot::unsupported();
    for t in [f64::NEG_INFINITY, -1.0, 0.0, 70.0, f64::NAN] {
        let a = analyze_mem(&s, double(t), true).unwrap();
        assert_eq!(a.report, None);
        assert!(!a.breach && !a.escalate);
    }
}

#[test]
fn more_available_than_total_is_refused() {
    assert_eq!(
        analyze_mem(&snapshot(10, 0, 11), double(70.0), true),
        Err(AnalyzeError::AvailableExceedsTotal)
    );
    assert_eq!(used_percent_text(&snapshot(10, 0, 11)), None);
    assert_eq!(usage_line(&snapshot(10, 0, 11)), None);
}

#[test]
fn threshold_is_inclusive() {
    let at_threshold = analyze_mem(&snapshot(100, 0, 30), double(70.0), true).unwrap();
    assert_eq!(percent_of(&at_threshold), 70.0);
    assert!(at_threshold.breach && at_threshold.escalate);

    let just_below = analyze_mem(&snapshot(100000, 0, 30001), double(70.0), true).unwrap();
    assert_eq!(percent_of(&just_below), 69.999);
    assert!(!just_below.breach && !just_below.escalate);

    let above = analyze_mem(&snapshot(100000, 0, 29999), double(70.0), true).unwrap();
    assert!(above.breach && above.escalate);

    let equal = analyze_mem(&snapshot(100000, 0, 30001), double(69.999), true).unwrap();
    assert!(equal.breach);
}

#[test]
fn breach_escalates_only_in_verbose_mode() {
    let quiet = analyze_mem(&snapshot(100, 0, 10), double(70.0), false).unwrap();
    assert!(quiet.breach);
    assert!(!quiet.escalate);
    let verbose = analyze_mem(&snapshot(100, 0, 10), double(70.0), true).unwrap();
    assert!(verbose.breach && verbose.escalate);
}

#[test]
fn threshold_that_is_not_a_number_is_never_reached() {
    let a = analyze_mem(&snapshot(100, 0, 0), double(f64::NAN), true).unwrap();
    assert_eq!(percent_of(&a), 100.0);
    assert!(!a.breach && !a.escalate);
    let b = analyze_mem(&snapshot(100, 0, 100), double(-5.0), true).unwrap();
    assert!(b.breach);
    let c = analyze_mem(&snapshot(100, 0, 0), double(f64::INFINITY), true).unwrap();
    assert!(!c.breach);
}

#[test]
fn analysis_agrees_with_hardware_comparison() {
    for total in [1u64, 3, 7, 100, 1000, 4096, 1 << 40] {
        for step in 0..=20u64 {
            let available = total / 20 * step;
            if available > total {
                continue;
            }
            for t in [0.0f64, 33.3, 50.0, 57.0, 70.0, 99.99, 100.0, 100.1] {
                let a = analyze_mem(&snapshot(total, 0, available), double(t), true).unwrap();
                let p = ((total - available) as f64 / total as f64) * 100.0;
                assert_eq!(a.breach, p >= t);
                assert_eq!(
                    a.report,
                    Some(UsageReport { used_kb: total - available, used_percent: double(p) })
                );
            }
        }
    }
}

#[test]
fn percent_text_has_two_decimals() {
    assert_eq!(used_percent_text(&snapshot(100, 0, 30)).unwrap(), "70.00");
    assert_eq!(used_percent_text(&snapshot(100000, 0, 30001)).unwrap(), "70.00");
    assert_eq!(used_percent_text(&snapshot(3, 0, 2)).unwrap(), "33.33");
    assert_eq!(used_percent_text(&snapshot(3, 0, 1)).unwrap(), "66.67");
    assert_eq!(used_percent_text(&snapshot(5, 0, 5)).unwrap(), "0.00");
    assert_eq!(used_percent_text(&snapshot(5, 0, 0)).unwrap(), "100.00");
}

#[test]
fn usage_line_lists_counters_and_percentage() {
    assert_eq!(
        usage_line(&snapshot(1000000, 200000, 500000)).unwrap(),
        "Total: 1000000 KB, Free: 200000 KB, Available: 500000 KB, Used: 500000 KB, Used%: 50.00%"
    );
    let s = snapshot(8589934, 409600, 655360);
    let used = 8589934u64 - 655360;
    let p = (used as f64 / 8589934f64) * 100.0;
    assert_eq!(
        usage_line(&s).unwrap(),
        format!(
            "Total: {} KB, Free: {} KB, Available: {} KB, Used: {} KB, Used%: {:.2}%",
            s.total_kb, s.free_kb, s.available_kb, used, p
        )
    );
}
