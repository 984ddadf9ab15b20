use process_monitor::census::{take_census, ProcessRecord};
use process_monitor::evaluate_cycle;
use process_monitor::message::{notification_text, notification_texts, u64_to_string};
use process_monitor::model::{Discrepancy, ObservedCounts, ProcessExpectation, ProcessSpecification};
use process_monitor::parse::{parse_specification, ParseError};
use process_monitor::reconcile::reconcile;
use process_monitor::schedule::remaining_wait;

fn spec_of(text: &str) -> ProcessSpecification {
    match parse_specification(text) {
        Ok(sp) => sp,
        Err(e) => panic!("specification rejected: {:?}", e),
    }
}

fn counts(entries: Vec<(&str, u64)>) -> ObservedCounts {
    ObservedCounts {
        entries: entries.into_iter().map(|(n, c)| (n.to_string(), c)).collect(),
    }
}

fn record(name: &str, running: bool) -> ProcessRecord {
    ProcessRecord { name: name.to_string(), running }
}

// ---- parsing ----

#[test]
fn parse_single_entry() {
    let sp = spec_of("process:\n  - name: worker\n    count: 3\n");
    assert_eq!(sp.entries.len(), 1);
    assert_eq!(sp.entries[0].name, "worker");
    assert_eq!(sp.entries[0].count, 3);
}

#[test]
fn parse_keeps_declared_order() {
    let sp = spec_of("process:\n  - name: worker\n    count: 2\n  - name: cache\n    count: 1\n");
    assert_eq!(sp.entries.len(), 2);
    assert_eq!(sp.entries[0].name, "worker");
    assert_eq!(sp.entries[0].count, 2);
    assert_eq!(sp.entries[1].name, "cache");
    assert_eq!(sp.entries[1].count, 1);
}

#[test]
fn parse_empty_specification_is_not_an_error() {
    let sp = spec_of("process:\n");
    assert_eq!(sp.entries.len(), 0);
    let sp = spec_of("process:");
    assert_eq!(sp.entries.len(), 0);
}

#[test]
fn parse_tolerates_blank_lines() {
    let sp = spec_of("\n\nprocess:\n\n  - name: worker\n    count: 3\n\n");
    assert_eq!(sp.entries.len(), 1);
    assert_eq!(sp.entries[0].name, "worker");
}

#[test]
fn parse_name_taken_verbatim() {
    let sp = spec_of("process:\n  - name: my worker\n    count: 1\n");
    assert_eq!(sp.entries[0].name, "my worker");
}

#[test]
fn parse_count_bounds() {
    let sp = spec_of("process:\n  - name: w\n    count: 65535\n");
    assert_eq!(sp.entries[0].count, 65535);
    let sp = spec_of("process:\n  - name: w\n    count: 0\n");
    assert_eq!(sp.entries[0].count, 0);
}

#[test]
fn parse_missing_header() {
    assert!(matches!(parse_specification(""), Err(ParseError::MissingHeader)));
    assert!(matches!(parse_specification("\n\n"), Err(ParseError::MissingHeader)));
    assert!(matches!(parse_specification("processes:\n"), Err(ParseError::MissingHeader)));
    assert!(matches!(
        parse_specification("  - name: worker\n    count: 3\n"),
        Err(ParseError::MissingHeader)
    ));
}

#[test]
fn parse_expected_name() {
    assert!(matches!(
        parse_specification("process:\n    count: 3\n"),
        Err(ParseError::ExpectedName)
    ));
    assert!(matches!(
        parse_specification("process:\n  - name: \n    count: 3\n"),
        Err(ParseError::ExpectedName)
    ));
}

#[test]
fn parse_missing_count() {
    assert!(matches!(
        parse_specification("process:\n  - name: worker\n"),
        Err(ParseError::MissingCount)
    ));
    assert!(matches!(
        parse_specification("process:\n  - name: worker\n  - name: cache\n    count: 1\n"),
        Err(ParseError::MissingCount)
    ));
}

#[test]
fn parse_invalid_count() {
    assert!(matches!(
        parse_specification("process:\n  - name: worker\n    count: abc\n"),
        Err(ParseError::InvalidCount)
    ));
    assert!(matches!(
        parse_specification("process:\n  - name: worker\n    count: \n"),
        Err(ParseError::InvalidCount)
    ));
    assert!(matches!(
        parse_specification("process:\n  - name: worker\n    count: 65536\n"),
        Err(ParseError::InvalidCount)
    ));
    assert!(matches!(
        parse_specification("process:\n  - name: worker\n    count: 99999999999999999999\n"),
        Err(ParseError::InvalidCount)
    ));
    assert!(matches!(
        parse_specification("process:\n  - name: worker\n    count: 3x\n"),
        Err(ParseError::InvalidCount)
    ));
}

#[test]
fn parse_entry_lines_must_be_adjacent() {
    assert!(matches!(
        parse_specification("process:\n  - name: worker\n\n    count: 1\n"),
        Err(ParseError::MissingCount)
    ));
}

#[test]
fn parse_header_must_be_exact() {
    assert!(matches!(parse_specification("process: \n"), Err(ParseError::MissingHeader)));
    assert!(matches!(parse_specification("Process:\n"), Err(ParseError::MissingHeader)));
}

#[test]
fn parse_duplicate_name() {
    assert!(matches!(
        parse_specification(
            "process:\n  - name: worker\n    count: 3\n  - name: worker\n    count: 1\n"
        ),
        Err(ParseError::DuplicateName)
    ));
}

// ---- census ----

#[test]
fn census_counts_running_by_exact_name() {
    let procs = vec![
        record("worker", true),
        record("worker", true),
        record("worker", false),
        record("workers", true),
        record("cache", true),
    ];
    let c = take_census(&procs);
    assert_eq!(c.get(&"worker".to_string()), 2);
    assert_eq!(c.get(&"workers".to_string()), 1);
    assert_eq!(c.get(&"cache".to_string()), 1);
    assert_eq!(c.get(&"absent".to_string()), 0);
}

#[test]
fn census_of_empty_snapshot_is_empty() {
    let c = take_census(&Vec::new());
    assert_eq!(c.entries.len(), 0);
    assert_eq!(c.get(&"worker".to_string()), 0);
}

// ---- reconciliation scenarios ----

#[test]
fn matched_counts_yield_no_discrepancy() {
    let sp = spec_of("process:\n  - name: worker\n    count: 3\n");
    let ds = reconcile(&sp, &counts(vec![("worker", 3)]));
    assert_eq!(ds.len(), 0);
}

#[test]
fn undercount_yields_one_discrepancy() {
    let sp = spec_of("process:\n  - name: worker\n    count: 3\n");
    let ds = reconcile(&sp, &counts(vec![("worker", 1)]));
    assert_eq!(ds.len(), 1);
    assert_eq!(ds[0].name, "worker");
    assert_eq!(ds[0].expected, 3);
    assert_eq!(ds[0].observed, 1);
    let texts = notification_texts(&ds);
    assert_eq!(texts.len(), 1);
    assert_eq!(texts[0], "worker: 3 not matched [1]");
}

#[test]
fn empty_census_reports_every_expected_process() {
    let sp = spec_of("process:\n  - name: worker\n    count: 2\n  - name: cache\n    count: 1\n");
    let ds = reconcile(&sp, &counts(vec![]));
    assert_eq!(ds.len(), 2);
    assert_eq!(ds[0].name, "worker");
    assert_eq!(ds[0].expected, 2);
    assert_eq!(ds[0].observed, 0);
    assert_eq!(ds[1].name, "cache");
    assert_eq!(ds[1].expected, 1);
    assert_eq!(ds[1].observed, 0);
    // one message per discrepancy, so a failed send of the first
    // leaves the second to be attempted on its own
    let texts = notification_texts(&ds);
    assert_eq!(texts.len(), 2);
    assert_eq!(texts[0], "worker: 2 not matched [0]");
    assert_eq!(texts[1], "cache: 1 not matched [0]");
}

#[test]
fn malformed_specification_aborts_cycle() {
    let procs = vec![record("worker", true)];
    let r = evaluate_cycle("process\n  - worker\n", &procs);
    assert!(matches!(r, Err(ParseError::MissingHeader)));
    let r = evaluate_cycle("process:\n  - name: worker\n    count: three\n", &procs);
    assert!(matches!(r, Err(ParseError::InvalidCount)));
}

#[test]
fn overcount_is_reported_too() {
    let sp = spec_of("process:\n  - name: worker\n    count: 1\n");
    let ds = reconcile(&sp, &counts(vec![("worker", 4)]));
    assert_eq!(ds.len(), 1);
    assert_eq!(ds[0].observed, 4);
}

#[test]
fn names_absent_from_specification_are_never_reported() {
    let sp = spec_of("process:\n  - name: worker\n    count: 1\n");
    let ds = reconcile(&sp, &counts(vec![("worker", 1), ("stranger", 7)]));
    assert_eq!(ds.len(), 0);
}

#[test]
fn expecting_zero_of_an_absent_process_matches() {
    let sp = spec_of("process:\n  - name: gone\n    count: 0\n");
    let ds = reconcile(&sp, &counts(vec![]));
    assert_eq!(ds.len(), 0);
}

#[test]
fn reconcile_is_deterministic() {
    let sp = spec_of("process:\n  - name: a\n    count: 1\n  - name: b\n    count: 2\n");
    let o = counts(vec![("a", 5)]);
    let d1 = reconcile(&sp, &o);
    let d2 = reconcile(&sp, &o);
    assert_eq!(d1.len(), d2.len());
    for (x, y) in d1.iter().zip(d2.iter()) {
        assert_eq!(x.name, y.name);
        assert_eq!(x.expected, y.expected);
        assert_eq!(x.observed, y.observed);
    }
}

#[test]
fn first_matching_census_entry_wins() {
    // ObservedCounts built by take_census never repeats a name; when
    // one is built by hand with a repeat, the first entry is read.
    let sp = spec_of("process:\n  - name: worker\n    count: 9\n");
    let o = counts(vec![("worker", 9), ("worker", 1)]);
    let ds = reconcile(&sp, &o);
    assert_eq!(ds.len(), 0);
}

// ---- a full pass over a snapshot ----

#[test]
fn full_cycle_from_text_and_snapshot() {
    let text = "process:\n  - name: worker\n    count: 3\n  - name: cache\n    count: 1\n";
    let procs = vec![
        record("worker", true),
        record("worker", false),
        record("cache", true),
        record("other", true),
    ];
    let ds = evaluate_cycle(text, &procs).unwrap();
    assert_eq!(ds.len(), 1);
    assert_eq!(ds[0].name, "worker");
    assert_eq!(ds[0].expected, 3);
    assert_eq!(ds[0].observed, 1);
}

// ---- messages ----

#[test]
fn message_shape_is_fixed() {
    let d = Discrepancy { name: "worker".to_string(), expected: 3, observed: 1 };
    assert_eq!(notification_text(&d), "worker: 3 not matched [1]");
    let d = Discrepancy { name: "cache".to_string(), expected: 120, observed: 0 };
    assert_eq!(notification_text(&d), "cache: 120 not matched [0]");
}

#[test]
fn decimal_rendering() {
    assert_eq!(u64_to_string(0), "0");
    assert_eq!(u64_to_string(7), "7");
    assert_eq!(u64_to_string(10), "10");
    assert_eq!(u64_to_string(120), "120");
    assert_eq!(u64_to_string(65535), "65535");
    assert_eq!(u64_to_string(u64::MAX), "18446744073709551615");
}

// ---- scheduling ----

#[test]
fn remaining_wait_is_the_rest_of_the_interval() {
    assert_eq!(remaining_wait(120_000, 2_000), Some(118_000));
    assert_eq!(remaining_wait(120_000, 120_000), Some(0));
    assert_eq!(remaining_wait(120_000, 0), Some(120_000));
}

#[test]
fn overrun_pass_waits_nothing() {
    assert_eq!(remaining_wait(120_000, 120_001), None);
    assert_eq!(remaining_wait(0, 1), None);
}

// ---- building blocks stay usable directly ----

#[test]
fn specification_can_be_built_by_hand() {
    let sp = ProcessSpecification {
        entries: vec![ProcessExpectation { name: "svc".to_string(), count: 2 }],
    };
    let ds = reconcile(&sp, &counts(vec![("svc", 0)]));
    assert_eq!(ds.len(), 1);
    assert_eq!(ds[0].observed, 0);
}
