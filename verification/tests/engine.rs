use std::cell::Cell;

use crawl_ins::engine::{
    execute, partition, run, AdapterError, EngineError, ErrorLog, ExecOutcome, FailureKind,
    ResultSet,
};
use crawl_ins::utils::group_by_range;

fn entries(names: &[&str]) -> Vec<String> {
    names.iter().map(|s| s.to_string()).collect()
}

#[test]
fn test_group_by_range() {
    let range = 5;
    let v = (0..10).collect::<Vec<_>>();
    // [[0, 1, 2, 3, 4], [5, 6, 7, 8, 9]]
    println!("{:?}", group_by_range(v, range))
}

#[test]
fn group_by_range_exact_groups() {
    let v = (0..10).collect::<Vec<i32>>();
    let g = group_by_range(v, 5);
    assert_eq!(g, vec![vec![0, 1, 2, 3, 4], vec![5, 6, 7, 8, 9]]);
}

#[test]
fn partition_counts_and_sizes() {
    let g = partition((0..10).collect::<Vec<i32>>(), 3).unwrap();
    assert_eq!(g.len(), 4);
    assert_eq!(g[0].len(), 3);
    assert_eq!(g[1].len(), 3);
    assert_eq!(g[2].len(), 3);
    assert_eq!(g[3].len(), 1);
    let flat: Vec<i32> = g.into_iter().flatten().collect();
    assert_eq!(flat, (0..10).collect::<Vec<i32>>());
}

#[test]
fn partition_empty_input() {
    let g = partition(Vec::<i32>::new(), 4).unwrap();
    assert!(g.is_empty());
}

#[test]
fn partition_batch_larger_than_input() {
    let g = partition(vec![1, 2], 10).unwrap();
    assert_eq!(g, vec![vec![1, 2]]);
}

#[test]
fn partition_rejects_zero() {
    let e = partition(vec![1, 2], 0).unwrap_err();
    assert!(matches!(e, EngineError::Configuration(_)));
}

#[test]
fn partition_is_idempotent() {
    let v = entries(&["a", "b", "c", "d", "e"]);
    let g1 = partition(v.clone(), 2).unwrap();
    let g2 = partition(v, 2).unwrap();
    assert_eq!(g1, g2);
}

#[test]
fn partition_five_entries_by_two() {
    let g = partition(entries(&["a", "b", "c", "d", "e"]), 2).unwrap();
    assert_eq!(
        g,
        vec![
            entries(&["a", "b"]),
            entries(&["c", "d"]),
            entries(&["e"]),
        ]
    );
}

#[test]
fn execute_succeeds_first_try() {
    let calls = Cell::new(0u64);
    let adapter = |e: String, _k: u64| -> Result<String, AdapterError> {
        calls.set(calls.get() + 1);
        Ok(format!("record:{}", e))
    };
    let outcome = execute(&"a".to_string(), adapter, 3).unwrap();
    match outcome {
        ExecOutcome::Success { record, attempts } => {
            assert_eq!(record, "record:a");
            assert_eq!(attempts, 1);
        }
        _ => panic!("expected success"),
    }
    assert_eq!(calls.get(), 1);
}

#[test]
fn execute_retries_until_success() {
    // Fails on attempt 1, succeeds on attempt 2: with a budget of at
    // least 2 the entry ends in a record, not a failure.
    let calls = Cell::new(0u64);
    let adapter = |_e: String, k: u64| -> Result<u64, AdapterError> {
        calls.set(calls.get() + 1);
        if k == 1 {
            Err(AdapterError::Transport("first attempt drops".to_string()))
        } else {
            Ok(7)
        }
    };
    let outcome = execute(&"a".to_string(), adapter, 5).unwrap();
    match outcome {
        ExecOutcome::Success { record, attempts } => {
            assert_eq!(record, 7);
            assert_eq!(attempts, 2);
        }
        _ => panic!("expected success"),
    }
    assert_eq!(calls.get(), 2);
}

#[test]
fn execute_exhausts_budget() {
    // An adapter that always fails is invoked exactly `max_attempts`
    // times, and the entry is routed to a failure record.
    let calls = Cell::new(0u64);
    let adapter = |_e: String, _k: u64| -> Result<u64, AdapterError> {
        calls.set(calls.get() + 1);
        Err(AdapterError::StructuralParse("no fields".to_string()))
    };
    let outcome = execute(&"a".to_string(), adapter, 4).unwrap();
    match outcome {
        ExecOutcome::Exhausted { failure, attempts } => {
            assert_eq!(attempts, 4);
            assert_eq!(failure.entry, "a");
            assert_eq!(failure.kind, FailureKind::StructuralParse);
            assert_eq!(failure.message, "no fields");
        }
        _ => panic!("expected exhaustion"),
    }
    assert_eq!(calls.get(), 4);
}

#[test]
fn execute_single_attempt_budget() {
    let adapter = |_e: String, _k: u64| -> Result<u64, AdapterError> {
        Err(AdapterError::Transport("down".to_string()))
    };
    let outcome = execute(&"a".to_string(), adapter, 1).unwrap();
    assert!(matches!(outcome, ExecOutcome::Exhausted { attempts: 1, .. }));
}

#[test]
fn execute_fails_fast_on_encoding_error() {
    let calls = Cell::new(0u64);
    let adapter = |_e: String, _k: u64| -> Result<u64, AdapterError> {
        calls.set(calls.get() + 1);
        Err(AdapterError::IdentifierEncoding("bad target".to_string()))
    };
    let e = execute(&"a".to_string(), adapter, 5).unwrap_err();
    match e {
        EngineError::IdentifierEncoding { entry, message } => {
            assert_eq!(entry, "a");
            assert_eq!(message, "bad target");
        }
        _ => panic!("expected an encoding failure"),
    }
    assert_eq!(calls.get(), 1);
}

#[test]
fn run_isolates_the_failing_entry() {
    // Five entries, batches of two, an adapter that fails permanently
    // only for "c": everything else is collected, and the log holds
    // exactly one record, for "c".
    let adapter = |e: String, _k: u64| -> Result<String, AdapterError> {
        if e == "c" {
            Err(AdapterError::Transport("connection refused".to_string()))
        } else {
            Ok(format!("page:{}", e))
        }
    };
    let mut log = ErrorLog::new();
    let rs = run(entries(&["a", "b", "c", "d", "e"]), adapter, 2, 3, &mut log).unwrap();
    let mut got: Vec<String> = rs.snapshot().iter().map(|p| p.0.clone()).collect();
    got.sort();
    assert_eq!(got, entries(&["a", "b", "d", "e"]));
    assert_eq!(log.len(), 1);
    assert_eq!(log.records()[0].entry, "c");
    assert_eq!(rs.len() + log.len(), 5);
}

#[test]
fn run_accounts_for_every_entry() {
    // Even entries succeed, odd ones exhaust their budget: the two sides
    // together account for each of the ten entries exactly once.
    let names: Vec<String> = (0..10).map(|i| format!("e{}", i)).collect();
    let adapter = |e: String, _k: u64| -> Result<String, AdapterError> {
        let n: u32 = e[1..].parse().unwrap();
        if n % 2 == 0 {
            Ok(e)
        } else {
            Err(AdapterError::Transport("flaky".to_string()))
        }
    };
    let mut log = ErrorLog::new();
    let rs = run(names.clone(), adapter, 3, 2, &mut log).unwrap();
    assert_eq!(rs.len(), 5);
    assert_eq!(log.len(), 5);
    let mut seen: Vec<String> = rs.snapshot().iter().map(|p| p.0.clone()).collect();
    seen.extend(log.records().iter().map(|f| f.entry.clone()));
    seen.sort();
    let mut expected = names;
    expected.sort();
    assert_eq!(seen, expected);
}

#[test]
fn run_retries_transient_failures() {
    // The adapter fails on attempt 1 and succeeds on attempt 2 for every
    // entry: with a budget of two, every entry ends in the result set.
    let adapter = |e: String, k: u64| -> Result<String, AdapterError> {
        if k == 1 {
            Err(AdapterError::Transport("first attempt drops".to_string()))
        } else {
            Ok(e)
        }
    };
    let mut log = ErrorLog::new();
    let rs = run(entries(&["a", "b", "c"]), adapter, 2, 2, &mut log).unwrap();
    assert_eq!(rs.len(), 3);
    assert_eq!(log.len(), 0);
}

#[test]
fn run_rejects_zero_batch_size() {
    let adapter = |e: String, _k: u64| -> Result<String, AdapterError> { Ok(e) };
    let mut log = ErrorLog::new();
    let e = run(entries(&["a"]), adapter, 0, 1, &mut log).unwrap_err();
    assert!(matches!(e, EngineError::Configuration(_)));
}

#[test]
fn run_surfaces_encoding_errors() {
    let adapter = |e: String, _k: u64| -> Result<String, AdapterError> {
        if e == "b" {
            Err(AdapterError::IdentifierEncoding("not encodable".to_string()))
        } else {
            Ok(e)
        }
    };
    let mut log = ErrorLog::new();
    let e = run(entries(&["a", "b", "c"]), adapter, 2, 3, &mut log).unwrap_err();
    match e {
        EngineError::IdentifierEncoding { entry, message } => {
            assert_eq!(entry, "b");
            assert_eq!(message, "not encodable");
        }
        _ => panic!("expected an encoding failure"),
    }
}

#[test]
fn error_log_accumulates_across_runs() {
    // Two runs against the same backing log: the second run appends
    // after the first run's records instead of overwriting them.
    let adapter = |_e: String, _k: u64| -> Result<String, AdapterError> {
        Err(AdapterError::Transport("always down".to_string()))
    };
    let mut log = ErrorLog::new();
    run(entries(&["a", "b"]), adapter, 2, 1, &mut log).unwrap();
    assert_eq!(log.len(), 2);
    run(entries(&["c"]), adapter, 2, 1, &mut log).unwrap();
    assert_eq!(log.len(), 3);
    let logged: Vec<String> = log.records().iter().map(|f| f.entry.clone()).collect();
    assert_eq!(logged, entries(&["a", "b", "c"]));
}

#[test]
fn result_set_append_and_snapshot() {
    let mut rs: ResultSet<u32> = ResultSet::new();
    assert_eq!(rs.len(), 0);
    rs.append("a".to_string(), 1);
    rs.append("b".to_string(), 2);
    assert_eq!(rs.len(), 2);
    assert_eq!(rs.snapshot()[0], ("a".to_string(), 1));
    assert_eq!(rs.snapshot()[1], ("b".to_string(), 2));
}

#[test]
fn error_log_append_preserves_order() {
    let mut log = ErrorLog::new();
    let adapter = |_e: String, _k: u64| -> Result<u32, AdapterError> {
        Err(AdapterError::StructuralParse("empty page".to_string()))
    };
    match execute(&"x".to_string(), adapter, 2).unwrap() {
        ExecOutcome::Exhausted { failure, .. } => log.append(failure),
        _ => panic!("expected exhaustion"),
    }
    assert_eq!(log.len(), 1);
    assert_eq!(log.records()[0].kind, FailureKind::StructuralParse);
    assert_eq!(log.records()[0].message, "empty page");
}

#[test]
fn partition_batch_size_one() {
    let g = partition(vec![1, 2, 3], 1).unwrap();
    assert_eq!(g, vec![vec![1], vec![2], vec![3]]);
}

#[test]
fn run_accounts_for_duplicate_entries() {
    // Entry uniqueness is not required: each occurrence resolves on its
    // own and is accounted for separately.
    let adapter = |e: String, _k: u64| -> Result<String, AdapterError> { Ok(e) };
    let mut log = ErrorLog::new();
    let rs = run(entries(&["a", "a", "b"]), adapter, 2, 1, &mut log).unwrap();
    assert_eq!(rs.len(), 3);
    assert_eq!(log.len(), 0);
}
