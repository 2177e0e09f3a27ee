use periodic_commands::config::schema::{Target, TargetCommand};
use periodic_commands::extract::{capture, ExtractError};
use periodic_commands::labels::same_label_set;
use periodic_commands::metrics::{Entry, Sample, TargetMetrics};
use periodic_commands::scheduler::TimerTable;
use periodic_commands::shell_commands::Outcome;

fn set(pairs: &[(&str, &str)]) -> Vec<(String, String)> {
    pairs.iter().map(|(n, v)| (n.to_string(), v.to_string())).collect()
}

fn value_of(store: &TargetMetrics, labels: &[(&str, &str)]) -> Option<f64> {
    store.get(&set(labels)).map(|sample| f64::from_bits(sample.value_bits))
}

#[test]
fn a_new_store_is_empty() {
    let store = TargetMetrics::new();
    assert_eq!(store.snapshot(), vec![]);
    assert_eq!(store.get(&set(&[("name", "t")])), None);
}

#[test]
fn last_write_wins() {
    let mut store = TargetMetrics::new();
    let labels = set(&[("name", "t"), ("exit_code", "0")]);
    store.record(labels.clone(), 1.0f64.to_bits(), 10);
    store.record(labels.clone(), 2.0f64.to_bits(), 20);
    let snapshot = store.snapshot();
    assert_eq!(
        snapshot,
        vec![Entry {
            labels: labels.clone(),
            sample: Sample { value_bits: 2.0f64.to_bits(), duration_ms: 20 }
        }]
    );
    assert_eq!(f64::from_bits(snapshot[0].sample.value_bits), 2.0);
    // A repeated write changes nothing.
    store.record(labels, 2.0f64.to_bits(), 20);
    assert_eq!(store.snapshot(), snapshot);
}

#[test]
fn label_sets_are_keys_whatever_their_order() {
    let mut store = TargetMetrics::new();
    store.record(set(&[("name", "t"), ("exit_code", "0")]), 1.0f64.to_bits(), 1);
    store.record(set(&[("exit_code", "0"), ("name", "t")]), 3.0f64.to_bits(), 2);
    assert_eq!(store.snapshot().len(), 1);
    assert_eq!(value_of(&store, &[("name", "t"), ("exit_code", "0")]), Some(3.0));
    assert_eq!(
        store.get(&set(&[("exit_code", "0"), ("name", "t")])),
        Some(Sample { value_bits: 3.0f64.to_bits(), duration_ms: 2 })
    );
}

#[test]
fn writes_to_distinct_label_sets_do_not_disturb_each_other() {
    // Three writers, each with its own label set; their writes reach the
    // store in every interleaving that keeps each writer's own order.
    let writers: Vec<Vec<f64>> = vec![vec![1.0, 2.0], vec![10.0], vec![100.0, 200.0, 300.0]];
    let orders: Vec<Vec<usize>> = vec![
        vec![0, 0, 1, 2, 2, 2],
        vec![2, 2, 2, 1, 0, 0],
        vec![0, 2, 1, 2, 0, 2],
        vec![2, 0, 2, 0, 2, 1],
        vec![1, 2, 0, 2, 0, 2],
    ];
    for order in orders {
        let mut store = TargetMetrics::new();
        let mut next = vec![0usize; writers.len()];
        for writer in order {
            let value = writers[writer][next[writer]];
            next[writer] += 1;
            let name = format!("w{}", writer);
            store.record(set(&[("name", &name)]), value.to_bits(), value as i64);
        }
        assert_eq!(store.snapshot().len(), 3);
        assert_eq!(value_of(&store, &[("name", "w0")]), Some(2.0));
        assert_eq!(value_of(&store, &[("name", "w1")]), Some(10.0));
        assert_eq!(value_of(&store, &[("name", "w2")]), Some(300.0));
        assert_eq!(store.get(&set(&[("name", "w2")])).unwrap().duration_ms, 300);
    }
}

#[test]
fn snapshot_holds_every_label_set_once() {
    let mut store = TargetMetrics::new();
    for round in 0..3 {
        for i in 0..20 {
            let name = format!("target{}", i);
            store.record(set(&[("name", &name)]), (i + round) as u64, round as i64);
        }
    }
    let snapshot = store.snapshot();
    assert_eq!(snapshot.len(), 20);
    for (i, a) in snapshot.iter().enumerate() {
        assert_eq!(a.sample.duration_ms, 2);
        for b in &snapshot[i + 1..] {
            assert!(!same_label_set(&a.labels, &b.labels));
        }
    }
}

#[test]
fn update_result_writes_an_observation() {
    let target = Target {
        name: "t".to_string(),
        commands: vec![],
        regex: "v=(?<v>[0-9.]+) on (?<host>\\w+)".to_string(),
        regex_named_group: "v".to_string(),
        success_exit_codes: vec![0],
        run_every: 1,
    };
    let command = TargetCommand {
        command: "probe".to_string(),
        labels: vec![("host".to_string(), "{host}.lan".to_string())],
    };
    let outcome = Outcome::Completed {
        stdout: b"v=1.25 on alpha\n".to_vec(),
        exit_code: 2,
        duration: 7_000_000,
    };
    let captured = capture(&target, &outcome).unwrap();
    let mut store = TargetMetrics::new();
    let parsed = captured.value_text.parse::<f64>().ok().map(f64::to_bits);
    assert_eq!(store.update_result(&target, &command, &outcome, parsed), Ok(()));
    assert_eq!(
        store.snapshot(),
        vec![Entry {
            labels: set(&[("name", "t"), ("exit_code", "2"), ("host", "alpha.lan")]),
            sample: Sample { value_bits: 1.25f64.to_bits(), duration_ms: 7 },
        }]
    );
}

#[test]
fn update_result_leaves_the_store_alone_when_it_fails() {
    let target = Target {
        name: "t".to_string(),
        commands: vec![],
        regex: "v=(?<v>\\w+)".to_string(),
        regex_named_group: "v".to_string(),
        success_exit_codes: vec![0],
        run_every: 1,
    };
    let command = TargetCommand { command: "probe".to_string(), labels: vec![] };
    let mut store = TargetMetrics::new();
    store.record(set(&[("name", "t"), ("exit_code", "0")]), 1.0f64.to_bits(), 1);
    let before = store.snapshot();
    let outcome = Outcome::Completed { stdout: b"v=oops".to_vec(), exit_code: 0, duration: 0 };
    let captured = capture(&target, &outcome).unwrap();
    assert_eq!(captured.value_text, "oops");
    let result = store.update_result(&target, &command, &outcome, None);
    assert!(matches!(result, Err(ExtractError::NonNumeric(_))));
    let not_a_number = Some(f64::NAN.to_bits());
    let result = store.update_result(&target, &command, &outcome, not_a_number);
    assert!(matches!(result, Err(ExtractError::NonNumeric(_))));
    let one = Some(1.0f64.to_bits());
    let result = store.update_result(&target, &command, &Outcome::LaunchFailed, one);
    assert_eq!(result, Err(ExtractError::LaunchFailure));
    let silent = Outcome::Completed { stdout: b"nothing".to_vec(), exit_code: 0, duration: 0 };
    assert_eq!(store.update_result(&target, &command, &silent, one), Err(ExtractError::NoCapture));
    let mut broken = target.clone();
    broken.regex = "v=(?<v".to_string();
    let result = store.update_result(&broken, &command, &outcome, one);
    assert!(matches!(result, Err(ExtractError::InvalidPattern(_))));
    assert_eq!(store.snapshot(), before);
}

#[test]
fn end_to_end_disk_free() {
    let target = Target {
        name: "disk_free".to_string(),
        commands: vec![TargetCommand { command: "echo free=83.2".to_string(), labels: vec![] }],
        regex: "free=(?<free>[0-9.]+)".to_string(),
        regex_named_group: "free".to_string(),
        success_exit_codes: vec![0],
        run_every: 5_000_000_000,
    };
    let mut table = TimerTable::new(vec![target.run_every]);
    let mut store = TargetMetrics::new();
    // The first cycle: wait one interval, then run the target.
    let due = table.advance().unwrap();
    assert_eq!(due.index, 0);
    assert_eq!(due.wait, 5_000_000_000);
    for command in &target.commands {
        let outcome =
            Outcome::Completed { stdout: b"free=83.2\n".to_vec(), exit_code: 0, duration: 2_000_000 };
        let captured = capture(&target, &outcome).unwrap();
        let parsed = captured.value_text.parse::<f64>().ok().map(f64::to_bits);
        store.update_result(&target, command, &outcome, parsed).unwrap();
    }
    // Within one interval after the first run the snapshot has the value.
    assert_eq!(table.next_due().unwrap().wait, 5_000_000_000);
    let snapshot = store.snapshot();
    assert_eq!(snapshot.len(), 1);
    assert!(same_label_set(&snapshot[0].labels, &set(&[("name", "disk_free"), ("exit_code", "0")])));
    assert_eq!(f64::from_bits(snapshot[0].sample.value_bits), 83.2);
    assert_eq!(snapshot[0].sample.duration_ms, 2);
}
