use sio2prom::measurement::Measurement;
use sio2prom::measurement::MetricKind;
use sio2prom::registry::ApplyOutcome;
use sio2prom::registry::RegisterOutcome;
use sio2prom::registry::Registry;
use sio2prom::registry::updata_metrics;

fn meas(name: &str, kind: MetricKind, help: &str, labels: &[(&str, &str)], value: i64) -> Measurement {
    Measurement {
        name: String::from(name),
        kind,
        help: String::from(help),
        labels: labels
            .iter()
            .map(|(k, v)| (String::from(*k), String::from(*v)))
            .collect(),
        value,
    }
}

fn labels_of(pairs: &[(&str, &str)]) -> Vec<(String, String)> {
    pairs
        .iter()
        .map(|(k, v)| (String::from(*k), String::from(*v)))
        .collect()
}

#[test]
fn register_is_idempotent() {
    let mut reg = Registry::new();
    let m = meas("req_total", MetricKind::Counter, "requests", &[("method", "GET")], 0);
    let o1 = reg.register(&vec![meas(
        "req_total",
        MetricKind::Counter,
        "requests",
        &[("method", "GET")],
        0,
    )]);
    assert_eq!(o1, vec![RegisterOutcome::Created]);
    let o2 = reg.register(&vec![m]);
    assert_eq!(o2, vec![RegisterOutcome::AlreadyRegistered]);
    assert_eq!(reg.counter_names().len(), 1);
    assert_eq!(reg.counter_names()[0], "req_total");
    assert_eq!(reg.gauge_names().len(), 0);
}

#[test]
fn same_name_other_kind_is_not_re_registered() {
    let mut reg = Registry::new();
    reg.register(&vec![meas("x_total", MetricKind::Counter, "h", &[], 0)]);
    let o = reg.register(&vec![meas("x_total", MetricKind::Gauge, "h", &[], 0)]);
    assert_eq!(o, vec![RegisterOutcome::AlreadyRegistered]);
    assert_eq!(reg.gauge_names().len(), 0);
}

#[test]
fn counter_accumulates_sum() {
    let mut reg = Registry::new();
    reg.register(&vec![meas("bytes_total", MetricKind::Counter, "bytes", &[("disk", "a")], 0)]);
    for v in [10, 20, 12] {
        let outs = reg.apply(&vec![meas(
            "bytes_total",
            MetricKind::Counter,
            "bytes",
            &[("disk", "a")],
            v,
        )]);
        assert_eq!(outs, vec![ApplyOutcome::Applied]);
    }
    let got = reg.series_value(
        MetricKind::Counter,
        &String::from("bytes_total"),
        &labels_of(&[("disk", "a")]),
    );
    assert_eq!(got, Some(42));
}

#[test]
fn gauge_takes_last_value() {
    let mut reg = Registry::new();
    reg.register(&vec![meas("temp", MetricKind::Gauge, "temperature", &[("room", "lab")], 0)]);
    for v in [5, 99, -2] {
        reg.apply(&vec![meas("temp", MetricKind::Gauge, "temperature", &[("room", "lab")], v)]);
    }
    let got = reg.series_value(
        MetricKind::Gauge,
        &String::from("temp"),
        &labels_of(&[("room", "lab")]),
    );
    assert_eq!(got, Some(-2));
}

#[test]
fn label_isolation() {
    let mut reg = Registry::new();
    reg.register(&vec![meas("hits", MetricKind::Counter, "hits", &[("a", "1")], 0)]);
    reg.apply(&vec![meas("hits", MetricKind::Counter, "hits", &[("a", "1")], 7)]);
    reg.apply(&vec![meas("hits", MetricKind::Counter, "hits", &[("a", "2")], 3)]);
    reg.apply(&vec![meas("hits", MetricKind::Counter, "hits", &[("a", "1")], 1)]);
    let one = reg.series_value(MetricKind::Counter, &String::from("hits"), &labels_of(&[("a", "1")]));
    let two = reg.series_value(MetricKind::Counter, &String::from("hits"), &labels_of(&[("a", "2")]));
    assert_eq!(one, Some(8));
    assert_eq!(two, Some(3));
}

#[test]
fn unknown_name_is_error_not_crash() {
    let mut reg = Registry::new();
    reg.register(&vec![meas("known", MetricKind::Counter, "k", &[], 0)]);
    let outs = reg.apply(&vec![
        meas("never_registered", MetricKind::Counter, "n", &[], 5),
        meas("known", MetricKind::Counter, "k", &[], 2),
    ]);
    assert_eq!(outs, vec![ApplyOutcome::NotRegistered, ApplyOutcome::Applied]);
    assert_eq!(reg.counter_names().len(), 1);
    assert_eq!(
        reg.series_value(MetricKind::Counter, &String::from("never_registered"), &labels_of(&[])),
        None
    );
    assert_eq!(
        reg.series_value(MetricKind::Counter, &String::from("known"), &labels_of(&[])),
        Some(2)
    );
}

#[test]
fn label_set_mismatch_is_skipped() {
    let mut reg = Registry::new();
    reg.register(&vec![meas("req", MetricKind::Counter, "r", &[("method", "GET")], 0)]);
    let outs = reg.apply(&vec![meas("req", MetricKind::Counter, "r", &[("verb", "GET")], 1)]);
    assert_eq!(outs, vec![ApplyOutcome::LabelMismatch]);
    let outs2 = reg.apply(&vec![meas(
        "req",
        MetricKind::Counter,
        "r",
        &[("method", "GET"), ("extra", "x")],
        1,
    )]);
    assert_eq!(outs2, vec![ApplyOutcome::LabelMismatch]);
    assert_eq!(
        reg.series_value(MetricKind::Counter, &String::from("req"), &labels_of(&[("method", "GET")])),
        None
    );
}

#[test]
fn invalid_definitions_are_skipped_and_batch_continues() {
    let mut reg = Registry::new();
    let outs = reg.register(&vec![
        meas("1starts_with_digit", MetricKind::Counter, "bad", &[], 0),
        meas("bad_label", MetricKind::Counter, "bad", &[("__reserved", "x")], 0),
        meas("ns:ok_total", MetricKind::Counter, "good", &[], 0),
        meas("", MetricKind::Gauge, "empty", &[], 0),
    ]);
    assert_eq!(
        outs,
        vec![
            RegisterOutcome::InvalidDefinition,
            RegisterOutcome::InvalidDefinition,
            RegisterOutcome::Created,
            RegisterOutcome::InvalidDefinition,
        ]
    );
    assert_eq!(reg.counter_names(), vec![String::from("ns:ok_total")]);
}

#[test]
fn counter_overflow_is_reported_and_value_unchanged() {
    let mut reg = Registry::new();
    reg.register(&vec![meas("big", MetricKind::Counter, "b", &[], 0)]);
    reg.apply(&vec![meas("big", MetricKind::Counter, "b", &[], i64::MAX - 1)]);
    let outs = reg.apply(&vec![meas("big", MetricKind::Counter, "b", &[], 5)]);
    assert_eq!(outs, vec![ApplyOutcome::Overflow]);
    assert_eq!(
        reg.series_value(MetricKind::Counter, &String::from("big"), &labels_of(&[])),
        Some(i64::MAX - 1)
    );
}

#[test]
fn updata_metrics_applies_batch() {
    let mut reg = Registry::new();
    reg.register(&vec![meas("io_total", MetricKind::Counter, "io", &[("dev", "sda")], 0)]);
    let outs = updata_metrics(
        &mut reg,
        &vec![meas("io_total", MetricKind::Counter, "io", &[("dev", "sda")], 11)],
    );
    assert_eq!(outs, vec![ApplyOutcome::Applied]);
    assert_eq!(
        reg.series_value(MetricKind::Counter, &String::from("io_total"), &labels_of(&[("dev", "sda")])),
        Some(11)
    );
}
