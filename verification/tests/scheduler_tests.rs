use sio2prom::measurement::Measurement;
use sio2prom::measurement::MetricKind;
use sio2prom::registry::Registry;
use sio2prom::scheduler::CycleOutcome;
use sio2prom::scheduler::Scheduler;
use sio2prom::scheduler::run_cycle;
use sio2prom::scheduler::startup_register;

fn meas(name: &str, kind: MetricKind, help: &str, labels: &[(&str, &str)], value: i64) -> Measurement {
    Measurement {
        name: String::from(name),
        kind,
        help: String::from(help),
        labels: labels
            .iter()
            .map(|(k, v)| (String::from(*k), String::from(*v)))
            .collect(),
        value,
    }
}

// A measurement source stub that counts how often it is asked.
struct CountingSource {
    calls: u64,
}

impl CountingSource {
    fn collect(&mut self) -> Option<Vec<Measurement>> {
        self.calls += 1;
        Some(vec![meas("s_total", MetricKind::Counter, "s", &[], 1)])
    }
}

#[test]
fn zero_interval_never_triggers_a_second_collection() {
    let mut source = CountingSource { calls: 0 };
    let mut reg = Registry::new();
    // the synchronous startup pass: one collection, then register
    let first = source.collect();
    assert!(startup_register(&mut reg, first).is_ok());
    // a scheduler with a zero interval is disabled entirely
    let mut sched = Scheduler::new(0);
    assert!(!sched.enabled());
    for _ in 0..5 {
        if sched.begin_cycle() {
            let batch = source.collect();
            run_cycle(&mut reg, batch);
        }
    }
    assert_eq!(source.calls, 1);
    assert_eq!(sched.cycles, 0);
}

#[test]
fn nonzero_interval_runs_cycles() {
    let mut source = CountingSource { calls: 0 };
    let mut reg = Registry::new();
    let first = source.collect();
    assert!(startup_register(&mut reg, first).is_ok());
    let mut sched = Scheduler::new(30);
    assert!(sched.enabled());
    for _ in 0..3 {
        if sched.begin_cycle() {
            let batch = source.collect();
            run_cycle(&mut reg, batch);
        }
    }
    assert_eq!(source.calls, 4);
    assert_eq!(sched.cycles, 3);
    assert_eq!(
        reg.series_value(MetricKind::Counter, &String::from("s_total"), &Vec::new()),
        Some(3)
    );
}

#[test]
fn source_failure_skips_the_cycle_whole() {
    let mut reg = Registry::new();
    reg.register(&vec![meas("s_total", MetricKind::Counter, "s", &[], 0)]);
    reg.apply(&vec![meas("s_total", MetricKind::Counter, "s", &[], 2)]);
    let o = run_cycle(&mut reg, None);
    assert!(matches!(o, CycleOutcome::SourceFailed));
    assert_eq!(
        reg.series_value(MetricKind::Counter, &String::from("s_total"), &Vec::new()),
        Some(2)
    );
}

#[test]
fn startup_fails_when_first_collection_fails() {
    let mut reg = Registry::new();
    assert!(startup_register(&mut reg, None).is_err());
    assert_eq!(reg.counter_names().len(), 0);
    assert_eq!(reg.gauge_names().len(), 0);
}
