use sio2prom::measurement::Measurement;
use sio2prom::measurement::MetricKind;
use sio2prom::registry::Registry;
use sio2prom::render::render_text;

fn meas(name: &str, kind: MetricKind, help: &str, labels: &[(&str, &str)], value: i64) -> Measurement {
    Measurement {
        name: String::from(name),
        kind,
        help: String::from(help),
        labels: labels
            .iter()
            .map(|(k, v)| (String::from(*k), String::from(*v)))
            .collect(),
        value,
    }
}

#[test]
fn end_to_end_counter_exposition() {
    let mut reg = Registry::new();
    reg.register(&vec![meas("req_total", MetricKind::Counter, "requests", &[("method", "GET")], 0)]);
    reg.apply(&vec![meas("req_total", MetricKind::Counter, "requests", &[("method", "GET")], 3)]);
    reg.apply(&vec![meas("req_total", MetricKind::Counter, "requests", &[("method", "GET")], 2)]);
    reg.apply(&vec![meas("req_total", MetricKind::Counter, "requests", &[("method", "POST")], 1)]);
    let body = render_text(&reg);
    assert!(body.contains("req_total{method=\"GET\"} 5\n"));
    assert!(body.contains("req_total{method=\"POST\"} 1\n"));
    assert!(body.contains("# TYPE req_total counter\n"));
    assert!(body.contains("# HELP req_total requests\n"));
}

#[test]
fn exposition_of_unlabelled_gauge_is_exact() {
    let mut reg = Registry::new();
    reg.register(&vec![meas("temp", MetricKind::Gauge, "current temperature", &[], 0)]);
    reg.apply(&vec![meas("temp", MetricKind::Gauge, "current temperature", &[], 21)]);
    let body = render_text(&reg);
    assert_eq!(
        body,
        "# HELP temp current temperature\n# TYPE temp gauge\ntemp 21\n"
    );
}

#[test]
fn negative_gauge_value_is_rendered_with_sign() {
    let mut reg = Registry::new();
    reg.register(&vec![meas("depth", MetricKind::Gauge, "depth", &[], 0)]);
    reg.apply(&vec![meas("depth", MetricKind::Gauge, "depth", &[], -7)]);
    let body = render_text(&reg);
    assert_eq!(body, "# HELP depth depth\n# TYPE depth gauge\ndepth -7\n");
}

#[test]
fn label_values_and_help_are_escaped() {
    let mut reg = Registry::new();
    reg.register(&vec![meas("paths", MetricKind::Gauge, "path\\line\nnext", &[("dir", "x")], 0)]);
    reg.apply(&vec![meas("paths", MetricKind::Gauge, "path\\line\nnext", &[("dir", "a\"b\\c\nd")], 4)]);
    let body = render_text(&reg);
    assert!(body.contains("# HELP paths path\\\\line\\nnext\n"));
    assert!(body.contains("paths{dir=\"a\\\"b\\\\c\\nd\"} 4\n"));
}

#[test]
fn label_names_are_ordered_by_label_value() {
    let mut reg = Registry::new();
    reg.register(&vec![meas(
        "ord",
        MetricKind::Gauge,
        "order",
        &[("alpha", "9"), ("beta", "1")],
        0,
    )]);
    reg.apply(&vec![meas(
        "ord",
        MetricKind::Gauge,
        "order",
        &[("alpha", "9"), ("beta", "1")],
        2,
    )]);
    let body = render_text(&reg);
    // label-name order is fixed at registration time by sorting the first
    // measurement's labels by value ("1" < "9"), so beta comes first
    assert!(body.contains("ord{beta=\"1\",alpha=\"9\"} 2\n"));
}

#[test]
fn families_of_both_kinds_are_rendered() {
    let mut reg = Registry::new();
    reg.register(&vec![
        meas("c_total", MetricKind::Counter, "c", &[], 0),
        meas("g_now", MetricKind::Gauge, "g", &[], 0),
    ]);
    reg.apply(&vec![
        meas("c_total", MetricKind::Counter, "c", &[], 1),
        meas("g_now", MetricKind::Gauge, "g", &[], 2),
    ]);
    let body = render_text(&reg);
    assert_eq!(
        body,
        "# HELP c_total c\n# TYPE c_total counter\nc_total 1\n# HELP g_now g\n# TYPE g_now gauge\ng_now 2\n"
    );
}
