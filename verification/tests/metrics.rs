use hekla::json::Json;
use hekla::metrics::{
    bit, command_conflict_retry, command_outcome, command_refusal, describe, effect_http,
    effect_invocation, effect_progress, effect_restart, events_appended, projector_batch,
    projector_rebuild, read, read_wait, refresh, status_class, EffectGauges, Loaded,
    ProjectorGauges, Reading, Sample, Scrape,
};
use hekla::projector::Readiness;
use hekla::schema::EmittedEvent;
use metrics::{Key, KeyName, Label, Level, Metadata, Recorder};
use metrics_exporter_prometheus::PrometheusBuilder;

/// Hands every sample to a recorder of the test's own, and renders it.
fn rendered(samples: Vec<Sample>) -> String {
    let recorder = PrometheusBuilder::new().build_recorder();
    let handle = recorder.handle();
    for one in describe() {
        if one.counter {
            recorder.describe_counter(KeyName::from_const_str(one.metric), None, one.help.into());
        } else {
            recorder.describe_gauge(KeyName::from_const_str(one.metric), None, one.help.into());
        }
    }
    let metadata = Metadata::new("hekla", Level::INFO, None);
    for sample in samples {
        let labels: Vec<Label> = sample
            .labels
            .into_iter()
            .map(|(name, value)| Label::new(name, value))
            .collect();
        let key = Key::from_parts(sample.metric, labels);
        match sample.reading {
            Reading::Add(n) => recorder.register_counter(&key, &metadata).increment(n),
            Reading::Raise(n) => recorder.register_counter(&key, &metadata).absolute(n),
            Reading::Level(n) => recorder.register_gauge(&key, &metadata).set(n as f64),
            Reading::LevelMillis(n) => {
                recorder.register_gauge(&key, &metadata).set(n as f64 / 1_000.0)
            }
            Reading::Now => recorder.register_gauge(&key, &metadata).set(1_700_000_000.0),
        }
    }
    handle.render()
}

/// Every line of the render for one metric family, so an assertion cannot pass by matching
/// a longer metric name that happens to share the prefix.
fn series<'a>(render: &'a str, metric: &str) -> Vec<&'a str> {
    render
        .lines()
        .filter(|line| line.split(['{', ' ']).next() == Some(metric) && !line.starts_with('#'))
        .collect()
}

#[test]
fn an_outcome_carries_its_command_and_its_outcome() {
    let render = rendered(vec![
        command_outcome("PlaceOrder", "committed"),
        command_outcome("PlaceOrder", "committed"),
        command_outcome("PlaceOrder", "conflict"),
    ]);
    assert!(
        render.contains(r#"hekla_commands_total{command="PlaceOrder",outcome="committed"} 2"#),
        "{render}"
    );
    assert!(
        render.contains(r#"hekla_commands_total{command="PlaceOrder",outcome="conflict"} 1"#),
        "{render}"
    );
}

#[test]
fn a_described_metric_carries_its_help_text() {
    let render = rendered(vec![command_outcome("PlaceOrder", "committed")]);
    assert!(render.contains("# HELP hekla_commands_total"), "{render}");
    assert!(
        render.contains("# TYPE hekla_commands_total counter"),
        "{render}"
    );
}

/// A refusal code reaches a label and nothing else about the refusal does.
#[test]
fn a_refusal_carries_its_declared_code_only() {
    let render = rendered(vec![command_refusal("PlaceOrder", "SoldOut")]);
    assert!(
        render.contains(r#"hekla_command_refusals_total{command="PlaceOrder",code="SoldOut"} 1"#),
        "{render}"
    );
}

#[test]
fn a_status_class_is_the_only_thing_an_outbound_call_reports() {
    let render = rendered(vec![
        effect_http(Some(204)),
        effect_http(Some(503)),
        effect_http(None),
    ]);
    assert!(render.contains(r#"hekla_effect_http_requests_total{outcome="2xx"} 1"#));
    assert!(render.contains(r#"hekla_effect_http_requests_total{outcome="5xx"} 1"#));
    assert!(render.contains(r#"hekla_effect_http_requests_total{outcome="error"} 1"#));
}

#[test]
fn a_status_outside_the_ranges_is_an_error_rather_than_a_sixth_class() {
    assert_eq!(status_class(Some(200)), "2xx");
    assert_eq!(status_class(Some(599)), "5xx");
    assert_eq!(status_class(Some(600)), "error");
    assert_eq!(status_class(Some(99)), "error");
    assert_eq!(status_class(None), "error");
}

#[test]
fn a_batch_counts_its_events_and_stamps_its_progress() {
    let mut samples: Vec<Sample> = Vec::new();
    for events in [3, 4] {
        let (counted, stamped) = projector_batch("orders", events);
        samples.push(counted);
        samples.push(stamped);
    }
    let render = rendered(samples);
    assert!(
        render.contains(r#"hekla_projector_events_total{name="orders"} 7"#),
        "{render}"
    );
    assert_eq!(
        series(&render, "hekla_projector_last_progress_timestamp_seconds").len(),
        1,
        "{render}"
    );
}

#[test]
fn a_rebuild_outcome_is_a_label_rather_than_two_metrics() {
    let render = rendered(vec![
        projector_rebuild("orders", true),
        projector_rebuild("orders", false),
    ]);
    assert!(
        render.contains(r#"hekla_projector_rebuilds_total{name="orders",outcome="completed"} 1"#),
        "{render}"
    );
    assert!(
        render.contains(r#"hekla_projector_rebuilds_total{name="orders",outcome="failed"} 1"#),
        "{render}"
    );
}

#[test]
fn an_append_counts_once_per_event() {
    let events = vec![
        EmittedEvent {
            event_type: "order.placed".to_owned(),
            data: Json::Null,
            tags: Vec::new(),
        },
        EmittedEvent {
            event_type: "order.placed".to_owned(),
            data: Json::Null,
            tags: Vec::new(),
        },
    ];
    let render = rendered(events_appended(&events));
    assert!(
        render.contains(r#"hekla_events_appended_total{event="order.placed"} 2"#),
        "{render}"
    );
}

#[test]
fn a_bit_is_one_or_zero() {
    assert_eq!(bit(true) as f64, 1.0);
    assert_eq!(bit(false) as f64, 0.0);
}

/// One scrape: a projector stands in exactly one readiness, and its lag is what it has
/// not read.
#[test]
fn a_scrape_says_where_everything_stands() {
    let scrape = Scrape {
        version: "1.2.3".to_owned(),
        uptime_seconds: 60,
        log_head: 10,
        events: vec!["order.placed".to_owned()],
        commands: vec![Loaded { name: "PlaceOrder".to_owned(), hash: "c0".to_owned() }],
        projectors: vec![ProjectorGauges {
            name: "orders".to_owned(),
            hash: "p0".to_owned(),
            position: 7,
            running: true,
            failed: false,
            readiness: Readiness::Ready,
            entities: vec!["rows".to_owned()],
        }],
        effects: vec![EffectGauges {
            name: "notify".to_owned(),
            hash: "e0".to_owned(),
            position: 12,
            running: true,
            state: "running".to_owned(),
            wedged_lanes: 0,
            consecutive_failures: 2,
            retry_in_ms: Some(1_500),
            terminal_skips: 1,
            live_suppressed: 0,
            latest_collapsed: 0,
        }],
        effect_states: vec!["running".to_owned(), "backing_off".to_owned()],
    };
    let render = rendered(refresh(&scrape));
    assert!(render.contains(r#"hekla_build_info{version="1.2.3"} 1"#), "{render}");
    assert!(render.contains(r#"hekla_projector_lag{name="orders"} 3"#), "{render}");
    assert!(render.contains(r#"hekla_effect_lag{name="notify"} 0"#), "{render}");
    assert!(
        render.contains(r#"hekla_effect_retry_backoff_seconds{name="notify"} 1.5"#),
        "{render}"
    );
    let readiness = series(&render, "hekla_projector_readiness");
    assert_eq!(readiness.iter().filter(|line| line.ends_with(" 1")).count(), 1, "{render}");
}

#[test]
fn effects_and_reads_are_counted_by_name() {
    let render = rendered(vec![
        command_conflict_retry("PlaceOrder"),
        effect_invocation("notify", "completed"),
        effect_restart("notify"),
        effect_progress("notify"),
        read("orders", "rows", "ok"),
        read_wait("orders", "timeout"),
    ]);
    for line in [
        r#"hekla_command_conflict_retries_total{command="PlaceOrder"} 1"#,
        r#"hekla_effect_invocations_total{name="notify",outcome="completed"} 1"#,
        r#"hekla_effect_restarts_total{name="notify"} 1"#,
        r#"hekla_reads_total{projector="orders",entity="rows",outcome="ok"} 1"#,
        r#"hekla_read_waits_total{projector="orders",outcome="timeout"} 1"#,
    ] {
        assert!(render.contains(line), "no {line} in {render}");
    }
    assert_eq!(series(&render, "hekla_effect_last_progress_timestamp_seconds").len(), 1);
}
