use quickwit_logging::CaptureOutcome;
use quickwit_logging::DequeueOutcome;
use quickwit_logging::LogVisitor;
use quickwit_logging::QuickwitLoggingLayerBuilder;

fn build_pipeline(
    batch_size: usize,
) -> (
    quickwit_logging::QuickwitLoggingLayer,
    quickwit_logging::QuickwitWorker,
    quickwit_logging::EnvelopeQueue,
) {
    QuickwitLoggingLayerBuilder::new(String::from("http://127.0.0.1:9011"))
        .marker_field(String::from("task"))
        .map_marker_to_index(String::from("build"), String::from("build-index"))
        .with_batch_size(batch_size)
        .build()
}

#[test]
fn single_event_batch_of_one_is_posted() {
    let (layer, mut worker, mut queue) = build_pipeline(1);
    let mut visitor = LogVisitor::new();
    visitor.record_str("task", "build");
    visitor.record_u64("x", 1);
    match layer.on_event(visitor.log) {
        CaptureOutcome::Enqueue(msg) => {
            assert_eq!(msg.index_id, "build-index");
            assert!(queue.try_enqueue(msg));
        }
        _ => panic!("expected an envelope"),
    }
    match queue.dequeue() {
        DequeueOutcome::Item(msg) => {
            let req = worker.handle_message(msg).expect("a batch of one must flush");
            assert_eq!(req.index_id, "build-index");
            assert_eq!(req.url, "http://127.0.0.1:9011/api/v1/build-index/ingest");
            assert_eq!(req.body, "{\"task\":\"build\",\"x\":1}\n");
        }
        _ => panic!("expected an item"),
    }
}

#[test]
fn unmapped_marker_reports_index_missing_and_posts_nothing() {
    let (layer, mut worker, queue) = build_pipeline(1);
    let mut visitor = LogVisitor::new();
    visitor.record_str("task", "deploy");
    visitor.record_u64("x", 1);
    match layer.on_event(visitor.log) {
        CaptureOutcome::IndexMissing => {}
        _ => panic!("expected the missing-index report"),
    }
    assert_eq!(queue.len(), 0);
    let flushes = worker.handle_close();
    assert_eq!(flushes.len(), 0);
}

#[test]
fn missing_marker_field_is_ignored() {
    let (layer, _worker, queue) = build_pipeline(1);
    let mut visitor = LogVisitor::new();
    visitor.record_u64("x", 1);
    visitor.record_str("other", "build");
    match layer.on_event(visitor.log) {
        CaptureOutcome::Ignored => {}
        _ => panic!("an event without the marker field must be ignored"),
    }
    assert_eq!(queue.len(), 0);
}

#[test]
fn non_string_marker_is_ignored() {
    let (layer, _worker, _queue) = build_pipeline(1);
    let mut visitor = LogVisitor::new();
    visitor.record_u64("task", 7);
    match layer.on_event(visitor.log) {
        CaptureOutcome::Ignored => {}
        _ => panic!("a non-string marker must count as absent"),
    }
}

#[test]
fn debug_formatted_marker_is_ignored() {
    let (layer, _worker, _queue) = build_pipeline(1);
    let mut visitor = LogVisitor::new();
    visitor.record_debug("task", "build");
    match layer.on_event(visitor.log) {
        CaptureOutcome::Ignored => {}
        _ => panic!("a debug-formatted marker must count as absent"),
    }
}

#[test]
fn batch_of_two_is_posted_as_two_lines_in_order() {
    let (layer, mut worker, _queue) = build_pipeline(2);
    let mut first = LogVisitor::new();
    first.record_str("task", "build");
    first.record_u64("n", 1);
    let mut second = LogVisitor::new();
    second.record_str("task", "build");
    second.record_u64("n", 2);
    let msg1 = match layer.on_event(first.log) {
        CaptureOutcome::Enqueue(msg) => msg,
        _ => panic!("expected an envelope"),
    };
    let msg2 = match layer.on_event(second.log) {
        CaptureOutcome::Enqueue(msg) => msg,
        _ => panic!("expected an envelope"),
    };
    assert!(worker.handle_message(msg1).is_none());
    let req = worker.handle_message(msg2).expect("the second payload fills the batch");
    assert_eq!(
        req.body,
        "{\"task\":\"build\",\"n\":1}\n{\"task\":\"build\",\"n\":2}\n"
    );
    assert_eq!(req.url, "http://127.0.0.1:9011/api/v1/build-index/ingest");
}

#[test]
fn close_flushes_every_nonempty_buffer_once() {
    let (_layer, mut worker, _queue) = QuickwitLoggingLayerBuilder::new(String::from(
        "http://127.0.0.1:9011",
    ))
    .marker_field(String::from("task"))
    .map_marker_to_index(String::from("build"), String::from("build-index"))
    .map_marker_to_index(String::from("test"), String::from("test-index"))
    .with_batch_size(5)
    .build();
    let mut a1 = LogVisitor::new();
    a1.record_u64("n", 1);
    let mut a2 = LogVisitor::new();
    a2.record_u64("n", 2);
    let mut b1 = LogVisitor::new();
    b1.record_u64("n", 3);
    let make = |index: &str, log: LogVisitor| quickwit_logging::QuickwitLogMessage {
        index_id: String::from(index),
        log: log.log,
    };
    assert!(worker.handle_message(make("build-index", a1)).is_none());
    assert!(worker.handle_message(make("build-index", a2)).is_none());
    assert!(worker.handle_message(make("test-index", b1)).is_none());
    let flushes = worker.handle_close();
    assert_eq!(flushes.len(), 2);
    let to_build: Vec<&quickwit_logging::FlushRequest> =
        flushes.iter().filter(|f| f.index_id == "build-index").collect();
    let to_test: Vec<&quickwit_logging::FlushRequest> =
        flushes.iter().filter(|f| f.index_id == "test-index").collect();
    assert_eq!(to_build.len(), 1);
    assert_eq!(to_test.len(), 1);
    assert_eq!(to_build[0].body, "{\"n\":1}\n{\"n\":2}\n");
    assert_eq!(to_test[0].body, "{\"n\":3}\n");
    let again = worker.handle_close();
    assert_eq!(again.len(), 0);
}

#[test]
fn run_to_completion_batches_per_destination() {
    let (_layer, mut worker, _queue) = QuickwitLoggingLayerBuilder::new(String::from("http://q"))
        .with_batch_size(2)
        .build();
    let event = |n: u64| {
        let mut v = LogVisitor::new();
        v.record_u64("n", n);
        v.log
    };
    let msgs = vec![
        quickwit_logging::QuickwitLogMessage { index_id: String::from("a"), log: event(1) },
        quickwit_logging::QuickwitLogMessage { index_id: String::from("b"), log: event(2) },
        quickwit_logging::QuickwitLogMessage { index_id: String::from("a"), log: event(3) },
        quickwit_logging::QuickwitLogMessage { index_id: String::from("a"), log: event(4) },
    ];
    let flushes = worker.run_to_completion(msgs);
    let to_a: Vec<&quickwit_logging::FlushRequest> =
        flushes.iter().filter(|f| f.index_id == "a").collect();
    let to_b: Vec<&quickwit_logging::FlushRequest> =
        flushes.iter().filter(|f| f.index_id == "b").collect();
    assert_eq!(to_a.len(), 2);
    assert_eq!(to_a[0].body, "{\"n\":1}\n{\"n\":3}\n");
    assert_eq!(to_a[1].body, "{\"n\":4}\n");
    assert_eq!(to_a[0].url, "http://q/api/v1/a/ingest");
    assert_eq!(to_b.len(), 1);
    assert_eq!(to_b[0].body, "{\"n\":2}\n");
}

#[test]
fn marker_scenario_with_metrics_round_trip() {
    let (layer, mut worker, _queue) = QuickwitLoggingLayerBuilder::new(String::from(
        "http://127.0.0.1:9024",
    ))
    .marker_field(String::from("some_marker_field"))
    .map_marker_to_index(String::from("marker_field_value"), String::from("some_index_id"))
    .with_batch_size(1)
    .build();
    let mut visitor = LogVisitor::new();
    visitor.record_str("some_marker_field", "marker_field_value");
    visitor.record_debug("metric1", "2145.43");
    visitor.record_str("metric2", "done");
    let msg = match layer.on_event(visitor.log) {
        CaptureOutcome::Enqueue(msg) => msg,
        _ => panic!("expected an envelope"),
    };
    assert_eq!(msg.index_id, "some_index_id");
    let req = worker.handle_message(msg).expect("a batch of one must flush");
    assert_eq!(req.url, "http://127.0.0.1:9024/api/v1/some_index_id/ingest");
    let parsed: serde_json::Value =
        serde_json::from_str(req.body.trim_end()).expect("the body must be one JSON line");
    assert_eq!(
        parsed.get("some_marker_field").and_then(|x| x.as_str()),
        Some("marker_field_value")
    );
    assert_eq!(parsed.get("metric1").and_then(|x| x.as_str()), Some("2145.43"));
    assert_eq!(parsed.get("metric2").and_then(|x| x.as_str()), Some("done"));
}

#[test]
fn full_queue_drops_envelopes_silently() {
    let (layer, _worker, mut queue) = QuickwitLoggingLayerBuilder::new(String::from("http://q"))
        .marker_field(String::from("task"))
        .map_marker_to_index(String::from("build"), String::from("build-index"))
        .with_queue_capacity(1)
        .build();
    let event = || {
        let mut v = LogVisitor::new();
        v.record_str("task", "build");
        v.log
    };
    let msg1 = match layer.on_event(event()) {
        CaptureOutcome::Enqueue(msg) => msg,
        _ => panic!("expected an envelope"),
    };
    let msg2 = match layer.on_event(event()) {
        CaptureOutcome::Enqueue(msg) => msg,
        _ => panic!("expected an envelope"),
    };
    assert!(queue.try_enqueue(msg1));
    assert!(!queue.try_enqueue(msg2));
    assert_eq!(queue.len(), 1);
}
