use quickwit_logging::CaptureOutcome;
use quickwit_logging::DequeueOutcome;
use quickwit_logging::EnvelopeQueue;
use quickwit_logging::LogRecord;
use quickwit_logging::LogVisitor;
use quickwit_logging::QuickwitLogMessage;
use quickwit_logging::QuickwitLoggingLayerBuilder;
use quickwit_logging::TargetFieldVisitor;

fn message(index: &str) -> QuickwitLogMessage {
    QuickwitLogMessage { index_id: String::from(index), log: LogRecord::new() }
}

#[test]
fn builder_records_the_expected_event_count() {
    let builder = QuickwitLoggingLayerBuilder::new(String::from("http://q"))
        .with_expected_emitted_events_count(7);
    assert_eq!(builder.expected_emitted_events_count(), 7);
}

#[test]
fn layer_exposes_the_marker_field() {
    let (layer, _worker, _queue) = QuickwitLoggingLayerBuilder::new(String::from("http://q"))
        .marker_field(String::from("some_marker_field"))
        .build();
    assert_eq!(layer.marker_field(), "some_marker_field");
}

#[test]
fn remapping_a_marker_value_replaces_its_destination() {
    let (layer, _worker, _queue) = QuickwitLoggingLayerBuilder::new(String::from("http://q"))
        .marker_field(String::from("task"))
        .map_marker_to_index(String::from("build"), String::from("old-index"))
        .map_marker_to_index(String::from("build"), String::from("new-index"))
        .build();
    let mut v = LogVisitor::new();
    v.record_str("task", "build");
    match layer.on_event(v.log) {
        CaptureOutcome::Enqueue(msg) => assert_eq!(msg.index_id, "new-index"),
        _ => panic!("expected an envelope"),
    }
}

#[test]
fn zero_batch_size_still_flushes_single_payloads() {
    let (_layer, mut worker, _queue) = QuickwitLoggingLayerBuilder::new(String::from("http://q"))
        .with_batch_size(0)
        .build();
    let req = worker.handle_message(message("idx")).expect("a threshold of zero must act as one");
    assert_eq!(req.body, "{}\n");
}

#[test]
fn queue_hands_envelopes_out_in_arrival_order() {
    let mut queue = EnvelopeQueue::new(4);
    assert!(queue.try_enqueue(message("first")));
    assert!(queue.try_enqueue(message("second")));
    match queue.dequeue() {
        DequeueOutcome::Item(msg) => assert_eq!(msg.index_id, "first"),
        _ => panic!("expected the oldest envelope"),
    }
    match queue.dequeue() {
        DequeueOutcome::Item(msg) => assert_eq!(msg.index_id, "second"),
        _ => panic!("expected the second envelope"),
    }
    match queue.dequeue() {
        DequeueOutcome::Pending => {}
        _ => panic!("an open empty queue reports pending"),
    }
}

#[test]
fn closed_queue_drains_then_reports_closed() {
    let mut queue = EnvelopeQueue::new(4);
    assert!(queue.try_enqueue(message("queued")));
    queue.close();
    assert!(!queue.try_enqueue(message("late")));
    match queue.dequeue() {
        DequeueOutcome::Item(msg) => assert_eq!(msg.index_id, "queued"),
        _ => panic!("a closed queue still hands out what it holds"),
    }
    match queue.dequeue() {
        DequeueOutcome::Closed => {}
        _ => panic!("a drained closed queue reports closed"),
    }
    assert_eq!(queue.capacity(), 4);
}

#[test]
fn target_visitor_keeps_only_the_watched_field() {
    let mut visitor = TargetFieldVisitor::new("some_marker_field");
    assert!(visitor.target_value.is_none());
    visitor.record_str("other_field", "ignored");
    assert!(visitor.target_value.is_none());
    visitor.record_str("some_marker_field", "marker_field_value");
    assert_eq!(visitor.target_value.as_deref(), Some("marker_field_value"));
    visitor.record_debug("some_marker_field", "not kept");
    assert_eq!(visitor.target_value.as_deref(), Some("marker_field_value"));
}
