use std::sync::Arc;

use otlp_embedded::jaeger::extract_string;
use otlp_embedded::proto::{AnyValue, Event, KeyValue, Resource, Span};
use otlp_embedded::trace::{SpanValue, Trace};

fn text(key: &str, value: &str) -> KeyValue {
    KeyValue { key: key.to_string(), value: Some(AnyValue::StringValue(value.to_string())) }
}

fn resource(service: &str) -> Arc<Resource> {
    Arc::new(Resource {
        attributes: vec![text("service.name", service), text("service.instance.id", "i-1")],
        dropped_attributes_count: 0,
    })
}

fn span(trace_id: u8, span_id: &[u8], parent: &[u8], name: &str) -> Span {
    Span {
        trace_id: vec![trace_id; 16],
        span_id: span_id.to_vec(),
        parent_span_id: parent.to_vec(),
        name: name.to_string(),
        ..Default::default()
    }
}

fn value(span: Span) -> SpanValue {
    SpanValue { span, resource: resource("shop") }
}

#[test]
fn default_trace_is_empty_and_complete() {
    let trace = Trace::default();
    assert!(trace.is_complete());
    assert!(trace.iter_valid().is_empty());
    assert!(trace.root_span().is_none());
    assert_eq!(trace.end_time(), 0);
}

#[test]
fn span_without_id_is_dropped() {
    let mut trace = Trace::default();
    trace.add_value(value(span(0x11, &[0xa1], &[], "root")));
    let before = trace.clone();
    let mut nameless = span(0x11, &[], &[0xc3], "nameless");
    nameless.end_time_unix_nano = 99;
    trace.add_value(value(nameless));
    assert_eq!(trace, before);
    assert_eq!(trace.iter_valid().len(), 1);
    assert!(trace.is_complete());
    assert_eq!(trace.end_time(), 0);
}

#[test]
fn span_without_id_leaves_an_empty_trace_empty() {
    let mut trace = Trace::default();
    trace.add_value(value(span(0x11, &[], &[], "nameless")));
    assert_eq!(trace, Trace::default());
}

#[test]
fn root_then_child_is_complete() {
    let mut trace = Trace::default();
    trace.add_value(value(span(0x11, &[0xa1], &[], "root")));
    trace.add_value(value(span(0x11, &[0xb2], &[0xa1], "child")));
    assert!(trace.is_complete());
    assert_eq!(trace.root_span().unwrap().span.span_id, vec![0xa1]);
    assert_eq!(trace.iter_valid().len(), 2);
}

#[test]
fn child_first_waits_for_its_parent() {
    let mut trace = Trace::default();
    trace.add_value(value(span(0x11, &[0xb2], &[0xa1], "child")));
    assert!(!trace.is_complete());
    assert!(trace.root_span().is_none());
    assert_eq!(trace.iter_valid().len(), 1);
    trace.add_value(value(span(0x11, &[0xa1], &[], "root")));
    assert!(trace.is_complete());
    assert_eq!(trace.root_span().unwrap().span.span_id, vec![0xa1]);
    assert_eq!(trace.iter_valid().len(), 2);
}

#[test]
fn trace_is_incomplete_while_any_named_parent_is_missing() {
    let mut trace = Trace::default();
    trace.add_value(value(span(0x11, &[0x03], &[0x02], "c")));
    trace.add_value(value(span(0x11, &[0x02], &[0x01], "b")));
    assert!(!trace.is_complete());
    trace.add_value(value(span(0x11, &[0x01], &[], "a")));
    assert!(trace.is_complete());
}

#[test]
fn nodes_keep_the_order_in_which_ids_were_first_seen() {
    let mut trace = Trace::default();
    trace.add_value(value(span(0x11, &[0xb2], &[0xa1], "child")));
    trace.add_value(value(span(0x11, &[0xa1], &[], "root")));
    let names: Vec<&str> = trace.iter_valid().iter().map(|v| v.operation()).collect();
    assert_eq!(names, vec!["root", "child"]);
}

#[test]
fn second_report_is_merged_into_the_first() {
    let mut first = span(0x11, &[0xa1], &[], "first");
    first.start_time_unix_nano = 100;
    first.end_time_unix_nano = 200;
    first.attributes = vec![text("a", "1")];
    let mut second = span(0x11, &[0xa1], &[], "second");
    second.start_time_unix_nano = 50;
    second.end_time_unix_nano = 150;
    second.attributes = vec![text("b", "2")];

    let mut trace = Trace::default();
    trace.add_value(value(first));
    trace.add_value(value(second));

    let values = trace.iter_valid();
    assert_eq!(values.len(), 1);
    let merged = &values[0].span;
    assert_eq!(merged.name, "first");
    assert_eq!(merged.start_time_unix_nano, 50);
    assert_eq!(merged.end_time_unix_nano, 200);
    assert_eq!(merged.attributes, vec![text("a", "1"), text("b", "2")]);
}

#[test]
fn reports_of_one_span_merge_alike_in_either_order() {
    let mut a = span(0x11, &[0xa1], &[], "a");
    a.start_time_unix_nano = 100;
    a.end_time_unix_nano = 900;
    a.attributes = vec![text("k", "a")];
    a.events = vec![event("ea", 1)];
    let mut b = span(0x11, &[0xa1], &[], "b");
    b.start_time_unix_nano = 70;
    b.end_time_unix_nano = 400;
    b.attributes = vec![text("k", "b")];
    b.events = vec![event("eb", 2)];

    let mut ab = Trace::default();
    ab.add_value(value(a.clone()));
    ab.add_value(value(b.clone()));
    let mut ba = Trace::default();
    ba.add_value(value(b));
    ba.add_value(value(a));

    let x = &ab.iter_valid()[0].span;
    let y = &ba.iter_valid()[0].span;
    assert_eq!(x.start_time_unix_nano, 70);
    assert_eq!(y.start_time_unix_nano, 70);
    assert_eq!(x.end_time_unix_nano, 900);
    assert_eq!(y.end_time_unix_nano, 900);
    assert_eq!(x.attributes, vec![text("k", "a"), text("k", "b")]);
    assert_eq!(y.attributes, vec![text("k", "b"), text("k", "a")]);
    assert_eq!(x.events.len(), 2);
    assert_eq!(x.events[0], y.events[1]);
    assert_eq!(x.events[1], y.events[0]);
    assert_eq!(ab.end_time(), ba.end_time());
}

fn event(name: &str, time: u64) -> Event {
    Event {
        time_unix_nano: time,
        name: name.to_string(),
        attributes: vec![text("level", "info")],
        dropped_attributes_count: 0,
    }
}

#[test]
fn every_event_gets_a_message_attribute() {
    let mut s = span(0x11, &[0xa1], &[], "root");
    s.events = vec![event("started", 1), event("stopped", 2)];
    let mut trace = Trace::default();
    trace.add_value(value(s));
    let values = trace.iter_valid();
    let events = &values[0].span.events;
    assert_eq!(events[0].attributes, vec![text("level", "info"), text("message", "started")]);
    assert_eq!(events[1].attributes, vec![text("level", "info"), text("message", "stopped")]);
}

#[test]
fn end_time_is_the_latest_end_and_never_falls() {
    let mut trace = Trace::default();
    let mut a = span(0x11, &[0x01], &[], "a");
    a.end_time_unix_nano = 500;
    trace.add_value(value(a));
    assert_eq!(trace.end_time(), 500);
    let mut b = span(0x11, &[0x02], &[0x01], "b");
    b.end_time_unix_nano = 300;
    trace.add_value(value(b));
    assert_eq!(trace.end_time(), 500);
    let mut c = span(0x11, &[0x03], &[0x01], "c");
    c.end_time_unix_nano = 501;
    trace.add_value(value(c));
    assert_eq!(trace.end_time(), 501);
}

#[test]
fn a_span_that_names_itself_as_parent_is_complete_and_rootless() {
    let mut trace = Trace::default();
    trace.add_value(value(span(0x11, &[0xa1], &[0xa1], "loop")));
    assert!(trace.is_complete());
    assert!(trace.root_span().is_none());
    assert_eq!(trace.iter_valid().len(), 1);
}

#[test]
fn id_and_hex_id_come_from_the_first_reported_span() {
    let mut trace = Trace::default();
    trace.add_value(value(span(0x11, &[0xb2], &[0xa1], "child")));
    assert_eq!(trace.id(), &[0x11; 16][..]);
    assert_eq!(trace.hex_id(), "11111111111111111111111111111111");
}

#[test]
fn incomplete_trace_has_no_root_yet() {
    let mut trace = Trace::default();
    trace.add_value(value(span(0x11, &[0x01], &[], "root")));
    assert_eq!(trace.operation(), Some("root"));
    trace.add_value(value(span(0x11, &[0x03], &[0x02], "grandchild")));
    assert!(!trace.is_complete());
    assert!(trace.root_span().is_none());
    assert_eq!(trace.service_name(), None);
    assert_eq!(trace.service_instance_id(), None);
    assert_eq!(trace.operation(), None);
    trace.add_value(value(span(0x11, &[0x02], &[0x01], "child")));
    assert!(trace.is_complete());
    assert_eq!(trace.root_span().unwrap().span.span_id, vec![0x01]);
    assert_eq!(trace.operation(), Some("root"));
}

#[test]
fn root_is_the_first_span_without_a_parent() {
    let mut trace = Trace::default();
    trace.add_value(value(span(0x11, &[0x01], &[], "one")));
    trace.add_value(value(span(0x11, &[0x02], &[], "two")));
    assert_eq!(trace.operation(), Some("one"));
}

#[test]
fn service_and_operation_come_from_the_root() {
    let mut trace = Trace::default();
    trace.add_value(value(span(0x11, &[0xb2], &[0xa1], "child")));
    assert_eq!(trace.service_name(), None);
    assert_eq!(trace.service_instance_id(), None);
    assert_eq!(trace.operation(), None);
    trace.add_value(value(span(0x11, &[0xa1], &[], "checkout")));
    assert_eq!(trace.service_name(), Some("shop"));
    assert_eq!(trace.service_instance_id(), Some("i-1"));
    assert_eq!(trace.operation(), Some("checkout"));
}

#[test]
fn missing_service_attributes_are_unknown() {
    let bare = SpanValue {
        span: span(0x11, &[0xa1], &[], "root"),
        resource: Arc::new(Resource::default()),
    };
    assert_eq!(bare.service_name(), "unknown");
    assert_eq!(bare.service_instance_id(), "unknown");
    assert_eq!(bare.operation(), "root");
}

#[test]
fn extract_string_takes_the_first_attribute_with_the_key() {
    let attributes = vec![
        text("other", "x"),
        text("service.name", "first"),
        text("service.name", "second"),
    ];
    assert_eq!(extract_string(&attributes, "service.name"), "first");
    assert_eq!(extract_string(&attributes, "other"), "x");
    assert_eq!(extract_string(&attributes, "absent"), "unknown");
}

#[test]
fn extract_string_is_unknown_where_the_first_match_is_no_string() {
    let attributes = vec![
        KeyValue { key: "service.name".to_string(), value: Some(AnyValue::IntValue(7)) },
        text("service.name", "late"),
    ];
    assert_eq!(extract_string(&attributes, "service.name"), "unknown");
    let valueless = vec![KeyValue { key: "service.name".to_string(), value: None }];
    assert_eq!(extract_string(&valueless, "service.name"), "unknown");
}

#[test]
fn clone_of_a_trace_is_equal_and_shares_the_resource() {
    let shared = resource("shop");
    let mut trace = Trace::default();
    trace.add_value(SpanValue { span: span(0x11, &[0xa1], &[], "root"), resource: shared.clone() });
    let copy = trace.clone();
    assert_eq!(copy, trace);
    assert!(Arc::ptr_eq(&copy.iter_valid()[0].resource, &shared));
}

#[test]
fn estimate_is_no_less_than_what_the_trace_holds() {
    let mut trace = Trace::default();
    assert_eq!(trace.heap_size(), 0);
    let mut s = span(0x11, &[0xb2, 0xb3], &[0xa1], "child");
    s.attributes = vec![text("key", "value")];
    s.events = vec![event("seen", 1)];
    trace.add_value(value(s));
    // Two node ids, the ids and the name of the span, its attribute, its
    // event with two attributes, and the two attributes of the resource.
    let nodes = 1 + 2;
    let span_fields = 16 + 2 + 1 + 5 + (3 + 5);
    let event_fields = 4 + (5 + 4) + (7 + 4);
    let resource_fields = (12 + 4) + (19 + 3);
    assert!(trace.heap_size() >= nodes + span_fields + event_fields + resource_fields);
}
