use std::sync::Arc;

use otlp_embedded::proto::{AnyValue, KeyValue, Resource, Span};
use otlp_embedded::trace::{SpanValue, Trace};

fn resource(service: &str) -> Arc<Resource> {
    Arc::new(Resource {
        attributes: vec![KeyValue {
            key: "service.name".to_string(),
            value: Some(AnyValue::StringValue(service.to_string())),
        }],
        dropped_attributes_count: 0,
    })
}

fn span(span_id: u8, parent: &[u8]) -> Span {
    Span {
        trace_id: vec![0x11; 16],
        span_id: vec![span_id],
        parent_span_id: parent.to_vec(),
        name: format!("span-{}", span_id),
        ..Default::default()
    }
}

#[test]
fn empty_trace_is_an_empty_batch() {
    assert!(Trace::default().to_tempo_batch().batches.is_empty());
}

#[test]
fn every_span_is_a_group_of_its_own() {
    let shared = resource("shop");
    let mut trace = Trace::default();
    trace.add_value(SpanValue { span: span(0x01, &[]), resource: shared.clone() });
    trace.add_value(SpanValue { span: span(0x02, &[0x01]), resource: shared.clone() });
    trace.add_value(SpanValue { span: span(0x03, &[0x09]), resource: resource("cart") });

    let batch = trace.to_tempo_batch();
    assert_eq!(batch.batches.len(), 3);
    for group in &batch.batches {
        assert_eq!(group.instrumentation_library_spans.len(), 1);
        assert_eq!(group.instrumentation_library_spans[0].spans.len(), 1);
    }
    assert_eq!(batch.batches[0].resource, *shared);
    assert_eq!(batch.batches[1].resource, *shared);
    assert_eq!(batch.batches[2].resource, *resource("cart"));
    assert_eq!(batch.batches[0].instrumentation_library_spans[0].spans[0], span(0x01, &[]));
    assert_eq!(batch.batches[1].instrumentation_library_spans[0].spans[0], span(0x02, &[0x01]));
    assert_eq!(batch.batches[2].instrumentation_library_spans[0].spans[0], span(0x03, &[0x09]));
}

#[test]
fn placeholders_are_not_in_the_batch() {
    let mut trace = Trace::default();
    trace.add_value(SpanValue { span: span(0x02, &[0x01]), resource: resource("shop") });
    assert_eq!(trace.to_tempo_batch().batches.len(), 1);
}
