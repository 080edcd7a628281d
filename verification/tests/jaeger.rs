use std::sync::Arc;

use otlp_embedded::hex::decode_hex;
use otlp_embedded::jaeger::{
    any_value_to_json, span_to_jaeger_json, JaegerKv, JaegerProcess, JaegerReference,
};
use otlp_embedded::json::JsonScalar;
use otlp_embedded::proto::{AnyValue, Event, KeyValue, Link, Resource, Span};
use otlp_embedded::trace::{SpanValue, Trace};

fn double(x: f64) -> AnyValue {
    AnyValue::DoubleValue(serde_json::Number::from_f64(x))
}

fn string(s: &str) -> AnyValue {
    AnyValue::StringValue(s.to_string())
}

fn kv(key: &str, value: AnyValue) -> KeyValue {
    KeyValue { key: key.to_string(), value: Some(value) }
}

fn text(s: &str) -> JsonScalar {
    JsonScalar::Text(s.to_string())
}

fn number(x: f64) -> JsonScalar {
    JsonScalar::Double(serde_json::Number::from_f64(x).unwrap())
}

#[test]
fn scalars_stay_what_they_are() {
    assert_eq!(any_value_to_json(&string("hello")), text("hello"));
    assert_eq!(any_value_to_json(&AnyValue::BoolValue(true)), JsonScalar::Bool(true));
    assert_eq!(any_value_to_json(&AnyValue::IntValue(-42)), JsonScalar::Int(-42));
    assert_eq!(any_value_to_json(&double(1.5)), number(1.5));
}

#[test]
fn a_double_without_a_json_number_is_null() {
    assert_eq!(any_value_to_json(&double(f64::NAN)), JsonScalar::Null);
    assert_eq!(any_value_to_json(&double(f64::INFINITY)), JsonScalar::Null);
}

#[test]
fn bytes_become_lowercase_hex() {
    assert_eq!(any_value_to_json(&AnyValue::BytesValue(vec![0xde, 0xad, 0x01])), text("dead01"));
    assert_eq!(any_value_to_json(&AnyValue::BytesValue(vec![])), text(""));
}

#[test]
fn a_nested_map_is_unsupported() {
    let map = AnyValue::KvlistValue(vec![kv("a", string("b"))]);
    assert_eq!(any_value_to_json(&map), text("unsupported"));
    assert_eq!(any_value_to_json(&AnyValue::KvlistValue(vec![])), text("unsupported"));
}

#[test]
fn a_double_array_becomes_the_text_of_its_json() {
    let array = AnyValue::ArrayValue(vec![Some(double(1.0)), Some(double(2.0))]);
    assert_eq!(any_value_to_json(&array), text("[1.0,2.0]"));
    let tag = JaegerKv::from(&kv("weights", array));
    assert_eq!(tag.key, "weights");
    assert_eq!(tag.value_type, "string");
    assert_eq!(tag.value, text("[1.0,2.0]"));
}

#[test]
fn an_array_is_written_element_by_element() {
    let array = AnyValue::ArrayValue(vec![
        Some(string("a\"b")),
        Some(AnyValue::BoolValue(false)),
        Some(AnyValue::IntValue(7)),
        Some(double(f64::NAN)),
        Some(AnyValue::BytesValue(vec![0xab])),
        Some(AnyValue::KvlistValue(vec![])),
    ]);
    assert_eq!(
        any_value_to_json(&array),
        text(r#"["a\"b",false,7,null,"ab","unsupported"]"#)
    );
}

#[test]
fn an_empty_array_is_the_text_of_an_empty_array() {
    assert_eq!(any_value_to_json(&AnyValue::ArrayValue(vec![])), text("[]"));
}

#[test]
fn array_elements_without_a_value_are_left_out() {
    let array = AnyValue::ArrayValue(vec![None, Some(AnyValue::IntValue(1)), None]);
    assert_eq!(any_value_to_json(&array), text("[1]"));
}

#[test]
fn an_array_in_an_array_is_encoded_twice() {
    let inner = AnyValue::ArrayValue(vec![Some(string("x")), Some(AnyValue::IntValue(2))]);
    let outer = AnyValue::ArrayValue(vec![Some(inner), Some(AnyValue::IntValue(3))]);
    assert_eq!(any_value_to_json(&outer), text(r#"["[\"x\",2]",3]"#));
}

#[test]
fn tags_name_the_type_of_their_value() {
    assert_eq!(JaegerKv::from(&kv("k", string("v"))).value_type, "string");
    assert_eq!(JaegerKv::from(&kv("k", AnyValue::BoolValue(true))).value_type, "bool");
    assert_eq!(JaegerKv::from(&kv("k", AnyValue::IntValue(1))).value_type, "int64");
    assert_eq!(JaegerKv::from(&kv("k", double(0.5))).value_type, "float64");
    assert_eq!(JaegerKv::from(&kv("k", double(f64::NAN))).value_type, "float64");
    assert_eq!(JaegerKv::from(&kv("k", AnyValue::ArrayValue(vec![]))).value_type, "string");
    assert_eq!(JaegerKv::from(&kv("k", AnyValue::KvlistValue(vec![]))).value_type, "string");
    assert_eq!(JaegerKv::from(&kv("k", AnyValue::BytesValue(vec![]))).value_type, "string");
}

#[test]
fn a_tag_without_a_value_is_a_null_string() {
    let tag = JaegerKv::from(&KeyValue { key: "empty".to_string(), value: None });
    assert_eq!(
        tag,
        JaegerKv { key: "empty".to_string(), value_type: "string", value: JsonScalar::Null }
    );
}

#[test]
fn from_all_keeps_the_order() {
    let tags = JaegerKv::from_all(&vec![kv("a", AnyValue::IntValue(1)), kv("b", string("2"))]);
    assert_eq!(
        tags,
        vec![
            JaegerKv { key: "a".to_string(), value_type: "int64", value: JsonScalar::Int(1) },
            JaegerKv { key: "b".to_string(), value_type: "string", value: text("2") },
        ]
    );
}

#[test]
fn process_is_read_from_the_resource() {
    let resource = Resource {
        attributes: vec![
            kv("service.name", string("shop")),
            kv("service.instance.id", string("i-7")),
            kv("replicas", AnyValue::IntValue(3)),
        ],
        dropped_attributes_count: 0,
    };
    let process = JaegerProcess::from(&resource);
    assert_eq!(process.key, "i-7");
    assert_eq!(process.service_name, "shop");
    assert_eq!(process.tags.len(), 3);
    assert_eq!(process.tags[2].key, "replicas");
    assert_eq!(process.tags[2].value, JsonScalar::Int(3));
}

#[test]
fn process_of_an_empty_resource_is_unknown() {
    let process = JaegerProcess::from(&Resource::default());
    assert_eq!(process.key, "unknown");
    assert_eq!(process.service_name, "unknown");
    assert!(process.tags.is_empty());
}

fn sample_span() -> Span {
    Span {
        trace_id: vec![0x11; 16],
        span_id: vec![0xa1, 0x02],
        parent_span_id: vec![],
        name: "checkout".to_string(),
        start_time_unix_nano: 1_999,
        end_time_unix_nano: 5_998,
        attributes: vec![kv("http.status", AnyValue::IntValue(200))],
        ..Default::default()
    }
}

#[test]
fn span_times_are_cut_to_microseconds() {
    let converted = span_to_jaeger_json(&sample_span(), "proc-a".to_string());
    assert_eq!(converted.start_time, 1);
    assert_eq!(converted.duration, 3);
}

#[test]
fn span_that_ends_before_it_starts_lasts_no_time() {
    let mut span = sample_span();
    span.start_time_unix_nano = 9_000;
    span.end_time_unix_nano = 1_000;
    let converted = span_to_jaeger_json(&span, "proc-a".to_string());
    assert_eq!(converted.start_time, 9);
    assert_eq!(converted.duration, 0);
}

#[test]
fn span_ids_are_written_in_hex() {
    let converted = span_to_jaeger_json(&sample_span(), "proc-a".to_string());
    assert_eq!(converted.trace_id, "11111111111111111111111111111111");
    assert_eq!(converted.span_id, "a102");
    assert_eq!(converted.operation_name, "checkout");
    assert_eq!(converted.process_id, "proc-a");
    assert_eq!(converted.tags.len(), 1);
    assert_eq!(converted.tags[0].value, JsonScalar::Int(200));
}

#[test]
fn span_without_links_or_parent_has_no_references() {
    let converted = span_to_jaeger_json(&sample_span(), "proc-a".to_string());
    assert_eq!(converted.references, None);
}

#[test]
fn span_with_a_parent_is_its_child() {
    let mut span = sample_span();
    span.parent_span_id = vec![0x0f];
    let converted = span_to_jaeger_json(&span, "proc-a".to_string());
    assert_eq!(
        converted.references,
        Some(vec![JaegerReference {
            ref_type: "CHILD_OF",
            trace_id: "11111111111111111111111111111111".to_string(),
            span_id: "0f".to_string(),
        }])
    );
}

fn link(trace_id: u8, span_id: u8) -> Link {
    Link {
        trace_id: vec![trace_id],
        span_id: vec![span_id],
        trace_state: String::new(),
        attributes: vec![],
        dropped_attributes_count: 0,
        flags: 0,
    }
}

#[test]
fn links_come_first_and_the_parent_last() {
    let mut span = sample_span();
    span.parent_span_id = vec![0x0f];
    span.links = vec![link(0x22, 0x01), link(0x33, 0x02)];
    let references = span_to_jaeger_json(&span, "proc-a".to_string()).references.unwrap();
    assert_eq!(references.len(), 3);
    assert_eq!(references[0].ref_type, "FOLLOWS_FROM");
    assert_eq!(references[0].trace_id, "22");
    assert_eq!(references[0].span_id, "01");
    assert_eq!(references[1].ref_type, "FOLLOWS_FROM");
    assert_eq!(references[1].trace_id, "33");
    assert_eq!(references[2].ref_type, "CHILD_OF");
    assert_eq!(references[2].span_id, "0f");
}

#[test]
fn links_alone_are_references_too() {
    let mut span = sample_span();
    span.links = vec![link(0x22, 0x01)];
    let references = span_to_jaeger_json(&span, "proc-a".to_string()).references.unwrap();
    assert_eq!(references.len(), 1);
    assert_eq!(references[0].ref_type, "FOLLOWS_FROM");
}

#[test]
fn events_become_logs() {
    let mut span = sample_span();
    span.events = vec![Event {
        time_unix_nano: 4_567,
        name: "retry".to_string(),
        attributes: vec![kv("attempt", AnyValue::IntValue(2))],
        dropped_attributes_count: 0,
    }];
    let converted = span_to_jaeger_json(&span, "proc-a".to_string());
    assert_eq!(converted.logs.len(), 1);
    assert_eq!(converted.logs[0].timestamp, 4);
    assert_eq!(converted.logs[0].fields.len(), 1);
    assert_eq!(converted.logs[0].fields[0].key, "attempt");
}

fn resource(service: &str, instance: &str) -> Arc<Resource> {
    Arc::new(Resource {
        attributes: vec![
            kv("service.name", string(service)),
            kv("service.instance.id", string(instance)),
        ],
        dropped_attributes_count: 0,
    })
}

fn reported(span_id: u8, parent: &[u8], resource: Arc<Resource>) -> SpanValue {
    SpanValue {
        span: Span {
            trace_id: vec![0x11; 16],
            span_id: vec![span_id],
            parent_span_id: parent.to_vec(),
            name: format!("span-{}", span_id),
            events: vec![Event {
                time_unix_nano: 2_000,
                name: "seen".to_string(),
                attributes: vec![],
                dropped_attributes_count: 0,
            }],
            ..Default::default()
        },
        resource,
    }
}

#[test]
fn empty_trace_converts_to_nothing() {
    assert_eq!(Trace::default().to_jaeger(), None);
    assert_eq!(Trace::default().to_jaeger_batch().data, vec![None]);
}

#[test]
fn placeholders_are_not_among_the_converted_spans() {
    let mut trace = Trace::default();
    trace.add_value(reported(0xb2, &[0xa1], resource("shop", "i-1")));
    assert_eq!(trace.to_jaeger().unwrap().spans.len(), 1);
}

#[test]
fn converted_trace_reads_back_its_ids() {
    let mut trace = Trace::default();
    trace.add_value(reported(0xa1, &[], resource("shop", "i-1")));
    trace.add_value(reported(0xb2, &[0xa1], resource("shop", "i-1")));
    assert!(trace.is_complete());
    let converted = trace.to_jaeger().unwrap();
    assert_eq!(converted.trace_id, "11111111111111111111111111111111");
    assert_eq!(decode_hex(&converted.trace_id), Some(vec![0x11; 16]));
    assert_eq!(converted.spans.len(), 2);
    assert_eq!(converted.spans[0].span_id, "a1");
    assert_eq!(converted.spans[1].span_id, "b2");
    assert_eq!(decode_hex(&converted.spans[0].span_id), Some(vec![0xa1]));
    assert_eq!(decode_hex(&converted.spans[1].span_id), Some(vec![0xb2]));
    assert_eq!(converted.spans[1].trace_id, converted.trace_id);
}

#[test]
fn converted_logs_carry_the_event_name_as_message() {
    let mut trace = Trace::default();
    trace.add_value(reported(0xa1, &[], resource("shop", "i-1")));
    let converted = trace.to_jaeger().unwrap();
    let fields = &converted.spans[0].logs[0].fields;
    assert_eq!(fields.len(), 1);
    assert_eq!(fields[0].key, "message");
    assert_eq!(fields[0].value, text("seen"));
    assert_eq!(converted.spans[0].logs[0].timestamp, 2);
}

#[test]
fn processes_are_listed_once_per_key() {
    let mut trace = Trace::default();
    trace.add_value(reported(0x01, &[], resource("shop", "i-1")));
    trace.add_value(reported(0x02, &[0x01], resource("cart", "i-2")));
    trace.add_value(reported(0x03, &[0x01], resource("shop-renamed", "i-1")));
    let converted = trace.to_jaeger().unwrap();
    assert_eq!(converted.processes.len(), 2);
    assert_eq!(converted.processes[0].key, "i-1");
    assert_eq!(converted.processes[0].service_name, "shop-renamed");
    assert_eq!(converted.processes[1].key, "i-2");
    assert_eq!(converted.processes[1].service_name, "cart");
    let ids: Vec<&str> = converted.spans.iter().map(|s| s.process_id.as_str()).collect();
    assert_eq!(ids, vec!["i-1", "i-2", "i-1"]);
}

#[test]
fn batch_holds_the_one_trace() {
    let mut trace = Trace::default();
    trace.add_value(reported(0xa1, &[], resource("shop", "i-1")));
    let batch = trace.to_jaeger_batch();
    assert_eq!(batch.data.len(), 1);
    assert_eq!(batch.data[0], trace.to_jaeger());
}
