use std::sync::Arc;

use otlp_embedded::proto::{AnyValue, KeyValue, Resource, ResourceSpans, ScopeSpans, Span};
use otlp_embedded::state::{Config, State};
use otlp_embedded::store::{outcome_of, Outcome};
use otlp_embedded::trace::SpanValue;

fn text(key: &str, value: &str) -> KeyValue {
    KeyValue { key: key.to_string(), value: Some(AnyValue::StringValue(value.to_string())) }
}

fn span(trace: u8, span_id: u8, parent: &[u8], name: &str, end: u64) -> Span {
    Span {
        trace_id: vec![trace; 16],
        span_id: vec![span_id],
        parent_span_id: parent.to_vec(),
        name: name.to_string(),
        end_time_unix_nano: end,
        ..Default::default()
    }
}

fn batch(service: &str, spans: Vec<Span>) -> ResourceSpans {
    ResourceSpans {
        resource: Some(Resource {
            attributes: vec![text("service.name", service)],
            dropped_attributes_count: 0,
        }),
        scope_spans: vec![ScopeSpans { spans, schema_url: String::new() }],
        schema_url: String::new(),
    }
}

fn roomy(max_length: u32) -> State {
    State::new(Config { max_length, max_memory_usage: 1 << 27 })
}

fn insert_root(state: &mut State, trace: u8) {
    state.apply(batch("shop", vec![span(trace, 0x01, &[], "root", 10)]));
}

fn ids(state: &State) -> Vec<u8> {
    state.get_all_complete().iter().map(|t| t.id()[0]).collect()
}

#[test]
fn new_store_is_empty() {
    let state = roomy(10);
    assert_eq!(state.len(), 0);
    assert_eq!(state.estimated_memory_usage(), 0);
    assert!(state.get_all_complete().is_empty());
    assert!(state.get_all_services().is_empty());
}

#[test]
fn spans_of_one_trace_are_assembled() {
    let mut state = roomy(10);
    state.apply(batch("shop", vec![span(1, 0xb2, &[0xa1], "child", 20)]));
    assert_eq!(state.len(), 1);
    assert!(state.get_all_complete().is_empty());
    state.apply(batch("shop", vec![span(1, 0xa1, &[], "root", 30)]));
    assert_eq!(state.len(), 1);
    let complete = state.get_all_complete();
    assert_eq!(complete.len(), 1);
    assert_eq!(complete[0].iter_valid().len(), 2);
    assert_eq!(complete[0].end_time(), 30);
}

#[test]
fn batch_feeds_every_span_of_every_scope() {
    let mut state = roomy(10);
    state.apply(ResourceSpans {
        resource: None,
        scope_spans: vec![
            ScopeSpans {
                spans: vec![span(1, 0x01, &[], "a", 1), span(2, 0x01, &[], "b", 2)],
                schema_url: String::new(),
            },
            ScopeSpans { spans: vec![], schema_url: String::new() },
            ScopeSpans { spans: vec![span(1, 0x02, &[0x01], "c", 3)], schema_url: String::new() },
        ],
        schema_url: String::new(),
    });
    assert_eq!(state.len(), 2);
    assert_eq!(ids(&state), vec![1, 2]);
    assert_eq!(state.get_by_id(&[1; 16]).unwrap().iter_valid().len(), 2);
}

#[test]
fn batch_without_resource_has_the_empty_resource() {
    let mut state = roomy(10);
    state.apply(ResourceSpans {
        resource: None,
        scope_spans: vec![ScopeSpans {
            spans: vec![span(1, 0x01, &[], "root", 1)],
            schema_url: String::new(),
        }],
        schema_url: String::new(),
    });
    let trace = state.get_by_id(&[1; 16]).unwrap();
    assert_eq!(*trace.root_span().unwrap().resource, Resource::default());
    assert_eq!(state.get_all_services(), vec!["unknown"]);
}

#[test]
fn span_without_id_makes_an_empty_trace_entry() {
    let mut state = roomy(10);
    state.apply(batch("shop", vec![span(1, 0x01, &[], "root", 1)]));
    let mut nameless = span(1, 0x00, &[], "nameless", 1);
    nameless.span_id = vec![];
    state.apply(batch("shop", vec![nameless]));
    assert_eq!(state.len(), 1);
    assert_eq!(state.get_by_id(&[1; 16]).unwrap().iter_valid().len(), 1);
}

#[test]
fn third_trace_pushes_the_first_out() {
    let mut state = roomy(2);
    insert_root(&mut state, 1);
    insert_root(&mut state, 2);
    insert_root(&mut state, 3);
    assert_eq!(state.len(), 2);
    assert!(state.get_by_id(&[1; 16]).is_none());
    assert!(state.get_by_id(&[2; 16]).is_some());
    assert!(state.get_by_id(&[3; 16]).is_some());
}

#[test]
fn store_never_holds_more_than_its_length_bound() {
    let mut state = roomy(3);
    for trace in 1..=20 {
        insert_root(&mut state, trace);
        assert!(state.len() <= 3);
    }
    assert_eq!(state.len(), 3);
    assert_eq!(ids(&state), vec![20, 19, 18]);
}

#[test]
fn looked_up_trace_outlives_the_next_oldest() {
    let mut state = roomy(3);
    insert_root(&mut state, 1);
    insert_root(&mut state, 2);
    insert_root(&mut state, 3);
    assert!(state.get_by_id(&[1; 16]).is_some());
    insert_root(&mut state, 4);
    assert_eq!(state.len(), 3);
    assert!(state.get_by_id(&[2; 16]).is_none());
    assert_eq!(ids(&state), vec![4, 1, 3]);
}

#[test]
fn reported_trace_becomes_the_most_recently_used() {
    let mut state = roomy(3);
    insert_root(&mut state, 1);
    insert_root(&mut state, 2);
    insert_root(&mut state, 3);
    state.apply(batch("shop", vec![span(1, 0x02, &[0x01], "child", 11)]));
    assert_eq!(ids(&state), vec![1, 3, 2]);
    insert_root(&mut state, 4);
    assert_eq!(ids(&state), vec![4, 1, 3]);
}

#[test]
fn lookup_of_an_unknown_id_finds_nothing_and_changes_nothing() {
    let mut state = roomy(3);
    insert_root(&mut state, 1);
    insert_root(&mut state, 2);
    assert!(state.get_by_id(&[9; 16]).is_none());
    assert!(state.get_by_id(&[]).is_none());
    assert_eq!(ids(&state), vec![2, 1]);
}

#[test]
fn lookup_by_hex_id_reads_the_id_in_either_case() {
    let mut state = roomy(3);
    state.apply(batch("shop", vec![span(0xab, 0x01, &[], "root", 1)]));
    insert_root(&mut state, 2);
    let lower = "ab".repeat(16);
    let upper = "AB".repeat(16);
    assert_eq!(state.get_by_hex_id(&lower).unwrap().id(), &[0xab; 16][..]);
    assert_eq!(ids(&state), vec![0xab, 2]);
    insert_root(&mut state, 3);
    assert_eq!(state.get_by_hex_id(&upper).unwrap().id(), &[0xab; 16][..]);
    assert_eq!(ids(&state), vec![0xab, 3, 2]);
    assert!(state.get_by_hex_id(&"cd".repeat(16)).is_none());
}

#[test]
fn lookup_by_unreadable_hex_id_finds_nothing() {
    let mut state = roomy(3);
    let mut without_trace_id = span(0, 0x01, &[], "root", 1);
    without_trace_id.trace_id = vec![];
    state.apply(batch("shop", vec![without_trace_id]));
    insert_root(&mut state, 2);
    assert!(state.get_by_hex_id("not hex").is_none());
    assert!(state.get_by_hex_id("abc").is_none());
    assert!(state.get_by_hex_id("0g").is_none());
    assert_eq!(state.len(), 2);
    let found = state.get_by_hex_id("").unwrap();
    assert!(found.id().is_empty());
    assert_eq!(state.len(), 2);
}

#[test]
fn length_bound_of_zero_keeps_nothing() {
    let mut state = roomy(0);
    insert_root(&mut state, 1);
    insert_root(&mut state, 2);
    assert_eq!(state.len(), 0);
    assert_eq!(state.estimated_memory_usage(), 0);
    assert!(state.get_by_id(&[1; 16]).is_none());
}

#[test]
fn memory_usage_follows_the_traces() {
    let mut state = roomy(10);
    insert_root(&mut state, 1);
    let one = state.estimated_memory_usage();
    assert!(one >= 16 + 16 + 1 + 4);
    insert_root(&mut state, 2);
    assert_eq!(state.estimated_memory_usage(), 2 * one);
    state.apply(batch("shop", vec![span(1, 0x02, &[0x01], "a-child-with-a-long-name", 11)]));
    assert!(state.estimated_memory_usage() > 2 * one);
}

#[test]
fn memory_bound_pushes_the_oldest_out() {
    let mut probe = roomy(10);
    insert_root(&mut probe, 1);
    let one = probe.estimated_memory_usage();

    let mut state = State::new(Config { max_length: 10, max_memory_usage: 2 * one });
    insert_root(&mut state, 1);
    insert_root(&mut state, 2);
    assert_eq!(state.len(), 2);
    assert_eq!(state.estimated_memory_usage(), 2 * one);
    insert_root(&mut state, 3);
    assert_eq!(state.len(), 2);
    assert_eq!(state.estimated_memory_usage(), 2 * one);
    assert_eq!(ids(&state), vec![3, 2]);
}

#[test]
fn trace_larger_than_the_memory_bound_is_not_kept() {
    let mut probe = roomy(10);
    insert_root(&mut probe, 1);
    let one = probe.estimated_memory_usage();

    let mut state = State::new(Config { max_length: 10, max_memory_usage: one - 1 });
    insert_root(&mut state, 1);
    assert_eq!(state.len(), 0);
    assert_eq!(state.estimated_memory_usage(), 0);
}

#[test]
fn trace_with_an_id_longer_than_the_memory_bound_is_not_kept() {
    let mut state = State::new(Config { max_length: 10, max_memory_usage: 15 });
    insert_root(&mut state, 1);
    assert_eq!(state.len(), 0);
    assert_eq!(state.estimated_memory_usage(), 0);
}

#[test]
fn growing_trace_pushes_others_out_of_memory() {
    let mut probe = roomy(10);
    insert_root(&mut probe, 1);
    let one = probe.estimated_memory_usage();

    let mut state = State::new(Config { max_length: 10, max_memory_usage: 2 * one + 1 });
    insert_root(&mut state, 1);
    insert_root(&mut state, 2);
    state.apply(batch("shop", vec![span(2, 0x02, &[0x01], "child", 11)]));
    assert_eq!(ids(&state), vec![2]);
    assert!(state.estimated_memory_usage() <= 2 * one + 1);
}

#[test]
fn complete_traces_are_listed_most_recently_used_first() {
    let mut state = roomy(10);
    insert_root(&mut state, 1);
    state.apply(batch("shop", vec![span(2, 0x02, &[0x01], "orphan", 5)]));
    insert_root(&mut state, 3);
    assert_eq!(state.len(), 3);
    assert_eq!(ids(&state), vec![3, 1]);
}

#[test]
fn services_are_listed_once() {
    let mut state = roomy(10);
    state.apply(batch("shop", vec![span(1, 0x01, &[], "checkout", 1)]));
    state.apply(batch("cart", vec![span(2, 0x01, &[], "add", 2)]));
    state.apply(batch("shop", vec![span(3, 0x01, &[], "pay", 3)]));
    state.apply(batch("ghost", vec![span(4, 0x02, &[0x01], "rootless", 4)]));
    assert_eq!(state.get_all_services(), vec!["cart", "shop"]);
}

#[test]
fn services_are_listed_in_ascending_order() {
    let mut state = roomy(10);
    state.apply(batch("b", vec![span(1, 0x01, &[], "one", 1)]));
    state.apply(batch("a", vec![span(2, 0x01, &[], "two", 2)]));
    state.apply(batch("b", vec![span(3, 0x01, &[], "three", 3)]));
    state.apply(batch("c", vec![span(4, 0x02, &[0x01], "child", 4)]));
    assert_eq!(state.get_all_services(), vec!["a", "b"]);
    state.apply(batch("B", vec![span(5, 0x01, &[], "five", 5)]));
    state.apply(batch("ab", vec![span(6, 0x01, &[], "six", 6)]));
    state.apply(batch("", vec![span(7, 0x01, &[], "seven", 7)]));
    state.apply(batch("é", vec![span(8, 0x01, &[], "eight", 8)]));
    assert_eq!(state.get_all_services(), vec!["", "B", "a", "ab", "b", "é"]);
    assert!(state.get_by_id(&[1; 16]).is_some());
    assert_eq!(state.get_all_services(), vec!["", "B", "a", "ab", "b", "é"]);
}

#[test]
fn operations_are_listed_in_ascending_order() {
    let mut state = roomy(10);
    state.apply(batch("shop", vec![span(1, 0x01, &[], "pay", 1)]));
    state.apply(batch("shop", vec![span(2, 0x01, &[], "checkout", 2)]));
    state.apply(batch("shop", vec![span(3, 0x01, &[], "add", 3)]));
    state.apply(batch("shop", vec![span(4, 0x01, &[], "pay", 4)]));
    state.apply(batch("cart", vec![span(5, 0x01, &[], "zip", 5)]));
    assert_eq!(state.get_operations("shop"), vec!["add", "checkout", "pay"]);
    assert!(state.get_by_id(&[1; 16]).is_some());
    assert_eq!(state.get_operations("shop"), vec!["add", "checkout", "pay"]);
    assert_eq!(state.len(), 5);
}

#[test]
fn services_of_incomplete_traces_are_not_listed() {
    let mut state = roomy(10);
    state.apply(batch("shop", vec![span(1, 0x01, &[], "checkout", 1)]));
    state.apply(batch("cart", vec![span(2, 0x01, &[], "add", 2)]));
    state.apply(batch("cart", vec![span(2, 0x03, &[0x02], "late", 3)]));
    assert_eq!(state.get_all_services(), vec!["shop"]);
    assert!(state.get_operations("cart").is_empty());
    state.apply(batch("cart", vec![span(2, 0x02, &[0x01], "middle", 4)]));
    assert_eq!(state.get_all_services(), vec!["cart", "shop"]);
    assert_eq!(state.get_operations("cart"), vec!["add"]);
}

#[test]
fn operations_are_those_of_the_service() {
    let mut state = roomy(10);
    state.apply(batch("shop", vec![span(1, 0x01, &[], "checkout", 1)]));
    state.apply(batch("cart", vec![span(2, 0x01, &[], "add", 2)]));
    state.apply(batch("shop", vec![span(3, 0x01, &[], "pay", 3)]));
    state.apply(batch("shop", vec![span(4, 0x01, &[], "checkout", 4)]));
    assert_eq!(state.get_operations("shop"), vec!["checkout", "pay"]);
    assert_eq!(state.get_operations("cart"), vec!["add"]);
    assert!(state.get_operations("nobody").is_empty());
}

#[test]
fn traces_are_listed_latest_first() {
    let mut state = roomy(10);
    state.apply(batch("shop", vec![span(1, 0x01, &[], "a", 300)]));
    state.apply(batch("shop", vec![span(2, 0x01, &[], "b", 100)]));
    state.apply(batch("shop", vec![span(3, 0x01, &[], "c", 200)]));
    state.apply(batch("shop", vec![span(4, 0x02, &[0x01], "incomplete", 999)]));
    let listed: Vec<u8> = state.query_traces(None, None, 10).iter().map(|t| t.id()[0]).collect();
    assert_eq!(listed, vec![1, 3, 2]);
}

#[test]
fn equally_late_traces_are_listed_most_recently_used_first() {
    let mut state = roomy(10);
    state.apply(batch("shop", vec![span(1, 0x01, &[], "a", 100)]));
    state.apply(batch("shop", vec![span(2, 0x01, &[], "b", 100)]));
    state.apply(batch("shop", vec![span(3, 0x01, &[], "c", 500)]));
    state.apply(batch("shop", vec![span(4, 0x01, &[], "d", 100)]));
    let listed: Vec<u8> = state.query_traces(None, None, 10).iter().map(|t| t.id()[0]).collect();
    assert_eq!(listed, vec![3, 4, 2, 1]);
}

#[test]
fn listing_stops_at_the_limit() {
    let mut state = roomy(10);
    state.apply(batch("shop", vec![span(1, 0x01, &[], "a", 300)]));
    state.apply(batch("shop", vec![span(2, 0x01, &[], "b", 100)]));
    state.apply(batch("shop", vec![span(3, 0x01, &[], "c", 200)]));
    let listed: Vec<u8> = state.query_traces(None, None, 2).iter().map(|t| t.id()[0]).collect();
    assert_eq!(listed, vec![1, 3]);
    assert!(state.query_traces(None, None, 0).is_empty());
}

#[test]
fn listing_can_ask_for_a_service_and_an_operation() {
    let mut state = roomy(10);
    state.apply(batch("shop", vec![span(1, 0x01, &[], "checkout", 1)]));
    state.apply(batch("cart", vec![span(2, 0x01, &[], "checkout", 2)]));
    state.apply(batch("shop", vec![span(3, 0x01, &[], "pay", 3)]));
    let of = |service: Option<&str>, operation: Option<&str>| -> Vec<u8> {
        state.query_traces(service, operation, 10).iter().map(|t| t.id()[0]).collect()
    };
    assert_eq!(of(Some("shop"), None), vec![3, 1]);
    assert_eq!(of(None, Some("checkout")), vec![2, 1]);
    assert_eq!(of(Some("shop"), Some("checkout")), vec![1]);
    assert!(of(Some("nobody"), None).is_empty());
    assert!(of(Some("cart"), Some("pay")).is_empty());
}

#[test]
fn listing_does_not_count_as_use() {
    let mut state = roomy(2);
    insert_root(&mut state, 1);
    insert_root(&mut state, 2);
    assert_eq!(state.query_traces(None, None, 10).len(), 2);
    assert_eq!(state.get_all_complete().len(), 2);
    insert_root(&mut state, 3);
    assert_eq!(ids(&state), vec![3, 2]);
}

#[test]
fn add_value_takes_one_span() {
    let mut state = roomy(10);
    state.add_value(SpanValue {
        span: span(7, 0x01, &[], "root", 1),
        resource: Arc::new(Resource::default()),
    });
    assert_eq!(state.len(), 1);
    assert!(state.get_by_id(&[7; 16]).unwrap().is_complete());
}

fn insert_numbered(state: &mut State, number: u16) {
    let mut root = span(0, 0x01, &[], "root", u64::from(number));
    root.trace_id = number.to_be_bytes().to_vec();
    state.apply(batch("shop", vec![root]));
}

#[test]
fn accounting_holds_while_the_map_grows_and_shrinks() {
    let mut probe = roomy(10);
    insert_numbered(&mut probe, 0);
    let one = probe.estimated_memory_usage();

    let mut state = roomy(1000);
    for number in 0..3000 {
        insert_numbered(&mut state, number);
        let expected = usize::from(number).min(999) + 1;
        assert_eq!(state.len(), expected);
        assert_eq!(state.estimated_memory_usage(), expected * one);
    }
    let kept: Vec<Vec<u8>> = state.get_all_complete().iter().map(|t| t.id().to_vec()).collect();
    let expected: Vec<Vec<u8>> = (2000..3000u16).rev().map(|n| n.to_be_bytes().to_vec()).collect();
    assert_eq!(kept, expected);
    for number in 0..2000u16 {
        assert!(state.get_by_id(&number.to_be_bytes()).is_none());
    }
    assert!(state.get_by_id(&2000u16.to_be_bytes()).is_some());
    insert_numbered(&mut state, 3000);
    assert!(state.get_by_id(&2000u16.to_be_bytes()).is_some());
    assert!(state.get_by_id(&2001u16.to_be_bytes()).is_none());
}

#[test]
fn outcome_says_what_became_of_the_trace() {
    let mut state = roomy(2);
    let first = state.add_value(SpanValue {
        span: span(1, 0x01, &[], "root", 1),
        resource: Arc::new(Resource::default()),
    });
    assert!(first.stored);
    assert!(!first.refused);
    assert_eq!(first.kept, 0);
    assert!(first.charge >= 16 + 16 + 1 + 4);
    assert_eq!(state.estimated_memory_usage(), first.charge);

    let outcomes = state.apply(batch(
        "shop",
        vec![span(2, 0x01, &[], "root", 1), span(1, 0x02, &[0x01], "child", 2)],
    ));
    assert_eq!(outcomes.len(), 2);
    assert!(outcomes[0].stored && outcomes[1].stored);
    assert_eq!(outcomes[0].kept, 1);
    assert_eq!(outcomes[1].kept, 1);
    assert!(outcomes[1].charge > first.charge);
    assert_eq!(state.estimated_memory_usage(), outcomes[0].charge + outcomes[1].charge);

    let third = state.apply(batch("shop", vec![span(3, 0x01, &[], "root", 1)]));
    assert_eq!(third.len(), 1);
    assert!(third[0].stored);
    assert_eq!(third[0].kept, 2);
    assert_eq!(state.len(), 2);
    assert_eq!(ids(&state), vec![3, 1]);
}

#[test]
fn outcome_of_a_store_that_keeps_nothing_is_not_stored() {
    let mut state = roomy(0);
    let outcomes = state.apply(batch("shop", vec![span(1, 0x01, &[], "root", 1)]));
    assert_eq!(outcomes.len(), 1);
    assert!(outcomes[0].refused);
    assert!(!outcomes[0].stored);
    assert_eq!(outcomes[0].kept, 0);
    assert_eq!(state.len(), 0);
}

#[test]
fn a_trace_over_the_memory_bound_is_taken_and_then_given_up() {
    let mut state = State::new(Config { max_length: 10, max_memory_usage: 15 });
    let outcomes = state.apply(batch("shop", vec![span(1, 0x01, &[], "root", 1)]));
    assert!(!outcomes[0].refused);
    assert!(outcomes[0].stored);
    assert!(outcomes[0].charge > 15);
    assert_eq!(state.len(), 0);
}

#[test]
fn outcome_of_a_refusal_keeps_all_others() {
    assert_eq!(
        outcome_of(40, 3, false, false, 3),
        Outcome { charge: 40, refused: true, stored: false, kept: 3 }
    );
    assert_eq!(
        outcome_of(40, 3, false, true, 9),
        Outcome { charge: 40, refused: true, stored: false, kept: 3 }
    );
}

#[test]
fn outcome_of_an_insertion_counts_the_others() {
    assert_eq!(
        outcome_of(40, 3, true, true, 4),
        Outcome { charge: 40, refused: false, stored: true, kept: 3 }
    );
    assert_eq!(
        outcome_of(40, 3, true, true, 2),
        Outcome { charge: 40, refused: false, stored: true, kept: 1 }
    );
    assert_eq!(
        outcome_of(0, 0, true, true, 1),
        Outcome { charge: 0, refused: false, stored: true, kept: 0 }
    );
}

#[test]
fn outcome_of_a_failed_insertion_counts_what_the_map_holds() {
    assert_eq!(
        outcome_of(40, 3, true, false, 2),
        Outcome { charge: 40, refused: false, stored: false, kept: 2 }
    );
    assert_eq!(
        outcome_of(40, 3, true, false, 0),
        Outcome { charge: 40, refused: false, stored: false, kept: 0 }
    );
}

#[test]
fn outcome_of_an_empty_batch_is_empty() {
    let mut state = roomy(3);
    let outcomes: Vec<Outcome> = state.apply(ResourceSpans {
        resource: None,
        scope_spans: vec![],
        schema_url: String::new(),
    });
    assert!(outcomes.is_empty());
    assert_eq!(state.len(), 0);
}
