//! Estimates of the heap memory that a trace takes.
//!
//! An estimate adds up what the strings and byte strings of a value have
//! allocated. It leaves out what the value takes where it stands: the size
//! of a struct itself is not counted. How much a string has allocated
//! depends on the allocator, so an estimate is not a function of the value.
//! What is known of it is a floor: it is never less than the number of
//! bytes and characters that the value holds, unless that number is more
//! than the machine's word holds, where the estimate stops at the largest
//! number that fits.

use vstd::prelude::*;
use crate::proto::{
    AnyValue, AnyValueView, Event, EventView, KeyValue, KeyValueView, Link, LinkView, Resource,
    ResourceView, Span, SpanView, Status, StatusView,
};

verus! {

/// `get_size2::GetSize::get_heap_size` of a `String`: the capacity of the
/// string, in bytes. A string holds at least one byte for each of its
/// characters, and its capacity is at least what it holds.
#[verifier::external_body]
pub(crate) fn string_heap_size(s: &String) -> (r: usize)
    ensures
        r >= s@.len(),
{
    get_size2::GetSize::get_heap_size(s)
}

/// `get_size2::GetSize::get_heap_size` of a `Vec<u8>`: the capacity of the
/// vector, which is at least its length. (A byte takes one byte where it
/// stands and nothing on the heap.)
#[verifier::external_body]
pub(crate) fn bytes_heap_size(b: &Vec<u8>) -> (r: usize)
    ensures
        r >= b@.len(),
{
    get_size2::GetSize::get_heap_size(b)
}

/// Whether an estimate is at least the given floor, or has stopped at the
/// largest number that the machine's word holds.
pub open spec fn reaches(estimate: usize, floor: nat) -> bool {
    estimate >= floor || estimate == usize::MAX
}

/// The floor of the estimate for an attribute value: the characters and
/// bytes that it holds.
pub open spec fn value_floor(v: AnyValueView) -> nat
    decreases v,
{
    match v {
        AnyValueView::StringValue(s) => s.len(),
        AnyValueView::ArrayValue(a) => values_floor(a),
        AnyValueView::KvlistValue(l) => attributes_floor(l),
        AnyValueView::BytesValue(b) => b.len(),
        _ => 0,
    }
}

/// The floor of the estimate for the elements of a list.
pub open spec fn values_floor(a: Seq<Option<AnyValueView>>) -> nat
    decreases a,
{
    if a.len() == 0 {
        0
    } else {
        values_floor(a.drop_last()) + match a.last() {
            Some(v) => value_floor(v),
            None => 0,
        }
    }
}

/// The floor of the estimate for one attribute: its key and its value.
pub open spec fn attribute_floor(kv: KeyValueView) -> nat
    decreases kv,
{
    kv.key.len() + match kv.value {
        Some(v) => value_floor(v),
        None => 0,
    }
}

/// The floor of the estimate for a list of attributes.
pub open spec fn attributes_floor(l: Seq<KeyValueView>) -> nat
    decreases l,
{
    if l.len() == 0 {
        0
    } else {
        attributes_floor(l.drop_last()) + attribute_floor(l.last())
    }
}

/// The floor of the estimate for a resource.
pub open spec fn resource_floor(resource: ResourceView) -> nat {
    attributes_floor(resource.attributes)
}

/// The floor of the estimate for an event.
pub open spec fn event_floor(event: EventView) -> nat {
    event.name.len() + attributes_floor(event.attributes)
}

/// The floor of the estimate for a list of events.
pub open spec fn events_floor(events: Seq<EventView>) -> nat
    decreases events.len(),
{
    if events.len() == 0 {
        0
    } else {
        events_floor(events.drop_last()) + event_floor(events.last())
    }
}

/// The floor of the estimate for a link.
pub open spec fn link_floor(link: LinkView) -> nat {
    link.trace_id.len() + link.span_id.len() + link.trace_state.len() + attributes_floor(
        link.attributes,
    )
}

/// The floor of the estimate for a list of links.
pub open spec fn links_floor(links: Seq<LinkView>) -> nat
    decreases links.len(),
{
    if links.len() == 0 {
        0
    } else {
        links_floor(links.drop_last()) + link_floor(links.last())
    }
}

/// The floor of the estimate for a status.
pub open spec fn status_floor(status: Option<StatusView>) -> nat {
    match status {
        Some(s) => s.message.len(),
        None => 0,
    }
}

/// The floor of the estimate for a span.
pub open spec fn span_floor(span: SpanView) -> nat {
    span.trace_id.len() + span.span_id.len() + span.trace_state.len()
        + span.parent_span_id.len() + span.name.len() + attributes_floor(span.attributes)
        + status_floor(span.status) + events_floor(span.events) + links_floor(span.links)
}

/// The sum of two estimates, stopped at the largest number that fits.
pub fn add_sizes(a: usize, b: usize) -> (r: usize)
    ensures
        r == if a + b <= usize::MAX {
            (a + b) as usize
        } else {
            usize::MAX
        },
        forall|x: nat, y: nat| reaches(a, x) && reaches(b, y) ==> #[trigger] reaches(r, x + y),
{
    a.saturating_add(b)
}

/// The estimate for an attribute value.
pub(crate) fn any_value_heap_size(value: &AnyValue) -> (r: usize)
    ensures
        reaches(r, value_floor(value.deep_view())),
    decreases *value,
{
    match value {
        AnyValue::StringValue(s) => string_heap_size(s),
        AnyValue::BoolValue(_) => 0,
        AnyValue::IntValue(_) => 0,
        AnyValue::DoubleValue(_) => 0,
        AnyValue::ArrayValue(a) => {
            let ghost elements = value.deep_view()->ArrayValue_0;
            let mut total: usize = 0;
            let mut i: usize = 0;
            while i < a.len()
                invariant
                    i <= a.len(),
                    *value == AnyValue::ArrayValue(*a),
                    elements == value.deep_view()->ArrayValue_0,
                    elements.len() == a.len(),
                    reaches(total, values_floor(elements.take(i as int))),
                decreases a.len() - i,
            {
                proof {
                    broadcast use vstd::std_specs::vec::axiom_vec_index_decreases;

                    assert(decreases_to!(*a => a[i as int]));
                    assert(decreases_to!(*value => value->ArrayValue_0));
                    assert(elements.take(i + 1).drop_last() == elements.take(i as int));
                    assert(elements.take(i + 1).last() == crate::proto::optional_value_view(
                        a@[i as int],
                    ));
                }
                let one = match &a[i] {
                    Some(x) => any_value_heap_size(x),
                    None => 0,
                };
                let ghost floor = values_floor(elements.take(i as int));
                let ghost step = match elements[i as int] {
                    Some(v) => value_floor(v),
                    None => 0,
                };
                assert(reaches(total, floor) && reaches(one, step));
                total = add_sizes(total, one);
                assert(reaches(total, floor + step));
                i += 1;
            }
            assert(elements.take(i as int) == elements);
            total
        },
        AnyValue::KvlistValue(l) => {
            let ghost attributes = value.deep_view()->KvlistValue_0;
            let mut total: usize = 0;
            let mut i: usize = 0;
            while i < l.len()
                invariant
                    i <= l.len(),
                    *value == AnyValue::KvlistValue(*l),
                    attributes == value.deep_view()->KvlistValue_0,
                    attributes.len() == l.len(),
                    reaches(total, attributes_floor(attributes.take(i as int))),
                decreases l.len() - i,
            {
                proof {
                    broadcast use vstd::std_specs::vec::axiom_vec_index_decreases;

                    assert(decreases_to!(*l => l[i as int]));
                    assert(decreases_to!(*value => value->KvlistValue_0));
                    assert(attributes.take(i + 1).drop_last() == attributes.take(i as int));
                    assert(attributes.take(i + 1).last() == crate::proto::key_value_view(
                        l@[i as int],
                    ));
                }
                let one = key_value_heap_size(&l[i]);
                let ghost floor = attributes_floor(attributes.take(i as int));
                let ghost step = attribute_floor(attributes[i as int]);
                assert(reaches(total, floor) && reaches(one, step));
                total = add_sizes(total, one);
                assert(reaches(total, floor + step));
                i += 1;
            }
            assert(attributes.take(i as int) == attributes);
            total
        },
        AnyValue::BytesValue(b) => bytes_heap_size(b),
    }
}

/// The estimate for one attribute.
pub(crate) fn key_value_heap_size(kv: &KeyValue) -> (r: usize)
    ensures
        reaches(r, attribute_floor(kv.deep_view())),
    decreases *kv,
{
    let value = match &kv.value {
        Some(v) => any_value_heap_size(v),
        None => 0,
    };
    let key = string_heap_size(&kv.key);
    let ghost key_floor = kv.key@.len();
    let ghost value_floor = match kv.deep_view().value {
        Some(v) => value_floor(v),
        None => 0,
    };
    assert(reaches(key, key_floor) && reaches(value, value_floor));
    add_sizes(key, value)
}

/// The estimate for a list of attributes.
pub(crate) fn attributes_heap_size(attributes: &Vec<KeyValue>) -> (r: usize)
    ensures
        reaches(r, attributes_floor(attributes.deep_view())),
{
    let ghost all = attributes.deep_view();
    let mut total: usize = 0;
    let mut i: usize = 0;
    while i < attributes.len()
        invariant
            i <= attributes.len(),
            all == attributes.deep_view(),
            reaches(total, attributes_floor(all.take(i as int))),
        decreases attributes.len() - i,
    {
        proof {
            assert(all.take(i + 1).drop_last() == all.take(i as int));
            assert(all.take(i + 1).last() == attributes@[i as int].deep_view());
        }
        let one = key_value_heap_size(&attributes[i]);
        let ghost floor = attributes_floor(all.take(i as int));
        let ghost step = attribute_floor(all[i as int]);
        assert(reaches(total, floor) && reaches(one, step));
        total = add_sizes(total, one);
        assert(reaches(total, floor + step));
        i += 1;
    }
    assert(all.take(i as int) == all);
    total
}

/// The estimate for a resource.
pub(crate) fn resource_heap_size(resource: &Resource) -> (r: usize)
    ensures
        reaches(r, resource_floor(resource.deep_view())),
{
    attributes_heap_size(&resource.attributes)
}

fn event_heap_size(event: &Event) -> (r: usize)
    ensures
        reaches(r, event_floor(event.deep_view())),
{
    let name = string_heap_size(&event.name);
    let attributes = attributes_heap_size(&event.attributes);
    assert(reaches(name, event.name@.len()) && reaches(
        attributes,
        attributes_floor(event.attributes.deep_view()),
    ));
    add_sizes(name, attributes)
}

fn link_heap_size(link: &Link) -> (r: usize)
    ensures
        reaches(r, link_floor(link.deep_view())),
{
    let trace_id = bytes_heap_size(&link.trace_id);
    let span_id = bytes_heap_size(&link.span_id);
    assert(reaches(trace_id, link.trace_id@.len()) && reaches(span_id, link.span_id@.len()));
    let ids = add_sizes(trace_id, span_id);
    let trace_state = string_heap_size(&link.trace_state);
    assert(reaches(ids, link.trace_id@.len() + link.span_id@.len()) && reaches(
        trace_state,
        link.trace_state@.len(),
    ));
    let fixed = add_sizes(ids, trace_state);
    let attributes = attributes_heap_size(&link.attributes);
    assert(reaches(
        fixed,
        link.trace_id@.len() + link.span_id@.len() + link.trace_state@.len(),
    ) && reaches(attributes, attributes_floor(link.attributes.deep_view())));
    add_sizes(fixed, attributes)
}

fn status_heap_size(status: &Option<Status>) -> (r: usize)
    ensures
        reaches(r, status_floor(status.deep_view())),
{
    match status {
        Some(s) => string_heap_size(&s.message),
        None => 0,
    }
}

fn events_heap_size(events: &Vec<Event>) -> (r: usize)
    ensures
        reaches(r, events_floor(events.deep_view())),
{
    let ghost all = events.deep_view();
    let mut total: usize = 0;
    let mut i: usize = 0;
    while i < events.len()
        invariant
            i <= events.len(),
            all == events.deep_view(),
            reaches(total, events_floor(all.take(i as int))),
        decreases events.len() - i,
    {
        proof {
            assert(all.take(i + 1).drop_last() == all.take(i as int));
            assert(all.take(i + 1).last() == events@[i as int].deep_view());
        }
        let one = event_heap_size(&events[i]);
        let ghost floor = events_floor(all.take(i as int));
        let ghost step = event_floor(all[i as int]);
        assert(reaches(total, floor) && reaches(one, step));
        total = add_sizes(total, one);
        assert(reaches(total, floor + step));
        i += 1;
    }
    assert(all.take(i as int) == all);
    total
}

fn links_heap_size(links: &Vec<Link>) -> (r: usize)
    ensures
        reaches(r, links_floor(links.deep_view())),
{
    let ghost all = links.deep_view();
    let mut total: usize = 0;
    let mut i: usize = 0;
    while i < links.len()
        invariant
            i <= links.len(),
            all == links.deep_view(),
            reaches(total, links_floor(all.take(i as int))),
        decreases links.len() - i,
    {
        proof {
            assert(all.take(i + 1).drop_last() == all.take(i as int));
            assert(all.take(i + 1).last() == links@[i as int].deep_view());
        }
        let one = link_heap_size(&links[i]);
        let ghost floor = links_floor(all.take(i as int));
        let ghost step = link_floor(all[i as int]);
        assert(reaches(total, floor) && reaches(one, step));
        total = add_sizes(total, one);
        assert(reaches(total, floor + step));
        i += 1;
    }
    assert(all.take(i as int) == all);
    total
}

/// The estimate for a span.
pub(crate) fn span_heap_size(span: &Span) -> (r: usize)
    ensures
        reaches(r, span_floor(span.deep_view())),
{
    let ghost view = span.deep_view();
    let trace_id = bytes_heap_size(&span.trace_id);
    let span_id = bytes_heap_size(&span.span_id);
    assert(reaches(trace_id, view.trace_id.len()) && reaches(span_id, view.span_id.len()));
    let total = add_sizes(trace_id, span_id);
    let ghost floor = view.trace_id.len() + view.span_id.len();

    let trace_state = string_heap_size(&span.trace_state);
    assert(reaches(total, floor) && reaches(trace_state, view.trace_state.len()));
    let total = add_sizes(total, trace_state);
    let ghost floor = floor + view.trace_state.len();

    let parent = bytes_heap_size(&span.parent_span_id);
    assert(reaches(total, floor) && reaches(parent, view.parent_span_id.len()));
    let total = add_sizes(total, parent);
    let ghost floor = floor + view.parent_span_id.len();

    let name = string_heap_size(&span.name);
    assert(reaches(total, floor) && reaches(name, view.name.len()));
    let total = add_sizes(total, name);
    let ghost floor = floor + view.name.len();

    let attributes = attributes_heap_size(&span.attributes);
    assert(reaches(total, floor) && reaches(attributes, attributes_floor(view.attributes)));
    let total = add_sizes(total, attributes);
    let ghost floor = floor + attributes_floor(view.attributes);

    let status = status_heap_size(&span.status);
    assert(reaches(total, floor) && reaches(status, status_floor(view.status)));
    let total = add_sizes(total, status);
    let ghost floor = floor + status_floor(view.status);

    let events = events_heap_size(&span.events);
    assert(reaches(total, floor) && reaches(events, events_floor(view.events)));
    let total = add_sizes(total, events);
    let ghost floor = floor + events_floor(view.events);

    let links = links_heap_size(&span.links);
    assert(reaches(total, floor) && reaches(links, links_floor(view.links)));
    add_sizes(total, links)
}

} // verus!
