//! Span-tree assembly: one trace, put together from the spans reported for
//! it, in whatever order and however often they arrive.

use std::sync::Arc;
use vstd::prelude::*;
use crate::hex::{hex, hex_view};
use crate::jaeger::{extract_string, extract_string_spec};
use crate::proto::{
    AnyValue, AnyValueView, Event, EventView, KeyValue, KeyValueView, Resource, ResourceView, Span,
    SpanView,
};
use crate::size::{
    add_sizes, bytes_heap_size, reaches, resource_floor, resource_heap_size, span_floor,
    span_heap_size,
};

verus! {

/// `Arc::clone` hands out another pointer to the same allocation, so what
/// the new pointer leads to is what the old one leads to.
#[verifier::external_body]
pub(crate) fn share(resource: &Arc<Resource>) -> (r: Arc<Resource>)
    ensures
        r == *resource,
{
    Arc::clone(resource)
}

/// One reported span, with the resource that reported it. The resource is
/// shared by all spans of one batch.
#[derive(Debug, PartialEq)]
pub struct SpanValue {
    pub span: Span,
    pub resource: Arc<Resource>,
}

/// The model of [`SpanValue`].
pub struct SpanValueView {
    pub span: SpanView,
    pub resource: ResourceView,
}

impl DeepView for SpanValue {
    type V = SpanValueView;

    open spec fn deep_view(&self) -> SpanValueView {
        SpanValueView { span: self.span.deep_view(), resource: self.resource.deep_view() }
    }
}

impl Clone for SpanValue {
    fn clone(&self) -> (r: Self)
        ensures
            r.deep_view() == self.deep_view(),
    {
        SpanValue { span: self.span.clone(), resource: share(&self.resource) }
    }
}

impl SpanValue {
    /// The name of the service that reported the span: the resource's
    /// attribute `service.name`, or `unknown`.
    pub fn service_name(&self) -> (r: &str)
        ensures
            r@ == self.deep_view().service_name(),
    {
        let attr = self.resource.attributes.as_slice();
        assert(attr.deep_view() =~= self.resource.attributes.deep_view());
        extract_string(attr, "service.name")
    }

    /// The instance of the service that reported the span: the resource's
    /// attribute `service.instance.id`, or `unknown`.
    pub fn service_instance_id(&self) -> (r: &str)
        ensures
            r@ == self.deep_view().service_instance_id(),
    {
        let attr = self.resource.attributes.as_slice();
        assert(attr.deep_view() =~= self.resource.attributes.deep_view());
        extract_string(attr, "service.instance.id")
    }

    /// The operation: the span's name.
    pub fn operation(&self) -> (r: &str)
        ensures
            r@ == self.deep_view().span.name,
    {
        self.span.name.as_str()
    }
}

impl SpanValueView {
    pub open spec fn service_name(self) -> Seq<char> {
        extract_string_spec(self.resource.attributes, "service.name"@)
    }

    pub open spec fn service_instance_id(self) -> Seq<char> {
        extract_string_spec(self.resource.attributes, "service.instance.id"@)
    }

    /// The value as it is stored: each event has one more attribute, with
    /// the key `message` and the event's name as its value.
    pub open spec fn with_messages(self) -> SpanValueView {
        SpanValueView {
            span: SpanView {
                events: self.span.events.map_values(|e: EventView| event_with_message(e)),
                ..self.span
            },
            resource: self.resource,
        }
    }

    /// This value, already stored, after another report of the same span
    /// came in: attributes and events of the new report follow those that
    /// are there, and the span's time grows to cover both. Everything else
    /// stays as the first report gave it.
    pub open spec fn merge(self, new: SpanValueView) -> SpanValueView {
        SpanValueView {
            span: SpanView {
                attributes: self.span.attributes + new.span.attributes,
                events: self.span.events + new.span.events,
                start_time_unix_nano: if self.span.start_time_unix_nano
                    <= new.span.start_time_unix_nano {
                    self.span.start_time_unix_nano
                } else {
                    new.span.start_time_unix_nano
                },
                end_time_unix_nano: if self.span.end_time_unix_nano
                    >= new.span.end_time_unix_nano {
                    self.span.end_time_unix_nano
                } else {
                    new.span.end_time_unix_nano
                },
                ..self.span
            },
            resource: self.resource,
        }
    }
}

/// The attribute that carries an event's name.
pub open spec fn message_attribute(name: Seq<char>) -> KeyValueView {
    KeyValueView { key: "message"@, value: Some(AnyValueView::StringValue(name)) }
}

/// An event with the attribute that carries its name added at the end.
pub open spec fn event_with_message(e: EventView) -> EventView {
    EventView { attributes: e.attributes.push(message_attribute(e.name)), ..e }
}

/// A node of the span tree: a span that was reported, or one that is only
/// known because another span names it as its parent.
#[derive(Debug, PartialEq)]
pub enum SpanNode {
    Placeholder,
    Value(SpanValue),
}

/// The model of [`SpanNode`].
pub enum SpanNodeView {
    Placeholder,
    Value(SpanValueView),
}

impl DeepView for SpanNode {
    type V = SpanNodeView;

    open spec fn deep_view(&self) -> SpanNodeView {
        match *self {
            SpanNode::Placeholder => SpanNodeView::Placeholder,
            SpanNode::Value(v) => SpanNodeView::Value(v.deep_view()),
        }
    }
}

impl Clone for SpanNode {
    fn clone(&self) -> (r: Self)
        ensures
            r.deep_view() == self.deep_view(),
    {
        match self {
            SpanNode::Placeholder => SpanNode::Placeholder,
            SpanNode::Value(v) => SpanNode::Value(v.clone()),
        }
    }
}

impl SpanNodeView {
    /// The node after a report of its span came in.
    pub open spec fn upsert(self, new: SpanValueView) -> SpanNodeView {
        match self {
            SpanNodeView::Placeholder => SpanNodeView::Value(new),
            SpanNodeView::Value(old) => SpanNodeView::Value(old.merge(new)),
        }
    }
}

/// A node under its span id.
#[derive(Debug, PartialEq)]
struct SpanEntry {
    id: Vec<u8>,
    node: SpanNode,
}

impl DeepView for SpanEntry {
    type V = (Seq<u8>, SpanNodeView);

    closed spec fn deep_view(&self) -> (Seq<u8>, SpanNodeView) {
        (self.id@, self.node.deep_view())
    }
}

/// A trace: the spans that share one trace id, each under its span id.
#[derive(Debug, PartialEq)]
pub struct Trace {
    spans: Vec<SpanEntry>,
    end_time: u64,
}

/// The model of a trace: its nodes in the order in which their ids were
/// first seen, each with its id, and the latest end time reported so far,
/// in nanoseconds since the epoch.
pub struct TraceView {
    pub spans: Seq<(Seq<u8>, SpanNodeView)>,
    pub end_time: u64,
}

impl TraceView {
    /// Whether no span id occurs twice.
    pub open spec fn distinct(self) -> bool {
        forall|i: int, j: int|
            0 <= i < j < self.spans.len() ==> (#[trigger] self.spans[i]).0 != (
            #[trigger] self.spans[j]).0
    }

    /// Whether every node stands under the id of its span: no id is empty,
    /// and a reported span stands under its own span id.
    pub open spec fn keyed(self) -> bool {
        forall|i: int|
            0 <= i < self.spans.len() ==> {
                let entry = #[trigger] self.spans[i];
                &&& entry.0.len() > 0
                &&& entry.1 is Value ==> entry.1->Value_0.span.span_id == entry.0
            }
    }

    /// The invariant of a trace: no span id has two nodes, and every node
    /// stands under the id of its span.
    pub open spec fn well_formed(self) -> bool {
        self.distinct() && self.keyed()
    }

    /// Whether the trace has a node for the given span id.
    pub open spec fn has(self, id: Seq<u8>) -> bool {
        exists|i: int| 0 <= i < self.spans.len() && (#[trigger] self.spans[i]).0 == id
    }

    /// Where the node for the given span id stands.
    pub open spec fn index_of(self, id: Seq<u8>) -> int {
        choose|i: int| 0 <= i < self.spans.len() && (#[trigger] self.spans[i]).0 == id
    }

    /// The node for the given span id, where the trace has one.
    pub open spec fn node(self, id: Seq<u8>) -> Option<SpanNodeView> {
        if self.has(id) {
            Some(self.spans[self.index_of(id)].1)
        } else {
            None
        }
    }

    /// Whether every node is a reported span.
    pub open spec fn is_complete(self) -> bool {
        forall|i: int| 0 <= i < self.spans.len() ==> (#[trigger] self.spans[i]).1 is Value
    }

    /// The reported spans, in the order of their nodes.
    pub open spec fn values(self) -> Seq<SpanValueView> {
        values_of(self.spans)
    }

    /// The root of the trace: the first reported span that has no parent.
    /// A trace that is not complete has no root yet.
    pub open spec fn root(self) -> Option<SpanValueView> {
        if self.is_complete() {
            first_root(self.values())
        } else {
            None
        }
    }

    /// The trace with a node for the given parent id, added as a
    /// placeholder where there was none.
    pub open spec fn with_parent(self, parent: Seq<u8>) -> TraceView {
        if parent.len() > 0 && !self.has(parent) {
            TraceView { spans: self.spans.push((parent, SpanNodeView::Placeholder)), ..self }
        } else {
            self
        }
    }

    /// The trace with the given value stored under the given id: in the
    /// node that is there, or in a new node at the end.
    pub open spec fn with_value(self, id: Seq<u8>, value: SpanValueView) -> TraceView {
        if self.has(id) {
            let i = self.index_of(id);
            TraceView { spans: self.spans.update(i, (id, self.spans[i].1.upsert(value))), ..self }
        } else {
            TraceView { spans: self.spans.push((id, SpanNodeView::Value(value))), ..self }
        }
    }

    /// The trace after a span was reported. A span without an id changes
    /// nothing.
    pub open spec fn add_value(self, value: SpanValueView) -> TraceView {
        if value.span.span_id.len() == 0 {
            self
        } else {
            let t = self.with_parent(value.span.parent_span_id).with_value(
                value.span.span_id,
                value.with_messages(),
            );
            TraceView {
                end_time: if self.end_time >= value.span.end_time_unix_nano {
                    self.end_time
                } else {
                    value.span.end_time_unix_nano
                },
                ..t
            }
        }
    }
}

/// The reported spans among the given nodes, in their order.
pub open spec fn values_of(spans: Seq<(Seq<u8>, SpanNodeView)>) -> Seq<SpanValueView>
    decreases spans.len(),
{
    if spans.len() == 0 {
        Seq::empty()
    } else {
        match spans.last().1 {
            SpanNodeView::Value(v) => values_of(spans.drop_last()).push(v),
            SpanNodeView::Placeholder => values_of(spans.drop_last()),
        }
    }
}

/// The first of the given spans that has no parent.
pub open spec fn first_root(values: Seq<SpanValueView>) -> Option<SpanValueView>
    decreases values.len(),
{
    if values.len() == 0 {
        None
    } else if values[0].span.parent_span_id.len() == 0 {
        Some(values[0])
    } else {
        first_root(values.drop_first())
    }
}

fn bytes_eq(a: &[u8], b: &[u8]) -> (r: bool)
    ensures
        r == (a@ == b@),
{
    if a.len() != b.len() {
        return false;
    }
    let mut i: usize = 0;
    while i < a.len()
        invariant
            i <= a.len(),
            a.len() == b.len(),
            forall|j: int| 0 <= j < i ==> a@[j] == b@[j],
        decreases a.len() - i,
    {
        if a[i] != b[i] {
            return false;
        }
        i += 1;
    }
    assert(a@ =~= b@);
    true
}

fn add_messages(events: &mut Vec<Event>)
    ensures
        final(events).deep_view() == old(events).deep_view().map_values(
            |e: EventView| event_with_message(e),
        ),
{
    let ghost before = events.deep_view();
    let mut i: usize = 0;
    while i < events.len()
        invariant
            i <= events.len(),
            events.len() == before.len(),
            forall|j: int|
                0 <= j < i ==> (#[trigger] events@[j]).deep_view() == event_with_message(
                    before[j],
                ),
            forall|j: int| i <= j < events.len() ==> (#[trigger] events@[j]).deep_view() == before[j],
        decreases events.len() - i,
    {
        let event = &mut events[i];
        let ghost attributes = event.attributes.deep_view();
        let message = KeyValue {
            key: "message".to_owned(),
            value: Some(AnyValue::StringValue(event.name.clone())),
        };
        event.attributes.push(message);
        assert(event.attributes.deep_view() =~= attributes.push(message.deep_view()));
        i += 1;
    }
    assert(events.deep_view() =~= before.map_values(|e: EventView| event_with_message(e)));
}

impl DeepView for Trace {
    type V = TraceView;

    closed spec fn deep_view(&self) -> TraceView {
        TraceView { spans: self.spans.deep_view(), end_time: self.end_time }
    }
}

impl View for Trace {
    type V = TraceView;

    open spec fn view(&self) -> TraceView {
        self.deep_view()
    }
}

impl Default for Trace {
    /// The trace in which nothing was reported yet.
    fn default() -> (t: Trace)
        ensures
            t.wf(),
            t@ == (TraceView { spans: Seq::empty(), end_time: 0 }),
    {
        let t = Trace { spans: Vec::new(), end_time: 0 };
        assert(t.spans.deep_view() =~= Seq::empty());
        t
    }
}

impl Trace {
    /// The invariant of a trace: no span id has two nodes, no id is empty,
    /// and a reported span stands under its own span id.
    pub open spec fn wf(&self) -> bool {
        self@.well_formed()
    }

    fn find(&self, id: &[u8]) -> (r: Option<usize>)
        requires
            self.wf(),
        ensures
            r is Some <==> self@.has(id@),
            r is Some ==> r->0 == self@.index_of(id@) && r->0 < self.spans.len(),
    {
        let mut i: usize = 0;
        while i < self.spans.len()
            invariant
                i <= self.spans.len(),
                self.wf(),
                forall|j: int| 0 <= j < i ==> (#[trigger] self@.spans[j]).0 != id@,
            decreases self.spans.len() - i,
        {
            if bytes_eq(self.spans[i].id.as_slice(), id) {
                assert(self@.spans[i as int].0 == id@);
                proof {
                    let c = self@.index_of(id@);
                    assert(0 <= c < self@.spans.len() && self@.spans[c].0 == id@);
                    if c > i {
                        assert(self@.spans[i as int].0 != self@.spans[c].0);
                    }
                    assert(c == i);
                }
                return Some(i);
            }
            assert(self@.spans[i as int].0 != id@);
            i += 1;
        }
        None
    }

    /// Takes in one reported span. A span without an id is dropped. A span
    /// with a parent that has no node yet gives that parent a placeholder.
    /// The span itself takes the place of its placeholder, or is merged
    /// into what was reported of it before.
    pub fn add_value(&mut self, value: SpanValue)
        requires
            old(self).wf(),
        ensures
            final(self).wf(),
            final(self)@ == old(self)@.add_value(value.deep_view()),
            value.span.span_id@.len() == 0 ==> final(self)@ == old(self)@,
            final(self)@.end_time >= old(self)@.end_time,
    {
        let mut value = value;
        let ghost given = value.deep_view();
        if value.span.span_id.len() == 0 {
            return ;
        }
        if value.span.parent_span_id.len() > 0 {
            if self.find(value.span.parent_span_id.as_slice()).is_none() {
                let ghost before = self.spans.deep_view();
                let parent = value.span.parent_span_id.clone();
                self.spans.push(SpanEntry { id: parent, node: SpanNode::Placeholder });
                assert(self.spans.deep_view() =~= before.push(
                    (given.span.parent_span_id, SpanNodeView::Placeholder),
                ));
            }
        }
        assert(self@ == old(self)@.with_parent(given.span.parent_span_id));
        assert(self.wf());

        add_messages(&mut value.span.events);
        assert(value.deep_view() == given.with_messages());

        if value.span.end_time_unix_nano > self.end_time {
            self.end_time = value.span.end_time_unix_nano;
        }
        let ghost mid = self@;
        let ghost stored = value.deep_view();
        let ghost id = given.span.span_id;
        match self.find(value.span.span_id.as_slice()) {
            Some(i) => {
                let ghost before = self.spans.deep_view();
                let entry = &mut self.spans[i];
                match &mut entry.node {
                    SpanNode::Placeholder => {
                        entry.node = SpanNode::Value(value);
                    },
                    SpanNode::Value(o) => {
                        let ghost was = o.deep_view();
                        let mut value = value;
                        o.span.attributes.append(&mut value.span.attributes);
                        o.span.events.append(&mut value.span.events);
                        if value.span.start_time_unix_nano < o.span.start_time_unix_nano {
                            o.span.start_time_unix_nano = value.span.start_time_unix_nano;
                        }
                        if value.span.end_time_unix_nano > o.span.end_time_unix_nano {
                            o.span.end_time_unix_nano = value.span.end_time_unix_nano;
                        }
                        assert(o.span.attributes.deep_view() =~= was.span.attributes
                            + stored.span.attributes);
                        assert(o.span.events.deep_view() =~= was.span.events + stored.span.events);
                        assert(o.deep_view() == was.merge(stored));
                    },
                }
                assert(self.spans.deep_view() =~= before.update(
                    i as int,
                    (id, before[i as int].1.upsert(stored)),
                ));
            },
            None => {
                let ghost before = self.spans.deep_view();
                let key = value.span.span_id.clone();
                self.spans.push(SpanEntry { id: key, node: SpanNode::Value(value) });
                assert(self.spans.deep_view() =~= before.push((id, SpanNodeView::Value(stored))));
            },
        }
        assert(self.spans.deep_view() == mid.with_value(id, stored).spans);
    }

    /// The latest end time reported for a span of this trace, in
    /// nanoseconds since the epoch; 0 where nothing was reported.
    pub fn end_time(&self) -> (r: u64)
        ensures
            r == self@.end_time,
    {
        self.end_time
    }

    /// The reported spans of the trace, in the order of their nodes.
    pub fn iter_valid(&self) -> (r: Vec<&SpanValue>)
        ensures
            r.deep_view() == self@.values(),
    {
        let mut out: Vec<&SpanValue> = Vec::new();
        let mut i: usize = 0;
        while i < self.spans.len()
            invariant
                i <= self.spans.len(),
                out.deep_view() == values_of(self@.spans.take(i as int)),
            decreases self.spans.len() - i,
        {
            let ghost before = out.deep_view();
            assert(self@.spans.take(i + 1).drop_last() == self@.spans.take(i as int));
            assert(self@.spans.take(i + 1).last() == self@.spans[i as int]);
            match &self.spans[i].node {
                SpanNode::Placeholder => {},
                SpanNode::Value(value) => {
                    out.push(value);
                    assert(out.deep_view() =~= before.push(value.deep_view()));
                },
            }
            i += 1;
        }
        assert(self@.spans.take(i as int) == self@.spans);
        out
    }

    /// Whether the trace is complete: every span that was named as a parent
    /// has been reported itself.
    pub fn is_complete(&self) -> (r: bool)
        ensures
            r == self@.is_complete(),
    {
        let mut i: usize = 0;
        while i < self.spans.len()
            invariant
                i <= self.spans.len(),
                forall|j: int| 0 <= j < i ==> (#[trigger] self@.spans[j]).1 is Value,
            decreases self.spans.len() - i,
        {
            match &self.spans[i].node {
                SpanNode::Placeholder => {
                    assert(self@.spans[i as int].1 is Placeholder);
                    return false;
                },
                SpanNode::Value(_) => {},
            }
            i += 1;
        }
        true
    }

    /// The id of the trace, taken from its first reported span. The trace
    /// must hold a reported span.
    pub fn id(&self) -> (r: &[u8])
        requires
            self@.values().len() > 0,
        ensures
            r@ == self@.values()[0].span.trace_id,
    {
        let values = self.iter_valid();
        assert(values.deep_view()[0] == values@[0].deep_view());
        values[0].span.trace_id.as_slice()
    }

    /// The id of the trace as lowercase hexadecimal text. The trace must
    /// hold a reported span.
    pub fn hex_id(&self) -> (r: String)
        requires
            self@.values().len() > 0,
        ensures
            r@ == hex_view(self@.values()[0].span.trace_id),
    {
        hex(self.id())
    }

    /// The root of the trace: the first reported span without a parent.
    /// There is none while the trace is incomplete, and none where no span
    /// without a parent was reported.
    pub fn root_span(&self) -> (r: Option<&SpanValue>)
        ensures
            r is Some <==> self@.root() is Some,
            r is Some ==> r->0.deep_view() == self@.root()->0,
            !self@.is_complete() ==> r is None,
    {
        if !self.is_complete() {
            return None;
        }
        let values = self.iter_valid();
        let ghost all = values.deep_view();
        assert(all.skip(0) =~= all);
        let mut i: usize = 0;
        while i < values.len()
            invariant
                i <= values.len(),
                all == values.deep_view(),
                all == self@.values(),
                self@.is_complete(),
                first_root(all) == first_root(all.skip(i as int)),
            decreases values.len() - i,
        {
            assert(all.skip(i as int)[0] == values@[i as int].deep_view());
            assert(all.skip(i as int).drop_first() == all.skip(i + 1));
            if values[i].span.parent_span_id.len() == 0 {
                assert(all.skip(i as int)[0].span.parent_span_id.len() == 0);
                assert(first_root(all.skip(i as int)) == Some(all.skip(i as int)[0]));
                return Some(values[i]);
            }
            i += 1;
        }
        None
    }

    /// The service name of the root span; `None` where the trace has no
    /// root yet.
    pub fn service_name(&self) -> (r: Option<&str>)
        ensures
            r is Some <==> self@.root() is Some,
            r is Some ==> r->0@ == self@.root()->0.service_name(),
    {
        match self.root_span() {
            Some(v) => Some(v.service_name()),
            None => None,
        }
    }

    /// The service instance id of the root span; `None` where the trace has
    /// no root yet.
    pub fn service_instance_id(&self) -> (r: Option<&str>)
        ensures
            r is Some <==> self@.root() is Some,
            r is Some ==> r->0@ == self@.root()->0.service_instance_id(),
    {
        match self.root_span() {
            Some(v) => Some(v.service_instance_id()),
            None => None,
        }
    }

    /// The operation of the trace, which is the name of its root span;
    /// `None` where the trace has no root yet.
    pub fn operation(&self) -> (r: Option<&str>)
        ensures
            r is Some <==> self@.root() is Some,
            r is Some ==> r->0@ == self@.root()->0.span.name,
    {
        match self.root_span() {
            Some(v) => Some(v.operation()),
            None => None,
        }
    }
}

impl Clone for Trace {
    fn clone(&self) -> (r: Self)
        ensures
            r@ == self@,
    {
        let mut spans: Vec<SpanEntry> = Vec::new();
        let mut i: usize = 0;
        while i < self.spans.len()
            invariant
                i <= self.spans.len(),
                spans.len() == i,
                forall|j: int|
                    0 <= j < i ==> (#[trigger] spans@[j]).deep_view() == self.spans@[j].deep_view(),
            decreases self.spans.len() - i,
        {
            spans.push(SpanEntry { id: self.spans[i].id.clone(), node: self.spans[i].node.clone() });
            i += 1;
        }
        assert(spans.deep_view() =~= self.spans.deep_view());
        Trace { spans, end_time: self.end_time }
    }
}


/// The floor of the estimate for a node under its id.
pub open spec fn node_floor(entry: (Seq<u8>, SpanNodeView)) -> nat {
    entry.0.len() + match entry.1 {
        SpanNodeView::Value(v) => span_floor(v.span) + resource_floor(v.resource),
        SpanNodeView::Placeholder => 0,
    }
}

/// The floor of the estimate for the given nodes.
pub open spec fn nodes_floor(spans: Seq<(Seq<u8>, SpanNodeView)>) -> nat
    decreases spans.len(),
{
    if spans.len() == 0 {
        0
    } else {
        nodes_floor(spans.drop_last()) + node_floor(spans.last())
    }
}

impl TraceView {
    /// The floor of the estimate of the heap memory that the trace takes:
    /// the bytes and characters of its span ids, its spans and their
    /// resources. A resource counts once for each span that it reported.
    pub open spec fn floor(self) -> nat {
        nodes_floor(self.spans)
    }
}

impl Trace {
    /// An estimate of the heap memory that the trace takes: what its span
    /// ids, its spans and their resources have allocated. A trace without
    /// nodes takes none.
    pub fn heap_size(&self) -> (r: usize)
        ensures
            reaches(r, self@.floor()),
            self@.spans.len() == 0 ==> r == 0,
    {
        let ghost all = self@.spans;
        let mut total: usize = 0;
        let mut i: usize = 0;
        while i < self.spans.len()
            invariant
                i <= self.spans.len(),
                all == self@.spans,
                i == 0 ==> total == 0,
                reaches(total, nodes_floor(all.take(i as int))),
            decreases self.spans.len() - i,
        {
            proof {
                assert(all.take(i + 1).drop_last() == all.take(i as int));
                assert(all.take(i + 1).last() == all[i as int]);
            }
            let entry = &self.spans[i];
            let id = bytes_heap_size(&entry.id);
            let node = match &entry.node {
                SpanNode::Placeholder => 0,
                SpanNode::Value(v) => {
                    let span = span_heap_size(&v.span);
                    let resource = resource_heap_size(&v.resource);
                    assert(reaches(span, span_floor(v.deep_view().span)) && reaches(
                        resource,
                        resource_floor(v.deep_view().resource),
                    ));
                    add_sizes(span, resource)
                },
            };
            let ghost id_floor = all[i as int].0.len();
            let ghost rest_floor = (node_floor(all[i as int]) - id_floor) as nat;
            assert(reaches(id, id_floor) && reaches(node, rest_floor));
            let one = add_sizes(id, node);
            let ghost floor = nodes_floor(all.take(i as int));
            assert(reaches(total, floor) && reaches(one, id_floor + rest_floor));
            total = add_sizes(total, one);
            assert(reaches(total, floor + (id_floor + rest_floor)));
            i += 1;
        }
        assert(all.take(i as int) == all);
        total
    }
}

} // verus!
