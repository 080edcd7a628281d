//! The span data model: the records that producers report, as plain values.
//!
//! Every type has a mathematical model, reached with `deep_view()`, in which
//! strings are sequences of characters, byte strings are sequences of bytes
//! and lists are sequences of models. Contracts elsewhere in the crate speak
//! of these models only. Each type can be cloned, and a clone has the model
//! of its source.

use vstd::prelude::*;

verus! {

/// `serde_json::Number`, a JSON number. The library carries such numbers
/// from where they come in to where they go out and never looks inside.
#[verifier::external_type_specification]
#[verifier::external_body]
pub struct ExNumber(serde_json::Number);

/// `serde_json::Number::clone`, behind a contract: the clone is the same
/// number. `Number` holds an integer or a finite double and its `Clone` is
/// derived, so the copy is field for field.
#[verifier::external_body]
pub(crate) fn clone_number(n: &serde_json::Number) -> (r: serde_json::Number)
    ensures
        r == *n,
{
    n.clone()
}

/// The value of an attribute: a typed union.
#[derive(Debug, PartialEq)]
pub enum AnyValue {
    StringValue(String),
    BoolValue(bool),
    IntValue(i64),
    /// A double, as JSON holds it: `None` stands for NaN and the infinities,
    /// which have no JSON number.
    DoubleValue(Option<serde_json::Number>),
    /// A list of values. An element without a value is `None`.
    ArrayValue(Vec<Option<AnyValue>>),
    KvlistValue(Vec<KeyValue>),
    BytesValue(Vec<u8>),
}

/// One attribute: a key and, where one was given, a value.
#[derive(Debug, PartialEq)]
pub struct KeyValue {
    pub key: String,
    pub value: Option<AnyValue>,
}

/// The attributes of the process that reported a batch of spans.
#[derive(Debug, PartialEq)]
pub struct Resource {
    pub attributes: Vec<KeyValue>,
    pub dropped_attributes_count: u32,
}

/// A timed annotation on a span.
#[derive(Debug, PartialEq)]
pub struct Event {
    pub time_unix_nano: u64,
    pub name: String,
    pub attributes: Vec<KeyValue>,
    pub dropped_attributes_count: u32,
}

/// A pointer from one span to another, possibly in another trace.
#[derive(Debug, PartialEq)]
pub struct Link {
    pub trace_id: Vec<u8>,
    pub span_id: Vec<u8>,
    pub trace_state: String,
    pub attributes: Vec<KeyValue>,
    pub dropped_attributes_count: u32,
    pub flags: u32,
}

/// The outcome a span reports of itself.
#[derive(Debug, PartialEq)]
pub struct Status {
    pub message: String,
    pub code: i32,
}

/// One reported span record. An empty `span_id` means "no id", an empty
/// `parent_span_id` means "no parent".
#[derive(Debug, PartialEq)]
pub struct Span {
    pub trace_id: Vec<u8>,
    pub span_id: Vec<u8>,
    pub trace_state: String,
    pub parent_span_id: Vec<u8>,
    pub flags: u32,
    pub name: String,
    pub kind: i32,
    pub start_time_unix_nano: u64,
    pub end_time_unix_nano: u64,
    pub attributes: Vec<KeyValue>,
    pub dropped_attributes_count: u32,
    pub events: Vec<Event>,
    pub dropped_events_count: u32,
    pub links: Vec<Link>,
    pub dropped_links_count: u32,
    pub status: Option<Status>,
}

/// The spans that one instrumentation scope reported.
#[derive(Debug, PartialEq)]
pub struct ScopeSpans {
    pub spans: Vec<Span>,
    pub schema_url: String,
}

/// One ingested batch: the spans of one resource, grouped by scope.
#[derive(Debug, PartialEq)]
pub struct ResourceSpans {
    pub resource: Option<Resource>,
    pub scope_spans: Vec<ScopeSpans>,
    pub schema_url: String,
}

/// The model of [`AnyValue`].
pub enum AnyValueView {
    StringValue(Seq<char>),
    BoolValue(bool),
    IntValue(i64),
    DoubleValue(Option<serde_json::Number>),
    ArrayValue(Seq<Option<AnyValueView>>),
    KvlistValue(Seq<KeyValueView>),
    BytesValue(Seq<u8>),
}

/// The model of [`KeyValue`].
pub struct KeyValueView {
    pub key: Seq<char>,
    pub value: Option<AnyValueView>,
}

/// The model of [`Resource`].
pub struct ResourceView {
    pub attributes: Seq<KeyValueView>,
    pub dropped_attributes_count: u32,
}

/// The model of [`Event`].
pub struct EventView {
    pub time_unix_nano: u64,
    pub name: Seq<char>,
    pub attributes: Seq<KeyValueView>,
    pub dropped_attributes_count: u32,
}

/// The model of [`Link`].
pub struct LinkView {
    pub trace_id: Seq<u8>,
    pub span_id: Seq<u8>,
    pub trace_state: Seq<char>,
    pub attributes: Seq<KeyValueView>,
    pub dropped_attributes_count: u32,
    pub flags: u32,
}

/// The model of [`Status`].
pub struct StatusView {
    pub message: Seq<char>,
    pub code: i32,
}

/// The model of [`Span`].
pub struct SpanView {
    pub trace_id: Seq<u8>,
    pub span_id: Seq<u8>,
    pub trace_state: Seq<char>,
    pub parent_span_id: Seq<u8>,
    pub flags: u32,
    pub name: Seq<char>,
    pub kind: i32,
    pub start_time_unix_nano: u64,
    pub end_time_unix_nano: u64,
    pub attributes: Seq<KeyValueView>,
    pub dropped_attributes_count: u32,
    pub events: Seq<EventView>,
    pub dropped_events_count: u32,
    pub links: Seq<LinkView>,
    pub dropped_links_count: u32,
    pub status: Option<StatusView>,
}

/// The model of [`ScopeSpans`].
pub struct ScopeSpansView {
    pub spans: Seq<SpanView>,
    pub schema_url: Seq<char>,
}

/// The model of [`ResourceSpans`].
pub struct ResourceSpansView {
    pub resource: Option<ResourceView>,
    pub scope_spans: Seq<ScopeSpansView>,
    pub schema_url: Seq<char>,
}

/// The model of an attribute value.
pub open spec fn any_value_view(v: AnyValue) -> AnyValueView
    decreases v,
{
    match v {
        AnyValue::StringValue(s) => AnyValueView::StringValue(s@),
        AnyValue::BoolValue(b) => AnyValueView::BoolValue(b),
        AnyValue::IntValue(i) => AnyValueView::IntValue(i),
        AnyValue::DoubleValue(d) => AnyValueView::DoubleValue(d),
        AnyValue::ArrayValue(a) => AnyValueView::ArrayValue(
            Seq::new(
                a@.len(),
                |i: int|
                    if 0 <= i < a@.len() {
                        optional_value_view(a@[i])
                    } else {
                        None
                    },
            ),
        ),
        AnyValue::KvlistValue(l) => AnyValueView::KvlistValue(
            Seq::new(
                l@.len(),
                |i: int|
                    if 0 <= i < l@.len() {
                        key_value_view(l@[i])
                    } else {
                        arbitrary()
                    },
            ),
        ),
        AnyValue::BytesValue(b) => AnyValueView::BytesValue(b@),
    }
}

/// The model of a value that may be absent.
pub open spec fn optional_value_view(v: Option<AnyValue>) -> Option<AnyValueView>
    decreases v,
{
    match v {
        Some(x) => Some(any_value_view(x)),
        None => None,
    }
}

/// The model of an attribute.
pub open spec fn key_value_view(kv: KeyValue) -> KeyValueView
    decreases kv,
{
    KeyValueView { key: kv.key@, value: optional_value_view(kv.value) }
}

impl DeepView for AnyValue {
    type V = AnyValueView;

    open spec fn deep_view(&self) -> AnyValueView {
        any_value_view(*self)
    }
}

impl DeepView for KeyValue {
    type V = KeyValueView;

    open spec fn deep_view(&self) -> KeyValueView {
        key_value_view(*self)
    }
}

impl DeepView for Resource {
    type V = ResourceView;

    open spec fn deep_view(&self) -> ResourceView {
        ResourceView {
            attributes: self.attributes.deep_view(),
            dropped_attributes_count: self.dropped_attributes_count,
        }
    }
}

impl DeepView for Event {
    type V = EventView;

    open spec fn deep_view(&self) -> EventView {
        EventView {
            time_unix_nano: self.time_unix_nano,
            name: self.name@,
            attributes: self.attributes.deep_view(),
            dropped_attributes_count: self.dropped_attributes_count,
        }
    }
}

impl DeepView for Link {
    type V = LinkView;

    open spec fn deep_view(&self) -> LinkView {
        LinkView {
            trace_id: self.trace_id@,
            span_id: self.span_id@,
            trace_state: self.trace_state@,
            attributes: self.attributes.deep_view(),
            dropped_attributes_count: self.dropped_attributes_count,
            flags: self.flags,
        }
    }
}

impl DeepView for Status {
    type V = StatusView;

    open spec fn deep_view(&self) -> StatusView {
        StatusView { message: self.message@, code: self.code }
    }
}

impl DeepView for Span {
    type V = SpanView;

    open spec fn deep_view(&self) -> SpanView {
        SpanView {
            trace_id: self.trace_id@,
            span_id: self.span_id@,
            trace_state: self.trace_state@,
            parent_span_id: self.parent_span_id@,
            flags: self.flags,
            name: self.name@,
            kind: self.kind,
            start_time_unix_nano: self.start_time_unix_nano,
            end_time_unix_nano: self.end_time_unix_nano,
            attributes: self.attributes.deep_view(),
            dropped_attributes_count: self.dropped_attributes_count,
            events: self.events.deep_view(),
            dropped_events_count: self.dropped_events_count,
            links: self.links.deep_view(),
            dropped_links_count: self.dropped_links_count,
            status: match self.status {
                Some(s) => Some(s.deep_view()),
                None => None,
            },
        }
    }
}

impl DeepView for ScopeSpans {
    type V = ScopeSpansView;

    open spec fn deep_view(&self) -> ScopeSpansView {
        ScopeSpansView { spans: self.spans.deep_view(), schema_url: self.schema_url@ }
    }
}

impl DeepView for ResourceSpans {
    type V = ResourceSpansView;

    open spec fn deep_view(&self) -> ResourceSpansView {
        ResourceSpansView {
            resource: match self.resource {
                Some(r) => Some(r.deep_view()),
                None => None,
            },
            scope_spans: self.scope_spans.deep_view(),
            schema_url: self.schema_url@,
        }
    }
}

impl Clone for AnyValue {
    fn clone(&self) -> (r: Self)
        ensures
            r.deep_view() == self.deep_view(),
        decreases *self,
    {
        match self {
            AnyValue::StringValue(s) => AnyValue::StringValue(s.clone()),
            AnyValue::BoolValue(b) => AnyValue::BoolValue(*b),
            AnyValue::IntValue(i) => AnyValue::IntValue(*i),
            AnyValue::DoubleValue(d) => match d {
                Some(n) => AnyValue::DoubleValue(Some(clone_number(n))),
                None => AnyValue::DoubleValue(None),
            },
            AnyValue::ArrayValue(a) => {
                let mut out: Vec<Option<AnyValue>> = Vec::new();
                let mut i: usize = 0;
                while i < a.len()
                    invariant
                        i <= a.len(),
                        out.len() == i,
                        forall|j: int|
                            0 <= j < i ==> optional_value_view(out@[j]) == optional_value_view(
                                a@[j],
                            ),
                        *self == AnyValue::ArrayValue(*a),
                    decreases a.len() - i,
                {
                    proof {
                        broadcast use vstd::std_specs::vec::axiom_vec_index_decreases;

                        assert(decreases_to!(*a => a[i as int]));
                        assert(decreases_to!(*self => self->ArrayValue_0));
                    }
                    let e = match &a[i] {
                        Some(x) => Some(x.clone()),
                        None => None,
                    };
                    out.push(e);
                    i += 1;
                }
                let r = AnyValue::ArrayValue(out);
                assert(r.deep_view()->ArrayValue_0 =~= self.deep_view()->ArrayValue_0);
                r
            },
            AnyValue::KvlistValue(l) => {
                let mut out: Vec<KeyValue> = Vec::new();
                let mut i: usize = 0;
                while i < l.len()
                    invariant
                        i <= l.len(),
                        out.len() == i,
                        forall|j: int|
                            0 <= j < i ==> key_value_view(out@[j]) == key_value_view(l@[j]),
                        *self == AnyValue::KvlistValue(*l),
                    decreases l.len() - i,
                {
                    proof {
                        broadcast use vstd::std_specs::vec::axiom_vec_index_decreases;

                        assert(decreases_to!(*l => l[i as int]));
                        assert(decreases_to!(*self => self->KvlistValue_0));
                    }
                    out.push(l[i].clone());
                    i += 1;
                }
                let r = AnyValue::KvlistValue(out);
                assert(r.deep_view()->KvlistValue_0 =~= self.deep_view()->KvlistValue_0);
                r
            },
            AnyValue::BytesValue(b) => AnyValue::BytesValue(b.clone()),
        }
    }
}

impl Clone for KeyValue {
    fn clone(&self) -> (r: Self)
        ensures
            r.deep_view() == self.deep_view(),
        decreases *self,
    {
        let value = match &self.value {
            Some(x) => Some(x.clone()),
            None => None,
        };
        KeyValue { key: self.key.clone(), value }
    }
}

/// Clones a list of attributes.
pub fn clone_attributes(v: &Vec<KeyValue>) -> (r: Vec<KeyValue>)
    ensures
        r.deep_view() == v.deep_view(),
{
    let r = v.clone();
    assert(r.deep_view() =~= v.deep_view());
    r
}

impl Default for Resource {
    /// The resource without attributes.
    fn default() -> (r: Resource)
        ensures
            r.deep_view() == (ResourceView {
                attributes: Seq::empty(),
                dropped_attributes_count: 0,
            }),
    {
        let r = Resource { attributes: Vec::new(), dropped_attributes_count: 0 };
        assert(r.attributes.deep_view() =~= Seq::empty());
        r
    }
}

impl Clone for Resource {
    fn clone(&self) -> (r: Self)
        ensures
            r.deep_view() == self.deep_view(),
    {
        Resource {
            attributes: clone_attributes(&self.attributes),
            dropped_attributes_count: self.dropped_attributes_count,
        }
    }
}

impl Clone for Event {
    fn clone(&self) -> (r: Self)
        ensures
            r.deep_view() == self.deep_view(),
    {
        Event {
            time_unix_nano: self.time_unix_nano,
            name: self.name.clone(),
            attributes: clone_attributes(&self.attributes),
            dropped_attributes_count: self.dropped_attributes_count,
        }
    }
}

impl Clone for Link {
    fn clone(&self) -> (r: Self)
        ensures
            r.deep_view() == self.deep_view(),
    {
        Link {
            trace_id: self.trace_id.clone(),
            span_id: self.span_id.clone(),
            trace_state: self.trace_state.clone(),
            attributes: clone_attributes(&self.attributes),
            dropped_attributes_count: self.dropped_attributes_count,
            flags: self.flags,
        }
    }
}

impl Clone for Status {
    fn clone(&self) -> (r: Self)
        ensures
            r.deep_view() == self.deep_view(),
    {
        Status { message: self.message.clone(), code: self.code }
    }
}

impl Default for Span {
    /// The span in which every field is empty or zero.
    fn default() -> (r: Span)
        ensures
            r.deep_view() == (SpanView {
                trace_id: Seq::empty(),
                span_id: Seq::empty(),
                trace_state: Seq::empty(),
                parent_span_id: Seq::empty(),
                flags: 0,
                name: Seq::empty(),
                kind: 0,
                start_time_unix_nano: 0,
                end_time_unix_nano: 0,
                attributes: Seq::empty(),
                dropped_attributes_count: 0,
                events: Seq::empty(),
                dropped_events_count: 0,
                links: Seq::empty(),
                dropped_links_count: 0,
                status: None,
            }),
    {
        let r = Span {
            trace_id: Vec::new(),
            span_id: Vec::new(),
            trace_state: String::new(),
            parent_span_id: Vec::new(),
            flags: 0,
            name: String::new(),
            kind: 0,
            start_time_unix_nano: 0,
            end_time_unix_nano: 0,
            attributes: Vec::new(),
            dropped_attributes_count: 0,
            events: Vec::new(),
            dropped_events_count: 0,
            links: Vec::new(),
            dropped_links_count: 0,
            status: None,
        };
        assert(r.attributes.deep_view() =~= Seq::empty());
        assert(r.events.deep_view() =~= Seq::empty());
        assert(r.links.deep_view() =~= Seq::empty());
        r
    }
}

impl Clone for Span {
    fn clone(&self) -> (r: Self)
        ensures
            r.deep_view() == self.deep_view(),
    {
        let events = self.events.clone();
        assert(events.deep_view() =~= self.events.deep_view());
        let links = self.links.clone();
        assert(links.deep_view() =~= self.links.deep_view());
        let status = match &self.status {
            Some(s) => Some(s.clone()),
            None => None,
        };
        Span {
            trace_id: self.trace_id.clone(),
            span_id: self.span_id.clone(),
            trace_state: self.trace_state.clone(),
            parent_span_id: self.parent_span_id.clone(),
            flags: self.flags,
            name: self.name.clone(),
            kind: self.kind,
            start_time_unix_nano: self.start_time_unix_nano,
            end_time_unix_nano: self.end_time_unix_nano,
            attributes: clone_attributes(&self.attributes),
            dropped_attributes_count: self.dropped_attributes_count,
            events,
            dropped_events_count: self.dropped_events_count,
            links,
            dropped_links_count: self.dropped_links_count,
            status,
        }
    }
}

} // verus!
