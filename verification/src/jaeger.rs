//! The shape in which a Jaeger-compatible viewer reads spans, and the
//! conversion of spans into it. The conversion of attribute values is lossy
//! on purpose: byte strings become hexadecimal text, lists become the text of
//! their JSON form, and nested maps are not carried over.

use vstd::prelude::*;
use crate::hex::{hex, hex_view};
use crate::json::{array_text, json_array_text, JsonScalar, JsonScalarView};
use crate::proto::{
    AnyValue, AnyValueView, Event, EventView, KeyValue, KeyValueView, Link, LinkView, Resource,
    ResourceView, Span, SpanView,
};
use crate::trace::{SpanValueView, Trace, TraceView};

verus! {

/// One tag: a key, the name of the value's type, and the value.
#[derive(Debug, PartialEq)]
pub struct JaegerKv {
    pub key: String,
    pub value_type: &'static str,
    pub value: JsonScalar,
}

/// The process that reported a span.
#[derive(Debug, PartialEq)]
pub struct JaegerProcess {
    pub key: String,
    pub service_name: String,
    pub tags: Vec<JaegerKv>,
}

/// One log line of a span, made from one of its events.
#[derive(Debug, PartialEq)]
pub struct JaegerLog {
    pub timestamp: u64,
    pub fields: Vec<JaegerKv>,
}

/// A reference from a span to another: `CHILD_OF` or `FOLLOWS_FROM`.
#[derive(Debug, PartialEq)]
pub struct JaegerReference {
    pub ref_type: &'static str,
    pub trace_id: String,
    pub span_id: String,
}

/// One span as the viewer reads it. Times are in microseconds.
#[derive(Debug, PartialEq)]
pub struct JaegerSpan {
    pub trace_id: String,
    pub span_id: String,
    pub start_time: u64,
    pub duration: u64,
    pub operation_name: String,
    pub tags: Vec<JaegerKv>,
    pub logs: Vec<JaegerLog>,
    pub process_id: String,
    /// `None` where the span has neither links nor a parent.
    pub references: Option<Vec<JaegerReference>>,
}

/// The model of [`JaegerKv`].
pub struct JaegerKvView {
    pub key: Seq<char>,
    pub value_type: Seq<char>,
    pub value: JsonScalarView,
}

/// The model of [`JaegerProcess`].
pub struct JaegerProcessView {
    pub key: Seq<char>,
    pub service_name: Seq<char>,
    pub tags: Seq<JaegerKvView>,
}

/// The model of [`JaegerLog`].
pub struct JaegerLogView {
    pub timestamp: u64,
    pub fields: Seq<JaegerKvView>,
}

/// The model of [`JaegerReference`].
pub struct JaegerReferenceView {
    pub ref_type: Seq<char>,
    pub trace_id: Seq<char>,
    pub span_id: Seq<char>,
}

/// The model of [`JaegerSpan`].
pub struct JaegerSpanView {
    pub trace_id: Seq<char>,
    pub span_id: Seq<char>,
    pub start_time: u64,
    pub duration: u64,
    pub operation_name: Seq<char>,
    pub tags: Seq<JaegerKvView>,
    pub logs: Seq<JaegerLogView>,
    pub process_id: Seq<char>,
    pub references: Option<Seq<JaegerReferenceView>>,
}

impl DeepView for JaegerKv {
    type V = JaegerKvView;

    open spec fn deep_view(&self) -> JaegerKvView {
        JaegerKvView {
            key: self.key@,
            value_type: self.value_type@,
            value: self.value.deep_view(),
        }
    }
}

impl DeepView for JaegerProcess {
    type V = JaegerProcessView;

    open spec fn deep_view(&self) -> JaegerProcessView {
        JaegerProcessView {
            key: self.key@,
            service_name: self.service_name@,
            tags: self.tags.deep_view(),
        }
    }
}

impl DeepView for JaegerLog {
    type V = JaegerLogView;

    open spec fn deep_view(&self) -> JaegerLogView {
        JaegerLogView { timestamp: self.timestamp, fields: self.fields.deep_view() }
    }
}

impl DeepView for JaegerReference {
    type V = JaegerReferenceView;

    open spec fn deep_view(&self) -> JaegerReferenceView {
        JaegerReferenceView {
            ref_type: self.ref_type@,
            trace_id: self.trace_id@,
            span_id: self.span_id@,
        }
    }
}

impl DeepView for JaegerSpan {
    type V = JaegerSpanView;

    open spec fn deep_view(&self) -> JaegerSpanView {
        JaegerSpanView {
            trace_id: self.trace_id@,
            span_id: self.span_id@,
            start_time: self.start_time,
            duration: self.duration,
            operation_name: self.operation_name@,
            tags: self.tags.deep_view(),
            logs: self.logs.deep_view(),
            process_id: self.process_id@,
            references: match self.references {
                Some(r) => Some(r.deep_view()),
                None => None,
            },
        }
    }
}

/// The JSON value of an attribute value. Strings, booleans, integers and
/// doubles stay what they are (a double that JSON cannot hold becomes
/// `null`); a byte string becomes its hexadecimal text; a list becomes the
/// text of the JSON array of its converted elements; a nested map becomes
/// the text `unsupported`.
pub open spec fn json_of(v: AnyValueView) -> JsonScalarView
    decreases v,
{
    match v {
        AnyValueView::StringValue(s) => JsonScalarView::Text(s),
        AnyValueView::BoolValue(b) => JsonScalarView::Bool(b),
        AnyValueView::IntValue(i) => JsonScalarView::Int(i),
        AnyValueView::DoubleValue(d) => match d {
            Some(n) => JsonScalarView::Double(n),
            None => JsonScalarView::Null,
        },
        AnyValueView::ArrayValue(a) => JsonScalarView::Text(json_array_text(json_elements(a))),
        AnyValueView::KvlistValue(_) => JsonScalarView::Text("unsupported"@),
        AnyValueView::BytesValue(b) => JsonScalarView::Text(hex_view(b)),
    }
}

/// The converted elements of a list: those that have a value, in their
/// order.
pub open spec fn json_elements(a: Seq<Option<AnyValueView>>) -> Seq<JsonScalarView>
    decreases a,
{
    if a.len() == 0 {
        Seq::empty()
    } else {
        match a.last() {
            Some(v) => json_elements(a.drop_last()).push(json_of(v)),
            None => json_elements(a.drop_last()),
        }
    }
}

/// The name of the type under which a tag's value is shown.
pub open spec fn value_type_of(v: Option<AnyValueView>) -> Seq<char> {
    match v {
        Some(AnyValueView::BoolValue(_)) => "bool"@,
        Some(AnyValueView::IntValue(_)) => "int64"@,
        Some(AnyValueView::DoubleValue(_)) => "float64"@,
        _ => "string"@,
    }
}

/// The tag made from an attribute. An attribute without a value gives a
/// `null` of type `string`.
pub open spec fn jaeger_kv(kv: KeyValueView) -> JaegerKvView {
    JaegerKvView {
        key: kv.key,
        value_type: value_type_of(kv.value),
        value: match kv.value {
            Some(v) => json_of(v),
            None => JsonScalarView::Null,
        },
    }
}

/// The tags made from a list of attributes, one for one.
pub open spec fn jaeger_kvs(attributes: Seq<KeyValueView>) -> Seq<JaegerKvView> {
    attributes.map_values(|kv: KeyValueView| jaeger_kv(kv))
}

/// The text of the first attribute with the given key, where that
/// attribute's value is a string; `unknown` otherwise.
pub open spec fn extract_string_spec(attributes: Seq<KeyValueView>, key: Seq<char>) -> Seq<char>
    decreases attributes.len(),
{
    if attributes.len() == 0 {
        "unknown"@
    } else if attributes[0].key == key {
        match attributes[0].value {
            Some(AnyValueView::StringValue(s)) => s,
            _ => "unknown"@,
        }
    } else {
        extract_string_spec(attributes.drop_first(), key)
    }
}

/// The process that a resource describes.
pub open spec fn jaeger_process(resource: ResourceView) -> JaegerProcessView {
    JaegerProcessView {
        key: extract_string_spec(resource.attributes, "service.instance.id"@),
        service_name: extract_string_spec(resource.attributes, "service.name"@),
        tags: jaeger_kvs(resource.attributes),
    }
}

/// The log line made from an event.
pub open spec fn jaeger_log(event: EventView) -> JaegerLogView {
    JaegerLogView {
        timestamp: (event.time_unix_nano / 1000) as u64,
        fields: jaeger_kvs(event.attributes),
    }
}

/// The reference made from a link.
pub open spec fn follows_from(link: LinkView) -> JaegerReferenceView {
    JaegerReferenceView {
        ref_type: "FOLLOWS_FROM"@,
        trace_id: hex_view(link.trace_id),
        span_id: hex_view(link.span_id),
    }
}

/// The references of a span: one for each link, then one to the parent
/// where the span has one; none at all where it has neither.
pub open spec fn jaeger_references(span: SpanView) -> Option<Seq<JaegerReferenceView>> {
    let links = span.links.map_values(|l: LinkView| follows_from(l));
    if span.parent_span_id.len() > 0 {
        Some(
            links.push(
                JaegerReferenceView {
                    ref_type: "CHILD_OF"@,
                    trace_id: hex_view(span.trace_id),
                    span_id: hex_view(span.parent_span_id),
                },
            ),
        )
    } else if span.links.len() > 0 {
        Some(links)
    } else {
        None
    }
}

/// The span as the viewer reads it, reported by the process with the given
/// key. Nanoseconds become microseconds by division without remainder; a
/// span that ends before it starts has the duration 0.
pub open spec fn jaeger_span(span: SpanView, process: Seq<char>) -> JaegerSpanView {
    JaegerSpanView {
        trace_id: hex_view(span.trace_id),
        span_id: hex_view(span.span_id),
        start_time: (span.start_time_unix_nano / 1000) as u64,
        duration: if span.end_time_unix_nano >= span.start_time_unix_nano {
            ((span.end_time_unix_nano - span.start_time_unix_nano) / 1000) as u64
        } else {
            0
        },
        operation_name: span.name,
        tags: jaeger_kvs(span.attributes),
        logs: span.events.map_values(|e: EventView| jaeger_log(e)),
        process_id: process,
        references: jaeger_references(span),
    }
}

/// `str`'s `==`: two string slices are equal exactly when they hold the same
/// characters.
#[verifier::external_body]
pub(crate) fn str_eq(a: &str, b: &str) -> (r: bool)
    ensures
        r == (a@ == b@),
{
    a == b
}

/// Converts an attribute value to the JSON value under which it is shown.
pub fn any_value_to_json(value: &AnyValue) -> (r: JsonScalar)
    ensures
        r.deep_view() == json_of(value.deep_view()),
    decreases *value,
{
    match value {
        AnyValue::StringValue(s) => JsonScalar::Text(s.clone()),
        AnyValue::BoolValue(b) => JsonScalar::Bool(*b),
        AnyValue::IntValue(i) => JsonScalar::Int(*i),
        AnyValue::DoubleValue(d) => match d {
            Some(n) => JsonScalar::Double(crate::proto::clone_number(n)),
            None => JsonScalar::Null,
        },
        AnyValue::ArrayValue(a) => {
            let ghost elements = value.deep_view()->ArrayValue_0;
            let mut out: Vec<JsonScalar> = Vec::new();
            let mut i: usize = 0;
            while i < a.len()
                invariant
                    i <= a.len(),
                    *value == AnyValue::ArrayValue(*a),
                    elements == value.deep_view()->ArrayValue_0,
                    elements.len() == a.len(),
                    out.deep_view() == json_elements(elements.take(i as int)),
                decreases a.len() - i,
            {
                proof {
                    broadcast use vstd::std_specs::vec::axiom_vec_index_decreases;

                    assert(decreases_to!(*a => a[i as int]));
                    assert(decreases_to!(*value => value->ArrayValue_0));
                    assert(elements.take(i + 1).drop_last() == elements.take(i as int));
                    assert(elements.take(i + 1).last() == crate::proto::optional_value_view(
                        a@[i as int],
                    ));
                }
                let ghost before = out.deep_view();
                match &a[i] {
                    Some(x) => {
                        let e = any_value_to_json(x);
                        out.push(e);
                        assert(out.deep_view() =~= before.push(e.deep_view()));
                    },
                    None => {},
                }
                i += 1;
            }
            assert(elements.take(i as int) == elements);
            JsonScalar::Text(array_text(&out))
        },
        AnyValue::KvlistValue(_) => JsonScalar::Text("unsupported".to_owned()),
        AnyValue::BytesValue(b) => JsonScalar::Text(hex(b.as_slice())),
    }
}

impl JaegerKv {
    /// Makes the tag of an attribute.
    pub fn from(kv: &KeyValue) -> (r: JaegerKv)
        ensures
            r.deep_view() == jaeger_kv(kv.deep_view()),
    {
        let key = kv.key.clone();
        match &kv.value {
            None => JaegerKv { key, value_type: "string", value: JsonScalar::Null },
            Some(value) => {
                let value_type = match value {
                    AnyValue::StringValue(_) => "string",
                    AnyValue::BoolValue(_) => "bool",
                    AnyValue::IntValue(_) => "int64",
                    AnyValue::DoubleValue(_) => "float64",
                    AnyValue::ArrayValue(_) | AnyValue::KvlistValue(_) | AnyValue::BytesValue(
                        _,
                    ) => "string",
                };
                JaegerKv { key, value_type, value: any_value_to_json(value) }
            },
        }
    }

    /// Makes the tags of a list of attributes, one for one.
    pub fn from_all(attributes: &Vec<KeyValue>) -> (r: Vec<JaegerKv>)
        ensures
            r.deep_view() == jaeger_kvs(attributes.deep_view()),
    {
        let mut out: Vec<JaegerKv> = Vec::new();
        let mut i: usize = 0;
        while i < attributes.len()
            invariant
                i <= attributes.len(),
                out.len() == i,
                forall|j: int|
                    0 <= j < i ==> (#[trigger] out@[j]).deep_view() == jaeger_kv(
                        attributes@[j].deep_view(),
                    ),
            decreases attributes.len() - i,
        {
            out.push(JaegerKv::from(&attributes[i]));
            i += 1;
        }
        assert(out.deep_view() =~= jaeger_kvs(attributes.deep_view()));
        out
    }
}

/// Looks up a string attribute by its key: the text of the first attribute
/// with that key, or `unknown` where there is none or its value is no
/// string.
pub fn extract_string<'a>(attr: &'a [KeyValue], key: &'static str) -> (r: &'a str)
    ensures
        r@ == extract_string_spec(attr.deep_view(), key@),
{
    let ghost all = attr.deep_view();
    assert(all.skip(0) =~= all);
    let mut i: usize = 0;
    while i < attr.len()
        invariant
            i <= attr.len(),
            all == attr.deep_view(),
            extract_string_spec(all, key@) == extract_string_spec(all.skip(i as int), key@),
        decreases attr.len() - i,
    {
        assert(all.skip(i as int)[0] == attr@[i as int].deep_view());
        assert(all.skip(i as int).drop_first() == all.skip(i + 1));
        if str_eq(attr[i].key.as_str(), key) {
            return match &attr[i].value {
                Some(AnyValue::StringValue(s)) => s.as_str(),
                _ => "unknown",
            };
        }
        i += 1;
    }
    "unknown"
}

impl JaegerProcess {
    /// Describes the process behind a resource: its key is the attribute
    /// `service.instance.id`, its service name the attribute `service.name`,
    /// its tags all the attributes.
    pub fn from(resource: &Resource) -> (r: JaegerProcess)
        ensures
            r.deep_view() == jaeger_process(resource.deep_view()),
    {
        let attr = resource.attributes.as_slice();
        assert(attr.deep_view() =~= resource.attributes.deep_view());
        let key = extract_string(attr, "service.instance.id").to_owned();
        let service_name = extract_string(attr, "service.name").to_owned();
        let tags = JaegerKv::from_all(&resource.attributes);
        JaegerProcess { key, service_name, tags }
    }
}

fn log_of(event: &Event) -> (r: JaegerLog)
    ensures
        r.deep_view() == jaeger_log(event.deep_view()),
{
    JaegerLog {
        timestamp: event.time_unix_nano / 1000,
        fields: JaegerKv::from_all(&event.attributes),
    }
}

fn reference_of(link: &Link) -> (r: JaegerReference)
    ensures
        r.deep_view() == follows_from(link.deep_view()),
{
    JaegerReference {
        ref_type: "FOLLOWS_FROM",
        trace_id: hex(link.trace_id.as_slice()),
        span_id: hex(link.span_id.as_slice()),
    }
}

/// Converts a span into the form the viewer reads, as reported by the
/// process with the given key.
pub fn span_to_jaeger_json(span: &Span, process: String) -> (r: JaegerSpan)
    ensures
        r.deep_view() == jaeger_span(span.deep_view(), process@),
{
    let mut logs: Vec<JaegerLog> = Vec::new();
    let mut i: usize = 0;
    while i < span.events.len()
        invariant
            i <= span.events.len(),
            logs.len() == i,
            forall|j: int|
                0 <= j < i ==> (#[trigger] logs@[j]).deep_view() == jaeger_log(
                    span.events@[j].deep_view(),
                ),
        decreases span.events.len() - i,
    {
        logs.push(log_of(&span.events[i]));
        i += 1;
    }
    assert(logs.deep_view() =~= span.deep_view().events.map_values(
        |e: EventView| jaeger_log(e),
    ));

    let tags = JaegerKv::from_all(&span.attributes);

    let mut links: Vec<JaegerReference> = Vec::new();
    let mut k: usize = 0;
    while k < span.links.len()
        invariant
            k <= span.links.len(),
            links.len() == k,
            forall|j: int|
                0 <= j < k ==> (#[trigger] links@[j]).deep_view() == follows_from(
                    span.links@[j].deep_view(),
                ),
        decreases span.links.len() - k,
    {
        links.push(reference_of(&span.links[k]));
        k += 1;
    }
    let ghost link_views = span.deep_view().links.map_values(|l: LinkView| follows_from(l));
    assert(links.deep_view() =~= link_views);

    let references = if span.parent_span_id.len() > 0 {
        let parent = JaegerReference {
            ref_type: "CHILD_OF",
            trace_id: hex(span.trace_id.as_slice()),
            span_id: hex(span.parent_span_id.as_slice()),
        };
        links.push(parent);
        assert(links.deep_view() =~= link_views.push(parent.deep_view()));
        Some(links)
    } else if span.links.len() > 0 {
        Some(links)
    } else {
        None
    };

    let duration = if span.end_time_unix_nano >= span.start_time_unix_nano {
        (span.end_time_unix_nano - span.start_time_unix_nano) / 1000
    } else {
        0
    };

    JaegerSpan {
        trace_id: hex(span.trace_id.as_slice()),
        span_id: hex(span.span_id.as_slice()),
        start_time: span.start_time_unix_nano / 1000,
        duration,
        operation_name: span.name.clone(),
        tags,
        logs,
        process_id: process,
        references,
    }
}


/// One trace as the viewer reads it: its id, its spans, and the processes
/// that reported them, each process once.
#[derive(Debug, PartialEq)]
pub struct JaegerTrace {
    pub trace_id: String,
    pub spans: Vec<JaegerSpan>,
    pub processes: Vec<JaegerProcess>,
}

/// The answer to a query for one trace: a list that holds it. A trace
/// without a reported span is in the list as `None`.
#[derive(Debug, PartialEq)]
pub struct JaegerBatch {
    pub data: Vec<Option<JaegerTrace>>,
}

/// The model of [`JaegerTrace`].
pub struct JaegerTraceView {
    pub trace_id: Seq<char>,
    pub spans: Seq<JaegerSpanView>,
    pub processes: Seq<JaegerProcessView>,
}

/// The model of [`JaegerBatch`].
pub struct JaegerBatchView {
    pub data: Seq<Option<JaegerTraceView>>,
}

impl DeepView for JaegerTrace {
    type V = JaegerTraceView;

    open spec fn deep_view(&self) -> JaegerTraceView {
        JaegerTraceView {
            trace_id: self.trace_id@,
            spans: self.spans.deep_view(),
            processes: self.processes.deep_view(),
        }
    }
}

impl DeepView for JaegerBatch {
    type V = JaegerBatchView;

    open spec fn deep_view(&self) -> JaegerBatchView {
        JaegerBatchView { data: self.data.deep_view() }
    }
}

/// Whether `i` is the first place among the processes with the given key.
pub open spec fn is_first_with_key(
    processes: Seq<JaegerProcessView>,
    key: Seq<char>,
    i: int,
) -> bool {
    &&& 0 <= i < processes.len()
    &&& processes[i].key == key
    &&& forall|j: int| 0 <= j < i ==> (#[trigger] processes[j]).key != key
}

/// The first place among the processes with the given key, where there is
/// one.
pub open spec fn first_with_key(processes: Seq<JaegerProcessView>, key: Seq<char>) -> int {
    choose|i: int| is_first_with_key(processes, key, i)
}

/// The processes with one more: it takes the place of the process that has
/// its key, or the last place where there is none.
pub open spec fn with_process(
    processes: Seq<JaegerProcessView>,
    process: JaegerProcessView,
) -> Seq<JaegerProcessView> {
    if exists|i: int| is_first_with_key(processes, process.key, i) {
        processes.update(first_with_key(processes, process.key), process)
    } else {
        processes.push(process)
    }
}

/// The processes that reported the given spans, one for each key: where
/// several spans come from processes with one key, the process of the last
/// of them stands for all.
pub open spec fn processes_of(values: Seq<SpanValueView>) -> Seq<JaegerProcessView>
    decreases values.len(),
{
    if values.len() == 0 {
        Seq::empty()
    } else {
        with_process(processes_of(values.drop_last()), jaeger_process(values.last().resource))
    }
}

/// The spans as the viewer reads them, one for one, each with the key of
/// its process.
pub open spec fn jaeger_spans(values: Seq<SpanValueView>) -> Seq<JaegerSpanView> {
    values.map_values(|v: SpanValueView| jaeger_span(v.span, v.service_instance_id()))
}

/// The trace as the viewer reads it; `None` where no span of it was
/// reported. Its id is the id of its first reported span.
pub open spec fn jaeger_trace(trace: TraceView) -> Option<JaegerTraceView> {
    let values = trace.values();
    if values.len() == 0 {
        None
    } else {
        Some(
            JaegerTraceView {
                trace_id: hex_view(values[0].span.trace_id),
                spans: jaeger_spans(values),
                processes: processes_of(values),
            },
        )
    }
}

fn add_process(processes: &mut Vec<JaegerProcess>, process: JaegerProcess)
    ensures
        final(processes).deep_view() == with_process(
            old(processes).deep_view(),
            process.deep_view(),
        ),
{
    let ghost before = processes.deep_view();
    let ghost key = process.key@;
    let mut i: usize = 0;
    while i < processes.len()
        invariant
            i <= processes.len(),
            before == processes.deep_view(),
            before == old(processes).deep_view(),
            key == process.key@,
            forall|j: int| 0 <= j < i ==> (#[trigger] before[j]).key != key,
        decreases processes.len() - i,
    {
        if str_eq(processes[i].key.as_str(), process.key.as_str()) {
            let ghost new = process.deep_view();
            let slot = &mut processes[i];
            *slot = process;
            proof {
                assert(is_first_with_key(before, new.key, i as int));
                let c = first_with_key(before, new.key);
                if c < i {
                    assert(before[c].key != key);
                }
                if i < c {
                    assert(before[i as int].key != key);
                }
                assert(processes.deep_view() =~= before.update(c, new));
            }
            return ;
        }
        i += 1;
    }
    proof {
        if exists|c: int| is_first_with_key(before, key, c) {
            let c = choose|c: int| is_first_with_key(before, key, c);
            assert(before[c].key != key);
        }
    }
    let ghost new = process.deep_view();
    processes.push(process);
    assert(processes.deep_view() =~= before.push(new));
}

impl Trace {
    /// Converts the trace into the form a Jaeger-compatible viewer reads;
    /// `None` where no span of the trace was reported.
    pub fn to_jaeger(&self) -> (r: Option<JaegerTrace>)
        ensures
            r.deep_view() == jaeger_trace(self@),
    {
        let values = self.iter_valid();
        if values.len() == 0 {
            return None;
        }
        let ghost all = values.deep_view();
        let mut processes: Vec<JaegerProcess> = Vec::new();
        let mut spans: Vec<JaegerSpan> = Vec::new();
        let mut i: usize = 0;
        assert(processes.deep_view() =~= processes_of(all.take(0)));
        while i < values.len()
            invariant
                i <= values.len(),
                all == values.deep_view(),
                spans.len() == i,
                forall|j: int|
                    0 <= j < i ==> (#[trigger] spans@[j]).deep_view() == jaeger_span(
                        all[j].span,
                        all[j].service_instance_id(),
                    ),
                processes.deep_view() == processes_of(all.take(i as int)),
            decreases values.len() - i,
        {
            proof {
                assert(all.take(i + 1).drop_last() == all.take(i as int));
                assert(all.take(i + 1).last() == all[i as int]);
                assert(all[i as int] == values@[i as int].deep_view());
            }
            let v = values[i];
            let process = JaegerProcess::from(&v.resource);
            let key = process.key.clone();
            add_process(&mut processes, process);
            spans.push(span_to_jaeger_json(&v.span, key));
            i += 1;
        }
        proof {
            assert(all.take(i as int) == all);
            assert(spans.deep_view() =~= jaeger_spans(all));
            lemma_hex_first(all);
        }
        let trace_id = spans[0].trace_id.clone();
        Some(JaegerTrace { trace_id, spans, processes })
    }

    /// Converts the trace into the answer to a query for one trace.
    pub fn to_jaeger_batch(&self) -> (r: JaegerBatch)
        ensures
            r.deep_view() == (JaegerBatchView { data: seq![jaeger_trace(self@)] }),
    {
        let mut data: Vec<Option<JaegerTrace>> = Vec::new();
        let one = self.to_jaeger();
        data.push(one);
        assert(data.deep_view() =~= seq![jaeger_trace(self@)]);
        JaegerBatch { data }
    }
}

/// The first converted span carries the id of the first span.
proof fn lemma_hex_first(values: Seq<SpanValueView>)
    requires
        values.len() > 0,
    ensures
        jaeger_spans(values)[0].trace_id == hex_view(values[0].span.trace_id),
{
}


/// The ids in a converted trace are the ids of the trace, written in
/// lowercase hexadecimal: read back, they give the bytes of those ids.
pub proof fn lemma_jaeger_ids(trace: TraceView)
    requires
        trace.values().len() > 0,
    ensures
        ({
            let values = trace.values();
            let converted = jaeger_trace(trace)->0;
            &&& jaeger_trace(trace) is Some
            &&& converted.trace_id == hex_view(values[0].span.trace_id)
            &&& crate::hex::unhex_view(converted.trace_id) == values[0].span.trace_id
            &&& converted.spans.len() == values.len()
            &&& forall|i: int|
                0 <= i < values.len() ==> {
                    let span = #[trigger] converted.spans[i];
                    &&& span.trace_id == hex_view(values[i].span.trace_id)
                    &&& span.span_id == hex_view(values[i].span.span_id)
                    &&& crate::hex::unhex_view(span.trace_id) == values[i].span.trace_id
                    &&& crate::hex::unhex_view(span.span_id) == values[i].span.span_id
                }
        }),
{
    let values = trace.values();
    let converted = jaeger_trace(trace)->0;
    crate::hex::lemma_hex_round_trip(values[0].span.trace_id);
    assert forall|i: int| 0 <= i < values.len() implies {
        let span = #[trigger] converted.spans[i];
        &&& span.trace_id == hex_view(values[i].span.trace_id)
        &&& span.span_id == hex_view(values[i].span.span_id)
        &&& crate::hex::unhex_view(span.trace_id) == values[i].span.trace_id
        &&& crate::hex::unhex_view(span.span_id) == values[i].span.span_id
    } by {
        crate::hex::lemma_hex_round_trip(values[i].span.trace_id);
        crate::hex::lemma_hex_round_trip(values[i].span.span_id);
    }
}

/// Whether no two of the processes have the same key.
pub open spec fn distinct_process_keys(processes: Seq<JaegerProcessView>) -> bool {
    forall|i: int, j: int|
        0 <= i < j < processes.len() ==> (#[trigger] processes[i]).key != (
        #[trigger] processes[j]).key
}

/// The processes of a converted trace are listed once for each key, and
/// every span's process is among them.
pub proof fn lemma_processes_distinct(values: Seq<SpanValueView>)
    ensures
        distinct_process_keys(processes_of(values)),
        forall|i: int|
            0 <= i < values.len() ==> exists|k: int|
                0 <= k < processes_of(values).len() && (#[trigger] processes_of(values)[k]).key
                    == (#[trigger] values[i]).service_instance_id(),
    decreases values.len(),
{
    if values.len() > 0 {
        let before = processes_of(values.drop_last());
        let process = jaeger_process(values.last().resource);
        let after = processes_of(values);
        lemma_processes_distinct(values.drop_last());
        if exists|c: int| is_first_with_key(before, process.key, c) {
            let c = first_with_key(before, process.key);
            assert(is_first_with_key(before, process.key, c));
            assert forall|i: int, j: int| 0 <= i < j < after.len() implies (
            #[trigger] after[i]).key != (#[trigger] after[j]).key by {
                assert(after[i].key == before[i].key);
                assert(after[j].key == before[j].key);
            }
            assert(after[c].key == values.last().service_instance_id());
        } else {
            assert forall|i: int, j: int| 0 <= i < j < after.len() implies (
            #[trigger] after[i]).key != (#[trigger] after[j]).key by {
                if j == before.len() {
                    if before[i].key == process.key {
                        lemma_first_exists(before, process.key, i);
                    }
                } else {
                    assert(after[i].key == before[i].key);
                    assert(after[j].key == before[j].key);
                }
            }
            assert(after[before.len() as int].key == values.last().service_instance_id());
        }
        assert forall|i: int| 0 <= i < values.len() implies exists|k: int|
            0 <= k < after.len() && (#[trigger] after[k]).key == (
            #[trigger] values[i]).service_instance_id() by {
            if i < values.len() - 1 {
                assert(values.drop_last()[i] == values[i]);
                let k = choose|k: int|
                    0 <= k < before.len() && (#[trigger] before[k]).key == values.drop_last()[i].service_instance_id();
                assert(after[k].key == before[k].key);
            }
        }
    }
}

/// Where a process has a key, there is a first process with that key.
proof fn lemma_first_exists(processes: Seq<JaegerProcessView>, key: Seq<char>, i: int)
    requires
        0 <= i < processes.len(),
        processes[i].key == key,
    ensures
        exists|c: int| is_first_with_key(processes, key, c),
    decreases i,
{
    if exists|j: int| 0 <= j < i && (#[trigger] processes[j]).key == key {
        let j = choose|j: int| 0 <= j < i && (#[trigger] processes[j]).key == key;
        lemma_first_exists(processes, key, j);
    } else {
        assert(is_first_with_key(processes, key, i));
    }
}

/// In the converted form of a complete trace there is one span for each
/// node, and its span id is the node's key in lowercase hexadecimal: read
/// back, it gives the key. Where all spans of the trace have one trace id,
/// every converted span carries the trace id of the converted trace.
pub proof fn lemma_jaeger_keys(trace: TraceView)
    requires
        trace.well_formed(),
        trace.is_complete(),
        trace.spans.len() > 0,
    ensures
        ({
            let converted = jaeger_trace(trace)->0;
            &&& jaeger_trace(trace) is Some
            &&& converted.spans.len() == trace.spans.len()
            &&& forall|i: int|
                0 <= i < trace.spans.len() ==> {
                    let span = #[trigger] converted.spans[i];
                    &&& span.span_id == hex_view(trace.spans[i].0)
                    &&& crate::hex::unhex_view(span.span_id) == trace.spans[i].0
                }
            &&& (forall|i: int, j: int|
                0 <= i < trace.values().len() && 0 <= j < trace.values().len()
                    ==> (#[trigger] trace.values()[i]).span.trace_id == (
                    #[trigger] trace.values()[j]).span.trace_id) ==> forall|i: int|
                0 <= i < converted.spans.len() ==> (#[trigger] converted.spans[i]).trace_id
                    == converted.trace_id
        }),
{
    crate::trace_proofs::lemma_complete_values(trace);
    lemma_jaeger_ids(trace);
    let values = trace.values();
    let converted = jaeger_trace(trace)->0;
    assert forall|i: int| 0 <= i < trace.spans.len() implies {
        let span = #[trigger] converted.spans[i];
        &&& span.span_id == hex_view(trace.spans[i].0)
        &&& crate::hex::unhex_view(span.span_id) == trace.spans[i].0
    } by {
        assert(values[i] == trace.spans[i].1->Value_0);
        assert(trace.spans[i].1 is Value);
        crate::hex::lemma_hex_round_trip(trace.spans[i].0);
    }
    if forall|i: int, j: int|
        0 <= i < values.len() && 0 <= j < values.len() ==> (#[trigger] values[i]).span.trace_id
            == (#[trigger] values[j]).span.trace_id {
        assert forall|i: int| 0 <= i < converted.spans.len() implies (
        #[trigger] converted.spans[i]).trace_id == converted.trace_id by {
            assert(values[i].span.trace_id == values[0].span.trace_id);
        }
    }
}

} // verus!
