//! The shape in which a trace is handed to Grafana Tempo: every reported
//! span on its own, under the resource that reported it.

use vstd::prelude::*;
use crate::proto::{Resource, ResourceView, Span, SpanView};
use crate::trace::{SpanValueView, Trace, TraceView};

verus! {

/// The spans of one instrumentation library.
#[derive(Debug, PartialEq)]
pub struct TempoLibrarySpans {
    pub spans: Vec<Span>,
}

/// The spans that one resource reported, grouped by library.
#[derive(Debug, PartialEq)]
pub struct TempoResourceSpans {
    pub resource: Resource,
    pub instrumentation_library_spans: Vec<TempoLibrarySpans>,
}

/// A trace, as a list of groups of spans.
#[derive(Debug, PartialEq)]
pub struct TempoBatch {
    pub batches: Vec<TempoResourceSpans>,
}

/// The model of [`TempoLibrarySpans`].
pub struct TempoLibrarySpansView {
    pub spans: Seq<SpanView>,
}

/// The model of [`TempoResourceSpans`].
pub struct TempoResourceSpansView {
    pub resource: ResourceView,
    pub instrumentation_library_spans: Seq<TempoLibrarySpansView>,
}

/// The model of [`TempoBatch`].
pub struct TempoBatchView {
    pub batches: Seq<TempoResourceSpansView>,
}

impl DeepView for TempoLibrarySpans {
    type V = TempoLibrarySpansView;

    open spec fn deep_view(&self) -> TempoLibrarySpansView {
        TempoLibrarySpansView { spans: self.spans.deep_view() }
    }
}

impl DeepView for TempoResourceSpans {
    type V = TempoResourceSpansView;

    open spec fn deep_view(&self) -> TempoResourceSpansView {
        TempoResourceSpansView {
            resource: self.resource.deep_view(),
            instrumentation_library_spans: self.instrumentation_library_spans.deep_view(),
        }
    }
}

impl DeepView for TempoBatch {
    type V = TempoBatchView;

    open spec fn deep_view(&self) -> TempoBatchView {
        TempoBatchView { batches: self.batches.deep_view() }
    }
}

/// The group that holds one span and nothing else, under its resource.
pub open spec fn tempo_group(value: SpanValueView) -> TempoResourceSpansView {
    TempoResourceSpansView {
        resource: value.resource,
        instrumentation_library_spans: seq![TempoLibrarySpansView { spans: seq![value.span] }],
    }
}

/// The trace as a list of groups: one group for each reported span, in the
/// order of the spans. Spans of one resource are not brought together.
pub open spec fn tempo_batch(trace: TraceView) -> TempoBatchView {
    TempoBatchView {
        batches: trace.values().map_values(|v: SpanValueView| tempo_group(v)),
    }
}

impl Trace {
    /// Converts the trace into the form in which Grafana Tempo takes a
    /// batch.
    pub fn to_tempo_batch(&self) -> (r: TempoBatch)
        ensures
            r.deep_view() == tempo_batch(self@),
    {
        let values = self.iter_valid();
        let ghost all = values.deep_view();
        let mut batches: Vec<TempoResourceSpans> = Vec::new();
        let mut i: usize = 0;
        while i < values.len()
            invariant
                i <= values.len(),
                all == values.deep_view(),
                batches.len() == i,
                forall|j: int|
                    0 <= j < i ==> (#[trigger] batches@[j]).deep_view() == tempo_group(all[j]),
            decreases values.len() - i,
        {
            let v = values[i];
            assert(all[i as int] == v.deep_view());
            let mut spans: Vec<Span> = Vec::new();
            spans.push(v.span.clone());
            assert(spans.deep_view() =~= seq![v.deep_view().span]);
            let mut libraries: Vec<TempoLibrarySpans> = Vec::new();
            libraries.push(TempoLibrarySpans { spans });
            assert(libraries.deep_view() =~= seq![
                TempoLibrarySpansView { spans: seq![v.deep_view().span] },
            ]);
            let resource: Resource = (*v.resource).clone();
            batches.push(TempoResourceSpans { resource, instrumentation_library_spans: libraries });
            i += 1;
        }
        assert(batches.deep_view() =~= tempo_batch(self@).batches);
        TempoBatch { batches }
    }
}

} // verus!
