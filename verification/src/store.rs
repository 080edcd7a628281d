//! The model of the store: what it holds, in order of use, and what may
//! become of it when a span is reported.

use vstd::prelude::*;
use crate::proto::{ResourceSpansView, ResourceView, ScopeSpansView, SpanView};
use crate::ranking::is_ranking;
use crate::trace::{SpanValueView, TraceView};

verus! {

/// One kept trace: its id, its model, and the estimated bytes that were
/// counted for it.
pub struct EntryView {
    pub id: Seq<u8>,
    pub trace: TraceView,
    pub charge: nat,
}

/// The model of a store: its entries from the most recently used to the
/// least recently used, and its two bounds.
pub struct StateView {
    pub entries: Seq<EntryView>,
    pub max_length: nat,
    pub max_memory_usage: nat,
}

/// The sum of the estimated bytes of the given entries.
pub open spec fn total_charge(entries: Seq<EntryView>) -> nat
    decreases entries.len(),
{
    if entries.len() == 0 {
        0
    } else {
        total_charge(entries.drop_last()) + entries.last().charge
    }
}

/// What the limiter, the estimate and the map made of a trace that was put
/// back into the store: the bytes that were counted for it, whether the
/// limiter refused it, whether it was stored, and how many of the other
/// entries, the most recently used ones, the map kept. The limiter refuses
/// a trace where the store keeps no trace at all or the running total
/// cannot hold the count; all other entries then stay. A trace that is not
/// refused is stored, and all others are kept, unless the map cannot grow.
#[derive(Debug, Clone, Copy, PartialEq, Eq)]
pub struct Outcome {
    pub charge: usize,
    pub refused: bool,
    pub stored: bool,
    pub kept: usize,
}

/// Makes the outcome of putting a trace back from what was counted for it,
/// how many other entries the store held, whether the limiter accepted it,
/// whether the map then took it, and how many entries the map holds now.
/// A trace is stored where the limiter accepted it and the map took it. Of
/// the others all are kept where the limiter refused, since the map was
/// then not asked; otherwise those that the map holds now, but for the new
/// one.
pub fn outcome_of(charge: usize, length: usize, accepted: bool, inserted: bool, now: usize) -> (o:
    Outcome)
    requires
        accepted && inserted ==> now > 0,
    ensures
        o.charge == charge,
        o.refused == !accepted,
        o.stored == (accepted && inserted),
        o.kept == (if !accepted {
            length
        } else if inserted {
            (now - 1) as usize
        } else {
            now
        }),
{
    let kept = if !accepted {
        length
    } else if inserted {
        now - 1
    } else {
        now
    };
    Outcome { charge, refused: !accepted, stored: accepted && inserted, kept }
}

/// Whether `charge` may be what is counted for a trace under its id: an
/// estimate that is no less than the bytes of the id and the floor of the
/// trace, or one that has stopped at the largest number that the machine's
/// word holds.
pub open spec fn counts(charge: nat, id: Seq<u8>, trace: TraceView) -> bool {
    charge <= usize::MAX && (charge >= id.len() + trace.floor() || charge == usize::MAX)
}

impl StateView {
    /// The estimated memory usage: the sum over the entries.
    pub open spec fn memory(self) -> nat {
        total_charge(self.entries)
    }

    /// Whether the store is over one of its bounds.
    pub open spec fn over_limit(self) -> bool {
        self.entries.len() > self.max_length || self.memory() > self.max_memory_usage
    }

    /// Whether no trace id occurs twice.
    pub open spec fn distinct(self) -> bool {
        forall|i: int, j: int|
            0 <= i < j < self.entries.len() ==> (#[trigger] self.entries[i]).id != (
            #[trigger] self.entries[j]).id
    }

    /// Whether the store holds a trace with the given id.
    pub open spec fn has(self, id: Seq<u8>) -> bool {
        exists|i: int| 0 <= i < self.entries.len() && (#[trigger] self.entries[i]).id == id
    }

    /// Where the trace with the given id stands.
    pub open spec fn index_of(self, id: Seq<u8>) -> int {
        choose|i: int| 0 <= i < self.entries.len() && (#[trigger] self.entries[i]).id == id
    }

    /// The trace with the given id; the empty trace where the store holds
    /// none.
    pub open spec fn trace_of(self, id: Seq<u8>) -> TraceView {
        if self.has(id) {
            self.entries[self.index_of(id)].trace
        } else {
            TraceView { spans: Seq::empty(), end_time: 0 }
        }
    }

    /// The store without the trace with the given id.
    pub open spec fn without(self, id: Seq<u8>) -> StateView {
        if self.has(id) {
            StateView { entries: self.entries.remove(self.index_of(id)), ..self }
        } else {
            self
        }
    }

    /// The store after the trace with the given id was used: it stands
    /// first, the others keep their order.
    pub open spec fn touched(self, id: Seq<u8>) -> StateView {
        if self.has(id) {
            let i = self.index_of(id);
            StateView { entries: seq![self.entries[i]] + self.entries.remove(i), ..self }
        } else {
            self
        }
    }

    /// The store after it gave up its least recently used entries, one by
    /// one, for as long as it was over a bound.
    pub open spec fn settled(self) -> StateView
        decreases self.entries.len(),
    {
        if self.entries.len() > 0 && self.over_limit() {
            (StateView { entries: self.entries.drop_last(), ..self }).settled()
        } else {
            self
        }
    }

    /// The store after the trace with the given id was put back in its new
    /// form. The entry is counted with `charge`. It comes to stand first if
    /// it is `stored`. Of the other entries the `kept` most recently used
    /// stay. Then the store settles.
    pub open spec fn reinserted(
        self,
        id: Seq<u8>,
        trace: TraceView,
        charge: nat,
        kept: int,
        stored: bool,
    ) -> StateView {
        let rest = self.without(id).entries.take(kept);
        let entries = if stored {
            seq![EntryView { id, trace, charge }] + rest
        } else {
            rest
        };
        (StateView { entries, ..self }).settled()
    }

    /// Whether `outcome` may be what comes of reporting the given span. No
    /// more entries are kept than there are. The count is an estimate of
    /// the trace that the span is merged into. The trace is refused exactly
    /// where the store keeps no trace at all or the running total cannot
    /// hold the count; a trace that is refused is not stored, and all other
    /// entries are then kept.
    pub open spec fn admits(self, value: SpanValueView, outcome: Outcome) -> bool {
        let id = value.span.trace_id;
        let trace = self.trace_of(id).add_value(value);
        &&& outcome.kept <= self.without(id).entries.len()
        &&& counts(outcome.charge as nat, id, trace)
        &&& outcome.refused <==> self.max_length == 0 || outcome.charge + self.without(
            id,
        ).memory() > usize::MAX
        &&& outcome.refused ==> !outcome.stored && outcome.kept == self.without(
            id,
        ).entries.len()
    }

    /// The store after the given span was reported to it, with the given
    /// outcome. The span is merged into the trace of its trace id, and that
    /// trace is put back as the most recently used, as the outcome says.
    /// Then the store settles.
    pub open spec fn stepped(self, value: SpanValueView, outcome: Outcome) -> StateView {
        let id = value.span.trace_id;
        self.reinserted(
            id,
            self.trace_of(id).add_value(value),
            outcome.charge as nat,
            outcome.kept as int,
            outcome.stored,
        )
    }

    /// Whether `after` is what the store may be after the given span was
    /// reported to it, with some outcome.
    pub open spec fn step(self, after: StateView, value: SpanValueView) -> bool {
        exists|outcome: Outcome| #[trigger]
            self.admits(value, outcome) && after == self.stepped(value, outcome)
    }

    /// The store after the given spans were reported to it, one after the
    /// other, with the given outcomes.
    pub open spec fn run(self, values: Seq<SpanValueView>, outcomes: Seq<Outcome>) -> StateView
        decreases values.len(),
    {
        if values.len() == 0 || outcomes.len() != values.len() {
            self
        } else {
            self.run(values.drop_last(), outcomes.drop_last()).stepped(
                values.last(),
                outcomes.last(),
            )
        }
    }

    /// Whether the given outcomes may be what comes of reporting the given
    /// spans, one after the other.
    pub open spec fn admits_all(
        self,
        values: Seq<SpanValueView>,
        outcomes: Seq<Outcome>,
    ) -> bool
        decreases values.len(),
    {
        outcomes.len() == values.len() && (values.len() == 0 || (self.admits_all(
            values.drop_last(),
            outcomes.drop_last(),
        ) && self.run(values.drop_last(), outcomes.drop_last()).admits(
            values.last(),
            outcomes.last(),
        )))
    }

    /// Whether `after` is what the store may be after the given spans were
    /// reported to it, one after the other.
    pub open spec fn steps(self, after: StateView, values: Seq<SpanValueView>) -> bool
        decreases values.len(),
    {
        if values.len() == 0 {
            after == self
        } else {
            exists|mid: StateView|
                self.steps(mid, values.drop_last()) && #[trigger] mid.step(after, values.last())
        }
    }
}

/// The resource of a batch that names none.
pub open spec fn empty_resource() -> ResourceView {
    ResourceView { attributes: Seq::empty(), dropped_attributes_count: 0 }
}

/// The given spans, each with the given resource.
pub open spec fn span_values(spans: Seq<SpanView>, resource: ResourceView) -> Seq<SpanValueView> {
    spans.map_values(|span: SpanView| SpanValueView { span, resource })
}

/// The spans of the given scopes in their order, each with the given
/// resource.
pub open spec fn scope_values(scopes: Seq<ScopeSpansView>, resource: ResourceView) -> Seq<
    SpanValueView,
>
    decreases scopes.len(),
{
    if scopes.len() == 0 {
        Seq::empty()
    } else {
        scope_values(scopes.drop_last(), resource) + span_values(scopes.last().spans, resource)
    }
}

/// The spans of a batch in their order, each with the resource of the
/// batch.
pub open spec fn batch_values(batch: ResourceSpansView) -> Seq<SpanValueView> {
    scope_values(
        batch.scope_spans,
        match batch.resource {
            Some(r) => r,
            None => empty_resource(),
        },
    )
}

/// The complete traces among the given entries, in their order.
pub open spec fn complete_traces(entries: Seq<EntryView>) -> Seq<TraceView>
    decreases entries.len(),
{
    if entries.len() == 0 {
        Seq::empty()
    } else if entries.last().trace.is_complete() {
        complete_traces(entries.drop_last()).push(entries.last().trace)
    } else {
        complete_traces(entries.drop_last())
    }
}

/// The roots of the given entries' traces, in their order. A trace without
/// a root gives none.
pub open spec fn roots(entries: Seq<EntryView>) -> Seq<SpanValueView>
    decreases entries.len(),
{
    if entries.len() == 0 {
        Seq::empty()
    } else {
        match entries.last().trace.root() {
            Some(root) => roots(entries.drop_last()).push(root),
            None => roots(entries.drop_last()),
        }
    }
}

/// The service names of the given roots, in their order.
pub open spec fn service_names(roots: Seq<SpanValueView>) -> Seq<Seq<char>> {
    roots.map_values(|root: SpanValueView| root.service_name())
}

/// The operations of those of the given roots that the given service
/// reported, in their order.
pub open spec fn operations_of(roots: Seq<SpanValueView>, service: Seq<char>) -> Seq<Seq<char>>
    decreases roots.len(),
{
    if roots.len() == 0 {
        Seq::empty()
    } else if roots.last().service_name() == service {
        operations_of(roots.drop_last(), service).push(roots.last().span.name)
    } else {
        operations_of(roots.drop_last(), service)
    }
}

/// The text that a query asks for, where it asks for one.
pub open spec fn asked(text: Option<&str>) -> Option<Seq<char>> {
    match text {
        Some(t) => Some(t@),
        None => None,
    }
}

/// Whether a trace answers a query: it is complete, the service that
/// reported its root is the one asked for, and its operation is the one
/// asked for. A trace without a root answers no query that asks for a
/// service or an operation.
pub open spec fn answers(
    trace: TraceView,
    service: Option<Seq<char>>,
    operation: Option<Seq<char>>,
) -> bool {
    &&& trace.is_complete()
    &&& service is Some ==> trace.root() is Some && trace.root()->0.service_name() == service->0
    &&& operation is Some ==> trace.root() is Some && trace.root()->0.span.name == operation->0
}

/// The traces among the given entries that answer a query, in the order of
/// the entries.
pub open spec fn answering(
    entries: Seq<EntryView>,
    service: Option<Seq<char>>,
    operation: Option<Seq<char>>,
) -> Seq<TraceView>
    decreases entries.len(),
{
    if entries.len() == 0 {
        Seq::empty()
    } else if answers(entries.last().trace, service, operation) {
        answering(entries.drop_last(), service, operation).push(entries.last().trace)
    } else {
        answering(entries.drop_last(), service, operation)
    }
}

/// The end times of the given traces, one for one.
pub open spec fn end_times(traces: Seq<TraceView>) -> Seq<u64> {
    traces.map_values(|t: TraceView| t.end_time)
}

/// Whether `listed` lists the traces `found` from the latest end time to
/// the earliest, traces with one end time in the order in which they were
/// found, and stops after `limit` traces.
pub open spec fn is_listing(listed: Seq<TraceView>, found: Seq<TraceView>, limit: nat) -> bool {
    exists|order: Seq<usize>|
        {
            &&& #[trigger] is_ranking(order, end_times(found))
            &&& listed.len() == if limit <= found.len() {
                limit
            } else {
                found.len()
            }
            &&& forall|i: int| 0 <= i < listed.len() ==> listed[i] == found[order[i] as int]
        }
}

/// The entries take at least what any one of them takes.
pub proof fn lemma_total_covers(entries: Seq<EntryView>, i: int)
    requires
        0 <= i < entries.len(),
    ensures
        total_charge(entries) >= entries[i].charge,
    decreases entries.len(),
{
    if i < entries.len() - 1 {
        lemma_total_covers(entries.drop_last(), i);
    }
}

/// Adding an entry in front adds its charge.
pub proof fn lemma_total_front(e: EntryView, entries: Seq<EntryView>)
    ensures
        total_charge(seq![e] + entries) == e.charge + total_charge(entries),
    decreases entries.len(),
{
    if entries.len() == 0 {
        assert(seq![e] + entries == seq![e]);
        assert(seq![e].drop_last() == Seq::<EntryView>::empty());
        assert(total_charge(Seq::<EntryView>::empty()) == 0);
        assert(seq![e].last() == e);
    } else {
        assert((seq![e] + entries).drop_last() == seq![e] + entries.drop_last());
        assert((seq![e] + entries).last() == entries.last());
        lemma_total_front(e, entries.drop_last());
    }
}

/// Taking an entry out takes its charge out.
pub proof fn lemma_total_remove(entries: Seq<EntryView>, i: int)
    requires
        0 <= i < entries.len(),
    ensures
        total_charge(entries.remove(i)) == total_charge(entries) - entries[i].charge,
    decreases entries.len(),
{
    if i == entries.len() - 1 {
        assert(entries.remove(i) == entries.drop_last());
    } else {
        assert(entries.remove(i).drop_last() == entries.drop_last().remove(i));
        lemma_total_remove(entries.drop_last(), i);
    }
}

/// The most recently used entries take no more than all of them.
pub proof fn lemma_total_take(entries: Seq<EntryView>, kept: int)
    requires
        0 <= kept <= entries.len(),
    ensures
        total_charge(entries.take(kept)) <= total_charge(entries),
    decreases entries.len(),
{
    if kept == entries.len() {
        assert(entries.take(kept) == entries);
    } else {
        assert(entries.drop_last().take(kept) == entries.take(kept));
        lemma_total_take(entries.drop_last(), kept);
    }
}

/// A store within its bounds, or without entries, is settled.
pub proof fn lemma_settled_rests(view: StateView)
    requires
        !view.over_limit() || view.entries.len() == 0,
    ensures
        view.settled() == view,
{
}

/// A settled store is within its bounds.
pub proof fn lemma_settled_within(view: StateView)
    ensures
        !view.settled().over_limit(),
        view.settled().max_length == view.max_length,
        view.settled().max_memory_usage == view.max_memory_usage,
    decreases view.entries.len(),
{
    if view.entries.len() > 0 && view.over_limit() {
        lemma_settled_within(StateView { entries: view.entries.drop_last(), ..view });
    } else if view.entries.len() == 0 {
        assert(view.memory() == 0);
    }
}

/// Whether a span comes to a full store that does not hold its trace, with
/// the outcome that the trace was stored and every other entry kept, and
/// all but the least recently used entry fit the memory bound together
/// with the new trace. The store then gives up exactly its least recently
/// used trace.
pub open spec fn gives_up_oldest(store: StateView, value: SpanValueView, outcome: Outcome) -> bool {
    &&& store.max_length > 0
    &&& store.entries.len() == store.max_length
    &&& !store.has(value.span.trace_id)
    &&& outcome.stored
    &&& outcome.kept == store.entries.len()
    &&& outcome.charge + total_charge(store.entries.drop_last()) <= store.max_memory_usage
}

/// One more span with its outcome, after some spans with theirs, makes the
/// run of one more span.
pub proof fn lemma_run_push(
    first: StateView,
    values: Seq<SpanValueView>,
    outcomes: Seq<Outcome>,
    value: SpanValueView,
    outcome: Outcome,
)
    requires
        first.admits_all(values, outcomes),
        first.run(values, outcomes).admits(value, outcome),
    ensures
        first.admits_all(values.push(value), outcomes.push(outcome)),
        first.run(values.push(value), outcomes.push(outcome)) == first.run(
            values,
            outcomes,
        ).stepped(value, outcome),
{
    assert(values.push(value).drop_last() == values);
    assert(outcomes.push(outcome).drop_last() == outcomes);
    assert(values.push(value).last() == value);
    assert(outcomes.push(outcome).last() == outcome);
}

/// One more step after some steps makes the steps of one more span.
pub proof fn lemma_steps_push(
    first: StateView,
    mid: StateView,
    last: StateView,
    values: Seq<SpanValueView>,
    value: SpanValueView,
)
    requires
        first.steps(mid, values),
        mid.step(last, value),
    ensures
        first.steps(last, values.push(value)),
{
    let all = values.push(value);
    assert(all.drop_last() == values);
    assert(all.last() == value);
    assert(first.steps(mid, all.drop_last()) && mid.step(last, all.last()));
}

} // verus!
