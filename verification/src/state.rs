//! The store: the traces that are kept, in order of use, under a bound on
//! their number and a bound on their estimated memory.

use std::sync::Arc;
use vstd::prelude::*;
use crate::hex::{decode_hex, is_hex, unhex_view};
use crate::jaeger::str_eq;
use crate::limiter::MyLimiter;
use crate::lru::{
    distinct_keys, has_key, key_index, lru_entries, lru_get, lru_insert, lru_len, lru_new,
    lru_pop_oldest, lru_remove, lru_slots, Lru, Slot,
};
use crate::names::{insert_name, lists_ascending};
use crate::proto::{Resource, ResourceSpans};
use crate::ranking::{is_ranking, newest_first};
use crate::size::{add_sizes, bytes_heap_size, reaches};
use crate::state_proofs::lemma_full_store_step;
use crate::store::{
    answering, answers, asked, batch_values, complete_traces, counts, end_times, gives_up_oldest,
    is_listing, lemma_run_push, lemma_settled_rests, lemma_steps_push, lemma_total_front,
    lemma_total_remove, lemma_total_take, operations_of, outcome_of, roots, scope_values,
    service_names, span_values, total_charge, EntryView, Outcome, StateView,
};
use crate::trace::{SpanValue, Trace};

verus! {

/// The bounds of a store. When either is passed, the traces that were not
/// used for the longest time leave.
#[derive(Debug)]
pub struct Config {
    /// The largest number of traces to keep.
    pub max_length: u32,
    /// The largest estimated memory usage of the traces, in bytes.
    pub max_memory_usage: usize,
}

/// The traces that are kept. A trace that is reported to or looked up
/// becomes the most recently used; when a bound is passed, the least
/// recently used traces leave.
pub struct State {
    traces: Lru,
    limiter: MyLimiter,
}

/// The model of one entry of the map.
pub open spec fn entry_view(e: (Seq<u8>, Slot)) -> EntryView {
    EntryView { id: e.0, trace: e.1.trace@, charge: e.1.charge as nat }
}

/// The models of the entries of the map.
pub open spec fn entry_views(entries: Seq<(Seq<u8>, Slot)>) -> Seq<EntryView> {
    entries.map_values(|e: (Seq<u8>, Slot)| entry_view(e))
}

/// What holds of the entries of the map at all times: no trace id has two
/// entries, every trace is well formed, and every entry is counted with an
/// estimate of its trace.
pub open spec fn sound(raw: Seq<(Seq<u8>, Slot)>) -> bool {
    &&& distinct_keys(raw)
    &&& forall|i: int|
        0 <= i < raw.len() ==> {
            let entry = #[trigger] raw[i];
            &&& entry.1.trace.wf()
            &&& counts(entry.1.charge as nat, entry.0, entry.1.trace@)
        }
}

/// The models of the entries without one of them are the models of the
/// rest.
proof fn lemma_views_remove(raw: Seq<(Seq<u8>, Slot)>, i: int)
    requires
        0 <= i < raw.len(),
    ensures
        entry_views(raw.remove(i)) == entry_views(raw).remove(i),
{
    assert(entry_views(raw.remove(i)) =~= entry_views(raw).remove(i));
}

/// Among entries with distinct keys, the models find a key where the map
/// finds it.
proof fn lemma_views_index(raw: Seq<(Seq<u8>, Slot)>, view: StateView, id: Seq<u8>)
    requires
        distinct_keys(raw),
        view.entries == entry_views(raw),
    ensures
        view.has(id) == has_key(raw, id),
        has_key(raw, id) ==> view.index_of(id) == key_index(raw, id) && 0 <= key_index(raw, id)
            < raw.len() && raw[key_index(raw, id)].0 == id,
{
    if has_key(raw, id) {
        let i = key_index(raw, id);
        assert(view.entries[i].id == id);
        let j = view.index_of(id);
        assert(raw[j].0 == id);
        if i < j {
            assert(raw[i].0 != raw[j].0);
        }
        if j < i {
            assert(raw[j].0 != raw[i].0);
        }
    }
    if view.has(id) {
        let j = view.index_of(id);
        assert(raw[j].0 == id);
    }
}

/// The first names of a list and one more hold what the first names hold,
/// and the one more.
proof fn lemma_take_one_more(names: Seq<Seq<char>>, i: int)
    requires
        0 <= i < names.len(),
    ensures
        forall|x: Seq<char>|
            #[trigger] names.take(i + 1).contains(x) <==> names.take(i).contains(x) || x
                == names[i],
{
    let more = names.take(i + 1);
    let less = names.take(i);
    assert forall|x: Seq<char>| #[trigger] more.contains(x) <==> less.contains(x) || x
        == names[i] by {
        if more.contains(x) {
            let k = choose|k: int| 0 <= k < more.len() && more[k] == x;
            if k < i {
                assert(less[k] == x);
            }
        }
        if less.contains(x) {
            let k = choose|k: int| 0 <= k < less.len() && less[k] == x;
            assert(more[k] == x);
        }
        if x == names[i] {
            assert(more[i] == x);
        }
    }
}

impl State {
    /// The model of the store.
    pub closed spec fn view(&self) -> StateView {
        StateView {
            entries: entry_views(lru_entries(self.traces)),
            max_length: self.limiter.max_length(),
            max_memory_usage: self.limiter.max_mem(),
        }
    }

    /// What holds of the store between any two steps: no trace id has two
    /// entries, every trace is well formed, every entry is counted with an
    /// estimate of its trace, and the running total of the limiter is the
    /// sum over the entries.
    pub closed spec fn accounted(&self) -> bool {
        &&& sound(lru_entries(self.traces))
        &&& self.limiter.current_mem() == self@.memory()
    }

    /// The invariant of the store: it is accounted for and within both of
    /// its bounds.
    pub closed spec fn wf(&self) -> bool {
        self.accounted() && !self@.over_limit()
    }

    /// A well-formed store is within its bounds and holds no trace id
    /// twice; each of its traces is well formed, and counted with an
    /// estimate that is no less than its floor.
    pub proof fn lemma_wf(&self)
        requires
            self.wf(),
        ensures
            self@.entries.len() <= self@.max_length,
            self@.memory() <= self@.max_memory_usage,
            self@.distinct(),
            forall|i: int|
                0 <= i < self@.entries.len() ==> {
                    let entry = #[trigger] self@.entries[i];
                    &&& entry.trace.well_formed()
                    &&& counts(entry.charge, entry.id, entry.trace)
                },
    {
        let raw = lru_entries(self.traces);
        assert forall|i: int, j: int| 0 <= i < j < self@.entries.len() implies (
        #[trigger] self@.entries[i]).id != (#[trigger] self@.entries[j]).id by {
            assert(raw[i].0 != raw[j].0);
        }
        assert forall|i: int| 0 <= i < self@.entries.len() implies {
            let entry = #[trigger] self@.entries[i];
            &&& entry.trace.well_formed()
            &&& counts(entry.charge, entry.id, entry.trace)
        } by {
            assert(raw[i].1.trace.wf());
        }
    }

    /// Creates an empty store with the given bounds.
    pub fn new(config: Config) -> (s: State)
        ensures
            s.wf(),
            s@ == (StateView {
                entries: Seq::empty(),
                max_length: config.max_length as nat,
                max_memory_usage: config.max_memory_usage as nat,
            }),
    {
        let s = State {
            traces: lru_new(),
            limiter: MyLimiter::new(config.max_memory_usage, config.max_length),
        };
        assert(s@.entries =~= Seq::empty());
        s
    }

    /// The number of traces in the store.
    pub fn len(&self) -> (n: usize)
        ensures
            n == self@.entries.len(),
    {
        lru_len(&self.traces)
    }

    /// The estimated memory usage of the store, in bytes.
    pub fn estimated_memory_usage(&self) -> (n: usize)
        requires
            self.wf(),
        ensures
            n == self@.memory(),
    {
        self.limiter.estimated_memory_usage()
    }

    /// Gives up the least recently used entries, one by one, for as long
    /// as the store is over a bound.
    fn settle(&mut self)
        requires
            old(self).accounted(),
        ensures
            final(self).wf(),
            final(self)@ == old(self)@.settled(),
    {
        while self.limiter.is_over_the_limit(lru_len(&self.traces))
            invariant
                self.accounted(),
                self@.settled() == old(self)@.settled(),
            decreases lru_entries(self.traces).len(),
        {
            let ghost raw = lru_entries(self.traces);
            let ghost before = self@;
            assert(raw.len() > 0) by {
                if raw.len() == 0 {
                    assert(before.entries.len() == 0);
                    assert(before.memory() == 0);
                }
            }
            match lru_pop_oldest(&mut self.traces) {
                Some(popped) => {
                    proof {
                        assert(entry_views(raw.drop_last()) =~= before.entries.drop_last());
                        assert(before.entries.last().charge == popped.1.charge);
                    }
                    self.limiter.on_removed(popped.1.charge);
                },
                None => {
                    return ;
                },
            }
        }
        proof {
            lemma_settled_rests(self@);
        }
    }

    /// Takes the trace with the given id out of the store.
    fn take(&mut self, id: &[u8]) -> (r: Option<Trace>)
        requires
            old(self).wf(),
        ensures
            final(self).wf(),
            final(self)@ == old(self)@.without(id@),
            !final(self)@.has(id@),
            r is Some <==> old(self)@.has(id@),
            r is Some ==> r->0@ == old(self)@.trace_of(id@) && r->0.wf(),
    {
        let ghost raw = lru_entries(self.traces);
        let ghost before = self@;
        proof {
            lemma_views_index(raw, before, id@);
        }
        match lru_remove(&mut self.traces, id) {
            Some(slot) => {
                proof {
                    let i = key_index(raw, id@);
                    lemma_views_remove(raw, i);
                    lemma_total_remove(before.entries, i);
                    assert(distinct_keys(raw.remove(i)));
                    assert(slot == raw[i].1);
                }
                self.limiter.on_removed(slot.charge);
                proof {
                    lemma_views_index(lru_entries(self.traces), self@, id@);
                    if has_key(lru_entries(self.traces), id@) {
                        let i = key_index(raw, id@);
                        let j = key_index(raw.remove(i), id@);
                        if j < i {
                            assert(raw[j].0 != raw[i].0);
                        } else {
                            assert(raw[i].0 != raw[j + 1].0);
                        }
                    }
                }
                Some(slot.trace)
            },
            None => None,
        }
    }

    /// Counts the entries anew, after the map let go of some of them.
    fn recount(&mut self)
        requires
            sound(lru_entries(old(self).traces)),
            old(self)@.memory() <= usize::MAX,
            old(self)@.max_length > 0,
        ensures
            final(self).accounted(),
            final(self)@ == old(self)@,
    {
        let slots = lru_slots(&self.traces);
        self.limiter.on_cleared();
        let ghost entries = self@.entries;
        let mut i: usize = 0;
        while i < slots.len()
            invariant
                i <= slots.len(),
                slots@.len() == entries.len(),
                entries == self@.entries,
                self@ == old(self)@,
                self.traces == old(self).traces,
                forall|k: int| 0 <= k < slots@.len() ==> (#[trigger] slots@[k]).charge as nat == entries[k].charge,
                self.limiter.current_mem() == total_charge(entries.take(i as int)),
                total_charge(entries) <= usize::MAX,
                self.limiter.max_length() > 0,
            decreases slots.len() - i,
        {
            proof {
                assert(entries.take(i + 1).drop_last() == entries.take(i as int));
                assert(entries.take(i + 1).last() == entries[i as int]);
                lemma_total_take(entries, i + 1);
            }
            let accepted = self.limiter.on_insert(i, slots[i].charge);
            assert(accepted);
            i += 1;
        }
        assert(entries.take(i as int) == entries);
    }

    /// Puts a trace into the store as the most recently used, counts it,
    /// and lets the store settle.
    fn put(&mut self, id: Vec<u8>, trace: Trace) -> (outcome: Outcome)
        requires
            old(self).wf(),
            !old(self)@.has(id@),
            trace.wf(),
        ensures
            final(self).wf(),
            outcome.kept <= old(self)@.entries.len(),
            counts(outcome.charge as nat, id@, trace@),
            outcome.refused <==> old(self)@.max_length == 0 || outcome.charge + old(
                self,
            )@.memory() > usize::MAX,
            outcome.refused ==> !outcome.stored && outcome.kept == old(self)@.entries.len(),
            final(self)@ == old(self)@.reinserted(
                id@,
                trace@,
                outcome.charge as nat,
                outcome.kept as int,
                outcome.stored,
            ),
    {
        let ghost raw = lru_entries(self.traces);
        let ghost before = self@;
        proof {
            lemma_views_index(raw, before, id@);
            assert(before.without(id@) == before);
        }
        let id_size = bytes_heap_size(&id);
        let trace_size = trace.heap_size();
        assert(reaches(id_size, id@.len()) && reaches(trace_size, trace@.floor()));
        let charge = add_sizes(id_size, trace_size);
        assert(counts(charge as nat, id@, trace@));
        let length = lru_len(&self.traces);
        if !self.limiter.on_insert(length, charge) {
            proof {
                lemma_settled_rests(before);
                assert(before.entries.take(before.entries.len() as int) == before.entries);
                assert(before == before.reinserted(
                    id@,
                    trace@,
                    charge as nat,
                    before.entries.len() as int,
                    false,
                ));
            }
            return outcome_of(charge, length, false, false, length);
        }
        let ghost slot = Slot { trace, charge };
        let stored = lru_insert(&mut self.traces, id, Slot { trace, charge });
        let ghost after = lru_entries(self.traces);
        let ghost kept = choose|kept: int|
            0 <= kept <= raw.len() && after == (if stored {
                seq![(id@, slot)]
            } else {
                Seq::empty()
            }) + #[trigger] raw.take(kept);
        let ghost new_entry = EntryView { id: id@, trace: trace@, charge: charge as nat };
        let ghost candidate = StateView {
            entries: if stored {
                seq![new_entry] + before.entries.take(kept)
            } else {
                before.entries.take(kept)
            },
            ..before
        };
        proof {
            assert(entry_views(raw.take(kept)) =~= before.entries.take(kept));
            assert(self@.entries =~= candidate.entries);
            assert(self@ == candidate);
            lemma_total_take(before.entries, kept);
            if stored {
                lemma_total_front(new_entry, before.entries.take(kept));
            }
            assert(distinct_keys(after)) by {
                assert forall|i: int, j: int| 0 <= i < j < after.len() implies (
                #[trigger] after[i]).0 != (#[trigger] after[j]).0 by {
                    if stored {
                        if i == 0 {
                            assert(after[j] == raw[j - 1]);
                            assert(raw[j - 1].0 != id@);
                        } else {
                            assert(after[i] == raw[i - 1]);
                            assert(after[j] == raw[j - 1]);
                        }
                    } else {
                        assert(after[i] == raw[i]);
                        assert(after[j] == raw[j]);
                    }
                }
            }
            assert forall|i: int| 0 <= i < after.len() implies {
                let entry = #[trigger] after[i];
                &&& entry.1.trace.wf()
                &&& counts(entry.1.charge as nat, entry.0, entry.1.trace@)
            } by {
                if stored {
                    if i > 0 {
                        assert(after[i] == raw[i - 1]);
                    }
                } else {
                    assert(after[i] == raw[i]);
                }
            }
            assert(sound(after));
        }
        if !stored {
            self.limiter.on_removed(charge);
        }
        let outcome = outcome_of(charge, length, true, stored, lru_len(&self.traces));
        assert(outcome.kept == kept);
        if outcome.kept != length {
            self.recount();
        } else {
            proof {
                assert(before.entries.take(kept) == before.entries);
            }
        }
        assert(self.accounted());
        self.settle();
        outcome
    }

    /// Takes in one reported span: merges it into the trace of its trace
    /// id, which is made anew where the store holds none, and puts that
    /// trace back as the most recently used. The trace is taken out of the
    /// store for this and counted again when it is put back, so that the
    /// running total follows its growth. What the estimate and the map made
    /// of the trace comes back as the outcome, and the store is then
    /// exactly what that outcome says.
    pub fn add_value(&mut self, value: SpanValue) -> (outcome: Outcome)
        requires
            old(self).wf(),
        ensures
            final(self).wf(),
            old(self)@.admits(value.deep_view(), outcome),
            outcome.refused <==> old(self)@.max_length == 0 || outcome.charge + old(
                self,
            )@.without(value.span.trace_id@).memory() > usize::MAX,
            outcome.refused ==> !outcome.stored && outcome.kept == old(self)@.without(
                value.span.trace_id@,
            ).entries.len(),
            final(self)@ == old(self)@.stepped(value.deep_view(), outcome),
            old(self)@.step(final(self)@, value.deep_view()),
            final(self)@.entries.len() <= final(self)@.max_length,
            final(self)@.memory() <= final(self)@.max_memory_usage,
            gives_up_oldest(old(self)@, value.deep_view(), outcome) ==> final(self)@.entries
                == seq![final(self)@.entries[0]] + old(self)@.entries.drop_last()
                && final(self)@.entries[0].id == value.span.trace_id@,
    {
        let ghost before = self@;
        let ghost given = value.deep_view();
        let id = value.span.trace_id.clone();
        assert(id@ =~= given.span.trace_id);
        let mut trace = match self.take(id.as_slice()) {
            Some(t) => t,
            None => Trace::default(),
        };
        trace.add_value(value);
        let ghost mid = self@;
        let ghost merged = trace@;
        let outcome = self.put(id, trace);
        proof {
            assert(mid.without(id@) == mid);
            assert(merged == before.trace_of(id@).add_value(given));
            assert(before.admits(given, outcome));
            assert(self@ == before.stepped(given, outcome));
            self.lemma_wf();
            if gives_up_oldest(before, given, outcome) {
                lemma_full_store_step(before, given, outcome);
            }
        }
        outcome
    }

    /// Takes in one batch: every span of every scope, in order, each with
    /// the resource of the batch. A batch without a resource has the empty
    /// resource. The outcomes of the spans come back, in their order, and
    /// the store is then exactly what they say.
    pub fn apply(&mut self, resource_spans: ResourceSpans) -> (outcomes: Vec<Outcome>)
        requires
            old(self).wf(),
        ensures
            final(self).wf(),
            old(self)@.admits_all(batch_values(resource_spans.deep_view()), outcomes@),
            final(self)@ == old(self)@.run(batch_values(resource_spans.deep_view()), outcomes@),
            old(self)@.steps(final(self)@, batch_values(resource_spans.deep_view())),
            final(self)@.entries.len() <= final(self)@.max_length,
            final(self)@.memory() <= final(self)@.max_memory_usage,
    {
        let ghost before = self@;
        let ghost batch = resource_spans.deep_view();
        let ResourceSpans { resource, scope_spans, schema_url: _ } = resource_spans;
        let resource = Arc::new(
            match resource {
                Some(r) => r,
                None => Resource::default(),
            },
        );
        let ghost shared = resource.deep_view();
        let ghost scopes = scope_spans.deep_view();
        assert(scopes == batch.scope_spans);
        assert(scopes.take(0) =~= Seq::empty());
        let mut outcomes: Vec<Outcome> = Vec::new();
        for scope in outer: scope_spans
            invariant
                outer.seq().len() == scopes.len(),
                forall|k: int| 0 <= k < scopes.len() ==> outer.seq()[k].deep_view() == scopes[k],
                self.wf(),
                shared == resource.deep_view(),
                before.steps(self@, scope_values(scopes.take(outer.index() as int), shared)),
                before.admits_all(
                    scope_values(scopes.take(outer.index() as int), shared),
                    outcomes@,
                ),
                self@ == before.run(
                    scope_values(scopes.take(outer.index() as int), shared),
                    outcomes@,
                ),
        {
            let ghost n = outer.index() as int;
            let ghost done = scope_values(scopes.take(n), shared);
            let ghost spans = scope.spans.deep_view();
            assert(spans == scopes[n].spans);
            assert(spans.take(0) =~= Seq::empty());
            assert(done + span_values(spans.take(0), shared) =~= done);
            for span in inner: scope.spans
                invariant
                    inner.seq().len() == spans.len(),
                    forall|k: int| 0 <= k < spans.len() ==> inner.seq()[k].deep_view() == spans[k],
                    self.wf(),
                    shared == resource.deep_view(),
                    before.steps(
                        self@,
                        done + span_values(spans.take(inner.index() as int), shared),
                    ),
                    before.admits_all(
                        done + span_values(spans.take(inner.index() as int), shared),
                        outcomes@,
                    ),
                    self@ == before.run(
                        done + span_values(spans.take(inner.index() as int), shared),
                        outcomes@,
                    ),
            {
                let ghost m = inner.index() as int;
                let ghost mid = self@;
                let ghost earlier = outcomes@;
                let value = SpanValue { span, resource: crate::trace::share(&resource) };
                let ghost given = value.deep_view();
                let outcome = self.add_value(value);
                outcomes.push(outcome);
                proof {
                    let so_far = done + span_values(spans.take(m), shared);
                    let next = done + span_values(spans.take(m + 1), shared);
                    assert(next =~= so_far.push(given));
                    assert(next.drop_last() == so_far);
                    lemma_steps_push(before, mid, self@, so_far, given);
                    lemma_run_push(before, so_far, earlier, given, outcome);
                }
            }
            proof {
                assert(spans.take(spans.len() as int) == spans);
                assert(scopes.take(n + 1).drop_last() == scopes.take(n));
                assert(scopes.take(n + 1).last() == scopes[n]);
            }
        }
        assert(scopes.take(scopes.len() as int) == scopes);
        proof {
            self.lemma_wf();
        }
        outcomes
    }

    /// Looks a trace up by its id. A trace that is found becomes the most
    /// recently used; nothing else changes, so the store holds as many
    /// traces and counts as much memory as before.
    pub fn get_by_id(&mut self, id: &[u8]) -> (r: Option<Trace>)
        requires
            old(self).wf(),
        ensures
            final(self).wf(),
            final(self)@ == old(self)@.touched(id@),
            final(self)@.entries.len() == old(self)@.entries.len(),
            final(self)@.memory() == old(self)@.memory(),
            r is Some <==> old(self)@.has(id@),
            r is Some ==> r->0@ == old(self)@.trace_of(id@) && r->0.wf(),
    {
        let ghost raw = lru_entries(self.traces);
        let ghost before = self@;
        proof {
            lemma_views_index(raw, before, id@);
        }
        let found = match lru_get(&mut self.traces, id) {
            Some(slot) => Some(slot.trace.clone()),
            None => None,
        };
        proof {
            if has_key(raw, id@) {
                let i = key_index(raw, id@);
                let after = lru_entries(self.traces);
                lemma_views_remove(raw, i);
                assert(self@.entries =~= seq![before.entries[i]] + before.entries.remove(i));
                lemma_total_remove(before.entries, i);
                lemma_total_front(before.entries[i], before.entries.remove(i));
                assert forall|a: int, b: int| 0 <= a < b < after.len() implies (
                #[trigger] after[a]).0 != (#[trigger] after[b]).0 by {
                    let from = |k: int|
                        if k == 0 {
                            i
                        } else if k - 1 < i {
                            k - 1
                        } else {
                            k
                        };
                    assert(after[a] == raw[from(a)]);
                    assert(after[b] == raw[from(b)]);
                    if from(a) < from(b) {
                        assert(raw[from(a)].0 != raw[from(b)].0);
                    } else {
                        assert(raw[from(b)].0 != raw[from(a)].0);
                    }
                }
                assert forall|k: int| 0 <= k < after.len() implies (#[trigger] after[k]).1.trace.wf() by {
                    if k == 0 {
                        assert(after[k] == raw[i]);
                    } else if k - 1 < i {
                        assert(after[k] == raw[k - 1]);
                    } else {
                        assert(after[k] == raw[k]);
                    }
                }
            }
        }
        found
    }

    /// Looks a trace up by its id in hexadecimal text. Text that is not the
    /// hexadecimal form of an id finds nothing and changes nothing. A trace
    /// that is found becomes the most recently used.
    pub fn get_by_hex_id(&mut self, hex_id: &str) -> (r: Option<Trace>)
        requires
            old(self).wf(),
        ensures
            final(self).wf(),
            !is_hex(hex_id@) ==> r is None && final(self)@ == old(self)@,
            is_hex(hex_id@) ==> {
                let id = unhex_view(hex_id@);
                &&& final(self)@ == old(self)@.touched(id)
                &&& r is Some <==> old(self)@.has(id)
                &&& r is Some ==> r->0@ == old(self)@.trace_of(id) && r->0.wf()
            },
    {
        match decode_hex(hex_id) {
            Some(id) => self.get_by_id(id.as_slice()),
            None => None,
        }
    }

    /// The complete traces of the store, the most recently used first.
    pub fn get_all_complete(&self) -> (r: Vec<Trace>)
        requires
            self.wf(),
        ensures
            r.deep_view() == complete_traces(self@.entries),
            forall|i: int| 0 <= i < r@.len() ==> (#[trigger] r@[i]).wf(),
    {
        let slots = lru_slots(&self.traces);
        let ghost entries = self@.entries;
        let mut out: Vec<Trace> = Vec::new();
        let mut i: usize = 0;
        while i < slots.len()
            invariant
                i <= slots.len(),
                slots@.len() == entries.len(),
                forall|k: int|
                    0 <= k < slots@.len() ==> (#[trigger] slots@[k]).trace@ == entries[k].trace
                        && slots@[k].trace.wf(),
                out.deep_view() == complete_traces(entries.take(i as int)),
                forall|k: int| 0 <= k < out@.len() ==> (#[trigger] out@[k]).wf(),
            decreases slots.len() - i,
        {
            proof {
                assert(entries.take(i + 1).drop_last() == entries.take(i as int));
                assert(entries.take(i + 1).last() == entries[i as int]);
            }
            if slots[i].trace.is_complete() {
                let ghost so_far = out.deep_view();
                let copy = slots[i].trace.clone();
                out.push(copy);
                assert(out.deep_view() =~= so_far.push(copy@));
            }
            i += 1;
        }
        assert(entries.take(i as int) == entries);
        out
    }

    fn root_spans(&self) -> (r: Vec<&SpanValue>)
        requires
            self.wf(),
        ensures
            r.deep_view() == roots(self@.entries),
    {
        let slots = lru_slots(&self.traces);
        let ghost entries = self@.entries;
        let mut out: Vec<&SpanValue> = Vec::new();
        let mut i: usize = 0;
        while i < slots.len()
            invariant
                i <= slots.len(),
                slots@.len() == entries.len(),
                forall|k: int|
                    0 <= k < slots@.len() ==> (#[trigger] slots@[k]).trace@ == entries[k].trace,
                out.deep_view() == roots(entries.take(i as int)),
            decreases slots.len() - i,
        {
            proof {
                assert(entries.take(i + 1).drop_last() == entries.take(i as int));
                assert(entries.take(i + 1).last() == entries[i as int]);
            }
            match slots[i].trace.root_span() {
                Some(root) => {
                    let ghost so_far = out.deep_view();
                    out.push(root);
                    assert(out.deep_view() =~= so_far.push(root.deep_view()));
                },
                None => {},
            }
            i += 1;
        }
        assert(entries.take(i as int) == entries);
        out
    }

    /// The names of the services that reported the root of a trace in the
    /// store: each name once, in ascending order.
    pub fn get_all_services(&self) -> (r: Vec<&str>)
        requires
            self.wf(),
        ensures
            lists_ascending(r.deep_view(), service_names(roots(self@.entries))),
    {
        let all = self.root_spans();
        let ghost names = service_names(all.deep_view());
        let mut out: Vec<&str> = Vec::new();
        let mut i: usize = 0;
        while i < all.len()
            invariant
                i <= all.len(),
                names == service_names(all.deep_view()),
                lists_ascending(out.deep_view(), names.take(i as int)),
            decreases all.len() - i,
        {
            let name = all[i].service_name();
            let ghost listed = out.deep_view();
            insert_name(&mut out, name);
            proof {
                assert(names[i as int] == name@);
                lemma_take_one_more(names, i as int);
                assert forall|x: Seq<char>| #[trigger]
                    out.deep_view().contains(x) <==> names.take(i + 1).contains(x) by {
                    assert(listed.contains(x) <==> names.take(i as int).contains(x));
                }
            }
            i += 1;
        }
        assert(names.take(i as int) == names);
        out
    }

    /// The operations of the traces in the store whose root the given
    /// service reported: each operation once, in ascending order. A service
    /// that reported no root has none.
    pub fn get_operations(&self, service_name: &str) -> (r: Vec<&str>)
        requires
            self.wf(),
        ensures
            lists_ascending(r.deep_view(), operations_of(roots(self@.entries), service_name@)),
    {
        let all = self.root_spans();
        let ghost views = all.deep_view();
        let ghost service = service_name@;
        let mut out: Vec<&str> = Vec::new();
        let mut i: usize = 0;
        while i < all.len()
            invariant
                i <= all.len(),
                views == all.deep_view(),
                service == service_name@,
                lists_ascending(out.deep_view(), operations_of(views.take(i as int), service)),
            decreases all.len() - i,
        {
            proof {
                assert(views.take(i + 1).drop_last() == views.take(i as int));
                assert(views.take(i + 1).last() == all@[i as int].deep_view());
            }
            if str_eq(all[i].service_name(), service_name) {
                let name = all[i].operation();
                let ghost found = operations_of(views.take(i as int), service);
                let ghost listed = out.deep_view();
                insert_name(&mut out, name);
                proof {
                    let more = operations_of(views.take(i + 1), service);
                    assert(more == found.push(name@));
                    lemma_take_one_more(more, found.len() as int);
                    assert(more.take(found.len() as int) == found);
                    assert(more.take(found.len() as int + 1) == more);
                    assert forall|x: Seq<char>| #[trigger]
                        out.deep_view().contains(x) <==> more.contains(x) by {
                        assert(listed.contains(x) <==> found.contains(x));
                    }
                }
            }
            i += 1;
        }
        assert(views.take(i as int) == views);
        out
    }

    fn trace_answers(trace: &Trace, service: Option<&str>, operation: Option<&str>) -> (r: bool)
        ensures
            r == answers(trace@, asked(service), asked(operation)),
    {
        if !trace.is_complete() {
            return false;
        }
        let service_fits = match service {
            None => true,
            Some(wanted) => match trace.service_name() {
                Some(name) => str_eq(name, wanted),
                None => false,
            },
        };
        let operation_fits = match operation {
            None => true,
            Some(wanted) => match trace.operation() {
                Some(name) => str_eq(name, wanted),
                None => false,
            },
        };
        service_fits && operation_fits
    }

    /// Lists the complete traces of the store, the latest first, and no
    /// more than `limit` of them. Where a service or an operation is given,
    /// only the traces of that service or operation are listed. A trace is
    /// as late as the latest end of its spans; of two traces that are
    /// equally late, the more recently used comes first.
    pub fn query_traces(&self, service: Option<&str>, operation: Option<&str>, limit: usize) -> (r:
        Vec<Trace>)
        requires
            self.wf(),
        ensures
            is_listing(
                r.deep_view(),
                answering(self@.entries, asked(service), asked(operation)),
                limit as nat,
            ),
            forall|i: int| 0 <= i < r@.len() ==> (#[trigger] r@[i]).wf(),
    {
        let slots = lru_slots(&self.traces);
        let ghost entries = self@.entries;
        let ghost wanted_service = asked(service);
        let ghost wanted_operation = asked(operation);
        let mut found: Vec<&Trace> = Vec::new();
        let mut keys: Vec<u64> = Vec::new();
        let mut i: usize = 0;
        while i < slots.len()
            invariant
                i <= slots.len(),
                slots@.len() == entries.len(),
                wanted_service == asked(service),
                wanted_operation == asked(operation),
                forall|k: int|
                    0 <= k < slots@.len() ==> (#[trigger] slots@[k]).trace@ == entries[k].trace
                        && slots@[k].trace.wf(),
                found.deep_view() == answering(
                    entries.take(i as int),
                    wanted_service,
                    wanted_operation,
                ),
                keys@ == end_times(found.deep_view()),
                forall|k: int| 0 <= k < found@.len() ==> (#[trigger] found@[k]).wf(),
            decreases slots.len() - i,
        {
            proof {
                assert(entries.take(i + 1).drop_last() == entries.take(i as int));
                assert(entries.take(i + 1).last() == entries[i as int]);
            }
            let trace = &slots[i].trace;
            if Self::trace_answers(trace, service, operation) {
                let ghost so_far = found.deep_view();
                let ghost times = keys@;
                found.push(trace);
                keys.push(trace.end_time());
                assert(found.deep_view() =~= so_far.push(trace@));
                assert(keys@ =~= end_times(found.deep_view()));
            }
            i += 1;
        }
        assert(entries.take(i as int) == entries);
        let order = newest_first(&keys);
        let count = if limit <= found.len() {
            limit
        } else {
            found.len()
        };
        let ghost all = found.deep_view();
        let mut out: Vec<Trace> = Vec::new();
        let mut k: usize = 0;
        while k < count
            invariant
                k <= count,
                count <= found.len(),
                out.len() == k,
                all == found.deep_view(),
                is_ranking(order@, end_times(all)),
                forall|j: int| 0 <= j < k ==> (#[trigger] out@[j])@ == all[order@[j] as int],
                forall|j: int| 0 <= j < k ==> (#[trigger] out@[j]).wf(),
                forall|j: int| 0 <= j < found@.len() ==> (#[trigger] found@[j]).wf(),
            decreases count - k,
        {
            let at = order[k];
            assert(at < found.len());
            let copy = found[at].clone();
            assert(copy@ == all[at as int]);
            out.push(copy);
            k += 1;
        }
        assert(is_ranking(order@, end_times(all)));
        out
    }
}

} // verus!
