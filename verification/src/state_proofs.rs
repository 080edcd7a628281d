//! What holds of the store's model, whatever is reported to it.

use vstd::prelude::*;
use crate::ranking::{is_ranking, lemma_ranking_unique};
use crate::store::{
    end_times, gives_up_oldest, is_listing, lemma_settled_rests, lemma_settled_within,
    lemma_total_covers, lemma_total_front, lemma_total_remove, total_charge, EntryView, Outcome,
    StateView,
};
use crate::trace::{SpanValueView, TraceView};

verus! {

/// After a span was reported, the store is within both of its bounds, and
/// its bounds are what they were.
pub proof fn lemma_step_within(before: StateView, after: StateView, value: SpanValueView)
    requires
        before.step(after, value),
    ensures
        after.entries.len() <= after.max_length,
        after.memory() <= after.max_memory_usage,
        after.max_length == before.max_length,
        after.max_memory_usage == before.max_memory_usage,
{
    let id = value.span.trace_id;
    let trace = before.trace_of(id).add_value(value);
    let outcome = choose|outcome: Outcome| #[trigger]
        before.admits(value, outcome) && after == before.stepped(value, outcome);
    let charge = outcome.charge as nat;
    let kept = outcome.kept as int;
    let stored = outcome.stored;
    let rest = before.without(id).entries.take(kept);
    let entries = if stored {
        seq![EntryView { id, trace, charge }] + rest
    } else {
        rest
    };
    lemma_settled_within(StateView { entries, ..before });
}

/// After any number of spans were reported, the store is within both of
/// its bounds, if it was so before.
pub proof fn lemma_steps_within(before: StateView, after: StateView, values: Seq<SpanValueView>)
    requires
        before.steps(after, values),
        !before.over_limit(),
    ensures
        !after.over_limit(),
        after.max_length == before.max_length,
        after.max_memory_usage == before.max_memory_usage,
    decreases values.len(),
{
    if values.len() > 0 {
        let mid = choose|mid: StateView|
            before.steps(mid, values.drop_last()) && #[trigger] mid.step(after, values.last());
        lemma_steps_within(before, mid, values.drop_last());
        lemma_step_within(mid, after, values.last());
    }
}

/// A trace that alone is over the memory bound is not kept: after a span
/// was reported, the store holds no trace whose id and contents are more
/// than the bound allows, provided the bound is less than the largest
/// number that the machine's word holds.
pub proof fn lemma_step_keeps_no_giant(before: StateView, after: StateView, value: SpanValueView)
    requires
        before.step(after, value),
        before.max_memory_usage < usize::MAX,
        value.span.trace_id.len() + before.trace_of(value.span.trace_id).add_value(
            value,
        ).floor() > before.max_memory_usage,
        before.distinct(),
    ensures
        !after.has(value.span.trace_id),
{
    let id = value.span.trace_id;
    let trace = before.trace_of(id).add_value(value);
    let outcome = choose|outcome: Outcome| #[trigger]
        before.admits(value, outcome) && after == before.stepped(value, outcome);
    let charge = outcome.charge as nat;
    let kept = outcome.kept as int;
    let stored = outcome.stored;
    let rest = before.without(id).entries.take(kept);
    let new = EntryView { id, trace, charge };
    let entries = if stored {
        seq![new] + rest
    } else {
        rest
    };
    let candidate = StateView { entries, ..before };
    lemma_settled_within(candidate);
    lemma_settled_keeps_newest(candidate);
    lemma_without(before, id);
    if after.has(id) {
        let k = after.index_of(id);
        assert(after.entries[k] == candidate.entries[k]);
        if stored && k == 0 {
            lemma_total_covers(after.entries, 0);
        } else {
            let j = if stored {
                k - 1
            } else {
                k
            };
            assert(candidate.entries[k] == before.without(id).entries[j]);
            assert(before.without(id).has(id));
        }
    }
}

/// The store without a trace does not hold that trace, and holds no id
/// twice, if it held none twice before.
pub proof fn lemma_without(store: StateView, id: Seq<u8>)
    requires
        store.distinct(),
    ensures
        !store.without(id).has(id),
        store.without(id).distinct(),
{
    let less = store.without(id);
    if store.has(id) {
        let i = store.index_of(id);
        assert forall|a: int, b: int| 0 <= a < b < less.entries.len() implies (
        #[trigger] less.entries[a]).id != (#[trigger] less.entries[b]).id by {
            let from = |k: int|
                if k < i {
                    k
                } else {
                    k + 1
                };
            assert(less.entries[a] == store.entries[from(a)]);
            assert(less.entries[b] == store.entries[from(b)]);
            assert(store.entries[from(a)].id != store.entries[from(b)].id);
        }
        if less.has(id) {
            let j = less.index_of(id);
            if j < i {
                assert(less.entries[j] == store.entries[j]);
                assert(store.entries[j].id != store.entries[i].id);
            } else {
                assert(less.entries[j] == store.entries[j + 1]);
                assert(store.entries[i].id != store.entries[j + 1].id);
            }
        }
    }
}

/// Settling only ever gives up the least recently used entries: what stays
/// is the most recently used part of what was there.
pub proof fn lemma_settled_keeps_newest(view: StateView)
    ensures
        view.settled().entries.len() <= view.entries.len(),
        view.settled().entries == view.entries.take(view.settled().entries.len() as int),
    decreases view.entries.len(),
{
    if view.entries.len() > 0 && view.over_limit() {
        let less = StateView { entries: view.entries.drop_last(), ..view };
        lemma_settled_keeps_newest(less);
        let n = less.settled().entries.len() as int;
        assert(view.entries.drop_last().take(n) == view.entries.take(n));
    } else {
        assert(view.entries.take(view.entries.len() as int) == view.entries);
    }
}

/// A store that is full gives up exactly its least recently used trace
/// when a new trace comes in, provided the map kept every entry and the
/// traces that then remain fit the memory bound.
pub proof fn lemma_full_store_gives_up_oldest(
    store: StateView,
    id: Seq<u8>,
    trace: TraceView,
    charge: nat,
)
    requires
        store.max_length > 0,
        store.entries.len() == store.max_length,
        !store.has(id),
        charge + total_charge(store.entries.drop_last()) <= store.max_memory_usage,
    ensures
        store.reinserted(id, trace, charge, store.entries.len() as int, true).entries == seq![
            EntryView { id, trace, charge },
        ] + store.entries.drop_last(),
{
    let new = EntryView { id, trace, charge };
    assert(store.without(id) == store);
    assert(store.entries.take(store.entries.len() as int) == store.entries);
    let candidate = StateView { entries: seq![new] + store.entries, ..store };
    assert(candidate.over_limit());
    let less = StateView { entries: candidate.entries.drop_last(), ..candidate };
    assert(less.entries == seq![new] + store.entries.drop_last());
    lemma_total_front(new, store.entries.drop_last());
    lemma_settled_rests(less);
    assert(candidate.settled() == less.settled());
}

/// Using a trace puts it first and changes nothing else: the same entries
/// are there, no id twice, and they take the same memory.
pub proof fn lemma_touched(store: StateView, id: Seq<u8>)
    requires
        store.distinct(),
        store.has(id),
    ensures
        store.touched(id).distinct(),
        store.touched(id).entries.len() == store.entries.len(),
        store.touched(id).entries[0] == store.entries[store.index_of(id)],
        store.touched(id).entries[0].id == id,
        store.touched(id).memory() == store.memory(),
        forall|x: Seq<u8>| store.touched(id).has(x) == store.has(x),
{
    let i = store.index_of(id);
    let after = store.touched(id);
    let from = |k: int|
        if k == 0 {
            i
        } else if k - 1 < i {
            k - 1
        } else {
            k
        };
    assert forall|k: int| 0 <= k < after.entries.len() implies #[trigger] after.entries[k]
        == store.entries[from(k)] by {}
    assert forall|a: int, b: int| 0 <= a < b < after.entries.len() implies (
    #[trigger] after.entries[a]).id != (#[trigger] after.entries[b]).id by {
        assert(after.entries[a] == store.entries[from(a)]);
        assert(after.entries[b] == store.entries[from(b)]);
        if from(a) < from(b) {
            assert(store.entries[from(a)].id != store.entries[from(b)].id);
        } else {
            assert(store.entries[from(b)].id != store.entries[from(a)].id);
        }
    }
    lemma_total_remove(store.entries, i);
    lemma_total_front(store.entries[i], store.entries.remove(i));
    assert forall|x: Seq<u8>| after.has(x) == store.has(x) by {
        if store.has(x) {
            let j = store.index_of(x);
            let k = if j == i {
                0
            } else if j < i {
                j + 1
            } else {
                j
            };
            assert(after.entries[k] == store.entries[from(k)]);
            assert(after.entries[k].id == x);
        }
        if after.has(x) {
            let k = after.index_of(x);
            assert(after.entries[k] == store.entries[from(k)]);
            assert(store.entries[from(k)].id == x);
        }
    }
}

/// A trace that was just used is not the one to leave: when a full store of
/// two traces or more takes in a new trace, the trace that was used last
/// stays, and the one that leaves is the least recently used of the others.
pub proof fn lemma_touched_outlives(
    store: StateView,
    used: Seq<u8>,
    id: Seq<u8>,
    trace: TraceView,
    charge: nat,
)
    requires
        store.distinct(),
        store.has(used),
        !store.has(id),
        store.max_length >= 2,
        store.entries.len() == store.max_length,
        charge + total_charge(store.touched(used).entries.drop_last())
            <= store.max_memory_usage,
    ensures
        ({
            let touched = store.touched(used);
            let after = touched.reinserted(id, trace, charge, touched.entries.len() as int, true);
            &&& after.has(used)
            &&& after.has(id)
            &&& !after.has(touched.entries.last().id)
            &&& touched.entries.last().id != used
            &&& after.entries.len() == store.entries.len()
        }),
{
    let touched = store.touched(used);
    lemma_touched(store, used);
    lemma_full_store_gives_up_oldest(touched, id, trace, charge);
    let n = touched.entries.len() as int;
    let after = touched.reinserted(id, trace, charge, n, true);
    let new = EntryView { id, trace, charge };
    assert(after.entries == seq![new] + touched.entries.drop_last());
    assert(after.entries[0].id == id);
    assert(after.entries[1] == touched.entries[0]);
    assert(after.entries[1].id == used);
    assert(touched.entries[0].id != touched.entries[n - 1].id);
    let gone = touched.entries.last().id;
    assert(touched.has(gone));
    if after.has(gone) {
        let k = after.index_of(gone);
        if k == 0 {
            assert(store.has(id));
        } else {
            assert(after.entries[k] == touched.entries[k - 1]);
            assert(touched.entries[k - 1].id != touched.entries[n - 1].id);
        }
    }
}

/// There is one listing of given traces under a given limit.
pub proof fn lemma_listing_unique(
    first: Seq<TraceView>,
    second: Seq<TraceView>,
    found: Seq<TraceView>,
    limit: nat,
)
    requires
        is_listing(first, found, limit),
        is_listing(second, found, limit),
    ensures
        first == second,
{
    let order = choose|order: Seq<usize>|
        {
            &&& #[trigger] is_ranking(order, end_times(found))
            &&& first.len() == if limit <= found.len() {
                limit
            } else {
                found.len()
            }
            &&& forall|i: int| 0 <= i < first.len() ==> first[i] == found[order[i] as int]
        };
    let other = choose|other: Seq<usize>|
        {
            &&& #[trigger] is_ranking(other, end_times(found))
            &&& second.len() == if limit <= found.len() {
                limit
            } else {
                found.len()
            }
            &&& forall|i: int| 0 <= i < second.len() ==> second[i] == found[other[i] as int]
        };
    lemma_ranking_unique(order, other, end_times(found));
    assert(first =~= second);
}

/// A full store that takes in a span of a trace it does not hold gives up
/// exactly its least recently used trace: where the outcome says that the
/// new trace was stored and every other entry kept, and what then remains
/// fits the memory bound, the new trace stands first and all the others but
/// the last follow as they were.
pub proof fn lemma_full_store_step(store: StateView, value: SpanValueView, outcome: Outcome)
    requires
        gives_up_oldest(store, value, outcome),
    ensures
        store.stepped(value, outcome).entries == seq![
            EntryView {
                id: value.span.trace_id,
                trace: (TraceView { spans: Seq::empty(), end_time: 0 }).add_value(value),
                charge: outcome.charge as nat,
            },
        ] + store.entries.drop_last(),
        store.stepped(value, outcome).entries.len() == store.entries.len(),
{
    lemma_full_store_gives_up_oldest(
        store,
        value.span.trace_id,
        store.trace_of(value.span.trace_id).add_value(value),
        outcome.charge as nat,
    );
}

/// A trace that was just looked up is not the one to leave. When a full
/// store of two traces or more has a trace looked up and then takes in a
/// span of a trace it does not hold, with the outcome that the new trace
/// was stored and every other entry kept and what remains fits the memory
/// bound, then the trace that was looked up stays, the new trace is there,
/// and the one that left is the least recently used of the others.
pub proof fn lemma_looked_up_outlives_step(
    store: StateView,
    used: Seq<u8>,
    value: SpanValueView,
    outcome: Outcome,
)
    requires
        store.distinct(),
        store.has(used),
        !store.has(value.span.trace_id),
        store.max_length >= 2,
        store.entries.len() == store.max_length,
        outcome.stored,
        outcome.kept == store.entries.len(),
        outcome.charge + total_charge(store.touched(used).entries.drop_last())
            <= store.max_memory_usage,
    ensures
        ({
            let touched = store.touched(used);
            let after = touched.stepped(value, outcome);
            &&& after.has(used)
            &&& after.has(value.span.trace_id)
            &&& !after.has(touched.entries.last().id)
            &&& touched.entries.last().id != used
            &&& after.entries.len() == store.entries.len()
        }),
{
    let touched = store.touched(used);
    lemma_touched(store, used);
    lemma_touched_outlives(
        store,
        used,
        value.span.trace_id,
        touched.trace_of(value.span.trace_id).add_value(value),
        outcome.charge as nat,
    );
}

} // verus!
