//! What holds of span-tree assembly, whatever is reported and in whatever
//! order.

use vstd::prelude::*;
use vstd::seq_lib::*;
use crate::trace::{SpanNodeView, SpanValueView, TraceView};

verus! {

/// In a trace without repeated ids, the node at a place is the node for the
/// id at that place.
pub proof fn lemma_node_at(t: TraceView, i: int)
    requires
        t.distinct(),
        0 <= i < t.spans.len(),
    ensures
        t.has(t.spans[i].0),
        t.index_of(t.spans[i].0) == i,
        t.node(t.spans[i].0) == Some(t.spans[i].1),
{
    let id = t.spans[i].0;
    let j = t.index_of(id);
    assert(t.spans[j].0 == id);
    if i < j {
        assert(t.spans[i].0 != t.spans[j].0);
    }
    if j < i {
        assert(t.spans[j].0 != t.spans[i].0);
    }
}

/// Naming a parent adds a placeholder for it where it had no node, and
/// leaves every other node as it was.
pub proof fn lemma_with_parent(t: TraceView, parent: Seq<u8>, x: Seq<u8>)
    requires
        t.distinct(),
    ensures
        t.with_parent(parent).distinct(),
        t.with_parent(parent).end_time == t.end_time,
        t.with_parent(parent).node(x) == if parent.len() > 0 && !t.has(parent) && x == parent {
            Some(SpanNodeView::Placeholder)
        } else {
            t.node(x)
        },
{
    let u = t.with_parent(parent);
    if parent.len() > 0 && !t.has(parent) {
        let n = t.spans.len() as int;
        assert(u.spans[n] == (parent, SpanNodeView::Placeholder));
        assert forall|i: int, j: int| 0 <= i < j < u.spans.len() implies (#[trigger] u.spans[i]).0
            != (#[trigger] u.spans[j]).0 by {
            if j == n {
                assert(t.spans[i].0 != parent);
            } else {
                assert(t.spans[i].0 != t.spans[j].0);
            }
        }
        if x == parent {
            lemma_node_at(u, n);
        } else if t.has(x) {
            let i = t.index_of(x);
            assert(u.spans[i] == t.spans[i]);
            lemma_node_at(u, i);
        } else {
            if u.has(x) {
                let i = u.index_of(x);
                assert(i < n);
                assert(t.spans[i].0 == x);
            }
        }
    }
}

/// Storing a value under an id changes the node for that id, and leaves
/// every other node as it was.
pub proof fn lemma_with_value(t: TraceView, id: Seq<u8>, value: SpanValueView, x: Seq<u8>)
    requires
        t.distinct(),
    ensures
        t.with_value(id, value).distinct(),
        t.with_value(id, value).end_time == t.end_time,
        t.with_value(id, value).node(x) == if x == id {
            Some(
                match t.node(id) {
                    Some(n) => n.upsert(value),
                    None => SpanNodeView::Value(value),
                },
            )
        } else {
            t.node(x)
        },
{
    let u = t.with_value(id, value);
    if t.has(id) {
        let k = t.index_of(id);
        assert(u.spans.len() == t.spans.len());
        assert forall|i: int, j: int| 0 <= i < j < u.spans.len() implies (#[trigger] u.spans[i]).0
            != (#[trigger] u.spans[j]).0 by {
            assert(t.spans[i].0 != t.spans[j].0);
        }
        if x == id {
            lemma_node_at(u, k);
        } else if t.has(x) {
            let i = t.index_of(x);
            assert(u.spans[i] == t.spans[i]);
            lemma_node_at(u, i);
        } else {
            if u.has(x) {
                let i = u.index_of(x);
                assert(t.spans[i].0 == x);
            }
        }
    } else {
        let n = t.spans.len() as int;
        assert(u.spans[n] == (id, SpanNodeView::Value(value)));
        assert forall|i: int, j: int| 0 <= i < j < u.spans.len() implies (#[trigger] u.spans[i]).0
            != (#[trigger] u.spans[j]).0 by {
            if j == n {
                assert(t.spans[i].0 != id);
            } else {
                assert(t.spans[i].0 != t.spans[j].0);
            }
        }
        if x == id {
            lemma_node_at(u, n);
        } else if t.has(x) {
            let i = t.index_of(x);
            assert(u.spans[i] == t.spans[i]);
            lemma_node_at(u, i);
        } else {
            if u.has(x) {
                let i = u.index_of(x);
                assert(i < n);
                assert(t.spans[i].0 == x);
            }
        }
    }
}

/// The node that a trace has for an id after a span was reported to it.
pub open spec fn node_after(t: TraceView, value: SpanValueView, x: Seq<u8>) -> Option<SpanNodeView> {
    let id = value.span.span_id;
    let parent = value.span.parent_span_id;
    let named = if parent.len() > 0 && !t.has(parent) && x == parent {
        Some(SpanNodeView::Placeholder)
    } else {
        t.node(x)
    };
    if x == id {
        Some(
            match named {
                Some(n) => n.upsert(value.with_messages()),
                None => SpanNodeView::Value(value.with_messages()),
            },
        )
    } else {
        named
    }
}

/// Reporting a span with an id keeps the ids apart, and changes the nodes
/// as `node_after` says: the reported span's own node takes the report, its
/// parent gets a placeholder where it had no node, and nothing else
/// changes.
pub proof fn lemma_add_value(t: TraceView, value: SpanValueView, x: Seq<u8>)
    requires
        t.distinct(),
        value.span.span_id.len() > 0,
    ensures
        t.add_value(value).distinct(),
        t.add_value(value).node(x) == node_after(t, value, x),
        t.add_value(value).end_time >= t.end_time,
        t.add_value(value).end_time >= value.span.end_time_unix_nano,
        t.add_value(value).end_time == t.end_time || t.add_value(value).end_time
            == value.span.end_time_unix_nano,
{
    let id = value.span.span_id;
    let parent = value.span.parent_span_id;
    let named = t.with_parent(parent);
    lemma_with_parent(t, parent, x);
    lemma_with_parent(t, parent, id);
    lemma_with_value(named, id, value.with_messages(), x);
    let stored = named.with_value(id, value.with_messages());
    let after = t.add_value(value);
    assert(after.spans == stored.spans);
    assert(after.has(x) == stored.has(x));
    assert(after.index_of(x) == stored.index_of(x));
}

/// A trace never loses a node, and its end time never falls, when a span
/// is reported to it.
pub proof fn lemma_add_value_grows(t: TraceView, value: SpanValueView, x: Seq<u8>)
    requires
        t.distinct(),
        t.has(x),
    ensures
        t.add_value(value).has(x),
        t.add_value(value).end_time >= t.end_time,
{
    if value.span.span_id.len() > 0 {
        lemma_add_value(t, value, x);
    }
}


/// The span that a trace holds under an id, where the node for that id is
/// a reported span.
pub open spec fn value_at(t: TraceView, id: Seq<u8>) -> SpanValueView {
    t.node(id)->0->Value_0
}

/// Two reports of one span may come in either order. Either way the trace
/// then holds that span with the same attributes and the same events, each
/// as often as the other way, though not in the same order; with the
/// earlier of the start times and the later of the end times; and the
/// trace has the same end time.
pub proof fn lemma_reports_commute(t: TraceView, a: SpanValueView, b: SpanValueView)
    requires
        t.distinct(),
        a.span.span_id == b.span.span_id,
        a.span.span_id.len() > 0,
    ensures
        ({
            let id = a.span.span_id;
            let ab = t.add_value(a).add_value(b);
            let ba = t.add_value(b).add_value(a);
            &&& ab.node(id) is Some && ab.node(id)->0 is Value
            &&& ba.node(id) is Some && ba.node(id)->0 is Value
            &&& value_at(ab, id).span.attributes.to_multiset() == value_at(
                ba,
                id,
            ).span.attributes.to_multiset()
            &&& value_at(ab, id).span.events.to_multiset() == value_at(
                ba,
                id,
            ).span.events.to_multiset()
            &&& value_at(ab, id).span.start_time_unix_nano == value_at(
                ba,
                id,
            ).span.start_time_unix_nano
            &&& value_at(ab, id).span.end_time_unix_nano == value_at(
                ba,
                id,
            ).span.end_time_unix_nano
            &&& ab.end_time == ba.end_time
        }),
{
    broadcast use vstd::multiset::group_multiset_axioms;

    let id = a.span.span_id;
    let ta = t.add_value(a);
    let tb = t.add_value(b);
    lemma_add_value(t, a, id);
    lemma_add_value(t, b, id);
    lemma_add_value(ta, b, id);
    lemma_add_value(tb, a, id);
    let sa = a.with_messages().span;
    let sb = b.with_messages().span;
    match t.node(id) {
        Some(SpanNodeView::Value(o)) => {
            let s = o.span;
            lemma_multiset_commutative(s.attributes + sa.attributes, sb.attributes);
            lemma_multiset_commutative(s.attributes, sa.attributes);
            lemma_multiset_commutative(s.attributes + sb.attributes, sa.attributes);
            lemma_multiset_commutative(s.attributes, sb.attributes);
            assert(((s.attributes + sa.attributes) + sb.attributes).to_multiset() =~= ((
            s.attributes + sb.attributes) + sa.attributes).to_multiset());
            lemma_multiset_commutative(s.events + sa.events, sb.events);
            lemma_multiset_commutative(s.events, sa.events);
            lemma_multiset_commutative(s.events + sb.events, sa.events);
            lemma_multiset_commutative(s.events, sb.events);
            assert(((s.events + sa.events) + sb.events).to_multiset() =~= ((s.events
                + sb.events) + sa.events).to_multiset());
        },
        _ => {
            lemma_seq_union_to_multiset_commutative(sa.attributes, sb.attributes);
            lemma_seq_union_to_multiset_commutative(sa.events, sb.events);
        },
    }
}

/// The trace that comes of the given reports, taken in one after the
/// other by a trace that starts empty.
pub open spec fn assembled(reports: Seq<SpanValueView>) -> TraceView
    decreases reports.len(),
{
    if reports.len() == 0 {
        TraceView { spans: Seq::empty(), end_time: 0 }
    } else {
        assembled(reports.drop_last()).add_value(reports.last())
    }
}

/// Whether a span with the given id is among the reports.
pub open spec fn was_reported(reports: Seq<SpanValueView>, id: Seq<u8>) -> bool {
    id.len() > 0 && exists|j: int|
        0 <= j < reports.len() && (#[trigger] reports[j]).span.span_id == id
}

/// Whether a span among the reports names the given id as its parent.
/// Reports without an id count for nothing.
pub open spec fn was_named(reports: Seq<SpanValueView>, id: Seq<u8>) -> bool {
    id.len() > 0 && exists|i: int|
        0 <= i < reports.len() && (#[trigger] reports[i]).span.span_id.len() > 0
            && reports[i].span.parent_span_id == id
}

/// An assembled trace has a node for exactly the ids that were reported or
/// named as a parent, and the node is a reported span exactly where the id
/// was reported.
pub proof fn lemma_assembled_nodes(reports: Seq<SpanValueView>, x: Seq<u8>)
    ensures
        assembled(reports).distinct(),
        assembled(reports).has(x) <==> was_reported(reports, x) || was_named(reports, x),
        assembled(reports).has(x) ==> (assembled(reports).node(x)->0 is Value <==> was_reported(
            reports,
            x,
        )),
    decreases reports.len(),
{
    if reports.len() == 0 {
        let t = assembled(reports);
        assert(!t.has(x));
    } else {
        let before = reports.drop_last();
        let last = reports.last();
        let t = assembled(before);
        lemma_assembled_nodes(before, x);
        lemma_assembled_nodes(before, last.span.parent_span_id);
        assert(forall|j: int| 0 <= j < before.len() ==> before[j] == reports[j]);
        if was_reported(before, x) {
            let j = choose|j: int| 0 <= j < before.len() && (#[trigger] before[j]).span.span_id == x;
            assert(reports[j].span.span_id == x);
        }
        if was_named(before, x) {
            let i = choose|i: int|
                0 <= i < before.len() && (#[trigger] before[i]).span.span_id.len() > 0
                    && before[i].span.parent_span_id == x;
            assert(reports[i].span.span_id.len() > 0 && reports[i].span.parent_span_id == x);
        }
        if was_reported(reports, x) && !was_reported(before, x) {
            let j = choose|j: int|
                0 <= j < reports.len() && (#[trigger] reports[j]).span.span_id == x;
            if j < before.len() {
                assert(before[j].span.span_id == x);
            }
            assert(last.span.span_id == x);
        }
        if was_named(reports, x) && !was_named(before, x) {
            let i = choose|i: int|
                0 <= i < reports.len() && (#[trigger] reports[i]).span.span_id.len() > 0
                    && reports[i].span.parent_span_id == x;
            if i < before.len() {
                assert(before[i].span.span_id.len() > 0 && before[i].span.parent_span_id == x);
            }
            assert(last.span.span_id.len() > 0 && last.span.parent_span_id == x);
        }
        if last.span.span_id.len() > 0 {
            lemma_add_value(t, last, x);
            if last.span.span_id == x {
                assert(reports[reports.len() - 1].span.span_id == x);
            }
            if last.span.parent_span_id == x && x.len() > 0 {
                assert(reports[reports.len() - 1].span.span_id.len() > 0 && reports[reports.len()
                    - 1].span.parent_span_id == x);
            }
            if t.has(x) {
                lemma_node_at(t, t.index_of(x));
            }
        }
    }
}

/// An assembled trace is complete exactly when every id that was named as
/// a parent was also reported.
pub proof fn lemma_complete_iff_parents_reported(reports: Seq<SpanValueView>)
    ensures
        assembled(reports).is_complete() <==> forall|x: Seq<u8>|
            #[trigger] was_named(reports, x) ==> was_reported(reports, x),
{
    let t = assembled(reports);
    lemma_assembled_nodes(reports, Seq::empty());
    if t.is_complete() {
        assert forall|x: Seq<u8>| #[trigger] was_named(reports, x) implies was_reported(
            reports,
            x,
        ) by {
            lemma_assembled_nodes(reports, x);
            let i = t.index_of(x);
            assert(t.spans[i].1 is Value);
        }
    }
    if forall|x: Seq<u8>| #[trigger] was_named(reports, x) ==> was_reported(reports, x) {
        assert forall|i: int| 0 <= i < t.spans.len() implies (#[trigger] t.spans[i]).1 is Value by {
            let x = t.spans[i].0;
            lemma_node_at(t, i);
            lemma_assembled_nodes(reports, x);
            if !was_reported(reports, x) {
                assert(was_named(reports, x));
            }
        }
    }
}

/// A trace that waits for one span only, as a placeholder, is incomplete.
/// When that span is reported, and names no parent that is still missing,
/// the trace becomes complete: the report takes the placeholder's place,
/// and no node is added.
pub proof fn lemma_missing_parent_completes(t: TraceView, value: SpanValueView)
    requires
        t.well_formed(),
        t.node(value.span.span_id) == Some(SpanNodeView::Placeholder),
        forall|i: int|
            0 <= i < t.spans.len() && (#[trigger] t.spans[i]).0 != value.span.span_id
                ==> t.spans[i].1 is Value,
        value.span.parent_span_id.len() == 0 || (t.has(value.span.parent_span_id) && t.node(
            value.span.parent_span_id,
        )->0 is Value),
    ensures
        !t.is_complete(),
        t.add_value(value).is_complete(),
        t.add_value(value).well_formed(),
        t.add_value(value).node(value.span.span_id) == Some(
            SpanNodeView::Value(value.with_messages()),
        ),
        t.add_value(value).spans.len() == t.spans.len(),
{
    let id = value.span.span_id;
    let k = t.index_of(id);
    assert(t.spans[k].0 == id && id.len() > 0);
    assert(t.spans[k].1 is Placeholder);
    let after = t.add_value(value);
    lemma_add_value(t, value, id);
    lemma_add_value_keeps_form(t, value);
    assert(t.with_parent(value.span.parent_span_id) == t);
    assert forall|i: int| 0 <= i < after.spans.len() implies (#[trigger] after.spans[i]).1 is Value by {
        let x = after.spans[i].0;
        lemma_node_at(after, i);
        lemma_add_value(t, value, x);
        if x != id {
            let j = t.index_of(x);
            assert(t.spans[j].0 == x);
            assert(t.spans[j].1 is Value);
        }
    }
}

/// Reporting a span keeps a trace well formed: no id gets a second node,
/// no node stands under an empty id, and every reported span stands under
/// its own id.
pub proof fn lemma_add_value_keeps_form(t: TraceView, value: SpanValueView)
    requires
        t.well_formed(),
    ensures
        t.add_value(value).well_formed(),
{
    if value.span.span_id.len() > 0 {
        let id = value.span.span_id;
        let parent = value.span.parent_span_id;
        lemma_add_value(t, value, id);
        let named = t.with_parent(parent);
        lemma_with_parent(t, parent, id);
        assert(named.keyed()) by {
            assert forall|i: int| 0 <= i < named.spans.len() implies {
                let entry = #[trigger] named.spans[i];
                &&& entry.0.len() > 0
                &&& entry.1 is Value ==> entry.1->Value_0.span.span_id == entry.0
            } by {
                if i < t.spans.len() {
                    assert(named.spans[i] == t.spans[i]);
                }
            }
        }
        let stored = named.with_value(id, value.with_messages());
        assert(stored.keyed()) by {
            assert forall|i: int| 0 <= i < stored.spans.len() implies {
                let entry = #[trigger] stored.spans[i];
                &&& entry.0.len() > 0
                &&& entry.1 is Value ==> entry.1->Value_0.span.span_id == entry.0
            } by {
                if named.has(id) {
                    let k = named.index_of(id);
                    assert(named.spans[k].0 == id);
                    if i != k {
                        assert(stored.spans[i] == named.spans[i]);
                    }
                } else if i < named.spans.len() {
                    assert(stored.spans[i] == named.spans[i]);
                }
            }
        }
        assert(t.add_value(value).spans == stored.spans);
    }
}

/// An assembled trace is well formed.
pub proof fn lemma_assembled_form(reports: Seq<SpanValueView>)
    ensures
        assembled(reports).well_formed(),
    decreases reports.len(),
{
    if reports.len() > 0 {
        lemma_assembled_form(reports.drop_last());
        lemma_add_value_keeps_form(assembled(reports.drop_last()), reports.last());
    }
}

/// In a complete trace every node is a reported span: the reported spans
/// are the nodes, one for one.
pub proof fn lemma_complete_values(t: TraceView)
    requires
        t.is_complete(),
    ensures
        t.values().len() == t.spans.len(),
        forall|i: int| 0 <= i < t.spans.len() ==> t.values()[i] == (#[trigger] t.spans[i]).1->Value_0,
    decreases t.spans.len(),
{
    if t.spans.len() > 0 {
        let less = TraceView { spans: t.spans.drop_last(), ..t };
        assert forall|i: int| 0 <= i < less.spans.len() implies (#[trigger] less.spans[i]).1 is Value by {
            assert(less.spans[i] == t.spans[i]);
        }
        lemma_complete_values(less);
        assert(t.spans.last().1 is Value);
        assert forall|i: int| 0 <= i < t.spans.len() implies t.values()[i] == (
        #[trigger] t.spans[i]).1->Value_0 by {
            if i < less.spans.len() {
                assert(less.spans[i] == t.spans[i]);
            }
        }
    }
}

} // verus!
