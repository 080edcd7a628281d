//! Lists of names in ascending order: the order of strings, character by
//! character, in which a shorter name comes before every name that it
//! begins.

use vstd::prelude::*;
use crate::jaeger::str_eq;

verus! {

/// Whether `a` comes before `b`: at the first place where they differ, `a`
/// has the lesser character, or `a` has ended and `b` has not.
pub open spec fn text_before(a: Seq<char>, b: Seq<char>) -> bool
    decreases a.len(),
{
    if b.len() == 0 {
        false
    } else if a.len() == 0 {
        true
    } else if a[0] != b[0] {
        a[0] < b[0]
    } else {
        text_before(a.drop_first(), b.drop_first())
    }
}

/// Whether each name of the list comes before every later one. Such a list
/// holds no name twice.
pub open spec fn is_ascending(names: Seq<Seq<char>>) -> bool {
    forall|i: int, j: int|
        0 <= i < j < names.len() ==> text_before(#[trigger] names[i], #[trigger] names[j])
}

/// Whether `listed` is the list of the given names in ascending order,
/// each name once. There is one such list, as `lemma_ascending_unique`
/// shows.
pub open spec fn lists_ascending(listed: Seq<Seq<char>>, names: Seq<Seq<char>>) -> bool {
    &&& is_ascending(listed)
    &&& forall|name: Seq<char>| #[trigger] listed.contains(name) <==> names.contains(name)
}

/// `str`'s `<`: strings are ordered lexicographically by their bytes, which
/// is the order of their characters' code points.
#[verifier::external_body]
pub(crate) fn str_lt(a: &str, b: &str) -> (r: bool)
    ensures
        r == text_before(a@, b@),
{
    a < b
}

/// No name comes before itself.
pub proof fn lemma_before_irreflexive(a: Seq<char>)
    ensures
        !text_before(a, a),
    decreases a.len(),
{
    if a.len() > 0 {
        lemma_before_irreflexive(a.drop_first());
    }
}

/// Of two different names one comes before the other.
pub proof fn lemma_before_total(a: Seq<char>, b: Seq<char>)
    requires
        a != b,
    ensures
        text_before(a, b) || text_before(b, a),
    decreases a.len(),
{
    if a.len() > 0 && b.len() > 0 && a[0] == b[0] {
        if a.drop_first() == b.drop_first() {
            assert(a =~= seq![a[0]] + a.drop_first());
            assert(b =~= seq![b[0]] + b.drop_first());
        }
        lemma_before_total(a.drop_first(), b.drop_first());
    } else if a.len() == 0 && b.len() == 0 {
        assert(a =~= b);
    }
}

/// What comes before a name comes before all that the name comes before.
pub proof fn lemma_before_transitive(a: Seq<char>, b: Seq<char>, c: Seq<char>)
    requires
        text_before(a, b),
        text_before(b, c),
    ensures
        text_before(a, c),
    decreases a.len(),
{
    if a.len() > 0 && a[0] == b[0] && b[0] == c[0] {
        lemma_before_transitive(a.drop_first(), b.drop_first(), c.drop_first());
    }
}

/// Two ascending lists with the same names agree at every place of the
/// first.
proof fn lemma_ascending_agrees(first: Seq<Seq<char>>, second: Seq<Seq<char>>, i: int)
    requires
        is_ascending(first),
        is_ascending(second),
        forall|name: Seq<char>| #[trigger] first.contains(name) <==> second.contains(name),
        0 <= i < first.len(),
    ensures
        i < second.len(),
        first[i] == second[i],
    decreases i,
{
    assert forall|j: int| 0 <= j < i implies j < second.len() && first[j] == second[j] by {
        lemma_ascending_agrees(first, second, j);
    }
    let a = first[i];
    assert(first.contains(a));
    assert(second.contains(a));
    let p = choose|p: int| 0 <= p < second.len() && second[p] == a;
    lemma_before_irreflexive(a);
    if p < i {
        assert(text_before(first[p], first[i]));
    }
    if p > i {
        let b = second[i];
        assert(text_before(second[i], second[p]));
        assert(second.contains(b));
        assert(first.contains(b));
        let q = choose|q: int| 0 <= q < first.len() && first[q] == b;
        lemma_before_irreflexive(b);
        if q < i {
            assert(text_before(second[q], second[i]));
        }
        if q > i {
            assert(text_before(first[i], first[q]));
            lemma_before_transitive(a, b, a);
        }
    }
}

/// There is one ascending list of given names.
pub proof fn lemma_ascending_unique(
    first: Seq<Seq<char>>,
    second: Seq<Seq<char>>,
    names: Seq<Seq<char>>,
)
    requires
        lists_ascending(first, names),
        lists_ascending(second, names),
    ensures
        first == second,
{
    assert forall|name: Seq<char>| #[trigger] first.contains(name) <==> second.contains(name) by {
        assert(first.contains(name) <==> names.contains(name));
        assert(second.contains(name) <==> names.contains(name));
    }
    assert forall|name: Seq<char>| #[trigger] second.contains(name) <==> first.contains(name) by {
        assert(first.contains(name) <==> second.contains(name));
    }
    if first.len() > 0 {
        lemma_ascending_agrees(first, second, first.len() - 1);
    }
    if second.len() > 0 {
        lemma_ascending_agrees(second, first, second.len() - 1);
    }
    assert forall|i: int| 0 <= i < first.len() implies first[i] == second[i] by {
        lemma_ascending_agrees(first, second, i);
    }
    assert(first =~= second);
}

/// Puts a name into an ascending list, at its place, unless the list holds
/// it already.
pub(crate) fn insert_name<'a>(names: &mut Vec<&'a str>, name: &'a str)
    requires
        is_ascending(old(names).deep_view()),
    ensures
        is_ascending(final(names).deep_view()),
        forall|x: Seq<char>|
            #[trigger] final(names).deep_view().contains(x) <==> old(names).deep_view().contains(
                x,
            ) || x == name@,
{
    let ghost before = names.deep_view();
    let mut i: usize = 0;
    while i < names.len() && str_lt(names[i], name)
        invariant
            i <= names.len(),
            before == names.deep_view(),
            forall|j: int| 0 <= j < i ==> text_before(#[trigger] before[j], name@),
        decreases names.len() - i,
    {
        i += 1;
    }
    if i < names.len() && str_eq(names[i], name) {
        proof {
            assert(before[i as int] == name@);
            assert forall|x: Seq<char>| #[trigger]
                before.contains(x) <==> before.contains(x) || x == name@ by {}
        }
        return ;
    }
    names.insert(i, name);
    proof {
        let after = names.deep_view();
        assert(after =~= before.insert(i as int, name@));
        if i < before.len() {
            lemma_before_total(before[i as int], name@);
        }
        assert forall|p: int, q: int| 0 <= p < q < after.len() implies text_before(
            #[trigger] after[p],
            #[trigger] after[q],
        ) by {
            if q < i {
                assert(text_before(before[p], before[q]));
            } else if q == i {
                assert(text_before(before[p], name@));
            } else if p == i {
                if q - 1 > i {
                    assert(text_before(before[i as int], before[q - 1]));
                    lemma_before_transitive(name@, before[i as int], before[q - 1]);
                }
            } else if p < i {
                assert(text_before(before[p], before[q - 1]));
            } else {
                assert(text_before(before[p - 1], before[q - 1]));
            }
        }
        assert forall|x: Seq<char>| #[trigger]
            after.contains(x) <==> before.contains(x) || x == name@ by {
            if after.contains(x) {
                let k = choose|k: int| 0 <= k < after.len() && after[k] == x;
                if k < i {
                    assert(before[k] == x);
                } else if k > i {
                    assert(before[k - 1] == x);
                }
            }
            if before.contains(x) {
                let k = choose|k: int| 0 <= k < before.len() && before[k] == x;
                if k < i {
                    assert(after[k] == x);
                } else {
                    assert(after[k + 1] == x);
                }
            }
            if x == name@ {
                assert(after[i as int] == x);
            }
        }
    }
}

} // verus!
