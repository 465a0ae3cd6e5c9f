//! The key bindings listed in the side panel, ordered by the text of the
//! action they trigger.

use vstd::prelude::*;
use crate::text::{
    lemma_text_le_is_lexicographic, lexicographically_le, lemma_text_le_reflexive, lemma_text_le_total, lemma_text_le_transitive, text_le, text_le_exec,
};

verus! {

broadcast use vstd::seq_lib::group_seq_properties;

/// A key and the action it triggers, each written as its debug text.
pub struct Keybind {
    pub key: String,
    pub action: String,
}

/// The binding `a` is listed no later than `b`: its action text comes first.
pub open spec fn listed_le(a: Keybind, b: Keybind) -> bool {
    text_le(a.action@, b.action@)
}

/// Every binding is listed no later than the ones after it.
pub open spec fn listed_in_order(s: Seq<Keybind>) -> bool {
    forall|i: int, j: int| 0 <= i < j < s.len() ==> listed_le(#[trigger] s[i], #[trigger] s[j])
}

/// The test for the bindings that trigger the action written `action`.
pub open spec fn has_action(action: Seq<char>) -> spec_fn(Keybind) -> bool {
    |k: Keybind| k.action@ == action
}

/// The bindings whose action text is `action`, in the order they come.
pub open spec fn with_action(s: Seq<Keybind>, action: Seq<char>) -> Seq<Keybind> {
    s.filter(has_action(action))
}

/// Puts `x` into `s` right after the last binding that is listed no later
/// than it.
pub open spec fn stable_insert(s: Seq<Keybind>, x: Keybind) -> Seq<Keybind>
    decreases s.len(),
{
    if s.len() == 0 {
        seq![x]
    } else if listed_le(s.last(), x) {
        s.push(x)
    } else {
        stable_insert(s.drop_last(), x).push(s.last())
    }
}

/// The bindings of `s` ordered by action text, those with the same action text
/// kept in the order they come in `s` (what a stable sort gives).
pub open spec fn stable_sort(s: Seq<Keybind>) -> Seq<Keybind>
    decreases s.len(),
{
    if s.len() == 0 {
        s
    } else {
        stable_insert(stable_sort(s.drop_last()), s.last())
    }
}

proof fn lemma_stable_insert_shape(s: Seq<Keybind>, x: Keybind)
    ensures
        stable_insert(s, x).len() == s.len() + 1,
        stable_insert(s, x).to_multiset() == s.to_multiset().insert(x),
    decreases s.len(),
{
    broadcast use vstd::seq_lib::group_to_multiset_ensures;

    if s.len() > 0 && !listed_le(s.last(), x) {
        lemma_stable_insert_shape(s.drop_last(), x);
        assert(s =~= s.drop_last().push(s.last()));
    }
}

proof fn lemma_stable_insert_in_order(s: Seq<Keybind>, x: Keybind)
    requires
        listed_in_order(s),
    ensures
        listed_in_order(stable_insert(s, x)),
    decreases s.len(),
{
    broadcast use vstd::seq_lib::group_to_multiset_ensures;

    if s.len() == 0 {
    } else if listed_le(s.last(), x) {
        let r = s.push(x);
        assert forall|i: int, j: int| 0 <= i < j < r.len() implies listed_le(#[trigger] r[i], #[trigger] r[j]) by {
            if j == s.len() {
                if i < s.len() - 1 {
                    assert(listed_le(s[i], s.last()));
                    lemma_text_le_transitive(s[i].action@, s.last().action@, x.action@);
                }
            }
        }
    } else {
        let t = s.drop_last();
        assert(listed_in_order(t));
        lemma_stable_insert_in_order(t, x);
        lemma_stable_insert_shape(t, x);
        let q = stable_insert(t, x);
        let r = q.push(s.last());
        assert forall|i: int, j: int| 0 <= i < j < r.len() implies listed_le(#[trigger] r[i], #[trigger] r[j]) by {
            if j == q.len() {
                let e = q[i];
                assert(q.to_multiset().contains(e));
                assert(t.to_multiset().insert(x).contains(e));
                if e == x {
                    lemma_text_le_total(x.action@, s.last().action@);
                } else {
                    assert(t.to_multiset().contains(e));
                    assert(t.contains(e));
                    let k = choose|k: int| 0 <= k < t.len() && t[k] == e;
                    assert(s[k] == e);
                    assert(listed_le(s[k], s[s.len() - 1]));
                }
            } else {
                assert(r[i] == q[i] && r[j] == q[j]);
            }
        }
    }
}

proof fn lemma_stable_insert_with_action(s: Seq<Keybind>, x: Keybind, action: Seq<char>)
    ensures
        with_action(stable_insert(s, x), action) == if x.action@ == action {
            with_action(s, action).push(x)
        } else {
            with_action(s, action)
        },
    decreases s.len(),
{
    let p = has_action(action);
    if s.len() == 0 {
        Seq::<Keybind>::empty().lemma_filter_push(x, p);
        assert(seq![x] =~= Seq::<Keybind>::empty().push(x));
    } else if listed_le(s.last(), x) {
        s.lemma_filter_push(x, p);
    } else {
        let t = s.drop_last();
        let last = s.last();
        lemma_stable_insert_with_action(t, x, action);
        stable_insert(t, x).lemma_filter_push(last, p);
        t.lemma_filter_push(last, p);
        assert(s =~= t.push(last));
        if x.action@ == action {
            lemma_text_le_reflexive(x.action@);
            assert(last.action@ != action);
        }
    }
}

/// Law: the listed bindings are ordered by action text.
pub proof fn lemma_stable_sort_in_order(s: Seq<Keybind>)
    ensures
        listed_in_order(stable_sort(s)),
    decreases s.len(),
{
    if s.len() > 0 {
        lemma_stable_sort_in_order(s.drop_last());
        lemma_stable_insert_in_order(stable_sort(s.drop_last()), s.last());
    }
}

/// Law: the listed bindings are ordered by their whole action text, compared
/// character by character as `str` compares (a prefix first): for any two
/// positions, the earlier binding's action text comes no later.
pub proof fn lemma_sorted_by_whole_action(s: Seq<Keybind>)
    ensures
        forall|i: int, j: int|
            0 <= i < j < stable_sort(s).len() ==> lexicographically_le(
                #[trigger] stable_sort(s)[i].action@,
                #[trigger] stable_sort(s)[j].action@,
            ),
{
    lemma_stable_sort_in_order(s);
    let r = stable_sort(s);
    assert forall|i: int, j: int| 0 <= i < j < r.len() implies lexicographically_le(
        #[trigger] r[i].action@,
        #[trigger] r[j].action@,
    ) by {
        assert(listed_le(r[i], r[j]));
        lemma_text_le_is_lexicographic(r[i].action@, r[j].action@);
    }
}

/// Law: sorting keeps, for every action text, exactly the bindings that
/// trigger it and in the order they came: the sort is stable and loses or adds
/// nothing.
pub proof fn lemma_stable_sort_keeps_each_action(s: Seq<Keybind>, action: Seq<char>)
    ensures
        with_action(stable_sort(s), action) == with_action(s, action),
    decreases s.len(),
{
    if s.len() > 0 {
        let t = s.drop_last();
        lemma_stable_sort_keeps_each_action(t, action);
        lemma_stable_insert_with_action(stable_sort(t), s.last(), action);
        t.lemma_filter_push(s.last(), has_action(action));
        assert(s =~= t.push(s.last()));
    }
}

/// Law: sorting neither loses nor adds a binding.
pub proof fn lemma_stable_sort_permutes(s: Seq<Keybind>)
    ensures
        stable_sort(s).to_multiset() == s.to_multiset(),
        stable_sort(s).len() == s.len(),
    decreases s.len(),
{
    broadcast use vstd::seq_lib::group_to_multiset_ensures;

    if s.len() > 0 {
        let t = s.drop_last();
        lemma_stable_sort_permutes(t);
        lemma_stable_insert_shape(stable_sort(t), s.last());
        assert(s =~= t.push(s.last()));
    }
}

/// Inserts `x` into the ordered list `sorted` after every binding listed no
/// later than it.
fn insert_binding(sorted: &mut Vec<Keybind>, x: Keybind)
    ensures
        final(sorted)@ == stable_insert(old(sorted)@, x),
{
    let ghost s = sorted@;
    let mut p: usize = sorted.len();
    assert(s.take(p as int) =~= s);
    assert(s.skip(p as int) =~= Seq::<Keybind>::empty());
    while p > 0 && !text_le_exec(sorted[p - 1].action.as_str(), x.action.as_str())
        invariant
            sorted@ == s,
            p <= s.len(),
            stable_insert(s, x) == stable_insert(s.take(p as int), x) + s.skip(p as int),
        decreases p,
    {
        proof {
            let t = s.take(p as int);
            assert(t.last() == s[p - 1]);
            assert(t.drop_last() =~= s.take(p - 1));
            assert(s.skip(p - 1) =~= seq![s[p - 1]] + s.skip(p as int));
            assert(stable_insert(t.drop_last(), x).push(t.last()) + s.skip(p as int)
                =~= stable_insert(t.drop_last(), x) + s.skip(p - 1));
        }
        p = p - 1;
    }
    proof {
        let t = s.take(p as int);
        if p > 0 {
            assert(t.last() == s[p - 1]);
        }
        assert(stable_insert(t, x) + s.skip(p as int) =~= s.insert(p as int, x));
    }
    sorted.insert(p, x);
}

/// Orders the bindings by the text of their action, keeping bindings with the
/// same action text in the order they come (a stable sort).
pub fn sort_keybinds(binds: Vec<Keybind>) -> (sorted: Vec<Keybind>)
    ensures
        sorted@ == stable_sort(binds@),
        sorted.len() == binds.len(),
        listed_in_order(sorted@),
        forall|i: int, j: int|
            0 <= i < j < sorted.len() ==> lexicographically_le(
                #[trigger] sorted@[i].action@,
                #[trigger] sorted@[j].action@,
            ),
        sorted@.to_multiset() == binds@.to_multiset(),
        forall|action: Seq<char>| #[trigger] with_action(sorted@, action) == with_action(binds@, action),
{
    let ghost all = binds@;
    let mut rest = binds;
    let mut sorted: Vec<Keybind> = Vec::new();
    let ghost mut taken: int = 0;
    assert(all.take(0) =~= Seq::<Keybind>::empty());
    assert(all.skip(0) =~= all);
    while rest.len() > 0
        invariant
            0 <= taken <= all.len(),
            rest@ == all.skip(taken),
            sorted@ == stable_sort(all.take(taken)),
        decreases rest.len(),
    {
        let x = rest.remove(0);
        proof {
            assert(all.take(taken + 1).drop_last() =~= all.take(taken));
            assert(all.take(taken + 1).last() == x);
            assert(rest@ =~= all.skip(taken + 1));
            taken = taken + 1;
        }
        insert_binding(&mut sorted, x);
    }
    proof {
        assert(all.take(taken) =~= all);
        lemma_stable_sort_in_order(all);
        lemma_sorted_by_whole_action(all);
        lemma_stable_sort_permutes(all);
        assert forall|action: Seq<char>| #[trigger] with_action(sorted@, action) == with_action(all, action) by {
            lemma_stable_sort_keeps_each_action(all, action);
        }
    }
    sorted
}

} // verus!
