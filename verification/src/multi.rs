use crate::bounds::{lemma_in_right_monotone, lemma_le_total, lemma_le_trans, Bound};
use crate::intervals::Interval;
use crate::nothing_between::NothingBetween;
use crate::pairs::Pair;
use vstd::prelude::*;

verus! {

/// Every interval of the sequence is well formed and non-empty.
pub open spec fn seq_all_wf_nonempty<T: NothingBetween>(s: Seq<Interval<T>>) -> bool {
    forall|i: int| 0 <= i < s.len() ==> (#[trigger] s[i]).wf() && !s[i].is_empty_spec()
}

/// The sequence is ordered by lower cuts.
pub open spec fn sorted_by_lower<T: NothingBetween>(s: Seq<Interval<T>>) -> bool {
    forall|i: int, j: int|
        0 <= i < j < s.len() ==> (#[trigger] s[i]).lower.le_spec((#[trigger] s[j]).lower)
}

/// Some interval of the sequence holds the value.
pub open spec fn seq_holds<T: NothingBetween>(s: Seq<Interval<T>>, v: T) -> bool {
    exists|i: int| 0 <= i < s.len() && (#[trigger] s[i]).contains_spec(v)
}

/// Appending an interval to a sequence adds exactly its values.
pub proof fn lemma_holds_push<T: NothingBetween>(s: Seq<Interval<T>>, e: Interval<T>)
    ensures
        forall|v: T| seq_holds(s.push(e), v) == (seq_holds(s, v) || e.contains_spec(v)),
{
    assert forall|v: T| seq_holds(s.push(e), v) == (seq_holds(s, v) || e.contains_spec(v)) by {
        if seq_holds(s.push(e), v) {
            let i = choose|i: int|
                0 <= i < s.push(e).len() && (#[trigger] s.push(e)[i]).contains_spec(v);
            if i < s.len() {
                assert(s[i].contains_spec(v));
            } else {
                assert(e.contains_spec(v));
            }
        }
        if seq_holds(s, v) {
            let i = choose|i: int| 0 <= i < s.len() && (#[trigger] s[i]).contains_spec(v);
            assert(s.push(e)[i].contains_spec(v));
        }
        if e.contains_spec(v) {
            assert(s.push(e)[s.len() as int].contains_spec(v));
        }
    }
}

/// The pending accumulator holds the value.
pub open spec fn opt_holds<T: NothingBetween>(o: Option<Interval<T>>, v: T) -> bool {
    match o {
        Some(i) => i.contains_spec(v),
        None => false,
    }
}

/// The sorting order on intervals: by `spec_cmp`, lower cuts first,
/// upper cuts on a tie.
pub open spec fn le_intv<T: NothingBetween>(a: Interval<T>, b: Interval<T>) -> bool {
    !(a.spec_cmp(b) == core::cmp::Ordering::Greater)
}

/// The sequence is ordered by `le_intv`.
pub open spec fn sorted_intv<T: NothingBetween>(s: Seq<Interval<T>>) -> bool {
    forall|i: int, j: int| 0 <= i < j < s.len() ==> le_intv(#[trigger] s[i], #[trigger] s[j])
}

/// The sorting order is total.
pub proof fn lemma_le_intv_total<T: NothingBetween>(a: Interval<T>, b: Interval<T>)
    ensures
        le_intv(a, b) || le_intv(b, a),
{
    lemma_le_total(a.lower, b.lower);
    lemma_le_total(a.upper, b.upper);
}

/// The sorting order is transitive.
pub proof fn lemma_le_intv_trans<T: NothingBetween>(
    a: Interval<T>,
    b: Interval<T>,
    c: Interval<T>,
)
    requires
        le_intv(a, b),
        le_intv(b, c),
    ensures
        le_intv(a, c),
{
    lemma_le_total(a.lower, b.lower);
    lemma_le_total(b.lower, c.lower);
    lemma_le_total(a.lower, c.lower);
    lemma_le_total(a.upper, b.upper);
    lemma_le_total(b.upper, c.upper);
    lemma_le_total(a.upper, c.upper);
    if a.lower.le_spec(b.lower) && b.lower.le_spec(c.lower) {
        lemma_le_trans(a.lower, b.lower, c.lower);
    }
    if c.lower.le_spec(a.lower) && a.lower.le_spec(b.lower) {
        lemma_le_trans(c.lower, a.lower, b.lower);
    }
    if b.lower.le_spec(c.lower) && c.lower.le_spec(a.lower) {
        lemma_le_trans(b.lower, c.lower, a.lower);
    }
    if a.upper.le_spec(b.upper) && b.upper.le_spec(c.upper) {
        lemma_le_trans(a.upper, b.upper, c.upper);
    }
    if c.upper.le_spec(a.upper) && a.upper.le_spec(b.upper) {
        lemma_le_trans(c.upper, a.upper, b.upper);
    }
    if b.upper.le_spec(c.upper) && c.upper.le_spec(a.upper) {
        lemma_le_trans(b.upper, c.upper, a.upper);
    }
}

/// The sorting order respects the order of lower cuts.
pub proof fn lemma_le_intv_lower<T: NothingBetween>(a: Interval<T>, b: Interval<T>)
    requires
        le_intv(a, b),
    ensures
        a.lower.le_spec(b.lower),
{
    lemma_le_total(a.lower, b.lower);
}

/// Sequences holding the same intervals hold the same values.
pub proof fn lemma_same_multiset_same_holds<T: NothingBetween>(
    s1: Seq<Interval<T>>,
    s2: Seq<Interval<T>>,
)
    requires
        s1.to_multiset() == s2.to_multiset(),
    ensures
        forall|v: T| seq_holds(s1, v) == seq_holds(s2, v),
{
    broadcast use vstd::seq_lib::group_to_multiset_ensures;

    assert forall|v: T| seq_holds(s1, v) == seq_holds(s2, v) by {
        if seq_holds(s1, v) {
            let i = choose|i: int| 0 <= i < s1.len() && (#[trigger] s1[i]).contains_spec(v);
            assert(s1.contains(s1[i]));
            assert(s1.to_multiset().count(s1[i]) > 0);
            assert(s2.to_multiset().count(s1[i]) > 0);
            assert(s2.contains(s1[i]));
            let j = choose|j: int| 0 <= j < s2.len() && s2[j] == s1[i];
            assert(s2[j].contains_spec(v));
        }
        if seq_holds(s2, v) {
            let i = choose|i: int| 0 <= i < s2.len() && (#[trigger] s2[i]).contains_spec(v);
            assert(s2.contains(s2[i]));
            assert(s2.to_multiset().count(s2[i]) > 0);
            assert(s1.to_multiset().count(s2[i]) > 0);
            assert(s1.contains(s2[i]));
            let j = choose|j: int| 0 <= j < s1.len() && s1[j] == s2[i];
            assert(s1[j].contains_spec(v));
        }
    }
}

/// Inserting an interval into a sequence ordered by `le_intv`: it
/// lands before the first element it does not exceed.
pub open spec fn spec_insert_intv<T: NothingBetween>(
    e: Interval<T>,
    s: Seq<Interval<T>>,
) -> Seq<Interval<T>>
    decreases s.len(),
{
    if s.len() == 0 {
        seq![e]
    } else if le_intv(e, s[0]) {
        seq![e] + s
    } else {
        seq![s[0]] + spec_insert_intv(e, s.drop_first())
    }
}

/// Sorting by repeated insertion, back to front.
pub open spec fn spec_sort_intv<T: NothingBetween>(s: Seq<Interval<T>>) -> Seq<Interval<T>>
    decreases s.len(),
{
    if s.len() == 0 {
        Seq::empty()
    } else {
        spec_insert_intv(s.last(), spec_sort_intv(s.drop_last()))
    }
}

/// What insertion guarantees: order kept, one more element, the same
/// intervals.
pub proof fn lemma_insert_intv_props<T: NothingBetween>(e: Interval<T>, s: Seq<Interval<T>>)
    requires
        sorted_intv(s),
    ensures
        sorted_intv(spec_insert_intv(e, s)),
        spec_insert_intv(e, s).to_multiset() == s.to_multiset().insert(e),
        spec_insert_intv(e, s).len() == s.len() + 1,
        forall|k: int|
            0 <= k < spec_insert_intv(e, s).len() ==> #[trigger] spec_insert_intv(e, s)[k] == e
                || s.contains(spec_insert_intv(e, s)[k]),
    decreases s.len(),
{
    broadcast use vstd::seq_lib::group_to_multiset_ensures;

    let r = spec_insert_intv(e, s);
    if s.len() == 0 {
        assert(seq![e] =~= Seq::<Interval<T>>::empty().push(e));
        assert(r.to_multiset() =~= s.to_multiset().insert(e));
    } else if le_intv(e, s[0]) {
        assert forall|i: int, j: int| 0 <= i < j < r.len() implies le_intv(
            #[trigger] r[i],
            #[trigger] r[j],
        ) by {
            if i == 0 && j >= 1 {
                lemma_le_intv_trans(e, s[0], s[j - 1]);
            }
        }
        vstd::seq_lib::lemma_multiset_commutative(seq![e], s);
        assert(s + seq![e] =~= s.push(e));
        assert(r.to_multiset() =~= s.to_multiset().insert(e));
    } else {
        lemma_le_intv_total(e, s[0]);
        assert(sorted_intv(s.drop_first()));
        lemma_insert_intv_props(e, s.drop_first());
        let rest = spec_insert_intv(e, s.drop_first());
        assert forall|i: int, j: int| 0 <= i < j < r.len() implies le_intv(
            #[trigger] r[i],
            #[trigger] r[j],
        ) by {
            if i >= 1 {
                assert(r[i] == rest[i - 1] && r[j] == rest[j - 1]);
            } else {
                assert(r[j] == rest[j - 1]);
                if rest[j - 1] == e {
                } else {
                    let x = rest[j - 1];
                    assert(s.drop_first().contains(x));
                    let k = choose|k: int| 0 <= k < s.drop_first().len() && s.drop_first()[k] == x;
                    assert(s[k + 1] == x);
                }
            }
        }
        vstd::seq_lib::lemma_multiset_commutative(seq![s[0]], rest);
        assert(seq![s[0]] + s.drop_first() =~= s);
        vstd::seq_lib::lemma_multiset_commutative(seq![s[0]], s.drop_first());
        assert(r.to_multiset() =~= s.to_multiset().insert(e));
        assert forall|k: int| 0 <= k < r.len() implies #[trigger] r[k] == e || s.contains(
            r[k],
        ) by {
            if k == 0 {
                assert(s[0] == r[0]);
            } else if r[k] != e {
                assert(s.drop_first().contains(r[k]));
                let k2 = choose|k2: int|
                    0 <= k2 < s.drop_first().len() && s.drop_first()[k2] == r[k];
                assert(s[k2 + 1] == r[k]);
            }
        }
    }
}

/// What sorting guarantees: order, the same intervals, the same count.
pub proof fn lemma_sort_intv_props<T: NothingBetween>(s: Seq<Interval<T>>)
    ensures
        sorted_intv(spec_sort_intv(s)),
        spec_sort_intv(s).to_multiset() == s.to_multiset(),
        spec_sort_intv(s).len() == s.len(),
        forall|k: int|
            0 <= k < spec_sort_intv(s).len() ==> s.contains(#[trigger] spec_sort_intv(s)[k]),
    decreases s.len(),
{
    broadcast use vstd::seq_lib::group_to_multiset_ensures;

    if s.len() > 0 {
        lemma_sort_intv_props(s.drop_last());
        lemma_insert_intv_props(s.last(), spec_sort_intv(s.drop_last()));
        assert(s.drop_last().push(s.last()) =~= s);
        assert(spec_sort_intv(s).to_multiset() =~= s.to_multiset());
        assert forall|k: int| 0 <= k < spec_sort_intv(s).len() implies s.contains(
            #[trigger] spec_sort_intv(s)[k],
        ) by {
            let x = spec_sort_intv(s)[k];
            if x == s.last() {
                assert(s[s.len() - 1] == x);
            } else {
                assert(spec_sort_intv(s.drop_last()).contains(x));
                let k2 = choose|k2: int|
                    0 <= k2 < spec_sort_intv(s.drop_last()).len() && spec_sort_intv(
                        s.drop_last(),
                    )[k2] == x;
                assert(s.drop_last().contains(x));
                let k3 = choose|k3: int|
                    0 <= k3 < s.drop_last().len() && s.drop_last()[k3] == x;
                assert(s[k3] == x);
            }
        }
    }
}

/// Sorts intervals by `le_intv` through insertion, returning exactly
/// the sequence the sorting specification names.
pub(crate) fn sort_intervals<T: NothingBetween>(elements: Vec<Interval<T>>) -> (r: Vec<
    Interval<T>,
>)
    ensures
        r@ == spec_sort_intv(elements@),
        sorted_intv(r@),
        r@.to_multiset() == elements@.to_multiset(),
        forall|v: T| seq_holds(r@, v) == seq_holds(elements@, v),
        seq_all_wf_nonempty(elements@) ==> seq_all_wf_nonempty(r@),
{
    let mut out: Vec<Interval<T>> = Vec::new();
    let mut i: usize = 0;
    proof {
        assert(elements@.take(0) =~= Seq::<Interval<T>>::empty());
        assert(out@ =~= spec_sort_intv(elements@.take(0)));
    }
    while i < elements.len()
        invariant
            i <= elements@.len(),
            out@ == spec_sort_intv(elements@.take(i as int)),
        decreases elements@.len() - i,
    {
        let e = elements[i];
        let ghost prev = out@;
        proof {
            assert(elements@.take(i as int + 1).drop_last() =~= elements@.take(i as int));
            assert(elements@.take(i as int + 1).last() == e);
        }
        let mut j: usize = 0;
        proof {
            assert(prev.take(0) + spec_insert_intv(e, prev.skip(0)) =~= spec_insert_intv(
                e,
                prev.skip(0),
            ));
            assert(prev.skip(0) =~= prev);
        }
        while j < out.len() && matches!(e.cmp_interval(&out[j]), core::cmp::Ordering::Greater)
            invariant
                out@ == prev,
                j <= prev.len(),
                prev.take(j as int) + spec_insert_intv(e, prev.skip(j as int))
                    == spec_insert_intv(e, prev),
            decreases prev.len() - j,
        {
            proof {
                assert(prev.skip(j as int)[0] == prev[j as int]);
                assert(prev.skip(j as int).drop_first() =~= prev.skip(j as int + 1));
                assert(spec_insert_intv(e, prev.skip(j as int)) == seq![prev[j as int]]
                    + spec_insert_intv(e, prev.skip(j as int + 1)));
                assert(prev.take(j as int) + (seq![prev[j as int]] + spec_insert_intv(
                    e,
                    prev.skip(j as int + 1),
                )) =~= prev.take(j as int + 1) + spec_insert_intv(e, prev.skip(j as int + 1)));
            }
            j = j + 1;
        }
        proof {
            if j < prev.len() {
                assert(le_intv(e, prev.skip(j as int)[0]));
                assert(spec_insert_intv(e, prev.skip(j as int)) == seq![e] + prev.skip(
                    j as int,
                ));
            } else {
                assert(prev.skip(j as int) =~= Seq::<Interval<T>>::empty());
            }
            assert(prev.insert(j as int, e) =~= prev.take(j as int) + (seq![e] + prev.skip(
                j as int,
            )));
            assert(prev.insert(j as int, e) =~= spec_insert_intv(e, prev));
        }
        out.insert(j, e);
        i = i + 1;
    }
    proof {
        assert(elements@.take(elements@.len() as int) =~= elements@);
        lemma_sort_intv_props(elements@);
        lemma_same_multiset_same_holds(out@, elements@);
        if seq_all_wf_nonempty(elements@) {
            assert forall|k: int| 0 <= k < out@.len() implies (#[trigger] out@[k]).wf()
                && !out@[k].is_empty_spec() by {
                assert(elements@.contains(out@[k]));
                let k2 = choose|k2: int|
                    0 <= k2 < elements@.len() && elements@[k2] == out@[k];
                assert(elements@[k2].wf());
            }
        }
    }
    out
}

/// The stable two-way merge of two interval sequences ordered by lower
/// cuts: the head with the smaller lower cut is emitted first, the
/// second sequence's head on a tie.
pub open spec fn spec_leftmost_merge<T: NothingBetween>(
    s1: Seq<Interval<T>>,
    s2: Seq<Interval<T>>,
) -> Seq<Interval<T>>
    decreases s1.len() + s2.len(),
{
    if s1.len() == 0 {
        s2
    } else if s2.len() == 0 {
        s1
    } else if le_intv(s2[0], s1[0]) {
        seq![s2[0]] + spec_leftmost_merge(s1, s2.drop_first())
    } else {
        seq![s1[0]] + spec_leftmost_merge(s1.drop_first(), s2)
    }
}

/// The merge holds exactly the values of its two inputs.
pub proof fn lemma_leftmost_merge_holds<T: NothingBetween>(
    s1: Seq<Interval<T>>,
    s2: Seq<Interval<T>>,
)
    ensures
        forall|v: T|
            seq_holds(spec_leftmost_merge(s1, s2), v) == (seq_holds(s1, v) || seq_holds(s2, v)),
    decreases s1.len() + s2.len(),
{
    if s1.len() == 0 || s2.len() == 0 {
    } else {
        if le_intv(s2[0], s1[0]) {
            lemma_leftmost_merge_holds(s1, s2.drop_first());
            assert forall|v: T|
                seq_holds(spec_leftmost_merge(s1, s2), v) == (seq_holds(s1, v) || seq_holds(
                    s2,
                    v,
                )) by {
                let m = spec_leftmost_merge(s1, s2);
                let rest = spec_leftmost_merge(s1, s2.drop_first());
                if seq_holds(m, v) {
                    let i = choose|i: int| 0 <= i < m.len() && (#[trigger] m[i]).contains_spec(v);
                    if i == 0 {
                        assert(s2[0].contains_spec(v));
                    } else {
                        assert(rest[i - 1].contains_spec(v));
                    }
                    if seq_holds(s2.drop_first(), v) {
                        let j = choose|j: int|
                            0 <= j < s2.drop_first().len() && (#[trigger] s2.drop_first()[j])
                                .contains_spec(v);
                        assert(s2[j + 1].contains_spec(v));
                    }
                }
                if seq_holds(s1, v) {
                    let i = choose|i: int|
                        0 <= i < s1.len() && (#[trigger] s1[i]).contains_spec(v);
                    assert(rest.contains(s1[i]) || true);
                    assert(seq_holds(rest, v));
                    let j = choose|j: int|
                        0 <= j < rest.len() && (#[trigger] rest[j]).contains_spec(v);
                    assert(m[j + 1].contains_spec(v));
                }
                if seq_holds(s2, v) {
                    let i = choose|i: int|
                        0 <= i < s2.len() && (#[trigger] s2[i]).contains_spec(v);
                    if i == 0 {
                        assert(m[0].contains_spec(v));
                    } else {
                        assert(s2.drop_first()[i - 1].contains_spec(v));
                        assert(seq_holds(rest, v));
                        let j = choose|j: int|
                            0 <= j < rest.len() && (#[trigger] rest[j]).contains_spec(v);
                        assert(m[j + 1].contains_spec(v));
                    }
                }
            }
        } else {
            lemma_leftmost_merge_holds(s1.drop_first(), s2);
            assert forall|v: T|
                seq_holds(spec_leftmost_merge(s1, s2), v) == (seq_holds(s1, v) || seq_holds(
                    s2,
                    v,
                )) by {
                let m = spec_leftmost_merge(s1, s2);
                let rest = spec_leftmost_merge(s1.drop_first(), s2);
                if seq_holds(m, v) {
                    let i = choose|i: int| 0 <= i < m.len() && (#[trigger] m[i]).contains_spec(v);
                    if i == 0 {
                        assert(s1[0].contains_spec(v));
                    } else {
                        assert(rest[i - 1].contains_spec(v));
                    }
                    if seq_holds(s1.drop_first(), v) {
                        let j = choose|j: int|
                            0 <= j < s1.drop_first().len() && (#[trigger] s1.drop_first()[j])
                                .contains_spec(v);
                        assert(s1[j + 1].contains_spec(v));
                    }
                }
                if seq_holds(s2, v) {
                    let i = choose|i: int|
                        0 <= i < s2.len() && (#[trigger] s2[i]).contains_spec(v);
                    assert(seq_holds(rest, v));
                    let j = choose|j: int|
                        0 <= j < rest.len() && (#[trigger] rest[j]).contains_spec(v);
                    assert(m[j + 1].contains_spec(v));
                }
                if seq_holds(s1, v) {
                    let i = choose|i: int|
                        0 <= i < s1.len() && (#[trigger] s1[i]).contains_spec(v);
                    if i == 0 {
                        assert(m[0].contains_spec(v));
                    } else {
                        assert(s1.drop_first()[i - 1].contains_spec(v));
                        assert(seq_holds(rest, v));
                        let j = choose|j: int|
                            0 <= j < rest.len() && (#[trigger] rest[j]).contains_spec(v);
                        assert(m[j + 1].contains_spec(v));
                    }
                }
            }
        }
    }
}

/// The merge of two sequences ordered by lower cuts is ordered by
/// lower cuts, keeps well-formed non-empty intervals, and its first
/// element's lower cut is one of the input heads'.
pub proof fn lemma_leftmost_merge_sorted<T: NothingBetween>(
    s1: Seq<Interval<T>>,
    s2: Seq<Interval<T>>,
)
    requires
        sorted_by_lower(s1),
        sorted_by_lower(s2),
        seq_all_wf_nonempty(s1),
        seq_all_wf_nonempty(s2),
    ensures
        sorted_by_lower(spec_leftmost_merge(s1, s2)),
        seq_all_wf_nonempty(spec_leftmost_merge(s1, s2)),
        spec_leftmost_merge(s1, s2).len() == s1.len() + s2.len(),
        forall|j: int|
            0 <= j < spec_leftmost_merge(s1, s2).len() ==> (s1.len() > 0
                && s1[0].lower.le_spec(#[trigger] spec_leftmost_merge(s1, s2)[j].lower)) || (
            s2.len() > 0 && s2[0].lower.le_spec(spec_leftmost_merge(s1, s2)[j].lower)),
    decreases s1.len() + s2.len(),
{
    let m = spec_leftmost_merge(s1, s2);
    if s1.len() == 0 || s2.len() == 0 {
        if s1.len() > 0 {
            lemma_le_total(s1[0].lower, s1[0].lower);
        }
        if s2.len() > 0 {
            lemma_le_total(s2[0].lower, s2[0].lower);
        }
    } else if le_intv(s2[0], s1[0]) {
        lemma_le_intv_lower(s2[0], s1[0]);
        lemma_leftmost_merge_sorted(s1, s2.drop_first());
        let rest = spec_leftmost_merge(s1, s2.drop_first());
        assert forall|i: int, j: int| 0 <= i < j < m.len() implies (#[trigger] m[i]).lower.le_spec(
            (#[trigger] m[j]).lower,
        ) by {
            if i > 0 {
                assert(m[i] == rest[i - 1]);
                assert(m[j] == rest[j - 1]);
            } else {
                assert(m[j] == rest[j - 1]);
                if s1.len() > 0 && s1[0].lower.le_spec(rest[j - 1].lower) {
                    lemma_le_trans(s2[0].lower, s1[0].lower, rest[j - 1].lower);
                } else {
                    lemma_le_total(s2[0].lower, s2[0].lower);
                    if s2.drop_first().len() > 0 {
                        lemma_le_trans(s2[0].lower, s2.drop_first()[0].lower, rest[j - 1].lower);
                    }
                }
            }
        }
        assert forall|j: int| 0 <= j < m.len() implies (s1.len() > 0 && s1[0].lower.le_spec(
            (#[trigger] m[j]).lower,
        )) || (s2.len() > 0 && s2[0].lower.le_spec(m[j].lower)) by {
            if j == 0 {
                lemma_le_total(s2[0].lower, s2[0].lower);
            } else {
                assert(m[j] == rest[j - 1]);
                if s2.drop_first().len() > 0 && s2.drop_first()[0].lower.le_spec(
                    rest[j - 1].lower,
                ) {
                    lemma_le_trans(s2[0].lower, s2.drop_first()[0].lower, rest[j - 1].lower);
                }
            }
        }
    } else {
        lemma_le_intv_total(s2[0], s1[0]);
        lemma_le_intv_lower(s1[0], s2[0]);
        lemma_leftmost_merge_sorted(s1.drop_first(), s2);
        let rest = spec_leftmost_merge(s1.drop_first(), s2);
        assert forall|i: int, j: int| 0 <= i < j < m.len() implies (#[trigger] m[i]).lower.le_spec(
            (#[trigger] m[j]).lower,
        ) by {
            if i > 0 {
                assert(m[i] == rest[i - 1]);
                assert(m[j] == rest[j - 1]);
            } else {
                assert(m[j] == rest[j - 1]);
                if s2.len() > 0 && s2[0].lower.le_spec(rest[j - 1].lower) {
                    lemma_le_trans(s1[0].lower, s2[0].lower, rest[j - 1].lower);
                } else {
                    lemma_le_total(s1[0].lower, s1[0].lower);
                    if s1.drop_first().len() > 0 {
                        lemma_le_trans(s1[0].lower, s1.drop_first()[0].lower, rest[j - 1].lower);
                    }
                }
            }
        }
        assert forall|j: int| 0 <= j < m.len() implies (s1.len() > 0 && s1[0].lower.le_spec(
            (#[trigger] m[j]).lower,
        )) || (s2.len() > 0 && s2[0].lower.le_spec(m[j].lower)) by {
            if j == 0 {
                lemma_le_total(s1[0].lower, s1[0].lower);
            } else {
                assert(m[j] == rest[j - 1]);
                if s1.drop_first().len() > 0 && s1.drop_first()[0].lower.le_spec(
                    rest[j - 1].lower,
                ) {
                    lemma_le_trans(s1[0].lower, s1.drop_first()[0].lower, rest[j - 1].lower);
                }
            }
        }
    }
}

/// Merges two interval sequences ordered by lower cuts into one,
/// stably: on a tie the second sequence's head comes first.
pub(crate) fn merge_sorted<T: NothingBetween>(
    first: &Vec<Interval<T>>,
    second: &Vec<Interval<T>>,
) -> (r: Vec<Interval<T>>)
    ensures
        r@ == spec_leftmost_merge(first@, second@),
{
    let mut out: Vec<Interval<T>> = Vec::new();
    let mut i: usize = 0;
    let mut j: usize = 0;
    proof {
        assert(first@.skip(0) =~= first@);
        assert(second@.skip(0) =~= second@);
        assert(out@ + spec_leftmost_merge(first@.skip(0), second@.skip(0)) =~= spec_leftmost_merge(
            first@,
            second@,
        ));
    }
    while i < first.len() || j < second.len()
        invariant
            i <= first.len(),
            j <= second.len(),
            out@ + spec_leftmost_merge(first@.skip(i as int), second@.skip(j as int))
                == spec_leftmost_merge(first@, second@),
        decreases first.len() - i + second.len() - j,
    {
        let ghost r1 = first@.skip(i as int);
        let ghost r2 = second@.skip(j as int);
        if i == first.len() {
            let e = second[j];
            proof {
                assert(r2.drop_first() =~= second@.skip(j as int + 1));
                assert(out@.push(e) + spec_leftmost_merge(r1, r2.drop_first())
                    =~= spec_leftmost_merge(first@, second@));
            }
            out.push(e);
            j = j + 1;
        } else if j == second.len() {
            let e = first[i];
            proof {
                assert(r1.drop_first() =~= first@.skip(i as int + 1));
                assert(spec_leftmost_merge(r1, r2) == seq![r1[0]] + spec_leftmost_merge(
                    r1.drop_first(),
                    r2,
                ));
                assert(out@.push(e) + spec_leftmost_merge(r1.drop_first(), r2)
                    =~= spec_leftmost_merge(first@, second@));
            }
            out.push(e);
            i = i + 1;
        } else {
            proof {
                lemma_le_intv_total(second@[j as int], first@[i as int]);
            }
            let c = second[j].cmp_interval(&first[i]);
            if !matches!(c, core::cmp::Ordering::Greater) {
                let e = second[j];
                proof {
                    assert(r2.drop_first() =~= second@.skip(j as int + 1));
                    assert(out@.push(e) + spec_leftmost_merge(r1, r2.drop_first())
                        =~= spec_leftmost_merge(first@, second@));
                }
                out.push(e);
                j = j + 1;
            } else {
                let e = first[i];
                proof {
                    assert(r1.drop_first() =~= first@.skip(i as int + 1));
                    assert(out@.push(e) + spec_leftmost_merge(r1.drop_first(), r2)
                        =~= spec_leftmost_merge(first@, second@));
                }
                out.push(e);
                i = i + 1;
            }
        }
    }
    proof {
        assert(out@ =~= spec_leftmost_merge(first@, second@));
    }
    out
}

/// The coalescing fold over a batch ordered by lower cuts: the
/// accumulated interval absorbs the next one through the convex hull
/// whenever the policy's `joins` judgement holds, and is emitted
/// otherwise.
pub open spec fn spec_merge_fold<T: NothingBetween>(
    joins: spec_fn(Interval<T>, Interval<T>) -> bool,
    acc: Interval<T>,
    rest: Seq<Interval<T>>,
) -> Seq<Interval<T>>
    decreases rest.len(),
{
    if rest.len() == 0 {
        seq![acc]
    } else if joins(acc, rest[0]) {
        spec_merge_fold(joins, acc.spec_convex_hull(rest[0]), rest.drop_first())
    } else {
        seq![acc] + spec_merge_fold(joins, rest[0], rest.drop_first())
    }
}

/// The canonical sequence the coalescing fold makes of a batch.
pub open spec fn spec_merge_seq<T: NothingBetween>(
    joins: spec_fn(Interval<T>, Interval<T>) -> bool,
    s: Seq<Interval<T>>,
) -> Seq<Interval<T>> {
    if s.len() == 0 {
        Seq::empty()
    } else {
        spec_merge_fold(joins, s[0], s.drop_first())
    }
}

/// Two join judgements that agree pointwise fold alike.
pub proof fn lemma_merge_fold_congruence<T: NothingBetween>(
    j1: spec_fn(Interval<T>, Interval<T>) -> bool,
    j2: spec_fn(Interval<T>, Interval<T>) -> bool,
    s: Seq<Interval<T>>,
)
    requires
        forall|a: Interval<T>, b: Interval<T>| #[trigger] j1(a, b) == j2(a, b),
    ensures
        spec_merge_seq(j1, s) == spec_merge_seq(j2, s),
{
    if s.len() > 0 {
        lemma_merge_fold_congruence_step(j1, j2, s[0], s.drop_first());
    }
}

proof fn lemma_merge_fold_congruence_step<T: NothingBetween>(
    j1: spec_fn(Interval<T>, Interval<T>) -> bool,
    j2: spec_fn(Interval<T>, Interval<T>) -> bool,
    acc: Interval<T>,
    rest: Seq<Interval<T>>,
)
    requires
        forall|a: Interval<T>, b: Interval<T>| #[trigger] j1(a, b) == j2(a, b),
    ensures
        spec_merge_fold(j1, acc, rest) == spec_merge_fold(j2, acc, rest),
    decreases rest.len(),
{
    if rest.len() > 0 {
        if j1(acc, rest[0]) {
            lemma_merge_fold_congruence_step(j1, j2, acc.spec_convex_hull(rest[0]), rest.drop_first());
        } else {
            lemma_merge_fold_congruence_step(j1, j2, rest[0], rest.drop_first());
        }
    }
}

/// Merging two sequences where the whole first lies left of the whole
/// second, with no overlap, just concatenates them.
pub proof fn lemma_leftmost_merge_after_gap<T: NothingBetween>(
    s1: Seq<Interval<T>>,
    s2: Seq<Interval<T>>,
)
    requires
        seq_all_wf_nonempty(s1),
        forall|i: int, j: int|
            0 <= i < s1.len() && 0 <= j < s2.len() ==> (#[trigger] s1[i]).upper.le_spec(
                (#[trigger] s2[j]).lower,
            ),
    ensures
        spec_leftmost_merge(s1, s2) == s1 + s2,
    decreases s1.len(),
{
    if s1.len() == 0 {
        assert(spec_leftmost_merge(s1, s2) =~= s1 + s2);
    } else if s2.len() == 0 {
        assert(spec_leftmost_merge(s1, s2) =~= s1 + s2);
    } else {
        // The head of s1 sorts strictly before the head of s2.
        lemma_le_total(s2[0].lower, s1[0].lower);
        if s2[0].lower.le_spec(s1[0].lower) {
            lemma_le_trans(s1[0].upper, s2[0].lower, s1[0].lower);
        }
        assert(!le_intv(s2[0], s1[0]));
        assert(seq_all_wf_nonempty(s1.drop_first()));
        lemma_leftmost_merge_after_gap(s1.drop_first(), s2);
        assert(seq![s1[0]] + (s1.drop_first() + s2) =~= s1 + s2);
    }
}

/// Folding a sequence that opens with an already canonical run emits
/// that run unchanged and continues behind it.
pub proof fn lemma_merge_seq_of_prefix<T: NothingBetween>(
    joins: spec_fn(Interval<T>, Interval<T>) -> bool,
    c: Seq<Interval<T>>,
    rest: Seq<Interval<T>>,
)
    requires
        forall|i: int| 0 <= i && i + 1 < c.len() ==> !(#[trigger] joins(c[i], c[i + 1])),
        c.len() > 0 && rest.len() > 0 ==> !joins(c.last(), rest[0]),
    ensures
        spec_merge_seq(joins, c + rest) == c + spec_merge_seq(joins, rest),
    decreases c.len(),
{
    if c.len() == 0 {
        assert(c + rest =~= rest);
        assert(c + spec_merge_seq(joins, rest) =~= spec_merge_seq(joins, rest));
    } else {
        let tail = c.drop_first();
        assert((c + rest).drop_first() =~= tail + rest);
        if tail.len() == 0 {
            if rest.len() == 0 {
                assert((c + rest)[0] == c[0]);
                assert(spec_merge_seq(joins, c + rest) == spec_merge_fold(
                    joins,
                    c[0],
                    tail + rest,
                ));
                assert(tail + rest =~= Seq::<Interval<T>>::empty());
                assert(spec_merge_seq(joins, c + rest) =~= c);
                assert(c + spec_merge_seq(joins, rest) =~= c);
            } else {
                assert(c.last() == c[0]);
                assert((tail + rest)[0] == rest[0]);
                assert((tail + rest).drop_first() =~= rest.drop_first());
                assert(spec_merge_fold(joins, c[0], tail + rest) == seq![c[0]]
                    + spec_merge_fold(joins, rest[0], rest.drop_first()));
                assert(seq![c[0]] =~= c);
            }
        } else {
            assert(forall|i: int|
                0 <= i && i + 1 < tail.len() ==> !(#[trigger] joins(tail[i], tail[i + 1])));
            assert(tail.len() > 0 && rest.len() > 0 ==> !joins(tail.last(), rest[0]));
            lemma_merge_seq_of_prefix(joins, tail, rest);
            assert((tail + rest)[0] == tail[0]);
            assert(!joins(c[0], tail[0]));
            assert((tail + rest).drop_first() =~= tail.drop_first() + rest);
            assert(spec_merge_fold(joins, c[0], tail + rest) == seq![c[0]] + spec_merge_fold(
                joins,
                tail[0],
                tail.drop_first() + rest,
            ));
            assert(spec_merge_fold(joins, tail[0], tail.drop_first() + rest) == spec_merge_seq(
                joins,
                tail + rest,
            ));
            assert(seq![c[0]] + (tail + spec_merge_seq(joins, rest)) =~= c + spec_merge_seq(
                joins,
                rest,
            ));
        }
    }
}

/// How an interval set coalesces incoming intervals: `Joining` merges
/// intervals that overlap or merely touch, `Separating` merges only
/// genuine overlaps.
pub trait Policy<T: NothingBetween>: Sized {
    /// The discipline between two consecutive stored intervals.
    spec fn spec_gap_ok(prev: Interval<T>, next: Interval<T>) -> bool;

    /// Consecutive stored intervals never overlap.
    proof fn lemma_gap_ok_le(prev: Interval<T>, next: Interval<T>)
        requires
            Self::spec_gap_ok(prev, next),
        ensures
            prev.upper.le_spec(next.lower),
    ;

    /// Pushing the right side further right keeps the gap lawful.
    proof fn lemma_gap_ok_mono(prev: Interval<T>, e: Interval<T>, e2: Interval<T>)
        requires
            Self::spec_gap_ok(prev, e),
            e.lower.le_spec(e2.lower),
        ensures
            Self::spec_gap_ok(prev, e2),
    ;

    /// Whether the coalescing fold absorbs `next` into the accumulated
    /// `prev` rather than emitting `prev`.
    spec fn spec_joins(prev: Interval<T>, next: Interval<T>) -> bool;

    /// A lawful gap never coalesces.
    proof fn lemma_gap_ok_no_join(prev: Interval<T>, next: Interval<T>)
        requires
            Self::spec_gap_ok(prev, next),
            !prev.is_empty_spec(),
            !next.is_empty_spec(),
        ensures
            !Self::spec_joins(prev, next),
    ;

    /// Folds a sorted batch of well-formed, non-empty intervals into
    /// the canonical stored sequence: exactly the coalescing fold of
    /// the two-way merge of storage and batch, holding exactly the
    /// values of both.  The stored sequence is thereby a function of
    /// the old storage and the batch alone.
    fn merge(vec: &mut Vec<Interval<T>>, elements: Vec<Interval<T>>)
        requires
            seq_all_wf_nonempty(old(vec)@),
            forall|i: int|
                0 <= i && i + 1 < old(vec)@.len() ==> #[trigger] Self::spec_gap_ok(
                    old(vec)@[i],
                    old(vec)@[i + 1],
                ),
            sorted_by_lower(elements@),
            seq_all_wf_nonempty(elements@),
        ensures
            seq_all_wf_nonempty(final(vec)@),
            forall|i: int|
                0 <= i && i + 1 < final(vec)@.len() ==> #[trigger] Self::spec_gap_ok(
                    final(vec)@[i],
                    final(vec)@[i + 1],
                ),
            forall|v: T|
                (#[trigger] seq_holds(final(vec)@, v)) == (seq_holds(old(vec)@, v) || seq_holds(
                    elements@,
                    v,
                )),
            final(vec)@ == spec_merge_seq(
                (|a: Interval<T>, b: Interval<T>| Self::spec_joins(a, b)),
                spec_leftmost_merge(old(vec)@, elements@),
            ),
    ;
}

/// The canonical stored form: well-formed non-empty intervals with a
/// lawful gap between each consecutive two.
pub open spec fn canonical_seq<T: NothingBetween, P: Policy<T>>(s: Seq<Interval<T>>) -> bool {
    seq_all_wf_nonempty(s) && forall|i: int|
        0 <= i && i + 1 < s.len() ==> #[trigger] P::spec_gap_ok(s[i], s[i + 1])
}

/// The policy's join judgement as a carried value.
pub open spec fn policy_joins<T: NothingBetween, P: Policy<T>>() -> spec_fn(
    Interval<T>,
    Interval<T>,
) -> bool {
    |a: Interval<T>, b: Interval<T>| P::spec_joins(a, b)
}

/// The batch with its empty intervals dropped, in order.
pub open spec fn spec_filter_nonempty<T: NothingBetween>(s: Seq<Interval<T>>) -> Seq<Interval<T>>
    decreases s.len(),
{
    if s.len() == 0 {
        Seq::empty()
    } else if s.last().is_empty_spec() {
        spec_filter_nonempty(s.drop_last())
    } else {
        spec_filter_nonempty(s.drop_last()).push(s.last())
    }
}

/// The one or two surviving pieces of a difference result.
pub open spec fn spec_pair_pieces<T: NothingBetween>(p: Pair<T>) -> Seq<Interval<T>> {
    match p {
        Pair::One(i) => if i.is_empty_spec() {
            Seq::empty()
        } else {
            seq![i]
        },
        Pair::Two(i, j) => seq![i, j],
    }
}

/// The pieces every stored interval leaves once the given interval is
/// removed from it, in storage order.
pub open spec fn spec_diff_pieces<T: NothingBetween>(
    s: Seq<Interval<T>>,
    b: Interval<T>,
) -> Seq<Interval<T>>
    decreases s.len(),
{
    if s.len() == 0 {
        Seq::empty()
    } else {
        spec_diff_pieces(s.drop_last(), b) + spec_pair_pieces(s.last().spec_difference(b))
    }
}

/// The non-empty intersections of every stored interval with the
/// given one, in storage order.
pub open spec fn spec_inter_pieces<T: NothingBetween>(
    s: Seq<Interval<T>>,
    b: Interval<T>,
) -> Seq<Interval<T>>
    decreases s.len(),
{
    if s.len() == 0 {
        Seq::empty()
    } else if s.last().spec_intersection(b).is_empty_spec() {
        spec_inter_pieces(s.drop_last(), b)
    } else {
        spec_inter_pieces(s.drop_last(), b).push(s.last().spec_intersection(b))
    }
}

/// The canonical sequence a policy's merge makes of a batch over the
/// stored sequence.
pub open spec fn spec_policy_merge<T: NothingBetween, P: Policy<T>>(
    stored: Seq<Interval<T>>,
    batch: Seq<Interval<T>>,
) -> Seq<Interval<T>> {
    spec_merge_seq(policy_joins::<T, P>(), spec_leftmost_merge(stored, batch))
}

/// Whether every stored interval keeps both cuts finite.
pub open spec fn seq_all_finite_cuts<T: NothingBetween>(s: Seq<Interval<T>>) -> bool {
    forall|k: int| 0 <= k < s.len() ==> (#[trigger] s[k]).spec_finite_cuts()
}

/// Removing an interval from finite-cut stored intervals leaves only
/// finite-cut pieces.
pub proof fn lemma_diff_pieces_finite<T: NothingBetween>(s: Seq<Interval<T>>, b: Interval<T>)
    requires
        seq_all_wf_nonempty(s),
        seq_all_finite_cuts(s),
    ensures
        seq_all_wf_nonempty(spec_diff_pieces(s, b)),
        seq_all_finite_cuts(spec_diff_pieces(s, b)),
    decreases s.len(),
{
    if s.len() > 0 {
        assert(seq_all_wf_nonempty(s.drop_last()));
        assert(seq_all_finite_cuts(s.drop_last()));
        lemma_diff_pieces_finite(s.drop_last(), b);
        let t = s.last();
        assert(t.spec_finite_cuts() && t.wf() && !t.is_empty_spec());
        let tail = spec_pair_pieces(t.spec_difference(b));
        assert forall|k: int| 0 <= k < tail.len() implies (#[trigger] tail[k]).spec_finite_cuts()
            && tail[k].wf() && !tail[k].is_empty_spec() by {
            lemma_le_total(t.lower, t.upper);
        }
        assert forall|k: int|
            0 <= k < spec_diff_pieces(s, b).len() implies (
        #[trigger] spec_diff_pieces(s, b)[k]).spec_finite_cuts() && spec_diff_pieces(s, b)[k].wf()
            && !spec_diff_pieces(s, b)[k].is_empty_spec() by {
            if k < spec_diff_pieces(s.drop_last(), b).len() {
                assert(spec_diff_pieces(s, b)[k] == spec_diff_pieces(s.drop_last(), b)[k]);
            } else {
                assert(spec_diff_pieces(s, b)[k] == tail[k - spec_diff_pieces(
                    s.drop_last(),
                    b,
                ).len()]);
            }
        }
    }
}

/// The coalescing fold of finite-cut intervals emits only finite-cut
/// or canonically empty intervals: every emitted cut is one of the
/// inputs' cuts.
pub proof fn lemma_merge_fold_finite<T: NothingBetween>(
    joins: spec_fn(Interval<T>, Interval<T>) -> bool,
    acc: Interval<T>,
    rest: Seq<Interval<T>>,
)
    requires
        acc == Interval::<T>::spec_empty() || acc.spec_finite_cuts(),
        seq_all_finite_cuts(rest),
    ensures
        forall|k: int|
            0 <= k < spec_merge_fold(joins, acc, rest).len() ==> (
            #[trigger] spec_merge_fold(joins, acc, rest)[k]) == Interval::<T>::spec_empty()
                || spec_merge_fold(joins, acc, rest)[k].spec_finite_cuts(),
    decreases rest.len(),
{
    if rest.len() > 0 {
        assert(seq_all_finite_cuts(rest.drop_first()));
        assert(rest[0].spec_finite_cuts());
        if joins(acc, rest[0]) {
            let h = acc.spec_convex_hull(rest[0]);
            assert(h == Interval::<T>::spec_empty() || h.spec_finite_cuts());
            lemma_merge_fold_finite(joins, h, rest.drop_first());
        } else {
            lemma_merge_fold_finite(joins, rest[0], rest.drop_first());
            assert forall|k: int|
                0 <= k < spec_merge_fold(joins, acc, rest).len() implies (
            #[trigger] spec_merge_fold(joins, acc, rest)[k]) == Interval::<T>::spec_empty()
                || spec_merge_fold(joins, acc, rest)[k].spec_finite_cuts() by {
                if k >= 1 {
                    assert(spec_merge_fold(joins, acc, rest)[k] == spec_merge_fold(
                        joins,
                        rest[0],
                        rest.drop_first(),
                    )[k - 1]);
                }
            }
        }
    }
}

/// A canonical rebuild of finite-cut pieces keeps every stored
/// interval finite-cut, given that it keeps them non-empty.
pub proof fn lemma_merge_seq_finite<T: NothingBetween>(
    joins: spec_fn(Interval<T>, Interval<T>) -> bool,
    s: Seq<Interval<T>>,
)
    requires
        seq_all_finite_cuts(s),
        seq_all_wf_nonempty(spec_merge_seq(joins, s)),
    ensures
        seq_all_finite_cuts(spec_merge_seq(joins, s)),
{
    if s.len() > 0 {
        assert(seq_all_finite_cuts(s.drop_first()));
        lemma_merge_fold_finite(joins, s[0], s.drop_first());
        assert forall|k: int|
            0 <= k < spec_merge_seq(joins, s).len() implies (
        #[trigger] spec_merge_seq(joins, s)[k]).spec_finite_cuts() by {
            if spec_merge_seq(joins, s)[k] == Interval::<T>::spec_empty() {
                assert(spec_merge_seq(joins, s)[k].is_empty_spec());
            }
        }
    }
}

/// Sorting keeps the finite-cut property of every element.
pub proof fn lemma_sort_intv_finite<T: NothingBetween>(s: Seq<Interval<T>>)
    requires
        seq_all_finite_cuts(s),
    ensures
        seq_all_finite_cuts(spec_sort_intv(s)),
{
    lemma_sort_intv_props(s);
    assert forall|k: int|
        0 <= k < spec_sort_intv(s).len() implies (
    #[trigger] spec_sort_intv(s)[k]).spec_finite_cuts() by {
        assert(s.contains(spec_sort_intv(s)[k]));
        let k2 = choose|k2: int| 0 <= k2 < s.len() && s[k2] == spec_sort_intv(s)[k];
        assert(s[k2].spec_finite_cuts());
    }
}

/// The canonical intersections of the other set with every stored
/// interval, concatenated in storage order.
pub open spec fn spec_inter_set_pieces<T: NothingBetween>(
    joins2: spec_fn(Interval<T>, Interval<T>) -> bool,
    s: Seq<Interval<T>>,
    other: Seq<Interval<T>>,
) -> Seq<Interval<T>>
    decreases s.len(),
{
    if s.len() == 0 {
        Seq::empty()
    } else {
        spec_inter_set_pieces(joins2, s.drop_last(), other) + spec_merge_seq(
            joins2,
            spec_sort_intv(spec_inter_pieces(other, s.last())),
        )
    }
}

/// The remainder after subtracting every interval of `s`, front to
/// back, from the stored sequence `rem`, rebuilding canonically under
/// the policy's join judgement each time.
pub open spec fn spec_subtract_fold<T: NothingBetween>(
    joins: spec_fn(Interval<T>, Interval<T>) -> bool,
    s: Seq<Interval<T>>,
    rem: Seq<Interval<T>>,
) -> Seq<Interval<T>>
    decreases s.len(),
{
    if s.len() == 0 {
        rem
    } else {
        spec_subtract_fold(
            joins,
            s.drop_first(),
            spec_merge_seq(joins, spec_sort_intv(spec_diff_pieces(rem, s[0]))),
        )
    }
}

/// A sequence of well-formed non-empty intervals with no overlap
/// A sequence of well-formed non-empty intervals with no overlap
/// between consecutive two is ordered by lower cuts, and in fact every
/// earlier upper cut is at or left of every later lower cut.
pub proof fn lemma_gapped_sorted<T: NothingBetween>(s: Seq<Interval<T>>)
    requires
        seq_all_wf_nonempty(s),
        forall|i: int, j: int|
            0 <= i && j == i + 1 && j < s.len() ==> (#[trigger] s[i]).upper.le_spec(
                (#[trigger] s[j]).lower,
            ),
    ensures
        sorted_by_lower(s),
        forall|i: int, j: int|
            0 <= i < j < s.len() ==> (#[trigger] s[i]).upper.le_spec((#[trigger] s[j]).lower),
{
    assert forall|i: int, j: int| 0 <= i < j < s.len() implies (#[trigger] s[i]).upper.le_spec(
        (#[trigger] s[j]).lower,
    ) && s[i].lower.le_spec(s[j].lower) by {
        lemma_gapped_sorted_step(s, i, j);
    }
}

/// The chain from one stored interval to a later one.
proof fn lemma_gapped_sorted_step<T: NothingBetween>(s: Seq<Interval<T>>, i: int, j: int)
    requires
        seq_all_wf_nonempty(s),
        forall|k: int, l: int|
            0 <= k && l == k + 1 && l < s.len() ==> (#[trigger] s[k]).upper.le_spec(
                (#[trigger] s[l]).lower,
            ),
        0 <= i < j < s.len(),
    ensures
        s[i].upper.le_spec(s[j].lower),
        s[i].lower.le_spec(s[j].lower),
    decreases j - i,
{
    lemma_le_total(s[i].lower, s[i].upper);
    if j == i + 1 {
        lemma_le_trans(s[i].lower, s[i].upper, s[j].lower);
    } else {
        lemma_gapped_sorted_step(s, i + 1, j);
        lemma_le_total(s[i + 1].lower, s[i + 1].upper);
        lemma_le_trans(s[i].upper, s[i + 1].lower, s[i + 1].upper);
        lemma_le_trans(s[i].upper, s[i + 1].upper, s[j].lower);
        lemma_le_trans(s[i].lower, s[i].upper, s[j].lower);
    }
}



/// Relies on `core::marker::PhantomData`'s `Clone`: cloning the
/// zero-sized marker returns the marker itself.  Needed so that the
/// derived `Clone` of the interval set can copy its policy marker.
pub assume_specification<T>[ <core::marker::PhantomData<T> as core::clone::Clone>::clone ](
    p: &core::marker::PhantomData<T>,
) -> (r: core::marker::PhantomData<T>) where T: core::marker::PointeeSized
    ensures
        r == *p,
;

/// A sorted sequence of disjoint, non-empty intervals: the canonical
/// form every mutating operation restores.  The policy decides whether
/// merely touching intervals coalesce (`Joining`) or stay separate
/// (`Separating`).
#[derive(Clone, Debug)]
pub struct IntervalSet<T: NothingBetween, P: Policy<T> = crate::multi_joining::Joining> {
    pub intvs: Vec<Interval<T>>,
    pub _policy: core::marker::PhantomData<P>,
}

impl<T: NothingBetween, P: Policy<T>> IntervalSet<T, P> {
    /// The stored intervals.
    pub open spec fn spec_intervals(self) -> Seq<Interval<T>> {
        self.intvs@
    }

    /// The invariant of the stored form: well-formed non-empty
    /// intervals, with the policy's gap discipline between each
    /// consecutive two.
    pub open spec fn wf(self) -> bool {
        seq_all_wf_nonempty(self.intvs@) && forall|i: int, j: int|
            0 <= i && j == i + 1 && j < self.intvs@.len() ==> #[trigger] P::spec_gap_ok(
                self.intvs@[i],
                self.intvs@[j],
            )
    }

    /// The set of values the interval set stands for.
    pub open spec fn set_holds(self, v: T) -> bool {
        seq_holds(self.intvs@, v)
    }

    /// Returns an empty interval set.
    pub fn empty() -> (r: Self)
        ensures
            r.wf(),
            r.intvs@.len() == 0,
            forall|v: T| !(#[trigger] r.set_holds(v)),
    {
        IntervalSet { intvs: Vec::new(), _policy: core::marker::PhantomData }
    }

    /// Creates an interval set holding a single value.
    pub fn new_single(value: T) -> (r: Self)
        ensures
            r.wf(),
            forall|v: T| (#[trigger] r.set_holds(v)) == (v == value),
    {
        let intv = Interval::new_single(value);
        proof {
            assert(intv.contains_spec(value));
            if intv.is_empty_spec() {
                crate::intervals::lemma_empty_holds_nothing(intv);
            }
            assert(!intv.is_empty_spec());
        }
        let mut intvs: Vec<Interval<T>> = Vec::new();
        intvs.push(intv);
        let r = IntervalSet { intvs, _policy: core::marker::PhantomData };
        proof {
            assert forall|v: T| r.set_holds(v) == (v == value) by {
                if r.set_holds(v) {
                    let i = choose|i: int|
                        0 <= i < r.intvs@.len() && (#[trigger] r.intvs@[i]).contains_spec(v);
                    assert(r.intvs@[i] == intv);
                }
                if v == value {
                    assert(r.intvs@[0].contains_spec(v));
                }
            }
        }
        r
    }

    /// Creates an interval set from a batch of intervals, in any
    /// order, possibly overlapping: it holds exactly their values.
    pub fn new(elements: Vec<Interval<T>>) -> (r: Self)
        ensures
            r.wf(),
            forall|v: T| (#[trigger] r.set_holds(v)) == seq_holds(elements@, v),
            r.intvs@ == spec_merge_seq(
                policy_joins::<T, P>(),
                spec_sort_intv(spec_filter_nonempty(elements@)),
            ),
    {
        let mut m = Self::empty();
        proof {
            assert(m.intvs@ =~= Seq::<Interval<T>>::empty());
        }
        m.extend(elements);
        proof {
            assert(spec_leftmost_merge(
                Seq::<Interval<T>>::empty(),
                spec_sort_intv(spec_filter_nonempty(elements@)),
            ) =~= spec_sort_intv(spec_filter_nonempty(elements@)));
        }
        m
    }

    /// Adds the values of one interval to the set.
    pub fn add(&mut self, intv: Interval<T>)
        requires
            old(self).wf(),
        ensures
            final(self).wf(),
            forall|v: T|
                (#[trigger] final(self).set_holds(v)) == (old(self).set_holds(v)
                    || intv.contains_spec(v)),
            final(self).intvs@ == (if intv.is_empty_spec() {
                old(self).intvs@
            } else {
                spec_policy_merge::<T, P>(old(self).intvs@, seq![intv])
            }),
    {
        let ghost base = self.intvs@;
        if intv.is_empty() {
            proof {
                crate::intervals::lemma_empty_holds_nothing(intv);
            }
            return ;
        }
        let mut batch: Vec<Interval<T>> = Vec::new();
        batch.push(intv);
        proof {
            crate::multi::lemma_holds_push(Seq::<Interval<T>>::empty(), intv);
            assert(batch@ =~= seq![intv]);
        }
        P::merge(&mut self.intvs, batch);
        proof {
            lemma_merge_fold_congruence(
                (|a: Interval<T>, b: Interval<T>| P::spec_joins(a, b)),
                policy_joins::<T, P>(),
                spec_leftmost_merge(base, seq![intv]),
            );
        }
    }

    /// Adds the values of a batch of intervals to the set; they need
    /// not be sorted or disjoint.
    pub fn extend(&mut self, elements: Vec<Interval<T>>)
        requires
            old(self).wf(),
        ensures
            final(self).wf(),
            forall|v: T|
                (#[trigger] final(self).set_holds(v)) == (old(self).set_holds(v) || seq_holds(
                    elements@,
                    v,
                )),
            final(self).intvs@ == spec_policy_merge::<T, P>(
                old(self).intvs@,
                spec_sort_intv(spec_filter_nonempty(elements@)),
            ),
    {
        let ghost base = self.intvs@;
        // Drop empty inputs; every non-empty interval is well formed.
        let mut kept: Vec<Interval<T>> = Vec::new();
        let mut i: usize = 0;
        while i < elements.len()
            invariant
                i <= elements.len(),
                seq_all_wf_nonempty(kept@),
                kept@ == spec_filter_nonempty(elements@.take(i as int)),
                forall|v: T|
                    (#[trigger] seq_holds(kept@, v)) == seq_holds(elements@.take(i as int), v),
            decreases elements.len() - i,
        {
            let e = elements[i];
            proof {
                assert(elements@.take(i as int + 1) =~= elements@.take(i as int).push(e));
                lemma_holds_push(elements@.take(i as int), e);
                lemma_holds_push(kept@, e);
                if e.is_empty_spec() {
                    crate::intervals::lemma_empty_holds_nothing(e);
                }
                crate::bounds::lemma_le_total(e.lower, e.upper);
                if !e.is_empty_spec() {
                    assert forall|v: T|
                        (#[trigger] seq_holds(kept@.push(e), v)) == seq_holds(
                            elements@.take(i as int + 1),
                            v,
                        ) by {
                        assert(seq_holds(kept@, v) == seq_holds(elements@.take(i as int), v));
                    }
                } else {
                    assert forall|v: T|
                        (#[trigger] seq_holds(kept@, v)) == seq_holds(
                            elements@.take(i as int + 1),
                            v,
                        ) by {
                        assert(seq_holds(kept@, v) == seq_holds(elements@.take(i as int), v));
                    }
                }
            }
            proof {
                assert(elements@.take(i as int + 1).drop_last() =~= elements@.take(i as int));
                assert(elements@.take(i as int + 1).last() == e);
            }
            if !e.is_empty() {
                kept.push(e);
            }
            i = i + 1;
        }
        proof {
            assert(elements@.take(elements@.len() as int) =~= elements@);
        }
        let sorted = sort_intervals(kept);
        proof {
            assert forall|a: int, b: int| 0 <= a < b < sorted@.len() implies (
            #[trigger] sorted@[a]).lower.le_spec((#[trigger] sorted@[b]).lower) by {
                lemma_le_intv_lower(sorted@[a], sorted@[b]);
            }
        }
        P::merge(&mut self.intvs, sorted);
        proof {
            lemma_merge_fold_congruence(
                (|a: Interval<T>, b: Interval<T>| P::spec_joins(a, b)),
                policy_joins::<T, P>(),
                spec_leftmost_merge(base, sorted@),
            );
        }
    }

    /// Removes every stored interval.
    pub fn clear(&mut self)
        ensures
            final(self).wf(),
            final(self).intvs@.len() == 0,
            forall|v: T| !(#[trigger] final(self).set_holds(v)),
    {
        self.intvs.clear();
    }

    /// The number of stored intervals.
    pub fn len(&self) -> (r: usize)
        ensures
            r == self.intvs@.len(),
    {
        self.intvs.len()
    }

    /// True if the set holds no interval.
    pub fn is_empty(&self) -> (r: bool)
        ensures
            r == (self.intvs@.len() == 0),
    {
        self.intvs.len() == 0
    }

    /// The stored interval at the given position, left to right.
    pub fn get(&self, i: usize) -> (r: Interval<T>)
        requires
            i < self.intvs@.len(),
        ensures
            r == self.intvs@[i as int],
    {
        self.intvs[i]
    }

    /// The stored intervals, left to right.
    pub fn intervals(&self) -> (r: &Vec<Interval<T>>)
        ensures
            r@ == self.intvs@,
    {
        &self.intvs
    }

    /// The lowest bound value of the set, `None` when the set is empty
    /// or begins unbounded.
    pub fn lower(&self) -> (r: Option<T>)
        ensures
            r == (if self.intvs@.len() > 0 {
                self.intvs@[0].lower.value_spec()
            } else {
                None::<T>
            }),
    {
        if self.intvs.len() == 0 {
            None
        } else {
            self.intvs[0].lower()
        }
    }

    /// True if the left-most interval is unbounded; false for an empty
    /// set.
    pub fn lower_unbounded(&self) -> (r: bool)
        ensures
            r == (self.intvs@.len() > 0 && self.intvs@[0].lower matches Bound::LeftUnbounded),
    {
        if self.intvs.len() == 0 {
            false
        } else {
            self.intvs[0].lower_unbounded()
        }
    }

    /// The highest bound value of the set, `None` when the set is
    /// empty or ends unbounded.
    pub fn upper(&self) -> (r: Option<T>)
        ensures
            r == (if self.intvs@.len() > 0 {
                self.intvs@.last().upper.value_spec()
            } else {
                None::<T>
            }),
    {
        if self.intvs.len() == 0 {
            None
        } else {
            self.intvs[self.intvs.len() - 1].upper()
        }
    }

    /// True if the right-most interval is unbounded; false for an
    /// empty set.
    pub fn upper_unbounded(&self) -> (r: bool)
        ensures
            r == (self.intvs@.len() > 0 && self.intvs@.last().upper
                matches Bound::RightUnbounded),
    {
        if self.intvs.len() == 0 {
            false
        } else {
            self.intvs[self.intvs.len() - 1].upper_unbounded()
        }
    }

    /// Checks the stored-form invariant at run time: no stored
    /// interval is empty, and each ends at or before the next begins.
    /// A well-formed set always passes, and the verdict reports
    /// exactly those two conditions.
    pub fn check_invariants(&self) -> (r: bool)
        ensures
            r == ((forall|i: int|
                0 <= i < self.intvs@.len() ==> !(#[trigger] self.intvs@[i]).is_empty_spec())
                && (forall|i: int, j: int|
                0 <= i && j == i + 1 && j < self.intvs@.len() ==> (
                #[trigger] self.intvs@[i]).upper.le_spec((#[trigger] self.intvs@[j]).lower))),
            self.wf() ==> r,
    {
        proof {
            if self.wf() {
                assert forall|i: int, j: int|
                    0 <= i && j == i + 1 && j < self.intvs@.len() implies (
                #[trigger] self.intvs@[i]).upper.le_spec((#[trigger] self.intvs@[j]).lower) by {
                    P::lemma_gap_ok_le(self.intvs@[i], self.intvs@[j]);
                }
            }
        }
        let ghost s = self.intvs@;
        let mut i: usize = 0;
        let mut ok = true;
        while i < self.intvs.len()
            invariant
                s == self.intvs@,
                i <= s.len(),
                ok == ((forall|j: int| 0 <= j < i ==> !(#[trigger] s[j]).is_empty_spec())
                    && (forall|j: int, k: int|
                    0 <= j && k == j + 1 && j < i && k < s.len() ==> (
                    #[trigger] s[j]).upper.le_spec((#[trigger] s[k]).lower))),
            decreases s.len() - i,
        {
            let empty_here = self.intvs[i].is_empty();
            let mut gap_bad = false;
            if i + 1 < self.intvs.len() {
                if !self.intvs[i].strictly_left_of_interval(&self.intvs[i + 1]) {
                    gap_bad = true;
                }
            }
            ok = ok && !empty_here && !gap_bad;
            i = i + 1;
        }
        ok
    }
}


/// Concatenating sequences joins their values.
pub proof fn lemma_holds_concat<T: NothingBetween>(a: Seq<Interval<T>>, b: Seq<Interval<T>>)
    ensures
        forall|v: T| seq_holds(a + b, v) == (seq_holds(a, v) || seq_holds(b, v)),
{
    assert forall|v: T| seq_holds(a + b, v) == (seq_holds(a, v) || seq_holds(b, v)) by {
        if seq_holds(a + b, v) {
            let i = choose|i: int| 0 <= i < (a + b).len() && (#[trigger] (a + b)[i]).contains_spec(v);
            if i < a.len() {
                assert(a[i].contains_spec(v));
            } else {
                assert(b[i - a.len()].contains_spec(v));
            }
        }
        if seq_holds(a, v) {
            let i = choose|i: int| 0 <= i < a.len() && (#[trigger] a[i]).contains_spec(v);
            assert((a + b)[i].contains_spec(v));
        }
        if seq_holds(b, v) {
            let i = choose|i: int| 0 <= i < b.len() && (#[trigger] b[i]).contains_spec(v);
            assert((a + b)[a.len() + i].contains_spec(v));
        }
    }
}

/// A well-formed stored sequence is fully ordered: every earlier upper
/// cut is at or left of every later lower cut.
pub proof fn lemma_set_ordered<T: NothingBetween, P: Policy<T>>(s: Seq<Interval<T>>)
    requires
        seq_all_wf_nonempty(s),
        forall|i: int, j: int|
            0 <= i && j == i + 1 && j < s.len() ==> #[trigger] P::spec_gap_ok(s[i], s[j]),
    ensures
        sorted_by_lower(s),
        forall|i: int, j: int|
            0 <= i < j < s.len() ==> (#[trigger] s[i]).upper.le_spec((#[trigger] s[j]).lower),
{
    assert forall|i: int, j: int|
        0 <= i && j == i + 1 && j < s.len() implies (#[trigger] s[i]).upper.le_spec(
        (#[trigger] s[j]).lower,
    ) by {
        P::lemma_gap_ok_le(s[i], s[j]);
    }
    lemma_gapped_sorted(s);
}

/// One step of the covering walk of `contains_interval`: whether the
/// stored intervals from position `i` on cover the remainder `rem`,
/// with no gap before its lower cut.
pub open spec fn spec_covers<T: NothingBetween>(
    s: Seq<Interval<T>>,
    i: int,
    rem: Interval<T>,
) -> bool
    decreases s.len() - i,
{
    if i < 0 || i >= s.len() {
        false
    } else if rem.lower.lt_spec(s[i].lower) {
        false
    } else if s[i].upper.le_spec(rem.lower) {
        spec_covers(s, i + 1, rem)
    } else if !s[i].upper.lt_spec(rem.upper) {
        true
    } else {
        spec_covers(s, i + 1, Interval { lower: s[i].upper, upper: rem.upper })
    }
}

/// The covering walk is sound: a covered remainder's values are all
/// held by the sequence.
pub proof fn lemma_covers_subset<T: NothingBetween>(s: Seq<Interval<T>>, i: int, rem: Interval<T>)
    requires
        spec_covers(s, i, rem),
    ensures
        forall|v: T| rem.contains_spec(v) ==> seq_holds(s, v),
    decreases s.len() - i,
{
    lemma_le_total(rem.lower, s[i].lower);
    if s[i].upper.le_spec(rem.lower) {
        lemma_covers_subset(s, i + 1, rem);
    } else if !s[i].upper.lt_spec(rem.upper) {
        assert forall|v: T| rem.contains_spec(v) implies seq_holds(s, v) by {
            lemma_in_right_monotone(s[i].lower, rem.lower, v);
            if s[i].upper.in_right(v) {
                lemma_in_right_monotone(rem.upper, s[i].upper, v);
            }
            assert(s[i].contains_spec(v));
        }
    } else {
        let rem2 = Interval { lower: s[i].upper, upper: rem.upper };
        lemma_covers_subset(s, i + 1, rem2);
        assert forall|v: T| rem.contains_spec(v) implies seq_holds(s, v) by {
            if !s[i].upper.in_right(v) {
                lemma_in_right_monotone(s[i].lower, rem.lower, v);
                assert(s[i].contains_spec(v));
            } else {
                assert(rem2.contains_spec(v));
            }
        }
    }
}

/// The covering walk is complete for a remainder with finite cuts:
/// when every value of the remainder is held by the intervals still
/// ahead, the walk reports coverage.
pub proof fn lemma_covers_complete<T: NothingBetween>(
    s: Seq<Interval<T>>,
    i: int,
    rem: Interval<T>,
)
    requires
        seq_all_wf_nonempty(s),
        sorted_by_lower(s),
        0 <= i <= s.len(),
        !rem.is_empty_spec(),
        crate::bounds::spec_finite_cut(rem.lower),
        crate::bounds::spec_finite_cut(rem.upper),
        forall|v: T|
            #[trigger] rem.contains_spec(v) ==> exists|j: int|
                i <= j < s.len() && (#[trigger] s[j]).contains_spec(v),
    ensures
        spec_covers(s, i, rem),
    decreases s.len() - i,
{
    crate::bounds::lemma_finite_region_valued(rem.lower, rem.upper);
    let v0 = choose|v: T| rem.lower.in_right(v) && !(#[trigger] rem.upper.in_right(v));
    assert(rem.contains_spec(v0));
    assert(i < s.len());
    if rem.lower.lt_spec(s[i].lower) {
        // A finite, inhabited gap opens before the stored intervals:
        // its values cannot be covered.
        lemma_le_total(s[i].lower, rem.upper);
        let m = if s[i].lower.le_spec(rem.upper) {
            s[i].lower
        } else {
            rem.upper
        };
        crate::bounds::lemma_finite_region_valued(rem.lower, m);
        let w = choose|v: T| rem.lower.in_right(v) && !(#[trigger] m.in_right(v));
        lemma_le_total(rem.upper, rem.upper);
        if rem.upper.in_right(w) {
            lemma_in_right_monotone(m, rem.upper, w);
        }
        assert(rem.contains_spec(w));
        let j = choose|j: int| i <= j < s.len() && (#[trigger] s[j]).contains_spec(w);
        lemma_le_total(s[i].lower, s[i].lower);
        if j > i {
            lemma_le_trans(m, s[i].lower, s[j].lower);
        } else {
            assert(m.le_spec(s[j].lower));
        }
        lemma_in_right_monotone(m, s[j].lower, w);
        assert(false);
    } else if s[i].upper.le_spec(rem.lower) {
        // This stored interval ends before the remainder: no value of
        // the remainder is in it.
        assert forall|v: T| #[trigger] rem.contains_spec(v) implies exists|j: int|
            i + 1 <= j < s.len() && (#[trigger] s[j]).contains_spec(v) by {
            let j = choose|j: int| i <= j < s.len() && (#[trigger] s[j]).contains_spec(v);
            if j == i {
                lemma_in_right_monotone(s[i].upper, rem.lower, v);
                assert(false);
            }
        }
        lemma_covers_complete(s, i + 1, rem);
    } else if !s[i].upper.lt_spec(rem.upper) {
    } else {
        // The walk shrinks the remainder past this interval's upper
        // cut, which is finite since the remainder reaches beyond it.
        let rem2 = Interval { lower: s[i].upper, upper: rem.upper };
        assert(crate::bounds::spec_finite_cut(s[i].upper)) by {
            match s[i].upper {
                Bound::RightUnbounded => {
                    assert(rem.upper.le_spec(s[i].upper));
                    assert(false);
                }
                Bound::LeftUnbounded => {
                    assert(s[i].is_empty_spec());
                    assert(false);
                }
                _ => {
                }
            }
        }
        lemma_le_total(rem.lower, s[i].upper);
        assert forall|v: T| #[trigger] rem2.contains_spec(v) implies exists|j: int|
            i + 1 <= j < s.len() && (#[trigger] s[j]).contains_spec(v) by {
            lemma_in_right_monotone(rem.lower, s[i].upper, v);
            assert(rem.contains_spec(v));
            let j = choose|j: int| i <= j < s.len() && (#[trigger] s[j]).contains_spec(v);
            if j == i {
                assert(false);
            }
        }
        lemma_covers_complete(s, i + 1, rem2);
    }
}

impl<T: NothingBetween, P: Policy<T>> IntervalSet<T, P> {
    /// Whether the value is held by one of the stored intervals.
    pub fn contains(&self, value: T) -> (r: bool)
        requires
            self.wf(),
        ensures
            r == self.set_holds(value),
    {
        proof {
            lemma_set_ordered::<T, P>(self.intvs@);
        }
        let ghost s = self.intvs@;
        let mut i: usize = 0;
        while i < self.intvs.len()
            invariant
                self.wf(),
                s == self.intvs@,
                sorted_by_lower(s),
                i <= s.len(),
                forall|j: int| 0 <= j < i ==> !(#[trigger] s[j]).contains_spec(value),
            decreases self.intvs@.len() - i,
        {
            let intv = self.intvs[i];
            if !intv.lower.left_of(&value) {
                proof {
                    assert forall|j: int|
                        0 <= j < s.len() implies !(#[trigger] s[j]).contains_spec(value) by {
                        if j >= i && s[j].lower.in_right(value) {
                            lemma_in_right_monotone(s[i as int].lower, s[j].lower, value);
                        }
                    }
                }
                return false;
            }
            if intv.upper.right_of(&value) {
                proof {
                    assert(s[i as int].contains_spec(value));
                }
                return true;
            }
            i = i + 1;
        }
        false
    }

    /// Whether all values of the interval are held by the set: the
    /// stored intervals are walked left to right, shrinking the part of
    /// `other` not yet covered, failing on the first gap.  A positive
    /// verdict means every value is held; for a query whose cuts are
    /// both finite, full value coverage also forces a positive
    /// verdict, even across several adjacent stored intervals.
    pub fn contains_interval(&self, other: &Interval<T>) -> (r: bool)
        requires
            self.wf(),
        ensures
            r == (other.is_empty_spec() || spec_covers(self.intvs@, 0, *other)),
            r ==> forall|v: T| other.contains_spec(v) ==> self.set_holds(v),
            (self.wf() && !other.is_empty_spec() && other.spec_finite_cuts() && (forall|v: T|
                (#[trigger] other.contains_spec(v)) ==> self.set_holds(v))) ==> r,
    {
        let ghost complete = self.wf() && !other.is_empty_spec() && other.spec_finite_cuts()
            && (forall|v: T| (#[trigger] other.contains_spec(v)) ==> self.set_holds(v));
        proof {
            if complete {
                lemma_set_ordered::<T, P>(self.intvs@);
                lemma_covers_complete(self.intvs@, 0, *other);
            }
        }
        if other.is_empty() {
            proof {
                crate::intervals::lemma_empty_holds_nothing(*other);
            }
            return true;
        }
        let ghost s = self.intvs@;
        let mut rem = *other;
        let mut i: usize = 0;
        while i < self.intvs.len()
            invariant
                s == self.intvs@,
                i <= s.len(),
                !other.is_empty_spec(),
                complete ==> spec_covers(s, 0, *other),
                complete == (self.wf() && !other.is_empty_spec() && other.spec_finite_cuts() && (
                forall|v: T| (#[trigger] other.contains_spec(v)) ==> self.set_holds(v))),
                spec_covers(s, i as int, rem) == spec_covers(s, 0, *other),
                forall|v: T| rem.contains_spec(v) ==> other.contains_spec(v),
            decreases self.intvs@.len() - i,
        {
            let intv = self.intvs[i];
            if !intv.lower.le_bound(&rem.lower) {
                return false;
            }
            if intv.upper.le_bound(&rem.lower) {
                i = i + 1;
            } else if !rem.upper.le_bound(&intv.upper) {
                let next = Interval { lower: intv.upper, upper: rem.upper };
                proof {
                    lemma_le_total(rem.lower, intv.upper);
                    assert forall|v: T|
                        next.contains_spec(v) implies other.contains_spec(v) by {
                        lemma_in_right_monotone(rem.lower, intv.upper, v);
                    }
                }
                rem = next;
                i = i + 1;
            } else {
                proof {
                    lemma_covers_subset(s, 0, *other);
                }
                return true;
            }
        }
        false
    }

    /// The values of the set outside the given interval, as a new set.
    pub fn difference_interval(&self, intv: &Interval<T>) -> (r: Self)
        requires
            self.wf(),
        ensures
            r.wf(),
            forall|v: T| (#[trigger] r.set_holds(v)) == (self.set_holds(v) && !intv.contains_spec(v)),
            r.intvs@ == spec_merge_seq(
                policy_joins::<T, P>(),
                spec_sort_intv(spec_diff_pieces(self.intvs@, *intv)),
            ),
    {
        let ghost s = self.intvs@;
        let mut pieces: Vec<Interval<T>> = Vec::new();
        let mut i: usize = 0;
        proof {
            assert(s.take(0) =~= Seq::<Interval<T>>::empty());
        }
        while i < self.intvs.len()
            invariant
                s == self.intvs@,
                self.wf(),
                i <= s.len(),
                seq_all_wf_nonempty(pieces@),
                pieces@ == spec_diff_pieces(s.take(i as int), *intv),
                forall|v: T|
                    (#[trigger] seq_holds(pieces@, v)) == (seq_holds(s.take(i as int), v)
                        && !intv.contains_spec(v)),
            decreases self.intvs@.len() - i,
        {
            let e = self.intvs[i];
            let ghost prev = pieces@;
            proof {
                assert(s.take(i as int + 1) =~= s.take(i as int).push(e));
                assert(s.take(i as int + 1).drop_last() =~= s.take(i as int));
                assert(s.take(i as int + 1).last() == e);
                lemma_holds_push(s.take(i as int), e);
            }
            let d = e.difference(intv);
            match d {
                Pair::One(p) => {
                    proof {
                        lemma_holds_push(pieces@, p);
                        if p.is_empty_spec() {
                            crate::intervals::lemma_empty_holds_nothing(p);
                        }
                        lemma_le_total(p.lower, p.upper);
                        if !p.is_empty_spec() {
                            assert forall|v: T|
                                (#[trigger] seq_holds(pieces@.push(p), v)) == (seq_holds(
                                    s.take(i as int + 1),
                                    v,
                                ) && !intv.contains_spec(v)) by {
                                assert(d.pair_contains(v) == (e.contains_spec(v)
                                    && !intv.contains_spec(v)));
                                assert(seq_holds(pieces@, v) == (seq_holds(s.take(i as int), v)
                                    && !intv.contains_spec(v)));
                            }
                        } else {
                            assert forall|v: T|
                                (#[trigger] seq_holds(pieces@, v)) == (seq_holds(
                                    s.take(i as int + 1),
                                    v,
                                ) && !intv.contains_spec(v)) by {
                                assert(d.pair_contains(v) == (e.contains_spec(v)
                                    && !intv.contains_spec(v)));
                            }
                        }
                    }
                    proof {
                        if p.is_empty_spec() {
                            assert(prev + spec_pair_pieces(d) =~= prev);
                        } else {
                            assert(prev + spec_pair_pieces(d) =~= prev.push(p));
                        }
                    }
                    if !p.is_empty() {
                        pieces.push(p);
                    }
                }
                Pair::Two(p1, p2) => {
                    proof {
                        lemma_holds_push(pieces@, p1);
                        lemma_holds_push(pieces@.push(p1), p2);
                        lemma_le_total(p1.lower, p1.upper);
                        lemma_le_total(p2.lower, p2.upper);
                        assert forall|v: T|
                            (#[trigger] seq_holds(pieces@.push(p1).push(p2), v)) == (seq_holds(
                                s.take(i as int + 1),
                                v,
                            ) && !intv.contains_spec(v)) by {
                            assert(d.pair_contains(v) == (e.contains_spec(v)
                                && !intv.contains_spec(v)));
                            assert(seq_holds(pieces@, v) == (seq_holds(s.take(i as int), v)
                                && !intv.contains_spec(v)));
                        }
                    }
                    proof {
                        assert(prev + spec_pair_pieces(d) =~= prev.push(p1).push(p2));
                    }
                    pieces.push(p1);
                    pieces.push(p2);
                }
            }
            i = i + 1;
        }
        proof {
            assert(s.take(s.len() as int) =~= s);
        }
        let sorted = sort_intervals(pieces);
        proof {
            assert forall|a: int, b: int| 0 <= a < b < sorted@.len() implies (
            #[trigger] sorted@[a]).lower.le_spec((#[trigger] sorted@[b]).lower) by {
                lemma_le_intv_lower(sorted@[a], sorted@[b]);
            }
        }
        let mut out: Vec<Interval<T>> = Vec::new();
        P::merge(&mut out, sorted);
        proof {
            lemma_merge_fold_congruence(
                (|a: Interval<T>, b: Interval<T>| P::spec_joins(a, b)),
                policy_joins::<T, P>(),
                spec_leftmost_merge(Seq::<Interval<T>>::empty(), sorted@),
            );
            assert(spec_leftmost_merge(Seq::<Interval<T>>::empty(), sorted@) =~= sorted@);
        }
        IntervalSet { intvs: out, _policy: core::marker::PhantomData }
    }

    /// The values of the set except the given one, as a new set.
    pub fn difference(&self, value: T) -> (r: Self)
        requires
            self.wf(),
        ensures
            r.wf(),
            forall|v: T| (#[trigger] r.set_holds(v)) == (self.set_holds(v) && v != value),
            r.intvs@ == spec_merge_seq(
                policy_joins::<T, P>(),
                spec_sort_intv(
                    spec_diff_pieces(
                        self.intvs@,
                        Interval::spec_new_closed_closed(value, value),
                    ),
                ),
            ),
    {
        let single = Interval::new_single(value);
        let r = self.difference_interval(&single);
        proof {
            assert forall|v: T|
                (#[trigger] r.set_holds(v)) == (self.set_holds(v) && v != value) by {
                assert(r.set_holds(v) == (self.set_holds(v) && !single.contains_spec(v)));
            }
        }
        r
    }

    /// Removes from the set all values of the given interval.
    pub fn remove_interval(&mut self, intv: &Interval<T>)
        requires
            old(self).wf(),
        ensures
            final(self).wf(),
            forall|v: T|
                (#[trigger] final(self).set_holds(v)) == (old(self).set_holds(v)
                    && !intv.contains_spec(v)),
            final(self).intvs@ == spec_merge_seq(
                policy_joins::<T, P>(),
                spec_sort_intv(spec_diff_pieces(old(self).intvs@, *intv)),
            ),
    {
        let d = self.difference_interval(intv);
        proof {
            assert forall|v: T|
                (#[trigger] d.set_holds(v)) == (old(self).set_holds(v) && !intv.contains_spec(
                    v,
                )) by {
            }
        }
        self.intvs = d.intvs;
    }

    /// Removes a value from the set.
    pub fn remove(&mut self, value: T)
        requires
            old(self).wf(),
        ensures
            final(self).wf(),
            forall|v: T| (#[trigger] final(self).set_holds(v)) == (old(self).set_holds(v) && v != value),
            final(self).intvs@ == spec_merge_seq(
                policy_joins::<T, P>(),
                spec_sort_intv(
                    spec_diff_pieces(
                        old(self).intvs@,
                        Interval::spec_new_closed_closed(value, value),
                    ),
                ),
            ),
    {
        let single = Interval::new_single(value);
        self.remove_interval(&single);
        proof {
            assert forall|v: T|
                (#[trigger] final(self).set_holds(v)) == (old(self).set_holds(v) && v != value) by {
                assert(final(self).set_holds(v) == (old(self).set_holds(v)
                    && !single.contains_spec(v)));
            }
        }
    }

    /// Whether all values of the other set are held by this one: every
    /// stored interval of `self` is subtracted from a copy of `other`,
    /// and the copy must end empty.  The verdict is exactly the
    /// emptiness of that subtraction fold; when the other set's cuts
    /// are all finite, a negative verdict exhibits a value held by
    /// `other` and not by `self`.
    pub fn contains_set<P2: Policy<T>>(&self, other: &IntervalSet<T, P2>) -> (r: bool)
        requires
            self.wf(),
            other.wf(),
        ensures
            r == (spec_subtract_fold(
                policy_joins::<T, P2>(),
                self.intvs@,
                other.intvs@,
            ).len() == 0),
            r ==> forall|v: T| other.set_holds(v) ==> self.set_holds(v),
            !r ==> exists|w: Interval<T>|
                !(#[trigger] w.is_empty_spec()) && forall|v: T|
                    w.contains_spec(v) ==> (other.set_holds(v) && !self.set_holds(v)),
            (seq_all_finite_cuts(other.intvs@) && !r) ==> exists|v: T|
                #[trigger] other.set_holds(v) && !self.set_holds(v),
    {
        let ghost s = self.intvs@;
        let ghost pj2 = policy_joins::<T, P2>();
        let mut rem: IntervalSet<T, P2> = IntervalSet {
            intvs: copy_intervals(&other.intvs),
            _policy: core::marker::PhantomData,
        };
        let mut i: usize = 0;
        proof {
            assert(s.take(0) =~= Seq::<Interval<T>>::empty());
            assert(s.skip(0) =~= s);
        }
        while i < self.intvs.len()
            invariant
                s == self.intvs@,
                pj2 == policy_joins::<T, P2>(),
                self.wf(),
                i <= s.len(),
                rem.wf(),
                spec_subtract_fold(pj2, s.skip(i as int), rem.intvs@) == spec_subtract_fold(
                    pj2,
                    s,
                    other.intvs@,
                ),
                seq_all_finite_cuts(other.intvs@) ==> seq_all_finite_cuts(rem.intvs@),
                forall|v: T|
                    (#[trigger] rem.set_holds(v)) == (other.set_holds(v) && !seq_holds(
                        s.take(i as int),
                        v,
                    )),
            decreases self.intvs@.len() - i,
        {
            let e = self.intvs[i];
            let ghost prev = rem;
            proof {
                assert(s.take(i as int + 1) =~= s.take(i as int).push(e));
                lemma_holds_push(s.take(i as int), e);
                assert(s.skip(i as int)[0] == e);
                assert(s.skip(i as int).drop_first() =~= s.skip(i as int + 1));
            }
            rem.remove_interval(&e);
            proof {
                if seq_all_finite_cuts(other.intvs@) {
                    lemma_diff_pieces_finite(prev.intvs@, e);
                    lemma_sort_intv_finite(spec_diff_pieces(prev.intvs@, e));
                    lemma_merge_seq_finite(pj2, spec_sort_intv(spec_diff_pieces(prev.intvs@, e)));
                }
                assert forall|v: T|
                    (#[trigger] rem.set_holds(v)) == (other.set_holds(v) && !seq_holds(
                        s.take(i as int + 1),
                        v,
                    )) by {
                    assert(rem.set_holds(v) == (prev.set_holds(v) && !e.contains_spec(v)));
                    assert(prev.set_holds(v) == (other.set_holds(v) && !seq_holds(
                        s.take(i as int),
                        v,
                    )));
                }
            }
            i = i + 1;
        }
        proof {
            assert(s.take(s.len() as int) =~= s);
            assert(s.skip(s.len() as int) =~= Seq::<Interval<T>>::empty());
        }
        let r = rem.is_empty();
        proof {
            if r {
                assert forall|v: T| other.set_holds(v) implies self.set_holds(v) by {
                    assert(!rem.set_holds(v));
                }
            } else {
                let w = rem.intvs@[0];
                assert forall|v: T|
                    w.contains_spec(v) implies (other.set_holds(v) && !self.set_holds(v)) by {
                    assert(rem.set_holds(v));
                }
                assert(!w.is_empty_spec());
                if seq_all_finite_cuts(other.intvs@) {
                    // A finite-cut, non-empty remainder interval holds
                    // a value the other set has and this one lacks.
                    assert(w.spec_finite_cuts());
                    crate::bounds::lemma_finite_region_valued(w.lower, w.upper);
                    let v0 = choose|v: T| w.lower.in_right(v) && !(#[trigger] w.upper.in_right(v));
                    assert(w.contains_spec(v0));
                    assert(other.set_holds(v0) && !self.set_holds(v0));
                }
            }
        }
        r
    }

    /// The values held by both the set and the interval, as a new set.
    pub fn intersection_interval(&self, intv: &Interval<T>) -> (r: Self)
        requires
            self.wf(),
        ensures
            r.wf(),
            forall|v: T| (#[trigger] r.set_holds(v)) == (self.set_holds(v) && intv.contains_spec(v)),
            r.intvs@ == spec_merge_seq(
                policy_joins::<T, P>(),
                spec_sort_intv(spec_inter_pieces(self.intvs@, *intv)),
            ),
    {
        let ghost s = self.intvs@;
        let mut pieces: Vec<Interval<T>> = Vec::new();
        let mut i: usize = 0;
        proof {
            assert(s.take(0) =~= Seq::<Interval<T>>::empty());
        }
        while i < self.intvs.len()
            invariant
                s == self.intvs@,
                self.wf(),
                i <= s.len(),
                seq_all_wf_nonempty(pieces@),
                pieces@ == spec_inter_pieces(s.take(i as int), *intv),
                forall|v: T|
                    (#[trigger] seq_holds(pieces@, v)) == (seq_holds(s.take(i as int), v)
                        && intv.contains_spec(v)),
            decreases self.intvs@.len() - i,
        {
            let e = self.intvs[i];
            proof {
                assert(s.take(i as int + 1) =~= s.take(i as int).push(e));
                assert(s.take(i as int + 1).drop_last() =~= s.take(i as int));
                assert(s.take(i as int + 1).last() == e);
                lemma_holds_push(s.take(i as int), e);
            }
            let inter = e.intersection(intv);
            proof {
                lemma_holds_push(pieces@, inter);
                if inter.is_empty_spec() {
                    crate::intervals::lemma_empty_holds_nothing(inter);
                }
                lemma_le_total(inter.lower, inter.upper);
                if !inter.is_empty_spec() {
                    assert forall|v: T|
                        (#[trigger] seq_holds(pieces@.push(inter), v)) == (seq_holds(
                            s.take(i as int + 1),
                            v,
                        ) && intv.contains_spec(v)) by {
                        assert(inter.contains_spec(v) == (e.contains_spec(v)
                            && intv.contains_spec(v)));
                        assert(seq_holds(pieces@, v) == (seq_holds(s.take(i as int), v)
                            && intv.contains_spec(v)));
                    }
                } else {
                    assert forall|v: T|
                        (#[trigger] seq_holds(pieces@, v)) == (seq_holds(
                            s.take(i as int + 1),
                            v,
                        ) && intv.contains_spec(v)) by {
                        assert(inter.contains_spec(v) == (e.contains_spec(v)
                            && intv.contains_spec(v)));
                    }
                }
            }
            if !inter.is_empty() {
                pieces.push(inter);
            }
            i = i + 1;
        }
        proof {
            assert(s.take(s.len() as int) =~= s);
        }
        let sorted = sort_intervals(pieces);
        proof {
            assert forall|a: int, b: int| 0 <= a < b < sorted@.len() implies (
            #[trigger] sorted@[a]).lower.le_spec((#[trigger] sorted@[b]).lower) by {
                lemma_le_intv_lower(sorted@[a], sorted@[b]);
            }
        }
        let mut out: Vec<Interval<T>> = Vec::new();
        P::merge(&mut out, sorted);
        proof {
            lemma_merge_fold_congruence(
                (|a: Interval<T>, b: Interval<T>| P::spec_joins(a, b)),
                policy_joins::<T, P>(),
                spec_leftmost_merge(Seq::<Interval<T>>::empty(), sorted@),
            );
            assert(spec_leftmost_merge(Seq::<Interval<T>>::empty(), sorted@) =~= sorted@);
        }
        IntervalSet { intvs: out, _policy: core::marker::PhantomData }
    }

    /// The values held by both sets, as a new set.
    pub fn intersection_set<P2: Policy<T>>(&self, other: &IntervalSet<T, P2>) -> (r: Self)
        requires
            self.wf(),
            other.wf(),
        ensures
            r.wf(),
            forall|v: T| (#[trigger] r.set_holds(v)) == (self.set_holds(v) && other.set_holds(v)),
            r.intvs@ == spec_merge_seq(
                policy_joins::<T, P>(),
                spec_sort_intv(
                    spec_inter_set_pieces(policy_joins::<T, P2>(), self.intvs@, other.intvs@),
                ),
            ),
    {
        let ghost s = self.intvs@;
        let ghost pj2 = policy_joins::<T, P2>();
        let mut pieces: Vec<Interval<T>> = Vec::new();
        let mut i: usize = 0;
        proof {
            assert(s.take(0) =~= Seq::<Interval<T>>::empty());
        }
        while i < self.intvs.len()
            invariant
                s == self.intvs@,
                pj2 == policy_joins::<T, P2>(),
                self.wf(),
                other.wf(),
                i <= s.len(),
                seq_all_wf_nonempty(pieces@),
                pieces@ == spec_inter_set_pieces(pj2, s.take(i as int), other.intvs@),
                forall|v: T|
                    (#[trigger] seq_holds(pieces@, v)) == (seq_holds(s.take(i as int), v)
                        && other.set_holds(v)),
            decreases self.intvs@.len() - i,
        {
            let e = self.intvs[i];
            let ghost prev = pieces@;
            proof {
                assert(s.take(i as int + 1) =~= s.take(i as int).push(e));
                assert(s.take(i as int + 1).drop_last() =~= s.take(i as int));
                assert(s.take(i as int + 1).last() == e);
                lemma_holds_push(s.take(i as int), e);
            }
            let part = other.intersection_interval(&e);
            let mut pv = part.intvs;
            pieces.append(&mut pv);
            proof {
                lemma_holds_concat(prev, part.intvs@);
                assert forall|v: T|
                    (#[trigger] seq_holds(pieces@, v)) == (seq_holds(s.take(i as int + 1), v)
                        && other.set_holds(v)) by {
                    assert(seq_holds(prev + part.intvs@, v) == (seq_holds(prev, v) || seq_holds(
                        part.intvs@,
                        v,
                    )));
                    assert(part.set_holds(v) == (other.set_holds(v) && e.contains_spec(v)));
                    assert(seq_holds(prev, v) == (seq_holds(s.take(i as int), v)
                        && other.set_holds(v)));
                }
                assert forall|k: int| 0 <= k < pieces@.len() implies (
                #[trigger] pieces@[k]).wf() && !pieces@[k].is_empty_spec() by {
                    if k < prev.len() {
                        assert(prev[k].wf() && !prev[k].is_empty_spec());
                    } else {
                        assert(part.intvs@[k - prev.len()].wf());
                    }
                }
            }
            i = i + 1;
        }
        proof {
            assert(s.take(s.len() as int) =~= s);
        }
        let sorted = sort_intervals(pieces);
        proof {
            assert forall|a: int, b: int| 0 <= a < b < sorted@.len() implies (
            #[trigger] sorted@[a]).lower.le_spec((#[trigger] sorted@[b]).lower) by {
                lemma_le_intv_lower(sorted@[a], sorted@[b]);
            }
        }
        let mut out: Vec<Interval<T>> = Vec::new();
        P::merge(&mut out, sorted);
        proof {
            lemma_merge_fold_congruence(
                (|a: Interval<T>, b: Interval<T>| P::spec_joins(a, b)),
                policy_joins::<T, P>(),
                spec_leftmost_merge(Seq::<Interval<T>>::empty(), sorted@),
            );
            assert(spec_leftmost_merge(Seq::<Interval<T>>::empty(), sorted@) =~= sorted@);
        }
        IntervalSet { intvs: out, _policy: core::marker::PhantomData }
    }

    /// The smallest single interval holding all values of the set.
    pub fn convex_hull(&self) -> (r: Interval<T>)
        requires
            self.wf(),
        ensures
            r == (if self.intvs@.len() == 0 {
                Interval::<T>::spec_empty()
            } else {
                Interval::<T>::spec_from_bounds(
                    self.intvs@[0].lower,
                    self.intvs@.last().upper,
                )
            }),
            r.wf(),
            forall|v: T| (#[trigger] self.set_holds(v)) ==> r.contains_spec(v),
    {
        proof {
            lemma_set_ordered::<T, P>(self.intvs@);
        }
        let n = self.intvs.len();
        if n == 0 {
            proof {
                crate::intervals::lemma_empty_holds_nothing(Interval::<T>::spec_empty());
            }
            return Interval::empty();
        }
        let r = Interval::from_bounds(self.intvs[0].lower, self.intvs[n - 1].upper);
        proof {
            let s = self.intvs@;
            assert forall|v: T| self.set_holds(v) implies r.contains_spec(v) by {
                let j = choose|j: int| 0 <= j < s.len() && (#[trigger] s[j]).contains_spec(v);
                if j > 0 {
                    lemma_in_right_monotone(s[0].lower, s[j].lower, v);
                }
                lemma_le_total(s.last().lower, s.last().upper);
                if j < s.len() - 1 {
                    lemma_le_trans(s[j].upper, s.last().lower, s.last().upper);
                }
                lemma_le_total(s[j].upper, s[j].upper);
                if s.last().upper.in_right(v) {
                    lemma_in_right_monotone(s[j].upper, s.last().upper, v);
                }
                crate::bounds::lemma_value_between_cuts(s[0].lower, s.last().upper, v);
            }
        }
        r
    }

    /// Whether any value region is shared with the interval.
    pub fn intersects_interval(&self, other: &Interval<T>) -> (r: bool)
        ensures
            r == exists|i: int|
                0 <= i < self.intvs@.len() && (#[trigger] self.intvs@[i]).spec_intersects(
                    *other,
                ),
    {
        let mut i: usize = 0;
        while i < self.intvs.len()
            invariant
                i <= self.intvs@.len(),
                forall|j: int|
                    0 <= j < i ==> !(#[trigger] self.intvs@[j]).spec_intersects(*other),
            decreases self.intvs@.len() - i,
        {
            if self.intvs[i].intersects(other) {
                return true;
            }
            i = i + 1;
        }
        false
    }

    /// Whether any value region is shared with the other set.
    pub fn intersects_set<P2: Policy<T>>(&self, other: &IntervalSet<T, P2>) -> (r: bool)
        ensures
            r == exists|i: int, j: int|
                0 <= i < self.intvs@.len() && 0 <= j < other.intvs@.len() && (
                #[trigger] other.intvs@[j]).spec_intersects(#[trigger] self.intvs@[i]),
    {
        let mut i: usize = 0;
        while i < self.intvs.len()
            invariant
                i <= self.intvs@.len(),
                forall|ii: int, j: int|
                    0 <= ii < i && 0 <= j < other.intvs@.len() ==> !(
                    #[trigger] other.intvs@[j]).spec_intersects(#[trigger] self.intvs@[ii]),
            decreases self.intvs@.len() - i,
        {
            if other.intersects_interval(&self.intvs[i]) {
                return true;
            }
            i = i + 1;
        }
        false
    }

    /// Whether every value of the set is at most `x`; true for an
    /// empty set.
    pub fn left_of(&self, x: T) -> (r: bool)
        ensures
            r == (self.intvs@.len() == 0 || self.intvs@.last().upper.le_spec(
                Bound::RightOf(x),
            )),
    {
        if self.intvs.len() == 0 {
            true
        } else {
            self.intvs[self.intvs.len() - 1].left_of(x)
        }
    }

    /// Whether every value of the set is strictly less than `x`; true
    /// for an empty set.
    pub fn strictly_left_of(&self, x: T) -> (r: bool)
        ensures
            r == (self.intvs@.len() == 0 || self.intvs@.last().upper.in_right(x)),
    {
        if self.intvs.len() == 0 {
            true
        } else {
            self.intvs[self.intvs.len() - 1].strictly_left_of(x)
        }
    }

    /// Whether every value of the set is at most every value of the
    /// interval; true if either side is empty.
    pub fn left_of_interval(&self, other: &Interval<T>) -> (r: bool)
        ensures
            r == (self.intvs@.len() == 0 || self.intvs@.last().spec_left_of_interval(*other)),
    {
        if self.intvs.len() == 0 {
            true
        } else {
            self.intvs[self.intvs.len() - 1].left_of_interval(other)
        }
    }

    /// Whether every value of the set is strictly less than every
    /// value of the interval; true if either side is empty.
    pub fn strictly_left_of_interval(&self, other: &Interval<T>) -> (r: bool)
        ensures
            r == (self.intvs@.len() == 0 || self.intvs@.last().upper.le_spec(other.lower)),
    {
        if self.intvs.len() == 0 {
            true
        } else {
            self.intvs[self.intvs.len() - 1].strictly_left_of_interval(other)
        }
    }

    /// Whether every value of the set is at most every value of the
    /// other set; true if either set is empty.
    pub fn left_of_set<P2: Policy<T>>(&self, other: &IntervalSet<T, P2>) -> (r: bool)
        ensures
            r == (other.intvs@.len() == 0 || self.intvs@.len() == 0
                || self.intvs@.last().spec_left_of_interval(other.intvs@[0])),
    {
        if other.intvs.len() == 0 {
            true
        } else {
            self.left_of_interval(&other.intvs[0])
        }
    }

    /// Whether `x` is at most every value of the set; true for an
    /// empty set.
    pub fn right_of(&self, x: T) -> (r: bool)
        ensures
            r == (self.intvs@.len() == 0 || Bound::LeftOf(x).le_spec(self.intvs@[0].lower)),
    {
        if self.intvs.len() == 0 {
            true
        } else {
            self.intvs[0].right_of(x)
        }
    }

    /// Whether `x` is strictly less than every value of the set; true
    /// for an empty set.
    pub fn strictly_right_of(&self, x: T) -> (r: bool)
        ensures
            r == (self.intvs@.len() == 0 || !self.intvs@[0].lower.in_right(x)),
    {
        if self.intvs.len() == 0 {
            true
        } else {
            self.intvs[0].strictly_right_of(x)
        }
    }

    /// Whether every value of the set is at least every value of the
    /// interval; true if either side is empty.
    pub fn right_of_interval(&self, other: &Interval<T>) -> (r: bool)
        ensures
            r == (self.intvs@.len() == 0 || other.spec_left_of_interval(self.intvs@[0])),
    {
        if self.intvs.len() == 0 {
            true
        } else {
            self.intvs[0].right_of_interval(other)
        }
    }

    /// Whether every value of the set is at least every value of the
    /// other set; true if either set is empty.
    pub fn right_of_set<P2: Policy<T>>(&self, other: &IntervalSet<T, P2>) -> (r: bool)
        ensures
            r == (self.intvs@.len() == 0 || other.intvs@.len() == 0
                || other.intvs@.last().spec_left_of_interval(self.intvs@[0])),
    {
        if self.intvs.len() == 0 {
            true
        } else {
            other.left_of_set(self)
        }
    }

    /// Whether the two sets store equivalent intervals position by
    /// position.  Two sets built by the same policy from the same
    /// values always store the same canonical form, so this compares
    /// the values they hold.
    pub fn equivalent(&self, other: &Self) -> (r: bool)
        ensures
            r == (self.intvs@.len() == other.intvs@.len() && forall|i: int|
                0 <= i < self.intvs@.len() ==> (#[trigger] self.intvs@[i]).spec_equivalent(
                    other.intvs@[i],
                )),
    {
        if self.intvs.len() != other.intvs.len() {
            return false;
        }
        let mut i: usize = 0;
        while i < self.intvs.len()
            invariant
                self.intvs@.len() == other.intvs@.len(),
                i <= self.intvs@.len(),
                forall|j: int|
                    0 <= j < i ==> (#[trigger] self.intvs@[j]).spec_equivalent(other.intvs@[j]),
            decreases self.intvs@.len() - i,
        {
            if !self.intvs[i].equivalent(&other.intvs[i]) {
                return false;
            }
            i = i + 1;
        }
        true
    }

    /// Builds a set from the one or two intervals of a difference
    /// result, which are already ordered with a lawful gap.
    pub fn from_pair(pair: Pair<T>) -> (r: Self)
        requires
            pair matches Pair::One(p) ==> p.wf(),
            pair matches Pair::Two(p1, p2) ==> p1.wf() && p2.wf() && !p1.is_empty_spec()
                && !p2.is_empty_spec() && P::spec_gap_ok(p1, p2),
        ensures
            r.wf(),
            forall|v: T| (#[trigger] r.set_holds(v)) == pair.pair_contains(v),
    {
        let mut intvs: Vec<Interval<T>> = Vec::new();
        match pair {
            Pair::One(p) => {
                proof {
                    lemma_holds_push(Seq::<Interval<T>>::empty(), p);
                    if p.is_empty_spec() {
                        crate::intervals::lemma_empty_holds_nothing(p);
                    }
                }
                if !p.is_empty() {
                    intvs.push(p);
                }
            }
            Pair::Two(p1, p2) => {
                proof {
                    lemma_holds_push(Seq::<Interval<T>>::empty(), p1);
                    lemma_holds_push(seq![p1], p2);
                }
                intvs.push(p1);
                intvs.push(p2);
            }
        }
        IntervalSet { intvs, _policy: core::marker::PhantomData }
    }
}

/// Sets that store equivalent intervals position by position hold
/// exactly the same values.
pub proof fn lemma_equivalent_sets_same_values<T: NothingBetween, P: Policy<T>, P2: Policy<T>>(
    a: IntervalSet<T, P>,
    b: IntervalSet<T, P2>,
)
    requires
        a.intvs@.len() == b.intvs@.len(),
        forall|i: int|
            0 <= i < a.intvs@.len() ==> (#[trigger] a.intvs@[i]).spec_equivalent(b.intvs@[i]),
    ensures
        forall|v: T| a.set_holds(v) == b.set_holds(v),
{
    assert forall|v: T| a.set_holds(v) == b.set_holds(v) by {
        if a.set_holds(v) {
            let i = choose|i: int|
                0 <= i < a.intvs@.len() && (#[trigger] a.intvs@[i]).contains_spec(v);
            crate::intervals::lemma_equivalent_same_values(a.intvs@[i], b.intvs@[i]);
            assert(b.intvs@[i].contains_spec(v));
        }
        if b.set_holds(v) {
            let i = choose|i: int|
                0 <= i < b.intvs@.len() && (#[trigger] b.intvs@[i]).contains_spec(v);
            crate::intervals::lemma_equivalent_same_values(a.intvs@[i], b.intvs@[i]);
            assert(a.intvs@[i].contains_spec(v));
        }
    }
}

/// Copies a sequence of intervals into a fresh vector.
pub(crate) fn copy_intervals<T: NothingBetween>(src: &Vec<Interval<T>>) -> (r: Vec<Interval<T>>)
    ensures
        r@ == src@,
{
    let mut out: Vec<Interval<T>> = Vec::new();
    let mut i: usize = 0;
    while i < src.len()
        invariant
            i <= src@.len(),
            out@ == src@.take(i as int),
        decreases src@.len() - i,
    {
        proof {
            assert(src@.take(i as int + 1) =~= src@.take(i as int).push(src@[i as int]));
        }
        out.push(src[i]);
        i = i + 1;
    }
    proof {
        assert(src@.take(src@.len() as int) =~= src@);
    }
    out
}

impl<T: NothingBetween, P: Policy<T>> PartialEq for IntervalSet<T, P> {
    /// Two sets are equal when they store equivalent intervals in the
    /// same positions.
    fn eq(&self, other: &Self) -> (r: bool) {
        self.equivalent(other)
    }
}

impl<T: NothingBetween, P: Policy<T>> vstd::std_specs::cmp::PartialEqSpecImpl for IntervalSet<T, P> {
    open spec fn obeys_eq_spec() -> bool {
        true
    }

    open spec fn eq_spec(&self, other: &Self) -> bool {
        self.intvs@.len() == other.intvs@.len() && forall|i: int|
            0 <= i < self.intvs@.len() ==> (#[trigger] self.intvs@[i]).spec_equivalent(
                other.intvs@[i],
            )
    }
}

impl<T: NothingBetween, P: Policy<T>> Default for IntervalSet<T, P> {
    /// The empty interval set.
    fn default() -> (r: Self)
        ensures
            r.wf(),
            r.intvs@.len() == 0,
    {
        IntervalSet { intvs: Vec::new(), _policy: core::marker::PhantomData }
    }
}

} // verus!
