use crate::bounds::{lemma_le_total, lemma_le_trans};
use crate::intervals::Interval;
use crate::multi::{
    lemma_gapped_sorted, lemma_leftmost_merge_after_gap, lemma_leftmost_merge_holds,
    lemma_leftmost_merge_sorted, lemma_merge_fold_congruence, lemma_merge_seq_of_prefix,
    merge_sorted, opt_holds, seq_all_wf_nonempty, seq_holds, sorted_by_lower, spec_leftmost_merge,
    spec_merge_fold, spec_merge_seq, Policy,
};
use crate::nothing_between::NothingBetween;
use vstd::prelude::*;

verus! {

/// The join judgement of the `Joining` policy, as a value the fold
/// specifications can carry: absorb whatever overlaps or touches.
pub open spec fn joining_joins<T: NothingBetween>() -> spec_fn(Interval<T>, Interval<T>) -> bool {
    |a: Interval<T>, b: Interval<T>| a.spec_contiguous(b)
}

/// The merge policy that coalesces intervals which overlap or merely
/// touch: adding `[1,3)` and `[3,5)` stores the single `[1,5)`.
#[derive(Clone, Copy, Debug)]
pub struct Joining;

impl Joining {
    /// Folds a batch, ordered by lower cuts and entirely right of the
    /// stored intervals with a gap, into the stored sequence.
    #[verifier::rlimit(100)]
    fn do_merge<T: NothingBetween>(vec: &mut Vec<Interval<T>>, elements: Vec<Interval<T>>)
        requires
            seq_all_wf_nonempty(old(vec)@),
            forall|i: int, j: int|
                0 <= i && j == i + 1 && j < old(vec)@.len() ==> (#[trigger] old(vec)@[i]).upper.lt_spec(
                    (#[trigger] old(vec)@[j]).lower,
                ),
            sorted_by_lower(elements@),
            seq_all_wf_nonempty(elements@),
            old(vec)@.len() > 0 ==> forall|j: int|
                0 <= j < elements@.len() ==> old(vec)@.last().upper.lt_spec(
                    (#[trigger] elements@[j]).lower,
                ),
        ensures
            seq_all_wf_nonempty(final(vec)@),
            forall|i: int, j: int|
                0 <= i && j == i + 1 && j < final(vec)@.len() ==> (#[trigger] final(vec)@[i]).upper.lt_spec(
                    (#[trigger] final(vec)@[j]).lower,
                ),
            forall|v: T|
                (#[trigger] seq_holds(final(vec)@, v)) == (seq_holds(old(vec)@, v) || seq_holds(
                    elements@,
                    v,
                )),
            final(vec)@ == old(vec)@ + spec_merge_seq(joining_joins::<T>(), elements@),
    {
        let ghost base = vec@;
        let ghost jn = joining_joins::<T>();
        let mut to_insert: Option<Interval<T>> = None;
        let mut idx: usize = 0;
        proof {
            assert(elements@.take(0) =~= Seq::<Interval<T>>::empty());
        }
        while idx < elements.len()
            invariant
                jn == joining_joins::<T>(),
                idx <= elements.len(),
                sorted_by_lower(elements@),
                seq_all_wf_nonempty(elements@),
                base.len() > 0 ==> forall|j: int|
                    0 <= j < elements@.len() ==> base.last().upper.lt_spec(
                        (#[trigger] elements@[j]).lower,
                    ),
                seq_all_wf_nonempty(vec@),
                forall|i: int, j: int|
                    0 <= i && j == i + 1 && j < vec@.len() ==> (#[trigger] vec@[i]).upper.lt_spec(
                        (#[trigger] vec@[j]).lower,
                    ),
                to_insert matches Some(ins) ==> ins.wf() && !ins.is_empty_spec(),
                to_insert matches Some(ins) ==> (vec@.len() > 0 ==> vec@.last().upper.lt_spec(
                    ins.lower,
                )),
                to_insert matches Some(ins) ==> forall|j: int|
                    idx <= j < elements@.len() ==> ins.lower.le_spec(
                        (#[trigger] elements@[j]).lower,
                    ),
                to_insert is None ==> idx == 0 && vec@ == base,
                idx > 0 ==> to_insert is Some,
                base.len() <= vec@.len() && vec@.subrange(0, base.len() as int) == base,
                to_insert matches Some(ins) ==> spec_merge_seq(jn, elements@) == vec@.skip(
                    base.len() as int,
                ) + spec_merge_fold(jn, ins, elements@.skip(idx as int)),
                forall|v: T|
                    (#[trigger] seq_holds(vec@, v) || opt_holds(to_insert, v)) == (seq_holds(
                        base,
                        v,
                    ) || seq_holds(elements@.take(idx as int), v)),
            decreases elements.len() - idx,
        {
            let e = elements[idx];
            let ghost prev_vec = vec@;
            proof {
                assert(elements@.take(idx as int + 1) =~= elements@.take(idx as int).push(e));
                crate::multi::lemma_holds_push(elements@.take(idx as int), e);
                lemma_le_total(e.lower, e.lower);
                lemma_le_total(e.lower, e.upper);
            }
            match to_insert {
                None => {
                    proof {
                        if vec@.len() > 0 {
                            assert(base.last().upper.lt_spec(elements@[idx as int].lower));
                        }
                        assert forall|v: T|
                            (seq_holds(vec@, v) || e.contains_spec(v)) == (seq_holds(base, v)
                                || seq_holds(elements@.take(idx as int + 1), v)) by {
                        }
                        assert(elements@[0] == e);
                        assert(elements@.skip(1) =~= elements@.drop_first());
                        assert(vec@.skip(base.len() as int) =~= Seq::<Interval<T>>::empty());
                        assert(Seq::<Interval<T>>::empty() + spec_merge_fold(
                            jn,
                            e,
                            elements@.drop_first(),
                        ) =~= spec_merge_fold(jn, e, elements@.drop_first()));
                        assert(vec@.subrange(0, base.len() as int) =~= base);
                    }
                    to_insert = Some(e);
                }
                Some(ins) => {
                    match ins.union(&e) {
                        None => {
                            proof {
                                // No union: the accumulator ends
                                // strictly before e, and before all the
                                // batch still to come.
                                if e.lower.le_spec(ins.upper) {
                                    lemma_le_trans(ins.lower, e.lower, e.upper);
                                }
                                assert(ins.upper.lt_spec(e.lower));
                                assert forall|j: int|
                                    idx <= j < elements@.len() implies ins.upper.lt_spec(
                                    (#[trigger] elements@[j]).lower,
                                ) by {
                                    if elements@[j].lower.le_spec(ins.upper) {
                                        lemma_le_trans(
                                            e.lower,
                                            elements@[j].lower,
                                            ins.upper,
                                        );
                                    }
                                }
                                crate::multi::lemma_holds_push(vec@, ins);
                                assert forall|v: T|
                                    (seq_holds(vec@.push(ins), v) || e.contains_spec(v)) == (
                                    seq_holds(base, v) || seq_holds(
                                        elements@.take(idx as int + 1),
                                        v,
                                    )) by {
                                    assert((#[trigger] seq_holds(vec@, v) || opt_holds(
                                        to_insert,
                                        v,
                                    )) == (seq_holds(base, v) || seq_holds(
                                        elements@.take(idx as int),
                                        v,
                                    )));
                                    assert(opt_holds(to_insert, v) == ins.contains_spec(v));
                                    assert(seq_holds(vec@.push(ins), v) == (seq_holds(vec@, v)
                                        || ins.contains_spec(v)));
                                    assert((seq_holds(vec@, v) || ins.contains_spec(v)) == (
                                    seq_holds(base, v) || seq_holds(
                                        elements@.take(idx as int),
                                        v,
                                    )));
                                    assert(seq_holds(elements@.take(idx as int + 1), v) == (
                                    seq_holds(elements@.take(idx as int), v) || e.contains_spec(
                                        v,
                                    )));
                                }
                                assert(!jn(ins, e));
                                assert(elements@.skip(idx as int)[0] == e);
                                assert(elements@.skip(idx as int).drop_first() =~= elements@.skip(
                                    idx as int + 1,
                                ));
                                assert(spec_merge_fold(jn, ins, elements@.skip(idx as int))
                                    == seq![ins] + spec_merge_fold(
                                    jn,
                                    e,
                                    elements@.skip(idx as int + 1),
                                ));
                                assert(vec@.push(ins).skip(base.len() as int) =~= vec@.skip(
                                    base.len() as int,
                                ).push(ins));
                                assert(vec@.skip(base.len() as int).push(ins)
                                    + spec_merge_fold(jn, e, elements@.skip(idx as int + 1))
                                    =~= vec@.skip(base.len() as int) + (seq![ins]
                                    + spec_merge_fold(jn, e, elements@.skip(idx as int + 1))));
                                assert(vec@.push(ins).subrange(0, base.len() as int)
                                    =~= vec@.subrange(0, base.len() as int));
                            }
                            vec.push(ins);
                            to_insert = Some(e);
                        }
                        Some(u) => {
                            proof {
                                // The union keeps the accumulator's
                                // lower cut and stays non-empty, so
                                // every earlier fact about it survives.
                                let maxu = crate::bounds::max_bound_spec(ins.upper, e.upper);
                                lemma_le_total(ins.upper, e.upper);
                                lemma_le_total(ins.upper, ins.upper);
                                if maxu.le_spec(ins.lower) {
                                    lemma_le_trans(ins.upper, maxu, ins.lower);
                                }
                                assert(ins.lower.lt_spec(maxu));
                                assert(u.lower == ins.lower);
                                assert(!u.is_empty_spec());
                                assert(jn(ins, e));
                                assert(u == ins.spec_convex_hull(e));
                                assert(elements@.skip(idx as int)[0] == e);
                                assert(elements@.skip(idx as int).drop_first() =~= elements@.skip(
                                    idx as int + 1,
                                ));
                                assert(spec_merge_fold(jn, ins, elements@.skip(idx as int))
                                    == spec_merge_fold(jn, u, elements@.skip(idx as int + 1)));
                                assert forall|v: T|
                                    (seq_holds(vec@, v) || u.contains_spec(v)) == (seq_holds(
                                        base,
                                        v,
                                    ) || seq_holds(elements@.take(idx as int + 1), v)) by {
                                    assert(u.contains_spec(v) == (ins.contains_spec(v)
                                        || e.contains_spec(v)));
                                    assert((#[trigger] seq_holds(vec@, v) || opt_holds(
                                        to_insert,
                                        v,
                                    )) == (seq_holds(base, v) || seq_holds(
                                        elements@.take(idx as int),
                                        v,
                                    )));
                                    assert(opt_holds(to_insert, v) == ins.contains_spec(v));
                                    assert((seq_holds(vec@, v) || ins.contains_spec(v)) == (
                                    seq_holds(base, v) || seq_holds(
                                        elements@.take(idx as int),
                                        v,
                                    )));
                                    assert(seq_holds(elements@.take(idx as int + 1), v) == (
                                    seq_holds(elements@.take(idx as int), v) || e.contains_spec(
                                        v,
                                    )));
                                }
                            }
                            to_insert = Some(u);
                        }
                    }
                }
            }
            idx = idx + 1;
        }
        proof {
            assert(elements@.take(idx as int) =~= elements@);
        }
        if let Some(ins) = to_insert {
            proof {
                crate::multi::lemma_holds_push(vec@, ins);
                assert forall|v: T|
                    seq_holds(vec@.push(ins), v) == (seq_holds(base, v) || seq_holds(
                        elements@,
                        v,
                    )) by {
                    assert((#[trigger] seq_holds(vec@, v) || opt_holds(to_insert, v)) == (
                    seq_holds(base, v) || seq_holds(elements@.take(idx as int), v)));
                    assert(seq_holds(vec@.push(ins), v) == (seq_holds(vec@, v)
                        || ins.contains_spec(v)));
                }
                assert(elements@.skip(idx as int) =~= Seq::<Interval<T>>::empty());
                assert(spec_merge_fold(jn, ins, elements@.skip(idx as int)) == seq![ins]);
                assert(vec@.push(ins).skip(base.len() as int) =~= vec@.skip(base.len() as int)
                    + seq![ins]);
                assert(vec@.push(ins).subrange(0, base.len() as int) =~= vec@.subrange(
                    0,
                    base.len() as int,
                ));
            }
            vec.push(ins);
        } else {
            proof {
                assert(elements@.len() == 0);
                assert(spec_merge_seq(jn, elements@) =~= Seq::<Interval<T>>::empty());
            }
        }
        proof {
            assert(base == old(vec)@);
            assert forall|v: T|
                seq_holds(vec@, v) == (seq_holds(old(vec)@, v) || seq_holds(elements@, v)) by {
                if elements@.len() == 0 {
                    assert(!seq_holds(elements@, v));
                }
            }
            assert(vec@ =~= vec@.subrange(0, base.len() as int) + vec@.skip(base.len() as int));
            assert(vec@ =~= base + spec_merge_seq(jn, elements@));
        }
    }
}

impl<T: NothingBetween> Policy<T> for Joining {
    /// Under Joining, consecutive stored intervals leave a real gap:
    /// even a mere touch would have been coalesced.
    open spec fn spec_gap_ok(prev: Interval<T>, next: Interval<T>) -> bool {
        prev.upper.lt_spec(next.lower)
    }

    proof fn lemma_gap_ok_le(prev: Interval<T>, next: Interval<T>) {
        lemma_le_total(prev.upper, next.lower);
    }

    proof fn lemma_gap_ok_mono(prev: Interval<T>, e: Interval<T>, e2: Interval<T>) {
        if e2.lower.le_spec(prev.upper) {
            lemma_le_trans(e.lower, e2.lower, prev.upper);
        }
    }

    /// The fold absorbs whatever overlaps or merely touches.
    open spec fn spec_joins(prev: Interval<T>, next: Interval<T>) -> bool {
        prev.spec_contiguous(next)
    }

    proof fn lemma_gap_ok_no_join(prev: Interval<T>, next: Interval<T>) {
    }

    fn merge(vec: &mut Vec<Interval<T>>, elements: Vec<Interval<T>>) {
        let ghost base0 = vec@;
        let ghost jn = joining_joins::<T>();
        let ghost js = (|a: Interval<T>, b: Interval<T>| Self::spec_joins(a, b));
        let ghost els = elements@;
        proof {
            assert forall|i: int, j: int|
                0 <= i && j == i + 1 && j < vec@.len() implies (#[trigger] vec@[i]).upper.lt_spec(
                (#[trigger] vec@[j]).lower,
            ) by {
                assert(Self::spec_gap_ok(vec@[i], vec@[j]));
            }
            // The stored sequence never re-coalesces: consecutive
            // stored intervals have a real gap.
            assert forall|i: int|
                0 <= i && i + 1 < base0.len() implies !(#[trigger] jn(base0[i], base0[i + 1])) by {
                assert(!base0[i].is_empty_spec() && !base0[i + 1].is_empty_spec());
                assert(base0[i].upper.lt_spec(base0[i + 1].lower));
            }
            assert(forall|a: Interval<T>, b: Interval<T>| #[trigger] jn(a, b) == js(a, b));
        }
        if elements.len() == 0 {
            proof {
                assert(spec_leftmost_merge(base0, els) =~= base0);
                assert(base0 + Seq::<Interval<T>>::empty() =~= base0);
                lemma_merge_seq_of_prefix(jn, base0, Seq::<Interval<T>>::empty());
                assert(spec_merge_seq(jn, Seq::<Interval<T>>::empty())
                    =~= Seq::<Interval<T>>::empty());
                assert(spec_merge_seq(jn, base0) =~= base0);
                lemma_merge_fold_congruence(jn, js, spec_leftmost_merge(base0, els));
            }
            return ;
        }
        let n = vec.len();
        if n == 0 {
            Self::do_merge(vec, elements);
            proof {
                assert(spec_leftmost_merge(base0, els) =~= els);
                assert(base0 + spec_merge_seq(jn, els) =~= spec_merge_seq(jn, els));
                lemma_merge_fold_congruence(jn, js, spec_leftmost_merge(base0, els));
            }
            return ;
        }
        let gap = vec[n - 1].strictly_left_not_contiguous(&elements[0]);
        if gap {
            Self::append_after_gap(vec, elements);
            proof {
                // The batch lies wholly right of storage, with a gap:
                // the two-way merge is plain concatenation, and the
                // fold emits the stored prefix unchanged.
                assert forall|i: int, j: int|
                    0 <= i && j == i + 1 && j < base0.len() implies (
                #[trigger] base0[i]).upper.le_spec((#[trigger] base0[j]).lower) by {
                    lemma_le_total(base0[i].upper, base0[j].lower);
                }
                lemma_gapped_sorted(base0);
                assert forall|i: int, j: int|
                    0 <= i < base0.len() && 0 <= j < els.len() implies (
                #[trigger] base0[i]).upper.le_spec((#[trigger] els[j]).lower) by {
                    // Chain through the last stored interval and the
                    // first of the batch.
                    lemma_le_total(base0[i].upper, base0[i].upper);
                    lemma_le_total(base0.last().lower, base0.last().upper);
                    if i < base0.len() - 1 {
                        lemma_le_trans(base0[i].upper, base0.last().lower, base0.last().upper);
                    }
                    lemma_le_total(base0.last().upper, els[0].lower);
                    lemma_le_trans(base0[i].upper, base0.last().upper, els[0].lower);
                    if j > 0 {
                        lemma_le_trans(base0[i].upper, els[0].lower, els[j].lower);
                    }
                }
                lemma_leftmost_merge_after_gap(base0, els);
                assert(!jn(base0.last(), els[0]));
                lemma_merge_seq_of_prefix(jn, base0, els);
                assert(spec_merge_seq(jn, base0 + els) == base0 + spec_merge_seq(jn, els));
                lemma_merge_fold_congruence(jn, js, spec_leftmost_merge(base0, els));
            }
        } else {
            Self::rebuild(vec, elements);
            proof {
                lemma_merge_fold_congruence(jn, js, spec_leftmost_merge(base0, els));
            }
        }
    }
}

impl Joining {
    /// Appends a batch that begins past the stored intervals, with a
    /// gap after the last of them.
    fn append_after_gap<T: NothingBetween>(vec: &mut Vec<Interval<T>>, elements: Vec<Interval<T>>)
        requires
            seq_all_wf_nonempty(old(vec)@),
            forall|i: int, j: int|
                0 <= i && j == i + 1 && j < old(vec)@.len() ==> (#[trigger] old(vec)@[i]).upper.lt_spec(
                    (#[trigger] old(vec)@[j]).lower,
                ),
            sorted_by_lower(elements@),
            seq_all_wf_nonempty(elements@),
            old(vec)@.len() > 0,
            elements@.len() > 0,
            old(vec)@.last().upper.lt_spec(elements@[0].lower),
        ensures
            seq_all_wf_nonempty(final(vec)@),
            forall|i: int, j: int|
                0 <= i && j == i + 1 && j < final(vec)@.len() ==> (#[trigger] final(vec)@[i]).upper.lt_spec(
                    (#[trigger] final(vec)@[j]).lower,
                ),
            forall|v: T|
                (#[trigger] seq_holds(final(vec)@, v)) == (seq_holds(old(vec)@, v) || seq_holds(
                    elements@,
                    v,
                )),
            final(vec)@ == old(vec)@ + spec_merge_seq(joining_joins::<T>(), elements@),
    {
        let ghost base = vec@;
        proof {
            assert forall|j: int|
                0 <= j < elements@.len() implies base.last().upper.lt_spec(
                (#[trigger] elements@[j]).lower,
            ) by {
                if elements@[j].lower.le_spec(base.last().upper) {
                    lemma_le_trans(elements@[0].lower, elements@[j].lower, base.last().upper);
                }
            }
        }
        Self::do_merge(vec, elements);
    }

    /// Rebuilds the stored sequence by streaming it, merged with the
    /// batch, through the coalescing fold.
    #[verifier::rlimit(100)]
    fn rebuild<T: NothingBetween>(vec: &mut Vec<Interval<T>>, elements: Vec<Interval<T>>)
        requires
            seq_all_wf_nonempty(old(vec)@),
            forall|i: int, j: int|
                0 <= i && j == i + 1 && j < old(vec)@.len() ==> (#[trigger] old(vec)@[i]).upper.lt_spec(
                    (#[trigger] old(vec)@[j]).lower,
                ),
            sorted_by_lower(elements@),
            seq_all_wf_nonempty(elements@),
        ensures
            seq_all_wf_nonempty(final(vec)@),
            forall|i: int, j: int|
                0 <= i && j == i + 1 && j < final(vec)@.len() ==> (#[trigger] final(vec)@[i]).upper.lt_spec(
                    (#[trigger] final(vec)@[j]).lower,
                ),
            forall|v: T|
                (#[trigger] seq_holds(final(vec)@, v)) == (seq_holds(old(vec)@, v) || seq_holds(
                    elements@,
                    v,
                )),
            final(vec)@ == spec_merge_seq(
                joining_joins::<T>(),
                spec_leftmost_merge(old(vec)@, elements@),
            ),
    {
        let ghost base = vec@;
        proof {
            assert forall|i: int, j: int|
                0 <= i && j == i + 1 && j < base.len() implies (#[trigger] base[i]).upper.le_spec(
                (#[trigger] base[j]).lower,
            ) by {
                lemma_le_total(base[i].upper, base[j].lower);
            }
            lemma_gapped_sorted(base);
            lemma_leftmost_merge_sorted(base, elements@);
            lemma_leftmost_merge_holds(base, elements@);
        }
        let merged = merge_sorted(vec, &elements);
        vec.clear();
        Self::do_merge(vec, merged);
        proof {
            assert(vec@ =~= spec_merge_seq(joining_joins::<T>(), merged@));
        }
    }
}

impl<T: NothingBetween> crate::multi::IntervalSet<T, Joining> {
    /// An empty interval set under this policy.
    pub fn empty_joining() -> (r: Self)
        ensures
            r.wf(),
            r.intvs@.len() == 0,
            forall|v: T| !(#[trigger] r.set_holds(v)),
    {
        Self::empty()
    }

    /// An interval set built from a batch under this policy.
    pub fn new_joining(elements: Vec<Interval<T>>) -> (r: Self)
        ensures
            r.wf(),
            forall|v: T| (#[trigger] r.set_holds(v)) == seq_holds(elements@, v),
    {
        Self::new(elements)
    }

    /// An interval set holding one value, under this policy.
    pub fn new_single_joining(value: T) -> (r: Self)
        ensures
            r.wf(),
            forall|v: T| (#[trigger] r.set_holds(v)) == (v == value),
    {
        Self::new_single(value)
    }
}

} // verus!
