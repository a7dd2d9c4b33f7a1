use crate::bounds::{lemma_le_total, lemma_le_trans};
use crate::intervals::Interval;
use crate::multi::{
    lemma_gapped_sorted, lemma_leftmost_merge_after_gap, lemma_leftmost_merge_holds,
    lemma_leftmost_merge_sorted, lemma_merge_fold_congruence, lemma_merge_seq_of_prefix,
    merge_sorted, opt_holds, seq_all_wf_nonempty, seq_holds, sorted_by_lower, spec_leftmost_merge,
    spec_merge_fold, spec_merge_seq, Policy,
};
use crate::nothing_between::NothingBetween;
use vstd::prelude::*;

verus! {

/// The join judgement of the `Separating` policy, as a value the fold
/// specifications can carry: absorb only a genuine overlap.
pub open spec fn separating_joins<T: NothingBetween>() -> spec_fn(
    Interval<T>,
    Interval<T>,
) -> bool {
    |a: Interval<T>, b: Interval<T>| !a.upper.le_spec(b.lower)
}

/// The merge policy that coalesces intervals only when they truly
/// overlap: merely touching intervals stay stored as two neighbours.
#[derive(Clone, Copy, Debug)]
pub struct Separating;

impl Separating {
    /// Folds a batch, ordered by lower cuts and entirely right of the
    /// stored intervals with a gap, into the stored sequence.
    #[verifier::rlimit(100)]
    fn do_merge<T: NothingBetween>(vec: &mut Vec<Interval<T>>, elements: Vec<Interval<T>>)
        requires
            seq_all_wf_nonempty(old(vec)@),
            forall|i: int, j: int|
                0 <= i && j == i + 1 && j < old(vec)@.len() ==> (#[trigger] old(vec)@[i]).upper.le_spec(
                    (#[trigger] old(vec)@[j]).lower,
                ),
            sorted_by_lower(elements@),
            seq_all_wf_nonempty(elements@),
            old(vec)@.len() > 0 ==> forall|j: int|
                0 <= j < elements@.len() ==> old(vec)@.last().upper.le_spec(
                    (#[trigger] elements@[j]).lower,
                ),
        ensures
            seq_all_wf_nonempty(final(vec)@),
            forall|i: int, j: int|
                0 <= i && j == i + 1 && j < final(vec)@.len() ==> (#[trigger] final(vec)@[i]).upper.le_spec(
                    (#[trigger] final(vec)@[j]).lower,
                ),
            forall|v: T|
                (#[trigger] seq_holds(final(vec)@, v)) == (seq_holds(old(vec)@, v) || seq_holds(
                    elements@,
                    v,
                )),
            final(vec)@ == old(vec)@ + spec_merge_seq(separating_joins::<T>(), elements@),
    {
        let ghost base = vec@;
        let ghost jn = separating_joins::<T>();
        let mut to_insert: Option<Interval<T>> = None;
        let mut idx: usize = 0;
        proof {
            assert(elements@.take(0) =~= Seq::<Interval<T>>::empty());
        }
        while idx < elements.len()
            invariant
                jn == separating_joins::<T>(),
                idx <= elements.len(),
                sorted_by_lower(elements@),
                seq_all_wf_nonempty(elements@),
                base.len() > 0 ==> forall|j: int|
                    0 <= j < elements@.len() ==> base.last().upper.le_spec(
                        (#[trigger] elements@[j]).lower,
                    ),
                seq_all_wf_nonempty(vec@),
                forall|i: int, j: int|
                    0 <= i && j == i + 1 && j < vec@.len() ==> (#[trigger] vec@[i]).upper.le_spec(
                        (#[trigger] vec@[j]).lower,
                    ),
                to_insert matches Some(ins) ==> ins.wf() && !ins.is_empty_spec(),
                to_insert matches Some(ins) ==> (vec@.len() > 0 ==> vec@.last().upper.le_spec(
                    ins.lower,
                )),
                to_insert matches Some(ins) ==> forall|j: int|
                    idx <= j < elements@.len() ==> ins.lower.le_spec(
                        (#[trigger] elements@[j]).lower,
                    ),
                to_insert is None ==> idx == 0 && vec@ == base,
                idx > 0 ==> to_insert is Some,
                base.len() <= vec@.len() && vec@.subrange(0, base.len() as int) == base,
                to_insert matches Some(ins) ==> spec_merge_seq(jn, elements@) == vec@.skip(
                    base.len() as int,
                ) + spec_merge_fold(jn, ins, elements@.skip(idx as int)),
                forall|v: T|
                    (#[trigger] seq_holds(vec@, v) || opt_holds(to_insert, v)) == (seq_holds(
                        base,
                        v,
                    ) || seq_holds(elements@.take(idx as int), v)),
            decreases elements.len() - idx,
        {
            let e = elements[idx];
            let ghost prev_vec = vec@;
            proof {
                assert(elements@.take(idx as int + 1) =~= elements@.take(idx as int).push(e));
                crate::multi::lemma_holds_push(elements@.take(idx as int), e);
                lemma_le_total(e.lower, e.lower);
                lemma_le_total(e.lower, e.upper);
            }
            match to_insert {
                None => {
                    proof {
                        if vec@.len() > 0 {
                            assert(base.last().upper.le_spec(elements@[idx as int].lower));
                        }
                        assert forall|v: T|
                            (seq_holds(vec@, v) || e.contains_spec(v)) == (seq_holds(base, v)
                                || seq_holds(elements@.take(idx as int + 1), v)) by {
                        }
                        assert(elements@[0] == e);
                        assert(elements@.skip(1) =~= elements@.drop_first());
                        assert(vec@.skip(base.len() as int) =~= Seq::<Interval<T>>::empty());
                        assert(Seq::<Interval<T>>::empty() + spec_merge_fold(
                            jn,
                            e,
                            elements@.drop_first(),
                        ) =~= spec_merge_fold(jn, e, elements@.drop_first()));
                        assert(vec@.subrange(0, base.len() as int) =~= base);
                    }
                    to_insert = Some(e);
                }
                Some(ins) => {
                    let sl = ins.strictly_left_of_interval(&e);
                    if sl {
                        proof {
                            // The accumulator ends at or before e
                            // begins, and before all the batch
                            // still to come.
                            assert(ins.upper.le_spec(e.lower));
                            assert forall|j: int|
                                idx <= j < elements@.len() implies ins.upper.le_spec(
                                (#[trigger] elements@[j]).lower,
                            ) by {
                                lemma_le_trans(
                                    ins.upper,
                                    e.lower,
                                    elements@[j].lower,
                                );
                            }
                            crate::multi::lemma_holds_push(vec@, ins);
                            assert forall|v: T|
                                (seq_holds(vec@.push(ins), v) || e.contains_spec(v)) == (
                                seq_holds(base, v) || seq_holds(
                                    elements@.take(idx as int + 1),
                                    v,
                                )) by {
                                assert((#[trigger] seq_holds(vec@, v) || opt_holds(
                                    to_insert,
                                    v,
                                )) == (seq_holds(base, v) || seq_holds(
                                    elements@.take(idx as int),
                                    v,
                                )));
                                assert(opt_holds(to_insert, v) == ins.contains_spec(v));
                                assert(seq_holds(vec@.push(ins), v) == (seq_holds(vec@, v)
                                    || ins.contains_spec(v)));
                                assert((seq_holds(vec@, v) || ins.contains_spec(v)) == (
                                seq_holds(base, v) || seq_holds(
                                    elements@.take(idx as int),
                                    v,
                                )));
                                assert(seq_holds(elements@.take(idx as int + 1), v) == (
                                seq_holds(elements@.take(idx as int), v) || e.contains_spec(
                                    v,
                                )));
                            }
                            assert(!jn(ins, e));
                            assert(elements@.skip(idx as int)[0] == e);
                            assert(elements@.skip(idx as int).drop_first() =~= elements@.skip(
                                idx as int + 1,
                            ));
                            assert(spec_merge_fold(jn, ins, elements@.skip(idx as int))
                                == seq![ins] + spec_merge_fold(
                                jn,
                                e,
                                elements@.skip(idx as int + 1),
                            ));
                            assert(vec@.push(ins).skip(base.len() as int) =~= vec@.skip(
                                base.len() as int,
                            ).push(ins));
                            assert(vec@.skip(base.len() as int).push(ins)
                                + spec_merge_fold(jn, e, elements@.skip(idx as int + 1))
                                =~= vec@.skip(base.len() as int) + (seq![ins]
                                + spec_merge_fold(jn, e, elements@.skip(idx as int + 1))));
                            assert(vec@.push(ins).subrange(0, base.len() as int)
                                =~= vec@.subrange(0, base.len() as int));
                        }
                        vec.push(ins);
                        to_insert = Some(e);
                    } else {
                        // A genuine overlap: coalesce through the
                        // convex hull, which is then their exact
                        // union.
                        let u = ins.convex_hull(&e);
                        proof {
                            crate::bounds::lemma_le_total(e.lower, ins.upper);
                            lemma_le_trans(ins.lower, e.lower, e.upper);
                            assert(ins.spec_contiguous(e));
                            crate::intervals::lemma_union_exact(ins, e);
                            let maxu = crate::bounds::max_bound_spec(ins.upper, e.upper);
                            lemma_le_total(ins.upper, e.upper);
                            lemma_le_total(ins.upper, ins.upper);
                            if maxu.le_spec(ins.lower) {
                                lemma_le_trans(ins.upper, maxu, ins.lower);
                            }
                            assert(ins.lower.lt_spec(maxu));
                            assert(u.lower == ins.lower);
                            assert(!u.is_empty_spec());
                            assert(jn(ins, e));
                            assert(u == ins.spec_convex_hull(e));
                            assert(elements@.skip(idx as int)[0] == e);
                            assert(elements@.skip(idx as int).drop_first() =~= elements@.skip(
                                idx as int + 1,
                            ));
                            assert(spec_merge_fold(jn, ins, elements@.skip(idx as int))
                                == spec_merge_fold(jn, u, elements@.skip(idx as int + 1)));
                            assert forall|v: T|
                                (seq_holds(vec@, v) || u.contains_spec(v)) == (seq_holds(
                                    base,
                                    v,
                                ) || seq_holds(elements@.take(idx as int + 1), v)) by {
                                assert(u.contains_spec(v) == (ins.contains_spec(v)
                                    || e.contains_spec(v)));
                                assert((#[trigger] seq_holds(vec@, v) || opt_holds(
                                    to_insert,
                                    v,
                                )) == (seq_holds(base, v) || seq_holds(
                                    elements@.take(idx as int),
                                    v,
                                )));
                                assert(opt_holds(to_insert, v) == ins.contains_spec(v));
                                assert((seq_holds(vec@, v) || ins.contains_spec(v)) == (
                                seq_holds(base, v) || seq_holds(
                                    elements@.take(idx as int),
                                    v,
                                )));
                                assert(seq_holds(elements@.take(idx as int + 1), v) == (
                                seq_holds(elements@.take(idx as int), v) || e.contains_spec(
                                    v,
                                )));
                            }
                        }
                        to_insert = Some(u);
                    }
                }
            }
            idx = idx + 1;
        }
        proof {
            assert(elements@.take(idx as int) =~= elements@);
        }
        if let Some(ins) = to_insert {
            proof {
                crate::multi::lemma_holds_push(vec@, ins);
                assert forall|v: T|
                    seq_holds(vec@.push(ins), v) == (seq_holds(base, v) || seq_holds(
                        elements@,
                        v,
                    )) by {
                    assert((#[trigger] seq_holds(vec@, v) || opt_holds(to_insert, v)) == (
                    seq_holds(base, v) || seq_holds(elements@.take(idx as int), v)));
                    assert(seq_holds(vec@.push(ins), v) == (seq_holds(vec@, v)
                        || ins.contains_spec(v)));
                }
                assert(elements@.skip(idx as int) =~= Seq::<Interval<T>>::empty());
                assert(spec_merge_fold(jn, ins, elements@.skip(idx as int)) == seq![ins]);
                assert(vec@.push(ins).skip(base.len() as int) =~= vec@.skip(base.len() as int)
                    + seq![ins]);
                assert(vec@.push(ins).subrange(0, base.len() as int) =~= vec@.subrange(
                    0,
                    base.len() as int,
                ));
            }
            vec.push(ins);
            proof {
                assert forall|v: T|
                    (#[trigger] seq_holds(vec@, v)) == (seq_holds(base, v) || seq_holds(
                        elements@,
                        v,
                    )) by {
                }
            }
        } else {
            proof {
                assert(elements@.len() == 0);
                assert(spec_merge_seq(jn, elements@) =~= Seq::<Interval<T>>::empty());
            }
        }
        proof {
            assert(base == old(vec)@);
            assert forall|v: T|
                seq_holds(vec@, v) == (seq_holds(old(vec)@, v) || seq_holds(elements@, v)) by {
                if elements@.len() == 0 {
                    assert(!seq_holds(elements@, v));
                }
            }
            assert(vec@ =~= vec@.subrange(0, base.len() as int) + vec@.skip(base.len() as int));
            assert(vec@ =~= base + spec_merge_seq(jn, elements@));
        }
    }
}

impl<T: NothingBetween> Policy<T> for Separating {
    /// Under Separating, consecutive stored intervals do not overlap,
    /// though they may touch.
    open spec fn spec_gap_ok(prev: Interval<T>, next: Interval<T>) -> bool {
        prev.upper.le_spec(next.lower)
    }

    proof fn lemma_gap_ok_le(prev: Interval<T>, next: Interval<T>) {
    }

    proof fn lemma_gap_ok_mono(prev: Interval<T>, e: Interval<T>, e2: Interval<T>) {
        lemma_le_trans(prev.upper, e.lower, e2.lower);
    }

    /// The fold absorbs only a genuine overlap.
    open spec fn spec_joins(prev: Interval<T>, next: Interval<T>) -> bool {
        !prev.upper.le_spec(next.lower)
    }

    proof fn lemma_gap_ok_no_join(prev: Interval<T>, next: Interval<T>) {
    }

    fn merge(vec: &mut Vec<Interval<T>>, elements: Vec<Interval<T>>) {
        let ghost base0 = vec@;
        let ghost jn = separating_joins::<T>();
        let ghost js = (|a: Interval<T>, b: Interval<T>| Self::spec_joins(a, b));
        let ghost els = elements@;
        proof {
            assert forall|i: int, j: int|
                0 <= i && j == i + 1 && j < vec@.len() implies (#[trigger] vec@[i]).upper.le_spec(
                (#[trigger] vec@[j]).lower,
            ) by {
                assert(Self::spec_gap_ok(vec@[i], vec@[j]));
            }
            // Stored neighbours never overlap, so the fold never
            // re-coalesces them.
            assert forall|i: int|
                0 <= i && i + 1 < base0.len() implies !(#[trigger] jn(base0[i], base0[i + 1])) by {
            }
            assert(forall|a: Interval<T>, b: Interval<T>| #[trigger] jn(a, b) == js(a, b));
        }
        if elements.len() == 0 {
            proof {
                assert(spec_leftmost_merge(base0, els) =~= base0);
                assert(base0 + Seq::<Interval<T>>::empty() =~= base0);
                lemma_merge_seq_of_prefix(jn, base0, Seq::<Interval<T>>::empty());
                assert(spec_merge_seq(jn, Seq::<Interval<T>>::empty())
                    =~= Seq::<Interval<T>>::empty());
                assert(spec_merge_seq(jn, base0) =~= base0);
                lemma_merge_fold_congruence(jn, js, spec_leftmost_merge(base0, els));
            }
            return ;
        }
        let n = vec.len();
        if n == 0 {
            Self::do_merge(vec, elements);
            proof {
                assert(spec_leftmost_merge(base0, els) =~= els);
                assert(base0 + spec_merge_seq(jn, els) =~= spec_merge_seq(jn, els));
                lemma_merge_fold_congruence(jn, js, spec_leftmost_merge(base0, els));
            }
            return ;
        }
        let gap = vec[n - 1].strictly_left_of_interval(&elements[0]);
        if gap {
            Self::append_after_gap(vec, elements);
            proof {
                assert forall|i: int, j: int|
                    0 <= i && j == i + 1 && j < base0.len() implies (
                #[trigger] base0[i]).upper.le_spec((#[trigger] base0[j]).lower) by {
                }
                lemma_gapped_sorted(base0);
                assert forall|i: int, j: int|
                    0 <= i < base0.len() && 0 <= j < els.len() implies (
                #[trigger] base0[i]).upper.le_spec((#[trigger] els[j]).lower) by {
                    lemma_le_total(base0[i].upper, base0[i].upper);
                    lemma_le_total(base0.last().lower, base0.last().upper);
                    if i < base0.len() - 1 {
                        lemma_le_trans(base0[i].upper, base0.last().lower, base0.last().upper);
                    }
                    lemma_le_trans(base0[i].upper, base0.last().upper, els[0].lower);
                    if j > 0 {
                        lemma_le_trans(base0[i].upper, els[0].lower, els[j].lower);
                    }
                }
                lemma_leftmost_merge_after_gap(base0, els);
                assert(!jn(base0.last(), els[0]));
                lemma_merge_seq_of_prefix(jn, base0, els);
                assert(spec_merge_seq(jn, base0 + els) == base0 + spec_merge_seq(jn, els));
                lemma_merge_fold_congruence(jn, js, spec_leftmost_merge(base0, els));
            }
        } else {
            Self::rebuild(vec, elements);
            proof {
                lemma_merge_fold_congruence(jn, js, spec_leftmost_merge(base0, els));
            }
        }
    }
}

impl Separating {
    /// Appends a batch that begins past the stored intervals, with a
    /// gap after the last of them.
    fn append_after_gap<T: NothingBetween>(vec: &mut Vec<Interval<T>>, elements: Vec<Interval<T>>)
        requires
            seq_all_wf_nonempty(old(vec)@),
            forall|i: int, j: int|
                0 <= i && j == i + 1 && j < old(vec)@.len() ==> (#[trigger] old(vec)@[i]).upper.le_spec(
                    (#[trigger] old(vec)@[j]).lower,
                ),
            sorted_by_lower(elements@),
            seq_all_wf_nonempty(elements@),
            old(vec)@.len() > 0,
            elements@.len() > 0,
            old(vec)@.last().upper.le_spec(elements@[0].lower),
        ensures
            seq_all_wf_nonempty(final(vec)@),
            forall|i: int, j: int|
                0 <= i && j == i + 1 && j < final(vec)@.len() ==> (#[trigger] final(vec)@[i]).upper.le_spec(
                    (#[trigger] final(vec)@[j]).lower,
                ),
            forall|v: T|
                (#[trigger] seq_holds(final(vec)@, v)) == (seq_holds(old(vec)@, v) || seq_holds(
                    elements@,
                    v,
                )),
            final(vec)@ == old(vec)@ + spec_merge_seq(separating_joins::<T>(), elements@),
    {
        let ghost base = vec@;
        proof {
            assert forall|j: int|
                0 <= j < elements@.len() implies base.last().upper.le_spec(
                (#[trigger] elements@[j]).lower,
            ) by {
                if j > 0 {
                    lemma_le_trans(
                        base.last().upper,
                        elements@[0].lower,
                        elements@[j].lower,
                    );
                }
            }
        }
        Self::do_merge(vec, elements);
    }

    /// Rebuilds the stored sequence by streaming it, merged with the
    /// batch, through the coalescing fold.
    #[verifier::rlimit(100)]
    fn rebuild<T: NothingBetween>(vec: &mut Vec<Interval<T>>, elements: Vec<Interval<T>>)
        requires
            seq_all_wf_nonempty(old(vec)@),
            forall|i: int, j: int|
                0 <= i && j == i + 1 && j < old(vec)@.len() ==> (#[trigger] old(vec)@[i]).upper.le_spec(
                    (#[trigger] old(vec)@[j]).lower,
                ),
            sorted_by_lower(elements@),
            seq_all_wf_nonempty(elements@),
        ensures
            seq_all_wf_nonempty(final(vec)@),
            forall|i: int, j: int|
                0 <= i && j == i + 1 && j < final(vec)@.len() ==> (#[trigger] final(vec)@[i]).upper.le_spec(
                    (#[trigger] final(vec)@[j]).lower,
                ),
            forall|v: T|
                (#[trigger] seq_holds(final(vec)@, v)) == (seq_holds(old(vec)@, v) || seq_holds(
                    elements@,
                    v,
                )),
            final(vec)@ == spec_merge_seq(
                separating_joins::<T>(),
                spec_leftmost_merge(old(vec)@, elements@),
            ),
    {
        let ghost base = vec@;
        proof {
            assert forall|i: int, j: int|
                0 <= i && j == i + 1 && j < base.len() implies (#[trigger] base[i]).upper.le_spec(
                (#[trigger] base[j]).lower,
            ) by {
                lemma_le_total(base[i].upper, base[j].lower);
            }
            lemma_gapped_sorted(base);
            lemma_leftmost_merge_sorted(base, elements@);
            lemma_leftmost_merge_holds(base, elements@);
        }
        let merged = merge_sorted(vec, &elements);
        vec.clear();
        Self::do_merge(vec, merged);
        proof {
            assert(vec@ =~= spec_merge_seq(separating_joins::<T>(), merged@));
        }
    }
}

impl<T: NothingBetween> crate::multi::IntervalSet<T, Separating> {
    /// An empty interval set under this policy.
    pub fn empty_separating() -> (r: Self)
        ensures
            r.wf(),
            r.intvs@.len() == 0,
            forall|v: T| !(#[trigger] r.set_holds(v)),
    {
        Self::empty()
    }

    /// An interval set built from a batch under this policy.
    pub fn new_separating(elements: Vec<Interval<T>>) -> (r: Self)
        ensures
            r.wf(),
            forall|v: T| (#[trigger] r.set_holds(v)) == seq_holds(elements@, v),
    {
        Self::new(elements)
    }

    /// An interval set holding one value, under this policy.
    pub fn new_single_separating(value: T) -> (r: Self)
        ensures
            r.wf(),
            forall|v: T| (#[trigger] r.set_holds(v)) == (v == value),
    {
        Self::new_single(value)
    }
}

} // verus!
