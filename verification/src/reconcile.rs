//! The reconciler: compare a specification against observed counts and
//! derive the discrepancies, one per mismatched entry, in
//! specification order.

use vstd::prelude::*;
use crate::model::{
    Discrepancy, ObservedCounts, ProcessSpecification, discrepancy_views, has_duplicate_name,
    spec_observed,
};

verus! {

/// The entry's expectation differs from what the counts hold for its
/// name (a name the counts do not hold is observed 0 times).
pub open spec fn expectation_mismatch(o: Seq<(Seq<char>, u64)>, e: (Seq<char>, u16)) -> bool {
    spec_observed(o, e.0) != e.1 as u64
}

/// The discrepancy derived from entry `e` under counts `o`.
pub open spec fn discrepancy_of(o: Seq<(Seq<char>, u64)>, e: (Seq<char>, u16)) -> (Seq<
    char,
>, u16, u64) {
    (e.0, e.1, spec_observed(o, e.0))
}

/// The discrepancies of specification `s` under observed counts `o`:
/// one per entry of `s` whose observed count differs from its expected
/// count, in the order of `s`.
pub open spec fn spec_reconcile(s: Seq<(Seq<char>, u16)>, o: Seq<(Seq<char>, u64)>) -> Seq<
    (Seq<char>, u16, u64),
>
    decreases s.len(),
{
    if s.len() == 0 {
        Seq::empty()
    } else {
        let rest = spec_reconcile(s.drop_last(), o);
        if expectation_mismatch(o, s.last()) {
            rest.push(discrepancy_of(o, s.last()))
        } else {
            rest
        }
    }
}

/// Compare each entry of the specification against the observed
/// counts; return the mismatches in specification order.
pub fn reconcile(spec: &ProcessSpecification, observed: &ObservedCounts) -> (r: Vec<Discrepancy>)
    ensures
        discrepancy_views(r@) == spec_reconcile(spec@, observed@),
{
    let mut r: Vec<Discrepancy> = Vec::new();
    let mut i: usize = 0;
    proof {
        assert(spec@.take(0) =~= Seq::<(Seq<char>, u16)>::empty());
        assert(discrepancy_views(r@) =~= Seq::<(Seq<char>, u16, u64)>::empty());
    }
    while i < spec.entries.len()
        invariant
            0 <= i <= spec.entries.len(),
            spec@.len() == spec.entries@.len(),
            discrepancy_views(r@) == spec_reconcile(spec@.take(i as int), observed@),
        decreases spec.entries.len() - i,
    {
        let e = &spec.entries[i];
        let obs = observed.get(&e.name);
        proof {
            assert(spec@[i as int] == spec.entries@[i as int]@);
            assert(spec@.take(i as int + 1).drop_last() =~= spec@.take(i as int));
            assert(spec@.take(i as int + 1).last() == spec@[i as int]);
        }
        if obs != e.count as u64 {
            let d = Discrepancy { name: e.name.clone(), expected: e.count, observed: obs };
            let ghost old_views = discrepancy_views(r@);
            r.push(d);
            proof {
                assert(discrepancy_views(r@) =~= old_views.push(d@));
            }
        }
        i += 1;
    }
    proof {
        assert(spec@.take(spec.entries@.len() as int) =~= spec@);
    }
    r
}

/// `d` is the discrepancy of some mismatched entry of `s` under `o`:
/// it carries a name `s` expects, that entry's expected count, and the
/// count `o` holds for the name.
pub open spec fn reported_from(
    s: Seq<(Seq<char>, u16)>,
    o: Seq<(Seq<char>, u64)>,
    d: (Seq<char>, u16, u64),
) -> bool {
    exists|i: int|
        0 <= i < s.len() && d == #[trigger] discrepancy_of(o, s[i]) && expectation_mismatch(
            o,
            s[i],
        )
}

/// Law: reconciliation is sound and complete. Every discrepancy comes
/// from an entry of the specification whose observed count differs
/// from its expected count and reports that entry's name, expected
/// count and observed count; and every such entry yields a
/// discrepancy. Names absent from the specification are never
/// reported.
pub proof fn lemma_reconcile_exact(s: Seq<(Seq<char>, u16)>, o: Seq<(Seq<char>, u64)>)
    ensures
        forall|k: int|
            0 <= k < spec_reconcile(s, o).len() ==> reported_from(
                s,
                o,
                #[trigger] spec_reconcile(s, o)[k],
            ),
        forall|i: int|
            0 <= i < s.len() && expectation_mismatch(o, #[trigger] s[i]) ==> exists|k: int|
                0 <= k < spec_reconcile(s, o).len() && spec_reconcile(s, o)[k] == discrepancy_of(
                    o,
                    s[i],
                ),
    decreases s.len(),
{
    if s.len() == 0 {
        assert(spec_reconcile(s, o).len() == 0);
    } else {
        lemma_reconcile_exact(s.drop_last(), o);
        let rest = spec_reconcile(s.drop_last(), o);
        let out = spec_reconcile(s, o);
        assert(forall|i: int| 0 <= i < s.len() - 1 ==> s.drop_last()[i] == s[i]);
        assert(s.last() == s[s.len() - 1]);
        assert forall|k: int| 0 <= k < out.len() implies reported_from(
            s,
            o,
            #[trigger] out[k],
        ) by {
            if expectation_mismatch(o, s.last()) && k == out.len() - 1 {
                assert(out[k] == discrepancy_of(o, s[s.len() - 1]) && expectation_mismatch(
                    o,
                    s[s.len() - 1],
                ));
            } else {
                assert(out[k] == rest[k]);
                assert(reported_from(s.drop_last(), o, rest[k]));
                let i = choose|i: int|
                    0 <= i < s.drop_last().len() && rest[k] == #[trigger] discrepancy_of(
                        o,
                        s.drop_last()[i],
                    ) && expectation_mismatch(o, s.drop_last()[i]);
                assert(out[k] == discrepancy_of(o, s[i]) && expectation_mismatch(o, s[i]));
            }
        }
        assert forall|i: int|
            0 <= i < s.len() && expectation_mismatch(o, #[trigger] s[i]) implies exists|k: int|
            0 <= k < out.len() && out[k] == discrepancy_of(o, s[i]) by {
            if i == s.len() - 1 {
                assert(out[out.len() - 1] == discrepancy_of(o, s[i]));
            } else {
                assert(expectation_mismatch(o, s.drop_last()[i]));
                let k = choose|k: int|
                    0 <= k < rest.len() && rest[k] == discrepancy_of(o, s.drop_last()[i]);
                assert(out[k] == discrepancy_of(o, s[i]));
            }
        }
    }
}

/// Law: reconciliation is deterministic. It is a function of the
/// specification and the observed counts alone: equal inputs give
/// equal discrepancy sequences.
pub proof fn lemma_reconcile_deterministic(
    s1: Seq<(Seq<char>, u16)>,
    o1: Seq<(Seq<char>, u64)>,
    s2: Seq<(Seq<char>, u16)>,
    o2: Seq<(Seq<char>, u64)>,
)
    requires
        s1 == s2,
        o1 == o2,
    ensures
        spec_reconcile(s1, o1) == spec_reconcile(s2, o2),
{
}

/// Law: reconciliation of a satisfied specification is empty. When the
/// observed counts match every entry, no discrepancy is derived.
pub proof fn lemma_reconcile_satisfied_empty(s: Seq<(Seq<char>, u16)>, o: Seq<(Seq<char>, u64)>)
    requires
        forall|i: int| 0 <= i < s.len() ==> spec_observed(o, (#[trigger] s[i]).0) == s[i].1 as u64,
    ensures
        spec_reconcile(s, o) == Seq::<(Seq<char>, u16, u64)>::empty(),
    decreases s.len(),
{
    if s.len() > 0 {
        assert(forall|i: int| 0 <= i < s.len() - 1 ==> s.drop_last()[i] == s[i]);
        assert(s.last() == s[s.len() - 1]);
        lemma_reconcile_satisfied_empty(s.drop_last(), o);
    }
}

/// Law: degradation. Under empty observed counts every entry with a
/// positive expected count is reported, with observed count 0; entries
/// expecting 0 are not reported.
pub proof fn lemma_reconcile_degraded(s: Seq<(Seq<char>, u16)>, o: Seq<(Seq<char>, u64)>)
    requires
        o.len() == 0,
    ensures
        forall|i: int|
            0 <= i < s.len() && (#[trigger] s[i]).1 > 0 ==> exists|k: int|
                0 <= k < spec_reconcile(s, o).len() && spec_reconcile(s, o)[k] == (
                    s[i].0,
                    s[i].1,
                    0u64,
                ),
        forall|k: int|
            0 <= k < spec_reconcile(s, o).len() ==> (#[trigger] spec_reconcile(s, o)[k]).2 == 0
                && spec_reconcile(s, o)[k].1 > 0,
{
    assert(forall|n: Seq<char>| spec_observed(o, n) == 0);
    lemma_reconcile_exact(s, o);
    assert forall|i: int| 0 <= i < s.len() && (#[trigger] s[i]).1 > 0 implies exists|k: int|
        0 <= k < spec_reconcile(s, o).len() && spec_reconcile(s, o)[k] == (
            s[i].0,
            s[i].1,
            0u64,
        ) by {
        assert(spec_observed(o, s[i].0) == 0);
        assert(expectation_mismatch(o, s[i]));
        assert(discrepancy_of(o, s[i]) == (s[i].0, s[i].1, 0u64));
        let k = choose|k: int|
            0 <= k < spec_reconcile(s, o).len() && spec_reconcile(s, o)[k] == discrepancy_of(
                o,
                s[i],
            );
        assert(spec_reconcile(s, o)[k] == (s[i].0, s[i].1, 0u64));
    }
    assert forall|k: int| 0 <= k < spec_reconcile(s, o).len() implies (#[trigger] spec_reconcile(
        s,
        o,
    )[k]).2 == 0 && spec_reconcile(s, o)[k].1 > 0 by {
        assert(reported_from(s, o, spec_reconcile(s, o)[k]));
        let i = choose|i: int|
            0 <= i < s.len() && spec_reconcile(s, o)[k] == #[trigger] discrepancy_of(o, s[i])
                && expectation_mismatch(o, s[i]);
        assert(spec_observed(o, s[i].0) == 0);
    }
}

/// Law: under a well-formed specification (pairwise distinct names)
/// the discrepancy sequence holds at most one entry per name.
pub proof fn lemma_reconcile_one_per_name(s: Seq<(Seq<char>, u16)>, o: Seq<(Seq<char>, u64)>)
    requires
        !has_duplicate_name(s),
    ensures
        forall|k1: int, k2: int|
            0 <= k1 < k2 < spec_reconcile(s, o).len() ==> (#[trigger] spec_reconcile(s, o)[k1]).0
                != (#[trigger] spec_reconcile(s, o)[k2]).0,
    decreases s.len(),
{
    if s.len() > 0 {
        assert(forall|i: int| 0 <= i < s.len() - 1 ==> s.drop_last()[i] == s[i]);
        if has_duplicate_name(s.drop_last()) {
            let (i, j): (int, int) = choose|i: int, j: int|
                0 <= i < j < s.drop_last().len() && s.drop_last()[i].0 == s.drop_last()[j].0;
            assert(s[i].0 == s[j].0);
            assert(has_duplicate_name(s));
        }
        lemma_reconcile_one_per_name(s.drop_last(), o);
        let rest = spec_reconcile(s.drop_last(), o);
        if expectation_mismatch(o, s.last()) {
            let out = rest.push(discrepancy_of(o, s.last()));
            assert(spec_reconcile(s, o) == out);
            lemma_reconcile_exact(s.drop_last(), o);
            assert forall|k1: int, k2: int| 0 <= k1 < k2 < out.len() implies (
            #[trigger] out[k1]).0 != (#[trigger] out[k2]).0 by {
                if k2 == out.len() - 1 {
                    assert(out[k1] == rest[k1]);
                    assert(reported_from(s.drop_last(), o, rest[k1]));
                    let i = choose|i: int|
                        0 <= i < s.drop_last().len() && rest[k1] == #[trigger] discrepancy_of(
                            o,
                            s.drop_last()[i],
                        ) && expectation_mismatch(o, s.drop_last()[i]);
                    assert(out[k1] == rest[k1]);
                    if out[k1].0 == out[k2].0 {
                        assert(s[i].0 == s[s.len() - 1].0);
                        assert(has_duplicate_name(s));
                    }
                } else {
                    assert(out[k1] == rest[k1] && out[k2] == rest[k2]);
                }
            }
        }
    }
}

} // verus!
