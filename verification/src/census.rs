//! The census: reduce a snapshot of the host's process table — one
//! record per process, already cut down to its name and whether it is
//! in a running state — to a count of running processes per name.

use vstd::prelude::*;
use crate::model::{ObservedCounts, spec_has_key, spec_observed, lemma_observed_absent,
    lemma_observed_push};

verus! {

/// One process of the snapshot: its display name and whether its
/// execution state was "running".
pub struct ProcessRecord {
    pub name: String,
    pub running: bool,
}

impl View for ProcessRecord {
    type V = (Seq<char>, bool);

    open spec fn view(&self) -> (Seq<char>, bool) {
        (self.name@, self.running)
    }
}

/// The views of a sequence of records, in order.
pub open spec fn record_views(v: Seq<ProcessRecord>) -> Seq<(Seq<char>, bool)> {
    v.map_values(|r: ProcessRecord| r@)
}

/// How many records of `p` are running and carry `name`.
pub open spec fn spec_running_count(p: Seq<(Seq<char>, bool)>, name: Seq<char>) -> int
    decreases p.len(),
{
    if p.len() == 0 {
        0
    } else {
        spec_running_count(p.drop_last(), name) + if p.last().1 && p.last().0 == name {
            1int
        } else {
            0int
        }
    }
}

/// A name is never counted more often than there are records.
pub proof fn lemma_running_count_bounds(p: Seq<(Seq<char>, bool)>, name: Seq<char>)
    ensures
        0 <= spec_running_count(p, name) <= p.len(),
    decreases p.len(),
{
    if p.len() > 0 {
        lemma_running_count_bounds(p.drop_last(), name);
    }
}

/// How many running records of `procs` carry `name`.
fn count_running(procs: &Vec<ProcessRecord>, name: &String) -> (r: u64)
    ensures
        r == spec_running_count(record_views(procs@), name@),
{
    let ghost pv = record_views(procs@);
    let mut cnt: usize = 0;
    let mut k: usize = 0;
    proof {
        assert(pv.take(0) =~= Seq::<(Seq<char>, bool)>::empty());
    }
    while k < procs.len()
        invariant
            0 <= k <= procs.len(),
            pv == record_views(procs@),
            pv.len() == procs@.len(),
            cnt <= k,
            cnt == spec_running_count(pv.take(k as int), name@),
        decreases procs.len() - k,
    {
        proof {
            assert(pv.take(k as int + 1).drop_last() =~= pv.take(k as int));
            assert(pv.take(k as int + 1).last() == pv[k as int]);
            assert(pv[k as int] == procs@[k as int]@);
        }
        let rec = &procs[k];
        if rec.running && rec.name == *name {
            cnt += 1;
        }
        k += 1;
    }
    proof {
        assert(pv.take(procs@.len() as int) =~= pv);
    }
    cnt as u64
}

/// Does the census already hold an entry for `name`?
fn census_has_name(out: &ObservedCounts, name: &String) -> (r: bool)
    ensures
        r == spec_has_key(out@, name@),
{
    let mut i: usize = 0;
    proof {
        assert(out@.skip(0) =~= out@);
    }
    while i < out.entries.len()
        invariant
            0 <= i <= out.entries.len(),
            spec_has_key(out@, name@) == spec_has_key(out@.skip(i as int), name@),
        decreases out.entries.len() - i,
    {
        proof {
            assert(out@.skip(i as int)[0] == out@[i as int]);
        }
        if out.entries[i].0 == *name {
            return true;
        }
        proof {
            assert(out@.skip(i as int).drop_first() =~= out@.skip(i as int + 1));
        }
        i += 1;
    }
    proof {
        assert(out@.skip(i as int).len() == 0);
    }
    false
}

/// Reduce the snapshot to observed counts: for every name, the number
/// of running records that carry it. Names with no running record are
/// absent, so their observed count is 0, which is what the reconciler
/// reads for them.
pub fn take_census(procs: &Vec<ProcessRecord>) -> (r: ObservedCounts)
    ensures
        forall|n: Seq<char>| #[trigger]
            spec_observed(r@, n) == spec_running_count(record_views(procs@), n),
{
    let ghost pv = record_views(procs@);
    let mut out = ObservedCounts::new();
    let mut i: usize = 0;
    proof {
        assert(pv.take(0) =~= Seq::<(Seq<char>, bool)>::empty());
    }
    while i < procs.len()
        invariant
            0 <= i <= procs.len(),
            pv == record_views(procs@),
            pv.len() == procs@.len(),
            forall|n: Seq<char>| #[trigger]
                spec_has_key(out@, n) <==> spec_running_count(pv.take(i as int), n) > 0,
            forall|n: Seq<char>|
                spec_has_key(out@, n) ==> #[trigger] spec_observed(out@, n)
                    == spec_running_count(pv, n),
        decreases procs.len() - i,
    {
        proof {
            assert(pv.take(i as int + 1).drop_last() =~= pv.take(i as int));
            assert(pv.take(i as int + 1).last() == pv[i as int]);
            assert(pv[i as int] == procs@[i as int]@);
        }
        let rec_running = procs[i].running;
        let rec_name = procs[i].name.clone();
        if rec_running && !census_has_name(&out, &rec_name) {
            let c = count_running(procs, &rec_name);
            let ghost old_out = out@;
            out.entries.push((rec_name, c));
            proof {
                let x = (procs@[i as int].name@, c as u64);
                assert(out@ =~= old_out.push(x));
                assert forall|n: Seq<char>| #[trigger] spec_has_key(out@, n) <==>
                    spec_running_count(pv.take(i as int + 1), n) > 0 by {
                    lemma_observed_push(old_out, x, n);
                    lemma_running_count_bounds(pv.take(i as int), n);
                }
                assert forall|n: Seq<char>|
                    spec_has_key(out@, n) implies #[trigger] spec_observed(out@, n)
                        == spec_running_count(pv, n) by {
                    lemma_observed_push(old_out, x, n);
                }
            }
        } else {
            proof {
                assert forall|n: Seq<char>| #[trigger] spec_has_key(out@, n) <==>
                    spec_running_count(pv.take(i as int + 1), n) > 0 by {
                    lemma_running_count_bounds(pv.take(i as int), n);
                }
            }
        }
        i += 1;
    }
    proof {
        assert(pv.take(procs@.len() as int) =~= pv);
        assert forall|n: Seq<char>| #[trigger] spec_observed(out@, n) == spec_running_count(
            pv,
            n,
        ) by {
            lemma_running_count_bounds(pv, n);
            if !spec_has_key(out@, n) {
                lemma_observed_absent(out@, n);
            }
        }
    }
    out
}

} // verus!
