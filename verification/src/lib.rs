//! A process watchdog library: parse a declarative specification of
//! expected running-process counts, reduce a snapshot of the host's
//! process table to observed counts, compare the two, and derive the
//! discrepancies to alert on, together with the scheduling arithmetic
//! that keeps the polling cadence free of drift.

use vstd::prelude::*;

pub mod census;
pub mod message;
pub mod model;
pub mod parse;
pub mod reconcile;
pub mod schedule;

use crate::census::{ProcessRecord, record_views, spec_running_count, take_census};
use crate::model::{Discrepancy, discrepancy_views, spec_observed};
use crate::parse::{ParseError, parse_specification, spec_parse};
use crate::reconcile::{reconcile, spec_reconcile};

verus! {

/// The discrepancies one pass derives from specification `s` and
/// process snapshot `p`: one per entry whose expected count differs
/// from the number of running processes carrying its name, in
/// specification order.
pub open spec fn spec_cycle_discrepancies(
    s: Seq<(Seq<char>, u16)>,
    p: Seq<(Seq<char>, bool)>,
) -> Seq<(Seq<char>, u16, u64)>
    decreases s.len(),
{
    if s.len() == 0 {
        Seq::empty()
    } else {
        let rest = spec_cycle_discrepancies(s.drop_last(), p);
        let e = s.last();
        if spec_running_count(p, e.0) != e.1 as int {
            rest.push((e.0, e.1, spec_running_count(p, e.0) as u64))
        } else {
            rest
        }
    }
}

/// Reconciling against counts that agree with the snapshot's running
/// counts derives exactly the pass's discrepancies.
proof fn lemma_reconcile_by_census(
    s: Seq<(Seq<char>, u16)>,
    o: Seq<(Seq<char>, u64)>,
    p: Seq<(Seq<char>, bool)>,
)
    requires
        forall|n: Seq<char>| #[trigger] spec_observed(o, n) == spec_running_count(p, n),
    ensures
        spec_reconcile(s, o) == spec_cycle_discrepancies(s, p),
    decreases s.len(),
{
    if s.len() > 0 {
        lemma_reconcile_by_census(s.drop_last(), o, p);
        assert(spec_observed(o, s.last().0) == spec_running_count(p, s.last().0));
    }
}

/// One reconciliation pass's computation, from the raw specification
/// text and a snapshot of the process table: parse, reduce to counts,
/// reconcile. A text the grammar rejects aborts the pass with the
/// parse error and no discrepancy.
pub fn evaluate_cycle(text: &str, procs: &Vec<ProcessRecord>) -> (r: Result<
    Vec<Discrepancy>,
    ParseError,
>)
    ensures
        match r {
            Ok(ds) => spec_parse(text@) is Ok && discrepancy_views(ds@)
                == spec_cycle_discrepancies(spec_parse(text@)->Ok_0, record_views(procs@)),
            Err(e) => spec_parse(text@) == Err::<Seq<(Seq<char>, u16)>, ParseError>(e),
        },
{
    let sp = match parse_specification(text) {
        Ok(sp) => sp,
        Err(e) => {
            return Err(e);
        },
    };
    let census = take_census(procs);
    let ds = reconcile(&sp, &census);
    proof {
        lemma_reconcile_by_census(sp@, census@, record_views(procs@));
    }
    Ok(ds)
}

} // verus!
