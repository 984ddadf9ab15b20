//! The data model: expectations, specifications, observed counts and
//! discrepancies, with their spec-level views.

use vstd::prelude::*;

verus! {

/// One entry of the specification: a process name and the number of
/// running instances expected to carry it.
pub struct ProcessExpectation {
    pub name: String,
    pub count: u16,
}

impl View for ProcessExpectation {
    type V = (Seq<char>, u16);

    open spec fn view(&self) -> (Seq<char>, u16) {
        (self.name@, self.count)
    }
}

/// The views of a sequence of expectations, in order.
pub open spec fn entry_views(v: Seq<ProcessExpectation>) -> Seq<(Seq<char>, u16)> {
    v.map_values(|e: ProcessExpectation| e@)
}

/// The parsed specification: the expectations in their declared order.
pub struct ProcessSpecification {
    pub entries: Vec<ProcessExpectation>,
}

impl View for ProcessSpecification {
    type V = Seq<(Seq<char>, u16)>;

    open spec fn view(&self) -> Seq<(Seq<char>, u16)> {
        entry_views(self.entries@)
    }
}

/// Two positions of a sequence of entries carry the same name.
pub open spec fn has_duplicate_name(s: Seq<(Seq<char>, u16)>) -> bool {
    exists|i: int, j: int| 0 <= i < j < s.len() && s[i].0 == s[j].0
}

impl ProcessSpecification {
    /// Entry names are pairwise distinct.
    pub open spec fn wf(&self) -> bool {
        !has_duplicate_name(self@)
    }
}

/// A mismatch between a specification entry and the census: the name,
/// the count the specification expects, and the count observed.
pub struct Discrepancy {
    pub name: String,
    pub expected: u16,
    pub observed: u64,
}

impl View for Discrepancy {
    type V = (Seq<char>, u16, u64);

    open spec fn view(&self) -> (Seq<char>, u16, u64) {
        (self.name@, self.expected, self.observed)
    }
}

/// The views of a sequence of discrepancies, in order.
pub open spec fn discrepancy_views(v: Seq<Discrepancy>) -> Seq<(Seq<char>, u16, u64)> {
    v.map_values(|d: Discrepancy| d@)
}

/// The count stored for `name`: the count of the first entry carrying
/// it, or 0 when no entry does.
pub open spec fn spec_observed(o: Seq<(Seq<char>, u64)>, name: Seq<char>) -> u64
    decreases o.len(),
{
    if o.len() == 0 {
        0
    } else if o[0].0 == name {
        o[0].1
    } else {
        spec_observed(o.drop_first(), name)
    }
}

/// Some entry carries `name`.
pub open spec fn spec_has_key(o: Seq<(Seq<char>, u64)>, name: Seq<char>) -> bool
    decreases o.len(),
{
    if o.len() == 0 {
        false
    } else if o[0].0 == name {
        true
    } else {
        spec_has_key(o.drop_first(), name)
    }
}

/// A name no entry carries is observed 0 times.
pub proof fn lemma_observed_absent(o: Seq<(Seq<char>, u64)>, name: Seq<char>)
    requires
        !spec_has_key(o, name),
    ensures
        spec_observed(o, name) == 0,
    decreases o.len(),
{
    if o.len() > 0 {
        lemma_observed_absent(o.drop_first(), name);
    }
}

/// Appending an entry leaves the counts of stored names alone, and
/// gives a name not yet stored the appended count.
pub proof fn lemma_observed_push(o: Seq<(Seq<char>, u64)>, x: (Seq<char>, u64), name: Seq<char>)
    ensures
        spec_has_key(o, name) ==> spec_observed(o.push(x), name) == spec_observed(o, name),
        !spec_has_key(o, name) && x.0 == name ==> spec_observed(o.push(x), name) == x.1,
        !spec_has_key(o, name) && x.0 != name ==> spec_observed(o.push(x), name) == 0,
        spec_has_key(o.push(x), name) <==> (spec_has_key(o, name) || x.0 == name),
    decreases o.len(),
{
    if o.len() == 0 {
        assert(o.push(x)[0] == x);
        assert(o.push(x).drop_first() =~= Seq::<(Seq<char>, u64)>::empty());
        assert(spec_observed(Seq::<(Seq<char>, u64)>::empty(), name) == 0);
        assert(!spec_has_key(Seq::<(Seq<char>, u64)>::empty(), name));
        assert(!spec_has_key(o, name));
    } else {
        assert(o.push(x)[0] == o[0]);
        assert(o.push(x).drop_first() =~= o.drop_first().push(x));
        if o[0].0 != name {
            lemma_observed_push(o.drop_first(), x, name);
        }
    }
}

/// The census result: how many running processes carried each name.
/// Names absent from `entries` were observed 0 times.
pub struct ObservedCounts {
    pub entries: Vec<(String, u64)>,
}

impl View for ObservedCounts {
    type V = Seq<(Seq<char>, u64)>;

    open spec fn view(&self) -> Seq<(Seq<char>, u64)> {
        self.entries@.map_values(|p: (String, u64)| (p.0@, p.1))
    }
}

impl ObservedCounts {
    /// An empty census: every name observed 0 times.
    pub fn new() -> (r: ObservedCounts)
        ensures
            r@ == Seq::<(Seq<char>, u64)>::empty(),
    {
        let r = ObservedCounts { entries: Vec::new() };
        proof {
            assert(r@ =~= Seq::<(Seq<char>, u64)>::empty());
        }
        r
    }

    /// The count observed for `name`, 0 when the name was not seen.
    pub fn get(&self, name: &String) -> (r: u64)
        ensures
            r == spec_observed(self@, name@),
    {
        let mut i: usize = 0;
        proof {
            assert(self@.skip(0) =~= self@);
        }
        while i < self.entries.len()
            invariant
                0 <= i <= self.entries.len(),
                spec_observed(self@, name@) == spec_observed(self@.skip(i as int), name@),
            decreases self.entries.len() - i,
        {
            proof {
                assert(self@.skip(i as int)[0] == self@[i as int]);
            }
            if self.entries[i].0 == *name {
                return self.entries[i].1;
            }
            proof {
                assert(self@.skip(i as int).drop_first() =~= self@.skip(i as int + 1));
            }
            i += 1;
        }
        proof {
            assert(self@.skip(i as int).len() == 0);
        }
        0
    }
}

} // verus!
