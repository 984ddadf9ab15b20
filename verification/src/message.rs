//! Alert text: render a discrepancy as the fixed-shape, human-readable
//! line that is sent to the notification channel.

use vstd::prelude::*;
use crate::model::Discrepancy;

verus! {

/// The decimal digit character for `d`.
pub open spec fn digit_char(d: int) -> char {
    if d == 0 {
        '0'
    } else if d == 1 {
        '1'
    } else if d == 2 {
        '2'
    } else if d == 3 {
        '3'
    } else if d == 4 {
        '4'
    } else if d == 5 {
        '5'
    } else if d == 6 {
        '6'
    } else if d == 7 {
        '7'
    } else if d == 8 {
        '8'
    } else {
        '9'
    }
}

/// The decimal rendering of `n` without leading zeroes (a single '0'
/// for 0).
pub open spec fn spec_decimal(n: int) -> Seq<char>
    decreases n,
{
    if n < 10 {
        seq![digit_char(n)]
    } else {
        spec_decimal(n / 10).push(digit_char(n % 10))
    }
}

/// The single-character string for decimal digit `d`.
fn digit_string(d: u64) -> (s: String)
    requires
        d < 10,
    ensures
        s@ == seq![digit_char(d as int)],
{
    proof {
        reveal_strlit("0");
        reveal_strlit("1");
        reveal_strlit("2");
        reveal_strlit("3");
        reveal_strlit("4");
        reveal_strlit("5");
        reveal_strlit("6");
        reveal_strlit("7");
        reveal_strlit("8");
        reveal_strlit("9");
    }
    let r = if d == 0 {
        String::from_str("0")
    } else if d == 1 {
        String::from_str("1")
    } else if d == 2 {
        String::from_str("2")
    } else if d == 3 {
        String::from_str("3")
    } else if d == 4 {
        String::from_str("4")
    } else if d == 5 {
        String::from_str("5")
    } else if d == 6 {
        String::from_str("6")
    } else if d == 7 {
        String::from_str("7")
    } else if d == 8 {
        String::from_str("8")
    } else {
        String::from_str("9")
    };
    proof {
        assert(r@ =~= seq![digit_char(d as int)]);
    }
    r
}

/// The decimal rendering of `n`.
pub fn u64_to_string(n: u64) -> (s: String)
    ensures
        s@ == spec_decimal(n as int),
    decreases n,
{
    if n < 10 {
        digit_string(n)
    } else {
        let mut s = u64_to_string(n / 10);
        let d = digit_string(n % 10);
        s.append(d.as_str());
        proof {
            assert(s@ =~= spec_decimal(n as int / 10).push(digit_char(n as int % 10)));
        }
        s
    }
}

/// The alert line for one discrepancy: the name, the expected count,
/// and the observed count in brackets.
pub open spec fn spec_message(d: (Seq<char>, u16, u64)) -> Seq<char> {
    d.0 + ": "@ + spec_decimal(d.1 as int) + " not matched ["@ + spec_decimal(d.2 as int) + "]"@
}

/// Render the alert line for `d`.
pub fn notification_text(d: &Discrepancy) -> (r: String)
    ensures
        r@ == spec_message(d@),
{
    let mut s = String::from_str(d.name.as_str());
    s.append(": ");
    let e = u64_to_string(d.expected as u64);
    s.append(e.as_str());
    s.append(" not matched [");
    let o = u64_to_string(d.observed);
    s.append(o.as_str());
    s.append("]");
    proof {
        assert(s@ =~= spec_message(d@));
    }
    s
}

/// One alert line per discrepancy, in order: discrepancies are never
/// merged, dropped or reordered on their way to the notifier.
pub fn notification_texts(ds: &Vec<Discrepancy>) -> (r: Vec<String>)
    ensures
        r@.len() == ds@.len(),
        forall|k: int| 0 <= k < ds@.len() ==> (#[trigger] r@[k])@ == spec_message(ds@[k]@),
{
    let mut r: Vec<String> = Vec::new();
    let mut i: usize = 0;
    while i < ds.len()
        invariant
            0 <= i <= ds.len(),
            r@.len() == i,
            forall|k: int| 0 <= k < i ==> (#[trigger] r@[k])@ == spec_message(ds@[k]@),
        decreases ds.len() - i,
    {
        let t = notification_text(&ds[i]);
        r.push(t);
        i += 1;
    }
    r
}

} // verus!
