//! The specification parser. The specification text is a line-based
//! document:
//!
//! ```text
//! process:
//!   - name: worker
//!     count: 3
//!   - name: cache
//!     count: 1
//! ```
//!
//! The first non-empty line must read `process:` exactly. Each entry
//! is a pair of adjacent lines: `  - name: ` followed by the name
//! (the rest of the line, verbatim and non-empty), then `    count: `
//! followed by the expected count in decimal digits (at most 65535).
//! Empty lines before the header, between entries and after the last
//! entry are ignored. Names must be pairwise distinct.

use vstd::prelude::*;
use crate::model::{
    ProcessExpectation, ProcessSpecification, entry_views, has_duplicate_name,
};

verus! {

/// The reason a specification text was rejected.
#[derive(Clone, Copy, Debug, PartialEq, Eq, Structural)]
pub enum ParseError {
    /// The first non-empty line is missing or is not the header.
    MissingHeader,
    /// A non-empty line where an entry's name line was due is not one.
    ExpectedName,
    /// A name line is not followed by a count line.
    MissingCount,
    /// A count is empty, not all decimal digits, or over 65535.
    InvalidCount,
    /// Two entries carry the same name.
    DuplicateName,
}

/// The lines of `s`, split on `'\n'` taken as a separator: a text
/// without one is a single line, and every `'\n'` opens a new
/// (possibly empty) line.
pub open spec fn spec_lines(s: Seq<char>) -> Seq<Seq<char>>
    decreases s.len(),
{
    if s.len() == 0 {
        seq![Seq::<char>::empty()]
    } else {
        let prev = spec_lines(s.drop_last());
        if s.last() == '\n' {
            prev.push(Seq::<char>::empty())
        } else {
            prev.update(prev.len() - 1, prev.last().push(s.last()))
        }
    }
}

/// A text always has at least one line.
pub proof fn lemma_spec_lines_nonempty(s: Seq<char>)
    ensures
        spec_lines(s).len() >= 1,
    decreases s.len(),
{
    if s.len() > 0 {
        lemma_spec_lines_nonempty(s.drop_last());
    }
}

/// The views of a sequence of owned lines.
pub open spec fn line_views(v: Seq<String>) -> Seq<Seq<char>> {
    v.map_values(|l: String| l@)
}

/// Split `text` into its lines.
fn split_lines(text: &str) -> (r: Vec<String>)
    ensures
        line_views(r@) == spec_lines(text@),
{
    let n = text.unicode_len();
    let mut lines: Vec<String> = Vec::new();
    let mut start: usize = 0;
    let mut i: usize = 0;
    proof {
        assert(text@.take(0) =~= Seq::<char>::empty());
        assert(text@.subrange(0, 0) =~= Seq::<char>::empty());
        assert(spec_lines(text@.take(0)) =~= line_views(lines@).push(text@.subrange(0, 0)));
    }
    while i < n
        invariant
            0 <= start <= i <= n,
            n == text@.len(),
            spec_lines(text@.take(i as int)) == line_views(lines@).push(
                text@.subrange(start as int, i as int),
            ),
        decreases n - i,
    {
        let c = text.get_char(i);
        proof {
            assert(text@.take(i as int + 1).drop_last() =~= text@.take(i as int));
            assert(text@.take(i as int + 1).last() == text@[i as int]);
            lemma_spec_lines_nonempty(text@.take(i as int));
        }
        if c == '\n' {
            let line = text.substring_char(start, i);
            let ghost old_views = line_views(lines@);
            let ghost old_piece = text@.subrange(start as int, i as int);
            lines.push(String::from_str(line));
            start = i + 1;
            proof {
                assert(line_views(lines@) =~= old_views.push(old_piece));
                assert(text@.subrange(start as int, start as int) =~= Seq::<char>::empty());
                assert(spec_lines(text@.take(i as int + 1)) =~= line_views(lines@).push(
                    text@.subrange(start as int, start as int),
                ));
            }
        } else {
            proof {
                let prev = spec_lines(text@.take(i as int));
                assert(prev.last() == text@.subrange(start as int, i as int));
                assert(text@.subrange(start as int, i as int).push(text@[i as int]) =~= text@
                    .subrange(start as int, i as int + 1));
                assert(spec_lines(text@.take(i as int + 1)) =~= line_views(lines@).push(
                    text@.subrange(start as int, i as int + 1),
                ));
            }
        }
        i += 1;
    }
    let line = text.substring_char(start, n);
    let ghost old_views = line_views(lines@);
    lines.push(String::from_str(line));
    proof {
        assert(text@.take(n as int) =~= text@);
        assert(line_views(lines@) =~= old_views.push(text@.subrange(start as int, n as int)));
    }
    lines
}

/// The line is the document header.
pub open spec fn is_header_line(l: Seq<char>) -> bool {
    l == "process:"@
}

/// The line opens an entry: the name prefix followed by a non-empty
/// name.
pub open spec fn is_name_line(l: Seq<char>) -> bool {
    l.len() > 10 && l.subrange(0, 10) == "  - name: "@
}

/// The name a name line carries: everything after the prefix,
/// verbatim.
pub open spec fn name_of(l: Seq<char>) -> Seq<char> {
    l.subrange(10, l.len() as int)
}

/// The line gives an entry's count: the count prefix followed by the
/// digits (validated separately).
pub open spec fn is_count_line(l: Seq<char>) -> bool {
    l.len() >= 11 && l.subrange(0, 11) == "    count: "@
}

/// `c` is a decimal digit.
pub open spec fn is_digit(c: char) -> bool {
    48 <= c as u32 <= 57
}

/// Every character of `d` is a decimal digit.
pub open spec fn all_digits(d: Seq<char>) -> bool {
    forall|k: int| 0 <= k < d.len() ==> is_digit(#[trigger] d[k])
}

/// The value of the digit character `c`.
pub open spec fn digit_val(c: char) -> int {
    c as u32 - 48
}

/// The value of the digit string `d` read in decimal.
pub open spec fn dec_val(d: Seq<char>) -> int
    decreases d.len(),
{
    if d.len() == 0 {
        0
    } else {
        dec_val(d.drop_last()) * 10 + digit_val(d.last())
    }
}

/// A digit string's value never shrinks as it grows to the right.
proof fn lemma_dec_val_prefix(d: Seq<char>, m: int)
    requires
        0 <= m <= d.len(),
        all_digits(d),
    ensures
        0 <= dec_val(d.take(m)) <= dec_val(d),
    decreases d.len() - m,
{
    if m == d.len() {
        assert(d.take(m) =~= d);
        lemma_dec_val_nonneg(d);
    } else {
        lemma_dec_val_prefix(d, m + 1);
        assert(d.take(m + 1).drop_last() =~= d.take(m));
        assert(d.take(m + 1).last() == d[m]);
        lemma_dec_val_nonneg(d.take(m));
        assert(is_digit(d[m]));
        assert(dec_val(d.take(m)) * 10 >= dec_val(d.take(m))) by (nonlinear_arith)
            requires
                dec_val(d.take(m)) >= 0,
        ;
    }
}

/// A digit string's value is non-negative.
proof fn lemma_dec_val_nonneg(d: Seq<char>)
    requires
        all_digits(d),
    ensures
        dec_val(d) >= 0,
    decreases d.len(),
{
    if d.len() > 0 {
        assert(all_digits(d.drop_last())) by {
            assert(forall|k: int| 0 <= k < d.len() - 1 ==> d.drop_last()[k] == d[k]);
        }
        lemma_dec_val_nonneg(d.drop_last());
        assert(is_digit(d.last()));
        assert(dec_val(d.drop_last()) * 10 >= 0) by (nonlinear_arith)
            requires
                dec_val(d.drop_last()) >= 0,
        ;
    }
}

/// The count a count line yields: the digits after the prefix, read
/// in decimal, rejected when empty, non-numeric or over 65535.
pub open spec fn spec_count_of(l: Seq<char>) -> Result<u16, ParseError> {
    let d = l.subrange(11, l.len() as int);
    if d.len() == 0 || !all_digits(d) {
        Err(ParseError::InvalidCount)
    } else if dec_val(d) > 65535 {
        Err(ParseError::InvalidCount)
    } else {
        Ok(dec_val(d) as u16)
    }
}

/// Does `s` start with `p`?
fn has_prefix(s: &str, p: &str) -> (r: bool)
    ensures
        r == (s@.len() >= p@.len() && s@.subrange(0, p@.len() as int) == p@),
{
    let pn = p.unicode_len();
    let sn = s.unicode_len();
    if sn < pn {
        return false;
    }
    let mut k: usize = 0;
    while k < pn
        invariant
            0 <= k <= pn <= sn,
            sn == s@.len(),
            pn == p@.len(),
            forall|t: int| 0 <= t < k ==> s@[t] == p@[t],
        decreases pn - k,
    {
        if s.get_char(k) != p.get_char(k) {
            proof {
                assert(s@.subrange(0, pn as int)[k as int] == s@[k as int]);
            }
            return false;
        }
        k += 1;
    }
    proof {
        assert(s@.subrange(0, pn as int) =~= p@);
    }
    true
}

/// Read the digits of a count line.
fn parse_count_digits(line: &str) -> (r: Result<u16, ParseError>)
    requires
        is_count_line(line@),
    ensures
        r == spec_count_of(line@),
{
    let n = line.unicode_len();
    let ghost d = line@.subrange(11, n as int);
    if n == 11 {
        proof {
            assert(d.len() == 0);
        }
        return Err(ParseError::InvalidCount);
    }
    let mut val: u32 = 0;
    let mut k: usize = 11;
    proof {
        assert(line@.subrange(11, 11) =~= Seq::<char>::empty());
        assert(d.take(0) =~= line@.subrange(11, 11));
    }
    while k < n
        invariant
            11 <= k <= n,
            n == line@.len(),
            n > 11,
            d == line@.subrange(11, n as int),
            d.len() == n - 11,
            all_digits(d.take(k as int - 11)),
            val == dec_val(d.take(k as int - 11)),
            val <= 65535,
        decreases n - k,
    {
        let c = line.get_char(k);
        proof {
            assert(d[k as int - 11] == line@[k as int]);
            assert(d.take(k as int - 10).drop_last() =~= d.take(k as int - 11));
            assert(d.take(k as int - 10).last() == d[k as int - 11]);
        }
        let u = c as u32;
        if u < 48 || u > 57 {
            proof {
                assert(!is_digit(d[k as int - 11]));
            }
            return Err(ParseError::InvalidCount);
        }
        let nv = val * 10 + (u - 48);
        if nv > 65535 {
            proof {
                assert(all_digits(d.take(k as int - 10))) by {
                    assert(forall|t: int|
                        0 <= t < k - 11 ==> #[trigger] d.take(k as int - 10)[t] == d.take(
                            k as int - 11,
                        )[t]);
                }
                if all_digits(d) {
                    lemma_dec_val_prefix(d, k as int - 10);
                    assert(dec_val(d) >= nv);
                }
            }
            return Err(ParseError::InvalidCount);
        }
        val = nv;
        k += 1;
    }
    proof {
        assert(d.take(n as int - 11) =~= d);
    }
    Ok(val as u16)
}

/// Parse the entries among `lines` from position `i` on: name line and
/// count line in adjacent pairs, empty lines in between ignored.
pub open spec fn spec_parse_entries(lines: Seq<Seq<char>>, i: int) -> Result<
    Seq<(Seq<char>, u16)>,
    ParseError,
>
    decreases lines.len() - i,
{
    if i >= lines.len() {
        Ok(Seq::empty())
    } else if lines[i].len() == 0 {
        spec_parse_entries(lines, i + 1)
    } else if is_name_line(lines[i]) {
        if i + 1 < lines.len() && is_count_line(lines[i + 1]) {
            match spec_count_of(lines[i + 1]) {
                Ok(c) => match spec_parse_entries(lines, i + 2) {
                    Ok(rest) => Ok(seq![(name_of(lines[i]), c)] + rest),
                    Err(e) => Err(e),
                },
                Err(e) => Err(e),
            }
        } else {
            Err(ParseError::MissingCount)
        }
    } else {
        Err(ParseError::ExpectedName)
    }
}

/// Parse a whole document given as lines: skip empty lines, require
/// the header, then the entries.
pub open spec fn spec_parse_lines(lines: Seq<Seq<char>>, i: int) -> Result<
    Seq<(Seq<char>, u16)>,
    ParseError,
>
    decreases lines.len() - i,
{
    if i >= lines.len() {
        Err(ParseError::MissingHeader)
    } else if lines[i].len() == 0 {
        spec_parse_lines(lines, i + 1)
    } else if is_header_line(lines[i]) {
        spec_parse_entries(lines, i + 1)
    } else {
        Err(ParseError::MissingHeader)
    }
}

/// Parse a specification text: its lines as above, with entries of
/// duplicate name rejected.
pub open spec fn spec_parse(text: Seq<char>) -> Result<Seq<(Seq<char>, u16)>, ParseError> {
    match spec_parse_lines(spec_lines(text), 0) {
        Ok(es) => if has_duplicate_name(es) {
            Err(ParseError::DuplicateName)
        } else {
            Ok(es)
        },
        Err(e) => Err(e),
    }
}

/// Do two entries share a name?
fn find_duplicate_name(entries: &Vec<ProcessExpectation>) -> (r: bool)
    ensures
        r == has_duplicate_name(entry_views(entries@)),
{
    let ghost ev = entry_views(entries@);
    let mut i: usize = 1;
    while i < entries.len()
        invariant
            1 <= i <= entries.len() || entries.len() == 0,
            ev == entry_views(entries@),
            ev.len() == entries@.len(),
            forall|a: int, b: int| 0 <= a < b < i ==> (#[trigger] ev[a]).0 != (#[trigger] ev[b]).0,
        decreases entries.len() - i,
    {
        let mut j: usize = 0;
        while j < i
            invariant
                0 <= j <= i < entries.len(),
                ev == entry_views(entries@),
                ev.len() == entries@.len(),
                forall|a: int| 0 <= a < j ==> (#[trigger] ev[a]).0 != ev[i as int].0,
            decreases i - j,
        {
            proof {
                assert(ev[j as int] == entries@[j as int]@);
                assert(ev[i as int] == entries@[i as int]@);
            }
            if entries[j].name == entries[i].name {
                proof {
                    assert(ev[j as int].0 == ev[i as int].0);
                    assert(has_duplicate_name(ev));
                }
                return true;
            }
            j += 1;
        }
        i += 1;
    }
    proof {
        if has_duplicate_name(ev) {
            let (a, b): (int, int) = choose|a: int, b: int|
                0 <= a < b < ev.len() && ev[a].0 == ev[b].0;
            assert(false);
        }
    }
    false
}

/// Parse the specification text. Returns the parsed specification —
/// its entries in declared order, names pairwise distinct — or the
/// first error of the grammar above.
pub fn parse_specification(text: &str) -> (r: Result<ProcessSpecification, ParseError>)
    ensures
        match r {
            Ok(sp) => spec_parse(text@) == Ok::<Seq<(Seq<char>, u16)>, ParseError>(sp@)
                && sp.wf(),
            Err(e) => spec_parse(text@) == Err::<Seq<(Seq<char>, u16)>, ParseError>(e),
        },
{
    let lines = split_lines(text);
    let ghost ls = spec_lines(text@);
    let mut i: usize = 0;
    while i < lines.len() && lines[i].as_str().is_empty()
        invariant
            0 <= i <= lines.len(),
            ls == line_views(lines@),
            ls.len() == lines@.len(),
            spec_parse_lines(ls, 0) == spec_parse_lines(ls, i as int),
        decreases lines.len() - i,
    {
        proof {
            assert(ls[i as int] == lines@[i as int]@);
        }
        i += 1;
    }
    if i == lines.len() {
        return Err(ParseError::MissingHeader);
    }
    proof {
        assert(ls[i as int] == lines@[i as int]@);
        assert(ls[i as int].len() != 0);
    }
    let hn = lines[i].as_str().unicode_len();
    if !(hn == 8 && has_prefix(lines[i].as_str(), "process:")) {
        proof {
            reveal_strlit("process:");
            assert(!is_header_line(ls[i as int])) by {
                if ls[i as int] == "process:"@ {
                    assert(ls[i as int].subrange(0, 8) =~= "process:"@);
                }
            }
        }
        return Err(ParseError::MissingHeader);
    }
    proof {
        reveal_strlit("process:");
        assert(ls[i as int].subrange(0, 8) =~= ls[i as int]);
        assert(is_header_line(ls[i as int]));
    }
    let ghost start = i as int + 1;
    let mut entries: Vec<ProcessExpectation> = Vec::new();
    let mut j: usize = i + 1;
    proof {
        assert(entry_views(entries@) =~= Seq::<(Seq<char>, u16)>::empty());
        assert(match spec_parse_entries(ls, j as int) {
            Ok(rest) => spec_parse_entries(ls, start) == Ok::<Seq<(Seq<char>, u16)>, ParseError>(
                entry_views(entries@) + rest,
            ),
            Err(e) => spec_parse_entries(ls, start) == Err::<Seq<(Seq<char>, u16)>, ParseError>(
                e,
            ),
        }) by {
            if spec_parse_entries(ls, start) is Ok {
                assert(entry_views(entries@) + spec_parse_entries(ls, start)->Ok_0
                    =~= spec_parse_entries(ls, start)->Ok_0);
            }
        }
    }
    while j < lines.len()
        invariant
            i < j <= lines.len(),
            start == i as int + 1,
            ls == line_views(lines@),
            ls == spec_lines(text@),
            ls.len() == lines@.len(),
            spec_parse_lines(ls, 0) == spec_parse_entries(ls, start),
            match spec_parse_entries(ls, j as int) {
                Ok(rest) => spec_parse_entries(ls, start) == Ok::<
                    Seq<(Seq<char>, u16)>,
                    ParseError,
                >(entry_views(entries@) + rest),
                Err(e) => spec_parse_entries(ls, start) == Err::<
                    Seq<(Seq<char>, u16)>,
                    ParseError,
                >(e),
            },
        decreases lines.len() - j,
    {
        proof {
            assert(ls[j as int] == lines@[j as int]@);
        }
        let line = &lines[j];
        let n = line.as_str().unicode_len();
        if n == 0 {
            j += 1;
            continue ;
        }
        if !(n > 10 && has_prefix(line.as_str(), "  - name: ")) {
            proof {
                reveal_strlit("  - name: ");
                assert(!is_name_line(ls[j as int]));
            }
            return Err(ParseError::ExpectedName);
        }
        proof {
            reveal_strlit("  - name: ");
            assert(is_name_line(ls[j as int]));
        }
        let name = String::from_str(line.as_str().substring_char(10, n));
        proof {
            assert(name@ =~= name_of(ls[j as int]));
        }
        if j + 1 == lines.len() {
            return Err(ParseError::MissingCount);
        }
        proof {
            assert(ls[j as int + 1] == lines@[j as int + 1]@);
        }
        let cline = &lines[j + 1];
        let cn = cline.as_str().unicode_len();
        if !(cn >= 11 && has_prefix(cline.as_str(), "    count: ")) {
            proof {
                reveal_strlit("    count: ");
                assert(!is_count_line(ls[j as int + 1]));
            }
            return Err(ParseError::MissingCount);
        }
        proof {
            reveal_strlit("    count: ");
            assert(is_count_line(ls[j as int + 1]));
        }
        let count = match parse_count_digits(cline.as_str()) {
            Ok(c) => c,
            Err(e) => {
                return Err(e);
            },
        };
        let ghost old_views = entry_views(entries@);
        entries.push(ProcessExpectation { name, count });
        proof {
            assert(entry_views(entries@) =~= old_views.push(
                (name_of(ls[j as int]), count),
            ));
            assert(match spec_parse_entries(ls, j as int + 2) {
                Ok(rest) => entry_views(entries@) + rest =~= old_views + (seq![
                    (name_of(ls[j as int]), count),
                ] + rest),
                Err(e) => true,
            });
        }
        j += 2;
    }
    proof {
        assert(spec_parse_entries(ls, j as int) == Ok::<Seq<(Seq<char>, u16)>, ParseError>(
            Seq::empty(),
        ));
        assert(entry_views(entries@) + Seq::<(Seq<char>, u16)>::empty() =~= entry_views(
            entries@,
        ));
        assert(spec_parse_entries(ls, start) == Ok::<Seq<(Seq<char>, u16)>, ParseError>(
            entry_views(entries@),
        ));
    }
    if find_duplicate_name(&entries) {
        return Err(ParseError::DuplicateName);
    }
    let sp = ProcessSpecification { entries };
    Ok(sp)
}

} // verus!
