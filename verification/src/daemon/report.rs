//! The table of destinations.

use crate::state::types::{DestinationView, DestinationViewModel};
use crate::text::{chars_of, decimal_text, number, views};
use vstd::prelude::*;

verus! {

/// A text filled up with blanks to a width.
pub open spec fn padded(s: Seq<char>, width: int) -> Seq<char> {
    if s.len() < width {
        s + Seq::new((width - s.len()) as nat, |i: int| ' ')
    } else {
        s
    }
}

/// A text filled up with blanks to a width.
pub fn pad(s: &str, width: usize) -> (r: String)
    ensures
        r@ == padded(s@, width as int),
{
    let n: usize = chars_of(s).len();
    let mut r = s.to_string();
    if n < width {
        let missing: usize = width - n;
        proof {
            assert(r@ =~= s@ + Seq::new(0, |i: int| ' '));
        }
        for i in 0..missing
            invariant
                r@ == s@ + Seq::new(i as nat, |i: int| ' '),
        {
            r.push(' ');
            proof {
                assert(r@ =~= s@ + Seq::new((i + 1) as nat, |i: int| ' '));
            }
        }
    }
    r
}

/// An identifier as it is shown; a dash where there is none.
pub open spec fn shown_id(id: Option<i64>) -> Seq<char> {
    match id {
        Some(n) => if n < 0 {
            "-"@ + decimal_text((-n) as nat)
        } else {
            decimal_text(n as nat)
        },
        None => "-"@,
    }
}

/// An identifier as it is shown; a dash where there is none.
pub fn show_id(id: Option<i64>) -> (r: String)
    ensures
        r@ == shown_id(id),
{
    match id {
        Some(n) => {
            let wide: i128 = n as i128;
            if wide < 0 {
                let mut r = "-".to_string();
                r.append(number((-wide) as u128, 10).as_str());
                r
            } else {
                number(wide as u128, 10)
            }
        },
        None => "-".to_string(),
    }
}

/// A line of the table.
pub open spec fn table_line(
    a: Seq<char>,
    b: Seq<char>,
    c: Seq<char>,
    d: Seq<char>,
    e: Seq<char>,
    f: Seq<char>,
) -> Seq<char> {
    padded(a, 18).push(' ') + padded(b, 18).push(' ') + padded(c, 7).push(' ') + padded(
        d,
        12,
    ).push(' ') + padded(e, 12).push(' ') + f
}

/// A line of the table.
fn line(a: &str, b: &str, c: &str, d: &str, e: &str, f: &str) -> (r: String)
    ensures
        r@ == table_line(a@, b@, c@, d@, e@, f@),
{
    let mut r = pad(a, 18);
    r.push(' ');
    let mut second = pad(b, 18);
    second.push(' ');
    r.append(second.as_str());
    let mut third = pad(c, 7);
    third.push(' ');
    r.append(third.as_str());
    let mut fourth = pad(d, 12);
    fourth.push(' ');
    r.append(fourth.as_str());
    let mut fifth = pad(e, 12);
    fifth.push(' ');
    r.append(fifth.as_str());
    r.append(f);
    r
}

/// The line of a destination.
pub open spec fn destination_line(v: DestinationViewModel) -> Seq<char> {
    table_line(
        v.source_id,
        v.destination_id,
        v.status,
        shown_id(v.latest_closed_cycle_id),
        shown_id(v.last_verified_cycle_id),
        v.status_reason,
    )
}

/// The lines that show destinations: a heading, and a line for each.
pub open spec fn status_table(vs: Seq<DestinationViewModel>) -> Seq<Seq<char>> {
    if vs.len() == 0 {
        seq!["no destinations configured"@]
    } else {
        seq![
            table_line(
                "SOURCE"@,
                "DESTINATION"@,
                "STATUS"@,
                "LATEST"@,
                "VERIFIED"@,
                "REASON"@,
            ),
        ] + Seq::new(vs.len(), |i: int| destination_line(vs[i]))
    }
}

/// The lines that show destinations.
pub fn print_status(vs: &Vec<DestinationView>) -> (out: Vec<String>)
    ensures
        views(out@) == status_table(views(vs@)),
{
    let mut out: Vec<String> = Vec::new();
    if vs.len() == 0 {
        out.push("no destinations configured".to_string());
        proof {
            assert(views(out@) =~= seq!["no destinations configured"@]);
        }
        return out;
    }
    out.push(line("SOURCE", "DESTINATION", "STATUS", "LATEST", "VERIFIED", "REASON"));
    for i in 0..vs.len()
        invariant
            out.len() == i + 1,
            out@[0]@ == table_line(
                "SOURCE"@,
                "DESTINATION"@,
                "STATUS"@,
                "LATEST"@,
                "VERIFIED"@,
                "REASON"@,
            ),
            forall|j: int| 1 <= j <= i ==> (#[trigger] out@[j])@ == destination_line(vs@[j - 1]@),
    {
        let v = &vs[i];
        out.push(
            line(
                v.source_id.as_str(),
                v.destination_id.as_str(),
                v.status.as_str(),
                show_id(v.latest_closed_cycle_id).as_str(),
                show_id(v.last_verified_cycle_id).as_str(),
                v.status_reason.as_str(),
            ),
        );
    }
    proof {
        assert(views(out@) =~= status_table(views(vs@)));
    }
    out
}

/// Every destination has a line of its own, in their order behind the heading, that begins with its
/// source and ends with its reason.
pub proof fn every_destination_has_a_line(vs: Seq<DestinationViewModel>, i: int)
    requires
        0 <= i < vs.len(),
    ensures
        status_table(vs).len() == vs.len() + 1,
        vs[i].source_id.is_prefix_of(status_table(vs)[i + 1]),
        vs[i].status_reason.is_suffix_of(status_table(vs)[i + 1]),
{
    let v = vs[i];
    let line = status_table(vs)[i + 1];
    assert(line == destination_line(v));
    let first = padded(v.source_id, 18);
    assert(first.len() >= v.source_id.len());
    assert(line.subrange(0, v.source_id.len() as int) =~= v.source_id);
    assert(line.subrange(line.len() - v.status_reason.len(), line.len() as int)
        =~= v.status_reason);
}

} // verus!
