//! Paths of destinations that have problems.

use crate::seqs::{first_where, lemma_first_where, lemma_first_where_is};
use crate::sorted::{comes_before_is_total, comes_before_is_transitive};
use crate::state::types::{
    DestinationIssueView, DestinationIssueViewModel, IssueRow, IssueRowModel, State, StateModel,
};
use crate::text::{comes_before, is_before, same, views};
use vstd::prelude::*;

verus! {

/// The test for problems that are not of a destination and a kind.
pub open spec fn not_of_kind(
    source_id: Seq<char>,
    destination_id: Seq<char>,
    kind: Seq<char>,
) -> spec_fn(IssueRowModel) -> bool {
    |i: IssueRowModel|
        !(i.source_id == source_id && i.destination_id == destination_id && i.issue_kind == kind)
}

/// The test for problems of a destination.
pub open spec fn issue_of(source_id: Seq<char>, destination_id: Seq<char>) -> spec_fn(
    IssueRowModel,
) -> bool {
    |i: IssueRowModel| i.source_id == source_id && i.destination_id == destination_id
}

/// Where a problem shows up twice, it is the same one.
pub open spec fn same_issue(row: IssueRowModel) -> spec_fn(IssueRowModel) -> bool {
    |i: IssueRowModel|
        i.source_id == row.source_id && i.destination_id == row.destination_id && i.rel_path
            == row.rel_path && i.issue_kind == row.issue_kind
}

/// The problems with one of them replaced, or added where there was none.
pub open spec fn with_issue(is: Seq<IssueRowModel>, row: IssueRowModel) -> Seq<IssueRowModel> {
    let k = first_where(is, same_issue(row));
    if k < is.len() {
        is.update(k, row)
    } else {
        is.push(row)
    }
}

/// The problems with one of each path.
pub open spec fn with_issues(
    is: Seq<IssueRowModel>,
    row: IssueRowModel,
    paths: Seq<Seq<char>>,
) -> Seq<IssueRowModel>
    decreases paths.len(),
{
    if paths.len() == 0 {
        is
    } else {
        with_issue(
            with_issues(is, row, paths.drop_last()),
            IssueRowModel { rel_path: paths.last(), ..row },
        )
    }
}

/// A problem as it is shown.
pub open spec fn shown_issue(i: IssueRowModel) -> DestinationIssueViewModel {
    DestinationIssueViewModel {
        cycle_id: i.cycle_id,
        rel_path: i.rel_path,
        issue_kind: i.issue_kind,
        message: i.message,
        updated_at: i.updated_at,
    }
}

/// Whether a problem is shown before another: the newer first, then by path.
pub open spec fn shown_before(
    a: DestinationIssueViewModel,
    b: DestinationIssueViewModel,
) -> bool {
    comes_before(b.updated_at, a.updated_at) || (a.updated_at == b.updated_at && comes_before(
        a.rel_path,
        b.rel_path,
    ))
}

/// The test for problems that another one is shown before.
pub open spec fn follows(a: DestinationIssueViewModel) -> spec_fn(DestinationIssueViewModel) -> bool {
    |b: DestinationIssueViewModel| shown_before(a, b)
}

/// A list with a problem put before the first one that follows it.
pub open spec fn issue_inserted(
    s: Seq<DestinationIssueViewModel>,
    x: DestinationIssueViewModel,
) -> Seq<DestinationIssueViewModel> {
    s.insert(first_where(s, follows(x)), x)
}

/// The problems of a destination among the rows, in the order in which they are shown.
pub open spec fn shown_issues(
    is: Seq<IssueRowModel>,
    source_id: Seq<char>,
    destination_id: Seq<char>,
) -> Seq<DestinationIssueViewModel>
    decreases is.len(),
{
    if is.len() == 0 {
        Seq::empty()
    } else {
        let before = shown_issues(is.drop_last(), source_id, destination_id);
        if issue_of(source_id, destination_id)(is.last()) {
            issue_inserted(before, shown_issue(is.last()))
        } else {
            before
        }
    }
}

/// Whether the first problem is shown before the second.
fn is_shown_before(a: &DestinationIssueView, b: &DestinationIssueView) -> (r: bool)
    ensures
        r == shown_before(a@, b@),
{
    is_before(b.updated_at.as_str(), a.updated_at.as_str()) || (same(
        a.updated_at.as_str(),
        b.updated_at.as_str(),
    ) && is_before(a.rel_path.as_str(), b.rel_path.as_str()))
}

impl State {
    /// Adds a problem, in place of the same one.
    fn put_issue(&mut self, row: IssueRow)
        ensures
            final(self)@ == (StateModel {
                issues: with_issue(old(self)@.issues, row@),
                ..old(self)@
            }),
    {
        let ghost is = self@.issues;
        let ghost rv = row@;
        let ghost test = same_issue(rv);
        let mut k: usize = 0;
        let mut found = false;
        while k < self.issues.len() && !found
            invariant
                k <= self.issues.len(),
                *self == *old(self),
                is == views(self.issues@),
                rv == row@,
                test == same_issue(rv),
                forall|j: int| 0 <= j < k ==> !test(#[trigger] is[j]),
                found ==> k < is.len() && test(is[k as int]),
            decreases
                self.issues.len() - k,
                if found {
                    0int
                } else {
                    1int
                },
        {
            let i = &self.issues[k];
            proof {
                assert(is[k as int] == i@);
            }
            if same(i.source_id.as_str(), row.source_id.as_str()) && same(
                i.destination_id.as_str(),
                row.destination_id.as_str(),
            ) && same(i.rel_path.as_str(), row.rel_path.as_str()) && same(
                i.issue_kind.as_str(),
                row.issue_kind.as_str(),
            ) {
                found = true;
            } else {
                k = k + 1;
            }
        }
        proof {
            lemma_first_where_is(is, test, k as int);
        }
        if found {
            self.issues.set(k, row);
            proof {
                assert(self@.issues =~= is.update(k as int, rv));
            }
        } else {
            self.issues.push(row);
            proof {
                assert(self@.issues =~= is.push(rv));
            }
        }
    }

    /// Replaces the problems of a destination that are of one kind.
    pub fn replace_destination_issues(
        &mut self,
        source_id: &str,
        destination_id: &str,
        cycle_id: i64,
        issue_kind: &str,
        paths: &Vec<String>,
        message: &str,
        now: &str,
    )
        ensures
            final(self)@ == (StateModel {
                issues: with_issues(
                    old(self)@.issues.filter(not_of_kind(source_id@, destination_id@, issue_kind@)),
                    IssueRowModel {
                        source_id: source_id@,
                        destination_id: destination_id@,
                        cycle_id: Some(cycle_id),
                        rel_path: ""@,
                        issue_kind: issue_kind@,
                        message: message@,
                        updated_at: now@,
                    },
                    views(paths@),
                ),
                ..old(self)@
            }),
    {
        let ghost all = self@.issues;
        let ghost keep = not_of_kind(source_id@, destination_id@, issue_kind@);
        let n: usize = self.issues.len();
        let mut kept: Vec<IssueRow> = Vec::new();
        proof {
            assert(views(kept@) =~= all.take(0).filter(keep));
        }
        for i in 0..n
            invariant
                n == self.issues.len(),
                *self == *old(self),
                all == views(self.issues@),
                keep == not_of_kind(source_id@, destination_id@, issue_kind@),
                views(kept@) == all.take(i as int).filter(keep),
        {
            let issue = &self.issues[i];
            let ghost was = views(kept@);
            proof {
                assert(all[i as int] == issue@);
                assert(all.take(i + 1) =~= all.take(i as int).push(issue@));
                all.take(i as int).lemma_filter_push(issue@, keep);
            }
            if !(same(issue.source_id.as_str(), source_id) && same(
                issue.destination_id.as_str(),
                destination_id,
            ) && same(issue.issue_kind.as_str(), issue_kind)) {
                kept.push(issue.clone());
                proof {
                    assert(views(kept@) =~= was.push(issue@));
                }
            }
        }
        proof {
            assert(all.take(all.len() as int) =~= all);
        }
        self.issues = kept;
        let ghost rest = self@.issues;
        let ghost ps = views(paths@);
        let ghost row = IssueRowModel {
            source_id: source_id@,
            destination_id: destination_id@,
            cycle_id: Some(cycle_id),
            rel_path: ""@,
            issue_kind: issue_kind@,
            message: message@,
            updated_at: now@,
        };
        proof {
            assert(ps.take(0) =~= Seq::empty());
        }
        for i in 0..paths.len()
            invariant
                ps == views(paths@),
                row == (IssueRowModel {
                    source_id: source_id@,
                    destination_id: destination_id@,
                    cycle_id: Some(cycle_id),
                    rel_path: ""@,
                    issue_kind: issue_kind@,
                    message: message@,
                    updated_at: now@,
                }),
                self@ == (StateModel {
                    issues: with_issues(rest, row, ps.take(i as int)),
                    ..old(self)@
                }),
        {
            proof {
                assert(ps[i as int] == paths@[i as int]@);
                assert(ps.take(i + 1).drop_last() =~= ps.take(i as int));
            }
            let issue = IssueRow {
                source_id: source_id.to_string(),
                destination_id: destination_id.to_string(),
                cycle_id: Some(cycle_id),
                rel_path: paths[i].clone(),
                issue_kind: issue_kind.to_string(),
                message: message.to_string(),
                updated_at: now.to_string(),
            };
            self.put_issue(issue);
        }
        proof {
            assert(ps.take(ps.len() as int) =~= ps);
        }
    }

    /// The problems of a destination, the newest first, then by path.
    pub fn destination_issues(&self, source_id: &str, destination_id: &str) -> (out: Vec<
        DestinationIssueView,
    >)
        ensures
            views(out@) == shown_issues(self@.issues, source_id@, destination_id@),
    {
        let ghost is = self@.issues;
        let mut out: Vec<DestinationIssueView> = Vec::new();
        proof {
            assert(views(out@) =~= shown_issues(is.take(0), source_id@, destination_id@));
        }
        for i in 0..self.issues.len()
            invariant
                is == views(self.issues@),
                views(out@) == shown_issues(is.take(i as int), source_id@, destination_id@),
        {
            let row = &self.issues[i];
            proof {
                assert(is[i as int] == row@);
                assert(is.take(i + 1).drop_last() =~= is.take(i as int));
            }
            if same(row.source_id.as_str(), source_id) && same(
                row.destination_id.as_str(),
                destination_id,
            ) {
                let issue = DestinationIssueView {
                    cycle_id: row.cycle_id,
                    rel_path: row.rel_path.clone(),
                    issue_kind: row.issue_kind.clone(),
                    message: row.message.clone(),
                    updated_at: row.updated_at.clone(),
                };
                let ghost shown = views(out@);
                let ghost x = issue@;
                let ghost test = follows(x);
                let mut k: usize = 0;
                while k < out.len() && !is_shown_before(&issue, &out[k])
                    invariant
                        k <= out.len(),
                        shown == views(out@),
                        x == issue@,
                        test == follows(x),
                        forall|j: int| 0 <= j < k ==> !test(#[trigger] shown[j]),
                    decreases out.len() - k,
                {
                    proof {
                        assert(shown[k as int] == out@[k as int]@);
                    }
                    k = k + 1;
                }
                proof {
                    if k < shown.len() {
                        assert(shown[k as int] == out@[k as int]@);
                    }
                    lemma_first_where_is(shown, test, k as int);
                }
                out.insert(k, issue);
                proof {
                    assert(views(out@) =~= shown.insert(k as int, x));
                }
            }
        }
        proof {
            assert(is.take(is.len() as int) =~= is);
        }
        out
    }
}

/// Whether no problem is shown before one that should come first.
pub open spec fn issues_in_order(s: Seq<DestinationIssueViewModel>) -> bool {
    forall|i: int, j: int|
        0 <= i < j < s.len() ==> !shown_before(#[trigger] s[j], #[trigger] s[i])
}

proof fn lemma_not_before_carries(
    a: DestinationIssueViewModel,
    b: DestinationIssueViewModel,
    c: DestinationIssueViewModel,
)
    ensures
        shown_before(a, b) ==> !shown_before(b, a),
        shown_before(a, b) && !shown_before(c, b) ==> shown_before(a, c),
{
    comes_before_is_total(a.updated_at, b.updated_at);
    comes_before_is_total(a.rel_path, b.rel_path);
    comes_before_is_total(b.updated_at, c.updated_at);
    comes_before_is_total(b.rel_path, c.rel_path);
    comes_before_is_total(a.updated_at, c.updated_at);
    if comes_before(b.updated_at, a.updated_at) && comes_before(c.updated_at, b.updated_at) {
        comes_before_is_transitive(c.updated_at, b.updated_at, a.updated_at);
    }
    if comes_before(a.rel_path, b.rel_path) && comes_before(b.rel_path, c.rel_path) {
        comes_before_is_transitive(a.rel_path, b.rel_path, c.rel_path);
    }
}

/// The problems of a destination are shown in order, each as often as it is in the rows.
pub proof fn shown_issues_are_in_order(
    is: Seq<IssueRowModel>,
    source_id: Seq<char>,
    destination_id: Seq<char>,
)
    ensures
        issues_in_order(shown_issues(is, source_id, destination_id)),
        shown_issues(is, source_id, destination_id).len() == is.filter(
            issue_of(source_id, destination_id),
        ).len(),
    decreases is.len(),
{
    let test = issue_of(source_id, destination_id);
    let out = shown_issues(is, source_id, destination_id);
    if is.len() > 0 {
        let fewer = is.drop_last();
        shown_issues_are_in_order(fewer, source_id, destination_id);
        fewer.lemma_filter_push(is.last(), test);
        assert(fewer.push(is.last()) =~= is);
        if test(is.last()) {
            let s = shown_issues(fewer, source_id, destination_id);
            let x = shown_issue(is.last());
            let k = first_where(s, follows(x));
            lemma_first_where(s, follows(x));
            assert forall|i: int, j: int| 0 <= i < j < out.len() implies !shown_before(
                #[trigger] out[j],
                #[trigger] out[i],
            ) by {
                if j == k {
                    assert(!follows(x)(s[i]));
                } else if i == k {
                    if j == k + 1 {
                        lemma_not_before_carries(x, s[k], s[k]);
                    } else {
                        assert(!shown_before(s[j - 1], s[k]));
                        lemma_not_before_carries(x, s[k], s[j - 1]);
                        lemma_not_before_carries(x, s[j - 1], s[k]);
                    }
                } else {
                    let a = if i < k {
                        i
                    } else {
                        i - 1
                    };
                    let b = if j < k {
                        j
                    } else {
                        j - 1
                    };
                    assert(!shown_before(s[b], s[a]));
                }
            }
        }
    } else {
        assert(is.filter(test) =~= Seq::empty());
    }
}

} // verus!
