//! Cooperative cancellation of long operations.
//!
//! An operation registers itself and gets a token. Work that belongs to it polls the token; a
//! request for cancellation finds the operation by kind and destination and marks its token.
//! Tokens outlive the registration, so that workers that are still running see the mark.

use crate::sorted::{sort_set, sorted_set, sorted_set_is_sorted_and_complete};
use crate::text::{contains, holds_text, opt_view, same, views};
use vstd::prelude::*;

verus! {

/// The message of a cancellation; errors are recognised by it.
pub const CANCELLED_MESSAGE: &'static str = "cancelled by user request";

/// The kind of synchronisations.
pub const KIND_SYNC: &'static str = "sync";

/// The kind of comparisons.
pub const KIND_COMPARE: &'static str = "compare";

/// An operation that is under way.
#[derive(Debug)]
pub struct ActiveOp {
    pub id: u64,
    pub kind: String,
    /// The destinations that it works for; none for work that belongs to no destination.
    pub targets: Vec<String>,
}

/// The model of an `ActiveOp`.
pub struct OpModel {
    pub id: u64,
    pub kind: Seq<char>,
    pub targets: Seq<Seq<char>>,
}

impl View for ActiveOp {
    type V = OpModel;

    open spec fn view(&self) -> OpModel {
        OpModel { id: self.id, kind: self.kind@, targets: views(self.targets@) }
    }
}

/// What the tokens of an operation share.
#[derive(Debug, Clone, Copy, PartialEq, Eq, Structural)]
pub struct Mark {
    pub cancelled: bool,
    /// Files transferred so far.
    pub files: u64,
}

/// All operations, and the marks of those that ever were.
#[derive(Debug)]
pub struct CancelState {
    pub ops: Vec<ActiveOp>,
    /// The mark of the operation with the identifier `i` is at index `i - 1`.
    pub marks: Vec<Mark>,
}

/// The token of an operation.
#[derive(Debug)]
pub struct CancelToken {
    pub id: u64,
    /// The destination of the operation, where it has exactly one.
    pub target: Option<String>,
}

/// The model of a `CancelToken`.
pub struct TokenModel {
    pub id: u64,
    pub target: Option<Seq<char>>,
}

impl View for CancelToken {
    type V = TokenModel;

    open spec fn view(&self) -> TokenModel {
        TokenModel { id: self.id, target: opt_view(self.target) }
    }
}

impl Clone for CancelToken {
    fn clone(&self) -> (r: CancelToken)
        ensures
            r@ == self@,
    {
        CancelToken {
            id: self.id,
            target: match &self.target {
                Some(t) => Some(t.clone()),
                None => None,
            },
        }
    }
}

/// The token that work on a thread polls.
#[derive(Debug)]
pub struct TokenSlot {
    pub current: Option<CancelToken>,
}

/// Ends the registration of an operation and restores the token before it.
#[derive(Debug)]
pub struct OpGuard {
    pub id: u64,
    pub previous: Option<CancelToken>,
}

/// Restores the token before one that was installed.
#[derive(Debug)]
pub struct TokenGuard {
    pub previous: Option<CancelToken>,
}

impl CancelState {
    /// The operations.
    pub open spec fn registered(&self) -> Seq<OpModel> {
        views(self.ops@)
    }

    /// Whether every operation has a mark, and no two have the same identifier.
    pub open spec fn wf(&self) -> bool {
        &&& forall|i: int|
            0 <= i < self.registered().len() ==> 1 <= (#[trigger] self.registered()[i]).id
                <= self.marks.len()
        &&& forall|i: int, j: int|
            0 <= i < j < self.registered().len() ==> (#[trigger] self.registered()[i]).id != (
            #[trigger] self.registered()[j]).id
    }

    /// A state without operations.
    pub fn new() -> (r: CancelState)
        ensures
            r.wf(),
            r.registered().len() == 0,
            r.marks@.len() == 0,
    {
        CancelState { ops: Vec::new(), marks: Vec::new() }
    }
}

/// Whether a token belongs to an operation that ever was.
pub open spec fn known_token(s: CancelState, t: Option<TokenModel>) -> bool {
    match t {
        Some(t) => 1 <= t.id <= s.marks.len(),
        None => true,
    }
}

/// The label of a destination of a source.
pub open spec fn label_for(source_id: Seq<char>, destination_id: Seq<char>) -> Seq<char> {
    source_id + "|"@ + destination_id
}

/// The label of a destination of a source.
pub fn target_for(source_id: &str, destination_id: &str) -> (r: String)
    ensures
        r@ == label_for(source_id@, destination_id@),
{
    let mut r = source_id.to_string();
    r.append("|");
    r.append(destination_id);
    r
}

/// The token of a new operation: it carries a destination only where there is exactly one.
pub open spec fn token_for(id: u64, targets: Seq<Seq<char>>) -> TokenModel {
    TokenModel {
        id,
        target: if targets.len() == 1 {
            Some(targets[0])
        } else {
            None
        },
    }
}

/// Registers an operation that works for the given destinations, and installs its token.
pub fn begin_targets(
    state: &mut CancelState,
    slot: &mut TokenSlot,
    kind: &str,
    targets: Vec<String>,
) -> (guard: OpGuard)
    requires
        old(state).wf(),
        old(state).marks.len() < usize::MAX,
    ensures
        final(state).wf(),
        guard.id == old(state).marks.len() + 1,
        opt_view(guard.previous) == opt_view(old(slot).current),
        final(state).marks@ == old(state).marks@.push(Mark { cancelled: false, files: 0 }),
        final(state).registered() == old(state).registered().push(
            OpModel { id: guard.id, kind: kind@, targets: views(targets@) },
        ),
        opt_view(final(slot).current) == Some(token_for(guard.id, views(targets@))),
        known_token(*old(state), opt_view(old(slot).current)) ==> has_begun(
            *old(state),
            opt_view(old(slot).current),
            kind@,
            views(targets@),
            guard.id,
            *final(state),
            opt_view(final(slot).current),
        ),
{
    let id: u64 = state.marks.len() as u64 + 1;
    let ghost ts = views(targets@);
    let target: Option<String> = if targets.len() == 1 {
        Some(targets[0].clone())
    } else {
        None
    };
    let op = ActiveOp { id, kind: kind.to_string(), targets };
    let ghost om = op@;
    let ghost before = state.registered();
    state.ops.push(op);
    state.marks.push(Mark { cancelled: false, files: 0 });
    proof {
        assert(state.registered() =~= before.push(om));
        assert forall|i: int, j: int| 0 <= i < j < state.registered().len() implies (
        #[trigger] state.registered()[i]).id != (#[trigger] state.registered()[j]).id by {
            assert(state.registered()[i] == before[i]);
            if j < before.len() {
                assert(state.registered()[j] == before[j]);
            }
        }
    }
    let previous = slot.current.take();
    slot.current = Some(CancelToken { id, target });
    OpGuard { id, previous }
}

/// Registers an operation that works for no destination.
pub fn begin(state: &mut CancelState, slot: &mut TokenSlot, kind: &str) -> (guard: OpGuard)
    requires
        old(state).wf(),
        old(state).marks.len() < usize::MAX,
    ensures
        final(state).wf(),
        guard.id == old(state).marks.len() + 1,
        opt_view(guard.previous) == opt_view(old(slot).current),
        final(state).marks@ == old(state).marks@.push(Mark { cancelled: false, files: 0 }),
        final(state).registered() == old(state).registered().push(
            OpModel { id: guard.id, kind: kind@, targets: Seq::empty() },
        ),
        opt_view(final(slot).current) == Some(TokenModel { id: guard.id, target: None }),
        known_token(*old(state), opt_view(old(slot).current)) ==> has_begun(
            *old(state),
            opt_view(old(slot).current),
            kind@,
            Seq::empty(),
            guard.id,
            *final(state),
            opt_view(final(slot).current),
        ),
{
    let none: Vec<String> = Vec::new();
    proof {
        assert(views(none@) =~= Seq::<Seq<char>>::empty());
    }
    begin_targets(state, slot, kind, none)
}

/// Registers an operation that works for at most one destination.
pub fn begin_target(
    state: &mut CancelState,
    slot: &mut TokenSlot,
    kind: &str,
    target: Option<String>,
) -> (guard: OpGuard)
    requires
        old(state).wf(),
        old(state).marks.len() < usize::MAX,
    ensures
        final(state).wf(),
        guard.id == old(state).marks.len() + 1,
        opt_view(guard.previous) == opt_view(old(slot).current),
        final(state).marks@ == old(state).marks@.push(Mark { cancelled: false, files: 0 }),
        final(state).registered() == old(state).registered().push(
            OpModel {
                id: guard.id,
                kind: kind@,
                targets: match target {
                    Some(t) => seq![t@],
                    None => Seq::empty(),
                },
            },
        ),
        opt_view(final(slot).current) == Some(
            TokenModel { id: guard.id, target: opt_view(target) },
        ),
{
    let mut targets: Vec<String> = Vec::new();
    match target {
        Some(t) => {
            let ghost tv = t@;
            targets.push(t);
            proof {
                assert(views(targets@) =~= seq![tv]);
            }
        },
        None => {
            proof {
                assert(views(targets@) =~= Seq::<Seq<char>>::empty());
            }
        },
    }
    begin_targets(state, slot, kind, targets)
}

/// The test for operations other than one.
pub open spec fn other_op(id: u64) -> spec_fn(OpModel) -> bool {
    |op: OpModel| op.id != id
}

/// Ends an operation: it is no longer registered, and the token before it is restored.
pub fn end_op(state: &mut CancelState, slot: &mut TokenSlot, guard: OpGuard)
    requires
        old(state).wf(),
    ensures
        final(state).wf(),
        final(state).marks@ == old(state).marks@,
        final(state).registered() == old(state).registered().filter(other_op(guard.id)),
        opt_view(final(slot).current) == opt_view(guard.previous),
{
    let ghost all = state.registered();
    let ghost keep = other_op(guard.id);
    let mut kept: Vec<ActiveOp> = Vec::new();
    proof {
        assert(views(kept@) =~= all.take(0).filter(keep));
    }
    for i in 0..state.ops.len()
        invariant
            state.marks@ == old(state).marks@,
            all == views(state.ops@),
            all == old(state).registered(),
            keep == other_op(guard.id),
            views(kept@) == all.take(i as int).filter(keep),
    {
        let op = &state.ops[i];
        let ghost was = views(kept@);
        proof {
            assert(all[i as int] == op@);
            assert(all.take(i + 1) =~= all.take(i as int).push(op@));
            all.take(i as int).lemma_filter_push(op@, keep);
        }
        if op.id != guard.id {
            let copy = ActiveOp {
                id: op.id,
                kind: op.kind.clone(),
                targets: crate::config::types::clone_strings(&op.targets),
            };
            kept.push(copy);
            proof {
                assert(views(kept@) =~= was.push(op@));
            }
        }
    }
    proof {
        assert(all.take(all.len() as int) =~= all);
    }
    state.ops = kept;
    slot.current = guard.previous;
    proof {
        lemma_filter_keeps_distinct(all, keep, state.marks@.len() as int);
    }
}

/// Leaving out operations keeps the others distinct and marked.
proof fn lemma_filter_keeps_distinct(all: Seq<OpModel>, keep: spec_fn(OpModel) -> bool, n: int)
    requires
        forall|i: int| 0 <= i < all.len() ==> 1 <= (#[trigger] all[i]).id <= n,
        forall|i: int, j: int|
            0 <= i < j < all.len() ==> (#[trigger] all[i]).id != (#[trigger] all[j]).id,
    ensures
        forall|i: int|
            0 <= i < all.filter(keep).len() ==> 1 <= (#[trigger] all.filter(keep)[i]).id <= n
                && all.contains(all.filter(keep)[i]),
        forall|i: int, j: int|
            0 <= i < j < all.filter(keep).len() ==> (#[trigger] all.filter(keep)[i]).id != (
            #[trigger] all.filter(keep)[j]).id,
    decreases all.len(),
{
    reveal(Seq::filter);
    if all.len() > 0 {
        let t = all.drop_last();
        assert forall|i: int| 0 <= i < t.len() implies 1 <= (#[trigger] t[i]).id <= n by {
            assert(t[i] == all[i]);
        }
        assert forall|i: int, j: int| 0 <= i < j < t.len() implies (#[trigger] t[i]).id != (
        #[trigger] t[j]).id by {
            assert(t[i] == all[i] && t[j] == all[j]);
        }
        lemma_filter_keeps_distinct(t, keep, n);
        let f = t.filter(keep);
        let g = all.filter(keep);
        let last = all.last();
        assert(g == if keep(last) {
            f.push(last)
        } else {
            f
        });
        assert forall|i: int| 0 <= i < g.len() implies 1 <= (#[trigger] g[i]).id <= n
            && all.contains(g[i]) by {
            if i < f.len() {
                assert(t.contains(f[i]));
                let k = choose|k: int| 0 <= k < t.len() && t[k] == f[i];
                assert(all[k] == g[i]);
            } else {
                assert(all[all.len() - 1] == g[i]);
            }
        }
        assert forall|i: int, j: int| 0 <= i < j < g.len() implies (#[trigger] g[i]).id != (
        #[trigger] g[j]).id by {
            if j == f.len() {
                assert(t.contains(f[i]));
                let k = choose|k: int| 0 <= k < t.len() && t[k] == f[i];
                assert(all[k].id != all[all.len() - 1].id);
            } else {
                assert(f[i].id != f[j].id);
            }
        }
    }
}

/// The mark of a token.
pub open spec fn mark_of(s: CancelState, t: Option<TokenModel>) -> Mark {
    match t {
        Some(t) => s.marks@[t.id - 1],
        None => Mark { cancelled: false, files: 0 },
    }
}

/// The marks after `count` files were credited to an operation; the count wraps around.
pub open spec fn with_files(marks: Seq<Mark>, id: u64, count: u64) -> Seq<Mark> {
    let m = marks[id - 1];
    marks.update(id - 1, Mark { files: m.files.wrapping_add(count), ..m })
}

/// Credits transferred files to the operation whose token is installed; nothing happens without
/// one.
pub fn add_synced_files(state: &mut CancelState, slot: &TokenSlot, count: u64)
    requires
        old(state).wf(),
        known_token(*old(state), opt_view(slot.current)),
    ensures
        final(state).wf(),
        final(state).registered() == old(state).registered(),
        final(state).marks@ == (match opt_view(slot.current) {
            Some(t) => with_files(old(state).marks@, t.id, count),
            None => old(state).marks@,
        }),
{
    match &slot.current {
        Some(t) => {
            let i: usize = (t.id - 1) as usize;
            let m = state.marks[i];
            state.marks.set(
                i,
                Mark { cancelled: m.cancelled, files: m.files.wrapping_add(count) },
            );
        },
        None => {},
    }
    proof {
        assert(state.registered() == old(state).registered());
        lemma_wf_by_parts(*old(state), *state);
    }
}

/// Being well-formed rests on the operations and the number of marks alone.
proof fn lemma_wf_by_parts(a: CancelState, b: CancelState)
    requires
        a.wf(),
        a.registered() == b.registered(),
        a.marks.len() == b.marks.len(),
    ensures
        b.wf(),
{
    let ops = b.registered();
    assert forall|i: int| 0 <= i < ops.len() implies 1 <= (#[trigger] b.registered()[i]).id
        <= b.marks.len() by {
        assert(1 <= a.registered()[i].id <= a.marks.len());
    }
    assert forall|i: int, j: int| 0 <= i < j < ops.len() implies (
    #[trigger] b.registered()[i]).id != (#[trigger] b.registered()[j]).id by {
        assert(a.registered()[i].id != a.registered()[j].id);
    }
}

/// The files transferred so far by the operation whose token is installed.
pub fn synced_files(state: &CancelState, slot: &TokenSlot) -> (r: u64)
    requires
        known_token(*state, opt_view(slot.current)),
    ensures
        r == mark_of(*state, opt_view(slot.current)).files,
{
    match &slot.current {
        Some(t) => state.marks[(t.id - 1) as usize].files,
        None => 0,
    }
}

/// Whether an operation works for a destination.
pub open spec fn works_for(op: OpModel, target: Seq<char>) -> bool {
    op.targets.contains(target)
}

/// Whether an operation of a kind works for a destination.
pub fn kind_target_active(state: &CancelState, kind: &str, target: &str) -> (r: bool)
    ensures
        r == exists|i: int|
            0 <= i < state.registered().len() && (#[trigger] state.registered()[i]).kind == kind@
                && works_for(state.registered()[i], target@),
{
    for i in 0..state.ops.len()
        invariant
            forall|j: int|
                0 <= j < i ==> !((#[trigger] state.registered()[j]).kind == kind@ && works_for(
                    state.registered()[j],
                    target@,
                )),
    {
        proof {
            assert(state.registered()[i as int] == state.ops@[i as int]@);
        }
        if same(state.ops[i].kind.as_str(), kind) && crate::config::clean::holds(
            &state.ops[i].targets,
            target,
        ) {
            return true;
        }
    }
    false
}

/// The token that is installed.
pub fn current_token(slot: &TokenSlot) -> (r: Option<CancelToken>)
    ensures
        opt_view(r) == opt_view(slot.current),
{
    match &slot.current {
        Some(t) => Some(t.clone()),
        None => None,
    }
}

/// The destination of the operation whose token is installed, where it has exactly one.
pub fn current_target(slot: &TokenSlot) -> (r: Option<String>)
    ensures
        opt_view(r) == (match opt_view(slot.current) {
            Some(t) => t.target,
            None => None,
        }),
{
    match &slot.current {
        Some(t) => match &t.target {
            Some(target) => Some(target.clone()),
            None => None,
        },
        None => None,
    }
}

/// Installs a token, such as one that was captured on another thread.
pub fn enter(slot: &mut TokenSlot, token: Option<CancelToken>) -> (guard: TokenGuard)
    ensures
        opt_view(final(slot).current) == opt_view(token),
        opt_view(guard.previous) == opt_view(old(slot).current),
{
    let previous = slot.current.take();
    slot.current = token;
    TokenGuard { previous }
}

/// Restores the token before one that was installed.
pub fn leave(slot: &mut TokenSlot, guard: TokenGuard)
    ensures
        opt_view(final(slot).current) == opt_view(guard.previous),
{
    slot.current = guard.previous;
}

/// Polls the installed token: an error once its operation was cancelled. Without a token nothing
/// is ever cancelled.
pub fn check(state: &CancelState, slot: &TokenSlot) -> (r: Result<(), String>)
    requires
        known_token(*state, opt_view(slot.current)),
    ensures
        r is Err == mark_of(*state, opt_view(slot.current)).cancelled,
        r is Err ==> r->Err_0@ == CANCELLED_MESSAGE@,
{
    match &slot.current {
        Some(t) => {
            if state.marks[(t.id - 1) as usize].cancelled {
                return Err(CANCELLED_MESSAGE.to_string());
            }
            Ok(())
        },
        None => Ok(()),
    }
}

/// Whether a request for a kind and a destination hits an operation. A request without a kind hits
/// every kind; one without a destination hits operations whatever they work for, and one for a
/// destination hits only operations that work for it.
pub open spec fn is_hit(op: OpModel, kind: Option<Seq<char>>, target: Option<Seq<char>>) -> bool {
    &&& kind is Some ==> op.kind == kind->0
    &&& target is Some ==> works_for(op, target->0)
}

/// The test for operations that a request hits.
pub open spec fn hit_by(kind: Option<Seq<char>>, target: Option<Seq<char>>) -> spec_fn(
    OpModel,
) -> bool {
    |op: OpModel| is_hit(op, kind, target)
}

/// Whether one of the operations with this identifier is hit.
pub open spec fn hits_id(
    ops: Seq<OpModel>,
    id: int,
    kind: Option<Seq<char>>,
    target: Option<Seq<char>>,
) -> bool {
    exists|i: int|
        0 <= i < ops.len() && (#[trigger] ops[i]).id == id && is_hit(ops[i], kind, target)
}

/// The marks after a request.
pub open spec fn marks_after(
    ops: Seq<OpModel>,
    marks: Seq<Mark>,
    kind: Option<Seq<char>>,
    target: Option<Seq<char>>,
) -> Seq<Mark> {
    Seq::new(
        marks.len(),
        |i: int|
            Mark {
                cancelled: marks[i].cancelled || hits_id(ops, i + 1, kind, target),
                files: marks[i].files,
            },
    )
}

/// The model of an optional text.
pub open spec fn opt_text(o: Option<&str>) -> Option<Seq<char>> {
    match o {
        Some(s) => Some(s@),
        None => None,
    }
}

/// Requests the cancellation of operations, and says how many were hit.
pub fn request(state: &mut CancelState, kind: Option<&str>, target: Option<&str>) -> (signalled: usize)
    requires
        old(state).wf(),
    ensures
        final(state).wf(),
        final(state).registered() == old(state).registered(),
        signalled == old(state).registered().filter(
            hit_by(opt_text(kind), opt_text(target)),
        ).len(),
        final(state).marks@ == marks_after(
            old(state).registered(),
            old(state).marks@,
            opt_text(kind),
            opt_text(target),
        ),
{
    let ghost ops = state.registered();
    let ghost k = opt_text(kind);
    let ghost t = opt_text(target);
    let mut signalled: usize = 0;
    proof {
        assert(ops.take(0).filter(hit_by(k, t)) =~= Seq::<OpModel>::empty());
    }
    let n: usize = state.ops.len();
    for i in 0..n
        invariant
            old(state).wf(),
            n == state.ops.len(),
            state.ops@ == old(state).ops@,
            ops == views(state.ops@),
            ops == old(state).registered(),
            k == opt_text(kind),
            t == opt_text(target),
            signalled == ops.take(i as int).filter(hit_by(k, t)).len(),
            signalled <= i,
            state.marks.len() == old(state).marks.len(),
            forall|j: int|
                0 <= j < state.marks.len() ==> (#[trigger] state.marks@[j]) == (Mark {
                    cancelled: old(state).marks@[j].cancelled || hits_id(
                        ops.take(i as int),
                        j + 1,
                        k,
                        t,
                    ),
                    files: old(state).marks@[j].files,
                }),
    {
        let op = &state.ops[i];
        let ghost before = ops.take(i as int);
        let ghost now = ops.take(i + 1);
        proof {
            assert(ops[i as int] == op@);
            assert(now =~= before.push(op@));
            before.lemma_filter_push(op@, hit_by(k, t));
            assert(old(state).registered()[i as int].id <= old(state).marks.len());
        }
        let kind_matches = match kind {
            Some(kind) => same(op.kind.as_str(), kind),
            None => true,
        };
        let target_matches = match target {
            Some(target) => crate::config::clean::holds(&op.targets, target),
            None => true,
        };
        let id: u64 = op.id;
        let ghost ov = op@;
        let hit = kind_matches && target_matches;
        proof {
            assert(hit == is_hit(ov, k, t));
            assert forall|j: int| hits_id(now, j, k, t) == (hits_id(before, j, k, t) || (ov.id == j
                && hit)) by {
                if hits_id(before, j, k, t) {
                    let m = choose|m: int|
                        0 <= m < before.len() && (#[trigger] before[m]).id == j && is_hit(
                            before[m],
                            k,
                            t,
                        );
                    assert(now[m] == before[m]);
                }
                if ov.id == j && hit {
                    assert(now[i as int].id == j);
                }
                if hits_id(now, j, k, t) {
                    let m = choose|m: int|
                        0 <= m < now.len() && (#[trigger] now[m]).id == j && is_hit(now[m], k, t);
                    if m < before.len() {
                        assert(before[m] == now[m]);
                    }
                }
            }
        }
        if hit {
            let at: usize = (id - 1) as usize;
            let m = state.marks[at];
            state.marks.set(at, Mark { cancelled: true, files: m.files });
            signalled = signalled + 1;
        }
    }
    proof {
        assert(ops.take(ops.len() as int) =~= ops);
        lemma_wf_by_parts(*old(state), *state);
        assert(state.marks@ =~= marks_after(ops, old(state).marks@, k, t));
    }
    signalled
}

/// `kind` as a function.
pub open spec fn to_kind() -> spec_fn(OpModel) -> Seq<char> {
    |op: OpModel| op.kind
}

/// The kinds of the operations that are under way, sorted and without repeats.
pub fn active_kinds(state: &CancelState) -> (out: Vec<String>)
    ensures
        views(out@) == sorted_set(state.registered().map_values(to_kind())),
{
    let ghost all = state.registered().map_values(to_kind());
    let mut list: Vec<String> = Vec::new();
    for i in 0..state.ops.len()
        invariant
            all == state.registered().map_values(to_kind()),
            list.len() == i,
            forall|j: int| 0 <= j < i ==> (#[trigger] list@[j])@ == all[j],
    {
        let kind = state.ops[i].kind.clone();
        proof {
            assert(all[i as int] == kind@);
        }
        list.push(kind);
    }
    proof {
        assert(views(list@) =~= all);
    }
    sort_set(&list)
}

/// Whether an error is a cancellation: some message in its chain holds that of a cancellation.
pub fn error_is_cancelled(chain: &Vec<String>) -> (r: bool)
    ensures
        r == exists|i: int|
            0 <= i < chain.len() && holds_text(#[trigger] views(chain@)[i], CANCELLED_MESSAGE@),
{
    for i in 0..chain.len()
        invariant
            forall|j: int|
                0 <= j < i ==> !holds_text(#[trigger] views(chain@)[j], CANCELLED_MESSAGE@),
    {
        if contains(chain[i].as_str(), CANCELLED_MESSAGE) {
            proof {
                assert(holds_text(views(chain@)[i as int], CANCELLED_MESSAGE@));
            }
            return true;
        }
    }
    false
}

/// Ending an operation that was just registered leaves the registration as it was before.
pub proof fn begin_then_end_restores(ops: Seq<OpModel>, op: OpModel)
    requires
        forall|i: int| 0 <= i < ops.len() ==> (#[trigger] ops[i]).id != op.id,
    ensures
        ops.push(op).filter(other_op(op.id)) == ops,
{
    ops.lemma_filter_push(op, other_op(op.id));
    lemma_filter_all(ops, other_op(op.id));
}

proof fn lemma_filter_all(ops: Seq<OpModel>, keep: spec_fn(OpModel) -> bool)
    requires
        forall|i: int| 0 <= i < ops.len() ==> keep(#[trigger] ops[i]),
    ensures
        ops.filter(keep) == ops,
    decreases ops.len(),
{
    reveal(Seq::filter);
    if ops.len() > 0 {
        let t = ops.drop_last();
        assert forall|i: int| 0 <= i < t.len() implies keep(#[trigger] t[i]) by {
            assert(t[i] == ops[i]);
        }
        lemma_filter_all(t, keep);
        assert(keep(ops[ops.len() - 1]));
        assert(t.push(ops.last()) =~= ops);
    } else {
        assert(ops.filter(keep) =~= ops);
    }
}

/// A second request of the same form changes nothing.
pub proof fn requests_are_idempotent(
    ops: Seq<OpModel>,
    marks: Seq<Mark>,
    kind: Option<Seq<char>>,
    target: Option<Seq<char>>,
)
    ensures
        marks_after(ops, marks_after(ops, marks, kind, target), kind, target) == marks_after(
            ops,
            marks,
            kind,
            target,
        ),
{
    assert(marks_after(ops, marks_after(ops, marks, kind, target), kind, target) =~= marks_after(
        ops,
        marks,
        kind,
        target,
    ));
}

/// Whether an operation was begun: between two states, and on a thread with a token before and
/// another one after.
pub open spec fn has_begun(
    before: CancelState,
    previous: Option<TokenModel>,
    kind: Seq<char>,
    targets: Seq<Seq<char>>,
    id: u64,
    after: CancelState,
    token: Option<TokenModel>,
) -> bool {
    &&& before.wf()
    &&& known_token(before, previous)
    &&& id == before.marks.len() + 1
    &&& after.marks@ == before.marks@.push(Mark { cancelled: false, files: 0 })
    &&& after.registered() == before.registered().push(OpModel { id, kind, targets })
    &&& token == Some(token_for(id, targets))
}

/// An operation that has just begun is not cancelled and has transferred nothing, whatever the token
/// before it says; it knows its destination where it has exactly one, and its kind is among those
/// that are under way. Once it ends, the registration is as it was, and the token before it has the
/// mark that it had.
pub proof fn operations_begin_afresh(
    before: CancelState,
    previous: Option<TokenModel>,
    kind: Seq<char>,
    targets: Seq<Seq<char>>,
    id: u64,
    after: CancelState,
    token: Option<TokenModel>,
)
    requires
        has_begun(before, previous, kind, targets, id, after, token),
    ensures
        known_token(after, token),
        !mark_of(after, token).cancelled,
        mark_of(after, token).files == 0,
        token is Some && token->0.target == (if targets.len() == 1 {
            Some(targets[0])
        } else {
            None
        }),
        sorted_set(after.registered().map_values(to_kind())).contains(kind),
        after.registered().filter(other_op(id)) == before.registered(),
        known_token(after, previous),
        mark_of(after, previous) == mark_of(before, previous),
{
    let ops = before.registered();
    let kinds = after.registered().map_values(to_kind());
    assert(kinds[ops.len() as int] == kind);
    sorted_set_is_sorted_and_complete(kinds);
    assert forall|i: int| 0 <= i < ops.len() implies (#[trigger] ops[i]).id != id by {
        assert(before.registered()[i].id <= before.marks.len());
    }
    begin_then_end_restores(ops, OpModel { id, kind, targets });
}

/// An operation that has begun is under way for each of its destinations, and a request of its kind
/// for any single one of them cancels it as a whole.
pub proof fn any_destination_cancels_the_operation(
    before: CancelState,
    previous: Option<TokenModel>,
    kind: Seq<char>,
    targets: Seq<Seq<char>>,
    id: u64,
    after: CancelState,
    token: Option<TokenModel>,
    target: Seq<char>,
)
    requires
        has_begun(before, previous, kind, targets, id, after, token),
        targets.contains(target),
    ensures
        exists|i: int|
            0 <= i < after.registered().len() && (#[trigger] after.registered()[i]).kind == kind
                && works_for(after.registered()[i], target),
        marks_after(after.registered(), after.marks@, Some(kind), Some(target))[id - 1].cancelled,
{
    let n = before.registered().len() as int;
    let op = after.registered()[n];
    assert(op == OpModel { id, kind, targets });
    assert(works_for(op, target));
    assert(hits_id(after.registered(), id as int, Some(kind), Some(target)));
}

/// A request leaves operations alone that it does not hit.
pub proof fn other_requests_change_nothing(
    ops: Seq<OpModel>,
    marks: Seq<Mark>,
    kind: Option<Seq<char>>,
    target: Option<Seq<char>>,
    i: int,
)
    requires
        0 <= i < ops.len(),
        1 <= ops[i].id <= marks.len(),
        forall|a: int, b: int|
            0 <= a < b < ops.len() ==> (#[trigger] ops[a]).id != (#[trigger] ops[b]).id,
        !is_hit(ops[i], kind, target),
    ensures
        marks_after(ops, marks, kind, target)[ops[i].id - 1] == marks[ops[i].id - 1],
{
    let id = ops[i].id as int;
    if hits_id(ops, id, kind, target) {
        let k = choose|k: int|
            0 <= k < ops.len() && (#[trigger] ops[k]).id == id && is_hit(ops[k], kind, target);
        assert(k == i);
    }
}

/// A request for a destination leaves operations alone that do not work for it.
pub proof fn targeted_requests_are_strict(
    ops: Seq<OpModel>,
    marks: Seq<Mark>,
    kind: Option<Seq<char>>,
    target: Seq<char>,
    i: int,
)
    requires
        0 <= i < ops.len(),
        1 <= ops[i].id <= marks.len(),
        forall|a: int, b: int|
            0 <= a < b < ops.len() ==> (#[trigger] ops[a]).id != (#[trigger] ops[b]).id,
        !works_for(ops[i], target),
    ensures
        marks_after(ops, marks, kind, Some(target))[ops[i].id - 1] == marks[ops[i].id - 1],
{
    other_requests_change_nothing(ops, marks, kind, Some(target), i);
}

} // verus!
