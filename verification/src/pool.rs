//! Idle connections to peers, kept for further requests.
//!
//! A connection is known here by a handle; the connections themselves are kept elsewhere.

use crate::seqs::{first_where, lemma_first_where, lemma_first_where_is};
use crate::text::{same, to_ascii_lowercase, trim, views};
use vstd::multiset::Multiset;
use vstd::prelude::*;

verus! {

/// Where a connection leads.
#[derive(Debug)]
pub struct TcpConnectionKey {
    pub host: String,
    pub port: u16,
}

impl View for TcpConnectionKey {
    type V = (Seq<char>, u16);

    open spec fn view(&self) -> (Seq<char>, u16) {
        (self.host@, self.port)
    }
}

/// The key of connections to a host.
pub fn connection_key(host: &str, port: u16) -> (r: TcpConnectionKey)
    ensures
        r@ == crate::machines::discovery::endpoint(host@, port),
{
    TcpConnectionKey { host: to_ascii_lowercase(trim(host).as_str()), port }
}

/// The idle connections to one place; the last one came in last.
#[derive(Debug)]
pub struct IdleList {
    pub key: TcpConnectionKey,
    pub handles: Vec<u64>,
}

/// The model of an `IdleList`.
pub struct IdleModel {
    pub key: (Seq<char>, u16),
    pub handles: Seq<u64>,
}

impl View for IdleList {
    type V = IdleModel;

    open spec fn view(&self) -> IdleModel {
        IdleModel { key: self.key@, handles: self.handles@ }
    }
}

/// All idle connections.
#[derive(Debug)]
pub struct TcpConnectionPool {
    pub idle: Vec<IdleList>,
    pub total_idle: usize,
}

/// How many connections the lists hold.
pub open spec fn held(lists: Seq<IdleModel>) -> nat
    decreases lists.len(),
{
    if lists.len() == 0 {
        0
    } else {
        held(lists.drop_last()) + lists.last().handles.len()
    }
}

/// The connections that the lists hold.
pub open spec fn all_handles(lists: Seq<IdleModel>) -> Multiset<u64>
    decreases lists.len(),
{
    if lists.len() == 0 {
        Multiset::empty()
    } else {
        all_handles(lists.drop_last()).add(lists.last().handles.to_multiset())
    }
}

/// The test for the list of a key.
pub open spec fn has_key(key: (Seq<char>, u16)) -> spec_fn(IdleModel) -> bool {
    |l: IdleModel| l.key == key
}

/// The idle connections to a place.
pub open spec fn idle_at(lists: Seq<IdleModel>, key: (Seq<char>, u16)) -> Seq<u64> {
    let k = first_where(lists, has_key(key));
    if k < lists.len() {
        lists[k].handles
    } else {
        Seq::empty()
    }
}

/// No two lists have the same key, and none is empty.
pub open spec fn tidy_lists(lists: Seq<IdleModel>) -> bool {
    &&& forall|i: int, j: int|
        0 <= i < j < lists.len() ==> (#[trigger] lists[i]).key != (#[trigger] lists[j]).key
    &&& forall|i: int| 0 <= i < lists.len() ==> (#[trigger] lists[i]).handles.len() > 0
}

/// What a list contributes to the count, when it is replaced by another.
proof fn lemma_held_update(lists: Seq<IdleModel>, k: int, l: IdleModel)
    requires
        0 <= k < lists.len(),
    ensures
        held(lists.update(k, l)) + lists[k].handles.len() == held(lists) + l.handles.len(),
    decreases lists.len(),
{
    let t = lists.drop_last();
    if k == lists.len() - 1 {
        assert(lists.update(k, l).drop_last() =~= t);
    } else {
        lemma_held_update(t, k, l);
        assert(lists.update(k, l).drop_last() =~= t.update(k, l));
    }
}

/// What a list contributes to the count, when it is removed.
proof fn lemma_held_remove(lists: Seq<IdleModel>, k: int)
    requires
        0 <= k < lists.len(),
    ensures
        held(lists.remove(k)) + lists[k].handles.len() == held(lists),
    decreases lists.len(),
{
    let t = lists.drop_last();
    if k == lists.len() - 1 {
        assert(lists.remove(k) =~= t);
    } else {
        lemma_held_remove(t, k);
        assert(lists.remove(k).drop_last() =~= t.remove(k));
        assert(lists.remove(k).last() == lists.last());
    }
}

/// Taking the last connection of a list takes it from all connections.
proof fn lemma_handles_taken(lists: Seq<IdleModel>, k: int)
    requires
        0 <= k < lists.len(),
        lists[k].handles.len() > 0,
    ensures
        all_handles(lists) == all_handles(
            if lists[k].handles.len() == 1 {
                lists.remove(k)
            } else {
                lists.update(
                    k,
                    IdleModel { key: lists[k].key, handles: lists[k].handles.drop_last() },
                )
            },
        ).insert(lists[k].handles.last()),
    decreases lists.len(),
{
    let hs = lists[k].handles;
    let cut = IdleModel { key: lists[k].key, handles: hs.drop_last() };
    let t = lists.drop_last();
    assert(hs.drop_last().push(hs.last()) =~= hs);
    vstd::seq_lib::to_multiset_build(hs.drop_last(), hs.last());
    if k == lists.len() - 1 {
        assert(lists.update(k, cut).drop_last() =~= t);
        assert(lists.remove(k) =~= t);
        if hs.len() == 1 {
            assert(hs.drop_last() =~= Seq::<u64>::empty());
            Seq::<u64>::empty().to_multiset_ensures();
            assert(Seq::<u64>::empty().to_multiset() =~= Multiset::<u64>::empty());
            assert(all_handles(lists) =~= all_handles(t).insert(hs.last()));
        } else {
            assert(all_handles(lists) =~= all_handles(t).add(
                hs.drop_last().to_multiset(),
            ).insert(hs.last()));
        }
    } else {
        lemma_handles_taken(t, k);
        assert(lists.update(k, cut).drop_last() =~= t.update(k, cut));
        assert(lists.remove(k).drop_last() =~= t.remove(k));
        assert(lists.remove(k).last() == lists.last());
        let rest = if hs.len() == 1 {
            t.remove(k)
        } else {
            t.update(k, cut)
        };
        assert(all_handles(lists) =~= all_handles(rest).add(
            lists.last().handles.to_multiset(),
        ).insert(hs.last()));
    }
}

proof fn lemma_held_push(lists: Seq<IdleModel>, l: IdleModel)
    ensures
        held(lists.push(l)) == held(lists) + l.handles.len(),
{
    assert(lists.push(l).drop_last() =~= lists);
}

/// The first `n` of some handles.
fn first_handles(handles: &Vec<u64>, n: usize) -> (out: Vec<u64>)
    requires
        n <= handles.len(),
    ensures
        out@ == handles@.take(n as int),
{
    let mut out: Vec<u64> = Vec::new();
    for i in 0..n
        invariant
            n <= handles.len(),
            out@ == handles@.take(i as int),
    {
        out.push(handles[i]);
    }
    out
}

impl TcpConnectionPool {
    /// The lists of the pool.
    pub open spec fn lists(&self) -> Seq<IdleModel> {
        views(self.idle@)
    }

    /// Whether the count is that of the connections, and the lists are tidy.
    pub open spec fn wf(&self) -> bool {
        tidy_lists(self.lists()) && self.total_idle == held(self.lists())
    }

    /// A pool without connections.
    pub fn new() -> (r: TcpConnectionPool)
        ensures
            r.wf(),
            r.total_idle == 0,
            forall|key: (Seq<char>, u16)| idle_at(r.lists(), key).len() == 0,
    {
        TcpConnectionPool { idle: Vec::new(), total_idle: 0 }
    }

    /// The index of the list of a key, or the number of lists.
    fn find(&self, key: &TcpConnectionKey) -> (r: usize)
        ensures
            r == first_where(self.lists(), has_key(key@)),
            r <= self.idle.len(),
    {
        let ghost ls = self.lists();
        let ghost test = has_key(key@);
        for i in 0..self.idle.len()
            invariant
                ls == views(self.idle@),
                test == has_key(key@),
                forall|j: int| 0 <= j < i ==> !test(#[trigger] ls[j]),
        {
            proof {
                assert(ls[i as int] == self.idle@[i as int]@);
            }
            if self.idle[i].key.port == key.port && same(
                self.idle[i].key.host.as_str(),
                key.host.as_str(),
            ) {
                proof {
                    lemma_first_where_is(ls, test, i as int);
                }
                return i;
            }
        }
        proof {
            lemma_first_where_is(ls, test, ls.len() as int);
        }
        self.idle.len()
    }

    /// Takes the connection to a place that came in last, where there is one.
    pub fn take(&mut self, key: &TcpConnectionKey) -> (r: Option<u64>)
        requires
            old(self).wf(),
        ensures
            final(self).wf(),
            ({
                let had = idle_at(old(self).lists(), key@);
                let k = first_where(old(self).lists(), has_key(key@));
                &&& r == (if had.len() == 0 {
                    None
                } else {
                    Some(had.last())
                })
                &&& had.len() == 0 ==> final(self).lists() == old(self).lists()
                &&& had.len() == 1 ==> final(self).lists() == old(self).lists().remove(k)
                &&& had.len() > 1 ==> final(self).lists() == old(self).lists().update(
                    k,
                    IdleModel { key: key@, handles: had.drop_last() },
                )
                &&& final(self).total_idle == old(self).total_idle - (if had.len() == 0 {
                    0int
                } else {
                    1int
                })
            }),
    {
        let ghost ls = self.lists();
        let k = self.find(key);
        proof {
            lemma_first_where(ls, has_key(key@));
        }
        if k >= self.idle.len() {
            return None;
        }
        proof {
            lemma_held_remove(ls, k as int);
            assert(ls[k as int] == self.idle@[k as int]@);
        }
        let n: usize = self.idle[k].handles.len();
        let handle: u64 = self.idle[k].handles[n - 1];
        self.total_idle = self.total_idle - 1;
        if n == 1 {
            self.idle.remove(k);
            proof {
                assert(self.lists() =~= ls.remove(k as int));
            }
        } else {
            let handles = first_handles(&self.idle[k].handles, n - 1);
            let list = IdleList {
                key: TcpConnectionKey { host: key.host.clone(), port: key.port },
                handles,
            };
            let ghost lv = list@;
            proof {
                assert(handles@ =~= ls[k as int].handles.drop_last());
                lemma_held_update(ls, k as int, lv);
            }
            self.idle.set(k, list);
            proof {
                assert(self.lists() =~= ls.update(k as int, lv));
            }
        }
        Some(handle)
    }

    /// Puts a connection into the pool, unless it is full. Says whether it was kept.
    pub fn put(&mut self, key: TcpConnectionKey, handle: u64, max_idle: usize) -> (kept: bool)
        requires
            old(self).wf(),
        ensures
            final(self).wf(),
            kept == (old(self).total_idle < max_idle),
            !kept ==> *final(self) == *old(self),
            kept ==> ({
                let ls = old(self).lists();
                let k = first_where(ls, has_key(key@));
                final(self).lists() == (if k < ls.len() {
                    ls.update(
                        k,
                        IdleModel { key: key@, handles: ls[k].handles.push(handle) },
                    )
                } else {
                    ls.push(IdleModel { key: key@, handles: seq![handle] })
                })
            }),
            kept ==> final(self).total_idle == old(self).total_idle + 1,
    {
        if self.total_idle >= max_idle {
            return false;
        }
        let ghost ls = self.lists();
        let k = self.find(&key);
        proof {
            lemma_first_where(ls, has_key(key@));
        }
        let ghost kv = key@;
        if k < self.idle.len() {
            let mut handles = first_handles(&self.idle[k].handles, self.idle[k].handles.len());
            handles.push(handle);
            let list = IdleList { key, handles };
            let ghost lv = list@;
            proof {
                assert(ls[k as int] == self.idle@[k as int]@);
                assert(handles@ =~= ls[k as int].handles.push(handle));
                lemma_held_update(ls, k as int, lv);
            }
            self.idle.set(k, list);
            proof {
                assert(self.lists() =~= ls.update(k as int, lv));
            }
        } else {
            let mut handles: Vec<u64> = Vec::new();
            handles.push(handle);
            let list = IdleList { key, handles };
            let ghost lv = list@;
            proof {
                assert(handles@ =~= seq![handle]);
                lemma_held_push(ls, lv);
            }
            self.idle.push(list);
            proof {
                assert(self.lists() =~= ls.push(lv));
            }
        }
        self.total_idle = self.total_idle + 1;
        true
    }

    /// Drops connections until no more than `max_idle` are left, and gives the handles of those
    /// that were dropped.
    pub fn trim_to(&mut self, max_idle: usize) -> (dropped: Vec<u64>)
        requires
            old(self).wf(),
        ensures
            final(self).wf(),
            final(self).total_idle == (if old(self).total_idle <= max_idle {
                old(self).total_idle
            } else {
                max_idle
            }),
            dropped.len() + final(self).total_idle == old(self).total_idle,
            all_handles(old(self).lists()) == all_handles(final(self).lists()).add(
                dropped@.to_multiset(),
            ),
            old(self).total_idle <= max_idle ==> *final(self) == *old(self),
    {
        let mut dropped: Vec<u64> = Vec::new();
        proof {
            dropped@.to_multiset_ensures();
            assert(dropped@.to_multiset() =~= Multiset::<u64>::empty());
            assert(all_handles(self.lists()).add(dropped@.to_multiset()) =~= all_handles(
                self.lists(),
            ));
        }
        while self.total_idle > max_idle
            invariant
                self.wf(),
                self.total_idle <= old(self).total_idle,
                self.total_idle >= max_idle || self.total_idle == old(self).total_idle,
                dropped.len() + self.total_idle == old(self).total_idle,
                all_handles(old(self).lists()) == all_handles(self.lists()).add(
                    dropped@.to_multiset(),
                ),
                self.total_idle == old(self).total_idle ==> *self == *old(self),
            decreases self.total_idle,
        {
            let ghost ls = self.lists();
            proof {
                if ls.len() == 0 {
                    assert(held(ls) == 0);
                }
                assert(self.idle.len() > 0);
                assert(ls[0] == self.idle@[0]@);
            }
            let key = TcpConnectionKey {
                host: self.idle[0].key.host.clone(),
                port: self.idle[0].key.port,
            };
            proof {
                lemma_first_where_is(ls, has_key(key@), 0);
                lemma_handles_taken(ls, 0);
            }
            let ghost before = dropped@;
            match self.take(&key) {
                Some(handle) => {
                    dropped.push(handle);
                    proof {
                        vstd::seq_lib::to_multiset_build(before, handle);
                        assert(all_handles(ls).add(before.to_multiset()) =~= all_handles(
                            self.lists(),
                        ).add(dropped@.to_multiset()));
                    }
                },
                None => {},
            }
        }
        dropped
    }
}

/// The pool after its limit was set; connections above the limit are dropped and their handles
/// given back.
pub fn configure_tcp_connection_pool(pool: &mut TcpConnectionPool, max_idle: usize) -> (dropped:
    Vec<u64>)
    requires
        old(pool).wf(),
    ensures
        final(pool).wf(),
        final(pool).total_idle <= max_idle,
        dropped.len() + final(pool).total_idle == old(pool).total_idle,
        all_handles(old(pool).lists()) == all_handles(final(pool).lists()).add(
            dropped@.to_multiset(),
        ),
        old(pool).total_idle <= max_idle ==> *final(pool) == *old(pool),
        old(pool).total_idle > max_idle ==> final(pool).total_idle == max_idle,
{
    pool.trim_to(max_idle)
}

/// What is put into the pool is what the next taking from the same place gives.
pub proof fn put_then_take(lists: Seq<IdleModel>, key: (Seq<char>, u16), handle: u64)
    requires
        tidy_lists(lists),
    ensures
        ({
            let k = first_where(lists, has_key(key));
            let after = if k < lists.len() {
                lists.update(k, IdleModel { key, handles: lists[k].handles.push(handle) })
            } else {
                lists.push(IdleModel { key, handles: seq![handle] })
            };
            &&& idle_at(after, key) == idle_at(lists, key).push(handle)
            &&& idle_at(after, key).last() == handle
        }),
{
    let k = first_where(lists, has_key(key));
    lemma_first_where(lists, has_key(key));
    let after = if k < lists.len() {
        lists.update(k, IdleModel { key, handles: lists[k].handles.push(handle) })
    } else {
        lists.push(IdleModel { key, handles: seq![handle] })
    };
    assert forall|j: int| 0 <= j < k implies !has_key(key)(#[trigger] after[j]) by {
        assert(after[j] == lists[j]);
    }
    lemma_first_where_is(after, has_key(key), k);
    if k >= lists.len() {
        assert(seq![handle] =~= Seq::<u64>::empty().push(handle));
    }
}

} // verus!
