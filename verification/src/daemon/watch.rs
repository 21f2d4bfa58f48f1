//! What watching sources depends on, and what is done about changes that went unseen.

use crate::clock::Moment;
use crate::config::types::{
    AppConfig, AppConfigModel, DestinationConfigModel, SourceGroupConfig, SourceGroupConfigModel,
    StandbyPoolConfig, StandbyPoolConfigModel,
};
use crate::paths::at_or_under;
use crate::seqs::{first_item, lemma_first_where_is};
use crate::standby::{
    covers, gate_for_roots, gate_view, pool_covers_path, possible_gate, DeviceFact, DeviceModel,
    GateModel, WakeError,
};
use crate::state::events::{can_record, recorded};
use crate::state::notices::notice_raised;
use crate::state::offsets::row_or_blank;
use crate::state::targets::is_behind;
use crate::state::types::{State, StateModel, WatcherEvent, WatcherEventModel};
use crate::text::{join, joined, same, views};
use vstd::prelude::*;

verus! {

/// The word for a flag.
pub open spec fn flag_word(b: bool) -> Seq<char> {
    if b {
        "true"@
    } else {
        "false"@
    }
}

/// The word for a flag.
fn flag_text(b: bool) -> (r: String)
    ensures
        r@ == flag_word(b),
{
    if b {
        "true".to_string()
    } else {
        "false".to_string()
    }
}

/// What watching depends on of a destination.
pub open spec fn destination_mark() -> spec_fn(DestinationConfigModel) -> Seq<char> {
    |d: DestinationConfigModel| d.id + ":"@ + flag_word(d.enabled)
}

/// What watching depends on of a source.
pub open spec fn source_mark() -> spec_fn(SourceGroupConfigModel) -> Seq<char> {
    |s: SourceGroupConfigModel|
        s.id + "|"@ + s.machine_id + "|"@ + s.src + "|"@ + flag_word(s.enabled) + "|"@ + flag_word(
            s.add_directory,
        ) + "|"@ + joined(s.destinations.map_values(destination_mark()), ","@)
}

/// What watching depends on of a configuration.
pub open spec fn signature_of(cfg: AppConfigModel) -> Seq<char> {
    joined(seq![cfg.app.data_db] + cfg.source_groups.map_values(source_mark()), "\n"@)
}

/// What watching depends on of a source.
fn mark_of(s: &SourceGroupConfig) -> (r: String)
    ensures
        r@ == source_mark()(s@),
{
    let mut marks: Vec<String> = Vec::new();
    for i in 0..s.destinations.len()
        invariant
            marks.len() == i,
            forall|j: int|
                0 <= j < i ==> (#[trigger] marks@[j])@ == destination_mark()(s.destinations@[j]@),
    {
        let mut m = s.destinations[i].id.clone();
        m.append(":");
        m.append(flag_text(s.destinations[i].enabled).as_str());
        marks.push(m);
    }
    proof {
        assert(views(marks@) =~= s@.destinations.map_values(destination_mark()));
    }
    let mut r = s.id.clone();
    r.append("|");
    r.append(s.machine_id.as_str());
    r.append("|");
    r.append(s.src.as_str());
    r.append("|");
    r.append(flag_text(s.enabled).as_str());
    r.append("|");
    r.append(flag_text(s.add_directory).as_str());
    r.append("|");
    r.append(join(&marks, ",").as_str());
    r
}

/// What watching depends on of a configuration, and nothing else: the watcher is not restarted for a
/// change of anything else.
pub fn config_signature(cfg: &AppConfig) -> (r: String)
    ensures
        r@ == signature_of(cfg@),
{
    let mut parts: Vec<String> = Vec::new();
    parts.push(cfg.app.data_db.clone());
    for i in 0..cfg.source_groups.len()
        invariant
            parts.len() == i + 1,
            parts@[0]@ == cfg@.app.data_db,
            forall|j: int|
                1 <= j <= i ==> (#[trigger] parts@[j])@ == source_mark()(
                    cfg.source_groups@[j - 1]@,
                ),
    {
        parts.push(mark_of(&cfg.source_groups[i]));
    }
    proof {
        assert(views(parts@) =~= seq![cfg@.app.data_db] + cfg@.source_groups.map_values(
            source_mark(),
        ));
    }
    join(&parts, "\n")
}

/// The flag at an index; what is missing is unset.
pub open spec fn watched_at(watched: Seq<bool>, i: int) -> bool {
    0 <= i < watched.len() && watched[i]
}

/// The event that stands for the time in which a watcher was not running.
pub open spec fn gap_event(source_id: Seq<char>) -> WatcherEventModel {
    WatcherEventModel {
        source_id,
        raw_mask: 0,
        event_kind: "watcher_restart_gap"@,
        rel_path: None,
        rescan_required: true,
    }
}

/// The state after gaps were recorded for the first sources that are switched on and watched here.
pub open spec fn gaps_recorded(
    st: StateModel,
    ss: Seq<SourceGroupConfigModel>,
    watched: Seq<bool>,
    at: Moment,
    n: int,
) -> StateModel
    decreases n,
{
    if n <= 0 {
        st
    } else {
        let before = gaps_recorded(st, ss, watched, at, n - 1);
        let s = ss[n - 1];
        if s.enabled && watched_at(watched, n - 1) && can_record(before, s.id) {
            recorded(before, gap_event(s.id), at)
        } else {
            before
        }
    }
}

/// Records, after the watcher was restarted, that events may be missing, unless the watcher makes up
/// for them: the next pass then compares instead of trusting the events.
pub fn record_restart_gaps(
    state: &mut State,
    cfg: &AppConfig,
    watched: &Vec<bool>,
    covers_downtime: bool,
    at: Moment,
)
    ensures
        final(state)@ == (if covers_downtime {
            old(state)@
        } else {
            gaps_recorded(
                old(state)@,
                cfg@.source_groups,
                watched@,
                at,
                cfg@.source_groups.len() as int,
            )
        }),
{
    if covers_downtime {
        return;
    }
    for i in 0..cfg.source_groups.len()
        invariant
            state@ == gaps_recorded(old(state)@, cfg@.source_groups, watched@, at, i as int),
    {
        let s = &cfg.source_groups[i];
        proof {
            assert(cfg@.source_groups[i as int] == s@);
        }
        if s.enabled && i < watched.len() && watched[i] {
            let event = WatcherEvent {
                source_id: s.id.clone(),
                raw_mask: 0,
                event_kind: "watcher_restart_gap".to_string(),
                rel_path: None,
                rescan_required: true,
            };
            let _ = state.record_event(&event, at);
        }
    }
}

/// The state after notices were raised for the first sources that are watched here.
pub open spec fn notices_raised(
    st: StateModel,
    ss: Seq<SourceGroupConfigModel>,
    watched: Seq<bool>,
    now: Seq<char>,
    n: int,
) -> StateModel
    decreases n,
{
    if n <= 0 {
        st
    } else {
        let before = notices_raised(st, ss, watched, now, n - 1);
        if watched_at(watched, n - 1) {
            notice_raised(before, ss[n - 1].id, now)
        } else {
            before
        }
    }
}

/// Raises, after the daemon was restarted, a notice for each source that is watched here, unless the
/// watcher makes up for the time in which it was not running.
pub fn raise_restart_notices(
    state: &mut State,
    cfg: &AppConfig,
    watched: &Vec<bool>,
    covers_downtime: bool,
    now: &str,
)
    ensures
        final(state)@ == (if covers_downtime {
            old(state)@
        } else {
            notices_raised(
                old(state)@,
                cfg@.source_groups,
                watched@,
                now@,
                cfg@.source_groups.len() as int,
            )
        }),
{
    if covers_downtime {
        return;
    }
    for i in 0..cfg.source_groups.len()
        invariant
            state@ == notices_raised(old(state)@, cfg@.source_groups, watched@, now@, i as int),
    {
        proof {
            assert(cfg@.source_groups[i as int] == cfg.source_groups@[i as int]@);
        }
        if i < watched.len() && watched[i] {
            let _ = state.raise_restart_notice(cfg.source_groups[i].id.as_str(), now);
        }
    }
}

/// Configurations that agree on where the state is stored and on what watching depends on of their
/// sources have the same signature, whatever else differs: machines, preferences, schedules.
pub proof fn unrelated_changes_keep_the_signature(a: AppConfigModel, b: AppConfigModel)
    requires
        a.app.data_db == b.app.data_db,
        a.source_groups.len() == b.source_groups.len(),
        forall|i: int|
            0 <= i < a.source_groups.len() ==> {
                let s = #[trigger] a.source_groups[i];
                let t = b.source_groups[i];
                &&& s.id == t.id && s.machine_id == t.machine_id && s.src == t.src
                &&& s.enabled == t.enabled && s.add_directory == t.add_directory
                &&& s.destinations.len() == t.destinations.len()
                &&& forall|j: int|
                    0 <= j < s.destinations.len() ==> (#[trigger] s.destinations[j]).id
                        == t.destinations[j].id && s.destinations[j].enabled
                        == t.destinations[j].enabled
            },
    ensures
        signature_of(a) == signature_of(b),
{
    assert forall|i: int| 0 <= i < a.source_groups.len() implies source_mark()(
        #[trigger] a.source_groups[i],
    ) == source_mark()(b.source_groups[i]) by {
        assert(a.source_groups[i].destinations.map_values(destination_mark())
            =~= b.source_groups[i].destinations.map_values(destination_mark()));
    }
    assert(a.source_groups.map_values(source_mark()) =~= b.source_groups.map_values(
        source_mark(),
    ));
}

/// The test for a pool with a name.
pub open spec fn pool_named(name: Seq<char>) -> spec_fn(StandbyPoolConfigModel) -> bool {
    |p: StandbyPoolConfigModel| p.name == name
}

/// Whether work on a destination keeps a pool awake: it touches the pool, can run now, and the
/// destination is behind.
pub open spec fn keeps_awake(
    st: StateModel,
    pool: StandbyPoolConfigModel,
    s: SourceGroupConfigModel,
    d: DestinationConfigModel,
    runnable: bool,
) -> bool {
    &&& s.enabled && d.enabled && !d.paused
    &&& covers(pool, s.src) || covers(pool, d.path)
    &&& runnable
    &&& is_behind(row_or_blank(st.offsets, s.id, d.id, Seq::empty()))
}

/// Whether work at an index can run.
pub open spec fn runnable_at(runnable: Seq<Vec<bool>>, i: int, j: int) -> bool {
    0 <= i < runnable.len() && 0 <= j < runnable[i]@.len() && runnable[i]@[j]
}

/// Whether a pool is busy: something is being synchronised, or there is work that keeps it awake.
pub open spec fn is_busy(
    st: StateModel,
    cfg: AppConfigModel,
    name: Seq<char>,
    syncing: bool,
    runnable: Seq<Vec<bool>>,
) -> bool {
    let pool = first_item(cfg.standby_pools, pool_named(name));
    syncing || (pool is Some && exists|i: int, j: int|
        0 <= i < cfg.source_groups.len() && 0 <= j < (
        #[trigger] cfg.source_groups[i]).destinations.len() && keeps_awake(
            st,
            pool->0,
            cfg.source_groups[i],
            #[trigger] cfg.source_groups[i].destinations[j],
            runnable_at(runnable, i, j),
        ))
}

/// Whether a pool is busy. The flags say of each destination of each source whether work on it can
/// run now.
pub fn pool_is_busy(
    state: &State,
    cfg: &AppConfig,
    name: &str,
    syncing: bool,
    runnable: &Vec<Vec<bool>>,
) -> (r: bool)
    ensures
        r == is_busy(state@, cfg@, name@, syncing, runnable@),
{
    if syncing {
        return true;
    }
    let ghost ps = cfg@.standby_pools;
    let ghost test = pool_named(name@);
    let mut k: usize = 0;
    while k < cfg.standby_pools.len() && !same(cfg.standby_pools[k].name.as_str(), name)
        invariant
            k <= cfg.standby_pools.len(),
            ps == views(cfg.standby_pools@),
            test == pool_named(name@),
            forall|j: int| 0 <= j < k ==> !test(#[trigger] ps[j]),
        decreases cfg.standby_pools.len() - k,
    {
        proof {
            assert(ps[k as int] == cfg.standby_pools@[k as int]@);
        }
        k = k + 1;
    }
    proof {
        if k < ps.len() {
            assert(ps[k as int] == cfg.standby_pools@[k as int]@);
        }
        lemma_first_where_is(ps, test, k as int);
    }
    if k >= cfg.standby_pools.len() {
        return false;
    }
    let pool = &cfg.standby_pools[k];
    for i in 0..cfg.source_groups.len()
        invariant
            forall|a: int, b: int|
                0 <= a < i && 0 <= b < (#[trigger] cfg@.source_groups[a]).destinations.len()
                    ==> !keeps_awake(
                    state@,
                    pool@,
                    cfg@.source_groups[a],
                    #[trigger] cfg@.source_groups[a].destinations[b],
                    runnable_at(runnable@, a, b),
                ),
            first_item(cfg@.standby_pools, pool_named(name@)) == Some(pool@),
    {
        let s = &cfg.source_groups[i];
        proof {
            assert(cfg@.source_groups[i as int] == s@);
        }
        for j in 0..s.destinations.len()
            invariant
                i < cfg.source_groups.len(),
                cfg@.source_groups[i as int] == s@,
                forall|b: int|
                    0 <= b < j ==> !keeps_awake(
                        state@,
                        pool@,
                        s@,
                        #[trigger] s@.destinations[b],
                        runnable_at(runnable@, i as int, b),
                    ),
                first_item(cfg@.standby_pools, pool_named(name@)) == Some(pool@),
        {
            let d = &s.destinations[j];
            proof {
                assert(s@.destinations[j as int] == d@);
                reveal_strlit("");
                assert(""@ =~= Seq::<char>::empty());
            }
            if s.enabled && d.enabled && !d.paused && (pool_covers_path(pool, s.src.as_str())
                || pool_covers_path(pool, d.path.as_str())) && i < runnable.len() && j
                < runnable[i].len() && runnable[i][j] {
                let offset = state.destination_offset(s.id.as_str(), d.id.as_str(), "");
                let behind = match offset.target_cycle_id {
                    Some(target) => match offset.last_verified_cycle_id {
                        Some(verified) => verified < target,
                        None => true,
                    },
                    None => false,
                };
                if behind {
                    proof {
                        assert(keeps_awake(
                            state@,
                            pool@,
                            cfg@.source_groups[i as int],
                            cfg@.source_groups[i as int].destinations[j as int],
                            runnable_at(runnable@, i as int, j as int),
                        ));
                    }
                    return true;
                }
            }
        }
    }
    false
}

/// The roots of work between a source and a destination.
pub open spec fn both(src: Seq<char>, dst: Seq<char>) -> Seq<Seq<char>> {
    seq![src, dst]
}

/// Whether an answer says that no pool holds work between two roots back in some time zone.
pub open spec fn possible_run(
    r: bool,
    pools: Seq<StandbyPoolConfigModel>,
    src: Seq<char>,
    dst: Seq<char>,
    now: Moment,
    facts: Seq<DeviceModel>,
) -> bool {
    exists|gate: Result<Option<GateModel>, WakeError>| #[trigger]
        possible_gate(gate, pools, both(src, dst), now, facts) && r == (gate == Ok::<
            Option<GateModel>,
            WakeError,
        >(None))
}

/// Whether work between two roots can run now: no pool holds it back, and none gives an error.
/// Whether a window is open depends on the machine's time zone.
pub fn work_can_run(
    pools: &Vec<StandbyPoolConfig>,
    src: &str,
    dst: &str,
    now: Moment,
    facts: &Vec<DeviceFact>,
) -> (r: bool)
    ensures
        possible_run(r, views(pools@), src@, dst@, now, views(facts@)),
{
    let mut roots: Vec<String> = Vec::new();
    roots.push(src.to_string());
    roots.push(dst.to_string());
    proof {
        assert(views(roots@) =~= both(src@, dst@));
    }
    let gate = gate_for_roots(pools, &roots, now, facts);
    proof {
        assert(possible_gate(
            gate_view(gate),
            views(pools@),
            both(src@, dst@),
            now,
            views(facts@),
        ));
    }
    match gate {
        Ok(None) => true,
        _ => false,
    }
}

proof fn lemma_front_differs(a: Seq<char>, b: Seq<char>, q: Seq<char>)
    requires
        a != b,
    ensures
        a + q != b + q,
{
    if a + q == b + q {
        assert((a + q).len() == (b + q).len());
        assert(a =~= (a + q).subrange(0, a.len() as int));
        assert(b =~= (b + q).subrange(0, b.len() as int));
    }
}

proof fn lemma_back_differs(p: Seq<char>, x: Seq<char>, y: Seq<char>)
    requires
        x != y,
    ensures
        p + x != p + y,
{
    if p + x == p + y {
        assert((p + x).len() == (p + y).len());
        assert(x =~= (p + x).subrange(p.len() as int, (p + x).len() as int));
        assert(y =~= (p + y).subrange(p.len() as int, (p + y).len() as int));
    }
}

/// Texts that differ in one of their parts differ.
proof fn lemma_joined_differs(a: Seq<Seq<char>>, i: int, x: Seq<char>, sep: Seq<char>)
    requires
        0 <= i < a.len(),
        a[i] != x,
    ensures
        joined(a, sep) != joined(a.update(i, x), sep),
    decreases a.len(),
{
    let b = a.update(i, x);
    if a.len() > 1 {
        if i == a.len() - 1 {
            assert(b.drop_last() =~= a.drop_last());
            lemma_back_differs(joined(a.drop_last(), sep) + sep, a[i], x);
        } else {
            assert(b.drop_last() =~= a.drop_last().update(i, x));
            lemma_joined_differs(a.drop_last(), i, x, sep);
            let s = joined(a.drop_last(), sep);
            let t = joined(b.drop_last(), sep);
            lemma_front_differs(s, t, sep);
            lemma_front_differs(s + sep, t + sep, a.last());
        }
    }
}

proof fn lemma_flag_words()
    ensures
        flag_word(true) != flag_word(false),
{
    reveal_strlit("true");
    reveal_strlit("false");
    assert("true"@.len() == 4);
    assert("false"@.len() == 5);
}

proof fn lemma_source_mark(s: SourceGroupConfigModel, t: SourceGroupConfigModel)
    requires
        s != t,
        ({
            ||| t == (SourceGroupConfigModel { machine_id: t.machine_id, ..s })
            ||| t == (SourceGroupConfigModel { src: t.src, ..s })
            ||| t == (SourceGroupConfigModel { enabled: t.enabled, ..s })
            ||| t == (SourceGroupConfigModel { add_directory: t.add_directory, ..s })
        }),
    ensures
        source_mark()(s) != source_mark()(t),
{
    lemma_flag_words();
    let bar = "|"@;
    let ds = joined(s.destinations.map_values(destination_mark()), ","@);
    let front = s.id + bar;
    let a1 = front + s.machine_id;
    let b1 = front + t.machine_id;
    if s.machine_id != t.machine_id {
        lemma_back_differs(front, s.machine_id, t.machine_id);
        lemma_front_differs(a1, b1, bar);
        lemma_front_differs(a1 + bar, b1 + bar, s.src);
    }
    let a2 = a1 + bar + s.src;
    let b2 = b1 + bar + t.src;
    if s.src != t.src {
        lemma_back_differs(a1 + bar, s.src, t.src);
    }
    if a2 != b2 {
        lemma_front_differs(a2, b2, bar);
        lemma_front_differs(a2 + bar, b2 + bar, flag_word(s.enabled));
    }
    let a3 = a2 + bar + flag_word(s.enabled);
    let b3 = b2 + bar + flag_word(t.enabled);
    if s.enabled != t.enabled {
        lemma_back_differs(a2 + bar, flag_word(s.enabled), flag_word(t.enabled));
    }
    if a3 != b3 {
        lemma_front_differs(a3, b3, bar);
        lemma_front_differs(a3 + bar, b3 + bar, flag_word(s.add_directory));
    }
    let a4 = a3 + bar + flag_word(s.add_directory);
    let b4 = b3 + bar + flag_word(t.add_directory);
    if s.add_directory != t.add_directory {
        lemma_back_differs(a3 + bar, flag_word(s.add_directory), flag_word(t.add_directory));
    }
    lemma_front_differs(a4, b4, bar);
    lemma_front_differs(a4 + bar, b4 + bar, ds);
}

/// A source of which the machine, the path or one of the two flags is changed gives another
/// signature, so that watching begins anew.
pub proof fn changes_of_a_source_change_the_signature(
    cfg: AppConfigModel,
    i: int,
    t: SourceGroupConfigModel,
)
    requires
        0 <= i < cfg.source_groups.len(),
        t != cfg.source_groups[i],
        ({
            let s = cfg.source_groups[i];
            ||| t == (SourceGroupConfigModel { machine_id: t.machine_id, ..s })
            ||| t == (SourceGroupConfigModel { src: t.src, ..s })
            ||| t == (SourceGroupConfigModel { enabled: t.enabled, ..s })
            ||| t == (SourceGroupConfigModel { add_directory: t.add_directory, ..s })
        }),
    ensures
        signature_of(cfg) != signature_of(
            AppConfigModel { source_groups: cfg.source_groups.update(i, t), ..cfg },
        ),
{
    let s = cfg.source_groups[i];
    lemma_source_mark(s, t);
    let parts = seq![cfg.app.data_db] + cfg.source_groups.map_values(source_mark());
    let x = source_mark()(t);
    assert(parts[i + 1] == source_mark()(s));
    lemma_joined_differs(parts, i + 1, x, "\n"@);
    assert(parts.update(i + 1, x) =~= seq![cfg.app.data_db] + cfg.source_groups.update(
        i,
        t,
    ).map_values(source_mark()));
}

/// Switching a destination on or off gives another signature.
pub proof fn switching_a_destination_changes_the_signature(
    cfg: AppConfigModel,
    i: int,
    t: SourceGroupConfigModel,
    j: int,
)
    requires
        0 <= i < cfg.source_groups.len(),
        0 <= j < cfg.source_groups[i].destinations.len(),
        ({
            let s = cfg.source_groups[i];
            let d = s.destinations[j];
            t == (SourceGroupConfigModel {
                destinations: s.destinations.update(
                    j,
                    DestinationConfigModel { enabled: !d.enabled, ..d },
                ),
                ..s
            })
        }),
    ensures
        signature_of(cfg) != signature_of(
            AppConfigModel { source_groups: cfg.source_groups.update(i, t), ..cfg },
        ),
{
    let s = cfg.source_groups[i];
    let d = s.destinations[j];
    let e = DestinationConfigModel { enabled: !d.enabled, ..d };
    lemma_flag_words();
    let p = d.id + ":"@;
    lemma_back_differs(p, flag_word(d.enabled), flag_word(e.enabled));
    let marks = s.destinations.map_values(destination_mark());
    assert(marks[j] == destination_mark()(d));
    lemma_joined_differs(marks, j, destination_mark()(e), ","@);
    assert(marks.update(j, destination_mark()(e)) =~= t.destinations.map_values(
        destination_mark(),
    ));
    let ds = joined(marks, ","@);
    let es = joined(t.destinations.map_values(destination_mark()), ","@);
    let bar = "|"@;
    let front = s.id + bar + s.machine_id + bar + s.src + bar + flag_word(s.enabled) + bar
        + flag_word(s.add_directory) + bar;
    lemma_back_differs(front, ds, es);
    let parts = seq![cfg.app.data_db] + cfg.source_groups.map_values(source_mark());
    let x = source_mark()(t);
    assert(parts[i + 1] == source_mark()(s));
    lemma_joined_differs(parts, i + 1, x, "\n"@);
    assert(parts.update(i + 1, x) =~= seq![cfg.app.data_db] + cfg.source_groups.update(
        i,
        t,
    ).map_values(source_mark()));
}

/// A pool is kept awake by every destination that has not reached its target, works, can be
/// synchronised now, and lies on the pool or has its source there; and by any synchronisation.
pub proof fn work_that_is_left_keeps_pools_awake(
    st: StateModel,
    cfg: AppConfigModel,
    name: Seq<char>,
    runnable: Seq<Vec<bool>>,
    p: int,
    b: int,
    i: int,
    j: int,
    k: int,
)
    requires
        0 <= p < cfg.standby_pools.len(),
        cfg.standby_pools[p].name == name,
        forall|q: int| 0 <= q < p ==> (#[trigger] cfg.standby_pools[q]).name != name,
        0 <= b < cfg.standby_pools[p].mount_roots.len(),
        0 <= i < cfg.source_groups.len(),
        0 <= j < cfg.source_groups[i].destinations.len(),
        ({
            let s = cfg.source_groups[i];
            let d = s.destinations[j];
            let root = cfg.standby_pools[p].mount_roots[b];
            &&& s.enabled && d.enabled && !d.paused
            &&& at_or_under(s.src, root) || at_or_under(d.path, root)
            &&& i < runnable.len() && j < runnable[i]@.len() && runnable[i]@[j]
            &&& 0 <= k < st.offsets.len()
            &&& st.offsets[k].source_id == s.id
            &&& st.offsets[k].destination_id == d.id
            &&& forall|q: int|
                0 <= q < k ==> (#[trigger] st.offsets[q]).source_id != s.id
                    || st.offsets[q].destination_id != d.id
            &&& st.offsets[k].target_cycle_id is Some
            &&& st.offsets[k].last_verified_cycle_id is Some
                ==> st.offsets[k].last_verified_cycle_id->0 < st.offsets[k].target_cycle_id->0
        }),
    ensures
        is_busy(st, cfg, name, false, runnable),
        is_busy(st, cfg, name, true, runnable),
{
    let s = cfg.source_groups[i];
    let d = s.destinations[j];
    lemma_first_where_is(cfg.standby_pools, pool_named(name), p);
    lemma_first_where_is(st.offsets, crate::state::offsets::row_of(s.id, d.id), k);
    let pool = cfg.standby_pools[p];
    let root = pool.mount_roots[b];
    if at_or_under(s.src, root) {
        assert(covers(pool, s.src));
    } else {
        assert(covers(pool, d.path));
    }
    assert(keeps_awake(
        st,
        pool,
        cfg.source_groups[i],
        cfg.source_groups[i].destinations[j],
        runnable_at(runnable, i, j),
    ));
}

} // verus!
