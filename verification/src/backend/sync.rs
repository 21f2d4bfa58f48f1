//! Requests to synchronise, and whom they are passed on to.

use crate::backend::delegation::{
    holding_machines, is_remote, machine_of, remote_source_machines, source_execution_machine,
    source_with_id,
};
use crate::backend::overview::{label_of, machine_label};
use crate::backend::types::{
    mode_word, sync_request_mode_wire_value, BackendError, BackendErrorModel, SyncRequestMode,
};
use crate::config::clean::cleaned_machines;
use crate::config::identity::reference_of;
use crate::config::types::{
    AppConfig, AppConfigModel, LocalEnv, LocalEnvModel, MachineConfig, MachineConfigModel,
};
use crate::machines::lookup::resolved;
use crate::seqs::{first_item, lemma_first_where_is};
use crate::text::{trimmed, views};
use vstd::prelude::*;

verus! {

/// What is to be synchronised.
#[derive(Debug)]
pub enum SyncRequest {
    All,
    Source(String),
    /// A source, a destination and the word for the mode.
    Destination(String, String, String),
}

/// The model of a `SyncRequest`.
pub enum SyncRequestModel {
    All,
    Source(Seq<char>),
    Destination(Seq<char>, Seq<char>, Seq<char>),
}

impl View for SyncRequest {
    type V = SyncRequestModel;

    open spec fn view(&self) -> SyncRequestModel {
        match self {
            SyncRequest::All => SyncRequestModel::All,
            SyncRequest::Source(s) => SyncRequestModel::Source(s@),
            SyncRequest::Destination(s, d, m) => SyncRequestModel::Destination(s@, d@, m@),
        }
    }
}

impl SyncRequest {
    /// The target of the request to another machine.
    pub fn target(&self) -> (r: String)
        ensures
            r@ == (match self@ {
                SyncRequestModel::All => "/api/sync-now"@,
                SyncRequestModel::Source(_) => "/api/sync-source-now"@,
                SyncRequestModel::Destination(_, _, _) => "/api/sync-destination-now"@,
            }),
    {
        match self {
            SyncRequest::All => "/api/sync-now".to_string(),
            SyncRequest::Source(_) => "/api/sync-source-now".to_string(),
            SyncRequest::Destination(_, _, _) => "/api/sync-destination-now".to_string(),
        }
    }
}

/// A request under way. All machines that it is passed on to are asked whether they are busy before
/// the first of them is told.
#[derive(Debug)]
pub struct SyncRun {
    pub request: SyncRequest,
    /// The machines that the request is passed on to.
    pub machines: Vec<MachineConfig>,
    /// Whether this machine synchronises too.
    pub local: bool,
    /// How many machines have said that they are not busy.
    pub asked: usize,
    /// How many machines have taken the request.
    pub told: usize,
    /// Whether this machine is done.
    pub done: bool,
}

/// The model of a `SyncRun`.
pub struct SyncRunModel {
    pub request: SyncRequestModel,
    pub machines: Seq<MachineConfigModel>,
    pub local: bool,
    pub asked: int,
    pub told: int,
    pub done: bool,
}

impl View for SyncRun {
    type V = SyncRunModel;

    open spec fn view(&self) -> SyncRunModel {
        SyncRunModel {
            request: self.request@,
            machines: views(self.machines@),
            local: self.local,
            asked: self.asked as int,
            told: self.told as int,
            done: self.done,
        }
    }
}

/// What is to be done next.
#[derive(Debug)]
pub enum SyncAction {
    /// A machine is asked whether it is busy.
    Ask(MachineConfig),
    /// A machine is told to synchronise.
    Tell(MachineConfig),
    /// This machine synchronises.
    Run,
    /// There is nothing left to do.
    Finish,
}

/// The model of a `SyncAction`.
pub enum SyncActionModel {
    Ask(MachineConfigModel),
    Tell(MachineConfigModel),
    Run,
    Finish,
}

impl View for SyncAction {
    type V = SyncActionModel;

    open spec fn view(&self) -> SyncActionModel {
        match self {
            SyncAction::Ask(m) => SyncActionModel::Ask(m@),
            SyncAction::Tell(m) => SyncActionModel::Tell(m@),
            SyncAction::Run => SyncActionModel::Run,
            SyncAction::Finish => SyncActionModel::Finish,
        }
    }
}

/// A request that nobody was asked about yet.
pub open spec fn begun(
    request: SyncRequestModel,
    machines: Seq<MachineConfigModel>,
    local: bool,
) -> SyncRunModel {
    SyncRunModel { request, machines, local, asked: 0, told: 0, done: false }
}

/// What is to be done next.
pub open spec fn next_action(run: SyncRunModel) -> SyncActionModel {
    if run.asked < run.machines.len() {
        SyncActionModel::Ask(run.machines[run.asked])
    } else if run.told < run.machines.len() {
        SyncActionModel::Tell(run.machines[run.told])
    } else if run.local && !run.done {
        SyncActionModel::Run
    } else {
        SyncActionModel::Finish
    }
}

/// The request for one source, where it is known who synchronises it: another machine alone, or
/// this one.
pub open spec fn source_run(
    cfg: AppConfigModel,
    source_id: Seq<char>,
    request: SyncRequestModel,
    env: LocalEnvModel,
) -> Result<SyncRunModel, BackendErrorModel> {
    match first_item(cfg.source_groups, source_with_id(source_id)) {
        Some(s) => if is_remote(s) {
            match machine_of(cfg, reference_of(s.machine_id), env) {
                Some(m) => Ok(begun(request, seq![m], false)),
                None => Err(BackendErrorModel::UnknownSourceMachine(reference_of(s.machine_id))),
            }
        } else {
            Ok(begun(request, Seq::empty(), true))
        },
        None => Ok(begun(request, Seq::empty(), true)),
    }
}

/// The model of a request that may have been refused.
pub open spec fn run_view(r: Result<SyncRun, BackendError>) -> Result<
    SyncRunModel,
    BackendErrorModel,
> {
    match r {
        Ok(run) => Ok(run@),
        Err(e) => Err(e@),
    }
}

/// Begins to synchronise everything; refused while this machine is busy.
pub fn begin_all(cfg: &AppConfig, syncing: bool, env: &LocalEnv) -> (r: Result<
    SyncRun,
    BackendError,
>)
    ensures
        run_view(r) == (if syncing {
            Err(BackendErrorModel::Busy)
        } else {
            Ok(
                begun(
                    SyncRequestModel::All,
                    holding_machines(cfg@, cfg@.source_groups, env@),
                    true,
                ),
            )
        }),
{
    if syncing {
        return Err(BackendError::Busy);
    }
    Ok(
        SyncRun {
            request: SyncRequest::All,
            machines: remote_source_machines(cfg, env),
            local: true,
            asked: 0,
            told: 0,
            done: false,
        },
    )
}

/// Begins a request for one source.
fn begin_source(cfg: &AppConfig, source_id: &str, request: SyncRequest, env: &LocalEnv) -> (r:
    Result<SyncRun, BackendError>)
    ensures
        run_view(r) == source_run(cfg@, source_id@, request@, env@),
{
    let mut machines: Vec<MachineConfig> = Vec::new();
    let mut local = true;
    match source_execution_machine(cfg, source_id, env) {
        Ok(Some(m)) => {
            let ghost mv = m@;
            machines.push(m);
            local = false;
            proof {
                assert(views(machines@) =~= seq![mv]);
            }
        },
        Ok(None) => {
            proof {
                assert(views(machines@) =~= Seq::<MachineConfigModel>::empty());
            }
        },
        Err(e) => {
            return Err(e);
        },
    }
    Ok(SyncRun { request, machines, local, asked: 0, told: 0, done: false })
}

/// Begins to synchronise a source.
pub fn begin_one_source(cfg: &AppConfig, source_id: &str, env: &LocalEnv) -> (r: Result<
    SyncRun,
    BackendError,
>)
    ensures
        run_view(r) == source_run(
            cfg@,
            source_id@,
            SyncRequestModel::Source(source_id@),
            env@,
        ),
{
    begin_source(cfg, source_id, SyncRequest::Source(source_id.to_string()), env)
}

/// Begins to synchronise a destination.
pub fn begin_one_destination(
    cfg: &AppConfig,
    source_id: &str,
    destination_id: &str,
    mode: SyncRequestMode,
    env: &LocalEnv,
) -> (r: Result<SyncRun, BackendError>)
    ensures
        run_view(r) == source_run(
            cfg@,
            source_id@,
            SyncRequestModel::Destination(source_id@, destination_id@, mode_word(mode)),
            env@,
        ),
{
    let request = SyncRequest::Destination(
        source_id.to_string(),
        destination_id.to_string(),
        sync_request_mode_wire_value(mode),
    );
    begin_source(cfg, source_id, request, env)
}

impl SyncRun {
    /// What is to be done next.
    pub fn action(&self) -> (r: SyncAction)
        ensures
            r@ == next_action(self@),
    {
        proof {
            assert(self@.machines.len() == self.machines.len());
        }
        if self.asked < self.machines.len() {
            proof {
                assert(self@.machines[self.asked as int] == self.machines@[self.asked as int]@);
            }
            SyncAction::Ask(self.machines[self.asked].clone())
        } else if self.told < self.machines.len() {
            proof {
                assert(self@.machines[self.told as int] == self.machines@[self.told as int]@);
            }
            SyncAction::Tell(self.machines[self.told].clone())
        } else if self.local && !self.done {
            SyncAction::Run
        } else {
            SyncAction::Finish
        }
    }

    /// Takes the answer of the machine that was asked: whether it is busy, or nothing where it gave
    /// no answer. The request is refused unless it is not busy.
    pub fn on_status(&mut self, syncing: Option<bool>) -> (r: Result<(), BackendError>)
        requires
            next_action(old(self)@) is Ask,
        ensures
            ({
                let m = old(self)@.machines[old(self)@.asked];
                match syncing {
                    Some(false) => r is Ok && final(self)@ == (SyncRunModel {
                        asked: old(self)@.asked + 1,
                        ..old(self)@
                    }),
                    Some(true) => r is Err && r->Err_0@ == BackendErrorModel::RemoteBusy(
                        label_of(m),
                    ) && *final(self) == *old(self),
                    None => r is Err && r->Err_0@ == BackendErrorModel::NoStatus(label_of(m))
                        && *final(self) == *old(self),
                }
            }),
    {
        proof {
            assert(self@.machines.len() == self.machines.len());
            assert(self@.machines[self.asked as int] == self.machines@[self.asked as int]@);
        }
        match syncing {
            Some(busy) => {
                if busy {
                    Err(BackendError::RemoteBusy(machine_label(&self.machines[self.asked])))
                } else {
                    self.asked = self.asked + 1;
                    Ok(())
                }
            },
            None => Err(BackendError::NoStatus(machine_label(&self.machines[self.asked]))),
        }
    }

    /// Notes that the machine that was told has taken the request.
    pub fn on_taken(&mut self)
        requires
            next_action(old(self)@) is Tell,
        ensures
            final(self)@ == (SyncRunModel { told: old(self)@.told + 1, ..old(self)@ }),
    {
        proof {
            assert(self@.machines.len() == self.machines.len());
        }
        self.told = self.told + 1;
    }

    /// Notes that this machine is done.
    pub fn on_run(&mut self)
        ensures
            final(self)@ == (SyncRunModel { done: true, ..old(self)@ }),
    {
        self.done = true;
    }
}

/// Whether a request is in a state that it can be in: no machine was told before all were asked, and
/// this machine is not done before all were told.
pub open spec fn is_orderly(run: SyncRunModel) -> bool {
    &&& 0 <= run.asked <= run.machines.len()
    &&& 0 <= run.told <= run.machines.len()
    &&& run.told > 0 ==> run.asked == run.machines.len()
    &&& run.done ==> run.told == run.machines.len() && run.asked == run.machines.len()
}

/// No machine is told before all have said that they are not busy, and this machine does not begin
/// before all were told: each step keeps that order.
pub proof fn requests_are_orderly(
    request: SyncRequestModel,
    machines: Seq<MachineConfigModel>,
    local: bool,
    run: SyncRunModel,
)
    requires
        is_orderly(run),
    ensures
        is_orderly(begun(request, machines, local)),
        next_action(run) is Ask ==> is_orderly(SyncRunModel { asked: run.asked + 1, ..run }),
        next_action(run) is Tell ==> run.asked == run.machines.len() && is_orderly(
            SyncRunModel { told: run.told + 1, ..run },
        ),
        next_action(run) is Run ==> run.told == run.machines.len() && is_orderly(
            SyncRunModel { done: true, ..run },
        ),
{
}

/// A request is finished only when every machine that it is passed on to has taken it, and this
/// machine is done where it synchronises too. Until then the next machine in order is asked, or told,
/// or this machine begins.
pub proof fn finished_requests_have_reached_everyone(run: SyncRunModel)
    requires
        is_orderly(run),
    ensures
        next_action(run) is Finish == (run.asked == run.machines.len() && run.told
            == run.machines.len() && (run.local ==> run.done)),
        match next_action(run) {
            SyncActionModel::Ask(m) => run.asked < run.machines.len() && m
                == run.machines[run.asked] && run.told == 0,
            SyncActionModel::Tell(m) => run.told < run.machines.len() && m == run.machines[run.told],
            SyncActionModel::Run => run.local && !run.done,
            SyncActionModel::Finish => true,
        },
{
}

/// A request for one source goes to the machine that the source is on and to no other: to this one
/// alone where the source is here or is not known, else to the other one alone.
pub proof fn one_source_is_synchronised_where_it_is(
    cfg: AppConfigModel,
    source_id: Seq<char>,
    request: SyncRequestModel,
    env: LocalEnvModel,
    k: int,
)
    requires
        0 <= k < cfg.source_groups.len(),
        cfg.source_groups[k].id == source_id,
        forall|j: int| 0 <= j < k ==> (#[trigger] cfg.source_groups[j]).id != source_id,
    ensures
        ({
            let t = trimmed(cfg.source_groups[k].machine_id);
            let r = source_run(cfg, source_id, request, env);
            if t.len() == 0 || t == "local"@ {
                r is Ok && r->Ok_0.local && r->Ok_0.machines.len() == 0 && r->Ok_0.request
                    == request
            } else {
                match resolved(cleaned_machines(cfg.machines, env), t) {
                    Some(m) => r is Ok && !r->Ok_0.local && r->Ok_0.machines == seq![m]
                        && r->Ok_0.request == request && r->Ok_0.asked == 0 && r->Ok_0.told == 0,
                    None => r is Err,
                }
            }
        }),
{
    lemma_first_where_is(cfg.source_groups, source_with_id(source_id), k);
}

} // verus!
