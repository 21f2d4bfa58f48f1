//! The backend: what is asked of it, apart from files and connections.

use crate::backend::browse::{browse_plan, plan_browse, plan_view, BrowsePlan};
use crate::backend::changes::{
    drop_machine, moved_in, other_machine, preserve_current_machines, put_machine,
    reject_locked_source_path_changes, reset_changed_destination_offsets, sources_reset,
    with_machine, with_stored_machines,
};
use crate::backend::delegation::{delegated_config, take_delegation};
use crate::backend::overview::{all_remote_views, merge_remote_source_statuses, seen_here};
use crate::backend::sync::{
    begin_all, begin_one_destination, begin_one_source, begun, run_view, source_run,
    SyncRequestModel, SyncRun,
};
use crate::backend::types::{
    mode_word, BackendError, BackendErrorModel, BuildInfo, DelegatedSourceGroupsRequest,
    RuntimeStatus, SyncRequestMode,
};
use crate::config::clean::cleaned_config;
use crate::config::types::{
    initial_config, AppConfig, AppConfigModel, LocalEnv, LocalEnvModel, MachineConfig,
};
use crate::config::validate::{
    config_fault, load_or_create_config, prepare_config_for_save, save_fault, ConfigError,
    ConfigErrorModel, PathKind,
};
use crate::machines::status::{local_health, merge_discovered, own_health};
use crate::machines::types::{MachineHealth, MachineStatus, Probes};
use crate::progress::{ScanProgressView, TransferProgressView};
use crate::seqs::first_item;
use crate::state::targets::sources_ensured;
use crate::state::types::{DestinationView, State};
use crate::state::views::{all_views, differences_fit};
use crate::text::{opt_view, same, views};
use vstd::prelude::*;

verus! {

/// How long machines that were found stay known before they are looked for again, in milliseconds.
pub const DISCOVERY_REFRESH_MS: u64 = 30000;

/// The same where a user asks for it.
pub const MANUAL_DISCOVERY_MIN_MS: u64 = 5000;

/// What is known of the machine that the backend runs on.
#[derive(Debug)]
pub struct Site {
    pub env: LocalEnv,
    pub probes: Probes,
    /// The mark of the installation.
    pub mark: String,
    pub version: String,
    /// What the paths of the configuration are on disk.
    pub kinds: Vec<PathKind>,
}

/// The backend of the daemon.
#[derive(Debug)]
pub struct Backend {
    pub config_path: String,
    pub port: u16,
    /// The machines that were found last.
    pub found: Option<MachineStatus>,
    /// When they were found, in milliseconds.
    pub found_at: Option<u64>,
}

/// Whether the machines that were found are recent enough.
pub open spec fn is_recent(found_at: Option<u64>, now: u64, min_interval: u64) -> bool {
    match found_at {
        Some(at) => (if now < at {
            0
        } else {
            now - at
        }) < min_interval,
        None => false,
    }
}

/// What is wrong with a configuration that is to be stored in place of another.
pub open spec fn replacement_fault(
    stored: Option<AppConfigModel>,
    cfg: AppConfigModel,
    env: LocalEnvModel,
    kinds: Seq<(Seq<char>, bool)>,
) -> Option<BackendErrorModel> {
    let next = with_stored_machines(cfg, stored);
    let moved = match stored {
        Some(s) => first_item(
            cleaned_config(s, env).source_groups,
            moved_in(cleaned_config(next, env).source_groups),
        ),
        None => None,
    };
    if moved is Some {
        Some(BackendErrorModel::SourceLocked(moved->0.id))
    } else {
        match save_fault(next, env, kinds) {
            Some(e) => Some(BackendErrorModel::Config(e)),
            None => None,
        }
    }
}

/// The error of a result, where there is one.
pub open spec fn refusal_of<T>(r: Result<T, BackendError>) -> Option<BackendErrorModel> {
    match r {
        Ok(_) => None,
        Err(e) => Some(e@),
    }
}

/// The error of a result, where there is one.
pub open spec fn config_refusal_of<T>(r: Result<T, ConfigError>) -> Option<ConfigErrorModel> {
    match r {
        Ok(_) => None,
        Err(e) => Some(e@),
    }
}

/// Refuses the identifier of this machine, which cannot be removed.
pub fn refuse_local(machine_id: &str) -> (r: Result<(), BackendError>)
    ensures
        refusal_of(r) == (if machine_id@ == "local"@ {
            Some(BackendErrorModel::LocalMachine)
        } else {
            None
        }),
{
    if same(machine_id, "local") {
        Err(BackendError::LocalMachine)
    } else {
        Ok(())
    }
}

impl Backend {
    /// A backend that has not looked for machines yet.
    pub fn new(config_path: String, port: u16) -> (r: Backend)
        ensures
            r.config_path == config_path,
            r.port == port,
            r.found is None,
            r.found_at is None,
    {
        Backend { config_path, port, found: None, found_at: None }
    }

    /// Where the configuration is stored.
    pub fn config_path(&self) -> (r: String)
        ensures
            r@ == self.config_path@,
    {
        self.config_path.clone()
    }

    /// The port that requests come in on.
    pub fn port(&self) -> (r: u16)
        ensures
            r == self.port,
    {
        self.port
    }

    /// The configuration that is worked with, and whether it is to be stored.
    pub fn get_config(&self, stored: Option<AppConfig>, site: &Site) -> (r: Result<
        (AppConfig, bool),
        ConfigError,
    >)
        ensures
            config_refusal_of(r) == (match stored {
                Some(cfg) => config_fault(cfg@, site.env@, views(site.kinds@)),
                None => save_fault(initial_config(site.env@), site.env@, views(site.kinds@)),
            }),
            r is Ok ==> (r->Ok_0.0@, r->Ok_0.1) == (match stored {
                Some(cfg) => (cfg@, false),
                None => (cleaned_config(initial_config(site.env@), site.env@), true),
            }),
    {
        load_or_create_config(stored, &site.env, &site.kinds)
    }

    /// What is stored for a configuration that a user gives. The machines of the stored one are
    /// kept, and a source that has destinations cannot be moved.
    pub fn save_config(&mut self, stored: &Option<AppConfig>, cfg: &AppConfig, site: &Site) -> (r:
        Result<AppConfig, BackendError>)
        ensures
            refusal_of(r) == replacement_fault(
                opt_ref_view(stored),
                cfg@,
                site.env@,
                views(site.kinds@),
            ),
            r is Ok ==> r->Ok_0@ == cleaned_config(
                with_stored_machines(cfg@, opt_ref_view(stored)),
                site.env@,
            ),
            r is Ok ==> final(self).found is None && final(self).found_at is None,
            r is Err ==> *final(self) == *old(self),
            final(self).config_path == old(self).config_path,
            final(self).port == old(self).port,
    {
        let next = preserve_current_machines(cfg, stored);
        match stored {
            Some(s) => match reject_locked_source_path_changes(s, &next, &site.env) {
                Ok(_) => {},
                Err(e) => {
                    return Err(e);
                },
            },
            None => {},
        }
        match prepare_config_for_save(&next, &site.env, &site.kinds) {
            Ok(saved) => {
                self.clear_machine_cache();
                Ok(saved)
            },
            Err(e) => Err(BackendError::Config(e)),
        }
    }

    /// Brings the state in line with a configuration that was stored in place of another: every
    /// destination has a row, and one that is elsewhere now begins anew.
    pub fn config_saved(
        &self,
        state: &mut State,
        previous: &Option<AppConfig>,
        saved: &AppConfig,
        now: &str,
        site: &Site,
    )
        ensures
            ({
                let ensured = sources_ensured(old(state)@, saved@.source_groups, now@);
                final(state)@ == (match previous {
                    Some(p) => sources_reset(
                        ensured,
                        cleaned_config(p@, site.env@).source_groups,
                        saved@.source_groups,
                        now@,
                    ),
                    None => ensured,
                })
            }),
    {
        state.ensure_config(saved, now);
        match previous {
            Some(p) => {
                let before = crate::config::clean::clean_config_for_save(p, &site.env);
                reset_changed_destination_offsets(state, &before, saved, now);
            },
            None => {},
        }
    }

    /// What is stored after a controlling machine has told of its sources.
    pub fn apply_delegated_source_groups(
        &mut self,
        cfg: &AppConfig,
        req: &DelegatedSourceGroupsRequest,
        site: &Site,
    ) -> (r: Result<AppConfig, ConfigError>)
        ensures
            config_refusal_of(r) == save_fault(
                delegated_config(cfg@, req@),
                site.env@,
                views(site.kinds@),
            ),
            r is Ok ==> r->Ok_0@ == cleaned_config(delegated_config(cfg@, req@), site.env@),
            r is Ok ==> final(self).found is None && final(self).found_at is None,
            r is Err ==> *final(self) == *old(self),
            final(self).config_path == old(self).config_path,
            final(self).port == old(self).port,
    {
        let next = take_delegation(cfg, req);
        self.store_machines(next, site)
    }

    /// What this machine says of itself.
    pub fn health(&self, cfg: &AppConfig, site: &Site) -> (r: MachineHealth)
        ensures
            r@ == own_health(
                cfg@,
                self.port,
                site.env@,
                site.probes@,
                site.mark@,
                site.version@,
            ),
    {
        local_health(
            cfg,
            self.port,
            &site.env,
            &site.probes,
            site.mark.as_str(),
            site.version.as_str(),
        )
    }

    /// The machines that were found last; nothing where they are to be looked for.
    pub fn machines(&self) -> (r: Option<MachineStatus>)
        ensures
            opt_view(r) == opt_view(self.found),
    {
        match &self.found {
            Some(s) => Some(s.clone()),
            None => None,
        }
    }

    /// The machines that were found last, if that was a moment ago; nothing where they are to be
    /// looked for again.
    pub fn discover_machines(&self, now: u64) -> (r: Option<MachineStatus>)
        ensures
            opt_view(r) == (if is_recent(self.found_at, now, MANUAL_DISCOVERY_MIN_MS) {
                opt_view(self.found)
            } else {
                None
            }),
    {
        self.recent_machines(now, MANUAL_DISCOVERY_MIN_MS)
    }

    /// The machines that were found last, if they were found recently enough.
    pub fn recent_machines(&self, now: u64, min_interval: u64) -> (r: Option<MachineStatus>)
        ensures
            opt_view(r) == (if is_recent(self.found_at, now, min_interval) {
                opt_view(self.found)
            } else {
                None
            }),
    {
        let recent = match self.found_at {
            Some(at) => if now < at {
                0 < min_interval
            } else {
                now - at < min_interval
            },
            None => false,
        };
        if recent {
            self.machines()
        } else {
            None
        }
    }

    /// Takes what machines answered when they were looked for.
    pub fn refresh_machine_cache(
        &mut self,
        cfg: &AppConfig,
        discovered: &Vec<MachineHealth>,
        now: u64,
        site: &Site,
    ) -> (r: MachineStatus)
        ensures
            r@ == crate::machines::status::counted(
                crate::machines::status::with_all_found(
                    crate::machines::status::configured_status(cfg@, site.env@, site.probes@),
                    views(discovered@),
                    site.mark@,
                ),
            ),
            opt_view(final(self).found) == Some(r@),
            final(self).found_at == Some(now),
            final(self).config_path == old(self).config_path,
            final(self).port == old(self).port,
    {
        let status = merge_discovered(
            cfg,
            discovered,
            &site.env,
            &site.probes,
            site.mark.as_str(),
        );
        self.found = Some(status.clone());
        self.found_at = Some(now);
        status
    }

    /// Forgets the machines that were found.
    pub fn clear_machine_cache(&mut self)
        ensures
            final(self).found is None,
            final(self).found_at is None,
            final(self).config_path == old(self).config_path,
            final(self).port == old(self).port,
    {
        self.found = None;
        self.found_at = None;
    }

    /// What is stored for a configuration whose machines have changed.
    fn store_machines(&mut self, cfg: AppConfig, site: &Site) -> (r: Result<AppConfig, ConfigError>)
        ensures
            config_refusal_of(r) == save_fault(cfg@, site.env@, views(site.kinds@)),
            r is Ok ==> r->Ok_0@ == cleaned_config(cfg@, site.env@),
            r is Ok ==> final(self).found is None && final(self).found_at is None,
            r is Err ==> *final(self) == *old(self),
            final(self).config_path == old(self).config_path,
            final(self).port == old(self).port,
    {
        match prepare_config_for_save(&cfg, &site.env, &site.kinds) {
            Ok(saved) => {
                self.clear_machine_cache();
                Ok(saved)
            },
            Err(e) => Err(e),
        }
    }

    /// What is stored after a machine was added, in place of its namesake where there is one.
    pub fn add_machine(&mut self, cfg: AppConfig, machine: MachineConfig, site: &Site) -> (r: Result<
        AppConfig,
        ConfigError,
    >)
        ensures
            ({
                let next = AppConfigModel {
                    machines: with_machine(cfg@.machines, machine@),
                    ..cfg@
                };
                &&& config_refusal_of(r) == save_fault(next, site.env@, views(site.kinds@))
                &&& r is Ok ==> r->Ok_0@ == cleaned_config(next, site.env@)
            }),
            r is Ok ==> final(self).found is None && final(self).found_at is None,
            r is Err ==> *final(self) == *old(self),
            final(self).config_path == old(self).config_path,
            final(self).port == old(self).port,
    {
        let next = put_machine(cfg, machine);
        self.store_machines(next, site)
    }

    /// What is stored after a machine was removed; this machine cannot be.
    pub fn remove_machine(&mut self, cfg: AppConfig, machine_id: &str, site: &Site) -> (r: Result<
        AppConfig,
        BackendError,
    >)
        ensures
            ({
                let next = AppConfigModel {
                    machines: cfg@.machines.filter(other_machine(machine_id@)),
                    ..cfg@
                };
                &&& refusal_of(r) == (if machine_id@ == "local"@ {
                    Some(BackendErrorModel::LocalMachine)
                } else {
                    match save_fault(next, site.env@, views(site.kinds@)) {
                        Some(e) => Some(BackendErrorModel::Config(e)),
                        None => None,
                    }
                })
                &&& r is Ok ==> r->Ok_0@ == cleaned_config(next, site.env@)
            }),
            r is Ok ==> final(self).found is None && final(self).found_at is None,
            r is Err ==> *final(self) == *old(self),
            final(self).config_path == old(self).config_path,
            final(self).port == old(self).port,
    {
        match refuse_local(machine_id) {
            Ok(_) => {},
            Err(e) => {
                return Err(e);
            },
        }
        let next = drop_machine(cfg, machine_id);
        match self.store_machines(next, site) {
            Ok(saved) => Ok(saved),
            Err(e) => Err(BackendError::Config(e)),
        }
    }

    /// The state of all destinations. Replies of other machines stand at the indices of their
    /// sources.
    pub fn status(
        &self,
        cfg: &AppConfig,
        state: &mut State,
        replies: &Vec<Option<Vec<DestinationView>>>,
        now: &str,
        site: &Site,
    ) -> (out: Vec<DestinationView>)
        requires
            differences_fit(old(state)@, cfg@.source_groups),
        ensures
            final(state)@ == sources_ensured(old(state)@, cfg@.source_groups, now@),
            views(out@) == all_views(final(state)@, cfg@.source_groups, now@).filter(
                seen_here(cfg@.source_groups),
            ) + all_remote_views(
                cfg@,
                replies@,
                site.env@,
                cfg@.source_groups.len() as int,
            ),
    {
        proof {
            crate::state::targets::lemma_ensured_keeps_rest(state@, cfg@.source_groups, now@);
        }
        state.ensure_config(cfg, now);
        let local = state.destination_views(cfg, now);
        merge_remote_source_statuses(cfg, &local, replies, &site.env)
    }

    /// What the daemon is doing.
    pub fn runtime_status(
        &self,
        syncing: bool,
        transfer: Option<TransferProgressView>,
        scan: Option<ScanProgressView>,
        build: BuildInfo,
    ) -> (r: RuntimeStatus)
        ensures
            r.syncing == syncing,
            r.transfer == transfer,
            r.scan == scan,
            r.build == build,
    {
        RuntimeStatus { syncing, transfer, scan, build }
    }

    /// Begins to synchronise everything.
    pub fn sync_now(&self, cfg: &AppConfig, syncing: bool, site: &Site) -> (r: Result<
        SyncRun,
        BackendError,
    >)
        ensures
            run_view(r) == (if syncing {
                Err(BackendErrorModel::Busy)
            } else {
                Ok(
                    begun(
                        SyncRequestModel::All,
                        crate::backend::delegation::holding_machines(
                            cfg@,
                            cfg@.source_groups,
                            site.env@,
                        ),
                        true,
                    ),
                )
            }),
    {
        begin_all(cfg, syncing, &site.env)
    }

    /// Begins to synchronise a source.
    pub fn sync_source_now(&self, cfg: &AppConfig, source_id: &str, site: &Site) -> (r: Result<
        SyncRun,
        BackendError,
    >)
        ensures
            run_view(r) == source_run(
                cfg@,
                source_id@,
                SyncRequestModel::Source(source_id@),
                site.env@,
            ),
    {
        begin_one_source(cfg, source_id, &site.env)
    }

    /// Begins to synchronise a destination.
    pub fn sync_destination_now(
        &self,
        cfg: &AppConfig,
        source_id: &str,
        destination_id: &str,
        mode: SyncRequestMode,
        site: &Site,
    ) -> (r: Result<SyncRun, BackendError>)
        ensures
            run_view(r) == source_run(
                cfg@,
                source_id@,
                SyncRequestModel::Destination(source_id@, destination_id@, mode_word(mode)),
                site.env@,
            ),
    {
        begin_one_destination(cfg, source_id, destination_id, mode, &site.env)
    }

    /// What is done to browse a path on this machine or another one.
    pub fn browse_paths(
        &self,
        cfg: &AppConfig,
        path: Option<String>,
        machine_id: Option<String>,
        site: &Site,
    ) -> (r: Result<BrowsePlan, BackendError>)
        ensures
            plan_view(r) == browse_plan(cfg@, opt_view(path), opt_view(machine_id), site.env@),
    {
        plan_browse(cfg, path, machine_id, &site.env)
    }
}

/// The model of an optional configuration.
pub open spec fn opt_ref_view(o: &Option<AppConfig>) -> Option<AppConfigModel> {
    match o {
        Some(c) => Some(c@),
        None => None,
    }
}

} // verus!
