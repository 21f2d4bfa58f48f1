//! The rules that a configuration has to meet.

use crate::config::clean::{clean_machines, cleaned_machines};
use crate::config::identity::{clean_id, id_of, machine_id_or_local, reference_of};
use crate::config::schedule_time::{schedule_error_text, schedule_fault, validate_schedule};
use crate::config::types::{
    initial_config, AppConfig, AppConfigModel, DestinationConfig, LocalEnv, LocalEnvModel,
    MachineConfig, MachineConfigModel, SourceGroupConfig, SourceGroupConfigModel,
};
use crate::paths::{
    absolute, components, components_of, is_absolute, path_has_prefix, strictly_under,
};
use crate::text::{is_blank, lowered, opt_view, same, to_ascii_lowercase, trim, trimmed, views};
use vstd::prelude::*;

verus! {

/// Why a configuration was refused.
#[derive(Debug)]
pub struct ConfigError {
    pub message: String,
    /// What lies behind the message, where something does.
    pub cause: Option<String>,
}

/// The model of a `ConfigError`.
pub struct ConfigErrorModel {
    pub message: Seq<char>,
    pub cause: Option<Seq<char>>,
}

impl View for ConfigError {
    type V = ConfigErrorModel;

    open spec fn view(&self) -> ConfigErrorModel {
        ConfigErrorModel { message: self.message@, cause: opt_view(self.cause) }
    }
}

/// An error with nothing behind it.
pub open spec fn plain(message: Seq<char>) -> Option<ConfigErrorModel> {
    Some(ConfigErrorModel { message, cause: None })
}

/// The model of a check's result: the error, where there is one.
pub open spec fn fault_in(r: Result<(), ConfigError>) -> Option<ConfigErrorModel> {
    match r {
        Ok(_) => None,
        Err(e) => Some(e@),
    }
}

/// What is known of a path on disk.
#[derive(Debug)]
pub struct PathKind {
    pub path: String,
    pub directory: bool,
}

impl View for PathKind {
    type V = (Seq<char>, bool);

    open spec fn view(&self) -> (Seq<char>, bool) {
        (self.path@, self.directory)
    }
}

/// Whether a path exists, and then whether it is a directory.
pub open spec fn kind_at(kinds: Seq<(Seq<char>, bool)>, path: Seq<char>) -> Option<bool>
    decreases kinds.len(),
{
    if kinds.len() == 0 {
        None
    } else if kinds[0].0 == path {
        Some(kinds[0].1)
    } else {
        kind_at(kinds.drop_first(), path)
    }
}

/// Whether a path exists, and then whether it is a directory.
fn kind_of(kinds: &Vec<PathKind>, path: &str) -> (r: Option<bool>)
    ensures
        r == kind_at(views(kinds@), path@),
{
    let ghost ks = views(kinds@);
    proof {
        assert(ks.skip(0) =~= ks);
    }
    for i in 0..kinds.len()
        invariant
            ks == views(kinds@),
            kind_at(ks, path@) == kind_at(ks.skip(i as int), path@),
    {
        proof {
            assert(ks.skip(i as int)[0] == kinds@[i as int]@);
            assert(ks.skip(i as int).drop_first() =~= ks.skip(i + 1));
        }
        if same(kinds[i].path.as_str(), path) {
            return Some(kinds[i].directory);
        }
    }
    None
}

/// Whether an entry before index `i` has the same identifier.
pub open spec fn repeats_id(ms: Seq<MachineConfigModel>, i: int) -> bool {
    exists|j: int| 0 <= j < i && id_of((#[trigger] ms[j]).id) == id_of(ms[i].id)
}

/// The first repeat among the identifiers of the entries from index `i` on; blank ones count not.
pub open spec fn machine_fault_from(ms: Seq<MachineConfigModel>, i: int) -> Option<ConfigErrorModel>
    decreases ms.len() - i,
{
    if i < 0 || i >= ms.len() {
        None
    } else if id_of(ms[i].id).len() > 0 && repeats_id(ms, i) {
        plain("duplicate machine id: "@ + id_of(ms[i].id))
    } else {
        machine_fault_from(ms, i + 1)
    }
}

/// Whether a text that is not blank is the reference `x`, which is in lower case.
pub open spec fn is_reference(value: Seq<char>, x: Seq<char>) -> bool {
    trimmed(value).len() > 0 && lowered(trimmed(value)) == x
}

/// Whether an entry is meant by the reference `x`, which is in lower case.
pub open spec fn is_meant(m: MachineConfigModel, x: Seq<char>) -> bool {
    is_reference(m.id, x) || is_reference(m.alias_name, x) || is_reference(m.host, x)
}

/// Whether some entry is meant by a reference.
pub open spec fn known_machine(ms: Seq<MachineConfigModel>, value: Seq<char>) -> bool {
    exists|i: int| 0 <= i < ms.len() && is_meant(#[trigger] ms[i], lowered(reference_of(value)))
}

/// What is wrong with an excluded path.
pub open spec fn exclude_fault(source_id: Seq<char>, path: Seq<char>) -> Option<ConfigErrorModel> {
    if path.len() == 0 {
        plain("source "@ + source_id + " has empty exclude path"@)
    } else if absolute(path) {
        plain("source "@ + source_id + " exclude path must be relative: "@ + path)
    } else if components(path).contains(".."@) {
        plain(
            "source "@ + source_id + " exclude path must not contain parent components: "@ + path,
        )
    } else {
        None
    }
}

/// What is wrong with the first bad excluded path from index `i` on.
pub open spec fn excludes_fault_from(
    source_id: Seq<char>,
    paths: Seq<Seq<char>>,
    i: int,
) -> Option<ConfigErrorModel>
    decreases paths.len() - i,
{
    if i < 0 || i >= paths.len() {
        None
    } else {
        match exclude_fault(source_id, paths[i]) {
            Some(e) => Some(e),
            None => excludes_fault_from(source_id, paths, i + 1),
        }
    }
}

/// Whether the source is a directory on disk and the destination is something else.
pub open spec fn directory_to_file(
    kinds: Seq<(Seq<char>, bool)>,
    src: Seq<char>,
    dst: Seq<char>,
) -> bool {
    kind_at(kinds, src) == Some(true) && kind_at(kinds, dst) == Some(false)
}

/// What is wrong with the destination at index `i` of a source.
pub open spec fn destination_fault(
    s: SourceGroupConfigModel,
    i: int,
    ms: Seq<MachineConfigModel>,
    kinds: Seq<(Seq<char>, bool)>,
) -> Option<ConfigErrorModel> {
    let d = s.destinations[i];
    if trimmed(d.id).len() == 0 {
        plain("source "@ + s.id + " has destination with empty id"@)
    } else if exists|j: int| 0 <= j < i && (#[trigger] s.destinations[j]).id == d.id {
        plain("source "@ + s.id + " has duplicate destination id "@ + d.id)
    } else if d.path.len() == 0 {
        plain("destination "@ + d.id + " has empty path"@)
    } else if !known_machine(ms, d.machine_id) {
        plain(
            "destination "@ + d.id + " references unknown machine "@ + reference_of(d.machine_id),
        )
    } else if schedule_fault(d.schedule) is Some {
        Some(
            ConfigErrorModel {
                message: "destination "@ + d.id + " has invalid schedule"@,
                cause: Some(schedule_error_text(schedule_fault(d.schedule)->0)),
            },
        )
    } else if directory_to_file(kinds, s.src, d.path) {
        plain(
            "source "@ + s.id + " is a directory, so destination "@ + d.id
                + " must be a directory"@,
        )
    } else if strictly_under(d.path, s.src) {
        plain(
            "destination "@ + d.id + " ("@ + d.path + ") must not be inside source "@ + s.id
                + " ("@ + s.src + ")"@,
        )
    } else {
        None
    }
}

/// What is wrong with the first bad destination from index `i` on.
pub open spec fn destinations_fault_from(
    s: SourceGroupConfigModel,
    i: int,
    ms: Seq<MachineConfigModel>,
    kinds: Seq<(Seq<char>, bool)>,
) -> Option<ConfigErrorModel>
    decreases s.destinations.len() - i,
{
    if i < 0 || i >= s.destinations.len() {
        None
    } else {
        match destination_fault(s, i, ms, kinds) {
            Some(e) => Some(e),
            None => destinations_fault_from(s, i + 1, ms, kinds),
        }
    }
}

/// What is wrong with the source at index `i`.
pub open spec fn source_fault(
    ss: Seq<SourceGroupConfigModel>,
    i: int,
    ms: Seq<MachineConfigModel>,
    kinds: Seq<(Seq<char>, bool)>,
) -> Option<ConfigErrorModel> {
    let s = ss[i];
    if trimmed(s.id).len() == 0 {
        plain("source group id cannot be empty"@)
    } else if exists|j: int| 0 <= j < i && (#[trigger] ss[j]).id == s.id {
        plain("duplicate source group id: "@ + s.id)
    } else if s.src.len() == 0 {
        plain("source "@ + s.id + " has empty src path"@)
    } else if !known_machine(ms, s.machine_id) {
        plain("source "@ + s.id + " references unknown machine "@ + reference_of(s.machine_id))
    } else if trimmed(s.snapshot.prefix).len() == 0 {
        plain("source "@ + s.id + " has empty snapshot prefix"@)
    } else if s.snapshot.reconcile_interval_secs == 0 {
        plain("source "@ + s.id + " has zero reconcile interval"@)
    } else {
        match excludes_fault_from(s.id, s.excludes, 0) {
            Some(e) => Some(e),
            None => destinations_fault_from(s, 0, ms, kinds),
        }
    }
}

/// What is wrong with the first bad source from index `i` on.
pub open spec fn sources_fault_from(
    ss: Seq<SourceGroupConfigModel>,
    i: int,
    ms: Seq<MachineConfigModel>,
    kinds: Seq<(Seq<char>, bool)>,
) -> Option<ConfigErrorModel>
    decreases ss.len() - i,
{
    if i < 0 || i >= ss.len() {
        None
    } else {
        match source_fault(ss, i, ms, kinds) {
            Some(e) => Some(e),
            None => sources_fault_from(ss, i + 1, ms, kinds),
        }
    }
}

/// What is wrong with a configuration: repeated machine identifiers first, then the sources in
/// order.
pub open spec fn config_fault(
    cfg: AppConfigModel,
    env: LocalEnvModel,
    kinds: Seq<(Seq<char>, bool)>,
) -> Option<ConfigErrorModel> {
    match machine_fault_from(cfg.machines, 0) {
        Some(e) => Some(e),
        None => sources_fault_from(
            cfg.source_groups,
            0,
            cleaned_machines(cfg.machines, env),
            kinds,
        ),
    }
}

/// An error made of up to five texts.
fn fail(a: &str, b: &str, c: &str, d: &str, e: &str) -> (r: ConfigError)
    ensures
        r@ == (ConfigErrorModel { message: a@ + b@ + c@ + d@ + e@, cause: None }),
{
    let mut message = a.to_string();
    message.append(b);
    message.append(c);
    message.append(d);
    message.append(e);
    ConfigError { message, cause: None }
}

/// Refuses repeated machine identifiers.
pub fn validate_unique_machine_ids(machines: &Vec<MachineConfig>) -> (r: Result<(), ConfigError>)
    ensures
        fault_in(r) == machine_fault_from(views(machines@), 0),
{
    let ghost ms = views(machines@);
    for i in 0..machines.len()
        invariant
            ms == views(machines@),
            machine_fault_from(ms, 0) == machine_fault_from(ms, i as int),
    {
        let id = clean_id(machines[i].id.as_str());
        proof {
            assert(ms[i as int] == machines@[i as int]@);
        }
        if !is_blank(id.as_str()) {
            for j in 0..i
                invariant
                    i < machines.len(),
                    ms == views(machines@),
                    id@ == id_of(ms[i as int].id),
                    id@.len() > 0,
                    forall|k: int| 0 <= k < j ==> id_of((#[trigger] ms[k]).id) != id@,
                    machine_fault_from(ms, 0) == machine_fault_from(ms, i as int),
            {
                proof {
                    assert(ms[j as int] == machines@[j as int]@);
                }
                if same(clean_id(machines[j].id.as_str()).as_str(), id.as_str()) {
                    let e = fail("duplicate machine id: ", id.as_str(), "", "", "");
                    proof {
                        reveal_strlit("");
                        assert(e@.message =~= "duplicate machine id: "@ + id@);
                    }
                    return Err(e);
                }
            }
        }
    }
    Ok(())
}

/// Whether a text that is not blank is the reference `x`, which is in lower case.
fn is_reference_to(value: &str, x: &str) -> (r: bool)
    ensures
        r == is_reference(value@, x@),
{
    let t = trim(value);
    !is_blank(t.as_str()) && same(to_ascii_lowercase(t.as_str()).as_str(), x)
}

/// Whether some entry is meant by a reference.
pub fn knows_machine(machines: &Vec<MachineConfig>, value: &str) -> (r: bool)
    ensures
        r == known_machine(views(machines@), value@),
{
    let ghost ms = views(machines@);
    let x = to_ascii_lowercase(machine_id_or_local(value).as_str());
    let x = x.as_str();
    for i in 0..machines.len()
        invariant
            ms == views(machines@),
            x@ == lowered(reference_of(value@)),
            forall|j: int| 0 <= j < i ==> !is_meant(#[trigger] ms[j], x@),
    {
        proof {
            assert(ms[i as int] == machines@[i as int]@);
        }
        if is_reference_to(machines[i].id.as_str(), x) || is_reference_to(
            machines[i].alias_name.as_str(),
            x,
        ) || is_reference_to(machines[i].host.as_str(), x) {
            return true;
        }
    }
    false
}

/// Refuses an excluded path that is empty, absolute, or leads upwards.
pub fn validate_exclude_path(source_id: &str, path: &str) -> (r: Result<(), ConfigError>)
    ensures
        fault_in(r) == exclude_fault(source_id@, path@),
{
    proof {
        reveal_strlit("");
    }
    if is_blank(path) {
        let e = fail("source ", source_id, " has empty exclude path", "", "");
        proof {
            assert(e@.message =~= "source "@ + source_id@ + " has empty exclude path"@);
        }
        return Err(e);
    }
    if is_absolute(path) {
        let e = fail("source ", source_id, " exclude path must be relative: ", path, "");
        proof {
            assert(e@.message =~= "source "@ + source_id@ + " exclude path must be relative: "@
                + path@);
        }
        return Err(e);
    }
    let parts = components_of(path);
    if crate::config::clean::holds(&parts, "..") {
        let e = fail(
            "source ",
            source_id,
            " exclude path must not contain parent components: ",
            path,
            "",
        );
        proof {
            assert(e@.message =~= "source "@ + source_id@
                + " exclude path must not contain parent components: "@ + path@);
        }
        return Err(e);
    }
    Ok(())
}

/// Refuses the first bad excluded path.
fn validate_excludes(source_id: &str, paths: &Vec<String>) -> (r: Result<(), ConfigError>)
    ensures
        fault_in(r) == excludes_fault_from(source_id@, views(paths@), 0),
{
    let ghost ps = views(paths@);
    for i in 0..paths.len()
        invariant
            ps == views(paths@),
            excludes_fault_from(source_id@, ps, 0) == excludes_fault_from(
                source_id@,
                ps,
                i as int,
            ),
    {
        proof {
            assert(ps[i as int] == paths@[i as int]@);
        }
        match validate_exclude_path(source_id, paths[i].as_str()) {
            Ok(_) => {},
            Err(e) => {
                return Err(e);
            },
        }
    }
    Ok(())
}

/// Whether the source is a directory on disk and the destination is something else.
fn existing_directory_source_to_file_destination(
    kinds: &Vec<PathKind>,
    src: &str,
    dst: &str,
) -> (r: bool)
    ensures
        r == directory_to_file(views(kinds@), src@, dst@),
{
    match (kind_of(kinds, src), kind_of(kinds, dst)) {
        (Some(a), Some(b)) => a && !b,
        _ => false,
    }
}

/// Whether a destination before index `i` has the same identifier.
fn repeats_destination(ds: &Vec<DestinationConfig>, i: usize) -> (r: bool)
    requires
        i < ds.len(),
    ensures
        r == (exists|j: int|
            0 <= j < i && (#[trigger] views(ds@)[j]).id == views(ds@)[i as int].id),
{
    for j in 0..i
        invariant
            i < ds.len(),
            forall|k: int| 0 <= k < j ==> (#[trigger] views(ds@)[k]).id != views(ds@)[i as int].id,
    {
        if same(ds[j].id.as_str(), ds[i].id.as_str()) {
            proof {
                assert(views(ds@)[j as int].id == views(ds@)[i as int].id);
            }
            return true;
        }
    }
    false
}

/// Refuses a bad destination.
fn validate_destination(
    s: &SourceGroupConfig,
    i: usize,
    machines: &Vec<MachineConfig>,
    kinds: &Vec<PathKind>,
) -> (r: Result<(), ConfigError>)
    requires
        i < s.destinations.len(),
    ensures
        fault_in(r) == destination_fault(s@, i as int, views(machines@), views(kinds@)),
{
    let d = &s.destinations[i];
    proof {
        reveal_strlit("");
        assert(s@.destinations[i as int] == d@);
    }
    if is_blank(trim(d.id.as_str()).as_str()) {
        let e = fail("source ", s.id.as_str(), " has destination with empty id", "", "");
        proof {
            assert(e@.message =~= "source "@ + s@.id + " has destination with empty id"@);
        }
        return Err(e);
    }
    if repeats_destination(&s.destinations, i) {
        let e = fail(
            "source ",
            s.id.as_str(),
            " has duplicate destination id ",
            d.id.as_str(),
            "",
        );
        proof {
            assert(e@.message =~= "source "@ + s@.id + " has duplicate destination id "@ + d@.id);
        }
        return Err(e);
    }
    if is_blank(d.path.as_str()) {
        let e = fail("destination ", d.id.as_str(), " has empty path", "", "");
        proof {
            assert(e@.message =~= "destination "@ + d@.id + " has empty path"@);
        }
        return Err(e);
    }
    if !knows_machine(machines, d.machine_id.as_str()) {
        let m = machine_id_or_local(d.machine_id.as_str());
        let e = fail(
            "destination ",
            d.id.as_str(),
            " references unknown machine ",
            m.as_str(),
            "",
        );
        proof {
            assert(e@.message =~= "destination "@ + d@.id + " references unknown machine "@ + m@);
        }
        return Err(e);
    }
    match validate_schedule(&d.schedule) {
        Ok(_) => {},
        Err(cause) => {
            let e = fail("destination ", d.id.as_str(), " has invalid schedule", "", "");
            proof {
                assert(e@.message =~= "destination "@ + d@.id + " has invalid schedule"@);
            }
            return Err(ConfigError { message: e.message, cause: Some(cause.message()) });
        },
    }
    if existing_directory_source_to_file_destination(kinds, s.src.as_str(), d.path.as_str()) {
        return Err(
            fail(
                "source ",
                s.id.as_str(),
                " is a directory, so destination ",
                d.id.as_str(),
                " must be a directory",
            ),
        );
    }
    if path_has_prefix(d.path.as_str(), s.src.as_str()) {
        let mut e = fail(
            "destination ",
            d.id.as_str(),
            " (",
            d.path.as_str(),
            ") must not be inside source ",
        );
        e.message.append(s.id.as_str());
        e.message.append(" (");
        e.message.append(s.src.as_str());
        e.message.append(")");
        return Err(e);
    }
    Ok(())
}

/// Whether a source before index `i` has the same identifier.
fn repeats_source(ss: &Vec<SourceGroupConfig>, i: usize) -> (r: bool)
    requires
        i < ss.len(),
    ensures
        r == (exists|j: int|
            0 <= j < i && (#[trigger] views(ss@)[j]).id == views(ss@)[i as int].id),
{
    for j in 0..i
        invariant
            i < ss.len(),
            forall|k: int| 0 <= k < j ==> (#[trigger] views(ss@)[k]).id != views(ss@)[i as int].id,
    {
        if same(ss[j].id.as_str(), ss[i].id.as_str()) {
            proof {
                assert(views(ss@)[j as int].id == views(ss@)[i as int].id);
            }
            return true;
        }
    }
    false
}

/// Refuses a bad source.
fn validate_source(
    ss: &Vec<SourceGroupConfig>,
    i: usize,
    machines: &Vec<MachineConfig>,
    kinds: &Vec<PathKind>,
) -> (r: Result<(), ConfigError>)
    requires
        i < ss.len(),
    ensures
        fault_in(r) == source_fault(views(ss@), i as int, views(machines@), views(kinds@)),
{
    let s = &ss[i];
    let id = s.id.as_str();
    proof {
        reveal_strlit("");
        assert(views(ss@)[i as int] == s@);
    }
    if is_blank(trim(id).as_str()) {
        let e = fail("source group id cannot be empty", "", "", "", "");
        proof {
            assert(e@.message =~= "source group id cannot be empty"@);
        }
        return Err(e);
    }
    if repeats_source(ss, i) {
        let e = fail("duplicate source group id: ", id, "", "", "");
        proof {
            assert(e@.message =~= "duplicate source group id: "@ + s@.id);
        }
        return Err(e);
    }
    if is_blank(s.src.as_str()) {
        let e = fail("source ", id, " has empty src path", "", "");
        proof {
            assert(e@.message =~= "source "@ + s@.id + " has empty src path"@);
        }
        return Err(e);
    }
    if !knows_machine(machines, s.machine_id.as_str()) {
        let m = machine_id_or_local(s.machine_id.as_str());
        let e = fail("source ", id, " references unknown machine ", m.as_str(), "");
        proof {
            assert(e@.message =~= "source "@ + s@.id + " references unknown machine "@ + m@);
        }
        return Err(e);
    }
    if is_blank(trim(s.snapshot.prefix.as_str()).as_str()) {
        let e = fail("source ", id, " has empty snapshot prefix", "", "");
        proof {
            assert(e@.message =~= "source "@ + s@.id + " has empty snapshot prefix"@);
        }
        return Err(e);
    }
    if s.snapshot.reconcile_interval_secs == 0 {
        let e = fail("source ", id, " has zero reconcile interval", "", "");
        proof {
            assert(e@.message =~= "source "@ + s@.id + " has zero reconcile interval"@);
        }
        return Err(e);
    }
    match validate_excludes(id, &s.excludes) {
        Ok(_) => {},
        Err(e) => {
            return Err(e);
        },
    }
    let ghost ms = views(machines@);
    let ghost ks = views(kinds@);
    for k in 0..s.destinations.len()
        invariant
            ms == views(machines@),
            ks == views(kinds@),
            destinations_fault_from(s@, 0, ms, ks) == destinations_fault_from(
                s@,
                k as int,
                ms,
                ks,
            ),
            source_fault(views(ss@), i as int, ms, ks) == destinations_fault_from(s@, 0, ms, ks),
    {
        match validate_destination(s, k, machines, kinds) {
            Ok(_) => {},
            Err(e) => {
                return Err(e);
            },
        }
    }
    Ok(())
}

impl AppConfig {
    /// Refuses a configuration that breaks a rule, with the first rule that it breaks. `kinds`
    /// tells which of its paths exist on disk.
    pub fn validate(&self, env: &LocalEnv, kinds: &Vec<PathKind>) -> (r: Result<(), ConfigError>)
        ensures
            fault_in(r) == config_fault(self@, env@, views(kinds@)),
    {
        match validate_unique_machine_ids(&self.machines) {
            Ok(_) => {},
            Err(e) => {
                return Err(e);
            },
        }
        let machines = clean_machines(&self.machines, env);
        let ghost ms = views(machines@);
        let ghost ks = views(kinds@);
        let ghost ss = self@.source_groups;
        for i in 0..self.source_groups.len()
            invariant
                ms == views(machines@),
                ks == views(kinds@),
                ss == views(self.source_groups@),
                config_fault(self@, env@, ks) == sources_fault_from(ss, i as int, ms, ks),
        {
            match validate_source(&self.source_groups, i, &machines, kinds) {
                Ok(_) => {},
                Err(e) => {
                    return Err(e);
                },
            }
        }
        Ok(())
    }
}

/// What holds of every configuration that passes: machine identifiers and source identifiers are
/// unique, and no destination lies inside its source.
pub proof fn valid_config_is_sound(
    cfg: AppConfigModel,
    env: LocalEnvModel,
    kinds: Seq<(Seq<char>, bool)>,
)
    requires
        config_fault(cfg, env, kinds) is None,
    ensures
        forall|i: int, j: int|
            0 <= j < i < cfg.machines.len() && id_of((#[trigger] cfg.machines[i]).id).len() > 0
                ==> id_of((#[trigger] cfg.machines[j]).id) != id_of(cfg.machines[i].id),
        forall|i: int, j: int|
            0 <= j < i < cfg.source_groups.len() ==> (#[trigger] cfg.source_groups[j]).id != (
            #[trigger] cfg.source_groups[i]).id,
        forall|i: int, k: int|
            0 <= i < cfg.source_groups.len() && 0 <= k
                < cfg.source_groups[i].destinations.len() ==> !strictly_under(
                (#[trigger] cfg.source_groups[i].destinations[k]).path,
                cfg.source_groups[i].src,
            ),
{
    let ms = cleaned_machines(cfg.machines, env);
    assert forall|i: int, j: int|
        0 <= j < i < cfg.machines.len() && id_of((#[trigger] cfg.machines[i]).id).len()
            > 0 implies id_of((#[trigger] cfg.machines[j]).id) != id_of(cfg.machines[i].id) by {
        lemma_machine_faults(cfg.machines, 0, i);
    }
    assert forall|i: int, j: int| 0 <= j < i < cfg.source_groups.len() implies (
    #[trigger] cfg.source_groups[j]).id != (#[trigger] cfg.source_groups[i]).id by {
        lemma_source_faults(cfg.source_groups, 0, i, ms, kinds);
    }
    assert forall|i: int, k: int|
        0 <= i < cfg.source_groups.len() && 0 <= k
            < cfg.source_groups[i].destinations.len() implies !strictly_under(
        (#[trigger] cfg.source_groups[i].destinations[k]).path,
        cfg.source_groups[i].src,
    ) by {
        lemma_source_faults(cfg.source_groups, 0, i, ms, kinds);
        lemma_destination_faults(cfg.source_groups[i], 0, k, ms, kinds);
    }
}

proof fn lemma_machine_faults(ms: Seq<MachineConfigModel>, from: int, i: int)
    requires
        0 <= from <= i < ms.len(),
        machine_fault_from(ms, from) is None,
    ensures
        !(id_of(ms[i].id).len() > 0 && repeats_id(ms, i)),
    decreases i - from,
{
    if from < i {
        lemma_machine_faults(ms, from + 1, i);
    }
}

proof fn lemma_source_faults(
    ss: Seq<SourceGroupConfigModel>,
    from: int,
    i: int,
    ms: Seq<MachineConfigModel>,
    kinds: Seq<(Seq<char>, bool)>,
)
    requires
        0 <= from <= i < ss.len(),
        sources_fault_from(ss, from, ms, kinds) is None,
    ensures
        source_fault(ss, i, ms, kinds) is None,
    decreases i - from,
{
    if from < i {
        lemma_source_faults(ss, from + 1, i, ms, kinds);
    }
}

proof fn lemma_destination_faults(
    s: SourceGroupConfigModel,
    from: int,
    k: int,
    ms: Seq<MachineConfigModel>,
    kinds: Seq<(Seq<char>, bool)>,
)
    requires
        0 <= from <= k < s.destinations.len(),
        destinations_fault_from(s, from, ms, kinds) is None,
    ensures
        destination_fault(s, k, ms, kinds) is None,
    decreases k - from,
{
    if from < k {
        lemma_destination_faults(s, from + 1, k, ms, kinds);
    }
}

/// What is wrong with a configuration that is to be stored.
pub open spec fn save_fault(
    cfg: AppConfigModel,
    env: LocalEnvModel,
    kinds: Seq<(Seq<char>, bool)>,
) -> Option<ConfigErrorModel> {
    match machine_fault_from(cfg.machines, 0) {
        Some(e) => Some(e),
        None => config_fault(crate::config::clean::cleaned_config(cfg, env), env, kinds),
    }
}

/// What is stored for a configuration: it is refused if machine identifiers repeat, cleaned, and
/// refused if the cleaned form breaks a rule.
pub fn prepare_config_for_save(
    cfg: &AppConfig,
    env: &LocalEnv,
    kinds: &Vec<PathKind>,
) -> (r: Result<AppConfig, ConfigError>)
    ensures
        (match r {
            Ok(_) => None::<ConfigErrorModel>,
            Err(e) => Some(e@),
        }) == save_fault(cfg@, env@, views(kinds@)),
        r is Ok ==> r->Ok_0@ == crate::config::clean::cleaned_config(cfg@, env@),
{
    match validate_unique_machine_ids(&cfg.machines) {
        Ok(_) => {},
        Err(e) => {
            return Err(e);
        },
    }
    let cleaned = crate::config::clean::clean_config_for_save(cfg, env);
    match cleaned.validate(env, kinds) {
        Ok(_) => Ok(cleaned),
        Err(e) => Err(e),
    }
}

/// What a configuration that was read gives: itself, or what is wrong with it.
pub fn load_config(cfg: AppConfig, env: &LocalEnv, kinds: &Vec<PathKind>) -> (r: Result<
    AppConfig,
    ConfigError,
>)
    ensures
        (match r {
            Ok(_) => None::<ConfigErrorModel>,
            Err(e) => Some(e@),
        }) == config_fault(cfg@, env@, views(kinds@)),
        r is Ok ==> r->Ok_0 == cfg,
{
    match cfg.validate(env, kinds) {
        Ok(_) => Ok(cfg),
        Err(e) => Err(e),
    }
}

/// The configuration that is worked with: the stored one, or, where none is stored, a new one that
/// is to be stored. Gives whether it is to be stored.
pub fn load_or_create_config(
    stored: Option<AppConfig>,
    env: &LocalEnv,
    kinds: &Vec<PathKind>,
) -> (r: Result<(AppConfig, bool), ConfigError>)
    ensures
        (match r {
            Ok(_) => None::<ConfigErrorModel>,
            Err(e) => Some(e@),
        }) == (match stored {
            Some(cfg) => config_fault(cfg@, env@, views(kinds@)),
            None => save_fault(initial_config(env@), env@, views(kinds@)),
        }),
        r is Ok ==> (r->Ok_0.0@, r->Ok_0.1) == (match stored {
            Some(cfg) => (cfg@, false),
            None => (crate::config::clean::cleaned_config(initial_config(env@), env@), true),
        }),
{
    match stored {
        Some(cfg) => match load_config(cfg, env, kinds) {
            Ok(cfg) => Ok((cfg, false)),
            Err(e) => Err(e),
        },
        None => match prepare_config_for_save(&AppConfig::initial(env), env, kinds) {
            Ok(cfg) => Ok((cfg, true)),
            Err(e) => Err(e),
        },
    }
}

} // verus!
