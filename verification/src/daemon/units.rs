//! Service units, and how the daemon is brought to another machine.

use crate::text::decimal;
use crate::text::{decimal_text, views};
use vstd::prelude::*;

verus! {

/// The unit of the daemon.
pub open spec fn daemon_unit(dir: Seq<char>) -> Seq<char> {
    "[Unit]\nDescription=auto_sync daemon\nAfter=local-fs.target network-online.target\nWants=network-online.target\n\n[Service]\nType=simple\nWorkingDirectory="@
        + dir + "\nExecStart="@ + dir + "/bin/auto_syncd --config "@ + dir
        + "/conf/auto_sync.toml\nRestart=always\nRestartSec=5\nUser=root\nGroup=root\nCapabilityBoundingSet=CAP_SYS_ADMIN CAP_DAC_READ_SEARCH\nAmbientCapabilities=CAP_SYS_ADMIN CAP_DAC_READ_SEARCH\nNoNewPrivileges=false\n\n[Install]\nWantedBy=multi-user.target\n"@
}

/// The unit of the web interface.
pub open spec fn web_unit(dir: Seq<char>) -> Seq<char> {
    "[Unit]\nDescription=auto_sync Web UI\nAfter=network-online.target auto_sync.service\nWants=network-online.target\n\n[Service]\nType=simple\nWorkingDirectory="@
        + dir + "\nExecStart="@ + dir + "/bin/auto_sync_web --config "@ + dir
        + "/conf/auto_sync.toml\nRestart=always\nRestartSec=5\nUser=root\nGroup=root\n\n[Install]\nWantedBy=multi-user.target\n"@
}

/// The unit of the daemon.
pub fn systemd_unit(install_dir: &str) -> (r: String)
    ensures
        r@ == daemon_unit(install_dir@),
{
    let mut r =
        "[Unit]\nDescription=auto_sync daemon\nAfter=local-fs.target network-online.target\nWants=network-online.target\n\n[Service]\nType=simple\nWorkingDirectory=".to_string();
    r.append(install_dir);
    r.append("\nExecStart=");
    r.append(install_dir);
    r.append("/bin/auto_syncd --config ");
    r.append(install_dir);
    r.append(
        "/conf/auto_sync.toml\nRestart=always\nRestartSec=5\nUser=root\nGroup=root\nCapabilityBoundingSet=CAP_SYS_ADMIN CAP_DAC_READ_SEARCH\nAmbientCapabilities=CAP_SYS_ADMIN CAP_DAC_READ_SEARCH\nNoNewPrivileges=false\n\n[Install]\nWantedBy=multi-user.target\n",
    );
    r
}

/// The unit of the web interface.
pub fn web_systemd_unit(install_dir: &str) -> (r: String)
    ensures
        r@ == web_unit(install_dir@),
{
    let mut r =
        "[Unit]\nDescription=auto_sync Web UI\nAfter=network-online.target auto_sync.service\nWants=network-online.target\n\n[Service]\nType=simple\nWorkingDirectory=".to_string();
    r.append(install_dir);
    r.append("\nExecStart=");
    r.append(install_dir);
    r.append("/bin/auto_sync_web --config ");
    r.append(install_dir);
    r.append(
        "/conf/auto_sync.toml\nRestart=always\nRestartSec=5\nUser=root\nGroup=root\n\n[Install]\nWantedBy=multi-user.target\n",
    );
    r
}

/// A step of bringing the daemon to another machine.
#[derive(Debug)]
pub enum DeployStep {
    /// A program is run with arguments.
    Run(String, Vec<String>),
    /// A file has to be there.
    Need(String),
    /// A file is written.
    Write(String, String),
}

/// The model of a `DeployStep`.
pub enum DeployStepModel {
    Run(Seq<char>, Seq<Seq<char>>),
    Need(Seq<char>),
    Write(Seq<char>, Seq<char>),
}

impl View for DeployStep {
    type V = DeployStepModel;

    open spec fn view(&self) -> DeployStepModel {
        match self {
            DeployStep::Run(program, args) => DeployStepModel::Run(program@, views(args@)),
            DeployStep::Need(path) => DeployStepModel::Need(path@),
            DeployStep::Write(path, text) => DeployStepModel::Write(path@, text@),
        }
    }
}

/// A command that is run on the other machine.
pub open spec fn remote_step(port: u16, target: Seq<char>, command: Seq<char>) -> DeployStepModel {
    DeployStepModel::Run("ssh"@, seq!["-p"@, decimal_text(port as nat), target, command])
}

/// A file that is copied to the other machine.
pub open spec fn copy_step(port: u16, from: Seq<char>, to: Seq<char>) -> DeployStepModel {
    DeployStepModel::Run("scp"@, seq!["-P"@, decimal_text(port as nat), from, to])
}

/// The steps that bring one program over.
pub open spec fn program_steps(
    port: u16,
    target: Seq<char>,
    dir: Seq<char>,
    name: Seq<char>,
) -> Seq<DeployStepModel> {
    seq![
        DeployStepModel::Need("bin/"@ + name),
        copy_step(port, "bin/"@ + name, target + ":"@ + dir + "/bin/"@ + name),
    ]
}

/// The steps that bring the daemon to another machine: its directories, its programs, the
/// configuration, the units, and that they are started.
pub open spec fn deploy_steps(
    config_path: Seq<char>,
    host: Seq<char>,
    port: u16,
    user: Seq<char>,
    dir: Seq<char>,
) -> Seq<DeployStepModel> {
    let target = user + "@"@ + host;
    seq![
        remote_step(
            port,
            target,
            "mkdir -p "@ + dir + "/bin "@ + dir + "/conf "@ + dir + "/logs "@ + dir + "/conf/state"@,
        ),
    ] + program_steps(port, target, dir, "auto_syncd"@) + program_steps(
        port,
        target,
        dir,
        "auto_syncctl"@,
    ) + program_steps(port, target, dir, "auto_sync_web"@) + seq![
        copy_step(port, config_path, target + ":"@ + dir + "/conf/auto_sync.toml"@),
        DeployStepModel::Write("conf/auto_sync.service"@, daemon_unit(dir)),
        copy_step(
            port,
            "conf/auto_sync.service"@,
            target + ":/etc/systemd/system/auto_sync.service"@,
        ),
        DeployStepModel::Write("conf/auto_sync_web.service"@, web_unit(dir)),
        copy_step(
            port,
            "conf/auto_sync_web.service"@,
            target + ":/etc/systemd/system/auto_sync_web.service"@,
        ),
        remote_step(
            port,
            target,
            "systemctl daemon-reload && systemctl enable --now auto_sync.service auto_sync_web.service && systemctl status --no-pager auto_sync.service auto_sync_web.service"@,
        ),
    ]
}

/// A step that runs a program with a port option and two more arguments.
fn program_run(program: &str, flag: &str, port: u16, third: String, fourth: String) -> (r: DeployStep)
    ensures
        r@ == DeployStepModel::Run(
            program@,
            seq![flag@, decimal_text(port as nat), third@, fourth@],
        ),
{
    let mut args: Vec<String> = Vec::new();
    let ghost t = third@;
    let ghost f = fourth@;
    args.push(flag.to_string());
    args.push(decimal(port as u64));
    args.push(third);
    args.push(fourth);
    proof {
        assert(views(args@) =~= seq![flag@, decimal_text(port as nat), t, f]);
    }
    DeployStep::Run(program.to_string(), args)
}

/// Two texts, one behind the other.
fn concat(a: &str, b: &str) -> (r: String)
    ensures
        r@ == a@ + b@,
{
    let mut r = a.to_string();
    r.append(b);
    r
}

/// Adds the steps that bring one program over.
fn push_program(steps: &mut Vec<DeployStep>, port: u16, target: &str, dir: &str, name: &str)
    ensures
        views(final(steps)@) == views(old(steps)@) + program_steps(port, target@, dir@, name@),
{
    let ghost was = views(steps@);
    let local = concat("bin/", name);
    let mut to = concat(target, ":");
    to.append(dir);
    to.append("/bin/");
    to.append(name);
    steps.push(DeployStep::Need(local.clone()));
    steps.push(program_run("scp", "-P", port, local, to));
    proof {
        assert(views(steps@) =~= was + program_steps(port, target@, dir@, name@));
    }
}

/// The steps that bring the daemon to another machine.
pub fn deploy_nas(config_path: &str, host: &str, port: u16, user: &str, install_dir: &str) -> (steps:
    Vec<DeployStep>)
    ensures
        views(steps@) == deploy_steps(config_path@, host@, port, user@, install_dir@),
{
    let mut target = concat(user, "@");
    target.append(host);
    let mut mkdir = concat("mkdir -p ", install_dir);
    mkdir.append("/bin ");
    mkdir.append(install_dir);
    mkdir.append("/conf ");
    mkdir.append(install_dir);
    mkdir.append("/logs ");
    mkdir.append(install_dir);
    mkdir.append("/conf/state");
    let ghost tv = target@;
    let ghost dir = install_dir@;
    let mut steps: Vec<DeployStep> = Vec::new();
    steps.push(program_run("ssh", "-p", port, target.clone(), mkdir));
    proof {
        assert(views(steps@) =~= seq![
            remote_step(
                port,
                tv,
                "mkdir -p "@ + dir + "/bin "@ + dir + "/conf "@ + dir + "/logs "@ + dir
                    + "/conf/state"@,
            ),
        ]);
    }
    push_program(&mut steps, port, target.as_str(), install_dir, "auto_syncd");
    push_program(&mut steps, port, target.as_str(), install_dir, "auto_syncctl");
    push_program(&mut steps, port, target.as_str(), install_dir, "auto_sync_web");
    let ghost programs = views(steps@);
    let mut config_to = concat(target.as_str(), ":");
    config_to.append(install_dir);
    config_to.append("/conf/auto_sync.toml");
    steps.push(program_run("scp", "-P", port, config_path.to_string(), config_to));
    steps.push(
        DeployStep::Write("conf/auto_sync.service".to_string(), systemd_unit(install_dir)),
    );
    steps.push(
        program_run(
            "scp",
            "-P",
            port,
            "conf/auto_sync.service".to_string(),
            concat(target.as_str(), ":/etc/systemd/system/auto_sync.service"),
        ),
    );
    steps.push(
        DeployStep::Write("conf/auto_sync_web.service".to_string(), web_systemd_unit(install_dir)),
    );
    steps.push(
        program_run(
            "scp",
            "-P",
            port,
            "conf/auto_sync_web.service".to_string(),
            concat(target.as_str(), ":/etc/systemd/system/auto_sync_web.service"),
        ),
    );
    steps.push(
        program_run(
            "ssh",
            "-p",
            port,
            target,
            "systemctl daemon-reload && systemctl enable --now auto_sync.service auto_sync_web.service && systemctl status --no-pager auto_sync.service auto_sync_web.service".to_string(),
        ),
    );
    proof {
        assert(views(steps@) =~= deploy_steps(config_path@, host@, port, user@, dir));
    }
    steps
}

/// Whether a step of a deployment reaches the machine at a port: as the target of `ssh`, or as that
/// of the copy that `scp` makes.
pub open spec fn reaches(step: DeployStepModel, port: u16, target: Seq<char>) -> bool {
    match step {
        DeployStepModel::Run(program, args) => args.len() == 4 && args[1] == decimal_text(
            port as nat,
        ) && ((program == "ssh"@ && args[0] == "-p"@ && args[2] == target) || (program == "scp"@
            && args[0] == "-P"@ && (target + ":"@).is_prefix_of(args[3]))),
        _ => true,
    }
}

/// Every step of a deployment reaches the machine that is deployed to.
pub proof fn every_step_reaches_the_machine(
    config_path: Seq<char>,
    host: Seq<char>,
    port: u16,
    user: Seq<char>,
    dir: Seq<char>,
    i: int,
)
    requires
        0 <= i < deploy_steps(config_path, host, port, user, dir).len(),
    ensures
        reaches(deploy_steps(config_path, host, port, user, dir)[i], port, user + "@"@ + host),
{
    let target = user + "@"@ + host;
    let steps = deploy_steps(config_path, host, port, user, dir);
    assert(steps.len() == 13);
    lemma_program_reaches(port, target, dir, "auto_syncd"@);
    lemma_program_reaches(port, target, dir, "auto_syncctl"@);
    lemma_program_reaches(port, target, dir, "auto_sync_web"@);
    let conf = target + ":"@ + dir + "/conf/auto_sync.toml"@;
    assert(conf.subrange(0, (target + ":"@).len() as int) =~= target + ":"@);
    reveal_strlit(":");
    reveal_strlit(":/etc/systemd/system/auto_sync.service");
    reveal_strlit(":/etc/systemd/system/auto_sync_web.service");
    let daemon = target + ":/etc/systemd/system/auto_sync.service"@;
    assert(daemon.subrange(0, (target + ":"@).len() as int) =~= target + ":"@);
    let web = target + ":/etc/systemd/system/auto_sync_web.service"@;
    assert(web.subrange(0, (target + ":"@).len() as int) =~= target + ":"@);
}

proof fn lemma_program_reaches(port: u16, target: Seq<char>, dir: Seq<char>, name: Seq<char>)
    ensures
        reaches(program_steps(port, target, dir, name)[0], port, target),
        reaches(program_steps(port, target, dir, name)[1], port, target),
{
    let all = target + ":"@ + dir + "/bin/"@ + name;
    assert(all.subrange(0, (target + ":"@).len() as int) =~= target + ":"@);
}

} // verus!
