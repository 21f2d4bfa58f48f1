//! What is known and shown of machines.

use crate::text::views;
use vstd::prelude::*;

verus! {

/// What a machine says of itself.
#[derive(Debug)]
pub struct MachineHealth {
    pub id: String,
    pub alias_name: String,
    pub name: String,
    pub host: String,
    pub port: u16,
    pub ssh_user: String,
    pub ssh_port: u16,
    pub os: String,
    pub install_dir: String,
    pub version: String,
}

/// The model of a `MachineHealth`.
pub struct MachineHealthModel {
    pub id: Seq<char>,
    pub alias_name: Seq<char>,
    pub name: Seq<char>,
    pub host: Seq<char>,
    pub port: u16,
    pub ssh_user: Seq<char>,
    pub ssh_port: u16,
    pub os: Seq<char>,
    pub install_dir: Seq<char>,
    pub version: Seq<char>,
}

impl View for MachineHealth {
    type V = MachineHealthModel;

    open spec fn view(&self) -> MachineHealthModel {
        MachineHealthModel {
            id: self.id@,
            alias_name: self.alias_name@,
            name: self.name@,
            host: self.host@,
            port: self.port,
            ssh_user: self.ssh_user@,
            ssh_port: self.ssh_port,
            os: self.os@,
            install_dir: self.install_dir@,
            version: self.version@,
        }
    }
}

impl Clone for MachineHealth {
    fn clone(&self) -> (r: MachineHealth)
        ensures
            r@ == self@,
    {
        MachineHealth {
            id: self.id.clone(),
            alias_name: self.alias_name.clone(),
            name: self.name.clone(),
            host: self.host.clone(),
            port: self.port,
            ssh_user: self.ssh_user.clone(),
            ssh_port: self.ssh_port,
            os: self.os.clone(),
            install_dir: self.install_dir.clone(),
            version: self.version.clone(),
        }
    }
}

/// A machine as it is shown.
#[derive(Debug)]
pub struct MachineView {
    pub id: String,
    pub alias_name: String,
    pub name: String,
    pub host: String,
    pub port: u16,
    pub ssh_user: String,
    pub ssh_port: u16,
    pub os: String,
    pub install_dir: String,
    pub enabled: bool,
    pub manual: bool,
    pub online: bool,
    pub discovered: bool,
}

/// The model of a `MachineView`.
pub struct MachineViewModel {
    pub id: Seq<char>,
    pub alias_name: Seq<char>,
    pub name: Seq<char>,
    pub host: Seq<char>,
    pub port: u16,
    pub ssh_user: Seq<char>,
    pub ssh_port: u16,
    pub os: Seq<char>,
    pub install_dir: Seq<char>,
    pub enabled: bool,
    pub manual: bool,
    pub online: bool,
    pub discovered: bool,
}

impl View for MachineView {
    type V = MachineViewModel;

    open spec fn view(&self) -> MachineViewModel {
        MachineViewModel {
            id: self.id@,
            alias_name: self.alias_name@,
            name: self.name@,
            host: self.host@,
            port: self.port,
            ssh_user: self.ssh_user@,
            ssh_port: self.ssh_port,
            os: self.os@,
            install_dir: self.install_dir@,
            enabled: self.enabled,
            manual: self.manual,
            online: self.online,
            discovered: self.discovered,
        }
    }
}

impl Clone for MachineView {
    fn clone(&self) -> (r: MachineView)
        ensures
            r@ == self@,
    {
        MachineView {
            id: self.id.clone(),
            alias_name: self.alias_name.clone(),
            name: self.name.clone(),
            host: self.host.clone(),
            port: self.port,
            ssh_user: self.ssh_user.clone(),
            ssh_port: self.ssh_port,
            os: self.os.clone(),
            install_dir: self.install_dir.clone(),
            enabled: self.enabled,
            manual: self.manual,
            online: self.online,
            discovered: self.discovered,
        }
    }
}

/// All machines as they are shown.
#[derive(Debug)]
pub struct MachineStatus {
    pub online: usize,
    pub total: usize,
    pub machines: Vec<MachineView>,
}

/// The model of a `MachineStatus`.
pub struct MachineStatusModel {
    pub online: nat,
    pub total: nat,
    pub machines: Seq<MachineViewModel>,
}

impl View for MachineStatus {
    type V = MachineStatusModel;

    open spec fn view(&self) -> MachineStatusModel {
        MachineStatusModel {
            online: self.online as nat,
            total: self.total as nat,
            machines: views(self.machines@),
        }
    }
}

/// An address and a port.
#[derive(Debug)]
pub struct Endpoint {
    pub host: String,
    pub port: u16,
}

impl View for Endpoint {
    type V = (Seq<char>, u16);

    open spec fn view(&self) -> (Seq<char>, u16) {
        (self.host@, self.port)
    }
}

/// What was found out about this machine and its peers.
#[derive(Debug)]
pub struct Probes {
    /// The identifiers of the machines that answered.
    pub answered: Vec<String>,
    /// Where an SSH server answered on this machine.
    pub ssh_banners: Vec<Endpoint>,
    /// The user that this process runs as; empty where that is unknown.
    pub process_user: String,
}

/// The model of `Probes`.
pub struct ProbesModel {
    pub answered: Seq<Seq<char>>,
    pub ssh_banners: Seq<(Seq<char>, u16)>,
    pub process_user: Seq<char>,
}

impl View for Probes {
    type V = ProbesModel;

    open spec fn view(&self) -> ProbesModel {
        ProbesModel {
            answered: views(self.answered@),
            ssh_banners: views(self.ssh_banners@),
            process_user: self.process_user@,
        }
    }
}

impl Clone for MachineStatus {
    fn clone(&self) -> (r: MachineStatus)
        ensures
            r@ == self@,
    {
        let mut machines: Vec<MachineView> = Vec::new();
        for i in 0..self.machines.len()
            invariant
                machines.len() == i,
                forall|j: int| 0 <= j < i ==> (#[trigger] machines@[j])@ == self.machines@[j]@,
        {
            let m = self.machines[i].clone();
            machines.push(m);
        }
        proof {
            assert(views(machines@) =~= views(self.machines@));
        }
        MachineStatus { online: self.online, total: self.total, machines }
    }
}

} // verus!
