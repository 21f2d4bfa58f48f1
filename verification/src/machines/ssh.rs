//! The SSH access that this machine tells its peers of.

use crate::config::types::{MachineConfig, MachineConfigModel};
use crate::machines::types::{Endpoint, Probes, ProbesModel};
use crate::seqs::{first_item, lemma_first_where_is};
use crate::text::{
    eq_ignore_ascii_case, is_blank, lowered, same, same_ignoring_case, trim, trimmed, views,
};
use vstd::prelude::*;

verus! {

/// The SSH port, where zero stands for the standard one.
pub open spec fn ssh_port_of(port: u16) -> u16 {
    if port == 0 {
        22
    } else {
        port
    }
}

/// The SSH port, where zero stands for the standard one.
pub fn normalized_ssh_port(port: u16) -> (r: u16)
    ensures
        r == ssh_port_of(port),
{
    if port == 0 {
        22
    } else {
        port
    }
}

/// Whether the first four bytes that a port sends are those with which an SSH server starts: `SSH-`.
pub fn is_ssh_banner(bytes: &Vec<u8>) -> (r: bool)
    ensures
        r == (bytes@ == seq![83u8, 83u8, 72u8, 45u8]),
{
    let r = bytes.len() == 4 && bytes[0] == 83 && bytes[1] == 83 && bytes[2] == 72 && bytes[3]
        == 45;
    proof {
        if r {
            assert(bytes@ =~= seq![83u8, 83u8, 72u8, 45u8]);
        }
    }
    r
}

/// Whether an entry says anything about SSH.
pub open spec fn says_ssh(m: MachineConfigModel) -> bool {
    trimmed(m.ssh_user).len() > 0 || ssh_port_of(m.ssh_port) != 22
}

/// The test for entries that describe this machine's SSH access under another name.
pub open spec fn twin(local: MachineConfigModel, port: u16) -> spec_fn(MachineConfigModel) -> bool {
    |m: MachineConfigModel|
        m.id != "local"@ && same_ignoring_case(trimmed(m.host), trimmed(local.host)) && m.port
            == port && says_ssh(m)
}

/// A list with one more port, unless it is zero or there already.
pub open spec fn with_port(ports: Seq<u16>, port: u16) -> Seq<u16> {
    if port == 0 || ports.contains(port) {
        ports
    } else {
        ports.push(port)
    }
}

/// A list with a port that is not the standard one.
pub open spec fn with_odd_port(ports: Seq<u16>, port: u16) -> Seq<u16> {
    if ssh_port_of(port) != 22 {
        with_port(ports, ssh_port_of(port))
    } else {
        ports
    }
}

/// The ports of the entries that are not the standard one, after those given.
pub open spec fn entry_ports(ports: Seq<u16>, ms: Seq<MachineConfigModel>) -> Seq<u16>
    decreases ms.len(),
{
    if ms.len() == 0 {
        ports
    } else {
        with_odd_port(entry_ports(ports, ms.drop_last()), ms.last().ssh_port)
    }
}

/// The ports on which an SSH server of this machine is looked for, in order.
pub open spec fn probe_ports(ms: Seq<MachineConfigModel>, local: MachineConfigModel) -> Seq<u16> {
    with_port(
        with_port(entry_ports(with_odd_port(Seq::empty(), local.ssh_port), ms), 10022),
        22,
    )
}

/// The addresses at which an SSH server of this machine is looked for.
pub open spec fn probe_hosts(local: MachineConfigModel) -> Seq<Seq<char>> {
    let host = trimmed(local.host);
    if host.len() == 0 || same_ignoring_case("127.0.0.1"@, host) {
        seq!["127.0.0.1"@]
    } else {
        seq!["127.0.0.1"@, host]
    }
}

/// Whether an SSH server answered on a port at one of the addresses.
pub open spec fn answers_on(
    hosts: Seq<Seq<char>>,
    port: u16,
    banners: Seq<(Seq<char>, u16)>,
) -> bool {
    exists|i: int| 0 <= i < hosts.len() && banners.contains((#[trigger] hosts[i], port))
}

/// The test for ports that an SSH server answered on.
pub open spec fn answered_port(hosts: Seq<Seq<char>>, banners: Seq<(Seq<char>, u16)>) -> spec_fn(
    u16,
) -> bool {
    |port: u16| port != 0 && answers_on(hosts, port, banners)
}

/// The test for addresses that mean this machine.
pub open spec fn localish(host: Seq<char>, local_host: Seq<char>) -> bool {
    let h = trimmed(host);
    same_ignoring_case(h, "localhost"@) || h == "127.0.0.1"@ || h == "::1"@ || same_ignoring_case(
        h,
        trimmed(local_host),
    )
}

/// The test for entries of this machine that name a user for a port.
pub open spec fn names_user_for(local: MachineConfigModel, ssh_port: u16) -> spec_fn(
    MachineConfigModel,
) -> bool {
    |m: MachineConfigModel|
        m.id != "local"@ && localish(m.host, local.host) && (ssh_port_of(m.ssh_port) == ssh_port
            || m.ssh_port == 0) && trimmed(m.ssh_user).len() > 0
}

/// The test for entries of this machine that name a user.
pub open spec fn names_user(local: MachineConfigModel) -> spec_fn(MachineConfigModel) -> bool {
    |m: MachineConfigModel|
        m.id != "local"@ && localish(m.host, local.host) && trimmed(m.ssh_user).len() > 0
}

/// The user that peers are told for a port: that of this machine's entry, else that of another
/// entry for it, else the one that this process runs as.
pub open spec fn told_user(
    ms: Seq<MachineConfigModel>,
    local: MachineConfigModel,
    ssh_port: u16,
    process_user: Seq<char>,
) -> Seq<char> {
    if trimmed(local.ssh_user).len() > 0 {
        trimmed(local.ssh_user)
    } else {
        match first_item(ms, names_user_for(local, ssh_port)) {
            Some(m) => trimmed(m.ssh_user),
            None => match first_item(ms, names_user(local)) {
                Some(m) => trimmed(m.ssh_user),
                None => process_user,
            },
        }
    }
}

/// The SSH user and port that peers are told: those of another entry for this machine, else those
/// of the server that answered, else those of this machine's entry.
pub open spec fn told_ssh(
    ms: Seq<MachineConfigModel>,
    local: MachineConfigModel,
    port: u16,
    probes: ProbesModel,
) -> (Seq<char>, u16) {
    match first_item(ms, twin(local, port)) {
        Some(m) => (trimmed(m.ssh_user), ssh_port_of(m.ssh_port)),
        None => match first_item(
            probe_ports(ms, local),
            answered_port(probe_hosts(local), probes.ssh_banners),
        ) {
            Some(p) => (told_user(ms, local, p, probes.process_user), p),
            None => (trimmed(local.ssh_user), ssh_port_of(local.ssh_port)),
        },
    }
}

/// Whether a list holds a port.
fn holds_port(ports: &Vec<u16>, port: u16) -> (r: bool)
    ensures
        r == ports@.contains(port),
{
    for i in 0..ports.len()
        invariant
            forall|j: int| 0 <= j < i ==> ports@[j] != port,
    {
        if ports[i] == port {
            return true;
        }
    }
    false
}

/// Adds a port, unless it is zero or there already.
fn push_unique_port(ports: &mut Vec<u16>, port: u16)
    ensures
        final(ports)@ == with_port(old(ports)@, port),
{
    if port != 0 && !holds_port(ports, port) {
        ports.push(port);
    }
}

/// The ports on which an SSH server of this machine is looked for, in order.
pub fn local_ssh_probe_ports(machines: &Vec<MachineConfig>, local: &MachineConfig) -> (out: Vec<u16>)
    ensures
        out@ == probe_ports(views(machines@), local@),
{
    let mut out: Vec<u16> = Vec::new();
    proof {
        assert(out@ =~= Seq::<u16>::empty());
    }
    let own: u16 = normalized_ssh_port(local.ssh_port);
    if own != 22 {
        push_unique_port(&mut out, own);
    }
    let ghost first = out@;
    let ghost ms = views(machines@);
    for i in 0..machines.len()
        invariant
            ms == views(machines@),
            out@ == entry_ports(first, ms.take(i as int)),
    {
        proof {
            assert(ms.take(i + 1).drop_last() =~= ms.take(i as int));
            assert(ms.take(i + 1).last() == machines@[i as int]@);
        }
        let port: u16 = normalized_ssh_port(machines[i].ssh_port);
        if port != 22 {
            push_unique_port(&mut out, port);
        }
    }
    proof {
        assert(ms.take(ms.len() as int) =~= ms);
    }
    push_unique_port(&mut out, 10022);
    push_unique_port(&mut out, 22);
    out
}

/// The addresses at which an SSH server of this machine is looked for.
pub fn local_ssh_probe_hosts(local: &MachineConfig) -> (out: Vec<String>)
    ensures
        views(out@) == probe_hosts(local@),
{
    let mut out: Vec<String> = Vec::new();
    out.push("127.0.0.1".to_string());
    let host = trim(local.host.as_str());
    if !is_blank(host.as_str()) && !eq_ignore_ascii_case("127.0.0.1", host.as_str()) {
        let ghost hv = host@;
        out.push(host);
        proof {
            assert(views(out@) =~= seq!["127.0.0.1"@, hv]);
        }
    } else {
        proof {
            assert(views(out@) =~= seq!["127.0.0.1"@]);
        }
    }
    out
}

/// Whether an SSH server answered at an endpoint.
fn answered_at(banners: &Vec<Endpoint>, host: &str, port: u16) -> (r: bool)
    ensures
        r == views(banners@).contains((host@, port)),
{
    for i in 0..banners.len()
        invariant
            forall|j: int| 0 <= j < i ==> views(banners@)[j] != (host@, port),
    {
        if banners[i].port == port && same(banners[i].host.as_str(), host) {
            proof {
                assert(views(banners@)[i as int] == (host@, port));
            }
            return true;
        }
    }
    false
}

/// The first port that an SSH server answered on at one of the addresses.
pub fn detect_ssh_port(hosts: &Vec<String>, ports: &Vec<u16>, banners: &Vec<Endpoint>) -> (r: Option<
    u16,
>)
    ensures
        r == first_item(ports@, answered_port(views(hosts@), views(banners@))),
{
    let ghost hs = views(hosts@);
    let ghost bs = views(banners@);
    let ghost test = answered_port(hs, bs);
    for i in 0..ports.len()
        invariant
            hs == views(hosts@),
            bs == views(banners@),
            test == answered_port(hs, bs),
            forall|j: int| 0 <= j < i ==> !test(#[trigger] ports@[j]),
    {
        let port: u16 = ports[i];
        let mut found: bool = false;
        for k in 0..hosts.len()
            invariant
                hs == views(hosts@),
                bs == views(banners@),
                found == (exists|j: int| 0 <= j < k && bs.contains((#[trigger] hs[j], port))),
        {
            proof {
                assert(hs[k as int] == hosts@[k as int]@);
            }
            if answered_at(banners, hosts[k].as_str(), port) {
                found = true;
            }
        }
        if port != 0 && found {
            proof {
                lemma_first_where_is(ports@, test, i as int);
            }
            return Some(port);
        }
    }
    proof {
        lemma_first_where_is(ports@, test, ports@.len() as int);
    }
    None
}

/// Whether an address means this machine.
fn is_localish_host(host: &str, local_host: &str) -> (r: bool)
    ensures
        r == localish(host@, local_host@),
{
    let h = trim(host);
    let h = h.as_str();
    eq_ignore_ascii_case(h, "localhost") || same(h, "127.0.0.1") || same(h, "::1")
        || eq_ignore_ascii_case(h, trim(local_host).as_str())
}

/// The user that peers are told for a port.
fn advertised_ssh_user(
    machines: &Vec<MachineConfig>,
    local: &MachineConfig,
    ssh_port: u16,
    process_user: &str,
) -> (r: String)
    ensures
        r@ == told_user(views(machines@), local@, ssh_port, process_user@),
{
    let own = trim(local.ssh_user.as_str());
    if !is_blank(own.as_str()) {
        return own;
    }
    let ghost ms = views(machines@);
    let ghost exact = names_user_for(local@, ssh_port);
    let ghost loose = names_user(local@);
    let mut i: usize = 0;
    while i < machines.len()
        invariant
            i <= machines.len(),
            ms == views(machines@),
            exact == names_user_for(local@, ssh_port),
            trimmed(local@.ssh_user).len() == 0,
            forall|j: int| 0 <= j < i ==> !exact(#[trigger] ms[j]),
        decreases machines.len() - i,
    {
        let m = &machines[i];
        proof {
            assert(ms[i as int] == m@);
        }
        if !same(m.id.as_str(), "local") && is_localish_host(m.host.as_str(), local.host.as_str())
            && (normalized_ssh_port(m.ssh_port) == ssh_port || m.ssh_port == 0) && !is_blank(
            trim(m.ssh_user.as_str()).as_str(),
        ) {
            proof {
                lemma_first_where_is(ms, exact, i as int);
            }
            return trim(m.ssh_user.as_str());
        }
        i = i + 1;
    }
    proof {
        lemma_first_where_is(ms, exact, ms.len() as int);
    }
    let mut k: usize = 0;
    while k < machines.len()
        invariant
            k <= machines.len(),
            ms == views(machines@),
            loose == names_user(local@),
            trimmed(local@.ssh_user).len() == 0,
            first_item(ms, names_user_for(local@, ssh_port)) is None,
            forall|j: int| 0 <= j < k ==> !loose(#[trigger] ms[j]),
        decreases machines.len() - k,
    {
        let m = &machines[k];
        proof {
            assert(ms[k as int] == m@);
        }
        if !same(m.id.as_str(), "local") && is_localish_host(m.host.as_str(), local.host.as_str())
            && !is_blank(trim(m.ssh_user.as_str()).as_str()) {
            proof {
                lemma_first_where_is(ms, loose, k as int);
            }
            return trim(m.ssh_user.as_str());
        }
        k = k + 1;
    }
    proof {
        lemma_first_where_is(ms, loose, ms.len() as int);
    }
    process_user.to_string()
}

/// The SSH user and port that peers are told.
pub fn advertised_ssh_config(
    machines: &Vec<MachineConfig>,
    local: &MachineConfig,
    port: u16,
    probes: &Probes,
) -> (r: (String, u16))
    ensures
        (r.0@, r.1) == told_ssh(views(machines@), local@, port, probes@),
{
    let ghost ms = views(machines@);
    let ghost test = twin(local@, port);
    let local_host = trim(local.host.as_str());
    for i in 0..machines.len()
        invariant
            ms == views(machines@),
            test == twin(local@, port),
            local_host@ == trimmed(local@.host),
            forall|j: int| 0 <= j < i ==> !test(#[trigger] ms[j]),
    {
        let m = &machines[i];
        proof {
            assert(ms[i as int] == m@);
        }
        let user = trim(m.ssh_user.as_str());
        let ssh_port: u16 = normalized_ssh_port(m.ssh_port);
        if !same(m.id.as_str(), "local") && eq_ignore_ascii_case(
            trim(m.host.as_str()).as_str(),
            local_host.as_str(),
        ) && m.port == port && (!is_blank(user.as_str()) || ssh_port != 22) {
            proof {
                lemma_first_where_is(ms, test, i as int);
            }
            return (user, ssh_port);
        }
    }
    proof {
        lemma_first_where_is(ms, test, ms.len() as int);
    }
    let hosts = local_ssh_probe_hosts(local);
    let ports = local_ssh_probe_ports(machines, local);
    match detect_ssh_port(&hosts, &ports, &probes.ssh_banners) {
        Some(p) => {
            let user = advertised_ssh_user(machines, local, p, probes.process_user.as_str());
            (user, p)
        },
        None => (trim(local.ssh_user.as_str()), normalized_ssh_port(local.ssh_port)),
    }
}

/// Whether an entry says how this machine is reached by SSH: it is another entry with its address
/// and port that names a user or an uncommon port.
pub open spec fn tells_of_ssh(
    m: MachineConfigModel,
    local: MachineConfigModel,
    port: u16,
) -> bool {
    &&& m.id != "local"@
    &&& lowered(trimmed(m.host)) == lowered(trimmed(local.host))
    &&& m.port == port
    &&& trimmed(m.ssh_user).len() > 0 || (m.ssh_port != 0 && m.ssh_port != 22)
}

/// Peers are told what the first other entry of this machine says of SSH, where one does.
pub proof fn other_entries_tell_of_ssh(
    ms: Seq<MachineConfigModel>,
    local: MachineConfigModel,
    port: u16,
    probes: ProbesModel,
    i: int,
)
    requires
        0 <= i < ms.len(),
        tells_of_ssh(ms[i], local, port),
        forall|j: int| 0 <= j < i ==> !tells_of_ssh(#[trigger] ms[j], local, port),
    ensures
        ({
            let r = told_ssh(ms, local, port, probes);
            &&& r.0 == trimmed(ms[i].ssh_user)
            &&& ms[i].ssh_port != 0 ==> r.1 == ms[i].ssh_port
            &&& ms[i].ssh_port == 0 ==> r.1 == 22
        }),
{
    let test = twin(local, port);
    assert forall|j: int| 0 <= j < i implies !test(#[trigger] ms[j]) by {
        assert(!tells_of_ssh(ms[j], local, port));
    }
    lemma_first_where_is(ms, test, i);
}

/// Where no other entry says anything, a server that answers on the uncommon port of this machine's
/// entry is what peers are told of, with the user of that entry; and where nothing answers, they are
/// told what the entry says.
pub proof fn the_own_entry_tells_of_ssh(
    ms: Seq<MachineConfigModel>,
    local: MachineConfigModel,
    port: u16,
    probes: ProbesModel,
)
    requires
        forall|j: int| 0 <= j < ms.len() ==> !tells_of_ssh(#[trigger] ms[j], local, port),
        trimmed(local.ssh_user).len() > 0,
        (local.ssh_port != 0 && local.ssh_port != 22 && probes.ssh_banners.contains(
            ("127.0.0.1"@, local.ssh_port),
        )) || probes.ssh_banners.len() == 0,
    ensures
        ({
            let r = told_ssh(ms, local, port, probes);
            &&& r.0 == trimmed(local.ssh_user)
            &&& local.ssh_port != 0 ==> r.1 == local.ssh_port
            &&& local.ssh_port == 0 ==> r.1 == 22
        }),
{
    let test = twin(local, port);
    assert forall|j: int| 0 <= j < ms.len() implies !test(#[trigger] ms[j]) by {
        assert(!tells_of_ssh(ms[j], local, port));
    }
    lemma_first_where_is(ms, test, ms.len() as int);
    let ports = probe_ports(ms, local);
    let hosts = probe_hosts(local);
    let answered = answered_port(hosts, probes.ssh_banners);
    if probes.ssh_banners.len() == 0 {
        assert forall|j: int| 0 <= j < ports.len() implies !answered(#[trigger] ports[j]) by {
            if answers_on(hosts, ports[j], probes.ssh_banners) {
                let i = choose|i: int|
                    0 <= i < hosts.len() && probes.ssh_banners.contains(
                        (#[trigger] hosts[i], ports[j]),
                    );
                assert(false);
            }
        }
        lemma_first_where_is(ports, answered, ports.len() as int);
    } else {
        let start = with_odd_port(Seq::empty(), local.ssh_port);
        assert(start[0] == local.ssh_port);
        lemma_entry_ports_keep(start, ms);
        assert(ports[0] == local.ssh_port);
        assert(hosts[0] == "127.0.0.1"@);
        assert(probes.ssh_banners.contains((hosts[0], ports[0])));
        assert(answered(ports[0]));
        lemma_first_where_is(ports, answered, 0);
    }
}

proof fn lemma_entry_ports_keep(ports: Seq<u16>, ms: Seq<MachineConfigModel>)
    requires
        ports.len() > 0,
    ensures
        entry_ports(ports, ms).len() > 0,
        entry_ports(ports, ms)[0] == ports[0],
    decreases ms.len(),
{
    if ms.len() > 0 {
        lemma_entry_ports_keep(ports, ms.drop_last());
    }
}

} // verus!
