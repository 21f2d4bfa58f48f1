//! Machines that were discovered: their identifiers, and whom they match.

use crate::bytes::bytes_of;
use crate::collector::names::{blake3_hex, blake3_text};
use crate::config::identity::{clean_id, id_of, machine_matches_reference, matches_reference};
use crate::config::types::{MachineConfig, MachineConfigModel};
use crate::ipv4::{ipv4_of, is_private_ipv4, parse_ipv4, private};
use crate::machines::types::{MachineHealth, MachineHealthModel, MachineView, MachineViewModel};
use crate::text::{
    chars_of, decimal, decimal_text, eq_ignore_ascii_case, is_blank, lowered, number, same,
    same_ignoring_case, starts_with, string_of_range, trim, trim_end_matches, trim_start_matches,
    trimmed, views, without_leading, without_trailing,
};
use vstd::prelude::*;
use vstd::utf8::encode_utf8;

verus! {

/// The port of the discovery of machines on the local network.
pub const DISCOVERY_PORT: u16 = 18766;

/// A text as the identifier of a machine: without underscores at its ends.
pub open spec fn machine_id_of(value: Seq<char>) -> Seq<char> {
    without_trailing(without_leading(id_of(value), '_'), '_')
}

/// The text as the identifier of a machine.
pub fn clean_machine_id(value: &str) -> (r: String)
    ensures
        r@ == machine_id_of(value@),
{
    let id = clean_id(value);
    trim_end_matches(trim_start_matches(id.as_str(), '_').as_str(), '_')
}

/// The mark of a program by the path that it runs from: the first digits of a hash of the path.
pub open spec fn program_mark(exe_path: Seq<char>) -> Seq<char> {
    blake3_text(encode_utf8(exe_path)).take(8)
}

/// The mark of a program by the path that it runs from.
pub fn exe_path_hash(exe_path: &str) -> (r: String)
    ensures
        r@ == program_mark(exe_path@),
{
    let bytes = bytes_of(exe_path);
    let hash = blake3_hex(bytes.as_slice());
    let digits = chars_of(hash.as_str());
    let r = string_of_range(&digits, 0, 8);
    proof {
        assert(r@ =~= program_mark(exe_path@));
    }
    r
}

/// The identifier under which a machine is discovered, by address, port and mark of its program.
pub open spec fn discovery_id(host: Seq<char>, port: u16, mark: Seq<char>) -> Seq<char> {
    let h = machine_id_of(host);
    if h.len() == 0 {
        "lan_"@ + decimal_text(port as nat) + "_"@ + mark
    } else {
        "lan_"@ + h + "_"@ + decimal_text(port as nat) + "_"@ + mark
    }
}

/// The identifier under which a machine is discovered.
pub fn discovery_machine_id(host: &str, port: u16, mark: &str) -> (r: String)
    ensures
        r@ == discovery_id(host@, port, mark@),
{
    let h = clean_machine_id(host);
    let mut r = "lan_".to_string();
    if !is_blank(h.as_str()) {
        r.append(h.as_str());
        r.append("_");
    }
    r.append(decimal(port as u64).as_str());
    r.append("_");
    r.append(mark);
    r
}

/// Whether a text is a discovery identifier of an entry: it starts with the entry's address and
/// port.
pub open spec fn has_discovery_id(m: MachineConfigModel, value: Seq<char>) -> bool {
    let h = machine_id_of(m.host);
    h.len() > 0 && ("lan_"@ + h + "_"@ + decimal_text(m.port as nat) + "_"@).is_prefix_of(value)
}

/// Whether a text is a discovery identifier of an entry.
pub fn machine_matches_discovery_id(machine: &MachineConfig, value: &str) -> (r: bool)
    ensures
        r == has_discovery_id(machine@, value@),
{
    let h = clean_machine_id(machine.host.as_str());
    if is_blank(h.as_str()) {
        return false;
    }
    let mut prefix = "lan_".to_string();
    prefix.append(h.as_str());
    prefix.append("_");
    prefix.append(decimal(machine.port as u64).as_str());
    prefix.append("_");
    starts_with(value, prefix.as_str())
}

/// An entry with an address is found by every discovery identifier that is made for its address
/// and port, whatever the mark of the program.
pub proof fn discovery_id_matches_its_machine(m: MachineConfigModel, mark: Seq<char>)
    requires
        machine_id_of(m.host).len() > 0,
    ensures
        has_discovery_id(m, discovery_id(m.host, m.port, mark)),
{
    let h = machine_id_of(m.host);
    let prefix = "lan_"@ + h + "_"@ + decimal_text(m.port as nat) + "_"@;
    let id = discovery_id(m.host, m.port, mark);
    assert(id =~= prefix + mark);
    assert(id.subrange(0, prefix.len() as int) =~= prefix);
}

/// The address and port by which endpoints are compared.
pub open spec fn endpoint(host: Seq<char>, port: u16) -> (Seq<char>, u16) {
    (lowered(trimmed(host)), port)
}

/// Whether two endpoints are the same.
pub fn same_endpoint(host_a: &str, port_a: u16, host_b: &str, port_b: u16) -> (r: bool)
    ensures
        r == (endpoint(host_a@, port_a) == endpoint(host_b@, port_b)),
{
    port_a == port_b && eq_ignore_ascii_case(trim(host_a).as_str(), trim(host_b).as_str())
}

/// The name that a discovered machine is shown under: its alias, else its name unless that is a
/// placeholder, else its address.
pub open spec fn found_name(h: MachineHealthModel) -> Seq<char> {
    let name = trimmed(h.name);
    if trimmed(h.alias_name).len() > 0 {
        trimmed(h.alias_name)
    } else if name.len() == 0 || name == "local"@ || name == "This machine"@ {
        h.host
    } else {
        name
    }
}

/// The name that a discovered machine is shown under.
pub fn discovered_machine_name(health: &MachineHealth) -> (r: String)
    ensures
        r@ == found_name(health@),
{
    let alias = trim(health.alias_name.as_str());
    if !is_blank(alias.as_str()) {
        return alias;
    }
    let name = trim(health.name.as_str());
    if is_blank(name.as_str()) || same(name.as_str(), "local") || same(
        name.as_str(),
        "This machine",
    ) {
        health.host.clone()
    } else {
        name
    }
}

/// Whether a discovered machine has an identifier of its own.
pub open spec fn has_own_id(h: MachineHealthModel) -> bool {
    trimmed(h.id) != "local"@ && trimmed(h.id).len() > 0
}

/// Whether an alias that is not blank is that of a discovered machine.
pub open spec fn alias_matches(alias: Seq<char>, h: MachineHealthModel) -> bool {
    trimmed(h.alias_name).len() > 0 && trimmed(alias).len() > 0 && same_ignoring_case(
        alias,
        trimmed(h.alias_name),
    )
}

/// Whether an entry is that of a discovered machine: by alias, by identifier, or by endpoint.
pub open spec fn entry_is(m: MachineConfigModel, h: MachineHealthModel) -> bool {
    ||| alias_matches(m.alias_name, h)
    ||| has_own_id(h) && same_ignoring_case(m.id, trimmed(h.id))
    ||| m.host == h.host && m.port == h.port
}

/// Whether a shown machine is a discovered one.
pub open spec fn view_is(m: MachineViewModel, h: MachineHealthModel) -> bool {
    ||| alias_matches(m.alias_name, h)
    ||| has_own_id(h) && same_ignoring_case(m.id, h.id)
    ||| m.host == h.host && m.port == h.port
}

/// Whether an alias that is not blank is that of a discovered machine.
fn has_alias(alias: &str, health: &MachineHealth) -> (r: bool)
    ensures
        r == alias_matches(alias@, health@),
{
    let wanted = trim(health.alias_name.as_str());
    !is_blank(wanted.as_str()) && !is_blank(trim(alias).as_str()) && eq_ignore_ascii_case(
        alias,
        wanted.as_str(),
    )
}

/// Whether a discovered machine has an identifier of its own.
fn is_identified(health: &MachineHealth) -> (r: bool)
    ensures
        r == has_own_id(health@),
{
    let id = trim(health.id.as_str());
    !same(id.as_str(), "local") && !is_blank(id.as_str())
}

/// Whether an entry is that of a discovered machine.
pub fn machine_matches_health(machine: &MachineConfig, health: &MachineHealth) -> (r: bool)
    ensures
        r == entry_is(machine@, health@),
{
    has_alias(machine.alias_name.as_str(), health) || (is_identified(health)
        && eq_ignore_ascii_case(machine.id.as_str(), trim(health.id.as_str()).as_str())) || (same(
        machine.host.as_str(),
        health.host.as_str(),
    ) && machine.port == health.port)
}

/// Whether a shown machine is a discovered one.
pub fn machine_view_matches_health(machine: &MachineView, health: &MachineHealth) -> (r: bool)
    ensures
        r == view_is(machine@, health@),
{
    has_alias(machine.alias_name.as_str(), health) || (is_identified(health)
        && eq_ignore_ascii_case(machine.id.as_str(), health.id.as_str())) || (same(
        machine.host.as_str(),
        health.host.as_str(),
    ) && machine.port == health.port)
}

/// Whether a discovered machine may be the one of an entry, by any reference to it.
pub open spec fn refers_to(m: MachineConfigModel, h: MachineHealthModel) -> bool {
    ||| trimmed(h.alias_name).len() > 0 && matches_reference(m, trimmed(h.alias_name))
    ||| has_own_id(h) && matches_reference(m, h.id)
    ||| endpoint(h.host, h.port) == endpoint(m.host, m.port)
}

/// Whether a discovered machine may be the one of an entry.
fn health_matches(machine: &MachineConfig, health: &MachineHealth) -> (r: bool)
    ensures
        r == refers_to(machine@, health@),
{
    let alias = trim(health.alias_name.as_str());
    (!is_blank(alias.as_str()) && machine_matches_reference(machine, alias.as_str())) || (
    is_identified(health) && machine_matches_reference(machine, health.id.as_str()))
        || same_endpoint(
        health.host.as_str(),
        health.port,
        machine.host.as_str(),
        machine.port,
    )
}

/// Whether two addresses lie in the same private network of 256 addresses.
pub open spec fn same_private_net(left: Seq<char>, right: Seq<char>) -> bool {
    match (ipv4_of(trimmed(left)), ipv4_of(trimmed(right))) {
        (Some(a), Some(b)) => private(a) && private(b) && a.0 == b.0 && a.1 == b.1 && a.2 == b.2,
        _ => false,
    }
}

/// Whether two addresses lie in the same private network of 256 addresses.
pub fn same_private_ipv4_lan(left: &str, right: &str) -> (r: bool)
    ensures
        r == same_private_net(left@, right@),
{
    match (parse_ipv4(trim(left).as_str()), parse_ipv4(trim(right).as_str())) {
        (Some(a), Some(b)) => is_private_ipv4(a) && is_private_ipv4(b) && a.0 == b.0 && a.1 == b.1
            && a.2 == b.2,
        _ => false,
    }
}

/// Whether a machine was seen: it is this one, or it was discovered.
pub open spec fn seen(m: MachineConfigModel, found: Seq<MachineHealthModel>) -> bool {
    m.id == "local"@ || exists|i: int| 0 <= i < found.len() && refers_to(m, #[trigger] found[i])
}

/// Whether a machine was seen.
fn is_seen(machine: &MachineConfig, found: &Vec<MachineHealth>) -> (r: bool)
    ensures
        r == seen(machine@, views(found@)),
{
    if same(machine.id.as_str(), "local") {
        return true;
    }
    for i in 0..found.len()
        invariant
            machine@.id != "local"@,
            forall|j: int| 0 <= j < i ==> !refers_to(machine@, #[trigger] views(found@)[j]),
    {
        proof {
            assert(views(found@)[i as int] == found@[i as int]@);
        }
        if health_matches(machine, &found[i]) {
            return true;
        }
    }
    false
}

/// Whether two machines are on the same network: they are at the same endpoint, they are in the
/// same private network, or both were seen by a discovery, where there was one.
pub fn machines_share_lan(
    left: &MachineConfig,
    right: &MachineConfig,
    discovered: &Option<Vec<MachineHealth>>,
) -> (r: bool)
    ensures
        r == (endpoint(left@.host, left@.port) == endpoint(right@.host, right@.port)
            || same_private_net(left@.host, right@.host) || (match *discovered {
            Some(found) => seen(left@, views(found@)) && seen(right@, views(found@)),
            None => false,
        })),
{
    if same_endpoint(left.host.as_str(), left.port, right.host.as_str(), right.port) {
        return true;
    }
    if same_private_ipv4_lan(left.host.as_str(), right.host.as_str()) {
        return true;
    }
    match discovered {
        Some(found) => is_seen(left, found) && is_seen(right, found),
        None => false,
    }
}

/// Whether a discovered machine is at the endpoint of another one.
pub open spec fn has_endpoint(found: Seq<MachineHealthModel>, h: MachineHealthModel) -> bool {
    exists|i: int|
        0 <= i < found.len() && (#[trigger] found[i]).host == h.host && found[i].port == h.port
}

/// Adds a discovered machine, unless one at its endpoint was found before.
pub fn add_discovered(found: &mut Vec<MachineHealth>, health: MachineHealth)
    ensures
        views(final(found)@) == (if has_endpoint(views(old(found)@), health@) {
            views(old(found)@)
        } else {
            views(old(found)@).push(health@)
        }),
{
    for i in 0..found.len()
        invariant
            found@ == old(found)@,
            forall|j: int|
                0 <= j < i ==> !((#[trigger] views(found@)[j]).host == health@.host && views(
                    found@,
                )[j].port == health@.port),
    {
        if same(found[i].host.as_str(), health.host.as_str()) && found[i].port == health.port {
            proof {
                assert(views(found@)[i as int].host == health@.host);
            }
            return;
        }
    }
    let ghost was = views(found@);
    let ghost hv = health@;
    found.push(health);
    proof {
        assert(views(found@) =~= was.push(hv));
    }
}

/// The broadcast addresses that a discovery is sent to: that of the network of this machine's
/// address, unless the address is a loopback or unspecified one, and the general one.
pub open spec fn broadcast_targets(host: Seq<char>) -> Seq<(u8, u8, u8, u8)> {
    let all = (255u8, 255u8, 255u8, 255u8);
    match ipv4_of(host) {
        Some(ip) => {
            let net = (ip.0, ip.1, ip.2, 255u8);
            if ip.0 == 127 || ip == (0u8, 0u8, 0u8, 0u8) || net == all {
                seq![all]
            } else {
                seq![net, all]
            }
        },
        None => seq![all],
    }
}

/// The broadcast addresses that a discovery is sent to.
pub fn discovery_targets(host: &str) -> (out: Vec<(u8, u8, u8, u8)>)
    ensures
        out@ == broadcast_targets(host@),
{
    let mut out: Vec<(u8, u8, u8, u8)> = Vec::new();
    match parse_ipv4(host) {
        Some(ip) => {
            let loopback = ip.0 == 127;
            let unspecified = ip.0 == 0 && ip.1 == 0 && ip.2 == 0 && ip.3 == 0;
            let general = ip.0 == 255 && ip.1 == 255 && ip.2 == 255;
            if !loopback && !unspecified && !general {
                out.push((ip.0, ip.1, ip.2, 255));
            }
        },
        None => {},
    }
    out.push((255, 255, 255, 255));
    proof {
        assert(out@ =~= broadcast_targets(host@));
    }
    out
}

/// Whether an identifier is taken.
pub open spec fn id_taken(ms: Seq<MachineViewModel>, id: Seq<char>) -> bool {
    exists|i: int| 0 <= i < ms.len() && (#[trigger] ms[i]).id == id
}

/// An identifier with a number behind it.
pub open spec fn numbered(base: Seq<char>, n: nat) -> Seq<char> {
    base + "_"@ + decimal_text(n)
}

/// Whether `id` is the first free identifier for a base: the base itself, or the base with the
/// first number from two on that is free.
pub open spec fn first_free_id(ms: Seq<MachineViewModel>, base: Seq<char>, id: Seq<char>) -> bool {
    if !id_taken(ms, base) {
        id == base
    } else {
        exists|n: nat|
            2 <= n && #[trigger] numbered(base, n) == id && !id_taken(ms, id) && forall|k: nat|
                2 <= k < n ==> id_taken(ms, #[trigger] numbered(base, k))
    }
}

/// There is at most one first free identifier for a base.
pub proof fn first_free_id_is_unique(
    ms: Seq<MachineViewModel>,
    base: Seq<char>,
    a: Seq<char>,
    b: Seq<char>,
)
    requires
        first_free_id(ms, base, a),
        first_free_id(ms, base, b),
    ensures
        a == b,
{
    if id_taken(ms, base) {
        let m = choose|n: nat|
            2 <= n && #[trigger] numbered(base, n) == a && !id_taken(ms, a) && forall|k: nat|
                2 <= k < n ==> id_taken(ms, #[trigger] numbered(base, k));
        let n = choose|n: nat|
            2 <= n && #[trigger] numbered(base, n) == b && !id_taken(ms, b) && forall|k: nat|
                2 <= k < n ==> id_taken(ms, #[trigger] numbered(base, k));
        if m < n {
            assert(id_taken(ms, numbered(base, m)));
        } else if n < m {
            assert(id_taken(ms, numbered(base, n)));
        }
    }
}

/// The first free identifier for a base; a blank base counts as `discovered`.
pub open spec fn free_id(ms: Seq<MachineViewModel>, base: Seq<char>) -> Seq<char> {
    let b = if base.len() == 0 {
        "discovered"@
    } else {
        base
    };
    choose|id: Seq<char>| first_free_id(ms, b, id)
}

/// Whether an identifier is taken.
pub fn is_id_taken(ms: &Vec<MachineView>, id: &str) -> (r: bool)
    ensures
        r == id_taken(views(ms@), id@),
{
    for i in 0..ms.len()
        invariant
            forall|j: int| 0 <= j < i ==> (#[trigger] views(ms@)[j]).id != id@,
    {
        if same(ms[i].id.as_str(), id) {
            proof {
                assert(views(ms@)[i as int].id == id@);
            }
            return true;
        }
    }
    false
}

/// Numbered identifiers differ.
proof fn lemma_numbered_differ(base: Seq<char>, a: nat, b: nat)
    requires
        a != b,
    ensures
        numbered(base, a) != numbered(base, b),
{
    if numbered(base, a) == numbered(base, b) {
        let k = (base + "_"@).len() as int;
        assert(numbered(base, a).skip(k) =~= decimal_text(a));
        assert(numbered(base, b).skip(k) =~= decimal_text(b));
        crate::text::decimal_text_is_injective(a, b);
    }
}

/// No more identifiers can be taken than there are machines.
proof fn lemma_taken_bound(ms: Seq<MachineViewModel>, base: Seq<char>, n: nat)
    requires
        2 <= n,
        forall|k: nat| 2 <= k < n ==> id_taken(ms, #[trigger] numbered(base, k)),
    ensures
        n - 2 <= ms.len(),
{
    let names = Seq::new((n - 2) as nat, |i: int| numbered(base, (i + 2) as nat));
    let ids = Seq::new(ms.len(), |i: int| ms[i].id);
    assert forall|i: int, j: int| 0 <= i < names.len() && 0 <= j < names.len() && i != j implies names[i]
        != names[j] by {
        lemma_numbered_differ(base, (i + 2) as nat, (j + 2) as nat);
    }
    names.unique_seq_to_set();
    ids.lemma_cardinality_of_set();
    assert forall|x: Seq<char>| names.to_set().contains(x) implies ids.to_set().contains(x) by {
        let i = choose|i: int| 0 <= i < names.len() && names[i] == x;
        assert(id_taken(ms, numbered(base, (i + 2) as nat)));
        let k = choose|k: int| 0 <= k < ms.len() && (#[trigger] ms[k]).id == x;
        assert(ids[k] == x);
    }
    vstd::set_lib::lemma_len_subset(names.to_set(), ids.to_set());
}

/// A numbered identifier is free at last.
proof fn lemma_numbered_free(ms: Seq<MachineViewModel>, base: Seq<char>, n: nat) -> (id: Seq<char>)
    requires
        2 <= n,
        id_taken(ms, base),
        forall|k: nat| 2 <= k < n ==> id_taken(ms, #[trigger] numbered(base, k)),
    ensures
        first_free_id(ms, base, id),
    decreases ms.len() + 3 - n,
{
    lemma_taken_bound(ms, base, n);
    if id_taken(ms, numbered(base, n)) {
        assert forall|k: nat| 2 <= k < n + 1 implies id_taken(ms, #[trigger] numbered(base, k)) by {
            if k == n {
            }
        }
        lemma_taken_bound(ms, base, n + 1);
        lemma_numbered_free(ms, base, n + 1)
    } else {
        numbered(base, n)
    }
}

/// The first free identifier is free.
pub proof fn free_id_is_free(ms: Seq<MachineViewModel>, base: Seq<char>)
    ensures
        !id_taken(ms, free_id(ms, base)),
{
    let b = if base.len() == 0 {
        "discovered"@
    } else {
        base
    };
    if id_taken(ms, b) {
        let id = lemma_numbered_free(ms, b, 2);
        assert(first_free_id(ms, b, id));
    } else {
        assert(first_free_id(ms, b, b));
    }
    assert(first_free_id(ms, b, free_id(ms, base)));
}

/// The first free identifier for a base.
pub fn unique_machine_id(base: String, ms: &Vec<MachineView>) -> (r: String)
    ensures
        ({
            let b = if base@.len() == 0 {
                "discovered"@
            } else {
                base@
            };
            first_free_id(views(ms@), b, r@)
        }),
        !id_taken(views(ms@), r@),
        r@ == free_id(views(ms@), base@),
{
    let ghost wanted = base@;
    let stem: String = if is_blank(base.as_str()) {
        "discovered".to_string()
    } else {
        base
    };
    if !is_id_taken(ms, stem.as_str()) {
        proof {
            assert(first_free_id(views(ms@), stem@, stem@));
            first_free_id_is_unique(views(ms@), stem@, stem@, free_id(views(ms@), wanted));
        }
        return stem;
    }
    let mut n: u128 = 2;
    loop
        invariant
            2 <= n,
            n <= ms.len() + 2,
            stem@ == (if wanted.len() == 0 {
                "discovered"@
            } else {
                wanted
            }),
            wanted == base@,
            id_taken(views(ms@), stem@),
            forall|k: nat| 2 <= k < n ==> id_taken(views(ms@), #[trigger] numbered(stem@, k)),
        decreases ms.len() + 2 - n,
    {
        let mut candidate = stem.clone();
        candidate.append("_");
        candidate.append(number(n, 10).as_str());
        proof {
            assert(candidate@ == numbered(stem@, n as nat));
        }
        if !is_id_taken(ms, candidate.as_str()) {
            proof {
                assert(first_free_id(views(ms@), stem@, candidate@));
                first_free_id_is_unique(
                    views(ms@),
                    stem@,
                    candidate@,
                    free_id(views(ms@), wanted),
                );
            }
            return candidate;
        }
        proof {
            lemma_taken_bound(views(ms@), stem@, (n + 1) as nat);
            assert(views(ms@).len() == ms.len());
        }
        n = n + 1;
    }
}

} // verus!
