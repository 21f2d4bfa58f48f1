//! Finding machines by reference, and what requests to them carry.

use crate::bytes::bytes_of;
use crate::config::clean::{cleaned_machines, normalized_machines};
use crate::config::types::{AppConfig, LocalEnv, MachineConfig, MachineConfigModel};
use crate::seqs::{first_item, first_where, lemma_first_where, lemma_first_where_is};
use crate::text::{
    eq_ignore_ascii_case, is_blank, lowered, opt_view, same, same_ignoring_case, trim, trimmed, views,
};
use vstd::prelude::*;
use vstd::utf8::encode_utf8;

verus! {

/// The machine that a request names; this one where it names none.
pub open spec fn named_machine(id: Option<Seq<char>>) -> Seq<char> {
    match id {
        Some(v) => if trimmed(v).len() == 0 {
            "local"@
        } else {
            trimmed(v)
        },
        None => "local"@,
    }
}

/// The machine that a request names; this one where it names none.
pub fn machine_id_from_path(machine_id: Option<&str>) -> (r: String)
    ensures
        r@ == named_machine(
            match machine_id {
                Some(v) => Some(v@),
                None => None,
            },
        ),
{
    match machine_id {
        Some(v) => {
            let t = trim(v);
            if is_blank(t.as_str()) {
                "local".to_string()
            } else {
                t
            }
        },
        None => "local".to_string(),
    }
}

/// The test for the entry of this machine.
pub open spec fn by_local() -> spec_fn(MachineConfigModel) -> bool {
    |m: MachineConfigModel| m.id == "local"@
}

/// The test for entries with an alias.
pub open spec fn by_alias(id: Seq<char>) -> spec_fn(MachineConfigModel) -> bool {
    |m: MachineConfigModel|
        trimmed(m.alias_name).len() > 0 && same_ignoring_case(trimmed(m.alias_name), id)
}

/// The test for entries with an identifier.
pub open spec fn by_id(id: Seq<char>) -> spec_fn(MachineConfigModel) -> bool {
    |m: MachineConfigModel| same_ignoring_case(m.id, id)
}

/// The test for entries with an address.
pub open spec fn by_host(id: Seq<char>) -> spec_fn(MachineConfigModel) -> bool {
    |m: MachineConfigModel| same_ignoring_case(trimmed(m.host), id)
}

/// The entry that a reference means: by alias, else by identifier, else by address.
pub open spec fn resolved(ms: Seq<MachineConfigModel>, machine_id: Seq<char>) -> Option<
    MachineConfigModel,
> {
    let id = named_machine(Some(machine_id));
    if id == "local"@ {
        first_item(ms, by_local())
    } else if first_item(ms, by_alias(id)) is Some {
        first_item(ms, by_alias(id))
    } else if first_item(ms, by_id(id)) is Some {
        first_item(ms, by_id(id))
    } else {
        first_item(ms, by_host(id))
    }
}

/// What an entry is found by.
#[derive(Debug, Clone, Copy, PartialEq, Eq, Structural)]
enum Key {
    Local,
    Alias,
    Id,
    Host,
}

/// The test that goes with a key.
spec fn by_key(key: Key, id: Seq<char>) -> spec_fn(MachineConfigModel) -> bool {
    match key {
        Key::Local => by_local(),
        Key::Alias => by_alias(id),
        Key::Id => by_id(id),
        Key::Host => by_host(id),
    }
}

/// Whether an entry passes the test that goes with a key.
fn passes(m: &MachineConfig, key: Key, id: &str) -> (r: bool)
    ensures
        r == by_key(key, id@)(m@),
{
    match key {
        Key::Local => same(m.id.as_str(), "local"),
        Key::Alias => {
            let alias = trim(m.alias_name.as_str());
            !is_blank(alias.as_str()) && eq_ignore_ascii_case(alias.as_str(), id)
        },
        Key::Id => eq_ignore_ascii_case(m.id.as_str(), id),
        Key::Host => eq_ignore_ascii_case(trim(m.host.as_str()).as_str(), id),
    }
}

/// The first entry that passes the test that goes with a key.
fn find_by(machines: &Vec<MachineConfig>, key: Key, id: &str) -> (r: Option<MachineConfig>)
    ensures
        opt_view(r) == first_item(views(machines@), by_key(key, id@)),
{
    let ghost ms = views(machines@);
    let ghost test = by_key(key, id@);
    for i in 0..machines.len()
        invariant
            ms == views(machines@),
            test == by_key(key, id@),
            forall|j: int| 0 <= j < i ==> !test(#[trigger] ms[j]),
    {
        proof {
            assert(ms[i as int] == machines@[i as int]@);
        }
        if passes(&machines[i], key, id) {
            proof {
                lemma_first_where_is(ms, test, i as int);
            }
            return Some(machines[i].clone());
        }
    }
    proof {
        lemma_first_where_is(ms, test, ms.len() as int);
    }
    None
}

/// The entry that a reference means.
pub fn resolve_machine(machines: &Vec<MachineConfig>, machine_id: &str) -> (r: Option<MachineConfig>)
    ensures
        opt_view(r) == resolved(views(machines@), machine_id@),
{
    let id = machine_id_from_path(Some(machine_id));
    let id = id.as_str();
    if same(id, "local") {
        return find_by(machines, Key::Local, id);
    }
    match find_by(machines, Key::Alias, id) {
        Some(m) => {
            return Some(m);
        },
        None => {},
    }
    match find_by(machines, Key::Id, id) {
        Some(m) => {
            return Some(m);
        },
        None => {},
    }
    find_by(machines, Key::Host, id)
}

/// The configured machine that a reference means.
pub fn find_machine(cfg: &AppConfig, machine_id: &str, env: &LocalEnv) -> (r: Option<MachineConfig>)
    ensures
        opt_view(r) == resolved(cleaned_machines(cfg@.machines, env@), machine_id@),
{
    let machines = normalized_machines(cfg, env);
    resolve_machine(&machines, machine_id)
}

/// Whether a byte stands for itself in a query.
pub open spec fn unreserved(b: u8) -> bool {
    48 <= b <= 57 || 65 <= b <= 90 || 97 <= b <= 122 || b == 45 || b == 95 || b == 46 || b == 126
}

/// A digit of a hexadecimal number, in upper case.
pub open spec fn upper_hex(n: int) -> char {
    if n < 10 {
        ((48 + n) as u8) as char
    } else {
        ((55 + n) as u8) as char
    }
}

/// A byte as it stands in a query.
pub open spec fn query_byte(b: u8) -> Seq<char> {
    if unreserved(b) {
        seq![b as char]
    } else {
        seq!['%', upper_hex((b / 16) as int), upper_hex((b % 16) as int)]
    }
}

/// Bytes as they stand in a query.
pub open spec fn query_text(bytes: Seq<u8>) -> Seq<char>
    decreases bytes.len(),
{
    if bytes.len() == 0 {
        Seq::empty()
    } else {
        query_text(bytes.drop_last()) + query_byte(bytes.last())
    }
}

/// A digit of a hexadecimal number, in upper case.
fn upper_hex_digit(n: u8) -> (r: char)
    requires
        n < 16,
    ensures
        r == upper_hex(n as int),
{
    if n < 10 {
        (48 + n) as char
    } else {
        (55 + n) as char
    }
}

/// A text as it stands in a query.
pub fn encode_query_component(value: &str) -> (out: String)
    ensures
        out@ == query_text(encode_utf8(value@)),
{
    let bytes = bytes_of(value);
    let mut out = String::new();
    for i in 0..bytes.len()
        invariant
            bytes@ == encode_utf8(value@),
            out@ == query_text(bytes@.take(i as int)),
    {
        let b: u8 = bytes[i];
        let ghost was = out@;
        proof {
            assert(bytes@.take(i + 1).drop_last() =~= bytes@.take(i as int));
        }
        if (48 <= b && b <= 57) || (65 <= b && b <= 90) || (97 <= b && b <= 122) || b == 45 || b
            == 95 || b == 46 || b == 126 {
            out.push(b as char);
            proof {
                assert(out@ =~= was + query_byte(b));
            }
        } else {
            out.push('%');
            out.push(upper_hex_digit(b / 16));
            out.push(upper_hex_digit(b % 16));
            proof {
                assert(out@ =~= was + query_byte(b));
            }
        }
    }
    proof {
        assert(bytes@.take(bytes@.len() as int) =~= bytes@);
    }
    out
}

/// The value of a hexadecimal digit in upper case.
pub open spec fn upper_hex_value(c: char) -> int {
    if c as u32 <= 57 {
        c as u32 - 48
    } else {
        c as u32 - 55
    }
}

/// The bytes that a query component stands for, read from its front.
pub open spec fn query_bytes(t: Seq<char>) -> Seq<u8>
    decreases t.len(),
{
    if t.len() == 0 {
        Seq::empty()
    } else if t[0] == '%' && t.len() >= 3 {
        seq![(upper_hex_value(t[1]) * 16 + upper_hex_value(t[2])) as u8] + query_bytes(t.skip(3))
    } else {
        seq![t[0] as u8] + query_bytes(t.skip(1))
    }
}

/// A query component stands for the bytes that it was made of.
pub proof fn query_component_round_trip(bytes: Seq<u8>)
    ensures
        query_bytes(query_text(bytes)) == bytes,
    decreases bytes.len(),
{
    if bytes.len() == 0 {
        assert(bytes =~= Seq::<u8>::empty());
    } else {
        let t = bytes.drop_last();
        query_component_round_trip(t);
        lemma_query_append(t, bytes.last());
        assert(t.push(bytes.last()) =~= bytes);
    }
}

/// Reading a component with one more encoded byte behind it gives that byte as well.
proof fn lemma_query_append(bytes: Seq<u8>, b: u8)
    ensures
        query_bytes(query_text(bytes) + query_byte(b)) == query_bytes(query_text(bytes)).push(b),
    decreases bytes.len(),
{
    lemma_query_front(query_text(bytes), b, bytes);
}

/// The text of bytes, taken apart at its front.
proof fn lemma_query_first(bytes: Seq<u8>)
    requires
        bytes.len() > 0,
    ensures
        query_text(bytes) == query_byte(bytes[0]) + query_text(bytes.drop_first()),
    decreases bytes.len(),
{
    if bytes.len() == 1 {
        assert(bytes.drop_last() =~= Seq::<u8>::empty());
        assert(bytes.drop_first() =~= Seq::<u8>::empty());
        assert(query_text(bytes.drop_last()) =~= Seq::<char>::empty());
        assert(query_text(bytes) =~= query_byte(bytes[0]));
        assert(query_byte(bytes[0]) + query_text(bytes.drop_first()) =~= query_byte(bytes[0]));
    } else {
        let t = bytes.drop_last();
        lemma_query_first(t);
        assert(t.drop_first() =~= bytes.drop_first().drop_last());
        assert(t[0] == bytes[0]);
        assert(bytes.drop_first().last() == bytes.last());
        assert(query_text(bytes) =~= query_byte(bytes[0]) + (query_text(t.drop_first())
            + query_byte(bytes.last())));
    }
}

proof fn lemma_query_front(text: Seq<char>, b: u8, bytes: Seq<u8>)
    requires
        text == query_text(bytes),
    ensures
        query_bytes(text + query_byte(b)) == query_bytes(text).push(b),
    decreases bytes.len(),
{
    let tail = query_byte(b);
    if bytes.len() == 0 {
        assert(text + tail =~= tail);
        assert(query_bytes(text) =~= Seq::<u8>::empty());
        assert(query_bytes(tail) =~= seq![b]) by {
            lemma_query_byte(b, Seq::empty());
            assert(tail + Seq::<char>::empty() =~= tail);
            assert(query_bytes(Seq::<char>::empty()) =~= Seq::<u8>::empty());
        }
        assert(query_bytes(text).push(b) =~= seq![b]);
    } else {
        lemma_query_first(bytes);
        let rest = query_text(bytes.drop_first());
        lemma_query_front(rest, b, bytes.drop_first());
        lemma_query_byte(bytes[0], rest);
        lemma_query_byte(bytes[0], rest + tail);
        assert(text + tail =~= query_byte(bytes[0]) + (rest + tail));
        assert(query_bytes(text + tail) =~= query_bytes(text).push(b));
    }
}

/// An encoded byte is read off the front of a component.
proof fn lemma_query_byte(b: u8, rest: Seq<char>)
    ensures
        query_bytes(query_byte(b) + rest) == seq![b] + query_bytes(rest),
{
    let t = query_byte(b) + rest;
    if unreserved(b) {
        assert(t[0] == b as char);
        assert(t[0] != '%');
        assert(t.skip(1) =~= rest);
    } else {
        assert(t[0] == '%');
        assert(t.skip(3) =~= rest);
        let hi = (b / 16) as int;
        let lo = (b % 16) as int;
        assert(upper_hex_value(upper_hex(hi)) == hi);
        assert(upper_hex_value(upper_hex(lo)) == lo);
        assert(hi * 16 + lo == b);
    }
}

/// The secret that peers share; empty where they have none.
#[derive(Debug)]
pub struct PeerToken {
    pub token: String,
}

impl PeerToken {
    /// No secret.
    pub fn new() -> (r: PeerToken)
        ensures
            r.token@ == Seq::<char>::empty(),
    {
        PeerToken { token: String::new() }
    }
}

/// Sets the secret that peers share.
pub fn configure_peer_token(slot: &mut PeerToken, token: &str)
    ensures
        final(slot).token@ == token@,
{
    if !same(slot.token.as_str(), token) {
        slot.token = token.to_string();
    }
}

/// The secret that peers share.
pub fn peer_token(slot: &PeerToken) -> (r: String)
    ensures
        r@ == slot.token@,
{
    slot.token.clone()
}

/// Whether a reference that is not to this machine names an entry: by its alias, its identifier or
/// its address.
pub open spec fn is_named(m: MachineConfigModel, reference: Seq<char>) -> bool {
    ||| trimmed(m.alias_name).len() > 0 && lowered(trimmed(m.alias_name)) == lowered(reference)
    ||| lowered(m.id) == lowered(reference)
    ||| lowered(trimmed(m.host)) == lowered(reference)
}

/// A reference finds one of the entries that it names, and finds one wherever it names one; a blank
/// one finds this machine. An alias goes before an identifier, and that before an address.
pub proof fn references_find_what_they_name(
    ms: Seq<MachineConfigModel>,
    reference: Seq<char>,
    i: int,
)
    ensures
        ({
            let t = trimmed(reference);
            let here = t.len() == 0 || t == "local"@;
            let r = resolved(ms, reference);
            &&& r is Some ==> ms.contains(r->0) && (if here {
                r->0.id == "local"@
            } else {
                is_named(r->0, t)
            })
            &&& r is None && 0 <= i < ms.len() ==> if here {
                ms[i].id != "local"@
            } else {
                !is_named(ms[i], t)
            }
            &&& 0 <= i < ms.len() && !here && trimmed(ms[i].alias_name).len() > 0 && lowered(
                trimmed(ms[i].alias_name),
            ) == lowered(t) ==> r is Some && trimmed(r->0.alias_name).len() > 0 && lowered(
                trimmed(r->0.alias_name),
            ) == lowered(t)
        }),
{
    let id = named_machine(Some(reference));
    lemma_first_where(ms, by_local());
    lemma_first_where(ms, by_alias(id));
    lemma_first_where(ms, by_id(id));
    lemma_first_where(ms, by_host(id));
    assert forall|test: spec_fn(MachineConfigModel) -> bool|
        #[trigger] first_item(ms, test) is Some implies ms.contains(first_item(ms, test)->0) by {
        lemma_first_where(ms, test);
        let k = first_where(ms, test);
        assert(ms[k] == first_item(ms, test)->0);
    }
    if first_item(ms, by_local()) is Some {
        assert(by_local()(ms[first_where(ms, by_local())]));
    }
    if first_item(ms, by_alias(id)) is Some {
        assert(by_alias(id)(ms[first_where(ms, by_alias(id))]));
    }
    if first_item(ms, by_id(id)) is Some {
        assert(by_id(id)(ms[first_where(ms, by_id(id))]));
    }
    if first_item(ms, by_host(id)) is Some {
        assert(by_host(id)(ms[first_where(ms, by_host(id))]));
    }
    if 0 <= i < ms.len() {
        if first_item(ms, by_local()) is None {
            assert(!by_local()(ms[i]));
        }
        if first_item(ms, by_alias(id)) is None {
            assert(!by_alias(id)(ms[i]));
        }
        if first_item(ms, by_id(id)) is None {
            assert(!by_id(id)(ms[i]));
        }
        if first_item(ms, by_host(id)) is None {
            assert(!by_host(id)(ms[i]));
        }
    }
}

} // verus!
