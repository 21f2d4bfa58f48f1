//! How machines are named and referred to.

use crate::config::types::{MachineConfig, MachineConfigModel};
use crate::text::{
    chars_of, eq_ignore_ascii_case, is_blank, lowered, parsed_number, rsplit_once, same,
    same_ignoring_case, starts_with, to_ascii_lowercase, trim, trimmed,
};
use vstd::prelude::*;

verus! {

/// Whether a character is a letter or a digit of ASCII.
pub open spec fn is_alphanumeric(c: char) -> bool {
    let u = c as u32;
    48 <= u <= 57 || 65 <= u <= 90 || 97 <= u <= 122
}

/// Whether a character is a letter or a digit of ASCII.
pub fn is_ascii_alphanumeric(c: char) -> (r: bool)
    ensures
        r == is_alphanumeric(c),
{
    let u: u32 = c as u32;
    (48 <= u && u <= 57) || (65 <= u && u <= 90) || (97 <= u && u <= 122)
}

/// A character of an identifier: anything else than letters, digits, `_` and `-` becomes `_`.
pub open spec fn id_char(c: char) -> char {
    if is_alphanumeric(c) || c == '_' || c == '-' {
        c
    } else {
        '_'
    }
}

/// A text as an identifier.
pub open spec fn id_of(value: Seq<char>) -> Seq<char> {
    trimmed(value).map_values(|c: char| id_char(c))
}

/// The text as an identifier.
pub fn clean_id(value: &str) -> (r: String)
    ensures
        r@ == id_of(value@),
{
    let t = trim(value);
    let chars = chars_of(t.as_str());
    let mut r = String::new();
    for i in 0..chars.len()
        invariant
            chars@ == trimmed(value@),
            r@ == chars@.take(i as int).map_values(|c: char| id_char(c)),
    {
        let c = chars[i];
        let ghost was = r@;
        if is_ascii_alphanumeric(c) || c == '_' || c == '-' {
            r.push(c);
        } else {
            r.push('_');
        }
        proof {
            assert(chars@.take(i + 1) =~= chars@.take(i as int).push(c));
            assert(r@ =~= chars@.take(i + 1).map_values(|c: char| id_char(c)));
        }
    }
    proof {
        assert(chars@.take(chars@.len() as int) =~= chars@);
    }
    r
}

/// A reference to a machine; a blank one refers to this machine.
pub open spec fn reference_of(value: Seq<char>) -> Seq<char> {
    if trimmed(value).len() == 0 {
        "local"@
    } else {
        trimmed(value)
    }
}

/// A reference to a machine; a blank one refers to this machine.
pub fn machine_id_or_local(value: &str) -> (r: String)
    ensures
        r@ == reference_of(value@),
{
    let t = trim(value);
    if is_blank(t.as_str()) {
        "local".to_string()
    } else {
        t
    }
}

/// Whether a machine is meant by a reference: `local` means the machine of that id, anything else
/// is compared with alias, id and host.
pub open spec fn matches_reference(m: MachineConfigModel, value: Seq<char>) -> bool {
    let v = reference_of(value);
    if lowered(v) == "local"@ {
        m.id == "local"@
    } else {
        ||| trimmed(m.alias_name).len() > 0 && same_ignoring_case(trimmed(m.alias_name), v)
        ||| same_ignoring_case(m.id, v)
        ||| same_ignoring_case(trimmed(m.host), v)
    }
}

/// Whether a machine is meant by a reference.
pub fn machine_matches_reference(machine: &MachineConfig, value: &str) -> (r: bool)
    ensures
        r == matches_reference(machine@, value@),
{
    let v = machine_id_or_local(value);
    if same(to_ascii_lowercase(v.as_str()).as_str(), "local") {
        return same(machine.id.as_str(), "local");
    }
    let alias = trim(machine.alias_name.as_str());
    if !is_blank(alias.as_str()) && eq_ignore_ascii_case(alias.as_str(), v.as_str()) {
        return true;
    }
    if eq_ignore_ascii_case(machine.id.as_str(), v.as_str()) {
        return true;
    }
    eq_ignore_ascii_case(trim(machine.host.as_str()).as_str(), v.as_str())
}

/// The name that a machine is shown under: its alias, else its host, else its name, else its id.
pub open spec fn display_name(m: MachineConfigModel) -> Seq<char> {
    if trimmed(m.alias_name).len() > 0 {
        trimmed(m.alias_name)
    } else if trimmed(m.host).len() > 0 {
        trimmed(m.host)
    } else if trimmed(m.name).len() > 0 {
        trimmed(m.name)
    } else {
        m.id
    }
}

/// The name that a machine is shown under.
pub fn machine_display_name(machine: &MachineConfig) -> (r: String)
    ensures
        r@ == display_name(machine@),
{
    let alias = trim(machine.alias_name.as_str());
    if !is_blank(alias.as_str()) {
        return alias;
    }
    let host = trim(machine.host.as_str());
    if !is_blank(host.as_str()) {
        return host;
    }
    let name = trim(machine.name.as_str());
    if !is_blank(name.as_str()) {
        return name;
    }
    machine.id.clone()
}

/// Whether a name stands for "no name known".
pub open spec fn placeholder_name(name: Seq<char>) -> bool {
    name.len() == 0 || name == "This machine"@ || same_ignoring_case(name, "local"@)
}

/// Whether a name stands for "no name known".
pub fn is_placeholder_local_name(name: &str) -> (r: bool)
    ensures
        r == placeholder_name(name@),
{
    is_blank(name) || same(name, "This machine") || eq_ignore_ascii_case(name, "local")
}

/// Whether peers can be told to use this address.
pub open spec fn advertisable(host: Seq<char>) -> bool {
    let h = trimmed(host);
    h.len() > 0 && h != "0.0.0.0"@ && h != "::"@ && h != "localhost"@ && !"127."@.is_prefix_of(h)
}

/// Whether peers can be told to use this address.
pub fn is_advertisable_host(host: &str) -> (r: bool)
    ensures
        r == advertisable(host@),
{
    let h = trim(host);
    let h = h.as_str();
    !is_blank(h) && !same(h, "0.0.0.0") && !same(h, "::") && !same(h, "localhost") && !starts_with(
        h,
        "127.",
    )
}

/// The text of the error that `u16::from_str` gives for a text that is no number of that type.
pub uninterp spec fn port_error(text: Seq<char>) -> Seq<char>;

/// `u16::from_str`: the number that a text writes with an optional plus sign and decimal digits, or
/// the text of the error where it writes none or one that is too large.
#[verifier::external_body]
fn read_port(text: &str) -> (r: Result<u16, String>)
    ensures
        r is Ok == parsed_number(text@, 10, 65535) is Some,
        r is Ok ==> r->Ok_0 == parsed_number(text@, 10, 65535)->0,
        r is Err ==> r->Err_0@ == port_error(text@),
{
    text.parse::<u16>().map_err(|e| e.to_string())
}

/// The part of a text that gives a port: what follows its last colon, or all of it.
pub open spec fn port_part(t: Seq<char>) -> Seq<char> {
    match crate::text::cut_last(t, ':') {
        Some(cut) => trimmed(cut.1),
        None => trimmed(t),
    }
}

/// The port that a text gives: the default where it is blank, else the number after its last
/// colon; or the error as shown to users.
pub open spec fn port_text(value: Seq<char>) -> Result<u16, Seq<char>> {
    let t = trimmed(value);
    if t.len() == 0 {
        Ok(crate::config::types::DEFAULT_PORT)
    } else {
        match parsed_number(port_part(t), 10, 65535) {
            Some(n) => Ok(n as u16),
            None => Err("invalid port "@ + t + ": "@ + port_error(port_part(t))),
        }
    }
}

/// Reads a port from a text such as `0.0.0.0:18765` or `18765`.
pub fn parse_port_text(value: &str) -> (r: Result<u16, String>)
    ensures
        (match r {
            Ok(port) => Ok::<u16, Seq<char>>(port),
            Err(e) => Err(e@),
        }) == port_text(value@),
{
    let t = trim(value);
    if is_blank(t.as_str()) {
        return Ok(crate::config::types::DEFAULT_PORT);
    }
    let digits = match rsplit_once(t.as_str(), ':') {
        Some(cut) => cut.1,
        None => t.clone(),
    };
    match read_port(trim(digits.as_str()).as_str()) {
        Ok(port) => Ok(port),
        Err(cause) => {
            let mut e = "invalid port ".to_string();
            e.append(t.as_str());
            e.append(": ");
            e.append(cause.as_str());
            Err(e)
        },
    }
}

/// An identifier has no white space at its ends.
pub proof fn trimming_an_id(value: Seq<char>)
    ensures
        trimmed(id_of(value)) == id_of(value),
{
    let t = trimmed(value);
    let id = id_of(value);
    if id.len() > 0 {
        assert(id[0] == id_char(t[0]));
        assert(id.last() == id_char(t.last()));
    }
    assert(trimmed(id) =~= id);
}

/// Making an identifier of an identifier changes nothing.
pub proof fn id_of_id(value: Seq<char>)
    ensures
        id_of(id_of(value)) == id_of(value),
{
    let t = trimmed(value);
    let id = id_of(value);
    assert forall|i: int| 0 <= i < id.len() implies !crate::text::is_space(#[trigger] id[i])
        && id_char(id[i]) == id[i] by {
        assert(id[i] == id_char(t[i]));
    }
    if id.len() > 0 {
        assert(!crate::text::is_space(id[0]));
        assert(!crate::text::is_space(id[id.len() - 1]));
    }
    assert(trimmed(id) =~= id);
    assert(id_of(id) =~= id);
}

} // verus!
