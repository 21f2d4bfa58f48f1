//! What this machine is called and where its configuration lies, decided from what was found out
//! about it.

use crate::ipv4::{addresses_are_trimmed, ipv4_of, parse_ipv4};
use crate::paths::{
    are_names, components, components_of, join_path, joined_path, path_text, text_of_components,
    written_paths_have_their_names_as_components,
};
use crate::text::{
    chars_of, eq_ignore_ascii_case, find_last, is_blank, joined, last_at, lemma_last_at, opt_view,
    same, same_ignoring_case, starts_with, string_of_range, trim, trimmed, views,
};
use vstd::prelude::*;

verus! {

/// The prefix of the address that faces the network, unless another is configured.
pub const DEFAULT_SUBNET: &'static str = "192.168.2.";

/// The subnet after a setting was read: a blank setting changes nothing.
pub fn configure_preferred_subnet(current: &str, subnet: &str) -> (r: String)
    ensures
        r@ == (if trimmed(subnet@).len() == 0 {
            current@
        } else {
            trimmed(subnet@)
        }),
{
    let t = trim(subnet);
    if is_blank(t.as_str()) {
        current.to_string()
    } else {
        t
    }
}

/// The address to probe for the one that faces a subnet.
pub open spec fn probe_of(subnet: Seq<char>) -> Option<(u8, u8, u8, u8)> {
    ipv4_of(subnet.push('1'))
}

/// The address to probe for the one that faces a subnet.
pub fn subnet_probe(subnet: &str) -> (r: Option<(u8, u8, u8, u8)>)
    ensures
        r == probe_of(subnet@),
{
    let mut t = subnet.to_string();
    t.push('1');
    parse_ipv4(t.as_str())
}

/// The address that peers are told: the one that faces the preferred subnet if it lies in it, else
/// the one that faces the outside, else the loopback address.
pub open spec fn advertised_address(
    subnet: Seq<char>,
    facing: Option<Seq<char>>,
    outward: Option<Seq<char>>,
) -> Seq<char> {
    if facing is Some && probe_of(subnet) is Some && subnet.is_prefix_of(facing->0) {
        facing->0
    } else if outward is Some {
        outward->0
    } else {
        "127.0.0.1"@
    }
}

/// The address that peers are told. `facing` is the local address towards the probe of the
/// preferred subnet and `outward` the one towards the internet, where they could be found.
pub fn preferred_local_host(
    subnet: &str,
    facing: &Option<String>,
    outward: &Option<String>,
) -> (r: String)
    ensures
        r@ == advertised_address(subnet@, opt_view(*facing), opt_view(*outward)),
{
    match facing {
        Some(ip) => {
            if subnet_probe(subnet).is_some() && starts_with(ip.as_str(), subnet) {
                return ip.clone();
            }
        },
        None => {},
    }
    match outward {
        Some(ip) => ip.clone(),
        None => "127.0.0.1".to_string(),
    }
}

/// The address that peers are told is not blank and has no white space at its ends, where those that
/// were found are addresses.
pub proof fn advertised_addresses_are_trimmed(
    subnet: Seq<char>,
    facing: Option<Seq<char>>,
    outward: Option<Seq<char>>,
)
    requires
        facing is Some ==> ipv4_of(facing->0) is Some,
        outward is Some ==> ipv4_of(outward->0) is Some,
    ensures
        advertised_address(subnet, facing, outward).len() > 0,
        trimmed(advertised_address(subnet, facing, outward)) == advertised_address(
            subnet,
            facing,
            outward,
        ),
{
    let r = advertised_address(subnet, facing, outward);
    if facing is Some {
        addresses_are_trimmed(facing->0);
    }
    if outward is Some {
        addresses_are_trimmed(outward->0);
    }
    reveal_strlit("127.0.0.1");
    assert(trimmed("127.0.0.1"@) =~= "127.0.0.1"@);
}

/// The first value that is not blank, trimmed.
pub open spec fn first_filled(values: Seq<Option<Seq<char>>>) -> Option<Seq<char>>
    decreases values.len(),
{
    if values.len() == 0 {
        None
    } else if values[0] is Some && trimmed(values[0]->0).len() > 0 {
        Some(trimmed(values[0]->0))
    } else {
        first_filled(values.drop_first())
    }
}

/// The models of optional texts.
pub open spec fn opt_views(values: Seq<Option<String>>) -> Seq<Option<Seq<char>>> {
    Seq::new(values.len(), |i: int| opt_view(values[i]))
}

/// The first value that is not blank, trimmed.
pub fn first_nonblank(values: &Vec<Option<String>>) -> (r: Option<String>)
    ensures
        opt_view(r) == first_filled(opt_views(values@)),
{
    let ghost vs = opt_views(values@);
    proof {
        assert(vs.skip(0) =~= vs);
    }
    for i in 0..values.len()
        invariant
            vs == opt_views(values@),
            first_filled(vs) == first_filled(vs.skip(i as int)),
    {
        proof {
            assert(vs.skip(i as int)[0] == opt_view(values@[i as int]));
            assert(vs.skip(i as int).drop_first() =~= vs.skip(i + 1));
        }
        match &values[i] {
            Some(v) => {
                let t = trim(v.as_str());
                if !is_blank(t.as_str()) {
                    return Some(t);
                }
            },
            None => {},
        }
    }
    None
}

/// The name of this host from the places where it may be found, in order of preference.
pub fn local_hostname(found: &Vec<Option<String>>) -> (r: String)
    ensures
        r@ == (match first_filled(opt_views(found@)) {
            Some(name) => name,
            None => "This machine"@,
        }),
{
    match first_nonblank(found) {
        Some(name) => name,
        None => "This machine".to_string(),
    }
}

/// The larger of two numbers.
pub open spec fn larger(a: int, b: int) -> int {
    if a >= b {
        a
    } else {
        b
    }
}

/// The user in the output of `whoami`: what follows the last slash or backslash, trimmed; none
/// where that is blank.
pub open spec fn user_in(output: Seq<char>) -> Option<Seq<char>> {
    let t = trimmed(output);
    let cut = larger(last_at(t, '\\'), last_at(t, '/')) + 1;
    let user = trimmed(t.skip(cut));
    if user.len() == 0 {
        None
    } else {
        Some(user)
    }
}

/// The user in the output of `whoami`.
pub fn whoami_user(output: &str) -> (r: Option<String>)
    ensures
        opt_view(r) == user_in(output@),
{
    let t = trim(output);
    let chars = chars_of(t.as_str());
    proof {
        lemma_last_at(t@, '\\');
        lemma_last_at(t@, '/');
    }
    let a: usize = match find_last(&chars, '\\') {
        Some(i) => i + 1,
        None => 0,
    };
    let b: usize = match find_last(&chars, '/') {
        Some(i) => i + 1,
        None => 0,
    };
    let cut: usize = if a >= b {
        a
    } else {
        b
    };
    let user = trim(string_of_range(&chars, cut, chars.len()).as_str());
    if is_blank(user.as_str()) {
        None
    } else {
        Some(user)
    }
}

/// The directory that holds a path, where it has one.
pub open spec fn parent(p: Seq<char>) -> Option<Seq<char>> {
    let c = components(p);
    if c.len() == 0 || (c.len() == 1 && c[0] == seq!['/']) {
        None
    } else {
        Some(path_text(c.drop_last()))
    }
}

/// The directory that holds a path, where it has one.
pub fn parent_of(p: &str) -> (r: Option<String>)
    ensures
        opt_view(r) == parent(p@),
{
    let mut c = components_of(p);
    let ghost all = views(c@);
    let n: usize = c.len();
    proof {
        reveal_strlit("/");
        assert("/"@ =~= seq!['/']);
        if n > 0 {
            assert(all[0] == c@[0]@);
        }
    }
    if n == 0 || (n == 1 && same(c[0].as_str(), "/")) {
        return None;
    }
    c.pop();
    proof {
        assert(views(c@) =~= all.drop_last());
    }
    Some(text_of_components(&c))
}

/// The places where the configuration is looked for: under the current directory, beside the
/// directory of the program, and in it.
pub open spec fn config_places(exe: Option<Seq<char>>) -> Seq<Seq<char>> {
    let file = "conf/auto_sync.toml"@;
    let here = seq![file];
    match exe {
        None => here,
        Some(e) => match parent(e) {
            None => here,
            Some(dir) => (match parent(dir) {
                Some(up) => here.push(joined_path(up, file)),
                None => here,
            }).push(joined_path(dir, file)),
        },
    }
}

/// The places where the configuration is looked for.
pub fn config_candidates(exe: &Option<String>) -> (out: Vec<String>)
    ensures
        views(out@) == config_places(opt_view(*exe)),
        out.len() >= 1,
{
    let file = "conf/auto_sync.toml";
    let mut out: Vec<String> = Vec::new();
    out.push(file.to_string());
    proof {
        assert(views(out@) =~= seq![file@]);
    }
    match exe {
        Some(e) => {
            match parent_of(e.as_str()) {
                Some(dir) => {
                    match parent_of(dir.as_str()) {
                        Some(up) => {
                            let p = join_path(up.as_str(), file);
                            let ghost was = views(out@);
                            let ghost pv = p@;
                            out.push(p);
                            proof {
                                assert(views(out@) =~= was.push(pv));
                            }
                        },
                        None => {},
                    }
                    let p = join_path(dir.as_str(), file);
                    let ghost was = views(out@);
                    let ghost pv = p@;
                    out.push(p);
                    proof {
                        assert(views(out@) =~= was.push(pv));
                    }
                },
                None => {},
            }
        },
        None => {},
    }
    out
}

/// The first place that exists, or the first place where none does.
pub open spec fn first_existing(places: Seq<Seq<char>>, exists_at: Seq<bool>, i: int) -> Seq<char>
    decreases places.len() - i,
{
    if i < 0 || i >= places.len() || i >= exists_at.len() {
        places[0]
    } else if exists_at[i] {
        places[i]
    } else {
        first_existing(places, exists_at, i + 1)
    }
}

/// Which configuration file is used: the one that was asked for, else the first candidate that
/// exists, else the first candidate. `exists_at` tells which candidates exist.
pub fn resolve_config_path(
    asked: Option<&str>,
    candidates: &Vec<String>,
    exists_at: &Vec<bool>,
) -> (r: String)
    requires
        candidates.len() >= 1,
        exists_at.len() == candidates.len(),
    ensures
        r@ == (match asked {
            Some(p) => p@,
            None => first_existing(views(candidates@), exists_at@, 0),
        }),
{
    match asked {
        Some(p) => {
            return p.to_string();
        },
        None => {},
    }
    let ghost ps = views(candidates@);
    for i in 0..candidates.len()
        invariant
            asked is None,
            ps == views(candidates@),
            exists_at.len() == candidates.len() >= 1,
            first_existing(ps, exists_at@, 0) == first_existing(ps, exists_at@, i as int),
    {
        if exists_at[i] {
            return candidates[i].clone();
        }
    }
    candidates[0].clone()
}

/// Where the desktop program looks for the configuration: in the installation that it is part of,
/// which is above a directory of programs.
pub open spec fn gui_config_path(exe: Option<Seq<char>>) -> Seq<char> {
    let dir = match exe {
        Some(e) => parent(e),
        None => None,
    };
    match dir {
        Some(d) => {
            let c = components(d);
            let install = if c.len() > 0 && same_ignoring_case(c.last(), "bin"@) && parent(
                d,
            ) is Some {
                parent(d)->0
            } else {
                d
            };
            joined_path(joined_path(install, "conf"@), "auto_sync.toml"@)
        },
        None => "conf/auto_sync.toml"@,
    }
}

/// Where the desktop program looks for the configuration.
pub fn default_gui_config_path(exe: &Option<String>) -> (r: String)
    ensures
        r@ == gui_config_path(opt_view(*exe)),
{
    let dir = match exe {
        Some(e) => parent_of(e.as_str()),
        None => None,
    };
    match dir {
        Some(d) => {
            let c = components_of(d.as_str());
            let ghost cv = components(d@);
            proof {
                assert(cv == views(c@));
                assert(cv.len() == c.len());
                if c.len() > 0 {
                    assert(cv.last() == c@[c.len() - 1]@);
                }
            }
            let mut install = d.clone();
            if c.len() > 0 && eq_ignore_ascii_case(c[c.len() - 1].as_str(), "bin") {
                match parent_of(d.as_str()) {
                    Some(above) => {
                        install = above;
                    },
                    None => {},
                }
            }
            join_path(join_path(install.as_str(), "conf").as_str(), "auto_sync.toml")
        },
        None => "conf/auto_sync.toml".to_string(),
    }
}

/// The directory that holds a path with several names has all of these names but the last; that of
/// a path with one name is the root.
pub proof fn directories_hold_their_paths(parts: Seq<Seq<char>>)
    requires
        parts.len() > 0,
        are_names(parts),
    ensures
        parent(seq!['/'] + joined(parts, seq!['/'])) == Some(
            seq!['/'] + joined(parts.drop_last(), seq!['/']),
        ),
{
    written_paths_have_their_names_as_components(parts);
    let c = seq![seq!['/']] + parts;
    assert(c.drop_last() =~= seq![seq!['/']] + parts.drop_last());
    assert(c.drop_last().drop_first() =~= parts.drop_last());
}

/// The first place that exists is used, and the first of all where none does.
pub proof fn the_first_place_that_exists_is_used(
    places: Seq<Seq<char>>,
    exists_at: Seq<bool>,
    from: int,
    i: int,
)
    requires
        0 <= from <= i <= places.len(),
        places.len() == exists_at.len(),
        places.len() > 0,
        forall|j: int| from <= j < i ==> !#[trigger] exists_at[j],
        i < places.len() ==> exists_at[i],
    ensures
        first_existing(places, exists_at, from) == (if i < places.len() {
            places[i]
        } else {
            places[0]
        }),
    decreases i - from,
{
    if from < i {
        the_first_place_that_exists_is_used(places, exists_at, from + 1, i);
    }
}

/// The user behind the name of a domain is found.
pub proof fn users_of_domains_are_found(output: Seq<char>, domain: Seq<char>, user: Seq<char>)
    requires
        trimmed(output) == domain.push('\\') + user,
        trimmed(user) == user,
        user.len() > 0,
        !user.contains('\\'),
        !user.contains('/'),
        !domain.contains('/'),
    ensures
        user_in(output) == Some(user),
{
    let t = trimmed(output);
    lemma_last_at(t, '\\');
    lemma_last_at(t, '/');
    let n = domain.len() as int;
    assert(t[n] == '\\');
    assert forall|j: int| n < j < t.len() implies t[j] != '\\' && t[j] != '/' by {
        assert(t[j] == user[j - n - 1]);
        assert(user.contains(user[j - n - 1]));
    }
    assert(last_at(t, '\\') == n);
    assert(last_at(t, '/') < n) by {
        let k = last_at(t, '/');
        if k >= n {
            assert(t[k] == '/');
        }
    }
    assert(t.skip(n + 1) =~= user);
}

/// The value that is taken is the first one that says something, without the white space around it.
pub proof fn the_first_filled_value_is_taken(values: Seq<Option<Seq<char>>>, i: int)
    requires
        0 <= i < values.len(),
        values[i] is Some,
        trimmed(values[i]->0).len() > 0,
        forall|j: int|
            0 <= j < i ==> ((#[trigger] values[j]) is None || trimmed(values[j]->0).len() == 0),
    ensures
        first_filled(values) == Some(trimmed(values[i]->0)),
    decreases i,
{
    if i > 0 {
        assert(values[0] is None || trimmed(values[0]->0).len() == 0);
        let t = values.drop_first();
        assert(t[i - 1] == values[i]);
        assert forall|j: int| 0 <= j < i - 1 implies ((#[trigger] t[j]) is None || trimmed(
            t[j]->0,
        ).len() == 0) by {
            assert(t[j] == values[j + 1]);
        }
        the_first_filled_value_is_taken(t, i - 1);
    }
}

} // verus!
