//! Deploying to a host: the environment of its deploy script, and the one configuration file that
//! is adapted on the way.

use crate::collector::pull::{finished_run, label_of, logged, CollectorRunState};
use crate::collector::remote::{conn_of, dest_of, expand_tilde, tilde_expanded, SshConn};
use crate::config::identity::{is_alphanumeric, is_ascii_alphanumeric};
use crate::config::types::{CollectorHost, CollectorHostModel};
use crate::paths::{join_path, joined_path};
use crate::text::{
    chars_of, decimal, decimal_text, decimal_text_is_injective, eq_ignore_ascii_case, is_blank,
    join, joined, lemma_decimal_digits, lowered, opt_view, parse_number, parsed_number, same,
    same_ignoring_case, split, split_parts, trim, trimmed, views,
};
use vstd::prelude::*;

verus! {

/// A JSON document.
#[verifier::external_type_specification]
#[verifier::external_body]
pub struct ExValue(serde_json::Value);

/// The text that `serde_json::to_string_pretty` makes of a document.
pub uninterp spec fn json_text(v: serde_json::Value) -> Seq<char>;

/// The text that `serde_json::to_string_pretty` makes of the document that `serde_json::from_str`
/// reads, where it reads one.
pub uninterp spec fn parsed_json(text: Seq<char>) -> Option<Seq<char>>;

/// The text that stands at a JSON pointer in a document, given by its text: what
/// `serde_json::Value::pointer` finds there, where that is a text.
pub uninterp spec fn text_in(json: Seq<char>, pointer: Seq<char>) -> Option<Seq<char>>;

/// How many entries the array at a JSON pointer in a document, given by its text, has: what
/// `serde_json::Value::pointer` finds there, where that is an array.
pub uninterp spec fn array_len_in(json: Seq<char>, pointer: Seq<char>) -> Option<usize>;

/// The text of a document, given by its text, after what `serde_json::Value::pointer_mut` finds at
/// a JSON pointer was replaced by a text.
pub uninterp spec fn with_text(json: Seq<char>, pointer: Seq<char>, text: Seq<char>) -> Seq<char>;

/// `serde_json::from_str`: the document that a text holds, where it holds one.
#[verifier::external_body]
pub(crate) fn parse_json(text: &str) -> (r: Option<serde_json::Value>)
    ensures
        (match r {
            Some(v) => Some(json_text(v)),
            None => None,
        }) == parsed_json(text@),
{
    serde_json::from_str(text).ok()
}

/// `serde_json::Value::pointer` and `as_str`: the text that stands at a pointer, where one does.
#[verifier::external_body]
pub(crate) fn text_at(v: &serde_json::Value, pointer: &str) -> (r: Option<String>)
    ensures
        opt_view(r) == text_in(json_text(*v), pointer@),
{
    v.pointer(pointer).and_then(|t| t.as_str()).map(|t| t.to_string())
}

/// `serde_json::Value::pointer` and `as_array`: how many entries the array at a pointer has, where
/// one stands there.
#[verifier::external_body]
pub(crate) fn array_len_at(v: &serde_json::Value, pointer: &str) -> (r: Option<usize>)
    ensures
        r == array_len_in(json_text(*v), pointer@),
{
    v.pointer(pointer).and_then(|a| a.as_array()).map(|a| a.len())
}

/// Whether two documents differ in the text at one pointer at most: arrays keep their lengths, and
/// pointers without escapes that are written otherwise lead to the same texts.
pub open spec fn differ_at(before: Seq<char>, after: Seq<char>, pointer: Seq<char>) -> bool {
    &&& forall|p: Seq<char>| #[trigger] array_len_in(after, p) == array_len_in(before, p)
    &&& forall|p: Seq<char>|
        p != pointer && !p.contains('~') ==> #[trigger] text_in(after, p) == text_in(before, p)
}

/// `serde_json::Value::pointer_mut`: replaces the text that stands at a pointer. That text is then
/// found there; where the pointer has no escapes, other such pointers lead where they led.
#[verifier::external_body]
pub(crate) fn set_text_at(v: &mut serde_json::Value, pointer: &str, text: &str)
    requires
        text_in(json_text(*old(v)), pointer@) is Some,
        !pointer@.contains('~'),
    ensures
        json_text(*final(v)) == with_text(json_text(*old(v)), pointer@, text@),
        text_in(json_text(*final(v)), pointer@) == Some(text@),
        differ_at(json_text(*old(v)), json_text(*final(v)), pointer@),
{
    if let Some(place) = v.pointer_mut(pointer) {
        *place = serde_json::Value::String(text.to_string());
    }
}

/// The pointer to the `server` of an entry of the `servers` array.
pub open spec fn server_pointer(i: int) -> Seq<char> {
    "/servers/"@ + decimal_text(i as nat) + "/server"@
}

/// How many entries the `servers` array of a document has; none where there is no such array.
pub open spec fn server_count(json: Seq<char>) -> nat {
    match array_len_in(json, "/servers"@) {
        Some(n) => n as nat,
        None => 0,
    }
}

/// The `server` texts of the entries of the `servers` array of a document, given by its text: none
/// for an entry without such a text.
pub open spec fn server_texts(json: Seq<char>) -> Seq<Option<Seq<char>>> {
    Seq::new(server_count(json), |i: int| text_in(json, server_pointer(i)))
}

/// The pointer to the `server` of an entry of the `servers` array.
fn pointer_to_server(i: usize) -> (r: String)
    ensures
        r@ == server_pointer(i as int),
        !r@.contains('~'),
{
    let mut r = "/servers/".to_string();
    r.append(decimal(i as u64).as_str());
    r.append("/server");
    proof {
        lemma_server_pointer(i as int);
    }
    r
}

/// Pointers to the entries of an array have no escapes.
proof fn lemma_server_pointer(i: int)
    requires
        0 <= i,
    ensures
        !server_pointer(i).contains('~'),
{
    let p = server_pointer(i);
    let digits = decimal_text(i as nat);
    reveal_strlit("/servers/");
    reveal_strlit("/server");
    lemma_decimal_digits(i as nat);
    assert forall|k: int| 0 <= k < p.len() implies p[k] != '~' by {
        if k >= 9 && k < 9 + digits.len() {
            assert(p[k] == digits[k - 9]);
        }
    }
}

/// Different entries have different pointers.
proof fn lemma_server_pointers_differ(i: int, j: int)
    requires
        0 <= i,
        0 <= j,
        i != j,
    ensures
        server_pointer(i) != server_pointer(j),
{
    if server_pointer(i) == server_pointer(j) {
        let a = decimal_text(i as nat);
        let b = decimal_text(j as nat);
        reveal_strlit("/servers/");
        reveal_strlit("/server");
        assert(a.len() == b.len()) by {
            assert(server_pointer(i).len() == 9 + a.len() + 7);
            assert(server_pointer(j).len() == 9 + b.len() + 7);
        }
        assert(a =~= b) by {
            assert forall|k: int| 0 <= k < a.len() implies a[k] == b[k] by {
                assert(server_pointer(i)[9 + k] == a[k]);
                assert(server_pointer(j)[9 + k] == b[k]);
            }
        }
        decimal_text_is_injective(i as nat, j as nat);
    }
}

/// A document in which the `server` of an entry was set has the other entries as before.
proof fn lemma_server_set(before: Seq<char>, after: Seq<char>, i: int, server: Seq<char>)
    requires
        0 <= i < server_count(before),
        text_in(after, server_pointer(i)) == Some(server),
        differ_at(before, after, server_pointer(i)),
    ensures
        server_texts(after) == server_texts(before).update(i, Some(server)),
{
    assert(server_count(after) == server_count(before));
    assert forall|j: int| 0 <= j < server_count(before) && j != i implies text_in(
        after,
        server_pointer(j),
    ) == text_in(before, server_pointer(j)) by {
        lemma_server_pointers_differ(i, j);
        lemma_server_pointer(j);
    }
    assert(server_texts(after) =~= server_texts(before).update(i, Some(server)));
}

/// `serde_json::to_string_pretty`: the text of a document. Writing a document does not fail: its
/// keys are texts, its numbers are finite or written as null, and the text it is written to takes
/// everything.
#[verifier::external_body]
pub(crate) fn json_pretty(v: &serde_json::Value) -> (r: String)
    ensures
        r@ == json_text(*v),
{
    serde_json::to_string_pretty(v).unwrap_or_default()
}

/// Whether a text is one to three digits with a value of at most 255.
pub open spec fn loose_octet(p: Seq<char>) -> bool {
    0 < p.len() <= 3 && p[0] != '+' && parsed_number(p, 10, 255) is Some
}

/// Whether a text looks like a dotted IPv4 address; leading zeros are let through.
pub open spec fn looks_v4(s: Seq<char>) -> bool {
    let parts = split_parts(trimmed(s), '.');
    parts.len() == 4 && forall|i: int| 0 <= i < 4 ==> loose_octet(#[trigger] parts[i])
}

/// Whether a text looks like an IPv6 address: not like an IPv4 one, and with a colon.
pub open spec fn looks_v6(s: Seq<char>) -> bool {
    !looks_v4(s) && s.contains(':')
}

/// Whether a text looks like a dotted IPv4 address.
pub fn is_ipv4(s: &str) -> (r: bool)
    ensures
        r == looks_v4(s@),
{
    let parts = split(trim(s).as_str(), '.');
    let ghost ps = views(parts@);
    if parts.len() != 4 {
        return false;
    }
    for i in 0..parts.len()
        invariant
            ps == views(parts@),
            parts.len() == 4,
            ps == split_parts(trimmed(s@), '.'),
            forall|j: int| 0 <= j < i ==> loose_octet(#[trigger] ps[j]),
    {
        let chars = chars_of(parts[i].as_str());
        proof {
            assert(ps[i as int] == parts@[i as int]@);
        }
        if chars.len() == 0 || chars.len() > 3 || chars[0] == '+' || parse_number(
            parts[i].as_str(),
            10,
            255,
        ).is_none() {
            proof {
                assert(!loose_octet(ps[i as int]));
            }
            return false;
        }
    }
    true
}

/// Whether a text looks like an IPv6 address.
fn is_ipv6(s: &str) -> (r: bool)
    ensures
        r == looks_v6(s@),
{
    let chars = chars_of(s);
    let i = crate::text::find_first(&chars, ':');
    proof {
        crate::text::lemma_first_at(s@, ':');
    }
    !is_ipv4(s) && i < chars.len()
}

/// Whether two addresses are of the same family.
pub open spec fn same_family(server: Seq<char>, current: Seq<char>) -> bool {
    (looks_v4(server) && looks_v4(current)) || (looks_v6(server) && looks_v6(current))
}

/// A document after the entries up to index `i` were adapted: those of the family of the new
/// server are set to it.
pub open spec fn adapted(json: Seq<char>, server: Seq<char>, i: int) -> Seq<char>
    decreases i,
{
    if i <= 0 {
        json
    } else {
        let before = adapted(json, server, i - 1);
        match server_texts(json)[i - 1] {
            Some(current) => if same_family(server, current) && current != server {
                with_text(before, server_pointer(i - 1), server)
            } else {
                before
            },
            None => before,
        }
    }
}

/// Whether an entry of the document is of the family of the new server.
pub open spec fn has_family(json: Seq<char>, server: Seq<char>) -> bool {
    exists|i: int|
        0 <= i < server_texts(json).len() && (#[trigger] server_texts(json)[i]) is Some
            && same_family(server, server_texts(json)[i]->0)
}

/// Why a configuration file was not adapted.
#[derive(Debug)]
pub enum SubstituteError {
    /// The new server is no address; holds it.
    NoAddress(String),
    /// The file is no JSON.
    NotJson,
    /// The file has no entry of the family, which is IPv4 if so marked.
    NoEntry(bool),
}

/// The model of a `SubstituteError`.
pub enum SubstituteErrorModel {
    NoAddress(Seq<char>),
    NotJson,
    NoEntry(bool),
}

impl View for SubstituteError {
    type V = SubstituteErrorModel;

    open spec fn view(&self) -> SubstituteErrorModel {
        match self {
            SubstituteError::NoAddress(s) => SubstituteErrorModel::NoAddress(s@),
            SubstituteError::NotJson => SubstituteErrorModel::NotJson,
            SubstituteError::NoEntry(v4) => SubstituteErrorModel::NoEntry(*v4),
        }
    }
}

/// An error as shown to users.
pub open spec fn substitute_error_text(e: SubstituteErrorModel) -> Seq<char> {
    match e {
        SubstituteErrorModel::NoAddress(s) => "aws hostname '"@ + s
            + "' is neither IPv4 nor IPv6; not substituting"@,
        SubstituteErrorModel::NotJson => "parsing shadowsocks client json"@,
        SubstituteErrorModel::NoEntry(v4) => "no "@ + (if v4 {
            "IPv4"@
        } else {
            "IPv6"@
        }) + " server entry found in the shadowsocks config"@,
    }
}

impl SubstituteError {
    /// The error as shown to users.
    pub fn message(&self) -> (r: String)
        ensures
            r@ == substitute_error_text(self@),
    {
        match self {
            SubstituteError::NoAddress(s) => {
                let mut r = "aws hostname '".to_string();
                r.append(s.as_str());
                r.append("' is neither IPv4 nor IPv6; not substituting");
                r
            },
            SubstituteError::NotJson => "parsing shadowsocks client json".to_string(),
            SubstituteError::NoEntry(v4) => {
                let mut r = "no ".to_string();
                r.append(
                    if *v4 {
                        "IPv4"
                    } else {
                        "IPv6"
                    },
                );
                r.append(" server entry found in the shadowsocks config");
                r
            },
        }
    }
}

/// The entries that an adapted document has: those of the family of the new server hold it, all
/// others are as they were.
pub open spec fn adapted_entry(server: Seq<char>, entry: Option<Seq<char>>) -> Option<Seq<char>> {
    match entry {
        Some(current) => if same_family(server, current) {
            Some(server)
        } else {
            entry
        },
        None => entry,
    }
}

/// Whether a pointer leads to the `server` of an entry of a `servers` array with so many entries.
pub open spec fn leads_to_server(pointer: Seq<char>, count: nat) -> bool {
    exists|i: int| 0 <= i < count && pointer == #[trigger] server_pointer(i)
}

/// Whether a document differs from another in what the entries of the family of the new server say:
/// they name it. All other entries, all other texts and the lengths of all arrays are as they were.
pub open spec fn entries_adapted(before: Seq<char>, after: Seq<char>, server: Seq<char>) -> bool {
    &&& server_count(after) == server_count(before)
    &&& forall|i: int|
        0 <= i < server_count(before) ==> (#[trigger] server_texts(after)[i]) == adapted_entry(
            server,
            server_texts(before)[i],
        )
    &&& others_kept(before, after)
}

/// Whether two documents differ in the `server` texts of their entries at most.
pub open spec fn others_kept(before: Seq<char>, after: Seq<char>) -> bool {
    &&& forall|p: Seq<char>| #[trigger] array_len_in(after, p) == array_len_in(before, p)
    &&& forall|p: Seq<char>|
        !p.contains('~') && !leads_to_server(p, server_count(before)) ==> #[trigger] text_in(after, p)
            == text_in(before, p)
}

/// Sets the entries of a document that are of the family of the new server, and says whether there
/// are any.
pub fn adapt_document(v: &mut serde_json::Value, server: &str) -> (found: bool)
    ensures
        found == has_family(json_text(*old(v)), server@),
        json_text(*final(v)) == adapted(
            json_text(*old(v)),
            server@,
            server_texts(json_text(*old(v))).len() as int,
        ),
        entries_adapted(json_text(*old(v)), json_text(*final(v)), server@),
{
    let ghost json = json_text(*v);
    let ghost texts = server_texts(json);
    let n: usize = match array_len_at(v, "/servers") {
        Some(n) => n,
        None => 0,
    };
    let v4 = is_ipv4(server);
    let v6 = is_ipv6(server);
    let mut found: bool = false;
    for i in 0..n
        invariant
            json == json_text(*old(v)),
            texts == server_texts(json),
            n == texts.len(),
            v4 == looks_v4(server@),
            v6 == looks_v6(server@),
            json_text(*v) == adapted(json, server@, i as int),
            server_texts(json_text(*v)).len() == n,
            others_kept(json, json_text(*v)),
            forall|j: int| i <= j < n ==> (#[trigger] server_texts(json_text(*v))[j]) == texts[j],
            forall|j: int|
                0 <= j < i ==> (#[trigger] server_texts(json_text(*v))[j]) == adapted_entry(
                    server@,
                    texts[j],
                ),
            found == (exists|j: int|
                0 <= j < i && (#[trigger] texts[j]) is Some && same_family(server@, texts[j]->0)),
    {
        let pointer = pointer_to_server(i);
        proof {
            assert(server_texts(json_text(*v))[i as int] == text_in(json_text(*v), pointer@));
        }
        match text_at(v, pointer.as_str()) {
            Some(current) => {
                proof {
                    assert(texts[i as int] == Some(current@));
                }
                let matching = (v4 && is_ipv4(current.as_str())) || (v6 && is_ipv6(
                    current.as_str(),
                ));
                if matching {
                    found = true;
                    if !same(current.as_str(), server) {
                        let ghost before = json_text(*v);
                        set_text_at(v, pointer.as_str(), server);
                        proof {
                            lemma_server_set(before, json_text(*v), i as int, server@);
                            assert(leads_to_server(pointer@, server_count(json)));
                        }
                    }
                }
            },
            None => {
                proof {
                    assert(texts[i as int] is None);
                }
            },
        }
    }
    found
}

/// A client configuration in which the entry of the address family of the new server names it.
pub open spec fn substituted(conf: Seq<char>, new_server: Seq<char>) -> Result<
    Seq<char>,
    SubstituteErrorModel,
> {
    let server = trimmed(new_server);
    let parsed = parsed_json(conf);
    if !looks_v4(server) && !looks_v6(server) {
        Err(SubstituteErrorModel::NoAddress(server))
    } else if parsed is None {
        Err(SubstituteErrorModel::NotJson)
    } else if !has_family(parsed->0, server) {
        Err(SubstituteErrorModel::NoEntry(looks_v4(server)))
    } else {
        Ok(adapted(parsed->0, server, server_texts(parsed->0).len() as int))
    }
}

/// Rewrites a client configuration so that the entry of the address family of the new server names
/// it.
pub fn substitute_ss_server(conf_text: &str, new_server: &str) -> (r: Result<
    String,
    SubstituteError,
>)
    ensures
        (match r {
            Ok(t) => Ok(t@),
            Err(e) => Err(e@),
        }) == substituted(conf_text@, new_server@),
        r is Ok ==> parsed_json(conf_text@) is Some && entries_adapted(
            parsed_json(conf_text@)->0,
            r->Ok_0@,
            trimmed(new_server@),
        ),
{
    let server = trim(new_server);
    let v4 = is_ipv4(server.as_str());
    if !v4 && !is_ipv6(server.as_str()) {
        return Err(SubstituteError::NoAddress(server));
    }
    match parse_json(conf_text) {
        None => Err(SubstituteError::NotJson),
        Some(doc) => {
            let mut doc = doc;
            if !adapt_document(&mut doc, server.as_str()) {
                return Err(SubstituteError::NoEntry(v4));
            }
            Ok(json_pretty(&doc))
        },
    }
}

/// The upper case of a letter or digit; anything else becomes `_`.
pub open spec fn env_char(c: char) -> char {
    if is_alphanumeric(c) {
        crate::collector::names::upper_char(c)
    } else {
        '_'
    }
}

/// A name as the suffix of an environment variable.
pub open spec fn env_suffix(name: Seq<char>) -> Seq<char> {
    if trimmed(name).len() == 0 {
        "_"@
    } else {
        trimmed(name).map_values(|c: char| env_char(c))
    }
}

/// The name as the suffix of an environment variable.
pub fn env_host_suffix(name: &str) -> (r: String)
    ensures
        r@ == env_suffix(name@),
{
    let chars = chars_of(trim(name).as_str());
    if chars.len() == 0 {
        return "_".to_string();
    }
    let mut r = String::new();
    for i in 0..chars.len()
        invariant
            r@ == chars@.take(i as int).map_values(|c: char| env_char(c)),
    {
        let c = chars[i];
        if is_ascii_alphanumeric(c) {
            r.push(crate::collector::names::uppercase_char(c));
        } else {
            r.push('_');
        }
        proof {
            assert(chars@.take(i + 1) =~= chars@.take(i as int).push(c));
            assert(r@ =~= chars@.take(i + 1).map_values(|c: char| env_char(c)));
        }
    }
    proof {
        assert(chars@.take(chars@.len() as int) =~= chars@);
    }
    r
}

/// A variable of an environment.
#[derive(Debug)]
pub struct EnvVar {
    pub name: String,
    pub value: String,
}

impl View for EnvVar {
    type V = (Seq<char>, Seq<char>);

    open spec fn view(&self) -> (Seq<char>, Seq<char>) {
        (self.name@, self.value@)
    }
}

/// The variables that name the addresses of all hosts, from the first on.
pub open spec fn host_vars(hosts: Seq<CollectorHostModel>) -> Seq<(Seq<char>, Seq<char>)>
    decreases hosts.len(),
{
    if hosts.len() == 0 {
        Seq::empty()
    } else {
        host_vars(hosts.drop_last()).push(
            ("AS_HOST_"@ + env_suffix(hosts.last().name), trimmed(hosts.last().hostname)),
        )
    }
}

/// The variable of a file, where there is such a file.
pub open spec fn file_var(name: Seq<char>, file: Option<Seq<char>>) -> Seq<(Seq<char>, Seq<char>)> {
    match file {
        Some(f) => seq![(name, f)],
        None => Seq::empty(),
    }
}

/// The tools and files that a deploy script is told of.
pub struct DeployToolsModel {
    pub ssh: Seq<char>,
    pub scp: Seq<char>,
    pub home: Seq<char>,
    pub perms_file: Option<Seq<char>>,
    pub ss_conf: Option<Seq<char>>,
}

/// The environment of a deploy script: how the host is reached, what was collected from it, where
/// all hosts are, and the files that were prepared.
pub open spec fn deploy_vars(
    h: CollectorHostModel,
    hosts: Seq<CollectorHostModel>,
    t: DeployToolsModel,
) -> Seq<(Seq<char>, Seq<char>)> {
    let c = conn_of(h);
    seq![
        ("AS_SSH"@, t.ssh),
        ("AS_SCP"@, t.scp),
        ("AS_HOSTNAME"@, c.hostname),
        ("AS_USER"@, c.user),
        ("AS_DEST"@, dest_of(c)),
        (
            "AS_PORT"@,
            if c.port == 0 {
                Seq::empty()
            } else {
                decimal_text(c.port as nat)
            },
        ),
        (
            "AS_KEY"@,
            if c.identity_file.len() == 0 {
                Seq::empty()
            } else {
                tilde_expanded(c.identity_file, t.home)
            },
        ),
    ] + (if trimmed(h.password).len() > 0 {
        seq![("AS_PASSWORD"@, trimmed(h.password))]
    } else {
        Seq::empty()
    }) + seq![
        ("AS_ROOT"@, h.root),
        ("AS_COLLECT_PATHS"@, joined(h.paths, "\n"@)),
        ("AS_EXCLUDE_PATHS"@, joined(h.exclude, "\n"@)),
    ] + host_vars(hosts) + file_var("AS_PERMS_FILE"@, t.perms_file) + file_var(
        "AS_SS_CLIENT_CONF"@,
        t.ss_conf,
    )
}

/// The tools and files that a deploy script is told of.
#[derive(Debug)]
pub struct DeployTools {
    pub ssh: String,
    pub scp: String,
    /// The home directory, empty where it is unknown.
    pub home: String,
    pub perms_file: Option<String>,
    pub ss_conf: Option<String>,
}

impl View for DeployTools {
    type V = DeployToolsModel;

    open spec fn view(&self) -> DeployToolsModel {
        DeployToolsModel {
            ssh: self.ssh@,
            scp: self.scp@,
            home: self.home@,
            perms_file: opt_view(self.perms_file),
            ss_conf: opt_view(self.ss_conf),
        }
    }
}

/// Adds a variable.
fn add_var(out: &mut Vec<EnvVar>, name: &str, value: String)
    ensures
        views(final(out)@) == views(old(out)@).push((name@, value@)),
{
    let var = EnvVar { name: name.to_string(), value };
    let ghost vv = var@;
    out.push(var);
    proof {
        assert(views(out@) =~= views(old(out)@).push(vv));
    }
}

/// Adds the variables that name the addresses of all hosts.
fn add_host_vars(out: &mut Vec<EnvVar>, hosts: &Vec<CollectorHost>)
    ensures
        views(final(out)@) == views(old(out)@) + host_vars(views(hosts@)),
{
    let ghost hs = views(hosts@);
    let ghost start = views(out@);
    proof {
        assert(start + host_vars(hs.take(0)) =~= start);
    }
    for i in 0..hosts.len()
        invariant
            hs == views(hosts@),
            views(out@) == start + host_vars(hs.take(i as int)),
    {
        proof {
            assert(hs.take(i + 1).drop_last() =~= hs.take(i as int));
            assert(hs.take(i + 1).last() == hosts@[i as int]@);
        }
        let mut name = "AS_HOST_".to_string();
        name.append(env_host_suffix(hosts[i].name.as_str()).as_str());
        add_var(out, name.as_str(), trim(hosts[i].hostname.as_str()));
        proof {
            assert(views(out@) =~= start + host_vars(hs.take(i + 1)));
        }
    }
    proof {
        assert(hs.take(hs.len() as int) =~= hs);
    }
}

/// The environment of a deploy script.
pub fn deploy_env(host: &CollectorHost, all_hosts: &Vec<CollectorHost>, tools: &DeployTools) -> (out:
    Vec<EnvVar>)
    ensures
        views(out@) == deploy_vars(host@, views(all_hosts@), tools@),
{
    let conn = SshConn::from_host(host);
    let mut out: Vec<EnvVar> = Vec::new();
    add_var(&mut out, "AS_SSH", tools.ssh.clone());
    add_var(&mut out, "AS_SCP", tools.scp.clone());
    add_var(&mut out, "AS_HOSTNAME", conn.hostname.clone());
    add_var(&mut out, "AS_USER", conn.user.clone());
    add_var(&mut out, "AS_DEST", conn.dest());
    let port: String = if conn.port == 0 {
        String::new()
    } else {
        decimal(conn.port as u64)
    };
    let ghost pv = port@;
    proof {
        if conn.port == 0 {
            assert(pv =~= Seq::<char>::empty());
        }
    }
    add_var(&mut out, "AS_PORT", port);
    let key: String = if is_blank(conn.identity_file.as_str()) {
        String::new()
    } else {
        expand_tilde(conn.identity_file.as_str(), tools.home.as_str())
    };
    let ghost kv = key@;
    proof {
        if conn.identity_file@.len() == 0 {
            assert(kv =~= Seq::<char>::empty());
        }
    }
    add_var(&mut out, "AS_KEY", key);
    let ghost first = views(out@);
    proof {
        assert(first =~= seq![
            ("AS_SSH"@, tools.ssh@),
            ("AS_SCP"@, tools.scp@),
            ("AS_HOSTNAME"@, conn.hostname@),
            ("AS_USER"@, conn.user@),
            ("AS_DEST"@, dest_of(conn@)),
            ("AS_PORT"@, pv),
            ("AS_KEY"@, kv),
        ]);
    }
    let password = trim(host.password.as_str());
    if !is_blank(password.as_str()) {
        let ghost pw = password@;
        add_var(&mut out, "AS_PASSWORD", password);
        proof {
            assert(views(out@) =~= first + seq![("AS_PASSWORD"@, pw)]);
        }
    } else {
        proof {
            assert(views(out@) =~= first + Seq::<(Seq<char>, Seq<char>)>::empty());
        }
    }
    let ghost second = views(out@);
    add_var(&mut out, "AS_ROOT", host.root.clone());
    add_var(&mut out, "AS_COLLECT_PATHS", join(&host.paths, "\n"));
    add_var(&mut out, "AS_EXCLUDE_PATHS", join(&host.exclude, "\n"));
    proof {
        assert(views(out@) =~= second + seq![
            ("AS_ROOT"@, host@.root),
            ("AS_COLLECT_PATHS"@, joined(host@.paths, "\n"@)),
            ("AS_EXCLUDE_PATHS"@, joined(host@.exclude, "\n"@)),
        ]);
    }
    add_host_vars(&mut out, all_hosts);
    let ghost third = views(out@);
    match &tools.perms_file {
        Some(f) => {
            add_var(&mut out, "AS_PERMS_FILE", f.clone());
        },
        None => {},
    }
    proof {
        assert(views(out@) =~= third + file_var("AS_PERMS_FILE"@, tools@.perms_file));
    }
    let ghost fourth = views(out@);
    match &tools.ss_conf {
        Some(f) => {
            add_var(&mut out, "AS_SS_CLIENT_CONF", f.clone());
        },
        None => {},
    }
    proof {
        assert(views(out@) =~= fourth + file_var("AS_SS_CLIENT_CONF"@, tools@.ss_conf));
    }
    out
}

/// The test for the host whose address replaces that of the configured server.
pub open spec fn is_aws(h: CollectorHostModel) -> bool {
    same_ignoring_case(trimmed(h.name), "aws"@)
}

/// The address of the first host of that name, where it has one.
pub open spec fn aws_address(hosts: Seq<CollectorHostModel>) -> Option<Seq<char>>
    decreases hosts.len(),
{
    if hosts.len() == 0 {
        None
    } else if is_aws(hosts[0]) {
        if trimmed(hosts[0].hostname).len() == 0 {
            None
        } else {
            Some(trimmed(hosts[0].hostname))
        }
    } else {
        aws_address(hosts.drop_first())
    }
}

/// The address that replaces that of the configured server, where a host gives one.
pub fn aws_hostname(hosts: &Vec<CollectorHost>) -> (r: Option<String>)
    ensures
        opt_view(r) == aws_address(views(hosts@)),
{
    let ghost hs = views(hosts@);
    proof {
        assert(hs.skip(0) =~= hs);
    }
    for i in 0..hosts.len()
        invariant
            hs == views(hosts@),
            aws_address(hs) == aws_address(hs.skip(i as int)),
    {
        proof {
            assert(hs.skip(i as int)[0] == hosts@[i as int]@);
            assert(hs.skip(i as int).drop_first() =~= hs.skip(i + 1));
        }
        if eq_ignore_ascii_case(trim(hosts[i].name.as_str()).as_str(), "aws") {
            let address = trim(hosts[i].hostname.as_str());
            if is_blank(address.as_str()) {
                return None;
            }
            return Some(address);
        }
    }
    None
}

/// What the preparation of the client configuration leads to: the text to hand to the script,
/// where there is one, and the line to log, where there is one.
#[derive(Debug)]
pub struct PreparedConf {
    pub text: Option<String>,
    pub line: Option<String>,
}

/// The note that a substitution was made.
pub open spec fn substituted_line(address: Seq<char>) -> Seq<char> {
    "shadowsocks server address -> "@ + address + " ("@ + (if looks_v4(address) {
        "IPv4"@
    } else {
        "IPv6"@
    }) + ")"@
}

/// The client configuration of a host as it was found.
#[derive(Debug)]
pub enum CollectedConf {
    /// It was not collected.
    Missing,
    /// It cannot be read; holds the error.
    Unreadable(String),
    /// Its text.
    Text(String),
}

/// What the preparation of the client configuration leads to, given where it lies, how it was found,
/// and the address that replaces that of the configured server: the text to hand to the script and
/// the line to log, where there are any.
pub open spec fn prepared_conf(
    path: Seq<char>,
    conf: CollectedConf,
    address: Option<Seq<char>>,
) -> (Option<Seq<char>>, Option<Seq<char>>) {
    match (conf, address) {
        (CollectedConf::Missing, _) => (None, None),
        (_, None) => (
            None,
            Some("shadowsocks conf present but no 'aws' host — leaving server address unchanged"@),
        ),
        (CollectedConf::Unreadable(e), Some(_)) => (
            None,
            Some("could not read "@ + path + ": "@ + e@),
        ),
        (CollectedConf::Text(text), Some(address)) => match substituted(text@, address) {
            Ok(t) => (Some(t), Some(substituted_line(address))),
            Err(e) => (
                None,
                Some("shadowsocks server substitution skipped: "@ + substitute_error_text(e)),
            ),
        },
    }
}

/// Prepares the client configuration of a host, where it was collected: without the host that gives
/// the address, or where the text cannot be read or adapted, the configuration stays as it is and a
/// line says so.
pub fn prepare_ss_client_conf(
    path: &str,
    conf: &CollectedConf,
    all_hosts: &Vec<CollectorHost>,
) -> (r: PreparedConf)
    ensures
        (opt_view(r.text), opt_view(r.line)) == prepared_conf(
            path@,
            *conf,
            aws_address(views(all_hosts@)),
        ),
{
    match conf {
        CollectedConf::Missing => {
            return PreparedConf { text: None, line: None };
        },
        _ => {},
    }
    let address = match aws_hostname(all_hosts) {
        None => {
            let line =
                "shadowsocks conf present but no 'aws' host — leaving server address unchanged".to_string();
            return PreparedConf { text: None, line: Some(line) };
        },
        Some(a) => a,
    };
    let text: &str = match conf {
        CollectedConf::Missing => {
            return PreparedConf { text: None, line: None };
        },
        CollectedConf::Unreadable(e) => {
            let mut line = "could not read ".to_string();
            line.append(path);
            line.append(": ");
            line.append(e.as_str());
            return PreparedConf { text: None, line: Some(line) };
        },
        CollectedConf::Text(text) => text.as_str(),
    };
    match substitute_ss_server(text, address.as_str()) {
        Ok(new_text) => {
            let mut line = "shadowsocks server address -> ".to_string();
            line.append(address.as_str());
            line.append(" (");
            line.append(
                if is_ipv4(address.as_str()) {
                    "IPv4"
                } else {
                    "IPv6"
                },
            );
            line.append(")");
            PreparedConf { text: Some(new_text), line: Some(line) }
        },
        Err(e) => {
            let mut line = "shadowsocks server substitution skipped: ".to_string();
            line.append(e.message().as_str());
            PreparedConf { text: None, line: Some(line) }
        },
    }
}

/// The line to log once an adapted configuration was to be written: the one that was prepared, unless
/// writing failed.
pub fn written_line(line: &str, failure: Option<&str>) -> (r: String)
    ensures
        r@ == (match failure {
            None => line@,
            Some(e) => "could not write substituted conf: "@ + e@,
        }),
{
    match failure {
        None => line.to_string(),
        Some(e) => {
            let mut r = "could not write substituted conf: ".to_string();
            r.append(e);
            r
        },
    }
}

/// The line for a host without a deploy script.
pub fn no_script_line() -> (r: String)
    ensures
        r@ == "no deploy script for this host — nothing to do"@,
{
    "no deploy script for this host — nothing to do".to_string()
}

/// How the deploying of a host ended: an error of its setup, or the number of errors.
pub open spec fn deploy_verdict(result: Result<usize, Seq<char>>) -> (Seq<char>, bool) {
    match result {
        Ok(n) => if n == 0 {
            ("Deploy finished."@, true)
        } else {
            ("Deploy finished with "@ + decimal_text(n as nat) + " error(s)."@, false)
        },
        Err(e) => ("ERROR: "@ + e, false),
    }
}

/// What is wrong with the setup of a host that is to be deployed to.
pub open spec fn deploy_fault(h: CollectorHostModel) -> Option<Seq<char>> {
    if trimmed(h.hostname).len() == 0 {
        Some("host has no hostname"@)
    } else if h.root.len() == 0 {
        Some("host has no local root"@)
    } else {
        None
    }
}

/// Whether a host has something to deploy, unless its setup is wrong: a script, or the path of
/// one.
pub fn deploy_ready(host: &CollectorHost) -> (r: Result<bool, String>)
    ensures
        r is Err == deploy_fault(host@) is Some,
        r is Err ==> r->Err_0@ == deploy_fault(host@)->0,
        r is Ok ==> r->Ok_0 == (trimmed(host@.deploy_script_path).len() > 0 || trimmed(
            host@.deploy_script,
        ).len() > 0),
{
    if is_blank(trim(host.hostname.as_str()).as_str()) {
        return Err("host has no hostname".to_string());
    }
    if is_blank(host.root.as_str()) {
        return Err("host has no local root".to_string());
    }
    Ok(
        !is_blank(trim(host.deploy_script_path.as_str()).as_str()) || !is_blank(
            trim(host.deploy_script.as_str()).as_str(),
        ),
    )
}

/// The line that opens the log of deploying to a host.
pub fn deploy_banner(host: &CollectorHost) -> (r: String)
    ensures
        r@ == "=== deploy "@ + label_of(host@) + " ("@ + dest_of(conn_of(host@))
            + ") — running on this machine ==="@,
{
    let mut r = "=== deploy ".to_string();
    if is_blank(trim(host.name.as_str()).as_str()) {
        r.append(host.hostname.as_str());
    } else {
        r.append(host.name.as_str());
    }
    r.append(" (");
    r.append(SshConn::from_host(host).dest().as_str());
    r.append(") — running on this machine ===");
    r
}

/// What is logged of the end of a deploy script, and how many errors that counts as.
pub fn script_verdict(result: &Result<bool, String>) -> (r: (String, usize))
    ensures
        (r.0@, r.1 as int) == (match *result {
            Ok(true) => ("deploy script ok"@, 0int),
            Ok(false) => ("deploy script exited non-zero"@, 1int),
            Err(e) => ("deploy script error: "@ + e@, 1int),
        }),
{
    match result {
        Ok(true) => ("deploy script ok".to_string(), 0),
        Ok(false) => ("deploy script exited non-zero".to_string(), 1),
        Err(e) => {
            let mut line = "deploy script error: ".to_string();
            line.append(e.as_str());
            (line, 1)
        },
    }
}

/// The places where a tool is looked for beside the program, in order; the tool of the system is
/// used where it is in none of them.
pub fn ssh_tool_places(exe_dir: &str, tool: &str) -> (out: Vec<String>)
    ensures
        views(out@) == ({
            let file = tool@ + ".exe"@;
            seq![
                joined_path(exe_dir@, "windows/openssh/OpenSSH-Win64/"@ + file),
                joined_path(exe_dir@, "openssh/OpenSSH-Win64/"@ + file),
                joined_path(exe_dir@, file),
            ]
        }),
{
    let mut file = tool.to_string();
    file.append(".exe");
    let mut a = "windows/openssh/OpenSSH-Win64/".to_string();
    a.append(file.as_str());
    let mut b = "openssh/OpenSSH-Win64/".to_string();
    b.append(file.as_str());
    let mut out: Vec<String> = Vec::new();
    out.push(join_path(exe_dir, a.as_str()));
    out.push(join_path(exe_dir, b.as_str()));
    out.push(join_path(exe_dir, file.as_str()));
    proof {
        assert(views(out@) =~= seq![
            joined_path(exe_dir@, a@),
            joined_path(exe_dir@, b@),
            joined_path(exe_dir@, file@),
        ]);
    }
    out
}

/// Records the end of deploying to a host.
pub fn deploy(
    result: Result<usize, String>,
    state: &mut CollectorRunState,
    now: &str,
    now_text: &str,
    now_ms: i64,
)
    ensures
        ({
            let verdict = deploy_verdict(
                match result {
                    Ok(n) => Ok::<usize, Seq<char>>(n),
                    Err(e) => Err(e@),
                },
            );
            final(state)@ == finished_run(
                logged(old(state)@, now@, verdict.0),
                verdict.1,
                now_text@,
                now_ms,
            )
        }),
{
    let ok: bool = match result {
        Ok(n) => {
            if n == 0 {
                state.log(now, "Deploy finished.");
                true
            } else {
                let mut line = "Deploy finished with ".to_string();
                line.append(decimal(n as u64).as_str());
                line.append(" error(s).");
                state.log(now, line.as_str());
                false
            }
        },
        Err(e) => {
            let mut line = "ERROR: ".to_string();
            line.append(e.as_str());
            state.log(now, line.as_str());
            false
        },
    };
    state.finish(ok, now_text, now_ms);
}

/// A deploy script is told how its host is reached, where its files are, and the address of every
/// host; of the password only where there is one.
pub proof fn deploy_scripts_are_told_where_everything_is(
    h: CollectorHostModel,
    hosts: Seq<CollectorHostModel>,
    t: DeployToolsModel,
    i: int,
)
    ensures
        ({
            let vars = deploy_vars(h, hosts, t);
            &&& vars.contains(("AS_HOSTNAME"@, conn_of(h).hostname))
            &&& vars.contains(("AS_USER"@, conn_of(h).user))
            &&& vars.contains(("AS_DEST"@, dest_of(conn_of(h))))
            &&& vars.contains(("AS_SSH"@, t.ssh))
            &&& vars.contains(("AS_SCP"@, t.scp))
            &&& vars.contains(("AS_ROOT"@, h.root))
            &&& 0 <= i < hosts.len() ==> vars.contains(
                ("AS_HOST_"@ + env_suffix(hosts[i].name), trimmed(hosts[i].hostname)),
            )
            &&& trimmed(h.password).len() > 0 ==> vars.contains(
                ("AS_PASSWORD"@, trimmed(h.password)),
            )
            &&& t.perms_file is Some ==> vars.contains(("AS_PERMS_FILE"@, t.perms_file->0))
            &&& t.ss_conf is Some ==> vars.contains(("AS_SS_CLIENT_CONF"@, t.ss_conf->0))
        }),
{
    let vars = deploy_vars(h, hosts, t);
    let n: int = if trimmed(h.password).len() > 0 {
        8
    } else {
        7
    };
    assert(vars[0] == ("AS_SSH"@, t.ssh));
    assert(vars[1] == ("AS_SCP"@, t.scp));
    assert(vars[2] == ("AS_HOSTNAME"@, conn_of(h).hostname));
    assert(vars[3] == ("AS_USER"@, conn_of(h).user));
    assert(vars[4] == ("AS_DEST"@, dest_of(conn_of(h))));
    if n == 8 {
        assert(vars[7] == ("AS_PASSWORD"@, trimmed(h.password)));
    }
    assert(vars[n] == ("AS_ROOT"@, h.root));
    lemma_host_vars(hosts);
    if 0 <= i < hosts.len() {
        assert(vars[n + 3 + i] == host_vars(hosts)[i]);
    }
    let m = n + 3 + hosts.len();
    if t.perms_file is Some {
        assert(vars[m] == ("AS_PERMS_FILE"@, t.perms_file->0));
    }
    if t.ss_conf is Some {
        let last = vars.len() - 1;
        assert(vars[last] == ("AS_SS_CLIENT_CONF"@, t.ss_conf->0));
    }
}

proof fn lemma_host_vars(hosts: Seq<CollectorHostModel>)
    ensures
        host_vars(hosts).len() == hosts.len(),
        forall|i: int|
            0 <= i < hosts.len() ==> (#[trigger] host_vars(hosts)[i]) == (
                "AS_HOST_"@ + env_suffix(hosts[i].name),
                trimmed(hosts[i].hostname),
            ),
    decreases hosts.len(),
{
    if hosts.len() > 0 {
        lemma_host_vars(hosts.drop_last());
    }
}

/// Addresses are replaced by one of their own family: an IPv4 address takes the place of IPv4
/// addresses, and one with a colon of others with one; all other entries stay.
pub proof fn servers_are_replaced_within_their_family(server: Seq<char>, entry: Seq<char>)
    ensures
        looks_v4(server) && looks_v4(entry) ==> adapted_entry(server, Some(entry)) == Some(server),
        looks_v4(server) && !looks_v4(entry) ==> adapted_entry(server, Some(entry)) == Some(entry),
        !looks_v4(server) && server.contains(':') && looks_v4(entry) ==> adapted_entry(
            server,
            Some(entry),
        ) == Some(entry),
        !looks_v4(server) && server.contains(':') && !looks_v4(entry) && entry.contains(':')
            ==> adapted_entry(server, Some(entry)) == Some(server),
        !entry.contains(':') && !looks_v4(entry) ==> adapted_entry(server, Some(entry)) == Some(
            entry,
        ),
        adapted_entry(server, None) is None,
{
}

/// The address that replaces that of the configured server is that of the first host that is called
/// `aws`, whatever the case of letters, where it has one.
pub proof fn the_first_aws_host_gives_the_address(hosts: Seq<CollectorHostModel>, i: int)
    requires
        0 <= i < hosts.len(),
        lowered(trimmed(hosts[i].name)) == lowered("aws"@),
        forall|j: int|
            0 <= j < i ==> lowered(trimmed((#[trigger] hosts[j]).name)) != lowered("aws"@),
    ensures
        trimmed(hosts[i].hostname).len() > 0 ==> aws_address(hosts) == Some(
            trimmed(hosts[i].hostname),
        ),
        trimmed(hosts[i].hostname).len() == 0 ==> aws_address(hosts) is None,
    decreases i,
{
    if i > 0 {
        assert(lowered(trimmed(hosts[0].name)) != lowered("aws"@));
        let t = hosts.drop_first();
        assert(t[i - 1] == hosts[i]);
        assert forall|j: int| 0 <= j < i - 1 implies lowered(trimmed((#[trigger] t[j]).name))
            != lowered("aws"@) by {
            assert(t[j] == hosts[j + 1]);
        }
        the_first_aws_host_gives_the_address(t, i - 1);
    }
}

} // verus!
