//! The medium behind a path: rotating disks, or flash.
//!
//! What the system says of mounts and block devices is handed in; the verdict is drawn from it.

use crate::paths::{at_or_under, components, components_of, path_starts_with};
use crate::seqs::{first_item, first_where, lemma_first_where_is};
use crate::text::{
    chars_of, digits_value, is_blank, line_parts, lines, opt_view, pair_view, parse_number,
    parsed_number, same, split, split_parts, starts_with, string_of_range, trim, trimmed, views, word_parts, words,
};
use vstd::prelude::*;

verus! {

/// The shorter of a length and three.
pub open spec fn up_to_three(n: int) -> int {
    if n < 3 {
        n
    } else {
        3
    }
}

/// A field of a mount table with its octal escapes resolved; what is no escape stays as it is.
pub open spec fn unescaped(s: Seq<char>) -> Seq<char>
    decreases s.len(),
{
    if s.len() == 0 {
        Seq::empty()
    } else if s[0] != '\\' {
        seq![s[0]] + unescaped(s.skip(1))
    } else {
        let n = up_to_three(s.len() - 1);
        let code = s.subrange(1, 1 + n);
        let rest = unescaped(s.skip(1 + n));
        match parsed_number(code, 8, 255) {
            Some(v) => seq![(v as u8) as char] + rest,
            None => seq!['\\'] + code + rest,
        }
    }
}

/// The field of a mount table with its octal escapes resolved.
pub fn unescape_mount_field(field: &str) -> (out: String)
    ensures
        out@ == unescaped(field@),
{
    let chars = chars_of(field);
    let n: usize = chars.len();
    let mut out = String::new();
    let mut i: usize = 0;
    proof {
        assert(field@.skip(0) =~= field@);
        assert(out@ + unescaped(field@) =~= unescaped(field@));
    }
    while i < n
        invariant
            n == chars.len(),
            i <= n,
            chars@ == field@,
            out@ + unescaped(field@.skip(i as int)) == unescaped(field@),
        decreases n - i,
    {
        let c = chars[i];
        let ghost rest = field@.skip(i as int);
        let ghost was = out@;
        if c != '\\' {
            out.push(c);
            proof {
                assert(rest.skip(1) =~= field@.skip(i + 1));
                assert(out@ + unescaped(field@.skip(i + 1)) =~= was + unescaped(rest));
            }
            i = i + 1;
        } else {
            let left: usize = n - i - 1;
            let k: usize = if left < 3 {
                left
            } else {
                3
            };
            let code = string_of_range(&chars, i + 1, i + 1 + k);
            proof {
                assert(code@ =~= rest.subrange(1, 1 + k));
                assert(rest.skip(1 + k) =~= field@.skip(i + 1 + k));
            }
            match parse_number(code.as_str(), 8, 255) {
                Some(v) => {
                    let byte: u8 = v as u8;
                    out.push(byte as char);
                },
                None => {
                    out.push('\\');
                    out.append(code.as_str());
                },
            }
            proof {
                assert(out@ + unescaped(field@.skip(i + 1 + k)) =~= was + unescaped(rest));
            }
            i = i + 1 + k;
        }
    }
    proof {
        assert(field@.skip(n as int) =~= Seq::<char>::empty());
        assert(out@ + Seq::<char>::empty() =~= out@);
    }
    out
}

/// The best mount so far: the number of components of its place, and its device and file system.
pub struct BestMount {
    pub components: nat,
    pub mount: Option<(Seq<char>, Seq<char>)>,
}

/// The best mount after one more line: one whose place is at least as deep wins.
pub open spec fn with_mount_line(best: BestMount, line: Seq<char>, path: Seq<char>) -> BestMount {
    let fields = word_parts(line);
    if fields.len() < 3 {
        best
    } else {
        let place = unescaped(fields[1]);
        if at_or_under(path, place) && components(place).len() >= best.components {
            BestMount {
                components: components(place).len(),
                mount: Some((unescaped(fields[0]), fields[2])),
            }
        } else {
            best
        }
    }
}

/// The best mount among the given lines.
pub open spec fn best_mount(lines: Seq<Seq<char>>, path: Seq<char>) -> BestMount
    decreases lines.len(),
{
    if lines.len() == 0 {
        BestMount { components: 0, mount: None }
    } else {
        with_mount_line(best_mount(lines.drop_last(), path), lines.last(), path)
    }
}

/// The device and the file system that a path lies on, by a mount table: those of the deepest
/// place that the path lies at or under, of the last one where there are several.
pub fn mount_for_path(mounts: &str, path: &str) -> (r: Option<(String, String)>)
    ensures
        pair_view(r) == best_mount(line_parts(mounts@), path@).mount,
{
    let all = lines(mounts);
    let ghost ls = views(all@);
    let mut depth: usize = 0;
    let mut best: Option<(String, String)> = None;
    for i in 0..all.len()
        invariant
            ls == views(all@),
            depth == best_mount(ls.take(i as int), path@).components,
            pair_view(best) == best_mount(ls.take(i as int), path@).mount,
    {
        proof {
            assert(ls.take(i + 1).drop_last() =~= ls.take(i as int));
            assert(ls.take(i + 1).last() == all@[i as int]@);
        }
        let fields = words(all[i].as_str());
        let ghost fs = views(fields@);
        if fields.len() >= 3 {
            let place = unescape_mount_field(fields[1].as_str());
            proof {
                assert(fs[0] == fields@[0]@);
                assert(fs[1] == fields@[1]@);
                assert(fs[2] == fields@[2]@);
            }
            let parts = components_of(place.as_str());
            proof {
                assert(views(parts@).len() == parts@.len());
            }
            if path_starts_with(path, place.as_str()) && parts.len() >= depth {
                depth = parts.len();
                best = Some((unescape_mount_field(fields[0].as_str()), fields[2].clone()));
            }
        }
    }
    proof {
        assert(ls.take(ls.len() as int) =~= ls);
    }
    best
}

/// The test for texts that are not empty.
pub open spec fn filled_field() -> spec_fn(Seq<char>) -> bool {
    |f: Seq<char>| f.len() > 0
}

/// Whether a row begins a section of devices that hold no data.
pub open spec fn auxiliary(name: Seq<char>) -> bool {
    name == "cache"@ || name == "logs"@ || name == "log"@ || name == "spares"@ || name == "spare"@
        || name == "special"@ || name == "dedup"@
}

/// The devices that hold the data of a pool, from row `i` of its listing on: rows that name a
/// device, up to the first section of devices that hold none.
pub open spec fn data_devices(rows: Seq<Seq<char>>, i: int) -> Seq<Seq<char>>
    decreases rows.len() - i,
{
    if i < 0 || i >= rows.len() {
        Seq::empty()
    } else {
        match first_item(split_parts(rows[i], '\t'), filled_field()) {
            None => data_devices(rows, i + 1),
            Some(name) => if auxiliary(name) {
                Seq::empty()
            } else if "/dev/"@.is_prefix_of(name) {
                seq![name] + data_devices(rows, i + 1)
            } else {
                data_devices(rows, i + 1)
            },
        }
    }
}

/// The first field of a row that is not empty.
fn first_field(row: &str) -> (r: Option<String>)
    ensures
        opt_view(r) == first_item(split_parts(row@, '\t'), filled_field()),
{
    let fields = split(row, '\t');
    let ghost fs = views(fields@);
    for i in 0..fields.len()
        invariant
            fs == views(fields@),
            fs == split_parts(row@, '\t'),
            forall|j: int| 0 <= j < i ==> !filled_field()(#[trigger] fs[j]),
    {
        proof {
            assert(fs[i as int] == fields@[i as int]@);
        }
        if !is_blank(fields[i].as_str()) {
            proof {
                lemma_first_where_is(fs, filled_field(), i as int);
            }
            return Some(fields[i].clone());
        }
    }
    proof {
        lemma_first_where_is(fs, filled_field(), fs.len() as int);
    }
    None
}

/// Whether a row begins a section of devices that hold no data.
fn is_auxiliary(name: &str) -> (r: bool)
    ensures
        r == auxiliary(name@),
{
    same(name, "cache") || same(name, "logs") || same(name, "log") || same(name, "spares") || same(
        name,
        "spare",
    ) || same(name, "special") || same(name, "dedup")
}

/// The devices that hold the data of a pool, from its listing.
pub fn parse_zpool_devices(output: &str) -> (out: Vec<String>)
    ensures
        views(out@) == data_devices(line_parts(output@), 0),
{
    let all = lines(output);
    let ghost ls = views(all@);
    let mut out: Vec<String> = Vec::new();
    proof {
        assert(views(out@) + data_devices(ls, 0) =~= data_devices(ls, 0));
    }
    for i in 0..all.len()
        invariant
            ls == views(all@),
            ls == line_parts(output@),
            views(out@) + data_devices(ls, i as int) == data_devices(ls, 0),
    {
        let ghost was = views(out@);
        proof {
            assert(ls[i as int] == all@[i as int]@);
        }
        match first_field(all[i].as_str()) {
            None => {},
            Some(name) => {
                if is_auxiliary(name.as_str()) {
                    proof {
                        assert(was + Seq::<Seq<char>>::empty() =~= was);
                    }
                    return out;
                }
                if starts_with(name.as_str(), "/dev/") {
                    let ghost nv = name@;
                    out.push(name);
                    proof {
                        assert(views(out@) =~= was.push(nv));
                        assert(views(out@) + data_devices(ls, i + 1) =~= was + (seq![nv]
                            + data_devices(ls, i + 1)));
                    }
                }
            },
        }
    }
    proof {
        assert(views(out@) + Seq::<Seq<char>>::empty() =~= views(out@));
    }
    out
}

/// The verdict on a set of members: one that rotates makes the set rotate; without one, a member
/// that is not known makes the set not known.
pub open spec fn verdict_of(members: Seq<Option<bool>>) -> Option<bool> {
    if members.contains(Some(true)) {
        Some(true)
    } else if members.contains(None) {
        None
    } else {
        Some(false)
    }
}

/// The verdict on a set of members.
pub fn combine_verdicts(members: &Vec<Option<bool>>) -> (r: Option<bool>)
    ensures
        r == verdict_of(members@),
{
    let mut unknown: bool = false;
    for i in 0..members.len()
        invariant
            forall|j: int| 0 <= j < i ==> members@[j] != Some(true),
            unknown == (exists|j: int| 0 <= j < i && (#[trigger] members@[j]) is None),
    {
        match members[i] {
            Some(rotates) => {
                if rotates {
                    proof {
                        assert(members@[i as int] == Some(true));
                    }
                    return Some(true);
                }
            },
            None => {
                proof {
                    assert(members@[i as int] is None);
                }
                unknown = true;
            },
        }
    }
    proof {
        if unknown {
            let k = choose|k: int| 0 <= k < members@.len() && (#[trigger] members@[k]) is None;
            assert(members@[k] == None::<bool>);
        }
    }
    if unknown {
        None
    } else {
        Some(false)
    }
}

/// What the system says of a block device.
#[derive(Debug)]
pub struct BlockFact {
    pub name: String,
    /// The devices that it is made of, where it is stacked on others.
    pub slaves: Vec<String>,
    /// The contents of its `queue/rotational`, where it has one.
    pub queue: Option<String>,
    /// The name of the directory above its own, where that is known.
    pub parent: Option<String>,
}

/// The model of a `BlockFact`.
pub struct BlockModel {
    pub name: Seq<char>,
    pub slaves: Seq<Seq<char>>,
    pub queue: Option<Seq<char>>,
    pub parent: Option<Seq<char>>,
}

impl View for BlockFact {
    type V = BlockModel;

    open spec fn view(&self) -> BlockModel {
        BlockModel {
            name: self.name@,
            slaves: views(self.slaves@),
            queue: opt_view(self.queue),
            parent: opt_view(self.parent),
        }
    }
}

/// The deepest stacking of devices that is followed.
pub const STACK_LIMIT: usize = 6;

/// The test for the fact of a device.
pub open spec fn of_block(name: Seq<char>) -> spec_fn(BlockModel) -> bool {
    |f: BlockModel| f.name == name
}

/// The verdict of a flag of the system.
pub open spec fn flag_verdict(text: Seq<char>) -> Option<bool> {
    if trimmed(text) == "0"@ {
        Some(false)
    } else if trimmed(text) == "1"@ {
        Some(true)
    } else {
        None
    }
}

/// The verdict on a block device: that of its members where it is stacked on others, else its own
/// flag, else, for a partition, that of the device that it lies on.
pub open spec fn block_verdict(facts: Seq<BlockModel>, name: Seq<char>, depth: int) -> Option<bool>
    decreases 2 * (STACK_LIMIT + 1 - depth), 0int,
{
    if depth < 0 || depth > STACK_LIMIT {
        None
    } else {
        match first_item(facts, of_block(name)) {
            None => None,
            Some(f) => if f.slaves.len() > 0 {
                verdict_of(block_verdicts(facts, f.slaves, f.slaves.len() as int, depth + 1))
            } else {
                match f.queue {
                    Some(text) => flag_verdict(text),
                    None => match f.parent {
                        Some(up) => if up == "block"@ {
                            None
                        } else {
                            block_verdict(facts, up, depth + 1)
                        },
                        None => None,
                    },
                }
            },
        }
    }
}

/// The verdicts on the first `n` of some block devices.
pub open spec fn block_verdicts(
    facts: Seq<BlockModel>,
    names: Seq<Seq<char>>,
    n: int,
    depth: int,
) -> Seq<Option<bool>>
    decreases 2 * (STACK_LIMIT + 1 - depth) + 1, n,
{
    if n <= 0 || depth > STACK_LIMIT + 1 {
        Seq::empty()
    } else {
        block_verdicts(facts, names, n - 1, depth).push(block_verdict(facts, names[n - 1], depth))
    }
}

/// The index of the fact of a device, or the number of facts.
fn find_block(facts: &Vec<BlockFact>, name: &str) -> (r: usize)
    ensures
        r == first_where(views(facts@), of_block(name@)),
        r <= facts.len(),
{
    let ghost fs = views(facts@);
    let ghost test = of_block(name@);
    for i in 0..facts.len()
        invariant
            fs == views(facts@),
            test == of_block(name@),
            forall|j: int| 0 <= j < i ==> !test(#[trigger] fs[j]),
    {
        proof {
            assert(fs[i as int] == facts@[i as int]@);
        }
        if same(facts[i].name.as_str(), name) {
            proof {
                lemma_first_where_is(fs, test, i as int);
            }
            return i;
        }
    }
    proof {
        lemma_first_where_is(fs, test, fs.len() as int);
    }
    facts.len()
}

/// The verdict on a block device.
pub fn block_name_rotational(facts: &Vec<BlockFact>, name: &str, depth: usize) -> (r: Option<bool>)
    ensures
        r == block_verdict(views(facts@), name@, depth as int),
    decreases STACK_LIMIT + 1 - depth,
{
    if depth > STACK_LIMIT {
        return None;
    }
    let ghost fs = views(facts@);
    let k = find_block(facts, name);
    if k >= facts.len() {
        return None;
    }
    let f = &facts[k];
    proof {
        assert(fs[k as int] == f@);
    }
    if f.slaves.len() > 0 {
        let mut members: Vec<Option<bool>> = Vec::new();
        proof {
            assert(members@ =~= block_verdicts(fs, f@.slaves, 0, depth + 1));
            assert(f@.slaves.len() == f.slaves.len());
        }
        for i in 0..f.slaves.len()
            invariant
                depth <= STACK_LIMIT,
                fs == views(facts@),
                members@ == block_verdicts(fs, f@.slaves, i as int, depth + 1),
        {
            let v = block_name_rotational(facts, f.slaves[i].as_str(), depth + 1);
            proof {
                assert(f@.slaves[i as int] == f.slaves@[i as int]@);
            }
            members.push(v);
        }
        return combine_verdicts(&members);
    }
    match &f.queue {
        Some(text) => {
            let t = trim(text.as_str());
            if same(t.as_str(), "0") {
                Some(false)
            } else if same(t.as_str(), "1") {
                Some(true)
            } else {
                None
            }
        },
        None => match &f.parent {
            Some(up) => {
                if same(up.as_str(), "block") {
                    None
                } else {
                    block_name_rotational(facts, up.as_str(), depth + 1)
                }
            },
            None => None,
        },
    }
}

/// The verdict on the devices of a path, each of them known by its name where it has one; without
/// devices there is none.
pub fn rotational_of_devices(facts: &Vec<BlockFact>, names: &Vec<Option<String>>) -> (r: Option<bool>)
    ensures
        r == (if names.len() == 0 {
            None
        } else {
            verdict_of(
                Seq::new(
                    names@.len(),
                    |i: int|
                        match names@[i] {
                            Some(n) => block_verdict(views(facts@), n@, 0),
                            None => None,
                        },
                ),
            )
        }),
{
    if names.len() == 0 {
        return None;
    }
    let ghost fs = views(facts@);
    let mut members: Vec<Option<bool>> = Vec::new();
    for i in 0..names.len()
        invariant
            fs == views(facts@),
            members.len() == i,
            forall|j: int|
                0 <= j < i ==> (#[trigger] members@[j]) == (match names@[j] {
                    Some(n) => block_verdict(fs, n@, 0),
                    None => None,
                }),
    {
        let v: Option<bool> = match &names[i] {
            Some(n) => block_name_rotational(facts, n.as_str(), 0),
            None => None,
        };
        members.push(v);
    }
    proof {
        assert(members@ =~= Seq::new(
            names@.len(),
            |i: int|
                match names@[i] {
                    Some(n) => block_verdict(fs, n@, 0),
                    None => None,
                },
        ));
    }
    combine_verdicts(&members)
}

/// Where the medium of a path is asked for.
#[derive(Debug)]
pub enum MediumSource {
    /// The devices of a pool.
    Pool(String),
    /// A device.
    Device(String),
    /// Nowhere.
    Unknown,
}

/// Where the medium of a path is asked for, by a mount table: a data set leads to its pool, a
/// device to itself, and anything else nowhere.
pub fn medium_source(mounts: &str, path: &str) -> (r: MediumSource)
    ensures
        ({
            let m = best_mount(line_parts(mounts@), path@).mount;
            match r {
                MediumSource::Pool(p) => m is Some && (m->0).1 == "zfs"@ && p@ == split_parts(
                    (m->0).0,
                    '/',
                )[0],
                MediumSource::Device(d) => m is Some && (m->0).1 != "zfs"@ && "/dev/"@.is_prefix_of(
                    (m->0).0,
                ) && d@ == (m->0).0,
                MediumSource::Unknown => m is None || ((m->0).1 != "zfs"@
                    && !"/dev/"@.is_prefix_of((m->0).0)),
            }
        }),
{
    match mount_for_path(mounts, path) {
        None => MediumSource::Unknown,
        Some(m) => {
            if same(m.1.as_str(), "zfs") {
                let parts = split(m.0.as_str(), '/');
                proof {
                    assert(views(parts@)[0] == parts@[0]@);
                }
                MediumSource::Pool(parts[0].clone())
            } else if starts_with(m.0.as_str(), "/dev/") {
                MediumSource::Device(m.0)
            } else {
                MediumSource::Unknown
            }
        },
    }
}

/// A verdict that was drawn before.
#[derive(Debug)]
pub struct KnownMedium {
    pub path: String,
    pub rotational: Option<bool>,
}

/// The model of a `KnownMedium`.
pub struct KnownModel {
    pub path: Seq<char>,
    pub rotational: Option<bool>,
}

impl View for KnownMedium {
    type V = KnownModel;

    open spec fn view(&self) -> KnownModel {
        KnownModel { path: self.path@, rotational: self.rotational }
    }
}

/// The test for the verdict on a path.
pub open spec fn of_path(path: Seq<char>) -> spec_fn(KnownModel) -> bool {
    |k: KnownModel| k.path == path
}

/// The verdict on a path: one that was drawn before stands, otherwise the given one is drawn and
/// remembered.
pub fn path_is_rotational(known: &mut Vec<KnownMedium>, path: &str, detected: Option<bool>) -> (r:
    Option<bool>)
    ensures
        match first_item(views(old(known)@), of_path(path@)) {
            Some(k) => r == k.rotational && final(known)@ == old(known)@,
            None => r == detected && views(final(known)@) == views(old(known)@).push(
                KnownModel { path: path@, rotational: detected },
            ),
        },
{
    let ghost ks = views(known@);
    let ghost test = of_path(path@);
    for i in 0..known.len()
        invariant
            known@ == old(known)@,
            ks == views(known@),
            test == of_path(path@),
            forall|j: int| 0 <= j < i ==> !test(#[trigger] ks[j]),
    {
        proof {
            assert(ks[i as int] == known@[i as int]@);
        }
        if same(known[i].path.as_str(), path) {
            proof {
                lemma_first_where_is(ks, test, i as int);
            }
            return known[i].rotational;
        }
    }
    proof {
        lemma_first_where_is(ks, test, ks.len() as int);
    }
    let entry = KnownMedium { path: path.to_string(), rotational: detected };
    let ghost ev = entry@;
    known.push(entry);
    proof {
        assert(views(known@) =~= ks.push(ev));
    }
    detected
}

/// Whether the disk of a drive spins, by the kind of medium that Windows names.
pub fn medium_rotational(answer: &str) -> (r: Option<bool>)
    ensures
        r == (if trimmed(answer@) == "SSD"@ {
            Some(false)
        } else if trimmed(answer@) == "HDD"@ {
            Some(true)
        } else {
            None
        }),
{
    let t = trim(answer);
    if same(t.as_str(), "SSD") {
        proof {
            reveal_strlit("SSD");
            reveal_strlit("HDD");
        }
        return Some(false);
    }
    if same(t.as_str(), "HDD") {
        return Some(true);
    }
    None
}

/// The command that names the kind of medium of a drive on Windows.
pub fn medium_script(drive: char) -> (r: String)
    ensures
        r@ == "(Get-PhysicalDisk -DeviceNumber (Get-Partition -DriveLetter "@.push(drive)
            + ").DiskNumber).MediaType"@,
{
    let mut r = "(Get-PhysicalDisk -DeviceNumber (Get-Partition -DriveLetter ".to_string();
    r.push(drive);
    r.append(").DiskNumber).MediaType");
    r
}

/// Whether a line of a mount table says that a path lies on what is mounted there.
pub open spec fn covers_path(line: Seq<char>, path: Seq<char>) -> bool {
    word_parts(line).len() >= 3 && at_or_under(path, unescaped(word_parts(line)[1]))
}

/// The mount of a path is that of a line whose place the path lies at or under, such that no line has
/// such a place that is deeper, and no later one has one that is as deep; there is one wherever some
/// line has such a place.
pub proof fn paths_lie_on_the_deepest_mount(lines: Seq<Seq<char>>, path: Seq<char>, other: int)
    ensures
        match best_mount(lines, path).mount {
            Some(m) => exists|i: int|
                0 <= i < lines.len() && #[trigger] covers_path(lines[i], path) && m == (
                    unescaped(word_parts(lines[i])[0]),
                    word_parts(lines[i])[2],
                ) && (0 <= other < lines.len() && covers_path(lines[other], path) ==> {
                    let deep = components(unescaped(word_parts(lines[i])[1])).len();
                    let also = components(unescaped(word_parts(lines[other])[1])).len();
                    also < deep || (also == deep && other <= i)
                }),
            None => 0 <= other < lines.len() ==> !covers_path(lines[other], path),
        },
{
    lemma_best(lines, path, other);
}

proof fn lemma_best(lines: Seq<Seq<char>>, path: Seq<char>, other: int)
    ensures
        match best_mount(lines, path).mount {
            Some(m) => exists|i: int|
                0 <= i < lines.len() && #[trigger] covers_path(lines[i], path) && m == (
                    unescaped(word_parts(lines[i])[0]),
                    word_parts(lines[i])[2],
                ) && components(unescaped(word_parts(lines[i])[1])).len() == best_mount(
                    lines,
                    path,
                ).components && (0 <= other < lines.len() && covers_path(lines[other], path) ==> {
                    let deep = components(unescaped(word_parts(lines[i])[1])).len();
                    let also = components(unescaped(word_parts(lines[other])[1])).len();
                    also < deep || (also == deep && other <= i)
                }),
            None => best_mount(lines, path).components == 0 && (0 <= other < lines.len()
                ==> !covers_path(lines[other], path)),
        },
    decreases lines.len(),
{
    if lines.len() > 0 {
        let t = lines.drop_last();
        let n = lines.len() - 1;
        let before = best_mount(t, path);
        lemma_best(t, path, other);
        let line = lines.last();
        if before.mount is Some {
            let m = before.mount->0;
            let i = choose|i: int|
                0 <= i < t.len() && #[trigger] covers_path(t[i], path) && m == (
                    unescaped(word_parts(t[i])[0]),
                    word_parts(t[i])[2],
                ) && components(unescaped(word_parts(t[i])[1])).len() == before.components && (0
                    <= other < t.len() && covers_path(t[other], path) ==> {
                    let deep = components(unescaped(word_parts(t[i])[1])).len();
                    let also = components(unescaped(word_parts(t[other])[1])).len();
                    also < deep || (also == deep && other <= i)
                });
            assert(lines[i] == t[i]);
            assert(covers_path(lines[i], path));
        }
        if 0 <= other < t.len() {
            assert(lines[other] == t[other]);
        }
        assert(lines[n] == line);
        if covers_path(line, path) {
            assert(covers_path(lines[n], path));
        }
    }
}

/// A field without a backslash stands for itself.
pub proof fn plain_fields_stand_for_themselves(s: Seq<char>)
    requires
        forall|i: int| 0 <= i < s.len() ==> s[i] != '\\',
    ensures
        unescaped(s) == s,
    decreases s.len(),
{
    if s.len() > 0 {
        let t = s.skip(1);
        assert forall|i: int| 0 <= i < t.len() implies t[i] != '\\' by {
            assert(t[i] == s[i + 1]);
        }
        plain_fields_stand_for_themselves(t);
        assert(seq![s[0]] + t =~= s);
    }
}

/// A backslash and three octal digits stand for the character with that code.
pub proof fn escapes_stand_for_their_character(a: char, b: char, c: char, rest: Seq<char>)
    requires
        48 <= a as u32 <= 51,
        48 <= b as u32 <= 55,
        48 <= c as u32 <= 55,
    ensures
        ({
            let code = 64 * (a as u32 - 48) + 8 * (b as u32 - 48) + (c as u32 - 48);
            unescaped(seq!['\\', a, b, c] + rest) == seq![(code as u8) as char] + unescaped(rest)
        }),
{
    let s = seq!['\\', a, b, c] + rest;
    let code = s.subrange(1, 4);
    assert(code =~= seq![a, b, c]);
    assert(s.skip(4) =~= rest);
    let two = code.drop_last();
    let one = two.drop_last();
    assert(two =~= seq![a, b]);
    assert(one =~= seq![a]);
    assert(one.drop_last() =~= Seq::<char>::empty());
    assert(digits_value(one.drop_last(), 8) == Some(0int));
    assert(digits_value(one, 8) == Some(a as u32 - 48int));
    assert(digits_value(two, 8) == Some((a as u32 - 48) * 8 + (b as u32 - 48)));
    assert(digits_value(code, 8) == Some(
        ((a as u32 - 48) * 8 + (b as u32 - 48)) * 8 + (c as u32 - 48),
    ));
}

/// A device that is stacked on others rotates where one of them does; one that is not goes by the
/// flag of the system, and a partition without a flag by the device that it lies on.
pub proof fn devices_rotate_as_what_is_below_them(
    facts: Seq<BlockModel>,
    name: Seq<char>,
    i: int,
    depth: int,
)
    requires
        0 <= depth < 6,
        0 <= i < facts.len(),
        facts[i].name == name,
        forall|j: int| 0 <= j < i ==> (#[trigger] facts[j]).name != name,
    ensures
        ({
            let f = facts[i];
            let r = block_verdict(facts, name, depth);
            &&& f.slaves.len() == 0 && f.queue is Some && trimmed(f.queue->0) == "1"@ ==> r == Some(
                true,
            )
            &&& f.slaves.len() == 0 && f.queue is Some && trimmed(f.queue->0) == "0"@ ==> r == Some(
                false,
            )
            &&& f.slaves.len() == 0 && f.queue is None && f.parent is Some && f.parent->0
                != "block"@ ==> r == block_verdict(facts, f.parent->0, depth + 1)
            &&& forall|k: int|
                0 <= k < f.slaves.len() && block_verdict(facts, #[trigger] f.slaves[k], depth + 1)
                    == Some(true) ==> r == Some(true)
            &&& f.slaves.len() > 0 && (forall|k: int|
                0 <= k < f.slaves.len() ==> block_verdict(facts, #[trigger] f.slaves[k], depth + 1)
                    == Some(false)) ==> r == Some(false)
        }),
{
    lemma_first_where_is(facts, of_block(name), i);
    let f = facts[i];
    reveal_strlit("0");
    reveal_strlit("1");
    assert("0"@[0] != "1"@[0]);
    if f.slaves.len() > 0 {
        let n = f.slaves.len() as int;
        let vs = block_verdicts(facts, f.slaves, n, depth + 1);
        lemma_block_verdicts(facts, f.slaves, n, depth + 1);
        assert forall|k: int|
            0 <= k < f.slaves.len() && block_verdict(facts, #[trigger] f.slaves[k], depth + 1)
                == Some(true) implies block_verdict(facts, name, depth) == Some(true) by {
            assert(vs[k] == Some(true));
            assert(vs.contains(Some(true)));
        }
        if forall|k: int|
            0 <= k < f.slaves.len() ==> block_verdict(facts, #[trigger] f.slaves[k], depth + 1)
                == Some(false) {
            assert forall|k: int| 0 <= k < vs.len() implies #[trigger] vs[k] == Some(false) by {
                assert(block_verdict(facts, f.slaves[k], depth + 1) == Some(false));
            }
        }
    }
}

proof fn lemma_block_verdicts(facts: Seq<BlockModel>, names: Seq<Seq<char>>, n: int, depth: int)
    requires
        0 <= n <= names.len(),
        0 <= depth <= 6,
    ensures
        block_verdicts(facts, names, n, depth).len() == n,
        forall|k: int|
            0 <= k < n ==> #[trigger] block_verdicts(facts, names, n, depth)[k] == block_verdict(
                facts,
                names[k],
                depth,
            ),
    decreases n,
{
    if n > 0 {
        lemma_block_verdicts(facts, names, n - 1, depth);
    }
}

} // verus!
