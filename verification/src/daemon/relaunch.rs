//! Command lines for Windows.

use crate::text::{chars_of, join, joined, views};
use vstd::prelude::*;

verus! {

/// So many backslashes.
pub open spec fn slashes(n: nat) -> Seq<char> {
    Seq::new(n, |i: int| '\\')
}

/// What stands between the quotes for a text, where so many backslashes precede it. Backslashes are
/// doubled in front of a quote, at the end too, and nowhere else.
pub open spec fn quoted_body(s: Seq<char>, pending: nat) -> Seq<char>
    decreases s.len(),
{
    if s.len() == 0 {
        slashes(2 * pending)
    } else if s[0] == '\\' {
        quoted_body(s.drop_first(), pending + 1)
    } else if s[0] == '"' {
        slashes(2 * pending + 1).push('"') + quoted_body(s.drop_first(), 0)
    } else {
        slashes(pending).push(s[0]) + quoted_body(s.drop_first(), 0)
    }
}

/// An argument in quotes.
pub open spec fn quoted_arg(arg: Seq<char>) -> Seq<char> {
    seq!['"'] + quoted_body(arg, 0) + seq!['"']
}

/// Appends so many backslashes.
fn push_slashes(out: &mut String, n: usize)
    ensures
        final(out)@ == old(out)@ + slashes(n as nat),
{
    proof {
        assert(out@ + slashes(0) =~= out@);
    }
    for i in 0..n
        invariant
            out@ == old(out)@ + slashes(i as nat),
    {
        out.push('\\');
        proof {
            assert(out@ =~= old(out)@ + slashes((i + 1) as nat));
        }
    }
}

/// An argument in quotes, as programs on Windows read it.
pub fn quote_windows_arg(arg: &str) -> (out: String)
    ensures
        out@ == quoted_arg(arg@),
{
    let chars = chars_of(arg);
    let ghost all = arg@;
    let mut out = "\"".to_string();
    let mut backslashes: usize = 0;
    proof {
        reveal_strlit("\"");
        assert(out@ =~= seq!['"']);
        assert(all.skip(0) =~= all);
    }
    for i in 0..chars.len()
        invariant
            chars@ == all,
            backslashes <= i,
            out@ + quoted_body(all.skip(i as int), backslashes as nat) == seq!['"'] + quoted_body(
                all,
                0,
            ),
    {
        let c = chars[i];
        let ghost rest = all.skip(i as int);
        let ghost was = out@;
        let ghost p = backslashes as nat;
        proof {
            assert(rest[0] == c);
            assert(rest.drop_first() =~= all.skip(i + 1));
        }
        if c == '\\' {
            backslashes = backslashes + 1;
        } else if c == '"' {
            push_slashes(&mut out, backslashes);
            push_slashes(&mut out, backslashes);
            push_slashes(&mut out, 1);
            out.push('"');
            proof {
                assert(out@ =~= was + slashes(2 * p + 1).push('"'));
                assert(out@ + quoted_body(all.skip(i + 1), 0) =~= was + (slashes(2 * p + 1).push(
                    '"',
                ) + quoted_body(all.skip(i + 1), 0)));
            }
            backslashes = 0;
        } else {
            push_slashes(&mut out, backslashes);
            out.push(c);
            proof {
                assert(out@ =~= was + slashes(p).push(c));
                assert(out@ + quoted_body(all.skip(i + 1), 0) =~= was + (slashes(p).push(c)
                    + quoted_body(all.skip(i + 1), 0)));
            }
            backslashes = 0;
        }
    }
    let ghost was = out@;
    let ghost p = backslashes as nat;
    push_slashes(&mut out, backslashes);
    push_slashes(&mut out, backslashes);
    out.push('"');
    proof {
        assert(all.skip(all.len() as int) =~= Seq::empty());
        assert(out@ =~= was + slashes(2 * p) + seq!['"']);
    }
    out
}

/// `quoted_arg` as a function.
pub open spec fn quoting() -> spec_fn(Seq<char>) -> Seq<char> {
    |s: Seq<char>| quoted_arg(s)
}

/// Arguments as a command line.
pub fn join_windows_command_line(args: &Vec<String>) -> (r: String)
    ensures
        r@ == joined(views(args@).map_values(quoting()), " "@),
{
    let mut parts: Vec<String> = Vec::new();
    for i in 0..args.len()
        invariant
            parts.len() == i,
            forall|j: int| 0 <= j < i ==> (#[trigger] parts@[j])@ == quoted_arg(args@[j]@),
    {
        parts.push(quote_windows_arg(args[i].as_str()));
    }
    proof {
        assert(views(parts@) =~= views(args@).map_values(quoting()));
    }
    join(&parts, " ")
}

/// The arguments that the daemon is started with again: the configuration, a mark that it was
/// tried, and what it was started with.
pub fn relaunch_arguments(config: &str, no_gui: bool, hidden: bool) -> (out: Vec<String>)
    ensures
        views(out@) == seq!["--config"@, config@, "--elevation-attempted"@] + (if no_gui {
            seq!["--no-gui"@]
        } else {
            Seq::empty()
        }) + (if hidden {
            seq!["--hidden"@]
        } else {
            Seq::empty()
        }),
{
    let mut out: Vec<String> = Vec::new();
    out.push("--config".to_string());
    out.push(config.to_string());
    out.push("--elevation-attempted".to_string());
    proof {
        assert(views(out@) =~= seq!["--config"@, config@, "--elevation-attempted"@]);
    }
    let ghost first = views(out@);
    if no_gui {
        out.push("--no-gui".to_string());
    }
    proof {
        assert(views(out@) =~= first + (if no_gui {
            seq!["--no-gui"@]
        } else {
            Seq::empty()
        }));
    }
    let ghost second = views(out@);
    if hidden {
        out.push("--hidden".to_string());
    }
    proof {
        assert(views(out@) =~= second + (if hidden {
            seq!["--hidden"@]
        } else {
            Seq::empty()
        }));
    }
    out
}

/// What a program on Windows reads behind an opening quote, where so many backslashes precede: two
/// backslashes in front of a quote give one, a backslash that is left makes the quote part of the
/// argument, and a quote without it has to end the text.
pub open spec fn read_quoted(t: Seq<char>, pending: nat) -> Option<Seq<char>>
    decreases t.len(),
{
    if t.len() == 0 {
        None
    } else if t[0] == '\\' {
        read_quoted(t.drop_first(), pending + 1)
    } else if t[0] == '"' && pending % 2 == 0 {
        if t.len() == 1 {
            Some(slashes(pending / 2))
        } else {
            None
        }
    } else {
        let front = if t[0] == '"' {
            slashes(pending / 2).push('"')
        } else {
            slashes(pending).push(t[0])
        };
        match read_quoted(t.drop_first(), 0) {
            Some(v) => Some(front + v),
            None => None,
        }
    }
}

proof fn lemma_read_slashes(n: nat, u: Seq<char>, pending: nat)
    ensures
        read_quoted(slashes(n) + u, pending) == read_quoted(u, pending + n),
    decreases n,
{
    if n == 0 {
        assert(slashes(0) + u =~= u);
    } else {
        let t = slashes(n) + u;
        assert(t[0] == '\\');
        assert(t.drop_first() =~= slashes((n - 1) as nat) + u);
        lemma_read_slashes((n - 1) as nat, u, pending + 1);
    }
}

proof fn lemma_read_body(s: Seq<char>, pending: nat)
    ensures
        read_quoted(quoted_body(s, pending).push('"'), 0) == Some(slashes(pending) + s),
    decreases s.len(),
{
    let t = quoted_body(s, pending).push('"');
    if s.len() == 0 {
        assert(t =~= slashes(2 * pending) + seq!['"']);
        lemma_read_slashes(2 * pending, seq!['"'], 0);
        assert(slashes(pending) + s =~= slashes(pending));
    } else {
        let rest = s.drop_first();
        if s[0] == '\\' {
            lemma_read_body(rest, pending + 1);
            assert(slashes(pending + 1) + rest =~= slashes(pending) + s);
        } else {
            lemma_read_body(rest, 0);
            let x = quoted_body(rest, 0).push('"');
            let u = seq![s[0]] + x;
            assert(u.drop_first() =~= x);
            assert(slashes(0) + rest =~= rest);
            if s[0] == '"' {
                assert(t =~= slashes(2 * pending + 1) + u);
                lemma_read_slashes(2 * pending + 1, u, 0);
                assert((2 * pending + 1) / 2 == pending);
                assert(slashes(pending).push('"') + rest =~= slashes(pending) + s);
            } else {
                assert(t =~= slashes(pending) + u);
                lemma_read_slashes(pending, u, 0);
                assert(slashes(pending).push(s[0]) + rest =~= slashes(pending) + s);
            }
        }
    }
}

/// A program on Windows reads back the argument that was quoted.
pub proof fn windows_reads_back_quoted(arg: Seq<char>)
    ensures
        quoted_arg(arg)[0] == '"',
        read_quoted(quoted_arg(arg).drop_first(), 0) == Some(arg),
{
    lemma_read_body(arg, 0);
    assert(quoted_arg(arg).drop_first() =~= quoted_body(arg, 0).push('"'));
    assert(slashes(0) + arg =~= arg);
}

} // verus!
