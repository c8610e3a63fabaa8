//! Infrastructure checks: reading `docker compose ps` and reporting the
//! containers that are not running.
use vstd::prelude::*;

use crate::text::{
    append_str, chars_of, join_strings, joined, slice_chars, str_eq, string_from, trim, trim_chars,
    views,
};

verus! {

/// One container as `docker compose ps --format json` lists it.
#[derive(Debug)]
pub struct ComposeEntry {
    pub name: String,
    pub state: String,
}

/// The `\n`-separated lines of `s` from index `i` on.
pub open spec fn lines_from(s: Seq<char>, i: nat) -> Seq<Seq<char>>
    decreases s.len() - i,
{
    if i > s.len() {
        Seq::empty()
    } else {
        proof {
            lemma_newline_from(s, i);
        }
        let j = newline_from(s, i);
        if j >= s.len() {
            seq![s.subrange(i as int, s.len() as int)]
        } else {
            seq![s.subrange(i as int, j as int)] + lines_from(s, j + 1)
        }
    }
}

/// The index of the first `\n` at or after `i` (the length when none).
pub open spec fn newline_from(s: Seq<char>, i: nat) -> nat
    decreases s.len() - i,
{
    if i >= s.len() || s[i as int] == '\n' {
        i
    } else {
        newline_from(s, i + 1)
    }
}

/// The first newline at or after `i` lies between `i` and the end.
pub proof fn lemma_newline_from(s: Seq<char>, i: nat)
    requires
        i <= s.len(),
    ensures
        i <= newline_from(s, i) <= s.len(),
    decreases s.len() - i,
{
    if i < s.len() && s[i as int] != '\n' {
        lemma_newline_from(s, i + 1);
    }
}

/// The lines of the output worth reading: each line trimmed, blank ones
/// left out, in order.
pub open spec fn listed_lines(s: Seq<char>) -> Seq<Seq<char>> {
    lines_from(s, 0).map_values(|l: Seq<char>| trim(l)).filter(|l: Seq<char>| l.len() > 0)
}

/// The trimmed, non-blank lines of a command's output.
pub fn output_lines(text: &str) -> (r: Vec<String>)
    ensures
        views(r@) == listed_lines(text@),
{
    let v = chars_of(text);
    let ghost all = lines_from(v@, 0).map_values(|l: Seq<char>| trim(l));
    let ghost nonblank = |l: Seq<char>| l.len() > 0;
    let mut out: Vec<String> = Vec::new();
    let mut i: usize = 0;
    let ghost mut done: Seq<Seq<char>> = Seq::empty();
    loop
        invariant
            v@ == text@,
            i <= v.len(),
            nonblank == (|l: Seq<char>| l.len() > 0),
            all == lines_from(v@, 0).map_values(|l: Seq<char>| trim(l)),
            all == done + lines_from(v@, i as nat).map_values(|l: Seq<char>| trim(l)),
            views(out@) == done.filter(nonblank),
        decreases v.len() - i,
    {
        let mut j: usize = i;
        while j < v.len() && v[j] != '\n'
            invariant
                i <= j <= v.len(),
                newline_from(v@, j as nat) == newline_from(v@, i as nat),
            decreases v.len() - j,
        {
            j = j + 1;
        }
        proof {
            lemma_newline_from(v@, i as nat);
        }
        let line = slice_chars(&v, i, j);
        let t = trim_chars(&line);
        let ghost before = out@;
        proof {
            done.lemma_filter_push(trim(line@), nonblank);
        }
        if t.len() > 0 {
            out.push(string_from(&t));
            proof {
                assert(views(out@) =~= views(before).push(t@));
            }
        }
        proof {
            done = done.push(trim(line@));
        }
        if j >= v.len() {
            proof {
                assert(lines_from(v@, i as nat) =~= seq![line@]);
                assert(all =~= done);
            }
            return out;
        }
        proof {
            assert(lines_from(v@, i as nat).map_values(|l: Seq<char>| trim(l)) =~= seq![
                trim(line@),
            ] + lines_from(v@, (j + 1) as nat).map_values(|l: Seq<char>| trim(l)));
        }
        i = j + 1;
    }
}

/// The report lines of the containers that are not running:
/// `  - {name} ({state})`, in order.
pub open spec fn down_lines(entries: Seq<ComposeEntry>) -> Seq<Seq<char>> {
    entries.filter(|e: ComposeEntry| e.state@ != "running"@).map_values(
        |e: ComposeEntry| "  - "@ + e.name@ + " ("@ + e.state@ + ")"@,
    )
}

/// Checks the containers listed by `docker compose ps`: none when all are
/// running, else the message naming the others.
pub fn compose_problems(entries: &Vec<ComposeEntry>) -> (r: Option<String>)
    ensures
        match r {
            None => down_lines(entries@).len() == 0,
            Some(m) => down_lines(entries@).len() > 0 && m@
                == "The following infra services are not running:\n"@ + joined(
                down_lines(entries@),
                "\n"@,
            ) + "\n\nRun `docker compose up -d` to start them."@,
        },
{
    let ghost down = |e: ComposeEntry| e.state@ != "running"@;
    let ghost fmt = |e: ComposeEntry| "  - "@ + e.name@ + " ("@ + e.state@ + ")"@;
    let mut lines: Vec<String> = Vec::new();
    let mut i: usize = 0;
    while i < entries.len()
        invariant
            i <= entries.len(),
            down == (|e: ComposeEntry| e.state@ != "running"@),
            fmt == (|e: ComposeEntry| "  - "@ + e.name@ + " ("@ + e.state@ + ")"@),
            views(lines@) == entries@.take(i as int).filter(down).map_values(fmt),
        decreases entries.len() - i,
    {
        let e = &entries[i];
        proof {
            assert(entries@.take(i + 1) =~= entries@.take(i as int).push(entries@[i as int]));
            entries@.take(i as int).lemma_filter_push(entries@[i as int], down);
        }
        if !str_eq(e.state.as_str(), "running") {
            let mut l = "  - ".to_owned();
            append_str(&mut l, e.name.as_str());
            append_str(&mut l, " (");
            append_str(&mut l, e.state.as_str());
            append_str(&mut l, ")");
            let ghost before = lines@;
            lines.push(l);
            proof {
                assert(views(lines@) =~= views(before).push(fmt(entries@[i as int])));
                assert(entries@.take(i + 1).filter(down).map_values(fmt) =~= entries@.take(
                    i as int,
                ).filter(down).map_values(fmt).push(fmt(entries@[i as int])));
            }
        }
        i = i + 1;
    }
    proof {
        assert(entries@.take(entries.len() as int) =~= entries@);
    }
    if lines.len() == 0 {
        return None;
    }
    let mut m = "The following infra services are not running:\n".to_owned();
    let body = join_strings(&lines, "\n");
    append_str(&mut m, body.as_str());
    append_str(&mut m, "\n\nRun `docker compose up -d` to start them.");
    Some(m)
}

/// The error when `docker compose up -d` fails, with its trimmed stderr.
pub fn compose_up_failed(stderr: &str) -> (r: String)
    ensures
        r@ == "`docker compose up -d` failed:\n"@ + trim(stderr@),
{
    let mut m = "`docker compose up -d` failed:\n".to_owned();
    let t = string_from(&trim_chars(&chars_of(stderr)));
    append_str(&mut m, t.as_str());
    m
}

/// The error when `docker compose ps` fails, with its trimmed stderr.
pub fn compose_ps_failed(stderr: &str) -> (r: String)
    ensures
        r@ == "`docker compose ps` failed.\n"@ + trim(stderr@)
            + "\n\nIs Docker running and is the compose file valid?"@,
{
    let mut m = "`docker compose ps` failed.\n".to_owned();
    let t = string_from(&trim_chars(&chars_of(stderr)));
    append_str(&mut m, t.as_str());
    append_str(&mut m, "\n\nIs Docker running and is the compose file valid?");
    m
}

} // verus!
