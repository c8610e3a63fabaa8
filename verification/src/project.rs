//! Project identity: the instance id that keys the socket, PID and log files.
use vstd::prelude::*;

use crate::text::{
    all_ws, alphanumeric, append_str, chars_of, is_alphanumeric, is_blank, lowercase, string_from,
    to_lowercase,
};

verus! {

/// The character that stands for `c` in a sanitized id: `c` itself when it
/// is alphanumeric or `-`, else `-`.
pub open spec fn safe_char(c: char) -> char {
    if alphanumeric(c) || c == '-' {
        c
    } else {
        '-'
    }
}

/// `s` lowercased, with every character that is neither alphanumeric nor
/// `-` replaced by `-`.
pub open spec fn sanitized(s: Seq<char>) -> Seq<char> {
    lowercase(s).map_values(|c: char| safe_char(c))
}

/// The view of an optional string slice.
pub open spec fn opt_view(o: Option<&str>) -> Option<Seq<char>> {
    match o {
        Some(s) => Some(s@),
        None => None,
    }
}

/// The effective instance id. First match wins: the explicit flag
/// (sanitized); a non-blank environment value (sanitized); inside a linked
/// worktree, `{name}-{sanitized suffix}`; else the configured name verbatim.
pub open spec fn project_id(
    config_name: Seq<char>,
    flag: Option<Seq<char>>,
    env: Option<Seq<char>>,
    worktree_suffix: Option<Seq<char>>,
) -> Seq<char> {
    match flag {
        Some(p) => sanitized(p),
        None => {
            if env is Some && !all_ws(env->0) {
                sanitized(env->0)
            } else {
                match worktree_suffix {
                    Some(sfx) => config_name + seq!['-'] + sanitized(sfx),
                    None => config_name,
                }
            }
        },
    }
}

/// Makes `s` safe as a file-name segment: lowercase, and every character
/// that is not alphanumeric or `-` becomes `-`.
pub fn sanitize(s: &str) -> (r: String)
    ensures
        r@ == sanitized(s@),
{
    let low = to_lowercase(s);
    sanitize_lowered(low.as_str())
}

/// The second half of `sanitize`, on text that is already lowercased:
/// every character that is not alphanumeric or `-` becomes `-`.
pub fn sanitize_lowered(low: &str) -> (r: String)
    ensures
        r@ == low@.map_values(|c: char| safe_char(c)),
{
    let v = chars_of(low);
    let mut out: Vec<char> = Vec::new();
    let mut i: usize = 0;
    while i < v.len()
        invariant
            v@ == low@,
            i <= v.len(),
            out@ == v@.take(i as int).map_values(|c: char| safe_char(c)),
        decreases v.len() - i,
    {
        let c = v[i];
        let d = if is_alphanumeric(c) || c == '-' {
            c
        } else {
            '-'
        };
        out.push(d);
        proof {
            assert(v@.take(i + 1).map_values(|c: char| safe_char(c)) =~= v@.take(
                i as int,
            ).map_values(|c: char| safe_char(c)).push(safe_char(c)));
        }
        i = i + 1;
    }
    proof {
        assert(v@.take(v.len() as int) =~= v@);
    }
    string_from(&out)
}

/// The effective instance id from the configured name, the `--project`
/// flag, the `DEVX_PROJECT` value and the linked worktree's directory name
/// (each when present).
pub fn resolve_project_id_with(
    config_name: &str,
    flag: Option<&str>,
    env: Option<&str>,
    worktree_suffix: Option<&str>,
) -> (r: String)
    ensures
        r@ == project_id(config_name@, opt_view(flag), opt_view(env), opt_view(worktree_suffix)),
{
    if let Some(p) = flag {
        return sanitize(p);
    }
    if let Some(e) = env {
        if !is_blank(e) {
            return sanitize(e);
        }
    }
    if let Some(sfx) = worktree_suffix {
        let mut out = config_name.to_owned();
        append_str(&mut out, "-");
        let tail = sanitize(sfx);
        append_str(&mut out, tail.as_str());
        proof {
            reveal_strlit("-");
        }
        return out;
    }
    config_name.to_owned()
}

/// Every character of a sanitized id is alphanumeric or `-`.
pub proof fn lemma_sanitized_chars(s: Seq<char>)
    ensures
        forall|i: int|
            0 <= i < sanitized(s).len() ==> alphanumeric(#[trigger] sanitized(s)[i])
                || sanitized(s)[i] == '-',
        sanitized(s).len() == lowercase(s).len(),
{
}

/// Two strings with the same lowercase form sanitize to the same id.
pub proof fn lemma_sanitized_by_lowercase(a: Seq<char>, b: Seq<char>)
    requires
        lowercase(a) == lowercase(b),
    ensures
        sanitized(a) == sanitized(b),
{
}

/// The precedence of the id sources: the flag wins over everything; a
/// non-blank environment value wins over the worktree; a blank one is
/// ignored; with none of the three the configured name comes back verbatim.
pub proof fn lemma_project_id_precedence(
    name: Seq<char>,
    flag: Option<Seq<char>>,
    env: Option<Seq<char>>,
    wt: Option<Seq<char>>,
)
    ensures
        flag matches Some(p) ==> project_id(name, flag, env, wt) == sanitized(p),
        (flag is None && env is Some && !all_ws(env->0)) ==> project_id(name, flag, env, wt)
            == sanitized(env->0),
        (flag is None && env is Some && all_ws(env->0)) ==> project_id(name, flag, env, wt)
            == project_id(name, None, None, wt),
        project_id(name, None, None, None) == name,
        wt matches Some(s) ==> project_id(name, None, None, wt) == name + seq!['-'] + sanitized(
            s,
        ),
{
}

} // verus!
