//! What the library reads from git's answers: the branch, whether the
//! checkout is a linked worktree, the worktree's directory name, and the
//! branch-prefixed vhost domain.
use vstd::prelude::*;

use crate::config::opt_str;
use crate::project::{opt_view, sanitize, sanitized};
use crate::text::{append_str, chars_of, slice_chars, str_eq, string_from, trim, trim_chars};

verus! {

/// The branches that get no branch-prefixed domain: `main`, `master`, and
/// `HEAD` (a detached checkout).
pub open spec fn is_default_branch(b: Seq<char>) -> bool {
    b == "main"@ || b == "master"@ || b == "HEAD"@
}

/// The branch-prefixed variant of `domain`: `{sanitized branch}.{domain}`,
/// or none outside git and on a default branch.
pub open spec fn branch_domain_of(branch: Option<Seq<char>>, domain: Seq<char>) -> Option<
    Seq<char>,
> {
    match branch {
        None => None,
        Some(b) => if is_default_branch(b) {
            None
        } else {
            Some(sanitized(b) + seq!['.'] + domain)
        },
    }
}

/// Outside `main`, `master` and `HEAD`, a branch always gets its prefixed
/// domain `{sanitized branch}.{domain}`; on those three, and outside git,
/// none.
pub proof fn lemma_branch_domain_cases(b: Seq<char>, domain: Seq<char>)
    ensures
        b != "main"@ && b != "master"@ && b != "HEAD"@ ==> branch_domain_of(Some(b), domain)
            == Some(sanitized(b) + "."@ + domain),
        b == "main"@ || b == "master"@ || b == "HEAD"@ ==> branch_domain_of(Some(b), domain) is None,
        branch_domain_of(None, domain) is None,
{
    reveal_strlit(".");
}


/// The branch-prefixed domain for `domain` on `branch` (the current branch,
/// when in a git repository). e.g. `fix-auth` and `api.localhost` give
/// `fix-auth.api.localhost`; `main`, `master` and `HEAD` give none.
pub fn branch_domain(branch: Option<&str>, domain: &str) -> (r: Option<String>)
    ensures
        opt_str(r) == branch_domain_of(opt_view(branch), domain@),
{
    let b = match branch {
        Some(b) => b,
        None => return None,
    };
    if str_eq(b, "main") || str_eq(b, "master") || str_eq(b, "HEAD") {
        return None;
    }
    let mut out = sanitize(b);
    append_str(&mut out, ".");
    append_str(&mut out, domain);
    proof {
        reveal_strlit(".");
    }
    Some(out)
}

/// The branch named by the output of `git rev-parse --abbrev-ref HEAD`:
/// the trimmed text, or none when that is empty.
pub open spec fn branch_of_output(out: Seq<char>) -> Option<Seq<char>> {
    if trim(out).len() == 0 {
        None
    } else {
        Some(trim(out))
    }
}

/// Reads the current branch from the output of
/// `git rev-parse --abbrev-ref HEAD`.
pub fn branch_from_output(stdout: &str) -> (r: Option<String>)
    ensures
        match r {
            Some(s) => branch_of_output(stdout@) == Some(s@),
            None => branch_of_output(stdout@) is None,
        },
{
    let v = chars_of(stdout);
    let t = trim_chars(&v);
    if t.len() == 0 {
        None
    } else {
        Some(string_from(&t))
    }
}

/// Whether the checkout is a linked worktree: git's directory and its
/// common directory (each as printed by `git rev-parse`) are both known and
/// differ once trimmed.
pub open spec fn linked_worktree(git_dir: Option<Seq<char>>, common_dir: Option<Seq<char>>) -> bool {
    match (git_dir, common_dir) {
        (Some(g), Some(c)) => trim(g) != trim(c),
        _ => false,
    }
}

/// Decides from the outputs of `git rev-parse --git-dir` and
/// `git rev-parse --git-common-dir` (none where the command failed) whether
/// the current directory is a linked worktree rather than the main one.
pub fn is_linked_worktree(git_dir: Option<&str>, common_dir: Option<&str>) -> (r: bool)
    ensures
        r == linked_worktree(opt_view(git_dir), opt_view(common_dir)),
{
    match (git_dir, common_dir) {
        (Some(g), Some(c)) => {
            let gt = trim_chars(&chars_of(g));
            let ct = trim_chars(&chars_of(c));
            !crate::text::chars_eq(&gt, &ct)
        },
        _ => false,
    }
}

/// The start of the path segment that ends at `j`: just after the last `/`
/// before `j`, or 0.
pub open spec fn seg_start(p: Seq<char>, j: nat) -> nat
    decreases j,
{
    if j == 0 || j > p.len() || p[j - 1] == '/' {
        j
    } else {
        seg_start(p, (j - 1) as nat)
    }
}

/// The last component of the path `p.take(j)`, as `Path::file_name` finds
/// it: empty and `.` segments are skipped, and a final `..` (or no segment
/// at all) gives none.
pub open spec fn name_before(p: Seq<char>, j: nat) -> Option<Seq<char>>
    decreases j,
{
    let i = seg_start(p, j);
    let seg = p.subrange(i as int, j as int);
    if i <= j && (seg.len() == 0 || seg == seq!['.']) {
        if i == 0 {
            None
        } else {
            name_before(p, (i - 1) as nat)
        }
    } else if seg == seq!['.', '.'] {
        None
    } else {
        Some(seg)
    }
}

/// The last component of the path `p`.
pub open spec fn file_name(p: Seq<char>) -> Option<Seq<char>> {
    name_before(p, p.len())
}

proof fn lemma_seg_start(p: Seq<char>, j: nat)
    requires
        j <= p.len(),
    ensures
        seg_start(p, j) <= j,
        seg_start(p, j) == 0 || p[seg_start(p, j) - 1] == '/',
        forall|k: int| seg_start(p, j) <= k < j ==> p[k] != '/',
    decreases j,
{
    if j == 0 || p[j - 1] == '/' {
    } else {
        lemma_seg_start(p, (j - 1) as nat);
    }
}

/// The last component of the path held in `p`.
pub fn path_file_name(p: &Vec<char>) -> (r: Option<Vec<char>>)
    ensures
        match r {
            Some(v) => file_name(p@) == Some(v@),
            None => file_name(p@) is None,
        },
{
    let mut j: usize = p.len();
    loop
        invariant
            j <= p.len(),
            name_before(p@, j as nat) == file_name(p@),
        decreases j,
    {
        let mut i: usize = j;
        while i > 0 && p[i - 1] != '/'
            invariant
                i <= j <= p.len(),
                seg_start(p@, i as nat) == seg_start(p@, j as nat),
            decreases i,
        {
            i = i - 1;
        }
        proof {
            lemma_seg_start(p@, j as nat);
        }
        let seg = slice_chars(p, i, j);
        let is_dot = seg.len() == 1 && seg[0] == '.';
        let is_dotdot = seg.len() == 2 && seg[0] == '.' && seg[1] == '.';
        proof {
            if is_dot {
                assert(seg@ =~= seq!['.']);
            } else {
                assert(seg@ != seq!['.']) by {
                    if seg@ == seq!['.'] {
                        assert(seg@.len() == 1 && seg@[0] == '.');
                    }
                }
            }
            if is_dotdot {
                assert(seg@ =~= seq!['.', '.']);
            } else {
                assert(seg@ != seq!['.', '.']) by {
                    if seg@ == seq!['.', '.'] {
                        assert(seg@.len() == 2 && seg@[0] == '.' && seg@[1] == '.');
                    }
                }
            }
        }
        if seg.len() == 0 || is_dot {
            if i == 0 {
                return None;
            }
            j = i - 1;
        } else if is_dotdot {
            return None;
        } else {
            return Some(seg);
        }
    }
}

/// The name of the worktree's checkout directory, read from the output of
/// `git rev-parse --show-toplevel`: the last component of the trimmed path.
pub fn worktree_basename(stdout: &str) -> (r: Option<String>)
    ensures
        match r {
            Some(s) => file_name(trim(stdout@)) == Some(s@),
            None => file_name(trim(stdout@)) is None,
        },
{
    let t = trim_chars(&chars_of(stdout));
    match path_file_name(&t) {
        Some(v) => Some(string_from(&v)),
        None => None,
    }
}

} // verus!
