//! Which file-system changes the watchers act on.
use vstd::prelude::*;

use crate::git::{file_name, path_file_name};
use crate::text::{chars_eq, chars_of, slice_chars, str_eq};

verus! {

/// Milliseconds a service directory's changes are gathered before acting.
pub const SERVICE_DEBOUNCE_MS: u64 = 300;

/// Milliseconds `devx.toml` changes are gathered before reloading.
pub const CONFIG_DEBOUNCE_MS: u64 = 500;

/// Directories whose changes never restart a service.
pub open spec fn ignored_name(s: Seq<char>) -> bool {
    s == "node_modules"@ || s == "target"@ || s == ".git"@ || s == "__pycache__"@ || s == ".next"@
        || s == ".nuxt"@ || s == "dist"@ || s == ".cache"@
}

/// `p[i..j]` is a whole `/`-separated component of the path `p`.
pub open spec fn is_component(p: Seq<char>, i: int, j: int) -> bool {
    &&& 0 <= i <= j <= p.len()
    &&& (i == 0 || p[i - 1] == '/')
    &&& (j == p.len() || p[j] == '/')
    &&& forall|k: int| i <= k < j ==> p[k] != '/'
}

/// Some component of the path `p` is an ignored directory.
pub open spec fn in_ignored_dir(p: Seq<char>) -> bool {
    exists|i: int, j: int| is_component(p, i, j) && ignored_name(#[trigger] p.subrange(i, j))
}

/// A change inside any of the directories `node_modules`, `target`, `.git`,
/// `__pycache__`, `.next`, `.nuxt`, `dist` or `.cache` (a whole path
/// component) is ignored; a change none of whose components is one of them
/// is acted on.
pub proof fn lemma_ignored_dirs(p: Seq<char>)
    ensures
        (exists|i: int, j: int|
            is_component(p, i, j) && ({
                let s = #[trigger] p.subrange(i, j);
                s == "node_modules"@ || s == "target"@ || s == ".git"@ || s == "__pycache__"@ || s
                    == ".next"@ || s == ".nuxt"@ || s == "dist"@ || s == ".cache"@
            })) <==> in_ignored_dir(p),
{
}

fn is_ignored_name(s: &Vec<char>) -> (r: bool)
    ensures
        r == ignored_name(s@),
{
    let t = crate::text::string_from(s);
    let n = t.as_str();
    str_eq(n, "node_modules") || str_eq(n, "target") || str_eq(n, ".git") || str_eq(
        n,
        "__pycache__",
    ) || str_eq(n, ".next") || str_eq(n, ".nuxt") || str_eq(n, "dist") || str_eq(n, ".cache")
}

/// Whether a changed path lies in an ignored directory (`node_modules`,
/// `target`, `.git`, `__pycache__`, `.next`, `.nuxt`, `dist`, `.cache`).
pub fn should_ignore(path: &str) -> (r: bool)
    ensures
        r == in_ignored_dir(path@),
{
    let v = chars_of(path);
    let mut start: usize = 0;
    let mut i: usize = 0;
    while i < v.len()
        invariant
            v@ == path@,
            start <= i <= v.len(),
            start == 0 || v@[start - 1] == '/',
            forall|k: int| start <= k < i ==> v@[k] != '/',
            forall|a: int, b: int| is_component(v@, a, b) && b < i ==> !ignored_name(
                #[trigger] v@.subrange(a, b),
            ),
        decreases v.len() - i,
    {
        if v[i] == '/' {
            let seg = slice_chars(&v, start, i);
            proof {
                assert(is_component(v@, start as int, i as int));
            }
            if is_ignored_name(&seg) {
                return true;
            }
            proof {
                assert forall|a: int, b: int|
                    is_component(v@, a, b) && b < i + 1 implies !ignored_name(
                    #[trigger] v@.subrange(a, b),
                ) by {
                    if b == i {
                        if a < start {
                            assert(v@[start - 1] == '/');
                        } else if a > start {
                            assert(v@[a - 1] == '/');
                        }
                    }
                }
            }
            start = i + 1;
        } else {
            proof {
                assert forall|a: int, b: int|
                    is_component(v@, a, b) && b < i + 1 implies !ignored_name(
                    #[trigger] v@.subrange(a, b),
                ) by {
                    if b == i {
                        assert(v@[b] == '/');
                    }
                }
            }
        }
        i = i + 1;
    }
    let seg = slice_chars(&v, start, v.len());
    proof {
        assert(is_component(v@, start as int, v.len() as int));
    }
    if is_ignored_name(&seg) {
        return true;
    }
    proof {
        assert forall|a: int, b: int| is_component(v@, a, b) implies !ignored_name(
            #[trigger] v@.subrange(a, b),
        ) by {
            if b == v.len() {
                if a < start {
                    assert(v@[start - 1] == '/');
                } else if a > start {
                    assert(v@[a - 1] == '/');
                }
            }
        }
    }
    false
}

/// Whether a changed path is the configuration file itself: its last
/// component is `devx.toml`.
pub fn is_config_file(path: &str) -> (r: bool)
    ensures
        r == (file_name(path@) == Some("devx.toml"@)),
{
    let v = chars_of(path);
    match path_file_name(&v) {
        Some(n) => {
            let t = crate::text::string_from(&n);
            str_eq(t.as_str(), "devx.toml")
        },
        None => false,
    }
}

} // verus!
