//! Framework detection from a service's command (and its `package.json`),
//! and how each framework is told which port to use.
use vstd::prelude::*;

use crate::events::opt_text;
use crate::text::{append_dec, append_str, contains_seq, contains_str, dec};

verus! {

/// A detected framework, with its port-injection strategy.
#[derive(Debug, Clone, Copy, PartialEq, Eq, Structural)]
pub enum Framework {
    /// Vite/Astro/React Router: `--port` and `--host` flags.
    Vite,
    /// Next.js: the `PORT` environment variable.
    NextJs,
    /// Express/Node: the `PORT` environment variable.
    Node,
    /// Go (`go run`): whatever the configuration sets.
    Go,
    /// Python (uvicorn/gunicorn): a port flag.
    Python,
    /// Encore: `--port=`.
    Encore,
    /// Unknown: nothing is injected.
    Unknown,
}

/// The framework of a service whose command is `cmd` and whose working
/// directory holds a `package.json` with contents `pkg` (if any). The
/// command is checked first, then the package file.
pub open spec fn detected(cmd: Seq<char>, pkg: Option<Seq<char>>) -> Framework {
    if contains_seq(cmd, "encore"@) {
        Framework::Encore
    } else if contains_seq(cmd, "vite"@) || contains_seq(cmd, "astro"@) {
        Framework::Vite
    } else if contains_seq(cmd, "next"@) {
        Framework::NextJs
    } else if contains_seq(cmd, "uvicorn"@) || contains_seq(cmd, "gunicorn"@) {
        Framework::Python
    } else if contains_seq(cmd, "go run"@) {
        Framework::Go
    } else {
        match pkg {
            Some(c) => if contains_seq(c, "\"vite\""@) || contains_seq(c, "\"astro\""@) {
                Framework::Vite
            } else if contains_seq(c, "\"next\""@) {
                Framework::NextJs
            } else {
                Framework::Node
            },
            None => Framework::Unknown,
        }
    }
}

/// The command with a port flag added for `port`, or none when the
/// command already names a port or the framework takes it otherwise.
pub open spec fn injected(f: Framework, cmd: Seq<char>, port: nat) -> Option<Seq<char>> {
    if contains_seq(cmd, "${port}"@) || contains_seq(cmd, "--port"@) {
        None
    } else {
        match f {
            Framework::Vite => Some(cmd + " --port "@ + dec(port) + " --host"@),
            Framework::Python => if contains_seq(cmd, "uvicorn"@) {
                Some(cmd + " --port "@ + dec(port))
            } else if contains_seq(cmd, "gunicorn"@) {
                Some(cmd + " -b 127.0.0.1:"@ + dec(port))
            } else {
                None
            },
            Framework::Encore => Some(cmd + " --port="@ + dec(port)),
            _ => None,
        }
    }
}

impl Framework {
    /// Detects the framework from the command and the contents of the
    /// working directory's `package.json` (none when there is no such file).
    pub fn detect(cmd: &str, package_json: Option<&str>) -> (f: Framework)
        ensures
            f == detected(
                cmd@,
                match package_json {
                    Some(p) => Some(p@),
                    None => None,
                },
            ),
    {
        if contains_str(cmd, "encore") {
            return Framework::Encore;
        }
        if contains_str(cmd, "vite") || contains_str(cmd, "astro") {
            return Framework::Vite;
        }
        if contains_str(cmd, "next") {
            return Framework::NextJs;
        }
        if contains_str(cmd, "uvicorn") || contains_str(cmd, "gunicorn") {
            return Framework::Python;
        }
        if contains_str(cmd, "go run") {
            return Framework::Go;
        }
        match package_json {
            Some(content) => {
                if contains_str(content, "\"vite\"") || contains_str(content, "\"astro\"") {
                    return Framework::Vite;
                }
                if contains_str(content, "\"next\"") {
                    return Framework::NextJs;
                }
                Framework::Node
            },
            None => Framework::Unknown,
        }
    }

    /// The command with this framework's port flag for `port`, or none when
    /// the command already holds `${port}` or `--port`, or the framework
    /// takes its port from the environment.
    pub fn inject_port_flag(&self, cmd: &str, port: u16) -> (r: Option<String>)
        ensures
            opt_text(r) == injected(*self, cmd@, port as nat),
    {
        if contains_str(cmd, "${port}") || contains_str(cmd, "--port") {
            return None;
        }
        match self {
            Framework::Vite => {
                let mut s = cmd.to_owned();
                append_str(&mut s, " --port ");
                append_dec(&mut s, port as u64);
                append_str(&mut s, " --host");
                Some(s)
            },
            Framework::Python => {
                if contains_str(cmd, "uvicorn") {
                    let mut s = cmd.to_owned();
                    append_str(&mut s, " --port ");
                    append_dec(&mut s, port as u64);
                    Some(s)
                } else if contains_str(cmd, "gunicorn") {
                    let mut s = cmd.to_owned();
                    append_str(&mut s, " -b 127.0.0.1:");
                    append_dec(&mut s, port as u64);
                    Some(s)
                } else {
                    None
                }
            },
            Framework::Encore => {
                let mut s = cmd.to_owned();
                append_str(&mut s, " --port=");
                append_dec(&mut s, port as u64);
                Some(s)
            },
            _ => None,
        }
    }

    /// Whether the port is passed as the `PORT` environment variable
    /// (Next.js and Node).
    pub fn injects_port_env(&self) -> (r: bool)
        ensures
            r == (*self == Framework::NextJs || *self == Framework::Node),
    {
        match self {
            Framework::NextJs | Framework::Node => true,
            _ => false,
        }
    }

    /// Whether the framework binds its own configured port; no detected
    /// framework does (`managed = false` in the configuration covers that).
    pub fn self_managed(&self) -> (r: bool)
        ensures
            !r,
    {
        false
    }
}

/// What the command alone decides, in order: `encore` names Encore; else
/// `vite` or `astro` names Vite; else `next` names Next.js; else `uvicorn` or
/// `gunicorn` names Python; else `go run` names Go. The package file is not
/// looked at then.
pub proof fn lemma_command_decides(cmd: Seq<char>, pkg: Option<Seq<char>>)
    ensures
        contains_seq(cmd, "encore"@) ==> detected(cmd, pkg) == Framework::Encore,
        !contains_seq(cmd, "encore"@) && (contains_seq(cmd, "vite"@) || contains_seq(cmd, "astro"@))
            ==> detected(cmd, pkg) == Framework::Vite,
        !contains_seq(cmd, "encore"@) && !contains_seq(cmd, "vite"@) && !contains_seq(cmd, "astro"@)
            && contains_seq(cmd, "next"@) ==> detected(cmd, pkg) == Framework::NextJs,
        !contains_seq(cmd, "encore"@) && !contains_seq(cmd, "vite"@) && !contains_seq(cmd, "astro"@)
            && !contains_seq(cmd, "next"@) && (contains_seq(cmd, "uvicorn"@) || contains_seq(
            cmd,
            "gunicorn"@,
        )) ==> detected(cmd, pkg) == Framework::Python,
        !contains_seq(cmd, "encore"@) && !contains_seq(cmd, "vite"@) && !contains_seq(cmd, "astro"@)
            && !contains_seq(cmd, "next"@) && !contains_seq(cmd, "uvicorn"@) && !contains_seq(
            cmd,
            "gunicorn"@,
        ) && contains_seq(cmd, "go run"@) ==> detected(cmd, pkg) == Framework::Go,
{
}

/// When the command names no framework (none of `encore`, `vite`, `astro`,
/// `next`, `uvicorn`, `gunicorn`, `go run`), the package file decides: a
/// quoted `"vite"` or `"astro"` gives Vite, else a quoted `"next"` gives
/// Next.js, else Node; with no package file the framework is unknown.
pub proof fn lemma_package_decides(cmd: Seq<char>, c: Seq<char>)
    requires
        !contains_seq(cmd, "encore"@),
        !contains_seq(cmd, "vite"@),
        !contains_seq(cmd, "astro"@),
        !contains_seq(cmd, "next"@),
        !contains_seq(cmd, "uvicorn"@),
        !contains_seq(cmd, "gunicorn"@),
        !contains_seq(cmd, "go run"@),
    ensures
        contains_seq(c, "\"vite\""@) ==> detected(cmd, Some(c)) == Framework::Vite,
        contains_seq(c, "\"astro\""@) ==> detected(cmd, Some(c)) == Framework::Vite,
        !contains_seq(c, "\"vite\""@) && !contains_seq(c, "\"astro\""@) && contains_seq(
            c,
            "\"next\""@,
        ) ==> detected(cmd, Some(c)) == Framework::NextJs,
        !contains_seq(c, "\"vite\""@) && !contains_seq(c, "\"astro\""@) && !contains_seq(
            c,
            "\"next\""@,
        ) ==> detected(cmd, Some(c)) == Framework::Node,
        detected(cmd, None) == Framework::Unknown,
{
}

/// The flag each framework gets, when the command names no port yet
/// (neither `${port}` nor `--port`): Vite ` --port N --host`; Python
/// ` --port N` for uvicorn, else ` -b 127.0.0.1:N` for gunicorn, else none;
/// Encore ` --port=N`; the others none (they take `PORT` from the
/// environment, or nothing).
pub proof fn lemma_injection_flags(f: Framework, cmd: Seq<char>, port: nat)
    requires
        !contains_seq(cmd, "${port}"@),
        !contains_seq(cmd, "--port"@),
    ensures
        f == Framework::Vite ==> injected(f, cmd, port) == Some(
            cmd + " --port "@ + dec(port) + " --host"@,
        ),
        f == Framework::Python && contains_seq(cmd, "uvicorn"@) ==> injected(f, cmd, port) == Some(
            cmd + " --port "@ + dec(port),
        ),
        f == Framework::Python && !contains_seq(cmd, "uvicorn"@) && contains_seq(cmd, "gunicorn"@)
            ==> injected(f, cmd, port) == Some(cmd + " -b 127.0.0.1:"@ + dec(port)),
        f == Framework::Python && !contains_seq(cmd, "uvicorn"@) && !contains_seq(cmd, "gunicorn"@)
            ==> injected(f, cmd, port) is None,
        f == Framework::Encore ==> injected(f, cmd, port) == Some(cmd + " --port="@ + dec(port)),
        f == Framework::NextJs || f == Framework::Node || f == Framework::Go || f
            == Framework::Unknown ==> injected(f, cmd, port) is None,
{
}

/// Injection never touches a command that already names its port.
pub proof fn lemma_no_double_injection(f: Framework, cmd: Seq<char>, port: nat)
    requires
        contains_seq(cmd, "${port}"@) || contains_seq(cmd, "--port"@),
    ensures
        injected(f, cmd, port) is None,
{
}

/// A flag, when added, is appended: the original command is kept as a
/// prefix.
pub proof fn lemma_injection_appends(f: Framework, cmd: Seq<char>, port: nat)
    ensures
        injected(f, cmd, port) matches Some(c) ==> c.len() > cmd.len() && c.subrange(
            0,
            cmd.len() as int,
        ) == cmd,
{
    match injected(f, cmd, port) {
        Some(c) => {
            assert(c.subrange(0, cmd.len() as int) =~= cmd);
        },
        None => {},
    }
}

} // verus!
