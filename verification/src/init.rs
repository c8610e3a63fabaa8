//! `devx init`: which project directories become services, with what
//! command, and the `devx.toml` written for them.
use vstd::prelude::*;

use crate::order::{sort_strings, sorted_strict};
use crate::strmap::{strs, StrMap};
use crate::text::{append_dec, append_str, dec, str_eq};

verus! {

/// A service found in a subdirectory.
#[derive(Debug)]
pub struct DetectedService {
    pub name: String,
    pub dir: String,
    pub cmd: String,
}

/// Directories that never hold a service: hidden ones and the usual build
/// and dependency directories.
pub open spec fn skipped_dir(name: Seq<char>) -> bool {
    (name.len() > 0 && name[0] == '.') || name == "node_modules"@ || name == "target"@ || name
        == "dist"@ || name == "build"@ || name == ".git"@ || name == "vendor"@
}

/// The subdirectories passed over are exactly the hidden ones (starting
/// with `.`) and `node_modules`, `target`, `dist`, `build` and `vendor`.
pub proof fn lemma_skipped_dirs(name: Seq<char>)
    ensures
        skipped_dir(name) <==> ((name.len() > 0 && name[0] == '.') || name == "node_modules"@
            || name == "target"@ || name == "dist"@ || name == "build"@ || name == "vendor"@),
{
    reveal_strlit(".git");
}

/// Whether the subdirectory `name` is passed over.
pub fn skip_dir(name: &str) -> (r: bool)
    ensures
        r == skipped_dir(name@),
{
    let v = crate::text::chars_of(name);
    (v.len() > 0 && v[0] == '.') || str_eq(name, "node_modules") || str_eq(name, "target")
        || str_eq(name, "dist") || str_eq(name, "build") || str_eq(name, ".git") || str_eq(
        name,
        "vendor",
    )
}

/// The project files found in a subdirectory.
#[derive(Debug)]
pub struct ProjectMarkers {
    pub encore_app: bool,
    pub package_json: bool,
    pub cargo_toml: bool,
    pub go_mod: bool,
    pub pyproject_toml: bool,
    pub requirements_txt: bool,
}

/// The command of a subdirectory's service, by the first marker found:
/// `encore.app`, `package.json`, `Cargo.toml`, `go.mod`, then a Python
/// project; none without a marker.
pub open spec fn cmd_for(m: ProjectMarkers) -> Option<Seq<char>> {
    if m.encore_app {
        Some("encore run"@)
    } else if m.package_json {
        Some("npm run dev"@)
    } else if m.cargo_toml {
        Some("cargo run"@)
    } else if m.go_mod {
        Some("go run ."@)
    } else if m.pyproject_toml || m.requirements_txt {
        Some("python -m uvicorn main:app"@)
    } else {
        None
    }
}

/// The command for a subdirectory with these markers.
pub fn service_cmd(m: &ProjectMarkers) -> (r: Option<&'static str>)
    ensures
        match r {
            Some(c) => cmd_for(*m) == Some(c@),
            None => cmd_for(*m) is None,
        },
{
    if m.encore_app {
        Some("encore run")
    } else if m.package_json {
        Some("npm run dev")
    } else if m.cargo_toml {
        Some("cargo run")
    } else if m.go_mod {
        Some("go run .")
    } else if m.pyproject_toml || m.requirements_txt {
        Some("python -m uvicorn main:app")
    } else {
        None
    }
}

/// The services found, by directory name with their commands, in name
/// order; each runs in its own directory.
pub fn detected_services(found: &StrMap<String>) -> (r: Vec<DetectedService>)
    ensures
        sorted_strict(r@.map_values(|s: DetectedService| s.name@)),
        r@.map_values(|s: DetectedService| s.name@).to_set() == found.keys().to_set(),
        forall|i: int|
            0 <= i < r@.len() ==> (#[trigger] r@[i]).dir@ == r@[i].name@ && found.lookup(
                r@[i].name@,
            ) is Some && r@[i].cmd@ == found.lookup(r@[i].name@)->0@,
{
    let n = found.len();
    let mut names: Vec<String> = Vec::new();
    let mut i: usize = 0;
    while i < n
        invariant
            i <= n,
            n == found.keys().len(),
            found.keys().no_duplicates(),
            strs(names@) == found.keys().take(i as int),
        decreases n - i,
    {
        let ghost before = names@;
        names.push(found.key_at(i).clone());
        proof {
            assert(strs(names@) =~= strs(before).push(found.keys()[i as int]));
            assert(found.keys().take(i + 1) =~= found.keys().take(i as int).push(found.keys()[i as int]));
        }
        i = i + 1;
    }
    proof {
        assert(found.keys().take(n as int) =~= found.keys());
    }
    let sorted = sort_strings(names);
    let mut out: Vec<DetectedService> = Vec::new();
    let mut j: usize = 0;
    while j < sorted.len()
        invariant
            j <= sorted.len(),
            out@.len() == j,
            forall|k: int| 0 <= k < j ==> (#[trigger] out@[k]).name@ == strs(sorted@)[k],
            forall|k: int|
                0 <= k < j ==> (#[trigger] out@[k]).dir@ == out@[k].name@ && found.lookup(
                    out@[k].name@,
                ) is Some && out@[k].cmd@ == found.lookup(out@[k].name@)->0@,
            strs(sorted@).to_set() == found.keys().to_set(),
        decreases sorted.len() - j,
    {
        let name = &sorted[j];
        proof {
            assert(strs(sorted@).contains(name@)) by {
                assert(strs(sorted@)[j as int] == name@);
            }
            assert(found.keys().to_set().contains(name@));
        }
        let cmd = match found.get(name.as_str()) {
            Some(c) => c.clone(),
            None => {
                proof {
                    assert(found.keys().contains(name@));
                }
                String::new()
            },
        };
        out.push(DetectedService { name: name.clone(), dir: name.clone(), cmd });
        j = j + 1;
    }
    proof {
        assert(out@.map_values(|s: DetectedService| s.name@) =~= strs(sorted@));
    }
    out
}

/// The comment block written when no service was detected.
pub open spec fn empty_template() -> Seq<char> {
    "\n# No services were auto-detected. Add your services below.\n# Each service needs at minimum a `cmd`.\n# See https://devx.machines.works for full documentation.\n\n# [services.example]\n# cmd = \"npm run dev\"\n# dir = \"example\"\n# port = 3000\n# health = \"http://localhost:${port}/health\"\n# domain = \"example.localhost\"\n# depends_on = []\n# watch = true\n"@
}

/// The header comment before the detected services.
pub open spec fn services_intro() -> Seq<char> {
    "\n# Add services below. Each service needs at minimum a `cmd`.\n# See https://devx.machines.works for full documentation.\n"@
}

/// The table written for one detected service, with port `port`.
pub open spec fn service_block(s: DetectedService, port: nat) -> Seq<char> {
    "\n[services."@ + s.name@ + "]\ncmd = \""@ + s.cmd@ + "\"\ndir = \""@ + s.dir@ + "\"\nport = "@
        + dec(port) + "\n# health = \"http://localhost:${port}/health\"\n# domain = \""@ + s.name@
        + ".localhost\"\n# depends_on = []\n# watch = true\n"@
}

/// The tables of the first `n` services, the i-th with port 3000 + 1000·i.
pub open spec fn service_blocks(services: Seq<DetectedService>, n: nat) -> Seq<char>
    decreases n,
{
    if n == 0 || n > services.len() {
        Seq::empty()
    } else {
        service_blocks(services, (n - 1) as nat) + service_block(
            services[n - 1],
            (3000 + 1000 * (n - 1)) as nat,
        )
    }
}

/// The contents of the generated `devx.toml`.
pub open spec fn toml_text(project_name: Seq<char>, services: Seq<DetectedService>) -> Seq<char> {
    let header = "[project]\nname = \""@ + project_name + "\"\n"@;
    if services.len() == 0 {
        header + empty_template()
    } else {
        header + services_intro() + service_blocks(services, services.len())
    }
}

fn block_text(s: &DetectedService, port: u16) -> (r: String)
    ensures
        r@ == service_block(*s, port as nat),
{
    let mut out = "\n[services.".to_owned();
    append_str(&mut out, s.name.as_str());
    append_str(&mut out, "]\ncmd = \"");
    append_str(&mut out, s.cmd.as_str());
    append_str(&mut out, "\"\ndir = \"");
    append_str(&mut out, s.dir.as_str());
    append_str(&mut out, "\"\nport = ");
    append_dec(&mut out, port as u64);
    append_str(&mut out, "\n# health = \"http://localhost:${port}/health\"\n# domain = \"");
    append_str(&mut out, s.name.as_str());
    append_str(&mut out, ".localhost\"\n# depends_on = []\n# watch = true\n");
    proof {
        assert(out@ =~= service_block(*s, port as nat));
    }
    out
}

/// Writes the `devx.toml` for `project_name` and the detected services:
/// the project table, then one commented table per service with ports
/// 3000, 4000, ... (a template when there are none). The ports must fit in
/// 16 bits, which bounds the number of services.
pub fn generate_toml(project_name: &str, services: &Vec<DetectedService>) -> (r: String)
    requires
        services.len() <= 62,
    ensures
        r@ == toml_text(project_name@, services@),
{
    let mut out = "[project]\nname = \"".to_owned();
    append_str(&mut out, project_name);
    append_str(&mut out, "\"\n");
    if services.len() == 0 {
        append_str(
            &mut out,
            "\n# No services were auto-detected. Add your services below.\n# Each service needs at minimum a `cmd`.\n# See https://devx.machines.works for full documentation.\n\n# [services.example]\n# cmd = \"npm run dev\"\n# dir = \"example\"\n# port = 3000\n# health = \"http://localhost:${port}/health\"\n# domain = \"example.localhost\"\n# depends_on = []\n# watch = true\n",
        );
        return out;
    }
    append_str(
        &mut out,
        "\n# Add services below. Each service needs at minimum a `cmd`.\n# See https://devx.machines.works for full documentation.\n",
    );
    let ghost start = out@;
    let mut port: u16 = 3000;
    let mut i: usize = 0;
    while i < services.len()
        invariant
            i <= services.len(),
            services.len() <= 62,
            port == 3000 + 1000 * i,
            out@ == start + service_blocks(services@, i as nat),
        decreases services.len() - i,
    {
        let block = block_text(&services[i], port);
        append_str(&mut out, block.as_str());
        proof {
            assert(out@ =~= start + service_blocks(services@, (i + 1) as nat));
        }
        port = port + 1000;
        i = i + 1;
    }
    out
}

/// What `devx init` prints after writing the file.
pub fn init_summary(count: usize) -> (r: String)
    ensures
        count == 0 ==> r@
            == "Created devx.toml with no services detected. Edit it to add your services, then run `devx up`."@,
        count > 0 ==> r@ == "Created devx.toml with "@ + dec(count as nat) + " service"@ + (if count
            == 1 {
            ""@
        } else {
            "s"@
        }) + " detected. Run `devx up` to start."@,
{
    if count == 0 {
        return "Created devx.toml with no services detected. Edit it to add your services, then run `devx up`.".to_owned();
    }
    let mut s = "Created devx.toml with ".to_owned();
    append_dec(&mut s, count as u64);
    append_str(&mut s, " service");
    if count == 1 {
        append_str(&mut s, "");
    } else {
        append_str(&mut s, "s");
    }
    append_str(&mut s, " detected. Run `devx up` to start.");
    s
}

/// The project name for a new `devx.toml`: the directory's name, or
/// `project` when it has none.
pub fn project_name_for(dir_name: Option<&str>) -> (r: String)
    ensures
        r@ == match dir_name {
            Some(d) => d@,
            None => "project"@,
        },
{
    match dir_name {
        Some(d) => d.to_owned(),
        None => "project".to_owned(),
    }
}

} // verus!
