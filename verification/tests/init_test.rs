use devx::init::{
    detected_services, generate_toml, init_summary, project_name_for, service_cmd, skip_dir,
    DetectedService, ProjectMarkers,
};
use devx::strmap::StrMap;

fn markers() -> ProjectMarkers {
    ProjectMarkers {
        encore_app: false,
        package_json: false,
        cargo_toml: false,
        go_mod: false,
        pyproject_toml: false,
        requirements_txt: false,
    }
}

#[test]
fn directories_passed_over() {
    for d in [".hidden", ".git", "node_modules", "target", "dist", "build", "vendor"] {
        assert!(skip_dir(d), "{d}");
    }
    assert!(!skip_dir("api"));
    assert!(!skip_dir(""));
}

#[test]
fn marker_precedence() {
    assert_eq!(service_cmd(&markers()), None);
    assert_eq!(service_cmd(&ProjectMarkers { requirements_txt: true, ..markers() }), Some("python -m uvicorn main:app"));
    assert_eq!(service_cmd(&ProjectMarkers { go_mod: true, pyproject_toml: true, ..markers() }), Some("go run ."));
    assert_eq!(service_cmd(&ProjectMarkers { cargo_toml: true, go_mod: true, ..markers() }), Some("cargo run"));
    assert_eq!(service_cmd(&ProjectMarkers { package_json: true, cargo_toml: true, ..markers() }), Some("npm run dev"));
    assert_eq!(service_cmd(&ProjectMarkers { encore_app: true, package_json: true, ..markers() }), Some("encore run"));
}

#[test]
fn services_sorted_by_name() {
    let mut found = StrMap::new();
    found.insert("web".to_string(), "npm run dev".to_string());
    found.insert("api".to_string(), "go run .".to_string());
    found.insert("Zed".to_string(), "cargo run".to_string());
    let s = detected_services(&found);
    let names: Vec<&str> = s.iter().map(|d| d.name.as_str()).collect();
    assert_eq!(names, vec!["Zed", "api", "web"]);
    assert_eq!(s[1].dir, "api");
    assert_eq!(s[1].cmd, "go run .");
}

#[test]
fn toml_with_and_without_services() {
    let empty = generate_toml("shop", &vec![]);
    assert!(empty.starts_with("[project]\nname = \"shop\"\n\n# No services were auto-detected."));
    assert!(empty.ends_with("# watch = true\n"));
    let services = vec![
        DetectedService { name: "api".into(), dir: "api".into(), cmd: "go run .".into() },
        DetectedService { name: "web".into(), dir: "web".into(), cmd: "npm run dev".into() },
    ];
    let t = generate_toml("shop", &services);
    let expected = "[project]\nname = \"shop\"\n\n# Add services below. Each service needs at minimum a `cmd`.\n# See https://devx.machines.works for full documentation.\n\n[services.api]\ncmd = \"go run .\"\ndir = \"api\"\nport = 3000\n# health = \"http://localhost:${port}/health\"\n# domain = \"api.localhost\"\n# depends_on = []\n# watch = true\n\n[services.web]\ncmd = \"npm run dev\"\ndir = \"web\"\nport = 4000\n# health = \"http://localhost:${port}/health\"\n# domain = \"web.localhost\"\n# depends_on = []\n# watch = true\n";
    assert_eq!(t, expected);
    let parsed: toml::Value = toml::from_str(&t).unwrap();
    assert_eq!(parsed["services"]["web"]["port"].as_integer(), Some(4000));
}

#[test]
fn summaries_and_names() {
    assert_eq!(init_summary(1), "Created devx.toml with 1 service detected. Run `devx up` to start.");
    assert_eq!(init_summary(3), "Created devx.toml with 3 services detected. Run `devx up` to start.");
    assert_eq!(
        init_summary(0),
        "Created devx.toml with no services detected. Edit it to add your services, then run `devx up`."
    );
    assert_eq!(project_name_for(Some("shop")), "shop");
    assert_eq!(project_name_for(None), "project");
}
