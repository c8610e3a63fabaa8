use devx::deps::{resolve_order, resolve_with_filter, DepGraph};
use devx::strmap::StrMap;

fn graph(pairs: &[(&str, &[&str])]) -> DepGraph {
    let mut g = StrMap::new();
    for (k, vs) in pairs {
        g.insert(k.to_string(), vs.iter().map(|s| s.to_string()).collect());
    }
    g
}

#[test]
fn test_no_dependencies() {
    let g = graph(&[("a", &[]), ("b", &[]), ("c", &[])]);
    let waves = resolve_order(&g).unwrap();
    assert_eq!(waves.len(), 1);
    let mut wave = waves[0].clone();
    wave.sort();
    assert_eq!(wave, vec!["a", "b", "c"]);
}

#[test]
fn test_linear_chain() {
    let g = graph(&[("a", &["b"]), ("b", &["c"]), ("c", &[])]);
    let waves = resolve_order(&g).unwrap();
    assert_eq!(waves.len(), 3);
    assert_eq!(waves[0], vec!["c"]);
    assert_eq!(waves[1], vec!["b"]);
    assert_eq!(waves[2], vec!["a"]);
}

#[test]
fn test_diamond_dependency() {
    let g = graph(&[
        ("db", &[]),
        ("api", &["db"]),
        ("worker", &["db"]),
        ("web", &["api", "worker"]),
    ]);
    let waves = resolve_order(&g).unwrap();
    assert_eq!(waves.len(), 3);
    assert_eq!(waves[0], vec!["db"]);
    let mut w1 = waves[1].clone();
    w1.sort();
    assert_eq!(w1, vec!["api", "worker"]);
    assert_eq!(waves[2], vec!["web"]);
}

#[test]
fn test_cycle_detected() {
    let g = graph(&[("a", &["b"]), ("b", &["a"])]);
    let result = resolve_order(&g);
    assert!(result.is_err());
    assert!(result.unwrap_err().message().contains("cycle"));
}

#[test]
fn test_filter_services_includes_transitive_deps() {
    let g = graph(&[
        ("db", &[]),
        ("api", &["db"]),
        ("web", &["api"]),
        ("standalone", &[]),
    ]);
    let requested = vec!["web".to_string()];
    let waves = resolve_with_filter(&g, &requested).unwrap();
    let all: Vec<String> = waves.into_iter().flatten().collect();
    assert!(all.contains(&"web".to_string()));
    assert!(all.contains(&"api".to_string()));
    assert!(all.contains(&"db".to_string()));
    assert!(!all.contains(&"standalone".to_string()));
}

#[test]
fn waves_are_sorted_and_dependencies_come_first() {
    let g = graph(&[("z", &[]), ("m", &["z"]), ("a", &["z"]), ("b", &[])]);
    let waves = resolve_order(&g).unwrap();
    assert_eq!(waves, vec![vec!["b", "z"], vec!["a", "m"]]);
}

#[test]
fn dependency_on_unlisted_name_is_a_node() {
    let g = graph(&[("api", &["db"])]);
    let waves = resolve_order(&g).unwrap();
    assert_eq!(waves, vec![vec!["db"], vec!["api"]]);
}

#[test]
fn cycle_outside_filter_is_ignored() {
    let g = graph(&[("a", &["b"]), ("b", &["a"]), ("c", &[])]);
    assert!(resolve_order(&g).is_err());
    let waves = resolve_with_filter(&g, &vec!["c".to_string()]).unwrap();
    assert_eq!(waves, vec![vec!["c"]]);
    assert!(resolve_with_filter(&g, &vec!["a".to_string()]).is_err());
}

#[test]
fn self_dependency_is_a_cycle() {
    let g = graph(&[("a", &["a"])]);
    assert!(resolve_order(&g).is_err());
}

#[test]
fn requesting_every_key_orders_the_whole_graph() {
    let g = graph(&[("web", &["api"]), ("api", &["db", "cache"]), ("db", &[]), ("worker", &["db"])]);
    let all: Vec<String> = ["worker", "db", "web", "api"].iter().map(|s| s.to_string()).collect();
    assert_eq!(resolve_with_filter(&g, &all).unwrap(), resolve_order(&g).unwrap());
    let cyclic = graph(&[("a", &["b"]), ("b", &["a"]), ("c", &[])]);
    let all: Vec<String> = ["a", "b", "c"].iter().map(|s| s.to_string()).collect();
    assert!(resolve_with_filter(&cyclic, &all).is_err());
    assert!(resolve_order(&cyclic).is_err());
}

#[test]
fn each_wave_is_one_past_the_latest_dependency() {
    let pairs: &[(&str, &[&str])] =
        &[("web", &["api", "cdn"]), ("api", &["db"]), ("db", &[]), ("cdn", &[]), ("jobs", &["api", "db"])];
    let g = graph(pairs);
    let waves = resolve_order(&g).unwrap();
    let wave_of = |n: &str| waves.iter().position(|w| w.iter().any(|x| x == n)).unwrap();
    for (n, deps) in pairs {
        let expected = deps.iter().map(|d| wave_of(d) + 1).max().unwrap_or(0);
        assert_eq!(wave_of(n), expected, "{}", n);
    }
    assert_eq!(waves.len(), 3);
}
