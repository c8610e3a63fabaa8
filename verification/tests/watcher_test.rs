use devx::watcher::{is_config_file, should_ignore};

#[test]
fn ignored_directories() {
    assert!(should_ignore("/p/web/node_modules/react/index.js"));
    assert!(should_ignore("/p/api/target/debug/app"));
    assert!(should_ignore("/p/.git/HEAD"));
    assert!(should_ignore("__pycache__/m.pyc"));
    assert!(should_ignore("/p/web/.next"));
    assert!(should_ignore("/p//dist//a"));
    assert!(!should_ignore("/p/web/src/main.ts"));
    assert!(!should_ignore("/p/web/distance/a.ts"));
    assert!(!should_ignore("/p/my.git/a"));
    assert!(!should_ignore(""));
}

#[test]
fn config_file_changes() {
    assert!(is_config_file("/home/me/shop/devx.toml"));
    assert!(is_config_file("devx.toml"));
    assert!(!is_config_file("/home/me/shop/devx.toml.bak"));
    assert!(!is_config_file("/home/me/devx.toml/.."));
}
