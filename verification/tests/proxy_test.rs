use devx::proxy::{
    bad_gateway_body, host_domain, is_websocket_upgrade, route_for, upstream_addr,
    vhost_bind_failure, vhost_ports, VhostRoute,
};

#[test]
fn host_without_port() {
    assert_eq!(host_domain("arpid.localhost:8080"), "arpid.localhost");
    assert_eq!(host_domain("api.localhost"), "api.localhost");
    assert_eq!(host_domain(""), "");
    assert_eq!(host_domain(":80"), "");
}

#[test]
fn vhost_routing() {
    assert!(matches!(route_for("api.localhost", Some(41000)), VhostRoute::Forward(41000)));
    match route_for("nope.localhost", None) {
        VhostRoute::NotFound(body) => assert_eq!(body, "unknown domain: nope.localhost"),
        other => panic!("unexpected {:?}", other),
    }
    assert_eq!(vhost_ports(true), (443, 8443));
    assert_eq!(vhost_ports(false), (80, 8080));
    assert_eq!(
        vhost_bind_failure(false, "denied"),
        "[vhost] failed to bind port 80 or 8080: denied — vhost routing disabled"
    );
    assert_eq!(upstream_addr(41000), "127.0.0.1:41000");
    assert_eq!(bad_gateway_body(), "service starting...");
}

#[test]
fn websocket_upgrades() {
    assert!(is_websocket_upgrade(Some("WebSocket")));
    assert!(is_websocket_upgrade(Some("h2c, websocket")));
    assert!(!is_websocket_upgrade(Some("h2c")));
    assert!(!is_websocket_upgrade(None));
}
