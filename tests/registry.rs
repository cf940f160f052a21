use kubefwd_tui::error::TunnelError;
use kubefwd_tui::registry::{ForwardedPort, Registry};
use tokio::sync::mpsc::channel;

fn tunnel(service: &str, port: u16) -> ForwardedPort {
    let (sender, _rx) = channel(1);
    ForwardedPort { service: service.to_string(), port, sender }
}

#[test]
fn add_find_remove() {
    let mut registry = Registry::new();
    assert_eq!(registry.len(), 0);
    assert!(registry.add(tunnel("web", 8080)).is_ok());
    assert!(registry.add(tunnel("web", 9090)).is_ok());
    assert!(registry.add(tunnel("api", 8080)).is_ok());
    assert_eq!(registry.len(), 3);
    assert!(registry.find(&"api".to_string(), 8080).is_some());
    assert!(registry.find(&"api".to_string(), 9090).is_none());
    let removed = registry.remove(&"web".to_string(), 8080).unwrap();
    assert_eq!(removed.port, 8080);
    assert_eq!(removed.service, "web");
    assert!(registry.remove(&"web".to_string(), 8080).is_none());
    assert_eq!(registry.len(), 2);
}

#[test]
fn add_refuses_same_pair() {
    let mut registry = Registry::new();
    registry.add(tunnel("web", 8080)).unwrap();
    assert_eq!(registry.add(tunnel("web", 8080)), Err(TunnelError::DuplicateTunnel));
    assert_eq!(registry.len(), 1);
}

#[test]
fn list_for_service_in_registration_order() {
    let mut registry = Registry::new();
    registry.add(tunnel("web", 9090)).unwrap();
    registry.add(tunnel("api", 80)).unwrap();
    registry.add(tunnel("web", 8080)).unwrap();
    let ports: Vec<u16> = registry
        .list_for_service(&"web".to_string())
        .iter()
        .map(|t| t.port)
        .collect();
    assert_eq!(ports, vec![9090, 8080]);
    assert!(registry.list_for_service(&"db".to_string()).is_empty());
}
