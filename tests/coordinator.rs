use kubefwd_tui::error::TunnelError;
use kubefwd_tui::state::{AppState, ToggleAction};
use tokio::sync::mpsc::{channel, Receiver, Sender};

fn web_state() -> AppState {
    AppState::new(None, vec![("web".to_string(), vec![8080, 9090])])
}

fn stop_channel() -> (Sender<()>, Receiver<()>) {
    channel(1)
}

fn active_ports(state: &AppState, service: &str) -> Vec<u16> {
    state
        .forwarded_ports_for_service(&service.to_string())
        .iter()
        .map(|t| t.port)
        .collect()
}

fn select_port(state: &mut AppState, index: usize) {
    state.next();
    state.select();
    for _ in 0..index {
        state.next();
    }
}

fn apply(state: &mut AppState, failing: &[u16]) -> Vec<u16> {
    let mut reported = vec![];
    match state.toggle_port_forwarding() {
        ToggleAction::StartPort { service, port } => {
            let (tx, _rx) = stop_channel();
            let outcome = if failing.contains(&port) {
                Err(TunnelError::Bind(format!("port {} in use", port)))
            } else {
                Ok(tx)
            };
            if state.finish_start(service, port, outcome).is_err() {
                reported.push(port);
            }
        }
        ToggleAction::StopPort { service, port } => {
            if state.finish_stop(&service, port, !failing.contains(&port)).is_none() {
                reported.push(port);
            }
        }
        ToggleAction::StartAll { service, ports } => {
            for port in ports {
                let (tx, _rx) = stop_channel();
                let outcome = if failing.contains(&port) {
                    Err(TunnelError::Bind(format!("port {} in use", port)))
                } else {
                    Ok(tx)
                };
                if state.finish_start(service.clone(), port, outcome).is_err() {
                    reported.push(port);
                }
            }
        }
        ToggleAction::StopAll { service, ports } => {
            for port in ports {
                if state.finish_stop(&service, port, !failing.contains(&port)).is_none() {
                    reported.push(port);
                }
            }
        }
        ToggleAction::Nothing => {}
    }
    reported
}

#[test]
fn toggle_single_port_on_and_off() {
    let mut state = web_state();
    select_port(&mut state, 0);
    match state.toggle_port_forwarding() {
        ToggleAction::StartPort { service, port } => {
            assert_eq!(service, "web");
            assert_eq!(port, 8080);
        }
        _ => panic!("expected a start"),
    }
    assert!(apply(&mut state, &[]).is_empty());
    assert_eq!(active_ports(&state, "web"), vec![8080]);
    match state.toggle_port_forwarding() {
        ToggleAction::StopPort { service, port } => {
            assert_eq!(service, "web");
            assert_eq!(port, 8080);
        }
        _ => panic!("expected a stop"),
    }
    assert!(apply(&mut state, &[]).is_empty());
    assert!(active_ports(&state, "web").is_empty());
}

#[test]
fn toggle_twice_restores_membership() {
    let mut state = web_state();
    select_port(&mut state, 1);
    apply(&mut state, &[]);
    apply(&mut state, &[]);
    assert!(state.find_tunnel(&"web".to_string(), 9090).is_none());
    apply(&mut state, &[]);
    let before = state.find_tunnel(&"web".to_string(), 9090).is_some();
    apply(&mut state, &[]);
    apply(&mut state, &[]);
    assert_eq!(state.find_tunnel(&"web".to_string(), 9090).is_some(), before);
}

#[test]
fn bulk_start_keeps_successes_and_reports_failures() {
    let mut state = web_state();
    state.next();
    match state.toggle_port_forwarding() {
        ToggleAction::StartAll { service, ports } => {
            assert_eq!(service, "web");
            assert_eq!(ports, vec![8080, 9090]);
        }
        _ => panic!("expected a bulk start"),
    }
    let reported = apply(&mut state, &[9090]);
    assert_eq!(reported, vec![9090]);
    assert_eq!(active_ports(&state, "web"), vec![8080]);
}

#[test]
fn bulk_start_skips_active_ports() {
    let mut state = web_state();
    select_port(&mut state, 1);
    apply(&mut state, &[]);
    state.deselect();
    match state.toggle_port_forwarding() {
        ToggleAction::StartAll { ports, .. } => assert_eq!(ports, vec![8080]),
        _ => panic!("expected a bulk start"),
    }
    apply(&mut state, &[]);
    assert_eq!(active_ports(&state, "web"), vec![9090, 8080]);
}

#[test]
fn bulk_stop_of_fully_active_service() {
    let mut state = web_state();
    state.next();
    apply(&mut state, &[]);
    match state.toggle_port_forwarding() {
        ToggleAction::StopAll { service, ports } => {
            assert_eq!(service, "web");
            assert_eq!(ports, vec![8080, 9090]);
        }
        _ => panic!("expected a bulk stop"),
    }
    assert!(apply(&mut state, &[]).is_empty());
    assert!(active_ports(&state, "web").is_empty());
}

#[test]
fn bulk_stop_failure_does_not_block_others() {
    let mut state = web_state();
    state.next();
    apply(&mut state, &[]);
    let reported = apply(&mut state, &[8080]);
    assert_eq!(reported, vec![8080]);
    assert_eq!(active_ports(&state, "web"), vec![8080]);
}

#[test]
fn stopped_tunnel_closes_its_stop_channel() {
    let mut state = web_state();
    let (tx, mut rx) = stop_channel();
    assert!(state.finish_start("web".to_string(), 8080, Ok(tx)).is_ok());
    let removed = state.finish_stop(&"web".to_string(), 8080, true);
    assert!(removed.is_some());
    drop(removed);
    assert!(rx.try_recv().is_err());
    assert!(rx.blocking_recv().is_none());
}

#[test]
fn unacknowledged_stop_keeps_tunnel() {
    let mut state = web_state();
    let (tx, _rx) = stop_channel();
    state.finish_start("web".to_string(), 8080, Ok(tx)).unwrap();
    assert!(state.finish_stop(&"web".to_string(), 8080, false).is_none());
    assert!(state.find_tunnel(&"web".to_string(), 8080).is_some());
}

#[test]
fn duplicate_start_is_refused() {
    let mut state = web_state();
    let (tx1, _rx1) = stop_channel();
    let (tx2, _rx2) = stop_channel();
    assert!(state.finish_start("web".to_string(), 8080, Ok(tx1)).is_ok());
    assert_eq!(
        state.finish_start("web".to_string(), 8080, Ok(tx2)),
        Err(TunnelError::DuplicateTunnel)
    );
    assert_eq!(active_ports(&state, "web"), vec![8080]);
}

#[test]
fn failed_start_hands_back_its_error() {
    let mut state = web_state();
    let r = state.finish_start(
        "web".to_string(),
        9090,
        Err(TunnelError::Connectivity("no route".to_string())),
    );
    assert_eq!(r, Err(TunnelError::Connectivity("no route".to_string())));
    assert!(active_ports(&state, "web").is_empty());
}

#[test]
fn toggle_with_nothing_selected_does_nothing() {
    let state = web_state();
    assert!(matches!(state.toggle_port_forwarding(), ToggleAction::Nothing));
}

#[test]
fn ports_of_other_services_are_kept_apart() {
    let mut state = AppState::new(
        None,
        vec![
            ("api".to_string(), vec![80]),
            ("web".to_string(), vec![8080]),
        ],
    );
    let (tx1, _rx1) = stop_channel();
    let (tx2, _rx2) = stop_channel();
    state.finish_start("api".to_string(), 80, Ok(tx1)).unwrap();
    state.finish_start("web".to_string(), 8080, Ok(tx2)).unwrap();
    state.next();
    assert_eq!(state.forwarded_ports_for_selected_service().len(), 1);
    assert_eq!(state.forwarded_ports_for_selected_service()[0].service, "api");
    match state.toggle_port_forwarding() {
        ToggleAction::StopAll { service, ports } => {
            assert_eq!(service, "api");
            assert_eq!(ports, vec![80]);
        }
        _ => panic!("expected a bulk stop"),
    }
}
