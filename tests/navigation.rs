use kubefwd_tui::cli::Args;
use kubefwd_tui::resolver::pod_for_service;
use kubefwd_tui::state::AppState;
use kubefwd_tui::ui::command_list;

fn three_services() -> AppState {
    AppState::new(
        Some("staging".to_string()),
        vec![
            ("api".to_string(), vec![80, 443]),
            ("db".to_string(), vec![5432]),
            ("web".to_string(), vec![8080, 9090, 9091]),
        ],
    )
}

#[test]
fn new_state_has_nothing_selected() {
    let state = three_services();
    assert_eq!(state.service_selection(), None);
    assert_eq!(state.port_selection(), None);
    assert_eq!(state.service(), None);
    assert!(state.port_list().is_empty());
    assert_eq!(state.service_list(), vec!["api", "db", "web"]);
}

#[test]
fn services_listed_by_name() {
    let state = AppState::new(
        None,
        vec![
            ("web".to_string(), vec![8080]),
            ("api".to_string(), vec![80]),
            ("db".to_string(), vec![5432]),
            ("Zed".to_string(), vec![1]),
            ("ap".to_string(), vec![2]),
        ],
    );
    assert_eq!(state.service_list(), vec!["Zed", "ap", "api", "db", "web"]);
}

#[test]
fn repeated_service_name_keeps_last_ports() {
    let mut state = AppState::new(
        None,
        vec![
            ("web".to_string(), vec![80]),
            ("api".to_string(), vec![1]),
            ("web".to_string(), vec![81, 82]),
        ],
    );
    assert_eq!(state.service_list(), vec!["api", "web"]);
    state.previous();
    assert_eq!(state.service(), Some("web".to_string()));
    assert_eq!(state.port_list(), vec![81, 82]);
}

#[test]
fn next_wraps_round_services() {
    let mut state = three_services();
    state.next();
    assert_eq!(state.service(), Some("api".to_string()));
    state.next();
    state.next();
    assert_eq!(state.service(), Some("web".to_string()));
    state.next();
    assert_eq!(state.service_selection(), Some(0));
}

#[test]
fn previous_from_nothing_goes_to_last() {
    let mut state = three_services();
    state.previous();
    assert_eq!(state.service_selection(), Some(2));
    state.previous();
    assert_eq!(state.service_selection(), Some(1));
}

#[test]
fn port_cursor_wraps_both_ways() {
    let mut state = three_services();
    state.previous();
    state.select();
    assert_eq!(state.port_selection(), Some(0));
    state.previous();
    assert_eq!(state.port_selection(), Some(2));
    state.next();
    assert_eq!(state.port_selection(), Some(0));
    assert_eq!(state.port_list(), vec![8080, 9090, 9091]);
}

#[test]
fn deselect_leaves_port_list() {
    let mut state = three_services();
    state.next();
    state.select();
    state.deselect();
    assert_eq!(state.port_selection(), None);
    assert_eq!(state.service_selection(), Some(0));
    state.previous();
    assert_eq!(state.service_selection(), Some(2));
}

#[test]
fn select_without_service_does_nothing() {
    let mut state = three_services();
    state.select();
    assert_eq!(state.port_selection(), None);
}

#[test]
fn empty_listing_stays_unselected() {
    let mut state = AppState::new(None, vec![]);
    state.next();
    state.previous();
    state.select();
    assert_eq!(state.service_selection(), None);
    assert_eq!(state.port_selection(), None);
}

#[test]
fn namespace_label_defaults() {
    assert_eq!(AppState::new(None, vec![]).namespace_label(), "default");
    assert_eq!(three_services().namespace_label(), "staging");
    assert_eq!(three_services().namespace_opt(), &Some("staging".to_string()));
}

#[test]
fn pod_chosen_by_name_prefix() {
    let pods = vec![
        "api-7d9f".to_string(),
        "web-abc".to_string(),
        "web-def".to_string(),
    ];
    assert_eq!(pod_for_service(&pods, &"web".to_string()), Some(1));
    assert_eq!(pod_for_service(&pods, &"db".to_string()), None);
    assert_eq!(pod_for_service(&pods, &"api-7d9f".to_string()), Some(0));
    assert_eq!(pod_for_service(&pods, &"api-7d9f0".to_string()), None);
}

#[test]
fn key_bindings_in_order() {
    let commands = command_list();
    assert_eq!(
        commands,
        vec![
            ("Arrows (←↑→↓)", "Move around"),
            ("Enter", "Toggle port forwarding"),
            ("q", "Quit"),
        ]
    );
}

#[test]
fn args_keep_namespace() {
    assert_eq!(Args::collect(Some("dev".to_string())).namespace, Some("dev".to_string()));
    assert_eq!(Args::collect(None).namespace, None);
}
