use rwm::events::{can_focus, can_message, can_run_action, tracker_valid};
use rwm::logic::PlacementFacts;
use rwm::manage::{can_manage, can_unmanage, count_clients, manage_client, WindowAttributes, WindowFacts};
use rwm::mouse::drag_keeps_invariant;
use rwm::request::Request;
use rwm::screens::ScreenInfo;
use rwm::setup::{is_taken_over, scan, setup, ScanFacts};
use rwm::structs::{ActionResult, Application, Atoms, Color, Configuration, DesktopsConfig, KeyAction, PlacementRule};

fn atoms() -> Atoms {
    Atoms {
        utf8string: 1001,
        wm_protocols: 1002,
        wm_delete: 1003,
        wm_state: 1004,
        wm_take_focus: 1005,
        wm_name: 1006,
        net_active_window: 1007,
        net_supported: 1008,
        net_wm_name: 1009,
        net_wm_state: 1010,
        net_wm_state_demands_attention: 1011,
        net_wm_check: 1012,
        net_wm_fullscreen: 1013,
        net_wm_window_type: 1014,
        net_wm_window_type_dialog: 1015,
        net_wm_window_type_dock: 1016,
        net_client_list: 1017,
        net_number_of_desktops: 1018,
        net_current_desktop: 1019,
        net_wm_desktop: 1020,
        net_desktop_names: 1021,
        net_desktop_viewport: 1022,
        net_wm_pid: 1023,
    }
}

fn app_with(key_actions: Vec<KeyAction>, placements: Vec<PlacementRule>, names: Vec<[String; 10]>) -> Application {
    let mut desktops = DesktopsConfig::new();
    desktops.names = names;
    let config = Configuration {
        key_actions,
        gap_width: 0,
        border_size: 1,
        normal_border_color: Color { alpha: 0, red: 0, green: 0, blue: 0 },
        active_border_color: Color { alpha: 0, red: 0, green: 0, blue: 0 },
        urgent_border_color: Color { alpha: 0, red: 0, green: 0, blue: 0 },
        desktops,
        autostart: vec![],
        placements,
    };
    let screens = vec![ScreenInfo { screen_number: 0, x_org: 0, y_org: 0, width: 800, height: 600 }];
    let mut reqs = Vec::new();
    setup(config, 1, 2, atoms(), &screens, &mut reqs)
}

fn facts(x: i16, state: u64) -> WindowFacts {
    WindowFacts {
        attributes: Some(WindowAttributes { x, y: 0, width: 100, height: 100, override_redirect: false }),
        window_type: 0,
        state,
        hints: None,
        placement: PlacementFacts { transient_for: None, desktop: None, pid: None, title: None, instance: None, class: None },
    }
}

#[test]
fn configured_names_are_published() {
    let names = ["a", "b", "c", "d", "e", "f", "g", "h", "i", "j"].map(|s| s.to_string());
    let mut desktops = DesktopsConfig::new();
    desktops.names = vec![names];
    let config = Configuration {
        key_actions: vec![],
        gap_width: 0,
        border_size: 1,
        normal_border_color: Color { alpha: 0, red: 0, green: 0, blue: 0 },
        active_border_color: Color { alpha: 0, red: 0, green: 0, blue: 0 },
        urgent_border_color: Color { alpha: 0, red: 0, green: 0, blue: 0 },
        desktops,
        autostart: vec![],
        placements: vec![],
    };
    let screens = vec![
        ScreenInfo { screen_number: 0, x_org: 0, y_org: 0, width: 800, height: 600 },
        ScreenInfo { screen_number: 1, x_org: 800, y_org: 0, width: 800, height: 600 },
    ];
    let mut reqs = Vec::new();
    let app = setup(config, 1, 2, atoms(), &screens, &mut reqs);
    assert_eq!(app.runtime.screens.len(), 2);
    assert!(matches!(reqs[4], Request::SetProperty { value: 20, .. }));
    let expected: Vec<u8> = b"a\0b\0c\0d\0e\0f\0g\0h\0i\0j\x001\x002\x003\x004\x005\x006\x007\x008\x009\x0010\0".to_vec();
    assert!(matches!(&reqs[5], Request::SetText { bytes, .. } if *bytes == expected));
    assert!(matches!(&reqs[6], Request::SetSignedList { values, .. } if values.len() == 40 && values[20] == 800 && values[21] == 0));
}

#[test]
fn tracker_checks_follow_the_state() {
    let mut app = app_with(vec![], vec![], vec![]);
    assert!(tracker_valid(&app));
    assert!(can_focus(&app, 55));
    app.runtime.current_client = Some(3);
    assert!(!tracker_valid(&app));
    assert!(!can_focus(&app, 55));
    app.runtime.current_client = None;
    assert_eq!(count_clients(&app), 0);
}

#[test]
fn manage_check_refuses_bad_places() {
    let rules = vec![PlacementRule { instance: None, class: None, title: None, rule_screen: Some(4), rule_workspace: None }];
    let app = app_with(vec![], rules, vec![]);
    assert!(!can_manage(&app, 10, &facts(0, 0), false));
    let app = app_with(vec![], vec![], vec![]);
    assert!(can_manage(&app, 10, &facts(0, 0), false));
    assert!(!can_manage(&app, 10, &facts(900, 1013), false));
    assert!(can_manage(&app, 10, &facts(700, 1013), false));
}

#[test]
fn unmanage_check_and_counts() {
    let mut app = app_with(vec![], vec![], vec![]);
    let mut reqs = Vec::new();
    manage_client(&mut app, 10, &facts(0, 0), false, &mut reqs);
    manage_client(&mut app, 11, &facts(0, 0), false, &mut reqs);
    assert_eq!(count_clients(&app), 2);
    assert!(can_unmanage(&app, 10));
    assert!(can_unmanage(&app, 99));
    assert!(drag_keeps_invariant(&app, 10, 10));
}

#[test]
fn action_and_message_checks() {
    let acts = vec![
        KeyAction { keysym: 1, modifier: 0, result: ActionResult::FocusOnWorkspace(12) },
        KeyAction { keysym: 2, modifier: 0, result: ActionResult::KillClient },
    ];
    let app = app_with(acts, vec![], vec![]);
    assert!(!can_run_action(&app, 0));
    assert!(can_run_action(&app, 1));
    assert!(can_message(&app, 1, 1019, [5, 0, 0, 0, 0]));
    assert!(!can_message(&app, 1, 1019, [15, 0, 0, 0, 0]));
    assert!(can_message(&app, 1, 1010, [15, 0, 0, 0, 0]));
}

#[test]
fn scan_takes_over_viewable_windows() {
    let mut app = app_with(vec![], vec![], vec![]);
    let mut hidden = facts(0, 0);
    hidden.placement.desktop = Some(3);
    let wins = vec![
        ScanFacts { win: 20, readable: true, override_redirect: false, transient: false, viewable: true, facts: facts(0, 0) },
        ScanFacts { win: 21, readable: true, override_redirect: false, transient: true, viewable: true, facts: facts(0, 0) },
        ScanFacts { win: 22, readable: true, override_redirect: false, transient: false, viewable: false, facts: facts(0, 0) },
        ScanFacts { win: 23, readable: true, override_redirect: false, transient: false, viewable: true, facts: hidden },
    ];
    assert!(is_taken_over(&wins[0]));
    assert!(!is_taken_over(&wins[1]));
    let mut reqs = Vec::new();
    scan(&mut app, &wins, &mut reqs);
    assert_eq!(count_clients(&app), 2);
    assert_eq!(app.runtime.screens[0].workspaces[3].clients[0].window_id, 23);
    assert!(app.runtime.screens[0].workspaces[3].clients[0].urgent);
    assert!(!app.runtime.screens[0].workspaces[3].clients[0].visible);
}

#[test]
fn matching_actions_in_order() {
    let acts = vec![
        KeyAction { keysym: 1, modifier: 4, result: ActionResult::DumpInfo },
        KeyAction { keysym: 2, modifier: 4, result: ActionResult::DumpInfo },
        KeyAction { keysym: 1, modifier: 4, result: ActionResult::Quit },
    ];
    let app = app_with(acts, vec![], vec![]);
    let codes = vec![30, 31, 30];
    assert_eq!(rwm::events::matching_actions(&app, 30, 4, &codes), vec![0, 2]);
    assert!(rwm::events::matching_actions(&app, 30, 5, &codes).is_empty());
}

#[test]
fn closing_asks_politely_or_kills() {
    let app = app_with(vec![], vec![], vec![]);
    let mut reqs = Vec::new();
    rwm::helper::close_window(&app, 7, Some(vec![5, 1003]), &mut reqs);
    assert_eq!(reqs.len(), 1);
    assert!(matches!(reqs[0], Request::SendDelete { win: 7, message_type: 1002, protocol: 1003 }));
    let mut reqs = Vec::new();
    rwm::helper::close_window(&app, 7, None, &mut reqs);
    assert_eq!(reqs.len(), 4);
    assert!(matches!(reqs[2], Request::KillClient { win: 7 }));
}

#[test]
fn failed_delete_message_kills() {
    let app = app_with(vec![], vec![], vec![]);
    let mut reqs = Vec::new();
    rwm::helper::delete_sent(&app, 7, Some(vec![1003]), true, &mut reqs);
    assert!(reqs.is_empty());
    rwm::helper::delete_sent(&app, 7, Some(vec![1003]), false, &mut reqs);
    assert_eq!(reqs.len(), 4);
    assert!(matches!(reqs[0], Request::GrabServer));
    assert!(matches!(reqs[1], Request::DestroyAllOnClose));
    assert!(matches!(reqs[2], Request::KillClient { win: 7 }));
    assert!(matches!(reqs[3], Request::UngrabServer));
}

#[test]
fn desktop_number_round_trip() {
    let mut app = app_with(vec![], vec![], vec![]);
    let mut reqs = Vec::new();
    rwm::logic::focus_on_workspace(&mut app, 3, false, &mut reqs);
    assert_eq!(app.runtime.current_screen, 0);
    assert_eq!(app.runtime.current_workspace, 3);
    assert_eq!(app.runtime.screens[0].current_workspace, 3);
    assert!(reqs.iter().any(|r| matches!(r, Request::SetProperty { property: 1019, value: 3, .. })));
}
