use rwm::request::Request;
use rwm::rtde::RtdeScreen;
use rwm::rust_wm::{
    rw_enter_notify, rw_focus_on_screen, rw_focus_on_workspace, rw_key_press, rw_map_request, rw_motion_notify,
    rw_move_to_screen, rw_move_to_workspace, rw_property_notify, rw_run_action, rw_unmanage_window, rust_wm_handle, RustWm,
    RwEvent,
};
use rwm::structs::{ActionResult, KeyAction, ScreenSwitching, Workspace};

fn screen(number: i64, x: i64) -> RtdeScreen {
    let mut workspaces = Vec::new();
    for i in 0..10 {
        workspaces.push(Workspace { number: i, master_capacity: 1, master_width: 500, clients: vec![], current_client: None });
    }
    RtdeScreen { number, x, y: 0, width: 1920, height: 1080, workspaces, current_workspace: 0, status_bar: None }
}

fn wm(key_actions: Vec<KeyAction>) -> RustWm {
    RustWm {
        key_actions,
        screens: vec![screen(0, 0), screen(1, 1920)],
        current_screen: 0,
        current_workspace: 0,
        current_client: None,
        root_win: 1,
        running: true,
    }
}

#[test]
fn rust_wm_maps_full_size_client() {
    let mut app = wm(vec![]);
    let mut reqs = Vec::new();
    rw_map_request(&mut app, 10, Some(false), Some("xterm".to_string()), &mut reqs);
    let c = &app.screens[0].workspaces[0].clients[0];
    assert_eq!((c.w, c.h), (1920, 1080));
    assert_eq!(c.window_name, "xterm");
    assert_eq!(app.current_client, Some(0));
    assert_eq!(reqs.len(), 4);
    assert!(matches!(reqs[2], Request::Tile));
    let mut reqs = Vec::new();
    rw_map_request(&mut app, 11, Some(true), None, &mut reqs);
    rw_map_request(&mut app, 12, None, None, &mut reqs);
    assert!(reqs.is_empty());
    rw_map_request(&mut app, 13, Some(false), None, &mut reqs);
    assert_eq!(app.screens[0].workspaces[0].clients[1].window_name, "WHAT THE FUCK");
}

#[test]
fn rust_wm_forgets_and_shifts() {
    let mut app = wm(vec![]);
    let mut reqs = Vec::new();
    rw_map_request(&mut app, 10, Some(false), None, &mut reqs);
    rw_map_request(&mut app, 11, Some(false), None, &mut reqs);
    rw_map_request(&mut app, 12, Some(false), None, &mut reqs);
    let mut reqs = Vec::new();
    rw_unmanage_window(&mut app, 12, &mut reqs);
    assert_eq!(app.screens[0].workspaces[0].clients.len(), 2);
    assert_eq!(app.current_client, Some(1));
    assert_eq!(reqs.len(), 1);
    rw_unmanage_window(&mut app, 99, &mut reqs);
    assert_eq!(reqs.len(), 1);
}

#[test]
fn rust_wm_pointer_picks_screen_by_number() {
    let mut app = wm(vec![]);
    rw_motion_notify(&mut app, 2000, 10);
    assert_eq!(app.current_screen, 1);
    rw_motion_notify(&mut app, -5, 10);
    assert_eq!(app.current_screen, 1);
}

#[test]
fn rust_wm_enter_moves_trackers() {
    let mut app = wm(vec![]);
    let mut reqs = Vec::new();
    rw_map_request(&mut app, 10, Some(false), None, &mut reqs);
    rw_map_request(&mut app, 11, Some(false), None, &mut reqs);
    let mut reqs = Vec::new();
    rw_enter_notify(&mut app, 10, &mut reqs);
    assert_eq!(app.current_client, Some(0));
    assert_eq!(app.screens[0].workspaces[0].current_client, Some(0));
    assert!(matches!(reqs[0], Request::Focus { win: 10 }));
}

#[test]
fn rust_wm_property_renames() {
    let mut app = wm(vec![]);
    let mut reqs = Vec::new();
    rw_map_request(&mut app, 10, Some(false), None, &mut reqs);
    rw_property_notify(&mut app, 10, Some("vim".to_string()));
    assert_eq!(app.screens[0].workspaces[0].clients[0].window_name, "vim");
    rw_property_notify(&mut app, 1, Some("root".to_string()));
    assert_eq!(app.screens[0].workspaces[0].clients[0].window_name, "vim");
}

#[test]
fn rust_wm_workspace_switch_hides_and_shows() {
    let mut app = wm(vec![]);
    let mut reqs = Vec::new();
    rw_map_request(&mut app, 10, Some(false), None, &mut reqs);
    let mut reqs = Vec::new();
    rw_focus_on_workspace(&mut app, 3, &mut reqs);
    assert_eq!(app.current_workspace, 3);
    assert_eq!(app.screens[0].current_workspace, 3);
    assert_eq!(app.current_client, None);
    assert!(!app.screens[0].workspaces[0].clients[0].visible);
    assert!(matches!(reqs[0], Request::MoveResize { win: 10, x: -1920, y: -1080, .. }));
    assert!(matches!(reqs[1], Request::Tile));
}

#[test]
fn rust_wm_moves_client_between_screens_and_workspaces() {
    let mut app = wm(vec![]);
    let mut reqs = Vec::new();
    rw_map_request(&mut app, 10, Some(false), None, &mut reqs);
    rw_move_to_screen(&mut app, ScreenSwitching::Previous, &mut reqs);
    assert!(app.screens[0].workspaces[0].clients.is_empty());
    assert_eq!(app.screens[1].workspaces[0].clients[0].window_id, 10);
    assert_eq!(app.current_client, None);
    rw_focus_on_screen(&mut app, ScreenSwitching::Next);
    assert_eq!(app.current_screen, 1);
    rw_map_request(&mut app, 11, Some(false), None, &mut reqs);
    let mut reqs = Vec::new();
    app.current_workspace = 0;
    app.current_client = Some(1);
    rw_move_to_workspace(&mut app, 4, &mut reqs);
    assert_eq!(app.screens[1].workspaces[4].clients[0].window_id, 11);
    assert!(!app.screens[1].workspaces[4].clients[0].visible);
    assert_eq!(reqs.len(), 2);
}

#[test]
fn rust_wm_key_press_runs_matching_actions() {
    let acts = vec![
        KeyAction { keysym: 1, modifier: 8, result: ActionResult::UpdateMasterCapacity(2) },
        KeyAction { keysym: 2, modifier: 8, result: ActionResult::Quit },
        KeyAction { keysym: 1, modifier: 8, result: ActionResult::Spawn(vec!["kitty".to_string()]) },
    ];
    let mut app = wm(acts);
    let mut reqs = Vec::new();
    rw_key_press(&mut app, 30, 8, &vec![30, 31, 30], &mut reqs);
    assert_eq!(app.screens[0].workspaces[0].master_capacity, 3);
    assert!(app.running);
    assert!(matches!(reqs[0], Request::SpawnAction { index: 2 }));
    rw_run_action(&mut app, 1, &mut reqs);
    assert!(!app.running);
}

#[test]
fn rust_wm_handles_events_in_turn() {
    let acts = vec![KeyAction { keysym: 5, modifier: 8, result: ActionResult::FocusOnWorkspace(2) }];
    let mut app = wm(acts);
    let mut reqs = Vec::new();
    rust_wm_handle(&mut app, RwEvent::MapRequest { window: 40, override_redirect: Some(false), name: None }, &mut reqs);
    rust_wm_handle(&mut app, RwEvent::KeyPress { keycode: 50, state: 8, codes: vec![50] }, &mut reqs);
    assert_eq!(app.current_workspace, 2);
    rust_wm_handle(&mut app, RwEvent::DestroyNotify { window: 40 }, &mut reqs);
    assert!(app.screens[0].workspaces[0].clients.is_empty());
    rust_wm_handle(&mut app, RwEvent::MotionNotify { x: 1950, y: 5 }, &mut reqs);
    assert_eq!(app.current_screen, 1);
    rust_wm_handle(&mut app, RwEvent::Other, &mut reqs);
}
