use rwm::config::{desktop_key_actions, NUMBER_OF_DESKTOPS};
use rwm::events::{
    button_press, button_release, client_message, configure_request, enter_notify, key_press, motion_notify,
    unmap_notify, ConfigureRequest, CW_WIDTH, CW_X,
};
use rwm::helper::{
    div_trunc, find_window_indexes, get_client_workspace, pid_from_bytes, send_atom, update_normal_hints, SizeHints,
    P_MAX_SIZE, P_MIN_SIZE,
};
use rwm::logic::{
    focus_on_screen, focus_on_workspace, get_client_name, get_window_placement, move_to_screen, move_to_workspace,
    toggle_float, update_client_name, update_master_capacity, update_master_width, PlacementFacts,
};
use rwm::manage::{attach_dock, detach_dock, manage_client, unmanage_window, WindowAttributes, WindowFacts};
use rwm::request::{EventMask, PropertyKind, Request};
use rwm::screens::{update_screens, ScreenInfo};
use rwm::setup::{setup, spawn};
use rwm::structs::{
    ActionResult, Application, Atoms, AutostartRulePID, Client, Color, Configuration, DesktopsConfig, KeyAction,
    PlacementRule, ScreenSwitching,
};
use rwm::utils::{argb_to_int, vec_string_to_bytes};

const ROOT: u64 = 1;
const CHECK: u64 = 2;

fn atoms() -> Atoms {
    Atoms {
        utf8string: 101,
        wm_protocols: 102,
        wm_delete: 103,
        wm_state: 104,
        wm_take_focus: 105,
        wm_name: 106,
        net_active_window: 107,
        net_supported: 108,
        net_wm_name: 109,
        net_wm_state: 110,
        net_wm_state_demands_attention: 111,
        net_wm_check: 112,
        net_wm_fullscreen: 113,
        net_wm_window_type: 114,
        net_wm_window_type_dialog: 115,
        net_wm_window_type_dock: 116,
        net_client_list: 117,
        net_number_of_desktops: 118,
        net_current_desktop: 119,
        net_wm_desktop: 120,
        net_desktop_names: 121,
        net_desktop_viewport: 122,
        net_wm_pid: 123,
    }
}

fn color(r: u8, g: u8, b: u8) -> Color {
    Color { alpha: 255, red: r, green: g, blue: b }
}

fn config(key_actions: Vec<KeyAction>, placements: Vec<PlacementRule>) -> Configuration {
    Configuration {
        key_actions,
        gap_width: 4,
        border_size: 2,
        normal_border_color: color(64, 64, 128),
        active_border_color: color(126, 36, 135),
        urgent_border_color: color(255, 0, 0),
        desktops: DesktopsConfig::new(),
        autostart: vec![],
        placements,
    }
}

fn screen(n: i32, x: i16, w: i16) -> ScreenInfo {
    ScreenInfo { screen_number: n, x_org: x, y_org: 0, width: w, height: 1080 }
}

fn start(screens: Vec<ScreenInfo>, key_actions: Vec<KeyAction>) -> Application {
    let mut reqs = Vec::new();
    setup(config(key_actions, vec![]), ROOT, CHECK, atoms(), &screens, &mut reqs)
}

fn no_facts() -> PlacementFacts {
    PlacementFacts { transient_for: None, desktop: None, pid: None, title: None, instance: None, class: None }
}

fn window(x: i16, y: i16, w: u16, h: u16) -> WindowFacts {
    WindowFacts {
        attributes: Some(WindowAttributes { x, y, width: w, height: h, override_redirect: false }),
        window_type: 0,
        state: 0,
        hints: None,
        placement: no_facts(),
    }
}

fn manage(app: &mut Application, win: u64) -> Vec<Request> {
    let mut reqs = Vec::new();
    manage_client(app, win, &window(10, 20, 300, 200), false, &mut reqs);
    reqs
}

fn client(app: &Application, win: u64) -> &Client {
    let (s, w, c) = find_window_indexes(app, win).unwrap();
    &app.runtime.screens[s].workspaces[w].clients[c]
}

fn count(app: &Application) -> usize {
    app.runtime.screens.iter().map(|s| s.workspaces.iter().map(|w| w.clients.len()).sum::<usize>()).sum()
}

#[test]
fn argb_packs_channels() {
    assert_eq!(argb_to_int(Color { alpha: 0xff, red: 0x40, green: 0x40, blue: 0x80 }), 0xff40_4080);
    assert_eq!(argb_to_int(Color { alpha: 0, red: 0, green: 0, blue: 1 }), 1);
}

#[test]
fn desktops_config_starts_empty() {
    let d = DesktopsConfig::new();
    assert_eq!(d.keysyms, [0u32; NUMBER_OF_DESKTOPS]);
    assert!(d.names.is_empty());
}

#[test]
fn desktop_shortcuts_focus_and_move() {
    let keys = [49, 50, 51, 52, 53, 54, 55, 56, 57, 48];
    let acts = desktop_key_actions(keys, 64, 1);
    assert_eq!(acts.len(), 20);
    assert_eq!(acts[0].keysym, 49);
    assert_eq!(acts[0].modifier, 64);
    assert!(matches!(acts[0].result, ActionResult::FocusOnWorkspace(0)));
    assert_eq!(acts[19].keysym, 48);
    assert_eq!(acts[19].modifier, 65);
    assert!(matches!(acts[19].result, ActionResult::MoveToWorkspace(9)));
}

#[test]
fn strings_become_nul_separated_bytes() {
    let bytes = vec_string_to_bytes(vec!["ab".to_string(), "c".to_string()]);
    assert_eq!(bytes, vec![b'a', b'b', 0, b'c', 0]);
}

#[test]
fn pid_is_little_endian() {
    assert_eq!(pid_from_bytes(0x34, 0x12), 0x1234);
}

#[test]
fn protocol_sent_only_when_listed() {
    assert!(send_atom(&Some(vec![5, 103]), 103, true));
    assert!(!send_atom(&Some(vec![5, 103]), 103, false));
    assert!(!send_atom(&Some(vec![5]), 103, true));
    assert!(!send_atom(&None, 103, true));
}

#[test]
fn division_rounds_toward_zero() {
    assert_eq!(div_trunc(7, 2), 3);
    assert_eq!(div_trunc(-7, 2), -3);
}

#[test]
fn size_hints_grow_and_fix() {
    let mut c = Client {
        window_id: 1,
        window_name: String::new(),
        x: 0,
        y: 0,
        w: 10,
        h: 10,
        ow: 10,
        oh: 10,
        border: 0,
        visible: true,
        floating: false,
        fullscreen: false,
        fixed: false,
        urgent: false,
        minw: 0,
        minh: 0,
        maxw: 0,
        maxh: 0,
    };
    update_normal_hints(
        &mut c,
        Some(SizeHints { flags: P_MIN_SIZE | P_MAX_SIZE, min_width: 50, min_height: 40, max_width: 50, max_height: 40 }),
    );
    assert_eq!((c.w, c.h), (50, 40));
    assert!(c.fixed);
}

#[test]
fn setup_announces_and_focuses_first_workspace() {
    let mut reqs = Vec::new();
    let acts = vec![KeyAction { keysym: 113, modifier: 65, result: ActionResult::Quit }];
    let app = setup(config(acts, vec![]), ROOT, CHECK, atoms(), &vec![screen(0, 0, 1920)], &mut reqs);
    assert_eq!(app.runtime.screens.len(), 1);
    assert_eq!(app.runtime.screens[0].workspaces.len(), NUMBER_OF_DESKTOPS);
    assert_eq!(app.runtime.screens[0].workspaces[3].master_width, 500);
    assert_eq!(app.runtime.screens[0].width, 1920);
    assert!(matches!(&reqs[0], Request::SetPropertyList { win: ROOT, property: 108, kind: PropertyKind::Atom, values } if values.len() == 13));
    assert!(matches!(reqs[1], Request::SetProperty { win: CHECK, property: 112, kind: PropertyKind::Window, value: CHECK }));
    assert!(matches!(&reqs[2], Request::SetText { win: CHECK, property: 109, encoding: 101, bytes } if bytes == b"rtwm\0"));
    assert!(matches!(reqs[3], Request::SetProperty { win: ROOT, property: 112, kind: PropertyKind::Window, value: CHECK }));
    assert!(matches!(reqs[4], Request::SetProperty { win: ROOT, property: 118, kind: PropertyKind::Cardinal, value: 10 }));
    assert!(matches!(&reqs[5], Request::SetText { bytes, .. } if bytes == b"1\x002\x003\x004\x005\x006\x007\x008\x009\x0010\0"));
    assert!(matches!(&reqs[6], Request::SetSignedList { values, .. } if values.len() == 20));
    assert!(matches!(reqs[7], Request::GrabKey { keysym: 113, modifiers: 65 }));
    assert!(matches!(reqs[8], Request::SetRootAttributes { win: ROOT }));
    assert!(matches!(reqs[9], Request::SelectInput { win: ROOT, mask: EventMask::Root }));
    assert!(matches!(reqs[10], Request::Focus { win: ROOT }));
    assert!(matches!(reqs[11], Request::DeleteProperty { win: ROOT, property: 107 }));
    assert!(matches!(reqs[12], Request::SetProperty { win: ROOT, property: 119, kind: PropertyKind::Cardinal, value: 0 }));
    assert_eq!(reqs.len(), 13);
}

#[test]
fn first_window_fills_the_screen_and_is_focused() {
    let mut app = start(vec![screen(0, 0, 1920)], vec![]);
    let reqs = manage(&mut app, 100);
    let c = client(&app, 100);
    assert_eq!((c.x, c.y, c.w, c.h, c.border), (0, 0, 1920, 1080, 0));
    assert!(c.visible);
    assert_eq!(app.runtime.current_client, Some(0));
    assert!(matches!(reqs[0], Request::SelectInput { win: 100, mask: EventMask::Client }));
    assert!(matches!(reqs[1], Request::AppendProperty { win: ROOT, property: 117, kind: PropertyKind::Window, value: 100 }));
    assert!(matches!(reqs[2], Request::SetProperty { win: 100, property: 120, value: 0, .. }));
    assert!(matches!(reqs[3], Request::SetConfiguredBorder { win: 100, width: 2 }));
    assert!(matches!(reqs[4], Request::SetWmState { win: 100, state: 1 }));
    assert!(matches!(reqs[5], Request::SetBorderWidth { win: 100, width: 0 }));
    assert!(matches!(reqs[6], Request::MoveResize { win: 100, x: 0, y: 0, width: 1920, height: 1080 }));
    assert!(matches!(reqs[7], Request::MapWindow { win: 100 }));
    assert!(matches!(reqs[8], Request::SetBorderColor { win: 100, pixel: 0xff7e_2487 }));
    assert!(matches!(reqs.last().unwrap(), Request::SetProperty { win: ROOT, property: 119, value: 0, .. }));
}

#[test]
fn second_window_takes_the_master_column() {
    let mut app = start(vec![screen(0, 0, 1920)], vec![]);
    manage(&mut app, 100);
    let reqs = manage(&mut app, 101);
    assert!(matches!(reqs[1], Request::SetBorderColor { win: 100, pixel: 0xff40_4080 }));
    assert!(matches!(reqs[2], Request::UngrabButtons { win: 100 }));
    let master = client(&app, 101);
    assert_eq!((master.x, master.y, master.w, master.h, master.border), (4, 4, 950, 1068, 2));
    let stack = client(&app, 100);
    assert_eq!((stack.x, stack.y, stack.w, stack.h), (962, 4, 950, 1068));
    assert_eq!(count(&app), 2);
}

#[test]
fn managing_twice_or_override_does_nothing() {
    let mut app = start(vec![screen(0, 0, 1920)], vec![]);
    manage(&mut app, 100);
    let again = manage(&mut app, 100);
    assert!(again.is_empty());
    let mut reqs = Vec::new();
    let mut f = window(0, 0, 10, 10);
    f.attributes = Some(WindowAttributes { x: 0, y: 0, width: 10, height: 10, override_redirect: true });
    manage_client(&mut app, 200, &f, false, &mut reqs);
    assert!(reqs.is_empty());
    assert_eq!(count(&app), 1);
}

#[test]
fn dock_reserves_space_and_detaches() {
    let mut app = start(vec![screen(0, 0, 1920)], vec![]);
    manage(&mut app, 100);
    let mut reqs = Vec::new();
    let mut f = window(0, 0, 1920, 30);
    f.window_type = 116;
    manage_client(&mut app, 300, &f, false, &mut reqs);
    assert_eq!(app.runtime.bars.len(), 1);
    assert_eq!(app.runtime.screens[0].bar_offsets.up, 30);
    assert_eq!(client(&app, 100).y, 30);
    assert_eq!(client(&app, 100).h, 1050);
    assert!(matches!(reqs[reqs.len() - 1], Request::SelectInput { win: 300, mask: EventMask::Dock }));
    let mut reqs = Vec::new();
    unmanage_window(&mut app, 300, &mut reqs);
    assert!(app.runtime.bars.is_empty());
    assert_eq!(app.runtime.screens[0].bar_offsets.up, 0);
}

#[test]
fn attach_then_detach_keeps_other_docks() {
    let mut app = start(vec![screen(0, 0, 1920)], vec![]);
    let mut reqs = Vec::new();
    attach_dock(&mut app, WindowAttributes { x: 0, y: 1050, width: 1920, height: 30, override_redirect: false }, 7, &mut reqs);
    assert_eq!(app.runtime.screens[0].bar_offsets.down, 30);
    attach_dock(&mut app, WindowAttributes { x: 0, y: 0, width: 20, height: 1000, override_redirect: false }, 8, &mut reqs);
    assert_eq!(app.runtime.screens[0].bar_offsets.left, 20);
    detach_dock(&mut app, 8, &mut reqs);
    assert_eq!(app.runtime.bars.len(), 1);
    assert_eq!(app.runtime.bars[0].window_id, 7);
    assert_eq!(app.runtime.screens[0].bar_offsets.left, 0);
    assert_eq!(app.runtime.screens[0].bar_offsets.down, 30);
}

#[test]
fn unmanage_forgets_the_client() {
    let mut app = start(vec![screen(0, 0, 1920)], vec![]);
    manage(&mut app, 100);
    manage(&mut app, 101);
    let mut reqs = Vec::new();
    unmanage_window(&mut app, 101, &mut reqs);
    assert!(find_window_indexes(&app, 101).is_none());
    assert_eq!(count(&app), 1);
    assert_eq!(app.runtime.screens[0].workspaces[0].current_client, Some(0));
    assert!(reqs.iter().any(|r| matches!(r, Request::SetWmState { win: 101, state: 0 })));
    assert!(matches!(reqs.last().unwrap(), Request::AppendProperty { value: 100, .. }));
    let c = client(&app, 100);
    assert_eq!((c.w, c.h), (1920, 1080));
}

#[test]
fn screen_cycle_comes_back() {
    let mut app = start(vec![screen(0, 0, 1920), screen(1, 1920, 1280)], vec![]);
    let mut reqs = Vec::new();
    focus_on_screen(&mut app, ScreenSwitching::Next, &mut reqs);
    assert_eq!(app.runtime.current_screen, 1);
    focus_on_screen(&mut app, ScreenSwitching::Next, &mut reqs);
    assert_eq!(app.runtime.current_screen, 0);
    focus_on_screen(&mut app, ScreenSwitching::Previous, &mut reqs);
    assert_eq!(app.runtime.current_screen, 1);
    focus_on_screen(&mut app, ScreenSwitching::Next, &mut reqs);
    assert_eq!(app.runtime.current_screen, 0);
    assert_eq!(app.runtime.current_workspace, app.runtime.screens[0].current_workspace);
    assert_eq!(app.runtime.current_client, None);
}

#[test]
fn move_to_screen_carries_the_client() {
    let mut app = start(vec![screen(0, 0, 1920), screen(1, 1920, 1280)], vec![]);
    manage(&mut app, 100);
    let mut reqs = Vec::new();
    move_to_screen(&mut app, ScreenSwitching::Next, &mut reqs);
    assert_eq!(find_window_indexes(&app, 100), Some((1, 0, 0)));
    assert!(matches!(reqs[1], Request::SetProperty { win: 100, property: 120, value: 10, .. }));
    let c = client(&app, 100);
    assert_eq!((c.w, c.h), (1280, 1080));
    assert_eq!(count(&app), 1);
}

#[test]
fn move_to_workspace_puts_client_on_top() {
    let mut app = start(vec![screen(0, 0, 1920)], vec![]);
    manage(&mut app, 100);
    manage(&mut app, 101);
    let mut reqs = Vec::new();
    move_to_workspace(&mut app, 3, &mut reqs);
    let ws = &app.runtime.screens[0].workspaces[3];
    assert_eq!(ws.clients.last().unwrap().window_id, 101);
    assert!(!ws.clients[0].visible);
    assert_eq!(app.runtime.current_client, Some(0));
    assert!(matches!(reqs[1], Request::SetProperty { win: 101, property: 120, value: 3, .. }));
    assert_eq!(count(&app), 2);
}

#[test]
fn focus_on_workspace_switches_and_hides() {
    let mut app = start(vec![screen(0, 0, 1920)], vec![]);
    manage(&mut app, 100);
    let mut reqs = Vec::new();
    focus_on_workspace(&mut app, 2, true, &mut reqs);
    assert_eq!(app.runtime.current_workspace, 2);
    assert_eq!(app.runtime.screens[0].current_workspace, 2);
    assert_eq!(app.runtime.current_client, None);
    assert!(!client(&app, 100).visible);
    assert!(matches!(reqs.last().unwrap(), Request::MoveResize { win: 100, x: -1926, y: -1086, .. }));
    let mut reqs = Vec::new();
    focus_on_workspace(&mut app, 0, true, &mut reqs);
    assert!(client(&app, 100).visible);
    assert_eq!(app.runtime.current_client, Some(0));
}

#[test]
fn master_width_stays_inside_bounds() {
    let mut app = start(vec![screen(0, 0, 1920)], vec![]);
    let mut reqs = Vec::new();
    update_master_width(&mut app, 50, &mut reqs);
    assert_eq!(app.runtime.screens[0].workspaces[0].master_width, 550);
    update_master_width(&mut app, 500, &mut reqs);
    assert_eq!(app.runtime.screens[0].workspaces[0].master_width, 550);
    update_master_width(&mut app, -300, &mut reqs);
    assert_eq!(app.runtime.screens[0].workspaces[0].master_width, 550);
    update_master_width(&mut app, -250, &mut reqs);
    assert_eq!(app.runtime.screens[0].workspaces[0].master_width, 300);
}

#[test]
fn master_capacity_moves_by_step() {
    let mut app = start(vec![screen(0, 0, 1920)], vec![]);
    let mut reqs = Vec::new();
    update_master_capacity(&mut app, -1, &mut reqs);
    assert_eq!(app.runtime.screens[0].workspaces[0].master_capacity, 0);
    update_master_capacity(&mut app, 3, &mut reqs);
    assert_eq!(app.runtime.screens[0].workspaces[0].master_capacity, 3);
}

#[test]
fn toggle_float_twice_restores_tiling() {
    let mut app = start(vec![screen(0, 0, 1920)], vec![]);
    manage(&mut app, 100);
    let mut reqs = Vec::new();
    toggle_float(&mut app, &mut reqs);
    assert!(client(&app, 100).floating);
    assert_eq!(client(&app, 100).border, 2);
    toggle_float(&mut app, &mut reqs);
    assert!(!client(&app, 100).floating);
    assert_eq!(client(&app, 100).border, 0);
    assert_eq!(client(&app, 100).w, 1920);
}

#[test]
fn name_is_read_back() {
    let mut app = start(vec![screen(0, 0, 1920)], vec![]);
    manage(&mut app, 100);
    assert_eq!(get_client_name(&app, 100), "");
    update_client_name(&mut app, 100, Some("term".to_string()));
    assert_eq!(get_client_name(&app, 100), "term");
    update_client_name(&mut app, 100, None);
    assert_eq!(get_client_name(&app, 100), "_");
    assert_eq!(get_client_name(&app, 5), "Unmanaged Window");
}

#[test]
fn placement_follows_its_rules() {
    let rules = vec![PlacementRule {
        instance: None,
        class: Some("Firefox".to_string()),
        title: None,
        rule_screen: None,
        rule_workspace: Some(1),
    }];
    let mut reqs = Vec::new();
    let mut app = setup(config(vec![], rules), ROOT, CHECK, atoms(), &vec![screen(0, 0, 1920), screen(1, 1920, 1280)], &mut reqs);
    manage(&mut app, 100);
    let mut f = no_facts();
    f.transient_for = Some(100);
    assert_eq!(get_window_placement(&app, &f, false), ((0, 0), 100));
    let mut f = no_facts();
    f.desktop = Some(13);
    assert_eq!(get_window_placement(&app, &f, true), ((1, 3), 0));
    assert_eq!(get_window_placement(&app, &f, false), ((0, 0), 0));
    assert_eq!(get_client_workspace(&app, Some(25)), None);
    app.runtime.autostart_rules.push(AutostartRulePID { pid: 42, screen: 1, workspace: 5 });
    let mut f = no_facts();
    f.pid = Some(42);
    assert_eq!(get_window_placement(&app, &f, false), ((1, 5), 0));
    let mut f = no_facts();
    f.class = Some("Firefox".to_string());
    assert_eq!(get_window_placement(&app, &f, false), ((0, 1), 0));
    f.class = Some("Other".to_string());
    assert_eq!(get_window_placement(&app, &f, false), ((0, 0), 0));
}

#[test]
fn spawned_autostart_is_remembered() {
    let mut app = start(vec![screen(0, 0, 1920)], vec![]);
    spawn(&mut app, 77, Some((0, 4)));
    spawn(&mut app, 78, None);
    assert_eq!(app.runtime.autostart_rules.len(), 1);
    assert_eq!(app.runtime.autostart_rules[0].pid, 77);
    assert_eq!(app.runtime.autostart_rules[0].workspace, 4);
}

#[test]
fn removed_screen_hands_clients_to_first() {
    let mut app = start(vec![screen(0, 0, 1920), screen(1, 1920, 1280)], vec![]);
    manage(&mut app, 100);
    let mut reqs = Vec::new();
    move_to_screen(&mut app, ScreenSwitching::Next, &mut reqs);
    let mut reqs = Vec::new();
    update_screens(&mut app, &vec![screen(0, 0, 2560)], &mut reqs);
    assert_eq!(app.runtime.screens.len(), 1);
    assert_eq!(app.runtime.screens[0].width, 2560);
    assert_eq!(find_window_indexes(&app, 100), Some((0, 0, 0)));
    assert_eq!(reqs.len(), 1);
    assert!(matches!(reqs[0], Request::SetProperty { win: 100, property: 120, value: 0, .. }));
}

#[test]
fn key_press_runs_matching_actions() {
    let acts = vec![
        KeyAction { keysym: 36, modifier: 64, result: ActionResult::Spawn(vec!["term".to_string()]) },
        KeyAction { keysym: 24, modifier: 65, result: ActionResult::Quit },
        KeyAction { keysym: 10, modifier: 64, result: ActionResult::FocusOnWorkspace(1) },
    ];
    let mut app = start(vec![screen(0, 0, 1920)], acts);
    let codes = vec![36, 24, 10];
    let mut reqs = Vec::new();
    key_press(&mut app, 36, 64, &codes, &mut reqs);
    assert_eq!(reqs.len(), 1);
    assert!(matches!(reqs[0], Request::SpawnAction { index: 0 }));
    assert!(app.core.running);
    key_press(&mut app, 10, 64, &codes, &mut reqs);
    assert_eq!(app.runtime.current_workspace, 1);
    key_press(&mut app, 24, 64, &codes, &mut reqs);
    assert!(app.core.running);
    key_press(&mut app, 24, 65, &codes, &mut reqs);
    assert!(!app.core.running);
}

#[test]
fn fullscreen_request_covers_screen() {
    let mut app = start(vec![screen(0, 0, 1920)], vec![]);
    manage(&mut app, 100);
    manage(&mut app, 101);
    let mut reqs = Vec::new();
    client_message(&mut app, 101, 110, [1, 113, 0, 0, 0], &mut reqs);
    assert!(client(&app, 101).fullscreen);
    assert!(matches!(reqs[0], Request::SetProperty { win: 101, property: 110, kind: PropertyKind::Atom, value: 113 }));
    assert!(reqs.iter().any(|r| matches!(r, Request::MoveResize { win: 101, x: 0, y: 0, width: 1920, height: 1080 })));
    assert_eq!(client(&app, 100).w, 950);
    let mut reqs = Vec::new();
    client_message(&mut app, 101, 110, [0, 113, 0, 0, 0], &mut reqs);
    assert!(!client(&app, 101).fullscreen);
    assert!(matches!(reqs[0], Request::ClearProperty { win: 101, property: 110, kind: PropertyKind::Atom }));
}

#[test]
fn desktop_message_switches_workspace() {
    let mut app = start(vec![screen(0, 0, 1920), screen(1, 1920, 1280)], vec![]);
    let mut reqs = Vec::new();
    client_message(&mut app, ROOT, 119, [14, 0, 0, 0, 0], &mut reqs);
    assert_eq!(app.runtime.current_screen, 1);
    assert_eq!(app.runtime.current_workspace, 4);
}

#[test]
fn floating_configure_request_is_centred() {
    let mut app = start(vec![screen(0, 0, 1920)], vec![]);
    manage(&mut app, 100);
    let mut reqs = Vec::new();
    toggle_float(&mut app, &mut reqs);
    let mut reqs = Vec::new();
    let cr = ConfigureRequest { value_mask: CW_WIDTH | CW_X, x: 5, y: 5, width: 800, height: 0, border_width: 0, above: 0, detail: 0 };
    configure_request(&mut app, 100, cr, &mut reqs);
    let c = client(&app, 100);
    assert_eq!((c.x, c.w), (560, 800));
    assert!(matches!(reqs[0], Request::MoveResize { win: 100, x: 560, width: 800, .. }));
    let mut reqs = Vec::new();
    configure_request(&mut app, 999, cr, &mut reqs);
    assert!(matches!(reqs[0], Request::Configure { win: 999, value_mask: 5, x: 5, width: 800, .. }));
}

#[test]
fn dragging_moves_floating_window() {
    let mut app = start(vec![screen(0, 0, 1920)], vec![]);
    manage(&mut app, 100);
    let mut reqs = Vec::new();
    toggle_float(&mut app, &mut reqs);
    let (x0, y0) = (client(&app, 100).x, client(&app, 100).y);
    button_press(&mut app, 100, 1, 500, 500, 10, 10, &mut reqs);
    assert_eq!(app.runtime.mouse_state.win, 100);
    let mut reqs = Vec::new();
    motion_notify(&mut app, 100, 530, 490, &mut reqs);
    assert_eq!((client(&app, 100).x, client(&app, 100).y), (x0 + 30, y0 - 10));
    assert_eq!(app.runtime.mouse_state.pos, (530, 490));
    assert!(matches!(reqs[0], Request::MoveResize { win: 100, .. }));
    button_release(&mut app);
    assert_eq!(app.runtime.mouse_state.win, 0);
}

#[test]
fn resizing_respects_minimum() {
    let mut app = start(vec![screen(0, 0, 1920)], vec![]);
    manage(&mut app, 100);
    let mut reqs = Vec::new();
    toggle_float(&mut app, &mut reqs);
    let w0 = client(&app, 100).w;
    button_press(&mut app, 100, 3, 500, 500, 10, 10, &mut reqs);
    assert!(matches!(reqs.last().unwrap(), Request::WarpPointer { win: 100, .. }));
    let (px, py) = app.runtime.mouse_state.pos;
    let mut reqs = Vec::new();
    motion_notify(&mut app, 100, px as i32 - 20, py as i32, &mut reqs);
    assert_eq!(client(&app, 100).w, w0 - 20);
    let mut reqs = Vec::new();
    motion_notify(&mut app, 100, -5000, py as i32, &mut reqs);
    assert_eq!(client(&app, 100).w, w0 - 20);
}

#[test]
fn entering_root_of_empty_workspace_focuses_root() {
    let mut app = start(vec![screen(0, 0, 1920)], vec![]);
    let mut reqs = Vec::new();
    enter_notify(&mut app, ROOT, &mut reqs);
    assert!(matches!(reqs[0], Request::Focus { win: ROOT }));
    manage(&mut app, 100);
    manage(&mut app, 101);
    let mut reqs = Vec::new();
    enter_notify(&mut app, 100, &mut reqs);
    assert_eq!(app.runtime.current_client, Some(0));
    assert!(matches!(reqs[0], Request::SetBorderColor { win: 101, .. }));
}

#[test]
fn synthetic_unmap_only_withdraws() {
    let mut app = start(vec![screen(0, 0, 1920)], vec![]);
    manage(&mut app, 100);
    let mut reqs = Vec::new();
    unmap_notify(&mut app, 100, true, &mut reqs);
    assert_eq!(count(&app), 1);
    assert!(matches!(reqs[0], Request::SetWmState { win: 100, state: 0 }));
    unmap_notify(&mut app, 100, false, &mut reqs);
    assert_eq!(count(&app), 0);
}
