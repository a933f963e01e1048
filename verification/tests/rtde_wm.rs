use rwm::manage::WindowAttributes;
use rwm::request::Request;
use rwm::rtde::{
    rtde_configure_notify, rtde_find_window_indexes, rtde_manage_client, rtde_setup, BarVariant, RtdeApp, RtdeConfig,
    RtdeWindowFacts, VisualPreferences,
};
use rwm::screens::ScreenInfo;
use rwm::structs::{ActionResult, Atoms, Color, KeyAction};

fn atoms() -> Atoms {
    Atoms {
        utf8string: 2001,
        wm_protocols: 2002,
        wm_delete: 2003,
        wm_state: 2004,
        wm_take_focus: 2005,
        wm_name: 2006,
        net_active_window: 2007,
        net_supported: 2008,
        net_wm_name: 2009,
        net_wm_state: 2010,
        net_wm_state_demands_attention: 2011,
        net_wm_check: 2012,
        net_wm_fullscreen: 2013,
        net_wm_window_type: 2014,
        net_wm_window_type_dialog: 2015,
        net_wm_window_type_dock: 2016,
        net_client_list: 2017,
        net_number_of_desktops: 2018,
        net_current_desktop: 2019,
        net_wm_desktop: 2020,
        net_desktop_names: 2021,
        net_desktop_viewport: 2022,
        net_wm_pid: 2023,
    }
}

fn config(bar: BarVariant) -> RtdeConfig {
    RtdeConfig {
        visuals: VisualPreferences {
            gap_width: 4,
            border_size: 2,
            normal_border_color: Color { alpha: 255, red: 64, green: 64, blue: 128 },
            active_border_color: Color { alpha: 255, red: 126, green: 36, blue: 135 },
        },
        key_actions: vec![KeyAction { keysym: 0xff0d, modifier: 8, result: ActionResult::Quit }],
        bar,
    }
}

fn two_screens() -> Vec<ScreenInfo> {
    vec![
        ScreenInfo { screen_number: 0, x_org: 0, y_org: 0, width: 1920, height: 1080 },
        ScreenInfo { screen_number: 1, x_org: 1920, y_org: 0, width: 1920, height: 1080 },
    ]
}

fn started(bar: BarVariant) -> RtdeApp {
    let mut reqs = Vec::new();
    rtde_setup(config(bar), 1, 2, atoms(), &two_screens(), &vec![70, 71], &mut reqs)
}

fn window(y: i16) -> RtdeWindowFacts {
    RtdeWindowFacts {
        attributes: Some(WindowAttributes { x: 10, y, width: 300, height: 200, override_redirect: false }),
        window_type: 0,
        state: 0,
        transient_for: 0,
        hints: None,
        name: Some("term".to_string()),
    }
}

#[test]
fn rtde_setup_publishes_twenty_desktops() {
    let mut reqs = Vec::new();
    let app = rtde_setup(config(BarVariant::Bar(32)), 1, 2, atoms(), &two_screens(), &vec![70, 71], &mut reqs);
    assert_eq!(app.screens.len(), 2);
    assert_eq!(app.screens[1].x, 1920);
    assert_eq!(app.screens[0].workspaces.len(), 10);
    assert_eq!(app.screens[1].workspaces[9].number, 9);
    assert_eq!(app.screens[1].status_bar.unwrap().win, 71);
    assert_eq!(app.screens[1].status_bar.unwrap().height, 32);
    assert_eq!(reqs.len(), 10);
    assert!(matches!(reqs[0], Request::GrabKey { keysym: 0xff0d, modifiers: 8 }));
    assert!(matches!(reqs[4], Request::SetProperty { win: 1, property: 2018, value: 20, .. }));
    match &reqs[5] {
        Request::SetText { bytes, .. } => {
            assert_eq!(bytes.len(), 42);
            assert_eq!(&bytes[17..21], &[0u8, 49, 48, 0]);
        },
        _ => panic!("desktop names expected"),
    }
    match &reqs[6] {
        Request::SetSignedList { values, .. } => {
            assert_eq!(values.len(), 40);
            assert_eq!(values[18], 0);
            assert_eq!(values[20], 1920);
            assert_eq!(values[21], 0);
        },
        _ => panic!("viewports expected"),
    }
    match &reqs[7] {
        Request::SetPropertyList { values, .. } => assert_eq!(values.len(), 13),
        _ => panic!("supported atoms expected"),
    }
}

#[test]
fn rtde_setup_without_bar() {
    let app = started(BarVariant::NoBar);
    assert!(app.screens[0].status_bar.is_none());
}

#[test]
fn rtde_manage_puts_client_below_bar_and_focuses_it() {
    let mut app = started(BarVariant::Bar(32));
    let mut reqs = Vec::new();
    assert!(rtde_manage_client(&mut app, 500, window(5), &mut reqs));
    let c = &app.screens[0].workspaces[0].clients[0];
    assert_eq!(c.y, 37);
    assert_eq!(c.window_name, "term");
    assert_eq!(app.current_client, Some(0));
    assert_eq!(reqs.len(), 8);
    assert!(matches!(reqs[2], Request::SetProperty { win: 500, property: 2020, value: 0, .. }));
    assert!(matches!(reqs[7], Request::MapWindow { win: 500 }));
    let mut reqs = Vec::new();
    let mut second = window(0);
    second.name = None;
    assert!(rtde_manage_client(&mut app, 501, second, &mut reqs));
    assert!(matches!(reqs[1], Request::SetBorderColor { win: 500, .. }));
    assert_eq!(app.screens[0].workspaces[0].clients[1].window_name, "WHAT THE FUCK");
    assert_eq!(rtde_find_window_indexes(&app, 501), Some((0, 0, 1)));
    assert_eq!(rtde_find_window_indexes(&app, 502), None);
}

#[test]
fn rtde_manage_skips_override_redirect_and_maps_docks() {
    let mut app = started(BarVariant::NoBar);
    let mut reqs = Vec::new();
    let mut f = window(0);
    f.attributes = Some(WindowAttributes { x: 0, y: 0, width: 1, height: 1, override_redirect: true });
    assert!(!rtde_manage_client(&mut app, 600, f, &mut reqs));
    assert!(reqs.is_empty());
    let mut dock = window(0);
    dock.window_type = 2016;
    assert!(!rtde_manage_client(&mut app, 601, dock, &mut reqs));
    assert_eq!(reqs.len(), 2);
    assert!(app.screens[0].workspaces[0].clients.is_empty());
}

#[test]
fn rtde_fixed_size_window_floats() {
    let mut app = started(BarVariant::NoBar);
    let mut reqs = Vec::new();
    let mut f = window(0);
    f.hints = Some(rwm::helper::SizeHints { flags: 48, min_width: 300, min_height: 200, max_width: 300, max_height: 200 });
    rtde_manage_client(&mut app, 700, f, &mut reqs);
    assert!(app.screens[0].workspaces[0].clients[0].fixed);
    assert!(app.screens[0].workspaces[0].clients[0].floating);
}

#[test]
fn rtde_lost_screen_hands_clients_to_first() {
    let mut app = started(BarVariant::Bar(25));
    app.current_screen = 1;
    let mut reqs = Vec::new();
    rtde_manage_client(&mut app, 800, window(0), &mut reqs);
    app.current_screen = 0;
    app.current_client = None;
    let one = vec![ScreenInfo { screen_number: 0, x_org: 0, y_org: 0, width: 1280, height: 720 }];
    assert!(rtde_configure_notify(&mut app, 1, &one, &vec![90]));
    assert_eq!(app.screens.len(), 1);
    assert_eq!(app.screens[0].width, 1280);
    assert_eq!(app.screens[0].status_bar.unwrap().win, 90);
    assert_eq!(app.screens[0].workspaces[0].clients[0].window_id, 800);
}

#[test]
fn rtde_new_screen_gets_workspaces() {
    let mut app = started(BarVariant::NoBar);
    let mut three = two_screens();
    three.push(ScreenInfo { screen_number: 2, x_org: 3840, y_org: 0, width: 800, height: 600 });
    assert!(rtde_configure_notify(&mut app, 1, &three, &vec![0, 0, 0]));
    assert_eq!(app.screens.len(), 3);
    assert_eq!(app.screens[2].workspaces.len(), 10);
    assert_eq!(app.screens[2].x, 3840);
    assert!(!rtde_configure_notify(&mut app, 5, &vec![], &vec![]));
    assert_eq!(app.screens.len(), 3);
}
