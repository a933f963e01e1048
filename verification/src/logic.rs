//! Main window manager logic run in response to events and shortcuts.

use vstd::prelude::*;

use crate::config::NUMBER_OF_DESKTOPS;
use crate::helper::{
    active_window_reqs, arrange_workspace, arranged, current_client_id, current_ok, find_window_indexes,
    get_current_client_id, hide_workspace, lemma_layout_lookups, lemma_layout_ops, lemma_tracked_at_wf,
    managed, map_ws_clients, show_reqs, show_workspace, shown, hidden, trackers_updated, update_active_window,
    update_trackers, window_pos, first_pos, removed, pushed, show_spec, hide_spec, remove_client, push_client, lemma_removed_wf, lemma_pushed_wf, update_client_desktop, lemma_window_pos_spec, lemma_wf_current_ok, holds, hide_client_req, decoration_offset,
};
use crate::request::{PropertyKind, Request, BUTTON_MOVE, BUTTON_RESIZE};
use crate::structs::{
    config_wf, lemma_client_changed, lemma_layout_only, lemma_layout_refl, lemma_layout_trans, lemma_runtime_view,
    lemma_with_ws_wf, lemma_ws_changed, lemma_wf_from_parts, lemma_wf_parts, layout_only, only_client_changed, screen_wf, screen_shape_wf, workspace_wf, AppV,
    Application, AutostartRulePID, Client, PlacementRule, RuntimeV, ScreenSwitching, WorkspaceV,
};
use crate::utils::{argb_to_int, pixel};
use vstd::wrapping::i32_specs;

verus! {

// ---------------------------------------------------------------------------
// Trackers after a client leaves
// ---------------------------------------------------------------------------

/// A workspace's tracker after clients left: `None` when no client is left,
/// else kept when still in range and moved to the last client otherwise.
pub open spec fn shifted_cc(ws: WorkspaceV) -> Option<usize> {
    if ws.clients.len() == 0 {
        None
    } else {
        match ws.current_client {
            Some(cc) => Some(if cc < ws.clients.len() { cc } else { (ws.clients.len() - 1) as usize }),
            None => None,
        }
    }
}

/// The workspace `shift_current_client` works on: the given screen and
/// workspace, each defaulting to the current one.
pub open spec fn shift_target(a: AppV, screen: Option<usize>, workspace: Option<usize>) -> (int, int) {
    (
        match screen {
            Some(s) => s as int,
            None => a.runtime.current_screen as int,
        },
        match workspace {
            Some(w) => w as int,
            None => a.runtime.current_workspace as int,
        },
    )
}

/// State and requests of `shift_current_client`.
pub open spec fn shift_spec(a: AppV, screen: Option<usize>, workspace: Option<usize>) -> (AppV, Seq<Request>) {
    let (s, w) = shift_target(a, screen, workspace);
    let rt = a.runtime;
    let ncc = shifted_cc(rt.ws(s, w));
    let rt1 = rt.with_ws(s, w, WorkspaceV { current_client: ncc, ..rt.ws(s, w) });
    if w == rt.current_workspace {
        let a2 = AppV { runtime: RuntimeV { current_client: ncc, ..rt1 }, ..a };
        let focus = match ncc {
            Some(i) => seq![Request::Focus { win: rt.ws(s, w).clients[i as int].window_id }],
            None => Seq::empty(),
        };
        (a2, focus + active_window_reqs(a2))
    } else {
        (AppV { runtime: rt1, ..a }, Seq::empty())
    }
}

/// `shift_current_client` can run: the target workspace exists, and when
/// the global tracker follows it, it lands inside the current workspace.
pub open spec fn shift_ok(a: AppV, screen: Option<usize>, workspace: Option<usize>) -> bool {
    let (s, w) = shift_target(a, screen, workspace);
    &&& a.runtime.valid_ws(s, w)
    &&& current_ok(a.runtime)
    &&& (w == a.runtime.current_workspace ==> shift_spec(a, screen, workspace).0.runtime.current_client_ok())
}

/// Fix the trackers of a workspace after clients left it: its own tracker
/// is clamped to its clients; when it is the current workspace index, the
/// global tracker follows, the client it names gets the input focus, and the
/// active window is published.
pub fn shift_current_client(app: &mut Application, screen: Option<usize>, workspace: Option<usize>, reqs: &mut Vec<Request>)
    requires
        shift_ok(old(app)@, screen, workspace),
    ensures
        final(app)@ == shift_spec(old(app)@, screen, workspace).0,
        final(reqs)@ == old(reqs)@ + shift_spec(old(app)@, screen, workspace).1,
        old(app)@.wf() ==> final(app)@.wf(),
        old(app)@.shape_wf() ==> final(app)@.shape_wf(),
        old(app)@.shape_wf() && old(app)@.runtime.trackers_ok_except(
            shift_target(old(app)@, screen, workspace).0,
            shift_target(old(app)@, screen, workspace).1,
        ) ==> final(app)@.wf(),
        old(app)@.shape_wf() ==> forall|x: int, y: int| #[trigger] old(app)@.runtime.trackers_ok_except(x, y)
            ==> final(app)@.runtime.trackers_ok_except(x, y),
        final(app)@.runtime.client_count() == old(app)@.runtime.client_count(),
{
    let ghost a = app@;
    let s = match screen {
        Some(index) => index,
        None => app.runtime.current_screen,
    };
    let w = match workspace {
        Some(index) => index,
        None => app.runtime.current_workspace,
    };
    proof {
        lemma_runtime_view(&app.runtime, s as int, w as int);
    }
    let len = app.runtime.screens[s].workspaces[w].clients.len();
    let ncc = if len == 0 {
        None
    } else {
        match app.runtime.screens[s].workspaces[w].current_client {
            Some(cc) => if cc < len {
                Some(cc)
            } else {
                Some(len - 1)
            },
            None => None,
        }
    };
    let ghost before_rt = app.runtime;
    app.runtime.screens[s].workspaces[w].current_client = ncc;
    proof {
        lemma_ws_changed(before_rt, app.runtime, s as int, w as int);
        assert(app@.runtime.ws(s as int, w as int) =~= WorkspaceV { current_client: ncc, ..a.runtime.ws(s as int, w as int) });
        let ws2 = WorkspaceV { current_client: ncc, ..a.runtime.ws(s as int, w as int) };
        crate::structs::lemma_count_with_ws(a.runtime, s as int, w as int, ws2);
        if a.wf() {
            lemma_wf_parts(a.runtime, s as int, w as int);
        }
        if a.shape_wf() {
            assert(screen_shape_wf(a.runtime.screens[s as int], s as int));
            assert(crate::structs::ws_shape_wf(a.runtime.ws(s as int, w as int)));
            crate::structs::lemma_with_ws_shape(a.runtime, s as int, w as int, ws2, s as int, w as int);
            if a.runtime.trackers_ok_except(s as int, w as int) {
                lemma_wf_from_parts(a.runtime.with_ws(s as int, w as int, ws2), s as int, w as int);
            }
            assert(workspace_wf(ws2));
            assert forall|x: int, y: int| #[trigger] a.runtime.trackers_ok_except(x, y)
                implies a.runtime.with_ws(s as int, w as int, ws2).trackers_ok_except(x, y) by {
                crate::structs::lemma_with_ws_shape(a.runtime, s as int, w as int, ws2, x, y);
            }
        }
    }
    if w == app.runtime.current_workspace {
        app.runtime.current_client = ncc;
        if let Some(index) = ncc {
            proof {
                lemma_runtime_view(&app.runtime, s as int, w as int);
            }
            let win = app.runtime.screens[s].workspaces[w].clients[index].window_id;
            reqs.push(Request::Focus { win });
        }
        proof {
            assert(app@ =~~= shift_spec(a, screen, workspace).0);
        }
        update_active_window(app, reqs);
        proof {
            let sp = shift_spec(a, screen, workspace);
            assert(reqs@ =~= old(reqs)@ + sp.1);
        }
    } else {
        proof {
            assert(app@ =~~= shift_spec(a, screen, workspace).0);
        }
    }
}

// ---------------------------------------------------------------------------
// Focus
// ---------------------------------------------------------------------------

/// State after the urgency flag of window `win` is set to `urgent` (when
/// the window is managed).
pub open spec fn urgent_set(a: AppV, win: u64, urgent: bool) -> AppV {
    match window_pos(a.runtime, win) {
        Some((s, w, c)) => AppV {
            runtime: a.runtime.with_client(s as int, w as int, c as int, Client { urgent, ..a.runtime.client(s as int, w as int, c as int) }),
            ..a
        },
        None => a,
    }
}

/// Mark a managed window as urgent or not.
pub fn set_urgent(app: &mut Application, win: u64, urgent: bool)
    ensures
        final(app)@ == urgent_set(old(app)@, win, urgent),
        layout_only(old(app)@, final(app)@),
{
    let ghost a = app@;
    proof {
        lemma_layout_refl(a);
    }
    if let Some((s, w, c)) = find_window_indexes(app, win) {
        proof {
            lemma_runtime_view(&app.runtime, s as int, w as int);
        }
        let ghost before_rt = app.runtime;
        app.runtime.screens[s].workspaces[w].clients[c].urgent = urgent;
        proof {
            lemma_client_changed(before_rt, app.runtime, s as int, w as int, c as int);
            assert(app@.runtime.client(s as int, w as int, c as int) == Client { urgent, ..a.runtime.client(s as int, w as int, c as int) });
            assert(app@ =~~= urgent_set(a, win, urgent));
            let cs = a.runtime.ws(s as int, w as int).clients;
            crate::structs::lemma_clients_layout(a, s as int, w as int, cs.update(c as int, Client { urgent, ..cs[c as int] }));
            assert(app@ =~~= AppV { runtime: a.runtime.with_ws(s as int, w as int, WorkspaceV { clients: cs.update(c as int, Client { urgent, ..cs[c as int] }), ..a.runtime.ws(s as int, w as int) }), ..a });
        }
    }
}

/// Requests of `unfocus`.
pub open spec fn unfocus_reqs(a: AppV, win: u64) -> Seq<Request> {
    seq![
        Request::SetBorderColor { win, pixel: pixel(a.config.normal_border_color) as u64 },
        Request::UngrabButtons { win },
    ]
}

/// Give a window the normal border and release its button grabs.
pub fn unfocus(app: &Application, win: u64, reqs: &mut Vec<Request>)
    ensures
        final(reqs)@ == old(reqs)@ + unfocus_reqs(app@, win),
{
    reqs.push(Request::SetBorderColor { win, pixel: argb_to_int(app.config.normal_border_color) });
    reqs.push(Request::UngrabButtons { win });
    assert(reqs@ =~= old(reqs)@ + unfocus_reqs(app@, win));
}

/// EWMH number of the current desktop: screen times ten plus workspace.
pub open spec fn current_desktop(rt: RuntimeV) -> u64 {
    (rt.current_workspace + rt.current_screen * 10) as u64
}

/// The request that publishes the current desktop.
pub open spec fn current_desktop_req(a: AppV, desk: u64) -> Request {
    Request::SetProperty { win: a.core.root_win, property: a.atoms.net_current_desktop, kind: PropertyKind::Cardinal, value: desk }
}

/// State and requests of `focus`.
pub open spec fn focus_spec(a: AppV, win: u64) -> (AppV, Seq<Request>) {
    let a1 = urgent_set(a, win, false);
    let a2 = trackers_updated(a1, win);
    (
        a2,
        seq![Request::SetBorderColor { win, pixel: pixel(a.config.active_border_color) as u64 }]
            + active_window_reqs(a2)
            + seq![
            Request::Focus { win },
            Request::GrabButton { win, button: BUTTON_MOVE },
            Request::GrabButton { win, button: BUTTON_RESIZE },
            current_desktop_req(a2, current_desktop(a2.runtime)),
        ],
    )
}

/// `focus` can run: the trackers are valid and, when the window is not
/// managed (so the trackers stay), the global tracker is valid too.
pub open spec fn focus_ok(a: AppV, win: u64) -> bool {
    &&& a.wf()
    &&& (managed(a.runtime, win) || a.runtime.current_client_ok())
}

/// Focus a window: clear its urgency, give it the active border, point the
/// trackers at it, publish it as active window, give it the input focus,
/// grab the move and resize buttons on it and publish the current desktop.
pub fn focus(app: &mut Application, win: u64, reqs: &mut Vec<Request>)
    requires
        focus_ok(old(app)@, win),
    ensures
        final(app)@.config == old(app)@.config,
        final(app)@ == focus_spec(old(app)@, win).0,
        final(reqs)@ == old(reqs)@ + focus_spec(old(app)@, win).1,
        final(app)@.wf(),
        final(app)@.runtime.current_client_ok(),
        final(app)@.runtime.client_count() == old(app)@.runtime.client_count(),
{
    let ghost a = app@;
    set_urgent(app, win, false);
    let ghost a1 = app@;
    proof {
        lemma_layout_only(a, a1);
        lemma_layout_lookups(a, a1, win);
    }
    reqs.push(Request::SetBorderColor { win, pixel: argb_to_int(app.config.active_border_color) });
    update_trackers(app, win);
    proof {
        lemma_window_pos_spec(a1.runtime, win);
        match window_pos(a1.runtime, win) {
            Some((s, w, c)) => {
                lemma_tracked_at_wf(a1.runtime, s as int, w as int, c as int);
            },
            None => {},
        }
        lemma_wf_current_ok(app@.runtime);
    }
    update_active_window(app, reqs);
    reqs.push(Request::Focus { win });
    reqs.push(Request::GrabButton { win, button: BUTTON_MOVE });
    reqs.push(Request::GrabButton { win, button: BUTTON_RESIZE });
    let w = app.runtime.current_workspace + app.runtime.current_screen * 10;
    reqs.push(Request::SetProperty {
        win: app.core.root_win,
        property: app.atoms.net_current_desktop,
        kind: PropertyKind::Cardinal,
        value: w as u64,
    });
    assert(reqs@ =~= old(reqs)@ + focus_spec(a, win).1);
}

// ---------------------------------------------------------------------------
// Arranging
// ---------------------------------------------------------------------------

/// State after the current workspace of each of the first `n` screens is tiled.
pub open spec fn arranged_upto(a: AppV, n: int) -> AppV
    decreases n,
{
    if n <= 0 {
        a
    } else {
        let b = arranged_upto(a, n - 1);
        arranged(b, n - 1, b.runtime.screens[n - 1].current_workspace as int)
    }
}

/// State after `arrange_current`.
pub open spec fn arranged_current(a: AppV) -> AppV {
    arranged_upto(a, a.runtime.screens.len() as int)
}

/// Tiling the current workspaces only changes layout.
pub proof fn lemma_arranged_upto(a: AppV, n: int)
    requires
        a.shape_wf(),
        0 <= n <= a.runtime.screens.len(),
    ensures
        layout_only(a, arranged_upto(a, n)),
        arranged_upto(a, n).shape_wf(),
    decreases n,
{
    if n <= 0 {
        lemma_layout_refl(a);
    } else {
        lemma_arranged_upto(a, n - 1);
        let b = arranged_upto(a, n - 1);
        assert(screen_shape_wf(b.runtime.screens[n - 1], n - 1));
        lemma_layout_ops(b, n - 1, b.runtime.screens[n - 1].current_workspace as int);
        lemma_layout_only(b, arranged(b, n - 1, b.runtime.screens[n - 1].current_workspace as int));
        lemma_layout_trans(a, b, arranged(b, n - 1, b.runtime.screens[n - 1].current_workspace as int));
    }
}

/// Tile the current workspace of every screen.
pub fn arrange_current(app: &mut Application)
    requires
        old(app)@.shape_wf(),
    ensures
        final(app)@ == arranged_current(old(app)@),
        final(app)@.shape_wf(),
        old(app)@.wf() ==> final(app)@.wf(),
        layout_only(old(app)@, final(app)@),
{
    let ghost a = app@;
    let n = app.runtime.screens.len();
    let mut i: usize = 0;
    while i < n
        invariant
            a.shape_wf(),
            n == a.runtime.screens.len(),
            i <= n,
            app@ == arranged_upto(a, i as int),
        decreases n - i,
    {
        proof {
            lemma_arranged_upto(a, i as int);
            lemma_layout_only(a, app@);
            assert(screen_shape_wf(app@.runtime.screens[i as int], i as int));
            lemma_runtime_view(&app.runtime, i as int, 0);
        }
        let cw = app.runtime.screens[i].current_workspace;
        arrange_workspace(app, i, cw);
        i = i + 1;
    }
    proof {
        lemma_arranged_upto(a, n as int);
        lemma_layout_only(a, app@);
    }
}

/// State after every workspace of the first `n` screens, and the first `m`
/// workspaces of screen `n`, are tiled.
pub open spec fn arranged_all_upto(a: AppV, n: int, m: int) -> AppV
    decreases n, m,
{
    if m > 0 {
        let b = arranged_all_upto(a, n, m - 1);
        arranged(b, n, m - 1)
    } else if n > 0 {
        arranged_all_upto(a, n - 1, NUMBER_OF_DESKTOPS as int)
    } else {
        a
    }
}

/// Tiling every workspace only changes layout.
pub proof fn lemma_arranged_all_upto(a: AppV, n: int, m: int)
    requires
        a.shape_wf(),
        0 <= n <= a.runtime.screens.len(),
        0 <= m <= NUMBER_OF_DESKTOPS,
        m > 0 ==> n < a.runtime.screens.len(),
    ensures
        layout_only(a, arranged_all_upto(a, n, m)),
        arranged_all_upto(a, n, m).shape_wf(),
    decreases n, m,
{
    if m > 0 {
        lemma_arranged_all_upto(a, n, m - 1);
        let b = arranged_all_upto(a, n, m - 1);
        lemma_layout_only(a, b);
        assert(screen_shape_wf(b.runtime.screens[n], n));
        lemma_layout_ops(b, n, m - 1);
        lemma_layout_only(b, arranged(b, n, m - 1));
        lemma_layout_trans(a, b, arranged(b, n, m - 1));
    } else if n > 0 {
        lemma_arranged_all_upto(a, n - 1, NUMBER_OF_DESKTOPS as int);
    } else {
        lemma_layout_refl(a);
    }
}

/// State after `arrange_all`.
pub open spec fn arranged_all(a: AppV) -> AppV {
    arranged_all_upto(a, a.runtime.screens.len() as int, 0)
}

/// Tile every workspace of every screen.
pub fn arrange_all(app: &mut Application)
    requires
        old(app)@.shape_wf(),
    ensures
        final(app)@ == arranged_all(old(app)@),
        final(app)@.shape_wf(),
        old(app)@.wf() ==> final(app)@.wf(),
        layout_only(old(app)@, final(app)@),
{
    let ghost a = app@;
    let n = app.runtime.screens.len();
    let mut i: usize = 0;
    while i < n
        invariant
            a.shape_wf(),
            n == a.runtime.screens.len(),
            i <= n,
            app@ == arranged_all_upto(a, i as int, 0),
        decreases n - i,
    {
        proof {
            lemma_arranged_all_upto(a, i as int, 0);
            lemma_layout_only(a, app@);
            assert(screen_shape_wf(app@.runtime.screens[i as int], i as int));
            lemma_runtime_view(&app.runtime, i as int, 0);
        }
        let m = app.runtime.screens[i].workspaces.len();
        let mut j: usize = 0;
        while j < m
            invariant
                a.shape_wf(),
                n == a.runtime.screens.len(),
                i < n,
                m == NUMBER_OF_DESKTOPS,
                j <= m,
                app@ == arranged_all_upto(a, i as int, j as int),
            decreases m - j,
        {
            proof {
                lemma_arranged_all_upto(a, i as int, j as int);
                lemma_layout_only(a, app@);
                assert(screen_shape_wf(app@.runtime.screens[i as int], i as int));
            }
            arrange_workspace(app, i, j);
            j = j + 1;
        }
        proof {
            assert(arranged_all_upto(a, i + 1, 0) == arranged_all_upto(a, i as int, NUMBER_OF_DESKTOPS as int));
        }
        i = i + 1;
    }
    proof {
        lemma_arranged_all_upto(a, n as int, 0);
        lemma_layout_only(a, app@);
    }
}


// ---------------------------------------------------------------------------
// Killing and screens
// ---------------------------------------------------------------------------

/// Requests of `kill_client`: close the focused client, if any.
pub open spec fn kill_reqs(a: AppV) -> Seq<Request> {
    match a.runtime.current_client {
        Some(i) => seq![Request::CloseWindow { win: a.runtime.cur_ws().clients[i as int].window_id }],
        None => Seq::empty(),
    }
}

/// Close the focused client: the `CloseWindow` request asks it to close
/// through `WM_DELETE_WINDOW` when it lists that protocol (`close_window`),
/// and kills it when it does not or when that message could not be sent
/// (`delete_sent`).
pub fn kill_client(app: &Application, reqs: &mut Vec<Request>)
    requires
        current_ok(app@.runtime),
        app@.runtime.current_client_ok(),
    ensures
        final(reqs)@ == old(reqs)@ + kill_reqs(app@),
{
    if let Some(index) = app.runtime.current_client {
        proof {
            lemma_runtime_view(&app.runtime, app.runtime.current_screen as int, app.runtime.current_workspace as int);
        }
        let id = app.runtime.screens[app.runtime.current_screen].workspaces[app.runtime.current_workspace].clients[index].window_id;
        reqs.push(Request::CloseWindow { win: id });
    }
    assert(reqs@ =~= old(reqs)@ + kill_reqs(app@));
}

/// Index of the screen after or before screen `cs` of `n`, cyclically.
pub open spec fn switched_screen(cs: int, n: int, d: ScreenSwitching) -> int {
    match d {
        ScreenSwitching::Next => (cs + 1) % n,
        ScreenSwitching::Previous => (cs + n - 1) % n,
    }
}

/// Trackers moved to screen `n` and its current workspace and client.
pub open spec fn screen_focused(a: AppV, n: int) -> AppV {
    let sc = a.runtime.screens[n];
    AppV {
        runtime: RuntimeV {
            current_screen: n as usize,
            current_workspace: sc.current_workspace,
            current_client: sc.workspaces[sc.current_workspace as int].current_client,
            ..a.runtime
        },
        ..a
    }
}

/// Border request for the focused client (if the trackers name one) in the given colour.
pub open spec fn border_current_reqs(rt: RuntimeV, pixel_value: u64) -> Seq<Request> {
    match current_client_id(rt) {
        Some(cw) => seq![Request::SetBorderColor { win: cw, pixel: pixel_value }],
        None => Seq::empty(),
    }
}

/// Input focus request for the client the trackers name, if any.
pub open spec fn focus_current_reqs(rt: RuntimeV) -> Seq<Request> {
    match rt.current_client {
        Some(i) => seq![Request::Focus { win: rt.cur_ws().clients[i as int].window_id }],
        None => Seq::empty(),
    }
}

/// Requests that unfocus the focused client, if any: the normal border
/// (set twice) and its button grabs released.
pub open spec fn unfocus_current_reqs(a: AppV) -> Seq<Request> {
    match current_client_id(a.runtime) {
        Some(cw) => seq![Request::SetBorderColor { win: cw, pixel: pixel(a.config.normal_border_color) as u64 }] + unfocus_reqs(a, cw),
        None => Seq::empty(),
    }
}

/// State and requests of `focus_on_screen_index`.
pub open spec fn focus_on_screen_index_spec(a: AppV, n: int) -> (AppV, Seq<Request>) {
    let a1 = screen_focused(a, n);
    (
        a1,
        unfocus_current_reqs(a) + focus_current_reqs(a1.runtime) + active_window_reqs(a1)
            + border_current_reqs(a1.runtime, pixel(a.config.active_border_color) as u64)
            + seq![current_desktop_req(a1, current_desktop(a1.runtime))],
    )
}

/// Focus screen `n`: unfocus the focused client, move the trackers to the
/// screen's current workspace and client, focus that client, publish the
/// active window, give it the active border and publish the current desktop.
pub fn focus_on_screen_index(app: &mut Application, n: usize, reqs: &mut Vec<Request>)
    requires
        old(app)@.wf(),
        n < old(app)@.runtime.screens.len(),
    ensures
        final(app)@ == focus_on_screen_index_spec(old(app)@, n as int).0,
        final(reqs)@ == old(reqs)@ + focus_on_screen_index_spec(old(app)@, n as int).1,
        final(app)@.wf(),
        final(app)@.runtime.current_client_ok(),
        final(app)@.runtime.client_count() == old(app)@.runtime.client_count(),
{
    let ghost a = app@;
    if let Some(cw) = get_current_client_id(app) {
        reqs.push(Request::SetBorderColor { win: cw, pixel: argb_to_int(app.config.normal_border_color) });
        unfocus(app, cw, reqs);
    }
    proof {
        lemma_runtime_view(&app.runtime, n as int, 0);
        assert(screen_wf(a.runtime.screens[n as int], n as int));
    }
    app.runtime.current_screen = n;
    let cw = app.runtime.screens[n].current_workspace;
    proof {
        lemma_runtime_view(&app.runtime, n as int, cw as int);
        assert(workspace_wf(a.runtime.ws(n as int, cw as int)));
    }
    app.runtime.current_workspace = cw;
    app.runtime.current_client = app.runtime.screens[n].workspaces[cw].current_client;
    proof {
        assert(app@ =~~= screen_focused(a, n as int));
    }
    if let Some(index) = app.runtime.current_client {
        let win = app.runtime.screens[n].workspaces[cw].clients[index].window_id;
        reqs.push(Request::Focus { win });
    }
    update_active_window(app, reqs);
    if let Some(cw) = get_current_client_id(app) {
        reqs.push(Request::SetBorderColor { win: cw, pixel: argb_to_int(app.config.active_border_color) });
    }
    let w: u64 = n as u64 * 10 + app.runtime.screens[n].current_workspace as u64;
    reqs.push(Request::SetProperty {
        win: app.core.root_win,
        property: app.atoms.net_current_desktop,
        kind: PropertyKind::Cardinal,
        value: w,
    });
    proof {
        assert(reqs@ =~= old(reqs)@ + focus_on_screen_index_spec(a, n as int).1);
    }
}

/// State and requests of `focus_on_screen`.
pub open spec fn focus_on_screen_spec(a: AppV, d: ScreenSwitching) -> (AppV, Seq<Request>) {
    focus_on_screen_index_spec(a, switched_screen(a.runtime.current_screen as int, a.runtime.screens.len() as int, d))
}

/// Focus the next or previous screen, cyclically.
pub fn focus_on_screen(app: &mut Application, d: ScreenSwitching, reqs: &mut Vec<Request>)
    requires
        old(app)@.wf(),
    ensures
        final(app)@.config == old(app)@.config,
        final(app)@ == focus_on_screen_spec(old(app)@, d).0,
        final(reqs)@ == old(reqs)@ + focus_on_screen_spec(old(app)@, d).1,
        final(app)@.wf(),
        final(app)@.runtime.current_client_ok(),
{
    let n = app.runtime.screens.len();
    let cs = app.runtime.current_screen;
    let next = match d {
        ScreenSwitching::Next => (cs + 1) % n,
        ScreenSwitching::Previous => (cs + n - 1) % n,
    };
    focus_on_screen_index(app, next, reqs);
}


/// A floating client moved from screen `from` to screen `to`, keeping its
/// position relative to the screen; other clients are unchanged.
pub open spec fn carried(cl: Client, from: crate::structs::ScreenV, to: crate::structs::ScreenV) -> Client {
    if cl.floating {
        Client {
            x: i32_specs::wrapping_add(to.x as i32, i32_specs::wrapping_sub(cl.x, from.x as i32)),
            y: i32_specs::wrapping_add(to.y as i32, i32_specs::wrapping_sub(cl.y, from.y as i32)),
            ..cl
        }
    } else {
        cl
    }
}

/// Requests that give a client the normal border and set its EWMH desktop.
pub open spec fn leave_reqs(a: AppV, win: u64, desk: u64) -> Seq<Request> {
    seq![
        Request::SetBorderColor { win, pixel: pixel(a.config.normal_border_color) as u64 },
        Request::SetProperty { win, property: a.atoms.net_wm_desktop, kind: PropertyKind::Cardinal, value: desk },
    ]
}

/// State and requests of `move_to_screen`.
pub open spec fn move_to_screen_spec(a: AppV, d: ScreenSwitching) -> (AppV, Seq<Request>) {
    match a.runtime.current_client {
        None => (a, Seq::empty()),
        Some(index) => {
            let rt = a.runtime;
            let cs = rt.current_screen as int;
            let cw = rt.current_workspace as int;
            let ns = switched_screen(cs, rt.screens.len() as int, d);
            let client = rt.cur_ws().clients[index as int];
            let desk = (rt.screens[ns].current_workspace + ns * 10) as u64;
            let a1 = removed(a, cs, cw, index as int);
            let moved = carried(client, rt.screens[cs], rt.screens[ns]);
            let (a2, r2) = shift_spec(a1, None, None);
            let a3 = pushed(a2, ns, a2.runtime.screens[ns].current_workspace as int, moved);
            let a4 = arranged_current(a3);
            let (a5, r3) = show_spec(a4, ns, a4.runtime.screens[ns].current_workspace as int);
            let (a6, r4) = show_spec(a5, cs, a5.runtime.screens[cs].current_workspace as int);
            (a6, leave_reqs(a, client.window_id, desk) + r2 + r3 + r4)
        },
    }
}

/// Move the focused client to the current workspace of the next or previous
/// screen: give it the normal border, set its desktop, keep a floating
/// client's position relative to the screen, fix the trackers of the
/// workspace it left, retile, and show both screens' current workspaces.
#[verifier::rlimit(100)]
pub fn move_to_screen(app: &mut Application, d: ScreenSwitching, reqs: &mut Vec<Request>)
    requires
        old(app)@.wf(),
        old(app)@.runtime.current_client_ok(),
    ensures
        final(app)@.config == old(app)@.config,
        final(app)@ == move_to_screen_spec(old(app)@, d).0,
        final(reqs)@ == old(reqs)@ + move_to_screen_spec(old(app)@, d).1,
        final(app)@.wf(),
        final(app)@.runtime.client_count() == old(app)@.runtime.client_count(),
{
    let ghost a = app@;
    if let Some(index) = app.runtime.current_client {
        let n = app.runtime.screens.len();
        let cs = app.runtime.current_screen;
        let cw = app.runtime.current_workspace;
        let ns = match d {
            ScreenSwitching::Next => (cs + 1) % n,
            ScreenSwitching::Previous => (cs + n - 1) % n,
        };
        proof {
            lemma_wf_current_ok(a.runtime);
            lemma_runtime_view(&app.runtime, ns as int, 0);
            lemma_runtime_view(&app.runtime, cs as int, 0);
            assert(screen_wf(a.runtime.screens[ns as int], ns as int));
            assert(screen_wf(a.runtime.screens[cs as int], cs as int));
        }
        let ghost client0 = a.runtime.cur_ws().clients[index as int];
        let mut client = remove_client(app, cs, cw, index);
        let ghost a1 = app@;
        proof {
            lemma_removed_wf(a, cs as int, cw as int, index as int);
        }
        reqs.push(Request::SetBorderColor { win: client.window_id, pixel: argb_to_int(app.config.normal_border_color) });
        proof {
            lemma_runtime_view(&app.runtime, ns as int, 0);
            lemma_runtime_view(&app.runtime, cs as int, 0);
        }
        let new_workspace: usize = app.runtime.screens[ns].current_workspace + ns * 10;
        update_client_desktop(app, client.window_id, new_workspace as u64, reqs);
        if client.floating {
            let rel_x = client.x.wrapping_sub(app.runtime.screens[cs].x as i32);
            let rel_y = client.y.wrapping_sub(app.runtime.screens[cs].y as i32);
            client.x = (app.runtime.screens[ns].x as i32).wrapping_add(rel_x);
            client.y = (app.runtime.screens[ns].y as i32).wrapping_add(rel_y);
        }
        assert(client == carried(client0, a.runtime.screens[cs as int], a.runtime.screens[ns as int]));
        proof {
            let a2 = shift_spec(a1, None, None).0;
            assert(a1.runtime.ws(cs as int, cw as int).clients.len() + 1 == a.runtime.cur_ws().clients.len());
            assert(shift_ok(a1, None, None));
        }
        shift_current_client(app, None, None, reqs);
        let ghost a2 = app@;
        proof {
            lemma_runtime_view(&app.runtime, ns as int, 0);
            assert(screen_wf(a2.runtime.screens[ns as int], ns as int));
        }
        let nw = app.runtime.screens[ns].current_workspace;
        push_client(app, ns, nw, client);
        let ghost a3 = app@;
        proof {
            lemma_pushed_wf(a2, ns as int, nw as int, client, ns as int, nw as int);
            lemma_wf_parts(a2.runtime, ns as int, nw as int);
            assert(workspace_wf(a2.runtime.ws(ns as int, nw as int)));
            lemma_wf_from_parts(a3.runtime, ns as int, nw as int);
        }
        arrange_current(app);
        let ghost a4 = app@;
        proof {
            lemma_layout_only(a3, a4);
            lemma_runtime_view(&app.runtime, ns as int, 0);
            assert(screen_wf(a4.runtime.screens[ns as int], ns as int));
        }
        let nscw = app.runtime.screens[ns].current_workspace;
        show_workspace(app, ns, nscw, reqs);
        let ghost a5 = app@;
        proof {
            lemma_layout_ops(a4, ns as int, nscw as int);
            lemma_layout_only(a4, a5);
            lemma_runtime_view(&app.runtime, cs as int, 0);
            assert(screen_wf(a5.runtime.screens[cs as int], cs as int));
        }
        let cur = app.runtime.current_screen;
        let cscw = app.runtime.screens[cur].current_workspace;
        show_workspace(app, cur, cscw, reqs);
        proof {
            lemma_layout_ops(a5, cs as int, cscw as int);
            lemma_layout_only(a5, app@);
            lemma_layout_trans(a3, a4, a5);
            lemma_layout_trans(a3, a5, app@);
            lemma_layout_only(a3, app@);
            assert(reqs@ =~= old(reqs)@ + move_to_screen_spec(a, d).1);
        }
    }
}


// ---------------------------------------------------------------------------
// Workspaces
// ---------------------------------------------------------------------------

/// The focused client's window is managed.
pub proof fn lemma_current_client_managed(rt: RuntimeV)
    requires
        current_client_id(rt) is Some,
    ensures
        managed(rt, current_client_id(rt)->0),
{
    let i = rt.current_client->0 as int;
    assert(holds(rt, rt.current_screen as int, rt.current_workspace as int, i, current_client_id(rt)->0));
}

/// The request that moves a client out of view by its own size.
pub open spec fn out_of_view_req(cl: Client) -> Request {
    Request::MoveResize {
        win: cl.window_id,
        x: i32_specs::wrapping_sub(0, cl.w as i32),
        y: i32_specs::wrapping_sub(0, cl.h as i32),
        width: cl.w,
        height: cl.h,
    }
}

/// `move_to_workspace` moves something: the target differs from the
/// current workspace and a client is focused.
pub open spec fn moves_to_workspace(a: AppV, n: u64) -> bool {
    (n as usize) != a.runtime.current_workspace && a.runtime.current_client is Some
}

/// State and requests of `move_to_workspace`.
pub open spec fn move_to_workspace_spec(a: AppV, n: u64) -> (AppV, Seq<Request>) {
    if moves_to_workspace(a, n) {
        let rt = a.runtime;
        let index = rt.current_client->0 as int;
        let cs = rt.current_screen as int;
        let cw = rt.current_workspace as int;
        let client = rt.cur_ws().clients[index];
        let desk = ((n as usize) + cs * NUMBER_OF_DESKTOPS) as u64;
        let a1 = removed(a, cs, cw, index);
        let a2 = arranged_current(a1);
        let (a3, r2) = show_spec(a2, cs, cw);
        let moved = Client { visible: !client.visible, ..client };
        let (a4, r4) = shift_spec(a3, None, None);
        let a5 = pushed(a4, cs, (n as usize) as int, moved);
        let a6 = arranged(a5, cs, (n as usize) as int);
        (a6, leave_reqs(a, client.window_id, desk) + r2 + seq![out_of_view_req(client)] + r4)
    } else {
        (a, Seq::empty())
    }
}

/// Move the focused client to workspace `n` of the current screen: give it
/// the normal border, set its desktop, retile and show the current
/// workspace, move the window out of view, flip its visibility, fix the
/// trackers and tile the target workspace.
#[verifier::rlimit(100)]
pub fn move_to_workspace(app: &mut Application, n: u64, reqs: &mut Vec<Request>)
    requires
        old(app)@.wf(),
        old(app)@.runtime.current_client_ok(),
        moves_to_workspace(old(app)@, n) ==> (n as usize) < NUMBER_OF_DESKTOPS,
    ensures
        final(app)@.config == old(app)@.config,
        final(app)@ == move_to_workspace_spec(old(app)@, n).0,
        final(reqs)@ == old(reqs)@ + move_to_workspace_spec(old(app)@, n).1,
        final(app)@.wf(),
        final(app)@.runtime.client_count() == old(app)@.runtime.client_count(),
{
    let ghost a = app@;
    if n as usize != app.runtime.current_workspace {
        if let Some(index) = app.runtime.current_client {
            let cs = app.runtime.current_screen;
            let cw = app.runtime.current_workspace;
            proof {
                lemma_wf_current_ok(a.runtime);
            }
            let mut cc = remove_client(app, cs, cw, index);
            let ghost a1 = app@;
            proof {
                lemma_removed_wf(a, cs as int, cw as int, index as int);
            }
            reqs.push(Request::SetBorderColor { win: cc.window_id, pixel: argb_to_int(app.config.normal_border_color) });
            let cur_workspace: usize = n as usize + cs * NUMBER_OF_DESKTOPS;
            update_client_desktop(app, cc.window_id, cur_workspace as u64, reqs);
            arrange_current(app);
            let ghost a2 = app@;
            proof {
                lemma_layout_only(a1, a2);
                lemma_layout_lookups(a1, a2, 0);
                crate::structs::lemma_layout_trackers(a1, a2, cs as int, cw as int);
                lemma_wf_current_ok(a.runtime);
            }
            show_workspace(app, cs, cw, reqs);
            let ghost a3 = app@;
            proof {
                lemma_layout_ops(a2, cs as int, cw as int);
                lemma_layout_only(a2, a3);
                crate::structs::lemma_layout_trackers(a2, a3, cs as int, cw as int);
                lemma_layout_lookups(a2, a3, 0);
            }
            reqs.push(Request::MoveResize {
                win: cc.window_id,
                x: 0i32.wrapping_sub(cc.w as i32),
                y: 0i32.wrapping_sub(cc.h as i32),
                width: cc.w,
                height: cc.h,
            });
            cc.visible = !cc.visible;
            proof {
                assert(shift_ok(a3, None, None));
            }
            shift_current_client(app, None, None, reqs);
            let ghost a4 = app@;
            proof {
                lemma_runtime_view(&app.runtime, cs as int, n as usize as int);
                assert(screen_wf(a4.runtime.screens[cs as int], cs as int));
            }
            push_client(app, cs, n as usize, cc);
            let ghost a5 = app@;
            proof {
                lemma_pushed_wf(a4, cs as int, n as usize as int, cc, cs as int, n as usize as int);
                lemma_wf_parts(a4.runtime, cs as int, n as usize as int);
                assert(workspace_wf(a4.runtime.ws(cs as int, n as usize as int)));
                lemma_wf_from_parts(a5.runtime, cs as int, n as usize as int);
            }
            arrange_workspace(app, cs, n as usize);
            proof {
                lemma_layout_ops(a5, cs as int, n as usize as int);
                lemma_layout_only(a5, app@);
                assert(reqs@ =~= old(reqs)@ + move_to_workspace_spec(a, n).1);
            }
        }
    }
}


/// The workspace `focus_on_workspace` switches to: with `r` (relative) the
/// number itself, else the last digit of the EWMH desktop number.
pub open spec fn target_workspace(n: u64, r: bool) -> u64 {
    if r { n } else { n % 10 }
}

/// State after the workspace trackers move to workspace `n` of the current screen.
pub open spec fn workspace_switched(a: AppV, n: u64) -> AppV {
    let rt = a.runtime;
    let cs = rt.current_screen as int;
    let rt1 = rt.with_screen(cs, crate::structs::ScreenV { current_workspace: n as usize, ..rt.screens[cs] });
    AppV {
        runtime: RuntimeV {
            current_workspace: n as usize,
            current_client: rt.screens[cs].workspaces[(n as usize) as int].current_client,
            ..rt1
        },
        ..a
    }
}

/// Requests and state of switching the current screen to workspace `m`.
pub open spec fn switch_workspace_spec(a1: AppV, m: u64) -> (AppV, Seq<Request>) {
    if (m as usize) != a1.runtime.current_workspace {
        let pw = a1.runtime.current_workspace as int;
        let a3 = workspace_switched(a1, m);
        let desk = vstd::wrapping::u64_specs::wrapping_add(m, (a1.runtime.current_screen * NUMBER_OF_DESKTOPS) as u64);
        let (a4, r4) = match current_client_id(a3.runtime) {
            Some(cw) => focus_spec(a3, cw),
            None => (a3, Seq::<Request>::empty()),
        };
        let (a5, r5) = show_spec(a4, a4.runtime.current_screen as int, a4.runtime.current_workspace as int);
        let (a6, r6) = hide_spec(a5, a5.runtime.current_screen as int, pw);
        (a6, unfocus_current_reqs(a1) + seq![current_desktop_req(a1, desk)] + r4 + r5 + r6)
    } else {
        (a1, Seq::empty())
    }
}

/// State and requests of `focus_on_workspace`.
pub open spec fn focus_on_workspace_spec(a: AppV, n: u64, r: bool) -> (AppV, Seq<Request>) {
    let (a1, r1) = if !r {
        focus_on_screen_index_spec(a, ((n as usize) / 10) as int)
    } else {
        (a, Seq::<Request>::empty())
    };
    let (a2, r2) = switch_workspace_spec(a1, target_workspace(n, r));
    (a2, r1 + r2)
}

/// `focus_on_workspace` can run: with an EWMH number its screen exists,
/// and the workspace it switches to exists.
pub open spec fn focus_on_workspace_ok(a: AppV, n: u64, r: bool) -> bool {
    &&& a.wf()
    &&& (!r ==> (n as usize) / 10 < a.runtime.screens.len())
    &&& (target_workspace(n, r) as usize) < NUMBER_OF_DESKTOPS
}

/// Unfocus the focused client, move the trackers to workspace `m` of the
/// current screen and publish the current desktop.
fn enter_workspace(app: &mut Application, m: u64, reqs: &mut Vec<Request>)
    requires
        old(app)@.wf(),
        (m as usize) < NUMBER_OF_DESKTOPS,
    ensures
        final(app)@ == workspace_switched(old(app)@, m),
        final(reqs)@ == old(reqs)@ + unfocus_current_reqs(old(app)@) + seq![current_desktop_req(
            old(app)@,
            vstd::wrapping::u64_specs::wrapping_add(m, (old(app)@.runtime.current_screen * NUMBER_OF_DESKTOPS) as u64),
        )],
        final(app)@.wf(),
        final(app)@.runtime.current_client_ok(),
        final(app)@.runtime.client_count() == old(app)@.runtime.client_count(),
{
    let ghost a1 = app@;
    proof {
        lemma_wf_current_ok(a1.runtime);
    }
    if let Some(cw) = get_current_client_id(app) {
        reqs.push(Request::SetBorderColor { win: cw, pixel: argb_to_int(app.config.normal_border_color) });
        unfocus(app, cw, reqs);
    }
    let cs = app.runtime.current_screen;
    proof {
        lemma_runtime_view(&app.runtime, cs as int, m as usize as int);
        assert(screen_wf(a1.runtime.screens[cs as int], cs as int));
        assert(workspace_wf(a1.runtime.ws(cs as int, m as usize as int)));
    }
    app.runtime.current_workspace = m as usize;
    let ghost before_rt = app.runtime;
    app.runtime.screens[cs].current_workspace = m as usize;
    proof {
        crate::structs::lemma_screen_changed(before_rt, app.runtime, cs as int);
    }
    let w = m.wrapping_add((app.runtime.current_screen * NUMBER_OF_DESKTOPS) as u64);
    reqs.push(Request::SetProperty {
        win: app.core.root_win,
        property: app.atoms.net_current_desktop,
        kind: PropertyKind::Cardinal,
        value: w,
    });
    proof {
        lemma_runtime_view(&app.runtime, cs as int, m as usize as int);
    }
    app.runtime.current_client = app.runtime.screens[cs].workspaces[m as usize].current_client;
    let ghost a3 = app@;
    proof {
        assert(a3 =~~= workspace_switched(a1, m));
        assert forall|s2: int| 0 <= s2 < a3.runtime.screens.len() implies #[trigger] screen_wf(a3.runtime.screens[s2], s2) by {
            assert(screen_wf(a1.runtime.screens[s2], s2));
            if s2 == cs {
                crate::structs::lemma_screen_frame(a1.runtime.screens[s2], crate::structs::ScreenV { current_workspace: a1.runtime.screens[s2].current_workspace, ..a3.runtime.screens[s2] }, s2);
            }
        }
        assert forall|s2: int| 0 <= s2 < a3.runtime.screens.len() implies #[trigger] screen_shape_wf(a3.runtime.screens[s2], s2) by {
            assert(screen_wf(a3.runtime.screens[s2], s2));
        }
        crate::structs::lemma_screens_count_update(a1.runtime.screens, cs as int, a3.runtime.screens[cs as int]);
        assert(a3.runtime.screens =~= a1.runtime.screens.update(cs as int, a3.runtime.screens[cs as int]));
        assert(a3.wf());
        assert(a3.runtime.current_client_ok());
        assert(reqs@ =~= old(reqs)@ + unfocus_current_reqs(a1) + seq![current_desktop_req(a1, w)]);
    }
}

/// Switch the current screen to workspace `m`: unfocus, move the trackers,
/// publish the desktop, focus the workspace's client, show the workspace and
/// hide the previous one. Nothing happens when `m` is already current.
fn switch_workspace(app: &mut Application, m: u64, reqs: &mut Vec<Request>)
    requires
        old(app)@.wf(),
        (m as usize) < NUMBER_OF_DESKTOPS,
    ensures
        final(app)@ == switch_workspace_spec(old(app)@, m).0,
        final(reqs)@ == old(reqs)@ + switch_workspace_spec(old(app)@, m).1,
        final(app)@.wf(),
        final(app)@.runtime.client_count() == old(app)@.runtime.client_count(),
{
    let ghost a1 = app@;
    if m as usize != app.runtime.current_workspace {
        let pw = app.runtime.current_workspace;
        enter_workspace(app, m, reqs);
        let ghost a3 = app@;
        let ghost r3 = reqs@;
        if let Some(cw) = get_current_client_id(app) {
            proof {
                lemma_current_client_managed(a3.runtime);
            }
            focus(app, cw, reqs);
        }
        let ghost a4 = app@;
        proof {
            lemma_wf_current_ok(a4.runtime);
        }
        let cur_s = app.runtime.current_screen;
        let cur_w = app.runtime.current_workspace;
        show_workspace(app, cur_s, cur_w, reqs);
        let ghost a5 = app@;
        proof {
            lemma_layout_ops(a4, cur_s as int, cur_w as int);
            lemma_layout_only(a4, a5);
            lemma_runtime_view(&app.runtime, cur_s as int, pw as int);
            assert(screen_wf(a5.runtime.screens[cur_s as int], cur_s as int));
        }
        hide_workspace(app, cur_s, pw, reqs);
        proof {
            lemma_layout_ops(a5, cur_s as int, pw as int);
            lemma_layout_only(a5, app@);
            assert(reqs@ =~= old(reqs)@ + switch_workspace_spec(a1, m).1);
        }
    }
}

/// Focus workspace `n` of the current screen (with `r` false, `n` is an EWMH
/// desktop number whose screen is focused first and whose last digit names
/// the workspace): unfocus the focused client, switch the trackers, publish
/// the current desktop, focus the workspace's client, show the workspace
/// and hide the previous one.
pub fn focus_on_workspace(app: &mut Application, n: u64, r: bool, reqs: &mut Vec<Request>)
    requires
        focus_on_workspace_ok(old(app)@, n, r),
    ensures
        final(app)@.config == old(app)@.config,
        final(app)@ == focus_on_workspace_spec(old(app)@, n, r).0,
        final(reqs)@ == old(reqs)@ + focus_on_workspace_spec(old(app)@, n, r).1,
        final(app)@.wf(),
        final(app)@.runtime.client_count() == old(app)@.runtime.client_count(),
{
    let ghost a = app@;
    let m = if !r {
        focus_on_screen_index(app, n as usize / 10, reqs);
        n % 10
    } else {
        n
    };
    let ghost r1 = reqs@;
    switch_workspace(app, m, reqs);
    assert(reqs@ =~= old(reqs)@ + focus_on_workspace_spec(a, n, r).1);
}


// ---------------------------------------------------------------------------
// Workspace settings and client properties
// ---------------------------------------------------------------------------

/// State and requests after a setting of the current workspace changed:
/// the current workspace of every screen is retiled and the current
/// workspace is shown.
pub open spec fn retiled_spec(a: AppV) -> (AppV, Seq<Request>) {
    let b = arranged_current(a);
    show_spec(b, b.runtime.current_screen as int, b.runtime.current_workspace as int)
}

/// Retile the current workspaces and show the current one.
fn retile(app: &mut Application, reqs: &mut Vec<Request>)
    requires
        old(app)@.shape_wf(),
    ensures
        final(app)@ == retiled_spec(old(app)@).0,
        final(reqs)@ == old(reqs)@ + retiled_spec(old(app)@).1,
        final(app)@.shape_wf(),
        old(app)@.wf() ==> final(app)@.wf(),
        layout_only(old(app)@, final(app)@),
{
    let ghost a = app@;
    arrange_current(app);
    let ghost b = app@;
    let s = app.runtime.current_screen;
    let w = app.runtime.current_workspace;
    proof {
        assert(screen_shape_wf(b.runtime.screens[s as int], s as int));
    }
    show_workspace(app, s, w, reqs);
    proof {
        lemma_layout_ops(b, s as int, w as int);
        lemma_layout_only(b, app@);
        lemma_layout_trans(a, b, app@);
    }
}

/// The current workspace with its master width moved by `w` thousandths,
/// when the new width stays above `|w|` and below one whole; else unchanged.
pub open spec fn master_width_updated(a: AppV, w: i64) -> AppV {
    let rt = a.runtime;
    let ws = rt.cur_ws();
    let nw = ws.master_width + w;
    let aw = if w < 0 { -w } else { w as int };
    if aw < nw && nw < 1000 {
        AppV {
            runtime: rt.with_ws(rt.current_screen as int, rt.current_workspace as int, WorkspaceV { master_width: nw as i64, ..ws }),
            ..a
        }
    } else {
        a
    }
}

/// Widen (or narrow, with a negative `w`) the master area of the current
/// workspace by `w` thousandths of the usable width, then retile.
pub fn update_master_width(app: &mut Application, w: i64, reqs: &mut Vec<Request>)
    requires
        old(app)@.wf(),
    ensures
        final(app)@.config == old(app)@.config,
        final(app)@ == retiled_spec(master_width_updated(old(app)@, w)).0,
        final(reqs)@ == old(reqs)@ + retiled_spec(master_width_updated(old(app)@, w)).1,
        final(app)@.wf(),
        final(app)@.runtime.client_count() == old(app)@.runtime.client_count(),
{
    let ghost a = app@;
    let s = app.runtime.current_screen;
    let cw = app.runtime.current_workspace;
    proof {
        lemma_wf_current_ok(a.runtime);
        lemma_runtime_view(&app.runtime, s as int, cw as int);
        lemma_wf_parts(a.runtime, s as int, cw as int);
    }
    let mw = app.runtime.screens[s].workspaces[cw].master_width;
    let nw: i128 = mw as i128 + w as i128;
    let aw: i128 = if w < 0 { -(w as i128) } else { w as i128 };
    if aw < nw && nw < 1000 {
        let ghost before_rt = app.runtime;
        app.runtime.screens[s].workspaces[cw].master_width = nw as i64;
        proof {
            lemma_ws_changed(before_rt, app.runtime, s as int, cw as int);
            let ws2 = WorkspaceV { master_width: nw as i64, ..a.runtime.ws(s as int, cw as int) };
            assert(app@.runtime.ws(s as int, cw as int) =~= ws2);
            lemma_with_ws_wf(a.runtime, s as int, cw as int, ws2);
            assert(app@ =~~= master_width_updated(a, w));
        }
    }
    proof {
        lemma_layout_refl(a);
    }
    retile(app, reqs);
    proof {
        lemma_layout_only(master_width_updated(a, w), app@);
    }
}

/// The current workspace with its master capacity moved by `i` (wrapping).
pub open spec fn master_capacity_updated(a: AppV, i: i64) -> AppV {
    let rt = a.runtime;
    let ws = rt.cur_ws();
    AppV {
        runtime: rt.with_ws(
            rt.current_screen as int,
            rt.current_workspace as int,
            WorkspaceV { master_capacity: vstd::wrapping::i64_specs::wrapping_add(ws.master_capacity, i), ..ws },
        ),
        ..a
    }
}

/// Change how many clients the master column of the current workspace
/// holds by `i`, then retile.
pub fn update_master_capacity(app: &mut Application, i: i64, reqs: &mut Vec<Request>)
    requires
        old(app)@.wf(),
    ensures
        final(app)@.config == old(app)@.config,
        final(app)@ == retiled_spec(master_capacity_updated(old(app)@, i)).0,
        final(reqs)@ == old(reqs)@ + retiled_spec(master_capacity_updated(old(app)@, i)).1,
        final(app)@.wf(),
        final(app)@.runtime.client_count() == old(app)@.runtime.client_count(),
{
    let ghost a = app@;
    let s = app.runtime.current_screen;
    let cw = app.runtime.current_workspace;
    proof {
        lemma_wf_current_ok(a.runtime);
        lemma_runtime_view(&app.runtime, s as int, cw as int);
        lemma_wf_parts(a.runtime, s as int, cw as int);
    }
    let mc = app.runtime.screens[s].workspaces[cw].master_capacity;
    let ghost before_rt = app.runtime;
    app.runtime.screens[s].workspaces[cw].master_capacity = mc.wrapping_add(i);
    proof {
        lemma_ws_changed(before_rt, app.runtime, s as int, cw as int);
        let ws2 = WorkspaceV { master_capacity: vstd::wrapping::i64_specs::wrapping_add(mc, i), ..a.runtime.ws(s as int, cw as int) };
        assert(app@.runtime.ws(s as int, cw as int) =~= ws2);
        lemma_with_ws_wf(a.runtime, s as int, cw as int, ws2);
        assert(app@ =~~= master_capacity_updated(a, i));
    }
    retile(app, reqs);
    proof {
        lemma_layout_only(master_capacity_updated(a, i), app@);
    }
}

/// The focused client with its floating flag flipped and, when it now
/// floats, the configured border (else none).
pub open spec fn float_toggled(a: AppV) -> AppV {
    match a.runtime.current_client {
        Some(c) => {
            let rt = a.runtime;
            let cl = rt.cur_ws().clients[c as int];
            let fl = !cl.floating;
            AppV {
                runtime: rt.with_client(
                    rt.current_screen as int,
                    rt.current_workspace as int,
                    c as int,
                    Client { floating: fl, border: if fl { a.config.border_size as u32 } else { 0 }, ..cl },
                ),
                ..a
            }
        },
        None => a,
    }
}

/// State and requests of `toggle_float`.
pub open spec fn toggle_float_spec(a: AppV) -> (AppV, Seq<Request>) {
    match a.runtime.current_client {
        Some(_) => retiled_spec(float_toggled(a)),
        None => (a, Seq::empty()),
    }
}

/// Let the focused client float (with the configured border) or put it
/// back into the tiling (without border), then retile.
pub fn toggle_float(app: &mut Application, reqs: &mut Vec<Request>)
    requires
        old(app)@.wf(),
        old(app)@.runtime.current_client_ok(),
    ensures
        final(app)@.config == old(app)@.config,
        final(app)@ == toggle_float_spec(old(app)@).0,
        final(reqs)@ == old(reqs)@ + toggle_float_spec(old(app)@).1,
        final(app)@.wf(),
        final(app)@.runtime.client_count() == old(app)@.runtime.client_count(),
{
    let ghost a = app@;
    if let Some(c) = app.runtime.current_client {
        let s = app.runtime.current_screen;
        let cw = app.runtime.current_workspace;
        proof {
            lemma_wf_current_ok(a.runtime);
            lemma_runtime_view(&app.runtime, s as int, cw as int);
            lemma_wf_parts(a.runtime, s as int, cw as int);
        }
        let fl = !app.runtime.screens[s].workspaces[cw].clients[c].floating;
        let border: u32 = if fl { app.config.border_size as u32 } else { 0 };
        let ghost before_rt = app.runtime;
        app.runtime.screens[s].workspaces[cw].clients[c].floating = fl;
        app.runtime.screens[s].workspaces[cw].clients[c].border = border;
        proof {
            lemma_client_changed(before_rt, app.runtime, s as int, cw as int, c as int);
            let ws = a.runtime.ws(s as int, cw as int);
            let cl2 = Client { floating: fl, border, ..ws.clients[c as int] };
            let ws2 = WorkspaceV { clients: ws.clients.update(c as int, cl2), ..ws };
            assert(app@.runtime =~~= a.runtime.with_ws(s as int, cw as int, ws2));
            lemma_with_ws_wf(a.runtime, s as int, cw as int, ws2);
            assert(app@ =~~= float_toggled(a));
        }
        retile(app, reqs);
        proof {
            lemma_layout_only(float_toggled(a), app@);
        }
    }
}

/// State after the name of window `win` is set to `name` (when managed).
pub open spec fn name_set(a: AppV, win: u64, name: String) -> AppV {
    match window_pos(a.runtime, win) {
        Some((s, w, c)) => AppV {
            runtime: a.runtime.with_client(s as int, w as int, c as int, Client { window_name: name, ..a.runtime.client(s as int, w as int, c as int) }),
            ..a
        },
        None => a,
    }
}

/// The name a window gets from its `_NET_WM_NAME` text: the text itself,
/// or `_` when the window has none.
pub open spec fn name_or_default(name: Option<String>) -> Seq<char> {
    match name {
        Some(n) => n@,
        None => seq!['_'],
    }
}

/// Store the name of a managed window, given its `_NET_WM_NAME` text (`_`
/// when it has none).
pub fn update_client_name(app: &mut Application, win: u64, name: Option<String>)
    ensures
        exists|n: String| n@ == name_or_default(name) && final(app)@ == name_set(old(app)@, win, n),
        old(app)@.wf() ==> final(app)@.wf(),
        final(app)@.runtime.client_count() == old(app)@.runtime.client_count(),
{
    let ghost a = app@;
    let text = match name {
        Some(n) => n,
        None => {
            proof {
                reveal_strlit("_");
            }
            "_".to_owned()
        },
    };
    let ghost t = text;
    proof {
        assert(text@ == name_or_default(name));
    }
    if let Some((s, w, c)) = find_window_indexes(app, win) {
        proof {
            lemma_runtime_view(&app.runtime, s as int, w as int);
        }
        let ghost before_rt = app.runtime;
        app.runtime.screens[s].workspaces[w].clients[c].window_name = text;
        proof {
            lemma_client_changed(before_rt, app.runtime, s as int, w as int, c as int);
            assert(app@ =~~= name_set(a, win, t));
            let ws = a.runtime.ws(s as int, w as int);
            let ws2 = WorkspaceV { clients: ws.clients.update(c as int, Client { window_name: t, ..ws.clients[c as int] }), ..ws };
            assert(app@.runtime =~~= a.runtime.with_ws(s as int, w as int, ws2));
            crate::structs::lemma_count_with_ws(a.runtime, s as int, w as int, ws2);
            if a.wf() {
                lemma_wf_parts(a.runtime, s as int, w as int);
                lemma_with_ws_wf(a.runtime, s as int, w as int, ws2);
            }
        }
    } else {
        proof {
            assert(app@ == name_set(a, win, t));
        }
    }
}

/// The name shown for a window: the managed client's name, or
/// `Unmanaged Window`.
pub open spec fn client_name(rt: RuntimeV, win: u64) -> Seq<char> {
    match window_pos(rt, win) {
        Some((s, w, c)) => rt.client(s as int, w as int, c as int).window_name@,
        None => "Unmanaged Window"@,
    }
}

/// Name of window `win` for messages.
pub fn get_client_name(app: &Application, win: u64) -> (r: String)
    ensures
        r@ == client_name(app@.runtime, win),
{
    if let Some((s, w, c)) = find_window_indexes(app, win) {
        proof {
            lemma_runtime_view(&app.runtime, s as int, w as int);
        }
        app.runtime.screens[s].workspaces[w].clients[c].window_name.clone()
    } else {
        "Unmanaged Window".to_owned()
    }
}


// ---------------------------------------------------------------------------
// Where a new window goes
// ---------------------------------------------------------------------------

/// What the server tells about a new window that decides where it goes.
#[derive(Debug)]
pub struct PlacementFacts {
    /// The window it is transient for, when `WM_TRANSIENT_FOR` is set.
    pub transient_for: Option<u64>,
    /// Its `_NET_WM_DESKTOP` value, left by an earlier session.
    pub desktop: Option<u64>,
    /// Its `_NET_WM_PID` value.
    pub pid: Option<i32>,
    /// Its `_NET_WM_NAME` text.
    pub title: Option<String>,
    /// Instance part of `WM_CLASS`.
    pub instance: Option<String>,
    /// Class part of `WM_CLASS`.
    pub class: Option<String>,
}

/// A rule field accepts a window's value: equal texts, or no text in the rule.
pub open spec fn field_accepts(rule: Option<String>, value: Option<String>) -> bool {
    match (rule, value) {
        (Some(r), Some(v)) => r@ == v@,
        _ => rule is None,
    }
}

/// A placement rule accepts the window.
pub open spec fn rule_accepts(r: PlacementRule, f: PlacementFacts) -> bool {
    field_accepts(r.instance, f.instance) && field_accepts(r.class, f.class) && field_accepts(r.title, f.title)
}

/// Place given by the first placement rule that accepts the window; a rule
/// without screen or workspace takes the current one.
pub open spec fn rule_place(rules: Seq<PlacementRule>, f: PlacementFacts, cs: usize, cw: usize) -> Option<(usize, usize)>
    decreases rules.len(),
{
    if rules.len() == 0 {
        None
    } else if rule_accepts(rules[0], f) {
        Some((
            match rules[0].rule_screen {
                Some(s) => s,
                None => cs,
            },
            match rules[0].rule_workspace {
                Some(w) => w,
                None => cw,
            },
        ))
    } else {
        rule_place(rules.skip(1), f, cs, cw)
    }
}

/// Index of the first autostart rule of process `pid`.
pub open spec fn pid_rule(rules: Seq<AutostartRulePID>, pid: i32) -> Option<int>
    decreases rules.len(),
{
    if rules.len() == 0 {
        None
    } else if rules.last().pid == pid && pid_rule(rules.drop_last(), pid) is None {
        Some(rules.len() - 1)
    } else {
        pid_rule(rules.drop_last(), pid)
    }
}

/// Where the autostart rules put a window of process `pid`: the first rule
/// of that process, when its place exists.
pub open spec fn autostart_place(rt: RuntimeV, pid: Option<i32>) -> Option<(usize, usize)> {
    match pid {
        Some(p) => match pid_rule(rt.autostart_rules, p) {
            Some(i) => {
                let r = rt.autostart_rules[i];
                if rt.valid_ws(r.screen as int, r.workspace as int) {
                    Some((r.screen, r.workspace))
                } else {
                    None
                }
            },
            None => None,
        },
        None => None,
    }
}

/// Place of a new window and the window it is transient for (0 if none
/// counts): the place of its managed parent; else, at start-up, the
/// desktop it had; else its process's autostart rule; else the first
/// placement rule that accepts it; else the current workspace.
pub open spec fn placement(a: AppV, f: PlacementFacts, scan: bool) -> ((usize, usize), u64) {
    let rt = a.runtime;
    if parent_place(rt, f) is Some {
        (parent_place(rt, f)->0, f.transient_for->0)
    } else if startup_place(rt, f, scan) is Some {
        (startup_place(rt, f, scan)->0, 0)
    } else if autostart_place(rt, f.pid) is Some {
        (autostart_place(rt, f.pid)->0, 0)
    } else {
        match rule_place(a.config.placements@, f, rt.current_screen, rt.current_workspace) {
            Some(p) => (p, 0),
            None => ((rt.current_screen, rt.current_workspace), 0),
        }
    }
}

/// Place of the managed window the new window is transient for.
pub open spec fn parent_place(rt: RuntimeV, f: PlacementFacts) -> Option<(usize, usize)> {
    match f.transient_for {
        Some(t) => match window_pos(rt, t) {
            Some((s, w, _c)) => Some((s, w)),
            None => None,
        },
        None => None,
    }
}

/// At start-up, the place named by the desktop the window had.
pub open spec fn startup_place(rt: RuntimeV, f: PlacementFacts, scan: bool) -> Option<(usize, usize)> {
    if scan {
        match f.desktop {
            Some(d) => crate::helper::desktop_place(rt, d),
            None => None,
        }
    } else {
        None
    }
}

/// Index of the first autostart rule of process `pid`.
fn find_pid_rule(rules: &Vec<AutostartRulePID>, pid: i32) -> (r: Option<usize>)
    ensures
        match r {
            Some(i) => pid_rule(rules@, pid) == Some(i as int) && i < rules@.len(),
            None => pid_rule(rules@, pid) is None,
        },
{
    let mut i: usize = 0;
    while i < rules.len()
        invariant
            i <= rules@.len(),
            pid_rule(rules@.take(i as int), pid) is None,
        decreases rules@.len() - i,
    {
        proof {
            assert(rules@.take(i + 1).drop_last() =~= rules@.take(i as int));
        }
        if rules[i].pid == pid {
            proof {
                lemma_pid_rule_prefix(rules@, pid, i as int + 1);
            }
            return Some(i);
        }
        i = i + 1;
    }
    proof {
        assert(rules@.take(rules@.len() as int) =~= rules@);
    }
    None
}

/// The first rule of a process is one of the rules, of that process.
proof fn lemma_pid_rule_range(rules: Seq<AutostartRulePID>, pid: i32)
    ensures
        pid_rule(rules, pid) matches Some(i) ==> 0 <= i < rules.len() && rules[i].pid == pid,
    decreases rules.len(),
{
    if rules.len() > 0 {
        lemma_pid_rule_range(rules.drop_last(), pid);
    }
}

/// The first rule of a process found in a prefix is the first rule overall.
proof fn lemma_pid_rule_prefix(rules: Seq<AutostartRulePID>, pid: i32, n: int)
    requires
        0 <= n <= rules.len(),
        pid_rule(rules.take(n), pid) is Some,
    ensures
        pid_rule(rules, pid) == pid_rule(rules.take(n), pid),
    decreases rules.len() - n,
{
    if n < rules.len() {
        assert(rules.take(n + 1).drop_last() =~= rules.take(n));
        lemma_pid_rule_prefix(rules, pid, n + 1);
    } else {
        assert(rules.take(n) =~= rules);
    }
}

/// Whether a rule field accepts a window's value.
fn accepts(rule: &Option<String>, value: &Option<String>) -> (r: bool)
    ensures
        r == field_accepts(*rule, *value),
{
    match (rule, value) {
        (Some(r), Some(v)) => *r == *v,
        _ => rule.is_none(),
    }
}

/// Decide where a new window goes, from what the server tells about it
/// (see `placement`). The returned place is not checked against the
/// screens when it comes from a placement rule.
pub fn get_window_placement(app: &Application, facts: &PlacementFacts, scan: bool) -> (r: ((usize, usize), u64))
    ensures
        r == placement(app@, *facts, scan),
{
    let ghost a = app@;
    let default_placement = (app.runtime.current_screen, app.runtime.current_workspace);
    if let Some(trans) = facts.transient_for {
        if let Some((s, w, _c)) = find_window_indexes(app, trans) {
            return ((s, w), trans);
        }
    }
    assert(parent_place(a.runtime, *facts) is None);
    if scan {
        if let Some(sw) = crate::helper::get_client_workspace(app, facts.desktop) {
            return (sw, 0);
        }
    }
    assert(startup_place(a.runtime, *facts, scan) is None);
    if let Some(pid) = facts.pid {
        proof {
            lemma_pid_rule_range(a.runtime.autostart_rules, pid);
        }
        if let Some(ri) = find_pid_rule(&app.runtime.autostart_rules, pid) {
            let rs = app.runtime.autostart_rules[ri].screen;
            let rw = app.runtime.autostart_rules[ri].workspace;
            if rs < app.runtime.screens.len() && rw < app.runtime.screens[rs].workspaces.len() {
                proof {
                    lemma_runtime_view(&app.runtime, rs as int, rw as int);
                    assert(autostart_place(a.runtime, facts.pid) == Some((rs, rw)));
                }
                return ((rs, rw), 0);
            }
            proof {
                lemma_runtime_view(&app.runtime, rs as int, rw as int);
            }
        }
    }
    assert(autostart_place(a.runtime, facts.pid) is None);
    let rules = &app.config.placements;
    let mut i: usize = 0;
    proof {
        assert(rules@.skip(0) =~= rules@);
        assert(placement(a, *facts, scan) == (match rule_place(rules@, *facts, a.runtime.current_screen, a.runtime.current_workspace) {
            Some(p) => (p, 0u64),
            None => ((a.runtime.current_screen, a.runtime.current_workspace), 0u64),
        }));
    }
    while i < rules.len()
        invariant
            i <= rules@.len(),
            placement(a, *facts, scan) == (match rule_place(rules@, *facts, a.runtime.current_screen, a.runtime.current_workspace) {
                Some(p) => (p, 0u64),
                None => ((a.runtime.current_screen, a.runtime.current_workspace), 0u64),
            }),
            default_placement == (a.runtime.current_screen, a.runtime.current_workspace),
            a == app@,
            rules@ == a.config.placements@,
            rule_place(rules@, *facts, a.runtime.current_screen, a.runtime.current_workspace)
                == rule_place(rules@.skip(i as int), *facts, a.runtime.current_screen, a.runtime.current_workspace),
        decreases rules@.len() - i,
    {
        let rule = &rules[i];
        proof {
            assert(rules@.skip(i as int)[0] == rules@[i as int]);
            assert(rules@.skip(i as int).skip(1) =~= rules@.skip(i + 1));
        }
        if accepts(&rule.instance, &facts.instance) && accepts(&rule.class, &facts.class) && accepts(&rule.title, &facts.title) {
            let s = match rule.rule_screen {
                Some(s) => s,
                None => app.runtime.current_screen,
            };
            let w = match rule.rule_workspace {
                Some(w) => w,
                None => app.runtime.current_workspace,
            };
            return ((s, w), 0);
        }
        i = i + 1;
    }
    proof {
        assert(rules@.skip(i as int).len() == 0);
    }
    (default_placement, 0)
}

} // verus!
