//! Moving and resizing floating windows with the mouse, and following the
//! pointer across screens.

use vstd::prelude::*;
use vstd::wrapping::i32_specs;

use crate::config::NUMBER_OF_DESKTOPS;
use crate::helper::{
    find_window_indexes, lemma_removed_wf, lemma_pushed_wf, lemma_wf_current_ok, lemma_window_pos_spec, push_client,
    pushed, remove_client, removed, update_client_desktop, window_pos,
};
use crate::logic::{shift_current_client, shift_ok, shift_spec, shifted_cc};
use crate::manage::holds_point;
use crate::request::{PropertyKind, Request};
use crate::structs::{
    lemma_client_changed, lemma_runtime_view, lemma_wf_from_parts, lemma_wf_parts, screen_shape_wf, screen_wf,
    workspace_wf, AppV, Application, Client, MouseState, RuntimeV, ScreenV, WorkspaceV,
};

verus! {

/// Index of the last screen below `k` that holds the point.
pub open spec fn last_holding(scs: Seq<ScreenV>, x: i64, y: i64, k: int) -> Option<int>
    decreases k,
{
    if k <= 0 {
        None
    } else if holds_point(scs[k - 1], x, y) {
        Some(k - 1)
    } else {
        last_holding(scs, x, y, k - 1)
    }
}

/// The screen a dragged window goes to: the last screen that holds the
/// pointer, else the one it is on.
pub open spec fn drag_target(scs: Seq<ScreenV>, s: int, x: i64, y: i64) -> int {
    match last_holding(scs, x, y, scs.len() as int) {
        Some(k) => k,
        None => s,
    }
}

/// State, requests and new position of a dragged client that left screen
/// `s`: it moves to the current workspace of the target screen, its
/// desktop and the current desktop are published, the current workspace's
/// trackers are clamped, and the trackers follow the client.
pub open spec fn moved_across(a: AppV, s: int, w: int, c: int, x: i64, y: i64) -> (AppV, Seq<Request>, (int, int, int)) {
    let ns = drag_target(a.runtime.screens, s, x, y);
    let cl = a.runtime.client(s, w, c);
    let desk = (a.runtime.screens[ns].current_workspace + ns * NUMBER_OF_DESKTOPS) as u64;
    let a1 = removed(a, s, w, c);
    let r1 = seq![
        Request::SetProperty { win: cl.window_id, property: a.atoms.net_wm_desktop, kind: PropertyKind::Cardinal, value: desk },
        Request::SetProperty { win: a.core.root_win, property: a.atoms.net_current_desktop, kind: PropertyKind::Cardinal, value: desk },
    ];
    let (a2, r2) = shift_spec(a1, None, None);
    let nw = a2.runtime.screens[ns].current_workspace as int;
    let a3 = pushed(a2, ns, nw, cl);
    let nc = a2.runtime.ws(ns, nw).clients.len() as int;
    let a4 = AppV {
        runtime: RuntimeV { current_screen: ns as usize, current_workspace: nw as usize, current_client: Some(nc as usize), ..a3.runtime },
        ..a3
    };
    (a4, r1 + r2, (ns, nw, nc))
}

/// State and requests of `move_mouse`: the dragged window (when managed)
/// moves with the pointer by the pointer's move since the last position
/// (wrapping), changing screen first when the pointer left its screen; the
/// last position follows on each axis the window moved along.
pub open spec fn drag_spec(a: AppV, x_root: i32, y_root: i32) -> (AppV, Seq<Request>) {
    let win = a.runtime.mouse_state.win;
    match window_pos(a.runtime, win) {
        None => (a, Seq::empty()),
        Some((s0, w0, c0)) => {
            let mx = x_root as i64;
            let my = y_root as i64;
            let (px, py) = a.runtime.mouse_state.pos;
            let dx = (mx - px) as i32;
            let dy = (my - py) as i32;
            let stays = holds_point(a.runtime.screens[s0 as int], mx, my);
            let (a1, r1, p) = if stays {
                (a, Seq::<Request>::empty(), (s0 as int, w0 as int, c0 as int))
            } else {
                moved_across(a, s0 as int, w0 as int, c0 as int, mx, my)
            };
            let (s, w, c) = p;
            let (a2, r2) = dragged(a1, s, w, c, win, dx, dy, mx, my);
            (a2, r1 + r2)
        },
    }
}

/// State and request after client `(s, w, c)` (window `win`) is moved by
/// `(dx, dy)` (wrapping): the last pointer position follows on each axis
/// the window moved along.
pub open spec fn dragged(a1: AppV, s: int, w: int, c: int, win: u64, dx: i32, dy: i32, mx: i64, my: i64) -> (AppV, Seq<Request>) {
    let (px, py) = a1.runtime.mouse_state.pos;
    let cl = a1.runtime.client(s, w, c);
    let nx = i32_specs::wrapping_add(cl.x, dx);
    let ny = i32_specs::wrapping_add(cl.y, dy);
    let pos = (if cl.x != nx { mx } else { px }, if cl.y != ny { my } else { py });
    let rt = a1.runtime.with_client(s, w, c, Client { x: nx, y: ny, ..cl });
    (
        AppV { runtime: RuntimeV { mouse_state: MouseState { pos, ..a1.runtime.mouse_state }, ..rt }, ..a1 },
        seq![Request::MoveResize { win, x: nx, y: ny, width: cl.w, height: cl.h }],
    )
}

/// `move_mouse` keeps the invariant: when the dragged window leaves its
/// screen, its workspace is the current one or keeps a valid tracker.
pub open spec fn drag_keeps_wf(a: AppV, x_root: i32, y_root: i32) -> bool {
    match window_pos(a.runtime, a.runtime.mouse_state.win) {
        Some((s, w, c)) => !holds_point(a.runtime.screens[s as int], x_root as i64, y_root as i64) ==> (s == a.runtime.current_screen
            && w == a.runtime.current_workspace) || workspace_wf(removed(a, s as int, w as int, c as int).runtime.ws(s as int, w as int)),
        None => true,
    }
}

/// The last screen below `k` holding a point is a screen below `k`.
pub proof fn lemma_last_holding_range(scs: Seq<ScreenV>, x: i64, y: i64, k: int)
    ensures
        last_holding(scs, x, y, k) matches Some(i) ==> 0 <= i < k,
    decreases k,
{
    if k > 0 {
        lemma_last_holding_range(scs, x, y, k - 1);
    }
}

/// Index of the last screen that holds the point, if any.
fn find_last_screen(app: &Application, x: i64, y: i64) -> (r: Option<usize>)
    requires
        app@.shape_wf(),
    ensures
        r == (match last_holding(app@.runtime.screens, x, y, app@.runtime.screens.len() as int) {
            Some(k) => Some(k as usize),
            None => None::<usize>,
        }),
        r matches Some(k) ==> k < app@.runtime.screens.len(),
{
    let ghost scs = app@.runtime.screens;
    let n = app.runtime.screens.len();
    let mut k: usize = n;
    while k > 0
        invariant
            n == scs.len(),
            k <= n,
            scs == app@.runtime.screens,
            app@.shape_wf(),
            last_holding(scs, x, y, n as int) == last_holding(scs, x, y, k as int),
        decreases k,
    {
        proof {
            lemma_runtime_view(&app.runtime, k - 1, 0);
            assert(screen_shape_wf(scs[k - 1], k - 1));
        }
        let sc = &app.runtime.screens[k - 1];
        if sc.x <= x && x < sc.x + sc.width && sc.y <= y && y < sc.y + sc.height {
            return Some(k - 1);
        }
        k = k - 1;
    }
    None
}

/// Move the dragged floating window with the pointer (see `drag_spec`).
#[verifier::rlimit(100)]
pub fn move_mouse(app: &mut Application, x_root: i32, y_root: i32, reqs: &mut Vec<Request>)
    requires
        old(app)@.wf(),
    ensures
        final(app)@.config == old(app)@.config,
        final(app)@ == drag_spec(old(app)@, x_root, y_root).0,
        final(reqs)@ == old(reqs)@ + drag_spec(old(app)@, x_root, y_root).1,
        final(app)@.shape_wf(),
        drag_keeps_wf(old(app)@, x_root, y_root) ==> final(app)@.wf(),
        final(app)@.runtime.client_count() == old(app)@.runtime.client_count(),
{
    let ghost a = app@;
    let moving = app.runtime.mouse_state.win;
    if let Some((s0, w0, c0)) = find_window_indexes(app, moving) {
        proof {
            lemma_window_pos_spec(a.runtime, moving);
            lemma_runtime_view(&app.runtime, s0 as int, w0 as int);
            assert(screen_shape_wf(a.runtime.screens[s0 as int], s0 as int));
        }
        let mx = x_root as i64;
        let my = y_root as i64;
        let (px, py) = app.runtime.mouse_state.pos;
        let dx = mx - px;
        let dy = my - py;
        let sc = &app.runtime.screens[s0];
        let stays = sc.x <= mx && mx < sc.x + sc.width && sc.y <= my && my < sc.y + sc.height;
        let mut s = s0;
        let mut w = w0;
        let mut c = c0;
        if !stays {
            let (ns, nw, nc) = move_across(app, s0, w0, c0, mx, my, reqs);
            s = ns;
            w = nw;
            c = nc;
        }
        drag_client(app, s, w, c, moving, dx as i32, dy as i32, mx, my, reqs);
        proof {
            assert(reqs@ =~= old(reqs)@ + drag_spec(a, x_root, y_root).1);
        }
    }
}

/// Move client `(s, w, c)` by `(dx, dy)` (see `dragged`).
fn drag_client(app: &mut Application, s: usize, w: usize, c: usize, win: u64, dx: i32, dy: i32, mx: i64, my: i64, reqs: &mut Vec<Request>)
    requires
        old(app)@.shape_wf(),
        old(app)@.runtime.valid_pos(s as int, w as int, c as int),
        -0x8000_0000 <= mx < 0x8000_0000,
        -0x8000_0000 <= my < 0x8000_0000,
    ensures
        final(app)@ == dragged(old(app)@, s as int, w as int, c as int, win, dx, dy, mx, my).0,
        final(reqs)@ == old(reqs)@ + dragged(old(app)@, s as int, w as int, c as int, win, dx, dy, mx, my).1,
        final(app)@.shape_wf(),
        old(app)@.wf() ==> final(app)@.wf(),
        final(app)@.runtime.client_count() == old(app)@.runtime.client_count(),
{
    let ghost a1 = app@;
    proof {
        lemma_runtime_view(&app.runtime, s as int, w as int);
    }
    let cx = app.runtime.screens[s].workspaces[w].clients[c].x;
    let cy = app.runtime.screens[s].workspaces[w].clients[c].y;
    let new_x = cx.wrapping_add(dx);
    let new_y = cy.wrapping_add(dy);
    let ghost before_rt = app.runtime;
    app.runtime.screens[s].workspaces[w].clients[c].x = new_x;
    app.runtime.screens[s].workspaces[w].clients[c].y = new_y;
    proof {
        lemma_client_changed(before_rt, app.runtime, s as int, w as int, c as int);
    }
    if cx != new_x {
        app.runtime.mouse_state.pos.0 = mx;
    }
    if cy != new_y {
        app.runtime.mouse_state.pos.1 = my;
    }
    let cw = app.runtime.screens[s].workspaces[w].clients[c].w;
    let ch = app.runtime.screens[s].workspaces[w].clients[c].h;
    reqs.push(Request::MoveResize { win, x: new_x, y: new_y, width: cw, height: ch });
    proof {
        assert(app@ =~~= dragged(a1, s as int, w as int, c as int, win, dx, dy, mx, my).0);
        assert(reqs@ =~= old(reqs)@ + dragged(a1, s as int, w as int, c as int, win, dx, dy, mx, my).1);
        let cl = a1.runtime.client(s as int, w as int, c as int);
        let ws2 = WorkspaceV {
            clients: a1.runtime.ws(s as int, w as int).clients.update(c as int, Client { x: new_x, y: new_y, ..cl }),
            ..a1.runtime.ws(s as int, w as int)
        };
        crate::structs::lemma_count_with_ws(a1.runtime, s as int, w as int, ws2);
        assert(screen_shape_wf(a1.runtime.screens[s as int], s as int));
        assert(crate::structs::ws_shape_wf(a1.runtime.ws(s as int, w as int)));
        crate::structs::lemma_with_ws_shape(a1.runtime, s as int, w as int, ws2, s as int, w as int);
        if a1.wf() {
            lemma_wf_parts(a1.runtime, s as int, w as int);
            crate::structs::lemma_with_ws_wf(a1.runtime, s as int, w as int, ws2);
        }
    }
}

/// Move client `(s, w, c)` to the target screen of the pointer (see
/// `moved_across`); returns its new position.
fn move_across(app: &mut Application, s: usize, w: usize, c: usize, x: i64, y: i64, reqs: &mut Vec<Request>) -> (r: (usize, usize, usize))
    requires
        old(app)@.wf(),
        old(app)@.runtime.valid_pos(s as int, w as int, c as int),
    ensures
        final(app)@ == moved_across(old(app)@, s as int, w as int, c as int, x, y).0,
        final(reqs)@ == old(reqs)@ + moved_across(old(app)@, s as int, w as int, c as int, x, y).1,
        (r.0 as int, r.1 as int, r.2 as int) == moved_across(old(app)@, s as int, w as int, c as int, x, y).2,
        final(app)@.runtime.valid_pos(r.0 as int, r.1 as int, r.2 as int),
        final(app)@.shape_wf(),
        final(app)@.runtime.trackers_ok_except(s as int, w as int),
        (s == old(app)@.runtime.current_screen && w == old(app)@.runtime.current_workspace) || workspace_wf(
            removed(old(app)@, s as int, w as int, c as int).runtime.ws(s as int, w as int),
        ) ==> final(app)@.wf(),
        final(app)@.runtime.client_count() == old(app)@.runtime.client_count(),
{
    let ghost a = app@;
    proof {
        lemma_wf_current_ok(a.runtime);
    }
    let target = find_last_screen(app, x, y);
    proof {
        lemma_last_holding_range(a.runtime.screens, x, y, a.runtime.screens.len() as int);
    }
    let ns = match target {
        Some(k) => k,
        None => s,
    };
    let cl = remove_client(app, s, w, c);
    let ghost a1 = app@;
    proof {
        lemma_removed_wf(a, s as int, w as int, c as int);
        lemma_runtime_view(&app.runtime, ns as int, 0);
        assert(screen_shape_wf(a1.runtime.screens[ns as int], ns as int));
    }
    let new_workspace: usize = app.runtime.screens[ns].current_workspace + ns * NUMBER_OF_DESKTOPS;
    update_client_desktop(app, cl.window_id, new_workspace as u64, reqs);
    reqs.push(Request::SetProperty {
        win: app.core.root_win,
        property: app.atoms.net_current_desktop,
        kind: PropertyKind::Cardinal,
        value: new_workspace as u64,
    });
    proof {
        assert(crate::helper::current_ok(a1.runtime));
        assert(shift_ok(a1, None, None));
    }
    shift_current_client(app, None, None, reqs);
    let ghost a2 = app@;
    proof {
        assert(a1.runtime.trackers_ok_except(s as int, w as int));
        assert(a2.runtime.trackers_ok_except(s as int, w as int));
    }
    proof {
        lemma_runtime_view(&app.runtime, ns as int, 0);
        assert(screen_shape_wf(a2.runtime.screens[ns as int], ns as int));
    }
    let nw = app.runtime.screens[ns].current_workspace;
    proof {
        lemma_runtime_view(&app.runtime, ns as int, nw as int);
    }
    let nc = app.runtime.screens[ns].workspaces[nw].clients.len();
    push_client(app, ns, nw, cl);
    let ghost a3 = app@;
    proof {
        lemma_pushed_wf(a2, ns as int, nw as int, cl, s as int, w as int);
    }
    app.runtime.current_screen = ns;
    app.runtime.current_workspace = nw;
    app.runtime.current_client = Some(nc);
    proof {
        assert(app@ =~~= moved_across(a, s as int, w as int, c as int, x, y).0);
        assert(reqs@ =~= old(reqs)@ + moved_across(a, s as int, w as int, c as int, x, y).1);
        if (s == a.runtime.current_screen && w == a.runtime.current_workspace) || workspace_wf(a1.runtime.ws(s as int, w as int)) {
            if s == a.runtime.current_screen && w == a.runtime.current_workspace {
                assert(a2.wf());
            } else {
                lemma_wf_from_parts(a1.runtime, s as int, w as int);
                assert(a2.wf());
            }
            lemma_wf_parts(a2.runtime, ns as int, nw as int);
            lemma_pushed_wf(a2, ns as int, nw as int, cl, ns as int, nw as int);
            assert(workspace_wf(a3.runtime.ws(ns as int, nw as int)));
            lemma_wf_from_parts(a3.runtime, ns as int, nw as int);
        }
    }
    (ns, nw, nc)
}


/// A window size after the pointer moved by `d` along it: the new size
/// (wrapping) when it is above the minimum and, with a maximum, below it;
/// else the size is kept.
pub open spec fn resized_dim(cur: i32, d: i32, min: i32, max: i32) -> i32 {
    let n = i32_specs::wrapping_add(cur, d);
    if n > min && (max == 0 || max > 0 && n < max) {
        n
    } else {
        cur
    }
}

/// State and requests of `resize_mouse`: the last pointer position becomes
/// the pointer; the dragged window (when managed) grows or shrinks by the
/// pointer's move within its size hints.
pub open spec fn resize_spec(a: AppV, x_root: i32, y_root: i32) -> (AppV, Seq<Request>) {
    let mx = x_root as i64;
    let my = y_root as i64;
    let (px, py) = a.runtime.mouse_state.pos;
    let dx = (mx - px) as i32;
    let dy = (my - py) as i32;
    let win = a.runtime.mouse_state.win;
    let a0 = AppV { runtime: RuntimeV { mouse_state: MouseState { pos: (mx, my), ..a.runtime.mouse_state }, ..a.runtime }, ..a };
    match window_pos(a.runtime, win) {
        None => (a0, Seq::empty()),
        Some((s, w, c)) => {
            let cl = a.runtime.client(s as int, w as int, c as int);
            let nw = resized_dim(cl.w as i32, dx, cl.minw, cl.maxw) as u32;
            let nh = resized_dim(cl.h as i32, dy, cl.minh, cl.maxh) as u32;
            (
                AppV { runtime: a0.runtime.with_client(s as int, w as int, c as int, Client { w: nw, h: nh, ..cl }), ..a0 },
                seq![Request::MoveResize { win, x: cl.x, y: cl.y, width: nw, height: nh }],
            )
        },
    }
}

/// New size along one axis (see `resized_dim`).
fn resize_dim(cur: i32, d: i32, min: i32, max: i32) -> (r: i32)
    ensures
        r == resized_dim(cur, d, min, max),
{
    let n = cur.wrapping_add(d);
    if n > min {
        if max == 0 || max > 0 && n < max {
            return n;
        }
    }
    cur
}

/// Resize the dragged floating window with the pointer (see `resize_spec`).
pub fn resize_mouse(app: &mut Application, x_root: i32, y_root: i32, reqs: &mut Vec<Request>)
    requires
        old(app)@.wf(),
    ensures
        final(app)@.config == old(app)@.config,
        final(app)@ == resize_spec(old(app)@, x_root, y_root).0,
        final(reqs)@ == old(reqs)@ + resize_spec(old(app)@, x_root, y_root).1,
        final(app)@.wf(),
        final(app)@.runtime.client_count() == old(app)@.runtime.client_count(),
{
    let ghost a = app@;
    let mx = x_root as i64;
    let my = y_root as i64;
    let (px, py) = app.runtime.mouse_state.pos;
    let dx = mx - px;
    let dy = my - py;
    let win = app.runtime.mouse_state.win;
    let found = find_window_indexes(app, win);
    app.runtime.mouse_state.pos = (mx, my);
    let ghost a0 = app@;
    proof {
        assert(a0 =~~= AppV { runtime: RuntimeV { mouse_state: MouseState { pos: (mx, my), ..a.runtime.mouse_state }, ..a.runtime }, ..a });
        assert(crate::structs::screens_client_count(a0.runtime.screens) == crate::structs::screens_client_count(a.runtime.screens));
        assert(a0.wf());
    }
    if let Some((s, w, c)) = found {
        proof {
            lemma_window_pos_spec(a.runtime, win);
            lemma_runtime_view(&app.runtime, s as int, w as int);
        }
        let cl = &app.runtime.screens[s].workspaces[w].clients[c];
        let nw = resize_dim(cl.w as i32, dx as i32, cl.minw, cl.maxw) as u32;
        let nh = resize_dim(cl.h as i32, dy as i32, cl.minh, cl.maxh) as u32;
        let x = cl.x;
        let y = cl.y;
        let ghost before_rt = app.runtime;
        app.runtime.screens[s].workspaces[w].clients[c].w = nw;
        app.runtime.screens[s].workspaces[w].clients[c].h = nh;
        proof {
            lemma_client_changed(before_rt, app.runtime, s as int, w as int, c as int);
        }
        reqs.push(Request::MoveResize { win, x, y, width: nw, height: nh });
        proof {
            assert(app@ =~~= resize_spec(a, x_root, y_root).0);
            assert(reqs@ =~= old(reqs)@ + resize_spec(a, x_root, y_root).1);
            let cl0 = a0.runtime.client(s as int, w as int, c as int);
            let ws2 = WorkspaceV {
                clients: a0.runtime.ws(s as int, w as int).clients.update(c as int, Client { w: nw, h: nh, ..cl0 }),
                ..a0.runtime.ws(s as int, w as int)
            };
            lemma_wf_parts(a0.runtime, s as int, w as int);
            crate::structs::lemma_with_ws_wf(a0.runtime, s as int, w as int, ws2);
            crate::structs::lemma_count_with_ws(a0.runtime, s as int, w as int, ws2);
        }
    }
}

/// State and requests after the first `k` screens are checked for the
/// pointer: the trackers move to each screen that holds it (to its current
/// workspace and client) and the current desktop is published.
pub open spec fn follow_upto(a: AppV, mx: i64, my: i64, k: int) -> (AppV, Seq<Request>)
    decreases k,
{
    if k <= 0 {
        (a, Seq::empty())
    } else {
        let (b, r) = follow_upto(a, mx, my, k - 1);
        let sc = a.runtime.screens[k - 1];
        if holds_point(sc, mx, my) {
            let n = sc.number as usize;
            let b2 = crate::logic::screen_focused(b, n as int);
            let desk = (b2.runtime.current_workspace + n * NUMBER_OF_DESKTOPS) as u64;
            (
                b2,
                r + seq![Request::SetProperty {
                    win: a.core.root_win,
                    property: a.atoms.net_current_desktop,
                    kind: PropertyKind::Cardinal,
                    value: desk,
                }],
            )
        } else {
            (b, r)
        }
    }
}

/// State and requests of `screen_mouse`.
pub open spec fn follow_spec(a: AppV, x_root: i32, y_root: i32) -> (AppV, Seq<Request>) {
    follow_upto(a, x_root as i64, y_root as i64, a.runtime.screens.len() as int)
}

/// The trackers follow the pointer onto the screen that holds it.
proof fn lemma_follow_upto(a: AppV, mx: i64, my: i64, k: int)
    requires
        a.shape_wf(),
        0 <= k <= a.runtime.screens.len(),
    ensures
        follow_upto(a, mx, my, k).0.shape_wf(),
        a.wf() ==> follow_upto(a, mx, my, k).0.wf(),
        follow_upto(a, mx, my, k).0.runtime.screens == a.runtime.screens,
        follow_upto(a, mx, my, k).0.runtime.client_count() == a.runtime.client_count(),
        follow_upto(a, mx, my, k).0 == (AppV { runtime: follow_upto(a, mx, my, k).0.runtime, ..a }),
        follow_upto(a, mx, my, k).0.runtime == (RuntimeV {
            current_screen: follow_upto(a, mx, my, k).0.runtime.current_screen,
            current_workspace: follow_upto(a, mx, my, k).0.runtime.current_workspace,
            current_client: follow_upto(a, mx, my, k).0.runtime.current_client,
            ..a.runtime
        }),
    decreases k,
{
    if k > 0 {
        lemma_follow_upto(a, mx, my, k - 1);
        let b = follow_upto(a, mx, my, k - 1).0;
        assert(screen_shape_wf(a.runtime.screens[k - 1], k - 1));
        if a.wf() {
            assert(screen_wf(a.runtime.screens[k - 1], k - 1));
        }
    }
}

/// Follow the pointer across screens (see `follow_spec`).
pub fn screen_mouse(app: &mut Application, x_root: i32, y_root: i32, reqs: &mut Vec<Request>)
    requires
        old(app)@.shape_wf(),
    ensures
        final(app)@.config == old(app)@.config,
        final(app)@ == follow_spec(old(app)@, x_root, y_root).0,
        final(reqs)@ == old(reqs)@ + follow_spec(old(app)@, x_root, y_root).1,
        final(app)@.shape_wf(),
        old(app)@.wf() ==> final(app)@.wf(),
        final(app)@.runtime.client_count() == old(app)@.runtime.client_count(),
{
    let ghost a = app@;
    let mx = x_root as i64;
    let my = y_root as i64;
    let n = app.runtime.screens.len();
    let mut k: usize = 0;
    while k < n
        invariant
            a.shape_wf(),
            n == a.runtime.screens.len(),
            k <= n,
            app@ == follow_upto(a, mx, my, k as int).0,
            reqs@ == old(reqs)@ + follow_upto(a, mx, my, k as int).1,
        decreases n - k,
    {
        proof {
            lemma_follow_upto(a, mx, my, k as int);
            lemma_runtime_view(&app.runtime, k as int, 0);
            assert(screen_shape_wf(a.runtime.screens[k as int], k as int));
        }
        let sc = &app.runtime.screens[k];
        if sc.x <= mx && mx < sc.x + sc.width && sc.y <= my && my < sc.y + sc.height {
            let num = sc.number as usize;
            app.runtime.current_screen = num;
            proof {
                lemma_runtime_view(&app.runtime, num as int, 0);
            }
            let cw = app.runtime.screens[num].current_workspace;
            proof {
                lemma_runtime_view(&app.runtime, num as int, cw as int);
            }
            app.runtime.current_workspace = cw;
            app.runtime.current_client = app.runtime.screens[num].workspaces[cw].current_client;
            let desk: usize = cw + num * NUMBER_OF_DESKTOPS;
            reqs.push(Request::SetProperty {
                win: app.core.root_win,
                property: app.atoms.net_current_desktop,
                kind: PropertyKind::Cardinal,
                value: desk as u64,
            });
            proof {
                assert(app@ =~~= follow_upto(a, mx, my, k + 1).0);
                assert(reqs@ =~= old(reqs)@ + follow_upto(a, mx, my, k + 1).1);
            }
        }
        k = k + 1;
    }
    proof {
        lemma_follow_upto(a, mx, my, n as int);
    }
}

/// Whether `move_mouse` keeps the invariant (see `drag_keeps_wf`), for a
/// well-formed state.
pub fn drag_keeps_invariant(app: &Application, x_root: i32, y_root: i32) -> (r: bool)
    requires
        app@.wf(),
    ensures
        r == drag_keeps_wf(app@, x_root, y_root),
{
    let ghost a = app@;
    match find_window_indexes(app, app.runtime.mouse_state.win) {
        None => true,
        Some((s, w, c)) => {
            proof {
                lemma_window_pos_spec(a.runtime, a.runtime.mouse_state.win);
                lemma_runtime_view(&app.runtime, s as int, w as int);
                assert(screen_shape_wf(a.runtime.screens[s as int], s as int));
                lemma_wf_parts(a.runtime, s as int, w as int);
            }
            let mx = x_root as i64;
            let my = y_root as i64;
            let sc = &app.runtime.screens[s];
            let stays = sc.x <= mx && mx < sc.x + sc.width && sc.y <= my && my < sc.y + sc.height;
            if stays {
                true
            } else if s == app.runtime.current_screen && w == app.runtime.current_workspace {
                true
            } else {
                let len = app.runtime.screens[s].workspaces[w].clients.len() - 1;
                match app.runtime.screens[s].workspaces[w].current_client {
                    Some(k) => k < len,
                    None => true,
                }
            }
        },
    }
}
} // verus!
