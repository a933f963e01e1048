//! What the window manager does for each event the X server reports.

use vstd::prelude::*;
use vstd::wrapping::i32_specs;

use crate::config::NUMBER_OF_DESKTOPS;
use crate::helper::{
    current_client_id, current_ok, find_window_indexes, get_current_client_id, lemma_wf_current_ok,
    lemma_window_pos_spec, managed, show_spec, show_workspace, window_pos, lemma_layout_ops, lemma_layout_lookups,
};
use crate::logic::{
    arrange_current, arranged_current, focus, focus_ok, focus_on_screen, focus_on_screen_spec, focus_on_workspace,
    focus_on_workspace_ok, focus_on_workspace_spec, focus_spec, kill_client, kill_reqs, master_capacity_updated,
    master_width_updated, move_to_screen, move_to_screen_spec, move_to_workspace, move_to_workspace_spec,
    moves_to_workspace, retiled_spec, toggle_float, toggle_float_spec, unfocus, unfocus_reqs, update_client_name,
    update_master_capacity, update_master_width, name_set, name_or_default,
};
use crate::manage::{manage_client, manage_ok, manage_spec, unmanage_ok, unmanage_spec, unmanage_window, WindowFacts};
use crate::mouse::{drag_keeps_wf, drag_spec, follow_spec, move_mouse, resize_mouse, resize_spec, screen_mouse};
use crate::request::{PropertyKind, Request, BUTTON_MOVE, BUTTON_RESIZE};
use crate::screens::{infos_numbered, screens_updated, shrink_reqs, update_screens, ScreenInfo};
use crate::structs::{
    lemma_client_changed, lemma_layout_only, lemma_runtime_view, lemma_wf_parts, ActionResult, AppV, Application,
    Client, MouseState, RuntimeV, WmCore, WorkspaceV,
};

verus! {

// ---------------------------------------------------------------------------
// Keyboard
// ---------------------------------------------------------------------------

/// State and requests of key action `i` of the configuration.
pub open spec fn action_spec(a: AppV, i: int) -> (AppV, Seq<Request>) {
    match a.config.key_actions@[i].result {
        ActionResult::KillClient => (a, kill_reqs(a)),
        ActionResult::Spawn(_) => (a, seq![Request::SpawnAction { index: i as usize }]),
        ActionResult::MoveToScreen(d) => move_to_screen_spec(a, d),
        ActionResult::FocusOnScreen(d) => focus_on_screen_spec(a, d),
        ActionResult::MoveToWorkspace(n) => move_to_workspace_spec(a, n),
        ActionResult::FocusOnWorkspace(n) => focus_on_workspace_spec(a, n, true),
        ActionResult::Quit => (AppV { core: WmCore { running: false, ..a.core }, ..a }, Seq::empty()),
        ActionResult::UpdateMasterCapacity(k) => retiled_spec(master_capacity_updated(a, k)),
        ActionResult::UpdateMasterWidth(w) => retiled_spec(master_width_updated(a, w)),
        ActionResult::DumpInfo => (a, Seq::empty()),
        ActionResult::ToggleFloat => toggle_float_spec(a),
        ActionResult::CycleStack(_) => (a, Seq::empty()),
    }
}

/// Key action `i` can run: a well-formed state and, for the actions that
/// read the focused client, a valid global tracker; a workspace it
/// switches or moves to exists.
pub open spec fn action_ok(a: AppV, i: int) -> bool {
    &&& a.wf()
    &&& match a.config.key_actions@[i].result {
        ActionResult::KillClient => a.runtime.current_client_ok(),
        ActionResult::MoveToScreen(_) => a.runtime.current_client_ok(),
        ActionResult::MoveToWorkspace(n) => a.runtime.current_client_ok() && (moves_to_workspace(a, n) ==> (n as usize)
            < NUMBER_OF_DESKTOPS),
        ActionResult::FocusOnWorkspace(n) => (n as usize) < NUMBER_OF_DESKTOPS,
        ActionResult::ToggleFloat => a.runtime.current_client_ok(),
        _ => true,
    }
}

/// Key action `i` matches the key: its key code and modifier mask.
pub open spec fn action_matches(a: AppV, i: int, keycode: u32, state: u32, keycodes: Seq<u32>) -> bool {
    keycodes[i] == keycode && a.config.key_actions@[i].modifier == state
}

/// State and requests after the first `k` key actions are checked against
/// the key: each that matches runs, in order.
pub open spec fn keys_upto(a: AppV, keycode: u32, state: u32, keycodes: Seq<u32>, k: int) -> (AppV, Seq<Request>)
    decreases k,
{
    if k <= 0 {
        (a, Seq::empty())
    } else {
        let (b, r) = keys_upto(a, keycode, state, keycodes, k - 1);
        if action_matches(a, k - 1, keycode, state, keycodes) {
            let (b2, r2) = action_spec(b, k - 1);
            (b2, r + r2)
        } else {
            (b, r)
        }
    }
}

/// Every matching key action among the first `k` can run when its turn comes.
pub open spec fn keys_ok_upto(a: AppV, keycode: u32, state: u32, keycodes: Seq<u32>, k: int) -> bool
    decreases k,
{
    if k <= 0 {
        true
    } else {
        &&& keys_ok_upto(a, keycode, state, keycodes, k - 1)
        &&& action_matches(a, k - 1, keycode, state, keycodes) ==> action_ok(
            keys_upto(a, keycode, state, keycodes, k - 1).0,
            k - 1,
        )
    }
}

/// State and requests of `key_press`.
pub open spec fn key_press_spec(a: AppV, keycode: u32, state: u32, keycodes: Seq<u32>) -> (AppV, Seq<Request>) {
    keys_upto(a, keycode, state, keycodes, a.config.key_actions@.len() as int)
}

/// A prefix of runnable key actions is runnable.
proof fn lemma_keys_ok_prefix(a: AppV, keycode: u32, state: u32, keycodes: Seq<u32>, n: int, k: int)
    requires
        0 <= k <= n,
        keys_ok_upto(a, keycode, state, keycodes, n),
    ensures
        keys_ok_upto(a, keycode, state, keycodes, k),
    decreases n - k,
{
    if k < n {
        lemma_keys_ok_prefix(a, keycode, state, keycodes, n - 1, k);
    }
}

/// Run key action `i` (see `action_spec`); `key_press` runs each
/// matching action this way.
pub fn run_key_action(app: &mut Application, i: usize, reqs: &mut Vec<Request>)
    requires
        i < old(app)@.config.key_actions@.len(),
        action_ok(old(app)@, i as int),
    ensures
        final(app)@ == action_spec(old(app)@, i as int).0,
        final(reqs)@ == old(reqs)@ + action_spec(old(app)@, i as int).1,
        final(app)@.wf(),
        final(app)@.config == old(app)@.config,
{
    let ghost a = app@;
    proof {
        lemma_wf_current_ok(a.runtime);
    }
    match &app.config.key_actions[i].result {
        ActionResult::KillClient => {
            kill_client(app, reqs);
        },
        ActionResult::Spawn(_) => {
            reqs.push(Request::SpawnAction { index: i });
            proof {
                assert(reqs@ =~= old(reqs)@ + action_spec(a, i as int).1);
            }
        },
        ActionResult::MoveToScreen(d) => {
            let d = *d;
            move_to_screen(app, d, reqs);
        },
        ActionResult::FocusOnScreen(d) => {
            let d = *d;
            focus_on_screen(app, d, reqs);
        },
        ActionResult::MoveToWorkspace(n) => {
            let n = *n;
            move_to_workspace(app, n, reqs);
        },
        ActionResult::FocusOnWorkspace(n) => {
            let n = *n;
            focus_on_workspace(app, n, true, reqs);
        },
        ActionResult::Quit => {
            app.core.running = false;
            proof {
                assert(reqs@ =~= old(reqs)@ + action_spec(a, i as int).1);
            }
        },
        ActionResult::UpdateMasterCapacity(k) => {
            let k = *k;
            update_master_capacity(app, k, reqs);
        },
        ActionResult::UpdateMasterWidth(w) => {
            let w = *w;
            update_master_width(app, w, reqs);
        },
        ActionResult::DumpInfo => {
            proof {
                assert(reqs@ =~= old(reqs)@ + action_spec(a, i as int).1);
            }
        },
        ActionResult::ToggleFloat => {
            toggle_float(app, reqs);
        },
        ActionResult::CycleStack(_) => {
            proof {
                assert(reqs@ =~= old(reqs)@ + action_spec(a, i as int).1);
            }
        },
    }
}

/// The key actions that match a pressed key, in order (`keycodes[i]` is the
/// code of action `i`'s key symbol).
pub fn matching_actions(app: &Application, keycode: u32, state: u32, keycodes: &Vec<u32>) -> (r: Vec<usize>)
    requires
        keycodes@.len() == app@.config.key_actions@.len(),
    ensures
        r@ == Seq::new(keycodes@.len() as nat, |i: int| i).filter(|i: int| action_matches(app@, i, keycode, state, keycodes@)).map_values(
            |i: int| i as usize,
        ),
{
    let ghost idx = Seq::new(keycodes@.len() as nat, |i: int| i);
    let ghost p = |i: int| action_matches(app@, i, keycode, state, keycodes@);
    let mut r: Vec<usize> = Vec::new();
    let mut i: usize = 0;
    proof {
        reveal(Seq::filter);
        assert(idx.take(0).filter(p) =~= Seq::<int>::empty());
    }
    while i < keycodes.len()
        invariant
            i <= keycodes@.len(),
            keycodes@.len() == app@.config.key_actions@.len(),
            idx == Seq::new(keycodes@.len() as nat, |i: int| i),
            p == (|i: int| action_matches(app@, i, keycode, state, keycodes@)),
            r@ == idx.take(i as int).filter(p).map_values(|i: int| i as usize),
        decreases keycodes@.len() - i,
    {
        proof {
            reveal(Seq::filter);
            assert(idx.take(i + 1).drop_last() =~= idx.take(i as int));
            assert(idx.take(i + 1).last() == i as int);
        }
        if keycodes[i] == keycode && app.config.key_actions[i].modifier == state {
            r.push(i);
            proof {
                assert(r@ =~= idx.take(i + 1).filter(p).map_values(|i: int| i as usize));
            }
        } else {
            proof {
                assert(r@ =~= idx.take(i + 1).filter(p).map_values(|i: int| i as usize));
            }
        }
        i = i + 1;
    }
    proof {
        assert(idx.take(keycodes@.len() as int) =~= idx);
    }
    r
}

/// Run every key action whose key code (`keycodes[i]` is the code of action
/// `i`'s key symbol) and modifier mask match the pressed key, in order.
pub fn key_press(app: &mut Application, keycode: u32, state: u32, keycodes: &Vec<u32>, reqs: &mut Vec<Request>)
    requires
        old(app)@.wf(),
        keycodes@.len() == old(app)@.config.key_actions@.len(),
        keys_ok_upto(old(app)@, keycode, state, keycodes@, keycodes@.len() as int),
    ensures
        final(app)@.config == old(app)@.config,
        final(app)@ == key_press_spec(old(app)@, keycode, state, keycodes@).0,
        final(reqs)@ == old(reqs)@ + key_press_spec(old(app)@, keycode, state, keycodes@).1,
        final(app)@.wf(),
{
    let ghost a = app@;
    let n = keycodes.len();
    let mut i: usize = 0;
    while i < n
        invariant
            n == keycodes@.len(),
            n == a.config.key_actions@.len(),
            i <= n,
            keys_ok_upto(a, keycode, state, keycodes@, n as int),
            app@ == keys_upto(a, keycode, state, keycodes@, i as int).0,
            reqs@ == old(reqs)@ + keys_upto(a, keycode, state, keycodes@, i as int).1,
            app@.config == a.config,
            app@.wf(),
        decreases n - i,
    {
        proof {
            lemma_keys_ok_prefix(a, keycode, state, keycodes@, n as int, i + 1);
        }
        if keycodes[i] == keycode && app.config.key_actions[i].modifier == state {
            run_key_action(app, i, reqs);
            proof {
                assert(reqs@ =~= old(reqs)@ + keys_upto(a, keycode, state, keycodes@, i + 1).1);
            }
        }
        i = i + 1;
    }
}

// ---------------------------------------------------------------------------
// Windows appearing, entering, leaving
// ---------------------------------------------------------------------------

/// A window asks to be mapped: manage it (not at start-up).
pub fn map_request(app: &mut Application, win: u64, facts: &WindowFacts, reqs: &mut Vec<Request>)
    requires
        manage_ok(old(app)@, win, *facts, false),
    ensures
        final(app)@.config == old(app)@.config,
        exists|name: String|
            name@ == Seq::<char>::empty() && final(app)@ == manage_spec(old(app)@, win, *facts, false, name).0 && final(reqs)@
                == old(reqs)@ + manage_spec(old(app)@, win, *facts, false, name).1,
        final(app)@.wf(),
{
    manage_client(app, win, facts, false, reqs);
}

/// State and requests of `enter_notify`.
pub open spec fn enter_spec(a: AppV, win: u64) -> (AppV, Seq<Request>) {
    if win != a.core.root_win {
        let r0 = match current_client_id(a.runtime) {
            Some(cw) => unfocus_reqs(a, cw),
            None => Seq::empty(),
        };
        (focus_spec(a, win).0, r0 + focus_spec(a, win).1)
    } else if a.runtime.cur_ws().clients.len() == 0 {
        (a, seq![Request::Focus { win: a.core.root_win }, Request::DeleteProperty { win: a.core.root_win, property: a.atoms.net_active_window }])
    } else {
        (a, Seq::empty())
    }
}

/// The pointer entered a window: unfocus the focused client and focus the
/// window; on the root window with an empty current workspace, focus the
/// root and clear the active window.
pub fn enter_notify(app: &mut Application, win: u64, reqs: &mut Vec<Request>)
    requires
        old(app)@.wf(),
        win != old(app)@.core.root_win ==> focus_ok(old(app)@, win),
    ensures
        final(app)@.config == old(app)@.config,
        final(app)@ == enter_spec(old(app)@, win).0,
        final(reqs)@ == old(reqs)@ + enter_spec(old(app)@, win).1,
        final(app)@.wf(),
{
    let ghost a = app@;
    proof {
        lemma_wf_current_ok(a.runtime);
        lemma_runtime_view(&app.runtime, a.runtime.current_screen as int, a.runtime.current_workspace as int);
    }
    if win != app.core.root_win {
        if let Some(cw) = get_current_client_id(app) {
            unfocus(app, cw, reqs);
        }
        focus(app, win, reqs);
        proof {
            assert(reqs@ =~= old(reqs)@ + enter_spec(a, win).1);
        }
    } else {
        if app.runtime.screens[app.runtime.current_screen].workspaces[app.runtime.current_workspace].clients.len() == 0 {
            reqs.push(Request::Focus { win: app.core.root_win });
            reqs.push(Request::DeleteProperty { win: app.core.root_win, property: app.atoms.net_active_window });
        }
        proof {
            assert(reqs@ =~= old(reqs)@ + enter_spec(a, win).1);
        }
    }
}

/// A window was destroyed: forget it.
pub fn destroy_notify(app: &mut Application, win: u64, reqs: &mut Vec<Request>)
    requires
        unmanage_ok(old(app)@, win),
    ensures
        final(app)@.config == old(app)@.config,
        final(app)@ == unmanage_spec(old(app)@, win).0,
        final(reqs)@ == old(reqs)@ + unmanage_spec(old(app)@, win).1,
        final(app)@.wf(),
{
    unmanage_window(app, win, reqs);
}

/// State and requests of `unmap_notify`.
pub open spec fn unmap_spec(a: AppV, win: u64, send_event: bool) -> (AppV, Seq<Request>) {
    if managed(a.runtime, win) {
        if send_event {
            (a, seq![Request::SetWmState { win, state: 0 }])
        } else {
            unmanage_spec(a, win)
        }
    } else {
        (a, Seq::empty())
    }
}

/// A managed window was unmapped: a synthetic unmap (`send_event`) only
/// withdraws its `WM_STATE`; a real one forgets the window.
pub fn unmap_notify(app: &mut Application, win: u64, send_event: bool, reqs: &mut Vec<Request>)
    requires
        old(app)@.wf(),
        !send_event ==> unmanage_ok(old(app)@, win),
    ensures
        final(app)@.config == old(app)@.config,
        final(app)@ == unmap_spec(old(app)@, win, send_event).0,
        final(reqs)@ == old(reqs)@ + unmap_spec(old(app)@, win, send_event).1,
        final(app)@.wf(),
{
    let ghost a = app@;
    if find_window_indexes(app, win).is_some() {
        if send_event {
            reqs.push(Request::SetWmState { win, state: 0 });
            proof {
                assert(reqs@ =~= old(reqs)@ + unmap_spec(a, win, send_event).1);
            }
        } else {
            unmanage_window(app, win, reqs);
        }
    } else {
        proof {
            assert(reqs@ =~= old(reqs)@ + unmap_spec(a, win, send_event).1);
        }
    }
}

// ---------------------------------------------------------------------------
// Pointer
// ---------------------------------------------------------------------------

/// State and requests of `motion_notify`.
pub open spec fn motion_spec(a: AppV, window: u64, x_root: i32, y_root: i32) -> (AppV, Seq<Request>) {
    let (a1, r1) = if a.runtime.mouse_state.button == BUTTON_MOVE {
        drag_spec(a, x_root, y_root)
    } else {
        (a, Seq::empty())
    };
    let (a2, r2) = if a1.runtime.mouse_state.button == BUTTON_RESIZE {
        resize_spec(a1, x_root, y_root)
    } else {
        (a1, Seq::empty())
    };
    let (a3, r3) = if window == a2.core.root_win {
        follow_spec(a2, x_root, y_root)
    } else {
        (a2, Seq::empty())
    };
    (a3, r1 + r2 + r3)
}

/// The pointer moved: drag or resize the window held with the move or
/// resize button, and follow the pointer across screens when it is over
/// the root window.
pub fn motion_notify(app: &mut Application, window: u64, x_root: i32, y_root: i32, reqs: &mut Vec<Request>)
    requires
        old(app)@.wf(),
    ensures
        final(app)@.config == old(app)@.config,
        final(app)@ == motion_spec(old(app)@, window, x_root, y_root).0,
        final(reqs)@ == old(reqs)@ + motion_spec(old(app)@, window, x_root, y_root).1,
        final(app)@.shape_wf(),
        old(app)@.runtime.mouse_state.button != BUTTON_MOVE || drag_keeps_wf(old(app)@, x_root, y_root) ==> final(app)@.wf(),
{
    let ghost a = app@;
    if app.runtime.mouse_state.button == BUTTON_MOVE {
        move_mouse(app, x_root, y_root, reqs);
    }
    let ghost a1 = app@;
    let ghost r1 = reqs@;
    if app.runtime.mouse_state.button == BUTTON_RESIZE {
        proof {
            assert(a1 == a);
        }
        resize_mouse(app, x_root, y_root, reqs);
    }
    let ghost r2 = reqs@;
    if window == app.core.root_win {
        screen_mouse(app, x_root, y_root, reqs);
    }
    proof {
        assert(reqs@ =~= old(reqs)@ + motion_spec(a, window, x_root, y_root).1);
    }
}

/// State and requests of `button_press`.
pub open spec fn button_press_spec(a: AppV, window: u64, button: u32, x_root: i32, y_root: i32, x: i32, y: i32) -> (AppV, Seq<Request>) {
    match window_pos(a.runtime, window) {
        Some((s, w, c)) => {
            let cl = a.runtime.client(s as int, w as int, c as int);
            if cl.floating {
                if button == BUTTON_RESIZE {
                    let pos = (
                        i32_specs::wrapping_add(i32_specs::wrapping_sub(x_root, x), cl.w as i32) as i64,
                        i32_specs::wrapping_add(i32_specs::wrapping_sub(y_root, y), cl.h as i32) as i64,
                    );
                    (
                        AppV { runtime: RuntimeV { mouse_state: MouseState { win: window, button, pos }, ..a.runtime }, ..a },
                        seq![Request::WarpPointer { win: window, x: cl.w as i32, y: cl.h as i32 }],
                    )
                } else {
                    (
                        AppV {
                            runtime: RuntimeV {
                                mouse_state: MouseState { win: window, button, pos: (x_root as i64, y_root as i64) },
                                ..a.runtime
                            },
                            ..a
                        },
                        Seq::empty(),
                    )
                }
            } else {
                (a, Seq::empty())
            }
        },
        None => (a, Seq::empty()),
    }
}

/// A button was pressed on a window (`x_root`, `y_root` on the screen,
/// `x`, `y` in the window): on a floating client, remember the window, the
/// button and the pointer; for the resize button, warp the pointer to the
/// window's lower right corner and remember that position instead.
pub fn button_press(app: &mut Application, window: u64, button: u32, x_root: i32, y_root: i32, x: i32, y: i32, reqs: &mut Vec<Request>)
    requires
        old(app)@.wf(),
    ensures
        final(app)@.config == old(app)@.config,
        final(app)@ == button_press_spec(old(app)@, window, button, x_root, y_root, x, y).0,
        final(reqs)@ == old(reqs)@ + button_press_spec(old(app)@, window, button, x_root, y_root, x, y).1,
        final(app)@.wf(),
{
    let ghost a = app@;
    if let Some((s, w, c)) = find_window_indexes(app, window) {
        proof {
            lemma_window_pos_spec(a.runtime, window);
            lemma_runtime_view(&app.runtime, s as int, w as int);
        }
        let floating = app.runtime.screens[s].workspaces[w].clients[c].floating;
        let cw = app.runtime.screens[s].workspaces[w].clients[c].w;
        let ch = app.runtime.screens[s].workspaces[w].clients[c].h;
        if floating {
            app.runtime.mouse_state = MouseState { win: window, button, pos: (x_root as i64, y_root as i64) };
            if button == BUTTON_RESIZE {
                reqs.push(Request::WarpPointer { win: window, x: cw as i32, y: ch as i32 });
                app.runtime.mouse_state.pos = (
                    x_root.wrapping_sub(x).wrapping_add(cw as i32) as i64,
                    y_root.wrapping_sub(y).wrapping_add(ch as i32) as i64,
                );
            }
            proof {
                assert(app@ =~~= button_press_spec(a, window, button, x_root, y_root, x, y).0);
                assert(reqs@ =~= old(reqs)@ + button_press_spec(a, window, button, x_root, y_root, x, y).1);
                assert(crate::structs::screens_client_count(app@.runtime.screens) == crate::structs::screens_client_count(a.runtime.screens));
            }
        } else {
            proof {
                assert(reqs@ =~= old(reqs)@ + button_press_spec(a, window, button, x_root, y_root, x, y).1);
            }
        }
    } else {
        proof {
            assert(reqs@ =~= old(reqs)@ + button_press_spec(a, window, button, x_root, y_root, x, y).1);
        }
    }
}

/// A button was released: stop dragging.
pub fn button_release(app: &mut Application)
    requires
        old(app)@.wf(),
    ensures
        final(app)@.config == old(app)@.config,
        final(app)@ == (AppV {
            runtime: RuntimeV { mouse_state: MouseState { win: 0, button: 0, pos: (0, 0) }, ..old(app)@.runtime },
            ..old(app)@
        }),
        final(app)@.wf(),
{
    let ghost a = app@;
    app.runtime.mouse_state = MouseState { win: 0, button: 0, pos: (0, 0) };
    proof {
        assert(app@ =~~= AppV { runtime: RuntimeV { mouse_state: MouseState { win: 0, button: 0, pos: (0, 0) }, ..a.runtime }, ..a });
        assert(crate::structs::screens_client_count(app@.runtime.screens) == crate::structs::screens_client_count(a.runtime.screens));
    }
}


// ---------------------------------------------------------------------------
// Properties, screens and messages
// ---------------------------------------------------------------------------

/// A property of a window changed: for a window other than the root,
/// store its name, given its `_NET_WM_NAME` text.
pub fn property_notify(app: &mut Application, window: u64, name: Option<String>)
    requires
        old(app)@.wf(),
    ensures
        final(app)@.config == old(app)@.config,
        window != old(app)@.core.root_win ==> exists|n: String| n@ == name_or_default(name) && final(app)@ == name_set(old(app)@, window, n),
        window == old(app)@.core.root_win ==> final(app)@ == old(app)@,
        final(app)@.wf(),
{
    if window != app.core.root_win {
        update_client_name(app, window, name);
    }
}

/// The root window was reconfigured: follow the screens the server reports
/// now (see `update_screens`); other windows change nothing.
pub fn configure_notify(app: &mut Application, window: u64, infos: &Vec<ScreenInfo>, reqs: &mut Vec<Request>)
    requires
        old(app)@.wf(),
        window == old(app)@.core.root_win ==> infos@.len() > 0,
    ensures
        final(app)@.config == old(app)@.config,
        window == old(app)@.core.root_win ==> final(app)@ == (AppV {
            runtime: RuntimeV { screens: screens_updated(old(app)@.runtime.screens, infos@), ..old(app)@.runtime },
            ..old(app)@
        }) && final(reqs)@ == old(reqs)@ + shrink_reqs(old(app)@.runtime.screens, infos@.len() as int, old(app)@.atoms.net_wm_desktop),
        window != old(app)@.core.root_win ==> final(app)@ == old(app)@ && final(reqs)@ == old(reqs)@,
        infos@.len() <= old(app)@.runtime.screens.len() ==> final(app)@.runtime.client_count() == old(app)@.runtime.client_count(),
        window == old(app)@.core.root_win && infos@.len() <= old(app)@.runtime.screens.len() && crate::screens::infos_numbered(infos@)
            && old(app)@.runtime.current_screen < infos@.len() ==> final(app)@.wf(),
{
    if window == app.core.root_win {
        update_screens(app, infos, reqs);
    }
}

/// State and requests of a fullscreen request on client `(s, w, c)`: with
/// `data[0]` 1 (or 2 while fullscreen, which leaves it so) the client goes
/// fullscreen and the state property lists fullscreen; otherwise a
/// fullscreen client leaves fullscreen and the state property is emptied;
/// then the current workspaces are retiled and the current one shown.
pub open spec fn fullscreen_spec(a: AppV, s: int, w: int, c: int, window: u64, data: Seq<i64>) -> (AppV, Seq<Request>) {
    let cl = a.runtime.client(s, w, c);
    let sf = data[0] == 1 || data[0] == 2 && cl.fullscreen;
    let (a1, r1) = if sf && !cl.fullscreen {
        (
            AppV { runtime: a.runtime.with_client(s, w, c, Client { fullscreen: true, ..cl }), ..a },
            seq![Request::SetProperty { win: window, property: a.atoms.net_wm_state, kind: PropertyKind::Atom, value: a.atoms.net_wm_fullscreen }],
        )
    } else if !sf && cl.fullscreen {
        (
            AppV { runtime: a.runtime.with_client(s, w, c, Client { fullscreen: false, ..cl }), ..a },
            seq![Request::ClearProperty { win: window, property: a.atoms.net_wm_state, kind: PropertyKind::Atom }],
        )
    } else {
        (a, Seq::empty())
    };
    let (a2, r2) = retiled_spec(a1);
    (a2, r1 + r2)
}

/// State and requests of `client_message`.
pub open spec fn client_message_spec(a: AppV, window: u64, message_type: u64, data: Seq<i64>) -> (AppV, Seq<Request>) {
    match window_pos(a.runtime, window) {
        Some((s, w, c)) => if message_type == a.atoms.net_wm_state && (data[1] as u64 == a.atoms.net_wm_fullscreen
            || data[2] as u64 == a.atoms.net_wm_fullscreen) {
            fullscreen_spec(a, s as int, w as int, c as int, window, data)
        } else {
            (a, Seq::empty())
        },
        None => if message_type == a.atoms.net_current_desktop {
            focus_on_workspace_spec(a, data[0] as u64, false)
        } else {
            (a, Seq::empty())
        },
    }
}

/// `client_message` can run: a desktop switch names an existing screen.
pub open spec fn client_message_ok(a: AppV, window: u64, message_type: u64, data: Seq<i64>) -> bool {
    &&& a.wf()
    &&& window_pos(a.runtime, window) is None && message_type == a.atoms.net_current_desktop ==> focus_on_workspace_ok(
        a,
        data[0] as u64,
        false,
    )
}

/// A client message arrived: a managed window's `_NET_WM_STATE` request
/// about fullscreen sets or clears fullscreen (see `fullscreen_spec`); a
/// `_NET_CURRENT_DESKTOP` request about another window switches to that
/// EWMH desktop.
pub fn client_message(app: &mut Application, window: u64, message_type: u64, data: [i64; 5], reqs: &mut Vec<Request>)
    requires
        client_message_ok(old(app)@, window, message_type, data@),
    ensures
        final(app)@.config == old(app)@.config,
        final(app)@ == client_message_spec(old(app)@, window, message_type, data@).0,
        final(reqs)@ == old(reqs)@ + client_message_spec(old(app)@, window, message_type, data@).1,
        final(app)@.wf(),
{
    let ghost a = app@;
    if let Some((s, w, c)) = find_window_indexes(app, window) {
        proof {
            lemma_window_pos_spec(a.runtime, window);
        }
        if message_type == app.atoms.net_wm_state {
            if data[1] as u64 == app.atoms.net_wm_fullscreen || data[2] as u64 == app.atoms.net_wm_fullscreen {
                set_fullscreen(app, s, w, c, window, data, reqs);
            }
        }
    } else {
        if message_type == app.atoms.net_current_desktop {
            focus_on_workspace(app, data[0] as u64, false, reqs);
        }
    }
}

/// Carry out a fullscreen request on client `(s, w, c)` (see `fullscreen_spec`).
fn set_fullscreen(app: &mut Application, s: usize, w: usize, c: usize, window: u64, data: [i64; 5], reqs: &mut Vec<Request>)
    requires
        old(app)@.wf(),
        old(app)@.runtime.valid_pos(s as int, w as int, c as int),
    ensures
        final(app)@.config == old(app)@.config,
        final(app)@ == fullscreen_spec(old(app)@, s as int, w as int, c as int, window, data@).0,
        final(reqs)@ == old(reqs)@ + fullscreen_spec(old(app)@, s as int, w as int, c as int, window, data@).1,
        final(app)@.wf(),
{
    let ghost a = app@;
    proof {
        lemma_runtime_view(&app.runtime, s as int, w as int);
        lemma_wf_parts(a.runtime, s as int, w as int);
    }
    let fs = app.runtime.screens[s].workspaces[w].clients[c].fullscreen;
    let sf = data[0] == 1 || data[0] == 2 && fs;
    if sf && !fs || !sf && fs {
        if sf {
            reqs.push(Request::SetProperty {
                win: window,
                property: app.atoms.net_wm_state,
                kind: PropertyKind::Atom,
                value: app.atoms.net_wm_fullscreen,
            });
        } else {
            reqs.push(Request::ClearProperty { win: window, property: app.atoms.net_wm_state, kind: PropertyKind::Atom });
        }
        let ghost before_rt = app.runtime;
        app.runtime.screens[s].workspaces[w].clients[c].fullscreen = sf;
        proof {
            lemma_client_changed(before_rt, app.runtime, s as int, w as int, c as int);
            let ws = a.runtime.ws(s as int, w as int);
            let ws2 = WorkspaceV { clients: ws.clients.update(c as int, Client { fullscreen: sf, ..ws.clients[c as int] }), ..ws };
            assert(app@.runtime =~~= a.runtime.with_ws(s as int, w as int, ws2));
            crate::structs::lemma_with_ws_wf(a.runtime, s as int, w as int, ws2);
        }
    }
    let ghost a1 = app@;
    arrange_current(app);
    let ghost a2 = app@;
    let cs = app.runtime.current_screen;
    let cw = app.runtime.current_workspace;
    proof {
        lemma_layout_only(a1, a2);
        lemma_wf_current_ok(a2.runtime);
    }
    show_workspace(app, cs, cw, reqs);
    proof {
        lemma_layout_ops(a2, cs as int, cw as int);
        lemma_layout_only(a2, app@);
        assert(app@ =~~= fullscreen_spec(a, s as int, w as int, c as int, window, data@).0);
        assert(reqs@ =~= old(reqs)@ + fullscreen_spec(a, s as int, w as int, c as int, window, data@).1);
    }
}

/// Bits of a configure request's value mask.
pub const CW_X: u64 = 1;
pub const CW_Y: u64 = 2;
pub const CW_WIDTH: u64 = 4;
pub const CW_HEIGHT: u64 = 8;

/// Half of `v`, rounded toward zero.
pub open spec fn half(v: i32) -> i32 {
    if v >= 0 {
        (v as int / 2) as i32
    } else {
        (-((-(v as int)) / 2)) as i32
    }
}

/// Halve rounding toward zero.
fn halve(v: i32) -> (r: i32)
    ensures
        r == half(v),
{
    match v.checked_div(2) {
        Some(q) => q,
        None => 0,
    }
}

/// What a configure request asks.
#[derive(Clone, Copy, Debug)]
pub struct ConfigureRequest {
    pub value_mask: u64,
    pub x: i32,
    pub y: i32,
    pub width: i32,
    pub height: i32,
    pub border_width: i32,
    pub above: u64,
    pub detail: i32,
}

/// State and requests of `configure_request`: a floating client takes the
/// requested size and is centred on its screen below the top dock (when
/// anything was requested); a tiled client is left alone; a window that is
/// not managed gets its request forwarded unchanged.
pub open spec fn configure_request_spec(a: AppV, window: u64, cr: ConfigureRequest) -> (AppV, Seq<Request>) {
    match window_pos(a.runtime, window) {
        Some((s0, w0, c0)) => {
            let (s, w, c) = (s0 as int, w0 as int, c0 as int);
            let cl = a.runtime.client(s, w, c);
            let sc = a.runtime.screens[s];
            let m = cr.value_mask;
            let resized = m & CW_WIDTH != 0 || m & CW_HEIGHT != 0 || m & CW_X != 0 || m & CW_Y != 0;
            if cl.floating && resized {
                let nw = if m & CW_WIDTH != 0 { cr.width as u32 } else { cl.w };
                let nh = if m & CW_HEIGHT != 0 { cr.height as u32 } else { cl.h };
                let nx = i32_specs::wrapping_add(half(i32_specs::wrapping_sub(sc.width as i32, nw as i32)), sc.x as i32);
                let ny = i32_specs::wrapping_add(
                    half(i32_specs::wrapping_sub(i32_specs::wrapping_sub(sc.height as i32, sc.bar_offsets.up as i32), nh as i32)),
                    sc.y as i32,
                );
                (
                    AppV { runtime: a.runtime.with_client(s, w, c, Client { x: nx, y: ny, w: nw, h: nh, ..cl }), ..a },
                    seq![Request::MoveResize { win: cl.window_id, x: nx, y: ny, width: nw, height: nh }],
                )
            } else {
                (a, Seq::empty())
            }
        },
        None => (
            a,
            seq![Request::Configure {
                win: window,
                value_mask: cr.value_mask,
                x: cr.x,
                y: cr.y,
                width: cr.width,
                height: cr.height,
                border_width: cr.border_width,
                sibling: cr.above,
                stack_mode: cr.detail,
            }],
        ),
    }
}

/// A window asks to be configured (see `configure_request_spec`).
pub fn configure_request(app: &mut Application, window: u64, cr: ConfigureRequest, reqs: &mut Vec<Request>)
    requires
        old(app)@.wf(),
    ensures
        final(app)@.config == old(app)@.config,
        final(app)@ == configure_request_spec(old(app)@, window, cr).0,
        final(reqs)@ == old(reqs)@ + configure_request_spec(old(app)@, window, cr).1,
        final(app)@.wf(),
{
    let ghost a = app@;
    if let Some((s, w, c)) = find_window_indexes(app, window) {
        proof {
            lemma_window_pos_spec(a.runtime, window);
            lemma_runtime_view(&app.runtime, s as int, w as int);
            lemma_wf_parts(a.runtime, s as int, w as int);
            assert(crate::structs::screen_shape_wf(a.runtime.screens[s as int], s as int));
        }
        let sx = app.runtime.screens[s].x as i32;
        let sy = app.runtime.screens[s].y as i32;
        let sw = app.runtime.screens[s].width as i32;
        let sh = app.runtime.screens[s].height as i32;
        let up = app.runtime.screens[s].bar_offsets.up as i32;
        let m = cr.value_mask;
        let floating = app.runtime.screens[s].workspaces[w].clients[c].floating;
        let resized = m & CW_WIDTH != 0 || m & CW_HEIGHT != 0 || m & CW_X != 0 || m & CW_Y != 0;
        if floating && resized {
            let nw = if m & CW_WIDTH != 0 { cr.width as u32 } else { app.runtime.screens[s].workspaces[w].clients[c].w };
            let nh = if m & CW_HEIGHT != 0 { cr.height as u32 } else { app.runtime.screens[s].workspaces[w].clients[c].h };
            let nx = halve(sw.wrapping_sub(nw as i32)).wrapping_add(sx);
            let ny = halve(sh.wrapping_sub(up).wrapping_sub(nh as i32)).wrapping_add(sy);
            let win = app.runtime.screens[s].workspaces[w].clients[c].window_id;
            let ghost before_rt = app.runtime;
            app.runtime.screens[s].workspaces[w].clients[c].w = nw;
            app.runtime.screens[s].workspaces[w].clients[c].h = nh;
            app.runtime.screens[s].workspaces[w].clients[c].x = nx;
            app.runtime.screens[s].workspaces[w].clients[c].y = ny;
            proof {
                lemma_client_changed(before_rt, app.runtime, s as int, w as int, c as int);
                let ws = a.runtime.ws(s as int, w as int);
                let ws2 = WorkspaceV {
                    clients: ws.clients.update(c as int, Client { x: nx, y: ny, w: nw, h: nh, ..ws.clients[c as int] }),
                    ..ws
                };
                assert(app@.runtime =~~= a.runtime.with_ws(s as int, w as int, ws2));
                crate::structs::lemma_with_ws_wf(a.runtime, s as int, w as int, ws2);
                assert(app@ =~~= configure_request_spec(a, window, cr).0);
            }
            reqs.push(Request::MoveResize { win, x: nx, y: ny, width: nw, height: nh });
            proof {
                assert(reqs@ =~= old(reqs)@ + configure_request_spec(a, window, cr).1);
            }
        } else {
            proof {
                assert(reqs@ =~= old(reqs)@ + configure_request_spec(a, window, cr).1);
            }
        }
    } else {
        reqs.push(Request::Configure {
            win: window,
            value_mask: cr.value_mask,
            x: cr.x,
            y: cr.y,
            width: cr.width,
            height: cr.height,
            border_width: cr.border_width,
            sibling: cr.above,
            stack_mode: cr.detail,
        });
        proof {
            assert(reqs@ =~= old(reqs)@ + configure_request_spec(a, window, cr).1);
        }
    }
}

// ---------------------------------------------------------------------------
// Checks a caller makes before an event
// ---------------------------------------------------------------------------

/// Whether the global tracker points at a client of the current workspace
/// (or at none), for a well-formed state.
pub fn tracker_valid(app: &Application) -> (r: bool)
    requires
        app@.wf(),
    ensures
        r == app@.runtime.current_client_ok(),
{
    proof {
        lemma_wf_current_ok(app@.runtime);
        lemma_runtime_view(&app.runtime, app@.runtime.current_screen as int, app@.runtime.current_workspace as int);
    }
    match app.runtime.current_client {
        Some(i) => i < app.runtime.screens[app.runtime.current_screen].workspaces[app.runtime.current_workspace].clients.len(),
        None => true,
    }
}

/// Whether `focus` may run for the window (see `focus_ok`), for a
/// well-formed state.
pub fn can_focus(app: &Application, win: u64) -> (r: bool)
    requires
        app@.wf(),
    ensures
        r == focus_ok(app@, win),
{
    find_window_indexes(app, win).is_some() || tracker_valid(app)
}

/// Whether key action `i` may run (see `action_ok`), for a well-formed state.
pub fn can_run_action(app: &Application, i: usize) -> (r: bool)
    requires
        app@.wf(),
        i < app@.config.key_actions@.len(),
    ensures
        r == action_ok(app@, i as int),
{
    match &app.config.key_actions[i].result {
        ActionResult::KillClient => tracker_valid(app),
        ActionResult::MoveToScreen(_) => tracker_valid(app),
        ActionResult::MoveToWorkspace(n) => {
            let moves = *n as usize != app.runtime.current_workspace && app.runtime.current_client.is_some();
            tracker_valid(app) && (!moves || (*n as usize) < NUMBER_OF_DESKTOPS)
        },
        ActionResult::FocusOnWorkspace(n) => (*n as usize) < NUMBER_OF_DESKTOPS,
        ActionResult::ToggleFloat => tracker_valid(app),
        _ => true,
    }
}

/// Whether `client_message` may run (see `client_message_ok`), for a
/// well-formed state.
pub fn can_message(app: &Application, window: u64, message_type: u64, data: [i64; 5]) -> (r: bool)
    requires
        app@.wf(),
    ensures
        r == client_message_ok(app@, window, message_type, data@),
{
    if find_window_indexes(app, window).is_none() && message_type == app.atoms.net_current_desktop {
        (data[0] as u64 as usize) / 10 < app.runtime.screens.len() && (data[0] as u64 as usize) % 10 < NUMBER_OF_DESKTOPS
    } else {
        true
    }
}

} // verus!
