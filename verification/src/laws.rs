//! Properties of the window manager that relate several operations.

use vstd::prelude::*;

use crate::helper::{
    current_client_id, first_pos, holds, lemma_exists_first, lemma_window_pos, lemma_window_pos_spec, managed,
    tracked_at, trackers_updated, window_pos,
};
use crate::logic::{
    arranged_current, client_name, float_toggled, focus_on_screen_spec, focus_spec, lemma_arranged_upto, name_set,
    retiled_spec, switched_screen, toggle_float_spec, urgent_set, move_to_workspace_spec, moves_to_workspace,
    shift_spec, out_of_view_req,
};
use crate::helper::{
    arranged, lemma_layout_lookups, lemma_layout_ops, pushed, removed, show_spec, tiled, tiled_clients, tile, tiling,
    current_ok, lemma_removed_wf,
};
use crate::structs::{
    lemma_layout_only, lemma_layout_trans, lemma_with_ws_wf, lemma_wf_parts, layout_only, same_identity,
    screen_layout_only, ws_layout_only, WorkspaceV, screen_shape_wf,
};
use crate::config::NUMBER_OF_DESKTOPS;
use crate::logic::arranged_all_upto;
use crate::manage::{attach_spec, bar_of, bars_without, detach_spec, docks_upto, update_docks_spec, WindowAttributes};
use crate::structs::Bar;
use crate::logic::{focus_on_workspace_spec, switch_workspace_spec, workspace_switched};
use crate::helper::{hide_spec, map_ws_clients, shown, hidden};
use crate::manage::{
    becomes_client, client_added, lemma_dock_offsets_wf, lemma_offsets_only, manage_ok, manage_spec, new_window_client,
    new_window_place, settle_spec,
};
use crate::logic::{arranged_all, lemma_arranged_all_upto};
use crate::structs::{bar_wf, offsets_wf, ScreenV};
use crate::manage::{unmanage_ok, unmanage_spec};
use crate::logic::{carried, move_to_screen_spec, shifted_cc};
use crate::request::Request;
use crate::structs::{AppV, Client, MouseState, RuntimeV, ScreenSwitching};

verus! {

/// The global trackers agree with those of the current screen and workspace
/// (as they do after every focus).
pub open spec fn trackers_agree(rt: RuntimeV) -> bool {
    &&& rt.current_workspace == rt.screens[rt.current_screen as int].current_workspace
    &&& rt.current_client == rt.cur_ws().current_client
}

/// Switching to the next screen and then to the previous one (or the other
/// way round) comes back to the screen one started on, with the screens
/// unchanged; when the global trackers agreed with the screen's, the
/// workspace and client trackers come back too.
pub proof fn law_screen_cycle(a: AppV, d: ScreenSwitching)
    requires
        a.wf(),
    ensures
        ({
            let back = match d {
                ScreenSwitching::Next => ScreenSwitching::Previous,
                ScreenSwitching::Previous => ScreenSwitching::Next,
            };
            let c = focus_on_screen_spec(focus_on_screen_spec(a, d).0, back).0;
            &&& c.runtime.current_screen == a.runtime.current_screen
            &&& c.runtime.screens == a.runtime.screens
            &&& trackers_agree(c.runtime)
            &&& trackers_agree(a.runtime) ==> c.runtime.current_workspace == a.runtime.current_workspace
                && c.runtime.current_client == a.runtime.current_client
        }),
{
    let n = a.runtime.screens.len() as int;
    let cs = a.runtime.current_screen as int;
    assert(0 <= cs < n);
    let b = focus_on_screen_spec(a, d).0;
    let m = switched_screen(cs, n, d);
    assert(0 <= m < n) by {
        match d {
            ScreenSwitching::Next => {
                assert(0 <= (cs + 1) % n < n) by (nonlinear_arith)
                    requires
                        n > 0,
                ;
            },
            ScreenSwitching::Previous => {
                assert(0 <= (cs + n - 1) % n < n) by (nonlinear_arith)
                    requires
                        n > 0,
                ;
            },
        }
    }
    assert(b.runtime.current_screen == m as usize);
    assert(b.runtime.screens == a.runtime.screens);
    crate::helper::lemma_wf_current_ok(a.runtime);
    match d {
        ScreenSwitching::Next => {
            assert((((cs + 1) % n) + n - 1) % n == cs) by (nonlinear_arith)
                requires
                    0 <= cs < n,
            ;
        },
        ScreenSwitching::Previous => {
            assert((((cs + n - 1) % n) + 1) % n == cs) by (nonlinear_arith)
                requires
                    0 <= cs < n,
            ;
        },
    }
}

/// Focusing a managed window makes it the focused client.
pub proof fn law_focus_tracks(a: AppV, win: u64)
    requires
        a.wf(),
        managed(a.runtime, win),
    ensures
        current_client_id(focus_spec(a, win).0.runtime) == Some(win),
{
    lemma_window_pos_spec(a.runtime, win);
    let (s, w, c) = window_pos(a.runtime, win)->0;
    let a1 = urgent_set(a, win, false);
    let cl = a.runtime.client(s as int, w as int, c as int);
    assert(a1.runtime == a.runtime.with_client(s as int, w as int, c as int, Client { urgent: false, ..cl }));
    lemma_same_windows(a.runtime, a1.runtime, win);
    lemma_window_pos(a1.runtime, win, s as int, w as int, c as int);
    assert(trackers_updated(a1, win).runtime == tracked_at(a1.runtime, s as int, w as int, c as int));
}

/// Two states whose clients sit at the same places with the same windows
/// find a window at the same first place.
proof fn lemma_same_windows(r1: RuntimeV, r2: RuntimeV, win: u64)
    requires
        r1.screens.len() == r2.screens.len(),
        forall|s: int| 0 <= s < r1.screens.len() ==> #[trigger] r1.screens[s].workspaces.len() == r2.screens[s].workspaces.len(),
        forall|s: int, w: int| r1.valid_ws(s, w) ==> #[trigger] r1.ws(s, w).clients.len() == r2.ws(s, w).clients.len(),
        forall|s: int, w: int, c: int| r1.valid_pos(s, w, c) ==> #[trigger] r1.client(s, w, c).window_id == r2.client(s, w, c).window_id,
    ensures
        forall|s: int, w: int, c: int| #[trigger] first_pos(r1, win, s, w, c) == first_pos(r2, win, s, w, c),
        window_pos(r1, win) == window_pos(r2, win),
        managed(r1, win) == managed(r2, win),
{
    assert forall|s: int, w: int, c: int| holds(r1, s, w, c, win) == holds(r2, s, w, c, win) by {
        if r1.valid_ws(s, w) {
            assert(r1.ws(s, w).clients.len() == r2.ws(s, w).clients.len());
        }
        if r2.valid_ws(s, w) {
            assert(r1.screens[s].workspaces.len() == r2.screens[s].workspaces.len());
            assert(r1.valid_ws(s, w));
            assert(r1.ws(s, w).clients.len() == r2.ws(s, w).clients.len());
        }
    }
    assert forall|s: int, w: int, c: int| #[trigger] first_pos(r1, win, s, w, c) == first_pos(r2, win, s, w, c) by {
        assert(holds(r1, s, w, c, win) == holds(r2, s, w, c, win));
    }
    if managed(r1, win) {
        let (s, w, c) = choose|s: int, w: int, c: int| holds(r1, s, w, c, win);
        lemma_exists_first(r1, win, s, w, c);
        let (s1, w1, c1) = choose|s: int, w: int, c: int| first_pos(r1, win, s, w, c);
        lemma_window_pos(r1, win, s1, w1, c1);
        lemma_window_pos(r2, win, s1, w1, c1);
        assert(holds(r2, s, w, c, win));
    } else {
        assert(!exists|s: int, w: int, c: int| first_pos(r1, win, s, w, c));
        assert(!exists|s: int, w: int, c: int| first_pos(r2, win, s, w, c));
        if managed(r2, win) {
            let (s, w, c) = choose|s: int, w: int, c: int| holds(r2, s, w, c, win);
            assert(holds(r1, s, w, c, win));
        }
    }
}

/// The name stored for a managed window is the name read back for it.
pub proof fn law_name_read_back(a: AppV, win: u64, name: String)
    requires
        a.wf(),
        managed(a.runtime, win),
    ensures
        client_name(name_set(a, win, name).runtime, win) == name@,
{
    lemma_window_pos_spec(a.runtime, win);
    let (s, w, c) = window_pos(a.runtime, win)->0;
    let b = name_set(a, win, name);
    lemma_same_windows(a.runtime, b.runtime, win);
}


/// Retiling only changes layout and keeps the shape of the state.
proof fn lemma_retiled(a: AppV)
    requires
        a.shape_wf(),
    ensures
        layout_only(a, retiled_spec(a).0),
        retiled_spec(a).0.shape_wf(),
        a.wf() ==> retiled_spec(a).0.wf(),
{
    lemma_arranged_upto(a, a.runtime.screens.len() as int);
    let b = arranged_current(a);
    lemma_layout_only(a, b);
    let s = b.runtime.current_screen as int;
    let w = b.runtime.current_workspace as int;
    assert(screen_shape_wf(b.runtime.screens[s], s));
    lemma_layout_ops(b, s, w);
    let c = retiled_spec(a).0;
    lemma_layout_only(b, c);
    lemma_layout_trans(a, b, c);
    lemma_layout_only(a, c);
}

/// Toggling the focused client's floating twice gives it back its
/// floating state.
pub proof fn law_toggle_float_twice(a: AppV)
    requires
        a.wf(),
        a.runtime.current_client_ok(),
        a.runtime.current_client is Some,
    ensures
        ({
            let b = toggle_float_spec(toggle_float_spec(a).0).0;
            let i = a.runtime.current_client->0 as int;
            &&& b.runtime.current_client == a.runtime.current_client
            &&& b.runtime.current_screen == a.runtime.current_screen
            &&& b.runtime.current_workspace == a.runtime.current_workspace
            &&& b.runtime.cur_ws().clients[i].floating == a.runtime.cur_ws().clients[i].floating
            &&& b.runtime.cur_ws().clients[i].window_id == a.runtime.cur_ws().clients[i].window_id
        }),
{
    let i = a.runtime.current_client->0 as int;
    let cs = a.runtime.current_screen as int;
    let cw = a.runtime.current_workspace as int;
    crate::helper::lemma_wf_current_ok(a.runtime);
    lemma_wf_parts(a.runtime, cs, cw);
    let t1 = float_toggled(a);
    let ws = a.runtime.ws(cs, cw);
    let cl = ws.clients[i];
    let ws1 = WorkspaceV { clients: ws.clients.update(i, Client { floating: !cl.floating, border: if !cl.floating { a.config.border_size as u32 } else { 0 }, ..cl }), ..ws };
    assert(t1.runtime == a.runtime.with_ws(cs, cw, ws1));
    lemma_with_ws_wf(a.runtime, cs, cw, ws1);
    lemma_retiled(t1);
    let b1 = retiled_spec(t1).0;
    assert(toggle_float_spec(a).0 == b1);
    lemma_layout_lookups(t1, b1, 0);
    assert(screen_layout_only(t1.runtime.screens[cs], b1.runtime.screens[cs]));
    assert(ws_layout_only(t1.runtime.screens[cs].workspaces[cw], b1.runtime.screens[cs].workspaces[cw]));
    assert(same_identity(t1.runtime.cur_ws().clients[i], b1.runtime.cur_ws().clients[i]));
    crate::helper::lemma_wf_current_ok(b1.runtime);
    lemma_wf_parts(b1.runtime, cs, cw);
    let t2 = float_toggled(b1);
    let wsb = b1.runtime.ws(cs, cw);
    let clb = wsb.clients[i];
    let ws2 = WorkspaceV { clients: wsb.clients.update(i, Client { floating: !clb.floating, border: if !clb.floating { a.config.border_size as u32 } else { 0 }, ..clb }), ..wsb };
    assert(t2.runtime == b1.runtime.with_ws(cs, cw, ws2));
    lemma_with_ws_wf(b1.runtime, cs, cw, ws2);
    lemma_retiled(t2);
    let b2 = retiled_spec(t2).0;
    assert(screen_layout_only(t2.runtime.screens[cs], b2.runtime.screens[cs]));
    assert(ws_layout_only(t2.runtime.screens[cs].workspaces[cw], b2.runtime.screens[cs].workspaces[cw]));
    assert(same_identity(t2.runtime.cur_ws().clients[i], b2.runtime.cur_ws().clients[i]));
}

/// Moving the focused client to another workspace puts it on top of that
/// workspace's stack.
pub proof fn law_move_lands_on_top(a: AppV, n: u64)
    requires
        a.wf(),
        a.runtime.current_client_ok(),
        moves_to_workspace(a, n),
        (n as usize) < NUMBER_OF_DESKTOPS,
    ensures
        ({
            let b = move_to_workspace_spec(a, n).0;
            let cs = a.runtime.current_screen as int;
            let ws = b.runtime.ws(cs, (n as usize) as int);
            &&& ws.clients.len() > 0
            &&& ws.clients.last().window_id == a.runtime.cur_ws().clients[a.runtime.current_client->0 as int].window_id
        }),
{
    let rt = a.runtime;
    let index = rt.current_client->0 as int;
    let cs = rt.current_screen as int;
    let cw = rt.current_workspace as int;
    let nw = (n as usize) as int;
    crate::helper::lemma_wf_current_ok(rt);
    let client = rt.cur_ws().clients[index];
    let a1 = removed(a, cs, cw, index);
    lemma_removed_wf(a, cs, cw, index);
    lemma_arranged_upto(a1, a1.runtime.screens.len() as int);
    let a2 = arranged_current(a1);
    lemma_layout_only(a1, a2);
    assert(screen_shape_wf(a2.runtime.screens[cs], cs));
    lemma_layout_ops(a2, cs, cw);
    let a3 = show_spec(a2, cs, cw).0;
    lemma_layout_only(a2, a3);
    let a4 = shift_spec(a3, None, None).0;
    assert(screen_shape_wf(a3.runtime.screens[cs], cs));
    assert(a4.runtime.screens.len() == a3.runtime.screens.len());
    assert(a4.runtime.screens[cs].workspaces.len() == a3.runtime.screens[cs].workspaces.len());
    let moved = Client { visible: !client.visible, ..client };
    let a5 = pushed(a4, cs, nw, moved);
    assert(a5.runtime.valid_ws(cs, nw));
    let cs5 = a5.runtime.ws(cs, nw).clients;
    assert(cs5.last() == moved);
    let a6 = arranged(a5, cs, nw);
    let t = tiling(a5.runtime.screens[cs], a5.runtime.ws(cs, nw), a5.config.gap_width, a5.config.border_size);
    assert(a6.runtime.ws(cs, nw).clients == tiled_clients(cs5, t));
    let k = cs5.len() - 1;
    assert(tiled_clients(cs5, t)[k].window_id == cs5[k].window_id);
}

/// Tiling never touches the docks.
proof fn lemma_arranged_all_bars(a: AppV, n: int, m: int)
    ensures
        arranged_all_upto(a, n, m).runtime.bars == a.runtime.bars,
    decreases n, m,
{
    if m > 0 {
        lemma_arranged_all_bars(a, n, m - 1);
    } else if n > 0 {
        lemma_arranged_all_bars(a, n - 1, NUMBER_OF_DESKTOPS as int);
    }
}

/// Recomputing the docks keeps the list of docks.
proof fn lemma_update_docks_bars(a: AppV)
    ensures
        update_docks_spec(a).0.runtime.bars == a.runtime.bars,
{
    let d = docks_upto(a, a.runtime.bars.len() as int);
    lemma_arranged_all_bars(d, d.runtime.screens.len() as int, 0);
}

/// Leaving out the docks of a window that has none keeps them all.
proof fn lemma_without_absent(bars: Seq<Bar>, win: u64)
    requires
        forall|b: int| 0 <= b < bars.len() ==> #[trigger] bars[b].window_id != win,
    ensures
        bars_without(bars, win) == bars,
    decreases bars.len(),
{
    reveal(Seq::filter);
    if bars.len() > 0 {
        lemma_without_absent(bars.drop_last(), win);
        assert(bars.drop_last().push(bars.last()) =~= bars);
    }
}

/// Attaching a dock for a window that had none and detaching it again
/// gives back the docks one started with.
pub proof fn law_attach_detach(a: AppV, wa: WindowAttributes, win: u64)
    requires
        forall|b: int| 0 <= b < a.runtime.bars.len() ==> #[trigger] a.runtime.bars[b].window_id != win,
    ensures
        detach_spec(attach_spec(a, wa, win).0, win).0.runtime.bars == a.runtime.bars,
{
    let a1 = AppV { runtime: RuntimeV { bars: a.runtime.bars.push(bar_of(wa, win)), ..a.runtime }, ..a };
    lemma_update_docks_bars(a1);
    let b = attach_spec(a, wa, win).0;
    assert(b.runtime.bars == a.runtime.bars.push(bar_of(wa, win)));
    reveal(Seq::filter);
    lemma_without_absent(a.runtime.bars, win);
    assert(a.runtime.bars.push(bar_of(wa, win)).drop_last() =~= a.runtime.bars);
    assert(bars_without(b.runtime.bars, win) == a.runtime.bars);
    let b2 = AppV { runtime: RuntimeV { bars: bars_without(b.runtime.bars, win), ..b.runtime }, ..b };
    lemma_update_docks_bars(b2);
}

/// No window is managed at two places.
pub open spec fn windows_unique(rt: RuntimeV) -> bool {
    forall|s1: int, w1: int, c1: int, s2: int, w2: int, c2: int|
        #![trigger rt.client(s1, w1, c1), rt.client(s2, w2, c2)]
        rt.valid_pos(s1, w1, c1) && rt.valid_pos(s2, w2, c2) && rt.client(s1, w1, c1).window_id == rt.client(s2, w2, c2).window_id
            ==> s1 == s2 && w1 == w2 && c1 == c2
}

/// With unique windows, a managed window's place is where it is.
proof fn lemma_unique_pos(rt: RuntimeV, s: int, w: int, c: int)
    requires
        windows_unique(rt),
        rt.valid_pos(s, w, c),
    ensures
        window_pos(rt, rt.client(s, w, c).window_id) == Some((s as usize, w as usize, c as usize)),
{
    let win = rt.client(s, w, c).window_id;
    assert forall|s2: int, w2: int, c2: int| holds(rt, s2, w2, c2, win) implies !crate::helper::lex_before(s2, w2, c2, s, w, c) by {
        assert(rt.client(s2, w2, c2).window_id == rt.client(s, w, c).window_id);
    }
    assert(first_pos(rt, win, s, w, c));
    lemma_window_pos(rt, win, s, w, c);
}

/// Switching to another workspace of the current screen shows all its
/// windows and hides all windows of the workspace that was current.
pub proof fn law_switch_shows_and_hides(a: AppV, n: u64)
    requires
        a.wf(),
        windows_unique(a.runtime),
        (n as usize) < NUMBER_OF_DESKTOPS,
        (n as usize) != a.runtime.current_workspace,
    ensures
        ({
            let b = focus_on_workspace_spec(a, n, true).0;
            let cs = a.runtime.current_screen as int;
            let cw = a.runtime.current_workspace as int;
            let nw = (n as usize) as int;
            &&& b.runtime.current_screen == a.runtime.current_screen
            &&& b.runtime.current_workspace == n as usize
            &&& b.runtime.ws(cs, nw).clients.len() == a.runtime.ws(cs, nw).clients.len()
            &&& b.runtime.ws(cs, cw).clients.len() == a.runtime.ws(cs, cw).clients.len()
            &&& forall|c: int| 0 <= c < b.runtime.ws(cs, nw).clients.len() ==> (#[trigger] b.runtime.ws(cs, nw).clients[c]).visible
            &&& forall|c: int| 0 <= c < b.runtime.ws(cs, cw).clients.len() ==> !(#[trigger] b.runtime.ws(cs, cw).clients[c]).visible
        }),
{
    let cs = a.runtime.current_screen as int;
    let cw = a.runtime.current_workspace as int;
    let nw = (n as usize) as int;
    crate::helper::lemma_wf_current_ok(a.runtime);
    assert(screen_shape_wf(a.runtime.screens[cs], cs));
    let a3 = workspace_switched(a, n);
    assert(forall|s: int, w: int, c: int| a.runtime.valid_pos(s, w, c) <==> #[trigger] a3.runtime.valid_pos(s, w, c));
    assert(forall|s: int, w: int, c: int| a.runtime.valid_pos(s, w, c) ==> #[trigger] a3.runtime.client(s, w, c) == a.runtime.client(s, w, c));
    assert(windows_unique(a3.runtime));
    let a4 = match current_client_id(a3.runtime) {
        Some(id) => focus_spec(a3, id).0,
        None => a3,
    };
    match current_client_id(a3.runtime) {
        Some(id) => {
            let cc = a3.runtime.current_client->0 as int;
            assert(a3.runtime.valid_pos(cs, nw, cc));
            lemma_unique_pos(a3.runtime, cs, nw, cc);
            let a1 = urgent_set(a3, id, false);
            let cl = a3.runtime.client(cs, nw, cc);
            assert(a1.runtime == a3.runtime.with_client(cs, nw, cc, Client { urgent: false, ..cl }));
            lemma_same_windows(a3.runtime, a1.runtime, id);
            assert(a4.runtime.current_screen == cs);
            assert(a4.runtime.current_workspace == nw);
            assert(a4.runtime.ws(cs, nw).clients.len() == a.runtime.ws(cs, nw).clients.len());
            assert(a4.runtime.ws(cs, cw).clients.len() == a.runtime.ws(cs, cw).clients.len());
        },
        None => {},
    }
    assert(focus_on_workspace_spec(a, n, true).0 == switch_workspace_spec(a, n).0);
    let a5 = map_ws_clients(a4, cs, nw, |c: Client| shown(c));
    let a6 = map_ws_clients(a5, cs, cw, |c: Client| hidden(c));
    assert(switch_workspace_spec(a, n).0 == a6);
}

/// Switching to the EWMH desktop a window manager publishes for workspace
/// `k` of screen `s` (the number `s * 10 + k`) makes that workspace the
/// current one of the current screen `s`, and publishes that desktop.
#[verifier::rlimit(40)]
pub proof fn law_desktop_round_trip(a: AppV, s: int, k: int)
    requires
        a.wf(),
        windows_unique(a.runtime),
        0 <= s < a.runtime.screens.len(),
        0 <= k < NUMBER_OF_DESKTOPS,
        s * 10 + k <= usize::MAX,
    ensures
        ({
            let d = (s * 10 + k) as u64;
            let (b, reqs) = focus_on_workspace_spec(a, d, false);
            &&& b.runtime.current_screen == s
            &&& b.runtime.current_workspace == k
            &&& b.runtime.screens[s].current_workspace == k
            &&& reqs.contains(crate::logic::current_desktop_req(a, d))
        }),
{
    let d = (s * 10 + k) as u64;
    assert((d as usize) as int == d);
    assert(d / 10 == s) by (nonlinear_arith)
        requires d == s * 10 + k, 0 <= k < 10, 0 <= s;
    assert((d as usize) / 10 == s);
    assert(d % 10 == k as u64) by (nonlinear_arith)
        requires d == s * 10 + k, 0 <= k < 10, 0 <= s;
    let (a1, r1) = crate::logic::focus_on_screen_index_spec(a, s);
    assert(a1.runtime.screens == a.runtime.screens);
    assert(screen_shape_wf(a.runtime.screens[s], s));
    let m = (k as u64);
    assert(crate::logic::target_workspace(d, false) == m);
    assert(same_windows(a.runtime, a1.runtime));
    lemma_same_windows_unique(a.runtime, a1.runtime);
    if (m as usize) == a1.runtime.current_workspace {
        assert(r1.last() == crate::logic::current_desktop_req(a1, crate::logic::current_desktop(a1.runtime)));
        assert(crate::logic::current_desktop(a1.runtime) == d);
        let (b, reqs) = focus_on_workspace_spec(a, d, false);
        assert(reqs =~= r1 + Seq::<Request>::empty());
        assert(reqs[r1.len() - 1] == r1.last());
    } else {
        let a3 = workspace_switched(a1, m);
        assert(forall|s2: int, w: int, c: int| a1.runtime.valid_pos(s2, w, c) <==> #[trigger] a3.runtime.valid_pos(s2, w, c));
        assert(forall|s2: int, w: int, c: int| a1.runtime.valid_pos(s2, w, c) ==> #[trigger] a3.runtime.client(s2, w, c) == a1.runtime.client(s2, w, c));
        assert(windows_unique(a3.runtime));
        let a4 = match current_client_id(a3.runtime) {
            Some(id) => focus_spec(a3, id).0,
            None => a3,
        };
        match current_client_id(a3.runtime) {
            Some(id) => {
                let cc = a3.runtime.current_client->0 as int;
                lemma_wf_parts(a.runtime, s, k);
                assert(a3.runtime.valid_pos(s, k, cc));
                lemma_unique_pos(a3.runtime, s, k, cc);
                let u = urgent_set(a3, id, false);
                let cl = a3.runtime.client(s, k, cc);
                assert(u.runtime == a3.runtime.with_client(s, k, cc, Client { urgent: false, ..cl }));
                lemma_same_windows(a3.runtime, u.runtime, id);
                assert(a4.runtime.current_screen == s);
                assert(a4.runtime.current_workspace == k);
                assert(a4.runtime.screens[s].current_workspace == k);
            },
            None => {},
        }
        let a5 = map_ws_clients(a4, s, k, |c: Client| shown(c));
        let a6 = map_ws_clients(a5, s, a1.runtime.current_workspace as int, |c: Client| hidden(c));
        assert(switch_workspace_spec(a1, m).0 == a6);
        let desk = vstd::wrapping::u64_specs::wrapping_add(m, (a1.runtime.current_screen * NUMBER_OF_DESKTOPS) as u64);
        assert(desk == d);
        let r2 = switch_workspace_spec(a1, m).1;
        let u = crate::logic::unfocus_current_reqs(a1);
        assert(r2[u.len() as int] == crate::logic::current_desktop_req(a1, desk));
        let (b, reqs) = focus_on_workspace_spec(a, d, false);
        assert(reqs == r1 + r2);
        assert(reqs[(r1.len() + u.len()) as int] == crate::logic::current_desktop_req(a, d));
    }
}

/// The two states hold the same windows at the same places.
pub open spec fn same_windows(r1: RuntimeV, r2: RuntimeV) -> bool {
    &&& r1.screens.len() == r2.screens.len()
    &&& forall|s: int| 0 <= s < r1.screens.len() ==> #[trigger] r1.screens[s].workspaces.len() == r2.screens[s].workspaces.len()
    &&& forall|s: int, w: int| r1.valid_ws(s, w) ==> #[trigger] r1.ws(s, w).clients.len() == r2.ws(s, w).clients.len()
    &&& forall|s: int, w: int, c: int| r1.valid_pos(s, w, c) ==> #[trigger] r1.client(s, w, c).window_id == r2.client(s, w, c).window_id
}

/// States with the same windows at the same places agree on uniqueness.
proof fn lemma_same_windows_unique(r1: RuntimeV, r2: RuntimeV)
    requires
        same_windows(r1, r2),
        windows_unique(r1),
    ensures
        windows_unique(r2),
{
    assert forall|s1: int, w1: int, c1: int, s2: int, w2: int, c2: int|
        r2.valid_pos(s1, w1, c1) && r2.valid_pos(s2, w2, c2) && #[trigger] r2.client(s1, w1, c1).window_id == #[trigger] r2.client(s2, w2, c2).window_id
        implies s1 == s2 && w1 == w2 && c1 == c2 by {
        assert(r1.screens[s1].workspaces.len() == r2.screens[s1].workspaces.len());
        assert(r1.screens[s2].workspaces.len() == r2.screens[s2].workspaces.len());
        assert(r1.valid_ws(s1, w1) && r1.valid_ws(s2, w2));
        assert(r1.ws(s1, w1).clients.len() == r2.ws(s1, w1).clients.len());
        assert(r1.ws(s2, w2).clients.len() == r2.ws(s2, w2).clients.len());
        assert(r1.client(s1, w1, c1).window_id == r2.client(s1, w1, c1).window_id);
        assert(r1.client(s2, w2, c2).window_id == r2.client(s2, w2, c2).window_id);
    }
}

/// Holding the same windows at the same places is transitive.
proof fn lemma_same_windows_trans(r1: RuntimeV, r2: RuntimeV, r3: RuntimeV)
    requires
        same_windows(r1, r2),
        same_windows(r2, r3),
    ensures
        same_windows(r1, r3),
{
    assert forall|s: int, w: int| r1.valid_ws(s, w) implies #[trigger] r1.ws(s, w).clients.len() == r3.ws(s, w).clients.len() by {
        assert(r1.screens[s].workspaces.len() == r2.screens[s].workspaces.len());
        assert(r2.valid_ws(s, w));
    }
    assert forall|s: int, w: int, c: int| r1.valid_pos(s, w, c) implies #[trigger] r1.client(s, w, c).window_id == r3.client(s, w, c).window_id by {
        assert(r1.screens[s].workspaces.len() == r2.screens[s].workspaces.len());
        assert(r1.ws(s, w).clients.len() == r2.ws(s, w).clients.len());
        assert(r2.valid_pos(s, w, c));
        assert(r2.client(s, w, c).window_id == r3.client(s, w, c).window_id);
    }
    assert forall|s: int| 0 <= s < r1.screens.len() implies #[trigger] r1.screens[s].workspaces.len() == r3.screens[s].workspaces.len() by {
        assert(r2.screens[s].workspaces.len() == r3.screens[s].workspaces.len());
    }
}

/// A layout change keeps the windows at their places.
proof fn lemma_layout_same_windows(a: AppV, b: AppV)
    requires
        layout_only(a, b),
    ensures
        same_windows(a.runtime, b.runtime),
{
    assert forall|s: int| 0 <= s < a.runtime.screens.len() implies #[trigger] a.runtime.screens[s].workspaces.len() == b.runtime.screens[s].workspaces.len() by {
        assert(screen_layout_only(a.runtime.screens[s], b.runtime.screens[s]));
    }
    assert forall|s: int, w: int| a.runtime.valid_ws(s, w) implies #[trigger] a.runtime.ws(s, w).clients.len() == b.runtime.ws(s, w).clients.len() by {
        assert(screen_layout_only(a.runtime.screens[s], b.runtime.screens[s]));
        assert(ws_layout_only(a.runtime.screens[s].workspaces[w], b.runtime.screens[s].workspaces[w]));
    }
    assert forall|s: int, w: int, c: int| a.runtime.valid_pos(s, w, c) implies #[trigger] a.runtime.client(s, w, c).window_id == b.runtime.client(s, w, c).window_id by {
        assert(screen_layout_only(a.runtime.screens[s], b.runtime.screens[s]));
        assert(ws_layout_only(a.runtime.screens[s].workspaces[w], b.runtime.screens[s].workspaces[w]));
        assert(same_identity(a.runtime.client(s, w, c), b.runtime.client(s, w, c)));
    }
}

/// The place a window is found at is a place of the state.
proof fn lemma_pos_valid(rt: RuntimeV, win: u64)
    requires
        rt.shape_wf(),
    ensures
        window_pos(rt, win) matches Some((s, w, c)) ==> rt.valid_pos(s as int, w as int, c as int) && holds(rt, s as int, w as int, c as int, win),
{
    if exists|s: int, w: int, c: int| first_pos(rt, win, s, w, c) {
        let (s1, w1, c1) = choose|s: int, w: int, c: int| first_pos(rt, win, s, w, c);
        assert(rt.valid_pos(s1, w1, c1));
        assert(screen_shape_wf(rt.screens[s1], s1));
        crate::structs::lemma_count_with_ws(rt, s1, w1, rt.ws(s1, w1));
        assert(s1 as usize as int == s1 && w1 as usize as int == w1 && c1 as usize as int == c1);
    }
}

/// Changing one client's urgency keeps the windows at their places and
/// the shape of the state.
proof fn lemma_urgent_same_windows(a: AppV, win: u64, u: bool)
    requires
        a.runtime.shape_wf(),
    ensures
        same_windows(a.runtime, urgent_set(a, win, u).runtime),
        urgent_set(a, win, u).runtime.shape_wf(),
{
    lemma_pos_valid(a.runtime, win);
    match window_pos(a.runtime, win) {
        Some((s, w, c)) => {
            let ws = a.runtime.ws(s as int, w as int);
            let ws2 = WorkspaceV {
                clients: ws.clients.update(c as int, Client { urgent: u, ..ws.clients[c as int] }),
                ..ws
            };
            assert(urgent_set(a, win, u).runtime == a.runtime.with_ws(s as int, w as int, ws2));
            assert(screen_shape_wf(a.runtime.screens[s as int], s as int));
            assert(crate::structs::ws_shape_wf(a.runtime.screens[s as int].workspaces[w as int]));
            crate::structs::lemma_count_with_ws(a.runtime, s as int, w as int, ws2);
            crate::structs::lemma_with_ws_shape(a.runtime, s as int, w as int, ws2, s as int, w as int);
        },
        None => {},
    }
}

/// Focusing keeps the windows at their places.
proof fn lemma_focus_same_windows(a: AppV, win: u64)
    requires
        a.runtime.shape_wf(),
    ensures
        same_windows(a.runtime, focus_spec(a, win).0.runtime),
{
    lemma_urgent_same_windows(a, win, false);
    let a1 = urgent_set(a, win, false);
    lemma_pos_valid(a1.runtime, win);
    match window_pos(a1.runtime, win) {
        Some((s, w, c)) => {
            assert(same_windows(a1.runtime, trackers_updated(a1, win).runtime));
        },
        None => {},
    }
    lemma_same_windows_trans(a.runtime, a1.runtime, focus_spec(a, win).0.runtime);
}

/// Managing a window keeps every window managed at one place only.
pub proof fn law_manage_keeps_windows_unique(a: AppV, win: u64, f: crate::manage::WindowFacts, scan: bool, name: String)
    requires
        manage_ok(a, win, f, scan),
        windows_unique(a.runtime),
    ensures
        windows_unique(manage_spec(a, win, f, scan, name).0.runtime),
{
    match f.attributes {
        None => {},
        Some(wa) => {
            if wa.override_redirect || managed(a.runtime, win) {
            } else if f.window_type == a.atoms.net_wm_window_type_dock {
                lemma_attach_same_windows(a, wa, win);
                lemma_same_windows_unique(a.runtime, crate::manage::attach_spec(a, wa, win).0.runtime);
            } else {
                lemma_new_window_unique(a, win, wa, f, scan, name);
            }
        },
    }
}

/// Attaching a dock keeps the windows at their places.
proof fn lemma_attach_same_windows(a: AppV, wa: WindowAttributes, win: u64)
    requires
        a.wf(),
    ensures
        same_windows(a.runtime, attach_spec(a, wa, win).0.runtime),
{
    let a1 = AppV { runtime: RuntimeV { bars: a.runtime.bars.push(bar_of(wa, win)), ..a.runtime }, ..a };
    assert forall|b: int| 0 <= b < a1.runtime.bars.len() implies #[trigger] bar_wf(a1.runtime.bars[b]) by {
        if b < a.runtime.bars.len() {
            assert(bar_wf(a.runtime.bars[b]));
        }
    }
    assert(crate::structs::screens_client_count(a1.runtime.screens) == crate::structs::screens_client_count(a.runtime.screens));
    assert(a1.wf());
    let d = docks_upto(a1, a1.runtime.bars.len() as int);
    assert forall|k: int| 0 <= k < a1.runtime.screens.len() implies #[trigger] d.runtime.screens[k] == (ScreenV {
        bar_offsets: d.runtime.screens[k].bar_offsets,
        ..a1.runtime.screens[k]
    }) && offsets_wf(d.runtime.screens[k].bar_offsets) by {
        assert(a1.runtime.bars.take(a1.runtime.bars.len() as int) =~= a1.runtime.bars);
        lemma_dock_offsets_wf(a1.runtime.bars, a1.runtime.screens, k);
    }
    lemma_offsets_only(a1, d);
    assert(same_windows(a.runtime, d.runtime));
    lemma_arranged_all_upto(d, d.runtime.screens.len() as int, 0);
    let e = arranged_all(d);
    lemma_layout_same_windows(d, e);
    lemma_same_windows_trans(a.runtime, d.runtime, e.runtime);
    lemma_layout_only(d, e);
    crate::helper::lemma_wf_current_ok(e.runtime);
    lemma_layout_ops(e, e.runtime.current_screen as int, e.runtime.current_workspace as int);
    let g = show_spec(e, e.runtime.current_screen as int, e.runtime.current_workspace as int).0;
    lemma_layout_same_windows(e, g);
    lemma_same_windows_trans(a.runtime, e.runtime, g.runtime);
}

/// A new client's window is unique when it was not managed before.
proof fn lemma_new_window_unique(a: AppV, win: u64, wa: WindowAttributes, f: crate::manage::WindowFacts, scan: bool, name: String)
    requires
        manage_ok(a, win, f, scan),
        windows_unique(a.runtime),
        f.attributes == Some(wa),
        !wa.override_redirect,
        !managed(a.runtime, win),
        f.window_type != a.atoms.net_wm_window_type_dock,
    ensures
        windows_unique(manage_spec(a, win, f, scan, name).0.runtime),
{
    assert(becomes_client(a, win, f));
    let ((s0, w0), _t) = new_window_place(a, f, scan);
    let s = s0 as int;
    let w = w0 as int;
    assert(a.runtime.valid_ws(s, w));
    let cl = new_window_client(a, win, wa, f, scan, name);
    assert(cl.window_id == win);
    let a1 = client_added(a, s, w, cl);
    let n = a.runtime.ws(s, w).clients.len() as int;
    assert forall|s1: int, w1: int, c1: int, s2: int, w2: int, c2: int|
        a1.runtime.valid_pos(s1, w1, c1) && a1.runtime.valid_pos(s2, w2, c2)
            && #[trigger] a1.runtime.client(s1, w1, c1).window_id == #[trigger] a1.runtime.client(s2, w2, c2).window_id
        implies s1 == s2 && w1 == w2 && c1 == c2 by {
        let new1 = s1 == s && w1 == w && c1 == n;
        let new2 = s2 == s && w2 == w && c2 == n;
        if !new1 {
            assert(a.runtime.valid_pos(s1, w1, c1));
            assert(a1.runtime.client(s1, w1, c1) == a.runtime.client(s1, w1, c1));
        }
        if !new2 {
            assert(a.runtime.valid_pos(s2, w2, c2));
            assert(a1.runtime.client(s2, w2, c2) == a.runtime.client(s2, w2, c2));
        }
        if new1 && !new2 {
            assert(holds(a.runtime, s2, w2, c2, win));
        }
        if new2 && !new1 {
            assert(holds(a.runtime, s1, w1, c1, win));
        }
    }
    assert(windows_unique(a1.runtime));
    let ws1 = WorkspaceV { clients: a.runtime.ws(s, w).clients.push(cl), current_client: Some(n as usize), ..a.runtime.ws(s, w) };
    crate::structs::lemma_wf_parts(a.runtime, s, w);
    assert(screen_shape_wf(a.runtime.screens[s], s));
    crate::structs::lemma_with_ws_shape(a.runtime, s, w, ws1, s, w);
    assert(a1.runtime.shape_wf());
    reveal(settle_spec);
    let a2 = arranged(a1, s, w);
    assert(a1.runtime.valid_ws(s, w));
    lemma_layout_ops(a1, s, w);
    lemma_layout_only(a1, a2);
    lemma_layout_same_windows(a1, a2);
    lemma_same_windows_unique(a1.runtime, a2.runtime);
    assert(a2.runtime.valid_ws(s, w));
    lemma_layout_ops(a2, s, w);
    let a3 = if w == a2.runtime.screens[s].current_workspace {
        show_spec(a2, s, w).0
    } else {
        urgent_set(hide_spec(a2, s, w).0, win, true)
    };
    if w == a2.runtime.screens[s].current_workspace {
        lemma_layout_same_windows(a2, a3);
        lemma_layout_only(a2, a3);
    } else {
        let h = hide_spec(a2, s, w).0;
        lemma_layout_same_windows(a2, h);
        lemma_layout_only(a2, h);
        lemma_urgent_same_windows(h, win, true);
        lemma_same_windows_trans(a2.runtime, h.runtime, a3.runtime);
    }
    lemma_same_windows_unique(a2.runtime, a3.runtime);
    if s == a3.runtime.current_screen && w == a3.runtime.current_workspace {
        lemma_focus_same_windows(a3, win);
        lemma_same_windows_unique(a3.runtime, focus_spec(a3, win).0.runtime);
    }
}

/// Clamping a workspace's trackers keeps the windows at their places.
proof fn lemma_shift_same_windows(a: AppV, screen: Option<usize>, workspace: Option<usize>)
    requires
        a.runtime.valid_ws(crate::logic::shift_target(a, screen, workspace).0, crate::logic::shift_target(a, screen, workspace).1),
    ensures
        same_windows(a.runtime, shift_spec(a, screen, workspace).0.runtime),
{
}

/// A window that is forgotten is no longer managed, when every window was
/// managed at one place only.
pub proof fn law_unmanage_forgets(a: AppV, win: u64)
    requires
        unmanage_ok(a, win),
        windows_unique(a.runtime),
        managed(a.runtime, win),
    ensures
        !managed(unmanage_spec(a, win).0.runtime, win),
{
    lemma_window_pos_spec(a.runtime, win);
    let (s0, w0, c0) = window_pos(a.runtime, win)->0;
    let (s, w, c) = (s0 as int, w0 as int, c0 as int);
    let a1 = removed(a, s, w, c);
    lemma_removed_wf(a, s, w, c);
    assert forall|s2: int, w2: int, c2: int| !holds(a1.runtime, s2, w2, c2, win) by {
        if holds(a1.runtime, s2, w2, c2, win) {
            if s2 == s && w2 == w {
                let k = if c2 < c { c2 } else { c2 + 1 };
                assert(a1.runtime.client(s2, w2, c2) == a.runtime.client(s, w, k));
                assert(a.runtime.valid_pos(s, w, k));
                assert(a.runtime.client(s, w, k).window_id == a.runtime.client(s, w, c).window_id);
            } else {
                assert(a1.runtime.client(s2, w2, c2) == a.runtime.client(s2, w2, c2));
                assert(a.runtime.valid_pos(s2, w2, c2));
                assert(a.runtime.client(s2, w2, c2).window_id == a.runtime.client(s, w, c).window_id);
            }
        }
    }
    assert(!managed(a1.runtime, win));
    let a2 = shift_spec(a1, Some(s0), Some(w0)).0;
    lemma_shift_same_windows(a1, Some(s0), Some(w0));
    let a4 = arranged(a2, s, w);
    assert(a2.runtime.valid_ws(s, w));
    lemma_layout_ops(a2, s, w);
    lemma_layout_same_windows(a2, a4);
    lemma_same_windows_trans(a1.runtime, a2.runtime, a4.runtime);
    let a5 = if w == a4.runtime.screens[s].current_workspace { show_spec(a4, s, w).0 } else { a4 };
    if w == a4.runtime.screens[s].current_workspace {
        assert(a4.runtime.valid_ws(s, w));
        lemma_layout_ops(a4, s, w);
        lemma_layout_same_windows(a4, a5);
        lemma_same_windows_trans(a1.runtime, a4.runtime, a5.runtime);
    }
    lemma_same_windows(a1.runtime, a5.runtime, win);
    assert(unmanage_spec(a, win).0 == a5);
}

/// Taking a client out keeps windows unique, and its window is then not
/// managed.
proof fn lemma_removed_unique(a: AppV, s: int, w: int, c: int)
    requires
        windows_unique(a.runtime),
        a.runtime.valid_pos(s, w, c),
    ensures
        windows_unique(removed(a, s, w, c).runtime),
        !managed(removed(a, s, w, c).runtime, a.runtime.client(s, w, c).window_id),
{
    let a1 = removed(a, s, w, c);
    let win = a.runtime.client(s, w, c).window_id;
    let old_pos = |s2: int, w2: int, c2: int| if s2 == s && w2 == w && c2 >= c { c2 + 1 } else { c2 };
    assert forall|s2: int, w2: int, c2: int| a1.runtime.valid_pos(s2, w2, c2) implies a.runtime.valid_pos(s2, w2, old_pos(s2, w2, c2))
        && #[trigger] a1.runtime.client(s2, w2, c2) == a.runtime.client(s2, w2, old_pos(s2, w2, c2)) by {
    }
    assert forall|s2: int, w2: int, c2: int| !holds(a1.runtime, s2, w2, c2, win) by {
        if holds(a1.runtime, s2, w2, c2, win) {
            assert(a1.runtime.client(s2, w2, c2) == a.runtime.client(s2, w2, old_pos(s2, w2, c2)));
        }
    }
    assert forall|s1: int, w1: int, c1: int, s2: int, w2: int, c2: int|
        a1.runtime.valid_pos(s1, w1, c1) && a1.runtime.valid_pos(s2, w2, c2)
            && #[trigger] a1.runtime.client(s1, w1, c1).window_id == #[trigger] a1.runtime.client(s2, w2, c2).window_id
        implies s1 == s2 && w1 == w2 && c1 == c2 by {
        assert(a1.runtime.client(s1, w1, c1) == a.runtime.client(s1, w1, old_pos(s1, w1, c1)));
        assert(a1.runtime.client(s2, w2, c2) == a.runtime.client(s2, w2, old_pos(s2, w2, c2)));
    }
}

/// Putting a client whose window is not managed on a workspace keeps
/// windows unique.
proof fn lemma_pushed_unique(a: AppV, s: int, w: int, cl: Client)
    requires
        windows_unique(a.runtime),
        a.runtime.valid_ws(s, w),
        !managed(a.runtime, cl.window_id),
    ensures
        windows_unique(pushed(a, s, w, cl).runtime),
        managed(pushed(a, s, w, cl).runtime, cl.window_id),
{
    let a1 = pushed(a, s, w, cl);
    let n = a.runtime.ws(s, w).clients.len() as int;
    assert forall|s1: int, w1: int, c1: int, s2: int, w2: int, c2: int|
        a1.runtime.valid_pos(s1, w1, c1) && a1.runtime.valid_pos(s2, w2, c2)
            && #[trigger] a1.runtime.client(s1, w1, c1).window_id == #[trigger] a1.runtime.client(s2, w2, c2).window_id
        implies s1 == s2 && w1 == w2 && c1 == c2 by {
        let new1 = s1 == s && w1 == w && c1 == n;
        let new2 = s2 == s && w2 == w && c2 == n;
        if !new1 {
            assert(a.runtime.valid_pos(s1, w1, c1));
            assert(a1.runtime.client(s1, w1, c1) == a.runtime.client(s1, w1, c1));
        }
        if !new2 {
            assert(a.runtime.valid_pos(s2, w2, c2));
            assert(a1.runtime.client(s2, w2, c2) == a.runtime.client(s2, w2, c2));
        }
        if new1 && !new2 {
            assert(holds(a.runtime, s2, w2, c2, cl.window_id));
        }
        if new2 && !new1 {
            assert(holds(a.runtime, s1, w1, c1, cl.window_id));
        }
    }
    assert(holds(a1.runtime, s, w, n, cl.window_id));
}

/// Moving the focused client to another workspace keeps every window
/// managed at one place only.
pub proof fn law_move_to_workspace_keeps_windows_unique(a: AppV, n: u64)
    requires
        a.wf(),
        a.runtime.current_client_ok(),
        moves_to_workspace(a, n) ==> (n as usize) < NUMBER_OF_DESKTOPS,
        windows_unique(a.runtime),
    ensures
        windows_unique(move_to_workspace_spec(a, n).0.runtime),
{
    if moves_to_workspace(a, n) {
        let rt = a.runtime;
        let index = rt.current_client->0 as int;
        let cs = rt.current_screen as int;
        let cw = rt.current_workspace as int;
        let nw = (n as usize) as int;
        crate::helper::lemma_wf_current_ok(rt);
        let client = rt.cur_ws().clients[index];
        let a1 = removed(a, cs, cw, index);
        lemma_removed_wf(a, cs, cw, index);
        lemma_removed_unique(a, cs, cw, index);
        lemma_arranged_upto(a1, a1.runtime.screens.len() as int);
        let a2 = arranged_current(a1);
        lemma_layout_only(a1, a2);
        lemma_layout_same_windows(a1, a2);
        assert(screen_shape_wf(a2.runtime.screens[cs], cs));
        lemma_layout_ops(a2, cs, cw);
        let a3 = show_spec(a2, cs, cw).0;
        lemma_layout_only(a2, a3);
        lemma_layout_same_windows(a2, a3);
        let a4 = shift_spec(a3, None, None).0;
        lemma_shift_same_windows(a3, None, None);
        lemma_same_windows_trans(a1.runtime, a2.runtime, a3.runtime);
        lemma_same_windows_trans(a1.runtime, a3.runtime, a4.runtime);
        lemma_same_windows_unique(a1.runtime, a4.runtime);
        lemma_same_windows(a1.runtime, a4.runtime, client.window_id);
        let moved = Client { visible: !client.visible, ..client };
        assert(screen_shape_wf(a3.runtime.screens[cs], cs));
        assert(a4.runtime.valid_ws(cs, nw));
        lemma_pushed_unique(a4, cs, nw, moved);
        let a5 = pushed(a4, cs, nw, moved);
        lemma_layout_ops(a5, cs, nw);
        lemma_layout_same_windows(a5, arranged(a5, cs, nw));
        lemma_same_windows_unique(a5.runtime, arranged(a5, cs, nw).runtime);
    }
}

/// Clamping the current workspace's trackers keeps the shape of the state.
proof fn lemma_shift_shape(a: AppV)
    requires
        a.shape_wf(),
        crate::helper::current_ok(a.runtime),
    ensures
        shift_spec(a, None, None).0.shape_wf(),
        shift_spec(a, None, None).0.runtime.client_count() == a.runtime.client_count(),
{
    let s = a.runtime.current_screen as int;
    let w = a.runtime.current_workspace as int;
    let ws2 = WorkspaceV { current_client: shifted_cc(a.runtime.ws(s, w)), ..a.runtime.ws(s, w) };
    assert(screen_shape_wf(a.runtime.screens[s], s));
    assert(crate::structs::ws_shape_wf(a.runtime.ws(s, w)));
    crate::structs::lemma_count_with_ws(a.runtime, s, w, ws2);
    crate::structs::lemma_with_ws_shape(a.runtime, s, w, ws2, s, w);
}

/// Moving the focused client to another screen keeps every window managed
/// at one place only.
pub proof fn law_move_to_screen_keeps_windows_unique(a: AppV, d: ScreenSwitching)
    requires
        a.wf(),
        a.runtime.current_client_ok(),
        windows_unique(a.runtime),
    ensures
        windows_unique(move_to_screen_spec(a, d).0.runtime),
{
    if let Some(index0) = a.runtime.current_client {
        let rt = a.runtime;
        let index = index0 as int;
        let cs = rt.current_screen as int;
        let cw = rt.current_workspace as int;
        let n = rt.screens.len() as int;
        let ns = switched_screen(cs, n, d);
        assert(0 <= ns < n) by {
            match d {
                ScreenSwitching::Next => {
                    assert(0 <= (cs + 1) % n < n) by (nonlinear_arith)
                        requires
                            n > 0,
                    ;
                },
                ScreenSwitching::Previous => {
                    assert(0 <= (cs + n - 1) % n < n) by (nonlinear_arith)
                        requires
                            n > 0,
                    ;
                },
            }
        }
        crate::helper::lemma_wf_current_ok(rt);
        let client = rt.cur_ws().clients[index];
        let a1 = removed(a, cs, cw, index);
        lemma_removed_wf(a, cs, cw, index);
        lemma_removed_unique(a, cs, cw, index);
        let a2 = shift_spec(a1, None, None).0;
        lemma_shift_same_windows(a1, None, None);
        lemma_shift_shape(a1);
        lemma_same_windows_unique(a1.runtime, a2.runtime);
        lemma_same_windows(a1.runtime, a2.runtime, client.window_id);
        let moved = carried(client, rt.screens[cs], rt.screens[ns]);
        let nw = a2.runtime.screens[ns].current_workspace as int;
        assert(screen_shape_wf(a2.runtime.screens[ns], ns));
        lemma_pushed_unique(a2, ns, nw, moved);
        crate::helper::lemma_pushed_wf(a2, ns, nw, moved, ns, nw);
        let a3 = pushed(a2, ns, nw, moved);
        lemma_arranged_upto(a3, a3.runtime.screens.len() as int);
        let a4 = arranged_current(a3);
        lemma_layout_only(a3, a4);
        lemma_layout_same_windows(a3, a4);
        lemma_same_windows_unique(a3.runtime, a4.runtime);
        let w4 = a4.runtime.screens[ns].current_workspace as int;
        assert(screen_shape_wf(a4.runtime.screens[ns], ns));
        lemma_layout_ops(a4, ns, w4);
        let a5 = show_spec(a4, ns, w4).0;
        lemma_layout_only(a4, a5);
        lemma_layout_same_windows(a4, a5);
        lemma_same_windows_unique(a4.runtime, a5.runtime);
        let w5 = a5.runtime.screens[cs].current_workspace as int;
        assert(screen_shape_wf(a5.runtime.screens[cs], cs));
        lemma_layout_ops(a5, cs, w5);
        let a6 = show_spec(a5, cs, w5).0;
        lemma_layout_same_windows(a5, a6);
        lemma_same_windows_unique(a5.runtime, a6.runtime);
    }
}
/// No key action changes the configuration, whatever the state.
pub proof fn law_action_keeps_config(a: AppV, i: int)
    ensures
        crate::events::action_spec(a, i).0.config == a.config,
{
    match a.config.key_actions@[i].result {
        crate::structs::ActionResult::MoveToScreen(d) => {
            if let Some(index) = a.runtime.current_client {
                let rt = a.runtime;
                let cs = rt.current_screen as int;
                let cw = rt.current_workspace as int;
                let ns = switched_screen(cs, rt.screens.len() as int, d);
                let client = rt.cur_ws().clients[index as int];
                let a1 = removed(a, cs, cw, index as int);
                assert(a1.config == a.config);
                let moved = carried(client, rt.screens[cs], rt.screens[ns]);
                let (a2, r2) = shift_spec(a1, None, None);
                assert(a2.config == a.config);
                let a3 = pushed(a2, ns, a2.runtime.screens[ns].current_workspace as int, moved);
                assert(a3.config == a.config);
                let a4 = arranged_current(a3);
                lemma_arranged_current_config(a3);
                let (a5, r3) = show_spec(a4, ns, a4.runtime.screens[ns].current_workspace as int);
                assert(a5.config == a.config);
                let (a6, r4) = show_spec(a5, cs, a5.runtime.screens[cs].current_workspace as int);
                assert(a6.config == a.config);
            }
            assert(move_to_screen_spec(a, d).0.config == a.config);
        },
        crate::structs::ActionResult::FocusOnScreen(d) => {
            assert(focus_on_screen_spec(a, d).0.config == a.config);
        },
        crate::structs::ActionResult::MoveToWorkspace(n) => {
            if crate::logic::moves_to_workspace(a, n) {
                let rt = a.runtime;
                let index = rt.current_client->0 as int;
                let cs = rt.current_screen as int;
                let cw = rt.current_workspace as int;
                let client = rt.cur_ws().clients[index];
                let a1 = removed(a, cs, cw, index);
                assert(a1.config == a.config);
                let a2 = arranged_current(a1);
                lemma_arranged_current_config(a1);
                let (a3, r2) = show_spec(a2, cs, cw);
                assert(a3.config == a.config);
                let moved = Client { visible: !client.visible, ..client };
                let (a4, r4) = shift_spec(a3, None, None);
                assert(a4.config == a.config);
                let a5 = pushed(a4, cs, (n as usize) as int, moved);
                assert(a5.config == a.config);
                let a6 = arranged(a5, cs, (n as usize) as int);
                assert(a6.config == a.config);
            }
            assert(move_to_workspace_spec(a, n).0.config == a.config);
        },
        crate::structs::ActionResult::FocusOnWorkspace(n) => {
            assert(focus_on_workspace_spec(a, n, true).0.config == a.config);
        },
        crate::structs::ActionResult::UpdateMasterCapacity(k) => {
            lemma_retiled_config(crate::logic::master_capacity_updated(a, k));
        },
        crate::structs::ActionResult::UpdateMasterWidth(w) => {
            lemma_retiled_config(crate::logic::master_width_updated(a, w));
        },
        crate::structs::ActionResult::ToggleFloat => {
            assert(float_toggled(a).config == a.config);
            lemma_retiled_config(float_toggled(a));
            assert(toggle_float_spec(a).0.config == a.config);
        },
        _ => {},
    }
}

/// Retiling keeps the configuration.
proof fn lemma_retiled_config(a: AppV)
    ensures
        retiled_spec(a).0.config == a.config,
{
    lemma_arranged_current_config(a);
}

/// Laying out the current workspace keeps the configuration.
proof fn lemma_arranged_current_config(a: AppV)
    ensures
        arranged_current(a).config == a.config,
{
    lemma_arranged_upto_config(a, a.runtime.screens.len() as int);
}

/// Laying out the current workspaces of the first `n` screens keeps the
/// configuration.
proof fn lemma_arranged_upto_config(a: AppV, n: int)
    ensures
        crate::logic::arranged_upto(a, n).config == a.config,
    decreases n,
{
    if n > 0 {
        lemma_arranged_upto_config(a, n - 1);
    }
}

/// No key press changes the configuration, whatever the state and key.
pub proof fn law_key_press_keeps_config(a: AppV, keycode: u32, state: u32, keycodes: Seq<u32>)
    ensures
        crate::events::key_press_spec(a, keycode, state, keycodes).0.config == a.config,
{
    lemma_keys_keep_config(a, keycode, state, keycodes, a.config.key_actions@.len() as int);
}

/// Key actions in turn keep the configuration.
proof fn lemma_keys_keep_config(a: AppV, keycode: u32, state: u32, keycodes: Seq<u32>, k: int)
    ensures
        crate::events::keys_upto(a, keycode, state, keycodes, k).0.config == a.config,
    decreases k,
{
    if k > 0 {
        lemma_keys_keep_config(a, keycode, state, keycodes, k - 1);
        let b = crate::events::keys_upto(a, keycode, state, keycodes, k - 1).0;
        law_action_keeps_config(b, k - 1);
    }
}

/// Tiling every workspace keeps the configuration.
proof fn lemma_arranged_all_upto_config(a: AppV, n: int, m: int)
    ensures
        arranged_all_upto(a, n, m).config == a.config,
    decreases n, m,
{
    if m > 0 {
        lemma_arranged_all_upto_config(a, n, m - 1);
    } else if n > 0 {
        lemma_arranged_all_upto_config(a, n - 1, NUMBER_OF_DESKTOPS as int);
    }
}

/// Recomputing the docks keeps the configuration.
proof fn lemma_update_docks_config(a: AppV)
    ensures
        update_docks_spec(a).0.config == a.config,
{
    let d = docks_upto(a, a.runtime.bars.len() as int);
    lemma_arranged_all_upto_config(d, d.runtime.screens.len() as int, 0);
}

/// Following the pointer keeps the configuration.
proof fn lemma_follow_upto_config(a: AppV, mx: i64, my: i64, k: int)
    ensures
        crate::mouse::follow_upto(a, mx, my, k).0.config == a.config,
    decreases k,
{
    if k > 0 {
        lemma_follow_upto_config(a, mx, my, k - 1);
    }
}

/// Pointer motion keeps the configuration.
proof fn lemma_motion_config(a: AppV, win: u64, x_root: i32, y_root: i32)
    ensures
        crate::events::motion_spec(a, win, x_root, y_root).0.config == a.config,
{
    let (a1, r1) = if a.runtime.mouse_state.button == crate::request::BUTTON_MOVE {
        crate::mouse::drag_spec(a, x_root, y_root)
    } else {
        (a, Seq::empty())
    };
    if a.runtime.mouse_state.button == crate::request::BUTTON_MOVE {
        let w = a.runtime.mouse_state.win;
        if let Some((s0, w0, c0)) = window_pos(a.runtime, w) {
            let mx = x_root as i64;
            let my = y_root as i64;
            if !crate::manage::holds_point(a.runtime.screens[s0 as int], mx, my) {
                let m = crate::mouse::moved_across(a, s0 as int, w0 as int, c0 as int, mx, my);
                let b1 = removed(a, s0 as int, w0 as int, c0 as int);
                assert(b1.config == a.config);
                assert(shift_spec(b1, None, None).0.config == a.config);
                assert(m.0.config == a.config);
            }
        }
        assert(a1.config == a.config);
    }
    let (a2, r2) = if a1.runtime.mouse_state.button == crate::request::BUTTON_RESIZE {
        crate::mouse::resize_spec(a1, x_root, y_root)
    } else {
        (a1, Seq::empty())
    };
    assert(a2.config == a.config);
    if win == a2.core.root_win {
        lemma_follow_upto_config(a2, x_root as i64, y_root as i64, a2.runtime.screens.len() as int);
    }
}

/// Forgetting a window keeps the configuration.
proof fn lemma_unmanage_config(a: AppV, win: u64)
    ensures
        unmanage_spec(a, win).0.config == a.config,
{
    match window_pos(a.runtime, win) {
        Some((s0, w0, c0)) => {
            let s = s0 as int;
            let w = w0 as int;
            let a1 = removed(a, s, w, c0 as int);
            assert(a1.config == a.config);
            let (a2, r2) = shift_spec(a1, Some(s0), Some(w0));
            assert(a2.config == a.config);
            let a4 = arranged(a2, s, w);
            assert(a4.config == a.config);
        },
        None => {
            lemma_update_docks_config(AppV { runtime: RuntimeV { bars: crate::manage::bars_without(a.runtime.bars, win), ..a.runtime }, ..a });
        },
    }
}

/// Managing a window keeps the configuration.
proof fn lemma_manage_config(a: AppV, win: u64, f: crate::manage::WindowFacts, scan: bool, name: String)
    ensures
        manage_spec(a, win, f, scan, name).0.config == a.config,
{
    if let Some(wa) = f.attributes {
        lemma_update_docks_config(AppV { runtime: RuntimeV { bars: a.runtime.bars.push(bar_of(wa, win)), ..a.runtime }, ..a });
        let ((s0, w0), _t) = new_window_place(a, f, scan);
        let cl = new_window_client(a, win, wa, f, scan, name);
        let a1 = client_added(a, s0 as int, w0 as int, cl);
        reveal(settle_spec);
        let a2 = arranged(a1, s0 as int, w0 as int);
        assert(a2.config == a.config);
        assert(settle_spec(a1, s0 as int, w0 as int, win).0.config == a.config);
    }
}

/// No event changes the configuration, whatever the state: entering,
/// unmapping, pointer motion, button presses, client messages, configure
/// requests, and managing and forgetting windows.
pub proof fn law_events_keep_config(
    a: AppV,
    win: u64,
    send_event: bool,
    x_root: i32,
    y_root: i32,
    button: u32,
    x: i32,
    y: i32,
    message_type: u64,
    data: Seq<i64>,
    cr: crate::events::ConfigureRequest,
    f: crate::manage::WindowFacts,
    scan: bool,
    name: String,
)
    ensures
        crate::events::enter_spec(a, win).0.config == a.config,
        crate::events::unmap_spec(a, win, send_event).0.config == a.config,
        crate::events::motion_spec(a, win, x_root, y_root).0.config == a.config,
        crate::events::button_press_spec(a, win, button, x_root, y_root, x, y).0.config == a.config,
        crate::events::client_message_spec(a, win, message_type, data).0.config == a.config,
        crate::events::configure_request_spec(a, win, cr).0.config == a.config,
        manage_spec(a, win, f, scan, name).0.config == a.config,
        unmanage_spec(a, win).0.config == a.config,
{
    lemma_unmanage_config(a, win);
    lemma_manage_config(a, win, f, scan, name);
    lemma_motion_config(a, win, x_root, y_root);
    lemma_client_message_config(a, win, message_type, data);
}

/// Client messages keep the configuration.
proof fn lemma_client_message_config(a: AppV, win: u64, message_type: u64, data: Seq<i64>)
    ensures
        crate::events::client_message_spec(a, win, message_type, data).0.config == a.config,
{
    if let Some((s, w, c)) = window_pos(a.runtime, win) {
        let cl = a.runtime.client(s as int, w as int, c as int);
        let sf = data[0] == 1 || data[0] == 2 && cl.fullscreen;
        let a1 = if sf && !cl.fullscreen {
            AppV { runtime: a.runtime.with_client(s as int, w as int, c as int, Client { fullscreen: true, ..cl }), ..a }
        } else if !sf && cl.fullscreen {
            AppV { runtime: a.runtime.with_client(s as int, w as int, c as int, Client { fullscreen: false, ..cl }), ..a }
        } else {
            a
        };
        lemma_retiled_config(a1);
    } else {
        let (b, r) = crate::logic::focus_on_workspace_spec(a, data[0] as u64, false);
        assert(b.config == a.config);
    }
}

/// Taking over the windows present at start-up keeps the configuration,
/// and so does following a new report of the screens.
pub proof fn law_scan_and_screens_keep_config(
    a: AppV,
    wins: Seq<crate::setup::ScanFacts>,
    k: int,
    names: Seq<String>,
    infos: Seq<crate::screens::ScreenInfo>,
)
    ensures
        crate::setup::scan_upto(a, wins, k, names).0.config == a.config,
        (AppV { runtime: RuntimeV { screens: crate::screens::screens_updated(a.runtime.screens, infos), ..a.runtime }, ..a }).config
            == a.config,
    decreases k,
{
    if k > 0 {
        law_scan_and_screens_keep_config(a, wins, k - 1, names, infos);
        let b = crate::setup::scan_upto(a, wins, k - 1, names).0;
        lemma_manage_config(b, wins[k - 1].win, wins[k - 1].facts, true, names[k - 1]);
    }
}

/// Taking over the windows present at start-up keeps every window managed
/// at one place only.
pub proof fn law_scan_keeps_windows_unique(a: AppV, wins: Seq<crate::setup::ScanFacts>, k: int, names: Seq<String>)
    requires
        crate::setup::scan_ok_upto(a, wins, k, names),
        windows_unique(a.runtime),
    ensures
        windows_unique(crate::setup::scan_upto(a, wins, k, names).0.runtime),
    decreases k,
{
    if k > 0 {
        law_scan_keeps_windows_unique(a, wins, k - 1, names);
        if crate::setup::taken_over(wins[k - 1]) {
            let b = crate::setup::scan_upto(a, wins, k - 1, names).0;
            law_manage_keeps_windows_unique(b, wins[k - 1].win, wins[k - 1].facts, true, names[k - 1]);
        }
    }
}

/// Following the pointer changes no screen.
proof fn lemma_follow_upto_screens(a: AppV, mx: i64, my: i64, k: int)
    ensures
        crate::mouse::follow_upto(a, mx, my, k).0.runtime.screens == a.runtime.screens,
    decreases k,
{
    if k > 0 {
        lemma_follow_upto_screens(a, mx, my, k - 1);
    }
}

/// Changing a client but not its window keeps the windows where they are.
proof fn lemma_with_client_same_windows(rt: RuntimeV, s: int, w: int, c: int, cl: Client)
    requires
        rt.valid_pos(s, w, c),
        cl.window_id == rt.client(s, w, c).window_id,
    ensures
        same_windows(rt, rt.with_client(s, w, c, cl)),
{
    let r2 = rt.with_client(s, w, c, cl);
    assert forall|s2: int, w2: int, c2: int| rt.valid_pos(s2, w2, c2) implies #[trigger] rt.client(s2, w2, c2).window_id
        == r2.client(s2, w2, c2).window_id by {
        if s2 == s && w2 == w && c2 == c {
        } else if s2 == s && w2 == w {
        } else if s2 == s {
        }
    }
    assert forall|s2: int, w2: int| rt.valid_ws(s2, w2) implies #[trigger] rt.ws(s2, w2).clients.len() == r2.ws(s2, w2).clients.len() by {
        if s2 == s && w2 == w {
        }
    }
}

/// Dragging the window held with the move button keeps every window
/// managed at one place only.
#[verifier::rlimit(40)]
proof fn lemma_drag_unique(a: AppV, x_root: i32, y_root: i32)
    requires
        a.wf(),
        windows_unique(a.runtime),
    ensures
        windows_unique(crate::mouse::drag_spec(a, x_root, y_root).0.runtime),
{
    let mx = x_root as i64;
    let my = y_root as i64;
    let a1 = crate::mouse::drag_spec(a, x_root, y_root).0;
    let win = a.runtime.mouse_state.win;
    if let Some((s0, w0, c0)) = window_pos(a.runtime, win) {
        lemma_window_pos_spec(a.runtime, win);
        let (px, py) = a.runtime.mouse_state.pos;
        let dx = (mx - px) as i32;
        let dy = (my - py) as i32;
        if crate::manage::holds_point(a.runtime.screens[s0 as int], mx, my) {
            let (s, w, c) = (s0 as int, w0 as int, c0 as int);
            let cl = a.runtime.client(s, w, c);
            let nx = vstd::wrapping::i32_specs::wrapping_add(cl.x, dx);
            let ny = vstd::wrapping::i32_specs::wrapping_add(cl.y, dy);
            lemma_with_client_same_windows(a.runtime, s, w, c, Client { x: nx, y: ny, ..cl });
            let rt = a.runtime.with_client(s, w, c, Client { x: nx, y: ny, ..cl });
            lemma_same_windows_unique(a.runtime, rt);
            assert(same_windows(rt, a1.runtime));
            lemma_same_windows_unique(rt, a1.runtime);
        } else {
            let (s, w, c) = (s0 as int, w0 as int, c0 as int);
            let ns = crate::mouse::drag_target(a.runtime.screens, s, mx, my);
            crate::mouse::lemma_last_holding_range(a.runtime.screens, mx, my, a.runtime.screens.len() as int);
            let cl = a.runtime.client(s, w, c);
            let b1 = removed(a, s, w, c);
            lemma_removed_wf(a, s, w, c);
            lemma_removed_unique(a, s, w, c);
            assert(screen_shape_wf(b1.runtime.screens[b1.runtime.current_screen as int], b1.runtime.current_screen as int));
            assert(crate::helper::current_ok(b1.runtime));
            let b2 = shift_spec(b1, None, None).0;
            lemma_shift_same_windows(b1, None, None);
            lemma_shift_shape(b1);
            lemma_same_windows_unique(b1.runtime, b2.runtime);
            lemma_same_windows(b1.runtime, b2.runtime, cl.window_id);
            let nw = b2.runtime.screens[ns].current_workspace as int;
            assert(screen_shape_wf(b2.runtime.screens[ns], ns));
            lemma_pushed_unique(b2, ns, nw, cl);
            let b3 = pushed(b2, ns, nw, cl);
            let nc = b2.runtime.ws(ns, nw).clients.len() as int;
            let b4 = AppV {
                runtime: RuntimeV { current_screen: ns as usize, current_workspace: nw as usize, current_client: Some(nc as usize), ..b3.runtime },
                ..b3
            };
            assert(same_windows(b3.runtime, b4.runtime));
            lemma_same_windows_unique(b3.runtime, b4.runtime);
            assert(b4.runtime.valid_pos(ns, nw, nc));
            let cl4 = b4.runtime.client(ns, nw, nc);
            let nx = vstd::wrapping::i32_specs::wrapping_add(cl4.x, dx);
            let ny = vstd::wrapping::i32_specs::wrapping_add(cl4.y, dy);
            lemma_with_client_same_windows(b4.runtime, ns, nw, nc, Client { x: nx, y: ny, ..cl4 });
            let rt = b4.runtime.with_client(ns, nw, nc, Client { x: nx, y: ny, ..cl4 });
            lemma_same_windows_unique(b4.runtime, rt);
            assert(same_windows(rt, a1.runtime));
            lemma_same_windows_unique(rt, a1.runtime);
        }
    }
}

/// Dragging a window, resizing it and following the pointer keep every
/// window managed at one place only.
pub proof fn law_motion_keeps_windows_unique(a: AppV, window: u64, x_root: i32, y_root: i32)
    requires
        a.wf(),
        windows_unique(a.runtime),
    ensures
        windows_unique(crate::events::motion_spec(a, window, x_root, y_root).0.runtime),
{
    let mx = x_root as i64;
    let my = y_root as i64;
    let a1 = if a.runtime.mouse_state.button == crate::request::BUTTON_MOVE {
        crate::mouse::drag_spec(a, x_root, y_root).0
    } else {
        a
    };
    if a.runtime.mouse_state.button == crate::request::BUTTON_MOVE {
        lemma_drag_unique(a, x_root, y_root);
    }
    assert(windows_unique(a1.runtime));
    let a2 = if a1.runtime.mouse_state.button == crate::request::BUTTON_RESIZE {
        crate::mouse::resize_spec(a1, x_root, y_root).0
    } else {
        a1
    };
    if a1.runtime.mouse_state.button == crate::request::BUTTON_RESIZE {
        let win = a1.runtime.mouse_state.win;
        let a0 = AppV { runtime: RuntimeV { mouse_state: MouseState { pos: (mx, my), ..a1.runtime.mouse_state }, ..a1.runtime }, ..a1 };
        assert(same_windows(a1.runtime, a0.runtime));
        lemma_same_windows_unique(a1.runtime, a0.runtime);
        if let Some((s, w, c)) = window_pos(a1.runtime, win) {
            lemma_window_pos_spec(a1.runtime, win);
            let cl = a1.runtime.client(s as int, w as int, c as int);
            let (px, py) = a1.runtime.mouse_state.pos;
            let nw = crate::mouse::resized_dim(cl.w as i32, (mx - px) as i32, cl.minw, cl.maxw) as u32;
            let nh = crate::mouse::resized_dim(cl.h as i32, (my - py) as i32, cl.minh, cl.maxh) as u32;
            lemma_with_client_same_windows(a0.runtime, s as int, w as int, c as int, Client { w: nw, h: nh, ..cl });
            lemma_same_windows_unique(a0.runtime, a2.runtime);
        }
    }
    assert(windows_unique(a2.runtime));
    if window == a2.core.root_win {
        let a3 = crate::mouse::follow_upto(a2, mx, my, a2.runtime.screens.len() as int).0;
        lemma_follow_upto_screens(a2, mx, my, a2.runtime.screens.len() as int);
        assert(same_windows(a2.runtime, a3.runtime));
        lemma_same_windows_unique(a2.runtime, a3.runtime);
    }
}

/// Every window is on screens `scs` at one place only.
pub open spec fn screens_unique(scs: Seq<ScreenV>) -> bool {
    forall|s1: int, w1: int, c1: int, s2: int, w2: int, c2: int|
        #![trigger scs[s1].workspaces[w1].clients[c1], scs[s2].workspaces[w2].clients[c2]]
        0 <= s1 < scs.len() && 0 <= w1 < scs[s1].workspaces.len() && 0 <= c1 < scs[s1].workspaces[w1].clients.len()
            && 0 <= s2 < scs.len() && 0 <= w2 < scs[s2].workspaces.len() && 0 <= c2 < scs[s2].workspaces[w2].clients.len()
            && scs[s1].workspaces[w1].clients[c1].window_id == scs[s2].workspaces[w2].clients[c2].window_id
            ==> s1 == s2 && w1 == w2 && c1 == c2
}

/// Position `p` holds a client on screens `scs`.
pub open spec fn pos_ok(scs: Seq<ScreenV>, p: (int, int, int)) -> bool {
    0 <= p.0 < scs.len() && 0 <= p.1 < scs[p.0].workspaces.len() && 0 <= p.2 < scs[p.0].workspaces[p.1].clients.len()
}

/// Where a client of the popped screens was before the last screen was
/// removed.
pub open spec fn pop_source(scs: Seq<ScreenV>, p: (int, int, int)) -> (int, int, int) {
    if p.0 == 0 && p.2 >= scs[0].workspaces[p.1].clients.len() {
        ((scs.len() - 1) as int, p.1, p.2 - scs[0].workspaces[p.1].clients.len())
    } else {
        p
    }
}

/// Removing the last screen keeps every window at one place only.
proof fn lemma_pop_unique(scs: Seq<ScreenV>)
    requires
        scs.len() >= 2,
        screens_unique(scs),
    ensures
        screens_unique(crate::screens::pop_screen(scs)),
{
    let n = crate::screens::pop_screen(scs);
    let last = (scs.len() - 1) as int;
    assert forall|p: (int, int, int)| pos_ok(n, p) implies pos_ok(scs, #[trigger] pop_source(scs, p))
        && n[p.0].workspaces[p.1].clients[p.2] == scs[pop_source(scs, p).0].workspaces[pop_source(scs, p).1].clients[pop_source(scs, p).2] by {
        if p.0 == 0 {
            let first = scs[0];
            if p.1 < scs[last].workspaces.len() {
                assert(n[0].workspaces[p.1].clients == first.workspaces[p.1].clients + scs[last].workspaces[p.1].clients);
            } else {
                assert(n[0].workspaces[p.1] == first.workspaces[p.1]);
            }
        }
    }
    assert forall|s1: int, w1: int, c1: int, s2: int, w2: int, c2: int|
        0 <= s1 < n.len() && 0 <= w1 < n[s1].workspaces.len() && 0 <= c1 < n[s1].workspaces[w1].clients.len() && 0 <= s2 < n.len()
            && 0 <= w2 < n[s2].workspaces.len() && 0 <= c2 < n[s2].workspaces[w2].clients.len()
            && #[trigger] n[s1].workspaces[w1].clients[c1].window_id == #[trigger] n[s2].workspaces[w2].clients[c2].window_id
        implies s1 == s2 && w1 == w2 && c1 == c2 by {
        let q1 = pop_source(scs, (s1, w1, c1));
        let q2 = pop_source(scs, (s2, w2, c2));
        assert(pos_ok(n, (s1, w1, c1)));
        assert(pos_ok(n, (s2, w2, c2)));
        assert(pos_ok(scs, q1));
        assert(pos_ok(scs, q2));
        assert(scs[q1.0].workspaces[q1.1].clients[q1.2].window_id == scs[q2.0].workspaces[q2.1].clients[q2.2].window_id);
        assert(q1 == q2);
    }
}

/// Removing the screens beyond the first `m` keeps every window at one place only.
proof fn lemma_shrunk_unique(scs: Seq<ScreenV>, m: int)
    requires
        screens_unique(scs),
    ensures
        screens_unique(crate::screens::shrunk(scs, m)),
    decreases scs.len(),
{
    if !(scs.len() <= m || m <= 0) {
        lemma_pop_unique(scs);
        lemma_shrunk_unique(crate::screens::pop_screen(scs), m);
    }
}

/// Following a new report of the screens keeps every window managed at one
/// place only.
pub proof fn law_screens_update_keeps_windows_unique(rt: RuntimeV, infos: Seq<crate::screens::ScreenInfo>)
    requires
        windows_unique(rt),
    ensures
        windows_unique(RuntimeV { screens: crate::screens::screens_updated(rt.screens, infos), ..rt }),
{
    let scs = rt.screens;
    assert(screens_unique(scs)) by {
        assert forall|s1: int, w1: int, c1: int, s2: int, w2: int, c2: int|
            0 <= s1 < scs.len() && 0 <= w1 < scs[s1].workspaces.len() && 0 <= c1 < scs[s1].workspaces[w1].clients.len() && 0 <= s2
                < scs.len() && 0 <= w2 < scs[s2].workspaces.len() && 0 <= c2 < scs[s2].workspaces[w2].clients.len()
                && #[trigger] scs[s1].workspaces[w1].clients[c1].window_id == #[trigger] scs[s2].workspaces[w2].clients[c2].window_id
            implies s1 == s2 && w1 == w2 && c1 == c2 by {
            assert(rt.valid_pos(s1, w1, c1) && rt.valid_pos(s2, w2, c2));
            assert(rt.client(s1, w1, c1) == scs[s1].workspaces[w1].clients[c1]);
            assert(rt.client(s2, w2, c2) == scs[s2].workspaces[w2].clients[c2]);
        }
    }
    let kept = crate::screens::shrunk(scs, infos.len() as int);
    lemma_shrunk_unique(scs, infos.len() as int);
    let r2 = RuntimeV { screens: crate::screens::screens_updated(scs, infos), ..rt };
    assert forall|s1: int, w1: int, c1: int, s2: int, w2: int, c2: int|
        r2.valid_pos(s1, w1, c1) && r2.valid_pos(s2, w2, c2) && #[trigger] r2.client(s1, w1, c1).window_id == #[trigger] r2.client(
            s2,
            w2,
            c2,
        ).window_id implies s1 == s2 && w1 == w2 && c1 == c2 by {
        assert(s1 < kept.len() && s2 < kept.len());
        assert(r2.screens[s1].workspaces == kept[s1].workspaces);
        assert(r2.screens[s2].workspaces == kept[s2].workspaces);
        assert(kept[s1].workspaces[w1].clients[c1].window_id == kept[s2].workspaces[w2].clients[c2].window_id);
    }
}

// ---------------------------------------------------------------------------
// What single operations do, stated over their inputs
// ---------------------------------------------------------------------------

/// Moving the focused client to the next or previous screen puts it on top
/// (at the end) of the stack of that screen's current workspace, the one the
/// screen showed before the move.
#[verifier::spinoff_prover]
#[verifier::rlimit(40)]
pub proof fn law_move_to_screen_lands_on_current_workspace(a: AppV, d: ScreenSwitching)
    requires
        a.wf(),
        a.runtime.current_client_ok(),
        a.runtime.current_client is Some,
    ensures
        ({
            let rt = a.runtime;
            let ns = switched_screen(rt.current_screen as int, rt.screens.len() as int, d);
            let nw = rt.screens[ns].current_workspace as int;
            let id = rt.cur_ws().clients[rt.current_client->0 as int].window_id;
            let b = move_to_screen_spec(a, d).0;
            &&& 0 <= ns < rt.screens.len()
            &&& b.runtime.screens[ns].current_workspace == nw
            &&& b.runtime.ws(ns, nw).clients.len() > 0
            &&& b.runtime.ws(ns, nw).clients.last().window_id == id
        }),
{
    let rt = a.runtime;
    let index = rt.current_client->0 as int;
    let cs = rt.current_screen as int;
    let cw = rt.current_workspace as int;
    let n = rt.screens.len() as int;
    let ns = switched_screen(cs, n, d);
    assert(0 <= ns < n) by {
        match d {
            ScreenSwitching::Next => {
                assert(0 <= (cs + 1) % n < n) by (nonlinear_arith)
                    requires
                        n > 0,
                ;
            },
            ScreenSwitching::Previous => {
                assert(0 <= (cs + n - 1) % n < n) by (nonlinear_arith)
                    requires
                        n > 0,
                ;
            },
        }
    }
    crate::helper::lemma_wf_current_ok(rt);
    let client = rt.cur_ws().clients[index];
    let a1 = removed(a, cs, cw, index);
    lemma_removed_wf(a, cs, cw, index);
    let a2 = shift_spec(a1, None, None).0;
    lemma_shift_shape(a1);
    assert(a2.runtime.screens[ns].current_workspace == rt.screens[ns].current_workspace);
    let moved = carried(client, rt.screens[cs], rt.screens[ns]);
    let nw = a2.runtime.screens[ns].current_workspace as int;
    assert(screen_shape_wf(a2.runtime.screens[ns], ns));
    let a3 = pushed(a2, ns, nw, moved);
    assert(a3.runtime.ws(ns, nw).clients.last() == moved);
    assert(a3.runtime.screens[ns].current_workspace == nw);
    crate::helper::lemma_pushed_wf(a2, ns, nw, moved, ns, nw);
    lemma_arranged_upto(a3, a3.runtime.screens.len() as int);
    let a4 = arranged_current(a3);
    lemma_layout_only(a3, a4);
    assert(screen_layout_only(a3.runtime.screens[ns], a4.runtime.screens[ns]));
    assert(ws_layout_only(a3.runtime.ws(ns, nw), a4.runtime.ws(ns, nw)));
    let k = a3.runtime.ws(ns, nw).clients.len() - 1;
    assert(same_identity(a3.runtime.ws(ns, nw).clients[k], a4.runtime.ws(ns, nw).clients[k]));
    let w4 = a4.runtime.screens[ns].current_workspace as int;
    assert(screen_shape_wf(a4.runtime.screens[ns], ns));
    lemma_layout_ops(a4, ns, w4);
    let a5 = show_spec(a4, ns, w4).0;
    lemma_layout_only(a4, a5);
    assert(screen_layout_only(a4.runtime.screens[ns], a5.runtime.screens[ns]));
    assert(ws_layout_only(a4.runtime.ws(ns, nw), a5.runtime.ws(ns, nw)));
    assert(same_identity(a4.runtime.ws(ns, nw).clients[k], a5.runtime.ws(ns, nw).clients[k]));
    let w5 = a5.runtime.screens[cs].current_workspace as int;
    assert(screen_shape_wf(a5.runtime.screens[cs], cs));
    lemma_layout_ops(a5, cs, w5);
    let a6 = show_spec(a5, cs, w5).0;
    lemma_layout_only(a5, a6);
    assert(screen_layout_only(a5.runtime.screens[ns], a6.runtime.screens[ns]));
    assert(ws_layout_only(a5.runtime.ws(ns, nw), a6.runtime.ws(ns, nw)));
    assert(same_identity(a5.runtime.ws(ns, nw).clients[k], a6.runtime.ws(ns, nw).clients[k]));
    assert(a6 == move_to_screen_spec(a, d).0);
}

/// The first accepting rule decides the place.
proof fn lemma_rule_place_first(rules: Seq<crate::structs::PlacementRule>, f: crate::logic::PlacementFacts, cs: usize, cw: usize, i: int)
    requires
        0 <= i < rules.len(),
        crate::logic::rule_accepts(rules[i], f),
        forall|j: int| 0 <= j < i ==> !crate::logic::rule_accepts(#[trigger] rules[j], f),
    ensures
        crate::logic::rule_place(rules, f, cs, cw) == Some((
            match rules[i].rule_screen {
                Some(s) => s,
                None => cs,
            },
            match rules[i].rule_workspace {
                Some(w) => w,
                None => cw,
            },
        )),
    decreases i,
{
    if i > 0 {
        assert(!crate::logic::rule_accepts(rules[0], f));
        let r = rules.skip(1);
        assert forall|j: int| 0 <= j < i - 1 implies !crate::logic::rule_accepts(#[trigger] r[j], f) by {
            assert(r[j] == rules[j + 1]);
        }
        assert(r[i - 1] == rules[i]);
        lemma_rule_place_first(r, f, cs, cw, i - 1);
    }
}

/// No accepting rule gives no place.
proof fn lemma_rule_place_none(rules: Seq<crate::structs::PlacementRule>, f: crate::logic::PlacementFacts, cs: usize, cw: usize)
    requires
        forall|j: int| 0 <= j < rules.len() ==> !crate::logic::rule_accepts(#[trigger] rules[j], f),
    ensures
        crate::logic::rule_place(rules, f, cs, cw) is None,
    decreases rules.len(),
{
    if rules.len() > 0 {
        assert(!crate::logic::rule_accepts(rules[0], f));
        let r = rules.skip(1);
        assert forall|j: int| 0 <= j < r.len() implies !crate::logic::rule_accepts(#[trigger] r[j], f) by {
            assert(r[j] == rules[j + 1]);
        }
        lemma_rule_place_none(r, f, cs, cw);
    }
}

/// A new window that has no managed parent, no desktop to go back to and no
/// autostart rule goes where the first placement rule accepting it says: to
/// the rule's screen, or the current screen when the rule names none, and
/// to the rule's workspace, or the current workspace when it names none;
/// with no accepting rule it goes to the current screen and workspace.
pub proof fn law_placement_by_rules(a: AppV, f: crate::logic::PlacementFacts, scan: bool)
    requires
        crate::logic::parent_place(a.runtime, f) is None,
        crate::logic::startup_place(a.runtime, f, scan) is None,
        crate::logic::autostart_place(a.runtime, f.pid) is None,
    ensures
        ({
            let rules = a.config.placements@;
            let cs = a.runtime.current_screen;
            let cw = a.runtime.current_workspace;
            let p = crate::logic::placement(a, f, scan);
            &&& p.1 == 0
            &&& forall|i: int| 0 <= i < rules.len() && crate::logic::rule_accepts(#[trigger] rules[i], f) && (forall|j: int|
                0 <= j < i ==> !crate::logic::rule_accepts(#[trigger] rules[j], f)) ==> p.0 == (
                match rules[i].rule_screen {
                    Some(s) => s,
                    None => cs,
                },
                match rules[i].rule_workspace {
                    Some(w) => w,
                    None => cw,
                },
            )
            &&& (forall|j: int| 0 <= j < rules.len() ==> !crate::logic::rule_accepts(#[trigger] rules[j], f)) ==> p.0 == (cs, cw)
        }),
{
    let rules = a.config.placements@;
    let cs = a.runtime.current_screen;
    let cw = a.runtime.current_workspace;
    assert forall|i: int| 0 <= i < rules.len() && crate::logic::rule_accepts(#[trigger] rules[i], f) && (forall|j: int|
        0 <= j < i ==> !crate::logic::rule_accepts(#[trigger] rules[j], f)) implies crate::logic::placement(a, f, scan).0 == (
        match rules[i].rule_screen {
            Some(s) => s,
            None => cs,
        },
        match rules[i].rule_workspace {
            Some(w) => w,
            None => cw,
        },
    ) by {
        lemma_rule_place_first(rules, f, cs, cw, i);
    }
    if forall|j: int| 0 <= j < rules.len() ==> !crate::logic::rule_accepts(#[trigger] rules[j], f) {
        lemma_rule_place_none(rules, f, cs, cw);
    }
}

/// A size that follows a pointer move of `d` from `cur` stays inside the
/// size hints: above `min`, and below `max` unless `max` is 0 (no maximum).
pub open spec fn within_hints(cur: int, d: int, min: i32, max: i32) -> bool {
    &&& cur + d > min
    &&& (max == 0 || 0 < max && cur + d < max)
}

/// Resizing the window held with the resize button follows the pointer:
/// its width grows by the horizontal move and its height by the vertical
/// move, each when the new size stays within its size hints, else that size
/// stays; the width does not depend on the vertical position nor the height
/// on the horizontal one; the last pointer position becomes the pointer.
pub proof fn law_resize_follows_pointer(a: AppV, x_root: i32, y_root: i32, x2: i32, y2: i32)
    requires
        a.wf(),
        window_pos(a.runtime, a.runtime.mouse_state.win) is Some,
    ensures
        ({
            let (s, w, c) = window_pos(a.runtime, a.runtime.mouse_state.win)->0;
            let cl = a.runtime.client(s as int, w as int, c as int);
            let (px, py) = a.runtime.mouse_state.pos;
            let dx = x_root - px;
            let dy = y_root - py;
            let b = crate::mouse::resize_spec(a, x_root, y_root).0;
            let nc = b.runtime.client(s as int, w as int, c as int);
            &&& b.runtime.mouse_state.pos == (x_root as i64, y_root as i64)
            &&& (i32::MIN <= dy <= i32::MAX && cl.h <= i32::MAX && i32::MIN <= cl.h + dy <= i32::MAX ==> nc.h == if within_hints(cl.h as int, dy, cl.minh, cl.maxh) {
                (cl.h + dy) as u32
            } else {
                cl.h
            })
            &&& (i32::MIN <= dx <= i32::MAX && cl.w <= i32::MAX && i32::MIN <= cl.w + dx <= i32::MAX ==> nc.w == if within_hints(cl.w as int, dx, cl.minw, cl.maxw) {
                (cl.w + dx) as u32
            } else {
                cl.w
            })
            &&& nc.h == crate::mouse::resize_spec(a, x2, y_root).0.runtime.client(s as int, w as int, c as int).h
            &&& nc.w == crate::mouse::resize_spec(a, x_root, y2).0.runtime.client(s as int, w as int, c as int).w
        }),
{
    let win = a.runtime.mouse_state.win;
    lemma_window_pos_spec(a.runtime, win);
    let (s, w, c) = window_pos(a.runtime, win)->0;
    let cl = a.runtime.client(s as int, w as int, c as int);
    assert(a.runtime.valid_pos(s as int, w as int, c as int));
    let (px, py) = a.runtime.mouse_state.pos;
    let dy = y_root - py;
    let dx = x_root - px;
    if i32::MIN <= dy <= i32::MAX {
        assert((y_root as i64 - py) as i32 == dy);
    }
    if i32::MIN <= dx <= i32::MAX {
        assert((x_root as i64 - px) as i32 == dx);
    }
}

/// Half of `v`, rounded toward zero.
pub open spec fn half_toward_zero(v: int) -> int {
    if v >= 0 {
        v / 2
    } else {
        -((-v) / 2)
    }
}

/// A floating window that asks for a new width and height gets them and is
/// centred on its screen: horizontally in the screen's width, vertically in
/// the screen's height below the top dock (halves rounded toward zero), as
/// long as the sizes are pixel sizes.
pub proof fn law_configure_request_centres(a: AppV, window: u64, cr: crate::events::ConfigureRequest)
    requires
        a.wf(),
        window_pos(a.runtime, window) is Some,
        cr.value_mask & crate::events::CW_WIDTH != 0,
        cr.value_mask & crate::events::CW_HEIGHT != 0,
        0 <= cr.width <= 0x7fff,
        0 <= cr.height <= 0x7fff,
        ({
            let (s, w, c) = window_pos(a.runtime, window)->0;
            let sc = a.runtime.screens[s as int];
            &&& a.runtime.client(s as int, w as int, c as int).floating
            &&& 0 <= sc.width <= 0x7fff && 0 <= sc.height <= 0x7fff
            &&& -0x8000 <= sc.x <= 0x7fff && -0x8000 <= sc.y <= 0x7fff
            &&& sc.bar_offsets.up <= 0x7fff
        }),
    ensures
        ({
            let (s, w, c) = window_pos(a.runtime, window)->0;
            let sc = a.runtime.screens[s as int];
            let nc = crate::events::configure_request_spec(a, window, cr).0.runtime.client(s as int, w as int, c as int);
            &&& nc.w == cr.width
            &&& nc.h == cr.height
            &&& nc.x == sc.x + half_toward_zero(sc.width - cr.width)
            &&& nc.y == sc.y + half_toward_zero(sc.height - sc.bar_offsets.up - cr.height)
        }),
{
    lemma_window_pos_spec(a.runtime, window);
    let (s, w, c) = window_pos(a.runtime, window)->0;
    assert(a.runtime.valid_pos(s as int, w as int, c as int));
}

/// A product within range is not cropped (32 bits).
proof fn lemma_crop32(x: int)
    requires
        0 <= x <= i32::MAX,
    ensures
        vstd::wrapping::i32_specs::signed_crop(x) == x,
{
    vstd::arithmetic::div_mod::lemma_small_mod(x as nat, 0x1_0000_0000nat);
}

/// A product within range is not cropped (64 bits).
proof fn lemma_crop64(x: int)
    requires
        0 <= x <= i64::MAX,
    ensures
        vstd::wrapping::i64_specs::signed_crop(x) == x,
{
    vstd::arithmetic::div_mod::lemma_small_mod(x as nat, 0x1_0000_0000_0000_0000nat);
}

/// Tiling a workspace with both a master and a stack column (its master
/// capacity is positive and below its number of non-floating clients)
/// stacks each column from the top: the `k`-th window of a column (counted
/// from the end of the client list, master column first) has its top edge at
/// the top dock plus a gap plus `k` times the column's window height plus a
/// gap, where a column of `n` windows shares the usable height less `n + 1`
/// gaps. So the windows of a column follow each other and none covers
/// another. (Stated where the sizes are pixel sizes.)
#[verifier::spinoff_prover]
#[verifier::rlimit(40)]
pub proof fn law_tiled_columns(a: AppV, s: int, w: int, c: int)
    requires
        a.runtime.valid_pos(s, w, c),
        crate::helper::tiled(a.runtime.ws(s, w).clients[c]),
        ({
            let ws = a.runtime.ws(s, w);
            let sc = a.runtime.screens[s];
            let ss = crate::helper::count_non_floating(ws.clients);
            &&& 0 < ws.master_capacity < ss
            &&& 0 <= sc.height <= 0x7fff
            &&& sc.bar_offsets.up + sc.bar_offsets.down <= sc.height
            &&& a.config.gap_width <= 0xff
            &&& ws.clients.len() <= 0xff
        }),
    ensures
        ({
            let ws = a.runtime.ws(s, w);
            let sc = a.runtime.screens[s];
            let cs = ws.clients;
            let gap = a.config.gap_width as int;
            let mc = ws.master_capacity as int;
            let ss = crate::helper::count_non_floating(cs);
            let idx = crate::helper::count_tiled(cs.subrange(c + 1, cs.len() as int));
            let usable = sc.height - (sc.bar_offsets.up + sc.bar_offsets.down);
            let top = sc.bar_offsets.up as int;
            let y = crate::helper::arranged(a, s, w).runtime.ws(s, w).clients[c].y as int;
            &&& (idx < mc && usable - gap - mc * gap >= 0 ==> y == top + gap + idx * ((usable - gap - mc * gap) / mc + gap))
            &&& (idx >= mc && usable - gap - (ss - mc) * gap >= 0 ==> y == top + gap + (idx - mc) * ((usable - gap - (ss - mc) * gap) / (
            ss - mc) + gap))
        }),
{
    let ws = a.runtime.ws(s, w);
    let sc = a.runtime.screens[s];
    let cs = ws.clients;
    let t = crate::helper::tiling(sc, ws, a.config.gap_width, a.config.border_size);
    let gap = a.config.gap_width as int;
    let mc = ws.master_capacity as int;
    let ss = crate::helper::count_non_floating(cs);
    let idx = crate::helper::count_tiled(cs.subrange(c + 1, cs.len() as int));
    let usable = sc.height - (sc.bar_offsets.up + sc.bar_offsets.down);
    let top = sc.bar_offsets.up as int;
    crate::helper::lemma_count_bounds(cs);
    crate::helper::lemma_count_bounds(cs.subrange(c + 1, cs.len() as int));
    assert(t.stack_size == ss);
    assert(t.master_capacity == mc);
    assert(t.gap == gap);
    assert(t.top == top);
    assert(t.usable_height == usable);
    let b = crate::helper::arranged(a, s, w);
    assert(b.runtime.ws(s, w).clients[c] == crate::helper::tile(cs[c], idx, t));
    assert(0 <= idx < cs.len());
    let n: int = if idx < mc { mc } else { ss - mc };
    let kk: int = if idx < mc { idx } else { idx - mc };
    if usable - gap - n * gap >= 0 {
        assert(1 <= n <= 0xff);
        assert(0 <= n * gap <= 0xff * 0xff) by (nonlinear_arith)
            requires
                1 <= n <= 0xff,
                0 <= gap <= 0xff,
        ;
        lemma_crop64(n * gap);
        let num = usable - gap - n * gap;
        assert(vstd::wrapping::i64_specs::wrapping_mul(n as i64, t.gap as i64) == n * gap);
        assert(vstd::wrapping::i64_specs::wrapping_sub((t.usable_height - t.gap as i64) as i64, (n * gap) as i64) == num);
        let wh = num / n;
        assert(0 <= wh <= num) by (nonlinear_arith)
            requires
                0 <= num,
                1 <= n,
                wh == num / n,
        ;
        assert(crate::helper::column_height(t, n as i64) == wh);
        assert(0 <= kk < 0xff);
        assert(0 <= (wh + gap) * kk <= (0x7fff + 0xff) * 0xff) by (nonlinear_arith)
            requires
                0 <= wh <= 0x7fff,
                0 <= gap <= 0xff,
                0 <= kk < 0xff,
        ;
        lemma_crop32((wh + gap) * kk);
        assert(vstd::wrapping::i32_specs::wrapping_mul(vstd::wrapping::i32_specs::wrapping_add(wh as i32, t.gap), kk as i32)
            == (wh + gap) * kk);
    }
}

} // verus!
