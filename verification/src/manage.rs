//! Adding windows to the window manager's state and removing them.

use vstd::prelude::*;

use crate::helper::{
    arrange_workspace, arranged, current_client_id, find_window_indexes, get_current_client_id, hide_spec,
    hide_workspace, lemma_layout_ops, lemma_pushed_wf, lemma_removed_wf, lemma_wf_current_ok, managed, pushed,
    remove_client, removed, show_spec, show_workspace, update_client_list, client_list_reqs, window_pos, hinted,
    update_normal_hints, SizeHints, update_client_desktop,
};
use crate::logic::{
    arrange_all, arranged_all, focus, focus_spec, get_window_placement, placement, shift_current_client, shift_spec,
    shift_ok, unfocus, unfocus_reqs, urgent_set, set_urgent, PlacementFacts,
};
use crate::request::{EventMask, PropertyKind, Request};
use crate::structs::{
    lemma_layout_only, lemma_runtime_view, lemma_screens_count_eq, offsets_wf, screen_shape_wf, screen_wf, ws_shape_wf,
    workspace_wf, bar_wf, in_i16, AppV, Application, Bar, BarOffsets, Client, RuntimeV, ScreenV, WorkspaceV,
};

verus! {

// ---------------------------------------------------------------------------
// Docks
// ---------------------------------------------------------------------------

/// The point lies on the screen.
pub open spec fn holds_point(sc: ScreenV, x: i64, y: i64) -> bool {
    sc.x <= x < sc.x + sc.width && sc.y <= y < sc.y + sc.height
}

/// Index of the first screen from `k` on that holds the point.
pub open spec fn first_holding(scs: Seq<ScreenV>, x: i64, y: i64, k: int) -> Option<int>
    decreases scs.len() - k,
{
    if k < 0 || k >= scs.len() {
        None
    } else if holds_point(scs[k], x, y) {
        Some(k)
    } else {
        first_holding(scs, x, y, k + 1)
    }
}

/// Offsets of a screen after a dock is found on it: a wide dock takes its
/// height at the top (when it starts at the screen's top) or the bottom; a
/// tall dock takes its width at the left (when it starts at the screen's
/// left) or the right.
pub open spec fn docked(o: BarOffsets, b: Bar, sc: ScreenV) -> BarOffsets {
    if b.w > b.h {
        if b.y == sc.y {
            BarOffsets { up: b.h, ..o }
        } else {
            BarOffsets { down: b.h, ..o }
        }
    } else {
        if b.x == sc.x {
            BarOffsets { left: b.w, ..o }
        } else {
            BarOffsets { right: b.w, ..o }
        }
    }
}

/// Offsets of screen `s` from the docks, each dock counting on the first
/// screen that holds its origin.
pub open spec fn dock_offsets(bars: Seq<Bar>, scs: Seq<ScreenV>, s: int) -> BarOffsets
    decreases bars.len(),
{
    if bars.len() == 0 {
        BarOffsets { left: 0, up: 0, right: 0, down: 0 }
    } else {
        let o = dock_offsets(bars.drop_last(), scs, s);
        let b = bars.last();
        if first_holding(scs, b.x, b.y, 0) == Some(s) {
            docked(o, b, scs[s])
        } else {
            o
        }
    }
}

/// State with the screens' offsets computed from the first `n` docks.
pub open spec fn docks_upto(a: AppV, n: int) -> AppV {
    let scs = a.runtime.screens;
    AppV {
        runtime: RuntimeV {
            screens: Seq::new(
                scs.len(),
                |s: int| ScreenV { bar_offsets: dock_offsets(a.runtime.bars.take(n), scs, s), ..scs[s] },
            ),
            ..a.runtime
        },
        ..a
    }
}

/// State and requests of `update_docks`.
pub open spec fn update_docks_spec(a: AppV) -> (AppV, Seq<Request>) {
    let b = arranged_all(docks_upto(a, a.runtime.bars.len() as int));
    show_spec(b, b.runtime.current_screen as int, b.runtime.current_workspace as int)
}

/// Dock offsets come from 16-bit dock sizes.
pub proof fn lemma_dock_offsets_wf(bars: Seq<Bar>, scs: Seq<ScreenV>, s: int)
    requires
        forall|b: int| 0 <= b < bars.len() ==> #[trigger] bar_wf(bars[b]),
    ensures
        offsets_wf(dock_offsets(bars, scs, s)),
    decreases bars.len(),
{
    if bars.len() > 0 {
        assert(bar_wf(bars[bars.len() - 1]));
        lemma_dock_offsets_wf(bars.drop_last(), scs, s);
    }
}

/// Changing only the screens' offsets, to 16-bit sizes, keeps the invariant
/// and the clients.
pub proof fn lemma_offsets_only(a: AppV, b: AppV)
    requires
        a.wf(),
        b == (AppV { runtime: RuntimeV { screens: b.runtime.screens, ..a.runtime }, ..a }),
        b.runtime.screens.len() == a.runtime.screens.len(),
        forall|s: int| 0 <= s < a.runtime.screens.len() ==> #[trigger] b.runtime.screens[s] == (ScreenV {
            bar_offsets: b.runtime.screens[s].bar_offsets,
            ..a.runtime.screens[s]
        }) && offsets_wf(b.runtime.screens[s].bar_offsets),
    ensures
        b.wf(),
        b.runtime.client_count() == a.runtime.client_count(),
{
    assert forall|s: int| 0 <= s < b.runtime.screens.len() implies #[trigger] screen_wf(b.runtime.screens[s], s) by {
        assert(screen_wf(a.runtime.screens[s], s));
        let sc = b.runtime.screens[s];
        assert forall|w: int| 0 <= w < sc.workspaces.len() implies #[trigger] ws_shape_wf(sc.workspaces[w]) by {
            assert(ws_shape_wf(a.runtime.screens[s].workspaces[w]));
        }
        assert forall|w: int| 0 <= w < sc.workspaces.len() implies #[trigger] workspace_wf(sc.workspaces[w]) by {
            assert(workspace_wf(a.runtime.screens[s].workspaces[w]));
        }
    }
    assert forall|s: int| 0 <= s < b.runtime.screens.len() implies #[trigger] screen_shape_wf(b.runtime.screens[s], s) by {
        assert(screen_wf(b.runtime.screens[s], s));
    }
    lemma_screens_count_eq(a.runtime.screens, b.runtime.screens);
}

/// Index of the first screen that holds the point.
fn find_dock_screen(app: &Application, x: i64, y: i64) -> (r: Option<usize>)
    requires
        forall|s: int| 0 <= s < app@.runtime.screens.len() ==> #[trigger] screen_shape_wf(app@.runtime.screens[s], s),
    ensures
        r == (match first_holding(app@.runtime.screens, x, y, 0) {
            Some(k) => Some(k as usize),
            None => None::<usize>,
        }),
{
    let ghost scs = app@.runtime.screens;
    let n = app.runtime.screens.len();
    let mut k: usize = 0;
    while k < n
        invariant
            n == scs.len(),
            k <= n,
            scs == app@.runtime.screens,
            forall|s: int| 0 <= s < scs.len() ==> #[trigger] screen_shape_wf(scs[s], s),
            first_holding(scs, x, y, 0) == first_holding(scs, x, y, k as int),
        decreases n - k,
    {
        proof {
            lemma_runtime_view(&app.runtime, k as int, 0);
            assert(screen_shape_wf(scs[k as int], k as int));
        }
        let sc = &app.runtime.screens[k];
        if sc.x <= x && x < sc.x + sc.width && sc.y <= y && y < sc.y + sc.height {
            return Some(k);
        }
        k = k + 1;
    }
    None
}

/// Compute every screen's dock offsets from the docks, retile every
/// workspace and show the current one.
pub fn update_docks(app: &mut Application, reqs: &mut Vec<Request>)
    requires
        old(app)@.wf(),
    ensures
        final(app)@.config == old(app)@.config,
        final(app)@ == update_docks_spec(old(app)@).0,
        final(reqs)@ == old(reqs)@ + update_docks_spec(old(app)@).1,
        final(app)@.wf(),
        final(app)@.runtime.client_count() == old(app)@.runtime.client_count(),
{
    let ghost a = app@;
    let n = app.runtime.screens.len();
    let mut s: usize = 0;
    proof {
        assert(a.runtime.bars.take(0) =~= Seq::<Bar>::empty());
    }
    while s < n
        invariant
            n == a.runtime.screens.len(),
            s <= n,
            app@ == (AppV {
                runtime: RuntimeV {
                    screens: Seq::new(n as nat, |k: int| if k < s { docks_upto(a, 0).runtime.screens[k] } else { a.runtime.screens[k] }),
                    ..a.runtime
                },
                ..a
            }),
        decreases n - s,
    {
        let ghost before_rt = app.runtime;
        proof {
            lemma_runtime_view(&app.runtime, s as int, 0);
        }
        app.runtime.screens[s].bar_offsets = BarOffsets::zero();
        proof {
            crate::structs::lemma_screen_changed(before_rt, app.runtime, s as int);
            assert(app@.runtime.screens =~= Seq::new(n as nat, |k: int| if k < s + 1 { docks_upto(a, 0).runtime.screens[k] } else { a.runtime.screens[k] }));
        }
        s = s + 1;
    }
    proof {
        assert(app@ =~~= docks_upto(a, 0));
    }
    let nb = app.runtime.bars.len();
    let mut b: usize = 0;
    while b < nb
        invariant
            a.wf(),
            nb == a.runtime.bars.len(),
            b <= nb,
            app@ == docks_upto(a, b as int),
        decreases nb - b,
    {
        let bar = app.runtime.bars[b];
        proof {
            assert(a.runtime.bars.take(b + 1).drop_last() =~= a.runtime.bars.take(b as int));
            assert(forall|k: int| 0 <= k < app@.runtime.screens.len() ==> #[trigger] screen_shape_wf(a.runtime.screens[k], k));
            assert forall|k: int| 0 <= k < app@.runtime.screens.len() implies #[trigger] screen_shape_wf(app@.runtime.screens[k], k) by {
                assert(screen_shape_wf(a.runtime.screens[k], k));
                lemma_dock_offsets_wf(a.runtime.bars.take(b as int), a.runtime.screens, k);
                assert forall|w: int| 0 <= w < app@.runtime.screens[k].workspaces.len() implies #[trigger] ws_shape_wf(app@.runtime.screens[k].workspaces[w]) by {
                    assert(ws_shape_wf(a.runtime.screens[k].workspaces[w]));
                }
            }
            assert(first_holding(app@.runtime.screens, bar.x, bar.y, 0) == first_holding(a.runtime.screens, bar.x, bar.y, 0)) by {
                lemma_first_holding_frame(app@.runtime.screens, a.runtime.screens, bar.x, bar.y, 0);
            }
        }
        if let Some(k) = find_dock_screen(app, bar.x, bar.y) {
            proof {
                lemma_first_holding_range(app@.runtime.screens, bar.x, bar.y, 0);
                lemma_runtime_view(&app.runtime, k as int, 0);
            }
            let sx = app.runtime.screens[k].x;
            let sy = app.runtime.screens[k].y;
            let mut ba = app.runtime.screens[k].bar_offsets;
            if bar.w > bar.h {
                if bar.y == sy {
                    ba.up = bar.h;
                } else {
                    ba.down = bar.h;
                }
            } else {
                if bar.x == sx {
                    ba.left = bar.w;
                } else {
                    ba.right = bar.w;
                }
            }
            let ghost before_rt = app.runtime;
            app.runtime.screens[k].bar_offsets = ba;
            proof {
                crate::structs::lemma_screen_changed(before_rt, app.runtime, k as int);
                assert(app@.runtime.screens =~= docks_upto(a, b + 1).runtime.screens);
                assert(app@ =~~= docks_upto(a, b + 1));
            }
        } else {
            proof {
                assert(app@.runtime.screens =~= docks_upto(a, b + 1).runtime.screens);
                assert(app@ =~~= docks_upto(a, b + 1));
            }
        }
        b = b + 1;
    }
    let ghost d = app@;
    proof {
        assert(a.runtime.bars.take(nb as int) =~= a.runtime.bars);
        assert forall|k: int| 0 <= k < a.runtime.screens.len() implies #[trigger] d.runtime.screens[k] == (ScreenV {
            bar_offsets: d.runtime.screens[k].bar_offsets,
            ..a.runtime.screens[k]
        }) && offsets_wf(d.runtime.screens[k].bar_offsets) by {
            lemma_dock_offsets_wf(a.runtime.bars, a.runtime.screens, k);
        }
        lemma_offsets_only(a, d);
    }
    arrange_all(app);
    let ghost e = app@;
    let cs = app.runtime.current_screen;
    let cw = app.runtime.current_workspace;
    proof {
        lemma_layout_only(d, e);
        lemma_wf_current_ok(e.runtime);
    }
    show_workspace(app, cs, cw, reqs);
    proof {
        lemma_layout_ops(e, cs as int, cw as int);
        lemma_layout_only(e, app@);
    }
}

/// The first screen holding a point is a screen that holds it.
proof fn lemma_first_holding_range(scs: Seq<ScreenV>, x: i64, y: i64, k: int)
    ensures
        first_holding(scs, x, y, k) matches Some(i) ==> k <= i < scs.len() && holds_point(scs[i], x, y),
    decreases scs.len() - k,
{
    if 0 <= k < scs.len() {
        lemma_first_holding_range(scs, x, y, k + 1);
    }
}

/// Screens with the same geometry hold the same points.
proof fn lemma_first_holding_frame(s1: Seq<ScreenV>, s2: Seq<ScreenV>, x: i64, y: i64, k: int)
    requires
        s1.len() == s2.len(),
        forall|i: int| 0 <= i < s1.len() ==> #[trigger] s1[i].x == s2[i].x && s1[i].y == s2[i].y && s1[i].width == s2[i].width
            && s1[i].height == s2[i].height,
    ensures
        first_holding(s1, x, y, k) == first_holding(s2, x, y, k),
    decreases s1.len() - k,
{
    if 0 <= k < s1.len() {
        lemma_first_holding_frame(s1, s2, x, y, k + 1);
    }
}


/// The dock of a window with the given attributes.
pub open spec fn bar_of(wa: WindowAttributes, win: u64) -> Bar {
    Bar { window_id: win, x: wa.x as i64, y: wa.y as i64, w: wa.width as usize, h: wa.height as usize }
}

/// State and requests of `attach_dock`.
pub open spec fn attach_spec(a: AppV, wa: WindowAttributes, win: u64) -> (AppV, Seq<Request>) {
    update_docks_spec(AppV { runtime: RuntimeV { bars: a.runtime.bars.push(bar_of(wa, win)), ..a.runtime }, ..a })
}

/// Register a dock window and recompute the docks.
pub fn attach_dock(app: &mut Application, wa: WindowAttributes, win: u64, reqs: &mut Vec<Request>)
    requires
        old(app)@.wf(),
    ensures
        final(app)@.config == old(app)@.config,
        final(app)@ == attach_spec(old(app)@, wa, win).0,
        final(reqs)@ == old(reqs)@ + attach_spec(old(app)@, wa, win).1,
        final(app)@.wf(),
        final(app)@.runtime.client_count() == old(app)@.runtime.client_count(),
{
    let ghost a = app@;
    app.runtime.bars.push(Bar { window_id: win, x: wa.x as i64, y: wa.y as i64, w: wa.width as usize, h: wa.height as usize });
    proof {
        assert(app@ =~~= AppV { runtime: RuntimeV { bars: a.runtime.bars.push(bar_of(wa, win)), ..a.runtime }, ..a });
        assert forall|b: int| 0 <= b < app@.runtime.bars.len() implies #[trigger] bar_wf(app@.runtime.bars[b]) by {
            if b < a.runtime.bars.len() {
                assert(bar_wf(a.runtime.bars[b]));
            }
        }
    }
    update_docks(app, reqs);
}

/// The docks without those of window `win`.
pub open spec fn bars_without(bars: Seq<Bar>, win: u64) -> Seq<Bar> {
    bars.filter(|b: Bar| b.window_id != win)
}

/// State and requests of `detach_dock`.
pub open spec fn detach_spec(a: AppV, win: u64) -> (AppV, Seq<Request>) {
    update_docks_spec(AppV { runtime: RuntimeV { bars: bars_without(a.runtime.bars, win), ..a.runtime }, ..a })
}

/// Forget the docks of window `win` and recompute the docks.
pub fn detach_dock(app: &mut Application, win: u64, reqs: &mut Vec<Request>)
    requires
        old(app)@.wf(),
    ensures
        final(app)@.config == old(app)@.config,
        final(app)@ == detach_spec(old(app)@, win).0,
        final(reqs)@ == old(reqs)@ + detach_spec(old(app)@, win).1,
        final(app)@.wf(),
        final(app)@.runtime.client_count() == old(app)@.runtime.client_count(),
{
    let ghost a = app@;
    let ghost bars = a.runtime.bars;
    let mut kept: Vec<Bar> = Vec::new();
    let mut i: usize = 0;
    proof {
        reveal(Seq::filter);
        assert(bars.take(0).filter(|b: Bar| b.window_id != win) =~= Seq::<Bar>::empty());
        assert(a.runtime.shape_wf());
    }
    while i < app.runtime.bars.len()
        invariant
            app@ == a,
            bars == app.runtime.bars@,
            i <= bars.len(),
            kept@ == bars.take(i as int).filter(|b: Bar| b.window_id != win),
            forall|k: int| 0 <= k < kept@.len() ==> #[trigger] bar_wf(kept@[k]),
            forall|k: int| 0 <= k < bars.len() ==> #[trigger] bar_wf(bars[k]),
            a.wf(),
        decreases bars.len() - i,
    {
        let b = app.runtime.bars[i];
        proof {
            reveal(Seq::filter);
            assert(bars.take(i + 1).drop_last() =~= bars.take(i as int));
            assert(bar_wf(bars[i as int]));
        }
        if b.window_id != win {
            kept.push(b);
        }
        i = i + 1;
    }
    proof {
        assert(bars.take(bars.len() as int) =~= bars);
    }
    app.runtime.bars = kept;
    proof {
        assert(app@ =~~= AppV { runtime: RuntimeV { bars: bars_without(a.runtime.bars, win), ..a.runtime }, ..a });
    }
    update_docks(app, reqs);
}

// ---------------------------------------------------------------------------
// Managing and unmanaging windows
// ---------------------------------------------------------------------------

/// The attributes of a window the window manager reads.
#[derive(Clone, Copy, PartialEq, Eq, Structural, Debug)]
pub struct WindowAttributes {
    pub x: i16,
    pub y: i16,
    pub width: u16,
    pub height: u16,
    pub override_redirect: bool,
}

/// What the server tells about a window that asks to be managed.
#[derive(Debug)]
pub struct WindowFacts {
    /// Its attributes, when they could be read.
    pub attributes: Option<WindowAttributes>,
    /// First atom of its `_NET_WM_WINDOW_TYPE` (0 if none).
    pub window_type: u64,
    /// First atom of its `_NET_WM_STATE` (0 if none).
    pub state: u64,
    /// Its `WM_NORMAL_HINTS`, when set.
    pub hints: Option<SizeHints>,
    /// What decides its place.
    pub placement: PlacementFacts,
}

/// The client made for a new window: its attributes' geometry shifted by
/// the current screen's left and top docks, visible, its size hints
/// applied, fullscreen when its state says so, floating when fullscreen, a
/// dialog, of fixed size or transient, and with the configured border when
/// floating.
pub open spec fn made_client(a: AppV, win: u64, wa: WindowAttributes, f: WindowFacts, trans: u64, name: String) -> Client {
    let off = a.runtime.screens[a.runtime.current_screen as int].bar_offsets;
    let c0 = Client {
        window_id: win,
        window_name: name,
        x: (wa.x as int + off.left as int) as i32,
        y: (wa.y as int + off.up as int) as i32,
        w: wa.width as u32,
        h: wa.height as u32,
        ow: wa.width as u32,
        oh: wa.height as u32,
        border: 0,
        visible: true,
        floating: false,
        fullscreen: false,
        fixed: false,
        urgent: false,
        minw: 0,
        minh: 0,
        maxw: 0,
        maxh: 0,
    };
    let c1 = hinted(c0, f.hints);
    let fs = f.state == a.atoms.net_wm_fullscreen;
    let fl = fs || f.window_type == a.atoms.net_wm_window_type_dialog || c1.fixed || trans != 0;
    Client { floating: fl, fullscreen: fs, border: if fl { a.config.border_size as u32 } else { 0 }, ..c1 }
}

/// A coordinate past the screen's extent taken modulo (rounding toward
/// zero) the screen's origin on that axis.
pub open spec fn folded(v: i32, extent: i64, origin: i64) -> i32 {
    if v > extent as i32 {
        match v.checked_rem(origin as i32) {
            Some(r) => r,
            None => v,
        }
    } else {
        v
    }
}

/// The fold of a coordinate divides by a non-zero origin.
pub open spec fn fold_ok(v: i32, extent: i64, origin: i64) -> bool {
    v > extent as i32 ==> v.checked_rem(origin as i32) is Some
}

/// A floating client with its position folded onto screen `sc`.
pub open spec fn placed_client(cl: Client, sc: ScreenV) -> Client {
    if cl.floating {
        Client { x: folded(cl.x, sc.width, sc.x), y: folded(cl.y, sc.height, sc.y), ..cl }
    } else {
        cl
    }
}

/// State with a client put on top of workspace `(s, w)` and both trackers
/// pointing at it.
pub open spec fn client_added(a: AppV, s: int, w: int, cl: Client) -> AppV {
    let ws = a.runtime.ws(s, w);
    let n = ws.clients.len();
    AppV {
        runtime: RuntimeV {
            current_client: Some(n as usize),
            ..a.runtime.with_ws(s, w, WorkspaceV { clients: ws.clients.push(cl), current_client: Some(n as usize), ..ws })
        },
        ..a
    }
}

/// Where a new (non-dock) window goes, and the window it is transient for.
pub open spec fn new_window_place(a: AppV, f: WindowFacts, scan: bool) -> ((usize, usize), u64) {
    placement(a, f.placement, scan)
}

/// The client of a new (non-dock) window, placed.
pub open spec fn new_window_client(a: AppV, win: u64, wa: WindowAttributes, f: WindowFacts, scan: bool, name: String) -> Client {
    let ((s, w), trans) = new_window_place(a, f, scan);
    placed_client(made_client(a, win, wa, f, trans, name), a.runtime.screens[s as int])
}

/// State and requests of managing a new (non-dock) window: select its
/// events, unfocus the focused client, put it on top of its workspace,
/// append it to the client list, set its desktop, border and `WM_STATE`,
/// retile its workspace, show it (or hide it and mark it urgent when its
/// workspace is not shown), map it and focus it when it is on the current
/// workspace.
pub open spec fn new_window_spec(a: AppV, win: u64, wa: WindowAttributes, f: WindowFacts, scan: bool, name: String) -> (AppV, Seq<Request>) {
    let ((s0, w0), _trans) = new_window_place(a, f, scan);
    let s = s0 as int;
    let w = w0 as int;
    let cl = new_window_client(a, win, wa, f, scan, name);
    let r0 = seq![Request::SelectInput { win, mask: EventMask::Client }] + match current_client_id(a.runtime) {
        Some(cw) => unfocus_reqs(a, cw),
        None => Seq::empty(),
    };
    let a1 = client_added(a, s, w, cl);
    let r1 = seq![
        Request::AppendProperty { win: a.core.root_win, property: a.atoms.net_client_list, kind: PropertyKind::Window, value: win },
        Request::SetProperty { win, property: a.atoms.net_wm_desktop, kind: PropertyKind::Cardinal, value: (w + s * 10) as u64 },
        Request::SetConfiguredBorder { win, width: a.config.border_size as i32 },
        Request::SetWmState { win, state: 1 },
    ];
    let (a4, r4) = settle_spec(a1, s, w, win);
    (a4, r0 + r1 + r4)
}

/// State and requests after a new client joined workspace `(s, w)`: the
/// workspace is retiled and shown (or hidden, with the client marked
/// urgent, when it is not its screen's current workspace), the window is
/// mapped and, when the workspace is the current one, focused.
#[verifier::opaque]
pub open spec fn settle_spec(a1: AppV, s: int, w: int, win: u64) -> (AppV, Seq<Request>) {
    let a2 = arranged(a1, s, w);
    let (a3, r3) = if w == a2.runtime.screens[s].current_workspace {
        show_spec(a2, s, w)
    } else {
        (urgent_set(hide_spec(a2, s, w).0, win, true), hide_spec(a2, s, w).1)
    };
    let (a4, r4) = if s == a3.runtime.current_screen && w == a3.runtime.current_workspace {
        focus_spec(a3, win)
    } else {
        (a3, Seq::empty())
    };
    (a4, r3 + seq![Request::MapWindow { win }] + r4)
}

/// State and requests of `manage_client`: nothing for a window without
/// attributes, with override-redirect or already managed; a dock is
/// attached, mapped and watched; any other window becomes a client.
pub open spec fn manage_spec(a: AppV, win: u64, f: WindowFacts, scan: bool, name: String) -> (AppV, Seq<Request>) {
    match f.attributes {
        None => (a, Seq::empty()),
        Some(wa) => if wa.override_redirect || managed(a.runtime, win) {
            (a, Seq::empty())
        } else if f.window_type == a.atoms.net_wm_window_type_dock {
            (attach_spec(a, wa, win).0, attach_spec(a, wa, win).1 + seq![
                Request::MapWindow { win },
                Request::SelectInput { win, mask: EventMask::Dock },
            ])
        } else {
            new_window_spec(a, win, wa, f, scan, name)
        },
    }
}

/// The window becomes a client (not a dock, not ignored).
pub open spec fn becomes_client(a: AppV, win: u64, f: WindowFacts) -> bool {
    match f.attributes {
        Some(wa) => !wa.override_redirect && !managed(a.runtime, win) && f.window_type != a.atoms.net_wm_window_type_dock,
        None => false,
    }
}

/// `manage_client` can run: the state is well-formed and, when the window
/// becomes a client, its place exists, one more client fits, and folding a
/// floating client's position onto its screen divides by a non-zero origin.
pub open spec fn manage_ok(a: AppV, win: u64, f: WindowFacts, scan: bool) -> bool {
    &&& a.wf()
    &&& becomes_client(a, win, f) ==> {
        let ((s, w), trans) = new_window_place(a, f, scan);
        let cl = made_client(a, win, f.attributes->0, f, trans, arbitrary());
        let sc = a.runtime.screens[s as int];
        &&& a.runtime.valid_ws(s as int, w as int)
        &&& a.runtime.client_count() + 1 < 0x8000_0000
        &&& cl.floating ==> fold_ok(cl.x, sc.width, sc.x) && fold_ok(cl.y, sc.height, sc.y)
    }
}

/// Fold a coordinate past the screen's extent onto the screen.
fn fold(v: i32, extent: i64, origin: i64) -> (r: i32)
    requires
        in_i16(extent),
        in_i16(origin),
        fold_ok(v, extent, origin),
    ensures
        r == folded(v, extent, origin),
{
    if v > extent as i32 {
        match v.checked_rem(origin as i32) {
            Some(r) => r,
            None => v,
        }
    } else {
        v
    }
}

/// Manage a window that asks to be mapped (see `manage_spec`), from what
/// the server tells about it; `scan` is set while windows that exist at
/// start-up are taken over. The new client's name is empty until the
/// caller reads it.
pub fn manage_client(app: &mut Application, win: u64, facts: &WindowFacts, scan: bool, reqs: &mut Vec<Request>)
    requires
        manage_ok(old(app)@, win, *facts, scan),
    ensures
        final(app)@.config == old(app)@.config,
        exists|name: String|
            name@ == Seq::<char>::empty() && final(app)@ == manage_spec(old(app)@, win, *facts, scan, name).0 && final(reqs)@
                == old(reqs)@ + manage_spec(old(app)@, win, *facts, scan, name).1,
        final(app)@.wf(),
        becomes_client(old(app)@, win, *facts) ==> final(app)@.runtime.client_count() == old(app)@.runtime.client_count() + 1,
        !becomes_client(old(app)@, win, *facts) ==> final(app)@.runtime.client_count() == old(app)@.runtime.client_count(),
{
    let ghost a = app@;
    let name = String::new();
    let ghost nm = name;
    let wa = match facts.attributes {
        Some(wa) => wa,
        None => {
            proof {
                assert(nm@ == Seq::<char>::empty() && app@ == manage_spec(a, win, *facts, scan, nm).0 && reqs@
                    == old(reqs)@ + manage_spec(a, win, *facts, scan, nm).1);
            }
            return;
        },
    };
    if wa.override_redirect || find_window_indexes(app, win).is_some() {
        proof {
            assert(nm@ == Seq::<char>::empty() && app@ == manage_spec(a, win, *facts, scan, nm).0 && reqs@
                == old(reqs)@ + manage_spec(a, win, *facts, scan, nm).1);
        }
        return;
    }
    if facts.window_type == app.atoms.net_wm_window_type_dock {
        attach_dock(app, wa, win, reqs);
        reqs.push(Request::MapWindow { win });
        reqs.push(Request::SelectInput { win, mask: EventMask::Dock });
        proof {
            assert(reqs@ =~= old(reqs)@ + manage_spec(a, win, *facts, scan, nm).1);
            assert(nm@ == Seq::<char>::empty() && app@ == manage_spec(a, win, *facts, scan, nm).0 && reqs@
                == old(reqs)@ + manage_spec(a, win, *facts, scan, nm).1);
        }
        return;
    }
    let (c, s, w) = new_client(app, win, wa, facts, scan);
    let ghost nm2 = c.window_name;
    let ghost cl = c;
    reqs.push(Request::SelectInput { win, mask: EventMask::Client });
    if let Some(cw) = get_current_client_id(app) {
        unfocus(app, cw, reqs);
    }
    proof {
        assert(a.runtime.shape_wf());
        assert(screen_shape_wf(a.runtime.screens[s as int], s as int));
    }
    add_client(app, s, w, c);
    let ghost a1 = app@;
    reqs.push(Request::AppendProperty { win: app.core.root_win, property: app.atoms.net_client_list, kind: PropertyKind::Window, value: win });
    let desk: usize = w + s * 10;
    update_client_desktop(app, win, desk as u64, reqs);
    reqs.push(Request::SetConfiguredBorder { win, width: app.config.border_size as i32 });
    reqs.push(Request::SetWmState { win, state: 1 });
    settle(app, s, w, win, reqs);
    proof {
        assert(reqs@ =~= old(reqs)@ + manage_spec(a, win, *facts, scan, nm2).1);
        assert(nm2@ == Seq::<char>::empty() && app@ == manage_spec(a, win, *facts, scan, nm2).0 && reqs@
            == old(reqs)@ + manage_spec(a, win, *facts, scan, nm2).1);
    }
}

/// Make the client of a new window before it is placed (see `made_client`).
fn made(app: &Application, win: u64, wa: WindowAttributes, facts: &WindowFacts, trans: u64) -> (c: Client)
    requires
        app@.wf(),
    ensures
        c.window_name@ == Seq::<char>::empty(),
        c == made_client(app@, win, wa, *facts, trans, c.window_name),
        c.window_id == win,
{
    let ghost a = app@;
    let name = String::new();
    let ghost nm = name;
    let cs = app.runtime.current_screen;
    proof {
        lemma_wf_current_ok(a.runtime);
        lemma_runtime_view(&app.runtime, cs as int, 0);
        assert(screen_shape_wf(a.runtime.screens[cs as int], cs as int));
    }
    let left = app.runtime.screens[cs].bar_offsets.left as i32;
    let up = app.runtime.screens[cs].bar_offsets.up as i32;
    let mut c = Client {
        window_id: win,
        window_name: name,
        x: wa.x as i32 + left,
        y: wa.y as i32 + up,
        w: wa.width as u32,
        h: wa.height as u32,
        ow: wa.width as u32,
        oh: wa.height as u32,
        border: 0,
        visible: true,
        floating: false,
        fullscreen: false,
        fixed: false,
        urgent: false,
        minw: 0,
        minh: 0,
        maxw: 0,
        maxh: 0,
    };
    update_normal_hints(&mut c, facts.hints);
    if facts.state == app.atoms.net_wm_fullscreen {
        c.floating = true;
        c.fullscreen = true;
    }
    if facts.window_type == app.atoms.net_wm_window_type_dialog {
        c.floating = true;
    }
    if !c.floating {
        c.floating = c.fixed || trans != 0;
    }
    c.border = if c.floating { app.config.border_size as u32 } else { 0 };
    proof {
        assert(c == made_client(a, win, wa, *facts, trans, nm));
    }
    c
}

/// Make the placed client of a new window, and its place.
fn new_client(app: &Application, win: u64, wa: WindowAttributes, facts: &WindowFacts, scan: bool) -> (r: (Client, usize, usize))
    requires
        manage_ok(app@, win, *facts, scan),
        becomes_client(app@, win, *facts),
        facts.attributes == Some(wa),
    ensures
        r.0.window_name@ == Seq::<char>::empty(),
        r.0 == new_window_client(app@, win, wa, *facts, scan, r.0.window_name),
        (r.1, r.2) == new_window_place(app@, *facts, scan).0,
        app@.runtime.valid_ws(r.1 as int, r.2 as int),
        r.0.window_id == win,
{
    let ghost a = app@;
    let ((s, w), trans) = get_window_placement(app, &facts.placement, scan);
    let mut c = made(app, win, wa, facts, trans);
    let ghost nm = c.window_name;
    proof {
        lemma_runtime_view(&app.runtime, s as int, w as int);
        assert(screen_shape_wf(a.runtime.screens[s as int], s as int));
        assert(made_client(a, win, wa, *facts, trans, nm).x == made_client(a, win, wa, *facts, trans, arbitrary()).x);
        assert(made_client(a, win, wa, *facts, trans, nm).y == made_client(a, win, wa, *facts, trans, arbitrary()).y);
        assert(made_client(a, win, wa, *facts, trans, nm).floating == made_client(a, win, wa, *facts, trans, arbitrary()).floating);
    }
    if c.floating {
        let sx = app.runtime.screens[s].x;
        let sy = app.runtime.screens[s].y;
        let sw = app.runtime.screens[s].width;
        let sh = app.runtime.screens[s].height;
        c.x = fold(c.x, sw, sx);
        c.y = fold(c.y, sh, sy);
    }
    (c, s, w)
}

/// Number of managed clients.
pub fn count_clients(app: &Application) -> (n: usize)
    requires
        app@.wf(),
    ensures
        n == app@.runtime.client_count(),
{
    let ghost scs = app@.runtime.screens;
    let mut total: usize = 0;
    let mut s: usize = 0;
    proof {
        assert(scs.take(0) =~= Seq::<ScreenV>::empty());
    }
    while s < app.runtime.screens.len()
        invariant
            scs == app@.runtime.screens,
            s <= scs.len(),
            app@.wf(),
            total == crate::structs::screens_client_count(scs.take(s as int)),
        decreases scs.len() - s,
    {
        proof {
            lemma_runtime_view(&app.runtime, s as int, 0);
            lemma_count_prefix(scs, s + 1);
            assert(scs.take(s + 1).drop_last() =~= scs.take(s as int));
            crate::structs::lemma_ws_count_nonneg(scs[s as int].workspaces);
            crate::structs::lemma_screens_count_nonneg(scs.take(s as int));
        }
        let ghost wss = scs[s as int].workspaces;
        let mut w: usize = 0;
        let ghost t0 = total;
        proof {
            assert(wss.take(0) =~= Seq::<WorkspaceV>::empty());
        }
        while w < app.runtime.screens[s].workspaces.len()
            invariant
                scs == app@.runtime.screens,
                s < scs.len(),
                wss == scs[s as int].workspaces,
                wss.len() == app.runtime.screens@[s as int].workspaces@.len(),
                w <= wss.len(),
                app@.wf(),
                t0 + crate::structs::ws_client_count(wss) <= crate::structs::screens_client_count(scs),
                total == t0 + crate::structs::ws_client_count(wss.take(w as int)),
            decreases wss.len() - w,
        {
            proof {
                lemma_runtime_view(&app.runtime, s as int, w as int);
                lemma_ws_prefix(wss, w + 1);
                assert(wss.take(w + 1).drop_last() =~= wss.take(w as int));
                assert(app@.runtime.shape_wf());
            }
            total = total + app.runtime.screens[s].workspaces[w].clients.len();
            w = w + 1;
        }
        proof {
            assert(wss.take(wss.len() as int) =~= wss);
        }
        s = s + 1;
    }
    proof {
        assert(scs.take(scs.len() as int) =~= scs);
    }
    total
}

/// Clients of a prefix of the screens are at most all clients.
proof fn lemma_count_prefix(scs: Seq<ScreenV>, k: int)
    requires
        0 <= k <= scs.len(),
    ensures
        crate::structs::screens_client_count(scs.take(k)) <= crate::structs::screens_client_count(scs),
        crate::structs::screens_client_count(scs.take(k)) >= 0,
    decreases scs.len() - k,
{
    crate::structs::lemma_screens_count_nonneg(scs.take(k));
    if k < scs.len() {
        lemma_count_prefix(scs, k + 1);
        assert(scs.take(k + 1).drop_last() =~= scs.take(k));
        crate::structs::lemma_ws_count_nonneg(scs[k].workspaces);
    } else {
        assert(scs.take(k) =~= scs);
    }
}

/// Clients of a prefix of the workspaces are at most all their clients.
proof fn lemma_ws_prefix(wss: Seq<WorkspaceV>, k: int)
    requires
        0 <= k <= wss.len(),
    ensures
        crate::structs::ws_client_count(wss.take(k)) <= crate::structs::ws_client_count(wss),
    decreases wss.len() - k,
{
    crate::structs::lemma_ws_count_nonneg(wss.take(k));
    if k < wss.len() {
        lemma_ws_prefix(wss, k + 1);
        assert(wss.take(k + 1).drop_last() =~= wss.take(k));
    } else {
        assert(wss.take(k) =~= wss);
    }
}

/// Whether `manage_client` may run on the window (see `manage_ok`), for a
/// well-formed state.
pub fn can_manage(app: &Application, win: u64, facts: &WindowFacts, scan: bool) -> (r: bool)
    requires
        app@.wf(),
    ensures
        r == manage_ok(app@, win, *facts, scan),
{
    let ghost a = app@;
    let wa = match facts.attributes {
        Some(wa) => wa,
        None => {
            return true;
        },
    };
    if wa.override_redirect || find_window_indexes(app, win).is_some() || facts.window_type == app.atoms.net_wm_window_type_dock {
        return true;
    }
    let ((s, w), trans) = get_window_placement(app, &facts.placement, scan);
    proof {
        lemma_runtime_view(&app.runtime, s as int, w as int);
    }
    if s >= app.runtime.screens.len() || w >= app.runtime.screens[s].workspaces.len() {
        return false;
    }
    let n = count_clients(app);
    if n >= 0x7fff_ffff {
        return false;
    }
    let c = made(app, win, wa, facts, trans);
    let ghost nm = c.window_name;
    proof {
        assert(screen_shape_wf(a.runtime.screens[s as int], s as int));
        assert(made_client(a, win, wa, *facts, trans, nm).x == made_client(a, win, wa, *facts, trans, arbitrary()).x);
        assert(made_client(a, win, wa, *facts, trans, nm).y == made_client(a, win, wa, *facts, trans, arbitrary()).y);
        assert(made_client(a, win, wa, *facts, trans, nm).floating == made_client(a, win, wa, *facts, trans, arbitrary()).floating);
    }
    if !c.floating {
        return true;
    }
    let sx = app.runtime.screens[s].x as i32;
    let sy = app.runtime.screens[s].y as i32;
    let sw = app.runtime.screens[s].width as i32;
    let sh = app.runtime.screens[s].height as i32;
    (!(c.x > sw) || c.x.checked_rem(sx).is_some()) && (!(c.y > sh) || c.y.checked_rem(sy).is_some())
}

/// Put a client on top of workspace `(s, w)` and point both trackers at it.
fn add_client(app: &mut Application, s: usize, w: usize, c: Client)
    requires
        old(app)@.wf(),
        old(app)@.runtime.valid_ws(s as int, w as int),
        old(app)@.runtime.client_count() + 1 < 0x8000_0000,
    ensures
        final(app)@.config == old(app)@.config,
        final(app)@ == client_added(old(app)@, s as int, w as int, c),
        final(app)@.wf(),
        final(app)@.runtime.client_count() == old(app)@.runtime.client_count() + 1,
        managed(final(app)@.runtime, c.window_id),
{
    let ghost a = app@;
    let ghost cl = c;
    proof {
        lemma_runtime_view(&app.runtime, s as int, w as int);
    }
    let n = app.runtime.screens[s].workspaces[w].clients.len();
    let ghost before_rt = app.runtime;
    app.runtime.screens[s].workspaces[w].current_client = Some(n);
    app.runtime.screens[s].workspaces[w].clients.push(c);
    proof {
        crate::structs::lemma_ws_changed(before_rt, app.runtime, s as int, w as int);
    }
    app.runtime.current_client = Some(n);
    proof {
        let ws = a.runtime.ws(s as int, w as int);
        let ws2 = WorkspaceV { clients: ws.clients.push(cl), current_client: Some(n), ..ws };
        assert(app@.runtime.ws(s as int, w as int) =~= ws2);
        assert(app@ =~~= client_added(a, s as int, w as int, cl));
        crate::structs::lemma_wf_parts(a.runtime, s as int, w as int);
        assert(workspace_wf(ws2));
        crate::structs::lemma_with_ws_wf(a.runtime, s as int, w as int, ws2);
        assert(crate::helper::holds(app@.runtime, s as int, w as int, n as int, cl.window_id));
    }
}

/// Retile the workspace a new client joined, show or hide it, map the
/// window and focus it when its workspace is current (see `settle_spec`).
#[verifier::rlimit(50)]
fn settle(app: &mut Application, s: usize, w: usize, win: u64, reqs: &mut Vec<Request>)
    requires
        old(app)@.wf(),
        old(app)@.runtime.valid_ws(s as int, w as int),
        managed(old(app)@.runtime, win),
    ensures
        final(app)@.config == old(app)@.config,
        final(app)@ == settle_spec(old(app)@, s as int, w as int, win).0,
        final(reqs)@ == old(reqs)@ + settle_spec(old(app)@, s as int, w as int, win).1,
        final(app)@.wf(),
        final(app)@.runtime.client_count() == old(app)@.runtime.client_count(),
{
    let ghost a1 = app@;
    arrange_workspace(app, s, w);
    let ghost a2 = app@;
    proof {
        lemma_layout_ops(a1, s as int, w as int);
        lemma_layout_only(a1, a2);
        crate::helper::lemma_layout_lookups(a1, a2, win);
        lemma_runtime_view(&app.runtime, s as int, w as int);
    }
    if w == app.runtime.screens[s].current_workspace {
        show_workspace(app, s, w, reqs);
        proof {
            lemma_layout_ops(a2, s as int, w as int);
            lemma_layout_only(a2, app@);
            crate::helper::lemma_layout_lookups(a2, app@, win);
        }
    } else {
        hide_workspace(app, s, w, reqs);
        let ghost h = app@;
        proof {
            lemma_layout_ops(a2, s as int, w as int);
            lemma_layout_only(a2, h);
            crate::helper::lemma_layout_lookups(a2, h, win);
        }
        set_urgent(app, win, true);
        proof {
            lemma_layout_only(h, app@);
            crate::helper::lemma_layout_lookups(h, app@, win);
        }
    }
    reqs.push(Request::MapWindow { win });
    if s == app.runtime.current_screen && w == app.runtime.current_workspace {
        focus(app, win, reqs);
    }
    proof {
        reveal(settle_spec);
        assert(reqs@ =~= old(reqs)@ + settle_spec(a1, s as int, w as int, win).1);
    }
}

/// State and requests of `unmanage_window`.
pub open spec fn unmanage_spec(a: AppV, win: u64) -> (AppV, Seq<Request>) {
    match window_pos(a.runtime, win) {
        Some((s0, w0, c0)) => {
            let s = s0 as int;
            let w = w0 as int;
            let a1 = removed(a, s, w, c0 as int);
            let (a2, r2) = shift_spec(a1, Some(s0), Some(w0));
            let r3 = seq![
                Request::GrabServer,
                Request::SelectInput { win, mask: EventMask::Nothing },
                Request::UngrabButtons { win },
                Request::SetWmState { win, state: 0 },
                Request::UngrabServer,
            ];
            let a4 = arranged(a2, s, w);
            let (a5, r5) = if w == a4.runtime.screens[s].current_workspace {
                show_spec(a4, s, w)
            } else {
                (a4, Seq::empty())
            };
            (a5, r2 + r3 + r5 + client_list_reqs(a5))
        },
        None => if exists|b: int| 0 <= b < a.runtime.bars.len() && #[trigger] a.runtime.bars[b].window_id == win {
            detach_spec(a, win)
        } else {
            (a, Seq::empty())
        },
    }
}

/// `unmanage_window` can run: the state is well-formed and, when the
/// window's workspace index is the current one, the global tracker lands on
/// a client of the current workspace after the clamp.
pub open spec fn unmanage_ok(a: AppV, win: u64) -> bool {
    &&& a.wf()
    &&& window_pos(a.runtime, win) matches Some((s, w, c)) ==> shift_ok(removed(a, s as int, w as int, c as int), Some(s), Some(w))
}

/// Forget a window: a client leaves its workspace (the workspace's trackers
/// are clamped), its events and button grabs are released and its
/// `WM_STATE` withdrawn under a server grab, its workspace is retiled and
/// shown when current, and the client list is rebuilt; a dock is detached.
pub fn unmanage_window(app: &mut Application, win: u64, reqs: &mut Vec<Request>)
    requires
        unmanage_ok(old(app)@, win),
    ensures
        final(app)@.config == old(app)@.config,
        final(app)@ == unmanage_spec(old(app)@, win).0,
        final(reqs)@ == old(reqs)@ + unmanage_spec(old(app)@, win).1,
        final(app)@.wf(),
        managed(old(app)@.runtime, win) ==> final(app)@.runtime.client_count() == old(app)@.runtime.client_count() - 1,
        !managed(old(app)@.runtime, win) ==> final(app)@.runtime.client_count() == old(app)@.runtime.client_count(),
{
    let ghost a = app@;
    if let Some((s, w, c)) = find_window_indexes(app, win) {
        proof {
            crate::helper::lemma_window_pos_spec(a.runtime, win);
        }
        let _cl = remove_client(app, s, w, c);
        proof {
            lemma_removed_wf(a, s as int, w as int, c as int);
        }
        shift_current_client(app, Some(s), Some(w), reqs);
        reqs.push(Request::GrabServer);
        reqs.push(Request::SelectInput { win, mask: EventMask::Nothing });
        reqs.push(Request::UngrabButtons { win });
        reqs.push(Request::SetWmState { win, state: 0 });
        reqs.push(Request::UngrabServer);
        let ghost a2 = app@;
        arrange_workspace(app, s, w);
        let ghost a4 = app@;
        proof {
            lemma_layout_ops(a2, s as int, w as int);
            lemma_layout_only(a2, a4);
            lemma_runtime_view(&app.runtime, s as int, w as int);
        }
        if w == app.runtime.screens[s].current_workspace {
            show_workspace(app, s, w, reqs);
            proof {
                lemma_layout_ops(a4, s as int, w as int);
                lemma_layout_only(a4, app@);
            }
        }
        update_client_list(app, reqs);
        proof {
            assert(reqs@ =~= old(reqs)@ + unmanage_spec(a, win).1);
        }
    } else {
        let mut found = false;
        let mut i: usize = 0;
        while i < app.runtime.bars.len()
            invariant
                app@ == a,
                i <= a.runtime.bars.len(),
                found <==> exists|b: int| 0 <= b < i && #[trigger] a.runtime.bars[b].window_id == win,
            decreases a.runtime.bars.len() - i,
        {
            if app.runtime.bars[i].window_id == win {
                found = true;
            }
            i = i + 1;
        }
        if found {
            detach_dock(app, win, reqs);
        }
    }
}

/// Whether `unmanage_window` may run for the window (see `unmanage_ok`),
/// for a well-formed state.
pub fn can_unmanage(app: &Application, win: u64) -> (r: bool)
    requires
        app@.wf(),
    ensures
        r == unmanage_ok(app@, win),
{
    let ghost a = app@;
    match find_window_indexes(app, win) {
        None => true,
        Some((s, w, c)) => {
            proof {
                crate::helper::lemma_window_pos_spec(a.runtime, win);
                lemma_wf_current_ok(a.runtime);
                lemma_runtime_view(&app.runtime, s as int, w as int);
                lemma_runtime_view(&app.runtime, a.runtime.current_screen as int, a.runtime.current_workspace as int);
            }
            let cs = app.runtime.current_screen;
            let cw = app.runtime.current_workspace;
            if w != cw {
                return true;
            }
            let len = app.runtime.screens[s].workspaces[w].clients.len() - 1;
            let ncc = if len == 0 {
                None
            } else {
                match app.runtime.screens[s].workspaces[w].current_client {
                    Some(k) => Some(if k < len { k } else { len - 1 }),
                    None => None,
                }
            };
            let cur_len = if cs == s { len } else { app.runtime.screens[cs].workspaces[cw].clients.len() };
            match ncc {
                Some(i) => i < cur_len,
                None => true,
            }
        },
    }
}
} // verus!
