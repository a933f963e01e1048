//! The first, minimal variant of the window manager: ten workspaces per
//! screen, no bars, every new window full-screen sized on the current
//! screen's current workspace.
//!
//! Its layout works on a fractional master width and is left to the caller:
//! where the workspace is to be laid out again, the requests hold
//! `Request::Tile`.

use vstd::prelude::*;

use crate::request::{EventMask, Request};
use crate::rtde::{find_in, first_of, rename_in, stored_name, renamed, screens_view, unreadable_name, RtdeScreen, RtdeScreenV, RTDE_WORKSPACES};
use crate::structs::{ActionResult, Client, KeyAction, ScreenSwitching, WorkspaceV};

verus! {

/// The state of the minimal window manager.
#[derive(Debug)]
pub struct RustWm {
    pub key_actions: Vec<KeyAction>,
    pub screens: Vec<RtdeScreen>,
    pub current_screen: usize,
    pub current_workspace: usize,
    pub current_client: Option<usize>,
    pub root_win: u64,
    pub running: bool,
}

/// Model of the state.
#[verifier::ext_equal]
pub struct RustWmV {
    pub key_actions: Vec<KeyAction>,
    pub screens: Seq<RtdeScreenV>,
    pub current_screen: usize,
    pub current_workspace: usize,
    pub current_client: Option<usize>,
    pub root_win: u64,
    pub running: bool,
}

impl View for RustWm {
    type V = RustWmV;

    open spec fn view(&self) -> RustWmV {
        RustWmV {
            key_actions: self.key_actions,
            screens: screens_view(self.screens@),
            current_screen: self.current_screen,
            current_workspace: self.current_workspace,
            current_client: self.current_client,
            root_win: self.root_win,
            running: self.running,
        }
    }
}

impl RustWmV {
    /// Every screen has its ten workspaces and a current one among them, and
    /// its number names a screen; the trackers point at a screen and one of
    /// its workspaces.
    pub open spec fn wf(self) -> bool {
        &&& self.screens.len() > 0
        &&& self.current_screen < self.screens.len()
        &&& self.current_workspace < RTDE_WORKSPACES
        &&& forall|s: int| 0 <= s < self.screens.len() ==> {
            &&& (#[trigger] self.screens[s]).workspaces.len() == RTDE_WORKSPACES
            &&& self.screens[s].current_workspace < RTDE_WORKSPACES
            &&& 0 <= self.screens[s].number < self.screens.len()
        }
    }

    /// The workspace the trackers point at.
    pub open spec fn cur_ws(self) -> WorkspaceV {
        self.screens[self.current_screen as int].workspaces[self.current_workspace as int]
    }
}

/// The name a client has until its own is read.
pub open spec fn unmanaged_name() -> Seq<char> {
    seq!['U', 'n', 'm', 'a', 'n', 'a', 'g', 'e', 'd', ' ', 'w', 'i', 'n', 'd', 'o', 'w']
}

/// The same state with other screens.
pub open spec fn with_screens(a: RustWmV, scs: Seq<RtdeScreenV>) -> RustWmV {
    RustWmV { screens: scs, ..a }
}

/// The screens with workspace `(s, w)` replaced.
pub open spec fn ws_replaced(scs: Seq<RtdeScreenV>, s: int, w: int, ws: WorkspaceV) -> Seq<RtdeScreenV> {
    scs.update(s, RtdeScreenV { workspaces: scs[s].workspaces.update(w, ws), ..scs[s] })
}

/// Replacing a workspace twice keeps the second one; replacing it by
/// itself changes nothing.
proof fn lemma_ws_replaced_twice(scs: Seq<RtdeScreenV>, s: int, w: int, p: WorkspaceV, q: WorkspaceV)
    requires
        0 <= s < scs.len(),
        0 <= w < scs[s].workspaces.len(),
    ensures
        ws_replaced(ws_replaced(scs, s, w, p), s, w, q) == ws_replaced(scs, s, w, q),
        ws_replaced(scs, s, w, q)[s].workspaces[w] == q,
        ws_replaced(scs, s, w, scs[s].workspaces[w]) == scs,
{
    assert(ws_replaced(ws_replaced(scs, s, w, p), s, w, q)[s].workspaces =~= ws_replaced(scs, s, w, q)[s].workspaces);
    assert(ws_replaced(ws_replaced(scs, s, w, p), s, w, q) =~= ws_replaced(scs, s, w, q));
    assert(ws_replaced(scs, s, w, scs[s].workspaces[w])[s].workspaces =~= scs[s].workspaces);
    assert(ws_replaced(scs, s, w, scs[s].workspaces[w]) =~= scs);
}

/// Replacing a workspace keeps the invariant.
proof fn lemma_ws_replaced_wf(a: RustWmV, s: int, w: int, ws: WorkspaceV)
    requires
        a.wf(),
        0 <= s < a.screens.len(),
        0 <= w < RTDE_WORKSPACES,
    ensures
        with_screens(a, ws_replaced(a.screens, s, w, ws)).wf(),
{
    let b = with_screens(a, ws_replaced(a.screens, s, w, ws));
    assert forall|k: int| 0 <= k < b.screens.len() implies {
        &&& (#[trigger] b.screens[k]).workspaces.len() == RTDE_WORKSPACES
        &&& b.screens[k].current_workspace < RTDE_WORKSPACES
        &&& 0 <= b.screens[k].number < b.screens.len()
    } by {
        assert(a.screens[k].workspaces.len() == RTDE_WORKSPACES);
    }
}

/// Replace workspace `(s, w)` in place: the model follows.
proof fn lemma_ws_write(before: Seq<RtdeScreen>, after: Seq<RtdeScreen>, s: int, w: int)
    requires
        0 <= s < before.len(),
        after.len() == before.len(),
        0 <= w < before[s].workspaces@.len(),
        forall|k: int| 0 <= k < before.len() && k != s ==> after[k] == before[k],
        after[s].number == before[s].number && after[s].x == before[s].x && after[s].y == before[s].y,
        after[s].width == before[s].width && after[s].height == before[s].height,
        after[s].current_workspace == before[s].current_workspace && after[s].status_bar == before[s].status_bar,
        after[s].workspaces@.len() == before[s].workspaces@.len(),
        forall|j: int| 0 <= j < before[s].workspaces@.len() && j != w ==> after[s].workspaces@[j] == before[s].workspaces@[j],
    ensures
        screens_view(after) == ws_replaced(screens_view(before), s, w, after[s].workspaces@[w]@),
{
    let t = ws_replaced(screens_view(before), s, w, after[s].workspaces@[w]@);
    assert(screens_view(after)[s].workspaces =~= t[s].workspaces);
    assert(screens_view(after) =~= t);
}

// ---------------------------------------------------------------------------
// Windows appearing and going
// ---------------------------------------------------------------------------

/// The client a new window gets: full-screen sized at the origin, visible,
/// named `initial` until its own name is read.
pub open spec fn rw_new_client(win: u64, initial: String) -> Client {
    Client {
        window_id: win,
        window_name: initial,
        x: 0,
        y: 0,
        w: 1920,
        h: 1080,
        ow: 0,
        oh: 0,
        border: 0,
        visible: true,
        floating: false,
        fullscreen: false,
        fixed: false,
        urgent: false,
        minw: 0,
        minh: 0,
        maxw: 0,
        maxh: 0,
    }
}

/// State and requests of a window asking to be mapped, when its attributes
/// were read (`override_redirect` then tells whether it asks to be left
/// alone): the client is pushed on the current workspace of the current
/// screen and focused there, the first client of the window takes its name
/// (its own, else `fallback`), and it is raised, laid out and mapped.
pub open spec fn rw_map_spec(
    a: RustWmV,
    win: u64,
    override_redirect: Option<bool>,
    name: Option<String>,
    initial: String,
    fallback: String,
) -> (RustWmV, Seq<Request>) {
    if override_redirect == Some(false) {
        let cs = a.current_screen as int;
        let sc = a.screens[cs];
        let w = sc.current_workspace as int;
        let ws = sc.workspaces[w];
        let n = ws.clients.len();
        let ws2 = WorkspaceV { clients: ws.clients.push(rw_new_client(win, initial)), current_client: Some(n as usize), ..ws };
        let nm = match name {
            Some(t) => t,
            None => fallback,
        };
        let scs = renamed(ws_replaced(a.screens, cs, w, ws2), win, nm);
        (
            RustWmV { screens: scs, current_client: Some(n as usize), ..a },
            seq![Request::SelectInput { win, mask: EventMask::Client }, Request::Raise { win }, Request::Tile, Request::MapWindow { win }],
        )
    } else {
        (a, Seq::empty())
    }
}

/// A window asks to be mapped (see `rw_map_spec`); `override_redirect` is
/// `None` when its attributes could not be read, and `name` its
/// `_NET_WM_NAME` when it could be read.
pub fn rw_map_request(app: &mut RustWm, win: u64, override_redirect: Option<bool>, name: Option<String>, reqs: &mut Vec<Request>)
    requires
        old(app)@.wf(),
    ensures
        exists|initial: String, fallback: String|
            initial@ == unmanaged_name() && fallback@ == unreadable_name() && final(app)@ == rw_map_spec(
                old(app)@,
                win,
                override_redirect,
                name,
                initial,
                fallback,
            ).0 && final(reqs)@ == old(reqs)@ + rw_map_spec(old(app)@, win, override_redirect, name, initial, fallback).1,
        final(app)@.wf(),
{
    let ghost a = app@;
    let initial = "Unmanaged window".to_owned();
    let fallback = "WHAT THE FUCK".to_owned();
    proof {
        reveal_strlit("Unmanaged window");
        reveal_strlit("WHAT THE FUCK");
        assert(initial@ =~= unmanaged_name());
        assert(fallback@ =~= unreadable_name());
    }
    let ghost ini = initial;
    let ghost fb = fallback;
    if override_redirect != Some(false) {
        assert(app@ == rw_map_spec(a, win, override_redirect, name, ini, fb).0);
        assert(reqs@ =~= old(reqs)@ + rw_map_spec(a, win, override_redirect, name, ini, fb).1);
        return;
    }
    reqs.push(Request::SelectInput { win, mask: EventMask::Client });
    let cs = app.current_screen;
    let w = app.screens[cs].current_workspace;
    proof {
        assert(a.screens[cs as int] == app.screens@[cs as int]@);
        assert(a.screens[cs as int].workspaces.len() == RTDE_WORKSPACES);
        assert(a.screens[cs as int].workspaces[w as int] == app.screens@[cs as int].workspaces@[w as int]@);
    }
    let n = app.screens[cs].workspaces[w].clients.len();
    let ghost before = app.screens@;
    app.screens[cs].workspaces[w].current_client = Some(n);
    app.current_client = Some(n);
    app.screens[cs].workspaces[w].clients.push(Client {
        window_id: win,
        window_name: initial,
        x: 0,
        y: 0,
        w: 1920,
        h: 1080,
        ow: 0,
        oh: 0,
        border: 0,
        visible: true,
        floating: false,
        fullscreen: false,
        fixed: false,
        urgent: false,
        minw: 0,
        minh: 0,
        maxw: 0,
        maxh: 0,
    });
    proof {
        lemma_ws_write(before, app.screens@, cs as int, w as int);
        let ws = a.screens[cs as int].workspaces[w as int];
        assert(app.screens@[cs as int].workspaces@[w as int]@ =~= WorkspaceV {
            clients: ws.clients.push(rw_new_client(win, ini)),
            current_client: Some(n),
            ..ws
        });
    }
    let nm = match name {
        Some(t) => t,
        None => fallback,
    };
    rename_in(&mut app.screens, win, nm);
    reqs.push(Request::Raise { win });
    reqs.push(Request::Tile);
    reqs.push(Request::MapWindow { win });
    proof {
        let sp = rw_map_spec(a, win, override_redirect, name, ini, fb);
        assert(app@ =~= sp.0);
        assert(reqs@ =~= old(reqs)@ + sp.1);
        let ws = a.screens[cs as int].workspaces[w as int];
        let ws2 = WorkspaceV { clients: ws.clients.push(rw_new_client(win, ini)), current_client: Some(n), ..ws };
        lemma_ws_replaced_wf(a, cs as int, w as int, ws2);
        lemma_renamed_shape(ws_replaced(a.screens, cs as int, w as int, ws2), win, nm);
        let b = with_screens(a, ws_replaced(a.screens, cs as int, w as int, ws2));
        assert forall|k: int| 0 <= k < app@.screens.len() implies {
            &&& (#[trigger] app@.screens[k]).workspaces.len() == RTDE_WORKSPACES
            &&& app@.screens[k].current_workspace < RTDE_WORKSPACES
            &&& 0 <= app@.screens[k].number < app@.screens.len()
        } by {
            assert(b.screens[k].workspaces.len() == RTDE_WORKSPACES);
        }
    }
}

/// Renaming a client keeps the screens' shape.
proof fn lemma_renamed_shape(scs: Seq<RtdeScreenV>, win: u64, name: String)
    ensures
        renamed(scs, win, name).len() == scs.len(),
        forall|s: int| 0 <= s < scs.len() ==> {
            &&& (#[trigger] renamed(scs, win, name)[s]).workspaces.len() == scs[s].workspaces.len()
            &&& renamed(scs, win, name)[s].current_workspace == scs[s].current_workspace
            &&& renamed(scs, win, name)[s].number == scs[s].number
        },
{
}

/// The name of a window changed (`name` is its `_NET_WM_NAME`, when it
/// could be read): unless it is the root window, its first client takes it,
/// or the placeholder.
pub fn rw_property_notify(app: &mut RustWm, window: u64, name: Option<String>)
    requires
        old(app)@.wf(),
    ensures
        window == old(app)@.root_win ==> final(app)@ == old(app)@,
        window != old(app)@.root_win ==> exists|fallback: String|
            fallback@ == unreadable_name() && final(app)@ == with_screens(
                old(app)@,
                renamed(old(app)@.screens, window, #[trigger] stored_name(name, fallback)),
            ),
        final(app)@.wf(),
{
    if window != app.root_win {
        let ghost a = app@;
        let fallback = "WHAT THE FUCK".to_owned();
        let ghost fb = fallback;
        proof {
            reveal_strlit("WHAT THE FUCK");
            assert(fallback@ =~= unreadable_name());
        }
        let nm = match name {
            Some(t) => t,
            None => fallback,
        };
        rename_in(&mut app.screens, window, nm);
        proof {
            assert(nm == stored_name(name, fb));
            assert(app@ =~= with_screens(a, renamed(a.screens, window, nm)));
            lemma_renamed_shape(a.screens, window, nm);
            assert forall|k: int| 0 <= k < app@.screens.len() implies {
                &&& (#[trigger] app@.screens[k]).workspaces.len() == RTDE_WORKSPACES
                &&& app@.screens[k].current_workspace < RTDE_WORKSPACES
                &&& 0 <= app@.screens[k].number < app@.screens.len()
            } by {
                assert(a.screens[k].workspaces.len() == RTDE_WORKSPACES);
            }
        }
    }
}

// ---------------------------------------------------------------------------
// The pointer crossing screens
// ---------------------------------------------------------------------------

/// Screen `sc` holds the point `(x, y)`.
pub open spec fn rw_holds(sc: RtdeScreenV, x: i64, y: i64) -> bool {
    sc.x <= x && x < sc.x + sc.width && sc.y <= y && y < sc.y + sc.height
}

/// The current screen after the pointer moved to `(x, y)`, looking at the
/// first `k` screens: the number of the last one holding the point, else
/// `cs`.
pub open spec fn rw_pointed(scs: Seq<RtdeScreenV>, x: i64, y: i64, k: int, cs: usize) -> usize
    decreases k,
{
    if k <= 0 {
        cs
    } else if rw_holds(scs[k - 1], x, y) {
        scs[k - 1].number as usize
    } else {
        rw_pointed(scs, x, y, k - 1, cs)
    }
}

/// The pointer moved to `(x, y)`: the last screen holding it becomes the
/// current one (by its number); the current workspace stays.
pub fn rw_motion_notify(app: &mut RustWm, x: i32, y: i32)
    requires
        old(app)@.wf(),
    ensures
        final(app)@ == (RustWmV {
            current_screen: rw_pointed(old(app)@.screens, x as i64, y as i64, old(app)@.screens.len() as int, old(app)@.current_screen),
            ..old(app)@
        }),
        final(app)@.wf(),
{
    let ghost a = app@;
    let px = x as i64;
    let py = y as i64;
    let mut k = app.screens.len();
    let mut found: Option<usize> = None;
    // Look from the last screen down; the first hit is the last screen holding it.
    while k > 0 && found.is_none()
        invariant
            app@ == a,
            a.wf(),
            k <= a.screens.len(),
            match found {
                Some(c) => c == rw_pointed(a.screens, px, py, a.screens.len() as int, a.current_screen) && c < a.screens.len(),
                None => rw_pointed(a.screens, px, py, a.screens.len() as int, a.current_screen) == rw_pointed(
                    a.screens,
                    px,
                    py,
                    k as int,
                    a.current_screen,
                ),
            },
        decreases k,
    {
        let sc = &app.screens[k - 1];
        proof {
            assert(a.screens[k - 1] == app.screens@[k - 1]@);
        }
        let inside = sc.x <= px && (px as i128) < (sc.x as i128) + (sc.width as i128) && sc.y <= py && (py as i128) < (sc.y as i128)
            + (sc.height as i128);
        if inside {
            proof {
                assert(0 <= a.screens[k - 1].number < a.screens.len());
            }
            found = Some(sc.number as usize);
        }
        k = k - 1;
    }
    if let Some(c) = found {
        app.current_screen = c;
    }
}

// ---------------------------------------------------------------------------
// Windows going away
// ---------------------------------------------------------------------------

/// The first position of a client of `win`, if any.
pub open spec fn rw_first(scs: Seq<RtdeScreenV>, win: u64) -> Option<(int, int, int)> {
    if exists|p: (int, int, int)| first_of(scs, win, p) {
        Some(choose|p: (int, int, int)| first_of(scs, win, p))
    } else {
        None
    }
}

/// The tracker of a workspace after a client left it: the only client, no
/// client, else the same index when it is still in range or the one before.
pub open spec fn shifted(ws: WorkspaceV) -> Option<usize> {
    if ws.clients.len() == 1 {
        Some(0usize)
    } else if ws.clients.len() == 0 {
        None
    } else {
        let cc = ws.current_client->0;
        if cc < ws.clients.len() {
            Some(cc)
        } else {
            Some((cc - 1) as usize)
        }
    }
}

/// The screens after the client at `p` is removed.
pub open spec fn client_removed(scs: Seq<RtdeScreenV>, p: (int, int, int)) -> Seq<RtdeScreenV> {
    let ws = scs[p.0].workspaces[p.1];
    ws_replaced(scs, p.0, p.1, WorkspaceV { clients: ws.clients.remove(p.2), ..ws })
}

/// State and requests of forgetting window `win`: its first client is
/// removed, the trackers of the current workspace are shifted (see
/// `shifted`) and the workspace is laid out again; an unknown window
/// changes nothing.
pub open spec fn rw_unmanage_spec(a: RustWmV, win: u64) -> (RustWmV, Seq<Request>) {
    match rw_first(a.screens, win) {
        Some(p) => {
            let scs = client_removed(a.screens, p);
            let cs = a.current_screen as int;
            let cw = a.current_workspace as int;
            let ws = scs[cs].workspaces[cw];
            let nc = shifted(ws);
            (
                RustWmV { screens: ws_replaced(scs, cs, cw, WorkspaceV { current_client: nc, ..ws }), current_client: nc, ..a },
                seq![Request::Tile],
            )
        },
        None => (a, Seq::empty()),
    }
}

/// What forgetting a window needs: when the current workspace keeps two
/// clients or more, it has a focused one.
pub open spec fn rw_unmanage_ok(a: RustWmV, win: u64) -> bool {
    &&& a.wf()
    &&& (rw_first(a.screens, win) matches Some(p) ==> {
        let ws = client_removed(a.screens, p)[a.current_screen as int].workspaces[a.current_workspace as int];
        ws.clients.len() >= 2 ==> ws.current_client is Some
    })
}

/// A window was destroyed or unmapped: forget it (see `rw_unmanage_spec`).
pub fn rw_unmanage_window(app: &mut RustWm, win: u64, reqs: &mut Vec<Request>)
    requires
        rw_unmanage_ok(old(app)@, win),
    ensures
        final(app)@ == rw_unmanage_spec(old(app)@, win).0,
        final(reqs)@ == old(reqs)@ + rw_unmanage_spec(old(app)@, win).1,
        final(app)@.wf(),
{
    let ghost a = app@;
    proof {
        assert(a.screens == screens_view(app.screens@));
    }
    match find_in(&app.screens, win) {
        None => {
            proof {
                assert(!exists|p: (int, int, int)| first_of(a.screens, win, p));
            }
        },
        Some((s, w, c)) => {
            let ghost p = (s as int, w as int, c as int);
            proof {
                let pc = choose|q: (int, int, int)| first_of(a.screens, win, q);
                assert(first_of(a.screens, win, pc));
                if pc != p {
                    if crate::rtde::before_pos(pc, p) {
                        assert(crate::rtde::rtde_client(a.screens, pc).window_id != win);
                    } else {
                        assert(crate::rtde::before_pos(p, pc));
                        assert(crate::rtde::rtde_client(a.screens, p).window_id != win);
                    }
                }
                assert(rw_first(a.screens, win) == Some(p));
                assert(a.screens[s as int] == app.screens@[s as int]@);
                assert(a.screens[s as int].workspaces[w as int] == app.screens@[s as int].workspaces@[w as int]@);
            }
            let ghost before = app.screens@;
            let _gone = app.screens[s].workspaces[w].clients.remove(c);
            proof {
                lemma_ws_write(before, app.screens@, s as int, w as int);
                let ws = a.screens[s as int].workspaces[w as int];
                assert(app.screens@[s as int].workspaces@[w as int]@ =~= WorkspaceV { clients: ws.clients.remove(c as int), ..ws });
                assert(app@.screens == client_removed(a.screens, p));
                lemma_ws_replaced_wf(a, s as int, w as int, WorkspaceV { clients: ws.clients.remove(c as int), ..ws });
            }
            let ghost mid = app@;
            let cs = app.current_screen;
            let cw = app.current_workspace;
            proof {
                assert(mid.screens[cs as int] == app.screens@[cs as int]@);
                assert(mid.screens[cs as int].workspaces.len() == RTDE_WORKSPACES);
                assert(mid.screens[cs as int].workspaces[cw as int] == app.screens@[cs as int].workspaces@[cw as int]@);
            }
            let len = app.screens[cs].workspaces[cw].clients.len();
            let nc: Option<usize> = if len == 1 {
                Some(0)
            } else if len == 0 {
                None
            } else {
                let cc = app.screens[cs].workspaces[cw].current_client.unwrap();
                if cc < len {
                    Some(cc)
                } else {
                    Some(cc - 1)
                }
            };
            let ghost before2 = app.screens@;
            app.screens[cs].workspaces[cw].current_client = nc;
            app.current_client = nc;
            proof {
                lemma_ws_write(before2, app.screens@, cs as int, cw as int);
                let ws = mid.screens[cs as int].workspaces[cw as int];
                assert(nc == shifted(ws));
                assert(app.screens@[cs as int].workspaces@[cw as int]@ =~= WorkspaceV { current_client: nc, ..ws });
                lemma_ws_replaced_wf(mid, cs as int, cw as int, WorkspaceV { current_client: nc, ..ws });
                assert(app@ =~= rw_unmanage_spec(a, win).0);
            }
            reqs.push(Request::Tile);
        },
    }
}

// ---------------------------------------------------------------------------
// Keyboard actions
// ---------------------------------------------------------------------------

/// Index of the screen after or before screen `cs` of `n`, cyclically.
pub open spec fn rw_switched(cs: int, n: int, d: ScreenSwitching) -> int {
    match d {
        ScreenSwitching::Next => (cs + 1) % n,
        ScreenSwitching::Previous => (cs + n - 1) % n,
    }
}

/// Focus the next or previous screen: it becomes the current one with its
/// current workspace; the client tracker stays.
pub fn rw_focus_on_screen(app: &mut RustWm, d: ScreenSwitching)
    requires
        old(app)@.wf(),
    ensures
        ({
            let a = old(app)@;
            let ns = rw_switched(a.current_screen as int, a.screens.len() as int, d);
            final(app)@ == (RustWmV { current_screen: ns as usize, current_workspace: a.screens[ns].current_workspace, ..a })
        }),
        final(app)@.wf(),
{
    let ghost a = app@;
    let n = app.screens.len();
    let cs = app.current_screen;
    let ns = match d {
        ScreenSwitching::Next => (cs + 1) % n,
        ScreenSwitching::Previous => if cs == 0 { n - 1 } else { cs - 1 },
    };
    proof {
        let (c, m) = (cs as int, n as int);
        assert(c == 0 ==> (c + m - 1) % m == m - 1) by (nonlinear_arith)
            requires 0 <= c < m;
        assert(c > 0 ==> (c + m - 1) % m == c - 1) by (nonlinear_arith)
            requires 0 <= c < m;
        assert(a.screens[ns as int] == app.screens@[ns as int]@);
    }
    app.current_screen = ns;
    app.current_workspace = app.screens[ns].current_workspace;
}

/// Grow the current workspace's master area by `i` clients.
pub fn rw_update_master_size(app: &mut RustWm, i: i64)
    requires
        old(app)@.wf(),
        i64::MIN <= old(app)@.cur_ws().master_capacity + i <= i64::MAX,
    ensures
        final(app)@ == with_screens(
            old(app)@,
            ws_replaced(
                old(app)@.screens,
                old(app)@.current_screen as int,
                old(app)@.current_workspace as int,
                WorkspaceV { master_capacity: (old(app)@.cur_ws().master_capacity + i) as i64, ..old(app)@.cur_ws() },
            ),
        ),
        final(app)@.wf(),
{
    let ghost a = app@;
    let cs = app.current_screen;
    let cw = app.current_workspace;
    proof {
        assert(a.screens[cs as int] == app.screens@[cs as int]@);
        assert(a.screens[cs as int].workspaces.len() == RTDE_WORKSPACES);
        assert(a.cur_ws() == app.screens@[cs as int].workspaces@[cw as int]@);
    }
    let ghost before = app.screens@;
    let v = app.screens[cs].workspaces[cw].master_capacity + i;
    app.screens[cs].workspaces[cw].master_capacity = v;
    proof {
        lemma_ws_write(before, app.screens@, cs as int, cw as int);
        assert(app.screens@[cs as int].workspaces@[cw as int]@ =~= WorkspaceV { master_capacity: v, ..a.cur_ws() });
        lemma_ws_replaced_wf(a, cs as int, cw as int, WorkspaceV { master_capacity: v, ..a.cur_ws() });
    }
}

/// Widen the current workspace's master area by `w` thousandths.
pub fn rw_update_master_width(app: &mut RustWm, w: i64)
    requires
        old(app)@.wf(),
        i64::MIN <= old(app)@.cur_ws().master_width + w <= i64::MAX,
    ensures
        final(app)@ == with_screens(
            old(app)@,
            ws_replaced(
                old(app)@.screens,
                old(app)@.current_screen as int,
                old(app)@.current_workspace as int,
                WorkspaceV { master_width: (old(app)@.cur_ws().master_width + w) as i64, ..old(app)@.cur_ws() },
            ),
        ),
        final(app)@.wf(),
{
    let ghost a = app@;
    let cs = app.current_screen;
    let cw = app.current_workspace;
    proof {
        assert(a.screens[cs as int] == app.screens@[cs as int]@);
        assert(a.screens[cs as int].workspaces.len() == RTDE_WORKSPACES);
        assert(a.cur_ws() == app.screens@[cs as int].workspaces@[cw as int]@);
    }
    let ghost before = app.screens@;
    let v = app.screens[cs].workspaces[cw].master_width + w;
    app.screens[cs].workspaces[cw].master_width = v;
    proof {
        lemma_ws_write(before, app.screens@, cs as int, cw as int);
        assert(app.screens@[cs as int].workspaces@[cw as int]@ =~= WorkspaceV { master_width: v, ..a.cur_ws() });
        lemma_ws_replaced_wf(a, cs as int, cw as int, WorkspaceV { master_width: v, ..a.cur_ws() });
    }
}

/// Ask the focused client, if any, to close: it gets `WM_DELETE_WINDOW`
/// when it lists that protocol, and nothing else happens.
pub fn rw_kill_client(app: &RustWm, reqs: &mut Vec<Request>)
    requires
        app@.wf(),
        app@.current_client matches Some(i) ==> i < app@.cur_ws().clients.len(),
    ensures
        final(reqs)@ == old(reqs)@ + match app@.current_client {
            Some(i) => seq![Request::AskToClose { win: app@.cur_ws().clients[i as int].window_id }],
            None => Seq::empty(),
        },
{
    if let Some(i) = app.current_client {
        let cs = app.current_screen;
        let cw = app.current_workspace;
        proof {
            assert(app@.screens[cs as int] == app.screens@[cs as int]@);
            assert(app@.screens[cs as int].workspaces.len() == RTDE_WORKSPACES);
            assert(app@.cur_ws() == app.screens@[cs as int].workspaces@[cw as int]@);
        }
        reqs.push(Request::AskToClose { win: app.screens[cs].workspaces[cw].clients[i].window_id });
    }
    assert(reqs@ =~= old(reqs)@ + match app@.current_client {
        Some(i) => seq![Request::AskToClose { win: app@.cur_ws().clients[i as int].window_id }],
        None => Seq::<Request>::empty(),
    });
}

/// Stop the window manager.
pub fn rw_quit(app: &mut RustWm)
    ensures
        final(app)@ == (RustWmV { running: false, ..old(app)@ }),
{
    app.running = false;
}

// ---------------------------------------------------------------------------
// The pointer entering a window
// ---------------------------------------------------------------------------

/// Index of the first client of `win` among `cs`, if any.
pub open spec fn first_index(cs: Seq<Client>, win: u64) -> Option<int> {
    if exists|i: int| 0 <= i < cs.len() && cs[i].window_id == win && forall|j: int| 0 <= j < i ==> #[trigger] cs[j].window_id != win {
        Some(choose|i: int| 0 <= i < cs.len() && cs[i].window_id == win && forall|j: int| 0 <= j < i ==> #[trigger] cs[j].window_id != win)
    } else {
        None
    }
}

/// State and requests of the pointer entering window `win`: it takes the
/// input focus; when it is on the current screen's current workspace, that
/// workspace and the client tracker point at it; then, when it is managed,
/// the trackers move to its first client.
pub open spec fn rw_enter_spec(a: RustWmV, win: u64) -> (RustWmV, Seq<Request>) {
    let cs = a.current_screen as int;
    let sc = a.screens[cs];
    let w = sc.current_workspace as int;
    let ws = sc.workspaces[w];
    let a1 = match first_index(ws.clients, win) {
        Some(i) => RustWmV {
            screens: ws_replaced(a.screens, cs, w, WorkspaceV { current_client: Some(i as usize), ..ws }),
            current_client: Some(i as usize),
            ..a
        },
        None => a,
    };
    let a2 = match rw_first(a1.screens, win) {
        Some(p) => RustWmV { current_screen: p.0 as usize, current_workspace: p.1 as usize, current_client: Some(p.2 as usize), ..a1 },
        None => a1,
    };
    (a2, seq![Request::Focus { win }])
}

/// The pointer entered window `win` (see `rw_enter_spec`).
pub fn rw_enter_notify(app: &mut RustWm, win: u64, reqs: &mut Vec<Request>)
    requires
        old(app)@.wf(),
    ensures
        final(app)@ == rw_enter_spec(old(app)@, win).0,
        final(reqs)@ == old(reqs)@ + rw_enter_spec(old(app)@, win).1,
        final(app)@.wf(),
{
    let ghost a = app@;
    reqs.push(Request::Focus { win });
    let cs = app.current_screen;
    let w = app.screens[cs].current_workspace;
    proof {
        assert(a.screens[cs as int] == app.screens@[cs as int]@);
        assert(a.screens[cs as int].workspaces.len() == RTDE_WORKSPACES);
        assert(a.screens[cs as int].workspaces[w as int] == app.screens@[cs as int].workspaces@[w as int]@);
    }
    let ghost cl = a.screens[cs as int].workspaces[w as int].clients;
    let n = app.screens[cs].workspaces[w].clients.len();
    let mut i: usize = 0;
    let mut hit: Option<usize> = None;
    while i < n && hit.is_none()
        invariant
            app@ == a,
            n == cl.len(),
            cs < app.screens@.len(),
            w < app.screens@[cs as int].workspaces@.len(),
            cl == app.screens@[cs as int].workspaces@[w as int].clients@,
            i <= n,
            match hit {
                Some(k) => k < n && cl[k as int].window_id == win && forall|j: int| 0 <= j < k ==> #[trigger] cl[j].window_id != win,
                None => forall|j: int| 0 <= j < i ==> #[trigger] cl[j].window_id != win,
            },
        decreases n - i,
    {
        if app.screens[cs].workspaces[w].clients[i].window_id == win {
            hit = Some(i);
        }
        i = i + 1;
    }
    proof {
        match hit {
            Some(k) => {
                let pick = choose|i: int| 0 <= i < cl.len() && cl[i].window_id == win && forall|j: int| 0 <= j < i ==> #[trigger] cl[j].window_id != win;
                assert(0 <= k < cl.len() && cl[k as int].window_id == win && forall|j: int| 0 <= j < k ==> #[trigger] cl[j].window_id != win);
                if pick < k {
                    assert(cl[pick].window_id != win);
                } else if pick > k {
                    assert(cl[k as int].window_id != win);
                }
                assert(first_index(cl, win) == Some(k as int));
            },
            None => {
                assert(first_index(cl, win) == None::<int>);
            },
        }
    }
    if let Some(k) = hit {
        let ghost before = app.screens@;
        app.screens[cs].workspaces[w].current_client = Some(k);
        app.current_client = Some(k);
        proof {
            lemma_ws_write(before, app.screens@, cs as int, w as int);
            let ws = a.screens[cs as int].workspaces[w as int];
            assert(app.screens@[cs as int].workspaces@[w as int]@ =~= WorkspaceV { current_client: Some(k), ..ws });
            lemma_ws_replaced_wf(a, cs as int, w as int, WorkspaceV { current_client: Some(k), ..ws });
        }
    }
    let ghost a1 = app@;
    proof {
        assert(a1.screens == screens_view(app.screens@));
    }
    match find_in(&app.screens, win) {
        Some((s, ww, c)) => {
            let ghost p = (s as int, ww as int, c as int);
            proof {
                let pc = choose|q: (int, int, int)| first_of(a1.screens, win, q);
                assert(first_of(a1.screens, win, pc));
                if pc != p {
                    if crate::rtde::before_pos(pc, p) {
                        assert(crate::rtde::rtde_client(a1.screens, pc).window_id != win);
                    } else {
                        assert(crate::rtde::before_pos(p, pc));
                        assert(crate::rtde::rtde_client(a1.screens, p).window_id != win);
                    }
                }
                assert(rw_first(a1.screens, win) == Some(p));
                assert(a1.screens[s as int].workspaces.len() == RTDE_WORKSPACES);
            }
            app.current_screen = s;
            app.current_workspace = ww;
            app.current_client = Some(c);
        },
        None => {
            proof {
                assert(!exists|q: (int, int, int)| first_of(a1.screens, win, q));
            }
        },
    }
    proof {
        assert(app@ =~= rw_enter_spec(a, win).0);
        assert(reqs@ =~= old(reqs)@ + rw_enter_spec(a, win).1);
    }
}

// ---------------------------------------------------------------------------
// Switching workspaces
// ---------------------------------------------------------------------------

/// The request that shows a hidden client or moves a shown one out of view.
pub open spec fn toggle_req(c: Client) -> Request {
    if c.visible {
        Request::MoveResize { win: c.window_id, x: (-(c.w as i32)) as i32, y: (-(c.h as i32)) as i32, width: c.w, height: c.h }
    } else {
        Request::MoveResize { win: c.window_id, x: c.x, y: c.y, width: c.w, height: c.h }
    }
}

/// A client with its visibility flipped.
pub open spec fn toggled(c: Client) -> Client {
    Client { visible: !c.visible, ..c }
}

/// Every client's size can be negated in pixels.
pub open spec fn sizes_ok(cs: Seq<Client>) -> bool {
    forall|i: int| 0 <= i < cs.len() ==> (#[trigger] cs[i]).w as i32 != i32::MIN && cs[i].h as i32 != i32::MIN
}

/// Flip the visibility of every client of workspace `(s, w)`, moving the
/// shown ones out of view and the hidden ones back.
fn show_hide(app: &mut RustWm, s: usize, w: usize, reqs: &mut Vec<Request>)
    requires
        old(app)@.wf(),
        s < old(app)@.screens.len(),
        w < RTDE_WORKSPACES,
        sizes_ok(old(app)@.screens[s as int].workspaces[w as int].clients),
    ensures
        ({
            let ws = old(app)@.screens[s as int].workspaces[w as int];
            &&& final(app)@ == with_screens(
                old(app)@,
                ws_replaced(old(app)@.screens, s as int, w as int, WorkspaceV { clients: ws.clients.map_values(|c: Client| toggled(c)), ..ws }),
            )
            &&& final(reqs)@ == old(reqs)@ + ws.clients.map_values(|c: Client| toggle_req(c))
        }),
        final(app)@.wf(),
{
    let ghost a = app@;
    proof {
        assert(a.screens[s as int] == app.screens@[s as int]@);
        assert(a.screens[s as int].workspaces.len() == RTDE_WORKSPACES);
        assert(a.screens[s as int].workspaces[w as int] == app.screens@[s as int].workspaces@[w as int]@);
    }
    let ghost ws = a.screens[s as int].workspaces[w as int];
    let ghost cl = ws.clients;
    let n = app.screens[s].workspaces[w].clients.len();
    let mut i: usize = 0;
    proof {
        assert(Seq::new(n as nat, |k: int| if k < 0 { toggled(cl[k]) } else { cl[k] }) =~= cl);
        assert(WorkspaceV { clients: cl, ..ws } == ws);
        lemma_ws_replaced_twice(a.screens, s as int, w as int, ws, ws);
        assert(app@ =~= with_screens(a, ws_replaced(a.screens, s as int, w as int, ws)));
    }
    while i < n
        invariant
            n == cl.len(),
            i <= n,
            s < app.screens@.len(),
            w < app.screens@[s as int].workspaces@.len(),
            app@ == with_screens(
                a,
                ws_replaced(
                    a.screens,
                    s as int,
                    w as int,
                    WorkspaceV { clients: Seq::new(n as nat, |k: int| if k < i { toggled(cl[k]) } else { cl[k] }), ..ws },
                ),
            ),
            app.screens@[s as int].workspaces@[w as int].clients@ == Seq::new(n as nat, |k: int| if k < i { toggled(cl[k]) } else { cl[k] }),
            reqs@ == old(reqs)@ + cl.take(i as int).map_values(|c: Client| toggle_req(c)),
            sizes_ok(cl),
            a.wf(),
            s < a.screens.len(),
            w < RTDE_WORKSPACES,
            ws == a.screens[s as int].workspaces[w as int],
        decreases n - i,
    {
        let c = &app.screens[s].workspaces[w].clients[i];
        proof {
            assert(*c == cl[i as int]);
            assert(sizes_ok(cl) ==> (cl[i as int].w as i32 != i32::MIN));
        }
        let r = if c.visible {
            Request::MoveResize { win: c.window_id, x: (-(c.w as i32)) as i32, y: (-(c.h as i32)) as i32, width: c.w, height: c.h }
        } else {
            Request::MoveResize { win: c.window_id, x: c.x, y: c.y, width: c.w, height: c.h }
        };
        reqs.push(r);
        let ghost before = app.screens@;
        let v = !app.screens[s].workspaces[w].clients[i].visible;
        app.screens[s].workspaces[w].clients[i].visible = v;
        proof {
            assert(cl.take(i + 1) =~= cl.take(i as int).push(cl[i as int]));
            assert(reqs@ =~= old(reqs)@ + cl.take(i + 1).map_values(|c: Client| toggle_req(c)));
            let target = Seq::new(n as nat, |k: int| if k < i + 1 { toggled(cl[k]) } else { cl[k] });
            assert(app.screens@[s as int].workspaces@[w as int].clients@ =~= target);
            lemma_ws_write(before, app.screens@, s as int, w as int);
            let prev = WorkspaceV { clients: Seq::new(n as nat, |k: int| if k < i { toggled(cl[k]) } else { cl[k] }), ..ws };
            lemma_ws_replaced_twice(a.screens, s as int, w as int, prev, prev);
            assert(screens_view(before)[s as int] == before[s as int]@);
            assert(screens_view(before)[s as int].workspaces[w as int] == before[s as int].workspaces@[w as int]@);
            assert(before[s as int].workspaces@[w as int]@ == prev);
            assert(app.screens@[s as int].workspaces@[w as int]@ =~= WorkspaceV { clients: target, ..ws });
            lemma_ws_replaced_twice(a.screens, s as int, w as int, prev, WorkspaceV { clients: target, ..ws });
        }
        i = i + 1;
    }
    proof {
        assert(cl.take(n as int) =~= cl);
        assert(Seq::new(n as nat, |k: int| if k < n { toggled(cl[k]) } else { cl[k] }) =~= cl.map_values(|c: Client| toggled(c)));
        lemma_ws_replaced_wf(a, s as int, w as int, WorkspaceV { clients: cl.map_values(|c: Client| toggled(c)), ..ws });
    }
}

/// State and requests of flipping the visibility of workspace `(s, w)`.
pub open spec fn show_hide_spec(a: RustWmV, s: int, w: int) -> (RustWmV, Seq<Request>) {
    let ws = a.screens[s].workspaces[w];
    (
        with_screens(a, ws_replaced(a.screens, s, w, WorkspaceV { clients: ws.clients.map_values(|c: Client| toggled(c)), ..ws })),
        ws.clients.map_values(|c: Client| toggle_req(c)),
    )
}

/// State and requests of switching to workspace `n` of the current screen:
/// nothing when it is the current one; else the current workspace's
/// windows flip out of view, `n` becomes the current workspace (of the
/// screen too) with its client tracker, its windows flip into view and it
/// is laid out again.
pub open spec fn rw_focus_workspace_spec(a: RustWmV, n: u64) -> (RustWmV, Seq<Request>) {
    if n as usize == a.current_workspace {
        (a, Seq::empty())
    } else {
        let cs = a.current_screen as int;
        let (a1, r1) = show_hide_spec(a, cs, a.current_workspace as int);
        let sc = a1.screens[cs];
        let a2 = RustWmV {
            screens: a1.screens.update(cs, RtdeScreenV { current_workspace: n as usize, ..sc }),
            current_workspace: n as usize,
            current_client: sc.workspaces[(n as usize) as int].current_client,
            ..a1
        };
        let (a3, r3) = show_hide_spec(a2, cs, (n as usize) as int);
        (a3, r1 + r3 + seq![Request::Tile])
    }
}

/// What switching to workspace `n` needs: it exists, and the windows that
/// flip have sizes that can be negated.
pub open spec fn rw_focus_workspace_ok(a: RustWmV, n: u64) -> bool {
    &&& a.wf()
    &&& (n as usize) < RTDE_WORKSPACES
    &&& sizes_ok(a.cur_ws().clients)
    &&& sizes_ok(a.screens[a.current_screen as int].workspaces[(n as usize) as int].clients)
}

/// Switch to workspace `n` of the current screen (see `rw_focus_workspace_spec`).
pub fn rw_focus_on_workspace(app: &mut RustWm, n: u64, reqs: &mut Vec<Request>)
    requires
        old(app)@.wf(),
        n as usize != old(app)@.current_workspace ==> rw_focus_workspace_ok(old(app)@, n),
    ensures
        final(app)@ == rw_focus_workspace_spec(old(app)@, n).0,
        final(reqs)@ == old(reqs)@ + rw_focus_workspace_spec(old(app)@, n).1,
        final(app)@.wf(),
{
    let ghost a = app@;
    let m = n as usize;
    if m == app.current_workspace {
        assert(reqs@ =~= old(reqs)@ + rw_focus_workspace_spec(a, n).1);
        return;
    }
    let cs = app.current_screen;
    let cw = app.current_workspace;
    show_hide(app, cs, cw, reqs);
    let ghost a1 = app@;
    let ghost r1 = reqs@;
    proof {
        assert(a1.screens[cs as int] == app.screens@[cs as int]@);
        lemma_ws_replaced_twice(a.screens, cs as int, cw as int, a.cur_ws(), a.cur_ws());
    }
    app.screens[cs].current_workspace = m;
    app.current_workspace = m;
    proof {
        assert(app.screens@[cs as int]@.workspaces == a1.screens[cs as int].workspaces);
        assert(a1.screens[cs as int].workspaces.len() == RTDE_WORKSPACES);
        assert(a1.screens[cs as int].workspaces[m as int] == app.screens@[cs as int].workspaces@[m as int]@);
    }
    app.current_client = app.screens[cs].workspaces[m].current_client;
    let ghost a2 = app@;
    proof {
        let sc = a1.screens[cs as int];
        assert(a2.screens =~= a1.screens.update(cs as int, RtdeScreenV { current_workspace: m, ..sc }));
        assert(a2 =~= RustWmV {
            screens: a1.screens.update(cs as int, RtdeScreenV { current_workspace: m, ..sc }),
            current_workspace: m,
            current_client: sc.workspaces[m as int].current_client,
            ..a1
        });
        assert forall|k: int| 0 <= k < a2.screens.len() implies {
            &&& (#[trigger] a2.screens[k]).workspaces.len() == RTDE_WORKSPACES
            &&& a2.screens[k].current_workspace < RTDE_WORKSPACES
            &&& 0 <= a2.screens[k].number < a2.screens.len()
        } by {
            assert(a1.screens[k].workspaces.len() == RTDE_WORKSPACES);
        }
        assert(a2.screens[cs as int].workspaces[m as int] == a.screens[cs as int].workspaces[m as int]);
    }
    show_hide(app, cs, m, reqs);
    reqs.push(Request::Tile);
    proof {
        assert(app@ == rw_focus_workspace_spec(a, n).0);
        assert(reqs@ =~= old(reqs)@ + rw_focus_workspace_spec(a, n).1);
    }
}

// ---------------------------------------------------------------------------
// Moving the focused client
// ---------------------------------------------------------------------------

/// The state after the client at `index` of the current workspace is removed.
pub open spec fn rw_removed(a: RustWmV, index: int) -> RustWmV {
    with_screens(a, client_removed(a.screens, (a.current_screen as int, a.current_workspace as int, index)))
}

/// The state after the current workspace's tracker is shifted (see
/// `shifted`), the client tracker following it.
pub open spec fn rw_shifted(a: RustWmV) -> RustWmV {
    let ws = a.cur_ws();
    let nc = shifted(ws);
    RustWmV {
        screens: ws_replaced(a.screens, a.current_screen as int, a.current_workspace as int, WorkspaceV { current_client: nc, ..ws }),
        current_client: nc,
        ..a
    }
}

/// The state after client `c` is pushed on workspace `(s, w)`.
pub open spec fn rw_pushed(a: RustWmV, s: int, w: int, c: Client) -> RustWmV {
    let ws = a.screens[s].workspaces[w];
    with_screens(a, ws_replaced(a.screens, s, w, WorkspaceV { clients: ws.clients.push(c), ..ws }))
}

/// Remove the client at `index` of the current workspace and hand it back.
fn remove_current(app: &mut RustWm, index: usize) -> (c: Client)
    requires
        old(app)@.wf(),
        index < old(app)@.cur_ws().clients.len(),
    ensures
        c == old(app)@.cur_ws().clients[index as int],
        final(app)@ == rw_removed(old(app)@, index as int),
        final(app)@.wf(),
{
    let ghost a = app@;
    let cs = app.current_screen;
    let cw = app.current_workspace;
    proof {
        assert(a.screens[cs as int] == app.screens@[cs as int]@);
        assert(a.screens[cs as int].workspaces.len() == RTDE_WORKSPACES);
        assert(a.cur_ws() == app.screens@[cs as int].workspaces@[cw as int]@);
    }
    let ghost before = app.screens@;
    let c = app.screens[cs].workspaces[cw].clients.remove(index);
    proof {
        lemma_ws_write(before, app.screens@, cs as int, cw as int);
        let ws = a.cur_ws();
        assert(app.screens@[cs as int].workspaces@[cw as int]@ =~= WorkspaceV { clients: ws.clients.remove(index as int), ..ws });
        lemma_ws_replaced_wf(a, cs as int, cw as int, WorkspaceV { clients: ws.clients.remove(index as int), ..ws });
        assert(app@ =~= rw_removed(a, index as int));
    }
    c
}

/// Shift the current workspace's tracker after a client left it.
fn shift_current(app: &mut RustWm)
    requires
        old(app)@.wf(),
        old(app)@.cur_ws().clients.len() >= 2 ==> old(app)@.cur_ws().current_client is Some,
    ensures
        final(app)@ == rw_shifted(old(app)@),
        final(app)@.wf(),
{
    let ghost a = app@;
    let cs = app.current_screen;
    let cw = app.current_workspace;
    proof {
        assert(a.screens[cs as int] == app.screens@[cs as int]@);
        assert(a.screens[cs as int].workspaces.len() == RTDE_WORKSPACES);
        assert(a.cur_ws() == app.screens@[cs as int].workspaces@[cw as int]@);
    }
    let len = app.screens[cs].workspaces[cw].clients.len();
    let nc: Option<usize> = if len == 1 {
        Some(0)
    } else if len == 0 {
        None
    } else {
        let cc = app.screens[cs].workspaces[cw].current_client.unwrap();
        if cc < len {
            Some(cc)
        } else {
            Some(cc - 1)
        }
    };
    let ghost before = app.screens@;
    app.screens[cs].workspaces[cw].current_client = nc;
    app.current_client = nc;
    proof {
        lemma_ws_write(before, app.screens@, cs as int, cw as int);
        let ws = a.cur_ws();
        assert(app.screens@[cs as int].workspaces@[cw as int]@ =~= WorkspaceV { current_client: nc, ..ws });
        lemma_ws_replaced_wf(a, cs as int, cw as int, WorkspaceV { current_client: nc, ..ws });
    }
}

/// Push client `c` on workspace `(s, w)`.
fn push_on(app: &mut RustWm, s: usize, w: usize, c: Client)
    requires
        old(app)@.wf(),
        s < old(app)@.screens.len(),
        w < RTDE_WORKSPACES,
    ensures
        final(app)@ == rw_pushed(old(app)@, s as int, w as int, c),
        final(app)@.wf(),
{
    let ghost a = app@;
    proof {
        assert(a.screens[s as int] == app.screens@[s as int]@);
        assert(a.screens[s as int].workspaces.len() == RTDE_WORKSPACES);
        assert(a.screens[s as int].workspaces[w as int] == app.screens@[s as int].workspaces@[w as int]@);
    }
    let ghost before = app.screens@;
    app.screens[s].workspaces[w].clients.push(c);
    proof {
        lemma_ws_write(before, app.screens@, s as int, w as int);
        let ws = a.screens[s as int].workspaces[w as int];
        assert(app.screens@[s as int].workspaces@[w as int]@ =~= WorkspaceV { clients: ws.clients.push(c), ..ws });
        lemma_ws_replaced_wf(a, s as int, w as int, WorkspaceV { clients: ws.clients.push(c), ..ws });
    }
}

/// What moving the focused client needs: it is in range, and when the
/// current workspace keeps two clients or more without it, that workspace
/// has a focused one.
pub open spec fn rw_move_ok(a: RustWmV) -> bool {
    &&& a.wf()
    &&& (a.current_client matches Some(i) ==> {
        &&& i < a.cur_ws().clients.len()
        &&& (rw_removed(a, i as int).cur_ws().clients.len() >= 2 ==> rw_removed(a, i as int).cur_ws().current_client is Some)
    })
}

/// State and requests of moving the focused client to the next or previous
/// screen: it leaves the current workspace (whose tracker shifts) and goes
/// on top of that screen's current workspace, and the layout is redone.
pub open spec fn rw_move_to_screen_spec(a: RustWmV, d: ScreenSwitching) -> (RustWmV, Seq<Request>) {
    match a.current_client {
        Some(i) => {
            let ns = rw_switched(a.current_screen as int, a.screens.len() as int, d);
            let cl = a.cur_ws().clients[i as int];
            let b = rw_shifted(rw_removed(a, i as int));
            (rw_pushed(b, ns, b.screens[ns].current_workspace as int, cl), seq![Request::Tile])
        },
        None => (a, Seq::empty()),
    }
}

/// Move the focused client to the next or previous screen (see `rw_move_to_screen_spec`).
pub fn rw_move_to_screen(app: &mut RustWm, d: ScreenSwitching, reqs: &mut Vec<Request>)
    requires
        rw_move_ok(old(app)@),
    ensures
        final(app)@ == rw_move_to_screen_spec(old(app)@, d).0,
        final(reqs)@ == old(reqs)@ + rw_move_to_screen_spec(old(app)@, d).1,
        final(app)@.wf(),
{
    let ghost a = app@;
    if let Some(index) = app.current_client {
        let n = app.screens.len();
        let cs = app.current_screen;
        let ns = match d {
            ScreenSwitching::Next => (cs + 1) % n,
            ScreenSwitching::Previous => if cs == 0 { n - 1 } else { cs - 1 },
        };
        proof {
            let (c, m) = (cs as int, n as int);
            assert(c == 0 ==> (c + m - 1) % m == m - 1) by (nonlinear_arith)
                requires 0 <= c < m;
            assert(c > 0 ==> (c + m - 1) % m == c - 1) by (nonlinear_arith)
                requires 0 <= c < m;
        }
        let cc = remove_current(app, index);
        shift_current(app);
        proof {
            assert(app@.screens[ns as int] == app.screens@[ns as int]@);
        }
        let nw = app.screens[ns].current_workspace;
        push_on(app, ns, nw, cc);
        reqs.push(Request::Tile);
    }
    assert(reqs@ =~= old(reqs)@ + rw_move_to_screen_spec(a, d).1);
}

/// State and requests of moving the focused client to workspace `n` of the
/// current screen (when it is another one): it leaves the current workspace,
/// which is laid out again, is moved out of view and marked the other way
/// visible, the tracker shifts, and it goes on top of workspace `n`.
pub open spec fn rw_move_to_workspace_spec(a: RustWmV, n: u64) -> (RustWmV, Seq<Request>) {
    if n as usize != a.current_workspace && a.current_client is Some {
        let i = a.current_client->0;
        let cl = a.cur_ws().clients[i as int];
        let b = rw_shifted(rw_removed(a, i as int));
        (
            rw_pushed(b, a.current_screen as int, (n as usize) as int, toggled(cl)),
            seq![
                Request::Tile,
                Request::MoveResize { win: cl.window_id, x: -(cl.w as i32) as i32, y: -(cl.h as i32) as i32, width: cl.w, height: cl.h },
            ],
        )
    } else {
        (a, Seq::empty())
    }
}

/// What moving the focused client to workspace `n` needs: that workspace
/// exists, the move is possible and the client's size can be negated.
pub open spec fn rw_move_to_workspace_ok(a: RustWmV, n: u64) -> bool {
    &&& rw_move_ok(a)
    &&& (n as usize) < RTDE_WORKSPACES
    &&& (a.current_client matches Some(i) ==> a.cur_ws().clients[i as int].w as i32 != i32::MIN
        && a.cur_ws().clients[i as int].h as i32 != i32::MIN)
}

/// Move the focused client to workspace `n` of the current screen (see
/// `rw_move_to_workspace_spec`).
pub fn rw_move_to_workspace(app: &mut RustWm, n: u64, reqs: &mut Vec<Request>)
    requires
        rw_move_to_workspace_ok(old(app)@, n),
    ensures
        final(app)@ == rw_move_to_workspace_spec(old(app)@, n).0,
        final(reqs)@ == old(reqs)@ + rw_move_to_workspace_spec(old(app)@, n).1,
        final(app)@.wf(),
{
    let ghost a = app@;
    let m = n as usize;
    if m != app.current_workspace {
        if let Some(index) = app.current_client {
            let mut cc = remove_current(app, index);
            reqs.push(Request::Tile);
            reqs.push(Request::MoveResize { win: cc.window_id, x: -(cc.w as i32), y: -(cc.h as i32), width: cc.w, height: cc.h });
            cc.visible = !cc.visible;
            shift_current(app);
            let cs = app.current_screen;
            push_on(app, cs, m, cc);
        }
    }
    assert(reqs@ =~= old(reqs)@ + rw_move_to_workspace_spec(a, n).1);
}

// ---------------------------------------------------------------------------
// Running a key action
// ---------------------------------------------------------------------------

/// State and requests of running key action `i`.
pub open spec fn rw_action_spec(a: RustWmV, i: int) -> (RustWmV, Seq<Request>) {
    match a.key_actions@[i].result {
        ActionResult::KillClient => (a, match a.current_client {
            Some(k) => seq![Request::AskToClose { win: a.cur_ws().clients[k as int].window_id }],
            None => Seq::empty(),
        }),
        ActionResult::Spawn(_) => (a, seq![Request::SpawnAction { index: i as usize }]),
        ActionResult::MoveToScreen(d) => rw_move_to_screen_spec(a, d),
        ActionResult::FocusOnScreen(d) => {
            let ns = rw_switched(a.current_screen as int, a.screens.len() as int, d);
            (RustWmV { current_screen: ns as usize, current_workspace: a.screens[ns].current_workspace, ..a }, Seq::empty())
        },
        ActionResult::UpdateMasterCapacity(k) => (
            with_screens(
                a,
                ws_replaced(
                    a.screens,
                    a.current_screen as int,
                    a.current_workspace as int,
                    WorkspaceV { master_capacity: (a.cur_ws().master_capacity + k) as i64, ..a.cur_ws() },
                ),
            ),
            Seq::empty(),
        ),
        ActionResult::UpdateMasterWidth(w) => (
            with_screens(
                a,
                ws_replaced(
                    a.screens,
                    a.current_screen as int,
                    a.current_workspace as int,
                    WorkspaceV { master_width: (a.cur_ws().master_width + w) as i64, ..a.cur_ws() },
                ),
            ),
            Seq::empty(),
        ),
        ActionResult::MoveToWorkspace(n) => rw_move_to_workspace_spec(a, n),
        ActionResult::FocusOnWorkspace(n) => rw_focus_workspace_spec(a, n),
        ActionResult::Quit => (RustWmV { running: false, ..a }, Seq::empty()),
        _ => (a, Seq::empty()),
    }
}

/// What running key action `i` needs (the inputs on which it would fail).
pub open spec fn rw_action_ok(a: RustWmV, i: int) -> bool {
    &&& a.wf()
    &&& 0 <= i < a.key_actions@.len()
    &&& match a.key_actions@[i].result {
        ActionResult::KillClient => a.current_client matches Some(k) ==> k < a.cur_ws().clients.len(),
        ActionResult::MoveToScreen(_) => rw_move_ok(a),
        ActionResult::UpdateMasterCapacity(k) => i64::MIN <= a.cur_ws().master_capacity + k <= i64::MAX,
        ActionResult::UpdateMasterWidth(w) => i64::MIN <= a.cur_ws().master_width + w <= i64::MAX,
        ActionResult::MoveToWorkspace(n) => rw_move_to_workspace_ok(a, n),
        ActionResult::FocusOnWorkspace(n) => n as usize == a.current_workspace || rw_focus_workspace_ok(a, n),
        _ => true,
    }
}

/// What a key action asks for, as plain values.
enum Step {
    Kill,
    Spawn,
    MoveScreen(ScreenSwitching),
    FocusScreen(ScreenSwitching),
    Size(i64),
    Width(i64),
    MoveWorkspace(u64),
    FocusWorkspace(u64),
    Quit,
    Nothing,
}

/// Run key action `i` (see `rw_action_spec`): kill asks the focused client to
/// close, spawn starts the action's command, and the others move, focus,
/// resize the master area or quit.
pub fn rw_run_action(app: &mut RustWm, i: usize, reqs: &mut Vec<Request>)
    requires
        rw_action_ok(old(app)@, i as int),
    ensures
        final(app)@ == rw_action_spec(old(app)@, i as int).0,
        final(reqs)@ == old(reqs)@ + rw_action_spec(old(app)@, i as int).1,
        final(app)@.wf(),
{
    let ghost a = app@;
    let step = match &app.key_actions[i].result {
        ActionResult::KillClient => Step::Kill,
        ActionResult::Spawn(_) => Step::Spawn,
        ActionResult::MoveToScreen(d) => Step::MoveScreen(*d),
        ActionResult::FocusOnScreen(d) => Step::FocusScreen(*d),
        ActionResult::UpdateMasterCapacity(k) => Step::Size(*k),
        ActionResult::UpdateMasterWidth(w) => Step::Width(*w),
        ActionResult::MoveToWorkspace(n) => Step::MoveWorkspace(*n),
        ActionResult::FocusOnWorkspace(n) => Step::FocusWorkspace(*n),
        ActionResult::Quit => Step::Quit,
        _ => Step::Nothing,
    };
    match step {
        Step::Kill => rw_kill_client(app, reqs),
        Step::Spawn => {
            reqs.push(Request::SpawnAction { index: i });
        },
        Step::MoveScreen(d) => rw_move_to_screen(app, d, reqs),
        Step::FocusScreen(d) => rw_focus_on_screen(app, d),
        Step::Size(k) => rw_update_master_size(app, k),
        Step::Width(w) => rw_update_master_width(app, w),
        Step::MoveWorkspace(n) => rw_move_to_workspace(app, n, reqs),
        Step::FocusWorkspace(n) => rw_focus_on_workspace(app, n, reqs),
        Step::Quit => rw_quit(app),
        Step::Nothing => {},
    }
    assert(reqs@ =~= old(reqs)@ + rw_action_spec(a, i as int).1);
}

/// Key action `i` answers the key: its key code (`codes[i]`, the code of its
/// key symbol) and modifier mask match.
pub open spec fn rw_matches(a: RustWmV, keycode: u32, state: u32, codes: Seq<u32>, i: int) -> bool {
    codes[i] == keycode && a.key_actions@[i].modifier == state
}

/// State and requests after the first `k` key actions had their turn at a
/// key press, each that matches running on the state the previous left.
pub open spec fn rw_keys_upto(a: RustWmV, keycode: u32, state: u32, codes: Seq<u32>, k: int) -> (RustWmV, Seq<Request>)
    decreases k,
{
    if k <= 0 {
        (a, Seq::empty())
    } else {
        let (b, r) = rw_keys_upto(a, keycode, state, codes, k - 1);
        if rw_matches(a, keycode, state, codes, k - 1) {
            let (c, r2) = rw_action_spec(b, k - 1);
            (c, r + r2)
        } else {
            (b, r)
        }
    }
}

/// Every matching action among the first `k` can run on the state it meets.
pub open spec fn rw_keys_ok(a: RustWmV, keycode: u32, state: u32, codes: Seq<u32>, k: int) -> bool
    decreases k,
{
    if k <= 0 {
        true
    } else {
        rw_keys_ok(a, keycode, state, codes, k - 1) && (rw_matches(a, keycode, state, codes, k - 1) ==> rw_action_ok(
            rw_keys_upto(a, keycode, state, codes, k - 1).0,
            k - 1,
        ))
    }
}

/// Running actions keeps the key actions.
proof fn lemma_keys_keep_actions(a: RustWmV, keycode: u32, state: u32, codes: Seq<u32>, k: int)
    ensures
        rw_keys_upto(a, keycode, state, codes, k).0.key_actions == a.key_actions,
    decreases k,
{
    if k > 0 {
        lemma_keys_keep_actions(a, keycode, state, codes, k - 1);
    }
}

/// A key was pressed (`codes[i]` is the key code of action `i`'s key
/// symbol): every key action whose code and modifiers match runs, in order.
pub fn rw_key_press(app: &mut RustWm, keycode: u32, state: u32, codes: &Vec<u32>, reqs: &mut Vec<Request>)
    requires
        old(app)@.wf(),
        codes@.len() == old(app)@.key_actions@.len(),
        rw_keys_ok(old(app)@, keycode, state, codes@, codes@.len() as int),
    ensures
        final(app)@ == rw_keys_upto(old(app)@, keycode, state, codes@, codes@.len() as int).0,
        final(reqs)@ == old(reqs)@ + rw_keys_upto(old(app)@, keycode, state, codes@, codes@.len() as int).1,
        final(app)@.wf(),
{
    let ghost a = app@;
    let n = codes.len();
    let mut i: usize = 0;
    proof {
        assert forall|k: int| 0 <= k <= n implies #[trigger] rw_keys_ok(a, keycode, state, codes@, k) by {
            lemma_keys_ok_prefix(a, keycode, state, codes@, n as int, k);
        }
    }
    while i < n
        invariant
            n == codes@.len(),
            n == a.key_actions@.len(),
            i <= n,
            app@ == rw_keys_upto(a, keycode, state, codes@, i as int).0,
            reqs@ == old(reqs)@ + rw_keys_upto(a, keycode, state, codes@, i as int).1,
            app@.wf(),
            forall|k: int| 0 <= k <= n ==> #[trigger] rw_keys_ok(a, keycode, state, codes@, k),
        decreases n - i,
    {
        proof {
            lemma_keys_keep_actions(a, keycode, state, codes@, i as int);
            assert(rw_keys_ok(a, keycode, state, codes@, i + 1));
        }
        if codes[i] == keycode && app.key_actions[i].modifier == state {
            rw_run_action(app, i, reqs);
        }
        proof {
            assert(reqs@ =~= old(reqs)@ + rw_keys_upto(a, keycode, state, codes@, i + 1).1);
        }
        i = i + 1;
    }
}

/// Every prefix of the actions can run when all can.
proof fn lemma_keys_ok_prefix(a: RustWmV, keycode: u32, state: u32, codes: Seq<u32>, k: int, j: int)
    requires
        0 <= j <= k,
        rw_keys_ok(a, keycode, state, codes, k),
    ensures
        rw_keys_ok(a, keycode, state, codes, j),
    decreases k,
{
    if k > j {
        lemma_keys_ok_prefix(a, keycode, state, codes, k - 1, j);
    }
}

// ---------------------------------------------------------------------------
// One event of the main loop
// ---------------------------------------------------------------------------

/// An event of the X server, with what the handlers need to know of it.
#[derive(Debug)]
pub enum RwEvent {
    /// A key was pressed; `codes[i]` is the key code of action `i`'s key symbol.
    KeyPress { keycode: u32, state: u32, codes: Vec<u32> },
    /// A window asks to be mapped; `override_redirect` is `None` when its
    /// attributes could not be read, `name` its name when it could be read.
    MapRequest { window: u64, override_redirect: Option<bool>, name: Option<String> },
    EnterNotify { window: u64 },
    DestroyNotify { window: u64 },
    UnmapNotify { window: u64 },
    MotionNotify { x: i32, y: i32 },
    /// A property of a window changed; `name` is its name when it could be read.
    PropertyNotify { window: u64, name: Option<String> },
    Other,
}

/// State and requests of one event, `initial` and `fallback` being the
/// placeholder names a client has before its name is read and when it cannot
/// be read.
pub open spec fn rw_handle_spec(a: RustWmV, ev: RwEvent, initial: String, fallback: String) -> (RustWmV, Seq<Request>) {
    match ev {
        RwEvent::KeyPress { keycode, state, codes } => rw_keys_upto(a, keycode, state, codes@, codes@.len() as int),
        RwEvent::MapRequest { window, override_redirect, name } => rw_map_spec(a, window, override_redirect, name, initial, fallback),
        RwEvent::EnterNotify { window } => rw_enter_spec(a, window),
        RwEvent::DestroyNotify { window } => rw_unmanage_spec(a, window),
        RwEvent::UnmapNotify { window } => rw_unmanage_spec(a, window),
        RwEvent::MotionNotify { x, y } => (
            RustWmV { current_screen: rw_pointed(a.screens, x as i64, y as i64, a.screens.len() as int, a.current_screen), ..a },
            Seq::empty(),
        ),
        RwEvent::PropertyNotify { window, name } => if window != a.root_win {
            (with_screens(a, renamed(a.screens, window, stored_name(name, fallback))), Seq::empty())
        } else {
            (a, Seq::empty())
        },
        RwEvent::Other => (a, Seq::empty()),
    }
}

/// What handling an event needs: the inputs on which the handlers would fail
/// are left out.
pub open spec fn rw_handle_ok(a: RustWmV, ev: RwEvent) -> bool {
    &&& a.wf()
    &&& match ev {
        RwEvent::KeyPress { keycode, state, codes } => codes@.len() == a.key_actions@.len() && rw_keys_ok(
            a,
            keycode,
            state,
            codes@,
            codes@.len() as int,
        ),
        RwEvent::DestroyNotify { window } => rw_unmanage_ok(a, window),
        RwEvent::UnmapNotify { window } => rw_unmanage_ok(a, window),
        _ => true,
    }
}

/// Handle one event of the main loop (see `rw_handle_spec`); the caller
/// waits for the events, sends the requests and lays out where asked.
pub fn rust_wm_handle(app: &mut RustWm, ev: RwEvent, reqs: &mut Vec<Request>)
    requires
        rw_handle_ok(old(app)@, ev),
    ensures
        exists|initial: String, fallback: String|
            initial@ == unmanaged_name() && fallback@ == unreadable_name() && final(app)@ == rw_handle_spec(
                old(app)@,
                ev,
                initial,
                fallback,
            ).0 && final(reqs)@ == old(reqs)@ + rw_handle_spec(old(app)@, ev, initial, fallback).1,
        final(app)@.wf(),
{
    let ghost a = app@;
    let ghost e = ev;
    let initial = "Unmanaged window".to_owned();
    let fallback = "WHAT THE FUCK".to_owned();
    proof {
        reveal_strlit("Unmanaged window");
        reveal_strlit("WHAT THE FUCK");
        assert(initial@ =~= unmanaged_name());
        assert(fallback@ =~= unreadable_name());
    }
    match ev {
        RwEvent::KeyPress { keycode, state, codes } => {
            rw_key_press(app, keycode, state, &codes, reqs);
            assert(app@ == rw_handle_spec(a, e, initial, fallback).0);
            assert(reqs@ == old(reqs)@ + rw_handle_spec(a, e, initial, fallback).1);
        },
        RwEvent::MapRequest { window, override_redirect, name } => {
            rw_map_request(app, window, override_redirect, name, reqs);
            proof {
                let (ini, fb) = choose|ini: String, fb: String|
                    ini@ == unmanaged_name() && fb@ == unreadable_name() && app@ == rw_map_spec(a, window, override_redirect, name, ini, fb).0
                        && reqs@ == old(reqs)@ + rw_map_spec(a, window, override_redirect, name, ini, fb).1;
                assert(app@ == rw_handle_spec(a, e, ini, fb).0);
                assert(reqs@ == old(reqs)@ + rw_handle_spec(a, e, ini, fb).1);
            }
        },
        RwEvent::EnterNotify { window } => {
            rw_enter_notify(app, window, reqs);
            assert(app@ == rw_handle_spec(a, e, initial, fallback).0);
            assert(reqs@ == old(reqs)@ + rw_handle_spec(a, e, initial, fallback).1);
        },
        RwEvent::DestroyNotify { window } => {
            rw_unmanage_window(app, window, reqs);
            assert(app@ == rw_handle_spec(a, e, initial, fallback).0);
            assert(reqs@ == old(reqs)@ + rw_handle_spec(a, e, initial, fallback).1);
        },
        RwEvent::UnmapNotify { window } => {
            rw_unmanage_window(app, window, reqs);
            assert(app@ == rw_handle_spec(a, e, initial, fallback).0);
            assert(reqs@ == old(reqs)@ + rw_handle_spec(a, e, initial, fallback).1);
        },
        RwEvent::MotionNotify { x, y } => {
            rw_motion_notify(app, x, y);
            assert(reqs@ =~= old(reqs)@ + rw_handle_spec(a, e, initial, fallback).1);
            assert(app@ == rw_handle_spec(a, e, initial, fallback).0);
        },
        RwEvent::PropertyNotify { window, name } => {
            rw_property_notify(app, window, name);
            proof {
                if window != a.root_win {
                    let fb = choose|fb: String| fb@ == unreadable_name() && app@ == with_screens(a, renamed(a.screens, window, #[trigger] stored_name(name, fb)));
                    assert(reqs@ =~= old(reqs)@ + rw_handle_spec(a, e, initial, fb).1);
                    assert(app@ == rw_handle_spec(a, e, initial, fb).0);
                } else {
                    assert(reqs@ =~= old(reqs)@ + rw_handle_spec(a, e, initial, fallback).1);
                }
            }
        },
        RwEvent::Other => {
            assert(reqs@ =~= old(reqs)@ + rw_handle_spec(a, e, initial, fallback).1);
        },
    }
}

} // verus!
