//! Lookups, trackers and layout used by the event logic.

use vstd::prelude::*;

use crate::request::Request;
use crate::structs::{lemma_wf_parts, lemma_with_ws_shape, ws_shape_wf, lemma_screen_with_ws, screen_shape_wf, layout_only, lemma_clients_layout, screen_layout_only, ws_layout_only, same_identity, lemma_screens_count_update, lemma_count_with_ws, config_wf, lemma_client_changed, lemma_runtime_view, AppV, Application, Client, RuntimeV, ScreenV, WorkspaceV, screen_wf, workspace_wf};
use crate::request::PropertyKind;
use vstd::wrapping::i32_specs;
use vstd::wrapping::u32_specs;
use vstd::wrapping::i64_specs;

verus! {

// ---------------------------------------------------------------------------
// Where a window lives
// ---------------------------------------------------------------------------

/// `(s, w, c)` comes before `(s2, w2, c2)` in screen, workspace, client order.
pub open spec fn lex_before(s: int, w: int, c: int, s2: int, w2: int, c2: int) -> bool {
    s < s2 || (s == s2 && (w < w2 || (w == w2 && c < c2)))
}

/// The client at `(s, w, c)` exists and is window `win`.
pub open spec fn holds(rt: RuntimeV, s: int, w: int, c: int, win: u64) -> bool {
    rt.valid_pos(s, w, c) && rt.client(s, w, c).window_id == win
}

/// Window `win` is managed somewhere.
pub open spec fn managed(rt: RuntimeV, win: u64) -> bool {
    exists|s: int, w: int, c: int| holds(rt, s, w, c, win)
}

/// `(s, w, c)` is the first position that holds window `win`.
pub open spec fn first_pos(rt: RuntimeV, win: u64, s: int, w: int, c: int) -> bool {
    &&& holds(rt, s, w, c, win)
    &&& forall|s2: int, w2: int, c2: int|
        #![trigger holds(rt, s2, w2, c2, win)]
        holds(rt, s2, w2, c2, win) ==> !lex_before(s2, w2, c2, s, w, c)
}

/// Where window `win` is managed: its first position, if any.
pub open spec fn window_pos(rt: RuntimeV, win: u64) -> Option<(usize, usize, usize)> {
    if exists|s: int, w: int, c: int| first_pos(rt, win, s, w, c) {
        let (s, w, c) = choose|s: int, w: int, c: int| first_pos(rt, win, s, w, c);
        Some((s as usize, w as usize, c as usize))
    } else {
        None
    }
}

/// At most one position is the first one.
pub proof fn lemma_first_pos_unique(rt: RuntimeV, win: u64, s: int, w: int, c: int, s2: int, w2: int, c2: int)
    requires
        first_pos(rt, win, s, w, c),
        first_pos(rt, win, s2, w2, c2),
    ensures
        s == s2 && w == w2 && c == c2,
{
    assert(holds(rt, s2, w2, c2, win));
    assert(holds(rt, s, w, c, win));
}

/// The position `window_pos` gives is the first one.
pub proof fn lemma_window_pos(rt: RuntimeV, win: u64, s: int, w: int, c: int)
    requires
        first_pos(rt, win, s, w, c),
    ensures
        window_pos(rt, win) == Some((s as usize, w as usize, c as usize)),
{
    let (s2, w2, c2) = choose|s: int, w: int, c: int| first_pos(rt, win, s, w, c);
    lemma_first_pos_unique(rt, win, s, w, c, s2, w2, c2);
}

/// A window that is held somewhere has a first position.
pub proof fn lemma_exists_first(rt: RuntimeV, win: u64, s: int, w: int, c: int)
    requires
        holds(rt, s, w, c, win),
    ensures
        exists|s: int, w: int, c: int| first_pos(rt, win, s, w, c),
    decreases s, w, c,
{
    if !first_pos(rt, win, s, w, c) {
        let (s2, w2, c2) = choose|s2: int, w2: int, c2: int|
            holds(rt, s2, w2, c2, win) && lex_before(s2, w2, c2, s, w, c);
        lemma_exists_first(rt, win, s2, w2, c2);
    }
}

/// What `window_pos` gives: the first position of a managed window, and
/// `None` for a window that is not managed.
pub proof fn lemma_window_pos_spec(rt: RuntimeV, win: u64)
    requires
        rt.wf(),
    ensures
        match window_pos(rt, win) {
            Some((s, w, c)) => first_pos(rt, win, s as int, w as int, c as int) && rt.valid_pos(s as int, w as int, c as int),
            None => !managed(rt, win),
        },
        window_pos(rt, win) is Some <==> managed(rt, win),
{
    if managed(rt, win) {
        let (s, w, c) = choose|s: int, w: int, c: int| holds(rt, s, w, c, win);
        lemma_exists_first(rt, win, s, w, c);
    }
    if exists|s: int, w: int, c: int| first_pos(rt, win, s, w, c) {
        let (s, w, c) = choose|s: int, w: int, c: int| first_pos(rt, win, s, w, c);
        assert(holds(rt, s, w, c, win));
        assert(screen_wf(rt.screens[s], s));
        lemma_count_with_ws(rt, s, w, rt.ws(s, w));
    }
}

/// A well-formed state's trackers name an existing workspace.
pub proof fn lemma_wf_current_ok(rt: RuntimeV)
    requires
        rt.wf(),
    ensures
        current_ok(rt),
        rt.valid_ws(rt.current_screen as int, rt.current_workspace as int),
{
    assert(screen_wf(rt.screens[rt.current_screen as int], rt.current_screen as int));
}

/// Returns screen, workspace and client indexes of the client with window `win`.
pub fn find_window_indexes(app: &Application, win: u64) -> (r: Option<(usize, usize, usize)>)
    ensures
        r == window_pos(app@.runtime, win),
        r is None <==> !managed(app@.runtime, win),
        r matches Some((s, w, c)) ==> first_pos(app@.runtime, win, s as int, w as int, c as int),
{
    let ghost rt = app@.runtime;
    let ns = app.runtime.screens.len();
    let mut s: usize = 0;
    while s < ns
        invariant
            rt == app@.runtime,
            ns == rt.screens.len(),
            s <= ns,
            forall|s2: int, w2: int, c2: int|
                #![trigger holds(rt, s2, w2, c2, win)]
                s2 < s ==> !holds(rt, s2, w2, c2, win),
        decreases ns - s,
    {
        let nw = app.runtime.screens[s].workspaces.len();
        let mut w: usize = 0;
        while w < nw
            invariant
                rt == app@.runtime,
                ns == rt.screens.len(),
                s < ns,
                nw == rt.screens[s as int].workspaces.len(),
                w <= nw,
                forall|s2: int, w2: int, c2: int|
                    #![trigger holds(rt, s2, w2, c2, win)]
                    (s2 < s || (s2 == s && w2 < w)) ==> !holds(rt, s2, w2, c2, win),
            decreases nw - w,
        {
            let nc = app.runtime.screens[s].workspaces[w].clients.len();
            let mut c: usize = 0;
            while c < nc
                invariant
                    rt == app@.runtime,
                    ns == rt.screens.len(),
                    s < ns,
                    nw == rt.screens[s as int].workspaces.len(),
                    w < nw,
                    nc == rt.ws(s as int, w as int).clients.len(),
                    c <= nc,
                    forall|s2: int, w2: int, c2: int|
                        #![trigger holds(rt, s2, w2, c2, win)]
                        lex_before(s2, w2, c2, s as int, w as int, c as int) ==> !holds(rt, s2, w2, c2, win),
                decreases nc - c,
            {
                if app.runtime.screens[s].workspaces[w].clients[c].window_id == win {
                    proof {
                        assert(holds(rt, s as int, w as int, c as int, win));
                        lemma_window_pos(rt, win, s as int, w as int, c as int);
                    }
                    return Some((s, w, c));
                }
                c = c + 1;
            }
            w = w + 1;
        }
        s = s + 1;
    }
    proof {
        if exists|s: int, w: int, c: int| first_pos(rt, win, s, w, c) {
            let (s2, w2, c2) = choose|s: int, w: int, c: int| first_pos(rt, win, s, w, c);
            assert(holds(rt, s2, w2, c2, win));
        }
    }
    None
}


// ---------------------------------------------------------------------------
// Trackers
// ---------------------------------------------------------------------------

/// The window of the client the global tracker points at, looked up without
/// failing: `None` when any index is out of range.
pub open spec fn current_client_id(rt: RuntimeV) -> Option<u64> {
    match rt.current_client {
        Some(i) => if rt.current_screen < rt.screens.len()
            && rt.current_workspace < rt.screens[rt.current_screen as int].workspaces.len()
            && i < rt.cur_ws().clients.len() {
            Some(rt.cur_ws().clients[i as int].window_id)
        } else {
            None
        },
        None => None,
    }
}

/// Window id of the client the global tracker points at, if it exists.
pub fn get_current_client_id(app: &Application) -> (r: Option<u64>)
    ensures
        r == current_client_id(app@.runtime),
{
    let client_index = match app.runtime.current_client {
        Some(index) => index,
        None => return None,
    };
    if app.runtime.current_screen >= app.runtime.screens.len() {
        return None;
    }
    let screen = &app.runtime.screens[app.runtime.current_screen];
    if app.runtime.current_workspace >= screen.workspaces.len() {
        return None;
    }
    let workspace = &screen.workspaces[app.runtime.current_workspace];
    if client_index >= workspace.clients.len() {
        return None;
    }
    Some(workspace.clients[client_index].window_id)
}

/// All trackers moved to client `(s, w, c)`.
pub open spec fn tracked_at(rt: RuntimeV, s: int, w: int, c: int) -> RuntimeV {
    let rt2 = rt.with_ws(s, w, WorkspaceV { current_client: Some(c as usize), ..rt.ws(s, w) });
    RuntimeV {
        current_screen: s as usize,
        current_workspace: w as usize,
        current_client: Some(c as usize),
        ..rt2.with_screen(s, ScreenV { current_workspace: w as usize, ..rt2.screens[s] })
    }
}

/// State after `update_trackers`: trackers on the window if it is managed.
pub open spec fn trackers_updated(a: AppV, win: u64) -> AppV {
    match window_pos(a.runtime, win) {
        Some((s, w, c)) => AppV { runtime: tracked_at(a.runtime, s as int, w as int, c as int), ..a },
        None => a,
    }
}

/// Moving the trackers to an existing client keeps the invariant and makes
/// the global tracker valid.
pub proof fn lemma_tracked_at_wf(rt: RuntimeV, s: int, w: int, c: int)
    requires
        rt.wf(),
        rt.valid_pos(s, w, c),
    ensures
        tracked_at(rt, s, w, c).wf(),
        tracked_at(rt, s, w, c).current_client_ok(),
        tracked_at(rt, s, w, c).client_count() == rt.client_count(),
{
    let r = tracked_at(rt, s, w, c);
    let ws2 = WorkspaceV { current_client: Some(c as usize), ..rt.ws(s, w) };
    let rt2 = rt.with_ws(s, w, ws2);
    lemma_count_with_ws(rt, s, w, ws2);
    lemma_screens_count_update(rt2.screens, s, ScreenV { current_workspace: w as usize, ..rt2.screens[s] });
    assert(rt2.screens[s].workspaces == ScreenV { current_workspace: w as usize, ..rt2.screens[s] }.workspaces);
    assert(screen_wf(rt.screens[s], s));
    assert(r.screens[s].workspaces[w].clients == rt.screens[s].workspaces[w].clients);
    assert(workspace_wf(rt.ws(s, w)));
    lemma_screen_with_ws(rt.screens[s], s, w, ws2);
    assert(r.screens[s] == ScreenV { current_workspace: w as usize, ..ScreenV { workspaces: rt.screens[s].workspaces.update(w, ws2), ..rt.screens[s] } });
    assert forall|s2: int| 0 <= s2 < r.screens.len() implies #[trigger] screen_wf(r.screens[s2], s2) by {
        assert(screen_wf(rt.screens[s2], s2));
    }
    assert forall|s2: int| 0 <= s2 < r.screens.len() implies #[trigger] screen_shape_wf(r.screens[s2], s2) by {
        assert(screen_wf(r.screens[s2], s2));
    }
}

/// Point all trackers at the window, if it is managed.
pub fn update_trackers(app: &mut Application, win: u64)
    ensures
        final(app)@ == trackers_updated(old(app)@, win),
{
    if let Some((s, w, c)) = find_window_indexes(app, win) {
        let ghost old_app = app@;
        app.runtime.current_screen = s;
        app.runtime.current_workspace = w;
        app.runtime.screens[s].current_workspace = w;
        app.runtime.current_client = Some(c);
        app.runtime.screens[s].workspaces[w].current_client = Some(c);
        proof {
            let r = tracked_at(old_app.runtime, s as int, w as int, c as int);
            assert(app@.runtime.screens[s as int].workspaces =~= r.screens[s as int].workspaces);
            assert(app@.runtime.screens =~= r.screens);
            assert(app@ =~= trackers_updated(old_app, win));
        }
    }
}


// ---------------------------------------------------------------------------
// Simple requests
// ---------------------------------------------------------------------------

/// Set the EWMH desktop of a window.
pub fn update_client_desktop(app: &Application, win: u64, desk: u64, reqs: &mut Vec<Request>)
    ensures
        final(reqs)@ == old(reqs)@.push(
            Request::SetProperty { win, property: app@.atoms.net_wm_desktop, kind: PropertyKind::Cardinal, value: desk },
        ),
{
    reqs.push(Request::SetProperty { win, property: app.atoms.net_wm_desktop, kind: PropertyKind::Cardinal, value: desk });
}

/// The current screen and workspace exist.
pub open spec fn current_ok(rt: RuntimeV) -> bool {
    rt.current_screen < rt.screens.len() && rt.current_workspace < rt.screens[rt.current_screen as int].workspaces.len()
}

/// Requests of `update_active_window`: publish the focused client as the
/// active window; with no client focused and an empty workspace, focus the
/// root window and delete the property.
pub open spec fn active_window_reqs(a: AppV) -> Seq<Request> {
    let rt = a.runtime;
    let root = a.core.root_win;
    match rt.current_client {
        Some(i) => seq![Request::SetProperty {
            win: root,
            property: a.atoms.net_active_window,
            kind: PropertyKind::Window,
            value: rt.cur_ws().clients[i as int].window_id,
        }],
        None => if rt.cur_ws().clients.len() == 0 {
            seq![Request::Focus { win: root }, Request::DeleteProperty { win: root, property: a.atoms.net_active_window }]
        } else {
            Seq::empty()
        },
    }
}

/// Publish the active window.
pub fn update_active_window(app: &Application, reqs: &mut Vec<Request>)
    requires
        current_ok(app@.runtime),
        app@.runtime.current_client_ok(),
    ensures
        final(reqs)@ == old(reqs)@ + active_window_reqs(app@),
{
    let rt = &app.runtime;
    let ws = &rt.screens[rt.current_screen].workspaces[rt.current_workspace];
    if let Some(index) = rt.current_client {
        let win = ws.clients[index].window_id;
        reqs.push(Request::SetProperty {
            win: app.core.root_win,
            property: app.atoms.net_active_window,
            kind: PropertyKind::Window,
            value: win,
        });
        assert(active_window_reqs(app@) =~= seq![Request::SetProperty {
            win: app@.core.root_win, property: app@.atoms.net_active_window, kind: PropertyKind::Window, value: win }]);
    } else {
        if ws.clients.len() == 0 {
            reqs.push(Request::Focus { win: app.core.root_win });
            reqs.push(Request::DeleteProperty { win: app.core.root_win, property: app.atoms.net_active_window });
        }
    }
}

/// Windows of a sequence of clients, in order.
pub open spec fn clients_windows(cs: Seq<Client>) -> Seq<u64> {
    cs.map_values(|c: Client| c.window_id)
}

/// Windows of a sequence of workspaces, workspace after workspace.
pub open spec fn ws_windows(wss: Seq<WorkspaceV>) -> Seq<u64>
    decreases wss.len(),
{
    if wss.len() == 0 {
        Seq::empty()
    } else {
        ws_windows(wss.drop_last()) + clients_windows(wss.last().clients)
    }
}

/// Windows of all clients, screen after screen.
pub open spec fn all_windows(scs: Seq<ScreenV>) -> Seq<u64>
    decreases scs.len(),
{
    if scs.len() == 0 {
        Seq::empty()
    } else {
        all_windows(scs.drop_last()) + ws_windows(scs.last().workspaces)
    }
}

/// Requests that append windows to the client list.
pub open spec fn append_list_reqs(a: AppV, wins: Seq<u64>) -> Seq<Request> {
    wins.map_values(|w: u64| Request::AppendProperty {
        win: a.core.root_win,
        property: a.atoms.net_client_list,
        kind: PropertyKind::Window,
        value: w,
    })
}

/// Requests of `update_client_list`: delete the EWMH client list, then append
/// every managed window in screen, workspace, client order.
pub open spec fn client_list_reqs(a: AppV) -> Seq<Request> {
    seq![Request::DeleteProperty { win: a.core.root_win, property: a.atoms.net_client_list }]
        + append_list_reqs(a, all_windows(a.runtime.screens))
}

/// Rebuild the EWMH client list.
pub fn update_client_list(app: &Application, reqs: &mut Vec<Request>)
    ensures
        final(reqs)@ == old(reqs)@ + client_list_reqs(app@),
{
    let ghost a = app@;
    let ghost start = reqs@;
    reqs.push(Request::DeleteProperty { win: app.core.root_win, property: app.atoms.net_client_list });
    let mut s: usize = 0;
    while s < app.runtime.screens.len()
        invariant
            a == app@,
            s <= a.runtime.screens.len(),
            reqs@ == start + seq![Request::DeleteProperty { win: a.core.root_win, property: a.atoms.net_client_list }]
                + append_list_reqs(a, all_windows(a.runtime.screens.take(s as int))),
        decreases a.runtime.screens.len() - s,
    {
        let screen = &app.runtime.screens[s];
        let ghost before_s = reqs@;
        let mut w: usize = 0;
        while w < screen.workspaces.len()
            invariant
                a == app@,
                s < a.runtime.screens.len(),
                screen@ == a.runtime.screens[s as int],
                w <= screen.workspaces@.len(),
                reqs@ == before_s + append_list_reqs(a, ws_windows(a.runtime.screens[s as int].workspaces.take(w as int))),
            decreases screen.workspaces@.len() - w,
        {
            let workspace = &screen.workspaces[w];
            let ghost before_w = reqs@;
            let mut c: usize = 0;
            while c < workspace.clients.len()
                invariant
                    a == app@,
                    workspace@ == a.runtime.screens[s as int].workspaces[w as int],
                    c <= workspace.clients@.len(),
                    reqs@ == before_w + append_list_reqs(a, clients_windows(workspace.clients@.take(c as int))),
                decreases workspace.clients@.len() - c,
            {
                reqs.push(Request::AppendProperty {
                    win: app.core.root_win,
                    property: app.atoms.net_client_list,
                    kind: PropertyKind::Window,
                    value: workspace.clients[c].window_id,
                });
                assert(clients_windows(workspace.clients@.take(c + 1)) =~= clients_windows(workspace.clients@.take(c as int)).push(workspace.clients@[c as int].window_id));
                assert(append_list_reqs(a, clients_windows(workspace.clients@.take(c + 1))) =~= append_list_reqs(a, clients_windows(workspace.clients@.take(c as int))).push(reqs@.last()));
                c = c + 1;
            }
            proof {
                let wss = a.runtime.screens[s as int].workspaces;
                assert(wss.take(w + 1).drop_last() =~= wss.take(w as int));
                assert(workspace.clients@.take(workspace.clients@.len() as int) =~= workspace.clients@);
                assert(append_list_reqs(a, ws_windows(wss.take(w + 1))) =~= append_list_reqs(a, ws_windows(wss.take(w as int))) + append_list_reqs(a, clients_windows(workspace.clients@)));
            }
            w = w + 1;
        }
        proof {
            let scs = a.runtime.screens;
            assert(scs.take(s + 1).drop_last() =~= scs.take(s as int));
            assert(screen.workspaces@.map_values(|w: crate::structs::Workspace| w@).take(screen.workspaces@.len() as int) =~= a.runtime.screens[s as int].workspaces);
            assert(append_list_reqs(a, all_windows(scs.take(s + 1))) =~= append_list_reqs(a, all_windows(scs.take(s as int))) + append_list_reqs(a, ws_windows(scs[s as int].workspaces)));
        }
        s = s + 1;
    }
    assert(a.runtime.screens.take(a.runtime.screens.len() as int) =~= a.runtime.screens);
}


// ---------------------------------------------------------------------------
// Closing clients
// ---------------------------------------------------------------------------

/// Whether a window that lists `protocols` (`None` when they could not be
/// read) speaks protocol `e`.
pub open spec fn lists_protocol(protocols: Option<Vec<u64>>, e: u64) -> bool {
    match protocols {
        Some(ps) => ps@.contains(e),
        None => false,
    }
}

/// Whether window protocols `protocols` hold `e`.
pub fn speaks_protocol(protocols: &Option<Vec<u64>>, e: u64) -> (r: bool)
    ensures
        r == lists_protocol(*protocols, e),
{
    let ps = match protocols {
        Some(ps) => ps,
        None => return false,
    };
    let mut i: usize = 0;
    while i < ps.len()
        invariant
            *protocols == Some(*ps),
            i <= ps@.len(),
            forall|j: int| 0 <= j < i ==> ps@[j] != e,
        decreases ps@.len() - i,
    {
        if ps[i] == e {
            assert(ps@[i as int] == e);
            return true;
        }
        i = i + 1;
    }
    false
}

/// Whether the client message for protocol `e` reached a window that lists
/// `protocols`: the message is sent only when the window lists `e`, and it
/// reached the window when the send reported success (`sent`, the status
/// the send returned).
pub open spec fn atom_sent(protocols: Option<Vec<u64>>, e: u64, sent: bool) -> bool {
    lists_protocol(protocols, e) && sent
}

/// Whether the client message for protocol `e` was delivered: `false` when
/// the window does not list `e` (nothing is sent then), else the status of
/// the send.
pub fn send_atom(protocols: &Option<Vec<u64>>, e: u64, sent: bool) -> (r: bool)
    ensures
        r == atom_sent(*protocols, e, sent),
{
    speaks_protocol(protocols, e) && sent
}

/// Requests that close window `win`, given the protocols it lists: the
/// `WM_DELETE_WINDOW` message when it speaks that protocol, else a forced kill.
pub open spec fn close_reqs(a: AppV, win: u64, protocols: Option<Vec<u64>>) -> Seq<Request> {
    if lists_protocol(protocols, a.atoms.wm_delete) {
        seq![Request::SendDelete { win, message_type: a.atoms.wm_protocols, protocol: a.atoms.wm_delete }]
    } else {
        force_kill_reqs(win)
    }
}

/// Close a window, given the protocols it lists (`None` when they could
/// not be read): ask politely when it speaks `WM_DELETE_WINDOW`, else kill
/// it (see `close_reqs`).
pub fn close_window(app: &Application, win: u64, protocols: Option<Vec<u64>>, reqs: &mut Vec<Request>)
    ensures
        final(reqs)@ == old(reqs)@ + close_reqs(app@, win, protocols),
{
    if speaks_protocol(&protocols, app.atoms.wm_delete) {
        reqs.push(Request::SendDelete { win, message_type: app.atoms.wm_protocols, protocol: app.atoms.wm_delete });
        assert(reqs@ =~= old(reqs)@ + close_reqs(app@, win, protocols));
    } else {
        force_kill(win, reqs);
    }
}

/// Requests that follow the `WM_DELETE_WINDOW` message sent to `win`:
/// none when it was delivered, else a forced kill.
pub open spec fn after_delete_reqs(a: AppV, win: u64, protocols: Option<Vec<u64>>, sent: bool) -> Seq<Request> {
    if atom_sent(protocols, a.atoms.wm_delete, sent) {
        seq![]
    } else {
        force_kill_reqs(win)
    }
}

/// Finish closing `win` once the `WM_DELETE_WINDOW` message was sent, given
/// the protocols the window lists and the status the send returned: kill
/// the client when the message was not delivered.
pub fn delete_sent(app: &Application, win: u64, protocols: Option<Vec<u64>>, sent: bool, reqs: &mut Vec<Request>)
    ensures
        final(reqs)@ == old(reqs)@ + after_delete_reqs(app@, win, protocols, sent),
{
    if !send_atom(&protocols, app.atoms.wm_delete, sent) {
        force_kill(win, reqs);
    } else {
        assert(reqs@ =~= old(reqs)@ + after_delete_reqs(app@, win, protocols, sent));
    }
}

/// Requests that forcefully kill the client owning `win`.
pub open spec fn force_kill_reqs(win: u64) -> Seq<Request> {
    seq![Request::GrabServer, Request::DestroyAllOnClose, Request::KillClient { win }, Request::UngrabServer]
}

/// Close a client that did not take the polite `WM_DELETE_WINDOW` request:
/// grab the server, make the server destroy its resources, kill it, ungrab.
pub fn force_kill(win: u64, reqs: &mut Vec<Request>)
    ensures
        final(reqs)@ == old(reqs)@ + force_kill_reqs(win),
{
    reqs.push(Request::GrabServer);
    reqs.push(Request::DestroyAllOnClose);
    reqs.push(Request::KillClient { win });
    reqs.push(Request::UngrabServer);
}

// ---------------------------------------------------------------------------
// Size hints
// ---------------------------------------------------------------------------

/// ICCCM flag: the program gave a minimum size.
pub const P_MIN_SIZE: i64 = 16;

/// ICCCM flag: the program gave a maximum size.
pub const P_MAX_SIZE: i64 = 32;

/// The parts of `WM_NORMAL_HINTS` the window manager reads.
#[derive(Clone, Copy, Debug)]
pub struct SizeHints {
    pub flags: i64,
    pub min_width: i32,
    pub min_height: i32,
    pub max_width: i32,
    pub max_height: i32,
}

/// A client after its size hints are applied.
pub open spec fn hinted(c: Client, hints: Option<SizeHints>) -> Client {
    let (maxw, maxh) = match hints {
        Some(sh) => if sh.flags & P_MAX_SIZE != 0 { (sh.max_width, sh.max_height) } else { (c.maxw, c.maxh) },
        None => (c.maxw, c.maxh),
    };
    let (minw, minh) = match hints {
        Some(sh) => if sh.flags & P_MIN_SIZE != 0 { (sh.min_width, sh.min_height) } else { (c.minw, c.minh) },
        None => (c.minw, c.minh),
    };
    let w = if minw != 0 && c.w < minw as u32 { minw as u32 } else { c.w };
    let h = if minh != 0 && c.h < minh as u32 { minh as u32 } else { c.h };
    let fixed = if maxw != 0 && maxh != 0 && maxw == minw && maxh == minh { true } else { c.fixed };
    Client { maxw, maxh, minw, minh, w, h, fixed, ..c }
}

/// Apply the size hints read from the window (`None` when there are none):
/// take the maximum and minimum sizes that are flagged, grow the client to
/// its minimum size, and mark it fixed when maximum and minimum agree.
pub fn update_normal_hints(c: &mut Client, hints: Option<SizeHints>)
    ensures
        *final(c) == hinted(*old(c), hints),
{
    if let Some(sh) = hints {
        if (sh.flags & P_MAX_SIZE) != 0 {
            c.maxw = sh.max_width;
            c.maxh = sh.max_height;
        }
        if (sh.flags & P_MIN_SIZE) != 0 {
            c.minw = sh.min_width;
            c.minh = sh.min_height;
        }
    }
    if c.minw != 0 && c.w < c.minw as u32 {
        c.w = c.minw as u32;
    }
    if c.minh != 0 && c.h < c.minh as u32 {
        c.h = c.minh as u32;
    }
    if c.maxw != 0 && c.maxh != 0 && c.maxw == c.minw && c.maxh == c.minh {
        c.fixed = true;
    }
}

// ---------------------------------------------------------------------------
// Properties read from windows
// ---------------------------------------------------------------------------

/// The process id stored in the first two bytes of `_NET_WM_PID`, low byte
/// first, as the window manager reads it.
pub fn pid_from_bytes(low: u8, high: u8) -> (pid: i32)
    ensures
        pid == low as int + high as int * 256,
{
    low as i32 + high as i32 * 256
}

/// Screen and workspace named by an EWMH desktop number
/// (`screen * 10 + workspace`), if they exist.
pub open spec fn desktop_place(rt: RuntimeV, d: u64) -> Option<(usize, usize)> {
    let s = (d as usize) / 10;
    let w = (d as usize) % 10;
    if s < rt.screens.len() && w < rt.screens[s as int].workspaces.len() {
        Some((s, w))
    } else {
        None
    }
}

/// Where the window asked to be from its `_NET_WM_DESKTOP` value (`None` when
/// the window has none): the screen and workspace the number names, if they
/// exist.
pub fn get_client_workspace(app: &Application, desktop: Option<u64>) -> (r: Option<(usize, usize)>)
    ensures
        r == (match desktop {
            Some(d) => desktop_place(app@.runtime, d),
            None => None,
        }),
{
    match desktop {
        Some(d) => {
            let s = d as usize / 10;
            let w = d as usize % 10;
            if s < app.runtime.screens.len() && w < app.runtime.screens[s].workspaces.len() {
                Some((s, w))
            } else {
                None
            }
        },
        None => None,
    }
}

// ---------------------------------------------------------------------------
// Desktop properties and synthetic events
// ---------------------------------------------------------------------------

/// Publish the EWMH desktop count, names and viewports. A name holding a NUL
/// byte cannot be published and is refused.
pub fn update_desktop_ewmh_info(app: &Application, names: Vec<String>, viewports: Vec<i64>, reqs: &mut Vec<Request>)
    requires
        crate::utils::no_nul(names@),
    ensures
        final(reqs)@.len() == old(reqs)@.len() + 3,
        final(reqs)@.take(old(reqs)@.len() as int) == old(reqs)@,
        final(reqs)@[old(reqs)@.len() as int] == (Request::SetProperty {
            win: app@.core.root_win,
            property: app@.atoms.net_number_of_desktops,
            kind: PropertyKind::Cardinal,
            value: names@.len() as u64,
        }),
        final(reqs)@[old(reqs)@.len() + 1int] matches Request::SetText { win, property, encoding, bytes }
            && win == app@.core.root_win && property == app@.atoms.net_desktop_names
            && encoding == app@.atoms.utf8string && bytes@ == crate::utils::nul_terminated(names@),
        final(reqs)@[old(reqs)@.len() + 2int] matches Request::SetSignedList { win, property, values }
            && win == app@.core.root_win && property == app@.atoms.net_desktop_viewport && values@ == viewports@,
{
    let ghost start = reqs@;
    reqs.push(Request::SetProperty {
        win: app.core.root_win,
        property: app.atoms.net_number_of_desktops,
        kind: PropertyKind::Cardinal,
        value: names.len() as u64,
    });
    let bytes = crate::utils::vec_string_to_bytes(names);
    reqs.push(Request::SetText { win: app.core.root_win, property: app.atoms.net_desktop_names, encoding: app.atoms.utf8string, bytes });
    reqs.push(Request::SetSignedList { win: app.core.root_win, property: app.atoms.net_desktop_viewport, values: viewports });
    assert(reqs@.take(start.len() as int) =~= start);
}

/// Tell a client its current geometry with a synthetic `ConfigureNotify`.
pub fn configure(client: &Client, reqs: &mut Vec<Request>)
    ensures
        final(reqs)@ == old(reqs)@.push(Request::SendConfigureNotify {
            win: client.window_id,
            x: client.x,
            y: client.y,
            width: client.w as i32,
            height: client.h as i32,
            border_width: client.border as i32,
        }),
{
    reqs.push(Request::SendConfigureNotify {
        win: client.window_id,
        x: client.x,
        y: client.y,
        width: client.w as i32,
        height: client.h as i32,
        border_width: client.border as i32,
    });
}


// ---------------------------------------------------------------------------
// Showing, hiding and tiling workspaces
// ---------------------------------------------------------------------------

/// Requests that show one client on screen `sc`: a fullscreen client covers
/// the screen without border and is raised; any other client gets its border
/// and its geometry (relative to the screen), and is raised when floating.
pub open spec fn show_client_reqs(cl: Client, sc: ScreenV) -> Seq<Request> {
    let win = cl.window_id;
    if cl.fullscreen {
        seq![
            Request::MoveResize { win, x: sc.x as i32, y: sc.y as i32, width: sc.width as u32, height: sc.height as u32 },
            Request::SetBorderWidth { win, width: 0 },
            Request::Raise { win },
        ]
    } else {
        seq![
            Request::SetBorderWidth { win, width: cl.border },
            Request::MoveResize {
                win,
                x: i32_specs::wrapping_add(cl.x, sc.x as i32),
                y: i32_specs::wrapping_add(cl.y, sc.y as i32),
                width: cl.w,
                height: cl.h,
            },
        ] + if cl.floating {
            seq![Request::Raise { win }]
        } else {
            Seq::empty()
        }
    }
}

/// Requests that show a sequence of clients, in order.
pub open spec fn show_reqs(cs: Seq<Client>, sc: ScreenV) -> Seq<Request>
    decreases cs.len(),
{
    if cs.len() == 0 {
        Seq::empty()
    } else {
        show_reqs(cs.drop_last(), sc) + show_client_reqs(cs.last(), sc)
    }
}

/// A client marked visible.
pub open spec fn shown(cl: Client) -> Client {
    Client { visible: true, ..cl }
}

/// A client marked hidden.
pub open spec fn hidden(cl: Client) -> Client {
    Client { visible: false, ..cl }
}

/// The clients with the first `n` changed by `f`.
pub open spec fn map_prefix(cs: Seq<Client>, n: int, f: spec_fn(Client) -> Client) -> Seq<Client> {
    Seq::new(cs.len(), |i: int| if i < n { f(cs[i]) } else { cs[i] })
}

/// The state with every client of workspace `(s, w)` changed by `f`.
pub open spec fn map_ws_clients(a: AppV, s: int, w: int, f: spec_fn(Client) -> Client) -> AppV {
    AppV {
        runtime: a.runtime.with_ws(s, w, WorkspaceV { clients: a.runtime.ws(s, w).clients.map_values(f), ..a.runtime.ws(s, w) }),
        ..a
    }
}

/// Show every window of workspace `w` of screen `s` at its place and mark
/// the clients visible.
pub fn show_workspace(app: &mut Application, screen: usize, workspace: usize, reqs: &mut Vec<Request>)
    requires
        old(app)@.runtime.valid_ws(screen as int, workspace as int),
    ensures
        final(app)@ == map_ws_clients(old(app)@, screen as int, workspace as int, |c: Client| shown(c)),
        final(reqs)@ == old(reqs)@ + show_reqs(old(app)@.runtime.ws(screen as int, workspace as int).clients, old(app)@.runtime.screens[screen as int]),
{
    let ghost a = app@;
    let ghost cs = a.runtime.ws(screen as int, workspace as int).clients;
    let ghost sc = a.runtime.screens[screen as int];
    let ghost start = reqs@;
    let sx = app.runtime.screens[screen].x as i32;
    let sy = app.runtime.screens[screen].y as i32;
    let sw = app.runtime.screens[screen].width as u32;
    let sh = app.runtime.screens[screen].height as u32;
    let n = app.runtime.screens[screen].workspaces[workspace].clients.len();
    let mut c: usize = 0;
    proof {
        lemma_runtime_view(&app.runtime, screen as int, workspace as int);
        assert(map_prefix(cs, 0, |c: Client| shown(c)) =~= cs);
        assert(a.runtime.screens[screen as int].workspaces.update(workspace as int, a.runtime.ws(screen as int, workspace as int))
            =~= a.runtime.screens[screen as int].workspaces);
        assert(a.runtime.screens.update(screen as int, a.runtime.screens[screen as int]) =~= a.runtime.screens);
    }
    while c < n
        invariant
            a.runtime.valid_ws(screen as int, workspace as int),
            n == cs.len(),
            c <= n,
            sc == a.runtime.screens[screen as int],
            cs == a.runtime.ws(screen as int, workspace as int).clients,
            sx == sc.x as i32,
            sy == sc.y as i32,
            sw == sc.width as u32,
            sh == sc.height as u32,
            app@ == (AppV {
                runtime: a.runtime.with_ws(screen as int, workspace as int, WorkspaceV {
                    clients: map_prefix(cs, c as int, |c: Client| shown(c)),
                    ..a.runtime.ws(screen as int, workspace as int)
                }),
                ..a
            }),
            reqs@ == start + show_reqs(cs.take(c as int), sc),
        decreases n - c,
    {
        let ghost before = app@;
        let ghost before_rt = app.runtime;
        proof {
            lemma_runtime_view(&app.runtime, screen as int, workspace as int);
        }
        let client = &app.runtime.screens[screen].workspaces[workspace].clients[c];
        let win = client.window_id;
        assert(client == cs[c as int]);
        if client.fullscreen {
            reqs.push(Request::MoveResize { win, x: sx, y: sy, width: sw, height: sh });
            reqs.push(Request::SetBorderWidth { win, width: 0 });
            reqs.push(Request::Raise { win });
        } else {
            reqs.push(Request::SetBorderWidth { win, width: client.border });
            reqs.push(Request::MoveResize {
                win,
                x: client.x.wrapping_add(sx),
                y: client.y.wrapping_add(sy),
                width: client.w,
                height: client.h,
            });
            if client.floating {
                reqs.push(Request::Raise { win });
            }
        }
        app.runtime.screens[screen].workspaces[workspace].clients[c].visible = true;
        proof {
            assert(cs.take(c + 1).drop_last() =~= cs.take(c as int));
            assert(reqs@ =~= start + show_reqs(cs.take(c + 1), sc));
            let target = AppV {
                runtime: a.runtime.with_ws(screen as int, workspace as int, WorkspaceV {
                    clients: map_prefix(cs, c + 1, |c: Client| shown(c)),
                    ..a.runtime.ws(screen as int, workspace as int)
                }),
                ..a
            };
            lemma_client_changed(before_rt, app.runtime, screen as int, workspace as int, c as int);
            assert(app@.runtime.ws(screen as int, workspace as int).clients =~= target.runtime.ws(screen as int, workspace as int).clients);
            assert(app@ =~~= target);
        }
        c = c + 1;
    }
    proof {
        assert(cs.take(n as int) =~= cs);
        let target = map_ws_clients(a, screen as int, workspace as int, |c: Client| shown(c));
        assert(map_prefix(cs, n as int, |c: Client| shown(c)) =~= cs.map_values(|c: Client| shown(c)));
        assert(app@.runtime.screens[screen as int].workspaces =~= target.runtime.screens[screen as int].workspaces);
        assert(app@.runtime.screens =~= target.runtime.screens);
        assert(app@ =~= target);
    }
}


/// The request that moves a client out of view: left of and above the
/// origin by its size plus the decoration offset.
pub open spec fn hide_client_req(cl: Client, off: i32) -> Request {
    Request::MoveResize {
        win: cl.window_id,
        x: i32_specs::wrapping_sub(0, i32_specs::wrapping_add(cl.w as i32, off)),
        y: i32_specs::wrapping_sub(0, i32_specs::wrapping_add(cl.h as i32, off)),
        width: cl.w,
        height: cl.h,
    }
}

/// Offset that also moves the gap and the border out of view.
pub open spec fn decoration_offset(c: crate::structs::Configuration) -> i32 {
    (c.gap_width + c.border_size) as i32
}

/// Move every window of workspace `w` of screen `s` out of view and mark
/// the clients hidden.
pub fn hide_workspace(app: &mut Application, screen: usize, workspace: usize, reqs: &mut Vec<Request>)
    requires
        old(app)@.runtime.valid_ws(screen as int, workspace as int),
        config_wf(old(app)@.config),
    ensures
        final(app)@ == map_ws_clients(old(app)@, screen as int, workspace as int, |c: Client| hidden(c)),
        final(reqs)@ == old(reqs)@ + old(app)@.runtime.ws(screen as int, workspace as int).clients.map_values(
            |c: Client| hide_client_req(c, decoration_offset(old(app)@.config)),
        ),
{
    let ghost a = app@;
    let ghost cs = a.runtime.ws(screen as int, workspace as int).clients;
    let ghost start = reqs@;
    let off = (app.config.gap_width + app.config.border_size) as i32;
    let n = app.runtime.screens[screen].workspaces[workspace].clients.len();
    let mut c: usize = 0;
    proof {
        lemma_runtime_view(&app.runtime, screen as int, workspace as int);
        assert(map_prefix(cs, 0, |c: Client| hidden(c)) =~= cs);
        assert(a.runtime.screens[screen as int].workspaces.update(workspace as int, a.runtime.ws(screen as int, workspace as int))
            =~= a.runtime.screens[screen as int].workspaces);
        assert(a.runtime.screens.update(screen as int, a.runtime.screens[screen as int]) =~= a.runtime.screens);
    }
    while c < n
        invariant
            a.runtime.valid_ws(screen as int, workspace as int),
            n == cs.len(),
            c <= n,
            cs == a.runtime.ws(screen as int, workspace as int).clients,
            off == decoration_offset(a.config),
            app@ == (AppV {
                runtime: a.runtime.with_ws(screen as int, workspace as int, WorkspaceV {
                    clients: map_prefix(cs, c as int, |c: Client| hidden(c)),
                    ..a.runtime.ws(screen as int, workspace as int)
                }),
                ..a
            }),
            reqs@ == start + cs.take(c as int).map_values(|c: Client| hide_client_req(c, off)),
        decreases n - c,
    {
        let ghost before_rt = app.runtime;
        proof {
            lemma_runtime_view(&app.runtime, screen as int, workspace as int);
        }
        let client = &app.runtime.screens[screen].workspaces[workspace].clients[c];
        assert(client == cs[c as int]);
        let w = client.w;
        let h = client.h;
        reqs.push(Request::MoveResize {
            win: client.window_id,
            x: 0i32.wrapping_sub((w as i32).wrapping_add(off)),
            y: 0i32.wrapping_sub((h as i32).wrapping_add(off)),
            width: w,
            height: h,
        });
        app.runtime.screens[screen].workspaces[workspace].clients[c].visible = false;
        proof {
            assert(cs.take(c + 1).map_values(|c: Client| hide_client_req(c, off)) =~= cs.take(c as int).map_values(
                |c: Client| hide_client_req(c, off),
            ).push(hide_client_req(cs[c as int], off)));
            let target = AppV {
                runtime: a.runtime.with_ws(screen as int, workspace as int, WorkspaceV {
                    clients: map_prefix(cs, c + 1, |c: Client| hidden(c)),
                    ..a.runtime.ws(screen as int, workspace as int)
                }),
                ..a
            };
            lemma_client_changed(before_rt, app.runtime, screen as int, workspace as int, c as int);
            assert(app@.runtime.ws(screen as int, workspace as int).clients =~= target.runtime.ws(screen as int, workspace as int).clients);
            assert(app@ =~~= target);
        }
        c = c + 1;
    }
    proof {
        assert(cs.take(n as int) =~= cs);
        let target = map_ws_clients(a, screen as int, workspace as int, |c: Client| hidden(c));
        assert(map_prefix(cs, n as int, |c: Client| hidden(c)) =~= cs.map_values(|c: Client| hidden(c)));
        assert(app@.runtime.screens[screen as int].workspaces =~= target.runtime.screens[screen as int].workspaces);
        assert(app@.runtime.screens =~= target.runtime.screens);
        assert(app@ =~= target);
    }
}

/// Rust's division of `a` by a positive `b`, rounding toward zero.
pub open spec fn trunc_div(a: i64, b: i64) -> i64 {
    if a >= 0 {
        (a as int / b as int) as i64
    } else {
        (-((-(a as int)) / b as int)) as i64
    }
}

/// Divide rounding toward zero.
pub fn div_trunc(a: i64, b: i64) -> (r: i64)
    requires
        b > 0,
    ensures
        r == trunc_div(a, b),
{
    proof {
        if a >= 0 {
            assert(0 <= a as int / b as int <= a) by (nonlinear_arith)
                requires
                    a >= 0,
                    b > 0,
            ;
        } else {
            assert(0 <= (-(a as int)) / b as int <= -(a as int)) by (nonlinear_arith)
                requires
                    a < 0,
                    b > 0,
            ;
        }
    }
    match a.checked_div(b) {
        Some(v) => v,
        None => 0,
    }
}

/// A client that the layout places: neither floating nor fullscreen.
pub open spec fn tiled(cl: Client) -> bool {
    !cl.floating && !cl.fullscreen
}

/// Number of tiled clients.
pub open spec fn count_tiled(cs: Seq<Client>) -> int
    decreases cs.len(),
{
    if cs.len() == 0 {
        0
    } else {
        (if tiled(cs[0]) { 1int } else { 0int }) + count_tiled(cs.skip(1))
    }
}

/// Number of clients that are not floating (fullscreen ones included).
pub open spec fn count_non_floating(cs: Seq<Client>) -> int
    decreases cs.len(),
{
    if cs.len() == 0 {
        0
    } else {
        (if !cs[0].floating { 1int } else { 0int }) + count_non_floating(cs.skip(1))
    }
}

/// Quantities the tiling layout of a workspace uses.
#[derive(Clone, Copy, Debug)]
pub struct Tiling {
    /// Screen height minus the docks at top and bottom.
    pub usable_height: i64,
    /// Height of the dock at the top.
    pub top: i32,
    pub gap: i32,
    pub border: u32,
    /// Width of the master column.
    pub master_width: u32,
    /// Width of the stack column.
    pub stack_width: i32,
    /// Clients in the master column.
    pub master_capacity: i64,
    /// Clients that are not floating.
    pub stack_size: i64,
    pub screen_width: i64,
}

/// Master width in pixels: the fraction (in thousandths) of the usable
/// width, rounded toward zero, and 0 when there is no usable width.
pub open spec fn master_px(base: i32, mw: i64) -> u32 {
    if base <= 0 {
        0
    } else {
        (base as int * mw as int / 1000) as u32
    }
}

/// The layout quantities of workspace `ws` on screen `sc`: the master column
/// takes its fraction of the width left after three gaps; when the master
/// capacity is not positive or not below the number of non-floating clients,
/// every client goes to the master column, which then spans the screen
/// minus two gaps.
pub open spec fn tiling(sc: ScreenV, ws: WorkspaceV, gap_width: usize, border_size: usize) -> Tiling {
    let gap = gap_width as i32;
    let border = border_size as u32;
    let base = (sc.width as i32 - gap * 3) as i32;
    let mw0 = master_px(base, ws.master_width);
    let ss = count_non_floating(ws.clients) as i64;
    let all_master = ws.master_capacity <= 0 || ws.master_capacity >= ss;
    Tiling {
        usable_height: (sc.height - (sc.bar_offsets.up + sc.bar_offsets.down)) as i64,
        top: sc.bar_offsets.up as i32,
        gap,
        border,
        master_width: if all_master { u32_specs::wrapping_sub(sc.width as u32, (gap as u32 * 2) as u32) } else { mw0 },
        stack_width: (base - mw0 as i32) as i32,
        master_capacity: if all_master { ss } else { ws.master_capacity },
        stack_size: ss,
        screen_width: sc.width,
    }
}

/// Height of each window of a column of `k` windows.
pub open spec fn column_height(t: Tiling, k: i64) -> i64 {
    trunc_div(i64_specs::wrapping_sub((t.usable_height - t.gap as i64) as i64, i64_specs::wrapping_mul(k, t.gap as i64)), k)
}

/// The `idx`-th tiled client counted from the end of the stack, placed: a
/// lone client fills the usable screen without border; the first
/// `master_capacity` go down the master column, the others down the stack
/// column, each with the configured border.
pub open spec fn tile(cl: Client, idx: int, t: Tiling) -> Client {
    if t.stack_size == 1 {
        Client { x: 0, y: t.top, w: t.screen_width as u32, h: t.usable_height as u32, border: 0, ..cl }
    } else if idx < t.master_capacity {
        let wh = column_height(t, t.master_capacity);
        Client {
            x: t.gap,
            y: i32_specs::wrapping_add(
                (t.top + t.gap) as i32,
                i32_specs::wrapping_mul(i32_specs::wrapping_add(wh as i32, t.gap), idx as i32),
            ),
            w: u32_specs::wrapping_sub(t.master_width, (2 * t.border) as u32),
            h: u32_specs::wrapping_sub(wh as u32, (2 * t.border) as u32),
            border: t.border,
            ..cl
        }
    } else {
        let wh = column_height(t, (t.stack_size - t.master_capacity) as i64);
        Client {
            x: i32_specs::wrapping_add(t.master_width as i32, (t.gap * 2) as i32),
            y: i32_specs::wrapping_add(
                (t.top + t.gap) as i32,
                i32_specs::wrapping_mul(i32_specs::wrapping_add(wh as i32, t.gap), (idx - t.master_capacity) as i32),
            ),
            w: u32_specs::wrapping_sub(t.stack_width as u32, (2 * t.border) as u32),
            h: u32_specs::wrapping_sub(wh as u32, (2 * t.border) as u32),
            border: t.border,
            ..cl
        }
    }
}

/// The clients after tiling: each tiled client is placed by its position
/// among the tiled clients counted from the end of the stack; floating and
/// fullscreen clients keep their geometry.
pub open spec fn tiled_clients(cs: Seq<Client>, t: Tiling) -> Seq<Client> {
    Seq::new(cs.len(), |k: int| if tiled(cs[k]) { tile(cs[k], count_tiled(cs.subrange(k + 1, cs.len() as int)), t) } else { cs[k] })
}

/// State after `arrange_workspace`.
pub open spec fn arranged(a: AppV, s: int, w: int) -> AppV {
    let ws = a.runtime.ws(s, w);
    let t = tiling(a.runtime.screens[s], ws, a.config.gap_width, a.config.border_size);
    AppV { runtime: a.runtime.with_ws(s, w, WorkspaceV { clients: tiled_clients(ws.clients, t), ..ws }), ..a }
}

proof fn lemma_count_step(cs: Seq<Client>, k: int)
    requires
        0 <= k < cs.len(),
    ensures
        count_tiled(cs.subrange(k, cs.len() as int)) == (if tiled(cs[k]) { 1int } else { 0int }) + count_tiled(
            cs.subrange(k + 1, cs.len() as int),
        ),
        count_non_floating(cs.subrange(k, cs.len() as int)) == (if !cs[k].floating { 1int } else { 0int })
            + count_non_floating(cs.subrange(k + 1, cs.len() as int)),
{
    assert(cs.subrange(k, cs.len() as int).skip(1) =~= cs.subrange(k + 1, cs.len() as int));
}

pub proof fn lemma_count_bounds(cs: Seq<Client>)
    ensures
        0 <= count_tiled(cs) <= count_non_floating(cs) <= cs.len(),
    decreases cs.len(),
{
    if cs.len() > 0 {
        lemma_count_bounds(cs.skip(1));
    }
}

/// Compute the layout quantities of workspace `(s, w)`.
fn compute_tiling(app: &Application, screen: usize, workspace: usize) -> (t: Tiling)
    requires
        app@.shape_wf(),
        app@.runtime.valid_ws(screen as int, workspace as int),
    ensures
        t == tiling(app@.runtime.screens[screen as int], app@.runtime.ws(screen as int, workspace as int), app@.config.gap_width, app@.config.border_size),
{
    proof {
        lemma_runtime_view(&app.runtime, screen as int, workspace as int);
        assert(screen_shape_wf(app@.runtime.screens[screen as int], screen as int));
        assert(ws_shape_wf(app@.runtime.ws(screen as int, workspace as int)));
    }
    let sc = &app.runtime.screens[screen];
    let ws = &sc.workspaces[workspace];
    let ghost cs = ws.clients@;
    let gap = app.config.gap_width as i32;
    let border = app.config.border_size as u32;
    let base: i32 = sc.width as i32 - gap * 3;
    let mw0: u32 = if base <= 0 {
        0
    } else {
        assert(0 <= base as int * ws.master_width as int <= 0x8000_0000 * 1000) by (nonlinear_arith)
            requires
                0 < base < 0x8000_0000,
                0 <= ws.master_width <= 1000,
        ;
        assert(0 <= base as int * ws.master_width as int / 1000 <= base) by (nonlinear_arith)
            requires
                0 < base < 0x8000_0000,
                0 <= ws.master_width <= 1000,
        ;
        ((base as i64 * ws.master_width) / 1000) as u32
    };
    // Count the non-floating clients, from the end of the stack.
    let n = ws.clients.len();
    let mut k: usize = n;
    let mut ss: usize = 0;
    proof {
        assert(cs.subrange(n as int, n as int).len() == 0);
    }
    while k > 0
        invariant
            k <= n,
            n == cs.len(),
            cs == ws.clients@,
            ss as int == count_non_floating(cs.subrange(k as int, n as int)),
            ss <= n - k,
        decreases k,
    {
        proof {
            lemma_count_step(cs, k - 1);
        }
        if !ws.clients[k - 1].floating {
            ss = ss + 1;
        }
        k = k - 1;
    }
    assert(cs.subrange(0, n as int) =~= cs);
    let ss64 = ss as i64;
    let all_master = ws.master_capacity <= 0 || ws.master_capacity >= ss64;
    Tiling {
        usable_height: sc.height - (sc.bar_offsets.up + sc.bar_offsets.down) as i64,
        top: sc.bar_offsets.up as i32,
        gap,
        border,
        master_width: if all_master { (sc.width as u32).wrapping_sub(gap as u32 * 2) } else { mw0 },
        stack_width: base - mw0 as i32,
        master_capacity: if all_master { ss64 } else { ws.master_capacity },
        stack_size: ss64,
        screen_width: sc.width,
    }
}

/// Place the tiled client found `idx`-th from the end of the stack.
fn tile_client(cl: &mut Client, idx: usize, t: Tiling)
    requires
        t.stack_size == 1 || (1 <= t.master_capacity && (idx >= t.master_capacity ==> t.master_capacity < t.stack_size)),
        t.gap <= 0xFFFF && t.gap >= 0,
        t.border <= 0xFFFF,
        -0x4_0000 <= t.usable_height <= 0x4_0000,
        t.top <= 0xFFFF && t.top >= 0,
        0 <= t.master_capacity <= t.stack_size,
        idx <= t.stack_size,
    ensures
        *final(cl) == tile(*old(cl), idx as int, t),
{
    if t.stack_size == 1 {
        cl.x = 0;
        cl.y = t.top;
        cl.w = t.screen_width as u32;
        cl.h = t.usable_height as u32;
        cl.border = 0;
    } else if (idx as i64) < t.master_capacity {
        let wh = div_trunc((t.usable_height - t.gap as i64).wrapping_sub(t.master_capacity.wrapping_mul(t.gap as i64)), t.master_capacity);
        cl.x = t.gap;
        cl.y = (t.top + t.gap).wrapping_add(((wh as i32).wrapping_add(t.gap)).wrapping_mul(idx as i32));
        cl.w = t.master_width.wrapping_sub(2 * t.border);
        cl.h = (wh as u32).wrapping_sub(2 * t.border);
        cl.border = t.border;
    } else {
        let k = t.stack_size - t.master_capacity;
        let wh = div_trunc((t.usable_height - t.gap as i64).wrapping_sub(k.wrapping_mul(t.gap as i64)), k);
        cl.x = (t.master_width as i32).wrapping_add(t.gap * 2);
        cl.y = (t.top + t.gap).wrapping_add(((wh as i32).wrapping_add(t.gap)).wrapping_mul((idx as i64 - t.master_capacity) as i32));
        cl.w = (t.stack_width as u32).wrapping_sub(2 * t.border);
        cl.h = (wh as u32).wrapping_sub(2 * t.border);
        cl.border = t.border;
    }
}

/// Compute the tiling layout of workspace `w` of screen `s` and store every
/// tiled client's geometry and border (nothing is sent to the server).
pub fn arrange_workspace(app: &mut Application, screen: usize, workspace: usize)
    requires
        old(app)@.shape_wf(),
        old(app)@.runtime.valid_ws(screen as int, workspace as int),
    ensures
        final(app)@ == arranged(old(app)@, screen as int, workspace as int),
{
    let ghost a = app@;
    let ghost cs = a.runtime.ws(screen as int, workspace as int).clients;
    let t = compute_tiling(app, screen, workspace);
    let n = app.runtime.screens[screen].workspaces[workspace].clients.len();
    proof {
        lemma_runtime_view(&app.runtime, screen as int, workspace as int);
        assert(screen_shape_wf(a.runtime.screens[screen as int], screen as int));
        lemma_count_bounds(cs);
        assert(cs.subrange(n as int, n as int).len() == 0);
        assert(a.runtime.screens[screen as int].workspaces.update(workspace as int, a.runtime.ws(screen as int, workspace as int))
            =~= a.runtime.screens[screen as int].workspaces);
        assert(a.runtime.screens.update(screen as int, a.runtime.screens[screen as int]) =~= a.runtime.screens);
        assert(Seq::new(cs.len(), |j: int| if j >= n { if tiled(cs[j]) { tile(cs[j], count_tiled(cs.subrange(j + 1, cs.len() as int)), t) } else { cs[j] } } else { cs[j] }) =~= cs);
    }
    let mut k: usize = n;
    let mut idx: usize = 0;
    while k > 0
        invariant
            a.shape_wf(),
            a.runtime.valid_ws(screen as int, workspace as int),
            cs == a.runtime.ws(screen as int, workspace as int).clients,
            t == tiling(a.runtime.screens[screen as int], a.runtime.ws(screen as int, workspace as int), a.config.gap_width, a.config.border_size),
            n == cs.len(),
            k <= n,
            idx as int == count_tiled(cs.subrange(k as int, n as int)),
            app@ == (AppV {
                runtime: a.runtime.with_ws(screen as int, workspace as int, WorkspaceV {
                    clients: Seq::new(cs.len(), |j: int| if j >= k { if tiled(cs[j]) { tile(cs[j], count_tiled(cs.subrange(j + 1, cs.len() as int)), t) } else { cs[j] } } else { cs[j] }),
                    ..a.runtime.ws(screen as int, workspace as int)
                }),
                ..a
            }),
        decreases k,
    {
        let ghost before_rt = app.runtime;
        proof {
            assert(screen_shape_wf(a.runtime.screens[screen as int], screen as int));
            lemma_runtime_view(&app.runtime, screen as int, workspace as int);
            lemma_count_step(cs, k - 1);
            lemma_count_bounds(cs.subrange(k as int, n as int));
            lemma_count_bounds(cs);
            lemma_count_suffix(cs, k - 1);
            lemma_count_with_ws(a.runtime, screen as int, workspace as int, a.runtime.ws(screen as int, workspace as int));
            assert(t.stack_size == count_non_floating(cs));
        }
        let c = k - 1;
        let is_tiled = !app.runtime.screens[screen].workspaces[workspace].clients[c].floating
            && !app.runtime.screens[screen].workspaces[workspace].clients[c].fullscreen;
        if is_tiled {
            tile_client(&mut app.runtime.screens[screen].workspaces[workspace].clients[c], idx, t);
            idx = idx + 1;
            proof {
                lemma_client_changed(before_rt, app.runtime, screen as int, workspace as int, c as int);
            }
        }
        proof {
            let target = AppV {
                runtime: a.runtime.with_ws(screen as int, workspace as int, WorkspaceV {
                    clients: Seq::new(cs.len(), |j: int| if j >= c { if tiled(cs[j]) { tile(cs[j], count_tiled(cs.subrange(j + 1, cs.len() as int)), t) } else { cs[j] } } else { cs[j] }),
                    ..a.runtime.ws(screen as int, workspace as int)
                }),
                ..a
            };
            assert(app@.runtime.ws(screen as int, workspace as int).clients =~= target.runtime.ws(screen as int, workspace as int).clients);
            assert(app@ =~~= target);
        }
        k = k - 1;
    }
    proof {
        let target = arranged(a, screen as int, workspace as int);
        assert(app@.runtime.ws(screen as int, workspace as int).clients =~= target.runtime.ws(screen as int, workspace as int).clients);
        assert(app@ =~~= target);
    }
}

/// Tiled clients in a suffix are at most those in the whole stack.
proof fn lemma_count_suffix(cs: Seq<Client>, k: int)
    requires
        0 <= k <= cs.len(),
    ensures
        count_tiled(cs.subrange(k, cs.len() as int)) <= count_tiled(cs),
        count_non_floating(cs.subrange(k, cs.len() as int)) <= count_non_floating(cs),
    decreases k,
{
    if k == 0 {
        assert(cs.subrange(0, cs.len() as int) =~= cs);
    } else {
        lemma_count_step(cs, k - 1);
        lemma_count_suffix(cs, k - 1);
    }
}


// ---------------------------------------------------------------------------
// Layout changes keep everything else
// ---------------------------------------------------------------------------

/// Showing, hiding and tiling a workspace only change layout.
pub proof fn lemma_layout_ops(a: AppV, s: int, w: int)
    requires
        a.runtime.valid_ws(s, w),
    ensures
        layout_only(a, map_ws_clients(a, s, w, |c: Client| shown(c))),
        layout_only(a, map_ws_clients(a, s, w, |c: Client| hidden(c))),
        layout_only(a, arranged(a, s, w)),
{
    let cs = a.runtime.ws(s, w).clients;
    lemma_clients_layout(a, s, w, cs.map_values(|c: Client| shown(c)));
    lemma_clients_layout(a, s, w, cs.map_values(|c: Client| hidden(c)));
    let t = tiling(a.runtime.screens[s], a.runtime.ws(s, w), a.config.gap_width, a.config.border_size);
    lemma_clients_layout(a, s, w, tiled_clients(cs, t));
}

/// A layout change does not move windows, trackers or anything the
/// trackers point at.
pub proof fn lemma_layout_lookups(a: AppV, b: AppV, win: u64)
    requires
        layout_only(a, b),
    ensures
        window_pos(a.runtime, win) == window_pos(b.runtime, win),
        managed(a.runtime, win) == managed(b.runtime, win),
        current_client_id(a.runtime) == current_client_id(b.runtime),
        current_ok(a.runtime) == current_ok(b.runtime),
        current_ok(a.runtime) ==> a.runtime.current_client_ok() == b.runtime.current_client_ok(),
        a.runtime.valid_ws(a.runtime.current_screen as int, a.runtime.current_workspace as int) ==> a.runtime.cur_ws().clients.len() == b.runtime.cur_ws().clients.len(),
{
    assert forall|s: int, w: int, c: int| holds(a.runtime, s, w, c, win) == holds(b.runtime, s, w, c, win) by {
        if a.runtime.valid_pos(s, w, c) {
            assert(screen_layout_only(a.runtime.screens[s], b.runtime.screens[s]));
            assert(ws_layout_only(a.runtime.screens[s].workspaces[w], b.runtime.screens[s].workspaces[w]));
            assert(same_identity(a.runtime.client(s, w, c), b.runtime.client(s, w, c)));
        }
        if b.runtime.valid_pos(s, w, c) {
            assert(screen_layout_only(a.runtime.screens[s], b.runtime.screens[s]));
            assert(ws_layout_only(a.runtime.screens[s].workspaces[w], b.runtime.screens[s].workspaces[w]));
        }
    }
    assert forall|s: int, w: int, c: int| first_pos(a.runtime, win, s, w, c) == first_pos(b.runtime, win, s, w, c) by {
        assert(holds(a.runtime, s, w, c, win) == holds(b.runtime, s, w, c, win));
    }
    let cs = a.runtime.current_screen as int;
    let cw = a.runtime.current_workspace as int;
    if 0 <= cs < a.runtime.screens.len() {
        assert(screen_layout_only(a.runtime.screens[cs], b.runtime.screens[cs]));
        if 0 <= cw < a.runtime.screens[cs].workspaces.len() {
            assert(ws_layout_only(a.runtime.screens[cs].workspaces[cw], b.runtime.screens[cs].workspaces[cw]));
            if let Some(i) = a.runtime.current_client {
                if i < a.runtime.cur_ws().clients.len() {
                    assert(same_identity(a.runtime.cur_ws().clients[i as int], b.runtime.cur_ws().clients[i as int]));
                }
            }
        }
    }
}


// ---------------------------------------------------------------------------
// Moving clients between workspaces
// ---------------------------------------------------------------------------

/// State and requests of `show_workspace`.
pub open spec fn show_spec(a: AppV, s: int, w: int) -> (AppV, Seq<Request>) {
    (map_ws_clients(a, s, w, |c: Client| shown(c)), show_reqs(a.runtime.ws(s, w).clients, a.runtime.screens[s]))
}

/// State and requests of `hide_workspace`.
pub open spec fn hide_spec(a: AppV, s: int, w: int) -> (AppV, Seq<Request>) {
    (
        map_ws_clients(a, s, w, |c: Client| hidden(c)),
        a.runtime.ws(s, w).clients.map_values(|c: Client| hide_client_req(c, decoration_offset(a.config))),
    )
}

/// State with client `c` of workspace `(s, w)` taken out.
pub open spec fn removed(a: AppV, s: int, w: int, c: int) -> AppV {
    AppV {
        runtime: a.runtime.with_ws(s, w, WorkspaceV { clients: a.runtime.ws(s, w).clients.remove(c), ..a.runtime.ws(s, w) }),
        ..a
    }
}

/// State with a client put at the end of workspace `(s, w)`.
pub open spec fn pushed(a: AppV, s: int, w: int, cl: Client) -> AppV {
    AppV {
        runtime: a.runtime.with_ws(s, w, WorkspaceV { clients: a.runtime.ws(s, w).clients.push(cl), ..a.runtime.ws(s, w) }),
        ..a
    }
}

/// Taking a client out keeps the shape and every other workspace's invariant.
pub proof fn lemma_removed_wf(a: AppV, s: int, w: int, c: int)
    requires
        a.wf(),
        a.runtime.valid_pos(s, w, c),
    ensures
        removed(a, s, w, c).shape_wf(),
        removed(a, s, w, c).runtime.trackers_ok_except(s, w),
        removed(a, s, w, c).runtime.client_count() == a.runtime.client_count() - 1,
{
    lemma_wf_parts(a.runtime, s, w);
    assert(screen_wf(a.runtime.screens[s], s));
    assert(workspace_wf(a.runtime.ws(s, w)));
    let ws = WorkspaceV { clients: a.runtime.ws(s, w).clients.remove(c), ..a.runtime.ws(s, w) };
    lemma_count_with_ws(a.runtime, s, w, ws);
    lemma_with_ws_shape(a.runtime, s, w, ws, s, w);
}

/// Putting a client at the end of a workspace keeps the shape (within the
/// client limit) and the invariant of every workspace that had it.
pub proof fn lemma_pushed_wf(a: AppV, s: int, w: int, cl: Client, x: int, y: int)
    requires
        a.shape_wf(),
        a.runtime.valid_ws(s, w),
        a.runtime.client_count() + 1 < 0x8000_0000,
    ensures
        pushed(a, s, w, cl).shape_wf(),
        pushed(a, s, w, cl).runtime.client_count() == a.runtime.client_count() + 1,
        a.runtime.trackers_ok_except(x, y) ==> pushed(a, s, w, cl).runtime.trackers_ok_except(x, y),
        a.runtime.trackers_ok_except(x, y) && !(s == x && w == y) ==> pushed(a, s, w, cl).runtime.trackers_ok_except(x, y)
            && (pushed(a, s, w, cl).runtime.valid_ws(x, y) && a.runtime.valid_ws(x, y) && workspace_wf(a.runtime.ws(x, y)) ==> workspace_wf(pushed(a, s, w, cl).runtime.ws(x, y))),
{
    let ws = WorkspaceV { clients: a.runtime.ws(s, w).clients.push(cl), ..a.runtime.ws(s, w) };
    assert(screen_shape_wf(a.runtime.screens[s], s));
    assert(ws_shape_wf(a.runtime.ws(s, w)));
    lemma_count_with_ws(a.runtime, s, w, ws);
    if a.runtime.trackers_ok_except(x, y) && !(s == x && w == y) {
        assert(workspace_wf(a.runtime.ws(s, w)));
    }
    lemma_with_ws_shape(a.runtime, s, w, ws, x, y);
}

/// Take client `c` out of workspace `(s, w)`.
pub fn remove_client(app: &mut Application, s: usize, w: usize, c: usize) -> (cl: Client)
    requires
        old(app)@.runtime.valid_pos(s as int, w as int, c as int),
    ensures
        cl == old(app)@.runtime.client(s as int, w as int, c as int),
        final(app)@ == removed(old(app)@, s as int, w as int, c as int),
{
    let ghost a = app@;
    proof {
        lemma_runtime_view(&app.runtime, s as int, w as int);
    }
    let ghost before_rt = app.runtime;
    let cl = app.runtime.screens[s].workspaces[w].clients.remove(c);
    proof {
        crate::structs::lemma_ws_changed(before_rt, app.runtime, s as int, w as int);
        assert(app@.runtime.ws(s as int, w as int) =~= removed(a, s as int, w as int, c as int).runtime.ws(s as int, w as int));
        assert(app@ =~~= removed(a, s as int, w as int, c as int));
    }
    cl
}

/// Put a client at the end of workspace `(s, w)`.
pub fn push_client(app: &mut Application, s: usize, w: usize, cl: Client)
    requires
        old(app)@.runtime.valid_ws(s as int, w as int),
    ensures
        final(app)@ == pushed(old(app)@, s as int, w as int, cl),
{
    let ghost a = app@;
    proof {
        lemma_runtime_view(&app.runtime, s as int, w as int);
    }
    let ghost before_rt = app.runtime;
    app.runtime.screens[s].workspaces[w].clients.push(cl);
    proof {
        crate::structs::lemma_ws_changed(before_rt, app.runtime, s as int, w as int);
        assert(app@.runtime.ws(s as int, w as int) =~= pushed(a, s as int, w as int, cl).runtime.ws(s as int, w as int));
        assert(app@ =~~= pushed(a, s as int, w as int, cl));
    }
}

} // verus!
