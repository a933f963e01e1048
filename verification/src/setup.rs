//! Start-up: the first state and the requests that announce the window
//! manager, and taking over the windows that already exist.

use vstd::prelude::*;

use crate::config::NUMBER_OF_DESKTOPS;
use crate::logic::{focus_on_workspace, focus_on_workspace_spec};
use crate::manage::{becomes_client, manage_client, manage_ok, manage_spec, WindowFacts};
use crate::request::{EventMask, PropertyKind, Request};
use crate::screens::{
    desktop_names, desktop_viewports, fresh_screen, infos_numbered, names_wf, placed, update_desktops, update_screens,
    with_desktops, ScreenInfo,
};
use crate::structs::{
    config_wf, screen_shape_wf, screen_wf, ws_shape_wf, workspace_wf, AppV, Application, Atoms, AutostartRulePID, Configuration,
    KeyAction, MouseState, Runtime, RuntimeV, ScreenV, WmCore,
};
use crate::utils::{nul_terminated, no_nul, vec_string_to_bytes};
use vstd::utf8::{encode_utf8, is_ascii_chars, is_ascii_chars_encode_utf8};

verus! {

/// Atoms listed in `_NET_SUPPORTED`.
pub open spec fn supported_atoms(at: Atoms) -> Seq<u64> {
    seq![
        at.net_active_window,
        at.net_supported,
        at.net_wm_name,
        at.net_wm_check,
        at.net_wm_fullscreen,
        at.net_wm_window_type,
        at.net_wm_window_type_dialog,
        at.net_client_list,
        at.net_wm_state,
        at.net_number_of_desktops,
        at.net_current_desktop,
        at.net_desktop_viewport,
        at.net_desktop_names,
    ]
}

/// Publish the EWMH atoms the window manager supports on the root window.
pub fn init_supported_atoms(app: &Application, reqs: &mut Vec<Request>)
    ensures
        final(reqs)@.len() == old(reqs)@.len() + 1,
        final(reqs)@.take(old(reqs)@.len() as int) == old(reqs)@,
        final(reqs)@.last() matches Request::SetPropertyList { win, property, kind, values } && win == app@.core.root_win
            && property == app@.atoms.net_supported && kind == PropertyKind::Atom && values@ == supported_atoms(app@.atoms),
{
    let at = &app.atoms;
    let netatoms = vec![
        at.net_active_window,
        at.net_supported,
        at.net_wm_name,
        at.net_wm_check,
        at.net_wm_fullscreen,
        at.net_wm_window_type,
        at.net_wm_window_type_dialog,
        at.net_client_list,
        at.net_wm_state,
        at.net_number_of_desktops,
        at.net_current_desktop,
        at.net_desktop_viewport,
        at.net_desktop_names,
    ];
    let ghost start = reqs@;
    reqs.push(Request::SetPropertyList {
        win: app.core.root_win,
        property: app.atoms.net_supported,
        kind: PropertyKind::Atom,
        values: netatoms,
    });
    proof {
        assert(reqs@.take(start.len() as int) =~= start);
    }
}

/// Name the window manager gives itself on its check window.
pub open spec fn wm_name() -> Seq<char> {
    seq!['r', 't', 'w', 'm']
}

/// Announce the window manager through its check window: the window points
/// at itself and carries the name, and the root window points at it.
pub fn init_wm_check(app: &Application, reqs: &mut Vec<Request>)
    ensures
        final(reqs)@.len() == old(reqs)@.len() + 3,
        final(reqs)@.take(old(reqs)@.len() as int) == old(reqs)@,
        final(reqs)@[old(reqs)@.len() as int] == (Request::SetProperty {
            win: app@.core.wm_check_win,
            property: app@.atoms.net_wm_check,
            kind: PropertyKind::Window,
            value: app@.core.wm_check_win,
        }),
        final(reqs)@[old(reqs)@.len() + 1int] matches Request::SetText { win, property, encoding, bytes } && win
            == app@.core.wm_check_win && property == app@.atoms.net_wm_name && encoding == app@.atoms.utf8string && bytes@
            == encode_utf8(wm_name()).push(0u8),
        final(reqs)@[old(reqs)@.len() + 2int] == (Request::SetProperty {
            win: app@.core.root_win,
            property: app@.atoms.net_wm_check,
            kind: PropertyKind::Window,
            value: app@.core.wm_check_win,
        }),
{
    let ghost start = reqs@;
    let check = app.core.wm_check_win;
    reqs.push(Request::SetProperty { win: check, property: app.atoms.net_wm_check, kind: PropertyKind::Window, value: check });
    proof {
        reveal_strlit("rtwm");
    }
    let name = "rtwm".to_owned();
    let ghost nm = name;
    let mut names: Vec<String> = Vec::new();
    names.push(name);
    proof {
        assert(nm@ =~= wm_name());
        assert(is_ascii_chars(wm_name()));
        is_ascii_chars_encode_utf8(wm_name());
        assert(!encode_utf8(nm@).contains(0u8)) by {
            if encode_utf8(nm@).contains(0u8) {
                let i = choose|i: int| 0 <= i < encode_utf8(nm@).len() && encode_utf8(nm@)[i] == 0u8;
                assert(nm@[i] as u8 == encode_utf8(nm@)[i]);
            }
        }
        assert(names@ == seq![nm]);
        assert(no_nul(names@));
    }
    let bytes = vec_string_to_bytes(names);
    proof {
        assert(seq![nm].drop_last() =~= Seq::<String>::empty());
        assert(nul_terminated(Seq::<String>::empty()) == Seq::<u8>::empty());
        assert(nul_terminated(seq![nm]) == nul_terminated(Seq::<String>::empty()) + encode_utf8(nm@).push(0u8));
        assert(bytes@ =~= encode_utf8(wm_name()).push(0u8));
    }
    reqs.push(Request::SetText { win: check, property: app.atoms.net_wm_name, encoding: app.atoms.utf8string, bytes });
    reqs.push(Request::SetProperty { win: app.core.root_win, property: app.atoms.net_wm_check, kind: PropertyKind::Window, value: check });
    proof {
        assert(reqs@.take(start.len() as int) =~= start);
    }
}

/// Requests that grab the keys of the key actions.
pub open spec fn grab_reqs(actions: Seq<KeyAction>) -> Seq<Request> {
    actions.map_values(|k: KeyAction| Request::GrabKey { keysym: k.keysym, modifiers: k.modifier })
}

/// Grab the key of every key action.
pub fn init_actions(app: &Application, reqs: &mut Vec<Request>)
    ensures
        final(reqs)@ == old(reqs)@ + grab_reqs(app@.config.key_actions@),
{
    let ghost acts = app@.config.key_actions@;
    let mut i: usize = 0;
    while i < app.config.key_actions.len()
        invariant
            acts == app@.config.key_actions@,
            i <= acts.len(),
            reqs@ == old(reqs)@ + grab_reqs(acts.take(i as int)),
        decreases acts.len() - i,
    {
        let k = &app.config.key_actions[i];
        reqs.push(Request::GrabKey { keysym: k.keysym, modifiers: k.modifier });
        proof {
            assert(grab_reqs(acts.take(i + 1)) =~= grab_reqs(acts.take(i as int)).push(
                Request::GrabKey { keysym: acts[i as int].keysym, modifiers: acts[i as int].modifier },
            ));
        }
        i = i + 1;
    }
    proof {
        assert(acts.take(acts.len() as int) =~= acts);
    }
}

/// The state before the first screen update: no screens, nothing managed.
pub open spec fn empty_state(config: Configuration, root_win: u64, wm_check_win: u64, atoms: Atoms) -> AppV {
    AppV {
        config,
        core: WmCore { root_win, wm_check_win, running: true },
        runtime: RuntimeV {
            screens: Seq::empty(),
            current_screen: 0,
            current_workspace: 0,
            current_client: None,
            mouse_state: MouseState { win: 0, button: 0, pos: (0, 0) },
            bars: Seq::empty(),
            autostart_rules: Seq::empty(),
        },
        atoms,
    }
}

/// The reported screens, each with its workspaces.
pub open spec fn initial_screens(infos: Seq<ScreenInfo>) -> Seq<ScreenV> {
    Seq::new(infos.len(), |i: int| with_desktops(placed(fresh_screen(), infos[i])))
}

/// The state once the screens and workspaces exist, before the first focus.
pub open spec fn initial_state(config: Configuration, root_win: u64, wm_check_win: u64, atoms: Atoms, infos: Seq<ScreenInfo>) -> AppV {
    let e = empty_state(config, root_win, wm_check_win, atoms);
    AppV { runtime: RuntimeV { screens: initial_screens(infos), ..e.runtime }, ..e }
}

/// The first state is well-formed.
proof fn lemma_initial_wf(config: Configuration, root_win: u64, wm_check_win: u64, atoms: Atoms, infos: Seq<ScreenInfo>)
    requires
        0 < infos.len() < 0x1_0000,
        infos_numbered(infos),
        config_wf(config),
    ensures
        initial_state(config, root_win, wm_check_win, atoms, infos).wf(),
{
    let a = initial_state(config, root_win, wm_check_win, atoms, infos);
    let scs = a.runtime.screens;
    assert forall|s: int| 0 <= s < scs.len() implies #[trigger] screen_wf(scs[s], s) by {
        assert(infos[s].screen_number == s);
        let sc = scs[s];
        assert forall|w: int| 0 <= w < sc.workspaces.len() implies #[trigger] ws_shape_wf(sc.workspaces[w]) by {}
        assert forall|w: int| 0 <= w < sc.workspaces.len() implies #[trigger] workspace_wf(sc.workspaces[w]) by {}
    }
    assert forall|s: int| 0 <= s < scs.len() implies #[trigger] screen_shape_wf(scs[s], s) by {
        assert(screen_wf(scs[s], s));
    }
    lemma_no_clients(scs, scs.len() as int);
    assert(scs.take(scs.len() as int) =~= scs);
    assert(a.runtime.client_count() == 0);
    assert(a.runtime.shape_wf());
    assert(a.runtime.wf());
}

/// Screens whose workspaces hold no client hold no client.
proof fn lemma_no_clients(scs: Seq<ScreenV>, n: int)
    requires
        0 <= n <= scs.len(),
        forall|s: int, w: int| 0 <= s < scs.len() && 0 <= w < scs[s].workspaces.len() ==> (#[trigger] scs[s].workspaces[w]).clients.len() == 0,
    ensures
        crate::structs::screens_client_count(scs.take(n)) == 0,
    decreases n,
{
    if n > 0 {
        lemma_no_clients(scs, n - 1);
        assert(scs.take(n).drop_last() =~= scs.take(n - 1));
        lemma_ws_none(scs[n - 1].workspaces, scs[n - 1].workspaces.len() as int, scs, n - 1);
        assert(scs[n - 1].workspaces.take(scs[n - 1].workspaces.len() as int) =~= scs[n - 1].workspaces);
    } else {
        assert(scs.take(0) =~= Seq::<ScreenV>::empty());
    }
    if n == scs.len() {
        assert(scs.take(n) =~= scs);
    }
}

/// Workspaces without clients hold no client.
proof fn lemma_ws_none(wss: Seq<crate::structs::WorkspaceV>, k: int, scs: Seq<ScreenV>, s: int)
    requires
        0 <= s < scs.len(),
        wss == scs[s].workspaces,
        0 <= k <= wss.len(),
        forall|s: int, w: int| 0 <= s < scs.len() && 0 <= w < scs[s].workspaces.len() ==> (#[trigger] scs[s].workspaces[w]).clients.len() == 0,
    ensures
        crate::structs::ws_client_count(wss.take(k)) == 0,
    decreases k,
{
    if k > 0 {
        lemma_ws_none(wss, k - 1, scs, s);
        assert(wss.take(k).drop_last() =~= wss.take(k - 1));
        assert(scs[s].workspaces[k - 1].clients.len() == 0);
    } else {
        assert(wss.take(0) =~= Seq::<crate::structs::WorkspaceV>::empty());
    }
}

/// Set up the window manager on a display whose root window, check window
/// and interned atoms are given, for the screens the server reports:
/// publish the supported atoms and the check window, create the screens and
/// their workspaces and publish them, grab the keys, select the root
/// window's events and focus the first workspace of the first screen.
pub fn setup(
    config: Configuration,
    root_win: u64,
    wm_check_win: u64,
    atoms: Atoms,
    infos: &Vec<ScreenInfo>,
    reqs: &mut Vec<Request>,
) -> (app: Application)
    requires
        0 < infos@.len() < 0x1_0000,
        infos_numbered(infos@),
        config_wf(config),
        names_wf(config),
    ensures
        app@ == focus_on_workspace_spec(initial_state(config, root_win, wm_check_win, atoms, infos@), 0, false).0,
        app@.wf(),
        final(reqs)@.len() == old(reqs)@.len() + 9 + config.key_actions@.len() + focus_on_workspace_spec(
            initial_state(config, root_win, wm_check_win, atoms, infos@),
            0,
            false,
        ).1.len(),
        final(reqs)@.take(old(reqs)@.len() as int) == old(reqs)@,
        final(reqs)@[old(reqs)@.len() as int] matches Request::SetPropertyList { win, property, kind, values } && win == root_win
            && property == atoms.net_supported && kind == PropertyKind::Atom && values@ == supported_atoms(atoms),
        final(reqs)@[old(reqs)@.len() + 1int] == (Request::SetProperty {
            win: wm_check_win,
            property: atoms.net_wm_check,
            kind: PropertyKind::Window,
            value: wm_check_win,
        }),
        final(reqs)@[old(reqs)@.len() + 2int] matches Request::SetText { win, property, encoding, bytes } && win == wm_check_win
            && property == atoms.net_wm_name && encoding == atoms.utf8string && bytes@ == encode_utf8(wm_name()).push(0u8),
        final(reqs)@[old(reqs)@.len() + 3int] == (Request::SetProperty {
            win: root_win,
            property: atoms.net_wm_check,
            kind: PropertyKind::Window,
            value: wm_check_win,
        }),
        final(reqs)@[old(reqs)@.len() + 4int] == (Request::SetProperty {
            win: root_win,
            property: atoms.net_number_of_desktops,
            kind: PropertyKind::Cardinal,
            value: desktop_names(config, initial_screens(infos@)).len() as u64,
        }),
        final(reqs)@[old(reqs)@.len() + 5int] matches Request::SetText { win, property, encoding, bytes } && win == root_win
            && property == atoms.net_desktop_names && encoding == atoms.utf8string && exists|names: Seq<String>|
            names.map_values(|t: String| t@) == desktop_names(config, initial_screens(infos@)) && bytes@ == nul_terminated(names),
        final(reqs)@[old(reqs)@.len() + 6int] matches Request::SetSignedList { win, property, values } && win == root_win
            && property == atoms.net_desktop_viewport && values@ == desktop_viewports(initial_screens(infos@)),
        final(reqs)@.subrange(old(reqs)@.len() + 7int, old(reqs)@.len() + 7int + config.key_actions@.len()) == grab_reqs(
            config.key_actions@,
        ),
        final(reqs)@[old(reqs)@.len() + 7int + config.key_actions@.len()] == (Request::SetRootAttributes { win: root_win }),
        final(reqs)@[old(reqs)@.len() + 8int + config.key_actions@.len()] == (Request::SelectInput { win: root_win, mask: EventMask::Root }),
        final(reqs)@.subrange(old(reqs)@.len() + 9int + config.key_actions@.len(), final(reqs)@.len() as int) == focus_on_workspace_spec(
            initial_state(config, root_win, wm_check_win, atoms, infos@),
            0,
            false,
        ).1,
{
    let ghost c = config;
    let mut app = Application {
        config,
        core: WmCore { root_win, wm_check_win, running: true },
        runtime: Runtime {
            screens: Vec::new(),
            current_screen: 0,
            current_workspace: 0,
            current_client: None,
            mouse_state: MouseState { win: 0, button: 0, pos: (0, 0) },
            bars: Vec::new(),
            autostart_rules: Vec::new(),
        },
        atoms,
    };
    proof {
        assert(app@ =~~= empty_state(c, root_win, wm_check_win, atoms));
    }
    let ghost k0: int = reqs@.len() as int;
    init_supported_atoms(&app, reqs);
    let ghost r1 = reqs@;
    init_wm_check(&app, reqs);
    let ghost r2 = reqs@;
    update_screens(&mut app, infos, reqs);
    let ghost r3 = reqs@;
    proof {
        assert(crate::screens::shrink_reqs(Seq::<ScreenV>::empty(), infos@.len() as int, atoms.net_wm_desktop) == Seq::<Request>::empty());
        assert(r3 =~= r2);
        assert(app@.runtime.screens =~= Seq::new(infos@.len(), |i: int| placed(fresh_screen(), infos@[i])));
        assert forall|s: int| 0 <= s < app@.runtime.screens.len() && s < app@.config.desktops.names@.len() implies #[trigger] app@.runtime.screens[s].workspaces.len()
            <= NUMBER_OF_DESKTOPS by {}
    }
    update_desktops(&mut app, reqs);
    let ghost r4 = reqs@;
    let ghost a1 = app@;
    proof {
        assert(a1.runtime.screens =~= initial_screens(infos@));
        assert(a1 =~~= initial_state(c, root_win, wm_check_win, atoms, infos@));
        lemma_initial_wf(c, root_win, wm_check_win, atoms, infos@);
    }
    init_actions(&app, reqs);
    let ghost r5 = reqs@;
    reqs.push(Request::SetRootAttributes { win: app.core.root_win });
    reqs.push(Request::SelectInput { win: app.core.root_win, mask: EventMask::Root });
    let ghost r6 = reqs@;
    focus_on_workspace(&mut app, 0, false, reqs);
    proof {
        let nk: int = c.key_actions@.len() as int;
        assert(r1.len() == k0 + 1);
        assert(r2.len() == k0 + 4);
        assert(r4.len() == k0 + 7);
        assert(r5.len() == k0 + 7 + nk);
        assert(reqs@.take(k0) =~= r1.take(k0));
        assert(reqs@[k0] == r1[k0]);
        assert(reqs@[k0 + 1] == r2[k0 + 1]);
        assert(reqs@[k0 + 2] == r2[k0 + 2]);
        assert(reqs@[k0 + 3] == r2[k0 + 3]);
        assert(reqs@[k0 + 4] == r4[k0 + 4]);
        assert(reqs@[k0 + 5] == r4[k0 + 5]);
        assert(reqs@[k0 + 6] == r4[k0 + 6]);
        assert(reqs@.subrange(k0 + 7, k0 + 7 + nk) =~= grab_reqs(c.key_actions@));
        assert(reqs@.subrange(k0 + 9 + nk, reqs@.len() as int) =~= focus_on_workspace_spec(a1, 0, false).1);
    }
    app
}

// ---------------------------------------------------------------------------
// Windows present at start-up
// ---------------------------------------------------------------------------

/// What the server tells about a window that exists at start-up.
#[derive(Debug)]
pub struct ScanFacts {
    pub win: u64,
    /// Its attributes could be read.
    pub readable: bool,
    /// It has override-redirect set.
    pub override_redirect: bool,
    /// It is transient for another window.
    pub transient: bool,
    /// It is viewable.
    pub viewable: bool,
    /// What managing it needs.
    pub facts: WindowFacts,
}

/// The window is taken over: readable, not override-redirect, not
/// transient, and viewable.
pub open spec fn taken_over(f: ScanFacts) -> bool {
    f.readable && !f.override_redirect && !f.transient && f.viewable
}

/// Whether a window that exists at start-up is taken over (see `taken_over`).
pub fn is_taken_over(f: &ScanFacts) -> (r: bool)
    ensures
        r == taken_over(*f),
{
    f.readable && !f.override_redirect && !f.transient && f.viewable
}

/// State and requests after the first `k` windows are checked.
pub open spec fn scan_upto(a: AppV, wins: Seq<ScanFacts>, k: int, names: Seq<String>) -> (AppV, Seq<Request>)
    decreases k,
{
    if k <= 0 {
        (a, Seq::empty())
    } else {
        let (b, r) = scan_upto(a, wins, k - 1, names);
        if taken_over(wins[k - 1]) {
            let (b2, r2) = manage_spec(b, wins[k - 1].win, wins[k - 1].facts, true, names[k - 1]);
            (b2, r + r2)
        } else {
            (b, r)
        }
    }
}

/// Every window taken over among the first `k` can be managed when its turn comes.
pub open spec fn scan_ok_upto(a: AppV, wins: Seq<ScanFacts>, k: int, names: Seq<String>) -> bool
    decreases k,
{
    if k <= 0 {
        true
    } else {
        &&& scan_ok_upto(a, wins, k - 1, names)
        &&& taken_over(wins[k - 1]) ==> manage_ok(scan_upto(a, wins, k - 1, names).0, wins[k - 1].win, wins[k - 1].facts, true)
    }
}

/// Names that clients start with: empty ones, one per window.
pub open spec fn empty_names(names: Seq<String>, n: int) -> bool {
    names.len() == n && forall|i: int| 0 <= i < names.len() ==> (#[trigger] names[i])@ == Seq::<char>::empty()
}

/// Only the names of the windows checked so far matter.
proof fn lemma_scan_prefix(a: AppV, wins: Seq<ScanFacts>, k: int, n1: Seq<String>, n2: Seq<String>)
    requires
        forall|j: int| 0 <= j < k ==> n1[j] == n2[j],
    ensures
        scan_upto(a, wins, k, n1) == scan_upto(a, wins, k, n2),
        scan_ok_upto(a, wins, k, n1) == scan_ok_upto(a, wins, k, n2),
    decreases k,
{
    if k > 0 {
        lemma_scan_prefix(a, wins, k - 1, n1, n2);
    }
}

/// A prefix of manageable windows is manageable.
proof fn lemma_scan_ok_prefix(a: AppV, wins: Seq<ScanFacts>, n: int, k: int, names: Seq<String>)
    requires
        0 <= k <= n,
        scan_ok_upto(a, wins, n, names),
    ensures
        scan_ok_upto(a, wins, k, names),
    decreases n - k,
{
    if k < n {
        lemma_scan_ok_prefix(a, wins, n - 1, k, names);
    }
}

/// Take over the windows that exist at start-up, in the order the server
/// lists them: each readable, viewable window that is neither
/// override-redirect nor transient is managed (see `manage_client`).
pub fn scan(app: &mut Application, wins: &Vec<ScanFacts>, reqs: &mut Vec<Request>)
    requires
        old(app)@.wf(),
        forall|names: Seq<String>| empty_names(names, wins@.len() as int) ==> #[trigger] scan_ok_upto(old(app)@, wins@, wins@.len() as int, names),
    ensures
        final(app)@.config == old(app)@.config,
        exists|names: Seq<String>|
            empty_names(names, wins@.len() as int) && final(app)@ == scan_upto(old(app)@, wins@, wins@.len() as int, names).0
                && final(reqs)@ == old(reqs)@ + scan_upto(old(app)@, wins@, wins@.len() as int, names).1,
        final(app)@.wf(),
{
    let ghost a = app@;
    let e = String::new();
    let ghost empty = e;
    let ghost mut names: Seq<String> = Seq::empty();
    let n = wins.len();
    let mut i: usize = 0;
    while i < n
        invariant
            n == wins@.len(),
            i <= n,
            empty@ == Seq::<char>::empty(),
            forall|names: Seq<String>| empty_names(names, n as int) ==> #[trigger] scan_ok_upto(a, wins@, n as int, names),
            empty_names(names, i as int),
            app@ == scan_upto(a, wins@, i as int, names).0,
            reqs@ == old(reqs)@ + scan_upto(a, wins@, i as int, names).1,
            app@.wf(),
            app@.config == a.config,
        decreases n - i,
    {
        let ghost full = names + Seq::new((n - i) as nat, |j: int| empty);
        proof {
            assert(empty_names(full, n as int));
            assert(scan_ok_upto(a, wins@, n as int, full));
            lemma_scan_ok_prefix(a, wins@, n as int, i + 1, full);
            lemma_scan_prefix(a, wins@, i as int, full, names);
        }
        let f = &wins[i];
        let ghost b = app@;
        let ghost rb = reqs@;
        if is_taken_over(f) {
            manage_client(app, f.win, &f.facts, true, reqs);
            proof {
                let nm = choose|name: String|
                    name@ == Seq::<char>::empty() && app@ == manage_spec(b, f.win, f.facts, true, name).0 && reqs@ == rb
                        + manage_spec(b, f.win, f.facts, true, name).1;
                let names2 = names.push(nm);
                lemma_scan_prefix(a, wins@, i as int, names2, names);
                assert(reqs@ =~= old(reqs)@ + scan_upto(a, wins@, i + 1, names2).1);
                names = names2;
            }
        } else {
            proof {
                let names2 = names.push(empty);
                lemma_scan_prefix(a, wins@, i as int, names2, names);
                names = names2;
            }
        }
        i = i + 1;
    }
}

/// Remember a program started for an autostart rule: its process id goes
/// with the rule's place, so that its first window goes there. The fork
/// itself is the caller's.
pub fn spawn(app: &mut Application, pid: i32, rule: Option<(usize, usize)>)
    requires
        old(app)@.wf(),
    ensures
        final(app)@.config == old(app)@.config,
        final(app)@ == (match rule {
            Some((s, w)) => AppV {
                runtime: RuntimeV {
                    autostart_rules: old(app)@.runtime.autostart_rules.push(AutostartRulePID { pid, screen: s, workspace: w }),
                    ..old(app)@.runtime
                },
                ..old(app)@
            },
            None => old(app)@,
        }),
        final(app)@.wf(),
{
    let ghost a = app@;
    if let Some((s, w)) = rule {
        app.runtime.autostart_rules.push(AutostartRulePID { pid, screen: s, workspace: w });
        proof {
            assert(crate::structs::screens_client_count(app@.runtime.screens) == crate::structs::screens_client_count(a.runtime.screens));
        }
    }
}

} // verus!
