//! The RTDE variant of the window manager: every screen has a status bar
//! of its own (when the configuration asks for one) and always ten
//! workspaces, and the desktops are published for a fixed pair of
//! side-by-side 1920-pixel screens.
//!
//! Its layout works on a fractional master width and is left to the caller:
//! the functions here answer whether the current workspace is to be laid out
//! again.

use vstd::prelude::*;

use crate::request::{EventMask, PropertyKind, Request};
use crate::screens::{fresh_workspace, ScreenInfo};
use crate::structs::{Atoms, Client, Color, KeyAction, Workspace, WorkspaceV};
use crate::helper::{hinted, update_normal_hints, SizeHints};
use crate::manage::WindowAttributes;
use crate::utils::{argb_to_int, pixel};

verus! {

/// Workspaces on every screen.
pub const RTDE_WORKSPACES: usize = 10;

/// Where the status bars come from.
#[derive(Clone, Copy, PartialEq, Eq, Structural, Debug)]
pub enum BarVariant {
    /// The window manager draws a bar of the given height on every screen.
    Bar(u32),
    /// No bar.
    NoBar,
    /// Another program draws the bar.
    External,
}

/// Colours and sizes of the window decorations.
#[derive(Clone, Copy, Debug)]
pub struct VisualPreferences {
    pub gap_width: usize,
    pub border_size: usize,
    pub normal_border_color: Color,
    pub active_border_color: Color,
}

/// A rule that picks a layout (none are defined yet).
#[derive(Clone, Copy, Debug)]
pub struct LayoutRule {}

/// A rule that builds part of the status bar (none are defined yet).
#[derive(Clone, Copy, Debug)]
pub struct StatusBarBuilder {}

/// A mouse binding (none are defined yet).
#[derive(Clone, Copy, Debug)]
pub struct ButtonClickTrigger {}

/// The interface offered to other programs (none yet).
#[derive(Clone, Copy, Debug)]
pub struct Api {}

/// The configuration of the RTDE window manager.
#[derive(Debug)]
pub struct RtdeConfig {
    pub visuals: VisualPreferences,
    pub key_actions: Vec<KeyAction>,
    pub bar: BarVariant,
}

/// The status bar of a screen: its height and its window.
#[derive(Clone, Copy, PartialEq, Eq, Structural, Debug)]
pub struct StatusBarContainer {
    pub height: u64,
    pub win: u64,
}

/// A screen with its workspaces and its status bar.
#[derive(Debug)]
pub struct RtdeScreen {
    pub number: i64,
    pub x: i64,
    pub y: i64,
    pub width: i64,
    pub height: i64,
    pub workspaces: Vec<Workspace>,
    pub current_workspace: usize,
    pub status_bar: Option<StatusBarContainer>,
}

/// The whole state of the RTDE window manager.
#[derive(Debug)]
pub struct RtdeApp {
    pub config: RtdeConfig,
    pub screens: Vec<RtdeScreen>,
    pub current_screen: usize,
    pub current_workspace: usize,
    pub current_client: Option<usize>,
    pub root_win: u64,
    pub wm_check_win: u64,
    pub running: bool,
    pub atoms: Atoms,
}

/// Model of a screen.
#[verifier::ext_equal]
pub struct RtdeScreenV {
    pub number: i64,
    pub x: i64,
    pub y: i64,
    pub width: i64,
    pub height: i64,
    pub workspaces: Seq<WorkspaceV>,
    pub current_workspace: usize,
    pub status_bar: Option<StatusBarContainer>,
}

/// Model of the whole state.
#[verifier::ext_equal]
pub struct RtdeAppV {
    pub config: RtdeConfig,
    pub screens: Seq<RtdeScreenV>,
    pub current_screen: usize,
    pub current_workspace: usize,
    pub current_client: Option<usize>,
    pub root_win: u64,
    pub wm_check_win: u64,
    pub running: bool,
    pub atoms: Atoms,
}

impl View for RtdeScreen {
    type V = RtdeScreenV;

    open spec fn view(&self) -> RtdeScreenV {
        RtdeScreenV {
            number: self.number,
            x: self.x,
            y: self.y,
            width: self.width,
            height: self.height,
            workspaces: self.workspaces@.map_values(|w: Workspace| w@),
            current_workspace: self.current_workspace,
            status_bar: self.status_bar,
        }
    }
}

impl View for RtdeApp {
    type V = RtdeAppV;

    open spec fn view(&self) -> RtdeAppV {
        RtdeAppV {
            config: self.config,
            screens: self.screens@.map_values(|s: RtdeScreen| s@),
            current_screen: self.current_screen,
            current_workspace: self.current_workspace,
            current_client: self.current_client,
            root_win: self.root_win,
            wm_check_win: self.wm_check_win,
            running: self.running,
            atoms: self.atoms,
        }
    }
}

impl RtdeAppV {
    /// Every screen has its ten workspaces and the trackers point at an
    /// existing screen and workspace.
    pub open spec fn wf(self) -> bool {
        &&& self.screens.len() > 0
        &&& forall|s: int| 0 <= s < self.screens.len() ==> (#[trigger] self.screens[s]).workspaces.len() == RTDE_WORKSPACES
        &&& self.current_screen < self.screens.len()
        &&& self.current_workspace < RTDE_WORKSPACES
    }
}

/// The ten empty workspaces every screen starts with.
pub open spec fn rtde_fresh_workspaces() -> Seq<WorkspaceV> {
    Seq::new(RTDE_WORKSPACES as nat, |i: int| fresh_workspace(i))
}

/// Make the ten empty workspaces of a screen.
fn new_workspaces() -> (v: Vec<Workspace>)
    ensures
        v@.map_values(|w: Workspace| w@) == rtde_fresh_workspaces(),
{
    let mut v: Vec<Workspace> = Vec::new();
    let mut i: usize = 0;
    while i < RTDE_WORKSPACES
        invariant
            i <= RTDE_WORKSPACES,
            v@.len() == i,
            v@.map_values(|w: Workspace| w@) == Seq::new(i as nat, |k: int| fresh_workspace(k)),
        decreases RTDE_WORKSPACES - i,
    {
        let ghost before = v@;
        v.push(Workspace { number: i as u64, master_capacity: 1, master_width: 500, clients: Vec::new(), current_client: None });
        proof {
            let last = v@.last();
            assert(last@.clients =~= Seq::<crate::structs::Client>::empty());
            assert(last@ =~= fresh_workspace(i as int));
            let vm = v@.map_values(|w: Workspace| w@);
            assert forall|k: int| 0 <= k < i + 1 implies #[trigger] vm[k] == fresh_workspace(k) by {
                if k < i {
                    assert(v@[k] == before[k]);
                    assert(before.map_values(|w: Workspace| w@)[k] == fresh_workspace(k));
                }
            }
            assert(v@.map_values(|w: Workspace| w@) =~= Seq::new((i + 1) as nat, |k: int| fresh_workspace(k)));
        }
        i = i + 1;
    }
    v
}

/// The bar a screen gets: one of the configured height in window `win`.
pub open spec fn bar_of(bar: BarVariant, win: u64) -> Option<StatusBarContainer> {
    match bar {
        BarVariant::Bar(h) => Some(StatusBarContainer { height: h as u64, win }),
        _ => None,
    }
}

/// Make the bar a screen gets.
fn make_bar(bar: BarVariant, win: u64) -> (r: Option<StatusBarContainer>)
    ensures
        r == bar_of(bar, win),
{
    match bar {
        BarVariant::Bar(h) => Some(StatusBarContainer { height: h as u64, win }),
        _ => None,
    }
}

/// A screen as reported, with its ten workspaces and its bar.
pub open spec fn reported_screen(info: ScreenInfo, bar: BarVariant, win: u64) -> RtdeScreenV {
    RtdeScreenV {
        number: info.screen_number as i64,
        x: info.x_org as i64,
        y: info.y_org as i64,
        width: info.width as i64,
        height: info.height as i64,
        workspaces: rtde_fresh_workspaces(),
        current_workspace: 0,
        status_bar: bar_of(bar, win),
    }
}

/// The state right after set-up.
pub open spec fn rtde_initial_state(
    config: RtdeConfig,
    root_win: u64,
    wm_check_win: u64,
    atoms: Atoms,
    infos: Seq<ScreenInfo>,
    bar_wins: Seq<u64>,
) -> RtdeAppV {
    RtdeAppV {
        config,
        screens: Seq::new(infos.len(), |i: int| reported_screen(infos[i], config.bar, bar_wins[i])),
        current_screen: 0,
        current_workspace: 0,
        current_client: None,
        root_win,
        wm_check_win,
        running: true,
        atoms,
    }
}

/// Bytes of the published desktop names: `1` to `10`, each ended by a
/// NUL, once per screen of the fixed pair.
pub open spec fn rtde_desktop_names() -> Seq<u8> {
    let once = seq![49u8, 0, 50, 0, 51, 0, 52, 0, 53, 0, 54, 0, 55, 0, 56, 0, 57, 0, 49, 48, 0];
    once + once
}

/// The published desktop viewports: ten at the origin, ten at x = 1920.
pub open spec fn rtde_viewports() -> Seq<i64> {
    Seq::new(40, |i: int| if i >= 20 && i % 2 == 0 { 1920i64 } else { 0i64 })
}

/// The atoms announced as supported.
pub open spec fn rtde_supported(at: Atoms) -> Seq<u64> {
    seq![
        at.net_active_window,
        at.net_supported,
        at.net_wm_name,
        at.net_wm_check,
        at.net_wm_fullscreen,
        at.net_wm_window_type,
        at.net_wm_window_type_dialog,
        at.net_client_list,
        at.net_wm_state,
        at.net_number_of_desktops,
        at.net_current_desktop,
        at.net_desktop_viewport,
        at.net_desktop_names,
    ]
}

/// The name the window manager gives itself, NUL-terminated.
pub open spec fn rtde_wm_name() -> Seq<u8> {
    seq![114u8, 116, 119, 109, 0]
}

/// Set up the RTDE window manager on a display whose root window, check
/// window and interned atoms are given, for the screens the server reports
/// and the bar window made for each of them (used when the configuration
/// asks for a bar). In order: grab the keys, announce the check window and
/// its name, publish twenty desktops with their names and viewports, then
/// the supported atoms, and select the root window's events.
pub fn rtde_setup(
    config: RtdeConfig,
    root_win: u64,
    wm_check_win: u64,
    atoms: Atoms,
    infos: &Vec<ScreenInfo>,
    bar_wins: &Vec<u64>,
    reqs: &mut Vec<Request>,
) -> (app: RtdeApp)
    requires
        0 < infos@.len(),
        bar_wins@.len() == infos@.len(),
    ensures
        app@ == rtde_initial_state(config, root_win, wm_check_win, atoms, infos@, bar_wins@),
        app@.wf(),
        final(reqs)@.len() == old(reqs)@.len() + config.key_actions@.len() + 9,
        final(reqs)@.subrange(0, (old(reqs)@.len() + config.key_actions@.len()) as int) == old(reqs)@ + crate::setup::grab_reqs(
            config.key_actions@,
        ),
        ({
            let k: int = (old(reqs)@.len() + config.key_actions@.len()) as int;
            let r = final(reqs)@;
            &&& r[k] == (Request::SetProperty { win: wm_check_win, property: atoms.net_wm_check, kind: PropertyKind::Window, value: wm_check_win })
            &&& r[k + 1] matches Request::SetText { win, property, encoding, bytes } && win == wm_check_win
                && property == atoms.net_wm_name && encoding == atoms.utf8string && bytes@ == rtde_wm_name()
            &&& r[k + 2] == (Request::SetProperty { win: root_win, property: atoms.net_wm_check, kind: PropertyKind::Window, value: wm_check_win })
            &&& r[k + 3] == (Request::SetProperty { win: root_win, property: atoms.net_number_of_desktops, kind: PropertyKind::Cardinal, value: 20 })
            &&& r[k + 4] matches Request::SetText { win, property, encoding, bytes } && win == root_win
                && property == atoms.net_desktop_names && encoding == atoms.utf8string && bytes@ == rtde_desktop_names()
            &&& r[k + 5] matches Request::SetSignedList { win, property, values } && win == root_win
                && property == atoms.net_desktop_viewport && values@ == rtde_viewports()
            &&& r[k + 6] matches Request::SetPropertyList { win, property, kind, values } && win == root_win
                && property == atoms.net_supported && kind == PropertyKind::Atom && values@ == rtde_supported(atoms)
            &&& r[k + 7] == (Request::SetRootAttributes { win: root_win })
            &&& r[k + 8] == (Request::SelectInput { win: root_win, mask: EventMask::Root })
        }),
{
    let ghost start = reqs@;
    let ghost c = config;
    // Grab the keys.
    let mut i: usize = 0;
    while i < config.key_actions.len()
        invariant
            c == config,
            i <= config.key_actions@.len(),
            reqs@ == start + crate::setup::grab_reqs(config.key_actions@.take(i as int)),
        decreases config.key_actions@.len() - i,
    {
        let k = &config.key_actions[i];
        reqs.push(Request::GrabKey { keysym: k.keysym, modifiers: k.modifier });
        proof {
            let acts = config.key_actions@;
            assert(crate::setup::grab_reqs(acts.take(i + 1)) =~= crate::setup::grab_reqs(acts.take(i as int)).push(
                Request::GrabKey { keysym: acts[i as int].keysym, modifiers: acts[i as int].modifier },
            ));
        }
        i = i + 1;
    }
    proof {
        assert(config.key_actions@.take(config.key_actions@.len() as int) =~= config.key_actions@);
    }
    let ghost k0 = reqs@.len();
    // Announce the check window.
    reqs.push(Request::SetProperty { win: wm_check_win, property: atoms.net_wm_check, kind: PropertyKind::Window, value: wm_check_win });
    let name: Vec<u8> = vec![114u8, 116, 119, 109, 0];
    proof {
        assert(name@ =~= rtde_wm_name());
    }
    reqs.push(Request::SetText { win: wm_check_win, property: atoms.net_wm_name, encoding: atoms.utf8string, bytes: name });
    reqs.push(Request::SetProperty { win: root_win, property: atoms.net_wm_check, kind: PropertyKind::Window, value: wm_check_win });
    // Publish the desktops.
    reqs.push(Request::SetProperty { win: root_win, property: atoms.net_number_of_desktops, kind: PropertyKind::Cardinal, value: 20 });
    let names: Vec<u8> = vec![
        49u8, 0, 50, 0, 51, 0, 52, 0, 53, 0, 54, 0, 55, 0, 56, 0, 57, 0, 49, 48, 0,
        49u8, 0, 50, 0, 51, 0, 52, 0, 53, 0, 54, 0, 55, 0, 56, 0, 57, 0, 49, 48, 0,
    ];
    proof {
        assert(names@ =~= rtde_desktop_names());
    }
    reqs.push(Request::SetText { win: root_win, property: atoms.net_desktop_names, encoding: atoms.utf8string, bytes: names });
    let mut viewports: Vec<i64> = Vec::new();
    let mut j: usize = 0;
    while j < 40
        invariant
            j <= 40,
            viewports@ == rtde_viewports().take(j as int),
        decreases 40 - j,
    {
        let v: i64 = if j >= 20 && j % 2 == 0 { 1920 } else { 0 };
        viewports.push(v);
        proof {
            assert(viewports@ =~= rtde_viewports().take(j + 1));
        }
        j = j + 1;
    }
    proof {
        assert(rtde_viewports().take(40) =~= rtde_viewports());
    }
    reqs.push(Request::SetSignedList { win: root_win, property: atoms.net_desktop_viewport, values: viewports });
    // The screens, each with its workspaces and bar.
    let mut screens: Vec<RtdeScreen> = Vec::new();
    let mut s: usize = 0;
    while s < infos.len()
        invariant
            c == config,
            s <= infos@.len(),
            bar_wins@.len() == infos@.len(),
            screens@.len() == s,
            screens@.map_values(|x: RtdeScreen| x@) == Seq::new(s as nat, |i: int| reported_screen(infos@[i], c.bar, bar_wins@[i])),
        decreases infos@.len() - s,
    {
        let info = infos[s];
        let ghost before = screens@;
        let ws = new_workspaces();
        let bar = make_bar(config.bar, bar_wins[s]);
        screens.push(RtdeScreen {
            number: info.screen_number as i64,
            x: info.x_org as i64,
            y: info.y_org as i64,
            width: info.width as i64,
            height: info.height as i64,
            workspaces: ws,
            current_workspace: 0,
            status_bar: bar,
        });
        proof {
            let last = screens@.last();
            assert(last@ =~= reported_screen(infos@[s as int], c.bar, bar_wins@[s as int]));
            let sm = screens@.map_values(|x: RtdeScreen| x@);
            assert forall|k: int| 0 <= k < s + 1 implies #[trigger] sm[k] == reported_screen(
                infos@[k],
                c.bar,
                bar_wins@[k],
            ) by {
                if k < s {
                    assert(screens@[k] == before[k]);
                    assert(before.map_values(|x: RtdeScreen| x@)[k] == reported_screen(infos@[k], c.bar, bar_wins@[k]));
                }
            }
            assert(screens@.map_values(|x: RtdeScreen| x@) =~= Seq::new((s + 1) as nat, |i: int| reported_screen(infos@[i], c.bar, bar_wins@[i])));
        }
        s = s + 1;
    }
    // Announce the supported atoms and take over the root window.
    let mut supported: Vec<u64> = Vec::new();
    supported.push(atoms.net_active_window);
    supported.push(atoms.net_supported);
    supported.push(atoms.net_wm_name);
    supported.push(atoms.net_wm_check);
    supported.push(atoms.net_wm_fullscreen);
    supported.push(atoms.net_wm_window_type);
    supported.push(atoms.net_wm_window_type_dialog);
    supported.push(atoms.net_client_list);
    supported.push(atoms.net_wm_state);
    supported.push(atoms.net_number_of_desktops);
    supported.push(atoms.net_current_desktop);
    supported.push(atoms.net_desktop_viewport);
    supported.push(atoms.net_desktop_names);
    proof {
        assert(supported@ =~= rtde_supported(atoms));
    }
    reqs.push(Request::SetPropertyList { win: root_win, property: atoms.net_supported, kind: PropertyKind::Atom, values: supported });
    reqs.push(Request::SetRootAttributes { win: root_win });
    reqs.push(Request::SelectInput { win: root_win, mask: EventMask::Root });
    let app = RtdeApp {
        config,
        screens,
        current_screen: 0,
        current_workspace: 0,
        current_client: None,
        root_win,
        wm_check_win,
        running: true,
        atoms,
    };
    proof {
        assert(app@ =~= rtde_initial_state(c, root_win, wm_check_win, atoms, infos@, bar_wins@));
        assert(reqs@.subrange(0, k0 as int) =~= start + crate::setup::grab_reqs(c.key_actions@));
    }
    app
}

// ---------------------------------------------------------------------------
// Following the screens the server reports
// ---------------------------------------------------------------------------

/// A screen added because the server reports more screens than known: no
/// geometry yet, ten empty workspaces, and an empty bar when bars are drawn.
pub open spec fn added_screen(bar: BarVariant) -> RtdeScreenV {
    RtdeScreenV {
        number: 0,
        x: 0,
        y: 0,
        width: 0,
        height: 0,
        workspaces: rtde_fresh_workspaces(),
        current_workspace: 0,
        status_bar: match bar {
            BarVariant::Bar(_) => Some(StatusBarContainer { height: 0, win: 0 }),
            _ => None,
        },
    }
}

/// A screen after it takes the reported number and geometry and its new bar.
pub open spec fn replaced_screen(sc: RtdeScreenV, info: ScreenInfo, bar: BarVariant, win: u64) -> RtdeScreenV {
    RtdeScreenV {
        number: info.screen_number as i64,
        x: info.x_org as i64,
        y: info.y_org as i64,
        width: info.width as i64,
        height: info.height as i64,
        status_bar: bar_of(bar, win),
        ..sc
    }
}

/// Screen `first` after it takes in the clients of screen `gone`, workspace
/// by workspace, after its own.
pub open spec fn absorbed(first: RtdeScreenV, gone: RtdeScreenV) -> RtdeScreenV {
    RtdeScreenV {
        workspaces: Seq::new(
            first.workspaces.len(),
            |w: int| if w < gone.workspaces.len() {
                WorkspaceV { clients: first.workspaces[w].clients + gone.workspaces[w].clients, ..first.workspaces[w] }
            } else {
                first.workspaces[w]
            },
        ),
        ..first
    }
}

/// Screens after the ones beyond the first `m` are removed, the last first,
/// each handing its clients to the first screen.
pub open spec fn removed_beyond(scs: Seq<RtdeScreenV>, m: int) -> Seq<RtdeScreenV>
    decreases scs.len(),
{
    if scs.len() <= m || scs.len() <= 1 {
        scs
    } else {
        let rest = scs.drop_last();
        removed_beyond(rest.update(0, absorbed(rest[0], scs.last())), m)
    }
}

/// Screens after an update to the reported `infos` with bar windows
/// `bar_wins`: missing screens are added, the first `infos.len()` take the
/// reported geometry and new bars, then the screens beyond are removed.
pub open spec fn rtde_screens_updated(scs: Seq<RtdeScreenV>, infos: Seq<ScreenInfo>, bar: BarVariant, bar_wins: Seq<u64>) -> Seq<
    RtdeScreenV,
> {
    let grown = if scs.len() >= infos.len() {
        scs
    } else {
        scs + Seq::new((infos.len() - scs.len()) as nat, |i: int| added_screen(bar))
    };
    let placed = Seq::new(
        grown.len(),
        |k: int| if k < infos.len() { replaced_screen(grown[k], infos[k], bar, bar_wins[k]) } else { grown[k] },
    );
    removed_beyond(placed, infos.len() as int)
}

/// Every screen has its ten workspaces.
pub open spec fn all_have_workspaces(scs: Seq<RtdeScreenV>) -> bool {
    forall|s: int| 0 <= s < scs.len() ==> (#[trigger] scs[s]).workspaces.len() == RTDE_WORKSPACES
}

/// Removing a screen keeps every screen with its ten workspaces.
proof fn lemma_removed_beyond(scs: Seq<RtdeScreenV>, m: int)
    requires
        all_have_workspaces(scs),
        m >= 1,
        scs.len() >= 1,
    ensures
        all_have_workspaces(removed_beyond(scs, m)),
        removed_beyond(scs, m).len() == if scs.len() <= m { scs.len() as int } else { m },
    decreases scs.len(),
{
    if scs.len() > m && scs.len() > 1 {
        let rest = scs.drop_last();
        let next = rest.update(0, absorbed(rest[0], scs.last()));
        assert(all_have_workspaces(next)) by {
            assert forall|s: int| 0 <= s < next.len() implies (#[trigger] next[s]).workspaces.len() == RTDE_WORKSPACES by {
                assert(scs[s].workspaces.len() == RTDE_WORKSPACES);
            }
        }
        lemma_removed_beyond(next, m);
    }
}

/// The root window was reconfigured (`window` is the root): follow the
/// screens the server reports, `infos`, with `bar_wins` the bar window made
/// for each of them; answer whether the current workspace is to be laid out
/// again (it is then). Other windows change nothing.
pub fn rtde_configure_notify(app: &mut RtdeApp, window: u64, infos: &Vec<ScreenInfo>, bar_wins: &Vec<u64>) -> (arrange: bool)
    requires
        all_have_workspaces(old(app)@.screens),
        window == old(app)@.root_win ==> infos@.len() > 0 && bar_wins@.len() == infos@.len(),
    ensures
        arrange == (window == old(app)@.root_win),
        window == old(app)@.root_win ==> final(app)@ == (RtdeAppV {
            screens: rtde_screens_updated(old(app)@.screens, infos@, old(app)@.config.bar, bar_wins@),
            ..old(app)@
        }),
        window != old(app)@.root_win ==> final(app)@ == old(app)@,
        all_have_workspaces(final(app)@.screens),
{
    if window != app.root_win {
        return false;
    }
    let ghost a = app@;
    let ghost bar = a.config.bar;
    let m = infos.len();
    // Add the missing screens.
    let n = app.screens.len();
    let ghost grown = if a.screens.len() >= m { a.screens } else {
        a.screens + Seq::new((m - a.screens.len()) as nat, |i: int| added_screen(bar))
    };
    while app.screens.len() < m
        invariant
            app@ == (RtdeAppV { screens: app@.screens, ..a }),
            n == a.screens.len(),
            app@.screens.len() <= (if n >= m { n as int } else { m as int }),
            app@.screens.len() >= n,
            forall|k: int| 0 <= k < app@.screens.len() ==> #[trigger] app@.screens[k] == (if k < n { a.screens[k] } else { added_screen(bar) }),
            bar == app.config.bar,
        decreases m - app.screens@.len(),
    {
        let ghost prev = app@.screens;
        let ws = new_workspaces();
        let sb = match app.config.bar {
            BarVariant::Bar(_) => Some(StatusBarContainer { height: 0, win: 0 }),
            _ => None,
        };
        app.screens.push(RtdeScreen { number: 0, x: 0, y: 0, width: 0, height: 0, workspaces: ws, current_workspace: 0, status_bar: sb });
        proof {
            assert(app.screens@.last()@ =~= added_screen(bar));
            assert(app@.screens =~= prev.push(added_screen(bar)));
        }
    }
    proof {
        assert(app@.screens =~= grown);
    }
    // Take the reported numbers, geometry and bars.
    let mut i: usize = 0;
    while i < m
        invariant
            m == infos@.len(),
            bar_wins@.len() == m,
            grown.len() >= m,
            app@.screens.len() == grown.len(),
            i <= m,
            app@ == (RtdeAppV { screens: app@.screens, ..a }),
            bar == app.config.bar,
            forall|k: int| 0 <= k < grown.len() ==> #[trigger] app@.screens[k] == (if k < i {
                replaced_screen(grown[k], infos@[k], bar, bar_wins@[k])
            } else {
                grown[k]
            }),
        decreases m - i,
    {
        let info = infos[i];
        let sb = make_bar(app.config.bar, bar_wins[i]);
        let ghost before = app@.screens;
        let ghost bs = app.screens@[i as int];
        app.screens[i].number = info.screen_number as i64;
        app.screens[i].x = info.x_org as i64;
        app.screens[i].y = info.y_org as i64;
        app.screens[i].width = info.width as i64;
        app.screens[i].height = info.height as i64;
        app.screens[i].status_bar = sb;
        proof {
            assert(before[i as int] == bs@);
            assert(app.screens@[i as int].workspaces == bs.workspaces);
            assert(app@.screens[i as int] == app.screens@[i as int]@);
            assert(app@.screens[i as int] =~= replaced_screen(grown[i as int], infos@[i as int], bar, bar_wins@[i as int]));
            assert forall|k: int| 0 <= k < grown.len() && k != i implies #[trigger] app@.screens[k] == before[k] by {}
        }
        i = i + 1;
    }
    let ghost placed = app@.screens;
    proof {
        assert(placed =~= Seq::new(
            grown.len(),
            |k: int| if k < infos@.len() { replaced_screen(grown[k], infos@[k], bar, bar_wins@[k]) } else { grown[k] },
        ));
        assert(all_have_workspaces(placed)) by {
            assert forall|s: int| 0 <= s < placed.len() implies (#[trigger] placed[s]).workspaces.len() == RTDE_WORKSPACES by {
                if s < n {
                    assert(a.screens[s].workspaces.len() == RTDE_WORKSPACES);
                }
            }
        }
    }
    // Remove the screens beyond the report; screen 0 takes their clients.
    while app.screens.len() > m
        invariant
            0 < m,
            app@ == (RtdeAppV { screens: app@.screens, ..a }),
            app@.screens.len() >= 1,
            all_have_workspaces(app@.screens),
            removed_beyond(app@.screens, m as int) == removed_beyond(placed, m as int),
        decreases app.screens@.len(),
    {
        let ghost before = app@.screens;
        let mut gone = app.screens.pop().unwrap();
        let ghost gv = gone@;
        let ghost rest = app@.screens;
        proof {
            assert(rest =~= before.drop_last());
            assert(gv == before.last());
            assert(rest[0].workspaces.len() == RTDE_WORKSPACES);
            assert(gv.workspaces.len() == RTDE_WORKSPACES);
        }
        let nw = gone.workspaces.len();
        let mut j: usize = 0;
        while j < nw
            invariant
                rest.len() >= 1,
                rest[0].workspaces.len() == RTDE_WORKSPACES,
                nw == gv.workspaces.len(),
                nw == RTDE_WORKSPACES,
                j <= nw,
                app@ == (RtdeAppV { screens: app@.screens, ..a }),
                app@.screens.len() == rest.len(),
                forall|k: int| 1 <= k < rest.len() ==> #[trigger] app@.screens[k] == rest[k],
                app@.screens[0] == (RtdeScreenV {
                    workspaces: Seq::new(
                        rest[0].workspaces.len(),
                        |w: int| if w < j {
                            WorkspaceV { clients: rest[0].workspaces[w].clients + gv.workspaces[w].clients, ..rest[0].workspaces[w] }
                        } else {
                            rest[0].workspaces[w]
                        },
                    ),
                    ..rest[0]
                }),
                gone.workspaces@.len() == nw,
                forall|k: int| j <= k < nw ==> #[trigger] gone.workspaces@[k].clients@ == gv.workspaces[k].clients,
            decreases nw - j,
        {
            let ghost b2 = app@.screens;
            let ghost s0 = app.screens@[0];
            proof {
                assert(app@.screens[0] == s0@);
                assert(s0@.workspaces.len() == RTDE_WORKSPACES);
                assert(s0.workspaces@.len() == RTDE_WORKSPACES);
            }
            app.screens[0].workspaces[j].clients.append(&mut gone.workspaces[j].clients);
            proof {
                let s1 = app.screens@[0];
                assert(app@.screens[0] == s1@);
                assert(s1.workspaces@.len() == s0.workspaces@.len());
                assert forall|w: int| 0 <= w < s1.workspaces@.len() && w != j implies #[trigger] s1.workspaces@[w] == s0.workspaces@[w] by {}
                assert(s1.workspaces@[j as int].clients@ == s0.workspaces@[j as int].clients@ + gv.workspaces[j as int].clients);
                let target = RtdeScreenV {
                    workspaces: Seq::new(
                        rest[0].workspaces.len(),
                        |w: int| if w < j + 1 {
                            WorkspaceV { clients: rest[0].workspaces[w].clients + gv.workspaces[w].clients, ..rest[0].workspaces[w] }
                        } else {
                            rest[0].workspaces[w]
                        },
                    ),
                    ..rest[0]
                };
                assert forall|w: int| 0 <= w < RTDE_WORKSPACES implies #[trigger] app@.screens[0].workspaces[w] == target.workspaces[w] by {
                    assert(app@.screens[0].workspaces[w] == s1.workspaces@[w]@);
                    assert(s0@.workspaces[w] == s0.workspaces@[w]@);
                    if w == j {
                        assert(app@.screens[0].workspaces[w] =~= target.workspaces[w]);
                    }
                }
                assert(app@.screens[0].workspaces =~= target.workspaces);
                assert(app@.screens[0] =~= target);
                assert forall|k: int| 1 <= k < rest.len() implies #[trigger] app@.screens[k] == rest[k] by {
                    assert(app@.screens[k] == b2[k]);
                }
            }
            j = j + 1;
        }
        proof {
            assert(app@.screens[0] =~= absorbed(rest[0], gv));
            assert(app@.screens =~= rest.update(0, absorbed(rest[0], gv)));
            assert(all_have_workspaces(app@.screens)) by {
                assert forall|s: int| 0 <= s < app@.screens.len() implies (#[trigger] app@.screens[s]).workspaces.len() == RTDE_WORKSPACES by {
                    assert(before[s].workspaces.len() == RTDE_WORKSPACES);
                }
            }
        }
    }
    proof {
        lemma_removed_beyond(app@.screens, m as int);
        lemma_removed_beyond(placed, m as int);
        assert(app@.screens == removed_beyond(app@.screens, m as int));
    }
    true
}

// ---------------------------------------------------------------------------
// Managing a window
// ---------------------------------------------------------------------------

/// Position `(s, w, c)` holds a client.
pub open spec fn rtde_valid(scs: Seq<RtdeScreenV>, p: (int, int, int)) -> bool {
    0 <= p.0 < scs.len() && 0 <= p.1 < scs[p.0].workspaces.len() && 0 <= p.2 < scs[p.0].workspaces[p.1].clients.len()
}

/// The client at a valid position.
pub open spec fn rtde_client(scs: Seq<RtdeScreenV>, p: (int, int, int)) -> Client {
    scs[p.0].workspaces[p.1].clients[p.2]
}

/// Position `q` comes before position `p` (screen, then workspace, then client).
pub open spec fn before_pos(q: (int, int, int), p: (int, int, int)) -> bool {
    q.0 < p.0 || (q.0 == p.0 && (q.1 < p.1 || (q.1 == p.1 && q.2 < p.2)))
}

/// `p` is the first position of a client of window `win`.
pub open spec fn first_of(scs: Seq<RtdeScreenV>, win: u64, p: (int, int, int)) -> bool {
    &&& rtde_valid(scs, p)
    &&& rtde_client(scs, p).window_id == win
    &&& forall|q: (int, int, int)| rtde_valid(scs, q) && before_pos(q, p) ==> #[trigger] rtde_client(scs, q).window_id != win
}

/// Screens after the first client of `win`, if any, is renamed `name`.
pub open spec fn renamed(scs: Seq<RtdeScreenV>, win: u64, name: String) -> Seq<RtdeScreenV> {
    if exists|p: (int, int, int)| first_of(scs, win, p) {
        let p = choose|p: (int, int, int)| first_of(scs, win, p);
        let sc = scs[p.0];
        let ws = sc.workspaces[p.1];
        let cl = ws.clients[p.2];
        scs.update(
            p.0,
            RtdeScreenV {
                workspaces: sc.workspaces.update(p.1, WorkspaceV { clients: ws.clients.update(p.2, Client { window_name: name, ..cl }), ..ws }),
                ..sc
            },
        )
    } else {
        scs
    }
}

/// Find the first client of window `win`.
pub fn rtde_find_window_indexes(app: &RtdeApp, win: u64) -> (r: Option<(usize, usize, usize)>)
    ensures
        match r {
            Some((s, w, c)) => first_of(app@.screens, win, (s as int, w as int, c as int)),
            None => forall|p: (int, int, int)| rtde_valid(app@.screens, p) ==> #[trigger] rtde_client(app@.screens, p).window_id != win,
        },
{
    proof {
        assert(app@.screens == screens_view(app.screens@));
    }
    find_in(&app.screens, win)
}

/// The model of a sequence of screens.
pub open spec fn screens_view(v: Seq<RtdeScreen>) -> Seq<RtdeScreenV> {
    v.map_values(|x: RtdeScreen| x@)
}

/// Find the first client of window `win` on screens `screens`.
pub fn find_in(screens: &Vec<RtdeScreen>, win: u64) -> (r: Option<(usize, usize, usize)>)
    ensures
        match r {
            Some((s, w, c)) => first_of(screens_view(screens@), win, (s as int, w as int, c as int)),
            None => forall|p: (int, int, int)| rtde_valid(screens_view(screens@), p) ==> #[trigger] rtde_client(
                screens_view(screens@),
                p,
            ).window_id != win,
        },
{
    let ghost scs = screens_view(screens@);
    let mut s: usize = 0;
    while s < screens.len()
        invariant
            scs == screens_view(screens@),
            s <= scs.len(),
            forall|q: (int, int, int)| rtde_valid(scs, q) && q.0 < s ==> #[trigger] rtde_client(scs, q).window_id != win,
        decreases scs.len() - s,
    {
        let mut w: usize = 0;
        proof {
            assert(scs[s as int] == screens@[s as int]@);
        }
        while w < screens[s].workspaces.len()
            invariant
                scs == screens_view(screens@),
                s < scs.len(),
                w <= scs[s as int].workspaces.len(),
                scs[s as int].workspaces.len() == screens@[s as int].workspaces@.len(),
                forall|q: (int, int, int)| rtde_valid(scs, q) && (q.0 < s || (q.0 == s && q.1 < w)) ==> #[trigger] rtde_client(scs, q).window_id != win,
            decreases scs[s as int].workspaces.len() - w,
        {
            let mut c: usize = 0;
            proof {
                assert(scs[s as int].workspaces[w as int] == screens@[s as int].workspaces@[w as int]@);
            }
            while c < screens[s].workspaces[w].clients.len()
                invariant
                    scs == screens_view(screens@),
                    s < scs.len(),
                    w < scs[s as int].workspaces.len(),
                    scs[s as int].workspaces.len() == screens@[s as int].workspaces@.len(),
                    scs[s as int].workspaces[w as int].clients == screens@[s as int].workspaces@[w as int].clients@,
                    c <= scs[s as int].workspaces[w as int].clients.len(),
                    forall|q: (int, int, int)| rtde_valid(scs, q) && (q.0 < s || (q.0 == s && (q.1 < w || (q.1 == w && q.2 < c))))
                        ==> #[trigger] rtde_client(scs, q).window_id != win,
                decreases scs[s as int].workspaces[w as int].clients.len() - c,
            {
                if screens[s].workspaces[w].clients[c].window_id == win {
                    return Some((s, w, c));
                }
                c = c + 1;
            }
            w = w + 1;
        }
        s = s + 1;
    }
    None
}

/// Rename the first client of window `win`, if any.
fn rename_client(app: &mut RtdeApp, win: u64, name: String)
    ensures
        final(app)@ == (RtdeAppV { screens: renamed(old(app)@.screens, win, name), ..old(app)@ }),
{
    proof {
        assert(app@.screens == screens_view(app.screens@));
    }
    rename_in(&mut app.screens, win, name);
    proof {
        assert(app@.screens == screens_view(app.screens@));
    }
}

/// Rename the first client of window `win` on screens `screens`, if any.
pub fn rename_in(screens: &mut Vec<RtdeScreen>, win: u64, name: String)
    ensures
        screens_view(final(screens)@) == renamed(screens_view(old(screens)@), win, name),
{
    let ghost a = screens_view(screens@);
    match find_in(screens, win) {
        Some((s, w, c)) => {
            let ghost p = (s as int, w as int, c as int);
            let ghost bs = screens@[s as int];
            proof {
                assert(a[s as int] == bs@);
                assert(a[s as int].workspaces[w as int] == bs.workspaces@[w as int]@);
                let pc = choose|p: (int, int, int)| first_of(a, win, p);
                assert(first_of(a, win, pc));
                if pc != p {
                    if before_pos(pc, p) {
                        assert(rtde_client(a, pc).window_id != win);
                    } else {
                        assert(before_pos(p, pc));
                        assert(rtde_client(a, p).window_id != win);
                    }
                }
            }
            screens[s].workspaces[w].clients[c].window_name = name;
            proof {
                let ns = screens@[s as int];
                let v = screens_view(screens@);
                assert(v[s as int] == ns@);
                assert forall|k: int| 0 <= k < ns.workspaces@.len() && k != w implies #[trigger] ns.workspaces@[k] == bs.workspaces@[k] by {}
                assert(ns@.workspaces =~= a[s as int].workspaces.update(
                    w as int,
                    WorkspaceV {
                        clients: a[s as int].workspaces[w as int].clients.update(
                            c as int,
                            Client { window_name: name, ..a[s as int].workspaces[w as int].clients[c as int] },
                        ),
                        ..a[s as int].workspaces[w as int]
                    },
                ));
                assert forall|k: int| 0 <= k < v.len() && k != s implies #[trigger] v[k] == a[k] by {}
                assert(v =~= renamed(a, win, name));
            }
        },
        None => {
            proof {
                assert(!exists|p: (int, int, int)| first_of(a, win, p));
            }
        },
    }
}

/// What the server tells about a window that asks to be managed.
#[derive(Debug)]
pub struct RtdeWindowFacts {
    /// Its attributes, when they could be read.
    pub attributes: Option<WindowAttributes>,
    /// First atom of its `_NET_WM_WINDOW_TYPE` (0 if none).
    pub window_type: u64,
    /// First atom of its `_NET_WM_STATE` (0 if none).
    pub state: u64,
    /// The window it is transient for (0 if none).
    pub transient_for: u64,
    /// Its `WM_NORMAL_HINTS`, when set.
    pub hints: Option<SizeHints>,
    /// Its `_NET_WM_NAME`, when it could be read.
    pub name: Option<String>,
}

/// The name a client gets when its own cannot be read.
pub open spec fn unreadable_name() -> Seq<char> {
    seq!['W', 'H', 'A', 'T', ' ', 'T', 'H', 'E', ' ', 'F', 'U', 'C', 'K']
}

/// The name stored for a client: its own, or the placeholder.
pub open spec fn stored_name(name: Option<String>, fallback: String) -> String {
    match name {
        Some(n) => n,
        None => fallback,
    }
}

/// Height of the current screen's bar (0 without one), as a pixel offset.
pub open spec fn bar_offset(a: RtdeAppV) -> i32 {
    match a.screens[a.current_screen as int].status_bar {
        Some(b) => b.height as i32,
        None => 0,
    }
}

/// The client made for a new window: its attributes' geometry moved below
/// the current screen's bar, visible, fullscreen when its state says so,
/// floating when fullscreen or a dialog, its size hints applied, and then
/// floating when of fixed size or transient.
pub open spec fn rtde_made_client(a: RtdeAppV, win: u64, wa: WindowAttributes, f: RtdeWindowFacts, blank: String) -> Client {
    let fs = f.state == a.atoms.net_wm_fullscreen;
    let c0 = Client {
        window_id: win,
        window_name: blank,
        x: wa.x as i32,
        y: (wa.y as int + bar_offset(a) as int) as i32,
        w: wa.width as u32,
        h: wa.height as u32,
        ow: 0,
        oh: 0,
        border: 0,
        visible: true,
        floating: fs || f.window_type == a.atoms.net_wm_window_type_dialog,
        fullscreen: fs,
        fixed: false,
        urgent: false,
        minw: 0,
        minh: 0,
        maxw: 0,
        maxh: 0,
    };
    let c1 = hinted(c0, f.hints);
    if !c1.floating {
        Client { floating: c1.fixed || f.transient_for != 0, ..c1 }
    } else {
        c1
    }
}

/// The pixel of a colour, as sent.
pub open spec fn pixel_of(c: Color) -> u64 {
    pixel(c) as u64
}

/// Whether `manage_client` can take the window: its attributes were read
/// and it does not ask to be left alone.
pub open spec fn rtde_manageable(f: RtdeWindowFacts) -> bool {
    f.attributes matches Some(wa) && !wa.override_redirect
}

/// State and requests of managing window `win` (besides the stored name):
/// a manageable window gets the client events selected; unless it is a dock,
/// the focused client (if any) gets the normal border, the new client goes on
/// top of the current workspace's stack and is focused there, the client
/// list and its desktop are published, it gets the configured border width
/// and the active border colour, is raised and takes the input focus; then
/// it is mapped.
pub open spec fn rtde_manage_spec(a: RtdeAppV, win: u64, f: RtdeWindowFacts, fallback: String, blank: String) -> (RtdeAppV, Seq<Request>) {
    match f.attributes {
        Some(wa) => if wa.override_redirect {
            (a, Seq::empty())
        } else if f.window_type == a.atoms.net_wm_window_type_dock {
            (a, seq![Request::SelectInput { win, mask: EventMask::Client }, Request::MapWindow { win }])
        } else {
            let cs = a.current_screen as int;
            let cw = a.current_workspace as int;
            let sc = a.screens[cs];
            let ws = sc.workspaces[cw];
            let unfocus = match a.current_client {
                Some(i) => seq![Request::SetBorderColor { win: ws.clients[i as int].window_id, pixel: pixel_of(a.config.visuals.normal_border_color) }],
                None => Seq::empty(),
            };
            let n = ws.clients.len();
            let ws2 = WorkspaceV { clients: ws.clients.push(rtde_made_client(a, win, wa, f, blank)), current_client: Some(n as usize), ..ws };
            let scs = a.screens.update(cs, RtdeScreenV { workspaces: sc.workspaces.update(cw, ws2), ..sc });
            let a2 = RtdeAppV { screens: renamed(scs, win, stored_name(f.name, fallback)), current_client: Some(n as usize), ..a };
            let reqs = seq![Request::SelectInput { win, mask: EventMask::Client }] + unfocus + seq![
                Request::AppendProperty { win: a.root_win, property: a.atoms.net_client_list, kind: PropertyKind::Window, value: win },
                Request::SetProperty {
                    win,
                    property: a.atoms.net_wm_desktop,
                    kind: PropertyKind::Cardinal,
                    value: (a.current_workspace + a.current_screen * 10) as u64,
                },
                Request::SetConfiguredBorder { win, width: a.config.visuals.border_size as i32 },
                Request::SetBorderColor { win, pixel: pixel_of(a.config.visuals.active_border_color) },
                Request::Raise { win },
                Request::Focus { win },
                Request::MapWindow { win },
            ];
            (a2, reqs)
        },
        None => (a, Seq::empty()),
    }
}

/// What `rtde_manage_client` needs: the trackers point at an existing
/// client or none, the screen count keeps the desktop number in range, and
/// the new client's top edge fits in pixels.
pub open spec fn rtde_manage_ok(a: RtdeAppV, f: RtdeWindowFacts) -> bool {
    &&& a.wf()
    &&& a.screens.len() <= 0x1000_0000
    &&& (a.current_client matches Some(i) ==> i < a.screens[a.current_screen as int].workspaces[a.current_workspace as int].clients.len())
    &&& (f.attributes matches Some(wa) ==> i32::MIN <= wa.y as int + bar_offset(a) as int <= i32::MAX)
}

/// Manage window `win`, given what the server tells about it (see
/// `rtde_manage_spec`): the client is stored with its own name, or the
/// placeholder when it cannot be read. Answers whether the current workspace
/// is to be laid out again (after the requests are sent): when a client was
/// added.
pub fn rtde_manage_client(app: &mut RtdeApp, win: u64, facts: RtdeWindowFacts, reqs: &mut Vec<Request>) -> (arrange: bool)
    requires
        rtde_manage_ok(old(app)@, facts),
    ensures
        exists|fallback: String, blank: String|
            fallback@ == unreadable_name() && blank@ == Seq::<char>::empty() && final(app)@ == rtde_manage_spec(
                old(app)@,
                win,
                facts,
                fallback,
                blank,
            ).0 && final(reqs)@ == old(reqs)@ + rtde_manage_spec(old(app)@, win, facts, fallback, blank).1,
        arrange == (rtde_manageable(facts) && facts.window_type != old(app)@.atoms.net_wm_window_type_dock),
        final(app)@.wf(),
{
    let ghost a = app@;
    let ghost f = facts;
    let fallback = "WHAT THE FUCK".to_owned();
    let ghost fb = fallback;
    proof {
        reveal_strlit("WHAT THE FUCK");
        assert(fallback@ =~= unreadable_name());
    }
    let blank = String::new();
    let ghost bl = blank;
    let wa = match facts.attributes {
        Some(wa) => wa,
        None => {
            assert(app@ == rtde_manage_spec(a, win, f, fb, bl).0);
            return false;
        },
    };
    if wa.override_redirect {
        assert(reqs@ =~= old(reqs)@ + rtde_manage_spec(a, win, f, fb, bl).1);
        return false;
    }
    reqs.push(Request::SelectInput { win, mask: EventMask::Client });
    if facts.window_type == app.atoms.net_wm_window_type_dock {
        reqs.push(Request::MapWindow { win });
        proof {
            assert(reqs@ =~= old(reqs)@ + rtde_manage_spec(a, win, f, fb, bl).1);
        }
        return false;
    }
    let cs = app.current_screen;
    let cw = app.current_workspace;
    proof {
        assert(a.screens[cs as int] == app.screens@[cs as int]@);
        assert(a.screens[cs as int].workspaces.len() == RTDE_WORKSPACES);
        assert(a.screens[cs as int].workspaces[cw as int] == app.screens@[cs as int].workspaces@[cw as int]@);
    }
    // Make the client.
    let bh: i32 = match app.screens[cs].status_bar {
        Some(b) => b.height as i32,
        None => 0,
    };
    let fs = facts.state == app.atoms.net_wm_fullscreen;
    let mut c = Client {
        window_id: win,
        window_name: blank,
        x: wa.x as i32,
        y: wa.y as i32 + bh,
        w: wa.width as u32,
        h: wa.height as u32,
        ow: 0,
        oh: 0,
        border: 0,
        visible: true,
        floating: fs || facts.window_type == app.atoms.net_wm_window_type_dialog,
        fullscreen: fs,
        fixed: false,
        urgent: false,
        minw: 0,
        minh: 0,
        maxw: 0,
        maxh: 0,
    };
    update_normal_hints(&mut c, facts.hints);
    if !c.floating {
        c.floating = c.fixed || facts.transient_for != 0;
    }
    proof {
        assert(c == rtde_made_client(a, win, wa, f, bl));
    }
    // Unfocus the focused client.
    if let Some(i) = app.current_client {
        let cur = app.screens[cs].workspaces[cw].clients[i].window_id;
        reqs.push(Request::SetBorderColor { win: cur, pixel: argb_to_int(app.config.visuals.normal_border_color) });
    }
    // Put it on top of the current workspace.
    let n = app.screens[cs].workspaces[cw].clients.len();
    let ghost bs = app.screens@[cs as int];
    app.screens[cs].workspaces[cw].current_client = Some(n);
    app.current_client = Some(n);
    app.screens[cs].workspaces[cw].clients.push(c);
    proof {
        let ns = app.screens@[cs as int];
        assert forall|k: int| 0 <= k < ns.workspaces@.len() && k != cw implies #[trigger] ns.workspaces@[k] == bs.workspaces@[k] by {}
        assert(ns@.workspaces =~= a.screens[cs as int].workspaces.update(
            cw as int,
            WorkspaceV {
                clients: a.screens[cs as int].workspaces[cw as int].clients.push(c),
                current_client: Some(n),
                ..a.screens[cs as int].workspaces[cw as int]
            },
        ));
        assert forall|k: int| 0 <= k < app@.screens.len() && k != cs implies #[trigger] app@.screens[k] == a.screens[k] by {}
        let sc = a.screens[cs as int];
        let ws = sc.workspaces[cw as int];
        let ws2 = WorkspaceV { clients: ws.clients.push(c), current_client: Some(n), ..ws };
        assert(app@.screens =~= a.screens.update(cs as int, RtdeScreenV { workspaces: sc.workspaces.update(cw as int, ws2), ..sc }));
    }
    let ghost pushed = app@;
    reqs.push(Request::AppendProperty { win: app.root_win, property: app.atoms.net_client_list, kind: PropertyKind::Window, value: win });
    let desk = cw + cs * 10;
    reqs.push(Request::SetProperty { win, property: app.atoms.net_wm_desktop, kind: PropertyKind::Cardinal, value: desk as u64 });
    reqs.push(Request::SetConfiguredBorder { win, width: app.config.visuals.border_size as i32 });
    reqs.push(Request::SetBorderColor { win, pixel: argb_to_int(app.config.visuals.active_border_color) });
    // Store its name.
    let name = match facts.name {
        Some(n) => n,
        None => fallback,
    };
    proof {
        assert(name == stored_name(f.name, fb));
    }
    rename_client(app, win, name);
    reqs.push(Request::Raise { win });
    reqs.push(Request::Focus { win });
    reqs.push(Request::MapWindow { win });
    proof {
        let sp = rtde_manage_spec(a, win, f, fb, bl);
        assert(app@ =~= sp.0);
        assert(reqs@ =~= old(reqs)@ + sp.1);
        assert(app@.wf()) by {
            assert forall|k: int| 0 <= k < app@.screens.len() implies (#[trigger] app@.screens[k]).workspaces.len() == RTDE_WORKSPACES by {
                assert(a.screens[k].workspaces.len() == RTDE_WORKSPACES);
            }
        }
    }
    true
}

} // verus!
