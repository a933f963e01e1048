//! The window manager's data: configuration, runtime state and the
//! abstract (sequence based) model that the contracts speak of.

use vstd::prelude::*;

use crate::config::NUMBER_OF_DESKTOPS;

verus! {

/// A colour as four 8-bit channels.
#[derive(Clone, Copy, PartialEq, Eq, Structural, Debug)]
pub struct Color {
    pub alpha: u8,
    pub red: u8,
    pub green: u8,
    pub blue: u8,
}

/// Direction of a screen switch.
#[derive(Clone, Copy, PartialEq, Eq, Structural, Debug)]
pub enum ScreenSwitching {
    Next,
    Previous,
}

/// What a keyboard shortcut does.
///
/// The master width is a fraction kept in thousandths (500 is one half), so
/// `UpdateMasterWidth(50)` widens the master area by five hundredths.
#[derive(Debug)]
pub enum ActionResult {
    KillClient,
    Spawn(Vec<String>),
    MoveToScreen(ScreenSwitching),
    FocusOnScreen(ScreenSwitching),
    UpdateMasterCapacity(i64),
    UpdateMasterWidth(i64),
    MoveToWorkspace(u64),
    FocusOnWorkspace(u64),
    CycleStack(i64),
    ToggleFloat,
    DumpInfo,
    Quit,
}

/// A keyboard shortcut: key symbol, modifier mask and the action it triggers.
#[derive(Debug)]
pub struct KeyAction {
    pub keysym: u32,
    pub modifier: u32,
    pub result: ActionResult,
}

/// A program started at login, optionally pinned to a (screen, workspace).
#[derive(Debug)]
pub struct AutostartRuleCMD {
    pub cmd: Vec<String>,
    pub rule: Option<(usize, usize)>,
}

/// A permanent placement rule matched against a new window's
/// instance, class and title; `None` in a rule field matches anything.
#[derive(Debug)]
pub struct PlacementRule {
    pub instance: Option<String>,
    pub class: Option<String>,
    pub title: Option<String>,
    pub rule_screen: Option<usize>,
    pub rule_workspace: Option<usize>,
}

/// Key symbols and names of the workspaces of every screen.
#[derive(Debug)]
pub struct DesktopsConfig {
    pub keysyms: [u32; NUMBER_OF_DESKTOPS],
    pub names: Vec<[String; NUMBER_OF_DESKTOPS]>,
}

impl DesktopsConfig {
    /// Desktops without key symbols (all zero) and without names.
    pub fn new() -> (d: DesktopsConfig)
        ensures
            forall|i: int| 0 <= i < NUMBER_OF_DESKTOPS ==> d.keysyms[i] == 0u32,
            d.names@.len() == 0,
    {
        DesktopsConfig { keysyms: [0u32, 0u32, 0u32, 0u32, 0u32, 0u32, 0u32, 0u32, 0u32, 0u32], names: Vec::new() }
    }
}

/// User configuration; it does not change while the window manager runs.
#[derive(Debug)]
pub struct Configuration {
    pub key_actions: Vec<KeyAction>,
    pub gap_width: usize,
    pub border_size: usize,
    pub normal_border_color: Color,
    pub active_border_color: Color,
    pub urgent_border_color: Color,
    pub desktops: DesktopsConfig,
    pub autostart: Vec<AutostartRuleCMD>,
    pub placements: Vec<PlacementRule>,
}

/// Interned X atoms the window manager uses.
#[derive(Clone, Copy, PartialEq, Eq, Structural, Debug)]
pub struct Atoms {
    pub utf8string: u64,
    pub wm_protocols: u64,
    pub wm_delete: u64,
    pub wm_state: u64,
    pub wm_take_focus: u64,
    pub wm_name: u64,
    pub net_active_window: u64,
    pub net_supported: u64,
    pub net_wm_name: u64,
    pub net_wm_state: u64,
    pub net_wm_state_demands_attention: u64,
    pub net_wm_check: u64,
    pub net_wm_fullscreen: u64,
    pub net_wm_window_type: u64,
    pub net_wm_window_type_dialog: u64,
    pub net_wm_window_type_dock: u64,
    pub net_client_list: u64,
    pub net_number_of_desktops: u64,
    pub net_current_desktop: u64,
    pub net_wm_desktop: u64,
    pub net_desktop_names: u64,
    pub net_desktop_viewport: u64,
    pub net_wm_pid: u64,
}

/// Windows of the window manager itself and whether it keeps running.
#[derive(Clone, Copy, PartialEq, Eq, Structural, Debug)]
pub struct WmCore {
    pub root_win: u64,
    pub wm_check_win: u64,
    pub running: bool,
}

/// A spawned program whose first window goes to a fixed place.
#[derive(Clone, Copy, PartialEq, Eq, Structural, Debug)]
pub struct AutostartRulePID {
    pub pid: i32,
    pub screen: usize,
    pub workspace: usize,
}

/// Space taken by docks at each side of a screen.
#[derive(Clone, Copy, PartialEq, Eq, Structural, Debug)]
pub struct BarOffsets {
    pub left: usize,
    pub up: usize,
    pub right: usize,
    pub down: usize,
}

impl BarOffsets {
    /// No dock on any side.
    pub fn zero() -> (b: BarOffsets)
        ensures
            b == (BarOffsets { left: 0, up: 0, right: 0, down: 0 }),
    {
        BarOffsets { left: 0, up: 0, right: 0, down: 0 }
    }
}

/// A dock window and its geometry.
#[derive(Clone, Copy, PartialEq, Eq, Structural, Debug)]
pub struct Bar {
    pub window_id: u64,
    pub x: i64,
    pub y: i64,
    pub w: usize,
    pub h: usize,
}

/// Window being dragged with the mouse, the button held and the last pointer position.
#[derive(Clone, Copy, Debug)]
pub struct MouseState {
    pub win: u64,
    pub button: u32,
    pub pos: (i64, i64),
}

/// A managed window.
#[derive(Debug)]
pub struct Client {
    pub window_id: u64,
    pub window_name: String,
    pub x: i32,
    pub y: i32,
    pub w: u32,
    pub h: u32,
    pub ow: u32,
    pub oh: u32,
    pub border: u32,
    pub visible: bool,
    pub floating: bool,
    pub fullscreen: bool,
    pub fixed: bool,
    pub urgent: bool,
    pub minw: i32,
    pub minh: i32,
    pub maxw: i32,
    pub maxh: i32,
}

/// A workspace (tag) of a screen with its stack of clients.
#[derive(Debug)]
pub struct Workspace {
    pub number: u64,
    pub master_capacity: i64,
    /// Width of the master area in thousandths of the usable width.
    pub master_width: i64,
    pub clients: Vec<Client>,
    pub current_client: Option<usize>,
}

/// A monitor.
#[derive(Debug)]
pub struct Screen {
    pub number: i64,
    pub x: i64,
    pub y: i64,
    pub width: i64,
    pub height: i64,
    pub workspaces: Vec<Workspace>,
    pub current_workspace: usize,
    pub bar_offsets: BarOffsets,
}

/// Everything that changes while the window manager runs.
#[derive(Debug)]
pub struct Runtime {
    pub screens: Vec<Screen>,
    pub current_screen: usize,
    pub current_workspace: usize,
    pub current_client: Option<usize>,
    pub mouse_state: MouseState,
    pub bars: Vec<Bar>,
    pub autostart_rules: Vec<AutostartRulePID>,
}

/// The whole window manager state (the X connection is held by the caller).
#[derive(Debug)]
pub struct Application {
    pub config: Configuration,
    pub core: WmCore,
    pub runtime: Runtime,
    pub atoms: Atoms,
}

// ---------------------------------------------------------------------------
// The abstract model
// ---------------------------------------------------------------------------

/// Model of a workspace.
#[verifier::ext_equal]
pub struct WorkspaceV {
    pub number: u64,
    pub master_capacity: i64,
    pub master_width: i64,
    pub clients: Seq<Client>,
    pub current_client: Option<usize>,
}

/// Model of a screen.
#[verifier::ext_equal]
pub struct ScreenV {
    pub number: i64,
    pub x: i64,
    pub y: i64,
    pub width: i64,
    pub height: i64,
    pub workspaces: Seq<WorkspaceV>,
    pub current_workspace: usize,
    pub bar_offsets: BarOffsets,
}

/// Model of the runtime state.
#[verifier::ext_equal]
pub struct RuntimeV {
    pub screens: Seq<ScreenV>,
    pub current_screen: usize,
    pub current_workspace: usize,
    pub current_client: Option<usize>,
    pub mouse_state: MouseState,
    pub bars: Seq<Bar>,
    pub autostart_rules: Seq<AutostartRulePID>,
}

/// Model of the application.
#[verifier::ext_equal]
pub struct AppV {
    pub config: Configuration,
    pub core: WmCore,
    pub runtime: RuntimeV,
    pub atoms: Atoms,
}

impl View for Workspace {
    type V = WorkspaceV;

    open spec fn view(&self) -> WorkspaceV {
        WorkspaceV {
            number: self.number,
            master_capacity: self.master_capacity,
            master_width: self.master_width,
            clients: self.clients@,
            current_client: self.current_client,
        }
    }
}


impl View for Screen {
    type V = ScreenV;

    open spec fn view(&self) -> ScreenV {
        ScreenV {
            number: self.number,
            x: self.x,
            y: self.y,
            width: self.width,
            height: self.height,
            workspaces: self.workspaces@.map_values(|w: Workspace| w@),
            current_workspace: self.current_workspace,
            bar_offsets: self.bar_offsets,
        }
    }
}

impl View for Runtime {
    type V = RuntimeV;

    open spec fn view(&self) -> RuntimeV {
        RuntimeV {
            screens: self.screens@.map_values(|s: Screen| s@),
            current_screen: self.current_screen,
            current_workspace: self.current_workspace,
            current_client: self.current_client,
            mouse_state: self.mouse_state,
            bars: self.bars@,
            autostart_rules: self.autostart_rules@,
        }
    }
}

impl View for Application {
    type V = AppV;

    open spec fn view(&self) -> AppV {
        AppV { config: self.config, core: self.core, runtime: self.runtime@, atoms: self.atoms }
    }
}

// ---------------------------------------------------------------------------
// Positions and well-formedness
// ---------------------------------------------------------------------------

impl RuntimeV {
    /// The workspace `w` of screen `s`.
    pub open spec fn ws(self, s: int, w: int) -> WorkspaceV {
        self.screens[s].workspaces[w]
    }

    /// The client at position `c` of workspace `w` of screen `s`.
    pub open spec fn client(self, s: int, w: int, c: int) -> Client {
        self.screens[s].workspaces[w].clients[c]
    }

    /// `(s, w)` names an existing workspace.
    pub open spec fn valid_ws(self, s: int, w: int) -> bool {
        0 <= s < self.screens.len() && 0 <= w < self.screens[s].workspaces.len()
    }

    /// `(s, w, c)` names an existing client.
    pub open spec fn valid_pos(self, s: int, w: int, c: int) -> bool {
        self.valid_ws(s, w) && 0 <= c < self.screens[s].workspaces[w].clients.len()
    }

    /// The workspace the trackers point at.
    pub open spec fn cur_ws(self) -> WorkspaceV {
        self.ws(self.current_screen as int, self.current_workspace as int)
    }

    /// The global client tracker points into the current workspace (or is `None`).
    pub open spec fn current_client_ok(self) -> bool {
        match self.current_client {
            Some(i) => i < self.cur_ws().clients.len(),
            None => true,
        }
    }

    /// Number of clients over all screens and workspaces.
    pub open spec fn client_count(self) -> int {
        screens_client_count(self.screens)
    }
}

/// Number of clients in a sequence of workspaces.
pub open spec fn ws_client_count(wss: Seq<WorkspaceV>) -> int
    decreases wss.len(),
{
    if wss.len() == 0 {
        0
    } else {
        ws_client_count(wss.drop_last()) + wss.last().clients.len()
    }
}

/// Number of clients in a sequence of screens.
pub open spec fn screens_client_count(scs: Seq<ScreenV>) -> int
    decreases scs.len(),
{
    if scs.len() == 0 {
        0
    } else {
        screens_client_count(scs.drop_last()) + ws_client_count(scs.last().workspaces)
    }
}

/// Range of a 16-bit signed protocol value.
pub open spec fn in_i16(v: i64) -> bool {
    -32768 <= v <= 32767
}

/// A dock's geometry comes from 16-bit protocol values.
pub open spec fn bar_wf(b: Bar) -> bool {
    in_i16(b.x) && in_i16(b.y) && b.w <= 0xFFFF && b.h <= 0xFFFF
}

/// Shape of a workspace: its master width is a fraction between 0 and 1.
pub open spec fn ws_shape_wf(w: WorkspaceV) -> bool {
    0 <= w.master_width <= 1000
}

/// A workspace's own invariant: its shape, and its tracker points at a
/// client (or is `None`).
pub open spec fn workspace_wf(w: WorkspaceV) -> bool {
    &&& (match w.current_client {
        Some(i) => i < w.clients.len(),
        None => true,
    })
    &&& ws_shape_wf(w)
}

/// Dock sizes come from 16-bit protocol values.
pub open spec fn offsets_wf(b: BarOffsets) -> bool {
    b.left <= 0xFFFF && b.up <= 0xFFFF && b.right <= 0xFFFF && b.down <= 0xFFFF
}

/// Shape of a screen: its number is its index, its geometry comes from
/// 16-bit protocol values, it has one workspace per desktop, its workspace
/// tracker is in range and its workspaces have their shape.
pub open spec fn screen_shape_wf(sc: ScreenV, i: int) -> bool {
    &&& sc.number == i
    &&& in_i16(sc.x) && in_i16(sc.y) && in_i16(sc.width) && in_i16(sc.height)
    &&& offsets_wf(sc.bar_offsets)
    &&& sc.workspaces.len() == NUMBER_OF_DESKTOPS
    &&& sc.current_workspace < NUMBER_OF_DESKTOPS
    &&& forall|w: int| 0 <= w < sc.workspaces.len() ==> #[trigger] ws_shape_wf(sc.workspaces[w])
}

/// A screen's own invariant: its shape, and every workspace's invariant.
pub open spec fn screen_wf(sc: ScreenV, i: int) -> bool {
    &&& screen_shape_wf(sc, i)
    &&& forall|w: int| 0 <= w < sc.workspaces.len() ==> #[trigger] workspace_wf(sc.workspaces[w])
}

impl RuntimeV {
    /// Shape of the runtime state: everything of the invariant except the
    /// workspaces' client trackers.
    pub open spec fn shape_wf(self) -> bool {
        &&& 0 < self.screens.len() < 0x1_0000
        &&& self.current_screen < self.screens.len()
        &&& self.current_workspace < NUMBER_OF_DESKTOPS
        &&& forall|s: int| 0 <= s < self.screens.len() ==> #[trigger] screen_shape_wf(self.screens[s], s)
        &&& -0x8000_0000 <= self.mouse_state.pos.0 < 0x8000_0000
        &&& -0x8000_0000 <= self.mouse_state.pos.1 < 0x8000_0000
        &&& forall|b: int| 0 <= b < self.bars.len() ==> #[trigger] bar_wf(self.bars[b])
        &&& self.client_count() < 0x8000_0000
    }

    /// Structural invariant of the runtime state.
    pub open spec fn wf(self) -> bool {
        &&& self.shape_wf()
        &&& forall|s: int| 0 <= s < self.screens.len() ==> #[trigger] screen_wf(self.screens[s], s)
    }
}

impl AppV {
    /// Invariant of the whole state.
    pub open spec fn wf(self) -> bool {
        &&& self.runtime.wf()
        &&& config_wf(self.config)
    }

    /// Shape of the whole state: the invariant except the workspaces'
    /// client trackers.
    pub open spec fn shape_wf(self) -> bool {
        &&& self.runtime.shape_wf()
        &&& config_wf(self.config)
    }
}

impl RuntimeV {
    /// The state with screen `s` replaced.
    pub open spec fn with_screen(self, s: int, sc: ScreenV) -> RuntimeV {
        RuntimeV { screens: self.screens.update(s, sc), ..self }
    }

    /// The state with workspace `(s, w)` replaced.
    pub open spec fn with_ws(self, s: int, w: int, ws: WorkspaceV) -> RuntimeV {
        self.with_screen(s, ScreenV { workspaces: self.screens[s].workspaces.update(w, ws), ..self.screens[s] })
    }

    /// The state with client `(s, w, c)` replaced.
    pub open spec fn with_client(self, s: int, w: int, c: int, cl: Client) -> RuntimeV {
        self.with_ws(s, w, WorkspaceV { clients: self.ws(s, w).clients.update(c, cl), ..self.ws(s, w) })
    }
}

/// How the model of the runtime reads the vectors it is made of.
pub proof fn lemma_runtime_view(r: &Runtime, s: int, w: int)
    ensures
        r@.screens.len() == r.screens@.len(),
        0 <= s < r.screens@.len() ==> r@.screens[s] == r.screens@[s]@,
        0 <= s < r.screens@.len() ==> r@.screens[s].workspaces.len() == r.screens@[s].workspaces@.len(),
        0 <= s < r.screens@.len() && 0 <= w < r.screens@[s].workspaces@.len() ==> r@.screens[s].workspaces[w]
            == r.screens@[s].workspaces@[w]@,
        0 <= s < r.screens@.len() && 0 <= w < r.screens@[s].workspaces@.len() ==> r@.screens[s].workspaces[w].clients
            == r.screens@[s].workspaces@[w].clients@,
{
}

/// Only client `(s, w, c)` of the runtime changed.
pub open spec fn only_client_changed(r1: Runtime, r2: Runtime, s: int, w: int, c: int) -> bool {
    &&& r2.screens@.len() == r1.screens@.len()
    &&& forall|i: int| 0 <= i < r1.screens@.len() && i != s ==> r2.screens@[i] == r1.screens@[i]
    &&& only_ws_changed_in(r1.screens@[s], r2.screens@[s], w, c)
    &&& r2.current_screen == r1.current_screen
    &&& r2.current_workspace == r1.current_workspace
    &&& r2.current_client == r1.current_client
    &&& r2.mouse_state == r1.mouse_state
    &&& r2.bars == r1.bars
    &&& r2.autostart_rules == r1.autostart_rules
}

/// Only client `(w, c)` of the screen changed.
pub open spec fn only_ws_changed_in(s1: Screen, s2: Screen, w: int, c: int) -> bool {
    &&& s2.number == s1.number && s2.x == s1.x && s2.y == s1.y && s2.width == s1.width && s2.height == s1.height
    &&& s2.current_workspace == s1.current_workspace && s2.bar_offsets == s1.bar_offsets
    &&& s2.workspaces@.len() == s1.workspaces@.len()
    &&& forall|j: int| 0 <= j < s1.workspaces@.len() && j != w ==> s2.workspaces@[j] == s1.workspaces@[j]
    &&& s2.workspaces@[w].number == s1.workspaces@[w].number
    &&& s2.workspaces@[w].master_capacity == s1.workspaces@[w].master_capacity
    &&& s2.workspaces@[w].master_width == s1.workspaces@[w].master_width
    &&& s2.workspaces@[w].current_client == s1.workspaces@[w].current_client
    &&& s2.workspaces@[w].clients@.len() == s1.workspaces@[w].clients@.len()
    &&& forall|k: int| 0 <= k < s1.workspaces@[w].clients@.len() && k != c
        ==> s2.workspaces@[w].clients@[k] == s1.workspaces@[w].clients@[k]
}

/// When only client `(s, w, c)` changed, the model changed at that client only.
pub proof fn lemma_client_changed(r1: Runtime, r2: Runtime, s: int, w: int, c: int)
    requires
        r1@.valid_pos(s, w, c),
        only_client_changed(r1, r2, s, w, c),
    ensures
        r2@ == r1@.with_client(s, w, c, r2.screens@[s].workspaces@[w].clients@[c]),
{
    let t = r1@.with_client(s, w, c, r2.screens@[s].workspaces@[w].clients@[c]);
    assert(r2@.screens[s].workspaces[w].clients =~= t.screens[s].workspaces[w].clients);
    assert(r2@.screens[s].workspaces =~= t.screens[s].workspaces);
    assert(r2@.screens =~= t.screens);
    assert(r2@ =~= t);
}

/// Only workspace `(s, w)` of the runtime changed.
pub open spec fn only_ws_changed(r1: Runtime, r2: Runtime, s: int, w: int) -> bool {
    &&& r2.screens@.len() == r1.screens@.len()
    &&& forall|i: int| 0 <= i < r1.screens@.len() && i != s ==> r2.screens@[i] == r1.screens@[i]
    &&& {
        let s1 = r1.screens@[s];
        let s2 = r2.screens@[s];
        &&& s2.number == s1.number && s2.x == s1.x && s2.y == s1.y && s2.width == s1.width && s2.height == s1.height
        &&& s2.current_workspace == s1.current_workspace && s2.bar_offsets == s1.bar_offsets
        &&& s2.workspaces@.len() == s1.workspaces@.len()
        &&& forall|j: int| 0 <= j < s1.workspaces@.len() && j != w ==> s2.workspaces@[j] == s1.workspaces@[j]
    }
    &&& r2.current_screen == r1.current_screen
    &&& r2.current_workspace == r1.current_workspace
    &&& r2.current_client == r1.current_client
    &&& r2.mouse_state == r1.mouse_state
    &&& r2.bars == r1.bars
    &&& r2.autostart_rules == r1.autostart_rules
}

/// When only workspace `(s, w)` changed, the model changed at that workspace only.
pub proof fn lemma_ws_changed(r1: Runtime, r2: Runtime, s: int, w: int)
    requires
        r1@.valid_ws(s, w),
        only_ws_changed(r1, r2, s, w),
    ensures
        r2@ == r1@.with_ws(s, w, r2.screens@[s].workspaces@[w]@),
{
    let t = r1@.with_ws(s, w, r2.screens@[s].workspaces@[w]@);
    assert(r2@.screens[s].workspaces =~= t.screens[s].workspaces);
    assert(r2@.screens =~= t.screens);
    assert(r2@ =~= t);
}

/// Only screen `s` of the runtime changed (the other runtime fields did not).
pub open spec fn only_screen_changed(r1: Runtime, r2: Runtime, s: int) -> bool {
    &&& r2.screens@.len() == r1.screens@.len()
    &&& forall|i: int| 0 <= i < r1.screens@.len() && i != s ==> r2.screens@[i] == r1.screens@[i]
}

/// When only screen `s` changed among the screens, the model's screens
/// changed at `s` only.
pub proof fn lemma_screen_changed(r1: Runtime, r2: Runtime, s: int)
    requires
        0 <= s < r1.screens@.len(),
        only_screen_changed(r1, r2, s),
    ensures
        r2@.screens == r1@.screens.update(s, r2.screens@[s]@),
{
    assert(r2@.screens =~= r1@.screens.update(s, r2.screens@[s]@));
}

/// The configuration's sizes are 16-bit pixel values.
pub open spec fn config_wf(c: Configuration) -> bool {
    c.gap_width <= 0xFFFF && c.border_size <= 0xFFFF
}

/// Screens that agree on everything their invariant looks at.
pub open spec fn screen_same_frame(s1: ScreenV, s2: ScreenV) -> bool {
    &&& s1.number == s2.number && s1.x == s2.x && s1.y == s2.y && s1.width == s2.width && s1.height == s2.height
    &&& s1.bar_offsets == s2.bar_offsets && s1.current_workspace == s2.current_workspace
    &&& s1.workspaces.len() == s2.workspaces.len()
    &&& forall|w: int| 0 <= w < s1.workspaces.len() ==> #[trigger] ws_same_frame(s1.workspaces[w], s2.workspaces[w])
}

/// Workspaces that agree on everything their invariant looks at.
pub open spec fn ws_same_frame(w1: WorkspaceV, w2: WorkspaceV) -> bool {
    w1.master_width == w2.master_width && w1.current_client == w2.current_client && w1.clients.len() == w2.clients.len()
}

/// Screens that agree on what their invariant looks at are alike well-formed.
pub proof fn lemma_screen_frame(s1: ScreenV, s2: ScreenV, i: int)
    requires
        screen_same_frame(s1, s2),
    ensures
        screen_shape_wf(s1, i) ==> screen_shape_wf(s2, i),
        screen_wf(s1, i) ==> screen_wf(s2, i),
{
    if screen_shape_wf(s1, i) {
        assert forall|w: int| 0 <= w < s2.workspaces.len() implies #[trigger] ws_shape_wf(s2.workspaces[w]) by {
            assert(ws_same_frame(s1.workspaces[w], s2.workspaces[w]));
            assert(ws_shape_wf(s1.workspaces[w]));
        }
    }
    if screen_wf(s1, i) {
        assert forall|w: int| 0 <= w < s2.workspaces.len() implies #[trigger] workspace_wf(s2.workspaces[w]) by {
            assert(ws_same_frame(s1.workspaces[w], s2.workspaces[w]));
            assert(workspace_wf(s1.workspaces[w]));
        }
    }
}

/// Replacing workspace `w` of a well-formed screen by a well-formed workspace
/// (with the same master width) keeps the screen well-formed.
pub proof fn lemma_screen_with_ws(sc: ScreenV, i: int, w: int, ws: WorkspaceV)
    requires
        screen_wf(sc, i),
        0 <= w < sc.workspaces.len(),
        workspace_wf(ws),
    ensures
        screen_wf(ScreenV { workspaces: sc.workspaces.update(w, ws), ..sc }, i),
{
    let s2 = ScreenV { workspaces: sc.workspaces.update(w, ws), ..sc };
    assert forall|w2: int| 0 <= w2 < s2.workspaces.len() implies #[trigger] ws_shape_wf(s2.workspaces[w2]) by {
        assert(ws_shape_wf(sc.workspaces[w2]));
    }
    assert forall|w2: int| 0 <= w2 < s2.workspaces.len() implies #[trigger] workspace_wf(s2.workspaces[w2]) by {
        assert(workspace_wf(sc.workspaces[w2]));
    }
}

/// Replacing a workspace by one that keeps its own invariant keeps the invariant.
pub proof fn lemma_with_ws_wf(rt: RuntimeV, s: int, w: int, ws: WorkspaceV)
    requires
        rt.wf(),
        rt.valid_ws(s, w),
        workspace_wf(ws),
        rt.client_count() - rt.ws(s, w).clients.len() + ws.clients.len() < 0x8000_0000,
    ensures
        rt.with_ws(s, w, ws).wf(),
        rt.with_ws(s, w, ws).client_count() == rt.client_count() - rt.ws(s, w).clients.len() + ws.clients.len(),
{
    lemma_count_with_ws(rt, s, w, ws);
    let r = rt.with_ws(s, w, ws);
    assert(screen_wf(rt.screens[s], s));
    lemma_screen_with_ws(rt.screens[s], s, w, ws);
    assert forall|s2: int| 0 <= s2 < r.screens.len() implies #[trigger] screen_wf(r.screens[s2], s2) by {
        assert(screen_wf(rt.screens[s2], s2));
    }
    assert forall|s2: int| 0 <= s2 < r.screens.len() implies #[trigger] screen_shape_wf(r.screens[s2], s2) by {
        assert(screen_wf(r.screens[s2], s2));
    }
}

impl RuntimeV {
    /// Every workspace but `(s, w)` keeps its invariant.
    pub open spec fn trackers_ok_except(self, s: int, w: int) -> bool {
        forall|s2: int, w2: int|
            self.valid_ws(s2, w2) && !(s2 == s && w2 == w) ==> #[trigger] workspace_wf(self.screens[s2].workspaces[w2])
    }
}

/// The shape, the invariant of every workspace but `(s, w)` and that of
/// `(s, w)` make the invariant.
pub proof fn lemma_wf_from_parts(rt: RuntimeV, s: int, w: int)
    requires
        rt.shape_wf(),
        rt.trackers_ok_except(s, w),
        rt.valid_ws(s, w) ==> workspace_wf(rt.ws(s, w)),
    ensures
        rt.wf(),
{
    assert forall|s2: int| 0 <= s2 < rt.screens.len() implies #[trigger] screen_wf(rt.screens[s2], s2) by {
        assert(screen_shape_wf(rt.screens[s2], s2));
        assert forall|w2: int| 0 <= w2 < rt.screens[s2].workspaces.len() implies #[trigger] workspace_wf(rt.screens[s2].workspaces[w2]) by {
            if !(s2 == s && w2 == w) {
                assert(rt.valid_ws(s2, w2));
            }
        }
    }
}

/// A well-formed state has every workspace's invariant.
pub proof fn lemma_wf_parts(rt: RuntimeV, s: int, w: int)
    requires
        rt.wf(),
    ensures
        rt.shape_wf(),
        rt.trackers_ok_except(s, w),
        rt.valid_ws(s, w) ==> workspace_wf(rt.ws(s, w)),
{
    assert forall|s2: int, w2: int| rt.valid_ws(s2, w2) && !(s2 == s && w2 == w) implies #[trigger] workspace_wf(rt.screens[s2].workspaces[w2]) by {
        assert(screen_wf(rt.screens[s2], s2));
    }
    if rt.valid_ws(s, w) {
        assert(screen_wf(rt.screens[s], s));
    }
}

/// Replacing workspace `(s, w)` by one of the right shape keeps the shape
/// (within the client limit) and the invariant of the other workspaces.
pub proof fn lemma_with_ws_shape(rt: RuntimeV, s: int, w: int, ws: WorkspaceV, x: int, y: int)
    requires
        rt.shape_wf(),
        rt.valid_ws(s, w),
        ws_shape_wf(ws),
        rt.client_count() - rt.ws(s, w).clients.len() + ws.clients.len() < 0x8000_0000,
    ensures
        rt.with_ws(s, w, ws).shape_wf(),
        rt.with_ws(s, w, ws).client_count() == rt.client_count() - rt.ws(s, w).clients.len() + ws.clients.len(),
        rt.trackers_ok_except(x, y) && (s != x || w != y) && workspace_wf(ws) ==> rt.with_ws(s, w, ws).trackers_ok_except(x, y),
        rt.trackers_ok_except(x, y) && s == x && w == y ==> rt.with_ws(s, w, ws).trackers_ok_except(x, y),
{
    lemma_count_with_ws(rt, s, w, ws);
    let r = rt.with_ws(s, w, ws);
    assert(screen_shape_wf(rt.screens[s], s));
    assert forall|s2: int| 0 <= s2 < r.screens.len() implies #[trigger] screen_shape_wf(r.screens[s2], s2) by {
        assert(screen_shape_wf(rt.screens[s2], s2));
        if s2 == s {
            assert forall|w2: int| 0 <= w2 < r.screens[s2].workspaces.len() implies #[trigger] ws_shape_wf(r.screens[s2].workspaces[w2]) by {
                assert(ws_shape_wf(rt.screens[s2].workspaces[w2]));
            }
        }
    }
    if rt.trackers_ok_except(x, y) && ((s != x || w != y) && workspace_wf(ws) || s == x && w == y) {
        assert forall|s2: int, w2: int| r.valid_ws(s2, w2) && !(s2 == x && w2 == y) implies #[trigger] workspace_wf(r.screens[s2].workspaces[w2]) by {
            assert(rt.valid_ws(s2, w2));
        }
    }
}

/// Replacing a workspace changes its sequence's client count by the change
/// of that workspace's clients.
pub proof fn lemma_ws_count_update(wss: Seq<WorkspaceV>, w: int, ws: WorkspaceV)
    requires
        0 <= w < wss.len(),
    ensures
        ws_client_count(wss.update(w, ws)) == ws_client_count(wss) - wss[w].clients.len() + ws.clients.len(),
        ws_client_count(wss) >= wss[w].clients.len(),
    decreases wss.len(),
{
    let u = wss.update(w, ws);
    if w == wss.len() - 1 {
        assert(u.drop_last() =~= wss.drop_last());
        lemma_ws_count_nonneg(wss.drop_last());
    } else {
        assert(u.drop_last() =~= wss.drop_last().update(w, ws));
        lemma_ws_count_update(wss.drop_last(), w, ws);
    }
}

/// Client counts are not negative.
pub proof fn lemma_ws_count_nonneg(wss: Seq<WorkspaceV>)
    ensures
        ws_client_count(wss) >= 0,
    decreases wss.len(),
{
    if wss.len() > 0 {
        lemma_ws_count_nonneg(wss.drop_last());
    }
}

/// Client counts are not negative.
pub proof fn lemma_screens_count_nonneg(scs: Seq<ScreenV>)
    ensures
        screens_client_count(scs) >= 0,
    decreases scs.len(),
{
    if scs.len() > 0 {
        lemma_screens_count_nonneg(scs.drop_last());
        lemma_ws_count_nonneg(scs.last().workspaces);
    }
}

/// Replacing a screen changes the client count by the change of that
/// screen's client count.
pub proof fn lemma_screens_count_update(scs: Seq<ScreenV>, s: int, sc: ScreenV)
    requires
        0 <= s < scs.len(),
    ensures
        screens_client_count(scs.update(s, sc)) == screens_client_count(scs) - ws_client_count(scs[s].workspaces)
            + ws_client_count(sc.workspaces),
        screens_client_count(scs) >= ws_client_count(scs[s].workspaces),
    decreases scs.len(),
{
    let u = scs.update(s, sc);
    if s == scs.len() - 1 {
        assert(u.drop_last() =~= scs.drop_last());
        lemma_screens_count_nonneg(scs.drop_last());
    } else {
        assert(u.drop_last() =~= scs.drop_last().update(s, sc));
        lemma_screens_count_update(scs.drop_last(), s, sc);
        lemma_ws_count_nonneg(scs.last().workspaces);
    }
}

/// Replacing a workspace changes the total client count by the change of
/// that workspace's clients, and no workspace holds more than the total.
pub proof fn lemma_count_with_ws(rt: RuntimeV, s: int, w: int, ws: WorkspaceV)
    requires
        rt.valid_ws(s, w),
    ensures
        rt.with_ws(s, w, ws).client_count() == rt.client_count() - rt.ws(s, w).clients.len() + ws.clients.len(),
        rt.ws(s, w).clients.len() <= rt.client_count(),
{
    let sc = rt.screens[s];
    let sc2 = ScreenV { workspaces: sc.workspaces.update(w, ws), ..sc };
    lemma_ws_count_update(sc.workspaces, w, ws);
    lemma_screens_count_update(rt.screens, s, sc2);
}

/// Two clients are the same window with the same flags and hints; only
/// geometry, border, visibility and urgency may differ.
pub open spec fn same_identity(c1: Client, c2: Client) -> bool {
    &&& c1.window_id == c2.window_id
    &&& c1.window_name == c2.window_name
    &&& c1.ow == c2.ow && c1.oh == c2.oh
    &&& c1.floating == c2.floating && c1.fullscreen == c2.fullscreen
    &&& c1.fixed == c2.fixed
    &&& c1.minw == c2.minw && c1.minh == c2.minh && c1.maxw == c2.maxw && c1.maxh == c2.maxh
}

/// The two workspaces differ only in their clients' geometry, border, visibility and urgency.
pub open spec fn ws_layout_only(w1: WorkspaceV, w2: WorkspaceV) -> bool {
    &&& w1.number == w2.number && w1.master_capacity == w2.master_capacity
    &&& w1.master_width == w2.master_width && w1.current_client == w2.current_client
    &&& w1.clients.len() == w2.clients.len()
    &&& forall|c: int| 0 <= c < w1.clients.len() ==> #[trigger] same_identity(w1.clients[c], w2.clients[c])
}

/// The two screens differ only in their clients' geometry, border, visibility and urgency.
pub open spec fn screen_layout_only(s1: ScreenV, s2: ScreenV) -> bool {
    &&& s1.number == s2.number && s1.x == s2.x && s1.y == s2.y && s1.width == s2.width && s1.height == s2.height
    &&& s1.current_workspace == s2.current_workspace && s1.bar_offsets == s2.bar_offsets
    &&& s1.workspaces.len() == s2.workspaces.len()
    &&& forall|w: int| 0 <= w < s1.workspaces.len() ==> #[trigger] ws_layout_only(s1.workspaces[w], s2.workspaces[w])
}

/// The two states differ only in their clients' geometry, border, visibility and urgency.
pub open spec fn layout_only(a: AppV, b: AppV) -> bool {
    &&& a.config == b.config && a.core == b.core && a.atoms == b.atoms
    &&& a.runtime.current_screen == b.runtime.current_screen
    &&& a.runtime.current_workspace == b.runtime.current_workspace
    &&& a.runtime.current_client == b.runtime.current_client
    &&& a.runtime.mouse_state == b.runtime.mouse_state
    &&& a.runtime.bars == b.runtime.bars
    &&& a.runtime.autostart_rules == b.runtime.autostart_rules
    &&& a.runtime.screens.len() == b.runtime.screens.len()
    &&& forall|s: int| 0 <= s < a.runtime.screens.len() ==> #[trigger] screen_layout_only(a.runtime.screens[s], b.runtime.screens[s])
}

/// Workspaces of equal sizes hold as many clients.
pub proof fn lemma_ws_count_eq(w1: Seq<WorkspaceV>, w2: Seq<WorkspaceV>)
    requires
        w1.len() == w2.len(),
        forall|w: int| 0 <= w < w1.len() ==> #[trigger] w1[w].clients.len() == w2[w].clients.len(),
    ensures
        ws_client_count(w1) == ws_client_count(w2),
    decreases w1.len(),
{
    if w1.len() > 0 {
        lemma_ws_count_eq(w1.drop_last(), w2.drop_last());
    }
}

/// Screens of equal sizes hold as many clients.
pub proof fn lemma_screens_count_eq(s1: Seq<ScreenV>, s2: Seq<ScreenV>)
    requires
        s1.len() == s2.len(),
        forall|s: int| 0 <= s < s1.len() ==> #[trigger] ws_client_count(s1[s].workspaces) == ws_client_count(s2[s].workspaces),
    ensures
        screens_client_count(s1) == screens_client_count(s2),
    decreases s1.len(),
{
    if s1.len() > 0 {
        lemma_screens_count_eq(s1.drop_last(), s2.drop_last());
    }
}

/// A layout change keeps the client count and the invariant.
pub proof fn lemma_layout_only(a: AppV, b: AppV)
    requires
        layout_only(a, b),
    ensures
        a.runtime.client_count() == b.runtime.client_count(),
        a.wf() ==> b.wf(),
        a.shape_wf() ==> b.shape_wf(),
        layout_only(b, a),
{
    assert forall|s: int| 0 <= s < a.runtime.screens.len() implies #[trigger] ws_client_count(a.runtime.screens[s].workspaces)
        == ws_client_count(b.runtime.screens[s].workspaces) by {
        assert(screen_layout_only(a.runtime.screens[s], b.runtime.screens[s]));
        assert forall|w: int| 0 <= w < a.runtime.screens[s].workspaces.len() implies #[trigger] a.runtime.screens[s].workspaces[w].clients.len()
            == b.runtime.screens[s].workspaces[w].clients.len() by {
            assert(ws_layout_only(a.runtime.screens[s].workspaces[w], b.runtime.screens[s].workspaces[w]));
        }
        lemma_ws_count_eq(a.runtime.screens[s].workspaces, b.runtime.screens[s].workspaces);
    }
    lemma_screens_count_eq(a.runtime.screens, b.runtime.screens);
    assert forall|s: int| 0 <= s < b.runtime.screens.len() implies #[trigger] screen_same_frame(a.runtime.screens[s], b.runtime.screens[s]) by {
        assert(screen_layout_only(a.runtime.screens[s], b.runtime.screens[s]));
        assert forall|w: int| 0 <= w < a.runtime.screens[s].workspaces.len() implies #[trigger] ws_same_frame(a.runtime.screens[s].workspaces[w], b.runtime.screens[s].workspaces[w]) by {
            assert(ws_layout_only(a.runtime.screens[s].workspaces[w], b.runtime.screens[s].workspaces[w]));
        }
    }
    if a.shape_wf() {
        assert forall|s: int| 0 <= s < b.runtime.screens.len() implies #[trigger] screen_shape_wf(b.runtime.screens[s], s) by {
            assert(screen_shape_wf(a.runtime.screens[s], s));
            assert(screen_same_frame(a.runtime.screens[s], b.runtime.screens[s]));
            lemma_screen_frame(a.runtime.screens[s], b.runtime.screens[s], s);
        }
    }
    if a.wf() {
        assert forall|s: int| 0 <= s < b.runtime.screens.len() implies #[trigger] screen_wf(b.runtime.screens[s], s) by {
            assert(screen_wf(a.runtime.screens[s], s));
            assert(screen_same_frame(a.runtime.screens[s], b.runtime.screens[s]));
            lemma_screen_frame(a.runtime.screens[s], b.runtime.screens[s], s);
        }
    }
    assert forall|s: int| 0 <= s < b.runtime.screens.len() implies #[trigger] screen_layout_only(b.runtime.screens[s], a.runtime.screens[s]) by {
        assert(screen_layout_only(a.runtime.screens[s], b.runtime.screens[s]));
        assert forall|w: int| 0 <= w < b.runtime.screens[s].workspaces.len() implies #[trigger] ws_layout_only(b.runtime.screens[s].workspaces[w], a.runtime.screens[s].workspaces[w]) by {
            let w1 = a.runtime.screens[s].workspaces[w];
            let w2 = b.runtime.screens[s].workspaces[w];
            assert(ws_layout_only(w1, w2));
            assert forall|c: int| 0 <= c < w2.clients.len() implies #[trigger] same_identity(w2.clients[c], w1.clients[c]) by {
                assert(same_identity(w1.clients[c], w2.clients[c]));
            }
        }
    }
}

/// A layout change keeps which workspaces have their invariant.
pub proof fn lemma_layout_trackers(a: AppV, b: AppV, s: int, w: int)
    requires
        layout_only(a, b),
        a.runtime.trackers_ok_except(s, w),
    ensures
        b.runtime.trackers_ok_except(s, w),
{
    assert forall|s2: int, w2: int| b.runtime.valid_ws(s2, w2) && !(s2 == s && w2 == w)
        implies #[trigger] workspace_wf(b.runtime.screens[s2].workspaces[w2]) by {
        assert(screen_layout_only(a.runtime.screens[s2], b.runtime.screens[s2]));
        assert(a.runtime.valid_ws(s2, w2));
        assert(ws_layout_only(a.runtime.screens[s2].workspaces[w2], b.runtime.screens[s2].workspaces[w2]));
        assert(workspace_wf(a.runtime.screens[s2].workspaces[w2]));
    }
}

/// Layout changes compose.
pub proof fn lemma_layout_trans(a: AppV, b: AppV, c: AppV)
    requires
        layout_only(a, b),
        layout_only(b, c),
    ensures
        layout_only(a, c),
{
    assert forall|s: int| 0 <= s < a.runtime.screens.len() implies #[trigger] screen_layout_only(a.runtime.screens[s], c.runtime.screens[s]) by {
        assert(screen_layout_only(a.runtime.screens[s], b.runtime.screens[s]));
        assert(screen_layout_only(b.runtime.screens[s], c.runtime.screens[s]));
        assert forall|w: int| 0 <= w < a.runtime.screens[s].workspaces.len() implies #[trigger] ws_layout_only(a.runtime.screens[s].workspaces[w], c.runtime.screens[s].workspaces[w]) by {
            let w1 = a.runtime.screens[s].workspaces[w];
            let w2 = b.runtime.screens[s].workspaces[w];
            let w3 = c.runtime.screens[s].workspaces[w];
            assert(ws_layout_only(w1, w2));
            assert(ws_layout_only(w2, w3));
            assert forall|k: int| 0 <= k < w1.clients.len() implies #[trigger] same_identity(w1.clients[k], w3.clients[k]) by {
                assert(same_identity(w1.clients[k], w2.clients[k]));
                assert(same_identity(w2.clients[k], w3.clients[k]));
            }
        }
    }
}

/// Every state is a layout change of itself.
pub proof fn lemma_layout_refl(a: AppV)
    ensures
        layout_only(a, a),
{
    assert forall|s: int| 0 <= s < a.runtime.screens.len() implies #[trigger] screen_layout_only(a.runtime.screens[s], a.runtime.screens[s]) by {
        assert forall|w: int| 0 <= w < a.runtime.screens[s].workspaces.len() implies #[trigger] ws_layout_only(a.runtime.screens[s].workspaces[w], a.runtime.screens[s].workspaces[w]) by {
            assert forall|c: int| 0 <= c < a.runtime.screens[s].workspaces[w].clients.len() implies #[trigger] same_identity(a.runtime.screens[s].workspaces[w].clients[c], a.runtime.screens[s].workspaces[w].clients[c]) by {}
        }
    }
}

/// Replacing the clients of one workspace by clients of the same identity is a layout change.
pub proof fn lemma_clients_layout(a: AppV, s: int, w: int, cs: Seq<Client>)
    requires
        a.runtime.valid_ws(s, w),
        cs.len() == a.runtime.ws(s, w).clients.len(),
        forall|c: int| 0 <= c < cs.len() ==> #[trigger] same_identity(a.runtime.ws(s, w).clients[c], cs[c]),
    ensures
        layout_only(a, AppV { runtime: a.runtime.with_ws(s, w, WorkspaceV { clients: cs, ..a.runtime.ws(s, w) }), ..a }),
{
    lemma_layout_refl(a);
    let b = AppV { runtime: a.runtime.with_ws(s, w, WorkspaceV { clients: cs, ..a.runtime.ws(s, w) }), ..a };
    assert forall|s2: int| 0 <= s2 < a.runtime.screens.len() implies #[trigger] screen_layout_only(a.runtime.screens[s2], b.runtime.screens[s2]) by {
        assert(screen_layout_only(a.runtime.screens[s2], a.runtime.screens[s2]));
        if s2 == s {
            assert forall|w2: int| 0 <= w2 < a.runtime.screens[s2].workspaces.len() implies #[trigger] ws_layout_only(a.runtime.screens[s2].workspaces[w2], b.runtime.screens[s2].workspaces[w2]) by {
                assert(ws_layout_only(a.runtime.screens[s2].workspaces[w2], a.runtime.screens[s2].workspaces[w2]));
            }
        }
    }
}

} // verus!
