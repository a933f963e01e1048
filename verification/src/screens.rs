//! Screens as the server reports them, and the workspaces on them.

use vstd::prelude::*;

use crate::config::NUMBER_OF_DESKTOPS;
use crate::helper::{update_client_desktop, update_desktop_ewmh_info};
use crate::request::{PropertyKind, Request};
use crate::structs::{
    lemma_runtime_view, lemma_screens_count_update, screen_shape_wf, screen_wf, ws_client_count, ws_shape_wf,
    workspace_wf, AppV, Application, BarOffsets, Client, Configuration, RuntimeV, Screen, ScreenV, Workspace, WorkspaceV,
};
use crate::utils::no_nul;
use vstd::utf8::{encode_utf8, is_ascii_chars, is_ascii_chars_encode_utf8};

verus! {

/// A monitor as Xinerama reports it.
#[derive(Clone, Copy, PartialEq, Eq, Structural, Debug)]
pub struct ScreenInfo {
    pub screen_number: i32,
    pub x_org: i16,
    pub y_org: i16,
    pub width: i16,
    pub height: i16,
}

/// Requests that set the EWMH desktop of each client to `desk`.
pub open spec fn desktop_reqs(cs: Seq<Client>, atom: u64, desk: u64) -> Seq<Request> {
    cs.map_values(|c: Client| Request::SetProperty { win: c.window_id, property: atom, kind: PropertyKind::Cardinal, value: desk })
}

/// Requests for the clients of a removed screen: each client's desktop is
/// set to the index of the workspace it was on, workspace by workspace.
pub open spec fn removed_screen_reqs(wss: Seq<WorkspaceV>, atom: u64) -> Seq<Request>
    decreases wss.len(),
{
    if wss.len() == 0 {
        Seq::empty()
    } else {
        removed_screen_reqs(wss.drop_last(), atom) + desktop_reqs(wss.last().clients, atom, (wss.len() - 1) as u64)
    }
}

/// Screen `first` with the clients of the first `n` workspaces of
/// `removed` put after its own, workspace by workspace.
pub open spec fn absorbed_upto(first: ScreenV, removed: ScreenV, n: int) -> ScreenV {
    ScreenV {
        workspaces: Seq::new(
            first.workspaces.len(),
            |j: int|
                if j < n {
                    WorkspaceV { clients: first.workspaces[j].clients + removed.workspaces[j].clients, ..first.workspaces[j] }
                } else {
                    first.workspaces[j]
                },
        ),
        ..first
    }
}

/// Screens after the last one is removed and its clients moved to the
/// same workspaces of screen 0.
pub open spec fn pop_screen(scs: Seq<ScreenV>) -> Seq<ScreenV> {
    let rest = scs.drop_last();
    rest.update(0, absorbed_upto(rest[0], scs.last(), scs.last().workspaces.len() as int))
}

/// Screens after the screens from index `m` on are removed, the last first.
pub open spec fn shrunk(scs: Seq<ScreenV>, m: int) -> Seq<ScreenV>
    decreases scs.len(),
{
    if scs.len() <= m || m <= 0 {
        scs
    } else {
        shrunk(pop_screen(scs), m)
    }
}

/// Requests sent while the screens from index `m` on are removed.
pub open spec fn shrink_reqs(scs: Seq<ScreenV>, m: int, atom: u64) -> Seq<Request>
    decreases scs.len(),
{
    if scs.len() <= m || m <= 0 {
        Seq::empty()
    } else {
        removed_screen_reqs(scs.last().workspaces, atom) + shrink_reqs(pop_screen(scs), m, atom)
    }
}

/// A screen just reported: no workspaces yet, no docks.
pub open spec fn fresh_screen() -> ScreenV {
    ScreenV {
        number: 0,
        x: 0,
        y: 0,
        width: 0,
        height: 0,
        workspaces: Seq::empty(),
        current_workspace: 0,
        bar_offsets: BarOffsets { left: 0, up: 0, right: 0, down: 0 },
    }
}

/// A screen with the number and geometry Xinerama reports.
pub open spec fn placed(sc: ScreenV, info: ScreenInfo) -> ScreenV {
    ScreenV {
        number: info.screen_number as i64,
        x: info.x_org as i64,
        y: info.y_org as i64,
        width: info.width as i64,
        height: info.height as i64,
        ..sc
    }
}

/// Screens after an update to the reported `infos`: screens beyond the
/// report are removed (their clients go to screen 0), missing ones are
/// added, and each takes its reported number and geometry.
pub open spec fn screens_updated(scs: Seq<ScreenV>, infos: Seq<ScreenInfo>) -> Seq<ScreenV> {
    let kept = shrunk(scs, infos.len() as int);
    Seq::new(infos.len(), |i: int| placed(if i < kept.len() { kept[i] } else { fresh_screen() }, infos[i]))
}

/// Each screen is numbered by its index.
pub open spec fn infos_numbered(infos: Seq<ScreenInfo>) -> bool {
    forall|i: int| 0 <= i < infos.len() ==> #[trigger] infos[i].screen_number == i
}

/// Client counts add up when workspaces are joined one by one.
proof fn lemma_ws_count_sum(a: Seq<WorkspaceV>, b: Seq<WorkspaceV>, c: Seq<WorkspaceV>)
    requires
        a.len() == b.len(),
        b.len() == c.len(),
        forall|j: int| 0 <= j < c.len() ==> #[trigger] c[j].clients.len() == a[j].clients.len() + b[j].clients.len(),
    ensures
        ws_client_count(c) == ws_client_count(a) + ws_client_count(b),
    decreases c.len(),
{
    if c.len() > 0 {
        lemma_ws_count_sum(a.drop_last(), b.drop_last(), c.drop_last());
    }
}

/// Removing the last screen keeps the screens' invariants and the clients.
proof fn lemma_pop_screen(scs: Seq<ScreenV>)
    requires
        scs.len() >= 2,
        forall|k: int| 0 <= k < scs.len() ==> #[trigger] screen_wf(scs[k], k),
    ensures
        pop_screen(scs).len() == scs.len() - 1,
        forall|k: int| 0 <= k < scs.len() - 1 ==> #[trigger] screen_wf(pop_screen(scs)[k], k),
        crate::structs::screens_client_count(pop_screen(scs)) == crate::structs::screens_client_count(scs),
{
    let rest = scs.drop_last();
    let last = scs.last();
    assert(screen_wf(scs[0], 0));
    assert(screen_wf(last, scs.len() - 1));
    let first = rest[0];
    let ab = absorbed_upto(first, last, last.workspaces.len() as int);
    assert forall|w: int| 0 <= w < ab.workspaces.len() implies #[trigger] ws_shape_wf(ab.workspaces[w]) by {
        assert(ws_shape_wf(first.workspaces[w]));
    }
    assert forall|w: int| 0 <= w < ab.workspaces.len() implies #[trigger] workspace_wf(ab.workspaces[w]) by {
        assert(workspace_wf(first.workspaces[w]));
    }
    assert(screen_wf(ab, 0));
    assert forall|k: int| 0 <= k < scs.len() - 1 implies #[trigger] screen_wf(pop_screen(scs)[k], k) by {
        assert(screen_wf(scs[k], k));
    }
    lemma_ws_count_sum(first.workspaces, last.workspaces, ab.workspaces);
    lemma_screens_count_update(rest, 0, ab);
    assert(rest =~= scs.drop_last());
}

/// Removing screens down to `m` keeps the screens' invariants and the clients.
proof fn lemma_shrunk(scs: Seq<ScreenV>, m: int)
    requires
        0 < m <= scs.len(),
        forall|k: int| 0 <= k < scs.len() ==> #[trigger] screen_wf(scs[k], k),
    ensures
        shrunk(scs, m).len() == m,
        forall|k: int| 0 <= k < m ==> #[trigger] screen_wf(shrunk(scs, m)[k], k),
        crate::structs::screens_client_count(shrunk(scs, m)) == crate::structs::screens_client_count(scs),
    decreases scs.len(),
{
    if scs.len() > m {
        lemma_pop_screen(scs);
        lemma_shrunk(pop_screen(scs), m);
    }
}


/// A screen keeps its invariant when it takes its reported geometry and
/// the report numbers it by its index.
proof fn lemma_placed_wf(sc: ScreenV, info: ScreenInfo, k: int)
    requires
        screen_wf(sc, k),
        info.screen_number == k,
    ensures
        screen_wf(placed(sc, info), k),
{
    let p = placed(sc, info);
    assert forall|w: int| 0 <= w < p.workspaces.len() implies #[trigger] ws_shape_wf(p.workspaces[w]) by {
        assert(ws_shape_wf(sc.workspaces[w]));
    }
    assert forall|w: int| 0 <= w < p.workspaces.len() implies #[trigger] workspace_wf(p.workspaces[w]) by {
        assert(workspace_wf(sc.workspaces[w]));
    }
}

/// Follow the screens the server reports (Xinerama, at least one): screens
/// beyond the report are removed, the last first, and each client on them
/// moves to the same workspace of screen 0 with its desktop set to that
/// workspace's index; missing screens are added without workspaces; every
/// screen takes its reported number and geometry.
pub fn update_screens(app: &mut Application, infos: &Vec<ScreenInfo>, reqs: &mut Vec<Request>)
    requires
        infos@.len() > 0,
        infos@.len() < old(app)@.runtime.screens.len() ==> old(app)@.wf(),
    ensures
        final(app)@.config == old(app)@.config,
        final(app)@ == (AppV {
            runtime: RuntimeV { screens: screens_updated(old(app)@.runtime.screens, infos@), ..old(app)@.runtime },
            ..old(app)@
        }),
        final(reqs)@ == old(reqs)@ + shrink_reqs(old(app)@.runtime.screens, infos@.len() as int, old(app)@.atoms.net_wm_desktop),
        old(app)@.wf() && infos@.len() <= old(app)@.runtime.screens.len() ==> final(app)@.runtime.client_count() == old(
            app,
        )@.runtime.client_count(),
        old(app)@.wf() && infos@.len() <= old(app)@.runtime.screens.len() && infos_numbered(infos@) && old(app)@.runtime.current_screen
            < infos@.len() ==> final(app)@.wf(),
{
    let ghost a = app@;
    let ghost atom = a.atoms.net_wm_desktop;
    let m = infos.len();
    proof {
        if a.runtime.screens.len() > m {
            assert forall|k: int| 0 <= k < a.runtime.screens.len() implies #[trigger] a.runtime.screens[k].workspaces.len()
                == NUMBER_OF_DESKTOPS by {
                assert(screen_wf(a.runtime.screens[k], k));
            }
        }
    }
    // Remove the screens beyond the report.
    while app.runtime.screens.len() > m
        invariant
            0 < m,
            app@ == (AppV { runtime: RuntimeV { screens: app@.runtime.screens, ..a.runtime }, ..a }),
            shrunk(app@.runtime.screens, m as int) == shrunk(a.runtime.screens, m as int),
            old(reqs)@ + shrink_reqs(a.runtime.screens, m as int, atom) == reqs@ + shrink_reqs(app@.runtime.screens, m as int, atom),
            app@.runtime.screens.len() > m ==> forall|k: int| 0 <= k < app@.runtime.screens.len() ==> #[trigger] app@.runtime.screens[k].workspaces.len()
                == NUMBER_OF_DESKTOPS,
            atom == app@.atoms.net_wm_desktop,
        decreases app.runtime.screens@.len(),
    {
        let ghost before = app@.runtime.screens;
        let ghost it_start = reqs@;
        proof {
            lemma_runtime_view(&app.runtime, 0, 0);
        }
        let mut removed = app.runtime.screens.pop().unwrap();
        let ghost rv = removed@;
        let ghost rest = app@.runtime.screens;
        proof {
            assert(rest =~= before.drop_last());
            assert(rv == before.last());
            assert(rest[0].workspaces.len() == NUMBER_OF_DESKTOPS);
            assert(absorbed_upto(rest[0], rv, 0) =~= rest[0]);
            assert(rest.update(0, rest[0]) =~= rest);
        }
        let nw = removed.workspaces.len();
        let mut j: usize = 0;
        while j < nw
            invariant
                0 < m,
                rest.len() >= 1,
                rest[0].workspaces.len() == NUMBER_OF_DESKTOPS,
                nw == rv.workspaces.len(),
                nw == NUMBER_OF_DESKTOPS,
                j <= nw,
                app@ == (AppV { runtime: RuntimeV { screens: rest.update(0, absorbed_upto(rest[0], rv, j as int)), ..a.runtime }, ..a }),
                removed.workspaces@.len() == nw,
                forall|k: int| j <= k < nw ==> #[trigger] removed.workspaces@[k].clients@ == rv.workspaces[k].clients,
                reqs@ == it_start + removed_screen_reqs(rv.workspaces.take(j as int), atom),
                atom == app@.atoms.net_wm_desktop,
            decreases nw - j,
        {
            let ghost cs = rv.workspaces[j as int].clients;
            let ghost st = reqs@;
            let n = removed.workspaces[j].clients.len();
            let mut k: usize = 0;
            while k < n
                invariant
                    n == cs.len(),
                    k <= n,
                    j < nw,
                    removed.workspaces@.len() == nw,
                    removed.workspaces@[j as int].clients@ == cs,
                    reqs@ == st + desktop_reqs(cs.take(k as int), atom, j as u64),
                    atom == app@.atoms.net_wm_desktop,
                decreases n - k,
            {
                update_client_desktop(app, removed.workspaces[j].clients[k].window_id, j as u64, reqs);
                proof {
                    assert(cs.take(k + 1) =~= cs.take(k as int).push(cs[k as int]));
                    assert(desktop_reqs(cs.take(k + 1), atom, j as u64) =~= desktop_reqs(cs.take(k as int), atom, j as u64).push(
                        Request::SetProperty { win: cs[k as int].window_id, property: atom, kind: PropertyKind::Cardinal, value: j as u64 },
                    ));
                }
                k = k + 1;
            }
            proof {
                assert(cs.take(n as int) =~= cs);
                assert(rv.workspaces.take(j + 1).drop_last() =~= rv.workspaces.take(j as int));
                assert(reqs@ =~= it_start + removed_screen_reqs(rv.workspaces.take(j + 1), atom));
                lemma_runtime_view(&app.runtime, 0, j as int);
            }
            let ghost before_rt = app.runtime;
            app.runtime.screens[0].workspaces[j].clients.append(&mut removed.workspaces[j].clients);
            proof {
                crate::structs::lemma_ws_changed(before_rt, app.runtime, 0, j as int);
                let target = rest.update(0, absorbed_upto(rest[0], rv, j + 1));
                assert(app@.runtime.screens[0].workspaces =~= target[0].workspaces);
                assert(app@.runtime.screens =~= target);
            }
            j = j + 1;
        }
        proof {
            assert(rv.workspaces.take(nw as int) =~= rv.workspaces);
            assert(app@.runtime.screens == pop_screen(before));
            assert(shrunk(before, m as int) == shrunk(pop_screen(before), m as int));
            assert(shrink_reqs(before, m as int, atom) == removed_screen_reqs(before.last().workspaces, atom) + shrink_reqs(
                pop_screen(before),
                m as int,
                atom,
            ));
            assert(old(reqs)@ + shrink_reqs(a.runtime.screens, m as int, atom) =~= reqs@ + shrink_reqs(app@.runtime.screens, m as int, atom));
            if app@.runtime.screens.len() > m {
                assert forall|k: int| 0 <= k < app@.runtime.screens.len() implies #[trigger] app@.runtime.screens[k].workspaces.len()
                    == NUMBER_OF_DESKTOPS by {
                    assert(before[k].workspaces.len() == NUMBER_OF_DESKTOPS);
                }
            }
        }
    }
    let ghost kept = shrunk(a.runtime.screens, m as int);
    proof {
        assert(app@.runtime.screens == kept);
        assert(reqs@ =~= old(reqs)@ + shrink_reqs(a.runtime.screens, m as int, atom));
    }
    // Add the missing screens.
    while app.runtime.screens.len() < m
        invariant
            app@.runtime.screens.len() <= m,
            kept.len() <= app@.runtime.screens.len(),
            app@ == (AppV { runtime: RuntimeV { screens: app@.runtime.screens, ..a.runtime }, ..a }),
            forall|i: int| 0 <= i < app@.runtime.screens.len() ==> #[trigger] app@.runtime.screens[i] == (if i < kept.len() {
                kept[i]
            } else {
                fresh_screen()
            }),
        decreases m - app.runtime.screens@.len(),
    {
        let ghost prev = app@.runtime.screens;
        app.runtime.screens.push(Screen {
            number: 0,
            x: 0,
            y: 0,
            width: 0,
            height: 0,
            workspaces: Vec::new(),
            current_workspace: 0,
            bar_offsets: BarOffsets::zero(),
        });
        proof {
            let ghost last = app.runtime.screens@.last();
            assert(last@.workspaces =~= Seq::<WorkspaceV>::empty());
            assert(last@ =~= fresh_screen());
            assert(app@.runtime.screens =~= prev.push(fresh_screen()));
        }
    }
    // Take the reported numbers and geometry.
    let ghost base = app@.runtime.screens;
    let mut i: usize = 0;
    while i < m
        invariant
            m == infos@.len(),
            app@.runtime.screens.len() == m,
            base.len() == m,
            i <= m,
            app@ == (AppV { runtime: RuntimeV { screens: app@.runtime.screens, ..a.runtime }, ..a }),
            forall|k: int| 0 <= k < m ==> #[trigger] app@.runtime.screens[k] == (if k < i { placed(base[k], infos@[k]) } else { base[k] }),
        decreases m - i,
    {
        let info = infos[i];
        let ghost before_rt = app.runtime;
        proof {
            lemma_runtime_view(&app.runtime, i as int, 0);
        }
        app.runtime.screens[i].number = info.screen_number as i64;
        app.runtime.screens[i].x = info.x_org as i64;
        app.runtime.screens[i].y = info.y_org as i64;
        app.runtime.screens[i].width = info.width as i64;
        app.runtime.screens[i].height = info.height as i64;
        proof {
            crate::structs::lemma_screen_changed(before_rt, app.runtime, i as int);
            assert(app.runtime.screens@[i as int]@ =~= placed(base[i as int], infos@[i as int]));
        }
        i = i + 1;
    }
    proof {
        let target = screens_updated(a.runtime.screens, infos@);
        assert(app@.runtime.screens =~= target);
        if a.wf() && infos@.len() <= a.runtime.screens.len() {
            assert forall|k: int| 0 <= k < a.runtime.screens.len() implies #[trigger] screen_wf(a.runtime.screens[k], k) by {}
            lemma_shrunk(a.runtime.screens, m as int);
            crate::structs::lemma_screens_count_eq(kept, target);
        }
        if a.wf() && infos@.len() <= a.runtime.screens.len() && infos_numbered(infos@) && a.runtime.current_screen < infos@.len() {
            assert forall|k: int| 0 <= k < a.runtime.screens.len() implies #[trigger] screen_wf(a.runtime.screens[k], k) by {}
            lemma_shrunk(a.runtime.screens, m as int);
            assert forall|k: int| 0 <= k < m implies #[trigger] screen_wf(target[k], k) by {
                assert(infos@[k].screen_number == k);
                lemma_placed_wf(kept[k], infos@[k], k);
            }
            assert forall|k: int| 0 <= k < m implies #[trigger] screen_shape_wf(target[k], k) by {
                assert(screen_wf(target[k], k));
            }
            crate::structs::lemma_screens_count_eq(kept, target);
        }
    }
}

// ---------------------------------------------------------------------------
// Workspaces of the screens
// ---------------------------------------------------------------------------

/// Decimal digits of `n`, most significant first.
pub open spec fn decimal(n: nat) -> Seq<char>
    decreases n,
{
    if n < 10 {
        seq![(n + 48) as char]
    } else {
        decimal(n / 10) + seq![((n % 10) + 48) as char]
    }
}

/// The text of one decimal digit.
fn digit_text(d: usize) -> (r: &'static str)
    requires
        d < 10,
    ensures
        r@ == seq![(d + 48) as char],
{
    let r = match d {
        0 => {
            proof {
                reveal_strlit("0");
            }
            "0"
        },
        1 => {
            proof {
                reveal_strlit("1");
            }
            "1"
        },
        2 => {
            proof {
                reveal_strlit("2");
            }
            "2"
        },
        3 => {
            proof {
                reveal_strlit("3");
            }
            "3"
        },
        4 => {
            proof {
                reveal_strlit("4");
            }
            "4"
        },
        5 => {
            proof {
                reveal_strlit("5");
            }
            "5"
        },
        6 => {
            proof {
                reveal_strlit("6");
            }
            "6"
        },
        7 => {
            proof {
                reveal_strlit("7");
            }
            "7"
        },
        8 => {
            proof {
                reveal_strlit("8");
            }
            "8"
        },
        _ => {
            proof {
                reveal_strlit("9");
            }
            "9"
        },
    };
    proof {
        assert(r@ =~= seq![(d + 48) as char]);
    }
    r
}

/// Decimal text of a number, most significant digit first.
fn number_text(n: usize) -> (r: String)
    ensures
        r@ == decimal(n as nat),
    decreases n,
{
    if n < 10 {
        digit_text(n).to_owned()
    } else {
        let mut t = number_text(n / 10);
        t.append(digit_text(n % 10));
        t
    }
}

/// Decimal text is made of digits.
proof fn lemma_decimal_digits(n: nat)
    ensures
        decimal(n).len() > 0,
        forall|i: int| 0 <= i < decimal(n).len() ==> '0' <= #[trigger] decimal(n)[i] <= '9',
    decreases n,
{
    if n >= 10 {
        lemma_decimal_digits(n / 10);
    }
}

/// Decimal text holds no NUL byte.
proof fn lemma_decimal_no_nul(n: nat)
    ensures
        !encode_utf8(decimal(n)).contains(0u8),
{
    lemma_decimal_digits(n);
    let d = decimal(n);
    assert(is_ascii_chars(d));
    is_ascii_chars_encode_utf8(d);
    if encode_utf8(d).contains(0u8) {
        let i = choose|i: int| 0 <= i < encode_utf8(d).len() && encode_utf8(d)[i] == 0u8;
        assert(d[i] as u8 == encode_utf8(d)[i]);
        assert('0' <= d[i]);
    }
}

/// The workspace names of the configuration hold no NUL byte.
pub open spec fn names_wf(c: Configuration) -> bool {
    forall|s: int, i: int|
        0 <= s < c.desktops.names@.len() && 0 <= i < NUMBER_OF_DESKTOPS ==> !(#[trigger] encode_utf8(
            c.desktops.names@[s]@[i]@,
        )).contains(0u8)
}

/// A new workspace: number `i`, one master client, half the width for it.
pub open spec fn fresh_workspace(i: int) -> WorkspaceV {
    WorkspaceV { number: i as u64, master_capacity: 1, master_width: 500, clients: Seq::empty(), current_client: None }
}

/// A screen without workspaces gets one per desktop.
pub open spec fn with_desktops(sc: ScreenV) -> ScreenV {
    if sc.workspaces.len() == 0 {
        ScreenV { workspaces: Seq::new(NUMBER_OF_DESKTOPS as nat, |i: int| fresh_workspace(i)), ..sc }
    } else {
        sc
    }
}

/// Names of the `k` workspaces of screen `s`: the configured ones when the
/// screen has names, else the numbers from 1.
pub open spec fn screen_desktop_names(c: Configuration, s: int, k: int) -> Seq<Seq<char>> {
    Seq::new(k as nat, |i: int| if s < c.desktops.names@.len() { c.desktops.names@[s]@[i]@ } else { decimal((i + 1) as nat) })
}

/// Names of every workspace, screen by screen.
pub open spec fn desktop_names(c: Configuration, scs: Seq<ScreenV>) -> Seq<Seq<char>>
    decreases scs.len(),
{
    if scs.len() == 0 {
        Seq::empty()
    } else {
        desktop_names(c, scs.drop_last()) + screen_desktop_names(c, scs.len() - 1, scs.last().workspaces.len() as int)
    }
}

/// Viewport of every workspace of a screen: the screen's origin.
pub open spec fn screen_viewports(sc: ScreenV) -> Seq<i64> {
    Seq::new(2 * sc.workspaces.len(), |t: int| if t % 2 == 0 { sc.x } else { sc.y })
}

/// Viewports of every workspace, screen by screen.
pub open spec fn desktop_viewports(scs: Seq<ScreenV>) -> Seq<i64>
    decreases scs.len(),
{
    if scs.len() == 0 {
        Seq::empty()
    } else {
        desktop_viewports(scs.drop_last()) + screen_viewports(scs.last())
    }
}

/// Give every screen without workspaces one workspace per desktop and
/// publish the number, names and viewports of all workspaces.
pub fn update_desktops(app: &mut Application, reqs: &mut Vec<Request>)
    requires
        forall|s: int| 0 <= s < old(app)@.runtime.screens.len() && s < old(app)@.config.desktops.names@.len() ==> #[trigger] old(
            app,
        )@.runtime.screens[s].workspaces.len() <= NUMBER_OF_DESKTOPS,
        names_wf(old(app)@.config),
    ensures
        final(app)@.config == old(app)@.config,
        final(app)@ == (AppV {
            runtime: RuntimeV {
                screens: old(app)@.runtime.screens.map_values(|sc: ScreenV| with_desktops(sc)),
                ..old(app)@.runtime
            },
            ..old(app)@
        }),
        final(reqs)@.len() == old(reqs)@.len() + 3,
        final(reqs)@.take(old(reqs)@.len() as int) == old(reqs)@,
        final(reqs)@[old(reqs)@.len() as int] == (Request::SetProperty {
            win: old(app)@.core.root_win,
            property: old(app)@.atoms.net_number_of_desktops,
            kind: PropertyKind::Cardinal,
            value: desktop_names(old(app)@.config, final(app)@.runtime.screens).len() as u64,
        }),
        final(reqs)@[old(reqs)@.len() + 1int] matches Request::SetText { win, property, encoding, bytes }
            && win == old(app)@.core.root_win && property == old(app)@.atoms.net_desktop_names
            && encoding == old(app)@.atoms.utf8string && exists|names: Seq<String>|
            names.map_values(|t: String| t@) == desktop_names(old(app)@.config, final(app)@.runtime.screens)
                && bytes@ == crate::utils::nul_terminated(names),
        final(reqs)@[old(reqs)@.len() + 2int] matches Request::SetSignedList { win, property, values }
            && win == old(app)@.core.root_win && property == old(app)@.atoms.net_desktop_viewport
            && values@ == desktop_viewports(final(app)@.runtime.screens),
{
    let ghost a = app@;
    let ghost fs = a.runtime.screens.map_values(|sc: ScreenV| with_desktops(sc));
    let ghost c = a.config;
    let mut names: Vec<String> = Vec::new();
    let mut viewports: Vec<i64> = Vec::new();
    let n = app.runtime.screens.len();
    let mut index: usize = 0;
    proof {
        assert(fs.take(0) =~= Seq::<ScreenV>::empty());
        assert(names@.map_values(|t: String| t@) =~= Seq::<Seq<char>>::empty());
    }
    while index < n
        invariant
            n == a.runtime.screens.len(),
            index <= n,
            c == a.config,
            fs == a.runtime.screens.map_values(|sc: ScreenV| with_desktops(sc)),
            forall|s: int| 0 <= s < a.runtime.screens.len() && s < c.desktops.names@.len() ==> #[trigger] a.runtime.screens[s].workspaces.len()
                <= NUMBER_OF_DESKTOPS,
            names_wf(c),
            app@ == (AppV {
                runtime: RuntimeV {
                    screens: Seq::new(n as nat, |s: int| if s < index { fs[s] } else { a.runtime.screens[s] }),
                    ..a.runtime
                },
                ..a
            }),
            names@.map_values(|t: String| t@) == desktop_names(c, fs.take(index as int)),
            no_nul(names@),
            viewports@ == desktop_viewports(fs.take(index as int)),
        decreases n - index,
    {
        proof {
            lemma_runtime_view(&app.runtime, index as int, 0);
        }
        if app.runtime.screens[index].workspaces.len() == 0 {
            let mut i: usize = 0;
            proof {
                assert(a.runtime.screens[index as int].workspaces =~= Seq::new(0, |j: int| fresh_workspace(j)));
                assert(app@.runtime.screens =~= Seq::new(n as nat, |s: int| if s < index { fs[s] } else if s == index {
                                ScreenV {
                                    workspaces: Seq::new(0, |j: int| fresh_workspace(j)),
                                    ..a.runtime.screens[s]
                                }
                            } else { a.runtime.screens[s] }));
            }
            while i < NUMBER_OF_DESKTOPS
                invariant
                    index < n,
                    n == a.runtime.screens.len(),
                    i <= NUMBER_OF_DESKTOPS,
                    a.runtime.screens[index as int].workspaces.len() == 0,
                    app@ == (AppV {
                        runtime: RuntimeV {
                            screens: Seq::new(n as nat, |s: int| if s < index { fs[s] } else if s == index {
                                ScreenV {
                                    workspaces: Seq::new(i as nat, |j: int| fresh_workspace(j)),
                                    ..a.runtime.screens[s]
                                }
                            } else { a.runtime.screens[s] }),
                            ..a.runtime
                        },
                        ..a
                    }),
                decreases NUMBER_OF_DESKTOPS - i,
            {
                let ghost before_rt = app.runtime;
                let ghost before_wss = app.runtime.screens@[index as int].workspaces@;
                proof {
                    lemma_runtime_view(&app.runtime, index as int, 0);
                }
                app.runtime.screens[index].workspaces.push(Workspace {
                    number: i as u64,
                    master_capacity: 1,
                    master_width: 500,
                    clients: Vec::new(),
                    current_client: None,
                });
                proof {
                    crate::structs::lemma_screen_changed(before_rt, app.runtime, index as int);
                    let pushed_ws = app.runtime.screens@[index as int].workspaces@.last();
                    assert(pushed_ws@ =~= fresh_workspace(i as int));
                    assert(app.runtime.screens@[index as int].workspaces@ == before_wss.push(pushed_ws));
                    lemma_runtime_view(&app.runtime, index as int, 0);
                    assert(app@.runtime.screens[index as int].workspaces =~= before_wss.map_values(|w: Workspace| w@).push(pushed_ws@));
                    assert(app@.runtime.screens[index as int].workspaces =~= Seq::new((i + 1) as nat, |j: int| fresh_workspace(j)));
                    assert(app@.runtime.screens =~= Seq::new(n as nat, |s: int| if s < index { fs[s] } else if s == index {
                                ScreenV {
                                    workspaces: Seq::new((i + 1) as nat, |j: int| fresh_workspace(j)),
                                    ..a.runtime.screens[s]
                                }
                            } else { a.runtime.screens[s] }));
                }
                i = i + 1;
            }
        }
        proof {
            assert(app@.runtime.screens =~= Seq::new(n as nat, |s: int| if s < index + 1 { fs[s] } else { a.runtime.screens[s] }));
            lemma_runtime_view(&app.runtime, index as int, 0);
        }
        let k = app.runtime.screens[index].workspaces.len();
        let sx = app.runtime.screens[index].x;
        let sy = app.runtime.screens[index].y;
        let ghost names0 = names@.map_values(|t: String| t@);
        let ghost vp0 = viewports@;
        let mut i: usize = 0;
        while i < k
            invariant
                index < n,
                n == a.runtime.screens.len(),
                k == fs[index as int].workspaces.len(),
                index < c.desktops.names@.len() ==> k <= NUMBER_OF_DESKTOPS,
                i <= k,
                sx == fs[index as int].x,
                sy == fs[index as int].y,
                c == app@.config,
                names_wf(c),
                names@.map_values(|t: String| t@) == names0 + screen_desktop_names(c, index as int, i as int),
                no_nul(names@),
                viewports@ == vp0 + screen_viewports(fs[index as int]).take(2 * i),
            decreases k - i,
        {
            let ghost prev = names@;
            if index < app.config.desktops.names.len() {
                let t = app.config.desktops.names[index][i].clone();
                proof {
                    assert(!encode_utf8(c.desktops.names@[index as int]@[i as int]@).contains(0u8));
                }
                names.push(t);
            } else {
                let t = number_text(i + 1);
                proof {
                    lemma_decimal_no_nul((i + 1) as nat);
                }
                names.push(t);
            }
            proof {
                assert(names@.map_values(|t: String| t@) =~= prev.map_values(|t: String| t@).push(names@.last()@));
                assert(names@.map_values(|t: String| t@) =~= names0 + screen_desktop_names(c, index as int, i + 1));
                assert forall|j: int| 0 <= j < names@.len() implies !(#[trigger] encode_utf8(names@[j]@)).contains(0u8) by {
                    if j < prev.len() {
                        assert(names@[j] == prev[j]);
                    }
                }
            }
            viewports.push(sx);
            viewports.push(sy);
            proof {
                assert(viewports@ =~= vp0 + screen_viewports(fs[index as int]).take(2 * (i + 1)));
            }
            i = i + 1;
        }
        proof {
            assert(fs.take(index + 1).drop_last() =~= fs.take(index as int));
            assert(screen_viewports(fs[index as int]).take(2 * k) =~= screen_viewports(fs[index as int]));
            assert(names@.map_values(|t: String| t@) =~= desktop_names(c, fs.take(index + 1)));
            assert(viewports@ =~= desktop_viewports(fs.take(index + 1)));
        }
        index = index + 1;
    }
    proof {
        assert(fs.take(n as int) =~= fs);
        assert(app@.runtime.screens =~= fs);
    }
    let ghost sent = names@;
    update_desktop_ewmh_info(app, names, viewports, reqs);
    proof {
        assert(sent.map_values(|t: String| t@) == desktop_names(c, fs));
        assert(sent.len() == sent.map_values(|t: String| t@).len());
    }
}
} // verus!
