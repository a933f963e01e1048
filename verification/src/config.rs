//! Configuration constants and the workspace shortcuts derived from them.

use vstd::prelude::*;

use crate::structs::{ActionResult, KeyAction};

verus! {

/// Amount of desktops (workspaces) on each screen.
pub const NUMBER_OF_DESKTOPS: usize = 10;

/// The shortcuts of the workspaces: for each desktop key, in order, the key
/// with `modifier` focuses that workspace and the key with `modifier | shift`
/// moves the focused client there.
pub fn desktop_key_actions(keysyms: [u32; NUMBER_OF_DESKTOPS], modifier: u32, shift: u32) -> (actions: Vec<KeyAction>)
    ensures
        actions@.len() == 2 * NUMBER_OF_DESKTOPS,
        forall|i: int|
            0 <= i < NUMBER_OF_DESKTOPS ==> {
                &&& (#[trigger] actions@[2 * i]).keysym == keysyms@[i]
                &&& actions@[2 * i].modifier == modifier
                &&& actions@[2 * i].result == ActionResult::FocusOnWorkspace(i as u64)
                &&& actions@[2 * i + 1].keysym == keysyms@[i]
                &&& actions@[2 * i + 1].modifier == modifier | shift
                &&& actions@[2 * i + 1].result == ActionResult::MoveToWorkspace(i as u64)
            },
{
    let mut actions: Vec<KeyAction> = Vec::new();
    let mut i: usize = 0;
    while i < NUMBER_OF_DESKTOPS
        invariant
            i <= NUMBER_OF_DESKTOPS,
            actions@.len() == 2 * i,
            forall|j: int|
                0 <= j < i ==> {
                    &&& (#[trigger] actions@[2 * j]).keysym == keysyms@[j]
                    &&& actions@[2 * j].modifier == modifier
                    &&& actions@[2 * j].result == ActionResult::FocusOnWorkspace(j as u64)
                    &&& actions@[2 * j + 1].keysym == keysyms@[j]
                    &&& actions@[2 * j + 1].modifier == modifier | shift
                    &&& actions@[2 * j + 1].result == ActionResult::MoveToWorkspace(j as u64)
                },
        decreases NUMBER_OF_DESKTOPS - i,
    {
        let k = keysyms[i];
        actions.push(KeyAction { keysym: k, modifier, result: ActionResult::FocusOnWorkspace(i as u64) });
        actions.push(KeyAction { keysym: k, modifier: modifier | shift, result: ActionResult::MoveToWorkspace(i as u64) });
        proof {
            assert forall|j: int| 0 <= j < i + 1 implies {
                &&& (#[trigger] actions@[2 * j]).keysym == keysyms@[j]
                &&& actions@[2 * j].modifier == modifier
                &&& actions@[2 * j].result == ActionResult::FocusOnWorkspace(j as u64)
                &&& actions@[2 * j + 1].keysym == keysyms@[j]
                &&& actions@[2 * j + 1].modifier == modifier | shift
                &&& actions@[2 * j + 1].result == ActionResult::MoveToWorkspace(j as u64)
            } by {
                assert(0 <= 2 * j + 1 < actions@.len());
            }
        }
        i = i + 1;
    }
    actions
}

} // verus!
