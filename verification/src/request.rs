//! Requests to the X server that the window manager's decisions produce.
//!
//! Every function that changes what is on screen appends, in order, the
//! requests it decides; the caller sends them.

use vstd::prelude::*;

verus! {

/// Mouse button that moves a floating window.
pub const BUTTON_MOVE: u32 = 1;

/// Mouse button that resizes a floating window.
pub const BUTTON_RESIZE: u32 = 3;

/// Type of a 32-bit property.
#[derive(Clone, Copy, PartialEq, Eq, Structural, Debug)]
pub enum PropertyKind {
    Cardinal,
    Window,
    Atom,
}

/// Event masks the window manager selects on windows.
#[derive(Clone, Copy, PartialEq, Eq, Structural, Debug)]
pub enum EventMask {
    /// Enter, focus change, property change and structure notifications of a client.
    Client,
    /// Structure and substructure notifications of a dock.
    Dock,
    /// No events.
    Nothing,
    /// What the window manager handles on the root window: substructure
    /// redirect and notify, structure notify, enter and leave, pointer
    /// motion, button press and property change.
    Root,
}

/// One request to the X server.
#[derive(Debug)]
#[allow(inconsistent_fields)]
pub enum Request {
    /// Border colour of a window.
    SetBorderColor { win: u64, pixel: u64 },
    /// Border width of a window.
    SetBorderWidth { win: u64, width: u32 },
    /// Move and resize a window.
    MoveResize { win: u64, x: i32, y: i32, width: u32, height: u32 },
    /// Raise a window to the top of the stack.
    Raise { win: u64 },
    /// Map a window.
    MapWindow { win: u64 },
    /// Give the input focus to a window (reverting to the pointer root).
    Focus { win: u64 },
    /// Grab a mouse button with the window manager's modifier on a window.
    GrabButton { win: u64, button: u32 },
    /// Release every button grab on a window.
    UngrabButtons { win: u64 },
    /// Replace a 32-bit property with one value.
    SetProperty { win: u64, property: u64, kind: PropertyKind, value: u64 },
    /// Append one value to a 32-bit property.
    AppendProperty { win: u64, property: u64, kind: PropertyKind, value: u64 },
    /// Replace a 32-bit property with a list of values.
    SetPropertyList { win: u64, property: u64, kind: PropertyKind, values: Vec<u64> },
    /// Replace a cardinal property with a list of signed values.
    SetSignedList { win: u64, property: u64, values: Vec<i64> },
    /// Replace an 8-bit property, of type `encoding`, with bytes.
    SetText { win: u64, property: u64, encoding: u64, bytes: Vec<u8> },
    /// Replace a 32-bit property with no value.
    ClearProperty { win: u64, property: u64, kind: PropertyKind },
    /// Delete a property.
    DeleteProperty { win: u64, property: u64 },
    /// Set the ICCCM `WM_STATE` of a window to `[state, 0]`.
    SetWmState { win: u64, state: i64 },
    /// Select the events the window manager receives from a window.
    SelectInput { win: u64, mask: EventMask },
    /// Set the root window's event mask (`EventMask::Root`) and cursor attributes.
    SetRootAttributes { win: u64 },
    /// Configure only the border width of a window.
    SetConfiguredBorder { win: u64, width: i32 },
    /// Forward a configure request of an unmanaged window unchanged.
    Configure {
        win: u64,
        value_mask: u64,
        x: i32,
        y: i32,
        width: i32,
        height: i32,
        border_width: i32,
        sibling: u64,
        stack_mode: i32,
    },
    /// Close a client: ask politely if it speaks `WM_DELETE_WINDOW`, else kill it.
    CloseWindow { win: u64 },
    /// Lay out the current workspace again; the layout itself is the caller's.
    Tile,
    /// Send `WM_DELETE_WINDOW` to a window that lists that protocol; nothing else.
    AskToClose { win: u64 },
    /// Send a `message_type` client message carrying `protocol` (`WM_DELETE_WINDOW`)
    /// and the current time; the status of the send goes to `helper::delete_sent`.
    SendDelete { win: u64, message_type: u64, protocol: u64 },
    GrabServer,
    UngrabServer,
    /// Make the server destroy all resources of a killed client.
    DestroyAllOnClose,
    /// Kill the connection of the client owning a window.
    KillClient { win: u64 },
    /// Warp the pointer to a position relative to a window.
    WarpPointer { win: u64, x: i32, y: i32 },
    /// Grab a key on the root window.
    GrabKey { keysym: u32, modifiers: u32 },
    /// Start the program of key action `index` of the configuration.
    SpawnAction { index: usize },
    /// Tell a client its geometry with a synthetic `ConfigureNotify`.
    SendConfigureNotify { win: u64, x: i32, y: i32, width: i32, height: i32, border_width: i32 },
}

} // verus!
