//! The X protocol as the application uses it: requests to the server, events
//! from it, and the connection state that turns calls into queued requests.
//!
//! Resources are named by handles that the library hands out; the transport in
//! the application maps each handle to the server's id when it sends a request,
//! and maps ids back to handles when it reads an event.
use vstd::prelude::*;

verus! {

/// The handle meaning "no resource" (`x::Window::none()` and the like).
pub const NONE: u32 = 0;

/// Event mask bits of the core protocol.
pub const KEY_PRESS: u32 = 0x1;

pub const BUTTON_PRESS: u32 = 0x4;

pub const BUTTON_RELEASE: u32 = 0x8;

pub const POINTER_MOTION: u32 = 0x40;

pub const EXPOSURE: u32 = 0x8000;

pub const OWNER_GRAB_BUTTON: u32 = 0x100_0000;

/// Something that can be drawn on.
#[derive(PartialEq, Eq, Structural, Clone, Copy, Debug)]
pub enum Drawable {
    Empty,
    Window(u32),
    Pixmap(u32),
}

/// The values a graphics context is created with; `None` leaves the
/// protocol's default.
#[derive(PartialEq, Eq, Structural, Clone, Copy, Debug)]
pub struct GcValues {
    pub foreground: Option<u32>,
    pub background: Option<u32>,
    pub graphics_exposures: Option<bool>,
    pub clip_mask: Option<u32>,
}

/// A request to the X server.
#[derive(Debug)]
#[allow(inconsistent_fields)]
pub enum XRequest {
    /// `CreateWindow` at (0, 0), no border, class copied from the parent.
    CreateWindow {
        wid: u32,
        parent: u32,
        width: u16,
        height: u16,
        depth: u8,
        visual: u32,
        back_pixel: Option<u32>,
        backing_pixel: Option<u32>,
        event_mask: u32,
        cursor_none: bool,
    },
    MapWindow { window: u32 },
    UnmapWindow { window: u32 },
    /// `ConfigureWindow` with `X` and `Y`.
    MoveWindow { window: u32, x: i32, y: i32 },
    /// `ConfigureWindow` with `Width` and `Height`.
    ResizeWindow { window: u32, width: u32, height: u32 },
    /// `ChangeWindowAttributes` with `BackPixel`.
    SetBackPixel { window: u32, pixel: u32 },
    /// `ChangeWindowAttributes` with `BackPixmap`.
    SetBackPixmap { window: u32, pixmap: u32 },
    /// `ChangeWindowAttributes` with `Cursor`: the blank cursor, or the
    /// left-pointer cursor of the cursor theme.
    SetCursor { window: u32, blank: bool },
    /// `ChangeProperty` of `WM_NAME` (type `STRING`), sent checked.
    SetWmName { window: u32, name: Vec<u8> },
    /// `ChangeProperty` of `WM_PROTOCOLS` to the delete-window atom.
    SetWmProtocols { window: u32 },
    CreatePixmap { pid: u32, drawable: Drawable, width: u16, height: u16, depth: u8 },
    FreePixmap { pixmap: u32 },
    /// `CreateCursor` from one pixmap used as source and mask, all black.
    CreateCursor { cid: u32, pixmap: u32 },
    CreateGc { cid: u32, drawable: Drawable, values: GcValues, checked: bool },
    FreeGc { gc: u32 },
    /// `PutImage` in `ZPixmap` format, no left padding.
    PutImage {
        drawable: Drawable,
        gc: u32,
        width: u16,
        height: u16,
        dst_x: i16,
        dst_y: i16,
        depth: u8,
        data: Vec<u8>,
    },
    CopyArea {
        src: Drawable,
        dst: Drawable,
        gc: u32,
        src_x: i16,
        src_y: i16,
        dst_x: i16,
        dst_y: i16,
        width: u16,
        height: u16,
    },
    /// `PolyFillRectangle` with one rectangle.
    FillRectangle { drawable: Drawable, gc: u32, x: i16, y: i16, width: u16, height: u16 },
    /// `SendEvent` of an `Expose` (count 1) to the window, exposure mask, not
    /// propagated.
    Expose { window: u32, x: u16, y: u16, width: u16, height: u16 },
    /// Present's `SelectInput` for `CONFIGURE_NOTIFY`.
    SelectPresentInput { eid: u32, window: u32 },
}

/// An event read from the X server, as far as the application tells events apart.
#[derive(PartialEq, Eq, Structural, Clone, Copy, Debug)]
pub enum RawEvent {
    /// Present's `ConfigureNotify`.
    ConfigureNotify { window: u32, width: u16, height: u16 },
    Expose { window: u32 },
    ButtonPress { event: u32, detail: u8, x: i16, y: i16 },
    ButtonRelease { event: u32, detail: u8, x: i16, y: i16 },
    MotionNotify { event: u32, child: u32, x: i16, y: i16 },
    /// A client message; its first 32-bit data word, when the data is 32-bit.
    ClientMessage { atom: Option<u32> },
    Other,
}

/// An event of the window tree's event loop.
#[derive(PartialEq, Eq, Structural, Clone, Copy, Debug)]
pub struct Nevent {
    pub code: i32,
    pub window: u32,
    pub x: i16,
    pub y: i16,
    pub width: u16,
    pub height: u16,
}

impl Nevent {
    pub const UNKNOWN: i32 = -1;

    pub const NONE: i32 = 0;

    pub const RENDER: i32 = 1;

    pub const B_DOWN: i32 = 2;

    pub const B_UP: i32 = 4;

    pub const RESIZE: i32 = 8;

    pub const MOTION: i32 = 16;

    /// No event: code `NONE`, no window, everything zero.
    pub fn new() -> (e: Nevent)
        ensures
            e == (Nevent { code: Nevent::NONE, window: NONE, x: 0, y: 0, width: 0, height: 0 }),
    {
        Nevent { code: Self::NONE, window: NONE, x: 0, y: 0, width: 0, height: 0 }
    }
}

/// The event that the window tree's loop makes of what was polled.
pub open spec fn nevent_of(polled: Option<RawEvent>) -> Nevent {
    let none = Nevent { code: Nevent::NONE, window: NONE, x: 0, y: 0, width: 0, height: 0 };
    match polled {
        None => none,
        Some(RawEvent::ConfigureNotify { window, width, height }) => Nevent {
            code: Nevent::RESIZE,
            window,
            width,
            height,
            ..none
        },
        Some(RawEvent::Expose { window }) => Nevent { code: Nevent::RENDER, window, ..none },
        Some(RawEvent::ButtonRelease { event, detail, x, y }) => Nevent {
            code: Nevent::B_UP,
            window: event,
            x,
            y,
            ..none
        },
        Some(_) => Nevent { code: Nevent::UNKNOWN, ..none },
    }
}

/// An event of the layer tree's event loop.
#[derive(PartialEq, Eq, Structural, Clone, Copy, Debug)]
pub struct XcbEvent {
    pub code: i32,
    pub window: u32,
    pub button: u8,
    pub x: i16,
    pub y: i16,
    pub width: u16,
    pub height: u16,
}

impl XcbEvent {
    pub const UNKNOWN: i32 = -1;

    pub const NONE: i32 = 0;

    pub const RENDER: i32 = 1;

    pub const B_DOWN: i32 = 2;

    pub const B_UP: i32 = 4;

    pub const RESIZE: i32 = 8;

    pub const MOTION: i32 = 16;

    pub const SCROLL_DOWN: i32 = 32;

    pub const SCROLL_UP: i32 = 64;

    pub const CLOSE: i32 = 128;

    /// No event: code `NONE`, no window, everything zero.
    pub fn new() -> (e: XcbEvent)
        ensures
            e == xcb_none(),
    {
        XcbEvent { code: Self::NONE, window: NONE, button: 0, x: 0, y: 0, width: 0, height: 0 }
    }
}

/// The empty event.
pub open spec fn xcb_none() -> XcbEvent {
    XcbEvent { code: XcbEvent::NONE, window: NONE, button: 0, x: 0, y: 0, width: 0, height: 0 }
}

/// The event that the layer tree's loop makes of what was polled, where
/// `del_atom` is the `WM_DELETE_WINDOW` atom: a close request, a resize, a
/// motion (on the child window under the pointer when there is one), an
/// exposure, a press (wheel buttons 4 and 5 as scrolling), a release (nothing
/// for wheel buttons), or an unknown event.
pub open spec fn xcb_event_of(polled: Option<RawEvent>, del_atom: u32) -> XcbEvent {
    let none = xcb_none();
    match polled {
        None => none,
        Some(RawEvent::ClientMessage { atom }) => if atom == Some(del_atom) {
            XcbEvent { code: XcbEvent::CLOSE, ..none }
        } else {
            none
        },
        Some(RawEvent::ConfigureNotify { window, width, height }) => XcbEvent {
            code: XcbEvent::RESIZE,
            window,
            width,
            height,
            ..none
        },
        Some(RawEvent::MotionNotify { event, child, x, y }) => XcbEvent {
            code: XcbEvent::MOTION,
            window: if child == NONE {
                event
            } else {
                child
            },
            x,
            y,
            ..none
        },
        Some(RawEvent::Expose { window }) => XcbEvent { code: XcbEvent::RENDER, window, ..none },
        Some(RawEvent::ButtonPress { event, detail, x, y }) => XcbEvent {
            code: if detail == 4 {
                XcbEvent::SCROLL_UP
            } else if detail == 5 {
                XcbEvent::SCROLL_DOWN
            } else {
                XcbEvent::B_DOWN
            },
            window: event,
            x,
            y,
            button: detail,
            ..none
        },
        Some(RawEvent::ButtonRelease { event, detail, x, y }) => if detail == 4 || detail == 5 {
            none
        } else {
            XcbEvent { code: XcbEvent::B_UP, window: event, x, y, button: detail, ..none }
        },
        Some(RawEvent::Other) => XcbEvent { code: XcbEvent::UNKNOWN, ..none },
    }
}

/// The next handle after `h`, skipping the "none" handle.
pub open spec fn next_handle(h: u32) -> u32 {
    if h == u32::MAX {
        1
    } else {
        (h + 1) as u32
    }
}

/// The atoms the window tree's connection interns: `WM_PROTOCOLS`,
/// `WM_DELETE_WINDOW`, `_NET_WM_STATE`, `_NET_WM_STATE_FULLSCREEN` and
/// `_NET_WM_WINDOW_OPACITY`.
#[derive(Clone, Copy, PartialEq, Eq, Structural)]
pub struct NAtoms {
    pub wm_protocols: u32,
    pub wm_del_window: u32,
    pub wm_state: u32,
    pub wm_fullscreen: u32,
    pub wm_opacity: u32,
}

/// The window tree's connection: the screen's setup, the interned atoms, the
/// graphics context and drawable in use, the next free handle and the
/// requests not yet sent.
pub struct Nxcb {
    pub screen_n: i32,
    pub atoms: NAtoms,
    pub depth: u8,
    pub root: u32,
    pub visual_id: u32,
    pub gc: u32,
    pub drawable: Drawable,
    pub next_id: u32,
    /// How many handles the connection has handed out.
    pub issued: Ghost<nat>,
    pub pending: Vec<XRequest>,
}

/// The handle `n` steps of the counter after `h` (see `next_handle`).
pub open spec fn handle_after(h: u32, n: nat) -> u32
    decreases n,
{
    if n == 0 {
        h
    } else {
        next_handle(handle_after(h, (n - 1) as nat))
    }
}

/// The handles the counter gives from 2 on, before it comes round again,
/// are 2, 3, ... up to `u32::MAX` and then 1.
pub proof fn lemma_handle_after(n: nat)
    requires
        n < u32::MAX,
    ensures
        handle_after(2, n) == if n == u32::MAX - 1 {
            1u32
        } else {
            (n + 2) as u32
        },
    decreases n,
{
    if n > 0 {
        lemma_handle_after((n - 1) as nat);
    }
}

/// Handles the counter gives less than a full round apart differ.
pub proof fn lemma_handles_differ(k: nat, n: nat)
    requires
        k < n < u32::MAX,
    ensures
        handle_after(2, k) != handle_after(2, n),
{
    lemma_handle_after(k);
    lemma_handle_after(n);
}

impl Nxcb {
    /// The next free handle is the one the counter reaches from 2 after
    /// handing out `issued` handles.
    pub open spec fn ids_counted(&self) -> bool {
        self.next_id == handle_after(2, self.issued@)
    }

    /// Handle `h` differs from every handle handed out so far.
    pub open spec fn fresh(&self, h: u32) -> bool {
        forall|k: nat| k < self.issued@ ==> handle_after(2, k) != h
    }

    /// Whether the screen's setup and the interned atoms are those of `o`,
    /// with the handle count never going back and matching the counter
    /// wherever it did in `o`.
    pub open spec fn same_setup(&self, o: &Nxcb) -> bool {
        &&& self.screen_n == o.screen_n
        &&& self.atoms == o.atoms
        &&& self.depth == o.depth
        &&& self.root == o.root
        &&& self.visual_id == o.visual_id
        &&& o.ids_counted() ==> self.ids_counted()
        &&& self.issued@ >= o.issued@
    }

    /// A connection to screen `screen_n`, whose root window has handle 1 and the
    /// given depth and visual, holding the atoms interned on it; nothing
    /// queued yet.
    pub fn new(screen_n: i32, depth: u8, visual_id: u32, atoms: NAtoms) -> (c: Nxcb)
        ensures
            c.screen_n == screen_n,
            c.atoms == atoms,
            c.depth == depth,
            c.visual_id == visual_id,
            c.root == 1,
            c.gc == NONE,
            c.drawable == Drawable::Empty,
            c.next_id == 2,
            c.issued@ == 0,
            c.ids_counted(),
            c.pending@.len() == 0,
    {
        Nxcb {
            screen_n,
            atoms,
            depth,
            root: 1,
            visual_id,
            gc: NONE,
            drawable: Drawable::Empty,
            next_id: 2,
            issued: Ghost(0),
            pending: Vec::new(),
        }
    }

    /// Nothing to prepare before the first window.
    pub fn prepare(&mut self)
        ensures
            *final(self) == *old(self),
    {
    }

    /// The next handle: one that differs from every handle handed out
    /// before, as long as fewer than a full round of the counter were.
    pub fn new_id(&mut self) -> (id: u32)
        ensures
            id == old(self).next_id,
            final(self).next_id == next_handle(old(self).next_id),
            final(self).issued@ == old(self).issued@ + 1,
            old(self).ids_counted() && old(self).issued@ < u32::MAX ==> old(self).fresh(id),
            final(self).pending == old(self).pending,
            final(self).gc == old(self).gc,
            final(self).drawable == old(self).drawable,
            final(self).same_setup(old(self)),
    {
        proof {
            if old(self).ids_counted() && old(self).issued@ < u32::MAX {
                assert forall|k: nat| k < old(self).issued@ implies handle_after(2, k) != old(self).next_id by {
                    lemma_handles_differ(k, old(self).issued@);
                }
            }
            self.issued@ = self.issued@ + 1;
        }
        let id = self.next_id;
        self.next_id = if self.next_id == u32::MAX {
            1
        } else {
            self.next_id + 1
        };
        id
    }

    /// Queues `req`.
    pub fn request(&mut self, req: XRequest)
        ensures
            final(self).pending@ == old(self).pending@.push(req),
            final(self).next_id == old(self).next_id,
            final(self).gc == old(self).gc,
            final(self).drawable == old(self).drawable,
            final(self).same_setup(old(self)),
    {
        self.pending.push(req);
    }

    /// Hands over every queued request, oldest first, and empties the queue.
    pub fn collect(&mut self) -> (sent: Vec<XRequest>)
        ensures
            sent@ == old(self).pending@,
            final(self).pending@.len() == 0,
            final(self).next_id == old(self).next_id,
            final(self).same_setup(old(self)),
            final(self).gc == old(self).gc,
            final(self).drawable == old(self).drawable,
    {
        let mut sent = Vec::new();
        std::mem::swap(&mut sent, &mut self.pending);
        sent
    }

    /// Unmaps `window`.
    pub fn hide_window(&mut self, window: u32)
        ensures
            final(self).pending@ == old(self).pending@.push(XRequest::UnmapWindow { window }),
            final(self).next_id == old(self).next_id,
            final(self).same_setup(old(self)),
            final(self).gc == old(self).gc,
            final(self).drawable == old(self).drawable,
    {
        self.request(XRequest::UnmapWindow { window });
    }

    /// Maps `window`.
    pub fn show(&mut self, window: u32)
        ensures
            final(self).pending@ == old(self).pending@.push(XRequest::MapWindow { window }),
            final(self).next_id == old(self).next_id,
            final(self).same_setup(old(self)),
            final(self).gc == old(self).gc,
            final(self).drawable == old(self).drawable,
    {
        self.request(XRequest::MapWindow { window });
    }

    /// Asks for configure notifications on `window`, under a fresh event id.
    pub fn select_input_cfg(&mut self, window: u32)
        ensures
            final(self).pending@ == old(self).pending@.push(
                XRequest::SelectPresentInput { eid: old(self).next_id, window },
            ),
            old(self).ids_counted() && old(self).issued@ < u32::MAX ==> old(self).fresh(old(self).next_id),
            final(self).next_id == next_handle(old(self).next_id),
            final(self).same_setup(old(self)),
            final(self).gc == old(self).gc,
            final(self).drawable == old(self).drawable,
    {
        let eid = self.new_id();
        self.request(XRequest::SelectPresentInput { eid, window });
    }

    /// Moves `window` to (`x`, `y`).
    pub fn pos(&mut self, window: u32, x: i16, y: i16)
        ensures
            final(self).pending@ == old(self).pending@.push(
                XRequest::MoveWindow { window, x: x as i32, y: y as i32 },
            ),
            final(self).next_id == old(self).next_id,
            final(self).same_setup(old(self)),
            final(self).gc == old(self).gc,
            final(self).drawable == old(self).drawable,
    {
        self.request(XRequest::MoveWindow { window, x: x as i32, y: y as i32 });
    }

    /// Sends `win` an exposure of the given area.
    pub fn request_redraw(&mut self, win: u32, x: u16, y: u16, w: u16, h: u16)
        ensures
            final(self).pending@ == old(self).pending@.push(
                XRequest::Expose { window: win, x, y, width: w, height: h },
            ),
            final(self).next_id == old(self).next_id,
            final(self).same_setup(old(self)),
            final(self).gc == old(self).gc,
            final(self).drawable == old(self).drawable,
    {
        self.request(XRequest::Expose { window: win, x, y, width: w, height: h });
    }

    /// Resizes `window`.
    pub fn size(&mut self, window: u32, width: u16, height: u16)
        ensures
            final(self).pending@ == old(self).pending@.push(
                XRequest::ResizeWindow { window, width: width as u32, height: height as u32 },
            ),
            final(self).next_id == old(self).next_id,
            final(self).same_setup(old(self)),
            final(self).gc == old(self).gc,
            final(self).drawable == old(self).drawable,
    {
        self.request(XRequest::ResizeWindow { window, width: width as u32, height: height as u32 });
    }

    /// Sets the background pixel of `window`.
    pub fn bg(&mut self, window: u32, bg: u32)
        ensures
            final(self).pending@ == old(self).pending@.push(
                XRequest::SetBackPixel { window, pixel: bg },
            ),
            final(self).next_id == old(self).next_id,
            final(self).same_setup(old(self)),
            final(self).gc == old(self).gc,
            final(self).drawable == old(self).drawable,
    {
        self.request(XRequest::SetBackPixel { window, pixel: bg });
    }

    /// Puts the image `b` on `drawable` at the connection's depth.
    pub fn fill(
        &mut self,
        gc: u32,
        drawable: Drawable,
        b: Vec<u8>,
        dst_x: i16,
        dst_y: i16,
        width: u16,
        height: u16,
    )
        ensures
            final(self).pending@ == old(self).pending@.push(
                XRequest::PutImage {
                    drawable,
                    gc,
                    width,
                    height,
                    dst_x,
                    dst_y,
                    depth: old(self).depth,
                    data: b,
                },
            ),
            final(self).next_id == old(self).next_id,
            final(self).same_setup(old(self)),
            final(self).gc == old(self).gc,
            final(self).drawable == old(self).drawable,
    {
        let depth = self.depth;
        self.request(
            XRequest::PutImage { drawable, gc, width, height, dst_x, dst_y, depth, data: b },
        );
    }

    /// Copies an area from `src_drawable` to `dst_drawable`.
    pub fn copy(
        &mut self,
        gc: u32,
        src_drawable: Drawable,
        dst_drawable: Drawable,
        src_x: i16,
        src_y: i16,
        dst_x: i16,
        dst_y: i16,
        width: u16,
        height: u16,
    )
        ensures
            final(self).pending@ == old(self).pending@.push(
                XRequest::CopyArea {
                    src: src_drawable,
                    dst: dst_drawable,
                    gc,
                    src_x,
                    src_y,
                    dst_x,
                    dst_y,
                    width,
                    height,
                },
            ),
            final(self).next_id == old(self).next_id,
            final(self).same_setup(old(self)),
            final(self).gc == old(self).gc,
            final(self).drawable == old(self).drawable,
    {
        self.request(
            XRequest::CopyArea {
                src: src_drawable,
                dst: dst_drawable,
                gc,
                src_x,
                src_y,
                dst_x,
                dst_y,
                width,
                height,
            },
        );
    }

    /// The event made of what was polled (nothing when nothing was waiting).
    pub fn wait_event(&self, polled: Option<RawEvent>) -> (e: Nevent)
        ensures
            e == nevent_of(polled),
    {
        let mut ret = Nevent::new();
        match polled {
            None => ret,
            Some(RawEvent::ConfigureNotify { window, width, height }) => {
                ret.window = window;
                ret.width = width;
                ret.height = height;
                ret.code = Nevent::RESIZE;
                ret
            },
            Some(RawEvent::Expose { window }) => {
                ret.window = window;
                ret.code = Nevent::RENDER;
                ret
            },
            Some(RawEvent::ButtonRelease { event, detail, x, y }) => {
                ret.window = event;
                ret.x = x;
                ret.y = y;
                ret.code = Nevent::B_UP;
                ret
            },
            Some(_) => {
                ret.code = Nevent::UNKNOWN;
                ret
            },
        }
    }
}

} // verus!
