//! The layer tree's connection to the X server: the master window, its blank
//! cursor, and the drawing calls that the layers and players make, each turned
//! into queued requests.
use vstd::prelude::*;
use crate::xproto::{
    XRequest, Drawable, GcValues, RawEvent, XcbEvent, xcb_event_of, next_handle, NONE, KEY_PRESS,
    BUTTON_PRESS, BUTTON_RELEASE, POINTER_MOTION, EXPOSURE, OWNER_GRAB_BUTTON,
};

verus! {

/// Truncated remainder, as `%` on Rust integers computes it.
pub open spec fn rem0(a: int, b: int) -> int {
    if a >= 0 {
        a % b
    } else {
        -((-a) % b)
    }
}

/// A bit-plane width padded up to a multiple of 32 the way the mask code pads
/// it: `w + (32 - w % 32) % 32` with Rust's remainder.
pub open spec fn padded_width(w: int) -> int {
    w + rem0(32 - rem0(w, 32), 32)
}

/// The events a master window listens to.
pub open spec fn master_events() -> u32 {
    OWNER_GRAB_BUTTON | POINTER_MOTION | KEY_PRESS | BUTTON_PRESS | BUTTON_RELEASE
}

/// The events a child window of a layer listens to.
pub open spec fn sub_events() -> u32 {
    EXPOSURE | POINTER_MOTION | KEY_PRESS | BUTTON_PRESS | BUTTON_RELEASE
}

/// The events a media window listens to (no exposures).
pub open spec fn basic_events() -> u32 {
    POINTER_MOTION | KEY_PRESS | BUTTON_PRESS | BUTTON_RELEASE
}

/// Whether a GLX version `major`.`minor` is one the player works with: a
/// major version of at least 1 and a minor version of at least 3.
pub fn glx_supported(major: u32, minor: u32) -> (ok: bool)
    ensures
        ok == (major >= 1 && minor >= 3),
{
    major >= 1 && minor >= 3
}

/// The layer tree's connection.
pub struct Xcb {
    pub screen_n: i32,
    pub depth: u8,
    pub root: u32,
    pub visual_id: u32,
    pub s_width: u16,
    pub s_height: u16,
    pub master_window: u32,
    pub blank_cursor: u32,
    /// The `WM_DELETE_WINDOW` atom.
    pub del_atom: u32,
    pub next_id: u32,
    pub pending: Vec<XRequest>,
}

impl Xcb {
    /// Whether nothing but the queue and the handle counter differ from `o`.
    pub open spec fn same_setup(&self, o: &Xcb) -> bool {
        &&& self.screen_n == o.screen_n
        &&& self.depth == o.depth
        &&& self.root == o.root
        &&& self.visual_id == o.visual_id
        &&& self.s_width == o.s_width
        &&& self.s_height == o.s_height
        &&& self.master_window == o.master_window
        &&& self.blank_cursor == o.blank_cursor
        &&& self.del_atom == o.del_atom
    }

    /// The connection to screen `screen_n` (root window handle 1): it creates
    /// the 1280x720 master window with a black background, names it `REX`,
    /// asks for its configure notifications and for the delete-window
    /// protocol, and makes a blank cursor from a 32x32 bit plane.
    pub fn new(screen_n: i32, depth: u8, visual_id: u32, s_width: u16, s_height: u16, del_atom: u32) -> (c: Xcb)
        ensures
            c.screen_n == screen_n,
            c.depth == depth,
            c.visual_id == visual_id,
            c.s_width == s_width,
            c.s_height == s_height,
            c.del_atom == del_atom,
            c.root == 1,
            c.master_window == 2,
            c.blank_cursor == 4,
            c.next_id == 6,
            c.pending@ == seq![
                XRequest::CreateWindow {
                    wid: 2,
                    parent: 1,
                    width: 1280,
                    height: 720,
                    depth,
                    visual: visual_id,
                    back_pixel: Some(0xFF00_0000u32),
                    backing_pixel: None,
                    event_mask: master_events(),
                    cursor_none: false,
                },
                XRequest::SetWmName { window: 2, name: c.pending@[1]->SetWmName_name },
                XRequest::SelectPresentInput { eid: 3, window: 2 },
                XRequest::SetWmProtocols { window: 2 },
                XRequest::CreatePixmap {
                    pid: 5,
                    drawable: Drawable::Window(2),
                    width: 32,
                    height: 32,
                    depth: 1,
                },
                XRequest::CreateCursor { cid: 4, pixmap: 5 },
                XRequest::FreePixmap { pixmap: 5 },
            ],
            c.pending@[1]->SetWmName_name@ == seq![82u8, 69u8, 88u8],
    {
        let mut c = Xcb {
            screen_n,
            depth,
            root: 1,
            visual_id,
            s_width,
            s_height,
            master_window: NONE,
            blank_cursor: NONE,
            del_atom,
            next_id: 2,
            pending: Vec::new(),
        };
        let master = c.new_id();
        c.master_window = master;
        let events = OWNER_GRAB_BUTTON | POINTER_MOTION | KEY_PRESS | BUTTON_PRESS | BUTTON_RELEASE;
        c.request(
            XRequest::CreateWindow {
                wid: master,
                parent: c.root,
                width: 1280,
                height: 720,
                depth,
                visual: visual_id,
                back_pixel: Some(0xFF00_0000u32),
                backing_pixel: None,
                event_mask: events,
                cursor_none: false,
            },
        );
        let name = vec![82u8, 69u8, 88u8];
        c.request(XRequest::SetWmName { window: master, name });
        let eid = c.new_id();
        c.request(XRequest::SelectPresentInput { eid, window: master });
        c.request(XRequest::SetWmProtocols { window: master });
        let cid = c.new_id();
        let pix = c.new_id();
        c.request(
            XRequest::CreatePixmap {
                pid: pix,
                drawable: Drawable::Window(master),
                width: 32,
                height: 32,
                depth: 1,
            },
        );
        c.request(XRequest::CreateCursor { cid, pixmap: pix });
        c.request(XRequest::FreePixmap { pixmap: pix });
        c.blank_cursor = cid;
        assert(c.pending@[1]->SetWmName_name@ =~= seq![82u8, 69u8, 88u8]);
        c
    }

    /// A fresh handle.
    pub fn new_id(&mut self) -> (id: u32)
        ensures
            id == old(self).next_id,
            final(self).next_id == next_handle(old(self).next_id),
            final(self).pending == old(self).pending,
            final(self).same_setup(old(self)),
    {
        let id = self.next_id;
        self.next_id = if self.next_id == u32::MAX {
            1
        } else {
            self.next_id + 1
        };
        id
    }

    /// Queues `req`.
    pub fn request(&mut self, req: XRequest)
        ensures
            final(self).pending@ == old(self).pending@.push(req),
            final(self).next_id == old(self).next_id,
            final(self).same_setup(old(self)),
    {
        self.pending.push(req);
    }

    /// Hands over every queued request, oldest first, and empties the queue.
    pub fn collect(&mut self) -> (sent: Vec<XRequest>)
        ensures
            sent@ == old(self).pending@,
            final(self).pending@.len() == 0,
            final(self).next_id == old(self).next_id,
            final(self).same_setup(old(self)),
    {
        let mut sent = Vec::new();
        std::mem::swap(&mut sent, &mut self.pending);
        sent
    }

    /// A one-bit-deep pixmap whose width is `width` padded to a multiple of 32.
    pub fn new_mask(&mut self, drawable: Drawable, width: i16, height: i16) -> (pix: u32)
        requires
            padded_width(width as int) <= i16::MAX,
        ensures
            pix == old(self).next_id,
            final(self).next_id == next_handle(old(self).next_id),
            final(self).same_setup(old(self)),
            final(self).pending@ == old(self).pending@.push(
                XRequest::CreatePixmap {
                    pid: pix,
                    drawable,
                    width: padded_width(width as int) as u16,
                    height: height as u16,
                    depth: 1,
                },
            ),
    {
        let bpad = (32 - (width % 32)) % 32;
        let paddedw = width + bpad;
        let pix = self.new_id();
        self.request(
            XRequest::CreatePixmap {
                pid: pix,
                drawable,
                width: paddedw as u16,
                height: height as u16,
                depth: 1,
            },
        );
        pix
    }

    /// Takes `window` off the screen.
    pub fn drop_window(&mut self, window: u32)
        ensures
            final(self).pending@ == old(self).pending@.push(XRequest::UnmapWindow { window }),
            final(self).next_id == old(self).next_id,
            final(self).same_setup(old(self)),
    {
        self.request(XRequest::UnmapWindow { window });
    }

    /// Frees `pixmap`.
    pub fn drop_pixmap(&mut self, pixmap: u32)
        ensures
            final(self).pending@ == old(self).pending@.push(XRequest::FreePixmap { pixmap }),
            final(self).next_id == old(self).next_id,
            final(self).same_setup(old(self)),
    {
        self.request(XRequest::FreePixmap { pixmap });
    }

    /// Frees `gc`.
    pub fn drop_gc(&mut self, gc: u32)
        ensures
            final(self).pending@ == old(self).pending@.push(XRequest::FreeGc { gc }),
            final(self).next_id == old(self).next_id,
            final(self).same_setup(old(self)),
    {
        self.request(XRequest::FreeGc { gc });
    }

    /// A pixmap of the screen's depth.
    pub fn new_pixmap(&mut self, drawable: Drawable, width: u16, height: u16) -> (pix: u32)
        ensures
            pix == old(self).next_id,
            final(self).next_id == next_handle(old(self).next_id),
            final(self).same_setup(old(self)),
            final(self).pending@ == old(self).pending@.push(
                XRequest::CreatePixmap { pid: pix, drawable, width, height, depth: old(self).depth },
            ),
    {
        let pix = self.new_id();
        let depth = self.depth;
        self.request(XRequest::CreatePixmap { pid: pix, drawable, width, height, depth });
        pix
    }

    /// A 64x64 child window of `parent` with background `bg` and no cursor,
    /// listening to exposures, motion, keys and buttons.
    pub fn new_sub_window(&mut self, parent: u32, bg: u32) -> (window: u32)
        ensures
            window == old(self).next_id,
            final(self).next_id == next_handle(old(self).next_id),
            final(self).same_setup(old(self)),
            final(self).pending@ == old(self).pending@.push(
                XRequest::CreateWindow {
                    wid: window,
                    parent,
                    width: 64,
                    height: 64,
                    depth: old(self).depth,
                    visual: old(self).visual_id,
                    back_pixel: Some(bg),
                    backing_pixel: None,
                    event_mask: sub_events(),
                    cursor_none: true,
                },
            ),
    {
        let window = self.new_id();
        let depth = self.depth;
        let visual = self.visual_id;
        self.request(
            XRequest::CreateWindow {
                wid: window,
                parent,
                width: 64,
                height: 64,
                depth,
                visual,
                back_pixel: Some(bg),
                backing_pixel: None,
                event_mask: EXPOSURE | POINTER_MOTION | KEY_PRESS | BUTTON_PRESS | BUTTON_RELEASE,
                cursor_none: true,
            },
        );
        window
    }

    /// A 64x64 child window of `parent` for media, with background `bg` and no
    /// cursor, listening to motion, keys and buttons but not to exposures.
    pub fn new_basic_window(&mut self, parent: u32, bg: u32) -> (window: u32)
        ensures
            window == old(self).next_id,
            final(self).next_id == next_handle(old(self).next_id),
            final(self).same_setup(old(self)),
            final(self).pending@ == old(self).pending@.push(
                XRequest::CreateWindow {
                    wid: window,
                    parent,
                    width: 64,
                    height: 64,
                    depth: old(self).depth,
                    visual: old(self).visual_id,
                    back_pixel: Some(bg),
                    backing_pixel: None,
                    event_mask: basic_events(),
                    cursor_none: true,
                },
            ),
    {
        let window = self.new_id();
        let depth = self.depth;
        let visual = self.visual_id;
        self.request(
            XRequest::CreateWindow {
                wid: window,
                parent,
                width: 64,
                height: 64,
                depth,
                visual,
                back_pixel: Some(bg),
                backing_pixel: None,
                event_mask: POINTER_MOTION | KEY_PRESS | BUTTON_PRESS | BUTTON_RELEASE,
                cursor_none: true,
            },
        );
        window
    }

    /// A graphics context drawing in `fg` on `bg`, without graphics exposures.
    pub fn new_gc(&mut self, d: Drawable, fg: u32, bg: u32) -> (gc: u32)
        ensures
            gc == old(self).next_id,
            final(self).next_id == next_handle(old(self).next_id),
            final(self).same_setup(old(self)),
            final(self).pending@ == old(self).pending@.push(
                XRequest::CreateGc {
                    cid: gc,
                    drawable: d,
                    values: GcValues {
                        foreground: Some(fg),
                        background: Some(bg),
                        graphics_exposures: Some(false),
                        clip_mask: None,
                    },
                    checked: false,
                },
            ),
    {
        let gc = self.new_id();
        self.request(
            XRequest::CreateGc {
                cid: gc,
                drawable: d,
                values: GcValues {
                    foreground: Some(fg),
                    background: Some(bg),
                    graphics_exposures: Some(false),
                    clip_mask: None,
                },
                checked: false,
            },
        );
        gc
    }

    /// A graphics context like `new_gc`, clipped by the mask `msk`.
    pub fn new_masked_gc(&mut self, d: Drawable, msk: u32, fg: u32, bg: u32) -> (gc: u32)
        ensures
            gc == old(self).next_id,
            final(self).next_id == next_handle(old(self).next_id),
            final(self).same_setup(old(self)),
            final(self).pending@ == old(self).pending@.push(
                XRequest::CreateGc {
                    cid: gc,
                    drawable: d,
                    values: GcValues {
                        foreground: Some(fg),
                        background: Some(bg),
                        graphics_exposures: Some(false),
                        clip_mask: Some(msk),
                    },
                    checked: false,
                },
            ),
    {
        let gc = self.new_id();
        self.request(
            XRequest::CreateGc {
                cid: gc,
                drawable: d,
                values: GcValues {
                    foreground: Some(fg),
                    background: Some(bg),
                    graphics_exposures: Some(false),
                    clip_mask: Some(msk),
                },
                checked: false,
            },
        );
        gc
    }

    /// The event made of what was polled.
    pub fn wait_event(&self, polled: Option<RawEvent>) -> (e: XcbEvent)
        ensures
            e == xcb_event_of(polled, self.del_atom),
    {
        let mut ret = XcbEvent::new();
        match polled {
            None => {},
            Some(event) => {
                ret.code = XcbEvent::NONE;
                match event {
                    RawEvent::ClientMessage { atom } => {
                        if let Some(a) = atom {
                            if a == self.del_atom {
                                ret.code = XcbEvent::CLOSE;
                            }
                        }
                    },
                    RawEvent::ConfigureNotify { window, width, height } => {
                        ret.window = window;
                        ret.width = width;
                        ret.height = height;
                        ret.code = XcbEvent::RESIZE;
                    },
                    RawEvent::MotionNotify { event, child, x, y } => {
                        ret.window = child;
                        if ret.window == NONE {
                            ret.window = event;
                        }
                        ret.x = x;
                        ret.y = y;
                        ret.code = XcbEvent::MOTION;
                    },
                    RawEvent::Expose { window } => {
                        ret.window = window;
                        ret.code = XcbEvent::RENDER;
                    },
                    RawEvent::ButtonPress { event, detail, x, y } => {
                        if detail == 4 {
                            ret.code = XcbEvent::SCROLL_UP;
                        } else if detail == 5 {
                            ret.code = XcbEvent::SCROLL_DOWN;
                        } else {
                            ret.code = XcbEvent::B_DOWN;
                        }
                        ret.window = event;
                        ret.x = x;
                        ret.y = y;
                        ret.button = detail;
                    },
                    RawEvent::ButtonRelease { event, detail, x, y } => {
                        if detail != 4 && detail != 5 {
                            ret.code = XcbEvent::B_UP;
                            ret.window = event;
                            ret.x = x;
                            ret.y = y;
                            ret.button = detail;
                        }
                    },
                    RawEvent::Other => {
                        ret.code = XcbEvent::UNKNOWN;
                    },
                }
            },
        }
        ret
    }

    /// Unmaps `window`.
    pub fn hide_window(&mut self, window: u32)
        ensures
            final(self).pending@ == old(self).pending@.push(XRequest::UnmapWindow { window }),
            final(self).next_id == old(self).next_id,
            final(self).same_setup(old(self)),
    {
        self.request(XRequest::UnmapWindow { window });
    }

    /// Maps `window`.
    pub fn show(&mut self, window: u32)
        ensures
            final(self).pending@ == old(self).pending@.push(XRequest::MapWindow { window }),
            final(self).next_id == old(self).next_id,
            final(self).same_setup(old(self)),
    {
        self.request(XRequest::MapWindow { window });
    }

    /// Asks for configure notifications on `window`, under a fresh event id.
    pub fn select_input_cfg(&mut self, window: u32)
        ensures
            final(self).pending@ == old(self).pending@.push(
                XRequest::SelectPresentInput { eid: old(self).next_id, window },
            ),
            final(self).next_id == next_handle(old(self).next_id),
            final(self).same_setup(old(self)),
    {
        let eid = self.new_id();
        self.request(XRequest::SelectPresentInput { eid, window });
    }

    /// Shows the pointer over the master window (`vis`) or blanks it.
    pub fn cursor_vis(&mut self, vis: bool)
        ensures
            final(self).pending@ == old(self).pending@.push(
                XRequest::SetCursor { window: old(self).master_window, blank: !vis },
            ),
            final(self).next_id == old(self).next_id,
            final(self).same_setup(old(self)),
    {
        let window = self.master_window;
        self.request(XRequest::SetCursor { window, blank: !vis });
    }

    /// Moves `window` to (`x`, `y`).
    pub fn pos(&mut self, window: u32, x: i16, y: i16)
        ensures
            final(self).pending@ == old(self).pending@.push(
                XRequest::MoveWindow { window, x: x as i32, y: y as i32 },
            ),
            final(self).next_id == old(self).next_id,
            final(self).same_setup(old(self)),
    {
        self.request(XRequest::MoveWindow { window, x: x as i32, y: y as i32 });
    }

    /// Sends `win` an exposure of the given area.
    pub fn request_redraw(&mut self, win: u32, x: u16, y: u16, w: u16, h: u16)
        ensures
            final(self).pending@ == old(self).pending@.push(
                XRequest::Expose { window: win, x, y, width: w, height: h },
            ),
            final(self).next_id == old(self).next_id,
            final(self).same_setup(old(self)),
    {
        self.request(XRequest::Expose { window: win, x, y, width: w, height: h });
    }

    /// Resizes `window`.
    pub fn size(&mut self, window: u32, width: u16, height: u16)
        ensures
            final(self).pending@ == old(self).pending@.push(
                XRequest::ResizeWindow { window, width: width as u32, height: height as u32 },
            ),
            final(self).next_id == old(self).next_id,
            final(self).same_setup(old(self)),
    {
        self.request(XRequest::ResizeWindow { window, width: width as u32, height: height as u32 });
    }

    /// Sets the background pixel of `window`.
    pub fn bg(&mut self, window: u32, bg: u32)
        ensures
            final(self).pending@ == old(self).pending@.push(
                XRequest::SetBackPixel { window, pixel: bg },
            ),
            final(self).next_id == old(self).next_id,
            final(self).same_setup(old(self)),
    {
        self.request(XRequest::SetBackPixel { window, pixel: bg });
    }

    /// Sets the background pixmap of `window`.
    pub fn map_bg(&mut self, window: u32, map: u32)
        ensures
            final(self).pending@ == old(self).pending@.push(
                XRequest::SetBackPixmap { window, pixmap: map },
            ),
            final(self).next_id == old(self).next_id,
            final(self).same_setup(old(self)),
    {
        self.request(XRequest::SetBackPixmap { window, pixmap: map });
    }

    /// Fills a rectangle of `drawable`.
    pub fn rect(&mut self, gc: u32, drawable: Drawable, x: i16, y: i16, width: u16, height: u16)
        ensures
            final(self).pending@ == old(self).pending@.push(
                XRequest::FillRectangle { drawable, gc, x, y, width, height },
            ),
            final(self).next_id == old(self).next_id,
            final(self).same_setup(old(self)),
    {
        self.request(XRequest::FillRectangle { drawable, gc, x, y, width, height });
    }

    /// Puts the image `b` on `drawable` at the screen's depth.
    pub fn fill(
        &mut self,
        gc: u32,
        drawable: Drawable,
        b: Vec<u8>,
        dst_x: i16,
        dst_y: i16,
        width: u16,
        height: u16,
    )
        ensures
            final(self).pending@ == old(self).pending@.push(
                XRequest::PutImage {
                    drawable,
                    gc,
                    width,
                    height,
                    dst_x,
                    dst_y,
                    depth: old(self).depth,
                    data: b,
                },
            ),
            final(self).next_id == old(self).next_id,
            final(self).same_setup(old(self)),
    {
        let depth = self.depth;
        self.request(
            XRequest::PutImage { drawable, gc, width, height, dst_x, dst_y, depth, data: b },
        );
    }

    /// Copies an area from `src_drawable` to `dst_drawable`.
    pub fn copy(
        &mut self,
        gc: u32,
        src_drawable: Drawable,
        dst_drawable: Drawable,
        src_x: i16,
        src_y: i16,
        dst_x: i16,
        dst_y: i16,
        width: u16,
        height: u16,
    )
        ensures
            final(self).pending@ == old(self).pending@.push(
                XRequest::CopyArea {
                    src: src_drawable,
                    dst: dst_drawable,
                    gc,
                    src_x,
                    src_y,
                    dst_x,
                    dst_y,
                    width,
                    height,
                },
            ),
            final(self).next_id == old(self).next_id,
            final(self).same_setup(old(self)),
    {
        self.request(
            XRequest::CopyArea {
                src: src_drawable,
                dst: dst_drawable,
                gc,
                src_x,
                src_y,
                dst_x,
                dst_y,
                width,
                height,
            },
        );
    }
}

} // verus!
