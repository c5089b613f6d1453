//! The window tree's resources and layout: the requests that make its windows,
//! pixmaps, graphics contexts and bit planes, and the placement of a scene's
//! windows inside the master window.
use vstd::prelude::*;
use std::collections::HashMap;
use crate::xproto::{
    Nxcb, XRequest, Drawable, GcValues, next_handle, NONE, KEY_PRESS, BUTTON_PRESS,
    BUTTON_RELEASE, POINTER_MOTION, EXPOSURE, OWNER_GRAB_BUTTON,
};
use crate::scene::{Nnode, Nscene, attrs_wf, all_attrs_wf};
use crate::numbers::{parse_unsigned, parse_uint};
use crate::text::{chars_of, split, split_on};
use crate::strmap::Pairs;
use crate::layout::{scene_size_ok, scene_size, scene_anchor, wrap16, scene_size_valid, scene_calc, scene_anchor_of, wrap};

verus! {

/// The events every window of the window tree listens to.
pub open spec fn tree_events() -> u32 {
    OWNER_GRAB_BUTTON | EXPOSURE | POINTER_MOTION | KEY_PRESS | BUTTON_PRESS | BUTTON_RELEASE
}

/// The graphics context values of the window tree: light grey on near black.
pub open spec fn tree_gc_values() -> GcValues {
    GcValues {
        foreground: Some(0xFFEE_EEEE),
        background: Some(0xFF11_1111),
        graphics_exposures: None,
        clip_mask: None,
    }
}

/// The request that creates window `wid` at (0, 0) in `parent`, `w` by `h`.
pub open spec fn create_window(
    depth: u8,
    visual: u32,
    wid: u32,
    parent: u32,
    w: u16,
    h: u16,
    back_pixel: Option<u32>,
    backing_pixel: Option<u32>,
) -> XRequest {
    XRequest::CreateWindow {
        wid,
        parent,
        width: w,
        height: h,
        depth,
        visual,
        back_pixel,
        backing_pixel,
        event_mask: tree_events(),
        cursor_none: false,
    }
}

/// The builders of the window tree's resources.
pub struct Nreq {}

impl Nreq {
    /// A pixmap of the connection's depth, drawn on the connection's drawable.
    pub fn new_pixmap(ctx: &mut Nxcb, width: u16, height: u16) -> (pix: u32)
        ensures
            pix == old(ctx).next_id,
            final(ctx).next_id == next_handle(old(ctx).next_id),
            final(ctx).same_setup(old(ctx)),
            final(ctx).gc == old(ctx).gc,
            final(ctx).drawable == old(ctx).drawable,
            final(ctx).pending@ == old(ctx).pending@.push(
                XRequest::CreatePixmap {
                    pid: pix,
                    drawable: old(ctx).drawable,
                    width,
                    height,
                    depth: old(ctx).depth,
                },
            ),
    {
        let pix = ctx.new_id();
        let depth = ctx.depth;
        let drawable = ctx.drawable;
        ctx.request(XRequest::CreatePixmap { pid: pix, drawable, width, height, depth });
        pix
    }

    /// The master window: 1280x720 in the root window with background `bg`.
    /// It becomes the connection's drawable, and a fresh graphics context on
    /// it the connection's graphics context.
    pub fn new_window(ctx: &mut Nxcb, bg: u32) -> (window: u32)
        ensures
            window == old(ctx).next_id,
            final(ctx).gc == next_handle(window),
            final(ctx).next_id == next_handle(next_handle(window)),
            final(ctx).drawable == Drawable::Window(window),
            final(ctx).same_setup(old(ctx)),
            final(ctx).pending@ == old(ctx).pending@.push(
                create_window(old(ctx).depth, old(ctx).visual_id, window, old(ctx).root, 1280, 720, Some(bg), None),
            ).push(
                XRequest::CreateGc {
                    cid: next_handle(window),
                    drawable: Drawable::Window(window),
                    values: tree_gc_values(),
                    checked: false,
                },
            ),
    {
        let window = ctx.new_id();
        let depth = ctx.depth;
        let visual = ctx.visual_id;
        let root = ctx.root;
        ctx.request(
            XRequest::CreateWindow {
                wid: window,
                parent: root,
                width: 1280,
                height: 720,
                depth,
                visual,
                back_pixel: Some(bg),
                backing_pixel: None,
                event_mask: OWNER_GRAB_BUTTON | EXPOSURE | POINTER_MOTION | KEY_PRESS
                    | BUTTON_PRESS | BUTTON_RELEASE,
                cursor_none: false,
            },
        );
        ctx.drawable = Drawable::Window(window);
        let d = ctx.drawable;
        ctx.gc = Self::new_gc(ctx, d);
        window
    }

    /// A 96x96 child window of `parent` whose backing pixel is `bg`.
    pub fn new_sheer_window(ctx: &mut Nxcb, parent: u32, bg: u32) -> (window: u32)
        ensures
            window == old(ctx).next_id,
            final(ctx).next_id == next_handle(window),
            final(ctx).same_setup(old(ctx)),
            final(ctx).gc == old(ctx).gc,
            final(ctx).drawable == old(ctx).drawable,
            final(ctx).pending@ == old(ctx).pending@.push(
                create_window(old(ctx).depth, old(ctx).visual_id, window, parent, 96, 96, None, Some(bg)),
            ),
    {
        let window = ctx.new_id();
        let depth = ctx.depth;
        let visual = ctx.visual_id;
        ctx.request(
            XRequest::CreateWindow {
                wid: window,
                parent,
                width: 96,
                height: 96,
                depth,
                visual,
                back_pixel: None,
                backing_pixel: Some(bg),
                event_mask: OWNER_GRAB_BUTTON | EXPOSURE | POINTER_MOTION | KEY_PRESS
                    | BUTTON_PRESS | BUTTON_RELEASE,
                cursor_none: false,
            },
        );
        window
    }

    /// A 96x96 child window of `parent` with background `bg`.
    pub fn new_sub_window(ctx: &mut Nxcb, parent: u32, bg: u32) -> (window: u32)
        ensures
            window == old(ctx).next_id,
            final(ctx).next_id == next_handle(window),
            final(ctx).same_setup(old(ctx)),
            final(ctx).gc == old(ctx).gc,
            final(ctx).drawable == old(ctx).drawable,
            final(ctx).pending@ == old(ctx).pending@.push(
                create_window(old(ctx).depth, old(ctx).visual_id, window, parent, 96, 96, Some(bg), None),
            ),
    {
        let window = ctx.new_id();
        let depth = ctx.depth;
        let visual = ctx.visual_id;
        ctx.request(
            XRequest::CreateWindow {
                wid: window,
                parent,
                width: 96,
                height: 96,
                depth,
                visual,
                back_pixel: Some(bg),
                backing_pixel: None,
                event_mask: OWNER_GRAB_BUTTON | EXPOSURE | POINTER_MOTION | KEY_PRESS
                    | BUTTON_PRESS | BUTTON_RELEASE,
                cursor_none: false,
            },
        );
        window
    }

    /// A graphics context on `d` drawing light grey on near black.
    pub fn new_gc(ctx: &mut Nxcb, d: Drawable) -> (gc: u32)
        ensures
            gc == old(ctx).next_id,
            final(ctx).next_id == next_handle(gc),
            final(ctx).same_setup(old(ctx)),
            final(ctx).gc == old(ctx).gc,
            final(ctx).drawable == old(ctx).drawable,
            final(ctx).pending@ == old(ctx).pending@.push(
                XRequest::CreateGc { cid: gc, drawable: d, values: tree_gc_values(), checked: false },
            ),
    {
        let gc = ctx.new_id();
        ctx.request(
            XRequest::CreateGc {
                cid: gc,
                drawable: d,
                values: GcValues {
                    foreground: Some(0xFFEE_EEEE),
                    background: Some(0xFF11_1111),
                    graphics_exposures: None,
                    clip_mask: None,
                },
                checked: false,
            },
        );
        gc
    }

    /// A graphics context on `d` clipped by the bit plane `msk`, sent checked.
    pub fn new_masked_gc(ctx: &mut Nxcb, d: Drawable, msk: u32) -> (gc: u32)
        ensures
            gc == old(ctx).next_id,
            final(ctx).next_id == next_handle(gc),
            final(ctx).same_setup(old(ctx)),
            final(ctx).gc == old(ctx).gc,
            final(ctx).drawable == old(ctx).drawable,
            final(ctx).pending@ == old(ctx).pending@.push(
                XRequest::CreateGc {
                    cid: gc,
                    drawable: d,
                    values: GcValues {
                        foreground: None,
                        background: None,
                        graphics_exposures: None,
                        clip_mask: Some(msk),
                    },
                    checked: true,
                },
            ),
    {
        let gc = ctx.new_id();
        ctx.request(
            XRequest::CreateGc {
                cid: gc,
                drawable: d,
                values: GcValues {
                    foreground: None,
                    background: None,
                    graphics_exposures: None,
                    clip_mask: Some(msk),
                },
                checked: true,
            },
        );
        gc
    }
}

/// A window of the window tree: the id of its node, its place and size in
/// the parent, its window and its background.
#[derive(Clone, Copy, PartialEq, Eq, Structural, Debug)]
pub struct Nvisual {
    pub key: u64,
    pub x: i16,
    pub y: i16,
    pub width: u16,
    pub height: u16,
    pub window: u32,
    pub bg: u32,
}

/// `bg`.
pub open spec fn bg_key() -> Seq<char> {
    seq!['b', 'g']
}

/// The background of `n`'s window: its `bg` attribute read as hexadecimal,
/// else dark blue; nothing when the attribute cannot be read.
pub open spec fn node_bg(n: Nnode) -> Option<u32> {
    if n.attrs.map().dom().contains(bg_key()) {
        match parse_unsigned(n.attrs.map()[bg_key()], 16, 0xffff_ffff) {
            Some(v) => Some(v as u32),
            None => None,
        }
    } else {
        Some(0xFF22_2255)
    }
}

/// Every node of `n`'s tree has a background that can be read.
pub open spec fn bgs_ok(n: Nnode) -> bool
    decreases n, 1int,
{
    node_bg(n) is Some && all_bgs_ok(n.children@)
}

/// Every node of the trees `ns` has a background that can be read.
pub open spec fn all_bgs_ok(ns: Seq<Nnode>) -> bool
    decreases ns, 0int,
{
    if ns.len() == 0 {
        true
    } else {
        all_bgs_ok(ns.drop_last()) && bgs_ok(ns.last())
    }
}

/// What building windows has made so far: the visuals by node id, the next
/// free handle and the requests queued.
pub type Built = (Map<u64, Nvisual>, u32, Seq<XRequest>);

/// A new 48x48 visual at (0, 0).
pub open spec fn fresh_visual(key: u64, window: u32, bg: u32) -> Nvisual {
    Nvisual { key, x: 0, y: 0, width: 48, height: 48, window, bg }
}

/// `b` after node `n` got a shown child window of `win` (the next handle),
/// with its background.
pub open spec fn build_one(b: Built, n: Nnode, win: u32, depth: u8, visual: u32) -> Built {
    let w = b.1;
    let bg = node_bg(n)->0;
    (
        b.0.insert(n.id, fresh_visual(n.id, w, bg)),
        next_handle(w),
        b.2.push(create_window(depth, visual, w, win, 96, 96, Some(bg), None)).push(
            XRequest::MapWindow { window: w },
        ),
    )
}

/// `b` after `n` and then its descendants, in document order, got windows.
pub open spec fn build_tree(b: Built, n: Nnode, win: u32, depth: u8, visual: u32) -> Built
    decreases n, 1int,
{
    build_kids(build_one(b, n, win, depth, visual), n.children@, win, depth, visual)
}

/// `b` after the trees `ns`, one after the other, got windows.
pub open spec fn build_kids(b: Built, ns: Seq<Nnode>, win: u32, depth: u8, visual: u32) -> Built
    decreases ns, 0int,
{
    if ns.len() == 0 {
        b
    } else {
        build_tree(build_kids(b, ns.drop_last(), win, depth, visual), ns.last(), win, depth, visual)
    }
}

/// The background of `n`'s window (see `node_bg`).
fn bg_of(n: &Nnode) -> (r: Option<u32>)
    requires
        n.attrs.wf(),
    ensures
        r == node_bg(*n),
{
    let k = vec!['b', 'g'];
    assert(k@ =~= bg_key());
    match n.attrs.get(&k) {
        Some(v) => match parse_uint(&chars_of(v.as_str()), 16, 0xffff_ffff) {
            Some(b) => Some(b as u32),
            None => None,
        },
        None => Some(0xFF22_2255),
    }
}

/// Whether every node of `n`'s tree has a background that can be read.
fn bgs_valid(n: &Nnode) -> (r: bool)
    requires
        attrs_wf(*n),
    ensures
        r == bgs_ok(*n),
    decreases *n,
{
    if bg_of(n).is_none() {
        return false;
    }
    let mut j: usize = 0;
    assert(n.children@.take(0) =~= Seq::<Nnode>::empty());
    while j < n.children.len()
        invariant
            j <= n.children.len(),
            attrs_wf(*n),
            all_bgs_ok(n.children@.take(j as int)),
        decreases n.children.len() - j,
    {
        assert(n.children@.take(j + 1).drop_last() =~= n.children@.take(j as int));
        assert(decreases_to!(*n => n.children@[j as int]));
        proof {
            lemma_all_attrs_wf_at(n.children@, j as int);
        }
        if !bgs_valid(&n.children[j]) {
            proof {
                if all_bgs_ok(n.children@) {
                    lemma_all_bgs_ok_at(n.children@, j as int);
                }
            }
            return false;
        }
        j += 1;
    }
    assert(n.children@.take(j as int) =~= n.children@);
    true
}

/// The tree at `j` of trees with distinct attribute keys has them too.
proof fn lemma_all_attrs_wf_at(ns: Seq<Nnode>, j: int)
    requires
        all_attrs_wf(ns),
        0 <= j < ns.len(),
    ensures
        attrs_wf(ns[j]),
    decreases ns.len(),
{
    if j < ns.len() - 1 {
        lemma_all_attrs_wf_at(ns.drop_last(), j);
    }
}

/// Trees whose backgrounds can all be read have readable ones at `j`.
proof fn lemma_all_bgs_ok_at(ns: Seq<Nnode>, j: int)
    requires
        all_bgs_ok(ns),
        0 <= j < ns.len(),
    ensures
        bgs_ok(ns[j]),
    decreases ns.len(),
{
    if j < ns.len() - 1 {
        lemma_all_bgs_ok_at(ns.drop_last(), j);
    }
}

/// Gives `n` and its descendants, in document order, shown child windows of
/// `win` and visuals (see `build_tree`).
fn build_node(n: &Nnode, win: u32, ctx: &mut Nxcb, visuals: &mut HashMap<u64, Nvisual>)
    requires
        attrs_wf(*n),
        bgs_ok(*n),
    ensures
        (final(visuals)@, final(ctx).next_id, final(ctx).pending@) == build_tree(
            (old(visuals)@, old(ctx).next_id, old(ctx).pending@),
            *n,
            win,
            old(ctx).depth,
            old(ctx).visual_id,
        ),
        final(ctx).same_setup(old(ctx)),
        final(ctx).gc == old(ctx).gc,
        final(ctx).drawable == old(ctx).drawable,
    decreases *n,
{
    let ghost b0: Built = (visuals@, ctx.next_id, ctx.pending@);
    let ghost depth = ctx.depth;
    let ghost visual = ctx.visual_id;
    let bg = match bg_of(n) {
        Some(b) => b,
        None => 0,
    };
    let window = Nreq::new_sub_window(ctx, win, bg);
    ctx.show(window);
    visuals.insert(n.id, Nvisual { key: n.id, x: 0, y: 0, width: 48, height: 48, window, bg });
    let ghost b1 = build_one(b0, *n, win, depth, visual);
    assert((visuals@, ctx.next_id, ctx.pending@) == b1);
    let mut j: usize = 0;
    assert(n.children@.take(0) =~= Seq::<Nnode>::empty());
    while j < n.children.len()
        invariant
            j <= n.children.len(),
            attrs_wf(*n),
            bgs_ok(*n),
            (visuals@, ctx.next_id, ctx.pending@) == build_kids(
                b1,
                n.children@.take(j as int),
                win,
                depth,
                visual,
            ),
            ctx.depth == depth,
            ctx.visual_id == visual,
            ctx.same_setup(old(ctx)),
            ctx.gc == old(ctx).gc,
            ctx.drawable == old(ctx).drawable,
        decreases n.children.len() - j,
    {
        assert(n.children@.take(j + 1).drop_last() =~= n.children@.take(j as int));
        assert(n.children@.take(j + 1).last() == n.children@[j as int]);
        assert(decreases_to!(*n => n.children@[j as int]));
        proof {
            lemma_all_attrs_wf_at(n.children@, j as int);
            lemma_all_bgs_ok_at(n.children@, j as int);
        }
        build_node(&n.children[j], win, ctx, visuals);
        j += 1;
    }
    assert(n.children@.take(j as int) =~= n.children@);
}

/// The visual of a scene's root: 48x48 at (0, 0), no window, dark grey.
pub open spec fn root_visual(key: u64) -> Nvisual {
    Nvisual { key, x: 0, y: 0, width: 48, height: 48, window: NONE, bg: 0xFF22_2222 }
}

impl Nscene {
    /// Gives every node below the root, in document order, a shown 96x96
    /// child window of `win` (background from its `bg` attribute, else dark
    /// blue) and a 48x48 visual at (0, 0); the root gets a visual without a
    /// window. Nothing, and no request, when some background cannot be read.
    pub fn build_in(&self, ctx: &mut Nxcb, win: u32) -> (r: Option<HashMap<u64, Nvisual>>)
        requires
            attrs_wf(self.root),
        ensures
            r is Some <==> all_bgs_ok(self.root.children@),
            r is None ==> *final(ctx) == *old(ctx),
            r matches Some(m) ==> (m@, final(ctx).next_id, final(ctx).pending@) == build_kids(
                (map![self.root.id => root_visual(self.root.id)], old(ctx).next_id, old(ctx).pending@),
                self.root.children@,
                win,
                old(ctx).depth,
                old(ctx).visual_id,
            ),
            final(ctx).same_setup(old(ctx)),
            final(ctx).gc == old(ctx).gc,
            final(ctx).drawable == old(ctx).drawable,
    {
        let n = &self.root;
        let mut j: usize = 0;
        assert(n.children@.take(0) =~= Seq::<Nnode>::empty());
        while j < n.children.len()
            invariant
                j <= n.children.len(),
                *n == self.root,
                attrs_wf(*n),
                all_bgs_ok(n.children@.take(j as int)),
            decreases n.children.len() - j,
        {
            assert(n.children@.take(j + 1).drop_last() =~= n.children@.take(j as int));
            proof {
                lemma_all_attrs_wf_at(n.children@, j as int);
            }
            if !bgs_valid(&n.children[j]) {
                proof {
                    if all_bgs_ok(n.children@) {
                        lemma_all_bgs_ok_at(n.children@, j as int);
                    }
                }
                return None;
            }
            j += 1;
        }
        assert(n.children@.take(j as int) =~= n.children@);
        let mut visuals: HashMap<u64, Nvisual> = HashMap::new();
        visuals.insert(
            n.id,
            Nvisual { key: n.id, x: 0, y: 0, width: 48, height: 48, window: NONE, bg: 0xFF22_2222 },
        );
        assert(visuals@ =~= map![n.id => root_visual(n.id)]);
        let ghost b0: Built = (visuals@, ctx.next_id, ctx.pending@);
        let ghost depth = ctx.depth;
        let ghost visual = ctx.visual_id;
        let mut j: usize = 0;
        assert(n.children@.take(0) =~= Seq::<Nnode>::empty());
        while j < n.children.len()
            invariant
                j <= n.children.len(),
                *n == self.root,
                attrs_wf(*n),
                all_bgs_ok(n.children@),
                (visuals@, ctx.next_id, ctx.pending@) == build_kids(
                    b0,
                    n.children@.take(j as int),
                    win,
                    depth,
                    visual,
                ),
                ctx.depth == depth,
                ctx.visual_id == visual,
                ctx.same_setup(old(ctx)),
                ctx.gc == old(ctx).gc,
                ctx.drawable == old(ctx).drawable,
            decreases n.children.len() - j,
        {
            assert(n.children@.take(j + 1).drop_last() =~= n.children@.take(j as int));
            assert(n.children@.take(j + 1).last() == n.children@[j as int]);
            proof {
                lemma_all_attrs_wf_at(n.children@, j as int);
                lemma_all_bgs_ok_at(n.children@, j as int);
            }
            build_node(&n.children[j], win, ctx, &mut visuals);
            j += 1;
        }
        assert(n.children@.take(j as int) =~= n.children@);
        Some(visuals)
    }
}

/// `v` after attribute `k` = `val` of its node, measured on the parent's
/// visual `vp`: width (`w`) or height (`h`) as a size, left (`l`), right
/// (`r`), top (`t`) or bottom (`b`) edge at the anchor after the dot;
/// positions wrap at 16 bits.
pub open spec fn fit_step(v: Nvisual, k: Seq<char>, val: Seq<char>, vp: Nvisual) -> Nvisual {
    let aa = split(val, '.');
    if k == seq!['w'] {
        Nvisual { width: scene_size(val, vp.width, vp.height), ..v }
    } else if k == seq!['h'] {
        Nvisual { height: scene_size(val, vp.width, vp.height), ..v }
    } else if k == seq!['l'] {
        Nvisual { x: scene_anchor(aa[1], vp.width), ..v }
    } else if k == seq!['r'] {
        Nvisual { x: scene_anchor(aa[1], vp.width).wrapping_sub(wrap16(v.width)), ..v }
    } else if k == seq!['t'] {
        Nvisual { y: scene_anchor(aa[1], vp.height), ..v }
    } else if k == seq!['b'] {
        Nvisual { y: scene_anchor(aa[1], vp.height).wrapping_sub(wrap16(v.height)), ..v }
    } else {
        v
    }
}

/// Attribute `k` = `val` can be applied: a size that can be read for `w` and
/// `h`, a dot for the edges.
pub open spec fn fit_attr_ok(k: Seq<char>, val: Seq<char>) -> bool {
    &&& (k == seq!['w'] || k == seq!['h']) ==> scene_size_ok(val)
    &&& (k == seq!['l'] || k == seq!['r'] || k == seq!['t'] || k == seq!['b']) ==> split(
        val,
        '.',
    ).len() > 1
}

/// `v` after the attributes `ps`, in order.
pub open spec fn fit_attrs(v: Nvisual, ps: Pairs, vp: Nvisual) -> Nvisual
    decreases ps.len(),
{
    if ps.len() == 0 {
        v
    } else {
        fit_step(fit_attrs(v, ps.drop_last(), vp), ps.last().0, ps.last().1, vp)
    }
}

/// Every attribute of `ps` can be applied.
pub open spec fn attrs_fit_ok(ps: Pairs) -> bool {
    forall|i: int| 0 <= i < ps.len() ==> fit_attr_ok(#[trigger] ps[i].0, ps[i].1)
}

/// What fitting has made so far: the visuals by node id and the requests queued.
pub type Fitted = (Map<u64, Nvisual>, Seq<XRequest>);

/// `f` after node `n`, child of `pid`, was fitted to its parent's visual and
/// its window moved and resized.
pub open spec fn fit_one(f: Fitted, n: Nnode, pid: u64) -> Fitted {
    let v = fit_attrs(f.0[n.id], n.attrs.pairs(), f.0[pid]);
    (
        f.0.insert(n.id, v),
        f.1.push(XRequest::MoveWindow { window: v.window, x: v.x as i32, y: v.y as i32 }).push(
            XRequest::ResizeWindow { window: v.window, width: v.width as u32, height: v.height as u32 },
        ),
    )
}

/// `f` after `n` and then its descendants, in document order, were fitted.
pub open spec fn fit_tree(f: Fitted, n: Nnode, pid: u64) -> Fitted
    decreases n, 1int,
{
    fit_kids(fit_one(f, n, pid), n.children@, n.id)
}

/// `f` after the trees `ns`, children of `pid`, were fitted one after the other.
pub open spec fn fit_kids(f: Fitted, ns: Seq<Nnode>, pid: u64) -> Fitted
    decreases ns, 0int,
{
    if ns.len() == 0 {
        f
    } else {
        fit_tree(fit_kids(f, ns.drop_last(), pid), ns.last(), pid)
    }
}

/// `n`'s tree can be fitted with visuals for the ids in `dom`: each node and
/// its parent have a visual, and each attribute can be applied.
pub open spec fn fits_ok(dom: Set<u64>, n: Nnode, pid: u64) -> bool
    decreases n, 1int,
{
    &&& dom.contains(n.id)
    &&& dom.contains(pid)
    &&& attrs_fit_ok(n.attrs.pairs())
    &&& all_fits_ok(dom, n.children@, n.id)
}

/// Each of the trees `ns`, children of `pid`, can be fitted.
pub open spec fn all_fits_ok(dom: Set<u64>, ns: Seq<Nnode>, pid: u64) -> bool
    decreases ns, 0int,
{
    if ns.len() == 0 {
        true
    } else {
        all_fits_ok(dom, ns.drop_last(), pid) && fits_ok(dom, ns.last(), pid)
    }
}

/// Fitting `n`'s tree keeps the set of nodes that have a visual.
pub proof fn lemma_fit_tree_keeps(f: Fitted, n: Nnode, pid: u64)
    requires
        fits_ok(f.0.dom(), n, pid),
    ensures
        fit_tree(f, n, pid).0.dom() == f.0.dom(),
    decreases n, 1int,
{
    let f1 = fit_one(f, n, pid);
    assert(f1.0.dom() =~= f.0.dom());
    law_fit_keeps_visuals(f1, n.children@, n.id);
}

/// Fitting a scene's trees moves and sizes the visuals it has and never
/// changes which nodes have one.
pub proof fn law_fit_keeps_visuals(f: Fitted, ns: Seq<Nnode>, pid: u64)
    requires
        all_fits_ok(f.0.dom(), ns, pid),
    ensures
        fit_kids(f, ns, pid).0.dom() == f.0.dom(),
    decreases ns, 0int,
{
    if ns.len() > 0 {
        law_fit_keeps_visuals(f, ns.drop_last(), pid);
        let f1 = fit_kids(f, ns.drop_last(), pid);
        lemma_fit_tree_keeps(f1, ns.last(), pid);
    }
}

proof fn lemma_all_fits_ok_at(dom: Set<u64>, ns: Seq<Nnode>, pid: u64, j: int)
    requires
        all_fits_ok(dom, ns, pid),
        0 <= j < ns.len(),
    ensures
        fits_ok(dom, ns[j], pid),
    decreases ns.len(),
{
    if j < ns.len() - 1 {
        lemma_all_fits_ok_at(dom, ns.drop_last(), pid, j);
    }
}

/// Whether attribute `k` = `val` can be applied.
fn fit_attr_valid(k: &Vec<char>, val: &Vec<char>) -> (r: bool)
    ensures
        r == fit_attr_ok(k@, val@),
{
    if k.len() != 1 {
        assert(k@ != seq!['w'] && k@ != seq!['h'] && k@ != seq!['l'] && k@ != seq!['r']
            && k@ != seq!['t'] && k@ != seq!['b']);
        return true;
    }
    let c = k[0];
    assert(k@ =~= seq![c]);
    if c == 'w' || c == 'h' {
        scene_size_valid(val)
    } else if c == 'l' || c == 'r' || c == 't' || c == 'b' {
        split_on(val, '.').len() > 1
    } else {
        true
    }
}

/// Applies attribute `k` = `val` (see `fit_step`).
fn fit_attr(v: Nvisual, k: &Vec<char>, val: &Vec<char>, vp: Nvisual) -> (r: Nvisual)
    requires
        fit_attr_ok(k@, val@),
    ensures
        r == fit_step(v, k@, val@, vp),
{
    if k.len() != 1 {
        assert(k@ != seq!['w'] && k@ != seq!['h'] && k@ != seq!['l'] && k@ != seq!['r']
            && k@ != seq!['t'] && k@ != seq!['b']);
        return v;
    }
    let c = k[0];
    assert(k@ =~= seq![c]);
    if c == 'w' {
        Nvisual { width: scene_calc(val, vp.width, vp.height), ..v }
    } else if c == 'h' {
        Nvisual { height: scene_calc(val, vp.width, vp.height), ..v }
    } else if c == 'l' || c == 'r' || c == 't' || c == 'b' {
        let aa = split_on(val, '.');
        assert(aa.deep_view()[1] == aa@[1]@);
        if c == 'l' {
            Nvisual { x: scene_anchor_of(&aa[1], vp.width), ..v }
        } else if c == 'r' {
            Nvisual { x: scene_anchor_of(&aa[1], vp.width).wrapping_sub(wrap(v.width)), ..v }
        } else if c == 't' {
            Nvisual { y: scene_anchor_of(&aa[1], vp.height), ..v }
        } else {
            Nvisual { y: scene_anchor_of(&aa[1], vp.height).wrapping_sub(wrap(v.height)), ..v }
        }
    } else {
        v
    }
}

/// Whether `n`'s tree, child of `pid`, can be fitted with `visuals`.
fn fits_valid(n: &Nnode, pid: u64, visuals: &HashMap<u64, Nvisual>) -> (r: bool)
    ensures
        r == fits_ok(visuals@.dom(), *n, pid),
    decreases *n,
{
    if !visuals.contains_key(&n.id) || !visuals.contains_key(&pid) {
        return false;
    }
    let mut i: usize = 0;
    while i < n.attrs.entries.len()
        invariant
            i <= n.attrs.entries.len(),
            forall|q: int| 0 <= q < i ==> fit_attr_ok(#[trigger] n.attrs.pairs()[q].0, n.attrs.pairs()[q].1),
        decreases n.attrs.entries.len() - i,
    {
        let k = chars_of(n.attrs.entries[i].0.as_str());
        let val = chars_of(n.attrs.entries[i].1.as_str());
        assert(n.attrs.pairs()[i as int] == (n.attrs.entries@[i as int].0@, n.attrs.entries@[i as int].1@));
        if !fit_attr_valid(&k, &val) {
            assert(!fit_attr_ok(n.attrs.pairs()[i as int].0, n.attrs.pairs()[i as int].1));
            return false;
        }
        i += 1;
    }
    let mut j: usize = 0;
    assert(n.children@.take(0) =~= Seq::<Nnode>::empty());
    while j < n.children.len()
        invariant
            j <= n.children.len(),
            all_fits_ok(visuals@.dom(), n.children@.take(j as int), n.id),
        decreases n.children.len() - j,
    {
        assert(n.children@.take(j + 1).drop_last() =~= n.children@.take(j as int));
        assert(decreases_to!(*n => n.children@[j as int]));
        if !fits_valid(&n.children[j], n.id, visuals) {
            proof {
                if all_fits_ok(visuals@.dom(), n.children@, n.id) {
                    lemma_all_fits_ok_at(visuals@.dom(), n.children@, n.id, j as int);
                }
            }
            return false;
        }
        j += 1;
    }
    assert(n.children@.take(j as int) =~= n.children@);
    true
}

/// Fits `n` and then its descendants, in document order (see `fit_tree`).
fn fit_node(n: &Nnode, pid: u64, ctx: &mut Nxcb, visuals: &mut HashMap<u64, Nvisual>)
    requires
        fits_ok(old(visuals)@.dom(), *n, pid),
    ensures
        (final(visuals)@, final(ctx).pending@) == fit_tree(
            (old(visuals)@, old(ctx).pending@),
            *n,
            pid,
        ),
        final(visuals)@.dom() == old(visuals)@.dom(),
        final(ctx).next_id == old(ctx).next_id,
        final(ctx).same_setup(old(ctx)),
        final(ctx).gc == old(ctx).gc,
        final(ctx).drawable == old(ctx).drawable,
    decreases *n,
{
    let ghost f0: Fitted = (visuals@, ctx.pending@);
    let ghost dom = visuals@.dom();
    let vp = match visuals.get(&pid) {
        Some(p) => *p,
        None => Nvisual { key: 0, x: 0, y: 0, width: 0, height: 0, window: NONE, bg: 0 },
    };
    let mut v = match visuals.get(&n.id) {
        Some(p) => *p,
        None => Nvisual { key: 0, x: 0, y: 0, width: 0, height: 0, window: NONE, bg: 0 },
    };
    let ghost v0 = v;
    let ghost ps = n.attrs.pairs();
    let mut i: usize = 0;
    assert(ps.take(0) =~= Seq::<(Seq<char>, Seq<char>)>::empty());
    while i < n.attrs.entries.len()
        invariant
            i <= n.attrs.entries.len(),
            ps == n.attrs.pairs(),
            ps.len() == n.attrs.entries@.len(),
            attrs_fit_ok(ps),
            v == fit_attrs(v0, ps.take(i as int), vp),
        decreases n.attrs.entries.len() - i,
    {
        let k = chars_of(n.attrs.entries[i].0.as_str());
        let val = chars_of(n.attrs.entries[i].1.as_str());
        assert(ps[i as int] == (n.attrs.entries@[i as int].0@, n.attrs.entries@[i as int].1@));
        assert(fit_attr_ok(ps[i as int].0, ps[i as int].1));
        v = fit_attr(v, &k, &val, vp);
        assert(ps.take(i + 1).drop_last() =~= ps.take(i as int));
        i += 1;
    }
    assert(ps.take(i as int) =~= ps);
    visuals.insert(n.id, v);
    assert(visuals@.dom() =~= dom);
    ctx.pos(v.window, v.x, v.y);
    ctx.size(v.window, v.width, v.height);
    let ghost f1 = fit_one(f0, *n, pid);
    assert((visuals@, ctx.pending@) == f1);
    let mut j: usize = 0;
    assert(n.children@.take(0) =~= Seq::<Nnode>::empty());
    while j < n.children.len()
        invariant
            j <= n.children.len(),
            fits_ok(dom, *n, pid),
            visuals@.dom() == dom,
            (visuals@, ctx.pending@) == fit_kids(f1, n.children@.take(j as int), n.id),
            ctx.next_id == old(ctx).next_id,
            ctx.same_setup(old(ctx)),
            ctx.gc == old(ctx).gc,
            ctx.drawable == old(ctx).drawable,
        decreases n.children.len() - j,
    {
        assert(n.children@.take(j + 1).drop_last() =~= n.children@.take(j as int));
        assert(n.children@.take(j + 1).last() == n.children@[j as int]);
        assert(decreases_to!(*n => n.children@[j as int]));
        proof {
            lemma_all_fits_ok_at(dom, n.children@, n.id, j as int);
        }
        fit_node(&n.children[j], n.id, ctx, visuals);
        j += 1;
    }
    assert(n.children@.take(j as int) =~= n.children@);
}

impl Nscene {
    /// Places the root's visual at (`x`, `y`), `width` by `height`, then fits
    /// every node below it, in document order, to its parent's visual (see
    /// `fit_step`), moving and resizing its window. Nothing changes, and
    /// `false` comes back, when a node or its parent has no visual or an
    /// attribute cannot be applied.
    pub fn anchor_fit_to(
        &self,
        ctx: &mut Nxcb,
        x: i16,
        y: i16,
        width: u16,
        height: u16,
        visuals: &mut HashMap<u64, Nvisual>,
    ) -> (r: bool)
        ensures
            r == (old(visuals)@.dom().contains(self.root.id) && all_fits_ok(
                old(visuals)@.dom(),
                self.root.children@,
                self.root.id,
            )),
            !r ==> final(visuals)@ == old(visuals)@ && *final(ctx) == *old(ctx),
            r ==> (final(visuals)@, final(ctx).pending@) == fit_kids(
                (
                    old(visuals)@.insert(
                        self.root.id,
                        Nvisual { x, y, width, height, ..old(visuals)@[self.root.id] },
                    ),
                    old(ctx).pending@,
                ),
                self.root.children@,
                self.root.id,
            ),
            final(ctx).next_id == old(ctx).next_id,
            final(ctx).same_setup(old(ctx)),
            final(ctx).gc == old(ctx).gc,
            final(ctx).drawable == old(ctx).drawable,
    {
        let n = &self.root;
        if !visuals.contains_key(&n.id) {
            return false;
        }
        let mut j: usize = 0;
        assert(n.children@.take(0) =~= Seq::<Nnode>::empty());
        while j < n.children.len()
            invariant
                j <= n.children.len(),
                *n == self.root,
                all_fits_ok(visuals@.dom(), n.children@.take(j as int), n.id),
            decreases n.children.len() - j,
        {
            assert(n.children@.take(j + 1).drop_last() =~= n.children@.take(j as int));
            if !fits_valid(&n.children[j], n.id, visuals) {
                proof {
                    if all_fits_ok(visuals@.dom(), n.children@, n.id) {
                        lemma_all_fits_ok_at(visuals@.dom(), n.children@, n.id, j as int);
                    }
                }
                return false;
            }
            j += 1;
        }
        assert(n.children@.take(j as int) =~= n.children@);
        let ghost dom = visuals@.dom();
        let rv = match visuals.get(&n.id) {
            Some(p) => *p,
            None => Nvisual { key: 0, x: 0, y: 0, width: 0, height: 0, window: NONE, bg: 0 },
        };
        visuals.insert(n.id, Nvisual { x, y, width, height, ..rv });
        assert(visuals@.dom() =~= dom);
        let ghost f0: Fitted = (visuals@, ctx.pending@);
        let mut j: usize = 0;
        assert(n.children@.take(0) =~= Seq::<Nnode>::empty());
        while j < n.children.len()
            invariant
                j <= n.children.len(),
                *n == self.root,
                all_fits_ok(dom, n.children@, n.id),
                visuals@.dom() == dom,
                (visuals@, ctx.pending@) == fit_kids(f0, n.children@.take(j as int), n.id),
                ctx.next_id == old(ctx).next_id,
                ctx.same_setup(old(ctx)),
                ctx.gc == old(ctx).gc,
                ctx.drawable == old(ctx).drawable,
            decreases n.children.len() - j,
        {
            assert(n.children@.take(j + 1).drop_last() =~= n.children@.take(j as int));
            assert(n.children@.take(j + 1).last() == n.children@[j as int]);
            proof {
                lemma_all_fits_ok_at(dom, n.children@, n.id, j as int);
            }
            fit_node(&n.children[j], n.id, ctx, visuals);
            j += 1;
        }
        assert(n.children@.take(j as int) =~= n.children@);
        true
    }
}

} // verus!
