//! Visuals: the on-screen boxes a layer builds from its scene nodes, and how
//! a box lays itself out from its attributes, its parent and its previous
//! sibling.
use vstd::prelude::*;
use crate::strmap::{StrMap, Pairs, keys_distinct, map_of, pairs_insert, pairs_remove};
use crate::display::Xcb;
use crate::xproto::{Drawable, XRequest, GcValues, next_handle, NONE};
use crate::display::{padded_width, sub_events, basic_events};
use crate::text::{split, utf8_len, chars_of, split_on, same, is};
use crate::numbers::{parse_unsigned, parse_uint};
use crate::layout::{visual_size_ok, visual_size, visual_anchor, wrap16, half16};
use crate::json::{JsonNode, field_is_array, field_members, field_text, head_name, head_attrs, parse_head};
use crate::scene::{buildable, all_buildable, content_key, random_id};
use crate::numbers::parse_bool;

verus! {

// ---------------------------------------------------------------------------
// Names
// ---------------------------------------------------------------------------

/// `choices`.
pub open spec fn tag_choices() -> Seq<char> {
    seq!['c', 'h', 'o', 'i', 'c', 'e', 's']
}

/// `lbl`.
pub open spec fn tag_lbl() -> Seq<char> {
    seq!['l', 'b', 'l']
}

/// `i`.
pub open spec fn tag_i() -> Seq<char> {
    seq!['i']
}

/// `media`.
pub open spec fn tag_media() -> Seq<char> {
    seq!['m', 'e', 'd', 'i', 'a']
}

/// `root`.
pub open spec fn tag_root() -> Seq<char> {
    seq!['r', 'o', 'o', 't']
}

/// `items`.
pub open spec fn key_items() -> Seq<char> {
    seq!['i', 't', 'e', 'm', 's']
}

/// `cnt-enum`.
pub open spec fn key_cnt_enum() -> Seq<char> {
    seq!['c', 'n', 't', '-', 'e', 'n', 'u', 'm']
}

/// `>>`, the value that steps content to the next of its enumeration.
pub open spec fn next_value() -> Seq<char> {
    seq!['>', '>']
}

/// A one-letter name.
pub open spec fn letter(c: char) -> Seq<char> {
    seq![c]
}

// ---------------------------------------------------------------------------
// Glyph metrics
// ---------------------------------------------------------------------------

/// The advance and height of `c` in the metrics `g` (the last entry for `c`).
pub open spec fn glyph_of(g: Seq<(char, u16, u16)>, c: char) -> Option<(u16, u16)>
    decreases g.len(),
{
    if g.len() == 0 {
        None
    } else if g.last().0 == c {
        Some((g.last().1, g.last().2))
    } else {
        glyph_of(g.drop_last(), c)
    }
}

/// The width of a row of text: the advances of the characters the font has.
pub open spec fn row_width(g: Seq<(char, u16, u16)>, t: Seq<char>) -> int
    decreases t.len(),
{
    if t.len() == 0 {
        0
    } else {
        row_width(g, t.drop_last()) + match glyph_of(g, t.last()) {
            Some(m) => m.0 as int,
            None => 0,
        }
    }
}

/// The height of a row of text: that of its tallest character the font has.
pub open spec fn row_height(g: Seq<(char, u16, u16)>, t: Seq<char>) -> int
    decreases t.len(),
{
    if t.len() == 0 {
        0
    } else {
        let h = match glyph_of(g, t.last()) {
            Some(m) => m.1 as int,
            None => 0,
        };
        let rest = row_height(g, t.drop_last());
        if h > rest {
            h
        } else {
            rest
        }
    }
}

/// The metrics of a label font: for each character, its advance and height.
pub struct Glyphs {
    pub metrics: Vec<(char, u16, u16)>,
}

impl Glyphs {
    /// No glyph is wider than 255 pixels or taller than a label line (64).
    pub open spec fn wf(&self) -> bool {
        forall|i: int|
            0 <= i < self.metrics@.len() ==> (#[trigger] self.metrics@[i]).1 <= 255
                && self.metrics@[i].2 <= 64
    }

    /// The advance and height of `c`, if the font has it.
    pub fn glyph(&self, c: char) -> (r: Option<(u16, u16)>)
        ensures
            r == glyph_of(self.metrics@, c),
    {
        let mut i = self.metrics.len();
        assert(self.metrics@.take(i as int) =~= self.metrics@);
        while i > 0
            invariant
                i <= self.metrics.len(),
                glyph_of(self.metrics@, c) == glyph_of(self.metrics@.take(i as int), c),
            decreases i,
        {
            assert(self.metrics@.take(i as int).drop_last() =~= self.metrics@.take(i - 1));
            assert(self.metrics@.take(i as int).last() == self.metrics@[i - 1]);
            if self.metrics[i - 1].0 == c {
                return Some((self.metrics[i - 1].1, self.metrics[i - 1].2));
            }
            i -= 1;
        }
        None
    }

    /// The width and height of `text` set in this font.
    pub fn measure(&self, text: &Vec<char>) -> (r: (u16, u16))
        requires
            self.wf(),
            text.len() <= 50,
        ensures
            r.0 == row_width(self.metrics@, text@),
            r.1 == row_height(self.metrics@, text@),
            r.0 <= 255 * text.len(),
            r.1 <= 64,
    {
        let mut w: u16 = 0;
        let mut h: u16 = 0;
        let mut i: usize = 0;
        assert(text@.take(0) =~= Seq::<char>::empty());
        while i < text.len()
            invariant
                self.wf(),
                i <= text.len() <= 50,
                w == row_width(self.metrics@, text@.take(i as int)),
                h == row_height(self.metrics@, text@.take(i as int)),
                w <= 255 * i,
                h <= 64,
            decreases text.len() - i,
        {
            assert(text@.take(i + 1).drop_last() =~= text@.take(i as int));
            assert(text@.take(i + 1).last() == text@[i as int]);
            proof {
                lemma_glyph_bounded(self.metrics@, text@[i as int]);
            }
            match self.glyph(text[i]) {
                Some(m) => {
                    w = w + m.0;
                    if m.1 > h {
                        h = m.1;
                    }
                },
                None => {},
            }
            i += 1;
        }
        assert(text@.take(i as int) =~= text@);
        (w, h)
    }
}

pub proof fn lemma_glyph_bounded(g: Seq<(char, u16, u16)>, c: char)
    requires
        forall|i: int| 0 <= i < g.len() ==> (#[trigger] g[i]).1 <= 255 && g[i].2 <= 64,
    ensures
        glyph_of(g, c) matches Some(m) ==> m.0 <= 255 && m.1 <= 64,
    decreases g.len(),
{
    if g.len() > 0 {
        assert(g.last() == g[g.len() - 1]);
        lemma_glyph_bounded(g.drop_last(), c);
    }
}

// ---------------------------------------------------------------------------
// Visuals and their plain view
// ---------------------------------------------------------------------------

/// What a visual holds, as plain values, with the views of its children.
pub struct VisualView {
    pub x: i16,
    pub y: i16,
    pub iax: i16,
    pub iay: i16,
    pub ax: i16,
    pub ay: i16,
    pub width: u16,
    pub height: u16,
    pub lx: i16,
    pub ly: i16,
    pub lwidth: u16,
    pub lheight: u16,
    pub pwidth: u16,
    pub pheight: u16,
    pub inv_mask: u32,
    pub mask: u32,
    pub buf: u32,
    pub window: u32,
    pub bg: u32,
    pub fg: u32,
    pub children: Seq<VisualView>,
    pub attrs: Pairs,
    pub tag: Seq<char>,
    pub content: Seq<char>,
    pub visible: bool,
    pub checked: bool,
}

/// A box on the screen: its position (`x`, `y`, relative to the parent),
/// the parent's absolute position (`iax`, `iay`), its own (`ax`, `ay`), its
/// size, the placement of its previous sibling (`lx`, `ly`, `lwidth`,
/// `lheight`) and the size of its parent, its window and drawing pixmaps,
/// colours, children, attributes, tag, content and state.
pub struct Visual {
    pub x: i16,
    pub y: i16,
    pub iax: i16,
    pub iay: i16,
    pub ax: i16,
    pub ay: i16,
    pub width: u16,
    pub height: u16,
    pub lx: i16,
    pub ly: i16,
    pub lwidth: u16,
    pub lheight: u16,
    pub pwidth: u16,
    pub pheight: u16,
    pub inv_mask: u32,
    pub mask: u32,
    pub buf: u32,
    pub window: u32,
    pub bg: u32,
    pub fg: u32,
    pub children: Vec<Visual>,
    pub attrs: StrMap,
    pub tag: String,
    pub content: String,
    pub visible: bool,
    pub checked: bool,
}

impl Visual {
    /// The plain view of this visual and its subtree.
    pub open spec fn model(&self) -> VisualView
        decreases *self, 1int,
    {
        VisualView {
            x: self.x,
            y: self.y,
            iax: self.iax,
            iay: self.iay,
            ax: self.ax,
            ay: self.ay,
            width: self.width,
            height: self.height,
            lx: self.lx,
            ly: self.ly,
            lwidth: self.lwidth,
            lheight: self.lheight,
            pwidth: self.pwidth,
            pheight: self.pheight,
            inv_mask: self.inv_mask,
            mask: self.mask,
            buf: self.buf,
            window: self.window,
            bg: self.bg,
            fg: self.fg,
            children: models(self.children@),
            attrs: self.attrs.pairs(),
            tag: self.tag@,
            content: self.content@,
            visible: self.visible,
            checked: self.checked,
        }
    }
}

/// The views of a list of visuals.
pub open spec fn models(vs: Seq<Visual>) -> Seq<VisualView>
    decreases vs, 0int,
{
    if vs.len() == 0 {
        Seq::empty()
    } else {
        models(vs.drop_last()).push(vs.last().model())
    }
}

/// The views of a list, one for one.
pub proof fn lemma_models(vs: Seq<Visual>)
    ensures
        models(vs).len() == vs.len(),
        forall|i: int| 0 <= i < vs.len() ==> #[trigger] models(vs)[i] == vs[i].model(),
    decreases vs.len(),
{
    if vs.len() > 0 {
        lemma_models(vs.drop_last());
        assert forall|i: int| 0 <= i < vs.len() implies #[trigger] models(vs)[i] == vs[i].model() by {
            if i < vs.len() - 1 {
                assert(vs.drop_last()[i] == vs[i]);
            }
        }
    }
}

/// Every visual of the tree has attributes with distinct keys.
pub open spec fn view_wf(v: VisualView) -> bool
    decreases v, 1int,
{
    keys_distinct(v.attrs) && all_wf(v.children)
}

/// Every tree of the list is well formed.
pub open spec fn all_wf(vs: Seq<VisualView>) -> bool
    decreases vs, 0int,
{
    if vs.len() == 0 {
        true
    } else {
        all_wf(vs.drop_last()) && view_wf(vs.last())
    }
}

/// The trees of a well-formed list are well formed.
pub proof fn lemma_all_wf(vs: Seq<VisualView>)
    ensures
        all_wf(vs) <==> forall|i: int| 0 <= i < vs.len() ==> #[trigger] view_wf(vs[i]),
    decreases vs.len(),
{
    if vs.len() > 0 {
        lemma_all_wf(vs.drop_last());
        if forall|i: int| 0 <= i < vs.len() ==> #[trigger] view_wf(vs[i]) {
            assert forall|i: int| 0 <= i < vs.drop_last().len() implies #[trigger] view_wf(
                vs.drop_last()[i],
            ) by {
                assert(vs.drop_last()[i] == vs[i]);
            }
            assert(view_wf(vs[vs.len() - 1]));
        }
        if all_wf(vs) {
            assert forall|i: int| 0 <= i < vs.len() implies #[trigger] view_wf(vs[i]) by {
                if i < vs.len() - 1 {
                    assert(vs.drop_last()[i] == vs[i]);
                    assert(view_wf(vs.drop_last()[i]));
                }
            }
        }
    }
}

// ---------------------------------------------------------------------------
// Laying a visual out
// ---------------------------------------------------------------------------

/// The enumeration step: walking `ps` from `i`, with `le` the piece before
/// and `cur` the content so far, the content after `m`.
pub open spec fn enum_from(
    ps: Seq<Seq<char>>,
    i: int,
    le: Seq<char>,
    cur: Seq<char>,
    m: Seq<char>,
) -> Seq<char>
    decreases ps.len() - i,
{
    if i < 0 || i >= ps.len() {
        cur
    } else if le.len() == 0 {
        enum_from(ps, i + 1, ps[i], ps[i], m)
    } else if le == m {
        ps[i]
    } else {
        enum_from(ps, i + 1, ps[i], cur, m)
    }
}

/// The content after `m` in the `|`-separated enumeration `e`: the piece
/// that follows `m`, else the last piece that follows an empty one (at least
/// the first piece).
pub open spec fn next_in_enum(e: Seq<char>, m: Seq<char>) -> Seq<char> {
    enum_from(split(e, '|'), 0, Seq::empty(), m, m)
}

/// The visual after its content is set to `value`: a choice list takes
/// `value` as its items; `>>` steps the content through the `cnt-enum`
/// attribute (which must be there); any other value becomes the content.
pub open spec fn after_value(v: VisualView, value: Seq<char>) -> Option<VisualView> {
    if v.tag == tag_choices() {
        Some(
            VisualView {
                attrs: pairs_insert(pairs_remove(v.attrs, key_items()), key_items(), value),
                ..v
            },
        )
    } else if value == next_value() {
        if map_of(v.attrs).dom().contains(key_cnt_enum()) {
            Some(
                VisualView {
                    content: next_in_enum(map_of(v.attrs)[key_cnt_enum()], v.content),
                    ..v
                },
            )
        } else {
            None
        }
    } else {
        Some(VisualView { content: value, ..v })
    }
}

/// Some prefix of `s` is exactly `n` bytes long.
pub open spec fn cuttable(s: Seq<char>, n: nat) -> bool {
    exists|k: int| 0 <= k <= s.len() && utf8_len(s.take(k)) == n
}

/// The prefix of `s` that is exactly `n` bytes long.
pub open spec fn cut(s: Seq<char>, n: nat) -> Seq<char> {
    s.take(choose|k: int| 0 <= k <= s.len() && utf8_len(s.take(k)) == n)
}

/// The prefix that `prefix_cut` finds is the one `cut` names.
pub proof fn lemma_cut_is(s: Seq<char>, n: nat, k: int)
    requires
        0 <= k <= s.len(),
        utf8_len(s.take(k)) == n,
    ensures
        cuttable(s, n),
        cut(s, n) == s.take(k),
{
    let j = choose|j: int| 0 <= j <= s.len() && utf8_len(s.take(j)) == n;
    if j < k {
        crate::text::lemma_utf8_len_take_grows(s, j, k);
    } else if k < j {
        crate::text::lemma_utf8_len_take_grows(s, k, j);
    }
}

/// A label keeps at most the first 50 bytes of its content, which must end
/// on a character boundary.
pub open spec fn label_cut(v: VisualView) -> Option<VisualView> {
    if v.tag == tag_lbl() && utf8_len(v.content) > 50 {
        if cuttable(v.content, 50) {
            Some(VisualView { content: cut(v.content, 50), ..v })
        } else {
            None
        }
    } else {
        Some(v)
    }
}

/// The drawing surfaces a visual gets before its attributes are applied,
/// with the next free handle: a choice list a buffer (and a context to clear
/// it); a label a buffer, a context, a mask and an inverted mask, and the
/// size of its text on a 64-pixel line with even padding.
pub open spec fn asset(v: VisualView, g: Seq<(char, u16, u16)>, nid: u32) -> (VisualView, u32) {
    if v.tag == tag_choices() {
        (VisualView { buf: nid, ..v }, next_handle(next_handle(nid)))
    } else if v.tag == tag_lbl() {
        let pad = (64 - row_height(g, v.content)) / 2;
        let n1 = next_handle(nid);
        let n2 = next_handle(n1);
        let n3 = next_handle(n2);
        (
            VisualView {
                width: (row_width(g, v.content) + 2 * pad) as u16,
                height: 64,
                buf: nid,
                mask: n2,
                inv_mask: n3,
                ..v
            },
            next_handle(n3),
        )
    } else {
        (v, nid)
    }
}

/// A position from an attribute: an anchor when the value has a dot (its
/// second piece names it, measured on `max`), else a size cut to 16 bits.
pub open spec fn spot(v: VisualView, val: Seq<char>, max: u16) -> i16 {
    let aa = split(val, '.');
    if aa.len() > 1 {
        visual_anchor(aa[1], max)
    } else {
        wrap16(visual_size(val, v.pwidth, v.pheight))
    }
}

/// An attribute that needs a size has one that can be read, or a dot.
pub open spec fn spot_ok(v: VisualView, val: Seq<char>) -> bool {
    split(val, '.').len() > 1 || visual_size_ok(val, v.pwidth, v.pheight)
}

/// The visual after attribute `k` = `val` is applied: colours (`fg`, `bg`,
/// hexadecimal), sizes (`w`, `h`), left edge (`l`: after the previous
/// sibling for `l.`*anchor*), vertical centre (`c`), horizontal centre
/// (`m`), right edge (`r`), top (`t`) and bottom (`b`); positions wrap at 16
/// bits. Nothing when a colour or size cannot be read.
pub open spec fn attr_step(v: VisualView, k: Seq<char>, val: Seq<char>) -> Option<VisualView> {
    let aa = split(val, '.');
    if k == letter('f') + letter('g') {
        match parse_unsigned(val, 16, 0xffff_ffff) {
            Some(n) => Some(VisualView { fg: n as u32, ..v }),
            None => None,
        }
    } else if k == letter('b') + letter('g') {
        match parse_unsigned(val, 16, 0xffff_ffff) {
            Some(n) => Some(VisualView { bg: n as u32, ..v }),
            None => None,
        }
    } else if k == letter('w') || k == letter('h') {
        if visual_size_ok(val, v.pwidth, v.pheight) {
            if k == letter('w') {
                Some(VisualView { width: visual_size(val, v.pwidth, v.pheight), ..v })
            } else {
                Some(VisualView { height: visual_size(val, v.pwidth, v.pheight), ..v })
            }
        } else {
            None
        }
    } else if k == letter('l') || k == letter('m') || k == letter('r') {
        if !spot_ok(v, val) {
            None
        } else if k == letter('l') {
            if aa.len() > 1 && aa[0] == letter('l') {
                Some(VisualView { x: visual_anchor(aa[1], v.lwidth.wrapping_add(v.lx as u16)), ..v })
            } else {
                Some(VisualView { x: spot(v, val, v.pwidth), ..v })
            }
        } else if k == letter('m') {
            Some(VisualView { x: spot(v, val, v.pwidth).wrapping_sub(half16(v.width)), ..v })
        } else {
            Some(VisualView { x: spot(v, val, v.pwidth).wrapping_sub(wrap16(v.width)), ..v })
        }
    } else if k == letter('c') || k == letter('t') || k == letter('b') {
        if !spot_ok(v, val) {
            None
        } else if k == letter('c') {
            Some(VisualView { y: spot(v, val, v.pheight).wrapping_sub(half16(v.height)), ..v })
        } else if k == letter('t') {
            Some(VisualView { y: spot(v, val, v.pheight), ..v })
        } else {
            Some(VisualView { y: spot(v, val, v.pheight).wrapping_sub(wrap16(v.height)), ..v })
        }
    } else {
        Some(v)
    }
}

/// The visual after the attributes `ps` are applied in order.
pub open spec fn attrs_fold(v: VisualView, ps: Pairs) -> Option<VisualView>
    decreases ps.len(),
{
    if ps.len() == 0 {
        Some(v)
    } else {
        match attrs_fold(v, ps.drop_last()) {
            Some(w) => attr_step(w, ps.last().0, ps.last().1),
            None => None,
        }
    }
}

/// `v` with the children `cs`.
pub open spec fn with_children(v: VisualView, cs: Seq<VisualView>) -> VisualView {
    VisualView { children: cs, ..v }
}

/// A visual placed after a sibling at (`l.0`, `l.1`) of size (`l.2`,
/// `l.3`), inside a parent of size (`pw`, `ph`) at (`ax`, `ay`).
pub open spec fn placed(
    v: VisualView,
    l: (i16, i16, u16, u16),
    pw: u16,
    ph: u16,
    ax: i16,
    ay: i16,
) -> VisualView {
    VisualView {
        x: 0,
        y: 0,
        iax: ax,
        iay: ay,
        lx: l.0,
        ly: l.1,
        lwidth: l.2,
        lheight: l.3,
        pwidth: pw,
        pheight: ph,
        ..v
    }
}

/// The placement of a laid-out visual, as its next sibling sees it.
pub open spec fn frame(v: VisualView) -> (i16, i16, u16, u16) {
    (v.x, v.y, v.width, v.height)
}

/// A visual of `children`' tree laid out after its content is set to
/// `value`, with the next free handle; nothing where a value cannot be read.
/// A media box gets a buffer of its size; a box that is not an image, label
/// or choice list lays its children out one after the other, the first after
/// the box itself.
pub open spec fn content_fit(
    v: VisualView,
    children: Seq<VisualView>,
    value: Seq<char>,
    g: Seq<(char, u16, u16)>,
    nid: u32,
) -> Option<(VisualView, u32)>
    decreases children, 1int,
{
    match after_value(v, value) {
        None => None,
        Some(v1) => match label_cut(v1) {
            None => None,
            Some(v2) => {
                let (v3, n3) = asset(v2, g, nid);
                match attrs_fold(v3, v3.attrs) {
                    None => None,
                    Some(v4) => {
                        let v5 = VisualView {
                            ax: v4.iax.wrapping_add(v4.x),
                            ay: v4.iay.wrapping_add(v4.y),
                            ..v4
                        };
                        if v5.tag == tag_media() {
                            Some((VisualView { buf: n3, ..v5 }, next_handle(n3)))
                        } else if v5.tag == tag_i() || v5.tag == tag_lbl() || v5.tag
                            == tag_choices() {
                            Some((v5, n3))
                        } else {
                            match fit_children(
                                children,
                                frame(v5),
                                v5.width,
                                v5.height,
                                v5.ax,
                                v5.ay,
                                g,
                                n3,
                            ) {
                                None => None,
                                Some(r) => Some((VisualView { children: r.0, ..v5 }, r.1)),
                            }
                        }
                    },
                }
            },
        },
    }
}

/// The children `cs` laid out in order inside a parent of size (`pw`, `ph`)
/// at (`ax`, `ay`), each placed after the previous one (the first after
/// `first`) and keeping its content, with the next free handle.
pub open spec fn fit_children(
    cs: Seq<VisualView>,
    first: (i16, i16, u16, u16),
    pw: u16,
    ph: u16,
    ax: i16,
    ay: i16,
    g: Seq<(char, u16, u16)>,
    nid: u32,
) -> Option<(Seq<VisualView>, u32)>
    decreases cs, 0int,
{
    if cs.len() == 0 {
        Some((Seq::empty(), nid))
    } else {
        match fit_children(cs.drop_last(), first, pw, ph, ax, ay, g, nid) {
            None => None,
            Some(r) => {
                let l = if r.0.len() == 0 {
                    first
                } else {
                    frame(r.0.last())
                };
                let c = placed(cs.last(), l, pw, ph, ax, ay);
                proof {
                    assert(decreases_to!(cs => cs[cs.len() - 1]));
                }
                match content_fit(c, cs.last().children, c.content, g, r.1) {
                    None => None,
                    Some(f) => Some((r.0.push(f.0), f.1)),
                }
            },
        }
    }
}

// ---------------------------------------------------------------------------
// What laying out queues
// ---------------------------------------------------------------------------

/// A context on `d` that paints `fg` on `bg`.
pub open spec fn plain_gc(cid: u32, d: Drawable, fg: u32, bg: u32) -> XRequest {
    XRequest::CreateGc {
        cid,
        drawable: d,
        values: GcValues {
            foreground: Some(fg),
            background: Some(bg),
            graphics_exposures: Some(false),
            clip_mask: None,
        },
        checked: false,
    }
}

/// The requests that create the drawing surfaces of `asset(v, g, nid)` on
/// `drw` at depth `depth`: a buffer cleared to the background, and for a
/// label two one-bit masks as wide as the label, padded to 32 pixels.
pub open spec fn asset_requests(v: VisualView, g: Seq<(char, u16, u16)>, nid: u32, drw: Drawable, depth: u8) -> Seq<XRequest> {
    let a = asset(v, g, nid).0;
    let n1 = next_handle(nid);
    let bf = Drawable::Pixmap(nid);
    let surface = seq![
        XRequest::CreatePixmap { pid: nid, drawable: drw, width: a.width, height: a.height, depth },
        plain_gc(n1, bf, a.bg, a.fg),
        XRequest::FillRectangle { drawable: bf, gc: n1, x: 0, y: 0, width: a.width, height: a.height },
    ];
    if v.tag == tag_choices() {
        surface
    } else if v.tag == tag_lbl() {
        let mw = padded_width((a.width as i16) as int) as u16;
        surface + seq![
            XRequest::CreatePixmap { pid: a.mask, drawable: drw, width: mw, height: 64, depth: 1 },
            XRequest::CreatePixmap { pid: a.inv_mask, drawable: drw, width: mw, height: 64, depth: 1 },
        ]
    } else {
        Seq::empty()
    }
}

/// The request attribute `k` = `val` queues for `v`: a new background
/// colour is set on the window.
pub open spec fn attr_requests(v: VisualView, k: Seq<char>, val: Seq<char>) -> Seq<XRequest> {
    if k == letter('b') + letter('g') {
        match parse_unsigned(val, 16, 0xffff_ffff) {
            Some(n) => seq![XRequest::SetBackPixel { window: v.window, pixel: n as u32 }],
            None => Seq::empty(),
        }
    } else {
        Seq::empty()
    }
}

/// The requests the attributes `ps` queue when applied in order to `v`.
pub open spec fn attrs_requests(v: VisualView, ps: Pairs) -> Seq<XRequest>
    decreases ps.len(),
{
    if ps.len() == 0 {
        Seq::empty()
    } else {
        match attrs_fold(v, ps.drop_last()) {
            Some(w) => attrs_requests(v, ps.drop_last()) + attr_requests(w, ps.last().0, ps.last().1),
            None => Seq::empty(),
        }
    }
}

/// The requests a laid-out box `v` queues inside: a media box's buffer, or
/// the requests that lay its children out, unless it is an image, a label
/// or a choice list.
pub open spec fn inner_requests(
    v: VisualView,
    children: Seq<VisualView>,
    g: Seq<(char, u16, u16)>,
    nid: u32,
    drw: Drawable,
    depth: u8,
) -> Seq<XRequest>
    decreases children, 1int,
{
    if v.tag == tag_media() {
        seq![XRequest::CreatePixmap { pid: nid, drawable: drw, width: v.width, height: v.height, depth }]
    } else if v.tag == tag_i() || v.tag == tag_lbl() || v.tag == tag_choices() {
        Seq::empty()
    } else {
        fit_requests(children, frame(v), v.width, v.height, v.ax, v.ay, g, nid, drw, depth)
    }
}

/// The requests that move and resize the window of `v` to its place.
pub open spec fn place_requests(v: VisualView) -> Seq<XRequest> {
    seq![
        XRequest::MoveWindow { window: v.window, x: v.x as i32, y: v.y as i32 },
        XRequest::ResizeWindow { window: v.window, width: v.width as u32, height: v.height as u32 },
    ]
}

/// One more child lays out with the requests of the ones before it, then
/// its own.
pub(crate) proof fn lemma_fit_requests_step(
    cs: Seq<VisualView>,
    first: (i16, i16, u16, u16),
    pw: u16,
    ph: u16,
    ax: i16,
    ay: i16,
    g: Seq<(char, u16, u16)>,
    nid: u32,
    drw: Drawable,
    depth: u8,
    r: (Seq<VisualView>, u32),
)
    requires
        cs.len() > 0,
        fit_children(cs.drop_last(), first, pw, ph, ax, ay, g, nid) == Some(r),
    ensures
        ({
            let l = if r.0.len() == 0 {
                first
            } else {
                frame(r.0.last())
            };
            let c = placed(cs.last(), l, pw, ph, ax, ay);
            fit_requests(cs, first, pw, ph, ax, ay, g, nid, drw, depth) == fit_requests(
                cs.drop_last(),
                first,
                pw,
                ph,
                ax,
                ay,
                g,
                nid,
                drw,
                depth,
            ) + content_requests(c, cs.last().children, c.content, g, r.1, drw, depth)
        }),
{
}

/// Appending five runs one after the other is appending their concatenation.
proof fn lemma_chain(q: Seq<XRequest>, a: Seq<XRequest>, b: Seq<XRequest>, c: Seq<XRequest>, d: Seq<XRequest>, e: Seq<XRequest>)
    ensures
        q + a + b + c + d + e == q + (a + b + c + d + e),
{
    assert(q + a + b + c + d + e =~= q + (a + b + c + d + e));
}

/// Where `content_fit` succeeds, its requests come in five parts.
proof fn lemma_content_requests(
    v: VisualView,
    children: Seq<VisualView>,
    value: Seq<char>,
    g: Seq<(char, u16, u16)>,
    nid: u32,
    drw: Drawable,
    depth: u8,
)
    requires
        content_fit(v, children, value, g, nid) is Some,
    ensures
        ({
            let v2 = label_cut(after_value(v, value)->0)->0;
            let v3 = asset(v2, g, nid).0;
            let n3 = asset(v2, g, nid).1;
            let v4 = attrs_fold(v3, v3.attrs)->0;
            let v5 = VisualView { ax: v4.iax.wrapping_add(v4.x), ay: v4.iay.wrapping_add(v4.y), ..v4 };
            content_requests(v, children, value, g, nid, drw, depth) == release_requests(v) + asset_requests(
                v2,
                g,
                nid,
                drw,
                depth,
            ) + attrs_requests(v3, v3.attrs) + inner_requests(v5, children, g, n3, drw, depth) + place_requests(v5)
        }),
{
}

/// The requests `content_fit(v, children, value, g, nid)` queues where it
/// succeeds: the old drawing pixmaps freed, the new surfaces, the attributes'
/// backgrounds, a media box's buffer or the children laid out in turn, and
/// the window moved and resized.
pub open spec fn content_requests(
    v: VisualView,
    children: Seq<VisualView>,
    value: Seq<char>,
    g: Seq<(char, u16, u16)>,
    nid: u32,
    drw: Drawable,
    depth: u8,
) -> Seq<XRequest>
    decreases children, 2int,
{
    match after_value(v, value) {
        None => Seq::empty(),
        Some(v1) => match label_cut(v1) {
            None => Seq::empty(),
            Some(v2) => {
                let (v3, n3) = asset(v2, g, nid);
                match attrs_fold(v3, v3.attrs) {
                    None => Seq::empty(),
                    Some(v4) => {
                        let v5 = VisualView {
                            ax: v4.iax.wrapping_add(v4.x),
                            ay: v4.iay.wrapping_add(v4.y),
                            ..v4
                        };
                        release_requests(v) + asset_requests(v2, g, nid, drw, depth) + attrs_requests(v3, v3.attrs)
                            + inner_requests(v5, children, g, n3, drw, depth) + place_requests(v5)
                    },
                }
            },
        },
    }
}

/// The requests `fit_children(cs, first, pw, ph, ax, ay, g, nid)` queues
/// where it succeeds: each child's, in order.
pub open spec fn fit_requests(
    cs: Seq<VisualView>,
    first: (i16, i16, u16, u16),
    pw: u16,
    ph: u16,
    ax: i16,
    ay: i16,
    g: Seq<(char, u16, u16)>,
    nid: u32,
    drw: Drawable,
    depth: u8,
) -> Seq<XRequest>
    decreases cs, 0int,
{
    if cs.len() == 0 {
        Seq::empty()
    } else {
        match fit_children(cs.drop_last(), first, pw, ph, ax, ay, g, nid) {
            None => Seq::empty(),
            Some(r) => {
                let l = if r.0.len() == 0 {
                    first
                } else {
                    frame(r.0.last())
                };
                let c = placed(cs.last(), l, pw, ph, ax, ay);
                proof {
                    assert(decreases_to!(cs => cs[cs.len() - 1]));
                }
                fit_requests(cs.drop_last(), first, pw, ph, ax, ay, g, nid, drw, depth) + content_requests(
                    c,
                    cs.last().children,
                    c.content,
                    g,
                    r.1,
                    drw,
                    depth,
                )
            },
        }
    }
}

// ---------------------------------------------------------------------------
// Executable layout
// ---------------------------------------------------------------------------

/// Whether `k` is the one-letter name `c`.
fn name1(k: &Vec<char>, c: char) -> (r: bool)
    ensures
        r == (k@ == letter(c)),
{
    if k.len() == 1 && k[0] == c {
        assert(k@ =~= letter(c));
        true
    } else {
        false
    }
}

/// Whether `k` is the two-letter name `a` `b`.
fn name2(k: &Vec<char>, a: char, b: char) -> (r: bool)
    ensures
        r == (k@ == letter(a) + letter(b)),
{
    if k.len() == 2 && k[0] == a && k[1] == b {
        assert(k@ =~= letter(a) + letter(b));
        true
    } else {
        assert(k.len() == 2 ==> k@[0] == (letter(a) + letter(b))[0] ==> k@[1] == (letter(a)
            + letter(b))[1] ==> k@ =~= letter(a) + letter(b));
        false
    }
}

/// The requests that free the drawing pixmaps of `v` that are set.
pub open spec fn release_requests(v: VisualView) -> Seq<XRequest> {
    (if v.buf != NONE {
        seq![XRequest::FreePixmap { pixmap: v.buf }]
    } else {
        Seq::empty()
    }) + (if v.mask != NONE {
        seq![XRequest::FreePixmap { pixmap: v.mask }]
    } else {
        Seq::empty()
    }) + (if v.inv_mask != NONE {
        seq![XRequest::FreePixmap { pixmap: v.inv_mask }]
    } else {
        Seq::empty()
    })
}

/// The content after `m` in the `|`-separated enumeration `e`.
pub fn enum_next(e: &Vec<char>, m: &Vec<char>) -> (r: Vec<char>)
    ensures
        r@ == next_in_enum(e@, m@),
{
    let ea = split_on(e, '|');
    let mut le: Vec<char> = Vec::new();
    let mut content = m.clone();
    let mut i: usize = 0;
    let ghost ps = split(e@, '|');
    assert(le@ =~= Seq::<char>::empty());
    while i < ea.len()
        invariant
            i <= ea.len(),
            ea.deep_view() == ps,
            ps == split(e@, '|'),
            enum_from(ps, i as int, le@, content@, m@) == enum_from(ps, 0, Seq::empty(), m@, m@),
        decreases ea.len() - i,
    {
        assert(ea.deep_view()[i as int] == ea@[i as int]@);
        if le.len() == 0 {
            content = ea[i].clone();
        } else if same(&le, m) {
            let r = ea[i].clone();
            assert(r@ =~= ps[i as int]);
            assert(le@.len() != 0);
            assert(ps.len() == ea@.len());
            assert(le@ == m@);
            assert(enum_from(ps, i as int, le@, content@, m@) == ps[i as int]);
            return r;
        }
        le = ea[i].clone();
        i += 1;
    }
    content
}

impl Visual {
    /// Whether the tag is `lit`.
    fn tag_is(&self, lit: &str) -> (r: bool)
        ensures
            r == (self.tag@ == lit@),
    {
        is(&self.tag, lit)
    }

    /// Frees the buffer, mask and inverted mask that are set.
    fn release(&self, ctx: &mut Xcb)
        ensures
            final(ctx).pending@ == old(ctx).pending@ + release_requests(self.model()),
            final(ctx).next_id == old(ctx).next_id,
            final(ctx).same_setup(old(ctx)),
    {
        let ghost start = ctx.pending@;
        if self.buf != NONE {
            ctx.drop_pixmap(self.buf);
        }
        let ghost a = ctx.pending@;
        if self.mask != NONE {
            ctx.drop_pixmap(self.mask);
        }
        let ghost b = ctx.pending@;
        if self.inv_mask != NONE {
            ctx.drop_pixmap(self.inv_mask);
        }
        assert(ctx.pending@ =~= start + release_requests(self.model()));
    }

    /// Sets the content (or, for a choice list, the items) from `value`.
    fn take_value(&mut self, value: &Vec<char>) -> (ok: bool)
        requires
            view_wf(old(self).model()),
        ensures
            ok == after_value(old(self).model(), value@) is Some,
            ok ==> final(self).model() == after_value(old(self).model(), value@)->0,
            ok ==> view_wf(final(self).model()),
    {
        proof {
            reveal_strlit("choices");
        }
        assert("choices"@ =~= tag_choices());
        let ghost m0 = old(self).model();
        assert(m0.tag == old(self).tag@ && m0.attrs == old(self).attrs.pairs() && m0.content
            == old(self).content@);
        if self.tag_is("choices") {
            assert(m0.tag =~= tag_choices());
            let items = vec!['i', 't', 'e', 'm', 's'];
            assert(items@ =~= key_items());
            if self.attrs.contains_key(&items) {
                self.attrs.remove(&items);
            }
            let ghost mid = self.attrs.pairs();
            assert(mid == pairs_remove(old(self).attrs.pairs(), key_items()));
            self.attrs.insert(&items, value);
            return true;
        }
        if value.len() == 2 && value[0] == '>' && value[1] == '>' {
            assert(value@ =~= next_value());
            let key = vec!['c', 'n', 't', '-', 'e', 'n', 'u', 'm'];
            assert(key@ =~= key_cnt_enum());
            let e = match self.attrs.get(&key) {
                Some(e) => chars_of(e.as_str()),
                None => {
                    return false;
                },
            };
            let m = chars_of(self.content.as_str());
            let content = enum_next(&e, &m);
            self.content = crate::text::string_of(&content);
            return true;
        }
        self.content = crate::text::string_of(value);
        true
    }
}

impl Visual {
    /// Cuts a label's content to its first 50 bytes; fails where that is not
    /// a character boundary.
    fn cut_label(&mut self) -> (ok: bool)
        ensures
            ok == label_cut(old(self).model()) is Some,
            ok ==> final(self).model() == label_cut(old(self).model())->0,
    {
        proof {
            reveal_strlit("lbl");
        }
        assert("lbl"@ =~= tag_lbl());
        if !self.tag_is("lbl") {
            return true;
        }
        let c = chars_of(self.content.as_str());
        if !crate::text::utf8_longer(&c, 50) {
            return true;
        }
        match crate::text::prefix_cut(&c, 50) {
            Some(k) => {
                proof {
                    let j = choose|j: int| 0 <= j <= c@.len() && utf8_len(c@.take(j)) == 50;
                    if j < k {
                        crate::text::lemma_utf8_len_take_grows(c@, j, k as int);
                    } else if k < j {
                        crate::text::lemma_utf8_len_take_grows(c@, k as int, j);
                    }
                }
                let t = crate::text::slice_of(&c, 0, k);
                assert(t@ =~= c@.take(k as int));
                self.content = crate::text::string_of(&t);
                true
            },
            None => false,
        }
    }

    /// Creates the drawing surfaces of a choice list or a label (see `asset`).
    fn make_asset(&mut self, ctx: &mut Xcb, glyphs: &Glyphs, drw: Drawable)
        requires
            glyphs.wf(),
            old(self).tag@ == tag_lbl() ==> utf8_len(old(self).content@) <= 50,
        ensures
            (final(self).model(), final(ctx).next_id) == asset(
                old(self).model(),
                glyphs.metrics@,
                old(ctx).next_id,
            ),
            final(ctx).pending@ == old(ctx).pending@ + asset_requests(
                old(self).model(),
                glyphs.metrics@,
                old(ctx).next_id,
                drw,
                old(ctx).depth,
            ),
            final(ctx).same_setup(old(ctx)),
            old(ctx).pending@.is_prefix_of(final(ctx).pending@),
    {
        proof {
            reveal_strlit("lbl");
            reveal_strlit("choices");
        }
        assert("lbl"@ =~= tag_lbl());
        assert("choices"@ =~= tag_choices());
        let ghost start = ctx.pending@;
        if self.tag_is("choices") {
            self.buf = ctx.new_pixmap(drw, self.width, self.height);
            let bf = Drawable::Pixmap(self.buf);
            let gc = ctx.new_gc(bf, self.bg, self.fg);
            ctx.rect(gc, bf, 0, 0, self.width, self.height);
        } else if self.tag_is("lbl") {
            let c = chars_of(self.content.as_str());
            proof {
                crate::text::lemma_utf8_len_ge_len(c@);
            }
            let (sw, sh) = glyphs.measure(&c);
            let pad: u16 = (64 - sh) / 2;
            self.width = sw + 2 * pad;
            self.height = 64;
            self.buf = ctx.new_pixmap(drw, self.width, self.height);
            let bf = Drawable::Pixmap(self.buf);
            let gc = ctx.new_gc(bf, self.bg, self.fg);
            ctx.rect(gc, bf, 0, 0, self.width, self.height);
            self.mask = ctx.new_mask(drw, self.width as i16, self.height as i16);
            self.inv_mask = ctx.new_mask(drw, self.width as i16, self.height as i16);
        }
        assert(start.is_prefix_of(ctx.pending@));
    }

    /// Applies one attribute (see `attr_step`).
    fn apply_attr(&mut self, ctx: &mut Xcb, k: &Vec<char>, val: &Vec<char>) -> (ok: bool)
        ensures
            ok == attr_step(old(self).model(), k@, val@) is Some,
            ok ==> final(self).model() == attr_step(old(self).model(), k@, val@)->0,
            ok ==> final(ctx).pending@ == old(ctx).pending@ + attr_requests(old(self).model(), k@, val@),
            final(ctx).next_id == old(ctx).next_id,
            final(ctx).same_setup(old(ctx)),
            old(ctx).pending@.is_prefix_of(final(ctx).pending@),
    {
        let ghost m0 = old(self).model();
        let ghost start = ctx.pending@;
        let aa = split_on(val, '.');
        let ghost pieces = split(val@, '.');
        proof {
            crate::text::lemma_split_nonempty(val@, '.');
            if aa@.len() > 1 {
                assert(aa.deep_view()[1] == aa@[1]@);
                assert(aa.deep_view()[0] == aa@[0]@);
            }
        }
        if name2(k, 'f', 'g') {
            assert(k@[0] == 'f' && (letter('b') + letter('g'))[0] == 'b');
            assert(old(ctx).pending@ + attr_requests(m0, k@, val@) =~= old(ctx).pending@);
            match parse_uint(val, 16, 0xffff_ffff) {
                Some(n) => {
                    self.fg = n as u32;
                    return true;
                },
                None => {
                    return false;
                },
            }
        }
        if name2(k, 'b', 'g') {
            match parse_uint(val, 16, 0xffff_ffff) {
                Some(n) => {
                    self.bg = n as u32;
                    ctx.bg(self.window, self.bg);
                    assert(start.is_prefix_of(ctx.pending@));
                    assert(ctx.pending@ =~= old(ctx).pending@ + attr_requests(m0, k@, val@));
                    return true;
                },
                None => {
                    return false;
                },
            }
        }
        assert(old(ctx).pending@ + attr_requests(m0, k@, val@) =~= old(ctx).pending@);
        let is_w = name1(k, 'w');
        let is_h = name1(k, 'h');
        if is_w || is_h {
            if !crate::layout::visual_size_valid(val, self.pwidth, self.pheight) {
                return false;
            }
            let v = crate::layout::visual_calc(val, self.pwidth, self.pheight);
            if is_w {
                self.width = v;
            } else {
                self.height = v;
            }
            return true;
        }
        let is_l = name1(k, 'l');
        let is_m = name1(k, 'm');
        let is_r = name1(k, 'r');
        let is_c = name1(k, 'c');
        let is_t = name1(k, 't');
        let is_b = name1(k, 'b');
        if !(is_l || is_m || is_r || is_c || is_t || is_b) {
            return true;
        }
        let dotted = aa.len() > 1;
        if !dotted && !crate::layout::visual_size_valid(val, self.pwidth, self.pheight) {
            return false;
        }
        let horizontal = is_l || is_m || is_r;
        let max = if horizontal {
            self.pwidth
        } else {
            self.pheight
        };
        let at = if dotted {
            crate::layout::visual_anchor_of(&aa[1], max)
        } else {
            crate::layout::wrap(crate::layout::visual_calc(val, self.pwidth, self.pheight))
        };
        assert(at == spot(m0, val@, max));
        if is_l {
            if dotted && name1(&aa[0], 'l') {
                self.x = crate::layout::visual_anchor_of(
                    &aa[1],
                    self.lwidth.wrapping_add(self.lx as u16),
                );
            } else {
                self.x = at;
            }
        } else if is_m {
            self.x = at.wrapping_sub(crate::layout::half(self.width));
        } else if is_r {
            self.x = at.wrapping_sub(crate::layout::wrap(self.width));
        } else if is_c {
            self.y = at.wrapping_sub(crate::layout::half(self.height));
        } else if is_t {
            self.y = at;
        } else {
            self.y = at.wrapping_sub(crate::layout::wrap(self.height));
        }
        true
    }
}

/// Being a prefix is transitive.
pub proof fn lemma_prefix_trans<A>(a: Seq<A>, b: Seq<A>, c: Seq<A>)
    requires
        a.is_prefix_of(b),
        b.is_prefix_of(c),
    ensures
        a.is_prefix_of(c),
{
    assert(a =~= c.subrange(0, a.len() as int)) by {
        assert forall|i: int| 0 <= i < a.len() implies a[i] == c[i] by {
            assert(a[i] == b[i]);
            assert(b[i] == c[i]);
        }
    }
}

/// Applying attributes moves, sizes and colours a visual and nothing more.
pub proof fn lemma_attrs_fold_keeps(v: VisualView, ps: Pairs)
    ensures
        attrs_fold(v, ps) matches Some(w) ==> w.attrs == v.attrs && w.children == v.children
            && w.tag == v.tag && w.content == v.content && w.window == v.window && w.buf == v.buf
            && w.mask == v.mask && w.inv_mask == v.inv_mask && w.iax == v.iax && w.iay == v.iay,
    decreases ps.len(),
{
    if ps.len() > 0 {
        lemma_attrs_fold_keeps(v, ps.drop_last());
    }
}

proof fn lemma_attrs_fold_prefix(v: VisualView, ps: Pairs, j: int)
    requires
        0 <= j <= ps.len(),
        attrs_fold(v, ps.take(j)) is None,
    ensures
        attrs_fold(v, ps) is None,
    decreases ps.len() - j,
{
    if j < ps.len() {
        assert(ps.take(j + 1).drop_last() =~= ps.take(j));
        lemma_attrs_fold_prefix(v, ps, j + 1);
    } else {
        assert(ps.take(j) =~= ps);
    }
}

pub proof fn lemma_fit_children_prefix(
    cs: Seq<VisualView>,
    first: (i16, i16, u16, u16),
    pw: u16,
    ph: u16,
    ax: i16,
    ay: i16,
    g: Seq<(char, u16, u16)>,
    nid: u32,
    j: int,
)
    requires
        0 <= j <= cs.len(),
        fit_children(cs.take(j), first, pw, ph, ax, ay, g, nid) is None,
    ensures
        fit_children(cs, first, pw, ph, ax, ay, g, nid) is None,
    decreases cs.len() - j,
{
    if j < cs.len() {
        assert(cs.take(j + 1).drop_last() =~= cs.take(j));
        lemma_fit_children_prefix(cs, first, pw, ph, ax, ay, g, nid, j + 1);
    } else {
        assert(cs.take(j) =~= cs);
    }
}

impl Visual {
    /// Applies the attributes in order (see `attrs_fold`).
    fn apply_attrs(&mut self, ctx: &mut Xcb) -> (ok: bool)
        requires
            view_wf(old(self).model()),
        ensures
            ok == attrs_fold(old(self).model(), old(self).model().attrs) is Some,
            ok ==> final(self).model() == attrs_fold(old(self).model(), old(self).model().attrs)->0,
            ok ==> final(ctx).pending@ == old(ctx).pending@ + attrs_requests(old(self).model(), old(self).model().attrs),
            final(ctx).next_id == old(ctx).next_id,
            final(ctx).same_setup(old(ctx)),
            old(ctx).pending@.is_prefix_of(final(ctx).pending@),
    {
        let ghost m0 = self.model();
        let ghost ps = self.attrs.pairs();
        let ghost c0 = *ctx;
        let n = self.attrs.entries.len();
        let mut i: usize = 0;
        assert(ps.take(0) =~= Seq::<(Seq<char>, Seq<char>)>::empty());
        while i < n
            invariant
                i <= n == ps.len(),
                m0 == old(self).model(),
                c0 == *old(ctx),
                ps == m0.attrs,
                self.attrs.pairs() == ps,
                attrs_fold(m0, ps.take(i as int)) == Some(self.model()),
                ctx.pending@ == c0.pending@ + attrs_requests(m0, ps.take(i as int)),
                ctx.next_id == c0.next_id,
                ctx.same_setup(&c0),
                c0.pending@.is_prefix_of(ctx.pending@),
            decreases n - i,
        {
            let k = chars_of(self.attrs.entries[i].0.as_str());
            let v = chars_of(self.attrs.entries[i].1.as_str());
            assert(ps[i as int] == (k@, v@));
            assert(ps.take(i + 1).drop_last() =~= ps.take(i as int));
            assert(ps.take(i + 1).last() == ps[i as int]);
            let ok = self.apply_attr(ctx, &k, &v);
            if !ok {
                proof {
                    lemma_attrs_fold_prefix(m0, ps, i + 1);
                }
                return false;
            }
            i += 1;
        }
        assert(ps.take(n as int) =~= ps);
        true
    }

    /// Lays the children out one after the other (see `fit_children`).
    fn fit_kids(&mut self, ctx: &mut Xcb, glyphs: &Glyphs, drw: Drawable) -> (ok: bool)
        requires
            view_wf(old(self).model()),
            glyphs.wf(),
        ensures
            ok == fit_children(
                old(self).model().children,
                frame(old(self).model()),
                old(self).width,
                old(self).height,
                old(self).ax,
                old(self).ay,
                glyphs.metrics@,
                old(ctx).next_id,
            ) is Some,
            ok ==> (final(self).model().children, final(ctx).next_id) == fit_children(
                old(self).model().children,
                frame(old(self).model()),
                old(self).width,
                old(self).height,
                old(self).ax,
                old(self).ay,
                glyphs.metrics@,
                old(ctx).next_id,
            )->0,
            ok ==> final(self).model() == with_children(
                old(self).model(),
                final(self).model().children,
            ),
            ok ==> final(ctx).pending@ == old(ctx).pending@ + fit_requests(
                old(self).model().children,
                frame(old(self).model()),
                old(self).width,
                old(self).height,
                old(self).ax,
                old(self).ay,
                glyphs.metrics@,
                old(ctx).next_id,
                drw,
                old(ctx).depth,
            ),
            ok ==> view_wf(final(self).model()),
            final(ctx).same_setup(old(ctx)),
            old(ctx).pending@.is_prefix_of(final(ctx).pending@),
        decreases old(self).model().children, 0int,
    {
        let ghost m0 = self.model();
        let ghost c0 = *ctx;
        let mut kids: Vec<Visual> = Vec::new();
        std::mem::swap(&mut kids, &mut self.children);
        let ghost orig = kids@;
        let ghost om = models(orig);
        proof {
            lemma_models(orig);
            lemma_all_wf(om);
            assert(models(Seq::<Visual>::empty()) =~= Seq::<VisualView>::empty());
        }
        let n = kids.len();
        let mut done: Vec<Visual> = Vec::new();
        let mut i: usize = 0;
        assert(om.take(0) =~= Seq::<VisualView>::empty());
        assert(kids@ =~= orig.skip(0));
        while i < n
            invariant
                i <= n == orig.len() == om.len(),
                m0 == old(self).model(),
                c0 == *old(ctx),
                om == models(orig),
                om == m0.children,
                forall|j: int| 0 <= j < orig.len() ==> #[trigger] orig[j].model() == om[j],
                forall|j: int| 0 <= j < om.len() ==> #[trigger] view_wf(om[j]),
                kids@ == orig.skip(i as int),
                done@.len() == i,
                self.model() == with_children(m0, Seq::<VisualView>::empty()),
                glyphs.wf(),
                fit_children(
                    om.take(i as int),
                    frame(m0),
                    m0.width,
                    m0.height,
                    m0.ax,
                    m0.ay,
                    glyphs.metrics@,
                    c0.next_id,
                ) == Some((models(done@), ctx.next_id)),
                forall|j: int| 0 <= j < done@.len() ==> #[trigger] view_wf(done@[j].model()),
                ctx.same_setup(&c0),
                c0.pending@.is_prefix_of(ctx.pending@),
                ctx.pending@ == c0.pending@ + fit_requests(
                    om.take(i as int),
                    frame(m0),
                    m0.width,
                    m0.height,
                    m0.ax,
                    m0.ay,
                    glyphs.metrics@,
                    c0.next_id,
                    drw,
                    c0.depth,
                ),
            decreases n - i,
        {
            let mut c = kids.remove(0);
            assert(c == orig[i as int]);
            assert(kids@ =~= orig.skip(i + 1));
            proof {
                assert(decreases_to!(m0.children => om[i as int].children));
                assert(om.take(i + 1).drop_last() =~= om.take(i as int));
                assert(om.take(i + 1).last() == om[i as int]);
                lemma_models(done@);
            }
            let ghost pb = ctx.pending@;
            let ghost nb = ctx.next_id;
            let ghost lf = if i == 0 {
                frame(m0)
            } else {
                frame(models(done@).last())
            };
            let ok = if i == 0 {
                c.anchor_fit_to(ctx, glyphs, drw, &*self, &*self, self.ax, self.ay)
            } else {
                c.anchor_fit_to(ctx, glyphs, drw, &done[i - 1], &*self, self.ax, self.ay)
            };
            if !ok {
                proof {
                    lemma_fit_children_prefix(
                        om,
                        frame(m0),
                        m0.width,
                        m0.height,
                        m0.ax,
                        m0.ay,
                        glyphs.metrics@,
                        c0.next_id,
                        i + 1,
                    );
                }
                return false;
            }
            proof {
                let cp = placed(om[i as int], lf, m0.width, m0.height, m0.ax, m0.ay);
                let cs = om.take(i + 1);
                assert(cs.drop_last() =~= om.take(i as int));
                assert(cs.last() == om[i as int]);
                assert(cs.len() > 0);
                assert(models(done@).len() == i);
                assert(fit_children(cs.drop_last(), frame(m0), m0.width, m0.height, m0.ax, m0.ay, glyphs.metrics@, c0.next_id)
                    == Some((models(done@), nb)));
                assert(ctx.pending@ == pb + content_requests(cp, om[i as int].children, cp.content, glyphs.metrics@, nb, drw, c0.depth));
                lemma_fit_requests_step(cs, frame(m0), m0.width, m0.height, m0.ax, m0.ay, glyphs.metrics@, c0.next_id, drw, c0.depth, (models(done@), nb));
                assert(fit_requests(om.take(i + 1), frame(m0), m0.width, m0.height, m0.ax, m0.ay, glyphs.metrics@, c0.next_id, drw, c0.depth)
                    == fit_requests(om.take(i as int), frame(m0), m0.width, m0.height, m0.ax, m0.ay, glyphs.metrics@, c0.next_id, drw, c0.depth)
                    + content_requests(cp, om[i as int].children, cp.content, glyphs.metrics@, nb, drw, c0.depth));
                assert(ctx.pending@ =~= c0.pending@ + fit_requests(om.take(i + 1), frame(m0), m0.width, m0.height, m0.ax, m0.ay, glyphs.metrics@, c0.next_id, drw, c0.depth));
            }
            let ghost before = done@;
            done.push(c);
            proof {
                assert(done@.drop_last() =~= before);
                lemma_models(done@);
            }
            i += 1;
        }
        assert(om.take(n as int) =~= om);
        let ghost fin = done@;
        self.children = done;
        proof {
            lemma_models(fin);
            lemma_all_wf(models(fin));
        }
        true
    }

    /// Places this visual after the sibling `l` inside `p`, whose absolute
    /// position is (`ax`, `ay`), and lays it out again with its own content
    /// (see `placed` and `content_fit`).
    pub fn anchor_fit_to(
        &mut self,
        ctx: &mut Xcb,
        glyphs: &Glyphs,
        drw: Drawable,
        l: &Visual,
        p: &Visual,
        ax: i16,
        ay: i16,
    ) -> (ok: bool)
        requires
            view_wf(old(self).model()),
            glyphs.wf(),
        ensures
            ok == content_fit(
                placed(old(self).model(), frame(l.model()), p.width, p.height, ax, ay),
                old(self).model().children,
                old(self).content@,
                glyphs.metrics@,
                old(ctx).next_id,
            ) is Some,
            ok ==> (final(self).model(), final(ctx).next_id) == content_fit(
                placed(old(self).model(), frame(l.model()), p.width, p.height, ax, ay),
                old(self).model().children,
                old(self).content@,
                glyphs.metrics@,
                old(ctx).next_id,
            )->0,
            ok ==> final(ctx).pending@ == old(ctx).pending@ + content_requests(
                placed(old(self).model(), frame(l.model()), p.width, p.height, ax, ay),
                old(self).model().children,
                old(self).content@,
                glyphs.metrics@,
                old(ctx).next_id,
                drw,
                old(ctx).depth,
            ),
            ok ==> view_wf(final(self).model()),
            final(ctx).same_setup(old(ctx)),
            old(ctx).pending@.is_prefix_of(final(ctx).pending@),
        decreases old(self).model().children, 2int,
    {
        self.x = 0;
        self.y = 0;
        self.iax = ax;
        self.iay = ay;
        self.lx = l.x;
        self.ly = l.y;
        self.lwidth = l.width;
        self.lheight = l.height;
        self.pwidth = p.width;
        self.pheight = p.height;
        let cur = chars_of(self.content.as_str());
        self.set_content(ctx, glyphs, drw, &cur)
    }

    /// Sets the content to `value` and lays this visual and its subtree out
    /// again (see `content_fit`), queueing the requests that free the old
    /// drawing pixmaps, create the new ones, change backgrounds, and finally
    /// move and resize the window (see `content_requests`). Fails where a
    /// value cannot be read.
    #[verifier::rlimit(80)]
    #[verifier::spinoff_prover]
    pub fn set_content(&mut self, ctx: &mut Xcb, glyphs: &Glyphs, drw: Drawable, value: &Vec<char>) -> (ok: bool)
        requires
            view_wf(old(self).model()),
            glyphs.wf(),
        ensures
            ok == content_fit(
                old(self).model(),
                old(self).model().children,
                value@,
                glyphs.metrics@,
                old(ctx).next_id,
            ) is Some,
            ok ==> (final(self).model(), final(ctx).next_id) == content_fit(
                old(self).model(),
                old(self).model().children,
                value@,
                glyphs.metrics@,
                old(ctx).next_id,
            )->0,
            ok ==> view_wf(final(self).model()),
            ok ==> final(ctx).pending@ == old(ctx).pending@ + content_requests(
                old(self).model(),
                old(self).model().children,
                value@,
                glyphs.metrics@,
                old(ctx).next_id,
                drw,
                old(ctx).depth,
            ),
            ok ==> final(ctx).pending@.len() >= old(ctx).pending@.len() + 2,
            ok ==> final(ctx).pending@[final(ctx).pending@.len() - 2] == (XRequest::MoveWindow {
                window: final(self).window,
                x: final(self).x as i32,
                y: final(self).y as i32,
            }),
            ok ==> final(ctx).pending@.last() == (XRequest::ResizeWindow {
                window: final(self).window,
                width: final(self).width as u32,
                height: final(self).height as u32,
            }),
            final(ctx).same_setup(old(ctx)),
            old(ctx).pending@.is_prefix_of(final(ctx).pending@),
        decreases old(self).model().children, 1int,
    {
        let ghost m0 = self.model();
        let ghost c0 = *ctx;
        proof {
            reveal_strlit("media");
            reveal_strlit("i");
            reveal_strlit("lbl");
            reveal_strlit("choices");
        }
        assert("media"@ =~= tag_media());
        assert("i"@ =~= tag_i());
        assert("lbl"@ =~= tag_lbl());
        assert("choices"@ =~= tag_choices());
        self.release(ctx);
        assert(c0.pending@.is_prefix_of(ctx.pending@));
        let ghost r0 = ctx.pending@;
        if !self.take_value(value) {
            return false;
        }
        if !self.cut_label() {
            return false;
        }
        assert(self.tag@ == tag_lbl() ==> utf8_len(self.content@) <= 50);
        let ghost p1 = ctx.pending@;
        let ghost v2 = self.model();
        let ghost n0 = ctx.next_id;
        self.make_asset(ctx, glyphs, drw);
        let ghost v3 = self.model();
        proof {
            lemma_prefix_trans(c0.pending@, p1, ctx.pending@);
        }
        let ghost p2 = ctx.pending@;
        if !self.apply_attrs(ctx) {
            proof {
                lemma_prefix_trans(c0.pending@, p2, ctx.pending@);
            }
            return false;
        }
        proof {
            lemma_prefix_trans(c0.pending@, p2, ctx.pending@);
            lemma_attrs_fold_keeps(asset(label_cut(after_value(m0, value@)->0)->0, glyphs.metrics@, c0.next_id).0, asset(label_cut(after_value(m0, value@)->0)->0, glyphs.metrics@, c0.next_id).0.attrs);
        }
        let ghost p3a = ctx.pending@;
        let ghost n3 = ctx.next_id;
        self.ax = self.iax.wrapping_add(self.x);
        self.ay = self.iay.wrapping_add(self.y);
        let ghost v5 = self.model();
        if self.tag_is("media") {
            self.buf = ctx.new_pixmap(drw, self.width, self.height);
            assert(ctx.pending@ =~= p3a + inner_requests(v5, m0.children, glyphs.metrics@, n3, drw, c0.depth));
        } else if !(self.tag_is("i") || self.tag_is("lbl") || self.tag_is("choices")) {
            let ghost p3 = ctx.pending@;
            let fitted = self.fit_kids(ctx, glyphs, drw);
            proof {
                lemma_prefix_trans(c0.pending@, p3, ctx.pending@);
            }
            if !fitted {
                return false;
            }
            assert(ctx.pending@ =~= p3a + inner_requests(v5, m0.children, glyphs.metrics@, n3, drw, c0.depth));
        } else {
            assert(ctx.pending@ =~= p3a + inner_requests(v5, m0.children, glyphs.metrics@, n3, drw, c0.depth));
        }
        let ghost mid = ctx.pending@;
        ctx.pos(self.window, self.x, self.y);
        ctx.size(self.window, self.width, self.height);
        proof {
            lemma_prefix_trans(c0.pending@, mid, ctx.pending@);
            lemma_content_requests(m0, m0.children, value@, glyphs.metrics@, c0.next_id, drw, c0.depth);
            assert(ctx.pending@ =~= mid + place_requests(v5));
            lemma_chain(
                c0.pending@,
                release_requests(m0),
                asset_requests(v2, glyphs.metrics@, n0, drw, c0.depth),
                attrs_requests(v3, v3.attrs),
                inner_requests(v5, m0.children, glyphs.metrics@, n3, drw, c0.depth),
                place_requests(v5),
            );
        }
        true
    }
}

// ---------------------------------------------------------------------------
// Finding visuals in a tree
// ---------------------------------------------------------------------------

/// `id`.
pub open spec fn key_id() -> Seq<char> {
    seq!['i', 'd']
}

/// A visual answers to selector `sel`: its tag is `sel`, or it has an `id`
/// and `sel` is `#` followed by it.
pub open spec fn answers(v: VisualView, sel: Seq<char>) -> bool {
    v.tag == sel || (map_of(v.attrs).dom().contains(key_id()) && seq!['#'] + map_of(v.attrs)[key_id()]
        == sel)
}

/// The selector test as a predicate.
pub open spec fn by_selector(sel: Seq<char>) -> spec_fn(VisualView) -> bool {
    |v: VisualView| answers(v, sel)
}

/// The window test as a predicate.
pub open spec fn by_window(w: u32) -> spec_fn(VisualView) -> bool {
    |v: VisualView| v.window == w
}

/// The path (child indices from `v`) of the first visual of the tree, in
/// document order, that meets `p`.
pub open spec fn search(v: VisualView, p: spec_fn(VisualView) -> bool) -> Option<Seq<usize>>
    decreases v, 0int,
{
    if p(v) {
        Some(Seq::empty())
    } else {
        search_kids(v.children, p, 0)
    }
}

/// The path of the first match among the trees `cs` from the `i`-th on,
/// starting with that tree's index.
pub open spec fn search_kids(cs: Seq<VisualView>, p: spec_fn(VisualView) -> bool, i: int) -> Option<
    Seq<usize>,
>
    decreases cs, cs.len() - i + 1,
{
    if i < 0 || i >= cs.len() || i > usize::MAX {
        None
    } else {
        match search(cs[i], p) {
            Some(path) => Some(seq![i as usize] + path),
            None => search_kids(cs, p, i + 1),
        }
    }
}

/// `path` leads from `v` to a visual of its tree.
pub open spec fn valid_path(v: VisualView, path: Seq<usize>) -> bool
    decreases path.len(),
{
    path.len() == 0 || (path[0] < v.children.len() && valid_path(
        v.children[path[0] as int],
        path.skip(1),
    ))
}

/// The visual that `path` leads to.
pub open spec fn node_at(v: VisualView, path: Seq<usize>) -> VisualView
    decreases path.len(),
{
    if path.len() == 0 || path[0] >= v.children.len() {
        v
    } else {
        node_at(v.children[path[0] as int], path.skip(1))
    }
}

/// The tree with the visual at `path` replaced by `n`.
pub open spec fn replace_at(v: VisualView, path: Seq<usize>, n: VisualView) -> VisualView
    decreases path.len(),
{
    if path.len() == 0 {
        n
    } else if path[0] >= v.children.len() {
        v
    } else {
        VisualView {
            children: v.children.update(
                path[0] as int,
                replace_at(v.children[path[0] as int], path.skip(1), n),
            ),
            ..v
        }
    }
}

/// A found path leads into the tree, to a visual that meets the test.
pub proof fn lemma_search_valid(v: VisualView, p: spec_fn(VisualView) -> bool)
    ensures
        search(v, p) matches Some(path) ==> valid_path(v, path) && p(node_at(v, path)),
    decreases v, 0int,
{
    if !p(v) {
        lemma_search_kids_valid(v.children, p, 0);
        if let Some(path) = search(v, p) {
            assert(decreases_to!(v => v.children[path[0] as int]));
            lemma_search_valid(v.children[path[0] as int], p);
        }
    }
}

proof fn lemma_search_kids_valid(cs: Seq<VisualView>, p: spec_fn(VisualView) -> bool, i: int)
    ensures
        search_kids(cs, p, i) matches Some(path) ==> path.len() > 0 && path[0] < cs.len() && search(
            cs[path[0] as int],
            p,
        ) == Some(path.skip(1)),
    decreases cs, cs.len() - i + 1,
{
    if 0 <= i < cs.len() && i <= usize::MAX {
        lemma_search_valid(cs[i], p);
        match search(cs[i], p) {
            Some(path) => {
                assert((seq![i as usize] + path).skip(1) =~= path);
            },
            None => {
                lemma_search_kids_valid(cs, p, i + 1);
            },
        }
    }
}

impl Visual {
    /// The path of the first visual of this tree, in document order, that
    /// answers to `sel` (see `answers`).
    pub fn locate(&self, sel: &Vec<char>) -> (r: Option<Vec<usize>>)
        requires
            view_wf(self.model()),
        ensures
            match r {
                Some(p) => search(self.model(), by_selector(sel@)) == Some(p@),
                None => search(self.model(), by_selector(sel@)) is None,
            },
        decreases self.model(), 1int,
    {
        let ghost m = self.model();
        let tag_hit = same(&chars_of(self.tag.as_str()), sel);
        let hit = if tag_hit {
            true
        } else {
            let key = vec!['i', 'd'];
            assert(key@ =~= key_id());
            match self.attrs.get(&key) {
                Some(id) => {
                    let mut h = vec!['#'];
                    crate::text::push_all(&mut h, &chars_of(id.as_str()));
                    assert(h@ =~= seq!['#'] + id@);
                    same(&h, sel)
                },
                None => false,
            }
        };
        assert(hit == answers(m, sel@));
        if hit {
            return Some(Vec::new());
        }
        let mut i: usize = 0;
        proof {
            lemma_models(self.children@);
            lemma_all_wf(m.children);
        }
        while i < self.children.len()
            invariant
                i <= self.children.len(),
                m == self.model(),
                !answers(m, sel@),
                forall|j: int| 0 <= j < self.children@.len() ==> #[trigger] self.children@[j].model() == m.children[j],
                forall|j: int| 0 <= j < m.children.len() ==> #[trigger] view_wf(m.children[j]),
                m.children.len() == self.children@.len(),
                search(m, by_selector(sel@)) == search_kids(m.children, by_selector(sel@), i as int),
            decreases self.children.len() - i,
        {
            assert(decreases_to!(m => m.children[i as int]));
            match self.children[i].locate(sel) {
                Some(p) => {
                    let mut path = vec![i];
                    let ghost pv = p@;
                    let mut q = p;
                    path.append(&mut q);
                    assert(path@ =~= seq![i] + pv);
                    return Some(path);
                },
                None => {},
            }
            i += 1;
        }
        None
    }
}

/// Replacing one visual of a list replaces its view.
pub proof fn lemma_models_update(vs: Seq<Visual>, k: int, x: Visual)
    requires
        0 <= k < vs.len(),
    ensures
        models(vs.update(k, x)) == models(vs).update(k, x.model()),
{
    lemma_models(vs);
    lemma_models(vs.update(k, x));
    assert(models(vs.update(k, x)) =~= models(vs).update(k, x.model()));
}

/// The visuals of the tree whose tag is `sel`, in document order.
pub open spec fn selected(v: VisualView, sel: Seq<char>) -> Seq<VisualView>
    decreases v, 1int,
{
    (if v.tag == sel {
        seq![v]
    } else {
        Seq::empty()
    }) + selected_all(v.children, sel)
}

/// The visuals selected from each tree of `vs`, in order.
pub open spec fn selected_all(vs: Seq<VisualView>, sel: Seq<char>) -> Seq<VisualView>
    decreases vs, 0int,
{
    if vs.len() == 0 {
        Seq::empty()
    } else {
        selected_all(vs.drop_last(), sel) + selected(vs.last(), sel)
    }
}

/// The requests that show a tree: each visible visual's window is mapped,
/// in document order.
pub open spec fn show_requests(v: VisualView) -> Seq<XRequest>
    decreases v, 1int,
{
    (if v.visible {
        seq![XRequest::MapWindow { window: v.window }]
    } else {
        Seq::empty()
    }) + show_all(v.children)
}

/// The requests that show each tree of `vs`, in order.
pub open spec fn show_all(vs: Seq<VisualView>) -> Seq<XRequest>
    decreases vs, 0int,
{
    if vs.len() == 0 {
        Seq::empty()
    } else {
        show_all(vs.drop_last()) + show_requests(vs.last())
    }
}

/// The requests that hide a tree: every window is unmapped, in document
/// order.
pub open spec fn hide_requests(v: VisualView) -> Seq<XRequest>
    decreases v, 1int,
{
    seq![XRequest::UnmapWindow { window: v.window }] + hide_all(v.children)
}

/// The requests that hide each tree of `vs`, in order.
pub open spec fn hide_all(vs: Seq<VisualView>) -> Seq<XRequest>
    decreases vs, 0int,
{
    if vs.len() == 0 {
        Seq::empty()
    } else {
        hide_all(vs.drop_last()) + hide_requests(vs.last())
    }
}

/// The requests that tear a tree down: the children first, then, but for
/// the root, the visual's window and its drawing pixmaps, those that are set.
pub open spec fn demolish_requests(v: VisualView) -> Seq<XRequest>
    decreases v, 1int,
{
    demolish_all(v.children) + if v.tag != tag_root() {
        (if v.window != NONE {
            seq![XRequest::UnmapWindow { window: v.window }]
        } else {
            Seq::empty()
        }) + release_requests(v)
    } else {
        Seq::empty()
    }
}

/// The requests that tear down each tree of `vs`, in order.
pub open spec fn demolish_all(vs: Seq<VisualView>) -> Seq<XRequest>
    decreases vs, 0int,
{
    if vs.len() == 0 {
        Seq::empty()
    } else {
        demolish_all(vs.drop_last()) + demolish_requests(vs.last())
    }
}

impl Visual {
    /// The path of the first visual of this tree, in document order, whose
    /// window is `w`.
    pub fn locate_window(&self, w: u32) -> (r: Option<Vec<usize>>)
        ensures
            match r {
                Some(p) => search(self.model(), by_window(w)) == Some(p@),
                None => search(self.model(), by_window(w)) is None,
            },
        decreases self.model(), 1int,
    {
        let ghost m = self.model();
        if self.window == w {
            return Some(Vec::new());
        }
        let mut i: usize = 0;
        proof {
            lemma_models(self.children@);
        }
        while i < self.children.len()
            invariant
                i <= self.children.len(),
                m == self.model(),
                m.window != w,
                forall|j: int| 0 <= j < self.children@.len() ==> #[trigger] self.children@[j].model() == m.children[j],
                m.children.len() == self.children@.len(),
                search(m, by_window(w)) == search_kids(m.children, by_window(w), i as int),
            decreases self.children.len() - i,
        {
            assert(decreases_to!(m => m.children[i as int]));
            match self.children[i].locate_window(w) {
                Some(p) => {
                    let mut path = vec![i];
                    let ghost pv = p@;
                    let mut q = p;
                    path.append(&mut q);
                    assert(path@ =~= seq![i] + pv);
                    return Some(path);
                },
                None => {},
            }
            i += 1;
        }
        None
    }

    /// Swaps the visual at `path` (from its `from`-th step on) with `v`.
    pub fn swap_at(&mut self, path: &Vec<usize>, from: usize, v: &mut Visual)
        requires
            from <= path@.len(),
            valid_path(old(self).model(), path@.skip(from as int)),
        ensures
            final(v).model() == node_at(old(self).model(), path@.skip(from as int)),
            final(self).model() == replace_at(old(self).model(), path@.skip(from as int), old(v).model()),
        decreases path@.len() - from,
    {
        if from == path.len() {
            assert(path@.skip(from as int) =~= Seq::<usize>::empty());
            std::mem::swap(self, v);
            return;
        }
        let k = path[from];
        proof {
            lemma_models(self.children@);
            assert(path@.skip(from as int)[0] == k);
            assert(path@.skip(from as int).skip(1) =~= path@.skip(from + 1));
        }
        let ghost before = self.children@;
        self.children[k].swap_at(path, from + 1, v);
        proof {
            lemma_models_update(before, k as int, self.children@[k as int]);
            assert(self.children@ == before.update(k as int, self.children@[k as int]));
            assert(self.model().children =~= old(self).model().children.update(k as int, self.children@[k as int].model()));
        }
    }

    /// The visuals of this tree whose tag is `sel`, in document order.
    pub fn select(&self, sel: &str) -> (r: Vec<&Visual>)
        ensures
            r@.len() == selected(self.model(), sel@).len(),
            forall|i: int| 0 <= i < r@.len() ==> #[trigger] r@[i].model() == selected(self.model(), sel@)[i],
        decreases self.model(), 1int,
    {
        let ghost m = self.model();
        let mut ret: Vec<&Visual> = Vec::new();
        if is(&self.tag, sel) {
            ret.push(self);
        }
        let ghost head = if m.tag == sel@ {
            seq![m]
        } else {
            Seq::<VisualView>::empty()
        };
        proof {
            lemma_models(self.children@);
        }
        let mut j: usize = 0;
        assert(m.children.take(0) =~= Seq::<VisualView>::empty());
        while j < self.children.len()
            invariant
                j <= self.children.len(),
                m == self.model(),
                forall|k: int| 0 <= k < self.children@.len() ==> #[trigger] self.children@[k].model() == m.children[k],
                m.children.len() == self.children@.len(),
                head == (if m.tag == sel@ {
                    seq![m]
                } else {
                    Seq::<VisualView>::empty()
                }),
                ret@.len() == (head + selected_all(m.children.take(j as int), sel@)).len(),
                forall|i: int| 0 <= i < ret@.len() ==> #[trigger] ret@[i].model() == (head + selected_all(m.children.take(j as int), sel@))[i],
            decreases self.children.len() - j,
        {
            assert(decreases_to!(m => m.children[j as int]));
            let mut sub = self.children[j].select(sel);
            let ghost before = ret@;
            ret.append(&mut sub);
            assert(m.children.take(j + 1).drop_last() =~= m.children.take(j as int));
            assert(m.children.take(j + 1).last() == m.children[j as int]);
            j += 1;
            assert(head + selected_all(m.children.take(j as int), sel@) =~= (head + selected_all(m.children.take(j - 1), sel@)) + selected(m.children[j - 1], sel@));
        }
        assert(m.children.take(j as int) =~= m.children);
        ret
    }

    /// Maps the window of every visible visual of the tree.
    pub fn show(&self, ctx: &mut Xcb)
        ensures
            final(ctx).pending@ == old(ctx).pending@ + show_requests(self.model()),
            final(ctx).next_id == old(ctx).next_id,
            final(ctx).same_setup(old(ctx)),
        decreases self.model(), 1int,
    {
        let ghost m = self.model();
        let ghost start = ctx.pending@;
        if self.visible {
            ctx.show(self.window);
        }
        let ghost head = ctx.pending@;
        proof {
            lemma_models(self.children@);
        }
        let mut j: usize = 0;
        assert(m.children.take(0) =~= Seq::<VisualView>::empty());
        while j < self.children.len()
            invariant
                j <= self.children.len(),
                m == self.model(),
                forall|k: int| 0 <= k < self.children@.len() ==> #[trigger] self.children@[k].model() == m.children[k],
                m.children.len() == self.children@.len(),
                head == start + (if m.visible {
                    seq![XRequest::MapWindow { window: m.window }]
                } else {
                    Seq::<XRequest>::empty()
                }),
                ctx.pending@ == head + show_all(m.children.take(j as int)),
                ctx.next_id == old(ctx).next_id,
                ctx.same_setup(old(ctx)),
            decreases self.children.len() - j,
        {
            assert(decreases_to!(m => m.children[j as int]));
            self.children[j].show(ctx);
            assert(m.children.take(j + 1).drop_last() =~= m.children.take(j as int));
            assert(m.children.take(j + 1).last() == m.children[j as int]);
            j += 1;
            assert(ctx.pending@ =~= head + show_all(m.children.take(j as int)));
        }
        assert(m.children.take(j as int) =~= m.children);
        assert(ctx.pending@ =~= start + show_requests(m));
    }

    /// Unmaps the window of every visual of the tree.
    pub fn hide_tree(&self, ctx: &mut Xcb)
        ensures
            final(ctx).pending@ == old(ctx).pending@ + hide_requests(self.model()),
            final(ctx).next_id == old(ctx).next_id,
            final(ctx).same_setup(old(ctx)),
        decreases self.model(), 1int,
    {
        let ghost m = self.model();
        let ghost start = ctx.pending@;
        ctx.hide_window(self.window);
        let ghost head = ctx.pending@;
        proof {
            lemma_models(self.children@);
        }
        let mut j: usize = 0;
        assert(m.children.take(0) =~= Seq::<VisualView>::empty());
        while j < self.children.len()
            invariant
                j <= self.children.len(),
                m == self.model(),
                forall|k: int| 0 <= k < self.children@.len() ==> #[trigger] self.children@[k].model() == m.children[k],
                m.children.len() == self.children@.len(),
                head == start.push(XRequest::UnmapWindow { window: m.window }),
                ctx.pending@ == head + hide_all(m.children.take(j as int)),
                ctx.next_id == old(ctx).next_id,
                ctx.same_setup(old(ctx)),
            decreases self.children.len() - j,
        {
            assert(decreases_to!(m => m.children[j as int]));
            self.children[j].hide_tree(ctx);
            assert(m.children.take(j + 1).drop_last() =~= m.children.take(j as int));
            assert(m.children.take(j + 1).last() == m.children[j as int]);
            j += 1;
            assert(ctx.pending@ =~= head + hide_all(m.children.take(j as int)));
        }
        assert(m.children.take(j as int) =~= m.children);
        assert(ctx.pending@ =~= start + hide_requests(m));
    }

    /// Tears the tree down: the children first, then, unless this is the
    /// root, its window and drawing pixmaps.
    pub fn demolish(&self, ctx: &mut Xcb)
        ensures
            final(ctx).pending@ == old(ctx).pending@ + demolish_requests(self.model()),
            final(ctx).next_id == old(ctx).next_id,
            final(ctx).same_setup(old(ctx)),
        decreases self.model(), 1int,
    {
        let ghost m = self.model();
        let ghost start = ctx.pending@;
        proof {
            lemma_models(self.children@);
            reveal_strlit("root");
        }
        assert("root"@ =~= tag_root());
        let mut j: usize = 0;
        assert(m.children.take(0) =~= Seq::<VisualView>::empty());
        while j < self.children.len()
            invariant
                j <= self.children.len(),
                m == self.model(),
                forall|k: int| 0 <= k < self.children@.len() ==> #[trigger] self.children@[k].model() == m.children[k],
                m.children.len() == self.children@.len(),
                ctx.pending@ == start + demolish_all(m.children.take(j as int)),
                ctx.next_id == old(ctx).next_id,
                ctx.same_setup(old(ctx)),
            decreases self.children.len() - j,
        {
            assert(decreases_to!(m => m.children[j as int]));
            self.children[j].demolish(ctx);
            assert(m.children.take(j + 1).drop_last() =~= m.children.take(j as int));
            assert(m.children.take(j + 1).last() == m.children[j as int]);
            j += 1;
            assert(ctx.pending@ =~= start + demolish_all(m.children.take(j as int)));
        }
        assert(m.children.take(j as int) =~= m.children);
        let ghost mid = ctx.pending@;
        if !self.tag_is("root") {
            if self.window != NONE {
                ctx.drop_window(self.window);
            }
            let ghost w = ctx.pending@;
            self.release(ctx);
            assert(ctx.pending@ =~= mid + ((if m.window != NONE {
                seq![XRequest::UnmapWindow { window: m.window }]
            } else {
                Seq::<XRequest>::empty()
            }) + release_requests(m)));
        }
        assert(ctx.pending@ =~= start + demolish_requests(m));
    }
}

// ---------------------------------------------------------------------------
// Scene nodes and building visuals from them
// ---------------------------------------------------------------------------

/// `inner`, where a layer's view keeps a node's head.
pub open spec fn inner_key() -> Seq<char> {
    seq!['i', 'n', 'n', 'e', 'r']
}

/// A node of a layer's view: tag, text content, children, attributes and a
/// random id.
pub struct SceneNode {
    pub tag: String,
    pub content: String,
    pub children: Vec<SceneNode>,
    pub attrs: StrMap,
    pub id: u64,
}

/// `n` was read from the JSON tree `v` whose heads stand under `key`: tag
/// and attributes from the head, and either children from the `content`
/// array or text from `content`.
pub open spec fn scene_built_from(n: SceneNode, v: JsonNode, key: Seq<char>) -> bool
    decreases v, 1int,
{
    &&& n.tag@ == head_name(crate::text::trim(field_text(v, key)))
    &&& n.attrs.wf()
    &&& n.attrs.map() == head_attrs(crate::text::trim(field_text(v, key)))
    &&& if field_is_array(v, content_key()) {
        proof {
            crate::json::lemma_field_index(v, content_key());
        }
        &&& n.content@ == Seq::<char>::empty()
        &&& all_scene_built(n.children@, field_members(v, content_key()), key)
    } else {
        &&& n.content@ == field_text(v, content_key())
        &&& n.children@.len() == 0
    }
}

/// Each node of `ns` was read from the tree at the same place in `vs`.
pub open spec fn all_scene_built(ns: Seq<SceneNode>, vs: Seq<JsonNode>, key: Seq<char>) -> bool
    decreases vs, 0int,
{
    &&& ns.len() == vs.len()
    &&& if vs.len() == 0 {
        true
    } else {
        all_scene_built(ns.drop_last(), vs.drop_last(), key) && scene_built_from(
            ns.last(),
            vs.last(),
            key,
        )
    }
}

proof fn lemma_all_scene_built_push(
    ns: Seq<SceneNode>,
    vs: Seq<JsonNode>,
    n: SceneNode,
    v: JsonNode,
    key: Seq<char>,
)
    requires
        all_scene_built(ns, vs, key),
        scene_built_from(n, v, key),
    ensures
        all_scene_built(ns.push(n), vs.push(v), key),
{
    assert(ns.push(n).drop_last() =~= ns);
    assert(vs.push(v).drop_last() =~= vs);
}

/// Reads the scene tree whose heads stand under `key` from `v`.
fn build_scene(v: &JsonNode, key: &Vec<char>) -> (r: Option<SceneNode>)
    ensures
        r is Some <==> buildable(*v, key@),
        r matches Some(n) ==> scene_built_from(n, *v, key@),
    decreases *v,
{
    let ck = vec!['c', 'o', 'n', 't', 'e', 'n', 't'];
    assert(ck@ =~= content_key());
    let head = v.text_at(key);
    let (tag, attrs) = match parse_head(&head) {
        Some(h) => h,
        None => {
            return None;
        },
    };
    let mut content = String::new();
    let mut children: Vec<SceneNode> = Vec::new();
    match v.field_position(&ck) {
        Some(i) => {
            if v.fields[i].1.is_array {
                let ms = &v.fields[i].1.members;
                let mut j: usize = 0;
                assert(ms@.take(0) =~= Seq::<JsonNode>::empty());
                assert(children@ =~= Seq::<SceneNode>::empty());
                while j < ms.len()
                    invariant
                        j <= ms.len(),
                        ms@ == field_members(*v, content_key()),
                        i < v.fields@.len(),
                        ms@ == v.fields@[i as int].1.members@,
                        field_is_array(*v, content_key()),
                        all_scene_built(children@, ms@.take(j as int), key@),
                        all_buildable(ms@.take(j as int), key@),
                    decreases ms.len() - j,
                {
                    assert(ms@.take(j + 1).drop_last() =~= ms@.take(j as int));
                    assert(decreases_to!(*v => v.fields@[i as int].1.members@[j as int]));
                    match build_scene(&ms[j], key) {
                        Some(n) => {
                            proof {
                                lemma_all_scene_built_push(
                                    children@,
                                    ms@.take(j as int),
                                    n,
                                    ms@[j as int],
                                    key@,
                                );
                                assert(ms@.take(j as int).push(ms@[j as int]) =~= ms@.take(j + 1));
                            }
                            children.push(n);
                        },
                        None => {
                            proof {
                                if buildable(*v, key@) {
                                    assert(all_buildable(field_members(*v, content_key()), key@));
                                    crate::scene::lemma_all_buildable_at(ms@, key@, j as int);
                                }
                            }
                            return None;
                        },
                    }
                    j += 1;
                }
                assert(ms@.take(ms.len() as int) =~= ms@);
            } else {
                content = crate::text::string_of(&v.text_at(&ck));
            }
        },
        None => {
            content = crate::text::string_of(&v.text_at(&ck));
        },
    }
    Some(SceneNode { tag, content, children, attrs, id: random_id() })
}

/// `visible`.
pub open spec fn key_visible() -> Seq<char> {
    seq!['v', 'i', 's', 'i', 'b', 'l', 'e']
}

/// The attributes a visual is made from can be read: `visible` a boolean,
/// `bg` and `fg` hexadecimal colours.
pub open spec fn node_ok(attrs: Map<Seq<char>, Seq<char>>) -> bool {
    &&& attrs.dom().contains(key_visible()) ==> parse_bool(attrs[key_visible()]) is Some
    &&& attrs.dom().contains(letter('b') + letter('g')) ==> parse_unsigned(
        attrs[letter('b') + letter('g')],
        16,
        0xffff_ffff,
    ) is Some
    &&& attrs.dom().contains(letter('f') + letter('g')) ==> parse_unsigned(
        attrs[letter('f') + letter('g')],
        16,
        0xffff_ffff,
    ) is Some
}

/// Every node of the tree can be made into a visual.
pub open spec fn tree_ok(n: SceneNode) -> bool
    decreases n, 1int,
{
    node_ok(n.attrs.map()) && n.attrs.wf() && trees_ok(n.children@)
}

/// Every tree of the list can be made into visuals.
pub open spec fn trees_ok(ns: Seq<SceneNode>) -> bool
    decreases ns, 0int,
{
    if ns.len() == 0 {
        true
    } else {
        trees_ok(ns.drop_last()) && tree_ok(ns.last())
    }
}

/// The colour a visual of tag `tag` and attributes `attrs` starts with, in the
/// background or foreground.
pub open spec fn start_colour(tag: Seq<char>, attrs: Map<Seq<char>, Seq<char>>, fg: bool) -> u32 {
    let key = if fg {
        letter('f') + letter('g')
    } else {
        letter('b') + letter('g')
    };
    if attrs.dom().contains(key) {
        parse_unsigned(attrs[key], 16, 0xffff_ffff)->0 as u32
    } else if fg {
        0xFF88_0088
    } else if tag == tag_choices() {
        0xFF44_0044
    } else {
        0xFF10_1010
    }
}

/// The visual made from a node under the window `pwin`, with the next free
/// handle: the root draws in `pwin`, a media box and any other visual get a
/// window of their own; 64x64 at the origin, no pixmaps, not checked.
pub open spec fn fresh(
    tag: Seq<char>,
    content: Seq<char>,
    attrs: Pairs,
    pwin: u32,
    nid: u32,
) -> (VisualView, u32) {
    let m = map_of(attrs);
    let window = if tag == tag_root() {
        pwin
    } else {
        nid
    };
    (
        VisualView {
            x: 0,
            y: 0,
            iax: 0,
            iay: 0,
            ax: 0,
            ay: 0,
            width: 64,
            height: 64,
            lx: 0,
            ly: 0,
            lwidth: 64,
            lheight: 64,
            pwidth: 64,
            pheight: 64,
            inv_mask: NONE,
            mask: NONE,
            buf: NONE,
            window,
            bg: start_colour(tag, m, false),
            fg: start_colour(tag, m, true),
            children: Seq::empty(),
            attrs,
            tag,
            content,
            visible: if m.dom().contains(key_visible()) {
                parse_bool(m[key_visible()])->0
            } else {
                true
            },
            checked: false,
        },
        if tag == tag_root() {
            nid
        } else {
            next_handle(nid)
        },
    )
}

/// The window request of a fresh visual (see `fresh`): none for the root,
/// which uses its parent's window; a 64x64 child window of `pwin` with the
/// visual's background, listening to everything but exposures for media.
pub open spec fn fresh_requests(
    tag: Seq<char>,
    content: Seq<char>,
    attrs: Pairs,
    pwin: u32,
    nid: u32,
    depth: u8,
    visual: u32,
) -> Seq<XRequest> {
    if tag == tag_root() {
        Seq::empty()
    } else {
        seq![
            XRequest::CreateWindow {
                wid: nid,
                parent: pwin,
                width: 64,
                height: 64,
                depth,
                visual,
                back_pixel: Some(fresh(tag, content, attrs, pwin, nid).0.bg),
                backing_pixel: None,
                event_mask: if tag == tag_media() {
                    basic_events()
                } else {
                    sub_events()
                },
                cursor_none: true,
            },
        ]
    }
}

/// The requests that build the tree of `n` under `pwin` (see `build_view`):
/// its window, then its children's trees in order.
pub open spec fn build_requests(n: SceneNode, pwin: u32, nid: u32, depth: u8, visual: u32) -> Seq<XRequest>
    decreases n, 1int,
{
    let f = fresh(n.tag@, n.content@, n.attrs.pairs(), pwin, nid);
    fresh_requests(n.tag@, n.content@, n.attrs.pairs(), pwin, nid, depth, visual) + build_all_requests(
        n.children@,
        f.0.window,
        f.1,
        depth,
        visual,
    )
}

/// The requests that build each of the trees `ns` under `pwin`, in order.
pub open spec fn build_all_requests(ns: Seq<SceneNode>, pwin: u32, nid: u32, depth: u8, visual: u32) -> Seq<XRequest>
    decreases ns, 0int,
{
    if ns.len() == 0 {
        Seq::empty()
    } else {
        let r = build_all(ns.drop_last(), pwin, nid);
        build_all_requests(ns.drop_last(), pwin, nid, depth, visual) + build_requests(ns.last(), pwin, r.1, depth, visual)
    }
}

/// The visual tree built from the scene tree `n` under `pwin`, windows made
/// in document order, with the next free handle.
pub open spec fn build_view(n: SceneNode, pwin: u32, nid: u32) -> (VisualView, u32)
    decreases n, 1int,
{
    let f = fresh(n.tag@, n.content@, n.attrs.pairs(), pwin, nid);
    let kids = build_all(n.children@, f.0.window, f.1);
    (with_children(f.0, kids.0), kids.1)
}

/// The visual trees built from each of `ns` under `pwin`, in order.
pub open spec fn build_all(ns: Seq<SceneNode>, pwin: u32, nid: u32) -> (Seq<VisualView>, u32)
    decreases ns, 0int,
{
    if ns.len() == 0 {
        (Seq::empty(), nid)
    } else {
        let r = build_all(ns.drop_last(), pwin, nid);
        let b = build_view(ns.last(), pwin, r.1);
        (r.0.push(b.0), b.1)
    }
}

impl SceneNode {
    /// An empty node.
    pub fn none() -> (n: SceneNode)
        ensures
            n.tag@ == Seq::<char>::empty(),
            n.content@ == Seq::<char>::empty(),
            n.children@.len() == 0,
            n.attrs.wf(),
            n.attrs.pairs().len() == 0,
            n.id == 0,
    {
        SceneNode {
            tag: String::new(),
            content: String::new(),
            children: Vec::new(),
            attrs: StrMap::new(),
            id: 0,
        }
    }

    /// Reads a scene tree from the JSON tree `v` (heads under `inner`),
    /// giving every node a random id; nothing when some head has an
    /// attribute without `=`.
    pub fn new(v: &JsonNode) -> (r: Option<SceneNode>)
        ensures
            r is Some <==> buildable(*v, inner_key()),
            r matches Some(n) ==> scene_built_from(n, *v, inner_key()),
    {
        let key = vec!['i', 'n', 'n', 'e', 'r'];
        assert(key@ =~= inner_key());
        build_scene(v, &key)
    }

    /// Whether every node of the tree can be made into a visual.
    pub fn check(&self) -> (r: bool)
        ensures
            r == tree_ok(*self),
        decreases *self,
    {
        if !node_check(&self.attrs) {
            return false;
        }
        let mut j: usize = 0;
        assert(self.children@.take(0) =~= Seq::<SceneNode>::empty());
        while j < self.children.len()
            invariant
                j <= self.children.len(),
                node_ok(self.attrs.map()) && self.attrs.wf(),
                trees_ok(self.children@.take(j as int)),
            decreases self.children.len() - j,
        {
            assert(self.children@.take(j + 1).drop_last() =~= self.children@.take(j as int));
            assert(self.children@.take(j + 1).last() == self.children@[j as int]);
            assert(decreases_to!(*self => self.children@[j as int]));
            if !self.children[j].check() {
                proof {
                    lemma_trees_ok_prefix(self.children@, j + 1);
                }
                return false;
            }
            j += 1;
        }
        assert(self.children@.take(j as int) =~= self.children@);
        true
    }

    /// Builds the visual tree of this node under `win` and adds it to `p`'s
    /// children.
    pub fn build_in(&self, ctx: &mut Xcb, win: u32, p: &mut Visual)
        requires
            tree_ok(*self),
        ensures
            final(p).model() == with_children(
                old(p).model(),
                old(p).model().children.push(build_view(*self, win, old(ctx).next_id).0),
            ),
            final(ctx).next_id == build_view(*self, win, old(ctx).next_id).1,
            final(ctx).pending@ == old(ctx).pending@ + build_requests(*self, win, old(ctx).next_id, old(ctx).depth, old(ctx).visual_id),
            final(ctx).same_setup(old(ctx)),
            old(ctx).pending@.is_prefix_of(final(ctx).pending@),
    {
        let vis = self.build(ctx, win);
        let ghost before = p.children@;
        p.children.push(vis);
        proof {
            assert(p.children@.drop_last() =~= before);
        }
    }

    /// The visual tree of this node under `win`.
    fn build(&self, ctx: &mut Xcb, win: u32) -> (vis: Visual)
        requires
            tree_ok(*self),
        ensures
            (vis.model(), final(ctx).next_id) == build_view(*self, win, old(ctx).next_id),
            final(ctx).pending@ == old(ctx).pending@ + build_requests(*self, win, old(ctx).next_id, old(ctx).depth, old(ctx).visual_id),
            final(ctx).same_setup(old(ctx)),
            old(ctx).pending@.is_prefix_of(final(ctx).pending@),
        decreases *self,
    {
        let ghost c0 = *ctx;
        let mut vis = Visual::new(ctx, win, self);
        let ghost f = fresh(self.tag@, self.content@, self.attrs.pairs(), win, c0.next_id);
        let ghost c1 = *ctx;
        let mut kids: Vec<Visual> = Vec::new();
        let mut j: usize = 0;
        assert(self.children@.take(0) =~= Seq::<SceneNode>::empty());
        proof {
            lemma_models(kids@);
        }
        while j < self.children.len()
            invariant
                j <= self.children.len(),
                vis.model() == f.0,
                trees_ok(self.children@),
                (models(kids@), ctx.next_id) == build_all(self.children@.take(j as int), f.0.window, f.1),
                ctx.pending@ == c1.pending@ + build_all_requests(self.children@.take(j as int), f.0.window, f.1, c0.depth, c0.visual_id),
                c1.pending@ == c0.pending@ + fresh_requests(self.tag@, self.content@, self.attrs.pairs(), win, c0.next_id, c0.depth, c0.visual_id),
                ctx.same_setup(&c0),
                c0.pending@.is_prefix_of(ctx.pending@),
            decreases self.children.len() - j,
        {
            assert(self.children@.take(j + 1).drop_last() =~= self.children@.take(j as int));
            assert(self.children@.take(j + 1).last() == self.children@[j as int]);
            assert(decreases_to!(*self => self.children@[j as int]));
            proof {
                lemma_trees_ok_at(self.children@, j as int);
            }
            let ghost p0 = ctx.pending@;
            let ghost n0 = ctx.next_id;
            let c = self.children[j].build(ctx, vis.window);
            proof {
                lemma_prefix_trans(c0.pending@, p0, ctx.pending@);
                assert(build_all_requests(self.children@.take(j + 1), f.0.window, f.1, c0.depth, c0.visual_id)
                    == build_all_requests(self.children@.take(j as int), f.0.window, f.1, c0.depth, c0.visual_id)
                    + build_requests(self.children@[j as int], f.0.window, n0, c0.depth, c0.visual_id));
                assert(ctx.pending@ =~= c1.pending@ + build_all_requests(self.children@.take(j + 1), f.0.window, f.1, c0.depth, c0.visual_id));
            }
            let ghost before = kids@;
            kids.push(c);
            assert(kids@.drop_last() =~= before);
            j += 1;
        }
        assert(self.children@.take(j as int) =~= self.children@);
        assert(ctx.pending@ =~= c0.pending@ + build_requests(*self, win, c0.next_id, c0.depth, c0.visual_id));
        vis.children = kids;
        vis
    }
}

/// Every head of the JSON tree `v` (under `key`) has attributes a visual can
/// be made from.
pub open spec fn doc_ok(v: JsonNode, key: Seq<char>) -> bool
    decreases v, 1int,
{
    &&& node_ok(head_attrs(crate::text::trim(field_text(v, key))))
    &&& if field_is_array(v, content_key()) {
        proof {
            crate::json::lemma_field_index(v, content_key());
        }
        docs_ok(field_members(v, content_key()), key)
    } else {
        true
    }
}

/// Every tree of `vs` is `doc_ok`.
pub open spec fn docs_ok(vs: Seq<JsonNode>, key: Seq<char>) -> bool
    decreases vs, 0int,
{
    if vs.len() == 0 {
        true
    } else {
        docs_ok(vs.drop_last(), key) && doc_ok(vs.last(), key)
    }
}

/// A scene tree read from a document can be made into visuals exactly when
/// the document's heads allow it.
pub proof fn lemma_tree_ok_doc(n: SceneNode, v: JsonNode, key: Seq<char>)
    requires
        scene_built_from(n, v, key),
    ensures
        tree_ok(n) == doc_ok(v, key),
    decreases v, 1int,
{
    if field_is_array(v, content_key()) {
        crate::json::lemma_field_index(v, content_key());
        lemma_trees_ok_docs(n.children@, field_members(v, content_key()), key);
    } else {
        assert(n.children@ =~= Seq::<SceneNode>::empty());
    }
}

proof fn lemma_trees_ok_docs(ns: Seq<SceneNode>, vs: Seq<JsonNode>, key: Seq<char>)
    requires
        all_scene_built(ns, vs, key),
    ensures
        trees_ok(ns) == docs_ok(vs, key),
    decreases vs, 0int,
{
    if vs.len() > 0 {
        lemma_trees_ok_docs(ns.drop_last(), vs.drop_last(), key);
        lemma_tree_ok_doc(ns.last(), vs.last(), key);
    }
}

proof fn lemma_trees_ok_prefix(ns: Seq<SceneNode>, j: int)
    requires
        0 <= j <= ns.len(),
        !trees_ok(ns.take(j)),
    ensures
        !trees_ok(ns),
    decreases ns.len() - j,
{
    if j < ns.len() {
        assert(ns.take(j + 1).drop_last() =~= ns.take(j));
        lemma_trees_ok_prefix(ns, j + 1);
    } else {
        assert(ns.take(j) =~= ns);
    }
}

pub proof fn lemma_trees_ok_at(ns: Seq<SceneNode>, j: int)
    requires
        trees_ok(ns),
        0 <= j < ns.len(),
    ensures
        tree_ok(ns[j]),
    decreases ns.len(),
{
    if j < ns.len() - 1 {
        lemma_trees_ok_at(ns.drop_last(), j);
    }
}

/// Whether attributes can be made into a visual (see `node_ok`).
fn node_check(attrs: &StrMap) -> (r: bool)
    ensures
        r == (node_ok(attrs.map()) && attrs.wf()),
{
    if !crate::strmap::StrMap::distinct(attrs) {
        return false;
    }
    let kv = vec!['v', 'i', 's', 'i', 'b', 'l', 'e'];
    assert(kv@ =~= key_visible());
    let kb = vec!['b', 'g'];
    assert(kb@ =~= letter('b') + letter('g'));
    let kf = vec!['f', 'g'];
    assert(kf@ =~= letter('f') + letter('g'));
    let v_ok = match attrs.get(&kv) {
        Some(v) => crate::numbers::parse_boolean(&chars_of(v.as_str())).is_some(),
        None => true,
    };
    let b_ok = match attrs.get(&kb) {
        Some(v) => parse_uint(&chars_of(v.as_str()), 16, 0xffff_ffff).is_some(),
        None => true,
    };
    let f_ok = match attrs.get(&kf) {
        Some(v) => parse_uint(&chars_of(v.as_str()), 16, 0xffff_ffff).is_some(),
        None => true,
    };
    v_ok && b_ok && f_ok
}

impl Visual {
    /// The visual for node `n` under the window `pwin` (see `fresh`): a media
    /// box gets a window without exposures, the root draws in `pwin`, any
    /// other visual gets an ordinary child window.
    pub fn new(ctx: &mut Xcb, pwin: u32, n: &SceneNode) -> (v: Visual)
        requires
            node_ok(n.attrs.map()),
            n.attrs.wf(),
        ensures
            (v.model(), final(ctx).next_id) == fresh(n.tag@, n.content@, n.attrs.pairs(), pwin, old(ctx).next_id),
            final(ctx).pending@ == old(ctx).pending@ + fresh_requests(
                n.tag@,
                n.content@,
                n.attrs.pairs(),
                pwin,
                old(ctx).next_id,
                old(ctx).depth,
                old(ctx).visual_id,
            ),
            final(ctx).same_setup(old(ctx)),
            old(ctx).pending@.is_prefix_of(final(ctx).pending@),
    {
        proof {
            reveal_strlit("root");
            reveal_strlit("media");
            reveal_strlit("choices");
        }
        assert("root"@ =~= tag_root());
        assert("media"@ =~= tag_media());
        assert("choices"@ =~= tag_choices());
        let kv = vec!['v', 'i', 's', 'i', 'b', 'l', 'e'];
        assert(kv@ =~= key_visible());
        let kb = vec!['b', 'g'];
        assert(kb@ =~= letter('b') + letter('g'));
        let kf = vec!['f', 'g'];
        assert(kf@ =~= letter('f') + letter('g'));
        let visible = match n.attrs.get(&kv) {
            Some(v) => match crate::numbers::parse_boolean(&chars_of(v.as_str())) {
                Some(b) => b,
                None => true,
            },
            None => true,
        };
        let mut bg: u32 = if is(&n.tag, "choices") {
            0xFF44_0044
        } else {
            0xFF10_1010
        };
        match n.attrs.get(&kb) {
            Some(v) => match parse_uint(&chars_of(v.as_str()), 16, 0xffff_ffff) {
                Some(c) => {
                    bg = c as u32;
                },
                None => {},
            },
            None => {},
        }
        let mut fg: u32 = 0xFF88_0088;
        match n.attrs.get(&kf) {
            Some(v) => match parse_uint(&chars_of(v.as_str()), 16, 0xffff_ffff) {
                Some(c) => {
                    fg = c as u32;
                },
                None => {},
            },
            None => {},
        }
        let ghost p0 = ctx.pending@;
        let window = if is(&n.tag, "root") {
            assert(ctx.pending@ =~= p0 + Seq::<XRequest>::empty());
            pwin
        } else if is(&n.tag, "media") {
            ctx.new_basic_window(pwin, bg)
        } else {
            ctx.new_sub_window(pwin, bg)
        };
        let v = Visual {
            x: 0,
            y: 0,
            iax: 0,
            iay: 0,
            ax: 0,
            ay: 0,
            width: 64,
            height: 64,
            lx: 0,
            ly: 0,
            lwidth: 64,
            lheight: 64,
            pwidth: 64,
            pheight: 64,
            inv_mask: NONE,
            mask: NONE,
            buf: NONE,
            window,
            bg,
            fg,
            children: Vec::new(),
            attrs: n.attrs.copy(),
            tag: crate::text::string_of(&chars_of(n.tag.as_str())),
            content: crate::text::string_of(&chars_of(n.content.as_str())),
            visible,
            checked: false,
        };
        proof {
            lemma_models(v.children@);
        }
        assert(v.model().children =~= Seq::<VisualView>::empty());
        v
    }
}

/// Replacing a visual twice at the same path keeps only the second, and the
/// path still leads to the first replacement in between.
pub proof fn lemma_replace_twice(t: VisualView, p: Seq<usize>, a: VisualView, b: VisualView)
    requires
        valid_path(t, p),
    ensures
        valid_path(replace_at(t, p, a), p),
        node_at(replace_at(t, p, a), p) == a,
        replace_at(replace_at(t, p, a), p, b) == replace_at(t, p, b),
    decreases p.len(),
{
    if p.len() > 0 {
        let k = p[0] as int;
        lemma_replace_twice(t.children[k], p.skip(1), a, b);
        let r = replace_at(t, p, a);
        assert(r.children[k] == replace_at(t.children[k], p.skip(1), a));
        assert(r.children.update(k, replace_at(r.children[k], p.skip(1), b)) =~= t.children.update(
            k,
            replace_at(t.children[k], p.skip(1), b),
        ));
    }
}

/// Well-formed trees have well-formed parts, and replacing a part by a
/// well-formed tree keeps the whole well formed.
pub proof fn lemma_replace_wf(t: VisualView, p: Seq<usize>, n: VisualView)
    requires
        valid_path(t, p),
        view_wf(t),
    ensures
        view_wf(node_at(t, p)),
        view_wf(n) ==> view_wf(replace_at(t, p, n)),
    decreases p.len(),
{
    if p.len() > 0 {
        let k = p[0] as int;
        lemma_all_wf(t.children);
        lemma_replace_wf(t.children[k], p.skip(1), n);
        let cs = t.children.update(k, replace_at(t.children[k], p.skip(1), n));
        lemma_all_wf(cs);
        if view_wf(n) {
            assert forall|i: int| 0 <= i < cs.len() implies #[trigger] view_wf(cs[i]) by {
                if i != k {
                    assert(cs[i] == t.children[i]);
                }
            }
        }
    }
}

impl Visual {
    /// An empty visual with no window, used to hold a place in a tree.
    pub fn blank() -> (v: Visual)
        ensures
            view_wf(v.model()),
            v.children@.len() == 0,
    {
        let v = Visual {
            x: 0,
            y: 0,
            iax: 0,
            iay: 0,
            ax: 0,
            ay: 0,
            width: 0,
            height: 0,
            lx: 0,
            ly: 0,
            lwidth: 0,
            lheight: 0,
            pwidth: 0,
            pheight: 0,
            inv_mask: NONE,
            mask: NONE,
            buf: NONE,
            window: NONE,
            bg: 0,
            fg: 0,
            children: Vec::new(),
            attrs: StrMap::new(),
            tag: String::new(),
            content: String::new(),
            visible: false,
            checked: false,
        };
        proof {
            lemma_models(v.children@);
        }
        assert(v.model().children =~= Seq::<VisualView>::empty());
        v
    }
}

impl Visual {
    /// The window of the visual at `path`.
    pub fn window_at(&self, path: &Vec<usize>) -> (w: u32)
        requires
            valid_path(self.model(), path@),
        ensures
            w == node_at(self.model(), path@).window,
    {
        assert(path@.skip(0) =~= path@);
        self.window_from(path, 0)
    }

    fn window_from(&self, path: &Vec<usize>, from: usize) -> (w: u32)
        requires
            from <= path@.len(),
            valid_path(self.model(), path@.skip(from as int)),
        ensures
            w == node_at(self.model(), path@.skip(from as int)).window,
        decreases path@.len() - from,
    {
        if from == path.len() {
            assert(path@.skip(from as int) =~= Seq::<usize>::empty());
            return self.window;
        }
        let k = path[from];
        proof {
            lemma_models(self.children@);
            assert(path@.skip(from as int)[0] == k);
            assert(path@.skip(from as int).skip(1) =~= path@.skip(from + 1));
        }
        self.children[k].window_from(path, from + 1)
    }
}

/// The pieces of an enumeration are all non-empty and different.
pub open spec fn enum_clean(ps: Seq<Seq<char>>) -> bool {
    &&& forall|i: int| 0 <= i < ps.len() ==> (#[trigger] ps[i]).len() > 0
    &&& forall|i: int, j: int| 0 <= i < ps.len() && 0 <= j < ps.len() && i != j ==> ps[i] != ps[j]
}

proof fn lemma_enum_walk(ps: Seq<Seq<char>>, i: int, m: Seq<char>, k: int)
    requires
        enum_clean(ps),
        1 <= i <= ps.len(),
        0 <= k < ps.len(),
        ps[k] == m,
        k >= i - 1,
    ensures
        enum_from(ps, i, ps[i - 1], ps[0], m) == if k + 1 < ps.len() {
            ps[k + 1]
        } else {
            ps[0]
        },
    decreases ps.len() - i,
{
    if i < ps.len() {
        if ps[i - 1] == m {
            assert(k == i - 1);
        } else {
            lemma_enum_walk(ps, i + 1, m, k);
        }
    } else {
        assert(k == ps.len() - 1);
    }
}

/// Stepping a visual's content with `>>` through a `|`-separated
/// enumeration of different, non-empty values moves from each value to the
/// next, and from the last back to the first.
pub proof fn law_enum_cycles(e: Seq<char>, k: int)
    requires
        enum_clean(split(e, '|')),
        0 <= k < split(e, '|').len(),
    ensures
        next_in_enum(e, split(e, '|')[k]) == if k + 1 < split(e, '|').len() {
            split(e, '|')[k + 1]
        } else {
            split(e, '|')[0]
        },
{
    let ps = split(e, '|');
    let m = ps[k];
    assert(ps[0].len() > 0);
    lemma_enum_walk(ps, 1, m, k);
}

/// A label laid out by `set_content` keeps at most 50 bytes of content.
pub proof fn law_label_short(v: VisualView, value: Seq<char>, g: Seq<(char, u16, u16)>, nid: u32)
    requires
        v.tag == tag_lbl(),
        content_fit(v, v.children, value, g, nid) is Some,
    ensures
        content_fit(v, v.children, value, g, nid) matches Some(r) && utf8_len(r.0.content) <= 50,
{
    let v1 = after_value(v, value)->0;
    let v2 = label_cut(v1)->0;
    if utf8_len(v1.content) > 50 {
        let k = choose|k: int| 0 <= k <= v1.content.len() && utf8_len(v1.content.take(k)) == 50;
        assert(v2.content == v1.content.take(k));
    }
    let a = asset(v2, g, nid);
    lemma_attrs_fold_keeps(a.0, a.0.attrs);
}

} // verus!
