//! Layers: a view read into a scene tree and built into visuals under the
//! master window.
use vstd::prelude::*;
use crate::display::Xcb;
use crate::xproto::{Drawable, XRequest};
use crate::json::{JsonNode, json_parse};
use crate::scene::buildable;
use crate::visual::{
    Visual, VisualView, SceneNode, Glyphs, inner_key, tree_ok, build_view, build_all, fit_children,
    frame, with_children, view_wf, search, by_selector, by_window, selected, show_requests,
    hide_requests, show_all, hide_all, models, lemma_models, lemma_prefix_trans, fit_requests,
    fresh_requests, build_all_requests,
};

verus! {

/// The document a layer's view text `raw` is read into.
pub open spec fn layer_document(raw: Seq<char>) -> Option<JsonNode> {
    json_parse(crate::markup::view_document(crate::markup::layer_json(raw)))
}

/// The view text can be built into a layer: it reads as a document whose
/// heads are well formed and have attributes a visual can be made from.
pub open spec fn view_ok(raw: Seq<char>) -> bool {
    layer_document(raw) matches Some(d) && buildable(d, inner_key()) && crate::visual::doc_ok(
        d,
        inner_key(),
    )
}

/// The visuals of a layer whose scene root is `root`: the root's visual
/// under `win`, and each child's tree built under `win` too, in order.
pub open spec fn layer_view(root: SceneNode, win: u32, nid: u32) -> (VisualView, u32) {
    let f = crate::visual::fresh(root.tag@, root.content@, root.attrs.pairs(), win, nid);
    let kids = build_all(root.children@, win, f.1);
    (with_children(f.0, kids.0), kids.1)
}

/// The requests that build a layer's visuals (see `layer_view`): the root's
/// window request, then each child tree under `win`, in order.
pub open spec fn layer_requests(root: SceneNode, win: u32, nid: u32, depth: u8, visual: u32) -> Seq<XRequest> {
    let f = crate::visual::fresh(root.tag@, root.content@, root.attrs.pairs(), win, nid);
    fresh_requests(root.tag@, root.content@, root.attrs.pairs(), win, nid, depth, visual) + build_all_requests(
        root.children@,
        win,
        f.1,
        depth,
        visual,
    )
}

/// A layer: its scene tree, the visuals built from it, and the view file it
/// came from.
pub struct Layer {
    pub root: SceneNode,
    pub root_visual: Visual,
    pub file: String,
}

/// The visuals of a layer's tree `m` that are painted as icons: its media
/// visuals, then its icons, then its labels, each in document order.
pub open spec fn icon_views(m: VisualView) -> Seq<VisualView> {
    selected(m, "media"@) + selected(m, "i"@) + selected(m, "lbl"@)
}

/// How an icon is painted: not at all (hidden, or without both masks); over
/// a fill of its background colour; or over what lies behind it.
pub enum IconPaint {
    Skip,
    Fill,
    Through,
}

/// How visual `v` is painted as an icon (see `IconPaint`).
pub open spec fn icon_paint_of(v: VisualView) -> IconPaint {
    if !v.visible || v.mask == 0 || v.inv_mask == 0 {
        IconPaint::Skip
    } else if v.bg != 0 {
        IconPaint::Fill
    } else {
        IconPaint::Through
    }
}

impl Visual {
    /// How this visual is painted as an icon (see `icon_paint_of`).
    pub fn icon_paint(&self) -> (p: IconPaint)
        ensures
            p == icon_paint_of(self.model()),
    {
        if !self.visible || self.mask == 0 || self.inv_mask == 0 {
            IconPaint::Skip
        } else if self.bg != 0 {
            IconPaint::Fill
        } else {
            IconPaint::Through
        }
    }
}

impl Layer {
    /// The visuals of the layer whose tag is `sel`, in document order.
    pub fn select(&self, sel: &str) -> (r: Vec<&Visual>)
        ensures
            r@.len() == selected(self.root_visual.model(), sel@).len(),
            forall|i: int|
                0 <= i < r@.len() ==> #[trigger] r@[i].model() == selected(
                    self.root_visual.model(),
                    sel@,
                )[i],
    {
        self.root_visual.select(sel)
    }

    /// The visuals of the layer painted as icons (see `icon_views`).
    pub fn icons(&self) -> (r: Vec<&Visual>)
        ensures
            r@.len() == icon_views(self.root_visual.model()).len(),
            forall|i: int|
                0 <= i < r@.len() ==> #[trigger] r@[i].model() == icon_views(self.root_visual.model())[i],
    {
        let ghost m = self.root_visual.model();
        let mut r = self.select("media");
        let a = self.select("i");
        let b = self.select("lbl");
        let ghost sm = selected(m, "media"@);
        let ghost sa = selected(m, "i"@);
        let ghost sb = selected(m, "lbl"@);
        let mut i: usize = 0;
        while i < a.len()
            invariant
                i <= a@.len() == sa.len(),
                forall|j: int| 0 <= j < a@.len() ==> #[trigger] a@[j].model() == sa[j],
                r@.len() == sm.len() + i,
                forall|j: int| 0 <= j < r@.len() ==> #[trigger] r@[j].model() == (sm + sa)[j],
            decreases a@.len() - i,
        {
            r.push(a[i]);
            i += 1;
        }
        let mut k: usize = 0;
        while k < b.len()
            invariant
                k <= b@.len() == sb.len(),
                forall|j: int| 0 <= j < b@.len() ==> #[trigger] b@[j].model() == sb[j],
                r@.len() == sm.len() + sa.len() + k,
                forall|j: int| 0 <= j < r@.len() ==> #[trigger] r@[j].model() == (sm + sa + sb)[j],
            decreases b@.len() - k,
        {
            r.push(b[k]);
            k += 1;
        }
        r
    }

    /// The path to the first visual of the layer whose window is `res`.
    pub fn visual_by_res(&self, res: u32) -> (r: Option<Vec<usize>>)
        ensures
            match r {
                Some(p) => search(self.root_visual.model(), by_window(res)) == Some(p@),
                None => search(self.root_visual.model(), by_window(res)) is None,
            },
    {
        self.root_visual.locate_window(res)
    }

    /// The path to the first visual of the layer that answers to `sel`.
    pub fn select_visual(&self, sel: &Vec<char>) -> (r: Option<Vec<usize>>)
        requires
            view_wf(self.root_visual.model()),
        ensures
            match r {
                Some(p) => search(self.root_visual.model(), by_selector(sel@)) == Some(p@),
                None => search(self.root_visual.model(), by_selector(sel@)) is None,
            },
    {
        self.root_visual.locate(sel)
    }

    /// Gives the root the size `w` x `h` and lays its children out one
    /// after the other inside it, the first after the root itself, at the
    /// origin. Fails where a value cannot be read.
    pub fn fit_all(&mut self, ctx: &mut Xcb, glyphs: &Glyphs, drw: Drawable, w: u16, h: u16) -> (ok: bool)
        requires
            view_wf(old(self).root_visual.model()),
            glyphs.wf(),
        ensures
            ok == fit_children(
                old(self).root_visual.model().children,
                (old(self).root_visual.x, old(self).root_visual.y, w, h),
                w,
                h,
                0,
                0,
                glyphs.metrics@,
                old(ctx).next_id,
            ) is Some,
            ok ==> (final(self).root_visual.model().children, final(ctx).next_id) == fit_children(
                old(self).root_visual.model().children,
                (old(self).root_visual.x, old(self).root_visual.y, w, h),
                w,
                h,
                0,
                0,
                glyphs.metrics@,
                old(ctx).next_id,
            )->0,
            ok ==> final(self).root_visual.width == w && final(self).root_visual.height == h,
            ok ==> final(ctx).pending@ == old(ctx).pending@ + fit_requests(
                old(self).root_visual.model().children,
                (old(self).root_visual.x, old(self).root_visual.y, w, h),
                w,
                h,
                0,
                0,
                glyphs.metrics@,
                old(ctx).next_id,
                drw,
                old(ctx).depth,
            ),
            ok ==> view_wf(final(self).root_visual.model()),
            final(ctx).same_setup(old(ctx)),
            old(ctx).pending@.is_prefix_of(final(ctx).pending@),
    {
        self.root_visual.width = w;
        self.root_visual.height = h;
        let ghost m0 = self.root_visual.model();
        let ghost c0 = *ctx;
        let mut kids: Vec<Visual> = Vec::new();
        std::mem::swap(&mut kids, &mut self.root_visual.children);
        let ghost orig = kids@;
        let ghost om = models(orig);
        proof {
            lemma_models(orig);
            crate::visual::lemma_all_wf(om);
            assert(models(Seq::<Visual>::empty()) =~= Seq::<VisualView>::empty());
        }
        let n = kids.len();
        let mut done: Vec<Visual> = Vec::new();
        let mut i: usize = 0;
        assert(om.take(0) =~= Seq::<VisualView>::empty());
        assert(kids@ =~= orig.skip(0));
        while i < n
            invariant
                i <= n == orig.len() == om.len(),
                m0.width == w && m0.height == h,
                m0.children == om,
                m0.x == old(self).root_visual.x && m0.y == old(self).root_visual.y,
                om == old(self).root_visual.model().children,
                c0 == *old(ctx),
                om == models(orig),
                forall|j: int| 0 <= j < orig.len() ==> #[trigger] orig[j].model() == om[j],
                forall|j: int| 0 <= j < om.len() ==> #[trigger] view_wf(om[j]),
                kids@ == orig.skip(i as int),
                done@.len() == i,
                self.root_visual.model() == with_children(m0, Seq::<VisualView>::empty()),
                glyphs.wf(),
                fit_children(
                    om.take(i as int),
                    (m0.x, m0.y, w, h),
                    w,
                    h,
                    0,
                    0,
                    glyphs.metrics@,
                    c0.next_id,
                ) == Some((models(done@), ctx.next_id)),
                forall|j: int| 0 <= j < done@.len() ==> #[trigger] view_wf(done@[j].model()),
                ctx.same_setup(&c0),
                c0.pending@.is_prefix_of(ctx.pending@),
                ctx.pending@ == c0.pending@ + fit_requests(om.take(i as int), (m0.x, m0.y, w, h), w, h, 0, 0, glyphs.metrics@, c0.next_id, drw, c0.depth),
            decreases n - i,
        {
            let mut c = kids.remove(0);
            assert(c == orig[i as int]);
            assert(kids@ =~= orig.skip(i + 1));
            proof {
                assert(om.take(i + 1).drop_last() =~= om.take(i as int));
                assert(om.take(i + 1).last() == om[i as int]);
                lemma_models(done@);
            }
            let ghost pb = ctx.pending@;
            let ghost nb = ctx.next_id;
            let ghost lf = if i == 0 {
                (m0.x, m0.y, w, h)
            } else {
                frame(models(done@).last())
            };
            let ok = if i == 0 {
                c.anchor_fit_to(ctx, glyphs, drw, &self.root_visual, &self.root_visual, 0, 0)
            } else {
                c.anchor_fit_to(ctx, glyphs, drw, &done[i - 1], &self.root_visual, 0, 0)
            };
            if !ok {
                proof {
                    crate::visual::lemma_fit_children_prefix(
                        om,
                        (m0.x, m0.y, w, h),
                        w,
                        h,
                        0,
                        0,
                        glyphs.metrics@,
                        c0.next_id,
                        i + 1,
                    );
                }
                return false;
            }
            proof {
                let cs = om.take(i + 1);
                assert(cs.drop_last() =~= om.take(i as int));
                assert(cs.last() == om[i as int]);
                assert(models(done@).len() == i);
                crate::visual::lemma_fit_requests_step(cs, (m0.x, m0.y, w, h), w, h, 0, 0, glyphs.metrics@, c0.next_id, drw, c0.depth, (models(done@), nb));
                assert(ctx.pending@ =~= c0.pending@ + fit_requests(cs, (m0.x, m0.y, w, h), w, h, 0, 0, glyphs.metrics@, c0.next_id, drw, c0.depth));
            }
            let ghost before = done@;
            done.push(c);
            proof {
                assert(done@.drop_last() =~= before);
                lemma_models(done@);
            }
            i += 1;
        }
        assert(om.take(n as int) =~= om);
        let ghost fin = done@;
        self.root_visual.children = done;
        proof {
            lemma_models(fin);
            crate::visual::lemma_all_wf(models(fin));
        }
        true
    }

    /// Shows (`is_visible`) or hides every visual below the root.
    pub fn visibility(&self, is_visible: bool, ctx: &mut Xcb)
        ensures
            final(ctx).pending@ == old(ctx).pending@ + if is_visible {
                show_all(self.root_visual.model().children)
            } else {
                hide_all(self.root_visual.model().children)
            },
            final(ctx).next_id == old(ctx).next_id,
            final(ctx).same_setup(old(ctx)),
    {
        let ghost m = self.root_visual.model();
        let ghost start = ctx.pending@;
        let cs = &self.root_visual.children;
        proof {
            lemma_models(cs@);
        }
        let mut j: usize = 0;
        assert(m.children.take(0) =~= Seq::<VisualView>::empty());
        while j < cs.len()
            invariant
                j <= cs.len(),
                m.children == models(cs@),
                forall|k: int| 0 <= k < cs@.len() ==> #[trigger] cs@[k].model() == m.children[k],
                m.children.len() == cs@.len(),
                ctx.pending@ == start + if is_visible {
                    show_all(m.children.take(j as int))
                } else {
                    hide_all(m.children.take(j as int))
                },
                ctx.next_id == old(ctx).next_id,
                ctx.same_setup(old(ctx)),
            decreases cs.len() - j,
        {
            if is_visible {
                cs[j].show(ctx);
            } else {
                cs[j].hide_tree(ctx);
            }
            assert(m.children.take(j + 1).drop_last() =~= m.children.take(j as int));
            assert(m.children.take(j + 1).last() == m.children[j as int]);
            j += 1;
            assert(ctx.pending@ =~= start + if is_visible {
                show_all(m.children.take(j as int))
            } else {
                hide_all(m.children.take(j as int))
            });
        }
        assert(m.children.take(j as int) =~= m.children);
    }

    /// The JSON text of a layer's view.
    pub fn process(raw: &str) -> (r: String)
        ensures
            r@ == crate::markup::layer_json(raw@),
    {
        crate::markup::layer_process(raw)
    }

    /// Reads the view text `raw` into a scene tree; nothing where the view
    /// does not read as a document, a head has an attribute without `=`, or
    /// an attribute a visual is made from cannot be read.
    pub fn read_view(raw: &str) -> (r: Option<SceneNode>)
        ensures
            r is Some <==> view_ok(raw@),
            r matches Some(n) ==> crate::visual::scene_built_from(
                n,
                layer_document(raw@)->0,
                inner_key(),
            ) && tree_ok(n),
    {
        let processed = Self::process(raw);
        let jdoc = crate::markup::document(processed.as_str());
        match crate::json::parse_json(jdoc.as_str()) {
            Some(dom) => match SceneNode::new(&dom) {
                Some(root) => {
                    proof {
                        crate::visual::lemma_tree_ok_doc(root, dom, inner_key());
                    }
                    if root.check() {
                        Some(root)
                    } else {
                        None
                    }
                },
                None => None,
            },
            None => None,
        }
    }

    /// Rebuilds the visuals below the root from the view text `raw` (the
    /// scene root and file name stay); nothing changes where the view cannot
    /// be built (see `read_view`).
    pub fn replace(&mut self, file: &str, raw: &str, ctx: &mut Xcb, win: u32) -> (ok: bool)
        ensures
            ok == view_ok(raw@),
            !ok ==> *final(self) == *old(self) && *final(ctx) == *old(ctx),
            ok ==> exists|root: SceneNode|
                crate::visual::scene_built_from(root, layer_document(raw@)->0, inner_key())
                && (final(self).root_visual.model().children, final(ctx).next_id) == build_all(
                    root.children@,
                    win,
                    old(ctx).next_id,
                ) && final(ctx).pending@ == old(ctx).pending@ + build_all_requests(
                    root.children@,
                    win,
                    old(ctx).next_id,
                    old(ctx).depth,
                    old(ctx).visual_id,
                ),
            ok ==> final(self).root_visual.model() == with_children(
                old(self).root_visual.model(),
                final(self).root_visual.model().children,
            ),
            final(self).root == old(self).root,
            final(self).file == old(self).file,
            final(ctx).same_setup(old(ctx)),
            old(ctx).pending@.is_prefix_of(final(ctx).pending@),
    {
        let root = match Self::read_view(raw) {
            Some(r) => r,
            None => {
                return false;
            },
        };
        let ghost c0 = *ctx;
        let ghost m0 = self.root_visual.model();
        self.root_visual.children = Vec::new();
        proof {
            lemma_models(self.root_visual.children@);
            assert(self.root_visual.model() =~~= with_children(m0, Seq::<VisualView>::empty()));
        }
        let mut j: usize = 0;
        assert(root.children@.take(0) =~= Seq::<SceneNode>::empty());
        while j < root.children.len()
            invariant
                j <= root.children.len(),
                tree_ok(root),
                self.root_visual.model() == with_children(
                    m0,
                    build_all(root.children@.take(j as int), win, c0.next_id).0,
                ),
                ctx.next_id == build_all(root.children@.take(j as int), win, c0.next_id).1,
                ctx.pending@ == c0.pending@ + build_all_requests(root.children@.take(j as int), win, c0.next_id, c0.depth, c0.visual_id),
                ctx.same_setup(&c0),
                c0.pending@.is_prefix_of(ctx.pending@),
                self.root == old(self).root,
                self.file == old(self).file,
                c0 == *old(ctx),
                m0 == old(self).root_visual.model(),
            decreases root.children.len() - j,
        {
            assert(root.children@.take(j + 1).drop_last() =~= root.children@.take(j as int));
            assert(root.children@.take(j + 1).last() == root.children@[j as int]);
            proof {
                crate::visual::lemma_trees_ok_at(root.children@, j as int);
            }
            let ghost p0 = ctx.pending@;
            let ghost n0 = ctx.next_id;
            root.children[j].build_in(ctx, win, &mut self.root_visual);
            proof {
                lemma_prefix_trans(c0.pending@, p0, ctx.pending@);
                assert(build_all_requests(root.children@.take(j + 1), win, c0.next_id, c0.depth, c0.visual_id)
                    == build_all_requests(root.children@.take(j as int), win, c0.next_id, c0.depth, c0.visual_id)
                    + crate::visual::build_requests(root.children@[j as int], win, n0, c0.depth, c0.visual_id));
                assert(ctx.pending@ =~= c0.pending@ + build_all_requests(root.children@.take(j + 1), win, c0.next_id, c0.depth, c0.visual_id));
            }
            j += 1;
        }
        assert(root.children@.take(j as int) =~= root.children@);
        true
    }

    /// The layer of the view file `file` whose text is `raw`, built under
    /// the window `win` (see `read_view`); the colours are not used.
    pub fn new(file: &str, raw: &str, ctx: &mut Xcb, win: u32, bg: u32, fg: u32) -> (r: Option<Layer>)
        ensures
            r is Some <==> view_ok(raw@),
            r matches Some(l) ==> l.file@ == file@ && tree_ok(l.root) && crate::visual::scene_built_from(
                l.root,
                layer_document(raw@)->0,
                inner_key(),
            ) && (l.root_visual.model(), final(ctx).next_id) == layer_view(
                l.root,
                win,
                old(ctx).next_id,
            ) && final(ctx).pending@ == old(ctx).pending@ + layer_requests(
                l.root,
                win,
                old(ctx).next_id,
                old(ctx).depth,
                old(ctx).visual_id,
            ),
            r is None ==> *final(ctx) == *old(ctx),
            final(ctx).same_setup(old(ctx)),
            old(ctx).pending@.is_prefix_of(final(ctx).pending@),
    {
        let root = match Self::read_view(raw) {
            Some(r) => r,
            None => {
                return None;
            },
        };
        let ghost c0 = *ctx;
        let mut root_visual = Visual::new(ctx, win, &root);
        let ghost f = crate::visual::fresh(root.tag@, root.content@, root.attrs.pairs(), win, c0.next_id);
        let ghost c1 = *ctx;
        let mut j: usize = 0;
        assert(root.children@.take(0) =~= Seq::<SceneNode>::empty());
        proof {
            lemma_models(root_visual.children@);
        }
        while j < root.children.len()
            invariant
                j <= root.children.len(),
                tree_ok(root),
                root_visual.model() == with_children(
                    f.0,
                    build_all(root.children@.take(j as int), win, f.1).0,
                ),
                ctx.next_id == build_all(root.children@.take(j as int), win, f.1).1,
                ctx.pending@ == c1.pending@ + build_all_requests(root.children@.take(j as int), win, f.1, c0.depth, c0.visual_id),
                c1.pending@ == c0.pending@ + fresh_requests(root.tag@, root.content@, root.attrs.pairs(), win, c0.next_id, c0.depth, c0.visual_id),
                ctx.same_setup(&c0),
                c0.pending@.is_prefix_of(ctx.pending@),
            decreases root.children.len() - j,
        {
            assert(root.children@.take(j + 1).drop_last() =~= root.children@.take(j as int));
            assert(root.children@.take(j + 1).last() == root.children@[j as int]);
            proof {
                crate::visual::lemma_trees_ok_at(root.children@, j as int);
            }
            let ghost p0 = ctx.pending@;
            let ghost n0 = ctx.next_id;
            root.children[j].build_in(ctx, win, &mut root_visual);
            proof {
                lemma_prefix_trans(c0.pending@, p0, ctx.pending@);
                assert(build_all_requests(root.children@.take(j + 1), win, f.1, c0.depth, c0.visual_id)
                    == build_all_requests(root.children@.take(j as int), win, f.1, c0.depth, c0.visual_id)
                    + crate::visual::build_requests(root.children@[j as int], win, n0, c0.depth, c0.visual_id));
                assert(ctx.pending@ =~= c1.pending@ + build_all_requests(root.children@.take(j + 1), win, f.1, c0.depth, c0.visual_id));
            }
            j += 1;
        }
        assert(root.children@.take(j as int) =~= root.children@);
        assert(ctx.pending@ =~= c0.pending@ + layer_requests(root, win, c0.next_id, c0.depth, c0.visual_id));
        Some(Layer { root, root_visual, file: crate::text::string_of(&crate::text::chars_of(file)) })
    }
}

} // verus!
