//! Animations between two style states: a start selector applied when the
//! animation begins and an end selector applied when its transition time
//! is over. Times are milliseconds on the application's clock.
use vstd::prelude::*;
use crate::style::{Style, prop_value, sel_apply};
use crate::visual::{
    Visual, VisualView, view_wf, search, by_window, node_at, replace_at, selected, valid_path,
    lemma_search_valid, with_children, show_requests, hide_requests, tag_i, tag_lbl,
};
use crate::layer::Layer;
use crate::display::Xcb;
use crate::xproto::XRequest;
use crate::text::{chars_of, contains, split};
use crate::numbers::parse_unsigned;

verus! {

/// `transition`.
pub open spec fn prop_transition() -> Seq<char> {
    seq!['t', 'r', 'a', 'n', 's', 'i', 't', 'i', 'o', 'n']
}

/// `each`.
pub open spec fn prop_each() -> Seq<char> {
    seq!['e', 'a', 'c', 'h']
}

/// `cursor-visible`.
pub open spec fn prop_cursor() -> Seq<char> {
    seq!['c', 'u', 'r', 's', 'o', 'r', '-', 'v', 'i', 's', 'i', 'b', 'l', 'e']
}

/// `@target`.
pub open spec fn word_target() -> Seq<char> {
    seq!['@', 't', 'a', 'r', 'g', 'e', 't']
}

/// `,*,`: the tag list entry of the visuals an animation can touch.
pub open spec fn star_entry() -> Seq<char> {
    seq![',', '*', ',']
}

/// An animation from `start_sel` to `end_sel` on the visual whose window is
/// `target`, running from `started` for `transition` milliseconds.
pub struct Anim {
    pub begun: bool,
    pub over: bool,
    pub start_sel: String,
    pub end_sel: String,
    pub started: u64,
    pub ends: u64,
    pub target: u32,
    pub transition: u64,
}

/// What a step of an animation did.
#[derive(PartialEq, Eq, Structural)]
pub enum AnimStep {
    /// Nothing: not running.
    Idle,
    /// Running, already begun.
    Running,
    /// The start state was applied.
    Began,
    /// The end state was applied.
    Ended,
}

/// The transition time a style sets for the end selector `end_sel`
/// (1000 ms by default).
pub open spec fn transition_text(rules: Map<Seq<char>, Map<Seq<char>, Seq<char>>>, end_sel: Seq<char>) -> Seq<char> {
    prop_value(rules, end_sel, prop_transition(), seq!['1', '0', '0', '0'])
}

/// The list an `each` value names, without a leading `!`, between commas.
pub open spec fn each_list(each: Seq<char>) -> Seq<char> {
    seq![','] + (if each.len() > 0 && each[0] == '!' {
        each.skip(1)
    } else {
        each
    }) + seq![',']
}

/// Whether an animation state touches the `*` visual whose window is `w`:
/// the `each` list names `*` (or, after `!`, does not), or it names
/// `@target` and `w` is the animation's (non-zero) target.
pub open spec fn touches(each: Seq<char>, w: u32, target: u32) -> bool {
    let nt = each[0] == '!';
    let sp = each_list(each);
    (!nt && contains(sp, star_entry())) || (nt && !contains(sp, star_entry())) || (contains(
        each_list(each),
        word_target(),
    ) && w == target && target != 0)
}

/// The windows of the `*` visuals of a tree that a state touches, in
/// document order.
pub open spec fn touched(vs: Seq<VisualView>, each: Seq<char>, target: u32) -> Seq<u32>
    decreases vs.len(),
{
    if vs.len() == 0 {
        Seq::empty()
    } else {
        touched(vs.drop_last(), each, target) + if touches(each, vs.last().window, target) {
            seq![vs.last().window]
        } else {
            Seq::empty()
        }
    }
}

/// A tree after selector `sel` is applied to its first visual whose window
/// is `w`; nothing where there is none or a value cannot be read.
pub open spec fn step_window(
    rules: Map<Seq<char>, Map<Seq<char>, Seq<char>>>,
    t: VisualView,
    w: u32,
    sel: Seq<char>,
) -> Option<VisualView> {
    match search(t, by_window(w)) {
        None => None,
        Some(p) => {
            let n = node_at(t, p);
            match sel_apply(rules, n, sel, n.pwidth, n.pheight) {
                None => None,
                Some(m) => Some(replace_at(t, p, m)),
            }
        },
    }
}

/// A tree after selector `sel` is applied, in turn, to the first visual of
/// each window in `ws`; nothing where a value cannot be read.
pub open spec fn apply_to_windows(
    rules: Map<Seq<char>, Map<Seq<char>, Seq<char>>>,
    v: VisualView,
    ws: Seq<u32>,
    sel: Seq<char>,
) -> Option<VisualView>
    decreases ws.len(),
{
    if ws.len() == 0 {
        Some(v)
    } else {
        match apply_to_windows(rules, v, ws.drop_last(), sel) {
            None => None,
            Some(t) => step_window(rules, t, ws.last(), sel),
        }
    }
}

/// The requests applying `sel` to the first visual of window `w` in `t`
/// queues: the styled visual's tree shown, or hidden when it is not visible.
pub open spec fn window_requests(
    rules: Map<Seq<char>, Map<Seq<char>, Seq<char>>>,
    t: VisualView,
    w: u32,
    sel: Seq<char>,
) -> Seq<XRequest> {
    match search(t, by_window(w)) {
        None => Seq::empty(),
        Some(p) => {
            let n = node_at(t, p);
            match sel_apply(rules, n, sel, n.pwidth, n.pheight) {
                None => Seq::empty(),
                Some(m) => if m.visible {
                    show_requests(m)
                } else {
                    hide_requests(m)
                },
            }
        },
    }
}

/// The requests applying `sel` to the visuals of the windows `ws` in turn
/// queues (see `apply_to_windows`).
pub open spec fn windows_requests(
    rules: Map<Seq<char>, Map<Seq<char>, Seq<char>>>,
    v: VisualView,
    ws: Seq<u32>,
    sel: Seq<char>,
) -> Seq<XRequest>
    decreases ws.len(),
{
    if ws.len() == 0 {
        Seq::empty()
    } else {
        match apply_to_windows(rules, v, ws.drop_last(), sel) {
            None => Seq::empty(),
            Some(t) => windows_requests(rules, v, ws.drop_last(), sel) + window_requests(rules, t, ws.last(), sel),
        }
    }
}

/// The transition the state `end_sel` sets is a whole number of
/// milliseconds, and the animation started at `now` ends within `u64`.
pub open spec fn transition_fits(rules: Map<Seq<char>, Map<Seq<char>, Seq<char>>>, end_sel: Seq<char>, now: u64) -> bool {
    parse_unsigned(transition_text(rules, end_sel), 10, u64::MAX as nat) matches Some(t) && now + t <= u64::MAX
}

impl Anim {
    /// Whether an animation towards `end_sel` can start at `now` (see
    /// `transition_fits`).
    pub fn transition_ok(style: &Style, end_sel: &str, now: u64) -> (ok: bool)
        requires
            style.wf(),
        ensures
            ok == transition_fits(style.map(), end_sel@, now),
    {
        let key = vec!['t', 'r', 'a', 'n', 's', 'i', 't', 'i', 'o', 'n'];
        assert(key@ =~= prop_transition());
        let def = vec!['1', '0', '0', '0'];
        assert(def@ =~= seq!['1', '0', '0', '0']);
        let t = style.prop_get(&chars_of(end_sel), &key, &def);
        match crate::numbers::parse_uint(&t, 10, u64::MAX) {
            Some(v) => v <= u64::MAX - now,
            None => false,
        }
    }

    /// A selector the animation can name: not empty, starting with a
    /// one-byte character.
    pub open spec fn sel_ok(s: Seq<char>) -> bool {
        s.len() > 0 && (s[0] as u32) < 0x80
    }

    /// An animation from `start_sel` to `end_sel` on `target` that starts at
    /// `now`, lasting as long as the style's `transition` for `end_sel`,
    /// which must read as a number of milliseconds with an end time that
    /// fits (see `transition_fits`, which `transition_ok` tests). Any
    /// selectors are taken; one that cannot name a state makes applying it
    /// fail (see `apply_state`).
    pub fn new(style: &Style, start_sel: &str, end_sel: &str, target: u32, now: u64) -> (r: Option<Anim>)
        requires
            style.wf(),
            transition_fits(style.map(), end_sel@, now),
        ensures
            r is Some,
            r matches Some(a) ==> !a.begun && !a.over && a.start_sel@ == start_sel@
                && a.end_sel@ == end_sel@ && a.target == target && a.started == now && a.transition
                == parse_unsigned(transition_text(style.map(), end_sel@), 10, u64::MAX as nat)->0
                && a.ends == now + a.transition,
    {
        let key = vec!['t', 'r', 'a', 'n', 's', 'i', 't', 'i', 'o', 'n'];
        assert(key@ =~= prop_transition());
        let def = vec!['1', '0', '0', '0'];
        assert(def@ =~= seq!['1', '0', '0', '0']);
        let t = style.prop_get(&chars_of(end_sel), &key, &def);
        let transition = match crate::numbers::parse_uint(&t, 10, u64::MAX) {
            Some(v) => v,
            None => {
                return None;
            },
        };
        if transition > u64::MAX - now {
            return None;
        }
        Some(
            Anim {
                begun: false,
                over: false,
                start_sel: crate::text::string_of(&chars_of(start_sel)),
                end_sel: crate::text::string_of(&chars_of(end_sel)),
                started: now,
                ends: now + transition,
                target,
                transition,
            },
        )
    }

    /// Restarts the animation at `now` on `target`; one that has begun and
    /// is not over keeps its state, any other starts afresh.
    pub fn reset(&mut self, target: u32, now: u64)
        requires
            now + old(self).transition <= u64::MAX,
        ensures
            final(self).target == target,
            final(self).started == now,
            final(self).ends == now + old(self).transition,
            old(self).begun && !old(self).over ==> final(self).begun && !final(self).over,
            !(old(self).begun && !old(self).over) ==> !final(self).begun && !final(self).over,
            final(self).start_sel == old(self).start_sel,
            final(self).end_sel == old(self).end_sel,
            final(self).transition == old(self).transition,
    {
        self.target = target;
        let started = now;
        let ends = now + self.transition;
        if self.begun && !self.over {
            self.started = started;
            self.ends = ends;
        } else {
            self.begun = false;
            self.over = false;
            self.started = started;
            self.ends = ends;
        }
    }

    /// What a step at `now` does: within the running time, begin if not
    /// begun; after it, end if begun and not over.
    pub open spec fn step_kind(&self, now: u64) -> AnimStep {
        if self.started <= now && self.ends > now {
            if !self.begun {
                AnimStep::Began
            } else {
                AnimStep::Running
            }
        } else if self.begun && !self.over {
            AnimStep::Ended
        } else {
            AnimStep::Idle
        }
    }
}

/// The `each` value a state sets (`*` by default).
pub open spec fn each_of(rules: Map<Seq<char>, Map<Seq<char>, Seq<char>>>, sel: Seq<char>) -> Seq<char> {
    prop_value(rules, sel, prop_each(), seq!['*'])
}

/// An `each` value can be read: it starts with a one-byte character.
pub open spec fn each_ok(each: Seq<char>) -> bool {
    each.len() > 0 && (each[0] as u32) < 0x80
}

/// The tree of layer `v` after state `sel` is applied to the `*` visuals it
/// touches (see `touched`, `apply_to_windows`).
pub open spec fn state_layer(
    rules: Map<Seq<char>, Map<Seq<char>, Seq<char>>>,
    v: VisualView,
    sel: Seq<char>,
    target: u32,
) -> Option<VisualView> {
    apply_to_windows(rules, v, touched(selected(v, seq!['*']), each_of(rules, sel), target), sel)
}

/// The requests applying state `sel` to layer tree `v` queues (see
/// `state_layer`).
pub open spec fn layer_state_requests(
    rules: Map<Seq<char>, Map<Seq<char>, Seq<char>>>,
    v: VisualView,
    sel: Seq<char>,
    target: u32,
) -> Seq<XRequest> {
    windows_requests(rules, v, touched(selected(v, seq!['*']), each_of(rules, sel), target), sel)
}

/// The requests applying state `sel` to the layers `ls`, in order.
pub open spec fn layers_state_requests(
    rules: Map<Seq<char>, Map<Seq<char>, Seq<char>>>,
    ls: Seq<Layer>,
    sel: Seq<char>,
    target: u32,
) -> Seq<XRequest>
    decreases ls.len(),
{
    if ls.len() == 0 {
        Seq::empty()
    } else {
        layers_state_requests(rules, ls.drop_last(), sel, target) + layer_state_requests(
            rules,
            ls.last().root_visual.model(),
            sel,
            target,
        )
    }
}

/// The requests applying state `sel` queues where it succeeds: the cursor
/// request, then each layer's; none for a selector that is not a state.
pub open spec fn state_requests(
    rules: Map<Seq<char>, Map<Seq<char>, Seq<char>>>,
    ls: Seq<Layer>,
    sel: Seq<char>,
    target: u32,
    master: u32,
) -> Seq<XRequest> {
    if sel[0] != '@' {
        Seq::empty()
    } else {
        cursor_requests(rules, sel, master) + layers_state_requests(rules, ls, sel, target)
    }
}

/// Every layer takes state `sel`.
pub open spec fn state_ok(
    rules: Map<Seq<char>, Map<Seq<char>, Seq<char>>>,
    ls: Seq<Layer>,
    sel: Seq<char>,
    target: u32,
) -> bool {
    &&& each_ok(each_of(rules, sel))
    &&& forall|k: int| 0 <= k < ls.len() ==> #[trigger] state_layer(rules, ls[k].root_visual.model(), sel, target) is Some
}

/// The cursor request a state asks for: shown for `true`, blanked for
/// `false`, none otherwise.
pub open spec fn cursor_requests(
    rules: Map<Seq<char>, Map<Seq<char>, Seq<char>>>,
    sel: Seq<char>,
    master: u32,
) -> Seq<XRequest> {
    let c = prop_value(rules, sel, prop_cursor(), Seq::empty());
    if c == seq!['t', 'r', 'u', 'e'] {
        seq![XRequest::SetCursor { window: master, blank: false }]
    } else if c == seq!['f', 'a', 'l', 's', 'e'] {
        seq![XRequest::SetCursor { window: master, blank: true }]
    } else {
        Seq::empty()
    }
}

/// The layers `new` are the layers `old` after state `sel` is applied to
/// them (see `apply_state`).
pub open spec fn state_applied(
    rules: Map<Seq<char>, Map<Seq<char>, Seq<char>>>,
    old: Seq<Layer>,
    new: Seq<Layer>,
    sel: Seq<char>,
    target: u32,
) -> bool {
    &&& new.len() == old.len()
    &&& forall|k: int|
        0 <= k < old.len() ==> (#[trigger] new[k]).root == old[k].root && new[k].file == old[k].file
            && new[k].root_visual.model() == if sel[0] == '@' {
            state_layer(rules, old[k].root_visual.model(), sel, target)->0
        } else {
            old[k].root_visual.model()
        }
    &&& forall|k: int| 0 <= k < new.len() ==> #[trigger] view_wf(new[k].root_visual.model())
}

impl Anim {
    /// Applies state `sel` to one layer's touched `*` visuals, showing or
    /// hiding each afterwards.
    fn apply_layer(&self, sel: &Vec<char>, each: &Vec<char>, layer: &mut Layer, style: &Style, ctx: &mut Xcb) -> (ok: bool)
        requires
            style.wf(),
            view_wf(old(layer).root_visual.model()),
            each@ == each_of(style.map(), sel@),
            each_ok(each@),
        ensures
            ok == state_layer(style.map(), old(layer).root_visual.model(), sel@, self.target) is Some,
            ok ==> final(layer).root_visual.model() == state_layer(
                style.map(),
                old(layer).root_visual.model(),
                sel@,
                self.target,
            )->0,
            ok ==> final(ctx).pending@ == old(ctx).pending@ + layer_state_requests(
                style.map(),
                old(layer).root_visual.model(),
                sel@,
                self.target,
            ),
            ok ==> view_wf(final(layer).root_visual.model()),
            final(layer).root == old(layer).root,
            final(layer).file == old(layer).file,
            final(ctx).next_id == old(ctx).next_id,
            final(ctx).same_setup(old(ctx)),
            old(ctx).pending@.is_prefix_of(final(ctx).pending@),
    {
        let ghost rules = style.map();
        let ghost m0 = layer.root_visual.model();
        let ghost c0 = *ctx;
        let mut ws: Vec<u32> = Vec::new();
        {
            let stars = layer.select("*");
            proof {
                reveal_strlit("*");
            }
            assert("*"@ =~= seq!['*']);
            let ghost sv = selected(m0, seq!['*']);
            let mut i: usize = 0;
            assert(sv.take(0) =~= Seq::<VisualView>::empty());
            while i < stars.len()
                invariant
                    i <= stars.len() == sv.len(),
                    sv == selected(m0, seq!['*']),
                    forall|j: int| 0 <= j < stars@.len() ==> #[trigger] stars@[j].model() == sv[j],
                    ws@ == touched(sv.take(i as int), each@, self.target),
                    each_ok(each@),
                decreases stars.len() - i,
            {
                assert(sv.take(i + 1).drop_last() =~= sv.take(i as int));
                assert(sv.take(i + 1).last() == sv[i as int]);
                let w = stars[i].window;
                assert(stars@[i as int].model().window == stars@[i as int].window);
                assert(w == sv[i as int].window);
                if self.touches_window(each, w) {
                    ws.push(w);
                }
                i += 1;
            }
            assert(sv.take(i as int) =~= sv);
        }
        let ghost wsv = ws@;
        let mut i: usize = 0;
        assert(wsv.take(0) =~= Seq::<u32>::empty());
        while i < ws.len()
            invariant
                i <= ws.len(),
                ws@ == wsv,
                wsv == touched(selected(m0, seq!['*']), each@, self.target),
                each@ == each_of(rules, sel@),
                style.wf(),
                rules == style.map(),
                apply_to_windows(rules, m0, wsv.take(i as int), sel@) == Some(layer.root_visual.model()),
                view_wf(layer.root_visual.model()),
                layer.root == old(layer).root,
                layer.file == old(layer).file,
                m0 == old(layer).root_visual.model(),
                c0 == *old(ctx),
                ctx.next_id == c0.next_id,
                ctx.same_setup(&c0),
                c0.pending@.is_prefix_of(ctx.pending@),
                ctx.pending@ == c0.pending@ + windows_requests(rules, m0, wsv.take(i as int), sel@),
            decreases ws.len() - i,
        {
            assert(wsv.take(i + 1).drop_last() =~= wsv.take(i as int));
            assert(wsv.take(i + 1).last() == wsv[i as int]);
            let ghost p0 = ctx.pending@;
            if !self.apply_window(sel, ws[i], layer, style, ctx) {
                proof {
                    lemma_apply_prefix(rules, m0, wsv, i + 1, sel@);
                }
                return false;
            }
            proof {
                crate::visual::lemma_prefix_trans(c0.pending@, p0, ctx.pending@);
                assert(ctx.pending@ =~= c0.pending@ + windows_requests(rules, m0, wsv.take(i + 1), sel@));
            }
            i += 1;
        }
        assert(wsv.take(i as int) =~= wsv);
        true
    }

    /// Applies state `sel` to the first visual of the layer whose window is
    /// `w`, then shows or hides it.
    fn apply_window(&self, sel: &Vec<char>, w: u32, layer: &mut Layer, style: &Style, ctx: &mut Xcb) -> (ok: bool)
        requires
            style.wf(),
            view_wf(old(layer).root_visual.model()),
        ensures
            ok == step_window(style.map(), old(layer).root_visual.model(), w, sel@) is Some,
            ok ==> final(layer).root_visual.model() == step_window(
                style.map(),
                old(layer).root_visual.model(),
                w,
                sel@,
            )->0,
            ok ==> final(ctx).pending@ == old(ctx).pending@ + window_requests(
                style.map(),
                old(layer).root_visual.model(),
                w,
                sel@,
            ),
            ok ==> view_wf(final(layer).root_visual.model()),
            final(layer).root == old(layer).root,
            final(layer).file == old(layer).file,
            final(ctx).next_id == old(ctx).next_id,
            final(ctx).same_setup(old(ctx)),
            old(ctx).pending@.is_prefix_of(final(ctx).pending@),
    {
        let ghost t = layer.root_visual.model();
        let path = match layer.visual_by_res(w) {
            Some(p) => p,
            None => {
                return false;
            },
        };
        proof {
            lemma_search_valid(t, by_window(w));
            assert(path@.skip(0) =~= path@);
            crate::visual::lemma_replace_wf(t, path@, node_at(t, path@));
        }
        let mut tmp = Visual::blank();
        let ghost bm = tmp.model();
        layer.root_visual.swap_at(&path, 0, &mut tmp);
        let pw = tmp.pwidth;
        let ph = tmp.pheight;
        let ghost n = tmp.model();
        let s = crate::text::string_of(sel);
        if !style.apply_sel(s.as_str(), &mut tmp, pw, ph) {
            return false;
        }
        let ghost nm = tmp.model();
        assert(nm.attrs == n.attrs && nm.children == n.children);
        let ghost p0 = ctx.pending@;
        assert(p0 == old(ctx).pending@);
        if tmp.visible {
            tmp.show(ctx);
        } else {
            tmp.hide_tree(ctx);
        }
        assert(ctx.pending@ == old(ctx).pending@ + window_requests(style.map(), t, w, sel@));
        proof {
            crate::visual::lemma_replace_twice(t, path@, bm, nm);
            crate::visual::lemma_replace_wf(t, path@, nm);
        }
        layer.root_visual.swap_at(&path, 0, &mut tmp);
        true
    }

    /// Whether the state whose `each` value is `each` touches the `*`
    /// visual with window `w`.
    fn touches_window(&self, each: &Vec<char>, w: u32) -> (r: bool)
        requires
            each_ok(each@),
        ensures
            r == touches(each@, w, self.target),
    {
        let nt = each[0] == '!';
        let mut sp = vec![','];
        if nt {
            let rest = crate::text::slice_of(each, 1, each.len());
            assert(rest@ =~= each@.skip(1));
            crate::text::push_all(&mut sp, &rest);
        } else {
            crate::text::push_all(&mut sp, each);
        }
        sp.push(',');
        assert(sp@ =~= each_list(each@));
        let star = vec![',', '*', ','];
        assert(star@ =~= star_entry());
        let tw = vec!['@', 't', 'a', 'r', 'g', 'e', 't'];
        assert(tw@ =~= word_target());
        let has_star = crate::text::find(&sp, &star);
        let dt = crate::text::find(&sp, &tw);
        (!nt && has_star) || (nt && !has_star) || (dt && w == self.target && self.target != 0)
    }

    /// Applies state `sel` when it names a style state (starts with `@`):
    /// sets the cursor as the state asks, then applies it to the `*`
    /// visuals it touches in every layer, in order. Fails, changing nothing,
    /// where `sel` is empty or starts with a character of more than one byte;
    /// fails where the state's `each` or a value cannot be read.
    #[verifier::rlimit(40)]
    pub fn apply_state(&self, sel: &Vec<char>, layers: &mut Vec<Layer>, style: &Style, ctx: &mut Xcb) -> (ok: bool)
        requires
            style.wf(),
            forall|k: int| 0 <= k < old(layers)@.len() ==> #[trigger] view_wf(old(layers)@[k].root_visual.model()),
        ensures
            !Self::sel_ok(sel@) ==> !ok && final(layers)@ == old(layers)@ && *final(ctx) == *old(ctx),
            Self::sel_ok(sel@) && sel@[0] != '@' ==> ok && final(layers)@ == old(layers)@ && final(ctx).pending@
                == old(ctx).pending@,
            Self::sel_ok(sel@) && sel@[0] == '@' ==> ok == state_ok(style.map(), old(layers)@, sel@, self.target),
            final(layers)@.len() == old(layers)@.len(),
            ok ==> forall|k: int| 0 <= k < old(layers)@.len() ==> (#[trigger] final(layers)@[k]).root_visual.model()
                == if sel@[0] == '@' {
                    state_layer(style.map(), old(layers)@[k].root_visual.model(), sel@, self.target)->0
                } else {
                    old(layers)@[k].root_visual.model()
                },
            forall|k: int| 0 <= k < old(layers)@.len() ==> (#[trigger] final(layers)@[k]).root == old(layers)@[k].root
                && final(layers)@[k].file == old(layers)@[k].file,
            ok ==> forall|k: int| 0 <= k < final(layers)@.len() ==> #[trigger] view_wf(final(layers)@[k].root_visual.model()),
            Self::sel_ok(sel@) && sel@[0] == '@' && each_ok(each_of(style.map(), sel@)) ==> (old(ctx).pending@ + cursor_requests(
                style.map(),
                sel@,
                old(ctx).master_window,
            )).is_prefix_of(final(ctx).pending@),
            ok ==> state_applied(style.map(), old(layers)@, final(layers)@, sel@, self.target),
            ok ==> final(ctx).pending@ == old(ctx).pending@ + state_requests(
                style.map(),
                old(layers)@,
                sel@,
                self.target,
                old(ctx).master_window,
            ),
            final(ctx).same_setup(old(ctx)),
            old(ctx).pending@.is_prefix_of(final(ctx).pending@),
    {
        if sel.len() == 0 || (sel[0] as u32) >= 0x80 {
            return false;
        }
        if sel[0] != '@' {
            return true;
        }
        let key = vec!['e', 'a', 'c', 'h'];
        assert(key@ =~= prop_each());
        let star = vec!['*'];
        assert(star@ =~= seq!['*']);
        let each = style.prop_get(sel, &key, &star);
        if each.len() == 0 || (each[0] as u32) >= 0x80 {
            return false;
        }
        let ck = vec!['c', 'u', 'r', 's', 'o', 'r', '-', 'v', 'i', 's', 'i', 'b', 'l', 'e'];
        assert(ck@ =~= prop_cursor());
        let empty: Vec<char> = Vec::new();
        assert(empty@ =~= Seq::<char>::empty());
        let c = style.prop_get(sel, &ck, &empty);
        let t = vec!['t', 'r', 'u', 'e'];
        let f = vec!['f', 'a', 'l', 's', 'e'];
        assert(t@ =~= seq!['t', 'r', 'u', 'e']);
        assert(f@ =~= seq!['f', 'a', 'l', 's', 'e']);
        let ghost start = ctx.pending@;
        if crate::text::same(&c, &t) {
            ctx.cursor_vis(true);
        } else if crate::text::same(&c, &f) {
            ctx.cursor_vis(false);
        }
        let ghost after_cursor = ctx.pending@;
        assert(after_cursor =~= start + cursor_requests(style.map(), sel@, old(ctx).master_window));
        let ghost ls0 = layers@;
        let n = layers.len();
        let mut k: usize = 0;
        while k < n
            invariant
                k <= n == layers@.len() == ls0.len(),
                ls0 == old(layers)@,
                style.wf(),
                Self::sel_ok(sel@),
                sel@[0] == '@',
                after_cursor == old(ctx).pending@ + cursor_requests(style.map(), sel@, old(ctx).master_window),
                each@ == each_of(style.map(), sel@),
                each_ok(each@),
                forall|j: int| 0 <= j < ls0.len() ==> #[trigger] view_wf(ls0[j].root_visual.model()),
                forall|j: int| 0 <= j < k ==> #[trigger] state_layer(style.map(), ls0[j].root_visual.model(), sel@, self.target) is Some,
                forall|j: int| 0 <= j < k ==> (#[trigger] layers@[j]).root_visual.model() == state_layer(
                    style.map(),
                    ls0[j].root_visual.model(),
                    sel@,
                    self.target,
                )->0,
                forall|j: int| 0 <= j < k ==> #[trigger] view_wf(layers@[j].root_visual.model()),
                forall|j: int| k <= j < n ==> #[trigger] layers@[j] == ls0[j],
                forall|j: int| 0 <= j < n ==> (#[trigger] layers@[j]).root == ls0[j].root && layers@[j].file == ls0[j].file,
                ctx.same_setup(old(ctx)),
                after_cursor.is_prefix_of(ctx.pending@),
                old(ctx).pending@.is_prefix_of(after_cursor),
                ctx.pending@ == after_cursor + layers_state_requests(style.map(), ls0.take(k as int), sel@, self.target),
            decreases n - k,
        {
            let ghost before = layers@;
            let ghost p0 = ctx.pending@;
            let ok = self.apply_layer(sel, &each, &mut layers[k], style, ctx);
            proof {
                crate::visual::lemma_prefix_trans(after_cursor, p0, ctx.pending@);
            }
            assert(layers@ == before.update(k as int, layers@[k as int]));
            proof {
                if ok {
                    assert(ls0.take(k + 1).drop_last() =~= ls0.take(k as int));
                    assert(ls0.take(k + 1).last() == ls0[k as int]);
                    assert(ctx.pending@ =~= after_cursor + layers_state_requests(style.map(), ls0.take(k + 1), sel@, self.target));
                }
            }
            if !ok {
                proof {
                    crate::visual::lemma_prefix_trans(old(ctx).pending@, after_cursor, ctx.pending@);
                }
                return false;
            }
            k += 1;
        }
        proof {
            crate::visual::lemma_prefix_trans(old(ctx).pending@, after_cursor, ctx.pending@);
            assert(ls0.take(n as int) =~= ls0);
        }
        true
    }
}

impl Anim {
    /// Begins the animation: marks it begun and applies its start state.
    pub fn apply_start(&mut self, layers: &mut Vec<Layer>, style: &Style, ctx: &mut Xcb) -> (ok: bool)
        requires
            style.wf(),
            forall|k: int| 0 <= k < old(layers)@.len() ==> #[trigger] view_wf(old(layers)@[k].root_visual.model()),
        ensures
            *final(self) == (Anim { begun: true, ..*old(self) }),
            ok == (Self::sel_ok(old(self).start_sel@) && (old(self).start_sel@[0] != '@' || state_ok(style.map(), old(layers)@, old(self).start_sel@, old(self).target))),
            ok ==> state_applied(style.map(), old(layers)@, final(layers)@, old(self).start_sel@, old(self).target),
            ok ==> final(ctx).pending@ == old(ctx).pending@ + state_requests(
                style.map(),
                old(layers)@,
                old(self).start_sel@,
                old(self).target,
                old(ctx).master_window,
            ),
            final(ctx).same_setup(old(ctx)),
            old(ctx).pending@.is_prefix_of(final(ctx).pending@),
    {
        self.begun = true;
        let s = chars_of(self.start_sel.as_str());
        self.apply_state(&s, layers, style, ctx)
    }

    /// Ends the animation: marks it over and applies its end state.
    pub fn apply_end(&mut self, layers: &mut Vec<Layer>, style: &Style, ctx: &mut Xcb) -> (ok: bool)
        requires
            style.wf(),
            forall|k: int| 0 <= k < old(layers)@.len() ==> #[trigger] view_wf(old(layers)@[k].root_visual.model()),
        ensures
            *final(self) == (Anim { over: true, ..*old(self) }),
            ok == (Self::sel_ok(old(self).end_sel@) && (old(self).end_sel@[0] != '@' || state_ok(style.map(), old(layers)@, old(self).end_sel@, old(self).target))),
            ok ==> state_applied(style.map(), old(layers)@, final(layers)@, old(self).end_sel@, old(self).target),
            ok ==> final(ctx).pending@ == old(ctx).pending@ + state_requests(
                style.map(),
                old(layers)@,
                old(self).end_sel@,
                old(self).target,
                old(ctx).master_window,
            ),
            final(ctx).same_setup(old(ctx)),
            old(ctx).pending@.is_prefix_of(final(ctx).pending@),
    {
        self.over = true;
        let s = chars_of(self.end_sel.as_str());
        self.apply_state(&s, layers, style, ctx)
    }

    /// One step at `now` (see `step_kind`): begins the animation within its
    /// running time, ends it after; whether it is running or just ended, or
    /// nothing where a state could not be applied.
    pub fn update(&mut self, layers: &mut Vec<Layer>, style: &Style, ctx: &mut Xcb, now: u64) -> (r: Option<bool>)
        requires
            style.wf(),
            forall|k: int| 0 <= k < old(layers)@.len() ==> #[trigger] view_wf(old(layers)@[k].root_visual.model()),
        ensures
            *final(self) == stepped(*old(self), now),
            r is Some ==> r == Some(old(self).step_kind(now) != AnimStep::Idle),
            old(self).step_kind(now) == AnimStep::Idle ==> r == Some(false) && *final(self) == *old(self)
                && final(layers)@ == old(layers)@ && *final(ctx) == *old(ctx),
            old(self).step_kind(now) == AnimStep::Running ==> r == Some(true) && *final(self) == *old(self)
                && final(layers)@ == old(layers)@ && *final(ctx) == *old(ctx),
            old(self).step_kind(now) == AnimStep::Began && r is Some ==> final(ctx).pending@ == old(ctx).pending@
                + state_requests(style.map(), old(layers)@, old(self).start_sel@, old(self).target, old(ctx).master_window),
            old(self).step_kind(now) == AnimStep::Ended && r is Some ==> final(ctx).pending@ == old(ctx).pending@
                + state_requests(style.map(), old(layers)@, old(self).end_sel@, old(self).target, old(ctx).master_window),
            old(self).step_kind(now) == AnimStep::Began ==> *final(self) == (Anim { begun: true, ..*old(self) })
                && (r is Some <==> (Self::sel_ok(old(self).start_sel@) && (old(self).start_sel@[0] != '@' || state_ok(style.map(), old(layers)@, old(self).start_sel@, old(self).target))))
                && (r is Some ==> r == Some(true) && state_applied(style.map(), old(layers)@, final(layers)@, old(self).start_sel@, old(self).target)),
            old(self).step_kind(now) == AnimStep::Ended ==> *final(self) == (Anim { over: true, ..*old(self) })
                && (r is Some <==> (Self::sel_ok(old(self).end_sel@) && (old(self).end_sel@[0] != '@' || state_ok(style.map(), old(layers)@, old(self).end_sel@, old(self).target))))
                && (r is Some ==> r == Some(true) && state_applied(style.map(), old(layers)@, final(layers)@, old(self).end_sel@, old(self).target)),
            final(ctx).same_setup(old(ctx)),
            old(ctx).pending@.is_prefix_of(final(ctx).pending@),
    {
        if self.started <= now && self.ends > now {
            if !self.begun {
                if !self.apply_start(layers, style, ctx) {
                    return None;
                }
            }
            return Some(true);
        } else if self.begun {
            if !self.over {
                if !self.apply_end(layers, style, ctx) {
                    return None;
                }
                return Some(true);
            }
        }
        Some(false)
    }
}

proof fn lemma_apply_prefix(
    rules: Map<Seq<char>, Map<Seq<char>, Seq<char>>>,
    v: VisualView,
    ws: Seq<u32>,
    j: int,
    sel: Seq<char>,
)
    requires
        0 <= j <= ws.len(),
        apply_to_windows(rules, v, ws.take(j), sel) is None,
    ensures
        apply_to_windows(rules, v, ws, sel) is None,
    decreases ws.len() - j,
{
    if j < ws.len() {
        assert(ws.take(j + 1).drop_last() =~= ws.take(j));
        lemma_apply_prefix(rules, v, ws, j + 1, sel);
    } else {
        assert(ws.take(j) =~= ws);
    }
}

/// The animation after a step at `now` (see `step_kind`): begun when the
/// step begins it, over when it ends it, else as it was.
pub open spec fn stepped(a: Anim, now: u64) -> Anim {
    match a.step_kind(now) {
        AnimStep::Began => Anim { begun: true, ..a },
        AnimStep::Ended => Anim { over: true, ..a },
        _ => a,
    }
}

/// A step keeps an animation consistent (never over without having begun)
/// and is active exactly inside the running time or while the end is still
/// to be applied: inside the running time the animation has begun and its
/// end is untouched; outside it, it is over once it has begun, and its
/// beginning is untouched.
pub proof fn law_anim_update_window(a: Anim, now: u64)
    requires
        a.over ==> a.begun,
    ensures
        (a.step_kind(now) != AnimStep::Idle) == ((a.started <= now && now < a.ends) || (a.begun && !a.over)),
        stepped(a, now).over ==> stepped(a, now).begun,
        (a.started <= now && now < a.ends) ==> stepped(a, now).begun && stepped(a, now).over == a.over,
        !(a.started <= now && now < a.ends) ==> stepped(a, now).over == (a.over || a.begun) && stepped(a, now).begun
            == a.begun,
{
}

/// An animation's start state is applied at most once: once a step has
/// begun it, no later step begins it again until it is reset.
pub proof fn law_anim_begins_once(a: Anim, now: u64, later: u64)
    requires
        a.step_kind(now) == AnimStep::Began,
    ensures
        (Anim { begun: true, ..a }).step_kind(later) != AnimStep::Began,
{
}

/// An animation's end state is applied at most once: once a step has ended
/// it, later steps neither begin nor end it until it is reset.
pub proof fn law_anim_ends_once(a: Anim, now: u64, later: u64)
    requires
        a.step_kind(now) == AnimStep::Ended,
    ensures
        (Anim { over: true, ..a }).step_kind(later) != AnimStep::Began,
        (Anim { over: true, ..a }).step_kind(later) != AnimStep::Ended,
{
}

/// What the pointer coming to rest over window `rid` (0 for none) does to
/// the overlay animation and to the hover animation, which targets `target`.
pub struct Hover {
    /// The overlay animation starts again on `rid`.
    pub overlay: bool,
    /// The hover animation is ended on its old target first.
    pub end_previous: bool,
    /// The hover animation starts again on `rid`.
    pub start: bool,
}

/// Whether a visual with tag `t` takes the hover animation: icons and labels.
pub open spec fn hovers(t: Seq<char>) -> bool {
    t == tag_i() || t == tag_lbl()
}

/// The hover step for a pointer at rest over window `rid`, whose visual has
/// tag `tag` (none when no layer holds it): nothing for no window; else the
/// overlay starts again on it, and the hover animation either starts again on
/// its own target or is ended there and started on `rid` when that visual is
/// an icon or a label.
pub fn hover_step(rid: u32, target: u32, tag: Option<&Vec<char>>) -> (h: Hover)
    ensures
        h.overlay == (rid != 0),
        h.end_previous == (rid != 0 && rid != target),
        h.start == (rid != 0 && (rid == target || (tag matches Some(t) && hovers(t@)))),
{
    if rid == 0 {
        return Hover { overlay: false, end_previous: false, start: false };
    }
    if rid == target {
        return Hover { overlay: true, end_previous: false, start: true };
    }
    let start = match tag {
        Some(t) => {
            let i = t.len() == 1 && t[0] == 'i';
            let lbl = t.len() == 3 && t[0] == 'l' && t[1] == 'b' && t[2] == 'l';
            assert(i == (t@ == tag_i())) by {
                if i {
                    assert(t@ =~= tag_i());
                }
            }
            assert(lbl == (t@ == tag_lbl())) by {
                if lbl {
                    assert(t@ =~= tag_lbl());
                }
            }
            i || lbl
        },
        None => false,
    };
    Hover { overlay: true, end_previous: true, start }
}

} // verus!
