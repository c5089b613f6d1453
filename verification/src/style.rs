//! Style sheets: rules of properties under selectors (`@root`, a tag, `#id`,
//! `@checked`, animation states), and the colours they name.
use vstd::prelude::*;
use crate::strmap::StrMap;
use crate::json::{JsonNode, json_parse};
use crate::text::{chars_of, string_of};
use crate::numbers::{parse_unsigned, parse_uint, parse_bool, digits_of, bool_text};
use crate::visual::{Visual, VisualView, view_wf, key_id, letter, show_requests, hide_requests};
use crate::display::Xcb;
use crate::strmap::map_of;
use crate::layout::{visual_size_ok, visual_size};

verus! {

/// The rules that a list of (selector, properties) pairs sets: a later pair
/// wins over an earlier one with the same selector.
pub open spec fn rules_map(rs: Seq<(String, StrMap)>) -> Map<Seq<char>, Map<Seq<char>, Seq<char>>>
    decreases rs.len(),
{
    if rs.len() == 0 {
        Map::empty()
    } else {
        rules_map(rs.drop_last()).insert(rs.last().0@, rs.last().1.map())
    }
}

/// The properties that the entries of a JSON object set, each to the text of
/// its value, a later entry winning.
pub open spec fn props_of(fs: Seq<(String, JsonNode)>) -> Map<Seq<char>, Seq<char>>
    decreases fs.len(),
{
    if fs.len() == 0 {
        Map::empty()
    } else {
        props_of(fs.drop_last()).insert(fs.last().0@, fs.last().1.text@)
    }
}

/// The rules that a style document sets: one per entry, its properties from
/// the entry's own entries.
pub open spec fn rules_of(fs: Seq<(String, JsonNode)>) -> Map<Seq<char>, Map<Seq<char>, Seq<char>>>
    decreases fs.len(),
{
    if fs.len() == 0 {
        Map::empty()
    } else {
        rules_of(fs.drop_last()).insert(fs.last().0@, props_of(fs.last().1.fields@))
    }
}

/// The value of property `prop` under selector `sel`, or `def` when the
/// rules set none.
pub open spec fn prop_value(
    rules: Map<Seq<char>, Map<Seq<char>, Seq<char>>>,
    sel: Seq<char>,
    prop: Seq<char>,
    def: Seq<char>,
) -> Seq<char> {
    if rules.dom().contains(sel) && rules[sel].dom().contains(prop) {
        rules[sel][prop]
    } else {
        def
    }
}

/// `transparent`.
pub open spec fn transparent() -> Seq<char> {
    seq!['t', 'r', 'a', 'n', 's', 'p', 'a', 'r', 'e', 'n', 't']
}

/// The colour a style value names can be read: `transparent`, `0`, or up to
/// eight hexadecimal digits.
pub open spec fn color_ok(s: Seq<char>) -> bool {
    s == transparent() || s == seq!['0'] || parse_unsigned(s, 16, 0xffff_ffff) is Some
}

/// The colour a style value names: none (0) for `transparent` and `0`, else
/// the hexadecimal value made opaque.
pub open spec fn color_of(s: Seq<char>) -> u32 {
    if s == transparent() || s == seq!['0'] {
        0
    } else {
        (0xFF00_0000u32 | (parse_unsigned(s, 16, 0xffff_ffff)->0 as u32)) as u32
    }
}

/// A colour value other than `transparent` and `0` that reads as the
/// hexadecimal number `n` names `n` made opaque: its top byte is 0xFF, so it
/// is never "no colour" (black `000000` is opaque black), and its lower three
/// bytes are those of `n`.
pub proof fn law_color_opaque(s: Seq<char>, n: nat)
    requires
        s != transparent(),
        s != seq!['0'],
        parse_unsigned(s, 16, 0xffff_ffff) == Some(n),
    ensures
        color_of(s) != 0,
        color_of(s) / 0x100_0000 == 0xFF,
        color_of(s) % 0x100_0000 == n % 0x100_0000,
        n < 0x100_0000 ==> color_of(s) == 0xFF00_0000 + n,
{
    let x = n as u32;
    assert(n <= 0xffff_ffff);
    assert(x == n);
    let r = 0xFF00_0000u32 | x;
    assert(r / 0x100_0000 == 0xFF && r % 0x100_0000 == x % 0x100_0000) by (bit_vector)
        requires
            r == 0xFF00_0000u32 | x,
    ;
    assert(x < 0x100_0000 ==> r == 0xFF00_0000u32 + x) by (bit_vector)
        requires
            r == 0xFF00_0000u32 | x,
    ;
    assert(color_of(s) == r);
}

/// A style sheet.
pub struct Style {
    /// The rules, in the order the sheet gives them.
    pub rules: Vec<(String, StrMap)>,
}

impl Style {
    /// Every rule's property list is well formed.
    pub open spec fn wf(&self) -> bool {
        forall|i: int| 0 <= i < self.rules@.len() ==> (#[trigger] self.rules@[i]).1.wf()
    }

    /// The rules as a map from selector to properties.
    pub open spec fn map(&self) -> Map<Seq<char>, Map<Seq<char>, Seq<char>>> {
        rules_map(self.rules@)
    }

    /// The style sheet `raw`: nothing where the sheet cannot be rewritten into
    /// JSON or the JSON does not parse.
    pub fn new(raw: &str) -> (r: Option<Style>)
        ensures
            r is Some <==> crate::markup::style_cuttable(raw@) && json_parse(
                crate::markup::style_json(raw@),
            ) is Some,
            r matches Some(st) ==> st.wf() && st.map() == rules_of(
                json_parse(crate::markup::style_json(raw@))->0.fields@,
            ),
    {
        if !crate::markup::style_processable(raw) {
            return None;
        }
        let jdoc = crate::markup::style_process(raw);
        match crate::json::parse_json(jdoc.as_str()) {
            Some(dom) => Some(Self::from_document(&dom)),
            None => None,
        }
    }

    /// The rules that the style document `dom` sets.
    pub fn from_document(dom: &JsonNode) -> (st: Style)
        ensures
            st.wf(),
            st.map() == rules_of(dom.fields@),
    {
        let mut rules: Vec<(String, StrMap)> = Vec::new();
        let mut i: usize = 0;
        assert(dom.fields@.take(0) =~= Seq::<(String, JsonNode)>::empty());
        while i < dom.fields.len()
            invariant
                i <= dom.fields.len(),
                forall|k: int| 0 <= k < rules@.len() ==> (#[trigger] rules@[k]).1.wf(),
                rules_map(rules@) == rules_of(dom.fields@.take(i as int)),
            decreases dom.fields.len() - i,
        {
            let node = &dom.fields[i].1;
            let mut vals = StrMap::new();
            let mut j: usize = 0;
            assert(node.fields@.take(0) =~= Seq::<(String, JsonNode)>::empty());
            while j < node.fields.len()
                invariant
                    j <= node.fields.len(),
                    vals.wf(),
                    vals.map() == props_of(node.fields@.take(j as int)),
                decreases node.fields.len() - j,
            {
                let k = chars_of(node.fields[j].0.as_str());
                let v = chars_of(node.fields[j].1.text.as_str());
                vals.insert(&k, &v);
                assert(node.fields@.take(j + 1).drop_last() =~= node.fields@.take(j as int));
                j += 1;
            }
            assert(node.fields@.take(j as int) =~= node.fields@);
            let sel = string_of(&chars_of(dom.fields[i].0.as_str()));
            let ghost before = rules@;
            rules.push((sel, vals));
            assert(rules@.drop_last() =~= before);
            assert(dom.fields@.take(i + 1).drop_last() =~= dom.fields@.take(i as int));
            i += 1;
        }
        assert(dom.fields@.take(i as int) =~= dom.fields@);
        Style { rules }
    }

    /// The value of property `prop` under selector `sel`, or `def`.
    pub fn prop_get(&self, sel: &Vec<char>, prop: &Vec<char>, def: &Vec<char>) -> (r: Vec<char>)
        requires
            self.wf(),
        ensures
            r@ == prop_value(self.map(), sel@, prop@, def@),
    {
        let key = string_of(sel);
        let mut i = self.rules.len();
        while i > 0
            invariant
                i <= self.rules.len(),
                self.wf(),
                key@ == sel@,
                forall|k: int| i <= k < self.rules@.len() ==> self.rules@[k].0@ != sel@,
            decreases i,
        {
            if self.rules[i - 1].0.eq(&key) {
                assert(self.rules@[i - 1].1.wf());
                proof {
                    lemma_rules_last(self.rules@, sel@, i - 1);
                }
                return self.rules[i - 1].1.get_or(prop, def);
            }
            i -= 1;
        }
        proof {
            lemma_rules_absent(self.rules@, sel@);
        }
        def.clone()
    }

    /// The colour a style value names.
    pub fn color_from_str(s: &Vec<char>) -> (r: u32)
        requires
            color_ok(s@),
        ensures
            r == color_of(s@),
    {
        let t = vec!['t', 'r', 'a', 'n', 's', 'p', 'a', 'r', 'e', 'n', 't'];
        assert(t@ =~= transparent());
        let z = vec!['0'];
        assert(z@ =~= seq!['0']);
        if crate::text::same(s, &t) || crate::text::same(s, &z) {
            0
        } else {
            match parse_uint(s, 16, 0xffff_ffff) {
                Some(v) => 0xFF00_0000u32 | (v as u32),
                None => 0,
            }
        }
    }

    /// Whether a style value names a colour.
    pub fn color_valid(s: &Vec<char>) -> (r: bool)
        ensures
            r == color_ok(s@),
    {
        let t = vec!['t', 'r', 'a', 'n', 's', 'p', 'a', 'r', 'e', 'n', 't'];
        assert(t@ =~= transparent());
        let z = vec!['0'];
        assert(z@ =~= seq!['0']);
        crate::text::same(s, &t) || crate::text::same(s, &z) || parse_uint(s, 16, 0xffff_ffff).is_some()
    }
}

proof fn lemma_rules_last(rs: Seq<(String, StrMap)>, sel: Seq<char>, j: int)
    requires
        0 <= j < rs.len(),
        rs[j].0@ == sel,
        forall|k: int| j < k < rs.len() ==> rs[k].0@ != sel,
    ensures
        rules_map(rs).dom().contains(sel),
        rules_map(rs)[sel] == rs[j].1.map(),
    decreases rs.len(),
{
    if j < rs.len() - 1 {
        lemma_rules_last(rs.drop_last(), sel, j);
        assert(rs.last() == rs[rs.len() - 1]);
    }
}

proof fn lemma_rules_absent(rs: Seq<(String, StrMap)>, sel: Seq<char>)
    requires
        forall|k: int| 0 <= k < rs.len() ==> rs[k].0@ != sel,
    ensures
        !rules_map(rs).dom().contains(sel),
    decreases rs.len(),
{
    if rs.len() > 0 {
        lemma_rules_absent(rs.drop_last(), sel);
        assert(rs.last() == rs[rs.len() - 1]);
    }
}

/// `@root`.
pub open spec fn sel_root() -> Seq<char> {
    seq!['@', 'r', 'o', 'o', 't']
}

/// `@checked`.
pub open spec fn sel_checked() -> Seq<char> {
    seq!['@', 'c', 'h', 'e', 'c', 'k', 'e', 'd']
}

/// `visible`.
pub open spec fn prop_visible() -> Seq<char> {
    seq!['v', 'i', 's', 'i', 'b', 'l', 'e']
}

/// `px`.
pub open spec fn px() -> Seq<char> {
    seq!['p', 'x']
}

/// A visual with the colours, size and visibility that selector `sel` sets
/// (each kept where the sheet sets none), sizes measured in a parent of
/// `mw` x `mh`; nothing where a value cannot be read.
pub open spec fn sel_step(
    rules: Map<Seq<char>, Map<Seq<char>, Seq<char>>>,
    v: VisualView,
    sel: Seq<char>,
    mw: u16,
    mh: u16,
) -> Option<VisualView> {
    let fgv = prop_value(rules, sel, letter('f') + letter('g'), digits_of(v.fg as nat, 16));
    let bgv = prop_value(rules, sel, letter('b') + letter('g'), digits_of(v.bg as nat, 16));
    let wv = prop_value(rules, sel, letter('w'), digits_of(v.width as nat, 10) + px());
    let hv = prop_value(rules, sel, letter('h'), digits_of(v.height as nat, 10) + px());
    let visv = prop_value(rules, sel, prop_visible(), bool_text(v.visible));
    if color_ok(fgv) && color_ok(bgv) && visual_size_ok(wv, mw, mh) && visual_size_ok(hv, mw, mh)
        && parse_bool(visv) is Some {
        Some(
            VisualView {
                fg: color_of(fgv),
                bg: color_of(bgv),
                width: visual_size(wv, mw, mh),
                height: visual_size(hv, mw, mh),
                visible: parse_bool(visv)->0,
                ..v
            },
        )
    } else {
        None
    }
}

/// Selector `sel` applied to a visual, and then, if the visual is checked,
/// `@checked`.
pub open spec fn sel_apply(
    rules: Map<Seq<char>, Map<Seq<char>, Seq<char>>>,
    v: VisualView,
    sel: Seq<char>,
    mw: u16,
    mh: u16,
) -> Option<VisualView> {
    match sel_step(rules, v, sel, mw, mh) {
        Some(w) => if w.checked {
            sel_step(rules, w, sel_checked(), mw, mh)
        } else {
            Some(w)
        },
        None => None,
    }
}

/// The selector a visual's `id` gives: `#` followed by it.
pub open spec fn id_selector(v: VisualView) -> Seq<char> {
    seq!['#'] + map_of(v.attrs)[key_id()]
}

/// The rules for `@root`, the visual's tag and, if it has an id, `#id`,
/// applied in that order.
pub open spec fn style_apply(
    rules: Map<Seq<char>, Map<Seq<char>, Seq<char>>>,
    v: VisualView,
    mw: u16,
    mh: u16,
) -> Option<VisualView> {
    match sel_apply(rules, v, sel_root(), mw, mh) {
        Some(a) => match sel_apply(rules, a, a.tag, mw, mh) {
            Some(b) => if map_of(b.attrs).dom().contains(key_id()) {
                sel_apply(rules, b, id_selector(b), mw, mh)
            } else {
                Some(b)
            },
            None => None,
        },
        None => None,
    }
}

impl Style {
    /// Applies one selector's colours, size and visibility (see `sel_step`).
    fn sel_once(&self, sel: &Vec<char>, v: &mut Visual, mw: u16, mh: u16) -> (ok: bool)
        requires
            self.wf(),
        ensures
            ok == sel_step(self.map(), old(v).model(), sel@, mw, mh) is Some,
            ok ==> final(v).model() == sel_step(self.map(), old(v).model(), sel@, mw, mh)->0,
            !ok ==> *final(v) == *old(v),
    {
        let kfg = vec!['f', 'g'];
        assert(kfg@ =~= letter('f') + letter('g'));
        let kbg = vec!['b', 'g'];
        assert(kbg@ =~= letter('b') + letter('g'));
        let kw = vec!['w'];
        assert(kw@ =~= letter('w'));
        let kh = vec!['h'];
        assert(kh@ =~= letter('h'));
        let kvis = vec!['v', 'i', 's', 'i', 'b', 'l', 'e'];
        assert(kvis@ =~= prop_visible());
        let mut dw = crate::numbers::print_uint(v.width as u64, 10);
        crate::text::push_all(&mut dw, &vec!['p', 'x']);
        assert(dw@ =~= digits_of(v.width as nat, 10) + px());
        let mut dh = crate::numbers::print_uint(v.height as u64, 10);
        crate::text::push_all(&mut dh, &vec!['p', 'x']);
        assert(dh@ =~= digits_of(v.height as nat, 10) + px());
        let fgv = self.prop_get(sel, &kfg, &crate::numbers::print_uint(v.fg as u64, 16));
        let bgv = self.prop_get(sel, &kbg, &crate::numbers::print_uint(v.bg as u64, 16));
        let wv = self.prop_get(sel, &kw, &dw);
        let hv = self.prop_get(sel, &kh, &dh);
        let visv = self.prop_get(sel, &kvis, &crate::numbers::print_bool(v.visible));
        if !(Self::color_valid(&fgv) && Self::color_valid(&bgv)) {
            return false;
        }
        if !(crate::layout::visual_size_valid(&wv, mw, mh) && crate::layout::visual_size_valid(
            &hv,
            mw,
            mh,
        )) {
            return false;
        }
        let vis = match crate::numbers::parse_boolean(&visv) {
            Some(b) => b,
            None => {
                return false;
            },
        };
        v.fg = Self::color_from_str(&fgv);
        v.bg = Self::color_from_str(&bgv);
        v.width = crate::layout::visual_calc(&wv, mw, mh);
        v.height = crate::layout::visual_calc(&hv, mw, mh);
        v.visible = vis;
        true
    }

    /// Applies selector `sel`, then `@checked` if the visual is checked (see
    /// `sel_apply`); fails where a value the sheet gives cannot be read.
    pub fn apply_sel(&self, sel: &str, v: &mut Visual, mw: u16, mh: u16) -> (ok: bool)
        requires
            self.wf(),
        ensures
            ok == sel_apply(self.map(), old(v).model(), sel@, mw, mh) is Some,
            ok ==> final(v).model() == sel_apply(self.map(), old(v).model(), sel@, mw, mh)->0,
    {
        let s = chars_of(sel);
        if !self.sel_once(&s, v, mw, mh) {
            return false;
        }
        if v.checked {
            let c = vec!['@', 'c', 'h', 'e', 'c', 'k', 'e', 'd'];
            assert(c@ =~= sel_checked());
            return self.sel_once(&c, v, mw, mh);
        }
        true
    }

    /// Applies `@root`, the visual's tag and its `#id` (see `style_apply`),
    /// then shows the visual's tree if it is visible, else hides it. Fails,
    /// queueing nothing, where a value the sheet gives cannot be read.
    #[verifier::rlimit(40)]
    pub fn apply(&self, ctx: &mut Xcb, v: &mut Visual, mw: u16, mh: u16) -> (ok: bool)
        requires
            self.wf(),
            view_wf(old(v).model()),
        ensures
            ok == style_apply(self.map(), old(v).model(), mw, mh) is Some,
            ok ==> final(v).model() == style_apply(self.map(), old(v).model(), mw, mh)->0,
            ok ==> final(ctx).pending@ == old(ctx).pending@ + if final(v).visible {
                show_requests(final(v).model())
            } else {
                hide_requests(final(v).model())
            },
            !ok ==> final(ctx).pending@ == old(ctx).pending@,
            final(ctx).next_id == old(ctx).next_id,
            final(ctx).same_setup(old(ctx)),
    {
        proof {
            reveal_strlit("@root");
        }
        assert("@root"@ =~= sel_root());
        let ghost m0 = v.model();
        if !self.apply_sel("@root", v, mw, mh) {
            return false;
        }
        let ghost a = v.model();
        assert(a.tag == m0.tag && a.attrs == m0.attrs && a.children == m0.children);
        let tag = crate::text::string_of(&chars_of(v.tag.as_str()));
        assert(tag@ == a.tag);
        if !self.apply_sel(tag.as_str(), v, mw, mh) {
            return false;
        }
        let ghost b = v.model();
        assert(b.tag == m0.tag && b.attrs == m0.attrs && b.children == m0.children);
        assert(b == sel_apply(self.map(), a, a.tag, mw, mh)->0);
        let key = vec!['i', 'd'];
        assert(key@ =~= key_id());
        assert(v.attrs.pairs() == b.attrs);
        let id = v.attrs.get(&key);
        match id {
            Some(i) => {
                let mut sel = vec!['#'];
                crate::text::push_all(&mut sel, &chars_of(i.as_str()));
                assert(sel@ =~= id_selector(b));
                let ss = crate::text::string_of(&sel);
                if !self.apply_sel(ss.as_str(), v, mw, mh) {
                    return false;
                }
            },
            None => {},
        }
        assert(v.model() == style_apply(self.map(), m0, mw, mh)->0);
        if v.visible {
            v.show(ctx);
        } else {
            v.hide_tree(ctx);
        }
        true
    }

    /// The value of property `prop` for a visual: under `#id` if it has an
    /// id, else under its tag, or `def` when the sheet sets none there.
    pub fn prop_find(&self, v: &Visual, prop: &Vec<char>, def: &Vec<char>) -> (r: Vec<char>)
        requires
            self.wf(),
            view_wf(v.model()),
        ensures
            r@ == if map_of(v.model().attrs).dom().contains(key_id()) {
                prop_value(self.map(), id_selector(v.model()), prop@, def@)
            } else {
                prop_value(self.map(), v.tag@, prop@, def@)
            },
    {
        let root = vec!['@', 'r', 'o', 'o', 't'];
        let _ = self.prop_get(&root, prop, def);
        let ghost m = v.model();
        assert(m.attrs == v.attrs.pairs() && m.tag == v.tag@);
        let mut ret = self.prop_get(&chars_of(v.tag.as_str()), prop, def);
        let key = vec!['i', 'd'];
        assert(key@ =~= key_id());
        match v.attrs.get(&key) {
            Some(i) => {
                let mut sel = vec!['#'];
                crate::text::push_all(&mut sel, &chars_of(i.as_str()));
                assert(sel@ =~= id_selector(m));
                ret = self.prop_get(&sel, prop, def);
            },
            None => {},
        }
        ret
    }
}

/// Applying a style changes colours, size and visibility only.
pub proof fn lemma_style_apply_keeps(
    rules: Map<Seq<char>, Map<Seq<char>, Seq<char>>>,
    v: VisualView,
    mw: u16,
    mh: u16,
)
    ensures
        style_apply(rules, v, mw, mh) matches Some(w) ==> w.attrs == v.attrs && w.children == v.children
            && w.tag == v.tag && w.content == v.content && w.window == v.window && w.checked == v.checked,
{
}

} // verus!
