//! The layout of a choice list: a title across the whole width, then the
//! choices in cells a seventh of the width wide, each with the padding that
//! centres its text, the selected ones marked.
use vstd::prelude::*;
use crate::visual::{Glyphs, row_width, row_height, glyph_of, lemma_glyph_bounded};
use crate::text::{split, split_on, contains, find, chars_of, push_all};
use crate::script::{tdiv, div16};

verus! {

/// `Choose...:`, the title row and its separator.
pub open spec fn choice_title() -> Seq<char> {
    seq!['C', 'h', 'o', 'o', 's', 'e', '.', '.', '.', ':']
}

/// A cell of a choice list: its text, place, width, whether it is
/// selected, and the padding that places its text.
pub struct ChoiceCell {
    pub text: Vec<char>,
    pub x: i16,
    pub y: i16,
    pub width: u16,
    pub selected: bool,
    pub pad_x: i16,
    pub pad_y: i16,
}

/// A cell as plain values, in the order of its fields.
pub type CellView = (Seq<char>, i16, i16, u16, bool, i16, i16);

impl ChoiceCell {
    /// The cell as plain values.
    pub open spec fn cell_view(&self) -> CellView {
        (self.text@, self.x, self.y, self.width, self.selected, self.pad_x, self.pad_y)
    }
}

/// Choice `item` is among the `:`-separated selection `sel`.
pub open spec fn is_selected(sel: Seq<char>, item: Seq<char>) -> bool {
    let p = seq![':'] + sel + seq![':'];
    p != seq![':', ':'] && contains(p, seq![':'] + item + seq![':'])
}

/// The layout after `items`: the cells so far, and where the next one goes
/// and how wide it is. The first cell starts 16 pixels in and is as wide as
/// the list; after each cell the next moves on by its width, and when it
/// would not fit, a new row of cells a seventh of the width wide starts
/// `line_h` lower (all in 16-bit arithmetic, wrapping).
pub open spec fn layout(
    g: Seq<(char, u16, u16)>,
    items: Seq<Seq<char>>,
    sel: Seq<char>,
    width: u16,
    line_h: i16,
) -> (Seq<CellView>, i16, i16, u16)
    decreases items.len(),
{
    if items.len() == 0 {
        (Seq::empty(), 16, 0, width)
    } else {
        let st = layout(g, items.drop_last(), sel, width, line_h);
        let (xc, yc, cw) = (st.1, st.2, st.3);
        let item = items.last();
        let issel = is_selected(sel, item);
        let sw = row_width(g, item) as u16;
        let sh = row_height(g, item) as u16;
        let pad_y = (tdiv(line_h.wrapping_sub(sh as i16) as int, 2) as i16).wrapping_sub(
            tdiv(line_h as int, 8) as i16,
        );
        let pad_x = if !issel && cw == width {
            0
        } else {
            tdiv((cw as i16).wrapping_sub(sw as i16) as int, 2) as i16
        };
        let x1 = xc.wrapping_add(cw as i16);
        let cell = (item, xc, yc, cw, issel, pad_x, pad_y);
        if x1.wrapping_add(cw as i16) > width as i16 {
            (st.0.push(cell), 0, yc.wrapping_add(line_h), width / 7)
        } else {
            (st.0.push(cell), x1, yc, cw)
        }
    }
}

/// The cells of a choice list `width` wide with rows `line_h` high, showing
/// the `:`-separated choices `value` under the title, `sel` selected.
pub open spec fn choice_cells(
    g: Seq<(char, u16, u16)>,
    value: Seq<char>,
    sel: Seq<char>,
    width: u16,
    line_h: i16,
) -> Seq<CellView> {
    layout(g, split(choice_title() + value, ':'), sel, width, line_h).0
}

/// The size of a row of text cut to 16 bits: its width and height.
pub fn row_size(g: &Glyphs, t: &Vec<char>) -> (r: (u16, u16))
    requires
        g.wf(),
    ensures
        r == (row_width(g.metrics@, t@) as u16, row_height(g.metrics@, t@) as u16),
{
    let mut w: u128 = 0;
    let mut h: u16 = 0;
    let mut i: usize = 0;
    assert(t@.take(0) =~= Seq::<char>::empty());
    while i < t.len()
        invariant
            g.wf(),
            i <= t.len(),
            w == row_width(g.metrics@, t@.take(i as int)),
            h == row_height(g.metrics@, t@.take(i as int)),
            w <= 255 * i,
            h <= 64,
        decreases t.len() - i,
    {
        assert(t@.take(i + 1).drop_last() =~= t@.take(i as int));
        assert(t@.take(i + 1).last() == t@[i as int]);
        proof {
            lemma_glyph_bounded(g.metrics@, t@[i as int]);
        }
        match g.glyph(t[i]) {
            Some(m) => {
                w = w + m.0 as u128;
                if m.1 > h {
                    h = m.1;
                }
            },
            None => {},
        }
        i += 1;
    }
    assert(t@.take(i as int) =~= t@);
    (w as u16, h)
}

/// Whether choice `item` is selected (see `is_selected`).
fn selected_in(sel: &Vec<char>, item: &Vec<char>) -> (r: bool)
    ensures
        r == is_selected(sel@, item@),
{
    let mut p = vec![':'];
    push_all(&mut p, sel);
    p.push(':');
    let mut q = vec![':'];
    push_all(&mut q, item);
    q.push(':');
    assert(p@ =~= seq![':'] + sel@ + seq![':']);
    assert(q@ =~= seq![':'] + item@ + seq![':']);
    if sel.len() == 0 {
        assert(p@ =~= seq![':', ':']);
        return false;
    }
    assert(p@.len() > 2);
    find(&p, &q)
}

/// Lays out a choice list (see `choice_cells`).
pub fn choice_layout(g: &Glyphs, value: &Vec<char>, sel: &Vec<char>, width: u16, line_h: i16) -> (r: Vec<ChoiceCell>)
    requires
        g.wf(),
    ensures
        r@.len() == choice_cells(g.metrics@, value@, sel@, width, line_h).len(),
        forall|k: int|
            0 <= k < r@.len() ==> (#[trigger] r@[k]).cell_view() == choice_cells(g.metrics@, value@, sel@, width, line_h)[k],
{
    let mut all = vec!['C', 'h', 'o', 'o', 's', 'e', '.', '.', '.', ':'];
    assert(all@ =~= choice_title());
    push_all(&mut all, value);
    let items = split_on(&all, ':');
    let ghost its = split(choice_title() + value@, ':');
    assert(items.deep_view() == its);
    let mut cells: Vec<ChoiceCell> = Vec::new();
    let mut xc: i16 = 16;
    let mut yc: i16 = 0;
    let mut cw: u16 = width;
    let mut i: usize = 0;
    assert(its.take(0) =~= Seq::<Seq<char>>::empty());
    while i < items.len()
        invariant
            g.wf(),
            i <= items.len(),
            items.deep_view() == its,
            ({
                let st = layout(g.metrics@, its.take(i as int), sel@, width, line_h);
                &&& cells@.len() == st.0.len()
                &&& forall|k: int| 0 <= k < cells@.len() ==> (#[trigger] cells@[k]).cell_view() == st.0[k]
                &&& xc == st.1
                &&& yc == st.2
                &&& cw == st.3
            }),
        decreases items.len() - i,
    {
        let ghost prev = layout(g.metrics@, its.take(i as int), sel@, width, line_h);
        assert(its.take(i + 1).drop_last() =~= its.take(i as int));
        assert(its.take(i + 1).last() == its[i as int]);
        assert(items.deep_view()[i as int] == items@[i as int]@);
        let item = &items[i];
        let issel = selected_in(sel, item);
        let (sw, sh) = row_size(g, item);
        let pad_y = div16(line_h.wrapping_sub(sh as i16), 2).wrapping_sub(div16(line_h, 8));
        let pad_x: i16 = if !issel && cw == width {
            0
        } else {
            div16((cw as i16).wrapping_sub(sw as i16), 2)
        };
        let ghost before = cells@;
        cells.push(
            ChoiceCell { text: item.clone(), x: xc, y: yc, width: cw, selected: issel, pad_x, pad_y },
        );
        let x1 = xc.wrapping_add(cw as i16);
        if x1.wrapping_add(cw as i16) > width as i16 {
            cw = width / 7;
            xc = 0;
            yc = yc.wrapping_add(line_h);
        } else {
            xc = x1;
        }
        i += 1;
        assert forall|k: int| 0 <= k < cells@.len() implies (#[trigger] cells@[k]).cell_view()
            == layout(g.metrics@, its.take(i as int), sel@, width, line_h).0[k] by {
            if k < before.len() {
                assert(cells@[k] == before[k]);
            }
        }
    }
    assert(its.take(i as int) =~= its);
    cells
}

} // verus!
