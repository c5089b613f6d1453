//! Bitmap fonts: the character metrics of a font description (`.fnt`), read
//! by rewriting each `char` line into an entry of a JSON object, and the
//! label metrics taken from them.
use vstd::prelude::*;
use crate::text::{replace_all, split, chars_of, split_on, replace, push_all, slice_of, string_of};
use crate::json::{JsonNode, json_parse, parse_json};
use crate::numbers::{parse_i64, parse_int};
use crate::visual::Glyphs;
use crate::display::Xcb;
use crate::xproto::{XRequest, Drawable};

verus! {

/// `char `.
pub open spec fn char_tag() -> Seq<char> {
    seq!['c', 'h', 'a', 'r', ' ']
}

/// A line of the description that describes a character.
pub open spec fn is_char_line(l: Seq<char>) -> bool {
    l.len() >= 5 && l.take(5) == char_tag()
}

/// A `char` line rewritten as a JSON entry: `char id=N x=X y=Y` becomes
/// `,"N":{"x": "X", "y": "Y"}`.
pub open spec fn char_entry(l: Seq<char>) -> Seq<char> {
    let a = replace_all(l, seq!['c', 'h', 'a', 'r', ' ', 'i', 'd', '='], seq![',', '"']);
    let b = replace_all(a, seq![' ', 'x', '='], seq!['"', ':', '{', '"', 'x', '=']);
    let c = replace_all(b, seq![' '], seq!['"', ',', ' ', '"']);
    let d = replace_all(c, seq!['='], seq!['"', ':', ' ', '"']);
    d + seq!['"', '}']
}

/// The entries of the `char` lines among `ls`, in order.
pub open spec fn char_entries(ls: Seq<Seq<char>>) -> Seq<char>
    decreases ls.len(),
{
    if ls.len() == 0 {
        Seq::empty()
    } else {
        char_entries(ls.drop_last()) + if is_char_line(ls.last()) {
            char_entry(ls.last())
        } else {
            Seq::empty()
        }
    }
}

/// The JSON text of a font description: its entries, the first comma
/// dropped, in braces; nothing when it has no `char` line.
pub open spec fn fnt_json(text: Seq<char>) -> Option<Seq<char>> {
    let e = char_entries(split(text, '\n'));
    if e.len() == 0 {
        None
    } else {
        Some(seq!['{', ' '] + e.drop_first() + seq![' ', '}'])
    }
}

/// What `i32::from_str_radix(s, 10)` gives.
pub open spec fn parse_i32(s: Seq<char>) -> Option<i32> {
    match parse_i64(s) {
        Some(v) => if -0x8000_0000 <= v <= 0x7fff_ffff {
            Some(v as i32)
        } else {
            None
        },
        None => None,
    }
}

/// The metrics of a character's entries: each value a string holding a
/// 32-bit number; nothing when one is not.
pub open spec fn metrics_of(fs: Seq<(String, JsonNode)>) -> Option<Seq<(Seq<char>, i32)>>
    decreases fs.len(),
{
    if fs.len() == 0 {
        Some(Seq::empty())
    } else {
        match metrics_of(fs.drop_last()) {
            Some(m) => {
                let v = fs.last().1;
                if v.is_string && parse_i32(v.text@) is Some {
                    Some(m.push((fs.last().0@, parse_i32(v.text@)->0)))
                } else {
                    None
                }
            },
            None => None,
        }
    }
}

/// The characters of a font's entries: each key a 32-bit number, each value
/// the character's metrics; nothing when one cannot be read.
pub open spec fn chars_of_entries(fs: Seq<(String, JsonNode)>) -> Option<
    Seq<(i32, Seq<(Seq<char>, i32)>)>,
>
    decreases fs.len(),
{
    if fs.len() == 0 {
        Some(Seq::empty())
    } else {
        match chars_of_entries(fs.drop_last()) {
            Some(cs) => match (parse_i32(fs.last().0@), metrics_of(fs.last().1.fields@)) {
                (Some(id), Some(m)) => Some(cs.push((id, m))),
                _ => None,
            },
            None => None,
        }
    }
}

/// The characters of the font description `text`, in order; nothing when it
/// has no `char` line, when its JSON text does not parse, or when a number
/// cannot be read.
pub open spec fn fnt_chars(text: Seq<char>) -> Option<Seq<(i32, Seq<(Seq<char>, i32)>)>> {
    match fnt_json(text) {
        Some(j) => match json_parse(j) {
            Some(d) => chars_of_entries(d.fields@),
            None => None,
        },
        None => None,
    }
}

/// The value of `k` in the metrics `m` (its last entry).
pub open spec fn metric(m: Seq<(Seq<char>, i32)>, k: Seq<char>) -> Option<i32>
    decreases m.len(),
{
    if m.len() == 0 {
        None
    } else if m.last().0 == k {
        Some(m.last().1)
    } else {
        metric(m.drop_last(), k)
    }
}

/// The metrics of the character with code `id` in `cs` (its last entry).
pub open spec fn char_metrics(cs: Seq<(i32, Seq<(Seq<char>, i32)>)>, id: i32) -> Option<Seq<(Seq<char>, i32)>>
    decreases cs.len(),
{
    if cs.len() == 0 {
        None
    } else if cs.last().0 == id {
        Some(cs.last().1)
    } else {
        char_metrics(cs.drop_last(), id)
    }
}

/// `xadvance`.
pub open spec fn xadvance_key() -> Seq<char> {
    seq!['x', 'a', 'd', 'v', 'a', 'n', 'c', 'e']
}

/// `height`.
pub open spec fn height_key() -> Seq<char> {
    seq!['h', 'e', 'i', 'g', 'h', 't']
}

/// `i` is the code of a character.
pub open spec fn is_scalar(i: i32) -> bool {
    (0 <= i < 0xD800) || (0xE000 <= i <= 0x10FFFF)
}

/// A character's metrics fit a label: an advance of at most 255 and a height
/// of at most 64, neither negative.
pub open spec fn label_metrics_ok(m: Seq<(Seq<char>, i32)>) -> bool {
    &&& metric(m, xadvance_key()) matches Some(a) && 0 <= a <= 255
    &&& metric(m, height_key()) matches Some(h) && 0 <= h <= 64
}

/// The label metrics of the characters `cs`: for each one with the code of a
/// character, in order, its advance and height; nothing when such a one has
/// metrics that do not fit a label.
pub open spec fn label_glyphs(cs: Seq<(i32, Seq<(Seq<char>, i32)>)>) -> Option<Seq<(char, u16, u16)>>
    decreases cs.len(),
{
    if cs.len() == 0 {
        Some(Seq::empty())
    } else {
        match label_glyphs(cs.drop_last()) {
            Some(g) => {
                let (id, m) = cs.last();
                if !is_scalar(id) {
                    Some(g)
                } else if label_metrics_ok(m) {
                    Some(
                        g.push(
                            (
                                id as char,
                                metric(m, xadvance_key())->0 as u16,
                                metric(m, height_key())->0 as u16,
                            ),
                        ),
                    )
                } else {
                    None
                }
            },
            None => None,
        }
    }
}

/// `char::from_u32(i)`: the character with code `i`; nothing for a
/// surrogate or a code above 0x10FFFF, as std documents.
#[verifier::external_body]
fn char_from(i: u32) -> (r: Option<char>)
    ensures
        r == (if i < 0xD800 || (0xE000 <= i && i <= 0x10FFFF) {
            Some(i as char)
        } else {
            None
        }),
{
    char::from_u32(i)
}

/// Rewrites a `char` line as a JSON entry (see `char_entry`).
fn entry_of(l: &Vec<char>) -> (r: Vec<char>)
    ensures
        r@ == char_entry(l@),
{
    let p1 = vec!['c', 'h', 'a', 'r', ' ', 'i', 'd', '='];
    let r1 = vec![',', '"'];
    let p2 = vec![' ', 'x', '='];
    let r2 = vec!['"', ':', '{', '"', 'x', '='];
    let p3 = vec![' '];
    let r3 = vec!['"', ',', ' ', '"'];
    let p4 = vec!['='];
    let r4 = vec!['"', ':', ' ', '"'];
    assert(p1@ =~= seq!['c', 'h', 'a', 'r', ' ', 'i', 'd', '=']);
    assert(r1@ =~= seq![',', '"']);
    assert(p2@ =~= seq![' ', 'x', '=']);
    assert(r2@ =~= seq!['"', ':', '{', '"', 'x', '=']);
    assert(p3@ =~= seq![' ']);
    assert(r3@ =~= seq!['"', ',', ' ', '"']);
    assert(p4@ =~= seq!['=']);
    assert(r4@ =~= seq!['"', ':', ' ', '"']);
    let a = replace(l, &p1, &r1);
    let b = replace(&a, &p2, &r2);
    let c = replace(&b, &p3, &r3);
    let mut d = replace(&c, &p4, &r4);
    let ghost d0 = d@;
    d.push('"');
    d.push('}');
    assert(d@ =~= d0 + seq!['"', '}']);
    d
}

/// The JSON text of the font description `text` (see `fnt_json`).
pub fn fnt_document(text: &str) -> (r: Option<String>)
    ensures
        match r {
            Some(j) => fnt_json(text@) == Some(j@),
            None => fnt_json(text@) is None,
        },
{
    let t = chars_of(text);
    let ls = split_on(&t, '\n');
    let ghost lines = split(text@, '\n');
    let mut e: Vec<char> = Vec::new();
    let mut i: usize = 0;
    assert(lines.take(0) =~= Seq::<Seq<char>>::empty());
    while i < ls.len()
        invariant
            i <= ls.len(),
            ls.deep_view() == lines,
            e@ == char_entries(lines.take(i as int)),
        decreases ls.len() - i,
    {
        let l = &ls[i];
        assert(ls.deep_view()[i as int] == l@);
        assert(lines.take(i + 1).drop_last() =~= lines.take(i as int));
        assert(lines.take(i + 1).last() == l@);
        if l.len() >= 5 && l[0] == 'c' && l[1] == 'h' && l[2] == 'a' && l[3] == 'r' && l[4] == ' ' {
            assert(l@.take(5) =~= char_tag());
            let en = entry_of(l);
            push_all(&mut e, &en);
        } else {
            assert(!is_char_line(l@));
            assert(e@ =~= e@ + Seq::<char>::empty());
        }
        i += 1;
    }
    assert(lines.take(i as int) =~= lines);
    if e.len() == 0 {
        return None;
    }
    let mut j: Vec<char> = vec!['{', ' '];
    let body = slice_of(&e, 1, e.len());
    assert(body@ =~= e@.drop_first());
    push_all(&mut j, &body);
    j.push(' ');
    j.push('}');
    assert(j@ =~= seq!['{', ' '] + e@.drop_first() + seq![' ', '}']);
    Some(string_of(&j))
}

/// `i32::from_str_radix(s, 10)`.
fn parse_number(s: &Vec<char>) -> (r: Option<i32>)
    ensures
        r == parse_i32(s@),
{
    match parse_int(s) {
        Some(v) => if -0x8000_0000 <= v && v <= 0x7fff_ffff {
            Some(v as i32)
        } else {
            None
        },
        None => None,
    }
}

/// A bitmap font's characters: each with its code and its metrics, in the
/// order of the description (a later entry for a code hides earlier ones).
pub struct Font {
    pub chars: Vec<(i32, Vec<(String, i32)>)>,
}

/// The metrics of the entries `fs` (see `metrics_of`).
fn read_metrics(fs: &Vec<(String, JsonNode)>) -> (r: Option<Vec<(String, i32)>>)
    ensures
        match r {
            Some(m) => metrics_of(fs@) == Some(m.deep_view()),
            None => metrics_of(fs@) is None,
        },
{
    let mut m: Vec<(String, i32)> = Vec::new();
    let mut i: usize = 0;
    assert(fs@.take(0) =~= Seq::<(String, JsonNode)>::empty());
    while i < fs.len()
        invariant
            i <= fs.len(),
            metrics_of(fs@.take(i as int)) == Some(m.deep_view()),
        decreases fs.len() - i,
    {
        assert(fs@.take(i + 1).drop_last() =~= fs@.take(i as int));
        assert(fs@.take(i + 1).last() == fs@[i as int]);
        let v = &fs[i].1;
        let n = if v.is_string {
            parse_number(&chars_of(v.text.as_str()))
        } else {
            None
        };
        match n {
            Some(x) => {
                let ghost old_m = m.deep_view();
                m.push((string_of(&chars_of(fs[i].0.as_str())), x));
                assert(m.deep_view() =~= old_m.push((fs@[i as int].0@, x)));
            },
            None => {
                proof {
                    lemma_metrics_none(fs@, i as int);
                }
                return None;
            },
        }
        i += 1;
    }
    assert(fs@.take(i as int) =~= fs@);
    Some(m)
}

/// Metrics that fail at entry `i` fail for every longer prefix.
proof fn lemma_metrics_none(fs: Seq<(String, JsonNode)>, i: int)
    requires
        0 <= i < fs.len(),
        metrics_of(fs.take(i + 1)) is None,
    ensures
        metrics_of(fs) is None,
    decreases fs.len() - i,
{
    if i + 1 < fs.len() {
        assert(fs.take(i + 2).drop_last() =~= fs.take(i + 1));
        lemma_metrics_none(fs, i + 1);
    } else {
        assert(fs.take(i + 1) =~= fs);
    }
}

/// Characters that fail at entry `i` fail for every longer prefix.
proof fn lemma_chars_none(fs: Seq<(String, JsonNode)>, i: int)
    requires
        0 <= i < fs.len(),
        chars_of_entries(fs.take(i + 1)) is None,
    ensures
        chars_of_entries(fs) is None,
    decreases fs.len() - i,
{
    if i + 1 < fs.len() {
        assert(fs.take(i + 2).drop_last() =~= fs.take(i + 1));
        lemma_chars_none(fs, i + 1);
    } else {
        assert(fs.take(i + 1) =~= fs);
    }
}

/// Label metrics that fail at entry `i` fail for every longer prefix.
proof fn lemma_glyphs_none(cs: Seq<(i32, Seq<(Seq<char>, i32)>)>, i: int)
    requires
        0 <= i < cs.len(),
        label_glyphs(cs.take(i + 1)) is None,
    ensures
        label_glyphs(cs) is None,
    decreases cs.len() - i,
{
    if i + 1 < cs.len() {
        assert(cs.take(i + 2).drop_last() =~= cs.take(i + 1));
        lemma_glyphs_none(cs, i + 1);
    } else {
        assert(cs.take(i + 1) =~= cs);
    }
}

/// The value of `k` in the metrics `m` (see `metric`).
fn metric_of(m: &Vec<(String, i32)>, k: &Vec<char>) -> (r: Option<i32>)
    ensures
        r == metric(m.deep_view(), k@),
{
    let mut i = m.len();
    assert(m.deep_view().take(i as int) =~= m.deep_view());
    while i > 0
        invariant
            i <= m.len(),
            metric(m.deep_view(), k@) == metric(m.deep_view().take(i as int), k@),
        decreases i,
    {
        assert(m.deep_view().take(i as int).drop_last() =~= m.deep_view().take(i - 1));
        assert(m.deep_view().take(i as int).last() == m.deep_view()[i - 1]);
        let key = chars_of(m[i - 1].0.as_str());
        if crate::text::same(&key, k) {
            return Some(m[i - 1].1);
        }
        i -= 1;
    }
    None
}

impl Font {
    /// Reads the font description `text` (see `fnt_chars`).
    pub fn from_fnt(text: &str) -> (r: Option<Font>)
        ensures
            match r {
                Some(f) => fnt_chars(text@) == Some(f.chars.deep_view()),
                None => fnt_chars(text@) is None,
            },
    {
        let doc = match fnt_document(text) {
            Some(d) => d,
            None => {
                return None;
            },
        };
        let dom = match parse_json(doc.as_str()) {
            Some(d) => d,
            None => {
                return None;
            },
        };
        let fs = &dom.fields;
        let mut chars: Vec<(i32, Vec<(String, i32)>)> = Vec::new();
        let mut i: usize = 0;
        assert(fs@.take(0) =~= Seq::<(String, JsonNode)>::empty());
        while i < fs.len()
            invariant
                i <= fs.len(),
                fs@ == dom.fields@,
                fnt_json(text@) == Some(doc@),
                json_parse(doc@) == Some(dom),
                chars_of_entries(fs@.take(i as int)) == Some(chars.deep_view()),
            decreases fs.len() - i,
        {
            assert(fs@.take(i + 1).drop_last() =~= fs@.take(i as int));
            assert(fs@.take(i + 1).last() == fs@[i as int]);
            let id = parse_number(&chars_of(fs[i].0.as_str()));
            let m = read_metrics(&fs[i].1.fields);
            match (id, m) {
                (Some(id), Some(m)) => {
                    let ghost old_c = chars.deep_view();
                    let ghost mv = m.deep_view();
                    chars.push((id, m));
                    assert(chars.deep_view() =~= old_c.push((id, mv)));
                },
                _ => {
                    proof {
                        lemma_chars_none(fs@, i as int);
                    }
                    return None;
                },
            }
            i += 1;
        }
        assert(fs@.take(i as int) =~= fs@);
        Some(Font { chars })
    }

    /// The value of `k` for the character with code `id` (see
    /// `char_metrics` and `metric`).
    pub fn char_metric(&self, id: i32, k: &Vec<char>) -> (r: Option<i32>)
        ensures
            r == match char_metrics(self.chars.deep_view(), id) {
                Some(m) => metric(m, k@),
                None => None,
            },
    {
        let ghost cs = self.chars.deep_view();
        let mut i = self.chars.len();
        assert(cs.take(i as int) =~= cs);
        while i > 0
            invariant
                i <= self.chars.len(),
                cs == self.chars.deep_view(),
                char_metrics(cs, id) == char_metrics(cs.take(i as int), id),
            decreases i,
        {
            assert(cs.take(i as int).drop_last() =~= cs.take(i - 1));
            assert(cs.take(i as int).last() == cs[i - 1]);
            if self.chars[i - 1].0 == id {
                assert(cs[i - 1].1 == self.chars@[i - 1].1.deep_view());
                return metric_of(&self.chars[i - 1].1, k);
            }
            i -= 1;
        }
        None
    }

    /// The label metrics of this font (see `label_glyphs`).
    pub fn glyphs(&self) -> (r: Option<Glyphs>)
        ensures
            match r {
                Some(g) => label_glyphs(self.chars.deep_view()) == Some(g.metrics@) && g.wf(),
                None => label_glyphs(self.chars.deep_view()) is None,
            },
    {
        let ghost cs = self.chars.deep_view();
        let xa = vec!['x', 'a', 'd', 'v', 'a', 'n', 'c', 'e'];
        let hk = vec!['h', 'e', 'i', 'g', 'h', 't'];
        assert(xa@ =~= xadvance_key());
        assert(hk@ =~= height_key());
        let mut g: Vec<(char, u16, u16)> = Vec::new();
        let mut i: usize = 0;
        assert(cs.take(0) =~= Seq::<(i32, Seq<(Seq<char>, i32)>)>::empty());
        while i < self.chars.len()
            invariant
                i <= self.chars.len(),
                cs == self.chars.deep_view(),
                xa@ == xadvance_key(),
                hk@ == height_key(),
                label_glyphs(cs.take(i as int)) == Some(g@),
                forall|q: int| 0 <= q < g@.len() ==> (#[trigger] g@[q]).1 <= 255 && g@[q].2 <= 64,
            decreases self.chars.len() - i,
        {
            assert(cs.take(i + 1).drop_last() =~= cs.take(i as int));
            assert(cs.take(i + 1).last() == cs[i as int]);
            let id = self.chars[i].0;
            assert(cs[i as int].1 == self.chars@[i as int].1.deep_view());
            if id >= 0 {
                match char_from(id as u32) {
                    Some(c) => {
                        let a = metric_of(&self.chars[i].1, &xa);
                        let h = metric_of(&self.chars[i].1, &hk);
                        match (a, h) {
                            (Some(a), Some(h)) => {
                                if 0 <= a && a <= 255 && 0 <= h && h <= 64 {
                                    g.push((c, a as u16, h as u16));
                                } else {
                                    proof {
                                        lemma_glyphs_none(cs, i as int);
                                    }
                                    return None;
                                }
                            },
                            _ => {
                                proof {
                                    lemma_glyphs_none(cs, i as int);
                                }
                                return None;
                            },
                        }
                    },
                    None => {},
                }
            }
            i += 1;
        }
        assert(cs.take(i as int) =~= cs);
        Some(Glyphs { metrics: g })
    }
}

/// The seven metrics a glyph is drawn with.
pub open spec fn glyph_keys() -> Seq<Seq<char>> {
    seq![
        seq!['x'],
        seq!['y'],
        seq!['w', 'i', 'd', 't', 'h'],
        height_key(),
        seq!['x', 'o', 'f', 'f', 's', 'e', 't'],
        seq!['y', 'o', 'f', 'f', 's', 'e', 't'],
        xadvance_key(),
    ]
}

/// A glyph has all seven metrics it is drawn with.
pub open spec fn glyph_complete(m: Seq<(Seq<char>, i32)>) -> bool {
    &&& metric(m, glyph_keys()[0]) is Some
    &&& metric(m, glyph_keys()[1]) is Some
    &&& metric(m, glyph_keys()[2]) is Some
    &&& metric(m, glyph_keys()[3]) is Some
    &&& metric(m, glyph_keys()[4]) is Some
    &&& metric(m, glyph_keys()[5]) is Some
    &&& metric(m, glyph_keys()[6]) is Some
}

/// Every character of `t` that the font has comes with all seven metrics.
pub open spec fn row_drawable(cs: Seq<(i32, Seq<(Seq<char>, i32)>)>, t: Seq<char>) -> bool {
    forall|i: int|
        0 <= i < t.len() ==> (#[trigger] char_metrics(cs, t[i] as i32) matches Some(m) ==> glyph_complete(m))
}

/// Metric `k` of `m` as the drawing code takes it (cut to 16 bits).
pub open spec fn m16(m: Seq<(Seq<char>, i32)>, k: Seq<char>) -> i16 {
    metric(m, k)->0 as i16
}

/// Where the pen stands after `t`, from `x0`: each character the font has
/// moves it on by its advance (wrapping at 16 bits).
pub open spec fn row_x(cs: Seq<(i32, Seq<(Seq<char>, i32)>)>, t: Seq<char>, x0: i16) -> i16
    decreases t.len(),
{
    if t.len() == 0 {
        x0
    } else {
        let xp = row_x(cs, t.drop_last(), x0);
        match char_metrics(cs, t.last() as i32) {
            Some(m) => xp.wrapping_add(m16(m, xadvance_key())),
            None => xp,
        }
    }
}

/// The copies that draw `t` on `buf` from the font picture `pix`, the pen
/// starting at (`x0`, `y`): for each character the font has, its glyph's
/// rectangle put at the pen, moved by the glyph's offsets and 10 pixels up.
pub open spec fn row_requests(
    cs: Seq<(i32, Seq<(Seq<char>, i32)>)>,
    t: Seq<char>,
    gc: u32,
    pix: u32,
    buf: u32,
    x0: i16,
    y: i16,
) -> Seq<XRequest>
    decreases t.len(),
{
    if t.len() == 0 {
        Seq::empty()
    } else {
        let rest = row_requests(cs, t.drop_last(), gc, pix, buf, x0, y);
        let xp = row_x(cs, t.drop_last(), x0);
        match char_metrics(cs, t.last() as i32) {
            Some(m) => rest.push(
                XRequest::CopyArea {
                    src: Drawable::Pixmap(pix),
                    dst: Drawable::Pixmap(buf),
                    gc,
                    src_x: m16(m, seq!['x']),
                    src_y: m16(m, seq!['y']),
                    dst_x: xp.wrapping_add(m16(m, seq!['x', 'o', 'f', 'f', 's', 'e', 't'])),
                    dst_y: y.wrapping_add(m16(m, seq!['y', 'o', 'f', 'f', 's', 'e', 't'])).wrapping_sub(10),
                    width: metric(m, seq!['w', 'i', 'd', 't', 'h'])->0 as u16,
                    height: metric(m, height_key())->0 as u16,
                },
            ),
            None => rest,
        }
    }
}

impl Font {
    /// Whether the font has the character with code `id`.
    pub fn has_char(&self, id: i32) -> (r: bool)
        ensures
            r == (char_metrics(self.chars.deep_view(), id) is Some),
    {
        let ghost cs = self.chars.deep_view();
        let mut i = self.chars.len();
        assert(cs.take(i as int) =~= cs);
        while i > 0
            invariant
                i <= self.chars.len(),
                cs == self.chars.deep_view(),
                char_metrics(cs, id) == char_metrics(cs.take(i as int), id),
            decreases i,
        {
            assert(cs.take(i as int).drop_last() =~= cs.take(i - 1));
            assert(cs.take(i as int).last() == cs[i - 1]);
            if self.chars[i - 1].0 == id {
                return true;
            }
            i -= 1;
        }
        false
    }

    /// Whether every character of `text` that this font has comes with all
    /// seven metrics (see `row_drawable`).
    pub fn row_ok(&self, text: &Vec<char>) -> (r: bool)
        ensures
            r == row_drawable(self.chars.deep_view(), text@),
    {
        let ghost cs = self.chars.deep_view();
        let kx = vec!['x'];
        let ky = vec!['y'];
        let kw = vec!['w', 'i', 'd', 't', 'h'];
        let kh = vec!['h', 'e', 'i', 'g', 'h', 't'];
        let kxo = vec!['x', 'o', 'f', 'f', 's', 'e', 't'];
        let kyo = vec!['y', 'o', 'f', 'f', 's', 'e', 't'];
        let ka = vec!['x', 'a', 'd', 'v', 'a', 'n', 'c', 'e'];
        assert(kx@ =~= glyph_keys()[0]);
        assert(ky@ =~= glyph_keys()[1]);
        assert(kw@ =~= glyph_keys()[2]);
        assert(kh@ =~= glyph_keys()[3]);
        assert(kxo@ =~= glyph_keys()[4]);
        assert(kyo@ =~= glyph_keys()[5]);
        assert(ka@ =~= glyph_keys()[6]);
        let mut i: usize = 0;
        while i < text.len()
            invariant
                i <= text.len(),
                cs == self.chars.deep_view(),
                kx@ == glyph_keys()[0],
                ky@ == glyph_keys()[1],
                kw@ == glyph_keys()[2],
                kh@ == glyph_keys()[3],
                kxo@ == glyph_keys()[4],
                kyo@ == glyph_keys()[5],
                ka@ == glyph_keys()[6],
                forall|q: int|
                    0 <= q < i ==> (#[trigger] char_metrics(cs, text@[q] as i32) matches Some(m) ==> glyph_complete(m)),
            decreases text.len() - i,
        {
            let id = text[i] as i32;
            if self.has_char(id) {
                let complete = self.char_metric(id, &kx).is_some() && self.char_metric(id, &ky).is_some()
                    && self.char_metric(id, &kw).is_some() && self.char_metric(id, &kh).is_some()
                    && self.char_metric(id, &kxo).is_some() && self.char_metric(id, &kyo).is_some()
                    && self.char_metric(id, &ka).is_some();
                if !complete {
                    assert(!glyph_complete(char_metrics(cs, text@[i as int] as i32)->0));
                    assert(!row_drawable(cs, text@)) by {
                        let m = char_metrics(cs, text@[i as int] as i32);
                        assert(!(m matches Some(mm) ==> glyph_complete(mm)));
                    }
                    return false;
                }
            }
            i += 1;
        }
        true
    }

    /// Draws `text` on `buf` from this font's picture `pix` (see
    /// `row_requests`).
    pub fn row(&self, ctx: &mut Xcb, gc: u32, pix: u32, buf: u32, text: &Vec<char>, x: i16, y: i16)
        requires
            row_drawable(self.chars.deep_view(), text@),
        ensures
            final(ctx).pending@ == old(ctx).pending@ + row_requests(self.chars.deep_view(), text@, gc, pix, buf, x, y),
            final(ctx).next_id == old(ctx).next_id,
            final(ctx).same_setup(old(ctx)),
    {
        let ghost cs = self.chars.deep_view();
        let kx = vec!['x'];
        let ky = vec!['y'];
        let kw = vec!['w', 'i', 'd', 't', 'h'];
        let kh = vec!['h', 'e', 'i', 'g', 'h', 't'];
        let kxo = vec!['x', 'o', 'f', 'f', 's', 'e', 't'];
        let kyo = vec!['y', 'o', 'f', 'f', 's', 'e', 't'];
        let ka = vec!['x', 'a', 'd', 'v', 'a', 'n', 'c', 'e'];
        assert(kx@ =~= glyph_keys()[0]);
        assert(ky@ =~= glyph_keys()[1]);
        assert(kw@ =~= glyph_keys()[2]);
        assert(kh@ =~= glyph_keys()[3]);
        assert(kxo@ =~= glyph_keys()[4]);
        assert(kyo@ =~= glyph_keys()[5]);
        assert(ka@ =~= glyph_keys()[6]);
        let ghost start = ctx.pending@;
        let mut px = x;
        let mut i: usize = 0;
        assert(text@.take(0) =~= Seq::<char>::empty());
        assert(start =~= start + row_requests(cs, text@.take(0), gc, pix, buf, x, y));
        while i < text.len()
            invariant
                i <= text.len(),
                cs == self.chars.deep_view(),
                row_drawable(cs, text@),
                kx@ == glyph_keys()[0],
                ky@ == glyph_keys()[1],
                kw@ == glyph_keys()[2],
                kh@ == glyph_keys()[3],
                kxo@ == glyph_keys()[4],
                kyo@ == glyph_keys()[5],
                ka@ == glyph_keys()[6],
                px == row_x(cs, text@.take(i as int), x),
                ctx.pending@ == start + row_requests(cs, text@.take(i as int), gc, pix, buf, x, y),
                ctx.next_id == old(ctx).next_id,
                ctx.same_setup(old(ctx)),
            decreases text.len() - i,
        {
            let ghost t1 = text@.take(i + 1);
            assert(t1.drop_last() =~= text@.take(i as int));
            assert(t1.last() == text@[i as int]);
            let c = text[i];
            let id = c as i32;
            let sx = self.char_metric(id, &kx);
            if sx.is_some() {
                assert(char_metrics(cs, text@[i as int] as i32) is Some);
                let sx = sx.unwrap_or(0);
                let sy = self.char_metric(id, &ky).unwrap_or(0);
                let w = self.char_metric(id, &kw).unwrap_or(0);
                let h = self.char_metric(id, &kh).unwrap_or(0);
                let xo = self.char_metric(id, &kxo).unwrap_or(0);
                let yo = self.char_metric(id, &kyo).unwrap_or(0);
                let adv = self.char_metric(id, &ka).unwrap_or(0);
                ctx.copy(
                    gc,
                    Drawable::Pixmap(pix),
                    Drawable::Pixmap(buf),
                    sx as i16,
                    sy as i16,
                    px.wrapping_add(xo as i16),
                    y.wrapping_add(yo as i16).wrapping_sub(10),
                    w as u16,
                    h as u16,
                );
                px = px.wrapping_add(adv as i16);
            } else {
                assert(char_metrics(cs, c as i32) is None);
            }
            i += 1;
            assert(ctx.pending@ =~= start + row_requests(cs, text@.take(i as int), gc, pix, buf, x, y));
        }
        assert(text@.take(i as int) =~= text@);
    }
}

} // verus!
