use rex_player::display::Xcb;
use rex_player::layer::Layer;
use rex_player::style::Style;
use rex_player::visual::{Glyphs, Visual};
use rex_player::xproto::{Drawable, XRequest};

fn v(s: &str) -> Vec<char> {
    s.chars().collect()
}

fn ctx() -> Xcb {
    Xcb::new(0, 24, 33, 1920, 1080, 300)
}

fn glyphs() -> Glyphs {
    Glyphs { metrics: vec![('a', 10, 20), ('b', 12, 30), ('H', 15, 40), ('i', 5, 22)] }
}

const SHEET: &str = "@root { fg: 880088; } lbl { fg: ff0000; w: 100px; } #title { bg: 0; visible: false; }";

#[test]
fn style_sheet_reads_rules() {
    let st = Style::new(SHEET).expect("sheet");
    assert_eq!(st.rules.len(), 3);
    assert_eq!(st.prop_get(&v("lbl"), &v("fg"), &v("x")), v("ff0000"));
    assert_eq!(st.prop_get(&v("lbl"), &v("h"), &v("x")), v("x"));
    assert_eq!(st.prop_get(&v("nope"), &v("fg"), &v("d")), v("d"));
    assert!(Style::new("lbl { fg: 1").is_none());
}

#[test]
fn colours() {
    assert_eq!(Style::color_from_str(&v("transparent")), 0);
    assert_eq!(Style::color_from_str(&v("0")), 0);
    assert_eq!(Style::color_from_str(&v("ff0000")), 0xFFFF0000);
    assert!(Style::color_valid(&v("12ab")));
    assert!(!Style::color_valid(&v("red")));
}

const VIEW: &str = "<box id=top><lbl id=title>Hi</><lbl id=sub cnt-enum=a|b|c>b</><media id=qfull>x</></>";

#[test]
fn layer_builds_visuals_in_document_order() {
    let mut c = ctx();
    let l = Layer::new("main", VIEW, &mut c, 2, 0, 0).expect("layer");
    assert_eq!(l.file, "main");
    // the document root has no head: its tag reads "null"
    assert_eq!(l.root_visual.tag, "null");
    assert_eq!(l.root_visual.window, 6);
    assert_eq!(l.root_visual.children.len(), 1);
    let top = &l.root_visual.children[0];
    assert_eq!(top.tag, "box");
    assert_eq!(top.children.len(), 3);
    assert_eq!(l.select("lbl").len(), 2);
    assert_eq!(l.select("media").len(), 1);
    assert_eq!(l.select("*").len(), 0);
    let p = l.select_visual(&v("#sub")).expect("sub");
    assert_eq!(p, vec![0, 1]);
    let w = top.children[2].window;
    assert_eq!(l.visual_by_res(w), Some(vec![0, 2]));
    assert_eq!(l.visual_by_res(999), None);
    // media boxes get windows without exposures
    let reqs = c.collect();
    let media_window = reqs.iter().any(|r| matches!(r, XRequest::CreateWindow { wid, event_mask, .. } if *wid == w && *event_mask == 0x4d));
    assert!(media_window);
}

#[test]
fn bad_views_are_refused() {
    let mut c = ctx();
    assert!(Layer::new("f", "<box id>x</>", &mut c, 2, 0, 0).is_none());
    assert!(Layer::new("f", "<box visible=maybe>x</>", &mut c, 2, 0, 0).is_none());
    assert!(Layer::new("f", "<box", &mut c, 2, 0, 0).is_none());
}

#[test]
fn labels_are_cut_and_measured() {
    let mut c = ctx();
    let mut l = Layer::new("main", "<lbl id=t>x</>", &mut c, 2, 0, 0).expect("layer");
    let g = glyphs();
    let lbl = &mut l.root_visual.children[0];
    let long = v(&"ab".repeat(40));
    assert!(lbl.set_content(&mut c, &g, Drawable::Window(2), &long));
    assert_eq!(lbl.content.len(), 50);
    // 25 x 'a' (10) + 25 x 'b' (12), tallest 30: pad (64-30)/2 = 17
    assert_eq!(lbl.width, 25 * 10 + 25 * 12 + 2 * 17);
    assert_eq!(lbl.height, 64);
    let reqs = c.collect();
    let last = reqs.len();
    assert!(matches!(reqs[last - 1], XRequest::ResizeWindow { width: 584, height: 64, .. }));
    assert!(matches!(reqs[last - 2], XRequest::MoveWindow { x: 0, y: 0, .. }));
    // a cut inside a multi-byte character fails, as slicing would
    let mut odd = v(&"a".repeat(49));
    odd.push('é');
    assert!(!lbl.set_content(&mut c, &g, Drawable::Window(2), &odd));
}

#[test]
fn content_steps_through_enumeration() {
    let mut c = ctx();
    let mut l = Layer::new("main", "<box cnt-enum=a|b|c>b</>", &mut c, 2, 0, 0).expect("layer");
    let g = glyphs();
    let b = &mut l.root_visual.children[0];
    assert!(b.set_content(&mut c, &g, Drawable::Window(2), &v(">>")));
    assert_eq!(b.content, "c");
    assert!(b.set_content(&mut c, &g, Drawable::Window(2), &v(">>")));
    assert_eq!(b.content, "a");
    let mut l2 = Layer::new("main", "<box>b</>", &mut c, 2, 0, 0).expect("layer");
    assert!(!l2.root_visual.children[0].set_content(&mut c, &g, Drawable::Window(2), &v(">>")));
}

#[test]
fn attributes_place_children() {
    let mut c = ctx();
    let view = "<box w=50pw h=100px><i id=a w=10px h=20px r=p.e b=p.e>x</><i id=b w=30px h=30px l=l.e t=5px>y</></>";
    let mut l = Layer::new("main", view, &mut c, 2, 0, 0).expect("layer");
    let g = glyphs();
    assert!(l.fit_all(&mut c, &g, Drawable::Window(2), 800, 600));
    let bx = &l.root_visual.children[0];
    assert_eq!((bx.width, bx.height), (400, 100));
    let a = &bx.children[0];
    assert_eq!((a.x, a.y, a.width, a.height), (390, 80, 10, 20));
    let b = &bx.children[1];
    // l.e: after the previous sibling's right edge (its width plus its x)
    assert_eq!((b.x, b.y), (400, 5));
    assert_eq!(b.iax, bx.ax);
}

#[test]
fn style_applies_rules_and_shows() {
    let st = Style::new(SHEET).expect("sheet");
    let mut c = ctx();
    let mut l = Layer::new("main", "<lbl id=title>x</>", &mut c, 2, 0, 0).expect("layer");
    let vis: &mut Visual = &mut l.root_visual.children[0];
    c.collect();
    assert!(st.apply(&mut c, vis, 800, 600));
    assert_eq!(vis.fg, 0xFFFF0000);
    assert_eq!(vis.bg, 0);
    assert_eq!(vis.width, 100);
    assert!(!vis.visible);
    let reqs = c.collect();
    assert!(matches!(reqs[0], XRequest::UnmapWindow { .. }));
    assert_eq!(st.prop_find(vis, &v("visible"), &v("true")), v("false"));
}

#[test]
fn show_hide_and_demolish_queue_requests() {
    let mut c = ctx();
    let l = Layer::new("main", "<box id=a><i id=b>x</></>", &mut c, 2, 0, 0).expect("layer");
    c.collect();
    l.visibility(false, &mut c);
    let hidden = c.collect();
    assert_eq!(hidden.len(), 2);
    l.visibility(true, &mut c);
    assert_eq!(c.collect().len(), 2);
    l.root_visual.demolish(&mut c);
    let torn = c.collect();
    assert!(matches!(torn[0], XRequest::UnmapWindow { .. }));
    assert_eq!(torn.len(), 3);
}

#[test]
fn a_label_queues_its_surfaces_in_order() {
    let mut c = ctx();
    let mut l = Layer::new("main", "<lbl id=t>ab</>", &mut c, 2, 0, 0).expect("layer");
    let g = glyphs();
    let _ = c.collect();
    let lbl = &mut l.root_visual.children[0];
    let old: Vec<u32> = vec![lbl.buf, lbl.mask, lbl.inv_mask].into_iter().filter(|p| *p != 0).collect();
    assert!(lbl.set_content(&mut c, &g, Drawable::Window(2), &v("ba")));
    let reqs = c.collect();
    let k = old.len();
    assert_eq!(reqs.len(), k + 7);
    for (i, p) in old.iter().enumerate() {
        assert!(matches!(reqs[i], XRequest::FreePixmap { pixmap } if pixmap == *p));
    }
    // 'b' (12) + 'a' (10), tallest 30: pad 17, width 56; masks padded to 64
    let buf = lbl.buf;
    assert!(matches!(reqs[k], XRequest::CreatePixmap { pid, width: 56, height: 64, depth: 24, .. } if pid == buf));
    assert!(matches!(reqs[k + 1], XRequest::CreateGc { .. }));
    assert!(matches!(reqs[k + 2], XRequest::FillRectangle { width: 56, height: 64, .. }));
    assert!(matches!(reqs[k + 3], XRequest::CreatePixmap { width: 64, height: 64, depth: 1, .. }));
    assert!(matches!(reqs[k + 4], XRequest::CreatePixmap { width: 64, height: 64, depth: 1, .. }));
    assert!(matches!(reqs[k + 5], XRequest::MoveWindow { .. }));
    assert!(matches!(reqs[k + 6], XRequest::ResizeWindow { width: 56, height: 64, .. }));
}

#[test]
fn a_new_layer_creates_one_window_per_visual() {
    let mut c = ctx();
    let _ = c.collect();
    let l = Layer::new("main", "<lbl id=t>x</><media id=m>a.mp3</>", &mut c, 2, 0, 0).expect("layer");
    let reqs = c.collect();
    // the layer's root, then its children, all under the layer's window
    assert_eq!(reqs.len(), 3);
    let wins = [l.root_visual.window, l.root_visual.children[0].window, l.root_visual.children[1].window];
    for (r, w) in reqs.iter().zip(wins.iter()) {
        assert!(matches!(r, XRequest::CreateWindow { wid, parent: 2, width: 64, height: 64, depth: 24, visual: 33,
            back_pixel: Some(0xFF10_1010), cursor_none: true, .. } if wid == w));
    }
    if let (XRequest::CreateWindow { event_mask: a, .. }, XRequest::CreateWindow { event_mask: b, .. }) = (&reqs[1], &reqs[2]) {
        // media windows do not listen to exposures
        assert_eq!(*a, *b | 0x8000);
    }
}
