use rex_player::choices::{choice_layout, row_size};
use rex_player::display::Xcb;
use rex_player::font::{fnt_document, Font};
use rex_player::ntree::{Nreq, Nvisual};
use rex_player::raster::{decode_png, fill_png, plane_pack, tree_pack, Nsprite};
use rex_player::scene::Nscene;
use rex_player::visual::Glyphs;
use rex_player::xproto::{Drawable, NAtoms, Nxcb, XRequest};
use std::io::Cursor;

fn png_of(w: u32, h: u32, rgba: Vec<u8>) -> Vec<u8> {
    let img = image::RgbaImage::from_raw(w, h, rgba).unwrap();
    let mut out = Cursor::new(Vec::new());
    img.write_to(&mut out, image::ImageFormat::Png).unwrap();
    out.into_inner()
}

fn atoms() -> NAtoms {
    NAtoms { wm_protocols: 40, wm_del_window: 41, wm_state: 42, wm_fullscreen: 43, wm_opacity: 44 }
}

#[test]
fn master_window_of_the_window_tree() {
    let mut ctx = Nxcb::new(0, 24, 33, atoms());
    let w = Nreq::new_window(&mut ctx, 0xFF00_0033);
    assert_eq!(w, 2);
    assert_eq!(ctx.gc, 3);
    assert!(matches!(ctx.drawable, Drawable::Window(2)));
    let sent = ctx.collect();
    assert_eq!(sent.len(), 2);
    match &sent[0] {
        XRequest::CreateWindow { wid, parent, width, height, back_pixel, event_mask, .. } => {
            assert_eq!((*wid, *parent, *width, *height), (2, 1, 1280, 720));
            assert_eq!(*back_pixel, Some(0xFF00_0033));
            assert_eq!(*event_mask, 0x100_804D);
        },
        other => panic!("{:?}", other),
    }
    match &sent[1] {
        XRequest::CreateGc { cid, values, .. } => {
            assert_eq!(*cid, 3);
            assert_eq!(values.foreground, Some(0xFFEE_EEEE));
            assert_eq!(values.background, Some(0xFF11_1111));
        },
        other => panic!("{:?}", other),
    }
}

#[test]
fn sheer_and_masked_resources() {
    let mut ctx = Nxcb::new(0, 24, 33, atoms());
    let w = Nreq::new_sheer_window(&mut ctx, 7, 0x123456);
    let gc = Nreq::new_masked_gc(&mut ctx, Drawable::Window(w), 9);
    let pix = Nreq::new_pixmap(&mut ctx, 10, 20);
    assert_eq!((w, gc, pix), (2, 3, 4));
    let sent = ctx.collect();
    assert!(matches!(sent[0], XRequest::CreateWindow { width: 96, height: 96, back_pixel: None, backing_pixel: Some(0x123456), .. }));
    match &sent[1] {
        XRequest::CreateGc { values, checked, .. } => {
            assert_eq!(values.clip_mask, Some(9));
            assert!(*checked);
        },
        other => panic!("{:?}", other),
    }
    assert!(matches!(sent[2], XRequest::CreatePixmap { pid: 4, width: 10, height: 20, depth: 24, .. }));
}

#[test]
fn scene_windows_are_built_and_fitted() {
    let sc = Nscene::new("<box bg=ff0000 w=50px h=40ph l=a.c t=a.s><dot r=x.e b=y.e w=10px h=5px></></>").unwrap();
    let mut ctx = Nxcb::new(0, 24, 33, atoms());
    let mut visuals = sc.build_in(&mut ctx, 99).unwrap();
    assert_eq!(visuals.len(), 3);
    let root = visuals[&sc.root.id];
    assert_eq!((root.width, root.height, root.window), (48, 48, 0));
    let bx = sc.root.children[0].id;
    let dot = sc.root.children[0].children[0].id;
    assert_eq!(visuals[&bx].bg, 0xff0000);
    assert_eq!(visuals[&bx].window, 2);
    assert_eq!(visuals[&dot].bg, 0xFF22_2255);
    assert_eq!(visuals[&dot].window, 3);
    let sent = ctx.collect();
    assert_eq!(sent.len(), 4);
    assert!(matches!(sent[0], XRequest::CreateWindow { wid: 2, parent: 99, back_pixel: Some(0xff0000), .. }));
    assert!(matches!(sent[1], XRequest::MapWindow { window: 2 }));

    assert!(sc.anchor_fit_to(&mut ctx, 0, 0, 200, 100, &mut visuals));
    assert_eq!(visuals.len(), 3);
    let b: Nvisual = visuals[&bx];
    assert_eq!((b.x, b.y, b.width, b.height), (100, 0, 50, 100));
    let d: Nvisual = visuals[&dot];
    assert_eq!((d.x, d.y, d.width, d.height), (2, 52, 10, 5));
    let sent = ctx.collect();
    assert_eq!(sent.len(), 4);
    assert!(matches!(sent[0], XRequest::MoveWindow { window: 2, x: 100, y: 0 }));
    assert!(matches!(sent[1], XRequest::ResizeWindow { window: 2, width: 50, height: 100 }));
}

#[test]
fn unreadable_backgrounds_and_edges_are_refused() {
    let sc = Nscene::new("<box bg=zz></>").unwrap();
    let mut ctx = Nxcb::new(0, 24, 33, atoms());
    assert!(sc.build_in(&mut ctx, 99).is_none());
    assert_eq!(ctx.collect().len(), 0);

    let sc = Nscene::new("<box l=c></>").unwrap();
    let mut visuals = sc.build_in(&mut ctx, 99).unwrap();
    ctx.collect();
    let before = visuals.clone();
    assert!(!sc.anchor_fit_to(&mut ctx, 0, 0, 10, 10, &mut visuals));
    assert_eq!(visuals, before);
    assert_eq!(ctx.collect().len(), 0);
}

#[test]
fn layer_bit_planes() {
    let rgba = vec![0, 0, 0, 255, 0, 0, 0, 0];
    assert_eq!(plane_pack(&rgba, 2, 1, false), vec![1, 0, 0, 0]);
    assert_eq!(plane_pack(&rgba, 2, 1, true), vec![254, 255, 255, 255]);
    assert_eq!(plane_pack(&Vec::new(), 0, 3, false), Vec::<u8>::new());
}

#[test]
fn window_tree_bit_planes() {
    let rgba = vec![0, 0, 0, 0, 0, 0, 0, 255];
    assert_eq!(tree_pack(&rgba, 2, 2, 1, 32), vec![0, 1, 0, 0]);
    assert_eq!(tree_pack(&rgba, 2, 2, 1, 9), vec![0, 1]);
    assert_eq!(tree_pack(&rgba, 2, 2, 1, -5), Vec::<u8>::new());
}

#[test]
fn pictures_are_decoded() {
    let png = png_of(2, 1, vec![1, 2, 3, 255, 4, 5, 6, 0]);
    let (p, w, h) = decode_png(&png).unwrap();
    assert_eq!((w, h), (2, 1));
    assert_eq!(p, vec![1, 2, 3, 255, 4, 5, 6, 0]);
    assert!(decode_png(&vec![1, 2, 3]).is_none());
    let f = fill_png(&png, 0, 4, 2).unwrap();
    assert_eq!(f.len(), 4 * 4 * 2);
    assert!(fill_png(&png, 1, 4, 2).is_none());
}

#[test]
fn layer_masks_and_images_from_files() {
    let png = png_of(2, 2, vec![0, 0, 0, 255, 0, 0, 0, 255, 0, 0, 0, 255, 0, 0, 0, 255]);
    let mut ctx = Xcb::new(0, 24, 33, 1920, 1080, 77);
    ctx.collect();
    let first = ctx.next_id;
    let pix = ctx.mask_from_file(Drawable::Window(5), &png, 1, false, 4, 4).unwrap();
    assert_eq!(pix, first);
    let sent = ctx.collect();
    assert_eq!(sent.len(), 5);
    assert!(matches!(sent[0], XRequest::CreatePixmap { width: 32, height: 4, depth: 1, .. }));
    assert!(matches!(sent[2], XRequest::FillRectangle { x: 0, y: 0, width: 4, height: 4, .. }));
    match &sent[3] {
        XRequest::PutImage { width, height, dst_x, dst_y, depth, data, .. } => {
            assert_eq!((*width, *height, *dst_x, *dst_y, *depth), (2, 2, 1, 1, 1));
            assert_eq!(data, &vec![3, 0, 0, 0, 3, 0, 0, 0]);
        },
        other => panic!("{:?}", other),
    }
    assert!(matches!(sent[4], XRequest::FreeGc { .. }));
    assert!(ctx.mask_from_file(Drawable::Window(5), &vec![0], 1, false, 4, 4).is_none());
    assert_eq!(ctx.collect().len(), 0);
    let img = ctx.new_img(Drawable::Window(5), &png, 0, 2, 2).unwrap();
    let sent = ctx.collect();
    assert_eq!(sent.len(), 4);
    assert!(matches!(sent[0], XRequest::CreatePixmap { pid, depth: 24, .. } if pid == img));
}

#[test]
fn window_tree_masks_images_and_sprites() {
    let png = png_of(2, 1, vec![0, 0, 0, 0, 0, 0, 0, 255]);
    let mut ctx = Nxcb::new(0, 24, 33, atoms());
    let m = Nreq::new_mask(&mut ctx, &png).unwrap();
    let sent = ctx.collect();
    assert_eq!(sent.len(), 3);
    assert!(matches!(sent[0], XRequest::CreatePixmap { pid, width: 32, height: 1, depth: 1, .. } if pid == m));
    match &sent[2] {
        XRequest::PutImage { data, width, .. } => {
            assert_eq!(*width, 32);
            assert_eq!(data, &vec![0, 1, 0, 0]);
        },
        other => panic!("{:?}", other),
    }
    let i = Nreq::new_img(&mut ctx, &png).unwrap();
    let sent = ctx.collect();
    assert!(matches!(sent[0], XRequest::CreatePixmap { pid, width: 2, height: 1, depth: 24, .. } if pid == i));
    let sp = Nsprite::new(&mut ctx, &png).unwrap();
    assert_eq!((sp.width, sp.height), (2, 1));
    ctx.collect();
    sp.dump(&mut ctx, 8);
    let sent = ctx.collect();
    assert!(matches!(sent[0], XRequest::CopyArea { dst: Drawable::Window(8), width: 2, height: 1, .. }));
    assert!(Nsprite::new(&mut ctx, &vec![9, 9]).is_none());
}

#[test]
fn font_descriptions_are_read() {
    let text = "info face=x\nchar id=65 x=1 y=2 width=3 height=20 xadvance=10\nchar id=66 x=5 y=2 width=3 height=30 xadvance=12\n";
    assert_eq!(
        fnt_document("char id=65 x=1 y=2").unwrap(),
        "{ \"65\":{\"x\": \"1\", \"y\": \"2\"} }"
    );
    let f = Font::from_fnt(text).unwrap();
    assert_eq!(f.chars.len(), 2);
    assert_eq!(f.chars[0].0, 65);
    assert_eq!(f.chars[0].1[3], ("height".to_string(), 20));
    assert_eq!(f.char_metric(66, &"xadvance".chars().collect()), Some(12));
    assert_eq!(f.char_metric(66, &"page".chars().collect()), None);
    assert_eq!(f.char_metric(67, &"x".chars().collect()), None);
    let g = f.glyphs().unwrap();
    assert_eq!(g.metrics, vec![('A', 10, 20), ('B', 12, 30)]);
    assert!(Font::from_fnt("info face=x\n").is_none());
    assert!(Font::from_fnt("char id=65 x=a").is_none());
    assert!(Font::from_fnt("char id=65  x=1").is_none());
    let tall = Font::from_fnt("char id=65 x=1 height=90 xadvance=3").unwrap();
    assert!(tall.glyphs().is_none());
    let odd = Font::from_fnt("char id=-1 x=1").unwrap();
    assert_eq!(odd.glyphs().unwrap().metrics.len(), 0);
}

#[test]
fn inverted_planes_are_complements() {
    let rgba = vec![9, 9, 9, 200, 9, 9, 9, 3, 9, 9, 9, 128];
    let plain = plane_pack(&rgba, 3, 1, false);
    let inv = plane_pack(&rgba, 3, 1, true);
    assert_eq!(plain.len(), inv.len());
    for (a, b) in plain.iter().zip(inv.iter()) {
        assert_eq!(*a, !*b);
    }
    let half = vec![0, 0, 0, 127];
    assert_eq!(plane_pack(&half, 1, 1, false)[0], 0);
    assert_eq!(plane_pack(&half, 1, 1, true)[0], 254);
}

#[test]
fn choice_lists_are_laid_out() {
    let g = Glyphs { metrics: vec![('a', 10, 20), ('b', 12, 30), ('H', 15, 40), ('i', 5, 22)] };
    assert_eq!(row_size(&g, &vec!['a', 'b', 'z']), (22, 30));
    let cells = choice_layout(&g, &vec!['a', ':', 'b'], &vec!['b'], 70, 37);
    let got: Vec<(String, i16, i16, u16, bool, i16, i16)> = cells
        .iter()
        .map(|c| (c.text.iter().collect(), c.x, c.y, c.width, c.selected, c.pad_x, c.pad_y))
        .collect();
    assert_eq!(
        got,
        vec![
            ("Choose...".to_string(), 16, 0, 70, false, 0, 14),
            ("a".to_string(), 0, 37, 10, false, 0, 4),
            ("b".to_string(), 10, 37, 10, true, -1, -1),
        ]
    );
}

#[test]
fn the_window_tree_connection_holds_its_atoms() {
    let c = Nxcb::new(0, 24, 33, atoms());
    assert!(c.atoms == atoms());
    assert_eq!(c.atoms.wm_del_window, 41);
    assert_eq!(c.root, 1);
}

#[test]
fn event_ids_are_fresh() {
    let mut c = Nxcb::new(0, 24, 33, atoms());
    c.select_input_cfg(5);
    c.select_input_cfg(5);
    let sent = c.collect();
    let eids: Vec<u32> = sent
        .iter()
        .filter_map(|r| match r {
            XRequest::SelectPresentInput { eid, .. } => Some(*eid),
            _ => None,
        })
        .collect();
    assert_eq!(eids, vec![2, 3]);
    assert!(c.next_id == 4);
    assert!(c.atoms == atoms());
}
