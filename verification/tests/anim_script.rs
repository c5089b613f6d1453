use rex_player::anim::{hover_step, Anim};
use rex_player::display::Xcb;
use rex_player::layer::{IconPaint, Layer};
use rex_player::script::{
    choice_index, event_script, media_source, parse_answer, play_next, show_name, split_key,
    toggle_selected, pick_choice, ChoiceHit, ClickTracker, DomApp, Lrhai, Rhai, ScriptEffect,
};
use rex_player::strmap::StrMap;
use rex_player::style::Style;
use rex_player::visual::Glyphs;
use rex_player::xproto::XRequest;

fn v(s: &str) -> Vec<char> {
    s.chars().collect()
}

fn ctx() -> Xcb {
    Xcb::new(0, 24, 33, 1920, 1080, 300)
}

#[test]
fn animation_takes_transition_from_style() {
    let st = Style::new("@fade { transition: 250; } @out { each: !x; cursor-visible: false; }").unwrap();
    let a = Anim::new(&st, "@in", "@fade", 7, 1000).unwrap();
    assert_eq!(a.transition, 250);
    assert_eq!(a.ends, 1250);
    let b = Anim::new(&st, "@in", "@other", 7, 1000).unwrap();
    assert_eq!(b.transition, 1000);
    let bad = Style::new("@x { transition: soon; }").unwrap();
    assert!(!Anim::transition_ok(&bad, "@x", 0));
    assert!(Anim::transition_ok(&st, "@fade", 1000));
    assert!(!Anim::transition_ok(&st, "@fade", u64::MAX - 100));
}

#[test]
fn animation_begins_and_ends_once() {
    let st = Style::new("@out { each: !x; cursor-visible: false; }").unwrap();
    let mut a = Anim::new(&st, "plain", "@out", 0, 100).unwrap();
    let mut c = ctx();
    let mut layers: Vec<Layer> = Vec::new();
    assert_eq!(a.update(&mut layers, &st, &mut c, 50), Some(false));
    assert_eq!(a.update(&mut layers, &st, &mut c, 100), Some(true));
    assert!(a.begun);
    assert_eq!(a.update(&mut layers, &st, &mut c, 200), Some(true));
    assert!(!a.over);
    c.collect();
    assert_eq!(a.update(&mut layers, &st, &mut c, 1100), Some(true));
    assert!(a.over);
    let reqs = c.collect();
    assert!(matches!(reqs[0], XRequest::SetCursor { blank: true, .. }));
    assert_eq!(a.update(&mut layers, &st, &mut c, 1200), Some(false));
    a.reset(5, 2000);
    assert!(!a.begun && !a.over);
    assert_eq!((a.target, a.started, a.ends), (5, 2000, 3000));
}

#[test]
fn animations_take_any_selector() {
    let st = Style::new("@out { each: !x; }").unwrap();
    let mut a = Anim::new(&st, "", "\u{e9}t\u{e9}", 3, 100).unwrap();
    assert_eq!(a.start_sel, "");
    assert_eq!(a.transition, 1000);
    let mut c = ctx();
    c.collect();
    let mut layers: Vec<Layer> = Vec::new();
    // neither state can be named: applying one fails and changes nothing
    assert_eq!(a.update(&mut layers, &st, &mut c, 100), None);
    assert!(a.begun);
    assert!(c.collect().is_empty());
    assert_eq!(a.update(&mut layers, &st, &mut c, 1200), None);
    assert!(a.over);
    assert!(c.collect().is_empty());
}

#[test]
fn answers_read_as_pairs() {
    let m = parse_answer("a.content\nhello\n_\n?\n\nx\nb.visible\ntrue\nodd");
    assert_eq!(m.len(), 2);
    assert_eq!(m.get(&v("a.content")).map(|s| s.as_str()), Some("hello"));
    assert_eq!(m.get(&v("_")), None);
    let m2 = parse_answer("k\n1\nk\n2\n");
    assert_eq!(m2.get(&v("k")).map(|s| s.as_str()), Some("2"));
}

#[test]
fn result_keys_split_on_dots() {
    assert_eq!(split_key(&v("menu.visible")), (v("menu"), v("visible")));
    assert_eq!(split_key(&v("menu")), (v("menu"), v("")));
    assert_eq!(split_key(&v("a.b.c")), (v("a"), v("b")));
}

#[test]
fn choices_toggle_and_undo() {
    assert_eq!(toggle_selected(&v(""), &v("Jazz")), v("Jazz"));
    assert_eq!(toggle_selected(&v("Jazz"), &v("Rock")), v("Jazz:Rock"));
    assert_eq!(toggle_selected(&v("Jazz:Rock"), &v("Jazz")), v("Rock"));
    assert_eq!(toggle_selected(&v("Jazz"), &v("Jazz")), v(""));
    let once = toggle_selected(&v("Pop:Soul"), &v("Funk"));
    assert_eq!(toggle_selected(&once, &v("Funk")), v("Pop:Soul"));
}

#[test]
fn clicks_land_on_choice_cells() {
    assert!(matches!(choice_index(100, 10, 700, 1), ChoiceHit::Stop));
    assert!(matches!(choice_index(100, 50, 700, 3), ChoiceHit::Stop));
    assert!(matches!(choice_index(100, 50, 700, 1), ChoiceHit::Cell(1)));
    assert!(matches!(choice_index(650, 80, 700, 1), ChoiceHit::Cell(13)));
    assert!(matches!(choice_index(100, 50, 0, 1), ChoiceHit::Fault));
    assert!(matches!(choice_index(-100, 40, 700, 1), ChoiceHit::Miss));
}

#[test]
fn show_names_come_from_the_path() {
    assert_eq!(show_name(&v("/m/TV/Lost/Season 01/e1.mkv")), Some(v("Lost")));
    assert_eq!(show_name(&v("/m/TV/Lost/e1.mkv")), Some(v("TV")));
    assert_eq!(show_name(&v("a/b")), None);
    assert_eq!(show_name(&v("Season 1/x/y")), None);
}

#[test]
fn event_calls_and_sources() {
    assert_eq!(
        event_script(&v("menu"), &v("b-up"), &v("1")),
        "on_event(eve,\"menu\",\"b-up\",0,0,1)"
    );
    assert_eq!(media_source(&v("?pick()")), Some(true));
    assert_eq!(media_source(&v("/x.mp3")), Some(false));
    assert_eq!(media_source(&v("")), None);
    assert_eq!(media_source(&v("école")), None);
}

fn globals(pairs: &[(&str, &str)]) -> StrMap {
    let mut g = StrMap::new();
    for (k, val) in pairs {
        g.insert(&v(k), &v(val));
    }
    g
}

#[test]
fn play_position_moves_on_for_unwatched_shows() {
    let g = globals(&[("is_unwatched", "true"), ("play_idx", "4"), ("file_idx", "4"), ("cur_show", "Lost")]);
    assert_eq!(play_next(&g, &v("qfull")), Some(Some(("Lost".to_string(), "5".to_string()))));
    assert_eq!(play_next(&g, &v("q1")), Some(None));
    let g2 = globals(&[("is_unwatched", "true"), ("play_idx", "x"), ("file_idx", "x"), ("cur_show", "Lost")]);
    assert_eq!(play_next(&g2, &v("qfull")), None);
}

#[test]
fn double_clicks_and_long_presses() {
    let mut t = ClickTracker::new();
    let id = v("menu");
    assert_eq!(t.release(1, 1_000_000_000, Some(&id)), None);
    let dbl = t.release(1, 1_100_000_000, Some(&id)).expect("double");
    assert_eq!(dbl, "on_event(eve,\"menu\",\"b-dbl\",0,0,1)");
    assert_eq!(t.ups.len(), 0);
    assert_eq!(t.release(1, 2_000_000_000, Some(&id)), None);
    let calls = t.expire(2_300_000_000);
    assert_eq!(calls, vec!["on_event(eve,\"menu\",\"b-up\",0,0,1)".to_string()]);
    t.press(1, 3_000_000_000, Some(&id));
    assert!(t.expire(3_400_000_000).is_empty());
    let long = t.expire(3_600_000_000);
    assert_eq!(long, vec!["on_event(eve,\"menu\",\"b-long\",0,0,1)".to_string()]);
    assert_eq!(t.ignore_next, 1);
    assert_eq!(t.release(1, 3_700_000_000, Some(&id)), None);
    assert_eq!(t.ignore_next, 255);
    assert_eq!(t.ups.len(), 0);
}

#[test]
fn script_engine_evaluates() {
    let l = Lrhai::new();
    assert_eq!(l.exec("\"ab\" + \"c\""), Some("abc".to_string()));
    assert_eq!(l.exec("1 +"), None);
    let args = vec!["rex".to_string(), "/media".to_string(), "-nsfw".to_string()];
    let r = Rhai::new(&args);
    assert_eq!(r.base, "/media");
    assert!(r.allow_nsfw);
    assert_eq!(r.startup_call(), "startup(true,\"/media\",false);");
    let r2 = Rhai::new(&vec!["rex".to_string(), "/m".to_string()]);
    assert!(!r2.allow_nsfw);
}

const COMMON: &str = "fn result_init(a, b) { \"\" } fn result(e, k, v) { e + k + \"\\n\" + v + \"\\n\" } fn result_complete(e) { e } fn on_event(e, id, ev, x, y, arg) { e + id + \"\\n\" + ev + \"\\n\" }";

#[test]
fn evaluation_reports_globals_and_events() {
    let engine = rhai::Engine::new();
    let mut scope = rhai::Scope::new();
    scope.push("curlib", "Music");
    scope.push("base", "/m");
    let g = globals(&[("is_shuffle", "true"), ("title", "Song")]);
    let m = DomApp::eval(&g, &mut scope, "on_event(eve,\"menu\",\"loaded\",0,0,\"\")", &engine, COMMON).expect("eval");
    assert_eq!(m.get(&v("is_shuffle")).map(|s| s.as_str()), Some("true"));
    assert_eq!(m.get(&v("title")).map(|s| s.as_str()), Some("Song"));
    assert_eq!(scope.get_value::<bool>("is_shuffle"), Some(true));
    let bad = globals(&[("is_x", "maybe")]);
    assert!(!DomApp::globals_reportable(&bad));
    let short = globals(&[("ab", "1")]);
    assert!(!DomApp::globals_reportable(&short));
    assert!(DomApp::globals_reportable(&g));
}

#[test]
fn results_drive_the_application() {
    let app = DomApp::new("/m".to_string());
    let st = Style::new("lbl { fg: 00ff00; }").unwrap();
    let g = Glyphs { metrics: vec![('x', 8, 20)] };
    let mut c = ctx();
    let layer = Layer::new("players", "<media id=q1>a.mp3</><lbl id=t>x</>", &mut c, 2, 0, 0).unwrap();
    let mut layers = vec![("players".to_string(), layer)];
    let mut gl = StrMap::new();
    let quit = app.apply_script_result(&mut gl, &mut layers, &st, &mut c, &g, &v("app"), &v("control"), &v("quit")).unwrap();
    assert!(matches!(quit[0], ScriptEffect::Quit));
    let set = app.apply_script_result(&mut gl, &mut layers, &st, &mut c, &g, &v("globals"), &v("mode"), &v("tv")).unwrap();
    assert!(matches!(&set[0], ScriptEffect::Evaluate(e) if e.is_empty()));
    assert!(app.apply_script_result(&mut gl, &mut layers, &st, &mut c, &g, &v("globals"), &v("mode"), &v("tv")).unwrap().is_empty());
    let seek = app.apply_script_result(&mut gl, &mut layers, &st, &mut c, &g, &v("q1"), &v("seek-rel"), &v("-10")).unwrap();
    let w = layers[0].1.root_visual.children[0].window;
    assert!(matches!(seek[0], ScriptEffect::Control(win, 180990) if win == w));
    let die = app.apply_script_result(&mut gl, &mut layers, &st, &mut c, &g, &v("q1"), &v("act"), &v("die")).unwrap();
    assert!(matches!(die[0], ScriptEffect::Die(win) if win == w));
    assert!(matches!(&die[1], ScriptEffect::Evaluate(e) if e == "on_event(eve,\"q1.act\",\"change\",0,0,\"die\")"));
    // an action shorter than three bytes cannot be read
    assert!(app.apply_script_result(&mut gl, &mut layers, &st, &mut c, &g, &v("q1"), &v("x"), &v("1")).is_none());
    let shown = app.apply_script_result(&mut gl, &mut layers, &st, &mut c, &g, &v("t"), &v("visible"), &v("!")).unwrap();
    assert!(shown.is_empty());
    assert!(!layers[0].1.root_visual.children[1].visible);
    let attr = app.apply_script_result(&mut gl, &mut layers, &st, &mut c, &g, &v("t"), &v("is_on"), &v("!")).unwrap();
    assert!(matches!(&attr[0], ScriptEffect::Evaluate(e) if e == "on_event(eve,\"t.is_on\",\"change\",0,0,\"true\")"));
    let checked = app.apply_script_result(&mut gl, &mut layers, &st, &mut c, &g, &v("t"), &v("checked"), &v("true")).unwrap();
    assert!(checked.is_empty());
    assert_eq!(layers[0].1.root_visual.children[1].fg, 0xFF00FF00);
    assert!(app.apply_script_result(&mut gl, &mut layers, &st, &mut c, &g, &v("t"), &v("checked"), &v("yes")).is_none());
    let none = app.apply_script_result(&mut gl, &mut layers, &st, &mut c, &g, &v("_"), &v(""), &v("?")).unwrap();
    assert!(none.is_empty());
}

#[test]
fn results_clone_and_restart_players() {
    let app = DomApp::new("/m".to_string());
    let st = Style::new("lbl { fg: 00ff00; }").unwrap();
    let g = Glyphs { metrics: vec![('x', 8, 20)] };
    let mut c = ctx();
    let layer = Layer::new("players", "<media id=q1>a.mp3</><media id=q2>b.mp3</>", &mut c, 2, 0, 0).unwrap();
    let mut layers = vec![("players".to_string(), layer)];
    let mut gl = StrMap::new();
    let w1 = layers[0].1.root_visual.children[0].window;
    let w2 = layers[0].1.root_visual.children[1].window;
    let cloned = app.apply_script_result(&mut gl, &mut layers, &st, &mut c, &g, &v("q2"), &v("clone"), &v("q1")).unwrap();
    assert!(matches!(cloned[0], ScriptEffect::Clone(f, t) if f == w1 && t == w2));
    // the window to copy from is missing: nothing at all happens
    let pending = c.pending.len();
    let missing = app.apply_script_result(&mut gl, &mut layers, &st, &mut c, &g, &v("q2"), &v("clone"), &v("zz")).unwrap();
    assert!(missing.is_empty());
    assert_eq!(c.pending.len(), pending);
    // the window to copy into is missing: the result cannot be applied
    assert!(!DomApp::players_ready_for(&layers, &v("zz"), &v("clone"), &v("q1")));
    assert!(DomApp::players_ready_for(&layers, &v("q2"), &v("clone"), &v("zz")));
    assert!(DomApp::players_ready_for(&layers, &v("zz"), &v("act"), &v("die")));
    let all = app.apply_script_result(&mut gl, &mut layers, &st, &mut c, &g, &v("*"), &v("act"), &v("die")).unwrap();
    assert_eq!(all.len(), 1);
    assert!(matches!(all[0], ScriptEffect::Rebuild));
    let nobody = app.apply_script_result(&mut gl, &mut layers, &st, &mut c, &g, &v("zz"), &v("act"), &v("die")).unwrap();
    assert!(nobody.is_empty());
    let mut menus = vec![("menu".to_string(), Layer::new("menu", "<lbl id=t>x</>", &mut c, 2, 0, 0).unwrap())];
    assert!(!DomApp::players_ready_for(&menus, &v("q1"), &v("act"), &v("die")));
    assert!(!DomApp::players_ready_for(&menus, &v("q1"), &v("clone"), &v("q2")));
    assert!(DomApp::players_ready_for(&menus, &v("*"), &v("act"), &v("die")));
    assert!(DomApp::players_ready_for(&menus, &v("globals"), &v("clone"), &v("q2")));
    // no visual answers: the other layers are left as they were
    let untouched = app.apply_script_result(&mut gl, &mut menus, &st, &mut c, &g, &v("zz"), &v("label"), &v("y")).unwrap();
    assert!(untouched.is_empty());
}

#[test]
fn hiding_a_choice_list_reports_its_selection() {
    let app = DomApp::new("/m".to_string());
    let st = Style::new("lbl { fg: 00ff00; }").unwrap();
    let g = Glyphs { metrics: vec![('x', 8, 20)] };
    let mut c = ctx();
    let layer = Layer::new("menu", "<choices id=c selected=b>x</>", &mut c, 2, 0, 0).unwrap();
    let mut layers = vec![("menu".to_string(), layer)];
    let mut gl = StrMap::new();
    let hidden = app.apply_script_result(&mut gl, &mut layers, &st, &mut c, &g, &v("c"), &v("visible"), &v("false")).unwrap();
    assert_eq!(hidden.len(), 1);
    assert!(matches!(&hidden[0], ScriptEffect::Evaluate(e) if e == "on_event(eve,\"c.selected\",\"change\",0,0,\"b\")"));
    assert_eq!(gl.get(&v("c_selected")).map(|s| s.as_str()), Some("b"));
    assert!(!layers[0].1.root_visual.children[0].visible);
    let shown = app.apply_script_result(&mut gl, &mut layers, &st, &mut c, &g, &v("c"), &v("visible"), &v("true")).unwrap();
    assert!(shown.is_empty());
    // hidden again with the same selection: nothing to report
    let again = app.apply_script_result(&mut gl, &mut layers, &st, &mut c, &g, &v("c"), &v("visible"), &v("false")).unwrap();
    assert!(again.is_empty());
}

#[test]
fn evaluation_programs_report_and_store_globals() {
    let g = globals(&[("mode", "tv"), ("is_on", "!"), ("play_idx", "3")]);
    let mut scope = rhai::Scope::new();
    let p = DomApp::eval_program(&g, &mut scope, "x", "C").unwrap();
    assert_eq!(
        p,
        "C;let eve = result_init(curlib,base);\
         eve = result(eve,\"mode\",\"tv\");eve = result(eve,\"is_on\",true);eve = result(eve,\"play_idx\",3);\
         eve = on_event(eve,\"globals.mode\",\"change\",0,0,0);eve = on_event(eve,\"globals.is_on\",\"change\",0,0,0);\
         eve = on_event(eve,\"globals.play_idx\",\"change\",0,0,0);eve = x;return result_complete(eve);"
    );
    assert_eq!(scope.get_value::<String>("mode"), Some("tv".to_string()));
    assert_eq!(scope.get_value::<bool>("is_on"), Some(true));
    assert_eq!(scope.get_value::<i64>("play_idx"), Some(3));
    // the second time only the toggled flag changes
    let p2 = DomApp::eval_program(&g, &mut scope, "", "C").unwrap();
    assert_eq!(
        p2,
        "C;let eve = result_init(curlib,base);\
         eve = result(eve,\"mode\",\"tv\");eve = result(eve,\"is_on\",false);eve = result(eve,\"play_idx\",3);\
         eve = on_event(eve,\"globals.is_on\",\"change\",0,0,0);return result_complete(eve);"
    );
    assert_eq!(scope.get_value::<bool>("is_on"), Some(false));
    // a constant that would have to change
    let mut fixed = rhai::Scope::new();
    fixed.push_constant("mode", "radio".to_string());
    assert!(DomApp::eval_program(&g, &mut fixed, "x", "C").is_none());
}

#[test]
fn reporting_twice_is_quiet() {
    let g = globals(&[("mode", "tv"), ("is_on", "true"), ("play_idx", "3")]);
    let mut scope = rhai::Scope::new();
    let first = DomApp::eval_program(&g, &mut scope, "", "C").unwrap();
    assert_eq!(first.matches("on_event").count(), 3);
    let second = DomApp::eval_program(&g, &mut scope, "", "C").unwrap();
    assert_eq!(
        second,
        "C;let eve = result_init(curlib,base);\
         eve = result(eve,\"mode\",\"tv\");eve = result(eve,\"is_on\",true);eve = result(eve,\"play_idx\",3);\
         return result_complete(eve);"
    );
}

#[test]
fn the_pointer_at_rest_moves_the_hover() {
    let icon: Vec<char> = "i".chars().collect();
    let label: Vec<char> = "lbl".chars().collect();
    let media: Vec<char> = "media".chars().collect();
    let none = hover_step(0, 7, Some(&icon));
    assert!(!none.overlay && !none.end_previous && !none.start);
    let same = hover_step(7, 7, Some(&media));
    assert!(same.overlay && !same.end_previous && same.start);
    let to_icon = hover_step(9, 7, Some(&icon));
    assert!(to_icon.overlay && to_icon.end_previous && to_icon.start);
    let to_label = hover_step(9, 7, Some(&label));
    assert!(to_label.start);
    let to_media = hover_step(9, 7, Some(&media));
    assert!(to_media.overlay && to_media.end_previous && !to_media.start);
    let nowhere = hover_step(9, 7, None);
    assert!(nowhere.end_previous && !nowhere.start);
}

#[test]
fn icons_are_painted_media_first() {
    let mut c = ctx();
    let mut layer = Layer::new("menu", "<lbl id=t>x</><i id=k>y</><media id=q>a.mp3</>", &mut c, 2, 0, 0).unwrap();
    let tags: Vec<String> = layer.icons().iter().map(|v| v.tag.clone()).collect();
    assert_eq!(tags, vec!["media".to_string(), "i".to_string(), "lbl".to_string()]);
    let v = &mut layer.root_visual.children[0];
    v.visible = true;
    v.mask = 5;
    v.inv_mask = 6;
    v.bg = 0;
    assert!(matches!(v.icon_paint(), IconPaint::Through));
    v.bg = 0xff00ff00;
    assert!(matches!(v.icon_paint(), IconPaint::Fill));
    v.mask = 0;
    assert!(matches!(v.icon_paint(), IconPaint::Skip));
    v.mask = 5;
    v.visible = false;
    assert!(matches!(v.icon_paint(), IconPaint::Skip));
}

#[test]
fn a_clicked_choice_toggles_its_item() {
    assert_eq!(pick_choice(&v("Jazz:Rock:Pop"), &v("Jazz"), 1), Some(v("Jazz:Rock")));
    assert_eq!(pick_choice(&v("Jazz:Rock:Pop"), &v(""), 2), Some(v("Pop")));
    assert_eq!(pick_choice(&v("Jazz:Rock"), &v("Jazz"), 2), None);
    assert_eq!(pick_choice(&v(""), &v(""), 0), Some(v("")));
}
