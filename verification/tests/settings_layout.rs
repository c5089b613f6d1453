use rex_player::layout::{visual_anchor_of, visual_calc, visual_size_valid};
use rex_player::scene::Nscene;
use rex_player::settings::{lookup, parse_settings, render_settings, store};
use rex_player::script::DomApp;

fn v(s: &str) -> Vec<char> {
    s.chars().collect()
}

#[test]
fn settings_read_key_value_lines() {
    let m = parse_settings("play_idx:3\nvolume:80\nbroken line\n");
    assert_eq!(m.len(), 2);
    assert_eq!(lookup("play_idx:3\nvolume:80\n", "volume", "50"), "80");
    assert_eq!(lookup("play_idx:3\n", "volume", "50"), "50");
    assert_eq!(lookup("a:b:c\n", "a", "?"), "b");
}

#[test]
fn settings_store_then_read() {
    let t = store("play_idx:3\nvolume:80\n", "play_idx", "4");
    assert_eq!(lookup(&t, "play_idx", ""), "4");
    assert_eq!(lookup(&t, "volume", ""), "80");
    let t2 = DomApp::setting_set("cur", "x", "");
    assert_eq!(DomApp::setting_get("cur", &t2, "none"), "x");
    let all = DomApp::settings_all(&t);
    assert_eq!(render_settings(&all), t);
}

#[test]
fn layer_sizes() {
    assert!(visual_size_valid(&v("50pw"), 800, 600));
    assert_eq!(visual_calc(&v("50pw"), 800, 600), 400);
    assert_eq!(visual_calc(&v("25ph"), 800, 600), 150);
    assert_eq!(visual_calc(&v("120px"), 800, 600), 120);
    assert!(!visual_size_valid(&v("px"), 800, 600));
    assert!(!visual_size_valid(&v("p"), 800, 600));
    assert_eq!(visual_anchor_of(&v("s"), 300), 0);
    assert_eq!(visual_anchor_of(&v("m"), 300), 150);
    assert_eq!(visual_anchor_of(&v("c"), 301), 150);
    assert_eq!(visual_anchor_of(&v("e"), 300), 300);
    assert_eq!(visual_anchor_of(&v("e"), 40000), -25536);
}

#[test]
fn scene_sizes_and_anchors() {
    assert_eq!(Nscene::calc("50pw", 800, 600), 800);
    assert_eq!(Nscene::calc("50ph", 800, 600), 600);
    assert_eq!(Nscene::calc("64px", 800, 600), 64);
    assert_eq!(Nscene::anchor("c", 100), 50);
    assert_eq!(Nscene::anchor("m", 100), 100);
}
