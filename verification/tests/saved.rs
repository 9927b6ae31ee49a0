use shuffle::appearance::{
    color_label, icon_bg_file, load_icon_bg, load_menu_style, read_icon_bg, read_icon_pack,
    save_icon_bg, save_menu_style, ColorKind, PageCache,
};
use shuffle::icons::IconBg;
use shuffle::persist::{
    config_string, living_paths, load_groups, read_string_list, save_groups, write_string_list,
    Group,
};
use shuffle::prefs::{load_prefs, save_prefs, Prefs};
use shuffle::theme::{
    clamp8, dark_theme, hsl_to_rgb, light_theme, load_theme, palette_colors, presets, save_theme,
    scale, Theme,
};

fn strings(v: &[&str]) -> Vec<String> {
    v.iter().map(|s| s.to_string()).collect()
}

#[test]
fn lists_read_back() {
    let list = strings(&["/a", "/b c"]);
    assert_eq!(write_string_list(&list), "/a\n/b c");
    assert_eq!(read_string_list(&write_string_list(&list)), list);
    assert_eq!(read_string_list("\n  /x \r\n\n"), strings(&["/x"]));
}

#[test]
fn paths_that_are_gone_are_dropped() {
    let list = strings(&["/a", "/b", "/c"]);
    assert_eq!(living_paths(&list, &vec![true, false, true]), strings(&["/a", "/c"]));
    assert_eq!(living_paths(&list, &vec![true]), strings(&["/a"]));
}

#[test]
fn single_values_are_trimmed() {
    assert_eq!(config_string(" v1.2 \n"), Some("v1.2".to_string()));
    assert_eq!(config_string("  \n"), None);
}

#[test]
fn groups_read_back() {
    let groups = vec![
        Group { name: "Work".to_string(), paths: strings(&["/w/a", "/w/b"]) },
        Group { name: "Empty".to_string(), paths: vec![] },
    ];
    let text = save_groups(&groups);
    assert_eq!(text, "[Work]\n/w/a\n/w/b\n[Empty]\n");
    let back = load_groups(&text);
    assert_eq!(back.len(), 2);
    assert_eq!(back[0].name, "Work");
    assert_eq!(back[0].paths, strings(&["/w/a", "/w/b"]));
    assert!(back[1].paths.is_empty());
}

#[test]
fn paths_before_the_first_group_are_dropped() {
    let back = load_groups("/lost\n[G]\n  /kept \n");
    assert_eq!(back.len(), 1);
    assert_eq!(back[0].paths, strings(&["/kept"]));
}

#[test]
fn themes_read_back() {
    let t = dark_theme(0x101014, 0xf0f0f0, 0x0a84ff);
    let text = save_theme(&t);
    assert!(text.starts_with("101014\n"));
    assert_eq!(load_theme(&text), t);
    assert_ne!(load_theme("101014\n"), t);
    let l = light_theme(0xffffff, 0x111111, 0x0a84ff);
    assert_eq!(load_theme(&save_theme(&l)), l);
}

#[test]
fn colors_scale_and_clamp() {
    assert_eq!(clamp8(300), 255);
    assert_eq!(clamp8(7), 7);
    assert_eq!(scale(0x204060, 3, 2), 0x306090);
    assert_eq!(scale(0xff8001, 2, 1), 0xffff02);
    assert_eq!(scale(0x123456, 1, 1), 0x123456);
    assert_eq!(Theme::alpha(0x112233, 0x80), 0x11223380);
}

#[test]
fn presets_have_names() {
    let p = presets();
    assert!(p.len() > 1);
    assert!(p.iter().all(|x| !x.0.is_empty()));
}

#[test]
fn prefs_read_back() {
    let mut p: Prefs = load_prefs("");
    p.terminal = !p.terminal;
    p.show_fps = true;
    p.recent_limit = 7;
    assert_eq!(load_prefs(&save_prefs(&p)), p);
    assert_eq!(load_prefs("recent_limit=99").recent_limit, 12);
    assert_eq!(load_prefs("recent_limit=x"), load_prefs(""));
    assert!(load_prefs(" preview = true ").preview);
}

#[test]
fn icon_backgrounds_read_back() {
    assert_eq!(save_icon_bg(&IconBg::Default), "");
    assert_eq!(save_icon_bg(&IconBg::Color(0xff7a)), "color=00ff7a");
    assert!(matches!(read_icon_bg("color=00ff7a"), IconBg::Color(0xff7a)));
    assert!(matches!(read_icon_bg(" image=/a b.png \n"), IconBg::Image(ref p) if p == "/a b.png"));
    assert!(matches!(read_icon_bg("color=zz"), IconBg::Default));
    assert!(matches!(read_icon_bg(""), IconBg::Default));
    let gone = load_icon_bg(IconBg::Image("/x".to_string()), false);
    assert!(matches!(gone, IconBg::Default));
    let kept = load_icon_bg(IconBg::Image("/x".to_string()), true);
    assert!(matches!(kept, IconBg::Image(_)));
}

#[test]
fn icon_files_and_packs() {
    assert_eq!(icon_bg_file("/a/b.JPG"), "app_icon_bg.JPG");
    assert_eq!(icon_bg_file("/a/b"), "app_icon_bg.png");
    assert_eq!(read_icon_pack(" /packs/mine\n"), Some("/packs/mine".to_string()));
    assert_eq!(read_icon_pack("\n"), None);
}

#[test]
fn menu_styles_read_back() {
    let text = save_menu_style(85, "13.5");
    assert_eq!(text, "opacity=85\nfont_px=13.5\n");
    assert_eq!(load_menu_style(&text), (85, strings(&["13.5"])));
    assert_eq!(load_menu_style("opacity=200"), (100, vec![]));
    assert_eq!(load_menu_style("opacity=300"), (100, vec![]));
    assert_eq!(load_menu_style("opacity=40\nopacity=x"), (40, vec![]));
}

#[test]
fn colors_in_words() {
    assert_eq!(color_label(ColorKind::L16), "Grayscale");
    assert_eq!(color_label(ColorKind::La8), "Grayscale + Alpha");
    assert_eq!(color_label(ColorKind::Rgb32), "RGB");
    assert_eq!(color_label(ColorKind::Rgba8), "RGB + Alpha");
    assert_eq!(color_label(ColorKind::Other), "Other");
}

#[test]
fn few_pages_are_kept() {
    let mut cache: PageCache<u32> = PageCache::new();
    for page in 0..30 {
        cache.insert_pdf_page("/a.pdf", page, page as u32);
        assert!(cache.pages.len() <= 12);
        assert!(cache.lookup("/a.pdf", page).is_some());
    }
    assert!(cache.lookup("/a.pdf", 0).is_none());
}

#[test]
fn a_page_is_kept_once() {
    let mut cache: PageCache<&str> = PageCache::new();
    cache.insert_pdf_page("/a.pdf", 1, "old");
    cache.insert_pdf_page("/a.pdf/", 1, "new");
    cache.insert_pdf_page("/b.pdf", 1, "other");
    assert_eq!(cache.pages.len(), 2);
    let at = cache.lookup("/a.pdf", 1).unwrap();
    assert_eq!(cache.pages[at].image, "new");
}

#[test]
fn near_pages_keep_their_pictures() {
    let mut cache: PageCache<usize> = PageCache::new();
    for page in 0..12 {
        cache.insert_pdf_page("/a.pdf", page, 100 + page);
    }
    cache.insert_pdf_page("/a.pdf", 6, 0);
    assert_eq!(cache.pages.len(), 7);
    for page in 3..10 {
        let at = cache.lookup("/a.pdf", page).unwrap();
        assert_eq!(cache.pages[at].image, if page == 6 { 0 } else { 100 + page });
    }
    assert!(cache.lookup("/a.pdf", 2).is_none());
}

#[test]
fn other_documents_go_first() {
    let mut cache: PageCache<u8> = PageCache::new();
    for page in 0..12 {
        cache.insert_pdf_page("/a.pdf", page, 0);
    }
    cache.insert_pdf_page("/b.pdf", 5, 1);
    assert_eq!(cache.pages.len(), 1);
    assert!(cache.lookup("/b.pdf", 5).is_some());
}

fn hsl(h: f32, s: f32, l: f32) -> u32 {
    let c = (1.0 - (2.0 * l - 1.0).abs()) * s;
    let hp = h / 60.0;
    let x = c * (1.0 - (hp % 2.0 - 1.0).abs());
    let (r, g, b) = match hp as i32 {
        0 => (c, x, 0.0),
        1 => (x, c, 0.0),
        2 => (0.0, c, x),
        3 => (0.0, x, c),
        4 => (x, 0.0, c),
        _ => (c, 0.0, x),
    };
    let m = l - c / 2.0;
    let to = |v: f32| (((v + m).clamp(0.0, 1.0)) * 255.0).round() as u32;
    (to(r) << 16) | (to(g) << 8) | to(b)
}

#[test]
fn swatches_run_from_dark_to_light() {
    let p = palette_colors();
    assert_eq!(p.len(), 85);
    assert_eq!((p[0], p[6], p[12]), (0x000000, 0x808080, 0xffffff));
    for i in 0..13 {
        let v = (i as f32 / 12.0 * 255.0).round() as u32;
        assert_eq!(p[i], (v << 16) | (v << 8) | v);
    }
    let lights = [0.18f32, 0.30, 0.42, 0.55, 0.68, 0.82];
    for k in 0..72 {
        assert_eq!(p[13 + k], hsl((k / 6 * 30) as f32, 0.65, lights[k % 6]));
    }
    assert_eq!(hsl_to_rgb(0, 100, 50), 0xff0000);
    assert_eq!(hsl_to_rgb(240, 100, 50), 0x0000ff);
    assert_eq!(hsl_to_rgb(300, 0, 100), 0xffffff);
}
