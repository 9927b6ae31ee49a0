use shuffle::blocks::{Blocks, FEW_PIXELS, MANY_PIXELS};
use shuffle::icons::{
    compose_icon_png, cover_size, decode_fitted, decode_icon, decode_page, decode_preview, is_icon_background,
    recolor, to_bgra, Fill, IconBg, Picture,
};

fn png(width: u32, height: u32, data: Vec<u8>) -> Vec<u8> {
    let img = image::RgbaImage::from_raw(width, height, data).unwrap();
    let mut out = Vec::new();
    img.write_to(&mut std::io::Cursor::new(&mut out), image::ImageFormat::Png).unwrap();
    out
}

fn pixels(bytes: &[u8]) -> (u32, u32, Vec<u8>) {
    let img = image::load_from_memory(bytes).unwrap().to_rgba8();
    let (w, h) = img.dimensions();
    (w, h, img.into_raw())
}

#[test]
fn red_and_blue_change_places() {
    let p = Picture { width: 2, height: 1, data: vec![1, 2, 3, 4, 5, 6, 7, 8] };
    let q = to_bgra(p);
    assert_eq!(q.data, vec![3, 2, 1, 4, 7, 6, 5, 8]);
    assert_eq!(to_bgra(q).data, vec![1, 2, 3, 4, 5, 6, 7, 8]);
}

#[test]
fn icons_are_scaled_for_the_screen() {
    let bytes = png(2, 2, [200, 10, 30, 255].repeat(4));
    let icon = decode_icon(&bytes).unwrap();
    assert_eq!((icon.width, icon.height), (128, 128));
    assert_eq!(icon.data.len(), 128 * 128 * 4);
    assert_eq!(&icon.data[0..4], &[30, 10, 200, 255]);
    assert!(decode_icon(&vec![1, 2, 3]).is_none());
}

#[test]
fn pages_keep_their_size() {
    let bytes = png(1, 2, vec![1, 2, 3, 255, 9, 8, 7, 255]);
    let page = decode_page(&bytes).unwrap();
    assert_eq!((page.width, page.height), (1, 2));
    assert_eq!(page.data, vec![3, 2, 1, 255, 7, 8, 9, 255]);
    assert!(decode_page(&vec![]).is_none());
}

#[test]
fn previews_fit_their_square() {
    let bytes = png(1200, 600, [10, 20, 30, 255].repeat(1200 * 600));
    let p = decode_preview(&bytes).unwrap();
    assert_eq!((p.width, p.height), (600, 300));
    assert_eq!(&p.data[0..4], &[30, 20, 10, 255]);
    assert!(decode_preview(&vec![0; 10]).is_none());
}

#[test]
fn the_background_is_light_and_pale() {
    assert!(is_icon_background(255, 255, 255));
    assert!(is_icon_background(200, 200, 174));
    assert!(!is_icon_background(200, 200, 173));
    assert!(!is_icon_background(199, 199, 199));
    assert!(!is_icon_background(10, 120, 250));
}

#[test]
fn recoloring_keeps_logo_and_margin() {
    let p = Picture {
        width: 2,
        height: 2,
        data: vec![
            255, 255, 255, 255, // background
            10, 120, 250, 255, // logo
            255, 255, 255, 0, // margin
            230, 230, 230, 100, // darker background
        ],
    };
    let r = recolor(&p, &Fill::Color(0xff8001));
    assert_eq!(&r.data[0..4], &[255, 128, 1, 255]);
    assert_eq!(&r.data[4..8], &[10, 120, 250, 255]);
    assert_eq!(&r.data[8..12], &[255, 255, 255, 0]);
    let lum = 230f32 / 255.0;
    let dim = |c: u8| (c as f32 * lum) as u8;
    assert_eq!(&r.data[12..16], &[dim(255), dim(128), dim(1), 100]);
    assert_eq!(recolor(&p, &Fill::Nothing).data, p.data);
}

#[test]
fn dimming_agrees_with_single_precision() {
    for bright in 200u8..=255 {
        for c in 0u8..=255 {
            let p = Picture { width: 1, height: 1, data: vec![bright, bright, bright, 255] };
            let color = ((c as u32) << 16) | ((c as u32) << 8) | c as u32;
            let r = recolor(&p, &Fill::Color(color));
            let lum = bright as f32 / 255.0;
            assert_eq!(r.data[0], (c as f32 * lum) as u8);
        }
    }
}

#[test]
fn a_picture_fills_the_background() {
    let p = Picture { width: 2, height: 1, data: [255, 255, 255, 200].repeat(2) };
    let f = Picture { width: 1, height: 1, data: vec![1, 2, 3, 4] };
    let r = recolor(&p, &Fill::Image(f));
    assert_eq!(r.data, vec![1, 2, 3, 200, 1, 2, 3, 200]);
}

#[test]
fn pictures_cover_the_icon() {
    assert_eq!(cover_size(50, 100, 100, 100), (100, 200));
    assert_eq!(cover_size(200, 100, 100, 100), (200, 100));
    for (iw, ih, w, h) in [(3u32, 7u32, 1024u32, 1024u32), (1001, 333, 1024, 1024), (17, 4, 5, 9)] {
        let scale = (w as f32 / iw as f32).max(h as f32 / ih as f32);
        let (nw, nh) = ((iw as f32 * scale) as u32, (ih as f32 * scale) as u32);
        assert_eq!(cover_size(iw, ih, w, h), (nw.max(1), nh.max(1)));
    }
    assert_eq!(cover_size(0, 0, 4, 4), (1, 1));
}

#[test]
fn icons_are_composed() {
    let base = png(2, 1, vec![255, 255, 255, 255, 10, 120, 250, 255]);
    let none = vec![];
    let plain = compose_icon_png(&base, &IconBg::Default, &none).unwrap();
    assert_eq!(pixels(&plain).2, vec![255, 255, 255, 255, 10, 120, 250, 255]);
    let colored = compose_icon_png(&base, &IconBg::Color(0x204060), &none).unwrap();
    assert_eq!(pixels(&colored).2, vec![0x20, 0x40, 0x60, 255, 10, 120, 250, 255]);
    assert!(compose_icon_png(&none, &IconBg::Default, &none).is_none());
}

#[test]
fn icons_stand_on_pictures() {
    let base = png(2, 1, vec![255, 255, 255, 255, 10, 120, 250, 255]);
    let same = png(2, 1, vec![7, 8, 9, 255, 1, 1, 1, 255]);
    let bg = IconBg::Image("/x/bg.png".to_string());
    let out = compose_icon_png(&base, &bg, &same).unwrap();
    assert_eq!(pixels(&out).2, vec![7, 8, 9, 255, 10, 120, 250, 255]);
    let flat = png(4, 4, [50, 60, 70, 255].repeat(16));
    let out = compose_icon_png(&base, &bg, &flat).unwrap();
    assert_eq!(pixels(&out).2, vec![50, 60, 70, 255, 10, 120, 250, 255]);
    assert!(compose_icon_png(&base, &bg, &vec![1, 2]).is_none());
    let unknown = IconBg::Image("/x/bg.unknown".to_string());
    assert!(compose_icon_png(&base, &unknown, &same).is_none());
}

#[test]
fn icons_of_the_right_size_keep_their_colors() {
    let data: Vec<u8> = (0..128 * 128).flat_map(|i: u32| [i as u8, (i / 7) as u8, 9, 255]).collect();
    let icon = decode_icon(&png(128, 128, data.clone())).unwrap();
    let same = to_bgra(Picture { width: 128, height: 128, data });
    assert_eq!(icon.data, same.data);
}

/// The size of a picture that is fitted into a square, in floating point.
fn fitted(width: u32, height: u32, side: u32) -> (u32, u32) {
    let ratio = f64::min(
        f64::from(side) / f64::from(width),
        f64::from(side) / f64::from(height),
    );
    let scaled = |k: u32| (f64::from(k) * ratio).round().max(1.0) as u32;
    (scaled(width), scaled(height))
}

/// The pixels that go into one, in floating point.
fn edges(k: u32, m: u32, j: u32) -> (u32, u32) {
    let pace = k as f32 / m as f32;
    let near = j as f32 * pace;
    let far = near + pace;
    let low = (near.ceil() as u32).clamp(0, k - 1);
    (low, (far.ceil() as u32).clamp(low, k))
}

#[test]
fn blocks_agree_with_floating_point() {
    for (w, h, side) in [
        (600, 600, 600),
        (1200, 600, 600),
        (601, 599, 600),
        (1, 1, 600),
        (3, 2, 600),
        (153_700, 257, 600),
        (257, 153_700, 600),
        (99_991, 33, 600),
        (20_000_001, 7, 600),
        (2_147_483_647, 2_147_483_646, 600),
        (4_294_967_295, 1, 1),
        (1000, 999, 4096),
    ] {
        let b = Blocks::fitting(w, h, side);
        assert_eq!((b.across.m, b.down.m), fitted(w, h, side));
        for j in 0..b.across.m {
            assert_eq!(b.across.block(j), edges(w, b.across.m, j));
        }
        for j in 0..b.down.m {
            assert_eq!(b.down.block(j), edges(h, b.down.m, j));
        }
    }
}

#[test]
fn blocks_are_counted() {
    assert!(!Blocks::fitting(153_700, 257, 600).within(FEW_PIXELS));
    assert!(Blocks::fitting(153_700, 257, 600).within(MANY_PIXELS));
    assert!(Blocks::fitting(153_000, 257, 600).within(FEW_PIXELS));
    assert!(!Blocks::fitting(153_000, 258, 600).within(255 * 258 - 1));
    assert!(Blocks::fitting(120_000, 120_000, 600).within(40_000));
    assert!(!Blocks::fitting(120_000, 120_000, 600).within(39_999));
    assert!(Blocks::fitting(256, 256, 1).within(FEW_PIXELS));
    assert!(!Blocks::fitting(256, 257, 1).within(FEW_PIXELS));
}

#[test]
fn sums_stay_within_their_bits() {
    let b = Blocks::fitting(300, 300, 1);
    let n = 300 * 300;
    assert!(!b.within(FEW_PIXELS));
    assert!(b.sums_fit(&vec![0; n * 4]));
    assert!(!b.sums_fit(&vec![65_535; n * 4]));
    assert!(!b.sums_fit(&vec![0; n]));
    let opaque: Vec<u16> = [0, 0, 0, 65_535].repeat(n);
    assert!(!b.sums_fit(&opaque));
    let most = ((u32::MAX as usize - n / 2) / n) as u16;
    assert!(b.sums_fit(&vec![most; n * 4]));
    assert!(!b.sums_fit(&vec![most + 1; n * 4]));
}

fn wide_png(side: u32, pixel: [u16; 4]) -> Vec<u8> {
    let img = image::ImageBuffer::<image::Rgba<u16>, Vec<u16>>::from_pixel(
        side,
        side,
        image::Rgba(pixel),
    );
    let mut bytes = Vec::new();
    image::DynamicImage::ImageRgba16(img)
        .write_to(&mut std::io::Cursor::new(&mut bytes), image::ImageFormat::Png)
        .unwrap();
    bytes
}

#[test]
fn wide_pictures_are_scaled_while_their_sums_fit() {
    let faint = decode_fitted(&wide_png(300, [257 * 9, 257 * 7, 257 * 5, 257 * 100]), 1).unwrap();
    assert_eq!((faint.width, faint.height), (1, 1));
    assert_eq!(faint.data, vec![5, 7, 9, 100]);
    assert!(decode_fitted(&wide_png(300, [0, 0, 0, 65_535]), 1).is_none());
    assert!(decode_fitted(&wide_png(256, [65_535; 4]), 1).is_some());
}

#[test]
fn deep_previews_are_scaled() {
    let img = image::ImageBuffer::<image::Luma<u16>, Vec<u16>>::from_pixel(
        1200,
        600,
        image::Luma([65_535]),
    );
    let mut bytes = Vec::new();
    image::DynamicImage::ImageLuma16(img)
        .write_to(&mut std::io::Cursor::new(&mut bytes), image::ImageFormat::Png)
        .unwrap();
    let p = decode_preview(&bytes).unwrap();
    assert_eq!((p.width, p.height), (600, 300));
    assert!(p.data.iter().all(|b| *b == 255));
}
