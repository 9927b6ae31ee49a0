//! What themes, colors and kept pages amount to.

use crate::appearance::{
    ColorKind, bg_file_name, bg_kept, color_words, near_pages, opacity_after, pack_of, page_at,
    page_inserted,
};
use crate::icons::IconBgView;
use crate::paths::{extension_of, same_place};
use crate::settings::menu_color;
use crate::text::{
    decimal_of, is_trimmed, law_decimal_reads_back, lemma_plain_digits, lemma_trimmed_fixpoint,
    lemma_until_at,
};
use crate::theme::{
    Theme, apart, channel_cut, chroma, color_share, colors_of, dark_of, default_theme, gray,
    half_up, hsl_color, hue_turn, light_of, scaled_color, theme_colors, theme_of_lines, with_alpha,
};
use vstd::prelude::*;

verus! {

// ----- colors --------------------------------------------------------------------------

/// The red of a color, as a number below 256.
pub open spec fn red(c: int) -> int {
    c / 0x10000 % 0x100
}

/// The green of a color.
pub open spec fn green(c: int) -> int {
    c / 0x100 % 0x100
}

/// The blue of a color.
pub open spec fn blue(c: int) -> int {
    c % 0x100
}

/// Whether no channel of `a` is brighter than that of `b`.
pub open spec fn no_brighter(a: int, b: int) -> bool {
    red(a) <= red(b) && green(a) <= green(b) && blue(a) <= blue(b)
}

proof fn lemma_channels(r: int, g: int, b: int)
    requires
        0 <= r < 0x100,
        0 <= g < 0x100,
        0 <= b < 0x100,
    ensures
        ({
            let c = r * 0x10000 + g * 0x100 + b;
            &&& red(c) == r && green(c) == g && blue(c) == b && 0 <= c < 0x100_0000
        }),
{
    let c = r * 0x10000 + g * 0x100 + b;
    assert(c / 0x100 == r * 0x100 + g);
    assert(c / 0x10000 == r);
}

proof fn lemma_cut(x: int, num: int, den: int)
    requires
        0 <= x,
        0 <= num,
        0 < den,
    ensures
        0 <= x * num / den,
{
    assert(0 <= x * num) by (nonlinear_arith)
        requires
            0 <= x,
            0 <= num,
    ;
    vstd::arithmetic::div_mod::lemma_div_pos_is_pos(x * num, den);
}

/// Scaling a color scales each channel by itself, up to full brightness.
pub proof fn law_channels_scale(c: int, num: int, den: int)
    requires
        0 <= c,
        0 <= num,
        0 < den,
    ensures
        ({
            let s = scaled_color(c, num, den);
            &&& red(s) == if red(c) * num / den <= 255 {
                red(c) * num / den
            } else {
                255
            }
            &&& green(s) == if green(c) * num / den <= 255 {
                green(c) * num / den
            } else {
                255
            }
            &&& blue(s) == if blue(c) * num / den <= 255 {
                blue(c) * num / den
            } else {
                255
            }
            &&& 0 <= s < 0x100_0000
        }),
{
    reveal(scaled_color);
    lemma_cut(red(c), num, den);
    lemma_cut(green(c), num, den);
    lemma_cut(blue(c), num, den);
    lemma_channels(
        channel_cut(red(c) * num / den),
        channel_cut(green(c) * num / den),
        channel_cut(blue(c) * num / den),
    );
}

proof fn lemma_tenths(c: int, a: int, b: int)
    requires
        0 <= c,
        0 <= a <= b,
    ensures
        no_brighter(scaled_color(c, a, 10), scaled_color(c, b, 10)),
        no_brighter(scaled_color(c, a, 100), scaled_color(c, b, 100)),
{
    law_channels_scale(c, a, 10);
    law_channels_scale(c, b, 10);
    law_channels_scale(c, a, 100);
    law_channels_scale(c, b, 100);
    lemma_rises(red(c), a, b);
    lemma_rises(green(c), a, b);
    lemma_rises(blue(c), a, b);
}

proof fn lemma_rises(x: int, a: int, b: int)
    requires
        0 <= x,
        0 <= a <= b,
    ensures
        x * a / 10 <= x * b / 10,
        x * a / 100 <= x * b / 100,
{
    assert(x * a <= x * b) by (nonlinear_arith)
        requires
            0 <= x,
            0 <= a <= b,
    ;
}

proof fn lemma_scale_whole(c: int)
    requires
        0 <= c < 0x100_0000,
    ensures
        no_brighter(scaled_color(c, 10, 10), c) && no_brighter(c, scaled_color(c, 10, 10)),
        no_brighter(scaled_color(c, 100, 100), c) && no_brighter(c, scaled_color(c, 100, 100)),
{
    law_channels_scale(c, 10, 10);
    law_channels_scale(c, 100, 100);
}

/// In a dark theme the sidebar is darker than the window, and hovered rows, borders,
/// panels, selected rows and dividers are brighter, in this order. Lesser text is darker.
pub proof fn law_dark_themes(bg: u32, text: u32, accent: u32)
    requires
        bg < 0x100_0000,
        text < 0x100_0000,
    ensures
        ({
            let t = dark_of(bg, text, accent);
            &&& t.bg == bg && t.text == text && t.accent == accent
            &&& no_brighter(t.sidebar as int, t.bg as int)
            &&& no_brighter(t.bg as int, t.hover as int)
            &&& no_brighter(t.hover as int, t.border as int)
            &&& no_brighter(t.border as int, t.surface as int)
            &&& no_brighter(t.surface as int, t.selected as int)
            &&& no_brighter(t.selected as int, t.border_strong as int)
            &&& no_brighter(t.text_dim as int, t.text_muted as int)
            &&& no_brighter(t.text_muted as int, t.text as int)
        }),
{
    let b = bg as int;
    let t = text as int;
    lemma_scale_whole(b);
    lemma_scale_whole(t);
    lemma_tenths(b, 8, 10);
    lemma_tenths(b, 10, 13);
    lemma_tenths(b, 13, 14);
    lemma_tenths(b, 14, 15);
    lemma_tenths(b, 15, 19);
    lemma_tenths(b, 19, 20);
    lemma_tenths(t, 5, 7);
    lemma_tenths(t, 7, 10);
    lemma_fits(b);
    lemma_fits(t);
}

/// In a light theme everything else is darker than the window: the sidebar, hovered rows,
/// panels, borders, selected rows and dividers, in this order. Lesser text is brighter.
pub proof fn law_light_themes(bg: u32, text: u32, accent: u32)
    requires
        bg < 0x100_0000,
        text < 0x100_0000,
    ensures
        ({
            let t = light_of(bg, text, accent);
            &&& t.bg == bg && t.text == text && t.accent == accent
            &&& no_brighter(t.sidebar as int, t.bg as int)
            &&& no_brighter(t.hover as int, t.sidebar as int)
            &&& no_brighter(t.surface as int, t.hover as int)
            &&& no_brighter(t.border as int, t.surface as int)
            &&& no_brighter(t.selected as int, t.border as int)
            &&& no_brighter(t.border_strong as int, t.selected as int)
            &&& no_brighter(t.text as int, t.text_muted as int)
            &&& no_brighter(t.text_muted as int, t.text_dim as int)
        }),
{
    let b = bg as int;
    let t = text as int;
    lemma_scale_whole(b);
    lemma_scale_whole(t);
    lemma_tenths(b, 95, 100);
    lemma_tenths(b, 93, 95);
    lemma_tenths(b, 90, 93);
    lemma_tenths(b, 88, 90);
    lemma_tenths(b, 84, 88);
    lemma_tenths(b, 80, 84);
    lemma_tenths(t, 10, 13);
    lemma_tenths(t, 13, 16);
    lemma_fits(b);
    lemma_fits(t);
}

proof fn lemma_fits(c: int)
    requires
        0 <= c,
    ensures
        forall|n: int| 0 <= n ==> 0 <= #[trigger] scaled_color(c, n, 10) < 0x100_0000,
        forall|n: int| 0 <= n ==> 0 <= #[trigger] scaled_color(c, n, 100) < 0x100_0000,
{
    assert forall|n: int| 0 <= n implies 0 <= #[trigger] scaled_color(c, n, 10) < 0x100_0000 by {
        law_channels_scale(c, n, 10);
    }
    assert forall|n: int| 0 <= n implies 0 <= #[trigger] scaled_color(c, n, 100) < 0x100_0000 by {
        law_channels_scale(c, n, 100);
    }
}

/// A color with transparency is the color, followed by the transparency as its last byte.
pub proof fn law_alpha_comes_last(c: int, a: int)
    requires
        0 <= c < 0x100_0000,
        0 <= a < 0x100,
    ensures
        with_alpha(c, a) / 0x100 == c,
        with_alpha(c, a) % 0x100 == a,
{
}

/// The grays of the palette run evenly from black to white.
pub proof fn law_grays(i: int)
    requires
        0 <= i <= 12,
    ensures
        red(gray(i)) == green(gray(i)) && green(gray(i)) == blue(gray(i)),
        -6 <= blue(gray(i)) * 12 - i * 255 <= 6,
        0 <= gray(i) < 0x100_0000,
{
    let g = half_up(i * 255, 12);
    assert(g == (2 * (i * 255) + 12) / 24);
    assert(24 * g <= 2 * (i * 255) + 12 < 24 * g + 24);
    lemma_channels(g, g, g);
}

proof fn lemma_share_rises(v: int, w: int, s: int, l: int)
    requires
        v <= w,
    ensures
        color_share(v, s, l) <= color_share(w, s, l),
{
    let k = 12_000 * l - 60 * chroma(s, l);
    vstd::arithmetic::div_mod::lemma_div_is_ordered(
        2 * ((v + k) * 255) + 1_200_000,
        2 * ((w + k) * 255) + 1_200_000,
        2_400_000,
    );
}

proof fn lemma_share_range(v: int, s: int, l: int)
    requires
        0 <= s <= 100,
        0 <= l <= 100,
        0 <= v <= 120 * chroma(s, l),
    ensures
        0 <= color_share(v, s, l) <= 255,
{
    let f = 100 - apart(2 * l, 100);
    let c = chroma(s, l);
    assert(0 <= f * s <= f * 100) by (nonlinear_arith)
        requires
            0 <= s <= 100,
            0 <= f,
    ;
    assert(c == f * s);
    let u = v + 12_000 * l - 60 * c;
    assert(0 <= u <= 1_200_000);
}

proof fn lemma_shares(h: int, s: int, l: int) -> (r: (int, int, int))
    requires
        0 <= h < 360,
        0 <= s <= 100,
        0 <= l <= 100,
    ensures
        0 <= r.2 <= r.1 && r.1 <= r.0 && r.0 <= 255,
        s == 0 ==> r.0 == r.1 && r.1 == r.2,
        h % 120 == 0 ==> r.1 == r.2,
        h / 60 == 0 ==> hsl_color(h, s, l) == r.0 * 0x10000 + r.1 * 0x100 + r.2,
        h / 60 == 1 ==> hsl_color(h, s, l) == r.1 * 0x10000 + r.0 * 0x100 + r.2,
        h / 60 == 2 ==> hsl_color(h, s, l) == r.2 * 0x10000 + r.0 * 0x100 + r.1,
        h / 60 == 3 ==> hsl_color(h, s, l) == r.2 * 0x10000 + r.1 * 0x100 + r.0,
        h / 60 == 4 ==> hsl_color(h, s, l) == r.1 * 0x10000 + r.2 * 0x100 + r.0,
        h / 60 == 5 ==> hsl_color(h, s, l) == r.0 * 0x10000 + r.2 * 0x100 + r.1,
{
    let k = chroma(s, l);
    let f = 100 - apart(2 * l, 100);
    assert(0 <= f * s) by (nonlinear_arith)
        requires
            0 <= s,
            0 <= f,
    ;
    assert(k == f * s);
    let c = 120 * k;
    let n = hue_turn(h);
    let x = 2 * k * n;
    assert(0 <= n <= 60);
    assert(0 <= x && x <= c) by (nonlinear_arith)
        requires
            0 <= k,
            0 <= n <= 60,
            x == 2 * k * n,
            c == 120 * k,
    ;
    lemma_share_rises(0, x, s, l);
    lemma_share_rises(x, c, s, l);
    lemma_share_range(0, s, l);
    lemma_share_range(x, s, l);
    lemma_share_range(c, s, l);
    if s == 0 {
        assert(k == 0) by (nonlinear_arith)
            requires
                k == f * s,
                s == 0,
        ;
        assert(x == 0) by (nonlinear_arith)
            requires
                x == 2 * k * n,
                k == 0,
        ;
    }
    if h % 120 == 0 {
        assert(n == 0);
        assert(x == 0) by (nonlinear_arith)
            requires
                x == 2 * k * n,
                n == 0,
        ;
    }
    (color_share(c, s, l), color_share(x, s, l), color_share(0, s, l))
}

/// A hue turns from red over yellow, green, cyan, blue and magenta back to red: within
/// each sixth of the circle the same channel is the brightest, and the same the darkest.
pub proof fn law_hues(h: int, s: int, l: int)
    requires
        0 <= h < 360,
        0 <= s <= 100,
        0 <= l <= 100,
    ensures
        ({
            let c = hsl_color(h, s, l);
            let (r, g, b) = (red(c), green(c), blue(c));
            &&& 0 <= c < 0x100_0000
            &&& h < 60 ==> r >= g && g >= b
            &&& 60 <= h < 120 ==> g >= r && r >= b
            &&& 120 <= h < 180 ==> g >= b && b >= r
            &&& 180 <= h < 240 ==> b >= g && g >= r
            &&& 240 <= h < 300 ==> b >= r && r >= g
            &&& 300 <= h ==> r >= b && b >= g
            &&& s == 0 ==> r == g && g == b
            &&& h == 0 ==> g == b
            &&& h == 120 ==> r == b
            &&& h == 240 ==> r == g
        }),
{
    let (m, y, o) = lemma_shares(h, s, l);
    if h < 60 {
        lemma_channels(m, y, o);
    } else if h < 120 {
        lemma_channels(y, m, o);
    } else if h < 180 {
        lemma_channels(o, m, y);
    } else if h < 240 {
        lemma_channels(o, y, m);
    } else if h < 300 {
        lemma_channels(y, o, m);
    } else {
        lemma_channels(m, o, y);
    }
}

/// A saved theme has eleven colors; with fewer or more the default one is used.
pub proof fn law_themes_have_eleven_colors(ls: Seq<Seq<char>>, line: Seq<char>)
    ensures
        colors_of(ls).len() != 11 ==> theme_of_lines(ls) == default_theme(),
        colors_of(ls).len() == 11 ==> theme_colors(theme_of_lines(ls)) == colors_of(ls),
        colors_of(ls).len() <= colors_of(ls.push(line)).len() <= colors_of(ls).len() + 1,
        colors_of(ls).is_prefix_of(colors_of(ls.push(line))),
{
    assert(ls.push(line).drop_last() =~= ls);
    let (a, b) = (colors_of(ls), colors_of(ls.push(line)));
    assert(b.subrange(0, a.len() as int) =~= a);
    if a.len() == 11 {
        assert(theme_colors(theme_of_lines(ls)) =~= a);
    }
}

// ----- icons, opacity and pages --------------------------------------------------------

/// A picture behind the icons goes once its file is gone, and only then.
pub proof fn law_lost_pictures_go(bg: IconBgView, there: bool)
    ensures
        bg_kept(bg, true) == bg,
        bg is Color ==> bg_kept(bg, there) == bg,
        bg is Image ==> bg_kept(bg, false) == IconBgView::Default,
{
}

/// An opacity above a hundred percent counts as a hundred percent.
pub proof fn law_opacity_is_percent(n: u8, before: u8)
    ensures
        opacity_after("opacity="@ + decimal_of(n as nat), before) == if n <= 100 {
            n
        } else {
            100
        },
{
    reveal_strlit("opacity=");
    reveal_strlit("opacity");
    let d = decimal_of(n as nat);
    let line = "opacity="@ + d;
    assert(line[7] == '=');
    lemma_until_at(line, '=', 7);
    assert(line.take(7) =~= "opacity"@);
    assert(line.skip(8) =~= d);
    lemma_trimmed_fixpoint("opacity"@);
    law_decimal_reads_back(n as nat, 255);
    lemma_plain_digits(d);
    lemma_trimmed_fixpoint(d);
}

/// A picture has transparency, by its words, where its pixels do.
pub proof fn law_alpha_is_told(c: ColorKind)
    ensures
        (c is La8 || c is La16) <==> color_words(c) == "Grayscale + Alpha"@,
        (c is L8 || c is L16) <==> color_words(c) == "Grayscale"@,
        (c is Rgb8 || c is Rgb16 || c is Rgb32) <==> color_words(c) == "RGB"@,
        (c is Rgba8 || c is Rgba16 || c is Rgba32) <==> color_words(c) == "RGB + Alpha"@,
{
    reveal_strlit("Grayscale + Alpha");
    reveal_strlit("Grayscale");
    reveal_strlit("RGB");
    reveal_strlit("RGB + Alpha");
    reveal_strlit("Other");
    assert("Grayscale + Alpha"@.len() == 17);
    assert("Grayscale"@.len() == 9);
    assert("RGB"@.len() == 3);
    assert("RGB + Alpha"@.len() == 11);
    assert("Other"@.len() == 5);
}

proof fn lemma_near_pages<T>(s: Seq<(Seq<char>, int, T)>, path: Seq<char>, page: int)
    ensures
        forall|k: int|
            #![trigger s[k]]
            0 <= k < s.len() && same_place(s[k].0, path) && s[k].1 - page <= 3 && page - s[k].1
                <= 3 ==> near_pages(s, path, page).contains(s[k]),
        forall|k: int|
            #![trigger near_pages(s, path, page)[k]]
            0 <= k < near_pages(s, path, page).len() ==> ({
                let e = near_pages(s, path, page)[k];
                same_place(e.0, path) && e.1 - page <= 3 && page - e.1 <= 3
            }),
    decreases s.len(),
{
    if s.len() > 0 {
        let t = s.drop_last();
        lemma_near_pages(t, path, page);
        let head = near_pages(t, path, page);
        let all = near_pages(s, path, page);
        assert forall|k: int|
            #![trigger s[k]]
            0 <= k < s.len() && same_place(s[k].0, path) && s[k].1 - page <= 3 && page - s[k].1
                <= 3 implies all.contains(s[k]) by {
            if k < t.len() {
                assert(t[k] == s[k]);
                let j = choose|j: int| 0 <= j < head.len() && head[j] == t[k];
                assert(all[j] == s[k]);
            } else {
                assert(all.last() == s[k]);
            }
        }
        assert forall|k: int| #![trigger all[k]] 0 <= k < all.len() implies ({
            let e = all[k];
            same_place(e.0, path) && e.1 - page <= 3 && page - e.1 <= 3
        }) by {
            if k < head.len() {
                assert(all[k] == head[k]);
            }
        }
    }
}

/// With room a new page is kept beside all others. Without, only pages of the same file
/// within three pages of it stay.
pub proof fn law_pages_make_room<T>(
    s: Seq<(Seq<char>, int, T)>,
    path: Seq<char>,
    page: int,
    image: T,
)
    requires
        forall|k: int|
            0 <= k < s.len() ==> !((#[trigger] s[k]).1 == page && same_place(s[k].0, path)),
    ensures
        s.len() < 12 ==> page_inserted(s, path, page, image) == s.push((path, page, image)),
        s.len() >= 12 ==> (forall|k: int|
            #![trigger s[k]]
            0 <= k < s.len() && same_place(s[k].0, path) && s[k].1 - page <= 3 && page - s[k].1
                <= 3 ==> page_inserted(s, path, page, image).contains(s[k])),
        s.len() >= 12 ==> (forall|k: int|
            #![trigger page_inserted(s, path, page, image)[k]]
            0 <= k < page_inserted(s, path, page, image).len() - 1 ==> ({
                let e = page_inserted(s, path, page, image)[k];
                same_place(e.0, path) && e.1 - page <= 3 && page - e.1 <= 3
            })),
        page_inserted(s, path, page, image).last() == (path, page, image),
{
    lemma_near_pages(s, path, page);
    let t = near_pages(s, path, page);
    lemma_near_from(s, path, page);
    lemma_no_page(s, path, page);
    lemma_no_page(t, path, page);
    if s.len() >= 12 {
        assert forall|k: int|
            #![trigger s[k]]
            0 <= k < s.len() && same_place(s[k].0, path) && s[k].1 - page <= 3 && page - s[k].1
                <= 3 implies t.push((path, page, image)).contains(s[k]) by {
            let j = choose|j: int| 0 <= j < t.len() && t[j] == s[k];
            assert(t.push((path, page, image))[j] == s[k]);
        }
    }
}

proof fn lemma_near_from<T>(s: Seq<(Seq<char>, int, T)>, path: Seq<char>, page: int)
    ensures
        forall|k: int|
            0 <= k < near_pages(s, path, page).len() ==> s.contains(
                #[trigger] near_pages(s, path, page)[k],
            ),
    decreases s.len(),
{
    if s.len() > 0 {
        let t = s.drop_last();
        lemma_near_from(t, path, page);
        let head = near_pages(t, path, page);
        let all = near_pages(s, path, page);
        assert forall|k: int| 0 <= k < all.len() implies s.contains(#[trigger] all[k]) by {
            if k < head.len() {
                assert(t.contains(head[k]));
                let j = choose|j: int| 0 <= j < t.len() && t[j] == head[k];
                assert(s[j] == all[k]);
            } else {
                assert(s.last() == all[k]);
            }
        }
    }
}

proof fn lemma_no_page<T>(s: Seq<(Seq<char>, int, T)>, path: Seq<char>, page: int)
    requires
        forall|k: int|
            0 <= k < s.len() ==> !((#[trigger] s[k]).1 == page && same_place(s[k].0, path)),
    ensures
        page_at(s, path, page) is None,
    decreases s.len(),
{
    if s.len() > 0 {
        lemma_no_page(s.drop_last(), path, page);
        assert(s.last() == s[s.len() - 1]);
    }
}

/// Menus are as opaque as chosen: not at all at zero, fully at a hundred percent and more,
/// and never less for a higher choice. Their color is that of panels.
pub proof fn law_menus_are_as_opaque_as_chosen(t: Theme, a: u8, b: u8)
    requires
        a <= b,
        t.surface < 0x100_0000,
    ensures
        menu_color(t, a) / 0x100 == t.surface,
        menu_color(t, 0) % 0x100 == 0,
        b >= 100 ==> menu_color(t, b) % 0x100 == 0xff,
        menu_color(t, a) % 0x100 <= menu_color(t, b) % 0x100,
        b <= 100 ==> 0 <= b * 255 - (menu_color(t, b) % 0x100) * 100 < 100,
{
    let x = (if a < 100 {
        a as int
    } else {
        100
    }) * 255 / 100;
    let y = (if b < 100 {
        b as int
    } else {
        100
    }) * 255 / 100;
    law_alpha_comes_last(t.surface as int, x);
    law_alpha_comes_last(t.surface as int, y);
    law_alpha_comes_last(t.surface as int, 0);
}

/// A picture chosen for the icons is kept under a name with its own ending; a pack of
/// icons is in use where one is named.
pub proof fn law_chosen_looks_are_kept(src: Seq<char>, text: Seq<char>)
    ensures
        extension_of(src) matches Some(e) ==> bg_file_name(src) == "app_icon_bg."@ + e,
        extension_of(src) is None ==> bg_file_name(src) == "app_icon_bg."@ + "png"@,
        is_trimmed(text) && text.len() > 0 ==> pack_of(text) == Some(text),
        pack_of(Seq::empty()) is None,
{
    lemma_trimmed_fixpoint(Seq::empty());
    if is_trimmed(text) {
        lemma_trimmed_fixpoint(text);
    }
}

} // verus!
