//! Saved choices of how things look, and the pages that are kept of a document.

use crate::icons::{IconBg, IconBgView};
use crate::paths::{extension, extension_of, same_path, same_place};
use crate::persist::{lemma_stacked_lines, stacked};
use crate::text::{
    concat, decimal, decimal_of, hex6, hex6_of, is_trimmed, law_decimal_reads_back,
    law_hex6_reads_back, lemma_plain_digits, lemma_trimmed_fixpoint, lemma_until_at, lines,
    lines_of, one_line, opt_text, owned, parse_number, parsed, same, split_first, split_once,
    strip_prefix, texts, trim, trimmed, without_prefix,
};
use vstd::prelude::*;

verus! {

// ----- the background of the icon ------------------------------------------------------

/// The choice of a background as it is saved.
pub open spec fn bg_text(bg: IconBgView) -> Seq<char> {
    match bg {
        IconBgView::Default => Seq::empty(),
        IconBgView::Color(c) => "color="@ + hex6_of(c as nat),
        IconBgView::Image(p) => "image="@ + p,
    }
}

/// The choice of a background that a saved text holds.
pub open spec fn bg_of(text: Seq<char>) -> IconBgView {
    let s = trimmed(text);
    match (without_prefix(s, "color="@), without_prefix(s, "image="@)) {
        (Some(hex), _) => match parsed(trimmed(hex), 16, u32::MAX as nat) {
            Some(c) => IconBgView::Color(c as u32),
            None => IconBgView::Default,
        },
        (None, Some(path)) => IconBgView::Image(trimmed(path)),
        _ => IconBgView::Default,
    }
}

/// A background, unless it is a file that is gone.
pub open spec fn bg_kept(bg: IconBgView, there: bool) -> IconBgView {
    if bg is Image && !there {
        IconBgView::Default
    } else {
        bg
    }
}

/// Writes the choice of a background.
pub fn save_icon_bg(bg: &IconBg) -> (r: String)
    ensures
        r@ == bg_text(bg@),
{
    match bg {
        IconBg::Default => {
            proof {
                reveal_strlit("");
                assert(""@ =~= Seq::<char>::empty());
            }
            owned("")
        },
        IconBg::Color(c) => concat("color=", hex6(*c).as_str()),
        IconBg::Image(p) => concat("image=", p.as_str()),
    }
}

/// Reads the choice of a background; a file still has to be looked for.
pub fn read_icon_bg(text: &str) -> (r: IconBg)
    ensures
        r@ == bg_of(text@),
{
    let s = trim(text);
    match strip_prefix(s.as_str(), "color=") {
        Some(hex) => match parse_number(trim(hex.as_str()).as_str(), 16, u32::MAX as u64) {
            Some(c) => IconBg::Color(c as u32),
            None => IconBg::Default,
        },
        None => match strip_prefix(s.as_str(), "image=") {
            Some(path) => IconBg::Image(trim(path.as_str())),
            None => IconBg::Default,
        },
    }
}

/// Drops a background whose file is gone; `there` says whether it is on disk.
pub fn load_icon_bg(bg: IconBg, there: bool) -> (r: IconBg)
    ensures
        r@ == bg_kept(bg@, there),
{
    match bg {
        IconBg::Image(p) => if there {
            IconBg::Image(p)
        } else {
            IconBg::Default
        },
        other => other,
    }
}

/// The choice of a background reads back as it was saved; that of a file as long
/// as its path has no white space at its ends.
pub proof fn law_icon_bg_reads_back(bg: IconBgView)
    requires
        bg matches IconBgView::Image(p) ==> p.len() > 0 && is_trimmed(p),
    ensures
        bg_of(bg_text(bg)) == bg,
{
    reveal_strlit("color=");
    reveal_strlit("image=");
    let t = bg_text(bg);
    match bg {
        IconBgView::Default => {},
        IconBgView::Color(c) => {
            law_hex6_reads_back(c);
            let h = hex6_of(c as nat);
            lemma_plain_digits(h);
            assert(t.last() == h.last());
            assert(is_trimmed(t));
            assert(t.skip(6) =~= h);
            assert("color="@.is_prefix_of(t));
        },
        IconBgView::Image(p) => {
            assert(t.last() == p.last());
            assert(is_trimmed(t));
            assert(t.skip(6) =~= p);
            assert("image="@.is_prefix_of(t));
            assert(t[0] == 'i');
            assert(!"color="@.is_prefix_of(t));
        },
    }
}

/// The name under which a picture for the background is kept.
pub open spec fn bg_file_name(src: Seq<char>) -> Seq<char> {
    "app_icon_bg."@ + match extension_of(src) {
        Some(e) => e,
        None => "png"@,
    }
}

/// The name under which a picture for the background is kept.
pub fn icon_bg_file(src: &str) -> (r: String)
    ensures
        r@ == bg_file_name(src@),
{
    match extension(src) {
        Some(e) => concat("app_icon_bg.", e.as_str()),
        None => concat("app_icon_bg.", "png"),
    }
}

/// The folder of icons that a saved text names, if any.
pub open spec fn pack_of(text: Seq<char>) -> Option<Seq<char>> {
    if trimmed(text).len() == 0 {
        None
    } else {
        Some(trimmed(text))
    }
}

/// Reads the folder of icons; it still has to be looked for.
pub fn read_icon_pack(text: &str) -> (r: Option<String>)
    ensures
        opt_text(r) == pack_of(text@),
{
    let s = trim(text);
    if s.as_str().is_empty() {
        None
    } else {
        Some(s)
    }
}

// ----- menus ---------------------------------------------------------------------------

/// The opacity after a line of the saved style of menus was read.
pub open spec fn opacity_after(line: Seq<char>, opacity: u8) -> u8 {
    match split_first(line, '=') {
        Some((k, v)) => if trimmed(k) == "opacity"@ {
            match parsed(trimmed(v), 10, 255) {
                Some(n) => if n > 100 {
                    100
                } else {
                    n as u8
                },
                None => opacity,
            }
        } else {
            opacity
        },
        None => opacity,
    }
}

/// The opacity that the saved style of menus holds, at first fully opaque.
pub open spec fn opacity_of(lines: Seq<Seq<char>>) -> u8
    decreases lines.len(),
{
    if lines.len() == 0 {
        100
    } else {
        opacity_after(lines.last(), opacity_of(lines.drop_last()))
    }
}

/// The values that the saved style of menus holds for the size of the letters.
pub open spec fn letter_sizes(lines: Seq<Seq<char>>) -> Seq<Seq<char>>
    decreases lines.len(),
{
    if lines.len() == 0 {
        Seq::empty()
    } else {
        let head = letter_sizes(lines.drop_last());
        match split_first(lines.last(), '=') {
            Some((k, v)) => if trimmed(k) == "font_px"@ {
                head.push(trimmed(v))
            } else {
                head
            },
            None => head,
        }
    }
}

/// The style of menus as it is saved.
pub open spec fn menu_style_text(opacity: u8, letters: Seq<char>) -> Seq<char> {
    "opacity="@ + decimal_of(opacity as nat) + "\nfont_px="@ + letters + "\n"@
}

/// Writes the style of menus; `letters` is the size of the letters as text.
pub fn save_menu_style(opacity: u8, letters: &str) -> (r: String)
    ensures
        r@ == menu_style_text(opacity, letters@),
{
    let a = concat("opacity=", decimal(opacity as u64).as_str());
    let b = concat(a.as_str(), "\nfont_px=");
    let c = concat(b.as_str(), letters);
    concat(c.as_str(), "\n")
}

/// Reads the style of menus: the opacity, and what the saved text says of the size
/// of the letters, in order.
pub fn load_menu_style(text: &str) -> (r: (u8, Vec<String>))
    ensures
        r.0 == opacity_of(lines_of(text@)),
        texts(r.1@) == letter_sizes(lines_of(text@)),
        r.0 <= 100,
{
    let all = lines(text);
    let mut opacity: u8 = 100;
    let mut sizes: Vec<String> = Vec::new();
    let mut i: usize = 0;
    while i < all.len()
        invariant
            i <= all.len(),
            texts(all@) == lines_of(text@),
            opacity == opacity_of(texts(all@).take(i as int)),
            opacity <= 100,
            texts(sizes@) == letter_sizes(texts(all@).take(i as int)),
        decreases all.len() - i,
    {
        let ghost before = texts(sizes@);
        proof {
            let t = texts(all@).take(i + 1);
            assert(t.drop_last() =~= texts(all@).take(i as int));
            assert(t.last() == all@[i as int]@);
        }
        match split_once(all[i].as_str(), '=') {
            Some((k, v)) => {
                let key = trim(k.as_str());
                let val = trim(v.as_str());
                if same(key.as_str(), "opacity") {
                    proof {
                        reveal_strlit("opacity");
                        reveal_strlit("font_px");
                        assert("opacity"@[0] != "font_px"@[0]);
                    }
                    match parse_number(val.as_str(), 10, 255) {
                        Some(n) => {
                            opacity = if n > 100 {
                                100
                            } else {
                                n as u8
                            };
                        },
                        None => {},
                    }
                } else if same(key.as_str(), "font_px") {
                    sizes.push(val);
                    proof {
                        assert(texts(sizes@) =~= before.push(val@));
                    }
                }
            },
            None => {},
        }
        i += 1;
    }
    proof {
        assert(texts(all@).take(i as int) =~= texts(all@));
    }
    (opacity, sizes)
}

/// The style of menus reads back as it was saved, where the size of the letters is
/// one line with no white space at its ends.
pub proof fn law_menu_style_reads_back(opacity: u8, letters: Seq<char>)
    requires
        opacity <= 100,
        one_line(letters),
        is_trimmed(letters),
    ensures
        opacity_of(lines_of(menu_style_text(opacity, letters))) == opacity,
        letter_sizes(lines_of(menu_style_text(opacity, letters))) == seq![letters],
{
    reveal_strlit("opacity=");
    reveal_strlit("opacity");
    reveal_strlit("\nfont_px=");
    reveal_strlit("font_px");
    reveal_strlit("\n");
    let d = decimal_of(opacity as nat);
    law_decimal_reads_back(opacity as nat, 255);
    lemma_plain_digits(d);
    let a = "opacity="@ + d;
    let b = "font_px"@ + seq!['='] + letters;
    let ls = seq![a, b];
    assert(stacked(ls) =~= menu_style_text(opacity, letters)) by {
        assert(ls.skip(1) =~= seq![b]);
        assert(seq![b].skip(1) =~= Seq::<Seq<char>>::empty());
        reveal_with_fuel(stacked, 3);
    }
    lemma_trimmed_fixpoint("opacity"@);
    lemma_trimmed_fixpoint("font_px"@);
    lemma_trimmed_fixpoint(d);
    lemma_trimmed_fixpoint(letters);
    assert(one_line(a));
    assert(one_line(b));
    lemma_stacked_lines(ls);
    lemma_until_at(a, '=', 7);
    lemma_until_at(b, '=', 7);
    assert(a.take(7) =~= "opacity"@);
    assert(a.skip(8) =~= d);
    assert(b.take(7) =~= "font_px"@);
    assert(b.skip(8) =~= letters);
    assert("opacity"@[0] != "font_px"@[0]);
    assert(ls.drop_last() =~= seq![a]);
    assert(seq![a].drop_last() =~= Seq::<Seq<char>>::empty());
    assert(split_first(a, '=') == Some(("opacity"@, d)));
    assert(split_first(b, '=') == Some(("font_px"@, letters)));
    assert(letter_sizes(Seq::empty()) =~= Seq::<Seq<char>>::empty());
    assert(seq![a].last() == a && ls.last() == b);
    assert(letter_sizes(seq![a]) =~= Seq::<Seq<char>>::empty());
    assert(opacity_of(seq![a]) == opacity);
    assert(letter_sizes(ls) =~= seq![letters]);
}

// ----- pictures in the inspector -------------------------------------------------------

/// How the colors of a picture are stored.
#[derive(Clone, Copy, PartialEq, Eq, Structural, Debug)]
pub enum ColorKind {
    L8,
    L16,
    La8,
    La16,
    Rgb8,
    Rgb16,
    Rgb32,
    Rgba8,
    Rgba16,
    Rgba32,
    Other,
}

/// The colors of a picture in words.
pub open spec fn color_words(c: ColorKind) -> Seq<char> {
    match c {
        ColorKind::L8 | ColorKind::L16 => "Grayscale"@,
        ColorKind::La8 | ColorKind::La16 => "Grayscale + Alpha"@,
        ColorKind::Rgb8 | ColorKind::Rgb16 | ColorKind::Rgb32 => "RGB"@,
        ColorKind::Rgba8 | ColorKind::Rgba16 | ColorKind::Rgba32 => "RGB + Alpha"@,
        ColorKind::Other => "Other"@,
    }
}

/// The colors of a picture in words.
pub fn color_label(c: ColorKind) -> (r: String)
    ensures
        r@ == color_words(c),
{
    match c {
        ColorKind::L8 | ColorKind::L16 => owned("Grayscale"),
        ColorKind::La8 | ColorKind::La16 => owned("Grayscale + Alpha"),
        ColorKind::Rgb8 | ColorKind::Rgb16 | ColorKind::Rgb32 => owned("RGB"),
        ColorKind::Rgba8 | ColorKind::Rgba16 | ColorKind::Rgba32 => owned("RGB + Alpha"),
        ColorKind::Other => owned("Other"),
    }
}

// ----- kept pages ----------------------------------------------------------------------

/// How many pages are kept before far ones are dropped.
pub const PAGES_KEPT: usize = 12;

/// A page that is kept.
pub struct KeptPage<T> {
    pub path: String,
    pub page: usize,
    pub image: T,
}

/// The pages that are kept of documents.
pub struct PageCache<T> {
    pub pages: Vec<KeptPage<T>>,
}

/// A page that is kept: its path, its number and its picture.
pub open spec fn kept_view<T>(v: Seq<KeptPage<T>>) -> Seq<(Seq<char>, int, T)> {
    v.map_values(|k: KeptPage<T>| (k.path@, k.page as int, k.image))
}

/// Whether a kept page is a given page of a given document.
pub open spec fn is_page<T>(k: (Seq<char>, int, T), path: Seq<char>, page: int) -> bool {
    same_place(k.0, path) && k.1 == page
}

/// Whether a kept page stands near a given page of the same document.
pub open spec fn is_near<T>(k: (Seq<char>, int, T), path: Seq<char>, page: int) -> bool {
    same_place(k.0, path) && page - 3 <= k.1 <= page + 3
}

/// The pages near a given one, in order.
pub open spec fn near_pages<T>(s: Seq<(Seq<char>, int, T)>, path: Seq<char>, page: int) -> Seq<
    (Seq<char>, int, T),
>
    decreases s.len(),
{
    if s.len() == 0 {
        Seq::empty()
    } else {
        let head = near_pages(s.drop_last(), path, page);
        if is_near(s.last(), path, page) {
            head.push(s.last())
        } else {
            head
        }
    }
}

/// The position of a page, if it is kept.
pub open spec fn page_at<T>(s: Seq<(Seq<char>, int, T)>, path: Seq<char>, page: int) -> Option<int>
    decreases s.len(),
{
    if s.len() == 0 {
        None
    } else {
        match page_at(s.drop_last(), path, page) {
            Some(i) => Some(i),
            None => if is_page(s.last(), path, page) {
                Some(s.len() - 1)
            } else {
                None
            },
        }
    }
}

/// The pages kept once one more is: where there are too many, all but those near
/// it in the same document are dropped first.
pub open spec fn page_inserted<T>(
    s: Seq<(Seq<char>, int, T)>,
    path: Seq<char>,
    page: int,
    image: T,
) -> Seq<(Seq<char>, int, T)> {
    let t = if s.len() >= PAGES_KEPT {
        near_pages(s, path, page)
    } else {
        s
    };
    match page_at(t, path, page) {
        Some(i) => t.update(i, (t[i].0, page, image)),
        None => t.push((path, page, image)),
    }
}

/// Whether no page of a document is kept twice.
pub open spec fn pages_differ<T>(s: Seq<(Seq<char>, int, T)>) -> bool {
    forall|i: int, j: int|
        0 <= i < j < s.len() ==> !is_page(#[trigger] s[i], (#[trigger] s[j]).0, s[j].1)
}

proof fn lemma_page_at<T>(s: Seq<(Seq<char>, int, T)>, path: Seq<char>, page: int)
    ensures
        match page_at(s, path, page) {
            Some(i) => 0 <= i < s.len() && is_page(s[i], path, page),
            None => forall|k: int| 0 <= k < s.len() ==> !is_page(#[trigger] s[k], path, page),
        },
    decreases s.len(),
{
    if s.len() > 0 {
        lemma_page_at(s.drop_last(), path, page);
        let h = s.drop_last();
        assert forall|k: int| 0 <= k < s.len() && page_at(s, path, page) is None implies !is_page(
            #[trigger] s[k],
            path,
            page,
        ) by {
            if k < h.len() {
                assert(h[k] == s[k]);
            }
        }
    }
}

proof fn lemma_page_found<T>(s: Seq<(Seq<char>, int, T)>, path: Seq<char>, page: int, i: int)
    requires
        0 <= i < s.len(),
        page_at(s.take(i + 1), path, page) == Some(i),
    ensures
        page_at(s, path, page) == Some(i),
    decreases s.len(),
{
    if s.len() == i + 1 {
        assert(s.take(i + 1) =~= s);
    } else {
        assert(s.drop_last().take(i + 1) =~= s.take(i + 1));
        lemma_page_found(s.drop_last(), path, page, i);
    }
}

proof fn lemma_near_pages<T>(s: Seq<(Seq<char>, int, T)>, path: Seq<char>, page: int)
    requires
        pages_differ(s),
    ensures
        pages_differ(near_pages(s, path, page)),
        near_pages(s, path, page).len() <= s.len(),
        forall|k: int|
            0 <= k < near_pages(s, path, page).len() ==> is_near(
                #[trigger] near_pages(s, path, page)[k],
                path,
                page,
            ) && s.contains(near_pages(s, path, page)[k]),
    decreases s.len(),
{
    if s.len() > 0 {
        let h = s.drop_last();
        assert forall|i: int, j: int| 0 <= i < j < h.len() implies !is_page(
            #[trigger] h[i],
            (#[trigger] h[j]).0,
            h[j].1,
        ) by {
            assert(h[i] == s[i] && h[j] == s[j]);
        }
        lemma_near_pages(h, path, page);
        let w = near_pages(h, path, page);
        let r = near_pages(s, path, page);
        assert forall|i: int, j: int| 0 <= i < j < r.len() implies !is_page(
            #[trigger] r[i],
            (#[trigger] r[j]).0,
            r[j].1,
        ) by {
            if j == w.len() {
                assert(h.contains(w[i]));
                let k = choose|k: int| 0 <= k < h.len() && h[k] == w[i];
                assert(!is_page(s[k], s[s.len() - 1].0, s[s.len() - 1].1));
            } else {
                assert(!is_page(w[i], w[j].0, w[j].1));
            }
        }
        assert forall|k: int| 0 <= k < r.len() implies is_near(#[trigger] r[k], path, page)
            && s.contains(r[k]) by {
            if k < w.len() {
                assert(r[k] == w[k]);
                assert(h.contains(w[k]));
                let m = choose|m: int| 0 <= m < h.len() && h[m] == w[k];
                assert(s[m] == r[k]);
            } else {
                assert(s[s.len() - 1] == r[k]);
            }
        }
    }
}

proof fn lemma_few_near<T>(s: Seq<(Seq<char>, int, T)>, path: Seq<char>, lo: int, hi: int)
    requires
        pages_differ(s),
        lo <= hi,
        forall|k: int|
            0 <= k < s.len() ==> same_place((#[trigger] s[k]).0, path) && lo <= s[k].1 < hi,
    ensures
        s.len() <= hi - lo,
    decreases hi - lo,
{
    if s.len() > 0 {
        if lo == hi {
            assert(lo <= s[0].1 < hi);
        } else if exists|k: int| 0 <= k < s.len() && (#[trigger] s[k]).1 == hi - 1 {
            let k = choose|k: int| 0 <= k < s.len() && (#[trigger] s[k]).1 == hi - 1;
            let t = s.remove(k);
            assert forall|i: int, j: int| 0 <= i < j < t.len() implies !is_page(
                #[trigger] t[i],
                (#[trigger] t[j]).0,
                t[j].1,
            ) by {
                let a = if i < k {
                    i
                } else {
                    i + 1
                };
                let b = if j < k {
                    j
                } else {
                    j + 1
                };
                assert(t[i] == s[a] && t[j] == s[b]);
                assert(!is_page(s[a], s[b].0, s[b].1));
            }
            assert forall|i: int| 0 <= i < t.len() implies same_place((#[trigger] t[i]).0, path)
                && lo <= t[i].1 < hi - 1 by {
                let a = if i < k {
                    i
                } else {
                    i + 1
                };
                assert(t[i] == s[a]);
                if a < k {
                    assert(!is_page(s[a], s[k].0, s[k].1));
                } else {
                    assert(!is_page(s[k], s[a].0, s[a].1));
                }
            }
            lemma_few_near(t, path, lo, hi - 1);
        } else {
            lemma_few_near(s, path, lo, hi - 1);
        }
    }
}

/// However many pages are turned, at most twelve are kept, none twice, and the
/// page turned to is among them.
pub proof fn law_few_pages_are_kept<T>(
    s: Seq<(Seq<char>, int, T)>,
    path: Seq<char>,
    page: int,
    image: T,
)
    requires
        pages_differ(s),
        s.len() <= PAGES_KEPT,
    ensures
        page_inserted(s, path, page, image).len() <= PAGES_KEPT,
        pages_differ(page_inserted(s, path, page, image)),
        exists|i: int|
            0 <= i < page_inserted(s, path, page, image).len() && is_page(
                #[trigger] page_inserted(s, path, page, image)[i],
                path,
                page,
            ) && page_inserted(s, path, page, image)[i].2 == image,
{
    let t = if s.len() >= PAGES_KEPT {
        near_pages(s, path, page)
    } else {
        s
    };
    lemma_near_pages(s, path, page);
    if s.len() >= PAGES_KEPT {
        lemma_few_near(t, path, page - 3, page + 4);
    }
    lemma_page_at(t, path, page);
    let r = page_inserted(s, path, page, image);
    match page_at(t, path, page) {
        Some(i) => {
            assert(is_page(r[i], path, page));
            assert forall|a: int, b: int| 0 <= a < b < r.len() implies !is_page(
                #[trigger] r[a],
                (#[trigger] r[b]).0,
                r[b].1,
            ) by {
                assert(!is_page(t[a], t[b].0, t[b].1));
            }
        },
        None => {
            assert(is_page(r[t.len() as int], path, page));
            assert forall|a: int, b: int| 0 <= a < b < r.len() implies !is_page(
                #[trigger] r[a],
                (#[trigger] r[b]).0,
                r[b].1,
            ) by {
                if b < t.len() {
                    assert(!is_page(t[a], t[b].0, t[b].1));
                } else {
                    assert(!is_page(t[a], path, page));
                }
            }
        },
    }
}

/// A page that is turned to drives out no page within three of it in the same
/// document, nor any page while there is room; and every page that stays keeps its
/// picture.
pub proof fn law_near_pages_stay<T>(
    s: Seq<(Seq<char>, int, T)>,
    path: Seq<char>,
    page: int,
    image: T,
)
    ensures
        forall|k: int|
            0 <= k < s.len() && (s.len() < PAGES_KEPT || is_near(s[k], path, page)) && !is_page(
                #[trigger] s[k],
                path,
                page,
            ) ==> page_inserted(s, path, page, image).contains(s[k]),
        forall|i: int|
            0 <= i < page_inserted(s, path, page, image).len() && !is_page(
                #[trigger] page_inserted(s, path, page, image)[i],
                path,
                page,
            ) ==> s.contains(page_inserted(s, path, page, image)[i]),
{
    let t = if s.len() >= PAGES_KEPT {
        near_pages(s, path, page)
    } else {
        s
    };
    lemma_near_stay(s, path, page);
    lemma_page_at(t, path, page);
    let r = page_inserted(s, path, page, image);
    assert forall|k: int|
        0 <= k < s.len() && (s.len() < PAGES_KEPT || is_near(s[k], path, page)) && !is_page(
            #[trigger] s[k],
            path,
            page,
        ) implies r.contains(s[k]) by {
        assert(t.contains(s[k]));
        let i = choose|i: int| 0 <= i < t.len() && t[i] == s[k];
        assert(r[i] == s[k]);
    }
    assert forall|i: int| 0 <= i < r.len() && !is_page(#[trigger] r[i], path, page) implies s.contains(
        r[i],
    ) by {
        assert(r[i] == t[i]);
        assert(t.contains(t[i]));
    }
}

proof fn lemma_near_stay<T>(s: Seq<(Seq<char>, int, T)>, path: Seq<char>, page: int)
    ensures
        forall|k: int|
            0 <= k < s.len() && is_near(#[trigger] s[k], path, page) ==> near_pages(
                s,
                path,
                page,
            ).contains(s[k]),
        forall|i: int|
            0 <= i < near_pages(s, path, page).len() ==> s.contains(
                #[trigger] near_pages(s, path, page)[i],
            ),
    decreases s.len(),
{
    if s.len() > 0 {
        let h = s.drop_last();
        lemma_near_stay(h, path, page);
        let w = near_pages(h, path, page);
        let r = near_pages(s, path, page);
        assert forall|k: int| 0 <= k < s.len() && is_near(#[trigger] s[k], path, page) implies r.contains(
            s[k],
        ) by {
            if k < h.len() {
                assert(h[k] == s[k]);
                let i = choose|i: int| 0 <= i < w.len() && w[i] == s[k];
                assert(r[i] == s[k]);
            } else {
                assert(r[r.len() - 1] == s[k]);
            }
        }
        assert forall|i: int| 0 <= i < r.len() implies s.contains(#[trigger] r[i]) by {
            if i < w.len() {
                assert(h.contains(w[i]));
                let m = choose|m: int| 0 <= m < h.len() && h[m] == w[i];
                assert(s[m] == r[i]);
            } else {
                assert(s[s.len() - 1] == r[i]);
            }
        }
    }
}

impl<T> PageCache<T> {
    /// A cache without pages.
    pub fn new() -> (r: PageCache<T>)
        ensures
            kept_view(r.pages@) == Seq::<(Seq<char>, int, T)>::empty(),
    {
        let pages: Vec<KeptPage<T>> = Vec::new();
        proof {
            assert(kept_view(pages@) =~= Seq::<(Seq<char>, int, T)>::empty());
        }
        PageCache { pages }
    }

    /// The position of a page, if it is kept.
    pub fn lookup(&self, path: &str, page: usize) -> (r: Option<usize>)
        ensures
            match r {
                Some(i) => page_at(kept_view(self.pages@), path@, page as int) == Some(i as int)
                    && i < self.pages@.len(),
                None => page_at(kept_view(self.pages@), path@, page as int) is None,
            },
    {
        let mut i: usize = 0;
        let ghost all = kept_view(self.pages@);
        while i < self.pages.len()
            invariant
                i <= self.pages.len(),
                all == kept_view(self.pages@),
                page_at(all.take(i as int), path@, page as int) is None,
            decreases self.pages.len() - i,
        {
            proof {
                let t = all.take(i + 1);
                assert(t.drop_last() =~= all.take(i as int));
                assert(t.last() == all[i as int]);
            }
            if self.pages[i].page == page && same_path(self.pages[i].path.as_str(), path) {
                proof {
                    lemma_page_found(all, path@, page as int, i as int);
                }
                return Some(i);
            }
            i += 1;
        }
        proof {
            assert(all.take(i as int) =~= all);
        }
        None
    }

    fn keep_near(&mut self, path: &str, page: usize)
        requires
            page <= usize::MAX - 3,
        ensures
            kept_view(final(self).pages@) == near_pages(
                kept_view(old(self).pages@),
                path@,
                page as int,
            ),
    {
        let low: usize = if page < 3 {
            0
        } else {
            page - 3
        };
        let mut rest: Vec<KeptPage<T>> = Vec::new();
        core::mem::swap(&mut rest, &mut self.pages);
        let ghost all = kept_view(old(self).pages@);
        let mut i: usize = 0;
        let n: usize = rest.len();
        proof {
            assert(kept_view(self.pages@) =~= near_pages(all.take(0), path@, page as int));
        }
        while i < n
            invariant
                i <= n,
                n == old(self).pages@.len(),
                all == kept_view(old(self).pages@),
                page <= usize::MAX - 3,
                low == (if page < 3 {
                    0int
                } else {
                    page - 3
                }),
                rest@ == old(self).pages@.skip(i as int),
                kept_view(self.pages@) == near_pages(all.take(i as int), path@, page as int),
            decreases n - i,
        {
            let ghost before = kept_view(self.pages@);
            proof {
                let t = all.take(i + 1);
                assert(t.drop_last() =~= all.take(i as int));
                assert(t.last() == all[i as int]);
                assert(rest@[0] == old(self).pages@[i as int]);
            }
            let k = rest.remove(0);
            proof {
                assert(rest@ =~= old(self).pages@.skip(i + 1));
            }
            if low <= k.page && k.page <= page + 3 && same_path(k.path.as_str(), path) {
                let ghost kv = (k.path@, k.page as int, k.image);
                self.pages.push(k);
                proof {
                    assert(kept_view(self.pages@) =~= before.push(kv));
                }
            }
            i += 1;
        }
        proof {
            assert(all.take(i as int) =~= all);
        }
    }

    /// Keeps a page.
    pub fn insert_pdf_page(&mut self, path: &str, page: usize, image: T)
        requires
            page <= usize::MAX - 3,
        ensures
            kept_view(final(self).pages@) == page_inserted(
                kept_view(old(self).pages@),
                path@,
                page as int,
                image,
            ),
    {
        if self.pages.len() >= PAGES_KEPT {
            self.keep_near(path, page);
        }
        let ghost t = kept_view(self.pages@);
        match self.lookup(path, page) {
            Some(i) => {
                proof {
                    lemma_page_at(t, path@, page as int);
                }
                let kept = KeptPage { path: self.pages[i].path.clone(), page, image };
                self.pages.set(i, kept);
                proof {
                    assert(kept_view(self.pages@) =~= t.update(
                        i as int,
                        (t[i as int].0, page as int, image),
                    ));
                }
            },
            None => {
                self.pages.push(KeptPage { path: owned(path), page, image });
                proof {
                    assert(kept_view(self.pages@) =~= t.push((path@, page as int, image)));
                }
            },
        }
    }
}

} // verus!
