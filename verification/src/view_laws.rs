//! What the terminal, the inspector and recolored icons amount to.

use crate::appearance::color_words;
use crate::fileops::{info_needed, page_behind, page_needed, pages_wanted, preview_needed};
use crate::icons::{
    FillView, PictureView, at_least, cover, dimmed, larger, largest, pale, recolored, scaled_side,
    single_quotient,
};
use crate::inspector::{
    FileFacts, InfoView, PagerParts, info_rows, missing_icons, page_shown, pager, shows_date, tells,
};
use crate::kinds::{icon_key_of, label_for, names_pdf};
use crate::look_laws::{blue, green, red};
use crate::paths::{file_name_of, label_of};
use crate::prefs::Prefs;
use crate::rounding::{
    SINGLE, half_even, lemma_rounded_at_most, lemma_rounded_near, lemma_rounded_rises,
    lemma_rounded_whole_at_least, lift, rounded, size_text,
};
use crate::shuffle::ShuffleView;
use crate::sidebar::has_label;
use crate::tabs::ViewMode;
use crate::terminal::TermView;
use crate::text::decimal_of;
use crate::theme::apart;
use vstd::prelude::*;

verus! {

// ----- the terminal --------------------------------------------------------------------

/// The scrollback keeps the last four hundred lines, in order.
pub proof fn law_last_lines_stay(t: TermView, line: Seq<char>)
    ensures
        t.output.len() < 400 ==> t.printing(line).output == t.output.push(line),
        t.output.len() >= 400 ==> t.printing(line).output == t.output.skip(
            t.output.len() - 399,
        ).push(line),
        t.printing(line).input == t.input && t.printing(line).focused == t.focused,
{
    let n = t.output.len();
    if n >= 400 {
        assert(t.output.push(line).skip(n + 1 - 400) =~= t.output.skip(n - 399).push(line));
    }
}

// ----- the inspector -------------------------------------------------------------------

/// The page shown is one of the document, the one turned to where there is such a page.
/// The arrows lead on unless it is the first or the last.
pub proof fn law_pages_are_counted(page: int, count: int)
    requires
        page >= 0,
        count >= 0,
    ensures
        page < count ==> page_shown(page, Some(count)) == page,
        page >= count && count > 0 ==> page_shown(page, Some(count)) == count - 1,
        page_shown(page, None) == 0,
        count <= 1 ==> pager(page, Some(count)) is None,
        pager(page, None) is None,
        1 < count && page < count ==> pager(page, Some(count)) == Some(
            (PagerParts {
                text: decimal_of((page + 1) as nat) + " / "@ + decimal_of(count as nat),
                back: page != 0,
                forward: page != count - 1,
            }),
        ),
{
}

/// Turning on goes to the next page and stops at the last; turning back goes to the one
/// before and stops at the first. The page and the one that may follow are made ready.
pub proof fn law_pages_turn(s: ShuffleView, count: int)
    requires
        0 <= s.page < count,
    ensures
        s.page + 1 < count ==> s.turned_on(Some(count)).0.page == s.page + 1,
        s.page + 1 == count ==> s.turned_on(Some(count)) == (s, Seq::<int>::empty()),
        s.page > 0 ==> s.turned_back().0.page == s.page - 1,
        s.page == 0 ==> s.turned_back() == (s, Seq::<int>::empty()),
        s.page + 1 < count ==> s.turned_on(Some(count)).1.contains(s.page + 1),
        s.page + 2 < count ==> s.turned_on(Some(count)).1.contains(s.page + 2),
        s.page > 0 ==> s.turned_back().1.contains(s.page - 1),
        s.page > 1 ==> s.turned_back().1.contains(s.page - 2),
        forall|i: int|
            0 <= i < s.turned_on(Some(count)).1.len() ==> 0 <= #[trigger] s.turned_on(
                Some(count),
            ).1[i] < count,
        forall|i: int|
            0 <= i < s.turned_back().1.len() ==> 0 <= #[trigger] s.turned_back().1[i] < count,
{
    let (a, b) = (s.turned_on(Some(count)).1, s.turned_back().1);
    if s.page + 1 < count {
        assert(a[0] == s.page + 1);
        if s.page + 2 < count {
            assert(a[1] == s.page + 2);
        }
    }
    if s.page > 0 {
        assert(b[0] == s.page - 1);
        if s.page > 1 {
            assert(b[1] == s.page - 2);
        }
    }
}

/// The inspector shows the focused item: its preview where previews are on and the
/// gallery does not show one already, and its details where details are on.
pub proof fn law_inspector_shows_the_focused_item(
    s: ShuffleView,
    p: Prefs,
    count: Option<int>,
    info: Option<InfoView>,
)
    ensures
        ({
            let previews = p.preview && s.tab().view != ViewMode::Gallery;
            let r = s.inspector(p, count, info);
            &&& r is Some <==> s.tab().anchor is Some && (previews || p.info)
            &&& r matches Some(i) ==> {
                &&& Some(i.path) == s.tab().anchor && i.title == label_of(i.path)
                &&& i.preview is Some <==> previews
                &&& i.info is Some <==> p.info
                &&& i.info matches Some(f) ==> (f is Loading <==> info is None)
                &&& i.preview matches Some(v) ==> (v.page is Some <==> p.preview_pages && names_pdf(
                    i.path,
                ))
            }
        }),
{
}

/// What is known is not worked out again. A preview is made where previews are on or one
/// is forced, details where details are on, pages for PDFs only.
pub proof fn law_known_things_are_kept(force: bool, p: Prefs, path: Seq<char>)
    ensures
        !preview_needed(force, p, true) && !info_needed(p, true) && !page_needed(path, true),
        preview_needed(true, p, false),
        preview_needed(false, p, false) <==> p.preview,
        info_needed(p, false) <==> p.info,
        page_needed(path, false) <==> names_pdf(path),
        pages_wanted(p) ==> p.preview,
        p.preview ==> (pages_wanted(p) <==> p.preview_pages),
{
}

/// Once the first page is made the second one is, if there is one; no other page is made
/// ahead of its time.
pub proof fn law_second_page_is_made_ahead(page: usize, count: usize)
    ensures
        count > 1 ==> page_behind(0, count) == Some(1usize),
        count <= 1 ==> page_behind(page, count) is None,
        page > 0 ==> page_behind(page, count) is None,
{
}

/// Each date is shown as the date that it is, the size and the kind are those of the file,
/// and a picture's width stands before its height.
pub proof fn law_details_are_those_of_the_file(
    i: InfoView,
    path: Seq<char>,
    f: FileFacts,
    n: Seq<char>,
)
    requires
        tells(i, path, f),
        file_name_of(path) == Some(n),
    ensures
        shows_date(i.created, f.created),
        shows_date(i.modified, f.modified),
        shows_date(i.accessed, f.accessed),
        f.measure matches Some(m) ==> i.kind == label_for(n, m.0) && i.size == size_text(
            m.0,
            m.1 as nat,
        ),
        f.measure is None ==> i.kind == label_for(n, false) && i.size == "--"@,
        f.picture matches Some(p) ==> i.dimensions == Some(
            decimal_of(p.0 as nat) + " × "@ + decimal_of(p.1 as nat),
        ),
        f.picture is None ==> i.dimensions is None && i.color is None,
        f.picture is Some ==> (f.color matches Some(c) ==> i.color == Some(color_words(c))),
        f.signed matches Some(s) ==> i.signed == Some(s@),
        f.signed is None ==> i.signed is None,
        f.created is None ==> i.created == "--"@,
{
}

/// Each detail stands beside its own name; details that are not known are left out.
pub proof fn law_details_have_names(i: InfoView)
    ensures
        info_rows(i).contains(("Kind"@, i.kind)),
        info_rows(i).contains(("Size"@, i.size)),
        info_rows(i).contains(("Created"@, i.created)),
        info_rows(i).contains(("Modified"@, i.modified)),
        info_rows(i).contains(("Last opened"@, i.accessed)),
        i.dimensions matches Some(d) ==> info_rows(i).contains(("Dimensions"@, d)),
        i.color matches Some(c) ==> info_rows(i).contains(("Color"@, c)),
        i.signed matches Some(s) ==> info_rows(i).contains(("Signature"@, s)),
        info_rows(i).len() == 5 + (if i.dimensions is Some {
            1int
        } else {
            0
        }) + (if i.color is Some {
            1int
        } else {
            0
        }) + (if i.signed is Some {
            1int
        } else {
            0
        }),
{
    let r = info_rows(i);
    assert(r[0] == ("Kind"@, i.kind));
    assert(r[1] == ("Size"@, i.size));
    assert(r[2] == ("Created"@, i.created));
    assert(r[3] == ("Modified"@, i.modified));
    assert(r[4] == ("Last opened"@, i.accessed));
    let a: int = if i.dimensions is Some {
        1
    } else {
        0
    };
    let b: int = if i.color is Some {
        1
    } else {
        0
    };
    if i.dimensions is Some {
        assert(r[5] == ("Dimensions"@, i.dimensions->0));
    }
    if i.color is Some {
        assert(r[5 + a] == ("Color"@, i.color->0));
    }
    if i.signed is Some {
        assert(r[5 + a + b] == ("Signature"@, i.signed->0));
    }
}

/// An icon is made for each kind of file shown that has none yet, once, from a file of
/// that kind.
pub proof fn law_missing_icons_are_made(files: Seq<Seq<char>>, made: Seq<Seq<char>>)
    ensures
        forall|i: int|
            0 <= i < files.len() ==> (icon_key_of(#[trigger] files[i]) matches Some(k)
                ==> made.contains(k) || has_label(missing_icons(files, made), k)),
        forall|j: int|
            0 <= j < missing_icons(files, made).len() ==> {
                let job = #[trigger] missing_icons(files, made)[j];
                !made.contains(job.0) && icon_key_of(job.1) == Some(job.0) && files.contains(job.1)
            },
        forall|j: int, k: int|
            0 <= j < k < missing_icons(files, made).len() ==> (#[trigger] missing_icons(
                files,
                made,
            )[j]).0 != (#[trigger] missing_icons(files, made)[k]).0,
    decreases files.len(),
{
    if files.len() > 0 {
        let t = files.drop_last();
        law_missing_icons_are_made(t, made);
        let (h, a) = (missing_icons(t, made), missing_icons(files, made));
        assert forall|i: int| 0 <= i < files.len() implies (icon_key_of(#[trigger] files[i])
            matches Some(k) ==> made.contains(k) || has_label(a, k)) by {
            if icon_key_of(files[i]) is Some {
                let k = icon_key_of(files[i])->0;
                if i < t.len() {
                    assert(t[i] == files[i]);
                }
                if has_label(h, k) {
                    let m = choose|m: int| 0 <= m < h.len() && (#[trigger] h[m]).0 == k;
                    assert(a[m].0 == k);
                } else if i == t.len() && !made.contains(k) {
                    assert(a.last().0 == k);
                }
            }
        }
        assert forall|j: int| 0 <= j < a.len() implies {
            let job = #[trigger] a[j];
            !made.contains(job.0) && icon_key_of(job.1) == Some(job.0) && files.contains(job.1)
        } by {
            if j < h.len() {
                assert(a[j] == h[j]);
                let m = choose|m: int| 0 <= m < t.len() && t[m] == h[j].1;
                assert(files[m] == a[j].1);
            } else {
                assert(files[files.len() - 1] == a[j].1);
            }
        }
        assert forall|j: int, k: int| 0 <= j < k < a.len() implies (#[trigger] a[j]).0 != (
        #[trigger] a[k]).0 by {
            assert(a[j] == h[j]);
            if k < h.len() {
                assert(a[k] == h[k]);
            }
        }
    }
}

// ----- recolored icons -----------------------------------------------------------------

/// A color is pale if some channel is bright and no two channels are far apart.
pub proof fn law_pale_colors(r: u8, g: u8, b: u8)
    ensures
        pale(r, g, b) <==> (r >= 200 || g >= 200 || b >= 200) && apart(r as int, g as int) <= 26
            && apart(g as int, b as int) <= 26 && apart(r as int, b as int) <= 26,
{
}

/// A dimmed channel is the share of it that the brightness makes up, cut to a whole
/// number; at full brightness nothing changes.
pub proof fn law_dimming_scales(c: u8, bright: u8)
    ensures
        dimmed(c, bright) * 255 <= c * bright,
        c * bright <= dimmed(c, bright) * 255 + 255,
{
    let l = rounded(bright as nat, 255, SINGLE as nat);
    let v = rounded(c as nat * l.0, l.1, SINGLE as nat);
    if bright == 0 {
        assert(l == (0nat, 1nat)) by {
            assert(lift(0, (SINGLE * 255) as nat) == 1);
        }
        assert(c as nat * l.0 == 0) by (nonlinear_arith)
            requires
                l.0 == 0,
        ;
        lemma_whole_is_exact(0, SINGLE as nat);
        assert(v.0 == 0);
        assert(c * bright == 0) by (nonlinear_arith)
            requires
                bright == 0,
        ;
    } else if c == 0 {
        lemma_rounded_near(bright as nat, 255, SINGLE as nat);
        assert(c as nat * l.0 == 0) by (nonlinear_arith)
            requires
                c == 0,
        ;
        assert(lift(0, (SINGLE as nat * l.1) as nat) == 1);
        assert(2 * SINGLE as nat * l.1 > 0) by (nonlinear_arith)
            requires
                l.1 >= 1,
                SINGLE > 0,
        ;
        assert(half_even(0, l.1) == 0) by {
            vstd::arithmetic::div_mod::lemma_div_basics(l.1 as int);
            vstd::arithmetic::div_mod::lemma_small_mod(0, l.1);
        }
        assert(v.0 == 0 && v.1 == 1);
        assert(c * bright == 0) by (nonlinear_arith)
            requires
                c == 0,
        ;
    } else {
        lemma_dimmed_near(c as nat, bright as nat, l, v);
    }
}

proof fn lemma_dimmed_near(c: nat, b: nat, l: (nat, nat), v: (nat, nat))
    requires
        0 < c <= 255,
        0 < b <= 255,
        l == rounded(b, 255, SINGLE as nat),
        v == rounded(c * l.0, l.1, SINGLE as nat),
    ensures
        v.1 >= 1,
        0 <= v.0 as int / v.1 as int <= 255,
        v.0 as int / v.1 as int * 255 <= c * b,
        c * b <= v.0 as int / v.1 as int * 255 + 255,
{
    let h = SINGLE as nat;
    lemma_rounded_near(b, 255, h);
    assert(b * l.1 <= 255 * l.1) by (nonlinear_arith)
        requires
            b <= 255,
    ;
    assert(l.1 >= 0x80_0000);
    lemma_rounded_at_most(b, 255, h, 1);
    assert(l.0 <= l.1);
    let m = c * l.0;
    assert(0 < l.0);
    assert(0 < m && m <= 255 * l.1) by (nonlinear_arith)
        requires
            0 < c <= 255,
            0 < l.0 <= l.1,
            m == c * l.0,
    ;
    assert(m < 2 * h * l.1) by (nonlinear_arith)
        requires
            m <= 255 * l.1,
            h == 0x80_0000,
            l.1 >= 1,
    ;
    lemma_rounded_near(m, l.1, h);
    assert(h * l.1 <= m * v.1);
    assert(v.1 >= 0x8000) by (nonlinear_arith)
        requires
            h * l.1 <= m * v.1,
            m <= 255 * l.1,
            l.1 >= 1,
            h == 0x80_0000,
    ;
    let n = v.0 as int / v.1 as int;
    vstd::arithmetic::div_mod::lemma_fundamental_div_mod(v.0 as int, v.1 as int);
    vstd::arithmetic::div_mod::lemma_mod_bound(v.0 as int, v.1 as int);
    vstd::arithmetic::div_mod::lemma_div_pos_is_pos(v.0 as int, v.1 as int);
    lemma_dimmed_bounds(c as int, b as int, l.0 as int, l.1 as int, v.0 as int, v.1 as int, n);
}

proof fn lemma_dimmed_bounds(c: int, b: int, x: int, y: int, s: int, t: int, n: int)
    requires
        0 < c <= 255,
        0 < b <= 255,
        y >= 0x80_0000,
        t >= 0x8000,
        0 <= n,
        2 * (x * 255) <= 2 * (b * y) + 255,
        2 * (b * y) <= 2 * (x * 255) + 255,
        2 * (s * y) <= 2 * ((c * x) * t) + y,
        2 * ((c * x) * t) <= 2 * (s * y) + y,
        t * n <= s < t * n + t,
    ensures
        n <= 255,
        n * 255 <= c * b,
        c * b <= n * 255 + 255,
{
    let p = t * y;
    let ct = c * t;
    assert((c * x) * t == ct * x) by (nonlinear_arith)
        requires
            ct == c * t,
    ;
    assert(ct * (b * y) == (c * b) * p) by (nonlinear_arith)
        requires
            ct == c * t,
            p == t * y,
    ;
    assert(0 < ct && 510 * ct < 2 * p && 510 * y < 2 * p) by (nonlinear_arith)
        requires
            0 < c <= 255,
            ct == c * t,
            p == t * y,
            y >= 0x80_0000,
            t >= 0x8000,
    ;
    assert(ct * (2 * (x * 255)) <= ct * (2 * (b * y) + 255)) by (nonlinear_arith)
        requires
            2 * (x * 255) <= 2 * (b * y) + 255,
            0 < ct,
    ;
    assert(ct * (2 * (b * y)) <= ct * (2 * (x * 255) + 255)) by (nonlinear_arith)
        requires
            2 * (b * y) <= 2 * (x * 255) + 255,
            0 < ct,
    ;
    assert(ct * (2 * (x * 255)) == 510 * (ct * x)) by (nonlinear_arith);
    assert(ct * (2 * (x * 255) + 255) == 510 * (ct * x) + 255 * ct) by (nonlinear_arith);
    assert(ct * (2 * (b * y) + 255) == 2 * (ct * (b * y)) + 255 * ct) by (nonlinear_arith);
    assert(ct * (2 * (b * y)) == 2 * (ct * (b * y))) by (nonlinear_arith);
    assert(n * p <= s * y && s * y < (n + 1) * p) by (nonlinear_arith)
        requires
            t * n <= s < t * n + t,
            p == t * y,
            y > 0,
    ;
    let cb = c * b;
    assert(510 * (n * p) <= 2 * (cb * p) + 255 * ct + 255 * y);
    assert(2 * (cb * p) <= 510 * (s * y) + 255 * y + 255 * ct);
    assert(510 * (n * p) < 2 * (cb * p) + 2 * p);
    assert(2 * (cb * p) < 510 * ((n + 1) * p) + 2 * p);
    assert(p > 0);
    assert(255 * n < cb + 1) by (nonlinear_arith)
        requires
            510 * (n * p) < 2 * (cb * p) + 2 * p,
            p > 0,
    ;
    assert(cb < 255 * (n + 1) + 1) by (nonlinear_arith)
        requires
            2 * (cb * p) < 510 * ((n + 1) * p) + 2 * p,
            p > 0,
    ;
    assert(cb <= 255 * 255) by (nonlinear_arith)
        requires
            cb == c * b,
            0 < c <= 255,
            0 < b <= 255,
    ;
}

/// Where an icon is pale and not transparent it takes the chosen color, dimmed by its own
/// brightness; where a picture was chosen it shows that picture's pixel at the same place.
pub proof fn law_pale_pixels_are_filled(p: PictureView, f: PictureView, c: u32, x: int, y: int)
    requires
        p.wf(),
        f.wf(),
        0 <= x < p.width <= f.width,
        0 <= y < p.height <= f.height,
        ({
            let n = y * p.width + x;
            pale(p.data[4 * n], p.data[4 * n + 1], p.data[4 * n + 2]) && p.data[4 * n + 3] > 0
        }),
    ensures
        ({
            let n = y * p.width + x;
            let m = f.width * y + x;
            let bright = largest(p.data[4 * n], p.data[4 * n + 1], p.data[4 * n + 2]);
            let (a, b) = (recolored(p, FillView::Color(c)), recolored(p, FillView::Image(f)));
            &&& a.data[4 * n] == dimmed(red(c as int) as u8, bright)
            &&& a.data[4 * n + 1] == dimmed(green(c as int) as u8, bright)
            &&& a.data[4 * n + 2] == dimmed(blue(c as int) as u8, bright)
            &&& forall|k: int|
                0 <= k < 3 ==> #[trigger] b.data[4 * n + k] == f.data[4 * m + k]
            &&& a.data[4 * n + 3] == p.data[4 * n + 3] && b.data[4 * n + 3] == p.data[4 * n + 3]
        }),
{
    let n = y * p.width + x;
    assert(0 <= n < p.width * p.height) by (nonlinear_arith)
        requires
            0 <= x < p.width,
            0 <= y < p.height,
            n == y * p.width + x,
    ;
    vstd::arithmetic::div_mod::lemma_fundamental_div_mod_converse(n, p.width, y, x);
    assert(f.width * y == y * f.width) by (nonlinear_arith);
    let b = recolored(p, FillView::Image(f));
    assert forall|k: int| 0 <= k < 3 implies #[trigger] b.data[4 * n + k] == f.data[4 * (f.width * y
        + x) + k] by {
        assert((4 * n + k) / 4 == n && (4 * n + k) % 4 == k);
    }
    assert(4 * n / 4 == n && (4 * n) % 4 == 0);
    assert((4 * n + 1) / 4 == n && (4 * n + 1) % 4 == 1);
    assert((4 * n + 2) / 4 == n && (4 * n + 2) % 4 == 2);
    assert((4 * n + 3) / 4 == n && (4 * n + 3) % 4 == 3);
}

// ----- covering ------------------------------------------------------------------------

proof fn lemma_whole_is_exact(n: nat, half: nat)
    requires
        n < 2 * half,
    ensures
        rounded(n, 1, half).0 == n * rounded(n, 1, half).1,
{
    let s = lift(n, half);
    assert(half * 1 == half);
    assert(half_even(n * s, 1) == n * s);
}

proof fn lemma_side_reaches(side: nat, target: nat, q: (nat, nat), s: (nat, nat))
    requires
        0 < side < 0x1000,
        0 < target < 0x1000,
        q == single_quotient(target, side),
        s.1 >= 1,
        at_least(s, q),
        s.0 < 0x1000 * s.1,
    ensures
        scaled_side(side, s) + 1 >= target,
        s == q ==> scaled_side(side, s) <= target + 1,
{
    let h = SINGLE as nat;
    lemma_rounded_whole_at_least(side, h);
    lemma_rounded_whole_at_least(target, h);
    assert(target < 2 * h * side) by (nonlinear_arith)
        requires
            target < 0x1000,
            h == 0x80_0000,
            side >= 1,
    ;
    lemma_rounded_near(target, side, h);
    let v = rounded(side * s.0, s.1, h);
    assert(side * s.0 < 2 * h * s.1) by (nonlinear_arith)
        requires
            side < 0x1000,
            s.0 < 0x1000 * s.1,
            h == 0x80_0000,
            s.1 >= 1,
    ;
    let w = (target - 1) as nat;
    assert(2 * (target * q.1) <= 2 * (q.0 * side) + side);
    assert(side <= 2 * q.1) by (nonlinear_arith)
        requires
            h * side <= target * q.1,
            target < 0x1000,
            h == 0x80_0000,
            q.1 >= 1,
    ;
    assert(w * q.1 <= q.0 * side) by (nonlinear_arith)
        requires
            2 * (target * q.1) <= 2 * (q.0 * side) + side,
            side <= 2 * q.1,
            w == target - 1,
    ;
    assert(w * s.1 <= side * s.0) by (nonlinear_arith)
        requires
            w * q.1 <= q.0 * side,
            s.0 * q.1 >= q.0 * s.1,
            q.1 >= 1,
            s.1 >= 1,
    {
        assert((w * s.1) * q.1 <= (side * s.0) * q.1);
    }
    lemma_rounded_rises(w, 1, side * s.0, s.1, h);
    lemma_whole_is_exact(w, h);
    let e = rounded(w, 1, h);
    assert(w * v.1 <= v.0) by (nonlinear_arith)
        requires
            e.0 * v.1 <= v.0 * e.1,
            e.0 == w * e.1,
            e.1 >= 1,
    {
        assert((w * v.1) * e.1 <= v.0 * e.1);
    }
    let n = v.0 as int / v.1 as int;
    vstd::arithmetic::div_mod::lemma_fundamental_div_mod(v.0 as int, v.1 as int);
    vstd::arithmetic::div_mod::lemma_mod_bound(v.0 as int, v.1 as int);
    assert(n >= w) by (nonlinear_arith)
        requires
            w * v.1 <= v.0,
            v.0 < v.1 * n + v.1,
            v.1 >= 1,
    ;
    if s == q {
        let u = target + 1;
        assert(side * q.0 <= u * q.1) by (nonlinear_arith)
            requires
                2 * (q.0 * side) <= 2 * (target * q.1) + side,
                side <= 2 * q.1,
                u == target + 1,
        ;
        lemma_rounded_at_most(side * s.0, s.1, h, u);
        assert(n <= u) by (nonlinear_arith)
            requires
                v.0 <= u * v.1,
                v.1 * n <= v.0,
                v.1 >= 1,
        ;
    }
}

/// A picture behind an icon is scaled, without distortion, until it covers the icon: both
/// sides reach it, and one of them no more than that, up to one pixel.
pub proof fn law_pictures_cover(iw: nat, ih: nat, w: nat, h: nat)
    requires
        0 < iw < 0x1000,
        0 < ih < 0x1000,
        0 < w < 0x1000,
        0 < h < 0x1000,
    ensures
        cover(iw, ih, w, h).0 + 1 >= w,
        cover(iw, ih, w, h).1 + 1 >= h,
        cover(iw, ih, w, h).0 <= w + 1 || cover(iw, ih, w, h).1 <= h + 1,
{
    let (a, b) = (single_quotient(w, iw), single_quotient(h, ih));
    lemma_quotient_small(w, iw);
    lemma_quotient_small(h, ih);
    let s = larger(a, b);
    assert(at_least(s, a) && at_least(s, b)) by {
        assert(a.0 * b.1 >= b.0 * a.1 || b.0 * a.1 >= a.0 * b.1);
    }
    lemma_side_reaches(iw, w, a, s);
    lemma_side_reaches(ih, h, b, s);
}

proof fn lemma_quotient_small(a: nat, b: nat)
    requires
        0 < a < 0x1000,
        0 < b < 0x1000,
    ensures
        single_quotient(a, b).1 >= 1,
        single_quotient(a, b).0 < 0x1000 * single_quotient(a, b).1,
{
    let h = SINGLE as nat;
    lemma_rounded_whole_at_least(a, h);
    lemma_rounded_whole_at_least(b, h);
    assert(a <= 0xfff * b) by (nonlinear_arith)
        requires
            a < 0x1000,
            b >= 1,
    ;
    lemma_rounded_at_most(a, b, h, 0xfff);
}

} // verus!
