//! Color themes: shades derived from a base, the built-in presets, and the saved
//! form.

use crate::persist::{lemma_stacked_lines, stack_lines, stacked};
use crate::text::{
    hex6, hex6_of, law_hex6_reads_back, lemma_plain_digits, lemma_trimmed_fixpoint, lines, lines_of,
    one_line, owned, parse_number, parsed, texts, trim, trimmed,
};
use vstd::prelude::*;

verus! {

/// A complete color theme. Every field is a color 0xRRGGBB.
#[derive(Clone, Copy, PartialEq, Eq, Structural, Debug)]
pub struct Theme {
    /// The background of the window.
    pub bg: u32,
    /// The background of the sidebar.
    pub sidebar: u32,
    /// Raised surfaces: menus and panels.
    pub surface: u32,
    /// The row under the mouse.
    pub hover: u32,
    /// The selected row.
    pub selected: u32,
    /// Hairline borders.
    pub border: u32,
    /// Stronger dividers.
    pub border_strong: u32,
    /// Primary text.
    pub text: u32,
    /// Secondary text.
    pub text_muted: u32,
    /// Headers and placeholders.
    pub text_dim: u32,
    /// Folders, carets and highlights.
    pub accent: u32,
}

/// A channel value cut to 0..=255.
pub open spec fn channel_cut(x: int) -> int {
    if x > 0xff {
        0xff
    } else {
        x
    }
}

/// Cuts a channel value to 0..=255.
pub fn clamp8(x: u32) -> (r: u32)
    ensures
        r == channel_cut(x as int),
{
    if x > 0xff {
        0xff
    } else {
        x
    }
}

/// A color with each channel scaled by `num / den` and cut to 255.
#[verifier::opaque]
pub open spec fn scaled_color(c: int, num: int, den: int) -> int {
    channel_cut((c / 0x10000) % 0x100 * num / den) * 0x10000 + channel_cut(
        (c / 0x100) % 0x100 * num / den,
    ) * 0x100 + channel_cut(c % 0x100 * num / den)
}

/// Scales every channel of a color by `num / den`.
pub fn scale(c: u32, num: u32, den: u32) -> (r: u32)
    requires
        den > 0,
        num <= 0x101_0101,
    ensures
        r == scaled_color(c as int, num as int, den as int),
{
    let red: u32 = c / 0x10000 % 0x100;
    let green: u32 = c / 0x100 % 0x100;
    let blue: u32 = c % 0x100;
    proof {
        reveal(scaled_color);
        assert(red * num <= 0xff * 0x101_0101) by (nonlinear_arith)
            requires
                red <= 0xff,
                num <= 0x101_0101,
        ;
        assert(green * num <= 0xff * 0x101_0101) by (nonlinear_arith)
            requires
                green <= 0xff,
                num <= 0x101_0101,
        ;
        assert(blue * num <= 0xff * 0x101_0101) by (nonlinear_arith)
            requires
                blue <= 0xff,
                num <= 0x101_0101,
        ;
        vstd::arithmetic::div_mod::lemma_div_pos_is_pos(red * num, den as int);
        vstd::arithmetic::div_mod::lemma_div_pos_is_pos(green * num, den as int);
        vstd::arithmetic::div_mod::lemma_div_pos_is_pos(blue * num, den as int);
    }
    clamp8(red * num / den) * 0x10000 + clamp8(green * num / den) * 0x100 + clamp8(
        blue * num / den,
    )
}

/// A color with an opacity 0..=255 behind it: 0xRRGGBBAA.
pub open spec fn with_alpha(color: int, a: int) -> int {
    color % 0x100_0000 * 0x100 + a % 0x100
}

/// A dark theme: surfaces are lighter than the background, lesser text darker.
pub open spec fn dark_of(bg: u32, text: u32, accent: u32) -> Theme {
    let b = bg as int;
    let t = text as int;
    Theme {
        bg,
        sidebar: scaled_color(b, 8, 10) as u32,
        surface: scaled_color(b, 15, 10) as u32,
        hover: scaled_color(b, 13, 10) as u32,
        selected: scaled_color(b, 19, 10) as u32,
        border: scaled_color(b, 14, 10) as u32,
        border_strong: scaled_color(b, 20, 10) as u32,
        text,
        text_muted: scaled_color(t, 7, 10) as u32,
        text_dim: scaled_color(t, 5, 10) as u32,
        accent,
    }
}

/// A light theme: surfaces are darker than the background, lesser text lighter.
pub open spec fn light_of(bg: u32, text: u32, accent: u32) -> Theme {
    let b = bg as int;
    let t = text as int;
    Theme {
        bg,
        sidebar: scaled_color(b, 95, 100) as u32,
        surface: scaled_color(b, 90, 100) as u32,
        hover: scaled_color(b, 93, 100) as u32,
        selected: scaled_color(b, 84, 100) as u32,
        border: scaled_color(b, 88, 100) as u32,
        border_strong: scaled_color(b, 80, 100) as u32,
        text,
        text_muted: scaled_color(t, 13, 10) as u32,
        text_dim: scaled_color(t, 16, 10) as u32,
        accent,
    }
}

/// Builds a dark theme from a background, a text and an accent color.
pub fn dark_theme(bg: u32, text: u32, accent: u32) -> (r: Theme)
    ensures
        r == dark_of(bg, text, accent),
{
    Theme {
        bg,
        sidebar: scale(bg, 8, 10),
        surface: scale(bg, 15, 10),
        hover: scale(bg, 13, 10),
        selected: scale(bg, 19, 10),
        border: scale(bg, 14, 10),
        border_strong: scale(bg, 20, 10),
        text,
        text_muted: scale(text, 7, 10),
        text_dim: scale(text, 5, 10),
        accent,
    }
}

/// Builds a light theme from a background, a text and an accent color.
pub fn light_theme(bg: u32, text: u32, accent: u32) -> (r: Theme)
    ensures
        r == light_of(bg, text, accent),
{
    Theme {
        bg,
        sidebar: scale(bg, 95, 100),
        surface: scale(bg, 90, 100),
        hover: scale(bg, 93, 100),
        selected: scale(bg, 84, 100),
        border: scale(bg, 88, 100),
        border_strong: scale(bg, 80, 100),
        text,
        text_muted: scale(text, 13, 10),
        text_dim: scale(text, 16, 10),
        accent,
    }
}

/// The theme in use until another is chosen.
pub open spec fn default_theme() -> Theme {
    Theme {
        bg: 0x1e1e22,
        sidebar: 0x17171a,
        surface: 0x2f2f3a,
        hover: 0x2a2a30,
        selected: 0x33334a,
        border: 0x303036,
        border_strong: 0x3a3a44,
        text: 0xf0f0f4,
        text_muted: 0x8a8a92,
        text_dim: 0x6b6b73,
        accent: 0x7aa2f7,
    }
}

impl Theme {
    /// A color with an opacity 0..=255 behind it, for floating panels.
    pub fn alpha(color: u32, a: u32) -> (r: u32)
        ensures
            r == with_alpha(color as int, a as int),
    {
        color % 0x100_0000 * 0x100 + a % 0x100
    }
}

impl Default for Theme {
    fn default() -> (r: Theme)
        ensures
            r == default_theme(),
    {
        Theme {
            bg: 0x1e1e22,
            sidebar: 0x17171a,
            surface: 0x2f2f3a,
            hover: 0x2a2a30,
            selected: 0x33334a,
            border: 0x303036,
            border_strong: 0x3a3a44,
            text: 0xf0f0f4,
            text_muted: 0x8a8a92,
            text_dim: 0x6b6b73,
            accent: 0x7aa2f7,
        }
    }
}

/// The built-in themes, dark and light.
pub open spec fn preset_list() -> Seq<(Seq<char>, Theme)> {
    seq![
        ("Shuffle Dark"@, default_theme()),
        ("Catppuccin Mocha"@, Theme {
            bg: 0x1e1e2e,
            sidebar: 0x181825,
            surface: 0x313244,
            hover: 0x2a2b3c,
            selected: 0x45475a,
            border: 0x313244,
            border_strong: 0x45475a,
            text: 0xcdd6f4,
            text_muted: 0xa6adc8,
            text_dim: 0x6c7086,
            accent: 0x89b4fa,
        }),
        ("Catppuccin Macchiato"@, Theme {
            bg: 0x24273a,
            sidebar: 0x1e2030,
            surface: 0x363a4f,
            hover: 0x2e3148,
            selected: 0x494d64,
            border: 0x363a4f,
            border_strong: 0x494d64,
            text: 0xcad3f5,
            text_muted: 0xa5adcb,
            text_dim: 0x6e738d,
            accent: 0x8aadf4,
        }),
        ("Catppuccin Frappé"@, Theme {
            bg: 0x303446,
            sidebar: 0x292c3c,
            surface: 0x414559,
            hover: 0x3a3e52,
            selected: 0x51576d,
            border: 0x414559,
            border_strong: 0x51576d,
            text: 0xc6d0f5,
            text_muted: 0xa5adce,
            text_dim: 0x737994,
            accent: 0x8caaee,
        }),
        ("Catppuccin Latte"@, Theme {
            bg: 0xeff1f5,
            sidebar: 0xe6e9ef,
            surface: 0xccd0da,
            hover: 0xdce0e8,
            selected: 0xbcc0cc,
            border: 0xccd0da,
            border_strong: 0xbcc0cc,
            text: 0x4c4f69,
            text_muted: 0x6c6f85,
            text_dim: 0x9ca0b0,
            accent: 0x1e66f5,
        }),
        ("Dracula"@, dark_of(0x282a36, 0xf8f8f2, 0xbd93f9)),
        ("Nord"@, dark_of(0x2e3440, 0xe5e9f0, 0x88c0d0)),
        ("Tokyo Night"@, dark_of(0x1a1b26, 0xc0caf5, 0x7aa2f7)),
        ("Gruvbox Dark"@, dark_of(0x282828, 0xebdbb2, 0xfe8019)),
        ("One Dark"@, dark_of(0x282c34, 0xabb2bf, 0x61afef)),
        ("Solarized Dark"@, dark_of(0x002b36, 0x93a1a1, 0x268bd2)),
        ("Monokai"@, dark_of(0x272822, 0xf8f8f2, 0xa6e22e)),
        ("Everforest"@, dark_of(0x2d353b, 0xd3c6aa, 0xa7c080)),
        ("Rosé Pine"@, dark_of(0x191724, 0xe0def4, 0xeb6f92)),
        ("Forest"@, dark_of(0x10211a, 0xd6f5e3, 0x4ade80)),
        ("Crimson"@, dark_of(0x211315, 0xf8dcdc, 0xf87171)),
        ("Ocean"@, dark_of(0x0e1a26, 0xd6ecff, 0x38bdf8)),
        ("Grape"@, dark_of(0x1a1326, 0xece0f8, 0xc084fc)),
        ("Amber"@, dark_of(0x221a10, 0xf8ecd6, 0xfbbf24)),
        ("Rose"@, dark_of(0x241620, 0xf8dcee, 0xf472b6)),
        ("Teal"@, dark_of(0x0e201e, 0xd6f5f0, 0x2dd4bf)),
        ("Sunset"@, dark_of(0x241712, 0xfae5d8, 0xfb7185)),
        ("Solarized Light"@, light_of(0xfdf6e3, 0x586e75, 0x268bd2)),
        ("GitHub Light"@, light_of(0xffffff, 0x24292f, 0x0969da)),
        ("Rosé Pine Dawn"@, light_of(0xfaf4ed, 0x575279, 0xd7827e)),
        ("Mint"@, light_of(0xf0faf4, 0x14532d, 0x16a34a)),
        ("Sky"@, light_of(0xeff6ff, 0x1e3a5f, 0x2563eb)),
        ("Lavender"@, light_of(0xf6f2fe, 0x4c3a66, 0x8b5cf6)),
    ]
}

/// Named themes, with their names as characters.
pub open spec fn presets_view(v: Seq<(String, Theme)>) -> Seq<(Seq<char>, Theme)> {
    v.map_values(|p: (String, Theme)| (p.0@, p.1))
}

/// The built-in themes, in the order they are offered.
pub fn presets() -> (r: Vec<(String, Theme)>)
    ensures
        presets_view(r@) == preset_list(),
{
    let mut out: Vec<(String, Theme)> = Vec::new();
    out.push((owned("Shuffle Dark"), Theme::default()));
    out.push((owned("Catppuccin Mocha"), Theme {
        bg: 0x1e1e2e,
        sidebar: 0x181825,
        surface: 0x313244,
        hover: 0x2a2b3c,
        selected: 0x45475a,
        border: 0x313244,
        border_strong: 0x45475a,
        text: 0xcdd6f4,
        text_muted: 0xa6adc8,
        text_dim: 0x6c7086,
        accent: 0x89b4fa,
    }));
    out.push((owned("Catppuccin Macchiato"), Theme {
        bg: 0x24273a,
        sidebar: 0x1e2030,
        surface: 0x363a4f,
        hover: 0x2e3148,
        selected: 0x494d64,
        border: 0x363a4f,
        border_strong: 0x494d64,
        text: 0xcad3f5,
        text_muted: 0xa5adcb,
        text_dim: 0x6e738d,
        accent: 0x8aadf4,
    }));
    out.push((owned("Catppuccin Frappé"), Theme {
        bg: 0x303446,
        sidebar: 0x292c3c,
        surface: 0x414559,
        hover: 0x3a3e52,
        selected: 0x51576d,
        border: 0x414559,
        border_strong: 0x51576d,
        text: 0xc6d0f5,
        text_muted: 0xa5adce,
        text_dim: 0x737994,
        accent: 0x8caaee,
    }));
    out.push((owned("Catppuccin Latte"), Theme {
        bg: 0xeff1f5,
        sidebar: 0xe6e9ef,
        surface: 0xccd0da,
        hover: 0xdce0e8,
        selected: 0xbcc0cc,
        border: 0xccd0da,
        border_strong: 0xbcc0cc,
        text: 0x4c4f69,
        text_muted: 0x6c6f85,
        text_dim: 0x9ca0b0,
        accent: 0x1e66f5,
    }));
    out.push((owned("Dracula"), dark_theme(0x282a36, 0xf8f8f2, 0xbd93f9)));
    out.push((owned("Nord"), dark_theme(0x2e3440, 0xe5e9f0, 0x88c0d0)));
    out.push((owned("Tokyo Night"), dark_theme(0x1a1b26, 0xc0caf5, 0x7aa2f7)));
    out.push((owned("Gruvbox Dark"), dark_theme(0x282828, 0xebdbb2, 0xfe8019)));
    out.push((owned("One Dark"), dark_theme(0x282c34, 0xabb2bf, 0x61afef)));
    out.push((owned("Solarized Dark"), dark_theme(0x002b36, 0x93a1a1, 0x268bd2)));
    out.push((owned("Monokai"), dark_theme(0x272822, 0xf8f8f2, 0xa6e22e)));
    out.push((owned("Everforest"), dark_theme(0x2d353b, 0xd3c6aa, 0xa7c080)));
    out.push((owned("Rosé Pine"), dark_theme(0x191724, 0xe0def4, 0xeb6f92)));
    out.push((owned("Forest"), dark_theme(0x10211a, 0xd6f5e3, 0x4ade80)));
    out.push((owned("Crimson"), dark_theme(0x211315, 0xf8dcdc, 0xf87171)));
    out.push((owned("Ocean"), dark_theme(0x0e1a26, 0xd6ecff, 0x38bdf8)));
    out.push((owned("Grape"), dark_theme(0x1a1326, 0xece0f8, 0xc084fc)));
    out.push((owned("Amber"), dark_theme(0x221a10, 0xf8ecd6, 0xfbbf24)));
    out.push((owned("Rose"), dark_theme(0x241620, 0xf8dcee, 0xf472b6)));
    out.push((owned("Teal"), dark_theme(0x0e201e, 0xd6f5f0, 0x2dd4bf)));
    out.push((owned("Sunset"), dark_theme(0x241712, 0xfae5d8, 0xfb7185)));
    out.push((owned("Solarized Light"), light_theme(0xfdf6e3, 0x586e75, 0x268bd2)));
    out.push((owned("GitHub Light"), light_theme(0xffffff, 0x24292f, 0x0969da)));
    out.push((owned("Rosé Pine Dawn"), light_theme(0xfaf4ed, 0x575279, 0xd7827e)));
    out.push((owned("Mint"), light_theme(0xf0faf4, 0x14532d, 0x16a34a)));
    out.push((owned("Sky"), light_theme(0xeff6ff, 0x1e3a5f, 0x2563eb)));
    out.push((owned("Lavender"), light_theme(0xf6f2fe, 0x4c3a66, 0x8b5cf6)));
    proof {
        assert(presets_view(out@) =~= preset_list());
    }
    out
}

// ----- the saved form ------------------------------------------------------------------

/// The colors of a theme, in the order they are saved.
pub open spec fn theme_colors(t: Theme) -> Seq<u32> {
    seq![
        t.bg,
        t.sidebar,
        t.surface,
        t.hover,
        t.selected,
        t.border,
        t.border_strong,
        t.text,
        t.text_muted,
        t.text_dim,
        t.accent,
    ]
}

/// The theme with the given colors.
pub open spec fn theme_with(v: Seq<u32>) -> Theme {
    Theme {
        bg: v[0],
        sidebar: v[1],
        surface: v[2],
        hover: v[3],
        selected: v[4],
        border: v[5],
        border_strong: v[6],
        text: v[7],
        text_muted: v[8],
        text_dim: v[9],
        accent: v[10],
    }
}

/// Colors as lines of hexadecimal digits.
pub open spec fn color_lines(v: Seq<u32>) -> Seq<Seq<char>> {
    v.map_values(|c: u32| hex6_of(c as nat))
}

/// The colors on the lines that hold one.
pub open spec fn colors_of(ls: Seq<Seq<char>>) -> Seq<u32>
    decreases ls.len(),
{
    if ls.len() == 0 {
        Seq::empty()
    } else {
        let head = colors_of(ls.drop_last());
        match parsed(trimmed(ls.last()), 16, u32::MAX as nat) {
            Some(n) => head.push(n as u32),
            None => head,
        }
    }
}

/// The theme that saved lines stand for: the default one unless they hold
/// exactly eleven colors.
pub open spec fn theme_of_lines(ls: Seq<Seq<char>>) -> Theme {
    if colors_of(ls).len() == 11 {
        theme_with(colors_of(ls))
    } else {
        default_theme()
    }
}

/// The text a theme is saved as: one color on each line.
pub fn save_theme(t: &Theme) -> (r: String)
    ensures
        r@ == stacked(color_lines(theme_colors(*t))),
{
    let mut ls: Vec<String> = Vec::new();
    ls.push(hex6(t.bg));
    ls.push(hex6(t.sidebar));
    ls.push(hex6(t.surface));
    ls.push(hex6(t.hover));
    ls.push(hex6(t.selected));
    ls.push(hex6(t.border));
    ls.push(hex6(t.border_strong));
    ls.push(hex6(t.text));
    ls.push(hex6(t.text_muted));
    ls.push(hex6(t.text_dim));
    ls.push(hex6(t.accent));
    proof {
        assert(texts(ls@) =~= color_lines(theme_colors(*t)));
    }
    stack_lines(&ls)
}

/// The theme that a saved text stands for.
pub fn load_theme(text: &str) -> (r: Theme)
    ensures
        r == theme_of_lines(lines_of(text@)),
{
    let all = lines(text);
    let mut v: Vec<u32> = Vec::new();
    let mut i: usize = 0;
    while i < all.len()
        invariant
            i <= all.len(),
            texts(all@) == lines_of(text@),
            v@ == colors_of(texts(all@).take(i as int)),
        decreases all.len() - i,
    {
        proof {
            let t = texts(all@);
            assert(t.take(i + 1).drop_last() == t.take(i as int));
            assert(t.take(i + 1).last() == all@[i as int]@);
        }
        match parse_number(trim(all[i].as_str()).as_str(), 16, u32::MAX as u64) {
            Some(n) => {
                v.push(n as u32);
            },
            None => {},
        }
        i += 1;
    }
    proof {
        assert(texts(all@).take(i as int) == texts(all@));
    }
    if v.len() == 11 {
        Theme {
            bg: v[0],
            sidebar: v[1],
            surface: v[2],
            hover: v[3],
            selected: v[4],
            border: v[5],
            border_strong: v[6],
            text: v[7],
            text_muted: v[8],
            text_dim: v[9],
            accent: v[10],
        }
    } else {
        Theme::default()
    }
}

proof fn lemma_colors_read_back(v: Seq<u32>)
    ensures
        colors_of(color_lines(v)) == v,
        forall|i: int| 0 <= i < color_lines(v).len() ==> one_line(#[trigger] color_lines(v)[i]),
    decreases v.len(),
{
    assert forall|i: int| 0 <= i < color_lines(v).len() implies one_line(
        #[trigger] color_lines(v)[i],
    ) by {
        law_hex6_reads_back(v[i]);
        lemma_plain_digits(hex6_of(v[i] as nat));
    }
    if v.len() > 0 {
        let h = v.drop_last();
        lemma_colors_read_back(h);
        assert(color_lines(v).drop_last() == color_lines(h));
        law_hex6_reads_back(v.last());
        lemma_plain_digits(hex6_of(v.last() as nat));
        lemma_trimmed_fixpoint(hex6_of(v.last() as nat));
        assert(h.push(v.last()) == v);
    }
}

/// Every theme reads back as it was saved.
pub proof fn law_theme_reads_back(t: Theme)
    ensures
        theme_of_lines(lines_of(stacked(color_lines(theme_colors(t))))) == t,
{
    let v = theme_colors(t);
    lemma_colors_read_back(v);
    lemma_stacked_lines(color_lines(v));
}

/// A color scaled by one is itself, for every color 0xRRGGBB.
pub proof fn law_scale_by_one(c: int)
    requires
        0 <= c < 0x100_0000,
    ensures
        scaled_color(c, 1, 1) == c,
{
    reveal(scaled_color);
}

// ----- swatches ------------------------------------------------------------------------

/// How far two whole numbers are apart.
pub open spec fn apart(a: int, b: int) -> int {
    if a >= b {
        a - b
    } else {
        b - a
    }
}

/// `a / b` rounded to the nearest whole number, halves up.
pub open spec fn half_up(a: int, b: int) -> int {
    (2 * a + b) / (2 * b)
}

/// The share of a color of the wheel that its strongest part has, in parts of
/// ten thousand: `s` and `l` are saturation and lightness in percent.
pub open spec fn chroma(s: int, l: int) -> int {
    (100 - apart(2 * l, 100)) * s
}

/// How far a hue stands from the nearest pure color on its left, in degrees, back
/// and forth between zero and sixty.
pub open spec fn hue_turn(h: int) -> int {
    60 - apart(h % 120, 60)
}

/// A part of a color: `v` of 1,200,000 parts above what all parts share.
pub open spec fn color_share(v: int, s: int, l: int) -> int {
    half_up((v + 12_000 * l - 60 * chroma(s, l)) * 255, 1_200_000)
}

/// The color with hue `h` in degrees and saturation `s` and lightness `l` in
/// percent: the hue says which part is strongest, which one stands between, and
/// which one is weakest.
pub open spec fn hsl_color(h: int, s: int, l: int) -> int {
    let c = 120 * chroma(s, l);
    let x = 2 * chroma(s, l) * hue_turn(h);
    let part = h / 60;
    let (r, g, b): (int, int, int) = if part == 0 {
        (c, x, 0)
    } else if part == 1 {
        (x, c, 0)
    } else if part == 2 {
        (0, c, x)
    } else if part == 3 {
        (0, x, c)
    } else if part == 4 {
        (x, 0, c)
    } else {
        (c, 0, x)
    };
    color_share(r, s, l) * 0x10000 + color_share(g, s, l) * 0x100 + color_share(b, s, l)
}

/// A gray, `i` twelfths of the way from black to white.
pub open spec fn gray(i: int) -> int {
    half_up(i * 255, 12) * 0x10101
}

/// The lightness of the swatches of a hue, in percent.
pub open spec fn swatch_lights() -> Seq<int> {
    seq![18, 30, 42, 55, 68, 82]
}

/// The swatches to choose colors from: grays, then every twelfth of the wheel from
/// dark to light.
pub open spec fn palette_swatches() -> Seq<int> {
    Seq::new(13, |i: int| gray(i)) + Seq::new(
        72,
        |k: int| hsl_color(k / 6 * 30, 65, swatch_lights()[k % 6]),
    )
}

/// Colors, as whole numbers.
pub open spec fn color_ints(v: Seq<u32>) -> Seq<int> {
    v.map_values(|c: u32| c as int)
}

proof fn lemma_shares(s: int, l: int, t: int)
    requires
        0 <= s <= 100,
        0 <= l <= 100,
        0 <= t <= 60,
    ensures
        0 <= chroma(s, l) <= 10_000,
        0 <= chroma(s, l) * t <= 60 * chroma(s, l),
        60 * chroma(s, l) <= 12_000 * l,
        60 * chroma(s, l) + 12_000 * l <= 1_200_000,
{
    let a = 100 - apart(2 * l, 100);
    assert(0 <= a * s <= a * 100) by (nonlinear_arith)
        requires
            0 <= a,
            0 <= s <= 100,
    ;
    let c = a * s;
    assert(0 <= c * t <= c * 60) by (nonlinear_arith)
        requires
            0 <= c,
            0 <= t <= 60,
    ;
}

fn share(v: u32, shared: u32) -> (r: u32)
    requires
        v + shared <= 1_200_000,
    ensures
        r == half_up((v + shared) * 255, 1_200_000),
        r <= 255,
{
    (2 * ((v + shared) * 255) + 1_200_000) / 2_400_000
}

/// The color with hue `h` in degrees and saturation `s` and lightness `l` in
/// percent.
pub fn hsl_to_rgb(h: u32, s: u32, l: u32) -> (r: u32)
    requires
        h < 360,
        s <= 100,
        l <= 100,
    ensures
        r == hsl_color(h as int, s as int, l as int),
        r < 0x100_0000,
{
    let spread: u32 = if 2 * l >= 100 {
        2 * l - 100
    } else {
        100 - 2 * l
    };
    let at: u32 = h % 120;
    let turn: u32 = if at >= 60 {
        120 - at
    } else {
        at
    };
    proof {
        lemma_shares(s as int, l as int, turn as int);
        let (a, b) = (100 - spread, s as int);
        assert(a * b <= 10_000) by (nonlinear_arith)
            requires
                0 <= a <= 100,
                0 <= b <= 100,
        ;
    }
    let c: u32 = (100 - spread) * s;
    proof {
        let (k, t) = (c as int, turn as int);
        assert(2 * k * t == 2 * (k * t)) by (nonlinear_arith);
    }
    let top: u32 = 120 * c;
    let mid: u32 = 2 * c * turn;
    let shared: u32 = 12_000 * l - 60 * c;
    let part: u32 = h / 60;
    let (r, g, b): (u32, u32, u32) = if part == 0 {
        (top, mid, 0)
    } else if part == 1 {
        (mid, top, 0)
    } else if part == 2 {
        (0, top, mid)
    } else if part == 3 {
        (0, mid, top)
    } else if part == 4 {
        (mid, 0, top)
    } else {
        (top, 0, mid)
    };
    share(r, shared) * 0x10000 + share(g, shared) * 0x100 + share(b, shared)
}

fn swatch_light(i: usize) -> (r: u32)
    requires
        i < 6,
    ensures
        r == swatch_lights()[i as int],
        r <= 100,
{
    if i == 0 {
        18
    } else if i == 1 {
        30
    } else if i == 2 {
        42
    } else if i == 3 {
        55
    } else if i == 4 {
        68
    } else {
        82
    }
}

/// The swatches to choose colors from.
pub fn palette_colors() -> (r: Vec<u32>)
    ensures
        color_ints(r@) == palette_swatches(),
{
    let mut out: Vec<u32> = Vec::new();
    let ghost all = palette_swatches();
    let mut i: u32 = 0;
    proof {
        assert(color_ints(out@) =~= all.take(0));
    }
    while i < 13
        invariant
            i <= 13,
            all == palette_swatches(),
            color_ints(out@) == all.take(i as int),
        decreases 13 - i,
    {
        let v: u32 = (2 * (i * 255) + 12) / 24;
        let ghost before = color_ints(out@);
        out.push(v * 0x10101);
        proof {
            assert(all[i as int] == gray(i as int));
            assert(color_ints(out@) =~= before.push(gray(i as int)));
            assert(color_ints(out@) =~= all.take(i + 1));
        }
        i += 1;
    }
    let mut k: usize = 0;
    while k < 72
        invariant
            k <= 72,
            all == palette_swatches(),
            color_ints(out@) == all.take(13 + k),
        decreases 72 - k,
    {
        let hue: u32 = (k / 6 * 30) as u32;
        let c = hsl_to_rgb(hue, 65, swatch_light(k % 6));
        let ghost before = color_ints(out@);
        out.push(c);
        proof {
            assert(all[13 + k] == hsl_color(k as int / 6 * 30, 65, swatch_lights()[k as int % 6]));
            assert(color_ints(out@) =~= before.push(c as int));
            assert(color_ints(out@) =~= all.take(13 + k + 1));
        }
        k += 1;
    }
    proof {
        assert(all.take(85) =~= all);
    }
    out
}

} // verus!
