//! Feature preferences and the saved forms of preferences, menu style and icon
//! background.

use crate::persist::{lemma_stacked_lines, stack_lines, stacked};
use crate::text::{
    concat, decimal, decimal_of, is_trimmed, law_decimal_reads_back, lemma_plain_digits,
    lemma_trimmed_fixpoint, lemma_until, lemma_until_at, lines, lines_of, one_line, parse_number,
    parsed, same, split_first, split_once, texts, trim, trimmed,
};
use vstd::prelude::*;

verus! {

/// The most recent folders that are kept.
pub const RECENTS_CAP: usize = 12;

/// The features that can be switched on and off.
#[derive(Clone, Copy, PartialEq, Eq, Structural, Debug)]
pub struct Prefs {
    /// Show a command input below the listing.
    pub terminal: bool,
    /// Also show what was typed and printed there.
    pub term_history: bool,
    /// Show a preview of the selected file.
    pub preview: bool,
    /// Show page arrows on PDF previews.
    pub preview_pages: bool,
    /// Show information on the selected file.
    pub info: bool,
    /// Show the row `..` that goes up one level.
    pub show_parent: bool,
    /// Collapse the sidebar to icons.
    pub sidebar_collapsed: bool,
    /// How many recent folders the sidebar shows.
    pub recent_limit: usize,
    /// Keep a history of palette queries.
    pub palette_history: bool,
    /// Show groups in the sidebar.
    pub groups_enabled: bool,
    /// Show a frame-rate meter.
    pub show_fps: bool,
}

/// The preferences until they are changed.
pub open spec fn default_prefs() -> Prefs {
    Prefs {
        terminal: false,
        term_history: false,
        preview: false,
        preview_pages: true,
        info: false,
        show_parent: true,
        sidebar_collapsed: false,
        recent_limit: 3,
        palette_history: false,
        groups_enabled: false,
        show_fps: false,
    }
}

impl Default for Prefs {
    fn default() -> (r: Prefs)
        ensures
            r == default_prefs(),
    {
        Prefs {
            terminal: false,
            term_history: false,
            preview: false,
            preview_pages: true,
            info: false,
            show_parent: true,
            sidebar_collapsed: false,
            recent_limit: 3,
            palette_history: false,
            groups_enabled: false,
            show_fps: false,
        }
    }
}

/// How a switch is written.
pub open spec fn switch_text(on: bool) -> Seq<char> {
    if on {
        "true"@
    } else {
        "false"@
    }
}

fn switch(on: bool) -> (r: &'static str)
    ensures
        r@ == switch_text(on),
{
    if on {
        "true"
    } else {
        "false"
    }
}

/// A setting as it is saved: its name, an equals sign, its value.
#[verifier::opaque]
pub open spec fn setting_line(name: Seq<char>, value: Seq<char>) -> Seq<char> {
    name + "="@ + value
}

/// The saved lines of the preferences.
pub open spec fn pref_lines(p: Prefs) -> Seq<Seq<char>> {
    seq![
        setting_line("terminal"@, switch_text(p.terminal)),
        setting_line("term_history"@, switch_text(p.term_history)),
        setting_line("preview"@, switch_text(p.preview)),
        setting_line("preview_pages"@, switch_text(p.preview_pages)),
        setting_line("info"@, switch_text(p.info)),
        setting_line("show_parent"@, switch_text(p.show_parent)),
        setting_line("sidebar_collapsed"@, switch_text(p.sidebar_collapsed)),
        setting_line("recent_limit"@, decimal_of(p.recent_limit as nat)),
        setting_line("palette_history"@, switch_text(p.palette_history)),
        setting_line("groups_enabled"@, switch_text(p.groups_enabled)),
        setting_line("show_fps"@, switch_text(p.show_fps)),
    ]
}

fn setting(name: &str, value: &str) -> (r: String)
    ensures
        r@ == setting_line(name@, value@),
{
    proof {
        reveal(setting_line);
    }
    concat(concat(name, "=").as_str(), value)
}

/// The text the preferences are saved as.
pub fn save_prefs(p: &Prefs) -> (r: String)
    ensures
        r@ == stacked(pref_lines(*p)),
{
    let mut ls: Vec<String> = Vec::new();
    ls.push(setting("terminal", switch(p.terminal)));
    ls.push(setting("term_history", switch(p.term_history)));
    ls.push(setting("preview", switch(p.preview)));
    ls.push(setting("preview_pages", switch(p.preview_pages)));
    ls.push(setting("info", switch(p.info)));
    ls.push(setting("show_parent", switch(p.show_parent)));
    ls.push(setting("sidebar_collapsed", switch(p.sidebar_collapsed)));
    ls.push(setting("recent_limit", decimal(p.recent_limit as u64).as_str()));
    ls.push(setting("palette_history", switch(p.palette_history)));
    ls.push(setting("groups_enabled", switch(p.groups_enabled)));
    ls.push(setting("show_fps", switch(p.show_fps)));
    proof {
        assert(texts(ls@) =~= pref_lines(*p));
    }
    stack_lines(&ls)
}

/// The preferences after one setting is read. Anything but `true` switches a
/// feature off; a limit that is no number is ignored.
#[verifier::opaque]
pub open spec fn with_setting(p: Prefs, name: Seq<char>, value: Seq<char>) -> Prefs {
    let on = value == "true"@;
    if name == "terminal"@ {
        Prefs { terminal: on, ..p }
    } else if name == "term_history"@ {
        Prefs { term_history: on, ..p }
    } else if name == "preview"@ {
        Prefs { preview: on, ..p }
    } else if name == "preview_pages"@ {
        Prefs { preview_pages: on, ..p }
    } else if name == "info"@ {
        Prefs { info: on, ..p }
    } else if name == "show_parent"@ {
        Prefs { show_parent: on, ..p }
    } else if name == "sidebar_collapsed"@ {
        Prefs { sidebar_collapsed: on, ..p }
    } else if name == "recent_limit"@ {
        match parsed(value, 10, usize::MAX as nat) {
            Some(n) => Prefs {
                recent_limit: (if n < RECENTS_CAP {
                    n
                } else {
                    RECENTS_CAP as nat
                }) as usize,
                ..p
            },
            None => p,
        }
    } else if name == "palette_history"@ {
        Prefs { palette_history: on, ..p }
    } else if name == "groups_enabled"@ {
        Prefs { groups_enabled: on, ..p }
    } else if name == "show_fps"@ {
        Prefs { show_fps: on, ..p }
    } else {
        p
    }
}

/// The preferences after one saved line is read.
pub open spec fn with_pref_line(p: Prefs, line: Seq<char>) -> Prefs {
    match split_first(line, '=') {
        Some((k, v)) => with_setting(p, trimmed(k), trimmed(v)),
        None => p,
    }
}

/// The preferences after saved lines are read.
pub open spec fn prefs_of(p: Prefs, ls: Seq<Seq<char>>) -> Prefs
    decreases ls.len(),
{
    if ls.len() == 0 {
        p
    } else {
        with_pref_line(prefs_of(p, ls.drop_last()), ls.last())
    }
}

fn set_pref(p: Prefs, name: &str, value: &str) -> (r: Prefs)
    ensures
        r == with_setting(p, name@, value@),
{
    let mut q = p;
    proof {
        reveal(with_setting);
    }
    let on = same(value, "true");
    if same(name, "terminal") {
        q.terminal = on;
    } else if same(name, "term_history") {
        q.term_history = on;
    } else if same(name, "preview") {
        q.preview = on;
    } else if same(name, "preview_pages") {
        q.preview_pages = on;
    } else if same(name, "info") {
        q.info = on;
    } else if same(name, "show_parent") {
        q.show_parent = on;
    } else if same(name, "sidebar_collapsed") {
        q.sidebar_collapsed = on;
    } else if same(name, "recent_limit") {
        match parse_number(value, 10, usize::MAX as u64) {
            Some(n) => {
                let m: usize = n as usize;
                q.recent_limit = if m < RECENTS_CAP {
                    m
                } else {
                    RECENTS_CAP
                };
            },
            None => {},
        }
    } else if same(name, "palette_history") {
        q.palette_history = on;
    } else if same(name, "groups_enabled") {
        q.groups_enabled = on;
    } else if same(name, "show_fps") {
        q.show_fps = on;
    }
    q
}

/// The preferences that a saved text stands for: the defaults, changed by each
/// line.
pub fn load_prefs(text: &str) -> (r: Prefs)
    ensures
        r == prefs_of(default_prefs(), lines_of(text@)),
{
    let all = lines(text);
    let mut p = Prefs::default();
    let mut i: usize = 0;
    while i < all.len()
        invariant
            i <= all.len(),
            texts(all@) == lines_of(text@),
            p == prefs_of(default_prefs(), texts(all@).take(i as int)),
        decreases all.len() - i,
    {
        proof {
            let t = texts(all@);
            assert(t.take(i + 1).drop_last() == t.take(i as int));
            assert(t.take(i + 1).last() == all@[i as int]@);
        }
        match split_once(all[i].as_str(), '=') {
            Some((k, v)) => {
                p = set_pref(p, trim(k.as_str()).as_str(), trim(v.as_str()).as_str());
            },
            None => {},
        }
        i += 1;
    }
    proof {
        assert(texts(all@).take(i as int) == texts(all@));
    }
    p
}

/// A name or value that can stand in a saved setting.
#[verifier::opaque]
pub open spec fn bare_word(s: Seq<char>) -> bool {
    s.len() > 0 && is_trimmed(s) && !s.contains('\n') && !s.contains('=')
}

proof fn lemma_setting_line(p: Prefs, name: Seq<char>, value: Seq<char>)
    requires
        bare_word(name),
        bare_word(value),
    ensures
        one_line(setting_line(name, value)),
        with_pref_line(p, setting_line(name, value)) == with_setting(p, name, value),
{
    let line = setting_line(name, value);
    reveal(bare_word);
    reveal(setting_line);
    reveal_strlit("=");
    assert(line.len() == name.len() + 1 + value.len());
    assert(line[name.len() as int] == '=');
    assert forall|k: int| 0 <= k < name.len() implies #[trigger] line[k] != '=' by {
        assert(line[k] == name[k]);
        assert(name.contains(name[k]));
    }
    lemma_until_at(line, '=', name.len() as int);
    assert(line.take(name.len() as int) == name);
    assert(line.skip(name.len() as int + 1) == value);
    lemma_trimmed_fixpoint(name);
    lemma_trimmed_fixpoint(value);
    if line.contains('\n') {
        let k = choose|k: int| 0 <= k < line.len() && line[k] == '\n';
        if k < name.len() {
            assert(name[k] == '\n');
        } else {
            assert(value[k - name.len() - 1] == '\n');
        }
    }
    assert(line.last() == value.last());
}

proof fn lemma_pref_words(p: Prefs)
    ensures
        bare_word("true"@),
        bare_word("false"@),
        bare_word(decimal_of(p.recent_limit as nat)),
        "true"@ != "false"@,
        bare_word("terminal"@),
        bare_word("term_history"@),
        bare_word("preview"@),
        bare_word("preview_pages"@),
        bare_word("info"@),
        bare_word("show_parent"@),
        bare_word("sidebar_collapsed"@),
        bare_word("recent_limit"@),
        bare_word("palette_history"@),
        bare_word("groups_enabled"@),
        bare_word("show_fps"@),
{
    reveal(bare_word);
    reveal_strlit("true");
    reveal_strlit("false");
    assert("true"@.len() != "false"@.len());
    reveal_strlit("terminal");
    reveal_strlit("term_history");
    reveal_strlit("preview");
    reveal_strlit("preview_pages");
    reveal_strlit("info");
    reveal_strlit("show_parent");
    reveal_strlit("sidebar_collapsed");
    reveal_strlit("recent_limit");
    reveal_strlit("palette_history");
    reveal_strlit("groups_enabled");
    reveal_strlit("show_fps");
    law_decimal_reads_back(p.recent_limit as nat, p.recent_limit as nat);
    lemma_plain_digits(decimal_of(p.recent_limit as nat));
}

proof fn lemma_pref_names_differ()
    ensures
        "terminal"@ != "term_history"@,
        "terminal"@ != "preview"@,
        "terminal"@ != "preview_pages"@,
        "terminal"@ != "info"@,
        "terminal"@ != "show_parent"@,
        "terminal"@ != "sidebar_collapsed"@,
        "terminal"@ != "recent_limit"@,
        "terminal"@ != "palette_history"@,
        "terminal"@ != "groups_enabled"@,
        "terminal"@ != "show_fps"@,
        "term_history"@ != "preview"@,
        "term_history"@ != "preview_pages"@,
        "term_history"@ != "info"@,
        "term_history"@ != "show_parent"@,
        "term_history"@ != "sidebar_collapsed"@,
        "term_history"@ != "recent_limit"@,
        "term_history"@ != "palette_history"@,
        "term_history"@ != "groups_enabled"@,
        "term_history"@ != "show_fps"@,
        "preview"@ != "preview_pages"@,
        "preview"@ != "info"@,
        "preview"@ != "show_parent"@,
        "preview"@ != "sidebar_collapsed"@,
        "preview"@ != "recent_limit"@,
        "preview"@ != "palette_history"@,
        "preview"@ != "groups_enabled"@,
        "preview"@ != "show_fps"@,
        "preview_pages"@ != "info"@,
        "preview_pages"@ != "show_parent"@,
        "preview_pages"@ != "sidebar_collapsed"@,
        "preview_pages"@ != "recent_limit"@,
        "preview_pages"@ != "palette_history"@,
        "preview_pages"@ != "groups_enabled"@,
        "preview_pages"@ != "show_fps"@,
        "info"@ != "show_parent"@,
        "info"@ != "sidebar_collapsed"@,
        "info"@ != "recent_limit"@,
        "info"@ != "palette_history"@,
        "info"@ != "groups_enabled"@,
        "info"@ != "show_fps"@,
        "show_parent"@ != "sidebar_collapsed"@,
        "show_parent"@ != "recent_limit"@,
        "show_parent"@ != "palette_history"@,
        "show_parent"@ != "groups_enabled"@,
        "show_parent"@ != "show_fps"@,
        "sidebar_collapsed"@ != "recent_limit"@,
        "sidebar_collapsed"@ != "palette_history"@,
        "sidebar_collapsed"@ != "groups_enabled"@,
        "sidebar_collapsed"@ != "show_fps"@,
        "recent_limit"@ != "palette_history"@,
        "recent_limit"@ != "groups_enabled"@,
        "recent_limit"@ != "show_fps"@,
        "palette_history"@ != "groups_enabled"@,
        "palette_history"@ != "show_fps"@,
        "groups_enabled"@ != "show_fps"@,
{
    reveal_strlit("terminal");
    reveal_strlit("term_history");
    reveal_strlit("preview");
    reveal_strlit("preview_pages");
    reveal_strlit("info");
    reveal_strlit("show_parent");
    reveal_strlit("sidebar_collapsed");
    reveal_strlit("recent_limit");
    reveal_strlit("palette_history");
    reveal_strlit("groups_enabled");
    reveal_strlit("show_fps");
    assert("terminal"@.len() != "term_history"@.len());
    assert("terminal"@.len() != "preview"@.len());
    assert("terminal"@.len() != "preview_pages"@.len());
    assert("terminal"@.len() != "info"@.len());
    assert("terminal"@.len() != "show_parent"@.len());
    assert("terminal"@.len() != "sidebar_collapsed"@.len());
    assert("terminal"@.len() != "recent_limit"@.len());
    assert("terminal"@.len() != "palette_history"@.len());
    assert("terminal"@.len() != "groups_enabled"@.len());
    assert("terminal"@[0] != "show_fps"@[0]);
    assert("term_history"@.len() != "preview"@.len());
    assert("term_history"@.len() != "preview_pages"@.len());
    assert("term_history"@.len() != "info"@.len());
    assert("term_history"@.len() != "show_parent"@.len());
    assert("term_history"@.len() != "sidebar_collapsed"@.len());
    assert("term_history"@[0] != "recent_limit"@[0]);
    assert("term_history"@.len() != "palette_history"@.len());
    assert("term_history"@.len() != "groups_enabled"@.len());
    assert("term_history"@.len() != "show_fps"@.len());
    assert("preview"@.len() != "preview_pages"@.len());
    assert("preview"@.len() != "info"@.len());
    assert("preview"@.len() != "show_parent"@.len());
    assert("preview"@.len() != "sidebar_collapsed"@.len());
    assert("preview"@.len() != "recent_limit"@.len());
    assert("preview"@.len() != "palette_history"@.len());
    assert("preview"@.len() != "groups_enabled"@.len());
    assert("preview"@.len() != "show_fps"@.len());
    assert("preview_pages"@.len() != "info"@.len());
    assert("preview_pages"@.len() != "show_parent"@.len());
    assert("preview_pages"@.len() != "sidebar_collapsed"@.len());
    assert("preview_pages"@.len() != "recent_limit"@.len());
    assert("preview_pages"@.len() != "palette_history"@.len());
    assert("preview_pages"@.len() != "groups_enabled"@.len());
    assert("preview_pages"@.len() != "show_fps"@.len());
    assert("info"@.len() != "show_parent"@.len());
    assert("info"@.len() != "sidebar_collapsed"@.len());
    assert("info"@.len() != "recent_limit"@.len());
    assert("info"@.len() != "palette_history"@.len());
    assert("info"@.len() != "groups_enabled"@.len());
    assert("info"@.len() != "show_fps"@.len());
    assert("show_parent"@.len() != "sidebar_collapsed"@.len());
    assert("show_parent"@.len() != "recent_limit"@.len());
    assert("show_parent"@.len() != "palette_history"@.len());
    assert("show_parent"@.len() != "groups_enabled"@.len());
    assert("show_parent"@.len() != "show_fps"@.len());
    assert("sidebar_collapsed"@.len() != "recent_limit"@.len());
    assert("sidebar_collapsed"@.len() != "palette_history"@.len());
    assert("sidebar_collapsed"@.len() != "groups_enabled"@.len());
    assert("sidebar_collapsed"@.len() != "show_fps"@.len());
    assert("recent_limit"@.len() != "palette_history"@.len());
    assert("recent_limit"@.len() != "groups_enabled"@.len());
    assert("recent_limit"@.len() != "show_fps"@.len());
    assert("palette_history"@.len() != "groups_enabled"@.len());
    assert("palette_history"@.len() != "show_fps"@.len());
    assert("groups_enabled"@.len() != "show_fps"@.len());
}

proof fn lemma_set_terminal(b: Prefs, on: bool)
    ensures
        with_setting(b, "terminal"@, switch_text(on)) == (Prefs { terminal: on, ..b }),
{
    reveal(with_setting);
    lemma_pref_names_differ();
    lemma_pref_words(b);
}

proof fn lemma_set_term_history(b: Prefs, on: bool)
    ensures
        with_setting(b, "term_history"@, switch_text(on)) == (Prefs { term_history: on, ..b }),
{
    reveal(with_setting);
    lemma_pref_names_differ();
    lemma_pref_words(b);
}

proof fn lemma_set_preview(b: Prefs, on: bool)
    ensures
        with_setting(b, "preview"@, switch_text(on)) == (Prefs { preview: on, ..b }),
{
    reveal(with_setting);
    lemma_pref_names_differ();
    lemma_pref_words(b);
}

proof fn lemma_set_preview_pages(b: Prefs, on: bool)
    ensures
        with_setting(b, "preview_pages"@, switch_text(on)) == (Prefs { preview_pages: on, ..b }),
{
    reveal(with_setting);
    lemma_pref_names_differ();
    lemma_pref_words(b);
}

proof fn lemma_set_info(b: Prefs, on: bool)
    ensures
        with_setting(b, "info"@, switch_text(on)) == (Prefs { info: on, ..b }),
{
    reveal(with_setting);
    lemma_pref_names_differ();
    lemma_pref_words(b);
}

proof fn lemma_set_show_parent(b: Prefs, on: bool)
    ensures
        with_setting(b, "show_parent"@, switch_text(on)) == (Prefs { show_parent: on, ..b }),
{
    reveal(with_setting);
    lemma_pref_names_differ();
    lemma_pref_words(b);
}

proof fn lemma_set_sidebar_collapsed(b: Prefs, on: bool)
    ensures
        with_setting(b, "sidebar_collapsed"@, switch_text(on)) == (Prefs { sidebar_collapsed: on, ..b }),
{
    reveal(with_setting);
    lemma_pref_names_differ();
    lemma_pref_words(b);
}

proof fn lemma_set_recent_limit(b: Prefs, n: usize)
    requires
        n <= RECENTS_CAP,
    ensures
        with_setting(b, "recent_limit"@, decimal_of(n as nat)) == (Prefs { recent_limit: n, ..b }),
{
    reveal(with_setting);
    lemma_pref_names_differ();
    law_decimal_reads_back(n as nat, usize::MAX as nat);
}

proof fn lemma_set_palette_history(b: Prefs, on: bool)
    ensures
        with_setting(b, "palette_history"@, switch_text(on)) == (Prefs { palette_history: on, ..b }),
{
    reveal(with_setting);
    lemma_pref_names_differ();
    lemma_pref_words(b);
}

proof fn lemma_set_groups_enabled(b: Prefs, on: bool)
    ensures
        with_setting(b, "groups_enabled"@, switch_text(on)) == (Prefs { groups_enabled: on, ..b }),
{
    reveal(with_setting);
    lemma_pref_names_differ();
    lemma_pref_words(b);
}

proof fn lemma_set_show_fps(b: Prefs, on: bool)
    ensures
        with_setting(b, "show_fps"@, switch_text(on)) == (Prefs { show_fps: on, ..b }),
{
    reveal(with_setting);
    lemma_pref_names_differ();
    lemma_pref_words(b);
}

/// Preferences read back as they were saved; the recent limit never goes beyond
/// the number of recent folders kept.
pub proof fn law_prefs_read_back(p: Prefs)
    requires
        p.recent_limit <= RECENTS_CAP,
    ensures
        prefs_of(default_prefs(), lines_of(stacked(pref_lines(p)))) == p,
{
    let ls = pref_lines(p);
    lemma_pref_lines_read(p, ls);
    lemma_stacked_lines(ls);
}

proof fn lemma_pref_lines_read(p: Prefs, ls: Seq<Seq<char>>)
    requires
        p.recent_limit <= RECENTS_CAP,
        ls.len() == 11,
        ls[0] == setting_line("terminal"@, switch_text(p.terminal)),
        ls[1] == setting_line("term_history"@, switch_text(p.term_history)),
        ls[2] == setting_line("preview"@, switch_text(p.preview)),
        ls[3] == setting_line("preview_pages"@, switch_text(p.preview_pages)),
        ls[4] == setting_line("info"@, switch_text(p.info)),
        ls[5] == setting_line("show_parent"@, switch_text(p.show_parent)),
        ls[6] == setting_line("sidebar_collapsed"@, switch_text(p.sidebar_collapsed)),
        ls[7] == setting_line("recent_limit"@, decimal_of(p.recent_limit as nat)),
        ls[8] == setting_line("palette_history"@, switch_text(p.palette_history)),
        ls[9] == setting_line("groups_enabled"@, switch_text(p.groups_enabled)),
        ls[10] == setting_line("show_fps"@, switch_text(p.show_fps)),
    ensures
        prefs_of(default_prefs(), ls) == p,
        forall|i: int| 0 <= i < ls.len() ==> one_line(#[trigger] ls[i]),
{
    lemma_pref_words(p);
    let p0 = default_prefs();
    assert(ls.take(0) == Seq::<Seq<char>>::empty());
    assert(prefs_of(p0, ls.take(0)) == p0);
    let p1 = Prefs { terminal: p.terminal, ..p0 };
    assert(prefs_of(p0, ls.take(1)) == p1 && one_line(ls[0])) by {
        lemma_set_terminal(p0, p.terminal);
        lemma_prefs_step(p0, ls, 0, "terminal"@, switch_text(p.terminal), p0);
    }
    let p2 = Prefs { term_history: p.term_history, ..p1 };
    assert(prefs_of(p0, ls.take(2)) == p2 && one_line(ls[1])) by {
        lemma_set_term_history(p1, p.term_history);
        lemma_prefs_step(p0, ls, 1, "term_history"@, switch_text(p.term_history), p1);
    }
    let p3 = Prefs { preview: p.preview, ..p2 };
    assert(prefs_of(p0, ls.take(3)) == p3 && one_line(ls[2])) by {
        lemma_set_preview(p2, p.preview);
        lemma_prefs_step(p0, ls, 2, "preview"@, switch_text(p.preview), p2);
    }
    let p4 = Prefs { preview_pages: p.preview_pages, ..p3 };
    assert(prefs_of(p0, ls.take(4)) == p4 && one_line(ls[3])) by {
        lemma_set_preview_pages(p3, p.preview_pages);
        lemma_prefs_step(p0, ls, 3, "preview_pages"@, switch_text(p.preview_pages), p3);
    }
    let p5 = Prefs { info: p.info, ..p4 };
    assert(prefs_of(p0, ls.take(5)) == p5 && one_line(ls[4])) by {
        lemma_set_info(p4, p.info);
        lemma_prefs_step(p0, ls, 4, "info"@, switch_text(p.info), p4);
    }
    let p6 = Prefs { show_parent: p.show_parent, ..p5 };
    assert(prefs_of(p0, ls.take(6)) == p6 && one_line(ls[5])) by {
        lemma_set_show_parent(p5, p.show_parent);
        lemma_prefs_step(p0, ls, 5, "show_parent"@, switch_text(p.show_parent), p5);
    }
    let p7 = Prefs { sidebar_collapsed: p.sidebar_collapsed, ..p6 };
    assert(prefs_of(p0, ls.take(7)) == p7 && one_line(ls[6])) by {
        lemma_set_sidebar_collapsed(p6, p.sidebar_collapsed);
        lemma_prefs_step(p0, ls, 6, "sidebar_collapsed"@, switch_text(p.sidebar_collapsed), p6);
    }
    let p8 = Prefs { recent_limit: p.recent_limit, ..p7 };
    assert(prefs_of(p0, ls.take(8)) == p8 && one_line(ls[7])) by {
        lemma_set_recent_limit(p7, p.recent_limit);
        lemma_prefs_step(p0, ls, 7, "recent_limit"@, decimal_of(p.recent_limit as nat), p7);
    }
    let p9 = Prefs { palette_history: p.palette_history, ..p8 };
    assert(prefs_of(p0, ls.take(9)) == p9 && one_line(ls[8])) by {
        lemma_set_palette_history(p8, p.palette_history);
        lemma_prefs_step(p0, ls, 8, "palette_history"@, switch_text(p.palette_history), p8);
    }
    let p10 = Prefs { groups_enabled: p.groups_enabled, ..p9 };
    assert(prefs_of(p0, ls.take(10)) == p10 && one_line(ls[9])) by {
        lemma_set_groups_enabled(p9, p.groups_enabled);
        lemma_prefs_step(p0, ls, 9, "groups_enabled"@, switch_text(p.groups_enabled), p9);
    }
    let p11 = Prefs { show_fps: p.show_fps, ..p10 };
    assert(prefs_of(p0, ls.take(11)) == p11 && one_line(ls[10])) by {
        lemma_set_show_fps(p10, p.show_fps);
        lemma_prefs_step(p0, ls, 10, "show_fps"@, switch_text(p.show_fps), p10);
    }
    assert(ls.take(11) == ls);
    assert(p11 == p);
}

proof fn lemma_prefs_step(
    p0: Prefs,
    ls: Seq<Seq<char>>,
    i: int,
    name: Seq<char>,
    value: Seq<char>,
    before: Prefs,
)
    requires
        0 <= i < ls.len(),
        ls[i] == setting_line(name, value),
        bare_word(name),
        bare_word(value),
        prefs_of(p0, ls.take(i)) == before,
    ensures
        prefs_of(p0, ls.take(i + 1)) == with_setting(before, name, value),
        one_line(ls[i]),
{
    lemma_setting_line(before, name, value);
    assert(ls.take(i + 1).drop_last() == ls.take(i));
    assert(ls.take(i + 1).last() == ls[i]);
}

/// The line of a preference in the settings file, `on` or off.
pub open spec fn switch_line(name: Seq<char>, on: bool) -> Seq<char> {
    name + "="@ + if on {
        "true"@
    } else {
        "false"@
    }
}

/// Each line of the settings file sets the preference that it names, and no other one.
pub proof fn law_lines_set_what_they_name(p: Prefs, on: bool, n: usize)
    ensures
        with_pref_line(p, switch_line("terminal"@, on)) == (Prefs { terminal: on, ..p }),
        with_pref_line(p, switch_line("term_history"@, on)) == (Prefs { term_history: on, ..p }),
        with_pref_line(p, switch_line("preview"@, on)) == (Prefs { preview: on, ..p }),
        with_pref_line(p, switch_line("preview_pages"@, on)) == (Prefs { preview_pages: on, ..p }),
        with_pref_line(p, switch_line("info"@, on)) == (Prefs { info: on, ..p }),
        with_pref_line(p, switch_line("show_parent"@, on)) == (Prefs { show_parent: on, ..p }),
        with_pref_line(p, switch_line("sidebar_collapsed"@, on)) == (Prefs {
            sidebar_collapsed: on,
            ..p
        }),
        with_pref_line(p, switch_line("palette_history"@, on)) == (Prefs {
            palette_history: on,
            ..p
        }),
        with_pref_line(p, switch_line("groups_enabled"@, on)) == (Prefs {
            groups_enabled: on,
            ..p
        }),
        with_pref_line(p, switch_line("show_fps"@, on)) == (Prefs { show_fps: on, ..p }),
        with_pref_line(p, "recent_limit"@ + "="@ + decimal_of(n as nat)) == (Prefs {
            recent_limit: if n <= 12 {
                n
            } else {
                12
            },
            ..p
        }),
{
    lemma_pref_words(Prefs { recent_limit: n, ..p });
    reveal(setting_line);
    assert(with_pref_line(p, switch_line("terminal"@, on)) == (Prefs { terminal: on, ..p })) by {
        lemma_set_terminal(p, on);
        lemma_setting_line(p, "terminal"@, switch_text(on));
    }
    assert(with_pref_line(p, switch_line("term_history"@, on)) == (Prefs {
        term_history: on,
        ..p
    })) by {
        lemma_set_term_history(p, on);
        lemma_setting_line(p, "term_history"@, switch_text(on));
    }
    assert(with_pref_line(p, switch_line("preview"@, on)) == (Prefs { preview: on, ..p })) by {
        lemma_set_preview(p, on);
        lemma_setting_line(p, "preview"@, switch_text(on));
    }
    assert(with_pref_line(p, switch_line("preview_pages"@, on)) == (Prefs {
        preview_pages: on,
        ..p
    })) by {
        lemma_set_preview_pages(p, on);
        lemma_setting_line(p, "preview_pages"@, switch_text(on));
    }
    assert(with_pref_line(p, switch_line("info"@, on)) == (Prefs { info: on, ..p })) by {
        lemma_set_info(p, on);
        lemma_setting_line(p, "info"@, switch_text(on));
    }
    assert(with_pref_line(p, switch_line("show_parent"@, on)) == (Prefs {
        show_parent: on,
        ..p
    })) by {
        lemma_set_show_parent(p, on);
        lemma_setting_line(p, "show_parent"@, switch_text(on));
    }
    assert(with_pref_line(p, switch_line("sidebar_collapsed"@, on)) == (Prefs {
        sidebar_collapsed: on,
        ..p
    })) by {
        lemma_set_sidebar_collapsed(p, on);
        lemma_setting_line(p, "sidebar_collapsed"@, switch_text(on));
    }
    assert(with_pref_line(p, switch_line("palette_history"@, on)) == (Prefs {
        palette_history: on,
        ..p
    })) by {
        lemma_set_palette_history(p, on);
        lemma_setting_line(p, "palette_history"@, switch_text(on));
    }
    assert(with_pref_line(p, switch_line("groups_enabled"@, on)) == (Prefs {
        groups_enabled: on,
        ..p
    })) by {
        lemma_set_groups_enabled(p, on);
        lemma_setting_line(p, "groups_enabled"@, switch_text(on));
    }
    assert(with_pref_line(p, switch_line("show_fps"@, on)) == (Prefs { show_fps: on, ..p })) by {
        lemma_set_show_fps(p, on);
        lemma_setting_line(p, "show_fps"@, switch_text(on));
    }
    lemma_setting_line(p, "recent_limit"@, decimal_of(n as nat));
    lemma_pref_names_differ();
    reveal(with_setting);
    law_decimal_reads_back(n as nat, usize::MAX as nat);
}

/// A line that names no preference changes nothing, and neither does one without `=`.
pub proof fn law_other_lines_set_nothing(p: Prefs, name: Seq<char>, value: Seq<char>)
    requires
        name.len() > 0 && is_trimmed(name) && !name.contains('\n') && !name.contains('='),
        value.len() > 0 && is_trimmed(value) && !value.contains('\n') && !value.contains('='),
        !seq![
            "terminal"@,
            "term_history"@,
            "preview"@,
            "preview_pages"@,
            "info"@,
            "show_parent"@,
            "sidebar_collapsed"@,
            "palette_history"@,
            "groups_enabled"@,
            "show_fps"@,
            "recent_limit"@,
        ].contains(name),
    ensures
        with_pref_line(p, name + "="@ + value) == p,
        with_pref_line(p, name) == p,
{
    reveal(bare_word);
    reveal(setting_line);
    lemma_setting_line(p, name, value);
    reveal(with_setting);
    let all = seq![
        "terminal"@,
        "term_history"@,
        "preview"@,
        "preview_pages"@,
        "info"@,
        "show_parent"@,
        "sidebar_collapsed"@,
        "palette_history"@,
        "groups_enabled"@,
        "show_fps"@,
        "recent_limit"@,
    ];
    assert forall|i: int| 0 <= i < all.len() implies #[trigger] all[i] != name by {
        assert(all.contains(all[i]));
    }
    assert(all[0] == "terminal"@);
    assert(all[1] == "term_history"@);
    assert(all[2] == "preview"@);
    assert(all[3] == "preview_pages"@);
    assert(all[4] == "info"@);
    assert(all[5] == "show_parent"@);
    assert(all[6] == "sidebar_collapsed"@);
    assert(all[7] == "palette_history"@);
    assert(all[8] == "groups_enabled"@);
    assert(all[9] == "show_fps"@);
    assert(all[10] == "recent_limit"@);
    lemma_until(name, '=');
}

} // verus!
