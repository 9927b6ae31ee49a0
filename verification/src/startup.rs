//! Where things are kept, how the program starts, and small readouts.

use crate::paths::{file_name, file_name_of, join_path, joined_path};
use crate::sidebar::{by_label, labelled_view, sort_labelled};
use crate::text::{
    concat, decimal, decimal_of, opt_text, owned, parse_number, parsed, same, texts, trim, trimmed,
};
use vstd::prelude::*;

verus! {

// ----- places --------------------------------------------------------------------------

/// The folder of the program's own files.
pub open spec fn config_home(home: Seq<char>) -> Seq<char> {
    joined_path(home, "Library/Application Support/Shuffle"@)
}

/// One of the program's own files.
pub fn config_file(home: &str, name: &str) -> (r: String)
    ensures
        r@ == joined_path(config_home(home@), name@),
{
    join_path(join_path(home, "Library/Application Support/Shuffle").as_str(), name)
}

/// The folder that a saved text names.
pub fn saved_dir(text: &str) -> (r: String)
    ensures
        r@ == trimmed(text@),
{
    trim(text)
}

/// The folder to start in.
pub open spec fn first_dir(saved: Option<Seq<char>>, is_dir: bool, home: Seq<char>) -> Seq<char> {
    match saved {
        Some(s) => if is_dir {
            trimmed(s)
        } else {
            home
        },
        None => home,
    }
}

/// The folder to start in: the one left last if it is still there, else the home
/// folder. `is_dir` says whether the saved one is a folder.
pub fn load_last_dir(saved: &Option<String>, is_dir: bool, home: &str) -> (r: String)
    ensures
        r@ == first_dir(opt_text(*saved), is_dir, home@),
{
    match saved {
        Some(s) => if is_dir {
            trim(s.as_str())
        } else {
            owned(home)
        },
        None => owned(home),
    }
}

/// The name of the user: the one the system gives, else that of the home folder,
/// else `Home`.
pub open spec fn user_name(user: Option<Seq<char>>, home: Seq<char>) -> Seq<char> {
    match user {
        Some(u) if u.len() > 0 => u,
        _ => match file_name_of(home) {
            Some(n) => n,
            None => "Home"@,
        },
    }
}

/// The name of the user.
pub fn username(user: &Option<String>, home: &str) -> (r: String)
    ensures
        r@ == user_name(opt_text(*user), home@),
{
    match user {
        Some(u) => {
            if !u.as_str().is_empty() {
                return u.clone();
            }
        },
        None => {},
    }
    match file_name(home) {
        Some(n) => n,
        None => owned("Home"),
    }
}

/// A volume that was found: its name, its path, whether it is a folder, and whether
/// it is the one that the system started from.
pub struct FoundVolume {
    pub name: String,
    pub path: String,
    pub is_dir: bool,
    pub boot: bool,
}

/// The volumes to offer among those found, in the order found.
pub open spec fn offered_volumes(v: Seq<FoundVolume>) -> Seq<(Seq<char>, Seq<char>)>
    decreases v.len(),
{
    if v.len() == 0 {
        Seq::empty()
    } else {
        let head = offered_volumes(v.drop_last());
        let x = v.last();
        if x.is_dir && !x.boot {
            head.push((x.name@, x.path@))
        } else {
            head
        }
    }
}

/// The volumes to offer, by name.
pub fn mounted_volumes(found: &Vec<FoundVolume>) -> (r: Vec<(String, String)>)
    ensures
        labelled_view(r@) == by_label(offered_volumes(found@)),
{
    let mut out: Vec<(String, String)> = Vec::new();
    let mut i: usize = 0;
    proof {
        assert(labelled_view(out@) =~= offered_volumes(found@.take(0)));
    }
    while i < found.len()
        invariant
            i <= found.len(),
            labelled_view(out@) == offered_volumes(found@.take(i as int)),
        decreases found.len() - i,
    {
        let ghost before = labelled_view(out@);
        proof {
            let t = found@.take(i + 1);
            assert(t.drop_last() =~= found@.take(i as int));
            assert(t.last() == found@[i as int]);
        }
        let x = &found[i];
        if x.is_dir && !x.boot {
            out.push((x.name.clone(), x.path.clone()));
            proof {
                assert(labelled_view(out@) =~= before.push((x.name@, x.path@)));
            }
        }
        i += 1;
    }
    proof {
        assert(found@.take(i as int) =~= found@);
    }
    sort_labelled(&out)
}

/// The terminals that are known, and where each is installed.
pub open spec fn known_terminals() -> Seq<(Seq<char>, Seq<char>)> {
    seq![
        ("Terminal"@, "/System/Applications/Utilities/Terminal.app"@),
        ("iTerm"@, "/Applications/iTerm.app"@),
        ("Ghostty"@, "/Applications/Ghostty.app"@),
        ("kitty"@, "/Applications/kitty.app"@),
        ("WezTerm"@, "/Applications/WezTerm.app"@),
        ("Warp"@, "/Applications/Warp.app"@),
        ("Alacritty"@, "/Applications/Alacritty.app"@),
    ]
}

/// The terminals that are known.
pub fn terminals() -> (r: Vec<(String, String)>)
    ensures
        labelled_view(r@) == known_terminals(),
{
    let mut v: Vec<(String, String)> = Vec::new();
    v.push((owned("Terminal"), owned("/System/Applications/Utilities/Terminal.app")));
    v.push((owned("iTerm"), owned("/Applications/iTerm.app")));
    v.push((owned("Ghostty"), owned("/Applications/Ghostty.app")));
    v.push((owned("kitty"), owned("/Applications/kitty.app")));
    v.push((owned("WezTerm"), owned("/Applications/WezTerm.app")));
    v.push((owned("Warp"), owned("/Applications/Warp.app")));
    v.push((owned("Alacritty"), owned("/Applications/Alacritty.app")));
    proof {
        assert(labelled_view(v@) =~= known_terminals());
    }
    v
}

/// The labelled paths that are there, in order.
pub open spec fn installed(v: Seq<(Seq<char>, Seq<char>)>, there: Seq<bool>) -> Seq<
    (Seq<char>, Seq<char>),
>
    decreases v.len(),
{
    if v.len() == 0 {
        Seq::empty()
    } else {
        let head = installed(v.drop_last(), there);
        let i = v.len() - 1;
        if i < there.len() && there[i] {
            head.push(v[i])
        } else {
            head
        }
    }
}

/// The terminals that are installed; `there` says of each known one whether it is.
pub fn installed_terminals(there: &Vec<bool>) -> (r: Vec<(String, String)>)
    ensures
        labelled_view(r@) == installed(known_terminals(), there@),
{
    let all = terminals();
    let mut out: Vec<(String, String)> = Vec::new();
    let mut i: usize = 0;
    let ghost known = known_terminals();
    proof {
        assert(labelled_view(out@) =~= installed(known.take(0), there@));
    }
    while i < all.len()
        invariant
            i <= all.len(),
            labelled_view(all@) == known,
            known == known_terminals(),
            labelled_view(out@) == installed(known.take(i as int), there@),
        decreases all.len() - i,
    {
        let ghost before = labelled_view(out@);
        proof {
            let t = known.take(i + 1);
            assert(t.drop_last() =~= known.take(i as int));
            assert(t[i as int] == labelled_view(all@)[i as int]);
        }
        if i < there.len() && there[i] {
            out.push((all[i].0.clone(), all[i].1.clone()));
            proof {
                assert(labelled_view(out@) =~= before.push((all@[i as int].0@, all@[i as int].1@)));
            }
        }
        i += 1;
    }
    proof {
        assert(known.take(i as int) =~= known);
    }
    out
}

// ----- modes ---------------------------------------------------------------------------

/// What the program was started for.
pub enum RunMode {
    /// The window.
    Window,
    /// Timing the search for a query.
    IndexBench(String),
    /// Timing the rendering of a page.
    PdfBench { path: String, page: usize },
    /// Trying out the ranking of misspelt queries.
    TypoTest,
    /// Timing the reading of a folder.
    DirBench(String),
}

/// What the program was started for, as characters.
#[verifier::ext_equal]
pub enum ModeView {
    Window,
    IndexBench(Seq<char>),
    PdfBench { path: Seq<char>, page: int },
    TypoTest,
    DirBench(Seq<char>),
}

impl View for RunMode {
    type V = ModeView;

    open spec fn view(&self) -> ModeView {
        match self {
            RunMode::Window => ModeView::Window,
            RunMode::IndexBench(q) => ModeView::IndexBench(q@),
            RunMode::PdfBench { path, page } => ModeView::PdfBench {
                path: path@,
                page: *page as int,
            },
            RunMode::TypoTest => ModeView::TypoTest,
            RunMode::DirBench(p) => ModeView::DirBench(p@),
        }
    }
}

/// The page that the words after the name of the program ask for, the first one if
/// they ask for none.
pub open spec fn page_asked(args: Seq<Seq<char>>) -> int {
    if args.len() > 3 {
        match parsed(args[3], 10, usize::MAX as nat) {
            Some(n) => n as int,
            None => 0,
        }
    } else {
        0
    }
}

/// What the words of the command line ask for.
pub open spec fn mode_of(args: Seq<Seq<char>>) -> ModeView {
    if args.len() >= 3 && args[1] == "--index-bench"@ {
        ModeView::IndexBench(args[2])
    } else if args.len() >= 3 && args[1] == "--pdf-bench"@ {
        ModeView::PdfBench { path: args[2], page: page_asked(args) }
    } else if args.len() >= 2 && args[1] == "--typo-test"@ {
        ModeView::TypoTest
    } else if args.len() >= 3 && args[1] == "--dir-bench"@ {
        ModeView::DirBench(args[2])
    } else {
        ModeView::Window
    }
}

/// Reads the command line.
pub fn run_mode(args: &Vec<String>) -> (r: RunMode)
    ensures
        r@ == mode_of(texts(args@)),
{
    proof {
        assert(texts(args@).len() == args@.len());
    }
    if args.len() < 2 {
        return RunMode::Window;
    }
    let more = args.len() >= 3;
    proof {
        assert(texts(args@)[1] == args@[1]@);
        assert(more ==> texts(args@)[2] == args@[2]@);
    }
    if more && same(args[1].as_str(), "--index-bench") {
        return RunMode::IndexBench(args[2].clone());
    }
    if more && same(args[1].as_str(), "--pdf-bench") {
        let page: usize = if args.len() > 3 {
            proof {
                assert(texts(args@)[3] == args@[3]@);
            }
            match parse_number(args[3].as_str(), 10, usize::MAX as u64) {
                Some(n) => n as usize,
                None => 0,
            }
        } else {
            0
        };
        return RunMode::PdfBench { path: args[2].clone(), page };
    }
    if same(args[1].as_str(), "--typo-test") {
        return RunMode::TypoTest;
    }
    if more && same(args[1].as_str(), "--dir-bench") {
        return RunMode::DirBench(args[2].clone());
    }
    RunMode::Window
}

// ----- frames and ages -----------------------------------------------------------------

/// A second in nanoseconds.
pub const SECOND: u64 = 1_000_000_000;

/// The frames that were drawn within a second before `now`, once the older ones in
/// front are dropped.
pub open spec fn fresh_frames(times: Seq<u64>, now: u64) -> Seq<u64>
    decreases times.len(),
{
    if times.len() > 0 && now - times[0] > SECOND {
        fresh_frames(times.skip(1), now)
    } else {
        times
    }
}

/// Notes a frame drawn at `now` and counts those of the last second.
pub fn fps_sample(times: &mut Vec<u64>, now: u64) -> (r: usize)
    ensures
        final(times)@ == fresh_frames(old(times)@.push(now), now),
        r == final(times)@.len(),
{
    times.push(now);
    let ghost goal = fresh_frames(times@, now);
    while times.len() > 0 && times[0] < now && now - times[0] > SECOND
        invariant
            fresh_frames(times@, now) == goal,
        decreases times.len(),
    {
        let ghost before = times@;
        times.remove(0);
        proof {
            assert(times@ =~= before.skip(1));
        }
    }
    times.len()
}

/// The frame just drawn always counts.
pub proof fn law_a_frame_counts(times: Seq<u64>, now: u64)
    ensures
        fresh_frames(times.push(now), now).len() >= 1,
        fresh_frames(times.push(now), now).last() == now,
    decreases times.len(),
{
    let t = times.push(now);
    if times.len() > 0 {
        assert(t.skip(1) =~= times.skip(1).push(now));
        law_a_frame_counts(times.skip(1), now);
    }
}

/// The color of the frame rate: green, yellow or red.
pub open spec fn fps_color_of(n: int) -> u32 {
    if n >= 55 {
        0x4ade80
    } else if n >= 30 {
        0xfacc15
    } else {
        0xf87171
    }
}

/// The frame rate for display, and its color.
pub fn fps_overlay(n: usize) -> (r: (String, u32))
    ensures
        r.0@ == decimal_of(n as nat) + " fps"@,
        r.1 == fps_color_of(n as int),
{
    let color: u32 = if n >= 55 {
        0x4ade80
    } else if n >= 30 {
        0xfacc15
    } else {
        0xf87171
    };
    (concat(decimal(n as u64).as_str(), " fps"), color)
}

/// What to do about a value that is kept for a while.
#[derive(Clone, Copy, PartialEq, Eq, Structural, Debug)]
pub enum Lookup {
    /// Look it up now: there is none.
    Now,
    /// Show the old one, and look it up anew in the background.
    Later,
    /// Show the one there is.
    Keep,
}

/// How long the places of the sidebar are kept, in nanoseconds.
pub const PLACES_KEPT: u64 = 2_000_000_000;

/// How long it is kept whether a path is a folder, in nanoseconds.
pub const FOLDER_KEPT: u64 = 3_000_000_000;

/// What to do about a kept value of a given age.
pub open spec fn lookup_at(age: Option<u64>, limit: u64, busy: bool) -> Lookup {
    match age {
        None => Lookup::Now,
        Some(a) => if a > limit && !busy {
            Lookup::Later
        } else {
            Lookup::Keep
        },
    }
}

/// What to do about a kept value of a given age, where `busy` says whether it is
/// being looked up already.
pub fn kept_value(age: Option<u64>, limit: u64, busy: bool) -> (r: Lookup)
    ensures
        r == lookup_at(age, limit, busy),
{
    match age {
        None => Lookup::Now,
        Some(a) => if a > limit && !busy {
            Lookup::Later
        } else {
            Lookup::Keep
        },
    }
}

} // verus!
