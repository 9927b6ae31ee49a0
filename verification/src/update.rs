//! Updates: comparing versions, reading what the system's tools print, deciding
//! whether a download may be installed, and the state of the update banner.

use crate::paths::{components_of, depth, extension, extension_of, parent, parent_of};
use crate::sorting::{key_less, lemma_key_total};
use crate::text::{
    chars_of, concat, find_spot, lines, lines_of, opt_text, owned, parse_number, parsed, piece,
    same, split, split_at_each, split_first, split_once, spot_of, texts, trim, trim_end, trimmed,
    trimmed_end,
};
use vstd::prelude::*;

verus! {

/// The team that signs the application. Nothing signed by another is installed.
pub const EXPECTED_TEAM_ID: &'static str = "Z69U4AQSH3";

// ----- versions ------------------------------------------------------------------------

/// `s` without leading letters `v`.
pub open spec fn without_vs(s: Seq<char>) -> Seq<char>
    decreases s.len(),
{
    if s.len() > 0 && (s[0] == 'v' || s[0] == 'V') {
        without_vs(s.skip(1))
    } else {
        s
    }
}

/// The digits at the beginning of `s`.
pub open spec fn leading_digits(s: Seq<char>) -> Seq<char>
    decreases s.len(),
{
    if s.len() > 0 && '0' <= s[0] <= '9' {
        seq![s[0]] + leading_digits(s.skip(1))
    } else {
        Seq::empty()
    }
}

/// The number at the beginning of a part of a version; zero where there is none
/// or it does not fit 32 bits.
pub open spec fn part_number(p: Seq<char>) -> int {
    match parsed(leading_digits(p), 10, u32::MAX as nat) {
        Some(n) => n as int,
        None => 0,
    }
}

/// The numbers of a version such as `v0.2.3`.
pub open spec fn version_of(s: Seq<char>) -> Seq<int> {
    split_at_each(without_vs(trimmed(s)), '.').map_values(|p: Seq<char>| part_number(p))
}

/// Whether version `a` is newer than version `b`.
pub open spec fn newer_version(a: Seq<char>, b: Seq<char>) -> bool {
    key_less(version_of(b), version_of(a))
}

proof fn lemma_leading_digits(s: Seq<char>, n: int)
    requires
        0 <= n <= s.len(),
        forall|k: int| 0 <= k < n ==> '0' <= #[trigger] s[k] <= '9',
        n < s.len() ==> !('0' <= s[n] <= '9'),
    ensures
        leading_digits(s) == s.take(n),
    decreases n,
{
    if n > 0 {
        assert('0' <= s[0] <= '9');
        assert forall|k: int| 0 <= k < n - 1 implies '0' <= #[trigger] s.skip(1)[k] <= '9' by {
            assert('0' <= s[k + 1] <= '9');
        }
        lemma_leading_digits(s.skip(1), n - 1);
        assert(seq![s[0]] + s.skip(1).take(n - 1) =~= s.take(n));
    } else {
        assert(s.take(0) =~= Seq::<char>::empty());
    }
}

fn part_value(p: &str) -> (r: u32)
    ensures
        r == part_number(p@),
{
    let cs = chars_of(p);
    let mut n: usize = 0;
    while n < cs.len() && '0' <= cs[n] && cs[n] <= '9'
        invariant
            n <= cs.len(),
            cs@ == p@,
            forall|k: int| 0 <= k < n ==> '0' <= #[trigger] cs@[k] <= '9',
        decreases cs.len() - n,
    {
        n += 1;
    }
    let digits = piece(&cs, 0, n);
    proof {
        lemma_leading_digits(p@, n as int);
        assert(digits@ =~= p@.take(n as int));
    }
    match parse_number(digits.as_str(), 10, u32::MAX as u64) {
        Some(v) => v as u32,
        None => 0,
    }
}

/// The numbers of a version, as mathematical integers.
pub open spec fn numbers(v: Seq<u32>) -> Seq<int> {
    v.map_values(|n: u32| n as int)
}

/// Reads a version such as `v0.2.3`; what is no number counts as zero.
pub fn parse_version(s: &str) -> (r: Vec<u32>)
    ensures
        numbers(r@) == version_of(s@),
{
    let t = trim(s);
    let cs = chars_of(t.as_str());
    let mut i: usize = 0;
    proof {
        assert(cs@.skip(0) =~= t@);
    }
    while i < cs.len() && (cs[i] == 'v' || cs[i] == 'V')
        invariant
            i <= cs.len(),
            without_vs(cs@.skip(i as int)) == without_vs(t@),
        decreases cs.len() - i,
    {
        proof {
            assert(cs@.skip(i as int).skip(1) =~= cs@.skip(i + 1));
        }
        i += 1;
    }
    let rest = piece(&cs, i, cs.len());
    proof {
        assert(rest@ =~= cs@.skip(i as int));
    }
    let parts = split(rest.as_str(), '.');
    let ghost want = version_of(s@);
    let mut out: Vec<u32> = Vec::new();
    let mut k: usize = 0;
    while k < parts.len()
        invariant
            k <= parts.len(),
            want == texts(parts@).map_values(|p: Seq<char>| part_number(p)),
            numbers(out@) == want.take(k as int),
        decreases parts.len() - k,
    {
        let v = part_value(parts[k].as_str());
        proof {
            assert(numbers(out@.push(v)) =~= numbers(out@).push(v as int));
            assert(want.take(k + 1) =~= want.take(k as int).push(v as int));
        }
        out.push(v);
        k += 1;
    }
    proof {
        assert(want.take(k as int) =~= want);
    }
    out
}

/// Whether version `a` is newer than version `b`.
pub fn is_newer(a: &str, b: &str) -> (r: bool)
    ensures
        r == newer_version(a@, b@),
{
    let x = parse_version(a);
    let y = parse_version(b);
    let ghost xs = version_of(a@);
    let ghost ys = version_of(b@);
    let mut i: usize = 0;
    proof {
        assert(xs.skip(0) =~= xs);
        assert(ys.skip(0) =~= ys);
        assert(xs.len() == x@.len());
        assert(ys.len() == y@.len());
    }
    while i < x.len() && i < y.len()
        invariant
            i <= x.len(),
            i <= y.len(),
            xs == numbers(x@),
            ys == numbers(y@),
            xs == version_of(a@),
            ys == version_of(b@),
            key_less(ys, xs) == key_less(ys.skip(i as int), xs.skip(i as int)),
        decreases x.len() - i,
    {
        proof {
            assert(xs.skip(i as int)[0] == x@[i as int]);
            assert(ys.skip(i as int)[0] == y@[i as int]);
            assert(xs.skip(i as int).skip(1) =~= xs.skip(i + 1));
            assert(ys.skip(i as int).skip(1) =~= ys.skip(i + 1));
        }
        if x[i] != y[i] {
            return y[i] < x[i];
        }
        i += 1;
    }
    i < x.len()
}

/// No version is newer than itself, and of two versions at most one is newer.
pub proof fn law_newer_is_strict(a: Seq<char>, b: Seq<char>)
    ensures
        !newer_version(a, a),
        !(newer_version(a, b) && newer_version(b, a)),
        newer_version(a, b) || newer_version(b, a) || version_of(a) == version_of(b),
{
    lemma_key_total(version_of(a), version_of(b));
    lemma_key_total(version_of(a), version_of(a));
}

// ----- what tools print ----------------------------------------------------------------

/// The text in quotes behind the first `"key"` and the colon that follows it.
pub open spec fn quoted_field(body: Seq<char>, key: Seq<char>) -> Option<Seq<char>> {
    let pat = seq!['"'] + key + seq!['"'];
    match spot_of(body, pat) {
        None => None,
        Some(i) => {
            let behind = body.skip(i + pat.len());
            match split_first(behind, ':') {
                None => None,
                Some((_, value)) => match split_first(value, '"') {
                    None => None,
                    Some((_, open)) => match split_first(open, '"') {
                        None => None,
                        Some((text, _)) => Some(text),
                    },
                },
            }
        },
    }
}

/// Reads a string field of a JSON text, as far as that takes no JSON parser.
pub fn json_string_field(body: &str, key: &str) -> (r: Option<String>)
    ensures
        opt_text(r) == quoted_field(body@, key@),
{
    let mut pat = String::new();
    pat.push('"');
    pat.append(key);
    pat.push('"');
    proof {
        assert(pat@ =~= seq!['"'] + key@ + seq!['"']);
    }
    let b = chars_of(body);
    let p = chars_of(pat.as_str());
    let i = match find_spot(&b, &p) {
        Some(i) => i,
        None => {
            return None;
        },
    };
    let behind = piece(&b, i + p.len(), b.len());
    proof {
        assert(behind@ =~= body@.skip(i + pat@.len()));
    }
    match split_once(behind.as_str(), ':') {
        None => None,
        Some((_, value)) => match split_once(value.as_str(), '"') {
            None => None,
            Some((_, open)) => match split_once(open.as_str(), '"') {
                None => None,
                Some((text, _)) => Some(text),
            },
        },
    }
}

/// The tag of the newest release.
pub open spec fn newest_tag(body: Seq<char>) -> Option<Seq<char>> {
    match quoted_field(body, "tag_name"@) {
        Some(t) => Some(trimmed(t)),
        None => None,
    }
}

/// The tag of the newest release in what the release service answered.
pub fn latest_tag(body: &str) -> (r: Option<String>)
    ensures
        opt_text(r) == newest_tag(body@),
{
    match json_string_field(body, "tag_name") {
        Some(t) => Some(trim(t.as_str())),
        None => None,
    }
}

/// The mount point on a line: everything from `/Volumes/` on.
pub open spec fn mount_on_line(line: Seq<char>) -> Option<Seq<char>> {
    match spot_of(line, "/Volumes/"@) {
        Some(i) => Some(trimmed_end(line.skip(i))),
        None => None,
    }
}

/// The first mount point on the given lines.
pub open spec fn first_mount(ls: Seq<Seq<char>>) -> Option<Seq<char>>
    decreases ls.len(),
{
    if ls.len() == 0 {
        None
    } else if mount_on_line(ls[0]) is Some {
        mount_on_line(ls[0])
    } else {
        first_mount(ls.skip(1))
    }
}

/// Reads the mount point from what the disk image tool printed.
pub fn parse_hdiutil_mount(output: &str) -> (r: Option<String>)
    ensures
        opt_text(r) == first_mount(lines_of(output@)),
{
    let ls = lines(output);
    let pat = chars_of("/Volumes/");
    let mut i: usize = 0;
    proof {
        assert(texts(ls@).skip(0) =~= texts(ls@));
    }
    while i < ls.len()
        invariant
            i <= ls.len(),
            pat@ == "/Volumes/"@,
            texts(ls@) == lines_of(output@),
            first_mount(texts(ls@).skip(i as int)) == first_mount(lines_of(output@)),
        decreases ls.len() - i,
    {
        proof {
            assert(texts(ls@).skip(i as int)[0] == ls@[i as int]@);
            assert(texts(ls@).skip(i as int).skip(1) =~= texts(ls@).skip(i + 1));
        }
        let cs = chars_of(ls[i].as_str());
        match find_spot(&cs, &pat) {
            Some(at) => {
                let tail = piece(&cs, at, cs.len());
                proof {
                    assert(tail@ =~= ls@[i as int]@.skip(at as int));
                }
                return Some(trim_end(tail.as_str()));
            },
            None => {},
        }
        i += 1;
    }
    None
}

/// The nearest folder at or above `path` that is an application bundle.
pub open spec fn bundle_above(path: Seq<char>, fuel: nat) -> Option<Seq<char>>
    decreases fuel,
{
    if extension_of(path) == Some("app"@) {
        Some(path)
    } else if fuel == 0 {
        None
    } else {
        match parent_of(path) {
            Some(p) => bundle_above(p, (fuel - 1) as nat),
            None => None,
        }
    }
}

/// The application bundle that an executable lies in.
pub fn current_app_bundle(exe: &str) -> (r: Option<String>)
    ensures
        opt_text(r) == bundle_above(exe@, components_of(exe@).len()),
{
    let mut left: usize = depth(exe);
    let mut p = owned(exe);
    loop
        invariant
            bundle_above(p@, left as nat) == bundle_above(exe@, components_of(exe@).len()),
        decreases left,
    {
        match extension(p.as_str()) {
            Some(e) => {
                if same(e.as_str(), "app") {
                    return Some(p);
                }
            },
            None => {},
        }
        if left == 0 {
            return None;
        }
        match parent(p.as_str()) {
            Some(up) => {
                p = up;
            },
            None => {
                return None;
            },
        }
        left -= 1;
    }
}

// ----- may a download be installed? ----------------------------------------------------

/// Why a download is not installed.
#[derive(Clone, Copy, PartialEq, Eq, Structural, Debug)]
pub enum UpdateFault {
    Bundle,
    Download,
    Mount,
    Volume,
    Contents,
    Signature,
    Notarization,
    Developer,
}

/// The reason in words.
pub open spec fn fault_text(f: UpdateFault) -> Seq<char> {
    match f {
        UpdateFault::Bundle => "couldn't locate the app bundle"@,
        UpdateFault::Download => "couldn't download the update"@,
        UpdateFault::Mount => "couldn't mount the update"@,
        UpdateFault::Volume => "couldn't find the mounted volume"@,
        UpdateFault::Contents => "the update didn't contain Shuffle.app"@,
        UpdateFault::Signature => "the update's signature was invalid"@,
        UpdateFault::Notarization => "the update wasn't notarized by Apple"@,
        UpdateFault::Developer => "the update was signed by an unexpected developer"@,
    }
}

impl UpdateFault {
    /// The reason in words.
    pub fn message(self) -> (r: &'static str)
        ensures
            r@ == fault_text(self),
    {
        match self {
            UpdateFault::Bundle => "couldn't locate the app bundle",
            UpdateFault::Download => "couldn't download the update",
            UpdateFault::Mount => "couldn't mount the update",
            UpdateFault::Volume => "couldn't find the mounted volume",
            UpdateFault::Contents => "the update didn't contain Shuffle.app",
            UpdateFault::Signature => "the update's signature was invalid",
            UpdateFault::Notarization => "the update wasn't notarized by Apple",
            UpdateFault::Developer => "the update was signed by an unexpected developer",
        }
    }
}

/// The line that names the expected team.
pub open spec fn team_line() -> Seq<char> {
    "TeamIdentifier="@ + EXPECTED_TEAM_ID@
}

/// Whether signing information names the expected team on a line of its own.
pub open spec fn names_team(info: Seq<char>) -> bool {
    exists|i: int|
        0 <= i < lines_of(info).len() && trimmed(#[trigger] lines_of(info)[i]) == team_line()
}

/// Decides whether an application may be installed: its signature is valid, it
/// is notarized, and the expected team signed it.
pub fn verify_app(signed: bool, notarized: bool, info: &str) -> (r: Result<(), UpdateFault>)
    ensures
        r is Ok <==> signed && notarized && names_team(info@),
        r == Err::<(), UpdateFault>(UpdateFault::Signature) <==> !signed,
        r == Err::<(), UpdateFault>(UpdateFault::Notarization) <==> signed && !notarized,
        r == Err::<(), UpdateFault>(UpdateFault::Developer) <==> signed && notarized && !names_team(
            info@,
        ),
{
    if !signed {
        return Err(UpdateFault::Signature);
    }
    if !notarized {
        return Err(UpdateFault::Notarization);
    }
    let want = concat("TeamIdentifier=", EXPECTED_TEAM_ID);
    let ls = lines(info);
    let mut i: usize = 0;
    while i < ls.len()
        invariant
            i <= ls.len(),
            signed,
            notarized,
            want@ == team_line(),
            texts(ls@) == lines_of(info@),
            forall|k: int| 0 <= k < i ==> trimmed(#[trigger] lines_of(info@)[k]) != team_line(),
        decreases ls.len() - i,
    {
        if same(trim(ls[i].as_str()).as_str(), want.as_str()) {
            proof {
                assert(trimmed(lines_of(info@)[i as int]) == team_line());
            }
            return Ok(());
        }
        i += 1;
    }
    Err(UpdateFault::Developer)
}

// ----- the state of an update ----------------------------------------------------------

/// How far a check for updates has come.
pub enum UpdateCheck {
    Idle,
    Checking,
    UpToDate,
    /// A newer version can be installed.
    Available(String),
    Failed,
    /// The newer version is to be installed.
    Install(String),
}

/// What the update banner shows.
pub enum UpdateStatus {
    Available(String),
    Downloading(String),
    Failed(String),
}

/// How far a check has come, with texts as characters.
#[verifier::ext_equal]
pub enum CheckView {
    Idle,
    Checking,
    UpToDate,
    Available(Seq<char>),
    Failed,
    Install(Seq<char>),
}

/// What the update banner shows, with texts as characters.
#[verifier::ext_equal]
pub enum StatusView {
    Available(Seq<char>),
    Downloading(Seq<char>),
    Failed(Seq<char>),
}

impl View for UpdateCheck {
    type V = CheckView;

    open spec fn view(&self) -> CheckView {
        match self {
            UpdateCheck::Idle => CheckView::Idle,
            UpdateCheck::Checking => CheckView::Checking,
            UpdateCheck::UpToDate => CheckView::UpToDate,
            UpdateCheck::Available(v) => CheckView::Available(v@),
            UpdateCheck::Failed => CheckView::Failed,
            UpdateCheck::Install(v) => CheckView::Install(v@),
        }
    }
}

impl View for UpdateStatus {
    type V = StatusView;

    open spec fn view(&self) -> StatusView {
        match self {
            UpdateStatus::Available(v) => StatusView::Available(v@),
            UpdateStatus::Downloading(v) => StatusView::Downloading(v@),
            UpdateStatus::Failed(v) => StatusView::Failed(v@),
        }
    }
}

/// An optional banner, with texts as characters.
pub open spec fn opt_status(s: Option<UpdateStatus>) -> Option<StatusView> {
    match s {
        Some(x) => Some(x@),
        None => None,
    }
}

/// What a check found, by the newest tag.
pub open spec fn outcome_of(tag: Option<Seq<char>>, current: Seq<char>) -> CheckView {
    match tag {
        None => CheckView::Failed,
        Some(t) => if newer_version(t, current) {
            CheckView::Available(t)
        } else {
            CheckView::UpToDate
        },
    }
}

/// What a check that was asked for found: the newest tag, or no answer.
pub fn check_outcome(tag: Option<String>, current: &str) -> (r: UpdateCheck)
    ensures
        r@ == outcome_of(opt_text(tag), current@),
{
    match tag {
        None => UpdateCheck::Failed,
        Some(t) => if is_newer(t.as_str(), current) {
            UpdateCheck::Available(t)
        } else {
            UpdateCheck::UpToDate
        },
    }
}

/// Whether a tag is newer than the current version, and not the one dismissed before.
pub open spec fn announced(
    tag: Seq<char>,
    current: Seq<char>,
    skipped: Option<Seq<char>>,
) -> bool {
    newer_version(tag, current) && skipped != Some(tag)
}

/// Whether a tag that the quiet check at the start found is shown: it is newer,
/// and this very version was not dismissed before.
pub fn should_announce(tag: &str, current: &str, skipped: &Option<String>) -> (r: bool)
    ensures
        r == announced(tag@, current@, opt_text(*skipped)),
{
    if !is_newer(tag, current) {
        return false;
    }
    match skipped {
        Some(s) => !same(s.as_str(), tag),
        None => true,
    }
}

/// The version that a banner offers.
pub open spec fn version_offered(banner: Option<StatusView>) -> Option<Seq<char>> {
    match banner {
        Some(StatusView::Available(v)) => Some(v),
        _ => None,
    }
}

/// Dismisses the banner; returns the version to remember, if it offered one.
pub fn dismiss_update(banner: &mut Option<UpdateStatus>) -> (r: Option<String>)
    ensures
        *final(banner) is None,
        opt_text(r) == version_offered(opt_status(*old(banner))),
{
    match banner.take() {
        Some(UpdateStatus::Available(v)) => Some(v),
        _ => None,
    }
}

/// Begins the update that the banner offers; returns whether it offered one.
pub fn start_self_update(banner: &mut Option<UpdateStatus>) -> (r: bool)
    ensures
        r == (opt_status(*old(banner)) matches Some(StatusView::Available(_))),
        opt_status(*final(banner)) == (match opt_status(*old(banner)) {
            Some(StatusView::Available(v)) => Some(StatusView::Downloading(v)),
            other => other,
        }),
{
    match banner.take() {
        Some(UpdateStatus::Available(v)) => {
            *banner = Some(UpdateStatus::Downloading(v));
            true
        },
        other => {
            *banner = other;
            false
        },
    }
}

/// The banner after a check from the settings changed.
pub open spec fn banner_after(banner: Option<StatusView>, check: CheckView) -> Option<StatusView> {
    match check {
        CheckView::Available(v) => Some(StatusView::Available(v)),
        CheckView::Install(v) => match banner {
            Some(StatusView::Downloading(w)) => Some(StatusView::Downloading(w)),
            _ => Some(StatusView::Downloading(v)),
        },
        _ => banner,
    }
}

/// What the banner does when a check from the settings changes: it offers what
/// is available, and an install begins unless one is under way. Returns whether
/// an install begins.
pub fn follow_check(banner: &mut Option<UpdateStatus>, check: &UpdateCheck) -> (r: bool)
    ensures
        r == (check@ is Install && !(opt_status(*old(banner)) matches Some(
            StatusView::Downloading(_),
        ))),
        opt_status(*final(banner)) == banner_after(opt_status(*old(banner)), check@),
{
    match check {
        UpdateCheck::Available(v) => {
            *banner = Some(UpdateStatus::Available(v.clone()));
            false
        },
        UpdateCheck::Install(v) => {
            match banner.take() {
                Some(UpdateStatus::Downloading(w)) => {
                    *banner = Some(UpdateStatus::Downloading(w));
                    false
                },
                _ => {
                    *banner = Some(UpdateStatus::Available(v.clone()));
                    start_self_update(banner)
                },
            }
        },
        _ => false,
    }
}

/// What the banner says.
pub open spec fn banner_words(s: StatusView, current: Seq<char>) -> Seq<char> {
    match s {
        StatusView::Available(v) => "Shuffle "@ + v + " is available (you have v"@ + current
            + ")."@,
        StatusView::Downloading(v) => "Downloading Shuffle "@ + v
            + "… the app will relaunch itself."@,
        StatusView::Failed(e) => "Update failed: "@ + e + "."@,
    }
}

/// What the banner says.
pub fn banner_text(s: &UpdateStatus, current: &str) -> (r: String)
    ensures
        r@ == banner_words(s@, current@),
{
    match s {
        UpdateStatus::Available(v) => {
            let mut t = concat("Shuffle ", v.as_str());
            t.append(" is available (you have v");
            t.append(current);
            t.append(").");
            t
        },
        UpdateStatus::Downloading(v) => {
            let mut t = concat("Downloading Shuffle ", v.as_str());
            t.append("… the app will relaunch itself.");
            t
        },
        UpdateStatus::Failed(e) => {
            let mut t = concat("Update failed: ", e.as_str());
            t.append(".");
            t
        },
    }
}

/// What the settings say of a check.
pub open spec fn check_words(c: CheckView) -> Option<Seq<char>> {
    match c {
        CheckView::Idle => None,
        CheckView::Checking => Some("Checking…"@),
        CheckView::UpToDate => Some("You’re up to date."@),
        CheckView::Available(v) => Some(v + " is available."@),
        CheckView::Failed => Some("Couldn’t reach GitHub — try again."@),
        CheckView::Install(v) => Some("Installing "@ + v + "… the app will relaunch."@),
    }
}

/// What the settings say of a check.
pub fn check_text(c: &UpdateCheck) -> (r: Option<String>)
    ensures
        opt_text(r) == check_words(c@),
{
    match c {
        UpdateCheck::Idle => None,
        UpdateCheck::Checking => Some(owned("Checking…")),
        UpdateCheck::UpToDate => Some(owned("You’re up to date.")),
        UpdateCheck::Available(v) => Some(concat(v.as_str(), " is available.")),
        UpdateCheck::Failed => Some(owned("Couldn’t reach GitHub — try again.")),
        UpdateCheck::Install(v) => Some(
            concat(concat("Installing ", v.as_str()).as_str(), "… the app will relaunch."),
        ),
    }
}

/// The label of the button beside a check: none while it is under way.
pub open spec fn check_label(c: CheckView) -> Option<Seq<char>> {
    match c {
        CheckView::Idle => Some("Check for Updates"@),
        CheckView::UpToDate => Some("Check Again"@),
        CheckView::Failed => Some("Try Again"@),
        CheckView::Available(_) => Some("Install & Relaunch"@),
        _ => None,
    }
}

/// The label of the button beside a check.
pub fn check_button(c: &UpdateCheck) -> (r: Option<String>)
    ensures
        opt_text(r) == check_label(c@),
{
    match c {
        UpdateCheck::Idle => Some(owned("Check for Updates")),
        UpdateCheck::UpToDate => Some(owned("Check Again")),
        UpdateCheck::Failed => Some(owned("Try Again")),
        UpdateCheck::Available(_) => Some(owned("Install & Relaunch")),
        _ => None,
    }
}

/// The check after the button beside it is pressed.
pub open spec fn pressed(c: CheckView) -> CheckView {
    match c {
        CheckView::Available(v) => CheckView::Install(v),
        _ => CheckView::Checking,
    }
}

/// The check after the button beside it is pressed: an offered version is to be
/// installed, otherwise a check begins.
pub fn press_check(c: &UpdateCheck) -> (r: UpdateCheck)
    ensures
        r@ == pressed(c@),
{
    match c {
        UpdateCheck::Available(v) => UpdateCheck::Install(v.clone()),
        _ => UpdateCheck::Checking,
    }
}

/// Where a disk image was mounted: `ok` says whether mounting succeeded, and
/// `output` what the mounting program printed.
pub fn mounted_volume(ok: bool, output: &str) -> (r: Result<String, UpdateFault>)
    ensures
        match r {
            Ok(m) => ok && first_mount(lines_of(output@)) == Some(m@),
            Err(e) => if !ok {
                e == UpdateFault::Mount
            } else {
                e == UpdateFault::Volume && first_mount(lines_of(output@)) is None
            },
        },
{
    if !ok {
        return Err(UpdateFault::Mount);
    }
    match parse_hdiutil_mount(output) {
        Some(m) => Ok(m),
        None => Err(UpdateFault::Volume),
    }
}

} // verus!
