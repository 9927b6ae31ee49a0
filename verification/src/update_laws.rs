//! What starting up and looking for updates amounts to.

use crate::index::threads_for;
use crate::paths::{extension_of, file_name_of, parent_of};
use crate::sorting::key_less;
use crate::startup::{
    FoundVolume, first_dir, fps_color_of, fresh_frames, installed, lookup_at, offered_volumes,
    user_name,
};
use crate::text::{
    decimal_of, digit_char, found_in, is_trimmed, law_decimal_reads_back, lemma_spot_at,
    lemma_trimmed_fixpoint, lemma_until, lemma_until_at, occurs_at, split_at_each, spot_from,
    trimmed_end,
};
use crate::update::{
    CheckView, StatusView, announced, banner_after, bundle_above, first_mount, law_newer_is_strict,
    leading_digits, mount_on_line, newer_version, newest_tag, outcome_of, part_number, pressed,
    quoted_field, version_of, version_offered,
};
use vstd::prelude::*;

verus! {

// ----- versions ------------------------------------------------------------------------

proof fn lemma_leading_digits(d: Seq<char>, rest: Seq<char>)
    requires
        forall|k: int| 0 <= k < d.len() ==> '0' <= #[trigger] d[k] <= '9',
        rest.len() > 0 ==> !('0' <= rest[0] <= '9'),
    ensures
        leading_digits(d + rest) == d,
    decreases d.len(),
{
    if d.len() == 0 {
        assert(d + rest =~= rest);
        assert(d =~= Seq::empty());
    } else {
        assert((d + rest).skip(1) =~= d.skip(1) + rest);
        assert forall|i: int| 0 <= i < d.skip(1).len() implies '0' <= #[trigger] d.skip(1)[i]
            <= '9' by {
            assert(d.skip(1)[i] == d[i + 1]);
        }
        lemma_leading_digits(d.skip(1), rest);
        assert(d =~= seq![d[0]] + d.skip(1));
    }
}

proof fn lemma_decimal_digits(n: nat)
    ensures
        forall|k: int| 0 <= k < decimal_of(n).len() ==> '0' <= #[trigger] decimal_of(n)[k] <= '9',
    decreases n,
{
    if n >= 10 {
        lemma_decimal_digits(n / 10);
        let (a, b) = (decimal_of(n / 10), decimal_of(n));
        assert(b == a.push(digit_char(n % 10)));
        assert forall|k: int| 0 <= k < b.len() implies '0' <= #[trigger] b[k] <= '9' by {
            if k < a.len() {
                assert(b[k] == a[k]);
            }
        }
    } else {
        assert(decimal_of(n) == seq![digit_char(n)]);
    }
}

/// A part of a version counts by the number that it begins with, such as 3 for `3-beta`.
pub proof fn law_parts_are_numbers(n: u32, rest: Seq<char>)
    requires
        rest.len() > 0 ==> !('0' <= rest[0] <= '9'),
    ensures
        part_number(decimal_of(n as nat) + rest) == n,
        n == 0 ==> part_number(rest) == n,
{
    law_decimal_reads_back(n as nat, u32::MAX as nat);
    lemma_decimal_digits(n as nat);
    lemma_leading_digits(decimal_of(n as nat), rest);
    lemma_leading_digits(Seq::empty(), rest);
    assert(Seq::<char>::empty() + rest =~= rest);
}

/// The parts of a version stand between its dots, behind a leading `v`.
pub proof fn law_versions_have_parts(head: Seq<char>, rest: Seq<char>)
    requires
        !head.contains('.'),
        is_trimmed(head + seq!['.'] + rest),
        head.len() > 0 ==> head[0] != 'v' && head[0] != 'V',
        rest.len() > 0 ==> rest[0] != 'v' && rest[0] != 'V' && is_trimmed(rest),
    ensures
        version_of(head + seq!['.'] + rest) == seq![part_number(head)] + version_of(rest),
        is_trimmed(head) ==> version_of(head) == seq![part_number(head)],
        version_of(seq!['v'] + head + seq!['.'] + rest) == version_of(head + seq!['.'] + rest),
{
    let s = head + seq!['.'] + rest;
    let k = head.len() as int;
    lemma_trimmed_fixpoint(s);
    assert(s[k] == '.');
    assert forall|j: int| 0 <= j < k implies #[trigger] s[j] != '.' by {
        assert(s[j] == head[j]);
        assert(head.contains(head[j]));
    }
    lemma_until_at(s, '.', k);
    assert(s.take(k) =~= head);
    assert(s.skip(k + 1) =~= rest);
    assert(s[0] == '.' || s[0] == head[0]);
    lemma_trimmed_fixpoint(rest);
    let f = |p: Seq<char>| part_number(p);
    assert((seq![head] + split_at_each(rest, '.')).map_values(f) =~= seq![part_number(head)]
        + split_at_each(rest, '.').map_values(f));
    if is_trimmed(head) {
        lemma_trimmed_fixpoint(head);
        lemma_until(head, '.');
        assert(seq![head].map_values(f) =~= seq![part_number(head)]);
    }
    let v = seq!['v'] + head + seq!['.'] + rest;
    assert(v.skip(1) =~= s);
    assert(v.last() == s.last());
    lemma_trimmed_fixpoint(v);
}

/// The first part in which two versions differ decides which is newer; a version with
/// more parts is newer than one that it continues.
pub proof fn law_newer_by_the_first_difference(a: Seq<char>, b: Seq<char>, k: int)
    requires
        0 <= k,
        k <= version_of(a).len(),
        k <= version_of(b).len(),
        version_of(a).take(k) == version_of(b).take(k),
    ensures
        k < version_of(a).len() && k < version_of(b).len() && version_of(a)[k] > version_of(b)[k]
            ==> newer_version(a, b) && !newer_version(b, a),
        k < version_of(a).len() && k == version_of(b).len() ==> newer_version(a, b)
            && !newer_version(b, a),
        k == version_of(a).len() && k == version_of(b).len() ==> !newer_version(a, b),
{
    lemma_key_behind(version_of(a), version_of(b), k);
    lemma_key_behind(version_of(b), version_of(a), k);
}

proof fn lemma_key_behind(a: Seq<int>, b: Seq<int>, k: int)
    requires
        0 <= k <= a.len(),
        k <= b.len(),
        a.take(k) == b.take(k),
    ensures
        key_less(a, b) == key_less(a.skip(k), b.skip(k)),
    decreases k,
{
    if k == 0 {
        assert(a.skip(0) =~= a && b.skip(0) =~= b);
    } else {
        assert(a.take(k)[0] == a[0] && b.take(k)[0] == b[0]);
        let (x, y) = (a.skip(1), b.skip(1));
        assert(x.take(k - 1) =~= a.take(k).skip(1));
        assert(y.take(k - 1) =~= b.take(k).skip(1));
        lemma_key_behind(x, y, k - 1);
        assert(x.skip(k - 1) =~= a.skip(k));
        assert(y.skip(k - 1) =~= b.skip(k));
    }
}

// ----- offers --------------------------------------------------------------------------

/// A newer version is offered, under its own name; the version in use and older ones are
/// not; without an answer the check has failed.
pub proof fn law_newer_versions_are_offered(tag: Seq<char>, current: Seq<char>)
    ensures
        outcome_of(Some(tag), current) is Available <==> newer_version(tag, current),
        outcome_of(Some(tag), current) is UpToDate <==> !newer_version(tag, current),
        outcome_of(Some(tag), current) matches CheckView::Available(v) ==> v == tag,
        outcome_of(Some(current), current) is UpToDate,
        outcome_of(None, current) is Failed,
{
    law_newer_is_strict(current, current);
}

/// A version that was dismissed is not announced again, but another newer one is.
pub proof fn law_dismissed_versions_stay_quiet(
    tag: Seq<char>,
    other: Seq<char>,
    current: Seq<char>,
)
    ensures
        !announced(tag, current, Some(tag)),
        !announced(current, current, None),
        newer_version(tag, current) && other != tag ==> announced(tag, current, Some(other)),
        newer_version(tag, current) ==> announced(tag, current, None),
        announced(tag, current, Some(other)) ==> newer_version(tag, current),
{
    law_newer_is_strict(current, current);
}

/// Pressing the button twice on an offer installs the version that was offered; a check
/// that found nothing leaves the banner alone; and a download that runs is not replaced.
pub proof fn law_offers_are_installed(banner: Option<StatusView>, v: Seq<char>, w: Seq<char>)
    ensures
        banner_after(banner, CheckView::Available(v)) == Some(StatusView::Available(v)),
        pressed(CheckView::Available(v)) == CheckView::Install(v),
        banner_after(Some(StatusView::Available(w)), pressed(CheckView::Available(v))) == Some(
            StatusView::Downloading(v),
        ),
        banner_after(Some(StatusView::Downloading(w)), CheckView::Install(v)) == Some(
            StatusView::Downloading(w),
        ),
        banner_after(banner, CheckView::UpToDate) == banner,
        banner_after(banner, CheckView::Failed) == banner,
        banner_after(banner, CheckView::Checking) == banner,
        pressed(CheckView::Idle) is Checking,
        pressed(CheckView::Failed) is Checking,
        pressed(CheckView::UpToDate) is Checking,
{
}

/// What is dismissed is the version that was offered, so that it stays quiet from then on.
pub proof fn law_dismissing_remembers(v: Seq<char>, current: Seq<char>)
    ensures
        version_offered(banner_after(None, outcome_of(Some(v), current))) == if newer_version(
            v,
            current,
        ) {
            Some(v)
        } else {
            None
        },
        !announced(v, current, version_offered(Some(StatusView::Available(v)))),
        version_offered(None) is None,
        version_offered(Some(StatusView::Downloading(v))) is None,
        version_offered(Some(StatusView::Failed(v))) is None,
{
}

// ----- what other programs say ---------------------------------------------------------

/// The value of a field is the quoted text behind the first mention of its name and a
/// colon.
pub proof fn law_fields_are_found(
    body: Seq<char>,
    before: Seq<char>,
    key: Seq<char>,
    gap: Seq<char>,
    text: Seq<char>,
    behind: Seq<char>,
)
    requires
        body == before + (seq!['"'] + key + seq!['"']) + seq![':'] + gap + seq!['"'] + text
            + seq!['"'] + behind,
        !gap.contains('"'),
        !text.contains('"'),
        forall|k: int|
            0 <= k < before.len() ==> !#[trigger] occurs_at(
                body,
                k,
                seq!['"'] + key + seq!['"'],
            ),
    ensures
        quoted_field(body, key) == Some(text),
{
    let pat = seq!['"'] + key + seq!['"'];
    let i = before.len() as int;
    assert(body.subrange(i, i + pat.len()) =~= pat);
    lemma_spot_at(body, pat, 0, i);
    let a = body.skip(i + pat.len());
    assert(a[0] == ':');
    lemma_until_at(a, ':', 0);
    let v = a.skip(1);
    assert(v =~= gap + seq!['"'] + text + seq!['"'] + behind);
    assert(v[gap.len() as int] == '"');
    assert forall|j: int| 0 <= j < gap.len() implies #[trigger] v[j] != '"' by {
        assert(v[j] == gap[j] && gap.contains(gap[j]));
    }
    lemma_until_at(v, '"', gap.len() as int);
    let o = v.skip(gap.len() as int + 1);
    assert(o =~= text + seq!['"'] + behind);
    assert(o[text.len() as int] == '"');
    assert forall|j: int| 0 <= j < text.len() implies #[trigger] o[j] != '"' by {
        assert(o[j] == text[j] && text.contains(text[j]));
    }
    lemma_until_at(o, '"', text.len() as int);
    assert(o.take(text.len() as int) =~= text);
}

/// The newest version is the one in the field `tag_name`, without white space round it.
pub proof fn law_tag_is_read(body: Seq<char>, t: Seq<char>)
    requires
        quoted_field(body, "tag_name"@) == Some(t),
    ensures
        is_trimmed(t) ==> newest_tag(body) == Some(t),
        newest_tag(body) is Some,
{
    if is_trimmed(t) {
        lemma_trimmed_fixpoint(t);
    }
}

/// The volume is named by the first line that holds `/Volumes/`: from there to the end of
/// the line. Other lines do not count.
pub proof fn law_first_volume_counts(line: Seq<char>, ls: Seq<Seq<char>>)
    ensures
        first_mount(seq![line] + ls) == if found_in(line, "/Volumes/"@) {
            mount_on_line(line)
        } else {
            first_mount(ls)
        },
        mount_on_line(line) matches Some(m) ==> exists|i: int|
            occurs_at(line, i, "/Volumes/"@) && m == trimmed_end(#[trigger] line.skip(i)),
        first_mount(Seq::empty()) is None,
{
    let all = seq![line] + ls;
    assert(all[0] == line);
    assert(all.skip(1) =~= ls);
    lemma_spot(line, "/Volumes/"@, 0);
}

proof fn lemma_spot(s: Seq<char>, sub: Seq<char>, from: int)
    requires
        0 <= from,
    ensures
        spot_from(s, sub, from) matches Some(i) ==> occurs_at(s, i, sub) && from <= i,
        spot_from(s, sub, from) is None ==> forall|i: int|
            from <= i ==> !#[trigger] occurs_at(s, i, sub),
    decreases s.len() - from,
{
    if from + sub.len() <= s.len() && !occurs_at(s, from, sub) && from < s.len() {
        lemma_spot(s, sub, from + 1);
    }
}

/// The bundle of a program is the nearest folder above it, or the program itself, whose
/// name ends in `.app`.
pub proof fn law_nearest_bundle_counts(path: Seq<char>, n: nat)
    ensures
        extension_of(path) == Some("app"@) ==> bundle_above(path, n) == Some(path),
        bundle_above(path, n) matches Some(b) ==> extension_of(b) == Some("app"@),
        extension_of(path) != Some("app"@) && parent_of(path) is None ==> bundle_above(path, n)
            is None,
        extension_of(path) != Some("app"@) && parent_of(path) is Some && n > 0 ==> bundle_above(
            path,
            n,
        ) == bundle_above(parent_of(path)->0, (n - 1) as nat),
    decreases n,
{
    if extension_of(path) != Some("app"@) && n > 0 {
        match parent_of(path) {
            Some(p) => {
                law_nearest_bundle_counts(p, (n - 1) as nat);
            },
            None => {},
        }
    }
}

// ----- starting up ---------------------------------------------------------------------

/// The window starts in the folder that was left last, or at home where that is gone or
/// nothing was saved.
pub proof fn law_starts_where_it_was_left(saved: Seq<char>, home: Seq<char>)
    ensures
        is_trimmed(saved) ==> first_dir(Some(saved), true, home) == saved,
        first_dir(Some(saved), false, home) == home,
        first_dir(None, true, home) == home && first_dir(None, false, home) == home,
{
    if is_trimmed(saved) {
        lemma_trimmed_fixpoint(saved);
    }
}

/// Each volume that is a folder and not the boot volume is offered, in order, and no
/// other one.
pub proof fn law_volumes_are_offered(v: Seq<FoundVolume>, x: FoundVolume)
    ensures
        x.is_dir && !x.boot ==> offered_volumes(v.push(x)) == offered_volumes(v).push(
            (x.name@, x.path@),
        ),
        !x.is_dir || x.boot ==> offered_volumes(v.push(x)) == offered_volumes(v),
        offered_volumes(Seq::empty()).len() == 0,
{
    assert(v.push(x).drop_last() =~= v);
}

/// Of the known programs those are offered that are there.
pub proof fn law_installed_are_offered(v: Seq<(Seq<char>, Seq<char>)>, there: Seq<bool>)
    ensures
        forall|i: int|
            0 <= i < v.len() && i < there.len() && there[i] ==> installed(v, there).contains(
                #[trigger] v[i],
            ),
        forall|k: int|
            0 <= k < installed(v, there).len() ==> exists|i: int|
                0 <= i < v.len() && i < there.len() && there[i] && v[i] == #[trigger] installed(
                    v,
                    there,
                )[k],
    decreases v.len(),
{
    if v.len() > 0 {
        let t = v.drop_last();
        let head = installed(t, there);
        let all = installed(v, there);
        law_installed_are_offered(t, there);
        assert forall|i: int| 0 <= i < v.len() && i < there.len() && there[i] implies all.contains(
            #[trigger] v[i],
        ) by {
            if i < t.len() {
                assert(t[i] == v[i]);
                let k = choose|k: int| 0 <= k < head.len() && head[k] == t[i];
                assert(all[k] == v[i]);
            } else {
                assert(all.last() == v[i]);
            }
        }
        assert forall|k: int| 0 <= k < all.len() implies exists|i: int|
            0 <= i < v.len() && i < there.len() && there[i] && v[i] == #[trigger] all[k] by {
            if k < head.len() {
                assert(all[k] == head[k]);
                let i = choose|i: int|
                    0 <= i < t.len() && i < there.len() && there[i] && t[i] == head[k];
                assert(v[i] == all[k]);
            } else {
                assert(v[v.len() - 1] == all[k]);
            }
        }
    }
}

/// Of frames in the order drawn, those of the last second count, and no older ones.
pub proof fn law_last_second_counts(times: Seq<u64>, now: u64)
    requires
        forall|i: int, j: int|
            0 <= i <= j < times.len() ==> #[trigger] times[i] <= #[trigger] times[j],
    ensures
        forall|i: int|
            0 <= i < fresh_frames(times, now).len() ==> now - #[trigger] fresh_frames(times, now)[i]
                <= 1_000_000_000,
        forall|i: int|
            0 <= i < times.len() && now - #[trigger] times[i] <= 1_000_000_000 ==> fresh_frames(
                times,
                now,
            ).contains(times[i]),
    decreases times.len(),
{
    if times.len() > 0 && now - times[0] > 1_000_000_000 {
        let rest = times.skip(1);
        assert forall|i: int, j: int| 0 <= i <= j < rest.len() implies #[trigger] rest[i]
            <= #[trigger] rest[j] by {
            assert(rest[i] == times[i + 1] && rest[j] == times[j + 1]);
        }
        law_last_second_counts(rest, now);
        assert(fresh_frames(times, now) == fresh_frames(rest, now));
        assert forall|i: int| 0 <= i < times.len() && now - #[trigger] times[i]
            <= 1_000_000_000 implies fresh_frames(times, now).contains(times[i]) by {
            assert(rest[i - 1] == times[i]);
        }
    } else {
        assert(fresh_frames(times, now) == times);
        assert forall|i: int| 0 <= i < times.len() implies now - #[trigger] times[i]
            <= 1_000_000_000 by {
            assert(times[0] <= times[i]);
        }
    }
}

/// A value that is missing is looked up at once. One that is kept too long is looked up
/// again, once, and shown meanwhile.
pub proof fn law_old_values_are_looked_up(a: u64, limit: u64, busy: bool)
    ensures
        lookup_at(None, limit, busy) is Now,
        lookup_at(Some(a), limit, true) is Keep,
        lookup_at(Some(a), limit, false) is Later <==> a > limit,
        lookup_at(Some(a), limit, false) is Keep <==> a <= limit,
{
}

/// The disk is walked by two threads at least, and two cores are left free where there
/// are more than four.
pub proof fn law_threads_leave_cores_free(n: usize)
    ensures
        threads_for(Some(n)) >= 2,
        threads_for(None) == 2,
        n > 4 ==> threads_for(Some(n)) + 2 == n,
        n <= 4 ==> threads_for(Some(n)) == 2,
{
}

/// The name of the user is the one the system gives, or that of the home folder.
pub proof fn law_users_have_names(user: Seq<char>, home: Seq<char>)
    ensures
        user.len() > 0 ==> user_name(Some(user), home) == user,
        user.len() == 0 ==> user_name(Some(user), home) == user_name(None, home),
        file_name_of(home) matches Some(n) ==> user_name(None, home) == n,
{
}

/// More frames a second are never shown in a worse color.
pub proof fn law_frame_rate_colors(n: int)
    ensures
        n >= 55 <==> fps_color_of(n) == 0x4ade80,
        30 <= n < 55 <==> fps_color_of(n) == 0xfacc15,
        n < 30 <==> fps_color_of(n) == 0xf87171,
{
}

} // verus!
