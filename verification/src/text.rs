//! Text as sequences of characters: the string operations the rest of the
//! library is written with.

use vstd::prelude::*;
use vstd::std_specs::iter::IteratorSpec;

verus! {

/// Appends one character to a `String`: `String::push` adds it at the end and
/// leaves what was there before as it is.
pub assume_specification[ String::push ](s: &mut String, c: char)
    ensures
        final(s)@ == old(s)@.push(c),
;

/// Whether all characters of a text are ASCII.
pub open spec fn is_ascii_text(s: Seq<char>) -> bool {
    forall|i: int| 0 <= i < s.len() ==> (#[trigger] s[i]) as u32 <= 127
}

/// The lowercase form of a text beyond ASCII, as `str::to_lowercase` gives it.
pub uninterp spec fn unicode_lowercase(s: Seq<char>) -> Seq<char>;

/// The lowercase form of a text.
pub open spec fn lowercase(s: Seq<char>) -> Seq<char> {
    if is_ascii_text(s) {
        ascii_lowered(s)
    } else {
        unicode_lowercase(s)
    }
}

/// Lowercases a text: `str::to_lowercase` is a function of the text alone, and of
/// ASCII text it lowers `A` to `Z` and keeps the rest, as Unicode has it.
pub assume_specification[ str::to_lowercase ](s: &str) -> (r: String)
    ensures
        r@ == lowercase(s@),
        !is_ascii_text(s@) ==> r@ == unicode_lowercase(s@),
;

/// The uppercase form of a text beyond ASCII, as `str::to_uppercase` gives it.
pub uninterp spec fn unicode_uppercase(s: Seq<char>) -> Seq<char>;

/// A character with `a..z` uppercased and all others as they are.
pub open spec fn ascii_up(c: char) -> char {
    if 'a' <= c <= 'z' {
        (c as u32 - 32) as char
    } else {
        c
    }
}

/// The uppercase form of a text.
pub open spec fn uppercase(s: Seq<char>) -> Seq<char> {
    if is_ascii_text(s) {
        s.map_values(|c: char| ascii_up(c))
    } else {
        unicode_uppercase(s)
    }
}

/// Uppercases a text: `str::to_uppercase` is a function of the text alone, and of
/// ASCII text it raises `a` to `z` and keeps the rest, as Unicode has it.
pub assume_specification[ str::to_uppercase ](s: &str) -> (r: String)
    ensures
        r@ == uppercase(s@),
        !is_ascii_text(s@) ==> r@ == unicode_uppercase(s@),
;

/// Whether a character beyond ASCII is a letter or a digit, as
/// `char::is_alphanumeric` has it.
pub uninterp spec fn unicode_alphanumeric(c: char) -> bool;

/// Whether a character is a letter or a digit.
pub open spec fn alphanumeric(c: char) -> bool {
    if c as u32 <= 127 {
        'a' <= c <= 'z' || 'A' <= c <= 'Z' || '0' <= c <= '9'
    } else {
        unicode_alphanumeric(c)
    }
}

/// Tests for a letter or digit: `char::is_alphanumeric` is a function of the
/// character alone, and of the ASCII characters it accepts `a` to `z`, `A` to `Z`
/// and `0` to `9`, as Unicode has it.
pub assume_specification[ char::is_alphanumeric ](c: char) -> (r: bool)
    ensures
        r == alphanumeric(c),
        c as u32 > 127 ==> r == unicode_alphanumeric(c),
;

/// The characters of each text of a list.
pub open spec fn texts(v: Seq<String>) -> Seq<Seq<char>> {
    v.map_values(|s: String| s@)
}

/// The characters of `s`, in order.
pub fn chars_of(s: &str) -> (r: Vec<char>)
    ensures
        r@ == s@,
{
    let mut out: Vec<char> = Vec::new();
    for c in it: s.chars()
        invariant
            out@ == it.seq().take(it.index() as int),
            it.seq() == s@,
    {
        out.push(c);
    }
    out
}

/// The text made of the characters `a..b` of `cs`.
pub fn piece(cs: &Vec<char>, a: usize, b: usize) -> (r: String)
    requires
        a <= b <= cs.len(),
    ensures
        r@ == cs@.subrange(a as int, b as int),
{
    let mut out = String::new();
    let mut i: usize = a;
    while i < b
        invariant
            a <= i <= b <= cs.len(),
            out@ == cs@.subrange(a as int, i as int),
        decreases b - i,
    {
        out.push(cs[i]);
        i += 1;
    }
    out
}

/// The text made of all of `cs`.
pub fn string_of(cs: &Vec<char>) -> (r: String)
    ensures
        r@ == cs@,
{
    let r = piece(cs, 0, cs.len());
    assert(cs@.subrange(0, cs@.len() as int) == cs@);
    r
}

/// Whether two texts hold the same characters.
pub fn same(a: &str, b: &str) -> (r: bool)
    ensures
        r == (a@ == b@),
{
    let mut ia = a.chars();
    let mut ib = b.chars();
    let ghost mut k: int = 0;
    loop
        invariant
            0 <= k <= a@.len(),
            k <= b@.len(),
            a@.take(k) == b@.take(k),
            ia.remaining() == a@.skip(k),
            ib.remaining() == b@.skip(k),
            ia.obeys_prophetic_iter_laws(),
            ib.obeys_prophetic_iter_laws(),
        decreases a@.len() - k,
    {
        match (ia.next(), ib.next()) {
            (Some(x), Some(y)) => {
                if x != y {
                    assert(a@[k] != b@[k]);
                    return false;
                }
                proof {
                    k = k + 1;
                }
            },
            (None, None) => {
                assert(a@.take(k) == a@);
                assert(b@.take(k) == b@);
                return true;
            },
            _ => {
                return false;
            },
        }
    }
}

/// A copy of `s` with its own storage.
pub fn owned(s: &str) -> (r: String)
    ensures
        r@ == s@,
{
    s.to_owned()
}

/// `a` followed by `b`.
pub fn concat(a: &str, b: &str) -> (r: String)
    ensures
        r@ == a@ + b@,
{
    let mut out = a.to_owned();
    out.append(b);
    out
}

// ----- whitespace and trimming ---------------------------------------------------------

/// The Unicode white-space characters.
pub open spec fn is_space(c: char) -> bool {
    let n = c as u32;
    ||| 0x09 <= n <= 0x0d
    ||| n == 0x20 || n == 0x85 || n == 0xa0 || n == 0x1680
    ||| 0x2000 <= n <= 0x200a
    ||| n == 0x2028 || n == 0x2029 || n == 0x202f || n == 0x205f || n == 0x3000
}

/// Whether `c` is a Unicode white-space character.
pub fn space(c: char) -> (r: bool)
    ensures
        r == is_space(c),
{
    let n: u32 = c as u32;
    (0x09 <= n && n <= 0x0d) || n == 0x20 || n == 0x85 || n == 0xa0 || n == 0x1680 || (0x2000 <= n
        && n <= 0x200a) || n == 0x2028 || n == 0x2029 || n == 0x202f || n == 0x205f || n == 0x3000
}

/// The Unicode control characters (category Cc).
pub open spec fn is_control(c: char) -> bool {
    let n = c as u32;
    n < 0x20 || 0x7f <= n < 0xa0
}

/// Whether `c` is a control character.
pub fn control(c: char) -> (r: bool)
    ensures
        r == is_control(c),
{
    let n: u32 = c as u32;
    n < 0x20 || (0x7f <= n && n < 0xa0)
}

/// `s` without its leading white space.
pub open spec fn trimmed_start(s: Seq<char>) -> Seq<char>
    decreases s.len(),
{
    if s.len() > 0 && is_space(s[0]) {
        trimmed_start(s.skip(1))
    } else {
        s
    }
}

/// `s` without its trailing white space.
pub open spec fn trimmed_end(s: Seq<char>) -> Seq<char>
    decreases s.len(),
{
    if s.len() > 0 && is_space(s.last()) {
        trimmed_end(s.drop_last())
    } else {
        s
    }
}

/// `s` without white space at either end.
pub open spec fn trimmed(s: Seq<char>) -> Seq<char> {
    trimmed_end(trimmed_start(s))
}

/// Whether trimming `s` changes nothing.
pub open spec fn is_trimmed(s: Seq<char>) -> bool {
    s.len() > 0 ==> !is_space(s[0]) && !is_space(s.last())
}

/// Trimming leaves a text with no white space at its ends as it is.
pub proof fn lemma_trimmed_fixpoint(s: Seq<char>)
    requires
        is_trimmed(s),
    ensures
        trimmed(s) == s,
{
}

proof fn lemma_trimmed_start_at(s: Seq<char>, i: int)
    requires
        0 <= i <= s.len(),
        forall|k: int| 0 <= k < i ==> is_space(#[trigger] s[k]),
        i < s.len() ==> !is_space(s[i]),
    ensures
        trimmed_start(s) == s.skip(i),
    decreases i,
{
    if i > 0 {
        assert(is_space(s[0]));
        assert forall|k: int| 0 <= k < i - 1 implies is_space(#[trigger] s.skip(1)[k]) by {
            assert(is_space(s[k + 1]));
        }
        lemma_trimmed_start_at(s.skip(1), i - 1);
        assert(s.skip(1).skip(i - 1) == s.skip(i));
    } else {
        assert(s.skip(0) == s);
    }
}

proof fn lemma_trimmed_end_at(s: Seq<char>, j: int)
    requires
        0 <= j <= s.len(),
        forall|k: int| j <= k < s.len() ==> is_space(#[trigger] s[k]),
        j > 0 ==> !is_space(s[j - 1]),
    ensures
        trimmed_end(s) == s.take(j),
    decreases s.len() - j,
{
    if j < s.len() {
        assert(is_space(s[s.len() - 1]));
        lemma_trimmed_end_at(s.drop_last(), j);
        assert(s.drop_last().take(j) == s.take(j));
    } else {
        assert(s.take(j) == s);
    }
}

/// `s` without trailing white space.
pub fn trim_end(s: &str) -> (r: String)
    ensures
        r@ == trimmed_end(s@),
{
    let cs = chars_of(s);
    let mut j: usize = cs.len();
    while j > 0 && space(cs[j - 1])
        invariant
            j <= cs.len(),
            cs@ == s@,
            forall|k: int| j <= k < cs.len() ==> is_space(#[trigger] cs@[k]),
        decreases j,
    {
        j -= 1;
    }
    proof {
        lemma_trimmed_end_at(cs@, j as int);
        assert(cs@.subrange(0, j as int) == cs@.take(j as int));
    }
    piece(&cs, 0, j)
}

/// `s` without white space at either end.
pub fn trim(s: &str) -> (r: String)
    ensures
        r@ == trimmed(s@),
{
    let cs = chars_of(s);
    let mut i: usize = 0;
    while i < cs.len() && space(cs[i])
        invariant
            i <= cs.len(),
            forall|k: int| 0 <= k < i ==> is_space(#[trigger] cs@[k]),
        decreases cs.len() - i,
    {
        i += 1;
    }
    let mut j: usize = cs.len();
    while j > i && space(cs[j - 1])
        invariant
            i <= j <= cs.len(),
            forall|k: int| j <= k < cs.len() ==> is_space(#[trigger] cs@[k]),
        decreases j,
    {
        j -= 1;
    }
    proof {
        lemma_trimmed_start_at(cs@, i as int);
        let t = cs@.skip(i as int);
        assert forall|k: int| j - i <= k < t.len() implies is_space(#[trigger] t[k]) by {
            assert(is_space(cs@[k + i]));
        }
        lemma_trimmed_end_at(t, j - i);
        assert(t.take(j - i) == cs@.subrange(i as int, j as int));
    }
    piece(&cs, i, j)
}

// ----- searching and splitting ---------------------------------------------------------

/// The number of characters of `s` before the first `c` (all of them if `c` does
/// not occur).
pub open spec fn until(s: Seq<char>, c: char) -> nat
    decreases s.len(),
{
    if s.len() == 0 || s[0] == c {
        0
    } else {
        1 + until(s.skip(1), c)
    }
}

/// `until` is the first position of `c`, or the length.
pub proof fn lemma_until(s: Seq<char>, c: char)
    ensures
        until(s, c) <= s.len(),
        until(s, c) < s.len() ==> s[until(s, c) as int] == c,
        forall|k: int| 0 <= k < until(s, c) ==> #[trigger] s[k] != c,
        (until(s, c) < s.len()) == s.contains(c),
    decreases s.len(),
{
    if s.len() > 0 && s[0] != c {
        lemma_until(s.skip(1), c);
        assert forall|k: int| 0 <= k < until(s, c) implies #[trigger] s[k] != c by {
            if k > 0 {
                assert(s.skip(1)[k - 1] != c);
            }
        }
        if s.contains(c) {
            let k = choose|k: int| 0 <= k < s.len() && s[k] == c;
            assert(s.skip(1)[k - 1] == c);
        }
    }
}

/// The position found by a scan is `until`.
pub proof fn lemma_until_at(s: Seq<char>, c: char, j: int)
    requires
        0 <= j <= s.len(),
        forall|k: int| 0 <= k < j ==> #[trigger] s[k] != c,
        j < s.len() ==> s[j] == c,
    ensures
        until(s, c) == j,
{
    lemma_until(s, c);
    let u = until(s, c) as int;
    if u < j {
        assert(s[u] != c);
    }
    if j < u {
        assert(s[j] != c);
    }
}

/// The position of the first `c` at or after `from`, or the length.
pub fn find_char(cs: &Vec<char>, from: usize, c: char) -> (j: usize)
    requires
        from <= cs.len(),
    ensures
        j == from + until(cs@.skip(from as int), c),
        j <= cs.len(),
        j < cs.len() ==> cs@[j as int] == c,
        forall|k: int| from <= k < j ==> #[trigger] cs@[k] != c,
{
    let mut j: usize = from;
    while j < cs.len() && cs[j] != c
        invariant
            from <= j <= cs.len(),
            forall|k: int| from <= k < j ==> #[trigger] cs@[k] != c,
        decreases cs.len() - j,
    {
        j += 1;
    }
    proof {
        let t = cs@.skip(from as int);
        assert forall|k: int| 0 <= k < j - from implies #[trigger] t[k] != c by {
            assert(cs@[k + from] != c);
        }
        lemma_until_at(t, c, j - from);
    }
    j
}

/// What stands before and after the first `c`, if `c` occurs.
pub open spec fn split_first(s: Seq<char>, c: char) -> Option<(Seq<char>, Seq<char>)> {
    let i = until(s, c) as int;
    if i < s.len() {
        Some((s.take(i), s.skip(i + 1)))
    } else {
        None
    }
}

/// Both halves of an optional split, as characters.
pub open spec fn halves(r: Option<(String, String)>) -> Option<(Seq<char>, Seq<char>)> {
    match r {
        Some(p) => Some((p.0@, p.1@)),
        None => None,
    }
}

/// An optional text, as characters.
pub open spec fn opt_text(r: Option<String>) -> Option<Seq<char>> {
    match r {
        Some(s) => Some(s@),
        None => None,
    }
}

/// Splits at the first `c`.
pub fn split_once(s: &str, c: char) -> (r: Option<(String, String)>)
    ensures
        halves(r) == split_first(s@, c),
{
    let cs = chars_of(s);
    let i = find_char(&cs, 0, c);
    proof {
        assert(cs@.skip(0) == cs@);
    }
    if i < cs.len() {
        let a = piece(&cs, 0, i);
        let b = piece(&cs, i + 1, cs.len());
        proof {
            assert(a@ == s@.take(i as int));
            assert(b@ == s@.skip(i + 1));
        }
        Some((a, b))
    } else {
        None
    }
}

/// The position just behind the last `c`, or 0 if `c` does not occur.
pub open spec fn after_last(s: Seq<char>, c: char) -> nat
    decreases s.len(),
{
    if s.len() == 0 || s.last() == c {
        s.len()
    } else {
        after_last(s.drop_last(), c)
    }
}

/// `after_last` is behind the last `c`.
pub proof fn lemma_after_last(s: Seq<char>, c: char)
    ensures
        after_last(s, c) <= s.len(),
        after_last(s, c) > 0 ==> s[after_last(s, c) - 1] == c,
        forall|k: int| after_last(s, c) <= k < s.len() ==> #[trigger] s[k] != c,
        (after_last(s, c) > 0) == s.contains(c),
    decreases s.len(),
{
    if s.len() > 0 && s.last() != c {
        let t = s.drop_last();
        lemma_after_last(t, c);
        assert forall|k: int| after_last(s, c) <= k < s.len() implies #[trigger] s[k] != c by {
            if k < t.len() {
                assert(t[k] != c);
            }
        }
        if s.contains(c) {
            let k = choose|k: int| 0 <= k < s.len() && s[k] == c;
            assert(t[k] == c);
        }
    } else if s.len() > 0 {
        assert(s[s.len() - 1] == c);
    }
}

/// The position just behind the last `c` of `cs`, or 0.
pub fn find_last(cs: &Vec<char>, c: char) -> (j: usize)
    ensures
        j == after_last(cs@, c),
        j <= cs.len(),
{
    let mut j: usize = cs.len();
    proof {
        assert(cs@.take(j as int) == cs@);
    }
    while j > 0 && cs[j - 1] != c
        invariant
            j <= cs.len(),
            after_last(cs@, c) == after_last(cs@.take(j as int), c),
        decreases j,
    {
        proof {
            assert(cs@.take(j as int).drop_last() == cs@.take(j - 1));
        }
        j -= 1;
    }
    j
}

/// What stands before and after the last `c`, if `c` occurs.
pub open spec fn split_last(s: Seq<char>, c: char) -> Option<(Seq<char>, Seq<char>)> {
    let j = after_last(s, c) as int;
    if j > 0 {
        Some((s.take(j - 1), s.skip(j)))
    } else {
        None
    }
}

/// Splits at the last `c`.
pub fn rsplit_once(s: &str, c: char) -> (r: Option<(String, String)>)
    ensures
        halves(r) == split_last(s@, c),
{
    let cs = chars_of(s);
    let j = find_last(&cs, c);
    if j > 0 {
        let a = piece(&cs, 0, j - 1);
        let b = piece(&cs, j, cs.len());
        proof {
            assert(a@ == s@.take(j - 1));
            assert(b@ == s@.skip(j as int));
        }
        Some((a, b))
    } else {
        None
    }
}

/// The pieces of `s` between the occurrences of `c`; one more than there are.
pub open spec fn split_at_each(s: Seq<char>, c: char) -> Seq<Seq<char>>
    decreases s.len(),
{
    let i = until(s, c) as int;
    if i < s.len() {
        seq![s.take(i)] + split_at_each(s.skip(i + 1), c)
    } else {
        seq![s]
    }
}

/// Splits at every `c`.
pub fn split(s: &str, c: char) -> (r: Vec<String>)
    ensures
        texts(r@) == split_at_each(s@, c),
{
    let cs = chars_of(s);
    let mut out: Vec<String> = Vec::new();
    let mut at: usize = 0;
    proof {
        assert(cs@.skip(0) == s@);
    }
    loop
        invariant
            at <= cs.len(),
            cs@ == s@,
            texts(out@) + split_at_each(cs@.skip(at as int), c) == split_at_each(s@, c),
        decreases cs.len() - at,
    {
        let j = find_char(&cs, at, c);
        let p = piece(&cs, at, j);
        let ghost rest = cs@.skip(at as int);
        let ghost before = texts(out@);
        out.push(p);
        proof {
            assert(texts(out@) == before.push(p@));
            assert(p@ == rest.take(j - at));
        }
        if j < cs.len() {
            proof {
                assert(rest.skip(j - at + 1) == cs@.skip(j + 1));
                assert(texts(out@) + split_at_each(cs@.skip(j + 1), c) == before + (seq![p@]
                    + split_at_each(cs@.skip(j + 1), c)));
            }
            at = j + 1;
        } else {
            proof {
                assert(p@ == rest);
                assert(texts(out@) == before + seq![rest]);
            }
            return out;
        }
    }
}

/// Whether `p` begins `s`.
pub fn starts_with(s: &str, p: &str) -> (r: bool)
    ensures
        r == p@.is_prefix_of(s@),
{
    let a = chars_of(s);
    let b = chars_of(p);
    if b.len() > a.len() {
        return false;
    }
    matches_at(&a, 0, &b)
}

/// Whether `sub` stands in `s` at position `at`.
pub open spec fn occurs_at(s: Seq<char>, at: int, sub: Seq<char>) -> bool {
    0 <= at && at + sub.len() <= s.len() && s.subrange(at, at + sub.len()) == sub
}

/// Whether `b` stands in `a` at position `at`.
pub fn matches_at(a: &Vec<char>, at: usize, b: &Vec<char>) -> (r: bool)
    requires
        at + b.len() <= a.len(),
    ensures
        r == occurs_at(a@, at as int, b@),
        at == 0 ==> r == b@.is_prefix_of(a@),
        at + b.len() == a.len() ==> r == b@.is_suffix_of(a@),
{
    let mut i: usize = 0;
    while i < b.len()
        invariant
            at + b.len() <= a.len(),
            i <= b.len(),
            forall|k: int| 0 <= k < i ==> #[trigger] b@[k] == a@[at + k],
        decreases b.len() - i,
    {
        if a[at + i] != b[i] {
            proof {
                let w = a@.subrange(at as int, at + b@.len());
                assert(w[i as int] != b@[i as int]);
                if at == 0 && b@.is_prefix_of(a@) {
                    assert(a@.subrange(0, b@.len() as int)[i as int] == b@[i as int]);
                }
                if at + b@.len() == a@.len() && b@.is_suffix_of(a@) {
                    assert(a@.subrange(a@.len() - b@.len(), a@.len() as int)[i as int]
                        == b@[i as int]);
                }
            }
            return false;
        }
        i += 1;
    }
    proof {
        assert(a@.subrange(at as int, at + b@.len()) == b@);
    }
    true
}

/// Whether `p` ends `s`.
pub fn ends_with(s: &str, p: &str) -> (r: bool)
    ensures
        r == p@.is_suffix_of(s@),
{
    let a = chars_of(s);
    let b = chars_of(p);
    if b.len() > a.len() {
        return false;
    }
    matches_at(&a, a.len() - b.len(), &b)
}

/// `s` without the leading `p`, if `p` begins it.
pub open spec fn without_prefix(s: Seq<char>, p: Seq<char>) -> Option<Seq<char>> {
    if p.is_prefix_of(s) {
        Some(s.skip(p.len() as int))
    } else {
        None
    }
}

/// Strips a leading `p`.
pub fn strip_prefix(s: &str, p: &str) -> (r: Option<String>)
    ensures
        opt_text(r) == without_prefix(s@, p@),
{
    let a = chars_of(s);
    let b = chars_of(p);
    if b.len() > a.len() || !matches_at(&a, 0, &b) {
        return None;
    }
    let r = piece(&a, b.len(), a.len());
    proof {
        assert(r@ == s@.skip(p@.len() as int));
    }
    Some(r)
}

/// Whether `sub` stands somewhere in `s`.
pub open spec fn found_in(s: Seq<char>, sub: Seq<char>) -> bool {
    exists|at: int| occurs_at(s, at, sub)
}

/// The first position from `from` on at which `sub` stands in `s`.
pub open spec fn spot_from(s: Seq<char>, sub: Seq<char>, from: int) -> Option<int>
    decreases s.len() - from,
{
    if from + sub.len() > s.len() {
        None
    } else if occurs_at(s, from, sub) {
        Some(from)
    } else if from >= s.len() {
        None
    } else {
        spot_from(s, sub, from + 1)
    }
}

/// The first position at which `sub` stands in `s`.
pub open spec fn spot_of(s: Seq<char>, sub: Seq<char>) -> Option<int> {
    spot_from(s, sub, 0)
}

/// The first place at which a text stands is found.
pub proof fn lemma_spot_at(s: Seq<char>, sub: Seq<char>, from: int, i: int)
    requires
        0 <= from <= i,
        occurs_at(s, i, sub),
        forall|k: int| from <= k < i ==> !#[trigger] occurs_at(s, k, sub),
    ensures
        spot_from(s, sub, from) == Some(i),
    decreases i - from,
{
    if from < i {
        assert(!occurs_at(s, from, sub));
        lemma_spot_at(s, sub, from + 1, i);
    }
}

proof fn lemma_spot_none(s: Seq<char>, sub: Seq<char>, from: int)
    requires
        0 <= from,
        !found_in(s, sub),
    ensures
        spot_from(s, sub, from) is None,
    decreases s.len() - from,
{
    assert(!occurs_at(s, from, sub));
    if from < s.len() {
        lemma_spot_none(s, sub, from + 1);
    }
}

/// The position at which `b` first stands in `a`, as `spot_of` has it.
pub fn find_spot(a: &Vec<char>, b: &Vec<char>) -> (r: Option<usize>)
    ensures
        match r {
            Some(i) => spot_of(a@, b@) == Some(i as int) && i + b.len() <= a.len(),
            None => spot_of(a@, b@) is None,
        },
{
    match find(a, b) {
        Some(i) => {
            proof {
                lemma_spot_at(a@, b@, 0, i as int);
            }
            Some(i)
        },
        None => {
            proof {
                lemma_spot_none(a@, b@, 0);
            }
            None
        },
    }
}

/// The position at which `b` first stands in `a`, if it does.
pub fn find(a: &Vec<char>, b: &Vec<char>) -> (r: Option<usize>)
    ensures
        match r {
            Some(i) => occurs_at(a@, i as int, b@) && forall|k: int|
                0 <= k < i ==> !#[trigger] occurs_at(a@, k, b@),
            None => !found_in(a@, b@),
        },
{
    if b.len() > a.len() {
        return None;
    }
    let last: usize = a.len() - b.len();
    let mut i: usize = 0;
    loop
        invariant
            last == a.len() - b.len(),
            i <= last,
            forall|k: int| 0 <= k < i ==> !#[trigger] occurs_at(a@, k, b@),
        decreases last - i,
    {
        if matches_at(a, i, b) {
            return Some(i);
        }
        if i == last {
            return None;
        }
        i += 1;
    }
}

/// Whether `sub` stands somewhere in `s`.
pub fn contains(s: &str, sub: &str) -> (r: bool)
    ensures
        r == found_in(s@, sub@),
{
    let a = chars_of(s);
    let b = chars_of(sub);
    match find(&a, &b) {
        Some(i) => true,
        None => false,
    }
}

// ----- lines ---------------------------------------------------------------------------

/// `s` without one trailing carriage return.
pub open spec fn without_cr(s: Seq<char>) -> Seq<char> {
    if s.len() > 0 && s.last() == '\r' {
        s.drop_last()
    } else {
        s
    }
}

/// The lines of `s`: what stands before each line feed, without a carriage return
/// in front of the line feed, and what stands behind the last one unless it is
/// empty.
pub open spec fn lines_of(s: Seq<char>) -> Seq<Seq<char>>
    decreases s.len(),
{
    let i = until(s, '\n') as int;
    if s.len() == 0 {
        Seq::empty()
    } else if i < s.len() {
        seq![without_cr(s.take(i))] + lines_of(s.skip(i + 1))
    } else {
        seq![s]
    }
}

/// A text that stands on one line and comes back whole from `lines_of`.
pub open spec fn one_line(s: Seq<char>) -> bool {
    !s.contains('\n') && !(s.len() > 0 && s.last() == '\r')
}

/// A line, its line feed, and more: the line comes first.
pub proof fn lemma_lines_cons(a: Seq<char>, rest: Seq<char>)
    requires
        one_line(a),
    ensures
        lines_of(a + seq!['\n'] + rest) == seq![a] + lines_of(rest),
{
    let s = a + seq!['\n'] + rest;
    assert forall|k: int| 0 <= k < a.len() implies #[trigger] s[k] != '\n' by {
        assert(a[k] == s[k]);
        assert(a.contains(a[k]));
    }
    assert(s[a.len() as int] == '\n');
    lemma_until_at(s, '\n', a.len() as int);
    assert(s.take(a.len() as int) == a);
    assert(s.skip(a.len() as int + 1) == rest);
}

/// The last line may stand without its line feed.
pub proof fn lemma_lines_last(a: Seq<char>)
    requires
        !a.contains('\n'),
        a.len() > 0,
    ensures
        lines_of(a) == seq![a],
{
    lemma_until(a, '\n');
}

/// Splits a text into its lines.
pub fn lines(s: &str) -> (r: Vec<String>)
    ensures
        texts(r@) == lines_of(s@),
{
    let cs = chars_of(s);
    let mut out: Vec<String> = Vec::new();
    let mut at: usize = 0;
    proof {
        assert(cs@.skip(0) == s@);
        assert(texts(out@) + lines_of(s@) == lines_of(s@));
    }
    while at < cs.len()
        invariant
            at <= cs.len(),
            cs@ == s@,
            texts(out@) + lines_of(cs@.skip(at as int)) == lines_of(s@),
        decreases cs.len() - at,
    {
        let j = find_char(&cs, at, '\n');
        let ghost rest = cs@.skip(at as int);
        let ghost before = texts(out@);
        if j < cs.len() {
            let e: usize = if j > at && cs[j - 1] == '\r' {
                j - 1
            } else {
                j
            };
            let p = piece(&cs, at, e);
            out.push(p);
            proof {
                assert(texts(out@) == before.push(p@));
                let w = rest.take(j - at);
                if w.len() > 0 {
                    assert(w.last() == cs@[j - 1]);
                }
                assert(p@ == without_cr(w));
                assert(rest.skip(j - at + 1) == cs@.skip(j + 1));
                assert(texts(out@) + lines_of(cs@.skip(j + 1)) == before + (seq![p@] + lines_of(
                    cs@.skip(j + 1),
                )));
            }
            at = j + 1;
        } else {
            let p = piece(&cs, at, j);
            out.push(p);
            proof {
                assert(texts(out@) == before.push(p@));
                assert(p@ == rest);
                assert(cs@.skip(j as int) == Seq::<char>::empty());
                assert(texts(out@) + lines_of(cs@.skip(j as int)) == before + seq![rest]);
            }
            at = j;
        }
    }
    proof {
        assert(cs@.skip(at as int) == Seq::<char>::empty());
        assert(texts(out@) + lines_of(cs@.skip(at as int)) == texts(out@));
    }
    out
}

/// The texts of `items` with `sep` between neighbours.
pub open spec fn joined(items: Seq<Seq<char>>, sep: Seq<char>) -> Seq<char>
    decreases items.len(),
{
    if items.len() == 0 {
        Seq::empty()
    } else if items.len() == 1 {
        items[0]
    } else {
        joined(items.drop_last(), sep) + sep + items.last()
    }
}

/// Joins texts with a separator between neighbours.
pub fn join(items: &Vec<String>, sep: &str) -> (r: String)
    ensures
        r@ == joined(texts(items@), sep@),
{
    let mut out = String::new();
    let mut i: usize = 0;
    while i < items.len()
        invariant
            i <= items.len(),
            out@ == joined(texts(items@).take(i as int), sep@),
        decreases items.len() - i,
    {
        let ghost t = texts(items@);
        if i > 0 {
            out.append(sep);
        }
        out.append(items[i].as_str());
        proof {
            assert(t.take(i + 1).drop_last() == t.take(i as int));
            assert(t.take(i + 1).last() == items@[i as int]@);
            if i == 0 {
                assert(t.take(0) == Seq::<Seq<char>>::empty());
                assert(out@ == items@[0]@);
            }
        }
        i += 1;
    }
    proof {
        assert(texts(items@).take(i as int) == texts(items@));
    }
    out
}

// ----- letters -------------------------------------------------------------------------

/// A character with `A..Z` lowercased and all others as they are.
pub open spec fn ascii_low(c: char) -> char {
    if 'A' <= c <= 'Z' {
        (c as u32 + 32) as char
    } else {
        c
    }
}

/// Lowercases an ASCII letter.
pub fn ascii_lower(c: char) -> (r: char)
    ensures
        r == ascii_low(c),
{
    if 'A' <= c && c <= 'Z' {
        let n: u8 = c as u8;
        (n + 32) as char
    } else {
        c
    }
}

/// A text with `A..Z` lowercased.
pub open spec fn ascii_lowered(s: Seq<char>) -> Seq<char> {
    s.map_values(|c: char| ascii_low(c))
}

/// Lowercases the ASCII letters of a text.
pub fn to_ascii_lower(s: &str) -> (r: String)
    ensures
        r@ == ascii_lowered(s@),
{
    let cs = chars_of(s);
    let mut out = String::new();
    let mut i: usize = 0;
    while i < cs.len()
        invariant
            i <= cs.len(),
            cs@ == s@,
            out@ == ascii_lowered(cs@.take(i as int)),
        decreases cs.len() - i,
    {
        out.push(ascii_lower(cs[i]));
        proof {
            assert(ascii_lowered(cs@.take(i + 1)) == ascii_lowered(cs@.take(i as int)).push(
                ascii_low(cs@[i as int]),
            ));
        }
        i += 1;
    }
    proof {
        assert(cs@.take(i as int) == s@);
    }
    out
}

/// The number of bytes a character takes in UTF-8.
pub open spec fn utf8_width(c: char) -> nat {
    let n = c as u32;
    if n < 0x80 {
        1
    } else if n < 0x800 {
        2
    } else if n < 0x10000 {
        3
    } else {
        4
    }
}

/// The number of bytes a text takes in UTF-8.
pub open spec fn utf8_size(s: Seq<char>) -> nat
    decreases s.len(),
{
    if s.len() == 0 {
        0
    } else {
        utf8_size(s.drop_last()) + utf8_width(s.last())
    }
}

/// A text takes at most four bytes for each character.
pub proof fn lemma_utf8_size_bounds(s: Seq<char>)
    ensures
        utf8_size(s) <= 4 * s.len(),
    decreases s.len(),
{
    if s.len() > 0 {
        lemma_utf8_size_bounds(s.drop_last());
    }
}

/// The number of bytes a text takes in UTF-8.
pub fn utf8_len(s: &str) -> (r: u128)
    ensures
        r == utf8_size(s@),
        r <= 4 * s@.len(),
        s@.len() <= usize::MAX,
{
    let cs = chars_of(s);
    let mut n: u128 = 0;
    let mut i: usize = 0;
    while i < cs.len()
        invariant
            i <= cs.len(),
            n == utf8_size(cs@.take(i as int)),
            n <= 4 * i,
        decreases cs.len() - i,
    {
        let c: u32 = cs[i] as u32;
        let w: u128 = if c < 0x80 {
            1
        } else if c < 0x800 {
            2
        } else if c < 0x10000 {
            3
        } else {
            4
        };
        proof {
            assert(cs@.take(i + 1).drop_last() == cs@.take(i as int));
        }
        n = n + w;
        i += 1;
    }
    proof {
        assert(cs@.take(i as int) == s@);
    }
    n
}

// ----- numbers -------------------------------------------------------------------------

/// The digit that stands for `d`, which is below 16.
pub open spec fn digit_char(d: nat) -> char {
    if d < 10 {
        (48 + d) as char
    } else {
        (87 + d) as char
    }
}

/// `n` written in base `radix`, with lowercase letters and no leading zeros.
pub open spec fn in_radix(n: nat, radix: nat) -> Seq<char>
    decreases n,
    via in_radix_shrinks
{
    if radix < 2 || n < radix {
        seq![digit_char(n)]
    } else {
        in_radix(n / radix, radix).push(digit_char(n % radix))
    }
}

#[via_fn]
proof fn in_radix_shrinks(n: nat, radix: nat) {
    if radix >= 2 && n >= radix {
        vstd::arithmetic::div_mod::lemma_div_decreases(n as int, radix as int);
    }
}

/// `n` in decimal.
pub open spec fn decimal_of(n: nat) -> Seq<char> {
    in_radix(n, 10)
}

/// `s` with zeros in front of it up to `width` characters.
pub open spec fn zero_padded(s: Seq<char>, width: nat) -> Seq<char>
    decreases width - s.len(),
{
    if s.len() >= width {
        s
    } else {
        zero_padded(seq!['0'] + s, width)
    }
}

/// `c` in hexadecimal, with at least six digits.
pub open spec fn hex6_of(c: nat) -> Seq<char> {
    zero_padded(in_radix(c, 16), 6)
}

fn digit(d: u64) -> (r: char)
    requires
        d < 16,
    ensures
        r == digit_char(d as nat),
{
    let n: u8 = d as u8;
    if n < 10 {
        (48 + n) as char
    } else {
        (87 + n) as char
    }
}

/// Writes `n` in base `radix`.
pub fn radix_text(n: u64, radix: u64) -> (r: Vec<char>)
    requires
        2 <= radix <= 16,
    ensures
        r@ == in_radix(n as nat, radix as nat),
    decreases n,
{
    if n < radix {
        let mut out: Vec<char> = Vec::new();
        out.push(digit(n));
        out
    } else {
        proof {
            vstd::arithmetic::div_mod::lemma_div_decreases(n as int, radix as int);
            vstd::arithmetic::div_mod::lemma_mod_bound(n as int, radix as int);
        }
        let mut out = radix_text(n / radix, radix);
        out.push(digit(n % radix));
        out
    }
}

/// Writes `n` in decimal.
pub fn decimal(n: u64) -> (r: String)
    ensures
        r@ == decimal_of(n as nat),
{
    let cs = radix_text(n, 10);
    string_of(&cs)
}

/// Writes a color as at least six hexadecimal digits.
pub fn hex6(c: u32) -> (r: String)
    ensures
        r@ == hex6_of(c as nat),
{
    let mut cs = radix_text(c as u64, 16);
    while cs.len() < 6
        invariant
            zero_padded(cs@, 6) == hex6_of(c as nat),
        decreases 6 - cs.len(),
    {
        let ghost before = cs@;
        cs.insert(0, '0');
        proof {
            assert(cs@ == seq!['0'] + before);
        }
    }
    string_of(&cs)
}

/// The value of a digit in bases up to 16; 99 for any other character.
pub open spec fn digit_of(c: char) -> nat {
    if '0' <= c <= '9' {
        (c as u32 - 48) as nat
    } else if 'a' <= c <= 'f' {
        (c as u32 - 87) as nat
    } else if 'A' <= c <= 'F' {
        (c as u32 - 55) as nat
    } else {
        99
    }
}

/// Whether every character of `s` is a digit in base `radix`.
pub open spec fn all_digits(s: Seq<char>, radix: nat) -> bool {
    forall|k: int| 0 <= k < s.len() ==> digit_of(#[trigger] s[k]) < radix
}

/// The number that the digits `s` write in base `radix`.
pub open spec fn value_of(s: Seq<char>, radix: nat) -> nat
    decreases s.len(),
{
    if s.len() == 0 {
        0
    } else {
        value_of(s.drop_last(), radix) * radix + digit_of(s.last())
    }
}

/// The number that `s` writes in base `radix`: an optional plus sign, then one or
/// more digits, with a value of at most `max`.
pub open spec fn parsed(s: Seq<char>, radix: nat, max: nat) -> Option<nat> {
    let d = if s.len() > 0 && s[0] == '+' {
        s.skip(1)
    } else {
        s
    };
    if d.len() > 0 && all_digits(d, radix) && value_of(d, radix) <= max {
        Some(value_of(d, radix))
    } else {
        None
    }
}

/// An optional machine number, as a mathematical one.
pub open spec fn opt_nat(r: Option<u64>) -> Option<nat> {
    match r {
        Some(n) => Some(n as nat),
        None => None,
    }
}

fn digit_value(c: char) -> (r: u64)
    ensures
        r == digit_of(c),
        r <= 99,
{
    if '0' <= c && c <= '9' {
        (c as u64) - 48
    } else if 'a' <= c && c <= 'f' {
        (c as u64) - 87
    } else if 'A' <= c && c <= 'F' {
        (c as u64) - 55
    } else {
        99
    }
}

proof fn lemma_value_grows(s: Seq<char>, i: int, radix: nat)
    requires
        0 <= i <= s.len(),
        radix >= 1,
    ensures
        value_of(s.take(i), radix) <= value_of(s, radix),
    decreases s.len() - i,
{
    if i < s.len() {
        lemma_value_grows(s, i + 1, radix);
        let t = s.take(i + 1);
        assert(t.drop_last() == s.take(i));
        let v = value_of(s.take(i), radix);
        assert(v <= v * radix) by (nonlinear_arith)
            requires
                radix >= 1,
        ;
    } else {
        assert(s.take(i) == s);
    }
}

/// Reads a number in base `radix` that is at most `max`.
pub fn parse_number(s: &str, radix: u64, max: u64) -> (r: Option<u64>)
    requires
        2 <= radix <= 16,
    ensures
        opt_nat(r) == parsed(s@, radix as nat, max as nat),
{
    let cs = chars_of(s);
    let from: usize = if cs.len() > 0 && cs[0] == '+' {
        1
    } else {
        0
    };
    let ghost d = cs@.skip(from as int);
    proof {
        assert(from == 0 ==> d == s@);
    }
    if from == cs.len() {
        return None;
    }
    let mut n: u64 = 0;
    let mut i: usize = from;
    while i < cs.len()
        invariant
            from <= i <= cs.len(),
            2 <= radix <= 16,
            d == cs@.skip(from as int),
            d == (if s@.len() > 0 && s@[0] == '+' {
                s@.skip(1)
            } else {
                s@
            }),
            n <= max,
            n == value_of(d.take(i - from), radix as nat),
            forall|k: int| 0 <= k < i - from ==> digit_of(#[trigger] d[k]) < radix,
        decreases cs.len() - i,
    {
        let v: u64 = digit_value(cs[i]);
        proof {
            assert(cs@[i as int] == d[i - from]);
            assert(d.take(i - from + 1).drop_last() == d.take(i - from));
        }
        if v >= radix {
            return None;
        }
        proof {
            assert(n * radix <= 0xffff_ffff_ffff_ffff * 16) by (nonlinear_arith)
                requires
                    n <= 0xffff_ffff_ffff_ffff,
                    radix <= 16,
            ;
            assert(n * radix >= 0) by (nonlinear_arith)
                requires
                    n >= 0,
                    radix >= 0,
            ;
        }
        let wide: u128 = n as u128 * radix as u128 + v as u128;
        if wide > max as u128 {
            proof {
                lemma_value_grows(d, i - from + 1, radix as nat);
            }
            return None;
        }
        n = wide as u64;
        i += 1;
    }
    proof {
        assert(d.take(i - from) == d);
    }
    Some(n)
}

proof fn lemma_digit_char(d: nat)
    requires
        d < 16,
    ensures
        digit_of(digit_char(d)) == d,
        digit_char(d) != '+',
        !is_space(digit_char(d)),
        digit_char(d) != '\n',
        digit_char(d) != '\r',
{
}

/// Digits written in a base read back in the same base, zeros in front or not.
pub proof fn lemma_in_radix_reads_back(n: nat, radix: nat)
    requires
        2 <= radix <= 16,
    ensures
        in_radix(n, radix).len() > 0,
        all_digits(in_radix(n, radix), radix),
        value_of(in_radix(n, radix), radix) == n,
        forall|k: int|
            0 <= k < in_radix(n, radix).len() ==> exists|d: nat|
                d < radix && #[trigger] in_radix(n, radix)[k] == #[trigger] digit_char(d),
    decreases n,
{
    let s = in_radix(n, radix);
    if n < radix {
        lemma_digit_char(n);
        assert(s == seq![digit_char(n)]);
        assert(s.drop_last() == Seq::<char>::empty());
        assert(value_of(s.drop_last(), radix) == 0);
        assert(s.last() == digit_char(n));
        assert(value_of(s, radix) == 0 * radix + n);
    } else {
        vstd::arithmetic::div_mod::lemma_div_decreases(n as int, radix as int);
        vstd::arithmetic::div_mod::lemma_mod_bound(n as int, radix as int);
        vstd::arithmetic::div_mod::lemma_fundamental_div_mod(n as int, radix as int);
        let h = in_radix(n / radix, radix);
        lemma_in_radix_reads_back(n / radix, radix);
        lemma_digit_char(n % radix);
        assert(s == h.push(digit_char(n % radix)));
        assert(s.drop_last() == h);
        assert(value_of(s, radix) == (n / radix) * radix + n % radix);
        assert((n / radix) * radix == radix * (n / radix)) by (nonlinear_arith);
        assert forall|k: int| 0 <= k < s.len() implies digit_of(#[trigger] s[k]) < radix by {
            if k < h.len() {
                assert(s[k] == h[k]);
            }
        }
        assert forall|k: int| 0 <= k < s.len() implies exists|d: nat|
            d < radix && #[trigger] s[k] == #[trigger] digit_char(d) by {
            if k < h.len() {
                assert(s[k] == h[k]);
            } else {
                assert(s[k] == digit_char(n % radix));
            }
        }
    }
}

proof fn lemma_leading_zero(s: Seq<char>, radix: nat)
    requires
        radix >= 1,
    ensures
        value_of(seq!['0'] + s, radix) == value_of(s, radix),
    decreases s.len(),
{
    let z = seq!['0'] + s;
    if s.len() == 0 {
        assert(z.drop_last() == Seq::<char>::empty());
        assert(value_of(z.drop_last(), radix) == 0);
        assert(z.last() == '0');
        assert(0 * radix == 0);
    } else {
        assert(z.drop_last() == seq!['0'] + s.drop_last());
        lemma_leading_zero(s.drop_last(), radix);
    }
}

/// Text made of base-16 digits only.
pub open spec fn plain_digits(s: Seq<char>) -> bool {
    forall|k: int| 0 <= k < s.len() ==> exists|d: nat| d < 16 && #[trigger] s[k] == #[trigger] digit_char(d)
}

/// Digits stand on one line and have nothing to trim.
pub proof fn lemma_plain_digits(s: Seq<char>)
    requires
        plain_digits(s),
    ensures
        one_line(s),
        is_trimmed(s),
        s.len() > 0 ==> s[0] != '+',
        !s.contains('='),
{
    if s.contains('\n') {
        let k = choose|k: int| 0 <= k < s.len() && s[k] == '\n';
        let d = choose|d: nat| d < 16 && s[k] == #[trigger] digit_char(d);
        lemma_digit_char(d);
    }
    if s.contains('=') {
        let k = choose|k: int| 0 <= k < s.len() && s[k] == '=';
        let d = choose|d: nat| d < 16 && s[k] == #[trigger] digit_char(d);
    }
    if s.len() > 0 {
        let d = choose|d: nat| d < 16 && s[0] == #[trigger] digit_char(d);
        lemma_digit_char(d);
        let e = choose|d: nat| d < 16 && s[s.len() - 1] == #[trigger] digit_char(d);
        lemma_digit_char(e);
    }
}

proof fn lemma_zero_padded(s: Seq<char>, width: nat)
    requires
        s.len() > 0,
        all_digits(s, 16),
        plain_digits(s),
    ensures
        zero_padded(s, width).len() >= s.len(),
        all_digits(zero_padded(s, width), 16),
        plain_digits(zero_padded(s, width)),
        value_of(zero_padded(s, width), 16) == value_of(s, 16),
    decreases width - s.len(),
{
    if s.len() < width {
        let z = seq!['0'] + s;
        lemma_leading_zero(s, 16);
        assert(digit_of('0') == 0);
        assert(digit_char(0) == '0');
        assert forall|k: int| 0 <= k < z.len() implies digit_of(#[trigger] z[k]) < 16 by {
            if k > 0 {
                assert(z[k] == s[k - 1]);
            }
        }
        assert forall|k: int| 0 <= k < z.len() implies exists|d: nat|
            d < 16 && #[trigger] z[k] == #[trigger] digit_char(d) by {
            if k > 0 {
                assert(z[k] == s[k - 1]);
            } else {
                assert(z[k] == digit_char(0));
            }
        }
        lemma_zero_padded(z, width);
    }
}

/// A color written with `hex6` reads back as itself.
pub proof fn law_hex6_reads_back(c: u32)
    ensures
        parsed(hex6_of(c as nat), 16, u32::MAX as nat) == Some(c as nat),
        plain_digits(hex6_of(c as nat)),
        hex6_of(c as nat).len() > 0,
{
    lemma_in_radix_reads_back(c as nat, 16);
    let s = in_radix(c as nat, 16);
    assert(plain_digits(s));
    lemma_zero_padded(s, 6);
    lemma_plain_digits(hex6_of(c as nat));
}

/// A number written in decimal reads back as itself.
pub proof fn law_decimal_reads_back(n: nat, max: nat)
    requires
        n <= max,
    ensures
        parsed(decimal_of(n), 10, max) == Some(n),
        plain_digits(decimal_of(n)),
        decimal_of(n).len() > 0,
{
    lemma_in_radix_reads_back(n, 10);
    let s = decimal_of(n);
    assert forall|k: int| 0 <= k < s.len() implies exists|d: nat|
        d < 16 && #[trigger] s[k] == #[trigger] digit_char(d) by {
        let d = choose|d: nat| d < 10 && s[k] == #[trigger] digit_char(d);
        assert(s[k] == digit_char(d));
    }
    lemma_plain_digits(s);
}

} // verus!
