//! Bear-style inline tags (`#tag`, `#parent/child`) in note titles and
//! contents: extraction, stripping for display, renaming and removal.
use vstd::prelude::*;

use crate::text::{
    char_is_unicode_ws, is_unicode_ws, spec_trim, string_from_chars, trim_chars, trim_end_char,
    truncate_trailing,
    ascii_lower, char_ascii_lower, char_is_ascii_alpha, char_is_ascii_ws, char_is_tag_char, chars_of,
    is_ascii_alpha, is_ascii_ws, is_tag_char, spec_ascii_lowercase,
};

verus! {

/// The texts that a vector of strings holds.
pub open spec fn views(v: Seq<String>) -> Seq<Seq<char>> {
    v.map_values(|t: String| t@)
}

/// End of the run of tag characters that starts at `q`.
pub open spec fn tag_run_end(s: Seq<char>, q: int) -> int
    decreases s.len() - q,
{
    if 0 <= q < s.len() && is_tag_char(s[q]) {
        tag_run_end(s, q + 1)
    } else {
        q
    }
}

/// `e` moved back over trailing `/` characters, but not before `start`.
pub open spec fn slash_trim_end(s: Seq<char>, start: int, e: int) -> int
    decreases e - start,
{
    if e > start && s[e - 1] == '/' {
        slash_trim_end(s, start, e - 1)
    } else {
        e
    }
}

/// A tag starts at `p`: a `#` at the start of the text or after ASCII
/// whitespace, followed by an ASCII letter.
pub open spec fn is_tag_start(s: Seq<char>, p: int) -> bool {
    &&& 0 <= p
    &&& p + 1 < s.len()
    &&& s[p] == '#'
    &&& (p == 0 || is_ascii_ws(s[p - 1]))
    &&& is_ascii_alpha(s[p + 1])
}

/// The tag that starts at `p`: its run of tag characters without trailing
/// slashes, lower-cased.
pub open spec fn tag_at(s: Seq<char>, p: int) -> Seq<char> {
    spec_ascii_lowercase(
        s.subrange(p + 1, slash_trim_end(s, p + 1, tag_run_end(s, p + 1))),
    )
}

/// The tags that start before position `n`, in order, repeats included.
pub open spec fn tags_before(s: Seq<char>, n: int) -> Seq<Seq<char>>
    decreases n,
{
    if n <= 0 {
        seq![]
    } else if is_tag_start(s, n - 1) {
        tags_before(s, n - 1).push(tag_at(s, n - 1))
    } else {
        tags_before(s, n - 1)
    }
}

/// First occurrences of each element, in order.
pub open spec fn dedup(l: Seq<Seq<char>>) -> Seq<Seq<char>>
    decreases l.len(),
{
    if l.len() == 0 {
        seq![]
    } else {
        let d = dedup(l.drop_last());
        if d.contains(l.last()) {
            d
        } else {
            d.push(l.last())
        }
    }
}

/// The tags of a text: each distinct tag once, in order of first occurrence.
pub open spec fn spec_extract_tags(s: Seq<char>) -> Seq<Seq<char>> {
    dedup(tags_before(s, s.len() as int))
}

proof fn lemma_tag_run_end(s: Seq<char>, q: int, e: int)
    requires
        0 <= q <= e <= s.len(),
        forall|k: int| q <= k < e ==> is_tag_char(#[trigger] s[k]),
        e == s.len() || !is_tag_char(s[e]),
    ensures
        tag_run_end(s, q) == e,
    decreases e - q,
{
    if q < e {
        lemma_tag_run_end(s, q + 1, e);
    }
}

proof fn lemma_slash_trim_end(s: Seq<char>, start: int, e: int, f: int)
    requires
        start <= f <= e,
        forall|k: int| f <= k < e ==> s[k] == '/',
        f == start || s[f - 1] != '/',
    ensures
        slash_trim_end(s, start, e) == f,
    decreases e - start,
{
    if e > f {
        lemma_slash_trim_end(s, start, e - 1, f);
    }
}

proof fn lemma_tags_before_skip(s: Seq<char>, a: int, b: int)
    requires
        0 <= a <= b,
        forall|q: int| a <= q < b ==> !is_tag_start(s, q),
    ensures
        tags_before(s, b) == tags_before(s, a),
    decreases b - a,
{
    if b > a {
        lemma_tags_before_skip(s, a, b - 1);
    }
}

/// Every element of a deduplicated list occurs once, and the list holds
/// exactly the elements of the list it dedups.
pub proof fn lemma_dedup(l: Seq<Seq<char>>)
    ensures
        forall|i: int, j: int|
            0 <= i < j < dedup(l).len() ==> dedup(l)[i] != dedup(l)[j],
        forall|t: Seq<char>| dedup(l).contains(t) <==> l.contains(t),
    decreases l.len(),
{
    if l.len() > 0 {
        lemma_dedup(l.drop_last());
        let d = dedup(l.drop_last());
        assert forall|t: Seq<char>| dedup(l).contains(t) implies l.contains(t) by {
            if d.contains(t) {
                assert(l.drop_last().contains(t));
                let k = choose|k: int| 0 <= k < l.drop_last().len() && l.drop_last()[k] == t;
                assert(l[k] == t);
            } else {
                let m = choose|m: int| 0 <= m < dedup(l).len() && dedup(l)[m] == t;
                assert(dedup(l) == d.push(l.last()));
                if m < d.len() {
                    assert(d[m] == t);
                }
                assert(t == l.last());
                assert(l[l.len() - 1] == t);
            }
        }
        assert forall|t: Seq<char>| l.contains(t) implies dedup(l).contains(t) by {
            let k = choose|k: int| 0 <= k < l.len() && l[k] == t;
            if k < l.len() - 1 {
                assert(l.drop_last()[k] == t);
                assert(l.drop_last().contains(t));
                assert(d.contains(t));
                if !d.contains(l.last()) {
                    let m = choose|m: int| 0 <= m < d.len() && d[m] == t;
                    assert(dedup(l)[m] == t);
                }
            } else {
                if !d.contains(l.last()) {
                    assert(dedup(l)[d.len() as int] == t);
                }
            }
        }
    }
}

/// Does `v` hold a string equal to `t`?
pub fn contains_string(v: &Vec<String>, t: &String) -> (b: bool)
    ensures
        b == views(v@).contains(t@),
{
    let mut i: usize = 0;
    while i < v.len()
        invariant
            i <= v.len(),
            forall|k: int| 0 <= k < i ==> v@[k]@ != t@,
        decreases v.len() - i,
    {
        if v[i] == *t {
            proof {
                assert(views(v@)[i as int] == t@);
            }
            return true;
        }
        i = i + 1;
    }
    proof {
        if views(v@).contains(t@) {
            let k = choose|k: int| 0 <= k < views(v@).len() && views(v@)[k] == t@;
            assert(v@[k]@ == t@);
        }
    }
    false
}

/// The characters `cs[a..b]` as a `String`, ASCII lower-cased.
fn lowered_slice(cs: &Vec<char>, a: usize, b: usize) -> (r: String)
    requires
        a <= b <= cs.len(),
    ensures
        r@ == spec_ascii_lowercase(cs@.subrange(a as int, b as int)),
{
    let mut out = String::new();
    let mut k: usize = a;
    while k < b
        invariant
            a <= k <= b,
            b <= cs.len(),
            out@ == spec_ascii_lowercase(cs@.subrange(a as int, k as int)),
        decreases b - k,
    {
        out.push(char_ascii_lower(cs[k]));
        proof {
            assert(cs@.subrange(a as int, k + 1) == cs@.subrange(a as int, k as int).push(
                cs@[k as int],
            ));
            assert(spec_ascii_lowercase(cs@.subrange(a as int, k + 1)) == spec_ascii_lowercase(
                cs@.subrange(a as int, k as int),
            ).push(ascii_lower(cs@[k as int])));
        }
        k = k + 1;
    }
    out
}

/// Index of the end of the run of tag characters starting at `q`.
fn find_tag_run_end(cs: &Vec<char>, q: usize) -> (e: usize)
    requires
        q <= cs.len(),
    ensures
        e == tag_run_end(cs@, q as int),
        q <= e <= cs.len(),
        forall|k: int| q <= k < e ==> is_tag_char(#[trigger] cs@[k]),
{
    let mut e = q;
    while e < cs.len() && char_is_tag_char(cs[e])
        invariant
            q <= e <= cs.len(),
            forall|k: int| q <= k < e ==> is_tag_char(#[trigger] cs@[k]),
        decreases cs.len() - e,
    {
        e = e + 1;
    }
    proof {
        lemma_tag_run_end(cs@, q as int, e as int);
    }
    e
}

/// Scans text for inline tags `#name` or `#parent/child`: a `#` at the start
/// or after ASCII whitespace, then an ASCII letter, then letters, digits,
/// `_` and `/`; trailing slashes are dropped. Returns each distinct tag
/// once, lower-cased, in order of first occurrence.
pub fn extract_tags(content: &str) -> (tags: Vec<String>)
    ensures
        views(tags@) == spec_extract_tags(content@),
        forall|i: int, j: int| 0 <= i < j < tags@.len() ==> tags@[i]@ != tags@[j]@,
{
    let cs = chars_of(content);
    let n = cs.len();
    let mut tags: Vec<String> = Vec::new();
    let mut i: usize = 0;
    while i < n
        invariant
            i <= n,
            n == cs@.len(),
            cs@ == content@,
            views(tags@) == dedup(tags_before(cs@, i as int)),
        decreases n - i,
    {
        if cs[i] == '#' && (i == 0 || char_is_ascii_ws(cs[i - 1])) && i + 1 < n
            && char_is_ascii_alpha(cs[i + 1]) {
            let start = i + 1;
            let run_end = find_tag_run_end(&cs, start);
            let mut end = run_end;
            while end > start && cs[end - 1] == '/'
                invariant
                    start <= end <= run_end,
                    run_end <= n,
                    n == cs@.len(),
                    forall|k: int| end <= k < run_end ==> cs@[k] == '/',
                decreases end,
            {
                end = end - 1;
            }
            proof {
                lemma_slash_trim_end(cs@, start as int, run_end as int, end as int);
                assert(is_tag_start(cs@, i as int));
                assert forall|q: int| i + 1 <= q < end implies !is_tag_start(cs@, q) by {
                    assert(is_tag_char(cs@[q]));
                }
                lemma_tags_before_skip(cs@, i + 1, end as int);
            }
            let tag = lowered_slice(&cs, start, end);
            proof {
                assert(tag@ == tag_at(cs@, i as int));
                assert(tags_before(cs@, end as int) == tags_before(cs@, i as int).push(tag@));
                assert(tags_before(cs@, i as int).push(tag@).drop_last() == tags_before(
                    cs@,
                    i as int,
                ));
            }
            if !contains_string(&tags, &tag) {
                let ghost old_tags = tags@;
                tags.push(tag);
                proof {
                    assert(views(tags@) == views(old_tags).push(tag@));
                }
            }
            i = end;
        } else {
            i = i + 1;
        }
    }
    proof {
        lemma_dedup(tags_before(cs@, n as int));
        assert forall|a: int, b: int| 0 <= a < b < tags@.len() implies tags@[a]@ != tags@[b]@ by {
            assert(views(tags@)[a] == tags@[a]@);
            assert(views(tags@)[b] == tags@[b]@);
        }
    }
    tags
}


// ── Stripping tags for display ──────────────────────────────────────────────

/// One pass over `s` from position `i` that drops inline tags: a `#` after
/// Unicode whitespace (or at the start) and followed by an ASCII letter,
/// together with its run of tag characters, is removed, and so are the
/// spaces in front of it. `res` is the output so far, `prev_ws` tells
/// whether the last character passed on was whitespace (or a tag was just
/// removed), `skipping` whether a tag's characters are being dropped.
pub open spec fn strip_from(s: Seq<char>, i: int, res: Seq<char>, prev_ws: bool, skipping: bool) -> Seq<char>
    decreases s.len() - i,
{
    if i < 0 || i >= s.len() {
        res
    } else if skipping && is_tag_char(s[i]) {
        strip_from(s, i + 1, res, prev_ws, true)
    } else if s[i] == '#' && prev_ws && i + 1 < s.len() && is_ascii_alpha(s[i + 1]) {
        strip_from(s, i + 1, trim_end_char(res, ' '), true, true)
    } else {
        strip_from(s, i + 1, res.push(s[i]), is_unicode_ws(s[i]), false)
    }
}

/// A title or text with its inline tags removed, trimmed.
pub open spec fn spec_strip_inline_tags(s: Seq<char>) -> Seq<char> {
    spec_trim(strip_from(s, 0, seq![], true, false))
}

/// Removes inline `#tag` tokens (and the spaces before them) from a string
/// for clean display, then trims it.
pub fn strip_inline_tags(s: &str) -> (r: String)
    ensures
        r@ == spec_strip_inline_tags(s@),
{
    let cs = chars_of(s);
    let n = cs.len();
    let mut res: Vec<char> = Vec::new();
    let mut prev_ws = true;
    let mut skipping = false;
    let mut i: usize = 0;
    while i < n
        invariant
            i <= n,
            n == cs@.len(),
            cs@ == s@,
            strip_from(cs@, i as int, res@, prev_ws, skipping) == strip_from(
                cs@,
                0,
                seq![],
                true,
                false,
            ),
        decreases n - i,
    {
        let ch = cs[i];
        if skipping && char_is_tag_char(ch) {
        } else if ch == '#' && prev_ws && i + 1 < n && char_is_ascii_alpha(cs[i + 1]) {
            truncate_trailing(&mut res, ' ');
            prev_ws = true;
            skipping = true;
        } else {
            res.push(ch);
            prev_ws = char_is_unicode_ws(ch);
            skipping = false;
        }
        i = i + 1;
    }
    let t = trim_chars(&res);
    string_from_chars(&t)
}

// ── What stripping leaves ───────────────────────────────────────────────────

/// Every `#` followed by a letter comes after a character that is not
/// whitespace: nothing in `r` reads as a tag, even once leading whitespace
/// is trimmed.
pub open spec fn safe_hashes(r: Seq<char>) -> bool {
    forall|p: int|
        0 <= p && p + 1 < r.len() && #[trigger] r[p] == '#' && is_ascii_alpha(r[p + 1]) ==> p > 0
            && !is_unicode_ws(r[p - 1])
}

/// What holds at each step of `strip_from`: the output so far is safe; a
/// last character passed on that was not whitespace is still last; and a
/// `#` kept at the end before a letter to come follows a non-whitespace.
pub open spec fn strip_inv(s: Seq<char>, i: int, res: Seq<char>, prev_ws: bool, skipping: bool) -> bool {
    &&& safe_hashes(res)
    &&& !prev_ws ==> res.len() > 0 && !is_unicode_ws(res.last())
    &&& (res.len() > 0 && res.last() == '#' && !skipping && 0 <= i < s.len() && is_ascii_alpha(s[i]))
        ==> res.len() >= 2 && !is_unicode_ws(res[res.len() - 2])
}

proof fn lemma_trim_end_char_prefix(s: Seq<char>, c: char)
    ensures
        trim_end_char(s, c).len() <= s.len(),
        trim_end_char(s, c) == s.take(trim_end_char(s, c).len() as int),
        forall|j: int| trim_end_char(s, c).len() <= j < s.len() ==> #[trigger] s[j] == c,
    decreases s.len(),
{
    if s.len() > 0 && s.last() == c {
        lemma_trim_end_char_prefix(s.drop_last(), c);
        let t = trim_end_char(s.drop_last(), c);
        assert(s.drop_last().take(t.len() as int) =~= s.take(t.len() as int));
        assert forall|j: int| t.len() <= j < s.len() implies #[trigger] s[j] == c by {
            if j < s.len() - 1 {
                assert(s.drop_last()[j] == s[j]);
            }
        }
    } else {
        assert(s.take(s.len() as int) =~= s);
    }
}

proof fn lemma_safe_prefix(r: Seq<char>, k: int)
    requires
        safe_hashes(r),
        0 <= k <= r.len(),
    ensures
        safe_hashes(r.take(k)),
{
    let t = r.take(k);
    assert forall|p: int| 0 <= p && p + 1 < t.len() && #[trigger] t[p] == '#' && is_ascii_alpha(t[p + 1]) implies p > 0
        && !is_unicode_ws(t[p - 1]) by {
        assert(r[p] == t[p]);
        assert(r[p + 1] == t[p + 1]);
        if p > 0 {
            assert(r[p - 1] == t[p - 1]);
        }
    }
}

proof fn lemma_strip_safe(s: Seq<char>, i: int, res: Seq<char>, prev_ws: bool, skipping: bool)
    requires
        0 <= i,
        strip_inv(s, i, res, prev_ws, skipping),
    ensures
        safe_hashes(strip_from(s, i, res, prev_ws, skipping)),
    decreases s.len() - i,
{
    if i >= s.len() {
    } else if skipping && is_tag_char(s[i]) {
        lemma_strip_safe(s, i + 1, res, prev_ws, true);
    } else if s[i] == '#' && prev_ws && i + 1 < s.len() && is_ascii_alpha(s[i + 1]) {
        let t = trim_end_char(res, ' ');
        lemma_trim_end_char_prefix(res, ' ');
        lemma_safe_prefix(res, t.len() as int);
        lemma_strip_safe(s, i + 1, t, true, true);
    } else {
        let c = s[i];
        let r2 = res.push(c);
        assert(safe_hashes(r2)) by {
            assert forall|p: int| 0 <= p && p + 1 < r2.len() && #[trigger] r2[p] == '#' && is_ascii_alpha(r2[p + 1])
                implies p > 0 && !is_unicode_ws(r2[p - 1]) by {
                if p + 1 < res.len() {
                    assert(res[p] == r2[p] && res[p + 1] == r2[p + 1]);
                    if p > 0 {
                        assert(res[p - 1] == r2[p - 1]);
                    }
                } else {
                    assert(p == res.len() - 1);
                    assert(res.last() == '#');
                    assert(is_ascii_alpha(c));
                    assert(!skipping);
                    assert(r2[p - 1] == res[res.len() - 2]);
                }
            }
        }
        lemma_strip_safe(s, i + 1, r2, is_unicode_ws(c), false);
    }
}

proof fn lemma_safe_trim(r: Seq<char>)
    requires
        safe_hashes(r),
    ensures
        safe_hashes(spec_trim(r)),
{
    lemma_safe_trim_start(r);
    lemma_safe_trim_end(crate::text::trim_start(r));
}

proof fn lemma_safe_trim_start(r: Seq<char>)
    requires
        safe_hashes(r),
    ensures
        safe_hashes(crate::text::trim_start(r)),
    decreases r.len(),
{
    if r.len() > 0 && is_unicode_ws(r[0]) {
        let d = r.drop_first();
        assert forall|p: int| 0 <= p && p + 1 < d.len() && #[trigger] d[p] == '#' && is_ascii_alpha(d[p + 1]) implies p > 0
            && !is_unicode_ws(d[p - 1]) by {
            assert(r[p + 1] == d[p] && r[p + 2] == d[p + 1] && r[p] == r[p + 1 - 1]);
            if p > 0 {
                assert(d[p - 1] == r[p]);
            }
        }
        lemma_safe_trim_start(d);
    }
}

proof fn lemma_safe_trim_end(r: Seq<char>)
    requires
        safe_hashes(r),
    ensures
        safe_hashes(crate::text::trim_end(r)),
    decreases r.len(),
{
    if r.len() > 0 && is_unicode_ws(r.last()) {
        lemma_safe_prefix(r, r.len() - 1);
        assert(r.take(r.len() - 1) =~= r.drop_last());
        lemma_safe_trim_end(r.drop_last());
    }
}

proof fn lemma_safe_no_tags(r: Seq<char>, n: int)
    requires
        safe_hashes(r),
    ensures
        tags_before(r, n) == Seq::<Seq<char>>::empty(),
    decreases n,
{
    if n > 0 {
        let p = n - 1;
        if is_tag_start(r, p) {
            assert(r[p] == '#' && is_ascii_alpha(r[p + 1]));
        }
        lemma_safe_no_tags(r, n - 1);
    }
}

/// Stripping inline tags leaves no tag behind: the title a card shows
/// without its tags reads as carrying none, old or new.
pub proof fn lemma_strip_leaves_no_tags(s: Seq<char>)
    ensures
        spec_extract_tags(spec_strip_inline_tags(s)) == Seq::<Seq<char>>::empty(),
{
    lemma_strip_safe(s, 0, seq![], true, false);
    let r = strip_from(s, 0, seq![], true, false);
    lemma_safe_trim(r);
    let t = spec_trim(r);
    lemma_safe_no_tags(t, t.len() as int);
    assert(dedup(Seq::<Seq<char>>::empty()) =~= Seq::<Seq<char>>::empty());
}

// ── Runs of tag characters ──────────────────────────────────────────────────

proof fn lemma_run_end_bounds(r: Seq<char>, q: int)
    requires
        0 <= q <= r.len(),
    ensures
        q <= tag_run_end(r, q) <= r.len(),
        forall|m: int| q <= m < tag_run_end(r, q) ==> is_tag_char(#[trigger] r[m]),
        tag_run_end(r, q) < r.len() ==> !is_tag_char(r[tag_run_end(r, q)]),
    decreases r.len() - q,
{
    if q < r.len() && is_tag_char(r[q]) {
        lemma_run_end_bounds(r, q + 1);
    }
}

/// A run ends no later than the first non-tag character after its start.
proof fn lemma_run_end_before(r: Seq<char>, q: int, m: int)
    requires
        0 <= q <= m < r.len(),
        !is_tag_char(r[m]),
    ensures
        tag_run_end(r, q) <= m,
    decreases m - q,
{
    if q < m && is_tag_char(r[q]) {
        lemma_run_end_before(r, q + 1, m);
    }
}

/// Appending to a run that is already closed, or that the appended text
/// closes, leaves it as it was.
proof fn lemma_run_end_append(r: Seq<char>, t: Seq<char>, q: int)
    requires
        0 <= q <= r.len(),
        tag_run_end(r, q) < r.len() || (t.len() > 0 && !is_tag_char(t[0])),
    ensures
        tag_run_end(r + t, q) == tag_run_end(r, q),
    decreases r.len() - q,
{
    let rt = r + t;
    if q < r.len() {
        assert(rt[q] == r[q]);
        if is_tag_char(r[q]) {
            lemma_run_end_append(r, t, q + 1);
        }
    } else {
        assert(rt[q] == t[0]);
    }
}

/// Cutting after the end of a run leaves it as it was.
proof fn lemma_run_end_take(r: Seq<char>, k: int, q: int)
    requires
        0 <= q <= k <= r.len(),
        tag_run_end(r, q) <= k,
    ensures
        tag_run_end(r.take(k), q) == tag_run_end(r, q),
    decreases r.len() - q,
{
    let rk = r.take(k);
    if q < k {
        assert(rk[q] == r[q]);
        if is_tag_char(r[q]) {
            lemma_run_end_take(r, k, q + 1);
        }
    } else {
        lemma_run_end_bounds(r, q);
    }
}

/// Dropping the first character shifts runs by one.
proof fn lemma_run_end_drop_first(r: Seq<char>, q: int)
    requires
        1 <= q <= r.len(),
    ensures
        tag_run_end(r.drop_first(), q - 1) == tag_run_end(r, q) - 1,
    decreases r.len() - q,
{
    let d = r.drop_first();
    if q < r.len() {
        assert(d[q - 1] == r[q]);
        if is_tag_char(r[q]) {
            lemma_run_end_drop_first(r, q + 1);
        }
    }
}

/// Moving back over slashes reads only what lies before `e`.
proof fn lemma_slash_trim_same(r: Seq<char>, r2: Seq<char>, start: int, e: int)
    requires
        0 <= start <= e <= r.len(),
        e <= r2.len(),
        forall|m: int| start <= m < e ==> r2[m] == r[m],
    ensures
        slash_trim_end(r2, start, e) == slash_trim_end(r, start, e),
    decreases e - start,
{
    if e > start {
        assert(r2[e - 1] == r[e - 1]);
        if r[e - 1] == '/' {
            lemma_slash_trim_same(r, r2, start, e - 1);
        }
    }
}

proof fn lemma_slash_trim_bounds(r: Seq<char>, start: int, e: int)
    requires
        0 <= start <= e <= r.len(),
    ensures
        start <= slash_trim_end(r, start, e) <= e,
        forall|m: int| slash_trim_end(r, start, e) <= m < e ==> #[trigger] r[m] == '/',
        slash_trim_end(r, start, e) > start ==> r[slash_trim_end(r, start, e) - 1] != '/',
    decreases e - start,
{
    if e > start && r[e - 1] == '/' {
        lemma_slash_trim_bounds(r, start, e - 1);
    }
}

proof fn lemma_slash_trim_shift(r: Seq<char>, start: int, e: int)
    requires
        1 <= start <= e <= r.len(),
    ensures
        slash_trim_end(r.drop_first(), start - 1, e - 1) == slash_trim_end(r, start, e) - 1,
    decreases e - start,
{
    if e > start {
        assert(r.drop_first()[e - 2] == r[e - 1]);
        if r[e - 1] == '/' {
            lemma_slash_trim_shift(r, start, e - 1);
        }
    }
}

/// The tag at `p` does not change when text is appended after a closed run,
/// or when the appended text closes it.
proof fn lemma_tag_at_append(r: Seq<char>, t: Seq<char>, p: int)
    requires
        0 <= p,
        p + 1 <= r.len(),
        tag_run_end(r, p + 1) < r.len() || (t.len() > 0 && !is_tag_char(t[0])),
    ensures
        tag_at(r + t, p) == tag_at(r, p),
        tag_run_end(r + t, p + 1) == tag_run_end(r, p + 1),
{
    lemma_run_end_append(r, t, p + 1);
    lemma_run_end_bounds(r, p + 1);
    let e = tag_run_end(r, p + 1);
    lemma_slash_trim_same(r, r + t, p + 1, e);
    let f = slash_trim_end(r, p + 1, e);
    lemma_slash_trim_bounds(r, p + 1, e);
    assert((r + t).subrange(p + 1, f) =~= r.subrange(p + 1, f));
}

/// The tag at `p` does not change when the text is cut after its run.
proof fn lemma_tag_at_take(r: Seq<char>, k: int, p: int)
    requires
        0 <= p,
        p + 1 <= k <= r.len(),
        tag_run_end(r, p + 1) <= k,
    ensures
        tag_at(r.take(k), p) == tag_at(r, p),
{
    lemma_run_end_take(r, k, p + 1);
    lemma_run_end_bounds(r, p + 1);
    let e = tag_run_end(r, p + 1);
    lemma_slash_trim_same(r, r.take(k), p + 1, e);
    let f = slash_trim_end(r, p + 1, e);
    lemma_slash_trim_bounds(r, p + 1, e);
    assert(r.take(k).subrange(p + 1, f) =~= r.subrange(p + 1, f));
}

/// The tag at `p + 1` is the tag at `p` once the first character is gone.
proof fn lemma_tag_at_drop_first(r: Seq<char>, p: int)
    requires
        1 <= p,
        p + 1 <= r.len(),
    ensures
        tag_at(r.drop_first(), p - 1) == tag_at(r, p),
{
    let d = r.drop_first();
    lemma_run_end_drop_first(r, p + 1);
    lemma_run_end_bounds(r, p + 1);
    let e = tag_run_end(r, p + 1);
    lemma_slash_trim_shift(r, p + 1, e);
    let f = slash_trim_end(r, p + 1, e);
    lemma_slash_trim_bounds(r, p + 1, e);
    assert(d.subrange(p, f - 1) =~= r.subrange(p + 1, f));
}

proof fn lemma_run_to_end(r: Seq<char>, q: int)
    requires
        0 <= q <= r.len(),
        forall|m: int| q <= m < r.len() ==> is_tag_char(#[trigger] r[m]),
    ensures
        tag_run_end(r, q) == r.len(),
    decreases r.len() - q,
{
    if q < r.len() {
        lemma_run_to_end(r, q + 1);
    }
}

/// A kept tag written out as `#` and its characters reads back as a tag
/// that is no more `from` (or a child of it) than the characters were.
proof fn lemma_kept_tag(res: Seq<char>, buf: Seq<char>, from: Seq<char>)
    requires
        buf.len() > 0,
        is_ascii_alpha(buf[0]),
        forall|j: int| 0 <= j < buf.len() ==> is_tag_char(#[trigger] buf[j]),
        tag_suffix(spec_ascii_lowercase(buf), from) is None,
    ensures
        tag_suffix(tag_at(res + seq!['#'] + buf, res.len() as int), from) is None,
        tag_run_end(res + seq!['#'] + buf, res.len() + 1 as int) == res.len() + 1 + buf.len(),
{
    let n = res.len() as int;
    let r2 = res + seq!['#'] + buf;
    let q = n + 1;
    assert forall|m: int| q <= m < r2.len() implies is_tag_char(#[trigger] r2[m]) by {
        assert(r2[m] == buf[m - q]);
    }
    lemma_run_to_end(r2, q);
    let e = r2.len() as int;
    lemma_slash_trim_bounds(r2, q, e);
    let f = slash_trim_end(r2, q, e);
    assert(r2[q] == buf[0]);
    if f == q {
        assert(r2[q] == '/');
    }
    let m = f - q;
    assert(r2.subrange(q, f) =~= buf.take(m));
    let big = spec_ascii_lowercase(buf);
    let t = spec_ascii_lowercase(buf.take(m));
    assert(t =~= big.take(m));
    assert forall|j: int| m <= j < buf.len() implies #[trigger] big[j] == '/' by {
        assert(r2[j + q] == buf[j]);
        assert(buf[j] == '/');
    }
    if tag_suffix(t, from) is Some {
        if t == from {
            if m < buf.len() {
                assert(big.take(from.len() as int) =~= t);
                assert(big[from.len() as int] == '/');
            } else {
                assert(big =~= t);
            }
        } else {
            assert(big.take(from.len() as int) =~= t.take(from.len() as int));
            assert(big[from.len() as int] == t[from.len() as int]);
        }
        assert(tag_suffix(big, from) is Some);
    }
}

// ── What the tags of a text look like ───────────────────────────────────────

/// A tag as extracted: a tag name with no ASCII capital letter.
pub open spec fn extracted_shape(t: Seq<char>) -> bool {
    &&& tag_name(t)
    &&& forall|j: int| 0 <= j < t.len() ==> !('A' <= #[trigger] t[j] && t[j] <= 'Z')
}

/// The tag starting at a tag start has the shape of an extracted tag.
proof fn lemma_tag_at_shape(r: Seq<char>, p: int)
    requires
        is_tag_start(r, p),
    ensures
        extracted_shape(tag_at(r, p)),
{
    let q = p + 1;
    lemma_run_end_bounds(r, q);
    let e = tag_run_end(r, q);
    assert(e > q);
    lemma_slash_trim_bounds(r, q, e);
    let f = slash_trim_end(r, q, e);
    if f == q {
        assert(r[q] == '/');
    }
    let raw = r.subrange(q, f);
    let t = tag_at(r, p);
    assert(t =~= spec_ascii_lowercase(raw));
    assert forall|j: int| 0 <= j < t.len() implies is_tag_char(#[trigger] t[j]) && !('A' <= t[j] && t[j] <= 'Z') by {
        assert(raw[j] == r[q + j]);
        lemma_ascii_lower_tag(raw[j]);
        if 'A' <= raw[j] && raw[j] <= 'Z' {
            assert((raw[j] as u32 + 32) as char == ascii_lower(raw[j]));
        }
    }
    assert(raw[0] == r[q]);
    if 'A' <= raw[0] && raw[0] <= 'Z' {
        assert((raw[0] as u32 + 32) as char == ascii_lower(raw[0]));
    }
    assert(raw[raw.len() - 1] == r[f - 1]);
}

/// Every tag found before `n` has the shape of an extracted tag.
proof fn lemma_tags_before_shape(r: Seq<char>, n: int)
    ensures
        forall|t: Seq<char>| #[trigger] tags_before(r, n).contains(t) ==> extracted_shape(t),
    decreases n,
{
    if n > 0 {
        lemma_tags_before_shape(r, n - 1);
        let l = tags_before(r, n - 1);
        if is_tag_start(r, n - 1) {
            lemma_tag_at_shape(r, n - 1);
            assert(tags_before(r, n) == l.push(tag_at(r, n - 1)));
            assert forall|t: Seq<char>| #[trigger] tags_before(r, n).contains(t) implies extracted_shape(t) by {
                let k = choose|k: int| 0 <= k < tags_before(r, n).len() && tags_before(r, n)[k] == t;
                if k < l.len() {
                    assert(l[k] == t);
                    assert(l.contains(t));
                }
            }
        } else {
            assert(tags_before(r, n) == l);
        }
    }
}

/// The tags of a text are unique, and each starts with an ASCII letter, is
/// made of tag characters, does not end with `/` and holds no ASCII capital.
pub proof fn lemma_extracted_tags_shape(s: Seq<char>)
    ensures
        forall|i: int, j: int|
            0 <= i < j < spec_extract_tags(s).len() ==> spec_extract_tags(s)[i] != spec_extract_tags(s)[j],
        forall|t: Seq<char>| #[trigger] spec_extract_tags(s).contains(t) ==> extracted_shape(t),
{
    let l = tags_before(s, s.len() as int);
    lemma_dedup(l);
    lemma_tags_before_shape(s, s.len() as int);
    assert forall|t: Seq<char>| #[trigger] spec_extract_tags(s).contains(t) implies extracted_shape(t) by {
        assert(dedup(l).contains(t));
        assert(l.contains(t));
    }
}

// ── What removing a tag leaves ──────────────────────────────────────────────

/// A `#` followed by a letter at `p`.
pub open spec fn hash_alpha(r: Seq<char>, p: int) -> bool {
    0 <= p && p + 1 < r.len() && r[p] == '#' && is_ascii_alpha(r[p + 1])
}

/// The character before `p` exists and is not whitespace.
pub open spec fn after_non_ws(r: Seq<char>, p: int) -> bool {
    p > 0 && !is_unicode_ws(r[p - 1])
}

/// Every `#` followed by a letter in `r` comes after a non-whitespace
/// character or starts a tag that is neither `from` nor a child of it.
pub open spec fn clean_of(r: Seq<char>, from: Seq<char>) -> bool {
    forall|p: int| #[trigger] hash_alpha(r, p) ==> after_non_ws(r, p) || tag_suffix(tag_at(r, p), from) is None
}

/// Every tag's run in `r` is followed by a character.
pub open spec fn closed_runs(r: Seq<char>) -> bool {
    forall|p: int| #[trigger] hash_alpha(r, p) && !after_non_ws(r, p) ==> tag_run_end(r, p + 1) < r.len()
}

/// What holds at each step of `replace_from` when a tag is removed.
pub open spec fn removal_inv(
    s: Seq<char>,
    i: int,
    res: Seq<char>,
    prev_ws: bool,
    in_tag: bool,
    buf: Seq<char>,
    from: Seq<char>,
) -> bool {
    &&& clean_of(res, from)
    &&& !in_tag ==> closed_runs(res)
    &&& !prev_ws ==> res.len() > 0 && !is_unicode_ws(res.last())
    &&& (res.len() > 0 && res.last() == '#' && !in_tag && 0 <= i < s.len() && is_ascii_alpha(s[i]))
        ==> after_non_ws(res, res.len() - 1)
    &&& in_tag ==> {
        &&& forall|j: int| 0 <= j < buf.len() ==> is_tag_char(#[trigger] buf[j])
        &&& buf.len() > 0 ==> is_ascii_alpha(buf[0])
        &&& buf.len() == 0 ==> 0 <= i < s.len() && is_ascii_alpha(s[i])
    }
}

/// Passing one character on keeps the output clean.
pub(crate) proof fn lemma_clean_push(r: Seq<char>, c: char, from: Seq<char>)
    requires
        clean_of(r, from),
        closed_runs(r) || !is_tag_char(c),
        (r.len() > 0 && r.last() == '#' && is_ascii_alpha(c)) ==> after_non_ws(r, r.len() - 1),
    ensures
        clean_of(r.push(c), from),
        closed_runs(r.push(c)),
{
    let r2 = r.push(c);
    assert(r2 =~= r + seq![c]);
    assert forall|p: int| #[trigger] hash_alpha(r2, p) implies after_non_ws(r2, p) || tag_suffix(tag_at(r2, p), from) is None by {
        if p + 1 < r.len() {
            assert(hash_alpha(r, p));
            if p > 0 {
                assert(r2[p - 1] == r[p - 1]);
            }
            if !after_non_ws(r, p) {
                lemma_tag_at_append(r, seq![c], p);
            }
        } else {
            assert(r[p] == r2[p]);
            assert(r2[p - 1] == r[p - 1]);
        }
    }
    assert forall|p: int| #[trigger] hash_alpha(r2, p) && !after_non_ws(r2, p) implies tag_run_end(r2, p + 1) < r2.len() by {
        if p + 1 < r.len() {
            assert(hash_alpha(r, p));
            if p > 0 {
                assert(r2[p - 1] == r[p - 1]);
            }
            lemma_run_end_bounds(r, p + 1);
            lemma_tag_at_append(r, seq![c], p);
        } else {
            assert(r[p] == r2[p]);
            assert(r2[p - 1] == r[p - 1]);
        }
    }
}

/// Writing out a kept tag keeps the output clean.
pub(crate) proof fn lemma_clean_kept(res: Seq<char>, buf: Seq<char>, from: Seq<char>)
    requires
        clean_of(res, from),
        buf.len() > 0,
        forall|j: int| 0 <= j < buf.len() ==> is_tag_char(#[trigger] buf[j]),
        is_ascii_alpha(buf[0]) ==> tag_suffix(spec_ascii_lowercase(buf), from) is None,
    ensures
        clean_of(res + seq!['#'] + buf, from),
{
    let n = res.len() as int;
    let r2 = res + seq!['#'] + buf;
    let t = seq!['#'] + buf;
    assert(r2 =~= res + t);
    if is_ascii_alpha(buf[0]) {
        lemma_kept_tag(res, buf, from);
    }
    assert forall|p: int| #[trigger] hash_alpha(r2, p) implies after_non_ws(r2, p) || tag_suffix(tag_at(r2, p), from) is None by {
        if p + 1 < n {
            assert(hash_alpha(res, p));
            if p > 0 {
                assert(r2[p - 1] == res[p - 1]);
            }
            lemma_tag_at_append(res, t, p);
        } else if p + 1 == n {
            assert(r2[p + 1] == '#');
        } else if p == n {
            assert(r2[p + 1] == buf[0]);
        } else if p > n {
            assert(r2[p] == buf[p - n - 1]);
        }
    }
}

/// Cutting the output before a character that is not a tag character keeps
/// it clean.
proof fn lemma_clean_take(r: Seq<char>, k: int, from: Seq<char>)
    requires
        clean_of(r, from),
        0 <= k <= r.len(),
        k < r.len() ==> !is_tag_char(r[k]),
    ensures
        clean_of(r.take(k), from),
{
    let rk = r.take(k);
    assert forall|p: int| #[trigger] hash_alpha(rk, p) implies after_non_ws(rk, p) || tag_suffix(tag_at(rk, p), from) is None by {
        assert(hash_alpha(r, p));
        if p > 0 {
            assert(rk[p - 1] == r[p - 1]);
        }
        if k < r.len() {
            lemma_run_end_before(r, p + 1, k);
        } else {
            lemma_run_end_bounds(r, p + 1);
        }
        lemma_tag_at_take(r, k, p);
    }
}

proof fn lemma_clean_trim(r: Seq<char>, from: Seq<char>)
    requires
        clean_of(r, from),
    ensures
        clean_of(spec_trim(r), from),
{
    lemma_clean_trim_start(r, from);
    lemma_clean_trim_end(crate::text::trim_start(r), from);
}

proof fn lemma_clean_trim_start(r: Seq<char>, from: Seq<char>)
    requires
        clean_of(r, from),
    ensures
        clean_of(crate::text::trim_start(r), from),
    decreases r.len(),
{
    if r.len() > 0 && is_unicode_ws(r[0]) {
        let d = r.drop_first();
        assert forall|p: int| #[trigger] hash_alpha(d, p) implies after_non_ws(d, p) || tag_suffix(tag_at(d, p), from) is None by {
            assert(r[p + 1] == d[p] && r[p + 2] == d[p + 1]);
            assert(hash_alpha(r, p + 1));
            if p > 0 {
                assert(d[p - 1] == r[p]);
            }
            lemma_tag_at_drop_first(r, p + 1);
        }
        lemma_clean_trim_start(d, from);
    }
}

proof fn lemma_clean_trim_end(r: Seq<char>, from: Seq<char>)
    requires
        clean_of(r, from),
    ensures
        clean_of(crate::text::trim_end(r), from),
    decreases r.len(),
{
    if r.len() > 0 && is_unicode_ws(r.last()) {
        lemma_clean_take(r, r.len() - 1, from);
        assert(r.take(r.len() - 1) =~= r.drop_last());
        lemma_clean_trim_end(r.drop_last(), from);
    }
}

proof fn lemma_removal_clean(
    s: Seq<char>,
    i: int,
    res: Seq<char>,
    prev_ws: bool,
    found: bool,
    in_tag: bool,
    buf: Seq<char>,
    from: Seq<char>,
    to: Seq<char>,
)
    requires
        0 <= i,
        removal_inv(s, i, res, prev_ws, in_tag, buf, from),
        to.len() == 0 || renamable(to, from),
    ensures
        clean_of(replace_from(s, i, res, prev_ws, found, in_tag, buf, from, to).0, from),
    decreases s.len() - i,
{
    let empty = Seq::<char>::empty();
    if i >= s.len() {
        if in_tag {
            lemma_finish_clean(res, buf, from, to);
        }
    } else if in_tag && is_tag_char(s[i]) {
        let b2 = buf.push(s[i]);
        assert forall|j: int| 0 <= j < b2.len() implies is_tag_char(#[trigger] b2[j]) by {
            if j < buf.len() {
                assert(b2[j] == buf[j]);
            }
        }
        lemma_removal_clean(s, i + 1, res, prev_ws, found, true, b2, from, to);
    } else {
        let f = if in_tag {
            finish_tag(res, buf, from, to)
        } else {
            (res, prev_ws, false)
        };
        if in_tag {
            lemma_finish_clean(res, buf, from, to);
        }
        let found1 = found || f.2;
        let c = s[i];
        if c == '#' && f.1 && i + 1 < s.len() && is_ascii_alpha(s[i + 1]) {
            lemma_removal_clean(s, i + 1, f.0, f.1, found1, true, empty, from, to);
        } else {
            lemma_clean_push(f.0, c, from);
            let r2 = f.0.push(c);
            assert(r2.last() == c);
            if c == '#' && i + 1 < s.len() && is_ascii_alpha(s[i + 1]) {
                assert(r2[r2.len() - 2] == f.0.last());
            }
            lemma_removal_clean(s, i + 1, r2, is_unicode_ws(c), found1, false, empty, from, to);
        }
    }
}

/// Completing a tag keeps the output clean, whether the tag is replaced or
/// kept; a kept tag leaves a non-whitespace character last.
proof fn lemma_finish_clean(res: Seq<char>, buf: Seq<char>, from: Seq<char>, to: Seq<char>)
    requires
        clean_of(res, from),
        buf.len() > 0,
        is_ascii_alpha(buf[0]),
        forall|j: int| 0 <= j < buf.len() ==> is_tag_char(#[trigger] buf[j]),
        to.len() == 0 || renamable(to, from),
    ensures
        clean_of(finish_tag(res, buf, from, to).0, from),
        !finish_tag(res, buf, from, to).1 ==> {
            let o = finish_tag(res, buf, from, to).0;
            o.len() > 0 && !is_unicode_ws(o.last()) && o.last() != '#'
        },
{
    match tag_suffix(spec_ascii_lowercase(buf), from) {
        Some(suffix) => {
            let t = trim_end_char(res, ' ');
            lemma_trim_end_char_prefix(res, ' ');
            lemma_clean_take(res, t.len() as int, from);
            if to.len() > 0 {
                let t1 = if t.len() > 0 {
                    t.push(' ')
                } else {
                    t
                };
                if t.len() > 0 {
                    lemma_clean_push(t, ' ', from);
                }
                lemma_suffix_shape(spec_ascii_lowercase(buf), from, buf);
                let w = to + suffix;
                assert forall|j: int| 0 <= j < w.len() implies is_tag_char(#[trigger] w[j]) by {
                    if j >= to.len() {
                        assert(w[j] == suffix[j - to.len()]);
                    }
                }
                if is_ascii_alpha(w[0]) {
                    lemma_rename_target(to, suffix, from);
                }
                lemma_clean_kept(t1, w, from);
                assert(emit_replacement(res, to, suffix) =~= t1 + seq!['#'] + w);
            }
        },
        None => {
            lemma_clean_kept(res, buf, from);
            let o = res + seq!['#'] + buf;
            assert(o.last() == buf[buf.len() - 1]);
        },
    }
}

/// `to` can take the place of `from`: a run of tag characters that is
/// neither `from` (nor under it) nor above it, once lower-cased.
pub open spec fn renamable(to: Seq<char>, from: Seq<char>) -> bool {
    &&& forall|j: int| 0 <= j < to.len() ==> is_tag_char(#[trigger] to[j])
    &&& tag_suffix(spec_ascii_lowercase(to), from) is None
    &&& tag_suffix(from, spec_ascii_lowercase(to)) is None
}

/// The part of a matching tag after `from` is empty or starts with `/`,
/// holds tag characters and is already lower-case.
proof fn lemma_suffix_shape(low: Seq<char>, from: Seq<char>, buf: Seq<char>)
    requires
        low == spec_ascii_lowercase(buf),
        forall|j: int| 0 <= j < buf.len() ==> is_tag_char(#[trigger] buf[j]),
        tag_suffix(low, from) is Some,
    ensures
        ({
            let x = tag_suffix(low, from)->0;
            &&& x.len() == 0 || x[0] == '/'
            &&& forall|j: int| 0 <= j < x.len() ==> is_tag_char(#[trigger] x[j])
            &&& spec_ascii_lowercase(x) == x
        }),
{
    let x = tag_suffix(low, from)->0;
    if low != from && from.len() > 0 {
        assert(x =~= low.skip(from.len() as int));
        assert forall|j: int| 0 <= j < x.len() implies is_tag_char(#[trigger] x[j]) && ascii_lower(x[j]) == x[j] by {
            assert(x[j] == low[j + from.len()]);
            assert(low[j + from.len()] == ascii_lower(buf[j + from.len()]));
            lemma_ascii_lower_tag(buf[j + from.len()]);
        }
        assert(spec_ascii_lowercase(x) =~= x);
    } else {
        assert(x.len() == 0);
        assert(spec_ascii_lowercase(x) =~= x);
    }
}

/// Lower-casing keeps a tag character a tag character, and lower-casing
/// twice is lower-casing once.
proof fn lemma_ascii_lower_tag(c: char)
    ensures
        is_tag_char(c) ==> is_tag_char(ascii_lower(c)),
        ascii_lower(ascii_lower(c)) == ascii_lower(c),
{
    if 'A' <= c && c <= 'Z' {
        let u = c as u32;
        assert(65 <= u <= 90);
        assert((u + 32) as char == ascii_lower(c));
        assert('a' <= ascii_lower(c) && ascii_lower(c) <= 'z');
    }
}

/// The tag written in place of a renamed one, `to` and the part after
/// `from`, is neither `from` nor under it.
proof fn lemma_rename_target(to: Seq<char>, suffix: Seq<char>, from: Seq<char>)
    requires
        to.len() > 0,
        renamable(to, from),
        suffix.len() == 0 || suffix[0] == '/',
        spec_ascii_lowercase(suffix) == suffix,
    ensures
        tag_suffix(spec_ascii_lowercase(to + suffix), from) is None,
{
    let l = spec_ascii_lowercase(to);
    let x = spec_ascii_lowercase(to + suffix);
    assert(x =~= l + suffix);
    let f = from.len() as int;
    let n = l.len() as int;
    if tag_suffix(x, from) is Some {
        if suffix.len() == 0 {
            assert(x =~= l);
        } else if x == from {
            assert(from.take(n) =~= l);
            assert(from[n] == '/');
            assert(tag_suffix(from, l) is Some);
        } else {
            assert(x.take(f) == from && x[f] == '/');
            if f < n {
                assert(l.take(f) =~= from);
                assert(l[f] == '/');
                assert(tag_suffix(l, from) is Some);
            } else if f == n {
                assert(l =~= from);
            } else {
                assert(from.take(n) =~= l);
                assert(from[n] == x[n]);
                assert(from[n] == '/');
                assert(tag_suffix(from, l) is Some);
            }
        }
    }
}

/// The output of removing or renaming a tag is clean of it.
pub(crate) proof fn lemma_removal_output_clean(s: Seq<char>, from: Seq<char>, to: Seq<char>)
    requires
        to.len() == 0 || renamable(to, from),
    ensures
        clean_of(spec_replace_tag(s, from, to).0, from),
{
    let empty = Seq::<char>::empty();
    lemma_removal_clean(s, 0, empty, true, false, false, empty, from, to);
    let raw = replace_from(s, 0, empty, true, false, false, empty, from, to).0;
    lemma_clean_trim(raw, from);
}

/// No tag of a clean text is `from` or one of its children.
pub(crate) proof fn lemma_clean_extract(t: Seq<char>, from: Seq<char>)
    requires
        clean_of(t, from),
    ensures
        forall|x: Seq<char>| #[trigger] spec_extract_tags(t).contains(x) ==> tag_suffix(x, from) is None,
{
    lemma_clean_tags(t, from, t.len() as int);
    let l = tags_before(t, t.len() as int);
    lemma_dedup(l);
    assert forall|x: Seq<char>| #[trigger] spec_extract_tags(t).contains(x) implies tag_suffix(x, from) is None by {
        assert(dedup(l).contains(x));
        assert(l.contains(x));
    }
}

/// A tag in `b` reads the same with text before it.
proof fn lemma_tag_at_prefix(pre: Seq<char>, b: Seq<char>, p: int)
    requires
        0 <= p,
        p + 1 <= b.len(),
    ensures
        tag_at(pre + b, p + pre.len()) == tag_at(b, p),
    decreases pre.len(),
{
    if pre.len() > 0 {
        let r = pre + b;
        assert(r.drop_first() =~= pre.drop_first() + b);
        lemma_tag_at_drop_first(r, p + pre.len());
        lemma_tag_at_prefix(pre.drop_first(), b, p);
    } else {
        assert(pre + b =~= b);
    }
}

/// Two clean texts joined by a space make a clean text.
pub(crate) proof fn lemma_clean_join(a: Seq<char>, b: Seq<char>, from: Seq<char>)
    requires
        clean_of(a, from),
        clean_of(b, from),
    ensures
        clean_of(a + seq![' '] + b, from),
{
    let n = a.len() as int;
    let t = seq![' '] + b;
    let r = a + seq![' '] + b;
    assert(r =~= a + t);
    assert(t =~= seq![' '] + b);
    assert forall|p: int| #[trigger] hash_alpha(r, p) implies after_non_ws(r, p) || tag_suffix(tag_at(r, p), from) is None by {
        if p + 1 < n {
            assert(r[p] == a[p] && r[p + 1] == a[p + 1]);
            assert(hash_alpha(a, p));
            if p > 0 {
                assert(r[p - 1] == a[p - 1]);
            }
            if !after_non_ws(a, p) {
                lemma_tag_at_append(a, t, p);
            }
        } else if p + 1 == n {
            assert(r[p + 1] == ' ');
        } else if p == n {
            assert(r[p] == ' ');
        } else {
            let q = p - n - 1;
            assert(r[p] == b[q] && r[p + 1] == b[q + 1]);
            assert(hash_alpha(b, q));
            assert(r[p - 1] == t[q]);
            if q > 0 {
                assert(t[q] == b[q - 1]);
            }
            lemma_tag_at_prefix(a + seq![' '], b, q);
            assert(a + seq![' '] + b =~= r);
        }
    }
}

/// Removing a tag from a text leaves neither it nor any of its children:
/// no tag of the result is `from` or `from/…`.
pub proof fn lemma_removed_tag_is_gone(s: Seq<char>, from: Seq<char>)
    ensures
        forall|t: Seq<char>| #[trigger] spec_extract_tags(spec_replace_tag(s, from, seq![]).0).contains(t)
            ==> tag_suffix(t, from) is None,
{
    lemma_removal_output_clean(s, from, seq![]);
    lemma_clean_extract(spec_replace_tag(s, from, seq![]).0, from);
}

/// Renaming a tag to a tag name that is neither it, under it, nor above it
/// leaves no tag that is the old one or one of its children.
pub proof fn lemma_renamed_tag_is_gone(s: Seq<char>, from: Seq<char>, to: Seq<char>)
    requires
        renamable(to, from),
    ensures
        forall|t: Seq<char>| #[trigger] spec_extract_tags(spec_replace_tag(s, from, to).0).contains(t)
            ==> tag_suffix(t, from) is None,
{
    lemma_removal_output_clean(s, from, to);
    lemma_clean_extract(spec_replace_tag(s, from, to).0, from);
}

// ── What renaming a tag gives ───────────────────────────────────────────────

/// A tag name a tag can be renamed to: a letter, then tag characters, not
/// ending with `/`.
pub open spec fn tag_name(to: Seq<char>) -> bool {
    &&& to.len() > 0
    &&& is_ascii_alpha(to[0])
    &&& forall|j: int| 0 <= j < to.len() ==> is_tag_char(#[trigger] to[j])
    &&& to.last() != '/'
}

/// At `p` stands a tag that is `x` or under it: a `#` at the start or after
/// a space, followed by a letter.
pub open spec fn new_tag_at(r: Seq<char>, p: int, x: Seq<char>) -> bool {
    &&& 0 <= p
    &&& p + 1 < r.len()
    &&& r[p] == '#'
    &&& (p == 0 || r[p - 1] == ' ')
    &&& is_ascii_alpha(r[p + 1])
    &&& tag_suffix(tag_at(r, p), x) is Some
}

/// Text added after a tag whose run is closed, or that starts with a
/// character outside tags, leaves the tag as it was.
proof fn lemma_new_tag_append(r: Seq<char>, t: Seq<char>, p: int, x: Seq<char>)
    requires
        new_tag_at(r, p, x),
        tag_run_end(r, p + 1) < r.len() || (t.len() > 0 && !is_tag_char(t[0])),
    ensures
        new_tag_at(r + t, p, x),
        tag_run_end(r + t, p + 1) < (r + t).len(),
{
    lemma_tag_at_append(r, t, p);
    lemma_run_end_bounds(r, p + 1);
    let rt = r + t;
    assert(rt[p] == r[p] && rt[p + 1] == r[p + 1]);
    if p > 0 {
        assert(rt[p - 1] == r[p - 1]);
    }
    if tag_run_end(r, p + 1) == r.len() {
        assert(t.len() > 0);
    }
}

/// The tag written in place of a renamed one is `to` or under it.
pub(crate) proof fn lemma_emitted_tag(t1: Seq<char>, to: Seq<char>, suffix: Seq<char>)
    requires
        tag_name(to),
        suffix.len() == 0 || suffix[0] == '/',
        forall|j: int| 0 <= j < suffix.len() ==> is_tag_char(#[trigger] suffix[j]),
        spec_ascii_lowercase(suffix) == suffix,
        t1.len() == 0 || t1.last() == ' ',
    ensures
        new_tag_at(t1 + seq!['#'] + (to + suffix), t1.len() as int, spec_ascii_lowercase(to)),
        tag_run_end(t1 + seq!['#'] + (to + suffix), t1.len() + 1 as int) == (t1 + seq!['#'] + (to + suffix)).len(),
{
    let w = to + suffix;
    let q = t1.len() as int;
    let r2 = t1 + seq!['#'] + w;
    let x = spec_ascii_lowercase(to);
    assert forall|m: int| q + 1 <= m < r2.len() implies is_tag_char(#[trigger] r2[m]) by {
        assert(r2[m] == w[m - q - 1]);
        if m - q - 1 >= to.len() {
            assert(w[m - q - 1] == suffix[m - q - 1 - to.len()]);
        }
    }
    lemma_run_to_end(r2, q + 1);
    let e = r2.len() as int;
    lemma_slash_trim_bounds(r2, q + 1, e);
    let f = slash_trim_end(r2, q + 1, e);
    assert(r2[q + to.len()] == to.last());
    let m = f - q - 1;
    assert(m >= to.len());
    assert(r2.subrange(q + 1, f) =~= w.take(m));
    let k = m - to.len();
    assert(w.take(m) =~= to + suffix.take(k));
    let low = spec_ascii_lowercase(to + suffix.take(k));
    assert(spec_ascii_lowercase(suffix.take(k)) =~= suffix.take(k)) by {
        assert forall|j: int| 0 <= j < k implies ascii_lower(#[trigger] suffix.take(k)[j]) == suffix.take(k)[j] by {
            assert(spec_ascii_lowercase(suffix)[j] == ascii_lower(suffix[j]));
        }
    }
    assert(low =~= x + suffix.take(k));
    if k == 0 {
        assert(low =~= x);
    } else {
        assert(low.take(x.len() as int) =~= x);
        assert(low[x.len() as int] == suffix[0]);
    }
    assert(r2[q] == '#');
    assert(r2[q + 1] == to[0]);
    if q > 0 {
        assert(r2[q - 1] == t1.last());
    }
}

/// Completing a tag either writes a new tag in place of a renamed one, or
/// keeps an earlier new tag as it was.
proof fn lemma_finish_gain(res: Seq<char>, buf: Seq<char>, from: Seq<char>, to: Seq<char>, found: bool, p: int) -> (q:
    int)
    requires
        tag_name(to),
        forall|j: int| 0 <= j < buf.len() ==> is_tag_char(#[trigger] buf[j]),
        found ==> new_tag_at(res, p, spec_ascii_lowercase(to)),
    ensures
        (found || finish_tag(res, buf, from, to).2) ==> new_tag_at(finish_tag(res, buf, from, to).0, q, spec_ascii_lowercase(to)),
        (found && !finish_tag(res, buf, from, to).2) ==> tag_run_end(finish_tag(res, buf, from, to).0, q + 1) < finish_tag(res, buf, from, to).0.len(),
{
    match tag_suffix(spec_ascii_lowercase(buf), from) {
        Some(suffix) => {
            let r1 = trim_end_char(res, ' ');
            let t1 = if r1.len() > 0 {
                r1.push(' ')
            } else {
                r1
            };
            lemma_suffix_shape(spec_ascii_lowercase(buf), from, buf);
            lemma_emitted_tag(t1, to, suffix);
            assert(emit_replacement(res, to, suffix) =~= t1 + seq!['#'] + (to + suffix));
            t1.len() as int
        },
        None => {
            if found {
                lemma_new_tag_append(res, seq!['#'] + buf, p, spec_ascii_lowercase(to));
                assert(res + (seq!['#'] + buf) =~= res + seq!['#'] + buf);
            }
            p
        },
    }
}

/// A pass that renames a tag to a tag name writes, whenever it finds the
/// tag, a new tag that is the name or under it.
proof fn lemma_gain(
    s: Seq<char>,
    i: int,
    res: Seq<char>,
    prev_ws: bool,
    found: bool,
    in_tag: bool,
    buf: Seq<char>,
    from: Seq<char>,
    to: Seq<char>,
    p: int,
) -> (q: int)
    requires
        0 <= i,
        tag_name(to),
        found ==> new_tag_at(res, p, spec_ascii_lowercase(to)) && (in_tag || tag_run_end(res, p + 1) < res.len()),
        in_tag ==> forall|j: int| 0 <= j < buf.len() ==> is_tag_char(#[trigger] buf[j]),
    ensures
        replace_from(s, i, res, prev_ws, found, in_tag, buf, from, to).1 ==> new_tag_at(
            replace_from(s, i, res, prev_ws, found, in_tag, buf, from, to).0,
            q,
            spec_ascii_lowercase(to),
        ),
    decreases s.len() - i,
{
    let x = spec_ascii_lowercase(to);
    if i >= s.len() {
        if in_tag {
            lemma_finish_gain(res, buf, from, to, found, p)
        } else {
            p
        }
    } else if in_tag && is_tag_char(s[i]) {
        let b2 = buf.push(s[i]);
        assert forall|j: int| 0 <= j < b2.len() implies is_tag_char(#[trigger] b2[j]) by {
            if j < buf.len() {
                assert(b2[j] == buf[j]);
            }
        }
        lemma_gain(s, i + 1, res, prev_ws, found, true, b2, from, to, p)
    } else {
        let empty = Seq::<char>::empty();
        let f = if in_tag {
            finish_tag(res, buf, from, to)
        } else {
            (res, prev_ws, false)
        };
        let p1 = if in_tag {
            lemma_finish_gain(res, buf, from, to, found, p)
        } else {
            p
        };
        let found1 = found || f.2;
        let c = s[i];
        if c == '#' && f.1 && i + 1 < s.len() && is_ascii_alpha(s[i + 1]) {
            lemma_gain(s, i + 1, f.0, f.1, found1, true, empty, from, to, p1)
        } else {
            if found1 {
                lemma_new_tag_append(f.0, seq![c], p1, x);
                assert(f.0 + seq![c] =~= f.0.push(c));
            }
            lemma_gain(s, i + 1, f.0.push(c), is_unicode_ws(c), found1, false, empty, from, to, p1)
        }
    }
}

/// Trimming keeps a new tag, moved by the whitespace dropped before it.
proof fn lemma_new_tag_trim_start(r: Seq<char>, p: int, x: Seq<char>) -> (q: int)
    requires
        new_tag_at(r, p, x),
    ensures
        new_tag_at(crate::text::trim_start(r), q, x),
    decreases r.len(),
{
    if r.len() > 0 && is_unicode_ws(r[0]) {
        let d = r.drop_first();
        assert(p >= 1);
        lemma_tag_at_drop_first(r, p);
        assert(d[p - 1] == r[p] && d[p] == r[p + 1]);
        if p > 1 {
            assert(d[p - 2] == r[p - 1]);
        }
        lemma_new_tag_trim_start(d, p - 1, x)
    } else {
        p
    }
}

/// Dropping trailing whitespace keeps a new tag where it was.
proof fn lemma_new_tag_trim_end(r: Seq<char>, p: int, x: Seq<char>)
    requires
        new_tag_at(r, p, x),
    ensures
        new_tag_at(crate::text::trim_end(r), p, x),
    decreases r.len(),
{
    if r.len() > 0 && is_unicode_ws(r.last()) {
        let k = r.len() - 1;
        lemma_run_end_bounds(r, p + 1);
        if tag_run_end(r, p + 1) > k {
            assert(is_tag_char(r[k]));
        }
        lemma_tag_at_take(r, k, p);
        let t = r.take(k);
        assert(t[p] == r[p] && t[p + 1] == r[p + 1]);
        if p > 0 {
            assert(t[p - 1] == r[p - 1]);
        }
        assert(t =~= r.drop_last());
        lemma_new_tag_trim_end(r.drop_last(), p, x);
    }
}

/// The tags before `n` include every tag that starts before `n`.
proof fn lemma_tags_before_has(r: Seq<char>, p: int, n: int)
    requires
        is_tag_start(r, p),
        p < n,
    ensures
        tags_before(r, n).contains(tag_at(r, p)),
    decreases n,
{
    if n - 1 == p {
        let l = tags_before(r, n - 1);
        assert(tags_before(r, n) == l.push(tag_at(r, p)));
        assert(tags_before(r, n)[l.len() as int] == tag_at(r, p));
    } else {
        lemma_tags_before_has(r, p, n - 1);
        let l = tags_before(r, n - 1);
        let k = choose|k: int| 0 <= k < l.len() && l[k] == tag_at(r, p);
        if is_tag_start(r, n - 1) {
            assert(tags_before(r, n) == l.push(tag_at(r, n - 1)));
            assert(tags_before(r, n)[k] == tag_at(r, p));
        }
    }
}

/// A note whose title or content holds a new tag has, among its tags, one
/// that is `x` or under it.
pub(crate) proof fn lemma_joined_new_tag(a: Seq<char>, b: Seq<char>, pa: int, pb: int, in_a: bool, x: Seq<char>)
    requires
        in_a ==> new_tag_at(a, pa, x),
        !in_a ==> new_tag_at(b, pb, x),
    ensures
        exists|t: Seq<char>| #[trigger] spec_extract_tags(a + " "@ + b).contains(t) && tag_suffix(t, x) is Some,
{
    reveal_strlit(" ");
    let r = a + " "@ + b;
    assert(r =~= a + (seq![' '] + b));
    let p = if in_a {
        pa
    } else {
        pb + a.len() + 1
    };
    if in_a {
        lemma_tag_at_append(a, seq![' '] + b, pa);
        assert(r[pa] == a[pa] && r[pa + 1] == a[pa + 1]);
        if pa > 0 {
            assert(r[pa - 1] == a[pa - 1]);
        }
    } else {
        let pre = a + seq![' '];
        assert(r =~= pre + b);
        lemma_tag_at_prefix(pre, b, pb);
        assert(r[p] == b[pb] && r[p + 1] == b[pb + 1]);
        assert(r[p - 1] == (if pb == 0 { ' ' } else { b[pb - 1] }));
    }
    assert(is_tag_start(r, p));
    let tg = tag_at(r, p);
    lemma_tags_before_has(r, p, r.len() as int);
    lemma_dedup(tags_before(r, r.len() as int));
    assert(spec_extract_tags(r).contains(tg));
}

/// Renaming a tag found in a text leaves in the result a tag that is the
/// new name or under it.
pub(crate) proof fn lemma_rename_leaves_new_tag(s: Seq<char>, from: Seq<char>, to: Seq<char>) -> (q: int)
    requires
        tag_name(to),
        spec_replace_tag(s, from, to).1,
    ensures
        new_tag_at(spec_replace_tag(s, from, to).0, q, spec_ascii_lowercase(to)),
{
    let empty = Seq::<char>::empty();
    let p = lemma_gain(s, 0, empty, true, false, false, empty, from, to, 0);
    let raw = replace_from(s, 0, empty, true, false, false, empty, from, to).0;
    let x = spec_ascii_lowercase(to);
    let p1 = lemma_new_tag_trim_start(raw, p, x);
    lemma_new_tag_trim_end(crate::text::trim_start(raw), p1, x);
    p1
}

/// Removing a tag from a note's title and content leaves the note (whose
/// tags are those of its title and content together) with neither that tag
/// nor any of its children.
pub proof fn lemma_note_loses_removed_tag(title: Seq<char>, content: Seq<char>, from: Seq<char>)
    ensures
        forall|t: Seq<char>|
            #[trigger] spec_extract_tags(
                spec_replace_tag(title, from, seq![]).0 + " "@ + spec_replace_tag(content, from, seq![]).0,
            ).contains(t) ==> tag_suffix(t, from) is None,
{
    let a = spec_replace_tag(title, from, seq![]).0;
    let b = spec_replace_tag(content, from, seq![]).0;
    lemma_removal_output_clean(title, from, seq![]);
    lemma_removal_output_clean(content, from, seq![]);
    lemma_clean_join(a, b, from);
    reveal_strlit(" ");
    assert(a + " "@ + b =~= a + seq![' '] + b);
    lemma_clean_extract(a + " "@ + b, from);
}

/// The tags of a clean text are neither `from` nor its children.
proof fn lemma_clean_tags(r: Seq<char>, from: Seq<char>, n: int)
    requires
        clean_of(r, from),
    ensures
        forall|t: Seq<char>| #[trigger] tags_before(r, n).contains(t) ==> tag_suffix(t, from) is None,
    decreases n,
{
    if n > 0 {
        lemma_clean_tags(r, from, n - 1);
        let p = n - 1;
        let l = tags_before(r, n - 1);
        if is_tag_start(r, p) {
            assert(hash_alpha(r, p));
            assert(!after_non_ws(r, p));
            let tp = tag_at(r, p);
            assert(tag_suffix(tp, from) is None);
            assert(tags_before(r, n) == l.push(tp));
            assert forall|t: Seq<char>| #[trigger] tags_before(r, n).contains(t) implies tag_suffix(t, from) is None by {
                let k = choose|k: int| 0 <= k < tags_before(r, n).len() && tags_before(r, n)[k] == t;
                if k < l.len() {
                    assert(l[k] == t);
                    assert(l.contains(t));
                } else {
                    assert(t == tp);
                }
            }
        } else {
            assert(tags_before(r, n) == l);
        }
    }
}

// ── Renaming and removing a tag ─────────────────────────────────────────────

/// How a tag (lower-cased) relates to the tag being renamed: equal to it
/// (empty suffix), a child of it (the suffix from the `/` on), or neither.
/// An empty `from` never matches.
pub open spec fn tag_suffix(low: Seq<char>, from: Seq<char>) -> Option<Seq<char>> {
    if low == from {
        Some(seq![])
    } else if from.len() == 0 {
        None
    } else if low.len() > from.len() && low.take(from.len() as int) == from && low[from.len() as int]
        == '/' {
        Some(low.skip(from.len() as int))
    } else {
        None
    }
}

/// The output after a matching tag: the spaces before it are dropped and,
/// unless `to` is empty, ` #to<suffix>` is written (without the space at
/// the very start).
pub open spec fn emit_replacement(res: Seq<char>, to: Seq<char>, suffix: Seq<char>) -> Seq<char> {
    let r1 = trim_end_char(res, ' ');
    if to.len() == 0 {
        r1
    } else {
        (if r1.len() > 0 {
            r1.push(' ')
        } else {
            r1
        }) + seq!['#'] + to + suffix
    }
}

/// Completing a tag whose characters (after the `#`) are `buf`: the new
/// output, whether the next character follows whitespace, and whether the
/// tag matched.
pub open spec fn finish_tag(res: Seq<char>, buf: Seq<char>, from: Seq<char>, to: Seq<char>) -> (
    Seq<char>,
    bool,
    bool,
) {
    match tag_suffix(spec_ascii_lowercase(buf), from) {
        Some(suffix) => (emit_replacement(res, to, suffix), true, true),
        None => (res + seq!['#'] + buf, false, false),
    }
}

/// One pass over `s` from position `i` that renames tag `from` (and its
/// children) to `to`, or removes them when `to` is empty. Returns the raw
/// output and whether any tag matched.
pub open spec fn replace_from(
    s: Seq<char>,
    i: int,
    res: Seq<char>,
    prev_ws: bool,
    found: bool,
    in_tag: bool,
    buf: Seq<char>,
    from: Seq<char>,
    to: Seq<char>,
) -> (Seq<char>, bool)
    decreases s.len() - i,
{
    if i < 0 || i >= s.len() {
        if in_tag {
            let f = finish_tag(res, buf, from, to);
            (f.0, found || f.2)
        } else {
            (res, found)
        }
    } else if in_tag && is_tag_char(s[i]) {
        replace_from(s, i + 1, res, prev_ws, found, true, buf.push(s[i]), from, to)
    } else {
        let f = if in_tag {
            finish_tag(res, buf, from, to)
        } else {
            (res, prev_ws, false)
        };
        let found1 = found || f.2;
        if s[i] == '#' && f.1 && i + 1 < s.len() && is_ascii_alpha(s[i + 1]) {
            replace_from(s, i + 1, f.0, f.1, found1, true, seq![], from, to)
        } else {
            replace_from(s, i + 1, f.0.push(s[i]), is_unicode_ws(s[i]), found1, false, seq![], from, to)
        }
    }
}

/// Renames or removes `#from` and `#from/child` in a text; the result is
/// trimmed, and the flag tells whether any such tag was there.
pub open spec fn spec_replace_tag(s: Seq<char>, from: Seq<char>, to: Seq<char>) -> (Seq<char>, bool) {
    let r = replace_from(s, 0, seq![], true, false, false, seq![], from, to);
    (spec_trim(r.0), r.1)
}

/// Does `a` equal `b`?
fn chars_eq(a: &Vec<char>, b: &Vec<char>) -> (r: bool)
    ensures
        r == (a@ == b@),
{
    if a.len() != b.len() {
        return false;
    }
    let mut i: usize = 0;
    while i < a.len()
        invariant
            i <= a.len(),
            a.len() == b.len(),
            forall|k: int| 0 <= k < i ==> a@[k] == b@[k],
        decreases a.len() - i,
    {
        if a[i] != b[i] {
            return false;
        }
        i = i + 1;
    }
    proof {
        assert(a@ =~= b@);
    }
    true
}

/// `tag_suffix` computed.
fn compute_tag_suffix(low: &Vec<char>, from: &Vec<char>) -> (r: Option<Vec<char>>)
    ensures
        match tag_suffix(low@, from@) {
            Some(x) => r.is_some() && r.unwrap()@ == x,
            None => r.is_none(),
        },
{
    if chars_eq(low, from) {
        return Some(Vec::new());
    }
    if from.len() == 0 {
        return None;
    }
    if low.len() > from.len() && low[from.len()] == '/' {
        let mut i: usize = 0;
        while i < from.len()
            invariant
                i <= from.len(),
                from.len() < low.len(),
                forall|k: int| 0 <= k < i ==> low@[k] == from@[k],
            decreases from.len() - i,
        {
            if low[i] != from[i] {
                proof {
                    assert(low@.take(from.len() as int)[i as int] != from@[i as int]);
                }
                return None;
            }
            i = i + 1;
        }
        proof {
            assert(low@.take(from.len() as int) =~= from@);
        }
        let mut suf: Vec<char> = Vec::new();
        let mut k: usize = from.len();
        while k < low.len()
            invariant
                from.len() <= k <= low.len(),
                suf@ == low@.subrange(from.len() as int, k as int),
            decreases low.len() - k,
        {
            suf.push(low[k]);
            proof {
                assert(low@.subrange(from.len() as int, k + 1) == low@.subrange(
                    from.len() as int,
                    k as int,
                ).push(low@[k as int]));
            }
            k = k + 1;
        }
        proof {
            assert(low@.skip(from.len() as int) =~= suf@);
        }
        return Some(suf);
    }
    proof {
        if low@.len() > from@.len() {
            assert(low@[from.len() as int] != '/');
        }
    }
    None
}

/// Appends the characters of `b` to `a`.
fn extend_chars(a: &mut Vec<char>, b: &Vec<char>)
    ensures
        final(a)@ == old(a)@ + b@,
{
    let mut i: usize = 0;
    while i < b.len()
        invariant
            i <= b.len(),
            a@ == old(a)@ + b@.take(i as int),
        decreases b.len() - i,
    {
        a.push(b[i]);
        proof {
            assert(b@.take(i as int + 1) == b@.take(i as int).push(b@[i as int]));
        }
        i = i + 1;
    }
    proof {
        assert(b@.take(b.len() as int) == b@);
    }
}

/// `finish_tag` computed, in place on `res`.
fn exec_finish_tag(res: &mut Vec<char>, buf: &Vec<char>, from: &Vec<char>, to: &Vec<char>) -> (r: (
    bool,
    bool,
))
    ensures
        final(res)@ == finish_tag(old(res)@, buf@, from@, to@).0,
        r.0 == finish_tag(old(res)@, buf@, from@, to@).1,
        r.1 == finish_tag(old(res)@, buf@, from@, to@).2,
{
    let low = crate::text::ascii_lowercase(buf);
    match compute_tag_suffix(&low, from) {
        Some(suffix) => {
            truncate_trailing(res, ' ');
            if to.len() > 0 {
                if res.len() > 0 {
                    res.push(' ');
                }
                res.push('#');
                extend_chars(res, to);
                extend_chars(res, &suffix);
            }
            (true, true)
        },
        None => {
            res.push('#');
            extend_chars(res, buf);
            (false, false)
        },
    }
}

/// Replaces or removes `#from_tag` (and `#from_tag/child`) tokens in `text`:
/// with a non-empty `to_tag` each becomes `#to_tag` (keeping the child
/// part), with an empty `to_tag` it is removed. Tags are compared
/// lower-cased; `from_tag` is expected lower-case. Returns the trimmed text
/// and whether any such tag was found.
pub fn replace_tag_in_text(text: &str, from_tag: &str, to_tag: &str) -> (r: (String, bool))
    ensures
        (r.0@, r.1) == spec_replace_tag(text@, from_tag@, to_tag@),
{
    let cs = chars_of(text);
    let from = chars_of(from_tag);
    let to = chars_of(to_tag);
    let n = cs.len();
    let mut res: Vec<char> = Vec::new();
    let mut prev_ws = true;
    let mut found = false;
    let mut in_tag = false;
    let mut buf: Vec<char> = Vec::new();
    let mut i: usize = 0;
    while i < n
        invariant
            i <= n,
            n == cs@.len(),
            cs@ == text@,
            from@ == from_tag@,
            to@ == to_tag@,
            replace_from(cs@, i as int, res@, prev_ws, found, in_tag, buf@, from@, to@)
                == replace_from(cs@, 0, seq![], true, false, false, seq![], from@, to@),
        decreases n - i,
    {
        let ch = cs[i];
        if in_tag && char_is_tag_char(ch) {
            buf.push(ch);
        } else {
            let mut pw = prev_ws;
            if in_tag {
                let (p, m) = exec_finish_tag(&mut res, &buf, &from, &to);
                pw = p;
                found = found || m;
            }
            if ch == '#' && pw && i + 1 < n && char_is_ascii_alpha(cs[i + 1]) {
                prev_ws = pw;
                in_tag = true;
                buf = Vec::new();
            } else {
                res.push(ch);
                prev_ws = char_is_unicode_ws(ch);
                in_tag = false;
                buf = Vec::new();
            }
        }
        i = i + 1;
    }
    if in_tag {
        let (_p, m) = exec_finish_tag(&mut res, &buf, &from, &to);
        found = found || m;
    }
    let t = trim_chars(&res);
    (string_from_chars(&t), found)
}

} // verus!
