//! Notes: `[[Title]]` references, relative time labels, list paging, and
//! the values that a note card shows.
use vstd::prelude::*;

use crate::tags::{spec_replace_tag, spec_strip_inline_tags, views};
use crate::text::{
    chars_of, int_decimal, lit, push_i64, spec_html_escape, spec_to_lowercase, spec_trim,
    string_from_chars, trim_chars, utf8_len,
};

verus! {

// ── `[[Title]]` references ──────────────────────────────────────────────────

/// The texts that a vector of character vectors holds.
pub open spec fn cviews(v: Seq<Vec<char>>) -> Seq<Seq<char>> {
    v.map_values(|e: Vec<char>| e@)
}

/// Scan of `s` from `i` for `[[Title]]` references. Outside a reference a
/// `[[` opens one whose text starts at `i + 2`; inside, the first `]]`
/// closes it. A closed reference counts when its trimmed text is not empty
/// and has no line feed; an unclosed one ends the scan.
pub open spec fn refs_scan(s: Seq<char>, i: int, inside: bool, start: int, acc: Seq<Seq<char>>) -> Seq<
    Seq<char>,
>
    decreases s.len() - i,
{
    if i < 0 || i + 1 >= s.len() {
        acc
    } else if !inside {
        if s[i] == '[' && s[i + 1] == '[' {
            refs_scan(s, i + 2, true, i + 2, acc)
        } else {
            refs_scan(s, i + 1, false, start, acc)
        }
    } else if s[i] == ']' && s[i + 1] == ']' {
        let t = spec_trim(s.subrange(start, i));
        let acc1 = if t.len() > 0 && !t.contains('\n') {
            acc.push(t)
        } else {
            acc
        };
        refs_scan(s, i + 2, false, start, acc1)
    } else {
        refs_scan(s, i + 1, true, start, acc)
    }
}

/// The references of a text, in order of appearance, repeats included.
pub open spec fn raw_note_refs(s: Seq<char>) -> Seq<Seq<char>> {
    refs_scan(s, 0, false, 0, seq![])
}

/// Lexicographic order on texts by character code (which is the byte order
/// of their UTF-8 encodings, the order of `String`).
pub open spec fn lex_lt(a: Seq<char>, b: Seq<char>) -> bool
    decreases a.len(),
{
    if a.len() == 0 {
        b.len() > 0
    } else if b.len() == 0 {
        false
    } else if a[0] < b[0] {
        true
    } else if a[0] > b[0] {
        false
    } else {
        lex_lt(a.drop_first(), b.drop_first())
    }
}

/// Strictly increasing in `lex_lt`.
pub open spec fn strictly_sorted(l: Seq<Seq<char>>) -> bool {
    forall|i: int, j: int| 0 <= i < j < l.len() ==> lex_lt(#[trigger] l[i], #[trigger] l[j])
}

/// No text comes before itself.
pub proof fn lemma_lex_irreflexive(a: Seq<char>)
    ensures
        !lex_lt(a, a),
    decreases a.len(),
{
    if a.len() > 0 {
        lemma_lex_irreflexive(a.drop_first());
    }
}

/// Of two different texts, one comes before the other.
pub proof fn lemma_lex_total(a: Seq<char>, b: Seq<char>)
    ensures
        a == b || lex_lt(a, b) || lex_lt(b, a),
    decreases a.len(),
{
    if a.len() > 0 && b.len() > 0 && a[0] == b[0] {
        lemma_lex_total(a.drop_first(), b.drop_first());
        if a.drop_first() == b.drop_first() {
            assert(a =~= seq![a[0]] + a.drop_first());
            assert(b =~= seq![b[0]] + b.drop_first());
        }
    } else if a.len() > 0 && b.len() > 0 {
    } else if a.len() == 0 && b.len() == 0 {
        assert(a =~= b);
    }
}

/// The order is transitive.
pub proof fn lemma_lex_transitive(a: Seq<char>, b: Seq<char>, c: Seq<char>)
    requires
        lex_lt(a, b),
        lex_lt(b, c),
    ensures
        lex_lt(a, c),
    decreases a.len(),
{
    if a.len() > 0 && b.len() > 0 && c.len() > 0 && a[0] == b[0] && b[0] == c[0] {
        lemma_lex_transitive(a.drop_first(), b.drop_first(), c.drop_first());
    }
}

/// The characters `cs[a..b]`.
fn slice_chars(cs: &Vec<char>, a: usize, b: usize) -> (r: Vec<char>)
    requires
        a <= b <= cs.len(),
    ensures
        r@ == cs@.subrange(a as int, b as int),
{
    let mut r: Vec<char> = Vec::new();
    let mut k = a;
    while k < b
        invariant
            a <= k <= b,
            b <= cs.len(),
            r@ == cs@.subrange(a as int, k as int),
        decreases b - k,
    {
        r.push(cs[k]);
        proof {
            assert(cs@.subrange(a as int, k + 1) == cs@.subrange(a as int, k as int).push(
                cs@[k as int],
            ));
        }
        k = k + 1;
    }
    r
}

/// `lex_lt` computed.
pub fn chars_lt(a: &Vec<char>, b: &Vec<char>) -> (r: bool)
    ensures
        r == lex_lt(a@, b@),
{
    let mut i: usize = 0;
    proof {
        assert(a@.skip(0) == a@);
        assert(b@.skip(0) == b@);
    }
    while i < a.len() && i < b.len() && a[i] == b[i]
        invariant
            i <= a.len(),
            i <= b.len(),
            lex_lt(a@, b@) == lex_lt(a@.skip(i as int), b@.skip(i as int)),
        decreases a.len() - i,
    {
        proof {
            assert(a@.skip(i as int).drop_first() == a@.skip(i + 1));
            assert(b@.skip(i as int).drop_first() == b@.skip(i + 1));
        }
        i = i + 1;
    }
    if i == a.len() {
        i < b.len()
    } else if i == b.len() {
        false
    } else {
        a[i] < b[i]
    }
}

fn chars_equal(a: &Vec<char>, b: &Vec<char>) -> (r: bool)
    ensures
        r == (a@ == b@),
{
    let lt1 = chars_lt(a, b);
    let lt2 = chars_lt(b, a);
    proof {
        lemma_lex_total(a@, b@);
        if a@ == b@ {
            lemma_lex_irreflexive(a@);
        }
    }
    !lt1 && !lt2
}

/// Inserts `x` into a strictly sorted list unless it is already there.
pub fn insert_sorted_unique(v: &mut Vec<Vec<char>>, x: Vec<char>)
    requires
        strictly_sorted(cviews(old(v)@)),
    ensures
        strictly_sorted(cviews(final(v)@)),
        forall|t: Seq<char>|
            #[trigger] cviews(final(v)@).contains(t) <==> (cviews(old(v)@).contains(t) || t == x@),
{
    let ghost old_l = cviews(v@);
    let mut p: usize = 0;
    while p < v.len() && chars_lt(&v[p], &x)
        invariant
            p <= v.len(),
            cviews(v@) == old_l,
            forall|k: int| 0 <= k < p ==> lex_lt(#[trigger] old_l[k], x@),
        decreases v.len() - p,
    {
        p = p + 1;
    }
    if p < v.len() && chars_equal(&v[p], &x) {
        proof {
            assert(old_l[p as int] == x@);
            assert forall|t: Seq<char>| old_l.contains(t) || t == x@ implies old_l.contains(t) by {
                if t == x@ {
                    assert(old_l[p as int] == t);
                }
            }
        }
        return;
    }
    proof {
        if p < v.len() {
            lemma_lex_total(old_l[p as int], x@);
            assert(lex_lt(x@, old_l[p as int]));
            assert forall|j: int| p <= j < old_l.len() implies lex_lt(x@, #[trigger] old_l[j]) by {
                if j > p {
                    lemma_lex_transitive(x@, old_l[p as int], old_l[j]);
                }
            }
        }
    }
    let ghost xv = x@;
    v.insert(p, x);
    proof {
        let nl = cviews(v@);
        assert(nl =~= old_l.insert(p as int, xv));
        assert forall|i: int, j: int| 0 <= i < j < nl.len() implies lex_lt(nl[i], nl[j]) by {
            if j < p {
                assert(nl[i] == old_l[i] && nl[j] == old_l[j]);
            } else if j == p {
                assert(nl[i] == old_l[i]);
            } else if i < p {
                assert(nl[i] == old_l[i] && nl[j] == old_l[j - 1]);
                lemma_lex_transitive(old_l[i], xv, old_l[j - 1]);
            } else if i == p {
                assert(nl[j] == old_l[j - 1]);
            } else {
                assert(nl[i] == old_l[i - 1] && nl[j] == old_l[j - 1]);
            }
        }
        assert forall|t: Seq<char>| nl.contains(t) <==> (old_l.contains(t) || t == xv) by {
            if nl.contains(t) {
                let k = choose|k: int| 0 <= k < nl.len() && nl[k] == t;
                if k < p {
                    assert(old_l[k] == t);
                } else if k > p {
                    assert(old_l[k - 1] == t);
                }
            }
            if old_l.contains(t) {
                let k = choose|k: int| 0 <= k < old_l.len() && old_l[k] == t;
                if k < p {
                    assert(nl[k] == t);
                } else {
                    assert(nl[k + 1] == t);
                }
            }
            if t == xv {
                assert(nl[p as int] == t);
            }
        }
    }
}

/// Does the text hold a line feed?
fn has_newline(cs: &Vec<char>) -> (b: bool)
    ensures
        b == cs@.contains('\n'),
{
    let mut i: usize = 0;
    while i < cs.len()
        invariant
            i <= cs.len(),
            forall|k: int| 0 <= k < i ==> cs@[k] != '\n',
        decreases cs.len() - i,
    {
        if cs[i] == '\n' {
            return true;
        }
        i = i + 1;
    }
    false
}

/// Extracts `[[Note Title]]` references from content: the trimmed text of
/// each reference that is not empty and has no line feed, each distinct one
/// once, in `String` order.
pub fn extract_note_refs(content: &str) -> (refs: Vec<String>)
    ensures
        strictly_sorted(crate::tags::views(refs@)),
        forall|t: Seq<char>|
            #[trigger] crate::tags::views(refs@).contains(t) <==> raw_note_refs(content@).contains(t),
{
    let cs = chars_of(content);
    let n = cs.len();
    let mut sorted: Vec<Vec<char>> = Vec::new();
    let mut inside = false;
    let mut start: usize = 0;
    let mut i: usize = 0;
    let ghost mut acc: Seq<Seq<char>> = seq![];
    while n > 0 && i < n - 1
        invariant
            n == cs@.len(),
            cs@ == content@,
            start <= n,
            inside ==> start <= i,
            refs_scan(cs@, i as int, inside, start as int, acc) == raw_note_refs(cs@),
            strictly_sorted(cviews(sorted@)),
            forall|t: Seq<char>| #[trigger] cviews(sorted@).contains(t) <==> acc.contains(t),
        decreases n - i,
    {
        if !inside {
            if cs[i] == '[' && cs[i + 1] == '[' {
                inside = true;
                start = i + 2;
                i = i + 2;
            } else {
                i = i + 1;
            }
        } else if cs[i] == ']' && cs[i + 1] == ']' {
            let raw = slice_chars(&cs, start, i);
            let t = trim_chars(&raw);
            if t.len() > 0 && !has_newline(&t) {
                let ghost tv = t@;
                let ghost old_acc = acc;
                proof {
                    acc = acc.push(t@);
                }
                insert_sorted_unique(&mut sorted, t);
                proof {
                    assert forall|x: Seq<char>| acc.contains(x) <==> (old_acc.contains(x) || x == tv) by {
                        if acc.contains(x) {
                            let k = choose|k: int| 0 <= k < acc.len() && acc[k] == x;
                            if k < old_acc.len() {
                                assert(old_acc[k] == x);
                            }
                        }
                        if old_acc.contains(x) {
                            let k = choose|k: int| 0 <= k < old_acc.len() && old_acc[k] == x;
                            assert(acc[k] == x);
                        }
                        if x == tv {
                            assert(acc[old_acc.len() as int] == x);
                        }
                    }
                }
            }
            inside = false;
            i = i + 2;
        } else {
            i = i + 1;
        }
    }
    let mut refs: Vec<String> = Vec::new();
    let mut k: usize = 0;
    while k < sorted.len()
        invariant
            k <= sorted.len(),
            crate::tags::views(refs@) == cviews(sorted@).take(k as int),
        decreases sorted.len() - k,
    {
        let ghost before = refs@;
        refs.push(string_from_chars(&sorted[k]));
        proof {
            assert(crate::tags::views(refs@) =~= crate::tags::views(before).push(
                sorted@[k as int]@,
            ));
            assert(cviews(sorted@).take(k + 1) =~= cviews(sorted@).take(k as int).push(sorted@[k as int]@));
        }
        k = k + 1;
    }
    proof {
        assert(cviews(sorted@).take(sorted.len() as int) =~= cviews(sorted@));
    }
    refs
}


// ── Relative time labels ────────────────────────────────────────────────────

/// Label of a timestamp relative to `now`, both in Unix seconds: "just now"
/// under a minute (and for future times), then whole minutes, hours, days.
pub open spec fn spec_format_timestamp(now: int, ts: int) -> Seq<char> {
    let diff = now - ts;
    if diff < 60 {
        "just now"@
    } else if diff < 3600 {
        int_decimal(diff / 60) + "m ago"@
    } else if diff < 86400 {
        int_decimal(diff / 3600) + "h ago"@
    } else {
        int_decimal(diff / 86400) + "d ago"@
    }
}

/// Relative label ("just now", "5m ago", "3h ago", "2d ago") for `ts` seen
/// at time `now`.
pub fn format_timestamp(now: i64, ts: i64) -> (r: String)
    requires
        i64::MIN <= now - ts <= i64::MAX,
    ensures
        r@ == spec_format_timestamp(now as int, ts as int),
{
    let diff = now - ts;
    if diff < 60 {
        lit("just now")
    } else if diff < 3600 {
        let mut s = String::new();
        push_i64(&mut s, diff / 60);
        s.append("m ago");
        s
    } else if diff < 86400 {
        let mut s = String::new();
        push_i64(&mut s, diff / 3600);
        s.append("h ago");
        s
    } else {
        let mut s = String::new();
        push_i64(&mut s, diff / 86400);
        s.append("d ago");
        s
    }
}

/// Date group of a note by the age of its last update.
#[derive(PartialEq, Eq, Structural, Clone, Copy, Debug)]
pub enum DateBucket {
    Today,
    Yesterday,
    ThisWeek,
    ThisMonth,
    Older,
}

pub open spec fn spec_date_bucket(now: int, ts: int) -> DateBucket {
    let diff = now - ts;
    if diff < 86400 {
        DateBucket::Today
    } else if diff < 2 * 86400 {
        DateBucket::Yesterday
    } else if diff < 7 * 86400 {
        DateBucket::ThisWeek
    } else if diff < 30 * 86400 {
        DateBucket::ThisMonth
    } else {
        DateBucket::Older
    }
}

/// The group of a note updated at `ts`, seen at time `now`: under a day,
/// under two days, under a week, under thirty days, or older.
pub fn date_bucket(now: i64, ts: i64) -> (r: DateBucket)
    requires
        i64::MIN <= now - ts <= i64::MAX,
    ensures
        r == spec_date_bucket(now as int, ts as int),
{
    let diff = now - ts;
    if diff < 86_400 {
        DateBucket::Today
    } else if diff < 2 * 86_400 {
        DateBucket::Yesterday
    } else if diff < 7 * 86_400 {
        DateBucket::ThisWeek
    } else if diff < 30 * 86_400 {
        DateBucket::ThisMonth
    } else {
        DateBucket::Older
    }
}

/// The position of a group from the newest (today) to the oldest.
pub open spec fn bucket_rank(b: DateBucket) -> int {
    match b {
        DateBucket::Today => 0,
        DateBucket::Yesterday => 1,
        DateBucket::ThisWeek => 2,
        DateBucket::ThisMonth => 3,
        DateBucket::Older => 4,
    }
}

/// A day in seconds.
pub open spec fn day_secs() -> int {
    86400
}

/// The date groups by age: under one day old is today, one to two days old
/// yesterday, two to seven days this week, seven to thirty days this month,
/// and thirty days or more older. A note updated earlier never lands in a
/// newer group than one updated later.
pub proof fn lemma_date_groups_by_age(now: int, ts: int, ts2: int)
    ensures
        spec_date_bucket(now, ts) == DateBucket::Today <==> now - ts < day_secs(),
        spec_date_bucket(now, ts) == DateBucket::Yesterday <==> day_secs() <= now - ts < 2 * day_secs(),
        spec_date_bucket(now, ts) == DateBucket::ThisWeek <==> 2 * day_secs() <= now - ts < 7 * day_secs(),
        spec_date_bucket(now, ts) == DateBucket::ThisMonth <==> 7 * day_secs() <= now - ts < 30 * day_secs(),
        spec_date_bucket(now, ts) == DateBucket::Older <==> 30 * day_secs() <= now - ts,
        ts2 <= ts ==> bucket_rank(spec_date_bucket(now, ts)) <= bucket_rank(spec_date_bucket(now, ts2)),
{
}

pub open spec fn spec_bucket_label(b: DateBucket) -> Seq<char> {
    match b {
        DateBucket::Today => "Today"@,
        DateBucket::Yesterday => "Yesterday"@,
        DateBucket::ThisWeek => "This Week"@,
        DateBucket::ThisMonth => "This Month"@,
        DateBucket::Older => "Older"@,
    }
}

impl DateBucket {
    /// The header text of the group.
    pub fn label(&self) -> (r: &'static str)
        ensures
            r@ == spec_bucket_label(*self),
    {
        match self {
            DateBucket::Today => "Today",
            DateBucket::Yesterday => "Yesterday",
            DateBucket::ThisWeek => "This Week",
            DateBucket::ThisMonth => "This Month",
            DateBucket::Older => "Older",
        }
    }
}

// ── Note list queries and paging ────────────────────────────────────────────

/// Notes per page when browsing.
pub const PAGE: i64 = 24;

/// The tag that a search for `#name` stands for: the rest of the query,
/// trimmed and lower-cased, when it is not empty.
pub open spec fn spec_tag_from_query(q: Seq<char>) -> Option<Seq<char>> {
    if q.len() > 0 && q[0] == '#' {
        let t = spec_to_lowercase(spec_trim(q.drop_first()));
        if t.len() > 0 {
            Some(t)
        } else {
            None
        }
    } else {
        None
    }
}

/// A search that starts with `#` filters by tag instead of full-text search.
pub fn tag_from_query(q: &str) -> (r: Option<String>)
    ensures
        match spec_tag_from_query(q@) {
            Some(t) => r.is_some() && r.unwrap()@ == t,
            None => r.is_none(),
        },
{
    let cs = chars_of(q);
    if cs.len() > 0 && cs[0] == '#' {
        let mut rest: Vec<char> = Vec::new();
        let mut k: usize = 1;
        while k < cs.len()
            invariant
                1 <= k <= cs.len(),
                rest@ == cs@.subrange(1, k as int),
            decreases cs.len() - k,
        {
            rest.push(cs[k]);
            proof {
                assert(cs@.subrange(1, k + 1) == cs@.subrange(1, k as int).push(cs@[k as int]));
            }
            k = k + 1;
        }
        proof {
            assert(rest@ == cs@.drop_first());
        }
        let t = string_from_chars(&trim_chars(&rest));
        let low = crate::text::to_lowercase(t.as_str());
        if low.as_str().unicode_len() > 0 {
            Some(low)
        } else {
            None
        }
    } else {
        None
    }
}

/// Which rows a note list request reads.
pub enum NoteListQuery {
    /// Notes carrying `tag` exactly, or any tag whose last segment is `tag`
    /// (`like_pattern` is `%/` followed by the tag).
    ByTag { tag: String, like_pattern: String },
    /// Full-text search.
    FullText { query: String },
    /// A page of all notes, pinned first; one row more than the page is
    /// read to learn whether another page follows.
    Browse { fetch_limit: i64, offset: i64 },
}

/// The tag a list request filters by: an explicit `tag` wins over a
/// `#name` search.
pub open spec fn spec_effective_tag(q: Seq<char>, tag: Seq<char>) -> Option<Seq<char>> {
    if tag.len() > 0 {
        Some(tag)
    } else {
        spec_tag_from_query(q)
    }
}

/// Decides which rows a note list request reads.
pub fn plan_note_list(q: &str, tag: &str, limit: i64, offset: i64) -> (r: NoteListQuery)
    requires
        limit < i64::MAX,
    ensures
        match spec_effective_tag(q@, tag@) {
            Some(t) => r matches NoteListQuery::ByTag { tag: rt, like_pattern } && rt@ == t
                && like_pattern@ == seq!['%', '/'] + t,
            None => if q@.len() > 0 {
                r matches NoteListQuery::FullText { query } && query@ == q@
            } else {
                r matches NoteListQuery::Browse { fetch_limit, offset: o } && fetch_limit == limit + 1
                    && o == offset
            },
        },
{
    let eff: Option<String> = if tag.unicode_len() > 0 {
        Some(tag.to_owned())
    } else {
        tag_from_query(q)
    };
    match eff {
        Some(t) => {
            let mut pat = String::new();
            pat.push('%');
            pat.push('/');
            pat.append(t.as_str());
            NoteListQuery::ByTag { tag: t, like_pattern: pat }
        },
        None => {
            if q.unicode_len() > 0 {
                NoteListQuery::FullText { query: q.to_owned() }
            } else {
                NoteListQuery::Browse { fetch_limit: limit + 1, offset }
            }
        },
    }
}

/// What a fetched page becomes.
pub struct PageInfo {
    /// How many of the fetched rows are shown.
    pub keep: usize,
    /// Whether a "load more" sentinel follows.
    pub has_more: bool,
    /// The offset the sentinel asks for.
    pub next_offset: i64,
    /// Whether date group headers are shown.
    pub show_buckets: bool,
}

/// Paging after the rows are fetched: at most `limit` rows are kept (a
/// negative limit keeps all), more pages exist only when browsing and more
/// than `limit` rows came back, and date headers are shown on the first page
/// and in filtered views.
pub fn note_page_info(rows: usize, limit: i64, offset: i64, browsing: bool) -> (r: PageInfo)
    requires
        i64::MIN <= offset + limit <= i64::MAX,
    ensures
        r.keep == (if limit < 0 || rows <= limit { rows as int } else { limit as int }),
        r.has_more == (browsing && limit >= 0 && rows > limit),
        r.next_offset == offset + limit,
        r.show_buckets == (offset == 0 || !browsing),
{
    let keep: usize = if limit < 0 || (rows as u64) <= (limit as u64) {
        rows
    } else {
        limit as usize
    };
    PageInfo {
        keep,
        has_more: browsing && limit >= 0 && (rows as u64) > (limit as u64),
        next_offset: offset + limit,
        show_buckets: offset == 0 || !browsing,
    }
}

/// One element of a rendered note list.
#[derive(PartialEq, Eq, Structural, Clone, Copy, Debug)]
pub enum NoteListItem {
    /// A date group header.
    Separator { bucket: DateBucket },
    /// The card of the note at this index of the rows.
    Card { index: usize },
    /// The "load more" sentinel asking for this offset.
    Sentinel { next_offset: i64 },
}

/// Cards from index `i` on, each preceded by a header when date groups are
/// shown and its group differs from the group of the last header.
pub open spec fn layout_from(
    now: int,
    updated: Seq<i64>,
    i: int,
    current: Option<DateBucket>,
    show: bool,
) -> Seq<NoteListItem>
    decreases updated.len() - i,
{
    if i < 0 || i >= updated.len() {
        seq![]
    } else {
        let b = spec_date_bucket(now, updated[i] as int);
        if show && current != Some(b) {
            seq![NoteListItem::Separator { bucket: b }, NoteListItem::Card { index: i as usize }]
                + layout_from(now, updated, i + 1, Some(b), show)
        } else {
            seq![NoteListItem::Card { index: i as usize }] + layout_from(now, updated, i + 1, current, show)
        }
    }
}

/// Layout of a note list whose notes were updated at `updated`: the cards
/// in order with their headers, then the sentinel when more pages exist. An
/// empty list lays out nothing (the caller shows its empty state).
pub open spec fn spec_note_list_layout(
    now: int,
    updated: Seq<i64>,
    show_buckets: bool,
    has_more: bool,
    next_offset: i64,
) -> Seq<NoteListItem> {
    if updated.len() == 0 {
        seq![]
    } else {
        layout_from(now, updated, 0, None, show_buckets) + if has_more {
            seq![NoteListItem::Sentinel { next_offset }]
        } else {
            seq![]
        }
    }
}

/// Lays out a note list (see `spec_note_list_layout`).
pub fn note_list_layout(now: i64, updated: &Vec<i64>, show_buckets: bool, has_more: bool, next_offset: i64) -> (r:
    Vec<NoteListItem>)
    requires
        forall|k: int| 0 <= k < updated.len() ==> i64::MIN <= now - #[trigger] updated@[k] <= i64::MAX,
    ensures
        r@ == spec_note_list_layout(now as int, updated@, show_buckets, has_more, next_offset),
{
    let mut out: Vec<NoteListItem> = Vec::new();
    if updated.len() == 0 {
        return out;
    }
    let mut current: Option<DateBucket> = None;
    let mut i: usize = 0;
    while i < updated.len()
        invariant
            i <= updated.len(),
            forall|k: int| 0 <= k < updated.len() ==> i64::MIN <= now - #[trigger] updated@[k] <= i64::MAX,
            out@ + layout_from(now as int, updated@, i as int, current, show_buckets) == layout_from(
                now as int,
                updated@,
                0,
                None,
                show_buckets,
            ),
        decreases updated.len() - i,
    {
        let ts = updated[i];
        let b = date_bucket(now, ts);
        let ghost before = out@;
        let ghost cur0 = current;
        let is_new = match current {
            Some(c) => c != b,
            None => true,
        };
        if show_buckets && is_new {
            out.push(NoteListItem::Separator { bucket: b });
            current = Some(b);
        }
        out.push(NoteListItem::Card { index: i });
        proof {
            let rest = layout_from(now as int, updated@, i + 1, current, show_buckets);
            let pieces = if show_buckets && is_new {
                seq![NoteListItem::Separator { bucket: b }, NoteListItem::Card { index: i }]
            } else {
                seq![NoteListItem::Card { index: i }]
            };
            assert(layout_from(now as int, updated@, i as int, cur0, show_buckets) == pieces + rest);
            assert(out@ =~= before + pieces);
            assert(before + (pieces + rest) =~= (before + pieces) + rest);
        }
        i = i + 1;
    }
    proof {
        assert(out@ =~= out@ + layout_from(now as int, updated@, updated.len() as int, current, show_buckets));
    }
    if has_more {
        out.push(NoteListItem::Sentinel { next_offset });
    }
    proof {
        if !has_more {
            assert(out@ =~= out@ + Seq::<NoteListItem>::empty());
        }
    }
    out
}


// ── Note cards ──────────────────────────────────────────────────────────────

/// Bytes of content kept in a card's data attribute.
pub const CONTENT_ATTR_MAX: usize = 2048;
/// Bytes of content shown in a card's preview.
pub const CONTENT_PREVIEW_MAX: usize = 300;

/// The longest character prefix of `s` that fits in `max` UTF-8 bytes.
pub open spec fn is_byte_truncation(r: Seq<char>, s: Seq<char>, max: int) -> bool {
    &&& r == s.take(r.len() as int)
    &&& utf8_len(r) <= max
    &&& r.len() < s.len() ==> utf8_len(s.take(r.len() + 1 as int)) > max
}

/// The values a note card shows, already escaped for HTML.
pub struct NoteCard {
    pub id: String,
    /// The title without its tags, or "Untitled" when nothing is left.
    pub title: String,
    pub pinned: bool,
    /// The content for the data attribute, cut to `CONTENT_ATTR_MAX` bytes.
    pub attr_content: String,
    /// Whether the content was longer than the attribute holds.
    pub truncated: bool,
    /// The content for the preview, cut to `CONTENT_PREVIEW_MAX` bytes.
    pub preview: String,
    /// Relative time of the last update.
    pub time_label: String,
}

/// The title a card displays: the title without inline tags, or "Untitled".
pub open spec fn spec_display_title(title: Seq<char>) -> Seq<char> {
    let clean = spec_strip_inline_tags(title);
    if clean.len() == 0 {
        "Untitled"@
    } else {
        clean
    }
}

/// Title shown for a note (see `spec_display_title`).
pub fn display_title(title: &str) -> (r: String)
    ensures
        r@ == spec_display_title(title@),
{
    let clean = crate::tags::strip_inline_tags(title);
    if clean.as_str().unicode_len() == 0 {
        lit("Untitled")
    } else {
        clean
    }
}

/// Computes what the card of a note shows.
pub fn note_card(now: i64, id: &str, title: &str, content: &str, pinned: i64, updated_at: i64) -> (r:
    NoteCard)
    requires
        i64::MIN <= now - updated_at <= i64::MAX,
    ensures
        r.id@ == id@,
        r.title@ == spec_html_escape(spec_display_title(title@)),
        r.pinned == (pinned == 1),
        r.truncated == (utf8_len(content@) > CONTENT_ATTR_MAX),
        exists|a: Seq<char>|
            is_byte_truncation(a, content@, CONTENT_ATTR_MAX as int) && r.attr_content@
                == spec_html_escape(a),
        exists|p: Seq<char>|
            is_byte_truncation(p, content@, CONTENT_PREVIEW_MAX as int) && r.preview@
                == spec_html_escape(p),
        r.time_label@ == spec_format_timestamp(now as int, updated_at as int),
{
    let t = display_title(title);
    let attr = crate::text::truncate_bytes(content, CONTENT_ATTR_MAX);
    let prev = crate::text::truncate_bytes(content, CONTENT_PREVIEW_MAX);
    let truncated = crate::text::content_longer_than(content, CONTENT_ATTR_MAX);
    NoteCard {
        id: id.to_owned(),
        title: crate::text::html_escape(t.as_str()),
        pinned: pinned == 1,
        attr_content: crate::text::html_escape(attr.as_str()),
        truncated,
        preview: crate::text::html_escape(prev.as_str()),
        time_label: format_timestamp(now, updated_at),
    }
}

// ── Renaming, removing and copying ──────────────────────────────────────────

/// A note's title and content after renaming tag `from` to `to` (both
/// lower-cased first). When the tag occurs nowhere and `to` is not empty,
/// `#to` is appended to the title.
pub open spec fn spec_retag(title: Seq<char>, content: Seq<char>, from_raw: Seq<char>, to_raw: Seq<char>) -> (
    Seq<char>,
    Seq<char>,
) {
    let from = spec_to_lowercase(from_raw);
    let to = spec_to_lowercase(to_raw);
    let (nt, ft) = spec_replace_tag(title, from, to);
    let (nc, fc) = spec_replace_tag(content, from, to);
    let nt2 = if !ft && !fc && to.len() > 0 {
        if nt.len() == 0 {
            seq!['#'] + to
        } else {
            nt + seq![' ', '#'] + to
        }
    } else {
        nt
    };
    (nt2, nc)
}

/// Renames a tag in one note (see `spec_retag`).
pub fn retag_note(title: &str, content: &str, from_tag: &str, to_tag: &str) -> (r: (String, String))
    ensures
        (r.0@, r.1@) == spec_retag(title@, content@, from_tag@, to_tag@),
{
    let from = crate::text::to_lowercase(from_tag);
    let to = crate::text::to_lowercase(to_tag);
    let (nt, ft) = crate::tags::replace_tag_in_text(title, from.as_str(), to.as_str());
    let (nc, fc) = crate::tags::replace_tag_in_text(content, from.as_str(), to.as_str());
    let mut title_out = nt;
    if !ft && !fc && to.as_str().unicode_len() > 0 {
        if title_out.as_str().unicode_len() == 0 {
            let mut t = String::new();
            t.push('#');
            t.append(to.as_str());
            title_out = t;
        } else {
            title_out.push(' ');
            title_out.push('#');
            title_out.append(to.as_str());
            proof {
                assert(title_out@ =~= nt@ + seq![' ', '#'] + to@);
            }
        }
    }
    (title_out, nc)
}

/// Retagging renames the tag in the title and in the content alike; only
/// when the old tag occurs in neither, and the new name is not empty, is
/// `#` and the new name added to the title (after a space, unless the title
/// is empty). The content never gets anything added.
pub proof fn lemma_retag_appends_only_when_absent(
    title: Seq<char>,
    content: Seq<char>,
    from_raw: Seq<char>,
    to_raw: Seq<char>,
)
    ensures
        ({
            let from = spec_to_lowercase(from_raw);
            let to = spec_to_lowercase(to_raw);
            let (nt, ft) = spec_replace_tag(title, from, to);
            let (nc, fc) = spec_replace_tag(content, from, to);
            let r = spec_retag(title, content, from_raw, to_raw);
            &&& r.1 == nc
            &&& (ft || fc || to.len() == 0) ==> r.0 == nt
            &&& (!ft && !fc && to.len() > 0 && nt.len() == 0) ==> r.0 == seq!['#'] + to
            &&& (!ft && !fc && to.len() > 0 && nt.len() > 0) ==> r.0 == nt + seq![' ', '#'] + to
        }),
{
}

/// Retagging a note to a tag name that is neither the old tag, under it,
/// nor above it (once both are lower-cased) leaves the note with neither the
/// old tag nor any of its children.
pub proof fn lemma_retag_clears_old_tag(title: Seq<char>, content: Seq<char>, from_raw: Seq<char>, to_raw: Seq<char>)
    ensures
        crate::tags::renamable(spec_to_lowercase(to_raw), spec_to_lowercase(from_raw)) ==> forall|t: Seq<char>|
            #[trigger] crate::tags::spec_extract_tags(
                spec_retag(title, content, from_raw, to_raw).0 + " "@ + spec_retag(title, content, from_raw, to_raw).1,
            ).contains(t) ==> crate::tags::tag_suffix(t, spec_to_lowercase(from_raw)) is None,
{
    let from = spec_to_lowercase(from_raw);
    let to = spec_to_lowercase(to_raw);
    if crate::tags::renamable(to, from) {
        let (nt, ft) = spec_replace_tag(title, from, to);
        let (nc, fc) = spec_replace_tag(content, from, to);
        crate::tags::lemma_removal_output_clean(title, from, to);
        crate::tags::lemma_removal_output_clean(content, from, to);
        let t2 = spec_retag(title, content, from_raw, to_raw).0;
        if !ft && !fc && to.len() > 0 {
            if nt.len() == 0 {
                crate::tags::lemma_clean_kept(nt, to, from);
                assert(t2 =~= nt + seq!['#'] + to);
            } else {
                crate::tags::lemma_clean_push(nt, ' ', from);
                crate::tags::lemma_clean_kept(nt.push(' '), to, from);
                assert(t2 =~= nt.push(' ') + seq!['#'] + to);
            }
        }
        assert(crate::tags::clean_of(t2, from));
        crate::tags::lemma_clean_join(t2, nc, from);
        reveal_strlit(" ");
        assert(t2 + " "@ + nc =~= t2 + seq![' '] + nc);
        crate::tags::lemma_clean_extract(t2 + " "@ + nc, from);
    }
}

/// Retagging a note to a tag name gives the note that tag: the renamed
/// tags become it (or tags under it, for the old tag's children), and a note
/// without the old tag gets it added to its title.
pub proof fn lemma_retag_gives_new_tag(title: Seq<char>, content: Seq<char>, from_raw: Seq<char>, to_raw: Seq<char>)
    ensures
        crate::tags::tag_name(spec_to_lowercase(to_raw)) ==> exists|t: Seq<char>|
            #[trigger] crate::tags::spec_extract_tags(
                spec_retag(title, content, from_raw, to_raw).0 + " "@ + spec_retag(title, content, from_raw, to_raw).1,
            ).contains(t) && crate::tags::tag_suffix(t, crate::text::spec_ascii_lowercase(spec_to_lowercase(to_raw)))
                is Some,
{
    let from = spec_to_lowercase(from_raw);
    let to = spec_to_lowercase(to_raw);
    let x = crate::text::spec_ascii_lowercase(to);
    if crate::tags::tag_name(to) {
        let (nt, ft) = spec_replace_tag(title, from, to);
        let (nc, fc) = spec_replace_tag(content, from, to);
        let t2 = spec_retag(title, content, from_raw, to_raw).0;
        assert(spec_retag(title, content, from_raw, to_raw).1 == nc);
        if ft {
            assert(t2 == nt);
            let q = crate::tags::lemma_rename_leaves_new_tag(title, from, to);
            crate::tags::lemma_joined_new_tag(t2, nc, q, 0, true, x);
        } else if fc {
            let q = crate::tags::lemma_rename_leaves_new_tag(content, from, to);
            crate::tags::lemma_joined_new_tag(t2, nc, 0, q, false, x);
        } else {
            let t1 = if nt.len() == 0 {
                nt
            } else {
                nt.push(' ')
            };
            assert(crate::text::spec_ascii_lowercase(Seq::<char>::empty()) =~= Seq::<char>::empty());
            crate::tags::lemma_emitted_tag(t1, to, seq![]);
            assert(t2 =~= t1 + seq!['#'] + (to + seq![]));
            crate::tags::lemma_joined_new_tag(t2, nc, t1.len() as int, 0, true, x);
        }
    }
}

/// A note's title and content with tag `name` (lower-cased) and its
/// children removed.
pub fn remove_tag_from_note(title: &str, content: &str, name: &str) -> (r: (String, String))
    ensures
        r.0@ == spec_replace_tag(title@, spec_to_lowercase(name@), seq![]).0,
        r.1@ == spec_replace_tag(content@, spec_to_lowercase(name@), seq![]).0,
{
    let tag = crate::text::to_lowercase(name);
    let empty = String::new();
    let (nt, _) = crate::tags::replace_tag_in_text(title, tag.as_str(), empty.as_str());
    let (nc, _) = crate::tags::replace_tag_in_text(content, tag.as_str(), empty.as_str());
    (nt, nc)
}

/// Title of a duplicated note: "Copy of " and the title of the note copied.
pub fn duplicate_title(title: &str) -> (r: String)
    ensures
        r@ == "Copy of "@ + title@,
{
    let mut s = lit("Copy of ");
    s.append(title);
    s
}

// ── Partial updates ─────────────────────────────────────────────────────────

/// The `SET` columns of a partial note update, in bind order: the update
/// time always, then the title, the content and its search copy, the tags
/// and the pin flag when given.
pub open spec fn spec_update_columns(title: bool, content: bool, tags: bool, pinned: bool) -> Seq<Seq<char>> {
    seq!["updated_at = ?"@] + (if title { seq!["title = ?"@] } else { seq![] }) + (if content {
        seq!["content = ?"@, "content_fts = ?"@]
    } else {
        seq![]
    }) + (if tags { seq!["tags = ?"@] } else { seq![] }) + (if pinned { seq!["pinned = ?"@] } else { seq![] })
}

/// The columns of a partial note update (see `spec_update_columns`).
pub fn note_update_columns(title: bool, content: bool, tags: bool, pinned: bool) -> (r: Vec<String>)
    ensures
        crate::tags::views(r@) == spec_update_columns(title, content, tags, pinned),
{
    let mut v: Vec<String> = Vec::new();
    v.push(lit("updated_at = ?"));
    if title {
        v.push(lit("title = ?"));
    }
    if content {
        v.push(lit("content = ?"));
        v.push(lit("content_fts = ?"));
    }
    if tags {
        v.push(lit("tags = ?"));
    }
    if pinned {
        v.push(lit("pinned = ?"));
    }
    proof {
        assert(crate::tags::views(v@) =~= spec_update_columns(title, content, tags, pinned));
    }
    v
}

// ── Tag tree ────────────────────────────────────────────────────────────────

/// The root of a tag: what precedes its first `/`, or the whole tag.
pub open spec fn root_name(t: Seq<char>) -> Seq<char> {
    match crate::media::first_index_of(t, '/') {
        Some(i) => t.take(i),
        None => t,
    }
}

/// The count of the tag row that is exactly `name` (a root), else 0.
pub open spec fn own_count(rows: Seq<(String, i64)>, name: Seq<char>) -> i64
    decreases rows.len(),
{
    if rows.len() == 0 {
        0
    } else if rows[0].0@ == name {
        rows[0].1
    } else {
        own_count(rows.drop_first(), name)
    }
}

/// The nested tags under a root, in row order: tag, label (after the first
/// `/`) and count.
pub open spec fn children_of(rows: Seq<(String, i64)>, name: Seq<char>) -> Seq<(Seq<char>, Seq<char>, i64)>
    decreases rows.len(),
{
    if rows.len() == 0 {
        seq![]
    } else {
        let prev = children_of(rows.drop_last(), name);
        let t = rows.last().0@;
        match crate::media::first_index_of(t, '/') {
            Some(i) => if t.take(i) == name {
                prev.push((t, t.skip(i + 1), rows.last().1))
            } else {
                prev
            },
            None => prev,
        }
    }
}

/// A root of the tag tree: its name, its own count (0 for a root that only
/// has nested tags), and its nested tags (tag, label, count).
pub struct TagRoot {
    pub name: String,
    pub count: i64,
    pub children: Vec<(String, String, i64)>,
}

/// The names of the roots, in order.
pub open spec fn root_names(r: Seq<TagRoot>) -> Seq<Seq<char>> {
    r.map_values(|x: TagRoot| x.name@)
}

/// The tag tree of the sidebar: the roots of all tags, each once, in
/// `String` order; each with its own count and its nested tags in row order.
pub open spec fn is_tag_tree(rows: Seq<(String, i64)>, r: Seq<TagRoot>) -> bool {
    &&& strictly_sorted(root_names(r))
    &&& forall|t: Seq<char>|
        #[trigger] root_names(r).contains(t) <==> exists|i: int|
            0 <= i < rows.len() && root_name((#[trigger] rows[i]).0@) == t
    &&& forall|k: int|
        0 <= k < r.len() ==> (#[trigger] r[k]).count == own_count(rows, r[k].name@)
            && r[k].children@.map_values(|c: (String, String, i64)| (c.0@, c.1@, c.2)) == children_of(
            rows,
            r[k].name@,
        )
}

fn root_of(t: &str) -> (r: Vec<char>)
    ensures
        r@ == root_name(t@),
{
    let cs = chars_of(t);
    let mut out: Vec<char> = Vec::new();
    let mut i: usize = 0;
    while i < cs.len() && cs[i] != '/'
        invariant
            i <= cs.len(),
            cs@ == t@,
            out@ == cs@.take(i as int),
            crate::media::first_index_of(cs@.take(i as int), '/') is None,
        decreases cs.len() - i,
    {
        out.push(cs[i]);
        proof {
            assert(cs@.take(i + 1) =~= cs@.take(i as int).push(cs@[i as int]));
            assert(cs@.take(i + 1).drop_last() =~= cs@.take(i as int));
        }
        i = i + 1;
    }
    proof {
        if i < cs.len() {
            lemma_first_slash(cs@, i as int);
        } else {
            assert(cs@.take(cs.len() as int) =~= cs@);
        }
    }
    out
}

proof fn lemma_first_slash(s: Seq<char>, i: int)
    requires
        0 <= i < s.len(),
        s[i] == '/',
        crate::media::first_index_of(s.take(i), '/') is None,
    ensures
        crate::media::first_index_of(s, '/') == Some(i),
    decreases s.len() - i,
{
    if i + 1 < s.len() {
        assert(s.drop_last().take(i) =~= s.take(i));
        lemma_first_slash(s.drop_last(), i);
    } else {
        assert(s.drop_last() =~= s.take(i));
    }
}

fn own_count_of(rows: &Vec<(String, i64)>, name: &Vec<char>) -> (r: i64)
    ensures
        r == own_count(rows@, name@),
{
    let mut i: usize = 0;
    proof {
        assert(rows@.skip(0) =~= rows@);
    }
    while i < rows.len()
        invariant
            i <= rows@.len(),
            own_count(rows@, name@) == own_count(rows@.skip(i as int), name@),
        decreases rows.len() - i,
    {
        proof {
            assert(rows@.skip(i as int)[0] == rows@[i as int]);
            assert(rows@.skip(i as int).drop_first() =~= rows@.skip(i + 1));
        }
        let cs = chars_of(rows[i].0.as_str());
        if chars_equal(&cs, name) {
            return rows[i].1;
        }
        i = i + 1;
    }
    0
}

fn children_in(rows: &Vec<(String, i64)>, name: &Vec<char>) -> (r: Vec<(String, String, i64)>)
    ensures
        r@.map_values(|c: (String, String, i64)| (c.0@, c.1@, c.2)) == children_of(rows@, name@),
{
    let mut out: Vec<(String, String, i64)> = Vec::new();
    let mut i: usize = 0;
    while i < rows.len()
        invariant
            i <= rows@.len(),
            out@.map_values(|c: (String, String, i64)| (c.0@, c.1@, c.2)) == children_of(
                rows@.take(i as int),
                name@,
            ),
        decreases rows.len() - i,
    {
        proof {
            assert(rows@.take(i + 1).drop_last() =~= rows@.take(i as int));
            assert(rows@.take(i + 1).last() == rows@[i as int]);
        }
        let tag = rows[i].0.as_str();
        let cs = chars_of(tag);
        let mut j: usize = 0;
        while j < cs.len() && cs[j] != '/'
            invariant
                j <= cs.len(),
                cs@ == tag@,
                crate::media::first_index_of(cs@.take(j as int), '/') is None,
            decreases cs.len() - j,
        {
            proof {
                assert(cs@.take(j + 1).drop_last() =~= cs@.take(j as int));
            }
            j = j + 1;
        }
        if j < cs.len() {
            proof {
                lemma_first_slash(cs@, j as int);
            }
            let mut head: Vec<char> = Vec::new();
            let mut k: usize = 0;
            while k < j
                invariant
                    k <= j,
                    j < cs.len(),
                    head@ == cs@.take(k as int),
                decreases j - k,
            {
                head.push(cs[k]);
                proof {
                    assert(cs@.take(k + 1) =~= cs@.take(k as int).push(cs@[k as int]));
                }
                k = k + 1;
            }
            if chars_equal(&head, name) {
                let ghost before = out@.map_values(|c: (String, String, i64)| (c.0@, c.1@, c.2));
                let label = crate::text::skip_chars(tag, j + 1);
                out.push((lit(tag), label, rows[i].1));
                proof {
                    assert(out@.map_values(|c: (String, String, i64)| (c.0@, c.1@, c.2)) =~= before.push(
                        (tag@, tag@.skip(j + 1), rows@[i as int].1),
                    ));
                }
            }
        } else {
            proof {
                assert(cs@.take(cs.len() as int) =~= cs@);
            }
        }
        i = i + 1;
    }
    proof {
        assert(rows@.take(rows.len() as int) =~= rows@);
    }
    out
}

/// Builds the tag tree from the (tag, count) rows, one per tag.
pub fn tag_tree(rows: &Vec<(String, i64)>) -> (r: Vec<TagRoot>)
    ensures
        is_tag_tree(rows@, r@),
{
    let mut names: Vec<Vec<char>> = Vec::new();
    let mut i: usize = 0;
    while i < rows.len()
        invariant
            i <= rows@.len(),
            strictly_sorted(cviews(names@)),
            forall|t: Seq<char>|
                #[trigger] cviews(names@).contains(t) <==> exists|j: int|
                    0 <= j < i && root_name((#[trigger] rows@[j]).0@) == t,
        decreases rows.len() - i,
    {
        let root = root_of(rows[i].0.as_str());
        let ghost rv = root@;
        let ghost before = cviews(names@);
        insert_sorted_unique(&mut names, root);
        proof {
            assert forall|t: Seq<char>| #[trigger] cviews(names@).contains(t) <==> exists|j: int|
                0 <= j < i + 1 && root_name((#[trigger] rows@[j]).0@) == t by {
                if cviews(names@).contains(t) && t != rv {
                    assert(before.contains(t));
                }
                if t == rv {
                    assert(root_name(rows@[i as int].0@) == t);
                }
                if exists|j: int| 0 <= j < i + 1 && root_name((#[trigger] rows@[j]).0@) == t {
                    let j = choose|j: int| 0 <= j < i + 1 && root_name((#[trigger] rows@[j]).0@) == t;
                    if j < i {
                        assert(before.contains(t));
                    }
                }
            }
        }
        i = i + 1;
    }
    let mut out: Vec<TagRoot> = Vec::new();
    let mut k: usize = 0;
    while k < names.len()
        invariant
            k <= names@.len(),
            strictly_sorted(cviews(names@)),
            root_names(out@) == cviews(names@).take(k as int),
            forall|m: int|
                0 <= m < out@.len() ==> (#[trigger] out@[m]).count == own_count(rows@, out@[m].name@)
                    && out@[m].children@.map_values(|c: (String, String, i64)| (c.0@, c.1@, c.2))
                    == children_of(rows@, out@[m].name@),
        decreases names.len() - k,
    {
        let n = &names[k];
        let count = own_count_of(rows, n);
        let children = children_in(rows, n);
        let ghost before = root_names(out@);
        out.push(TagRoot { name: crate::text::string_from_chars(n), count, children });
        proof {
            assert(root_names(out@) =~= before.push(n@));
            assert(cviews(names@).take(k + 1) =~= cviews(names@).take(k as int).push(cviews(names@)[k as int]));
        }
        k = k + 1;
    }
    proof {
        assert(cviews(names@).take(names@.len() as int) =~= cviews(names@));
    }
    out
}

/// The tags of a note: those of its title and content together.
pub fn note_tags(title: &str, content: &str) -> (r: Vec<String>)
    ensures
        views(r@) == crate::tags::spec_extract_tags(title@ + " "@ + content@),
{
    let mut combined = lit(title);
    combined.append(" ");
    combined.append(content);
    crate::tags::extract_tags(combined.as_str())
}

/// The JSON array of a note's tags, as stored with the note.
pub fn note_tags_json(title: &str, content: &str) -> (r: String)
    ensures
        r@ == crate::json::spec_json_string_array(crate::tags::spec_extract_tags(title@ + " "@ + content@)),
{
    let tags = note_tags(title, content);
    crate::json::json_string_array(&tags)
}

// ── Request forms ───────────────────────────────────────────────────────────

/// Query of the note list: search, tag, page size and offset.
pub struct ListQuery {
    pub q: String,
    pub tag: String,
    pub limit: i64,
    pub offset: i64,
}

/// The page size when the query gives none.
pub fn default_limit() -> (r: i64)
    ensures
        r == PAGE,
{
    PAGE
}

/// A note to create.
pub struct CreateBody {
    pub title: String,
    pub content: String,
    pub tags: Option<String>,
}

/// The fields of a note to change.
pub struct UpdateBody {
    pub title: Option<String>,
    pub content: Option<String>,
    pub tags: Option<String>,
    pub pinned: Option<i64>,
}

/// A tag to rename.
pub struct RetagBody {
    pub from_tag: String,
    pub to_tag: String,
}

/// A tag to delete.
pub struct DeleteTagQuery {
    pub name: String,
}

/// A note to find by its title.
pub struct ResolveQuery {
    pub title: String,
}

// ── Trash ───────────────────────────────────────────────────────────────────

/// How long a deleted note or clipboard entry stays in the trash: 30 days.
pub const TRASH_TTL_SECS: i64 = 2592000;

/// The time before which trashed items are purged.
pub fn trash_cutoff(now: i64) -> (r: i64)
    requires
        now - TRASH_TTL_SECS >= i64::MIN,
    ensures
        r == now - TRASH_TTL_SECS,
{
    now - TRASH_TTL_SECS
}

} // verus!
