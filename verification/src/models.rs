//! Downloadable models (Whisper voice models, Argos translation packs): the
//! registry of downloads in progress, their progress, and where models live.
use vstd::prelude::*;

use crate::json::opt_view;
use crate::paths::{join, spec_join};
use crate::text::{lit, skip_chars, starts_with, str_eq};

verus! {

// ── Download states ─────────────────────────────────────────────────────────

/// A download's state: progress 0–100, status `downloading`, `done` or
/// `error`, and the error message.
#[derive(Clone)]
pub struct DownloadState {
    pub progress: u8,
    pub status: String,
    pub error: Option<String>,
}

/// A download state as plain values.
pub open spec fn state_view(s: DownloadState) -> (u8, Seq<char>, Option<Seq<char>>) {
    (s.progress, s.status@, opt_view(s.error))
}

/// A copy of a state.
pub fn copy_state(s: &DownloadState) -> (r: DownloadState)
    ensures
        state_view(r) == state_view(*s),
{
    DownloadState {
        progress: s.progress,
        status: s.status.clone(),
        error: match &s.error {
            Some(e) => Some(e.clone()),
            None => None,
        },
    }
}

/// A download under way, at `progress` percent.
pub fn downloading(progress: u8) -> (r: DownloadState)
    ensures
        state_view(r) == (progress, "downloading"@, None::<Seq<char>>),
{
    DownloadState { progress, status: lit("downloading"), error: None }
}

/// A finished download.
pub fn done() -> (r: DownloadState)
    ensures
        state_view(r) == (100u8, "done"@, None::<Seq<char>>),
{
    DownloadState { progress: 100, status: lit("done"), error: None }
}

/// A failed download, with its message.
pub fn failed(msg: &str) -> (r: DownloadState)
    ensures
        state_view(r) == (0u8, "error"@, Some(msg@)),
{
    DownloadState { progress: 0, status: lit("error"), error: Some(lit(msg)) }
}

/// The progress shown while downloading: the share received, in percent,
/// held at 99 until the end; 50 when the size is unknown.
pub open spec fn spec_progress(received: nat, total: nat) -> nat {
    if total > 0 {
        let p = received * 100 / total;
        if p > 99 {
            99
        } else {
            p
        }
    } else {
        50
    }
}

/// Computes the progress of a download.
pub fn download_progress(received: u64, total: u64) -> (r: u8)
    requires
        received * 100 <= u64::MAX,
    ensures
        r == spec_progress(received as nat, total as nat),
{
    if total > 0 {
        let p = received * 100 / total;
        if p > 99 {
            99
        } else {
            p as u8
        }
    } else {
        50
    }
}

// ── Registry ────────────────────────────────────────────────────────────────

/// The downloads known to the app, by model id.
pub struct DownloadMap {
    entries: Vec<(String, DownloadState)>,
}

/// Is `k` the id of one of the entries?
pub open spec fn has_key(s: Seq<(String, DownloadState)>, k: Seq<char>) -> bool {
    exists|i: int| 0 <= i < s.len() && (#[trigger] s[i]).0@ == k
}

/// The state of the entry with id `k`.
pub open spec fn value_of(s: Seq<(String, DownloadState)>, k: Seq<char>) -> (u8, Seq<char>, Option<Seq<char>>) {
    state_view(s[choose|i: int| 0 <= i < s.len() && (#[trigger] s[i]).0@ == k].1)
}

/// No two entries share an id.
pub open spec fn distinct_keys(s: Seq<(String, DownloadState)>) -> bool {
    forall|i: int, j: int| 0 <= i < s.len() && 0 <= j < s.len() && i != j ==> (#[trigger] s[i]).0@ != (#[trigger] s[j]).0@
}

proof fn lemma_value_at(s: Seq<(String, DownloadState)>, i: int)
    requires
        distinct_keys(s),
        0 <= i < s.len(),
    ensures
        has_key(s, s[i].0@),
        value_of(s, s[i].0@) == state_view(s[i].1),
{
    let k = s[i].0@;
    assert(has_key(s, k));
    let j = choose|j: int| 0 <= j < s.len() && (#[trigger] s[j]).0@ == k;
    if j != i {
        assert(s[i].0@ != s[j].0@);
    }
}

impl DownloadMap {
    /// No two entries share an id.
    pub closed spec fn wf(&self) -> bool {
        distinct_keys(self.entries@)
    }

    /// The registry as a map from model id to state.
    pub closed spec fn view(&self) -> Map<Seq<char>, (u8, Seq<char>, Option<Seq<char>>)> {
        Map::new(|k: Seq<char>| has_key(self.entries@, k), |k: Seq<char>| value_of(self.entries@, k))
    }

    /// An empty registry.
    pub fn new() -> (r: DownloadMap)
        ensures
            r.wf(),
            r.view() == Map::<Seq<char>, (u8, Seq<char>, Option<Seq<char>>)>::empty(),
    {
        let r = DownloadMap { entries: Vec::new() };
        proof {
            assert(r.view() =~= Map::<Seq<char>, (u8, Seq<char>, Option<Seq<char>>)>::empty());
        }
        r
    }

    fn find(&self, id: &str) -> (r: Option<usize>)
        requires
            self.wf(),
        ensures
            match r {
                Some(i) => i < self.entries@.len() && self.entries@[i as int].0@ == id@,
                None => !has_key(self.entries@, id@),
            },
    {
        let mut i: usize = 0;
        while i < self.entries.len()
            invariant
                i <= self.entries@.len(),
                forall|k: int| 0 <= k < i ==> (#[trigger] self.entries@[k]).0@ != id@,
            decreases self.entries.len() - i,
        {
            if str_eq(self.entries[i].0.as_str(), id) {
                return Some(i);
            }
            i = i + 1;
        }
        None
    }

    /// The state of a model's download, if there is one.
    pub fn get(&self, id: &str) -> (r: Option<DownloadState>)
        requires
            self.wf(),
        ensures
            match r {
                Some(s) => self.view().dom().contains(id@) && state_view(s) == self.view()[id@],
                None => !self.view().dom().contains(id@),
            },
    {
        match self.find(id) {
            Some(i) => {
                let s = copy_state(&self.entries[i].1);
                proof {
                    let j = choose|j: int| 0 <= j < self.entries@.len() && (#[trigger] self.entries@[j]).0@ == id@;
                    if j != i {
                        if j < i {
                            assert(self.entries@[j].0@ != self.entries@[i as int].0@);
                        } else {
                            assert(self.entries@[i as int].0@ != self.entries@[j].0@);
                        }
                    }
                }
                Some(s)
            },
            None => None,
        }
    }
    /// Sets the state of a model's download, replacing any earlier one.
    pub fn insert(&mut self, id: String, s: DownloadState)
        requires
            old(self).wf(),
        ensures
            final(self).wf(),
            final(self).view() == old(self).view().insert(id@, state_view(s)),
    {
        let ghost k = id@;
        let ghost sv = state_view(s);
        let ghost before = self.entries@;
        match self.find(id.as_str()) {
            Some(i) => {
                self.entries.set(i, (id, s));
                let ghost after = self.entries@;
                proof {
                    assert(after == before.update(i as int, after[i as int]));
                    assert forall|a: int, b: int| 0 <= a < after.len() && 0 <= b < after.len() && a != b implies (
                    #[trigger] after[a]).0@ != (#[trigger] after[b]).0@ by {
                        if a != i && b != i {
                            assert(before[a].0@ != before[b].0@);
                        } else if a == i {
                            assert(before[a].0@ != before[b].0@);
                        } else {
                            assert(before[a].0@ != before[b].0@);
                        }
                    }
                    lemma_value_at(after, i as int);
                    assert forall|x: Seq<char>| #[trigger] has_key(after, x) == (has_key(before, x) || x == k) by {
                        if has_key(before, x) {
                            let j = choose|j: int| 0 <= j < before.len() && (#[trigger] before[j]).0@ == x;
                            if j != i {
                                assert(after[j].0@ == x);
                            }
                        }
                        if has_key(after, x) {
                            let j = choose|j: int| 0 <= j < after.len() && (#[trigger] after[j]).0@ == x;
                            if j != i {
                                assert(before[j].0@ == x);
                            }
                        }
                    }
                    assert forall|x: Seq<char>| has_key(after, x) && x != k implies #[trigger] value_of(after, x)
                        == value_of(before, x) by {
                        let j = choose|j: int| 0 <= j < after.len() && (#[trigger] after[j]).0@ == x;
                        lemma_value_at(after, j);
                        lemma_value_at(before, j);
                    }
                    assert(self.view() =~= old(self).view().insert(k, sv));
                }
            },
            None => {
                self.entries.push((id, s));
                let ghost after = self.entries@;
                let ghost n = before.len() as int;
                proof {
                    assert forall|a: int, b: int| 0 <= a < after.len() && 0 <= b < after.len() && a != b implies (
                    #[trigger] after[a]).0@ != (#[trigger] after[b]).0@ by {
                        if a < n && b < n {
                            assert(before[a].0@ != before[b].0@);
                        } else if a == n {
                            assert(before[b] == after[b]);
                        } else {
                            assert(before[a] == after[a]);
                        }
                    }
                    lemma_value_at(after, n);
                    assert forall|x: Seq<char>| #[trigger] has_key(after, x) == (has_key(before, x) || x == k) by {
                        if has_key(before, x) {
                            let j = choose|j: int| 0 <= j < before.len() && (#[trigger] before[j]).0@ == x;
                            assert(after[j].0@ == x);
                        }
                        if has_key(after, x) {
                            let j = choose|j: int| 0 <= j < after.len() && (#[trigger] after[j]).0@ == x;
                            if j != n {
                                assert(before[j].0@ == x);
                            }
                        }
                    }
                    assert forall|x: Seq<char>| has_key(after, x) && x != k implies #[trigger] value_of(after, x)
                        == value_of(before, x) by {
                        let j = choose|j: int| 0 <= j < after.len() && (#[trigger] after[j]).0@ == x;
                        lemma_value_at(after, j);
                        lemma_value_at(before, j);
                    }
                    assert(self.view() =~= old(self).view().insert(k, sv));
                }
            },
        }
    }

    /// Forgets a model's download.
    pub fn remove(&mut self, id: &str)
        requires
            old(self).wf(),
        ensures
            final(self).wf(),
            final(self).view() == old(self).view().remove(id@),
    {
        let ghost before = self.entries@;
        match self.find(id) {
            Some(i) => {
                self.entries.remove(i);
                let ghost after = self.entries@;
                proof {
                    assert(after =~= before.remove(i as int));
                    assert forall|a: int, b: int| 0 <= a < after.len() && 0 <= b < after.len() && a != b implies (
                    #[trigger] after[a]).0@ != (#[trigger] after[b]).0@ by {
                        let a0 = if a < i { a } else { a + 1 };
                        let b0 = if b < i { b } else { b + 1 };
                        assert(after[a] == before[a0]);
                        assert(after[b] == before[b0]);
                        assert(before[a0].0@ != before[b0].0@);
                    }
                    assert forall|x: Seq<char>| #[trigger] has_key(after, x) == (has_key(before, x) && x != id@) by {
                        if has_key(before, x) && x != id@ {
                            let j = choose|j: int| 0 <= j < before.len() && (#[trigger] before[j]).0@ == x;
                            if j < i {
                                assert(after[j].0@ == x);
                            } else {
                                assert(j != i);
                                assert(after[j - 1].0@ == x);
                            }
                        }
                        if has_key(after, x) {
                            let j = choose|j: int| 0 <= j < after.len() && (#[trigger] after[j]).0@ == x;
                            let j0 = if j < i { j } else { j + 1 };
                            assert(before[j0].0@ == x);
                            assert(j0 != i);
                            assert(before[j0].0@ != before[i as int].0@);
                        }
                    }
                    assert forall|x: Seq<char>| has_key(after, x) implies #[trigger] value_of(after, x) == value_of(
                        before,
                        x,
                    ) by {
                        let j = choose|j: int| 0 <= j < after.len() && (#[trigger] after[j]).0@ == x;
                        let j0 = if j < i { j } else { j + 1 };
                        lemma_value_at(after, j);
                        lemma_value_at(before, j0);
                    }
                    assert(self.view() =~= old(self).view().remove(id@));
                }
            },
            None => {
                proof {
                    assert(self.view() =~= old(self).view().remove(id@));
                }
            },
        }
    }
}

// ── Laws of the registry ────────────────────────────────────────────────────

/// Reading a model's download right after setting it gives back the state
/// that was set; other models' downloads are untouched.
pub proof fn lemma_read_after_insert(m: DownloadMap, id: Seq<char>, s: DownloadState, other: Seq<char>)
    requires
        m.wf(),
    ensures
        m.view().insert(id, state_view(s)).dom().contains(id),
        m.view().insert(id, state_view(s))[id] == state_view(s),
        other != id ==> (m.view().insert(id, state_view(s)).dom().contains(other) == m.view().dom().contains(
            other,
        ) && m.view().insert(id, state_view(s))[other] == m.view()[other]),
{
}

/// After forgetting a model's download, reading it finds nothing; other
/// models' downloads are untouched.
pub proof fn lemma_read_after_remove(m: DownloadMap, id: Seq<char>, other: Seq<char>)
    requires
        m.wf(),
    ensures
        !m.view().remove(id).dom().contains(id),
        other != id ==> (m.view().remove(id).dom().contains(other) == m.view().dom().contains(other)
            && m.view().remove(id)[other] == m.view()[other]),
{
}

/// Setting the same model's download twice keeps only the last state.
pub proof fn lemma_last_insert_wins(m: DownloadMap, id: Seq<char>, a: DownloadState, b: DownloadState)
    requires
        m.wf(),
    ensures
        m.view().insert(id, state_view(a)).insert(id, state_view(b)) == m.view().insert(id, state_view(b)),
{
    assert(m.view().insert(id, state_view(a)).insert(id, state_view(b)) =~= m.view().insert(id, state_view(b)));
}

// ── Cards ───────────────────────────────────────────────────────────────────

/// What a model's card shows.
pub enum CardKind {
    /// A progress bar at this percent.
    Downloading(u8),
    /// The error, with a retry button.
    Failed(String),
    /// A delete button.
    Downloaded,
    /// The size, with a download button.
    Available,
}

/// The card of a model from its download state and whether it is on disk:
/// a download under way or failed wins over the stored flag.
pub fn card_kind(ds: Option<&DownloadState>, downloaded: i64) -> (r: CardKind)
    ensures
        match ds {
            Some(s) if s.status@ == "downloading"@ => r == CardKind::Downloading(s.progress),
            Some(s) if s.status@ == "error"@ => r matches CardKind::Failed(m) && m@ == match s.error {
                Some(e) => e@,
                None => "Unknown error"@,
            },
            _ => if downloaded == 1 {
                r is Downloaded
            } else {
                r is Available
            },
        },
{
    match ds {
        Some(s) if str_eq(s.status.as_str(), "downloading") => CardKind::Downloading(s.progress),
        Some(s) if str_eq(s.status.as_str(), "error") => CardKind::Failed(
            match &s.error {
                Some(e) => e.clone(),
                None => lit("Unknown error"),
            },
        ),
        _ => if downloaded == 1 {
            CardKind::Downloaded
        } else {
            CardKind::Available
        },
    }
}

/// What a download request does.
#[derive(PartialEq, Eq, Structural, Clone, Copy, Debug)]
pub enum DownloadDecision {
    /// Show the model's card as it is.
    ShowCard,
    /// The model is not in the catalog.
    NotFound,
    /// Start downloading.
    Start,
}

/// Decides a download request: a download under way is shown again; an
/// unknown model is not found; a model on disk is shown; else it starts.
pub fn download_decision(in_progress: bool, known: bool, downloaded: i64) -> (r: DownloadDecision)
    ensures
        r == if in_progress && known {
            DownloadDecision::ShowCard
        } else if !known {
            DownloadDecision::NotFound
        } else if downloaded == 1 {
            DownloadDecision::ShowCard
        } else {
            DownloadDecision::Start
        },
{
    if in_progress && known {
        DownloadDecision::ShowCard
    } else if !known {
        DownloadDecision::NotFound
    } else if downloaded == 1 {
        DownloadDecision::ShowCard
    } else {
        DownloadDecision::Start
    }
}

/// The positions of the voice models and of the others, in catalog order.
pub fn group_by_tool(tools: &Vec<String>) -> (r: (Vec<usize>, Vec<usize>))
    ensures
        forall|k: int| 0 <= k < r.0@.len() ==> r.0@[k] < tools@.len() && tools@[r.0@[k] as int]@ == "voice"@,
        forall|k: int| 0 <= k < r.1@.len() ==> r.1@[k] < tools@.len() && tools@[r.1@[k] as int]@ != "voice"@,
        r.0@.len() + r.1@.len() == tools@.len(),
        forall|a: int, b: int| 0 <= a < b < r.0@.len() ==> r.0@[a] < r.0@[b],
        forall|a: int, b: int| 0 <= a < b < r.1@.len() ==> r.1@[a] < r.1@[b],
{
    let mut voice: Vec<usize> = Vec::new();
    let mut other: Vec<usize> = Vec::new();
    let mut i: usize = 0;
    while i < tools.len()
        invariant
            i <= tools@.len(),
            voice@.len() + other@.len() == i,
            forall|k: int| 0 <= k < voice@.len() ==> voice@[k] < i && tools@[voice@[k] as int]@ == "voice"@,
            forall|k: int| 0 <= k < other@.len() ==> other@[k] < i && tools@[other@[k] as int]@ != "voice"@,
            forall|a: int, b: int| 0 <= a < b < voice@.len() ==> voice@[a] < voice@[b],
            forall|a: int, b: int| 0 <= a < b < other@.len() ==> other@[a] < other@[b],
        decreases tools.len() - i,
    {
        if str_eq(tools[i].as_str(), "voice") {
            voice.push(i);
        } else {
            other.push(i);
        }
        i = i + 1;
    }
    (voice, other)
}

// ── Where models live ───────────────────────────────────────────────────────

/// `<home>/.local/share/eleutheria-telos/models`, with `.` for a missing home.
pub open spec fn spec_models_dir(home: Option<Seq<char>>) -> Seq<char> {
    spec_join(crate::mcp::str_or(home, "."@), ".local/share/eleutheria-telos/models"@)
}

/// The name a model id gives after an optional prefix.
pub open spec fn strip(id: Seq<char>, prefix: Seq<char>) -> Seq<char> {
    if prefix.len() <= id.len() && id.take(prefix.len() as int) == prefix {
        id.skip(prefix.len() as int)
    } else {
        id
    }
}

fn strip_exec(id: &str, prefix: &str) -> (r: String)
    ensures
        r@ == strip(id@, prefix@),
{
    if starts_with(id, prefix) {
        let n = crate::text::chars_of(prefix).len();
        skip_chars(id, n)
    } else {
        lit(id)
    }
}

/// The file of a Whisper model:
/// `<models>/whisper/ggml-<name>.<ext>` (`bin` when done, `tmp` while
/// downloading), the name being the id without its `whisper-` prefix.
pub open spec fn spec_whisper_path(home: Option<Seq<char>>, id: Seq<char>, ext: Seq<char>) -> Seq<char> {
    spec_join(spec_join(spec_models_dir(home), "whisper"@), "ggml-"@ + strip(id, "whisper-"@) + "."@ + ext)
}

/// Where a Whisper model is written (`ext` `bin`, or `tmp` while it downloads).
pub fn whisper_path(home: Option<&str>, id: &str, ext: &str) -> (r: String)
    ensures
        r@ == spec_whisper_path(
            match home {
                Some(h) => Some(h@),
                None => None,
            },
            id@,
            ext@,
        ),
{
    let h = match home {
        Some(h) => lit(h),
        None => lit("."),
    };
    let dir = join(h.as_str(), ".local/share/eleutheria-telos/models");
    let w = join(dir.as_str(), "whisper");
    let mut name = lit("ggml-");
    let n = strip_exec(id, "whisper-");
    name.append(n.as_str());
    name.append(".");
    name.append(ext);
    join(w.as_str(), name.as_str())
}

/// The language pair of an Argos model id `argos-<from>-<to>`: what lies
/// before and after the first `-` following the prefix.
pub open spec fn spec_argos_pair(id: Seq<char>) -> Option<(Seq<char>, Seq<char>)> {
    let p = "argos-"@;
    if p.len() <= id.len() && id.take(p.len() as int) == p {
        let rest = id.skip(p.len() as int);
        match crate::media::first_index_of(rest, '-') {
            Some(i) => Some((rest.take(i), rest.skip(i + 1))),
            None => None,
        }
    } else {
        None
    }
}

/// Reads the language pair of an Argos model id.
pub fn argos_lang_pair(id: &str) -> (r: Option<(String, String)>)
    ensures
        match spec_argos_pair(id@) {
            Some((f, t)) => r matches Some((a, b)) && a@ == f && b@ == t,
            None => r is None,
        },
{
    if !starts_with(id, "argos-") {
        return None;
    }
    proof {
        reveal_strlit("argos-");
    }
    let rest = skip_chars(id, 6);
    let cs = crate::text::chars_of(rest.as_str());
    let mut i: usize = 0;
    while i < cs.len()
        invariant
            i <= cs.len(),
            cs@ == rest@,
            "argos-"@.len() == 6,
            6 <= id@.len(),
            id@.take(6) == "argos-"@,
            rest@ == id@.skip(6),
            forall|k: int| 0 <= k < i ==> cs@[k] != '-',
            crate::media::first_index_of(cs@.take(i as int), '-') is None,
        decreases cs.len() - i,
    {
        proof {
            assert(cs@.take(i + 1).drop_last() =~= cs@.take(i as int));
        }
        if cs[i] == '-' {
            proof {
                lemma_first_index_prefix(cs@, i as int);
            }
            let mut from = String::new();
            let mut k: usize = 0;
            while k < i
                invariant
                    k <= i,
                    i < cs.len(),
                    from@ == cs@.take(k as int),
                decreases i - k,
            {
                from.push(cs[k]);
                proof {
                    assert(cs@.take(k + 1) =~= cs@.take(k as int).push(cs@[k as int]));
                }
                k = k + 1;
            }
            let to = skip_chars(rest.as_str(), i + 1);
            return Some((from, to));
        }
        i = i + 1;
    }
    proof {
        assert(cs@.take(cs.len() as int) =~= cs@);
    }
    None
}

proof fn lemma_first_index_prefix(s: Seq<char>, i: int)
    requires
        0 <= i < s.len(),
        s[i] == '-',
        crate::media::first_index_of(s.take(i), '-') is None,
    ensures
        crate::media::first_index_of(s, '-') == Some(i),
    decreases s.len() - i,
{
    if i + 1 < s.len() {
        assert(s.drop_last().take(i) =~= s.take(i));
        lemma_first_index_prefix(s.drop_last(), i);
    } else {
        assert(s.drop_last() =~= s.take(i));
    }
}

} // verus!
