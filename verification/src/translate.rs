//! Translation: the language pairs of the installed Argos packs, and the
//! global search palette's split of results between notes and clipboard.
use vstd::prelude::*;

use crate::models::{argos_lang_pair, spec_argos_pair};
use crate::tags::{contains_string, dedup, views};
use crate::text::{lit, str_eq};

verus! {

// ── Languages ───────────────────────────────────────────────────────────────

/// The language pair of an installed pack's model id.
pub fn parse_lang_pair(model_id: &str) -> (r: Option<(String, String)>)
    ensures
        match spec_argos_pair(model_id@) {
            Some((f, t)) => r matches Some((a, b)) && a@ == f && b@ == t,
            None => r is None,
        },
{
    argos_lang_pair(model_id)
}

/// The name of a language code in the translator; an unknown code stands
/// for itself.
pub open spec fn spec_lang_label(code: Seq<char>) -> Seq<char> {
    if code == "en"@ {
        "English"@
    } else if code == "es"@ {
        "Spanish"@
    } else if code == "fr"@ {
        "French"@
    } else if code == "de"@ {
        "German"@
    } else if code == "pt"@ {
        "Portuguese"@
    } else if code == "it"@ {
        "Italian"@
    } else if code == "zh"@ {
        "Chinese"@
    } else if code == "ja"@ {
        "Japanese"@
    } else if code == "ar"@ {
        "Arabic"@
    } else if code == "ru"@ {
        "Russian"@
    } else {
        code
    }
}

/// Human name of a language code.
pub fn lang_label(code: &str) -> (r: String)
    ensures
        r@ == spec_lang_label(code@),
{
    if str_eq(code, "en") {
        lit("English")
    } else if str_eq(code, "es") {
        lit("Spanish")
    } else if str_eq(code, "fr") {
        lit("French")
    } else if str_eq(code, "de") {
        lit("German")
    } else if str_eq(code, "pt") {
        lit("Portuguese")
    } else if str_eq(code, "it") {
        lit("Italian")
    } else if str_eq(code, "zh") {
        lit("Chinese")
    } else if str_eq(code, "ja") {
        lit("Japanese")
    } else if str_eq(code, "ar") {
        lit("Arabic")
    } else if str_eq(code, "ru") {
        lit("Russian")
    } else {
        lit(code)
    }
}

/// The language pairs of the installed packs, in order; ids that are not
/// Argos ids are skipped.
pub open spec fn spec_pairs(ids: Seq<String>) -> Seq<(Seq<char>, Seq<char>)>
    decreases ids.len(),
{
    if ids.len() == 0 {
        seq![]
    } else {
        let prev = spec_pairs(ids.drop_last());
        match spec_argos_pair(ids.last()@) {
            Some(p) => prev.push(p),
            None => prev,
        }
    }
}

/// The target languages paired with a source language, in order.
pub open spec fn tos_for(pairs: Seq<(Seq<char>, Seq<char>)>, from: Seq<char>) -> Seq<Seq<char>>
    decreases pairs.len(),
{
    if pairs.len() == 0 {
        seq![]
    } else {
        let prev = tos_for(pairs.drop_last(), from);
        if pairs.last().0 == from {
            prev.push(pairs.last().1)
        } else {
            prev
        }
    }
}

/// The choices of the translation form.
pub struct LangChoices {
    /// The language pairs, in order.
    pub pairs: Vec<(String, String)>,
    /// Each source language once, in order of first appearance.
    pub froms: Vec<String>,
    /// The first source language, or `en`.
    pub default_from: String,
    /// The targets of the default source language.
    pub default_tos: Vec<String>,
}

fn tos_of(pairs: &Vec<(String, String)>, from: &str) -> (r: Vec<String>)
    ensures
        views(r@) == tos_for(crate::mcp::pair_views(pairs@), from@),
{
    let ghost ps = crate::mcp::pair_views(pairs@);
    let mut out: Vec<String> = Vec::new();
    let mut i: usize = 0;
    while i < pairs.len()
        invariant
            i <= pairs.len(),
            ps == crate::mcp::pair_views(pairs@),
            views(out@) == tos_for(ps.take(i as int), from@),
        decreases pairs.len() - i,
    {
        proof {
            assert(ps.take(i + 1).drop_last() =~= ps.take(i as int));
            assert(ps.take(i + 1).last() == ps[i as int]);
        }
        if str_eq(pairs[i].0.as_str(), from) {
            let ghost before = views(out@);
            out.push(pairs[i].1.clone());
            proof {
                assert(views(out@) =~= before.push(pairs@[i as int].1@));
            }
        }
        i = i + 1;
    }
    proof {
        assert(ps.take(pairs.len() as int) =~= ps);
    }
    out
}

/// Reads the installed packs' ids into the translation form's choices.
pub fn lang_choices(ids: &Vec<String>) -> (r: LangChoices)
    ensures
        crate::mcp::pair_views(r.pairs@) == spec_pairs(ids@),
        views(r.froms@) == dedup(spec_pairs(ids@).map_values(|p: (Seq<char>, Seq<char>)| p.0)),
        r.default_from@ == if r.froms@.len() > 0 {
            r.froms@[0]@
        } else {
            "en"@
        },
        views(r.default_tos@) == tos_for(spec_pairs(ids@), r.default_from@),
{
    let mut pairs: Vec<(String, String)> = Vec::new();
    let mut i: usize = 0;
    while i < ids.len()
        invariant
            i <= ids.len(),
            crate::mcp::pair_views(pairs@) == spec_pairs(ids@.take(i as int)),
        decreases ids.len() - i,
    {
        proof {
            assert(ids@.take(i + 1).drop_last() =~= ids@.take(i as int));
            assert(ids@.take(i + 1).last() == ids@[i as int]);
        }
        match parse_lang_pair(ids[i].as_str()) {
            Some((f, t)) => {
                let ghost before = crate::mcp::pair_views(pairs@);
                pairs.push((f, t));
                proof {
                    assert(crate::mcp::pair_views(pairs@) =~= before.push((pairs@.last().0@, pairs@.last().1@)));
                }
            },
            None => {},
        }
        i = i + 1;
    }
    proof {
        assert(ids@.take(ids.len() as int) =~= ids@);
    }
    let ghost ps = crate::mcp::pair_views(pairs@);
    let ghost fs = ps.map_values(|p: (Seq<char>, Seq<char>)| p.0);
    let mut froms: Vec<String> = Vec::new();
    let mut k: usize = 0;
    while k < pairs.len()
        invariant
            k <= pairs.len(),
            ps == crate::mcp::pair_views(pairs@),
            fs == ps.map_values(|p: (Seq<char>, Seq<char>)| p.0),
            views(froms@) == dedup(fs.take(k as int)),
        decreases pairs.len() - k,
    {
        proof {
            assert(fs.take(k + 1).drop_last() =~= fs.take(k as int));
            assert(fs.take(k + 1).last() == pairs@[k as int].0@);
        }
        let f = &pairs[k].0;
        if !contains_string(&froms, f) {
            let ghost before = views(froms@);
            froms.push(f.clone());
            proof {
                assert(views(froms@) =~= before.push(f@));
            }
        }
        k = k + 1;
    }
    proof {
        assert(fs.take(pairs.len() as int) =~= fs);
    }
    let default_from = if froms.len() > 0 {
        froms[0].clone()
    } else {
        lit("en")
    };
    proof {
        if froms@.len() > 0 {
            assert(views(froms@)[0] == froms@[0]@);
        }
    }
    let default_tos = tos_of(&pairs, default_from.as_str());
    LangChoices { pairs, froms, default_from, default_tos }
}

// ── Search palette ──────────────────────────────────────────────────────────

/// The search palette's query.
pub struct SearchQuery {
    pub q: String,
    pub limit: i64,
}

/// Results per search when the query gives no limit.
pub fn default_limit() -> (r: i64)
    ensures
        r == 20,
{
    20
}

/// `a / 2` rounded toward zero, as Rust's integer division does.
pub open spec fn half_toward_zero(a: int) -> int {
    if a >= 0 {
        a / 2
    } else {
        -((-a) / 2)
    }
}

/// How a search's limit is shared: notes get the larger half (the extra
/// slot when it is odd, by Rust's `/` and `%`), clipboard entries the other.
pub fn search_limits(limit: i64) -> (r: (i64, i64))
    ensures
        r.1 == half_toward_zero(limit as int),
        r.0 == half_toward_zero(limit as int) + (limit - 2 * half_toward_zero(limit as int)),
{
    if limit >= 0 {
        let h = limit / 2;
        (h + limit % 2, h)
    } else {
        let n: i64 = -(limit + 1);
        let h: i64 = n / 2 + n % 2;
        let q: i64 = -h;
        assert(q == half_toward_zero(limit as int));
        (q + (limit - 2 * q), q)
    }
}

/// Up to this many bytes of a clipboard entry show in the palette.
pub const PREVIEW_BYTES: usize = 80;

/// A clipboard entry as the palette shows it: whole when short, else its
/// first `PREVIEW_BYTES` bytes and `…` (the cut must fall on a character
/// boundary, as slicing there demands).
pub fn clip_preview(p: &str) -> (r: String)
    requires
        crate::text::utf8_len(p@) > PREVIEW_BYTES ==> exists|k: int|
            0 <= k <= p@.len() && crate::text::utf8_len(p@.take(k)) == PREVIEW_BYTES,
    ensures
        crate::text::utf8_len(p@) <= PREVIEW_BYTES ==> r@ == p@,
        crate::text::utf8_len(p@) > PREVIEW_BYTES ==> exists|k: int|
            0 <= k <= p@.len() && crate::text::utf8_len(p@.take(k)) == PREVIEW_BYTES && r@ == p@.take(k)
                + "…"@,
{
    if crate::text::content_longer_than(p, PREVIEW_BYTES) {
        let cut = crate::text::truncate_bytes(p, PREVIEW_BYTES);
        proof {
            let k = choose|k: int| 0 <= k <= p@.len() && crate::text::utf8_len(p@.take(k)) == PREVIEW_BYTES;
            let n = cut@.len() as int;
            if n < k {
                crate::text::lemma_utf8_len_prefix_le(p@.take(k), n + 1);
                assert(p@.take(k).take(n + 1) =~= p@.take(n + 1));
            } else if n > k {
                assert(cut@ =~= p@.take(n));
                assert(k < p@.len());
                crate::text::lemma_utf8_len_prefix_le(p@.take(n), k + 1);
                assert(p@.take(n).take(k + 1) =~= p@.take(k + 1));
                assert(p@.take(k + 1) =~= p@.take(k).push(p@[k]));
                crate::text::lemma_utf8_len_push(p@.take(k), p@[k]);
            }
            assert(n == k);
        }
        let mut r = cut;
        r.append("…");
        r
    } else {
        lit(p)
    }
}

/// The title a note shows in the palette.
pub fn palette_title(title: &str) -> (r: String)
    ensures
        r@ == if title@.len() == 0 {
            "Untitled"@
        } else {
            title@
        },
{
    if title.is_empty() {
        lit("Untitled")
    } else {
        lit(title)
    }
}

// ── Forms ───────────────────────────────────────────────────────────────────

/// A text to translate.
pub struct TranslateParams {
    pub text: String,
    pub from_lang: String,
    pub to_lang: String,
}

/// A translated text to copy.
pub struct TextBody {
    pub text: String,
}

} // verus!
