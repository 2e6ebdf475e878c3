//! Clipboard history: fingerprints of copied content, the monitor that
//! decides what to record, thumbnails of copied images, and the paging and
//! cards of the history list.
use std::collections::hash_map::DefaultHasher;
use std::hash::Hasher;
use vstd::prelude::*;
use vstd::std_specs::hash::DefaultHasherAdditionalSpecFns;

use crate::codec::{base64_encode, png_rgba8, spec_base64, spec_png_rgba8};
use crate::json::opt_view;
use crate::notes::{format_timestamp, is_byte_truncation, spec_format_timestamp, CONTENT_ATTR_MAX, CONTENT_PREVIEW_MAX};
use crate::text::{
    chars_of, content_longer_than, html_escape, lit, replace_all, replace_str, spec_html_escape,
    spec_to_lowercase, spec_trim, starts_with, skip_chars, str_eq, to_lowercase, trim, truncate_bytes,
    utf8_len,
};

verus! {

// ── Fingerprints ────────────────────────────────────────────────────────────

/// The fingerprint of a text: a `DefaultHasher` fed the text's UTF-8 bytes
/// and the `0xff` terminator, as `str`'s `Hash` does.
pub open spec fn spec_content_hash(t: Seq<char>) -> u64 {
    DefaultHasher::spec_finish(seq![vstd::utf8::encode_utf8(t), seq![0xffu8]])
}

/// Fingerprint of a copied text; equal texts have equal fingerprints.
pub fn content_hash(text: &str) -> (r: u64)
    ensures
        r == spec_content_hash(text@),
{
    let mut h = DefaultHasher::new();
    let bytes = text.as_bytes();
    h.write(bytes);
    let mut end: Vec<u8> = Vec::new();
    end.push(0xffu8);
    h.write(end.as_slice());
    proof {
        assert(end@ =~= seq![0xffu8]);
        assert(h@ =~= seq![vstd::utf8::encode_utf8(text@), seq![0xffu8]]);
    }
    h.finish()
}

/// The first `k` base-256 digits of `n`, least significant first.
pub open spec fn le_digits(n: nat, k: nat) -> Seq<u8>
    decreases k,
{
    if k == 0 {
        seq![]
    } else {
        seq![(n % 256) as u8] + le_digits(n / 256, (k - 1) as nat)
    }
}

/// The eight little-endian bytes of a number.
fn le_bytes(n: u64) -> (r: Vec<u8>)
    ensures
        r@ == le_digits(n as nat, 8),
{
    let mut v: Vec<u8> = Vec::new();
    let mut x = n;
    let mut i: usize = 0;
    while i < 8
        invariant
            i <= 8,
            v@ + le_digits(x as nat, (8 - i) as nat) == le_digits(n as nat, 8),
        decreases 8 - i,
    {
        let ghost before = v@;
        v.push((x % 256) as u8);
        proof {
            assert(le_digits(x as nat, (8 - i) as nat) == seq![(x % 256) as u8] + le_digits(
                (x / 256) as nat,
                (8 - i - 1) as nat,
            ));
            assert(before + (seq![(x % 256) as u8] + le_digits((x / 256) as nat, (8 - i - 1) as nat)) =~= v@
                + le_digits((x / 256) as nat, (8 - i - 1) as nat));
        }
        x = x / 256;
        i = i + 1;
    }
    proof {
        assert(v@ + Seq::<u8>::empty() =~= v@);
    }
    v
}

/// How many leading bytes of an image go into its fingerprint.
pub const IMAGE_HASH_PREFIX: usize = 256;

/// The bytes of an image that its fingerprint reads: at most the first
/// `IMAGE_HASH_PREFIX`.
pub open spec fn hashed_prefix(bytes: Seq<u8>) -> Seq<u8> {
    if bytes.len() <= IMAGE_HASH_PREFIX {
        bytes
    } else {
        bytes.take(IMAGE_HASH_PREFIX as int)
    }
}

/// Quick fingerprint of a copied image: its width, height, and its first
/// bytes (with their count), fed to a `DefaultHasher`.
pub fn image_hash(width: u64, height: u64, bytes: &[u8]) -> (r: u64)
    ensures
        r == DefaultHasher::spec_finish(
            seq![
                le_digits(width as nat, 8),
                le_digits(height as nat, 8),
                le_digits(hashed_prefix(bytes@).len(), 8),
                hashed_prefix(bytes@),
            ],
        ),
{
    let n: usize = if bytes.len() < IMAGE_HASH_PREFIX { bytes.len() } else { IMAGE_HASH_PREFIX };
    let mut head: Vec<u8> = Vec::new();
    let mut i: usize = 0;
    while i < n
        invariant
            i <= n,
            n <= bytes@.len(),
            head@ == bytes@.take(i as int),
        decreases n - i,
    {
        head.push(bytes[i]);
        proof {
            assert(bytes@.take(i + 1) =~= bytes@.take(i as int).push(bytes@[i as int]));
        }
        i = i + 1;
    }
    proof {
        if bytes@.len() <= IMAGE_HASH_PREFIX {
            assert(bytes@.take(n as int) =~= bytes@);
        }
    }
    let wb = le_bytes(width);
    let hb = le_bytes(height);
    let nb = le_bytes(n as u64);
    let mut st = DefaultHasher::new();
    st.write(wb.as_slice());
    st.write(hb.as_slice());
    st.write(nb.as_slice());
    st.write(head.as_slice());
    let r = st.finish();
    proof {
        assert(seq![wb@, hb@, nb@, head@] =~= Seq::<Seq<u8>>::empty().push(wb@).push(hb@).push(nb@).push(
            head@,
        ));
    }
    r
}

// ── Monitor ─────────────────────────────────────────────────────────────────

/// What the monitor remembers between polls: the fingerprints of the last
/// recorded (or suppressed) text and of the last recorded image; 0 for none.
#[derive(PartialEq, Eq, Structural, Clone, Copy, Debug)]
pub struct MonitorState {
    pub last_hash: u64,
    pub last_image_hash: u64,
}

/// What one poll of the clipboard found.
pub enum MonitorEvent {
    /// The app itself is about to copy the text with this fingerprint.
    Suppressed(u64),
    /// The clipboard holds an image with this fingerprint.
    Image(u64),
    /// The clipboard holds this text.
    Text(String),
    /// Nothing could be read.
    Nothing,
}

/// What the monitor asks the runner to do after a poll.
pub enum MonitorAction {
    Skip,
    /// Record the image (as a thumbnail entry).
    RecordImage,
    /// Record the text, or the image its path names.
    RecordText(String),
}

/// The state the monitor starts in: the fingerprint of the newest recorded
/// text, so that a restart does not record it again.
pub fn monitor_start(last_content: Option<&str>) -> (s: MonitorState)
    ensures
        s.last_image_hash == 0,
        s.last_hash == match last_content {
            Some(c) => spec_content_hash(c@),
            None => 0,
        },
{
    let last_hash = match last_content {
        Some(c) => content_hash(c),
        None => 0,
    };
    MonitorState { last_hash, last_image_hash: 0 }
}

/// One poll: a suppression replaces the text fingerprint; a new image is
/// recorded and clears the text fingerprint; a non-empty text whose
/// fingerprint differs from the last one is recorded and clears the image
/// fingerprint; anything else is skipped.
pub open spec fn spec_monitor_step(s: MonitorState, e: MonitorEvent) -> (MonitorState, Option<
    Option<Seq<char>>,
>) {
    match e {
        MonitorEvent::Suppressed(h) => (MonitorState { last_hash: h, ..s }, None),
        MonitorEvent::Image(h) => if h != s.last_image_hash {
            (MonitorState { last_hash: 0, last_image_hash: h }, Some(None))
        } else {
            (s, None)
        },
        MonitorEvent::Text(t) => if t@.len() == 0 || spec_content_hash(t@) == s.last_hash {
            (s, None)
        } else {
            (MonitorState { last_hash: spec_content_hash(t@), last_image_hash: 0 }, Some(Some(t@)))
        },
        MonitorEvent::Nothing => (s, None),
    }
}

/// The action as plain values: `None` to skip, `Some(None)` for the image,
/// `Some(Some(text))` for a text.
pub open spec fn action_view(a: MonitorAction) -> Option<Option<Seq<char>>> {
    match a {
        MonitorAction::Skip => None,
        MonitorAction::RecordImage => Some(None),
        MonitorAction::RecordText(t) => Some(Some(t@)),
    }
}

/// Decides what to do with one poll of the clipboard.
pub fn monitor_step(s: MonitorState, e: MonitorEvent) -> (r: (MonitorState, MonitorAction))
    ensures
        (r.0, action_view(r.1)) == spec_monitor_step(s, e),
{
    match e {
        MonitorEvent::Suppressed(h) => (MonitorState { last_hash: h, last_image_hash: s.last_image_hash }, MonitorAction::Skip),
        MonitorEvent::Image(h) => {
            if h != s.last_image_hash {
                (MonitorState { last_hash: 0, last_image_hash: h }, MonitorAction::RecordImage)
            } else {
                (s, MonitorAction::Skip)
            }
        },
        MonitorEvent::Text(t) => {
            if t.as_str().is_empty() {
                return (s, MonitorAction::Skip);
            }
            let h = content_hash(t.as_str());
            if h == s.last_hash {
                (s, MonitorAction::Skip)
            } else {
                (MonitorState { last_hash: h, last_image_hash: 0 }, MonitorAction::RecordText(t))
            }
        },
        MonitorEvent::Nothing => (s, MonitorAction::Skip),
    }
}

// ── Thumbnails ──────────────────────────────────────────────────────────────

/// Largest thumbnail width.
pub const THUMB_W: u32 = 640;

/// Largest thumbnail height.
pub const THUMB_H: u32 = 360;

/// The channel `c` of the thumbnail pixel (`dx`, `dy`) of a `dw`×`dh`
/// nearest-neighbour downsample of a `sw`×`sh` RGBA image: the source pixel
/// (`dx·sw/dw`, `dy·sh/dh`), or 0 where the source bytes end before it.
pub open spec fn spec_thumb_byte(bytes: Seq<u8>, sw: int, sh: int, dw: int, dh: int, dx: int, dy: int, c: int) -> u8 {
    let sx = dx * sw / dw;
    let sy = dy * sh / dh;
    let src = (sy * sw + sx) * 4;
    if src + 4 <= bytes.len() {
        bytes[src + c]
    } else {
        0
    }
}

/// A scaled coordinate stays below the source size.
proof fn lemma_div_below(d: int, s: int, n: int)
    requires
        0 <= d < n,
        s > 0,
    ensures
        0 <= d * s / n < s,
{
    vstd::arithmetic::div_mod::lemma_fundamental_div_mod(d * s, n);
    assert(d * s < n * s) by (nonlinear_arith)
        requires
            0 <= d < n,
            s > 0,
    ;
    assert(0 <= d * s) by (nonlinear_arith)
        requires
            0 <= d,
            s > 0,
    ;
    let q = d * s / n;
    let m = d * s % n;
    assert(0 <= m < n);
    assert(0 <= q) by (nonlinear_arith)
        requires
            d * s == n * q + m,
            0 <= d * s,
            m < n,
            n > 0,
    ;
    assert(q < s) by (nonlinear_arith)
        requires
            d * s == n * q + m,
            d * s < n * s,
            0 <= m,
            n > 0,
    ;
}

/// Nearest-neighbour downsample of RGBA pixels to `dw`×`dh`, row by row.
pub fn downsample(bytes: &[u8], sw: usize, sh: usize, dw: usize, dh: usize) -> (r: Vec<u8>)
    requires
        sw > 0,
        sh > 0,
        dw > 0,
        dh > 0,
        sw * sh * 4 <= usize::MAX,
        dw * sw <= usize::MAX,
        dh * sh <= usize::MAX,
        dw * dh * 4 <= usize::MAX,
    ensures
        r@.len() == dw * dh * 4,
        forall|dy: int, dx: int, c: int|
            0 <= dy < dh && 0 <= dx < dw && 0 <= c < 4 ==> #[trigger] r@[(dy * dw + dx) * 4 + c]
                == spec_thumb_byte(bytes@, sw as int, sh as int, dw as int, dh as int, dx, dy, c),
{
    let mut out: Vec<u8> = Vec::new();
    let mut dy: usize = 0;
    while dy < dh
        invariant
            0 < dw,
            0 < dh,
            0 < sw,
            0 < sh,
            dy <= dh,
            sw * sh * 4 <= usize::MAX,
            dw * sw <= usize::MAX,
            dh * sh <= usize::MAX,
            dw * dh * 4 <= usize::MAX,
            out@.len() == dy * dw * 4,
            forall|y: int, x: int, c: int|
                0 <= y < dy && 0 <= x < dw && 0 <= c < 4 ==> #[trigger] out@[(y * dw + x) * 4 + c]
                    == spec_thumb_byte(bytes@, sw as int, sh as int, dw as int, dh as int, x, y, c),
        decreases dh - dy,
    {
        assert(dy * sh <= dh * sh) by (nonlinear_arith)
            requires
                dy <= dh,
        ;
        let sy: usize = dy * sh / dh;
        proof {
            lemma_div_below(dy as int, sh as int, dh as int);
        }
        let mut dx: usize = 0;
        while dx < dw
            invariant
                0 < dw,
                0 < dh,
                0 < sw,
                0 < sh,
                dy < dh,
                dx <= dw,
                sw * sh * 4 <= usize::MAX,
                dw * sw <= usize::MAX,
                dh * sh <= usize::MAX,
                dw * dh * 4 <= usize::MAX,
                sy == dy * sh / (dh as int),
                sy < sh,
                out@.len() == (dy * dw + dx) * 4,
                forall|y: int, x: int, c: int|
                    ((0 <= y < dy && 0 <= x < dw) || (y == dy && 0 <= x < dx)) && 0 <= c < 4
                        ==> #[trigger] out@[(y * dw + x) * 4 + c] == spec_thumb_byte(
                        bytes@,
                        sw as int,
                        sh as int,
                        dw as int,
                        dh as int,
                        x,
                        y,
                        c,
                    ),
            decreases dw - dx,
        {
            assert(dx * sw <= dw * sw) by (nonlinear_arith)
                requires
                    dx <= dw,
            ;
            let sx: usize = dx * sw / dw;
            proof {
                lemma_div_below(dx as int, sw as int, dw as int);
            }
            assert((dy * dw + dx) * 4 + 4 <= dw * dh * 4) by (nonlinear_arith)
                requires
                    dy < dh,
                    dx < dw,
            ;
            assert((sy * sw + sx) * 4 + 4 <= sw * sh * 4) by (nonlinear_arith)
                requires
                    sy < sh,
                    sx < sw,
            ;
            let base: usize = (sy * sw + sx) * 4;
            let in_range: bool = base + 4 <= bytes.len();
            let ghost before = out@;
            let mut c: usize = 0;
            while c < 4
                invariant
                    c <= 4,
                    out@.len() == before.len() + c,
                    before.len() == (dy * dw + dx) * 4,
                    forall|k: int| 0 <= k < before.len() ==> out@[k] == before[k],
                    forall|k: int|
                        0 <= k < c ==> #[trigger] out@[before.len() + k] == spec_thumb_byte(
                            bytes@,
                            sw as int,
                            sh as int,
                            dw as int,
                            dh as int,
                            dx as int,
                            dy as int,
                            k,
                        ),
                    sx == dx * sw / (dw as int),
                    sy == dy * sh / (dh as int),
                    base == (sy * sw + sx) * 4,
                    in_range == (base + 4 <= bytes@.len()),
                decreases 4 - c,
            {
                let v: u8 = if in_range {
                    bytes[base + c]
                } else {
                    0
                };
                out.push(v);
                c = c + 1;
            }
            proof {
                assert forall|y: int, x: int, c: int|
                    ((0 <= y < dy && 0 <= x < dw) || (y == dy && 0 <= x < dx + 1)) && 0 <= c < 4
                        implies #[trigger] out@[(y * dw + x) * 4 + c] == spec_thumb_byte(
                        bytes@,
                        sw as int,
                        sh as int,
                        dw as int,
                        dh as int,
                        x,
                        y,
                        c,
                    ) by {
                    if y == dy && x == dx {
                        assert(out@[before.len() + c] == spec_thumb_byte(
                            bytes@,
                            sw as int,
                            sh as int,
                            dw as int,
                            dh as int,
                            dx as int,
                            dy as int,
                            c,
                        ));
                    } else {
                        assert((y * dw + x) * 4 + c < before.len()) by (nonlinear_arith)
                            requires
                                (0 <= y < dy && 0 <= x < dw) || (y == dy && 0 <= x < dx),
                                0 <= c < 4,
                                before.len() == (dy * dw + dx) * 4,
                        ;
                        assert(out@[(y * dw + x) * 4 + c] == before[(y * dw + x) * 4 + c]);
                    }
                }
            }
            dx = dx + 1;
        }
        assert((dy * dw + dw) * 4 == (dy + 1) * dw * 4) by (nonlinear_arith);
        dy = dy + 1;
    }
    proof {
        assert(dh * dw * 4 == dw * dh * 4) by (nonlinear_arith);
    }
    out
}

/// The thumbnail of an image (RGBA pixels) shrunk to `dw`×`dh`: the
/// downsampled pixels as PNG, in Base64; empty for an empty image or when
/// the encoder refuses.
pub fn make_thumbnail(bytes: &[u8], sw: usize, sh: usize, dw: u32, dh: u32) -> (r: String)
    requires
        dw > 0,
        dh > 0,
        sw * sh * 4 <= usize::MAX,
        dw * sw <= usize::MAX,
        dh * sh <= usize::MAX,
        dw * dh * 4 <= usize::MAX,
    ensures
        sw == 0 || sh == 0 ==> r@.len() == 0,
        sw > 0 && sh > 0 ==> exists|px: Seq<u8>|
            {
                &&& px.len() == dw * dh * 4
                &&& forall|dy: int, dx: int, c: int|
                    0 <= dy < dh && 0 <= dx < dw && 0 <= c < 4 ==> #[trigger] px[(dy * dw + dx) * 4 + c]
                        == spec_thumb_byte(bytes@, sw as int, sh as int, dw as int, dh as int, dx, dy, c)
                &&& r@ == match spec_png_rgba8(dw, dh, px) {
                    Some(png) => spec_base64(png),
                    None => seq![],
                }
            },
{
    if sw == 0 || sh == 0 {
        return String::new();
    }
    let px = downsample(bytes, sw, sh, dw as usize, dh as usize);
    match png_rgba8(dw, dh, px.as_slice()) {
        Some(png) => base64_encode(png.as_slice()),
        None => String::new(),
    }
}

// ── Copied file paths ───────────────────────────────────────────────────────

/// The path a copied text names: the trimmed text, or, for a `file://` URI,
/// what follows with `%20`, `%28` and `%29` decoded.
pub open spec fn spec_copied_path(text: Seq<char>) -> Seq<char> {
    let t = spec_trim(text);
    if t.len() >= 7 && t.take(7) == "file://"@ {
        replace_all(replace_all(replace_all(t.skip(7), "%20"@, " "@), "%28"@, "("@), "%29"@, ")"@)
    } else {
        t
    }
}

/// Extensions of the image files a copied path may name.
pub open spec fn is_image_extension(e: Seq<char>) -> bool {
    e == "png"@ || e == "jpg"@ || e == "jpeg"@ || e == "gif"@ || e == "bmp"@ || e == "webp"@
}

/// The image file a copied text names, judged by its extension
/// (lower-cased); whether it exists is for the caller to find out.
pub open spec fn spec_image_path(text: Seq<char>) -> Option<Seq<char>> {
    let p = spec_copied_path(text);
    match crate::paths::spec_extension(p) {
        Some(e) => if is_image_extension(spec_to_lowercase(e)) {
            Some(p)
        } else {
            None
        },
        None => None,
    }
}

fn copied_path(text: &str) -> (r: String)
    ensures
        r@ == spec_copied_path(text@),
{
    let t = trim(text);
    let ghost tv = t@;
    if starts_with(t.as_str(), "file://") {
        proof {
            reveal_strlit("file://");
            reveal_strlit("%20");
            reveal_strlit("%28");
            reveal_strlit("%29");
        }
        let rest = skip_chars(t.as_str(), 7);
        let a = replace_str(rest.as_str(), "%20", " ");
        let b = replace_str(a.as_str(), "%28", "(");
        replace_str(b.as_str(), "%29", ")")
    } else {
        proof {
            reveal_strlit("file://");
        }
        t
    }
}

/// The image file a copied text names, if its extension is an image one.
pub fn image_path(text: &str) -> (r: Option<String>)
    ensures
        opt_view(r) == spec_image_path(text@),
{
    let p = copied_path(text);
    match crate::paths::extension_of(p.as_str()) {
        Some(e) => {
            let low = to_lowercase(e.as_str());
            let s = low.as_str();
            if str_eq(s, "png") || str_eq(s, "jpg") || str_eq(s, "jpeg") || str_eq(s, "gif") || str_eq(
                s,
                "bmp",
            ) || str_eq(s, "webp") {
                Some(p)
            } else {
                None
            }
        },
        None => None,
    }
}

// ── History list ────────────────────────────────────────────────────────────

/// Entries per page of the history list.
pub const PAGE: i64 = 20;

/// Query of the history list: search text, page size and offset.
pub struct ListQuery {
    pub q: String,
    pub limit: i64,
    pub offset: i64,
}

/// The page size when the query gives none.
pub fn default_limit() -> (r: i64)
    ensures
        r == PAGE,
{
    PAGE
}

/// How a fetched page is shown: whether a "load more" sentinel follows, how
/// many rows are kept, and the offset of the next page.
pub struct PageInfo {
    pub has_more: bool,
    pub keep: usize,
    pub next_offset: i64,
}

/// Pages the history: one row more than the limit is fetched to learn
/// whether another page exists (never while searching); the extra row is
/// dropped (the limit read as `usize`, as the list truncates).
pub fn list_page(limit: i64, offset: i64, searching: bool, rows: usize) -> (r: PageInfo)
    requires
        i64::MIN <= offset + limit <= i64::MAX,
    ensures
        r.has_more == (rows > (limit as usize) && !searching),
        r.keep == if rows > (limit as usize) {
            limit as usize
        } else {
            rows
        },
        r.next_offset == offset + limit,
{
    let lim = limit as usize;
    PageInfo {
        has_more: rows > lim && !searching,
        keep: if rows > lim {
            lim
        } else {
            rows
        },
        next_offset: offset + limit,
    }
}

/// The rows to fetch for a page: one more than the limit.
pub fn fetch_limit(limit: i64) -> (r: i64)
    requires
        limit < i64::MAX,
    ensures
        r == limit + 1,
{
    limit + 1
}

/// The values a history card shows, escaped for HTML.
pub struct EntryCard {
    pub id: String,
    pub pinned: bool,
    /// An image entry (shown by its thumbnail), else a text entry.
    pub is_image: bool,
    pub thumb: Option<String>,
    /// The text for the data attribute, cut to `CONTENT_ATTR_MAX` bytes
    /// (empty for images).
    pub attr_content: String,
    pub truncated: bool,
    /// The text for the preview, cut to `CONTENT_PREVIEW_MAX` bytes.
    pub preview: String,
    pub time_label: String,
}

/// Computes what the card of a history entry shows.
pub fn entry_card(
    now: i64,
    id: &str,
    content: &str,
    created_at: i64,
    content_type: &str,
    image_thumb: Option<String>,
    pinned: bool,
) -> (r: EntryCard)
    requires
        i64::MIN <= now - created_at <= i64::MAX,
    ensures
        r.id@ == id@,
        r.pinned == pinned,
        r.is_image == (content_type@ == "image"@),
        r.is_image ==> opt_view(r.thumb) == opt_view(image_thumb) && r.attr_content@.len() == 0
            && !r.truncated,
        !r.is_image ==> {
            &&& r.truncated == (utf8_len(content@) > CONTENT_ATTR_MAX)
            &&& exists|a: Seq<char>|
                is_byte_truncation(a, content@, CONTENT_ATTR_MAX as int) && r.attr_content@
                    == spec_html_escape(a)
            &&& exists|p: Seq<char>|
                is_byte_truncation(p, content@, CONTENT_PREVIEW_MAX as int) && r.preview@
                    == spec_html_escape(p)
        },
        r.time_label@ == spec_format_timestamp(now as int, created_at as int),
{
    let time_label = format_timestamp(now, created_at);
    if str_eq(content_type, "image") {
        EntryCard {
            id: lit(id),
            pinned,
            is_image: true,
            thumb: image_thumb,
            attr_content: String::new(),
            truncated: false,
            preview: String::new(),
            time_label,
        }
    } else {
        let attr = truncate_bytes(content, CONTENT_ATTR_MAX);
        let prev = truncate_bytes(content, CONTENT_PREVIEW_MAX);
        EntryCard {
            id: lit(id),
            pinned,
            is_image: false,
            thumb: image_thumb,
            attr_content: html_escape(attr.as_str()),
            truncated: content_longer_than(content, CONTENT_ATTR_MAX),
            preview: html_escape(prev.as_str()),
            time_label,
        }
    }
}

// ── Laws of the monitor ─────────────────────────────────────────────────────

/// A text the app copies itself, announced by its fingerprint first, is not
/// recorded when the monitor then finds it on the clipboard.
pub proof fn lemma_suppressed_text_not_recorded(s: MonitorState, t: String)
    ensures
        ({
            let s1 = spec_monitor_step(s, MonitorEvent::Suppressed(spec_content_hash(t@))).0;
            spec_monitor_step(s1, MonitorEvent::Text(t)).1 is None
        }),
{
}

/// A recorded text is recorded once: finding it again on the next poll
/// records nothing and changes nothing.
pub proof fn lemma_text_recorded_once(s: MonitorState, t: String)
    requires
        spec_monitor_step(s, MonitorEvent::Text(t)).1 is Some,
    ensures
        ({
            let s1 = spec_monitor_step(s, MonitorEvent::Text(t)).0;
            &&& spec_monitor_step(s1, MonitorEvent::Text(t)).1 is None
            &&& spec_monitor_step(s1, MonitorEvent::Text(t)).0 == s1
        }),
{
}

/// The same holds of images: an image is recorded once while it stays on
/// the clipboard.
pub proof fn lemma_image_recorded_once(s: MonitorState, h: u64)
    requires
        spec_monitor_step(s, MonitorEvent::Image(h)).1 is Some,
    ensures
        ({
            let s1 = spec_monitor_step(s, MonitorEvent::Image(h)).0;
            spec_monitor_step(s1, MonitorEvent::Image(h)).1 is None
        }),
{
}

/// After a new image, the text that was on the clipboard before is recorded
/// again when it comes back (unless it is empty).
pub proof fn lemma_text_after_image_recorded(s: MonitorState, h: u64, t: String)
    requires
        spec_monitor_step(s, MonitorEvent::Image(h)).1 is Some,
        t@.len() > 0,
        spec_content_hash(t@) != 0,
    ensures
        ({
            let s1 = spec_monitor_step(s, MonitorEvent::Image(h)).0;
            spec_monitor_step(s1, MonitorEvent::Text(t)).1 == Some(Some(t@))
        }),
{
}

} // verus!
