//! Character-level helpers shared by the tools: classification, escaping,
//! conversion between `&str` and character vectors.
use vstd::prelude::*;

verus! {

/// `String::push` appends one character at the end.
pub assume_specification[ String::push ](s: &mut String, ch: char)
    ensures
        final(s)@ == old(s)@.push(ch),
;

/// Collects the characters of a string slice, in order.
pub fn chars_of(s: &str) -> (v: Vec<char>)
    ensures
        v@ == s@,
{
    let mut v: Vec<char> = Vec::new();
    for c in it: s.chars()
        invariant
            v@ == it.seq().take(it.index() as int),
    {
        v.push(c);
    }
    v
}

/// Builds a `String` from a character sequence.
pub fn string_from_chars(v: &Vec<char>) -> (s: String)
    ensures
        s@ == v@,
{
    let mut s = String::new();
    let mut i: usize = 0;
    while i < v.len()
        invariant
            i <= v.len(),
            s@ == v@.take(i as int),
        decreases v.len() - i,
    {
        s.push(v[i]);
        proof {
            assert(v@.take(i as int + 1) == v@.take(i as int).push(v@[i as int]));
        }
        i = i + 1;
    }
    proof {
        assert(v@.take(v.len() as int) == v@);
    }
    s
}


// ── Character classes ───────────────────────────────────────────────────────

/// ASCII letter (`u8::is_ascii_alphabetic` / `char::is_ascii_alphabetic`).
pub open spec fn is_ascii_alpha(c: char) -> bool {
    ('a' <= c && c <= 'z') || ('A' <= c && c <= 'Z')
}

/// ASCII letter or digit.
pub open spec fn is_ascii_alnum(c: char) -> bool {
    is_ascii_alpha(c) || ('0' <= c && c <= '9')
}

/// Character allowed inside an inline tag after its first letter.
pub open spec fn is_tag_char(c: char) -> bool {
    is_ascii_alnum(c) || c == '_' || c == '/'
}

/// ASCII whitespace as `u8::is_ascii_whitespace` defines it: space, tab,
/// line feed, form feed and carriage return (not the vertical tab).
pub open spec fn is_ascii_ws(c: char) -> bool {
    c == ' ' || c == '\t' || c == '\n' || c == '\x0C' || c == '\r'
}

/// Characters with the Unicode `White_Space` property (`char::is_whitespace`).
pub open spec fn is_unicode_ws(c: char) -> bool {
    ('\t' <= c && c <= '\r') || c == ' ' || c == '\u{85}' || c == '\u{A0}'
        || c == '\u{1680}' || ('\u{2000}' <= c && c <= '\u{200A}') || c == '\u{2028}'
        || c == '\u{2029}' || c == '\u{202F}' || c == '\u{205F}' || c == '\u{3000}'
}

/// ASCII lower-casing of one character; other characters are unchanged.
pub open spec fn ascii_lower(c: char) -> char {
    if 'A' <= c && c <= 'Z' {
        ((c as u32) + 32) as char
    } else {
        c
    }
}

pub fn char_is_ascii_alpha(c: char) -> (b: bool)
    ensures
        b == is_ascii_alpha(c),
{
    (c >= 'a' && c <= 'z') || (c >= 'A' && c <= 'Z')
}

pub fn char_is_tag_char(c: char) -> (b: bool)
    ensures
        b == is_tag_char(c),
{
    char_is_ascii_alpha(c) || (c >= '0' && c <= '9') || c == '_' || c == '/'
}

pub fn char_is_ascii_ws(c: char) -> (b: bool)
    ensures
        b == is_ascii_ws(c),
{
    c == ' ' || c == '\t' || c == '\n' || c == '\x0C' || c == '\r'
}

pub fn char_is_unicode_ws(c: char) -> (b: bool)
    ensures
        b == is_unicode_ws(c),
{
    (c >= '\t' && c <= '\r') || c == ' ' || c == '\u{85}' || c == '\u{A0}' || c == '\u{1680}'
        || (c >= '\u{2000}' && c <= '\u{200A}') || c == '\u{2028}' || c == '\u{2029}'
        || c == '\u{202F}' || c == '\u{205F}' || c == '\u{3000}'
}

pub fn char_ascii_lower(c: char) -> (r: char)
    ensures
        r == ascii_lower(c),
{
    if c >= 'A' && c <= 'Z' {
        let u: u32 = (c as u32) + 32;
        proof {
            assert(0x61 <= u <= 0x7A);
        }
        char_from_ascii_code(u)
    } else {
        c
    }
}

/// The character whose code is `u`, for an ASCII code.
fn char_from_ascii_code(u: u32) -> (c: char)
    requires
        u < 0x80,
    ensures
        c == u as char,
{
    let b: u8 = u as u8;
    b as char
}


// ── Escaping ────────────────────────────────────────────────────────────────

/// The HTML escape of one character: `&`, `<`, `>` and `"` become entities.
pub open spec fn html_escape_char(c: char) -> Seq<char> {
    if c == '&' {
        seq!['&', 'a', 'm', 'p', ';']
    } else if c == '<' {
        seq!['&', 'l', 't', ';']
    } else if c == '>' {
        seq!['&', 'g', 't', ';']
    } else if c == '"' {
        seq!['&', 'q', 'u', 'o', 't', ';']
    } else {
        seq![c]
    }
}

/// Escape of a whole text, character by character.
pub open spec fn spec_html_escape(s: Seq<char>) -> Seq<char>
    decreases s.len(),
{
    if s.len() == 0 {
        seq![]
    } else {
        spec_html_escape(s.drop_last()) + html_escape_char(s.last())
    }
}

/// The `LIKE`-pattern escape of one character: `\`, `%` and `_` get a
/// leading backslash.
pub open spec fn like_escape_char(c: char) -> Seq<char> {
    if c == '\\' || c == '%' || c == '_' {
        seq!['\\', c]
    } else {
        seq![c]
    }
}

pub open spec fn spec_like_escape(s: Seq<char>) -> Seq<char>
    decreases s.len(),
{
    if s.len() == 0 {
        seq![]
    } else {
        spec_like_escape(s.drop_last()) + like_escape_char(s.last())
    }
}

/// Appends the characters of `piece` to `out`.
pub fn push_chars(out: &mut String, piece: &[char])
    ensures
        final(out)@ == old(out)@ + piece@,
{
    let mut i: usize = 0;
    while i < piece.len()
        invariant
            i <= piece.len(),
            out@ == old(out)@ + piece@.take(i as int),
        decreases piece.len() - i,
    {
        out.push(piece[i]);
        proof {
            assert(piece@.take(i as int + 1) == piece@.take(i as int).push(piece@[i as int]));
        }
        i = i + 1;
    }
    proof {
        assert(piece@.take(piece.len() as int) == piece@);
    }
}

/// Escapes `&`, `<`, `>` and `"` for inclusion in HTML text and attributes.
pub fn html_escape(s: &str) -> (r: String)
    ensures
        r@ == spec_html_escape(s@),
{
    let cs = chars_of(s);
    let mut out = String::new();
    let mut i: usize = 0;
    while i < cs.len()
        invariant
            i <= cs.len(),
            cs@ == s@,
            out@ == spec_html_escape(cs@.take(i as int)),
        decreases cs.len() - i,
    {
        let c = cs[i];
        if c == '&' {
            push_chars(&mut out, &['&', 'a', 'm', 'p', ';']);
        } else if c == '<' {
            push_chars(&mut out, &['&', 'l', 't', ';']);
        } else if c == '>' {
            push_chars(&mut out, &['&', 'g', 't', ';']);
        } else if c == '"' {
            push_chars(&mut out, &['&', 'q', 'u', 'o', 't', ';']);
        } else {
            out.push(c);
        }
        proof {
            assert(cs@.take(i as int + 1).drop_last() == cs@.take(i as int));
        }
        i = i + 1;
    }
    proof {
        assert(cs@.take(cs.len() as int) == cs@);
    }
    out
}

/// Escapes a user-supplied search string for a SQLite `LIKE` pattern used
/// with `ESCAPE '\'`: `\` becomes `\\`, `%` becomes `\%`, `_` becomes `\_`.
pub fn like_escape(s: &str) -> (r: String)
    ensures
        r@ == spec_like_escape(s@),
{
    let cs = chars_of(s);
    let mut out = String::new();
    let mut i: usize = 0;
    while i < cs.len()
        invariant
            i <= cs.len(),
            cs@ == s@,
            out@ == spec_like_escape(cs@.take(i as int)),
        decreases cs.len() - i,
    {
        let c = cs[i];
        if c == '\\' || c == '%' || c == '_' {
            out.push('\\');
        }
        out.push(c);
        proof {
            assert(cs@.take(i as int + 1).drop_last() == cs@.take(i as int));
        }
        i = i + 1;
    }
    proof {
        assert(cs@.take(cs.len() as int) == cs@);
    }
    out
}

// ── UTF-8 length and byte truncation ────────────────────────────────────────

/// Number of bytes of the UTF-8 encoding of a text.
pub open spec fn utf8_len(s: Seq<char>) -> nat {
    vstd::utf8::encode_utf8(s).len()
}

/// Number of bytes of the UTF-8 encoding of one character.
pub open spec fn char_utf8_width(c: char) -> nat {
    if (c as u32) < 0x80 {
        1
    } else if (c as u32) < 0x800 {
        2
    } else if (c as u32) < 0x10000 {
        3
    } else {
        4
    }
}

proof fn lemma_encode_scalar_len(c: char)
    ensures
        vstd::utf8::encode_scalar(c as u32).len() == char_utf8_width(c),
{
    broadcast use vstd::utf8::char_is_scalar;

    assert(vstd::utf8::is_scalar(c as u32));
}

/// The UTF-8 length grows by the width of each appended character.
pub proof fn lemma_utf8_len_push(s: Seq<char>, c: char)
    ensures
        utf8_len(s.push(c)) == utf8_len(s) + char_utf8_width(c),
    decreases s.len(),
{
    lemma_encode_scalar_len(c);
    if s.len() == 0 {
        assert(s.push(c).drop_first() == Seq::<char>::empty());
        assert(vstd::utf8::encode_utf8(Seq::<char>::empty()) == Seq::<u8>::empty());
    } else {
        assert(s.push(c).drop_first() == s.drop_first().push(c));
        lemma_utf8_len_push(s.drop_first(), c);
        lemma_encode_scalar_len(s[0]);
    }
}

/// Width of one character, computed.
pub fn utf8_width(c: char) -> (w: usize)
    ensures
        w == char_utf8_width(c),
        1 <= w <= 4,
{
    let u = c as u32;
    if u < 0x80 {
        1
    } else if u < 0x800 {
        2
    } else if u < 0x10000 {
        3
    } else {
        4
    }
}

/// The longest prefix of `s` whose UTF-8 encoding fits in `max` bytes
/// (the prefix ends on a character boundary).
pub fn truncate_bytes(s: &str, max: usize) -> (r: String)
    ensures
        r@.len() <= s@.len(),
        r@ == s@.take(r@.len() as int),
        utf8_len(r@) <= max,
        r@.len() < s@.len() ==> utf8_len(s@.take(r@.len() + 1 as int)) > max,
{
    let cs = chars_of(s);
    let mut out = String::new();
    let mut used: usize = 0;
    let mut i: usize = 0;
    proof {
        assert(cs@.take(0) == Seq::<char>::empty());
    }
    while i < cs.len()
        invariant
            i <= cs.len(),
            cs@ == s@,
            out@ == cs@.take(i as int),
            used == utf8_len(cs@.take(i as int)),
            used <= max,
        decreases cs.len() - i,
    {
        let w = utf8_width(cs[i]);
        proof {
            assert(cs@.take(i as int + 1) == cs@.take(i as int).push(cs@[i as int]));
            lemma_utf8_len_push(cs@.take(i as int), cs@[i as int]);
        }
        if w > max - used {
            return out;
        }
        out.push(cs[i]);
        used = used + w;
        i = i + 1;
    }
    proof {
        assert(cs@.take(cs.len() as int) == cs@);
    }
    out
}


// ── Trimming ────────────────────────────────────────────────────────────────

/// `s` without its leading Unicode whitespace.
pub open spec fn trim_start(s: Seq<char>) -> Seq<char>
    decreases s.len(),
{
    if s.len() > 0 && is_unicode_ws(s[0]) {
        trim_start(s.drop_first())
    } else {
        s
    }
}

/// `s` without its trailing Unicode whitespace.
pub open spec fn trim_end(s: Seq<char>) -> Seq<char>
    decreases s.len(),
{
    if s.len() > 0 && is_unicode_ws(s.last()) {
        trim_end(s.drop_last())
    } else {
        s
    }
}

/// `str::trim`: without leading and trailing Unicode whitespace.
pub open spec fn spec_trim(s: Seq<char>) -> Seq<char> {
    trim_end(trim_start(s))
}

/// `s` without the copies of `c` at its end (`trim_end_matches(c)`).
pub open spec fn trim_end_char(s: Seq<char>, c: char) -> Seq<char>
    decreases s.len(),
{
    if s.len() > 0 && s.last() == c {
        trim_end_char(s.drop_last(), c)
    } else {
        s
    }
}

/// Leading whitespace can be skipped before trimming the start.
pub proof fn lemma_trim_start_skip(s: Seq<char>, i: int)
    requires
        0 <= i <= s.len(),
        forall|k: int| 0 <= k < i ==> is_unicode_ws(#[trigger] s[k]),
    ensures
        trim_start(s) == trim_start(s.skip(i)),
    decreases i,
{
    if i > 0 {
        assert(s.drop_first().skip(i - 1) == s.skip(i));
        lemma_trim_start_skip(s.drop_first(), i - 1);
    } else {
        assert(s.skip(0) == s);
    }
}

proof fn lemma_trim_end_take(s: Seq<char>, j: int)
    requires
        0 <= j <= s.len(),
        forall|k: int| j <= k < s.len() ==> is_unicode_ws(#[trigger] s[k]),
    ensures
        trim_end(s) == trim_end(s.take(j)),
    decreases s.len() - j,
{
    if j < s.len() {
        assert(s.drop_last().take(j) == s.take(j));
        lemma_trim_end_take(s.drop_last(), j);
    } else {
        assert(s.take(j) == s);
    }
}

/// Removes leading and trailing Unicode whitespace.
pub fn trim_chars(cs: &Vec<char>) -> (r: Vec<char>)
    ensures
        r@ == spec_trim(cs@),
{
    let n = cs.len();
    let mut i: usize = 0;
    while i < n && char_is_unicode_ws(cs[i])
        invariant
            i <= n,
            n == cs.len(),
            forall|k: int| 0 <= k < i ==> is_unicode_ws(#[trigger] cs@[k]),
        decreases n - i,
    {
        i = i + 1;
    }
    proof {
        lemma_trim_start_skip(cs@, i as int);
    }
    let mut j: usize = n;
    while j > i && char_is_unicode_ws(cs[j - 1])
        invariant
            i <= j <= n,
            n == cs.len(),
            forall|k: int| j <= k < n ==> is_unicode_ws(#[trigger] cs@[k]),
        decreases j,
    {
        j = j - 1;
    }
    let ghost t = cs@.skip(i as int);
    proof {
        if i < n {
            assert(t[0] == cs@[i as int]);
            assert(!is_unicode_ws(t[0]));
        } else {
            assert(t.len() == 0);
        }
        assert(trim_start(t) == t);
        lemma_trim_end_take(t, j - i);
        if j > i {
            assert(t.take(j - i).last() == cs@[j - 1]);
        }
        assert(trim_end(t.take(j - i)) == t.take(j - i));
    }
    let mut r: Vec<char> = Vec::new();
    let mut k: usize = i;
    while k < j
        invariant
            i <= k <= j,
            j <= cs.len(),
            r@ == cs@.subrange(i as int, k as int),
        decreases j - k,
    {
        r.push(cs[k]);
        proof {
            assert(cs@.subrange(i as int, k + 1) == cs@.subrange(i as int, k as int).push(cs@[k as int]));
        }
        k = k + 1;
    }
    proof {
        assert(t.take(j - i) == cs@.subrange(i as int, j as int));
    }
    r
}

/// `str::trim` on a string slice.
pub fn trim(s: &str) -> (r: String)
    ensures
        r@ == spec_trim(s@),
{
    let cs = chars_of(s);
    let t = trim_chars(&cs);
    string_from_chars(&t)
}

/// Removes the copies of `c` at the end of the text held in `v`.
pub fn truncate_trailing(v: &mut Vec<char>, c: char)
    ensures
        final(v)@ == trim_end_char(old(v)@, c),
{
    while v.len() > 0 && v[v.len() - 1] == c
        invariant
            trim_end_char(v@, c) == trim_end_char(old(v)@, c),
        decreases v.len(),
    {
        let ghost before = v@;
        v.pop();
        proof {
            assert(v@ == before.drop_last());
        }
    }
}

// ── Lower-casing ASCII ──────────────────────────────────────────────────────

pub open spec fn spec_ascii_lowercase(s: Seq<char>) -> Seq<char> {
    s.map_values(|c: char| ascii_lower(c))
}

/// ASCII lower-casing of a character sequence.
pub fn ascii_lowercase(cs: &Vec<char>) -> (r: Vec<char>)
    ensures
        r@ == spec_ascii_lowercase(cs@),
{
    let mut r: Vec<char> = Vec::new();
    let mut i: usize = 0;
    while i < cs.len()
        invariant
            i <= cs.len(),
            r@ == spec_ascii_lowercase(cs@.take(i as int)),
        decreases cs.len() - i,
    {
        r.push(char_ascii_lower(cs[i]));
        proof {
            assert(spec_ascii_lowercase(cs@.take(i as int + 1)) == spec_ascii_lowercase(
                cs@.take(i as int),
            ).push(ascii_lower(cs@[i as int])));
        }
        i = i + 1;
    }
    proof {
        assert(cs@.take(cs.len() as int) == cs@);
    }
    r
}

// ── Decimal rendering of integers ───────────────────────────────────────────

pub open spec fn digit_char(d: nat) -> char {
    if d == 0 { '0' } else if d == 1 { '1' } else if d == 2 { '2' } else if d == 3 { '3' }
    else if d == 4 { '4' } else if d == 5 { '5' } else if d == 6 { '6' } else if d == 7 { '7' }
    else if d == 8 { '8' } else { '9' }
}

/// Decimal digits of a natural number, without leading zeros.
pub open spec fn nat_digits(n: nat) -> Seq<char>
    decreases n,
{
    if n < 10 {
        seq![digit_char(n)]
    } else {
        nat_digits(n / 10).push(digit_char(n % 10))
    }
}

/// Decimal rendering of an integer, as `Display` writes it.
pub open spec fn int_decimal(n: int) -> Seq<char> {
    if n < 0 {
        seq!['-'] + nat_digits((-n) as nat)
    } else {
        nat_digits(n as nat)
    }
}

fn exec_digit_char(d: u64) -> (c: char)
    requires
        d < 10,
    ensures
        c == digit_char(d as nat),
{
    if d == 0 { '0' } else if d == 1 { '1' } else if d == 2 { '2' } else if d == 3 { '3' }
    else if d == 4 { '4' } else if d == 5 { '5' } else if d == 6 { '6' } else if d == 7 { '7' }
    else if d == 8 { '8' } else { '9' }
}

/// Appends the decimal digits of `n`.
pub fn push_u64(out: &mut String, n: u64)
    ensures
        final(out)@ == old(out)@ + nat_digits(n as nat),
    decreases n,
{
    if n < 10 {
        out.push(exec_digit_char(n));
    } else {
        push_u64(out, n / 10);
        out.push(exec_digit_char(n % 10));
        proof {
            assert(old(out)@ + nat_digits(n as nat) == (old(out)@ + nat_digits((n / 10) as nat)).push(
                digit_char((n % 10) as nat),
            ));
        }
    }
}

/// Appends the decimal rendering of `n`.
pub fn push_i64(out: &mut String, n: i64)
    ensures
        final(out)@ == old(out)@ + int_decimal(n as int),
{
    if n < 0 {
        out.push('-');
        let m: u64 = ((-(n + 1)) as u64) + 1;
        push_u64(out, m);
        proof {
            assert(old(out)@ + int_decimal(n as int) == old(out)@.push('-') + nat_digits(m as nat));
        }
    } else {
        push_u64(out, n as u64);
    }
}

/// Decimal rendering of a signed integer.
pub fn i64_to_string(n: i64) -> (r: String)
    ensures
        r@ == int_decimal(n as int),
{
    let mut s = String::new();
    push_i64(&mut s, n);
    s
}


// ── Unicode lower-casing ────────────────────────────────────────────────────

/// What `str::to_lowercase` returns for a text (full Unicode case mapping).
pub uninterp spec fn spec_to_lowercase(s: Seq<char>) -> Seq<char>;

/// `str::to_lowercase`: the lowercase equivalent of a string slice as the
/// Unicode `Lowercase` property defines it. The contract names the result
/// and states nothing more of it.
#[verifier::external_body]
pub(crate) fn to_lowercase(s: &str) -> (r: String)
    ensures
        r@ == spec_to_lowercase(s@),
{
    s.to_lowercase()
}

/// A string holding the characters of a literal.
pub fn lit(s: &str) -> (r: String)
    ensures
        r@ == s@,
{
    s.to_owned()
}


/// Are the two string slices the same text?
pub fn str_eq(a: &str, b: &str) -> (r: bool)
    ensures
        r == (a@ == b@),
{
    let x = chars_of(a);
    let y = chars_of(b);
    if x.len() != y.len() {
        return false;
    }
    let mut i: usize = 0;
    while i < x.len()
        invariant
            i <= x.len(),
            x.len() == y.len(),
            x@ == a@,
            y@ == b@,
            forall|k: int| 0 <= k < i ==> x@[k] == y@[k],
        decreases x.len() - i,
    {
        if x[i] != y[i] {
            return false;
        }
        i = i + 1;
    }
    proof {
        assert(x@ =~= y@);
    }
    true
}

/// Does `s` start with `prefix`?
pub fn starts_with(s: &str, prefix: &str) -> (r: bool)
    ensures
        r == (prefix@.len() <= s@.len() && s@.take(prefix@.len() as int) == prefix@),
{
    let x = chars_of(s);
    let y = chars_of(prefix);
    if y.len() > x.len() {
        return false;
    }
    let mut i: usize = 0;
    while i < y.len()
        invariant
            i <= y.len(),
            y.len() <= x.len(),
            x@ == s@,
            y@ == prefix@,
            forall|k: int| 0 <= k < i ==> x@[k] == y@[k],
        decreases y.len() - i,
    {
        if x[i] != y[i] {
            proof {
                assert(x@.take(y.len() as int)[i as int] != y@[i as int]);
            }
            return false;
        }
        i = i + 1;
    }
    proof {
        assert(x@.take(y.len() as int) =~= y@);
    }
    true
}

/// Does `s` end with `suffix`?
pub fn ends_with(s: &str, suffix: &str) -> (r: bool)
    ensures
        r == (suffix@.len() <= s@.len() && s@.skip(s@.len() - suffix@.len()) == suffix@),
{
    let x = chars_of(s);
    let y = chars_of(suffix);
    if y.len() > x.len() {
        return false;
    }
    let off = x.len() - y.len();
    let mut i: usize = 0;
    while i < y.len()
        invariant
            i <= y.len(),
            off + y.len() == x.len(),
            x@ == s@,
            y@ == suffix@,
            forall|k: int| 0 <= k < i ==> x@[off + k] == y@[k],
        decreases y.len() - i,
    {
        if x[off + i] != y[i] {
            proof {
                assert(x@.skip(off as int)[i as int] != y@[i as int]);
            }
            return false;
        }
        i = i + 1;
    }
    proof {
        assert(x@.skip(off as int) =~= y@);
    }
    true
}

/// The text after the first `len` characters.
pub fn skip_chars(s: &str, len: usize) -> (r: String)
    requires
        len <= s@.len(),
    ensures
        r@ == s@.skip(len as int),
{
    let x = chars_of(s);
    let mut out = String::new();
    let mut i = len;
    while i < x.len()
        invariant
            len <= i <= x.len(),
            x@ == s@,
            out@ == x@.subrange(len as int, i as int),
        decreases x.len() - i,
    {
        out.push(x[i]);
        proof {
            assert(x@.subrange(len as int, i + 1) == x@.subrange(len as int, i as int).push(x@[i as int]));
        }
        i = i + 1;
    }
    proof {
        assert(x@.skip(len as int) =~= x@.subrange(len as int, x.len() as int));
    }
    out
}


// ── Lines ───────────────────────────────────────────────────────────────────

/// The pieces of `s` between occurrences of `sep`: one more than there are
/// separators.
pub open spec fn split_on(s: Seq<char>, sep: char) -> Seq<Seq<char>>
    decreases s.len(),
{
    if s.len() == 0 {
        seq![seq![]]
    } else {
        let prev = split_on(s.drop_last(), sep);
        if s.last() == sep {
            prev.push(seq![])
        } else {
            prev.update(prev.len() - 1, prev.last().push(s.last()))
        }
    }
}

/// A line that ended with a line feed loses one carriage return before it.
pub open spec fn strip_cr(l: Seq<char>) -> Seq<char> {
    if l.len() > 0 && l.last() == '\r' {
        l.drop_last()
    } else {
        l
    }
}

/// `str::lines`: the text split at `\n` (a `\r` just before it is dropped);
/// a final line ending adds no empty line, and an empty text has no line.
pub open spec fn spec_lines(s: Seq<char>) -> Seq<Seq<char>> {
    let p = split_on(s, '\n');
    let terminated = p.drop_last().map_values(|l: Seq<char>| strip_cr(l));
    if p.last().len() == 0 {
        terminated
    } else {
        terminated.push(p.last())
    }
}

/// The lines of a text joined by `\n`.
pub open spec fn join_lines(l: Seq<Seq<char>>) -> Seq<char>
    decreases l.len(),
{
    if l.len() == 0 {
        seq![]
    } else if l.len() == 1 {
        l[0]
    } else {
        join_lines(l.drop_last()) + seq!['\n'] + l.last()
    }
}

/// Splits a text at a separator character.
pub fn split_chars(cs: &Vec<char>, sep: char) -> (r: Vec<Vec<char>>)
    ensures
        r@.map_values(|e: Vec<char>| e@) == split_on(cs@, sep),
        r@.len() >= 1,
{
    let mut pieces: Vec<Vec<char>> = Vec::new();
    pieces.push(Vec::new());
    let mut i: usize = 0;
    proof {
        assert(cs@.take(0) == Seq::<char>::empty());
        assert(pieces@.map_values(|e: Vec<char>| e@) =~= split_on(cs@.take(0), sep));
    }
    while i < cs.len()
        invariant
            i <= cs.len(),
            pieces@.len() >= 1,
            pieces@.map_values(|e: Vec<char>| e@) == split_on(cs@.take(i as int), sep),
        decreases cs.len() - i,
    {
        let ghost prev = pieces@.map_values(|e: Vec<char>| e@);
        proof {
            assert(cs@.take(i as int + 1).drop_last() == cs@.take(i as int));
            assert(cs@.take(i as int + 1).last() == cs@[i as int]);
        }
        if cs[i] == sep {
            pieces.push(Vec::new());
            proof {
                assert(pieces@.map_values(|e: Vec<char>| e@) =~= prev.push(seq![]));
            }
        } else {
            let last = pieces.len() - 1;
            let mut cur = pieces.pop().unwrap();
            cur.push(cs[i]);
            pieces.push(cur);
            proof {
                assert(pieces@.map_values(|e: Vec<char>| e@) =~= prev.update(
                    last as int,
                    prev[last as int].push(cs@[i as int]),
                ));
            }
        }
        i = i + 1;
    }
    proof {
        assert(cs@.take(cs.len() as int) == cs@);
    }
    pieces
}

/// The lines of a text (see `spec_lines`).
pub fn lines_of(s: &str) -> (r: Vec<Vec<char>>)
    ensures
        r@.map_values(|e: Vec<char>| e@) == spec_lines(s@),
{
    let cs = chars_of(s);
    let pieces = split_chars(&cs, '\n');
    let ghost p = pieces@.map_values(|e: Vec<char>| e@);
    let n = pieces.len();
    let mut out: Vec<Vec<char>> = Vec::new();
    let mut k: usize = 0;
    while k + 1 < n
        invariant
            k + 1 <= n,
            n == pieces.len(),
            p == pieces@.map_values(|e: Vec<char>| e@),
            out@.map_values(|e: Vec<char>| e@) == p.take(k as int).map_values(|l: Seq<char>| strip_cr(l)),
        decreases n - k,
    {
        let mut line = pieces[k].clone();
        let ghost before = out@.map_values(|e: Vec<char>| e@);
        if line.len() > 0 && line[line.len() - 1] == '\r' {
            line.pop();
        }
        proof {
            assert(line@ == strip_cr(p[k as int]));
        }
        out.push(line);
        proof {
            assert(out@.map_values(|e: Vec<char>| e@) =~= before.push(strip_cr(p[k as int])));
            assert(p.take(k + 1) =~= p.take(k as int).push(p[k as int]));
            assert(p.take(k + 1).map_values(|l: Seq<char>| strip_cr(l)) =~= p.take(k as int).map_values(
                |l: Seq<char>| strip_cr(l),
            ).push(strip_cr(p[k as int])));
        }
        k = k + 1;
    }
    proof {
        assert(p.take(k as int) =~= p.drop_last());
    }
    let last = pieces[n - 1].clone();
    if last.len() > 0 {
        let ghost before = out@.map_values(|e: Vec<char>| e@);
        out.push(last);
        proof {
            assert(out@.map_values(|e: Vec<char>| e@) =~= before.push(p.last()));
        }
    }
    out
}

/// The last `n` lines of a text, joined by `\n`.
pub open spec fn spec_last_lines(s: Seq<char>, n: nat) -> Seq<char> {
    let l = spec_lines(s);
    join_lines(l.skip(if l.len() > n { l.len() - n } else { 0 }))
}

/// Keeps the last `n` lines of a tool's error output.
pub fn last_lines(s: &str, n: usize) -> (r: String)
    ensures
        r@ == spec_last_lines(s@, n as nat),
{
    let lines = lines_of(s);
    let ghost l = lines@.map_values(|e: Vec<char>| e@);
    let start: usize = if lines.len() > n { lines.len() - n } else { 0 };
    let mut out = String::new();
    let mut k = start;
    proof {
        assert(l.skip(start as int).take(0) =~= Seq::<Seq<char>>::empty());
    }
    while k < lines.len()
        invariant
            start <= k <= lines.len(),
            l == lines@.map_values(|e: Vec<char>| e@),
            out@ == join_lines(l.skip(start as int).take(k - start)),
        decreases lines.len() - k,
    {
        let ghost before = out@;
        if k > start {
            out.push('\n');
        }
        let piece = string_from_chars(&lines[k]);
        out.append(piece.as_str());
        proof {
            let t = l.skip(start as int).take(k + 1 - start);
            assert(t.drop_last() =~= l.skip(start as int).take(k - start));
            assert(t.last() == l[k as int]);
            if k > start {
                assert(out@ =~= before + seq!['\n'] + l[k as int]);
            } else {
                assert(t.len() == 1);
                assert(out@ =~= l[k as int]);
            }
        }
        k = k + 1;
    }
    proof {
        assert(l.skip(start as int).take(lines.len() - start) =~= l.skip(start as int));
    }
    out
}

/// What `String::from_utf8_lossy` returns for some bytes.
pub uninterp spec fn spec_utf8_lossy(b: Seq<u8>) -> Seq<char>;

/// `String::from_utf8_lossy`: the bytes decoded as UTF-8, invalid
/// sequences replaced by U+FFFD; valid UTF-8 decodes exactly.
#[verifier::external_body]
pub(crate) fn utf8_lossy(b: &[u8]) -> (r: String)
    ensures
        r@ == spec_utf8_lossy(b@),
        vstd::utf8::valid_utf8(b@) ==> r@ == vstd::utf8::decode_utf8(b@),
{
    String::from_utf8_lossy(b).into_owned()
}

/// What `str::to_uppercase` returns for a text.
pub uninterp spec fn spec_to_uppercase(s: Seq<char>) -> Seq<char>;

/// `str::to_uppercase`: the uppercase equivalent as the Unicode `Uppercase`
/// property defines it. The contract names the result and states nothing
/// more of it.
#[verifier::external_body]
pub(crate) fn to_uppercase(s: &str) -> (r: String)
    ensures
        r@ == spec_to_uppercase(s@),
{
    s.to_uppercase()
}

// ── Searching and replacing ─────────────────────────────────────────────────

/// Does `p` occur in `s` (`str::contains`)?
pub open spec fn has_substring(s: Seq<char>, p: Seq<char>) -> bool {
    exists|i: int| 0 <= i && i + p.len() <= s.len() && #[trigger] s.subrange(i, i + p.len()) == p
}

fn matches_at(x: &Vec<char>, y: &Vec<char>, i: usize) -> (r: bool)
    requires
        i + y.len() <= x.len(),
    ensures
        r == (x@.subrange(i as int, i + y.len()) == y@),
{
    let mut k: usize = 0;
    while k < y.len()
        invariant
            k <= y.len(),
            i + y.len() <= x.len(),
            forall|j: int| 0 <= j < k ==> x@[i + j] == y@[j],
        decreases y.len() - k,
    {
        if x[i + k] != y[k] {
            proof {
                assert(x@.subrange(i as int, i + y.len())[k as int] != y@[k as int]);
            }
            return false;
        }
        k = k + 1;
    }
    proof {
        assert(x@.subrange(i as int, i + y.len()) =~= y@);
    }
    true
}

/// `str::contains` with a string pattern.
pub fn contains_str(s: &str, p: &str) -> (r: bool)
    ensures
        r == has_substring(s@, p@),
{
    let x = chars_of(s);
    let y = chars_of(p);
    if y.len() > x.len() {
        return false;
    }
    if y.len() == 0 {
        proof {
            assert(s@.subrange(0, 0 + p@.len() as int) =~= p@);
        }
        return true;
    }
    let last = x.len() - y.len();
    let mut i: usize = 0;
    while i <= last
        invariant
            last + y.len() == x.len(),
            y.len() > 0,
            i <= last + 1,
            x@ == s@,
            y@ == p@,
            forall|j: int| 0 <= j < i ==> #[trigger] x@.subrange(j, j + y@.len()) != y@,
        decreases last + 1 - i,
    {
        if matches_at(&x, &y, i) {
            return true;
        }
        i = i + 1;
    }
    false
}

/// `str::replace` with a non-empty pattern: every occurrence, scanning from
/// the left without overlap, becomes `rep`.
pub open spec fn replace_all(s: Seq<char>, pat: Seq<char>, rep: Seq<char>) -> Seq<char>
    decreases s.len(),
{
    if s.len() == 0 || pat.len() == 0 {
        s
    } else if pat.len() <= s.len() && s.take(pat.len() as int) == pat {
        rep + replace_all(s.skip(pat.len() as int), pat, rep)
    } else {
        seq![s[0]] + replace_all(s.drop_first(), pat, rep)
    }
}

/// `str::replace`: each occurrence of the non-empty `pat` becomes `rep`.
pub fn replace_str(s: &str, pat: &str, rep: &str) -> (r: String)
    requires
        pat@.len() > 0,
    ensures
        r@ == replace_all(s@, pat@, rep@),
{
    let x = chars_of(s);
    let y = chars_of(pat);
    let mut out = String::new();
    let mut i: usize = 0;
    proof {
        assert(x@.skip(0) =~= x@);
        assert(out@ + replace_all(x@, y@, rep@) =~= replace_all(x@, y@, rep@));
    }
    while i < x.len()
        invariant
            i <= x.len(),
            x@ == s@,
            y@ == pat@,
            y@.len() > 0,
            out@ + replace_all(x@.skip(i as int), y@, rep@) == replace_all(x@, y@, rep@),
        decreases x.len() - i,
    {
        let ghost rest = x@.skip(i as int);
        let ghost before = out@;
        if y.len() <= x.len() - i && matches_at(&x, &y, i) {
            out.append(rep);
            proof {
                assert(rest.take(y@.len() as int) =~= x@.subrange(i as int, i + y@.len()));
                assert(rest.skip(y@.len() as int) =~= x@.skip(i + y@.len()));
                assert(out@ =~= before + rep@);
                assert((before + rep@) + replace_all(x@.skip(i + y@.len()), y@, rep@) =~= before + (rep@
                    + replace_all(x@.skip(i + y@.len()), y@, rep@)));
            }
            i = i + y.len();
        } else {
            out.push(x[i]);
            proof {
                if y@.len() <= rest.len() {
                    assert(rest.take(y@.len() as int) =~= x@.subrange(i as int, i + y@.len()));
                }
                assert(rest[0] == x@[i as int]);
                assert(rest.drop_first() =~= x@.skip(i + 1));
                assert(before.push(x@[i as int]) + replace_all(x@.skip(i + 1), y@, rep@) =~= before + (
                seq![x@[i as int]] + replace_all(x@.skip(i + 1), y@, rep@)));
            }
            i = i + 1;
        }
    }
    proof {
        assert(x@.skip(x.len() as int) =~= Seq::<char>::empty());
        assert(out@ + Seq::<char>::empty() =~= out@);
    }
    out
}

/// The first line of a text (`str::lines().next()`), if it has one.
pub open spec fn spec_first_line(s: Seq<char>) -> Option<Seq<char>> {
    if spec_lines(s).len() > 0 {
        Some(spec_lines(s)[0])
    } else {
        None
    }
}

/// `s.lines().next()`.
pub fn first_line(s: &str) -> (r: Option<String>)
    ensures
        match spec_first_line(s@) {
            Some(l) => r is Some && r->0@ == l,
            None => r is None,
        },
{
    let ls = lines_of(s);
    proof {
        assert(ls@.len() == ls@.map_values(|e: Vec<char>| e@).len());
    }
    if ls.len() > 0 {
        proof {
            assert(ls@.map_values(|e: Vec<char>| e@)[0] == ls@[0]@);
        }
        Some(string_from_chars(&ls[0]))
    } else {
        None
    }
}

/// The first `n` characters of a text, or all of it (`chars().take(n)`).
pub open spec fn take_chars(s: Seq<char>, n: nat) -> Seq<char> {
    if s.len() <= n {
        s
    } else {
        s.take(n as int)
    }
}

/// `s.chars().take(n).collect::<String>()`.
pub fn prefix_chars(s: &str, n: usize) -> (r: String)
    ensures
        r@ == take_chars(s@, n as nat),
{
    let x = chars_of(s);
    let mut out = String::new();
    let mut i: usize = 0;
    while i < x.len() && i < n
        invariant
            i <= x.len(),
            i <= n,
            x@ == s@,
            out@ == x@.take(i as int),
        decreases x.len() - i,
    {
        out.push(x[i]);
        proof {
            assert(x@.take(i + 1) =~= x@.take(i as int).push(x@[i as int]));
        }
        i = i + 1;
    }
    proof {
        if x.len() <= n {
            assert(i == x.len());
            assert(x@.take(x.len() as int) =~= x@);
        } else {
            assert(i == n);
        }
    }
    out
}

/// Concatenation of two string slices.
pub fn concat(a: &str, b: &str) -> (r: String)
    ensures
        r@ == a@ + b@,
{
    let mut r = lit(a);
    r.append(b);
    r
}

// ── Numbers in text ─────────────────────────────────────────────────────────

/// Is `c` an ASCII decimal digit?
pub open spec fn is_digit(c: char) -> bool {
    '0' <= c && c <= '9'
}

/// The value of a string of decimal digits.
pub open spec fn digits_value(s: Seq<char>) -> nat
    decreases s.len(),
{
    if s.len() == 0 {
        0
    } else {
        digits_value(s.drop_last()) * 10 + ((s.last() as u32) - ('0' as u32)) as nat
    }
}

/// The text after an optional leading `+`.
pub open spec fn unsigned_digits(s: Seq<char>) -> Seq<char> {
    if s.len() > 0 && s[0] == '+' {
        s.drop_first()
    } else {
        s
    }
}

/// Every character is a decimal digit.
pub open spec fn all_digits(d: Seq<char>) -> bool {
    forall|i: int| 0 <= i < d.len() ==> is_digit(#[trigger] d[i])
}

/// `str::parse::<usize>`: an optional `+`, then one or more decimal digits
/// whose value fits in `usize`; anything else is an error.
pub open spec fn spec_parse_usize(s: Seq<char>) -> Option<nat> {
    let d = unsigned_digits(s);
    if d.len() > 0 && all_digits(d) && digits_value(d) <= usize::MAX {
        Some(digits_value(d))
    } else {
        None
    }
}

proof fn lemma_digits_value_grows(d: Seq<char>, i: int, j: int)
    requires
        0 <= i <= j <= d.len(),
        forall|k: int| 0 <= k < d.len() ==> is_digit(#[trigger] d[k]),
    ensures
        digits_value(d.take(i)) <= digits_value(d.take(j)),
    decreases j - i,
{
    if i < j {
        lemma_digits_value_grows(d, i, j - 1);
        assert(d.take(j).drop_last() =~= d.take(j - 1));
        assert(d.take(j).last() == d[j - 1]);
    }
}

/// Parses a decimal `usize` as `str::parse::<usize>` does.
pub fn parse_usize(s: &str) -> (r: Option<usize>)
    ensures
        match spec_parse_usize(s@) {
            Some(n) => r == Some(n as usize),
            None => r is None,
        },
{
    let x = chars_of(s);
    let start: usize = if x.len() > 0 && x[0] == '+' { 1 } else { 0 };
    let ghost d = unsigned_digits(s@);
    proof {
        assert(d =~= x@.skip(start as int));
    }
    if start >= x.len() {
        return None;
    }
    let mut v: usize = 0;
    let mut i: usize = start;
    proof {
        assert(d.take(0) =~= Seq::<char>::empty());
    }
    while i < x.len()
        invariant
            start <= i <= x.len(),
            start < x.len(),
            x@ == s@,
            d == x@.skip(start as int),
            d == unsigned_digits(s@),
            forall|k: int| start <= k < i ==> is_digit(#[trigger] x@[k]),
            v == digits_value(d.take(i - start)),
        decreases x.len() - i,
    {
        let c = x[i];
        proof {
            assert(d.take(i + 1 - start).drop_last() =~= d.take(i - start));
            assert(d.take(i + 1 - start).last() == x@[i as int]);
        }
        if !('0' <= c && c <= '9') {
            proof {
                assert(!is_digit(d[i - start]));
                assert(!all_digits(d));
            }
            return None;
        }
        let digit: usize = ((c as u32) - ('0' as u32)) as usize;
        if v > (usize::MAX - digit) / 10 {
            proof {
                assert(v * 10 + digit > usize::MAX) by (nonlinear_arith)
                    requires
                        v > (usize::MAX - digit) / 10,
                        digit <= 9,
                ;
                let t = i + 1 - start;
                assert(digits_value(d.take(t)) == v * 10 + digit);
                if all_digits(d) {
                    lemma_digits_value_grows(d, t, d.len() as int);
                    assert(d.take(d.len() as int) =~= d);
                    assert(digits_value(d) > usize::MAX);
                }
            }
            return None;
        }
        v = v * 10 + digit;
        i = i + 1;
    }
    proof {
        assert(d.take(x.len() - start) =~= d);
        assert forall|m: int| 0 <= m < d.len() implies is_digit(#[trigger] d[m]) by {
            assert(d[m] == x@[start + m]);
        }
        assert(all_digits(d));
    }
    Some(v)
}

/// Is the UTF-8 encoding of `s` longer than `max` bytes?
pub fn content_longer_than(s: &str, max: usize) -> (b: bool)
    ensures
        b == (utf8_len(s@) > max),
{
    let cs = chars_of(s);
    let mut used: usize = 0;
    let mut i: usize = 0;
    while i < cs.len()
        invariant
            i <= cs.len(),
            cs@ == s@,
            used == utf8_len(cs@.take(i as int)),
            used <= max,
        decreases cs.len() - i,
    {
        let w = utf8_width(cs[i]);
        proof {
            assert(cs@.take(i as int + 1) == cs@.take(i as int).push(cs@[i as int]));
            lemma_utf8_len_push(cs@.take(i as int), cs@[i as int]);
            lemma_utf8_len_prefix_le(cs@, i as int + 1);
        }
        if w > max - used {
            return true;
        }
        used = used + w;
        i = i + 1;
    }
    proof {
        assert(cs@.take(cs.len() as int) == cs@);
    }
    false
}

/// A prefix is never longer in UTF-8 bytes than the whole text.
pub proof fn lemma_utf8_len_prefix_le(s: Seq<char>, k: int)
    requires
        0 <= k <= s.len(),
    ensures
        utf8_len(s.take(k)) <= utf8_len(s),
    decreases s.len() - k,
{
    if k < s.len() {
        lemma_utf8_len_prefix_le(s, k + 1);
        assert(s.take(k + 1) == s.take(k).push(s[k]));
        lemma_utf8_len_push(s.take(k), s[k]);
    } else {
        assert(s.take(k) == s);
    }
}

/// What `char::is_alphanumeric` says of a character (Unicode `Alphabetic`
/// or `Numeric`).
pub uninterp spec fn spec_is_alphanumeric(c: char) -> bool;

/// `char::is_alphanumeric`. The contract names the result; for ASCII it is
/// exactly the letters and digits.
#[verifier::external_body]
pub(crate) fn is_alphanumeric(c: char) -> (r: bool)
    ensures
        r == spec_is_alphanumeric(c),
        (c as u32) < 0x80 ==> (r == is_ascii_alnum(c)),
{
    c.is_alphanumeric()
}

} // verus!
