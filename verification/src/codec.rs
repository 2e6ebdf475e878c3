//! Binary encodings the tools use: standard Base64 (with padding) and PNG.
use base64::Engine;
use vstd::prelude::*;

verus! {

/// The character of a 6-bit value in the standard Base64 alphabet.
pub open spec fn b64_char(n: int) -> char {
    if 0 <= n < 26 {
        (('A' as int) + n) as char
    } else if 26 <= n < 52 {
        (('a' as int) + (n - 26)) as char
    } else if 52 <= n < 62 {
        (('0' as int) + (n - 52)) as char
    } else if n == 62 {
        '+'
    } else {
        '/'
    }
}

/// Standard Base64 with `=` padding: each group of three bytes becomes four
/// characters; a final group of one or two bytes is padded.
pub open spec fn spec_base64(b: Seq<u8>) -> Seq<char>
    decreases b.len(),
{
    if b.len() == 0 {
        seq![]
    } else {
        let x = b[0] as int;
        let y = if b.len() > 1 { b[1] as int } else { 0 };
        let z = if b.len() > 2 { b[2] as int } else { 0 };
        if b.len() == 1 {
            seq![b64_char(x / 4), b64_char((x % 4) * 16), '=', '=']
        } else if b.len() == 2 {
            seq![b64_char(x / 4), b64_char((x % 4) * 16 + y / 16), b64_char((y % 16) * 4), '=']
        } else {
            seq![b64_char(x / 4), b64_char((x % 4) * 16 + y / 16), b64_char((y % 16) * 4 + z / 64), b64_char(z % 64)]
                + spec_base64(b.skip(3))
        }
    }
}

/// The alphabet gives distinct values distinct characters, none of them
/// the padding `=`.
proof fn lemma_b64_char(m: int, n: int)
    requires
        0 <= m < 64,
        0 <= n < 64,
    ensures
        b64_char(m) != '=',
        b64_char(m) == b64_char(n) ==> m == n,
{
    assert(('A' as int) == 65);
    assert(('a' as int) == 97);
    assert(('0' as int) == 48);
    assert(('+' as int) == 43);
    assert(('/' as int) == 47);
    assert(('=' as int) == 61);
}

/// The four characters of a three-byte group determine its bytes.
proof fn lemma_group(x: int, y: int, z: int, x2: int, y2: int, z2: int)
    requires
        0 <= x < 256,
        0 <= y < 256,
        0 <= z < 256,
        0 <= x2 < 256,
        0 <= y2 < 256,
        0 <= z2 < 256,
        x / 4 == x2 / 4,
        (x % 4) * 16 + y / 16 == (x2 % 4) * 16 + y2 / 16,
        (y % 16) * 4 + z / 64 == (y2 % 16) * 4 + z2 / 64,
        z % 64 == z2 % 64,
    ensures
        x == x2,
        y == y2,
        z == z2,
{
    assert(x % 4 == x2 % 4 && y / 16 == y2 / 16);
    assert(y % 16 == y2 % 16 && z / 64 == z2 / 64);
}

/// The encoding has four characters per started group of three bytes.
proof fn lemma_base64_len(b: Seq<u8>)
    ensures
        b.len() > 0 ==> spec_base64(b).len() >= 4,
        b.len() == 0 ==> spec_base64(b).len() == 0,
{
}

/// Base64 loses nothing: two byte strings with the same encoding are equal,
/// so decoding the encoding of some bytes gives exactly those bytes back.
pub proof fn lemma_base64_injective(a: Seq<u8>, b: Seq<u8>)
    requires
        spec_base64(a) == spec_base64(b),
    ensures
        a == b,
    decreases a.len(),
{
    lemma_base64_len(a);
    lemma_base64_len(b);
    if a.len() == 0 || b.len() == 0 {
        assert(a =~= b);
        return;
    }
    let e = spec_base64(a);
    let x = a[0] as int;
    let y = if a.len() > 1 { a[1] as int } else { 0 };
    let z = if a.len() > 2 { a[2] as int } else { 0 };
    let x2 = b[0] as int;
    let y2 = if b.len() > 1 { b[1] as int } else { 0 };
    let z2 = if b.len() > 2 { b[2] as int } else { 0 };
    lemma_b64_char(x / 4, x2 / 4);
    lemma_b64_char((x % 4) * 16 + y / 16, (x2 % 4) * 16 + y2 / 16);
    lemma_b64_char((y % 16) * 4 + z / 64, (y2 % 16) * 4 + z2 / 64);
    lemma_b64_char(z % 64, z2 % 64);
    lemma_b64_char((x % 4) * 16, (x2 % 4) * 16);
    lemma_b64_char((y % 16) * 4, (y2 % 16) * 4);
    lemma_b64_char((x % 4) * 16, (x2 % 4) * 16 + y2 / 16);
    lemma_b64_char((x % 4) * 16 + y / 16, (x2 % 4) * 16);
    lemma_b64_char((y % 16) * 4, (y2 % 16) * 4 + z2 / 64);
    lemma_b64_char((y % 16) * 4 + z / 64, (y2 % 16) * 4);
    if a.len() >= 3 && b.len() >= 3 {
        let ga = seq![b64_char(x / 4), b64_char((x % 4) * 16 + y / 16), b64_char((y % 16) * 4 + z / 64), b64_char(z % 64)];
        let gb = seq![b64_char(x2 / 4), b64_char((x2 % 4) * 16 + y2 / 16), b64_char((y2 % 16) * 4 + z2 / 64), b64_char(z2 % 64)];
        assert(spec_base64(a) == ga + spec_base64(a.skip(3)));
        assert(spec_base64(b) == gb + spec_base64(b.skip(3)));
        assert(e[0] == ga[0] && e[0] == gb[0]);
        assert(e[1] == ga[1] && e[1] == gb[1]);
        assert(e[2] == ga[2] && e[2] == gb[2]);
        assert(e[3] == ga[3] && e[3] == gb[3]);
        lemma_group(x, y, z, x2, y2, z2);
        assert((ga + spec_base64(a.skip(3))).skip(4) =~= spec_base64(a.skip(3)));
        assert((gb + spec_base64(b.skip(3))).skip(4) =~= spec_base64(b.skip(3)));
        lemma_base64_injective(a.skip(3), b.skip(3));
        assert(a =~= b) by {
            assert forall|i: int| 0 <= i < a.len() implies a[i] == b[i] by {
                if i >= 3 {
                    assert(a[i] == a.skip(3)[i - 3]);
                    assert(b[i] == b.skip(3)[i - 3]);
                }
            }
        }
    } else {
        if a.len() == 1 && b.len() == 1 {
            assert(x == x2);
        } else if a.len() == 2 && b.len() == 2 {
            assert(x == x2 && y == y2);
        } else {
            assert(e[2] == '=' || e[3] == '=');
        }
        assert(a =~= b);
    }
}

/// `base64::engine::general_purpose::STANDARD.encode`: the standard
/// alphabet with padding.
#[verifier::external_body]
pub(crate) fn base64_encode(b: &[u8]) -> (r: String)
    ensures
        r@ == spec_base64(b@),
{
    base64::engine::general_purpose::STANDARD.encode(b)
}

/// `base64::engine::general_purpose::STANDARD.decode`: that engine accepts
/// only canonical input (padding required, no trailing bits), so it decodes
/// exactly the texts that are the encoding of some bytes. The error's
/// message is not stated.
#[verifier::external_body]
pub(crate) fn base64_decode(s: &str) -> (r: Result<Vec<u8>, String>)
    ensures
        match r {
            Ok(v) => spec_base64(v@) == s@,
            Err(_) => forall|v: Seq<u8>| spec_base64(v) != s@,
        },
{
    base64::engine::general_purpose::STANDARD.decode(s).map_err(|e| e.to_string())
}

/// What the `png` encoder writes for an 8-bit RGBA image of the given size,
/// or `None` where it refuses the header or the data.
pub uninterp spec fn spec_png_rgba8(width: u32, height: u32, data: Seq<u8>) -> Option<Seq<u8>>;

/// Encodes RGBA pixels as a PNG file with `png::Encoder` (colour type RGBA,
/// 8 bits per channel, default compression). The contract names the result.
#[verifier::external_body]
pub(crate) fn png_rgba8(width: u32, height: u32, data: &[u8]) -> (r: Option<Vec<u8>>)
    ensures
        match r {
            Some(v) => spec_png_rgba8(width, height, data@) == Some(v@),
            None => spec_png_rgba8(width, height, data@) is None,
        },
{
    let mut buf: Vec<u8> = Vec::new();
    {
        let mut enc = png::Encoder::new(std::io::Cursor::new(&mut buf), width, height);
        enc.set_color(png::ColorType::Rgba);
        enc.set_depth(png::BitDepth::Eight);
        let mut writer = enc.write_header().ok()?;
        writer.write_image_data(data).ok()?;
    }
    Some(buf)
}

} // verus!
