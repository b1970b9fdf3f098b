//! Editor preview: a composed BGRA8 frame turned into a PNG image, encoded
//! as base64 text for the user interface.

use vstd::prelude::*;
use base64::Engine as _;

verus! {

/// The PNG file that the `png` crate writes for an 8-bit RGBA image of
/// `width` by `height` pixels with default settings, or the text of its
/// error.
pub uninterp spec fn png_rgba8(width: u32, height: u32, rgba: Seq<u8>) -> Result<Seq<u8>, Seq<char>>;

/// The character of the standard base64 alphabet (RFC 4648: `A`-`Z`,
/// `a`-`z`, `0`-`9`, `+`, `/`) for a 6-bit value.
pub open spec fn base64_digit(v: int) -> char {
    if v < 26 {
        (65 + v) as char
    } else if v < 52 {
        (97 + v - 26) as char
    } else if v < 62 {
        (48 + v - 52) as char
    } else if v == 62 {
        '+'
    } else {
        '/'
    }
}

/// Standard base64 (RFC 4648 alphabet, with `=` padding) of `b`: every
/// 3 bytes become 4 characters of 6 bits each; a last group of 1 or 2
/// bytes is padded to 4 characters.
pub open spec fn base64_standard(b: Seq<u8>) -> Seq<char>
    decreases b.len(),
{
    if b.len() == 0 {
        Seq::empty()
    } else if b.len() == 1 {
        let x = b[0] as int;
        seq![base64_digit(x / 4), base64_digit((x % 4) * 16), '=', '=']
    } else if b.len() == 2 {
        let (x, y) = (b[0] as int, b[1] as int);
        seq![base64_digit(x / 4), base64_digit((x % 4) * 16 + y / 16), base64_digit((y % 16) * 4), '=']
    } else {
        let (x, y, z) = (b[0] as int, b[1] as int, b[2] as int);
        seq![
            base64_digit(x / 4),
            base64_digit((x % 4) * 16 + y / 16),
            base64_digit((y % 16) * 4 + z / 64),
            base64_digit(z % 64),
        ] + base64_standard(b.subrange(3, b.len() as int))
    }
}

/// Encodes an 8-bit RGBA image as PNG with `png::Encoder` (header, then the
/// image data; the end chunk is written when the writer is dropped).
/// Claimed: the outcome is the named `png_rgba8` of the arguments, and a
/// zero side or a buffer that is not `4 * width * height` bytes long is an
/// error (`write_header` rejects zero sides, `write_image_data` checks the
/// buffer size).
#[verifier::external_body]
fn encode_png_rgba8(width: u32, height: u32, rgba: &[u8]) -> (r: Result<Vec<u8>, String>)
    requires
        width * height * 4 <= usize::MAX,
    ensures
        r matches Ok(v) ==> (png_rgba8(width, height, rgba@) matches Ok(p) && p == v@),
        r matches Err(m) ==> (png_rgba8(width, height, rgba@) matches Err(t) && t == m@),
        width == 0 || height == 0 || rgba@.len() != width * height * 4 ==> r is Err,
{
    let mut out = Vec::new();
    {
        let mut encoder = png::Encoder::new(std::io::Cursor::new(&mut out), width, height);
        encoder.set_color(png::ColorType::Rgba);
        encoder.set_depth(png::BitDepth::Eight);
        let mut writer = encoder.write_header().map_err(|e| e.to_string())?;
        writer.write_image_data(rgba).map_err(|e| e.to_string())?;
    }
    Ok(out)
}

/// Encodes bytes as standard base64 (`base64::engine::general_purpose::STANDARD`).
/// Claimed: the result is [`base64_standard`] of the bytes, the padded
/// RFC 4648 encoding that this engine is configured for.
#[verifier::external_body]
fn encode_base64(bytes: &[u8]) -> (s: String)
    ensures
        s@ == base64_standard(bytes@),
{
    base64::engine::general_purpose::STANDARD.encode(bytes)
}

/// Position whose byte lands at position `i` when the first and third byte
/// of every 4-byte pixel trade places.
pub open spec fn swapped_index(i: int) -> int {
    if i % 4 == 0 {
        i + 2
    } else if i % 4 == 2 {
        i - 2
    } else {
        i
    }
}

/// `bytes` with the blue and red channel of every pixel exchanged (BGRA to
/// RGBA and back). A trailing partial pixel must hold zero or three bytes.
pub open spec fn channels_swapped(bytes: Seq<u8>) -> Seq<u8> {
    Seq::new(bytes.len(), |i: int| bytes[swapped_index(i)])
}

/// Exchanges the first and third byte of every 4-byte pixel in place.
pub fn swap_red_blue(bytes: &mut Vec<u8>)
    requires
        old(bytes)@.len() % 4 != 1,
        old(bytes)@.len() % 4 != 2,
    ensures
        final(bytes)@ == channels_swapped(old(bytes)@),
{
    let n = bytes.len();
    let mut p: usize = 0;
    while p < n && n - p > 2
        invariant
            n == bytes@.len(),
            n == old(bytes)@.len(),
            n % 4 != 1,
            n % 4 != 2,
            p % 4 == 0 || p == n,
            p <= n,
            forall|i: int| 0 <= i < p && i < n ==> bytes@[i] == old(bytes)@[swapped_index(i)],
            forall|i: int| p <= i < n ==> bytes@[i] == old(bytes)@[i],
        decreases n - p,
    {
        let a = bytes[p];
        let c = bytes[p + 2];
        bytes.set(p, c);
        bytes.set(p + 2, a);
        if n - p >= 4 {
            p = p + 4;
        } else {
            p = n;
        }
    }
    assert(bytes@ =~= channels_swapped(old(bytes)@));
}

/// Swapping the channels twice gives back the bytes it started from.
pub proof fn law_channel_swap_is_an_involution(bytes: Seq<u8>)
    requires
        bytes.len() % 4 != 1,
        bytes.len() % 4 != 2,
    ensures
        channels_swapped(channels_swapped(bytes)) == bytes,
{
    assert(channels_swapped(channels_swapped(bytes)) =~= bytes);
}

/// Converting between BGRA and RGBA exchanges the first and third byte of
/// every pixel of the buffer, first to last, and leaves the length and
/// every other byte alone.
pub proof fn law_every_pixel_swaps_red_and_blue(bytes: Seq<u8>)
    requires
        bytes.len() % 4 != 1,
        bytes.len() % 4 != 2,
    ensures
        channels_swapped(bytes).len() == bytes.len(),
        forall|q: int|
            0 <= q && q % 4 == 0 && q + 2 < bytes.len() ==> #[trigger] channels_swapped(bytes)[q] == bytes[q + 2]
                && channels_swapped(bytes)[q + 2] == bytes[q] && channels_swapped(bytes)[q + 1] == bytes[q + 1],
        forall|i: int| 0 <= i < bytes.len() && i % 4 == 3 ==> #[trigger] channels_swapped(bytes)[i] == bytes[i],
{
    assert forall|q: int| 0 <= q && q % 4 == 0 && q + 2 < bytes.len() implies #[trigger] channels_swapped(bytes)[q]
        == bytes[q + 2] && channels_swapped(bytes)[q + 2] == bytes[q] && channels_swapped(bytes)[q + 1] == bytes[q
        + 1] by {
        assert((q + 2) % 4 == 2 && (q + 1) % 4 == 1);
    }
}

/// The preview text of a composed BGRA8 frame: the frame as an RGBA PNG,
/// in base64; an encoding failure yields the encoder's error text. A frame
/// with a zero side fails at the PNG header, before any byte is looked at.
pub fn preview_png_base64(width: u32, height: u32, bgra: Vec<u8>) -> (r: Result<String, String>)
    requires
        width == 0 || height == 0 || bgra@.len() % 4 != 1,
        width == 0 || height == 0 || bgra@.len() % 4 != 2,
        width * height * 4 <= usize::MAX,
    ensures
        width == 0 || height == 0 ==> (png_rgba8(width, height, bgra@) matches Err(m) && r matches Err(e)
            && e@ == m),
        width != 0 && height != 0 ==> match png_rgba8(width, height, channels_swapped(bgra@)) {
            Ok(png) => r matches Ok(s) && s@ == base64_standard(png),
            Err(m) => r matches Err(e) && e@ == m,
        },
{
    if width == 0 || height == 0 {
        return match encode_png_rgba8(width, height, bgra.as_slice()) {
            Ok(png) => Ok(encode_base64(png.as_slice())),
            Err(m) => Err(m),
        };
    }
    let mut rgba = bgra;
    swap_red_blue(&mut rgba);
    match encode_png_rgba8(width, height, rgba.as_slice()) {
        Ok(png) => Ok(encode_base64(png.as_slice())),
        Err(m) => Err(m),
    }
}

} // verus!
