//! Images: telling them by their first bytes, and their text encoding.

use vstd::prelude::*;

use base64::Engine as _;

verus! {

/// Whether bytes stand at a position.
pub open spec fn bytes_at(b: Seq<u8>, at: int, wanted: Seq<u8>) -> bool {
    0 <= at && at + wanted.len() <= b.len() && b.subrange(at, at + wanted.len()) == wanted
}

fn starts_with(buffer: &[u8], at: usize, wanted: &[u8]) -> (r: bool)
    ensures
        r == bytes_at(buffer@, at as int, wanted@),
{
    if at > buffer.len() || wanted.len() > buffer.len() - at {
        return false;
    }
    let mut i: usize = 0;
    while i < wanted.len()
        invariant
            i <= wanted@.len(),
            at + wanted@.len() <= buffer@.len() == buffer.len(),
            forall|k: int| 0 <= k < i ==> buffer@[at + k] == wanted@[k],
        decreases wanted@.len() - i,
    {
        if buffer[at + i] != wanted[i] {
            proof {
                assert(buffer@.subrange(at as int, at + wanted@.len())[i as int]
                    != wanted@[i as int]);
            }
            return false;
        }
        i = i + 1;
    }
    proof {
        assert(buffer@.subrange(at as int, at + wanted@.len()) =~= wanted@);
    }
    true
}

/// Four bytes as a number, the most significant first; zero behind the end.
pub open spec fn be32(b: Seq<u8>, at: int) -> nat {
    if at + 4 <= b.len() {
        (b[at] * 0x100_0000 + b[at + 1] * 0x1_0000 + b[at + 2] * 0x100 + b[at + 3]) as nat
    } else {
        0
    }
}

/// Four bytes as a number, the least significant first; zero behind the end.
pub open spec fn le32(b: Seq<u8>, at: int) -> nat {
    if at + 4 <= b.len() {
        (b[at + 3] * 0x100_0000 + b[at + 2] * 0x1_0000 + b[at + 1] * 0x100 + b[at]) as nat
    } else {
        0
    }
}

/// Two bytes as a number, the least significant first; zero behind the end.
pub open spec fn le16(b: Seq<u8>, at: int) -> nat {
    if at + 2 <= b.len() {
        (b[at + 1] * 0x100 + b[at]) as nat
    } else {
        0
    }
}

fn read_u32_be(buffer: &[u8], at: usize) -> (r: u64)
    requires
        at <= buffer@.len(),
    ensures
        r == be32(buffer@, at as int),
        r < 0x1_0000_0000,
{
    if buffer.len() - at >= 4 {
        buffer[at] as u64 * 0x100_0000 + buffer[at + 1] as u64 * 0x1_0000 + buffer[at + 2] as u64
            * 0x100 + buffer[at + 3] as u64
    } else {
        0
    }
}

fn read_u32_le(buffer: &[u8], at: usize) -> (r: u64)
    requires
        at <= buffer@.len(),
    ensures
        r == le32(buffer@, at as int),
        r < 0x1_0000_0000,
{
    if buffer.len() - at >= 4 {
        buffer[at + 3] as u64 * 0x100_0000 + buffer[at + 2] as u64 * 0x1_0000 + buffer[at
            + 1] as u64 * 0x100 + buffer[at] as u64
    } else {
        0
    }
}

fn read_u16_le(buffer: &[u8], at: usize) -> (r: u64)
    requires
        at <= buffer@.len(),
    ensures
        r == le16(buffer@, at as int),
{
    if buffer.len() - at >= 2 {
        buffer[at + 1] as u64 * 0x100 + buffer[at] as u64
    } else {
        0
    }
}

/// The bytes that every PNG file starts with.
pub open spec fn png_signature() -> Seq<u8> {
    seq![0x89u8, 0x50, 0x4e, 0x47, 0x0d, 0x0a, 0x1a, 0x0a]
}

/// Whether the chunks of a PNG file, from a position on, name an animation
/// before the image data.
pub open spec fn animated_from(b: Seq<u8>, at: int) -> bool
    decreases b.len() - at,
    when 0 <= at
{
    let next = at + 12 + be32(b, at);
    if at + 8 > b.len() {
        false
    } else if bytes_at(b, at + 4, seq![0x61u8, 0x63, 0x54, 0x4c]) {
        true
    } else if bytes_at(b, at + 4, seq![0x49u8, 0x44, 0x41, 0x54]) {
        false
    } else if next > b.len() {
        false
    } else {
        animated_from(b, next)
    }
}

/// Whether the bytes are a PNG file that is not animated.
pub open spec fn is_still_png(b: Seq<u8>) -> bool {
    &&& bytes_at(b, 0, png_signature())
    &&& b.len() >= 16
    &&& be32(b, 8) == 13
    &&& bytes_at(b, 12, seq![0x49u8, 0x48, 0x44, 0x52])
    &&& !animated_from(b, 8)
}

/// Where a bitmap holds its number of planes and of bits per pixel.
pub open spec fn bitmap_counts_at(b: Seq<u8>) -> Option<int> {
    let header = le32(b, 14);
    if header == 12 {
        Some(22)
    } else if 40 <= header <= 124 && b.len() >= 30 {
        Some(26)
    } else {
        None
    }
}

/// Whether the bytes are a bitmap: its sizes fit together, it has one plane,
/// and a usual number of bits per pixel.
pub open spec fn is_bitmap(b: Seq<u8>) -> bool {
    let size = le32(b, 2);
    let offset = le32(b, 10);
    &&& bytes_at(b, 0, seq![0x42u8, 0x4d])
    &&& b.len() >= 26
    &&& (size == 0 || size >= 26)
    &&& offset >= 14 + le32(b, 14)
    &&& (size == 0 || offset < size)
    &&& match bitmap_counts_at(b) {
        Some(at) => le16(b, at) == 1 && (le16(b, at + 2) == 1 || le16(b, at + 2) == 4 || le16(
            b,
            at + 2,
        ) == 8 || le16(b, at + 2) == 16 || le16(b, at + 2) == 24 || le16(b, at + 2) == 32),
        None => false,
    }
}

/// The media type of an image that can be shown.
pub open spec fn image_type(b: Seq<u8>) -> Option<Seq<char>> {
    if bytes_at(b, 0, seq![0xffu8, 0xd8, 0xff]) {
        if b.len() > 3 && b[3] == 0xf7 {
            None
        } else {
            Some("image/jpeg"@)
        }
    } else if is_still_png(b) {
        Some("image/png"@)
    } else if bytes_at(b, 0, seq![0x47u8, 0x49, 0x46]) {
        Some("image/gif"@)
    } else if bytes_at(b, 0, seq![0x52u8, 0x49, 0x46, 0x46]) && bytes_at(
        b,
        8,
        seq![0x57u8, 0x45, 0x42, 0x50],
    ) {
        Some("image/webp"@)
    } else if is_bitmap(b) {
        Some("image/bmp"@)
    } else {
        None
    }
}

fn is_animated_png(buffer: &[u8]) -> (r: bool)
    requires
        buffer@.len() >= 8,
    ensures
        r == animated_from(buffer@, 8),
{
    let n: usize = buffer.len();
    let actl: [u8; 4] = [0x61, 0x63, 0x54, 0x4c];
    let idat: [u8; 4] = [0x49, 0x44, 0x41, 0x54];
    proof {
        assert(actl@ =~= seq![0x61u8, 0x63, 0x54, 0x4c]);
        assert(idat@ =~= seq![0x49u8, 0x44, 0x41, 0x54]);
    }
    let mut at: usize = 8;
    while n - at >= 8
        invariant
            8 <= at <= n == buffer@.len(),
            actl@ == seq![0x61u8, 0x63, 0x54, 0x4c],
            idat@ == seq![0x49u8, 0x44, 0x41, 0x54],
            animated_from(buffer@, 8) == animated_from(buffer@, at as int),
        decreases n - at,
    {
        let length: u64 = read_u32_be(buffer, at);
        if starts_with(buffer, at + 4, &actl) {
            return true;
        }
        if starts_with(buffer, at + 4, &idat) {
            return false;
        }
        let left: u64 = (n - at) as u64;
        if length + 12 > left {
            return false;
        }
        at = at + (length + 12) as usize;
    }
    false
}

fn check_bitmap(buffer: &[u8]) -> (r: bool)
    ensures
        r == is_bitmap(buffer@),
{
    let mark: [u8; 2] = [0x42, 0x4d];
    proof {
        assert(mark@ =~= seq![0x42u8, 0x4d]);
    }
    if !starts_with(buffer, 0, &mark) || buffer.len() < 26 {
        return false;
    }
    let size: u64 = read_u32_le(buffer, 2);
    let offset: u64 = read_u32_le(buffer, 10);
    let header: u64 = read_u32_le(buffer, 14);
    if size != 0 && size < 26 {
        return false;
    }
    if offset < 14 + header {
        return false;
    }
    if size != 0 && offset >= size {
        return false;
    }
    let at: usize = if header == 12 {
        22
    } else if 40 <= header && header <= 124 && buffer.len() >= 30 {
        26
    } else {
        return false;
    };
    let planes: u64 = read_u16_le(buffer, at);
    let bits: u64 = read_u16_le(buffer, at + 2);
    planes == 1 && (bits == 1 || bits == 4 || bits == 8 || bits == 16 || bits == 24 || bits == 32)
}

fn check_still_png(buffer: &[u8]) -> (r: bool)
    ensures
        r == is_still_png(buffer@),
{
    let signature: [u8; 8] = [0x89, 0x50, 0x4e, 0x47, 0x0d, 0x0a, 0x1a, 0x0a];
    let ihdr: [u8; 4] = [0x49, 0x48, 0x44, 0x52];
    proof {
        assert(signature@ =~= png_signature());
        assert(ihdr@ =~= seq![0x49u8, 0x48, 0x44, 0x52]);
    }
    starts_with(buffer, 0, &signature) && buffer.len() >= 16 && read_u32_be(buffer, 8) == 13
        && starts_with(buffer, 12, &ihdr) && !is_animated_png(buffer)
}

/// The media type of an image that can be shown, told by its first bytes.
pub fn detect_supported_image_mime_type(buffer: &[u8]) -> (r: Option<&'static str>)
    ensures
        match r {
            Some(t) => image_type(buffer@) == Some(t@),
            None => image_type(buffer@) is None,
        },
{
    let jpeg: [u8; 3] = [0xff, 0xd8, 0xff];
    let gif: [u8; 3] = [0x47, 0x49, 0x46];
    let riff: [u8; 4] = [0x52, 0x49, 0x46, 0x46];
    let webp: [u8; 4] = [0x57, 0x45, 0x42, 0x50];
    proof {
        assert(jpeg@ =~= seq![0xffu8, 0xd8, 0xff]);
        assert(gif@ =~= seq![0x47u8, 0x49, 0x46]);
        assert(riff@ =~= seq![0x52u8, 0x49, 0x46, 0x46]);
        assert(webp@ =~= seq![0x57u8, 0x45, 0x42, 0x50]);
    }
    if starts_with(buffer, 0, &jpeg) {
        if buffer.len() > 3 && buffer[3] == 0xf7 {
            return None;
        }
        return Some("image/jpeg");
    }
    if check_still_png(buffer) {
        return Some("image/png");
    }
    if starts_with(buffer, 0, &gif) {
        return Some("image/gif");
    }
    if starts_with(buffer, 0, &riff) && starts_with(buffer, 8, &webp) {
        return Some("image/webp");
    }
    if check_bitmap(buffer) {
        return Some("image/bmp");
    }
    None
}

/// The character for six bits.
pub open spec fn base64_char(n: int) -> char {
    if n < 26 {
        ('A' as u32 + n) as char
    } else if n < 52 {
        ('a' as u32 + n - 26) as char
    } else if n < 62 {
        ('0' as u32 + n - 52) as char
    } else if n == 62 {
        '+'
    } else {
        '/'
    }
}

/// Bytes in the standard alphabet with padding: four characters for each three
/// bytes.
pub open spec fn base64_text(b: Seq<u8>) -> Seq<char>
    decreases b.len(),
{
    if b.len() == 0 {
        Seq::empty()
    } else if b.len() == 1 {
        seq![base64_char((b[0] / 4) as int), base64_char((b[0] % 4) * 16), '=', '=']
    } else if b.len() == 2 {
        seq![
            base64_char((b[0] / 4) as int),
            base64_char((b[0] % 4) * 16 + b[1] / 16),
            base64_char((b[1] % 16) * 4),
            '=',
        ]
    } else {
        seq![
            base64_char((b[0] / 4) as int),
            base64_char((b[0] % 4) * 16 + b[1] / 16),
            base64_char((b[1] % 16) * 4 + b[2] / 64),
            base64_char((b[2] % 64) as int),
        ] + base64_text(b.skip(3))
    }
}

/// Calls `Engine::encode` of the `base64` crate's `STANDARD` engine: the bytes
/// in the standard alphabet, padded to groups of four characters. The engine
/// panics where the text would be too long to hold, which is left out.
#[verifier::external_body]
pub fn encode_base64(bytes: &[u8]) -> (r: String)
    requires
        bytes@.len() <= isize::MAX / 4 * 3,
    ensures
        r@ == base64_text(bytes@),
{
    base64::engine::general_purpose::STANDARD.encode(bytes)
}

} // verus!
