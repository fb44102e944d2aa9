use image::{ImageError, ImageFormat, Luma};
use qrcode::types::QrError;
use qrcode::QrCode;
use rand::Rng;
use sha3::{Digest, Sha3_512};
use std::io::Cursor;
use uuid::{NoContext, Timestamp, Uuid};
use vstd::prelude::*;

verus! {

/// Failures of the generators.
#[derive(Debug, PartialEq, Eq, Clone, Copy, Structural)]
pub enum Error {
    InvalidLength,
    InvalidCharSet,
    InvalidData,
    RenderingFailed,
}

/// The lowercase hexadecimal digit for a value below sixteen.
pub open spec fn hex_digit(n: u8) -> char {
    if n < 10 {
        ((48 + n) as u8) as char
    } else {
        ((87 + n) as u8) as char
    }
}

/// Two lowercase hexadecimal digits per byte, most significant first.
pub open spec fn hex_lower(bytes: Seq<u8>) -> Seq<char>
    decreases bytes.len(),
{
    if bytes.len() == 0 {
        Seq::empty()
    } else {
        let b = bytes.last();
        hex_lower(bytes.drop_last()) + seq![hex_digit(b / 16), hex_digit(b % 16)]
    }
}

pub open spec fn is_hex_lower_char(c: char) -> bool {
    ('0' <= c && c <= '9') || ('a' <= c && c <= 'f')
}

proof fn lemma_hex_lower_len(bytes: Seq<u8>)
    ensures
        hex_lower(bytes).len() == 2 * bytes.len(),
        forall|i: int| 0 <= i < hex_lower(bytes).len() ==> is_hex_lower_char(#[trigger] hex_lower(bytes)[i]),
    decreases bytes.len(),
{
    if bytes.len() > 0 {
        lemma_hex_lower_len(bytes.drop_last());
    }
}

fn hex_char(n: u8) -> (c: char)
    requires
        n < 16,
    ensures
        c == hex_digit(n),
{
    if n < 10 {
        (48 + n) as char
    } else {
        (87 + n) as char
    }
}

fn hex_encode(bytes: &Vec<u8>) -> (r: String)
    ensures
        r@ == hex_lower(bytes@),
{
    let mut out: Vec<char> = Vec::new();
    let mut i: usize = 0;
    while i < bytes.len()
        invariant
            i <= bytes.len(),
            out@ == hex_lower(bytes@.subrange(0, i as int)),
        decreases bytes.len() - i,
    {
        let b = bytes[i];
        out.push(hex_char(b / 16));
        out.push(hex_char(b % 16));
        proof {
            assert(bytes@.subrange(0, i + 1).drop_last() =~= bytes@.subrange(0, i as int));
        }
        i = i + 1;
    }
    proof {
        assert(bytes@.subrange(0, i as int) =~= bytes@);
    }
    string_of_chars(&out)
}

/// Relies on std's `FromIterator<char>` for `String`: the characters in order.
#[verifier::external_body]
fn string_of_chars(chars: &Vec<char>) -> (r: String)
    ensures
        r@ == chars@,
{
    chars.iter().collect()
}

/// Relies on rand's `thread_rng` and `Rng::gen_range`: a value of `0..bound`.
#[verifier::external_body]
fn random_index(bound: usize) -> (r: usize)
    requires
        bound > 0,
    ensures
        r < bound,
{
    rand::thread_rng().gen_range(0..bound)
}

/// Relies on uuid's `Uuid::new_v7` at `Timestamp::now`: the sixteen bytes of a fresh
/// time-ordered UUID.
#[verifier::external_body]
fn new_v7_uuid_bytes() -> (r: Vec<u8>)
    ensures
        r@.len() == 16,
{
    Uuid::new_v7(Timestamp::now(NoContext)).as_bytes().to_vec()
}

/// What `Sha3_512::digest` returns for the UTF-8 bytes of a text.
pub uninterp spec fn sha3_512_of(text: Seq<char>) -> Seq<u8>;

/// Relies on sha3's `Sha3_512::digest`: the 64-byte digest of the text's UTF-8 bytes.
#[verifier::external_body]
fn sha3_512_digest(text: &str) -> (r: Vec<u8>)
    ensures
        r@ == sha3_512_of(text@),
        r@.len() == 64,
{
    Sha3_512::digest(text.as_bytes()).to_vec()
}

/// A fresh identifier: the 32 lowercase hexadecimal digits of a version-7 UUID, so that
/// identifiers made later sort after those made earlier.
pub fn generate_id() -> (r: String)
    ensures
        exists|bytes: Seq<u8>| bytes.len() == 16 && r@ == hex_lower(bytes),
        r@.len() == 32,
        forall|i: int| 0 <= i < r@.len() ==> is_hex_lower_char(#[trigger] r@[i]),
{
    let bytes = new_v7_uuid_bytes();
    proof {
        lemma_hex_lower_len(bytes@);
    }
    hex_encode(&bytes)
}

/// The SHA3-512 digest of the text's UTF-8 bytes, in lowercase hexadecimal.
pub fn generate_sha3_512(text: &str) -> (r: String)
    ensures
        r@ == hex_lower(sha3_512_of(text@)),
        r@.len() == 128,
{
    let digest = sha3_512_digest(text);
    proof {
        lemma_hex_lower_len(digest@);
    }
    hex_encode(&digest)
}

/// A string of `length` characters, each drawn at random from `char_set`.
pub fn generate_random_string(char_set: &[char], length: usize) -> (r: Result<String, Error>)
    ensures
        length == 0 ==> r == Err::<String, Error>(Error::InvalidLength),
        length > 0 && char_set@.len() == 0 ==> r == Err::<String, Error>(Error::InvalidCharSet),
        length > 0 && char_set@.len() > 0 ==> (r matches Ok(s) && s@.len() == length
            && forall|i: int| 0 <= i < s@.len() ==> char_set@.contains(#[trigger] s@[i])),
{
    if length == 0 {
        return Err(Error::InvalidLength);
    }
    if char_set.len() == 0 {
        return Err(Error::InvalidCharSet);
    }
    let mut chars: Vec<char> = Vec::new();
    let mut i: usize = 0;
    while i < length
        invariant
            i <= length,
            char_set@.len() > 0,
            chars@.len() == i,
            forall|k: int| 0 <= k < chars@.len() ==> char_set@.contains(#[trigger] chars@[k]),
        decreases length - i,
    {
        let k = random_index(char_set.len());
        let c = char_set[k];
        proof {
            assert(char_set@[k as int] == c);
        }
        chars.push(c);
        i = i + 1;
    }
    Ok(string_of_chars(&chars))
}

#[verifier::external_type_specification]
#[verifier::external_body]
pub struct ExQrError(QrError);

#[verifier::external_type_specification]
#[verifier::external_body]
pub struct ExImageError(ImageError);

/// Whether `QrCode::new` can encode the text's bytes in a symbol.
pub uninterp spec fn qr_encodable(data: Seq<char>) -> bool;

/// The PNG bytes of the drawing of the text's symbol within `width` by `height` pixels,
/// where encoding the drawing succeeds.
pub uninterp spec fn qr_png_of(data: Seq<char>, width: u32, height: u32) -> Option<Seq<u8>>;

/// Relies on qrcode's `QrCode::new` to encode the text's bytes (failing where they do not
/// fit in a symbol), on its renderer (`render`, `max_dimensions`, `build`) to draw the
/// symbol in gray levels within `width` by `height` pixels, and on image's `write_to` to
/// encode the drawing as PNG in memory. All three depend on their arguments alone. The
/// drawing is at most 185 modules, with its quiet zone, in each direction, and a side of
/// at least one pixel per module; allocating its pixels panics where their number
/// overflows `usize`, which the bound rules out.
#[verifier::external_body]
fn qr_png(data: &str, width: u32, height: u32) -> (r: Result<Result<Vec<u8>, ImageError>, QrError>)
    requires
        (width + 185) * (height + 185) <= usize::MAX,
    ensures
        r is Ok <==> qr_encodable(data@),
        r matches Ok(png) ==> match qr_png_of(data@, width, height) {
            Some(b) => png matches Ok(p) && p@ == b,
            None => png is Err,
        },
{
    let code = match QrCode::new(data) {
        Ok(code) => code,
        Err(error) => return Err(error),
    };
    let image = code.render::<Luma<u8>>().max_dimensions(width, height).build();
    let mut png = Cursor::new(Vec::new());
    Ok(image.write_to(&mut png, ImageFormat::Png).map(|_| png.into_inner()))
}

/// The PNG image of a QR symbol that encodes `data`, within `width` by `height` pixels.
pub fn generate_qr_code(data: &str, width: u32, height: u32) -> (r: Result<Vec<u8>, Error>)
    requires
        (width + 185) * (height + 185) <= usize::MAX,
    ensures
        !qr_encodable(data@) ==> r == Err::<Vec<u8>, Error>(Error::InvalidData),
        qr_encodable(data@) ==> match qr_png_of(data@, width, height) {
            Some(b) => r matches Ok(p) && p@ == b,
            None => r == Err::<Vec<u8>, Error>(Error::RenderingFailed),
        },
{
    match qr_png(data, width, height) {
        Err(_) => Err(Error::InvalidData),
        Ok(Err(_)) => Err(Error::RenderingFailed),
        Ok(Ok(png)) => Ok(png),
    }
}

} // verus!
