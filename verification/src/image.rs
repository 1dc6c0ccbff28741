//! Thumbnail addresses of image files, and what is kept of an image once it was asked for.
//!
//! The file server keeps a thumbnail under two directories named after the first two hex
//! digits of the MD5 digest of the file name. The digest comes from the `md5` crate, the
//! base64 text of an image from the `base64` crate.

use crate::text::{decimal, from_chars, push_decimal, push_str, replace_char, to_chars};
use vstd::prelude::*;
use vstd::utf8::encode_utf8;

verus! {

/// The directory of the file server under which thumbnails are kept.
pub const THUMBNAIL_BASE: &'static str = "https://upload.wikimedia.org/wikipedia/commons/thumb";

/// The width in pixels of a thumbnail where none is asked for.
pub const DEFAULT_WIDTH: u32 = 64;

/// The largest image, in bytes, that is kept as base64 text.
pub const MAX_IMAGE_BYTES: usize = 0x3fff_ffff;

/// The MD5 digest of `data`, as `md5::compute` returns it.
pub uninterp spec fn md5_digest(data: Seq<u8>) -> Seq<u8>;

/// The base64 text of `data` in the standard alphabet with padding, as the engine
/// `base64::engine::general_purpose::STANDARD` encodes it.
pub uninterp spec fn base64_text(data: Seq<u8>) -> Seq<char>;

/// Trusted: `md5::compute` returns the sixteen bytes of the MD5 digest of `data`, which
/// depend on `data` alone.
#[verifier::external_body]
fn md5_of(data: &[u8]) -> (digest: [u8; 16])
    ensures
        digest@ == md5_digest(data@),
{
    md5::compute(data).0
}

/// Trusted: `Engine::encode` of the standard engine returns the base64 text of `data`, which
/// depends on `data` alone. It panics where the length of the text overflows, which the
/// bound on `data` leaves out.
#[verifier::external_body]
fn base64_of(data: &[u8]) -> (text: String)
    requires
        data@.len() <= MAX_IMAGE_BYTES,
    ensures
        text@ == base64_text(data@),
{
    base64::Engine::encode(&base64::engine::general_purpose::STANDARD, data)
}

/// The lower-case hex digit of `n`, for `n` below sixteen.
pub open spec fn hex_char(n: nat) -> char {
    if n < 10 {
        (('0' as u8 + n) as u8) as char
    } else {
        (('a' as u8 + n - 10) as u8) as char
    }
}

fn hex_digit(n: u8) -> (c: char)
    requires
        n < 16,
    ensures
        c == hex_char(n as nat),
{
    if n < 10 {
        ('0' as u8 + n) as char
    } else {
        ('a' as u8 + n - 10) as char
    }
}

/// The name under which the file server keeps the file `filename`: spaces become underscores.
pub open spec fn stored_name(filename: Seq<char>) -> Seq<char> {
    replace_char(filename, ' ', '_')
}

/// The two directories of a file whose digest begins with the byte `first`: its first hex
/// digit, and its first two.
pub open spec fn directories(first: u8) -> Seq<char> {
    seq![
        hex_char((first / 16) as nat),
        '/',
        hex_char((first / 16) as nat),
        hex_char((first % 16) as nat),
    ]
}

/// The address of the thumbnail, `width` pixels wide, of the file that is stored as `name`
/// and whose digest begins with the byte `first`.
pub open spec fn thumbnail_address(name: Seq<char>, first: u8, width: nat) -> Seq<char> {
    THUMBNAIL_BASE@ + seq!['/'] + directories(first) + seq!['/'] + name + seq!['/'] + decimal(
        width,
    ) + seq!['p', 'x', '-'] + name
}

/// The address of the thumbnail of the image file `filename`, `width` pixels wide: that of
/// its stored name and the MD5 digest of the stored name's bytes.
pub open spec fn thumbnail_url(filename: Seq<char>, width: nat) -> Seq<char> {
    let name = stored_name(filename);
    thumbnail_address(name, md5_digest(encode_utf8(name))[0], width)
}

/// The width that is used: the one asked for, or the default.
pub open spec fn width_or_default(width: Option<u32>) -> nat {
    match width {
        Some(w) => w as nat,
        None => DEFAULT_WIDTH as nat,
    }
}

/// The name under which the file server keeps the file `filename`.
pub fn stored_name_of(filename: &str) -> (name: String)
    ensures
        name@ == stored_name(filename@),
{
    let chars = to_chars(filename);
    let mut name: Vec<char> = Vec::new();
    let mut i: usize = 0;
    while i < chars.len()
        invariant
            i <= chars.len(),
            name@.len() == i,
            forall|j: int| 0 <= j < i ==> name@[j] == stored_name(chars@)[j],
        decreases chars.len() - i,
    {
        let c = chars[i];
        name.push(
            if c == ' ' {
                '_'
            } else {
                c
            },
        );
        i += 1;
    }
    assert(name@ =~= stored_name(filename@));
    from_chars(&name, 0, name.len())
}

/// The address of the thumbnail, `width` pixels wide, of the file that is stored as `name`
/// and has the digest `digest`.
pub fn thumbnail_address_of(name: &str, digest: &[u8; 16], width: u32) -> (url: String)
    ensures
        url@ == thumbnail_address(name@, digest@[0], width as nat),
{
    let first: u8 = digest[0];
    let high = hex_digit(first / 16);
    let low = hex_digit(first % 16);
    let mut out: Vec<char> = Vec::new();
    push_str(&mut out, THUMBNAIL_BASE);
    out.push('/');
    out.push(high);
    out.push('/');
    out.push(high);
    out.push(low);
    out.push('/');
    push_str(&mut out, name);
    out.push('/');
    push_decimal(&mut out, width);
    out.push('p');
    out.push('x');
    out.push('-');
    push_str(&mut out, name);
    let url = from_chars(&out, 0, out.len());
    assert(url@ =~= thumbnail_address(name@, digest@[0], width as nat));
    url
}

/// The address of the thumbnail of the image file `filename`, `width` pixels wide, or of the
/// default width where none is given.
pub fn create_image_thumbnail_url(filename: &str, width: Option<u32>) -> (url: String)
    ensures
        url@ == thumbnail_url(filename@, width_or_default(width)),
{
    let name = stored_name_of(filename);
    let digest = md5_of(name.as_str().as_bytes());
    let pixels: u32 = match width {
        Some(w) => w,
        None => DEFAULT_WIDTH,
    };
    thumbnail_address_of(name.as_str(), &digest, pixels)
}

/// Where no width is asked for, the thumbnail is the one of the default width, and its
/// address holds the width as `64px-`.
pub proof fn lemma_default_width(filename: Seq<char>)
    ensures
        thumbnail_url(filename, width_or_default(None)) == thumbnail_url(
            filename,
            width_or_default(Some(DEFAULT_WIDTH)),
        ),
        decimal(width_or_default(None)) + seq!['p', 'x', '-'] == seq!['6', '4', 'p', 'x', '-'],
{
    assert(decimal(64) =~= seq!['6', '4']) by {
        reveal_with_fuel(decimal, 2);
    }
    assert(decimal(64) + seq!['p', 'x', '-'] =~= seq!['6', '4', 'p', 'x', '-']);
}

/// What came back when an image was asked for.
#[derive(Debug)]
pub enum ImageFetch {
    /// The request failed, or no answer came in time.
    Failed,
    /// A response arrived, with its content type and its body.
    Response { content_type: String, body: Vec<u8> },
}

/// Whether a response of this content type carries an image.
pub open spec fn is_image_type(content_type: Seq<char>) -> bool {
    seq!['i', 'm', 'a', 'g', 'e', '/'].is_prefix_of(content_type)
}

/// What is kept of the image at `url`: its base64 text where an image of acceptable size
/// arrived, the address itself where something else arrived, nothing where the request
/// failed.
pub open spec fn kept_image(url: Seq<char>, response: Option<(Seq<char>, Seq<u8>)>) -> Option<
    Seq<char>,
> {
    match response {
        None => None,
        Some((content_type, body)) => if is_image_type(content_type) && body.len()
            <= MAX_IMAGE_BYTES {
            Some(base64_text(body))
        } else {
            Some(url)
        },
    }
}

impl ImageFetch {
    /// The response, where one arrived.
    pub open spec fn response(self) -> Option<(Seq<char>, Seq<u8>)> {
        match self {
            ImageFetch::Failed => None,
            ImageFetch::Response { content_type, body } => Some((content_type@, body@)),
        }
    }
}

fn has_image_type(content_type: &str) -> (r: bool)
    ensures
        r == is_image_type(content_type@),
{
    let chars = to_chars(content_type);
    let r = chars.len() >= 6 && chars[0] == 'i' && chars[1] == 'm' && chars[2] == 'a' && chars[3]
        == 'g' && chars[4] == 'e' && chars[5] == '/';
    proof {
        let prefix = seq!['i', 'm', 'a', 'g', 'e', '/'];
        if r {
            assert(content_type@.subrange(0, 6) =~= prefix);
        } else if prefix.is_prefix_of(content_type@) {
            assert(content_type@.subrange(0, 6) == prefix);
            assert(content_type@[0] == prefix[0]);
            assert(content_type@[1] == prefix[1]);
            assert(content_type@[2] == prefix[2]);
            assert(content_type@[3] == prefix[3]);
            assert(content_type@[4] == prefix[4]);
            assert(content_type@[5] == prefix[5]);
        }
    }
    r
}

/// What is kept of the image at `url` after the fetch `outcome`.
pub fn image_attribute(url: &str, outcome: &ImageFetch) -> (kept: Option<String>)
    ensures
        match kept {
            Some(text) => kept_image(url@, outcome.response()) == Some(text@),
            None => kept_image(url@, outcome.response()) is None,
        },
{
    match outcome {
        ImageFetch::Failed => None,
        ImageFetch::Response { content_type, body } => {
            if has_image_type(content_type.as_str()) && body.len() <= MAX_IMAGE_BYTES {
                Some(base64_of(body.as_slice()))
            } else {
                Some(url.to_owned())
            }
        },
    }
}

} // verus!
