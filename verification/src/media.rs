//! Images pasted or copied into the composer: recognising a pasted
//! base64 image, and turning raw RGBA pixels from the clipboard into a PNG
//! data URL.

use vstd::prelude::*;
use crate::attachments::{ImageContent, ImageContentView, ImageSource};
use crate::text::push_str;

verus! {

/// The image formats a pasted image is recognised as.
#[derive(Clone, Copy, PartialEq, Eq, Structural)]
pub enum ImageKind {
    Png,
    Jpeg,
    Gif,
    WebP,
    Bmp,
    Tiff,
    /// A format the composer does not take.
    Other,
}

/// The bytes that the standard base64 alphabet (with padding) decodes
/// `data` to, or `None` when `data` is not valid base64.
pub uninterp spec fn base64_decoded(data: Seq<char>) -> Option<Seq<u8>>;

/// The character of the standard base64 alphabet for the six bits `n`.
pub open spec fn base64_digit(n: int) -> char {
    "ABCDEFGHIJKLMNOPQRSTUVWXYZabcdefghijklmnopqrstuvwxyz0123456789+/"@[n]
}

/// The standard base64 encoding (with padding) of `bytes`: each group of
/// three bytes, read as 24 bits, gives four digits of six bits; a last
/// group of one or two bytes is filled with zero bits and padded with `=`
/// to four characters.
pub open spec fn base64_encoded(bytes: Seq<u8>) -> Seq<char>
    decreases bytes.len(),
{
    if bytes.len() == 0 {
        Seq::empty()
    } else if bytes.len() == 1 {
        let a = bytes[0] as int;
        seq![base64_digit(a / 4), base64_digit((a % 4) * 16), '=', '=']
    } else if bytes.len() == 2 {
        let (a, b) = (bytes[0] as int, bytes[1] as int);
        seq![base64_digit(a / 4), base64_digit((a % 4) * 16 + b / 16), base64_digit((b % 16) * 4), '=']
    } else {
        let (a, b, c) = (bytes[0] as int, bytes[1] as int, bytes[2] as int);
        seq![
            base64_digit(a / 4),
            base64_digit((a % 4) * 16 + b / 16),
            base64_digit((b % 16) * 4 + c / 64),
            base64_digit(c % 64),
        ] + base64_encoded(bytes.subrange(3, bytes.len() as int))
    }
}

/// The format `image::guess_format` sees in the first bytes of `bytes`, or
/// `None` when it recognises none.
pub uninterp spec fn guessed_format(bytes: Seq<u8>) -> Option<ImageKind>;

/// `base64::engine::general_purpose::STANDARD.decode`.
#[verifier::external_body]
fn base64_decode(data: &str) -> (r: Option<Vec<u8>>)
    ensures
        match r {
            Some(b) => base64_decoded(data@) == Some(b@),
            None => base64_decoded(data@) is None,
        },
{
    base64::Engine::decode(&base64::engine::general_purpose::STANDARD, data).ok()
}

/// `base64::engine::general_purpose::STANDARD.encode`: the standard
/// alphabet with padding, as [`base64_encoded`] states it.
#[verifier::external_body]
fn base64_encode(bytes: &[u8]) -> (r: String)
    ensures
        r@ == base64_encoded(bytes@),
{
    base64::Engine::encode(&base64::engine::general_purpose::STANDARD, bytes)
}

/// `image::guess_format`, with the formats the composer does not take
/// reported as `Other`.
#[verifier::external_body]
fn guess_format(bytes: &[u8]) -> (r: Option<ImageKind>)
    ensures
        r == guessed_format(bytes@),
{
    match image::guess_format(bytes) {
        Ok(image::ImageFormat::Png) => Some(ImageKind::Png),
        Ok(image::ImageFormat::Jpeg) => Some(ImageKind::Jpeg),
        Ok(image::ImageFormat::Gif) => Some(ImageKind::Gif),
        Ok(image::ImageFormat::WebP) => Some(ImageKind::WebP),
        Ok(image::ImageFormat::Bmp) => Some(ImageKind::Bmp),
        Ok(image::ImageFormat::Tiff) => Some(ImageKind::Tiff),
        Ok(_) => Some(ImageKind::Other),
        Err(_) => None,
    }
}

/// The PNG encoding of the `width` by `height` RGBA image whose pixels are
/// the bytes of `rgba`, four to a pixel, row by row; `None` when encoding
/// fails.
pub uninterp spec fn png_encoded(width: u32, height: u32, rgba: Seq<u8>) -> Option<Seq<u8>>;

/// `image::RgbaImage::from_raw` over a copy of `rgba`, then
/// `DynamicImage::write_to` with the PNG format, into memory. The PNG
/// encoder asserts that the buffer it is handed holds exactly the four bytes
/// of every pixel, and `from_raw` keeps a longer buffer whole, so `rgba`
/// must have exactly that length; `from_raw` then always gives an image.
#[verifier::external_body]
fn encode_rgba_png(width: u32, height: u32, rgba: &[u8]) -> (r: Option<Vec<u8>>)
    requires
        rgba@.len() == 4 * width * height,
    ensures
        match r {
            Some(png) => png_encoded(width, height, rgba@) == Some(png@),
            None => png_encoded(width, height, rgba@) is None,
        },
{
    let img = image::RgbaImage::from_raw(width, height, rgba.to_vec())?;
    let mut cursor = std::io::Cursor::new(Vec::new());
    match image::DynamicImage::ImageRgba8(img).write_to(&mut cursor, image::ImageFormat::Png) {
        Ok(()) => Some(cursor.into_inner()),
        Err(_) => None,
    }
}

/// The MIME type of an image of kind `k`, if the composer takes it.
pub open spec fn mime_type_of(k: ImageKind) -> Option<Seq<char>> {
    match k {
        ImageKind::Png => Some("image/png"@),
        ImageKind::Jpeg => Some("image/jpeg"@),
        ImageKind::Gif => Some("image/gif"@),
        ImageKind::WebP => Some("image/webp"@),
        ImageKind::Bmp => Some("image/bmp"@),
        ImageKind::Tiff => Some("image/tiff"@),
        ImageKind::Other => None,
    }
}

fn mime_type_for(k: ImageKind) -> (r: Option<&'static str>)
    ensures
        match r {
            Some(m) => mime_type_of(k) == Some(m@),
            None => mime_type_of(k) is None,
        },
{
    match k {
        ImageKind::Png => Some("image/png"),
        ImageKind::Jpeg => Some("image/jpeg"),
        ImageKind::Gif => Some("image/gif"),
        ImageKind::WebP => Some("image/webp"),
        ImageKind::Bmp => Some("image/bmp"),
        ImageKind::Tiff => Some("image/tiff"),
        ImageKind::Other => None,
    }
}

/// The attachment for a pasted base64 text `data` that decodes to
/// `decoded_len` bytes of an image of kind `kind`.
pub open spec fn pasted_image(data: Seq<char>, decoded_len: nat, kind: ImageKind) -> Option<
    ImageContentView,
> {
    match mime_type_of(kind) {
        None => None,
        Some(mime) => Some(
            ImageContentView {
                data_url: "data:"@ + mime + ";base64,"@ + data,
                mime_type: mime,
                width: None,
                height: None,
                bytes: Some(decoded_len as u64),
                sha256: None,
            },
        ),
    }
}

pub open spec fn image_view(o: Option<ImageContent>) -> Option<ImageContentView> {
    match o {
        Some(c) => Some(c@),
        None => None,
    }
}

/// The attachment for a pasted image whose base64 text `data` decodes to
/// `decoded_len` bytes recognised as `kind`; `None` for a kind the
/// composer does not take.
pub fn image_from_pasted(data: &str, decoded_len: usize, kind: ImageKind) -> (r: Option<
    ImageContent,
>)
    ensures
        image_view(r) == pasted_image(data@, decoded_len as nat, kind),
{
    let mime = match mime_type_for(kind) {
        Some(m) => m,
        None => {
            return None;
        },
    };
    let mut url = String::new();
    push_str(&mut url, "data:");
    push_str(&mut url, mime);
    push_str(&mut url, ";base64,");
    push_str(&mut url, data);
    let mut mime_type = String::new();
    push_str(&mut mime_type, mime);
    Some(
        ImageContent {
            source: ImageSource::DataUrl { data_url: url },
            mime_type,
            width: None,
            height: None,
            bytes: Some(decoded_len as u64),
            sha256: None,
        },
    )
}

/// Recognises pasted text as a base64 image: the attachment for it when it
/// decodes to an image in a format the composer takes.
pub fn decode_pasted_image(data: &str) -> (r: Option<ImageContent>)
    ensures
        image_view(r) == match base64_decoded(data@) {
            None => None,
            Some(bytes) => match guessed_format(bytes) {
                None => None,
                Some(kind) => pasted_image(data@, bytes.len(), kind),
            },
        },
{
    let bytes = match base64_decode(data) {
        Some(b) => b,
        None => {
            return None;
        },
    };
    let kind = match guess_format(bytes.as_slice()) {
        Some(k) => k,
        None => {
            return None;
        },
    };
    image_from_pasted(data, bytes.len(), kind)
}

/// The attachment for PNG bytes `png` of an image of `width` by `height`.
pub open spec fn png_image(width: u32, height: u32, png: Seq<u8>) -> ImageContentView {
    ImageContentView {
        data_url: "data:image/png;base64,"@ + base64_encoded(png),
        mime_type: "image/png"@,
        width: Some(width),
        height: Some(height),
        bytes: Some(png.len() as u64),
        sha256: None,
    }
}

/// The attachment for an image of `width` by `height` encoded as `png`.
pub fn image_from_png(width: u32, height: u32, png: &[u8]) -> (r: ImageContent)
    ensures
        r@ == png_image(width, height, png@),
{
    let encoded = base64_encode(png);
    let mut url = String::new();
    push_str(&mut url, "data:image/png;base64,");
    push_str(&mut url, encoded.as_str());
    let mut mime_type = String::new();
    push_str(&mut mime_type, "image/png");
    ImageContent {
        source: ImageSource::DataUrl { data_url: url },
        mime_type,
        width: Some(width),
        height: Some(height),
        bytes: Some(png.len() as u64),
        sha256: None,
    }
}

/// Turns clipboard pixels (`width` by `height`, four bytes each) into a
/// PNG attachment.  `None` when a side does not fit in 32 bits, when
/// `rgba_bytes` does not hold exactly the four bytes of every pixel, or when
/// encoding fails.
pub fn encode_clipboard_rgba_image(width: usize, height: usize, rgba_bytes: &[u8]) -> (r: Option<
    ImageContent,
>)
    ensures
        width > u32::MAX || height > u32::MAX ==> r is None,
        rgba_bytes@.len() != 4 * width * height ==> r is None,
        width <= u32::MAX && height <= u32::MAX && rgba_bytes@.len() == 4 * width * height ==> {
            let png = png_encoded(width as u32, height as u32, rgba_bytes@);
            &&& (r is Some <==> png is Some)
            &&& (r matches Some(c) ==> c@ == png_image(width as u32, height as u32, png->0))
        },
{
    if width > 4294967295 || height > 4294967295 {
        return None;
    }
    let len = rgba_bytes.len();
    proof {
        lemma_four_times_area(width as int, height as int);
    }
    let pixels = match width.checked_mul(height) {
        Some(p) => p,
        None => return None,
    };
    let expected = match pixels.checked_mul(4) {
        Some(n) => n,
        None => return None,
    };
    if expected != len {
        return None;
    }
    let w = width as u32;
    let h = height as u32;
    match encode_rgba_png(w, h, rgba_bytes) {
        Some(png) => {
            let c = image_from_png(w, h, png.as_slice());
            Some(c)
        },
        None => None,
    }
}

proof fn lemma_four_times_area(w: int, h: int)
    ensures
        4 * w * h == (w * h) * 4,
{
    assert(4 * w * h == (w * h) * 4) by (nonlinear_arith);
}

/// Each format the composer takes gets its standard MIME type, the other
/// formats none, and no two formats share a type.
pub proof fn law_image_kinds_have_their_standard_mime_types(a: ImageKind, b: ImageKind)
    ensures
        mime_type_of(ImageKind::Png) == Some("image/png"@),
        mime_type_of(ImageKind::Jpeg) == Some("image/jpeg"@),
        mime_type_of(ImageKind::Gif) == Some("image/gif"@),
        mime_type_of(ImageKind::WebP) == Some("image/webp"@),
        mime_type_of(ImageKind::Bmp) == Some("image/bmp"@),
        mime_type_of(ImageKind::Tiff) == Some("image/tiff"@),
        mime_type_of(ImageKind::Other) is None,
        mime_type_of(a) is Some && mime_type_of(a) == mime_type_of(b) ==> a == b,
{
    reveal_strlit("image/png");
    reveal_strlit("image/jpeg");
    reveal_strlit("image/gif");
    reveal_strlit("image/webp");
    reveal_strlit("image/bmp");
    reveal_strlit("image/tiff");
    if mime_type_of(a) is Some && mime_type_of(a) == mime_type_of(b) {
        let ma = mime_type_of(a)->0;
        assert(ma.len() >= 9);
        if a != b {
            match a {
                ImageKind::Png => assert(ma[6] == 'p'),
                ImageKind::Jpeg => assert(ma[6] == 'j'),
                ImageKind::Gif => assert(ma[6] == 'g'),
                ImageKind::WebP => assert(ma[6] == 'w'),
                ImageKind::Bmp => assert(ma[6] == 'b'),
                ImageKind::Tiff => assert(ma[6] == 't'),
                ImageKind::Other => {},
            }
        }
    }
}

/// A pasted image is labelled with the MIME type of the format detected in
/// its bytes, both in its type and in its data URL, which carries the pasted
/// text unchanged.
pub proof fn law_pasted_image_is_labelled_by_its_format(data: Seq<char>, len: nat, kind: ImageKind)
    requires
        kind != ImageKind::Other,
    ensures
        pasted_image(data, len, kind) matches Some(v) && v.mime_type == mime_type_of(kind)->0
            && v.data_url == "data:"@ + mime_type_of(kind)->0 + ";base64,"@ + data,
        kind == ImageKind::Jpeg ==> pasted_image(data, len, kind)->0.mime_type == "image/jpeg"@,
        kind == ImageKind::Png ==> pasted_image(data, len, kind)->0.mime_type == "image/png"@,
{
}

} // verus!
