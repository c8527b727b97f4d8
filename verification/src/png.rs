//! Turning the clipboard's raw RGBA pixels into the PNG data URL a pin
//! window displays. The pixel buffer check, the PNG encoding and the base64
//! encoding are the `image` and `base64` crates' work, called through the
//! trusted items below; the decisions and messages around them are verified.
use vstd::prelude::*;
use base64::Engine;

verus! {

#[verifier::external_type_specification]
#[verifier::external_body]
pub struct ExDynamicImage(image::DynamicImage);

/// The 8-bit samples an image built from raw RGBA data holds.
pub uninterp spec fn rgba8_samples(img: image::DynamicImage) -> Seq<u8>;

/// The width and height an image was built with.
pub uninterp spec fn image_size(img: image::DynamicImage) -> (u32, u32);

/// What `image::DynamicImage::write_to` in PNG format writes for an 8-bit
/// RGBA image of this size and these samples: the PNG file's bytes, or the
/// text of the error it reports.
pub uninterp spec fn png_encoding(width: u32, height: u32, samples: Seq<u8>) -> Result<
    Seq<u8>,
    Seq<char>,
>;

/// What the `base64` crate's `STANDARD` engine (RFC 4648 alphabet, `=`
/// padding) encodes `bytes` to.
pub uninterp spec fn base64_standard(bytes: Seq<u8>) -> Seq<char>;

/// Whether `image::ImageBuffer::from_raw` accepts `len` samples for an RGBA
/// image of this size: the sample count `4 * width * height`, computed in
/// `usize` as `(4 * width) * height`, must not overflow and must not exceed
/// `len`.
pub open spec fn rgba_fits(width: u32, height: u32, len: int) -> bool {
    &&& 4 * width <= usize::MAX
    &&& 4 * width * height <= usize::MAX
    &&& 4 * width * height <= len
}

/// The data URL under which a pin window shows PNG bytes.
pub open spec fn png_data_url_of(png: Seq<u8>) -> Seq<char> {
    "data:image/png;base64,"@ + base64_standard(png)
}

/// `image::ImageBuffer::<Rgba<u8>, Vec<u8>>::from_raw`, the buffer then
/// wrapped as `DynamicImage::ImageRgba8`. Per the crate's source it returns
/// an image exactly when `rgba_fits`, and that image keeps the given size and
/// the whole sample vector.
#[verifier::external_body]
fn rgba_image_from_raw(width: u32, height: u32, rgba: Vec<u8>) -> (r: Option<image::DynamicImage>)
    ensures
        r is Some <==> rgba_fits(width, height, rgba@.len() as int),
        r matches Some(img) ==> rgba8_samples(img) == rgba@ && image_size(img) == (width, height),
{
    match image::ImageBuffer::from_raw(width, height, rgba) {
        Some(buf) => Some(image::DynamicImage::ImageRgba8(buf)),
        None => None,
    }
}

/// `image::DynamicImage::write_to` with `ImageFormat::Png` into an in-memory
/// cursor, the error turned into its text. The PNG encoder asserts (panics)
/// unless the image holds exactly `4 * width * height` samples, hence the
/// `requires`. The result is the named `png_encoding` of the image's size and
/// samples; as for every `Vec<u8>`, its length is at most `isize::MAX`.
#[verifier::external_body]
fn encode_png(img: image::DynamicImage) -> (r: Result<Vec<u8>, String>)
    requires
        rgba8_samples(img).len() == 4 * image_size(img).0 * image_size(img).1,
    ensures
        match r {
            Ok(b) => png_encoding(image_size(img).0, image_size(img).1, rgba8_samples(img)) == Ok::<
                Seq<u8>,
                Seq<char>,
            >(b@) && b@.len() <= isize::MAX,
            Err(e) => png_encoding(image_size(img).0, image_size(img).1, rgba8_samples(img))
                == Err::<Seq<u8>, Seq<char>>(e@),
        },
{
    let mut png: Vec<u8> = Vec::new();
    match img.write_to(&mut std::io::Cursor::new(&mut png), image::ImageFormat::Png) {
        Ok(()) => Ok(png),
        Err(e) => Err(e.to_string()),
    }
}

/// `base64::engine::general_purpose::STANDARD.encode`. It panics when the
/// encoded length `4 * ceil(len / 3)` overflows `usize`, hence the `requires`.
#[verifier::external_body]
fn encode_base64(bytes: &Vec<u8>) -> (s: String)
    requires
        4 * ((bytes@.len() + 2) / 3) <= usize::MAX,
    ensures
        s@ == base64_standard(bytes@),
{
    base64::engine::general_purpose::STANDARD.encode(bytes)
}

/// The data URL that shows the given PNG bytes.
pub fn data_url_from_png(png: &Vec<u8>) -> (url: String)
    requires
        png@.len() <= isize::MAX,
    ensures
        url@ == png_data_url_of(png@),
{
    assert(4 * ((png@.len() + 2) / 3) <= usize::MAX);
    let b64 = encode_base64(png);
    String::from_str("data:image/png;base64,").concat(b64.as_str())
}

/// The message shown when PNG encoding fails with `error`.
pub fn encode_error_message(error: &str) -> (msg: String)
    ensures
        msg@ == "Could not encode the image: "@ + error@,
{
    String::from_str("Could not encode the image: ").concat(error)
}

/// Whether a clipboard buffer of `len` samples can go to the encoder: one that
/// the image buffer accepts must hold exactly the image's samples, since the
/// PNG encoder asserts that it does.
pub fn clipboard_buffer_ok(width: u32, height: u32, len: usize) -> (b: bool)
    ensures
        b == (rgba_fits(width, height, len as int) ==> len == 4 * width * height),
{
    let row = (width as u128) * 4;
    assert(row * (height as u128) <= 4 * 0xffff_ffffu128 * 0xffff_ffffu128) by (nonlinear_arith)
        requires
            row == width * 4,
            width <= 0xffff_ffffu32,
            height <= 0xffff_ffffu32,
    ;
    let total = row * (height as u128);
    if row > usize::MAX as u128 || total > usize::MAX as u128 || total > len as u128 {
        true
    } else {
        total == len as u128
    }
}

/// Encode clipboard pixels (`width` x `height`, 8-bit RGBA rows) as a PNG
/// data URL, returned with the pixel size. Errors, with a message for the
/// user, when the buffer does not fit the size or the encoder fails. A buffer
/// that fits but is longer than the image makes the PNG encoder panic, so it
/// is left out.
pub fn encode_clipboard_png(width: u32, height: u32, rgba: Vec<u8>) -> (r: Result<
    (String, u32, u32),
    String,
>)
    requires
        rgba_fits(width, height, rgba@.len() as int) ==> rgba@.len() == 4 * width * height,
    ensures
        !rgba_fits(width, height, rgba@.len() as int) ==> (r matches Err(m) && m@
            == "Clipboard image had an unexpected size."@),
        rgba_fits(width, height, rgba@.len() as int) ==> match png_encoding(width, height, rgba@) {
            Ok(png) => r matches Ok((url, w, h)) && url@ == png_data_url_of(png) && w == width && h
                == height,
            Err(e) => r matches Err(m) && m@ == "Could not encode the image: "@ + e,
        },
{
    let img = match rgba_image_from_raw(width, height, rgba) {
        Some(img) => img,
        None => {
            return Err(String::from_str("Clipboard image had an unexpected size."));
        },
    };
    let png = match encode_png(img) {
        Ok(png) => png,
        Err(e) => {
            return Err(encode_error_message(e.as_str()));
        },
    };
    Ok((data_url_from_png(&png), width, height))
}

} // verus!
