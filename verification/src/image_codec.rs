//! Reading a bake's input image and writing its frames, with the `image`
//! crate: which format an input is read as, the checks before and after
//! decoding it, and the lossless WebP bytes of a frame.
use crate::bake::{
    format_accepted, png_animation, png_is_animated, png_refusal, reject_animation,
    validate_format, check_dimensions, InputFormat,
};
use crate::config::{extension, extension_of};
use crate::error::{EliError, ErrorKind};
use crate::text::{chars_of, concat, eq, lower_seq, string_of, to_lower};
use image::codecs::webp::{WebPDecoder, WebPEncoder};
use image::{DynamicImage, ImageDecoder, ImageEncoder, ImageFormat, ImageReader};
use std::io::Cursor;
use vstd::prelude::*;

verus! {

/// The format that the first bytes of a file announce, as
/// `image::guess_format` reads them.
pub uninterp spec fn announced_format(bytes: Seq<u8>) -> Option<InputFormat>;

/// Whether the WebP file `bytes` is animated, as `WebPDecoder` reads it;
/// `None` where the decoder cannot read the file.
pub uninterp spec fn webp_animation(bytes: Seq<u8>) -> Option<bool>;

/// The width, height and RGBA pixels that the `image` crate decodes from
/// `bytes` read as `format`, turned as the file's orientation says; or the
/// step that failed.
pub uninterp spec fn decoded_rgba(bytes: Seq<u8>, format: InputFormat) -> Result<
    (u32, u32, Seq<u8>),
    DecodeStage,
>;

/// The lossless WebP file that the `image` crate makes of RGBA pixels;
/// `None` where the encoder refuses them.
pub uninterp spec fn webp_lossless(width: u32, height: u32, pixels: Seq<u8>) -> Option<Seq<u8>>;

/// `ImageFormat::from_extension` on an extension already in ASCII lower
/// case, the formats a bake does not read counted as `Other`.
pub open spec fn extension_image_format(e: Seq<char>) -> Option<InputFormat> {
    if e == "jpg"@ || e == "jpeg"@ || e == "jfif"@ {
        Some(InputFormat::Jpeg)
    } else if e == "png"@ || e == "apng"@ {
        Some(InputFormat::Png)
    } else if e == "gif"@ {
        Some(InputFormat::Gif)
    } else if e == "webp"@ {
        Some(InputFormat::WebP)
    } else if e == "tif"@ || e == "tiff"@ {
        Some(InputFormat::Tiff)
    } else if e == "tga"@ {
        Some(InputFormat::Tga)
    } else if e == "bmp"@ {
        Some(InputFormat::Bmp)
    } else if e == "ico"@ {
        Some(InputFormat::Ico)
    } else if e == "avif"@ || e == "dds"@ || e == "hdr"@ || e == "exr"@ || e == "pbm"@ || e
        == "pam"@ || e == "ppm"@ || e == "pgm"@ || e == "pnm"@ || e == "ff"@ || e == "qoi"@ {
        Some(InputFormat::Other)
    } else {
        None
    }
}

/// `image::guess_format`: the format the first bytes of a file announce.
#[verifier::external_body]
fn guess_format(bytes: &Vec<u8>) -> (r: Option<InputFormat>)
    ensures
        r == announced_format(bytes@),
{
    match image::guess_format(bytes) {
        Ok(ImageFormat::Jpeg) => Some(InputFormat::Jpeg),
        Ok(ImageFormat::Png) => Some(InputFormat::Png),
        Ok(ImageFormat::WebP) => Some(InputFormat::WebP),
        Ok(ImageFormat::Bmp) => Some(InputFormat::Bmp),
        Ok(ImageFormat::Tiff) => Some(InputFormat::Tiff),
        Ok(ImageFormat::Ico) => Some(InputFormat::Ico),
        Ok(ImageFormat::Tga) => Some(InputFormat::Tga),
        Ok(ImageFormat::Gif) => Some(InputFormat::Gif),
        Ok(_) => Some(InputFormat::Other),
        Err(_) => None,
    }
}

/// Whether `e` spells `word`.
fn spells(e: &Vec<char>, word: &str) -> (r: bool)
    ensures
        r == (e@ == word@),
{
    eq(e, &chars_of(word))
}

/// The format an extension names, ASCII case ignored, by the table of
/// `ImageFormat::from_extension`.
fn format_of_extension(extension: &str) -> (r: Option<InputFormat>)
    ensures
        r == extension_image_format(lower_seq(extension@)),
{
    let e = to_lower(&chars_of(extension));
    if spells(&e, "jpg") || spells(&e, "jpeg") || spells(&e, "jfif") {
        Some(InputFormat::Jpeg)
    } else if spells(&e, "png") || spells(&e, "apng") {
        Some(InputFormat::Png)
    } else if spells(&e, "gif") {
        Some(InputFormat::Gif)
    } else if spells(&e, "webp") {
        Some(InputFormat::WebP)
    } else if spells(&e, "tif") || spells(&e, "tiff") {
        Some(InputFormat::Tiff)
    } else if spells(&e, "tga") {
        Some(InputFormat::Tga)
    } else if spells(&e, "bmp") {
        Some(InputFormat::Bmp)
    } else if spells(&e, "ico") {
        Some(InputFormat::Ico)
    } else if spells(&e, "avif") || spells(&e, "dds") || spells(&e, "hdr") || spells(&e, "exr")
        || spells(&e, "pbm") || spells(&e, "pam") || spells(&e, "ppm") || spells(&e, "pgm")
        || spells(&e, "pnm") || spells(&e, "ff") || spells(&e, "qoi") {
        Some(InputFormat::Other)
    } else {
        None
    }
}

/// `WebPDecoder::new` and `has_animation`: whether a WebP file is
/// animated. What a refusal says is the decoder's own text, not stated
/// here.
#[verifier::external_body]
fn webp_has_animation(bytes: &Vec<u8>) -> (r: Result<bool, String>)
    ensures
        match r {
            Ok(b) => webp_animation(bytes@) == Some(b),
            Err(_) => webp_animation(bytes@) is None,
        },
{
    match WebPDecoder::new(Cursor::new(bytes.as_slice())) {
        Ok(decoder) => Ok(decoder.has_animation()),
        Err(error) => Err(error.to_string()),
    }
}

/// The step of decoding an image that failed.
#[derive(Clone, Copy, Debug, PartialEq, Eq, Structural)]
pub enum DecodeStage {
    /// Making a decoder for the format.
    CreateDecoder,
    /// Reading the orientation the file records.
    ReadOrientation,
    /// Decoding the pixels.
    DecodeImage,
}

/// `ImageFormat::from_extension`, `ImageReader::into_decoder`,
/// `ImageDecoder::orientation`, `DynamicImage::from_decoder`,
/// `apply_orientation` and `to_rgba8`: the pixels of an image read as the
/// format that `extension` names, four bytes each, row by row. The text of
/// a failure is the crate's own, not stated here.
#[verifier::external_body]
fn decode_rgba(bytes: &Vec<u8>, format: InputFormat, extension: &str) -> (r: Result<
    (u32, u32, Vec<u8>),
    (DecodeStage, String),
>)
    requires
        format_accepted(format),
        extension_image_format(lower_seq(extension@)) == Some(format),
    ensures
        match r {
            Ok(t) => decoded_rgba(bytes@, format) == Ok::<(u32, u32, Seq<u8>), DecodeStage>(
                (t.0, t.1, t.2@),
            ) && t.2@.len() == 4 * t.0 * t.1,
            Err(f) => decoded_rgba(bytes@, format) == Err::<(u32, u32, Seq<u8>), DecodeStage>(f.0),
        },
{
    let format = ImageFormat::from_extension(extension).ok_or((DecodeStage::CreateDecoder, String::new()))?;
    let reader = ImageReader::with_format(Cursor::new(bytes.as_slice()), format);
    let mut decoder = reader.into_decoder().map_err(|e| (DecodeStage::CreateDecoder, e.to_string()))?;
    let orientation = decoder.orientation().map_err(|e| (DecodeStage::ReadOrientation, e.to_string()))?;
    let mut image = DynamicImage::from_decoder(decoder).map_err(|e| (DecodeStage::DecodeImage, e.to_string()))?;
    image.apply_orientation(orientation);
    let rgba = image.to_rgba8();
    Ok((rgba.width(), rgba.height(), rgba.into_raw()))
}

/// An extension that names an accepted format.
fn extension_naming(format: InputFormat) -> (e: &'static str)
    requires
        format_accepted(format),
    ensures
        extension_image_format(lower_seq(e@)) == Some(format),
{
    proof {
        reveal_strlit("jpg");
        reveal_strlit("jpeg");
        reveal_strlit("jfif");
        reveal_strlit("png");
        reveal_strlit("apng");
        reveal_strlit("gif");
        reveal_strlit("webp");
        reveal_strlit("tif");
        reveal_strlit("tiff");
        reveal_strlit("tga");
        reveal_strlit("bmp");
        reveal_strlit("ico");
    }
    let e = match format {
        InputFormat::Jpeg => "jpeg",
        InputFormat::Png => "png",
        InputFormat::WebP => "webp",
        InputFormat::Bmp => "bmp",
        InputFormat::Tiff => "tiff",
        InputFormat::Ico => "ico",
        _ => "tga",
    };
    assert(lower_seq(e@) =~= e@);
    // Each extension differs from the same-length ones tested before it.
    if format == InputFormat::Png {
        assert("png"@[0] != "jpg"@[0]);
    }
    if format == InputFormat::WebP {
        assert("webp"@[0] != "jpeg"@[0] && "webp"@[0] != "jfif"@[0] && "webp"@[0] != "apng"@[0]);
    }
    if format == InputFormat::Bmp {
        assert("bmp"@[0] != "jpg"@[0] && "bmp"@[0] != "png"@[0] && "bmp"@[0] != "gif"@[0] && "bmp"@[0] != "tif"@[0] && "bmp"@[0] != "tga"@[0]);
    }
    if format == InputFormat::Tiff {
        assert("tiff"@[0] != "jpeg"@[0] && "tiff"@[0] != "jfif"@[0] && "tiff"@[0] != "apng"@[0] && "tiff"@[0] != "webp"@[0]);
    }
    if format == InputFormat::Ico {
        assert("ico"@[0] != "jpg"@[0] && "ico"@[0] != "png"@[0] && "ico"@[0] != "gif"@[0] && "ico"@[0] != "tif"@[0] && "ico"@[0] != "tga"@[0] && "ico"@[0] != "bmp"@[0]);
    }
    if format == InputFormat::Tga {
        assert("tga"@[1] != "jpg"@[1] && "tga"@[1] != "png"@[1] && "tga"@[1] != "gif"@[1] && "tga"@[1] != "tif"@[1]);
    }
    e
}

/// `WebPEncoder::new_lossless` and `write_image`: the lossless WebP file of
/// RGBA pixels. The text of a refusal is the encoder's own, not stated
/// here.
#[verifier::external_body]
fn encode_lossless(width: u32, height: u32, pixels: &Vec<u8>) -> (r: Result<Vec<u8>, String>)
    requires
        pixels@.len() == 4 * width * height,
    ensures
        match r {
            Ok(v) => webp_lossless(width, height, pixels@) == Some(v@),
            Err(_) => webp_lossless(width, height, pixels@) is None,
        },
{
    let mut out = Vec::new();
    WebPEncoder::new_lossless(&mut out)
        .write_image(pixels, width, height, image::ExtendedColorType::Rgba8)
        .map_err(|error| error.to_string())?;
    Ok(out)
}

/// The format an input image is read as: the one its first bytes
/// announce, else the one its path's extension names; a format that the
/// crate does not know counts as `Other`.
pub open spec fn reading_format(source: Seq<char>, announced: Option<InputFormat>) -> InputFormat {
    match announced {
        Some(f) => f,
        None => match extension(source) {
            Some(e) => if e.len() == 0 {
                InputFormat::Other
            } else {
                match extension_image_format(lower_seq(e)) {
                    Some(f) => f,
                    None => InputFormat::Other,
                }
            },
            None => InputFormat::Other,
        },
    }
}

/// The format the input image at `source` is read as, given the one its
/// first bytes announce.
pub fn choose_format(source: &str, announced: Option<InputFormat>) -> (r: InputFormat)
    ensures
        r == reading_format(source@, announced),
{
    match announced {
        Some(f) => f,
        None => match extension_of(source) {
            Some(e) => if e.len() == 0 {
                InputFormat::Other
            } else {
                match format_of_extension(string_of(&e).as_str()) {
                    Some(f) => f,
                    None => InputFormat::Other,
                }
            },
            None => InputFormat::Other,
        },
    }
}

/// The format the input image at `source`, whose bytes are `bytes`, is
/// read as.
pub fn input_format(source: &str, bytes: &Vec<u8>) -> (r: InputFormat)
    ensures
        r == reading_format(source@, announced_format(bytes@)),
{
    choose_format(source, guess_format(bytes))
}

/// What a WebP file the decoder cannot read is answered.
pub open spec fn webp_refusal(source: Seq<char>, text: Seq<char>) -> Seq<char> {
    "failed to inspect WebP animation "@ + source + ": "@ + text
}

/// What inspecting the WebP file `source` gave: whether it is animated,
/// or the decoder's refusal, which then names the file.
pub fn webp_inspection(source: &str, inspected: Result<bool, String>) -> (r: Result<bool, EliError>)
    ensures
        match inspected {
            Ok(b) => r matches Ok(x) && x == b,
            Err(text) => r matches Err(e) && e.kind == ErrorKind::InvalidData && e.message@
                == webp_refusal(source@, text@),
        },
{
    match inspected {
        Ok(b) => Ok(b),
        Err(text) => {
            let head = concat(&chars_of("failed to inspect WebP animation "), &chars_of(source));
            let m = concat(&concat(&head, &chars_of(": ")), &chars_of(text.as_str()));
            Err(EliError::new(ErrorKind::InvalidData, string_of(&m)))
        },
    }
}

/// Whether the WebP file `source`, whose bytes are `bytes`, is animated.
pub fn webp_is_animated(source: &str, bytes: &Vec<u8>) -> (r: Result<bool, EliError>)
    ensures
        match webp_animation(bytes@) {
            Some(b) => r matches Ok(x) && x == b,
            None => r matches Err(e) && e.kind == ErrorKind::InvalidData && exists|text: Seq<char>|
                e.message@ == #[trigger] webp_refusal(source@, text),
        },
{
    let inspected = webp_has_animation(bytes);
    let ghost text = if inspected is Err {
        inspected->Err_0@
    } else {
        Seq::<char>::empty()
    };
    let r = webp_inspection(source, inspected);
    proof {
        if r is Err {
            assert(r->Err_0.message@ == webp_refusal(source@, text));
        }
    }
    r
}

/// The words for the step of decoding that failed.
pub open spec fn stage_action(stage: DecodeStage) -> Seq<char> {
    match stage {
        DecodeStage::CreateDecoder => "create image decoder"@,
        DecodeStage::ReadOrientation => "read image orientation"@,
        DecodeStage::DecodeImage => "decode image"@,
    }
}

/// What an image that could not be decoded is answered.
pub open spec fn decode_refusal(source: Seq<char>, stage: DecodeStage, text: Seq<char>) -> Seq<char> {
    "failed to "@ + stage_action(stage) + " "@ + source + ": "@ + text
}

/// What decoding the image `source` gave, checked: the image, unless a
/// side of it is empty, or the refusal, which names the step that failed.
pub fn decoded_image(source: &str, decoded: Result<(u32, u32, Vec<u8>), (DecodeStage, String)>) -> (r:
    Result<(u32, u32, Vec<u8>), EliError>)
    ensures
        match decoded {
            Ok(t) => if t.0 == 0 || t.1 == 0 {
                r matches Err(e) && e.kind == ErrorKind::InvalidData && e.message@
                    == "input image has an empty dimension: "@ + source@
            } else {
                r matches Ok(x) && x.0 == t.0 && x.1 == t.1 && x.2@ == t.2@
            },
            Err(f) => r matches Err(e) && e.kind == ErrorKind::InvalidData && e.message@
                == decode_refusal(source@, f.0, f.1@),
        },
{
    match decoded {
        Ok(t) => match check_dimensions(source, t.0, t.1) {
            Ok(()) => Ok(t),
            Err(e) => Err(e),
        },
        Err(f) => {
            let action = match f.0 {
                DecodeStage::CreateDecoder => "create image decoder",
                DecodeStage::ReadOrientation => "read image orientation",
                DecodeStage::DecodeImage => "decode image",
            };
            let head = concat(&chars_of("failed to "), &chars_of(action));
            let head = concat(&concat(&head, &chars_of(" ")), &chars_of(source));
            let m = concat(&concat(&head, &chars_of(": ")), &chars_of(f.1.as_str()));
            Err(EliError::new(ErrorKind::InvalidData, string_of(&m)))
        },
    }
}

/// Whether an input image read as `format` is animated: WebP and PNG
/// files are inspected, other formats hold one image.
pub open spec fn animation(bytes: Seq<u8>, format: InputFormat) -> Result<bool, ErrorKind> {
    match format {
        InputFormat::WebP => match webp_animation(bytes) {
            Some(b) => Ok(b),
            None => Err(ErrorKind::InvalidData),
        },
        InputFormat::Png => png_animation(bytes),
        _ => Ok(false),
    }
}

/// Decodes the input image `source`, whose bytes are `bytes`, to RGBA
/// pixels: its format must be an accepted one, it must not be animated,
/// and no side of it may be empty.
pub fn decode_static_image(source: &str, bytes: &Vec<u8>) -> (r: Result<(u32, u32, Vec<u8>), EliError>)
    ensures
        ({
            let format = reading_format(source@, announced_format(bytes@));
            if !format_accepted(format) {
                r matches Err(e) && e.kind == ErrorKind::InvalidInput && e.message@ == if format is Gif {
                    "GIF images are not supported: "@ + source@
                } else {
                    "unsupported input image format: "@ + source@
                }
            } else {
                match animation(bytes@, format) {
                    Err(k) => r matches Err(e) && e.kind == k && (format is Png ==> e.message@
                        == png_refusal(source@, bytes@)) && (format is WebP ==> exists|text: Seq<char>|
                        e.message@ == #[trigger] webp_refusal(source@, text)),
                    Ok(true) => r matches Err(e) && e.kind == ErrorKind::InvalidInput && e.message@
                        == "animated images are not supported: "@ + source@,
                    Ok(false) => match decoded_rgba(bytes@, format) {
                        Err(stage) => r matches Err(e) && e.kind == ErrorKind::InvalidData && exists|
                            text: Seq<char>,
                        | e.message@ == #[trigger] decode_refusal(source@, stage, text),
                        Ok(t) => if t.0 == 0 || t.1 == 0 {
                            r matches Err(e) && e.kind == ErrorKind::InvalidData && e.message@
                                == "input image has an empty dimension: "@ + source@
                        } else {
                            r matches Ok(x) && x.0 == t.0 && x.1 == t.1 && x.2@ == t.2
                                && x.2@.len() == 4 * x.0 * x.1
                        },
                    },
                }
            }
        }),
{
    let format = input_format(source, bytes);
    match validate_format(source, format) {
        Ok(()) => {},
        Err(e) => {
            return Err(e);
        },
    }
    let animated = match format {
        InputFormat::WebP => match webp_is_animated(source, bytes) {
            Ok(b) => b,
            Err(e) => {
                return Err(e);
            },
        },
        InputFormat::Png => match png_is_animated(source, bytes) {
            Ok(b) => b,
            Err(e) => {
                return Err(e);
            },
        },
        _ => false,
    };
    match reject_animation(source, animated) {
        Ok(()) => {},
        Err(e) => {
            return Err(e);
        },
    }
    let decoded = decode_rgba(bytes, format, extension_naming(format));
    let ghost text = if decoded is Err {
        decoded->Err_0.1@
    } else {
        Seq::<char>::empty()
    };
    let r = decoded_image(source, decoded);
    proof {
        if decoded is Err && r is Err {
            assert(r->Err_0.message@ == decode_refusal(source@, decoded->Err_0.0, text));
        }
    }
    r
}

/// What encoding a frame gave: its WebP bytes, or the encoder's refusal.
pub fn encoded_frame(encoded: Result<Vec<u8>, String>) -> (r: Result<Vec<u8>, EliError>)
    ensures
        match encoded {
            Ok(v) => r matches Ok(x) && x@ == v@,
            Err(text) => r matches Err(e) && e.kind == ErrorKind::Other && e.message@
                == "WebP encoding failed: "@ + text@,
        },
{
    match encoded {
        Ok(v) => Ok(v),
        Err(text) => {
            let m = concat(&chars_of("WebP encoding failed: "), &chars_of(text.as_str()));
            Err(EliError::new(ErrorKind::Other, string_of(&m)))
        },
    }
}

/// The lossless WebP file of a frame of `width` by `height` RGBA pixels.
pub fn encode_webp_lossless(width: u32, height: u32, pixels: &Vec<u8>) -> (r: Result<Vec<u8>, EliError>)
    requires
        pixels@.len() == 4 * width * height,
    ensures
        match webp_lossless(width, height, pixels@) {
            Some(v) => r matches Ok(x) && x@ == v,
            None => r matches Err(e) && e.kind == ErrorKind::Other && exists|text: Seq<char>|
                e.message@ == "WebP encoding failed: "@ + text,
        },
{
    let encoded = encode_lossless(width, height, pixels);
    let ghost text = if encoded is Err {
        encoded->Err_0@
    } else {
        Seq::<char>::empty()
    };
    let r = encoded_frame(encoded);
    proof {
        if r is Err {
            assert(r->Err_0.message@ == "WebP encoding failed: "@ + text);
        }
    }
    r
}

} // verus!
