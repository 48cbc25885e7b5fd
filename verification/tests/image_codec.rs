use eli_lib::bake::InputFormat;
use eli_lib::error::ErrorKind;
use eli_lib::image_codec::{
    choose_format, decode_static_image, decoded_image, encode_webp_lossless, encoded_frame, input_format,
    webp_inspection, DecodeStage,
};
use image::codecs::png::PngEncoder;
use image::{ExtendedColorType, ImageEncoder};

fn png_of(width: u32, height: u32, pixels: &[u8]) -> Vec<u8> {
    let mut out = Vec::new();
    PngEncoder::new(&mut out).write_image(pixels, width, height, ExtendedColorType::Rgba8).unwrap();
    out
}

const PIXELS: [u8; 8] = [255, 0, 0, 255, 0, 0, 255, 128];

#[test]
fn a_lossless_frame_decodes_to_its_pixels() {
    let webp = encode_webp_lossless(2, 1, &PIXELS.to_vec()).unwrap();
    assert_eq!(&webp[..4], b"RIFF");
    assert_ne!(webp, PIXELS.to_vec());
    let (width, height, pixels) = decode_static_image("frame.bin", &webp).unwrap();
    assert_eq!((width, height), (2, 1));
    assert_eq!(pixels, PIXELS.to_vec());
}

#[test]
fn decodes_a_png_by_its_content() {
    let png = png_of(2, 1, &PIXELS);
    assert_eq!(input_format("picture.jpg", &png), InputFormat::Png);
    let (width, height, pixels) = decode_static_image("picture.jpg", &png).unwrap();
    assert_eq!((width, height, pixels), (2, 1, PIXELS.to_vec()));
}

#[test]
fn refuses_gif_and_unknown_images() {
    let error = decode_static_image("a.gif", &b"GIF89a\x01\x00\x01\x00".to_vec()).unwrap_err();
    assert_eq!(error.kind(), ErrorKind::InvalidInput);
    assert_eq!(error.to_string(), "GIF images are not supported: a.gif");
    let error = decode_static_image("notes.txt", &b"plain text".to_vec()).unwrap_err();
    assert_eq!(error.kind(), ErrorKind::InvalidInput);
    assert_eq!(error.to_string(), "unsupported input image format: notes.txt");
}

#[test]
fn refuses_an_animated_png() {
    let mut bytes = vec![137, 80, 78, 71, 13, 10, 26, 10];
    bytes.extend_from_slice(&[0, 0, 0, 8]);
    bytes.extend_from_slice(b"acTL");
    bytes.extend_from_slice(&[0; 12]);
    let error = decode_static_image("moving.png", &bytes).unwrap_err();
    assert_eq!(error.kind(), ErrorKind::InvalidInput);
    assert_eq!(error.to_string(), "animated images are not supported: moving.png");
}

#[test]
fn names_the_step_that_could_not_decode() {
    let mut bytes = vec![137, 80, 78, 71, 13, 10, 26, 10];
    bytes.extend_from_slice(&[0, 0, 0, 0]);
    bytes.extend_from_slice(b"IEND");
    bytes.extend_from_slice(&[0; 4]);
    let error = decode_static_image("broken.png", &bytes).unwrap_err();
    assert_eq!(error.kind(), ErrorKind::InvalidData);
    assert!(error.to_string().starts_with("failed to "));
    assert!(error.to_string().contains("broken.png: "));
    let error = decode_static_image("short.png", &vec![137, 80]).unwrap_err();
    assert_eq!(error.kind(), ErrorKind::UnexpectedEof);
}

#[test]
fn chooses_the_format_from_the_content_then_the_extension() {
    assert_eq!(choose_format("a.png", Some(InputFormat::Gif)), InputFormat::Gif);
    assert_eq!(choose_format("a.JPG", None), InputFormat::Jpeg);
    assert_eq!(choose_format("a.jfif", None), InputFormat::Jpeg);
    assert_eq!(choose_format("a.TIF", None), InputFormat::Tiff);
    assert_eq!(choose_format("a.qoi", None), InputFormat::Other);
    assert_eq!(choose_format("a.txt", None), InputFormat::Other);
    assert_eq!(choose_format("a", None), InputFormat::Other);
    assert_eq!(choose_format(".png", None), InputFormat::Other);
}

#[test]
fn checks_what_the_decoder_gave() {
    let error = decoded_image("a.png", Ok((0, 1, Vec::new()))).unwrap_err();
    assert_eq!(error.kind(), ErrorKind::InvalidData);
    assert_eq!(error.to_string(), "input image has an empty dimension: a.png");
    let error = decoded_image("a.png", Err((DecodeStage::ReadOrientation, "bad exif".to_owned()))).unwrap_err();
    assert_eq!(error.to_string(), "failed to read image orientation a.png: bad exif");
    let error = decoded_image("a.png", Err((DecodeStage::CreateDecoder, "x".to_owned()))).unwrap_err();
    assert_eq!(error.to_string(), "failed to create image decoder a.png: x");
    let error = decoded_image("a.png", Err((DecodeStage::DecodeImage, "y".to_owned()))).unwrap_err();
    assert_eq!(error.to_string(), "failed to decode image a.png: y");
    assert_eq!(decoded_image("a.png", Ok((1, 1, vec![1, 2, 3, 4]))).unwrap(), (1, 1, vec![1, 2, 3, 4]));
}

#[test]
fn reports_webp_inspection_and_encoding_failures() {
    let error = webp_inspection("a.webp", Err("no RIFF".to_owned())).unwrap_err();
    assert_eq!(error.kind(), ErrorKind::InvalidData);
    assert_eq!(error.to_string(), "failed to inspect WebP animation a.webp: no RIFF");
    assert!(webp_inspection("a.webp", Ok(true)).unwrap());
    let error = encoded_frame(Err("too large".to_owned())).unwrap_err();
    assert_eq!(error.kind(), ErrorKind::Other);
    assert_eq!(error.to_string(), "WebP encoding failed: too large");
    let error = decode_static_image("a.webp", &b"RIFF\x04\x00\x00\x00WEBPjunk".to_vec()).unwrap_err();
    assert_eq!(error.kind(), ErrorKind::InvalidData);
    assert!(error.to_string().starts_with("failed to inspect WebP animation a.webp: "));
}
