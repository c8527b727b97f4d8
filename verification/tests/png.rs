use base64::Engine;
use pinshot::png::{clipboard_buffer_ok, data_url_from_png, encode_clipboard_png, encode_error_message};

fn reference_png(w: u32, h: u32, rgba: &[u8]) -> Vec<u8> {
    let buf: image::RgbaImage = image::ImageBuffer::from_raw(w, h, rgba.to_vec()).unwrap();
    let mut png: Vec<u8> = Vec::new();
    image::DynamicImage::ImageRgba8(buf)
        .write_to(&mut std::io::Cursor::new(&mut png), image::ImageFormat::Png)
        .unwrap();
    png
}

#[test]
fn clipboard_pixels_become_a_png_data_url() {
    let rgba = vec![255, 0, 0, 255, 0, 255, 0, 128];
    let (url, w, h) = encode_clipboard_png(2, 1, rgba.clone()).unwrap();
    assert_eq!((w, h), (2, 1));
    let prefix = "data:image/png;base64,";
    assert!(url.starts_with(prefix));
    let png = base64::engine::general_purpose::STANDARD.decode(&url[prefix.len()..]).unwrap();
    assert_eq!(png, reference_png(2, 1, &rgba));
    assert_eq!(&png[..8], &[0x89, b'P', b'N', b'G', 0x0d, 0x0a, 0x1a, 0x0a]);
    let expected = format!(
        "data:image/png;base64,{}",
        base64::engine::general_purpose::STANDARD.encode(reference_png(2, 1, &rgba))
    );
    assert_eq!(url, expected);
    // the raw pixels themselves are not what gets encoded
    assert_ne!(
        url,
        format!("data:image/png;base64,{}", base64::engine::general_purpose::STANDARD.encode(&rgba))
    );
}

#[test]
fn decoded_png_has_the_clipboard_pixels() {
    let rgba: Vec<u8> = (0..4 * 3 * 2).map(|b| b as u8 * 7).collect();
    let (url, _, _) = encode_clipboard_png(3, 2, rgba.clone()).unwrap();
    let png = base64::engine::general_purpose::STANDARD
        .decode(&url["data:image/png;base64,".len()..])
        .unwrap();
    let img = image::load_from_memory_with_format(&png, image::ImageFormat::Png).unwrap();
    let back = img.to_rgba8();
    assert_eq!(back.dimensions(), (3, 2));
    assert_eq!(back.into_raw(), rgba);
}

#[test]
fn short_buffer_is_an_unexpected_size() {
    assert_eq!(
        encode_clipboard_png(2, 2, vec![0; 15]),
        Err("Clipboard image had an unexpected size.".to_string())
    );
    assert_eq!(
        encode_clipboard_png(u32::MAX, u32::MAX, vec![]),
        Err("Clipboard image had an unexpected size.".to_string())
    );
}

#[test]
fn empty_image_fails_to_encode() {
    let r = encode_clipboard_png(0, 0, vec![]);
    let msg = r.unwrap_err();
    assert!(msg.starts_with("Could not encode the image: "), "{msg}");
    assert!(msg.len() > "Could not encode the image: ".len());
}

#[test]
fn data_url_of_known_bytes() {
    assert_eq!(data_url_from_png(&vec![]), "data:image/png;base64,");
    assert_eq!(data_url_from_png(&b"Man".to_vec()), "data:image/png;base64,TWFu");
    assert_eq!(data_url_from_png(&b"Ma".to_vec()), "data:image/png;base64,TWE=");
    assert_eq!(data_url_from_png(&vec![0xff, 0xfe]), "data:image/png;base64,//4=");
}

#[test]
fn encode_error_message_prefixes() {
    assert_eq!(encode_error_message("boom"), "Could not encode the image: boom");
}

#[test]
fn buffer_check_matches_the_encoder() {
    assert!(clipboard_buffer_ok(2, 1, 8));
    assert!(!clipboard_buffer_ok(2, 1, 9));
    assert!(clipboard_buffer_ok(2, 1, 7));
    assert!(clipboard_buffer_ok(0, 5, 0));
    assert!(!clipboard_buffer_ok(0, 5, 1));
    assert!(clipboard_buffer_ok(u32::MAX, u32::MAX, usize::MAX));
}
