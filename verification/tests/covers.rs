use base64::Engine;
use tunante::artwork::{data_uri_payload, decode_artwork, needs_thumbnail};

fn png(w: u32, h: u32) -> Vec<u8> {
    let img = image::RgbaImage::from_pixel(w, h, image::Rgba([200, 100, 50, 255]));
    let mut out: Vec<u8> = Vec::new();
    image::DynamicImage::ImageRgba8(img)
        .write_to(&mut std::io::Cursor::new(&mut out), image::ImageFormat::Png)
        .expect("encode");
    out
}

fn data_uri(bytes: &[u8]) -> String {
    format!("data:image/png;base64,{}", base64::engine::general_purpose::STANDARD.encode(bytes))
}

#[test]
fn the_payload_is_the_second_piece() {
    assert_eq!(data_uri_payload("data:x;base64,QUJD"), Some("QUJD".to_string()));
    assert_eq!(data_uri_payload("a,b,c"), Some("b".to_string()));
    assert_eq!(data_uri_payload("no comma"), None);
}

#[test]
fn a_small_cover_keeps_its_size() {
    let (w, h, px) = decode_artwork(&data_uri(&png(4, 2)), 720).expect("decodes");
    assert_eq!((w, h), (4, 2));
    assert_eq!(px.len(), 4 * 2 * 4);
    assert_eq!(&px[0..4], &[200, 100, 50, 255]);
}

#[test]
fn a_large_cover_is_scaled_to_fit() {
    let (w, h, px) = decode_artwork(&data_uri(&png(40, 20)), 10).expect("decodes");
    assert_eq!((w, h), (10, 5));
    assert_eq!(px.len(), 10 * 5 * 4);
}

#[test]
fn bad_covers_are_none() {
    assert!(decode_artwork("data:image/png;base64,!!!", 720).is_none());
    assert!(decode_artwork("data:image/png;base64,QUJD", 720).is_none());
    assert!(decode_artwork("nothing", 720).is_none());
    assert!(needs_thumbnail(30, 800, 720));
    assert!(!needs_thumbnail(720, 720, 720));
}
