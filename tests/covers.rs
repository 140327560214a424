use spectecle::cover_image::{normalize_cover, target_size};

fn png(width: u32, height: u32) -> Vec<u8> {
    let img = image::RgbaImage::from_pixel(width, height, image::Rgba([200, 30, 60, 255]));
    let mut out = Vec::new();
    image::DynamicImage::ImageRgba8(img)
        .write_to(&mut std::io::Cursor::new(&mut out), image::ImageFormat::Png)
        .unwrap();
    out
}

#[test]
fn target_size_keeps_aspect_ratio() {
    assert_eq!(target_size(400, 600), Some((200, 300)));
    assert_eq!(target_size(1000, 900), Some((333, 300)));
    assert_eq!(target_size(1, 301), Some((1, 300)));
    assert_eq!(target_size(u32::MAX, u32::MAX), Some((300, 300)));
}

#[test]
fn target_size_leaves_short_images() {
    assert_eq!(target_size(400, 300), None);
    assert_eq!(target_size(133, 200), None);
}

#[test]
fn tall_cover_is_scaled_and_reencoded() {
    let data = png(400, 600);
    let out = normalize_cover(&data).unwrap();
    assert_ne!(out, data);
    assert_eq!(image::guess_format(&out).unwrap(), image::ImageFormat::Jpeg);
    let img = image::load_from_memory(&out).unwrap();
    assert_eq!((img.width(), img.height()), (200, 300));
}

#[test]
fn short_cover_is_kept_byte_for_byte() {
    let data = png(133, 200);
    assert_eq!(normalize_cover(&data), Some(data.clone()));
}

#[test]
fn undecodable_cover_is_dropped() {
    assert_eq!(normalize_cover(&vec![1, 2, 3, 4]), None);
}
