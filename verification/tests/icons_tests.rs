use linux_bundle::IconKey;
use linux_bundle::icons::classify;
use linux_bundle::icons::generate_icon_files;
use linux_bundle::icons::icon_dest_path;
use linux_bundle::icons::IconCandidate;
use linux_bundle::icons::IconError;
use linux_bundle::icons::IconFormat;

fn encode(width: u32, height: u32, format: image::ImageFormat) -> Vec<u8> {
    let img = image::RgbImage::from_pixel(width, height, image::Rgb([10, 20, 30]));
    let mut bytes: Vec<u8> = Vec::new();
    image::DynamicImage::ImageRgb8(img)
        .write_to(&mut std::io::Cursor::new(&mut bytes), format)
        .unwrap();
    bytes
}

fn icns_with_16x16() -> Vec<u8> {
    let img = icns::Image::new(icns::PixelFormat::RGBA, 16, 16);
    let mut family = icns::IconFamily::new();
    family.add_icon(&img).unwrap();
    let mut bytes: Vec<u8> = Vec::new();
    family.write(&mut bytes).unwrap();
    bytes
}

#[test]
fn test_classify() {
    assert_eq!(classify("a/icon.png"), IconFormat::NativePng);
    assert_eq!(classify("a/icon.icns"), IconFormat::MultiImageContainer);
    assert_eq!(classify("a/icon.bmp"), IconFormat::GenericRaster);
    assert_eq!(classify("a/icon"), IconFormat::GenericRaster);
    assert_eq!(classify("a/icon.PNG"), IconFormat::GenericRaster);
}

#[test]
fn test_icon_dest_path() {
    let k = IconKey { width: 128, height: 128, high_density: true };
    assert_eq!(
        icon_dest_path("d", k, "app"),
        "d/usr/share/icons/hicolor/128x128@2x/apps/app.png"
    );
    let k2 = IconKey { width: 32, height: 32, high_density: false };
    assert_eq!(
        icon_dest_path("d", k2, "app"),
        "d/usr/share/icons/hicolor/32x32/apps/app.png"
    );
}

#[test]
fn test_png_beats_raster_of_same_size() {
    let png = encode(32, 32, image::ImageFormat::Png);
    let bmp = encode(32, 32, image::ImageFormat::Bmp);
    let candidates = vec![
        Ok(IconCandidate { path: "icons/app.png".to_string(), data: png.clone() }),
        Ok(IconCandidate { path: "icons/app.bmp".to_string(), data: bmp }),
    ];
    let outs = generate_icon_files(&candidates, "root", "app").unwrap();
    assert_eq!(outs.len(), 1);
    assert_eq!(outs[0].dest, "root/usr/share/icons/hicolor/32x32/apps/app.png");
    assert_eq!(outs[0].data, png);
    assert_eq!(outs[0].key.width, 32);
    assert_eq!(outs[0].key.height, 32);
    assert!(!outs[0].key.high_density);
}

#[test]
fn test_png_beats_raster_listed_first() {
    let png = encode(32, 32, image::ImageFormat::Png);
    let bmp = encode(32, 32, image::ImageFormat::Bmp);
    let candidates = vec![
        Ok(IconCandidate { path: "icons/app.bmp".to_string(), data: bmp }),
        Ok(IconCandidate { path: "icons/app.png".to_string(), data: png.clone() }),
    ];
    let outs = generate_icon_files(&candidates, "root", "app").unwrap();
    assert_eq!(outs.len(), 1);
    assert_eq!(outs[0].data, png);
}

#[test]
fn test_first_png_wins_among_pngs() {
    let a = encode(32, 32, image::ImageFormat::Png);
    let img = image::RgbImage::from_pixel(32, 32, image::Rgb([1, 2, 3]));
    let mut b: Vec<u8> = Vec::new();
    image::DynamicImage::ImageRgb8(img)
        .write_to(&mut std::io::Cursor::new(&mut b), image::ImageFormat::Png)
        .unwrap();
    let candidates = vec![
        Ok(IconCandidate { path: "a.png".to_string(), data: a.clone() }),
        Ok(IconCandidate { path: "b.png".to_string(), data: b }),
    ];
    let outs = generate_icon_files(&candidates, "root", "app").unwrap();
    assert_eq!(outs.len(), 1);
    assert_eq!(outs[0].data, a);
}

#[test]
fn test_distinct_sizes_all_kept() {
    let small = encode(16, 16, image::ImageFormat::Png);
    let large = encode(32, 32, image::ImageFormat::Png);
    let retina = encode(16, 16, image::ImageFormat::Png);
    let candidates = vec![
        Ok(IconCandidate { path: "a.png".to_string(), data: small }),
        Ok(IconCandidate { path: "b.png".to_string(), data: large }),
        Ok(IconCandidate { path: "c@2x.png".to_string(), data: retina }),
    ];
    let outs = generate_icon_files(&candidates, "d", "app").unwrap();
    assert_eq!(outs.len(), 3);
    let dests: Vec<&str> = outs.iter().map(|o| o.dest.as_str()).collect();
    assert!(dests.contains(&"d/usr/share/icons/hicolor/16x16/apps/app.png"));
    assert!(dests.contains(&"d/usr/share/icons/hicolor/32x32/apps/app.png"));
    assert!(dests.contains(&"d/usr/share/icons/hicolor/16x16@2x/apps/app.png"));
}

#[test]
fn test_container_fills_missing_sizes() {
    let png = encode(32, 32, image::ImageFormat::Png);
    let container = icns_with_16x16();
    let candidates = vec![
        Ok(IconCandidate { path: "app.png".to_string(), data: png.clone() }),
        Ok(IconCandidate { path: "app.icns".to_string(), data: container }),
    ];
    let outs = generate_icon_files(&candidates, "d", "app").unwrap();
    assert_eq!(outs.len(), 2);
    assert_eq!(outs[0].dest, "d/usr/share/icons/hicolor/32x32/apps/app.png");
    assert_eq!(outs[0].data, png);
    assert_eq!(outs[1].dest, "d/usr/share/icons/hicolor/16x16/apps/app.png");
    let (w, h) = {
        let dec = image::codecs::png::PngDecoder::new(std::io::Cursor::new(
            outs[1].data.as_slice(),
        ))
        .unwrap();
        image::ImageDecoder::dimensions(&dec)
    };
    assert_eq!((w, h), (16, 16));
}

#[test]
fn test_container_retina_icon_gets_2x_directory() {
    let img = icns::Image::new(icns::PixelFormat::RGBA, 32, 32);
    let mut family = icns::IconFamily::new();
    family
        .add_icon_with_type(&img, icns::IconType::RGBA32_16x16_2x)
        .unwrap();
    let mut container: Vec<u8> = Vec::new();
    family.write(&mut container).unwrap();
    let candidates = vec![Ok(IconCandidate { path: "app.icns".to_string(), data: container })];
    let outs = generate_icon_files(&candidates, "d", "app").unwrap();
    assert_eq!(outs.len(), 1);
    assert_eq!(outs[0].dest, "d/usr/share/icons/hicolor/16x16@2x/apps/app.png");
    assert!(outs[0].key.high_density);
}

#[test]
fn test_raster_is_reencoded_as_png() {
    let bmp = encode(24, 24, image::ImageFormat::Bmp);
    let candidates = vec![Ok(IconCandidate { path: "app.bmp".to_string(), data: bmp.clone() })];
    let outs = generate_icon_files(&candidates, "d", "app").unwrap();
    assert_eq!(outs.len(), 1);
    assert_eq!(outs[0].dest, "d/usr/share/icons/hicolor/24x24/apps/app.png");
    assert_ne!(outs[0].data, bmp);
    let reread = image::load_from_memory(&outs[0].data).unwrap();
    assert_eq!(image::GenericImageView::dimensions(&reread), (24, 24));
}

#[test]
fn test_upstream_error_propagates() {
    let r = generate_icon_files(&vec![Err("boom".to_string())], "d", "app");
    assert!(matches!(r, Err(IconError::Upstream(m)) if m == "boom"));
}

#[test]
fn test_corrupt_png_aborts() {
    let candidates = vec![Ok(IconCandidate { path: "a.png".to_string(), data: vec![1, 2, 3] })];
    let r = generate_icon_files(&candidates, "d", "app");
    assert!(matches!(r, Err(IconError::PngDecode(p)) if p == "a.png"));
}

#[test]
fn test_corrupt_container_aborts() {
    let candidates = vec![Ok(IconCandidate { path: "a.icns".to_string(), data: vec![9, 9] })];
    let r = generate_icon_files(&candidates, "d", "app");
    assert!(matches!(r, Err(IconError::ContainerDecode(p)) if p == "a.icns"));
}

#[test]
fn test_corrupt_raster_aborts() {
    let candidates = vec![Ok(IconCandidate { path: "a.bmp".to_string(), data: vec![0] })];
    let r = generate_icon_files(&candidates, "d", "app");
    assert!(matches!(r, Err(IconError::RasterDecode(p)) if p == "a.bmp"));
}
