use std::io::Cursor;

use theme_art_daemon::{art_source, extract_colors, ArtSource, Rgb};

fn png_bytes(width: u32, height: u32, pixel: impl Fn(u32, u32) -> [u8; 4]) -> Vec<u8> {
    let img = image::RgbaImage::from_fn(width, height, |x, y| image::Rgba(pixel(x, y)));
    let mut out = Cursor::new(Vec::new());
    image::DynamicImage::ImageRgba8(img).write_to(&mut out, image::ImageOutputFormat::Png).unwrap();
    out.into_inner()
}

#[test]
fn http_urls_are_downloaded() {
    assert!(matches!(art_source("https://example.com/a.jpg"), ArtSource::Download));
    assert!(matches!(art_source("http://x"), ArtSource::Download));
}

#[test]
fn file_urls_become_paths() {
    match art_source("file:///tmp/cover.png") {
        ArtSource::Local(p) => assert_eq!(p, "/tmp/cover.png"),
        ArtSource::Download => panic!("expected a local path"),
    }
}

#[test]
fn only_the_protocol_prefix_is_removed() {
    match art_source("file:///a/file://b.jpg") {
        ArtSource::Local(p) => assert_eq!(p, "/a/file://b.jpg"),
        ArtSource::Download => panic!("expected a local path"),
    }
}

#[test]
fn plain_paths_are_kept() {
    match art_source("/home/me/cover.jpg") {
        ArtSource::Local(p) => assert_eq!(p, "/home/me/cover.jpg"),
        ArtSource::Download => panic!("expected a local path"),
    }
}

#[test]
fn png_cover_gives_its_palette() {
    // left half red, right quarter green, remaining quarter blue
    let bytes = png_bytes(64, 64, |x, _| {
        if x < 32 {
            [250, 10, 10, 255]
        } else if x < 48 {
            [10, 250, 10, 255]
        } else {
            [10, 10, 250, 255]
        }
    });
    let colors = extract_colors(&bytes, "cover").expect("decodes");
    assert_eq!(colors, vec![
        Rgb { r: 240, g: 0, b: 0 },
        Rgb { r: 0, g: 240, b: 0 },
        Rgb { r: 0, g: 0, b: 240 },
    ]);
}

#[test]
fn large_cover_is_scaled_down_before_counting() {
    let bytes = png_bytes(256, 128, |_, _| [100, 100, 100, 255]);
    let colors = extract_colors(&bytes, "art.png").expect("decodes");
    assert_eq!(colors, vec![Rgb { r: 96, g: 96, b: 96 }]);
}

#[test]
fn transparent_cover_has_no_colors() {
    let bytes = png_bytes(8, 8, |_, _| [100, 100, 100, 0]);
    assert_eq!(extract_colors(&bytes, "art.png"), Some(vec![]));
}

#[test]
fn garbage_is_not_an_image() {
    assert_eq!(extract_colors(b"not an image at all", "cover"), None);
    assert_eq!(extract_colors(b"not an image at all", "cover.png"), None);
}

#[test]
fn format_without_magic_bytes_comes_from_the_file_name() {
    let img = image::RgbaImage::from_fn(4, 4, |_, _| image::Rgba([200, 40, 40, 255]));
    let mut out = Cursor::new(Vec::new());
    image::DynamicImage::ImageRgba8(img).write_to(&mut out, image::ImageOutputFormat::Tga).unwrap();
    let bytes = out.into_inner();
    assert_eq!(extract_colors(&bytes, "cover.tga"), Some(vec![Rgb { r: 192, g: 32, b: 32 }]));
    assert_eq!(extract_colors(&bytes, "cover"), None);
}
