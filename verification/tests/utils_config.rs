//! Sanitizers, conversion, image normalization, version comparison, the
//! defaults, and the error wording.

use epub_download::config::{default_error_img, Config};
use epub_download::error::{CommandError, DownloadError};
use epub_download::utils::{
    escape_epub_text, img_to_jpg, is_newer_version, remove_invalid_chars,
    remove_invalid_xml_chars, t2s,
};

#[test]
fn test_t2s() {
    println!("{}", t2s("妳"));
    println!("{}", fast2s::convert("妳"));
}

#[test]
fn t2s_converts_traditional_characters() {
    assert_eq!(t2s("學生會"), "学生会");
    assert_eq!(t2s("plain ascii"), "plain ascii");
}

#[test]
fn filename_sanitation() {
    assert_eq!(remove_invalid_chars("a<b>c:d\"e/f\\g|h?i*j"), "abcdefghij");
    assert_eq!(remove_invalid_chars("安全 name"), "安全 name");
}

#[test]
fn xml_sanitation() {
    assert_eq!(escape_epub_text("<a & b>"), "&lt;a &amp; b&gt;");
    assert_eq!(remove_invalid_xml_chars("ok\u{8}text\u{B}"), "oktext");
    assert_eq!(remove_invalid_xml_chars("tab\tand\nnewline"), "tab\tand\nnewline");
}

#[test]
fn image_normalization_passes_png_and_jpeg_through() {
    let png: Vec<u8> = vec![0x89, 0x50, 0x4E, 0x47, 0x0D, 0x0A, 0x1A, 0x0A, 1, 2, 3];
    assert_eq!(img_to_jpg(png.clone()).unwrap(), png);
    let jpg: Vec<u8> = vec![0xFF, 0xD8, 0xFF, 0xE0, 9, 9];
    assert_eq!(img_to_jpg(jpg.clone()).unwrap(), jpg);
}

#[test]
fn image_normalization_transcodes_other_formats() {
    // a minimal 1x1 24-bit BMP
    let mut bmp: Vec<u8> = Vec::new();
    bmp.extend_from_slice(b"BM");
    bmp.extend_from_slice(&58u32.to_le_bytes());
    bmp.extend_from_slice(&[0, 0, 0, 0]);
    bmp.extend_from_slice(&54u32.to_le_bytes());
    bmp.extend_from_slice(&40u32.to_le_bytes());
    bmp.extend_from_slice(&1i32.to_le_bytes());
    bmp.extend_from_slice(&1i32.to_le_bytes());
    bmp.extend_from_slice(&1u16.to_le_bytes());
    bmp.extend_from_slice(&24u16.to_le_bytes());
    bmp.extend_from_slice(&0u32.to_le_bytes());
    bmp.extend_from_slice(&4u32.to_le_bytes());
    bmp.extend_from_slice(&2835i32.to_le_bytes());
    bmp.extend_from_slice(&2835i32.to_le_bytes());
    bmp.extend_from_slice(&0u32.to_le_bytes());
    bmp.extend_from_slice(&0u32.to_le_bytes());
    bmp.extend_from_slice(&[0x40, 0x80, 0xC0, 0x00]);
    let out = img_to_jpg(bmp.clone()).expect("bmp decodes");
    assert_ne!(out, bmp);
    assert!(out.len() >= 3);
    assert_eq!(&out[0..3], &[0xFF, 0xD8, 0xFF]);
}

#[test]
fn image_normalization_rejects_garbage() {
    assert!(img_to_jpg(vec![1, 2, 3, 4]).is_err());
}

#[test]
fn version_comparison() {
    assert!(is_newer_version("1.0.0", "v1.2.0"));
    assert!(is_newer_version("1.0.0", "1.0.1"));
    assert!(!is_newer_version("1.2.0", "v1.2.0"));
    assert!(!is_newer_version("2.0.0", "v1.9.9"));
    // an unparsable remote reads as 0.0.0
    assert!(!is_newer_version("0.1.0", "not-a-version"));
}

#[test]
fn config_defaults() {
    let c = Config::new();
    assert_eq!(c.output, "./");
    assert_eq!(c.template, "{{book_title}}-{{chapter_title}}");
    assert_eq!(c.cookie, "");
    assert_eq!(c.sleep_time, 8);
    assert_eq!(c.base_url, "https://www.bilinovel.com");
    assert!(!c.add_catalog);
    assert!(c.error_img.is_empty());
    assert!(c.auto_check_update);
    assert_eq!(default_error_img().len(), 7);
    assert_eq!(
        default_error_img()[0],
        "https://www.xlcx996.xyz/image/novel/sister01.jpg"
    );
}

#[test]
fn error_wording() {
    assert_eq!(DownloadError::Network.message(), "request failed");
    assert_eq!(DownloadError::ChapterEmpty.message(), "chapter text is empty");
    let e = DownloadError::ImageFetch {
        url: String::from("http://i/x.jpg"),
        source: String::from("http://page"),
    };
    assert_eq!(e.message(), "image download failed: http://i/x.jpg");
    let c = CommandError::from_download(&DownloadError::BookNotFound);
    assert_eq!(c.0, "book not found");
    assert_eq!(
        DownloadError::Io(String::from("disk full")).message(),
        "i/o failure: disk full"
    );
}
