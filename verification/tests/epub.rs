//! The package builder: archive shape, sanitation, and the zip round trip.

use std::io::Read;

use epub_download::epub_builder::{
    escape_epub_text, serialize_epub, Body, ContentBlock, EpubBuilder, Metadata,
};

fn sample_builder(add_catalog: bool) -> EpubBuilder {
    let metadata = Metadata::new(
        "Book-Vol 1",
        Some("An Author"),
        Some("A Publisher"),
        Some("About <this> & that"),
        Some("Book"),
        vec![String::from("fantasy"), String::from("comedy")],
        Some("zh-CN"),
        Some(1),
        Some("/novel/123/vol_456.html"),
    );
    let chapters = Body::Blocks(vec![
        vec![
            ContentBlock::Text(String::from("first paragraph")),
            ContentBlock::Text(String::new()),
            ContentBlock::Image(1),
        ],
        vec![ContentBlock::Text(String::from("second chapter"))],
    ]);
    let titles = vec![String::from("Chapter 1"), String::from("Chapter 2")];
    let images = vec![vec![0xFFu8, 0xD8, 0xFF, 0x00], vec![1, 2, 3]];
    let exts = vec![String::from("jpg"), String::from("png")];
    let alts = vec![String::from("http://a/0.jpg"), String::from("http://a/1.png")];
    EpubBuilder::new(metadata, chapters, titles, images, exts, alts, add_catalog)
}

#[test]
fn archive_first_entry_is_mimetype() {
    let entries = sample_builder(false).build_epub();
    assert_eq!(entries[0].path, "mimetype");
    assert!(entries[0].stored);
    assert_eq!(entries[0].bytes, b"application/epub+zip".to_vec());
    for e in entries.iter().skip(1) {
        assert!(!e.stored);
        assert_ne!(e.path, "mimetype");
    }
}

#[test]
fn archive_member_count_and_paths() {
    let entries = sample_builder(false).build_epub();
    // 5 head members + 2 chapters + nav + 2 images
    assert_eq!(entries.len(), 6 + 2 + 2);
    let paths: Vec<&str> = entries.iter().map(|e| e.path.as_str()).collect();
    assert_eq!(
        paths,
        vec![
            "mimetype",
            "META-INF/container.xml",
            "OEBPS/content.opf",
            "OEBPS/toc.ncx",
            "OEBPS/Text/cover.xhtml",
            "OEBPS/Text/001.xhtml",
            "OEBPS/Text/002.xhtml",
            "OEBPS/Text/nav.xhtml",
            "OEBPS/Images/000.jpg",
            "OEBPS/Images/001.png",
        ]
    );
    let with_css = sample_builder(true).build_epub();
    assert_eq!(with_css.len(), 6 + 2 + 2 + 1);
    assert_eq!(with_css.last().unwrap().path, "OEBPS/Styles/sgc-nav.css");
}

#[test]
fn manifest_and_spine_counts() {
    let entries = sample_builder(false).build_epub();
    let opf = String::from_utf8(entries[2].bytes.clone()).unwrap();
    // one document entry per chapter plus the cover document
    let xhtml_items = opf.matches("media-type=\"application/xhtml+xml\"").count();
    // cover.xhtml + 2 chapters + nav.xhtml
    assert_eq!(xhtml_items, 4);
    let image_items =
        opf.matches("media-type=\"image/jpeg\"").count() + opf.matches("media-type=\"image/png\"").count();
    assert_eq!(image_items, 2);
    let spine_items = opf.matches("<itemref idref=").count();
    assert_eq!(spine_items, 2 + 1);
}

#[test]
fn chapter_documents_embed_sanitized_text() {
    let entries = sample_builder(false).build_epub();
    let ch1 = String::from_utf8(entries[5].bytes.clone()).unwrap();
    assert!(ch1.contains("<p>first paragraph</p>"));
    assert!(ch1.contains("<br/>"));
    assert!(ch1.contains("<img src=\"../Images/001.png\" alt=\"http://a/1.png\" />"));
    assert!(ch1.contains("<h1>Chapter 1</h1>"));
    let opf = String::from_utf8(entries[2].bytes.clone()).unwrap();
    assert!(opf.contains("<dc:description>About &lt;this&gt; &amp; that</dc:description>"));
    assert!(opf.contains("<dc:subject>fantasy</dc:subject>"));
    assert!(opf.contains("<meta name=\"calibre:series_index\" content=\"1\"/>"));
}

#[test]
fn image_bytes_are_embedded_verbatim() {
    let entries = sample_builder(false).build_epub();
    assert_eq!(entries[8].bytes, vec![0xFFu8, 0xD8, 0xFF, 0x00]);
    assert_eq!(entries[9].bytes, vec![1, 2, 3]);
}

#[test]
fn zip_round_trip_keeps_shape() {
    let entries = sample_builder(true).build_epub();
    let bytes = serialize_epub(&entries).expect("zip serialization");
    let cursor = std::io::Cursor::new(bytes);
    let mut archive = zip::ZipArchive::new(cursor).expect("readable archive");
    assert_eq!(archive.len(), entries.len());
    {
        let first = archive.by_index(0).expect("first member");
        assert_eq!(first.name(), "mimetype");
        assert_eq!(first.compression(), zip::CompressionMethod::Stored);
    }
    {
        let mut first = archive.by_name("mimetype").expect("mimetype member");
        let mut content = String::new();
        first.read_to_string(&mut content).unwrap();
        assert_eq!(content, "application/epub+zip");
    }
    {
        let second = archive.by_name("OEBPS/content.opf").expect("opf member");
        assert_eq!(second.compression(), zip::CompressionMethod::Deflated);
    }
}

#[test]
fn subjects_are_escaped() {
    let metadata = Metadata::new(
        "T",
        None,
        None,
        None,
        None,
        vec![String::from("sci-fi & <markup>")],
        None,
        None,
        None,
    );
    assert_eq!(metadata.subject, vec![String::from("sci-fi &amp; &lt;markup&gt;")]);
    let chapters = Body::Blocks(vec![vec![ContentBlock::Text(String::from("x"))]]);
    let entries = EpubBuilder::new(
        metadata,
        chapters,
        vec![String::from("C")],
        vec![vec![1u8]],
        vec![String::from("jpg")],
        vec![String::from("u")],
        false,
    )
    .build_epub();
    let opf = String::from_utf8(entries[2].bytes.clone()).unwrap();
    assert!(opf.contains("<dc:subject>sci-fi &amp; &lt;markup&gt;</dc:subject>"));
    assert!(!opf.contains("<dc:subject>sci-fi & <markup></dc:subject>"));
}

#[test]
fn escape_replaces_markup_characters() {
    assert_eq!(escape_epub_text("a&b<c>d"), "a&amp;b&lt;c&gt;d");
    assert_eq!(escape_epub_text(""), "");
    assert_eq!(escape_epub_text("plain"), "plain");
}

#[test]
fn color_page_title_suppresses_heading() {
    let metadata = Metadata::new("T", None, None, None, None, vec![], None, None, None);
    let chapters = Body::Blocks(vec![vec![ContentBlock::Image(0)]]);
    let titles = vec![String::from("彩页")];
    let images = vec![vec![9u8]];
    let exts = vec![String::from("jpg")];
    let alts = vec![String::from("u")];
    let entries = EpubBuilder::new(metadata, chapters, titles, images, exts, alts, false)
        .build_epub();
    let doc = String::from_utf8(entries[5].bytes.clone()).unwrap();
    assert!(!doc.contains("<h1>"));
    assert!(doc.contains("<title>彩页</title>"));
}
