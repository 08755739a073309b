//! The per-volume pipeline steps: image deduplication and indexing,
//! empty-chapter pruning, color-page assembly, the retry policy, and the
//! save-path template.

use epub_download::downloader::{
    assemble_color_page, chapter_id_of_url, find_next_url, get_chapters, get_ext, get_save_path,
    image_retry_decision, is_known_bad, is_pagination_url, prune_empty_chapters, start_url_plan,
    validate_image_counts, ImageRetryStep, StartUrl,
};
use epub_download::epub_builder::ContentBlock;
use epub_download::error::DownloadError;
use epub_download::model::Content;

#[test]
fn dedup_resolves_both_references_to_one_index() {
    // a URL referenced twice in one chapter: both blocks get the same
    // index, and the URL is stored once
    let chapters_raw = vec![vec![
        Content::Text(String::from("a")),
        Content::Image(String::from("http://i/x.jpg")),
        Content::Text(String::from("b")),
        Content::Image(String::from("http://i/x.jpg")),
    ]];
    let mut urls = vec![
        String::from("http://c/cover.jpg"),
        String::from("http://i/x.jpg"),
        String::from("http://i/x.jpg"),
    ];
    let mut sources = vec![
        String::from("base"),
        String::from("page1"),
        String::from("page1"),
    ];
    let mut chapters: Vec<Vec<ContentBlock>> = Vec::new();
    let mut exts: Vec<String> = Vec::new();
    get_chapters(&chapters_raw, &mut urls, &mut chapters, &mut exts, &mut sources);
    assert_eq!(urls, vec![String::from("http://c/cover.jpg"), String::from("http://i/x.jpg")]);
    assert_eq!(exts, vec![String::from("jpg"), String::from("jpg")]);
    assert_eq!(sources, vec![String::from("base"), String::from("page1")]);
    assert_eq!(
        chapters,
        vec![vec![
            ContentBlock::Text(String::from("a")),
            ContentBlock::Image(1),
            ContentBlock::Text(String::from("b")),
            ContentBlock::Image(1),
        ]]
    );
    assert_eq!(urls.iter().filter(|u| u.as_str() == "http://i/x.jpg").count(), 1);
}

#[test]
fn dedup_normalizes_protocol_relative_urls() {
    let chapters_raw = vec![vec![Content::Image(String::from("//cdn/img.png"))]];
    let mut urls = vec![String::from("//cdn/img.png")];
    let mut sources = vec![String::from("p")];
    let mut chapters: Vec<Vec<ContentBlock>> = Vec::new();
    let mut exts: Vec<String> = Vec::new();
    get_chapters(&chapters_raw, &mut urls, &mut chapters, &mut exts, &mut sources);
    assert_eq!(urls, vec![String::from("https://cdn/img.png")]);
    assert_eq!(exts, vec![String::from("png")]);
    assert_eq!(chapters, vec![vec![ContentBlock::Image(0)]]);
}

#[test]
fn prune_removes_break_only_chapters() {
    let mut chapters = vec![
        vec![ContentBlock::Text(String::from("keep me"))],
        vec![ContentBlock::Text(String::new()), ContentBlock::Text(String::new())],
        vec![ContentBlock::Image(0)],
        vec![],
    ];
    let mut titles = vec![
        String::from("one"),
        String::from("two"),
        String::from("three"),
        String::from("four"),
    ];
    prune_empty_chapters(&mut chapters, &mut titles);
    assert_eq!(chapters.len(), titles.len());
    assert_eq!(titles, vec![String::from("one"), String::from("three")]);
    assert_eq!(
        chapters,
        vec![
            vec![ContentBlock::Text(String::from("keep me"))],
            vec![ContentBlock::Image(0)],
        ]
    );
}

#[test]
fn color_page_splits_info_and_images() {
    let mut chapters_raw = vec![
        vec![
            Content::Text(String::from("caption")),
            Content::Image(String::from("http://i/0.jpg")),
            Content::Image(String::from("http://i/1.jpg")),
        ],
        vec![Content::Text(String::from("body"))],
    ];
    let mut titles = vec![String::from("插图"), String::from("第一章")];
    let mut urls = vec![String::from("http://i/0.jpg"), String::from("http://i/1.jpg")];
    let mut sources = vec![String::from("p"), String::from("p")];
    assemble_color_page(
        &mut chapters_raw,
        &mut titles,
        &mut urls,
        &mut sources,
        &None,
        &None,
        "https://base",
    );
    assert_eq!(
        titles,
        vec![String::from("信息"), String::from("彩页"), String::from("第一章")]
    );
    // the info chapter holds the caption; the color page body lost its
    // first image (it is the cover); the image list is untouched
    assert_eq!(chapters_raw[0], vec![Content::Text(String::from("caption"))]);
    assert_eq!(chapters_raw[1], vec![Content::Image(String::from("http://i/1.jpg"))]);
    assert_eq!(chapters_raw[2], vec![Content::Text(String::from("body"))]);
    assert_eq!(urls.len(), 2);
}

#[test]
fn color_page_without_images_falls_back_to_cover() {
    let mut chapters_raw = vec![
        vec![Content::Text(String::from("only text"))],
        vec![Content::Text(String::from("body"))],
    ];
    let mut titles = vec![String::from("插图"), String::from("第一章")];
    let mut urls: Vec<String> = Vec::new();
    let mut sources: Vec<String> = Vec::new();
    assemble_color_page(
        &mut chapters_raw,
        &mut titles,
        &mut urls,
        &mut sources,
        &Some(String::from("http://covers/v.jpg")),
        &Some(String::from("http://covers/b.jpg")),
        "https://base",
    );
    assert_eq!(titles, vec![String::from("第一章")]);
    assert_eq!(chapters_raw.len(), 1);
    assert_eq!(urls, vec![String::from("http://covers/v.jpg")]);
    assert_eq!(sources, vec![String::from("https://base")]);
}

#[test]
fn ordinary_volume_gets_cover_prepended() {
    let mut chapters_raw = vec![vec![Content::Text(String::from("body"))]];
    let mut titles = vec![String::from("第一章")];
    let mut urls = vec![String::from("http://i/a.jpg")];
    let mut sources = vec![String::from("p")];
    assemble_color_page(
        &mut chapters_raw,
        &mut titles,
        &mut urls,
        &mut sources,
        &None,
        &Some(String::from("http://covers/b.jpg")),
        "https://base",
    );
    assert_eq!(
        urls,
        vec![String::from("http://covers/b.jpg"), String::from("http://i/a.jpg")]
    );
    assert_eq!(titles, vec![String::from("第一章")]);
}

#[test]
fn extension_rules() {
    assert_eq!(get_ext("http://a/b.jpg"), "jpg");
    assert_eq!(get_ext("http://a/b.jpeg"), "jpeg");
    assert_eq!(get_ext("http://a/b.png"), "png");
    assert_eq!(get_ext("http://a/b.webp"), "jpg");
    assert_eq!(get_ext("http://a/no-extension"), "jpg");
    // a dot before the final path segment names no extension
    assert_eq!(get_ext("http://x.com/ajpg"), "jpg");
}

#[test]
fn chapter_id_from_url() {
    assert_eq!(chapter_id_of_url("https://www.bilinovel.com/novel/1/2.html"), Some(2));
    assert_eq!(chapter_id_of_url("https://site/novel/3305/168116_2.html"), Some(168116));
    assert_eq!(chapter_id_of_url("https://site/novel/3305/catalog"), None);
    assert_eq!(chapter_id_of_url("12345"), Some(12345));
}

#[test]
fn next_url_token_scan() {
    let html = "var x = {url_next:'/novel/1/3.html',other:1};";
    assert_eq!(
        find_next_url("https://base", html),
        Some(String::from("https://base/novel/1/3.html"))
    );
    assert_eq!(find_next_url("https://base", "no token here"), None);
    assert_eq!(find_next_url("https://base", "url_next:'unterminated"), None);
    assert!(is_pagination_url("https://base/novel/1/3_2.html"));
    assert!(!is_pagination_url("https://base/novel/1/3.html"));
}

#[test]
fn start_url_decision() {
    match start_url_plan("https://base", "/novel/1/2.html") {
        StartUrl::Direct(u) => assert_eq!(u, "https://base/novel/1/2.html"),
        StartUrl::FromPreviousVolume => panic!("expected a direct start"),
    }
    assert!(matches!(
        start_url_plan("https://base", "javascript:cid(0)"),
        StartUrl::FromPreviousVolume
    ));
}

#[test]
fn image_retry_policy() {
    let bad = vec![String::from("http://bad/img.png")];
    assert!(is_known_bad("http://bad/img.png", &bad));
    assert!(!is_known_bad("http://good/img.png", &bad));
    assert_eq!(image_retry_decision(0, true), ImageRetryStep::SkipPlaceholder);
    assert_eq!(image_retry_decision(49, false), ImageRetryStep::RetryAfter(5));
    assert_eq!(image_retry_decision(50, false), ImageRetryStep::FailVolume);
}

#[test]
fn image_count_mismatch_error() {
    assert!(validate_image_counts(3, 3).is_ok());
    assert_eq!(
        validate_image_counts(3, 2),
        Err(DownloadError::ImageCountMismatch { urls: 3, exts: 2 })
    );
}

#[test]
fn save_path_template_rendering() {
    assert_eq!(
        get_save_path("./out", "0", "My/Book", "Vol?1", "3"),
        "./out/MyBook/MyBook-Vol1.epub"
    );
    assert_eq!(
        get_save_path("d", "1", "B", "V", "3"),
        "d/B/B-[3]V.epub"
    );
    assert_eq!(
        get_save_path("d", "3", "B", "V", "3"),
        "d/B/[03]V.epub"
    );
    assert_eq!(
        get_save_path("d", "[{{chapter_number:4}}] {{chapter_title}}", "B", "V", "12"),
        "d/B/[0012] V.epub"
    );
    assert_eq!(
        get_save_path("d", "{{volume_no}}-{{chapter_title}}", "B", "V", "7"),
        "d/B/7-V.epub"
    );
}
