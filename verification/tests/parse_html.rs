//! The HTML extractors, over canned page snippets.

use epub_download::model::Content;
use epub_download::parse::{
    parse_last_update, parse_metadata, parse_novel_text, parse_vol_desc, parse_volume_list,
};

const BOOK_PAGE: &str = r#"<html><body>
<h1 class="book-title">My Novel</h1>
<span class="authorname">Author Name</span>
<img class="book-cover" src="http://img/cover.jpg"/>
<em class="tag-small orange">The Publisher</em>
<em class="tag-small red">fantasy</em>
<em class="tag-small red">comedy</em>
<content>A fine description</content>
</body></html>"#;

#[test]
fn metadata_fields() {
    let info = parse_metadata(BOOK_PAGE);
    assert_eq!(info.title, Some(String::from("My Novel")));
    assert_eq!(info.author, Some(String::from("Author Name")));
    assert_eq!(info.cover, Some(String::from("http://img/cover.jpg")));
    assert_eq!(info.publisher, Some(String::from("The Publisher")));
    assert_eq!(info.tags, vec![String::from("fantasy"), String::from("comedy")]);
    assert_eq!(info.description, Some(String::from("A fine description")));
}

#[test]
fn missing_metadata_is_absent() {
    let info = parse_metadata("<html><body><p>nothing here</p></body></html>");
    assert_eq!(info.title, None);
    assert_eq!(info.author, None);
    assert_eq!(info.cover, None);
    assert_eq!(info.publisher, None);
    assert!(info.tags.is_empty());
    assert_eq!(info.description, None);
}

const CATALOG_PAGE: &str = r#"<html><body>
<ul class="volume-chapters">
  <li class="chapter-bar chapter-li">Volume One</li>
  <li class="volume-cover chapter-li"><a href="/novel/1/vol_10.html"><img data-src="http://img/v1.jpg" src="http://img/lazy.gif"/></a></li>
  <li class="chapter-li jsChapter"><a href="/novel/1/100.html">Chapter A</a></li>
  <li class="chapter-li jsChapter"><a href="/novel/1/101.html">Chapter B</a></li>
</ul>
<ul class="volume-chapters">
  <li class="chapter-bar chapter-li">Volume Two</li>
  <li class="chapter-li jsChapter"><a href="/novel/1/200.html">Chapter C</a></li>
</ul>
</body></html>"#;

#[test]
fn volume_list_structure() {
    let volumes = parse_volume_list(CATALOG_PAGE);
    assert_eq!(volumes.len(), 2);
    assert_eq!(volumes[0].title, Some(String::from("Volume One")));
    assert_eq!(volumes[0].url_vol, Some(String::from("/novel/1/vol_10.html")));
    // data-src is preferred over src
    assert_eq!(volumes[0].cover, Some(String::from("http://img/v1.jpg")));
    assert_eq!(
        volumes[0].chapter_list,
        vec![String::from("Chapter A"), String::from("Chapter B")]
    );
    assert_eq!(
        volumes[0].chapter_path_list,
        vec![String::from("/novel/1/100.html"), String::from("/novel/1/101.html")]
    );
    assert_eq!(volumes[0].volume_no, 1);
    assert_eq!(volumes[1].title, Some(String::from("Volume Two")));
    assert_eq!(volumes[1].volume_no, 2);
    assert_eq!(volumes[1].url_vol, None);
    assert_eq!(volumes[1].cover, None);
}

const CHAPTER_PAGE: &str = r#"<html><body>
<div id="acontent">
  <t1>  First paragraph.  </t1>
  <t1></t1>
  <img data-src="http://img/5.jpg" src="http://img/lazy.gif"/>
  <img src="http://img/6.png"/>
  <p>kept paragraph</p>
  <span>boilerplate</span>
  <div class="ads">an advertisement</div>
  <t1>function(){ injected };</t1>
  <t1>Second paragraph.</t1>
</div>
</body></html>"#;

#[test]
fn novel_text_extraction() {
    let mut text: Vec<Content> = Vec::new();
    let mut imgs: Vec<String> = Vec::new();
    parse_novel_text(CHAPTER_PAGE, &mut text, &mut imgs, "https://base");
    assert_eq!(
        text,
        vec![
            Content::Text(String::from("First paragraph.")),
            Content::Text(String::new()),
            Content::Image(String::from("http://img/5.jpg")),
            Content::Image(String::from("http://img/6.png")),
            Content::Text(String::from("kept paragraph")),
            Content::Text(String::from("Second paragraph.")),
        ]
    );
    assert_eq!(
        imgs,
        vec![String::from("http://img/5.jpg"), String::from("http://img/6.png")]
    );
}

#[test]
fn novel_text_appends_across_pages() {
    let mut text = vec![Content::Text(String::from("from page one"))];
    let mut imgs: Vec<String> = Vec::new();
    parse_novel_text(
        "<div id=\"acontent\"><t1>from page two</t1></div>",
        &mut text,
        &mut imgs,
        "https://base",
    );
    assert_eq!(
        text,
        vec![
            Content::Text(String::from("from page one")),
            Content::Text(String::from("from page two")),
        ]
    );
}

#[test]
fn volume_description() {
    assert_eq!(
        parse_vol_desc("<html><content>the blurb</content><content>x</content></html>"),
        Some(String::from("the blurb"))
    );
    assert_eq!(parse_vol_desc("<html><p>none</p></html>"), None);
}

#[test]
fn last_update_takes_first_nonblank_direct_text() {
    let html = r#"<html><body>
<a class="book-meta book-status" href="/status">
  <div class="book-meta-l"><span>nested ignored</span>   </div>
  <div class="book-meta-l">  2024-05-06  </div>
</a>
</body></html>"#;
    assert_eq!(parse_last_update(html), Some(String::from("2024-05-06")));
    assert_eq!(parse_last_update("<html></html>"), None);
}
