//! EPUB package builder: assembles sanitized metadata, chapter documents
//! and images into the fixed archive layout (`mimetype` first and stored
//! uncompressed, `META-INF/`, `OEBPS/{Text,Images,Styles}`), and serializes
//! it to zip bytes.

use vstd::prelude::*;
use vstd::string::*;

use crate::text::{dec_str, fmt_usize, pad_zeros, pad_zeros_str, str_eq};
use crate::utils::{escape_spec, remove_invalid_xml_chars, remove_invalid_xml_spec, sanitize_spec,
    sanitize_text};

use std::io::Write;

verus! {

/// Sanitized book metadata for one volume's package document.
#[derive(Debug)]
pub struct Metadata {
    pub title: String,
    pub creator: Option<String>,
    pub publisher: Option<String>,
    pub description: Option<String>,
    pub series: Option<String>,
    pub subject: Vec<String>,
    pub language: Option<String>,
    pub index: Option<usize>,
    pub identifier: Option<String>,
}

/// A chapter body: pre-rendered XHTML, or content blocks still to render.
pub enum Body {
    Html(Vec<String>),
    Blocks(Vec<Vec<ContentBlock>>),
}

/// One rendered content unit: a text run, or an image by its index in the
/// deduplicated image list.
#[derive(Debug, PartialEq)]
pub enum ContentBlock {
    Text(String),
    Image(usize),
}

/// Mathematical value of a `ContentBlock`.
pub enum ContentBlockV {
    Text(Seq<char>),
    Image(usize),
}

impl View for ContentBlock {
    type V = ContentBlockV;

    open spec fn view(&self) -> ContentBlockV {
        match self {
            ContentBlock::Text(s) => ContentBlockV::Text(s@),
            ContentBlock::Image(i) => ContentBlockV::Image(*i),
        }
    }
}

impl DeepView for ContentBlock {
    type V = ContentBlockV;

    open spec fn deep_view(&self) -> ContentBlockV {
        self.view()
    }
}

impl Metadata {
    /// Metadata with every text field, each subject included, escaped and
    /// stripped of the characters XML forbids.
    pub fn new(
        title: &str,
        creator: Option<&str>,
        publisher: Option<&str>,
        description: Option<&str>,
        series: Option<&str>,
        subject: Vec<String>,
        language: Option<&str>,
        index: Option<usize>,
        identifier: Option<&str>,
    ) -> (r: Self)
        ensures
            r.title@ == sanitize_spec(title@),
            opt_sanitized(r.creator.deep_view(), creator.deep_view()),
            opt_sanitized(r.publisher.deep_view(), publisher.deep_view()),
            opt_sanitized(r.description.deep_view(), description.deep_view()),
            opt_sanitized(r.series.deep_view(), series.deep_view()),
            opt_sanitized(r.language.deep_view(), language.deep_view()),
            opt_sanitized(r.identifier.deep_view(), identifier.deep_view()),
            r.subject@.len() == subject@.len(),
            forall|i: int|
                0 <= i < subject@.len() ==> #[trigger] r.subject.deep_view()[i] == sanitize_spec(
                    subject.deep_view()[i],
                ),
            r.index == index,
    {
        Metadata {
            title: sanitize_text(title),
            creator: sanitize_opt(creator),
            publisher: sanitize_opt(publisher),
            description: sanitize_opt(description),
            series: sanitize_opt(series),
            subject: sanitize_vec(subject),
            language: sanitize_opt(language),
            index,
            identifier: sanitize_opt(identifier),
        }
    }
}

fn sanitize_vec(v: Vec<String>) -> (r: Vec<String>)
    ensures
        r@.len() == v@.len(),
        forall|i: int|
            0 <= i < v@.len() ==> #[trigger] r.deep_view()[i] == sanitize_spec(v.deep_view()[i]),
{
    let mut out: Vec<String> = Vec::new();
    let n = v.len();
    let mut i: usize = 0;
    while i < n
        invariant
            i <= n,
            n == v@.len(),
            out@.len() == i,
            forall|k: int|
                0 <= k < i ==> #[trigger] out.deep_view()[k] == sanitize_spec(v.deep_view()[k]),
        decreases n - i,
    {
        let t = sanitize_text(v[i].as_str());
        let ghost pre = out.deep_view();
        out.push(t);
        proof {
            assert(out.deep_view() =~= pre.push(out.deep_view().last()));
        }
        i += 1;
    }
    out
}

/// `r` is `o` with the sanitation applied under the option.
pub open spec fn opt_sanitized(r: Option<Seq<char>>, o: Option<Seq<char>>) -> bool {
    match o {
        Option::Some(s) => r matches Option::Some(t) && t == sanitize_spec(s),
        Option::None => r is None,
    }
}

fn sanitize_opt(o: Option<&str>) -> (r: Option<String>)
    ensures
        opt_sanitized(r.deep_view(), o.deep_view()),
{
    match o {
        Option::Some(s) => Option::Some(sanitize_text(s)),
        Option::None => Option::None,
    }
}

/// The parts joined with `sep` between them, as `[T]::join` writes them.
pub open spec fn join_sep(parts: Seq<Seq<char>>, sep: Seq<char>) -> Seq<char>
    decreases parts.len(),
{
    if parts.len() == 0 {
        Seq::empty()
    } else if parts.len() == 1 {
        parts[0]
    } else {
        join_sep(parts.drop_last(), sep) + sep + parts.last()
    }
}

/// Joins the parts with `sep` between them.
pub fn join_strings(parts: &Vec<String>, sep: &str) -> (r: String)
    ensures
        r@ == join_sep(parts.deep_view(), sep@),
{
    let mut out = String::new();
    let n = parts.len();
    let mut i: usize = 0;
    while i < n
        invariant
            i <= n,
            n == parts@.len(),
            out@ == join_sep(parts.deep_view().take(i as int), sep@),
        decreases n - i,
    {
        proof {
            assert(parts.deep_view().take(i + 1).drop_last() =~= parts.deep_view().take(i as int));
            assert(parts.deep_view().take(i + 1).last() == parts.deep_view()[i as int]);
        }
        if i > 0 {
            out.append(sep);
        }
        out.append(parts[i].as_str());
        proof {
            if i == 0 {
                assert(out@ =~= join_sep(parts.deep_view().take(1), sep@));
            }
        }
        i += 1;
    }
    proof {
        assert(parts.deep_view().take(n as int) =~= parts.deep_view());
    }
    out
}

/// `n` in decimal, zero-padded to at least three digits: how entry indices
/// appear in archive paths.
pub open spec fn spec_num_fill(n: nat) -> Seq<char> {
    pad_zeros(dec_str(n), 3)
}

/// The fixed `META-INF/container.xml` document, pointing at
/// `OEBPS/content.opf`.
pub open spec fn spec_container() -> Seq<char> {
    "<?xml version=\"1.0\" encoding=\"UTF-8\"?>\n<container version=\"1.0\" xmlns=\"urn:oasis:names:tc:opendocument:xmlns:container\">\n  <rootfiles>\n    <rootfile full-path=\"OEBPS/content.opf\" media-type=\"application/oebps-package+xml\" />\n  </rootfiles>\n</container>"@
}

/// A chapter document: the XML prologue, the title, an `<h1>` heading
/// (suppressed for the color page), and the body.
pub open spec fn spec_xhtml(title: Seq<char>, body: Seq<char>) -> Seq<char> {
    let title_tag = if title == "彩页"@ {
        Seq::<char>::empty()
    } else {
        "<h1>"@ + title + "</h1>\n    "@
    };
    "<?xml version=\"1.0\" encoding=\"utf-8\"?>\n<!DOCTYPE html>\n\n<html xmlns=\"http://www.w3.org/1999/xhtml\" xmlns:epub=\"http://www.idpf.org/2007/ops\">\n  <head>\n    <title>"@
        + title
        + "</title>\n    <style type=\"text/css\">p{text-indent:2em;}</style>\n  </head>\n  <body>\n    "@
        + title_tag + body + "\n  </body>\n</html>"@
}

/// The cover document, showing image 0 with the given extension.
pub open spec fn spec_cover_xhtml(ext0: Seq<char>) -> Seq<char> {
    "<?xml version=\"1.0\" encoding=\"UTF-8\"?>\n<!DOCTYPE html>\n\n<html xmlns=\"http://www.w3.org/1999/xhtml\" xmlns:epub=\"http://www.idpf.org/2007/ops\">\n<head>\n  <title>Cover</title>\n</head>\n<body>\n  <div style=\"text-align: center; padding: 0pt; margin: 0pt;\">\n    <img src=\"../Images/000."@
        + ext0 + "\" alt=\"cover\" />\n  </div>\n</body>\n</html>"@
}

/// `r` is the sanitized form of the block `o`: text runs are escaped and
/// stripped, image references keep their index.
pub open spec fn block_sanitized(r: ContentBlockV, o: ContentBlockV) -> bool {
    match o {
        ContentBlockV::Text(t) => r == ContentBlockV::Text(sanitize_spec(t)),
        ContentBlockV::Image(i) => r == ContentBlockV::Image(i),
    }
}

/// `r` is `o` with every block sanitized.
pub open spec fn chapter_sanitized(r: Seq<ContentBlockV>, o: Seq<ContentBlockV>) -> bool {
    r.len() == o.len() && forall|i: int|
        0 <= i < o.len() ==> block_sanitized(#[trigger] r[i], o[i])
}

/// `r` is `o` with every text run sanitized: block chapters are escaped
/// and stripped, pre-rendered chapters only stripped.
pub open spec fn body_sanitized(r: &Body, o: &Body) -> bool {
    match (r, o) {
        (Body::Html(rh), Body::Html(oh)) => {
            &&& rh.deep_view().len() == oh.deep_view().len()
            &&& forall|i: int|
                0 <= i < oh.deep_view().len() ==> #[trigger] rh.deep_view()[i]
                    == remove_invalid_xml_spec(oh.deep_view()[i])
        },
        (Body::Blocks(rb), Body::Blocks(ob)) => {
            &&& rb.deep_view().len() == ob.deep_view().len()
            &&& forall|c: int|
                0 <= c < ob.deep_view().len() ==> chapter_sanitized(
                    #[trigger] rb.deep_view()[c],
                    ob.deep_view()[c],
                )
        },
        _ => false,
    }
}

/// `r` is `o` with every title sanitized.
pub open spec fn titles_sanitized(r: Seq<Seq<char>>, o: Seq<Seq<char>>) -> bool {
    r.len() == o.len() && forall|i: int|
        0 <= i < o.len() ==> #[trigger] r[i] == sanitize_spec(o[i])
}

/// The catalog stylesheet's text.
pub open spec fn spec_sgc_nav_css() -> Seq<char> {
    "nav#toc {\n  font-family: 'Segoe UI', Tahoma, Geneva, Verdana, sans-serif;\n  padding: 20px;\n  background-color: #f8f8f8;\n  border-radius: 10px;\n  box-shadow: 0px 4px 6px rgba(0, 0, 0, 0.1);\n}\n\nnav#toc h1 {\n  font-size: 24px;\n  color: #333;\n  text-align: center;\n  margin-bottom: 20px;\n  font-weight: bold;\n}\n\nnav#toc ol {\n  list-style-type: none;\n  padding-left: 0;\n}\n\nnav#toc ol li {\n  margin-bottom: 10px;\n}\n\nnav#toc ol li a {\n  text-decoration: none;\n  font-size: 18px;\n  color: #555;\n  padding: 6px;\n  display: block;\n  transition: background-color 0.3s, color 0.3s;\n  border-radius: 5px;\n}\n\nnav#toc ol li a:hover {\n  background-color: #d9d9d9;\n  color: #000;\n}\n"@
}


/// Relies on chrono's Utc::now and DateTime::format: the current UTC time
/// written as `YYYY-MM-DDThh:mm:ssZ`, for the package's modified stamp.
#[verifier::external_body]
fn get_time() -> (r: String) {
    chrono::Utc::now().format("%Y-%m-%dT%H:%M:%SZ").to_string()
}

/// Builds one volume's package: sanitized chapters, titles and images,
/// and the flags and stamp the documents embed.
pub struct EpubBuilder {
    pub metadata: Metadata,
    pub chapters: Body,
    pub chapter_titles: Vec<String>,
    pub images: Vec<Vec<u8>>,
    pub image_exts: Vec<String>,
    pub image_alts: Vec<String>,
    pub add_catalog: bool,
    pub modified: String,
}

impl EpubBuilder {
    /// A builder over the given content: text runs in block chapters are
    /// escaped and stripped, pre-rendered chapters and titles stripped,
    /// images taken as they are. The modified stamp is read from the clock.
    pub fn new(
        metadata: Metadata,
        chapters: Body,
        chapter_titles: Vec<String>,
        images: Vec<Vec<u8>>,
        image_exts: Vec<String>,
        image_alts: Vec<String>,
        add_catalog: bool,
    ) -> (r: Self)
        ensures
            r.metadata == metadata,
            r.images == images,
            r.image_exts == image_exts,
            r.image_alts == image_alts,
            r.add_catalog == add_catalog,
            body_sanitized(&r.chapters, &chapters),
            titles_sanitized(r.chapter_titles.deep_view(), chapter_titles.deep_view()),
    {
        let chapters = match chapters {
            Body::Blocks(blocks) => Body::Blocks(sanitize_blocks(blocks)),
            Body::Html(html) => Body::Html(strip_html(html)),
        };
        let mut titles: Vec<String> = Vec::new();
        let mut i: usize = 0;
        let n = chapter_titles.len();
        while i < n
            invariant
                i <= n,
                n == chapter_titles@.len(),
                titles@.len() == i,
                forall|k: int|
                    0 <= k < i ==> #[trigger] titles.deep_view()[k] == sanitize_spec(
                        chapter_titles.deep_view()[k],
                    ),
            decreases n - i,
        {
            let t = sanitize_text(chapter_titles[i].as_str());
            let ghost pre = titles.deep_view();
            titles.push(t);
            proof {
                assert(titles.deep_view() =~= pre.push(titles.deep_view().last()));
            }
            i += 1;
        }
        EpubBuilder {
            metadata,
            chapters,
            chapter_titles: titles,
            images,
            image_exts,
            image_alts,
            add_catalog,
            modified: get_time(),
        }
    }
}

fn sanitize_blocks(blocks: Vec<Vec<ContentBlock>>) -> (r: Vec<Vec<ContentBlock>>)
    ensures
        r.deep_view().len() == blocks.deep_view().len(),
        forall|c: int|
            0 <= c < blocks.deep_view().len() ==> chapter_sanitized(
                #[trigger] r.deep_view()[c],
                blocks.deep_view()[c],
            ),
{
    let mut out: Vec<Vec<ContentBlock>> = Vec::new();
    let n = blocks.len();
    let mut c: usize = 0;
    while c < n
        invariant
            c <= n,
            n == blocks@.len(),
            out@.len() == c,
            forall|k: int|
                0 <= k < c ==> chapter_sanitized(
                    #[trigger] out.deep_view()[k],
                    blocks.deep_view()[k],
                ),
        decreases n - c,
    {
        let chapter = &blocks[c];
        let mut nc: Vec<ContentBlock> = Vec::new();
        let m = chapter.len();
        let mut b: usize = 0;
        while b < m
            invariant
                b <= m,
                m == chapter@.len(),
                chapter.deep_view() == blocks.deep_view()[c as int],
                c < blocks@.len(),
                nc@.len() == b,
                forall|k: int|
                    0 <= k < b ==> block_sanitized(
                        #[trigger] nc.deep_view()[k],
                        chapter.deep_view()[k],
                    ),
            decreases m - b,
        {
            let nb = match &chapter[b] {
                ContentBlock::Text(text) => ContentBlock::Text(sanitize_text(text.as_str())),
                ContentBlock::Image(i) => ContentBlock::Image(*i),
            };
            let ghost pre = nc.deep_view();
            nc.push(nb);
            proof {
                assert(nc.deep_view() =~= pre.push(nc.deep_view().last()));
            }
            b += 1;
        }
        let ghost preo = out.deep_view();
        out.push(nc);
        proof {
            assert(out.deep_view() =~= preo.push(out.deep_view().last()));
        }
        c += 1;
    }
    out
}

fn strip_html(html: Vec<String>) -> (r: Vec<String>)
    ensures
        r.deep_view().len() == html.deep_view().len(),
        forall|i: int|
            0 <= i < html.deep_view().len() ==> #[trigger] r.deep_view()[i]
                == remove_invalid_xml_spec(html.deep_view()[i]),
{
    let mut out: Vec<String> = Vec::new();
    let n = html.len();
    let mut i: usize = 0;
    while i < n
        invariant
            i <= n,
            n == html@.len(),
            out@.len() == i,
            forall|k: int|
                0 <= k < i ==> #[trigger] out.deep_view()[k] == remove_invalid_xml_spec(
                    html.deep_view()[k],
                ),
        decreases n - i,
    {
        let t = remove_invalid_xml_chars(html[i].as_str());
        let ghost pre = out.deep_view();
        out.push(t);
        proof {
            assert(out.deep_view() =~= pre.push(out.deep_view().last()));
        }
        i += 1;
    }
    out
}


/// One `navPoint` of the NCX navigation map.
pub open spec fn spec_nav_point(i: nat, title: Seq<char>) -> Seq<char> {
    "<navPoint id=\"navPoint-"@ + dec_str(i + 1) + "\" playOrder=\""@ + dec_str(i + 1)
        + "\">\n      <navLabel>\n        <text>"@ + title
        + "</text>\n      </navLabel>\n      <content src=\"Text/"@ + spec_num_fill(i + 1)
        + ".xhtml\" />\n    </navPoint>"@
}

/// The NCX navigation map: one `navPoint` per chapter, in order.
pub open spec fn spec_nav_xml(titles: Seq<Seq<char>>) -> Seq<char> {
    join_sep(
        Seq::new(titles.len(), |i: int| spec_nav_point(i as nat, titles[i])),
        "\n    "@,
    )
}

/// The `toc.ncx` document around the navigation map.
pub open spec fn spec_ncx(title: Seq<char>, titles: Seq<Seq<char>>) -> Seq<char> {
    "<?xml version=\"1.0\" encoding=\"utf-8\"?>\n<!DOCTYPE ncx PUBLIC \"-//NISO//DTD ncx 2005-1//EN\"\n \"http://www.daisy.org/z3986/2005/ncx-2005-1.dtd\">\n<ncx version=\"2005-1\" xmlns=\"http://www.daisy.org/z3986/2005/ncx/\">\n  <head>\n    <meta name=\"dtb:depth\" content=\"1\" />\n    <meta name=\"dtb:totalPageCount\" content=\"0\" />\n    <meta name=\"dtb:maxPageNumber\" content=\"0\" />\n  </head>\n  <docTitle>\n    <text>"@
        + title + "</text>\n  </docTitle>\n  <navMap>\n    "@ + spec_nav_xml(titles)
        + "\n  </navMap>\n</ncx>"@
}

/// The guide block: a single reference to the cover.
pub open spec fn spec_guide() -> Seq<char> {
    "<reference href=\"Text/cover.xhtml\" title=\"Cover\" type=\"cover\"/>"@
}

/// One chapter's spine entry.
pub open spec fn spec_spine_item(i: nat) -> Seq<char> {
    "<itemref idref=\"x"@ + spec_num_fill(i + 1) + ".xhtml\"/>"@
}

/// The spine: the cover first, then one entry per chapter, in order.
pub open spec fn spec_spine_xml(n_chapters: nat) -> Seq<char> {
    join_sep(
        seq!["<itemref idref=\"cover.xhtml\"/>"@] + Seq::new(
            n_chapters,
            |i: int| spec_spine_item(i as nat),
        ),
        "\n    "@,
    )
}

/// One chapter document's manifest entry.
pub open spec fn spec_manifest_chapter_item(i: nat) -> Seq<char> {
    "<item id=\"x"@ + spec_num_fill(i + 1) + ".xhtml\" href=\"Text/"@ + spec_num_fill(i + 1)
        + ".xhtml\" media-type=\"application/xhtml+xml\"/>"@
}

/// One image's manifest entry; the media type follows the extension.
pub open spec fn spec_manifest_image_item(i: nat, ext: Seq<char>) -> Seq<char> {
    "<item id=\"x"@ + spec_num_fill(i) + "."@ + ext + "\" href=\"Images/"@ + spec_num_fill(i)
        + "."@ + ext + "\" media-type=\""@ + (
    if ext == "png"@ {
        "image/png"@
    } else {
        "image/jpeg"@
    }) + "\"/>"@
}

/// The manifest's entries in order: the cover document, the NCX, one entry
/// per chapter document, one per image, the EPUB3 navigation document, and
/// the catalog stylesheet when it is added.
pub open spec fn spec_manifest_parts(
    n_chapters: nat,
    exts: Seq<Seq<char>>,
    add_catalog: bool,
) -> Seq<Seq<char>> {
    seq![
        "<item id=\"cover.xhtml\" href=\"Text/cover.xhtml\" media-type=\"application/xhtml+xml\"/>"@,
        "<item id=\"ncx\" href=\"toc.ncx\" media-type=\"application/x-dtbncx+xml\"/>"@,
    ] + Seq::new(n_chapters, |i: int| spec_manifest_chapter_item(i as nat)) + Seq::new(
        exts.len(),
        |i: int| spec_manifest_image_item(i as nat, exts[i]),
    ) + seq![
        "<item id=\"nav.xhtml\" href=\"Text/nav.xhtml\" media-type=\"application/xhtml+xml\" properties=\"nav\"/>"@,
    ] + if add_catalog {
        seq!["<item id=\"sgc-nav.css\" href=\"Styles/sgc-nav.css\" media-type=\"text/css\"/>"@]
    } else {
        Seq::<Seq<char>>::empty()
    }
}

/// The manifest block.
pub open spec fn spec_manifest_xml(
    n_chapters: nat,
    exts: Seq<Seq<char>>,
    add_catalog: bool,
) -> Seq<char> {
    join_sep(spec_manifest_parts(n_chapters, exts, add_catalog), "\n    "@)
}

/// An optional metadata field: written between its tags when present,
/// absent otherwise.
pub open spec fn opt_field(pre: Seq<char>, v: Option<String>, post: Seq<char>) -> Seq<char> {
    match v {
        Option::Some(x) => pre + x@ + post,
        Option::None => Seq::<char>::empty(),
    }
}

/// The subject list block: one `dc:subject` element per subject.
pub open spec fn spec_subjects(subjects: Seq<Seq<char>>) -> Seq<char> {
    join_sep(
        Seq::new(subjects.len(), |i: int| "<dc:subject>"@ + subjects[i] + "</dc:subject>"@),
        "\n\t\t"@,
    )
}

/// The Dublin Core metadata block: title always, the optional fields when
/// present, the subjects, the modified stamp, the cover reference, and the
/// series name and index when present.
pub open spec fn spec_metadata_xml(m: Metadata, ext0: Seq<char>, modified: Seq<char>) -> Seq<char> {
    "<dc:title>"@ + m.title@ + "</dc:title>"@ + opt_field(
        "\n    <dc:creator>"@,
        m.creator,
        "</dc:creator>"@,
    ) + opt_field("\n    <dc:publisher>"@, m.publisher, "</dc:publisher>"@) + opt_field(
        "\n    <dc:description>"@,
        m.description,
        "</dc:description>"@,
    ) + opt_field("\n    <dc:language>"@, m.language, "</dc:language>"@) + opt_field(
        "\n    <dc:identifier id=\"BookId\">"@,
        m.identifier,
        "</dc:identifier>"@,
    ) + "\n    "@ + spec_subjects(m.subject.deep_view())
        + "\n    <meta property=\"dcterms:modified\">"@ + modified + "</meta>"@
        + "\n    <meta name=\"cover\" content=\"x000."@ + ext0 + "\"/>"@ + opt_field(
        "\n    <meta name=\"calibre:series\" content=\""@,
        m.series,
        "\"/>"@,
    ) + (match m.index {
        Option::Some(ix) => "\n    <meta name=\"calibre:series_index\" content=\""@ + dec_str(
            ix as nat,
        ) + "\"/>"@,
        Option::None => Seq::<char>::empty(),
    })
}

/// The `content.opf` package document around its four blocks.
pub open spec fn spec_opf(
    metadata_xml: Seq<char>,
    manifest_xml: Seq<char>,
    spine_xml: Seq<char>,
    guide_xml: Seq<char>,
) -> Seq<char> {
    "<?xml version=\"1.0\" encoding=\"utf-8\"?>\n<package version=\"3.0\" unique-identifier=\"BookId\" xmlns=\"http://www.idpf.org/2007/opf\">\n  <metadata xmlns:dc=\"http://purl.org/dc/elements/1.1/\" xmlns:opf=\"http://www.idpf.org/2007/opf\">\n    "@
        + metadata_xml + "\n  </metadata>\n  <manifest>\n    "@ + manifest_xml
        + "\n  </manifest>\n  <spine toc=\"ncx\">\n    "@ + spine_xml
        + "\n  </spine>\n  <guide>\n    "@ + guide_xml + "\n  </guide>\n</package>"@
}


/// Escapes `&`, `<` and `>` for embedding in XML text.
pub fn escape_epub_text(input: &str) -> (r: String)
    ensures
        r@ == escape_spec(input@),
{
    crate::utils::escape_epub_text(input)
}

/// Every image index in the chapters points into the image tables.
pub open spec fn blocks_wf(chapters: Seq<Seq<ContentBlockV>>, n_imgs: nat) -> bool {
    forall|c: int, i: int|
        0 <= c < chapters.len() && 0 <= i < chapters[c].len() ==> (
        #[trigger] chapters[c][i] matches ContentBlockV::Image(k) ==> k < n_imgs)
}

/// How one block renders: an empty text run is a line break, text becomes
/// a paragraph, an image reference an `<img>` tag with its path and the
/// source URL as alternate text.
pub open spec fn spec_render_block(
    b: ContentBlockV,
    exts: Seq<Seq<char>>,
    alts: Seq<Seq<char>>,
) -> Seq<char> {
    match b {
        ContentBlockV::Text(t) => if t.len() == 0 {
            "<br/>"@
        } else {
            "<p>"@ + t + "</p>"@
        },
        ContentBlockV::Image(i) => "<img src=\"../Images/"@ + spec_num_fill(i as nat) + "."@
            + exts[i as int] + "\" alt=\""@ + alts[i as int] + "\" />"@,
    }
}

/// How one chapter's blocks render, joined into a body.
pub open spec fn spec_chapter_html(
    blocks: Seq<ContentBlockV>,
    exts: Seq<Seq<char>>,
    alts: Seq<Seq<char>>,
) -> Seq<char> {
    join_sep(
        Seq::new(blocks.len(), |i: int| spec_render_block(blocks[i], exts, alts)),
        "\n    "@,
    )
}

impl EpubBuilder {
    /// `n` zero-padded to at least three digits.
    fn num_fill(&self, n: usize) -> (r: String)
        ensures
            r@ == spec_num_fill(n as nat),
    {
        let d = fmt_usize(n);
        pad_zeros_str(d.as_str(), 3)
    }

    /// The fixed `META-INF/container.xml` document.
    fn build_container(&self) -> (r: String)
        ensures
            r@ == spec_container(),
    {
        String::from_str(
            "<?xml version=\"1.0\" encoding=\"UTF-8\"?>\n<container version=\"1.0\" xmlns=\"urn:oasis:names:tc:opendocument:xmlns:container\">\n  <rootfiles>\n    <rootfile full-path=\"OEBPS/content.opf\" media-type=\"application/oebps-package+xml\" />\n  </rootfiles>\n</container>",
        )
    }

    /// One chapter document around its title and body.
    fn build_xhtml(&self, title: &str, body: &str) -> (r: String)
        ensures
            r@ == spec_xhtml(title@, body@),
    {
        let mut out = String::from_str(
            "<?xml version=\"1.0\" encoding=\"utf-8\"?>\n<!DOCTYPE html>\n\n<html xmlns=\"http://www.w3.org/1999/xhtml\" xmlns:epub=\"http://www.idpf.org/2007/ops\">\n  <head>\n    <title>",
        );
        out.append(title);
        out.append(
            "</title>\n    <style type=\"text/css\">p{text-indent:2em;}</style>\n  </head>\n  <body>\n    ",
        );
        if !str_eq(title, "彩页") {
            out.append("<h1>");
            out.append(title);
            out.append("</h1>\n    ");
        }
        out.append(body);
        out.append("\n  </body>\n</html>");
        proof {
            assert(out@ =~= spec_xhtml(title@, body@));
        }
        out
    }

    /// The cover document, showing image 0.
    fn build_cover_xhtml(&self) -> (r: String)
        requires
            self.image_exts@.len() > 0,
        ensures
            r@ == spec_cover_xhtml(self.image_exts.deep_view()[0]),
    {
        let mut out = String::from_str(
            "<?xml version=\"1.0\" encoding=\"UTF-8\"?>\n<!DOCTYPE html>\n\n<html xmlns=\"http://www.w3.org/1999/xhtml\" xmlns:epub=\"http://www.idpf.org/2007/ops\">\n<head>\n  <title>Cover</title>\n</head>\n<body>\n  <div style=\"text-align: center; padding: 0pt; margin: 0pt;\">\n    <img src=\"../Images/000.",
        );
        out.append(self.image_exts[0].as_str());
        out.append("\" alt=\"cover\" />\n  </div>\n</body>\n</html>");
        proof {
            assert(out@ =~= spec_cover_xhtml(self.image_exts.deep_view()[0]));
        }
        out
    }

    /// The catalog stylesheet: its archive path and bytes.
    fn build_sgc_nav_css(&self) -> (r: (String, Vec<u8>))
        ensures
            r.0@ == "OEBPS/Styles/sgc-nav.css"@,
            r.1@ == vstd::utf8::encode_utf8(spec_sgc_nav_css()),
    {
        let css = String::from_str(
            "nav#toc {\n  font-family: 'Segoe UI', Tahoma, Geneva, Verdana, sans-serif;\n  padding: 20px;\n  background-color: #f8f8f8;\n  border-radius: 10px;\n  box-shadow: 0px 4px 6px rgba(0, 0, 0, 0.1);\n}\n\nnav#toc h1 {\n  font-size: 24px;\n  color: #333;\n  text-align: center;\n  margin-bottom: 20px;\n  font-weight: bold;\n}\n\nnav#toc ol {\n  list-style-type: none;\n  padding-left: 0;\n}\n\nnav#toc ol li {\n  margin-bottom: 10px;\n}\n\nnav#toc ol li a {\n  text-decoration: none;\n  font-size: 18px;\n  color: #555;\n  padding: 6px;\n  display: block;\n  transition: background-color 0.3s, color 0.3s;\n  border-radius: 5px;\n}\n\nnav#toc ol li a:hover {\n  background-color: #d9d9d9;\n  color: #000;\n}\n",
        );
        let bytes = css.as_str().as_bytes_vec();
        (String::from_str("OEBPS/Styles/sgc-nav.css"), bytes)
    }

    /// The guide block, referencing the cover.
    fn get_guide_xml(&self) -> (r: String)
        ensures
            r@ == spec_guide(),
    {
        String::from_str("<reference href=\"Text/cover.xhtml\" title=\"Cover\" type=\"cover\"/>")
    }

    /// The NCX navigation map, one `navPoint` per chapter.
    fn get_nav_xml(&self) -> (r: String)
        ensures
            r@ == spec_nav_xml(self.chapter_titles.deep_view()),
    {
        let ghost titles = self.chapter_titles.deep_view();
        let mut parts: Vec<String> = Vec::new();
        let n = self.chapter_titles.len();
        let mut i: usize = 0;
        while i < n
            invariant
                i <= n,
                n == self.chapter_titles@.len(),
                titles == self.chapter_titles.deep_view(),
                parts@.len() == i,
                forall|k: int|
                    0 <= k < i ==> #[trigger] parts.deep_view()[k] == spec_nav_point(
                        k as nat,
                        titles[k],
                    ),
            decreases n - i,
        {
            let mut p = String::from_str("<navPoint id=\"navPoint-");
            let num = fmt_usize(i + 1);
            p.append(num.as_str());
            p.append("\" playOrder=\"");
            p.append(num.as_str());
            p.append("\">\n      <navLabel>\n        <text>");
            p.append(self.chapter_titles[i].as_str());
            p.append("</text>\n      </navLabel>\n      <content src=\"Text/");
            let nf = self.num_fill(i + 1);
            p.append(nf.as_str());
            p.append(".xhtml\" />\n    </navPoint>");
            proof {
                assert(p@ =~= spec_nav_point(i as nat, titles[i as int]));
            }
            let ghost pre = parts.deep_view();
            parts.push(p);
            proof {
                assert(parts.deep_view() =~= pre.push(parts.deep_view().last()));
            }
            i += 1;
        }
        let r = join_strings(&parts, "\n    ");
        proof {
            assert(parts.deep_view() =~= Seq::new(
                titles.len(),
                |k: int| spec_nav_point(k as nat, titles[k]),
            ));
        }
        r
    }

    /// The `toc.ncx` document.
    fn build_ncx(&self) -> (r: String)
        ensures
            r@ == spec_ncx(self.metadata.title@, self.chapter_titles.deep_view()),
    {
        let mut out = String::from_str(
            "<?xml version=\"1.0\" encoding=\"utf-8\"?>\n<!DOCTYPE ncx PUBLIC \"-//NISO//DTD ncx 2005-1//EN\"\n \"http://www.daisy.org/z3986/2005/ncx-2005-1.dtd\">\n<ncx version=\"2005-1\" xmlns=\"http://www.daisy.org/z3986/2005/ncx/\">\n  <head>\n    <meta name=\"dtb:depth\" content=\"1\" />\n    <meta name=\"dtb:totalPageCount\" content=\"0\" />\n    <meta name=\"dtb:maxPageNumber\" content=\"0\" />\n  </head>\n  <docTitle>\n    <text>",
        );
        out.append(self.metadata.title.as_str());
        out.append("</text>\n  </docTitle>\n  <navMap>\n    ");
        let nav = self.get_nav_xml();
        out.append(nav.as_str());
        out.append("\n  </navMap>\n</ncx>");
        proof {
            assert(out@ =~= spec_ncx(self.metadata.title@, self.chapter_titles.deep_view()));
        }
        out
    }

    /// The spine block: the cover, then the chapters in order.
    fn get_spine_xml(&self) -> (r: String)
        ensures
            r@ == spec_spine_xml(self.chapter_titles.deep_view().len() as nat),
    {
        let ghost nch = self.chapter_titles.deep_view().len() as nat;
        let mut parts: Vec<String> = Vec::new();
        parts.push(String::from_str("<itemref idref=\"cover.xhtml\"/>"));
        let n = self.chapter_titles.len();
        let mut i: usize = 0;
        while i < n
            invariant
                i <= n,
                n == self.chapter_titles@.len(),
                parts@.len() == i + 1,
                parts.deep_view()[0] == "<itemref idref=\"cover.xhtml\"/>"@,
                forall|k: int|
                    0 <= k < i ==> #[trigger] parts.deep_view()[k + 1] == spec_spine_item(k as nat),
            decreases n - i,
        {
            let mut p = String::from_str("<itemref idref=\"x");
            let nf = self.num_fill(i + 1);
            p.append(nf.as_str());
            p.append(".xhtml\"/>");
            proof {
                assert(p@ =~= spec_spine_item(i as nat));
            }
            let ghost pre = parts.deep_view();
            parts.push(p);
            proof {
                assert(parts.deep_view() =~= pre.push(parts.deep_view().last()));
            }
            i += 1;
        }
        let r = join_strings(&parts, "\n    ");
        proof {
            assert(parts.deep_view() =~= seq!["<itemref idref=\"cover.xhtml\"/>"@] + Seq::new(
                nch,
                |k: int| spec_spine_item(k as nat),
            ));
        }
        r
    }

    /// The manifest block: cover, NCX, chapters, images, navigation
    /// document, and the stylesheet when added.
    fn get_manifest_xml(&self) -> (r: String)
        ensures
            r@ == spec_manifest_xml(
                self.chapter_titles.deep_view().len() as nat,
                self.image_exts.deep_view(),
                self.add_catalog,
            ),
    {
        let ghost nch = self.chapter_titles.deep_view().len() as nat;
        let ghost exts = self.image_exts.deep_view();
        let mut parts: Vec<String> = Vec::new();
        parts.push(String::from_str(
            "<item id=\"cover.xhtml\" href=\"Text/cover.xhtml\" media-type=\"application/xhtml+xml\"/>",
        ));
        parts.push(String::from_str(
            "<item id=\"ncx\" href=\"toc.ncx\" media-type=\"application/x-dtbncx+xml\"/>",
        ));
        let n = self.chapter_titles.len();
        let mut i: usize = 0;
        while i < n
            invariant
                i <= n,
                n == self.chapter_titles@.len(),
                parts@.len() == i + 2,
                parts.deep_view()[0]
                    == "<item id=\"cover.xhtml\" href=\"Text/cover.xhtml\" media-type=\"application/xhtml+xml\"/>"@,
                parts.deep_view()[1]
                    == "<item id=\"ncx\" href=\"toc.ncx\" media-type=\"application/x-dtbncx+xml\"/>"@,
                forall|k: int|
                    0 <= k < i ==> #[trigger] parts.deep_view()[k + 2]
                        == spec_manifest_chapter_item(k as nat),
            decreases n - i,
        {
            let mut p = String::from_str("<item id=\"x");
            let nf = self.num_fill(i + 1);
            p.append(nf.as_str());
            p.append(".xhtml\" href=\"Text/");
            p.append(nf.as_str());
            p.append(".xhtml\" media-type=\"application/xhtml+xml\"/>");
            proof {
                assert(p@ =~= spec_manifest_chapter_item(i as nat));
            }
            let ghost pre = parts.deep_view();
            parts.push(p);
            proof {
                assert(parts.deep_view() =~= pre.push(parts.deep_view().last()));
            }
            i += 1;
        }
        let ni = self.image_exts.len();
        let mut j: usize = 0;
        while j < ni
            invariant
                j <= ni,
                ni == self.image_exts@.len(),
                n == self.chapter_titles@.len(),
                exts == self.image_exts.deep_view(),
                parts@.len() == n + 2 + j,
                parts.deep_view()[0]
                    == "<item id=\"cover.xhtml\" href=\"Text/cover.xhtml\" media-type=\"application/xhtml+xml\"/>"@,
                parts.deep_view()[1]
                    == "<item id=\"ncx\" href=\"toc.ncx\" media-type=\"application/x-dtbncx+xml\"/>"@,
                forall|k: int|
                    0 <= k < n ==> #[trigger] parts.deep_view()[k + 2]
                        == spec_manifest_chapter_item(k as nat),
                forall|k: int|
                    0 <= k < j ==> #[trigger] parts.deep_view()[k + n + 2]
                        == spec_manifest_image_item(k as nat, exts[k]),
            decreases ni - j,
        {
            let ext = &self.image_exts[j];
            let mut p = String::from_str("<item id=\"x");
            let nf = self.num_fill(j);
            p.append(nf.as_str());
            p.append(".");
            p.append(ext.as_str());
            p.append("\" href=\"Images/");
            p.append(nf.as_str());
            p.append(".");
            p.append(ext.as_str());
            p.append("\" media-type=\"");
            if str_eq(ext.as_str(), "png") {
                p.append("image/png");
            } else {
                p.append("image/jpeg");
            }
            p.append("\"/>");
            proof {
                assert(p@ =~= spec_manifest_image_item(j as nat, exts[j as int]));
            }
            let ghost pre = parts.deep_view();
            parts.push(p);
            proof {
                assert(parts.deep_view() =~= pre.push(parts.deep_view().last()));
            }
            j += 1;
        }
        let ghost base = parts.deep_view();
        parts.push(String::from_str(
            "<item id=\"nav.xhtml\" href=\"Text/nav.xhtml\" media-type=\"application/xhtml+xml\" properties=\"nav\"/>",
        ));
        proof {
            assert(parts.deep_view() =~= base.push(parts.deep_view().last()));
        }
        if self.add_catalog {
            let ghost base2 = parts.deep_view();
            parts.push(String::from_str(
                "<item id=\"sgc-nav.css\" href=\"Styles/sgc-nav.css\" media-type=\"text/css\"/>",
            ));
            proof {
                assert(parts.deep_view() =~= base2.push(parts.deep_view().last()));
            }
        }
        let r = join_strings(&parts, "\n    ");
        proof {
            let total = parts.deep_view();
            let spc = spec_manifest_parts(nch, exts, self.add_catalog);
            let ne = exts.len() as int;
            assert(total.len() == spc.len());
            assert forall|k: int| 0 <= k < total.len() implies total[k] == spc[k] by {
                if k >= 2 && k < nch + 2 {
                    assert(total[(k - 2) + 2] == spec_manifest_chapter_item((k - 2) as nat));
                } else if k >= nch + 2 && k < nch + 2 + ne {
                    let k2 = k - (nch + 2);
                    assert(total[k2 + (n as int) + 2] == spec_manifest_image_item(
                        k2 as nat,
                        exts[k2],
                    ));
                }
            }
            assert(total =~= spc);
        }
        r
    }
}


/// One chapter's entry in the EPUB3 navigation list.
pub open spec fn spec_nav_item(i: nat, title: Seq<char>) -> Seq<char> {
    "<li><a href=\""@ + spec_num_fill(i + 1) + ".xhtml\">"@ + title + "</a></li>"@
}

/// The EPUB3 navigation document: one list entry per chapter, and a link
/// to the catalog stylesheet when it is added.
pub open spec fn spec_nav_xhtml(titles: Seq<Seq<char>>, add_catalog: bool) -> Seq<char> {
    let css = if add_catalog {
        "\n  <link href=\"../Styles/sgc-nav.css\" rel=\"stylesheet\" type=\"text/css\"/>"@
    } else {
        Seq::<char>::empty()
    };
    "<?xml version=\"1.0\" encoding=\"utf-8\"?>\n<!DOCTYPE html>\n\n<html xmlns=\"http://www.w3.org/1999/xhtml\" xmlns:epub=\"http://www.idpf.org/2007/ops\" lang=\"en\" xml:lang=\"en\">\n<head>\n  <title>ePub NAV</title>\n  <meta charset=\"utf-8\"/>"@
        + css
        + "\n</head>\n<body epub:type=\"frontmatter\">\n  <nav epub:type=\"toc\" id=\"toc\" role=\"doc-toc\">\n    <h1>目录</h1>\n    <ol>\n      "@
        + join_sep(
        Seq::new(titles.len(), |i: int| spec_nav_item(i as nat, titles[i])),
        "\n      "@,
    ) + "\n    </ol>\n  </nav>\n</body>\n</html>"@
}

impl EpubBuilder {
    /// The Dublin Core metadata block.
    #[verifier::rlimit(100)]
    #[verifier::spinoff_prover]
    fn get_metadata_xml(&self) -> (r: String)
        requires
            self.image_exts@.len() > 0,
        ensures
            r@ == spec_metadata_xml(
                self.metadata,
                self.image_exts.deep_view()[0],
                self.modified@,
            ),
    {
        let m = &self.metadata;
        let mut out = String::from_str("<dc:title>");
        out.append(m.title.as_str());
        out.append("</dc:title>");
        let ghost a1 = "<dc:title>"@ + m.title@ + "</dc:title>"@;
        proof {
            assert(out@ =~= a1);
        }
        if let Option::Some(c) = &m.creator {
            out.append("\n    <dc:creator>");
            out.append(c.as_str());
            out.append("</dc:creator>");
        }
        let ghost a2 = a1 + opt_field("\n    <dc:creator>"@, m.creator, "</dc:creator>"@);
        proof {
            assert(out@ =~= a2);
        }
        if let Option::Some(pb) = &m.publisher {
            out.append("\n    <dc:publisher>");
            out.append(pb.as_str());
            out.append("</dc:publisher>");
        }
        let ghost a3 = a2 + opt_field("\n    <dc:publisher>"@, m.publisher, "</dc:publisher>"@);
        proof {
            assert(out@ =~= a3);
        }
        if let Option::Some(d) = &m.description {
            out.append("\n    <dc:description>");
            out.append(d.as_str());
            out.append("</dc:description>");
        }
        let ghost a4 = a3 + opt_field(
            "\n    <dc:description>"@,
            m.description,
            "</dc:description>"@,
        );
        proof {
            assert(out@ =~= a4);
        }
        if let Option::Some(l) = &m.language {
            out.append("\n    <dc:language>");
            out.append(l.as_str());
            out.append("</dc:language>");
        }
        let ghost a5 = a4 + opt_field("\n    <dc:language>"@, m.language, "</dc:language>"@);
        proof {
            assert(out@ =~= a5);
        }
        if let Option::Some(id) = &m.identifier {
            out.append("\n    <dc:identifier id=\"BookId\">");
            out.append(id.as_str());
            out.append("</dc:identifier>");
        }
        let ghost a6 = a5 + opt_field(
            "\n    <dc:identifier id=\"BookId\">"@,
            m.identifier,
            "</dc:identifier>"@,
        );
        proof {
            assert(out@ =~= a6);
        }
        out.append("\n    ");
        let ghost subjects = m.subject.deep_view();
        let mut parts: Vec<String> = Vec::new();
        let n = m.subject.len();
        let mut i: usize = 0;
        while i < n
            invariant
                i <= n,
                n == self.metadata.subject@.len(),
                subjects == self.metadata.subject.deep_view(),
                parts@.len() == i,
                forall|k: int|
                    0 <= k < i ==> #[trigger] parts.deep_view()[k] == "<dc:subject>"@ + subjects[k]
                        + "</dc:subject>"@,
            decreases n - i,
        {
            let mut p = String::from_str("<dc:subject>");
            p.append(self.metadata.subject[i].as_str());
            p.append("</dc:subject>");
            let ghost pre = parts.deep_view();
            parts.push(p);
            proof {
                assert(parts.deep_view() =~= pre.push(parts.deep_view().last()));
            }
            i += 1;
        }
        let joined = join_strings(&parts, "\n\t\t");
        proof {
            assert(parts.deep_view() =~= Seq::new(
                subjects.len(),
                |k: int| "<dc:subject>"@ + subjects[k] + "</dc:subject>"@,
            ));
        }
        out.append(joined.as_str());
        let ghost a7 = a6 + "\n    "@ + spec_subjects(subjects);
        proof {
            assert(out@ =~= a7);
        }
        out.append("\n    <meta property=\"dcterms:modified\">");
        out.append(self.modified.as_str());
        out.append("</meta>");
        out.append("\n    <meta name=\"cover\" content=\"x000.");
        out.append(self.image_exts[0].as_str());
        out.append("\"/>");
        let ghost a8 = a7 + "\n    <meta property=\"dcterms:modified\">"@ + self.modified@
            + "</meta>"@ + "\n    <meta name=\"cover\" content=\"x000."@
            + self.image_exts.deep_view()[0] + "\"/>"@;
        proof {
            assert(out@ =~= a8);
        }
        if let Option::Some(sr) = &m.series {
            out.append("\n    <meta name=\"calibre:series\" content=\"");
            out.append(sr.as_str());
            out.append("\"/>");
        }
        let ghost a9 = a8 + opt_field(
            "\n    <meta name=\"calibre:series\" content=\""@,
            m.series,
            "\"/>"@,
        );
        proof {
            assert(out@ =~= a9);
        }
        if let Option::Some(ix) = m.index {
            out.append("\n    <meta name=\"calibre:series_index\" content=\"");
            let num = fmt_usize(ix);
            out.append(num.as_str());
            out.append("\"/>");
        }
        proof {
            let tail = (match m.index {
                Option::Some(ix) => "\n    <meta name=\"calibre:series_index\" content=\""@
                    + dec_str(ix as nat) + "\"/>"@,
                Option::None => Seq::<char>::empty(),
            });
            assert(out@ =~= a9 + tail);
            assert(a9 + tail =~= spec_metadata_xml(
                self.metadata,
                self.image_exts.deep_view()[0],
                self.modified@,
            ));
        }
        out
    }

    /// The `content.opf` package document.
    fn build_opf(&self) -> (r: String)
        requires
            self.image_exts@.len() > 0,
        ensures
            r@ == spec_opf(
                spec_metadata_xml(self.metadata, self.image_exts.deep_view()[0], self.modified@),
                spec_manifest_xml(
                    self.chapter_titles.deep_view().len() as nat,
                    self.image_exts.deep_view(),
                    self.add_catalog,
                ),
                spec_spine_xml(self.chapter_titles.deep_view().len() as nat),
                spec_guide(),
            ),
    {
        let metadata = self.get_metadata_xml();
        let manifest = self.get_manifest_xml();
        let spine = self.get_spine_xml();
        let guide = self.get_guide_xml();
        let mut out = String::from_str(
            "<?xml version=\"1.0\" encoding=\"utf-8\"?>\n<package version=\"3.0\" unique-identifier=\"BookId\" xmlns=\"http://www.idpf.org/2007/opf\">\n  <metadata xmlns:dc=\"http://purl.org/dc/elements/1.1/\" xmlns:opf=\"http://www.idpf.org/2007/opf\">\n    ",
        );
        out.append(metadata.as_str());
        out.append("\n  </metadata>\n  <manifest>\n    ");
        out.append(manifest.as_str());
        out.append("\n  </manifest>\n  <spine toc=\"ncx\">\n    ");
        out.append(spine.as_str());
        out.append("\n  </spine>\n  <guide>\n    ");
        out.append(guide.as_str());
        out.append("\n  </guide>\n</package>");
        proof {
            assert(out@ =~= spec_opf(metadata@, manifest@, spine@, guide@));
        }
        out
    }

    /// The EPUB3 navigation document.
    fn build_nav_xhtml(&self) -> (r: String)
        ensures
            r@ == spec_nav_xhtml(self.chapter_titles.deep_view(), self.add_catalog),
    {
        let ghost titles = self.chapter_titles.deep_view();
        let mut parts: Vec<String> = Vec::new();
        let n = self.chapter_titles.len();
        let mut i: usize = 0;
        while i < n
            invariant
                i <= n,
                n == self.chapter_titles@.len(),
                titles == self.chapter_titles.deep_view(),
                parts@.len() == i,
                forall|k: int|
                    0 <= k < i ==> #[trigger] parts.deep_view()[k] == spec_nav_item(
                        k as nat,
                        titles[k],
                    ),
            decreases n - i,
        {
            let mut p = String::from_str("<li><a href=\"");
            let nf = self.num_fill(i + 1);
            p.append(nf.as_str());
            p.append(".xhtml\">");
            p.append(self.chapter_titles[i].as_str());
            p.append("</a></li>");
            proof {
                assert(p@ =~= spec_nav_item(i as nat, titles[i as int]));
            }
            let ghost pre = parts.deep_view();
            parts.push(p);
            proof {
                assert(parts.deep_view() =~= pre.push(parts.deep_view().last()));
            }
            i += 1;
        }
        let items = join_strings(&parts, "\n      ");
        proof {
            assert(parts.deep_view() =~= Seq::new(
                titles.len(),
                |k: int| spec_nav_item(k as nat, titles[k]),
            ));
        }
        let mut out = String::from_str(
            "<?xml version=\"1.0\" encoding=\"utf-8\"?>\n<!DOCTYPE html>\n\n<html xmlns=\"http://www.w3.org/1999/xhtml\" xmlns:epub=\"http://www.idpf.org/2007/ops\" lang=\"en\" xml:lang=\"en\">\n<head>\n  <title>ePub NAV</title>\n  <meta charset=\"utf-8\"/>",
        );
        if self.add_catalog {
            out.append(
                "\n  <link href=\"../Styles/sgc-nav.css\" rel=\"stylesheet\" type=\"text/css\"/>",
            );
        }
        out.append(
            "\n</head>\n<body epub:type=\"frontmatter\">\n  <nav epub:type=\"toc\" id=\"toc\" role=\"doc-toc\">\n    <h1>目录</h1>\n    <ol>\n      ",
        );
        out.append(items.as_str());
        out.append("\n    </ol>\n  </nav>\n</body>\n</html>");
        proof {
            assert(out@ =~= spec_nav_xhtml(titles, self.add_catalog));
        }
        out
    }
}


/// One archive member: its path, its bytes, and whether it is written
/// without compression.
#[derive(Debug)]
pub struct EpubEntry {
    pub path: String,
    pub bytes: Vec<u8>,
    pub stored: bool,
}

/// The entry has the given path, bytes and compression flag.
pub open spec fn entry_is(e: EpubEntry, path: Seq<char>, bytes: Seq<u8>, stored: bool) -> bool {
    e.path@ == path && e.bytes@ == bytes && e.stored == stored
}

/// How many chapters a body holds.
pub open spec fn body_len(b: &Body) -> nat {
    match b {
        Body::Html(h) => h@.len() as nat,
        Body::Blocks(bl) => bl@.len() as nat,
    }
}

/// Chapter `i`'s body markup: taken as given for a pre-rendered body,
/// rendered from the blocks otherwise.
pub open spec fn spec_doc_html(
    b: &Body,
    i: int,
    exts: Seq<Seq<char>>,
    alts: Seq<Seq<char>>,
) -> Seq<char> {
    match b {
        Body::Html(h) => h.deep_view()[i],
        Body::Blocks(bl) => spec_chapter_html(bl.deep_view()[i], exts, alts),
    }
}

/// Appends one compressed member to the archive.
fn add_file(epub: &mut Vec<EpubEntry>, file: (String, Vec<u8>))
    ensures
        final(epub)@ == old(epub)@.push(
            EpubEntry { path: file.0, bytes: file.1, stored: false },
        ),
{
    epub.push(EpubEntry { path: file.0, bytes: file.1, stored: false });
}

fn copy_bytes(v: &Vec<u8>) -> (r: Vec<u8>)
    ensures
        r@ == v@,
{
    let mut out: Vec<u8> = Vec::new();
    let n = v.len();
    let mut i: usize = 0;
    while i < n
        invariant
            i <= n,
            n == v@.len(),
            out@ =~= v@.take(i as int),
        decreases n - i,
    {
        out.push(v[i]);
        assert(out@ =~= v@.take(i + 1));
        i += 1;
    }
    assert(out@ =~= v@);
    out
}

impl EpubBuilder {
    /// Renders block chapters to markup bodies: empty text is a line
    /// break, text a paragraph, an image reference an `<img>` tag.
    fn to_html(&self, chapters: &Vec<Vec<ContentBlock>>) -> (r: Vec<String>)
        requires
            blocks_wf(chapters.deep_view(), self.image_exts@.len() as nat),
            blocks_wf(chapters.deep_view(), self.image_alts@.len() as nat),
        ensures
            r@.len() == chapters@.len(),
            forall|c: int|
                0 <= c < chapters@.len() ==> #[trigger] r.deep_view()[c] == spec_chapter_html(
                    chapters.deep_view()[c],
                    self.image_exts.deep_view(),
                    self.image_alts.deep_view(),
                ),
    {
        let ghost exts = self.image_exts.deep_view();
        let ghost alts = self.image_alts.deep_view();
        let mut out: Vec<String> = Vec::new();
        let n = chapters.len();
        let mut c: usize = 0;
        while c < n
            invariant
                c <= n,
                n == chapters@.len(),
                exts == self.image_exts.deep_view(),
                alts == self.image_alts.deep_view(),
                blocks_wf(chapters.deep_view(), self.image_exts@.len() as nat),
                blocks_wf(chapters.deep_view(), self.image_alts@.len() as nat),
                out@.len() == c,
                forall|k: int|
                    0 <= k < c ==> #[trigger] out.deep_view()[k] == spec_chapter_html(
                        chapters.deep_view()[k],
                        exts,
                        alts,
                    ),
            decreases n - c,
        {
            let chapter = &chapters[c];
            let ghost blocks = chapter.deep_view();
            let mut parts: Vec<String> = Vec::new();
            let m = chapter.len();
            let mut b: usize = 0;
            while b < m
                invariant
                    b <= m,
                    m == chapter@.len(),
                    c < chapters@.len(),
                    blocks == chapter.deep_view(),
                    blocks == chapters.deep_view()[c as int],
                    exts == self.image_exts.deep_view(),
                    alts == self.image_alts.deep_view(),
                    blocks_wf(chapters.deep_view(), self.image_exts@.len() as nat),
                    blocks_wf(chapters.deep_view(), self.image_alts@.len() as nat),
                    parts@.len() == b,
                    forall|k: int|
                        0 <= k < b ==> #[trigger] parts.deep_view()[k] == spec_render_block(
                            blocks[k],
                            exts,
                            alts,
                        ),
                decreases m - b,
            {
                let piece: String = match &chapter[b] {
                    ContentBlock::Text(text) => {
                        if text.as_str().is_empty() {
                            String::from_str("<br/>")
                        } else {
                            let mut t = String::from_str("<p>");
                            t.append(text.as_str());
                            t.append("</p>");
                            proof {
                                assert(t@ =~= "<p>"@ + text@ + "</p>"@);
                            }
                            t
                        }
                    },
                    ContentBlock::Image(image) => {
                        assert(blocks[b as int] matches ContentBlockV::Image(k) && k
                            < self.image_exts@.len() && k < self.image_alts@.len());
                        let mut t = String::from_str("<img src=\"../Images/");
                        let nf = self.num_fill(*image);
                        t.append(nf.as_str());
                        t.append(".");
                        t.append(self.image_exts[*image].as_str());
                        t.append("\" alt=\"");
                        t.append(self.image_alts[*image].as_str());
                        t.append("\" />");
                        proof {
                            assert(t@ =~= spec_render_block(blocks[b as int], exts, alts));
                        }
                        t
                    },
                };
                let ghost pre = parts.deep_view();
                parts.push(piece);
                proof {
                    assert(parts.deep_view() =~= pre.push(parts.deep_view().last()));
                }
                b += 1;
            }
            let body = join_strings(&parts, "\n    ");
            proof {
                assert(parts.deep_view() =~= Seq::new(
                    blocks.len(),
                    |k: int| spec_render_block(blocks[k], exts, alts),
                ));
            }
            let ghost preo = out.deep_view();
            out.push(body);
            proof {
                assert(out.deep_view() =~= preo.push(out.deep_view().last()));
            }
            c += 1;
        }
        out
    }
}


proof fn lemma_not_mimetype(p: Seq<char>)
    requires
        p.len() > 0,
        p[0] == 'O' || p[0] == 'M',
    ensures
        p != "mimetype"@,
{
    reveal_strlit("mimetype");
    if p == "mimetype"@ {
        assert(p[0] == 'm');
    }
}

fn copy_strings(v: &Vec<String>) -> (r: Vec<String>)
    ensures
        r.deep_view() == v.deep_view(),
{
    let mut out: Vec<String> = Vec::new();
    let n = v.len();
    let mut i: usize = 0;
    while i < n
        invariant
            i <= n,
            n == v@.len(),
            out@.len() == i,
            forall|k: int| 0 <= k < i ==> #[trigger] out.deep_view()[k] == v.deep_view()[k],
        decreases n - i,
    {
        let c = v[i].clone();
        let ghost pre = out.deep_view();
        out.push(c);
        proof {
            assert(out.deep_view() =~= pre.push(out.deep_view().last()));
        }
        i += 1;
    }
    proof {
        assert(out.deep_view() =~= v.deep_view());
    }
    out
}

impl EpubBuilder {
    /// The first five members, in order: `mimetype` (stored uncompressed),
    /// the container, the package document, the NCX, and the cover page.
    pub open spec fn head_ok(&self, r: Seq<EpubEntry>) -> bool {
        let ext0 = self.image_exts.deep_view()[0];
        let nch = self.chapter_titles.deep_view().len() as nat;
        &&& r.len() >= 5
        &&& entry_is(
            r[0],
            "mimetype"@,
            vstd::utf8::encode_utf8("application/epub+zip"@),
            true,
        )
        &&& entry_is(
            r[1],
            "META-INF/container.xml"@,
            vstd::utf8::encode_utf8(spec_container()),
            false,
        )
        &&& entry_is(
            r[2],
            "OEBPS/content.opf"@,
            vstd::utf8::encode_utf8(
                spec_opf(
                    spec_metadata_xml(self.metadata, ext0, self.modified@),
                    spec_manifest_xml(nch, self.image_exts.deep_view(), self.add_catalog),
                    spec_spine_xml(nch),
                    spec_guide(),
                ),
            ),
            false,
        )
        &&& entry_is(
            r[3],
            "OEBPS/toc.ncx"@,
            vstd::utf8::encode_utf8(
                spec_ncx(self.metadata.title@, self.chapter_titles.deep_view()),
            ),
            false,
        )
        &&& entry_is(
            r[4],
            "OEBPS/Text/cover.xhtml"@,
            vstd::utf8::encode_utf8(spec_cover_xhtml(ext0)),
            false,
        )
    }

    /// Chapter member `k` holds chapter `k`'s document under its
    /// three-digit path.
    pub open spec fn chapter_entry_ok(&self, r: Seq<EpubEntry>, k: int) -> bool {
        entry_is(
            r[5 + k],
            "OEBPS/Text/"@ + spec_num_fill((k + 1) as nat) + ".xhtml"@,
            vstd::utf8::encode_utf8(
                spec_xhtml(
                    self.chapter_titles.deep_view()[k],
                    spec_doc_html(
                        &self.chapters,
                        k,
                        self.image_exts.deep_view(),
                        self.image_alts.deep_view(),
                    ),
                ),
            ),
            false,
        )
    }

    /// Image member `k` holds image `k`'s bytes under its three-digit path.
    pub open spec fn image_entry_ok(&self, r: Seq<EpubEntry>, base: int, k: int) -> bool {
        entry_is(
            r[base + k],
            "OEBPS/Images/"@ + spec_num_fill(k as nat) + "."@ + self.image_exts.deep_view()[k],
            self.images.deep_view()[k],
            false,
        )
    }

    /// Everything after the first member is compressed, and no other
    /// member is named `mimetype`.
    pub open spec fn tail_clean(r: Seq<EpubEntry>) -> bool {
        forall|k: int|
            1 <= k < r.len() ==> !(#[trigger] r[k]).stored && r[k].path@ != "mimetype"@
    }

    /// The builder's inputs are consistent: a cover image exists, the
    /// image tables line up, titles and bodies are co-indexed, and every
    /// image reference points into the tables.
    pub open spec fn wf(&self) -> bool {
        &&& self.image_exts@.len() > 0
        &&& self.images@.len() == self.image_exts@.len()
        &&& self.image_alts@.len() == self.image_exts@.len()
        &&& body_len(&self.chapters) == self.chapter_titles@.len()
        &&& match &self.chapters {
            Body::Blocks(bl) => blocks_wf(bl.deep_view(), self.image_exts@.len() as nat)
                && blocks_wf(bl.deep_view(), self.image_alts@.len() as nat),
            Body::Html(_) => true,
        }
    }

    /// Builds the archive members in their serialization order: the five
    /// head members, one document per chapter, the navigation document,
    /// one member per image, and the catalog stylesheet when added. The
    /// first member is `mimetype`, stored uncompressed with the exact
    /// media-type bytes; no other member carries that name.
    #[verifier::rlimit(100)]
    #[verifier::spinoff_prover]
    pub fn build_epub(&self) -> (r: Vec<EpubEntry>)
        requires
            self.wf(),
        ensures
            ({
                let nch = self.chapter_titles.deep_view().len() as int;
                let ni = self.image_exts.deep_view().len() as int;
                &&& r@.len() == 6 + nch + ni + (if self.add_catalog { 1int } else { 0 })
                &&& self.head_ok(r@)
                &&& forall|k: int| 0 <= k < nch ==> #[trigger] self.chapter_entry_ok(r@, k)
                &&& entry_is(
                    r@[5 + nch],
                    "OEBPS/Text/nav.xhtml"@,
                    vstd::utf8::encode_utf8(
                        spec_nav_xhtml(self.chapter_titles.deep_view(), self.add_catalog),
                    ),
                    false,
                )
                &&& forall|k: int| 0 <= k < ni ==> #[trigger] self.image_entry_ok(r@, 6 + nch, k)
                &&& (self.add_catalog ==> entry_is(
                    r@[6 + nch + ni],
                    "OEBPS/Styles/sgc-nav.css"@,
                    vstd::utf8::encode_utf8(spec_sgc_nav_css()),
                    false,
                ))
                &&& Self::tail_clean(r@)
            }),
    {
        let ghost nch = self.chapter_titles.deep_view().len() as int;
        let ghost ni = self.image_exts.deep_view().len() as int;
        let ghost titles = self.chapter_titles.deep_view();
        let ghost exts = self.image_exts.deep_view();
        let ghost alts = self.image_alts.deep_view();
        let mut epub: Vec<EpubEntry> = Vec::new();
        epub.push(
            EpubEntry {
                path: String::from_str("mimetype"),
                bytes: "application/epub+zip".as_bytes_vec(),
                stored: true,
            },
        );
        epub.push(
            EpubEntry {
                path: String::from_str("META-INF/container.xml"),
                bytes: self.build_container().as_str().as_bytes_vec(),
                stored: false,
            },
        );
        epub.push(
            EpubEntry {
                path: String::from_str("OEBPS/content.opf"),
                bytes: self.build_opf().as_str().as_bytes_vec(),
                stored: false,
            },
        );
        epub.push(
            EpubEntry {
                path: String::from_str("OEBPS/toc.ncx"),
                bytes: self.build_ncx().as_str().as_bytes_vec(),
                stored: false,
            },
        );
        epub.push(
            EpubEntry {
                path: String::from_str("OEBPS/Text/cover.xhtml"),
                bytes: self.build_cover_xhtml().as_str().as_bytes_vec(),
                stored: false,
            },
        );
        proof {
            assert(self.head_ok(epub@));
            reveal_strlit("META-INF/container.xml");
            reveal_strlit("OEBPS/content.opf");
            reveal_strlit("OEBPS/toc.ncx");
            reveal_strlit("OEBPS/Text/cover.xhtml");
            lemma_not_mimetype("META-INF/container.xml"@);
            lemma_not_mimetype("OEBPS/content.opf"@);
            lemma_not_mimetype("OEBPS/toc.ncx"@);
            lemma_not_mimetype("OEBPS/Text/cover.xhtml"@);
            assert(Self::tail_clean(epub@));
        }
        let html: Vec<String> = match &self.chapters {
            Body::Html(h) => {
                let r = copy_strings(h);
                proof {
                    assert(r.deep_view().len() == h.deep_view().len());
                    assert(r@.len() == nch);
                    assert forall|k: int|
                        0 <= k < nch implies #[trigger] r.deep_view()[k] == spec_doc_html(
                        &self.chapters,
                        k,
                        exts,
                        alts,
                    ) by {
                        assert(r.deep_view()[k] == h.deep_view()[k]);
                    }
                }
                r
            },
            Body::Blocks(bl) => {
                let r = self.to_html(bl);
                proof {
                    assert(r@.len() == nch);
                    assert forall|k: int|
                        0 <= k < nch implies #[trigger] r.deep_view()[k] == spec_doc_html(
                        &self.chapters,
                        k,
                        exts,
                        alts,
                    ) by {
                        assert(r.deep_view()[k] == spec_chapter_html(bl.deep_view()[k], exts, alts));
                    }
                }
                r
            },
        };
        let n = self.chapter_titles.len();
        let mut i: usize = 0;
        while i < n
            invariant
                i <= n,
                n == nch,
                nch == self.chapter_titles.deep_view().len() as int,
                titles == self.chapter_titles.deep_view(),
                exts == self.image_exts.deep_view(),
                alts == self.image_alts.deep_view(),
                html@.len() == nch,
                forall|k: int|
                    0 <= k < nch ==> #[trigger] html.deep_view()[k] == spec_doc_html(
                        &self.chapters,
                        k,
                        exts,
                        alts,
                    ),
                epub@.len() == 5 + i,
                self.head_ok(epub@),
                forall|k: int| 0 <= k < i ==> #[trigger] self.chapter_entry_ok(epub@, k),
                Self::tail_clean(epub@),
            decreases n - i,
        {
            let mut path = String::from_str("OEBPS/Text/");
            let nf = self.num_fill(i + 1);
            path.append(nf.as_str());
            path.append(".xhtml");
            proof {
                assert(self.chapter_titles.deep_view()[i as int] == self.chapter_titles@[i as int]@);
                assert(html.deep_view()[i as int] == html@[i as int]@);
            }
            let doc = self.build_xhtml(self.chapter_titles[i].as_str(), html[i].as_str());
            proof {
                assert(doc@ == spec_xhtml(
                    titles[i as int],
                    spec_doc_html(&self.chapters, i as int, exts, alts),
                ));
            }
            let ghost pre = epub@;
            epub.push(EpubEntry { path, bytes: doc.as_str().as_bytes_vec(), stored: false });
            proof {
                assert(epub@ =~= pre.push(epub@.last()));
                assert(epub@.last().path@ =~= "OEBPS/Text/"@ + spec_num_fill((i + 1) as nat)
                    + ".xhtml"@);
                reveal_strlit("OEBPS/Text/");
                lemma_not_mimetype(epub@.last().path@);
                assert forall|k: int| 0 <= k < i implies #[trigger] self.chapter_entry_ok(
                    epub@,
                    k,
                ) by {
                    assert(self.chapter_entry_ok(pre, k));
                    assert(epub@[5 + k] == pre[5 + k]);
                }
                assert(self.chapter_entry_ok(epub@, i as int));
            }
            i += 1;
        }
        let ghost pre_nav = epub@;
        epub.push(
            EpubEntry {
                path: String::from_str("OEBPS/Text/nav.xhtml"),
                bytes: self.build_nav_xhtml().as_str().as_bytes_vec(),
                stored: false,
            },
        );
        proof {
            assert(epub@ =~= pre_nav.push(epub@.last()));
            reveal_strlit("OEBPS/Text/nav.xhtml");
            lemma_not_mimetype("OEBPS/Text/nav.xhtml"@);
            assert forall|k: int| 0 <= k < nch implies #[trigger] self.chapter_entry_ok(
                epub@,
                k,
            ) by {
                assert(self.chapter_entry_ok(pre_nav, k));
                assert(epub@[5 + k] == pre_nav[5 + k]);
            }
            assert(Self::tail_clean(epub@));
        }
        let m = self.image_exts.len();
        let mut j: usize = 0;
        while j < m
            invariant
                j <= m,
                m == ni,
                n == nch,
                nch == self.chapter_titles.deep_view().len() as int,
                ni == self.image_exts.deep_view().len() as int,
                self.images@.len() == ni,
                titles == self.chapter_titles.deep_view(),
                exts == self.image_exts.deep_view(),
                alts == self.image_alts.deep_view(),
                epub@.len() == 6 + nch + j,
                self.head_ok(epub@),
                forall|k: int| 0 <= k < nch ==> #[trigger] self.chapter_entry_ok(epub@, k),
                entry_is(
                    epub@[5 + nch],
                    "OEBPS/Text/nav.xhtml"@,
                    vstd::utf8::encode_utf8(spec_nav_xhtml(titles, self.add_catalog)),
                    false,
                ),
                forall|k: int| 0 <= k < j ==> #[trigger] self.image_entry_ok(epub@, 6 + nch, k),
                Self::tail_clean(epub@),
            decreases m - j,
        {
            let mut path = String::from_str("OEBPS/Images/");
            let nf = self.num_fill(j);
            path.append(nf.as_str());
            path.append(".");
            path.append(self.image_exts[j].as_str());
            let data = copy_bytes(&self.images[j]);
            proof {
                assert(self.images.deep_view()[j as int] == self.images@[j as int]@);
                assert(self.image_exts.deep_view()[j as int] == self.image_exts@[j as int]@);
            }
            let ghost pre = epub@;
            epub.push(EpubEntry { path, bytes: data, stored: false });
            proof {
                assert(epub@ =~= pre.push(epub@.last()));
                assert(epub@.last().path@ =~= "OEBPS/Images/"@ + spec_num_fill(j as nat) + "."@
                    + exts[j as int]);
                reveal_strlit("OEBPS/Images/");
                lemma_not_mimetype(epub@.last().path@);
                assert forall|k: int| 0 <= k < nch implies #[trigger] self.chapter_entry_ok(
                    epub@,
                    k,
                ) by {
                    assert(self.chapter_entry_ok(pre, k));
                    assert(epub@[5 + k] == pre[5 + k]);
                }
                assert forall|k: int| 0 <= k < j implies #[trigger] self.image_entry_ok(
                    epub@,
                    6 + nch,
                    k,
                ) by {
                    assert(self.image_entry_ok(pre, 6 + nch, k));
                    assert(epub@[6 + nch + k] == pre[6 + nch + k]);
                }
                assert(self.image_entry_ok(epub@, 6 + nch, j as int));
            }
            j += 1;
        }
        if self.add_catalog {
            let ghost pre_css = epub@;
            add_file(&mut epub, self.build_sgc_nav_css());
            proof {
                assert(epub@ =~= pre_css.push(epub@.last()));
                reveal_strlit("OEBPS/Styles/sgc-nav.css");
                lemma_not_mimetype("OEBPS/Styles/sgc-nav.css"@);
                assert forall|k: int| 0 <= k < nch implies #[trigger] self.chapter_entry_ok(
                    epub@,
                    k,
                ) by {
                    assert(self.chapter_entry_ok(pre_css, k));
                    assert(epub@[5 + k] == pre_css[5 + k]);
                }
                assert forall|k: int| 0 <= k < ni implies #[trigger] self.image_entry_ok(
                    epub@,
                    6 + nch,
                    k,
                ) by {
                    assert(self.image_entry_ok(pre_css, 6 + nch, k));
                    assert(epub@[6 + nch + k] == pre_css[6 + nch + k]);
                }
                assert(Self::tail_clean(epub@));
            }
        }
        epub
    }
}


/// An in-memory zip archive being written. The writer itself comes from
/// the zip crate and is opaque here; the contracts speak of `zip_pending`.
#[verifier::external_body]
pub struct ZipSink {
    inner: zip::ZipWriter<std::io::Cursor<Vec<u8>>>,
}

/// The members written to the archive so far: name, bytes, and whether the
/// member is stored uncompressed.
pub uninterp spec fn zip_pending(w: ZipSink) -> Seq<(Seq<char>, Seq<u8>, bool)>;

/// The bytes the zip encoder emits for the given members, written in
/// order with fixed timestamps.
pub uninterp spec fn zip_encoding(entries: Seq<(Seq<char>, Seq<u8>, bool)>) -> Seq<u8>;

/// Whether the zip layer accepts appending this member to an archive
/// already holding `pending`: what `start_file` and `write_all` return
/// for these arguments over the in-memory writer, whose state is itself a
/// function of the members written so far.
pub uninterp spec fn zip_add_ok(
    pending: Seq<(Seq<char>, Seq<u8>, bool)>,
    name: Seq<char>,
    data: Seq<u8>,
    stored: bool,
) -> bool;

/// Whether the zip layer can close an archive holding `pending`.
pub uninterp spec fn zip_finish_ok(pending: Seq<(Seq<char>, Seq<u8>, bool)>) -> bool;

/// The zip layer accepts every member of `entries` in turn.
pub open spec fn zip_adds_ok(entries: Seq<(Seq<char>, Seq<u8>, bool)>) -> bool
    decreases entries.len(),
{
    if entries.len() == 0 {
        true
    } else {
        zip_adds_ok(entries.drop_last()) && zip_add_ok(
            entries.drop_last(),
            entries.last().0,
            entries.last().1,
            entries.last().2,
        )
    }
}

/// The zip layer accepts the whole archive: every append, and the close.
pub open spec fn zip_ok(entries: Seq<(Seq<char>, Seq<u8>, bool)>) -> bool {
    zip_adds_ok(entries) && zip_finish_ok(entries)
}

proof fn lemma_adds_ok_prefix(entries: Seq<(Seq<char>, Seq<u8>, bool)>, i: int)
    requires
        zip_adds_ok(entries),
        0 <= i < entries.len(),
    ensures
        zip_add_ok(entries.take(i), entries[i].0, entries[i].1, entries[i].2),
    decreases entries.len(),
{
    let t = entries.drop_last();
    if i == entries.len() - 1 {
        assert(entries.take(i) =~= t);
    } else {
        lemma_adds_ok_prefix(t, i);
        assert(t.take(i) =~= entries.take(i));
        assert(t[i] == entries[i]);
    }
}

/// Relies on zip::ZipWriter::new over an in-memory cursor: a writer with
/// no members yet.
#[verifier::external_body]
fn zw_new() -> (w: ZipSink)
    ensures
        zip_pending(w) == Seq::<(Seq<char>, Seq<u8>, bool)>::empty(),
{
    ZipSink { inner: zip::ZipWriter::new(std::io::Cursor::new(Vec::new())) }
}

/// Relies on zip::ZipWriter::start_file and Write::write_all: appends one
/// member with the given name and bytes, stored uncompressed when
/// `stored` and deflated otherwise, stamped with the fixed 1980 default
/// time. Over the in-memory cursor, with fixed options, whether the pair
/// of calls succeeds depends on the members written so far and these
/// arguments alone; `false` reports that refusal.
#[verifier::external_body]
fn zw_add(w: &mut ZipSink, name: &str, data: &Vec<u8>, stored: bool) -> (ok: bool)
    ensures
        ok == zip_add_ok(zip_pending(*old(w)), name@, data@, stored),
        ok ==> zip_pending(*final(w)) == zip_pending(*old(w)).push((name@, data@, stored)),
{
    let method = if stored {
        zip::CompressionMethod::Stored
    } else {
        zip::CompressionMethod::Deflated
    };
    let options = zip::write::SimpleFileOptions::default().compression_method(
        method,
    ).last_modified_time(zip::DateTime::default());
    if w.inner.start_file(name, options).is_err() {
        return false;
    }
    w.inner.write_all(data.as_slice()).is_ok()
}

/// Relies on zip::ZipWriter::finish and Cursor::into_inner: closes the
/// archive and hands back its bytes, the encoding of the members written;
/// whether the close succeeds depends on those members alone.
#[verifier::external_body]
fn zw_finish(w: ZipSink) -> (r: Option<Vec<u8>>)
    ensures
        (r is Some) == zip_finish_ok(zip_pending(w)),
        r matches Some(v) ==> v@ == zip_encoding(zip_pending(w)),
{
    match w.inner.finish() {
        Ok(c) => Some(c.into_inner()),
        Err(_) => None,
    }
}

/// The members as the zip layer sees them: path, bytes, stored flag.
pub open spec fn entries_spec(s: Seq<EpubEntry>) -> Seq<(Seq<char>, Seq<u8>, bool)> {
    Seq::new(s.len(), |i: int| (s[i].path@, s[i].bytes@, s[i].stored))
}

/// Serializes the archive members to zip bytes, in order, honouring each
/// member's compression flag. The bytes come back exactly when the zip
/// layer accepts the member list, and are its encoding of that list.
pub fn serialize_epub(entries: &Vec<EpubEntry>) -> (r: Option<Vec<u8>>)
    ensures
        (r is Some) == zip_ok(entries_spec(entries@)),
        r matches Some(v) ==> v@ == zip_encoding(entries_spec(entries@)),
{
    let ghost full = entries_spec(entries@);
    let mut w = zw_new();
    let n = entries.len();
    let mut i: usize = 0;
    proof {
        assert(zip_pending(w) =~= entries_spec(entries@.take(0)));
        assert(zip_adds_ok(entries_spec(entries@.take(0))));
    }
    while i < n
        invariant
            i <= n,
            n == entries@.len(),
            full == entries_spec(entries@),
            zip_pending(w) =~= entries_spec(entries@.take(i as int)),
            zip_adds_ok(entries_spec(entries@.take(i as int))),
        decreases n - i,
    {
        let e = &entries[i];
        let ghost pre = entries_spec(entries@.take(i as int));
        let ok = zw_add(&mut w, e.path.as_str(), &e.bytes, e.stored);
        proof {
            assert(entries_spec(entries@.take(i + 1)).drop_last() =~= pre);
            assert(entries_spec(entries@.take(i + 1)).last() == (e.path@, e.bytes@, e.stored));
        }
        if !ok {
            proof {
                assert(!zip_ok(full)) by {
                    if zip_adds_ok(full) {
                        lemma_adds_ok_prefix(full, i as int);
                        assert(full.take(i as int) =~= pre);
                        assert(full[i as int] == (e.path@, e.bytes@, e.stored));
                    }
                }
            }
            return None;
        }
        proof {
            assert(zip_pending(w) =~= entries_spec(entries@.take(i + 1)));
            assert(zip_adds_ok(entries_spec(entries@.take(i + 1))));
        }
        i += 1;
    }
    proof {
        assert(entries_spec(entries@.take(n as int)) =~= full);
    }
    zw_finish(w)
}


/// Law: the package blocks stay in lockstep with the content — the
/// manifest holds one entry per chapter document and one per image beside
/// its three fixed entries (four with the stylesheet), and the spine holds
/// one entry per chapter after the cover.
pub proof fn lemma_archive_shape(n_chapters: nat, exts: Seq<Seq<char>>, add_catalog: bool)
    ensures
        spec_manifest_parts(n_chapters, exts, add_catalog).len() == 3 + n_chapters + exts.len()
            + (if add_catalog {
            1int
        } else {
            0
        }),
        (seq!["<itemref idref=\"cover.xhtml\"/>"@] + Seq::new(
            n_chapters,
            |i: int| spec_spine_item(i as nat),
        )).len() == n_chapters + 1,
{
}

} // verus!
