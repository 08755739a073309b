//! HTML content extraction. The HTML5 parsing itself is the scraper
//! crate's work, reached through trusted collectors that hand back plain
//! element records; everything that decides what those records mean — which
//! element is the title, how a chapter's children become content blocks,
//! how the volume list is assembled — is verified here.

use vstd::prelude::*;
use vstd::string::*;

use crate::model::{BookInfo, Content, ContentV, VolumeInfo};
use crate::text::{contains_str, contains_sub, str_eq, trim_spec, trim_str};

verus! {

/// One element of the parsed document, in document order: its tag, class
/// attribute, concatenated text, and `src` attribute.
#[derive(Debug)]
pub struct ElemRaw {
    pub tag: String,
    pub class: Option<String>,
    pub text: String,
    pub src: Option<String>,
}

/// Mathematical value of an `ElemRaw`.
pub struct ElemRawV {
    pub tag: Seq<char>,
    pub class: Option<Seq<char>>,
    pub text: Seq<char>,
    pub src: Option<Seq<char>>,
}

impl View for ElemRaw {
    type V = ElemRawV;

    open spec fn view(&self) -> ElemRawV {
        ElemRawV {
            tag: self.tag@,
            class: self.class.deep_view(),
            text: self.text@,
            src: self.src.deep_view(),
        }
    }
}

impl DeepView for ElemRaw {
    type V = ElemRawV;

    open spec fn deep_view(&self) -> ElemRawV {
        self.view()
    }
}

/// One image element inside a volume-list entry: its `data-src` and `src`
/// attributes.
#[derive(Debug)]
pub struct ImgRef {
    pub data_src: Option<String>,
    pub src: Option<String>,
}

/// Mathematical value of an `ImgRef`.
pub struct ImgRefV {
    pub data_src: Option<Seq<char>>,
    pub src: Option<Seq<char>>,
}

impl View for ImgRef {
    type V = ImgRefV;

    open spec fn view(&self) -> ImgRefV {
        ImgRefV { data_src: self.data_src.deep_view(), src: self.src.deep_view() }
    }
}

impl DeepView for ImgRef {
    type V = ImgRefV;

    open spec fn deep_view(&self) -> ImgRefV {
        self.view()
    }
}

/// One classed `li` of a volume block: its class, text, first link target,
/// and images.
#[derive(Debug)]
pub struct VolItemRaw {
    pub class: String,
    pub text: String,
    pub href: Option<String>,
    pub imgs: Vec<ImgRef>,
}

/// Mathematical value of a `VolItemRaw`.
pub struct VolItemRawV {
    pub class: Seq<char>,
    pub text: Seq<char>,
    pub href: Option<Seq<char>>,
    pub imgs: Seq<ImgRefV>,
}

impl View for VolItemRaw {
    type V = VolItemRawV;

    open spec fn view(&self) -> VolItemRawV {
        VolItemRawV {
            class: self.class@,
            text: self.text@,
            href: self.href.deep_view(),
            imgs: self.imgs.deep_view(),
        }
    }
}

impl DeepView for VolItemRaw {
    type V = VolItemRawV;

    open spec fn deep_view(&self) -> VolItemRawV {
        self.view()
    }
}

/// One `ul.volume-chapters` block: its classed `li` entries in order.
#[derive(Debug)]
pub struct VolGroupRaw {
    pub items: Vec<VolItemRaw>,
}

/// Mathematical value of a `VolGroupRaw`.
pub struct VolGroupRawV {
    pub items: Seq<VolItemRawV>,
}

impl View for VolGroupRaw {
    type V = VolGroupRawV;

    open spec fn view(&self) -> VolGroupRawV {
        VolGroupRawV { items: self.items.deep_view() }
    }
}

impl DeepView for VolGroupRaw {
    type V = VolGroupRawV;

    open spec fn deep_view(&self) -> VolGroupRawV {
        self.view()
    }
}

/// One direct child of the chapter content container: its tag, whether it
/// carries a class attribute, its image attributes, and its text.
#[derive(Debug)]
pub struct ChildRaw {
    pub tag: String,
    pub has_class: bool,
    pub data_src: Option<String>,
    pub src: Option<String>,
    pub text: String,
}

/// Mathematical value of a `ChildRaw`.
pub struct ChildRawV {
    pub tag: Seq<char>,
    pub has_class: bool,
    pub data_src: Option<Seq<char>>,
    pub src: Option<Seq<char>>,
    pub text: Seq<char>,
}

impl View for ChildRaw {
    type V = ChildRawV;

    open spec fn view(&self) -> ChildRawV {
        ChildRawV {
            tag: self.tag@,
            has_class: self.has_class,
            data_src: self.data_src.deep_view(),
            src: self.src.deep_view(),
            text: self.text@,
        }
    }
}

impl DeepView for ChildRaw {
    type V = ChildRawV;

    open spec fn deep_view(&self) -> ChildRawV {
        self.view()
    }
}

/// The elements of the parsed document in document order, with tag, class,
/// text and `src`.
pub uninterp spec fn doc_elems_of(html: Seq<char>) -> Seq<ElemRawV>;

/// The `ul.volume-chapters` blocks of the parsed document, each with its
/// classed `li` entries.
pub uninterp spec fn vol_groups_of(html: Seq<char>) -> Seq<VolGroupRawV>;

/// The direct element children of the chapter content container.
pub uninterp spec fn content_children_of(html: Seq<char>) -> Seq<ChildRawV>;

/// The direct text of each status line under the book-status link.
pub uninterp spec fn last_update_texts_of(html: Seq<char>) -> Seq<Seq<char>>;

/// Relies on scraper's Html::parse_document and the universal selector:
/// every element of the document in document order, with its tag name,
/// class and `src` attributes, and concatenated descendant text.
#[verifier::external_body]
fn doc_elements(html: &str) -> (r: Vec<ElemRaw>)
    ensures
        r.deep_view() == doc_elems_of(html@),
{
    let doc = scraper::Html::parse_document(html);
    let sel = scraper::Selector::parse("*").unwrap();
    doc.select(&sel).map(
        |el| ElemRaw {
            tag: el.value().name().to_string(),
            class: el.value().attr("class").map(str::to_string),
            text: el.text().collect(),
            src: el.value().attr("src").map(str::to_string),
        },
    ).collect()
}

#[verifier::external_type_specification]
#[verifier::external_body]
pub struct ExElementRef<'a>(scraper::ElementRef<'a>);

/// Relies on scraper's element accessors: one classed `li` read into a
/// plain record — its class and text, its first link's target, and its
/// images' `data-src` and `src` attributes, in order.
#[verifier::external_body]
fn li_item(l: scraper::ElementRef<'_>) -> VolItemRaw {
    let a = scraper::Selector::parse("a").unwrap();
    let img = scraper::Selector::parse("img").unwrap();
    VolItemRaw {
        class: l.value().attr("class").unwrap_or("").to_string(),
        text: l.text().collect(),
        href: l.select(&a).next().and_then(|e| e.value().attr("href")).map(str::to_string),
        imgs: l.select(&img).map(|im| ImgRef { data_src: im.value().attr("data-src").map(str::to_string), src: im.value().attr("src").map(str::to_string) }).collect(),
    }
}

/// Relies on scraper's Html::parse_document and selectors: the
/// `ul.volume-chapters` blocks in document order; per block, its classed
/// `li` entries as plain records, through `li_item`.
#[verifier::external_body]
fn volume_groups(html: &str) -> (r: Vec<VolGroupRaw>)
    ensures
        r.deep_view() == vol_groups_of(html@),
{
    let doc = scraper::Html::parse_document(html);
    let ul = scraper::Selector::parse("ul").unwrap();
    let li = scraper::Selector::parse("li").unwrap();
    doc.select(&ul).filter(|u| u.value().attr("class") == Some("volume-chapters")).map(
        |u| VolGroupRaw { items: u.select(&li).filter(|l| l.value().attr("class").is_some()).map(li_item).collect() },
    ).collect()
}

/// Relies on scraper's Html::parse_document and child_elements: the direct
/// element children of the `acontent` container, each with its tag,
/// class-attribute presence, image attributes and text.
#[verifier::external_body]
fn content_children(html: &str) -> (r: Vec<ChildRaw>)
    ensures
        r.deep_view() == content_children_of(html@),
{
    let doc = scraper::Html::parse_document(html);
    let div = scraper::Selector::parse("div").unwrap();
    doc.select(&div).filter(|el| el.value().attr("id") == Some("acontent")).flat_map(
        |el| el.child_elements(),
    ).map(
        |c| ChildRaw {
            tag: c.value().name().to_string(),
            has_class: c.value().attr("class").is_some(),
            data_src: c.value().attr("data-src").map(str::to_string),
            src: c.value().attr("src").map(str::to_string),
            text: c.text().collect(),
        },
    ).collect()
}

/// Relies on scraper's Html::parse_document and selectors: the direct
/// text (child text nodes only) of each `div.book-meta-l` under an
/// `a.book-meta.book-status`, in document order.
#[verifier::external_body]
fn last_update_texts(html: &str) -> (r: Vec<String>)
    ensures
        r.deep_view() == last_update_texts_of(html@),
{
    let doc = scraper::Html::parse_document(html);
    let a = scraper::Selector::parse("a.book-meta.book-status").unwrap();
    let d = scraper::Selector::parse("div.book-meta-l").unwrap();
    doc.select(&a).flat_map(|el| el.select(&d)).map(|el| {
        let mut s = String::new();
        for c in el.children() {
            if let Some(t) = c.value().as_text() {
                s.push_str(t);
            }
        }
        s
    }).collect()
}

/// The element carrying the book title.
pub open spec fn is_title_elem(e: ElemRawV) -> bool {
    e.tag == "h1"@ && e.class == Option::Some("book-title"@)
}

/// The element carrying the cover image (it must have a `src`).
pub open spec fn is_cover_elem(e: ElemRawV) -> bool {
    e.tag == "img"@ && e.class == Option::Some("book-cover"@) && e.src is Some
}

/// An element carrying one genre tag.
pub open spec fn is_tag_elem(e: ElemRawV) -> bool {
    e.tag == "em"@ && e.class == Option::Some("tag-small red"@)
}

/// The element carrying the description.
pub open spec fn is_desc_elem(e: ElemRawV) -> bool {
    e.tag == "content"@
}

/// The texts of the genre-tag elements, in document order.
pub open spec fn tag_texts(elems: Seq<ElemRawV>) -> Seq<Seq<char>>
    decreases elems.len(),
{
    if elems.len() == 0 {
        Seq::empty()
    } else {
        let pre = tag_texts(elems.drop_last());
        if is_tag_elem(elems.last()) {
            pre.push(elems.last().text)
        } else {
            pre
        }
    }
}

/// The element has the given tag and class attribute.
pub open spec fn elem_sel(e: ElemRawV, tag: Seq<char>, class: Seq<char>) -> bool {
    e.tag == tag && e.class == Option::Some(class)
}

/// `r` is the text of the first element with the given tag and class, or
/// absent when none matches.
pub open spec fn first_text_sel(
    r: Option<Seq<char>>,
    elems: Seq<ElemRawV>,
    tag: Seq<char>,
    class: Seq<char>,
) -> bool {
    match r {
        Option::Some(t) => exists|i: int|
            #![auto]
            0 <= i < elems.len() && elem_sel(elems[i], tag, class) && t == elems[i].text && (
            forall|j: int| 0 <= j < i ==> !elem_sel(elems[j], tag, class)),
        Option::None => forall|j: int|
            0 <= j < elems.len() ==> !elem_sel(#[trigger] elems[j], tag, class),
    }
}

/// `r` is the text of the last element with the given tag and class, or
/// absent when none matches.
pub open spec fn last_text_sel(
    r: Option<Seq<char>>,
    elems: Seq<ElemRawV>,
    tag: Seq<char>,
    class: Seq<char>,
) -> bool {
    match r {
        Option::Some(t) => exists|i: int|
            #![auto]
            0 <= i < elems.len() && elem_sel(elems[i], tag, class) && t == elems[i].text && (
            forall|j: int| i < j < elems.len() ==> !elem_sel(elems[j], tag, class)),
        Option::None => forall|j: int|
            0 <= j < elems.len() ==> !elem_sel(#[trigger] elems[j], tag, class),
    }
}

/// `r` is the `src` of the first cover element, or absent.
pub open spec fn first_cover_of(r: Option<Seq<char>>, elems: Seq<ElemRawV>) -> bool {
    match r {
        Option::Some(t) => exists|i: int|
            #![auto]
            0 <= i < elems.len() && is_cover_elem(elems[i]) && elems[i].src == Option::Some(t)
                && (forall|j: int| 0 <= j < i ==> !is_cover_elem(elems[j])),
        Option::None => forall|j: int| 0 <= j < elems.len() ==> !is_cover_elem(#[trigger] elems[j]),
    }
}

/// `r` is the text of the first description element, or absent.
pub open spec fn first_desc_of(r: Option<Seq<char>>, elems: Seq<ElemRawV>) -> bool {
    match r {
        Option::Some(t) => exists|i: int|
            #![auto]
            0 <= i < elems.len() && is_desc_elem(elems[i]) && t == elems[i].text && (forall|
                j: int,
            | 0 <= j < i ==> !is_desc_elem(elems[j])),
        Option::None => forall|j: int| 0 <= j < elems.len() ==> !is_desc_elem(#[trigger] elems[j]),
    }
}

fn first_text_matching(elems: &Vec<ElemRaw>, tag: &str, class: &str) -> (r: Option<String>)
    ensures
        first_text_sel(r.deep_view(), elems.deep_view(), tag@, class@),
{
    let n = elems.len();
    let mut i: usize = 0;
    while i < n
        invariant
            i <= n,
            n == elems@.len(),
            forall|j: int| 0 <= j < i ==> !elem_sel(#[trigger] elems.deep_view()[j], tag@, class@),
        decreases n - i,
    {
        proof {
            assert(elems.deep_view()[i as int] == elems@[i as int]@);
        }
        let e = &elems[i];
        let matches_sel = str_eq(e.tag.as_str(), tag) && match &e.class {
            Option::Some(c) => str_eq(c.as_str(), class),
            Option::None => false,
        };
        if matches_sel {
            return Some(e.text.clone());
        }
        i += 1;
    }
    None
}

fn last_text_matching(elems: &Vec<ElemRaw>, tag: &str, class: &str) -> (r: Option<String>)
    ensures
        last_text_sel(r.deep_view(), elems.deep_view(), tag@, class@),
{
    let n = elems.len();
    let mut i: usize = n;
    while i > 0
        invariant
            i <= n,
            n == elems@.len(),
            forall|j: int|
                i <= j < n ==> !elem_sel(#[trigger] elems.deep_view()[j], tag@, class@),
        decreases i,
    {
        i -= 1;
        proof {
            assert(elems.deep_view()[i as int] == elems@[i as int]@);
        }
        let e = &elems[i];
        let matches_sel = str_eq(e.tag.as_str(), tag) && match &e.class {
            Option::Some(c) => str_eq(c.as_str(), class),
            Option::None => false,
        };
        if matches_sel {
            return Some(e.text.clone());
        }
    }
    None
}

fn first_cover_src(elems: &Vec<ElemRaw>) -> (r: Option<String>)
    ensures
        first_cover_of(r.deep_view(), elems.deep_view()),
{
    let n = elems.len();
    let mut i: usize = 0;
    while i < n
        invariant
            i <= n,
            n == elems@.len(),
            forall|j: int| 0 <= j < i ==> !is_cover_elem(#[trigger] elems.deep_view()[j]),
        decreases n - i,
    {
        proof {
            assert(elems.deep_view()[i as int] == elems@[i as int]@);
        }
        let e = &elems[i];
        let class_ok = str_eq(e.tag.as_str(), "img") && match &e.class {
            Option::Some(c) => str_eq(c.as_str(), "book-cover"),
            Option::None => false,
        };
        if class_ok {
            if let Option::Some(src) = &e.src {
                return Some(src.clone());
            }
        }
        i += 1;
    }
    None
}

fn first_desc_text(elems: &Vec<ElemRaw>) -> (r: Option<String>)
    ensures
        first_desc_of(r.deep_view(), elems.deep_view()),
{
    let n = elems.len();
    let mut i: usize = 0;
    while i < n
        invariant
            i <= n,
            n == elems@.len(),
            forall|j: int| 0 <= j < i ==> !is_desc_elem(#[trigger] elems.deep_view()[j]),
        decreases n - i,
    {
        proof {
            assert(elems.deep_view()[i as int] == elems@[i as int]@);
        }
        let e = &elems[i];
        if str_eq(e.tag.as_str(), "content") {
            return Some(e.text.clone());
        }
        i += 1;
    }
    None
}

fn collect_tag_texts(elems: &Vec<ElemRaw>) -> (r: Vec<String>)
    ensures
        r.deep_view() == tag_texts(elems.deep_view()),
{
    let ghost ev = elems.deep_view();
    let mut out: Vec<String> = Vec::new();
    let n = elems.len();
    let mut i: usize = 0;
    while i < n
        invariant
            i <= n,
            n == elems@.len(),
            ev == elems.deep_view(),
            out.deep_view() == tag_texts(ev.take(i as int)),
        decreases n - i,
    {
        proof {
            assert(ev.take(i + 1).drop_last() =~= ev.take(i as int));
            assert(ev.take(i + 1).last() == ev[i as int]);
            assert(elems.deep_view()[i as int] == elems@[i as int]@);
        }
        let e = &elems[i];
        let matches_sel = str_eq(e.tag.as_str(), "em") && match &e.class {
            Option::Some(c) => str_eq(c.as_str(), "tag-small red"),
            Option::None => false,
        };
        if matches_sel {
            let ghost pre = out.deep_view();
            let t = e.text.clone();
            out.push(t);
            proof {
                assert(out.deep_view() =~= pre.push(out.deep_view().last()));
            }
        }
        i += 1;
    }
    proof {
        assert(ev.take(n as int) =~= ev);
    }
    out
}

/// Extracts the book metadata: the title from the first `h1.book-title`,
/// the author from the first `span.authorname`, the cover from the first
/// `img.book-cover` with a `src`, the publisher from the last
/// `em.tag-small orange`, the genre tags from every `em.tag-small red` in
/// order, and the description from the first `content` element. A missing
/// field is absent, never an error.
pub fn parse_metadata(html: &str) -> (r: BookInfo)
    ensures
        ({
            let elems = doc_elems_of(html@);
            &&& first_text_sel(r@.title, elems, "h1"@, "book-title"@)
            &&& first_text_sel(r@.author, elems, "span"@, "authorname"@)
            &&& first_cover_of(r@.cover, elems)
            &&& last_text_sel(r@.publisher, elems, "em"@, "tag-small orange"@)
            &&& r@.tags == tag_texts(elems)
            &&& first_desc_of(r@.description, elems)
        }),
{
    let elems = doc_elements(html);
    let title = first_text_matching(&elems, "h1", "book-title");
    let author = first_text_matching(&elems, "span", "authorname");
    let cover = first_cover_src(&elems);
    let publisher = last_text_matching(&elems, "em", "tag-small orange");
    let tags = collect_tag_texts(&elems);
    let description = first_desc_text(&elems);
    BookInfo { title, author, publisher, tags, description, cover }
}

/// Extracts a volume's description: the text of the first `content`
/// element, absent when the page has none.
pub fn parse_vol_desc(html: &str) -> (r: Option<String>)
    ensures
        first_desc_of(r.deep_view(), doc_elems_of(html@)),
{
    let elems = doc_elements(html);
    first_desc_text(&elems)
}

/// Extracts the last-update stamp: the first status line whose direct text
/// is non-blank after trimming, trimmed.
pub fn parse_last_update(novel_html: &str) -> (r: Option<String>)
    ensures
        ({
            let texts = last_update_texts_of(novel_html@);
            match r.deep_view() {
                Option::Some(t) => exists|i: int|
                    #![auto]
                    0 <= i < texts.len() && trim_spec(texts[i]).len() > 0 && t == trim_spec(
                        texts[i],
                    ) && (forall|j: int| 0 <= j < i ==> trim_spec(texts[j]).len() == 0),
                Option::None => forall|j: int|
                    0 <= j < texts.len() ==> trim_spec(#[trigger] texts[j]).len() == 0,
            }
        }),
{
    let texts = last_update_texts(novel_html);
    let n = texts.len();
    let mut i: usize = 0;
    while i < n
        invariant
            i <= n,
            n == texts@.len(),
            texts.deep_view() == last_update_texts_of(novel_html@),
            forall|j: int|
                0 <= j < i ==> trim_spec(#[trigger] texts.deep_view()[j]).len() == 0,
        decreases n - i,
    {
        proof {
            assert(texts.deep_view()[i as int] == texts@[i as int]@);
        }
        let cleaned = trim_str(texts[i].as_str());
        if !cleaned.as_str().is_empty() {
            return Some(cleaned);
        }
        i += 1;
    }
    None
}


/// A volume entry under construction: what the classed `li` entries seen
/// so far have established.
pub struct VolAccV {
    pub title: Option<Seq<char>>,
    pub url_vol: Option<Seq<char>>,
    pub cover: Option<Seq<char>>,
    pub chapters: Seq<Seq<char>>,
    pub paths: Seq<Seq<char>>,
}

/// The cover choice after a run of images: each image's `data-src` is
/// preferred over its `src`; a later image overrides an earlier one.
pub open spec fn img_pick_fold(c0: Option<Seq<char>>, imgs: Seq<ImgRefV>) -> Option<Seq<char>>
    decreases imgs.len(),
{
    if imgs.len() == 0 {
        c0
    } else {
        let pre = img_pick_fold(c0, imgs.drop_last());
        let im = imgs.last();
        if im.data_src is Some {
            im.data_src
        } else if im.src is Some {
            im.src
        } else {
            pre
        }
    }
}

/// How one classed `li` advances a volume entry: a chapter bar sets the
/// title, a volume-cover entry sets the volume URL and cover, a chapter
/// entry appends its title and link.
pub open spec fn vol_step(acc: VolAccV, item: VolItemRawV) -> VolAccV {
    if item.class == "chapter-bar chapter-li"@ {
        VolAccV {
            title: Option::Some(item.text),
            url_vol: acc.url_vol,
            cover: acc.cover,
            chapters: acc.chapters,
            paths: acc.paths,
        }
    } else if item.class == "volume-cover chapter-li"@ {
        VolAccV {
            title: acc.title,
            url_vol: if item.href is Some {
                item.href
            } else {
                acc.url_vol
            },
            cover: img_pick_fold(acc.cover, item.imgs),
            chapters: acc.chapters,
            paths: acc.paths,
        }
    } else if item.class == "chapter-li jsChapter"@ {
        VolAccV {
            title: acc.title,
            url_vol: acc.url_vol,
            cover: acc.cover,
            chapters: acc.chapters.push(item.text),
            paths: match item.href {
                Option::Some(h) => acc.paths.push(h),
                Option::None => acc.paths,
            },
        }
    } else {
        acc
    }
}

/// The volume entry a block's `li` entries build, in order.
pub open spec fn vol_fold(items: Seq<VolItemRawV>) -> VolAccV
    decreases items.len(),
{
    if items.len() == 0 {
        VolAccV {
            title: Option::None,
            url_vol: Option::None,
            cover: Option::None,
            chapters: Seq::empty(),
            paths: Seq::empty(),
        }
    } else {
        vol_step(vol_fold(items.drop_last()), items.last())
    }
}

/// The 1-based volume number for position `i`, capped at the type's range.
pub open spec fn vol_no_of(i: int) -> u32 {
    if i + 1 <= u32::MAX {
        (i + 1) as u32
    } else {
        u32::MAX
    }
}

/// Extracts the volume list: one entry per `ul.volume-chapters` block in
/// document order, each built from its classed `li` entries, with 1-based
/// volume numbers.
pub fn parse_volume_list(html: &str) -> (r: Vec<VolumeInfo>)
    ensures
        r@.len() == vol_groups_of(html@).len(),
        forall|i: int|
            0 <= i < vol_groups_of(html@).len() ==> {
                let acc = vol_fold(vol_groups_of(html@)[i].items);
                let v = #[trigger] r.deep_view()[i];
                &&& v.title == acc.title
                &&& v.url_vol == acc.url_vol
                &&& v.cover == acc.cover
                &&& v.chapter_list == acc.chapters
                &&& v.chapter_path_list == acc.paths
                &&& v.volume_no == vol_no_of(i)
            },
{
    let groups = volume_groups(html);
    let mut out: Vec<VolumeInfo> = Vec::new();
    let n = groups.len();
    let mut i: usize = 0;
    while i < n
        invariant
            i <= n,
            n == groups@.len(),
            groups.deep_view() == vol_groups_of(html@),
            out@.len() == i,
            forall|i2: int|
                0 <= i2 < i ==> {
                    let acc = vol_fold(vol_groups_of(html@)[i2].items);
                    let v = #[trigger] out.deep_view()[i2];
                    &&& v.title == acc.title
                    &&& v.url_vol == acc.url_vol
                    &&& v.cover == acc.cover
                    &&& v.chapter_list == acc.chapters
                    &&& v.chapter_path_list == acc.paths
                    &&& v.volume_no == vol_no_of(i2)
                },
        decreases n - i,
    {
        proof {
            assert(groups.deep_view()[i as int] == groups@[i as int]@);
        }
        let group = &groups[i];
        let ghost itv = group.items.deep_view();
        let mut title: Option<String> = Option::None;
        let mut url_vol: Option<String> = Option::None;
        let mut cover: Option<String> = Option::None;
        let mut chapter_list: Vec<String> = Vec::new();
        let mut chapter_path_list: Vec<String> = Vec::new();
        proof {
            assert(itv.take(0) =~= Seq::<VolItemRawV>::empty());
            assert(chapter_list.deep_view() =~= Seq::<Seq<char>>::empty());
            assert(chapter_path_list.deep_view() =~= Seq::<Seq<char>>::empty());
        }
        let m = group.items.len();
        let mut j: usize = 0;
        while j < m
            invariant
                j <= m,
                m == group.items@.len(),
                itv == group.items.deep_view(),
                vol_fold(itv.take(j as int)) == (VolAccV {
                    title: title.deep_view(),
                    url_vol: url_vol.deep_view(),
                    cover: cover.deep_view(),
                    chapters: chapter_list.deep_view(),
                    paths: chapter_path_list.deep_view(),
                }),
            decreases m - j,
        {
            proof {
                assert(itv.take(j + 1).drop_last() =~= itv.take(j as int));
                assert(itv.take(j + 1).last() == itv[j as int]);
                assert(group.items.deep_view()[j as int] == group.items@[j as int]@);
            }
            let item = &group.items[j];
            if str_eq(item.class.as_str(), "chapter-bar chapter-li") {
                title = Option::Some(item.text.clone());
            } else if str_eq(item.class.as_str(), "volume-cover chapter-li") {
                if let Option::Some(h) = &item.href {
                    url_vol = Option::Some(h.clone());
                }
                let ghost cover0 = cover.deep_view();
                let ghost imv = item.imgs.deep_view();
                let mi = item.imgs.len();
                let mut k: usize = 0;
                while k < mi
                    invariant
                        k <= mi,
                        mi == item.imgs@.len(),
                        imv == item.imgs.deep_view(),
                        cover.deep_view() == img_pick_fold(cover0, imv.take(k as int)),
                    decreases mi - k,
                {
                    proof {
                        assert(imv.take(k + 1).drop_last() =~= imv.take(k as int));
                        assert(imv.take(k + 1).last() == imv[k as int]);
                        assert(item.imgs.deep_view()[k as int] == item.imgs@[k as int]@);
                    }
                    let im = &item.imgs[k];
                    if let Option::Some(ds) = &im.data_src {
                        cover = Option::Some(ds.clone());
                    } else if let Option::Some(sr) = &im.src {
                        cover = Option::Some(sr.clone());
                    }
                    k += 1;
                }
                proof {
                    assert(imv.take(mi as int) =~= imv);
                }
            } else if str_eq(item.class.as_str(), "chapter-li jsChapter") {
                let ghost pc = chapter_list.deep_view();
                let t = item.text.clone();
                chapter_list.push(t);
                proof {
                    assert(chapter_list.deep_view() =~= pc.push(chapter_list.deep_view().last()));
                }
                if let Option::Some(h) = &item.href {
                    let ghost pp = chapter_path_list.deep_view();
                    let hc = h.clone();
                    chapter_path_list.push(hc);
                    proof {
                        assert(chapter_path_list.deep_view() =~= pp.push(
                            chapter_path_list.deep_view().last(),
                        ));
                    }
                }
            }
            j += 1;
        }
        proof {
            assert(itv.take(m as int) =~= itv);
        }
        let volume_no: u32 = if i < u32::MAX as usize {
            (i + 1) as u32
        } else {
            u32::MAX
        };
        let info = VolumeInfo { title, chapter_list, chapter_path_list, url_vol, volume_no, cover };
        let ghost preo = out.deep_view();
        out.push(info);
        proof {
            assert(out.deep_view() =~= preo.push(out.deep_view().last()));
        }
        i += 1;
    }
    out
}

/// The image URL an `img` child carries: its `data-src`, else its `src`.
pub open spec fn child_img_pick(c: ChildRawV) -> Option<Seq<char>> {
    if c.data_src is Some {
        c.data_src
    } else {
        c.src
    }
}

/// The text of an injected script or advertisement run.
pub open spec fn skip_markers(t: Seq<char>) -> bool {
    ||| contains_sub(t, "function"@)
    ||| contains_sub(t, "Note: 请不要"@)
    ||| contains_sub(t, "= window."@)
}

/// What one direct child of the content container contributes: an `img`
/// child an image block; a paragraph-like tag (more than one letter,
/// containing `p`) and a classed `div` nothing (boilerplate and ad
/// furniture); a child matching the script markers nothing; anything else
/// a text block of its trimmed content, the empty text being the
/// line-break marker.
pub open spec fn child_block(c: ChildRawV) -> Option<ContentV> {
    if c.tag == "img"@ {
        match child_img_pick(c) {
            Option::Some(u) => Option::Some(ContentV::Image(u)),
            Option::None => Option::None,
        }
    } else if c.tag.len() > 1 && contains_sub(c.tag, "p"@) {
        Option::None
    } else if c.tag == "div"@ && c.has_class {
        Option::None
    } else if skip_markers(c.text) {
        Option::None
    } else {
        Option::Some(ContentV::Text(trim_spec(c.text)))
    }
}

/// The content blocks a chapter page's children yield, in order.
pub open spec fn novel_blocks(cs: Seq<ChildRawV>) -> Seq<ContentV>
    decreases cs.len(),
{
    if cs.len() == 0 {
        Seq::empty()
    } else {
        let pre = novel_blocks(cs.drop_last());
        match child_block(cs.last()) {
            Option::Some(b) => pre.push(b),
            Option::None => pre,
        }
    }
}

/// The image URLs a chapter page's children yield, in order.
pub open spec fn novel_imgs(cs: Seq<ChildRawV>) -> Seq<Seq<char>>
    decreases cs.len(),
{
    if cs.len() == 0 {
        Seq::empty()
    } else {
        let pre = novel_imgs(cs.drop_last());
        let c = cs.last();
        if c.tag == "img"@ {
            match child_img_pick(c) {
                Option::Some(u) => pre.push(u),
                Option::None => pre,
            }
        } else {
            pre
        }
    }
}

/// Extracts a chapter page's content: walks the content container's
/// direct children and appends the blocks they yield to `text` and the
/// image URLs to `img_list`.
pub fn parse_novel_text(
    html: &str,
    text: &mut Vec<Content>,
    img_list: &mut Vec<String>,
    _url_base: &str,
)
    ensures
        final(text).deep_view() == old(text).deep_view() + novel_blocks(
            content_children_of(html@),
        ),
        final(img_list).deep_view() == old(img_list).deep_view() + novel_imgs(
            content_children_of(html@),
        ),
{
    let ghost t0 = text.deep_view();
    let ghost g0 = img_list.deep_view();
    let children = content_children(html);
    let ghost cs = content_children_of(html@);
    let n = children.len();
    let mut i: usize = 0;
    while i < n
        invariant
            i <= n,
            n == children@.len(),
            children.deep_view() == cs,
            text.deep_view() =~= t0 + novel_blocks(cs.take(i as int)),
            img_list.deep_view() =~= g0 + novel_imgs(cs.take(i as int)),
        decreases n - i,
    {
        proof {
            assert(cs.take(i + 1).drop_last() =~= cs.take(i as int));
            assert(cs.take(i + 1).last() == cs[i as int]);
            assert(children.deep_view()[i as int] == children@[i as int]@);
        }
        let c = &children[i];
        if str_eq(c.tag.as_str(), "img") {
            let pick: Option<String> = if let Option::Some(ds) = &c.data_src {
                Option::Some(ds.clone())
            } else if let Option::Some(sr) = &c.src {
                Option::Some(sr.clone())
            } else {
                Option::None
            };
            if let Option::Some(u) = pick {
                let ghost pt = text.deep_view();
                let ghost pg = img_list.deep_view();
                let u2 = u.clone();
                text.push(Content::Image(u));
                img_list.push(u2);
                proof {
                    assert(text.deep_view() =~= pt.push(text.deep_view().last()));
                    assert(img_list.deep_view() =~= pg.push(img_list.deep_view().last()));
                }
            }
        } else {
            let tag_len = c.tag.as_str().unicode_len();
            let para_like = tag_len > 1 && contains_str(c.tag.as_str(), "p");
            let ad_div = str_eq(c.tag.as_str(), "div") && c.has_class;
            if !para_like && !ad_div {
                let marked = contains_str(c.text.as_str(), "function") || contains_str(
                    c.text.as_str(),
                    "Note: 请不要",
                ) || contains_str(c.text.as_str(), "= window.");
                if !marked {
                    let trimmed = trim_str(c.text.as_str());
                    let ghost pt = text.deep_view();
                    text.push(Content::Text(trimmed));
                    proof {
                        assert(text.deep_view() =~= pt.push(text.deep_view().last()));
                    }
                }
            }
        }
        i += 1;
    }
    proof {
        assert(cs.take(n as int) =~= cs);
    }
}

} // verus!
