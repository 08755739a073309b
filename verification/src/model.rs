//! Data model: book and volume metadata, and the content block union that
//! the parser produces and the restorer and builder consume.

use vstd::prelude::*;

verus! {

/// One parsed content unit: a raw markup run, a text run, or an image
/// reference (by source URL). A text block holding the empty string is the
/// line-break marker.
#[derive(Debug, Clone, PartialEq)]
pub enum Content {
    Tag(String),
    Text(String),
    Image(String),
}

/// Mathematical value of a `Content` block.
pub enum ContentV {
    Tag(Seq<char>),
    Text(Seq<char>),
    Image(Seq<char>),
}

impl View for Content {
    type V = ContentV;

    open spec fn view(&self) -> ContentV {
        match self {
            Content::Tag(s) => ContentV::Tag(s@),
            Content::Text(s) => ContentV::Text(s@),
            Content::Image(s) => ContentV::Image(s@),
        }
    }
}

impl DeepView for Content {
    type V = ContentV;

    open spec fn deep_view(&self) -> ContentV {
        self.view()
    }
}

impl Content {
    /// Whether this block is a text run.
    pub fn is_text(&self) -> (r: bool)
        ensures
            r == (self@ is Text),
    {
        matches!(self, Content::Text(_))
    }

    /// Whether this block is a text run holding the empty string
    /// (the line-break marker).
    pub fn is_empty(&self) -> (r: bool)
        ensures
            r == (self@ matches ContentV::Text(t) && t.len() == 0),
    {
        match self {
            Content::Text(text) => text.as_str().is_empty(),
            _ => false,
        }
    }

    /// An exact copy; unlike a derived clone, its contract keeps the value.
    pub fn duplicate(&self) -> (r: Content)
        ensures
            r@ == self@,
    {
        match self {
            Content::Tag(s) => Content::Tag(s.clone()),
            Content::Text(s) => Content::Text(s.clone()),
            Content::Image(s) => Content::Image(s.clone()),
        }
    }
}

/// Book metadata parsed once from the book page; an absent title signals
/// "book not found".
#[derive(Debug)]
pub struct BookInfo {
    pub title: Option<String>,
    pub author: Option<String>,
    pub publisher: Option<String>,
    pub tags: Vec<String>,
    pub description: Option<String>,
    pub cover: Option<String>,
}

/// Mathematical value of a `BookInfo`.
pub struct BookInfoV {
    pub title: Option<Seq<char>>,
    pub author: Option<Seq<char>>,
    pub publisher: Option<Seq<char>>,
    pub tags: Seq<Seq<char>>,
    pub description: Option<Seq<char>>,
    pub cover: Option<Seq<char>>,
}

impl View for BookInfo {
    type V = BookInfoV;

    open spec fn view(&self) -> BookInfoV {
        BookInfoV {
            title: self.title.deep_view(),
            author: self.author.deep_view(),
            publisher: self.publisher.deep_view(),
            tags: self.tags.deep_view(),
            description: self.description.deep_view(),
            cover: self.cover.deep_view(),
        }
    }
}

/// One volume of a book: its title, ordered chapter titles and chapter page
/// paths, optional volume page URL and cover, and its 1-based number.
#[derive(Debug)]
pub struct VolumeInfo {
    pub title: Option<String>,
    pub chapter_list: Vec<String>,
    pub chapter_path_list: Vec<String>,
    pub url_vol: Option<String>,
    pub volume_no: u32,
    pub cover: Option<String>,
}

/// Mathematical value of a `VolumeInfo`.
pub struct VolumeInfoV {
    pub title: Option<Seq<char>>,
    pub chapter_list: Seq<Seq<char>>,
    pub chapter_path_list: Seq<Seq<char>>,
    pub url_vol: Option<Seq<char>>,
    pub volume_no: u32,
    pub cover: Option<Seq<char>>,
}

impl View for VolumeInfo {
    type V = VolumeInfoV;

    open spec fn view(&self) -> VolumeInfoV {
        VolumeInfoV {
            title: self.title.deep_view(),
            chapter_list: self.chapter_list.deep_view(),
            chapter_path_list: self.chapter_path_list.deep_view(),
            url_vol: self.url_vol.deep_view(),
            volume_no: self.volume_no,
            cover: self.cover.deep_view(),
        }
    }
}

impl DeepView for VolumeInfo {
    type V = VolumeInfoV;

    open spec fn deep_view(&self) -> VolumeInfoV {
        self.view()
    }
}

/// An indexed book: identity, metadata, and the volumes found for it.
#[derive(Debug)]
pub struct Book {
    pub id: String,
    pub title: Option<String>,
    pub author: Option<String>,
    pub publisher: Option<String>,
    pub tags: Vec<String>,
    pub description: Option<String>,
    pub volume_list: Vec<Volume>,
}

/// An indexed volume: identity, source path of its package description,
/// and its place in the series.
#[derive(Debug)]
pub struct Volume {
    pub id: String,
    pub title: Option<String>,
    pub url_vol: String,
    pub volume_no: u32,
    pub updated_at: String,
    pub path: String,
}

} // verus!
