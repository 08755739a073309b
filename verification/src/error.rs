//! The pipeline's failure taxonomy, and the error shape handed across the
//! command boundary.

use vstd::prelude::*;
use vstd::string::*;

verus! {

/// An error carried across the command boundary: a human-readable message.
#[derive(Debug)]
pub struct CommandError(pub String);

/// Why a fetch, a chapter, or a whole volume failed. Network failures are
/// retried by the caller; a redirect and the content errors are fatal; an
/// image failure names the image and the page that referenced it.
#[derive(Debug, PartialEq)]
pub enum DownloadError {
    Network,
    Redirect,
    ContentBlocked,
    ContentRemoved,
    ChapterUnreviewed,
    NovelUnreviewed,
    NovelMissing,
    BookNotFound,
    ChapterEmpty,
    ImageFetch { url: String, source: String },
    ImageCountMismatch { urls: usize, exts: usize },
    Io(String),
}

/// The user-facing wording of each failure.
pub open spec fn message_spec(e: &DownloadError) -> Seq<char> {
    match e {
        DownloadError::Network => "request failed"@,
        DownloadError::Redirect => "the response was redirected"@,
        DownloadError::ContentBlocked => "download refused, try again later"@,
        DownloadError::ContentRemoved => "the book's content was deleted"@,
        DownloadError::ChapterUnreviewed => "the chapter did not pass review"@,
        DownloadError::NovelUnreviewed => "the novel is not reviewed"@,
        DownloadError::NovelMissing => "the novel does not exist"@,
        DownloadError::BookNotFound => "book not found"@,
        DownloadError::ChapterEmpty => "chapter text is empty"@,
        DownloadError::ImageFetch { url, source } => "image download failed: "@ + url@,
        DownloadError::ImageCountMismatch { urls, exts } => "image and extension counts differ"@,
        DownloadError::Io(detail) => "i/o failure: "@ + detail@,
    }
}

impl DownloadError {
    /// The user-facing wording of this failure.
    pub fn message(&self) -> (r: String)
        ensures
            r@ == message_spec(self),
    {
        match self {
            DownloadError::Network => "request failed".to_owned(),
            DownloadError::Redirect => "the response was redirected".to_owned(),
            DownloadError::ContentBlocked => "download refused, try again later".to_owned(),
            DownloadError::ContentRemoved => "the book's content was deleted".to_owned(),
            DownloadError::ChapterUnreviewed => "the chapter did not pass review".to_owned(),
            DownloadError::NovelUnreviewed => "the novel is not reviewed".to_owned(),
            DownloadError::NovelMissing => "the novel does not exist".to_owned(),
            DownloadError::BookNotFound => "book not found".to_owned(),
            DownloadError::ChapterEmpty => "chapter text is empty".to_owned(),
            DownloadError::ImageFetch { url, source: _ } => {
                let mut m = "image download failed: ".to_owned();
                m.append(url.as_str());
                m
            },
            DownloadError::ImageCountMismatch { urls: _, exts: _ } => {
                "image and extension counts differ".to_owned()
            },
            DownloadError::Io(detail) => {
                let mut m = "i/o failure: ".to_owned();
                m.append(detail.as_str());
                m
            },
        }
    }
}

impl CommandError {
    /// Wraps a pipeline failure for the command boundary.
    pub fn from_download(e: &DownloadError) -> (r: CommandError)
        ensures
            r.0@ == message_spec(e),
    {
        CommandError(e.message())
    }
}

} // verus!
