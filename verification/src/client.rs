//! Fetch-layer logic: the site answers HTTP 200 even for blocked or broken
//! pages, so a response is classified by its body, never its status code.
//! The transport itself lives outside; this module decides what a response
//! means and what the fetch loop must do next.

use vstd::prelude::*;
use vstd::string::*;

use crate::error::DownloadError;
use crate::text::{contains_str, contains_sub, str_eq};
use crate::utils::{simplified_of, t2s};

verus! {

/// What a response body means: usable content, a transient condition to
/// retry after a cooldown (in seconds), or a fatal condition.
#[derive(Debug, PartialEq)]
pub enum Classification {
    Content,
    RetryAfter(u32),
    Fatal(DownloadError),
}

/// How a body is classified, in the order the markers are checked: the
/// Cloudflare rate-limit phrase retries after 10 s; the bot challenge and
/// `403 Forbidden` are fatal; the deleted, review-failed and missing
/// markers are fatal with distinct reasons; the client-disabled and
/// partial-load markers retry after 10 s; anything else is content.
pub open spec fn spec_classify(b: Seq<char>) -> Classification {
    if contains_sub(b, "used Cloudflare to restrict access"@) {
        Classification::RetryAfter(10)
    } else if contains_sub(b, "Just a moment..."@) || contains_sub(b, "403 Forbidden"@) {
        Classification::Fatal(DownloadError::ContentBlocked)
    } else if contains_sub(b, "對不起，該書內容已刪除"@) || contains_sub(
        b,
        "对不起，该书内容已删除"@,
    ) {
        Classification::Fatal(DownloadError::ContentRemoved)
    } else if contains_sub(b, "章節內容審核未通過"@) || contains_sub(
        b,
        "章节内容审核未通过"@,
    ) {
        Classification::Fatal(DownloadError::ChapterUnreviewed)
    } else if contains_sub(b, "抱歉，该小说未经审核"@) || contains_sub(
        b,
        "抱歉，該小說未經審核"@,
    ) {
        Classification::Fatal(DownloadError::NovelUnreviewed)
    } else if contains_sub(b, "抱歉，該小說不存在"@) || contains_sub(
        b,
        "抱歉，该小说不存在"@,
    ) {
        Classification::Fatal(DownloadError::NovelMissing)
    } else if contains_sub(b, "通告～客戶端停用中"@) || contains_sub(
        b,
        "通告～客户端停用中"@,
    ) || contains_sub(b, "內容加载失败"@) || contains_sub(
        b,
        "手机版页面由于相容性问题暂不支持电脑端阅读"@,
    ) {
        Classification::RetryAfter(10)
    } else {
        Classification::Content
    }
}

/// Classifies a response body by its markers.
pub fn classify_body(text: &str) -> (c: Classification)
    ensures
        c == spec_classify(text@),
{
    if contains_str(text, "used Cloudflare to restrict access") {
        Classification::RetryAfter(10)
    } else if contains_str(text, "Just a moment...") || contains_str(text, "403 Forbidden") {
        Classification::Fatal(DownloadError::ContentBlocked)
    } else if contains_str(text, "對不起，該書內容已刪除") || contains_str(
        text,
        "对不起，该书内容已删除",
    ) {
        Classification::Fatal(DownloadError::ContentRemoved)
    } else if contains_str(text, "章節內容審核未通過") || contains_str(
        text,
        "章节内容审核未通过",
    ) {
        Classification::Fatal(DownloadError::ChapterUnreviewed)
    } else if contains_str(text, "抱歉，该小说未经审核") || contains_str(
        text,
        "抱歉，該小說未經審核",
    ) {
        Classification::Fatal(DownloadError::NovelUnreviewed)
    } else if contains_str(text, "抱歉，該小說不存在") || contains_str(
        text,
        "抱歉，该小说不存在",
    ) {
        Classification::Fatal(DownloadError::NovelMissing)
    } else if contains_str(text, "通告～客戶端停用中") || contains_str(
        text,
        "通告～客户端停用中",
    ) || contains_str(text, "內容加载失败") || contains_str(
        text,
        "手机版页面由于相容性问题暂不支持电脑端阅读",
    ) {
        Classification::RetryAfter(10)
    } else {
        Classification::Content
    }
}

/// Law: a body carrying the bot-challenge marker or the `403 Forbidden`
/// marker is classified fatal at once — no retry, no cooldown — provided
/// the rate-limit phrase, which the cascade checks first, is absent.
pub proof fn lemma_bot_challenge_fatal(b: Seq<char>)
    requires
        contains_sub(b, "Just a moment..."@) || contains_sub(b, "403 Forbidden"@),
        !contains_sub(b, "used Cloudflare to restrict access"@),
    ensures
        spec_classify(b) == Classification::Fatal(DownloadError::ContentBlocked),
{
}

/// Law: a body carrying the rate-limit phrase is classified as a retry
/// after the fixed ten-second cooldown, whatever else it holds.
pub proof fn lemma_rate_limit_retries(b: Seq<char>)
    requires
        contains_sub(b, "used Cloudflare to restrict access"@),
    ensures
        spec_classify(b) == Classification::RetryAfter(10),
{
}

/// What the fetch loop must do with one response: fail on a redirect,
/// wait and retry, fail with a reason, or accept the converted text.
#[derive(Debug)]
pub enum FetchStep {
    Redirected,
    RetryAfter(u32),
    Fatal(DownloadError),
    Content(String),
}

/// The body as it is classified and consumed: converted
/// Traditional-to-Simplified when the page came from the Traditional
/// mirror, unchanged otherwise.
pub open spec fn spec_converted(requested_url: Seq<char>, body: Seq<char>) -> Seq<char> {
    if contains_sub(requested_url, "tw.linovelib.com"@) {
        simplified_of(body)
    } else {
        body
    }
}

/// Decides what one fetched response means. A response whose final URL
/// differs from the requested one signals a moved or removed id and is
/// fatal at once, before the body is read; otherwise the body, converted
/// for the Traditional mirror, is classified by its markers.
pub fn process_response(requested_url: &str, final_url: &str, body: &str) -> (r: FetchStep)
    ensures
        (r is Redirected) == (final_url@ != requested_url@),
        final_url@ == requested_url@ ==> match spec_classify(
            spec_converted(requested_url@, body@),
        ) {
            Classification::Content => r matches FetchStep::Content(t) && t@ == spec_converted(
                requested_url@,
                body@,
            ),
            Classification::RetryAfter(secs) => r == FetchStep::RetryAfter(secs),
            Classification::Fatal(e) => r matches FetchStep::Fatal(e2) && e2 == e,
        },
{
    if !str_eq(final_url, requested_url) {
        return FetchStep::Redirected;
    }
    let text: String = if contains_str(requested_url, "tw.linovelib.com") {
        t2s(body)
    } else {
        body.to_owned()
    };
    match classify_body(text.as_str()) {
        Classification::Content => FetchStep::Content(text),
        Classification::RetryAfter(secs) => FetchStep::RetryAfter(secs),
        Classification::Fatal(e) => FetchStep::Fatal(e),
    }
}

/// Runs the classifier over a finite script of bodies, as the fetch loop
/// would see them: retry-classed bodies are consumed in order, and the
/// first body with any other classification decides the outcome. `None`
/// means every body asked for a retry and the loop would still be waiting.
pub fn resolve_responses(bodies: &Vec<String>) -> (r: Option<(usize, Classification)>)
    ensures
        r matches Some(p) ==> p.0 < bodies@.len() && p.1 == spec_classify(
            bodies.deep_view()[p.0 as int],
        ) && !(p.1 is RetryAfter) && (forall|k: int|
            0 <= k < p.0 ==> spec_classify(#[trigger] bodies.deep_view()[k]) is RetryAfter),
        r is None ==> forall|k: int|
            0 <= k < bodies@.len() ==> spec_classify(#[trigger] bodies.deep_view()[k]) is RetryAfter,
{
    let n = bodies.len();
    let mut i: usize = 0;
    while i < n
        invariant
            i <= n,
            n == bodies@.len(),
            forall|k: int|
                0 <= k < i ==> spec_classify(#[trigger] bodies.deep_view()[k]) is RetryAfter,
        decreases n - i,
    {
        let c = classify_body(bodies[i].as_str());
        let retry = matches!(c, Classification::RetryAfter(_));
        if !retry {
            proof {
                assert(bodies.deep_view()[i as int] == bodies@[i as int]@);
            }
            return Some((i, c));
        }
        proof {
            assert(bodies.deep_view()[i as int] == bodies@[i as int]@);
        }
        i += 1;
    }
    None
}

/// The site path of a book's main page.
pub fn novel_path(book_id: &str) -> (r: String)
    ensures
        r@ == "/novel/"@ + book_id@ + ".html"@,
{
    let mut p = String::from_str("/novel/");
    p.append(book_id);
    p.append(".html");
    proof {
        assert(p@ =~= "/novel/"@ + book_id@ + ".html"@);
    }
    p
}

/// The site path of one volume's description page.
pub fn volume_path(book_id: &str, volume_id: &str) -> (r: String)
    ensures
        r@ == "/novel/"@ + book_id@ + "/vol_"@ + volume_id@ + ".html"@,
{
    let mut p = String::from_str("/novel/");
    p.append(book_id);
    p.append("/vol_");
    p.append(volume_id);
    p.append(".html");
    proof {
        assert(p@ =~= "/novel/"@ + book_id@ + "/vol_"@ + volume_id@ + ".html"@);
    }
    p
}

/// The site path of a book's catalog page.
pub fn catalog_path(book_id: &str) -> (r: String)
    ensures
        r@ == "/novel/"@ + book_id@ + "/catalog"@,
{
    let mut p = String::from_str("/novel/");
    p.append(book_id);
    p.append("/catalog");
    proof {
        assert(p@ =~= "/novel/"@ + book_id@ + "/catalog"@);
    }
    p
}

/// `url` opens with `http`, so it already names a scheme.
pub open spec fn has_scheme(url: Seq<char>) -> bool {
    "http"@.len() <= url.len() && url.subrange(0, "http"@.len() as int) == "http"@
}

/// A URL made absolute against the site base: kept when it already names a
/// scheme, prefixed with the base otherwise.
pub fn absolutize_url(base_url: &str, url: &str) -> (r: String)
    ensures
        has_scheme(url@) ==> r@ == url@,
        !has_scheme(url@) ==> r@ == base_url@ + url@,
{
    if crate::text::starts_with_str(url, "http") {
        url.to_owned()
    } else {
        let mut p = base_url.to_owned();
        p.append(url);
        p
    }
}

} // verus!
