//! The fetch-layer classifier: body markers, redirect handling, and the
//! retry loop's behavior over canned response scripts.

use epub_download::client::{
    classify_body, process_response, resolve_responses, Classification, FetchStep,
};
use epub_download::error::DownloadError;

#[test]
fn bot_challenge_is_fatal_at_once() {
    // a canned body with the bot-challenge marker: immediate fatal
    // failure, no retry
    let body = "<html><title>Just a moment...</title></html>";
    assert_eq!(
        classify_body(body),
        Classification::Fatal(DownloadError::ContentBlocked)
    );
    let script = vec![String::from(body)];
    let resolved = resolve_responses(&script);
    assert_eq!(
        resolved,
        Some((0, Classification::Fatal(DownloadError::ContentBlocked)))
    );
}

#[test]
fn cloudflare_phrase_retries_with_cooldown() {
    let body = "You have used Cloudflare to restrict access rate";
    assert_eq!(classify_body(body), Classification::RetryAfter(10));
}

#[test]
fn retry_loop_consumes_retries_until_terminal() {
    // the loop does not return while rate-limit bodies keep coming; the
    // first terminal body decides
    let cf = String::from("used Cloudflare to restrict access");
    let script = vec![cf.clone(), cf.clone(), String::from("<p>the chapter text</p>")];
    assert_eq!(resolve_responses(&script), Some((2, Classification::Content)));

    let script = vec![cf.clone(), String::from("Just a moment...")];
    assert_eq!(
        resolve_responses(&script),
        Some((1, Classification::Fatal(DownloadError::ContentBlocked)))
    );

    let script = vec![cf.clone(), cf.clone()];
    assert_eq!(resolve_responses(&script), None);
}

#[test]
fn content_error_markers() {
    assert_eq!(
        classify_body("对不起，该书内容已删除"),
        Classification::Fatal(DownloadError::ContentRemoved)
    );
    assert_eq!(
        classify_body("章节内容审核未通过"),
        Classification::Fatal(DownloadError::ChapterUnreviewed)
    );
    assert_eq!(
        classify_body("抱歉，该小说未经审核"),
        Classification::Fatal(DownloadError::NovelUnreviewed)
    );
    assert_eq!(
        classify_body("抱歉，该小说不存在"),
        Classification::Fatal(DownloadError::NovelMissing)
    );
    assert_eq!(
        classify_body("通告～客户端停用中"),
        Classification::RetryAfter(10)
    );
    assert_eq!(classify_body("ordinary page"), Classification::Content);
}

#[test]
fn redirect_is_fatal_before_the_body_is_read() {
    let step = process_response(
        "https://site/novel/1/2.html",
        "https://site/novel/1",
        "Just a moment...",
    );
    assert!(matches!(step, FetchStep::Redirected));
}

#[test]
fn matching_urls_pass_content_through() {
    let step = process_response("https://site/a", "https://site/a", "hello chapter");
    match step {
        FetchStep::Content(t) => assert_eq!(t, "hello chapter"),
        _ => panic!("expected content"),
    }
}

#[test]
fn traditional_mirror_text_is_simplified() {
    // through the fast2s table: Traditional 學/說 become Simplified 学/说
    let step = process_response(
        "https://tw.linovelib.com/novel/1/2.html",
        "https://tw.linovelib.com/novel/1/2.html",
        "這是小說學生",
    );
    match step {
        FetchStep::Content(t) => assert_eq!(t, "这是小说学生"),
        _ => panic!("expected content"),
    }
}
