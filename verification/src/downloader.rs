//! The per-volume pipeline's decisions and transformations: chapter-page
//! URL handling, image deduplication and indexing, color-page assembly,
//! empty-chapter pruning, file-name templating, and the bounded image
//! retry policy. The fetch loop that feeds these lives outside; everything
//! here is a function from plain values to plain values.

use vstd::prelude::*;
use vstd::string::*;

use crate::epub_builder::{ContentBlock, ContentBlockV};
use crate::error::DownloadError;
use crate::model::{Content, ContentV};
use crate::text::{all_digits, dec_val, contains_str, contains_sub, ends_with_str, find_char_from,
    find_str, first_match, match_at, parse_u64_str, rfind_char, substring};

verus! {

/// The position of the last `c` in `s`, or -1.
pub open spec fn last_index_of(s: Seq<char>, c: char) -> int
    decreases s.len(),
{
    if s.len() == 0 {
        -1
    } else if s.last() == c {
        s.len() - 1
    } else {
        last_index_of(s.drop_last(), c)
    }
}

/// The position of the first `c` in `s` at or after `from`, or `s.len()`.
pub open spec fn first_index_from(s: Seq<char>, c: char, from: int) -> int
    decreases s.len() - from,
{
    if from < 0 {
        first_index_from(s, c, 0)
    } else if from >= s.len() {
        s.len() as int
    } else if s[from] == c {
        from
    } else {
        first_index_from(s, c, from + 1)
    }
}

proof fn lemma_last_index_some(s: Seq<char>, c: char, i: int)
    requires
        0 <= i < s.len(),
        s[i] == c,
        forall|k: int| i < k < s.len() ==> s[k] != c,
    ensures
        last_index_of(s, c) == i,
    decreases s.len(),
{
    if i == s.len() - 1 {
    } else {
        let t = s.drop_last();
        assert(t =~= s.subrange(0, s.len() - 1));
        lemma_last_index_some(t, c, i);
    }
}

proof fn lemma_last_index_none(s: Seq<char>, c: char)
    requires
        forall|k: int| 0 <= k < s.len() ==> s[k] != c,
    ensures
        last_index_of(s, c) == -1,
    decreases s.len(),
{
    if s.len() > 0 {
        let t = s.drop_last();
        assert(t =~= s.subrange(0, s.len() - 1));
        lemma_last_index_none(t, c);
    }
}

proof fn lemma_first_index_some(s: Seq<char>, c: char, from: int, i: int)
    requires
        0 <= from <= i < s.len(),
        s[i] == c,
        forall|k: int| from <= k < i ==> s[k] != c,
    ensures
        first_index_from(s, c, from) == i,
    decreases i - from,
{
    if from < i {
        lemma_first_index_some(s, c, from + 1, i);
    }
}

proof fn lemma_first_index_none(s: Seq<char>, c: char, from: int)
    requires
        0 <= from <= s.len(),
        forall|k: int| from <= k < s.len() ==> s[k] != c,
    ensures
        first_index_from(s, c, from) == s.len(),
    decreases s.len() - from,
{
    if from < s.len() {
        lemma_first_index_none(s, c, from + 1);
    }
}

/// The file extension an image URL is stored under: the characters after
/// the last dot of the final path segment, when the URL ends in `jpg`,
/// `png` or `jpeg` and that segment holds a dot; plain `jpg` otherwise.
pub open spec fn spec_get_ext(url: Seq<char>) -> Seq<char> {
    let suffix_ok = ends_in(url, "jpg"@) || ends_in(url, "png"@) || ends_in(url, "jpeg"@);
    let d = last_index_of(url, '.');
    if suffix_ok && d >= 0 && d > last_index_of(url, '/') {
        url.subrange(d + 1, url.len() as int)
    } else {
        "jpg"@
    }
}

/// `s` ends with `suffix`.
pub open spec fn ends_in(s: Seq<char>, suffix: Seq<char>) -> bool {
    suffix.len() <= s.len() && s.subrange(s.len() - suffix.len(), s.len() as int) == suffix
}

/// The file extension an image URL is stored under.
pub fn get_ext(url: &str) -> (r: String)
    ensures
        r@ == spec_get_ext(url@),
{
    let suffix_ok = ends_with_str(url, "jpg") || ends_with_str(url, "png") || ends_with_str(
        url,
        "jpeg",
    );
    if suffix_ok {
        match rfind_char(url, '.') {
            Some(d) => {
                proof {
                    lemma_last_index_some(url@, '.', d as int);
                }
                let in_segment = match rfind_char(url, '/') {
                    Some(sl) => {
                        proof {
                            lemma_last_index_some(url@, '/', sl as int);
                        }
                        d > sl
                    },
                    None => {
                        proof {
                            lemma_last_index_none(url@, '/');
                        }
                        true
                    },
                };
                if in_segment {
                    let len = url.unicode_len();
                    return substring(url, d + 1, len);
                }
                return String::from_str("jpg");
            },
            None => {
                proof {
                    lemma_last_index_none(url@, '.');
                }
                return String::from_str("jpg");
            },
        }
    }
    String::from_str("jpg")
}

/// Whether a chapter-page URL is a pagination page: its path carries an
/// underscore suffix, so the chapter continues on the next page.
pub fn is_pagination_url(url: &str) -> (r: bool)
    ensures
        r == contains_sub(url@, "_"@),
{
    contains_str(url, "_")
}

/// The chapter id embedded in a chapter-page URL: the digits of the final
/// path segment, up to its first dot, up to its first underscore.
pub open spec fn spec_chapter_id(url: Seq<char>) -> Option<u64> {
    let a = last_index_of(url, '/') + 1;
    let e_dot = first_index_from(url, '.', a);
    let e_us = first_index_from(url, '_', a);
    let e = if e_us < e_dot {
        e_us
    } else {
        e_dot
    };
    let digits = url.subrange(a, e);
    if digits.len() > 0 && all_digits(digits) && dec_val(digits) <= u64::MAX {
        Option::Some(dec_val(digits) as u64)
    } else {
        Option::None
    }
}

/// Reads the chapter id out of a chapter-page URL; `None` when the final
/// path segment does not start with digits.
pub fn chapter_id_of_url(url: &str) -> (r: Option<u64>)
    ensures
        r == spec_chapter_id(url@),
{
    let len = url.unicode_len();
    let a: usize = match rfind_char(url, '/') {
        Some(i) => {
            proof {
                lemma_last_index_some(url@, '/', i as int);
            }
            i + 1
        },
        None => {
            proof {
                lemma_last_index_none(url@, '/');
            }
            0
        },
    };
    let e_dot: usize = match find_char_from(url, '.', a) {
        Some(i) => {
            proof {
                lemma_first_index_some(url@, '.', a as int, i as int);
            }
            i
        },
        None => {
            proof {
                lemma_first_index_none(url@, '.', a as int);
            }
            len
        },
    };
    let e_us: usize = match find_char_from(url, '_', a) {
        Some(i) => {
            proof {
                lemma_first_index_some(url@, '_', a as int, i as int);
            }
            i
        },
        None => {
            proof {
                lemma_first_index_none(url@, '_', a as int);
            }
            len
        },
    };
    let e = if e_us < e_dot {
        e_us
    } else {
        e_dot
    };
    let digits = substring(url, a, e);
    parse_u64_str(digits.as_str())
}

/// Where the next chapter page is announced in the page script: the text
/// between `url_next:'` and the next quote, prefixed with the site base.
/// `None` when the page carries no such token or no closing quote.
pub fn find_next_url(base_url: &str, html: &str) -> (r: Option<String>)
    ensures
        r matches Some(u) ==> exists|t: int, q: int|
            #![trigger match_at(html@, "url_next:'"@, t), html@[q]]
            {
                &&& match_at(html@, "url_next:'"@, t)
                &&& (forall|k: int| 0 <= k < t ==> !match_at(html@, "url_next:'"@, k))
                &&& t + "url_next:'"@.len() <= q < html@.len()
                &&& html@[q] == '\''
                &&& (forall|k: int| t + "url_next:'"@.len() <= k < q ==> html@[k] != '\'')
                &&& u@ == base_url@ + html@.subrange(t + "url_next:'"@.len() as int, q)
            },
        r is None ==> !contains_sub(html@, "url_next:'"@) || (exists|t: int|
            {
                &&& #[trigger] match_at(html@, "url_next:'"@, t)
                &&& (forall|k: int| 0 <= k < t ==> !match_at(html@, "url_next:'"@, k))
                &&& (forall|k: int| t + "url_next:'"@.len() <= k < html@.len() ==> html@[k] != '\'')
            }),
{
    let marker = "url_next:'";
    let mlen = marker.unicode_len();
    let hlen = html.unicode_len();
    match find_str(html, marker) {
        None => None,
        Some(t) => {
            let start = t + mlen;
            match find_char_from(html, '\'', start) {
                None => None,
                Some(q) => {
                    let path = substring(html, start, q);
                    let mut u = base_url.to_owned();
                    u.append(path.as_str());
                    Some(u)
                },
            }
        },
    }
}

/// The first chapter link of a volume is sometimes a script stub; then the
/// previous volume's last chapter page must be fetched and its next-chapter
/// link followed instead.
#[derive(Debug)]
pub enum StartUrl {
    Direct(String),
    FromPreviousVolume,
}

/// Decides where a volume's first chapter page is: directly at the first
/// chapter path, unless that path is a script stub.
pub fn start_url_plan(base_url: &str, first_chapter_path: &str) -> (r: StartUrl)
    ensures
        contains_sub(first_chapter_path@, "javascript"@) ==> r is FromPreviousVolume,
        !contains_sub(first_chapter_path@, "javascript"@) ==> (r matches StartUrl::Direct(u) && u@
            == base_url@ + first_chapter_path@),
{
    if contains_str(first_chapter_path, "javascript") {
        StartUrl::FromPreviousVolume
    } else {
        let mut u = base_url.to_owned();
        u.append(first_chapter_path);
        StartUrl::Direct(u)
    }
}

/// What the image fetch loop does after a failed attempt.
#[derive(Debug, PartialEq)]
pub enum ImageRetryStep {
    SkipPlaceholder,
    FailVolume,
    RetryAfter(u32),
}

/// How many times one image URL is attempted before the volume fails.
pub const IMAGE_MAX_ATTEMPTS: u32 = 50;

/// Decides what the image fetch loop does after a failed attempt: a
/// known-bad URL is skipped with an empty placeholder; when the attempts
/// are exhausted the volume fails; otherwise the loop waits five seconds
/// and retries.
pub fn image_retry_decision(attempts_done: u32, known_bad: bool) -> (r: ImageRetryStep)
    ensures
        known_bad ==> r == ImageRetryStep::SkipPlaceholder,
        !known_bad && attempts_done >= IMAGE_MAX_ATTEMPTS ==> r == ImageRetryStep::FailVolume,
        !known_bad && attempts_done < IMAGE_MAX_ATTEMPTS ==> r == ImageRetryStep::RetryAfter(5),
{
    if known_bad {
        ImageRetryStep::SkipPlaceholder
    } else if attempts_done >= IMAGE_MAX_ATTEMPTS {
        ImageRetryStep::FailVolume
    } else {
        ImageRetryStep::RetryAfter(5)
    }
}

/// Whether `url` is in the known-bad image list.
pub fn is_known_bad(url: &str, error_img: &Vec<String>) -> (r: bool)
    ensures
        r == exists|i: int|
            0 <= i < error_img@.len() && #[trigger] error_img.deep_view()[i] == url@,
{
    let n = error_img.len();
    let mut i: usize = 0;
    while i < n
        invariant
            i <= n,
            n == error_img@.len(),
            forall|k: int| 0 <= k < i ==> #[trigger] error_img.deep_view()[k] != url@,
        decreases n - i,
    {
        if crate::text::str_eq(error_img[i].as_str(), url) {
            proof {
                assert(error_img.deep_view()[i as int] == error_img@[i as int]@);
            }
            return true;
        }
        proof {
            assert(error_img.deep_view()[i as int] == error_img@[i as int]@);
        }
        i += 1;
    }
    false
}

/// Checks the image and extension tables line up; a mismatch is the
/// internal-inconsistency error, which the verified pipeline never
/// produces.
pub fn validate_image_counts(urls: usize, exts: usize) -> (r: Result<(), DownloadError>)
    ensures
        urls == exts <==> r is Ok,
        urls != exts ==> r == Result::<(), DownloadError>::Err(
            DownloadError::ImageCountMismatch { urls, exts },
        ),
{
    if urls == exts {
        Ok(())
    } else {
        Err(DownloadError::ImageCountMismatch { urls, exts })
    }
}


/// The first-encounter deduplication of a URL list: each URL once, in the
/// order of its first occurrence.
pub open spec fn dedup_urls_spec(s: Seq<Seq<char>>) -> Seq<Seq<char>>
    decreases s.len(),
{
    if s.len() == 0 {
        Seq::empty()
    } else {
        let pre = dedup_urls_spec(s.drop_last());
        if pre.contains(s.last()) {
            pre
        } else {
            pre.push(s.last())
        }
    }
}

/// The position of the first occurrence of `x` in `s`, or -1.
pub open spec fn index_of_url(s: Seq<Seq<char>>, x: Seq<char>) -> int
    decreases s.len(),
{
    if s.len() == 0 {
        -1
    } else {
        let r = index_of_url(s.drop_last(), x);
        if r >= 0 {
            r
        } else if s.last() == x {
            s.len() - 1
        } else {
            -1
        }
    }
}

/// A protocol-relative URL made absolute with `https`.
pub open spec fn normalize_url(u: Seq<char>) -> Seq<char> {
    if u.len() >= 2 && u[0] == '/' && u[1] == '/' {
        "https:"@ + u
    } else {
        u
    }
}

proof fn lemma_index_of_found(s: Seq<Seq<char>>, x: Seq<char>, i: int)
    requires
        0 <= i < s.len(),
        s[i] == x,
        forall|j: int| 0 <= j < i ==> s[j] != x,
    ensures
        index_of_url(s, x) == i,
    decreases s.len(),
{
    let t = s.drop_last();
    assert(t =~= s.subrange(0, s.len() - 1));
    if i == s.len() - 1 {
        lemma_index_of_none(t, x);
    } else {
        lemma_index_of_found(t, x, i);
    }
}

proof fn lemma_index_of_contains(s: Seq<Seq<char>>, x: Seq<char>)
    requires
        s.contains(x),
    ensures
        0 <= index_of_url(s, x) < s.len(),
        s[index_of_url(s, x)] == x,
    decreases s.len(),
{
    let t = s.drop_last();
    assert(t =~= s.subrange(0, s.len() - 1));
    if t.contains(x) {
        lemma_index_of_contains(t, x);
    } else {
        lemma_index_of_none(t, x);
        let i = choose|i: int| 0 <= i < s.len() && s[i] == x;
        if i < s.len() - 1 {
            assert(t[i] == x);
        }
        assert(s.last() == x);
    }
}

proof fn lemma_index_of_none(s: Seq<Seq<char>>, x: Seq<char>)
    requires
        forall|j: int| 0 <= j < s.len() ==> s[j] != x,
    ensures
        index_of_url(s, x) == -1,
    decreases s.len(),
{
    if s.len() > 0 {
        let t = s.drop_last();
        assert(t =~= s.subrange(0, s.len() - 1));
        lemma_index_of_none(t, x);
    }
}

/// What first-encounter deduplication guarantees: every input URL appears
/// in the result, every result URL comes from the input, and no URL
/// appears twice.
pub proof fn lemma_dedup_props(s: Seq<Seq<char>>)
    ensures
        forall|i: int| 0 <= i < s.len() ==> dedup_urls_spec(s).contains(#[trigger] s[i]),
        forall|k: int|
            0 <= k < dedup_urls_spec(s).len() ==> s.contains(#[trigger] dedup_urls_spec(s)[k]),
        forall|k1: int, k2: int|
            0 <= k1 < k2 < dedup_urls_spec(s).len() ==> dedup_urls_spec(s)[k1]
                != dedup_urls_spec(s)[k2],
    decreases s.len(),
{
    if s.len() > 0 {
        let t = s.drop_last();
        lemma_dedup_props(t);
        let pre = dedup_urls_spec(t);
        let ded = dedup_urls_spec(s);
        assert forall|i: int| 0 <= i < s.len() implies ded.contains(#[trigger] s[i]) by {
            if i < s.len() - 1 {
                assert(t[i] == s[i]);
                assert(pre.contains(s[i]));
                let k = choose|k: int| 0 <= k < pre.len() && pre[k] == s[i];
                assert(ded[k] == s[i]);
            } else {
                if pre.contains(s.last()) {
                    let k = choose|k: int| 0 <= k < pre.len() && pre[k] == s.last();
                    assert(ded[k] == s[i]);
                } else {
                    assert(ded[ded.len() - 1] == s[i]);
                }
            }
        }
        assert forall|k: int| 0 <= k < ded.len() implies s.contains(#[trigger] ded[k]) by {
            if k < pre.len() {
                assert(pre[k] == ded[k]);
                let i = choose|i: int| 0 <= i < t.len() && t[i] == pre[k];
                assert(s[i] == ded[k]);
            } else {
                assert(ded[k] == s[s.len() - 1]);
            }
        }
    }
}

/// How one parsed block appears in the rendered chapter: text and markup
/// runs carry their text, an image reference carries the URL's index in
/// the deduplicated list.
pub open spec fn block_mapped(out: ContentBlockV, inb: ContentV, ded: Seq<Seq<char>>) -> bool {
    match inb {
        ContentV::Text(t) => out == ContentBlockV::Text(t),
        ContentV::Tag(t) => out == ContentBlockV::Text(t),
        ContentV::Image(u) => out matches ContentBlockV::Image(ix) && ix as int == index_of_url(
            ded,
            u,
        ),
    }
}

/// Every image reference in the chapters names a URL of the list.
pub open spec fn blocks_urls_covered(chapters: Seq<Seq<ContentV>>, urls: Seq<Seq<char>>) -> bool {
    forall|c: int, b: int|
        0 <= c < chapters.len() && 0 <= b < chapters[c].len() ==> (
        #[trigger] chapters[c][b] matches ContentV::Image(u) ==> urls.contains(u))
}

fn contains_url(v: &Vec<String>, u: &str) -> (r: bool)
    ensures
        r == v.deep_view().contains(u@),
{
    let n = v.len();
    let mut i: usize = 0;
    while i < n
        invariant
            i <= n,
            n == v@.len(),
            forall|k: int| 0 <= k < i ==> #[trigger] v.deep_view()[k] != u@,
        decreases n - i,
    {
        if crate::text::str_eq(v[i].as_str(), u) {
            proof {
                assert(v.deep_view()[i as int] == v@[i as int]@);
            }
            return true;
        }
        proof {
            assert(v.deep_view()[i as int] == v@[i as int]@);
        }
        i += 1;
    }
    proof {
        if v.deep_view().contains(u@) {
            let k = choose|k: int| 0 <= k < v.deep_view().len() && v.deep_view()[k] == u@;
            assert(v.deep_view()[k] != u@);
        }
    }
    false
}

fn index_of_url_exec(v: &Vec<String>, u: &str) -> (r: Option<usize>)
    ensures
        r matches Some(i) ==> i as int == index_of_url(v.deep_view(), u@),
        r is None ==> index_of_url(v.deep_view(), u@) == -1,
{
    let n = v.len();
    let mut i: usize = 0;
    while i < n
        invariant
            i <= n,
            n == v@.len(),
            forall|k: int| 0 <= k < i ==> #[trigger] v.deep_view()[k] != u@,
        decreases n - i,
    {
        if crate::text::str_eq(v[i].as_str(), u) {
            proof {
                assert(v.deep_view()[i as int] == v@[i as int]@);
                lemma_index_of_found(v.deep_view(), u@, i as int);
            }
            return Some(i);
        }
        proof {
            assert(v.deep_view()[i as int] == v@[i as int]@);
        }
        i += 1;
    }
    proof {
        lemma_index_of_none(v.deep_view(), u@);
    }
    None
}

fn normalize_url_exec(u: &str) -> (r: String)
    ensures
        r@ == normalize_url(u@),
{
    let len = u.unicode_len();
    if len >= 2 && u.get_char(0) == '/' && u.get_char(1) == '/' {
        let mut out = String::from_str("https:");
        out.append(u);
        out
    } else {
        u.to_owned()
    }
}

/// Renders the parsed chapters into indexed blocks and deduplicates the
/// image list: the URL lists are rebuilt holding each URL once in
/// first-encounter order (protocol-relative ones made absolute), the
/// extensions are derived from the raw URLs, each source page follows its
/// URL's first occurrence, and every image block is rewritten to the
/// deduplicated index of its URL.
#[verifier::rlimit(100)]
#[verifier::spinoff_prover]
pub fn get_chapters(
    chapters_raw: &Vec<Vec<Content>>,
    image_urls: &mut Vec<String>,
    chapters: &mut Vec<Vec<ContentBlock>>,
    image_exts: &mut Vec<String>,
    image_sources: &mut Vec<String>,
)
    requires
        old(image_sources)@.len() == old(image_urls)@.len(),
        old(chapters)@.len() == 0,
        old(image_exts)@.len() == 0,
        blocks_urls_covered(chapters_raw.deep_view(), old(image_urls).deep_view()),
    ensures
        ({
            let urls0 = old(image_urls).deep_view();
            let ded = dedup_urls_spec(urls0);
            &&& final(image_urls).deep_view() == Seq::new(
                ded.len(),
                |k: int| normalize_url(ded[k]),
            )
            &&& final(image_exts).deep_view() == Seq::new(ded.len(), |k: int| spec_get_ext(ded[k]))
            &&& final(image_sources).deep_view() == Seq::new(
                ded.len(),
                |k: int| old(image_sources).deep_view()[index_of_url(urls0, ded[k])],
            )
            &&& final(chapters)@.len() == chapters_raw@.len()
            &&& forall|c: int|
                0 <= c < chapters_raw@.len() ==> #[trigger] final(chapters).deep_view()[c].len()
                    == chapters_raw.deep_view()[c].len()
            &&& forall|c: int, b: int|
                0 <= c < chapters_raw@.len() && 0 <= b < chapters_raw.deep_view()[c].len()
                    ==> block_mapped(
                    #[trigger] final(chapters).deep_view()[c][b],
                    chapters_raw.deep_view()[c][b],
                    ded,
                )
        }),
{
    let ghost urls0 = image_urls.deep_view();
    let ghost sources0 = image_sources.deep_view();
    let ghost ded = dedup_urls_spec(urls0);
    proof {
        lemma_dedup_props(urls0);
    }
    let mut raw: Vec<String> = Vec::new();
    let mut exts: Vec<String> = Vec::new();
    let mut srcs: Vec<String> = Vec::new();
    let n = image_urls.len();
    let mut i: usize = 0;
    while i < n
        invariant
            i <= n,
            n == urls0.len(),
            urls0 == image_urls.deep_view(),
            sources0 == image_sources.deep_view(),
            sources0.len() == urls0.len(),
            raw.deep_view() == dedup_urls_spec(urls0.take(i as int)),
            exts@.len() == raw@.len(),
            srcs@.len() == raw@.len(),
            forall|k: int|
                0 <= k < raw@.len() ==> #[trigger] exts.deep_view()[k] == spec_get_ext(
                    raw.deep_view()[k],
                ),
            forall|k: int|
                0 <= k < raw@.len() ==> #[trigger] srcs.deep_view()[k] == sources0[index_of_url(
                    urls0,
                    raw.deep_view()[k],
                )],
        decreases n - i,
    {
        proof {
            assert(urls0.take(i + 1).drop_last() =~= urls0.take(i as int));
            assert(urls0.take(i + 1).last() == urls0[i as int]);
            assert(image_urls.deep_view()[i as int] == image_urls@[i as int]@);
        }
        let u = &image_urls[i];
        let seen = contains_url(&raw, u.as_str());
        if !seen {
            proof {
                lemma_dedup_props(urls0.take(i as int));
                assert forall|j: int| 0 <= j < i implies urls0[j] != u@ by {
                    assert(urls0.take(i as int)[j] == urls0[j]);
                    assert(dedup_urls_spec(urls0.take(i as int)).contains(urls0.take(i as int)[j]));
                }
                lemma_index_of_found(urls0, u@, i as int);
            }
            let e = get_ext(u.as_str());
            let ghost rpre = raw.deep_view();
            let ghost epre = exts.deep_view();
            let ghost spre = srcs.deep_view();
            let uc = u.clone();
            raw.push(uc);
            let sc = image_sources[i].clone();
            srcs.push(sc);
            exts.push(e);
            proof {
                assert(raw.deep_view() =~= rpre.push(raw.deep_view().last()));
                assert(exts.deep_view() =~= epre.push(exts.deep_view().last()));
                assert(srcs.deep_view() =~= spre.push(srcs.deep_view().last()));
            }
        }
        i += 1;
    }
    proof {
        assert(urls0.take(n as int) =~= urls0);
        assert(raw.deep_view() == ded);
    }
    let mut normd: Vec<String> = Vec::new();
    let m = raw.len();
    let mut k: usize = 0;
    while k < m
        invariant
            k <= m,
            m == raw@.len(),
            normd@.len() == k,
            forall|j: int|
                0 <= j < k ==> #[trigger] normd.deep_view()[j] == normalize_url(
                    raw.deep_view()[j],
                ),
        decreases m - k,
    {
        proof {
            assert(raw.deep_view()[k as int] == raw@[k as int]@);
        }
        let nu = normalize_url_exec(raw[k].as_str());
        let ghost pre = normd.deep_view();
        normd.push(nu);
        proof {
            assert(normd.deep_view() =~= pre.push(normd.deep_view().last()));
        }
        k += 1;
    }
    let mut out_chapters: Vec<Vec<ContentBlock>> = Vec::new();
    let nc = chapters_raw.len();
    let mut c: usize = 0;
    while c < nc
        invariant
            c <= nc,
            nc == chapters_raw@.len(),
            raw.deep_view() == ded,
            ded == dedup_urls_spec(urls0),
            blocks_urls_covered(chapters_raw.deep_view(), urls0),
            forall|i2: int| 0 <= i2 < urls0.len() ==> ded.contains(#[trigger] urls0[i2]),
            out_chapters@.len() == c,
            forall|c2: int|
                0 <= c2 < c ==> #[trigger] out_chapters.deep_view()[c2].len()
                    == chapters_raw.deep_view()[c2].len(),
            forall|c2: int, b: int|
                0 <= c2 < c && 0 <= b < chapters_raw.deep_view()[c2].len() ==> block_mapped(
                    #[trigger] out_chapters.deep_view()[c2][b],
                    chapters_raw.deep_view()[c2][b],
                    ded,
                ),
        decreases nc - c,
    {
        let chapter = &chapters_raw[c];
        let ghost chv = chapter.deep_view();
        let mut outc: Vec<ContentBlock> = Vec::new();
        let nb = chapter.len();
        let mut b: usize = 0;
        while b < nb
            invariant
                b <= nb,
                nb == chapter@.len(),
                chv == chapter.deep_view(),
                chv == chapters_raw.deep_view()[c as int],
                c < chapters_raw@.len(),
                raw.deep_view() == ded,
                ded == dedup_urls_spec(urls0),
                blocks_urls_covered(chapters_raw.deep_view(), urls0),
                forall|i2: int| 0 <= i2 < urls0.len() ==> ded.contains(#[trigger] urls0[i2]),
                outc@.len() == b,
                forall|b2: int|
                    0 <= b2 < b ==> block_mapped(
                        #[trigger] outc.deep_view()[b2],
                        chv[b2],
                        ded,
                    ),
            decreases nb - b,
        {
            let nblock: ContentBlock = match &chapter[b] {
                Content::Text(t) => ContentBlock::Text(t.clone()),
                Content::Tag(t) => ContentBlock::Text(t.clone()),
                Content::Image(u) => {
                    proof {
                        assert(chv[b as int] matches ContentV::Image(uv) && urls0.contains(uv));
                        let i0 = choose|i0: int| 0 <= i0 < urls0.len() && urls0[i0] == u@;
                        assert(ded.contains(urls0[i0]));
                        lemma_index_of_contains(ded, u@);
                    }
                    match index_of_url_exec(&raw, u.as_str()) {
                        Some(ix) => ContentBlock::Image(ix),
                        None => {
                            proof {
                                assert(false);
                            }
                            ContentBlock::Image(0)
                        },
                    }
                },
            };
            let ghost pre = outc.deep_view();
            outc.push(nblock);
            proof {
                assert(outc.deep_view() =~= pre.push(outc.deep_view().last()));
            }
            b += 1;
        }
        let ghost preo = out_chapters.deep_view();
        out_chapters.push(outc);
        proof {
            assert(out_chapters.deep_view() =~= preo.push(out_chapters.deep_view().last()));
        }
        c += 1;
    }
    *image_urls = normd;
    *image_exts = exts;
    *image_sources = srcs;
    *chapters = out_chapters;
    proof {
        assert(final(image_urls).deep_view() =~= Seq::new(
            ded.len(),
            |k2: int| normalize_url(ded[k2]),
        ));
        assert(final(image_exts).deep_view() =~= Seq::new(
            ded.len(),
            |k2: int| spec_get_ext(ded[k2]),
        ));
        assert(final(image_sources).deep_view() =~= Seq::new(
            ded.len(),
            |k2: int| sources0[index_of_url(urls0, ded[k2])],
        ));
    }
}

/// Law: a URL referenced twice in one chapter's raw blocks resolves both
/// times to the same image index; that index names the URL's single entry
/// in the deduplicated list.
pub proof fn lemma_dedup_invariant(
    urls: Seq<Seq<char>>,
    out1: ContentBlockV,
    out2: ContentBlockV,
    u: Seq<char>,
)
    requires
        urls.contains(u),
        block_mapped(out1, ContentV::Image(u), dedup_urls_spec(urls)),
        block_mapped(out2, ContentV::Image(u), dedup_urls_spec(urls)),
    ensures
        out1 == out2,
        ({
            let ded = dedup_urls_spec(urls);
            &&& out1 matches ContentBlockV::Image(ix) && 0 <= ix < ded.len() && ded[ix as int]
                == u
            &&& forall|j1: int, j2: int|
                0 <= j1 < ded.len() && 0 <= j2 < ded.len() && ded[j1] == u && ded[j2] == u ==> j1
                    == j2
        }),
{
    let ded = dedup_urls_spec(urls);
    lemma_dedup_props(urls);
    let i0 = choose|i0: int| 0 <= i0 < urls.len() && urls[i0] == u;
    assert(ded.contains(urls[i0]));
    lemma_index_of_contains(ded, u);
    let ix = index_of_url(ded, u);
    assert forall|j1: int, j2: int|
        0 <= j1 < ded.len() && 0 <= j2 < ded.len() && ded[j1] == u && ded[j2] == u implies j1
        == j2 by {
        if j1 != j2 {
            assert(ded[j1] != ded[j2]);
        }
    }
    assert(out1 matches ContentBlockV::Image(x1) && x1 as int == ix);
    assert(out2 matches ContentBlockV::Image(x2) && x2 as int == ix);
}


/// A chapter whose rendered body is nothing but line-break markers: every
/// block is an empty text run (an empty chapter counts).
pub open spec fn chapter_only_breaks(ch: Seq<ContentBlockV>) -> bool {
    forall|b: int|
        0 <= b < ch.len() ==> (#[trigger] ch[b] matches ContentBlockV::Text(t) && t.len() == 0)
}

/// The chapters and titles with the only-line-break chapters removed, the
/// two lists kept co-indexed.
pub open spec fn prune_spec(chs: Seq<Seq<ContentBlockV>>, ts: Seq<Seq<char>>) -> (
    Seq<Seq<ContentBlockV>>,
    Seq<Seq<char>>,
)
    decreases chs.len(),
{
    if chs.len() == 0 {
        (Seq::empty(), Seq::empty())
    } else {
        let pre = prune_spec(chs.drop_last(), ts.drop_last());
        if chapter_only_breaks(chs.last()) {
            pre
        } else {
            (pre.0.push(chs.last()), pre.1.push(ts.last()))
        }
    }
}

/// Law: pruning removes exactly the only-line-break chapters: the final
/// lists stay equally long and co-indexed, no kept chapter is empty, every
/// kept pair comes from the input, and every non-empty input pair is kept.
pub proof fn lemma_prune_invariant(chs: Seq<Seq<ContentBlockV>>, ts: Seq<Seq<char>>)
    requires
        chs.len() == ts.len(),
    ensures
        prune_spec(chs, ts).0.len() == prune_spec(chs, ts).1.len(),
        forall|k: int|
            0 <= k < prune_spec(chs, ts).0.len() ==> !chapter_only_breaks(
                #[trigger] prune_spec(chs, ts).0[k],
            ),
        forall|k: int|
            0 <= k < prune_spec(chs, ts).0.len() ==> exists|i: int|
                0 <= i < chs.len() && chs[i] == #[trigger] prune_spec(chs, ts).0[k] && ts[i]
                    == prune_spec(chs, ts).1[k],
        forall|i: int|
            0 <= i < chs.len() && !chapter_only_breaks(#[trigger] chs[i]) ==> exists|k: int|
                0 <= k < prune_spec(chs, ts).0.len() && prune_spec(chs, ts).0[k] == chs[i]
                    && prune_spec(chs, ts).1[k] == ts[i],
    decreases chs.len(),
{
    if chs.len() > 0 {
        let ct = chs.drop_last();
        let tt = ts.drop_last();
        lemma_prune_invariant(ct, tt);
        let pre = prune_spec(ct, tt);
        let cur = prune_spec(chs, ts);
        assert forall|k: int|
            0 <= k < cur.0.len() implies exists|i: int|
            0 <= i < chs.len() && chs[i] == #[trigger] cur.0[k] && ts[i] == cur.1[k] by {
            if k < pre.0.len() {
                let i = choose|i: int|
                    0 <= i < ct.len() && ct[i] == pre.0[k] && tt[i] == pre.1[k];
                assert(chs[i] == cur.0[k] && ts[i] == cur.1[k]);
            } else {
                assert(chs[chs.len() - 1] == cur.0[k] && ts[ts.len() - 1] == cur.1[k]);
            }
        }
        assert forall|i: int|
            0 <= i < chs.len() && !chapter_only_breaks(#[trigger] chs[i]) implies exists|k: int|
            0 <= k < cur.0.len() && cur.0[k] == chs[i] && cur.1[k] == ts[i] by {
            if i < chs.len() - 1 {
                assert(ct[i] == chs[i] && tt[i] == ts[i]);
                let k = choose|k: int|
                    0 <= k < pre.0.len() && pre.0[k] == ct[i] && pre.1[k] == tt[i];
                assert(cur.0[k] == chs[i] && cur.1[k] == ts[i]);
            } else {
                assert(cur.0[cur.0.len() - 1] == chs[i] && cur.1[cur.1.len() - 1] == ts[i]);
            }
        }
    }
}

fn chapter_is_only_breaks(ch: &Vec<ContentBlock>) -> (r: bool)
    ensures
        r == chapter_only_breaks(ch.deep_view()),
{
    let n = ch.len();
    let mut b: usize = 0;
    while b < n
        invariant
            b <= n,
            n == ch@.len(),
            forall|k: int|
                0 <= k < b ==> (#[trigger] ch.deep_view()[k] matches ContentBlockV::Text(t)
                    && t.len() == 0),
        decreases n - b,
    {
        let empty = match &ch[b] {
            ContentBlock::Text(t) => t.as_str().is_empty(),
            ContentBlock::Image(_) => false,
        };
        if !empty {
            proof {
                assert(!(ch.deep_view()[b as int] matches ContentBlockV::Text(t) && t.len()
                    == 0));
            }
            return false;
        }
        b += 1;
    }
    true
}

fn duplicate_block(b: &ContentBlock) -> (r: ContentBlock)
    ensures
        r@ == b@,
{
    match b {
        ContentBlock::Text(t) => ContentBlock::Text(t.clone()),
        ContentBlock::Image(i) => ContentBlock::Image(*i),
    }
}

fn duplicate_chapter(ch: &Vec<ContentBlock>) -> (r: Vec<ContentBlock>)
    ensures
        r.deep_view() == ch.deep_view(),
{
    let mut out: Vec<ContentBlock> = Vec::new();
    let n = ch.len();
    let mut b: usize = 0;
    while b < n
        invariant
            b <= n,
            n == ch@.len(),
            out@.len() == b,
            forall|k: int| 0 <= k < b ==> #[trigger] out.deep_view()[k] == ch.deep_view()[k],
        decreases n - b,
    {
        let nb = duplicate_block(&ch[b]);
        let ghost pre = out.deep_view();
        out.push(nb);
        proof {
            assert(out.deep_view() =~= pre.push(out.deep_view().last()));
        }
        b += 1;
    }
    proof {
        assert(out.deep_view() =~= ch.deep_view());
    }
    out
}

/// Removes every chapter whose body is only line-break markers, from the
/// chapter list and the title list alike, keeping the two co-indexed.
pub fn prune_empty_chapters(chapters: &mut Vec<Vec<ContentBlock>>, chapter_titles: &mut Vec<String>)
    requires
        old(chapters)@.len() == old(chapter_titles)@.len(),
    ensures
        final(chapters).deep_view() == prune_spec(
            old(chapters).deep_view(),
            old(chapter_titles).deep_view(),
        ).0,
        final(chapter_titles).deep_view() == prune_spec(
            old(chapters).deep_view(),
            old(chapter_titles).deep_view(),
        ).1,
{
    let ghost chs0 = chapters.deep_view();
    let ghost ts0 = chapter_titles.deep_view();
    let mut kept_chapters: Vec<Vec<ContentBlock>> = Vec::new();
    let mut kept_titles: Vec<String> = Vec::new();
    let n = chapters.len();
    let mut i: usize = 0;
    while i < n
        invariant
            i <= n,
            n == chs0.len(),
            n == ts0.len(),
            chs0 == chapters.deep_view(),
            ts0 == chapter_titles.deep_view(),
            chapters@.len() == n,
            chapter_titles@.len() == n,
            kept_chapters.deep_view() == prune_spec(
                chs0.take(i as int),
                ts0.take(i as int),
            ).0,
            kept_titles.deep_view() == prune_spec(chs0.take(i as int), ts0.take(i as int)).1,
        decreases n - i,
    {
        proof {
            assert(chs0.take(i + 1).drop_last() =~= chs0.take(i as int));
            assert(ts0.take(i + 1).drop_last() =~= ts0.take(i as int));
            assert(chs0.take(i + 1).last() == chs0[i as int]);
            assert(ts0.take(i + 1).last() == ts0[i as int]);
        }
        let keep = !chapter_is_only_breaks(&chapters[i]);
        if keep {
            let ch = duplicate_chapter(&chapters[i]);
            let t = chapter_titles[i].clone();
            let ghost pc = kept_chapters.deep_view();
            let ghost pt = kept_titles.deep_view();
            kept_chapters.push(ch);
            kept_titles.push(t);
            proof {
                assert(kept_chapters.deep_view() =~= pc.push(kept_chapters.deep_view().last()));
                assert(kept_titles.deep_view() =~= pt.push(kept_titles.deep_view().last()));
            }
        }
        i += 1;
    }
    proof {
        assert(chs0.take(n as int) =~= chs0);
        assert(ts0.take(n as int) =~= ts0);
    }
    *chapters = kept_chapters;
    *chapter_titles = kept_titles;
}


/// The text blocks of a chapter, in order.
pub open spec fn texts_of(ch: Seq<ContentV>) -> Seq<ContentV>
    decreases ch.len(),
{
    if ch.len() == 0 {
        Seq::empty()
    } else {
        let pre = texts_of(ch.drop_last());
        if ch.last() is Text {
            pre.push(ch.last())
        } else {
            pre
        }
    }
}

/// The non-text blocks of a chapter (its images), in order.
pub open spec fn nontexts_of(ch: Seq<ContentV>) -> Seq<ContentV>
    decreases ch.len(),
{
    if ch.len() == 0 {
        Seq::empty()
    } else {
        let pre = nontexts_of(ch.drop_last());
        if ch.last() is Text {
            pre
        } else {
            pre.push(ch.last())
        }
    }
}

/// Some text block of the caption runs is non-empty.
pub open spec fn has_nonblank(info: Seq<ContentV>) -> bool {
    exists|i: int|
        0 <= i < info.len() && (#[trigger] info[i] matches ContentV::Text(t) && t.len() > 0)
}

/// The cover URL for a volume without a color page: the volume's own
/// cover, else the book's, else empty.
pub open spec fn spec_cover_url(volume_cover: Option<Seq<char>>, book_cover: Option<Seq<char>>)
    -> Seq<char> {
    match volume_cover {
        Option::Some(u) => u,
        Option::None => match book_cover {
            Option::Some(u) => u,
            Option::None => Seq::empty(),
        },
    }
}

fn partition_chapter(ch: &Vec<Content>) -> (r: (Vec<Content>, Vec<Content>))
    ensures
        r.0.deep_view() == texts_of(ch.deep_view()),
        r.1.deep_view() == nontexts_of(ch.deep_view()),
{
    let ghost chv = ch.deep_view();
    let mut info: Vec<Content> = Vec::new();
    let mut imgs: Vec<Content> = Vec::new();
    let n = ch.len();
    let mut i: usize = 0;
    while i < n
        invariant
            i <= n,
            n == ch@.len(),
            chv == ch.deep_view(),
            info.deep_view() == texts_of(chv.take(i as int)),
            imgs.deep_view() == nontexts_of(chv.take(i as int)),
        decreases n - i,
    {
        proof {
            assert(chv.take(i + 1).drop_last() =~= chv.take(i as int));
            assert(chv.take(i + 1).last() == chv[i as int]);
        }
        let blk = &ch[i];
        let is_text = matches!(blk, Content::Text(_));
        if is_text {
            let ghost pre = info.deep_view();
            let d = blk.duplicate();
            info.push(d);
            proof {
                assert(info.deep_view() =~= pre.push(info.deep_view().last()));
            }
        } else {
            let ghost pre = imgs.deep_view();
            let d = blk.duplicate();
            imgs.push(d);
            proof {
                assert(imgs.deep_view() =~= pre.push(imgs.deep_view().last()));
            }
        }
        i += 1;
    }
    proof {
        assert(chv.take(n as int) =~= chv);
    }
    (info, imgs)
}

fn has_nonblank_exec(info: &Vec<Content>) -> (r: bool)
    ensures
        r == has_nonblank(info.deep_view()),
{
    let n = info.len();
    let mut i: usize = 0;
    while i < n
        invariant
            i <= n,
            n == info@.len(),
            forall|k: int|
                0 <= k < i ==> !(#[trigger] info.deep_view()[k] matches ContentV::Text(t)
                    && t.len() > 0),
        decreases n - i,
    {
        let blk = &info[i];
        if blk.is_text() && !blk.is_empty() {
            proof {
                assert(info.deep_view()[i as int] matches ContentV::Text(t) && t.len() > 0);
            }
            return true;
        }
        i += 1;
    }
    false
}

/// Reshapes a volume whose first chapter is the illustration gallery. That
/// chapter is renamed to the color page and its images become its body;
/// its leading caption text, when any line is non-blank, becomes a
/// prepended info chapter; a gallery without images is dropped and the
/// volume or book cover is prepended to the image list instead. A volume
/// without a gallery only has its cover prepended.
pub fn assemble_color_page(
    chapters_raw: &mut Vec<Vec<Content>>,
    chapter_titles: &mut Vec<String>,
    image_urls: &mut Vec<String>,
    image_sources: &mut Vec<String>,
    volume_cover: &Option<String>,
    book_cover: &Option<String>,
    base_url: &str,
)
    requires
        old(chapter_titles)@.len() > 0,
        old(chapters_raw)@.len() == old(chapter_titles)@.len(),
    ensures
        ({
            let chs0 = old(chapters_raw).deep_view();
            let ts0 = old(chapter_titles).deep_view();
            let urls0 = old(image_urls).deep_view();
            let srcs0 = old(image_sources).deep_view();
            let cover = spec_cover_url(volume_cover.deep_view(), book_cover.deep_view());
            if ts0[0] == "插图"@ {
                let info = texts_of(chs0[0]);
                let imgs = nontexts_of(chs0[0]);
                if imgs.len() == 0 {
                    &&& final(chapters_raw).deep_view() == chs0.drop_first()
                    &&& final(chapter_titles).deep_view() == ts0.drop_first()
                    &&& final(image_urls).deep_view() == seq![cover] + urls0
                    &&& final(image_sources).deep_view() == seq![base_url@] + srcs0
                } else {
                    let body = imgs.drop_first();
                    let rest = chs0.drop_first();
                    let ts_renamed = seq!["彩页"@] + ts0.drop_first();
                    &&& final(image_urls).deep_view() == urls0
                    &&& final(image_sources).deep_view() == srcs0
                    &&& (if has_nonblank(info) {
                        final(chapters_raw).deep_view() == seq![info, body] + rest
                            && final(chapter_titles).deep_view() == seq!["信息"@] + ts_renamed
                    } else {
                        final(chapters_raw).deep_view() == seq![body] + rest
                            && final(chapter_titles).deep_view() == ts_renamed
                    })
                }
            } else {
                &&& final(chapters_raw).deep_view() == chs0
                &&& final(chapter_titles).deep_view() == ts0
                &&& final(image_urls).deep_view() == seq![cover] + urls0
                &&& final(image_sources).deep_view() == seq![base_url@] + srcs0
            }
        }),
{
    let ghost chs0 = chapters_raw.deep_view();
    let ghost ts0 = chapter_titles.deep_view();
    let ghost urls0 = image_urls.deep_view();
    let ghost srcs0 = image_sources.deep_view();
    proof {
        assert(chapter_titles.deep_view()[0] == chapter_titles@[0]@);
    }
    if crate::text::str_eq(chapter_titles[0].as_str(), "插图") {
        let color = chapters_raw.remove(0);
        proof {
            assert(chapters_raw.deep_view() =~= chs0.drop_first());
            assert(color.deep_view() == chs0[0]);
        }
        let (info, imgs) = partition_chapter(&color);
        if imgs.len() == 0 {
            let _dropped = chapter_titles.remove(0);
            proof {
                assert(chapter_titles.deep_view() =~= ts0.drop_first());
            }
            let cover = cover_url(volume_cover, book_cover);
            image_urls.insert(0, cover);
            image_sources.insert(0, base_url.to_owned());
            proof {
                assert(image_urls.deep_view() =~= seq![
                    spec_cover_url(volume_cover.deep_view(), book_cover.deep_view()),
                ] + urls0);
                assert(image_sources.deep_view() =~= seq![base_url@] + srcs0);
            }
        } else {
            chapter_titles[0] = String::from_str("彩页");
            proof {
                assert(chapter_titles.deep_view() =~= seq!["彩页"@] + ts0.drop_first());
            }
            let mut body = imgs;
            let _first_img = body.remove(0);
            proof {
                assert(body.deep_view() =~= nontexts_of(chs0[0]).drop_first());
            }
            chapters_raw.insert(0, body);
            proof {
                assert(chapters_raw.deep_view() =~= seq![nontexts_of(chs0[0]).drop_first()]
                    + chs0.drop_first());
            }
            if has_nonblank_exec(&info) {
                chapters_raw.insert(0, info);
                chapter_titles.insert(0, String::from_str("信息"));
                proof {
                    assert(chapters_raw.deep_view() =~= seq![
                        texts_of(chs0[0]),
                        nontexts_of(chs0[0]).drop_first(),
                    ] + chs0.drop_first());
                    assert(chapter_titles.deep_view() =~= seq!["信息"@] + (seq!["彩页"@]
                        + ts0.drop_first()));
                }
            }
        }
    } else {
        let cover = cover_url(volume_cover, book_cover);
        image_urls.insert(0, cover);
        image_sources.insert(0, base_url.to_owned());
        proof {
            assert(image_urls.deep_view() =~= seq![
                spec_cover_url(volume_cover.deep_view(), book_cover.deep_view()),
            ] + urls0);
            assert(image_sources.deep_view() =~= seq![base_url@] + srcs0);
        }
    }
}

fn cover_url(volume_cover: &Option<String>, book_cover: &Option<String>) -> (r: String)
    ensures
        r@ == spec_cover_url(volume_cover.deep_view(), book_cover.deep_view()),
{
    match volume_cover {
        Option::Some(u) => u.clone(),
        Option::None => match book_cover {
            Option::Some(u) => u.clone(),
            Option::None => String::new(),
        },
    }
}


/// The numbered presets a template setting can name; any other setting is
/// itself the template.
pub open spec fn preset_template(t: Seq<char>) -> Seq<char> {
    if t == "0"@ {
        "{{book_title}}-{{chapter_title}}"@
    } else if t == "1"@ {
        "{{book_title}}-[{{chapter_number}}]{{chapter_title}}"@
    } else if t == "2"@ {
        "[{{chapter_number}}]{{chapter_title}}"@
    } else if t == "3"@ {
        "[{{chapter_number:2}}]{{chapter_title}}"@
    } else {
        t
    }
}

/// The width a `{{chapter_number:N}}` token asks for: the digits' value,
/// or 1 when it does not fit the machine.
pub open spec fn spec_token_width(digits: Seq<char>) -> nat {
    if dec_val(digits) <= usize::MAX {
        dec_val(digits)
    } else {
        1
    }
}

/// `s` with every well-formed `{{chapter_number:N}}` token replaced by the
/// volume number zero-padded to `N` digits, scanning left to right; a
/// malformed token is left as it stands.
pub open spec fn spec_render_width(s: Seq<char>, num: Seq<char>) -> Seq<char>
    decreases s.len(),
{
    let t = first_match(s, "{{chapter_number:"@);
    if t < 0 || !match_at(s, "{{chapter_number:"@, t) {
        s
    } else {
        let start = t + "{{chapter_number:"@.len();
        let e = first_index_from(s, '}', start);
        if e + 1 < s.len() && s[e + 1] == '}' && e > start && all_digits(s.subrange(start, e)) {
            s.subrange(0, t) + crate::text::pad_zeros(num, spec_token_width(s.subrange(start, e)))
                + spec_render_width(s.subrange(e + 2, s.len() as int), num)
        } else if start > 0 {
            s.subrange(0, start) + spec_render_width(s.subrange(start, s.len() as int), num)
        } else {
            s
        }
    }
}

fn all_digits_exec(s: &str) -> (r: bool)
    ensures
        r == all_digits(s@),
{
    let n = s.unicode_len();
    let mut i: usize = 0;
    while i < n
        invariant
            i <= n,
            n == s@.len(),
            forall|k: int| 0 <= k < i ==> crate::text::is_digit(#[trigger] s@[k]),
        decreases n - i,
    {
        let u = s.get_char(i) as u32;
        if u < 48 || u > 57 {
            return false;
        }
        i += 1;
    }
    true
}

/// Replaces every well-formed `{{chapter_number:N}}` token with the
/// zero-padded volume number.
pub fn render_width_tokens(s: &str, num: &str) -> (r: String)
    ensures
        r@ == spec_render_width(s@, num@),
    decreases s@.len(),
{
    let marker = "{{chapter_number:";
    proof {
        reveal_strlit("{{chapter_number:");
    }
    let mlen = marker.unicode_len();
    let slen = s.unicode_len();
    match find_str(s, marker) {
        None => {
            proof {
                crate::text::lemma_no_match(s@, marker@);
            }
            s.to_owned()
        },
        Some(t) => {
            proof {
                crate::text::lemma_first_match(s@, marker@, t as int);
            }
            let start = t + mlen;
            let e: usize = match find_char_from(s, '}', start) {
                Some(i) => {
                    proof {
                        lemma_first_index_some(s@, '}', start as int, i as int);
                    }
                    i
                },
                None => {
                    proof {
                        lemma_first_index_none(s@, '}', start as int);
                    }
                    slen
                },
            };
            let digits = substring(s, start, if e < slen {
                e
            } else {
                slen
            });
            let well_formed = e < slen && e + 1 < slen && s.get_char(e + 1) == '}' && e > start
                && digits.as_str().unicode_len() > 0 && all_digits_exec(digits.as_str());
            if well_formed {
                let width: usize = match crate::text::parse_u64_str(digits.as_str()) {
                    Some(v) => {
                        if v <= usize::MAX as u64 {
                            v as usize
                        } else {
                            1
                        }
                    },
                    None => 1,
                };
                proof {
                    assert(width as nat == spec_token_width(s@.subrange(
                        start as int,
                        e as int,
                    )));
                }
                let mut out = substring(s, 0, t);
                let padded = crate::text::pad_zeros_str(num, width);
                out.append(padded.as_str());
                let rest = substring(s, e + 2, slen);
                let tail = render_width_tokens(rest.as_str(), num);
                out.append(tail.as_str());
                out
            } else {
                let mut out = substring(s, 0, start);
                let rest = substring(s, start, slen);
                let tail = render_width_tokens(rest.as_str(), num);
                out.append(tail.as_str());
                out
            }
        },
    }
}

/// The full save path of one volume's file:
/// `{output}/{sanitized book title}/{rendered template}.epub`, with the
/// template tokens `{{chapter_number[:width]}}`, `{{book_title}}`,
/// `{{chapter_title}}` and `{{volume_no}}` filled in and the characters
/// illegal in file names stripped.
pub open spec fn spec_save_path(
    output: Seq<char>,
    template: Seq<char>,
    book_title: Seq<char>,
    chapter_title: Seq<char>,
    vol: Seq<char>,
) -> Seq<char> {
    let t0 = preset_template(template);
    let t1 = spec_render_width(t0, vol);
    let t2 = crate::text::replace_spec(t1, "{{chapter_number}}"@, vol);
    let t3 = crate::text::replace_spec(t2, "{{book_title}}"@, book_title);
    let t4 = crate::text::replace_spec(t3, "{{chapter_title}}"@, chapter_title);
    let t5 = crate::text::replace_spec(t4, "{{volume_no}}"@, vol);
    let dir = crate::utils::remove_invalid_spec(book_title);
    let file = crate::utils::remove_invalid_spec(t5);
    output + "/"@ + dir + "/"@ + file + ".epub"@
}

/// Renders the save path of one volume's file.
pub fn get_save_path(
    output: &str,
    template: &str,
    book_title: &str,
    chapter_title: &str,
    volume_no: &str,
) -> (r: String)
    ensures
        r@ == spec_save_path(output@, template@, book_title@, chapter_title@, volume_no@),
{
    let preset: &str = if crate::text::str_eq(template, "0") {
        "{{book_title}}-{{chapter_title}}"
    } else if crate::text::str_eq(template, "1") {
        "{{book_title}}-[{{chapter_number}}]{{chapter_title}}"
    } else if crate::text::str_eq(template, "2") {
        "[{{chapter_number}}]{{chapter_title}}"
    } else if crate::text::str_eq(template, "3") {
        "[{{chapter_number:2}}]{{chapter_title}}"
    } else {
        template
    };
    let t1 = render_width_tokens(preset, volume_no);
    proof {
        reveal_strlit("{{chapter_number}}");
        reveal_strlit("{{book_title}}");
        reveal_strlit("{{chapter_title}}");
        reveal_strlit("{{volume_no}}");
    }
    let t2 = crate::text::replace_all(t1.as_str(), "{{chapter_number}}", volume_no);
    let t3 = crate::text::replace_all(t2.as_str(), "{{book_title}}", book_title);
    let t4 = crate::text::replace_all(t3.as_str(), "{{chapter_title}}", chapter_title);
    let t5 = crate::text::replace_all(t4.as_str(), "{{volume_no}}", volume_no);
    let dir = crate::utils::remove_invalid_chars(book_title);
    let file = crate::utils::remove_invalid_chars(t5.as_str());
    let mut out = output.to_owned();
    out.append("/");
    out.append(dir.as_str());
    out.append("/");
    out.append(file.as_str());
    out.append(".epub");
    proof {
        assert(out@ =~= spec_save_path(output@, template@, book_title@, chapter_title@,
            volume_no@));
    }
    out
}

} // verus!
