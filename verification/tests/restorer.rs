//! The paragraph restorer: round trips, the keep-order threshold, and the
//! worked example with chapter id 2.

use epub_download::model::Content;
use epub_download::paragraph_restorer::ParagraphRestorer;

fn texts(n: usize, prefix: &str) -> Vec<Content> {
    let mut v = Vec::new();
    for i in 0..n {
        v.push(Content::Text(format!("{}{}", prefix, i)));
    }
    v
}

#[test]
fn generate_seed_formula() {
    assert_eq!(ParagraphRestorer::generate_seed(2), 2 * 0x89 + 0xE9);
    assert_eq!(ParagraphRestorer::generate_seed(2), 507);
    assert_eq!(ParagraphRestorer::generate_seed(507), 507 * 0x89 + 0xE9);
}

#[test]
fn restore_keeps_short_chapters() {
    // at most 19 qualifying text blocks: the input comes back unchanged
    let restorer = ParagraphRestorer::new(77);
    let blocks = texts(19, "p");
    let restored = restorer.restore(texts(19, "p"));
    assert_eq!(restored, blocks);

    let mut mixed = texts(10, "x");
    mixed.insert(3, Content::Image(String::from("http://img/1.jpg")));
    mixed.insert(7, Content::Text(String::new()));
    let expected = mixed.clone();
    let restored = restorer.restore(mixed);
    assert_eq!(restored, expected);
}

#[test]
fn restore_round_trip_many_sizes() {
    // shuffling with the site's generator and restoring is the identity
    for &(chapter_id, n) in &[(2u64, 25usize), (2, 20), (7, 40), (123456, 33), (1, 100)] {
        let restorer = ParagraphRestorer::new(chapter_id);
        let original = texts(n, "para-");
        let shuffled = restorer.shuffle(texts(n, "para-"));
        let restored = restorer.restore(shuffled);
        assert_eq!(restored, original, "chapter {} with {} blocks", chapter_id, n);
    }
}

#[test]
fn shuffle_moves_the_tail_and_keeps_the_head() {
    let restorer = ParagraphRestorer::new(2);
    let original = texts(25, "p");
    let shuffled = restorer.shuffle(texts(25, "p"));
    assert_eq!(shuffled.len(), original.len());
    // the first 19 qualifying blocks never move
    for i in 0..19 {
        assert_eq!(shuffled[i], original[i]);
    }
    // with chapter id 2 the tail of 6 really is reordered
    assert_ne!(shuffled, original);
}

#[test]
fn worked_example_chapter_two() {
    // chapterId = 2, 25 qualifying paragraphs, seed 2*0x89+0xE9 = 507:
    // the forward permutation followed by restore reproduces the original
    // order strictly
    assert_eq!(2 * 0x89 + 0xE9, 507);
    let restorer = ParagraphRestorer::new(2);
    let original = texts(25, "paragraph ");
    let shuffled = restorer.shuffle(texts(25, "paragraph "));
    let restored = restorer.restore(shuffled);
    for i in 0..25 {
        assert_eq!(restored[i], original[i], "position {}", i);
    }
}

#[test]
fn round_trip_with_markers_between_paragraphs() {
    // line-break markers and images keep their places through the round trip
    let restorer = ParagraphRestorer::new(42);
    let mut original = Vec::new();
    for i in 0..30 {
        original.push(Content::Text(format!("t{}", i)));
        if i % 5 == 0 {
            original.push(Content::Text(String::new()));
        }
        if i % 7 == 0 {
            original.push(Content::Image(format!("http://img/{}.jpg", i)));
        }
    }
    let copy = original.clone();
    let shuffled = restorer.shuffle(copy);
    for (i, b) in shuffled.iter().enumerate() {
        match b {
            Content::Image(_) => assert_eq!(*b, original[i]),
            Content::Text(t) if t.is_empty() => assert_eq!(*b, original[i]),
            _ => {}
        }
    }
    let restored = restorer.restore(shuffled);
    assert_eq!(restored, original);
}

#[test]
fn restore_with_index_reorders() {
    let text = vec![
        Content::Text(String::from("a")),
        Content::Text(String::from("b")),
        Content::Text(String::from("c")),
    ];
    let restored = ParagraphRestorer::restore_with_index(text, vec![2, 0, 1]);
    assert_eq!(
        restored,
        vec![
            Content::Text(String::from("c")),
            Content::Text(String::from("a")),
            Content::Text(String::from("b")),
        ]
    );
}
