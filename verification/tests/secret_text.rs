//! The substitution decoder and the trailing-block decode step.

use epub_download::model::Content;
use epub_download::secret::{apply_secret_decode, needs_decode, SecretDecoder};

fn table() -> SecretDecoder {
    // a small closed table: ciphers and plains permute {a, b, c}
    SecretDecoder::new(vec![('a', 'b'), ('b', 'c'), ('c', 'a')])
}

#[test]
fn decode_maps_through_the_table() {
    let d = table();
    assert_eq!(d.decode("abc xyz"), "bca xyz");
    assert_eq!(d.decode(""), "");
}

#[test]
fn decode_inverts_encode() {
    let d = table();
    for s in ["", "abc", "the quick brown fox", "cabbage", "混合 abc 文本"] {
        let encoded = d.encode(s);
        assert_eq!(d.decode(&encoded), s, "round trip of {:?}", s);
    }
    // and the encoding really changes encoded text
    assert_ne!(d.encode("abc"), "abc");
}

#[test]
fn marker_detection() {
    assert!(needs_decode("<span style='font-family: \"read\"'>x</span>"));
    assert!(!needs_decode("<span>plain</span>"));
}

#[test]
fn apply_decodes_only_the_last_eligible_block() {
    let d = table();
    let mut blocks = vec![
        Content::Text(String::from("abc first")),
        Content::Image(String::from("http://i/x.jpg")),
        Content::Text(String::from("abc last")),
        Content::Text(String::new()),
        Content::Text(String::from("<br/>")),
    ];
    apply_secret_decode(&mut blocks, &d);
    assert_eq!(
        blocks,
        vec![
            Content::Text(String::from("abc first")),
            Content::Image(String::from("http://i/x.jpg")),
            Content::Text(String::from("bca lbst")),
            Content::Text(String::new()),
            Content::Text(String::from("<br/>")),
        ]
    );
}

#[test]
fn apply_leaves_chapters_without_targets_alone() {
    let d = table();
    let mut blocks = vec![
        Content::Image(String::from("http://i/x.jpg")),
        Content::Text(String::new()),
    ];
    let expected = blocks.clone();
    apply_secret_decode(&mut blocks, &d);
    assert_eq!(blocks, expected);
}
