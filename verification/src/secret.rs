//! The glyph-substitution decoder. The site serves some trailing chapter
//! text through a substitution font flagged by a `font-family` marker; the
//! exact table is site-specific, so the decoder is a value: a list of
//! (cipher, plain) character pairs, validated against known pairs rather
//! than assumed. Decoding is deterministic, and reversible for a
//! well-formed table.

use vstd::prelude::*;
use vstd::string::*;

use crate::model::{Content, ContentV};
use crate::text::{contains_str, contains_sub, push_char};

verus! {

/// The position of the first pair whose cipher character is `x`, or -1.
pub open spec fn find_by_cipher(pairs: Seq<(char, char)>, x: char) -> int
    decreases pairs.len(),
{
    if pairs.len() == 0 {
        -1
    } else {
        let r = find_by_cipher(pairs.drop_last(), x);
        if r >= 0 {
            r
        } else if pairs.last().0 == x {
            pairs.len() - 1
        } else {
            -1
        }
    }
}

/// The position of the first pair whose plain character is `x`, or -1.
pub open spec fn find_by_plain(pairs: Seq<(char, char)>, x: char) -> int
    decreases pairs.len(),
{
    if pairs.len() == 0 {
        -1
    } else {
        let r = find_by_plain(pairs.drop_last(), x);
        if r >= 0 {
            r
        } else if pairs.last().1 == x {
            pairs.len() - 1
        } else {
            -1
        }
    }
}

proof fn lemma_find_cipher_props(pairs: Seq<(char, char)>, x: char)
    ensures
        find_by_cipher(pairs, x) >= 0 ==> ({
            let i = find_by_cipher(pairs, x);
            &&& i < pairs.len()
            &&& pairs[i].0 == x
            &&& forall|j: int| 0 <= j < i ==> (#[trigger] pairs[j]).0 != x
        }),
        find_by_cipher(pairs, x) < 0 ==> forall|j: int|
            0 <= j < pairs.len() ==> (#[trigger] pairs[j]).0 != x,
    decreases pairs.len(),
{
    if pairs.len() > 0 {
        let t = pairs.drop_last();
        assert(t =~= pairs.subrange(0, pairs.len() - 1));
        assert(forall|j: int| 0 <= j < pairs.len() - 1 ==> #[trigger] pairs[j] == t[j]);
        lemma_find_cipher_props(t, x);
    }
}

proof fn lemma_find_plain_props(pairs: Seq<(char, char)>, x: char)
    ensures
        find_by_plain(pairs, x) >= 0 ==> ({
            let i = find_by_plain(pairs, x);
            &&& i < pairs.len()
            &&& pairs[i].1 == x
            &&& forall|j: int| 0 <= j < i ==> (#[trigger] pairs[j]).1 != x
        }),
        find_by_plain(pairs, x) < 0 ==> forall|j: int|
            0 <= j < pairs.len() ==> (#[trigger] pairs[j]).1 != x,
    decreases pairs.len(),
{
    if pairs.len() > 0 {
        let t = pairs.drop_last();
        assert(t =~= pairs.subrange(0, pairs.len() - 1));
        assert(forall|j: int| 0 <= j < pairs.len() - 1 ==> #[trigger] pairs[j] == t[j]);
        lemma_find_plain_props(t, x);
    }
}

/// How one character decodes: through its first pair, or unchanged.
pub open spec fn dec_char(pairs: Seq<(char, char)>, x: char) -> char {
    let i = find_by_cipher(pairs, x);
    if i >= 0 && i < pairs.len() {
        pairs[i].1
    } else {
        x
    }
}

/// How one character encodes: through its first pair, or unchanged.
pub open spec fn enc_char(pairs: Seq<(char, char)>, x: char) -> char {
    let i = find_by_plain(pairs, x);
    if i >= 0 && i < pairs.len() {
        pairs[i].0
    } else {
        x
    }
}

/// A text decoded character by character.
pub open spec fn decode_spec(pairs: Seq<(char, char)>, s: Seq<char>) -> Seq<char> {
    Seq::new(s.len(), |i: int| dec_char(pairs, s[i]))
}

/// A text encoded character by character.
pub open spec fn encode_spec(pairs: Seq<(char, char)>, s: Seq<char>) -> Seq<char> {
    Seq::new(s.len(), |i: int| enc_char(pairs, s[i]))
}

/// A usable substitution table: no cipher character and no plain character
/// appears twice, and every cipher character is itself some pair's plain
/// character (the table permutes a fixed set of glyphs).
pub open spec fn table_wf(pairs: Seq<(char, char)>) -> bool {
    &&& forall|i: int, j: int|
        0 <= i < j < pairs.len() ==> (#[trigger] pairs[i]).0 != (#[trigger] pairs[j]).0
    &&& forall|i: int, j: int|
        0 <= i < j < pairs.len() ==> (#[trigger] pairs[i]).1 != (#[trigger] pairs[j]).1
    &&& forall|i: int|
        0 <= i < pairs.len() ==> exists|j: int|
            0 <= j < pairs.len() && (#[trigger] pairs[i]).0 == (#[trigger] pairs[j]).1
}

/// Law: decoding inverts encoding — for a well-formed table, decoding an
/// encoded text reproduces it exactly, whatever the text.
pub proof fn lemma_decode_encode_identity(pairs: Seq<(char, char)>, s: Seq<char>)
    requires
        table_wf(pairs),
    ensures
        decode_spec(pairs, encode_spec(pairs, s)) == s,
{
    assert forall|k: int| 0 <= k < s.len() implies dec_char(pairs, enc_char(pairs, s[k]))
        == s[k] by {
        let x = s[k];
        lemma_find_plain_props(pairs, x);
        let i = find_by_plain(pairs, x);
        if i >= 0 {
            let e = pairs[i].0;
            lemma_find_cipher_props(pairs, e);
            let m = find_by_cipher(pairs, e);
            assert(m >= 0) by {
                if m < 0 {
                    assert(pairs[i].0 != e);
                }
            }
            assert(m == i) by {
                if m < i {
                    assert(pairs[m].0 == pairs[i].0);
                } else if m > i {
                    assert(pairs[i].0 != e);
                }
            }
        } else {
            lemma_find_cipher_props(pairs, x);
            let m = find_by_cipher(pairs, x);
            if m >= 0 {
                let j = choose|j: int|
                    0 <= j < pairs.len() && (#[trigger] pairs[m]).0 == (#[trigger] pairs[j]).1;
                assert(pairs[j].1 != x);
            }
        }
    }
    assert(decode_spec(pairs, encode_spec(pairs, s)) =~= s);
}

/// Decodes text written in the site's substitution glyphs, by a
/// per-deployment table of (cipher, plain) pairs.
pub struct SecretDecoder {
    pub pairs: Vec<(char, char)>,
}

impl SecretDecoder {
    /// A decoder over the given table.
    pub fn new(pairs: Vec<(char, char)>) -> (r: Self)
        ensures
            r.pairs == pairs,
    {
        SecretDecoder { pairs }
    }

    fn map_char(&self, x: char, by_cipher: bool) -> (r: char)
        ensures
            by_cipher ==> r == dec_char(self.pairs@, x),
            !by_cipher ==> r == enc_char(self.pairs@, x),
    {
        let n = self.pairs.len();
        let mut i: usize = 0;
        while i < n
            invariant
                i <= n,
                n == self.pairs@.len(),
                by_cipher ==> forall|j: int| 0 <= j < i ==> (#[trigger] self.pairs@[j]).0 != x,
                !by_cipher ==> forall|j: int| 0 <= j < i ==> (#[trigger] self.pairs@[j]).1 != x,
            decreases n - i,
        {
            let (c, p) = self.pairs[i];
            if by_cipher && c == x {
                proof {
                    lemma_find_cipher_for(self.pairs@, x, i as int);
                }
                return p;
            }
            if !by_cipher && p == x {
                proof {
                    lemma_find_plain_for(self.pairs@, x, i as int);
                }
                return c;
            }
            i += 1;
        }
        proof {
            if by_cipher {
                lemma_find_cipher_props(self.pairs@, x);
                if find_by_cipher(self.pairs@, x) >= 0 {
                    assert(self.pairs@[find_by_cipher(self.pairs@, x)].0 != x);
                }
            } else {
                lemma_find_plain_props(self.pairs@, x);
                if find_by_plain(self.pairs@, x) >= 0 {
                    assert(self.pairs@[find_by_plain(self.pairs@, x)].1 != x);
                }
            }
        }
        x
    }

    /// Decodes a text: each character is mapped through its first pair,
    /// characters outside the table stay themselves.
    pub fn decode(&self, text: &str) -> (r: String)
        ensures
            r@ == decode_spec(self.pairs@, text@),
    {
        let len = text.unicode_len();
        let mut out = String::new();
        let mut i: usize = 0;
        while i < len
            invariant
                i <= len,
                len == text@.len(),
                out@ =~= decode_spec(self.pairs@, text@.take(i as int)),
            decreases len - i,
        {
            let c = self.map_char(text.get_char(i), true);
            push_char(&mut out, c);
            proof {
                assert(out@ =~= decode_spec(self.pairs@, text@.take(i + 1)));
            }
            i += 1;
        }
        proof {
            assert(text@.take(len as int) =~= text@);
            assert(out@ =~= decode_spec(self.pairs@, text@));
        }
        out
    }

    /// Encodes a text: the exact inverse of `decode` for a well-formed
    /// table, for checking the round trip.
    pub fn encode(&self, text: &str) -> (r: String)
        ensures
            r@ == encode_spec(self.pairs@, text@),
    {
        let len = text.unicode_len();
        let mut out = String::new();
        let mut i: usize = 0;
        while i < len
            invariant
                i <= len,
                len == text@.len(),
                out@ =~= encode_spec(self.pairs@, text@.take(i as int)),
            decreases len - i,
        {
            let c = self.map_char(text.get_char(i), false);
            push_char(&mut out, c);
            proof {
                assert(out@ =~= encode_spec(self.pairs@, text@.take(i + 1)));
            }
            i += 1;
        }
        proof {
            assert(text@.take(len as int) =~= text@);
            assert(out@ =~= encode_spec(self.pairs@, text@));
        }
        out
    }
}

proof fn lemma_find_cipher_for(pairs: Seq<(char, char)>, x: char, i: int)
    requires
        0 <= i < pairs.len(),
        pairs[i].0 == x,
        forall|j: int| 0 <= j < i ==> (#[trigger] pairs[j]).0 != x,
    ensures
        find_by_cipher(pairs, x) == i,
    decreases pairs.len(),
{
    let t = pairs.drop_last();
    assert(t =~= pairs.subrange(0, pairs.len() - 1));
    if i == pairs.len() - 1 {
        lemma_find_cipher_props(t, x);
        if find_by_cipher(t, x) >= 0 {
            assert(t[find_by_cipher(t, x)].0 == x);
        }
    } else {
        lemma_find_cipher_for(t, x, i);
    }
}

proof fn lemma_find_plain_for(pairs: Seq<(char, char)>, x: char, i: int)
    requires
        0 <= i < pairs.len(),
        pairs[i].1 == x,
        forall|j: int| 0 <= j < i ==> (#[trigger] pairs[j]).1 != x,
    ensures
        find_by_plain(pairs, x) == i,
    decreases pairs.len(),
{
    let t = pairs.drop_last();
    assert(t =~= pairs.subrange(0, pairs.len() - 1));
    if i == pairs.len() - 1 {
        lemma_find_plain_props(t, x);
        if find_by_plain(t, x) >= 0 {
            assert(t[find_by_plain(t, x)].1 == x);
        }
    } else {
        lemma_find_plain_for(t, x, i);
    }
}

/// Whether a chapter page flags its trailing text as substitution-encoded.
pub fn needs_decode(html: &str) -> (r: bool)
    ensures
        r == contains_sub(html@, "font-family: \"read\""@),
{
    contains_str(html, "font-family: \"read\"")
}

/// The block the decoder is applied to: a non-empty text run that is not a
/// line-break tag.
pub open spec fn decode_target(b: ContentV) -> bool {
    b matches ContentV::Text(t) && t.len() > 0 && !contains_sub(t, "<br"@)
}

/// Decodes the last decodable text block of a chapter in place: searching
/// from the end, the first non-empty text run that is no line-break markup
/// is replaced by its decoding; every other block stays. A chapter without
/// such a block stays whole.
pub fn apply_secret_decode(text: &mut Vec<Content>, decoder: &SecretDecoder)
    ensures
        final(text)@.len() == old(text)@.len(),
        (exists|i: int|
            0 <= i < old(text)@.len() && decode_target(#[trigger] old(text).deep_view()[i]))
            ==> exists|i: int|
            #![auto]
            {
                &&& 0 <= i < old(text)@.len()
                &&& decode_target(old(text).deep_view()[i])
                &&& (forall|j: int|
                    i < j < old(text)@.len() ==> !decode_target(old(text).deep_view()[j]))
                &&& final(text).deep_view()[i] == ContentV::Text(
                    decode_spec(
                        decoder.pairs@,
                        old(text).deep_view()[i]->Text_0,
                    ),
                )
                &&& (forall|j: int|
                    0 <= j < old(text)@.len() && j != i ==> final(text).deep_view()[j] == old(
                        text,
                    ).deep_view()[j])
            },
        (forall|i: int|
            0 <= i < old(text)@.len() ==> !decode_target(#[trigger] old(text).deep_view()[i]))
            ==> final(text).deep_view() == old(text).deep_view(),
{
    let ghost t0 = old(text).deep_view();
    proof {
        assert(t0 == text.deep_view());
    }
    let n = text.len();
    let mut i: usize = n;
    while i > 0
        invariant
            i <= n,
            n == t0.len(),
            n == text@.len(),
            t0 == old(text).deep_view(),
            t0 == text.deep_view(),
            forall|j: int| i <= j < n ==> !decode_target(#[trigger] t0[j]),
        decreases i,
    {
        i -= 1;
        proof {
            assert(text.deep_view()[i as int] == text@[i as int]@);
        }
        let decoded_opt: Option<String> = match &text[i] {
            Content::Text(st) => {
                if !st.as_str().is_empty() && !contains_str(st.as_str(), "<br") {
                    Option::Some(decoder.decode(st.as_str()))
                } else {
                    Option::None
                }
            },
            _ => Option::None,
        };
        match decoded_opt {
            Option::Some(decoded) => {
                proof {
                    assert(decode_target(t0[i as int]));
                    assert(t0[i as int] matches ContentV::Text(tt) && decoded@ == decode_spec(
                        decoder.pairs@,
                        tt,
                    ));
                }
                let ghost prevec = text@;
                let idx = i;
                text[idx] = Content::Text(decoded);
                proof {
                    assert(text@.len() == prevec.len());
                    assert forall|j: int|
                        0 <= j < n && j != idx implies text.deep_view()[j] == t0[j] by {
                        assert(text@[j] == prevec[j]);
                    }
                    assert(text.deep_view()[idx as int] == text@[idx as int]@);
                    assert(text.deep_view()[idx as int] == ContentV::Text(
                        decode_spec(decoder.pairs@, t0[idx as int]->Text_0),
                    ));
                    assert(old(text).deep_view() == t0);
                    assert(t0.len() == old(text)@.len());
                    assert(text@.len() == old(text)@.len());
                    assert(decode_target(old(text).deep_view()[idx as int]));
                    assert(forall|j: int|
                        idx < j < old(text)@.len() ==> !decode_target(
                            #[trigger] old(text).deep_view()[j],
                        ));
                    assert(forall|j: int|
                        0 <= j < old(text)@.len() && j != idx ==> #[trigger] text.deep_view()[j]
                            == old(text).deep_view()[j]);
                }
                return ;
            },
            Option::None => {
                proof {
                    assert(!decode_target(t0[i as int]));
                }
            },
        }
    }
}

} // verus!
