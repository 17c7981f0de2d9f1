//! Regular expressions over text, and slicing text by byte offsets.

use vstd::prelude::*;
use vstd::string::*;
use vstd::utf8::*;

verus! {

/// What the `regex` crate finds: the successive non-overlapping matches of
/// a regular expression in a text, each as the byte offsets of its start
/// and its end, or `None` where the pattern is refused as a regular
/// expression.
pub uninterp spec fn regex_matches(pattern: Seq<char>, text: Seq<char>) -> Option<
    Seq<(usize, usize)>,
>;

/// Compiles the pattern with `regex::Regex::new` and collects what
/// `regex::Regex::find_iter` yields on the text, each match as
/// `Match::start` and `Match::end` give it. Nothing is proved of this
/// function. Its contract only gives the result its name: the same pattern
/// and text always yield the same matches.
#[verifier::external_body]
pub(crate) fn find_matches(pattern: &str, text: &str) -> (r: Option<Vec<(usize, usize)>>)
    ensures
        r is None ==> regex_matches(pattern@, text@) is None,
        r matches Some(v) ==> regex_matches(pattern@, text@) == Some(v@),
{
    match regex::Regex::new(pattern) {
        Ok(re) => Some(re.find_iter(text).map(|m| (m.start(), m.end())).collect()),
        Err(_) => None,
    }
}

/// Whether the bytes from `start` up to `end` of the text's encoding are
/// complete characters.
pub open spec fn sliceable(text: Seq<char>, start: int, end: int) -> bool {
    let bytes = encode_utf8(text);
    &&& 0 <= start <= end
    &&& is_char_boundary(bytes, start)
    &&& is_char_boundary(bytes.subrange(start, bytes.len() as int), end - start)
}

/// The characters that the bytes from `start` up to `end` of the text's
/// encoding stand for.
pub open spec fn byte_slice(text: Seq<char>, start: int, end: int) -> Seq<char> {
    decode_utf8(encode_utf8(text).subrange(start, end))
}

proof fn lemma_boundary_in_range(bytes: Seq<u8>, index: int)
    requires
        valid_utf8(bytes),
        is_char_boundary(bytes, index),
    ensures
        0 <= index <= bytes.len(),
{
}

/// The part of the text between two byte offsets, if both fall between
/// characters.
pub fn slice(text: &str, start: usize, end: usize) -> (r: Option<String>)
    ensures
        r is Some == sliceable(text@, start as int, end as int),
        r matches Some(s) ==> s@ == byte_slice(text@, start as int, end as int),
{
    broadcast use {encode_utf8_decode_utf8, encode_utf8_valid_utf8};

    if start <= end && text.is_char_boundary(start) {
        let ghost bytes = text.spec_bytes();
        proof {
            lemma_boundary_in_range(bytes, start as int);
        }
        let (_, rest) = text.split_at(start);
        assert(rest.spec_bytes() == bytes.subrange(start as int, bytes.len() as int));
        if rest.is_char_boundary(end - start) {
            proof {
                lemma_boundary_in_range(rest.spec_bytes(), end - start);
            }
            let (piece, _) = rest.split_at(end - start);
            proof {
                assert(piece.spec_bytes() =~= bytes.subrange(start as int, end as int));
                assert(decode_utf8(encode_utf8(piece@)) == piece@);
            }
            Some(piece.to_owned())
        } else {
            None
        }
    } else {
        None
    }
}

} // verus!
