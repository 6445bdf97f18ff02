//! The embedded block: one payload between two delimiters, inside free text.
//!
//! The text before the block and the text after it are never looked into;
//! they come out of `extract_annotation` and go into `embed` character for
//! character.

use crate::text::{
    contains, lemma_before_first_occurrence, lemma_position_of, lemma_split_once_joined,
    lemma_unbordered_by_first, lemma_unbordered_by_last, split_once, split_once_of, unbordered,
};
use vstd::prelude::*;

verus! {

/// The delimiter that opens a block.
pub open spec fn opening() -> Seq<char> {
    "```annotation\r\n"@
}

/// The delimiter that closes a block.
pub open spec fn closing() -> Seq<char> {
    "\r\n```"@
}

/// The block in `text`: what stands before the first opening delimiter, the
/// payload between that delimiter and the first closing delimiter after it,
/// and what follows. There is no block where either delimiter is missing.
pub open spec fn extracted(text: Seq<char>) -> Option<(Seq<char>, Seq<char>, Seq<char>)> {
    match split_once_of(text, opening()) {
        Some((prefix, remaining)) => match split_once_of(remaining, closing()) {
            Some((payload, suffix)) => Some((prefix, payload, suffix)),
            None => None,
        },
        None => None,
    }
}

/// `payload` as a block between `prefix` and `suffix`.
pub open spec fn embedded(prefix: Seq<char>, payload: Seq<char>, suffix: Seq<char>) -> Seq<char> {
    prefix + opening() + payload + closing() + suffix
}

/// Neither delimiter can overlap itself.
pub proof fn lemma_delimiters_unbordered()
    ensures
        unbordered(opening()),
        unbordered(closing()),
{
    reveal_strlit("```annotation\r\n");
    reveal_strlit("\r\n```");
    lemma_unbordered_by_last(opening());
    lemma_unbordered_by_first(closing());
}

/// Extraction undoes embedding: a payload that does not hold the closing
/// delimiter, embedded behind a prefix that does not hold the opening one,
/// is extracted again with the same prefix and suffix.
pub proof fn lemma_extract_embed(prefix: Seq<char>, payload: Seq<char>, suffix: Seq<char>)
    requires
        !contains(prefix, opening()),
        !contains(payload, closing()),
    ensures
        extracted(embedded(prefix, payload, suffix)) == Some((prefix, payload, suffix)),
{
    lemma_delimiters_unbordered();
    let remaining = payload + closing() + suffix;
    assert(embedded(prefix, payload, suffix) =~= prefix + opening() + remaining);
    lemma_split_once_joined(prefix, opening(), remaining);
    lemma_split_once_joined(payload, closing(), suffix);
}

/// Embedding undoes extraction: the parts of an extracted block, embedded
/// again, give the text they were taken from; the prefix holds no opening
/// delimiter and the payload no closing one.
pub proof fn lemma_embed_extract(text: Seq<char>)
    requires
        extracted(text) is Some,
    ensures
        ({
            let (prefix, payload, suffix) = extracted(text)->0;
            &&& embedded(prefix, payload, suffix) == text
            &&& !contains(prefix, opening())
            &&& !contains(payload, closing())
        }),
{
    let (prefix, payload, suffix) = extracted(text)->0;
    reveal_strlit("```annotation\r\n");
    reveal_strlit("\r\n```");
    lemma_position_of(text, opening());
    let i = crate::text::position_of(text, opening())->0;
    let remaining = text.skip(i + opening().len());
    lemma_position_of(remaining, closing());
    let k = crate::text::position_of(remaining, closing())->0;
    lemma_before_first_occurrence(text, opening(), i);
    lemma_before_first_occurrence(remaining, closing(), k);
    assert(payload + closing() + suffix =~= remaining) by {
        assert(remaining.subrange(k, k + closing().len()) == closing());
        assert(payload == remaining.take(k));
        assert(suffix == remaining.skip(k + closing().len()));
        assert(remaining =~= remaining.take(k) + remaining.subrange(k, k + closing().len())
            + remaining.skip(k + closing().len()));
    }
    assert(prefix + opening() + remaining =~= text) by {
        assert(text.subrange(i, i + opening().len()) == opening());
        assert(text =~= text.take(i) + text.subrange(i, i + opening().len()) + text.skip(
            i + opening().len(),
        ));
    }
    assert(embedded(prefix, payload, suffix) =~= prefix + opening() + (payload + closing()
        + suffix));
}

/// A text without the opening delimiter holds no block.
pub proof fn lemma_no_opening_no_block(text: Seq<char>)
    requires
        !contains(text, opening()),
    ensures
        extracted(text) is None,
{
}

/// Finds the block in `text` and hands out the text before it, its payload
/// and the text after it.
pub fn extract_annotation(text: &str) -> (r: Option<(&str, &str, &str)>)
    ensures
        match r {
            Some((prefix, payload, suffix)) => extracted(text@) == Some(
                (prefix@, payload@, suffix@),
            ),
            None => extracted(text@) is None,
        },
{
    if let Some((prefix, remaining)) = split_once(text, "```annotation\r\n") {
        if let Some((payload, suffix)) = split_once(remaining, "\r\n```") {
            return Some((prefix, payload, suffix));
        }
    }
    None
}

/// Puts `payload` as a block between `prefix` and `suffix`.
pub fn embed(prefix: &str, payload: &str, suffix: &str) -> (r: String)
    ensures
        r@ == embedded(prefix@, payload@, suffix@),
{
    let mut r = String::new();
    r.append(prefix);
    r.append("```annotation\r\n");
    r.append(payload);
    r.append("\r\n```");
    r.append(suffix);
    assert(r@ =~= embedded(prefix@, payload@, suffix@));
    r
}

} // verus!
