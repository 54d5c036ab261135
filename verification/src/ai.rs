//! Around the keyword extractor: what it is given, and what is made of
//! what it returns.
//!
//! The extractor itself, a language model that scores candidate words
//! against a text, is not part of the library.

use vstd::prelude::*;
use crate::text::{
    chars_of, chars_of_each, join_spaced, join_with_space, lemma_string_views_push, range_of,
    same_text, string_of, string_views,
};

verus! {

/// The longest text that is handed to the extractor, in characters.
pub const MAX_KEYWORD_TEXT: usize = 512;

/// The shortest query that is refined, in characters.
pub const MIN_REFINED_QUERY: usize = 4;

/// The start of a text that the extractor is given: its first 512
/// characters, or all of it where it is shorter.
pub open spec fn keyword_text(text: Seq<char>) -> Seq<char> {
    if text.len() > 512 {
        text.take(512)
    } else {
        text
    }
}

/// Finds `keyword_text`.
pub fn truncate_for_keywords(text: &str) -> (out: String)
    ensures
        out@ == keyword_text(text@),
{
    let chars = chars_of(text);
    if chars.len() > MAX_KEYWORD_TEXT {
        string_of(&range_of(&chars, 0, MAX_KEYWORD_TEXT))
    } else {
        string_of(&chars)
    }
}

/// The words that may become keywords: those of more than one character,
/// each once, in the order in which they first occur.
pub open spec fn candidates(words: Seq<Seq<char>>) -> Seq<Seq<char>>
    decreases words.len(),
{
    if words.len() == 0 {
        Seq::empty()
    } else if words.last().len() > 1 && !candidates(words.drop_last()).contains(words.last()) {
        candidates(words.drop_last()).push(words.last())
    } else {
        candidates(words.drop_last())
    }
}

/// Whether `word` is among `items`.
fn holds(items: &Vec<String>, word: &str) -> (found: bool)
    ensures
        found == string_views(items@).contains(word@),
{
    let ghost all = string_views(items@);
    let mut i: usize = 0;
    while i < items.len()
        invariant
            i <= items.len(),
            all == string_views(items@),
            forall|k: int| 0 <= k < i ==> all[k] != word@,
        decreases items.len() - i,
    {
        if same_text(items[i].as_str(), word) {
            assert(all[i as int] == word@);
            return true;
        }
        i += 1;
    }
    false
}

/// Finds `candidates`.
pub fn candidate_words(words: &Vec<String>) -> (out: Vec<String>)
    ensures
        string_views(out@) == candidates(string_views(words@)),
{
    let ghost all = string_views(words@);
    let mut out: Vec<String> = Vec::new();
    let mut i: usize = 0;
    assert(all.take(0) =~= Seq::<Seq<char>>::empty());
    assert(string_views(out@) =~= Seq::<Seq<char>>::empty());
    while i < words.len()
        invariant
            i <= words.len(),
            all == string_views(words@),
            string_views(out@) == candidates(all.take(i as int)),
        decreases words.len() - i,
    {
        proof {
            assert(all.take(i + 1).drop_last() =~= all.take(i as int));
            assert(all.take(i + 1).last() == words@[i as int]@);
        }
        let word = &words[i];
        if word.as_str().unicode_len() > 1 && !holds(&out, word.as_str()) {
            let copy = word.clone();
            proof {
                lemma_string_views_push(out@, copy);
            }
            out.push(copy);
        }
        i += 1;
    }
    assert(all.take(words.len() as int) =~= all);
    out
}

/// The first `k` of the keywords, or all where there are fewer.
pub fn at_most(keywords: Vec<String>, k: usize) -> (out: Vec<String>)
    ensures
        string_views(out@) == (if k < keywords@.len() {
            string_views(keywords@).take(k as int)
        } else {
            string_views(keywords@)
        }),
{
    if k >= keywords.len() {
        return keywords;
    }
    let ghost all = string_views(keywords@);
    let mut out: Vec<String> = Vec::new();
    let mut i: usize = 0;
    assert(string_views(out@) =~= all.take(0));
    while i < k
        invariant
            i <= k < keywords.len(),
            all == string_views(keywords@),
            string_views(out@) == all.take(i as int),
        decreases k - i,
    {
        let word = keywords[i].clone();
        proof {
            lemma_string_views_push(out@, word);
            assert(all.take(i + 1) =~= all.take(i as int).push(all[i as int]));
        }
        out.push(word);
        i += 1;
    }
    out
}

/// Whether a query is long enough to be refined: four characters or more.
pub fn wants_refinement(query: &str) -> (yes: bool)
    ensures
        yes == (query@.len() >= 4),
{
    query.unicode_len() >= MIN_REFINED_QUERY
}

/// The refined form of a query: the keywords that the extractor found in
/// it, joined by spaces; or the query itself where it is too short, where
/// the extractor failed or found nothing, or where the keywords say the
/// same.
pub open spec fn refined(query: Seq<char>, keywords: Option<Seq<Seq<char>>>) -> Seq<char> {
    match keywords {
        Some(k) => if query.len() >= 4 && k.len() > 0 {
            join_spaced(k)
        } else {
            query
        },
        None => query,
    }
}

/// Finds `refined`. `keywords` is what the extractor returned for the
/// query, or `None` where it failed or was not asked.
pub fn refine_query(query: &str, keywords: Option<Vec<String>>) -> (out: String)
    ensures
        out@ == refined(
            query@,
            match keywords {
                Some(k) => Some(string_views(k@)),
                None => None,
            },
        ),
{
    if !wants_refinement(query) {
        return query.to_owned();
    }
    match keywords {
        Some(k) => {
            if k.len() == 0 {
                return query.to_owned();
            }
            let parts = chars_of_each(k.as_slice());
            string_of(&join_with_space(&parts))
        },
        None => query.to_owned(),
    }
}

} // verus!
