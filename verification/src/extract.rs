//! Which files can be read, and how their text is shown in short.

use vstd::prelude::*;
use vstd::string::StringSliceAdditionalSpecFns;
use vstd::utf8::{
    decode_utf8, encode_utf8, encode_utf8_decode_utf8, encode_utf8_valid_utf8, is_char_boundary,
};
use crate::config::{PREVIEW_MAX_LENGTH, SENTENCE_SEARCH_START};
use crate::text::{append_word, chars_of, is_space, is_space_char, is_word, string_of, trim, trimmed};

verus! {

/// How the text of a file is read.
#[derive(Debug, Clone, Copy, PartialEq, Eq, Structural)]
pub enum TextFormat {
    /// The file is its text.
    Plain,
    /// The text is taken out of a PDF document.
    Pdf,
}

/// How files with this extension are read, if they can be read: `txt`,
/// `md` and `rs` as they are, `pdf` as a PDF document. The extension is
/// taken as it is written.
pub open spec fn format_of(extension: Seq<char>) -> Option<TextFormat> {
    if extension == "txt"@ || extension == "md"@ || extension == "rs"@ {
        Some(TextFormat::Plain)
    } else if extension == "pdf"@ {
        Some(TextFormat::Pdf)
    } else {
        None
    }
}

/// Finds `format_of`.
pub fn text_format(extension: &str) -> (format: Option<TextFormat>)
    ensures
        format == format_of(extension@),
{
    let ext = chars_of(extension);
    if is_word(&ext, "txt") || is_word(&ext, "md") || is_word(&ext, "rs") {
        Some(TextFormat::Plain)
    } else if is_word(&ext, "pdf") {
        Some(TextFormat::Pdf)
    } else {
        None
    }
}

/// Whether a sentence may end with `c`.
pub open spec fn is_sentence_end(c: char) -> bool {
    c == '。' || c == '！' || c == '？' || c == '.' || c == '!' || c == '?' || c == '\n' || c == '；'
        || c == ';'
}

/// Whether a text may be cut in front of `c`.
pub open spec fn is_word_break(c: char) -> bool {
    is_space(c) || c == '，' || c == '。' || c == '；'
}

/// The character classes that a cut looks for.
#[derive(Debug, Clone, Copy, PartialEq, Eq, Structural)]
pub enum CutMark {
    SentenceEnd,
    WordBreak,
}

/// Whether `c` is a mark of the kind `mark`.
pub open spec fn is_mark(c: char, mark: CutMark) -> bool {
    match mark {
        CutMark::SentenceEnd => is_sentence_end(c),
        CutMark::WordBreak => is_word_break(c),
    }
}

/// Decides `is_mark`.
pub fn marks(c: char, mark: CutMark) -> (b: bool)
    ensures
        b == is_mark(c, mark),
{
    match mark {
        CutMark::SentenceEnd => c == '。' || c == '！' || c == '？' || c == '.' || c == '!' || c
            == '?' || c == '\n' || c == '；' || c == ';',
        CutMark::WordBreak => is_space_char(c) || c == '，' || c == '。' || c == '；',
    }
}

/// The last position from `lo` to `hi` at which `s` has a mark.
pub open spec fn last_mark(s: Seq<char>, lo: int, hi: int, mark: CutMark) -> Option<int>
    decreases hi - lo + 1,
{
    if hi < lo || lo < 0 {
        None
    } else if hi < s.len() && is_mark(s[hi], mark) {
        Some(hi)
    } else {
        last_mark(s, lo, hi - 1, mark)
    }
}

/// Finds `last_mark`.
pub fn find_last_mark(s: &Vec<char>, lo: usize, hi: usize, mark: CutMark) -> (r: Option<usize>)
    ensures
        match last_mark(s@, lo as int, hi as int, mark) {
            Some(i) => r == Some(i as usize) && lo <= i <= hi,
            None => r is None,
        },
{
    if hi < lo {
        return None;
    }
    let mut i: usize = hi;
    loop
        invariant
            lo <= i <= hi,
            last_mark(s@, lo as int, hi as int, mark) == last_mark(s@, lo as int, i as int, mark),
        decreases i,
    {
        if i < s.len() && marks(s[i], mark) {
            return Some(i);
        }
        if i == lo {
            assert(last_mark(s@, lo as int, i - 1, mark) is None);
            return None;
        }
        i -= 1;
    }
}

/// Where a long text is cut, counted in bytes though the marks are looked
/// for by characters: behind the last sentence end among the characters
/// 50 to 200, else in front of the last word break among the characters
/// 150 to 200, else at 200.
pub open spec fn cut_position(s: Seq<char>) -> int {
    match last_mark(s, 50, 200, CutMark::SentenceEnd) {
        Some(i) => i + 1,
        None => match last_mark(s, 150, 200, CutMark::WordBreak) {
            Some(i) => i,
            None => 200,
        },
    }
}

/// The last character boundary at or before `pos`.
pub open spec fn boundary_before(bytes: Seq<u8>, pos: int) -> int
    decreases pos,
{
    if pos <= 0 || is_char_boundary(bytes, pos) {
        pos
    } else {
        boundary_before(bytes, pos - 1)
    }
}

/// A text in short. The text is trimmed. An empty text is shown as a
/// note that there is none. A text of up to 200 bytes is shown whole. A
/// longer one is cut at `cut_position`, or at the last character boundary
/// before it, and `...` is put behind it.
pub open spec fn preview_text(content: Seq<char>) -> Seq<char> {
    let cleaned = trim(content);
    let bytes = encode_utf8(cleaned);
    if cleaned.len() == 0 {
        "[无文本内容]"@
    } else if bytes.len() > 200 {
        decode_utf8(bytes.subrange(0, boundary_before(bytes, cut_position(cleaned)))) + "..."@
    } else {
        cleaned
    }
}

/// A text in short, for a list of results.
pub fn format_content_preview(content: &str) -> (preview: String)
    ensures
        preview@ == preview_text(content@),
{
    let cleaned = trimmed(&chars_of(content));
    if cleaned.len() == 0 {
        return "[无文本内容]".to_owned();
    }
    let text = string_of(&cleaned);
    let whole: &str = text.as_str();
    let ghost bytes = encode_utf8(cleaned@);
    assert(whole.spec_bytes() == bytes);
    proof {
        encode_utf8_valid_utf8(cleaned@);
    }
    if whole.as_bytes().len() <= PREVIEW_MAX_LENGTH {
        return whole.to_owned();
    }
    let mut end: usize = match find_last_mark(
        &cleaned,
        SENTENCE_SEARCH_START,
        PREVIEW_MAX_LENGTH,
        CutMark::SentenceEnd,
    ) {
        Some(i) => i + 1,
        None => match find_last_mark(
            &cleaned,
            PREVIEW_MAX_LENGTH - SENTENCE_SEARCH_START,
            PREVIEW_MAX_LENGTH,
            CutMark::WordBreak,
        ) {
            Some(i) => i,
            None => PREVIEW_MAX_LENGTH,
        },
    };
    assert(end == cut_position(cleaned@));
    while end > 0 && !whole.is_char_boundary(end)
        invariant
            end <= 201,
            whole.spec_bytes() == bytes,
            boundary_before(bytes, end as int) == boundary_before(bytes, cut_position(cleaned@)),
        decreases end,
    {
        end -= 1;
    }
    assert(is_char_boundary(bytes, end as int));
    let (head, _) = whole.split_at(end);
    proof {
        encode_utf8_decode_utf8(head@);
        assert(head.spec_bytes() == encode_utf8(head@));
    }
    let mut out = chars_of(head);
    append_word(&mut out, "...");
    string_of(&out)
}

} // verus!
