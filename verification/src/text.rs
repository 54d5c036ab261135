//! Character-level building blocks for the parsers and formatters.
//!
//! Texts are modelled as `Seq<char>`. The functions here convert between
//! strings and character vectors, trim, split and join, and read and write
//! decimal numbers.

use vstd::prelude::*;

verus! {

/// `String::push` appends one character to the end of the string and
/// changes nothing else.
pub assume_specification[ String::push ](s: &mut String, c: char)
    ensures
        final(s)@ == old(s)@.push(c),
;

/// The text that `str::to_lowercase` returns for `text`.
pub uninterp spec fn lowercase_of(text: Seq<char>) -> Seq<char>;

/// Calls `str::to_lowercase`. The mapping follows Unicode's case tables and
/// is not restated here: the result is only given its name.
#[verifier::external_body]
pub(crate) fn lowercase(text: &str) -> (lower: String)
    ensures
        lower@ == lowercase_of(text@),
{
    text.to_lowercase()
}

/// The characters of `s`, one element for each.
pub fn chars_of(s: &str) -> (out: Vec<char>)
    ensures
        out@ == s@,
{
    let mut out: Vec<char> = Vec::new();
    for c in it: s.chars()
        invariant
            out@ == it.seq().take(it.index() as int),
            it.seq() == s@,
    {
        out.push(c);
    }
    out
}

/// The string that holds the characters of `v` in order.
pub fn string_of(v: &Vec<char>) -> (out: String)
    ensures
        out@ == v@,
{
    let mut out = String::new();
    let mut i: usize = 0;
    while i < v.len()
        invariant
            i <= v.len(),
            out@ == v@.take(i as int),
        decreases v.len() - i,
    {
        out.push(v[i]);
        i += 1;
    }
    out
}

/// The views of a sequence of character vectors.
pub open spec fn texts(parts: Seq<Vec<char>>) -> Seq<Seq<char>> {
    parts.map_values(|p: Vec<char>| p@)
}

/// The views of a sequence of strings.
pub open spec fn string_views(items: Seq<String>) -> Seq<Seq<char>> {
    items.map_values(|s: String| s@)
}

/// Appending one vector appends its view.
pub proof fn lemma_texts_push(parts: Seq<Vec<char>>, last: Vec<char>)
    ensures
        texts(parts.push(last)) == texts(parts).push(last@),
{
    assert(texts(parts.push(last)) =~= texts(parts).push(last@));
}

/// Appending one string appends its view.
pub proof fn lemma_string_views_push(items: Seq<String>, last: String)
    ensures
        string_views(items.push(last)) == string_views(items).push(last@),
{
    assert(string_views(items.push(last)) =~= string_views(items).push(last@));
}

/// The texts of a list of strings, each as a vector of characters.
pub fn chars_of_each(items: &[String]) -> (out: Vec<Vec<char>>)
    ensures
        texts(out@) == string_views(items@),
{
    let mut out: Vec<Vec<char>> = Vec::new();
    let mut i: usize = 0;
    assert(texts(out@) =~= string_views(items@).take(0));
    while i < items.len()
        invariant
            i <= items.len(),
            texts(out@) == string_views(items@).take(i as int),
        decreases items.len() - i,
    {
        let part = chars_of(items[i].as_str());
        proof {
            lemma_texts_push(out@, part);
            let all = string_views(items@);
            assert(all.take(i + 1) =~= all.take(i as int).push(all[i as int]));
        }
        out.push(part);
        i += 1;
    }
    assert(string_views(items@).take(items.len() as int) =~= string_views(items@));
    out
}

/// A copy of a list of strings.
pub fn copy_strings(items: &[String]) -> (out: Vec<String>)
    ensures
        string_views(out@) == string_views(items@),
{
    let mut out: Vec<String> = Vec::new();
    let mut i: usize = 0;
    assert(string_views(out@) =~= string_views(items@).take(0));
    while i < items.len()
        invariant
            i <= items.len(),
            string_views(out@) == string_views(items@).take(i as int),
        decreases items.len() - i,
    {
        let item = items[i].clone();
        proof {
            lemma_string_views_push(out@, item);
            let all = string_views(items@);
            assert(all.take(i + 1) =~= all.take(i as int).push(all[i as int]));
        }
        out.push(item);
        i += 1;
    }
    assert(string_views(items@).take(items.len() as int) =~= string_views(items@));
    out
}

/// A copy of `v[from..to]`.
pub fn range_of(v: &Vec<char>, from: usize, to: usize) -> (out: Vec<char>)
    requires
        from <= to <= v.len(),
    ensures
        out@ == v@.subrange(from as int, to as int),
{
    let mut out: Vec<char> = Vec::new();
    let mut i: usize = from;
    while i < to
        invariant
            from <= i <= to <= v.len(),
            out@ == v@.subrange(from as int, i as int),
        decreases to - i,
    {
        out.push(v[i]);
        i += 1;
    }
    out
}

/// Whether two character vectors hold the same text.
pub fn same_chars(a: &Vec<char>, b: &Vec<char>) -> (same: bool)
    ensures
        same == (a@ == b@),
{
    if a.len() != b.len() {
        return false;
    }
    let mut i: usize = 0;
    while i < a.len()
        invariant
            i <= a.len(),
            a.len() == b.len(),
            a@.take(i as int) == b@.take(i as int),
        decreases a.len() - i,
    {
        if a[i] != b[i] {
            return false;
        }
        assert(a@.take(i + 1) =~= a@.take(i as int).push(a@[i as int]));
        assert(b@.take(i + 1) =~= b@.take(i as int).push(b@[i as int]));
        i += 1;
    }
    assert(a@ =~= a@.take(a.len() as int));
    assert(b@ =~= b@.take(b.len() as int));
    true
}

/// Whether `a` holds exactly the text `word`.
pub fn is_word(a: &Vec<char>, word: &str) -> (same: bool)
    ensures
        same == (a@ == word@),
{
    let w = chars_of(word);
    same_chars(a, &w)
}

/// Whether two strings hold the same text.
pub fn same_text(a: &str, b: &str) -> (same: bool)
    ensures
        same == (a@ == b@),
{
    let x = chars_of(a);
    let y = chars_of(b);
    same_chars(&x, &y)
}

/// Unicode's `White_Space` property: the characters that trimming removes
/// and that end an unquoted value.
pub open spec fn is_space(c: char) -> bool {
    let u = c as u32;
    ||| 0x09 <= u <= 0x0d
    ||| u == 0x20
    ||| u == 0x85
    ||| u == 0xa0
    ||| u == 0x1680
    ||| 0x2000 <= u <= 0x200a
    ||| u == 0x2028
    ||| u == 0x2029
    ||| u == 0x202f
    ||| u == 0x205f
    ||| u == 0x3000
}

/// Decides `is_space`.
pub fn is_space_char(c: char) -> (b: bool)
    ensures
        b == is_space(c),
{
    let u: u32 = c as u32;
    (0x09 <= u && u <= 0x0d) || u == 0x20 || u == 0x85 || u == 0xa0 || u == 0x1680 || (0x2000 <= u
        && u <= 0x200a) || u == 0x2028 || u == 0x2029 || u == 0x202f || u == 0x205f || u == 0x3000
}

/// The first position at or after `i` that holds no whitespace.
pub open spec fn skip_spaces(s: Seq<char>, i: int) -> int
    decreases s.len() - i,
{
    if 0 <= i < s.len() && is_space(s[i]) {
        skip_spaces(s, i + 1)
    } else {
        i
    }
}

/// The end of `s[lo..j]` once its trailing whitespace is cut off.
pub open spec fn back_spaces(s: Seq<char>, lo: int, j: int) -> int
    decreases j,
{
    if 0 <= lo < j <= s.len() && is_space(s[j - 1]) {
        back_spaces(s, lo, j - 1)
    } else {
        j
    }
}

/// `s` without its leading and trailing whitespace.
pub open spec fn trim(s: Seq<char>) -> Seq<char> {
    let a = skip_spaces(s, 0);
    let b = back_spaces(s, a, s.len() as int);
    s.subrange(a, b)
}

pub proof fn lemma_skip_spaces_bounds(s: Seq<char>, i: int)
    requires
        0 <= i <= s.len(),
    ensures
        i <= skip_spaces(s, i) <= s.len(),
    decreases s.len() - i,
{
    if i < s.len() && is_space(s[i]) {
        lemma_skip_spaces_bounds(s, i + 1);
    }
}

pub proof fn lemma_back_spaces_bounds(s: Seq<char>, lo: int, j: int)
    requires
        0 <= lo <= j <= s.len(),
    ensures
        lo <= back_spaces(s, lo, j) <= j,
    decreases j,
{
    if lo < j && is_space(s[j - 1]) {
        lemma_back_spaces_bounds(s, lo, j - 1);
    }
}

/// A copy of `v` without its leading and trailing whitespace.
pub fn trimmed(v: &Vec<char>) -> (out: Vec<char>)
    ensures
        out@ == trim(v@),
{
    let mut a: usize = 0;
    while a < v.len() && is_space_char(v[a])
        invariant
            a <= v.len(),
            skip_spaces(v@, a as int) == skip_spaces(v@, 0),
        decreases v.len() - a,
    {
        a += 1;
    }
    let mut b: usize = v.len();
    while a < b && is_space_char(v[b - 1])
        invariant
            a <= b <= v.len(),
            back_spaces(v@, a as int, b as int) == back_spaces(v@, a as int, v.len() as int),
        decreases b,
    {
        b -= 1;
    }
    range_of(v, a, b)
}

/// The pieces of `s` between the occurrences of `sep`, scanning from `i`
/// with the current piece starting at `start`.
pub open spec fn split_scan(s: Seq<char>, sep: char, i: int, start: int) -> Seq<Seq<char>>
    decreases s.len() - i,
{
    if i < 0 || i >= s.len() {
        seq![s.subrange(start, s.len() as int)]
    } else if s[i] == sep {
        seq![s.subrange(start, i)] + split_scan(s, sep, i + 1, i + 1)
    } else {
        split_scan(s, sep, i + 1, start)
    }
}

/// The pieces of `s` between the occurrences of `sep`. There is always at
/// least one piece; a piece may be empty.
pub open spec fn split_on(s: Seq<char>, sep: char) -> Seq<Seq<char>> {
    split_scan(s, sep, 0, 0)
}

/// Splits `v` at each occurrence of `sep`.
pub fn split_chars(v: &Vec<char>, sep: char) -> (parts: Vec<Vec<char>>)
    ensures
        texts(parts@) == split_on(v@, sep),
{
    let mut parts: Vec<Vec<char>> = Vec::new();
    let mut start: usize = 0;
    let mut i: usize = 0;
    while i < v.len()
        invariant
            start <= i <= v.len(),
            split_on(v@, sep) == texts(parts@) + split_scan(v@, sep, i as int, start as int),
        decreases v.len() - i,
    {
        if v[i] == sep {
            let piece = range_of(v, start, i);
            proof {
                lemma_texts_push(parts@, piece);
                assert(texts(parts@.push(piece)) + split_scan(v@, sep, i + 1, i + 1) =~= texts(
                    parts@,
                ) + (seq![piece@] + split_scan(v@, sep, i + 1, i + 1)));
            }
            parts.push(piece);
            start = i + 1;
        }
        i += 1;
    }
    let piece = range_of(v, start, v.len());
    proof {
        lemma_texts_push(parts@, piece);
        assert(texts(parts@.push(piece)) =~= texts(parts@) + seq![piece@]);
    }
    parts.push(piece);
    parts
}

/// The parts joined with one space between neighbours.
pub open spec fn join_spaced(parts: Seq<Seq<char>>) -> Seq<char>
    decreases parts.len(),
{
    if parts.len() == 0 {
        Seq::empty()
    } else if parts.len() == 1 {
        parts[0]
    } else {
        join_spaced(parts.drop_last()) + seq![' '] + parts.last()
    }
}

/// Joins the parts with one space between neighbours.
pub fn join_with_space(parts: &Vec<Vec<char>>) -> (out: Vec<char>)
    ensures
        out@ == join_spaced(texts(parts@)),
{
    let mut out: Vec<char> = Vec::new();
    let mut i: usize = 0;
    while i < parts.len()
        invariant
            i <= parts.len(),
            out@ == join_spaced(texts(parts@).take(i as int)),
        decreases parts.len() - i,
    {
        let ghost before = out@;
        if i > 0 {
            out.push(' ');
        }
        let part = &parts[i];
        let mut j: usize = 0;
        while j < part.len()
            invariant
                j <= part.len(),
                out@ == (if i > 0 {
                    before + seq![' ']
                } else {
                    before
                }) + part@.take(j as int),
            decreases part.len() - j,
        {
            out.push(part[j]);
            j += 1;
        }
        proof {
            let all = texts(parts@);
            assert(part@.take(part.len() as int) =~= part@);
            assert(all.take(i + 1).drop_last() =~= all.take(i as int));
            assert(all.take(i + 1).last() == part@);
            if i == 0 {
                assert(out@ =~= part@);
            }
        }
        i += 1;
    }
    assert(texts(parts@).take(parts.len() as int) =~= texts(parts@));
    out
}

/// Whether `c` is one of the ten ASCII digits.
pub open spec fn is_digit(c: char) -> bool {
    '0' <= c <= '9'
}

/// Decides `is_digit`.
pub fn is_digit_char(c: char) -> (b: bool)
    ensures
        b == is_digit(c),
{
    c >= '0' && c <= '9'
}

/// The number that an ASCII digit stands for.
pub open spec fn digit_value(c: char) -> nat {
    (c as u32 - '0' as u32) as nat
}

/// Whether every character of `s` is an ASCII digit.
pub open spec fn all_digits(s: Seq<char>) -> bool {
    forall|i: int| 0 <= i < s.len() ==> is_digit(#[trigger] s[i])
}

/// The number that a run of ASCII digits writes in base ten.
pub open spec fn decimal_value(s: Seq<char>) -> nat
    decreases s.len(),
{
    if s.len() == 0 {
        0
    } else {
        10 * decimal_value(s.drop_last()) + digit_value(s.last())
    }
}

/// What `str::parse` reads as an unsigned number: an optional `+`, then one
/// or more ASCII digits.
pub open spec fn unsigned_value(s: Seq<char>) -> Option<nat> {
    let digits = if s.len() > 0 && s[0] == '+' {
        s.subrange(1, s.len() as int)
    } else {
        s
    };
    if digits.len() > 0 && all_digits(digits) {
        Some(decimal_value(digits))
    } else {
        None
    }
}

/// Adding digits never makes the written number smaller.
pub proof fn lemma_decimal_value_grows(s: Seq<char>, k: int)
    requires
        0 <= k <= s.len(),
    ensures
        decimal_value(s.take(k)) <= decimal_value(s),
    decreases s.len() - k,
{
    if k < s.len() {
        assert(s.take(k + 1).drop_last() =~= s.take(k));
        lemma_decimal_value_grows(s, k + 1);
    } else {
        assert(s.take(k) =~= s);
    }
}

/// Reads `v[from..to]` as a run of ASCII digits. The result is `None` when
/// the range is empty, holds anything but digits, or writes a number above
/// `limit`.
pub fn read_digits(v: &Vec<char>, from: usize, to: usize, limit: u64) -> (r: Option<u64>)
    requires
        from <= to <= v.len(),
    ensures
        r == (if from < to && all_digits(v@.subrange(from as int, to as int)) && decimal_value(
            v@.subrange(from as int, to as int),
        ) <= limit {
            Some(decimal_value(v@.subrange(from as int, to as int)) as u64)
        } else {
            None
        }),
{
    if from >= to {
        return None;
    }
    let ghost s = v@.subrange(from as int, to as int);
    let mut value: u64 = 0;
    let mut i: usize = from;
    while i < to
        invariant
            from <= i <= to <= v.len(),
            s == v@.subrange(from as int, to as int),
            all_digits(s.take(i - from)),
            value == decimal_value(s.take(i - from)),
            value <= limit,
        decreases to - i,
    {
        let c = v[i];
        assert(s[i - from] == c);
        assert(s.take(i - from + 1).drop_last() =~= s.take(i - from));
        if !is_digit_char(c) {
            return None;
        }
        let d: u64 = (c as u32 - '0' as u32) as u64;
        assert(all_digits(s.take(i - from + 1))) by {
            assert forall|k: int| 0 <= k < i - from + 1 implies is_digit(
                #[trigger] s.take(i - from + 1)[k],
            ) by {
                if k < i - from {
                    assert(s.take(i - from)[k] == s[k]);
                }
            }
        }
        if limit < d || value > (limit - d) / 10 {
            proof {
                lemma_decimal_value_grows(s, i - from + 1);
            }
            return None;
        }
        value = value * 10 + d;
        i += 1;
    }
    assert(s.take(to - from) =~= s);
    Some(value)
}

/// Reads `v` as `str::parse` reads an unsigned number no larger than
/// `limit`.
pub fn read_unsigned(v: &Vec<char>, limit: u64) -> (r: Option<u64>)
    ensures
        r == (match unsigned_value(v@) {
            Some(n) => if n <= limit {
                Some(n as u64)
            } else {
                None
            },
            None => None,
        }),
{
    let from: usize = if v.len() > 0 && v[0] == '+' {
        1
    } else {
        0
    };
    assert(v@.subrange(0, v.len() as int) =~= v@);
    read_digits(v, from, v.len(), limit)
}

/// The ASCII digit for a number below ten.
pub open spec fn digit_char(d: nat) -> char {
    if d == 0 {
        '0'
    } else if d == 1 {
        '1'
    } else if d == 2 {
        '2'
    } else if d == 3 {
        '3'
    } else if d == 4 {
        '4'
    } else if d == 5 {
        '5'
    } else if d == 6 {
        '6'
    } else if d == 7 {
        '7'
    } else if d == 8 {
        '8'
    } else {
        '9'
    }
}

/// Decides `digit_char`.
pub fn digit_to_char(d: u8) -> (c: char)
    requires
        d < 10,
    ensures
        c == digit_char(d as nat),
        is_digit(c),
        digit_value(c) == d,
{
    match d {
        0 => '0',
        1 => '1',
        2 => '2',
        3 => '3',
        4 => '4',
        5 => '5',
        6 => '6',
        7 => '7',
        8 => '8',
        _ => '9',
    }
}

/// The shortest way to write `n` in base ten.
pub open spec fn decimal_text(n: nat) -> Seq<char>
    decreases n,
{
    if n < 10 {
        seq![digit_char(n)]
    } else {
        decimal_text(n / 10).push(digit_char(n % 10))
    }
}

/// Reading back what `decimal_text` wrote gives the number again.
pub proof fn lemma_decimal_text_reads_back(n: nat)
    ensures
        decimal_text(n).len() > 0,
        all_digits(decimal_text(n)),
        decimal_value(decimal_text(n)) == n,
    decreases n,
{
    let t = decimal_text(n);
    if n < 10 {
        assert(t.drop_last() =~= Seq::<char>::empty());
        assert(decimal_value(t.drop_last()) == 0);
    } else {
        lemma_decimal_text_reads_back(n / 10);
        assert(t.drop_last() =~= decimal_text(n / 10));
        assert forall|i: int| 0 <= i < t.len() implies is_digit(#[trigger] t[i]) by {
            if i < t.len() - 1 {
                assert(t[i] == decimal_text(n / 10)[i]);
            }
        }
    }
}

/// Writes `n` in base ten.
pub fn write_decimal(n: u64) -> (out: Vec<char>)
    ensures
        out@ == decimal_text(n as nat),
{
    let mut rev: Vec<char> = Vec::new();
    let mut rest: u64 = n;
    // Digits are produced from the last one to the first.
    while rest >= 10
        invariant
            decimal_text(n as nat) == decimal_text(rest as nat) + rev@.reverse(),
        decreases rest,
    {
        let c = digit_to_char((rest % 10) as u8);
        proof {
            let head = decimal_text((rest / 10) as nat);
            assert(decimal_text(rest as nat) == head.push(c));
            assert(rev@.push(c).reverse() =~= seq![c] + rev@.reverse());
            assert(head.push(c) + rev@.reverse() =~= head + rev@.push(c).reverse());
        }
        rev.push(c);
        rest = rest / 10;
    }
    let c = digit_to_char(rest as u8);
    let mut out: Vec<char> = Vec::new();
    out.push(c);
    let mut i: usize = rev.len();
    while i > 0
        invariant
            i <= rev.len(),
            out@ == seq![c] + rev@.reverse().take(rev.len() - i),
        decreases i,
    {
        i -= 1;
        proof {
            let r = rev@.reverse();
            assert(r.take(rev.len() - i) =~= r.take(rev.len() - i - 1).push(rev@[i as int]));
        }
        out.push(rev[i]);
    }
    assert(rev@.reverse().take(rev.len() as int) =~= rev@.reverse());
    out
}

/// Appends the characters of `tail` to `out`.
pub fn append_chars(out: &mut Vec<char>, tail: &Vec<char>)
    ensures
        final(out)@ == old(out)@ + tail@,
{
    let mut i: usize = 0;
    while i < tail.len()
        invariant
            i <= tail.len(),
            out@ == old(out)@ + tail@.take(i as int),
        decreases tail.len() - i,
    {
        out.push(tail[i]);
        i += 1;
    }
    assert(tail@.take(tail.len() as int) =~= tail@);
}

/// Appends the characters of `word` to `out`.
pub fn append_word(out: &mut Vec<char>, word: &str)
    ensures
        final(out)@ == old(out)@ + word@,
{
    let w = chars_of(word);
    append_chars(out, &w);
}

} // verus!
