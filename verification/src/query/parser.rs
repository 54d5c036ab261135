//! The query grammar.
//!
//! A query is free text with `--key=value` arguments anywhere in it. A value
//! is either quoted, and may then hold spaces, or runs up to the next
//! whitespace.

use vstd::prelude::*;
use crate::decimal::{saturated, scale_decimal, scaled_value, SizeUnit};
use crate::text::{
    all_digits, chars_of, decimal_value, is_digit, is_digit_char, is_space, is_space_char, is_word,
    join_spaced, join_with_space, lemma_string_views_push, lemma_texts_push, lowercase,
    lowercase_of, range_of, read_digits, read_unsigned, split_chars, split_on, string_of,
    string_views, texts, trim, trimmed, unsigned_value,
};
use crate::query::types::{
    ParsedQuery, PathFilter, PathFilterView, QueryFilters, QueryFiltersView, SizeFilter, TimeField,
    TimeFilter, TimeRange,
};

verus! {

/// The runs of characters that arguments and their values are made of.
#[derive(Debug, Clone, Copy, PartialEq, Eq, Structural)]
pub enum CharClass {
    /// A key: lower-case ASCII letters and `-`.
    Key,
    /// The inside of a quoted value: anything but `"`.
    Quoted,
    /// An unquoted value: anything but whitespace.
    Bare,
    /// A number: ASCII digits.
    Digit,
}

/// Whether `c` may stand in a run of class `class`.
pub open spec fn in_class(c: char, class: CharClass) -> bool {
    match class {
        CharClass::Key => ('a' <= c <= 'z') || c == '-',
        CharClass::Quoted => c != '"',
        CharClass::Bare => !is_space(c),
        CharClass::Digit => is_digit(c),
    }
}

/// Decides `in_class`.
pub fn class_holds(c: char, class: CharClass) -> (b: bool)
    ensures
        b == in_class(c, class),
{
    match class {
        CharClass::Key => (c >= 'a' && c <= 'z') || c == '-',
        CharClass::Quoted => c != '"',
        CharClass::Bare => !is_space_char(c),
        CharClass::Digit => is_digit_char(c),
    }
}

/// The end of the longest run of `class` that starts at `i`.
pub open spec fn run_end(s: Seq<char>, i: int, class: CharClass) -> int
    decreases s.len() - i,
{
    if 0 <= i < s.len() && in_class(s[i], class) {
        run_end(s, i + 1, class)
    } else {
        i
    }
}

pub proof fn lemma_run_end_bounds(s: Seq<char>, i: int, class: CharClass)
    requires
        0 <= i <= s.len(),
    ensures
        i <= run_end(s, i, class) <= s.len(),
    decreases s.len() - i,
{
    if i < s.len() && in_class(s[i], class) {
        lemma_run_end_bounds(s, i + 1, class);
    }
}

/// Every character of a run is of its class.
pub proof fn lemma_run_holds(s: Seq<char>, i: int, class: CharClass, j: int)
    requires
        0 <= i <= j < run_end(s, i, class),
    ensures
        j < s.len(),
        in_class(s[j], class),
    decreases s.len() - i,
{
    if i < s.len() && in_class(s[i], class) {
        if i < j {
            lemma_run_holds(s, i + 1, class, j);
        }
    }
}

/// A run reaches the end where every character from `i` on is of its class.
pub proof fn lemma_run_covers(s: Seq<char>, i: int, class: CharClass)
    requires
        0 <= i <= s.len(),
        forall|j: int| i <= j < s.len() ==> in_class(#[trigger] s[j], class),
    ensures
        run_end(s, i, class) == s.len(),
    decreases s.len() - i,
{
    if i < s.len() {
        lemma_run_covers(s, i + 1, class);
    }
}

/// Finds `run_end`.
pub fn scan_run(v: &Vec<char>, from: usize, class: CharClass) -> (end: usize)
    requires
        from <= v.len(),
    ensures
        end == run_end(v@, from as int, class),
        from <= end <= v.len(),
{
    let mut i: usize = from;
    while i < v.len() && class_holds(v[i], class)
        invariant
            from <= i <= v.len(),
            run_end(v@, i as int, class) == run_end(v@, from as int, class),
        decreases v.len() - i,
    {
        i += 1;
    }
    i
}

/// One `--key=value` argument as plain values.
pub struct FlagView {
    pub key: Seq<char>,
    pub value: Seq<char>,
}

/// One `--key=value` argument.
#[derive(Debug, Clone)]
pub struct Flag {
    pub key: String,
    pub value: String,
}

impl View for Flag {
    type V = FlagView;

    open spec fn view(&self) -> FlagView {
        FlagView { key: self.key@, value: self.value@ }
    }
}

/// The views of a sequence of arguments.
pub open spec fn flag_views(flags: Seq<Flag>) -> Seq<FlagView> {
    flags.map_values(|f: Flag| f@)
}

/// An argument found in a text, and the position just behind it.
pub struct FlagSpan {
    pub flag: FlagView,
    pub end: int,
}

/// The argument that starts exactly at position `i` of `s`, if one does:
/// `--`, a key, `=`, and a value. A value that opens with `"` and has a
/// closing `"` after at least one character is the text between the two;
/// any other value runs up to the next whitespace and is not empty.
pub open spec fn flag_at(s: Seq<char>, i: int) -> Option<FlagSpan> {
    let k = run_end(s, i + 2, CharClass::Key);
    if 0 <= i && i + 2 <= s.len() && s[i] == '-' && s[i + 1] == '-' && i + 2 < k < s.len() && s[k]
        == '=' {
        let v = k + 1;
        let q = run_end(s, v + 1, CharClass::Quoted);
        let b = run_end(s, v, CharClass::Bare);
        if v < s.len() && s[v] == '"' && v + 1 < q < s.len() {
            Some(
                FlagSpan {
                    flag: FlagView { key: s.subrange(i + 2, k), value: s.subrange(v + 1, q) },
                    end: q + 1,
                },
            )
        } else if v < b {
            Some(
                FlagSpan {
                    flag: FlagView { key: s.subrange(i + 2, k), value: s.subrange(v, b) },
                    end: b,
                },
            )
        } else {
            None
        }
    } else {
        None
    }
}

/// An argument lies within the text and is not empty.
pub proof fn lemma_flag_at_bounds(s: Seq<char>, i: int)
    ensures
        flag_at(s, i) matches Some(m) ==> i + 4 <= m.end <= s.len(),
{
    if i >= 0 && i + 2 <= s.len() {
        lemma_run_end_bounds(s, i + 2, CharClass::Key);
        let k = run_end(s, i + 2, CharClass::Key);
        if k < s.len() {
            lemma_run_end_bounds(s, k + 1, CharClass::Bare);
            if k + 2 <= s.len() {
                lemma_run_end_bounds(s, k + 2, CharClass::Quoted);
            }
        }
    }
}

/// The arguments of `s` from position `i` on, in order. The text is read
/// from left to right, and an argument is taken wherever one starts.
pub open spec fn scan_flags(s: Seq<char>, i: int) -> Seq<FlagView>
    decreases s.len() - i,
{
    if i < 0 || i >= s.len() {
        Seq::empty()
    } else {
        match flag_at(s, i) {
            Some(m) => if i < m.end <= s.len() {
                seq![m.flag] + scan_flags(s, m.end)
            } else {
                Seq::empty()
            },
            None => scan_flags(s, i + 1),
        }
    }
}

/// The pieces of text between the arguments of `s` from position `i` on,
/// where the piece being read started at `start`. Each piece is trimmed.
pub open spec fn scan_texts(s: Seq<char>, i: int, start: int) -> Seq<Seq<char>>
    decreases s.len() - i,
{
    if i < 0 || i >= s.len() {
        if start < s.len() {
            seq![trim(s.subrange(start, s.len() as int))]
        } else {
            Seq::empty()
        }
    } else {
        match flag_at(s, i) {
            Some(m) => if i < m.end <= s.len() {
                (if start < i {
                    seq![trim(s.subrange(start, i))]
                } else {
                    Seq::empty()
                }) + scan_texts(s, m.end, m.end)
            } else {
                Seq::empty()
            },
            None => scan_texts(s, i + 1, start),
        }
    }
}

/// The arguments of a query.
pub open spec fn query_flags(input: Seq<char>) -> Seq<FlagView> {
    scan_flags(trim(input), 0)
}

/// The text of a query: what stands between its arguments, without the
/// empty pieces, joined by single spaces and trimmed.
pub open spec fn query_text(input: Seq<char>) -> Seq<char> {
    trim(join_spaced(scan_texts(trim(input), 0, 0).filter(|p: Seq<char>| p.len() > 0)))
}

/// An argument found by `match_flag`.
pub struct FlagMatch {
    pub key: Vec<char>,
    pub value: Vec<char>,
    pub end: usize,
}

/// Finds `flag_at`.
pub fn match_flag(v: &Vec<char>, i: usize) -> (r: Option<FlagMatch>)
    requires
        i < v.len(),
    ensures
        match flag_at(v@, i as int) {
            Some(m) => r matches Some(f) && f.key@ == m.flag.key && f.value@ == m.flag.value
                && f.end == m.end && i < f.end <= v.len(),
            None => r is None,
        },
{
    proof {
        lemma_flag_at_bounds(v@, i as int);
    }
    if v.len() - i < 2 || v[i] != '-' || v[i + 1] != '-' {
        return None;
    }
    let k = scan_run(v, i + 2, CharClass::Key);
    if k == i + 2 || k >= v.len() || v[k] != '=' {
        return None;
    }
    let start = k + 1;
    if start < v.len() && v[start] == '"' {
        let q = scan_run(v, start + 1, CharClass::Quoted);
        if q > start + 1 && q < v.len() {
            return Some(
                FlagMatch {
                    key: range_of(v, i + 2, k),
                    value: range_of(v, start + 1, q),
                    end: q + 1,
                },
            );
        }
    }
    let b = scan_run(v, start, CharClass::Bare);
    if b > start {
        Some(FlagMatch { key: range_of(v, i + 2, k), value: range_of(v, start, b), end: b })
    } else {
        None
    }
}

/// The arguments and the text pieces of `v`, as `scan_flags` and
/// `scan_texts` give them.
pub fn scan_query(v: &Vec<char>) -> (r: (Vec<Flag>, Vec<Vec<char>>))
    ensures
        flag_views(r.0@) == scan_flags(v@, 0),
        texts(r.1@) == scan_texts(v@, 0, 0),
{
    let mut flags: Vec<Flag> = Vec::new();
    let mut parts: Vec<Vec<char>> = Vec::new();
    let mut start: usize = 0;
    let mut i: usize = 0;
    while i < v.len()
        invariant
            start <= i <= v.len(),
            scan_flags(v@, 0) == flag_views(flags@) + scan_flags(v@, i as int),
            scan_texts(v@, 0, 0) == texts(parts@) + scan_texts(v@, i as int, start as int),
        decreases v.len() - i,
    {
        match match_flag(v, i) {
            Some(m) => {
                let ghost span = flag_at(v@, i as int)->0;
                if start < i {
                    let piece = range_of(v, start, i);
                    let piece = trimmed(&piece);
                    proof {
                        lemma_texts_push(parts@, piece);
                        assert(texts(parts@.push(piece)) + scan_texts(
                            v@,
                            span.end,
                            span.end,
                        ) =~= texts(parts@) + (seq![piece@] + scan_texts(v@, span.end, span.end)));
                    }
                    parts.push(piece);
                } else {
                    assert(Seq::<Seq<char>>::empty() + scan_texts(v@, span.end, span.end)
                        =~= scan_texts(v@, span.end, span.end));
                }
                let flag = Flag { key: string_of(&m.key), value: string_of(&m.value) };
                proof {
                    assert(flag@ == span.flag);
                    assert(flag_views(flags@.push(flag)) =~= flag_views(flags@).push(flag@));
                    assert(flag_views(flags@.push(flag)) + scan_flags(v@, span.end) =~= flag_views(
                        flags@,
                    ) + (seq![span.flag] + scan_flags(v@, span.end)));
                }
                flags.push(flag);
                i = m.end;
                start = m.end;
            },
            None => {
                i += 1;
            },
        }
    }
    if start < v.len() {
        let piece = range_of(v, start, v.len());
        let piece = trimmed(&piece);
        proof {
            lemma_texts_push(parts@, piece);
            assert(texts(parts@.push(piece)) =~= texts(parts@) + seq![piece@]);
        }
        parts.push(piece);
    } else {
        assert(texts(parts@) + Seq::<Seq<char>>::empty() =~= texts(parts@));
    }
    assert(flag_views(flags@) + Seq::<FlagView>::empty() =~= flag_views(flags@));
    (flags, parts)
}

/// The pieces of `parts` that are not empty, in order.
pub fn nonempty_parts(parts: Vec<Vec<char>>) -> (kept: Vec<Vec<char>>)
    ensures
        texts(kept@) == texts(parts@).filter(|p: Seq<char>| p.len() > 0),
{
    let ghost pred = |p: Seq<char>| p.len() > 0;
    let ghost all = texts(parts@);
    let mut kept: Vec<Vec<char>> = Vec::new();
    let mut i: usize = 0;
    assert(all.take(0) =~= Seq::<Seq<char>>::empty());
    while i < parts.len()
        invariant
            i <= parts.len(),
            all == texts(parts@),
            pred == (|p: Seq<char>| p.len() > 0),
            texts(kept@) == all.take(i as int).filter(pred),
        decreases parts.len() - i,
    {
        proof {
            assert(all.take(i + 1) =~= all.take(i as int).push(all[i as int]));
            all.take(i as int).lemma_filter_push(all[i as int], pred);
        }
        if parts[i].len() > 0 {
            let piece = parts[i].clone();
            assert(piece@ == parts[i as int]@);
            proof {
                lemma_texts_push(kept@, piece);
            }
            kept.push(piece);
        }
        i += 1;
    }
    assert(all.take(parts.len() as int) =~= all);
    kept
}

/// The values of the arguments named `key`, in the order of the arguments.
pub open spec fn values_of(flags: Seq<FlagView>, key: Seq<char>) -> Seq<Seq<char>>
    decreases flags.len(),
{
    if flags.len() == 0 {
        Seq::empty()
    } else if flags.last().key == key {
        values_of(flags.drop_last(), key).push(flags.last().value)
    } else {
        values_of(flags.drop_last(), key)
    }
}

/// The value of the first argument named `key`.
pub open spec fn first_value(flags: Seq<FlagView>, key: Seq<char>) -> Option<Seq<char>>
    decreases flags.len(),
{
    if flags.len() == 0 {
        None
    } else if flags[0].key == key {
        Some(flags[0].value)
    } else {
        first_value(flags.drop_first(), key)
    }
}

/// Finds `values_of`.
pub fn values_for(flags: &Vec<Flag>, key: &str) -> (vals: Vec<Vec<char>>)
    ensures
        texts(vals@) == values_of(flag_views(flags@), key@),
{
    let ghost all = flag_views(flags@);
    let mut vals: Vec<Vec<char>> = Vec::new();
    let mut i: usize = 0;
    assert(texts(vals@) =~= values_of(all.take(0), key@));
    while i < flags.len()
        invariant
            i <= flags.len(),
            all == flag_views(flags@),
            texts(vals@) == values_of(all.take(i as int), key@),
        decreases flags.len() - i,
    {
        proof {
            assert(all.take(i + 1).drop_last() =~= all.take(i as int));
            assert(all.take(i + 1).last() == flags@[i as int]@);
        }
        let name = chars_of(flags[i].key.as_str());
        if is_word(&name, key) {
            let value = chars_of(flags[i].value.as_str());
            proof {
                lemma_texts_push(vals@, value);
            }
            vals.push(value);
        }
        i += 1;
    }
    assert(all.take(flags.len() as int) =~= all);
    vals
}

/// Finds `first_value`.
pub fn first_value_for(flags: &Vec<Flag>, key: &str) -> (val: Option<Vec<char>>)
    ensures
        match first_value(flag_views(flags@), key@) {
            Some(x) => val matches Some(v) && v@ == x,
            None => val is None,
        },
{
    let ghost all = flag_views(flags@);
    let mut i: usize = 0;
    assert(all.skip(0) =~= all);
    while i < flags.len()
        invariant
            i <= flags.len(),
            all == flag_views(flags@),
            first_value(all, key@) == first_value(all.skip(i as int), key@),
        decreases flags.len() - i,
    {
        proof {
            assert(all.skip(i as int).drop_first() =~= all.skip(i + 1));
            assert(all.skip(i as int)[0] == flags@[i as int]@);
        }
        let name = chars_of(flags[i].key.as_str());
        if is_word(&name, key) {
            return Some(chars_of(flags[i].value.as_str()));
        }
        i += 1;
    }
    None
}

/// One path filter for each pattern.
pub open spec fn path_filters(patterns: Seq<Seq<char>>, exclude: bool) -> Seq<PathFilterView> {
    patterns.map_values(|p: Seq<char>| PathFilterView { pattern: p, exclude })
}

/// The views of a sequence of path filters.
pub open spec fn path_views(filters: Seq<PathFilter>) -> Seq<PathFilterView> {
    filters.map_values(|p: PathFilter| p@)
}

/// Appends one path filter for each pattern.
fn push_paths(out: &mut Vec<PathFilter>, patterns: &Vec<Vec<char>>, exclude: bool)
    ensures
        path_views(final(out)@) == path_views(old(out)@) + path_filters(texts(patterns@), exclude),
{
    let ghost all = path_filters(texts(patterns@), exclude);
    let mut i: usize = 0;
    assert(path_views(out@) + all.take(0) =~= path_views(out@));
    while i < patterns.len()
        invariant
            i <= patterns.len(),
            all == path_filters(texts(patterns@), exclude),
            path_views(out@) == path_views(old(out)@) + all.take(i as int),
        decreases patterns.len() - i,
    {
        let filter = PathFilter { pattern: string_of(&patterns[i]), exclude };
        proof {
            assert(filter@ == all[i as int]);
            assert(path_views(out@.push(filter)) =~= path_views(out@).push(filter@));
            assert(path_views(old(out)@) + all.take(i + 1) =~= (path_views(old(out)@) + all.take(
                i as int,
            )).push(all[i as int]));
        }
        out.push(filter);
        i += 1;
    }
    assert(all.take(patterns.len() as int) =~= all);
}

/// The names that one `type` or `tag` value lists: its pieces between
/// commas, each trimmed, and lower-cased where `lower` is set.
pub open spec fn names(value: Seq<char>, lower: bool) -> Seq<Seq<char>> {
    split_on(value, ',').map_values(
        |p: Seq<char>|
            if lower {
                lowercase_of(trim(p))
            } else {
                trim(p)
            },
    )
}

/// The names that the values list, in order.
pub open spec fn all_names(values: Seq<Seq<char>>, lower: bool) -> Seq<Seq<char>>
    decreases values.len(),
{
    if values.len() == 0 {
        Seq::empty()
    } else {
        all_names(values.drop_last(), lower) + names(values.last(), lower)
    }
}

/// Appends the names that `value` lists.
fn push_names(out: &mut Vec<String>, value: &Vec<char>, lower: bool)
    ensures
        string_views(final(out)@) == string_views(old(out)@) + names(value@, lower),
{
    let pieces = split_chars(value, ',');
    let ghost all = names(value@, lower);
    let mut j: usize = 0;
    assert(string_views(out@) + all.take(0) =~= string_views(out@));
    while j < pieces.len()
        invariant
            j <= pieces.len(),
            texts(pieces@) == split_on(value@, ','),
            all == names(value@, lower),
            string_views(out@) == string_views(old(out)@) + all.take(j as int),
        decreases pieces.len() - j,
    {
        let piece = trimmed(&pieces[j]);
        let plain = string_of(&piece);
        let name = if lower {
            lowercase(plain.as_str())
        } else {
            plain
        };
        proof {
            assert(texts(pieces@)[j as int] == pieces@[j as int]@);
            assert(name@ == all[j as int]);
            lemma_string_views_push(out@, name);
            assert(string_views(old(out)@) + all.take(j + 1) =~= (string_views(old(out)@)
                + all.take(j as int)).push(all[j as int]));
        }
        out.push(name);
        j += 1;
    }
    assert(all.take(pieces.len() as int) =~= all);
}

/// Finds `all_names`.
fn names_for(values: &Vec<Vec<char>>, lower: bool) -> (out: Vec<String>)
    ensures
        string_views(out@) == all_names(texts(values@), lower),
{
    let ghost all = texts(values@);
    let mut out: Vec<String> = Vec::new();
    let mut i: usize = 0;
    assert(string_views(out@) =~= all_names(all.take(0), lower));
    while i < values.len()
        invariant
            i <= values.len(),
            all == texts(values@),
            string_views(out@) == all_names(all.take(i as int), lower),
        decreases values.len() - i,
    {
        proof {
            assert(all.take(i + 1).drop_last() =~= all.take(i as int));
            assert(all.take(i + 1).last() == values@[i as int]@);
        }
        push_names(&mut out, &values[i], lower);
        i += 1;
    }
    assert(all.take(values.len() as int) =~= all);
    out
}

/// The field that a `time-field` value names; `Modified` unless it names
/// another.
pub open spec fn time_field_of(name: Option<Seq<char>>) -> TimeField {
    match name {
        Some(n) => if n == "created"@ {
            TimeField::Created
        } else if n == "indexed"@ {
            TimeField::Indexed
        } else {
            TimeField::Modified
        },
        None => TimeField::Modified,
    }
}

/// A window of the form `<digits><unit>`, the unit being one of `h`, `d`,
/// `w`, `m`, and the number no larger than a `u32`.
pub open spec fn relative_range(s: Seq<char>) -> Option<TimeRange> {
    if s.len() >= 2 && all_digits(s.drop_last()) && decimal_value(s.drop_last()) <= u32::MAX {
        let n = decimal_value(s.drop_last()) as u32;
        if s.last() == 'h' {
            Some(TimeRange::LastHours(n))
        } else if s.last() == 'd' {
            Some(TimeRange::LastDays(n))
        } else if s.last() == 'w' {
            Some(TimeRange::LastWeeks(n))
        } else if s.last() == 'm' {
            Some(TimeRange::LastMonths(n))
        } else {
            None
        }
    } else {
        None
    }
}

/// The window that a lower-cased `time` value names.
pub open spec fn time_range_of(lower: Seq<char>) -> Option<TimeRange> {
    if lower == "today"@ {
        Some(TimeRange::Today)
    } else if lower == "week"@ || lower == "this-week"@ {
        Some(TimeRange::ThisWeek)
    } else if lower == "month"@ || lower == "this-month"@ {
        Some(TimeRange::ThisMonth)
    } else {
        relative_range(lower)
    }
}

/// Finds `time_range_of`.
pub fn time_range_from(lower: &Vec<char>) -> (r: Option<TimeRange>)
    ensures
        r == time_range_of(lower@),
{
    if is_word(lower, "today") {
        return Some(TimeRange::Today);
    }
    if is_word(lower, "week") || is_word(lower, "this-week") {
        return Some(TimeRange::ThisWeek);
    }
    if is_word(lower, "month") || is_word(lower, "this-month") {
        return Some(TimeRange::ThisMonth);
    }
    if lower.len() < 2 {
        return None;
    }
    let last = lower.len() - 1;
    assert(lower@.subrange(0, last as int) =~= lower@.drop_last());
    let n: u32 = match read_digits(lower, 0, last, 0xffff_ffff) {
        Some(n) => n as u32,
        None => {
            return None;
        },
    };
    let unit = lower[last];
    if unit == 'h' {
        Some(TimeRange::LastHours(n))
    } else if unit == 'd' {
        Some(TimeRange::LastDays(n))
    } else if unit == 'w' {
        Some(TimeRange::LastWeeks(n))
    } else if unit == 'm' {
        Some(TimeRange::LastMonths(n))
    } else {
        None
    }
}

/// The Unix time of a date `YYYY-MM-DD`, by a calendar of twelve months of
/// thirty days in a year of 365 days that starts in 1970. Each of the three
/// numbers may carry a `+`; a year before 1970, a month or a day of zero,
/// and anything else is no date.
pub open spec fn date_seconds(s: Seq<char>) -> Option<u64> {
    let parts = split_on(s, '-');
    if parts.len() == 3 {
        match (unsigned_value(parts[0]), unsigned_value(parts[1]), unsigned_value(parts[2])) {
            (Some(y), Some(m), Some(d)) => if 1970 <= y <= i32::MAX && 1 <= m <= u32::MAX && 1 <= d
                <= u32::MAX {
                Some((((y - 1970) * 365 + (m - 1) * 30 + (d - 1)) * 86400) as u64)
            } else {
                None
            },
            _ => None,
        }
    } else {
        None
    }
}

/// Finds `date_seconds`.
pub fn date_from(s: &Vec<char>) -> (r: Option<u64>)
    ensures
        r == date_seconds(s@),
{
    let parts = split_chars(s, '-');
    if parts.len() != 3 {
        return None;
    }
    assert(texts(parts@)[0] == parts@[0]@);
    assert(texts(parts@)[1] == parts@[1]@);
    assert(texts(parts@)[2] == parts@[2]@);
    let year = read_unsigned(&parts[0], 0x7fff_ffff);
    let month = read_unsigned(&parts[1], 0xffff_ffff);
    let day = read_unsigned(&parts[2], 0xffff_ffff);
    match (year, month, day) {
        (Some(y), Some(m), Some(d)) => {
            if y < 1970 || m < 1 || d < 1 {
                None
            } else {
                let days: u64 = (y - 1970) * 365 + (m - 1) * 30 + (d - 1);
                Some(days * 86400)
            }
        },
        _ => None,
    }
}

/// The unit written at position `p`: `kb`, `mb`, `gb` or `b`.
pub open spec fn unit_at(s: Seq<char>, p: int) -> Option<SizeUnit> {
    if 0 <= p && p + 2 <= s.len() && s[p] == 'k' && s[p + 1] == 'b' {
        Some(SizeUnit::Kilobytes)
    } else if 0 <= p && p + 2 <= s.len() && s[p] == 'm' && s[p + 1] == 'b' {
        Some(SizeUnit::Megabytes)
    } else if 0 <= p && p + 2 <= s.len() && s[p] == 'g' && s[p + 1] == 'b' {
        Some(SizeUnit::Gigabytes)
    } else if 0 <= p < s.len() && s[p] == 'b' {
        Some(SizeUnit::Bytes)
    } else {
        None
    }
}

/// How many characters a unit takes.
pub open spec fn unit_len(unit: Option<SizeUnit>) -> int {
    match unit {
        None => 0,
        Some(SizeUnit::Bytes) => 1,
        Some(_) => 2,
    }
}

/// A size read from a text: its bytes, where it ends, and whether a unit
/// was written.
pub struct Amount {
    pub bytes: u64,
    pub end: int,
    pub has_unit: bool,
}

/// The size written at position `p`: digits, then optionally `.` and more
/// digits, then optionally a unit. Without a unit the number counts bytes.
/// The size is computed as double-precision arithmetic computes it, and
/// is the largest `u64` where that is more.
pub open spec fn amount_at(s: Seq<char>, p: int) -> Option<Amount> {
    let a = run_end(s, p, CharClass::Digit);
    let b = run_end(s, a + 1, CharClass::Digit);
    if 0 <= p < a {
        let has_fraction = a < s.len() && s[a] == '.' && a + 1 < b;
        let number_end = if has_fraction {
            b
        } else {
            a
        };
        let fraction = if has_fraction {
            s.subrange(a + 1, b)
        } else {
            Seq::empty()
        };
        let unit = unit_at(s, number_end);
        let factor = match unit {
            Some(u) => u.factor(),
            None => 1,
        };
        Some(
            Amount {
                bytes: saturated(scaled_value(s.subrange(p, a), fraction, factor)),
                end: number_end + unit_len(unit),
                has_unit: unit is Some,
            },
        )
    } else {
        None
    }
}

/// The size condition that a lower-cased `size` value states: `>` or `<`
/// and a size, or two sizes with `-` between them. A single size without
/// `>` is an upper bound. Where the second size of a pair has no unit, the
/// value counts as the first size alone.
pub open spec fn size_filter_of(s: Seq<char>) -> Option<SizeFilter> {
    let p: int = if s.len() > 0 && (s[0] == '<' || s[0] == '>') {
        1
    } else {
        0
    };
    match amount_at(s, p) {
        None => None,
        Some(first) => {
            let single = if p == 1 && s[0] == '>' {
                SizeFilter::GreaterThan(first.bytes)
            } else {
                SizeFilter::LessThan(first.bytes)
            };
            if first.end == s.len() {
                Some(single)
            } else if 0 <= first.end < s.len() && s[first.end] == '-' {
                match amount_at(s, first.end + 1) {
                    Some(second) => if second.end == s.len() {
                        if second.has_unit {
                            Some(SizeFilter::Between(first.bytes, second.bytes))
                        } else {
                            Some(single)
                        }
                    } else {
                        None
                    },
                    None => None,
                }
            } else {
                None
            }
        },
    }
}

/// Finds `unit_at`.
fn unit_from(v: &Vec<char>, p: usize) -> (unit: Option<SizeUnit>)
    requires
        p <= v.len(),
    ensures
        unit == unit_at(v@, p as int),
{
    if v.len() - p >= 2 && v[p + 1] == 'b' {
        if v[p] == 'k' {
            return Some(SizeUnit::Kilobytes);
        } else if v[p] == 'm' {
            return Some(SizeUnit::Megabytes);
        } else if v[p] == 'g' {
            return Some(SizeUnit::Gigabytes);
        }
    }
    if p < v.len() && v[p] == 'b' {
        Some(SizeUnit::Bytes)
    } else {
        None
    }
}

/// Finds `amount_at`: the bytes, the end and whether a unit was written.
fn amount_from(v: &Vec<char>, p: usize) -> (r: Option<(u64, usize, bool)>)
    requires
        p <= v.len(),
    ensures
        match amount_at(v@, p as int) {
            Some(m) => r == Some((m.bytes, m.end as usize, m.has_unit)) && p < m.end <= v.len(),
            None => r is None,
        },
{
    let a = scan_run(v, p, CharClass::Digit);
    if a == p {
        return None;
    }
    let mut number_end = a;
    let mut frac_from = a;
    if a < v.len() && v[a] == '.' {
        let b = scan_run(v, a + 1, CharClass::Digit);
        if b > a + 1 {
            number_end = b;
            frac_from = a + 1;
        }
    }
    proof {
        let whole = v@.subrange(p as int, a as int);
        assert forall|i: int| 0 <= i < whole.len() implies is_digit(#[trigger] whole[i]) by {
            lemma_run_holds(v@, p as int, CharClass::Digit, p + i);
        }
        let fraction = v@.subrange(frac_from as int, number_end as int);
        assert forall|i: int| 0 <= i < fraction.len() implies is_digit(#[trigger] fraction[i]) by {
            lemma_run_holds(v@, a + 1, CharClass::Digit, frac_from + i);
        }
        if frac_from == number_end {
            assert(fraction =~= Seq::<char>::empty());
        }
    }
    let unit = unit_from(v, number_end);
    let (scale, width): (SizeUnit, usize) = match unit {
        Some(SizeUnit::Bytes) => (SizeUnit::Bytes, 1),
        Some(u) => (u, 2),
        None => (SizeUnit::Bytes, 0),
    };
    let bytes = scale_decimal(v, p, a, frac_from, number_end, scale);
    Some((bytes, number_end + width, unit.is_some()))
}

/// Finds `size_filter_of`.
pub fn size_filter_from(lower: &Vec<char>) -> (r: Option<SizeFilter>)
    ensures
        r == size_filter_of(lower@),
{
    let greater = lower.len() > 0 && lower[0] == '>';
    let p: usize = if lower.len() > 0 && (lower[0] == '<' || lower[0] == '>') {
        1
    } else {
        0
    };
    let (bytes, end, _) = match amount_from(lower, p) {
        Some(first) => first,
        None => {
            return None;
        },
    };
    let single = if greater {
        SizeFilter::GreaterThan(bytes)
    } else {
        SizeFilter::LessThan(bytes)
    };
    if end == lower.len() {
        return Some(single);
    }
    if lower[end] != '-' {
        return None;
    }
    match amount_from(lower, end + 1) {
        Some((second, second_end, has_unit)) => {
            if second_end != lower.len() {
                None
            } else if has_unit {
                Some(SizeFilter::Between(bytes, second))
            } else {
                Some(single)
            }
        },
        None => None,
    }
}

/// The unit that the text names, if it names one.
pub open spec fn unit_named(name: Seq<char>) -> Option<SizeUnit> {
    if name == "b"@ {
        Some(SizeUnit::Bytes)
    } else if name == "kb"@ {
        Some(SizeUnit::Kilobytes)
    } else if name == "mb"@ {
        Some(SizeUnit::Megabytes)
    } else if name == "gb"@ {
        Some(SizeUnit::Gigabytes)
    } else {
        None
    }
}

/// The bytes of the number `whole.fraction` in the unit that `unit` names.
/// There is none where `unit` names no unit, `whole` is empty, or either
/// part holds anything but digits.
pub open spec fn size_bytes_of(whole: Seq<char>, fraction: Seq<char>, unit: Seq<char>) -> Option<
    u64,
> {
    match unit_named(unit) {
        Some(u) => if whole.len() > 0 && all_digits(whole) && all_digits(fraction) {
            Some(saturated(scaled_value(whole, fraction, u.factor())))
        } else {
            None
        },
        None => None,
    }
}

/// The time window that the arguments state: the first `time` value, or
/// without one the first `after` value, or without that the first `before`
/// value. A value that cannot be read states nothing.
pub open spec fn time_of(flags: Seq<FlagView>) -> Option<TimeFilter> {
    let field = time_field_of(first_value(flags, "time-field"@));
    let range = match first_value(flags, "time"@) {
        Some(t) => time_range_of(lowercase_of(t)),
        None => match first_value(flags, "after"@) {
            Some(a) => match date_seconds(a) {
                Some(ts) => Some(TimeRange::After(ts)),
                None => None,
            },
            None => match first_value(flags, "before"@) {
                Some(b) => match date_seconds(b) {
                    Some(ts) => Some(TimeRange::Before(ts)),
                    None => None,
                },
                None => None,
            },
        },
    };
    match range {
        Some(r) => Some(TimeFilter { field, range: r }),
        None => None,
    }
}

/// The size condition that the arguments state: that of the first `size`
/// value.
pub open spec fn size_of(flags: Seq<FlagView>) -> Option<SizeFilter> {
    match first_value(flags, "size"@) {
        Some(v) => size_filter_of(lowercase_of(v)),
        None => None,
    }
}

/// The filter conditions that a sequence of arguments states. Arguments
/// with other keys state nothing.
pub open spec fn filters_of(flags: Seq<FlagView>) -> QueryFiltersView {
    QueryFiltersView {
        paths: path_filters(values_of(flags, "path"@), false) + path_filters(
            values_of(flags, "exclude-path"@),
            true,
        ),
        time: time_of(flags),
        file_types: all_names(values_of(flags, "type"@), true),
        size: size_of(flags),
        tags: all_names(values_of(flags, "tag"@), false),
    }
}

/// Stands for "no keyword extractor".
#[derive(Debug, Clone, Copy)]
pub struct NoExtractor;

/// Parses queries. `F` is the keyword extractor, if there is one.
pub struct QueryParser<F> {
    keyword_extractor: Option<F>,
}

impl QueryParser<NoExtractor> {
    /// A parser without a keyword extractor.
    pub fn new() -> (p: Self)
        ensures
            p.extractor() is None,
    {
        QueryParser { keyword_extractor: None }
    }

    /// Parses a query. The text to search for is the query's own text.
    pub fn parse(&self, input: &str) -> (q: ParsedQuery)
        ensures
            q.raw_text@ == query_text(input@),
            q.text@ == query_text(input@),
            q.filters@ == filters_of(query_flags(input@)),
    {
        let (raw_text, flags) = self.split_input(input);
        let filters = self.parse_filters(&flags);
        ParsedQuery { text: raw_text.clone(), raw_text, filters }
    }
}

impl Default for QueryParser<NoExtractor> {
    fn default() -> (p: Self)
        ensures
            p.extractor() is None,
    {
        QueryParser::new()
    }
}

impl<F: Fn(&str) -> String> QueryParser<F> {
    /// Parses a query. Where the parser has a keyword extractor and the
    /// query has text, the text to search for is what the extractor makes
    /// of that text.
    pub fn parse(&self, input: &str) -> (q: ParsedQuery)
        requires
            self.extractor() matches Some(f) ==> forall|t: &str| call_requires(f, (t,)),
        ensures
            q.raw_text@ == query_text(input@),
            q.filters@ == filters_of(query_flags(input@)),
            match self.extractor() {
                Some(f) => if query_text(input@).len() > 0 {
                    exists|t: &str| t@ == query_text(input@) && call_ensures(f, (t,), q.text)
                } else {
                    q.text@ == query_text(input@)
                },
                None => q.text@ == query_text(input@),
            },
    {
        let (raw_text, flags) = self.split_input(input);
        let filters = self.parse_filters(&flags);
        let text = match &self.keyword_extractor {
            Some(f) => {
                if raw_text.as_str().unicode_len() > 0 {
                    f(raw_text.as_str())
                } else {
                    raw_text.clone()
                }
            },
            None => raw_text.clone(),
        };
        ParsedQuery { text, raw_text, filters }
    }
}

impl<F> QueryParser<F> {
    /// The keyword extractor, if there is one.
    pub closed spec fn extractor(&self) -> Option<F> {
        self.keyword_extractor
    }

    /// The same parser with `extractor` as its keyword extractor.
    pub fn with_keyword_extractor<G: Fn(&str) -> String>(self, extractor: G) -> (p: QueryParser<G>)
        ensures
            p.extractor() == Some(extractor),
    {
        QueryParser { keyword_extractor: Some(extractor) }
    }

    /// The text and the arguments of `input`.
    pub fn split_input(&self, input: &str) -> (r: (String, Vec<Flag>))
        ensures
            r.0@ == query_text(input@),
            flag_views(r.1@) == query_flags(input@),
    {
        let chars = chars_of(input);
        let chars = trimmed(&chars);
        let (flags, parts) = scan_query(&chars);
        let kept = nonempty_parts(parts);
        let joined = join_with_space(&kept);
        let raw = trimmed(&joined);
        (string_of(&raw), flags)
    }

    /// The filter conditions that the arguments state.
    pub fn parse_filters(&self, args: &Vec<Flag>) -> (filters: QueryFilters)
        ensures
            filters@ == filters_of(flag_views(args@)),
    {
        let mut paths: Vec<PathFilter> = Vec::new();
        assert(path_views(paths@) =~= Seq::<PathFilterView>::empty());
        let wanted = values_for(args, "path");
        push_paths(&mut paths, &wanted, false);
        let unwanted = values_for(args, "exclude-path");
        push_paths(&mut paths, &unwanted, true);

        let file_types = names_for(&values_for(args, "type"), true);
        let tags = names_for(&values_for(args, "tag"), false);

        let field = match first_value_for(args, "time-field") {
            Some(name) => {
                if is_word(&name, "created") {
                    TimeField::Created
                } else if is_word(&name, "indexed") {
                    TimeField::Indexed
                } else {
                    TimeField::Modified
                }
            },
            None => TimeField::Modified,
        };
        let range = match first_value_for(args, "time") {
            Some(t) => self.parse_time_range(string_of(&t).as_str()),
            None => match first_value_for(args, "after") {
                Some(a) => match date_from(&a) {
                    Some(ts) => Some(TimeRange::After(ts)),
                    None => None,
                },
                None => match first_value_for(args, "before") {
                    Some(b) => match date_from(&b) {
                        Some(ts) => Some(TimeRange::Before(ts)),
                        None => None,
                    },
                    None => None,
                },
            },
        };
        let time = match range {
            Some(r) => Some(TimeFilter { field, range: r }),
            None => None,
        };
        let size = match first_value_for(args, "size") {
            Some(v) => self.parse_size_filter(string_of(&v).as_str()),
            None => None,
        };
        let filters = QueryFilters { paths, time, file_types, size, tags };
        proof {
            let flags = flag_views(args@);
            assert(filters@.paths == path_views(paths@));
            assert(filters@.paths =~= path_filters(values_of(flags, "path"@), false)
                + path_filters(values_of(flags, "exclude-path"@), true));
            assert(filters@.file_types == string_views(file_types@));
            assert(filters@.tags == string_views(tags@));
        }
        filters
    }

    /// The window that a `time` value names, whatever its letter case.
    pub fn parse_time_range(&self, s: &str) -> (r: Option<TimeRange>)
        ensures
            r == time_range_of(lowercase_of(s@)),
    {
        let lower = lowercase(s);
        time_range_from(&chars_of(lower.as_str()))
    }

    /// The Unix time of a date `YYYY-MM-DD`.
    pub fn parse_date(&self, s: &str) -> (r: Option<u64>)
        ensures
            r == date_seconds(s@),
    {
        date_from(&chars_of(s))
    }

    /// The size condition that a `size` value states, whatever its letter
    /// case.
    pub fn parse_size_filter(&self, s: &str) -> (r: Option<SizeFilter>)
        ensures
            r == size_filter_of(lowercase_of(s@)),
    {
        let lower = lowercase(s);
        size_filter_from(&chars_of(lower.as_str()))
    }

    /// The bytes of the decimal number `whole.fraction` in the unit named
    /// `unit`.
    pub fn parse_size_bytes(&self, whole: &str, fraction: &str, unit: &str) -> (r: Option<u64>)
        ensures
            r == size_bytes_of(whole@, fraction@, unit@),
    {
        let name = chars_of(unit);
        let scale = if is_word(&name, "b") {
            SizeUnit::Bytes
        } else if is_word(&name, "kb") {
            SizeUnit::Kilobytes
        } else if is_word(&name, "mb") {
            SizeUnit::Megabytes
        } else if is_word(&name, "gb") {
            SizeUnit::Gigabytes
        } else {
            return None;
        };
        let mut digits = chars_of(whole);
        let split = digits.len();
        let tail = chars_of(fraction);
        let mut i: usize = 0;
        while i < tail.len()
            invariant
                i <= tail.len(),
                split == whole@.len(),
                digits@ == whole@ + tail@.take(i as int),
            decreases tail.len() - i,
        {
            digits.push(tail[i]);
            i += 1;
        }
        assert(tail@.take(tail.len() as int) =~= tail@);
        assert(digits@.subrange(0, split as int) =~= whole@);
        assert(digits@.subrange(split as int, digits.len() as int) =~= fraction@);
        if split == 0 || scan_run(&digits, 0, CharClass::Digit) != digits.len() {
            proof {
                if split > 0 && all_digits(whole@) && all_digits(fraction@) {
                    lemma_run_covers(digits@, 0, CharClass::Digit);
                }
            }
            return None;
        }
        proof {
            assert forall|k: int| 0 <= k < whole@.len() implies is_digit(#[trigger] whole@[k]) by {
                lemma_run_holds(digits@, 0, CharClass::Digit, k);
            }
            assert forall|k: int| 0 <= k < fraction@.len() implies is_digit(
                #[trigger] fraction@[k],
            ) by {
                lemma_run_holds(digits@, 0, CharClass::Digit, split + k);
                assert(digits@[split + k] == fraction@[k]);
            }
        }
        Some(scale_decimal(&digits, 0, split, split, digits.len(), scale))
    }
}

} // verus!
