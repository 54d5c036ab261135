//! Filter conditions written back as arguments.
//!
//! Every set of filter conditions that the parser can give can be written
//! as arguments that state it again. This module says how, and proves that
//! reading the written arguments gives the conditions back.

use vstd::prelude::*;
use crate::decimal::{
    lemma_pow10_positive, lemma_sizes_read_back, pow10, reads_back, scaled_value, SizeUnit,
};
use crate::double::double_floor;
use crate::query::parser::{
    all_names, amount_at, date_seconds, filters_of, first_value, flag_views, in_class, names,
    path_filters, path_views, relative_range, run_end, size_filter_of, size_of, time_field_of,
    time_of, time_range_of, unit_at, values_of, CharClass, Flag, FlagView,
};
use crate::query::types::{
    PathFilter, PathFilterView, QueryFilters, QueryFiltersView, SizeFilter, TimeField, TimeFilter,
    TimeRange,
};
use crate::text::{
    all_digits, append_chars, back_spaces, chars_of, chars_of_each, decimal_text, decimal_value,
    is_digit, is_space, lemma_back_spaces_bounds, lemma_decimal_text_reads_back,
    lemma_skip_spaces_bounds, lemma_texts_push, lowercase_of, skip_spaces, split_on, split_scan,
    string_of, string_views, texts, trim, unsigned_value, write_decimal,
};

verus! {

/// The arguments with the key `key` and the values `values`, in order.
pub open spec fn keyed(key: Seq<char>, values: Seq<Seq<char>>) -> Seq<FlagView> {
    Seq::new(values.len(), |i: int| FlagView { key, value: values[i] })
}

/// The values of a list of arguments are those of its parts, one after
/// the other.
pub proof fn lemma_values_concat(a: Seq<FlagView>, b: Seq<FlagView>, key: Seq<char>)
    ensures
        values_of(a + b, key) == values_of(a, key) + values_of(b, key),
    decreases b.len(),
{
    if b.len() == 0 {
        assert(a + b =~= a);
        assert(values_of(a, key) + values_of(b, key) =~= values_of(a, key));
    } else {
        lemma_values_concat(a, b.drop_last(), key);
        assert((a + b).drop_last() =~= a + b.drop_last());
        assert((a + b).last() == b.last());
        if b.last().key == key {
            assert((values_of(a, key) + values_of(b.drop_last(), key)).push(b.last().value)
                =~= values_of(a, key) + values_of(b.drop_last(), key).push(b.last().value));
        }
    }
}

/// Arguments with one key have their values under that key and none
/// under another.
pub proof fn lemma_values_keyed(own: Seq<char>, values: Seq<Seq<char>>, key: Seq<char>)
    ensures
        values_of(keyed(own, values), key) == (if key == own {
            values
        } else {
            Seq::empty()
        }),
    decreases values.len(),
{
    let flags = keyed(own, values);
    if values.len() > 0 {
        lemma_values_keyed(own, values.drop_last(), key);
        assert(flags.drop_last() =~= keyed(own, values.drop_last()));
        if key == own {
            assert(values.drop_last().push(values.last()) =~= values);
        }
    } else {
        assert(values =~= Seq::<Seq<char>>::empty());
    }
}

/// The first value under a key is the first of the values under it.
pub proof fn lemma_first_is_head(flags: Seq<FlagView>, key: Seq<char>)
    ensures
        first_value(flags, key) == (if values_of(flags, key).len() > 0 {
            Some(values_of(flags, key)[0])
        } else {
            None
        }),
    decreases flags.len(),
{
    if flags.len() > 0 {
        let head = seq![flags[0]];
        let rest = flags.drop_first();
        lemma_first_is_head(rest, key);
        assert(head + rest =~= flags);
        lemma_values_concat(head, rest, key);
        assert(head.drop_last() =~= Seq::<FlagView>::empty());
        assert(values_of(head.drop_last(), key) =~= Seq::<Seq<char>>::empty());
        if flags[0].key == key {
            assert(values_of(head, key) =~= seq![flags[0].value]);
        } else {
            assert(values_of(head, key) =~= Seq::<Seq<char>>::empty());
            assert(values_of(head, key) + values_of(rest, key) =~= values_of(rest, key));
        }
    }
}

/// Whether `c` occurs nowhere in `s`.
pub open spec fn lacks(s: Seq<char>, c: char) -> bool {
    forall|i: int| 0 <= i < s.len() ==> #[trigger] s[i] != c
}

/// A text without the separator is one piece.
pub proof fn lemma_split_none(s: Seq<char>, sep: char)
    requires
        lacks(s, sep),
    ensures
        split_on(s, sep) == seq![s],
{
    lemma_split_tail(s, sep, 0, 0);
    assert(s.subrange(0, s.len() as int) =~= s);
}

/// From a position on behind which the separator does not occur, the
/// rest is one piece.
pub proof fn lemma_split_tail(s: Seq<char>, sep: char, i: int, start: int)
    requires
        0 <= start <= i <= s.len(),
        forall|k: int| i <= k < s.len() ==> #[trigger] s[k] != sep,
    ensures
        split_scan(s, sep, i, start) == seq![s.subrange(start, s.len() as int)],
    decreases s.len() - i,
{
    if i < s.len() {
        lemma_split_tail(s, sep, i + 1, start);
    }
}

/// The pieces of a text that starts with a piece and a separator are
/// that piece and the pieces of the rest.
pub proof fn lemma_split_head(head: Seq<char>, rest: Seq<char>, sep: char)
    requires
        lacks(head, sep),
    ensures
        split_on(head + seq![sep] + rest, sep) == seq![head] + split_on(rest, sep),
{
    let s = head + seq![sep] + rest;
    let n = head.len() as int;
    lemma_split_walk(s, sep, 0, n);
    assert(s.subrange(0, n) =~= head);
    lemma_split_shift(s, rest, sep, n + 1, 0, 0);
}

/// Scanning over characters that are no separator changes nothing.
proof fn lemma_split_walk(s: Seq<char>, sep: char, i: int, n: int)
    requires
        0 <= i <= n < s.len(),
        forall|k: int| i <= k < n ==> #[trigger] s[k] != sep,
        s[n] == sep,
    ensures
        split_scan(s, sep, i, 0) == seq![s.subrange(0, n)] + split_scan(s, sep, n + 1, n + 1),
    decreases n - i,
{
    if i < n {
        lemma_split_walk(s, sep, i + 1, n);
    }
}

/// Scanning the end of a text is scanning that end on its own.
proof fn lemma_split_shift(s: Seq<char>, rest: Seq<char>, sep: char, shift: int, i: int, start: int)
    requires
        0 <= shift,
        0 <= start <= i <= rest.len(),
        s.len() == shift + rest.len(),
        forall|k: int| 0 <= k < rest.len() ==> #[trigger] rest[k] == s[shift + k],
    ensures
        split_scan(s, sep, shift + i, shift + start) == split_scan(rest, sep, i, start),
    decreases rest.len() - i,
{
    if i < rest.len() {
        assert(rest[i] == s[shift + i]);
        if rest[i] == sep {
            lemma_split_shift(s, rest, sep, shift, i + 1, i + 1);
            assert(s.subrange(shift + start, shift + i) =~= rest.subrange(start, i));
        } else {
            lemma_split_shift(s, rest, sep, shift, i + 1, start);
        }
    } else {
        assert(s.subrange(shift + start, s.len() as int) =~= rest.subrange(
            start,
            rest.len() as int,
        ));
    }
}

/// No piece of a split holds the separator.
pub proof fn lemma_pieces_lack_separator(s: Seq<char>, sep: char, i: int, start: int, k: int)
    requires
        0 <= start <= i <= s.len(),
        forall|j: int| start <= j < i ==> #[trigger] s[j] != sep,
        0 <= k < split_scan(s, sep, i, start).len(),
    ensures
        lacks(split_scan(s, sep, i, start)[k], sep),
    decreases s.len() - i,
{
    if i >= s.len() {
        let piece = s.subrange(start, s.len() as int);
        assert forall|j: int| 0 <= j < piece.len() implies #[trigger] piece[j] != sep by {
            assert(piece[j] == s[start + j]);
        }
    } else if s[i] == sep {
        let piece = s.subrange(start, i);
        if k == 0 {
            assert forall|j: int| 0 <= j < piece.len() implies #[trigger] piece[j] != sep by {
                assert(piece[j] == s[start + j]);
            }
        } else {
            lemma_pieces_lack_separator(s, sep, i + 1, i + 1, k - 1);
        }
    } else {
        lemma_pieces_lack_separator(s, sep, i + 1, start, k);
    }
}

/// Where the leading whitespace ends there is none.
pub proof fn lemma_skip_spaces_stops(s: Seq<char>, i: int)
    requires
        0 <= i <= s.len(),
    ensures
        skip_spaces(s, i) < s.len() ==> !is_space(s[skip_spaces(s, i)]),
    decreases s.len() - i,
{
    if i < s.len() && is_space(s[i]) {
        lemma_skip_spaces_stops(s, i + 1);
    }
}

/// Where the trailing whitespace starts there is none in front of it.
pub proof fn lemma_back_spaces_stops(s: Seq<char>, lo: int, j: int)
    requires
        0 <= lo <= j <= s.len(),
    ensures
        lo < back_spaces(s, lo, j) ==> !is_space(s[back_spaces(s, lo, j) - 1]),
    decreases j,
{
    if lo < j && is_space(s[j - 1]) {
        lemma_back_spaces_stops(s, lo, j - 1);
    }
}

/// A text that neither starts nor ends with whitespace is its own trim.
pub proof fn lemma_trim_fixed(s: Seq<char>)
    requires
        s.len() > 0 ==> !is_space(s[0]) && !is_space(s[s.len() - 1]),
    ensures
        trim(s) == s,
{
    assert(s.subrange(0, s.len() as int) =~= s);
}

/// A trimmed text neither starts nor ends with whitespace, and holds only
/// characters of the text.
pub proof fn lemma_trim_ends(s: Seq<char>)
    ensures
        trim(s).len() > 0 ==> !is_space(trim(s)[0]) && !is_space(trim(s)[trim(s).len() - 1]),
        trim(trim(s)) == trim(s),
        forall|c: char| lacks(s, c) ==> lacks(trim(s), c),
{
    let a = skip_spaces(s, 0);
    lemma_skip_spaces_bounds(s, 0);
    lemma_skip_spaces_stops(s, 0);
    let b = back_spaces(s, a, s.len() as int);
    lemma_back_spaces_bounds(s, a, s.len() as int);
    lemma_back_spaces_stops(s, a, s.len() as int);
    let t = trim(s);
    if t.len() > 0 {
        assert(t[0] == s[a]);
        assert(t[t.len() - 1] == s[b - 1]);
    }
    lemma_trim_fixed(t);
    assert forall|c: char| lacks(s, c) implies lacks(t, c) by {
        assert forall|i: int| 0 <= i < t.len() implies #[trigger] t[i] != c by {
            assert(t[i] == s[a + i]);
        }
    }
}

/// A run ends exactly where its class ends.
pub proof fn lemma_run_exact(s: Seq<char>, i: int, j: int, class: CharClass)
    requires
        0 <= i <= j <= s.len(),
        forall|k: int| i <= k < j ==> in_class(#[trigger] s[k], class),
        j < s.len() ==> !in_class(s[j], class),
    ensures
        run_end(s, i, class) == j,
    decreases j - i,
{
    if i < j {
        lemma_run_exact(s, i + 1, j, class);
    }
}

/// How a size condition is written: in bytes, with `>` or `<` in front
/// of a bound and `-` between the two ends of a range.
pub open spec fn size_text(size: SizeFilter) -> Seq<char> {
    match size {
        SizeFilter::GreaterThan(n) => seq!['>'] + decimal_text(n as nat) + seq!['b'],
        SizeFilter::LessThan(n) => seq!['<'] + decimal_text(n as nat) + seq!['b'],
        SizeFilter::Between(min, max) => decimal_text(min as nat) + seq!['b', '-'] + decimal_text(
            max as nat,
        ) + seq!['b'],
    }
}

/// A number of bytes that is written at `p` and followed by `b` is read
/// as that number.
proof fn lemma_read_bytes(s: Seq<char>, p: int, n: u64)
    requires
        0 <= p,
        p + decimal_text(n as nat).len() < s.len(),
        s.subrange(p, p + decimal_text(n as nat).len()) == decimal_text(n as nat),
        s[p + decimal_text(n as nat).len()] == 'b',
        reads_back(n),
    ensures
        amount_at(s, p) matches Some(m) && m.bytes == n && m.end == p + decimal_text(
            n as nat,
        ).len() + 1 && m.has_unit,
{
    let digits = decimal_text(n as nat);
    lemma_decimal_text_reads_back(n as nat);
    let a = p + digits.len();
    assert forall|k: int| p <= k < a implies in_class(#[trigger] s[k], CharClass::Digit) by {
        assert(s[k] == s.subrange(p, a)[k - p]);
        assert(is_digit(digits[k - p]));
    }
    lemma_run_exact(s, p, a, CharClass::Digit);
    assert(unit_at(s, a) == Some(SizeUnit::Bytes));
    let none = Seq::<char>::empty();
    assert(s.subrange(p, a) + none =~= digits);
    assert(pow10(0) == 1);
    assert((n as nat) * 1 == n as nat);
    assert(scaled_value(s.subrange(p, a), none, 1) == double_floor(n as nat, 1));
}

/// Whether the numbers of a size condition are read as themselves.
pub open spec fn size_settled(size: SizeFilter) -> bool {
    match size {
        SizeFilter::GreaterThan(n) => reads_back(n),
        SizeFilter::LessThan(n) => reads_back(n),
        SizeFilter::Between(min, max) => reads_back(min) && reads_back(max),
    }
}

/// A size condition that is written and read is itself, if its numbers
/// are double-precision numbers.
pub proof fn lemma_size_reads_back(size: SizeFilter)
    requires
        size_settled(size),
    ensures
        size_filter_of(size_text(size)) == Some(size),
{
    let s = size_text(size);
    match size {
        SizeFilter::GreaterThan(n) => {
            let d = decimal_text(n as nat);
            assert(s.subrange(1, 1 + d.len() as int) =~= d);
            lemma_read_bytes(s, 1, n);
        },
        SizeFilter::LessThan(n) => {
            let d = decimal_text(n as nat);
            assert(s.subrange(1, 1 + d.len() as int) =~= d);
            lemma_read_bytes(s, 1, n);
        },
        SizeFilter::Between(min, max) => {
            let a = decimal_text(min as nat);
            let b = decimal_text(max as nat);
            lemma_decimal_text_reads_back(min as nat);
            assert(s.subrange(0, a.len() as int) =~= a);
            assert(s[0] == a[0]);
            assert(is_digit(a[0]));
            lemma_read_bytes(s, 0, min);
            let q: int = a.len() as int + 2;
            assert(s.subrange(q, q + b.len() as int) =~= b);
            assert(s[a.len() as int + 1] == '-');
            lemma_read_bytes(s, q, max);
        },
    }
}

/// How a time window is written as the value of `time`, if it can be.
pub open spec fn window_text(range: TimeRange) -> Option<Seq<char>> {
    match range {
        TimeRange::LastHours(n) => Some(decimal_text(n as nat).push('h')),
        TimeRange::LastDays(n) => Some(decimal_text(n as nat).push('d')),
        TimeRange::LastWeeks(n) => Some(decimal_text(n as nat).push('w')),
        TimeRange::LastMonths(n) => Some(decimal_text(n as nat).push('m')),
        TimeRange::Today => Some("today"@),
        TimeRange::ThisWeek => Some("week"@),
        TimeRange::ThisMonth => Some("month"@),
        _ => None,
    }
}

/// A window that is written as the value of `time` and read is itself.
pub proof fn lemma_window_reads_back(range: TimeRange)
    requires
        window_text(range) is Some,
    ensures
        time_range_of(window_text(range)->0) == Some(range),
{
    reveal_strlit("today");
    reveal_strlit("week");
    reveal_strlit("this-week");
    reveal_strlit("month");
    reveal_strlit("this-month");
    let text = window_text(range)->0;
    match range {
        TimeRange::LastHours(n) => lemma_relative_reads_back(n, 'h'),
        TimeRange::LastDays(n) => lemma_relative_reads_back(n, 'd'),
        TimeRange::LastWeeks(n) => lemma_relative_reads_back(n, 'w'),
        TimeRange::LastMonths(n) => lemma_relative_reads_back(n, 'm'),
        TimeRange::Today => {},
        TimeRange::ThisWeek => {
            assert("week"@.len() != "today"@.len());
        },
        TimeRange::ThisMonth => {
            assert("month"@[0] != "today"@[0]);
            assert("month"@.len() != "week"@.len());
            assert("month"@.len() != "this-week"@.len());
        },
        _ => {},
    }
}

/// A number with a unit behind it is none of the named windows, and is
/// read as the number and the unit.
proof fn lemma_relative_reads_back(n: u32, unit: char)
    ensures
        time_range_of(decimal_text(n as nat).push(unit)) == relative_range(
            decimal_text(n as nat).push(unit),
        ),
        decimal_text(n as nat).push(unit).drop_last() == decimal_text(n as nat),
        all_digits(decimal_text(n as nat)),
        decimal_value(decimal_text(n as nat)) == n,
        decimal_text(n as nat).push(unit).len() >= 2,
        decimal_text(n as nat).push(unit).last() == unit,
{
    reveal_strlit("today");
    reveal_strlit("week");
    reveal_strlit("this-week");
    reveal_strlit("month");
    reveal_strlit("this-month");
    let digits = decimal_text(n as nat);
    lemma_decimal_text_reads_back(n as nat);
    let text = digits.push(unit);
    assert(text.drop_last() =~= digits);
    assert(text[0] == digits[0]);
    assert(is_digit(digits[0]));
    assert(text[0] != "today"@[0]);
    assert(text[0] != "week"@[0]);
    assert(text[0] != "this-week"@[0]);
    assert(text[0] != "month"@[0]);
    assert(text[0] != "this-month"@[0]);
}

/// The Unix time of the day `d` of the month `m` of the year `y` by the
/// parser's calendar.
pub open spec fn date_value(y: int, m: int, d: int) -> int {
    ((y - 1970) * 365 + (m - 1) * 30 + (d - 1)) * 86400
}

/// Whether `ts` is the Unix time of a date that the parser reads.
pub open spec fn is_date_value(ts: u64) -> bool {
    exists|y: int, m: int, d: int|
        1970 <= y <= i32::MAX && 1 <= m <= u32::MAX && 1 <= d <= u32::MAX && ts
            == #[trigger] date_value(y, m, d)
}

/// A year, a month and a day whose date has the Unix time `ts`: as many
/// whole years as fit, then as many whole months, then days.
pub open spec fn date_parts(ts: u64) -> (int, int, int) {
    let days = ts as int / 86400;
    let years = if days / 365 <= 2147481677 {
        days / 365
    } else {
        2147481677
    };
    let rest = days - years * 365;
    let months = if rest / 30 <= 4294967294 {
        rest / 30
    } else {
        4294967294
    };
    (1970 + years, 1 + months, 1 + rest - months * 30)
}

/// How a date is written: year, month and day with `-` between them.
pub open spec fn date_text(ts: u64) -> Seq<char> {
    decimal_text(date_parts(ts).0 as nat) + seq!['-'] + decimal_text(date_parts(ts).1 as nat)
        + seq!['-'] + decimal_text(date_parts(ts).2 as nat)
}

/// The parts of a date value are a date that the parser reads, with that
/// value.
pub proof fn lemma_date_parts(ts: u64)
    requires
        is_date_value(ts),
    ensures
        1970 <= date_parts(ts).0 <= i32::MAX,
        1 <= date_parts(ts).1 <= u32::MAX,
        1 <= date_parts(ts).2 <= u32::MAX,
        date_value(date_parts(ts).0, date_parts(ts).1, date_parts(ts).2) == ts,
{
    let (y, m, d) = choose|y: int, m: int, d: int|
        1970 <= y <= i32::MAX && 1 <= m <= u32::MAX && 1 <= d <= u32::MAX && ts
            == #[trigger] date_value(y, m, d);
    let days = (y - 1970) * 365 + (m - 1) * 30 + (d - 1);
    assert(ts as int / 86400 == days);
}

/// A text of digits holds neither `-` nor `,`, does not start with `+`,
/// and is read as the number it writes.
proof fn lemma_number_text(n: nat)
    ensures
        lacks(decimal_text(n), '-'),
        unsigned_value(decimal_text(n)) == Some(n),
{
    lemma_decimal_text_reads_back(n);
    let t = decimal_text(n);
    assert forall|i: int| 0 <= i < t.len() implies #[trigger] t[i] != '-' by {
        assert(is_digit(t[i]));
    }
    assert(is_digit(t[0]));
}

/// A date that is written and read is itself.
pub proof fn lemma_date_reads_back(ts: u64)
    requires
        is_date_value(ts),
    ensures
        date_seconds(date_text(ts)) == Some(ts),
{
    lemma_date_parts(ts);
    let (y, m, d) = date_parts(ts);
    let yt = decimal_text(y as nat);
    let mt = decimal_text(m as nat);
    let dt = decimal_text(d as nat);
    lemma_number_text(y as nat);
    lemma_number_text(m as nat);
    lemma_number_text(d as nat);
    let tail = mt + seq!['-'] + dt;
    assert(date_text(ts) =~= yt + seq!['-'] + tail);
    lemma_split_head(yt, tail, '-');
    lemma_split_head(mt, dt, '-');
    lemma_split_none(dt, '-');
    let parts = split_on(date_text(ts), '-');
    assert(parts =~= seq![yt, mt, dt]);
}

/// The patterns of the filters that include, in order.
pub open spec fn includes_of(paths: Seq<PathFilterView>) -> Seq<Seq<char>>
    decreases paths.len(),
{
    if paths.len() == 0 {
        Seq::empty()
    } else if paths.last().exclude {
        includes_of(paths.drop_last())
    } else {
        includes_of(paths.drop_last()).push(paths.last().pattern)
    }
}

/// The patterns of the filters that exclude, in order.
pub open spec fn excludes_of(paths: Seq<PathFilterView>) -> Seq<Seq<char>>
    decreases paths.len(),
{
    if paths.len() == 0 {
        Seq::empty()
    } else if paths.last().exclude {
        excludes_of(paths.drop_last()).push(paths.last().pattern)
    } else {
        excludes_of(paths.drop_last())
    }
}

/// The name of a time field.
pub open spec fn field_text(field: TimeField) -> Seq<char> {
    match field {
        TimeField::Created => "created"@,
        TimeField::Modified => "modified"@,
        TimeField::Indexed => "indexed"@,
    }
}

/// None or one value.
pub open spec fn maybe(value: Option<Seq<char>>) -> Seq<Seq<char>> {
    match value {
        Some(v) => seq![v],
        None => Seq::empty(),
    }
}

/// The value of `time-field`, if a time window is stated.
pub open spec fn field_value(time: Option<TimeFilter>) -> Option<Seq<char>> {
    match time {
        Some(t) => Some(field_text(t.field)),
        None => None,
    }
}

/// The value of `time`, if the time window is written there.
pub open spec fn time_value(time: Option<TimeFilter>) -> Option<Seq<char>> {
    match time {
        Some(t) => window_text(t.range),
        None => None,
    }
}

/// The value of `after`, if the time window starts at a date.
pub open spec fn after_value(time: Option<TimeFilter>) -> Option<Seq<char>> {
    match time {
        Some(t) => match t.range {
            TimeRange::After(ts) => Some(date_text(ts)),
            _ => None,
        },
        None => None,
    }
}

/// The value of `before`, if the time window ends at a date.
pub open spec fn before_value(time: Option<TimeFilter>) -> Option<Seq<char>> {
    match time {
        Some(t) => match t.range {
            TimeRange::Before(ts) => Some(date_text(ts)),
            _ => None,
        },
        None => None,
    }
}

/// The value of `size`, if a size condition is stated.
pub open spec fn size_value(size: Option<SizeFilter>) -> Option<Seq<char>> {
    match size {
        Some(s) => Some(size_text(s)),
        None => None,
    }
}

/// The arguments that state the filter conditions `f`: one `path` for
/// each including pattern, one `exclude-path` for each excluding one, one
/// `type` for each type, one `tag` for each tag, the time field and the
/// time window, and the size condition.
pub open spec fn rendered(f: QueryFiltersView) -> Seq<FlagView> {
    keyed("path"@, includes_of(f.paths)) + keyed("exclude-path"@, excludes_of(f.paths)) + keyed(
        "type"@,
        f.file_types,
    ) + keyed("tag"@, f.tags) + keyed("time-field"@, maybe(field_value(f.time))) + keyed(
        "time"@,
        maybe(time_value(f.time)),
    ) + keyed("after"@, maybe(after_value(f.time))) + keyed(
        "before"@,
        maybe(before_value(f.time)),
    ) + keyed("size"@, maybe(size_value(f.size)))
}

/// The values under `key` if it is `own`.
pub open spec fn under(own: Seq<char>, key: Seq<char>, values: Seq<Seq<char>>) -> Seq<Seq<char>> {
    if key == own {
        values
    } else {
        Seq::empty()
    }
}

/// The values of the written arguments under a key.
pub proof fn lemma_rendered_values(f: QueryFiltersView, key: Seq<char>)
    ensures
        values_of(rendered(f), key) == under("path"@, key, includes_of(f.paths)) + under(
            "exclude-path"@,
            key,
            excludes_of(f.paths),
        ) + under("type"@, key, f.file_types) + under("tag"@, key, f.tags) + under(
            "time-field"@,
            key,
            maybe(field_value(f.time)),
        ) + under("time"@, key, maybe(time_value(f.time))) + under(
            "after"@,
            key,
            maybe(after_value(f.time)),
        ) + under("before"@, key, maybe(before_value(f.time))) + under(
            "size"@,
            key,
            maybe(size_value(f.size)),
        ),
{
    let g1 = keyed("path"@, includes_of(f.paths));
    let g2 = keyed("exclude-path"@, excludes_of(f.paths));
    let g3 = keyed("type"@, f.file_types);
    let g4 = keyed("tag"@, f.tags);
    let g5 = keyed("time-field"@, maybe(field_value(f.time)));
    let g6 = keyed("time"@, maybe(time_value(f.time)));
    let g7 = keyed("after"@, maybe(after_value(f.time)));
    let g8 = keyed("before"@, maybe(before_value(f.time)));
    let g9 = keyed("size"@, maybe(size_value(f.size)));
    lemma_values_keyed("path"@, includes_of(f.paths), key);
    lemma_values_keyed("exclude-path"@, excludes_of(f.paths), key);
    lemma_values_keyed("type"@, f.file_types, key);
    lemma_values_keyed("tag"@, f.tags, key);
    lemma_values_keyed("time-field"@, maybe(field_value(f.time)), key);
    lemma_values_keyed("time"@, maybe(time_value(f.time)), key);
    lemma_values_keyed("after"@, maybe(after_value(f.time)), key);
    lemma_values_keyed("before"@, maybe(before_value(f.time)), key);
    lemma_values_keyed("size"@, maybe(size_value(f.size)), key);
    lemma_values_concat(g1, g2, key);
    lemma_values_concat(g1 + g2, g3, key);
    lemma_values_concat(g1 + g2 + g3, g4, key);
    lemma_values_concat(g1 + g2 + g3 + g4, g5, key);
    lemma_values_concat(g1 + g2 + g3 + g4 + g5, g6, key);
    lemma_values_concat(g1 + g2 + g3 + g4 + g5 + g6, g7, key);
    lemma_values_concat(g1 + g2 + g3 + g4 + g5 + g6 + g7, g8, key);
    lemma_values_concat(g1 + g2 + g3 + g4 + g5 + g6 + g7 + g8, g9, key);
}

/// The keys of the arguments differ from each other.
pub proof fn lemma_keys_differ()
    ensures
        "path"@ != "exclude-path"@,
        "path"@ != "type"@,
        "path"@ != "tag"@,
        "path"@ != "time-field"@,
        "path"@ != "time"@,
        "path"@ != "after"@,
        "path"@ != "before"@,
        "path"@ != "size"@,
        "exclude-path"@ != "type"@,
        "exclude-path"@ != "tag"@,
        "exclude-path"@ != "time-field"@,
        "exclude-path"@ != "time"@,
        "exclude-path"@ != "after"@,
        "exclude-path"@ != "before"@,
        "exclude-path"@ != "size"@,
        "type"@ != "tag"@,
        "type"@ != "time-field"@,
        "type"@ != "time"@,
        "type"@ != "after"@,
        "type"@ != "before"@,
        "type"@ != "size"@,
        "tag"@ != "time-field"@,
        "tag"@ != "time"@,
        "tag"@ != "after"@,
        "tag"@ != "before"@,
        "tag"@ != "size"@,
        "time-field"@ != "time"@,
        "time-field"@ != "after"@,
        "time-field"@ != "before"@,
        "time-field"@ != "size"@,
        "time"@ != "after"@,
        "time"@ != "before"@,
        "time"@ != "size"@,
        "after"@ != "before"@,
        "after"@ != "size"@,
        "before"@ != "size"@,
        "created"@ != "indexed"@,
        "modified"@ != "created"@,
        "modified"@ != "indexed"@,
{
    reveal_strlit("path");
    reveal_strlit("exclude-path");
    reveal_strlit("type");
    reveal_strlit("tag");
    reveal_strlit("time-field");
    reveal_strlit("time");
    reveal_strlit("after");
    reveal_strlit("before");
    reveal_strlit("size");
    reveal_strlit("created");
    reveal_strlit("indexed");
    reveal_strlit("modified");
    assert("path"@.len() == 4 && "exclude-path"@.len() == 12 && "type"@.len() == 4);
    assert("tag"@.len() == 3 && "time-field"@.len() == 10 && "time"@.len() == 4);
    assert("after"@.len() == 5 && "before"@.len() == 6 && "size"@.len() == 4);
    assert("created"@.len() == 7 && "indexed"@.len() == 7 && "modified"@.len() == 8);
    assert("path"@[0] != "type"@[0]);
    assert("path"@[0] != "time"@[0]);
    assert("path"@[0] != "size"@[0]);
    assert("type"@[1] != "time"@[1]);
    assert("type"@[0] != "size"@[0]);
    assert("time"@[0] != "size"@[0]);
    assert("created"@[0] != "indexed"@[0]);
}

/// Whether a type name is read as itself: it holds no comma, and
/// trimming and lower-casing leave it as it is.
pub open spec fn stable_type(name: Seq<char>) -> bool {
    lacks(name, ',') && lowercase_of(trim(name)) == name
}

/// Whether a tag is read as itself: it holds no comma and neither starts
/// nor ends with whitespace.
pub open spec fn stable_tag(name: Seq<char>) -> bool {
    lacks(name, ',') && trim(name) == name
}

/// Whether a time window can be written: it is relative to now or named,
/// or it starts or ends at a date that the parser reads.
pub open spec fn writable_time(time: Option<TimeFilter>) -> bool {
    match time {
        Some(t) => match t.range {
            TimeRange::Between(_, _) => false,
            TimeRange::After(ts) => is_date_value(ts),
            TimeRange::Before(ts) => is_date_value(ts),
            _ => true,
        },
        None => true,
    }
}

/// Whether filter conditions have the shape of what the parser gives:
/// the including patterns stand before the excluding ones, the tags are
/// trimmed and without commas, the time window can be written, and the
/// sizes are double-precision numbers.
pub open spec fn has_shape(f: QueryFiltersView) -> bool {
    &&& f.paths == path_filters(includes_of(f.paths), false) + path_filters(
        excludes_of(f.paths),
        true,
    )
    &&& forall|i: int| 0 <= i < f.tags.len() ==> stable_tag(#[trigger] f.tags[i])
    &&& writable_time(f.time)
    &&& f.size matches Some(s) ==> size_settled(s)
}

/// Whether lower-casing leaves the conditions as they are: each type name
/// is read as itself, and the written time window and size condition,
/// which are made of digits, lower-case letters and `<`, `>`, `-`, are not
/// changed by lower-casing.
pub open spec fn case_stable(f: QueryFiltersView) -> bool {
    &&& forall|i: int| 0 <= i < f.file_types.len() ==> stable_type(#[trigger] f.file_types[i])
    &&& time_value(f.time) matches Some(t) ==> lowercase_of(t) == t
    &&& f.size matches Some(s) ==> lowercase_of(size_text(s)) == size_text(s)
}

/// Names that are each read as themselves are read as themselves together.
proof fn lemma_names_read_back(values: Seq<Seq<char>>, lower: bool)
    requires
        forall|i: int| 0 <= i < values.len() ==> names(#[trigger] values[i], lower) == seq![values[i]],
    ensures
        all_names(values, lower) == values,
    decreases values.len(),
{
    if values.len() > 0 {
        let head = values.drop_last();
        assert forall|i: int| 0 <= i < head.len() implies names(#[trigger] head[i], lower) == seq![
            head[i],
        ] by {
            assert(head[i] == values[i]);
        }
        lemma_names_read_back(head, lower);
        assert(names(values[values.len() - 1], lower) == seq![values.last()]);
        assert(head + seq![values.last()] =~= values);
    }
}

/// A name without a comma is one name.
proof fn lemma_one_name(name: Seq<char>, lower: bool)
    requires
        lacks(name, ','),
    ensures
        names(name, lower) == seq![if lower {
            lowercase_of(trim(name))
        } else {
            trim(name)
        }],
{
    lemma_split_none(name, ',');
    assert(names(name, lower) =~= seq![if lower {
        lowercase_of(trim(name))
    } else {
        trim(name)
    }]);
}

/// Conditions of the parser's shape that lower-casing leaves as they are
/// are read back from the arguments that state them.
pub proof fn lemma_written_reads_back(f: QueryFiltersView)
    requires
        has_shape(f),
        case_stable(f),
    ensures
        filters_of(rendered(f)) == f,
{
    let r = rendered(f);
    let none = Seq::<Seq<char>>::empty();
    lemma_keys_differ();
    lemma_rendered_values(f, "path"@);
    lemma_rendered_values(f, "exclude-path"@);
    lemma_rendered_values(f, "type"@);
    lemma_rendered_values(f, "tag"@);
    lemma_rendered_values(f, "time-field"@);
    lemma_rendered_values(f, "time"@);
    lemma_rendered_values(f, "after"@);
    lemma_rendered_values(f, "before"@);
    lemma_rendered_values(f, "size"@);
    assert(values_of(r, "path"@) =~= includes_of(f.paths));
    assert(values_of(r, "exclude-path"@) =~= excludes_of(f.paths));
    assert(values_of(r, "type"@) =~= f.file_types);
    assert(values_of(r, "tag"@) =~= f.tags);
    assert(values_of(r, "time-field"@) =~= maybe(field_value(f.time)));
    assert(values_of(r, "time"@) =~= maybe(time_value(f.time)));
    assert(values_of(r, "after"@) =~= maybe(after_value(f.time)));
    assert(values_of(r, "before"@) =~= maybe(before_value(f.time)));
    assert(values_of(r, "size"@) =~= maybe(size_value(f.size)));
    lemma_first_is_head(r, "time-field"@);
    lemma_first_is_head(r, "time"@);
    lemma_first_is_head(r, "after"@);
    lemma_first_is_head(r, "before"@);
    lemma_first_is_head(r, "size"@);
    // Types and tags.
    assert forall|i: int| 0 <= i < f.file_types.len() implies names(
        #[trigger] f.file_types[i],
        true,
    ) == seq![f.file_types[i]] by {
        assert(stable_type(f.file_types[i]));
        lemma_one_name(f.file_types[i], true);
    }
    lemma_names_read_back(f.file_types, true);
    assert forall|i: int| 0 <= i < f.tags.len() implies names(#[trigger] f.tags[i], false) == seq![
        f.tags[i],
    ] by {
        assert(stable_tag(f.tags[i]));
        lemma_one_name(f.tags[i], false);
    }
    lemma_names_read_back(f.tags, false);
    // The time window.
    match f.time {
        Some(t) => {
            assert(first_value(r, "time-field"@) == Some(field_text(t.field)));
            assert(time_field_of(first_value(r, "time-field"@)) == t.field);
            match t.range {
                TimeRange::After(ts) => {
                    lemma_date_reads_back(ts);
                },
                TimeRange::Before(ts) => {
                    lemma_date_reads_back(ts);
                },
                TimeRange::Between(_, _) => {},
                _ => {
                    lemma_window_reads_back(t.range);
                },
            }
            assert(time_of(r) == f.time);
        },
        None => {
            assert(time_of(r) == f.time);
        },
    }
    // The size condition.
    match f.size {
        Some(s) => {
            lemma_size_reads_back(s);
        },
        None => {},
    }
    assert(size_of(r) == f.size);
    assert(filters_of(r).paths == f.paths);
    assert(filters_of(r).file_types == f.file_types);
    assert(filters_of(r).tags == f.tags);
}

/// The including patterns of a list of filters are those of its parts.
proof fn lemma_includes_concat(a: Seq<PathFilterView>, b: Seq<PathFilterView>)
    ensures
        includes_of(a + b) == includes_of(a) + includes_of(b),
        excludes_of(a + b) == excludes_of(a) + excludes_of(b),
    decreases b.len(),
{
    if b.len() == 0 {
        assert(a + b =~= a);
        assert(includes_of(a) + includes_of(b) =~= includes_of(a));
        assert(excludes_of(a) + excludes_of(b) =~= excludes_of(a));
    } else {
        lemma_includes_concat(a, b.drop_last());
        assert((a + b).drop_last() =~= a + b.drop_last());
        assert((a + b).last() == b.last());
        if b.last().exclude {
            assert((excludes_of(a) + excludes_of(b.drop_last())).push(b.last().pattern)
                =~= excludes_of(a) + excludes_of(b.drop_last()).push(b.last().pattern));
        } else {
            assert((includes_of(a) + includes_of(b.drop_last())).push(b.last().pattern)
                =~= includes_of(a) + includes_of(b.drop_last()).push(b.last().pattern));
        }
    }
}

/// Filters made from patterns have those patterns.
proof fn lemma_includes_of_made(patterns: Seq<Seq<char>>, exclude: bool)
    ensures
        includes_of(path_filters(patterns, exclude)) == (if exclude {
            Seq::empty()
        } else {
            patterns
        }),
        excludes_of(path_filters(patterns, exclude)) == (if exclude {
            patterns
        } else {
            Seq::empty()
        }),
    decreases patterns.len(),
{
    let made = path_filters(patterns, exclude);
    if patterns.len() > 0 {
        lemma_includes_of_made(patterns.drop_last(), exclude);
        assert(made.drop_last() =~= path_filters(patterns.drop_last(), exclude));
        assert(made.last().pattern == patterns.last());
        assert(patterns.drop_last().push(patterns.last()) =~= patterns);
    } else {
        assert(patterns =~= Seq::<Seq<char>>::empty());
    }
}

/// The names that the parser reads from `tag` values are trimmed and
/// without commas.
proof fn lemma_tags_are_stable(values: Seq<Seq<char>>, i: int)
    requires
        0 <= i < all_names(values, false).len(),
    ensures
        stable_tag(all_names(values, false)[i]),
    decreases values.len(),
{
    if values.len() > 0 {
        let head = all_names(values.drop_last(), false);
        if i < head.len() {
            lemma_tags_are_stable(values.drop_last(), i);
        } else {
            let k = i - head.len();
            let pieces = split_on(values.last(), ',');
            assert(names(values.last(), false)[k] == trim(pieces[k]));
            lemma_pieces_lack_separator(values.last(), ',', 0, 0, k);
            lemma_trim_ends(pieces[k]);
        }
    }
}

/// What the parser gives has the parser's shape.
pub proof fn lemma_parsed_has_shape(flags: Seq<FlagView>)
    ensures
        has_shape(filters_of(flags)),
{
    let f = filters_of(flags);
    let a = values_of(flags, "path"@);
    let b = values_of(flags, "exclude-path"@);
    lemma_includes_concat(path_filters(a, false), path_filters(b, true));
    lemma_includes_of_made(a, false);
    lemma_includes_of_made(b, true);
    assert(includes_of(f.paths) =~= a);
    assert(excludes_of(f.paths) =~= b);
    assert forall|i: int| 0 <= i < f.tags.len() implies stable_tag(#[trigger] f.tags[i]) by {
        lemma_tags_are_stable(values_of(flags, "tag"@), i);
    }
    match first_value(flags, "size"@) {
        Some(v) => {
            lemma_parsed_size_settled(lowercase_of(v));
        },
        None => {},
    }
    match f.time {
        Some(t) => {
            match t.range {
                TimeRange::After(ts) => {
                    let text = first_value(flags, "after"@)->0;
                    lemma_date_seconds_is_date(text);
                },
                TimeRange::Before(ts) => {
                    let text = first_value(flags, "before"@)->0;
                    lemma_date_seconds_is_date(text);
                },
                _ => {},
            }
        },
        None => {},
    }
}

/// The numbers of a size condition that the parser reads are
/// double-precision numbers.
proof fn lemma_parsed_size_settled(text: Seq<char>)
    ensures
        size_filter_of(text) matches Some(s) ==> size_settled(s),
{
    let p: int = if text.len() > 0 && (text[0] == '<' || text[0] == '>') {
        1
    } else {
        0
    };
    lemma_amount_settled(text, p);
    match amount_at(text, p) {
        Some(first) => {
            lemma_amount_settled(text, first.end + 1);
        },
        None => {},
    }
}

/// A size that the parser reads is a double-precision number.
proof fn lemma_amount_settled(text: Seq<char>, p: int)
    ensures
        amount_at(text, p) matches Some(m) ==> reads_back(m.bytes),
{
    match amount_at(text, p) {
        Some(m) => {
            let a = run_end(text, p, CharClass::Digit);
            let b = run_end(text, a + 1, CharClass::Digit);
            let has_fraction = a < text.len() && text[a] == '.' && a + 1 < b;
            let number_end = if has_fraction {
                b
            } else {
                a
            };
            let fraction = if has_fraction {
                text.subrange(a + 1, b)
            } else {
                Seq::empty()
            };
            let factor: nat = match unit_at(text, number_end) {
                Some(u) => u.factor(),
                None => 1,
            };
            lemma_pow10_positive(fraction.len());
            lemma_sizes_read_back(
                decimal_value(text.subrange(p, a) + fraction) * factor,
                pow10(fraction.len()),
            );
        },
        None => {},
    }
}

/// What the parser reads as a date is the value of a date.
proof fn lemma_date_seconds_is_date(text: Seq<char>)
    ensures
        date_seconds(text) matches Some(ts) ==> is_date_value(ts),
{
    if date_seconds(text) is Some {
        let parts = split_on(text, '-');
        let y = unsigned_value(parts[0])->0 as int;
        let m = unsigned_value(parts[1])->0 as int;
        let d = unsigned_value(parts[2])->0 as int;
        assert(date_seconds(text)->0 == date_value(y, m, d));
    }
}

/// Round trip: the filter conditions that the parser reads from any
/// arguments are read again from the arguments that state them, as far as
/// lower-casing leaves the type names and the written time and size as
/// they are.
pub proof fn lemma_round_trip(flags: Seq<FlagView>)
    requires
        case_stable(filters_of(flags)),
    ensures
        filters_of(rendered(filters_of(flags))) == filters_of(flags),
{
    lemma_parsed_has_shape(flags);
    lemma_written_reads_back(filters_of(flags));
}

/// Appends one argument with the key `key` for each value.
fn push_keyed(out: &mut Vec<Flag>, key: &str, values: &Vec<Vec<char>>)
    ensures
        flag_views(final(out)@) == flag_views(old(out)@) + keyed(key@, texts(values@)),
{
    let ghost all = keyed(key@, texts(values@));
    let mut i: usize = 0;
    assert(flag_views(out@) + all.take(0) =~= flag_views(out@));
    while i < values.len()
        invariant
            i <= values.len(),
            all == keyed(key@, texts(values@)),
            flag_views(out@) == flag_views(old(out)@) + all.take(i as int),
        decreases values.len() - i,
    {
        let flag = Flag { key: key.to_owned(), value: string_of(&values[i]) };
        proof {
            assert(flag@ == all[i as int]);
            assert(flag_views(out@.push(flag)) =~= flag_views(out@).push(flag@));
            assert(flag_views(old(out)@) + all.take(i + 1) =~= (flag_views(old(out)@) + all.take(
                i as int,
            )).push(all[i as int]));
        }
        out.push(flag);
        i += 1;
    }
    assert(all.take(values.len() as int) =~= all);
}

/// The patterns of the filters that include, or of those that exclude.
fn patterns_of(paths: &Vec<PathFilter>, exclude: bool) -> (out: Vec<Vec<char>>)
    ensures
        texts(out@) == (if exclude {
            excludes_of(path_views(paths@))
        } else {
            includes_of(path_views(paths@))
        }),
{
    let ghost all = path_views(paths@);
    let mut out: Vec<Vec<char>> = Vec::new();
    let mut i: usize = 0;
    assert(all.take(0) =~= Seq::<PathFilterView>::empty());
    assert(texts(out@) =~= Seq::<Seq<char>>::empty());
    while i < paths.len()
        invariant
            i <= paths.len(),
            all == path_views(paths@),
            texts(out@) == (if exclude {
                excludes_of(all.take(i as int))
            } else {
                includes_of(all.take(i as int))
            }),
        decreases paths.len() - i,
    {
        proof {
            assert(all.take(i + 1).drop_last() =~= all.take(i as int));
            assert(all.take(i + 1).last() == paths@[i as int]@);
        }
        if paths[i].exclude == exclude {
            let pattern = chars_of(paths[i].pattern.as_str());
            proof {
                lemma_texts_push(out@, pattern);
            }
            out.push(pattern);
        }
        i += 1;
    }
    assert(all.take(paths.len() as int) =~= all);
    out
}

/// None or one text.
fn one_or_none(value: Option<Vec<char>>) -> (out: Vec<Vec<char>>)
    ensures
        texts(out@) == maybe(
            match value {
                Some(v) => Some(v@),
                None => None,
            },
        ),
{
    let mut out: Vec<Vec<char>> = Vec::new();
    match value {
        Some(v) => {
            proof {
                lemma_texts_push(out@, v);
            }
            out.push(v);
            assert(texts(out@) =~= seq![v@]);
        },
        None => {
            assert(texts(out@) =~= Seq::<Seq<char>>::empty());
        },
    }
    out
}

/// Finds `size_text`.
pub fn write_size(size: &SizeFilter) -> (out: Vec<char>)
    ensures
        out@ == size_text(*size),
{
    let mut out: Vec<char> = Vec::new();
    match size {
        SizeFilter::GreaterThan(n) => {
            out.push('>');
            append_chars(&mut out, &write_decimal(*n));
            out.push('b');
            assert(out@ =~= size_text(*size));
        },
        SizeFilter::LessThan(n) => {
            out.push('<');
            append_chars(&mut out, &write_decimal(*n));
            out.push('b');
            assert(out@ =~= size_text(*size));
        },
        SizeFilter::Between(min, max) => {
            append_chars(&mut out, &write_decimal(*min));
            out.push('b');
            out.push('-');
            append_chars(&mut out, &write_decimal(*max));
            out.push('b');
            assert(out@ =~= size_text(*size));
        },
    }
    out
}

/// Finds `window_text`.
pub fn write_window(range: &TimeRange) -> (out: Option<Vec<char>>)
    ensures
        (match out {
            Some(v) => Some(v@),
            None => None,
        }) == window_text(*range),
{
    match range {
        TimeRange::LastHours(n) => {
            let mut out = write_decimal(*n as u64);
            out.push('h');
            Some(out)
        },
        TimeRange::LastDays(n) => {
            let mut out = write_decimal(*n as u64);
            out.push('d');
            Some(out)
        },
        TimeRange::LastWeeks(n) => {
            let mut out = write_decimal(*n as u64);
            out.push('w');
            Some(out)
        },
        TimeRange::LastMonths(n) => {
            let mut out = write_decimal(*n as u64);
            out.push('m');
            Some(out)
        },
        TimeRange::Today => Some(chars_of("today")),
        TimeRange::ThisWeek => Some(chars_of("week")),
        TimeRange::ThisMonth => Some(chars_of("month")),
        _ => None,
    }
}

/// Finds `date_text`.
pub fn write_date(ts: u64) -> (out: Vec<char>)
    ensures
        out@ == date_text(ts),
{
    let days = ts / 86400;
    let years = if days / 365 <= 2147481677 {
        days / 365
    } else {
        2147481677
    };
    let rest = days - years * 365;
    let months = if rest / 30 <= 4294967294 {
        rest / 30
    } else {
        4294967294
    };
    let day = 1 + rest - months * 30;
    let mut out = write_decimal(1970 + years);
    out.push('-');
    append_chars(&mut out, &write_decimal(1 + months));
    out.push('-');
    append_chars(&mut out, &write_decimal(day));
    assert(out@ =~= date_text(ts));
    out
}

/// The arguments that state the filter conditions, as `rendered` gives
/// them. A time window between two times states nothing: it cannot be
/// written.
pub fn render_filters(filters: &QueryFilters) -> (flags: Vec<Flag>)
    ensures
        flag_views(flags@) == rendered(filters@),
{
    let mut flags: Vec<Flag> = Vec::new();
    assert(flag_views(flags@) =~= Seq::<FlagView>::empty());
    push_keyed(&mut flags, "path", &patterns_of(&filters.paths, false));
    push_keyed(&mut flags, "exclude-path", &patterns_of(&filters.paths, true));
    push_keyed(&mut flags, "type", &chars_of_each(filters.file_types.as_slice()));
    push_keyed(&mut flags, "tag", &chars_of_each(filters.tags.as_slice()));
    let (field, window, after, before) = match &filters.time {
        Some(t) => {
            let field = match t.field {
                TimeField::Created => chars_of("created"),
                TimeField::Modified => chars_of("modified"),
                TimeField::Indexed => chars_of("indexed"),
            };
            let (after, before) = match t.range {
                TimeRange::After(ts) => (Some(write_date(ts)), None),
                TimeRange::Before(ts) => (None, Some(write_date(ts))),
                _ => (None, None),
            };
            (Some(field), write_window(&t.range), after, before)
        },
        None => (None, None, None, None),
    };
    push_keyed(&mut flags, "time-field", &one_or_none(field));
    push_keyed(&mut flags, "time", &one_or_none(window));
    push_keyed(&mut flags, "after", &one_or_none(after));
    push_keyed(&mut flags, "before", &one_or_none(before));
    let size = match &filters.size {
        Some(s) => Some(write_size(s)),
        None => None,
    };
    push_keyed(&mut flags, "size", &one_or_none(size));
    proof {
        assert(filters@.paths == path_views(filters.paths@));
        assert(filters@.file_types == string_views(filters.file_types@));
        assert(filters@.tags == string_views(filters.tags@));
        assert(Seq::<FlagView>::empty() + keyed("path"@, includes_of(filters@.paths)) =~= keyed(
            "path"@,
            includes_of(filters@.paths),
        ));
    }
    flags
}

} // verus!
