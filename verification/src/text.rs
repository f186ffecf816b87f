//! Lines of a text and the fields of a line, as ranges of the text's bytes.

use vstd::prelude::*;
use vstd::slice::slice_subrange;

verus! {

/// The bytes that separate fields: space, tab, line feed, vertical tab, form
/// feed and carriage return.
pub open spec fn is_space(b: u8) -> bool {
    b == 32 || (9 <= b && b <= 13)
}

/// Whether the byte separates fields.
pub fn is_whitespace(b: u8) -> (r: bool)
    ensures
        r == is_space(b),
{
    b == 32 || (9 <= b && b <= 13)
}

/// The bytes `start..end` of a text.
#[derive(Clone, Copy, Debug, PartialEq, Eq, Structural)]
pub struct Span {
    pub start: usize,
    pub end: usize,
}

impl Span {
    /// The span lies inside a text of `len` bytes.
    pub open spec fn fits(self, len: nat) -> bool {
        self.start <= self.end && self.end <= len
    }

    /// The bytes of `text` that the span covers.
    pub open spec fn of(self, text: Seq<u8>) -> Seq<u8> {
        text.subrange(self.start as int, self.end as int)
    }
}

/// `t` is `field` without the whitespace at its two ends; a field of
/// whitespace alone leaves the empty span at the field's end.
pub open spec fn is_trim_of(text: Seq<u8>, field: Span, t: Span) -> bool {
    &&& field.start <= t.start && t.start <= t.end && t.end <= field.end
    &&& forall|i: int| field.start <= i < t.start ==> is_space(#[trigger] text[i])
    &&& forall|i: int| t.end <= i < field.end ==> is_space(#[trigger] text[i])
    &&& t.start < t.end ==> !is_space(text[t.start as int]) && !is_space(text[t.end - 1])
    &&& t.start == t.end ==> t.start == field.end
}

/// The field without the whitespace at its two ends.
pub open spec fn trimmed(text: Seq<u8>, field: Span) -> Span {
    choose|t: Span| is_trim_of(text, field, t)
}

/// A field has one trimmed form.
pub proof fn lemma_trim_unique(text: Seq<u8>, field: Span, t: Span)
    requires
        is_trim_of(text, field, t),
    ensures
        trimmed(text, field) == t,
{
    let u = trimmed(text, field);
    assert(is_trim_of(text, field, u));
    if u.start < t.start {
        assert(is_space(text[u.start as int]));
    }
    if t.start < u.start {
        assert(is_space(text[t.start as int]));
    }
    if u.end < t.end {
        assert(is_space(text[t.end - 1]));
    }
    if t.end < u.end {
        assert(is_space(text[u.end - 1]));
    }
}

/// Strips the whitespace from both ends of a field.
pub fn trim(text: &[u8], field: Span) -> (t: Span)
    requires
        field.fits(text@.len()),
    ensures
        is_trim_of(text@, field, t),
        t == trimmed(text@, field),
{
    let mut start: usize = field.start;
    while start < field.end && is_whitespace(text[start])
        invariant
            field.fits(text@.len()),
            field.start <= start <= field.end,
            forall|i: int| field.start <= i < start ==> is_space(#[trigger] text@[i]),
        decreases field.end - start,
    {
        start += 1;
    }
    let mut end: usize = field.end;
    while end > start && is_whitespace(text[end - 1])
        invariant
            field.fits(text@.len()),
            start <= end <= field.end,
            forall|i: int| end <= i < field.end ==> is_space(#[trigger] text@[i]),
        decreases end - start,
    {
        end -= 1;
    }
    let t = Span { start, end };
    proof {
        lemma_trim_unique(text@, field, t);
    }
    t
}

/// `f` is a field of the part `within` of the text: a run of bytes that are
/// no whitespace, with whitespace or an end of the part on both sides.
pub open spec fn is_field(text: Seq<u8>, within: Span, f: Span) -> bool {
    &&& within.start <= f.start && f.start < f.end && f.end <= within.end
    &&& forall|i: int| f.start <= i < f.end ==> !is_space(#[trigger] text[i])
    &&& f.start == within.start || is_space(text[f.start - 1])
    &&& f.end == within.end || is_space(text[f.end as int])
}

/// Position `i` of the text lies in one of `fields`.
pub open spec fn covered(fields: Seq<Span>, i: int) -> bool {
    exists|k: int| 0 <= k < fields.len() && (#[trigger] fields[k]).start <= i < fields[k].end
}

/// `fields` are the whitespace-separated fields of the part `within` of the
/// text, from left to right: every byte of the part that is no whitespace
/// lies in one of them.
pub open spec fn are_fields_of(text: Seq<u8>, within: Span, fields: Seq<Span>) -> bool {
    &&& forall|k: int| 0 <= k < fields.len() ==> is_field(text, within, #[trigger] fields[k])
    &&& forall|k: int, m: int|
        0 <= k < m < fields.len() ==> (#[trigger] fields[k]).end < (#[trigger] fields[m]).start
    &&& forall|i: int|
        within.start <= i < within.end && !is_space(#[trigger] text[i]) ==> covered(fields, i)
}

/// The whitespace-separated fields of the part `within` of the text.
pub open spec fn fields_of(text: Seq<u8>, within: Span) -> Seq<Span> {
    choose|fields: Seq<Span>| are_fields_of(text, within, fields)
}

/// Two fields that share a position are one field.
pub proof fn lemma_field_at_position(text: Seq<u8>, within: Span, f: Span, g: Span, i: int)
    requires
        is_field(text, within, f),
        is_field(text, within, g),
        f.start <= i < f.end,
        g.start <= i < g.end,
    ensures
        f == g,
{
    if f.start < g.start {
        assert(!is_space(text[g.start - 1]));
    }
    if g.start < f.start {
        assert(!is_space(text[f.start - 1]));
    }
    if f.end < g.end {
        assert(!is_space(text[f.end as int]));
    }
    if g.end < f.end {
        assert(!is_space(text[g.end as int]));
    }
}

/// Two lists of the fields of one part of a text agree on each field of the
/// first.
pub proof fn lemma_fields_agree(text: Seq<u8>, within: Span, a: Seq<Span>, b: Seq<Span>, k: int)
    requires
        are_fields_of(text, within, a),
        are_fields_of(text, within, b),
        0 <= k < a.len(),
    ensures
        k < b.len(),
        a[k] == b[k],
    decreases k,
{
    let i = a[k].start as int;
    assert(is_field(text, within, a[k]));
    assert(!is_space(text[i]));
    assert(covered(b, i));
    let m = choose|m: int| 0 <= m < b.len() && (#[trigger] b[m]).start <= i < b[m].end;
    assert(is_field(text, within, b[m]));
    lemma_field_at_position(text, within, a[k], b[m], i);
    if m < k {
        lemma_fields_agree(text, within, a, b, m);
        assert(a[m].end < a[k].start);
    } else if m > k {
        let i2 = b[k].start as int;
        assert(is_field(text, within, b[k]));
        assert(!is_space(text[i2]));
        assert(covered(a, i2));
        let q = choose|q: int| 0 <= q < a.len() && (#[trigger] a[q]).start <= i2 < a[q].end;
        assert(is_field(text, within, a[q]));
        lemma_field_at_position(text, within, a[q], b[k], i2);
        assert(b[k].end < b[m].start);
        if q < k {
            lemma_fields_agree(text, within, a, b, q);
            assert(b[q].end < b[k].start);
        } else if q > k {
            assert(a[k].end < a[q].start);
        }
    }
}

/// A part of a text has one list of fields.
pub proof fn lemma_fields_unique(text: Seq<u8>, within: Span, fields: Seq<Span>)
    requires
        are_fields_of(text, within, fields),
    ensures
        fields_of(text, within) == fields,
{
    let other = fields_of(text, within);
    assert(are_fields_of(text, within, other));
    if fields.len() > 0 {
        lemma_fields_agree(text, within, fields, other, fields.len() - 1);
    }
    if other.len() > 0 {
        lemma_fields_agree(text, within, other, fields, other.len() - 1);
    }
    assert forall|k: int| 0 <= k < fields.len() implies fields[k] == other[k] by {
        lemma_fields_agree(text, within, fields, other, k);
    }
    assert(fields =~= other);
}

/// Splits a part of a text at whitespace.
pub fn split_fields(text: &[u8], within: Span) -> (fields: Vec<Span>)
    requires
        within.fits(text@.len()),
    ensures
        are_fields_of(text@, within, fields@),
        fields@ == fields_of(text@, within),
{
    let n = within.end;
    let mut fields: Vec<Span> = Vec::new();
    let mut i: usize = within.start;
    while i < n
        invariant
            within.fits(text@.len()),
            n == within.end,
            within.start <= i <= n,
            i == within.start || i == n || is_space(text@[i - 1]),
            forall|k: int| 0 <= k < fields@.len() ==> is_field(text@, within, #[trigger] fields@[k]),
            forall|k: int, m: int|
                0 <= k < m < fields@.len() ==> (#[trigger] fields@[k]).end < (
                #[trigger] fields@[m]).start,
            forall|k: int| 0 <= k < fields@.len() ==> (#[trigger] fields@[k]).end <= i,
            fields@.len() > 0 && i < n ==> fields@[fields@.len() - 1].end < i,
            forall|j: int|
                within.start <= j < i && !is_space(#[trigger] text@[j]) ==> covered(fields@, j),
        decreases n - i,
    {
        if is_whitespace(text[i]) {
            i += 1;
        } else {
            let start = i;
            while i < n && !is_whitespace(text[i])
                invariant
                    within.fits(text@.len()),
                    n == within.end,
                    start <= i <= n,
                    start < n,
                    !is_space(text@[start as int]),
                    forall|j: int| start <= j < i ==> !is_space(#[trigger] text@[j]),
                decreases n - i,
            {
                i += 1;
            }
            let ghost before = fields@;
            let field = Span { start, end: i };
            fields.push(field);
            proof {
                assert(fields@[before.len() as int] == field);
                assert forall|j: int|
                    within.start <= j < i && !is_space(#[trigger] text@[j]) implies covered(
                    fields@,
                    j,
                ) by {
                    if j < start {
                        assert(covered(before, j));
                        let k = choose|k: int|
                            0 <= k < before.len() && (#[trigger] before[k]).start <= j
                                < before[k].end;
                        assert(fields@[k] == before[k]);
                    } else {
                        assert(fields@[before.len() as int].start <= j);
                    }
                }
            }
            if i < n {
                i += 1;
            }
        }
    }
    proof {
        lemma_fields_unique(text@, within, fields@);
    }
    fields
}

/// The line feed, which ends a line.
pub const LINE_FEED: u8 = 10;

/// The carriage return, which may stand before the line feed.
pub const CARRIAGE_RETURN: u8 = 13;

/// The place of the first line feed at or after `from`, or the end of the
/// text where there is none.
pub open spec fn line_stop(text: Seq<u8>, from: int) -> int
    decreases text.len() - from,
{
    if from >= text.len() {
        text.len() as int
    } else if text[from] == LINE_FEED {
        from
    } else {
        line_stop(text, from + 1)
    }
}

/// The line that starts at `from`: it reaches to the next line feed or the
/// end of the text, without a carriage return that stands before the line
/// feed.
pub open spec fn line_at(text: Seq<u8>, from: int) -> Span {
    let stop = line_stop(text, from);
    let end = if stop < text.len() && from < stop && text[stop - 1] == CARRIAGE_RETURN {
        stop - 1
    } else {
        stop
    };
    Span { start: from as usize, end: end as usize }
}

/// The lines of the text from `from` on.
pub open spec fn lines_from(text: Seq<u8>, from: int) -> Seq<Span>
    decreases text.len() + 1 - from,
    via lines_from_terminates
{
    if from >= text.len() || from < 0 {
        Seq::empty()
    } else {
        seq![line_at(text, from)] + lines_from(text, line_stop(text, from) + 1)
    }
}

/// The line after the line that starts at `from` starts further on.
#[via_fn]
proof fn lines_from_terminates(text: Seq<u8>, from: int) {
    if 0 <= from < text.len() {
        lemma_line_stop_bounds(text, from);
    }
}

/// The lines of the text. A line ends at a line feed, or at a carriage
/// return and a line feed; the last line need not end so, and what follows
/// the last line feed is a line only where it is not empty.
pub open spec fn lines_of(text: Seq<u8>) -> Seq<Span> {
    lines_from(text, 0)
}

/// Where a line that starts at `from` stops: no earlier than `from`, no
/// later than the end of the text, before no line feed, and at a line feed
/// unless at the end of the text.
pub proof fn lemma_line_stop_bounds(text: Seq<u8>, from: int)
    requires
        0 <= from <= text.len(),
    ensures
        from <= line_stop(text, from) <= text.len(),
        forall|j: int| from <= j < line_stop(text, from) ==> #[trigger] text[j] != LINE_FEED,
        line_stop(text, from) < text.len() ==> text[line_stop(text, from)] == LINE_FEED,
    decreases text.len() - from,
{
    if from < text.len() && text[from] != LINE_FEED {
        lemma_line_stop_bounds(text, from + 1);
    }
}

/// Each line lies in the text and holds no line feed; it starts at the
/// start of the text or after a line feed, and it ends at the end of the
/// text or before a line feed, or before a carriage return and a line feed.
pub proof fn lemma_lines_are_lines(text: Seq<u8>, from: int, k: int)
    requires
        text.len() <= usize::MAX,
        0 <= from <= text.len(),
        0 <= k < lines_from(text, from).len(),
    ensures
        ({
            let line = lines_from(text, from)[k];
            &&& from <= line.start <= line.end <= text.len()
            &&& forall|i: int| line.start <= i < line.end ==> #[trigger] text[i] != LINE_FEED
            &&& line.start == from || text[line.start - 1] == LINE_FEED
            &&& {
                ||| line.end == text.len()
                ||| text[line.end as int] == LINE_FEED
                ||| text[line.end as int] == CARRIAGE_RETURN && line.end + 1 < text.len()
                    && text[line.end + 1] == LINE_FEED
            }
        }),
    decreases k,
{
    lemma_line_stop_bounds(text, from);
    let stop = line_stop(text, from);
    let rest = lines_from(text, stop + 1);
    assert(lines_from(text, from) == seq![line_at(text, from)] + rest);
    if k > 0 {
        assert(lines_from(text, from)[k] == rest[k - 1]);
        lemma_lines_are_lines(text, stop + 1, k - 1);
    }
}

/// Splits a text into its lines.
pub fn split_lines(text: &[u8]) -> (lines: Vec<Span>)
    ensures
        lines@ == lines_of(text@),
        forall|k: int| 0 <= k < lines@.len() ==> (#[trigger] lines@[k]).fits(text@.len()),
{
    let n = text.len();
    let mut lines: Vec<Span> = Vec::new();
    let mut from: usize = 0;
    while from < n
        invariant
            n == text@.len(),
            from <= n,
            lines@ + lines_from(text@, from as int) == lines_of(text@),
            forall|k: int| 0 <= k < lines@.len() ==> (#[trigger] lines@[k]).fits(text@.len()),
        decreases n - from,
    {
        let mut stop: usize = from;
        while stop < n && text[stop] != LINE_FEED
            invariant
                n == text@.len(),
                from <= stop <= n,
                line_stop(text@, stop as int) == line_stop(text@, from as int),
            decreases n - stop,
        {
            stop += 1;
        }
        assert(line_stop(text@, from as int) == stop);
        let end = if stop < n && from < stop && text[stop - 1] == CARRIAGE_RETURN {
            stop - 1
        } else {
            stop
        };
        let line = Span { start: from, end };
        assert(line == line_at(text@, from as int));
        let ghost before = lines@;
        lines.push(line);
        proof {
            let rest = lines_from(text@, stop + 1);
            assert(lines_from(text@, from as int) == seq![line] + rest);
            assert(lines@ + rest =~= before + (seq![line] + rest));
            if stop == n {
                assert(rest =~= lines_from(text@, n as int));
            }
        }
        if stop < n {
            from = stop + 1;
        } else {
            from = n;
        }
    }
    assert(lines_from(text@, n as int) =~= Seq::<Span>::empty());
    assert(lines@ + Seq::<Span>::empty() =~= lines@);
    lines
}

/// `prefix` stands at the start of `line`.
pub fn has_prefix(line: &[u8], prefix: &[u8]) -> (r: bool)
    ensures
        r == prefix@.is_prefix_of(line@),
{
    if prefix.len() > line.len() {
        return false;
    }
    let mut i: usize = 0;
    while i < prefix.len()
        invariant
            i <= prefix@.len() <= line@.len(),
            forall|j: int| 0 <= j < i ==> line@[j] == prefix@[j],
        decreases prefix@.len() - i,
    {
        if line[i] != prefix[i] {
            assert(line@.subrange(0, prefix@.len() as int)[i as int] != prefix@[i as int]);
            return false;
        }
        i += 1;
    }
    assert(line@.subrange(0, prefix@.len() as int) =~= prefix@);
    true
}

/// `suffix` stands at the end of `line`.
pub fn has_suffix(line: &[u8], suffix: &[u8]) -> (r: bool)
    ensures
        r == suffix@.is_suffix_of(line@),
{
    if suffix.len() > line.len() {
        return false;
    }
    let shift = line.len() - suffix.len();
    let mut i: usize = 0;
    while i < suffix.len()
        invariant
            shift + suffix@.len() == line@.len(),
            line@.len() <= usize::MAX,
            i <= suffix@.len(),
            forall|j: int| 0 <= j < i ==> line@[shift + j] == suffix@[j],
        decreases suffix@.len() - i,
    {
        if line[shift + i] != suffix[i] {
            assert(line@.subrange(shift as int, line@.len() as int)[i as int] != suffix@[i as int]);
            return false;
        }
        i += 1;
    }
    assert(line@.subrange(shift as int, line@.len() as int) =~= suffix@);
    true
}

/// `prefix` stands at the start of the part `within` of the text.
pub fn starts_with(text: &[u8], within: Span, prefix: &[u8]) -> (r: bool)
    requires
        within.fits(text@.len()),
    ensures
        r == prefix@.is_prefix_of(within.of(text@)),
{
    has_prefix(slice_subrange(text, within.start, within.end), prefix)
}

/// A decimal digit.
pub open spec fn is_digit(b: u8) -> bool {
    48 <= b && b <= 57
}

/// The number that a run of decimal digits writes.
pub open spec fn decimal_value(digits: Seq<u8>) -> nat
    decreases digits.len(),
{
    if digits.len() == 0 {
        0
    } else {
        10 * decimal_value(digits.drop_last()) + (digits.last() - 48) as nat
    }
}

/// The text without the `+` that may lead it.
pub open spec fn digits_of(text: Seq<u8>) -> Seq<u8> {
    if text.len() > 0 && text[0] == 43 {
        text.drop_first()
    } else {
        text
    }
}

/// The text is an unsigned decimal number: one digit or more, after at most
/// one `+`.
pub open spec fn is_decimal(text: Seq<u8>) -> bool {
    let digits = digits_of(text);
    digits.len() > 0 && forall|i: int| 0 <= i < digits.len() ==> is_digit(#[trigger] digits[i])
}

/// The number that the text writes, where the text is a decimal number that
/// 16 bits can hold.
pub open spec fn parsed_u16(text: Seq<u8>) -> Option<u16> {
    if is_decimal(text) && decimal_value(digits_of(text)) <= u16::MAX {
        Some(decimal_value(digits_of(text)) as u16)
    } else {
        None
    }
}

/// A run of digits writes at least what any of its prefixes writes.
pub proof fn lemma_decimal_value_grows(digits: Seq<u8>, k: int)
    requires
        0 <= k <= digits.len(),
        forall|i: int| 0 <= i < digits.len() ==> is_digit(#[trigger] digits[i]),
    ensures
        decimal_value(digits.subrange(0, k)) <= decimal_value(digits),
    decreases digits.len() - k,
{
    if k == digits.len() {
        assert(digits.subrange(0, k) =~= digits);
    } else {
        let longer = digits.subrange(0, k + 1);
        assert(longer.drop_last() =~= digits.subrange(0, k));
        assert(is_digit(digits[k]));
        assert(longer.last() == digits[k]);
        lemma_decimal_value_grows(digits, k + 1);
    }
}

/// A number of at most four digits is at most 9999.
pub proof fn lemma_four_digits_at_most(text: Seq<u8>)
    requires
        text.len() <= 4,
        parsed_u16(text) is Some,
    ensures
        parsed_u16(text)->0 <= 9999,
{
    let digits = digits_of(text);
    assert(digits.len() <= 4);
    lemma_digits_at_most(digits);
}

/// A run of at most four digits writes at most 9999, one of fewer digits
/// less.
proof fn lemma_digits_at_most(digits: Seq<u8>)
    requires
        digits.len() <= 4,
        forall|i: int| 0 <= i < digits.len() ==> is_digit(#[trigger] digits[i]),
    ensures
        digits.len() == 0 ==> decimal_value(digits) == 0,
        digits.len() == 1 ==> decimal_value(digits) <= 9,
        digits.len() == 2 ==> decimal_value(digits) <= 99,
        digits.len() == 3 ==> decimal_value(digits) <= 999,
        digits.len() == 4 ==> decimal_value(digits) <= 9999,
    decreases digits.len(),
{
    if digits.len() > 0 {
        assert(is_digit(digits.last()));
        lemma_digits_at_most(digits.drop_last());
    }
}

/// Reads a field as an unsigned decimal number of 16 bits.
pub fn parse_u16(text: &[u8], field: Span) -> (r: Option<u16>)
    requires
        field.fits(text@.len()),
    ensures
        r == parsed_u16(field.of(text@)),
{
    let ghost word = field.of(text@);
    let mut i: usize = field.start;
    if i < field.end && text[i] == 43 {
        i += 1;
    }
    let first = i;
    let ghost digits = digits_of(word);
    assert(digits =~= text@.subrange(first as int, field.end as int));
    if first == field.end {
        return None;
    }
    let mut value: u32 = 0;
    while i < field.end
        invariant
            field.fits(text@.len()),
            first <= i <= field.end,
            word == field.of(text@),
            digits == digits_of(word),
            digits == text@.subrange(first as int, field.end as int),
            forall|j: int| 0 <= j < i - first ==> is_digit(#[trigger] digits[j]),
            value == decimal_value(digits.subrange(0, i - first)),
            value <= u16::MAX,
        decreases field.end - i,
    {
        let b = text[i];
        assert(digits[i - first] == b);
        if !(48 <= b && b <= 57) {
            return None;
        }
        let ghost shorter = digits.subrange(0, i - first);
        let ghost longer = digits.subrange(0, i - first + 1);
        assert(longer.drop_last() =~= shorter);
        assert(longer.last() == b);
        value = 10 * value + (b - 48) as u32;
        i += 1;
        if value > 65535 {
            proof {
                if is_decimal(word) {
                    lemma_decimal_value_grows(digits, i - first);
                }
            }
            return None;
        }
    }
    assert(digits.subrange(0, i - first) =~= digits);
    Some(value as u16)
}

} // verus!
