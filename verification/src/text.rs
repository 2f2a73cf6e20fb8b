//! Text as sequences of characters: order, search, and the characters of a
//! string.

use vstd::prelude::*;
use vstd::std_specs::iter::IteratorSpec;
use vstd::string::StrSliceExecFns;

verus! {

/// The characters of `text`, in order.
pub fn chars_of(text: &str) -> (chars: Vec<char>)
    ensures
        chars@ == text@,
{
    let mut chars: Vec<char> = Vec::new();
    for c in it: text.chars()
        invariant
            it.seq() == text@,
            chars@ == it.seq().take(it.index() as int),
    {
        chars.push(c);
    }
    chars
}

/// Whether `a` comes before `b` in the order of strings: at the first place
/// where they differ the character of `a` has the lower code point, or `a`
/// ends there and `b` goes on.
pub open spec fn precedes(a: Seq<char>, b: Seq<char>) -> bool
    decreases a.len(),
{
    if b.len() == 0 {
        false
    } else if a.len() == 0 {
        true
    } else if a[0] != b[0] {
        a[0] < b[0]
    } else {
        precedes(a.drop_first(), b.drop_first())
    }
}

/// No string comes before itself.
pub proof fn lemma_precedes_irreflexive(a: Seq<char>)
    ensures
        !precedes(a, a),
    decreases a.len(),
{
    if a.len() > 0 {
        lemma_precedes_irreflexive(a.drop_first());
    }
}

/// Of two strings at most one comes before the other.
pub proof fn lemma_precedes_asymmetric(a: Seq<char>, b: Seq<char>)
    requires
        precedes(a, b),
    ensures
        !precedes(b, a),
    decreases a.len(),
{
    if a.len() > 0 && b.len() > 0 && a[0] == b[0] {
        lemma_precedes_asymmetric(a.drop_first(), b.drop_first());
    }
}

/// What comes before a string comes before everything after it.
pub proof fn lemma_precedes_transitive(a: Seq<char>, b: Seq<char>, c: Seq<char>)
    requires
        precedes(a, b),
        precedes(b, c),
    ensures
        precedes(a, c),
    decreases a.len(),
{
    if a.len() > 0 && b.len() > 0 && c.len() > 0 && a[0] == b[0] && b[0] == c[0] {
        lemma_precedes_transitive(a.drop_first(), b.drop_first(), c.drop_first());
    }
}

/// Two strings of which neither comes before the other are the same string.
pub proof fn lemma_precedes_total(a: Seq<char>, b: Seq<char>)
    requires
        !precedes(a, b),
        !precedes(b, a),
    ensures
        a == b,
    decreases a.len(),
{
    if a.len() == 0 || b.len() == 0 {
        assert(a.len() == 0 && b.len() == 0);
        assert(a =~= b);
    } else {
        assert(a[0] == b[0]);
        let x = a.drop_first();
        let y = b.drop_first();
        lemma_precedes_total(x, y);
        assert(a.len() == b.len());
        assert forall|i: int| 0 <= i < a.len() implies a[i] == b[i] by {
            if i > 0 {
                assert(a[i] == x[i - 1]);
                assert(b[i] == y[i - 1]);
            }
        }
        assert(a =~= b);
    }
}

/// Whether `a` comes before `b` in the order of strings.
pub fn text_lt(a: &str, b: &str) -> (less: bool)
    ensures
        less == precedes(a@, b@),
{
    let mut x = a.chars();
    let mut y = b.chars();
    loop
        invariant
            x.decrease() is Some,
            precedes(a@, b@) == precedes(x.remaining(), y.remaining()),
        decreases x.decrease()->0,
    {
        match (x.next(), y.next()) {
            (_, None) => {
                return false;
            },
            (None, Some(_)) => {
                return true;
            },
            (Some(c), Some(d)) => {
                if c != d {
                    return c < d;
                }
            },
        }
    }
}

/// The place of the first `mark` in `text`, or the length of `text` where
/// there is none.
pub open spec fn position(text: Seq<char>, mark: char) -> nat
    decreases text.len(),
{
    if text.len() == 0 || text[0] == mark {
        0
    } else {
        1 + position(text.drop_first(), mark)
    }
}

/// The place that `position` names lies in `text` or at its end, holds
/// `mark` where it lies in `text`, and no `mark` stands before it.
pub proof fn lemma_position(text: Seq<char>, mark: char)
    ensures
        0 <= position(text, mark) <= text.len(),
        position(text, mark) < text.len() ==> text[position(text, mark) as int] == mark,
        forall|k: int| 0 <= k < position(text, mark) ==> text[k] != mark,
    decreases text.len(),
{
    if text.len() > 0 && text[0] != mark {
        let rest = text.drop_first();
        lemma_position(rest, mark);
        assert forall|k: int| 0 <= k < position(text, mark) implies text[k] != mark by {
            if k > 0 {
                assert(text[k] == rest[k - 1]);
            }
        }
    }
}

/// A place with no `mark` before it, which holds `mark` or is the end of
/// `text`, is the place that `position` names.
pub proof fn lemma_position_is(text: Seq<char>, mark: char, at: int)
    requires
        0 <= at <= text.len(),
        forall|k: int| 0 <= k < at ==> text[k] != mark,
        at < text.len() ==> text[at] == mark,
    ensures
        position(text, mark) == at,
    decreases text.len(),
{
    if at > 0 {
        let rest = text.drop_first();
        assert(text[0] != mark);
        assert forall|k: int| 0 <= k < at - 1 implies rest[k] != mark by {
            assert(rest[k] == text[k + 1]);
        }
        lemma_position_is(rest, mark, at - 1);
    }
}

/// Finds the first `mark` among the characters from `from` up to `to`.
pub(crate) fn find(chars: &Vec<char>, from: usize, to: usize, mark: char) -> (at: usize)
    requires
        from <= to <= chars.len(),
    ensures
        from <= at <= to,
        at == from + position(chars@.subrange(from as int, to as int), mark),
{
    let ghost part = chars@.subrange(from as int, to as int);
    let mut at: usize = from;
    while at < to && chars[at] != mark
        invariant
            from <= at <= to <= chars.len(),
            part == chars@.subrange(from as int, to as int),
            forall|k: int| 0 <= k < at - from ==> part[k] != mark,
        decreases to - at,
    {
        at += 1;
    }
    proof {
        lemma_position_is(part, mark, at - from);
    }
    at
}

/// A line without the carriage return that ends it, if one does.
pub open spec fn without_return(line: Seq<char>) -> Seq<char> {
    if line.len() > 0 && line.last() == '\r' {
        line.drop_last()
    } else {
        line
    }
}

/// The lines of `text`. A line ends at a line feed, or at a carriage return
/// followed by one; neither belongs to the line. The last line needs no
/// line feed, and nothing follows a line feed that ends the text.
pub open spec fn lines_of(text: Seq<char>) -> Seq<Seq<char>>
    decreases text.len(),
{
    if text.len() == 0 {
        Seq::empty()
    } else {
        let end = position(text, '\n');
        if end >= text.len() {
            seq![text]
        } else {
            seq![without_return(text.take(end as int))] + lines_of(text.skip(end as int + 1))
        }
    }
}

/// The lines of `text`.
pub fn lines(text: &str) -> (found: Vec<String>)
    ensures
        found.deep_view() == lines_of(text@),
{
    let chars = chars_of(text);
    let n: usize = chars.len();
    let mut found: Vec<String> = Vec::new();
    let mut start: usize = 0;
    proof {
        assert(text@.skip(0) =~= text@);
        assert(found.deep_view() =~= Seq::<Seq<char>>::empty());
    }
    while start < n
        invariant
            start <= n,
            n == chars.len(),
            chars@ == text@,
            lines_of(text@) == found.deep_view() + lines_of(text@.skip(start as int)),
        decreases n - start,
    {
        let ghost rest = text@.skip(start as int);
        let ghost done = found.deep_view();
        let end = find(&chars, start, n, '\n');
        proof {
            assert(chars@.subrange(start as int, n as int) =~= rest);
            lemma_position(rest, '\n');
        }
        if end == n {
            found.push(text.substring_char(start, n).to_owned());
            proof {
                assert(text@.subrange(start as int, n as int) =~= rest);
                assert(text@.skip(n as int) =~= Seq::<char>::empty());
                assert(found.deep_view() =~= done + seq![rest]);
            }
            start = n;
        } else {
            let stop: usize = if end > start && chars[end - 1] == '\r' {
                (end - 1) as usize
            } else {
                end
            };
            found.push(text.substring_char(start, stop).to_owned());
            proof {
                let line = rest.take(end - start);
                assert(text@.subrange(start as int, stop as int) =~= without_return(line));
                assert(rest.skip(end - start + 1) =~= text@.skip(end + 1));
                assert(found.deep_view() =~= done + seq![without_return(line)]);
            }
            start = end + 1;
        }
    }
    proof {
        assert(lines_of(text@.skip(start as int)) =~= Seq::<Seq<char>>::empty());
    }
    found
}

/// Whether `c` is one of the ten digits.
pub open spec fn is_digit(c: char) -> bool {
    '0' <= c <= '9'
}

/// The number that a digit stands for.
pub open spec fn digit_of(c: char) -> int {
    c as int - '0' as int
}

/// Whether `text` holds digits only.
pub open spec fn all_digits(text: Seq<char>) -> bool {
    forall|i: int| 0 <= i < text.len() ==> is_digit(#[trigger] text[i])
}

/// The number that a row of digits stands for, read in base ten.
pub open spec fn digits_value(text: Seq<char>) -> int
    decreases text.len(),
{
    if text.len() == 0 {
        0
    } else {
        digits_value(text.drop_last()) * 10 + digit_of(text.last())
    }
}

/// The number that `text` stands for: one or more digits, with at most one
/// sign in front of them. Any other text stands for none.
pub open spec fn decimal(text: Seq<char>) -> Option<int> {
    let signed = text.len() > 0 && (text[0] == '-' || text[0] == '+');
    let digits = if signed {
        text.drop_first()
    } else {
        text
    };
    if digits.len() > 0 && all_digits(digits) {
        if text[0] == '-' {
            Some(-digits_value(digits))
        } else {
            Some(digits_value(digits))
        }
    } else {
        None
    }
}

/// The number that `text` stands for, where it fits in 64 bits with a sign.
pub open spec fn parsed_i64(text: Seq<char>) -> Option<i64> {
    match decimal(text) {
        Some(value) => if i64::MIN <= value <= i64::MAX {
            Some(value as i64)
        } else {
            None
        },
        None => None,
    }
}

/// A row of digits stands for no less than any of its beginnings does.
pub proof fn lemma_digits_grow(text: Seq<char>, k: int)
    requires
        all_digits(text),
        0 <= k <= text.len(),
    ensures
        0 <= digits_value(text.take(k)) <= digits_value(text),
    decreases text.len(),
{
    if text.len() == 0 {
        assert(text.take(k) =~= text);
    } else if k == text.len() {
        assert(text.take(k) =~= text);
        lemma_digits_grow(text.drop_last(), k - 1);
        assert(text.drop_last().take(k - 1) =~= text.drop_last());
        assert(is_digit(text[text.len() - 1]));
    } else {
        let init = text.drop_last();
        assert forall|i: int| 0 <= i < init.len() implies is_digit(#[trigger] init[i]) by {
            assert(init[i] == text[i]);
        }
        lemma_digits_grow(init, k);
        lemma_digits_grow(init, init.len() as int);
        assert(init.take(k) =~= text.take(k));
        assert(is_digit(text[text.len() - 1]));
    }
}

/// Reads the characters from `from` up to `to` as a number.
#[verifier::loop_isolation(false)]
pub(crate) fn parse_i64_in(chars: &Vec<char>, from: usize, to: usize) -> (value: Option<i64>)
    requires
        from <= to <= chars.len(),
    ensures
        value == parsed_i64(chars@.subrange(from as int, to as int)),
{
    let ghost text = chars@.subrange(from as int, to as int);
    if from == to {
        return None;
    }
    let negative = chars[from] == '-';
    let start: usize = if chars[from] == '-' || chars[from] == '+' {
        from + 1
    } else {
        from
    };
    let ghost digits = chars@.subrange(start as int, to as int);
    proof {
        assert(text[0] == chars[from as int]);
        if start > from {
            assert(digits =~= text.drop_first());
        } else {
            assert(digits =~= text);
        }
    }
    if start == to {
        return None;
    }
    let limit: i128 = if negative {
        0x8000_0000_0000_0000
    } else {
        0x7fff_ffff_ffff_ffff
    };
    let mut total: i128 = 0;
    let mut i: usize = start;
    proof {
        assert(digits.take(0) =~= Seq::<char>::empty());
    }
    while i < to
        invariant
            start <= i <= to <= chars.len(),
            digits == chars@.subrange(start as int, to as int),
            0 <= total <= limit <= 0x8000_0000_0000_0000,
            all_digits(digits.take(i - start)),
            total == digits_value(digits.take(i - start)),
        decreases to - i,
    {
        let c = chars[i];
        let ghost read = digits.take(i - start);
        proof {
            assert(digits[i - start] == c);
            assert(digits.take(i - start + 1).drop_last() =~= read);
        }
        if !('0' <= c && c <= '9') {
            return None;
        }
        let digit: i128 = (c as u32 - '0' as u32) as i128;
        let next: i128 = total * 10 + digit;
        proof {
            let more = digits.take(i - start + 1);
            assert(more.last() == c);
            assert forall|k: int| 0 <= k < more.len() implies is_digit(#[trigger] more[k]) by {
                if k < read.len() {
                    assert(more[k] == read[k]);
                }
            }
            assert(next == digits_value(more));
            if next > limit && all_digits(digits) {
                lemma_digits_grow(digits, i - start + 1);
            }
        }
        if next > limit {
            return None;
        }
        total = next;
        i += 1;
    }
    proof {
        assert(digits.take(to - start) =~= digits);
    }
    if negative {
        Some((-total) as i64)
    } else {
        Some(total as i64)
    }
}

/// Reads `text` as a number.
pub fn parse_i64(text: &str) -> (value: Option<i64>)
    ensures
        value == parsed_i64(text@),
{
    let chars = chars_of(text);
    proof {
        assert(chars@.subrange(0, chars.len() as int) =~= text@);
    }
    parse_i64_in(&chars, 0, chars.len())
}

/// Whether `c` is white space: one of the characters that Unicode gives
/// the property White_Space.
pub open spec fn is_whitespace(c: char) -> bool {
    ||| '\u{9}' <= c <= '\u{d}'
    ||| c == ' '
    ||| c == '\u{85}'
    ||| c == '\u{a0}'
    ||| c == '\u{1680}'
    ||| '\u{2000}' <= c <= '\u{200a}'
    ||| c == '\u{2028}'
    ||| c == '\u{2029}'
    ||| c == '\u{202f}'
    ||| c == '\u{205f}'
    ||| c == '\u{3000}'
}

/// Whether `c` is white space.
pub fn is_white(c: char) -> (white: bool)
    ensures
        white == is_whitespace(c),
{
    ('\u{9}' <= c && c <= '\u{d}') || c == ' ' || c == '\u{85}' || c == '\u{a0}' || c
        == '\u{1680}' || ('\u{2000}' <= c && c <= '\u{200a}') || c == '\u{2028}' || c
        == '\u{2029}' || c == '\u{202f}' || c == '\u{205f}' || c == '\u{3000}'
}

/// `text` without the white space that it begins with.
pub open spec fn trim_start_of(text: Seq<char>) -> Seq<char>
    decreases text.len(),
{
    if text.len() > 0 && is_whitespace(text[0]) {
        trim_start_of(text.drop_first())
    } else {
        text
    }
}

/// `text` without the white space that it ends with.
pub open spec fn trim_end_of(text: Seq<char>) -> Seq<char>
    decreases text.len(),
{
    if text.len() > 0 && is_whitespace(text.last()) {
        trim_end_of(text.drop_last())
    } else {
        text
    }
}

/// `text` without the white space at either end.
pub open spec fn trimmed(text: Seq<char>) -> Seq<char> {
    trim_end_of(trim_start_of(text))
}

/// The part of `text` between the white space at its ends.
pub fn trim(text: &str) -> (inner: &str)
    ensures
        inner@ == trimmed(text@),
{
    let chars = chars_of(text);
    let n: usize = chars.len();
    let mut start: usize = 0;
    proof {
        assert(text@.skip(0) =~= text@);
    }
    while start < n && is_white(chars[start])
        invariant
            start <= n,
            n == chars.len(),
            chars@ == text@,
            trim_start_of(text@) == trim_start_of(text@.skip(start as int)),
        decreases n - start,
    {
        proof {
            assert(text@.skip(start as int).drop_first() =~= text@.skip(start + 1));
        }
        start += 1;
    }
    let ghost rest = text@.skip(start as int);
    let mut end: usize = n;
    proof {
        assert(trim_start_of(text@) == rest);
        assert(text@.subrange(start as int, n as int) =~= rest);
    }
    while end > start && is_white(chars[end - 1])
        invariant
            start <= end <= n,
            n == chars.len(),
            chars@ == text@,
            trim_end_of(rest) == trim_end_of(text@.subrange(start as int, end as int)),
        decreases end,
    {
        proof {
            assert(text@.subrange(start as int, end as int).drop_last() =~= text@.subrange(
                start as int,
                end - 1,
            ));
        }
        end -= 1;
    }
    text.substring_char(start, end)
}

} // verus!
