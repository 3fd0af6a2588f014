//! Text as sequences of characters: lines, blanks at the ends, parts of a text.

use vstd::prelude::*;

verus! {

/// `String::push`: appends `ch` to the end of the string.
pub assume_specification[ String::push ](text: &mut String, ch: char)
    ensures
        final(text)@ == old(text)@.push(ch),
;

/// The characters of `text`.
pub fn chars_of(text: &str) -> (chars: Vec<char>)
    ensures
        chars@ == text@,
{
    let mut chars: Vec<char> = Vec::new();
    for ch in it: text.chars()
        invariant
            chars@ == it.seq().take(it.index() as int),
            it.seq() == text@,
    {
        chars.push(ch);
    }
    chars
}

/// The characters of `chars` from `from` up to `to`, as a string.
pub fn string_of(chars: &Vec<char>, from: usize, to: usize) -> (text: String)
    requires
        from <= to <= chars.len(),
    ensures
        text@ == chars@.subrange(from as int, to as int),
{
    let mut text = String::new();
    let mut at: usize = from;
    assert(chars@.subrange(from as int, from as int) =~= Seq::empty());
    while at < to
        invariant
            from <= at <= to <= chars.len(),
            text@ == chars@.subrange(from as int, at as int),
        decreases to - at,
    {
        text.push(chars[at]);
        assert(chars@.subrange(from as int, at + 1) =~= chars@.subrange(
            from as int,
            at as int,
        ).push(chars[at as int]));
        at = at + 1;
    }
    text
}

/// Whether two lists of characters are the same text.
pub fn same_chars(left: &Vec<char>, right: &Vec<char>) -> (same: bool)
    ensures
        same == (left@ == right@),
{
    if left.len() != right.len() {
        return false;
    }
    let mut at: usize = 0;
    while at < left.len()
        invariant
            at <= left.len(),
            left.len() == right.len(),
            forall|k: int| 0 <= k < at ==> left[k] == right[k],
        decreases left.len() - at,
    {
        if left[at] != right[at] {
            return false;
        }
        at = at + 1;
    }
    assert(left@ =~= right@);
    true
}

/// White space, as Unicode defines it.
pub open spec fn is_whitespace(ch: char) -> bool {
    ||| '\u{0009}' <= ch <= '\u{000D}'
    ||| ch == '\u{0020}'
    ||| ch == '\u{0085}'
    ||| ch == '\u{00A0}'
    ||| ch == '\u{1680}'
    ||| '\u{2000}' <= ch <= '\u{200A}'
    ||| ch == '\u{2028}'
    ||| ch == '\u{2029}'
    ||| ch == '\u{202F}'
    ||| ch == '\u{205F}'
    ||| ch == '\u{3000}'
}

/// Whether `ch` is white space.
pub fn char_is_whitespace(ch: char) -> (white: bool)
    ensures
        white == is_whitespace(ch),
{
    ('\u{0009}' <= ch && ch <= '\u{000D}') || ch == '\u{0020}' || ch == '\u{0085}' || ch
        == '\u{00A0}' || ch == '\u{1680}' || ('\u{2000}' <= ch && ch <= '\u{200A}') || ch
        == '\u{2028}' || ch == '\u{2029}' || ch == '\u{202F}' || ch == '\u{205F}' || ch
        == '\u{3000}'
}

/// `text` without the white space at its start.
pub open spec fn trim_start(text: Seq<char>) -> Seq<char>
    decreases text.len(),
{
    if text.len() > 0 && is_whitespace(text[0]) {
        trim_start(text.skip(1))
    } else {
        text
    }
}

/// `text` without the white space at its end.
pub open spec fn trim_end(text: Seq<char>) -> Seq<char>
    decreases text.len(),
{
    if text.len() > 0 && is_whitespace(text.last()) {
        trim_end(text.drop_last())
    } else {
        text
    }
}

/// `text` without the white space at its start and at its end.
pub open spec fn trimmed(text: Seq<char>) -> Seq<char> {
    trim_end(trim_start(text))
}

/// Where `chars` starts and ends once the white space at both ends is left out.
pub fn trim_bounds(chars: &Vec<char>) -> (bounds: (usize, usize))
    ensures
        bounds.0 <= bounds.1 <= chars.len(),
        chars@.subrange(bounds.0 as int, bounds.1 as int) == trimmed(chars@),
{
    let mut from: usize = 0;
    assert(chars@.skip(0) =~= chars@);
    while from < chars.len() && char_is_whitespace(chars[from])
        invariant
            from <= chars.len(),
            trim_start(chars@) == trim_start(chars@.skip(from as int)),
        decreases chars.len() - from,
    {
        assert(chars@.skip(from as int).skip(1) =~= chars@.skip(from + 1));
        from = from + 1;
    }
    let ghost rest = chars@.skip(from as int);
    assert(trim_start(chars@) == rest);
    let mut to: usize = chars.len();
    assert(chars@.subrange(from as int, to as int) =~= rest);
    while to > from && char_is_whitespace(chars[to - 1])
        invariant
            from <= to <= chars.len(),
            trim_end(rest) == trim_end(chars@.subrange(from as int, to as int)),
        decreases to,
    {
        assert(chars@.subrange(from as int, to as int).drop_last() =~= chars@.subrange(
            from as int,
            to - 1,
        ));
        to = to - 1;
    }
    (from, to)
}

/// `needle` stands in `haystack` at `at`.
pub open spec fn occurs_at(haystack: Seq<char>, needle: Seq<char>, at: int) -> bool {
    0 <= at && at + needle.len() <= haystack.len() && haystack.subrange(
        at,
        at + needle.len(),
    ) == needle
}

/// `needle` stands somewhere in `haystack`.
pub open spec fn contains_text(haystack: Seq<char>, needle: Seq<char>) -> bool {
    exists|at: int| occurs_at(haystack, needle, at)
}

fn matches_at(haystack: &Vec<char>, needle: &Vec<char>, at: usize) -> (matches: bool)
    requires
        at + needle.len() <= haystack.len(),
    ensures
        matches == occurs_at(haystack@, needle@, at as int),
{
    let mut k: usize = 0;
    while k < needle.len()
        invariant
            k <= needle.len(),
            at + needle.len() <= haystack.len(),
            forall|j: int| 0 <= j < k ==> haystack[at + j] == needle[j],
        decreases needle.len() - k,
    {
        if haystack[at + k] != needle[k] {
            assert(haystack@.subrange(at as int, at + needle.len())[k as int] != needle[k as int]);
            return false;
        }
        k = k + 1;
    }
    assert(haystack@.subrange(at as int, at + needle.len()) =~= needle@);
    true
}

/// Whether `needle` stands somewhere in `haystack`.
pub fn contains_chars(haystack: &Vec<char>, needle: &Vec<char>) -> (found: bool)
    ensures
        found == contains_text(haystack@, needle@),
{
    if needle.len() > haystack.len() {
        return false;
    }
    let last: usize = haystack.len() - needle.len();
    let mut at: usize = 0;
    loop
        invariant
            at <= last,
            last == haystack.len() - needle.len(),
            needle.len() <= haystack.len(),
            forall|k: int| 0 <= k < at ==> !occurs_at(haystack@, needle@, k),
        decreases last - at,
    {
        if matches_at(haystack, needle, at) {
            return true;
        }
        if at == last {
            return false;
        }
        at = at + 1;
    }
}

/// The pieces of `text`: what stands between its separators, before the first and
/// behind the last.
pub open spec fn pieces_of(text: Seq<char>, separator: char) -> Seq<Seq<char>>
    decreases text.len(),
{
    if text.len() == 0 {
        seq![Seq::empty()]
    } else {
        let before = pieces_of(text.drop_last(), separator);
        if text.last() == separator {
            before.push(Seq::empty())
        } else {
            before.update(before.len() - 1, before.last().push(text.last()))
        }
    }
}

/// The lines of `text`: what stands between its line feeds, before the first and
/// behind the last.
pub open spec fn lines_of(text: Seq<char>) -> Seq<Seq<char>> {
    pieces_of(text, '\n')
}

/// Lines as character sequences.
pub open spec fn lines_view(lines: Seq<Vec<char>>) -> Seq<Seq<char>> {
    Seq::new(lines.len(), |i: int| lines[i]@)
}

/// Cuts `chars` into its pieces at every `separator`.
pub fn split_chars(chars: &Vec<char>, separator: char) -> (pieces: Vec<Vec<char>>)
    ensures
        lines_view(pieces@) == pieces_of(chars@, separator),
{
    let mut pieces: Vec<Vec<char>> = Vec::new();
    let mut current: Vec<char> = Vec::new();
    let mut at: usize = 0;
    assert(chars@.take(0) =~= Seq::empty());
    assert(lines_view(pieces@).push(current@) =~= seq![Seq::empty()]);
    while at < chars.len()
        invariant
            at <= chars.len(),
            lines_view(pieces@).push(current@) == pieces_of(chars@.take(at as int), separator),
        decreases chars.len() - at,
    {
        let ghost done = lines_view(pieces@);
        let ghost open = current@;
        proof {
            assert(chars@.take(at + 1).drop_last() =~= chars@.take(at as int));
            assert(chars@.take(at + 1).last() == chars[at as int]);
        }
        if chars[at] == separator {
            pieces.push(current);
            current = Vec::new();
            proof {
                assert(lines_view(pieces@) =~= done.push(open));
                assert(current@ =~= Seq::empty());
            }
        } else {
            current.push(chars[at]);
            proof {
                assert(done.push(open).update(done.len() as int, open.push(chars[at as int]))
                    =~= done.push(current@));
                assert(done.push(open).last() == open);
            }
        }
        at = at + 1;
    }
    assert(chars@.take(chars.len() as int) =~= chars@);
    let ghost done = lines_view(pieces@);
    pieces.push(current);
    assert(lines_view(pieces@) =~= done.push(current@));
    pieces
}

/// Cuts `chars` into its lines.
pub fn split_lines(chars: &Vec<char>) -> (lines: Vec<Vec<char>>)
    ensures
        lines_view(lines@) == lines_of(chars@),
{
    split_chars(chars, '\n')
}

/// The index of the first line that reads `target`.
pub open spec fn first_line(lines: Seq<Seq<char>>, target: Seq<char>) -> Option<int>
    decreases lines.len(),
{
    if lines.len() == 0 {
        None
    } else {
        match first_line(lines.drop_last(), target) {
            Some(at) => Some(at),
            None => if lines.last() == target {
                Some(lines.len() - 1)
            } else {
                None
            },
        }
    }
}

proof fn lemma_first_line_found(lines: Seq<Seq<char>>, target: Seq<char>, prefix: int)
    requires
        0 <= prefix <= lines.len(),
        first_line(lines.take(prefix), target) is Some,
    ensures
        first_line(lines, target) == first_line(lines.take(prefix), target),
    decreases lines.len() - prefix,
{
    if prefix == lines.len() {
        assert(lines.take(prefix) =~= lines);
    } else {
        assert(lines.take(prefix + 1).drop_last() =~= lines.take(prefix));
        lemma_first_line_found(lines, target, prefix + 1);
    }
}

/// Finds the first line that reads `target`.
pub fn find_line(lines: &Vec<Vec<char>>, target: &Vec<char>) -> (found: Option<usize>)
    ensures
        match found {
            Some(at) => at < lines.len() && first_line(lines_view(lines@), target@) == Some(
                at as int,
            ),
            None => first_line(lines_view(lines@), target@) is None,
        },
{
    let ghost all = lines_view(lines@);
    let mut at: usize = 0;
    assert(all.take(0) =~= Seq::empty());
    while at < lines.len()
        invariant
            at <= lines.len(),
            all == lines_view(lines@),
            first_line(all.take(at as int), target@) is None,
        decreases lines.len() - at,
    {
        proof {
            assert(all.take(at + 1).drop_last() =~= all.take(at as int));
            assert(all.take(at + 1).last() == lines[at as int]@);
        }
        if same_chars(&lines[at], target) {
            proof {
                lemma_first_line_found(all, target@, at + 1);
            }
            return Some(at);
        }
        at = at + 1;
    }
    assert(all.take(lines.len() as int) =~= all);
    None
}

/// The value of a digit in a number of base `radix`: the decimal digits, then the
/// letters of either case.
pub open spec fn digit_value(digit: char, radix: int) -> Option<int> {
    let value = if '0' <= digit <= '9' {
        digit as int - '0' as int
    } else if 'a' <= digit <= 'z' {
        digit as int - 'a' as int + 10
    } else if 'A' <= digit <= 'Z' {
        digit as int - 'A' as int + 10
    } else {
        radix
    };
    if value < radix {
        Some(value)
    } else {
        None
    }
}

/// Every character is a digit of base `radix`.
pub open spec fn all_digits(digits: Seq<char>, radix: int) -> bool {
    forall|i: int| 0 <= i < digits.len() ==> digit_value(#[trigger] digits[i], radix) is Some
}

/// The number that digits of base `radix` stand for, most significant first.
pub open spec fn digits_value(digits: Seq<char>, radix: int) -> int
    decreases digits.len(),
{
    if digits.len() == 0 {
        0
    } else {
        digits_value(digits.drop_last(), radix) * radix + digit_value(digits.last(), radix)->0
    }
}

/// A number from `min` to `max` read from text in base `radix`: an optional
/// sign, then at least one digit. A minus sign is a sign only where `min` is
/// negative. Anything else is no number.
pub open spec fn parse_integer(text: Seq<char>, radix: int, min: int, max: int) -> Option<int> {
    if text.len() == 0 {
        None
    } else {
        let negative = text[0] == '-' && min < 0;
        let digits = if negative || text[0] == '+' {
            text.skip(1)
        } else {
            text
        };
        let value = if negative {
            -digits_value(digits, radix)
        } else {
            digits_value(digits, radix)
        };
        if digits.len() > 0 && all_digits(digits, radix) && min <= value <= max {
            Some(value)
        } else {
            None
        }
    }
}

proof fn lemma_digits_value_positive(digits: Seq<char>, radix: int)
    requires
        radix >= 1,
        all_digits(digits, radix),
    ensures
        0 <= digits_value(digits, radix),
    decreases digits.len(),
{
    if digits.len() > 0 {
        assert(digit_value(digits[digits.len() - 1], radix) is Some);
        assert forall|i: int| 0 <= i < digits.drop_last().len() implies digit_value(
            #[trigger] digits.drop_last()[i],
            radix,
        ) is Some by {
            assert(digit_value(digits[i], radix) is Some);
        }
        lemma_digits_value_positive(digits.drop_last(), radix);
        assert(digits_value(digits.drop_last(), radix) * radix >= 0) by (nonlinear_arith)
            requires
                digits_value(digits.drop_last(), radix) >= 0,
                radix >= 1,
        ;
    }
}

proof fn lemma_digits_value_grows(digits: Seq<char>, radix: int, prefix: int)
    requires
        radix >= 1,
        all_digits(digits, radix),
        0 <= prefix <= digits.len(),
    ensures
        0 <= digits_value(digits.take(prefix), radix) <= digits_value(digits, radix),
    decreases digits.len() - prefix,
{
    if prefix == digits.len() {
        assert(digits.take(prefix) =~= digits);
        lemma_digits_value_positive(digits, radix);
    } else {
        lemma_digits_value_grows(digits, radix, prefix + 1);
        let longer = digits.take(prefix + 1);
        let shorter = digits.take(prefix);
        assert(longer.drop_last() =~= shorter);
        assert(digit_value(digits[prefix], radix) is Some);
        assert(longer.last() == digits[prefix]);
        assert forall|i: int| 0 <= i < shorter.len() implies digit_value(
            #[trigger] shorter[i],
            radix,
        ) is Some by {
            assert(digit_value(digits[i], radix) is Some);
        }
        lemma_digits_value_positive(shorter, radix);
        assert(digits_value(shorter, radix) * radix >= digits_value(shorter, radix))
            by (nonlinear_arith)
            requires
                digits_value(shorter, radix) >= 0,
                radix >= 1,
        ;
    }
}

fn digit_of(digit: char, radix: u32) -> (value: Option<u32>)
    requires
        radix <= 36,
    ensures
        match value {
            Some(value) => digit_value(digit, radix as int) == Some(value as int),
            None => digit_value(digit, radix as int) is None,
        },
{
    let value: u32 = if '0' <= digit && digit <= '9' {
        digit as u32 - '0' as u32
    } else if 'a' <= digit && digit <= 'z' {
        digit as u32 - 'a' as u32 + 10
    } else if 'A' <= digit && digit <= 'Z' {
        digit as u32 - 'A' as u32 + 10
    } else {
        radix
    };
    if value < radix {
        Some(value)
    } else {
        None
    }
}

/// Reads a number from `min` to `max` from the characters of `chars` behind the
/// first `skip`, written in base `radix`.
#[verifier::loop_isolation(false)]
pub fn parse_number(chars: &Vec<char>, skip: usize, radix: u32, min: i64, max: i64) -> (number:
    Option<i64>)
    requires
        skip <= chars.len(),
        2 <= radix <= 36,
        min <= 0 <= max,
    ensures
        match number {
            Some(number) => parse_integer(
                chars@.skip(skip as int),
                radix as int,
                min as int,
                max as int,
            ) == Some(number as int),
            None => parse_integer(
                chars@.skip(skip as int),
                radix as int,
                min as int,
                max as int,
            ) is None,
        },
{
    let ghost all = chars@.skip(skip as int);
    let len = chars.len();
    if skip == len {
        return None;
    }
    let first = chars[skip];
    assert(all[0] == first);
    let negative = first == '-' && min < 0;
    let start: usize = if negative || first == '+' {
        skip + 1
    } else {
        skip
    };
    let ghost digits = chars@.skip(start as int);
    assert(digits == if negative || first == '+' {
        all.skip(1)
    } else {
        all
    }) by {
        assert(all.skip(1) =~= chars@.skip(skip + 1));
    }
    if start == len {
        return None;
    }
    let limit: u128 = 9223372036854775808u128;
    let mut magnitude: u128 = 0;
    let mut at: usize = start;
    assert(digits.take(0) =~= Seq::empty());
    while at < len
        invariant
            start <= at <= len,
            magnitude <= limit,
            all_digits(digits.take(at - start), radix as int),
            magnitude == digits_value(digits.take(at - start), radix as int),
        decreases len - at,
    {
        let digit = chars[at];
        assert(digits[at - start] == digit);
        let ghost longer = digits.take(at - start + 1);
        proof {
            assert(longer.drop_last() =~= digits.take(at - start));
            assert(longer.last() == digit);
        }
        match digit_of(digit, radix) {
            None => {
                assert(!all_digits(digits, radix as int));
                return None;
            },
            Some(value) => {
                proof {
                    assert forall|i: int| 0 <= i < longer.len() implies digit_value(
                        #[trigger] longer[i],
                        radix as int,
                    ) is Some by {
                        if i < at - start {
                            assert(digit_value(digits.take(at - start)[i], radix as int) is Some);
                        }
                    }
                    assert(magnitude * radix <= 9223372036854775808 * 36) by (nonlinear_arith)
                        requires
                            magnitude <= 9223372036854775808,
                            radix <= 36,
                    ;
                }
                let next: u128 = magnitude * (radix as u128) + value as u128;
                if next > limit {
                    proof {
                        if all_digits(digits, radix as int) {
                            lemma_digits_value_grows(digits, radix as int, at - start + 1);
                        }
                    }
                    return None;
                }
                magnitude = next;
            },
        }
        at = at + 1;
    }
    assert(digits.take(len - start) =~= digits);
    if negative {
        if magnitude == limit {
            if min == i64::MIN {
                Some(i64::MIN)
            } else {
                None
            }
        } else {
            let value: i64 = -(magnitude as i64);
            if value >= min {
                Some(value)
            } else {
                None
            }
        }
    } else if magnitude == limit {
        None
    } else {
        let value: i64 = magnitude as i64;
        if value <= max {
            Some(value)
        } else {
            None
        }
    }
}

} // verus!
