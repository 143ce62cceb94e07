//! How much memory the process uses, as the system reports it.

use crate::text::{chars_of, decimal, decimal_digits};
use vstd::prelude::*;

verus! {

/// Whether a character separates fields.
pub open spec fn is_space(c: char) -> bool {
    ||| 0x09 <= c as int <= 0x0d
    ||| c as int == 0x20
    ||| c as int == 0x85
    ||| c as int == 0xa0
    ||| c as int == 0x1680
    ||| 0x2000 <= c as int <= 0x200a
    ||| c as int == 0x2028
    ||| c as int == 0x2029
    ||| c as int == 0x202f
    ||| c as int == 0x205f
    ||| c as int == 0x3000
}

/// How many of the first characters of `text` are spaces, or are not, as `spaces` asks.
pub open spec fn run_len(text: Seq<char>, spaces: bool) -> nat
    decreases text.len(),
{
    if text.len() > 0 && is_space(text[0]) == spaces {
        1 + run_len(text.drop_first(), spaces)
    } else {
        0
    }
}

/// `text` without its leading spaces, or without its first field.
pub open spec fn after_run(text: Seq<char>, spaces: bool) -> Seq<char> {
    text.skip(run_len(text, spaces) as int)
}

/// The second field of a text; empty where there is none.
pub open spec fn second_field(text: Seq<char>) -> Seq<char> {
    let rest = after_run(after_run(after_run(text, true), false), true);
    rest.take(run_len(rest, false) as int)
}

/// Whether a character is a digit.
pub open spec fn is_digit(c: char) -> bool {
    '0' <= c && c <= '9'
}

/// The number that digits stand for.
pub open spec fn digits_value(digits: Seq<char>) -> nat
    decreases digits.len(),
{
    if digits.len() == 0 {
        0
    } else {
        (digits_value(digits.drop_last()) * 10 + (digits.last() as int - '0' as int)) as nat
    }
}

/// A field without a plus sign in front.
pub open spec fn signless(field: Seq<char>) -> Seq<char> {
    if field.len() > 0 && field[0] == '+' {
        field.drop_first()
    } else {
        field
    }
}

/// Whether all characters are digits.
pub open spec fn all_digits(text: Seq<char>) -> bool {
    forall|i: int| 0 <= i < text.len() ==> is_digit(#[trigger] text[i])
}

/// The number that a field stands for: digits, with at most a plus sign in front, and not more
/// than 64 bits can hold.
pub open spec fn field_number(field: Seq<char>) -> Option<u64> {
    let digits = signless(field);
    if digits.len() > 0 && all_digits(digits) && digits_value(digits) <= u64::MAX {
        Some(digits_value(digits) as u64)
    } else {
        None
    }
}

/// Whether a character separates fields.
fn separates(c: char) -> (yes: bool)
    ensures
        yes == is_space(c),
{
    let n: u32 = c as u32;
    (0x09 <= n && n <= 0x0d) || n == 0x20 || n == 0x85 || n == 0xa0 || n == 0x1680 || (0x2000 <= n
        && n <= 0x200a) || n == 0x2028 || n == 0x2029 || n == 0x202f || n == 0x205f || n == 0x3000
}

/// Where a run of spaces, or of other characters, that starts at `from` ends.
fn run_end(chars: &Vec<char>, from: usize, spaces: bool) -> (end: usize)
    requires
        from <= chars.len(),
    ensures
        from <= end <= chars.len(),
        end - from == run_len(chars@.skip(from as int), spaces),
{
    let ghost text = chars@.skip(from as int);
    let mut end: usize = from;
    assert(text.skip(0) =~= text);
    while end < chars.len() && separates(chars[end]) == spaces
        invariant
            from <= end <= chars.len(),
            text == chars@.skip(from as int),
            run_len(text, spaces) == (end - from) + run_len(text.skip(end - from), spaces),
        ensures
            run_len(text.skip(end - from), spaces) == 0,
        decreases chars.len() - end,
    {
        assert(text.skip(end - from).drop_first() =~= text.skip(end - from + 1));
        end += 1;
    }
    end
}

/// The number that a field stands for.
fn read_number(chars: &Vec<char>, from: usize, end: usize) -> (number: Option<u64>)
    requires
        from <= end <= chars.len(),
    ensures
        number == field_number(chars@.subrange(from as int, end as int)),
{
    let ghost field = chars@.subrange(from as int, end as int);
    let start: usize = if from < end && chars[from] == '+' {
        from + 1
    } else {
        from
    };
    let ghost digits = chars@.subrange(start as int, end as int);
    assert(digits =~= signless(field));
    if start == end {
        return None;
    }
    let mut value: u64 = 0;
    let mut i: usize = start;
    assert(digits.take(0) =~= Seq::<char>::empty());
    while i < end
        invariant
            start <= i <= end <= chars.len(),
            digits == chars@.subrange(start as int, end as int),
            field == chars@.subrange(from as int, end as int),
            digits == signless(field),
            forall|k: int| 0 <= k < i - start ==> is_digit(#[trigger] digits[k]),
            value == digits_value(digits.take(i - start)),
        decreases end - i,
    {
        let c = chars[i];
        assert(c == digits[i - start]);
        if c < '0' || c > '9' {
            assert(!is_digit(digits[i - start]));
            return None;
        }
        let d: u64 = c as u64 - 48;
        let ghost longer = digits.take(i - start + 1);
        assert(longer.drop_last() =~= digits.take(i - start));
        assert(digits_value(longer) == value * 10 + d);
        proof {
            digits_grow(digits, i - start + 1);
        }
        if value > (u64::MAX - d) / 10 {
            assert(value * 10 + d > u64::MAX);
            return None;
        }
        value = value * 10 + d;
        i += 1;
    }
    assert(digits.take(i - start) =~= digits);
    Some(value)
}

/// More digits never make a number smaller.
proof fn digits_grow(digits: Seq<char>, k: int)
    requires
        0 <= k <= digits.len(),
    ensures
        all_digits(digits) ==> digits_value(digits.take(k)) <= digits_value(digits),
    decreases digits.len(),
{
    if k == digits.len() {
        assert(digits.take(k) =~= digits);
    } else {
        let shorter = digits.drop_last();
        digits_grow(shorter, k);
        assert(shorter.take(k) =~= digits.take(k));
        if all_digits(digits) {
            assert(is_digit(digits[digits.len() - 1]));
            assert forall|i: int| 0 <= i < shorter.len() implies is_digit(#[trigger] shorter[i]) by {
                assert(is_digit(digits[i]));
            }
        }
    }
}

/// The number of memory pages in use, out of the system's report: its second field.
pub fn resident_pages(statm: &str) -> (pages: Option<u64>)
    ensures
        pages == field_number(second_field(statm@)),
{
    let chars = chars_of(statm);
    let ghost text = chars@;
    assert(text.skip(0) =~= text);
    let a: usize = run_end(&chars, 0, true);
    let b: usize = run_end(&chars, a, false);
    let c: usize = run_end(&chars, b, true);
    let d: usize = run_end(&chars, c, false);
    proof {
        assert(after_run(text, true) =~= text.skip(a as int));
        assert(after_run(text.skip(a as int), false) =~= text.skip(b as int));
        assert(after_run(text.skip(b as int), true) =~= text.skip(c as int));
        assert(text.skip(c as int).take(d - c) =~= text.subrange(c as int, d as int));
    }
    read_number(&chars, c, d)
}

/// The memory in use in kilobytes, out of the system's report, with pages of four kilobytes; 0
/// where the report cannot be read.
pub fn rss_kb(statm: &str) -> (kilobytes: u64)
    requires
        field_number(second_field(statm@)) matches Some(pages) ==> 4 * pages <= u64::MAX,
    ensures
        kilobytes == match field_number(second_field(statm@)) {
            Some(pages) => 4 * pages,
            None => 0,
        },
{
    match resident_pages(statm) {
        Some(pages) => 4 * pages,
        None => 0,
    }
}

/// Of the ASCII characters, the blank and those from the tab to the carriage return are spaces.
pub proof fn ascii_spaces(c: char)
    requires
        c as int <= 0x7f,
    ensures
        is_space(c) <==> c as int == 0x20 || 0x09 <= c as int <= 0x0d,
{
}

/// Whether a text holds only spaces, or none.
pub open spec fn all_alike(text: Seq<char>, spaces: bool) -> bool {
    forall|i: int| 0 <= i < text.len() ==> is_space(#[trigger] text[i]) == spaces
}

proof fn run_ends_where_it_changes(run: Seq<char>, rest: Seq<char>, spaces: bool)
    requires
        all_alike(run, spaces),
        rest.len() > 0 ==> is_space(rest[0]) != spaces,
    ensures
        run_len(run + rest, spaces) == run.len(),
        after_run(run + rest, spaces) == rest,
    decreases run.len(),
{
    let text = run + rest;
    if run.len() > 0 {
        let shorter = run.drop_first();
        assert(is_space(run[0]) == spaces);
        assert forall|i: int| 0 <= i < shorter.len() implies is_space(#[trigger] shorter[i])
            == spaces by {
            assert(is_space(run[i + 1]) == spaces);
        }
        run_ends_where_it_changes(shorter, rest, spaces);
        assert(text.drop_first() =~= shorter + rest);
    }
    assert(text.skip(run.len() as int) =~= rest);
}

/// Of fields with spaces between them, the second one is found, whatever stands around them.
pub proof fn the_second_field_is_found(
    before: Seq<char>,
    first: Seq<char>,
    between: Seq<char>,
    second: Seq<char>,
    rest: Seq<char>,
)
    requires
        all_alike(before, true),
        first.len() > 0,
        all_alike(first, false),
        between.len() > 0,
        all_alike(between, true),
        second.len() > 0,
        all_alike(second, false),
        rest.len() > 0 ==> is_space(rest[0]),
    ensures
        second_field(before + (first + (between + (second + rest)))) == second,
{
    assert(!is_space(first[0]));
    assert(is_space(between[0]));
    assert(!is_space(second[0]));
    let d = second + rest;
    let c = between + d;
    let b = first + c;
    assert(b[0] == first[0] && c[0] == between[0] && d[0] == second[0]);
    run_ends_where_it_changes(before, b, true);
    run_ends_where_it_changes(first, c, false);
    run_ends_where_it_changes(between, d, true);
    run_ends_where_it_changes(second, rest, false);
    assert(d.take(second.len() as int) =~= second);
}

/// A number that is written in decimal digits, with or without a plus sign, is read as it is.
pub proof fn numbers_read_back(n: u64)
    ensures
        field_number(decimal(n as int)) == Some(n),
        field_number(seq!['+'] + decimal(n as int)) == Some(n),
{
    digits_read_back(n as nat);
    let digits = decimal(n as int);
    assert(is_digit(digits[0]));
    assert((seq!['+'] + digits).drop_first() =~= digits);
}

/// The digits of a number stand for it; they are all digits, and there is at least one.
pub proof fn digits_read_back(n: nat)
    ensures
        digits_value(decimal_digits(n)) == n,
        all_digits(decimal_digits(n)),
        decimal_digits(n).len() > 0,
        n > 0 ==> decimal_digits(n)[0] != '0',
    decreases n,
{
    if n < 10 {
        let digits = decimal_digits(n);
        assert(digits.drop_last() =~= Seq::empty());
        assert(digits_value(digits.drop_last()) == 0);
    } else {
        digits_read_back(n / 10);
        let before = decimal_digits(n / 10);
        let digits = decimal_digits(n);
        assert(digits.drop_last() =~= before);
        assert forall|i: int| 0 <= i < digits.len() implies is_digit(#[trigger] digits[i]) by {
            if i < before.len() {
                assert(is_digit(before[i]));
            }
        }
        assert(digits[0] == before[0]);
    }
}

/// A negative number is written with a minus sign in front of its digits, any other without.
pub proof fn signs_are_written(n: int)
    ensures
        n < 0 ==> decimal(n) == seq!['-'] + decimal(-n),
        n >= 0 ==> is_digit(decimal(n)[0]) && digits_value(decimal(n)) == n,
{
    if n >= 0 {
        digits_read_back(n as nat);
    }
}

/// Without a digit, or with anything but digits behind the sign, there is no number.
pub proof fn only_digits_are_numbers(field: Seq<char>, i: int)
    ensures
        field_number(Seq::empty()) is None,
        1 <= i < field.len() && !is_digit(field[i]) ==> field_number(field) is None,
        field.len() > 0 && !is_digit(field[0]) && field[0] != '+' ==> field_number(field) is None,
{
    if 1 <= i < field.len() && !is_digit(field[i]) {
        if field[0] == '+' {
            assert(signless(field)[i - 1] == field[i]);
        } else {
            assert(signless(field)[i] == field[i]);
        }
    }
    if field.len() > 0 && !is_digit(field[0]) && field[0] != '+' {
        assert(signless(field)[0] == field[0]);
    }
}

} // verus!
