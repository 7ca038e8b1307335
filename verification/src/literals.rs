//! What the values of property lists may be spelled like: integers, reals, data and dates.

use vstd::prelude::*;
use vstd::slice::slice_subrange;

verus! {

pub const PLUS: u8 = 0x2b;

pub const MINUS: u8 = 0x2d;

pub const POINT: u8 = 0x2e;

pub const SLASH: u8 = 0x2f;

pub const COLON: u8 = 0x3a;

pub const EQUALS: u8 = 0x3d;

/// Whether `word` is spelled in `bytes` at `i`.
pub open spec fn spelled_at(bytes: Seq<u8>, i: int, word: Seq<char>) -> bool {
    &&& 0 <= i <= bytes.len() - word.len()
    &&& forall|k: int| 0 <= k < word.len() ==> #[trigger] bytes[i + k] as int == word[k] as int
}

/// Tells whether `word` is spelled in `bytes` at `i`.
pub(crate) fn is_spelled_at(bytes: &[u8], i: usize, word: &str) -> (r: bool)
    ensures
        r == spelled_at(bytes@, i as int, word@),
{
    let n: usize = word.unicode_len();
    let len: usize = bytes.len();
    if n > len || i > len - n {
        return false;
    }
    let mut k: usize = 0;
    while k < n
        invariant
            n == word@.len(),
            len == bytes@.len(),
            i + n <= len,
            k <= n,
            forall|j: int| 0 <= j < k ==> #[trigger] bytes@[i + j] as int == word@[j] as int,
        decreases n - k,
    {
        let c: char = word.get_char(k);
        if bytes[i + k] as u32 != c as u32 {
            assert(bytes@[i + k] as int != word@[k as int] as int);
            return false;
        }
        k = k + 1;
    }
    true
}

/// The letters of a word in lower case, spelled at `i` in letters of either case.
pub open spec fn spelled_uncased_at(bytes: Seq<u8>, i: int, word: Seq<char>) -> bool {
    &&& 0 <= i <= bytes.len() - word.len()
    &&& forall|k: int|
        0 <= k < word.len() ==> #[trigger] bytes[i + k] as int == word[k] as int || bytes[i + k]
            as int == word[k] as int - 32
}

/// Tells whether a word in lower case is spelled at `i` in letters of either case.
pub(crate) fn is_spelled_uncased_at(bytes: &[u8], i: usize, word: &str) -> (r: bool)
    ensures
        r == spelled_uncased_at(bytes@, i as int, word@),
{
    let n: usize = word.unicode_len();
    let len: usize = bytes.len();
    if n > len || i > len - n {
        return false;
    }
    let mut k: usize = 0;
    while k < n
        invariant
            n == word@.len(),
            len == bytes@.len(),
            i + n <= len,
            k <= n,
            forall|j: int|
                0 <= j < k ==> #[trigger] bytes@[i + j] as int == word@[j] as int || bytes@[i + j]
                    as int == word@[j] as int - 32,
        decreases n - k,
    {
        let c: char = word.get_char(k);
        let b: u8 = bytes[i + k];
        if b as u32 != c as u32 && b as u32 + 32 != c as u32 {
            assert(!(bytes@[i + k] as int == word@[k as int] as int || bytes@[i + k] as int
                == word@[k as int] as int - 32));
            return false;
        }
        k = k + 1;
    }
    true
}

/// The value of a digit; nothing where it is none in this radix.
pub open spec fn digit(b: u8, radix: int) -> Option<int> {
    let value = if 0x30 <= b <= 0x39 {
        b - 0x30
    } else if 0x61 <= b <= 0x66 {
        b - 0x61 + 10
    } else if 0x41 <= b <= 0x46 {
        b - 0x41 + 10
    } else {
        radix
    };
    if value < radix {
        Some(value)
    } else {
        None
    }
}

/// The number that digits spell; nothing where there is none, or where it passes `most`.
pub open spec fn number(digits: Seq<u8>, radix: int, most: int) -> Option<int>
    decreases digits.len(),
{
    if digits.len() == 0 {
        None
    } else {
        let high = if digits.len() == 1 {
            Some(0)
        } else {
            number(digits.drop_last(), radix, most)
        };
        match (high, digit(digits.last(), radix)) {
            (Some(n), Some(d)) => if n * radix + d <= most {
                Some(n * radix + d)
            } else {
                None
            },
            _ => None,
        }
    }
}

/// Reads the number that digits spell.
pub(crate) fn read_number(digits: &[u8], radix: u64, most: u64) -> (r: Option<u64>)
    requires
        radix == 10 || radix == 16,
    ensures
        match r {
            Some(n) => number(digits@, radix as int, most as int) == Some(n as int) && n <= most,
            None => number(digits@, radix as int, most as int) is None,
        },
{
    let len: usize = digits.len();
    if len == 0 {
        return None;
    }
    let mut value: u64 = 0;
    let mut k: usize = 0;
    while k < len
        invariant
            len == digits@.len(),
            k <= len,
            radix == 10 || radix == 16,
            value <= most,
            k == 0 ==> value == 0,
            k > 0 ==> number(digits@.take(k as int), radix as int, most as int) == Some(
                value as int,
            ),
        decreases len - k,
    {
        let b: u8 = digits[k];
        let d: u8 = if 0x30 <= b && b <= 0x39 {
            b - 0x30
        } else if 0x61 <= b && b <= 0x66 {
            b - 0x61 + 10
        } else if 0x41 <= b && b <= 0x46 {
            b - 0x41 + 10
        } else {
            16
        };
        proof {
            assert(digits@.take(k + 1).drop_last() =~= digits@.take(k as int));
            assert(digits@.take(k + 1).last() == b);
            assert(value * radix <= u64::MAX * 16) by (nonlinear_arith)
                requires
                    value <= u64::MAX,
                    radix <= 16,
            ;
        }
        if d as u64 >= radix || value as u128 * radix as u128 + d as u128 > most as u128 {
            proof {
                assert(number(digits@.take(k + 1), radix as int, most as int) is None);
                lemma_number_prefix(digits@, k + 1, radix as int, most as int);
            }
            return None;
        }
        value = value * radix + d as u64;
        k = k + 1;
    }
    assert(digits@.take(len as int) =~= digits@);
    Some(value)
}

/// Digits that spell no number spell none with more digits behind them.
proof fn lemma_number_prefix(digits: Seq<u8>, k: int, radix: int, most: int)
    requires
        0 < k <= digits.len(),
        number(digits.take(k), radix, most) is None,
    ensures
        number(digits, radix, most) is None,
    decreases digits.len(),
{
    if k == digits.len() {
        assert(digits.take(k) =~= digits);
    } else {
        assert(digits.drop_last().take(k) =~= digits.take(k));
        lemma_number_prefix(digits.drop_last(), k, radix, most);
    }
}

/// Where the digits from `i` on end.
pub open spec fn digits_end(text: Seq<u8>, i: int) -> int
    decreases text.len() - i,
{
    if i < text.len() && 0x30 <= text[i] <= 0x39 {
        digits_end(text, i + 1)
    } else {
        i
    }
}

/// Finds where the digits from `i` on end.
fn find_digits_end(text: &[u8], i: usize) -> (r: usize)
    requires
        i <= text@.len(),
    ensures
        r == digits_end(text@, i as int),
        i <= r <= text@.len(),
{
    let mut end: usize = i;
    while end < text.len() && 0x30 <= text[end] && text[end] <= 0x39
        invariant
            i <= end <= text@.len(),
            digits_end(text@, i as int) == digits_end(text@, end as int),
        decreases text@.len() - end,
    {
        end = end + 1;
    }
    end
}

/// Where the hexadecimal digits begin, behind any number of prefixes.
pub open spec fn behind_hex_prefixes(text: Seq<u8>, i: int) -> int
    decreases text.len() - i,
{
    if i + 2 <= text.len() && text[i] == 0x30 && text[i + 1] == 0x78 {
        behind_hex_prefixes(text, i + 2)
    } else {
        i
    }
}

/// What is behind `i` and a plus sign, where there is one.
pub open spec fn behind_plus(text: Seq<u8>, i: int) -> Seq<u8> {
    if i < text.len() && text[i] == PLUS {
        text.skip(i + 1)
    } else {
        text.skip(i)
    }
}

/// Whether a text spells an integer of a property list: one without a sign that 64 bits can hold,
/// in decimal or, behind `0x`, in hexadecimal digits, or a decimal one with a sign.
pub open spec fn is_integer(text: Seq<u8>) -> bool {
    let hex = behind_hex_prefixes(text, 0);
    if hex > 0 {
        number(behind_plus(text, hex), 16, u64::MAX as int) is Some
    } else if text.len() > 0 && text[0] == MINUS {
        number(text.skip(1), 10, -(i64::MIN as int)) is Some
    } else {
        number(behind_plus(text, 0), 10, u64::MAX as int) is Some
    }
}

/// Reads the unsigned number behind `i` and a plus sign, where there is one.
fn spells_unsigned(text: &[u8], i: usize, radix: u64) -> (r: bool)
    requires
        i <= text@.len(),
        radix == 10 || radix == 16,
    ensures
        r == (number(behind_plus(text@, i as int), radix as int, u64::MAX as int) is Some),
{
    let len: usize = text.len();
    let start: usize = if i < len && text[i] == PLUS {
        i + 1
    } else {
        i
    };
    assert(text@.subrange(start as int, len as int) =~= behind_plus(text@, i as int));
    read_number(slice_subrange(text, start, len), radix, u64::MAX).is_some()
}

/// Tells whether a text spells an integer of a property list.
pub(crate) fn spells_integer(text: &[u8]) -> (r: bool)
    ensures
        r == is_integer(text@),
{
    let len: usize = text.len();
    let mut hex: usize = 0;
    while len - hex >= 2 && text[hex] == 0x30 && text[hex + 1] == 0x78
        invariant
            len == text@.len(),
            hex <= len,
            behind_hex_prefixes(text@, 0) == behind_hex_prefixes(text@, hex as int),
        decreases len - hex,
    {
        hex = hex + 2;
    }
    if hex > 0 {
        spells_unsigned(text, hex, 16)
    } else if len > 0 && text[0] == MINUS {
        assert(text@.subrange(1, len as int) =~= text@.skip(1));
        read_number(slice_subrange(text, 1, len), 10, 0x8000_0000_0000_0000).is_some()
    } else {
        spells_unsigned(text, 0, 10)
    }
}

/// Whether a text is a word in letters of either case.
pub open spec fn is_uncased(text: Seq<u8>, word: Seq<char>) -> bool {
    text.len() == word.len() && spelled_uncased_at(text, 0, word)
}

/// Whether there is a sign at `i`.
pub open spec fn has_sign(text: Seq<u8>, i: int) -> bool {
    0 <= i < text.len() && (text[i] == PLUS || text[i] == MINUS)
}

/// Whether what is behind `i` is an exponent: the letter, a sign or none, and digits.
pub open spec fn is_exponent(text: Seq<u8>, i: int) -> bool {
    let start = if has_sign(text, i + 1) {
        i + 2
    } else {
        i + 1
    };
    &&& i < text.len()
    &&& text[i] == 0x65 || text[i] == 0x45
    &&& start < text.len()
    &&& digits_end(text, start) == text.len()
}

/// Whether what is behind `i` is a decimal number without a sign: digits with a point among them,
/// before them, behind them or nowhere, and an exponent or none.
pub open spec fn is_decimal(text: Seq<u8>, i: int) -> bool {
    let whole = digits_end(text, i);
    let end = if whole < text.len() && text[whole] == POINT {
        digits_end(text, whole + 1)
    } else {
        whole
    };
    &&& whole > i || end > whole + 1
    &&& end == text.len() || is_exponent(text, end)
}

/// Whether a text spells a real number.
pub open spec fn is_real(text: Seq<u8>) -> bool {
    let start = if has_sign(text, 0) {
        1
    } else {
        0
    };
    let size = text.skip(start);
    ||| is_uncased(size, "inf"@)
    ||| is_uncased(size, "infinity"@)
    ||| is_uncased(size, "nan"@)
    ||| is_decimal(text, start)
}

/// Tells whether a text is a word in letters of either case.
fn is_uncased_word(text: &[u8], word: &str) -> (r: bool)
    ensures
        r == is_uncased(text@, word@),
{
    text.len() == word.unicode_len() && is_spelled_uncased_at(text, 0, word)
}

/// Tells whether what is behind `i` is a decimal number without a sign.
fn spells_decimal(text: &[u8], i: usize) -> (r: bool)
    requires
        i <= text@.len(),
    ensures
        r == is_decimal(text@, i as int),
{
    let len: usize = text.len();
    let whole: usize = find_digits_end(text, i);
    let end: usize = if whole < len && text[whole] == POINT {
        find_digits_end(text, whole + 1)
    } else {
        whole
    };
    if whole == i && end - whole <= 1 {
        return false;
    }
    if end == len {
        return true;
    }
    if text[end] != 0x65 && text[end] != 0x45 {
        return false;
    }
    let start: usize = if end + 1 < len && (text[end + 1] == PLUS || text[end + 1] == MINUS) {
        end + 2
    } else {
        end + 1
    };
    start < len && find_digits_end(text, start) == len
}

/// Tells whether a text spells a real number.
pub(crate) fn spells_real(text: &[u8]) -> (r: bool)
    ensures
        r == is_real(text@),
{
    let len: usize = text.len();
    let start: usize = if len > 0 && (text[0] == PLUS || text[0] == MINUS) {
        1
    } else {
        0
    };
    let size: &[u8] = slice_subrange(text, start, len);
    assert(size@ =~= text@.skip(start as int));
    is_uncased_word(size, "inf") || is_uncased_word(size, "infinity") || is_uncased_word(
        size,
        "nan",
    ) || spells_decimal(text, start)
}

/// Whether a byte is white space that data may be spread over lines with.
pub open spec fn is_filler(b: u8) -> bool {
    b == 0x20 || b == 0x09 || b == 0x0a || b == 0x0c || b == 0x0d
}

/// A text without white space.
pub open spec fn squeezed(text: Seq<u8>) -> Seq<u8>
    decreases text.len(),
{
    if text.len() == 0 {
        Seq::empty()
    } else if is_filler(text.last()) {
        squeezed(text.drop_last())
    } else {
        squeezed(text.drop_last()).push(text.last())
    }
}

/// The six bits that a letter of base 64 stands for.
pub open spec fn sextet(b: u8) -> Option<int> {
    if 0x41 <= b <= 0x5a {
        Some(b - 0x41)
    } else if 0x61 <= b <= 0x7a {
        Some(b - 0x61 + 26)
    } else if 0x30 <= b <= 0x39 {
        Some(b - 0x30 + 52)
    } else if b == PLUS {
        Some(62)
    } else if b == SLASH {
        Some(63)
    } else {
        None
    }
}

/// How many signs at the end fill the last group up.
pub open spec fn padding(letters: Seq<u8>) -> int {
    let n = letters.len();
    if n < 2 || letters[n - 1] != EQUALS {
        0
    } else if letters[n - 2] != EQUALS {
        1
    } else {
        2
    }
}

/// Whether letters are base 64: groups of four, of which the last may be filled up, where no bit
/// is set that belongs to no byte.
pub open spec fn is_base64(letters: Seq<u8>) -> bool {
    let n = letters.len();
    let pad = padding(letters);
    &&& n % 4 == 0
    &&& forall|k: int| 0 <= k < n - pad ==> sextet(#[trigger] letters[k]) is Some
    &&& pad == 1 ==> sextet(letters[n - 2])->0 % 4 == 0
    &&& pad == 2 ==> sextet(letters[n - 3])->0 % 16 == 0
}

/// Finds the six bits that a letter of base 64 stands for.
fn read_sextet(b: u8) -> (r: Option<u8>)
    ensures
        match r {
            Some(bits) => sextet(b) == Some(bits as int),
            None => sextet(b) is None,
        },
{
    if 0x41 <= b && b <= 0x5a {
        Some(b - 0x41)
    } else if 0x61 <= b && b <= 0x7a {
        Some(b - 0x61 + 26)
    } else if 0x30 <= b && b <= 0x39 {
        Some(b - 0x30 + 52)
    } else if b == PLUS {
        Some(62)
    } else if b == SLASH {
        Some(63)
    } else {
        None
    }
}

/// Tells whether a text is data in base 64, white space left aside.
pub(crate) fn spells_data(text: &[u8]) -> (r: bool)
    ensures
        r == is_base64(squeezed(text@)),
{
    let mut letters: Vec<u8> = Vec::new();
    let mut i: usize = 0;
    assert(text@.take(0) =~= Seq::empty());
    while i < text.len()
        invariant
            i <= text@.len(),
            letters@ == squeezed(text@.take(i as int)),
        decreases text@.len() - i,
    {
        let b: u8 = text[i];
        assert(text@.take(i + 1).drop_last() =~= text@.take(i as int));
        if !(b == 0x20 || b == 0x09 || b == 0x0a || b == 0x0c || b == 0x0d) {
            letters.push(b);
        }
        i = i + 1;
    }
    assert(text@.take(i as int) =~= text@);
    let n: usize = letters.len();
    if n % 4 != 0 {
        return false;
    }
    let pad: usize = if n < 2 || letters[n - 1] != EQUALS {
        0
    } else if letters[n - 2] != EQUALS {
        1
    } else {
        2
    };
    let mut last: u8 = 0;
    let mut k: usize = 0;
    while k < n - pad
        invariant
            n == letters@.len(),
            letters@ == squeezed(text@),
            pad == padding(letters@),
            pad <= n,
            k <= n - pad,
            forall|j: int| 0 <= j < k ==> sextet(#[trigger] letters@[j]) is Some,
            k > 0 ==> sextet(letters@[k - 1]) == Some(last as int),
        decreases n - k,
    {
        match read_sextet(letters[k]) {
            Some(bits) => {
                last = bits;
            },
            None => {
                assert(sextet(letters@[k as int]) is None);
                return false;
            },
        }
        k = k + 1;
    }
    (pad != 1 || last % 4 == 0) && (pad != 2 || last % 16 == 0)
}

/// The number that `n` digits at `i` spell.
pub open spec fn field(text: Seq<u8>, i: int, n: int) -> Option<int> {
    if i + n <= text.len() {
        number(text.subrange(i, i + n), 10, 9999)
    } else {
        None
    }
}

/// The minutes that two digits, a colon and two digits at `i` spell as a time of day.
pub open spec fn clock(text: Seq<u8>, i: int) -> Option<int> {
    match (field(text, i, 2), field(text, i + 3, 2)) {
        (Some(hours), Some(minutes)) => if hours <= 23 && text[i + 2] == COLON && minutes <= 59 {
            Some(hours * 60 + minutes)
        } else {
            None
        },
        _ => None,
    }
}

/// Where the offset of a date with seconds begins: behind the seconds and their fraction.
pub open spec fn offset_start(text: Seq<u8>) -> Option<int> {
    if text.len() > 19 && text[19] == POINT {
        let end = digits_end(text, 20);
        if end > 20 {
            Some(end)
        } else {
            None
        }
    } else {
        Some(19)
    }
}

/// The minutes that the rest of a date from `i` on spells as an offset to the east.
pub open spec fn offset(text: Seq<u8>, i: int) -> Option<int> {
    if text.len() == i + 1 && (text[i] == 0x5a || text[i] == 0x7a) {
        Some(0)
    } else if text.len() == i + 6 && has_sign(text, i) {
        match clock(text, i + 1) {
            Some(minutes) => Some(
                if text[i] == MINUS {
                    -minutes
                } else {
                    minutes
                },
            ),
            None => None,
        }
    } else {
        None
    }
}

/// How many days a month has.
pub open spec fn month_len(year: int, month: int) -> int {
    if month == 2 {
        if year % 4 == 0 && (year % 100 != 0 || year % 400 == 0) {
            29
        } else {
            28
        }
    } else if month == 4 || month == 6 || month == 9 || month == 11 {
        30
    } else {
        31
    }
}

/// What the text of a date is to the reader of property lists.
#[derive(Debug, Clone, Copy, PartialEq, Eq, Structural)]
pub enum DateText {
    /// A date.
    Date,
    /// A date that lies in the year 10000 once its offset is taken off.
    Far,
    /// No date.
    Fault,
}

/// The kind of a date by its fields: the local time and the offset to the east are in minutes. A
/// leap second can only be the last second of a month once the offset is taken off.
pub open spec fn dated(
    year: int,
    month: int,
    day: int,
    local: int,
    second: int,
    east: int,
) -> DateText {
    let minute = local - east;
    let last_day = month_len(year, month);
    if !(1 <= month <= 12 && 1 <= day <= last_day && second <= 60) {
        DateText::Fault
    } else if second == 60 {
        if (minute == -1 && day == 1) || (minute == 24 * 60 - 1 && day == last_day) {
            DateText::Date
        } else {
            DateText::Fault
        }
    } else if year == 9999 && month == 12 && day == 31 && minute >= 24 * 60 {
        DateText::Far
    } else {
        DateText::Date
    }
}

/// The kind of the text of a date: year, month and day, any one byte, hours, minutes and seconds,
/// a fraction or none, and an offset.
pub open spec fn date_text(text: Seq<u8>) -> DateText {
    match (field(text, 0, 4), field(text, 5, 2), field(text, 8, 2), clock(text, 11)) {
        (Some(year), Some(month), Some(day), Some(local)) => match (
            field(text, 17, 2),
            offset_start(text),
        ) {
            (Some(second), Some(at)) => match offset(text, at) {
                Some(east) => if text[4] == MINUS && text[7] == MINUS && text[16] == COLON {
                    dated(year, month, day, local, second, east)
                } else {
                    DateText::Fault
                },
                None => DateText::Fault,
            },
            _ => DateText::Fault,
        },
        _ => DateText::Fault,
    }
}

/// Reads the number that `n` digits at `i` spell.
fn read_field(text: &[u8], i: usize, n: usize) -> (r: Option<u64>)
    ensures
        match r {
            Some(value) => field(text@, i as int, n as int) == Some(value as int) && value <= 9999,
            None => field(text@, i as int, n as int) is None,
        },
{
    let len: usize = text.len();
    if n > len || i > len - n {
        return None;
    }
    read_number(slice_subrange(text, i, i + n), 10, 9999)
}

/// Reads the minutes that two digits, a colon and two digits at `i` spell as a time of day.
fn read_clock(text: &[u8], i: usize) -> (r: Option<u64>)
    ensures
        match r {
            Some(n) => clock(text@, i as int) == Some(n as int) && n < 24 * 60,
            None => clock(text@, i as int) is None,
        },
{
    let len: usize = text.len();
    if len < 5 || i > len - 5 {
        return None;
    }
    match (read_field(text, i, 2), read_field(text, i + 3, 2)) {
        (Some(hours), Some(minutes)) => if hours <= 23 && text[i + 2] == COLON && minutes <= 59 {
            Some(hours * 60 + minutes)
        } else {
            None
        },
        _ => None,
    }
}

/// Finds where the offset of a date with seconds begins.
fn find_offset_start(text: &[u8]) -> (r: Option<usize>)
    ensures
        match r {
            Some(at) => offset_start(text@) == Some(at as int) && (at == 19 || at <= text@.len()),
            None => offset_start(text@) is None,
        },
{
    if text.len() > 19 && text[19] == POINT {
        let end: usize = find_digits_end(text, 20);
        if end > 20 {
            Some(end)
        } else {
            None
        }
    } else {
        Some(19)
    }
}

/// Reads the minutes that the rest of a date from `i` on spells as an offset to the east.
fn read_offset(text: &[u8], i: usize) -> (r: Option<i64>)
    ensures
        match r {
            Some(n) => offset(text@, i as int) == Some(n as int) && -24 * 60 < n < 24 * 60,
            None => offset(text@, i as int) is None,
        },
{
    let len: usize = text.len();
    if i >= len {
        return None;
    }
    let first: u8 = text[i];
    if len - i == 1 && (first == 0x5a || first == 0x7a) {
        Some(0)
    } else if len - i == 6 && (first == PLUS || first == MINUS) {
        match read_clock(text, i + 1) {
            Some(minutes) => Some(
                if first == MINUS {
                    -(minutes as i64)
                } else {
                    minutes as i64
                },
            ),
            None => None,
        }
    } else {
        None
    }
}

/// Tells how many days a month has.
fn find_month_len(year: u64, month: u64) -> (r: u64)
    ensures
        r == month_len(year as int, month as int),
{
    if month == 2 {
        if year % 4 == 0 && (year % 100 != 0 || year % 400 == 0) {
            29
        } else {
            28
        }
    } else if month == 4 || month == 6 || month == 9 || month == 11 {
        30
    } else {
        31
    }
}

/// Tells the kind of the text of a date.
pub(crate) fn read_date(text: &[u8]) -> (r: DateText)
    ensures
        r == date_text(text@),
{
    match (
        read_field(text, 0, 4),
        read_field(text, 5, 2),
        read_field(text, 8, 2),
        read_clock(text, 11),
    ) {
        (Some(year), Some(month), Some(day), Some(local)) => match (
            read_field(text, 17, 2),
            find_offset_start(text),
        ) {
            (Some(second), Some(at)) => match read_offset(text, at) {
                Some(east) => {
                    if text[4] != MINUS || text[7] != MINUS || text[16] != COLON {
                        return DateText::Fault;
                    }
                    let minute: i64 = local as i64 - east;
                    let last_day: u64 = find_month_len(year, month);
                    if month < 1 || month > 12 || day < 1 || day > last_day || second > 60 {
                        DateText::Fault
                    } else if second == 60 {
                        if (minute == -1 && day == 1) || (minute == 24 * 60 - 1 && day
                            == last_day) {
                            DateText::Date
                        } else {
                            DateText::Fault
                        }
                    } else if year == 9999 && month == 12 && day == 31 && minute >= 24 * 60 {
                        DateText::Far
                    } else {
                        DateText::Date
                    }
                },
                None => DateText::Fault,
            },
            _ => DateText::Fault,
        },
        _ => DateText::Fault,
    }
}

} // verus!
