//! Text as sequences of characters: numerals, trimming, searching and ordering.

use vstd::prelude::*;

verus! {

/// The characters of `text`.
pub fn chars_of(text: &str) -> (r: Vec<char>)
    ensures
        r@ == text@,
{
    let mut out: Vec<char> = Vec::new();
    for c in it: text.chars()
        invariant
            out@ == it.seq().take(it.index() as int),
            it.seq() == text@,
    {
        out.push(c);
        assert(it.seq().take(it.index() + 1) =~= it.seq().take(it.index() as int).push(c));
    }
    assert(text@.take(text@.len() as int) =~= text@);
    out
}

/// The decimal digit character of `d`.
pub open spec fn digit_char(d: nat) -> char {
    (('0' as nat) + d) as char
}

/// `n` in decimal, without leading zeros.
pub open spec fn numeral(n: nat) -> Seq<char>
    decreases n,
{
    if n < 10 {
        seq![digit_char(n)]
    } else {
        numeral(n / 10).push(digit_char(n % 10))
    }
}

/// `n` in decimal, a minus sign in front where it is negative.
pub open spec fn signed_numeral(n: int) -> Seq<char> {
    if n < 0 {
        seq!['-'] + numeral((-n) as nat)
    } else {
        numeral(n as nat)
    }
}

fn digit_text(d: u8) -> (r: &'static str)
    requires
        d < 10,
    ensures
        r@ == seq![digit_char(d as nat)],
{
    proof {
        reveal_strlit("0");
        reveal_strlit("1");
        reveal_strlit("2");
        reveal_strlit("3");
        reveal_strlit("4");
        reveal_strlit("5");
        reveal_strlit("6");
        reveal_strlit("7");
        reveal_strlit("8");
        reveal_strlit("9");
    }
    match d {
        0 => "0",
        1 => "1",
        2 => "2",
        3 => "3",
        4 => "4",
        5 => "5",
        6 => "6",
        7 => "7",
        8 => "8",
        _ => "9",
    }
}

/// Writes `n` in decimal.
pub fn decimal(n: u64) -> (r: String)
    ensures
        r@ == numeral(n as nat),
    decreases n,
{
    if n < 10 {
        digit_text(n as u8).to_owned()
    } else {
        let mut out: String = decimal(n / 10);
        out.append(digit_text((n % 10) as u8));
        out
    }
}

/// Writes `n` in decimal, with a minus sign where it is negative.
pub fn signed_decimal(n: i64) -> (r: String)
    ensures
        r@ == signed_numeral(n as int),
{
    if n < 0 {
        let mut out: String = "-".to_owned();
        proof {
            reveal_strlit("-");
        }
        let size: u64 = if n == i64::MIN {
            0x8000_0000_0000_0000
        } else {
            (-n) as u64
        };
        out.append(decimal(size).as_str());
        out
    } else {
        decimal(n as u64)
    }
}

/// A decimal digit.
pub open spec fn is_digit(c: char) -> bool {
    '0' <= c <= '9'
}

/// The number that a run of decimal digits stands for.
pub open spec fn digits_value(s: Seq<char>) -> nat
    decreases s.len(),
{
    if s.len() == 0 {
        0
    } else {
        digits_value(s.drop_last()) * 10 + ((s.last() as nat) - ('0' as nat)) as nat
    }
}

/// The digits of an unsigned numeral: what is left behind an optional plus sign.
pub open spec fn unsigned_digits(s: Seq<char>) -> Seq<char> {
    if s.len() > 0 && s[0] == '+' {
        s.skip(1)
    } else {
        s
    }
}

/// The number that `s` spells, where it is an optional plus sign followed by one digit or more
/// and the number does not pass `max`.
pub open spec fn unsigned_value(s: Seq<char>, max: nat) -> Option<nat> {
    let digits = unsigned_digits(s);
    if digits.len() > 0 && (forall|i: int| 0 <= i < digits.len() ==> is_digit(#[trigger] digits[i]))
        && digits_value(digits) <= max {
        Some(digits_value(digits))
    } else {
        None
    }
}

/// More digits do not make a number smaller.
proof fn lemma_digits_value_prefix(s: Seq<char>, i: int)
    requires
        0 <= i <= s.len(),
    ensures
        digits_value(s.take(i)) <= digits_value(s),
    decreases s.len() - i,
{
    if i == s.len() {
        assert(s.take(i) =~= s);
    } else {
        lemma_digits_value_prefix(s, i + 1);
        assert(s.take(i + 1).drop_last() =~= s.take(i));
    }
}

/// Reads an unsigned number that does not pass `max`.
pub fn parse_unsigned(text: &str, max: u64) -> (r: Option<u64>)
    ensures
        r is Some <==> unsigned_value(text@, max as nat) is Some,
        r matches Some(n) ==> unsigned_value(text@, max as nat) == Some(n as nat),
{
    let chars: Vec<char> = chars_of(text);
    let start: usize = if chars.len() > 0 && chars[0] == '+' {
        1
    } else {
        0
    };
    let ghost digits = unsigned_digits(text@);
    assert(digits =~= chars@.skip(start as int));
    if chars.len() == start {
        return None;
    }
    let mut value: u64 = 0;
    let mut i: usize = start;
    assert(digits.take(0) =~= Seq::empty());
    while i < chars.len()
        invariant
            chars@ == text@,
            start <= i <= chars.len(),
            digits == unsigned_digits(text@),
            digits =~= chars@.skip(start as int),
            value == digits_value(digits.take(i - start)),
            value <= max,
            forall|j: int| 0 <= j < i - start ==> is_digit(#[trigger] digits[j]),
        decreases chars.len() - i,
    {
        let c: char = chars[i];
        assert(digits[i - start] == c);
        if !('0' <= c && c <= '9') {
            return None;
        }
        let d: u64 = (c as u32 - '0' as u32) as u64;
        proof {
            assert(digits.take(i - start + 1).drop_last() =~= digits.take(i - start));
            assert(digits.take(i - start + 1).last() == c);
            lemma_digits_value_prefix(digits, i - start + 1);
        }
        if value > u64::MAX / 10 || value * 10 > u64::MAX - d || value * 10 + d > max {
            return None;
        }
        value = value * 10 + d;
        i = i + 1;
    }
    assert(digits.take(digits.len() as int) =~= digits);
    Some(value)
}

/// Whether the character of this code is white space.
pub open spec fn space_code(n: u32) -> bool {
    ||| 0x09 <= n <= 0x0d
    ||| n == 0x20
    ||| n == 0x85
    ||| n == 0xa0
    ||| n == 0x1680
    ||| 0x2000 <= n <= 0x200a
    ||| n == 0x2028
    ||| n == 0x2029
    ||| n == 0x202f
    ||| n == 0x205f
    ||| n == 0x3000
}

/// Whether `c` is white space.
pub open spec fn is_space(c: char) -> bool {
    space_code(c as u32)
}

/// Tells whether the character of this code is white space.
pub fn is_space_code(n: u32) -> (r: bool)
    ensures
        r == space_code(n),
{
    (0x09 <= n && n <= 0x0d) || n == 0x20 || n == 0x85 || n == 0xa0 || n == 0x1680 || (0x2000 <= n
        && n <= 0x200a) || n == 0x2028 || n == 0x2029 || n == 0x202f || n == 0x205f || n == 0x3000
}

/// Tells whether `c` is white space.
pub fn is_white_space(c: char) -> (r: bool)
    ensures
        r == is_space(c),
{
    is_space_code(c as u32)
}

/// `s` without its leading white space.
pub open spec fn trimmed_start(s: Seq<char>) -> Seq<char>
    decreases s.len(),
{
    if s.len() > 0 && is_space(s[0]) {
        trimmed_start(s.skip(1))
    } else {
        s
    }
}

/// `s` without its trailing white space.
pub open spec fn trimmed_end(s: Seq<char>) -> Seq<char>
    decreases s.len(),
{
    if s.len() > 0 && is_space(s.last()) {
        trimmed_end(s.drop_last())
    } else {
        s
    }
}

/// `s` without the white space around it.
pub open spec fn trimmed(s: Seq<char>) -> Seq<char> {
    trimmed_end(trimmed_start(s))
}

/// `text` without the white space around it.
pub fn trim(text: &str) -> (r: &str)
    ensures
        r@ == trimmed(text@),
{
    let chars: Vec<char> = chars_of(text);
    let mut from: usize = 0;
    assert(text@.skip(0) =~= text@);
    while from < chars.len() && is_white_space(chars[from])
        invariant
            chars@ == text@,
            from <= chars.len(),
            trimmed_start(text@.skip(from as int)) == trimmed_start(text@),
        decreases chars.len() - from,
    {
        assert(text@.skip(from as int).skip(1) =~= text@.skip(from + 1));
        from = from + 1;
    }
    let ghost body = text@.skip(from as int);
    assert(trimmed_start(text@) == body);
    let mut to: usize = chars.len();
    assert(text@.subrange(from as int, to as int) =~= body);
    while to > from && is_white_space(chars[to - 1])
        invariant
            chars@ == text@,
            from <= to <= chars.len(),
            trimmed_end(text@.subrange(from as int, to as int)) == trimmed_end(body),
        decreases to,
    {
        assert(text@.subrange(from as int, to as int).drop_last() =~= text@.subrange(
            from as int,
            to - 1,
        ));
        to = to - 1;
    }
    text.substring_char(from, to)
}

/// Whether the two texts hold the same characters.
pub fn same_text(a: &str, b: &str) -> (r: bool)
    ensures
        r == (a@ == b@),
{
    let left: Vec<char> = chars_of(a);
    let right: Vec<char> = chars_of(b);
    if left.len() != right.len() {
        return false;
    }
    let mut i: usize = 0;
    while i < left.len()
        invariant
            left@ == a@,
            right@ == b@,
            left.len() == right.len(),
            i <= left.len(),
            forall|j: int| 0 <= j < i ==> left@[j] == right@[j],
        decreases left.len() - i,
    {
        if left[i] != right[i] {
            return false;
        }
        i = i + 1;
    }
    assert(a@ =~= b@);
    true
}

/// Whether `text` begins with `c`.
pub fn begins_with(text: &str, c: char) -> (r: bool)
    ensures
        r == (text@.len() > 0 && text@[0] == c),
{
    text.unicode_len() > 0 && text.get_char(0) == c
}

/// Whether `a` comes before `b` in the order of code points.
pub open spec fn comes_before(a: Seq<char>, b: Seq<char>) -> bool
    decreases a.len(),
{
    if b.len() == 0 {
        false
    } else if a.len() == 0 {
        true
    } else if a[0] == b[0] {
        comes_before(a.skip(1), b.skip(1))
    } else {
        a[0] < b[0]
    }
}

/// Whether `a` comes before `b` in the order of code points.
pub fn is_before(a: &str, b: &str) -> (r: bool)
    ensures
        r == comes_before(a@, b@),
{
    let left: Vec<char> = chars_of(a);
    let right: Vec<char> = chars_of(b);
    let mut i: usize = 0;
    assert(a@.skip(0) =~= a@);
    assert(b@.skip(0) =~= b@);
    while i < left.len() && i < right.len() && left[i] == right[i]
        invariant
            left@ == a@,
            right@ == b@,
            i <= left.len(),
            i <= right.len(),
            comes_before(a@, b@) == comes_before(a@.skip(i as int), b@.skip(i as int)),
        decreases left.len() - i,
    {
        assert(a@.skip(i as int).skip(1) =~= a@.skip(i + 1));
        assert(b@.skip(i as int).skip(1) =~= b@.skip(i + 1));
        i = i + 1;
    }
    if i == right.len() {
        false
    } else if i == left.len() {
        true
    } else {
        left[i] < right[i]
    }
}

/// Where the line that holds the place `from` ends: at the next line feed or at the end.
pub open spec fn line_end(s: Seq<char>, from: int) -> int
    decreases s.len() - from,
{
    if from >= s.len() || s[from] == '\n' {
        from
    } else {
        line_end(s, from + 1)
    }
}

/// The lines of a text, parted by line feeds.
pub open spec fn lines(s: Seq<char>) -> Seq<Seq<char>>
    decreases s.len(),
{
    let end = line_end(s, 0);
    if 0 <= end < s.len() {
        seq![s.take(end)] + lines(s.skip(end + 1))
    } else {
        seq![s]
    }
}

/// Whether `part` stands in `s` at the place `i`.
pub open spec fn stands_at(s: Seq<char>, part: Seq<char>, i: int) -> bool {
    &&& 0 <= i <= s.len() - part.len()
    &&& s.subrange(i, i + part.len()) == part
}

/// Whether `part` stands in `s` somewhere.
pub open spec fn stands_in(s: Seq<char>, part: Seq<char>) -> bool {
    exists|i: int| #[trigger] stands_at(s, part, i)
}

/// The first of the lines that `part` stands in.
pub open spec fn first_line_with(lines: Seq<Seq<char>>, part: Seq<char>) -> Option<Seq<char>>
    decreases lines.len(),
{
    if lines.len() == 0 {
        None
    } else if stands_in(lines[0], part) {
        Some(lines[0])
    } else {
        first_line_with(lines.skip(1), part)
    }
}

/// The last place below `limit` where `part` stands in `s`.
pub open spec fn last_place(s: Seq<char>, part: Seq<char>, limit: nat) -> Option<nat>
    decreases limit,
{
    if limit == 0 {
        None
    } else if stands_at(s, part, limit - 1) {
        Some((limit - 1) as nat)
    } else {
        last_place(s, part, (limit - 1) as nat)
    }
}

/// What follows the last `part` in `s`; all of `s` where `part` does not stand in it.
pub open spec fn after_last(s: Seq<char>, part: Seq<char>) -> Seq<char> {
    match last_place(s, part, s.len() + 1) {
        Some(i) => s.skip((i + part.len()) as int),
        None => s,
    }
}

/// Whether `part` stands in `chars` at the place `i`.
fn has_part_at(chars: &Vec<char>, part: &Vec<char>, i: usize) -> (r: bool)
    ensures
        r == stands_at(chars@, part@, i as int),
{
    if part.len() > chars.len() || i > chars.len() - part.len() {
        return false;
    }
    let mut j: usize = 0;
    while j < part.len()
        invariant
            j <= part.len(),
            i + part.len() <= chars.len(),
            forall|k: int| 0 <= k < j ==> chars@[i + k] == part@[k],
        decreases part.len() - j,
    {
        if chars[i + j] != part[j] {
            assert(chars@.subrange(i as int, i + part@.len())[j as int] != part@[j as int]);
            return false;
        }
        j = j + 1;
    }
    assert(chars@.subrange(i as int, i + part@.len()) =~= part@);
    true
}

/// Whether `part` stands in `chars` somewhere.
fn has_part(chars: &Vec<char>, part: &Vec<char>) -> (r: bool)
    ensures
        r == stands_in(chars@, part@),
{
    let mut i: usize = 0;
    while i < chars.len()
        invariant
            i <= chars.len(),
            forall|k: int| k < i ==> !stands_at(chars@, part@, k),
        decreases chars.len() - i,
    {
        if has_part_at(chars, part, i) {
            return true;
        }
        i = i + 1;
    }
    has_part_at(chars, part, i)
}

/// The first line of `text` that `part` stands in.
pub fn find_line_with<'a>(text: &'a str, part: &str) -> (r: Option<&'a str>)
    ensures
        r is Some <==> first_line_with(lines(text@), part@) is Some,
        r matches Some(line) ==> first_line_with(lines(text@), part@) == Some(line@),
{
    let chars: Vec<char> = chars_of(text);
    let sought: Vec<char> = chars_of(part);
    let mut start: usize = 0;
    assert(text@.skip(0) =~= text@);
    loop
        invariant
            chars@ == text@,
            sought@ == part@,
            start <= chars.len(),
            first_line_with(lines(text@), part@) == first_line_with(
                lines(text@.skip(start as int)),
                part@,
            ),
        decreases chars.len() - start,
    {
        let ghost rest = text@.skip(start as int);
        let mut end: usize = start;
        while end < chars.len() && chars[end] != '\n'
            invariant
                chars@ == text@,
                start <= end <= chars.len(),
                rest == text@.skip(start as int),
                line_end(rest, 0) == line_end(rest, end - start),
            decreases chars.len() - end,
        {
            end = end + 1;
        }
        let line: &'a str = text.substring_char(start, end);
        let ghost all = lines(rest);
        assert(line@ =~= rest.take(end - start));
        assert(all[0] == line@) by {
            assert(rest.take(rest.len() as int) =~= rest);
        }
        let line_chars: Vec<char> = chars_of(line);
        if has_part(&line_chars, &sought) {
            return Some(line);
        }
        if end == chars.len() {
            assert(all.skip(1) =~= Seq::empty());
            assert(first_line_with(all.skip(1), part@) is None);
            return None;
        }
        assert(all.skip(1) =~= lines(rest.skip(end - start + 1)));
        assert(rest.skip(end - start + 1) =~= text@.skip(end + 1));
        start = end + 1;
    }
}

/// What follows the last `part` in `text`; all of `text` where `part` does not stand in it.
pub fn part_after_last<'a>(text: &'a str, part: &str) -> (r: &'a str)
    ensures
        r@ == after_last(text@, part@),
{
    let chars: Vec<char> = chars_of(text);
    let sought: Vec<char> = chars_of(part);
    let mut i: usize = chars.len();
    if has_part_at(&chars, &sought, i) {
        let rest: &'a str = text.substring_char(i, i);
        assert(rest@ =~= text@.skip(i + part@.len()));
        return rest;
    }
    while i > 0
        invariant
            chars@ == text@,
            sought@ == part@,
            i <= chars.len(),
            last_place(text@, part@, text@.len() + 1) == last_place(text@, part@, i as nat),
        decreases i,
    {
        i = i - 1;
        if has_part_at(&chars, &sought, i) {
            let rest: &'a str = text.substring_char(i + sought.len(), chars.len());
            assert(rest@ =~= text@.skip(i + part@.len()));
            return rest;
        }
    }
    text
}

/// A number reads back from its numeral, wherever it does not pass the limit.
pub proof fn law_numeral_reads_back(n: nat, max: nat)
    ensures
        unsigned_value(numeral(n), max) == (if n <= max {
            Some(n)
        } else {
            None
        }),
{
    lemma_numeral_digits(n);
    assert(is_digit(numeral(n)[0]));
}

/// A numeral is made of digits, which stand for its number.
pub proof fn lemma_numeral_digits(n: nat)
    ensures
        numeral(n).len() > 0,
        forall|i: int| 0 <= i < numeral(n).len() ==> is_digit(#[trigger] numeral(n)[i]),
        digits_value(numeral(n)) == n,
    decreases n,
{
    if n < 10 {
        assert(numeral(n).drop_last() =~= Seq::empty());
        assert(digits_value(Seq::empty()) == 0);
    } else {
        lemma_numeral_digits(n / 10);
        assert(numeral(n).drop_last() =~= numeral(n / 10));
        assert forall|i: int| 0 <= i < numeral(n).len() implies is_digit(
            #[trigger] numeral(n)[i],
        ) by {
            if i < numeral(n / 10).len() {
                assert(numeral(n)[i] == numeral(n / 10)[i]);
            }
        }
    }
}

/// The order of texts is strict and total: no text comes before itself, of two different texts
/// one comes before the other and not the other way round, and the order carries over from one
/// pair to the next.
pub proof fn law_text_order(a: Seq<char>, b: Seq<char>, c: Seq<char>)
    ensures
        !comes_before(a, a),
        a != b ==> comes_before(a, b) != comes_before(b, a),
        comes_before(a, b) && comes_before(b, c) ==> comes_before(a, c),
{
    lemma_order_irreflexive(a);
    if a != b {
        lemma_order_total(a, b);
    }
    if comes_before(a, b) && comes_before(b, c) {
        lemma_order_transitive(a, b, c);
    }
}

proof fn lemma_order_irreflexive(a: Seq<char>)
    ensures
        !comes_before(a, a),
    decreases a.len(),
{
    if a.len() > 0 {
        lemma_order_irreflexive(a.skip(1));
    }
}

proof fn lemma_order_total(a: Seq<char>, b: Seq<char>)
    requires
        a != b,
    ensures
        comes_before(a, b) != comes_before(b, a),
    decreases a.len(),
{
    if a.len() > 0 && b.len() > 0 {
        if a[0] == b[0] {
            if a.skip(1) == b.skip(1) {
                assert(a =~= seq![a[0]] + a.skip(1));
                assert(b =~= seq![b[0]] + b.skip(1));
            }
            lemma_order_total(a.skip(1), b.skip(1));
        }
    } else if a.len() == b.len() {
        assert(a =~= b);
    }
}

proof fn lemma_order_transitive(a: Seq<char>, b: Seq<char>, c: Seq<char>)
    requires
        comes_before(a, b),
        comes_before(b, c),
    ensures
        comes_before(a, c),
    decreases a.len(),
{
    if a.len() > 0 && a[0] == b[0] && b[0] == c[0] {
        lemma_order_transitive(a.skip(1), b.skip(1), c.skip(1));
    }
}

/// Trimming takes the white space around a text off, and nothing else.
pub proof fn law_trimming_takes_the_spaces(before: Seq<char>, body: Seq<char>, after: Seq<char>)
    requires
        forall|i: int| 0 <= i < before.len() ==> is_space(#[trigger] before[i]),
        forall|i: int| 0 <= i < after.len() ==> is_space(#[trigger] after[i]),
        body.len() > 0,
        !is_space(body[0]),
        !is_space(body.last()),
    ensures
        trimmed(before + body + after) == body,
{
    lemma_trimmed_start(before, body + after);
    assert(before + body + after =~= before + (body + after));
    lemma_trimmed_end(body, after);
}

proof fn lemma_trimmed_start(before: Seq<char>, body: Seq<char>)
    requires
        forall|i: int| 0 <= i < before.len() ==> is_space(#[trigger] before[i]),
        body.len() > 0,
        !is_space(body[0]),
    ensures
        trimmed_start(before + body) == body,
    decreases before.len(),
{
    if before.len() > 0 {
        let rest = before.skip(1);
        assert(is_space(before[0]));
        assert((before + body).skip(1) =~= rest + body);
        assert forall|i: int| 0 <= i < rest.len() implies is_space(#[trigger] rest[i]) by {
            assert(is_space(before[i + 1]));
        }
        lemma_trimmed_start(rest, body);
    } else {
        assert(before + body =~= body);
    }
}

proof fn lemma_trimmed_end(body: Seq<char>, after: Seq<char>)
    requires
        forall|i: int| 0 <= i < after.len() ==> is_space(#[trigger] after[i]),
        body.len() > 0,
        !is_space(body.last()),
    ensures
        trimmed_end(body + after) == body,
    decreases after.len(),
{
    if after.len() > 0 {
        let rest = after.drop_last();
        assert(is_space(after[after.len() - 1]));
        assert((body + after).drop_last() =~= body + rest);
        assert forall|i: int| 0 <= i < rest.len() implies is_space(#[trigger] rest[i]) by {
            assert(is_space(after[i]));
        }
        lemma_trimmed_end(body, rest);
    } else {
        assert(body + after =~= body);
    }
}

} // verus!
