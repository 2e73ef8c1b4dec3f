//! Text as a sequence of characters: comparing, searching, trimming, and
//! reading decimal numbers.

use vstd::prelude::*;

verus! {

/// The characters of `text`, in order.
pub fn chars_of(text: &str) -> (out: Vec<char>)
    ensures
        out@ == text@,
{
    let mut out: Vec<char> = Vec::new();
    for c in it: text.chars()
        invariant
            it.seq() == text@,
            out@ == it.seq().take(it.index()),
    {
        out.push(c);
    }
    out
}

/// Whether `word` stands in `chars` at place `at`.
pub open spec fn stands_at(chars: Seq<char>, at: int, word: Seq<char>) -> bool {
    &&& 0 <= at
    &&& at + word.len() <= chars.len()
    &&& chars.subrange(at, at + word.len()) == word
}

/// Whether `word` stands in `chars` at place `at`.
pub fn word_at(chars: &Vec<char>, at: usize, word: &Vec<char>) -> (out: bool)
    ensures
        out == stands_at(chars@, at as int, word@),
{
    if at > chars.len() || word.len() > chars.len() - at {
        return false;
    }
    let mut i: usize = 0;
    while i < word.len()
        invariant
            i <= word.len(),
            at + word.len() <= chars.len(),
            forall|k: int| 0 <= k < i ==> chars[at + k] == word[k],
        decreases word.len() - i,
    {
        if chars[at + i] != word[i] {
            assert(chars@.subrange(at as int, at + word.len())[i as int] != word[i as int]);
            return false;
        }
        i += 1;
    }
    assert(chars@.subrange(at as int, at + word.len()) =~= word@);
    true
}

/// Whether two strings hold the same characters.
pub fn str_equal(a: &str, b: &str) -> (same: bool)
    ensures
        same == (a@ == b@),
{
    let left = chars_of(a);
    let right = chars_of(b);
    if left.len() != right.len() {
        return false;
    }
    let same = word_at(&left, 0, &right);
    assert(left@.subrange(0, left.len() as int) =~= left@);
    same
}

/// Whether `i` is the first place of `c` in `chars`.
pub open spec fn is_first_at(chars: Seq<char>, c: char, i: int) -> bool {
    &&& 0 <= i < chars.len()
    &&& chars[i] == c
    &&& forall|k: int| 0 <= k < i ==> chars[k] != c
}

/// The first place of `c` in `chars`, if `c` occurs there.
pub open spec fn first_place(chars: Seq<char>, c: char) -> Option<int> {
    if exists|i: int| is_first_at(chars, c, i) {
        Some(choose|i: int| is_first_at(chars, c, i))
    } else {
        None
    }
}

/// A character has one first place at most.
pub proof fn lemma_first_place(chars: Seq<char>, c: char, i: int)
    requires
        is_first_at(chars, c, i),
    ensures
        first_place(chars, c) == Some(i),
{
    let j = choose|j: int| is_first_at(chars, c, j);
    assert(is_first_at(chars, c, j));
    if j < i {
        assert(chars[j] != c);
    }
    if i < j {
        assert(chars[i] != c);
    }
}

/// A character that occurs nowhere has no first place.
pub proof fn lemma_no_place(chars: Seq<char>, c: char)
    requires
        forall|k: int| 0 <= k < chars.len() ==> chars[k] != c,
    ensures
        first_place(chars, c) is None,
{
}

/// Finds the first place of `c` in `chars[from..]`, counted from `from`.
pub(crate) fn find_char(chars: &Vec<char>, from: usize, c: char) -> (out: Option<usize>)
    requires
        from <= chars.len(),
    ensures
        match out {
            Some(i) => first_place(chars@.skip(from as int), c) == Some(i as int) && from + i
                < chars.len(),
            None => first_place(chars@.skip(from as int), c) is None,
        },
{
    let ghost rest = chars@.skip(from as int);
    let mut i: usize = from;
    while i < chars.len()
        invariant
            from <= i <= chars.len(),
            rest == chars@.skip(from as int),
            forall|k: int| 0 <= k < i - from ==> rest[k] != c,
        decreases chars.len() - i,
    {
        if chars[i] == c {
            proof {
                lemma_first_place(rest, c, i - from);
            }
            return Some(i - from);
        }
        i += 1;
    }
    proof {
        lemma_no_place(rest, c);
    }
    None
}

/// Whether `c` is white space: one of the characters that Unicode marks as
/// `White_Space`.
pub open spec fn is_space(c: char) -> bool {
    let n = c as u32;
    ||| 0x09 <= n <= 0x0d
    ||| n == 0x20
    ||| n == 0x85
    ||| n == 0xa0
    ||| n == 0x1680
    ||| 0x2000 <= n <= 0x200a
    ||| n == 0x2028
    ||| n == 0x2029
    ||| n == 0x202f
    ||| n == 0x205f
    ||| n == 0x3000
}

/// Whether `c` is white space.
pub fn char_is_space(c: char) -> (out: bool)
    ensures
        out == is_space(c),
{
    let n: u32 = c as u32;
    (0x09 <= n && n <= 0x0d) || n == 0x20 || n == 0x85 || n == 0xa0 || n == 0x1680 || (0x2000 <= n
        && n <= 0x200a) || n == 0x2028 || n == 0x2029 || n == 0x202f || n == 0x205f || n == 0x3000
}

/// How many characters of white space `chars` starts with.
pub open spec fn leading_space(chars: Seq<char>) -> nat
    decreases chars.len(),
{
    if chars.len() > 0 && is_space(chars[0]) {
        1 + leading_space(chars.drop_first())
    } else {
        0
    }
}

/// How many characters of white space `chars` ends with.
pub open spec fn trailing_space(chars: Seq<char>) -> nat
    decreases chars.len(),
{
    if chars.len() > 0 && is_space(chars.last()) {
        1 + trailing_space(chars.drop_last())
    } else {
        0
    }
}

/// `chars` without the white space at its start and at its end.
pub open spec fn trimmed(chars: Seq<char>) -> Seq<char> {
    let rest = chars.skip(leading_space(chars) as int);
    rest.take(rest.len() - trailing_space(rest))
}

/// The bounds of `chars[from..to]` without the white space around it.
pub(crate) fn trim_bounds(chars: &Vec<char>, from: usize, to: usize) -> (out: (usize, usize))
    requires
        from <= to <= chars.len(),
    ensures
        from <= out.0 <= out.1 <= to,
        chars@.subrange(out.0 as int, out.1 as int) == trimmed(chars@.subrange(from as int, to as int)),
{
    let ghost part = chars@.subrange(from as int, to as int);
    let mut start: usize = from;
    assert(part.skip(0) =~= part);
    while start < to && char_is_space(chars[start])
        invariant
            from <= start <= to <= chars.len(),
            part == chars@.subrange(from as int, to as int),
            leading_space(part) == (start - from) + leading_space(part.skip(start - from)),
        decreases to - start,
    {
        proof {
            let rest = part.skip(start - from);
            assert(rest[0] == chars[start as int]);
            assert(rest.drop_first() =~= part.skip(start - from + 1));
        }
        start += 1;
    }
    proof {
        let rest = part.skip(start - from);
        if start < to {
            assert(rest[0] == chars[start as int]);
        }
        assert(leading_space(rest) == 0);
    }
    let ghost rest = part.skip(start - from);
    let mut end: usize = to;
    assert(rest.take(to - start) =~= rest);
    while start < end && char_is_space(chars[end - 1])
        invariant
            from <= start <= end <= to <= chars.len(),
            part == chars@.subrange(from as int, to as int),
            rest == part.skip(start - from),
            trailing_space(rest) == (to - end) + trailing_space(rest.take(end - start)),
        decreases end - start,
    {
        proof {
            let head = rest.take(end - start);
            assert(head.last() == chars[end - 1]);
            assert(head.drop_last() =~= rest.take(end - start - 1));
        }
        end -= 1;
    }
    proof {
        let head = rest.take(end - start);
        if start < end {
            assert(head.last() == chars[end - 1]);
        }
        assert(trailing_space(head) == 0);
        assert(chars@.subrange(start as int, end as int) =~= rest.take(rest.len() - (to - end)));
    }
    (start, end)
}

/// Whether `c` is one of the ten decimal digits.
pub open spec fn is_digit(c: char) -> bool {
    '0' <= c <= '9'
}

/// The number that a decimal digit stands for.
pub open spec fn digit_value(c: char) -> nat {
    (c as u32 - '0' as u32) as nat
}

/// Whether `chars` holds decimal digits only.
pub open spec fn all_digits(chars: Seq<char>) -> bool {
    forall|i: int| 0 <= i < chars.len() ==> is_digit(#[trigger] chars[i])
}

/// The number that a sequence of decimal digits stands for.
pub open spec fn decimal_value(digits: Seq<char>) -> nat
    decreases digits.len(),
{
    if digits.len() == 0 {
        0
    } else {
        decimal_value(digits.drop_last()) * 10 + digit_value(digits.last())
    }
}

/// Digits put behind a number do not make it smaller.
pub proof fn lemma_decimal_prefix(digits: Seq<char>, n: int)
    requires
        0 <= n <= digits.len(),
    ensures
        decimal_value(digits.take(n)) <= decimal_value(digits),
    decreases digits.len() - n,
{
    if n == digits.len() {
        assert(digits.take(n) =~= digits);
    } else {
        lemma_decimal_prefix(digits.drop_last(), n);
        assert(digits.drop_last().take(n) =~= digits.take(n));
    }
}

/// Whether `c` is a decimal digit.
pub fn char_is_digit(c: char) -> (out: bool)
    ensures
        out == is_digit(c),
{
    '0' <= c && c <= '9'
}

/// Reads the decimal number that the digits `chars[from..to]` stand for.
/// `None` where the number does not fit in 32 bits.
pub(crate) fn read_decimal(chars: &Vec<char>, from: usize, to: usize) -> (out: Option<u32>)
    requires
        from <= to <= chars.len(),
        all_digits(chars@.subrange(from as int, to as int)),
    ensures
        out == (if decimal_value(chars@.subrange(from as int, to as int)) <= u32::MAX {
            Some(decimal_value(chars@.subrange(from as int, to as int)) as u32)
        } else {
            None
        }),
{
    let ghost digits = chars@.subrange(from as int, to as int);
    let mut value: u64 = 0;
    let mut i: usize = from;
    while i < to
        invariant
            from <= i <= to <= chars.len(),
            digits == chars@.subrange(from as int, to as int),
            all_digits(digits),
            value == decimal_value(digits.take(i - from)),
            value <= u32::MAX,
        decreases to - i,
    {
        let c = chars[i];
        proof {
            assert(digits[i - from] == c);
            assert(is_digit(c));
            let next = digits.take(i - from + 1);
            assert(next.drop_last() =~= digits.take(i - from));
            assert(next.last() == c);
            lemma_decimal_prefix(digits, i - from + 1);
        }
        let digit: u64 = (c as u32 - '0' as u32) as u64;
        value = value * 10 + digit;
        if value > 0xffff_ffff {
            return None;
        }
        i += 1;
    }
    assert(digits.take(to - from) =~= digits);
    Some(value as u32)
}

/// The number that `chars` stands for as an unsigned decimal: decimal digits,
/// at least one, with or without a `+` before them, and nothing else. `None`
/// where `chars` is no such number or the number does not fit in 32 bits.
pub open spec fn unsigned_of(chars: Seq<char>) -> Option<u32> {
    let digits = if chars.len() > 0 && chars[0] == '+' {
        chars.drop_first()
    } else {
        chars
    };
    if digits.len() > 0 && all_digits(digits) && decimal_value(digits) <= u32::MAX {
        Some(decimal_value(digits) as u32)
    } else {
        None
    }
}

/// Reads `chars[from..to]` as an unsigned decimal.
pub(crate) fn read_unsigned(chars: &Vec<char>, from: usize, to: usize) -> (out: Option<u32>)
    requires
        from <= to <= chars.len(),
    ensures
        out == unsigned_of(chars@.subrange(from as int, to as int)),
{
    let ghost part = chars@.subrange(from as int, to as int);
    let start: usize = if from < to && chars[from] == '+' {
        from + 1
    } else {
        from
    };
    let ghost digits = chars@.subrange(start as int, to as int);
    proof {
        if from < to {
            assert(part[0] == chars[from as int]);
        }
        if start == from {
            assert(digits =~= part);
        } else {
            assert(digits =~= part.drop_first());
        }
    }
    if start == to {
        return None;
    }
    let mut i: usize = start;
    while i < to
        invariant
            start <= i <= to <= chars.len(),
            digits == chars@.subrange(start as int, to as int),
            part == chars@.subrange(from as int, to as int),
            digits == (if part.len() > 0 && part[0] == '+' {
                part.drop_first()
            } else {
                part
            }),
            forall|k: int| 0 <= k < i - start ==> is_digit(#[trigger] digits[k]),
        decreases to - i,
    {
        if !char_is_digit(chars[i]) {
            assert(digits[i - start] == chars[i as int]);
            assert(!is_digit(digits[i - start]));
            return None;
        }
        i += 1;
    }
    read_decimal(chars, start, to)
}

/// Reads `text` as an unsigned decimal.
pub fn parse_unsigned(text: &str) -> (out: Option<u32>)
    ensures
        out == unsigned_of(text@),
{
    let chars = chars_of(text);
    assert(chars@.subrange(0, chars.len() as int) =~= chars@);
    read_unsigned(&chars, 0, chars.len())
}

/// The digit that stands for a number below ten.
pub open spec fn digit_char(d: nat) -> char {
    if d == 0 {
        '0'
    } else if d == 1 {
        '1'
    } else if d == 2 {
        '2'
    } else if d == 3 {
        '3'
    } else if d == 4 {
        '4'
    } else if d == 5 {
        '5'
    } else if d == 6 {
        '6'
    } else if d == 7 {
        '7'
    } else if d == 8 {
        '8'
    } else {
        '9'
    }
}

/// A number written in decimal digits, without zeros before it.
pub open spec fn digits_of(n: nat) -> Seq<char>
    decreases n,
{
    if n < 10 {
        seq![digit_char(n)]
    } else {
        digits_of(n / 10).push(digit_char(n % 10))
    }
}

/// A number written in digits is digits, at least one, and they stand for
/// the number.
pub proof fn lemma_digits_of(n: nat)
    ensures
        digits_of(n).len() >= 1,
        all_digits(digits_of(n)),
        decimal_value(digits_of(n)) == n,
    decreases n,
{
    if n < 10 {
        let one = seq![digit_char(n)];
        assert(one.drop_last() =~= Seq::<char>::empty());
        assert(decimal_value(one.drop_last()) == 0);
        assert(digit_value(digit_char(n)) == n);
    } else {
        lemma_digits_of(n / 10);
        let front = digits_of(n / 10);
        let all = front.push(digit_char(n % 10));
        assert(all.drop_last() =~= front);
        assert(digit_value(digit_char(n % 10)) == n % 10);
        assert forall|i: int| 0 <= i < all.len() implies is_digit(#[trigger] all[i]) by {
            if i < front.len() {
                assert(all[i] == front[i]);
            }
        }
    }
}

/// Digits have no white space around them, so trimming leaves them as they
/// are.
pub proof fn lemma_digits_trimmed(digits: Seq<char>)
    requires
        all_digits(digits),
    ensures
        trimmed(digits) == digits,
{
    if digits.len() > 0 {
        assert(is_digit(digits[0]));
        assert(is_digit(digits[digits.len() - 1]));
        assert(digits.skip(0) =~= digits);
    }
    assert(leading_space(digits) == 0);
    assert(trailing_space(digits) == 0);
    assert(digits.skip(0).take(digits.len() as int) =~= digits);
}

/// A number of 32 bits, written in digits, is read back as itself.
pub proof fn lemma_unsigned_round_trip(n: u32)
    ensures
        unsigned_of(digits_of(n as nat)) == Some(n),
{
    lemma_digits_of(n as nat);
    assert(is_digit(digits_of(n as nat)[0]));
}

} // verus!
