//! Decimal numerals and column padding over character sequences.
use vstd::prelude::*;
use vstd::string::*;

verus! {

/// The character that writes the digit `d`.
pub open spec fn digit_char(d: nat) -> char {
    if d == 0 {
        '0'
    } else if d == 1 {
        '1'
    } else if d == 2 {
        '2'
    } else if d == 3 {
        '3'
    } else if d == 4 {
        '4'
    } else if d == 5 {
        '5'
    } else if d == 6 {
        '6'
    } else if d == 7 {
        '7'
    } else if d == 8 {
        '8'
    } else {
        '9'
    }
}

/// The decimal numeral of `n`, without sign or leading zeros.
pub open spec fn decimal(n: nat) -> Seq<char>
    decreases n,
{
    if n < 10 {
        seq![digit_char(n)]
    } else {
        decimal(n / 10).push(digit_char(n % 10))
    }
}

/// Whether `c` is one of the ten ASCII digits.
pub open spec fn is_digit(c: char) -> bool {
    48 <= c as u32 && c as u32 <= 57
}

/// The value of a digit; zero for any other character.
pub open spec fn digit_value(c: char) -> nat {
    if is_digit(c) {
        (c as u32 - 48) as nat
    } else {
        0
    }
}

/// The number that a run of digits writes, most significant digit first.
pub open spec fn digits_value(s: Seq<char>) -> nat
    decreases s.len(),
{
    if s.len() == 0 {
        0
    } else {
        digits_value(s.drop_last()) * 10 + digit_value(s.last())
    }
}

/// A non-empty run of ASCII digits.
pub open spec fn is_digits(s: Seq<char>) -> bool {
    s.len() > 0 && forall|i: int| 0 <= i < s.len() ==> is_digit(#[trigger] s[i])
}

/// `s` without one leading plus sign.
pub open spec fn unsigned_part(s: Seq<char>) -> Seq<char> {
    if s.len() > 0 && s[0] == '+' {
        s.skip(1)
    } else {
        s
    }
}

/// The number that `s` writes if `s` is an unsigned decimal numeral no greater
/// than `max`: an optional plus sign, then one or more ASCII digits.
pub open spec fn numeral(s: Seq<char>, max: nat) -> Option<nat> {
    let body = unsigned_part(s);
    if is_digits(body) && digits_value(body) <= max {
        Some(digits_value(body))
    } else {
        None
    }
}

/// The texts of a vector of strings.
pub open spec fn texts(strings: Seq<String>) -> Seq<Seq<char>> {
    Seq::new(strings.len(), |i: int| strings[i]@)
}

/// `n` blanks.
pub open spec fn spaces(n: nat) -> Seq<char> {
    Seq::new(n, |i: int| ' ')
}

/// `s` followed by as many blanks as it takes to fill `width` columns.
pub open spec fn pad_right(s: Seq<char>, width: nat) -> Seq<char> {
    if s.len() >= width {
        s
    } else {
        s + spaces((width - s.len()) as nat)
    }
}

/// The value of a run of digits never falls when digits are added on the right.
pub proof fn lemma_digits_value_prefix(s: Seq<char>, k: int)
    requires
        0 <= k <= s.len(),
    ensures
        digits_value(s.take(k)) <= digits_value(s),
    decreases s.len(),
{
    if k == s.len() {
        assert(s.take(k) =~= s);
    } else {
        lemma_digits_value_prefix(s.drop_last(), k);
        assert(s.drop_last().take(k) =~= s.take(k));
    }
}

fn digit_str(d: u64) -> (s: &'static str)
    requires
        d < 10,
    ensures
        s@ == seq![digit_char(d as nat)],
{
    proof {
        reveal_strlit("0");
        reveal_strlit("1");
        reveal_strlit("2");
        reveal_strlit("3");
        reveal_strlit("4");
        reveal_strlit("5");
        reveal_strlit("6");
        reveal_strlit("7");
        reveal_strlit("8");
        reveal_strlit("9");
    }
    if d == 0 {
        "0"
    } else if d == 1 {
        "1"
    } else if d == 2 {
        "2"
    } else if d == 3 {
        "3"
    } else if d == 4 {
        "4"
    } else if d == 5 {
        "5"
    } else if d == 6 {
        "6"
    } else if d == 7 {
        "7"
    } else if d == 8 {
        "8"
    } else {
        "9"
    }
}

/// Appends the decimal numeral of `n` to `out`.
pub fn push_decimal(out: &mut String, n: u64)
    ensures
        final(out)@ == old(out)@ + decimal(n as nat),
    decreases n,
{
    if n >= 10 {
        push_decimal(out, n / 10);
    }
    out.append(digit_str(n % 10));
}

/// The decimal numeral of `n` as a string.
pub fn decimal_string(n: u64) -> (s: String)
    ensures
        s@ == decimal(n as nat),
{
    let mut s = String::new();
    push_decimal(&mut s, n);
    s
}

/// The number of characters in the decimal numeral of `n`.
pub fn decimal_len(n: u16) -> (len: usize)
    ensures
        len == decimal(n as nat).len(),
        1 <= len <= 5,
{
    proof {
        reveal_with_fuel(decimal, 5);
    }
    if n < 10 {
        1
    } else if n < 100 {
        2
    } else if n < 1000 {
        3
    } else if n < 10000 {
        4
    } else {
        5
    }
}

/// Appends `s` to `out`, then blanks up to `width` columns.
pub fn push_padded(out: &mut String, s: &str, width: usize)
    ensures
        final(out)@ == old(out)@ + pad_right(s@, width as nat),
{
    let len: usize = s.unicode_len();
    out.append(s);
    let mut col: usize = len;
    proof {
        reveal_strlit(" ");
    }
    while col < width
        invariant
            len <= col,
            len == s@.len(),
            col <= width || col == len,
            out@ == old(out)@ + s@ + spaces((col - len) as nat),
            " "@ == seq![' '],
        decreases width - col,
    {
        out.append(" ");
        col = col + 1;
        assert(spaces((col - len) as nat) =~= spaces((col - 1 - len) as nat) + seq![' ']);
    }
    assert(spaces(0) =~= Seq::<char>::empty());
}

/// The characters of `s`, in order.
pub fn chars_of(s: &str) -> (chars: Vec<char>)
    ensures
        chars@ == s@,
{
    let len: usize = s.unicode_len();
    let mut chars: Vec<char> = Vec::new();
    let mut i: usize = 0;
    while i < len
        invariant
            len == s@.len(),
            i <= len,
            chars@ == s@.take(i as int),
        decreases len - i,
    {
        chars.push(s.get_char(i));
        i = i + 1;
        assert(s@.take(i as int) =~= s@.take(i - 1).push(s@[i - 1]));
    }
    assert(s@.take(len as int) =~= s@);
    chars
}

/// Reads `text` as an unsigned decimal numeral no greater than `max`.
pub fn parse_numeral(text: &str, max: u64) -> (value: Option<u64>)
    ensures
        match value {
            Some(v) => numeral(text@, max as nat) == Some(v as nat),
            None => numeral(text@, max as nat) is None,
        },
{
    let chars = chars_of(text);
    assert(chars@.subrange(0, chars.len() as int) =~= text@);
    parse_numeral_in(&chars, 0, chars.len(), max)
}

/// Reads `chars[start..end]` as an unsigned decimal numeral no greater than `max`.
pub(crate) fn parse_numeral_in(chars: &Vec<char>, start: usize, end: usize, max: u64) -> (value:
    Option<u64>)
    requires
        start <= end <= chars.len(),
    ensures
        match value {
            Some(v) => numeral(chars@.subrange(start as int, end as int), max as nat) == Some(
                v as nat,
            ),
            None => numeral(chars@.subrange(start as int, end as int), max as nat) is None,
        },
{
    let ghost whole = chars@.subrange(start as int, end as int);
    let mut from: usize = start;
    if start < end && chars[start] == '+' {
        from = start + 1;
    }
    let ghost body = chars@.subrange(from as int, end as int);
    assert(body =~= unsigned_part(whole));
    if from == end {
        return None;
    }
    let mut acc: u64 = 0;
    let mut i: usize = from;
    while i < end
        invariant
            from <= i <= end <= chars.len(),
            body == chars@.subrange(from as int, end as int),
            body == unsigned_part(chars@.subrange(start as int, end as int)),
            acc as nat == digits_value(body.take(i - from)),
            acc <= max,
            forall|j: int| 0 <= j < i - from ==> is_digit(#[trigger] body[j]),
        decreases end - i,
    {
        let c: char = chars[i];
        let code: u32 = c as u32;
        if code < 48 || code > 57 {
            assert(!is_digit(body[i - from]));
            return None;
        }
        let digit: u64 = (code - 48) as u64;
        let next: u128 = acc as u128 * 10 + digit as u128;
        proof {
            let longer = body.take(i - from + 1);
            assert(longer.drop_last() =~= body.take(i - from));
            assert(longer.last() == c);
            assert(digits_value(longer) == next);
            lemma_digits_value_prefix(body, i - from + 1);
        }
        if next > max as u128 {
            return None;
        }
        acc = next as u64;
        i = i + 1;
    }
    assert(body.take(end - from) =~= body);
    Some(acc)
}

} // verus!
