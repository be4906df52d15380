//! What holds of every port list: the expansion keeps each port once, where it
//! came first, and a range is all of its ports and nothing else.
use crate::ports::{
    all_ports, dedup, first_at, has_top_prefix, parse_port_value, range_bounds, range_ports,
    token_values, PortParseError, PortValue,
};
use crate::text::{decimal, digit_char, digits_value, is_digit, is_digits, numeral, unsigned_part};
use vstd::prelude::*;

verus! {

proof fn lemma_dedup_contains(s: Seq<u16>, p: u16)
    ensures
        dedup(s).contains(p) <==> s.contains(p),
    decreases s.len(),
{
    if s.len() > 0 {
        let front = s.drop_last();
        let x = s.last();
        let kept = dedup(front);
        lemma_dedup_contains(front, p);
        if s.contains(p) {
            let at = choose|at: int| 0 <= at < s.len() && s[at] == p;
            if at < front.len() {
                assert(front[at] == p);
                assert(front.contains(p));
                let d = choose|d: int| 0 <= d < kept.len() && kept[d] == p;
                assert(dedup(s)[d] == p);
            } else if !kept.contains(x) {
                assert(dedup(s)[kept.len() as int] == x);
            }
        }
        if dedup(s).contains(p) {
            let d = choose|d: int| 0 <= d < dedup(s).len() && dedup(s)[d] == p;
            if d < kept.len() {
                assert(kept[d] == p);
                assert(kept.contains(p));
                assert(front.contains(p));
                let at = choose|at: int| 0 <= at < front.len() && front[at] == p;
                assert(s[at] == p);
            } else {
                assert(s[s.len() - 1] == p);
            }
        }
    }
}

/// Removing repeats neither loses a port nor invents one.
pub proof fn law_dedup_same_ports(s: Seq<u16>)
    ensures
        forall|p: u16| dedup(s).contains(p) <==> s.contains(p),
{
    assert forall|p: u16| dedup(s).contains(p) <==> s.contains(p) by {
        lemma_dedup_contains(s, p);
    }
}

/// After removing repeats no port occurs twice.
pub proof fn law_dedup_no_duplicates(s: Seq<u16>)
    ensures
        dedup(s).no_duplicates(),
    decreases s.len(),
{
    if s.len() > 0 {
        law_dedup_no_duplicates(s.drop_last());
    }
}

/// A list without repeats is left as it is.
pub proof fn law_dedup_identity(s: Seq<u16>)
    requires
        s.no_duplicates(),
    ensures
        dedup(s) == s,
    decreases s.len(),
{
    if s.len() > 0 {
        let front = s.drop_last();
        law_dedup_identity(front);
        if front.contains(s.last()) {
            let at = choose|at: int| 0 <= at < front.len() && front[at] == s.last();
            assert(s[at] == s[s.len() - 1]);
        }
        assert(front.push(s.last()) =~= s);
    }
}

/// Every port of a list has a place where it comes first.
pub proof fn lemma_first_place_exists(s: Seq<u16>, p: u16)
    requires
        s.contains(p),
    ensures
        exists|i: int| first_at(s, p, i),
    decreases s.len(),
{
    let front = s.drop_last();
    if front.contains(p) {
        lemma_first_place_exists(front, p);
        let i = choose|i: int| first_at(front, p, i);
        assert(first_at(s, p, i)) by {
            assert(s[i] == front[i]);
            assert forall|j: int| 0 <= j < i implies s[j] != p by {
                assert(front[j] != p);
            }
        }
    } else {
        let at = choose|at: int| 0 <= at < s.len() && s[at] == p;
        if at < front.len() {
            assert(front[at] == p);
        }
        assert(first_at(s, p, s.len() - 1)) by {
            assert forall|j: int| 0 <= j < s.len() - 1 implies s[j] != p by {
                if s[j] == p {
                    assert(front[j] == p);
                }
            }
        }
    }
}

/// Removing repeats keeps the order of first occurrence: of two ports that
/// stay, the earlier one was first seen earlier in the list.
pub proof fn law_dedup_keeps_first_order(s: Seq<u16>, i: int, j: int)
    requires
        0 <= i < j < dedup(s).len(),
    ensures
        exists|a: int, b: int|
            a < b && first_at(s, dedup(s)[i], a) && first_at(s, dedup(s)[j], b),
    decreases s.len(),
{
    let front = s.drop_last();
    let x = s.last();
    let kept = dedup(front);
    if j < kept.len() {
        law_dedup_keeps_first_order(front, i, j);
        let (a, b) = choose|a: int, b: int|
            a < b && first_at(front, kept[i], a) && first_at(front, kept[j], b);
        assert(first_at(s, dedup(s)[i], a)) by {
            assert(s[a] == front[a]);
            assert forall|k: int| 0 <= k < a implies s[k] != kept[i] by {
                assert(front[k] != kept[i]);
            }
        }
        assert(first_at(s, dedup(s)[j], b)) by {
            assert(s[b] == front[b]);
            assert forall|k: int| 0 <= k < b implies s[k] != kept[j] by {
                assert(front[k] != kept[j]);
            }
        }
    } else {
        assert(!kept.contains(x));
        assert(dedup(s)[j] == x);
        lemma_dedup_contains(front, x);
        let b = s.len() - 1;
        assert(first_at(s, x, b)) by {
            assert forall|k: int| 0 <= k < b implies s[k] != x by {
                if s[k] == x {
                    assert(front[k] == x);
                    assert(front.contains(x));
                }
            }
        }
        assert(kept.contains(kept[i]));
        lemma_dedup_contains(front, kept[i]);
        lemma_first_place_exists(front, kept[i]);
        let a = choose|a: int| first_at(front, kept[i], a);
        assert(first_at(s, dedup(s)[i], a)) by {
            assert(s[a] == front[a]);
            assert forall|k: int| 0 <= k < a implies s[k] != kept[i] by {
                assert(front[k] != kept[i]);
            }
        }
    }
}

/// A range from `a` up to `b` is exactly the ports `a`, `a + 1`, ..., `b`:
/// ascending, each once.
pub proof fn law_range_is_exact(a: u16, b: u16)
    requires
        a <= b,
    ensures
        range_ports(a, b).len() == b - a + 1,
        forall|i: int| 0 <= i <= b - a ==> range_ports(a, b)[i] == a + i,
        forall|p: u16| range_ports(a, b).contains(p) <==> a <= p <= b,
        range_ports(a, b).no_duplicates(),
{
    let r = range_ports(a, b);
    assert forall|p: u16| r.contains(p) <==> a <= p <= b by {
        if a <= p <= b {
            assert(r[p - a] == p);
        }
    }
}

/// A list of one value expands to that value's own ports in their own order,
/// as long as these hold no repeats: a single port, a range, or the head of a
/// table that names no port twice.
pub proof fn law_single_value_expands_to_itself(value: PortValue, top: Seq<u16>)
    requires
        value is Top ==> top.no_duplicates(),
    ensures
        dedup(all_ports(seq![value], top)) == value.ports(top),
{
    let ports = value.ports(top);
    reveal_with_fuel(all_ports, 2);
    assert(seq![value].drop_last() =~= Seq::<PortValue>::empty());
    assert(all_ports(seq![value], top) =~= ports);
    match value {
        PortValue::One(p) => {},
        PortValue::Range(a, b) => {
            if a <= b {
                law_range_is_exact(a, b);
            }
        },
        PortValue::Top(n) => {},
    }
    law_dedup_identity(ports);
}

/// A list of one token expands to the ports of that token, in the order of
/// the token's own structure, as long as these hold no repeats.
pub proof fn law_single_token_expands_to_its_own_ports(token: Seq<char>, top: Seq<u16>)
    requires
        parse_port_value(token) is Ok,
        parse_port_value(token)->Ok_0 is Top ==> top.no_duplicates(),
    ensures
        dedup(all_ports(token_values(seq![token]), top)) == parse_port_value(token)->Ok_0.ports(
            top,
        ),
{
    let value = parse_port_value(token)->Ok_0;
    assert(token_values(seq![token]) =~= seq![value]);
    law_single_value_expands_to_itself(value, top);
}

/// A token that reads as a port specification never yields a range that runs
/// downwards or covers a single port.
pub proof fn law_parsed_range_ascends(token: Seq<char>)
    ensures
        parse_port_value(token) matches Ok(value) ==> value.ordered(),
{
}

/// The decimal numeral of a number is a run of digits that writes that number.
pub proof fn lemma_decimal_writes_its_number(n: nat)
    ensures
        is_digits(decimal(n)),
        digits_value(decimal(n)) == n,
        unsigned_part(decimal(n)) == decimal(n),
    decreases n,
{
    let text = decimal(n);
    if n < 10 {
        assert(is_digit(digit_char(n)));
        assert(text.drop_last() =~= Seq::<char>::empty());
        assert(digits_value(text.drop_last()) == 0);
        assert(text[0] == digit_char(n));
    } else {
        lemma_decimal_writes_its_number(n / 10);
        let front = decimal(n / 10);
        assert(is_digit(digit_char(n % 10)));
        assert(text.drop_last() =~= front);
        assert(text.last() == digit_char(n % 10));
        assert(text[0] == front[0]);
        assert(is_digit(front[0]));
        assert forall|i: int| 0 <= i < text.len() implies is_digit(#[trigger] text[i]) by {
            if i < front.len() {
                assert(text[i] == front[i]);
            }
        }
    }
}

/// The decimal numeral of a port is a token, and it stands for that port.
pub proof fn law_decimal_token_is_its_port(port: u16)
    ensures
        parse_port_value(decimal(port as nat)) == Ok::<PortValue, PortParseError>(
            PortValue::One(port),
        ),
{
    lemma_decimal_writes_its_number(port as nat);
}

/// A numeral holds no dash and does not begin with a letter.
proof fn lemma_numeral_chars(s: Seq<char>, max: nat)
    requires
        numeral(s, max) is Some,
    ensures
        s.len() > 0,
        forall|i: int| 0 <= i < s.len() ==> s[i] != '-',
        s[0] != 't',
{
    let body = unsigned_part(s);
    assert forall|i: int| 0 <= i < s.len() implies s[i] != '-' by {
        if s[0] == '+' {
            if i > 0 {
                assert(is_digit(body[i - 1]));
            }
        } else {
            assert(is_digit(body[i]));
        }
    }
    if s[0] != '+' {
        assert(is_digit(body[0]));
    }
}

/// A range written with its start above its end is always refused.
pub proof fn law_descending_range_rejected(left: Seq<char>, right: Seq<char>)
    requires
        numeral(left, 0xFFFF) is Some,
        numeral(right, 0xFFFF) is Some,
        numeral(left, 0xFFFF)->0 > numeral(right, 0xFFFF)->0,
    ensures
        parse_port_value(left + seq!['-'] + right) == Err::<PortValue, PortParseError>(
            PortParseError::Descending,
        ),
{
    let token = left + seq!['-'] + right;
    let at = left.len() as int;
    lemma_numeral_chars(left, 0xFFFF);
    assert(token[at] == '-');
    assert(first_at(token, '-', at)) by {
        assert forall|j: int| 0 <= j < at implies token[j] != '-' by {
            assert(token[j] == left[j]);
        }
    }
    let i = choose|i: int| first_at(token, '-', i);
    assert(i == at) by {
        if i < at {
            assert(token[i] == left[i]);
        }
    }
    assert(token.take(at) =~= left);
    assert(token.skip(at + 1) =~= right);
    assert(token[0] == left[0]);
    assert(!has_top_prefix(token));
    assert(numeral(token, 0xFFFF) is None) by {
        if numeral(token, 0xFFFF) is Some {
            lemma_numeral_chars(token, 0xFFFF);
        }
    }
    assert(range_bounds(token) == Some((numeral(left, 0xFFFF)->0, numeral(right, 0xFFFF)->0)));
}

/// The ports of a value lie in 1..=65535 where the value names no port zero
/// and the table of common ports holds none.
pub proof fn law_ports_nonzero(value: PortValue, top: Seq<u16>)
    requires
        value.nonzero(),
        forall|i: int| 0 <= i < top.len() ==> top[i] >= 1,
    ensures
        forall|i: int|
            0 <= i < value.ports(top).len() ==> 1 <= #[trigger] value.ports(top)[i] <= 65535,
{
}

/// The expansion of a port list holds no port zero where no value names one
/// and the table of common ports holds none.
pub proof fn law_expansion_nonzero(values: Seq<PortValue>, top: Seq<u16>)
    requires
        forall|k: int| 0 <= k < values.len() ==> (#[trigger] values[k]).nonzero(),
        forall|i: int| 0 <= i < top.len() ==> top[i] >= 1,
    ensures
        forall|p: u16| dedup(all_ports(values, top)).contains(p) ==> 1 <= p <= 65535,
{
    lemma_all_ports_nonzero(values, top);
    assert forall|p: u16| dedup(all_ports(values, top)).contains(p) implies 1 <= p <= 65535 by {
        lemma_dedup_contains(all_ports(values, top), p);
    }
}

proof fn lemma_all_ports_nonzero(values: Seq<PortValue>, top: Seq<u16>)
    requires
        forall|k: int| 0 <= k < values.len() ==> (#[trigger] values[k]).nonzero(),
        forall|i: int| 0 <= i < top.len() ==> top[i] >= 1,
    ensures
        forall|p: u16| all_ports(values, top).contains(p) ==> p >= 1,
    decreases values.len(),
{
    if values.len() > 0 {
        let front = values.drop_last();
        assert forall|k: int| 0 <= k < front.len() implies (#[trigger] front[k]).nonzero() by {
            assert(front[k] == values[k]);
        }
        lemma_all_ports_nonzero(front, top);
        let last = values.last().ports(top);
        assert(values[values.len() - 1].nonzero());
        law_ports_nonzero(values.last(), top);
        let whole = all_ports(values, top);
        assert forall|p: u16| whole.contains(p) implies p >= 1 by {
            let at = choose|at: int| 0 <= at < whole.len() && whole[at] == p;
            if at < all_ports(front, top).len() {
                assert(all_ports(front, top)[at] == p);
                assert(all_ports(front, top).contains(p));
            } else {
                assert(last[at - all_ports(front, top).len()] == p);
            }
        }
    }
}

} // verus!
