//! Port specifications, their expansion into port numbers, and the table of
//! well-known ports.
use crate::text::{chars_of, numeral, parse_numeral_in, texts};
use vstd::prelude::*;
use vstd::string::*;

verus! {

/// One entry of a port specification list.
#[derive(Clone, Copy, Debug, PartialEq, Eq, Structural)]
pub enum PortValue {
    /// A single port.
    One(u16),
    /// Every port from the first to the second, both included.
    Range(u16, u16),
    /// The first so many entries of the table of commonly open ports.
    Top(usize),
}

/// Why a token is no port specification.
#[derive(Clone, Copy, Debug, PartialEq, Eq, Structural)]
pub enum PortParseError {
    /// The token is of none of the three forms.
    Malformed,
    /// The token is a range whose start lies above its end.
    Descending,
}

/// A token of a port list that is no port specification.
#[derive(Clone, Debug, PartialEq, Eq)]
pub struct InvalidToken {
    /// The token's place in the list.
    pub index: usize,
    pub token: String,
    pub cause: PortParseError,
}

/// A port's conventional service name.
#[derive(Clone, Debug, PartialEq, Eq)]
pub struct ServiceName {
    pub port: u16,
    pub name: String,
}

/// The well-known ports: the commonly open ones, most common first, and the
/// service names. Loaded once and only read afterwards.
#[derive(Clone, Debug, PartialEq, Eq)]
pub struct PortTable {
    pub top_ports: Vec<u16>,
    pub names: Vec<ServiceName>,
}

/// Whether `i` is the first place in `s` that holds `x`.
pub open spec fn first_at<A>(s: Seq<A>, x: A, i: int) -> bool {
    &&& 0 <= i < s.len()
    &&& s[i] == x
    &&& forall|j: int| 0 <= j < i ==> s[j] != x
}

/// Whether `token` begins with `top`.
pub open spec fn has_top_prefix(token: Seq<char>) -> bool {
    token.len() >= 3 && token[0] == 't' && token[1] == 'o' && token[2] == 'p'
}

/// The two numbers of a token of the form `<a>-<b>`.
pub open spec fn range_bounds(token: Seq<char>) -> Option<(nat, nat)> {
    if exists|i: int| first_at(token, '-', i) {
        let i = choose|i: int| first_at(token, '-', i);
        match (numeral(token.take(i), 0xFFFF), numeral(token.skip(i + 1), 0xFFFF)) {
            (Some(a), Some(b)) => Some((a, b)),
            _ => None,
        }
    } else {
        None
    }
}

/// What a token of a port list means. The forms are tried in this order: a
/// port number; `top` and a count; two port numbers around a dash.
pub open spec fn parse_port_value(token: Seq<char>) -> Result<PortValue, PortParseError> {
    if numeral(token, 0xFFFF) is Some {
        Ok(PortValue::One(numeral(token, 0xFFFF)->0 as u16))
    } else if has_top_prefix(token) && numeral(token.skip(3), usize::MAX as nat) is Some {
        Ok(PortValue::Top(numeral(token.skip(3), usize::MAX as nat)->0 as usize))
    } else {
        match range_bounds(token) {
            Some((a, b)) => if a == b {
                Ok(PortValue::One(a as u16))
            } else if a < b {
                Ok(PortValue::Range(a as u16, b as u16))
            } else {
                Err(PortParseError::Descending)
            },
            None => Err(PortParseError::Malformed),
        }
    }
}

/// The values that the tokens of a list stand for. A token that is no port
/// specification stands for no port.
pub open spec fn token_values(tokens: Seq<Seq<char>>) -> Seq<PortValue> {
    Seq::new(
        tokens.len(),
        |i: int|
            match parse_port_value(tokens[i]) {
                Ok(value) => value,
                Err(_) => PortValue::Top(0),
            },
    )
}

/// The ports from `a` to `b`, ascending; none where `a` lies above `b`.
pub open spec fn range_ports(a: u16, b: u16) -> Seq<u16> {
    if a <= b {
        Seq::new((b - a + 1) as nat, |i: int| (a + i) as u16)
    } else {
        Seq::empty()
    }
}

/// The first `n` entries of `table`, or all of it where it has fewer.
pub open spec fn first_entries(table: Seq<u16>, n: nat) -> Seq<u16> {
    if n <= table.len() {
        table.take(n as int)
    } else {
        table
    }
}

/// The ports of every value in turn, one after the other.
pub open spec fn all_ports(values: Seq<PortValue>, top: Seq<u16>) -> Seq<u16>
    decreases values.len(),
{
    if values.len() == 0 {
        Seq::empty()
    } else {
        all_ports(values.drop_last(), top) + values.last().ports(top)
    }
}

/// `s` without the later occurrences of any port: each port stays where it
/// came first.
pub open spec fn dedup(s: Seq<u16>) -> Seq<u16>
    decreases s.len(),
{
    if s.len() == 0 {
        s
    } else {
        let front = dedup(s.drop_last());
        if front.contains(s.last()) {
            front
        } else {
            front.push(s.last())
        }
    }
}

/// The name that `names` gives to `port`: that of the first entry for it, or
/// `unknown`.
pub open spec fn name_of(names: Seq<ServiceName>, port: u16) -> Seq<char>
    decreases names.len(),
{
    if names.len() == 0 {
        "unknown"@
    } else if names[0].port == port {
        names[0].name@
    } else {
        name_of(names.skip(1), port)
    }
}

impl PortValue {
    /// The ports that this value stands for, in order.
    pub open spec fn ports(self, top: Seq<u16>) -> Seq<u16> {
        match self {
            PortValue::One(p) => seq![p],
            PortValue::Range(a, b) => range_ports(a, b),
            PortValue::Top(n) => first_entries(top, n as nat),
        }
    }

    /// A range runs upwards over at least two ports.
    pub open spec fn ordered(self) -> bool {
        self matches PortValue::Range(a, b) ==> a < b
    }

    /// No port of the value is zero.
    pub open spec fn nonzero(self) -> bool {
        match self {
            PortValue::One(p) => p >= 1,
            PortValue::Range(a, _) => a >= 1,
            PortValue::Top(_) => true,
        }
    }

    /// Reads one token of a port list.
    pub fn from_str(token: &str) -> (value: Result<PortValue, PortParseError>)
        ensures
            value == parse_port_value(token@),
    {
        let chars = chars_of(token);
        let n: usize = chars.len();
        assert(chars@.subrange(0, n as int) =~= token@);
        match parse_numeral_in(&chars, 0, n, 0xFFFF) {
            Some(p) => {
                return Ok(PortValue::One(p as u16));
            },
            None => {},
        }
        if n >= 3 && chars[0] == 't' && chars[1] == 'o' && chars[2] == 'p' {
            assert(chars@.subrange(3, n as int) =~= token@.skip(3));
            match parse_numeral_in(&chars, 3, n, usize::MAX as u64) {
                Some(count) => {
                    return Ok(PortValue::Top(count as usize));
                },
                None => {},
            }
        }
        let mut dash: usize = 0;
        while dash < n && chars[dash] != '-'
            invariant
                dash <= n == chars.len(),
                forall|j: int| 0 <= j < dash ==> chars@[j] != '-',
            decreases n - dash,
        {
            dash = dash + 1;
        }
        if dash == n {
            assert(forall|i: int| !first_at(token@, '-', i));
            return Err(PortParseError::Malformed);
        }
        proof {
            assert(first_at(token@, '-', dash as int));
            let i = choose|i: int| first_at(token@, '-', i);
            assert(i == dash) by {
                if i < dash {
                    assert(token@[i] != '-');
                } else if dash < i {
                    assert(token@[dash as int] == '-');
                }
            }
            assert(chars@.subrange(0, dash as int) =~= token@.take(dash as int));
            assert(chars@.subrange(dash + 1, n as int) =~= token@.skip(dash + 1));
        }
        let start = parse_numeral_in(&chars, 0, dash, 0xFFFF);
        let end = parse_numeral_in(&chars, dash + 1, n, 0xFFFF);
        match (start, end) {
            (Some(a), Some(b)) => {
                if a == b {
                    Ok(PortValue::One(a as u16))
                } else if a < b {
                    Ok(PortValue::Range(a as u16, b as u16))
                } else {
                    Err(PortParseError::Descending)
                }
            },
            _ => Err(PortParseError::Malformed),
        }
    }

    /// The ports that this value stands for, in the order of its own structure:
    /// the one port; the range, ascending; the head of the table of common ports.
    pub fn values(&self, table: &PortTable) -> (ports: Vec<u16>)
        ensures
            ports@ == self.ports(table.top_ports@),
    {
        match self {
            PortValue::One(p) => {
                let mut ports: Vec<u16> = Vec::new();
                ports.push(*p);
                ports
            },
            PortValue::Range(a, b) => {
                let a: u16 = *a;
                let b: u16 = *b;
                let mut ports: Vec<u16> = Vec::new();
                if a <= b {
                    let mut p: u16 = a;
                    while p < b
                        invariant
                            a <= p <= b,
                            ports@ == Seq::new((p - a) as nat, |i: int| (a + i) as u16),
                        decreases b - p,
                    {
                        ports.push(p);
                        p = p + 1;
                        assert(ports@ =~= Seq::new((p - a) as nat, |i: int| (a + i) as u16));
                    }
                    ports.push(b);
                    assert(ports@ =~= range_ports(a, b));
                }
                ports
            },
            PortValue::Top(n) => table.top(*n),
        }
    }
}

impl PortTable {
    /// The first `n` of the commonly open ports; all of them where the table
    /// has fewer.
    pub fn top(&self, n: usize) -> (ports: Vec<u16>)
        ensures
            ports@ == first_entries(self.top_ports@, n as nat),
    {
        let len: usize = if n <= self.top_ports.len() {
            n
        } else {
            self.top_ports.len()
        };
        let mut ports: Vec<u16> = Vec::new();
        let mut i: usize = 0;
        while i < len
            invariant
                i <= len <= self.top_ports.len(),
                ports@ == self.top_ports@.take(i as int),
            decreases len - i,
        {
            ports.push(self.top_ports[i]);
            i = i + 1;
            assert(ports@ =~= self.top_ports@.take(i as int));
        }
        assert(self.top_ports@.take(self.top_ports.len() as int) =~= self.top_ports@);
        ports
    }

    /// The service name of `port`; `unknown` where the table has none.
    pub fn service_name(&self, port: u16) -> (name: String)
        ensures
            name@ == name_of(self.names@, port),
    {
        let mut i: usize = 0;
        assert(self.names@.skip(0) =~= self.names@);
        while i < self.names.len()
            invariant
                i <= self.names.len(),
                name_of(self.names@, port) == name_of(self.names@.skip(i as int), port),
            decreases self.names.len() - i,
        {
            if self.names[i].port == port {
                return self.names[i].name.clone();
            }
            assert(self.names@.skip(i as int).skip(1) =~= self.names@.skip(i + 1));
            i = i + 1;
        }
        String::from_str("unknown")
    }
}

/// The ports to scan when none were asked for: every port of a private target
/// set, the thousand most common ones of a public one.
pub fn default_ports(private: bool) -> (value: PortValue)
    ensures
        value == if private {
            PortValue::Range(1, 65535)
        } else {
            PortValue::Top(1000)
        },
{
    if private {
        PortValue::Range(1, 65535)
    } else {
        PortValue::Top(1000)
    }
}

/// Expands a port list into the ports to scan: the ports of each value in
/// turn, every port kept only where it comes first.
pub fn expand(values: &Vec<PortValue>, table: &PortTable) -> (ports: Vec<u16>)
    ensures
        ports@ == dedup(all_ports(values@, table.top_ports@)),
{
    let ghost top = table.top_ports@;
    let mut seen: Vec<bool> = Vec::new();
    let mut k: usize = 0;
    while k < 0x1_0000
        invariant
            k <= 0x1_0000,
            seen.len() == k,
            forall|j: int| 0 <= j < k ==> !seen@[j],
        decreases 0x1_0000 - k,
    {
        seen.push(false);
        k = k + 1;
    }
    let mut ports: Vec<u16> = Vec::new();
    let mut i: usize = 0;
    while i < values.len()
        invariant
            i <= values.len(),
            top == table.top_ports@,
            seen.len() == 0x1_0000,
            forall|p: u16| seen@[p as int] == ports@.contains(p),
            ports@ == dedup(all_ports(values@.take(i as int), top)),
        decreases values.len() - i,
    {
        let part = values[i].values(table);
        let ghost before = all_ports(values@.take(i as int), top);
        let mut j: usize = 0;
        while j < part.len()
            invariant
                j <= part.len(),
                seen.len() == 0x1_0000,
                forall|p: u16| seen@[p as int] == ports@.contains(p),
                ports@ == dedup(before + part@.take(j as int)),
            decreases part.len() - j,
        {
            let p: u16 = part[j];
            proof {
                let longer = before + part@.take(j + 1);
                assert(longer.drop_last() =~= before + part@.take(j as int));
                assert(longer.last() == p);
            }
            if !seen[p as usize] {
                let ghost old_ports = ports@;
                ports.push(p);
                seen.set(p as usize, true);
                assert forall|q: u16| seen@[q as int] == ports@.contains(q) by {
                    if q == p {
                        assert(ports@[old_ports.len() as int] == p);
                    } else if old_ports.contains(q) {
                        let at = choose|at: int| 0 <= at < old_ports.len() && old_ports[at] == q;
                        assert(ports@[at] == q);
                    } else if ports@.contains(q) {
                        let at = choose|at: int| 0 <= at < ports@.len() && ports@[at] == q;
                        assert(old_ports[at] == q);
                    }
                }
            }
            j = j + 1;
        }
        proof {
            assert(part@.take(part.len() as int) =~= part@);
            assert(values@.take(i + 1).drop_last() =~= values@.take(i as int));
            assert(values@.take(i + 1).last() == values@[i as int]);
        }
        assert(before + part@.take(0) =~= before) by {
            assert(part@.take(0) =~= Seq::<u16>::empty());
        }
        i = i + 1;
    }
    assert(values@.take(values.len() as int) =~= values@);
    ports
}

/// Reads a port list token by token and expands it. The first token that is
/// no port specification ends the reading and is reported with its place and
/// the reason.
pub fn expand_tokens(tokens: &Vec<String>, table: &PortTable) -> (ports: Result<
    Vec<u16>,
    InvalidToken,
>)
    ensures
        match ports {
            Ok(ports) => {
                &&& forall|i: int|
                    0 <= i < tokens@.len() ==> parse_port_value(#[trigger] tokens@[i]@) is Ok
                &&& ports@ == dedup(all_ports(token_values(texts(tokens@)), table.top_ports@))
            },
            Err(bad) => {
                &&& bad.index < tokens@.len()
                &&& forall|i: int|
                    0 <= i < bad.index ==> parse_port_value(#[trigger] tokens@[i]@) is Ok
                &&& parse_port_value(tokens@[bad.index as int]@) == Err::<
                    PortValue,
                    PortParseError,
                >(bad.cause)
                &&& bad.token@ == tokens@[bad.index as int]@
            },
        },
{
    let mut values: Vec<PortValue> = Vec::new();
    let mut i: usize = 0;
    while i < tokens.len()
        invariant
            i <= tokens.len(),
            forall|k: int| 0 <= k < i ==> parse_port_value(#[trigger] tokens@[k]@) is Ok,
            values@ == token_values(texts(tokens@)).take(i as int),
        decreases tokens.len() - i,
    {
        match PortValue::from_str(tokens[i].as_str()) {
            Ok(value) => {
                values.push(value);
            },
            Err(cause) => {
                return Err(InvalidToken { index: i, token: tokens[i].clone(), cause });
            },
        }
        i = i + 1;
        assert(values@ =~= token_values(texts(tokens@)).take(i as int));
    }
    assert(token_values(texts(tokens@)).take(tokens.len() as int) =~= token_values(texts(tokens@)));
    Ok(expand(&values, table))
}

} // verus!
