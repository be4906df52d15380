//! The scan's settings as the command line gives them, and what they amount
//! to once the targets are known.
use crate::ports::{default_ports, parse_port_value, PortValue};
use vstd::prelude::*;
use vstd::string::*;

verus! {

/// Port scanner
pub struct Cli {
    /// Ports to be scanned e.g. 22,80-443,top100
    pub ports: Vec<PortValue>,
    /// Maximum time in milliseconds to scan
    pub timeout: Option<u16>,
    /// Number of concurrent port scanning
    pub concurrency: Option<u16>,
    /// CIDRs, IPs, or hosts to scan ports
    pub addresses: Vec<String>,
}

/// Reads the tokens of a port list.
#[derive(Clone, Copy, Debug, PartialEq, Eq, Structural)]
pub struct PortValueParser;

/// A value that failed validation: the argument it was given for and the
/// value itself, each as far as it is known.
#[derive(Clone, Debug, PartialEq, Eq)]
pub struct ValueValidation {
    pub invalid_arg: Option<String>,
    pub invalid_value: Option<String>,
}

/// Milliseconds allowed to an attempt on a private target set.
pub const PRIVATE_TIMEOUT: u16 = 1000;

/// Milliseconds allowed to an attempt on a public target set.
pub const PUBLIC_TIMEOUT: u16 = 3000;

/// Attempts kept going at once on a private target set.
pub const PRIVATE_CONCURRENCY: u16 = 65535;

/// Attempts kept going at once on a public target set.
pub const PUBLIC_CONCURRENCY: u16 = 4096;

/// The text of an optional string.
pub open spec fn text_of(s: Option<String>) -> Option<Seq<char>> {
    match s {
        Some(s) => Some(s@),
        None => None,
    }
}

/// The text of an optional string slice.
pub open spec fn text_of_str(s: Option<&str>) -> Option<Seq<char>> {
    match s {
        Some(s) => Some(s@),
        None => None,
    }
}

/// A value given by the user, or the default for the kind of target set.
pub open spec fn or_default(
    given: Option<u16>,
    private: bool,
    for_private: u16,
    for_public: u16,
) -> u16 {
    match given {
        Some(value) => value,
        None => if private {
            for_private
        } else {
            for_public
        },
    }
}

/// The port list given by the user, or where none was given the default for
/// the kind of target set: every port of a private one, the thousand most
/// common ports of a public one.
pub open spec fn ports_or_default(given: Seq<PortValue>, private: bool) -> Seq<PortValue> {
    if given.len() > 0 {
        given
    } else if private {
        seq![PortValue::Range(1, 65535)]
    } else {
        seq![PortValue::Top(1000)]
    }
}

impl PortValueParser {
    /// Reads `value` as one token of the port list given for `arg`. A value
    /// that is no text at all is passed as `None` and fails like any other
    /// that is no port specification; the failure names the argument and the
    /// value.
    pub fn parse_ref(&self, arg: Option<&str>, value: Option<&str>) -> (parsed: Result<
        PortValue,
        ValueValidation,
    >)
        ensures
            match parsed {
                Ok(port_value) => value matches Some(token) && parse_port_value(token@) == Ok::<
                    PortValue,
                    crate::ports::PortParseError,
                >(port_value),
                Err(failure) => {
                    &&& value matches Some(token) ==> parse_port_value(token@) is Err
                    &&& text_of(failure.invalid_arg) == text_of_str(arg)
                    &&& text_of(failure.invalid_value) == text_of_str(value)
                },
            },
    {
        match value {
            Some(token) => match PortValue::from_str(token) {
                Ok(port_value) => {
                    return Ok(port_value);
                },
                Err(_) => {},
            },
            None => {},
        }
        let invalid_arg = match arg {
            Some(arg) => Some(String::from_str(arg)),
            None => None,
        };
        let invalid_value = match value {
            Some(token) => Some(String::from_str(token)),
            None => None,
        };
        Err(ValueValidation { invalid_arg, invalid_value })
    }
}

impl Cli {
    /// The time allowed to each attempt, in milliseconds: the one given, else
    /// a short one for a private target set and a longer one for a public one.
    pub fn effective_timeout(&self, private: bool) -> (timeout: u16)
        ensures
            timeout == or_default(self.timeout, private, PRIVATE_TIMEOUT, PUBLIC_TIMEOUT),
    {
        match self.timeout {
            Some(timeout) => timeout,
            None => if private {
                PRIVATE_TIMEOUT
            } else {
                PUBLIC_TIMEOUT
            },
        }
    }

    /// The number of attempts to keep going at once: the one given, else a
    /// very high one for a private target set and a moderate one for a public
    /// one.
    pub fn effective_concurrency(&self, private: bool) -> (concurrency: u16)
        ensures
            concurrency == or_default(
                self.concurrency,
                private,
                PRIVATE_CONCURRENCY,
                PUBLIC_CONCURRENCY,
            ),
    {
        match self.concurrency {
            Some(concurrency) => concurrency,
            None => if private {
                PRIVATE_CONCURRENCY
            } else {
                PUBLIC_CONCURRENCY
            },
        }
    }

    /// The port list to expand: the one given, else the default for the kind
    /// of target set.
    pub fn effective_ports(&self, private: bool) -> (ports: Vec<PortValue>)
        ensures
            ports@ == ports_or_default(self.ports@, private),
    {
        let mut ports: Vec<PortValue> = Vec::new();
        if self.ports.len() == 0 {
            ports.push(default_ports(private));
            return ports;
        }
        let mut i: usize = 0;
        while i < self.ports.len()
            invariant
                i <= self.ports.len(),
                ports@ == self.ports@.take(i as int),
            decreases self.ports.len() - i,
        {
            ports.push(self.ports[i]);
            i = i + 1;
            assert(ports@ =~= self.ports@.take(i as int));
        }
        assert(self.ports@.take(self.ports.len() as int) =~= self.ports@);
        ports
    }
}

} // verus!
