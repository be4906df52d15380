//! IP addresses and CIDR blocks as plain integers.
use crate::text::{decimal, push_decimal};
use vstd::arithmetic::power2::{
    lemma2_to64, lemma_pow2_adds, lemma_pow2_pos, lemma_pow2_unfold, pow2,
};
use vstd::prelude::*;
use vstd::string::*;

verus! {

/// An IP address, held as the big-endian integer of its bytes.
#[derive(Clone, Copy, Debug, PartialEq, Eq, Hash, Structural)]
pub enum IpAddress {
    V4(u32),
    V6(u128),
}

/// A CIDR block: a network address and the number of leading bits that are fixed.
#[derive(Clone, Copy, Debug, PartialEq, Eq, Hash, Structural)]
#[allow(inconsistent_fields)]
pub enum CidrBlock {
    V4 { network: u32, prefix_len: u8 },
    V6 { network: u128, prefix_len: u8 },
}

/// The integer of the IPv4 address `a.b.c.d`.
pub open spec fn ipv4_bits(a: u8, b: u8, c: u8, d: u8) -> u32 {
    (a as nat * 0x100_0000 + b as nat * 0x1_0000 + c as nat * 0x100 + d as nat) as u32
}

/// Dotted-decimal text of an IPv4 address.
pub open spec fn ipv4_text(bits: u32) -> Seq<char> {
    decimal((bits / 0x100_0000) as nat) + seq!['.'] + decimal(((bits / 0x1_0000) % 0x100) as nat)
        + seq!['.'] + decimal(((bits / 0x100) % 0x100) as nat) + seq!['.'] + decimal(
        (bits % 0x100) as nat,
    )
}

/// Text of an IPv6 address, as the standard library displays it.
pub uninterp spec fn ipv6_text(bits: u128) -> Seq<char>;

/// The block that a piece of text denotes in CIDR notation, if it denotes one.
pub uninterp spec fn cidr_of(text: Seq<char>) -> Option<CidrBlock>;

/// The text that labels an address.
pub open spec fn address_text(ip: IpAddress) -> Seq<char> {
    match ip {
        IpAddress::V4(bits) => ipv4_text(bits),
        IpAddress::V6(bits) => ipv6_text(bits),
    }
}

/// 10.0.0.0/8.
pub open spec fn class_a() -> CidrBlock {
    CidrBlock::V4 { network: 0x0A00_0000, prefix_len: 8 }
}

/// 172.16.0.0/12.
pub open spec fn class_b() -> CidrBlock {
    CidrBlock::V4 { network: 0xAC10_0000, prefix_len: 12 }
}

/// 192.168.0.0/16.
pub open spec fn class_c() -> CidrBlock {
    CidrBlock::V4 { network: 0xC0A8_0000, prefix_len: 16 }
}

/// 127.0.0.0/8.
pub open spec fn loopback() -> CidrBlock {
    CidrBlock::V4 { network: 0x7F00_0000, prefix_len: 8 }
}

/// An address is private when it lies in one of the three RFC 1918 ranges or in
/// the IPv4 loopback range. No IPv6 address is.
pub open spec fn is_private(ip: IpAddress) -> bool {
    class_c().contains(ip) || class_b().contains(ip) || class_a().contains(ip)
        || loopback().contains(ip)
}

impl CidrBlock {
    /// Width of an address of the block's family, in bits.
    pub open spec fn family_bits(self) -> nat {
        match self {
            CidrBlock::V4 { .. } => 32,
            CidrBlock::V6 { .. } => 128,
        }
    }

    /// Number of fixed leading bits.
    pub open spec fn prefix_bits(self) -> nat {
        match self {
            CidrBlock::V4 { prefix_len, .. } => prefix_len as nat,
            CidrBlock::V6 { prefix_len, .. } => prefix_len as nat,
        }
    }

    /// Number of trailing bits that vary over the block.
    pub open spec fn host_bits(self) -> nat {
        if self.prefix_bits() <= self.family_bits() {
            (self.family_bits() - self.prefix_bits()) as nat
        } else {
            0
        }
    }

    /// The first address of the block, as an integer.
    pub open spec fn first(self) -> nat {
        match self {
            CidrBlock::V4 { network, .. } => network as nat,
            CidrBlock::V6 { network, .. } => network as nat,
        }
    }

    /// The prefix fits the family and the network address has no host bit set.
    pub open spec fn wf(self) -> bool {
        &&& self.prefix_bits() <= self.family_bits()
        &&& self.first() % pow2(self.host_bits()) == 0
    }

    /// How many addresses the block holds.
    pub open spec fn size(self) -> nat {
        pow2(self.host_bits())
    }

    /// The `i`-th address of the block, counting up from the network address.
    pub open spec fn address(self, i: nat) -> IpAddress {
        match self {
            CidrBlock::V4 { network, .. } => IpAddress::V4((network + i) as u32),
            CidrBlock::V6 { network, .. } => IpAddress::V6((network + i) as u128),
        }
    }

    /// Every address of the block, ascending from the network address.
    pub open spec fn addresses(self) -> Seq<IpAddress> {
        Seq::new(self.size(), |i: int| self.address(i as nat))
    }

    /// Whether `ip` is of the block's family and within its range.
    pub open spec fn contains(self, ip: IpAddress) -> bool {
        match (self, ip) {
            (CidrBlock::V4 { network, .. }, IpAddress::V4(bits)) => network <= bits && bits
                < network + self.size(),
            (CidrBlock::V6 { network, .. }, IpAddress::V6(bits)) => network <= bits && bits
                < network + self.size(),
            _ => false,
        }
    }

    /// The distance from the first address of the block to its last.
    pub fn host_span(&self) -> (span: u128)
        ensures
            span == self.size() - 1,
    {
        let (family, prefix): (u8, u8) = match self {
            CidrBlock::V4 { prefix_len, .. } => (32, *prefix_len),
            CidrBlock::V6 { prefix_len, .. } => (128, *prefix_len),
        };
        let host: u8 = if prefix <= family {
            family - prefix
        } else {
            0
        };
        let mut span: u128 = 0;
        let mut k: u8 = 0;
        proof {
            lemma2_to64();
        }
        while k < host
            invariant
                k <= host <= 128,
                span == pow2(k as nat) - 1,
            decreases host - k,
        {
            proof {
                lemma_pow2_unfold((k + 1) as nat);
                lemma_pow2_bound((k + 1) as nat);
            }
            span = span * 2 + 1;
            k = k + 1;
        }
        span
    }

    /// Whether the prefix fits the family and the network address has no
    /// host bit set.
    pub fn is_well_formed(&self) -> (valid: bool)
        ensures
            valid == self.wf(),
    {
        let span: u128 = self.host_span();
        let (family, prefix, network): (u8, u8, u128) = match self {
            CidrBlock::V4 { network, prefix_len } => (32, *prefix_len, *network as u128),
            CidrBlock::V6 { network, prefix_len } => (128, *prefix_len, *network),
        };
        if prefix > family {
            false
        } else if span == u128::MAX {
            proof {
                lemma_pow2_128();
            }
            network == 0
        } else {
            network % (span + 1) == 0
        }
    }

    /// Whether `ip` lies in the block.
    pub fn contains_ip(&self, ip: IpAddress) -> (inside: bool)
        ensures
            inside == self.contains(ip),
    {
        let span: u128 = self.host_span();
        match (self, ip) {
            (CidrBlock::V4 { network, .. }, IpAddress::V4(bits)) => *network <= bits && (bits
                - *network) as u128 <= span,
            (CidrBlock::V6 { network, .. }, IpAddress::V6(bits)) => *network <= bits && bits
                - *network <= span,
            _ => false,
        }
    }

    /// The block's addresses stay within the family's range.
    pub proof fn lemma_last_fits(self)
        requires
            self.wf(),
        ensures
            self.first() + self.size() <= pow2(self.family_bits()),
            self.size() >= 1,
    {
        let h = self.host_bits();
        let s = pow2(h);
        let t = pow2((self.family_bits() - h) as nat);
        let n = self.first();
        lemma_pow2_pos(h);
        lemma_pow2_adds(h, (self.family_bits() - h) as nat);
        lemma_pow2_128();
        lemma2_to64();
        assert(n < pow2(self.family_bits()));
        let q = n / s;
        assert(n == q * s) by {
            vstd::arithmetic::div_mod::lemma_fundamental_div_mod(n as int, s as int);
        }
        assert(q < t) by (nonlinear_arith)
            requires
                q * s < s * t,
                s > 0,
        ;
        assert((q + 1) * s <= t * s) by (nonlinear_arith)
            requires
                q + 1 <= t,
                s > 0,
        ;
        assert((q + 1) * s == q * s + s) by (nonlinear_arith);
        assert(t * s == s * t) by (nonlinear_arith);
    }
}

/// The addresses that a block contains are its members and no others: the
/// network address and the `size - 1` addresses that follow it.
pub proof fn law_members_are_the_contained_addresses(block: CidrBlock, ip: IpAddress)
    requires
        block.wf(),
    ensures
        block.contains(ip) <==> exists|i: int|
            0 <= i < block.addresses().len() && block.addresses()[i] == ip,
        block.addresses().len() == pow2(block.host_bits()),
        block.addresses().len() >= 1,
        block.addresses()[0] == block.address(0),
{
    block.lemma_last_fits();
    lemma2_to64();
    lemma_pow2_128();
    if block.contains(ip) {
        let offset: int = match (block, ip) {
            (CidrBlock::V4 { network, .. }, IpAddress::V4(bits)) => bits - network,
            (CidrBlock::V6 { network, .. }, IpAddress::V6(bits)) => bits - network,
            _ => 0,
        };
        assert(block.addresses()[offset] == ip);
    }
}

/// 2^128, the number of IPv6 addresses.
pub proof fn lemma_pow2_128()
    ensures
        pow2(128) == 0x1_0000_0000_0000_0000_0000_0000_0000_0000,
{
    lemma2_to64();
    lemma_pow2_adds(64, 64);
}

proof fn lemma_pow2_bound(e: nat)
    requires
        e <= 128,
    ensures
        pow2(e) <= 0x1_0000_0000_0000_0000_0000_0000_0000_0000,
{
    lemma_pow2_128();
    if e < 128 {
        vstd::arithmetic::power2::lemma_pow2_strictly_increases(e, 128);
    }
}

impl IpAddress {
    /// The IPv4 address `a.b.c.d`.
    pub fn v4(a: u8, b: u8, c: u8, d: u8) -> (ip: IpAddress)
        ensures
            ip == IpAddress::V4(ipv4_bits(a, b, c, d)),
    {
        IpAddress::V4(a as u32 * 0x100_0000 + b as u32 * 0x1_0000 + c as u32 * 0x100 + d as u32)
    }

    /// The text that labels this address.
    pub fn to_text(&self) -> (text: String)
        ensures
            text@ == address_text(*self),
    {
        match self {
            IpAddress::V4(bits) => {
                let bits: u32 = *bits;
                let mut text = String::new();
                proof {
                    reveal_strlit(".");
                }
                push_decimal(&mut text, (bits / 0x100_0000) as u64);
                text.append(".");
                push_decimal(&mut text, ((bits / 0x1_0000) % 0x100) as u64);
                text.append(".");
                push_decimal(&mut text, ((bits / 0x100) % 0x100) as u64);
                text.append(".");
                push_decimal(&mut text, (bits % 0x100) as u64);
                assert("."@ =~= seq!['.']);
                assert(text@ =~= ipv4_text(bits));
                text
            },
            IpAddress::V6(bits) => render_ipv6(*bits),
        }
    }
}

/// Reads `text` as CIDR notation with `cidr_utils::cidr::IpCidr::from_str`, which
/// also takes a bare address as a block of one. Trusted: the block read depends
/// on the text alone; its prefix length fits its family; and its network
/// address has been masked, so that no host bit is set.
#[verifier::external_body]
pub(crate) fn parse_cidr(text: &str) -> (block: Option<CidrBlock>)
    ensures
        block == cidr_of(text@),
        block matches Some(b) ==> b.wf(),
{
    match cidr_utils::cidr::IpCidr::from_str(text) {
        Ok(cidr_utils::cidr::IpCidr::V4(c)) => Some(
            CidrBlock::V4 { network: c.get_prefix(), prefix_len: c.get_bits() },
        ),
        Ok(cidr_utils::cidr::IpCidr::V6(c)) => Some(
            CidrBlock::V6 { network: c.get_prefix(), prefix_len: c.get_bits() },
        ),
        Err(_) => None,
    }
}

/// Renders an IPv6 address by handing its bits to
/// `cidr_utils::cidr::Ipv6Cidr::from_prefix_and_bits` as a block of one and
/// displaying that block's first address. Trusted: the text depends on the bits
/// alone.
#[verifier::external_body]
fn render_ipv6(bits: u128) -> (text: String)
    ensures
        text@ == ipv6_text(bits),
{
    match cidr_utils::cidr::Ipv6Cidr::from_prefix_and_bits(bits, 128) {
        Ok(host) => host.first_as_ipv6_addr().to_string(),
        Err(_) => String::new(),
    }
}

} // verus!
