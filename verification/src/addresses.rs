//! Addresses utility: from textual targets to concrete IP addresses.
//!
//! A target is CIDR notation (a bare address is a block of one) or a host name.
//! Looking a host up is the caller's work; what to ask for, and what the
//! answers amount to, is decided here.
use crate::ip::{address_text, cidr_of, is_private, parse_cidr, CidrBlock, IpAddress};
use crate::text::texts;
use vstd::prelude::*;
use vstd::string::*;

verus! {

/// A resolved address with the text it is shown under.
#[derive(Clone, Debug, PartialEq, Eq)]
pub struct Target {
    pub ip: IpAddress,
    pub label: String,
}

/// A target as a plain value.
pub struct TargetView {
    pub ip: IpAddress,
    pub label: Seq<char>,
}

impl View for Target {
    type V = TargetView;

    open spec fn view(&self) -> TargetView {
        TargetView { ip: self.ip, label: self.label@ }
    }
}

/// What one resolver answered for a host.
#[derive(Clone, Debug, PartialEq, Eq)]
pub enum Lookup {
    /// The resolver reported an error.
    Failed,
    /// The resolver answered with these addresses, possibly none.
    Found(Vec<IpAddress>),
}

/// A resolver to ask.
#[derive(Clone, Copy, Debug, PartialEq, Eq, Structural)]
pub enum HostQuery {
    /// The platform's own resolution of a socket address.
    System,
    /// The stub resolver that queries public name servers.
    Dns,
}

/// Where the resolution of one host stands.
#[derive(Clone, Debug, PartialEq, Eq)]
pub enum HostProgress {
    /// This resolver is to be asked next.
    Ask(HostQuery),
    /// The host resolved to this target.
    Resolved(Target),
    /// The host did not resolve; nothing is left to ask.
    Unresolved,
}

/// Where the resolution of one host stands, as a plain value.
pub enum HostState {
    Ask(HostQuery),
    Resolved(IpAddress),
    Unresolved,
}

/// One textual target with the resolver answers gathered for it so far.
#[derive(Clone, Debug, PartialEq, Eq)]
pub struct AddressInput {
    pub text: String,
    pub system: Option<Lookup>,
    pub dns: Option<Lookup>,
}

/// The targets of a scan in input order, whether all of them are private, and
/// the inputs that gave no target.
#[derive(Clone, Debug, PartialEq, Eq)]
pub struct TargetSet {
    pub targets: Vec<Target>,
    pub private: bool,
    pub unresolved: Vec<String>,
}

/// The targets of a vector as plain values.
pub open spec fn views(targets: Seq<Target>) -> Seq<TargetView> {
    Seq::new(targets.len(), |i: int| targets[i]@)
}

/// The first address of an answer, if it holds one.
pub open spec fn first_found(answer: Lookup) -> Option<IpAddress> {
    match answer {
        Lookup::Found(found) => if found@.len() > 0 {
            Some(found@[0])
        } else {
            None
        },
        Lookup::Failed => None,
    }
}

/// The resolution of a host from the answers so far. The platform's resolver
/// is asked first, and only its failure sends the question on to the stub
/// resolver; an answer without addresses settles the host as unresolved. The
/// first address of an answer is the one taken.
pub open spec fn host_state(system: Option<Lookup>, dns: Option<Lookup>) -> HostState {
    match system {
        None => HostState::Ask(HostQuery::System),
        Some(Lookup::Found(found)) => match first_found(Lookup::Found(found)) {
            Some(ip) => HostState::Resolved(ip),
            None => HostState::Unresolved,
        },
        Some(Lookup::Failed) => match dns {
            None => HostState::Ask(HostQuery::Dns),
            Some(answer) => match first_found(answer) {
                Some(ip) => HostState::Resolved(ip),
                None => HostState::Unresolved,
            },
        },
    }
}

/// Every address of a block, ascending, each labelled with its own text.
pub open spec fn block_targets(block: CidrBlock) -> Seq<TargetView> {
    Seq::new(
        block.size(),
        |i: int|
            TargetView {
                ip: block.address(i as nat),
                label: address_text(block.address(i as nat)),
            },
    )
}

/// The targets that one input gives: the members of its block where it is
/// CIDR notation, else the host it resolved to under its own text, else none.
pub open spec fn contribution(input: AddressInput) -> Seq<TargetView> {
    match cidr_of(input.text@) {
        Some(block) => block_targets(block),
        None => match host_state(input.system, input.dns) {
            HostState::Resolved(ip) => seq![TargetView { ip, label: input.text@ }],
            _ => Seq::empty(),
        },
    }
}

/// The targets of all inputs, in input order.
pub open spec fn all_targets(inputs: Seq<AddressInput>) -> Seq<TargetView>
    decreases inputs.len(),
{
    if inputs.len() == 0 {
        Seq::empty()
    } else {
        all_targets(inputs.drop_last()) + contribution(inputs.last())
    }
}

/// The texts of the inputs that gave no target, in input order.
pub open spec fn unresolved_texts(inputs: Seq<AddressInput>) -> Seq<Seq<char>>
    decreases inputs.len(),
{
    if inputs.len() == 0 {
        Seq::empty()
    } else if contribution(inputs.last()).len() == 0 {
        unresolved_texts(inputs.drop_last()).push(inputs.last().text@)
    } else {
        unresolved_texts(inputs.drop_last())
    }
}

/// Whether every target is private. A set without targets is.
pub open spec fn all_private(targets: Seq<TargetView>) -> bool {
    forall|i: int| 0 <= i < targets.len() ==> is_private(#[trigger] targets[i].ip)
}

/// Whether `ip` belongs to a private network or is an IPv4 loopback address.
pub fn is_private_ip(ip: IpAddress) -> (private: bool)
    ensures
        private == is_private(ip),
{
    let class_a = CidrBlock::V4 { network: 0x0A00_0000, prefix_len: 8 };
    let class_b = CidrBlock::V4 { network: 0xAC10_0000, prefix_len: 12 };
    let class_c = CidrBlock::V4 { network: 0xC0A8_0000, prefix_len: 16 };
    let loopback = CidrBlock::V4 { network: 0x7F00_0000, prefix_len: 8 };
    class_c.contains_ip(ip) || class_b.contains_ip(ip) || class_a.contains_ip(ip)
        || loopback.contains_ip(ip)
}

/// The `offset`-th member of a block, labelled with its own text.
fn block_member(block: &CidrBlock, offset: u128) -> (target: Target)
    requires
        block.wf(),
        offset < block.size(),
    ensures
        target@ == block_targets(*block)[offset as int],
{
    proof {
        block.lemma_last_fits();
        vstd::arithmetic::power2::lemma2_to64();
        crate::ip::lemma_pow2_128();
    }
    let ip = match block {
        CidrBlock::V4 { network, .. } => IpAddress::V4((*network as u128 + offset) as u32),
        CidrBlock::V6 { network, .. } => IpAddress::V6(*network + offset),
    };
    let label = ip.to_text();
    Target { ip, label }
}

/// Every address of a block as a target, ascending from the network
/// address, each labelled with its own text.
pub fn block_members(block: &CidrBlock) -> (targets: Vec<Target>)
    requires
        block.wf(),
    ensures
        views(targets@) == block_targets(*block),
{
    let span: u128 = block.host_span();
    proof {
        block.lemma_last_fits();
    }
    let mut targets: Vec<Target> = Vec::new();
    let mut offset: u128 = 0;
    while offset < span
        invariant
            block.wf(),
            span == block.size() - 1,
            offset <= span,
            targets@.len() == offset,
            forall|k: int|
                0 <= k < offset ==> (#[trigger] targets@[k])@ == block_targets(*block)[k],
        decreases span - offset,
    {
        targets.push(block_member(block, offset));
        offset = offset + 1;
    }
    targets.push(block_member(block, span));
    assert(views(targets@) =~= block_targets(*block));
    targets
}

/// Given a string, reads it as CIDR notation and expands it to every address
/// it holds, from the network address upwards, each labelled with its own
/// text. `None` says that the string is no CIDR notation and stands for a host.
pub fn parse_address(address: &str) -> (members: Option<Vec<Target>>)
    ensures
        match members {
            Some(targets) => cidr_of(address@) matches Some(block) && views(targets@)
                == block_targets(block),
            None => cidr_of(address@) is None,
        },
{
    match parse_cidr(address) {
        Some(block) => Some(block_members(&block)),
        None => None,
    }
}

/// Decides the next step in resolving `source` as a host from the answers
/// gathered so far.
pub fn resolve_ip_from_host(
    source: &str,
    system: &Option<Lookup>,
    dns: &Option<Lookup>,
) -> (progress: HostProgress)
    ensures
        match host_state(*system, *dns) {
            HostState::Ask(query) => progress == HostProgress::Ask(query),
            HostState::Resolved(ip) => progress matches HostProgress::Resolved(target) && target@
                == (TargetView { ip, label: source@ }),
            HostState::Unresolved => progress == HostProgress::Unresolved,
        },
{
    let settled: &Lookup = match system {
        None => {
            return HostProgress::Ask(HostQuery::System);
        },
        Some(Lookup::Found(_)) => system.as_ref().unwrap(),
        Some(Lookup::Failed) => match dns {
            None => {
                return HostProgress::Ask(HostQuery::Dns);
            },
            Some(answer) => answer,
        },
    };
    match settled {
        Lookup::Found(found) => {
            if found.len() > 0 {
                HostProgress::Resolved(Target { ip: found[0], label: String::from_str(source) })
            } else {
                HostProgress::Unresolved
            }
        },
        Lookup::Failed => HostProgress::Unresolved,
    }
}

impl AddressInput {
    /// An input for which no resolver has been asked yet.
    pub fn new(text: String) -> (input: AddressInput)
        ensures
            input.text == text,
            input.system is None,
            input.dns is None,
    {
        AddressInput { text, system: None, dns: None }
    }

    /// The resolver to ask next for this input. `None` where the input is
    /// CIDR notation, or settled by the answers it holds.
    pub fn pending(&self) -> (query: Option<HostQuery>)
        ensures
            query == match cidr_of(self.text@) {
                Some(_) => None,
                None => match host_state(self.system, self.dns) {
                    HostState::Ask(query) => Some(query),
                    _ => None,
                },
            },
    {
        match parse_cidr(self.text.as_str()) {
            Some(_) => None,
            None => match resolve_ip_from_host(self.text.as_str(), &self.system, &self.dns) {
                HostProgress::Ask(query) => Some(query),
                _ => None,
            },
        }
    }

    /// The targets that this input gives.
    pub fn targets(&self) -> (targets: Vec<Target>)
        ensures
            views(targets@) == contribution(*self),
    {
        match parse_address(self.text.as_str()) {
            Some(members) => members,
            None => {
                let mut targets: Vec<Target> = Vec::new();
                match resolve_ip_from_host(self.text.as_str(), &self.system, &self.dns) {
                    HostProgress::Resolved(target) => {
                        targets.push(target);
                    },
                    _ => {},
                }
                assert(views(targets@) =~= contribution(*self));
                targets
            },
        }
    }
}

/// Goes through all inputs in order and gathers the targets that each gives.
/// An input that gives none is listed as unresolved. The set is private when
/// every target in it is; so is the empty set.
pub fn parse_addresses(addresses: &Vec<AddressInput>) -> (set: TargetSet)
    ensures
        views(set.targets@) == all_targets(addresses@),
        texts(set.unresolved@) == unresolved_texts(addresses@),
        set.private == all_private(all_targets(addresses@)),
{
    let mut ips: Vec<Target> = Vec::new();
    let mut unresolved: Vec<String> = Vec::new();
    let mut private: bool = true;
    let mut i: usize = 0;
    while i < addresses.len()
        invariant
            i <= addresses.len(),
            views(ips@) == all_targets(addresses@.take(i as int)),
            texts(unresolved@) == unresolved_texts(addresses@.take(i as int)),
            private == all_private(views(ips@)),
        decreases addresses.len() - i,
    {
        let address = &addresses[i];
        let parsed_ips = address.targets();
        proof {
            assert(addresses@.take(i + 1).drop_last() =~= addresses@.take(i as int));
            assert(addresses@.take(i + 1).last() == addresses@[i as int]);
        }
        if parsed_ips.len() == 0 {
            unresolved.push(address.text.clone());
            assert(texts(unresolved@) =~= unresolved_texts(addresses@.take(i + 1)));
            assert(views(ips@) =~= all_targets(addresses@.take(i + 1)));
        } else {
            let ghost before = ips@;
            let ghost added = parsed_ips@;
            let mut j: usize = 0;
            assert(views(ips@) =~= views(before) + views(added).take(0));
            while j < parsed_ips.len()
                invariant
                    j <= parsed_ips.len(),
                    parsed_ips@ == added,
                    views(ips@) == views(before) + views(added).take(j as int),
                    private == all_private(views(ips@)),
                decreases parsed_ips.len() - j,
            {
                let ip = parsed_ips[j].ip;
                let label = parsed_ips[j].label.clone();
                let ghost old_ips = ips@;
                ips.push(Target { ip, label });
                let inside = is_private_ip(ip);
                proof {
                    assert(ips@[old_ips.len() as int]@ == added[j as int]@);
                    assert(views(ips@) =~= views(old_ips).push(added[j as int]@));
                    assert(views(added).take(j + 1) =~= views(added).take(j as int).push(
                        added[j as int]@,
                    ));
                    assert(views(ips@) =~= views(before) + views(added).take(j + 1));
                    if private && inside {
                        assert forall|k: int| 0 <= k < views(ips@).len() implies is_private(
                            #[trigger] views(ips@)[k].ip,
                        ) by {
                            if k < old_ips.len() {
                                assert(views(ips@)[k] == views(old_ips)[k]);
                            }
                        }
                    } else if !inside {
                        assert(!is_private(views(ips@)[old_ips.len() as int].ip));
                    } else {
                        let bad = choose|k: int|
                            0 <= k < views(old_ips).len() && !is_private(
                                #[trigger] views(old_ips)[k].ip,
                            );
                        assert(views(ips@)[bad] == views(old_ips)[bad]);
                    }
                }
                private = private && inside;
                j = j + 1;
            }
            assert(views(added).take(added.len() as int) =~= views(added));
            assert(texts(unresolved@) =~= unresolved_texts(addresses@.take(i + 1)));
        }
        i = i + 1;
    }
    assert(addresses@.take(addresses.len() as int) =~= addresses@);
    TargetSet { targets: ips, private, unresolved }
}

} // verus!
