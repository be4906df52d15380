use portscan::addresses::{
    block_members, is_private_ip, parse_address, parse_addresses, resolve_ip_from_host,
    AddressInput, HostProgress, HostQuery, Lookup, Target,
};
use portscan::ip::{CidrBlock, IpAddress};

fn input(text: &str, system: Option<Lookup>, dns: Option<Lookup>) -> AddressInput {
    AddressInput { text: text.to_string(), system, dns }
}

fn v4_target(a: u8, b: u8, c: u8, d: u8, label: &str) -> Target {
    Target { ip: IpAddress::v4(a, b, c, d), label: label.to_string() }
}

#[test]
fn test_is_private() {
    assert!(is_private_ip(IpAddress::v4(172, 20, 1, 1)));
    assert!(is_private_ip(IpAddress::v4(192, 168, 8, 1)));
    assert!(is_private_ip(IpAddress::v4(10, 0, 1, 1)));
    assert!(is_private_ip(IpAddress::v4(127, 0, 1, 1)));
    assert!(!is_private_ip(IpAddress::v4(8, 8, 8, 8)));
}

#[test]
fn private_addresses_of_each_range() {
    assert!(is_private_ip(IpAddress::v4(10, 1, 2, 3)));
    assert!(is_private_ip(IpAddress::v4(172, 16, 0, 1)));
    assert!(is_private_ip(IpAddress::v4(192, 168, 1, 1)));
    assert!(is_private_ip(IpAddress::v4(127, 0, 0, 1)));
}

#[test]
fn private_ranges_end_where_they_should() {
    assert!(is_private_ip(IpAddress::v4(10, 0, 0, 0)));
    assert!(is_private_ip(IpAddress::v4(10, 255, 255, 255)));
    assert!(!is_private_ip(IpAddress::v4(9, 255, 255, 255)));
    assert!(!is_private_ip(IpAddress::v4(11, 0, 0, 0)));
    assert!(is_private_ip(IpAddress::v4(172, 31, 255, 255)));
    assert!(!is_private_ip(IpAddress::v4(172, 32, 0, 0)));
    assert!(!is_private_ip(IpAddress::v4(172, 15, 255, 255)));
    assert!(is_private_ip(IpAddress::v4(192, 168, 255, 255)));
    assert!(!is_private_ip(IpAddress::v4(192, 169, 0, 0)));
    assert!(!is_private_ip(IpAddress::v4(128, 0, 0, 0)));
}

#[test]
fn no_ipv6_address_is_private() {
    assert!(!is_private_ip(IpAddress::V6(1)));
    assert!(!is_private_ip(IpAddress::V6(0x0A00_0001)));
}

#[test]
fn v4_builds_the_big_endian_integer() {
    assert_eq!(IpAddress::v4(192, 168, 1, 0), IpAddress::V4(0xC0A8_0100));
    assert_eq!(IpAddress::v4(0, 0, 0, 0), IpAddress::V4(0));
    assert_eq!(IpAddress::v4(255, 255, 255, 255), IpAddress::V4(u32::MAX));
}

#[test]
fn ipv4_text_is_dotted_decimal() {
    assert_eq!(IpAddress::v4(192, 168, 1, 0).to_text(), "192.168.1.0");
    assert_eq!(IpAddress::v4(0, 0, 0, 0).to_text(), "0.0.0.0");
    assert_eq!(IpAddress::v4(255, 255, 255, 255).to_text(), "255.255.255.255");
    assert_eq!(IpAddress::v4(10, 0, 100, 9).to_text(), "10.0.100.9");
}

#[test]
fn ipv6_text_is_the_compressed_form() {
    assert_eq!(IpAddress::V6(1).to_text(), "::1");
    assert_eq!(IpAddress::V6(0x2001_0db8_0000_0000_0000_0000_0000_0001).to_text(), "2001:db8::1");
    assert_eq!(IpAddress::V6(0).to_text(), "::");
}

#[test]
fn block_contains_its_range_only() {
    let block = CidrBlock::V4 { network: 0xC0A8_0100, prefix_len: 30 };
    assert_eq!(block.host_span(), 3);
    assert!(block.contains_ip(IpAddress::v4(192, 168, 1, 0)));
    assert!(block.contains_ip(IpAddress::v4(192, 168, 1, 3)));
    assert!(!block.contains_ip(IpAddress::v4(192, 168, 1, 4)));
    assert!(!block.contains_ip(IpAddress::v4(192, 168, 0, 255)));
    assert!(!block.contains_ip(IpAddress::V6(0xC0A8_0100)));
    let all = CidrBlock::V6 { network: 0, prefix_len: 0 };
    assert_eq!(all.host_span(), u128::MAX);
    assert!(all.contains_ip(IpAddress::V6(u128::MAX)));
    assert!(!all.contains_ip(IpAddress::V4(0)));
}

#[test]
fn block_validity() {
    assert!(CidrBlock::V4 { network: 0xC0A8_0100, prefix_len: 30 }.is_well_formed());
    assert!(CidrBlock::V4 { network: 0xC0A8_0100, prefix_len: 24 }.is_well_formed());
    assert!(!CidrBlock::V4 { network: 0xC0A8_0100, prefix_len: 23 }.is_well_formed());
    assert!(!CidrBlock::V4 { network: 0, prefix_len: 33 }.is_well_formed());
    assert!(CidrBlock::V4 { network: 0, prefix_len: 0 }.is_well_formed());
    assert!(!CidrBlock::V4 { network: 1, prefix_len: 0 }.is_well_formed());
    assert!(CidrBlock::V4 { network: u32::MAX, prefix_len: 32 }.is_well_formed());
    assert!(CidrBlock::V6 { network: 0, prefix_len: 0 }.is_well_formed());
    assert!(!CidrBlock::V6 { network: 1 << 127, prefix_len: 0 }.is_well_formed());
    assert!(CidrBlock::V6 { network: 1 << 127, prefix_len: 1 }.is_well_formed());
    assert!(CidrBlock::V6 { network: u128::MAX, prefix_len: 128 }.is_well_formed());
    assert!(!CidrBlock::V6 { network: 0, prefix_len: 129 }.is_well_formed());
}

#[test]
fn block_members_ascend_from_the_network_address() {
    let block = CidrBlock::V4 { network: 0x0A00_00FE, prefix_len: 31 };
    assert_eq!(
        block_members(&block),
        vec![v4_target(10, 0, 0, 254, "10.0.0.254"), v4_target(10, 0, 0, 255, "10.0.0.255")]
    );
    let top = CidrBlock::V4 { network: u32::MAX, prefix_len: 32 };
    assert_eq!(block_members(&top), vec![v4_target(255, 255, 255, 255, "255.255.255.255")]);
    let block = CidrBlock::V4 { network: 0xAC10_0000, prefix_len: 22 };
    let members = block_members(&block);
    assert_eq!(members.len(), 1024);
    assert_eq!(members[1023], v4_target(172, 16, 3, 255, "172.16.3.255"));
    let last = CidrBlock::V6 { network: u128::MAX - 1, prefix_len: 127 };
    let members = block_members(&last);
    assert_eq!(members.len(), 2);
    assert_eq!(members[1].ip, IpAddress::V6(u128::MAX));
    assert_eq!(members[1].label, "ffff:ffff:ffff:ffff:ffff:ffff:ffff:ffff");
}

#[test]
fn cidr_expands_to_every_address_with_its_own_label() {
    let members = parse_address("192.168.1.0/30").unwrap();
    assert_eq!(
        members,
        vec![
            v4_target(192, 168, 1, 0, "192.168.1.0"),
            v4_target(192, 168, 1, 1, "192.168.1.1"),
            v4_target(192, 168, 1, 2, "192.168.1.2"),
            v4_target(192, 168, 1, 3, "192.168.1.3"),
        ]
    );
}

#[test]
fn cidr_with_host_bits_starts_at_the_network_address() {
    let members = parse_address("10.0.0.7/31").unwrap();
    assert_eq!(members, vec![v4_target(10, 0, 0, 6, "10.0.0.6"), v4_target(10, 0, 0, 7, "10.0.0.7")]);
}

#[test]
fn bare_address_is_a_block_of_one() {
    assert_eq!(parse_address("10.1.2.3").unwrap(), vec![v4_target(10, 1, 2, 3, "10.1.2.3")]);
    assert_eq!(
        parse_address("0:0:0:0:0:0:0:1").unwrap(),
        vec![Target { ip: IpAddress::V6(1), label: "::1".to_string() }]
    );
}

#[test]
fn ipv6_cidr_expands_upwards() {
    let members = parse_address("2001:db8::/127").unwrap();
    assert_eq!(
        members,
        vec![
            Target {
                ip: IpAddress::V6(0x2001_0db8_0000_0000_0000_0000_0000_0000),
                label: "2001:db8::".to_string()
            },
            Target {
                ip: IpAddress::V6(0x2001_0db8_0000_0000_0000_0000_0000_0001),
                label: "2001:db8::1".to_string()
            },
        ]
    );
}

#[test]
fn host_names_are_no_cidr() {
    assert_eq!(parse_address("example.com"), None);
    assert_eq!(parse_address("localhost:80"), None);
    assert_eq!(parse_address("10.0.0.0/33"), None);
    assert_eq!(parse_address(""), None);
}

#[test]
fn host_resolution_asks_the_system_first() {
    assert_eq!(resolve_ip_from_host("example.com", &None, &None), HostProgress::Ask(HostQuery::System));
    assert_eq!(
        resolve_ip_from_host("example.com", &None, &Some(Lookup::Found(vec![IpAddress::v4(1, 2, 3, 4)]))),
        HostProgress::Ask(HostQuery::System)
    );
}

#[test]
fn host_resolution_takes_the_first_system_address() {
    let system = Some(Lookup::Found(vec![IpAddress::v4(93, 184, 216, 34), IpAddress::v4(1, 1, 1, 1)]));
    assert_eq!(
        resolve_ip_from_host("example.com", &system, &None),
        HostProgress::Resolved(v4_target(93, 184, 216, 34, "example.com"))
    );
}

#[test]
fn host_resolution_falls_back_to_dns_only_on_failure() {
    assert_eq!(
        resolve_ip_from_host("example.com", &Some(Lookup::Failed), &None),
        HostProgress::Ask(HostQuery::Dns)
    );
    assert_eq!(
        resolve_ip_from_host("example.com", &Some(Lookup::Found(vec![])), &None),
        HostProgress::Unresolved
    );
    assert_eq!(
        resolve_ip_from_host(
            "example.com",
            &Some(Lookup::Found(vec![])),
            &Some(Lookup::Found(vec![IpAddress::v4(1, 2, 3, 4)]))
        ),
        HostProgress::Unresolved
    );
}

#[test]
fn host_resolution_takes_the_first_dns_address() {
    let dns = Some(Lookup::Found(vec![IpAddress::V6(7), IpAddress::v4(1, 1, 1, 1)]));
    assert_eq!(
        resolve_ip_from_host("example.com", &Some(Lookup::Failed), &dns),
        HostProgress::Resolved(Target { ip: IpAddress::V6(7), label: "example.com".to_string() })
    );
    assert_eq!(
        resolve_ip_from_host("example.com", &Some(Lookup::Failed), &Some(Lookup::Failed)),
        HostProgress::Unresolved
    );
    assert_eq!(
        resolve_ip_from_host("example.com", &Some(Lookup::Failed), &Some(Lookup::Found(vec![]))),
        HostProgress::Unresolved
    );
}

#[test]
fn pending_query_follows_the_answers() {
    assert_eq!(AddressInput::new("10.0.0.0/24".to_string()).pending(), None);
    let mut host = AddressInput::new("example.com".to_string());
    assert_eq!(host.pending(), Some(HostQuery::System));
    host.system = Some(Lookup::Failed);
    assert_eq!(host.pending(), Some(HostQuery::Dns));
    host.dns = Some(Lookup::Found(vec![IpAddress::v4(1, 2, 3, 4)]));
    assert_eq!(host.pending(), None);
    assert_eq!(host.targets(), vec![v4_target(1, 2, 3, 4, "example.com")]);
}

#[test]
fn targets_come_in_input_order() {
    let inputs = vec![
        input("example.com", Some(Lookup::Found(vec![IpAddress::v4(93, 184, 216, 34)])), None),
        input("192.168.1.0/31", None, None),
        input("nowhere.invalid", Some(Lookup::Failed), Some(Lookup::Failed)),
        input("10.0.0.1", None, None),
    ];
    let set = parse_addresses(&inputs);
    assert_eq!(
        set.targets,
        vec![
            v4_target(93, 184, 216, 34, "example.com"),
            v4_target(192, 168, 1, 0, "192.168.1.0"),
            v4_target(192, 168, 1, 1, "192.168.1.1"),
            v4_target(10, 0, 0, 1, "10.0.0.1"),
        ]
    );
    assert_eq!(set.unresolved, vec!["nowhere.invalid".to_string()]);
    assert!(!set.private);
}

#[test]
fn target_set_is_private_when_every_member_is() {
    let inputs = vec![
        input("192.168.1.0/30", None, None),
        input("printer.lan", Some(Lookup::Found(vec![IpAddress::v4(10, 1, 2, 3)])), None),
        input("127.0.0.1", None, None),
    ];
    let set = parse_addresses(&inputs);
    assert_eq!(set.targets.len(), 6);
    assert!(set.private);
    assert!(set.unresolved.is_empty());
}

#[test]
fn one_public_member_makes_the_set_public() {
    let inputs = vec![input("10.0.0.1", None, None), input("8.8.8.8", None, None)];
    assert!(!parse_addresses(&inputs).private);
    let inputs = vec![input("8.8.8.8", None, None), input("10.0.0.1", None, None)];
    assert!(!parse_addresses(&inputs).private);
}

#[test]
fn empty_target_set_is_private() {
    let set = parse_addresses(&vec![]);
    assert!(set.targets.is_empty());
    assert!(set.private);
    let set = parse_addresses(&vec![input("nowhere.invalid", Some(Lookup::Failed), Some(Lookup::Failed))]);
    assert!(set.targets.is_empty());
    assert!(set.private);
    assert_eq!(set.unresolved, vec!["nowhere.invalid".to_string()]);
}

#[test]
fn unasked_host_counts_as_unresolved() {
    let set = parse_addresses(&vec![input("example.com", None, None)]);
    assert!(set.targets.is_empty());
    assert_eq!(set.unresolved, vec!["example.com".to_string()]);
}
