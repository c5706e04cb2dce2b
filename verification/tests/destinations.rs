use macos_routing_table::route_entry::parse_destination;
use macos_routing_table::route_entry::parse_expire;
use macos_routing_table::route_entry::parse_flags;
use macos_routing_table::route_entry::parse_ipv4dest;
use macos_routing_table::route_entry::Error;
use macos_routing_table::route_entry::RouteEntry;
use macos_routing_table::Cidr;
use macos_routing_table::Entity;
use macos_routing_table::Protocol;
use macos_routing_table::RoutingFlag;

fn quad(a: u8, b: u8, c: u8, d: u8) -> u32 {
    u32::from_be_bytes([a, b, c, d])
}

#[test]
fn legacy_shorthand_one_part() {
    assert_eq!(parse_ipv4dest("10").unwrap(), quad(0, 0, 0, 10));
}

#[test]
fn legacy_shorthand_two_parts() {
    assert_eq!(parse_ipv4dest("10.1").unwrap(), quad(10, 0, 0, 1));
}

#[test]
fn legacy_shorthand_three_parts() {
    assert_eq!(parse_ipv4dest("10.1.2").unwrap(), quad(10, 1, 0, 2));
}

#[test]
fn legacy_shorthand_five_parts_is_error() {
    let r = parse_ipv4dest("10.1.2.3.4");
    assert!(matches!(
        r,
        Err(Error::ParseIPv4AddrNComps { n_comps: 5, .. })
    ));
}

#[test]
fn legacy_shorthand_full_quad() {
    assert_eq!(parse_ipv4dest("10.1.2.3").unwrap(), quad(10, 1, 2, 3));
}

#[test]
fn legacy_shorthand_bad_component() {
    assert!(matches!(
        parse_ipv4dest("10.x.2"),
        Err(Error::ParseIPv4AddrBadInt { .. })
    ));
    assert!(matches!(
        parse_ipv4dest("10.999.2"),
        Err(Error::ParseIPv4AddrBadInt { .. })
    ));
}

#[test]
fn destination_default() {
    let d = parse_destination("default").unwrap();
    assert!(matches!(d.entity, Entity::Default));
    assert!(d.zone.is_none());
}

#[test]
fn destination_network_literal() {
    let d = parse_destination("10.0.0.0/8").unwrap();
    assert_eq!(
        match d.entity {
            Entity::Cidr(c) => c,
            other => panic!("expected a network, got {other:?}"),
        },
        Cidr::V4 {
            addr: quad(10, 0, 0, 0),
            len: 8
        }
    );
}

#[test]
fn destination_bad_network_literal() {
    // Host bits under the mask make the literal invalid.
    assert!(matches!(
        parse_destination("10.1.0.0/8"),
        Err(Error::ParseDestination { .. })
    ));
    assert!(matches!(
        parse_destination("abc/8"),
        Err(Error::ParseDestination { .. })
    ));
}

#[test]
fn destination_link_verbatim() {
    let d = parse_destination("link#4").unwrap();
    assert!(matches!(d.entity, Entity::Link(l) if l == "link#4"));
    assert!(d.zone.is_none());
}

#[test]
fn destination_ipv6_host() {
    let d = parse_destination("::1").unwrap();
    assert_eq!(
        match d.entity {
            Entity::Cidr(c) => c,
            other => panic!("expected a network, got {other:?}"),
        },
        Cidr::V6 { addr: 1, len: 128 }
    );
}

#[test]
fn destination_zoned_ipv6() {
    let d = parse_destination("fe80::1%en0").unwrap();
    assert_eq!(d.zone.as_deref(), Some("%en0"));
    assert_eq!(
        match d.entity {
            Entity::Cidr(c) => c,
            other => panic!("expected a network, got {other:?}"),
        },
        Cidr::V6 {
            addr: 0xfe80_0000_0000_0000_0000_0000_0000_0001,
            len: 128
        }
    );
}

#[test]
fn destination_colon_hardware_address() {
    let d = parse_destination("a0:b1:c2:d3:e4:f5").unwrap();
    match d.entity {
        Entity::Mac(m) => assert_eq!(m.bytes, [0xa0, 0xb1, 0xc2, 0xd3, 0xe4, 0xf5]),
        other => panic!("expected a hardware address, got {other:?}"),
    }
}

#[test]
fn destination_dotted_hardware_address() {
    let d = parse_destination("a0.b1.c2.d3.e4.f5").unwrap();
    match d.entity {
        Entity::Mac(m) => assert_eq!(m.bytes, [0xa0, 0xb1, 0xc2, 0xd3, 0xe4, 0xf5]),
        other => panic!("expected a hardware address, got {other:?}"),
    }
}

#[test]
fn destination_bad_hardware_address() {
    assert!(matches!(
        parse_destination("1.2.3.4.5.6"),
        Err(Error::ParseMacAddr { .. })
    ));
    assert!(matches!(
        parse_destination("zz:zz"),
        Err(Error::ParseMacAddr { .. })
    ));
}

#[test]
fn flags_decode_and_collapse() {
    let flags = parse_flags("UGScg");
    assert_eq!(
        flags,
        vec![
            RoutingFlag::Up,
            RoutingFlag::Gateway,
            RoutingFlag::Static,
            RoutingFlag::PrCloning,
            RoutingFlag::Global,
        ]
    );
    // Duplicates collapse; unknown letters decode to Unknown.
    assert_eq!(parse_flags("UU"), vec![RoutingFlag::Up]);
    assert_eq!(parse_flags("q?"), vec![RoutingFlag::Unknown]);
}

#[test]
fn expire_field() {
    assert_eq!(parse_expire("!").unwrap(), None);
    assert_eq!(parse_expire("1200").unwrap(), Some(1200));
    assert_eq!(parse_expire("+7").unwrap(), Some(7));
    assert!(matches!(
        parse_expire("soon"),
        Err(Error::ParseExpiration { .. })
    ));
    assert!(matches!(
        parse_expire("-1"),
        Err(Error::ParseExpiration { .. })
    ));
}

#[test]
fn row_last_binding_wins() {
    let entry = RouteEntry::parse(
        Protocol::V4,
        "default 10.0.0.1 UGS en0 en1",
        &["Destination", "Gateway", "Flags", "Netif", "Netif"],
    )
    .unwrap();
    assert_eq!(entry.net_if, "en1");
}

#[test]
fn row_extra_fields_are_ignored() {
    let entry = RouteEntry::parse(
        Protocol::V4,
        "default 10.0.0.1 UGS en0 extra trailing",
        &["Destination", "Gateway", "Flags", "Netif"],
    )
    .unwrap();
    assert_eq!(entry.net_if, "en0");
    assert!(matches!(entry.dest.entity, Entity::Default));
}
