use macos_routing_table::route_entry::RouteEntry;
use macos_routing_table::Cidr;
use macos_routing_table::Destination;
use macos_routing_table::Entity;
use macos_routing_table::IpAddr;
use macos_routing_table::MacAddr;
use macos_routing_table::Protocol;
use macos_routing_table::RoutingTable;

fn v4(a: u8, b: u8, c: u8, d: u8) -> IpAddr {
    IpAddr::V4(u32::from_be_bytes([a, b, c, d]))
}

fn entry(dest: Entity, gateway: Entity, net_if: &str) -> RouteEntry {
    RouteEntry {
        proto: Protocol::V4,
        dest: Destination {
            entity: dest,
            zone: None,
        },
        gateway: Destination {
            entity: gateway,
            zone: None,
        },
        flags: vec![],
        net_if: net_if.to_string(),
        expires: None,
    }
}

fn v4_net(a: u8, b: u8, c: u8, d: u8, len: u8) -> Entity {
    Entity::Cidr(Cidr::V4 {
        addr: u32::from_be_bytes([a, b, c, d]),
        len,
    })
}

#[test]
fn longest_prefix_wins() {
    let input = "Internet:\n\
                 Destination Gateway Flags Netif Expire\n\
                 10.0.0.0/8 10.0.0.1 UGS en0 !\n\
                 10.1.0.0/16 10.1.0.1 UGS en1 !\n";
    let rt = RoutingTable::from_netstat_output(input).expect("parse routing table");
    let hit = rt.find_route_entry(v4(10, 1, 2, 3)).expect("a route");
    assert_eq!(hit.net_if, "en1");
    match &hit.dest.entity {
        Entity::Cidr(Cidr::V4 { len, .. }) => assert_eq!(*len, 16),
        other => panic!("expected a network destination, got {other:?}"),
    }
    // An address under the /8 alone falls back to the shorter prefix.
    let hit = rt.find_route_entry(v4(10, 2, 0, 1)).expect("a route");
    assert_eq!(hit.net_if, "en0");
}

#[test]
fn default_route_fallback() {
    let input = "Internet:\n\
                 Destination Gateway Flags Netif Expire\n\
                 default 192.168.1.1 UGScg en0 !\n";
    let rt = RoutingTable::from_netstat_output(input).expect("parse routing table");
    let hit = rt.find_route_entry(v4(8, 8, 8, 8)).expect("a route");
    assert_eq!(hit.net_if, "en0");
    assert!(matches!(hit.dest.entity, Entity::Default));
    // A V6 address never matches a V4-tagged default route.
    assert!(rt.find_route_entry(IpAddr::V6(0x2001u128 << 112)).is_none());
}

#[test]
fn specificity_ranking() {
    let hardware = entry(
        Entity::Mac(MacAddr {
            bytes: [0, 1, 2, 3, 4, 5],
        }),
        v4_net(10, 0, 0, 1, 32),
        "en0",
    );
    let link = entry(Entity::Link("link#4".to_string()), v4_net(10, 0, 0, 1, 32), "en1");
    let net = entry(v4_net(10, 0, 0, 0, 24), v4_net(10, 0, 0, 1, 32), "en2");
    let deflt = entry(Entity::Default, v4_net(10, 0, 0, 1, 32), "en3");

    // The hardware-resolved entry outranks every other kind.
    assert_eq!(hardware.most_precise(&link).net_if, "en0");
    assert_eq!(link.most_precise(&hardware).net_if, "en0");
    assert_eq!(net.most_precise(&hardware).net_if, "en0");
    // The link entry outranks networks and defaults.
    assert_eq!(link.most_precise(&net).net_if, "en1");
    assert_eq!(net.most_precise(&link).net_if, "en1");
    // Any network outranks the default route.
    assert_eq!(net.most_precise(&deflt).net_if, "en2");
    assert_eq!(deflt.most_precise(&net).net_if, "en2");
    // Folding all three candidate kinds yields the hardware entry.
    assert_eq!(
        net.most_precise(&link).most_precise(&hardware).net_if,
        "en0"
    );
    // Ties between equal prefixes keep the earlier entry.
    let net2 = entry(v4_net(10, 0, 1, 0, 24), v4_net(10, 0, 0, 1, 32), "en4");
    assert_eq!(net.most_precise(&net2).net_if, "en2");
}

#[test]
fn candidate_filter() {
    // A hardware or link *destination* is never a candidate; a default
    // route with a link or hardware gateway always is.
    let hardware = entry(
        Entity::Mac(MacAddr {
            bytes: [0, 1, 2, 3, 4, 5],
        }),
        v4_net(10, 0, 0, 1, 32),
        "en0",
    );
    assert!(!hardware.contains(v4(10, 0, 0, 1)));
    let link = entry(Entity::Link("link#4".to_string()), v4_net(10, 0, 0, 1, 32), "en1");
    assert!(!link.contains(v4(10, 0, 0, 1)));
    let local = entry(Entity::Default, Entity::Link("link#4".to_string()), "en2");
    assert!(local.contains(v4(10, 0, 0, 1)));
    assert!(local.contains(IpAddr::V6(1)));
    let net = entry(v4_net(10, 0, 0, 0, 24), v4_net(10, 0, 0, 1, 32), "en3");
    assert!(net.contains(v4(10, 0, 0, 77)));
    assert!(!net.contains(v4(10, 0, 1, 77)));
    assert!(!net.contains(IpAddr::V6(1)));
}

#[test]
fn default_gateway_index() {
    let input = "Internet:\n\
                 Destination Gateway Flags Netif Expire\n\
                 default 10.0.0.1 UGScg en0 !\n\
                 default 10.0.0.2 UGScg en0 !\n\
                 default 172.16.0.1 UGScg en1 !\n\
                 default link#4 UGS en2 !\n\
                 10.0.0.0/24 10.0.0.1 UGS en3 !\n\
                 Internet6:\n\
                 Destination Gateway Flags Netif Expire\n\
                 default fe80::1%en0 UGcg en0 !\n";
    let rt = RoutingTable::from_netstat_output(input).expect("parse routing table");
    // Every default route with a single-host network gateway contributes,
    // in parse order, under its own interface.
    let en0 = rt.default_gateways_for_netif("en0").expect("gateways");
    assert_eq!(
        *en0,
        vec![
            v4(10, 0, 0, 1),
            v4(10, 0, 0, 2),
            IpAddr::V6(0xfe80_0000_0000_0000_0000_0000_0000_0001),
        ]
    );
    let en1 = rt.default_gateways_for_netif("en1").expect("gateways");
    assert_eq!(*en1, vec![v4(172, 16, 0, 1)]);
    // A default route with a link gateway contributes nothing, nor does a
    // non-default route; unknown interfaces yield nothing at all.
    assert!(rt.default_gateways_for_netif("en2").is_none());
    assert!(rt.default_gateways_for_netif("en3").is_none());
    assert!(rt.default_gateways_for_netif("lo0").is_none());
}
