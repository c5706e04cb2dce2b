use macos_routing_table::route_entry;
use macos_routing_table::routing_table::Error;
use macos_routing_table::Destination;
use macos_routing_table::Entity;
use macos_routing_table::IpAddr;
use macos_routing_table::Protocol;
use macos_routing_table::RoutingTable;

const SAMPLE_TABLE: &str = "\
Routing tables

Internet:
Destination        Gateway            Flags               Netif Expire
default            10.0.0.1           UGScg                 en0
10.0.0.0/24        link#4             UCS                   en0
10.0.0.1           a0:b1:c2:d3:e4:f5  UHLWIir               en0   1187
10.0.0.99          127.0.0.1          UHS                   lo0
127.0.0.1          127.0.0.1          UH                    lo0
169.254            link#4             UCS                   en0      !
224.0.0.0/4        link#4             UmCS                  en0      !
255.255.255.255/32 link#4             UCS                   en0      !

Internet6:
Destination                             Gateway                         Flags         Netif Expire
default                                 fe80::1%en0                     UGcg            en0
::1                                     ::1                             UHL             lo0
fe80::%lo0/64                           fe80::1%lo0                     UcI             lo0
ff01::%lo0/32                           ::1                             UmCI            lo0
";

fn v4(a: u8, b: u8, c: u8, d: u8) -> IpAddr {
    IpAddr::V4(u32::from_be_bytes([a, b, c, d]))
}

#[test]
fn good_table() {
    let rt = RoutingTable::from_netstat_output(SAMPLE_TABLE).expect("parse routing table");
    let entry = rt.find_route_entry(v4(1, 1, 1, 1));
    assert!(entry.is_some());
    let entry = entry.unwrap();
    assert!(matches!(
        entry.dest,
        Destination {
            entity: Entity::Default,
            zone: None
        }
    ));
    // Coverage of debug formatting
    let _ = format!("{rt:?}");
}

#[test]
fn missing_headers() {
    for section in ["", "6"] {
        let input = format!("{SAMPLE_TABLE}Internet{section}:\n");
        let result = RoutingTable::from_netstat_output(&input);
        assert!(matches!(result, Err(Error::NetstatParseNoHeaders(_))));
        // Coverage of debug formatting
        let _ = format!("{:?}", result.unwrap_err());
    }
}

#[test]
fn stray_entry() {
    let input = format!("extra stuff\n{SAMPLE_TABLE}");
    let result = RoutingTable::from_netstat_output(&input);
    assert!(matches!(result, Err(Error::EntryBeforeProto)));
    // Coverage of debug formatting
    let _ = format!("{:?}", result.unwrap_err());
}

#[test]
fn bad_entry() {
    let input = format!("{SAMPLE_TABLE}How now brown cow.\n");
    let result = RoutingTable::from_netstat_output(&input);
    assert!(matches!(
        result,
        Err(Error::RouteEntryParse(
            route_entry::Error::ParseIPv4AddrBadInt { .. }
        ))
    ));
    // Coverage of debug formatting
    let _ = format!("{:?}", result.unwrap_err());
}

#[test]
fn mixed_snapshot_counts() {
    let rt = RoutingTable::from_netstat_output(SAMPLE_TABLE).expect("parse routing table");
    let routes = rt.routes();
    assert_eq!(routes.len(), 12);
    let v4_count = routes
        .iter()
        .filter(|r| matches!(r.proto, Protocol::V4))
        .count();
    let v6_count = routes
        .iter()
        .filter(|r| matches!(r.proto, Protocol::V6))
        .count();
    assert_eq!(v4_count, 8);
    assert_eq!(v6_count, 4);
}

#[test]
fn mixed_snapshot_features() {
    let rt = RoutingTable::from_netstat_output(SAMPLE_TABLE).expect("parse routing table");
    let routes = rt.routes();
    // The neighbour-derived entry carries a hardware gateway and an expiry.
    let arp = &routes[2];
    match &arp.gateway.entity {
        Entity::Mac(m) => assert_eq!(m.bytes, [0xa0, 0xb1, 0xc2, 0xd3, 0xe4, 0xf5]),
        other => panic!("expected a hardware gateway, got {other:?}"),
    }
    assert_eq!(arp.expires, Some(1187));
    // The link-layer gateway entries parse verbatim.
    assert!(matches!(&routes[1].gateway.entity, Entity::Link(l) if l == "link#4"));
    // The zoned IPv6 destination keeps its zone, leading marker included.
    let zoned = &routes[10];
    assert_eq!(zoned.dest.zone.as_deref(), Some("%lo0"));
    // A zone with a bit-length override re-reads the rendered network and
    // the bit count as one token, per the legacy notation rules.
    match &zoned.dest.entity {
        Entity::Cidr(c) => {
            assert_eq!(
                *c,
                macos_routing_table::Cidr::V6 {
                    addr: 0xfe80_0000_0000_0000_0000_0000_0000_0064,
                    len: 128
                }
            );
        }
        other => panic!("expected a network destination, got {other:?}"),
    }
    // The legacy shorthand destination packed as inet_addr does.
    match &routes[5].dest.entity {
        Entity::Cidr(c) => assert_eq!(
            *c,
            macos_routing_table::Cidr::V4 {
                addr: u32::from_be_bytes([169, 0, 0, 254]),
                len: 32
            }
        ),
        other => panic!("expected a network destination, got {other:?}"),
    }
    // The `!` expiry means no expiration.
    assert_eq!(routes[5].expires, None);
}

#[test]
fn marker_after_marker_is_missing_headers() {
    let input = "Internet:\nInternet6:\nDestination Gateway Flags Netif Expire\n";
    let result = RoutingTable::from_netstat_output(input);
    assert!(matches!(result, Err(Error::NetstatParseNoHeaders(s)) if s == "Internet:"));
}

#[test]
fn stray_entry_minimal() {
    let result = RoutingTable::from_netstat_output("x y z\n");
    assert!(matches!(result, Err(Error::EntryBeforeProto)));
}

#[test]
fn missing_columns_are_errors() {
    let no_dest = "Internet:\nGateway Flags Netif\n10.0.0.1 UGS en0\n";
    assert!(matches!(
        RoutingTable::from_netstat_output(no_dest),
        Err(Error::RouteEntryParse(
            route_entry::Error::MissingDestination
        ))
    ));
    let no_gw = "Internet:\nDestination Flags Netif\ndefault UGS en0\n";
    assert!(matches!(
        RoutingTable::from_netstat_output(no_gw),
        Err(Error::RouteEntryParse(route_entry::Error::MissingGateway))
    ));
    let no_if = "Internet:\nDestination Gateway Flags\ndefault 10.0.0.1 UGS\n";
    assert!(matches!(
        RoutingTable::from_netstat_output(no_if),
        Err(Error::RouteEntryParse(route_entry::Error::MissingInterface))
    ));
}

#[test]
fn bad_expiration_is_error() {
    let input = "Internet:\nDestination Gateway Flags Netif Expire\ndefault 10.0.0.1 UGS en0 soon\n";
    assert!(matches!(
        RoutingTable::from_netstat_output(input),
        Err(Error::RouteEntryParse(
            route_entry::Error::ParseExpiration { .. }
        ))
    ));
}

#[test]
fn unknown_headers_are_ignored() {
    let input = "Internet:\nDestination Gateway Flags Refs Use Netif Expire\n\
                 default 10.0.0.1 UGS 12 34 en0 !\n";
    let rt = RoutingTable::from_netstat_output(input).expect("parse routing table");
    let routes = rt.routes();
    assert_eq!(routes.len(), 1);
    assert_eq!(routes[0].net_if, "en0");
    assert_eq!(routes[0].expires, None);
}
