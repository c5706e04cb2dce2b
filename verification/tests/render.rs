use macos_routing_table::route_entry::parse_destination;
use macos_routing_table::Cidr;
use macos_routing_table::Destination;
use macos_routing_table::Entity;
use macos_routing_table::MacAddr;

#[test]
fn render_default() {
    assert_eq!(Entity::Default.to_text(), "default");
}

#[test]
fn render_network() {
    let host = Entity::Cidr(Cidr::V4 {
        addr: u32::from_be_bytes([10, 0, 0, 1]),
        len: 32,
    });
    assert_eq!(host.to_text(), "10.0.0.1");
    let net = Entity::Cidr(Cidr::V4 {
        addr: u32::from_be_bytes([10, 0, 0, 0]),
        len: 8,
    });
    assert_eq!(net.to_text(), "10.0.0.0/8");
    let v6 = Entity::Cidr(Cidr::V6 { addr: 1, len: 128 });
    assert_eq!(v6.to_text(), "::1");
}

#[test]
fn render_link_and_hardware() {
    assert_eq!(Entity::Link("link#4".to_string()).to_text(), "link#4");
    let mac = Entity::Mac(MacAddr {
        bytes: [0xa0, 0xb1, 0x0c, 0xd3, 0xe4, 0xf5],
    });
    assert_eq!(mac.to_text(), "a0:b1:0c:d3:e4:f5");
}

#[test]
fn render_zoned_destination() {
    let d = parse_destination("fe80::1%en0").unwrap();
    // The zone is stored with its percent sign and rendered after another.
    assert_eq!(d.to_text(), "fe80::1%%en0");
    let plain = Destination {
        entity: Entity::Default,
        zone: None,
    };
    assert_eq!(plain.to_text(), "default");
}
