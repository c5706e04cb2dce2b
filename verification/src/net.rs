//! Plain-value models of IP addresses, CIDR networks and hardware
//! addresses, with the containment and specificity arithmetic the
//! resolver needs, plus the trusted text parsers of the `cidr` and
//! `mac_address` crates that turn tokens into these values.

use vstd::prelude::*;

verus! {

/// An IPv4 or IPv6 address as its raw big-endian bits.
#[derive(Debug, Clone, Copy, PartialEq, Eq, Structural)]
pub enum IpAddr {
    V4(u32),
    V6(u128),
}

impl IpAddr {
    pub open spec fn is_v4(self) -> bool {
        self is V4
    }

    pub open spec fn is_v6(self) -> bool {
        self is V6
    }
}

/// A concrete IPv4 or IPv6 network: the network's first address plus a
/// prefix length. A single host is a network of full prefix length.
///
/// The model deliberately has no address-family-agnostic wildcard: every
/// value names a concrete family, so a prefix length is always present.
#[derive(Debug, Clone, Copy, PartialEq, Eq, Structural)]
pub enum Cidr {
    V4 { addr: u32, len: u8 },
    V6 { addr: u128, len: u8 },
}

/// A 6-byte hardware (MAC) address.
#[derive(Debug, Clone, Copy, PartialEq, Eq)]
pub struct MacAddr {
    pub bytes: [u8; 6],
}

impl Cidr {
    /// Well-formed: the prefix length fits the family and the bits past
    /// the prefix are zero (the stored address is the network's first).
    pub open spec fn wf(self) -> bool {
        match self {
            Cidr::V4 { addr, len } => len <= 32 && addr == (addr >> ((32 - len) as u32)) << ((32
                - len) as u32),
            Cidr::V6 { addr, len } => len <= 128 && addr == (addr >> ((128 - len) as u128)) << ((
            128 - len) as u128),
        }
    }

    pub open spec fn spec_network_length(self) -> u8 {
        match self {
            Cidr::V4 { addr, len } => len,
            Cidr::V6 { addr, len } => len,
        }
    }

    /// Length in bits of the shared prefix of the contained addresses.
    pub fn network_length(&self) -> (r: u8)
        ensures
            r == self.spec_network_length(),
    {
        match self {
            Cidr::V4 { addr, len } => *len,
            Cidr::V6 { addr, len } => *len,
        }
    }

    /// Whether the network holds exactly one address.
    pub open spec fn spec_is_host_address(self) -> bool {
        match self {
            Cidr::V4 { addr, len } => len == 32,
            Cidr::V6 { addr, len } => len == 128,
        }
    }

    pub fn is_host_address(&self) -> (r: bool)
        ensures
            r == self.spec_is_host_address(),
    {
        match self {
            Cidr::V4 { addr, len } => *len == 32,
            Cidr::V6 { addr, len } => *len == 128,
        }
    }

    /// The first address of the network (for a host network, the host).
    pub open spec fn spec_first_address(self) -> IpAddr {
        match self {
            Cidr::V4 { addr, len } => IpAddr::V4(addr),
            Cidr::V6 { addr, len } => IpAddr::V6(addr),
        }
    }

    pub fn first_address(&self) -> (r: IpAddr)
        ensures
            r == self.spec_first_address(),
    {
        match self {
            Cidr::V4 { addr, len } => IpAddr::V4(*addr),
            Cidr::V6 { addr, len } => IpAddr::V6(*addr),
        }
    }

    /// A network holding exactly the given address.
    pub fn new_host(a: IpAddr) -> (r: Cidr)
        ensures
            r == Cidr::spec_new_host(a),
            r.wf(),
            r.spec_is_host_address(),
    {
        let r = match a {
            IpAddr::V4(addr) => Cidr::V4 { addr, len: 32 },
            IpAddr::V6(addr) => Cidr::V6 { addr, len: 128 },
        };
        proof {
            match a {
                IpAddr::V4(addr) => {
                    assert(addr == (addr >> 0u32) << 0u32) by (bit_vector);
                },
                IpAddr::V6(addr) => {
                    assert(addr == (addr >> 0u128) << 0u128) by (bit_vector);
                },
            }
        }
        r
    }

    pub open spec fn spec_new_host(a: IpAddr) -> Cidr {
        match a {
            IpAddr::V4(addr) => Cidr::V4 { addr, len: 32 },
            IpAddr::V6(addr) => Cidr::V6 { addr, len: 128 },
        }
    }

    /// Family-correct containment: the address belongs to the network's
    /// family and agrees with it on the first `len` bits.
    pub open spec fn spec_contains(self, a: IpAddr) -> bool {
        match (self, a) {
            (Cidr::V4 { addr, len }, IpAddr::V4(x)) => if len == 0 {
                true
            } else if len >= 32 {
                x == addr
            } else {
                x >> ((32 - len) as u32) == addr >> ((32 - len) as u32)
            },
            (Cidr::V6 { addr, len }, IpAddr::V6(x)) => if len == 0 {
                true
            } else if len >= 128 {
                x == addr
            } else {
                x >> ((128 - len) as u128) == addr >> ((128 - len) as u128)
            },
            _ => false,
        }
    }

    pub fn contains(&self, a: &IpAddr) -> (r: bool)
        ensures
            r == self.spec_contains(*a),
    {
        match (self, a) {
            (Cidr::V4 { addr, len }, IpAddr::V4(x)) => {
                if *len == 0 {
                    true
                } else if *len >= 32 {
                    *x == *addr
                } else {
                    (*x >> ((32 - *len) as u32)) == (*addr >> ((32 - *len) as u32))
                }
            },
            (Cidr::V6 { addr, len }, IpAddr::V6(x)) => {
                if *len == 0 {
                    true
                } else if *len >= 128 {
                    *x == *addr
                } else {
                    (*x >> ((128 - *len) as u128)) == (*addr >> ((128 - *len) as u128))
                }
            },
            _ => false,
        }
    }
}

/// The lowercase hexadecimal digit of a value below sixteen.
pub open spec fn hex_digit(v: u8) -> char {
    if v < 10 {
        ((v + 48) as u8) as char
    } else {
        ((v + 87) as u8) as char
    }
}

/// A byte as two lowercase hexadecimal digits.
pub open spec fn byte_hex(b: u8) -> Seq<char> {
    seq![hex_digit(b / 16), hex_digit(b % 16)]
}

/// A hardware address as six colon-separated hex pairs.
pub open spec fn mac_text_of(m: MacAddr) -> Seq<char> {
    byte_hex(m.bytes@[0]) + seq![':'] + byte_hex(m.bytes@[1]) + seq![':'] + byte_hex(m.bytes@[2])
        + seq![':'] + byte_hex(m.bytes@[3]) + seq![':'] + byte_hex(m.bytes@[4]) + seq![':']
        + byte_hex(m.bytes@[5])
}

fn hex_digit_exec(v: u8) -> (c: char)
    requires
        v < 16,
    ensures
        c == hex_digit(v),
{
    if v < 10 {
        (v + 48) as char
    } else {
        (v + 87) as char
    }
}

fn push_byte_hex(s: &mut String, b: u8)
    ensures
        final(s)@ == old(s)@ + byte_hex(b),
{
    crate::text::push_char(s, hex_digit_exec(b / 16));
    crate::text::push_char(s, hex_digit_exec(b % 16));
    proof {
        assert(final(s)@ =~= old(s)@ + byte_hex(b));
    }
}

impl MacAddr {
    /// Render as six colon-separated lowercase hex pairs.
    pub fn to_text(&self) -> (r: String)
        ensures
            r@ == mac_text_of(*self),
    {
        let mut r = String::new();
        push_byte_hex(&mut r, self.bytes[0]);
        crate::text::push_char(&mut r, ':');
        push_byte_hex(&mut r, self.bytes[1]);
        crate::text::push_char(&mut r, ':');
        push_byte_hex(&mut r, self.bytes[2]);
        crate::text::push_char(&mut r, ':');
        push_byte_hex(&mut r, self.bytes[3]);
        crate::text::push_char(&mut r, ':');
        push_byte_hex(&mut r, self.bytes[4]);
        crate::text::push_char(&mut r, ':');
        push_byte_hex(&mut r, self.bytes[5]);
        proof {
            assert(r@ =~= mac_text_of(*self));
        }
        r
    }
}

/// What `cidr::AnyIpCidr::from_str` makes of a token: the network and
/// prefix length for a concrete IPv4/IPv6 network or host, `None` when
/// the token does not parse (or denotes the family-agnostic wildcard
/// `any`, which this model excludes).
pub uninterp spec fn cidr_of(s: Seq<char>) -> Option<Cidr>;

/// What the `cidr` crate's `Display` prints for a well-formed network:
/// the address alone for a host, `address/len` otherwise.
pub uninterp spec fn cidr_text_of(c: Cidr) -> Seq<char>;

/// What `core::net::Ipv6Addr::from_str` makes of a token: the address
/// bits, or `None` when the token is not a textual IPv6 address.
pub uninterp spec fn ipv6_host_of(s: Seq<char>) -> Option<u128>;

/// What `mac_address::MacAddress::from_str` makes of a token: six bytes
/// parsed from `aa:bb:cc:dd:ee:ff`-style notation, or `None` when the
/// token is not a textual hardware address.
pub uninterp spec fn mac_of(s: Seq<char>) -> Option<MacAddr>;

/// Relies on `cidr::AnyIpCidr::from_str`: parses an IP network or host
/// token and, on success, yields the network's first address and prefix
/// length, with the bits past the prefix zero. The crate's wildcard
/// result (`any`) is reported as an error, since this model holds only
/// concrete networks; the error string renders the crate's parse error.
#[verifier::external_body]
pub(crate) fn parse_cidr_text(s: &str) -> (r: Result<Cidr, String>)
    ensures
        match r {
            Ok(c) => cidr_of(s@) == Some(c) && c.wf(),
            Err(_) => cidr_of(s@) is None,
        },
{
    match s.parse::<cidr::AnyIpCidr>() {
        Ok(cidr::AnyIpCidr::V4(c)) => Ok(
            Cidr::V4 { addr: u32::from(c.first_address()), len: c.network_length() },
        ),
        Ok(cidr::AnyIpCidr::V6(c)) => Ok(
            Cidr::V6 { addr: u128::from(c.first_address()), len: c.network_length() },
        ),
        Ok(cidr::AnyIpCidr::Any) => Err(format!("network {s:?} names no address family")),
        Err(e) => Err(format!("{e}")),
    }
}

/// Relies on the `Display` impls of `cidr::Ipv4Cidr` / `cidr::Ipv6Cidr`
/// (also behind `cidr::AnyIpCidr`): renders a network as text. Requires
/// a well-formed network, which `Ipv4Cidr::new` / `Ipv6Cidr::new` accept
/// by construction (prefix length in range, bits past the prefix zero).
#[verifier::external_body]
pub(crate) fn cidr_to_text(c: &Cidr) -> (r: String)
    requires
        c.wf(),
    ensures
        r@ == cidr_text_of(*c),
{
    match *c {
        Cidr::V4 { addr, len } => {
            let net = cidr::Ipv4Cidr::new(addr.into(), len).unwrap();
            format!("{net}")
        },
        Cidr::V6 { addr, len } => {
            let net = cidr::Ipv6Cidr::new(addr.into(), len).unwrap();
            format!("{net}")
        },
    }
}

/// Relies on `core::net::Ipv6Addr::from_str`: parses a textual IPv6
/// address into its 128 address bits.
#[verifier::external_body]
pub(crate) fn parse_ipv6_text(s: &str) -> (r: Option<u128>)
    ensures
        r == ipv6_host_of(s@),
{
    match s.parse::<core::net::Ipv6Addr>() {
        Ok(a) => Some(u128::from(a)),
        Err(_) => None,
    }
}

/// Relies on `mac_address::MacAddress::from_str`: parses a textual
/// hardware address into its six bytes; the error string renders the
/// crate's parse error.
#[verifier::external_body]
pub(crate) fn parse_mac_text(s: &str) -> (r: Result<MacAddr, String>)
    ensures
        match r {
            Ok(m) => mac_of(s@) == Some(m),
            Err(_) => mac_of(s@) is None,
        },
{
    match s.parse::<mac_address::MacAddress>() {
        Ok(m) => Ok(MacAddr { bytes: m.bytes() }),
        Err(e) => Err(format!("{e}")),
    }
}

} // verus!
