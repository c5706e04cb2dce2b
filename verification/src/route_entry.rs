//! One route of the table: the destination/gateway token parser with
//! its notation disambiguation rules, the row parser that pairs fields
//! with column headers, and the containment and specificity rules the
//! resolver folds with.

use vstd::prelude::*;

use crate::net::cidr_of;
use crate::net::cidr_text_of;
use crate::net::cidr_to_text;
use crate::net::ipv6_host_of;
use crate::net::mac_of;
use crate::net::parse_cidr_text;
use crate::net::parse_ipv6_text;
use crate::net::parse_mac_text;
use crate::net::Cidr;
use crate::net::IpAddr;
use crate::routing_flag::flag_of;
use crate::text;
use crate::text::contains_char;
use crate::text::dec_u64_of;
use crate::text::dec_u8_of;
use crate::text::dots_to_colons;
use crate::text::dots_to_colons_exec;
use crate::text::find_from;
use crate::text::first_at;
use crate::text::has_char;
use crate::text::quad_of;
use crate::text::split_char;
use crate::text::split_char_exec;
use crate::text::split_ws;
use crate::text::split_ws_exec;
use crate::text::str_eq;
use crate::text::str_starts_with;
use crate::text::v4_bits;
use crate::Destination;
use crate::DestinationV;
use crate::Entity;
use crate::EntityV;
use crate::Protocol;
use crate::RoutingFlag;

verus! {

/// A single route obtained from one data row of the snapshot.
#[derive(Debug, Clone)]
pub struct RouteEntry {
    /// Protocol of the section the row stood in.
    pub proto: Protocol,
    /// Destination: a host, network, link or hardware address.
    pub dest: Destination,
    /// Gateway: how the destination is reached.
    pub gateway: Destination,
    /// Routing flags, decoded letter by letter; duplicates collapse.
    pub flags: Vec<RoutingFlag>,
    /// Network interface that holds this route, verbatim.
    pub net_if: String,
    /// Expiration in seconds, mostly on neighbour-derived entries.
    pub expires: Option<u64>,
}

/// The mathematical value of a [`RouteEntry`].
pub struct RouteEntryV {
    pub proto: Protocol,
    pub dest: DestinationV,
    pub gateway: DestinationV,
    pub flags: Seq<RoutingFlag>,
    pub net_if: Seq<char>,
    pub expires: Option<u64>,
}

impl View for RouteEntry {
    type V = RouteEntryV;

    open spec fn view(&self) -> RouteEntryV {
        RouteEntryV {
            proto: self.proto,
            dest: self.dest@,
            gateway: self.gateway@,
            flags: self.flags@,
            net_if: self.net_if@,
            expires: self.expires,
        }
    }
}

impl DeepView for RouteEntry {
    type V = RouteEntryV;

    open spec fn deep_view(&self) -> RouteEntryV {
        self.view()
    }
}

/// What can go wrong in one row. The `err` strings render the underlying
/// parse errors of the address crates.
#[derive(Debug, Clone)]
pub enum Error {
    /// A destination or gateway token did not parse as a network.
    ParseDestination { value: String, err: String },
    /// A token did not parse as a hardware address.
    ParseMacAddr { dest: String, err: String },
    /// A legacy IPv4 shorthand component is not an unsigned byte.
    ParseIPv4AddrBadInt { addr: String },
    /// A legacy IPv4 shorthand has the wrong number of components.
    ParseIPv4AddrNComps { n_comps: usize, addr: String },
    /// An expiration field is neither `!` nor an unsigned integer.
    ParseExpiration { expiration: String },
    /// The row's headers bound no destination.
    MissingDestination,
    /// The row's headers bound no gateway.
    MissingGateway,
    /// The row's headers bound no network interface.
    MissingInterface,
}

/// The mathematical value of an [`Error`]: which error, on which token.
/// The rendered cause strings carry no meaning of their own.
pub enum ParseFail {
    BadCidr { value: Seq<char> },
    BadMac { dest: Seq<char> },
    BadV4Int { addr: Seq<char> },
    BadV4Count { n_comps: int, addr: Seq<char> },
    BadExpire { expiration: Seq<char> },
    MissingDestination,
    MissingGateway,
    MissingInterface,
}

/// The [`ParseFail`] an [`Error`] stands for.
pub open spec fn fail_of(e: Error) -> ParseFail {
    match e {
        Error::ParseDestination { value, .. } => ParseFail::BadCidr { value: value@ },
        Error::ParseMacAddr { dest, .. } => ParseFail::BadMac { dest: dest@ },
        Error::ParseIPv4AddrBadInt { addr } => ParseFail::BadV4Int { addr: addr@ },
        Error::ParseIPv4AddrNComps { n_comps, addr } => ParseFail::BadV4Count {
            n_comps: n_comps as int,
            addr: addr@,
        },
        Error::ParseExpiration { expiration } => ParseFail::BadExpire { expiration: expiration@ },
        Error::MissingDestination => ParseFail::MissingDestination,
        Error::MissingGateway => ParseFail::MissingGateway,
        Error::MissingInterface => ParseFail::MissingInterface,
    }
}

/// The legacy IPv4 shorthand: a strict dotted quad as written, else the
/// `inet_addr`-style packing of one, two or three byte components.
pub open spec fn legacy_v4_of(s: Seq<char>) -> Result<u32, ParseFail> {
    match quad_of(s) {
        Some(bits) => Ok(bits),
        None => {
            let parts = split_char(s, '.');
            if !(forall|i: int| 0 <= i < parts.len() ==> dec_u8_of(parts[i]) is Some) {
                Err(ParseFail::BadV4Int { addr: s })
            } else if parts.len() == 1 {
                Ok(v4_bits(0, 0, 0, dec_u8_of(parts[0])->0 as int))
            } else if parts.len() == 2 {
                Ok(v4_bits(dec_u8_of(parts[0])->0 as int, 0, 0, dec_u8_of(parts[1])->0 as int))
            } else if parts.len() == 3 {
                Ok(
                    v4_bits(
                        dec_u8_of(parts[0])->0 as int,
                        dec_u8_of(parts[1])->0 as int,
                        0,
                        dec_u8_of(parts[2])->0 as int,
                    ),
                )
            } else {
                Err(ParseFail::BadV4Count { n_comps: parts.len() as int, addr: s })
            }
        },
    }
}

/// Parse the legacy IPv4 shorthand into 32 address bits.
#[verifier::loop_isolation(false)]
pub fn parse_ipv4dest(dest: &str) -> (r: Result<u32, Error>)
    ensures
        match r {
            Ok(bits) => legacy_v4_of(dest@) == Ok::<u32, ParseFail>(bits),
            Err(e) => legacy_v4_of(dest@) == Err::<u32, ParseFail>(fail_of(e)),
        },
{
    match text::parse_quad(dest) {
        Some(bits) => Ok(bits),
        None => {
            let parts = split_char_exec(dest, '.');
            let n = parts.len();
            let mut vals: Vec<u8> = Vec::new();
            let mut i: usize = 0;
            while i < n
                invariant
                    vals@.len() == i,
                    0 <= i <= n,
                    forall|j: int|
                        0 <= j < i ==> dec_u8_of(parts.deep_view()[j]) == Some(vals@[j]),
                decreases n - i,
            {
                proof {
                    assert(parts[i as int]@ == parts.deep_view()[i as int]);
                }
                match text::parse_dec_u8(parts[i]) {
                    Some(v) => {
                        vals.push(v);
                    },
                    None => {
                        return Err(
                            Error::ParseIPv4AddrBadInt { addr: String::from_str(dest) },
                        );
                    },
                }
                i += 1;
            }
            if n == 1 {
                let d = vals[0];
                Ok(d as u32)
            } else if n == 2 {
                let a = vals[0];
                let d = vals[1];
                Ok((a as u32) * 0x1000000 + (d as u32))
            } else if n == 3 {
                let a = vals[0];
                let b = vals[1];
                let d = vals[2];
                Ok((a as u32) * 0x1000000 + (b as u32) * 0x10000 + (d as u32))
            } else {
                Err(
                    Error::ParseIPv4AddrNComps {
                        n_comps: n,
                        addr: String::from_str(dest),
                    },
                )
            }
        },
    }
}

/// A destination token with no `link` prefix and no zone marker.
pub open spec fn simple_of(s: Seq<char>) -> Result<EntityV, ParseFail> {
    if s == "default"@ {
        Ok(EntityV::Default)
    } else if has_char(s, '/') {
        match cidr_of(s) {
            Some(c) => Ok(EntityV::Cidr(c)),
            None => Err(ParseFail::BadCidr { value: s }),
        }
    } else if has_char(s, '.') {
        match legacy_v4_of(s) {
            Ok(bits) => Ok(EntityV::Cidr(Cidr::V4 { addr: bits, len: 32 })),
            Err(_) => match mac_of(dots_to_colons(s)) {
                Some(m) => Ok(EntityV::Mac(m)),
                None => Err(ParseFail::BadMac { dest: s }),
            },
        }
    } else if has_char(s, ':') {
        match ipv6_host_of(s) {
            Some(bits) => Ok(EntityV::Cidr(Cidr::V6 { addr: bits, len: 128 })),
            None => match mac_of(s) {
                Some(m) => Ok(EntityV::Mac(m)),
                None => Err(ParseFail::BadMac { dest: s }),
            },
        }
    } else {
        match legacy_v4_of(s) {
            Ok(bits) => Ok(EntityV::Cidr(Cidr::V4 { addr: bits, len: 32 })),
            Err(f) => Err(f),
        }
    }
}

/// Parse a destination token with no `link` prefix and no zone marker:
/// `default`, a network literal, a dotted token read as legacy IPv4 or
/// a dot-separated hardware address, or a colon token read as an IPv6
/// host or a hardware address.
pub fn parse_simple_destination(dest: &str) -> (r: Result<Entity, Error>)
    ensures
        match r {
            Ok(ent) => simple_of(dest@) == Ok::<EntityV, ParseFail>(ent@),
            Err(e) => simple_of(dest@) == Err::<EntityV, ParseFail>(fail_of(e)),
        },
{
    if str_eq(dest, "default") {
        Ok(Entity::Default)
    } else if contains_char(dest, '/') {
        match parse_cidr_text(dest) {
            Ok(c) => Ok(Entity::Cidr(c)),
            Err(cause) => Err(
                Error::ParseDestination { value: String::from_str(dest), err: cause },
            ),
        }
    } else if contains_char(dest, '.') {
        match parse_ipv4dest(dest) {
            Ok(bits) => Ok(Entity::Cidr(Cidr::new_host(IpAddr::V4(bits)))),
            Err(_) => {
                let colons = dots_to_colons_exec(dest);
                match parse_mac_text(colons.as_str()) {
                    Ok(m) => Ok(Entity::Mac(m)),
                    Err(cause) => Err(
                        Error::ParseMacAddr { dest: String::from_str(dest), err: cause },
                    ),
                }
            },
        }
    } else if contains_char(dest, ':') {
        match parse_ipv6_text(dest) {
            Some(bits) => Ok(Entity::Cidr(Cidr::new_host(IpAddr::V6(bits)))),
            None => match parse_mac_text(dest) {
                Ok(m) => Ok(Entity::Mac(m)),
                Err(cause) => Err(
                    Error::ParseMacAddr { dest: String::from_str(dest), err: cause },
                ),
            },
        }
    } else {
        match parse_ipv4dest(dest) {
            Ok(bits) => Ok(Entity::Cidr(Cidr::new_host(IpAddr::V4(bits)))),
            Err(e) => Err(e),
        }
    }
}

/// A whole destination token: a `link`-prefixed marker is kept verbatim;
/// a `%` splits address from zone, where a bit-length after the zone
/// re-runs the simple parser on the re-rendered network; anything else
/// is a simple destination.
pub open spec fn dest_of(s: Seq<char>) -> Result<DestinationV, ParseFail> {
    if "link"@.is_prefix_of(s) {
        Ok(DestinationV { entity: EntityV::Link(s), zone: None })
    } else if has_char(s, '%') {
        let p = first_at(s, 0, '%');
        let left = s.subrange(0, p);
        let rest = s.subrange(p, s.len() as int);
        match cidr_of(left) {
            None => Err(ParseFail::BadCidr { value: left }),
            Some(c) => {
                let q = first_at(rest, 0, '/');
                let zone = rest.subrange(0, q);
                if q < rest.len() {
                    let q2 = first_at(rest, q + 1, '/');
                    let bits = rest.subrange(q + 1, q2);
                    match simple_of(cidr_text_of(c) + bits) {
                        Ok(ent) => Ok(DestinationV { entity: ent, zone: Some(zone) }),
                        Err(f) => Err(f),
                    }
                } else {
                    Ok(DestinationV { entity: EntityV::Cidr(c), zone: Some(zone) })
                }
            },
        }
    } else {
        match simple_of(s) {
            Ok(ent) => Ok(DestinationV { entity: ent, zone: None }),
            Err(f) => Err(f),
        }
    }
}

/// Parse a whole destination or gateway token.
pub fn parse_destination(dest: &str) -> (r: Result<Destination, Error>)
    ensures
        match r {
            Ok(d) => dest_of(dest@) == Ok::<DestinationV, ParseFail>(d@),
            Err(e) => dest_of(dest@) == Err::<DestinationV, ParseFail>(fail_of(e)),
        },
{
    if str_starts_with(dest, "link") {
        return Ok(Destination { entity: Entity::Link(String::from_str(dest)), zone: None });
    }
    let n = dest.unicode_len();
    let p = find_from(dest, 0, '%');
    if p < n {
        let left = dest.substring_char(0, p);
        let rest = dest.substring_char(p, n);
        let rn = rest.unicode_len();
        match parse_cidr_text(left) {
            Err(cause) => Err(
                Error::ParseDestination { value: String::from_str(left), err: cause },
            ),
            Ok(c) => {
                let q = find_from(rest, 0, '/');
                let zone = rest.substring_char(0, q);
                if q < rn {
                    let q2 = find_from(rest, q + 1, '/');
                    let bits = rest.substring_char(q + 1, q2);
                    let rendered = cidr_to_text(&c);
                    let rejoined = rendered.concat(bits);
                    match parse_simple_destination(rejoined.as_str()) {
                        Ok(ent) => Ok(
                            Destination { entity: ent, zone: Some(String::from_str(zone)) },
                        ),
                        Err(e) => Err(e),
                    }
                } else {
                    Ok(
                        Destination {
                            entity: Entity::Cidr(c),
                            zone: Some(String::from_str(zone)),
                        },
                    )
                }
            },
        }
    } else {
        match parse_simple_destination(dest) {
            Ok(ent) => Ok(Destination { entity: ent, zone: None }),
            Err(e) => Err(e),
        }
    }
}

/// The flags a flags field denotes, in first-occurrence order.
pub open spec fn flags_of(s: Seq<char>) -> Seq<RoutingFlag>
    decreases s.len(),
{
    if s.len() == 0 {
        Seq::empty()
    } else {
        let prev = flags_of(s.drop_last());
        if prev.contains(flag_of(s.last())) {
            prev
        } else {
            prev.push(flag_of(s.last()))
        }
    }
}

/// The decoded flag set holds a flag exactly when some character of the
/// field decodes to it, and holds it once.
pub proof fn lemma_flags_of(s: Seq<char>)
    ensures
        flags_of(s).no_duplicates(),
        forall|f: RoutingFlag|
            flags_of(s).contains(f) <==> exists|i: int| 0 <= i < s.len() && flag_of(s[i]) == f,
    decreases s.len(),
{
    if s.len() > 0 {
        lemma_flags_of(s.drop_last());
        assert forall|f: RoutingFlag| flags_of(s).contains(f) implies exists|i: int|
            0 <= i < s.len() && flag_of(s[i]) == f by {
            if flags_of(s.drop_last()).contains(f) {
                let i = choose|i: int|
                    0 <= i < s.drop_last().len() && flag_of(s.drop_last()[i]) == f;
                assert(0 <= i < s.len() && flag_of(s[i]) == f);
            } else {
                assert(flag_of(s[s.len() - 1]) == f);
            }
        }
        assert forall|f: RoutingFlag|
            exists|i: int| 0 <= i < s.len() && flag_of(s[i]) == f implies flags_of(s).contains(
            f,
        ) by {
            let prev = flags_of(s.drop_last());
            let i = choose|i: int| 0 <= i < s.len() && flag_of(s[i]) == f;
            if i < s.len() - 1 {
                assert(flag_of(s.drop_last()[i]) == f);
                assert(prev.contains(f));
            }
            if prev.contains(f) {
                let j = choose|j: int| 0 <= j < prev.len() && prev[j] == f;
                assert(flags_of(s)[j] == f);
            } else {
                assert(flag_of(s.last()) == f);
                assert(flags_of(s) == prev.push(f));
                assert(flags_of(s)[prev.len() as int] == f);
            }
        }
    }
}

fn has_flag(v: &Vec<RoutingFlag>, f: RoutingFlag) -> (r: bool)
    ensures
        r == v@.contains(f),
{
    let n = v.len();
    let mut i: usize = 0;
    while i < n
        invariant
            n == v@.len(),
            0 <= i <= n,
            forall|j: int| 0 <= j < i ==> v@[j] != f,
        decreases n - i,
    {
        if v[i] == f {
            return true;
        }
        i += 1;
    }
    false
}

/// Decode a flags field, collapsing repeated letters.
#[verifier::loop_isolation(false)]
pub fn parse_flags(flags_s: &str) -> (r: Vec<RoutingFlag>)
    ensures
        r@ == flags_of(flags_s@),
        r@.no_duplicates(),
        forall|f: RoutingFlag|
            r@.contains(f) <==> exists|i: int|
                0 <= i < flags_s@.len() && flag_of(flags_s@[i]) == f,
{
    let n = flags_s.unicode_len();
    let mut r: Vec<RoutingFlag> = Vec::new();
    let mut i: usize = 0;
    while i < n
        invariant
            0 <= i <= n,
            r@ == flags_of(flags_s@.subrange(0, i as int)),
        decreases n - i,
    {
        let c = flags_s.get_char(i);
        let f = RoutingFlag::from(c);
        proof {
            let pre = flags_s@.subrange(0, i as int);
            let post = flags_s@.subrange(0, i + 1 as int);
            assert(post.drop_last() =~= pre);
            assert(post.last() == flags_s@[i as int]);
        }
        if !has_flag(&r, f) {
            r.push(f);
        }
        i += 1;
    }
    proof {
        assert(flags_s@.subrange(0, n as int) =~= flags_s@);
        lemma_flags_of(flags_s@);
    }
    r
}

/// What an expiration field denotes: `!` means no expiration, anything
/// else must be an unsigned count of seconds.
pub open spec fn expire_of(s: Seq<char>) -> Result<Option<u64>, ParseFail> {
    if s == "!"@ {
        Ok(None)
    } else {
        match dec_u64_of(s) {
            Some(secs) => Ok(Some(secs)),
            None => Err(ParseFail::BadExpire { expiration: s }),
        }
    }
}

/// Parse an expiration field into seconds.
pub fn parse_expire(s: &str) -> (r: Result<Option<u64>, Error>)
    ensures
        match r {
            Ok(o) => expire_of(s@) == Ok::<Option<u64>, ParseFail>(o),
            Err(e) => expire_of(s@) == Err::<Option<u64>, ParseFail>(fail_of(e)),
        },
{
    if str_eq(s, "!") {
        Ok(None)
    } else {
        match text::parse_dec_u64(s) {
            Some(secs) => Ok(Some(secs)),
            None => Err(Error::ParseExpiration { expiration: String::from_str(s) }),
        }
    }
}

/// The row scan's running state: what the headers seen so far bound.
pub struct ScanState {
    pub dest: Option<DestinationV>,
    pub gateway: Option<DestinationV>,
    pub flags: Seq<RoutingFlag>,
    pub net_if: Option<Seq<char>>,
    pub expires: Option<u64>,
}

pub open spec fn scan_init() -> ScanState {
    ScanState { dest: None, gateway: None, flags: Seq::empty(), net_if: None, expires: None }
}

/// One header/field pair: a recognized header binds its field, a later
/// binding overwrites an earlier one, unrecognized headers are ignored.
pub open spec fn scan_step(st: ScanState, h: Seq<char>, f: Seq<char>) -> Result<
    ScanState,
    ParseFail,
> {
    if h == "Destination"@ {
        match dest_of(f) {
            Ok(d) => Ok(ScanState { dest: Some(d), ..st }),
            Err(e) => Err(e),
        }
    } else if h == "Gateway"@ {
        match dest_of(f) {
            Ok(d) => Ok(ScanState { gateway: Some(d), ..st }),
            Err(e) => Err(e),
        }
    } else if h == "Flags"@ {
        Ok(ScanState { flags: flags_of(f), ..st })
    } else if h == "Netif"@ {
        Ok(ScanState { net_if: Some(f), ..st })
    } else if h == "Expire"@ {
        match expire_of(f) {
            Ok(o) => Ok(ScanState { expires: o, ..st }),
            Err(e) => Err(e),
        }
    } else {
        Ok(st)
    }
}

/// The scan of the first `n` header/field pairs, failing fast.
pub open spec fn scan(headers: Seq<Seq<char>>, fields: Seq<Seq<char>>, n: int) -> Result<
    ScanState,
    ParseFail,
>
    decreases n,
{
    if n <= 0 {
        Ok(scan_init())
    } else {
        match scan(headers, fields, n - 1) {
            Err(e) => Err(e),
            Ok(st) => scan_step(st, headers[n - 1], fields[n - 1]),
        }
    }
}

/// A failed scan prefix fails every longer scan the same way.
pub proof fn lemma_scan_err_persists(
    headers: Seq<Seq<char>>,
    fields: Seq<Seq<char>>,
    n1: int,
    n2: int,
)
    requires
        0 <= n1 <= n2,
        scan(headers, fields, n1) is Err,
    ensures
        scan(headers, fields, n2) == scan(headers, fields, n1),
    decreases n2 - n1,
{
    if n1 < n2 {
        lemma_scan_err_persists(headers, fields, n1, n2 - 1);
    }
}

/// The number of header/field pairs: the shorter of the two lists.
pub open spec fn pairs_len(headers: Seq<Seq<char>>, fields: Seq<Seq<char>>) -> int {
    if headers.len() <= fields.len() {
        headers.len() as int
    } else {
        fields.len() as int
    }
}

/// What one data row denotes under the given protocol and headers.
pub open spec fn route_entry_of(
    proto: Protocol,
    line: Seq<char>,
    headers: Seq<Seq<char>>,
) -> Result<RouteEntryV, ParseFail> {
    let fields = split_ws(line);
    match scan(headers, fields, pairs_len(headers, fields)) {
        Err(e) => Err(e),
        Ok(st) => if st.dest is None {
            Err(ParseFail::MissingDestination)
        } else if st.gateway is None {
            Err(ParseFail::MissingGateway)
        } else if st.net_if is None {
            Err(ParseFail::MissingInterface)
        } else {
            Ok(
                RouteEntryV {
                    proto,
                    dest: st.dest->0,
                    gateway: st.gateway->0,
                    flags: st.flags,
                    net_if: st.net_if->0,
                    expires: st.expires,
                },
            )
        },
    }
}

/// The scan state the exec parser's locals denote.
pub open spec fn scan_view(
    dest: Option<Destination>,
    gateway: Option<Destination>,
    flags: Seq<RoutingFlag>,
    net_if: Option<String>,
    expires: Option<u64>,
) -> ScanState {
    ScanState {
        dest: match dest {
            Some(d) => Some(d@),
            None => None,
        },
        gateway: match gateway {
            Some(d) => Some(d@),
            None => None,
        },
        flags: flags,
        net_if: match net_if {
            Some(s) => Some(s@),
            None => None,
        },
        expires: expires,
    }
}

impl RouteEntry {
    /// Parse one data row, pairing its whitespace-separated fields with
    /// the section's column headers by position.
    #[verifier::loop_isolation(false)]
    pub fn parse(proto: Protocol, line: &str, headers: &[&str]) -> (r: Result<RouteEntry, Error>)
        ensures
            match r {
                Ok(entry) => route_entry_of(proto, line@, headers.deep_view())
                    == Ok::<RouteEntryV, ParseFail>(entry@),
                Err(e) => route_entry_of(proto, line@, headers.deep_view())
                    == Err::<RouteEntryV, ParseFail>(fail_of(e)),
            },
    {
        let fields = split_ws_exec(line);
        let nh = headers.len();
        let nf = fields.len();
        let m = if nh <= nf {
            nh
        } else {
            nf
        };
        let ghost hs = headers.deep_view();
        let ghost fs = fields.deep_view();
        proof {
            assert(m == pairs_len(hs, fs));
        }
        let mut dest: Option<Destination> = None;
        let mut gateway: Option<Destination> = None;
        let mut flags: Vec<RoutingFlag> = Vec::new();
        let mut net_if: Option<String> = None;
        let mut expires: Option<u64> = None;
        let mut k: usize = 0;
        while k < m
            invariant
                0 <= k <= m,
                scan(hs, fs, k as int) == Ok::<ScanState, ParseFail>(
                    scan_view(dest, gateway, flags@, net_if, expires),
                ),
            decreases m - k,
        {
            let h = headers[k];
            let f = fields[k];
            proof {
                assert(h@ == hs[k as int]);
                assert(f@ == fs[k as int]);
            }
            if str_eq(h, "Destination") {
                match parse_destination(f) {
                    Ok(d) => {
                        dest = Some(d);
                    },
                    Err(e) => {
                        proof {
                            lemma_scan_err_persists(hs, fs, k + 1, m as int);
                        }
                        return Err(e);
                    },
                }
            } else if str_eq(h, "Gateway") {
                match parse_destination(f) {
                    Ok(d) => {
                        gateway = Some(d);
                    },
                    Err(e) => {
                        proof {
                            lemma_scan_err_persists(hs, fs, k + 1, m as int);
                        }
                        return Err(e);
                    },
                }
            } else if str_eq(h, "Flags") {
                flags = parse_flags(f);
            } else if str_eq(h, "Netif") {
                net_if = Some(String::from_str(f));
            } else if str_eq(h, "Expire") {
                match parse_expire(f) {
                    Ok(o) => {
                        expires = o;
                    },
                    Err(e) => {
                        proof {
                            lemma_scan_err_persists(hs, fs, k + 1, m as int);
                        }
                        return Err(e);
                    },
                }
            }
            k += 1;
        }
        let d = match dest {
            Some(d) => d,
            None => {
                return Err(Error::MissingDestination);
            },
        };
        let g = match gateway {
            Some(g) => g,
            None => {
                return Err(Error::MissingGateway);
            },
        };
        let ni = match net_if {
            Some(ni) => ni,
            None => {
                return Err(Error::MissingInterface);
            },
        };
        Ok(RouteEntry { proto, dest: d, gateway: g, flags, net_if: ni, expires })
    }

    /// Whether this route's destination is appropriate for the address:
    /// a network destination must contain it; a default route matches
    /// addresses of its own protocol when its gateway is a network, and
    /// anything when its gateway is a link or hardware address.
    pub fn contains(&self, addr: IpAddr) -> (r: bool)
        ensures
            r == route_contains(self@, addr),
    {
        match &self.dest.entity {
            Entity::Cidr(c) => c.contains(&addr),
            Entity::Default => match &self.gateway.entity {
                Entity::Cidr(_) => match addr {
                    IpAddr::V4(_) => matches!(self.proto, Protocol::V4),
                    IpAddr::V6(_) => matches!(self.proto, Protocol::V6),
                },
                Entity::Link(_) | Entity::Mac(_) => true,
                Entity::Default => false,
            },
            _ => false,
        }
    }

    /// Of two routes, the more precise: a hardware-resolved destination
    /// beats a link destination beats any network, among networks the
    /// longer prefix wins with ties to the left, and a default route
    /// loses to everything but another default.
    pub fn most_precise<'a>(&'a self, other: &'a Self) -> (r: &'a Self)
        ensures
            r@ == if left_more_precise(self@, other@) {
                self@
            } else {
                other@
            },
    {
        match &self.dest.entity {
            Entity::Mac(_) => self,
            Entity::Link(_) => match &other.dest.entity {
                Entity::Mac(_) => other,
                _ => self,
            },
            Entity::Cidr(c) => match &other.dest.entity {
                Entity::Mac(_) | Entity::Link(_) => other,
                Entity::Cidr(other_c) => {
                    if c.network_length() >= other_c.network_length() {
                        self
                    } else {
                        other
                    }
                },
                Entity::Default => self,
            },
            Entity::Default => match &other.dest.entity {
                Entity::Default => self,
                _ => other,
            },
        }
    }
}

/// Whether a route is a candidate for an address.
pub open spec fn route_contains(r: RouteEntryV, addr: IpAddr) -> bool {
    match r.dest.entity {
        EntityV::Cidr(c) => c.spec_contains(addr),
        EntityV::Default => match r.gateway.entity {
            EntityV::Cidr(_) => match addr {
                IpAddr::V4(_) => r.proto is V4,
                IpAddr::V6(_) => r.proto is V6,
            },
            EntityV::Link(_) | EntityV::Mac(_) => true,
            EntityV::Default => false,
        },
        _ => false,
    }
}

/// Whether the left route is at least as precise as the right one.
pub open spec fn left_more_precise(a: RouteEntryV, b: RouteEntryV) -> bool {
    match a.dest.entity {
        EntityV::Mac(_) => true,
        EntityV::Link(_) => !(b.dest.entity is Mac),
        EntityV::Cidr(ca) => match b.dest.entity {
            EntityV::Mac(_) | EntityV::Link(_) => false,
            EntityV::Cidr(cb) => ca.spec_network_length() >= cb.spec_network_length(),
            EntityV::Default => true,
        },
        EntityV::Default => b.dest.entity is Default,
    }
}

/// Law: a default route with a network gateway matches exactly the
/// addresses of its own protocol family; in particular an address of
/// the other family never matches it.
pub proof fn lemma_default_route_family(r: RouteEntryV, addr: IpAddr)
    requires
        r.dest.entity is Default,
        r.gateway.entity is Cidr,
    ensures
        route_contains(r, addr) == ((r.proto is V4 && addr is V4) || (r.proto is V6
            && addr is V6)),
{
}

/// Law: the specificity order of the comparator. A hardware-resolved
/// destination is maximally specific; a link destination yields only to
/// a hardware one; a network destination yields to both, and among
/// networks the longer prefix wins with ties to the left; a default
/// route yields to everything.
pub proof fn lemma_specificity_ranking(a: RouteEntryV, b: RouteEntryV)
    ensures
        a.dest.entity is Mac ==> left_more_precise(a, b),
        b.dest.entity is Mac && !(a.dest.entity is Mac) ==> !left_more_precise(a, b),
        a.dest.entity is Link && !(b.dest.entity is Mac) ==> left_more_precise(a, b),
        b.dest.entity is Link && (a.dest.entity is Cidr || a.dest.entity is Default)
            ==> !left_more_precise(a, b),
        b.dest.entity is Default ==> left_more_precise(a, b),
        a.dest.entity is Default && !(b.dest.entity is Default) ==> !left_more_precise(a, b),
        a.dest.entity is Cidr && b.dest.entity is Cidr ==> (left_more_precise(a, b) <==> (
        a.dest.entity->Cidr_0.spec_network_length()
            >= b.dest.entity->Cidr_0.spec_network_length())),
{
}

} // verus!
