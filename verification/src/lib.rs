//! A queryable model of an operating system routing table.
//!
//! The library parses the textual routing-table snapshot printed by
//! `netstat -rn` into a [`RoutingTable`], and answers "which route would
//! handle traffic to this address" queries with the kernel's precision
//! semantics: longest prefix wins, link-layer and hardware-resolved
//! entries outrank any network prefix, and a default route is the
//! weakest match.

use vstd::prelude::*;

pub mod net;
pub mod route_entry;
pub mod routing_flag;
pub mod routing_table;
pub mod text;

pub use net::Cidr;
pub use net::IpAddr;
pub use net::MacAddr;
pub use route_entry::RouteEntry;
pub use routing_flag::RoutingFlag;
pub use routing_table::RoutingTable;

verus! {

/// A generic network entity: a route's destination or gateway.
#[derive(Debug, Clone)]
pub enum Entity {
    /// The catch-all destination, written `default`.
    Default,
    /// An IP network or host.
    Cidr(Cidr),
    /// A link-layer route marker, e.g. `link#4`, kept verbatim.
    Link(String),
    /// A hardware (MAC) address, as found in neighbour-derived entries.
    Mac(MacAddr),
}

/// The mathematical value of an [`Entity`]: strings become character
/// sequences, everything else is already a plain value.
pub enum EntityV {
    Default,
    Cidr(Cidr),
    Link(Seq<char>),
    Mac(MacAddr),
}

impl View for Entity {
    type V = EntityV;

    open spec fn view(&self) -> EntityV {
        match self {
            Entity::Default => EntityV::Default,
            Entity::Cidr(c) => EntityV::Cidr(*c),
            Entity::Link(s) => EntityV::Link(s@),
            Entity::Mac(m) => EntityV::Mac(*m),
        }
    }
}

/// The text an entity renders to: as the table writes it, with networks
/// rendered by the `cidr` crate and hardware addresses as hex pairs.
pub open spec fn entity_text_of(e: EntityV) -> Seq<char> {
    match e {
        EntityV::Default => "default"@,
        EntityV::Cidr(c) => net::cidr_text_of(c),
        EntityV::Link(s) => s,
        EntityV::Mac(m) => net::mac_text_of(m),
    }
}

impl Entity {
    /// Well-formed: a network entity holds a well-formed network.
    pub open spec fn wf(self) -> bool {
        match self {
            Entity::Cidr(c) => c.wf(),
            _ => true,
        }
    }

    /// Render as the table writes it: `default`, the network literal, the
    /// link marker verbatim, or colon-separated hex pairs.
    pub fn to_text(&self) -> (r: String)
        requires
            self.wf(),
        ensures
            r@ == entity_text_of(self@),
    {
        match self {
            Entity::Default => String::from_str("default"),
            Entity::Cidr(c) => net::cidr_to_text(c),
            Entity::Link(s) => s.clone(),
            Entity::Mac(m) => m.to_text(),
        }
    }
}

/// A destination entity with an optional zone qualifier.
///
/// The zone is populated only for tokens carrying a `%zone` suffix
/// (IPv6 link-local scoping). It is stored, including the leading `%`,
/// exactly as it appeared; it takes no part in route matching.
#[derive(Debug, Clone)]
pub struct Destination {
    pub entity: Entity,
    pub zone: Option<String>,
}

/// The mathematical value of a [`Destination`].
pub struct DestinationV {
    pub entity: EntityV,
    pub zone: Option<Seq<char>>,
}

impl View for Destination {
    type V = DestinationV;

    open spec fn view(&self) -> DestinationV {
        DestinationV {
            entity: self.entity@,
            zone: match self.zone {
                Some(ref z) => Some(z@),
                None => None,
            },
        }
    }
}

/// The text a destination renders to: the entity, then a percent sign
/// and the stored zone. The zone is stored with its own leading percent
/// sign, which the rendering repeats.
pub open spec fn destination_text_of(d: DestinationV) -> Seq<char> {
    match d.zone {
        Some(z) => entity_text_of(d.entity) + seq!['%'] + z,
        None => entity_text_of(d.entity),
    }
}

impl Destination {
    /// Render the destination with its zone qualifier, if any.
    pub fn to_text(&self) -> (r: String)
        requires
            self.entity.wf(),
        ensures
            r@ == destination_text_of(self@),
    {
        let mut r = self.entity.to_text();
        match &self.zone {
            Some(z) => {
                text::push_char(&mut r, '%');
                r.append(z.as_str());
                proof {
                    assert(r@ =~= destination_text_of(self@));
                }
            },
            None => {},
        }
        r
    }
}

/// Internet protocols associated with routing table sections.
#[derive(Debug, Clone, Copy, PartialEq, Eq, Structural)]
pub enum Protocol {
    V4,
    V6,
}

} // verus!
