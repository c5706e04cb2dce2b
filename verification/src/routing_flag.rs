//! The routing-flag alphabet: a total decoder from the single-letter
//! attributes of a route line to a closed enumeration.

use vstd::prelude::*;

verus! {

/// A single-letter route attribute. Letters outside the known alphabet
/// decode to `Unknown`; decoding never fails.
#[derive(Clone, Copy, Debug, Hash, Eq, PartialEq, Structural)]
pub enum RoutingFlag {
    Proto1,
    Proto2,
    Proto3,
    Blackhole,
    Broadcast,
    Cloning,
    PrCloning,
    Dynamic,
    Gateway,
    Host,
    IfScope,
    IfRef,
    LlInfo,
    Modified,
    Multicast,
    Reject,
    Router,
    Static,
    Up,
    WasCloned,
    XResolve,
    Proxy,
    Global,
    Unknown,
}

/// The flag a single character denotes.
pub open spec fn flag_of(c: char) -> RoutingFlag {
    match c {
        '1' => RoutingFlag::Proto1,
        '2' => RoutingFlag::Proto2,
        '3' => RoutingFlag::Proto3,
        'B' => RoutingFlag::Blackhole,
        'C' => RoutingFlag::Cloning,
        'D' => RoutingFlag::Dynamic,
        'G' => RoutingFlag::Gateway,
        'H' => RoutingFlag::Host,
        'I' => RoutingFlag::IfScope,
        'L' => RoutingFlag::LlInfo,
        'M' => RoutingFlag::Modified,
        'R' => RoutingFlag::Reject,
        'S' => RoutingFlag::Static,
        'U' => RoutingFlag::Up,
        'W' => RoutingFlag::WasCloned,
        'X' => RoutingFlag::XResolve,
        'Y' => RoutingFlag::Proxy,
        'b' => RoutingFlag::Broadcast,
        'c' => RoutingFlag::PrCloning,
        'g' => RoutingFlag::Global,
        'i' => RoutingFlag::IfRef,
        'm' => RoutingFlag::Multicast,
        'r' => RoutingFlag::Router,
        _ => RoutingFlag::Unknown,
    }
}

impl From<char> for RoutingFlag {
    fn from(flag_c: char) -> (r: Self) {
        match flag_c {
            '1' => RoutingFlag::Proto1,
            '2' => RoutingFlag::Proto2,
            '3' => RoutingFlag::Proto3,
            'B' => RoutingFlag::Blackhole,
            'C' => RoutingFlag::Cloning,
            'D' => RoutingFlag::Dynamic,
            'G' => RoutingFlag::Gateway,
            'H' => RoutingFlag::Host,
            'I' => RoutingFlag::IfScope,
            'L' => RoutingFlag::LlInfo,
            'M' => RoutingFlag::Modified,
            'R' => RoutingFlag::Reject,
            'S' => RoutingFlag::Static,
            'U' => RoutingFlag::Up,
            'W' => RoutingFlag::WasCloned,
            'X' => RoutingFlag::XResolve,
            'Y' => RoutingFlag::Proxy,
            'b' => RoutingFlag::Broadcast,
            'c' => RoutingFlag::PrCloning,
            'g' => RoutingFlag::Global,
            'i' => RoutingFlag::IfRef,
            'm' => RoutingFlag::Multicast,
            'r' => RoutingFlag::Router,
            _ => RoutingFlag::Unknown,
        }
    }
}

impl vstd::std_specs::convert::FromSpecImpl<char> for RoutingFlag {
    open spec fn obeys_from_spec() -> bool {
        true
    }

    open spec fn from_spec(c: char) -> Self {
        flag_of(c)
    }
}

} // verus!
