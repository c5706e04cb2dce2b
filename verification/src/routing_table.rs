//! The whole-snapshot parser and the resolver: one pass over the text
//! builds the route list and the per-interface default-gateway index
//! together, and queries fold the candidates down to the most precise
//! match.

use vstd::prelude::*;

use crate::net::IpAddr;
use crate::route_entry::fail_of;
use crate::route_entry::route_entry_of;
use crate::route_entry::left_more_precise;
use crate::route_entry::route_contains;
use crate::route_entry::ParseFail;
use crate::route_entry::RouteEntry;
use crate::route_entry::RouteEntryV;
use crate::text::lines_of;
use crate::text::split_lines_exec;
use crate::text::split_ws;
use crate::text::split_ws_exec;
use crate::text::str_eq;
use crate::text::str_starts_with;
use crate::Entity;
use crate::EntityV;
use crate::Protocol;

verus! {

/// A snapshot of the routing table: the parsed routes in snapshot
/// order, and the default gateways each interface contributed.
#[derive(Debug)]
pub struct RoutingTable {
    routes: Vec<RouteEntry>,
    if_router: Vec<(String, Vec<IpAddr>)>,
}

/// The mathematical value of a [`RoutingTable`].
pub struct RoutingTableV {
    pub routes: Seq<RouteEntryV>,
    pub if_router: Map<Seq<char>, Seq<IpAddr>>,
}

/// What can go wrong while parsing a snapshot.
#[derive(Debug, Clone)]
pub enum Error {
    /// A section marker with no header line after it.
    NetstatParseNoHeaders(String),
    /// A data row failed to parse; the row error is wrapped as-is.
    RouteEntryParse(crate::route_entry::Error),
    /// A data row stood before any section marker.
    EntryBeforeProto,
}

/// The mathematical value of an [`Error`].
pub enum TableFail {
    NoHeaders { section: Seq<char> },
    Row { fail: ParseFail },
    EntryBeforeProto,
}

pub open spec fn table_fail_of(e: Error) -> TableFail {
    match e {
        Error::NetstatParseNoHeaders(s) => TableFail::NoHeaders { section: s@ },
        Error::RouteEntryParse(re) => TableFail::Row { fail: fail_of(re) },
        Error::EntryBeforeProto => TableFail::EntryBeforeProto,
    }
}

/// No two entries of the index carry the same interface name.
pub open spec fn keys_unique(s: Seq<(String, Vec<IpAddr>)>) -> bool {
    forall|i: int, j: int| 0 <= i < j < s.len() ==> s[i].0@ != s[j].0@
}

/// The mapping an association list denotes; a later key wins, though the
/// builder keeps keys unique.
pub open spec fn assoc_map(s: Seq<(String, Vec<IpAddr>)>) -> Map<Seq<char>, Seq<IpAddr>>
    decreases s.len(),
{
    if s.len() == 0 {
        Map::empty()
    } else {
        assoc_map(s.drop_last()).insert(s.last().0@, s.last().1@)
    }
}

pub proof fn lemma_assoc_contains(s: Seq<(String, Vec<IpAddr>)>, k: Seq<char>)
    ensures
        assoc_map(s).contains_key(k) <==> exists|i: int| 0 <= i < s.len() && s[i].0@ == k,
    decreases s.len(),
{
    if s.len() > 0 {
        lemma_assoc_contains(s.drop_last(), k);
        if assoc_map(s).contains_key(k) {
            if k == s.last().0@ {
                assert(s[s.len() - 1].0@ == k);
            } else {
                let i = choose|i: int|
                    0 <= i < s.drop_last().len() && s.drop_last()[i].0@ == k;
                assert(s[i].0@ == k);
            }
        }
        if exists|i: int| 0 <= i < s.len() && s[i].0@ == k {
            let i = choose|i: int| 0 <= i < s.len() && s[i].0@ == k;
            if i < s.len() - 1 {
                assert(s.drop_last()[i].0@ == k);
            }
        }
    }
}

pub proof fn lemma_assoc_lookup(s: Seq<(String, Vec<IpAddr>)>, i: int)
    requires
        keys_unique(s),
        0 <= i < s.len(),
    ensures
        assoc_map(s).contains_key(s[i].0@),
        assoc_map(s)[s[i].0@] == s[i].1@,
    decreases s.len(),
{
    if i < s.len() - 1 {
        assert(keys_unique(s.drop_last()));
        assert(s.drop_last()[i] == s[i]);
        lemma_assoc_lookup(s.drop_last(), i);
        assert(s[i].0@ != s.last().0@);
    }
}

pub proof fn lemma_assoc_update(s: Seq<(String, Vec<IpAddr>)>, i: int, e: (String, Vec<IpAddr>))
    requires
        keys_unique(s),
        0 <= i < s.len(),
        e.0@ == s[i].0@,
    ensures
        keys_unique(s.update(i, e)),
        assoc_map(s.update(i, e)) == assoc_map(s).insert(e.0@, e.1@),
    decreases s.len(),
{
    let t = s.update(i, e);
    assert forall|a: int, b: int| 0 <= a < b < t.len() implies t[a].0@ != t[b].0@ by {
        assert(s[a].0@ != s[b].0@);
    }
    if i == s.len() - 1 {
        assert(t.drop_last() =~= s.drop_last());
        assert(t.last() == e);
        assert(assoc_map(t) == assoc_map(s.drop_last()).insert(e.0@, e.1@));
        assert(assoc_map(s).insert(e.0@, e.1@) == assoc_map(s.drop_last()).insert(
            s.last().0@,
            s.last().1@,
        ).insert(e.0@, e.1@));
        assert(assoc_map(s.drop_last()).insert(s.last().0@, s.last().1@).insert(e.0@, e.1@)
            =~= assoc_map(s.drop_last()).insert(e.0@, e.1@));
    } else {
        assert(keys_unique(s.drop_last()));
        assert(s.drop_last()[i] == s[i]);
        lemma_assoc_update(s.drop_last(), i, e);
        assert(t.drop_last() =~= s.drop_last().update(i, e));
        assert(t.last() == s.last());
        assert(assoc_map(t) == assoc_map(s.drop_last()).insert(e.0@, e.1@).insert(
            s.last().0@,
            s.last().1@,
        ));
        assert(s[i].0@ != s.last().0@);
        assert(assoc_map(s.drop_last()).insert(e.0@, e.1@).insert(s.last().0@, s.last().1@)
            =~= assoc_map(s.drop_last()).insert(s.last().0@, s.last().1@).insert(e.0@, e.1@));
    }
}

impl View for RoutingTable {
    type V = RoutingTableV;

    closed spec fn view(&self) -> RoutingTableV {
        RoutingTableV { routes: self.routes.deep_view(), if_router: assoc_map(self.if_router@) }
    }
}

impl RoutingTable {
    #[verifier::type_invariant]
    spec fn inv(self) -> bool {
        keys_unique(self.if_router@)
    }
}

/// The address a route contributes to the default-gateway index: the
/// gateway itself, when the gateway is a single-host network.
pub open spec fn gw_host_addr(r: RouteEntryV) -> Option<IpAddr> {
    match r.gateway.entity {
        EntityV::Cidr(c) => if c.spec_is_host_address() {
            Some(c.spec_first_address())
        } else {
            None
        },
        _ => None,
    }
}

/// Whether a route feeds the default-gateway index.
pub open spec fn feeds_index(r: RouteEntryV) -> bool {
    r.dest.entity is Default && gw_host_addr(r) is Some
}

/// One index update: append the gateway address under the interface.
pub open spec fn index_add(
    m: Map<Seq<char>, Seq<IpAddr>>,
    r: RouteEntryV,
) -> Map<Seq<char>, Seq<IpAddr>> {
    if feeds_index(r) {
        let a = gw_host_addr(r)->0;
        if m.contains_key(r.net_if) {
            m.insert(r.net_if, m[r.net_if].push(a))
        } else {
            m.insert(r.net_if, seq![a])
        }
    } else {
        m
    }
}

/// The index the whole route list denotes, in parse order.
pub open spec fn gateway_index_of(routes: Seq<RouteEntryV>) -> Map<Seq<char>, Seq<IpAddr>>
    decreases routes.len(),
{
    if routes.len() == 0 {
        Map::empty()
    } else {
        index_add(gateway_index_of(routes.drop_last()), routes.last())
    }
}

/// The builder's running state.
pub struct BuildState {
    pub proto: Option<Protocol>,
    pub headers: Seq<Seq<char>>,
    pub routes: Seq<RouteEntryV>,
    pub if_router: Map<Seq<char>, Seq<IpAddr>>,
}

pub open spec fn build_init() -> BuildState {
    BuildState {
        proto: None,
        headers: Seq::empty(),
        routes: Seq::empty(),
        if_router: Map::empty(),
    }
}

/// A protocol-section marker line.
pub open spec fn is_marker(l: Seq<char>) -> bool {
    l == "Internet:"@ || l == "Internet6:"@
}

/// Append a parsed route: the list always grows, the index only for a
/// default route with a single-host network gateway.
pub open spec fn add_route(st: BuildState, r: RouteEntryV) -> BuildState {
    BuildState {
        proto: st.proto,
        headers: st.headers,
        routes: st.routes.push(r),
        if_router: index_add(st.if_router, r),
    }
}

/// The builder from line `i` on: blank lines and the banner are skipped;
/// a marker sets the protocol and takes the next line as headers, unless
/// no line follows or another marker does; any other line is a data row,
/// an error before the first marker.
pub open spec fn build_from(lines: Seq<Seq<char>>, i: int, st: BuildState) -> Result<
    BuildState,
    TableFail,
>
    decreases lines.len() - i,
    when 0 <= i <= lines.len()
{
    if i >= lines.len() {
        Ok(st)
    } else {
        let line = lines[i];
        if line.len() == 0 || "Routing table"@.is_prefix_of(line) {
            build_from(lines, i + 1, st)
        } else if is_marker(line) {
            let proto = if line == "Internet:"@ {
                Protocol::V4
            } else {
                Protocol::V6
            };
            if i + 1 >= lines.len() || is_marker(lines[i + 1]) {
                Err(TableFail::NoHeaders { section: line })
            } else {
                build_from(
                    lines,
                    i + 2,
                    BuildState {
                        proto: Some(proto),
                        headers: split_ws(lines[i + 1]),
                        routes: st.routes,
                        if_router: st.if_router,
                    },
                )
            }
        } else {
            match st.proto {
                None => Err(TableFail::EntryBeforeProto),
                Some(p) => match route_entry_of(p, line, st.headers) {
                    Err(f) => Err(TableFail::Row { fail: f }),
                    Ok(r) => build_from(lines, i + 1, add_route(st, r)),
                },
            }
        }
    }
}

/// What a whole snapshot denotes: the route list and gateway index of a
/// single pass, or the first error.
pub open spec fn table_of(text: Seq<char>) -> Result<RoutingTableV, TableFail> {
    match build_from(lines_of(text), 0, build_init()) {
        Ok(st) => Ok(RoutingTableV { routes: st.routes, if_router: st.if_router }),
        Err(f) => Err(f),
    }
}

/// Append `addr` under `key`, keeping insertion order per key.
#[verifier::loop_isolation(false)]
fn push_gateway(m: &mut Vec<(String, Vec<IpAddr>)>, key: &str, addr: IpAddr)
    requires
        keys_unique(old(m)@),
    ensures
        keys_unique(final(m)@),
        assoc_map(final(m)@) == index_add_raw(assoc_map(old(m)@), key@, addr),
{
    let n = m.len();
    let mut j: usize = 0;
    while j < n
        invariant
            0 <= j <= n,
            m@ == old(m)@,
            forall|t: int| 0 <= t < j ==> m@[t].0@ != key@,
        decreases n - j,
    {
        let hit = {
            let entry = &m[j];
            str_eq(entry.0.as_str(), key)
        };
        if hit {
            proof {
                lemma_assoc_lookup(m@, j as int);
            }
            let mut entry = m.remove(j);
            entry.1.push(addr);
            let ghost mid = m@;
            m.insert(j, entry);
            proof {
                assert(m@ =~= old(m)@.update(j as int, (entry.0, entry.1)));
                lemma_assoc_update(old(m)@, j as int, (entry.0, entry.1));
            }
            return ;
        }
        j += 1;
    }
    proof {
        lemma_assoc_contains(m@, key@);
    }
    let mut v: Vec<IpAddr> = Vec::new();
    v.push(addr);
    m.push((String::from_str(key), v));
    proof {
        assert(m@.drop_last() =~= old(m)@);
        assert(assoc_map(m@) == assoc_map(old(m)@).insert(key@, v@));
        assert(v@ =~= seq![addr]);
    }
}

/// The index update on raw parts: append under the key, or open it.
pub open spec fn index_add_raw(
    m: Map<Seq<char>, Seq<IpAddr>>,
    key: Seq<char>,
    a: IpAddr,
) -> Map<Seq<char>, Seq<IpAddr>> {
    if m.contains_key(key) {
        m.insert(key, m[key].push(a))
    } else {
        m.insert(key, seq![a])
    }
}

/// The view the resolver's fold state denotes.
pub open spec fn opt_entry_view(o: Option<&RouteEntry>) -> Option<RouteEntryV> {
    match o {
        Some(e) => Some(e@),
        None => None,
    }
}

/// The fold of the resolver from route `i` on, seeded with `cur`.
pub open spec fn best_from(
    routes: Seq<RouteEntryV>,
    addr: IpAddr,
    i: int,
    cur: Option<RouteEntryV>,
) -> Option<RouteEntryV>
    decreases routes.len() - i,
    when 0 <= i <= routes.len()
{
    if i >= routes.len() {
        cur
    } else {
        let nxt = if route_contains(routes[i], addr) {
            match cur {
                None => Some(routes[i]),
                Some(c) => Some(
                    if left_more_precise(c, routes[i]) {
                        c
                    } else {
                        routes[i]
                    },
                ),
            }
        } else {
            cur
        };
        best_from(routes, addr, i + 1, nxt)
    }
}

/// The most precise route for an address, or nothing when no route is a
/// candidate.
pub open spec fn best_route(routes: Seq<RouteEntryV>, addr: IpAddr) -> Option<RouteEntryV> {
    best_from(routes, addr, 0, None)
}

proof fn lemma_best_from_candidate(
    routes: Seq<RouteEntryV>,
    addr: IpAddr,
    i: int,
    cur: Option<RouteEntryV>,
)
    requires
        0 <= i <= routes.len(),
        cur is Some ==> route_contains(cur->0, addr),
    ensures
        match best_from(routes, addr, i, cur) {
            Some(r) => route_contains(r, addr) && (routes.contains(r) || cur == Some(r)),
            None => cur is None && forall|j: int|
                i <= j < routes.len() ==> !route_contains(routes[j], addr),
        },
    decreases routes.len() - i,
{
    if i < routes.len() {
        let nxt = if route_contains(routes[i], addr) {
            match cur {
                None => Some(routes[i]),
                Some(c) => Some(
                    if left_more_precise(c, routes[i]) {
                        c
                    } else {
                        routes[i]
                    },
                ),
            }
        } else {
            cur
        };
        lemma_best_from_candidate(routes, addr, i + 1, nxt);
        match best_from(routes, addr, i, cur) {
            Some(r) => {
                if nxt == Some(r) && cur != Some(r) {
                    assert(routes[i] == r);
                    assert(routes.contains(r));
                }
            },
            None => {},
        }
    }
}

/// Law: the resolver's result is a candidate route of the table; it is
/// nothing exactly when no route of the table is a candidate.
pub proof fn lemma_best_route_candidate(routes: Seq<RouteEntryV>, addr: IpAddr)
    ensures
        match best_route(routes, addr) {
            Some(r) => route_contains(r, addr) && routes.contains(r),
            None => forall|i: int| 0 <= i < routes.len() ==> !route_contains(routes[i], addr),
        },
{
    lemma_best_from_candidate(routes, addr, 0, None);
}

/// The gateway addresses the routes contribute for one interface, in
/// parse order.
pub open spec fn gateways_for(routes: Seq<RouteEntryV>, nif: Seq<char>) -> Seq<IpAddr>
    decreases routes.len(),
{
    if routes.len() == 0 {
        Seq::empty()
    } else {
        let p = gateways_for(routes.drop_last(), nif);
        if feeds_index(routes.last()) && routes.last().net_if == nif {
            p.push(gw_host_addr(routes.last())->0)
        } else {
            p
        }
    }
}

proof fn lemma_gateway_index_entries(routes: Seq<RouteEntryV>, nif: Seq<char>)
    ensures
        gateway_index_of(routes).contains_key(nif) <==> gateways_for(routes, nif).len() > 0,
        gateway_index_of(routes).contains_key(nif) ==> gateway_index_of(routes)[nif]
            == gateways_for(routes, nif),
    decreases routes.len(),
{
    if routes.len() > 0 {
        lemma_gateway_index_entries(routes.drop_last(), nif);
        let r = routes.last();
        if feeds_index(r) && r.net_if == nif {
            assert(gateways_for(routes, nif) == gateways_for(routes.drop_last(), nif).push(
                gw_host_addr(r)->0,
            ));
            if !gateway_index_of(routes.drop_last()).contains_key(nif) {
                assert(gateways_for(routes.drop_last(), nif).len() == 0);
                assert(gateways_for(routes, nif) =~= seq![gw_host_addr(r)->0]);
            }
        }
    }
}

proof fn lemma_build_index(lines: Seq<Seq<char>>, i: int, st: BuildState)
    requires
        0 <= i <= lines.len(),
        st.if_router == gateway_index_of(st.routes),
        build_from(lines, i, st) is Ok,
    ensures
        build_from(lines, i, st)->Ok_0.if_router == gateway_index_of(
            build_from(lines, i, st)->Ok_0.routes,
        ),
    decreases lines.len() - i,
{
    if i < lines.len() {
        let line = lines[i];
        if line.len() == 0 || "Routing table"@.is_prefix_of(line) {
            lemma_build_index(lines, i + 1, st);
        } else if is_marker(line) {
            let proto = if line == "Internet:"@ {
                Protocol::V4
            } else {
                Protocol::V6
            };
            lemma_build_index(
                lines,
                i + 2,
                BuildState {
                    proto: Some(proto),
                    headers: split_ws(lines[i + 1]),
                    routes: st.routes,
                    if_router: st.if_router,
                },
            );
        } else {
            let p = st.proto->0;
            let r = route_entry_of(p, line, st.headers)->Ok_0;
            let st2 = add_route(st, r);
            assert(st2.routes.drop_last() =~= st.routes);
            assert(st2.routes.last() == r);
            assert(st2.if_router == gateway_index_of(st2.routes));
            lemma_build_index(lines, i + 1, st2);
        }
    }
}

/// Law: in a parsed table, the default-gateway index is exactly the
/// projection of the route list. Every route with a `Default`
/// destination and a single-host network gateway contributes its
/// gateway address under its own interface name, in parse order, and an
/// interface with no such route has no entry at all.
pub proof fn lemma_default_gateway_index(text: Seq<char>)
    requires
        table_of(text) is Ok,
    ensures
        forall|nif: Seq<char>| #[trigger]
            table_of(text)->Ok_0.if_router.contains_key(nif) <==> gateways_for(
                table_of(text)->Ok_0.routes,
                nif,
            ).len() > 0,
        forall|nif: Seq<char>| #[trigger]
            table_of(text)->Ok_0.if_router.contains_key(nif)
                ==> table_of(text)->Ok_0.if_router[nif] == gateways_for(
                table_of(text)->Ok_0.routes,
                nif,
            ),
{
    lemma_build_index(lines_of(text), 0, build_init());
    assert forall|nif: Seq<char>| true implies {
        &&& (#[trigger] table_of(text)->Ok_0.if_router.contains_key(nif) <==> gateways_for(
            table_of(text)->Ok_0.routes,
            nif,
        ).len() > 0)
        &&& (table_of(text)->Ok_0.if_router.contains_key(nif) ==> table_of(
            text,
        )->Ok_0.if_router[nif] == gateways_for(table_of(text)->Ok_0.routes, nif))
    } by {
        lemma_gateway_index_entries(table_of(text)->Ok_0.routes, nif);
    }
}

impl RoutingTable {
    /// Generate a `RoutingTable` from a complete snapshot, as printed by
    /// `netstat -rn`. The parse is whole-or-nothing: the first bad line
    /// discards the table.
    #[verifier::loop_isolation(false)]
    pub fn from_netstat_output(output: &str) -> (r: Result<RoutingTable, Error>)
        ensures
            match r {
                Ok(t) => table_of(output@) == Ok::<RoutingTableV, TableFail>(t@),
                Err(e) => table_of(output@) == Err::<RoutingTableV, TableFail>(table_fail_of(e)),
            },
    {
        let lines = split_lines_exec(output);
        let nl = lines.len();
        let ghost lv = lines.deep_view();
        let mut routes: Vec<RouteEntry> = Vec::new();
        let mut if_router: Vec<(String, Vec<IpAddr>)> = Vec::new();
        let mut headers: Vec<&str> = Vec::new();
        let mut proto: Option<Protocol> = None;
        let mut i: usize = 0;
        proof {
            assert(headers.deep_view() =~= Seq::<Seq<char>>::empty());
            assert(routes.deep_view() =~= Seq::<RouteEntryV>::empty());
            assert(assoc_map(if_router@) =~= Map::<Seq<char>, Seq<IpAddr>>::empty());
        }
        while i < nl
            invariant
                0 <= i <= nl,
                keys_unique(if_router@),
                build_from(lv, 0, build_init()) == build_from(
                    lv,
                    i as int,
                    BuildState {
                        proto: proto,
                        headers: headers.deep_view(),
                        routes: routes.deep_view(),
                        if_router: assoc_map(if_router@),
                    },
                ),
            decreases nl - i,
        {
            let line = lines[i];
            proof {
                assert(line@ == lv[i as int]);
            }
            if line.is_empty() || str_starts_with(line, "Routing table") {
                i += 1;
            } else if str_eq(line, "Internet:") || str_eq(line, "Internet6:") {
                let p = if str_eq(line, "Internet:") {
                    Protocol::V4
                } else {
                    Protocol::V6
                };
                if i + 1 >= nl {
                    return Err(Error::NetstatParseNoHeaders(String::from_str(line)));
                }
                let next = lines[i + 1];
                proof {
                    assert(next@ == lv[i + 1 as int]);
                }
                if str_eq(next, "Internet:") || str_eq(next, "Internet6:") {
                    return Err(Error::NetstatParseNoHeaders(String::from_str(line)));
                }
                headers = split_ws_exec(next);
                proto = Some(p);
                i += 2;
            } else {
                match proto {
                    None => {
                        return Err(Error::EntryBeforeProto);
                    },
                    Some(p) => {
                        match RouteEntry::parse(p, line, headers.as_slice()) {
                            Err(e) => {
                                return Err(Error::RouteEntryParse(e));
                            },
                            Ok(route) => {
                                let ghost st = BuildState {
                                    proto: Some(p),
                                    headers: headers.deep_view(),
                                    routes: routes.deep_view(),
                                    if_router: assoc_map(if_router@),
                                };
                                let push_index = match (&route.dest.entity, &route.gateway.entity) {
                                    (Entity::Default, Entity::Cidr(c)) => c.is_host_address(),
                                    _ => false,
                                };
                                if push_index {
                                    let addr = match &route.gateway.entity {
                                        Entity::Cidr(c) => c.first_address(),
                                        _ => IpAddr::V4(0),
                                    };
                                    proof {
                                        assert(gw_host_addr(route@) == Some(addr));
                                    }
                                    push_gateway(&mut if_router, route.net_if.as_str(), addr);
                                    proof {
                                        assert(assoc_map(if_router@) == index_add(
                                            st.if_router,
                                            route@,
                                        ));
                                    }
                                } else {
                                    proof {
                                        assert(assoc_map(if_router@) == index_add(
                                            st.if_router,
                                            route@,
                                        ));
                                    }
                                }
                                routes.push(route);
                                proof {
                                    assert(routes.deep_view() =~= st.routes.push(route@));
                                    assert(BuildState {
                                        proto: Some(p),
                                        headers: headers.deep_view(),
                                        routes: routes.deep_view(),
                                        if_router: assoc_map(if_router@),
                                    } == add_route(st, route@));
                                }
                                i += 1;
                            },
                        }
                    },
                }
            }
        }
        Ok(RoutingTable { routes, if_router })
    }

    /// The parsed routes, in the order the snapshot held them.
    pub fn routes(&self) -> (r: &Vec<RouteEntry>)
        ensures
            r.deep_view() == self@.routes,
    {
        &self.routes
    }

    /// Find the route that most precisely matches the address: the fold
    /// of all candidate routes under the specificity comparator, seeded
    /// with the first candidate.
    #[verifier::loop_isolation(false)]
    pub fn find_route_entry(&self, addr: IpAddr) -> (r: Option<&RouteEntry>)
        ensures
            opt_entry_view(r) == best_route(self@.routes, addr),
            match r {
                Some(e) => route_contains(e@, addr) && self@.routes.contains(e@),
                None => forall|i: int|
                    0 <= i < self@.routes.len() ==> !route_contains(self@.routes[i], addr),
            },
    {
        proof {
            lemma_best_route_candidate(self@.routes, addr);
        }
        let n = self.routes.len();
        let mut best: Option<&RouteEntry> = None;
        let mut i: usize = 0;
        while i < n
            invariant
                0 <= i <= n,
                best_route(self@.routes, addr) == best_from(
                    self@.routes,
                    addr,
                    i as int,
                    opt_entry_view(best),
                ),
            decreases n - i,
        {
            let e = &self.routes[i];
            proof {
                assert(e@ == self@.routes[i as int]);
            }
            if e.contains(addr) {
                best = match best {
                    None => Some(e),
                    Some(b) => Some(b.most_precise(e)),
                };
            }
            i += 1;
        }
        best
    }

    /// The default gateways the snapshot declared on this interface, in
    /// parse order; an interface that contributed none yields nothing.
    pub fn default_gateways_for_netif(&self, net_if: &str) -> (r: Option<&Vec<IpAddr>>)
        ensures
            match r {
                Some(v) => self@.if_router.contains_key(net_if@) && v@ == self@.if_router[net_if@],
                None => !self@.if_router.contains_key(net_if@),
            },
    {
        proof {
            use_type_invariant(&*self);
        }
        let n = self.if_router.len();
        let mut j: usize = 0;
        while j < n
            invariant
                0 <= j <= n,
                n == self.if_router@.len(),
                keys_unique(self.if_router@),
                self@.if_router == assoc_map(self.if_router@),
                forall|t: int| 0 <= t < j ==> self.if_router@[t].0@ != net_if@,
            decreases n - j,
        {
            let entry = &self.if_router[j];
            if str_eq(entry.0.as_str(), net_if) {
                proof {
                    lemma_assoc_lookup(self.if_router@, j as int);
                }
                return Some(&entry.1);
            }
            j += 1;
        }
        proof {
            lemma_assoc_contains(self.if_router@, net_if@);
        }
        None
    }
}

} // verus!
