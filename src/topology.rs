//! Inference of each node's own endpoint from the peers that every node
//! declares ("everyone but me"), and the endpoint-to-logical-address book
//! that results.
use vstd::prelude::*;
use crate::current::{Config, NetworkTlsPeerConfig};
use crate::laws::lemma_resolved_endpoint_not_declared;

verus! {

/// A network endpoint: where a node listens for its peers.
#[derive(Clone, Debug)]
pub struct Endpoint {
    pub host: String,
    pub port: u16,
}

/// An endpoint as a mathematical value: the host's characters and the port.
pub type EndpointView = (Seq<char>, u16);

impl View for Endpoint {
    type V = EndpointView;

    open spec fn view(&self) -> EndpointView {
        (self.host@, self.port)
    }
}

/// Why the nodes' own endpoints could not be inferred.
#[derive(Clone, Debug)]
pub enum ResolutionError {
    /// The node at this index does not miss exactly one endpoint of the
    /// full endpoint set.
    InconsistentTopology(usize),
}

pub open spec fn endpoint_views(s: Seq<Endpoint>) -> Seq<EndpointView> {
    s.map_values(|e: Endpoint| e@)
}

pub open spec fn peer_view(p: NetworkTlsPeerConfig) -> EndpointView {
    (p.host@, p.port)
}

pub open spec fn peer_views(peers: Seq<NetworkTlsPeerConfig>) -> Seq<EndpointView> {
    peers.map_values(|p: NetworkTlsPeerConfig| peer_view(p))
}

/// The endpoints that a node declares as its peers, in order.
pub open spec fn declared(c: Config) -> Seq<EndpointView> {
    peer_views(c.network.peers@)
}

/// The declared peers of every node, in node order.
pub open spec fn declarations(nodes: Seq<Config>) -> Seq<Seq<EndpointView>> {
    nodes.map_values(|c: Config| declared(c))
}

/// The full endpoint set: the union of what the first two nodes declare.
pub open spec fn full_endpoint_set(decls: Seq<Seq<EndpointView>>) -> Set<EndpointView> {
    if decls.len() == 0 {
        Set::empty()
    } else if decls.len() == 1 {
        decls[0].to_set()
    } else {
        decls[0].to_set().union(decls[1].to_set())
    }
}

/// The endpoints of the full set that node `i` does not declare.
pub open spec fn candidates(decls: Seq<Seq<EndpointView>>, i: int) -> Set<EndpointView> {
    full_endpoint_set(decls).difference(decls[i].to_set())
}

/// Node `i` misses exactly one endpoint of the full set.
pub open spec fn resolvable_at(decls: Seq<Seq<EndpointView>>, i: int) -> bool {
    exists|e: EndpointView| candidates(decls, i) == set![e]
}

/// Every node misses exactly one endpoint of the full set.
pub open spec fn resolvable(decls: Seq<Seq<EndpointView>>) -> bool {
    forall|i: int| 0 <= i < decls.len() ==> resolvable_at(decls, i)
}

/// The one endpoint that node `i` misses, where `resolvable_at` holds.
pub open spec fn resolved_endpoint(decls: Seq<Seq<EndpointView>>, i: int) -> EndpointView {
    choose|e: EndpointView| candidates(decls, i) == set![e]
}

/// The resolved endpoint of every node, in node order.
pub open spec fn resolved_endpoints(decls: Seq<Seq<EndpointView>>) -> Seq<EndpointView> {
    Seq::new(decls.len(), |i: int| resolved_endpoint(decls, i))
}

/// The logical address of every node, in node order.
pub open spec fn logical_addresses(nodes: Seq<Config>) -> Seq<Seq<char>> {
    nodes.map_values(|c: Config| c.controller.node_address@)
}

/// The node's own endpoint, where both of its parts are set.
pub open spec fn self_endpoint(c: Config) -> Option<EndpointView> {
    match (c.network_host, c.network_port) {
        (Some(h), Some(p)) => Some((h@, p)),
        _ => None,
    }
}

/// `after` is `before` with its own endpoint set to `e`.
pub open spec fn with_self_endpoint(before: Config, after: Config, e: EndpointView) -> bool {
    &&& self_endpoint(after) == Some(e)
    &&& after.controller == before.controller
    &&& after.consensus == before.consensus
    &&& after.network == before.network
    &&& after.kms == before.kms
    &&& after.storage == before.storage
    &&& after.executor == before.executor
    &&& after.genesis_block == before.genesis_block
    &&& after.system_config == before.system_config
}

/// Endpoints paired with logical addresses, a later pair replacing an
/// earlier one with the same endpoint.
pub open spec fn address_map(keys: Seq<EndpointView>, addrs: Seq<Seq<char>>) -> Map<
    EndpointView,
    Seq<char>,
>
    decreases keys.len(),
{
    if keys.len() == 0 {
        Map::empty()
    } else {
        address_map(keys.drop_last(), addrs).insert(keys.last(), addrs[keys.len() - 1])
    }
}

/// The address book that resolution builds for these nodes.
pub open spec fn resolved_book(nodes: Seq<Config>) -> Map<EndpointView, Seq<char>> {
    address_map(resolved_endpoints(declarations(nodes)), logical_addresses(nodes))
}

/// An endpoint is in the map exactly when it is among the keys, and then it
/// holds the address paired with its last occurrence.
pub proof fn lemma_address_map(keys: Seq<EndpointView>, addrs: Seq<Seq<char>>, e: EndpointView)
    ensures
        address_map(keys, addrs).contains_key(e) <==> keys.contains(e),
        forall|j: int|
            0 <= j < keys.len() && keys[j] == e && (forall|k: int|
                j < k < keys.len() ==> keys[k] != e) ==> address_map(keys, addrs)[e] == addrs[j],
    decreases keys.len(),
{
    if keys.len() > 0 {
        let m = keys.drop_last();
        lemma_address_map(m, addrs, e);
        if keys.last() != e {
            assert(keys.contains(e) ==> m.contains(e)) by {
                if keys.contains(e) {
                    let j = choose|j: int| 0 <= j < keys.len() && keys[j] == e;
                    assert(m[j] == e);
                }
            }
            assert(m.contains(e) ==> keys.contains(e)) by {
                if m.contains(e) {
                    let j = choose|j: int| 0 <= j < m.len() && m[j] == e;
                    assert(keys[j] == e);
                }
            }
            assert forall|j: int|
                0 <= j < keys.len() && keys[j] == e && (forall|k: int|
                    j < k < keys.len() ==> keys[k] != e) implies address_map(keys, addrs)[e]
                == addrs[j] by {
                assert(j < m.len());
                assert(m[j] == e);
                assert forall|k: int| j < k < m.len() implies m[k] != e by {
                    assert(keys[k] != e);
                }
            }
        } else {
            assert(keys[keys.len() - 1] == e);
        }
    }
}

fn same_endpoint(p: &NetworkTlsPeerConfig, e: &Endpoint) -> (r: bool)
    ensures
        r == (peer_view(*p) == e@),
{
    p.port == e.port && p.host == e.host
}

fn is_endpoint(e: &Endpoint, host: &String, port: u16) -> (r: bool)
    ensures
        r == (e@ == (host@, port)),
{
    e.port == port && e.host == *host
}

fn declares(peers: &Vec<NetworkTlsPeerConfig>, e: &Endpoint) -> (r: bool)
    ensures
        r == peer_views(peers@).contains(e@),
{
    let ghost v = peer_views(peers@);
    let mut i: usize = 0;
    while i < peers.len()
        invariant
            i <= peers@.len(),
            v == peer_views(peers@),
            forall|k: int| 0 <= k < i ==> v[k] != e@,
        decreases peers@.len() - i,
    {
        if same_endpoint(&peers[i], e) {
            assert(v[i as int] == e@);
            return true;
        }
        i += 1;
    }
    false
}

/// Collects, without repetition, the endpoints that the first two nodes
/// declare.
fn full_endpoint_list(nodes: &Vec<Config>) -> (r: Vec<Endpoint>)
    ensures
        endpoint_views(r@).no_duplicates(),
        endpoint_views(r@).to_set() == full_endpoint_set(declarations(nodes@)),
{
    let ghost decls = declarations(nodes@);
    let mut full: Vec<Endpoint> = Vec::new();
    let mut i: usize = 0;
    while i < nodes.len() && i < 2
        invariant
            i <= nodes@.len(),
            i <= 2,
            decls == declarations(nodes@),
            endpoint_views(full@).no_duplicates(),
            forall|x: EndpointView|
                endpoint_views(full@).contains(x) <==> exists|k: int|
                    0 <= k < i && #[trigger] decls[k].contains(x),
        decreases 2 - i,
    {
        let peers = &nodes[i].network.peers;
        assert(decls[i as int] == declared(nodes@[i as int]));
        let mut j: usize = 0;
        while j < peers.len()
            invariant
                i < nodes@.len(),
                i < 2,
                j <= peers@.len(),
                peers == &nodes@[i as int].network.peers,
                decls == declarations(nodes@),
                decls[i as int] == declared(nodes@[i as int]),
                endpoint_views(full@).no_duplicates(),
                forall|x: EndpointView|
                    endpoint_views(full@).contains(x) <==> (exists|k: int|
                        0 <= k < i && #[trigger] decls[k].contains(x)) || exists|m: int|
                        0 <= m < j && decls[i as int][m] == x,
            decreases peers@.len() - j,
        {
            let e = Endpoint { host: peers[j].host.clone(), port: peers[j].port };
            assert(e@ == decls[i as int][j as int]);
            let ghost before = endpoint_views(full@);
            if !contains_endpoint(&full, &e) {
                full.push(e);
                assert(endpoint_views(full@) =~= before.push(e@));
            }
            assert forall|x: EndpointView|
                endpoint_views(full@).contains(x) <==> (before.contains(x) || x == e@) by {
                if x == e@ && !before.contains(x) {
                    assert(endpoint_views(full@).last() == x);
                }
                if endpoint_views(full@).contains(x) && x != e@ {
                    let k = choose|k: int| 0 <= k < endpoint_views(full@).len() && endpoint_views(full@)[k] == x;
                    assert(before[k] == x);
                }
                if before.contains(x) {
                    let k = choose|k: int| 0 <= k < before.len() && before[k] == x;
                    assert(endpoint_views(full@)[k] == x);
                }
            }
            assert forall|x: EndpointView|
                endpoint_views(full@).contains(x) <==> (exists|k: int|
                    0 <= k < i && #[trigger] decls[k].contains(x)) || exists|m: int|
                    0 <= m < j + 1 && decls[i as int][m] == x by {
                assert(before.contains(x) <==> (exists|k: int|
                    0 <= k < i && #[trigger] decls[k].contains(x)) || exists|m: int|
                    0 <= m < j && decls[i as int][m] == x);
                if x == e@ {
                    assert(decls[i as int][j as int] == x);
                }
                if exists|m: int| 0 <= m < j && decls[i as int][m] == x {
                    let m = choose|m: int| 0 <= m < j && decls[i as int][m] == x;
                    assert(0 <= m < j + 1 && decls[i as int][m] == x);
                }
                if exists|m: int| 0 <= m < j + 1 && decls[i as int][m] == x {
                    let m = choose|m: int| 0 <= m < j + 1 && decls[i as int][m] == x;
                    if m == j {
                        assert(x == e@);
                    }
                }
            }
            j += 1;
        }
        assert forall|x: EndpointView|
            endpoint_views(full@).contains(x) <==> exists|k: int|
                0 <= k < i + 1 && #[trigger] decls[k].contains(x) by {
            if decls[i as int].contains(x) {
                let m = choose|m: int| 0 <= m < decls[i as int].len() && decls[i as int][m] == x;
            }
        }
        i += 1;
    }
    assert(endpoint_views(full@).to_set() =~= full_endpoint_set(decls)) by {
        assert forall|x: EndpointView|
            endpoint_views(full@).to_set().contains(x) <==> full_endpoint_set(
                decls,
            ).contains(x) by {
            if decls.len() >= 1 && decls[0].contains(x) {
                assert(decls[0].contains(x));
            }
            if decls.len() >= 2 && decls[1].contains(x) {
                assert(decls[1].contains(x));
            }
        }
    }
    full
}

/// The one endpoint of `full` that `peers` does not declare, if there is
/// exactly one.
fn sole_candidate(full: &Vec<Endpoint>, peers: &Vec<NetworkTlsPeerConfig>) -> (r: Option<Endpoint>)
    requires
        endpoint_views(full@).no_duplicates(),
    ensures
        ({
            let cand = endpoint_views(full@).to_set().difference(
                peer_views(peers@).to_set(),
            );
            &&& r matches Some(e) ==> cand == set![e@]
            &&& r is None ==> forall|x: EndpointView| cand != set![x]
        }),
{
    let ghost fv = endpoint_views(full@);
    let ghost pv = peer_views(peers@);
    let ghost cand = fv.to_set().difference(pv.to_set());
    let mut found: Option<Endpoint> = None;
    let mut i: usize = 0;
    while i < full.len()
        invariant
            i <= full@.len(),
            fv == endpoint_views(full@),
            fv.no_duplicates(),
            pv == peer_views(peers@),
            cand == fv.to_set().difference(pv.to_set()),
            found is None ==> forall|k: int| 0 <= k < i ==> pv.contains(#[trigger] fv[k]),
            found matches Some(f) ==> exists|k: int|
                0 <= k < i && #[trigger] fv[k] == f@ && !pv.contains(f@),
            found matches Some(f) ==> forall|k: int|
                0 <= k < i && !pv.contains(#[trigger] fv[k]) ==> fv[k] == f@,
        decreases full@.len() - i,
    {
        let e = &full[i];
        assert(fv[i as int] == e@);
        if !declares(peers, e) {
            match found {
                Some(f) => {
                    proof {
                        let k = choose|k: int| 0 <= k < i && #[trigger] fv[k] == f@ && !pv.contains(f@);
                        assert(fv[k] != fv[i as int]);
                        assert(fv.contains(f@));
                        assert(fv.contains(e@));
                        assert(fv.to_set().contains(f@));
                        assert(!pv.to_set().contains(f@));
                        assert(cand.contains(f@));
                        assert(cand.contains(e@));
                        assert forall|x: EndpointView| cand != set![x] by {
                            if cand == set![x] {
                                assert(set![x].contains(f@));
                                assert(set![x].contains(e@));
                            }
                        }
                    }
                    return None;
                },
                None => {
                    found = Some(Endpoint { host: e.host.clone(), port: e.port });
                },
            }
        }
        i += 1;
    }
    match found {
        Some(f) => {
            proof {
                assert(cand =~= set![f@]) by {
                    assert forall|x: EndpointView| cand.contains(x) implies x == f@ by {
                        let k = choose|k: int| 0 <= k < fv.len() && fv[k] == x;
                        assert(!pv.contains(fv[k]));
                    }
                    let k = choose|k: int| 0 <= k < i && #[trigger] fv[k] == f@ && !pv.contains(f@);
                    assert(fv.contains(f@));
                }
            }
            Some(f)
        },
        None => {
            proof {
                assert forall|x: EndpointView| cand != set![x] by {
                    if cand == set![x] {
                        assert(cand.contains(x));
                        let k = choose|k: int| 0 <= k < fv.len() && fv[k] == x;
                        assert(pv.contains(fv[k]));
                    }
                }
            }
            None
        },
    }
}

/// Logical addresses by endpoint, as resolution found them. It is held as
/// two vectors rather than a `HashMap`: its keys contain a `String`, and for
/// such keys vstd's hash-map specifications give no model of lookups.
pub struct AddressBook {
    endpoints: Vec<Endpoint>,
    addresses: Vec<String>,
}

impl View for AddressBook {
    type V = Map<EndpointView, Seq<char>>;

    closed spec fn view(&self) -> Map<EndpointView, Seq<char>> {
        address_map(endpoint_views(self.endpoints@), self.addresses@.map_values(|a: String| a@))
    }
}

impl AddressBook {
    /// Each endpoint has its address.
    pub closed spec fn wf(&self) -> bool {
        self.endpoints@.len() == self.addresses@.len()
    }

    /// The logical address bound to the endpoint `(host, port)`.
    pub fn lookup(&self, host: &String, port: u16) -> (r: Option<String>)
        requires
            self.wf(),
        ensures
            r matches Some(a) ==> self@.contains_key((host@, port)) && a@ == self@[(host@, port)],
            r is None ==> !self@.contains_key((host@, port)),
    {
        let ghost keys = endpoint_views(self.endpoints@);
        let ghost addrs = self.addresses@.map_values(|a: String| a@);
        let ghost e = (host@, port);
        proof {
            lemma_address_map(keys, addrs, e);
        }
        let mut i: usize = self.endpoints.len();
        while i > 0
            invariant
                i <= self.endpoints@.len(),
                self.wf(),
                keys == endpoint_views(self.endpoints@),
                e == (host@, port),
                addrs == self.addresses@.map_values(|a: String| a@),
                address_map(keys, addrs) == self@,
                forall|j: int|
                    0 <= j < keys.len() && keys[j] == e && (forall|k: int|
                        j < k < keys.len() ==> keys[k] != e) ==> address_map(keys, addrs)[e] == addrs[j],
                address_map(keys, addrs).contains_key(e) <==> keys.contains(e),
                forall|k: int| i <= k < keys.len() ==> keys[k] != e,
            decreases i,
        {
            i -= 1;
            if is_endpoint(&self.endpoints[i], host, port) {
                assert(keys[i as int] == self.endpoints@[i as int]@);
                assert(keys[i as int] == e);
                assert(addrs[i as int] == self.addresses@[i as int]@);
                assert(keys.contains(e));
                return Some(self.addresses[i].clone());
            }
        }
        assert(!keys.contains(e)) by {
            if keys.contains(e) {
                let k = choose|k: int| 0 <= k < keys.len() && keys[k] == e;
                assert(keys[k] != e);
            }
        }
        None
    }
}

/// The own endpoint of every node and the resulting address book, computed
/// without changing the nodes; or the first node that misses other than
/// exactly one endpoint of the full set.
pub fn resolve_endpoints(nodes: &Vec<Config>) -> (r: Result<
    (Vec<Endpoint>, AddressBook),
    ResolutionError,
>)
    ensures
        r is Ok <==> resolvable(declarations(nodes@)),
        r matches Err(ResolutionError::InconsistentTopology(k)) ==> {
            &&& k < nodes@.len()
            &&& !resolvable_at(declarations(nodes@), k as int)
            &&& forall|i: int| 0 <= i < k ==> resolvable_at(declarations(nodes@), i)
        },
        r matches Ok((selves, book)) ==> {
            &&& endpoint_views(selves@) == resolved_endpoints(declarations(nodes@))
            &&& book.wf()
            &&& book@ == resolved_book(nodes@)
        },
{
    let ghost decls = declarations(nodes@);
    let full = full_endpoint_list(nodes);
    let mut selves: Vec<Endpoint> = Vec::new();
    let mut i: usize = 0;
    while i < nodes.len()
        invariant
            decls == declarations(nodes@),
            i <= nodes@.len(),
            endpoint_views(full@).no_duplicates(),
            endpoint_views(full@).to_set() == full_endpoint_set(decls),
            selves@.len() == i,
            forall|k: int| 0 <= k < i ==> #[trigger] resolvable_at(decls, k),
            forall|k: int| 0 <= k < i ==> #[trigger] selves@[k]@ == resolved_endpoint(decls, k),
        decreases nodes@.len() - i,
    {
        assert(decls[i as int] == declared(nodes@[i as int]));
        match sole_candidate(&full, &nodes[i].network.peers) {
            Some(e) => {
                proof {
                    assert(candidates(decls, i as int) == set![e@]);
                    let c = resolved_endpoint(decls, i as int);
                    assert(set![c] == set![e@]);
                    assert(set![c].contains(c));
                }
                selves.push(e);
            },
            None => {
                assert(!resolvable_at(decls, i as int));
                return Err(ResolutionError::InconsistentTopology(i));
            },
        }
        i += 1;
    }
    assert(endpoint_views(selves@) =~= resolved_endpoints(decls));
    let mut endpoints: Vec<Endpoint> = Vec::new();
    let mut addresses: Vec<String> = Vec::new();
    let mut j: usize = 0;
    while j < nodes.len()
        invariant
            selves@.len() == nodes@.len(),
            j <= nodes@.len(),
            endpoints@.len() == j,
            addresses@.len() == j,
            forall|k: int| 0 <= k < j ==> #[trigger] endpoints@[k]@ == selves@[k]@,
            forall|k: int| 0 <= k < j ==> #[trigger] addresses@[k]@ == nodes@[k].controller.node_address@,
        decreases nodes@.len() - j,
    {
        endpoints.push(Endpoint { host: selves[j].host.clone(), port: selves[j].port });
        addresses.push(nodes[j].controller.node_address.clone());
        j += 1;
    }
    let book = AddressBook { endpoints, addresses };
    assert(endpoint_views(book.endpoints@) =~= endpoint_views(selves@));
    assert(book.addresses@.map_values(|a: String| a@) =~= logical_addresses(nodes@));
    Ok((selves, book))
}

/// Sets the own endpoint of node `i` to `selves[i]`, and nothing else.
pub fn set_self_endpoints(nodes: &mut Vec<Config>, selves: &Vec<Endpoint>)
    requires
        selves@.len() == old(nodes)@.len(),
    ensures
        final(nodes)@.len() == old(nodes)@.len(),
        forall|i: int|
            0 <= i < old(nodes)@.len() ==> with_self_endpoint(
                old(nodes)@[i],
                #[trigger] final(nodes)@[i],
                selves@[i]@,
            ),
{
    let ghost before = nodes@;
    let mut j: usize = 0;
    while j < nodes.len()
        invariant
            nodes@.len() == before.len(),
            selves@.len() == before.len(),
            j <= before.len(),
            forall|k: int|
                0 <= k < j ==> with_self_endpoint(before[k], #[trigger] nodes@[k], selves@[k]@),
            forall|k: int| j <= k < before.len() ==> #[trigger] nodes@[k] == before[k],
        decreases before.len() - j,
    {
        let host = selves[j].host.clone();
        let port = selves[j].port;
        let ghost prev = nodes@;
        assert(nodes@[j as int] == before[j as int]);
        nodes[j].network_host = Some(host);
        nodes[j].network_port = Some(port);
        assert(forall|k: int| 0 <= k < nodes@.len() && k != j ==> nodes@[k] == prev[k]);
        assert(with_self_endpoint(before[j as int], nodes@[j as int], selves@[j as int]@));
        j += 1;
    }
}

/// Infers every node's own endpoint: the one endpoint of the full set that
/// it does not declare. Either every node is resolved, or none is changed
/// and the first node that misses other than exactly one endpoint is named.
pub fn resolve(nodes: &mut Vec<Config>) -> (r: Result<AddressBook, ResolutionError>)
    ensures
        final(nodes)@.len() == old(nodes)@.len(),
        r is Ok <==> resolvable(declarations(old(nodes)@)),
        r matches Err(ResolutionError::InconsistentTopology(k)) ==> {
            &&& k < old(nodes)@.len()
            &&& !resolvable_at(declarations(old(nodes)@), k as int)
            &&& forall|i: int| 0 <= i < k ==> resolvable_at(declarations(old(nodes)@), i)
        },
        r is Err ==> final(nodes)@ == old(nodes)@,
        r matches Ok(book) ==> {
            &&& book.wf()
            &&& book@ == resolved_book(old(nodes)@)
            &&& forall|i: int|
                0 <= i < old(nodes)@.len() ==> with_self_endpoint(
                    old(nodes)@[i],
                    #[trigger] final(nodes)@[i],
                    resolved_endpoint(declarations(old(nodes)@), i),
                )
            &&& forall|i: int|
                0 <= i < old(nodes)@.len() ==> !declared(#[trigger] final(nodes)@[i]).contains(
                    self_endpoint(final(nodes)@[i])->Some_0,
                )
        },
{
    let ghost before = nodes@;
    let ghost decls = declarations(nodes@);
    let (selves, book) = match resolve_endpoints(nodes) {
        Ok(found) => found,
        Err(e) => {
            return Err(e);
        },
    };
    set_self_endpoints(nodes, &selves);
    assert forall|k: int| 0 <= k < before.len() implies with_self_endpoint(
        before[k],
        #[trigger] nodes@[k],
        resolved_endpoint(decls, k),
    ) by {
        assert(endpoint_views(selves@)[k] == selves@[k]@);
        assert(with_self_endpoint(before[k], nodes@[k], selves@[k]@));
    }
    assert forall|k: int| 0 <= k < before.len() implies !declared(#[trigger] nodes@[k]).contains(
        self_endpoint(nodes@[k])->Some_0,
    ) by {
        assert(with_self_endpoint(before[k], nodes@[k], resolved_endpoint(decls, k)));
        assert(resolvable_at(decls, k));
        lemma_resolved_endpoint_not_declared(decls, k);
        assert(decls[k] == declared(before[k]));
        assert(nodes@[k].network == before[k].network);
    }
    Ok(book)
}

fn contains_endpoint(list: &Vec<Endpoint>, e: &Endpoint) -> (r: bool)
    ensures
        r == endpoint_views(list@).contains(e@),
{
    let mut i: usize = 0;
    while i < list.len()
        invariant
            i <= list@.len(),
            forall|k: int| 0 <= k < i ==> endpoint_views(list@)[k] != e@,
        decreases list@.len() - i,
    {
        if list[i].port == e.port && list[i].host == e.host {
            assert(endpoint_views(list@)[i as int] == e@);
            return true;
        }
        i += 1;
    }
    false
}

} // verus!
