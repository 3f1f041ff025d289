//! Distribution of the issued credentials: every node receives the
//! authority's certificate and its own leaf, and each of its peers is bound
//! to the logical address that the peer's certificate must carry.
use vstd::prelude::*;
use crate::cert::{
    begins_with, certificate_header, generate_certs, issued_as, pem_is_authority, pem_public_key,
    pem_signer_key, pem_subject_alt_names, standard_structure, CertAndKey, IssueError,
};
use crate::current::{Config, NetworkTlsPeerConfig};
use crate::topology::{
    declarations, peer_view, peer_views, resolvable, resolvable_at,
    resolve_endpoints, resolved_book, resolved_endpoint, resolved_endpoints, self_endpoint,
    set_self_endpoints, with_self_endpoint, endpoint_views, AddressBook, Endpoint,
    EndpointView, ResolutionError,
};

verus! {

/// Why peers could not be bound to logical addresses.
#[derive(Clone, Debug)]
pub enum BindingError {
    /// A declared peer endpoint has no logical address in the book.
    UnknownPeerEndpoint(Endpoint),
}

/// Why the network TLS section of the nodes could not be filled.
#[derive(Clone, Debug)]
pub enum TlsSetupError {
    Resolution(ResolutionError),
    Issue(IssueError),
    Binding(BindingError),
}

/// Every endpoint that some node declares has an address in `book`.
pub open spec fn all_peers_known(nodes: Seq<Config>, book: Map<EndpointView, Seq<char>>) -> bool {
    forall|i: int, j: int|
        0 <= i < nodes.len() && 0 <= j < nodes[i].network.peers@.len() ==> book.contains_key(
            #[trigger] peer_view(nodes[i].network.peers@[j]),
        )
}

/// `after` holds the peers of `before`, each bound to its address in `book`.
pub open spec fn peers_bound(
    before: Seq<NetworkTlsPeerConfig>,
    after: Seq<NetworkTlsPeerConfig>,
    book: Map<EndpointView, Seq<char>>,
) -> bool {
    &&& after.len() == before.len()
    &&& forall|j: int|
        0 <= j < before.len() ==> {
            &&& (#[trigger] after[j]).host == before[j].host
            &&& after[j].port == before[j].port
            &&& after[j].domain matches Some(d) && d@ == book[peer_view(before[j])]
        }
}

/// `after` is `before` with its TLS certificates set and its peers bound.
pub open spec fn with_credentials(
    before: Config,
    after: Config,
    book: Map<EndpointView, Seq<char>>,
    ca_cert: String,
    cert: String,
) -> bool {
    &&& after.network.ca_cert == Some(ca_cert)
    &&& after.network.cert == Some(cert)
    &&& after.network.grpc_port == before.network.grpc_port
    &&& after.network.listen_port == before.network.listen_port
    &&& peers_bound(before.network.peers@, after.network.peers@, book)
    &&& after.controller == before.controller
    &&& after.consensus == before.consensus
    &&& after.kms == before.kms
    &&& after.storage == before.storage
    &&& after.executor == before.executor
    &&& after.genesis_block == before.genesis_block
    &&& after.system_config == before.system_config
    &&& after.network_host == before.network_host
    &&& after.network_port == before.network_port
}

/// The peers of one node, each bound to its address in the book.
fn bound_peers(peers: &Vec<NetworkTlsPeerConfig>, book: &AddressBook) -> (r: Result<
    Vec<NetworkTlsPeerConfig>,
    BindingError,
>)
    requires
        book.wf(),
    ensures
        r is Ok <==> forall|j: int|
            0 <= j < peers@.len() ==> book@.contains_key(#[trigger] peer_view(peers@[j])),
        r matches Ok(b) ==> peers_bound(peers@, b@, book@),
        r matches Err(BindingError::UnknownPeerEndpoint(e)) ==> !book@.contains_key(e@)
            && peer_views(peers@).contains(e@),
{
    let mut bound: Vec<NetworkTlsPeerConfig> = Vec::new();
    let mut j: usize = 0;
    while j < peers.len()
        invariant
            j <= peers@.len(),
            book.wf(),
            bound@.len() == j,
            forall|k: int| 0 <= k < j ==> book@.contains_key(#[trigger] peer_view(peers@[k])),
            forall|k: int|
                0 <= k < j ==> {
                    &&& (#[trigger] bound@[k]).host == peers@[k].host
                    &&& bound@[k].port == peers@[k].port
                    &&& bound@[k].domain matches Some(d) && d@ == book@[peer_view(peers@[k])]
                },
        decreases peers@.len() - j,
    {
        let p = &peers[j];
        match book.lookup(&p.host, p.port) {
            Some(d) => {
                bound.push(NetworkTlsPeerConfig { domain: Some(d), host: p.host.clone(), port: p.port });
            },
            None => {
                let e = Endpoint { host: p.host.clone(), port: p.port };
                assert(peer_views(peers@)[j as int] == e@);
                return Err(BindingError::UnknownPeerEndpoint(e));
            },
        }
        j += 1;
    }
    Ok(bound)
}

/// The peers of every node, each bound to its address in the book, computed
/// without changing the nodes; or a declared peer that is not in the book.
pub fn bind_all(nodes: &Vec<Config>, book: &AddressBook) -> (r: Result<
    Vec<Vec<NetworkTlsPeerConfig>>,
    BindingError,
>)
    requires
        book.wf(),
    ensures
        r is Ok <==> all_peers_known(nodes@, book@),
        r matches Err(BindingError::UnknownPeerEndpoint(e)) ==> !book@.contains_key(e@) && exists|
            i: int,
        | 0 <= i < nodes@.len() && peer_views(nodes@[i].network.peers@).contains(e@),
        r matches Ok(bound) ==> {
            &&& bound@.len() == nodes@.len()
            &&& forall|i: int|
                0 <= i < nodes@.len() ==> peers_bound(
                    nodes@[i].network.peers@,
                    #[trigger] bound@[i]@,
                    book@,
                )
        },
{
    let mut bound: Vec<Vec<NetworkTlsPeerConfig>> = Vec::new();
    let mut i: usize = 0;
    while i < nodes.len()
        invariant
            book.wf(),
            i <= nodes@.len(),
            bound@.len() == i,
            forall|k: int, j: int|
                0 <= k < i && 0 <= j < nodes@[k].network.peers@.len() ==> book@.contains_key(
                    #[trigger] peer_view(nodes@[k].network.peers@[j]),
                ),
            forall|k: int|
                0 <= k < i ==> peers_bound(nodes@[k].network.peers@, #[trigger] bound@[k]@, book@),
        decreases nodes@.len() - i,
    {
        match bound_peers(&nodes[i].network.peers, book) {
            Ok(b) => {
                bound.push(b);
            },
            Err(e) => {
                assert(!all_peers_known(nodes@, book@)) by {
                    let j = choose|j: int|
                        0 <= j < nodes@[i as int].network.peers@.len() && !book@.contains_key(
                            peer_view(nodes@[i as int].network.peers@[j]),
                        );
                }
                return Err(e);
            },
        }
        i += 1;
    }
    Ok(bound)
}

/// Gives node `i` the authority's certificate, the certificate of
/// `leaves[i]`, and the bound peers `bound[i]`.
fn install_credentials(
    nodes: &mut Vec<Config>,
    mut bound: Vec<Vec<NetworkTlsPeerConfig>>,
    book: Ghost<Map<EndpointView, Seq<char>>>,
    ca_cert: &String,
    leaves: &Vec<CertAndKey>,
)
    requires
        bound@.len() == old(nodes)@.len(),
        leaves@.len() == old(nodes)@.len(),
        forall|i: int|
            0 <= i < old(nodes)@.len() ==> peers_bound(
                old(nodes)@[i].network.peers@,
                #[trigger] bound@[i]@,
                book@,
            ),
    ensures
        final(nodes)@.len() == old(nodes)@.len(),
        forall|i: int|
            0 <= i < old(nodes)@.len() ==> with_credentials(
                old(nodes)@[i],
                #[trigger] final(nodes)@[i],
                book@,
                *ca_cert,
                leaves@[i].cert,
            ),
{
    let ghost before = nodes@;
    let mut k: usize = 0;
    while k < nodes.len()
        invariant
            nodes@.len() == before.len(),
            bound@.len() == before.len(),
            leaves@.len() == before.len(),
            k <= before.len(),
            forall|m: int|
                k <= m < before.len() ==> peers_bound(
                    before[m].network.peers@,
                    #[trigger] bound@[m]@,
                    book@,
                ),
            forall|m: int| k <= m < before.len() ==> #[trigger] nodes@[m] == before[m],
            forall|m: int|
                0 <= m < k ==> with_credentials(
                    before[m],
                    #[trigger] nodes@[m],
                    book@,
                    *ca_cert,
                    leaves@[m].cert,
                ),
        decreases before.len() - k,
    {
        let ghost prev = nodes@;
        std::mem::swap(&mut nodes[k].network.peers, &mut bound[k]);
        nodes[k].network.ca_cert = Some(ca_cert.clone());
        nodes[k].network.cert = Some(leaves[k].cert.clone());
        assert(forall|m: int| 0 <= m < nodes@.len() && m != k ==> nodes@[m] == prev[m]);
        k += 1;
    }
}

/// Gives every node the authority's certificate and its own leaf
/// certificate, and binds each declared peer to its logical address in the
/// book. Nothing is changed where a declared peer is not in the book.
pub fn bind_peers(
    nodes: &mut Vec<Config>,
    book: &AddressBook,
    ca_cert: &String,
    leaves: &Vec<CertAndKey>,
) -> (r: Result<(), BindingError>)
    requires
        book.wf(),
        leaves@.len() == old(nodes)@.len(),
    ensures
        final(nodes)@.len() == old(nodes)@.len(),
        r is Ok <==> all_peers_known(old(nodes)@, book@),
        r matches Err(BindingError::UnknownPeerEndpoint(e)) ==> !book@.contains_key(e@) && exists|
            i: int,
        |
            0 <= i < old(nodes)@.len() && peer_views(old(nodes)@[i].network.peers@).contains(e@),
        r is Err ==> final(nodes)@ == old(nodes)@,
        r is Ok ==> forall|i: int|
            0 <= i < old(nodes)@.len() ==> with_credentials(
                old(nodes)@[i],
                #[trigger] final(nodes)@[i],
                book@,
                *ca_cert,
                leaves@[i].cert,
            ),
{
    let bound = bind_all(nodes, book)?;
    install_credentials(nodes, bound, Ghost(book@), ca_cert, leaves);
    Ok(())
}

/// `after` is `before` with its own endpoint set to `e`, the authority's
/// certificate set to `ca_cert`, a leaf certificate for its own logical
/// address set, and its peers bound to their addresses in `book`.
pub open spec fn provisioned(
    before: Config,
    after: Config,
    e: EndpointView,
    book: Map<EndpointView, Seq<char>>,
    ca_cert: String,
) -> bool {
    &&& self_endpoint(after) == Some(e)
    &&& after.network.ca_cert == Some(ca_cert)
    &&& after.network.cert matches Some(c) && {
        &&& c@.len() > 0
        &&& begins_with(c@, certificate_header())
        &&& standard_structure(c@)
        &&& pem_subject_alt_names(c@) == seq![before.controller.node_address@]
        &&& !pem_is_authority(c@)
        &&& pem_signer_key(c@) == pem_public_key(ca_cert@)
    }
    &&& after.network.grpc_port == before.network.grpc_port
    &&& after.network.listen_port == before.network.listen_port
    &&& peers_bound(before.network.peers@, after.network.peers@, book)
    &&& after.controller == before.controller
    &&& after.consensus == before.consensus
    &&& after.kms == before.kms
    &&& after.storage == before.storage
    &&& after.executor == before.executor
    &&& after.genesis_block == before.genesis_block
    &&& after.system_config == before.system_config
}

/// Resolves every node's own endpoint, issues an authority and one leaf per
/// node for its logical address, and binds every node's peers to their
/// logical addresses. Returns the authority's certificate and key. On any
/// error no node is changed.
pub fn fill_network_tls_info(node_configs: &mut Vec<Config>) -> (r: Result<
    CertAndKey,
    TlsSetupError,
>)
    ensures
        final(node_configs)@.len() == old(node_configs)@.len(),
        r is Err ==> final(node_configs)@ == old(node_configs)@,
        (r matches Err(TlsSetupError::Resolution(_))) <==> !resolvable(
            declarations(old(node_configs)@),
        ),
        r matches Err(TlsSetupError::Resolution(ResolutionError::InconsistentTopology(k))) ==> {
            &&& k < old(node_configs)@.len()
            &&& !resolvable_at(declarations(old(node_configs)@), k as int)
            &&& forall|i: int| 0 <= i < k ==> resolvable_at(declarations(old(node_configs)@), i)
        },
        (r matches Err(TlsSetupError::Binding(_))) <==> resolvable(
            declarations(old(node_configs)@),
        ) && !all_peers_known(old(node_configs)@, resolved_book(old(node_configs)@)),
        r matches Err(TlsSetupError::Binding(BindingError::UnknownPeerEndpoint(e))) ==> {
            &&& !resolved_book(old(node_configs)@).contains_key(e@)
            &&& exists|i: int|
                0 <= i < old(node_configs)@.len() && peer_views(
                    old(node_configs)@[i].network.peers@,
                ).contains(e@)
        },
        r matches Ok(ca) ==> {
            &&& issued_as(ca, Seq::empty(), true)
            &&& forall|i: int|
                0 <= i < old(node_configs)@.len() ==> provisioned(
                    old(node_configs)@[i],
                    #[trigger] final(node_configs)@[i],
                    resolved_endpoint(declarations(old(node_configs)@), i),
                    resolved_book(old(node_configs)@),
                    ca.cert,
                )
        },
{
    let ghost before = node_configs@;
    let ghost decls = declarations(before);
    let (selves, book) = match resolve_endpoints(node_configs) {
        Ok(found) => found,
        Err(e) => {
            return Err(TlsSetupError::Resolution(e));
        },
    };
    let bound = match bind_all(node_configs, &book) {
        Ok(b) => b,
        Err(e) => {
            return Err(TlsSetupError::Binding(e));
        },
    };
    let mut node_addrs: Vec<String> = Vec::new();
    let mut i: usize = 0;
    while i < node_configs.len()
        invariant
            node_configs@ == before,
            i <= before.len(),
            node_addrs@.len() == i,
            forall|k: int|
                0 <= k < i ==> #[trigger] node_addrs@[k] == before[k].controller.node_address,
        decreases before.len() - i,
    {
        node_addrs.push(node_configs[i].controller.node_address.clone());
        i += 1;
    }
    let (ca, leaves) = match generate_certs(node_addrs.as_slice()) {
        Ok(issued) => issued,
        Err(e) => {
            return Err(TlsSetupError::Issue(e));
        },
    };
    set_self_endpoints(node_configs, &selves);
    let ghost mid = node_configs@;
    assert forall|k: int| 0 <= k < before.len() implies #[trigger] peers_bound(
        mid[k].network.peers@,
        bound@[k]@,
        book@,
    ) by {
        assert(with_self_endpoint(before[k], mid[k], selves@[k]@));
        assert(peers_bound(before[k].network.peers@, bound@[k]@, book@));
    }
    install_credentials(node_configs, bound, Ghost(book@), &ca.cert, &leaves);
    assert forall|k: int| 0 <= k < before.len() implies provisioned(
        before[k],
        #[trigger] node_configs@[k],
        resolved_endpoint(decls, k),
        resolved_book(before),
        ca.cert,
    ) by {
        assert(endpoint_views(selves@)[k] == selves@[k]@);
        assert(resolved_endpoints(decls)[k] == resolved_endpoint(decls, k));
        assert(with_self_endpoint(before[k], mid[k], selves@[k]@));
        assert(with_credentials(mid[k], node_configs@[k], book@, ca.cert, leaves@[k].cert));
        assert(issued_as(leaves@[k], seq![node_addrs@[k]@], false));
    }
    Ok(ca)
}

} // verus!
