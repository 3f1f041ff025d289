//! What resolution guarantees, stated over the specification functions that
//! the contracts of `resolve` and `fill_network_tls_info` use.
use vstd::prelude::*;
use crate::current::Config;
use crate::topology::{
    address_map, candidates, declarations, declared, full_endpoint_set, lemma_address_map,
    logical_addresses, resolvable, resolvable_at, resolved_book, resolved_endpoint,
    resolved_endpoints, EndpointView,
};

verus! {

/// Where node `i` misses exactly `e`, it resolves to `e`.
pub proof fn lemma_sole_candidate(decls: Seq<Seq<EndpointView>>, i: int, e: EndpointView)
    requires
        candidates(decls, i) == set![e],
    ensures
        resolvable_at(decls, i),
        resolved_endpoint(decls, i) == e,
{
    let c = resolved_endpoint(decls, i);
    assert(set![c] == set![e]);
    assert(set![c].contains(c));
}

/// Each node declares the endpoints of all the other nodes and no other.
pub open spec fn consistent(decls: Seq<Seq<EndpointView>>, eps: Seq<EndpointView>, i: int) -> bool {
    decls[i].to_set() == eps.to_set().remove(eps[i])
}

proof fn lemma_others_resolve(decls: Seq<Seq<EndpointView>>, eps: Seq<EndpointView>, i: int)
    requires
        0 <= i < eps.len(),
        eps.no_duplicates(),
        full_endpoint_set(decls) == eps.to_set(),
        consistent(decls, eps, i),
    ensures
        resolvable_at(decls, i),
        resolved_endpoint(decls, i) == eps[i],
{
    assert(candidates(decls, i) =~= set![eps[i]]);
    lemma_sole_candidate(decls, i, eps[i]);
}

/// In a deployment of at least two nodes with distinct endpoints `eps`,
/// where each node declares exactly the endpoints of all other nodes, every
/// node resolves to its own endpoint; the resolved endpoints are distinct
/// and make up the full endpoint set; and the address book gives each
/// endpoint the logical address of its node, and knows no other endpoint.
pub proof fn lemma_consistent_deployment_resolves(nodes: Seq<Config>, eps: Seq<EndpointView>)
    requires
        nodes.len() >= 2,
        eps.len() == nodes.len(),
        eps.no_duplicates(),
        forall|i: int| 0 <= i < nodes.len() ==> consistent(declarations(nodes), eps, i),
    ensures
        resolvable(declarations(nodes)),
        resolved_endpoints(declarations(nodes)) == eps,
        resolved_endpoints(declarations(nodes)).no_duplicates(),
        resolved_endpoints(declarations(nodes)).to_set() == full_endpoint_set(declarations(nodes)),
        resolved_book(nodes).dom() == eps.to_set(),
        forall|i: int|
            0 <= i < nodes.len() ==> resolved_book(nodes)[#[trigger] eps[i]]
                == nodes[i].controller.node_address@,
{
    let decls = declarations(nodes);
    let all = eps.to_set();
    assert(consistent(decls, eps, 0));
    assert(consistent(decls, eps, 1));
    assert(eps[0] != eps[1]);
    assert(full_endpoint_set(decls) =~= all) by {
        assert(all.contains(eps[0]));
        assert(all.contains(eps[1]));
    }
    assert forall|i: int| 0 <= i < nodes.len() implies #[trigger] resolvable_at(decls, i)
        && resolved_endpoint(decls, i) == eps[i] by {
        assert(consistent(decls, eps, i));
        lemma_others_resolve(decls, eps, i);
    }
    assert(resolved_endpoints(decls) =~= eps) by {
        assert forall|i: int| 0 <= i < eps.len() implies resolved_endpoints(decls)[i] == eps[i] by {
            assert(resolvable_at(decls, i));
        }
    }
    let addrs = logical_addresses(nodes);
    assert(resolved_book(nodes).dom() =~= all) by {
        assert forall|x: EndpointView| resolved_book(nodes).dom().contains(x) <==> all.contains(x) by {
            lemma_address_map(eps, addrs, x);
        }
    }
    assert forall|i: int| 0 <= i < nodes.len() implies resolved_book(nodes)[#[trigger] eps[i]]
        == nodes[i].controller.node_address@ by {
        lemma_address_map(eps, addrs, eps[i]);
    }
}

/// A node that resolves does not declare its own endpoint, its own endpoint
/// lies in the full endpoint set, and its declared peers together with its
/// own endpoint leave nothing of the full endpoint set over.
pub proof fn lemma_resolved_endpoint_not_declared(decls: Seq<Seq<EndpointView>>, i: int)
    requires
        0 <= i < decls.len(),
        resolvable_at(decls, i),
    ensures
        !decls[i].contains(resolved_endpoint(decls, i)),
        full_endpoint_set(decls).contains(resolved_endpoint(decls, i)),
        full_endpoint_set(decls).difference(decls[i].to_set().insert(resolved_endpoint(decls, i)))
            == Set::<EndpointView>::empty(),
{
    let e = resolved_endpoint(decls, i);
    assert(candidates(decls, i) == set![e]);
    assert(candidates(decls, i).contains(e));
    assert(full_endpoint_set(decls).difference(decls[i].to_set().insert(e)) =~= Set::empty()) by {
        assert forall|x: EndpointView|
            full_endpoint_set(decls).contains(x) && !decls[i].to_set().contains(x) implies x
            == e by {
            assert(candidates(decls, i).contains(x));
        }
    }
}

/// Resolution does not depend on the order of the nodes after the first
/// two: where `other` lists the declarations of `decls` with only nodes from
/// the third on moved (`other[i]` is `decls[perm[i]]`), each node resolves,
/// and to the same endpoint, wherever it stands.
pub proof fn lemma_order_after_first_two_irrelevant(
    decls: Seq<Seq<EndpointView>>,
    other: Seq<Seq<EndpointView>>,
    perm: Seq<int>,
)
    requires
        other.len() == decls.len(),
        perm.len() == decls.len(),
        forall|i: int| 0 <= i < 2 && i < perm.len() ==> perm[i] == i,
        forall|i: int| 0 <= i < perm.len() ==> 0 <= #[trigger] perm[i] < decls.len(),
        forall|i: int| 0 <= i < other.len() ==> #[trigger] other[i] == decls[perm[i]],
    ensures
        forall|i: int|
            0 <= i < other.len() ==> (#[trigger] resolvable_at(other, i) <==> resolvable_at(
                decls,
                perm[i],
            )) && resolved_endpoint(other, i) == resolved_endpoint(decls, perm[i]),
        resolvable(decls) ==> resolvable(other),
{
    if other.len() >= 1 {
        assert(other[0] == decls[perm[0]]);
    }
    if other.len() >= 2 {
        assert(other[1] == decls[perm[1]]);
    }
    assert(full_endpoint_set(other) == full_endpoint_set(decls));
    assert forall|i: int| 0 <= i < other.len() implies (#[trigger] resolvable_at(other, i)
        <==> resolvable_at(decls, perm[i])) && resolved_endpoint(other, i) == resolved_endpoint(
        decls,
        perm[i],
    ) by {
        assert(other[i] == decls[perm[i]]);
        assert(candidates(other, i) == candidates(decls, perm[i]));
    }
    if resolvable(decls) {
        assert forall|i: int| 0 <= i < other.len() implies resolvable_at(other, i) by {
            assert(resolvable_at(decls, perm[i]));
        }
    }
}

/// Where every node but node `k` declares exactly the endpoints of the
/// others, and node `k` leaves out, beside its own, the endpoint of node `j`
/// as well (`k` and `j` not both among the first two nodes, which alone make
/// up the full set), node `k` does not resolve and every other node resolves
/// to its own endpoint.
pub proof fn lemma_missing_peer_detected(
    decls: Seq<Seq<EndpointView>>,
    eps: Seq<EndpointView>,
    k: int,
    j: int,
)
    requires
        decls.len() == eps.len(),
        eps.len() >= 2,
        eps.no_duplicates(),
        0 <= k < eps.len(),
        0 <= j < eps.len(),
        j != k,
        !(k < 2 && j < 2),
        forall|i: int| 0 <= i < eps.len() && i != k ==> consistent(decls, eps, i),
        decls[k].to_set() == eps.to_set().remove(eps[k]).remove(eps[j]),
    ensures
        !resolvable_at(decls, k),
        forall|i: int|
            0 <= i < eps.len() && i != k ==> #[trigger] resolvable_at(decls, i)
                && resolved_endpoint(decls, i) == eps[i],
{
    let all = eps.to_set();
    assert(eps[0] != eps[1]);
    assert(eps[k] != eps[j]);
    assert(all.contains(eps[0]) && all.contains(eps[1]) && all.contains(eps[j]) && all.contains(
        eps[k],
    ));
    if k >= 2 {
        assert(consistent(decls, eps, 0));
        assert(consistent(decls, eps, 1));
    } else if k == 0 {
        assert(consistent(decls, eps, 1));
        assert(eps[j] != eps[1]);
    } else {
        assert(consistent(decls, eps, 0));
        assert(eps[j] != eps[0]);
    }
    assert(full_endpoint_set(decls) =~= all);
    assert(full_endpoint_set(decls) == all);
    assert forall|i: int| 0 <= i < eps.len() && i != k implies #[trigger] resolvable_at(decls, i)
        && resolved_endpoint(decls, i) == eps[i] by {
        assert(consistent(decls, eps, i));
        lemma_others_resolve(decls, eps, i);
    }
    assert(candidates(decls, k) =~= set![eps[k], eps[j]]);
    assert(!resolvable_at(decls, k)) by {
        if resolvable_at(decls, k) {
            let e = choose|e: EndpointView| candidates(decls, k) == set![e];
            assert(set![e].contains(eps[k]));
            assert(set![e].contains(eps[j]));
        }
    }
}

/// Where every node but node `k` declares exactly the endpoints of the
/// others, and node `k` declares its own endpoint as well, node `k` does not
/// resolve and every other node resolves to its own endpoint.
pub proof fn lemma_self_declaration_detected(
    decls: Seq<Seq<EndpointView>>,
    eps: Seq<EndpointView>,
    k: int,
)
    requires
        decls.len() == eps.len(),
        eps.len() >= 2,
        eps.no_duplicates(),
        0 <= k < eps.len(),
        forall|i: int| 0 <= i < eps.len() && i != k ==> consistent(decls, eps, i),
        decls[k].to_set() == eps.to_set(),
    ensures
        !resolvable_at(decls, k),
        forall|i: int|
            0 <= i < eps.len() && i != k ==> #[trigger] resolvable_at(decls, i)
                && resolved_endpoint(decls, i) == eps[i],
{
    let all = eps.to_set();
    assert(eps[0] != eps[1]);
    assert(all.contains(eps[0]) && all.contains(eps[1]));
    if k >= 2 {
        assert(consistent(decls, eps, 0));
        assert(consistent(decls, eps, 1));
    } else if k == 0 {
        assert(consistent(decls, eps, 1));
    } else {
        assert(consistent(decls, eps, 0));
    }
    assert(full_endpoint_set(decls) =~= all);
    assert(candidates(decls, k) =~= Set::empty());
    assert(!resolvable_at(decls, k)) by {
        if resolvable_at(decls, k) {
            let e = choose|e: EndpointView| candidates(decls, k) == set![e];
            assert(set![e].contains(e));
        }
    }
    assert forall|i: int| 0 <= i < eps.len() && i != k implies #[trigger] resolvable_at(decls, i)
        && resolved_endpoint(decls, i) == eps[i] by {
        assert(consistent(decls, eps, i));
        lemma_others_resolve(decls, eps, i);
    }
}

} // verus!
