//! The validation rules over a resolved network, and `validate`, which
//! applies all of them.

use vstd::prelude::*;

use crate::error::{errors_view, ValidationError, ValidationErrorV};
use crate::types::{Edge, EdgeOrigin, FieldType, FieldTypeV, Network, Transport};

verus! {

// ---------------------------------------------------------------------------
// Specifications
// ---------------------------------------------------------------------------

/// Some edge of `edges` has the given origin and connects `e`'s two nodes
/// with `e`'s contract.
pub open spec fn has_counterpart(edges: Seq<Edge>, origin: EdgeOrigin, e: Edge) -> bool {
    exists|j: int|
        0 <= j < edges.len() && (#[trigger] edges[j]).origin == origin && edges[j].from_node
            == e.from_node && edges[j].to_node == e.to_node && edges[j].contract == e.contract
}

/// The error reported for an edge without counterpart: an `UnmatchedSend`
/// for a send edge, an `UnmatchedReceive` for a receive edge.
pub open spec fn unmatched_error(net: &Network, e: Edge) -> ValidationErrorV {
    let f = net.nodes@[e.from_node.0 as int].name@;
    let t = net.nodes@[e.to_node.0 as int].name@;
    let c = net.contracts@[e.contract.0 as int].name@;
    match e.origin {
        EdgeOrigin::Send => ValidationErrorV::UnmatchedSend { from_node: f, to_node: t, contract: c },
        EdgeOrigin::Receive => ValidationErrorV::UnmatchedReceive {
            from_node: f,
            to_node: t,
            contract: c,
        },
    }
}

/// The other side of an edge origin.
pub open spec fn opposite(o: EdgeOrigin) -> EdgeOrigin {
    match o {
        EdgeOrigin::Send => EdgeOrigin::Receive,
        EdgeOrigin::Receive => EdgeOrigin::Send,
    }
}

/// The errors for the first `k` edges: one for each edge of origin `origin`
/// that has no edge of the opposite origin with the same
/// (from_node, to_node, contract) triple, in edge order.
pub open spec fn unmatched_errors_upto(net: &Network, origin: EdgeOrigin, k: int) -> Seq<
    ValidationErrorV,
>
    decreases k,
{
    if k <= 0 {
        Seq::empty()
    } else {
        let prev = unmatched_errors_upto(net, origin, k - 1);
        let e = net.edges@[k - 1];
        if e.origin == origin && !has_counterpart(net.edges@, opposite(origin), e) {
            prev.push(unmatched_error(net, e))
        } else {
            prev
        }
    }
}

/// The errors of `check_unmatched_sends`.
pub open spec fn unmatched_send_errors(net: &Network) -> Seq<ValidationErrorV> {
    unmatched_errors_upto(net, EdgeOrigin::Send, net.edges@.len() as int)
}

/// The errors of `check_unmatched_receives`.
pub open spec fn unmatched_receive_errors(net: &Network) -> Seq<ValidationErrorV> {
    unmatched_errors_upto(net, EdgeOrigin::Receive, net.edges@.len() as int)
}

/// Node `i` is an endpoint of some edge.
pub open spec fn is_referenced(net: &Network, i: int) -> bool {
    exists|j: int|
        0 <= j < net.edges@.len() && ((#[trigger] net.edges@[j]).from_node.0 == i
            || net.edges@[j].to_node.0 == i)
}

/// One `OrphanNode` error for each of the first `k` nodes that is an endpoint
/// of no edge, in node order.
pub open spec fn orphan_errors_upto(net: &Network, k: int) -> Seq<ValidationErrorV>
    decreases k,
{
    if k <= 0 {
        Seq::empty()
    } else {
        let prev = orphan_errors_upto(net, k - 1);
        if !is_referenced(net, k - 1) {
            prev.push(ValidationErrorV::OrphanNode { node: net.nodes@[k - 1].name@ })
        } else {
            prev
        }
    }
}

/// The errors of `check_orphan_nodes`.
pub open spec fn orphan_errors(net: &Network) -> Seq<ValidationErrorV> {
    orphan_errors_upto(net, net.nodes@.len() as int)
}

/// A field type is plain old data: it holds no nested struct, at any depth
/// of arrays.
pub open spec fn spec_is_pod(t: FieldTypeV) -> bool
    decreases t,
{
    match t {
        FieldTypeV::Nested(_) => false,
        FieldTypeV::Array(elem, _) => spec_is_pod(*elem),
        _ => true,
    }
}

/// One `IceoryxPodViolation` for each of the first `k` fields that is not
/// POD, in field order.
pub open spec fn pod_errors_fields(contract: Seq<char>, fields: Seq<(Seq<char>, FieldTypeV)>, k: int) -> Seq<
    ValidationErrorV,
>
    decreases k,
{
    if k <= 0 {
        Seq::empty()
    } else {
        let prev = pod_errors_fields(contract, fields, k - 1);
        if !spec_is_pod(fields[k - 1].1) {
            prev.push(
                ValidationErrorV::IceoryxPodViolation { contract: contract, field: fields[k - 1].0 },
            )
        } else {
            prev
        }
    }
}

/// The POD violations of the first `k` structs of a schema, struct by struct.
pub open spec fn pod_errors_structs(
    contract: Seq<char>,
    structs: Seq<(Seq<char>, Seq<(Seq<char>, FieldTypeV)>)>,
    k: int,
) -> Seq<ValidationErrorV>
    decreases k,
{
    if k <= 0 {
        Seq::empty()
    } else {
        pod_errors_structs(contract, structs, k - 1) + pod_errors_fields(
            contract,
            structs[k - 1].1,
            structs[k - 1].1.len() as int,
        )
    }
}

/// The POD violations of the first `k` contracts: only contracts on the
/// Iceoryx transport are looked at, in contract order.
pub open spec fn pod_errors_upto(net: &Network, k: int) -> Seq<ValidationErrorV>
    decreases k,
{
    if k <= 0 {
        Seq::empty()
    } else {
        let prev = pod_errors_upto(net, k - 1);
        let c = net.contracts@[k - 1];
        if c.transport == Transport::Iceoryx {
            let structs = net.schemas@[c.schema.0 as int]@.1;
            prev + pod_errors_structs(c.name@, structs, structs.len() as int)
        } else {
            prev
        }
    }
}

/// The errors of `check_iceoryx_pod`.
pub open spec fn pod_errors(net: &Network) -> Seq<ValidationErrorV> {
    pod_errors_upto(net, net.contracts@.len() as int)
}

/// The `i`-th name occurs among the first `i` names.
pub open spec fn seen_before(names: Seq<Seq<char>>, i: int) -> bool {
    exists|j: int| 0 <= j < i && #[trigger] names[j] == names[i]
}

/// One error per name of the first `k` that repeats an earlier name, in
/// order; `node` chooses the error variant.
pub open spec fn duplicate_errors_upto(names: Seq<Seq<char>>, node: bool, k: int) -> Seq<
    ValidationErrorV,
>
    decreases k,
{
    if k <= 0 {
        Seq::empty()
    } else {
        let prev = duplicate_errors_upto(names, node, k - 1);
        if seen_before(names, k - 1) {
            prev.push(
                if node {
                    ValidationErrorV::DuplicateNodeName { name: names[k - 1] }
                } else {
                    ValidationErrorV::DuplicateContractName { name: names[k - 1] }
                },
            )
        } else {
            prev
        }
    }
}

/// The errors of `check_duplicate_names`: duplicate node names first, then
/// duplicate contract names.
pub open spec fn duplicate_errors(net: &Network) -> Seq<ValidationErrorV> {
    duplicate_errors_upto(net.node_names(), true, net.nodes@.len() as int) + duplicate_errors_upto(
        net.contract_names(),
        false,
        net.contracts@.len() as int,
    )
}

/// All errors of a network, rule after rule, in the order `validate` applies
/// the rules.
pub open spec fn all_errors(net: &Network) -> Seq<ValidationErrorV> {
    unmatched_send_errors(net) + unmatched_receive_errors(net) + orphan_errors(net) + pod_errors(
        net,
    ) + duplicate_errors(net)
}

/// `after` is `before` with errors whose views are `added` appended.
pub open spec fn appended(
    before: Seq<ValidationError>,
    after: Seq<ValidationError>,
    added: Seq<ValidationErrorV>,
) -> bool {
    &&& after.len() == before.len() + added.len()
    &&& after.subrange(0, before.len() as int) == before
    &&& errors_view(after) == errors_view(before) + added
}

proof fn lemma_appended_push(
    before: Seq<ValidationError>,
    mid: Seq<ValidationError>,
    added: Seq<ValidationErrorV>,
    e: ValidationError,
)
    requires
        appended(before, mid, added),
    ensures
        appended(before, mid.push(e), added.push(e@)),
{
    assert(mid.push(e).subrange(0, before.len() as int) =~= mid.subrange(0, before.len() as int));
    assert(errors_view(mid.push(e)) =~= errors_view(mid).push(e@));
    assert(errors_view(before) + added.push(e@) =~= (errors_view(before) + added).push(e@));
}

proof fn lemma_appended_trans(
    a: Seq<ValidationError>,
    b: Seq<ValidationError>,
    c: Seq<ValidationError>,
    x: Seq<ValidationErrorV>,
    y: Seq<ValidationErrorV>,
)
    requires
        appended(a, b, x),
        appended(b, c, y),
    ensures
        appended(a, c, x + y),
{
    assert(c.subrange(0, a.len() as int) =~= b.subrange(0, a.len() as int)) by {
        assert forall|i: int| 0 <= i < a.len() implies c.subrange(0, a.len() as int)[i] == b[i] by {
            assert(c[i] == c.subrange(0, b.len() as int)[i]);
        }
    }
    assert(errors_view(a) + (x + y) =~= errors_view(a) + x + y);
}

proof fn lemma_appended_refl(a: Seq<ValidationError>)
    ensures
        appended(a, a, Seq::empty()),
{
    assert(a.subrange(0, a.len() as int) =~= a);
    assert(errors_view(a) + Seq::<ValidationErrorV>::empty() =~= errors_view(a));
}

// ---------------------------------------------------------------------------
// Rules
// ---------------------------------------------------------------------------

/// Whether some edge has origin `origin` and the triple of `e`.
fn has_counterpart_exec(edges: &Vec<Edge>, origin: EdgeOrigin, e: Edge) -> (r: bool)
    ensures
        r == has_counterpart(edges@, origin, e),
{
    let mut j: usize = 0;
    while j < edges.len()
        invariant
            j <= edges@.len(),
            forall|k: int|
                0 <= k < j ==> !((#[trigger] edges@[k]).origin == origin && edges@[k].from_node
                    == e.from_node && edges@[k].to_node == e.to_node && edges@[k].contract
                    == e.contract),
        decreases edges@.len() - j,
    {
        let x = edges[j];
        if x.origin == origin && x.from_node == e.from_node && x.to_node == e.to_node
            && x.contract == e.contract {
            return true;
        }
        j += 1;
    }
    false
}

/// Append an error for each edge of origin `origin` that lacks an edge of the
/// opposite origin with the same triple.
fn check_unmatched(network: &Network, origin: EdgeOrigin, errors: &mut Vec<ValidationError>)
    requires
        network.edges_wf(),
    ensures
        appended(old(errors)@, final(errors)@, unmatched_errors_upto(network, origin, network.edges@.len() as int)),
{
    let other = match origin {
        EdgeOrigin::Send => EdgeOrigin::Receive,
        EdgeOrigin::Receive => EdgeOrigin::Send,
    };
    proof {
        lemma_appended_refl(old(errors)@);
    }
    let mut i: usize = 0;
    while i < network.edges.len()
        invariant
            network.edges_wf(),
            other == opposite(origin),
            i <= network.edges@.len(),
            appended(old(errors)@, errors@, unmatched_errors_upto(network, origin, i as int)),
        decreases network.edges@.len() - i,
    {
        let e = network.edges[i];
        if e.origin == origin && !has_counterpart_exec(&network.edges, other, e) {
            let f = network.nodes[e.from_node.0].name.clone();
            let t = network.nodes[e.to_node.0].name.clone();
            let c = network.contracts[e.contract.0].name.clone();
            let err = match origin {
                EdgeOrigin::Send => ValidationError::UnmatchedSend {
                    from_node: f,
                    to_node: t,
                    contract: c,
                },
                EdgeOrigin::Receive => ValidationError::UnmatchedReceive {
                    from_node: f,
                    to_node: t,
                    contract: c,
                },
            };
            proof {
                lemma_appended_push(
                    old(errors)@,
                    errors@,
                    unmatched_errors_upto(network, origin, i as int),
                    err,
                );
            }
            errors.push(err);
        }
        i += 1;
    }
}

/// For each Send edge, verify a matching Receive edge exists with the same
/// (from_node, to_node, contract) triple; append an `UnmatchedSend` for each
/// Send edge without one, in edge order.
pub fn check_unmatched_sends(network: &Network, errors: &mut Vec<ValidationError>)
    requires
        network.edges_wf(),
    ensures
        appended(old(errors)@, final(errors)@, unmatched_send_errors(network)),
{
    check_unmatched(network, EdgeOrigin::Send, errors);
}

/// For each Receive edge, verify a matching Send edge exists with the same
/// (from_node, to_node, contract) triple; append an `UnmatchedReceive` for
/// each Receive edge without one, in edge order.
pub fn check_unmatched_receives(network: &Network, errors: &mut Vec<ValidationError>)
    requires
        network.edges_wf(),
    ensures
        appended(old(errors)@, final(errors)@, unmatched_receive_errors(network)),
{
    check_unmatched(network, EdgeOrigin::Receive, errors);
}


/// Whether node `i` is an endpoint of some edge.
fn is_referenced_exec(network: &Network, i: usize) -> (r: bool)
    ensures
        r == is_referenced(network, i as int),
{
    let mut j: usize = 0;
    while j < network.edges.len()
        invariant
            j <= network.edges@.len(),
            forall|k: int|
                0 <= k < j ==> !((#[trigger] network.edges@[k]).from_node.0 == i
                    || network.edges@[k].to_node.0 == i),
        decreases network.edges@.len() - j,
    {
        let e = network.edges[j];
        if e.from_node.0 == i || e.to_node.0 == i {
            return true;
        }
        j += 1;
    }
    false
}

/// A node is orphaned if it appears in no edges at all (neither as sender
/// nor receiver); append an `OrphanNode` for each, in node order.
pub fn check_orphan_nodes(network: &Network, errors: &mut Vec<ValidationError>)
    ensures
        appended(old(errors)@, final(errors)@, orphan_errors(network)),
{
    proof {
        lemma_appended_refl(old(errors)@);
    }
    let mut i: usize = 0;
    while i < network.nodes.len()
        invariant
            i <= network.nodes@.len(),
            appended(old(errors)@, errors@, orphan_errors_upto(network, i as int)),
        decreases network.nodes@.len() - i,
    {
        if !is_referenced_exec(network, i) {
            let err = ValidationError::OrphanNode { node: network.nodes[i].name.clone() };
            proof {
                lemma_appended_push(old(errors)@, errors@, orphan_errors_upto(network, i as int), err);
            }
            errors.push(err);
        }
        i += 1;
    }
}

/// Returns true if the FieldType is considered POD (plain old data) for
/// iceoryx. Nested types are not POD because they reference another named
/// struct type and cannot be guaranteed to be fixed-layout / trivially
/// copyable at this level of analysis.
fn is_pod(typ: &FieldType) -> (r: bool)
    ensures
        r == spec_is_pod(typ@),
    decreases typ,
{
    match typ {
        FieldType::Nested(_) => false,
        FieldType::Array { elem, .. } => is_pod(elem),
        _ => true,
    }
}

/// For every contract using Iceoryx transport, all schema fields must be
/// POD; append an `IceoryxPodViolation` for each field that is not, in
/// contract, struct and field order.
pub fn check_iceoryx_pod(network: &Network, errors: &mut Vec<ValidationError>)
    requires
        network.schemas_wf(),
    ensures
        appended(old(errors)@, final(errors)@, pod_errors(network)),
{
    proof {
        lemma_appended_refl(old(errors)@);
    }
    let mut ci: usize = 0;
    while ci < network.contracts.len()
        invariant
            network.schemas_wf(),
            ci <= network.contracts@.len(),
            appended(old(errors)@, errors@, pod_errors_upto(network, ci as int)),
        decreases network.contracts@.len() - ci,
    {
        let contract = &network.contracts[ci];
        if contract.transport == Transport::Iceoryx {
            let schema = &network.schemas[contract.schema.0];
            let ghost structs = schema@.1;
            let ghost before = errors@;
            proof {
                lemma_appended_refl(errors@);
            }
            let mut si: usize = 0;
            while si < schema.structs.len()
                invariant
                    0 <= si <= schema.structs@.len(),
                    structs == schema.structs@.map_values(|s: crate::types::StructDef| s@),
                    appended(before, errors@, pod_errors_structs(contract.name@, structs, si as int)),
                decreases schema.structs@.len() - si,
            {
                let sd = &schema.structs[si];
                let ghost fields = sd@.1;
                let ghost mid = errors@;
                proof {
                    lemma_appended_refl(errors@);
                }
                let mut fi: usize = 0;
                while fi < sd.fields.len()
                    invariant
                        0 <= fi <= sd.fields@.len(),
                        fields == sd.fields@.map_values(|f: crate::types::Field| f@),
                        appended(mid, errors@, pod_errors_fields(contract.name@, fields, fi as int)),
                    decreases sd.fields@.len() - fi,
                {
                    let field = &sd.fields[fi];
                    if !is_pod(&field.typ) {
                        let err = ValidationError::IceoryxPodViolation {
                            contract: contract.name.clone(),
                            field: field.name.clone(),
                        };
                        proof {
                            lemma_appended_push(
                                mid,
                                errors@,
                                pod_errors_fields(contract.name@, fields, fi as int),
                                err,
                            );
                        }
                        errors.push(err);
                    }
                    fi += 1;
                }
                proof {
                    assert(structs[si as int] == sd@);
                    lemma_appended_trans(
                        before,
                        mid,
                        errors@,
                        pod_errors_structs(contract.name@, structs, si as int),
                        pod_errors_fields(contract.name@, fields, fields.len() as int),
                    );
                }
                si += 1;
            }
            proof {
                lemma_appended_trans(
                    old(errors)@,
                    before,
                    errors@,
                    pod_errors_upto(network, ci as int),
                    pod_errors_structs(contract.name@, structs, structs.len() as int),
                );
            }
        }
        ci += 1;
    }
}

/// Whether `names[i]` equals one of `names[0..i]`.
fn seen_before_exec(names: &Vec<String>, i: usize) -> (r: bool)
    requires
        i < names@.len(),
    ensures
        r == seen_before(names@.map_values(|s: String| s@), i as int),
{
    let ghost v = names@.map_values(|s: String| s@);
    let mut j: usize = 0;
    while j < i
        invariant
            j <= i < names@.len(),
            v == names@.map_values(|s: String| s@),
            forall|k: int| 0 <= k < j ==> v[k] != v[i as int],
        decreases i - j,
    {
        if names[j] == names[i] {
            assert(v[j as int] == v[i as int]);
            return true;
        }
        j += 1;
    }
    false
}

/// Append one duplicate-name error (node or contract as `node` says) for each
/// name that repeats an earlier one.
fn check_duplicates_in(names: &Vec<String>, node: bool, errors: &mut Vec<ValidationError>)
    ensures
        appended(
            old(errors)@,
            final(errors)@,
            duplicate_errors_upto(names@.map_values(|s: String| s@), node, names@.len() as int),
        ),
{
    let ghost v = names@.map_values(|s: String| s@);
    proof {
        lemma_appended_refl(old(errors)@);
    }
    let mut i: usize = 0;
    while i < names.len()
        invariant
            i <= names@.len(),
            v == names@.map_values(|s: String| s@),
            appended(old(errors)@, errors@, duplicate_errors_upto(v, node, i as int)),
        decreases names@.len() - i,
    {
        if seen_before_exec(names, i) {
            let name = names[i].clone();
            let err = if node {
                ValidationError::DuplicateNodeName { name }
            } else {
                ValidationError::DuplicateContractName { name }
            };
            proof {
                lemma_appended_push(old(errors)@, errors@, duplicate_errors_upto(v, node, i as int), err);
            }
            errors.push(err);
        }
        i += 1;
    }
}

/// Check for duplicate node names and duplicate contract names: append a
/// `DuplicateNodeName` for each node whose name an earlier node has, then a
/// `DuplicateContractName` for each such contract.
pub fn check_duplicate_names(network: &Network, errors: &mut Vec<ValidationError>)
    ensures
        appended(old(errors)@, final(errors)@, duplicate_errors(network)),
{
    let mut node_names: Vec<String> = Vec::new();
    let mut i: usize = 0;
    while i < network.nodes.len()
        invariant
            i <= network.nodes@.len(),
            node_names@.len() == i,
            forall|k: int| 0 <= k < i ==> #[trigger] node_names@[k]@ == network.nodes@[k].name@,
        decreases network.nodes@.len() - i,
    {
        node_names.push(network.nodes[i].name.clone());
        i += 1;
    }
    let mut contract_names: Vec<String> = Vec::new();
    let mut i: usize = 0;
    while i < network.contracts.len()
        invariant
            i <= network.contracts@.len(),
            contract_names@.len() == i,
            forall|k: int| 0 <= k < i ==> #[trigger] contract_names@[k]@ == network.contracts@[k].name@,
        decreases network.contracts@.len() - i,
    {
        contract_names.push(network.contracts[i].name.clone());
        i += 1;
    }
    assert(node_names@.map_values(|s: String| s@) =~= network.node_names());
    assert(contract_names@.map_values(|s: String| s@) =~= network.contract_names());
    let ghost e0 = errors@;
    check_duplicates_in(&node_names, true, errors);
    let ghost e1 = errors@;
    check_duplicates_in(&contract_names, false, errors);
    proof {
        lemma_appended_trans(
            e0,
            e1,
            errors@,
            duplicate_errors_upto(network.node_names(), true, network.nodes@.len() as int),
            duplicate_errors_upto(network.contract_names(), false, network.contracts@.len() as int),
        );
    }
}

/// Validate a resolved network. Returns Ok(()) if valid, or a Vec of all
/// errors found. All rules are applied and every error is collected before
/// returning: no short-circuiting.
pub fn validate(network: &Network) -> (r: Result<(), Vec<ValidationError>>)
    requires
        network.wf(),
    ensures
        r is Ok <==> all_errors(network).len() == 0,
        r matches Err(errs) ==> errors_view(errs@) == all_errors(network),
{
    let mut errors: Vec<ValidationError> = Vec::new();
    let ghost e0 = errors@;
    check_unmatched_sends(network, &mut errors);
    let ghost e1 = errors@;
    check_unmatched_receives(network, &mut errors);
    let ghost e2 = errors@;
    check_orphan_nodes(network, &mut errors);
    let ghost e3 = errors@;
    check_iceoryx_pod(network, &mut errors);
    let ghost e4 = errors@;
    check_duplicate_names(network, &mut errors);
    proof {
        lemma_appended_trans(e0, e1, e2, unmatched_send_errors(network), unmatched_receive_errors(network));
        lemma_appended_trans(
            e0,
            e2,
            e3,
            unmatched_send_errors(network) + unmatched_receive_errors(network),
            orphan_errors(network),
        );
        lemma_appended_trans(
            e0,
            e3,
            e4,
            unmatched_send_errors(network) + unmatched_receive_errors(network) + orphan_errors(network),
            pod_errors(network),
        );
        lemma_appended_trans(
            e0,
            e4,
            errors@,
            unmatched_send_errors(network) + unmatched_receive_errors(network) + orphan_errors(network)
                + pod_errors(network),
            duplicate_errors(network),
        );
        assert(errors_view(e0) =~= Seq::<ValidationErrorV>::empty());
        assert(errors_view(errors@) =~= all_errors(network));
    }
    if errors.len() == 0 {
        Ok(())
    } else {
        Err(errors)
    }
}

// ---------------------------------------------------------------------------
// What validation accepts
// ---------------------------------------------------------------------------

/// Every edge of origin `origin` has an edge of the opposite origin with the
/// same nodes and contract.
pub open spec fn all_matched(net: &Network, origin: EdgeOrigin) -> bool {
    forall|j: int|
        0 <= j < net.edges@.len() && (#[trigger] net.edges@[j]).origin == origin
            ==> has_counterpart(net.edges@, opposite(origin), net.edges@[j])
}

/// Every node is an endpoint of some edge.
pub open spec fn all_referenced(net: &Network) -> bool {
    forall|i: int| 0 <= i < net.nodes@.len() ==> #[trigger] is_referenced(net, i)
}

/// Every field of every struct of the schema of every Iceoryx contract is
/// plain old data.
pub open spec fn all_iceoryx_pod(net: &Network) -> bool {
    forall|c: int, s: int, f: int|
        0 <= c < net.contracts@.len() && (#[trigger] net.contracts@[c]).transport
            == Transport::Iceoryx && 0 <= s < net.schemas@[net.contracts@[c].schema.0 as int]@.1.len()
            && 0 <= f < net.schemas@[net.contracts@[c].schema.0 as int]@.1[s].1.len()
            ==> spec_is_pod(#[trigger] net.schemas@[net.contracts@[c].schema.0 as int]@.1[s].1[f].1)
}

/// No two of the names are equal.
pub open spec fn all_distinct(names: Seq<Seq<char>>) -> bool {
    forall|a: int, b: int| 0 <= a < b < names.len() ==> #[trigger] names[a] != #[trigger] names[b]
}

/// A network that every rule accepts.
pub open spec fn sound_network(net: &Network) -> bool {
    &&& all_matched(net, EdgeOrigin::Send)
    &&& all_matched(net, EdgeOrigin::Receive)
    &&& all_referenced(net)
    &&& all_iceoryx_pod(net)
    &&& all_distinct(net.node_names())
    &&& all_distinct(net.contract_names())
}

proof fn lemma_unmatched_none(net: &Network, origin: EdgeOrigin, k: int)
    requires
        0 <= k <= net.edges@.len(),
    ensures
        unmatched_errors_upto(net, origin, k).len() == 0 <==> forall|j: int|
            0 <= j < k && (#[trigger] net.edges@[j]).origin == origin ==> has_counterpart(
                net.edges@,
                opposite(origin),
                net.edges@[j],
            ),
    decreases k,
{
    if k > 0 {
        lemma_unmatched_none(net, origin, k - 1);
    }
}

proof fn lemma_orphans_none(net: &Network, k: int)
    requires
        0 <= k <= net.nodes@.len(),
    ensures
        orphan_errors_upto(net, k).len() == 0 <==> forall|i: int|
            0 <= i < k ==> #[trigger] is_referenced(net, i),
    decreases k,
{
    if k > 0 {
        lemma_orphans_none(net, k - 1);
    }
}

proof fn lemma_pod_fields_none(contract: Seq<char>, fields: Seq<(Seq<char>, FieldTypeV)>, k: int)
    requires
        0 <= k <= fields.len(),
    ensures
        pod_errors_fields(contract, fields, k).len() == 0 <==> forall|f: int|
            0 <= f < k ==> spec_is_pod(#[trigger] fields[f].1),
    decreases k,
{
    if k > 0 {
        lemma_pod_fields_none(contract, fields, k - 1);
    }
}

proof fn lemma_pod_structs_none(
    contract: Seq<char>,
    structs: Seq<(Seq<char>, Seq<(Seq<char>, FieldTypeV)>)>,
    k: int,
)
    requires
        0 <= k <= structs.len(),
    ensures
        pod_errors_structs(contract, structs, k).len() == 0 <==> forall|s: int, f: int|
            0 <= s < k && 0 <= f < structs[s].1.len() ==> spec_is_pod(#[trigger] structs[s].1[f].1),
    decreases k,
{
    if k > 0 {
        lemma_pod_structs_none(contract, structs, k - 1);
        lemma_pod_fields_none(contract, structs[k - 1].1, structs[k - 1].1.len() as int);
        if pod_errors_structs(contract, structs, k).len() == 0 {
            assert forall|s: int, f: int|
                0 <= s < k && 0 <= f < structs[s].1.len() implies spec_is_pod(
                #[trigger] structs[s].1[f].1,
            ) by {
                if s == k - 1 {
                    assert(spec_is_pod(structs[k - 1].1[f].1));
                }
            }
        }
    }
}

proof fn lemma_pod_none(net: &Network, k: int)
    requires
        0 <= k <= net.contracts@.len(),
    ensures
        pod_errors_upto(net, k).len() == 0 <==> forall|c: int, s: int, f: int|
            0 <= c < k && (#[trigger] net.contracts@[c]).transport == Transport::Iceoryx && 0 <= s
                < net.schemas@[net.contracts@[c].schema.0 as int]@.1.len() && 0 <= f
                < net.schemas@[net.contracts@[c].schema.0 as int]@.1[s].1.len() ==> spec_is_pod(
                #[trigger] net.schemas@[net.contracts@[c].schema.0 as int]@.1[s].1[f].1,
            ),
    decreases k,
{
    if k > 0 {
        lemma_pod_none(net, k - 1);
        let c = net.contracts@[k - 1];
        let structs = net.schemas@[c.schema.0 as int]@.1;
        lemma_pod_structs_none(c.name@, structs, structs.len() as int);
        if pod_errors_upto(net, k).len() == 0 {
            assert forall|ci: int, s: int, f: int|
                0 <= ci < k && (#[trigger] net.contracts@[ci]).transport == Transport::Iceoryx
                    && 0 <= s < net.schemas@[net.contracts@[ci].schema.0 as int]@.1.len() && 0 <= f
                    < net.schemas@[net.contracts@[ci].schema.0 as int]@.1[s].1.len()
                implies spec_is_pod(
                #[trigger] net.schemas@[net.contracts@[ci].schema.0 as int]@.1[s].1[f].1,
            ) by {
                if ci == k - 1 {
                    assert(spec_is_pod(structs[s].1[f].1));
                }
            }
        }
    }
}

proof fn lemma_duplicates_none(names: Seq<Seq<char>>, node: bool, k: int)
    requires
        0 <= k <= names.len(),
    ensures
        duplicate_errors_upto(names, node, k).len() == 0 <==> forall|a: int, b: int|
            0 <= a < b < k ==> #[trigger] names[a] != #[trigger] names[b],
    decreases k,
{
    if k > 0 {
        lemma_duplicates_none(names, node, k - 1);
        if seen_before(names, k - 1) {
            let j = choose|j: int| 0 <= j < k - 1 && #[trigger] names[j] == names[k - 1];
            assert(names[j] == names[k - 1]);
        }
        if duplicate_errors_upto(names, node, k).len() == 0 {
            assert forall|a: int, b: int| 0 <= a < b < k implies #[trigger] names[a]
                != #[trigger] names[b] by {
                if b == k - 1 && names[a] == names[b] {
                    assert(seen_before(names, k - 1));
                }
            }
        }
    }
}

/// `validate` accepts a network exactly when every rule does: every send
/// edge is matched by a receive edge with the same nodes and contract and
/// every receive edge by such a send edge, every node takes part in some
/// edge, every field of a contract on Iceoryx is plain old data, and no two
/// nodes and no two contracts share a name.
pub proof fn law_validate_accepts_sound_networks(net: &Network)
    requires
        net.wf(),
    ensures
        all_errors(net).len() == 0 <==> sound_network(net),
{
    lemma_unmatched_none(net, EdgeOrigin::Send, net.edges@.len() as int);
    lemma_unmatched_none(net, EdgeOrigin::Receive, net.edges@.len() as int);
    lemma_orphans_none(net, net.nodes@.len() as int);
    lemma_pod_none(net, net.contracts@.len() as int);
    lemma_duplicates_none(net.node_names(), true, net.nodes@.len() as int);
    lemma_duplicates_none(net.contract_names(), false, net.contracts@.len() as int);
    assert(all_matched(net, EdgeOrigin::Send) <==> unmatched_send_errors(net).len() == 0);
    assert(all_matched(net, EdgeOrigin::Receive) <==> unmatched_receive_errors(net).len() == 0);
}

/// The type under all array wrappers of a field type.
pub open spec fn innermost(t: FieldTypeV) -> FieldTypeV
    decreases t,
{
    match t {
        FieldTypeV::Array(e, _) => innermost(*e),
        _ => t,
    }
}

/// A field type is plain old data exactly when, under all its array
/// wrappers, it is not a nested struct: primitives, fixed bytes, fixed
/// strings and arrays of them at any depth are; a nested struct, or an
/// array of one at any depth, is not.
pub proof fn law_pod_is_no_nested_struct(t: FieldTypeV)
    ensures
        spec_is_pod(t) <==> !(innermost(t) is Nested),
    decreases t,
{
    if let FieldTypeV::Array(e, _) = t {
        law_pod_is_no_nested_struct(*e);
    }
}

// ---------------------------------------------------------------------------
// Which edges are matched
// ---------------------------------------------------------------------------

proof fn lemma_unmatched_kept(net: &Network, origin: EdgeOrigin, j: int, k: int)
    requires
        0 <= j < k <= net.edges@.len(),
        net.edges@[j].origin == origin,
        !has_counterpart(net.edges@, opposite(origin), net.edges@[j]),
    ensures
        unmatched_errors_upto(net, origin, k).contains(unmatched_error(net, net.edges@[j])),
    decreases k,
{
    let prev = unmatched_errors_upto(net, origin, k - 1);
    let cur = unmatched_errors_upto(net, origin, k);
    if j == k - 1 {
        assert(cur.last() == unmatched_error(net, net.edges@[j]));
        assert(cur[cur.len() - 1] == unmatched_error(net, net.edges@[j]));
    } else {
        lemma_unmatched_kept(net, origin, j, k - 1);
        let i = choose|i: int| 0 <= i < prev.len() && prev[i] == unmatched_error(net, net.edges@[j]);
        assert(cur[i] == prev[i]);
    }
}

/// An edge with no edge of the opposite kind for the same nodes and
/// contract is among the reported ones.
proof fn lemma_lonely_edge_reported(net: &Network, j: int)
    requires
        0 <= j < net.edges@.len(),
        forall|k: int|
            0 <= k < net.edges@.len() ==> !(#[trigger] net.edges@[k] == (Edge {
                origin: opposite(net.edges@[j].origin),
                ..net.edges@[j]
            })),
    ensures
        unmatched_errors_upto(net, net.edges@[j].origin, net.edges@.len() as int).contains(
            unmatched_error(net, net.edges@[j]),
        ),
{
    let e = net.edges@[j];
    let n = net.edges@.len() as int;
    if has_counterpart(net.edges@, opposite(e.origin), e) {
        let k = choose|k: int|
            0 <= k < n && (#[trigger] net.edges@[k]).origin == opposite(e.origin)
                && net.edges@[k].from_node == e.from_node && net.edges@[k].to_node == e.to_node
                && net.edges@[k].contract == e.contract;
        assert(net.edges@[k] == (Edge { origin: opposite(e.origin), ..e }));
    }
    lemma_unmatched_kept(net, e.origin, j, n);
}

/// When every edge of one kind has an edge of the opposite kind for the
/// same nodes and contract, none of that kind is reported.
proof fn lemma_partnered_none(net: &Network, origin: EdgeOrigin)
    requires
        forall|a: int|
            0 <= a < net.edges@.len() && (#[trigger] net.edges@[a]).origin == origin
                ==> exists|b: int|
                0 <= b < net.edges@.len() && #[trigger] net.edges@[b] == (Edge {
                    origin: opposite(origin),
                    ..net.edges@[a]
                }),
    ensures
        unmatched_errors_upto(net, origin, net.edges@.len() as int).len() == 0,
{
    let n = net.edges@.len() as int;
    lemma_unmatched_none(net, origin, n);
    assert forall|a: int|
        0 <= a < n && (#[trigger] net.edges@[a]).origin == origin implies has_counterpart(
        net.edges@,
        opposite(origin),
        net.edges@[a],
    ) by {
        let b = choose|b: int|
            0 <= b < n && #[trigger] net.edges@[b] == (Edge { origin: opposite(origin), ..net.edges@[a] });
        assert(net.edges@[b].origin == opposite(origin));
    }
}

/// A send edge is matched only by a receive edge between the same two nodes
/// for the same contract: a send edge for which no receive edge has the
/// same sending node, receiving node and contract is reported, with the
/// names of its two nodes and its contract; and when every send edge has
/// such a receive edge, no send is reported.
pub proof fn law_sends_are_matched_by_same_triple(net: &Network, j: int)
    requires
        0 <= j < net.edges@.len(),
    ensures
        ({
            let e = net.edges@[j];
            e.origin == EdgeOrigin::Send && (forall|k: int|
                0 <= k < net.edges@.len() ==> !(#[trigger] net.edges@[k] == (Edge {
                    origin: EdgeOrigin::Receive,
                    ..e
                }))) ==> unmatched_send_errors(net).contains(
                ValidationErrorV::UnmatchedSend {
                    from_node: net.nodes@[e.from_node.0 as int].name@,
                    to_node: net.nodes@[e.to_node.0 as int].name@,
                    contract: net.contracts@[e.contract.0 as int].name@,
                },
            )
        }),
        (forall|a: int|
            0 <= a < net.edges@.len() && (#[trigger] net.edges@[a]).origin == EdgeOrigin::Send
                ==> exists|b: int|
                0 <= b < net.edges@.len() && #[trigger] net.edges@[b] == (Edge {
                    origin: EdgeOrigin::Receive,
                    ..net.edges@[a]
                })) ==> unmatched_send_errors(net).len() == 0,
{
    let e = net.edges@[j];
    if e.origin == EdgeOrigin::Send && (forall|k: int|
        0 <= k < net.edges@.len() ==> !(#[trigger] net.edges@[k] == (Edge {
            origin: EdgeOrigin::Receive,
            ..e
        }))) {
        lemma_lonely_edge_reported(net, j);
    }
    if forall|a: int|
        0 <= a < net.edges@.len() && (#[trigger] net.edges@[a]).origin == EdgeOrigin::Send
            ==> exists|b: int|
            0 <= b < net.edges@.len() && #[trigger] net.edges@[b] == (Edge {
                origin: EdgeOrigin::Receive,
                ..net.edges@[a]
            }) {
        lemma_partnered_none(net, EdgeOrigin::Send);
    }
}

/// A receive edge is matched only by a send edge between the same two
/// nodes for the same contract: a receive edge for which no send edge has
/// the same sending node, receiving node and contract is reported, with the
/// names of its two nodes and its contract; and when every receive edge has
/// such a send edge, no receive is reported.
pub proof fn law_receives_are_matched_by_same_triple(net: &Network, j: int)
    requires
        0 <= j < net.edges@.len(),
    ensures
        ({
            let e = net.edges@[j];
            e.origin == EdgeOrigin::Receive && (forall|k: int|
                0 <= k < net.edges@.len() ==> !(#[trigger] net.edges@[k] == (Edge {
                    origin: EdgeOrigin::Send,
                    ..e
                }))) ==> unmatched_receive_errors(net).contains(
                ValidationErrorV::UnmatchedReceive {
                    from_node: net.nodes@[e.from_node.0 as int].name@,
                    to_node: net.nodes@[e.to_node.0 as int].name@,
                    contract: net.contracts@[e.contract.0 as int].name@,
                },
            )
        }),
        (forall|a: int|
            0 <= a < net.edges@.len() && (#[trigger] net.edges@[a]).origin == EdgeOrigin::Receive
                ==> exists|b: int|
                0 <= b < net.edges@.len() && #[trigger] net.edges@[b] == (Edge {
                    origin: EdgeOrigin::Send,
                    ..net.edges@[a]
                })) ==> unmatched_receive_errors(net).len() == 0,
{
    let e = net.edges@[j];
    if e.origin == EdgeOrigin::Receive && (forall|k: int|
        0 <= k < net.edges@.len() ==> !(#[trigger] net.edges@[k] == (Edge {
            origin: EdgeOrigin::Send,
            ..e
        }))) {
        lemma_lonely_edge_reported(net, j);
    }
    if forall|a: int|
        0 <= a < net.edges@.len() && (#[trigger] net.edges@[a]).origin == EdgeOrigin::Receive
            ==> exists|b: int|
            0 <= b < net.edges@.len() && #[trigger] net.edges@[b] == (Edge {
                origin: EdgeOrigin::Send,
                ..net.edges@[a]
            }) {
        lemma_partnered_none(net, EdgeOrigin::Receive);
    }
}

} // verus!
