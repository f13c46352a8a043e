use nexus_gen::error::ValidationError;
use nexus_gen::rules::{
    check_duplicate_names, check_iceoryx_pod, check_orphan_nodes, check_unmatched_receives,
    check_unmatched_sends, validate,
};
use nexus_gen::types::{
    Contract, ContractIdx, Edge, EdgeOrigin, Field, FieldType, Network, Node, NodeIdx, Schema,
    SchemaIdx, StringHashMap, StructDef, Transport,
};

// -------------------------------------------------------------------------
// Helpers
// -------------------------------------------------------------------------

/// Build a minimal Network from scratch.
fn empty_network() -> Network {
    Network {
        nodes: Vec::new(),
        contracts: Vec::new(),
        schemas: Vec::new(),
        edges: Vec::new(),
        node_index: StringHashMap::new(),
        contract_index: StringHashMap::new(),
    }
}

fn add_node(net: &mut Network, name: &str) -> NodeIdx {
    let idx = NodeIdx(net.nodes.len());
    net.node_index.insert(name.to_string(), idx);
    net.nodes.push(Node {
        name: name.to_string(),
    });
    idx
}

fn add_schema(net: &mut Network, name: &str, fields: Vec<Field>) -> SchemaIdx {
    let idx = SchemaIdx(net.schemas.len());
    net.schemas.push(Schema {
        name: name.to_string(),
        structs: vec![StructDef {
            name: name.to_string(),
            fields,
        }],
    });
    idx
}

fn add_contract(
    net: &mut Network,
    name: &str,
    transport: Transport,
    schema: SchemaIdx,
) -> ContractIdx {
    let idx = ContractIdx(net.contracts.len());
    net.contract_index.insert(name.to_string(), idx);
    net.contracts.push(Contract {
        name: name.to_string(),
        transport,
        schema,
    });
    idx
}

fn add_edge(
    net: &mut Network,
    from: NodeIdx,
    to: NodeIdx,
    contract: ContractIdx,
    origin: EdgeOrigin,
) {
    net.edges.push(Edge {
        from_node: from,
        to_node: to,
        contract,
        origin,
    });
}

/// Construct a small valid network: A --msg--> B, with both Send and Receive edges.
fn make_valid_network() -> Network {
    let mut net = empty_network();
    let a = add_node(&mut net, "A");
    let b = add_node(&mut net, "B");
    let s = add_schema(
        &mut net,
        "msg",
        vec![Field {
            name: "x".into(),
            typ: FieldType::U32,
        }],
    );
    let c = add_contract(&mut net, "msg", Transport::UnixSocket, s);
    add_edge(&mut net, a, b, c, EdgeOrigin::Send);
    add_edge(&mut net, a, b, c, EdgeOrigin::Receive);
    net
}

#[test]
fn test_valid_network() {
    let net = make_valid_network();
    let mut errors = Vec::new();
    check_unmatched_sends(&net, &mut errors);
    check_unmatched_receives(&net, &mut errors);
    check_orphan_nodes(&net, &mut errors);
    check_iceoryx_pod(&net, &mut errors);
    check_duplicate_names(&net, &mut errors);
    assert!(errors.is_empty(), "Expected no errors, got: {errors:?}");
}

#[test]
fn test_unmatched_send() {
    let mut net = empty_network();
    let a = add_node(&mut net, "A");
    let b = add_node(&mut net, "B");
    let s = add_schema(&mut net, "msg", vec![]);
    let c = add_contract(&mut net, "msg", Transport::UnixSocket, s);
    // Only Send edge, no matching Receive
    add_edge(&mut net, a, b, c, EdgeOrigin::Send);

    let mut errors = Vec::new();
    check_unmatched_sends(&net, &mut errors);

    assert_eq!(errors.len(), 1);
    assert_eq!(
        errors[0],
        ValidationError::UnmatchedSend {
            from_node: "A".into(),
            to_node: "B".into(),
            contract: "msg".into(),
        }
    );
}

#[test]
fn test_unmatched_receive() {
    let mut net = empty_network();
    let a = add_node(&mut net, "A");
    let b = add_node(&mut net, "B");
    let s = add_schema(&mut net, "msg", vec![]);
    let c = add_contract(&mut net, "msg", Transport::UnixSocket, s);
    // Only Receive edge, no matching Send
    add_edge(&mut net, a, b, c, EdgeOrigin::Receive);

    let mut errors = Vec::new();
    check_unmatched_receives(&net, &mut errors);

    assert_eq!(errors.len(), 1);
    assert_eq!(
        errors[0],
        ValidationError::UnmatchedReceive {
            from_node: "A".into(),
            to_node: "B".into(),
            contract: "msg".into(),
        }
    );
}

#[test]
fn test_orphan_node() {
    let mut net = make_valid_network();
    // Add a node that participates in no edges
    add_node(&mut net, "orphan");

    let mut errors = Vec::new();
    check_orphan_nodes(&net, &mut errors);

    assert_eq!(errors.len(), 1);
    assert_eq!(
        errors[0],
        ValidationError::OrphanNode {
            node: "orphan".into()
        }
    );
}

#[test]
fn test_multiple_errors() {
    let mut net = empty_network();
    let a = add_node(&mut net, "A");
    let b = add_node(&mut net, "B");
    let _orphan = add_node(&mut net, "orphan");
    let s = add_schema(&mut net, "msg", vec![]);
    let c = add_contract(&mut net, "msg", Transport::UnixSocket, s);
    // Send without matching Receive
    add_edge(&mut net, a, b, c, EdgeOrigin::Send);
    // No Receive edge so UnmatchedSend fires; orphan node fires too.

    let mut errors = Vec::new();
    check_unmatched_sends(&net, &mut errors);
    check_unmatched_receives(&net, &mut errors);
    check_orphan_nodes(&net, &mut errors);

    // Expect at least: one UnmatchedSend + one OrphanNode
    assert!(
        errors.len() >= 2,
        "Expected at least 2 errors, got: {errors:?}"
    );
    assert!(errors
        .iter()
        .any(|e| matches!(e, ValidationError::UnmatchedSend { .. })));
    assert!(errors
        .iter()
        .any(|e| matches!(e, ValidationError::OrphanNode { .. })));
}

#[test]
fn test_iceoryx_pod_valid() {
    let mut net = empty_network();
    let a = add_node(&mut net, "A");
    let b = add_node(&mut net, "B");
    let s = add_schema(
        &mut net,
        "pod_msg",
        vec![
            Field {
                name: "x".into(),
                typ: FieldType::U32,
            },
            Field {
                name: "y".into(),
                typ: FieldType::F64,
            },
            Field {
                name: "flag".into(),
                typ: FieldType::Bool,
            },
        ],
    );
    let c = add_contract(&mut net, "pod_msg", Transport::Iceoryx, s);
    add_edge(&mut net, a, b, c, EdgeOrigin::Send);
    add_edge(&mut net, a, b, c, EdgeOrigin::Receive);

    let mut errors = Vec::new();
    check_iceoryx_pod(&net, &mut errors);

    assert!(errors.is_empty(), "Expected no POD errors, got: {errors:?}");
}

#[test]
fn test_iceoryx_pod_violation() {
    let mut net = empty_network();
    let a = add_node(&mut net, "A");
    let b = add_node(&mut net, "B");
    let s = add_schema(
        &mut net,
        "bad_msg",
        vec![
            Field {
                name: "header".into(),
                typ: FieldType::U32,
            },
            Field {
                name: "nested_field".into(),
                typ: FieldType::Nested("SomeStruct".into()),
            },
        ],
    );
    let c = add_contract(&mut net, "bad_msg", Transport::Iceoryx, s);
    add_edge(&mut net, a, b, c, EdgeOrigin::Send);
    add_edge(&mut net, a, b, c, EdgeOrigin::Receive);

    let mut errors = Vec::new();
    check_iceoryx_pod(&net, &mut errors);

    assert_eq!(errors.len(), 1);
    assert_eq!(
        errors[0],
        ValidationError::IceoryxPodViolation {
            contract: "bad_msg".into(),
            field: "nested_field".into(),
        }
    );
}

#[test]
fn test_duplicate_node_names() {
    let mut net = empty_network();
    // Insert two nodes with the same name manually to simulate a bad state
    net.nodes.push(Node { name: "dup".into() });
    net.nodes.push(Node { name: "dup".into() });

    let mut errors = Vec::new();
    check_duplicate_names(&net, &mut errors);

    assert_eq!(errors.len(), 1);
    assert_eq!(
        errors[0],
        ValidationError::DuplicateNodeName { name: "dup".into() }
    );
}

#[test]
fn test_duplicate_contract_names() {
    let mut net = empty_network();
    let s = add_schema(&mut net, "s", vec![]);
    net.contracts.push(Contract {
        name: "dup_contract".into(),
        transport: Transport::UnixSocket,
        schema: s,
    });
    net.contracts.push(Contract {
        name: "dup_contract".into(),
        transport: Transport::UnixSocket,
        schema: s,
    });

    let mut errors = Vec::new();
    check_duplicate_names(&net, &mut errors);

    assert_eq!(errors.len(), 1);
    assert_eq!(
        errors[0],
        ValidationError::DuplicateContractName {
            name: "dup_contract".into(),
        }
    );
}

// ── further cases ────────────────────────────────────────────────────────────

#[test]
fn validate_collects_every_rule_in_order() {
    let mut net = empty_network();
    let a = add_node(&mut net, "A");
    let b = add_node(&mut net, "B");
    add_node(&mut net, "A");
    let s = add_schema(
        &mut net,
        "m",
        vec![Field { name: "arr".into(), typ: FieldType::Array { elem: Box::new(FieldType::Nested("P".into())), len: 2 } }],
    );
    let c = add_contract(&mut net, "m", Transport::Iceoryx, s);
    add_edge(&mut net, a, b, c, EdgeOrigin::Send);
    add_edge(&mut net, b, a, c, EdgeOrigin::Receive);
    let errs = validate(&net).unwrap_err();
    assert_eq!(
        errs,
        vec![
            ValidationError::UnmatchedSend { from_node: "A".into(), to_node: "B".into(), contract: "m".into() },
            ValidationError::UnmatchedReceive { from_node: "B".into(), to_node: "A".into(), contract: "m".into() },
            ValidationError::OrphanNode { node: "A".into() },
            ValidationError::IceoryxPodViolation { contract: "m".into(), field: "arr".into() },
            ValidationError::DuplicateNodeName { name: "A".into() },
        ]
    );
}

#[test]
fn validate_accepts_a_valid_network() {
    assert_eq!(validate(&make_valid_network()), Ok(()));
}

#[test]
fn pod_arrays_of_primitives_pass_and_other_transports_are_not_checked() {
    let mut net = empty_network();
    let s = add_schema(
        &mut net,
        "m",
        vec![
            Field { name: "a".into(), typ: FieldType::Array { elem: Box::new(FieldType::U8), len: 4 } },
            Field { name: "n".into(), typ: FieldType::Nested("X".into()) },
        ],
    );
    add_contract(&mut net, "m", Transport::UnixSocket, s);
    let mut errors = Vec::new();
    check_iceoryx_pod(&net, &mut errors);
    assert!(errors.is_empty());
}

#[test]
fn rules_append_after_existing_errors() {
    let mut net = empty_network();
    add_node(&mut net, "lonely");
    let mut errors = vec![ValidationError::DuplicateNodeName { name: "x".into() }];
    check_orphan_nodes(&net, &mut errors);
    assert_eq!(errors.len(), 2);
    assert_eq!(errors[0], ValidationError::DuplicateNodeName { name: "x".into() });
    assert_eq!(errors[1], ValidationError::OrphanNode { node: "lonely".into() });
}
