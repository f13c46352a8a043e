use nexus_gen::config::{
    ContractConfig, EdgeConfig, InlineFieldConfig, NetworkConfig, NodeConfig, SchemaFile,
    SchemaSource,
};
use nexus_gen::error::NexusCoreError;
use nexus_gen::network::resolve;
use nexus_gen::rules::validate;
use nexus_gen::types::{EdgeOrigin, FieldType, Transport};

fn send(contract: &str, to: &str) -> EdgeConfig {
    EdgeConfig { contract: contract.to_string(), to: Some(to.to_string()), from: None }
}

fn recv(contract: &str, from: &str) -> EdgeConfig {
    EdgeConfig { contract: contract.to_string(), to: None, from: Some(from.to_string()) }
}

fn node(name: &str, sends: Vec<EdgeConfig>, receives: Vec<EdgeConfig>) -> NodeConfig {
    NodeConfig { name: name.to_string(), sends, receives }
}

fn inline(name: &str, transport: &str, fields: &[(&str, &str)]) -> ContractConfig {
    ContractConfig {
        name: name.to_string(),
        transport: transport.to_string(),
        schema: None,
        fields: fields
            .iter()
            .map(|(n, t)| InlineFieldConfig { name: n.to_string(), typ: t.to_string() })
            .collect(),
    }
}

fn with_schema(name: &str, transport: &str, path: &str) -> ContractConfig {
    ContractConfig {
        name: name.to_string(),
        transport: transport.to_string(),
        schema: Some(path.to_string()),
        fields: Vec::new(),
    }
}

/// The configuration of the sample network with inline fields for both contracts.
fn sample_config() -> NetworkConfig {
    NetworkConfig {
        nodes: vec![
            node("backend", vec![send("display", "frontend")], vec![recv("game_info", "game_engine")]),
            node("game_engine", vec![send("game_info", "backend")], vec![]),
            node("frontend", vec![], vec![recv("display", "backend")]),
        ],
        contracts: vec![
            inline(
                "game_info",
                "unix_socket",
                &[("player_id", "u32"), ("position_x", "f32"), ("position_y", "f32"), ("timestamp", "u64")],
            ),
            inline("display", "unix_socket", &[("frame_id", "u32"), ("width", "u32"), ("height", "u32")]),
        ],
    }
}

#[test]
fn test_resolve_with_inline_fields() {
    let config = sample_config();
    let network = resolve(&config, &Vec::new()).expect("resolve should succeed");

    // Should have one schema per contract (2 inline)
    assert_eq!(network.schemas.len(), 2);

    // Find the game_info contract and check its schema
    let gi_idx = *network.contract_index.get("game_info").unwrap();
    let gi_contract = &network.contracts[gi_idx.0];
    let gi_schema = &network.schemas[gi_contract.schema.0];
    assert_eq!(gi_schema.structs.len(), 1);
    assert_eq!(gi_schema.structs[0].name, "GameInfo");
    assert_eq!(gi_schema.structs[0].fields.len(), 4);

    // Find display contract
    let d_idx = *network.contract_index.get("display").unwrap();
    let d_contract = &network.contracts[d_idx.0];
    let d_schema = &network.schemas[d_contract.schema.0];
    assert_eq!(d_schema.structs[0].name, "Display");
    assert_eq!(d_schema.structs[0].fields.len(), 3);
}

#[test]
fn test_unknown_transport() {
    let config = NetworkConfig {
        nodes: vec![node("a", vec![send("c", "b")], vec![]), node("b", vec![], vec![recv("c", "a")])],
        contracts: vec![inline("c", "foobar", &[("x", "u8")])],
    };
    let result = resolve(&config, &Vec::new());
    assert!(matches!(result, Err(NexusCoreError::UnknownTransport(_))));
}

// ── further cases ────────────────────────────────────────────────────────────

#[test]
fn resolved_sample_has_edges_in_declaration_order_and_is_valid() {
    let network = resolve(&sample_config(), &Vec::new()).unwrap();
    assert_eq!(network.nodes.len(), 3);
    assert_eq!(network.contracts.len(), 2);
    assert_eq!(network.edges.len(), 4);
    let e: Vec<(usize, usize, usize, EdgeOrigin)> = network
        .edges
        .iter()
        .map(|e| (e.from_node.0, e.to_node.0, e.contract.0, e.origin))
        .collect();
    assert_eq!(
        e,
        vec![
            (0, 2, 1, EdgeOrigin::Send),
            (1, 0, 0, EdgeOrigin::Receive),
            (1, 0, 0, EdgeOrigin::Send),
            (0, 2, 1, EdgeOrigin::Receive),
        ]
    );
    assert_eq!(network.node_index.get("frontend").map(|i| i.0), Some(2));
    assert_eq!(network.contracts[0].transport, Transport::UnixSocket);
    assert_eq!(network.schemas[0].name, "game_info");
    assert_eq!(network.schemas[0].structs[0].fields[1].typ, FieldType::F32);
    assert_eq!(validate(&network), Ok(()));
}

fn loaded(key: &str, content: &str) -> SchemaFile {
    SchemaFile {
        key: key.to_string(),
        source: SchemaSource::Loaded {
            path: format!("/base/{}", key),
            stem: "game_info".to_string(),
            content: content.to_string(),
        },
    }
}

#[test]
fn schema_files_are_read_once_per_path() {
    let config = NetworkConfig {
        nodes: vec![node("a", vec![], vec![])],
        contracts: vec![
            with_schema("one", "grpc", "schemas/game_info.nxs"),
            inline("two", "http", &[("x", "u8")]),
            with_schema("three", "iceoryx", "schemas/game_info.nxs"),
        ],
    };
    let files = vec![loaded(
        "schemas/game_info.nxs",
        "struct GameInfo {\n  player_id : u32\n  position_x : f32\n}\n",
    )];
    let network = resolve(&config, &files).unwrap();
    assert_eq!(network.schemas.len(), 2);
    assert_eq!(network.contracts[0].schema.0, 0);
    assert_eq!(network.contracts[1].schema.0, 1);
    assert_eq!(network.contracts[2].schema.0, 0);
    assert_eq!(network.schemas[0].name, "game_info");
    assert_eq!(network.schemas[0].structs[0].name, "GameInfo");
    assert_eq!(network.schemas[1].name, "two");
    assert_eq!(network.schemas[1].structs[0].name, "Two");
}

#[test]
fn schema_errors() {
    let config = NetworkConfig {
        nodes: vec![],
        contracts: vec![with_schema("c", "unix", "missing.nxs")],
    };
    assert_eq!(
        resolve(&config, &Vec::new()).err(),
        Some(NexusCoreError::SchemaNotFound("missing.nxs".to_string()))
    );
    let files = vec![SchemaFile {
        key: "missing.nxs".to_string(),
        source: SchemaSource::Unreadable { path: "/x/missing.nxs".to_string(), message: "denied".to_string() },
    }];
    assert_eq!(
        resolve(&config, &files).err(),
        Some(NexusCoreError::FileRead { path: "/x/missing.nxs".to_string(), message: "denied".to_string() })
    );
    let files = vec![loaded("missing.nxs", "struct {")];
    assert_eq!(
        resolve(&config, &files).err(),
        Some(NexusCoreError::SchemaParse {
            path: "/base/missing.nxs".to_string(),
            message: "invalid schema syntax".to_string()
        })
    );
    let config = NetworkConfig { nodes: vec![], contracts: vec![inline("c", "unix", &[])] };
    assert_eq!(
        resolve(&config, &Vec::new()).err(),
        Some(NexusCoreError::NoSchema { contract: "c".to_string() })
    );
    let config = NetworkConfig { nodes: vec![], contracts: vec![inline("c", "unix", &[("x", "u8"), ("y", "u128")])] };
    assert_eq!(
        resolve(&config, &Vec::new()).err(),
        Some(NexusCoreError::UnknownFieldType("u128".to_string()))
    );
}

#[test]
fn undefined_references() {
    let config = NetworkConfig {
        nodes: vec![node("a", vec![send("c", "nowhere")], vec![])],
        contracts: vec![inline("c", "unix", &[("x", "u8")])],
    };
    assert_eq!(
        resolve(&config, &Vec::new()).err(),
        Some(NexusCoreError::UndefinedNode { node: "nowhere".to_string() })
    );
    let config = NetworkConfig {
        nodes: vec![node("a", vec![], vec![recv("c", "a")]), node("b", vec![], vec![])],
        contracts: vec![inline("d", "unix", &[("x", "u8")])],
    };
    assert_eq!(
        resolve(&config, &Vec::new()).err(),
        Some(NexusCoreError::UndefinedContract { contract: "c".to_string() })
    );
    // a send without `to` names the empty node
    let config = NetworkConfig {
        nodes: vec![node("a", vec![EdgeConfig { contract: "c".to_string(), to: None, from: None }], vec![])],
        contracts: vec![inline("c", "unix", &[("x", "u8")])],
    };
    assert_eq!(
        resolve(&config, &Vec::new()).err(),
        Some(NexusCoreError::UndefinedNode { node: String::new() })
    );
}

#[test]
fn repeated_node_names_index_the_last_one() {
    let config = NetworkConfig {
        nodes: vec![
            node("a", vec![send("c", "b")], vec![]),
            node("b", vec![], vec![]),
            node("a", vec![], vec![]),
        ],
        contracts: vec![inline("c", "unix", &[("x", "u8")])],
    };
    let network = resolve(&config, &Vec::new()).unwrap();
    assert_eq!(network.node_index.get("a").map(|i| i.0), Some(2));
    assert_eq!(network.edges[0].from_node.0, 2);
}

#[test]
fn a_send_without_its_receive_is_reported_once_resolved() {
    let config = NetworkConfig {
        nodes: vec![
            node("a", vec![send("c", "b")], vec![]),
            node("b", vec![], vec![]),
        ],
        contracts: vec![inline("c", "grpc", &[("x", "u8")])],
    };
    let network = resolve(&config, &Vec::new()).expect("resolves");
    assert_eq!(network.edges.len(), 1);
    assert_eq!(network.edges[0].origin, EdgeOrigin::Send);
    let errors = validate(&network).expect_err("the send has no receive");
    assert_eq!(
        errors,
        vec![nexus_gen::error::ValidationError::UnmatchedSend {
            from_node: "a".to_string(),
            to_node: "b".to_string(),
            contract: "c".to_string(),
        }]
    );
}

#[test]
fn a_declared_pair_resolves_to_matching_edges() {
    let config = NetworkConfig {
        nodes: vec![
            node("a", vec![send("c", "b")], vec![]),
            node("b", vec![], vec![recv("c", "a")]),
        ],
        contracts: vec![inline("c", "grpc", &[("x", "u8")])],
    };
    let network = resolve(&config, &Vec::new()).expect("resolves");
    assert_eq!(network.edges.len(), 2);
    let (s, r) = (&network.edges[0], &network.edges[1]);
    assert_eq!((s.from_node, s.to_node, s.contract), (r.from_node, r.to_node, r.contract));
    assert_eq!(s.origin, EdgeOrigin::Send);
    assert_eq!(r.origin, EdgeOrigin::Receive);
    assert!(validate(&network).is_ok());
}
