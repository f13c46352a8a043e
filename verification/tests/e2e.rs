use std::collections::HashSet;

use nexus_gen::codegen::generate;
use nexus_gen::config::{
    ContractConfig, EdgeConfig, InlineFieldConfig, NetworkConfig, NodeConfig, SchemaFile,
    SchemaSource,
};
use nexus_gen::network::resolve;
use nexus_gen::rules::validate;
use nexus_gen::types::{EdgeOrigin, Network};

const GAME_INFO_NXS: &str = "struct GameInfo {
    player_id  : u32
    position_x : f32
    position_y : f32
    timestamp  : u64
}
";

fn send(contract: &str, to: &str) -> EdgeConfig {
    EdgeConfig { contract: contract.to_string(), to: Some(to.to_string()), from: None }
}

fn recv(contract: &str, from: &str) -> EdgeConfig {
    EdgeConfig { contract: contract.to_string(), to: None, from: Some(from.to_string()) }
}

fn node(name: &str, sends: Vec<EdgeConfig>, receives: Vec<EdgeConfig>) -> NodeConfig {
    NodeConfig { name: name.to_string(), sends, receives }
}

fn fields(fs: &[(&str, &str)]) -> Vec<InlineFieldConfig> {
    fs.iter().map(|(n, t)| InlineFieldConfig { name: n.to_string(), typ: t.to_string() }).collect()
}

/// The sample network: the README's `network.toml` with its schema file
/// already read.
fn load_sample() -> Network {
    let config = NetworkConfig {
        nodes: vec![
            node("game_engine", vec![send("game_info", "backend")], vec![]),
            node(
                "backend",
                vec![send("display", "frontend")],
                vec![recv("game_info", "game_engine")],
            ),
            node("frontend", vec![], vec![recv("display", "backend")]),
        ],
        contracts: vec![
            ContractConfig {
                name: "game_info".to_string(),
                transport: "unix_socket".to_string(),
                schema: Some("schemas/game_info.nxs".to_string()),
                fields: Vec::new(),
            },
            ContractConfig {
                name: "display".to_string(),
                transport: "unix_socket".to_string(),
                schema: None,
                fields: fields(&[("frame_id", "u32"), ("width", "u32"), ("height", "u32")]),
            },
        ],
    };
    let files = vec![SchemaFile {
        key: "schemas/game_info.nxs".to_string(),
        source: SchemaSource::Loaded {
            path: "examples/sample/schemas/game_info.nxs".to_string(),
            stem: "game_info".to_string(),
            content: GAME_INFO_NXS.to_string(),
        },
    }];
    resolve(&config, &files).expect("load should succeed for the sample network")
}

/// The minimal network: two nodes exchanging a single message.
fn load_minimal() -> Network {
    let config = NetworkConfig {
        nodes: vec![
            node("producer", vec![send("data", "consumer")], vec![]),
            node("consumer", vec![], vec![recv("data", "producer")]),
        ],
        contracts: vec![ContractConfig {
            name: "data".to_string(),
            transport: "unix_socket".to_string(),
            schema: None,
            fields: fields(&[("value", "u64")]),
        }],
    };
    resolve(&config, &Vec::new()).expect("load should succeed for the minimal network")
}

#[test]
fn sample_network_is_valid() {
    let network = load_sample();
    let result = validate(&network);
    assert!(
        result.is_ok(),
        "sample network should be valid, but got errors: {:?}",
        result.unwrap_err()
    );
}

#[test]
fn e2e_sample_load_validate_generate() {
    let network = load_sample();

    assert_eq!(network.nodes.len(), 3, "sample: expected 3 nodes");
    assert_eq!(network.contracts.len(), 2, "sample: expected 2 contracts");
    assert_eq!(network.edges.len(), 4, "sample: expected 4 edges");

    validate(&network).expect("sample network should pass all validation rules");

    let output = generate(&network).expect("codegen should succeed for sample network");
    let paths: HashSet<&str> = output.files.iter().map(|f| f.path.as_str()).collect();

    assert!(paths.contains("include/nexus_game_info.h"), "missing nexus_game_info.h");
    assert!(paths.contains("include/nexus_display.h"), "missing nexus_display.h");
    assert!(paths.contains("src/nexus_game_info.c"), "missing nexus_game_info.c");
    assert!(paths.contains("src/nexus_display.c"), "missing nexus_display.c");

    assert!(paths.contains("include/nexus_backend.h"), "missing nexus_backend.h");
    assert!(paths.contains("include/nexus_game_engine.h"), "missing nexus_game_engine.h");
    assert!(paths.contains("include/nexus_frontend.h"), "missing nexus_frontend.h");

    assert!(paths.contains("nix/backend.nix"), "missing nix/backend.nix");
    assert!(paths.contains("nix/game_engine.nix"), "missing nix/game_engine.nix");
    assert!(paths.contains("nix/frontend.nix"), "missing nix/frontend.nix");
    assert!(paths.contains("nexus.nix"), "missing nexus.nix");

    let game_info_h = output
        .files
        .iter()
        .find(|f| f.path == "include/nexus_game_info.h")
        .expect("nexus_game_info.h must exist");
    assert!(game_info_h.content.contains("NexusGameInfo"), "header missing struct NexusGameInfo");
    assert!(game_info_h.content.contains("nexus_send_game_info"), "header missing send function");
    assert!(game_info_h.content.contains("nexus_recv_game_info"), "header missing recv function");
}

#[test]
fn e2e_minimal_load_validate_generate() {
    let network = load_minimal();

    assert_eq!(network.nodes.len(), 2, "minimal: expected 2 nodes");
    assert_eq!(network.contracts.len(), 1, "minimal: expected 1 contract");
    assert_eq!(network.edges.len(), 2, "minimal: expected 2 edges");

    assert!(network.node_index.contains_key("producer"), "missing producer node");
    assert!(network.node_index.contains_key("consumer"), "missing consumer node");
    assert!(network.contract_index.contains_key("data"), "missing data contract");

    validate(&network).expect("minimal network should pass all validation rules");

    let output = generate(&network).expect("codegen should succeed for minimal network");
    let paths: HashSet<&str> = output.files.iter().map(|f| f.path.as_str()).collect();

    assert!(paths.contains("include/nexus_data.h"), "missing nexus_data.h");
    assert!(paths.contains("src/nexus_data.c"), "missing nexus_data.c");
    assert!(paths.contains("include/nexus_producer.h"), "missing nexus_producer.h");
    assert!(paths.contains("include/nexus_consumer.h"), "missing nexus_consumer.h");
    assert!(paths.contains("nix/producer.nix"), "missing nix/producer.nix");
    assert!(paths.contains("nix/consumer.nix"), "missing nix/consumer.nix");
    assert!(paths.contains("nexus.nix"), "missing nexus.nix");

    assert_eq!(output.files.len(), 7, "minimal: expected 7 generated files");

    let data_h = output
        .files
        .iter()
        .find(|f| f.path == "include/nexus_data.h")
        .expect("nexus_data.h must exist");
    assert!(data_h.content.contains("NexusData"), "header missing struct NexusData");
    assert!(data_h.content.contains("nexus_send_data"), "header missing send function");
    assert!(data_h.content.contains("nexus_recv_data"), "header missing recv function");
}

#[test]
fn test_load_sample() {
    let network = load_sample();

    assert_eq!(network.nodes.len(), 3, "expected 3 nodes");
    assert!(network.node_index.contains_key("backend"));
    assert!(network.node_index.contains_key("game_engine"));
    assert!(network.node_index.contains_key("frontend"));

    assert_eq!(network.contracts.len(), 2, "expected 2 contracts");
    assert!(network.contract_index.contains_key("game_info"));
    assert!(network.contract_index.contains_key("display"));

    assert_eq!(network.edges.len(), 4, "expected 4 edges");
    let send_edges: Vec<_> =
        network.edges.iter().filter(|e| e.origin == EdgeOrigin::Send).collect();
    let recv_edges: Vec<_> =
        network.edges.iter().filter(|e| e.origin == EdgeOrigin::Receive).collect();
    assert_eq!(send_edges.len(), 2, "expected 2 Send edges");
    assert_eq!(recv_edges.len(), 2, "expected 2 Receive edges");

    let gi_idx = *network.contract_index.get("game_info").unwrap();
    let gi_contract = &network.contracts[gi_idx.0];
    let gi_schema = &network.schemas[gi_contract.schema.0];
    assert_eq!(gi_schema.structs.len(), 1);
    let gi_struct = &gi_schema.structs[0];
    assert_eq!(gi_struct.name, "GameInfo");
    assert_eq!(gi_struct.fields.len(), 4, "game_info schema should have 4 fields");
    let field_names: Vec<&str> = gi_struct.fields.iter().map(|f| f.name.as_str()).collect();
    assert!(field_names.contains(&"player_id"));
    assert!(field_names.contains(&"position_x"));
    assert!(field_names.contains(&"position_y"));
    assert!(field_names.contains(&"timestamp"));

    let d_idx = *network.contract_index.get("display").unwrap();
    let d_contract = &network.contracts[d_idx.0];
    let d_schema = &network.schemas[d_contract.schema.0];
    assert_eq!(d_schema.structs.len(), 1);
    let d_struct = &d_schema.structs[0];
    assert_eq!(d_struct.name, "Display");
    assert_eq!(d_struct.fields.len(), 3, "display schema should have 3 fields");
    let field_names: Vec<&str> = d_struct.fields.iter().map(|f| f.name.as_str()).collect();
    assert!(field_names.contains(&"frame_id"));
    assert!(field_names.contains(&"width"));
    assert!(field_names.contains(&"height"));
}
