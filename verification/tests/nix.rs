use std::collections::HashMap;

use nexus_gen::nix::generate_nix;
use nexus_gen::types::{
    Contract, ContractIdx, Edge, EdgeOrigin, Network, Node, NodeIdx, Schema, SchemaIdx,
    StringHashMap, StructDef, Transport,
};

/// Build a 3-node test network:
///   backend  --game_info-->  game_engine
///   frontend --display-->    game_engine
fn three_node_network() -> Network {
    let nodes = vec![
        Node {
            name: "backend".to_string(),
        },
        Node {
            name: "game_engine".to_string(),
        },
        Node {
            name: "frontend".to_string(),
        },
    ];
    let contracts = vec![
        Contract {
            name: "game_info".to_string(),
            transport: Transport::UnixSocket,
            schema: SchemaIdx(0),
        },
        Contract {
            name: "display".to_string(),
            transport: Transport::UnixSocket,
            schema: SchemaIdx(1),
        },
    ];
    let schemas = vec![
        Schema {
            name: "game_info".to_string(),
            structs: vec![StructDef {
                name: "game_info".to_string(),
                fields: vec![],
            }],
        },
        Schema {
            name: "display".to_string(),
            structs: vec![StructDef {
                name: "display".to_string(),
                fields: vec![],
            }],
        },
    ];
    let edges = vec![
        Edge {
            from_node: NodeIdx(0), // backend
            to_node: NodeIdx(1),   // game_engine
            contract: ContractIdx(0),
            origin: EdgeOrigin::Send,
        },
        Edge {
            from_node: NodeIdx(2), // frontend
            to_node: NodeIdx(1),   // game_engine
            contract: ContractIdx(1),
            origin: EdgeOrigin::Send,
        },
    ];

    let mut node_index = StringHashMap::new();
    node_index.insert("backend".to_string(), NodeIdx(0));
    node_index.insert("game_engine".to_string(), NodeIdx(1));
    node_index.insert("frontend".to_string(), NodeIdx(2));

    let mut contract_index = StringHashMap::new();
    contract_index.insert("game_info".to_string(), ContractIdx(0));
    contract_index.insert("display".to_string(), ContractIdx(1));

    Network {
        nodes,
        contracts,
        schemas,
        edges,
        node_index,
        contract_index,
    }
}

/// Build a 2-node network with mixed transports:
///   sender --grpc_data--> receiver   (gRPC)
///   sender --http_data--> receiver   (HTTP)
///   sender --shm_data-->  receiver   (Iceoryx)
fn mixed_transport_network() -> Network {
    let nodes = vec![
        Node {
            name: "sender".to_string(),
        },
        Node {
            name: "receiver".to_string(),
        },
    ];
    let contracts = vec![
        Contract {
            name: "grpc_data".to_string(),
            transport: Transport::Grpc,
            schema: SchemaIdx(0),
        },
        Contract {
            name: "http_data".to_string(),
            transport: Transport::Http,
            schema: SchemaIdx(0),
        },
        Contract {
            name: "shm_data".to_string(),
            transport: Transport::Iceoryx,
            schema: SchemaIdx(0),
        },
    ];
    let schemas = vec![Schema {
        name: "payload".to_string(),
        structs: vec![StructDef {
            name: "payload".to_string(),
            fields: vec![],
        }],
    }];
    let edges = vec![
        Edge {
            from_node: NodeIdx(0),
            to_node: NodeIdx(1),
            contract: ContractIdx(0),
            origin: EdgeOrigin::Send,
        },
        Edge {
            from_node: NodeIdx(0),
            to_node: NodeIdx(1),
            contract: ContractIdx(1),
            origin: EdgeOrigin::Send,
        },
        Edge {
            from_node: NodeIdx(0),
            to_node: NodeIdx(1),
            contract: ContractIdx(2),
            origin: EdgeOrigin::Send,
        },
    ];

    let mut node_index = StringHashMap::new();
    node_index.insert("sender".to_string(), NodeIdx(0));
    node_index.insert("receiver".to_string(), NodeIdx(1));

    let mut contract_index = StringHashMap::new();
    contract_index.insert("grpc_data".to_string(), ContractIdx(0));
    contract_index.insert("http_data".to_string(), ContractIdx(1));
    contract_index.insert("shm_data".to_string(), ContractIdx(2));

    Network {
        nodes,
        contracts,
        schemas,
        edges,
        node_index,
        contract_index,
    }
}

#[test]
fn test_nix_generation() {
    let network = three_node_network();
    let files = generate_nix(&network).unwrap();

    // Expect 4 files: 3 node .nix + nexus.nix
    assert_eq!(files.len(), 4, "expected 4 nix files");

    // Collect into a map for easy lookup
    let file_map: HashMap<&str, &str> = files
        .iter()
        .map(|f| (f.path.as_str(), f.content.as_str()))
        .collect();

    // Per-node files must exist
    assert!(
        file_map.contains_key("nix/backend.nix"),
        "missing backend.nix"
    );
    assert!(
        file_map.contains_key("nix/game_engine.nix"),
        "missing game_engine.nix"
    );
    assert!(
        file_map.contains_key("nix/frontend.nix"),
        "missing frontend.nix"
    );
    assert!(file_map.contains_key("nexus.nix"), "missing nexus.nix");

    // backend.nix references game_info contract
    let backend_nix = file_map["nix/backend.nix"];
    assert!(
        backend_nix.contains("nexus-backend"),
        "backend pname missing"
    );
    assert!(
        backend_nix.contains("nexus_game_info.c"),
        "backend: game_info.c missing"
    );
    assert!(
        backend_nix.contains("nexus_game_info.h"),
        "backend: game_info.h missing"
    );

    // frontend.nix references display contract
    let frontend_nix = file_map["nix/frontend.nix"];
    assert!(
        frontend_nix.contains("nexus-frontend"),
        "frontend pname missing"
    );
    assert!(
        frontend_nix.contains("nexus_display.c"),
        "frontend: display.c missing"
    );
    assert!(
        frontend_nix.contains("nexus_display.h"),
        "frontend: display.h missing"
    );

    // game_engine.nix references both contracts (both edges point to it)
    let engine_nix = file_map["nix/game_engine.nix"];
    assert!(
        engine_nix.contains("nexus-game_engine"),
        "engine pname missing"
    );
    assert!(
        engine_nix.contains("nexus_game_info.c"),
        "engine: game_info.c missing"
    );
    assert!(
        engine_nix.contains("nexus_display.c"),
        "engine: display.c missing"
    );

    // nexus.nix imports all nodes
    let nexus_nix = file_map["nexus.nix"];
    assert!(nexus_nix.contains("backend"), "nexus.nix: backend missing");
    assert!(
        nexus_nix.contains("game_engine"),
        "nexus.nix: game_engine missing"
    );
    assert!(
        nexus_nix.contains("frontend"),
        "nexus.nix: frontend missing"
    );
    assert!(
        nexus_nix.contains("import ./nix/backend.nix"),
        "nexus.nix: import backend missing"
    );

    // UnixSocket-only nodes must NOT have transport deps
    assert!(
        !backend_nix.contains("pkg-config"),
        "backend: unexpected pkg-config (unix socket only)"
    );
    assert!(
        !backend_nix.contains("pkgs.grpc"),
        "backend: unexpected pkgs.grpc"
    );
    assert!(
        !backend_nix.contains("pkgs.curl"),
        "backend: unexpected pkgs.curl"
    );
    assert!(
        !backend_nix.contains("-lrt"),
        "backend: unexpected -lrt"
    );

    // All nodes use `inherit src;` instead of `src = ../.;`
    assert!(
        backend_nix.contains("inherit src;"),
        "backend: missing inherit src"
    );
    assert!(
        frontend_nix.contains("inherit src;"),
        "frontend: missing inherit src"
    );
    assert!(
        engine_nix.contains("inherit src;"),
        "engine: missing inherit src"
    );
}

#[test]
fn test_nix_generation_mixed_transports() {
    let network = mixed_transport_network();
    let files = generate_nix(&network).unwrap();

    // Expect 3 files: 2 node .nix + nexus.nix
    assert_eq!(files.len(), 3, "expected 3 nix files");

    let file_map: HashMap<&str, &str> = files
        .iter()
        .map(|f| (f.path.as_str(), f.content.as_str()))
        .collect();

    let sender_nix = *file_map.get("nix/sender.nix").expect("missing sender.nix");
    let receiver_nix = *file_map.get("nix/receiver.nix").expect("missing receiver.nix");

    // Sender node: gRPC and HTTP contracts get _server.c files
    assert!(
        sender_nix.contains("nexus_grpc_data_server.c"),
        "sender: missing grpc_data_server.c"
    );
    assert!(
        sender_nix.contains("nexus_http_data_server.c"),
        "sender: missing http_data_server.c"
    );
    assert!(
        sender_nix.contains("nexus_shm_data.c"),
        "sender: missing shm_data.c (iceoryx uses regular impl)"
    );
    // Sender should have server runtimes
    assert!(
        sender_nix.contains("nexus_grpc_runtime.c"),
        "sender: missing grpc_runtime.c"
    );
    assert!(
        sender_nix.contains("nexus_http_runtime.c"),
        "sender: missing http_runtime.c"
    );
    // Sender server deps
    assert!(sender_nix.contains("pkgs.grpc"), "sender: missing pkgs.grpc");
    assert!(
        sender_nix.contains("pkgs.libmicrohttpd"),
        "sender: missing pkgs.libmicrohttpd"
    );
    assert!(sender_nix.contains("-lpthread"), "sender: missing -lpthread");
    assert!(sender_nix.contains("-lrt"), "sender: missing -lrt");

    // Receiver node: gRPC and HTTP contracts get regular .c (client) files
    assert!(
        receiver_nix.contains("nexus_grpc_data.c"),
        "receiver: missing grpc_data.c (client)"
    );
    assert!(
        receiver_nix.contains("nexus_http_data.c"),
        "receiver: missing http_data.c (client)"
    );
    assert!(
        receiver_nix.contains("nexus_shm_data.c"),
        "receiver: missing shm_data.c"
    );
    // Receiver should NOT have server runtimes
    assert!(
        !receiver_nix.contains("nexus_grpc_runtime.c"),
        "receiver: unexpected grpc_runtime.c"
    );
    assert!(
        !receiver_nix.contains("nexus_http_runtime.c"),
        "receiver: unexpected http_runtime.c"
    );
    // Receiver client deps
    assert!(
        receiver_nix.contains("pkgs.grpc"),
        "receiver: missing pkgs.grpc"
    );
    assert!(
        receiver_nix.contains("pkgs.curl"),
        "receiver: missing pkgs.curl"
    );
    // Receiver should NOT have server-only deps
    assert!(
        !receiver_nix.contains("pkgs.libmicrohttpd"),
        "receiver: unexpected pkgs.libmicrohttpd"
    );
    assert!(
        !receiver_nix.contains("-lpthread"),
        "receiver: unexpected -lpthread"
    );
}


// ── further cases ────────────────────────────────────────────────────────────

#[test]
fn nix_files_come_in_node_order_then_nexus_nix() {
    let network = three_node_network();
    let files = generate_nix(&network).unwrap();
    let paths: Vec<&str> = files.iter().map(|f| f.path.as_str()).collect();
    assert_eq!(paths, vec!["nix/backend.nix", "nix/game_engine.nix", "nix/frontend.nix", "nexus.nix"]);
    assert!(files[3].content.contains("game_engine = import ./nix/game_engine.nix { inherit pkgs src; };"));
}

#[test]
fn nix_contract_lists_are_sorted() {
    let network = mixed_transport_network();
    let files = generate_nix(&network).unwrap();
    let receiver = &files[1].content;
    let g = receiver.find("src/nexus_grpc_data.c").unwrap();
    let h = receiver.find("src/nexus_http_data.c").unwrap();
    let s = receiver.find("src/nexus_shm_data.c").unwrap();
    assert!(g < h && h < s);
    let gi = receiver.find("include/nexus_grpc_data.h").unwrap();
    let si = receiver.find("include/nexus_shm_data.h").unwrap();
    assert!(gi < si);
}

#[test]
fn nix_only_first_edge_of_a_contract_counts() {
    // The first edge of contract 0 joins nodes 0 and 1; a later edge of the
    // same contract that involves node 2 is not looked at for node 2.
    let mut network = three_node_network();
    network.edges = vec![
        Edge { from_node: NodeIdx(0), to_node: NodeIdx(1), contract: ContractIdx(0), origin: EdgeOrigin::Send },
        Edge { from_node: NodeIdx(2), to_node: NodeIdx(1), contract: ContractIdx(0), origin: EdgeOrigin::Send },
    ];
    let files = generate_nix(&network).unwrap();
    assert!(!files[2].content.contains("nexus_game_info.c"));
    assert!(files[0].content.contains("nexus_game_info.c"));
}
