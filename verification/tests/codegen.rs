use std::collections::HashSet;

use nexus_gen::codegen::generate;
use nexus_gen::error::CodegenError;
use nexus_gen::types::{
    Contract, ContractIdx, Edge, EdgeOrigin, Field, FieldType, Network, Node, NodeIdx, Schema,
    SchemaIdx, StringHashMap, StructDef, Transport,
};

fn network(
    nodes: &[&str],
    contracts: &[(&str, Transport, usize)],
    schemas: Vec<Schema>,
    edges: &[(usize, usize, usize, EdgeOrigin)],
) -> Network {
    let mut node_index = StringHashMap::new();
    for (i, n) in nodes.iter().enumerate() {
        node_index.insert(n.to_string(), NodeIdx(i));
    }
    let mut contract_index = StringHashMap::new();
    for (i, c) in contracts.iter().enumerate() {
        contract_index.insert(c.0.to_string(), ContractIdx(i));
    }
    Network {
        nodes: nodes.iter().map(|n| Node { name: n.to_string() }).collect(),
        contracts: contracts
            .iter()
            .map(|(n, t, s)| Contract { name: n.to_string(), transport: *t, schema: SchemaIdx(*s) })
            .collect(),
        schemas,
        edges: edges
            .iter()
            .map(|(f, t, c, o)| Edge { from_node: NodeIdx(*f), to_node: NodeIdx(*t), contract: ContractIdx(*c), origin: *o })
            .collect(),
        node_index,
        contract_index,
    }
}

fn schema(name: &str, structs: Vec<(&str, Vec<(&str, FieldType)>)>) -> Schema {
    Schema {
        name: name.to_string(),
        structs: structs
            .into_iter()
            .map(|(n, fs)| StructDef {
                name: n.to_string(),
                fields: fs.into_iter().map(|(f, t)| Field { name: f.to_string(), typ: t }).collect(),
            })
            .collect(),
    }
}

fn sample_network() -> Network {
    network(
        &["backend", "game_engine", "frontend"],
        &[("game_info", Transport::UnixSocket, 0), ("display", Transport::UnixSocket, 1)],
        vec![
            schema("game_info", vec![("GameInfo", vec![("player_id", FieldType::U32), ("position_x", FieldType::F32)])]),
            schema("display", vec![("Display", vec![("frame_id", FieldType::U32)])]),
        ],
        &[
            (0, 2, 1, EdgeOrigin::Send),
            (1, 0, 0, EdgeOrigin::Receive),
            (1, 0, 0, EdgeOrigin::Send),
            (0, 2, 1, EdgeOrigin::Receive),
        ],
    )
}

#[test]
fn generate_sample_produces_every_file() {
    let output = generate(&sample_network()).expect("codegen should succeed for sample network");
    let paths: HashSet<&str> = output.files.iter().map(|f| f.path.as_str()).collect();
    for p in [
        "include/nexus_game_info.h",
        "include/nexus_display.h",
        "src/nexus_game_info.c",
        "src/nexus_display.c",
        "include/nexus_backend.h",
        "include/nexus_game_engine.h",
        "include/nexus_frontend.h",
        "nix/backend.nix",
        "nix/game_engine.nix",
        "nix/frontend.nix",
        "nexus.nix",
    ] {
        assert!(paths.contains(p), "missing {}", p);
    }
    assert_eq!(output.files.len(), 11);
    let h = output.files.iter().find(|f| f.path == "include/nexus_game_info.h").unwrap();
    assert!(h.content.contains("NexusGameInfo"));
    assert!(h.content.contains("nexus_send_game_info"));
    assert!(h.content.contains("nexus_recv_game_info"));
    assert!(h.content.contains("    uint32_t player_id;\n    float position_x;\n"));
    let u = output.files.iter().find(|f| f.path == "include/nexus_backend.h").unwrap();
    let gi = u.content.find("#include \"nexus_game_info.h\"").unwrap();
    let d = u.content.find("#include \"nexus_display.h\"").unwrap();
    assert!(gi < d);
}

#[test]
fn generate_minimal_network_gives_seven_files() {
    let net = network(
        &["producer", "consumer"],
        &[("data", Transport::UnixSocket, 0)],
        vec![schema("data", vec![("Data", vec![("value", FieldType::U64)])])],
        &[(0, 1, 0, EdgeOrigin::Send), (0, 1, 0, EdgeOrigin::Receive)],
    );
    let output = generate(&net).unwrap();
    let paths: Vec<&str> = output.files.iter().map(|f| f.path.as_str()).collect();
    assert_eq!(
        paths,
        vec![
            "include/nexus_data.h",
            "src/nexus_data.c",
            "include/nexus_producer.h",
            "include/nexus_consumer.h",
            "nix/producer.nix",
            "nix/consumer.nix",
            "nexus.nix"
        ]
    );
    let h = &output.files[0].content;
    assert!(h.contains("NexusData"));
    assert!(h.contains("nexus_send_data"));
    assert!(h.contains("nexus_recv_data"));
}

#[test]
fn c_declarations_of_every_field_type() {
    let net = network(
        &["a"],
        &[("msg", Transport::Grpc, 0)],
        vec![schema(
            "msg",
            vec![(
                "Packet",
                vec![
                    ("a", FieldType::I16),
                    ("b", FieldType::Bool),
                    ("c", FieldType::Bytes(16)),
                    ("d", FieldType::StringFixed(32)),
                    ("e", FieldType::Array { elem: Box::new(FieldType::Array { elem: Box::new(FieldType::F64), len: 3 }), len: 2 }),
                    ("f", FieldType::Nested("Vec2".to_string())),
                ],
            )],
        )],
        &[],
    );
    let output = generate(&net).unwrap();
    let h = &output.files[0].content;
    assert!(h.contains("    int16_t a;\n"));
    assert!(h.contains("    bool b;\n"));
    assert!(h.contains("    uint8_t c[16];\n"));
    assert!(h.contains("    char d[32];\n"));
    assert!(h.contains("    double e[2][3];\n"));
    assert!(h.contains("    NexusVec2 f;\n"));
    assert!(h.contains("typedef NexusPacket NexusMsg;"));
    let c = &output.files[1].content;
    assert!(c.contains("nexus_grpc_publish(\"msg\", msg, sizeof(*msg))"));
}

#[test]
fn http_contracts_get_typescript_clients_last() {
    let net = network(
        &["web"],
        &[("status", Transport::Http, 0), ("ctl", Transport::Iceoryx, 0)],
        vec![schema("status", vec![("Status", vec![("ok", FieldType::Bool), ("codes", FieldType::Array { elem: Box::new(FieldType::U8), len: 4 })])])],
        &[],
    );
    let output = generate(&net).unwrap();
    let last = output.files.last().unwrap();
    assert_eq!(last.path, "ts/nexus_status.ts");
    assert!(last.content.contains("export interface NexusStatus {\n  ok: boolean;\n  codes: number[];\n}"));
    assert!(last.content.contains("sendStatus("));
    assert_eq!(output.files.iter().filter(|f| f.path.starts_with("ts/")).count(), 1);
}

#[test]
fn unsupported_transports_fail_generation() {
    let net = network(
        &["a"],
        &[("ok", Transport::UnixSocket, 0), ("q", Transport::MessageQueue, 0), ("s", Transport::SharedMemory, 0)],
        vec![schema("ok", vec![("Ok", vec![])])],
        &[],
    );
    match generate(&net) {
        Err(CodegenError::UnsupportedTransport(t)) => assert_eq!(t, "MessageQueue"),
        Err(other) => panic!("unexpected error {:?}", other),
        Ok(_) => panic!("generation should fail"),
    }
}

#[test]
fn empty_schema_gets_a_placeholder_message_type() {
    let net = network(&["a"], &[("ping", Transport::UnixSocket, 0)], vec![schema("ping", vec![])], &[]);
    let output = generate(&net).unwrap();
    assert!(output.files[0].content.contains("typedef struct NexusPing { uint8_t reserved; } NexusPing;"));
}
