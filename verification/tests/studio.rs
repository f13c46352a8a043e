use nexus_gen::error::NexusCoreError;
use nexus_gen::studio::{dto_to_toml, toml_to_dto, ContractDto, EdgeDto, NetworkDto, NodeDto};

fn edge(contract: &str, peer: &str) -> EdgeDto {
    EdgeDto { contract: contract.to_string(), peer: peer.to_string() }
}

fn contract(name: &str, transport: &str, schema: &str) -> ContractDto {
    ContractDto {
        name: name.to_string(),
        transport: transport.to_string(),
        schema: schema.to_string(),
    }
}

fn sample_dto() -> NetworkDto {
    NetworkDto {
        nodes: vec![
            NodeDto {
                name: "game_engine".to_string(),
                sends: vec![edge("game_info", "backend")],
                receives: vec![],
            },
            NodeDto {
                name: "backend".to_string(),
                sends: vec![edge("display", "frontend")],
                receives: vec![edge("game_info", "game_engine")],
            },
            NodeDto {
                name: "frontend".to_string(),
                sends: vec![],
                receives: vec![edge("display", "backend")],
            },
        ],
        contracts: vec![
            contract("game_info", "unix_socket", "schemas/game_info.nxs"),
            contract("display", "unix_socket", ""),
        ],
    }
}

const SAMPLE_TOML: &str = r#"[[nodes]]
name = "game_engine"
sends = [{ contract = "game_info", to = "backend" }]

[[nodes]]
name = "backend"
receives = [{ contract = "game_info", from = "game_engine" }]
sends    = [{ contract = "display",   to = "frontend" }]

[[nodes]]
name = "frontend"
receives = [{ contract = "display", from = "backend" }]

[[contracts]]
name      = "game_info"
transport = "unix_socket"
schema    = "schemas/game_info.nxs"

[[contracts]]
name      = "display"
transport = "unix_socket"
fields = [
  { name = "frame_id", type = "u32" },
  { name = "width",    type = "u32" },
  { name = "height",   type = "u32" },
]
"#;

#[test]
fn dto_to_toml_writes_nodes_then_contracts() {
    let dto = NetworkDto {
        nodes: vec![NodeDto {
            name: "a".to_string(),
            sends: vec![edge("c", "b")],
            receives: vec![edge("d", "e")],
        }],
        contracts: vec![contract("c", "grpc", "s.nxs")],
    };
    let expected = "[[nodes]]\n\
name = \"a\"\n\
sends = [\n  { contract = \"c\", to = \"b\" },\n]\n\
receives = [\n  { contract = \"d\", from = \"e\" },\n]\n\
\n\
[[contracts]]\n\
name = \"c\"\n\
transport = \"grpc\"\n\
schema = \"s.nxs\"\n\
\n";
    assert_eq!(dto_to_toml(&dto), expected);
}

#[test]
fn dto_to_toml_omits_empty_lists_and_schema() {
    let dto = NetworkDto {
        nodes: vec![NodeDto { name: "lonely".to_string(), sends: vec![], receives: vec![] }],
        contracts: vec![contract("inline", "http", "")],
    };
    let expected = "[[nodes]]\nname = \"lonely\"\n\n[[contracts]]\nname = \"inline\"\ntransport = \"http\"\n\n";
    assert_eq!(dto_to_toml(&dto), expected);
}

#[test]
fn dto_to_toml_of_empty_network_is_empty() {
    let dto = NetworkDto { nodes: vec![], contracts: vec![] };
    assert_eq!(dto_to_toml(&dto), "");
}

#[test]
fn toml_to_dto_reads_the_sample_network() {
    let dto = toml_to_dto(SAMPLE_TOML).expect("sample parses");
    assert_eq!(dto, sample_dto());
}

#[test]
fn toml_to_dto_reads_missing_values_as_empty() {
    let text = "[[nodes]]\nsends = [{ to = \"x\" }, 7]\n\n[[contracts]]\nname = 3\n";
    let dto = toml_to_dto(text).expect("parses");
    assert_eq!(
        dto,
        NetworkDto {
            nodes: vec![NodeDto {
                name: String::new(),
                sends: vec![edge("", "x"), edge("", "")],
                receives: vec![],
            }],
            contracts: vec![contract("", "", "")],
        }
    );
}

#[test]
fn toml_to_dto_of_a_document_without_tables() {
    let dto = toml_to_dto("title = \"none\"\n").expect("parses");
    assert_eq!(dto, NetworkDto { nodes: vec![], contracts: vec![] });
}

#[test]
fn toml_to_dto_rejects_text_that_is_not_toml() {
    match toml_to_dto("[[nodes]\nname = ") {
        Err(NexusCoreError::TomlParse(message)) => assert!(!message.is_empty()),
        other => panic!("expected a TOML error, got {:?}", other),
    }
}

#[test]
fn studio_round_trip_keeps_the_network() {
    let dto = sample_dto();
    let text = dto_to_toml(&dto);
    assert_eq!(toml_to_dto(&text).expect("written text parses"), dto);
}
