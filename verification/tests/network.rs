use nexus_gen::network::{parse_inline_field_type, parse_transport, to_pascal_case};
use nexus_gen::error::NexusCoreError;
use nexus_gen::types::{FieldType, Transport};

#[test]
fn test_pascal_case_conversion() {
    assert_eq!(to_pascal_case("game_info"), "GameInfo");
    assert_eq!(to_pascal_case("display"), "Display");
    assert_eq!(to_pascal_case("player_state"), "PlayerState");
}

#[test]
fn pascal_case_edge_cases() {
    assert_eq!(to_pascal_case(""), "");
    assert_eq!(to_pascal_case("__a__b_"), "AB");
    assert_eq!(to_pascal_case("GameInfo"), "GameInfo");
    assert_eq!(to_pascal_case("x9_y"), "X9Y");
    assert_eq!(to_pascal_case("ßeta"), "SSeta");
}

#[test]
fn transports_and_their_aliases() {
    assert_eq!(parse_transport("unix_socket"), Ok(Transport::UnixSocket));
    assert_eq!(parse_transport("unix"), Ok(Transport::UnixSocket));
    assert_eq!(parse_transport("grpc"), Ok(Transport::Grpc));
    assert_eq!(parse_transport("http"), Ok(Transport::Http));
    assert_eq!(parse_transport("iceoryx"), Ok(Transport::Iceoryx));
    assert_eq!(parse_transport("shared_memory"), Ok(Transport::SharedMemory));
    assert_eq!(parse_transport("shm"), Ok(Transport::SharedMemory));
    assert_eq!(parse_transport("message_queue"), Ok(Transport::MessageQueue));
    assert_eq!(parse_transport("mq"), Ok(Transport::MessageQueue));
    assert_eq!(
        parse_transport("foobar"),
        Err(NexusCoreError::UnknownTransport("foobar".to_string()))
    );
    assert_eq!(
        parse_transport("GRPC"),
        Err(NexusCoreError::UnknownTransport("GRPC".to_string()))
    );
}

#[test]
fn inline_field_types() {
    assert_eq!(parse_inline_field_type("u32"), Ok(FieldType::U32));
    assert_eq!(parse_inline_field_type("bool"), Ok(FieldType::Bool));
    assert_eq!(parse_inline_field_type("f64"), Ok(FieldType::F64));
    assert_eq!(
        parse_inline_field_type("bytes(4)"),
        Err(NexusCoreError::UnknownFieldType("bytes(4)".to_string()))
    );
}

#[test]
fn inline_and_schema_type_names_agree() {
    for name in ["u8", "u16", "u32", "u64", "i8", "i16", "i32", "i64", "f32", "f64", "bool"] {
        let inline = nexus_gen::network::parse_inline_field_type(name).unwrap();
        let text = format!("struct S {{\n    x : {}\n}}\n", name);
        let parsed = nexus_gen::schema::parse_nxs(&text).unwrap();
        assert_eq!(parsed[0].fields[0].typ, inline);
    }
    let parsed = nexus_gen::schema::parse_nxs("struct S {\n    x : Vec2\n}\n").unwrap();
    assert_eq!(parsed[0].fields[0].typ, nexus_gen::types::FieldType::Nested("Vec2".to_string()));
    assert_eq!(
        nexus_gen::network::parse_inline_field_type("Vec2"),
        Err(nexus_gen::error::NexusCoreError::UnknownFieldType("Vec2".to_string()))
    );
}
