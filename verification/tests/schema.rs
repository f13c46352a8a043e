use nexus_gen::error::NexusCoreError;
use nexus_gen::schema::{check_nxs_lengths, parse_nxs, parse_nxs_text};
use nexus_gen::types::FieldType;

#[test]
fn test_parse_simple_struct() {
    let input = "struct Foo {\n    x : u32\n    y : f64\n}\n";
    let structs = parse_nxs(input).expect("parse should succeed");
    assert_eq!(structs.len(), 1);
    assert_eq!(structs[0].name, "Foo");
    assert_eq!(structs[0].fields.len(), 2);
    assert_eq!(structs[0].fields[0].name, "x");
    assert_eq!(structs[0].fields[0].typ, FieldType::U32);
    assert_eq!(structs[0].fields[1].name, "y");
    assert_eq!(structs[0].fields[1].typ, FieldType::F64);
}

#[test]
fn test_parse_nested_struct() {
    let input = "struct Particle {\n    pos : Vec2\n    mass : f32\n}\n";
    let structs = parse_nxs(input).expect("parse should succeed");
    assert_eq!(
        structs[0].fields[0].typ,
        FieldType::Nested("Vec2".to_string())
    );
    assert_eq!(structs[0].fields[1].typ, FieldType::F32);
}

#[test]
fn test_parse_array_field() {
    let input = "struct Buf {\n    data : [u8; 8]\n}\n";
    let structs = parse_nxs(input).expect("parse should succeed");
    assert_eq!(
        structs[0].fields[0].typ,
        FieldType::Array {
            elem: Box::new(FieldType::U8),
            len: 8,
        }
    );
}

#[test]
fn test_parse_bytes_type() {
    let input = "struct Msg {\n    payload : bytes(16)\n}\n";
    let structs = parse_nxs(input).expect("parse should succeed");
    assert_eq!(structs[0].fields[0].typ, FieldType::Bytes(16));
}

#[test]
fn test_parse_string_type() {
    let input = "struct Msg {\n    label : string(32)\n}\n";
    let structs = parse_nxs(input).expect("parse should succeed");
    assert_eq!(structs[0].fields[0].typ, FieldType::StringFixed(32));
}

#[test]
fn test_parse_multiple_structs() {
    let input = "struct Vec2 {\n    x : f32\n    y : f32\n}\n\n\
                 struct Particle {\n    pos : Vec2\n    mass : f32\n}\n";
    let structs = parse_nxs(input).expect("parse should succeed");
    assert_eq!(structs.len(), 2);
    assert_eq!(structs[0].name, "Vec2");
    assert_eq!(structs[1].name, "Particle");
}

#[test]
fn test_parse_with_comments() {
    let input = "# top-level comment\n\
                 struct Foo {\n\
                 \x20   x : u32   # inline comment\n\
                 \x20   y : f32\n\
                 }\n";
    let structs = parse_nxs(input).expect("parse should succeed");
    assert_eq!(structs[0].fields.len(), 2);
}

#[test]
fn test_parse_error() {
    let input = "this is not valid nxs syntax !!!";
    let result = parse_nxs(input);
    assert!(result.is_err());
}

// ── further cases ────────────────────────────────────────────────────────────

#[test]
fn parse_empty_input_gives_no_structs() {
    let structs = parse_nxs("").expect("empty schema is valid");
    assert!(structs.is_empty());
    let structs = parse_nxs("  # only a comment").expect("comment-only schema is valid");
    assert!(structs.is_empty());
}

#[test]
fn parse_nested_arrays_and_all_primitives() {
    let input = "struct All { a: u8 b: u16 c: u32 d: u64 e: i8 f: i16 g: i32 h: i64 i: f32 j: f64 k: bool m: [[i16; 3]; 2] }";
    let structs = parse_nxs(input).expect("parse should succeed");
    let t: Vec<&FieldType> = structs[0].fields.iter().map(|f| &f.typ).collect();
    assert_eq!(t.len(), 12);
    assert_eq!(*t[0], FieldType::U8);
    assert_eq!(*t[1], FieldType::U16);
    assert_eq!(*t[3], FieldType::U64);
    assert_eq!(*t[4], FieldType::I8);
    assert_eq!(*t[7], FieldType::I64);
    assert_eq!(*t[10], FieldType::Bool);
    assert_eq!(
        *t[11],
        FieldType::Array {
            elem: Box::new(FieldType::Array { elem: Box::new(FieldType::I16), len: 3 }),
            len: 2,
        }
    );
}

#[test]
fn parse_bytes_without_length_is_a_nested_type() {
    let structs = parse_nxs("struct S { b : bytes }").expect("parse should succeed");
    assert_eq!(structs[0].fields[0].typ, FieldType::Nested("bytes".to_string()));
}

#[test]
fn parse_errors_report_the_input_path() {
    for bad in [
        "struct Foo { x : u32",
        "struct { x : u32 }",
        "struct Foo { x u32 }",
        "struct Foo { x : [u8 8] }",
        "struct Foo { x : [u8; 8 }",
        "struct Foo { x : 7 }",
        "Foo { }",
        "struct Foo { x : u32 } }",
        "struct Foo { x : u32 } $",
    ] {
        match parse_nxs(bad) {
            Err(NexusCoreError::SchemaParse { path, message }) => {
                assert_eq!(path, "<input>");
                assert_eq!(message, "invalid schema syntax");
            }
            other => panic!("{:?} should not parse, got {:?}", bad, other),
        }
    }
}

#[test]
fn lengths_that_do_not_fit_are_detected() {
    assert!(check_nxs_lengths("struct S { b : bytes(16) }"));
    assert!(!check_nxs_lengths("struct S { b : bytes(99999999999999999999999) }"));
    // a text outside the language reads no length
    assert!(check_nxs_lengths("struct S { b : bytes(99999999999999999999999) "));
}

#[test]
fn schema_file_text_errors_name_the_file() {
    let parsed = parse_nxs_text("schemas/a.nxs", "struct A {\n    x : u8\n}\n").unwrap();
    assert_eq!(parsed.len(), 1);
    assert_eq!(parsed[0].name, "A");
    match parse_nxs_text("schemas/a.nxs", "struct {") {
        Err(NexusCoreError::SchemaParse { path, message }) => {
            assert_eq!(path, "schemas/a.nxs");
            assert_eq!(message, "invalid schema syntax");
        }
        other => panic!("expected a syntax error, got {:?}", other),
    }
}

#[test]
fn parsed_schemas_clone_to_equal_values() {
    let structs = parse_nxs("struct A {\n    xs : [[u8; 2]; 3]\n    b : B\n}\n").unwrap();
    let copy = structs.clone();
    assert_eq!(copy, structs);
    assert_eq!(
        copy[0].fields[0].typ,
        FieldType::Array {
            elem: Box::new(FieldType::Array { elem: Box::new(FieldType::U8), len: 2 }),
            len: 3
        }
    );
}
