//! Generation of C headers and implementations, TypeScript clients and Nix
//! derivations for a network.

use vstd::prelude::*;

use crate::error::CodegenError;
use crate::network::{pascal, to_pascal_case};
use crate::schema::spec_primitive;
use crate::nix::{generate_nix, nix_files, nix_renders};
use crate::template::{new_environment, render_named_str, render_text, renders, TemplateContext};
use crate::text::{decimal, decimal_string, strings_view};
use crate::types::{Contract, Field, FieldType, FieldTypeV, Network, Schema, SchemaV, StructDef, Transport};

verus! {

// ---------------------------------------------------------------------------
// Templates
// ---------------------------------------------------------------------------

/// One C struct.
pub const C_STRUCT_TMPL: &'static str = r#"typedef struct Nexus{{ name }} {
{% for f in fields %}    {{ f }}
{% endfor %}} Nexus{{ name }};
"#;

/// The C header of one contract: its message types and its send and receive
/// functions.
pub const HEADER_TMPL: &'static str = r#"/* Generated by nexus-gen. Do not edit. */
#ifndef NEXUS_{{ contract_name }}_H
#define NEXUS_{{ contract_name }}_H

#include <stdbool.h>
#include <stddef.h>
#include <stdint.h>

{% for s in struct_decls %}{{ s }}
{% endfor %}{{ message_decl }}
/* Send one message; returns 0 on success, -1 on failure. */
int nexus_send_{{ contract_name }}(const {{ type_name }} *msg);

/* Receive one message; returns 0 on success, -1 on failure. */
int nexus_recv_{{ contract_name }}({{ type_name }} *msg);

#endif /* NEXUS_{{ contract_name }}_H */
"#;

/// The implementation of one contract over a Unix domain socket.
pub const UNIX_SOCKET_IMPL_TMPL: &'static str = r#"/* Generated by nexus-gen. Do not edit. */
#include "nexus_{{ contract_name }}.h"

#include <string.h>
#include <sys/socket.h>
#include <sys/un.h>
#include <unistd.h>

#define NEXUS_{{ contract_name }}_SOCKET "/tmp/nexus_{{ contract_name }}.sock"

static void nexus_{{ contract_name }}_address(struct sockaddr_un *addr) {
    memset(addr, 0, sizeof(*addr));
    addr->sun_family = AF_UNIX;
    strncpy(addr->sun_path, NEXUS_{{ contract_name }}_SOCKET, sizeof(addr->sun_path) - 1);
}

int nexus_send_{{ contract_name }}(const {{ type_name }} *msg) {
    struct sockaddr_un addr;
    int fd = socket(AF_UNIX, SOCK_STREAM, 0);
    if (fd < 0) {
        return -1;
    }
    nexus_{{ contract_name }}_address(&addr);
    if (connect(fd, (struct sockaddr *)&addr, sizeof(addr)) < 0) {
        close(fd);
        return -1;
    }
    ssize_t n = write(fd, msg, sizeof(*msg));
    close(fd);
    return n == (ssize_t)sizeof(*msg) ? 0 : -1;
}

int nexus_recv_{{ contract_name }}({{ type_name }} *msg) {
    struct sockaddr_un addr;
    int fd = socket(AF_UNIX, SOCK_STREAM, 0);
    if (fd < 0) {
        return -1;
    }
    nexus_{{ contract_name }}_address(&addr);
    unlink(NEXUS_{{ contract_name }}_SOCKET);
    if (bind(fd, (struct sockaddr *)&addr, sizeof(addr)) < 0 || listen(fd, 1) < 0) {
        close(fd);
        return -1;
    }
    int conn = accept(fd, NULL, NULL);
    close(fd);
    if (conn < 0) {
        return -1;
    }
    ssize_t n = read(conn, msg, sizeof(*msg));
    close(conn);
    return n == (ssize_t)sizeof(*msg) ? 0 : -1;
}
"#;

/// The implementation of one contract over a transport runtime (gRPC, HTTP
/// or Iceoryx), which moves the message bytes under the contract's name.
pub const RUNTIME_IMPL_TMPL: &'static str = r#"/* Generated by nexus-gen. Do not edit. */
#include "nexus_{{ contract_name }}.h"

/* Provided by the {{ transport }} runtime. */
int nexus_{{ transport }}_publish(const char *contract, const void *data, size_t size);
int nexus_{{ transport }}_receive(const char *contract, void *data, size_t size);

int nexus_send_{{ contract_name }}(const {{ type_name }} *msg) {
    return nexus_{{ transport }}_publish("{{ contract_name }}", msg, sizeof(*msg));
}

int nexus_recv_{{ contract_name }}({{ type_name }} *msg) {
    return nexus_{{ transport }}_receive("{{ contract_name }}", msg, sizeof(*msg));
}
"#;

/// The umbrella header of one node: the headers of every contract it takes
/// part in.
pub const UMBRELLA_TMPL: &'static str = r#"/* Generated by nexus-gen. Do not edit. */
#ifndef NEXUS_NODE_{{ node_name }}_H
#define NEXUS_NODE_{{ node_name }}_H

{% for c in contract_names %}#include "nexus_{{ c }}.h"
{% endfor %}
#endif /* NEXUS_NODE_{{ node_name }}_H */
"#;

/// One TypeScript interface.
pub const TS_INTERFACE_TMPL: &'static str = r#"export interface Nexus{{ name }} {
{% for f in fields %}  {{ f }};
{% endfor %}}
"#;

/// The TypeScript client of one HTTP contract.
pub const TS_CLIENT_TMPL: &'static str = r#"// Generated by nexus-gen. Do not edit.
{% for i in interfaces %}
{{ i }}{% endfor %}
{{ message_decl }}
export async function send{{ pascal_name }}(baseUrl: string, msg: {{ type_name }}): Promise<void> {
  const res = await fetch(`${baseUrl}/{{ contract_name }}`, {
    method: "POST",
    headers: { "Content-Type": "application/json" },
    body: JSON.stringify(msg),
  });
  if (!res.ok) {
    throw new Error(`nexus: sending {{ contract_name }} failed with status ${res.status}`);
  }
}

export async function recv{{ pascal_name }}(baseUrl: string): Promise<{{ type_name }}> {
  const res = await fetch(`${baseUrl}/{{ contract_name }}`);
  if (!res.ok) {
    throw new Error(`nexus: receiving {{ contract_name }} failed with status ${res.status}`);
  }
  return (await res.json()) as {{ type_name }};
}
"#;

/// One generated file.
pub struct GeneratedFile {
    /// Relative path within the output directory.
    pub path: String,
    pub content: String,
}

impl View for GeneratedFile {
    type V = (Seq<char>, Seq<char>);

    open spec fn view(&self) -> (Seq<char>, Seq<char>) {
        (self.path@, self.content@)
    }
}

/// All files generated for a network.
pub struct GeneratedOutput {
    pub files: Vec<GeneratedFile>,
}

/// The views of generated files.
pub open spec fn files_view(v: Seq<GeneratedFile>) -> Seq<(Seq<char>, Seq<char>)> {
    v.map_values(|f: GeneratedFile| f@)
}


// ---------------------------------------------------------------------------
// Specification
// ---------------------------------------------------------------------------

/// The C type of a field, without array dimensions.
pub open spec fn c_base(t: FieldTypeV) -> Seq<char>
    decreases t,
{
    match t {
        FieldTypeV::U8 => "uint8_t"@,
        FieldTypeV::U16 => "uint16_t"@,
        FieldTypeV::U32 => "uint32_t"@,
        FieldTypeV::U64 => "uint64_t"@,
        FieldTypeV::I8 => "int8_t"@,
        FieldTypeV::I16 => "int16_t"@,
        FieldTypeV::I32 => "int32_t"@,
        FieldTypeV::I64 => "int64_t"@,
        FieldTypeV::F32 => "float"@,
        FieldTypeV::F64 => "double"@,
        FieldTypeV::Bool => "bool"@,
        FieldTypeV::Bytes(_) => "uint8_t"@,
        FieldTypeV::StringFixed(_) => "char"@,
        FieldTypeV::Array(e, _) => c_base(*e),
        FieldTypeV::Nested(n) => "Nexus"@ + n,
    }
}

/// The array dimensions of a field's C declarator, outermost first.
pub open spec fn c_dims(t: FieldTypeV) -> Seq<char>
    decreases t,
{
    match t {
        FieldTypeV::Bytes(n) => "["@ + decimal(n as nat) + "]"@,
        FieldTypeV::StringFixed(n) => "["@ + decimal(n as nat) + "]"@,
        FieldTypeV::Array(e, n) => "["@ + decimal(n as nat) + "]"@ + c_dims(*e),
        _ => Seq::empty(),
    }
}

/// The C declaration of a field, e.g. `uint8_t data[8];`.
pub open spec fn c_field_decl(f: (Seq<char>, FieldTypeV)) -> Seq<char> {
    c_base(f.1) + " "@ + f.0 + c_dims(f.1) + ";"@
}

/// The TypeScript type of a field.
pub open spec fn ts_type(t: FieldTypeV) -> Seq<char>
    decreases t,
{
    match t {
        FieldTypeV::Bool => "boolean"@,
        FieldTypeV::Bytes(_) => "number[]"@,
        FieldTypeV::StringFixed(_) => "string"@,
        FieldTypeV::Array(e, _) => ts_type(*e) + "[]"@,
        FieldTypeV::Nested(n) => "Nexus"@ + n,
        _ => "number"@,
    }
}

/// The TypeScript declaration of a field, e.g. `x: number`.
pub open spec fn ts_field_decl(f: (Seq<char>, FieldTypeV)) -> Seq<char> {
    f.0 + ": "@ + ts_type(f.1)
}

/// The rendered C declaration of one struct.
pub open spec fn c_struct_text(sd: (Seq<char>, Seq<(Seq<char>, FieldTypeV)>)) -> Seq<char> {
    render_text(
        "c_struct"@,
        C_STRUCT_TMPL@,
        seq![("name"@, sd.0)],
        seq![("fields"@, sd.1.map_values(|f: (Seq<char>, FieldTypeV)| c_field_decl(f)))],
        Seq::empty(),
    )
}

/// The rendered TypeScript interface of one struct.
pub open spec fn ts_interface_text(sd: (Seq<char>, Seq<(Seq<char>, FieldTypeV)>)) -> Seq<char> {
    render_text(
        "ts_interface"@,
        TS_INTERFACE_TMPL@,
        seq![("name"@, sd.0)],
        seq![("fields"@, sd.1.map_values(|f: (Seq<char>, FieldTypeV)| ts_field_decl(f)))],
        Seq::empty(),
    )
}

/// The message type of a contract: `Nexus` and its name in PascalCase.
pub open spec fn message_type(contract_name: Seq<char>) -> Seq<char> {
    "Nexus"@ + pascal(contract_name)
}

/// The C declaration that makes the message type stand for the last struct
/// of the schema: nothing when that struct already has the name, a typedef
/// otherwise, and a placeholder struct when the schema has none.
pub open spec fn c_message_decl(schema: SchemaV, t: Seq<char>) -> Seq<char> {
    let structs = schema.1;
    if structs.len() == 0 {
        "typedef struct "@ + t + " { uint8_t reserved; } "@ + t + ";\n"@
    } else if "Nexus"@ + structs.last().0 == t {
        Seq::empty()
    } else {
        "typedef Nexus"@ + structs.last().0 + " "@ + t + ";\n"@
    }
}

/// The TypeScript counterpart of `c_message_decl`.
pub open spec fn ts_message_decl(schema: SchemaV, t: Seq<char>) -> Seq<char> {
    let structs = schema.1;
    if structs.len() == 0 {
        "export interface "@ + t + " {}\n"@
    } else if "Nexus"@ + structs.last().0 == t {
        Seq::empty()
    } else {
        "export type "@ + t + " = Nexus"@ + structs.last().0 + ";\n"@
    }
}

/// The schema of contract `ci`.
pub open spec fn schema_of(net: &Network, ci: int) -> SchemaV {
    net.schemas@[net.contracts@[ci].schema.0 as int]@
}

/// The header `include/nexus_<contract>.h` of contract `ci`.
pub open spec fn header_file(net: &Network, ci: int) -> (Seq<char>, Seq<char>) {
    let name = net.contracts@[ci].name@;
    let schema = schema_of(net, ci);
    let t = message_type(name);
    (
        "include/nexus_"@ + name + ".h"@,
        render_text(
            "header"@,
            HEADER_TMPL@,
            seq![("contract_name"@, name), ("type_name"@, t), ("message_decl"@, c_message_decl(schema, t))],
            seq![("struct_decls"@, schema.1.map_values(|sd: (Seq<char>, Seq<(Seq<char>, FieldTypeV)>)| c_struct_text(sd)))],
            Seq::empty(),
        ),
    )
}

/// A transport with a code generator.
pub open spec fn supported(t: Transport) -> bool {
    t is UnixSocket || t is Grpc || t is Http || t is Iceoryx
}

/// The name of a transport's runtime.
pub open spec fn runtime_name(t: Transport) -> Seq<char> {
    match t {
        Transport::Grpc => "grpc"@,
        Transport::Http => "http"@,
        _ => "iceoryx"@,
    }
}

/// The implementation `src/nexus_<contract>.c` of contract `ci`, whose
/// transport is supported.
pub open spec fn impl_file(net: &Network, ci: int) -> (Seq<char>, Seq<char>) {
    let c = net.contracts@[ci];
    let name = c.name@;
    let t = message_type(name);
    (
        "src/nexus_"@ + name + ".c"@,
        if c.transport is UnixSocket {
            render_text(
                "impl"@,
                UNIX_SOCKET_IMPL_TMPL@,
                seq![("contract_name"@, name), ("type_name"@, t)],
                Seq::empty(),
                Seq::empty(),
            )
        } else {
            render_text(
                "impl"@,
                RUNTIME_IMPL_TMPL@,
                seq![("contract_name"@, name), ("type_name"@, t), ("transport"@, runtime_name(c.transport))],
                Seq::empty(),
                Seq::empty(),
            )
        },
    )
}

/// The header and implementation of each of the first `k` contracts.
pub open spec fn contract_files_upto(net: &Network, k: int) -> Seq<(Seq<char>, Seq<char>)>
    decreases k,
{
    if k <= 0 {
        Seq::empty()
    } else {
        contract_files_upto(net, k - 1) + seq![header_file(net, k - 1), impl_file(net, k - 1)]
    }
}

/// Some edge with contract `ci` has node `node` as an end.
pub open spec fn touches(net: &Network, node: int, ci: int) -> bool {
    exists|j: int|
        0 <= j < net.edges@.len() && (#[trigger] net.edges@[j]).contract.0 == ci && (
        net.edges@[j].from_node.0 == node || net.edges@[j].to_node.0 == node)
}

/// The names of the first `k` contracts that node `node` takes part in, in
/// contract order.
pub open spec fn umbrella_names_upto(net: &Network, node: int, k: int) -> Seq<Seq<char>>
    decreases k,
{
    if k <= 0 {
        Seq::empty()
    } else if touches(net, node, k - 1) {
        umbrella_names_upto(net, node, k - 1).push(net.contracts@[k - 1].name@)
    } else {
        umbrella_names_upto(net, node, k - 1)
    }
}

/// The umbrella header `include/nexus_<node>.h` of node `node`.
pub open spec fn umbrella_file(net: &Network, node: int) -> (Seq<char>, Seq<char>) {
    let name = net.nodes@[node].name@;
    (
        "include/nexus_"@ + name + ".h"@,
        render_text(
            "umbrella"@,
            UMBRELLA_TMPL@,
            seq![("node_name"@, name)],
            seq![("contract_names"@, umbrella_names_upto(net, node, net.contracts@.len() as int))],
            Seq::empty(),
        ),
    )
}

/// The TypeScript client `ts/nexus_<contract>.ts` of contract `ci`.
pub open spec fn ts_file(net: &Network, ci: int) -> (Seq<char>, Seq<char>) {
    let name = net.contracts@[ci].name@;
    let schema = schema_of(net, ci);
    let t = message_type(name);
    (
        "ts/nexus_"@ + name + ".ts"@,
        render_text(
            "typescript"@,
            TS_CLIENT_TMPL@,
            seq![
                ("contract_name"@, name),
                ("type_name"@, t),
                ("pascal_name"@, pascal(name)),
                ("message_decl"@, ts_message_decl(schema, t)),
            ],
            seq![("interfaces"@, schema.1.map_values(|sd: (Seq<char>, Seq<(Seq<char>, FieldTypeV)>)| ts_interface_text(sd)))],
            Seq::empty(),
        ),
    )
}

/// The TypeScript clients of the HTTP contracts among the first `k`.
pub open spec fn ts_files_upto(net: &Network, k: int) -> Seq<(Seq<char>, Seq<char>)>
    decreases k,
{
    if k <= 0 {
        Seq::empty()
    } else if net.contracts@[k - 1].transport is Http {
        ts_files_upto(net, k - 1).push(ts_file(net, k - 1))
    } else {
        ts_files_upto(net, k - 1)
    }
}

/// All generated files: the header and implementation of each contract,
/// the umbrella header of each node, the Nix files, then the TypeScript
/// clients of the HTTP contracts.
pub open spec fn generated_files(net: &Network) -> Seq<(Seq<char>, Seq<char>)> {
    contract_files_upto(net, net.contracts@.len() as int) + Seq::new(
        net.nodes@.len(),
        |i: int| umbrella_file(net, i),
    ) + nix_files(net) + ts_files_upto(net, net.contracts@.len() as int)
}

/// The C declaration of a struct renders.
pub open spec fn c_struct_renders(sd: (Seq<char>, Seq<(Seq<char>, FieldTypeV)>)) -> bool {
    renders(
        "c_struct"@,
        C_STRUCT_TMPL@,
        seq![("name"@, sd.0)],
        seq![("fields"@, sd.1.map_values(|f: (Seq<char>, FieldTypeV)| c_field_decl(f)))],
        Seq::empty(),
    )
}

/// The TypeScript interface of a struct renders.
pub open spec fn ts_interface_renders(sd: (Seq<char>, Seq<(Seq<char>, FieldTypeV)>)) -> bool {
    renders(
        "ts_interface"@,
        TS_INTERFACE_TMPL@,
        seq![("name"@, sd.0)],
        seq![("fields"@, sd.1.map_values(|f: (Seq<char>, FieldTypeV)| ts_field_decl(f)))],
        Seq::empty(),
    )
}

/// The header of contract `ci` renders: each struct of its schema, then the
/// header itself.
pub open spec fn header_renders(net: &Network, ci: int) -> bool {
    let name = net.contracts@[ci].name@;
    let schema = schema_of(net, ci);
    let t = message_type(name);
    &&& forall|k: int| 0 <= k < schema.1.len() ==> #[trigger] c_struct_renders(schema.1[k])
    &&& renders(
        "header"@,
        HEADER_TMPL@,
        seq![("contract_name"@, name), ("type_name"@, t), ("message_decl"@, c_message_decl(schema, t))],
        seq![("struct_decls"@, schema.1.map_values(|sd: (Seq<char>, Seq<(Seq<char>, FieldTypeV)>)| c_struct_text(sd)))],
        Seq::empty(),
    )
}

/// The implementation of contract `ci` renders.
pub open spec fn impl_renders(net: &Network, ci: int) -> bool {
    let c = net.contracts@[ci];
    let name = c.name@;
    let t = message_type(name);
    if c.transport is UnixSocket {
        renders(
            "impl"@,
            UNIX_SOCKET_IMPL_TMPL@,
            seq![("contract_name"@, name), ("type_name"@, t)],
            Seq::empty(),
            Seq::empty(),
        )
    } else {
        renders(
            "impl"@,
            RUNTIME_IMPL_TMPL@,
            seq![("contract_name"@, name), ("type_name"@, t), ("transport"@, runtime_name(c.transport))],
            Seq::empty(),
            Seq::empty(),
        )
    }
}

/// The umbrella header of node `node` renders.
pub open spec fn umbrella_renders(net: &Network, node: int) -> bool {
    renders(
        "umbrella"@,
        UMBRELLA_TMPL@,
        seq![("node_name"@, net.nodes@[node].name@)],
        seq![("contract_names"@, umbrella_names_upto(net, node, net.contracts@.len() as int))],
        Seq::empty(),
    )
}

/// The TypeScript client of contract `ci` renders: each interface of its
/// schema, then the client itself.
pub open spec fn ts_renders(net: &Network, ci: int) -> bool {
    let name = net.contracts@[ci].name@;
    let schema = schema_of(net, ci);
    let t = message_type(name);
    &&& forall|k: int| 0 <= k < schema.1.len() ==> #[trigger] ts_interface_renders(schema.1[k])
    &&& renders(
        "typescript"@,
        TS_CLIENT_TMPL@,
        seq![
            ("contract_name"@, name),
            ("type_name"@, t),
            ("pascal_name"@, pascal(name)),
            ("message_decl"@, ts_message_decl(schema, t)),
        ],
        seq![("interfaces"@, schema.1.map_values(|sd: (Seq<char>, Seq<(Seq<char>, FieldTypeV)>)| ts_interface_text(sd)))],
        Seq::empty(),
    )
}

/// The header and implementation of each of the first `k` contracts render.
pub open spec fn contracts_render_upto(net: &Network, k: int) -> bool {
    forall|ci: int| 0 <= ci < k ==> #[trigger] header_renders(net, ci) && impl_renders(net, ci)
}

/// Every file of the generation renders: the headers and implementations,
/// the umbrella headers, the Nix files and the TypeScript clients of the
/// HTTP contracts.
pub open spec fn generation_renders(net: &Network) -> bool {
    &&& contracts_render_upto(net, net.contracts@.len() as int)
    &&& forall|i: int| 0 <= i < net.nodes@.len() ==> #[trigger] umbrella_renders(net, i)
    &&& nix_renders(net)
    &&& forall|ci: int|
        0 <= ci < net.contracts@.len() && (#[trigger] net.contracts@[ci]).transport is Http
            ==> ts_renders(net, ci)
}

/// The transports of the first `k` contracts all have code generators.
pub open spec fn all_supported_upto(net: &Network, k: int) -> bool {
    forall|i: int| 0 <= i < k ==> supported(#[trigger] net.contracts@[i].transport)
}

/// The name of a transport as `Debug` prints it.
pub open spec fn transport_debug_name(t: Transport) -> Seq<char> {
    match t {
        Transport::UnixSocket => "UnixSocket"@,
        Transport::Grpc => "Grpc"@,
        Transport::Http => "Http"@,
        Transport::Iceoryx => "Iceoryx"@,
        Transport::SharedMemory => "SharedMemory"@,
        Transport::MessageQueue => "MessageQueue"@,
    }
}


// ---------------------------------------------------------------------------
// Generation
// ---------------------------------------------------------------------------

/// A string from a literal.
fn lit(s: &str) -> (r: String)
    ensures
        r@ == s@,
{
    String::from_str(s)
}

/// The C type of a field, without array dimensions.
fn c_base_exec(t: &FieldType) -> (r: String)
    ensures
        r@ == c_base(t@),
    decreases t,
{
    match t {
        FieldType::U8 => lit("uint8_t"),
        FieldType::U16 => lit("uint16_t"),
        FieldType::U32 => lit("uint32_t"),
        FieldType::U64 => lit("uint64_t"),
        FieldType::I8 => lit("int8_t"),
        FieldType::I16 => lit("int16_t"),
        FieldType::I32 => lit("int32_t"),
        FieldType::I64 => lit("int64_t"),
        FieldType::F32 => lit("float"),
        FieldType::F64 => lit("double"),
        FieldType::Bool => lit("bool"),
        FieldType::Bytes(_) => lit("uint8_t"),
        FieldType::StringFixed(_) => lit("char"),
        FieldType::Array { elem, .. } => c_base_exec(elem),
        FieldType::Nested(n) => {
            let mut r = lit("Nexus");
            r.append(n.as_str());
            r
        },
    }
}

/// `[n]`.
fn dimension(n: usize) -> (r: String)
    ensures
        r@ == "["@ + decimal(n as nat) + "]"@,
{
    let mut r = lit("[");
    let d = decimal_string(n);
    r.append(d.as_str());
    r.append("]");
    r
}

/// The array dimensions of a field's C declarator.
fn c_dims_exec(t: &FieldType) -> (r: String)
    ensures
        r@ == c_dims(t@),
    decreases t,
{
    match t {
        FieldType::Bytes(n) => dimension(*n),
        FieldType::StringFixed(n) => dimension(*n),
        FieldType::Array { elem, len } => {
            let mut r = dimension(*len);
            let rest = c_dims_exec(elem);
            r.append(rest.as_str());
            r
        },
        _ => String::new(),
    }
}

/// The C declaration of a field.
fn c_field_decl_exec(f: &Field) -> (r: String)
    ensures
        r@ == c_field_decl(f@),
{
    let mut r = c_base_exec(&f.typ);
    r.append(" ");
    r.append(f.name.as_str());
    let d = c_dims_exec(&f.typ);
    r.append(d.as_str());
    r.append(";");
    r
}

/// The TypeScript type of a field.
fn ts_type_exec(t: &FieldType) -> (r: String)
    ensures
        r@ == ts_type(t@),
    decreases t,
{
    match t {
        FieldType::Bool => lit("boolean"),
        FieldType::Bytes(_) => lit("number[]"),
        FieldType::StringFixed(_) => lit("string"),
        FieldType::Array { elem, .. } => {
            let mut r = ts_type_exec(elem);
            r.append("[]");
            r
        },
        FieldType::Nested(n) => {
            let mut r = lit("Nexus");
            r.append(n.as_str());
            r
        },
        _ => lit("number"),
    }
}

/// The TypeScript declaration of a field.
fn ts_field_decl_exec(f: &Field) -> (r: String)
    ensures
        r@ == ts_field_decl(f@),
{
    let mut r = f.name.clone();
    r.append(": ");
    let t = ts_type_exec(&f.typ);
    r.append(t.as_str());
    r
}

/// The rendered declaration of each struct: C structs when `c`, TypeScript
/// interfaces otherwise.
fn struct_texts(
    env: &minijinja::Environment<'static>,
    structs: &Vec<StructDef>,
    c: bool,
) -> (r: Result<Vec<String>, minijinja::Error>)
    ensures
        r matches Ok(v) ==> strings_view(v@) == structs@.map_values(
            |sd: StructDef|
                if c {
                    c_struct_text(sd@)
                } else {
                    ts_interface_text(sd@)
                },
        ),
        r is Ok <==> forall|k: int|
            0 <= k < structs@.len() ==> if c {
                c_struct_renders(#[trigger] structs@[k]@)
            } else {
                ts_interface_renders(structs@[k]@)
            },
{
    let ghost want = structs@.map_values(
        |sd: StructDef|
            if c {
                c_struct_text(sd@)
            } else {
                ts_interface_text(sd@)
            },
    );
    let mut out: Vec<String> = Vec::new();
    let mut i: usize = 0;
    while i < structs.len()
        invariant
            i <= structs@.len(),
            want == structs@.map_values(
                |sd: StructDef|
                    if c {
                        c_struct_text(sd@)
                    } else {
                        ts_interface_text(sd@)
                    },
            ),
            out@.len() == i,
            forall|k: int| 0 <= k < i ==> #[trigger] out@[k]@ == want[k],
            forall|k: int|
                0 <= k < i ==> if c {
                    c_struct_renders(#[trigger] structs@[k]@)
                } else {
                    ts_interface_renders(structs@[k]@)
                },
        decreases structs@.len() - i,
    {
        let sd = &structs[i];
        let mut decls: Vec<String> = Vec::new();
        let mut j: usize = 0;
        while j < sd.fields.len()
            invariant
                j <= sd.fields@.len(),
                decls@.len() == j,
                forall|k: int|
                    0 <= k < j ==> #[trigger] decls@[k]@ == if c {
                        c_field_decl(sd.fields@[k]@)
                    } else {
                        ts_field_decl(sd.fields@[k]@)
                    },
            decreases sd.fields@.len() - j,
        {
            let d = if c {
                c_field_decl_exec(&sd.fields[j])
            } else {
                ts_field_decl_exec(&sd.fields[j])
            };
            decls.push(d);
            j += 1;
        }
        let mut text: Vec<(String, String)> = Vec::new();
        text.push((lit("name"), sd.name.clone()));
        let mut lists: Vec<(String, Vec<String>)> = Vec::new();
        lists.push((lit("fields"), decls));
        let ctx = TemplateContext { text, lists, flags: Vec::new() };
        proof {
            assert(ctx.text_view() =~= seq![("name"@, sd@.0)]);
            assert(ctx.flags_view() =~= Seq::<(Seq<char>, bool)>::empty());
            if c {
                assert(strings_view(ctx.lists@[0].1@) =~= sd@.1.map_values(|f: (Seq<char>, FieldTypeV)| c_field_decl(f)));
                assert(ctx.lists_view() =~= seq![("fields"@, sd@.1.map_values(|f: (Seq<char>, FieldTypeV)| c_field_decl(f)))]);
            } else {
                assert(strings_view(ctx.lists@[0].1@) =~= sd@.1.map_values(|f: (Seq<char>, FieldTypeV)| ts_field_decl(f)));
                assert(ctx.lists_view() =~= seq![("fields"@, sd@.1.map_values(|f: (Seq<char>, FieldTypeV)| ts_field_decl(f)))]);
            }
        }
        let rendered_text = if c {
            render_named_str(env, "c_struct", C_STRUCT_TMPL, &ctx)
        } else {
            render_named_str(env, "ts_interface", TS_INTERFACE_TMPL, &ctx)
        };
        match rendered_text {
            Ok(t) => {
                out.push(t);
                assert(c ==> c_struct_renders(structs@[i as int]@));
                assert(!c ==> ts_interface_renders(structs@[i as int]@));
            },
            Err(e) => {
                return Err(e);
            },
        }
        i += 1;
    }
    assert(strings_view(out@) =~= want);
    Ok(out)
}

/// The message type of a contract.
fn message_type_exec(contract_name: &String) -> (r: String)
    ensures
        r@ == message_type(contract_name@),
{
    let mut r = lit("Nexus");
    let p = to_pascal_case(contract_name.as_str());
    r.append(p.as_str());
    r
}

/// The declaration that makes the message type stand for the last struct
/// of the schema (C when `c`, TypeScript otherwise).
fn message_decl_exec(schema: &Schema, t: &String, c: bool) -> (r: String)
    ensures
        r@ == if c {
            c_message_decl(schema@, t@)
        } else {
            ts_message_decl(schema@, t@)
        },
{
    let n = schema.structs.len();
    if n == 0 {
        if c {
            let mut r = lit("typedef struct ");
            r.append(t.as_str());
            r.append(" { uint8_t reserved; } ");
            r.append(t.as_str());
            r.append(";\n");
            r
        } else {
            let mut r = lit("export interface ");
            r.append(t.as_str());
            r.append(" {}\n");
            r
        }
    } else {
        let last = &schema.structs[n - 1];
        assert(schema@.1.last() == last@);
        let mut full = lit("Nexus");
        full.append(last.name.as_str());
        if full == *t {
            String::new()
        } else if c {
            let mut r = lit("typedef Nexus");
            r.append(last.name.as_str());
            r.append(" ");
            r.append(t.as_str());
            r.append(";\n");
            r
        } else {
            let mut r = lit("export type ");
            r.append(t.as_str());
            r.append(" = Nexus");
            r.append(last.name.as_str());
            r.append(";\n");
            r
        }
    }
}

/// `prefix`, `name` and `suffix` joined.
fn path_of(prefix: &str, name: &String, suffix: &str) -> (r: String)
    ensures
        r@ == prefix@ + name@ + suffix@,
{
    let mut r = lit(prefix);
    r.append(name.as_str());
    r.append(suffix);
    r
}

/// The header of contract `ci`.
fn header_file_exec(env: &minijinja::Environment<'static>, network: &Network, ci: usize) -> (r: Result<
    GeneratedFile,
    CodegenError,
>)
    requires
        network.wf(),
        ci < network.contracts@.len(),
    ensures
        match r {
            Ok(f) => f@ == header_file(network, ci as int),
            Err(e) => e is TemplateError,
        },
        r is Ok <==> header_renders(network, ci as int),
{
    let contract = &network.contracts[ci];
    let schema = &network.schemas[contract.schema.0];
    let t = message_type_exec(&contract.name);
    proof {
        assert forall|k: int| 0 <= k < schema.structs@.len() implies #[trigger] schema@.1[k]
            == schema.structs@[k]@ by {}
        assert(schema@ == schema_of(network, ci as int));
    }
    let decls = match struct_texts(env, &schema.structs, true) {
        Ok(d) => d,
        Err(e) => {
            proof {
                let k = choose|k: int|
                    0 <= k < schema.structs@.len() && !c_struct_renders(#[trigger] schema.structs@[k]@);
                assert(!c_struct_renders(schema_of(network, ci as int).1[k]));
            }
            return Err(CodegenError::TemplateError(e));
        },
    };
    let md = message_decl_exec(schema, &t, true);
    let ghost dv = strings_view(decls@);
    proof {
        assert forall|k: int| 0 <= k < dv.len() implies dv[k] == schema@.1.map_values(
            |sd: (Seq<char>, Seq<(Seq<char>, FieldTypeV)>)| c_struct_text(sd),
        )[k] by {
            assert(schema@.1[k] == schema.structs@[k]@);
        }
        assert(dv =~= schema@.1.map_values(|sd: (Seq<char>, Seq<(Seq<char>, FieldTypeV)>)| c_struct_text(sd)));
    }
    let mut text: Vec<(String, String)> = Vec::new();
    text.push((lit("contract_name"), contract.name.clone()));
    text.push((lit("type_name"), t));
    text.push((lit("message_decl"), md));
    let mut lists: Vec<(String, Vec<String>)> = Vec::new();
    lists.push((lit("struct_decls"), decls));
    let ctx = TemplateContext { text, lists, flags: Vec::new() };
    proof {
        assert(schema@ == schema_of(network, ci as int));
        assert(ctx.flags_view() =~= Seq::<(Seq<char>, bool)>::empty());
        let name = contract.name@;
        let tt = message_type(name);
        assert(ctx.text_view() =~= seq![("contract_name"@, name), ("type_name"@, tt), ("message_decl"@, c_message_decl(schema@, tt))]);
        assert(ctx.lists_view() =~= seq![("struct_decls"@, schema@.1.map_values(|sd: (Seq<char>, Seq<(Seq<char>, FieldTypeV)>)| c_struct_text(sd)))]);
    }
    match render_named_str(env, "header", HEADER_TMPL, &ctx) {
        Ok(content) => Ok(
            GeneratedFile { path: path_of("include/nexus_", &contract.name, ".h"), content },
        ),
        Err(e) => Err(CodegenError::TemplateError(e)),
    }
}

/// The implementation of contract `ci`, whose transport is supported.
fn impl_file_exec(env: &minijinja::Environment<'static>, network: &Network, ci: usize) -> (r: Result<
    GeneratedFile,
    CodegenError,
>)
    requires
        ci < network.contracts@.len(),
        supported(network.contracts@[ci as int].transport),
    ensures
        match r {
            Ok(f) => f@ == impl_file(network, ci as int),
            Err(e) => e is TemplateError,
        },
        r is Ok <==> impl_renders(network, ci as int),
{
    let contract = &network.contracts[ci];
    let t = message_type_exec(&contract.name);
    let mut text: Vec<(String, String)> = Vec::new();
    text.push((lit("contract_name"), contract.name.clone()));
    text.push((lit("type_name"), t));
    let unix = match contract.transport {
        Transport::UnixSocket => true,
        _ => false,
    };
    if !unix {
        let rt = match contract.transport {
            Transport::Grpc => lit("grpc"),
            Transport::Http => lit("http"),
            _ => lit("iceoryx"),
        };
        text.push((lit("transport"), rt));
    }
    let ctx = TemplateContext { text, lists: Vec::new(), flags: Vec::new() };
    proof {
        assert(ctx.lists_view() =~= Seq::<(Seq<char>, Seq<Seq<char>>)>::empty());
        assert(ctx.flags_view() =~= Seq::<(Seq<char>, bool)>::empty());
        let name = contract.name@;
        if unix {
            assert(ctx.text_view() =~= seq![("contract_name"@, name), ("type_name"@, message_type(name))]);
        } else {
            assert(ctx.text_view() =~= seq![
                ("contract_name"@, name),
                ("type_name"@, message_type(name)),
                ("transport"@, runtime_name(contract.transport)),
            ]);
        }
    }
    let res = if unix {
        render_named_str(env, "impl", UNIX_SOCKET_IMPL_TMPL, &ctx)
    } else {
        render_named_str(env, "impl", RUNTIME_IMPL_TMPL, &ctx)
    };
    match res {
        Ok(content) => Ok(GeneratedFile { path: path_of("src/nexus_", &contract.name, ".c"), content }),
        Err(e) => Err(CodegenError::TemplateError(e)),
    }
}

/// Whether some edge with contract `ci` has node `node` as an end.
fn touches_exec(network: &Network, node: usize, ci: usize) -> (r: bool)
    ensures
        r == touches(network, node as int, ci as int),
{
    let mut j: usize = 0;
    while j < network.edges.len()
        invariant
            j <= network.edges@.len(),
            forall|k: int|
                0 <= k < j ==> !((#[trigger] network.edges@[k]).contract.0 == ci && (
                network.edges@[k].from_node.0 == node || network.edges@[k].to_node.0 == node)),
        decreases network.edges@.len() - j,
    {
        let e = network.edges[j];
        if e.contract.0 == ci && (e.from_node.0 == node || e.to_node.0 == node) {
            return true;
        }
        j += 1;
    }
    false
}

/// The umbrella header of node `node`.
fn umbrella_file_exec(env: &minijinja::Environment<'static>, network: &Network, node: usize) -> (r:
    Result<GeneratedFile, CodegenError>)
    requires
        node < network.nodes@.len(),
    ensures
        match r {
            Ok(f) => f@ == umbrella_file(network, node as int),
            Err(e) => e is TemplateError,
        },
        r is Ok <==> umbrella_renders(network, node as int),
{
    let mut names: Vec<String> = Vec::new();
    assert(strings_view(names@) =~= Seq::<Seq<char>>::empty());
    let mut ci: usize = 0;
    while ci < network.contracts.len()
        invariant
            ci <= network.contracts@.len(),
            strings_view(names@) == umbrella_names_upto(network, node as int, ci as int),
        decreases network.contracts@.len() - ci,
    {
        if touches_exec(network, node, ci) {
            let ghost before = strings_view(names@);
            names.push(network.contracts[ci].name.clone());
            assert(strings_view(names@) =~= before.push(network.contracts@[ci as int].name@));
        }
        ci += 1;
    }
    let n = &network.nodes[node];
    let mut text: Vec<(String, String)> = Vec::new();
    text.push((lit("node_name"), n.name.clone()));
    let mut lists: Vec<(String, Vec<String>)> = Vec::new();
    lists.push((lit("contract_names"), names));
    let ctx = TemplateContext { text, lists, flags: Vec::new() };
    proof {
        assert(ctx.text_view() =~= seq![("node_name"@, n.name@)]);
        assert(ctx.lists_view() =~= seq![
            ("contract_names"@, umbrella_names_upto(network, node as int, network.contracts@.len() as int)),
        ]);
        assert(ctx.flags_view() =~= Seq::<(Seq<char>, bool)>::empty());
    }
    match render_named_str(env, "umbrella", UMBRELLA_TMPL, &ctx) {
        Ok(content) => Ok(GeneratedFile { path: path_of("include/nexus_", &n.name, ".h"), content }),
        Err(e) => Err(CodegenError::TemplateError(e)),
    }
}

/// The TypeScript client of contract `ci`.
fn ts_file_exec(env: &minijinja::Environment<'static>, network: &Network, ci: usize) -> (r: Result<
    GeneratedFile,
    CodegenError,
>)
    requires
        network.wf(),
        ci < network.contracts@.len(),
    ensures
        match r {
            Ok(f) => f@ == ts_file(network, ci as int),
            Err(e) => e is TemplateError,
        },
        r is Ok <==> ts_renders(network, ci as int),
{
    let contract = &network.contracts[ci];
    let schema = &network.schemas[contract.schema.0];
    let t = message_type_exec(&contract.name);
    proof {
        assert forall|k: int| 0 <= k < schema.structs@.len() implies #[trigger] schema@.1[k]
            == schema.structs@[k]@ by {}
        assert(schema@ == schema_of(network, ci as int));
    }
    let interfaces = match struct_texts(env, &schema.structs, false) {
        Ok(d) => d,
        Err(e) => {
            proof {
                let k = choose|k: int|
                    0 <= k < schema.structs@.len() && !ts_interface_renders(#[trigger] schema.structs@[k]@);
                assert(!ts_interface_renders(schema_of(network, ci as int).1[k]));
            }
            return Err(CodegenError::TemplateError(e));
        },
    };
    let md = message_decl_exec(schema, &t, false);
    let ghost dv = strings_view(interfaces@);
    proof {
        assert forall|k: int| 0 <= k < dv.len() implies dv[k] == schema@.1.map_values(
            |sd: (Seq<char>, Seq<(Seq<char>, FieldTypeV)>)| ts_interface_text(sd),
        )[k] by {
            assert(schema@.1[k] == schema.structs@[k]@);
        }
        assert(dv =~= schema@.1.map_values(|sd: (Seq<char>, Seq<(Seq<char>, FieldTypeV)>)| ts_interface_text(sd)));
    }
    let mut text: Vec<(String, String)> = Vec::new();
    text.push((lit("contract_name"), contract.name.clone()));
    text.push((lit("type_name"), t));
    text.push((lit("pascal_name"), to_pascal_case(contract.name.as_str())));
    text.push((lit("message_decl"), md));
    let mut lists: Vec<(String, Vec<String>)> = Vec::new();
    lists.push((lit("interfaces"), interfaces));
    let ctx = TemplateContext { text, lists, flags: Vec::new() };
    proof {
        assert(schema@ == schema_of(network, ci as int));
        assert(ctx.flags_view() =~= Seq::<(Seq<char>, bool)>::empty());
        let name = contract.name@;
        let tt = message_type(name);
        assert(ctx.text_view() =~= seq![
            ("contract_name"@, name),
            ("type_name"@, tt),
            ("pascal_name"@, pascal(name)),
            ("message_decl"@, ts_message_decl(schema@, tt)),
        ]);
        assert(ctx.lists_view() =~= seq![("interfaces"@, schema@.1.map_values(|sd: (Seq<char>, Seq<(Seq<char>, FieldTypeV)>)| ts_interface_text(sd)))]);
    }
    match render_named_str(env, "typescript", TS_CLIENT_TMPL, &ctx) {
        Ok(content) => Ok(GeneratedFile { path: path_of("ts/nexus_", &contract.name, ".ts"), content }),
        Err(e) => Err(CodegenError::TemplateError(e)),
    }
}

/// Generate all output files for a validated network: a C header and
/// implementation per contract, an umbrella header per node, the Nix
/// derivations, and a TypeScript client per HTTP contract.
///
/// The first contract whose transport has no generator (shared memory,
/// message queue) fails the whole generation with `UnsupportedTransport`,
/// naming the transport; a template that fails to render fails it with
/// `TemplateError`.
pub fn generate(network: &Network) -> (r: Result<GeneratedOutput, CodegenError>)
    requires
        network.wf(),
    ensures
        r matches Ok(out) ==> all_supported_upto(network, network.contracts@.len() as int)
            && files_view(out.files@) == generated_files(network),
        r matches Err(CodegenError::UnsupportedTransport(s)) ==> exists|i: int|
            0 <= i < network.contracts@.len() && all_supported_upto(network, i) && !supported(
                #[trigger] network.contracts@[i].transport,
            ) && s@ == transport_debug_name(network.contracts@[i].transport),
        !all_supported_upto(network, network.contracts@.len() as int) ==> r is Err,
        all_supported_upto(network, network.contracts@.len() as int) ==> (r is Ok
            <==> generation_renders(network)),
        forall|j: int|
            0 <= j < network.contracts@.len() && all_supported_upto(network, j) && !supported(
                #[trigger] network.contracts@[j].transport,
            ) && contracts_render_upto(network, j) && header_renders(network, j) ==> (r matches Err(
                CodegenError::UnsupportedTransport(s),
            ) && s@ == transport_debug_name(network.contracts@[j].transport)),
{
    let env = new_environment();
    let mut files: Vec<GeneratedFile> = Vec::new();
    assert(files_view(files@) =~= Seq::<(Seq<char>, Seq<char>)>::empty());

    // Per-contract C headers and implementations
    let mut ci: usize = 0;
    while ci < network.contracts.len()
        invariant
            network.wf(),
            ci <= network.contracts@.len(),
            all_supported_upto(network, ci as int),
            contracts_render_upto(network, ci as int),
            files_view(files@) == contract_files_upto(network, ci as int),
        decreases network.contracts@.len() - ci,
    {
        let header = match header_file_exec(&env, network, ci) {
            Ok(f) => f,
            Err(e) => {
                proof {
                    assert(!contracts_render_upto(network, network.contracts@.len() as int));
                    assert forall|j: int|
                        0 <= j < network.contracts@.len() && all_supported_upto(network, j)
                            && !supported(#[trigger] network.contracts@[j].transport) implies !(
                        contracts_render_upto(network, j) && header_renders(network, j)) by {
                        if j > ci {
                            assert(!(header_renders(network, ci as int) && impl_renders(
                                network,
                                ci as int,
                            )));
                        } else if j < ci {
                            assert(supported(network.contracts@[j].transport));
                        }
                    }
                }
                return Err(e);
            },
        };
        let transport = network.contracts[ci].transport;
        match transport {
            Transport::SharedMemory => {
                proof {
                    assert forall|j: int|
                        0 <= j < network.contracts@.len() && all_supported_upto(network, j)
                            && !supported(#[trigger] network.contracts@[j].transport) implies j
                        == ci by {
                        if j > ci {
                            assert(supported(network.contracts@[ci as int].transport));
                        } else if j < ci {
                            assert(supported(network.contracts@[j].transport));
                        }
                    }
                    assert(!supported(network.contracts@[ci as int].transport));
                }
                return Err(CodegenError::UnsupportedTransport(lit("SharedMemory")));
            },
            Transport::MessageQueue => {
                proof {
                    assert forall|j: int|
                        0 <= j < network.contracts@.len() && all_supported_upto(network, j)
                            && !supported(#[trigger] network.contracts@[j].transport) implies j
                        == ci by {
                        if j > ci {
                            assert(supported(network.contracts@[ci as int].transport));
                        } else if j < ci {
                            assert(supported(network.contracts@[j].transport));
                        }
                    }
                    assert(!supported(network.contracts@[ci as int].transport));
                }
                return Err(CodegenError::UnsupportedTransport(lit("MessageQueue")));
            },
            _ => {},
        }
        let imp = match impl_file_exec(&env, network, ci) {
            Ok(f) => f,
            Err(e) => {
                proof {
                    assert(!contracts_render_upto(network, network.contracts@.len() as int));
                    assert forall|j: int|
                        0 <= j < network.contracts@.len() && all_supported_upto(network, j)
                            && !supported(#[trigger] network.contracts@[j].transport) implies !(
                        contracts_render_upto(network, j) && header_renders(network, j)) by {
                        if j > ci {
                            assert(!(header_renders(network, ci as int) && impl_renders(
                                network,
                                ci as int,
                            )));
                        } else if j < ci {
                            assert(supported(network.contracts@[j].transport));
                        } else {
                            assert(supported(network.contracts@[ci as int].transport));
                        }
                    }
                }
                return Err(e);
            },
        };
        let ghost before = files_view(files@);
        files.push(header);
        files.push(imp);
        assert(files_view(files@) =~= before + seq![header@, imp@]);
        assert(supported(network.contracts@[ci as int].transport));
        ci += 1;
    }
    assert(forall|j: int|
        0 <= j < network.contracts@.len() ==> supported(#[trigger] network.contracts@[j].transport));

    // Per-node umbrella headers
    let ghost base = files_view(files@);
    let mut node: usize = 0;
    while node < network.nodes.len()
        invariant
            node <= network.nodes@.len(),
            files_view(files@) =~= base + Seq::new(node as nat, |i: int| umbrella_file(network, i)),
            all_supported_upto(network, network.contracts@.len() as int),
            contracts_render_upto(network, network.contracts@.len() as int),
            forall|i: int| 0 <= i < node ==> #[trigger] umbrella_renders(network, i),
        decreases network.nodes@.len() - node,
    {
        let f = match umbrella_file_exec(&env, network, node) {
            Ok(f) => f,
            Err(e) => {
                assert(!umbrella_renders(network, node as int));
                return Err(e);
            },
        };
        let ghost b = files_view(files@);
        files.push(f);
        assert(files_view(files@) =~= b.push(f@));
        node += 1;
    }

    // Nix derivation files
    let nix = match generate_nix(network) {
        Ok(v) => v,
        Err(e) => {
            return Err(e);
        },
    };
    let ghost before_nix = files_view(files@);
    let mut nix = nix;
    let ghost nv = nix@;
    files.append(&mut nix);
    assert(files_view(files@) =~= before_nix + files_view(nv));

    // TypeScript clients (only for HTTP transport contracts)
    let ghost before_ts = files_view(files@);
    let mut ci: usize = 0;
    while ci < network.contracts.len()
        invariant
            network.wf(),
            ci <= network.contracts@.len(),
            files_view(files@) == before_ts + ts_files_upto(network, ci as int),
            all_supported_upto(network, network.contracts@.len() as int),
            contracts_render_upto(network, network.contracts@.len() as int),
            forall|i: int| 0 <= i < network.nodes@.len() ==> #[trigger] umbrella_renders(network, i),
            nix_renders(network),
            forall|k: int|
                0 <= k < ci && (#[trigger] network.contracts@[k]).transport is Http ==> ts_renders(
                    network,
                    k,
                ),
        decreases network.contracts@.len() - ci,
    {
        let is_http = match network.contracts[ci].transport {
            Transport::Http => true,
            _ => false,
        };
        if is_http {
            let f = match ts_file_exec(&env, network, ci) {
                Ok(f) => f,
                Err(e) => {
                    assert(network.contracts@[ci as int].transport is Http);
                    assert(!ts_renders(network, ci as int));
                    return Err(e);
                },
            };
            let ghost b = files_view(files@);
            files.push(f);
            assert(files_view(files@) =~= b.push(f@));
            assert(before_ts + ts_files_upto(network, ci as int).push(f@) =~= b.push(f@));
        }
        ci += 1;
    }
    assert(files_view(files@) =~= generated_files(network));
    Ok(GeneratedOutput { files })
}

// ---------------------------------------------------------------------------
// The layout of the generated files
// ---------------------------------------------------------------------------

/// The number of HTTP contracts among the first `k`.
pub open spec fn http_count_upto(net: &Network, k: int) -> nat
    decreases k,
{
    if k <= 0 {
        0
    } else if net.contracts@[k - 1].transport is Http {
        http_count_upto(net, k - 1) + 1
    } else {
        http_count_upto(net, k - 1)
    }
}

proof fn lemma_contract_files(net: &Network, k: int)
    requires
        0 <= k,
    ensures
        contract_files_upto(net, k).len() == 2 * k,
        forall|ci: int|
            0 <= ci < k ==> #[trigger] contract_files_upto(net, k)[2 * ci] == header_file(net, ci)
                && contract_files_upto(net, k)[2 * ci + 1] == impl_file(net, ci),
    decreases k,
{
    if k > 0 {
        lemma_contract_files(net, k - 1);
        let prev = contract_files_upto(net, k - 1);
        let all = contract_files_upto(net, k);
        assert forall|ci: int| 0 <= ci < k implies #[trigger] all[2 * ci] == header_file(net, ci)
            && all[2 * ci + 1] == impl_file(net, ci) by {
            if ci < k - 1 {
                assert(all[2 * ci] == prev[2 * ci]);
                assert(all[2 * ci + 1] == prev[2 * ci + 1]);
            }
        }
    }
}

proof fn lemma_ts_files_len(net: &Network, k: int)
    requires
        0 <= k,
    ensures
        ts_files_upto(net, k).len() == http_count_upto(net, k),
    decreases k,
{
    if k > 0 {
        lemma_ts_files_len(net, k - 1);
    }
}

/// The generated files come in this order: the header and then the
/// implementation of each contract, the umbrella header of each node, the
/// Nix files (one per node, then `nexus.nix`), and the TypeScript client of
/// each HTTP contract; so there are `2C + N + (N + 1) + H` of them for `C`
/// contracts, `N` nodes and `H` HTTP contracts.
pub proof fn law_generated_files_layout(net: &Network)
    ensures
        ({
            let c = net.contracts@.len() as int;
            let n = net.nodes@.len() as int;
            let files = generated_files(net);
            &&& files.len() == 2 * c + n + (n + 1) + http_count_upto(net, c)
            &&& forall|ci: int|
                0 <= ci < c ==> #[trigger] files[2 * ci] == header_file(net, ci) && files[2 * ci + 1]
                    == impl_file(net, ci)
            &&& forall|i: int| 0 <= i < n ==> #[trigger] files[2 * c + i] == umbrella_file(net, i)
            &&& forall|i: int| 0 <= i <= n ==> #[trigger] files[2 * c + n + i] == nix_files(net)[i]
            &&& files.subrange(2 * c + n + (n + 1), files.len() as int) == ts_files_upto(net, c)
        }),
{
    let c = net.contracts@.len() as int;
    let n = net.nodes@.len() as int;
    lemma_contract_files(net, c);
    lemma_ts_files_len(net, c);
    crate::nix::law_nix_files_layout(net);
    let cf = contract_files_upto(net, c);
    let um = Seq::new(n as nat, |i: int| umbrella_file(net, i));
    let nx = nix_files(net);
    let ts = ts_files_upto(net, c);
    let files = generated_files(net);
    assert(files == cf + um + nx + ts);
    assert forall|ci: int| 0 <= ci < c implies #[trigger] files[2 * ci] == header_file(net, ci)
        && files[2 * ci + 1] == impl_file(net, ci) by {
        assert(cf[2 * ci] == header_file(net, ci));
    }
    assert forall|i: int| 0 <= i < n implies #[trigger] files[2 * c + i] == umbrella_file(net, i) by {
        assert(um[i] == umbrella_file(net, i));
    }
    assert forall|i: int| 0 <= i <= n implies #[trigger] files[2 * c + n + i] == nx[i] by {}
    assert(files.subrange(2 * c + n + (n + 1), files.len() as int) =~= ts);
}

// ---------------------------------------------------------------------------
// Primitive type names
// ---------------------------------------------------------------------------

/// Each primitive type name stands for its own type, and fields of that
/// type are declared in C with the type the name spells: `uN` as
/// `uintN_t`, `iN` as `intN_t`, `f32` as `float`, `f64` as `double`, `bool`
/// as `bool`. No two names stand for the same type.
pub proof fn law_primitive_type_names(a: Seq<char>, b: Seq<char>)
    ensures
        spec_primitive(seq!['u', '8']) == Some(FieldTypeV::U8),
        c_base(FieldTypeV::U8) == "uint8_t"@,
        spec_primitive(seq!['u', '1', '6']) == Some(FieldTypeV::U16),
        c_base(FieldTypeV::U16) == "uint16_t"@,
        spec_primitive(seq!['u', '3', '2']) == Some(FieldTypeV::U32),
        c_base(FieldTypeV::U32) == "uint32_t"@,
        spec_primitive(seq!['u', '6', '4']) == Some(FieldTypeV::U64),
        c_base(FieldTypeV::U64) == "uint64_t"@,
        spec_primitive(seq!['i', '8']) == Some(FieldTypeV::I8),
        c_base(FieldTypeV::I8) == "int8_t"@,
        spec_primitive(seq!['i', '1', '6']) == Some(FieldTypeV::I16),
        c_base(FieldTypeV::I16) == "int16_t"@,
        spec_primitive(seq!['i', '3', '2']) == Some(FieldTypeV::I32),
        c_base(FieldTypeV::I32) == "int32_t"@,
        spec_primitive(seq!['i', '6', '4']) == Some(FieldTypeV::I64),
        c_base(FieldTypeV::I64) == "int64_t"@,
        spec_primitive(seq!['f', '3', '2']) == Some(FieldTypeV::F32),
        c_base(FieldTypeV::F32) == "float"@,
        spec_primitive(seq!['f', '6', '4']) == Some(FieldTypeV::F64),
        c_base(FieldTypeV::F64) == "double"@,
        spec_primitive(seq!['b', 'o', 'o', 'l']) == Some(FieldTypeV::Bool),
        c_base(FieldTypeV::Bool) == "bool"@,
        spec_primitive(a) is Some && spec_primitive(a) == spec_primitive(b) ==> a == b,
{
}

/// Only Unix sockets, gRPC, HTTP and Iceoryx have code generators. A
/// network with a contract on shared memory or on a message queue does not
/// generate: the first such contract is the first unsupported one, the one
/// that `generate` reports, under the transport's name `SharedMemory` or
/// `MessageQueue`.
pub proof fn law_shared_memory_and_queues_unsupported(net: &Network, j: int)
    requires
        0 <= j < net.contracts@.len(),
        net.contracts@[j].transport is SharedMemory || net.contracts@[j].transport is MessageQueue,
        forall|i: int|
            0 <= i < j ==> !((#[trigger] net.contracts@[i]).transport is SharedMemory
                || net.contracts@[i].transport is MessageQueue),
    ensures
        !all_supported_upto(net, net.contracts@.len() as int),
        all_supported_upto(net, j),
        !supported(net.contracts@[j].transport),
        net.contracts@[j].transport is SharedMemory ==> transport_debug_name(
            net.contracts@[j].transport,
        ) == "SharedMemory"@,
        net.contracts@[j].transport is MessageQueue ==> transport_debug_name(
            net.contracts@[j].transport,
        ) == "MessageQueue"@,
{
    assert(!supported(net.contracts@[j].transport));
}

} // verus!
