//! The resolved network graph and the schema types it refers to.

use vstd::prelude::*;

pub use vstd::hash_map::StringHashMap;

verus! {

/// Position of a node in `Network::nodes`.
#[derive(Debug, Clone, Copy, PartialEq, Eq, Hash, Structural)]
pub struct NodeIdx(pub usize);

/// Position of a contract in `Network::contracts`.
#[derive(Debug, Clone, Copy, PartialEq, Eq, Hash, Structural)]
pub struct ContractIdx(pub usize);

/// Position of a schema in `Network::schemas`.
#[derive(Debug, Clone, Copy, PartialEq, Eq, Hash, Structural)]
pub struct SchemaIdx(pub usize);

/// Which side of a communication declared an edge.
#[derive(Debug, Clone, Copy, PartialEq, Eq, Structural)]
pub enum EdgeOrigin {
    Send,
    Receive,
}

/// How the messages of a contract travel between processes.
#[derive(Debug, Clone, Copy, PartialEq, Eq, Structural)]
pub enum Transport {
    UnixSocket,
    Grpc,
    Http,
    Iceoryx,
    SharedMemory,
    MessageQueue,
}

/// The type of one message field.
#[derive(Debug, PartialEq)]
pub enum FieldType {
    U8,
    U16,
    U32,
    U64,
    I8,
    I16,
    I32,
    I64,
    F32,
    F64,
    Bool,
    Bytes(usize),
    StringFixed(usize),
    Array { elem: Box<FieldType>, len: usize },
    Nested(String),
}

/// The mathematical value of a `FieldType`: names are character sequences.
pub enum FieldTypeV {
    U8,
    U16,
    U32,
    U64,
    I8,
    I16,
    I32,
    I64,
    F32,
    F64,
    Bool,
    Bytes(usize),
    StringFixed(usize),
    Array(Box<FieldTypeV>, usize),
    Nested(Seq<char>),
}

pub open spec fn field_type_view(t: &FieldType) -> FieldTypeV
    decreases t,
{
    match t {
        FieldType::U8 => FieldTypeV::U8,
        FieldType::U16 => FieldTypeV::U16,
        FieldType::U32 => FieldTypeV::U32,
        FieldType::U64 => FieldTypeV::U64,
        FieldType::I8 => FieldTypeV::I8,
        FieldType::I16 => FieldTypeV::I16,
        FieldType::I32 => FieldTypeV::I32,
        FieldType::I64 => FieldTypeV::I64,
        FieldType::F32 => FieldTypeV::F32,
        FieldType::F64 => FieldTypeV::F64,
        FieldType::Bool => FieldTypeV::Bool,
        FieldType::Bytes(n) => FieldTypeV::Bytes(*n),
        FieldType::StringFixed(n) => FieldTypeV::StringFixed(*n),
        FieldType::Array { elem, len } => FieldTypeV::Array(Box::new(field_type_view(elem)), *len),
        FieldType::Nested(s) => FieldTypeV::Nested(s@),
    }
}

/// A copy of a field type.
fn copy_field_type(t: &FieldType) -> (r: FieldType)
    ensures
        r == *t,
    decreases t,
{
    match t {
        FieldType::U8 => FieldType::U8,
        FieldType::U16 => FieldType::U16,
        FieldType::U32 => FieldType::U32,
        FieldType::U64 => FieldType::U64,
        FieldType::I8 => FieldType::I8,
        FieldType::I16 => FieldType::I16,
        FieldType::I32 => FieldType::I32,
        FieldType::I64 => FieldType::I64,
        FieldType::F32 => FieldType::F32,
        FieldType::F64 => FieldType::F64,
        FieldType::Bool => FieldType::Bool,
        FieldType::Bytes(n) => FieldType::Bytes(*n),
        FieldType::StringFixed(n) => FieldType::StringFixed(*n),
        FieldType::Array { elem, len } => FieldType::Array {
            elem: Box::new(copy_field_type(elem)),
            len: *len,
        },
        FieldType::Nested(s) => FieldType::Nested(s.clone()),
    }
}

impl Clone for FieldType {
    fn clone(&self) -> (r: Self)
        ensures
            r == *self,
    {
        copy_field_type(self)
    }
}

impl View for FieldType {
    type V = FieldTypeV;

    open spec fn view(&self) -> FieldTypeV {
        field_type_view(self)
    }
}

/// One named field of a message struct.
#[derive(Debug, Clone, PartialEq)]
pub struct Field {
    pub name: String,
    pub typ: FieldType,
}

impl View for Field {
    type V = (Seq<char>, FieldTypeV);

    open spec fn view(&self) -> (Seq<char>, FieldTypeV) {
        (self.name@, self.typ@)
    }
}

/// A named message struct.
#[derive(Debug, Clone, PartialEq)]
pub struct StructDef {
    pub name: String,
    pub fields: Vec<Field>,
}

impl View for StructDef {
    type V = (Seq<char>, Seq<(Seq<char>, FieldTypeV)>);

    open spec fn view(&self) -> (Seq<char>, Seq<(Seq<char>, FieldTypeV)>) {
        (self.name@, self.fields@.map_values(|f: Field| f@))
    }
}

/// A named group of message structs (one `.nxs` file, or the inline fields
/// of one contract).
#[derive(Debug, Clone, PartialEq)]
pub struct Schema {
    pub name: String,
    pub structs: Vec<StructDef>,
}

impl View for Schema {
    type V = (Seq<char>, Seq<(Seq<char>, Seq<(Seq<char>, FieldTypeV)>)>);

    open spec fn view(&self) -> Self::V {
        (self.name@, self.structs@.map_values(|s: StructDef| s@))
    }
}

/// A process of the network.
#[derive(Debug, Clone)]
pub struct Node {
    pub name: String,
}

/// A message type exchanged between nodes.
#[derive(Debug, Clone)]
pub struct Contract {
    pub name: String,
    pub transport: Transport,
    pub schema: SchemaIdx,
}

impl View for Contract {
    type V = (Seq<char>, Transport, usize);

    open spec fn view(&self) -> (Seq<char>, Transport, usize) {
        (self.name@, self.transport, self.schema.0)
    }
}

/// A directed communication: `from_node` sends `contract` to `to_node`.
#[derive(Debug, Clone, Copy, PartialEq, Eq, Structural)]
pub struct Edge {
    pub from_node: NodeIdx,
    pub to_node: NodeIdx,
    pub contract: ContractIdx,
    pub origin: EdgeOrigin,
}

/// The resolved network graph.
pub struct Network {
    pub nodes: Vec<Node>,
    pub contracts: Vec<Contract>,
    pub schemas: Vec<Schema>,
    pub edges: Vec<Edge>,
    pub node_index: StringHashMap<NodeIdx>,
    pub contract_index: StringHashMap<ContractIdx>,
}

impl Network {
    /// Every edge designates a contract of the graph.
    pub open spec fn edge_contracts_wf(&self) -> bool {
        forall|i: int|
            0 <= i < self.edges@.len() ==> (#[trigger] self.edges@[i]).contract.0
                < self.contracts@.len()
    }

    /// Every edge designates nodes and a contract of the graph.
    pub open spec fn edges_wf(&self) -> bool {
        forall|i: int|
            0 <= i < self.edges@.len() ==> {
                &&& (#[trigger] self.edges@[i]).from_node.0 < self.nodes@.len()
                &&& self.edges@[i].to_node.0 < self.nodes@.len()
                &&& self.edges@[i].contract.0 < self.contracts@.len()
            }
    }

    /// Every contract designates a schema of the graph.
    pub open spec fn schemas_wf(&self) -> bool {
        forall|i: int|
            0 <= i < self.contracts@.len() ==> (#[trigger] self.contracts@[i]).schema.0
                < self.schemas@.len()
    }

    /// Every index stored in the graph points into the vector it names.
    pub open spec fn wf(&self) -> bool {
        &&& self.edges_wf()
        &&& self.schemas_wf()
    }

    /// The names of the nodes, in order.
    pub open spec fn node_names(&self) -> Seq<Seq<char>> {
        self.nodes@.map_values(|n: Node| n.name@)
    }

    /// The names of the contracts, in order.
    pub open spec fn contract_names(&self) -> Seq<Seq<char>> {
        self.contracts@.map_values(|c: Contract| c.name@)
    }
}

/// The view of a schema: its name and its structs' views.
pub type SchemaV = (Seq<char>, Seq<(Seq<char>, Seq<(Seq<char>, FieldTypeV)>)>);

/// The views of a sequence of schemas.
pub open spec fn schemas_view(v: Seq<Schema>) -> Seq<SchemaV> {
    v.map_values(|s: Schema| s@)
}

/// The mathematical value of a `Network`.
pub struct NetworkV {
    pub nodes: Seq<Seq<char>>,
    pub contracts: Seq<(Seq<char>, Transport, usize)>,
    pub schemas: Seq<SchemaV>,
    pub edges: Seq<Edge>,
    pub node_index: Map<Seq<char>, NodeIdx>,
    pub contract_index: Map<Seq<char>, ContractIdx>,
}

impl View for Network {
    type V = NetworkV;

    open spec fn view(&self) -> NetworkV {
        NetworkV {
            nodes: self.node_names(),
            contracts: self.contracts@.map_values(|c: Contract| c@),
            schemas: schemas_view(self.schemas@),
            edges: self.edges@,
            node_index: self.node_index@,
            contract_index: self.contract_index@,
        }
    }
}

} // verus!
