//! The description of a network as written in `network.toml`, and the
//! schema files it refers to, as plain values.

use vstd::prelude::*;

verus! {

/// One `sends` or `receives` entry of a node.
pub struct EdgeConfig {
    pub contract: String,
    pub to: Option<String>,
    pub from: Option<String>,
}

pub struct EdgeConfigV {
    pub contract: Seq<char>,
    pub to: Option<Seq<char>>,
    pub from: Option<Seq<char>>,
}

pub open spec fn opt_view(o: Option<String>) -> Option<Seq<char>> {
    match o {
        Some(s) => Some(s@),
        None => None,
    }
}

impl View for EdgeConfig {
    type V = EdgeConfigV;

    open spec fn view(&self) -> EdgeConfigV {
        EdgeConfigV { contract: self.contract@, to: opt_view(self.to), from: opt_view(self.from) }
    }
}

/// One `[[nodes]]` table.
pub struct NodeConfig {
    pub name: String,
    pub sends: Vec<EdgeConfig>,
    pub receives: Vec<EdgeConfig>,
}

pub struct NodeConfigV {
    pub name: Seq<char>,
    pub sends: Seq<EdgeConfigV>,
    pub receives: Seq<EdgeConfigV>,
}

impl View for NodeConfig {
    type V = NodeConfigV;

    open spec fn view(&self) -> NodeConfigV {
        NodeConfigV {
            name: self.name@,
            sends: self.sends@.map_values(|e: EdgeConfig| e@),
            receives: self.receives@.map_values(|e: EdgeConfig| e@),
        }
    }
}

/// One inline field of a contract: `{ name = "...", type = "..." }`.
pub struct InlineFieldConfig {
    pub name: String,
    pub typ: String,
}

impl View for InlineFieldConfig {
    type V = (Seq<char>, Seq<char>);

    open spec fn view(&self) -> (Seq<char>, Seq<char>) {
        (self.name@, self.typ@)
    }
}

/// One `[[contracts]]` table.
pub struct ContractConfig {
    pub name: String,
    pub transport: String,
    pub schema: Option<String>,
    pub fields: Vec<InlineFieldConfig>,
}

pub struct ContractConfigV {
    pub name: Seq<char>,
    pub transport: Seq<char>,
    pub schema: Option<Seq<char>>,
    pub fields: Seq<(Seq<char>, Seq<char>)>,
}

impl View for ContractConfig {
    type V = ContractConfigV;

    open spec fn view(&self) -> ContractConfigV {
        ContractConfigV {
            name: self.name@,
            transport: self.transport@,
            schema: opt_view(self.schema),
            fields: self.fields@.map_values(|f: InlineFieldConfig| f@),
        }
    }
}

/// A whole `network.toml`.
pub struct NetworkConfig {
    pub nodes: Vec<NodeConfig>,
    pub contracts: Vec<ContractConfig>,
}

pub struct NetworkConfigV {
    pub nodes: Seq<NodeConfigV>,
    pub contracts: Seq<ContractConfigV>,
}

impl View for NetworkConfig {
    type V = NetworkConfigV;

    open spec fn view(&self) -> NetworkConfigV {
        NetworkConfigV {
            nodes: self.nodes@.map_values(|n: NodeConfig| n@),
            contracts: self.contracts@.map_values(|c: ContractConfig| c@),
        }
    }
}

/// What became of reading a schema file that a contract refers to.
pub enum SchemaSource {
    /// No file exists at the path.
    Missing,
    /// The file exists but could not be read; `path` is the path as shown to
    /// users and `message` says why.
    Unreadable { path: String, message: String },
    /// The file was read: `path` is the path as shown to users, `stem` its
    /// file name without extension, `content` its text.
    Loaded { path: String, stem: String, content: String },
}

pub enum SchemaSourceV {
    Missing,
    Unreadable { path: Seq<char>, message: Seq<char> },
    Loaded { path: Seq<char>, stem: Seq<char>, content: Seq<char> },
}

impl View for SchemaSource {
    type V = SchemaSourceV;

    open spec fn view(&self) -> SchemaSourceV {
        match self {
            SchemaSource::Missing => SchemaSourceV::Missing,
            SchemaSource::Unreadable { path, message } => SchemaSourceV::Unreadable {
                path: path@,
                message: message@,
            },
            SchemaSource::Loaded { path, stem, content } => SchemaSourceV::Loaded {
                path: path@,
                stem: stem@,
                content: content@,
            },
        }
    }
}

/// A schema file, under the path string that contracts use for it.
pub struct SchemaFile {
    pub key: String,
    pub source: SchemaSource,
}

impl View for SchemaFile {
    type V = (Seq<char>, SchemaSourceV);

    open spec fn view(&self) -> (Seq<char>, SchemaSourceV) {
        (self.key@, self.source@)
    }
}

} // verus!
