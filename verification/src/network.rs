//! Resolution of a network description into a `Network`.

use vstd::prelude::*;

use crate::config::{
    ContractConfig, ContractConfigV, EdgeConfig, EdgeConfigV, NetworkConfig, NetworkConfigV, NodeConfig,
    NodeConfigV, SchemaFile, SchemaSource, SchemaSourceV,
};
use crate::error::{NexusCoreError, NexusCoreErrorV};
use crate::rules::has_counterpart;
use crate::schema::{
    fields_view, nxs_lengths_fit, parse_nxs_chars, primitive_in, spec_parse_nxs, spec_primitive, string_from,
    structs_view, word_is, NxsParse,
};
use crate::text::{char_to_uppercase, char_upper, chars_of};
use crate::types::{
    Contract, ContractIdx, Edge, EdgeOrigin, Field, FieldType, FieldTypeV, Network, Node, NodeIdx,
    Schema, SchemaIdx, SchemaV, StringHashMap, StructDef, Transport, NetworkV, schemas_view,
};

verus! {

// ---------------------------------------------------------------------------
// Transports and inline field types
// ---------------------------------------------------------------------------

/// The transport a name stands for.
pub open spec fn spec_transport(s: Seq<char>) -> Option<Transport> {
    if s == seq!['u', 'n', 'i', 'x', '_', 's', 'o', 'c', 'k', 'e', 't'] || s == seq![
        'u',
        'n',
        'i',
        'x',
    ] {
        Some(Transport::UnixSocket)
    } else if s == seq!['g', 'r', 'p', 'c'] {
        Some(Transport::Grpc)
    } else if s == seq!['h', 't', 't', 'p'] {
        Some(Transport::Http)
    } else if s == seq!['i', 'c', 'e', 'o', 'r', 'y', 'x'] {
        Some(Transport::Iceoryx)
    } else if s == seq!['s', 'h', 'a', 'r', 'e', 'd', '_', 'm', 'e', 'm', 'o', 'r', 'y'] || s
        == seq!['s', 'h', 'm'] {
        Some(Transport::SharedMemory)
    } else if s == seq!['m', 'e', 's', 's', 'a', 'g', 'e', '_', 'q', 'u', 'e', 'u', 'e'] || s
        == seq!['m', 'q'] {
        Some(Transport::MessageQueue)
    } else {
        None
    }
}

/// Parse a transport name: `unix_socket` or `unix`, `grpc`, `http`,
/// `iceoryx`, `shared_memory` or `shm`, `message_queue` or `mq`.
pub fn parse_transport(s: &str) -> (r: Result<Transport, NexusCoreError>)
    ensures
        match r {
            Ok(t) => spec_transport(s@) == Some(t),
            Err(e) => spec_transport(s@) is None && e@ == NexusCoreErrorV::UnknownTransport(s@),
        },
{
    let c = chars_of(s);
    let n = c.len();
    assert(c@.subrange(0, n as int) =~= s@);
    if word_is(&c, 0, n, &['u', 'n', 'i', 'x', '_', 's', 'o', 'c', 'k', 'e', 't']) || word_is(
        &c,
        0,
        n,
        &['u', 'n', 'i', 'x'],
    ) {
        Ok(Transport::UnixSocket)
    } else if word_is(&c, 0, n, &['g', 'r', 'p', 'c']) {
        Ok(Transport::Grpc)
    } else if word_is(&c, 0, n, &['h', 't', 't', 'p']) {
        Ok(Transport::Http)
    } else if word_is(&c, 0, n, &['i', 'c', 'e', 'o', 'r', 'y', 'x']) {
        Ok(Transport::Iceoryx)
    } else if word_is(&c, 0, n, &['s', 'h', 'a', 'r', 'e', 'd', '_', 'm', 'e', 'm', 'o', 'r', 'y'])
        || word_is(&c, 0, n, &['s', 'h', 'm']) {
        Ok(Transport::SharedMemory)
    } else if word_is(
        &c,
        0,
        n,
        &['m', 'e', 's', 's', 'a', 'g', 'e', '_', 'q', 'u', 'e', 'u', 'e'],
    ) || word_is(&c, 0, n, &['m', 'q']) {
        Ok(Transport::MessageQueue)
    } else {
        Err(NexusCoreError::UnknownTransport(string_from(&c, 0, n)))
    }
}

/// Parse the type name of an inline field: one of the primitive types.
pub fn parse_inline_field_type(s: &str) -> (r: Result<FieldType, NexusCoreError>)
    ensures
        match r {
            Ok(t) => spec_primitive(s@) == Some(t@),
            Err(e) => spec_primitive(s@) is None && e@ == NexusCoreErrorV::UnknownFieldType(s@),
        },
{
    let c = chars_of(s);
    let n = c.len();
    assert(c@.subrange(0, n as int) =~= s@);
    match primitive_in(&c, 0, n) {
        Some(t) => Ok(t),
        None => Err(NexusCoreError::UnknownFieldType(string_from(&c, 0, n))),
    }
}

// ---------------------------------------------------------------------------
// PascalCase
// ---------------------------------------------------------------------------

/// The PascalCase form of `s[i..]`: underscores are dropped and the first
/// character after the start or after an underscore is uppercased
/// (`at_start` says whether position `i` begins a word).
pub open spec fn pascal_from(s: Seq<char>, i: int, at_start: bool) -> Seq<char>
    decreases s.len() - i,
{
    if i < 0 || i >= s.len() {
        Seq::empty()
    } else if s[i] == '_' {
        pascal_from(s, i + 1, true)
    } else if at_start {
        char_upper(s[i]) + pascal_from(s, i + 1, false)
    } else {
        seq![s[i]] + pascal_from(s, i + 1, false)
    }
}

/// The PascalCase form of a snake_case name.
pub open spec fn pascal(s: Seq<char>) -> Seq<char> {
    pascal_from(s, 0, true)
}

/// Convert snake_case to PascalCase: "game_info" -> "GameInfo".
pub fn to_pascal_case(s: &str) -> (r: String)
    ensures
        r@ == pascal(s@),
{
    let c = chars_of(s);
    let mut r = String::new();
    let mut at_start = true;
    let mut i: usize = 0;
    while i < c.len()
        invariant
            i <= c@.len(),
            c@ == s@,
            pascal(s@) == r@ + pascal_from(s@, i as int, at_start),
        decreases c@.len() - i,
    {
        let ch = c[i];
        let ghost before = r@;
        if ch == '_' {
            at_start = true;
        } else if at_start {
            let up = char_to_uppercase(ch);
            r.append(up.as_str());
            at_start = false;
            assert(before + (char_upper(ch) + pascal_from(s@, i + 1, false)) =~= r@ + pascal_from(s@, i + 1, false));
        } else {
            r.push(ch);
            assert(before + (seq![ch] + pascal_from(s@, i + 1, false)) =~= r@ + pascal_from(s@, i + 1, false));
        }
        i += 1;
    }
    assert(r@ + Seq::<char>::empty() =~= r@);
    r
}


// ---------------------------------------------------------------------------
// Resolution: specification
// ---------------------------------------------------------------------------

/// The source of the first schema file listed under `key`, from entry `i`
/// on; a path that no entry lists has no file.
pub open spec fn find_file_from(files: Seq<(Seq<char>, SchemaSourceV)>, key: Seq<char>, i: int) -> SchemaSourceV
    decreases files.len() - i,
{
    if i < 0 || i >= files.len() {
        SchemaSourceV::Missing
    } else if files[i].0 == key {
        files[i].1
    } else {
        find_file_from(files, key, i + 1)
    }
}

pub open spec fn find_file(files: Seq<(Seq<char>, SchemaSourceV)>, key: Seq<char>) -> SchemaSourceV {
    find_file_from(files, key, 0)
}

/// The first `k` inline fields with their types, or the first type name
/// that names no primitive type.
pub open spec fn inline_fields(fs: Seq<(Seq<char>, Seq<char>)>, k: int) -> Result<
    Seq<(Seq<char>, FieldTypeV)>,
    Seq<char>,
>
    decreases k,
{
    if k <= 0 {
        Ok(Seq::empty())
    } else {
        match inline_fields(fs, k - 1) {
            Err(t) => Err(t),
            Ok(v) => match spec_primitive(fs[k - 1].1) {
                Some(t) => Ok(v.push((fs[k - 1].0, t))),
                None => Err(fs[k - 1].1),
            },
        }
    }
}

/// The message of a schema syntax error.
pub open spec fn schema_syntax_message() -> Seq<char> {
    "invalid schema syntax"@
}

/// The schema of a contract, given the schemas built so far and the index
/// of the schema files already read: the position of its schema and the new
/// schemas and index.
///
/// A schema file is read once per path; a contract without a schema file
/// gets a schema of its own, named after it, holding one struct named in
/// PascalCase after it with its inline fields.
pub open spec fn resolve_schema_spec(
    cc: ContractConfigV,
    files: Seq<(Seq<char>, SchemaSourceV)>,
    schemas: Seq<SchemaV>,
    paths: Map<Seq<char>, SchemaIdx>,
) -> Result<(SchemaIdx, Seq<SchemaV>, Map<Seq<char>, SchemaIdx>), NexusCoreErrorV> {
    match cc.schema {
        Some(p) => if paths.contains_key(p) {
            Ok((paths[p], schemas, paths))
        } else {
            match find_file(files, p) {
                SchemaSourceV::Missing => Err(NexusCoreErrorV::SchemaNotFound(p)),
                SchemaSourceV::Unreadable { path, message } => Err(
                    NexusCoreErrorV::FileRead { path, message },
                ),
                SchemaSourceV::Loaded { path, stem, content } => match spec_parse_nxs(content) {
                    Some(structs) => {
                        let idx = SchemaIdx(schemas.len() as usize);
                        Ok((idx, schemas.push((stem, structs)), paths.insert(p, idx)))
                    },
                    None => Err(
                        NexusCoreErrorV::SchemaParse { path, message: schema_syntax_message() },
                    ),
                },
            }
        },
        None => if cc.fields.len() > 0 {
            match inline_fields(cc.fields, cc.fields.len() as int) {
                Err(t) => Err(NexusCoreErrorV::UnknownFieldType(t)),
                Ok(fields) => Ok(
                    (
                        SchemaIdx(schemas.len() as usize),
                        schemas.push((cc.name, seq![(pascal(cc.name), fields)])),
                        paths,
                    ),
                ),
            }
        } else {
            Err(NexusCoreErrorV::NoSchema { contract: cc.name })
        },
    }
}

/// The contracts and schemas built from the first `k` contract tables, and
/// the index of schema files read, or the first error.
pub open spec fn contracts_upto(
    ccs: Seq<ContractConfigV>,
    files: Seq<(Seq<char>, SchemaSourceV)>,
    k: int,
) -> Result<
    (Seq<(Seq<char>, Transport, usize)>, Seq<SchemaV>, Map<Seq<char>, SchemaIdx>),
    NexusCoreErrorV,
>
    decreases k,
{
    if k <= 0 {
        Ok((Seq::empty(), Seq::empty(), Map::empty()))
    } else {
        match contracts_upto(ccs, files, k - 1) {
            Err(e) => Err(e),
            Ok((cs, ss, ps)) => {
                let cc = ccs[k - 1];
                match spec_transport(cc.transport) {
                    None => Err(NexusCoreErrorV::UnknownTransport(cc.transport)),
                    Some(t) => match resolve_schema_spec(cc, files, ss, ps) {
                        Err(e) => Err(e),
                        Ok((idx, ss2, ps2)) => Ok((cs.push((cc.name, t, idx.0)), ss2, ps2)),
                    },
                }
            },
        }
    }
}

/// Each of the first `k` names mapped to its position; a repeated name maps
/// to its last position.
pub open spec fn node_index_upto(names: Seq<Seq<char>>, k: int) -> Map<Seq<char>, NodeIdx>
    decreases k,
{
    if k <= 0 {
        Map::empty()
    } else {
        node_index_upto(names, k - 1).insert(names[k - 1], NodeIdx((k - 1) as usize))
    }
}

/// Each of the first `k` names mapped to its position; a repeated name maps
/// to its last position.
pub open spec fn contract_index_upto(names: Seq<Seq<char>>, k: int) -> Map<Seq<char>, ContractIdx>
    decreases k,
{
    if k <= 0 {
        Map::empty()
    } else {
        contract_index_upto(names, k - 1).insert(names[k - 1], ContractIdx((k - 1) as usize))
    }
}

/// The edges of the first `k` declarations of node `this`: for sends
/// (`sending`) an edge from `this` to the declared peer, for receives an
/// edge from the declared peer to `this`; or the first reference to an
/// undefined node or contract. A missing peer name reads as the empty name.
pub open spec fn decl_edges_upto(
    decls: Seq<EdgeConfigV>,
    this: NodeIdx,
    sending: bool,
    nidx: Map<Seq<char>, NodeIdx>,
    cidx: Map<Seq<char>, ContractIdx>,
    k: int,
) -> Result<Seq<Edge>, NexusCoreErrorV>
    decreases k,
{
    if k <= 0 {
        Ok(Seq::empty())
    } else {
        match decl_edges_upto(decls, this, sending, nidx, cidx, k - 1) {
            Err(e) => Err(e),
            Ok(es) => {
                let d = decls[k - 1];
                let peer_opt = if sending {
                    d.to
                } else {
                    d.from
                };
                let peer = match peer_opt {
                    Some(p) => p,
                    None => Seq::empty(),
                };
                if !nidx.contains_key(peer) {
                    Err(NexusCoreErrorV::UndefinedNode { node: peer })
                } else if !cidx.contains_key(d.contract) {
                    Err(NexusCoreErrorV::UndefinedContract { contract: d.contract })
                } else if sending {
                    Ok(
                        es.push(
                            Edge {
                                from_node: this,
                                to_node: nidx[peer],
                                contract: cidx[d.contract],
                                origin: EdgeOrigin::Send,
                            },
                        ),
                    )
                } else {
                    Ok(
                        es.push(
                            Edge {
                                from_node: nidx[peer],
                                to_node: this,
                                contract: cidx[d.contract],
                                origin: EdgeOrigin::Receive,
                            },
                        ),
                    )
                }
            },
        }
    }
}

/// The edges of one node: those of its sends, then those of its receives.
/// The node is designated by the index its name maps to.
pub open spec fn node_edges(
    nc: NodeConfigV,
    nidx: Map<Seq<char>, NodeIdx>,
    cidx: Map<Seq<char>, ContractIdx>,
) -> Result<Seq<Edge>, NexusCoreErrorV> {
    let this = nidx[nc.name];
    match decl_edges_upto(nc.sends, this, true, nidx, cidx, nc.sends.len() as int) {
        Err(e) => Err(e),
        Ok(a) => match decl_edges_upto(
            nc.receives,
            this,
            false,
            nidx,
            cidx,
            nc.receives.len() as int,
        ) {
            Err(e) => Err(e),
            Ok(b) => Ok(a + b),
        },
    }
}

/// The edges of the first `k` nodes, node after node.
pub open spec fn edges_upto(
    ncs: Seq<NodeConfigV>,
    nidx: Map<Seq<char>, NodeIdx>,
    cidx: Map<Seq<char>, ContractIdx>,
    k: int,
) -> Result<Seq<Edge>, NexusCoreErrorV>
    decreases k,
{
    if k <= 0 {
        Ok(Seq::empty())
    } else {
        match edges_upto(ncs, nidx, cidx, k - 1) {
            Err(e) => Err(e),
            Ok(a) => match node_edges(ncs[k - 1], nidx, cidx) {
                Err(e) => Err(e),
                Ok(b) => Ok(a + b),
            },
        }
    }
}

/// The network a description resolves to, or the first error: nodes in
/// order, then contracts and their schemas in order, then edges.
pub open spec fn spec_resolve(cfg: NetworkConfigV, files: Seq<(Seq<char>, SchemaSourceV)>) -> Result<
    NetworkV,
    NexusCoreErrorV,
> {
    let names = cfg.nodes.map_values(|n: NodeConfigV| n.name);
    let nidx = node_index_upto(names, names.len() as int);
    match contracts_upto(cfg.contracts, files, cfg.contracts.len() as int) {
        Err(e) => Err(e),
        Ok((cs, ss, _)) => {
            let cnames = cfg.contracts.map_values(|c: ContractConfigV| c.name);
            let cidx = contract_index_upto(cnames, cnames.len() as int);
            match edges_upto(cfg.nodes, nidx, cidx, cfg.nodes.len() as int) {
                Err(e) => Err(e),
                Ok(es) => Ok(
                    NetworkV {
                        nodes: names,
                        contracts: cs,
                        schemas: ss,
                        edges: es,
                        node_index: nidx,
                        contract_index: cidx,
                    },
                ),
            }
        },
    }
}

/// Every schema file that was read holds a text whose lengths fit in a
/// `usize`.
pub open spec fn files_fit(files: Seq<(Seq<char>, SchemaSourceV)>) -> bool {
    forall|i: int|
        0 <= i < files.len() ==> match (#[trigger] files[i]).1 {
            SchemaSourceV::Loaded { content, .. } => nxs_lengths_fit(content),
            _ => true,
        }
}


// ---------------------------------------------------------------------------
// Resolution
// ---------------------------------------------------------------------------

/// The views of the schema files.
pub open spec fn files_view(files: Seq<SchemaFile>) -> Seq<(Seq<char>, SchemaSourceV)> {
    files.map_values(|f: SchemaFile| f@)
}

proof fn lemma_inline_err(fs: Seq<(Seq<char>, Seq<char>)>, k: int, n: int)
    requires
        0 <= k <= n,
        inline_fields(fs, k) is Err,
    ensures
        inline_fields(fs, n) == inline_fields(fs, k),
    decreases n - k,
{
    if k < n {
        lemma_inline_err(fs, k, n - 1);
    }
}

/// The position of the first schema file listed under `key`.
fn find_file_exec(files: &Vec<SchemaFile>, key: &String) -> (r: Option<usize>)
    ensures
        match r {
            Some(i) => i < files@.len() && find_file(files_view(files@), key@) == files@[i as int].source@,
            None => find_file(files_view(files@), key@) == SchemaSourceV::Missing,
        },
{
    let ghost fv = files_view(files@);
    let mut i: usize = 0;
    while i < files.len()
        invariant
            i <= files@.len(),
            fv == files_view(files@),
            find_file(fv, key@) == find_file_from(fv, key@, i as int),
        decreases files@.len() - i,
    {
        if files[i].key == *key {
            return Some(i);
        }
        i += 1;
    }
    None
}

/// The schema of one contract: a schema file is read and parsed once per
/// path (later contracts naming the same path share its schema); inline
/// fields make a schema of the contract's own.
fn resolve_schema(
    cc: &ContractConfig,
    files: &Vec<SchemaFile>,
    schemas: &mut Vec<Schema>,
    paths: &mut StringHashMap<SchemaIdx>,
) -> (r: Result<SchemaIdx, NexusCoreError>)
    requires
        files_fit(files_view(files@)),
    ensures
        match resolve_schema_spec(cc@, files_view(files@), schemas_view(old(schemas)@), old(paths)@) {
            Ok((idx, ss, ps)) => r == Ok::<SchemaIdx, NexusCoreError>(idx) && schemas_view(
                final(schemas)@,
            ) == ss && final(paths)@ == ps,
            Err(e) => r matches Err(x) && x@ == e && final(schemas)@ == old(schemas)@
                && final(paths)@ == old(paths)@,
        },
{
    let ghost fv = files_view(files@);
    let ghost ss = schemas_view(schemas@);
    if let Some(schema_path) = &cc.schema {
        if let Some(idx) = paths.get(schema_path.as_str()) {
            return Ok(*idx);
        }
        match find_file_exec(files, schema_path) {
            None => Err(NexusCoreError::SchemaNotFound(schema_path.clone())),
            Some(fi) => {
                let file = &files[fi];
                assert(fv[fi as int] == file@);
                match &file.source {
                    SchemaSource::Missing => Err(NexusCoreError::SchemaNotFound(schema_path.clone())),
                    SchemaSource::Unreadable { path, message } => Err(
                        NexusCoreError::FileRead { path: path.clone(), message: message.clone() },
                    ),
                    SchemaSource::Loaded { path, stem, content } => {
                        let chars = chars_of(content.as_str());
                        match parse_nxs_chars(&chars) {
                            NxsParse::Parsed(structs) => {
                                let idx = SchemaIdx(schemas.len());
                                let schema = Schema { name: stem.clone(), structs };
                                schemas.push(schema);
                                paths.insert(schema_path.clone(), idx);
                                assert(schemas_view(schemas@) =~= ss.push(schema@));
                                Ok(idx)
                            },
                            _ => Err(
                                NexusCoreError::SchemaParse {
                                    path: path.clone(),
                                    message: String::from_str("invalid schema syntax"),
                                },
                            ),
                        }
                    },
                }
            },
        }
    } else if cc.fields.len() > 0 {
        let ghost fs = cc@.fields;
        let struct_name = to_pascal_case(cc.name.as_str());
        let mut fields: Vec<Field> = Vec::new();
        assert(crate::schema::fields_view(fields@) =~= Seq::<(Seq<char>, FieldTypeV)>::empty());
        let mut i: usize = 0;
        while i < cc.fields.len()
            invariant
                i <= cc.fields@.len(),
                fs == cc@.fields,
                cc.schema is None,
                inline_fields(fs, i as int) == Ok::<Seq<(Seq<char>, FieldTypeV)>, Seq<char>>(
                    crate::schema::fields_view(fields@),
                ),
            decreases cc.fields@.len() - i,
        {
            let f = &cc.fields[i];
            assert(fs[i as int] == f@);
            match parse_inline_field_type(f.typ.as_str()) {
                Err(e) => {
                    proof {
                        assert(inline_fields(fs, i + 1) == Err::<Seq<(Seq<char>, FieldTypeV)>, Seq<char>>(fs[i as int].1));
                        lemma_inline_err(fs, i + 1, fs.len() as int);
                    }
                    return Err(e);
                },
                Ok(typ) => {
                    let field = Field { name: f.name.clone(), typ };
                    let ghost before = crate::schema::fields_view(fields@);
                    fields.push(field);
                    assert(crate::schema::fields_view(fields@) =~= before.push(field@));
                },
            }
            i += 1;
        }
        let idx = SchemaIdx(schemas.len());
        let sd = StructDef { name: struct_name, fields };
        let mut structs: Vec<StructDef> = Vec::new();
        structs.push(sd);
        let schema = Schema { name: cc.name.clone(), structs };
        assert(structs_view(schema.structs@) =~= seq![sd@]);
        schemas.push(schema);
        assert(schemas_view(schemas@) =~= ss.push(schema@));
        Ok(idx)
    } else {
        Err(NexusCoreError::NoSchema { contract: cc.name.clone() })
    }
}

proof fn lemma_contracts_err(
    ccs: Seq<ContractConfigV>,
    files: Seq<(Seq<char>, SchemaSourceV)>,
    k: int,
    n: int,
)
    requires
        0 <= k <= n,
        contracts_upto(ccs, files, k) is Err,
    ensures
        contracts_upto(ccs, files, n) == contracts_upto(ccs, files, k),
    decreases n - k,
{
    if k < n {
        lemma_contracts_err(ccs, files, k, n - 1);
    }
}

proof fn lemma_decl_err(
    decls: Seq<EdgeConfigV>,
    this: NodeIdx,
    sending: bool,
    nidx: Map<Seq<char>, NodeIdx>,
    cidx: Map<Seq<char>, ContractIdx>,
    k: int,
    n: int,
)
    requires
        0 <= k <= n,
        decl_edges_upto(decls, this, sending, nidx, cidx, k) is Err,
    ensures
        decl_edges_upto(decls, this, sending, nidx, cidx, n) == decl_edges_upto(
            decls,
            this,
            sending,
            nidx,
            cidx,
            k,
        ),
    decreases n - k,
{
    if k < n {
        lemma_decl_err(decls, this, sending, nidx, cidx, k, n - 1);
    }
}

proof fn lemma_edges_err(
    ncs: Seq<NodeConfigV>,
    nidx: Map<Seq<char>, NodeIdx>,
    cidx: Map<Seq<char>, ContractIdx>,
    k: int,
    n: int,
)
    requires
        0 <= k <= n,
        edges_upto(ncs, nidx, cidx, k) is Err,
    ensures
        edges_upto(ncs, nidx, cidx, n) == edges_upto(ncs, nidx, cidx, k),
    decreases n - k,
{
    if k < n {
        lemma_edges_err(ncs, nidx, cidx, k, n - 1);
    }
}

proof fn lemma_node_index(names: Seq<Seq<char>>, k: int)
    requires
        0 <= k <= names.len(),
    ensures
        forall|i: int| 0 <= i < k ==> node_index_upto(names, k).contains_key(#[trigger] names[i]),
        forall|key: Seq<char>|
            #[trigger] node_index_upto(names, k).contains_key(key) ==> node_index_upto(
                names,
                k,
            )[key].0 < k,
    decreases k,
{
    if k > 0 {
        lemma_node_index(names, k - 1);
        let m = node_index_upto(names, k);
        assert forall|key: Seq<char>| #[trigger] m.contains_key(key) implies m[key].0 < k by {
            if key != names[k - 1] {
                assert(node_index_upto(names, k - 1).contains_key(key));
            }
        }
    }
}

proof fn lemma_contract_index(names: Seq<Seq<char>>, k: int)
    requires
        0 <= k <= names.len(),
    ensures
        forall|key: Seq<char>|
            #[trigger] contract_index_upto(names, k).contains_key(key) ==> contract_index_upto(
                names,
                k,
            )[key].0 < k,
    decreases k,
{
    if k > 0 {
        lemma_contract_index(names, k - 1);
        let m = contract_index_upto(names, k);
        assert forall|key: Seq<char>| #[trigger] m.contains_key(key) implies m[key].0 < k by {
            if key != names[k - 1] {
                assert(contract_index_upto(names, k - 1).contains_key(key));
            }
        }
    }
}

proof fn lemma_edge_error(
    ncs: Seq<NodeConfigV>,
    nidx: Map<Seq<char>, NodeIdx>,
    cidx: Map<Seq<char>, ContractIdx>,
    i: int,
    sending: bool,
    j: int,
)
    requires
        0 <= i < ncs.len(),
        edges_upto(ncs, nidx, cidx, i) is Ok,
        sending ==> 0 <= j < ncs[i].sends.len(),
        !sending ==> 0 <= j < ncs[i].receives.len(),
        !sending ==> decl_edges_upto(ncs[i].sends, nidx[ncs[i].name], true, nidx, cidx, ncs[i].sends.len() as int) is Ok,
        decl_edges_upto(
            if sending { ncs[i].sends } else { ncs[i].receives },
            nidx[ncs[i].name],
            sending,
            nidx,
            cidx,
            j + 1,
        ) is Err,
    ensures
        edges_upto(ncs, nidx, cidx, ncs.len() as int) == decl_edges_upto(
            if sending { ncs[i].sends } else { ncs[i].receives },
            nidx[ncs[i].name],
            sending,
            nidx,
            cidx,
            j + 1,
        ),
{
    let decls = if sending { ncs[i].sends } else { ncs[i].receives };
    lemma_decl_err(decls, nidx[ncs[i].name], sending, nidx, cidx, j + 1, decls.len() as int);
    assert(edges_upto(ncs, nidx, cidx, i + 1) is Err);
    lemma_edges_err(ncs, nidx, cidx, i + 1, ncs.len() as int);
}

/// The contracts, schemas, schema-file index, node index and contract index
/// are those that a description resolves to.
pub open spec fn resolved_parts(
    cfg: NetworkConfigV,
    fv: Seq<(Seq<char>, SchemaSourceV)>,
    cs: Seq<(Seq<char>, Transport, usize)>,
    ss: Seq<SchemaV>,
    ps: Map<Seq<char>, SchemaIdx>,
    nidx: Map<Seq<char>, NodeIdx>,
    cidx: Map<Seq<char>, ContractIdx>,
) -> bool {
    let names = cfg.nodes.map_values(|n: NodeConfigV| n.name);
    let cnames = cfg.contracts.map_values(|c: ContractConfigV| c.name);
    &&& contracts_upto(cfg.contracts, fv, cfg.contracts.len() as int) == Ok::<
        (Seq<(Seq<char>, Transport, usize)>, Seq<SchemaV>, Map<Seq<char>, SchemaIdx>),
        NexusCoreErrorV,
    >((cs, ss, ps))
    &&& nidx == node_index_upto(names, names.len() as int)
    &&& cidx == contract_index_upto(cnames, cnames.len() as int)
}

/// Every schema position that the index or a contract holds is a position
/// of `schemas`.
pub open spec fn positions_ok(
    cs: Seq<(Seq<char>, Transport, usize)>,
    ss: Seq<SchemaV>,
    ps: Map<Seq<char>, SchemaIdx>,
) -> bool {
    &&& forall|k: int| 0 <= k < cs.len() ==> (#[trigger] cs[k]).2 < ss.len()
    &&& forall|key: Seq<char>| #[trigger] ps.contains_key(key) ==> ps[key].0 < ss.len()
}

proof fn lemma_resolve_schema_positions(
    cc: ContractConfigV,
    files: Seq<(Seq<char>, SchemaSourceV)>,
    ss: Seq<SchemaV>,
    ps: Map<Seq<char>, SchemaIdx>,
)
    requires
        forall|key: Seq<char>| #[trigger] ps.contains_key(key) ==> ps[key].0 < ss.len(),
    ensures
        resolve_schema_spec(cc, files, ss, ps) matches Ok((idx, ss2, ps2)) ==> {
            &&& idx.0 < ss2.len()
            &&& ss.len() <= ss2.len()
            &&& forall|key: Seq<char>| #[trigger] ps2.contains_key(key) ==> ps2[key].0 < ss2.len()
        },
{
}

proof fn lemma_contracts_positions(
    ccs: Seq<ContractConfigV>,
    files: Seq<(Seq<char>, SchemaSourceV)>,
    k: int,
)
    requires
        0 <= k <= ccs.len(),
    ensures
        contracts_upto(ccs, files, k) matches Ok((cs, ss, ps)) ==> positions_ok(cs, ss, ps)
            && cs.len() == k,
    decreases k,
{
    if k > 0 {
        lemma_contracts_positions(ccs, files, k - 1);
        if let Ok((cs, ss, ps)) = contracts_upto(ccs, files, k - 1) {
            lemma_resolve_schema_positions(ccs[k - 1], files, ss, ps);
        }
    }
}

/// Resolve a network description into a network: nodes in order, then
/// contracts (their transports parsed and their schemas read) in order,
/// then the edges that each node's sends and receives declare. The first
/// unknown transport, missing, unreadable or invalid schema, unknown inline
/// field type, contract without schema, or reference to an undefined node
/// or contract is reported.
pub fn resolve(config: &NetworkConfig, files: &Vec<SchemaFile>) -> (r: Result<Network, NexusCoreError>)
    requires
        files_fit(files_view(files@)),
    ensures
        match spec_resolve(config@, files_view(files@)) {
            Ok(nv) => r matches Ok(net) && net@ == nv && net.wf(),
            Err(e) => r matches Err(x) && x@ == e,
        },
{
    let ghost cfg = config@;
    let ghost fv = files_view(files@);
    let ghost names = cfg.nodes.map_values(|n: NodeConfigV| n.name);
    let ghost cnames = cfg.contracts.map_values(|c: ContractConfigV| c.name);

    // Nodes
    let mut nodes: Vec<Node> = Vec::new();
    let mut node_index: StringHashMap<NodeIdx> = StringHashMap::new();
    let mut i: usize = 0;
    while i < config.nodes.len()
        invariant
            cfg == config@,
            names == cfg.nodes.map_values(|n: NodeConfigV| n.name),
            i <= config.nodes@.len(),
            nodes@.len() == i,
            forall|k: int| 0 <= k < i ==> #[trigger] nodes@[k].name@ == names[k],
            node_index@ == node_index_upto(names, i as int),
        decreases config.nodes@.len() - i,
    {
        let nc = &config.nodes[i];
        assert(names[i as int] == nc.name@);
        node_index.insert(nc.name.clone(), NodeIdx(i));
        nodes.push(Node { name: nc.name.clone() });
        i += 1;
    }
    let n_nodes = nodes.len();
    proof {
        lemma_node_index(names, names.len() as int);
        assert(nodes@.map_values(|n: Node| n.name@) =~= names);
    }

    // Contracts and schemas
    let mut schemas: Vec<Schema> = Vec::new();
    let mut paths: StringHashMap<SchemaIdx> = StringHashMap::new();
    let mut contracts: Vec<Contract> = Vec::new();
    let mut contract_index: StringHashMap<ContractIdx> = StringHashMap::new();
    assert(contracts@.map_values(|c: Contract| c@) =~= Seq::<(Seq<char>, Transport, usize)>::empty());
    assert(schemas_view(schemas@) =~= Seq::<SchemaV>::empty());
    let mut i: usize = 0;
    while i < config.contracts.len()
        invariant
            cfg == config@,
            fv == files_view(files@),
            files_fit(fv),
            cnames == cfg.contracts.map_values(|c: ContractConfigV| c.name),
            i <= config.contracts@.len(),
            contracts_upto(cfg.contracts, fv, i as int) == Ok::<
                (Seq<(Seq<char>, Transport, usize)>, Seq<SchemaV>, Map<Seq<char>, SchemaIdx>),
                NexusCoreErrorV,
            >((contracts@.map_values(|c: Contract| c@), schemas_view(schemas@), paths@)),
            contract_index@ == contract_index_upto(cnames, i as int),
        decreases config.contracts@.len() - i,
    {
        let cc = &config.contracts[i];
        assert(cfg.contracts[i as int] == cc@);
        let ghost cs0 = contracts@.map_values(|c: Contract| c@);
        let transport = match parse_transport(cc.transport.as_str()) {
            Ok(t) => t,
            Err(e) => {
                proof {
                    lemma_contracts_err(cfg.contracts, fv, i + 1, cfg.contracts.len() as int);
                }
                return Err(e);
            },
        };
        let schema_idx = match resolve_schema(cc, files, &mut schemas, &mut paths) {
            Ok(idx) => idx,
            Err(e) => {
                proof {
                    lemma_contracts_err(cfg.contracts, fv, i + 1, cfg.contracts.len() as int);
                }
                return Err(e);
            },
        };
        let c = Contract { name: cc.name.clone(), transport, schema: schema_idx };
        contract_index.insert(cc.name.clone(), ContractIdx(i));
        contracts.push(c);
        assert(contracts@.map_values(|c: Contract| c@) =~= cs0.push(c@));
        assert(cnames[i as int] == cc.name@);
        i += 1;
    }
    proof {
        lemma_contracts_positions(cfg.contracts, fv, cfg.contracts.len() as int);
        lemma_contract_index(cnames, cnames.len() as int);
    }
    let ghost cs = contracts@.map_values(|c: Contract| c@);
    let ghost ss = schemas_view(schemas@);
    let ghost ps = paths@;
    let ghost nidx = node_index@;
    let ghost cidx = contract_index@;
    let n_contracts = contracts.len();

    // Edges
    let mut edges: Vec<Edge> = Vec::new();
    let mut i: usize = 0;
    while i < config.nodes.len()
        invariant
            cfg == config@,
            names == cfg.nodes.map_values(|n: NodeConfigV| n.name),
            nidx == node_index@,
            cidx == contract_index@,
            nidx == node_index_upto(names, names.len() as int),
            cnames == cfg.contracts.map_values(|c: ContractConfigV| c.name),
            cidx == contract_index_upto(cnames, cnames.len() as int),
            fv == files_view(files@),
            contracts_upto(cfg.contracts, fv, cfg.contracts.len() as int) == Ok::<
                (Seq<(Seq<char>, Transport, usize)>, Seq<SchemaV>, Map<Seq<char>, SchemaIdx>),
                NexusCoreErrorV,
            >((cs, ss, ps)),
            cs == contracts@.map_values(|c: Contract| c@),
            ss == schemas_view(schemas@),
            positions_ok(cs, ss, ps),
            nodes@.map_values(|n: Node| n.name@) == names,
            forall|k: int| 0 <= k < names.len() ==> nidx.contains_key(#[trigger] names[k]),
            forall|key: Seq<char>| #[trigger] nidx.contains_key(key) ==> nidx[key].0 < n_nodes,
            forall|key: Seq<char>| #[trigger] cidx.contains_key(key) ==> cidx[key].0 < n_contracts,
            n_nodes == names.len(),
            i <= config.nodes@.len(),
            edges_upto(cfg.nodes, nidx, cidx, i as int) == Ok::<Seq<Edge>, NexusCoreErrorV>(edges@),
            forall|k: int|
                0 <= k < edges@.len() ==> {
                    &&& (#[trigger] edges@[k]).from_node.0 < n_nodes
                    &&& edges@[k].to_node.0 < n_nodes
                    &&& edges@[k].contract.0 < n_contracts
                },
        decreases config.nodes@.len() - i,
    {
        let nc = &config.nodes[i];
        assert(cfg.nodes[i as int] == nc@);
        assert(names[i as int] == nc.name@);
        let this: NodeIdx = *node_index.get(nc.name.as_str()).unwrap();
        let ghost base = edges@;
        let ghost ncv = nc@;
        let ghost mut local: Seq<Edge> = Seq::empty();
        let mut j: usize = 0;
        while j < nc.sends.len()
            invariant
                ncv == nc@,
                cfg == config@,
                fv == files_view(files@),
                resolved_parts(cfg, fv, cs, ss, ps, nidx, cidx),
                i < cfg.nodes.len(),
                cfg.nodes[i as int] == ncv,
                edges_upto(cfg.nodes, nidx, cidx, i as int) == Ok::<Seq<Edge>, NexusCoreErrorV>(base),
                this == nidx[ncv.name],
                nidx == node_index@,
                cidx == contract_index@,
                forall|key: Seq<char>| #[trigger] nidx.contains_key(key) ==> nidx[key].0 < n_nodes,
                forall|key: Seq<char>| #[trigger] cidx.contains_key(key) ==> cidx[key].0 < n_contracts,
                this.0 < n_nodes,
                j <= nc.sends@.len(),
                decl_edges_upto(ncv.sends, this, true, nidx, cidx, j as int) == Ok::<
                    Seq<Edge>,
                    NexusCoreErrorV,
                >(local),
                edges@ == base + local,
                forall|k: int|
                    0 <= k < edges@.len() ==> {
                        &&& (#[trigger] edges@[k]).from_node.0 < n_nodes
                        &&& edges@[k].to_node.0 < n_nodes
                        &&& edges@[k].contract.0 < n_contracts
                    },
            decreases nc.sends@.len() - j,
        {
            let d = &nc.sends[j];
            assert(ncv.sends[j as int] == d@);
            let to_name: &str = match &d.to {
                Some(t) => t.as_str(),
                None => "",
            };
            proof {
                reveal_strlit("");
            }
            assert(to_name@ == match d@.to {
                Some(p) => p,
                None => Seq::<char>::empty(),
            });
            let to_idx = match node_index.get(to_name) {
                Some(x) => *x,
                None => {
                    proof {
                        lemma_edge_error(cfg.nodes, nidx, cidx, i as int, true, j as int);
                    }
                    return Err(NexusCoreError::UndefinedNode { node: String::from_str(to_name) });
                },
            };
            let c_idx = match contract_index.get(d.contract.as_str()) {
                Some(x) => *x,
                None => {
                    proof {
                        lemma_edge_error(cfg.nodes, nidx, cidx, i as int, true, j as int);
                    }
                    return Err(NexusCoreError::UndefinedContract { contract: d.contract.clone() });
                },
            };
            let e = Edge { from_node: this, to_node: to_idx, contract: c_idx, origin: EdgeOrigin::Send };
            edges.push(e);
            proof {
                local = local.push(e);
                assert(edges@ =~= base + local);
            }
            j += 1;
        }
        let ghost sends_local = local;
        proof {
            local = Seq::empty();
            assert(edges@ =~= base + sends_local + local);
        }
        let mut j: usize = 0;
        while j < nc.receives.len()
            invariant
                ncv == nc@,
                cfg == config@,
                fv == files_view(files@),
                resolved_parts(cfg, fv, cs, ss, ps, nidx, cidx),
                i < cfg.nodes.len(),
                cfg.nodes[i as int] == ncv,
                edges_upto(cfg.nodes, nidx, cidx, i as int) == Ok::<Seq<Edge>, NexusCoreErrorV>(base),
                this == nidx[ncv.name],
                nidx == node_index@,
                cidx == contract_index@,
                forall|key: Seq<char>| #[trigger] nidx.contains_key(key) ==> nidx[key].0 < n_nodes,
                forall|key: Seq<char>| #[trigger] cidx.contains_key(key) ==> cidx[key].0 < n_contracts,
                this.0 < n_nodes,
                j <= nc.receives@.len(),
                decl_edges_upto(ncv.sends, this, true, nidx, cidx, ncv.sends.len() as int) == Ok::<
                    Seq<Edge>,
                    NexusCoreErrorV,
                >(sends_local),
                decl_edges_upto(ncv.receives, this, false, nidx, cidx, j as int) == Ok::<
                    Seq<Edge>,
                    NexusCoreErrorV,
                >(local),
                edges@ == base + sends_local + local,
                forall|k: int|
                    0 <= k < edges@.len() ==> {
                        &&& (#[trigger] edges@[k]).from_node.0 < n_nodes
                        &&& edges@[k].to_node.0 < n_nodes
                        &&& edges@[k].contract.0 < n_contracts
                    },
            decreases nc.receives@.len() - j,
        {
            let d = &nc.receives[j];
            assert(ncv.receives[j as int] == d@);
            let from_name: &str = match &d.from {
                Some(t) => t.as_str(),
                None => "",
            };
            proof {
                reveal_strlit("");
            }
            assert(from_name@ == match d@.from {
                Some(p) => p,
                None => Seq::<char>::empty(),
            });
            let from_idx = match node_index.get(from_name) {
                Some(x) => *x,
                None => {
                    proof {
                        lemma_edge_error(cfg.nodes, nidx, cidx, i as int, false, j as int);
                    }
                    return Err(NexusCoreError::UndefinedNode { node: String::from_str(from_name) });
                },
            };
            let c_idx = match contract_index.get(d.contract.as_str()) {
                Some(x) => *x,
                None => {
                    proof {
                        lemma_edge_error(cfg.nodes, nidx, cidx, i as int, false, j as int);
                    }
                    return Err(NexusCoreError::UndefinedContract { contract: d.contract.clone() });
                },
            };
            let e = Edge { from_node: from_idx, to_node: this, contract: c_idx, origin: EdgeOrigin::Receive };
            edges.push(e);
            proof {
                local = local.push(e);
                assert(edges@ =~= base + sends_local + local);
            }
            j += 1;
        }
        proof {
            assert(base + sends_local + local =~= base + (sends_local + local));
        }
        i += 1;
    }
    let net = Network { nodes, contracts, schemas, edges, node_index, contract_index };
    assert(resolved_parts(cfg, fv, cs, ss, ps, nidx, cidx));
    assert(edges_upto(cfg.nodes, nidx, cidx, cfg.nodes.len() as int) == Ok::<Seq<Edge>, NexusCoreErrorV>(net.edges@));
    assert(net@.nodes == names);
    assert(net@.contracts == cs);
    assert(net@.schemas == ss);
    assert forall|k: int| 0 <= k < net.contracts@.len() implies #[trigger] net.contracts@[k].schema.0
        < net.schemas@.len() by {
        assert(cs[k] == net.contracts@[k]@);
    }
    assert(net.wf());
    Ok(net)
}

// ---------------------------------------------------------------------------
// Declared pairs become matched edges
// ---------------------------------------------------------------------------

/// The edges that the first `k` declarations give, when they resolve, are
/// one per declaration, in order.
proof fn lemma_decl_edges(
    decls: Seq<EdgeConfigV>,
    this: NodeIdx,
    sending: bool,
    nidx: Map<Seq<char>, NodeIdx>,
    cidx: Map<Seq<char>, ContractIdx>,
    k: int,
)
    requires
        0 <= k <= decls.len(),
        decl_edges_upto(decls, this, sending, nidx, cidx, k) is Ok,
    ensures
        ({
            let es = decl_edges_upto(decls, this, sending, nidx, cidx, k)->Ok_0;
            &&& es.len() == k
            &&& forall|i: int|
                0 <= i < k ==> {
                    let d = decls[i];
                    let peer = if sending {
                        d.to
                    } else {
                        d.from
                    };
                    let p = match peer {
                        Some(p) => p,
                        None => Seq::<char>::empty(),
                    };
                    &&& nidx.contains_key(p)
                    &&& cidx.contains_key(d.contract)
                    &&& #[trigger] es[i] == if sending {
                        Edge {
                            from_node: this,
                            to_node: nidx[p],
                            contract: cidx[d.contract],
                            origin: EdgeOrigin::Send,
                        }
                    } else {
                        Edge {
                            from_node: nidx[p],
                            to_node: this,
                            contract: cidx[d.contract],
                            origin: EdgeOrigin::Receive,
                        }
                    }
                }
        }),
    decreases k,
{
    if k > 0 {
        lemma_decl_edges(decls, this, sending, nidx, cidx, k - 1);
    }
}

/// When the edges of the first `n` nodes resolve, each of those nodes'
/// edges is among them.
proof fn lemma_edges_contain(
    ncs: Seq<NodeConfigV>,
    nidx: Map<Seq<char>, NodeIdx>,
    cidx: Map<Seq<char>, ContractIdx>,
    n: int,
    k: int,
    i: int,
)
    requires
        0 <= k < n <= ncs.len(),
        edges_upto(ncs, nidx, cidx, n) is Ok,
    ensures
        node_edges(ncs[k], nidx, cidx) is Ok,
        0 <= i < node_edges(ncs[k], nidx, cidx)->Ok_0.len() ==> edges_upto(
            ncs,
            nidx,
            cidx,
            n,
        )->Ok_0.contains(node_edges(ncs[k], nidx, cidx)->Ok_0[i]),
    decreases n,
{
    let prev = edges_upto(ncs, nidx, cidx, n - 1);
    let all = edges_upto(ncs, nidx, cidx, n)->Ok_0;
    if k < n - 1 {
        lemma_edges_contain(ncs, nidx, cidx, n - 1, k, i);
        if 0 <= i < node_edges(ncs[k], nidx, cidx)->Ok_0.len() {
            let x = node_edges(ncs[k], nidx, cidx)->Ok_0[i];
            let j = choose|j: int| 0 <= j < prev->Ok_0.len() && prev->Ok_0[j] == x;
            assert(all[j] == x);
        }
    } else {
        if 0 <= i < node_edges(ncs[k], nidx, cidx)->Ok_0.len() {
            let x = node_edges(ncs[k], nidx, cidx)->Ok_0[i];
            assert(all[prev->Ok_0.len() + i] == x);
        }
    }
}

/// A send and the receive that answers it make a matched pair: when a
/// description resolves, and node `a` declares sending contract `c` to node
/// `b` while node `b` declares receiving `c` from node `a`, the network has
/// the send edge from `a` to `b` for `c`, and the receive edge with the same
/// nodes and contract, so neither is reported as unmatched.
pub proof fn law_declared_pairs_are_matched(
    cfg: NetworkConfigV,
    files: Seq<(Seq<char>, SchemaSourceV)>,
    a: int,
    i: int,
    b: int,
    j: int,
)
    requires
        spec_resolve(cfg, files) is Ok,
        0 <= a < cfg.nodes.len(),
        0 <= b < cfg.nodes.len(),
        0 <= i < cfg.nodes[a].sends.len(),
        0 <= j < cfg.nodes[b].receives.len(),
        cfg.nodes[a].sends[i].to == Some(cfg.nodes[b].name),
        cfg.nodes[b].receives[j].from == Some(cfg.nodes[a].name),
        cfg.nodes[a].sends[i].contract == cfg.nodes[b].receives[j].contract,
    ensures
        ({
            let net = spec_resolve(cfg, files)->Ok_0;
            let send = Edge {
                from_node: net.node_index[cfg.nodes[a].name],
                to_node: net.node_index[cfg.nodes[b].name],
                contract: net.contract_index[cfg.nodes[a].sends[i].contract],
                origin: EdgeOrigin::Send,
            };
            let receive = Edge { origin: EdgeOrigin::Receive, ..send };
            &&& net.edges.contains(send)
            &&& net.edges.contains(receive)
            &&& has_counterpart(net.edges, EdgeOrigin::Receive, send)
            &&& has_counterpart(net.edges, EdgeOrigin::Send, receive)
        }),
{
    let net = spec_resolve(cfg, files)->Ok_0;
    let names = cfg.nodes.map_values(|n: NodeConfigV| n.name);
    let nidx = node_index_upto(names, names.len() as int);
    let cnames = cfg.contracts.map_values(|c: ContractConfigV| c.name);
    let cidx = contract_index_upto(cnames, cnames.len() as int);
    let n = cfg.nodes.len() as int;
    assert(net.node_index == nidx);
    assert(net.contract_index == cidx);
    assert(edges_upto(cfg.nodes, nidx, cidx, n) is Ok);
    assert(net.edges == edges_upto(cfg.nodes, nidx, cidx, n)->Ok_0);

    // The send of node `a`.
    let na = cfg.nodes[a];
    lemma_edges_contain(cfg.nodes, nidx, cidx, n, a, i);
    let ta = nidx[na.name];
    let sa = decl_edges_upto(na.sends, ta, true, nidx, cidx, na.sends.len() as int);
    assert(sa is Ok);
    lemma_decl_edges(na.sends, ta, true, nidx, cidx, na.sends.len() as int);
    let send = sa->Ok_0[i];
    assert(node_edges(na, nidx, cidx)->Ok_0[i] == send);

    // The receive of node `b`.
    let nb = cfg.nodes[b];
    let tb = nidx[nb.name];
    let sb = decl_edges_upto(nb.sends, tb, true, nidx, cidx, nb.sends.len() as int);
    lemma_edges_contain(cfg.nodes, nidx, cidx, n, b, sb->Ok_0.len() + j);
    assert(sb is Ok);
    let rb = decl_edges_upto(nb.receives, tb, false, nidx, cidx, nb.receives.len() as int);
    assert(rb is Ok);
    lemma_decl_edges(nb.sends, tb, true, nidx, cidx, nb.sends.len() as int);
    lemma_decl_edges(nb.receives, tb, false, nidx, cidx, nb.receives.len() as int);
    let receive = rb->Ok_0[j];
    assert(node_edges(nb, nidx, cidx)->Ok_0[sb->Ok_0.len() + j] == receive);
    let ks = choose|k: int| 0 <= k < net.edges.len() && net.edges[k] == send;
    let kr = choose|k: int| 0 <= k < net.edges.len() && net.edges[k] == receive;
    assert(net.edges[kr] == receive);
    assert(net.edges[ks] == send);
}

// ---------------------------------------------------------------------------
// Schema files are shared
// ---------------------------------------------------------------------------

/// After the first `k` contracts, each one with a schema path is at the
/// schema that the index of read files holds for that path.
proof fn lemma_contract_schema_paths(
    ccs: Seq<ContractConfigV>,
    files: Seq<(Seq<char>, SchemaSourceV)>,
    k: int,
)
    requires
        0 <= k <= ccs.len(),
        contracts_upto(ccs, files, k) is Ok,
    ensures
        ({
            let (cs, ss, ps) = contracts_upto(ccs, files, k)->Ok_0;
            &&& cs.len() == k
            &&& forall|i: int|
                #![trigger ccs[i].schema]
                0 <= i < k && ccs[i].schema is Some ==> ps.contains_key(ccs[i].schema->Some_0)
                    && ps[ccs[i].schema->Some_0].0 == cs[i].2
        }),
    decreases k,
{
    if k > 0 {
        lemma_contract_schema_paths(ccs, files, k - 1);
        let (cs, ss, ps) = contracts_upto(ccs, files, k - 1)->Ok_0;
        let (cs2, ss2, ps2) = contracts_upto(ccs, files, k)->Ok_0;
        let cc = ccs[k - 1];
        let (idx, ss3, ps3) = resolve_schema_spec(cc, files, ss, ps)->Ok_0;
        assert(cs2 == cs.push((cc.name, spec_transport(cc.transport)->Some_0, idx.0)));
        assert(ps2 == ps3);
        assert forall|i: int|
            #![trigger ccs[i].schema]
            0 <= i < k && ccs[i].schema is Some implies ps2.contains_key(ccs[i].schema->Some_0)
                && ps2[ccs[i].schema->Some_0].0 == cs2[i].2 by {
            if i < k - 1 {
                assert(cs2[i] == cs[i]);
            }
        }
    }
}

/// A schema file is read once per path: when a description resolves, any
/// two contracts that name the same schema path share one schema.
pub proof fn law_contracts_share_schema_files(
    cfg: NetworkConfigV,
    files: Seq<(Seq<char>, SchemaSourceV)>,
    i: int,
    j: int,
)
    requires
        spec_resolve(cfg, files) is Ok,
        0 <= i < cfg.contracts.len(),
        0 <= j < cfg.contracts.len(),
        cfg.contracts[i].schema is Some,
        cfg.contracts[i].schema == cfg.contracts[j].schema,
    ensures
        spec_resolve(cfg, files)->Ok_0.contracts[i].2 == spec_resolve(cfg, files)->Ok_0.contracts[j].2,
{
    let n = cfg.contracts.len() as int;
    assert(contracts_upto(cfg.contracts, files, n) is Ok);
    lemma_contract_schema_paths(cfg.contracts, files, n);
    let (cs, ss, ps) = contracts_upto(cfg.contracts, files, n)->Ok_0;
    assert(spec_resolve(cfg, files)->Ok_0.contracts == cs);
    assert(cfg.contracts[i].schema is Some);
    assert(cfg.contracts[j].schema is Some);
}

// ---------------------------------------------------------------------------
// Looking names up
// ---------------------------------------------------------------------------

proof fn lemma_node_index_names(names: Seq<Seq<char>>, k: int)
    requires
        0 <= k <= names.len(),
        names.len() <= usize::MAX,
    ensures
        forall|key: Seq<char>|
            #[trigger] node_index_upto(names, k).contains_key(key) <==> names.take(k).contains(key),
        forall|key: Seq<char>|
            #[trigger] node_index_upto(names, k).contains_key(key) ==> {
                let at = node_index_upto(names, k)[key].0 as int;
                &&& 0 <= at < k
                &&& names[at] == key
                &&& forall|later: int| at < later < k ==> #[trigger] names[later] != key
            },
    decreases k,
{
    if k > 0 {
        lemma_node_index_names(names, k - 1);
        assert(names.take(k) =~= names.take(k - 1).push(names[k - 1]));
        assert forall|key: Seq<char>| names.take(k).contains(key) implies #[trigger] node_index_upto(
            names,
            k,
        ).contains_key(key) by {
            if key != names[k - 1] {
                let i = choose|i: int| 0 <= i < k && #[trigger] names.take(k)[i] == key;
                assert(names.take(k - 1)[i] == key);
                assert(names.take(k - 1).contains(key));
                assert(node_index_upto(names, k - 1).contains_key(key));
            }
        }
        assert forall|key: Seq<char>| #[trigger] node_index_upto(names, k).contains_key(key) implies names.take(
            k,
        ).contains(key) by {
            if key == names[k - 1] {
                assert(names.take(k)[k - 1] == key);
            } else {
                assert(node_index_upto(names, k - 1).contains_key(key));
                let i = choose|i: int| 0 <= i < k - 1 && #[trigger] names.take(k - 1)[i] == key;
                assert(names.take(k)[i] == key);
            }
        }
        assert forall|key: Seq<char>| #[trigger] node_index_upto(names, k).contains_key(key) implies {
            let at = node_index_upto(names, k)[key].0 as int;
            &&& 0 <= at < k
            &&& names[at] == key
            &&& forall|later: int| at < later < k ==> #[trigger] names[later] != key
        } by {
            if key != names[k - 1] {
                assert(node_index_upto(names, k - 1).contains_key(key));
                assert(node_index_upto(names, k)[key] == node_index_upto(names, k - 1)[key]);
            }
        }
    }
}

proof fn lemma_contract_index_names(names: Seq<Seq<char>>, k: int)
    requires
        0 <= k <= names.len(),
        names.len() <= usize::MAX,
    ensures
        forall|key: Seq<char>|
            #[trigger] contract_index_upto(names, k).contains_key(key) <==> names.take(k).contains(
                key,
            ),
        forall|key: Seq<char>|
            #[trigger] contract_index_upto(names, k).contains_key(key) ==> {
                let at = contract_index_upto(names, k)[key].0 as int;
                &&& 0 <= at < k
                &&& names[at] == key
                &&& forall|later: int| at < later < k ==> #[trigger] names[later] != key
            },
    decreases k,
{
    if k > 0 {
        lemma_contract_index_names(names, k - 1);
        assert(names.take(k) =~= names.take(k - 1).push(names[k - 1]));
        assert forall|key: Seq<char>| names.take(k).contains(key) implies #[trigger] contract_index_upto(
            names,
            k,
        ).contains_key(key) by {
            if key != names[k - 1] {
                let i = choose|i: int| 0 <= i < k && #[trigger] names.take(k)[i] == key;
                assert(names.take(k - 1)[i] == key);
                assert(names.take(k - 1).contains(key));
                assert(contract_index_upto(names, k - 1).contains_key(key));
            }
        }
        assert forall|key: Seq<char>| #[trigger] contract_index_upto(names, k).contains_key(key) implies names.take(
            k,
        ).contains(key) by {
            if key == names[k - 1] {
                assert(names.take(k)[k - 1] == key);
            } else {
                assert(contract_index_upto(names, k - 1).contains_key(key));
                let i = choose|i: int| 0 <= i < k - 1 && #[trigger] names.take(k - 1)[i] == key;
                assert(names.take(k)[i] == key);
            }
        }
        assert forall|key: Seq<char>| #[trigger] contract_index_upto(names, k).contains_key(key) implies {
            let at = contract_index_upto(names, k)[key].0 as int;
            &&& 0 <= at < k
            &&& names[at] == key
            &&& forall|later: int| at < later < k ==> #[trigger] names[later] != key
        } by {
            if key != names[k - 1] {
                assert(contract_index_upto(names, k - 1).contains_key(key));
                assert(contract_index_upto(names, k)[key] == contract_index_upto(names, k - 1)[key]);
            }
        }
    }
}

/// Looking a name up gives back a node or contract of that name: in a
/// resolved network, the names that the node index holds are exactly the
/// node names, each mapped to the last node of that name, and likewise for
/// contracts.
pub proof fn law_name_lookup_finds_the_named(cfg: NetworkConfigV, files: Seq<(Seq<char>, SchemaSourceV)>)
    requires
        cfg.nodes.len() <= usize::MAX,
        cfg.contracts.len() <= usize::MAX,
        spec_resolve(cfg, files) is Ok,
    ensures
        ({
            let net = spec_resolve(cfg, files)->Ok_0;
            let cnames = net.contracts.map_values(|c: (Seq<char>, Transport, usize)| c.0);
            &&& forall|name: Seq<char>|
                #[trigger] net.node_index.contains_key(name) <==> net.nodes.contains(name)
            &&& forall|name: Seq<char>|
                #[trigger] net.node_index.contains_key(name) ==> {
                    let at = net.node_index[name].0 as int;
                    &&& 0 <= at < net.nodes.len()
                    &&& net.nodes[at] == name
                    &&& forall|later: int| at < later < net.nodes.len() ==> #[trigger] net.nodes[later] != name
                }
            &&& forall|name: Seq<char>|
                #[trigger] net.contract_index.contains_key(name) <==> cnames.contains(name)
            &&& forall|name: Seq<char>|
                #[trigger] net.contract_index.contains_key(name) ==> {
                    let at = net.contract_index[name].0 as int;
                    &&& 0 <= at < cnames.len()
                    &&& cnames[at] == name
                    &&& forall|later: int| at < later < cnames.len() ==> #[trigger] cnames[later] != name
                }
        }),
{
    let net = spec_resolve(cfg, files)->Ok_0;
    let names = cfg.nodes.map_values(|n: NodeConfigV| n.name);
    let ccnames = cfg.contracts.map_values(|c: ContractConfigV| c.name);
    let n = cfg.contracts.len() as int;
    assert(contracts_upto(cfg.contracts, files, n) is Ok);
    lemma_contract_schema_paths(cfg.contracts, files, n);
    lemma_contracts_names(cfg.contracts, files, n);
    let cs = contracts_upto(cfg.contracts, files, n)->Ok_0.0;
    let cnames = net.contracts.map_values(|c: (Seq<char>, Transport, usize)| c.0);
    assert(net.contracts == cs);
    assert(cnames =~= ccnames);
    lemma_node_index_names(names, names.len() as int);
    lemma_contract_index_names(ccnames, ccnames.len() as int);
    assert(names.take(names.len() as int) =~= names);
    assert(ccnames.take(ccnames.len() as int) =~= ccnames);
    assert(net.nodes == names);
}

/// The contracts built from the first `k` tables carry their names.
proof fn lemma_contracts_names(ccs: Seq<ContractConfigV>, files: Seq<(Seq<char>, SchemaSourceV)>, k: int)
    requires
        0 <= k <= ccs.len(),
        contracts_upto(ccs, files, k) is Ok,
    ensures
        contracts_upto(ccs, files, k)->Ok_0.0.len() == k,
        forall|i: int|
            0 <= i < k ==> (#[trigger] contracts_upto(ccs, files, k)->Ok_0.0[i]).0 == ccs[i].name,
    decreases k,
{
    if k > 0 {
        lemma_contracts_names(ccs, files, k - 1);
    }
}

// ---------------------------------------------------------------------------
// How many schemas a description makes
// ---------------------------------------------------------------------------

/// One of the first `k` contracts names the schema path `p`.
pub open spec fn path_named_before(ccs: Seq<ContractConfigV>, k: int, p: Seq<char>) -> bool {
    exists|i: int| 0 <= i < k && #[trigger] ccs[i].schema == Some(p)
}

/// The number of schemas the first `k` contracts make: one for each schema
/// path at its first naming, and one for each contract without a path.
pub open spec fn schema_count_upto(ccs: Seq<ContractConfigV>, k: int) -> nat
    decreases k,
{
    if k <= 0 {
        0
    } else {
        schema_count_upto(ccs, k - 1) + match ccs[k - 1].schema {
            Some(p) => if path_named_before(ccs, k - 1, p) {
                0nat
            } else {
                1nat
            },
            None => 1nat,
        }
    }
}

proof fn lemma_schema_count(ccs: Seq<ContractConfigV>, files: Seq<(Seq<char>, SchemaSourceV)>, k: int)
    requires
        0 <= k <= ccs.len(),
        contracts_upto(ccs, files, k) is Ok,
    ensures
        ({
            let (cs, ss, ps) = contracts_upto(ccs, files, k)->Ok_0;
            &&& ss.len() == schema_count_upto(ccs, k)
            &&& forall|p: Seq<char>| #[trigger] ps.contains_key(p) <==> path_named_before(ccs, k, p)
        }),
    decreases k,
{
    if k > 0 {
        lemma_schema_count(ccs, files, k - 1);
        let (cs, ss, ps) = contracts_upto(ccs, files, k - 1)->Ok_0;
        let (cs2, ss2, ps2) = contracts_upto(ccs, files, k)->Ok_0;
        let cc = ccs[k - 1];
        assert(resolve_schema_spec(cc, files, ss, ps) is Ok);
        assert forall|p: Seq<char>| #[trigger] ps2.contains_key(p) <==> path_named_before(ccs, k, p) by {
            if path_named_before(ccs, k, p) && !path_named_before(ccs, k - 1, p) {
                let i = choose|i: int| 0 <= i < k && #[trigger] ccs[i].schema == Some(p);
                assert(i == k - 1);
            }
            if path_named_before(ccs, k - 1, p) {
                let i = choose|i: int| 0 <= i < k - 1 && #[trigger] ccs[i].schema == Some(p);
                assert(ccs[i].schema == Some(p));
            }
            if cc.schema == Some(p) {
                assert(ccs[k - 1].schema == Some(p));
            }
        }
    }
}

/// A description makes one schema per distinct schema path that its
/// contracts name, and one per contract with inline fields.
pub proof fn law_schema_count(cfg: NetworkConfigV, files: Seq<(Seq<char>, SchemaSourceV)>)
    requires
        spec_resolve(cfg, files) is Ok,
    ensures
        spec_resolve(cfg, files)->Ok_0.schemas.len() == schema_count_upto(
            cfg.contracts,
            cfg.contracts.len() as int,
        ),
{
    let n = cfg.contracts.len() as int;
    assert(contracts_upto(cfg.contracts, files, n) is Ok);
    lemma_schema_count(cfg.contracts, files, n);
}

// ---------------------------------------------------------------------------
// Contracts and their schemas
// ---------------------------------------------------------------------------

/// The contracts built from the first `k` tables carry their names and the
/// transports their transport names stand for.
proof fn lemma_contracts_transports(
    ccs: Seq<ContractConfigV>,
    files: Seq<(Seq<char>, SchemaSourceV)>,
    k: int,
)
    requires
        0 <= k <= ccs.len(),
        contracts_upto(ccs, files, k) is Ok,
    ensures
        contracts_upto(ccs, files, k)->Ok_0.0.len() == k,
        forall|i: int|
            0 <= i < k ==> (#[trigger] contracts_upto(ccs, files, k)->Ok_0.0[i]).0 == ccs[i].name
                && spec_transport(ccs[i].transport) == Some(
                contracts_upto(ccs, files, k)->Ok_0.0[i].1,
            ),
    decreases k,
{
    if k > 0 {
        lemma_contracts_transports(ccs, files, k - 1);
    }
}

/// A resolved network keeps the description's nodes and contracts in order:
/// each node under its name, each contract under its name with the
/// transport that its transport name stands for.
pub proof fn law_resolved_contracts_follow_description(
    cfg: NetworkConfigV,
    files: Seq<(Seq<char>, SchemaSourceV)>,
)
    requires
        spec_resolve(cfg, files) is Ok,
    ensures
        ({
            let net = spec_resolve(cfg, files)->Ok_0;
            &&& net.nodes.len() == cfg.nodes.len()
            &&& forall|i: int| 0 <= i < cfg.nodes.len() ==> #[trigger] net.nodes[i] == cfg.nodes[i].name
            &&& net.contracts.len() == cfg.contracts.len()
            &&& forall|j: int|
                0 <= j < cfg.contracts.len() ==> (#[trigger] net.contracts[j]).0 == cfg.contracts[j].name
                    && spec_transport(cfg.contracts[j].transport) == Some(net.contracts[j].1)
        }),
{
    let n = cfg.contracts.len() as int;
    assert(contracts_upto(cfg.contracts, files, n) is Ok);
    lemma_contracts_transports(cfg.contracts, files, n);
}

/// The first `k` inline fields resolve exactly when each type name names a
/// primitive type, to the fields with those types; otherwise the first type
/// name that names none is reported.
pub proof fn law_inline_fields(fs: Seq<(Seq<char>, Seq<char>)>, k: int)
    requires
        0 <= k <= fs.len(),
    ensures
        (forall|j: int| 0 <= j < k ==> #[trigger] spec_primitive(fs[j].1) is Some) ==> inline_fields(
            fs,
            k,
        ) == Ok::<Seq<(Seq<char>, FieldTypeV)>, Seq<char>>(
            fs.take(k).map_values(
                |f: (Seq<char>, Seq<char>)| (f.0, spec_primitive(f.1)->Some_0),
            ),
        ),
        forall|m: int|
            0 <= m < k && spec_primitive(fs[m].1) is None && (forall|j: int|
                0 <= j < m ==> #[trigger] spec_primitive(fs[j].1) is Some) ==> inline_fields(fs, k)
                == Err::<Seq<(Seq<char>, FieldTypeV)>, Seq<char>>(#[trigger] fs[m].1),
    decreases k,
{
    if k == 0 {
        assert(fs.take(0).map_values(|f: (Seq<char>, Seq<char>)| (f.0, spec_primitive(f.1)->Some_0))
            =~= Seq::<(Seq<char>, FieldTypeV)>::empty());
    } else {
        law_inline_fields(fs, k - 1);
        if forall|j: int| 0 <= j < k ==> #[trigger] spec_primitive(fs[j].1) is Some {
            assert(spec_primitive(fs[k - 1].1) is Some);
            assert(forall|j: int| 0 <= j < k - 1 ==> #[trigger] spec_primitive(fs[j].1) is Some);
            assert(fs.take(k).map_values(|f: (Seq<char>, Seq<char>)| (f.0, spec_primitive(f.1)->Some_0))
                =~= fs.take(k - 1).map_values(
                |f: (Seq<char>, Seq<char>)| (f.0, spec_primitive(f.1)->Some_0),
            ).push((fs[k - 1].0, spec_primitive(fs[k - 1].1)->Some_0)));
        }
        assert forall|m: int|
            0 <= m < k && spec_primitive(fs[m].1) is None && (forall|j: int|
                0 <= j < m ==> #[trigger] spec_primitive(fs[j].1) is Some) implies inline_fields(fs, k)
            == Err::<Seq<(Seq<char>, FieldTypeV)>, Seq<char>>(#[trigger] fs[m].1) by {
            if m == k - 1 {
                assert(forall|j: int| 0 <= j < k - 1 ==> #[trigger] spec_primitive(fs[j].1) is Some);
            }
        }
    }
}

/// The schema of one contract:
/// - a schema path already read is reused, with nothing read or added;
/// - a path to no file gives `SchemaNotFound` with the path;
/// - a file that reads and parses adds a schema named by the file's stem,
///   holding its structs, at the next position, and indexes the path there;
/// - a file that reads but does not parse gives `SchemaParse` for the file;
/// - without a path, inline fields whose types all name primitive types add
///   a schema named after the contract, holding one struct named in
///   PascalCase after it with those fields;
/// - without a path, the first inline type that names no primitive type is
///   reported as `UnknownFieldType`;
/// - without a path or fields, `NoSchema` names the contract.
pub proof fn law_schema_of_a_contract(
    cc: ContractConfigV,
    files: Seq<(Seq<char>, SchemaSourceV)>,
    schemas: Seq<SchemaV>,
    paths: Map<Seq<char>, SchemaIdx>,
)
    ensures
        ({
            let p = cc.schema->Some_0;
            let file = find_file(files, p);
            let idx = SchemaIdx(schemas.len() as usize);
            let r = resolve_schema_spec(cc, files, schemas, paths);
            &&& cc.schema is Some && paths.contains_key(p) ==> r == Ok::<_, NexusCoreErrorV>(
                (paths[p], schemas, paths),
            )
            &&& cc.schema is Some && !paths.contains_key(p) && file is Missing ==> r == Err::<
                (SchemaIdx, Seq<SchemaV>, Map<Seq<char>, SchemaIdx>),
                _,
            >(NexusCoreErrorV::SchemaNotFound(p))
            &&& cc.schema is Some && !paths.contains_key(p) && file is Loaded && spec_parse_nxs(
                file->Loaded_content,
            ) is Some ==> r == Ok::<_, NexusCoreErrorV>(
                (
                    idx,
                    schemas.push((file->Loaded_stem, spec_parse_nxs(file->Loaded_content)->Some_0)),
                    paths.insert(p, idx),
                ),
            )
            &&& cc.schema is Some && !paths.contains_key(p) && file is Loaded && spec_parse_nxs(
                file->Loaded_content,
            ) is None ==> r == Err::<(SchemaIdx, Seq<SchemaV>, Map<Seq<char>, SchemaIdx>), _>(
                NexusCoreErrorV::SchemaParse {
                    path: file->Loaded_path,
                    message: schema_syntax_message(),
                },
            )
            &&& cc.schema is None && cc.fields.len() > 0 && (forall|j: int|
                0 <= j < cc.fields.len() ==> #[trigger] spec_primitive(cc.fields[j].1) is Some) ==> r
                == Ok::<_, NexusCoreErrorV>(
                (
                    idx,
                    schemas.push(
                        (
                            cc.name,
                            seq![
                                (
                                    pascal(cc.name),
                                    cc.fields.map_values(
                                        |f: (Seq<char>, Seq<char>)|
                                            (f.0, spec_primitive(f.1)->Some_0),
                                    ),
                                ),
                            ],
                        ),
                    ),
                    paths,
                ),
            )
            &&& forall|m: int|
                cc.schema is None && 0 <= m < cc.fields.len() && spec_primitive(cc.fields[m].1)
                    is None && (forall|j: int|
                    0 <= j < m ==> #[trigger] spec_primitive(cc.fields[j].1) is Some) ==> r
                    == Err::<(SchemaIdx, Seq<SchemaV>, Map<Seq<char>, SchemaIdx>), _>(
                    NexusCoreErrorV::UnknownFieldType(#[trigger] cc.fields[m].1),
                )
            &&& cc.schema is None && cc.fields.len() == 0 ==> r == Err::<
                (SchemaIdx, Seq<SchemaV>, Map<Seq<char>, SchemaIdx>),
                _,
            >(NexusCoreErrorV::NoSchema { contract: cc.name })
        }),
{
    law_inline_fields(cc.fields, cc.fields.len() as int);
    assert(cc.fields.take(cc.fields.len() as int) =~= cc.fields);
}

/// A schema path is read once: once a contract naming path `p` has its
/// schema, a later contract naming `p` gets the same schema, and nothing is
/// read or added for it.
pub proof fn law_schema_path_reused(
    first: ContractConfigV,
    later: ContractConfigV,
    files: Seq<(Seq<char>, SchemaSourceV)>,
    schemas: Seq<SchemaV>,
    paths: Map<Seq<char>, SchemaIdx>,
)
    requires
        first.schema is Some,
        later.schema == first.schema,
        resolve_schema_spec(first, files, schemas, paths) is Ok,
    ensures
        ({
            let (idx, ss, ps) = resolve_schema_spec(first, files, schemas, paths)->Ok_0;
            resolve_schema_spec(later, files, ss, ps) == Ok::<_, NexusCoreErrorV>((idx, ss, ps))
        }),
{
}

} // verus!
