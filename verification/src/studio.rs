//! The network description as the visual editor exchanges it, and its
//! conversion from and to `network.toml` text.

use vstd::prelude::*;

use crate::document::{
    array_at, array_item_at, items_view, lemma_items_view, parse_document, str_at, str_item_at,
    toml_document, TomlItem, TomlValue,
};
use crate::error::{NexusCoreError, NexusCoreErrorV};

verus! {

/// One edge of a node as the editor shows it: the contract, and the peer
/// (`to` for sends, `from` for receives).
#[derive(Clone, Debug, PartialEq)]
pub struct EdgeDto {
    pub contract: String,
    pub peer: String,
}

impl View for EdgeDto {
    type V = (Seq<char>, Seq<char>);

    open spec fn view(&self) -> (Seq<char>, Seq<char>) {
        (self.contract@, self.peer@)
    }
}

/// One node as the editor shows it.
#[derive(Clone, Debug, PartialEq)]
pub struct NodeDto {
    pub name: String,
    pub sends: Vec<EdgeDto>,
    pub receives: Vec<EdgeDto>,
}

pub struct NodeDtoV {
    pub name: Seq<char>,
    pub sends: Seq<(Seq<char>, Seq<char>)>,
    pub receives: Seq<(Seq<char>, Seq<char>)>,
}

impl View for NodeDto {
    type V = NodeDtoV;

    open spec fn view(&self) -> NodeDtoV {
        NodeDtoV {
            name: self.name@,
            sends: self.sends@.map_values(|e: EdgeDto| e@),
            receives: self.receives@.map_values(|e: EdgeDto| e@),
        }
    }
}

/// One contract as the editor shows it.
#[derive(Clone, Debug, PartialEq)]
pub struct ContractDto {
    pub name: String,
    pub transport: String,
    /// Schema path or empty string for inline-fields contracts
    pub schema: String,
}

impl View for ContractDto {
    type V = (Seq<char>, Seq<char>, Seq<char>);

    open spec fn view(&self) -> (Seq<char>, Seq<char>, Seq<char>) {
        (self.name@, self.transport@, self.schema@)
    }
}

/// The whole network as the editor shows it.
#[derive(Clone, Debug, PartialEq)]
pub struct NetworkDto {
    pub nodes: Vec<NodeDto>,
    pub contracts: Vec<ContractDto>,
}

pub struct NetworkDtoV {
    pub nodes: Seq<NodeDtoV>,
    pub contracts: Seq<(Seq<char>, Seq<char>, Seq<char>)>,
}

impl View for NetworkDto {
    type V = NetworkDtoV;

    open spec fn view(&self) -> NetworkDtoV {
        NetworkDtoV {
            nodes: self.nodes@.map_values(|n: NodeDto| n@),
            contracts: self.contracts@.map_values(|c: ContractDto| c@),
        }
    }
}

// ---------------------------------------------------------------------------
// Writing network.toml
// ---------------------------------------------------------------------------

/// The texts one after the other.
pub open spec fn concat_all(s: Seq<Seq<char>>) -> Seq<char>
    decreases s.len(),
{
    if s.len() == 0 {
        Seq::empty()
    } else {
        concat_all(s.drop_last()) + s.last()
    }
}

/// `"<text>"`.
pub open spec fn quoted(s: Seq<char>) -> Seq<char> {
    "\""@ + s + "\""@
}

/// One inline table of an edge list: `  { contract = "c", <key> = "peer" },`.
pub open spec fn edge_line(e: (Seq<char>, Seq<char>), key: Seq<char>) -> Seq<char> {
    "  { contract = "@ + quoted(e.0) + ", "@ + key + " = "@ + quoted(e.1) + " },\n"@
}

/// An edge list `<key>s = [ ... ]`, or nothing when it is empty.
pub open spec fn edge_block(es: Seq<(Seq<char>, Seq<char>)>, list: Seq<char>, key: Seq<char>) -> Seq<
    char,
> {
    if es.len() == 0 {
        Seq::empty()
    } else {
        list + " = [\n"@ + concat_all(es.map_values(|e: (Seq<char>, Seq<char>)| edge_line(e, key)))
            + "]\n"@
    }
}

/// The `[[nodes]]` table of a node, followed by an empty line.
pub open spec fn node_text(n: NodeDtoV) -> Seq<char> {
    "[[nodes]]\n"@ + "name = "@ + quoted(n.name) + "\n"@ + edge_block(n.sends, "sends"@, "to"@)
        + edge_block(n.receives, "receives"@, "from"@) + "\n"@
}

/// The `[[contracts]]` table of a contract, followed by an empty line; the
/// schema line only when the schema is not empty.
pub open spec fn contract_text(c: (Seq<char>, Seq<char>, Seq<char>)) -> Seq<char> {
    "[[contracts]]\n"@ + "name = "@ + quoted(c.0) + "\n"@ + "transport = "@ + quoted(c.1) + "\n"@
        + if c.2.len() > 0 {
        "schema = "@ + quoted(c.2) + "\n"@
    } else {
        Seq::empty()
    } + "\n"@
}

/// The `network.toml` text of a network: its nodes, then its contracts.
pub open spec fn spec_dto_to_toml(dto: NetworkDtoV) -> Seq<char> {
    concat_all(dto.nodes.map_values(|n: NodeDtoV| node_text(n))) + concat_all(
        dto.contracts.map_values(|c: (Seq<char>, Seq<char>, Seq<char>)| contract_text(c)),
    )
}

proof fn lemma_concat_push(s: Seq<Seq<char>>, x: Seq<char>)
    ensures
        concat_all(s.push(x)) == concat_all(s) + x,
{
    assert(s.push(x).drop_last() =~= s);
}

/// The texts up to `k` one after the other, then the text `k`.
proof fn lemma_concat_take_step(s: Seq<Seq<char>>, k: int)
    requires
        0 <= k < s.len(),
    ensures
        concat_all(s.take(k + 1)) == concat_all(s.take(k)) + s[k],
{
    assert(s.take(k + 1).drop_last() =~= s.take(k));
}

/// The texts up to `k`, one after the other, begin the whole concatenation.
proof fn lemma_concat_prefix(s: Seq<Seq<char>>, k: int)
    requires
        0 <= k <= s.len(),
    ensures
        concat_all(s.take(k)).len() <= concat_all(s).len(),
        concat_all(s).subrange(0, concat_all(s.take(k)).len() as int) == concat_all(s.take(k)),
    decreases s.len() - k,
{
    if k == s.len() {
        assert(s.take(k) =~= s);
        assert(concat_all(s).subrange(0, concat_all(s).len() as int) =~= concat_all(s));
    } else {
        lemma_concat_prefix(s, k + 1);
        lemma_concat_take_step(s, k);
        let a = concat_all(s.take(k));
        let b = concat_all(s.take(k + 1));
        assert(concat_all(s).subrange(0, a.len() as int) =~= b.subrange(0, a.len() as int));
        assert(b.subrange(0, a.len() as int) =~= a);
    }
}

/// An edge list has one line per edge, in order: after its opening line
/// `<list> = [`, the line of edge `i` starts where the lines of the edges
/// before it end, and `]` closes the list after the last one.
pub proof fn law_edge_list_has_a_line_per_edge(
    es: Seq<(Seq<char>, Seq<char>)>,
    list: Seq<char>,
    key: Seq<char>,
)
    requires
        es.len() > 0,
    ensures
        ({
            let lines = es.map_values(|e: (Seq<char>, Seq<char>)| edge_line(e, key));
            let block = edge_block(es, list, key);
            let head = list + " = [\n"@;
            &&& block.subrange(0, head.len() as int) == head
            &&& forall|i: int|
                0 <= i < es.len() ==> block.subrange(
                    (head.len() + concat_all(lines.take(i)).len()) as int,
                    (head.len() + concat_all(lines.take(i + 1)).len()) as int,
                ) == edge_line(#[trigger] es[i], key)
            &&& block.subrange((head.len() + concat_all(lines).len()) as int, block.len() as int) == "]\n"@
        }),
{
    let lines = es.map_values(|e: (Seq<char>, Seq<char>)| edge_line(e, key));
    let block = edge_block(es, list, key);
    let head = list + " = [\n"@;
    let body = concat_all(lines);
    assert(block == head + body + "]\n"@);
    assert(block.subrange(0, head.len() as int) =~= head);
    assert(block.subrange((head.len() + body.len()) as int, block.len() as int) =~= "]\n"@);
    assert forall|i: int| 0 <= i < es.len() implies block.subrange(
        (head.len() + concat_all(lines.take(i)).len()) as int,
        (head.len() + concat_all(lines.take(i + 1)).len()) as int,
    ) == edge_line(#[trigger] es[i], key) by {
        lemma_concat_take_step(lines, i);
        lemma_concat_prefix(lines, i + 1);
        let a = concat_all(lines.take(i));
        let b = concat_all(lines.take(i + 1));
        assert(b == a + lines[i]);
        assert(body.subrange(0, b.len() as int) == b);
        assert(block.subrange((head.len() + a.len()) as int, (head.len() + b.len()) as int) =~= body.subrange(
            a.len() as int,
            b.len() as int,
        ));
        assert(body.subrange(a.len() as int, b.len() as int) =~= b.subrange(
            a.len() as int,
            b.len() as int,
        ));
        assert(b.subrange(a.len() as int, b.len() as int) =~= lines[i]);
    }
}

/// Append `"<s>"`.
fn push_quoted(out: &mut String, s: &str)
    ensures
        final(out)@ == old(out)@ + quoted(s@),
{
    out.append("\"");
    out.append(s);
    out.append("\"");
    assert(final(out)@ =~= old(out)@ + quoted(s@));
}

/// Append an edge list under `list`, each peer under `key`.
fn push_edges(out: &mut String, es: &Vec<EdgeDto>, list: &str, key: &str)
    ensures
        final(out)@ == old(out)@ + edge_block(es@.map_values(|e: EdgeDto| e@), list@, key@),
{
    let ghost ev = es@.map_values(|e: EdgeDto| e@);
    let ghost lines = ev.map_values(|e: (Seq<char>, Seq<char>)| edge_line(e, key@));
    if es.len() == 0 {
        assert(out@ =~= out@ + Seq::<char>::empty());
        return;
    }
    let ghost start = out@;
    out.append(list);
    out.append(" = [\n");
    let ghost head = out@;
    assert(lines.take(0) =~= Seq::<Seq<char>>::empty());
    assert(head =~= head + concat_all(lines.take(0)));
    let mut i: usize = 0;
    while i < es.len()
        invariant
            i <= es@.len(),
            ev == es@.map_values(|e: EdgeDto| e@),
            lines == ev.map_values(|e: (Seq<char>, Seq<char>)| edge_line(e, key@)),
            out@ == head + concat_all(lines.take(i as int)),
        decreases es@.len() - i,
    {
        let e = &es[i];
        let ghost before = out@;
        out.append("  { contract = ");
        push_quoted(out, e.contract.as_str());
        out.append(", ");
        out.append(key);
        out.append(" = ");
        push_quoted(out, e.peer.as_str());
        out.append(" },\n");
        proof {
            assert(out@ =~= before + edge_line(e@, key@));
            assert(lines.take(i + 1) =~= lines.take(i as int).push(lines[i as int]));
            lemma_concat_push(lines.take(i as int), lines[i as int]);
            assert(lines[i as int] == edge_line(e@, key@));
        }
        i += 1;
    }
    out.append("]\n");
    assert(lines.take(es@.len() as int) =~= lines);
    assert(out@ =~= start + (list@ + " = [\n"@ + concat_all(lines) + "]\n"@));
}

/// Append the `[[nodes]]` table of a node.
fn push_node(out: &mut String, node: &NodeDto)
    ensures
        final(out)@ == old(out)@ + node_text(node@),
{
    let ghost before = out@;
    out.append("[[nodes]]\n");
    out.append("name = ");
    push_quoted(out, node.name.as_str());
    out.append("\n");
    push_edges(out, &node.sends, "sends", "to");
    push_edges(out, &node.receives, "receives", "from");
    out.append("\n");
    assert(out@ =~= before + node_text(node@));
}

/// Append the `[[contracts]]` table of a contract.
fn push_contract(out: &mut String, c: &ContractDto)
    ensures
        final(out)@ == old(out)@ + contract_text(c@),
{
    let ghost before = out@;
    out.append("[[contracts]]\n");
    out.append("name = ");
    push_quoted(out, c.name.as_str());
    out.append("\n");
    out.append("transport = ");
    push_quoted(out, c.transport.as_str());
    out.append("\n");
    if c.schema.as_str().unicode_len() > 0 {
        out.append("schema = ");
        push_quoted(out, c.schema.as_str());
        out.append("\n");
    }
    out.append("\n");
    assert(out@ =~= before + contract_text(c@));
}

/// Serialise a network back to `network.toml` text.
pub fn dto_to_toml(dto: &NetworkDto) -> (r: String)
    ensures
        r@ == spec_dto_to_toml(dto@),
{
    let ghost nodes = dto@.nodes.map_values(|n: NodeDtoV| node_text(n));
    let ghost contracts = dto@.contracts.map_values(
        |c: (Seq<char>, Seq<char>, Seq<char>)| contract_text(c),
    );
    let mut out = String::new();
    assert(nodes.take(0) =~= Seq::<Seq<char>>::empty());
    let mut i: usize = 0;
    while i < dto.nodes.len()
        invariant
            i <= dto.nodes@.len(),
            nodes == dto@.nodes.map_values(|n: NodeDtoV| node_text(n)),
            out@ == concat_all(nodes.take(i as int)),
        decreases dto.nodes@.len() - i,
    {
        let node = &dto.nodes[i];
        push_node(&mut out, node);
        proof {
            assert(dto@.nodes[i as int] == node@);
            assert(nodes.take(i + 1) =~= nodes.take(i as int).push(nodes[i as int]));
            lemma_concat_push(nodes.take(i as int), nodes[i as int]);
        }
        i += 1;
    }
    assert(nodes.take(dto.nodes@.len() as int) =~= nodes);
    let ghost node_part = out@;
    assert(contracts.take(0) =~= Seq::<Seq<char>>::empty());
    assert(node_part =~= node_part + concat_all(contracts.take(0)));
    let mut i: usize = 0;
    while i < dto.contracts.len()
        invariant
            i <= dto.contracts@.len(),
            contracts == dto@.contracts.map_values(
                |c: (Seq<char>, Seq<char>, Seq<char>)| contract_text(c),
            ),
            out@ == node_part + concat_all(contracts.take(i as int)),
        decreases dto.contracts@.len() - i,
    {
        let c = &dto.contracts[i];
        push_contract(&mut out, c);
        proof {
            assert(dto@.contracts[i as int] == c@);
            assert(contracts.take(i + 1) =~= contracts.take(i as int).push(contracts[i as int]));
            lemma_concat_push(contracts.take(i as int), contracts[i as int]);
        }
        i += 1;
    }
    assert(contracts.take(dto.contracts@.len() as int) =~= contracts);
    out
}

// ---------------------------------------------------------------------------
// Reading network.toml
// ---------------------------------------------------------------------------

/// An edge read from an inline table: its contract and the string under
/// `peer` (`to` or `from`); a missing string is empty.
pub open spec fn edge_from(e: TomlValue, peer: Seq<char>) -> (Seq<char>, Seq<char>) {
    (str_at(e, "contract"@), str_at(e, peer))
}

/// A node read from a `[[nodes]]` table.
pub open spec fn node_from(n: TomlValue) -> NodeDtoV {
    NodeDtoV {
        name: str_at(n, "name"@),
        sends: array_at(n, "sends"@).map_values(|e: TomlValue| edge_from(e, "to"@)),
        receives: array_at(n, "receives"@).map_values(|e: TomlValue| edge_from(e, "from"@)),
    }
}

/// A contract read from a `[[contracts]]` table.
pub open spec fn contract_from(c: TomlValue) -> (Seq<char>, Seq<char>, Seq<char>) {
    (str_at(c, "name"@), str_at(c, "transport"@), str_at(c, "schema"@))
}

/// The network that a parsed `network.toml` describes for the editor: the
/// tables of `nodes` and `contracts`, where a missing string reads as empty
/// and a missing list as no entries.
pub open spec fn spec_dto_from(doc: TomlValue) -> NetworkDtoV {
    NetworkDtoV {
        nodes: array_at(doc, "nodes"@).map_values(|n: TomlValue| node_from(n)),
        contracts: array_at(doc, "contracts"@).map_values(|c: TomlValue| contract_from(c)),
    }
}

fn edges_from(n: &TomlItem, list: &String, peer: &String) -> (r: Vec<EdgeDto>)
    ensures
        r@.map_values(|e: EdgeDto| e@) == array_at(n@, list@).map_values(
            |e: TomlValue| edge_from(e, peer@),
        ),
{
    let mut r: Vec<EdgeDto> = Vec::new();
    let contract_key = "contract".to_owned();
    match array_item_at(n, list) {
        None => {
            assert(r@.map_values(|e: EdgeDto| e@) =~= Seq::<(Seq<char>, Seq<char>)>::empty());
        },
        Some(a) => {
            let ghost want = array_at(n@, list@).map_values(|e: TomlValue| edge_from(e, peer@));
            proof {
                lemma_items_view(a@);
            }
            let mut i: usize = 0;
            while i < a.len()
                invariant
                    i <= a@.len(),
                    contract_key@ == "contract"@,
                    array_at(n@, list@) == items_view(a@),
                    items_view(a@).len() == a@.len(),
                    forall|k: int|
                        0 <= k < a@.len() ==> #[trigger] items_view(a@)[k]
                            == a@[k]@,
                    want == array_at(n@, list@).map_values(|e: TomlValue| edge_from(e, peer@)),
                    r@.map_values(|e: EdgeDto| e@) == want.take(i as int),
                decreases a@.len() - i,
            {
                let e = &a[i];
                let d = EdgeDto { contract: str_item_at(e, &contract_key), peer: str_item_at(e, peer) };
                let ghost old_r = r@;
                r.push(d);
                proof {
                    assert(items_view(a@)[i as int] == a@[i as int]@);
                    assert(want[i as int] == edge_from(a@[i as int]@, peer@));
                    assert(d@ == edge_from(a@[i as int]@, peer@));
                    assert(r@ == old_r.push(d));
                    assert(r@.map_values(|e: EdgeDto| e@) =~= old_r.map_values(|e: EdgeDto| e@).push(d@));
                    assert(r@.map_values(|e: EdgeDto| e@) =~= want.take(i + 1));
                }
                i += 1;
            }
            assert(want.take(a@.len() as int) =~= want);
        },
    }
    r
}

fn node_dto_from(n: &TomlItem) -> (r: NodeDto)
    ensures
        r@ == node_from(n@),
{
    let name = str_item_at(n, &"name".to_owned());
    let sends = edges_from(n, &"sends".to_owned(), &"to".to_owned());
    let receives = edges_from(n, &"receives".to_owned(), &"from".to_owned());
    NodeDto { name, sends, receives }
}

fn contract_dto_from(c: &TomlItem) -> (r: ContractDto)
    ensures
        r@ == contract_from(c@),
{
    ContractDto {
        name: str_item_at(c, &"name".to_owned()),
        transport: str_item_at(c, &"transport".to_owned()),
        schema: str_item_at(c, &"schema".to_owned()),
    }
}

/// The network that a parsed `network.toml` describes for the editor.
pub fn dto_from_toml(doc: &TomlItem) -> (r: NetworkDto)
    ensures
        r@ == spec_dto_from(doc@),
{
    let mut nodes: Vec<NodeDto> = Vec::new();
    let ghost want_nodes = array_at(doc@, "nodes"@).map_values(|n: TomlValue| node_from(n));
    match array_item_at(doc, &"nodes".to_owned()) {
        None => {
            assert(nodes@.map_values(|n: NodeDto| n@) =~= want_nodes);
        },
        Some(a) => {
            proof {
                lemma_items_view(a@);
            }
            let mut i: usize = 0;
            while i < a.len()
                invariant
                    i <= a@.len(),
                    array_at(doc@, "nodes"@) == items_view(a@),
                    items_view(a@).len() == a@.len(),
                    forall|k: int|
                        0 <= k < a@.len() ==> #[trigger] items_view(a@)[k]
                            == a@[k]@,
                    want_nodes == array_at(doc@, "nodes"@).map_values(|n: TomlValue| node_from(n)),
                    nodes@.map_values(|n: NodeDto| n@) == want_nodes.take(i as int),
                decreases a@.len() - i,
            {
                let d = node_dto_from(&a[i]);
                let ghost old_nodes = nodes@;
                nodes.push(d);
                proof {
                    assert(items_view(a@)[i as int] == a@[i as int]@);
                    assert(want_nodes[i as int] == node_from(a@[i as int]@));
                    assert(nodes@.map_values(|n: NodeDto| n@) =~= old_nodes.map_values(|n: NodeDto| n@).push(d@));
                    assert(nodes@.map_values(|n: NodeDto| n@) =~= want_nodes.take(i + 1));
                }
                i += 1;
            }
            assert(want_nodes.take(a@.len() as int) =~= want_nodes);
        },
    }
    let mut contracts: Vec<ContractDto> = Vec::new();
    let ghost want_contracts = array_at(doc@, "contracts"@).map_values(
        |c: TomlValue| contract_from(c),
    );
    match array_item_at(doc, &"contracts".to_owned()) {
        None => {
            assert(contracts@.map_values(|c: ContractDto| c@) =~= want_contracts);
        },
        Some(a) => {
            proof {
                lemma_items_view(a@);
            }
            let mut i: usize = 0;
            while i < a.len()
                invariant
                    i <= a@.len(),
                    array_at(doc@, "contracts"@) == items_view(a@),
                    items_view(a@).len() == a@.len(),
                    forall|k: int|
                        0 <= k < a@.len() ==> #[trigger] items_view(a@)[k]
                            == a@[k]@,
                    want_contracts == array_at(doc@, "contracts"@).map_values(
                        |c: TomlValue| contract_from(c),
                    ),
                    contracts@.map_values(|c: ContractDto| c@) == want_contracts.take(i as int),
                decreases a@.len() - i,
            {
                let d = contract_dto_from(&a[i]);
                let ghost old_contracts = contracts@;
                contracts.push(d);
                proof {
                    assert(items_view(a@)[i as int] == a@[i as int]@);
                    assert(want_contracts[i as int] == contract_from(a@[i as int]@));
                    assert(contracts@.map_values(|c: ContractDto| c@) =~= old_contracts.map_values(|c: ContractDto| c@).push(d@));
                    assert(contracts@.map_values(|c: ContractDto| c@) =~= want_contracts.take(
                        i + 1,
                    ));
                }
                i += 1;
            }
            assert(want_contracts.take(a@.len() as int) =~= want_contracts);
        },
    }
    let r = NetworkDto { nodes, contracts };
    assert(r@.nodes =~= want_nodes);
    assert(r@.contracts =~= want_contracts);
    r
}

/// Read `network.toml` text into the editor's network: `Err(TomlParse)`
/// with the parser's message exactly when the text is not TOML.
pub fn toml_to_dto(toml_str: &str) -> (r: Result<NetworkDto, NexusCoreError>)
    ensures
        match toml_document(toml_str@) {
            Ok(doc) => r matches Ok(dto) && dto@ == spec_dto_from(doc),
            Err(m) => r matches Err(e) && e@ == NexusCoreErrorV::TomlParse(m),
        },
{
    match parse_document(toml_str) {
        Ok(doc) => Ok(dto_from_toml(&doc)),
        Err(m) => Err(NexusCoreError::TomlParse(m)),
    }
}

} // verus!
