//! Nix derivations: one `nix/<node>.nix` per node and a top-level
//! `nexus.nix` that imports them all.

use vstd::prelude::*;

use crate::codegen::{files_view, GeneratedFile};
use crate::error::CodegenError;
use crate::template::{new_environment, render_named_str, render_text, renders, TemplateContext};
use crate::text::{
    append_strings, dedup, dedup_strings, dedup_upto, lemma_lex_total_ordering, lex_leq, sort_strings,
    strings_view,
};
use vstd::seq_lib::to_multiset_contains;
use crate::types::{Network, Transport};

verus! {

/// The derivation of one node.
pub const NODE_NIX_TMPL: &'static str = r#"{ pkgs ? import <nixpkgs> {}, src ? ./.. }:

pkgs.stdenv.mkDerivation {
  pname = "nexus-{{ node_name }}";
  version = "0.1.0";

  inherit src;
{% if has_grpc or has_http or has_http_server %}
  nativeBuildInputs = [ pkgs.pkg-config ];
{% endif %}
{% if has_grpc or has_http or has_http_server %}
  buildInputs = [
    {% if has_grpc %}pkgs.grpc{% endif %}
    {% if has_http %}pkgs.curl{% endif %}
    {% if has_http_server %}pkgs.libmicrohttpd{% endif %}
  ];
{% endif %}

  buildPhase = ''
    gcc -shared -fPIC \
      -I include \
{% if has_grpc %}      $(pkg-config --cflags grpc) \
{% endif %}{% if has_http %}      $(pkg-config --cflags libcurl) \
{% endif %}{% if has_http_server %}      $(pkg-config --cflags libmicrohttpd) \
{% endif %}      {% for c in server_contracts %}src/nexus_{{ c }}_server.c {% endfor %}\
      {% for c in client_contracts %}src/nexus_{{ c }}.c {% endfor %}\
{% if has_grpc_server %}      src/nexus_grpc_runtime.c \
{% endif %}{% if has_http_server %}      src/nexus_http_runtime.c \
{% endif %}{% if has_grpc %}      $(pkg-config --libs grpc) \
{% endif %}{% if has_http %}      $(pkg-config --libs libcurl) \
{% endif %}{% if has_http_server %}      $(pkg-config --libs libmicrohttpd) \
{% endif %}{% if has_iceoryx %}      -lrt \
{% endif %}{% if has_grpc_server or has_http_server %}      -lpthread \
{% endif %}      -o libnexus-{{ node_name }}.so
  '';

  installPhase = ''
    mkdir -p $out/lib $out/include $out/lib/pkgconfig
    cp libnexus-{{ node_name }}.so $out/lib/
    {% for contract_name in all_contract_names %}cp include/nexus_{{ contract_name }}.h $out/include/
    {% endfor %}cp include/nexus_{{ node_name }}.h $out/include/

    cat > $out/lib/pkgconfig/nexus-{{ node_name }}.pc << PKGEOF
Name: nexus-{{ node_name }}
Version: 0.1.0
Libs: -L$out/lib -lnexus-{{ node_name }}
Cflags: -I$out/include
PKGEOF
  '';
}
"#;

/// The top-level file importing every node's derivation.
pub const NEXUS_NIX_TMPL: &'static str = r#"{ pkgs ? import <nixpkgs> {}, src ? null }:

{
  {% for node_name in node_names %}{{ node_name }} = import ./nix/{{ node_name }}.nix { inherit pkgs src; };
  {% endfor %}
}
"#;

// ---------------------------------------------------------------------------
// Specification
// ---------------------------------------------------------------------------

/// What a node's derivation needs: the contracts it serves (sends over gRPC
/// or HTTP), those it uses through a client or symmetric implementation,
/// and which transports and servers are involved. `seen` holds the
/// contracts already looked at.
pub struct NixRolesV {
    pub seen: Set<usize>,
    pub server: Seq<Seq<char>>,
    pub client: Seq<Seq<char>>,
    pub grpc: bool,
    pub http: bool,
    pub iceoryx: bool,
    pub grpc_server: bool,
    pub http_server: bool,
}

/// The roles of node `node` after the first `k` edges. Only the first edge
/// of each contract is looked at, whichever nodes it connects; when node
/// `node` is one of its ends, the contract is served when the node sends it
/// over gRPC or HTTP, and used as a client otherwise (Iceoryx and Unix
/// socket implementations are symmetric; other transports have none).
pub open spec fn nix_roles_upto(net: &Network, node: int, k: int) -> NixRolesV
    decreases k,
{
    if k <= 0 {
        NixRolesV {
            seen: Set::empty(),
            server: Seq::empty(),
            client: Seq::empty(),
            grpc: false,
            http: false,
            iceoryx: false,
            grpc_server: false,
            http_server: false,
        }
    } else {
        let r = nix_roles_upto(net, node, k - 1);
        let e = net.edges@[k - 1];
        let c = e.contract.0;
        if r.seen.contains(c) {
            r
        } else {
            let r2 = NixRolesV { seen: r.seen.insert(c), ..r };
            let is_sender = e.from_node.0 == node;
            let is_receiver = e.to_node.0 == node;
            if !is_sender && !is_receiver {
                r2
            } else {
                let name = net.contracts@[c as int].name@;
                match net.contracts@[c as int].transport {
                    Transport::Grpc => if is_sender {
                        NixRolesV {
                            server: r2.server.push(name),
                            grpc: true,
                            grpc_server: true,
                            ..r2
                        }
                    } else {
                        NixRolesV { client: r2.client.push(name), grpc: true, ..r2 }
                    },
                    Transport::Http => if is_sender {
                        NixRolesV { server: r2.server.push(name), http_server: true, ..r2 }
                    } else {
                        NixRolesV { client: r2.client.push(name), http: true, ..r2 }
                    },
                    Transport::Iceoryx => NixRolesV {
                        client: r2.client.push(name),
                        iceoryx: true,
                        ..r2
                    },
                    Transport::UnixSocket => NixRolesV { client: r2.client.push(name), ..r2 },
                    _ => r2,
                }
            }
        }
    }
}

pub open spec fn nix_roles(net: &Network, node: int) -> NixRolesV {
    nix_roles_upto(net, node, net.edges@.len() as int)
}

/// The lists of a node's derivation: served contracts and client contracts
/// sorted, and all their names sorted without repeats.
pub open spec fn node_nix_lists(net: &Network, node: int) -> Seq<(Seq<char>, Seq<Seq<char>>)> {
    let r = nix_roles(net, node);
    let server = r.server.sort_by(lex_leq());
    let client = r.client.sort_by(lex_leq());
    seq![
        ("server_contracts"@, server),
        ("client_contracts"@, client),
        ("all_contract_names"@, dedup((server + client).sort_by(lex_leq()))),
    ]
}

pub open spec fn node_nix_flags(net: &Network, node: int) -> Seq<(Seq<char>, bool)> {
    let r = nix_roles(net, node);
    seq![
        ("has_grpc"@, r.grpc),
        ("has_http"@, r.http),
        ("has_iceoryx"@, r.iceoryx),
        ("has_grpc_server"@, r.grpc_server),
        ("has_http_server"@, r.http_server),
    ]
}

/// The derivation of node `node`.
pub open spec fn node_nix_file(net: &Network, node: int) -> (Seq<char>, Seq<char>) {
    let name = net.nodes@[node].name@;
    (
        "nix/"@ + name + ".nix"@,
        render_text(
            "node_nix"@,
            NODE_NIX_TMPL@,
            seq![("node_name"@, name)],
            node_nix_lists(net, node),
            node_nix_flags(net, node),
        ),
    )
}

/// The top-level `nexus.nix`.
pub open spec fn nexus_nix_file(net: &Network) -> (Seq<char>, Seq<char>) {
    (
        "nexus.nix"@,
        render_text(
            "nexus_nix"@,
            NEXUS_NIX_TMPL@,
            Seq::empty(),
            seq![("node_names"@, net.node_names())],
            Seq::empty(),
        ),
    )
}

/// The derivation of node `node` renders.
pub open spec fn node_nix_renders(net: &Network, node: int) -> bool {
    renders(
        "node_nix"@,
        NODE_NIX_TMPL@,
        seq![("node_name"@, net.nodes@[node].name@)],
        node_nix_lists(net, node),
        node_nix_flags(net, node),
    )
}

/// The top-level `nexus.nix` renders.
pub open spec fn nexus_nix_renders(net: &Network) -> bool {
    renders(
        "nexus_nix"@,
        NEXUS_NIX_TMPL@,
        Seq::empty(),
        seq![("node_names"@, net.node_names())],
        Seq::empty(),
    )
}

/// Every Nix file renders.
pub open spec fn nix_renders(net: &Network) -> bool {
    &&& forall|i: int| 0 <= i < net.nodes@.len() ==> #[trigger] node_nix_renders(net, i)
    &&& nexus_nix_renders(net)
}

/// All Nix files: the derivation of each node in node order, then
/// `nexus.nix`.
pub open spec fn nix_files(net: &Network) -> Seq<(Seq<char>, Seq<char>)> {
    Seq::new(net.nodes@.len(), |i: int| node_nix_file(net, i)).push(nexus_nix_file(net))
}


/// The Nix files are one derivation per node, at `nix/<node>.nix` in node
/// order, followed by `nexus.nix`.
pub proof fn law_nix_files_layout(net: &Network)
    ensures
        nix_files(net).len() == net.nodes@.len() + 1,
        forall|i: int|
            0 <= i < net.nodes@.len() ==> (#[trigger] nix_files(net)[i]).0 == "nix/"@
                + net.nodes@[i].name@ + ".nix"@,
        nix_files(net)[net.nodes@.len() as int].0 == "nexus.nix"@,
{
}

proof fn lemma_dedup_contains(s: Seq<Seq<char>>, k: int)
    requires
        0 <= k <= s.len(),
    ensures
        forall|x: Seq<char>| #[trigger] dedup_upto(s, k).contains(x) <==> s.take(k).contains(x),
    decreases k,
{
    if k > 0 {
        lemma_dedup_contains(s, k - 1);
        let p = dedup_upto(s, k - 1);
        assert(s.take(k) =~= s.take(k - 1).push(s[k - 1]));
        assert forall|x: Seq<char>| #[trigger] dedup_upto(s, k).contains(x) <==> s.take(k).contains(x) by {
            if s.take(k).contains(x) && x != s[k - 1] {
                let i = choose|i: int| 0 <= i < k && #[trigger] s.take(k)[i] == x;
                assert(s.take(k - 1)[i] == x);
            }
            if p.len() > 0 && p.last() == s[k - 1] {
                assert(p[p.len() - 1] == s[k - 1]);
            } else {
                assert(p.push(s[k - 1])[p.len() as int] == s[k - 1]);
                if p.contains(x) {
                    let i = choose|i: int| 0 <= i < p.len() && #[trigger] p[i] == x;
                    assert(p.push(s[k - 1])[i] == x);
                }
                if p.push(s[k - 1]).contains(x) && x != s[k - 1] {
                    let i = choose|i: int| 0 <= i < p.len() + 1 && #[trigger] p.push(s[k - 1])[i] == x;
                    assert(p[i] == x);
                }
            }
            if s.take(k - 1).contains(x) {
                let i = choose|i: int| 0 <= i < k - 1 && #[trigger] s.take(k - 1)[i] == x;
                assert(s.take(k)[i] == x);
            }
            if x == s[k - 1] {
                assert(s.take(k)[k - 1] == x);
            }
        }
    }
}

proof fn lemma_sorted_contains(s: Seq<Seq<char>>)
    ensures
        forall|x: Seq<char>| #[trigger] s.sort_by(lex_leq()).contains(x) <==> s.contains(x),
{
    lemma_lex_total_ordering();
    s.lemma_sort_by_ensures(lex_leq());
    let t = s.sort_by(lex_leq());
    assert forall|x: Seq<char>| #[trigger] t.contains(x) <==> s.contains(x) by {
        to_multiset_contains(s, x);
        to_multiset_contains(t, x);
    }
}

/// A node's derivation installs the header of every contract it takes part
/// in: its list of all contract names holds exactly the contracts it serves
/// and the contracts it uses as a client.
pub proof fn law_node_installs_every_contract(net: &Network, node: int)
    ensures
        ({
            let lists = node_nix_lists(net, node);
            let roles = nix_roles(net, node);
            &&& lists.len() == 3
            &&& lists[2].0 == "all_contract_names"@
            &&& forall|x: Seq<char>|
                #[trigger] lists[2].1.contains(x) <==> (roles.server.contains(x)
                    || roles.client.contains(x))
        }),
{
    let roles = nix_roles(net, node);
    let server = roles.server.sort_by(lex_leq());
    let client = roles.client.sort_by(lex_leq());
    let all = (server + client).sort_by(lex_leq());
    lemma_sorted_contains(roles.server);
    lemma_sorted_contains(roles.client);
    lemma_sorted_contains(server + client);
    lemma_dedup_contains(all, all.len() as int);
    assert(all.take(all.len() as int) =~= all);
    assert forall|x: Seq<char>| #[trigger] (server + client).contains(x) <==> (server.contains(x)
        || client.contains(x)) by {
        if (server + client).contains(x) {
            let i = choose|i: int| 0 <= i < (server + client).len() && #[trigger] (server + client)[i] == x;
            if i >= server.len() {
                assert(client[i - server.len()] == x);
            }
        }
        if server.contains(x) {
            let i = choose|i: int| 0 <= i < server.len() && #[trigger] server[i] == x;
            assert((server + client)[i] == x);
        }
        if client.contains(x) {
            let i = choose|i: int| 0 <= i < client.len() && #[trigger] client[i] == x;
            assert((server + client)[server.len() + i] == x);
        }
    }
}

// ---------------------------------------------------------------------------
// Generation
// ---------------------------------------------------------------------------

/// The executable counterpart of `NixRolesV`, without the contracts seen.
struct NixRoles {
    server: Vec<String>,
    client: Vec<String>,
    grpc: bool,
    http: bool,
    iceoryx: bool,
    grpc_server: bool,
    http_server: bool,
}

/// `r` holds the roles `v` describes.
spec fn roles_match(r: &NixRoles, v: NixRolesV) -> bool {
    &&& strings_view(r.server@) == v.server
    &&& strings_view(r.client@) == v.client
    &&& r.grpc == v.grpc
    &&& r.http == v.http
    &&& r.iceoryx == v.iceoryx
    &&& r.grpc_server == v.grpc_server
    &&& r.http_server == v.http_server
}

/// The roles of node `node` in the network.
fn nix_roles_exec(network: &Network, node: usize) -> (r: NixRoles)
    requires
        network.edge_contracts_wf(),
    ensures
        roles_match(&r, nix_roles(network, node as int)),
{
    let n = network.contracts.len();
    let mut seen: Vec<bool> = Vec::new();
    let mut c: usize = 0;
    while c < n
        invariant
            c <= n,
            seen@.len() == c,
            forall|k: int| 0 <= k < c ==> !#[trigger] seen@[k],
        decreases n - c,
    {
        seen.push(false);
        c += 1;
    }
    let mut r = NixRoles {
        server: Vec::new(),
        client: Vec::new(),
        grpc: false,
        http: false,
        iceoryx: false,
        grpc_server: false,
        http_server: false,
    };
    assert(strings_view(r.server@) =~= Seq::<Seq<char>>::empty());
    assert(strings_view(r.client@) =~= Seq::<Seq<char>>::empty());
    let mut k: usize = 0;
    while k < network.edges.len()
        invariant
            network.edge_contracts_wf(),
            n == network.contracts@.len(),
            k <= network.edges@.len(),
            seen@.len() == n,
            roles_match(&r, nix_roles_upto(network, node as int, k as int)),
            forall|ci: int|
                0 <= ci < n ==> (#[trigger] seen@[ci] <==> nix_roles_upto(
                    network,
                    node as int,
                    k as int,
                ).seen.contains(ci as usize)),
        decreases network.edges@.len() - k,
    {
        let ghost prev = nix_roles_upto(network, node as int, k as int);
        let e = network.edges[k];
        let ci = e.contract.0;
        if !seen[ci] {
            seen.set(ci, true);
            let is_sender = e.from_node.0 == node;
            let is_receiver = e.to_node.0 == node;
            if is_sender || is_receiver {
                let contract = &network.contracts[ci];
                let name = contract.name.clone();
                let ghost sv = strings_view(r.server@);
                let ghost cv = strings_view(r.client@);
                match contract.transport {
                    Transport::Grpc => {
                        if is_sender {
                            r.server.push(name);
                            r.grpc = true;
                            r.grpc_server = true;
                        } else {
                            r.client.push(name);
                            r.grpc = true;
                        }
                    },
                    Transport::Http => {
                        if is_sender {
                            r.server.push(name);
                            r.http_server = true;
                        } else {
                            r.client.push(name);
                            r.http = true;
                        }
                    },
                    Transport::Iceoryx => {
                        r.client.push(name);
                        r.iceoryx = true;
                    },
                    Transport::UnixSocket => {
                        r.client.push(name);
                    },
                    _ => {},
                }
                assert(strings_view(r.server@) =~= sv || strings_view(r.server@) =~= sv.push(name@));
                assert(strings_view(r.client@) =~= cv || strings_view(r.client@) =~= cv.push(name@));
            }
        }
        k += 1;
    }
    r
}

/// A string from a literal.
fn lit(s: &str) -> (r: String)
    ensures
        r@ == s@,
{
    String::from_str(s)
}

/// Generate all Nix derivation files for a network:
/// - One `nix/<node>.nix` per node
/// - A top-level `nexus.nix`
pub fn generate_nix(network: &Network) -> (r: Result<Vec<GeneratedFile>, CodegenError>)
    requires
        network.edge_contracts_wf(),
    ensures
        match r {
            Ok(files) => files_view(files@) == nix_files(network),
            Err(e) => e is TemplateError,
        },
        r is Ok <==> nix_renders(network),
{
    let env = new_environment();
    let mut files: Vec<GeneratedFile> = Vec::new();
    let mut i: usize = 0;
    while i < network.nodes.len()
        invariant
            network.edge_contracts_wf(),
            i <= network.nodes@.len(),
            forall|j: int| 0 <= j < i ==> #[trigger] node_nix_renders(network, j),
            files_view(files@) =~= Seq::new(i as nat, |j: int| node_nix_file(network, j)),
        decreases network.nodes@.len() - i,
    {
        let node = &network.nodes[i];
        let roles = nix_roles_exec(network, i);
        let server = sort_strings(&roles.server);
        let client = sort_strings(&roles.client);
        let mut all: Vec<String> = Vec::new();
        assert(strings_view(all@) =~= Seq::<Seq<char>>::empty());
        append_strings(&mut all, &server);
        append_strings(&mut all, &client);
        let all_sorted = sort_strings(&all);
        let all_names = dedup_strings(&all_sorted);
        let mut text: Vec<(String, String)> = Vec::new();
        text.push((lit("node_name"), node.name.clone()));
        let mut lists: Vec<(String, Vec<String>)> = Vec::new();
        lists.push((lit("server_contracts"), server));
        lists.push((lit("client_contracts"), client));
        lists.push((lit("all_contract_names"), all_names));
        let mut flags: Vec<(String, bool)> = Vec::new();
        flags.push((lit("has_grpc"), roles.grpc));
        flags.push((lit("has_http"), roles.http));
        flags.push((lit("has_iceoryx"), roles.iceoryx));
        flags.push((lit("has_grpc_server"), roles.grpc_server));
        flags.push((lit("has_http_server"), roles.http_server));
        let ctx = TemplateContext { text, lists, flags };
        proof {
            assert(Seq::<Seq<char>>::empty() + strings_view(server@) =~= strings_view(server@));
            assert(ctx.text_view() =~= seq![("node_name"@, node.name@)]);
            assert(ctx.lists_view() =~= node_nix_lists(network, i as int));
            assert(ctx.flags_view() =~= node_nix_flags(network, i as int));
        }
        let content = match render_named_str(&env, "node_nix", NODE_NIX_TMPL, &ctx) {
            Ok(c) => c,
            Err(e) => {
                assert(!node_nix_renders(network, i as int));
                return Err(CodegenError::TemplateError(e));
            },
        };
        let mut path = lit("nix/");
        path.append(node.name.as_str());
        path.append(".nix");
        let f = GeneratedFile { path, content };
        let ghost before = files_view(files@);
        files.push(f);
        assert(files_view(files@) =~= before.push(f@));
        i += 1;
    }
    let mut names: Vec<String> = Vec::new();
    let mut k: usize = 0;
    while k < network.nodes.len()
        invariant
            k <= network.nodes@.len(),
            names@.len() == k,
            forall|j: int| 0 <= j < k ==> #[trigger] names@[j]@ == network.nodes@[j].name@,
        decreases network.nodes@.len() - k,
    {
        names.push(network.nodes[k].name.clone());
        k += 1;
    }
    assert(strings_view(names@) =~= network.node_names());
    let mut lists: Vec<(String, Vec<String>)> = Vec::new();
    lists.push((lit("node_names"), names));
    let ctx = TemplateContext { text: Vec::new(), lists, flags: Vec::new() };
    proof {
        assert(ctx.text_view() =~= Seq::<(Seq<char>, Seq<char>)>::empty());
        assert(ctx.lists_view() =~= seq![("node_names"@, network.node_names())]);
        assert(ctx.flags_view() =~= Seq::<(Seq<char>, bool)>::empty());
    }
    let content = match render_named_str(&env, "nexus_nix", NEXUS_NIX_TMPL, &ctx) {
        Ok(c) => c,
        Err(e) => {
            return Err(CodegenError::TemplateError(e));
        },
    };
    let f = GeneratedFile { path: lit("nexus.nix"), content };
    let ghost before = files_view(files@);
    files.push(f);
    assert(files_view(files@) =~= before.push(f@));
    assert(files_view(files@) =~= nix_files(network));
    Ok(files)
}

} // verus!
