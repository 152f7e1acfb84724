//! The report of a synchronous gRPC flow: the RPC methods a name designates,
//! with their gateway, gRPC and NestJS contracts, callers and implementations.
use vstd::prelude::*;

use crate::domain::grpc_flow::{GrpcClientEndpoint, GrpcFlowGraph, GrpcMethodNode, GrpcServerEndpoint, GrpcServiceNode};
use crate::std_text::{lower, string_from_chars, to_lowercase};
use crate::text::{
    chars_of, concat_map, contains, contains_seq, dec, flatten_n, lemma_flatten_member, lemma_flatten_source, opt_line, push_opt_line, push_seq,
    push_str, seq_eq, usize_dec,
};

verus! {

// ---------------------------------------------------------------------------
// The report, as a specification
// ---------------------------------------------------------------------------

/// The lower-cased text contains `tl`.
pub open spec fn lower_has(s: Seq<char>, tl: Seq<char>) -> bool {
    contains(lower(s), tl)
}

/// The method designated by the `i`-th gateway contract, when the contract
/// matches and the service and method it names exist.
pub open spec fn gateway_candidate(g: GrpcFlowGraph, i: int, tl: Seq<char>) -> Seq<GrpcMethodNode> {
    let link = g.gateway_contract_to_method.val_at(i);
    if lower_has(g.gateway_contract_to_method.key_at(i), tl) {
        match g.services.spec_get(link.0@) {
            Some(svc) => match svc.methods.spec_get(link.1@) {
                Some(m) => seq![m],
                None => seq![],
            },
            None => seq![],
        }
    } else {
        seq![]
    }
}

/// The `k`-th method of `svc`, when the service name, the method name, or its
/// request or response type matches.
pub open spec fn method_candidate(svc: GrpcServiceNode, k: int, tl: Seq<char>) -> Seq<GrpcMethodNode> {
    let m = svc.methods.val_at(k);
    if lower_has(svc.service_name@, tl) || lower_has(svc.methods.key_at(k), tl) || lower_has(
        m.request_type@,
        tl,
    ) || lower_has(m.response_type@, tl) {
        seq![m]
    } else {
        seq![]
    }
}

/// The matching methods of one service, in order.
pub open spec fn service_candidates(svc: GrpcServiceNode, tl: Seq<char>) -> Seq<GrpcMethodNode> {
    flatten_n(svc.methods.spec_len(), |k: int| method_candidate(svc, k, tl))
}

/// All matches, gateway contracts first, then services, before duplicates go.
pub open spec fn grpc_candidates(g: GrpcFlowGraph, tl: Seq<char>) -> Seq<GrpcMethodNode> {
    flatten_n(g.gateway_contract_to_method.spec_len(), |i: int| gateway_candidate(g, i, tl))
        + flatten_n(g.services.spec_len(), |i: int| service_candidates(g.services.val_at(i), tl))
}

/// Two nodes stand for the same RPC: same method and service names.
pub open spec fn same_method(a: GrpcMethodNode, b: GrpcMethodNode) -> bool {
    a.method_name@ == b.method_name@ && a.service_name@ == b.service_name@
}

/// The nodes of `c`, each RPC kept at its first occurrence only.
pub open spec fn dedup_methods(c: Seq<GrpcMethodNode>) -> Seq<GrpcMethodNode>
    decreases c.len(),
{
    if c.len() == 0 {
        seq![]
    } else {
        let d = dedup_methods(c.drop_last());
        if exists|k: int| 0 <= k < d.len() && same_method(d[k], c.last()) {
            d
        } else {
            d.push(c.last())
        }
    }
}

/// The RPCs that `target` designates, in report order.
pub open spec fn matched_methods(g: GrpcFlowGraph, target: Seq<char>) -> Seq<GrpcMethodNode> {
    dedup_methods(grpc_candidates(g, lower(target)))
}

pub open spec fn rule() -> Seq<char> {
    "================================================================================\n"@
}

pub open spec fn client_lines(i: int, c: GrpcClientEndpoint) -> Seq<char> {
    "   "@ + dec((i + 1) as nat) + ". ["@ + c.service@ + "] "@ + c.class_name@ + "\n"@
        + "      Fichier : "@ + c.file_path@ + ":"@ + dec(c.line_number as nat) + "\n"@
}

pub open spec fn server_lines(i: int, s: GrpcServerEndpoint) -> Seq<char> {
    "   "@ + dec((i + 1) as nat) + ". ["@ + s.service@ + "] "@ + s.controller_class@ + "\n"@
        + "      Fichier : "@ + s.file_path@ + ":"@ + dec(s.line_number as nat) + "\n"@
}

/// Title of an RPC section.
pub open spec fn method_title(m: GrpcMethodNode) -> Seq<char> {
    rule() + "🌐 RPC SYNCHRONE gRPC : "@ + m.service_name@ + "."@ + m.method_name@ + "\n"@ + rule()
        + "📱 1. Contrat Mobile / Front (nativapp -> api-gateway) :\n"@
}

/// Gateway request line(s) of an RPC section.
pub open spec fn gateway_request_text(m: GrpcMethodNode) -> Seq<char> {
    match m.gateway_request {
        Some(r) => "   - Request  : "@ + r@ + "\n"@ + opt_line(
            "     Fichier  : "@,
            m.gateway_request_file,
            "\n"@,
        ),
        None => "   - Request  : (Utilise directement le format standard gRPC ou DTO interne)\n"@,
    }
}

/// Gateway response line(s) of an RPC section.
pub open spec fn gateway_response_text(m: GrpcMethodNode) -> Seq<char> {
    match m.gateway_response {
        Some(r) => "   - Response : "@ + r@ + "\n"@ + opt_line(
            "     Fichier  : "@,
            m.gateway_response_file,
            "\n"@,
        ),
        None => seq![],
    }
}

/// Title and mobile/gateway contract of an RPC section.
pub open spec fn method_head(m: GrpcMethodNode) -> Seq<char> {
    method_title(m) + gateway_request_text(m) + gateway_response_text(m)
}

/// gRPC and NestJS contracts of an RPC section.
pub open spec fn method_contracts(m: GrpcMethodNode) -> Seq<char> {
    "\n⚙️ 2. Contrat gRPC Inter-Services (api-gateway -> Microservice) :\n"@ + "   - Source Proto : "@
        + m.proto_file@ + "\n"@ + "   - Command/Query : "@ + m.request_type@ + "\n"@
        + "   - Response Proto: "@ + m.response_type@ + "\n"@ + opt_line(
        "   - Fichier TS    : "@,
        m.ts_contract_file,
        "\n"@,
    ) + match m.nest_client_interface {
        Some(n) => "\n🦅 3. Contrat NestJS (@volontariapp/contracts-nest) :\n"@
            + "   - Client Interface: "@ + n@ + "\n"@,
        None => seq![],
    }
}

/// Callers and implementations of an RPC section, then a blank line.
pub open spec fn method_endpoints(m: GrpcMethodNode) -> Seq<char> {
    "\n📞 Client(s) Appelant(s) (API Gateway / MS) : "@ + dec(m.clients@.len()) + "\n"@ + (if m.clients@.len()
        == 0 {
        "   (Aucun client injecté direct détecté via ClientGrpc)\n"@
    } else {
        concat_map(m.clients@.len(), |i: int| client_lines(i, m.clients@[i]))
    }) + "\n🎯 Controller(s) Implémentation (Microservice) : "@ + dec(m.servers@.len()) + "\n"@ + (if m.servers@.len()
        == 0 {
        "   (Aucun controller direct détecté avec @GrpcMethod)\n"@
    } else {
        concat_map(m.servers@.len(), |i: int| server_lines(i, m.servers@[i]))
    }) + "\n"@
}

/// The section of the report about one RPC.
pub open spec fn method_block(m: GrpcMethodNode) -> Seq<char> {
    method_head(m) + method_contracts(m) + method_endpoints(m)
}

/// The answer when nothing matches.
pub open spec fn grpc_not_found(target: Seq<char>) -> Seq<char> {
    "Aucun contrat gRPC, contrat gateway ou méthode ne correspond à '"@ + target
        + "' dans proto-registry et contracts."@
}

/// The report of `query_grpc` for `target`.
pub open spec fn grpc_report(g: GrpcFlowGraph, target: Seq<char>) -> Seq<char> {
    let ms = matched_methods(g, target);
    if ms.len() == 0 {
        grpc_not_found(target)
    } else {
        concat_map(ms.len(), |i: int| method_block(ms[i]))
    }
}

// ---------------------------------------------------------------------------
// Laws
// ---------------------------------------------------------------------------

proof fn lemma_dedup_push(c: Seq<GrpcMethodNode>, y: GrpcMethodNode)
    ensures
        dedup_methods(c.push(y)) == (if exists|k: int|
            0 <= k < dedup_methods(c).len() && same_method(dedup_methods(c)[k], y) {
            dedup_methods(c)
        } else {
            dedup_methods(c).push(y)
        }),
{
    assert(c.push(y).drop_last() =~= c);
}

/// No RPC appears twice in a gRPC report.
pub proof fn lemma_dedup_distinct(c: Seq<GrpcMethodNode>)
    ensures
        forall|a: int, b: int|
            0 <= a < b < dedup_methods(c).len() ==> !same_method(
                dedup_methods(c)[a],
                dedup_methods(c)[b],
            ),
    decreases c.len(),
{
    if c.len() > 0 {
        lemma_dedup_distinct(c.drop_last());
        let d = dedup_methods(c.drop_last());
        if !(exists|k: int| 0 <= k < d.len() && same_method(d[k], c.last())) {
            let e = dedup_methods(c);
            assert(e == d.push(c.last()));
            assert forall|a: int, b: int| 0 <= a < b < e.len() implies !same_method(e[a], e[b]) by {
                if b == d.len() {
                    assert(!same_method(d[a], c.last()));
                } else {
                    assert(e[a] == d[a] && e[b] == d[b]);
                }
            }
        }
    }
}

/// Every candidate RPC is in the report: dropping duplicates loses no RPC.
pub proof fn lemma_dedup_covers(c: Seq<GrpcMethodNode>, j: int)
    requires
        0 <= j < c.len(),
    ensures
        exists|k: int| 0 <= k < dedup_methods(c).len() && same_method(dedup_methods(c)[k], c[j]),
    decreases c.len(),
{
    let d = dedup_methods(c.drop_last());
    if j < c.len() - 1 {
        lemma_dedup_covers(c.drop_last(), j);
        let k = choose|k: int| 0 <= k < d.len() && same_method(d[k], c.drop_last()[j]);
        assert(dedup_methods(c)[k] == d[k]);
    } else {
        if exists|k: int| 0 <= k < d.len() && same_method(d[k], c.last()) {
        } else {
            assert(same_method(dedup_methods(c)[d.len() as int], c[j]));
        }
    }
}

/// Every RPC of a declared service whose service name, method name, request
/// type or response type contains the target, case aside, is reported.
pub proof fn lemma_matching_method_reported(g: GrpcFlowGraph, target: Seq<char>, i: int, k: int)
    requires
        0 <= i < g.services.spec_len(),
        0 <= k < g.services.val_at(i).methods.spec_len(),
        contains(lower(g.services.val_at(i).service_name@), lower(target)) || contains(
            lower(g.services.val_at(i).methods.key_at(k)),
            lower(target),
        ) || contains(lower(g.services.val_at(i).methods.val_at(k).request_type@), lower(target)) || contains(
            lower(g.services.val_at(i).methods.val_at(k).response_type@),
            lower(target),
        ),
    ensures
        exists|j: int|
            0 <= j < matched_methods(g, target).len() && same_method(
                #[trigger] matched_methods(g, target)[j],
                g.services.val_at(i).methods.val_at(k),
            ),
{
    let tl = lower(target);
    let svc = g.services.val_at(i);
    let m = svc.methods.val_at(k);
    let fk = |k: int| method_candidate(svc, k, tl);
    assert(fk(k) == seq![m]);
    lemma_flatten_member(svc.methods.spec_len(), fk, k, 0);
    let sc = service_candidates(svc, tl);
    assert(sc == flatten_n(svc.methods.spec_len(), fk));
    let j1 = choose|j: int| 0 <= j < sc.len() && sc[j] == m;
    let fs = |i: int| service_candidates(g.services.val_at(i), tl);
    assert(fs(i) == sc);
    lemma_flatten_member(g.services.spec_len(), fs, i, j1);
    let part_b = flatten_n(g.services.spec_len(), fs);
    let j2 = choose|j: int| 0 <= j < part_b.len() && part_b[j] == m;
    let fa = |i: int| gateway_candidate(g, i, tl);
    let part_a = flatten_n(g.gateway_contract_to_method.spec_len(), fa);
    let c = grpc_candidates(g, tl);
    assert(c == part_a + part_b);
    assert(c[part_a.len() + j2] == m);
    lemma_dedup_covers(c, part_a.len() + j2);
    let d = matched_methods(g, target);
    assert(d == dedup_methods(c));
    let k0 = choose|k0: int| 0 <= k0 < d.len() && same_method(d[k0], c[part_a.len() + j2]);
    assert(same_method(d[k0], m));
}

/// Every RPC that a gateway contract containing the target (case aside)
/// designates, when its service and method exist, is reported.
pub proof fn lemma_matching_contract_reported(g: GrpcFlowGraph, target: Seq<char>, i: int)
    requires
        0 <= i < g.gateway_contract_to_method.spec_len(),
        contains(lower(g.gateway_contract_to_method.key_at(i)), lower(target)),
        g.services.spec_get(g.gateway_contract_to_method.val_at(i).0@) is Some,
        g.services.spec_get(g.gateway_contract_to_method.val_at(i).0@)->0.methods.spec_get(
            g.gateway_contract_to_method.val_at(i).1@,
        ) is Some,
    ensures
        exists|j: int|
            0 <= j < matched_methods(g, target).len() && same_method(
                #[trigger] matched_methods(g, target)[j],
                g.services.spec_get(g.gateway_contract_to_method.val_at(i).0@)->0.methods.spec_get(
                    g.gateway_contract_to_method.val_at(i).1@,
                )->0,
            ),
{
    let tl = lower(target);
    let link = g.gateway_contract_to_method.val_at(i);
    let m = g.services.spec_get(link.0@)->0.methods.spec_get(link.1@)->0;
    let fa = |i: int| gateway_candidate(g, i, tl);
    assert(fa(i) == seq![m]);
    lemma_flatten_member(g.gateway_contract_to_method.spec_len(), fa, i, 0);
    let part_a = flatten_n(g.gateway_contract_to_method.spec_len(), fa);
    let j1 = choose|j: int| 0 <= j < part_a.len() && part_a[j] == m;
    let fs = |i: int| service_candidates(g.services.val_at(i), tl);
    let c = grpc_candidates(g, tl);
    assert(c == part_a + flatten_n(g.services.spec_len(), fs));
    assert(c[j1] == m);
    lemma_dedup_covers(c, j1);
    let d = matched_methods(g, target);
    assert(d == dedup_methods(c));
    let k0 = choose|k0: int| 0 <= k0 < d.len() && same_method(d[k0], c[j1]);
    assert(same_method(d[k0], m));
}

/// Every node that dropping duplicates keeps is one of the candidates.
proof fn lemma_dedup_from(c: Seq<GrpcMethodNode>, j: int) -> (x: int)
    requires
        0 <= j < dedup_methods(c).len(),
    ensures
        0 <= x < c.len(),
        dedup_methods(c)[j] == c[x],
    decreases c.len(),
{
    let d = dedup_methods(c.drop_last());
    if j < d.len() {
        let x = lemma_dedup_from(c.drop_last(), j);
        assert(dedup_methods(c)[j] == d[j]);
        x
    } else {
        c.len() - 1
    }
}

/// `m` is a method of a declared service whose service name, method name,
/// request type or response type contains `tl`, or the method that a
/// gateway contract containing `tl` designates.
pub open spec fn designated_by(g: GrpcFlowGraph, tl: Seq<char>, m: GrpcMethodNode) -> bool {
    ||| exists|i: int, k: int|
        0 <= i < g.services.spec_len() && 0 <= k < g.services.val_at(i).methods.spec_len()
            && #[trigger] g.services.val_at(i).methods.val_at(k) == m && (contains(
            lower(g.services.val_at(i).service_name@),
            tl,
        ) || contains(lower(g.services.val_at(i).methods.key_at(k)), tl) || contains(lower(m.request_type@), tl)
            || contains(lower(m.response_type@), tl))
    ||| exists|i: int|
        0 <= i < g.gateway_contract_to_method.spec_len() && contains(
            lower(#[trigger] g.gateway_contract_to_method.key_at(i)),
            tl,
        ) && g.services.spec_get(g.gateway_contract_to_method.val_at(i).0@) is Some
            && g.services.spec_get(g.gateway_contract_to_method.val_at(i).0@)->0.methods.spec_get(
            g.gateway_contract_to_method.val_at(i).1@,
        ) == Some(m)
}

/// The report holds only designated RPCs: every reported method has a
/// service name, method name, request or response type containing the
/// target (case aside), or is designated by a gateway contract that does.
pub proof fn lemma_reported_methods_designated(g: GrpcFlowGraph, target: Seq<char>, j: int)
    requires
        0 <= j < matched_methods(g, target).len(),
    ensures
        designated_by(g, lower(target), matched_methods(g, target)[j]),
{
    let tl = lower(target);
    let fa = |i: int| gateway_candidate(g, i, tl);
    let fs = |i: int| service_candidates(g.services.val_at(i), tl);
    let part_a = flatten_n(g.gateway_contract_to_method.spec_len(), fa);
    let part_b = flatten_n(g.services.spec_len(), fs);
    let c = grpc_candidates(g, tl);
    assert(c == part_a + part_b);
    let x = lemma_dedup_from(c, j);
    let m = c[x];
    assert(matched_methods(g, target)[j] == m);
    if x < part_a.len() {
        assert(m == part_a[x]);
        let r = lemma_flatten_source(g.gateway_contract_to_method.spec_len(), fa, x);
        let i = r.0;
        assert(fa(i)[r.1] == m);
        assert(contains(lower(g.gateway_contract_to_method.key_at(i)), tl));
    } else {
        assert(m == part_b[x - part_a.len()]);
        let r = lemma_flatten_source(g.services.spec_len(), fs, x - part_a.len());
        let i = r.0;
        let svc = g.services.val_at(i);
        let fk = |k: int| method_candidate(svc, k, tl);
        assert(fs(i) == flatten_n(svc.methods.spec_len(), fk));
        let r2 = lemma_flatten_source(svc.methods.spec_len(), fk, r.1);
        let k = r2.0;
        assert(fk(k)[r2.1] == m);
        assert(svc.methods.val_at(k) == m);
        assert(g.services.val_at(i).methods.val_at(k) == m);
    }
}

// ---------------------------------------------------------------------------
// Executable report
// ---------------------------------------------------------------------------

/// The node at service position `si`, method position `mi`.
pub open spec fn node_at(g: GrpcFlowGraph, p: (usize, usize)) -> GrpcMethodNode {
    g.services.val_at(p.0 as int).methods.val_at(p.1 as int)
}

/// Positions that point at a method.
pub open spec fn valid_pos(g: GrpcFlowGraph, p: (usize, usize)) -> bool {
    p.0 < g.services.spec_len() && p.1 < g.services.val_at(p.0 as int).methods.spec_len()
}

fn same_names(a: &GrpcMethodNode, b: &GrpcMethodNode) -> (r: bool)
    ensures
        r == same_method(*a, *b),
{
    let an = chars_of(a.method_name.as_str());
    let bn = chars_of(b.method_name.as_str());
    let asv = chars_of(a.service_name.as_str());
    let bsv = chars_of(b.service_name.as_str());
    seq_eq(&an, &bn) && seq_eq(&asv, &bsv)
}

/// Adds the node at `p` to `matched` unless an equal RPC is there already.
fn push_unique(graph: &GrpcFlowGraph, matched: &mut Vec<(usize, usize)>, p: (usize, usize), Ghost(cands): Ghost<Seq<GrpcMethodNode>>)
    requires
        valid_pos(*graph, p),
        forall|k: int| 0 <= k < old(matched)@.len() ==> valid_pos(*graph, #[trigger] old(matched)@[k]),
        old(matched)@.map_values(|q: (usize, usize)| node_at(*graph, q)) == dedup_methods(cands),
    ensures
        forall|k: int| 0 <= k < final(matched)@.len() ==> valid_pos(*graph, #[trigger] final(matched)@[k]),
        final(matched)@.map_values(|q: (usize, usize)| node_at(*graph, q)) == dedup_methods(
            cands.push(node_at(*graph, p)),
        ),
{
    let ghost y = node_at(*graph, p);
    let ghost d = dedup_methods(cands);
    proof {
        lemma_dedup_push(cands, y);
    }
    let node = graph.services.val(p.0).methods.val(p.1);
    let mut k: usize = 0;
    while k < matched.len()
        invariant
            0 <= k <= matched@.len(),
            matched@ == old(matched)@,
            *node == y,
            y == node_at(*graph, p),
            d == dedup_methods(cands),
            forall|q: int| 0 <= q < matched@.len() ==> valid_pos(*graph, #[trigger] matched@[q]),
            matched@.map_values(|q: (usize, usize)| node_at(*graph, q)) == d,
            forall|q: int| 0 <= q < k ==> !same_method(#[trigger] d[q], y),
        decreases matched@.len() - k,
    {
        let q = matched[k];
        let other = graph.services.val(q.0).methods.val(q.1);
        assert(d[k as int] == node_at(*graph, q));
        if same_names(other, node) {
            assert(same_method(d[k as int], y));
            proof {
                lemma_dedup_push(cands, y);
            }
            return;
        }
        k = k + 1;
    }
    let ghost before = matched@;
    matched.push(p);
    assert(matched@.map_values(|q: (usize, usize)| node_at(*graph, q)) =~= before.map_values(
        |q: (usize, usize)| node_at(*graph, q),
    ).push(y));
}

fn lower_contains(s: &String, tl: &Vec<char>) -> (r: bool)
    ensures
        r == lower_has(s@, tl@),
{
    let l = to_lowercase(s.as_str());
    let lc = chars_of(l.as_str());
    contains_seq(&lc, tl)
}

/// Positions of the RPCs that `target` designates, in report order.
fn collect_matches(graph: &GrpcFlowGraph, target: &str) -> (r: Vec<(usize, usize)>)
    ensures
        forall|k: int| 0 <= k < r@.len() ==> valid_pos(*graph, #[trigger] r@[k]),
        r@.map_values(|q: (usize, usize)| node_at(*graph, q)) == matched_methods(*graph, target@),
{
    let tls = to_lowercase(target);
    let tl = chars_of(tls.as_str());
    let ghost g = *graph;
    let ghost fa = |i: int| gateway_candidate(g, i, tl@);
    let ghost fb = |i: int| service_candidates(g.services.val_at(i), tl@);
    let mut matched: Vec<(usize, usize)> = Vec::new();
    let ghost mut cands: Seq<GrpcMethodNode> = seq![];
    assert(matched@.map_values(|q: (usize, usize)| node_at(*graph, q)) =~= dedup_methods(cands));
    // A. gateway contracts
    let n = graph.gateway_contract_to_method.len();
    let mut i: usize = 0;
    while i < n
        invariant
            g == *graph,
            tl@ == lower(target@),
            n == g.gateway_contract_to_method.spec_len(),
            0 <= i <= n,
            fa == (|i: int| gateway_candidate(g, i, tl@)),
            cands == flatten_n(i as nat, fa),
            forall|k: int| 0 <= k < matched@.len() ==> valid_pos(*graph, #[trigger] matched@[k]),
            matched@.map_values(|q: (usize, usize)| node_at(*graph, q)) == dedup_methods(cands),
        decreases n - i,
    {
        let key = graph.gateway_contract_to_method.key(i);
        let link = graph.gateway_contract_to_method.val(i);
        if lower_contains(key, &tl) {
            match graph.services.find(link.0.as_str()) {
                Some(si) => {
                    match graph.services.val(si).methods.find(link.1.as_str()) {
                        Some(mi) => {
                            push_unique(graph, &mut matched, (si, mi), Ghost(cands));
                            proof {
                                cands = cands.push(node_at(g, (si, mi)));
                            }
                        },
                        None => {},
                    }
                },
                None => {},
            }
        }
        assert(cands =~= flatten_n(i as nat, fa) + fa(i as int));
        i = i + 1;
    }
    let ghost part_a = cands;
    // B. services and their methods
    let ns = graph.services.len();
    let mut si: usize = 0;
    while si < ns
        invariant
            g == *graph,
            tl@ == lower(target@),
            ns == g.services.spec_len(),
            0 <= si <= ns,
            fb == (|i: int| service_candidates(g.services.val_at(i), tl@)),
            cands == part_a + flatten_n(si as nat, fb),
            forall|k: int| 0 <= k < matched@.len() ==> valid_pos(*graph, #[trigger] matched@[k]),
            matched@.map_values(|q: (usize, usize)| node_at(*graph, q)) == dedup_methods(cands),
        decreases ns - si,
    {
        let svc = graph.services.val(si);
        let svc_hit = lower_contains(&svc.service_name, &tl);
        let ghost before = cands;
        let ghost fk = |k: int| method_candidate(*svc, k, tl@);
        let nm = svc.methods.len();
        let mut mi: usize = 0;
        while mi < nm
            invariant
                g == *graph,
                tl@ == lower(target@),
                si < ns == g.services.spec_len(),
                *svc == g.services.val_at(si as int),
                svc_hit == lower_has(svc.service_name@, tl@),
                nm == svc.methods.spec_len(),
                0 <= mi <= nm,
                fk == (|k: int| method_candidate(*svc, k, tl@)),
                cands == before + flatten_n(mi as nat, fk),
                forall|k: int| 0 <= k < matched@.len() ==> valid_pos(*graph, #[trigger] matched@[k]),
                matched@.map_values(|q: (usize, usize)| node_at(*graph, q)) == dedup_methods(cands),
            decreases nm - mi,
        {
            let mname = svc.methods.key(mi);
            let m = svc.methods.val(mi);
            let hit = svc_hit || lower_contains(mname, &tl) || lower_contains(&m.request_type, &tl)
                || lower_contains(&m.response_type, &tl);
            if hit {
                push_unique(graph, &mut matched, (si, mi), Ghost(cands));
                proof {
                    cands = cands.push(node_at(g, (si, mi)));
                }
            }
            assert(before + flatten_n((mi + 1) as nat, fk) =~= before + flatten_n(mi as nat, fk)
                + fk(mi as int));
            mi = mi + 1;
        }
        assert(cands =~= part_a + flatten_n(si as nat, fb) + fb(si as int));
        si = si + 1;
    }
    matched
}

fn push_method_title(out: &mut Vec<char>, m: &GrpcMethodNode)
    ensures
        final(out)@ == old(out)@ + method_title(*m),
{
    let ghost start = out@;
    push_str(out, "================================================================================\n");
    push_str(out, "🌐 RPC SYNCHRONE gRPC : ");
    push_str(out, m.service_name.as_str());
    push_str(out, ".");
    push_str(out, m.method_name.as_str());
    push_str(out, "\n");
    push_str(out, "================================================================================\n");
    push_str(out, "📱 1. Contrat Mobile / Front (nativapp -> api-gateway) :\n");
    assert(out@ =~= start + method_title(*m));
}

fn push_gateway_request(out: &mut Vec<char>, m: &GrpcMethodNode)
    ensures
        final(out)@ == old(out)@ + gateway_request_text(*m),
{
    let ghost start = out@;
    match &m.gateway_request {
        Some(r) => {
            push_str(out, "   - Request  : ");
            push_str(out, r.as_str());
            push_str(out, "\n");
            push_opt_line(out, "     Fichier  : ", &m.gateway_request_file, "\n");
        },
        None => {
            push_str(out, "   - Request  : (Utilise directement le format standard gRPC ou DTO interne)\n");
        },
    }
    assert(out@ =~= start + gateway_request_text(*m));
}

fn push_gateway_response(out: &mut Vec<char>, m: &GrpcMethodNode)
    ensures
        final(out)@ == old(out)@ + gateway_response_text(*m),
{
    let ghost start = out@;
    match &m.gateway_response {
        Some(r) => {
            push_str(out, "   - Response : ");
            push_str(out, r.as_str());
            push_str(out, "\n");
            push_opt_line(out, "     Fichier  : ", &m.gateway_response_file, "\n");
        },
        None => {},
    }
    assert(out@ =~= start + gateway_response_text(*m));
}

fn push_method_head(out: &mut Vec<char>, m: &GrpcMethodNode)
    ensures
        final(out)@ == old(out)@ + method_head(*m),
{
    let ghost start = out@;
    push_method_title(out, m);
    push_gateway_request(out, m);
    push_gateway_response(out, m);
    assert(out@ =~= start + method_head(*m));
}

fn push_method_contracts(out: &mut Vec<char>, m: &GrpcMethodNode)
    ensures
        final(out)@ == old(out)@ + method_contracts(*m),
{
    let ghost start = out@;
    push_str(out, "\n⚙️ 2. Contrat gRPC Inter-Services (api-gateway -> Microservice) :\n");
    push_str(out, "   - Source Proto : ");
    push_str(out, m.proto_file.as_str());
    push_str(out, "\n");
    push_str(out, "   - Command/Query : ");
    push_str(out, m.request_type.as_str());
    push_str(out, "\n");
    push_str(out, "   - Response Proto: ");
    push_str(out, m.response_type.as_str());
    push_str(out, "\n");
    push_opt_line(out, "   - Fichier TS    : ", &m.ts_contract_file, "\n");
    match &m.nest_client_interface {
        Some(n) => {
            push_str(out, "\n🦅 3. Contrat NestJS (@volontariapp/contracts-nest) :\n");
            push_str(out, "   - Client Interface: ");
            push_str(out, n.as_str());
            push_str(out, "\n");
        },
        None => {},
    }
    assert(out@ =~= start + method_contracts(*m));
}

fn push_clients(out: &mut Vec<char>, cs: &Vec<GrpcClientEndpoint>)
    ensures
        final(out)@ == old(out)@ + concat_map(cs@.len(), |i: int| client_lines(i, cs@[i])),
{
    let ghost start = out@;
    let ghost f = |i: int| client_lines(i, cs@[i]);
    let mut i: usize = 0;
    while i < cs.len()
        invariant
            0 <= i <= cs@.len(),
            f == (|i: int| client_lines(i, cs@[i])),
            out@ == start + concat_map(i as nat, f),
        decreases cs@.len() - i,
    {
        let c = &cs[i];
        let ghost before = out@;
        push_str(out, "   ");
        let n = usize_dec(i + 1);
        push_seq(out, &n);
        push_str(out, ". [");
        push_str(out, c.service.as_str());
        push_str(out, "] ");
        push_str(out, c.class_name.as_str());
        push_str(out, "\n");
        push_str(out, "      Fichier : ");
        push_str(out, c.file_path.as_str());
        push_str(out, ":");
        let l = usize_dec(c.line_number);
        push_seq(out, &l);
        push_str(out, "\n");
        assert(out@ =~= before + f(i as int));
        i = i + 1;
    }
}

fn push_servers(out: &mut Vec<char>, cs: &Vec<GrpcServerEndpoint>)
    ensures
        final(out)@ == old(out)@ + concat_map(cs@.len(), |i: int| server_lines(i, cs@[i])),
{
    let ghost start = out@;
    let ghost f = |i: int| server_lines(i, cs@[i]);
    let mut i: usize = 0;
    while i < cs.len()
        invariant
            0 <= i <= cs@.len(),
            f == (|i: int| server_lines(i, cs@[i])),
            out@ == start + concat_map(i as nat, f),
        decreases cs@.len() - i,
    {
        let c = &cs[i];
        let ghost before = out@;
        push_str(out, "   ");
        let n = usize_dec(i + 1);
        push_seq(out, &n);
        push_str(out, ". [");
        push_str(out, c.service.as_str());
        push_str(out, "] ");
        push_str(out, c.controller_class.as_str());
        push_str(out, "\n");
        push_str(out, "      Fichier : ");
        push_str(out, c.file_path.as_str());
        push_str(out, ":");
        let l = usize_dec(c.line_number);
        push_seq(out, &l);
        push_str(out, "\n");
        assert(out@ =~= before + f(i as int));
        i = i + 1;
    }
}

fn push_method_endpoints(out: &mut Vec<char>, m: &GrpcMethodNode)
    ensures
        final(out)@ == old(out)@ + method_endpoints(*m),
{
    let ghost start = out@;
    push_str(out, "\n📞 Client(s) Appelant(s) (API Gateway / MS) : ");
    let n = usize_dec(m.clients.len());
    push_seq(out, &n);
    push_str(out, "\n");
    if m.clients.len() == 0 {
        push_str(out, "   (Aucun client injecté direct détecté via ClientGrpc)\n");
    } else {
        push_clients(out, &m.clients);
    }
    push_str(out, "\n🎯 Controller(s) Implémentation (Microservice) : ");
    let k = usize_dec(m.servers.len());
    push_seq(out, &k);
    push_str(out, "\n");
    if m.servers.len() == 0 {
        push_str(out, "   (Aucun controller direct détecté avec @GrpcMethod)\n");
    } else {
        push_servers(out, &m.servers);
    }
    push_str(out, "\n");
    assert(out@ =~= start + method_endpoints(*m));
}

fn push_method_block(out: &mut Vec<char>, m: &GrpcMethodNode)
    ensures
        final(out)@ == old(out)@ + method_block(*m),
{
    let ghost start = out@;
    push_method_head(out, m);
    push_method_contracts(out, m);
    push_method_endpoints(out, m);
    assert(out@ =~= start + method_block(*m));
}

/// The gRPC report for `target`: a section for each RPC whose gateway
/// contract, service, method, request or response type contains it (case
/// insensitively), each RPC once; or a sentence that nothing matches.
pub fn query_grpc(graph: &GrpcFlowGraph, target: &str) -> (r: String)
    ensures
        r@ == grpc_report(*graph, target@),
{
    let matched = collect_matches(graph, target);
    let ghost ms = matched_methods(*graph, target@);
    if matched.len() == 0 {
        let mut out: Vec<char> = Vec::new();
        push_str(&mut out, "Aucun contrat gRPC, contrat gateway ou méthode ne correspond à '");
        push_str(&mut out, target);
        push_str(&mut out, "' dans proto-registry et contracts.");
        assert(out@ =~= grpc_report(*graph, target@));
        return string_from_chars(&out);
    }
    let ghost f = |i: int| method_block(ms[i]);
    assert forall|k: int| 0 <= k < matched@.len() implies ms[k] == node_at(*graph, #[trigger] matched@[k]) by {
        assert(matched@.map_values(|q: (usize, usize)| node_at(*graph, q))[k] == node_at(*graph, matched@[k]));
    }
    let mut out: Vec<char> = Vec::new();
    let mut i: usize = 0;
    while i < matched.len()
        invariant
            0 <= i <= matched@.len(),
            ms.len() == matched@.len(),
            forall|k: int| 0 <= k < matched@.len() ==> valid_pos(*graph, #[trigger] matched@[k]),
            forall|k: int| 0 <= k < matched@.len() ==> ms[k] == node_at(*graph, #[trigger] matched@[k]),
            f == (|i: int| method_block(ms[i])),
            out@ == concat_map(i as nat, f),
        decreases matched@.len() - i,
    {
        let p = matched[i];
        let m = graph.services.val(p.0).methods.val(p.1);
        push_method_block(&mut out, m);
        i = i + 1;
    }
    string_from_chars(&out)
}

} // verus!
