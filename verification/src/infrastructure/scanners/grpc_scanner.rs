//! Scanner of the gRPC flows: services and methods declared in `.proto`
//! files, gateway contracts bound to them, and the controllers and clients
//! that implement or call them.
use vstd::prelude::*;

use crate::domain::grpc_flow::{
    ClientView, GrpcClientEndpoint, GrpcFlowGraph, GrpcFlowView, GrpcMethodNode, GrpcServerEndpoint,
    GrpcServiceNode, MethodView, ServerView, ServiceView, gateway_view, methods_view, new_method,
    services_view, with_method,
};
use crate::domain::async_flow::opt_text;
use crate::infrastructure::scanners::async_scanner::{
    extract_service_name, files_view, is_ts_source, line_at, service_of,
};
use crate::pattern::{
    caps_view, captures_of, cap_text, cap_text_exec, captures_all, first_capture, first_capture_exec, group, group_at,
    lines_before_exec, regex_captures, Span,
};
use crate::std_text::{lower, string_from_chars, to_lowercase};
use crate::strmap::{al_find, al_set, lemma_find_agrees, lemma_set_agrees, StrMap};
use crate::text::{
    chars_of, contains, contains_seq, contains_str, ends_with, ends_with_str, remove_char,
    remove_char_seq, seq_eq, last_piece, last_piece_seq, remove_all, remove_all_seq, eq_str, split_char,
    split_char_seq, trim, trim_seq,
    trim_char, trim_char_seq,
};

verus! {

/// A symbol compared without quotes, underscores or case: quotes trimmed,
/// underscores removed, lower-cased.
pub open spec fn norm_sym(s: Seq<char>) -> Seq<char> {
    lower(remove_char(trim_char(trim_char(s, '\''), '"'), '_'))
}

/// `s` without surrounding quotes and underscores, lower-cased.
pub fn normalize_symbol(s: &str) -> (r: String)
    ensures
        r@ == norm_sym(s@),
{
    let c = chars_of(s);
    let a = trim_char_seq(&c, '\'');
    let b = trim_char_seq(&a, '"');
    let d = remove_char_seq(&b, '_');
    let ds = string_from_chars(&d);
    to_lowercase(ds.as_str())
}

fn norm_chars(s: &String) -> (r: Vec<char>)
    ensures
        r@ == norm_sym(s@),
{
    let n = normalize_symbol(s.as_str());
    chars_of(n.as_str())
}

/// A gateway contract designates a method: for an `extends` contract, its
/// normalised base command contains (or is contained in) the method's
/// request type or contains its response type, or the contract's name
/// contains the method's; for a standalone contract, the name alone.
pub open spec fn contract_hit(
    standalone: bool,
    nname: Seq<char>,
    nbase: Option<Seq<char>>,
    key: Seq<char>,
    m: MethodView,
) -> bool {
    let by_name = contains(nname, norm_sym(key));
    if standalone {
        by_name
    } else {
        let by_cmd = match nbase {
            Some(b) => {
                let nr = norm_sym(m.request_type);
                let np = norm_sym(m.response_type);
                contains(b, nr) || contains(nr, b) || contains(b, np)
            },
            None => false,
        };
        by_cmd || by_name
    }
}

/// The method with the contract recorded as its gateway request (names
/// ending in `Request`) or response (ending in `Response`); a standalone
/// contract does not replace one already recorded.
pub open spec fn contract_apply(standalone: bool, name: Seq<char>, path: Seq<char>, m: MethodView) -> MethodView {
    if ends_with(name, "Request"@) && (!standalone || m.gateway_request is None) {
        MethodView { gateway_request: Some(name), gateway_request_file: Some(path), ..m }
    } else if ends_with(name, "Response"@) && (!standalone || m.gateway_response is None) {
        MethodView { gateway_response: Some(name), gateway_response_file: Some(path), ..m }
    } else {
        m
    }
}

/// The methods of one service after a contract is applied to those it designates.
pub open spec fn contract_methods(
    ms: Seq<(Seq<char>, MethodView)>,
    standalone: bool,
    name: Seq<char>,
    nbase: Option<Seq<char>>,
    path: Seq<char>,
) -> Seq<(Seq<char>, MethodView)> {
    Seq::new(
        ms.len(),
        |j: int|
            if contract_hit(standalone, norm_sym(name), nbase, ms[j].0, ms[j].1) {
                (ms[j].0, contract_apply(standalone, name, path, ms[j].1))
            } else {
                ms[j]
            },
    )
}

/// The services after a contract is applied to every method it designates.
pub open spec fn contract_services(
    ss: Seq<(Seq<char>, ServiceView)>,
    standalone: bool,
    name: Seq<char>,
    nbase: Option<Seq<char>>,
    path: Seq<char>,
) -> Seq<(Seq<char>, ServiceView)> {
    Seq::new(
        ss.len(),
        |i: int|
            (
                ss[i].0,
                ServiceView {
                    methods: contract_methods(ss[i].1.methods, standalone, name, nbase, path),
                    ..ss[i].1
                },
            ),
    )
}

/// The key of the last of the first `n` methods that the contract designates.
pub open spec fn last_method_hit(
    ms: Seq<(Seq<char>, MethodView)>,
    standalone: bool,
    nname: Seq<char>,
    nbase: Option<Seq<char>>,
    n: int,
) -> Option<Seq<char>>
    decreases n,
{
    if n <= 0 || n > ms.len() {
        None
    } else if contract_hit(standalone, nname, nbase, ms[n - 1].0, ms[n - 1].1) {
        Some(ms[n - 1].0)
    } else {
        last_method_hit(ms, standalone, nname, nbase, n - 1)
    }
}

/// The (service name, method) of the last designated method among the first
/// `n` services, in the maps' order.
pub open spec fn last_contract_hit(
    ss: Seq<(Seq<char>, ServiceView)>,
    standalone: bool,
    nname: Seq<char>,
    nbase: Option<Seq<char>>,
    n: int,
) -> Option<(Seq<char>, Seq<char>)>
    decreases n,
{
    if n <= 0 || n > ss.len() {
        None
    } else {
        match last_method_hit(ss[n - 1].1.methods, standalone, nname, nbase, ss[n - 1].1.methods.len() as int) {
            Some(k) => Some((ss[n - 1].1.service_name, k)),
            None => last_contract_hit(ss, standalone, nname, nbase, n - 1),
        }
    }
}

fn apply_contract_method(m: &mut GrpcMethodNode, standalone: bool, name: &Vec<char>, path: &str)
    ensures
        final(m)@ == contract_apply(standalone, name@, path@, old(m)@),
{
    proof {
        reveal_strlit("Request");
        reveal_strlit("Response");
    }
    if ends_with_str(name, "Request") && (!standalone || m.gateway_request.is_none()) {
        m.gateway_request = Some(string_from_chars(name));
        m.gateway_request_file = Some(crate::text::owned(path));
    } else if ends_with_str(name, "Response") && (!standalone || m.gateway_response.is_none()) {
        m.gateway_response = Some(string_from_chars(name));
        m.gateway_response_file = Some(crate::text::owned(path));
    }
}

fn apply_contract_service(
    s: &mut GrpcServiceNode,
    standalone: bool,
    name: &Vec<char>,
    nname: &Vec<char>,
    nbase: &Option<Vec<char>>,
    path: &str,
) -> (r: Option<String>)
    requires
        nname@ == norm_sym(name@),
    ensures
        final(s)@ == (ServiceView {
            methods: contract_methods(old(s)@.methods, standalone, name@, opt_chars(*nbase), path@),
            ..old(s)@
        }),
        opt_text(r) == last_method_hit(old(s)@.methods, standalone, nname@, opt_chars(*nbase), old(s)@.methods.len() as int),
{
    let ghost s0 = s@;
    let ghost ms0 = s0.methods;
    let ghost nb = opt_chars(*nbase);
    let n = s.methods.len();
    let mut last: Option<String> = None;
    let mut j: usize = 0;
    while j < n
        invariant
            nname@ == norm_sym(name@),
            nb == opt_chars(*nbase),
            n == ms0.len(),
            n == s.methods.spec_len(),
            0 <= j <= n,
            s@.service_name == s0.service_name,
            s@.package_name == s0.package_name,
            s@.proto_file == s0.proto_file,
            forall|k: int| 0 <= k < n ==> #[trigger] s.methods.key_at(k) == ms0[k].0,
            forall|k: int| 0 <= k < j ==> #[trigger] methods_view(s.methods)[k] == contract_methods(ms0, standalone, name@, nb, path@)[k],
            forall|k: int| j <= k < n ==> #[trigger] methods_view(s.methods)[k] == ms0[k],
            opt_text(last) == last_method_hit(ms0, standalone, nname@, nb, j as int),
        decreases n - j,
    {
        let key = s.methods.key(j);
        let nk = norm_chars(key);
        let mref = s.methods.val(j);
        let by_name = contains_seq(nname, &nk);
        let hit = if standalone {
            by_name
        } else {
            let by_cmd = match nbase {
                Some(b) => {
                    let nr = norm_chars(&mref.request_type);
                    let np = norm_chars(&mref.response_type);
                    contains_seq(b, &nr) || contains_seq(&nr, b) || contains_seq(b, &np)
                },
                None => false,
            };
            by_cmd || by_name
        };
        assert(methods_view(s.methods)[j as int] == ms0[j as int]);
        assert(hit == contract_hit(standalone, nname@, nb, ms0[j as int].0, ms0[j as int].1));
        if hit {
            last = Some(key.clone());
            let ghost before = s.methods;
            let m = s.methods.val_mut(j);
            apply_contract_method(m, standalone, name, path);
            assert(methods_view(s.methods)[j as int] == contract_methods(ms0, standalone, name@, nb, path@)[j as int]);
            assert forall|k: int| 0 <= k < n && k != j implies #[trigger] methods_view(s.methods)[k] == methods_view(before)[k] by {
            }
        }
        j = j + 1;
    }
    assert(methods_view(s.methods) =~= contract_methods(ms0, standalone, name@, nb, path@));
    last
}

/// The characters of an optional character vector.
pub open spec fn opt_chars(o: Option<Vec<char>>) -> Option<Seq<char>> {
    match o {
        Some(v) => Some(v@),
        None => None,
    }
}


/// The graph after one gateway contract: every method it designates records
/// it, and the contract is indexed under the last designated method.
pub open spec fn contract_step(
    g: GrpcFlowView,
    standalone: bool,
    name: Seq<char>,
    nbase: Option<Seq<char>>,
    path: Seq<char>,
) -> GrpcFlowView {
    let last = last_contract_hit(g.services, standalone, norm_sym(name), nbase, g.services.len() as int);
    GrpcFlowView {
        services: contract_services(g.services, standalone, name, nbase, path),
        gateway_contract_to_method: match last {
            Some(p) => al_set(g.gateway_contract_to_method, name, p),
            None => g.gateway_contract_to_method,
        },
        ..g
    }
}

fn set_gateway(graph: &mut GrpcFlowGraph, name: String, svc: String, method: String)
    ensures
        final(graph)@ == (GrpcFlowView {
            gateway_contract_to_method: al_set(old(graph)@.gateway_contract_to_method, name@, (svc@, method@)),
            ..old(graph)@
        }),
{
    let ghost m0 = graph.gateway_contract_to_method;
    let ghost kv = name@;
    let ghost v = (svc@, method@);
    graph.gateway_contract_to_method.insert(name, (svc, method));
    proof {
        let m1 = graph.gateway_contract_to_method;
        m0.lemma_first_from_bounds(kv, 0);
        let j0 = if m0.has(kv) { m0.index_of(kv) } else { m0.spec_len() as int };
        assert(gateway_view(m1)[j0] == (kv, v));
        assert forall|j: int| 0 <= j < m0.spec_len() && j != j0 implies #[trigger] gateway_view(m1)[j] == gateway_view(m0)[j] by {
        }
        lemma_set_agrees(m0, m1, gateway_view(m0), gateway_view(m1), kv, j0, v);
    }
}

fn apply_contract(
    graph: &mut GrpcFlowGraph,
    standalone: bool,
    name: &Vec<char>,
    nbase: &Option<Vec<char>>,
    path: &str,
)
    ensures
        final(graph)@ == contract_step(old(graph)@, standalone, name@, opt_chars(*nbase), path@),
{
    let ghost g0 = graph@;
    let ghost ss0 = g0.services;
    let ghost nb = opt_chars(*nbase);
    let nname = {
        let ns = string_from_chars(name);
        norm_chars(&ns)
    };
    let n = graph.services.len();
    let mut last: Option<(String, String)> = None;
    let mut i: usize = 0;
    while i < n
        invariant
            nname@ == norm_sym(name@),
            nb == opt_chars(*nbase),
            n == ss0.len(),
            n == graph.services.spec_len(),
            0 <= i <= n,
            graph@.method_to_service == g0.method_to_service,
            graph@.gateway_contract_to_method == g0.gateway_contract_to_method,
            forall|k: int| 0 <= k < n ==> #[trigger] graph.services.key_at(k) == ss0[k].0,
            forall|k: int| 0 <= k < i ==> #[trigger] services_view(graph.services)[k] == contract_services(ss0, standalone, name@, nb, path@)[k],
            forall|k: int| i <= k < n ==> #[trigger] services_view(graph.services)[k] == ss0[k],
            match last {
                Some(p) => last_contract_hit(ss0, standalone, nname@, nb, i as int) == Some((p.0@, p.1@)),
                None => last_contract_hit(ss0, standalone, nname@, nb, i as int) is None,
            },
        decreases n - i,
    {
        let ghost before = graph.services;
        assert(services_view(graph.services)[i as int] == ss0[i as int]);
        let svc_name = graph.services.val(i).service_name.clone();
        let s = graph.services.val_mut(i);
        let hit = apply_contract_service(s, standalone, name, &nname, nbase, path);
        match hit {
            Some(k) => {
                last = Some((svc_name, k));
            },
            None => {},
        }
        assert(services_view(graph.services)[i as int] == contract_services(ss0, standalone, name@, nb, path@)[i as int]);
        assert forall|k: int| 0 <= k < n && k != i implies #[trigger] services_view(graph.services)[k] == services_view(before)[k] by {
        }
        i = i + 1;
    }
    assert(services_view(graph.services) =~= contract_services(ss0, standalone, name@, nb, path@));
    match last {
        Some(p) => {
            set_gateway(graph, string_from_chars(name), p.0, p.1);
        },
        None => {},
    }
}


/// A `@GrpcMethod(service, method)` designates the method with key `key` of
/// the service named `svc_name`: the normalised method names are equal, and
/// the normalised service names contain one another or the given service
/// name contains `service`.
pub open spec fn server_hit(nrs: Seq<char>, nrm: Seq<char>, svc_name: Seq<char>, key: Seq<char>) -> bool {
    let nsv = norm_sym(svc_name);
    norm_sym(key) == nrm && (contains(nrs, nsv) || contains(nsv, nrs) || contains(nrs, "service"@))
}

/// The services after a controller is recorded on every method it implements.
pub open spec fn server_services(
    ss: Seq<(Seq<char>, ServiceView)>,
    nrs: Seq<char>,
    nrm: Seq<char>,
    ep: ServerView,
) -> Seq<(Seq<char>, ServiceView)> {
    Seq::new(
        ss.len(),
        |i: int|
            (
                ss[i].0,
                ServiceView {
                    methods: Seq::new(
                        ss[i].1.methods.len(),
                        |j: int|
                            if server_hit(nrs, nrm, ss[i].1.service_name, ss[i].1.methods[j].0) {
                                (
                                    ss[i].1.methods[j].0,
                                    MethodView {
                                        servers: ss[i].1.methods[j].1.servers.push(ep),
                                        ..ss[i].1.methods[j].1
                                    },
                                )
                            } else {
                                ss[i].1.methods[j]
                            },
                    ),
                    ..ss[i].1
                },
            ),
    )
}

/// An injected client package designates a service whose normalised name
/// or package contains it.
pub open spec fn client_hit(npkg: Seq<char>, sv: ServiceView) -> bool {
    contains(norm_sym(sv.service_name), npkg) || contains(norm_sym(sv.package_name), npkg)
}

/// The services after a client is recorded on every method of each service
/// its package designates.
pub open spec fn client_services(
    ss: Seq<(Seq<char>, ServiceView)>,
    npkg: Seq<char>,
    ep: ClientView,
) -> Seq<(Seq<char>, ServiceView)> {
    Seq::new(
        ss.len(),
        |i: int|
            if client_hit(npkg, ss[i].1) {
                (
                    ss[i].0,
                    ServiceView {
                        methods: Seq::new(
                            ss[i].1.methods.len(),
                            |j: int|
                                (
                                    ss[i].1.methods[j].0,
                                    MethodView {
                                        clients: ss[i].1.methods[j].1.clients.push(ep),
                                        ..ss[i].1.methods[j].1
                                    },
                                ),
                        ),
                        ..ss[i].1
                    },
                )
            } else {
                ss[i]
            },
    )
}

fn add_server_service(s: &mut GrpcServiceNode, nrs: &Vec<char>, nrm: &Vec<char>, ep: &GrpcServerEndpoint)
    ensures
        final(s)@ == (ServiceView {
            methods: Seq::new(
                old(s)@.methods.len(),
                |j: int|
                    if server_hit(nrs@, nrm@, old(s)@.service_name, old(s)@.methods[j].0) {
                        (
                            old(s)@.methods[j].0,
                            MethodView { servers: old(s)@.methods[j].1.servers.push(ep@), ..old(s)@.methods[j].1 },
                        )
                    } else {
                        old(s)@.methods[j]
                    },
            ),
            ..old(s)@
        }),
{
    let ghost s0 = s@;
    let ghost ms0 = s0.methods;
    let ghost target = Seq::new(
        ms0.len(),
        |j: int|
            if server_hit(nrs@, nrm@, s0.service_name, ms0[j].0) {
                (ms0[j].0, MethodView { servers: ms0[j].1.servers.push(ep@), ..ms0[j].1 })
            } else {
                ms0[j]
            },
    );
    let nsv = norm_chars(&s.service_name);
    let svc_match = contains_seq(nrs, &nsv) || contains_seq(&nsv, nrs) || contains_str(nrs, "service");
    let n = s.methods.len();
    let mut j: usize = 0;
    while j < n
        invariant
            n == ms0.len(),
            n == s.methods.spec_len(),
            0 <= j <= n,
            s@.service_name == s0.service_name,
            s@.package_name == s0.package_name,
            s@.proto_file == s0.proto_file,
            nsv@ == norm_sym(s0.service_name),
            svc_match == (contains(nrs@, nsv@) || contains(nsv@, nrs@) || contains(nrs@, "service"@)),
            target == Seq::new(
                ms0.len(),
                |j: int|
                    if server_hit(nrs@, nrm@, s0.service_name, ms0[j].0) {
                        (ms0[j].0, MethodView { servers: ms0[j].1.servers.push(ep@), ..ms0[j].1 })
                    } else {
                        ms0[j]
                    },
            ),
            forall|k: int| 0 <= k < n ==> #[trigger] s.methods.key_at(k) == ms0[k].0,
            forall|k: int| 0 <= k < j ==> #[trigger] methods_view(s.methods)[k] == target[k],
            forall|k: int| j <= k < n ==> #[trigger] methods_view(s.methods)[k] == ms0[k],
        decreases n - j,
    {
        let nk = norm_chars(s.methods.key(j));
        let hit = seq_eq(&nk, nrm) && svc_match;
        assert(methods_view(s.methods)[j as int] == ms0[j as int]);
        assert(hit == server_hit(nrs@, nrm@, s0.service_name, ms0[j as int].0));
        if hit {
            let ghost before = s.methods;
            let m = s.methods.val_mut(j);
            let ghost sv0 = m@.servers;
            m.servers.push(copy_server(ep));
            assert(m@.servers =~= sv0.push(ep@));
            assert forall|k: int| 0 <= k < n && k != j implies #[trigger] methods_view(s.methods)[k] == methods_view(before)[k] by {
            }
        }
        j = j + 1;
    }
    assert(methods_view(s.methods) =~= target);
}


fn copy_server(ep: &GrpcServerEndpoint) -> (r: GrpcServerEndpoint)
    ensures
        r@ == ep@,
{
    GrpcServerEndpoint {
        service: ep.service.clone(),
        controller_class: ep.controller_class.clone(),
        file_path: ep.file_path.clone(),
        line_number: ep.line_number,
    }
}

fn copy_client(ep: &GrpcClientEndpoint) -> (r: GrpcClientEndpoint)
    ensures
        r@ == ep@,
{
    GrpcClientEndpoint {
        service: ep.service.clone(),
        class_name: ep.class_name.clone(),
        file_path: ep.file_path.clone(),
        line_number: ep.line_number,
    }
}


fn add_client_service(s: &mut GrpcServiceNode, ep: &GrpcClientEndpoint)
    ensures
        final(s)@ == (ServiceView {
            methods: Seq::new(
                old(s)@.methods.len(),
                |j: int|
                    (
                        old(s)@.methods[j].0,
                        MethodView { clients: old(s)@.methods[j].1.clients.push(ep@), ..old(s)@.methods[j].1 },
                    ),
            ),
            ..old(s)@
        }),
{
    let ghost s0 = s@;
    let ghost ms0 = s0.methods;
    let ghost target = Seq::new(
        ms0.len(),
        |j: int| (ms0[j].0, MethodView { clients: ms0[j].1.clients.push(ep@), ..ms0[j].1 }),
    );
    let n = s.methods.len();
    let mut j: usize = 0;
    while j < n
        invariant
            n == ms0.len(),
            n == s.methods.spec_len(),
            0 <= j <= n,
            s@.service_name == s0.service_name,
            s@.package_name == s0.package_name,
            s@.proto_file == s0.proto_file,
            target == Seq::new(
                ms0.len(),
                |j: int| (ms0[j].0, MethodView { clients: ms0[j].1.clients.push(ep@), ..ms0[j].1 }),
            ),
            forall|k: int| 0 <= k < n ==> #[trigger] s.methods.key_at(k) == ms0[k].0,
            forall|k: int| 0 <= k < j ==> #[trigger] methods_view(s.methods)[k] == target[k],
            forall|k: int| j <= k < n ==> #[trigger] methods_view(s.methods)[k] == ms0[k],
        decreases n - j,
    {
        assert(methods_view(s.methods)[j as int] == ms0[j as int]);
        let ghost before = s.methods;
        let m = s.methods.val_mut(j);
        let ghost cv0 = m@.clients;
        m.clients.push(copy_client(ep));
        assert(m@.clients =~= cv0.push(ep@));
        assert forall|k: int| 0 <= k < n && k != j implies #[trigger] methods_view(s.methods)[k] == methods_view(before)[k] by {
        }
        j = j + 1;
    }
    assert(methods_view(s.methods) =~= target);
}

fn add_server(graph: &mut GrpcFlowGraph, nrs: &Vec<char>, nrm: &Vec<char>, ep: &GrpcServerEndpoint)
    ensures
        final(graph)@ == (GrpcFlowView { services: server_services(old(graph)@.services, nrs@, nrm@, ep@), ..old(graph)@ }),
{
    let ghost g0 = graph@;
    let ghost ss0 = g0.services;
    let n = graph.services.len();
    let mut i: usize = 0;
    while i < n
        invariant
            n == ss0.len(),
            n == graph.services.spec_len(),
            0 <= i <= n,
            graph@.method_to_service == g0.method_to_service,
            graph@.gateway_contract_to_method == g0.gateway_contract_to_method,
            forall|k: int| 0 <= k < n ==> #[trigger] graph.services.key_at(k) == ss0[k].0,
            forall|k: int| 0 <= k < i ==> #[trigger] services_view(graph.services)[k] == server_services(ss0, nrs@, nrm@, ep@)[k],
            forall|k: int| i <= k < n ==> #[trigger] services_view(graph.services)[k] == ss0[k],
        decreases n - i,
    {
        let ghost before = graph.services;
        assert(services_view(graph.services)[i as int] == ss0[i as int]);
        let s = graph.services.val_mut(i);
        add_server_service(s, nrs, nrm, ep);
        assert(services_view(graph.services)[i as int] == server_services(ss0, nrs@, nrm@, ep@)[i as int]);
        assert forall|k: int| 0 <= k < n && k != i implies #[trigger] services_view(graph.services)[k] == services_view(before)[k] by {
        }
        i = i + 1;
    }
    assert(services_view(graph.services) =~= server_services(ss0, nrs@, nrm@, ep@));
}

fn add_client(graph: &mut GrpcFlowGraph, npkg: &Vec<char>, ep: &GrpcClientEndpoint)
    ensures
        final(graph)@ == (GrpcFlowView { services: client_services(old(graph)@.services, npkg@, ep@), ..old(graph)@ }),
{
    let ghost g0 = graph@;
    let ghost ss0 = g0.services;
    let n = graph.services.len();
    let mut i: usize = 0;
    while i < n
        invariant
            n == ss0.len(),
            n == graph.services.spec_len(),
            0 <= i <= n,
            graph@.method_to_service == g0.method_to_service,
            graph@.gateway_contract_to_method == g0.gateway_contract_to_method,
            forall|k: int| 0 <= k < n ==> #[trigger] graph.services.key_at(k) == ss0[k].0,
            forall|k: int| 0 <= k < i ==> #[trigger] services_view(graph.services)[k] == client_services(ss0, npkg@, ep@)[k],
            forall|k: int| i <= k < n ==> #[trigger] services_view(graph.services)[k] == ss0[k],
        decreases n - i,
    {
        let ghost before = graph.services;
        assert(services_view(graph.services)[i as int] == ss0[i as int]);
        let sref = graph.services.val(i);
        let nsv = norm_chars(&sref.service_name);
        let npk = norm_chars(&sref.package_name);
        if contains_seq(&nsv, npkg) || contains_seq(&npk, npkg) {
            let s = graph.services.val_mut(i);
            add_client_service(s, ep);
            assert forall|k: int| 0 <= k < n && k != i implies #[trigger] services_view(graph.services)[k] == services_view(before)[k] by {
            }
        }
        assert(services_view(graph.services)[i as int] == client_services(ss0, npkg@, ep@)[i as int]);
        i = i + 1;
    }
    assert(services_view(graph.services) =~= client_services(ss0, npkg@, ep@));
}


/// `package name;` in a `.proto` file.
pub const PROTO_PACKAGE: &'static str = r"(?m)^\s*package\s+([a-zA-Z0-9_.]+)\s*;";

/// A `service Name` line.
pub const PROTO_SERVICE_START: &'static str = r"^\s*service\s+([a-zA-Z0-9_]+)";

/// An `rpc Method(Request) returns (Response)` line.
pub const PROTO_RPC: &'static str =
    r"^\s*rpc\s+([a-zA-Z0-9_]+)\s*\(\s*([a-zA-Z0-9_.]+)\s*\)\s*returns\s*\(\s*([a-zA-Z0-9_.]+)\s*\)";

/// A `@GrpcMethod(service, method)` decorator.
pub const GRPC_METHOD_LITERAL: &'static str =
    r#"@GrpcMethod\s*\(\s*([a-zA-Z0-9_'"\.]+)\s*,\s*([a-zA-Z0-9_'"\.]+)\s*\)"#;

/// An exported class.
pub const CLASS_NAME: &'static str = r"(?m)export\s+class\s+([a-zA-Z0-9_]+)";

/// An injected `ClientGrpc` with its package token.
pub const GRPC_INJECT: &'static str =
    r#"@Inject\s*\(\s*([a-zA-Z0-9_]+)\s*\)\s*(?:private|protected|public|readonly)?\s*(?:readonly)?\s*([a-zA-Z0-9_]+)\s*:\s*ClientGrpc"#;

/// A gateway contract that extends a command, query or response.
pub const GATEWAY_INTERFACE: &'static str =
    r"(?m)export\s+interface\s+([a-zA-Z0-9_]+(?:Request|Response))\s+extends\s+(?:Omit<)?([a-zA-Z0-9_]+(?:Command|Query|Response))?";

/// Any gateway contract.
pub const GATEWAY_STANDALONE: &'static str = r"(?m)export\s+interface\s+([a-zA-Z0-9_]+(?:Request|Response))";

/// The contracts of a gateway file that extend a command: each is bound to
/// the methods its base command or its name designates.
pub open spec fn extends_contracts(g: GrpcFlowView, path: Seq<char>, c: Seq<char>, caps: Seq<Seq<Span>>) -> GrpcFlowView
    decreases caps.len(),
{
    if caps.len() == 0 {
        g
    } else {
        let g0 = extends_contracts(g, path, c, caps.drop_last());
        match cap_text(c, caps.last(), 1) {
            Some(name) => contract_step(
                g0,
                false,
                name,
                match cap_text(c, caps.last(), 2) {
                    Some(b) => Some(norm_sym(b)),
                    None => None,
                },
                path,
            ),
            None => g0,
        }
    }
}

/// Every contract of a gateway file, bound by name to the methods it
/// designates (without replacing a contract already bound).
pub open spec fn standalone_contracts(g: GrpcFlowView, path: Seq<char>, c: Seq<char>, caps: Seq<Seq<Span>>) -> GrpcFlowView
    decreases caps.len(),
{
    if caps.len() == 0 {
        g
    } else {
        let g0 = standalone_contracts(g, path, c, caps.drop_last());
        match cap_text(c, caps.last(), 1) {
            Some(name) => contract_step(g0, true, name, None, path),
            None => g0,
        }
    }
}

/// What one file of the gateway contracts adds to the graph.
pub open spec fn scan_gateway(g: GrpcFlowView, path: Seq<char>, c: Seq<char>) -> GrpcFlowView {
    if is_ts_source(path) {
        standalone_contracts(
            extends_contracts(g, path, c, regex_captures(GATEWAY_INTERFACE@, c)),
            path,
            c,
            regex_captures(GATEWAY_STANDALONE@, c),
        )
    } else {
        g
    }
}

/// Records the gateway contracts that extend a command of a file, given as the capture spans of their
/// matches in `content` (whose characters are `text`): each bound to the methods it designates.
pub fn extends_contracts_in(graph: &mut GrpcFlowGraph, path: &str, text: &Vec<char>, content: &str, caps: &Vec<Vec<Span>>)
    requires
        text@ == content@,
    ensures
        final(graph)@ == extends_contracts(old(graph)@, path@, content@, caps_view(caps@)),
{
    let ghost cs = caps_view(caps@);
    let ghost g0 = graph@;
    let mut i: usize = 0;
    assert(cs.take(0) =~= Seq::<Seq<Span>>::empty());
    while i < caps.len()
        invariant
            caps@.len() == cs.len(),
            forall|k: int| 0 <= k < caps@.len() ==> #[trigger] caps@[k]@ == cs[k],
            text@ == content@,
            0 <= i <= caps@.len(),
            graph@ == extends_contracts(g0, path@, content@, cs.take(i as int)),
        decreases caps@.len() - i,
    {
        let cap = &caps[i];
        assert(cs.take(i + 1).drop_last() =~= cs.take(i as int));
        assert(cs.take(i + 1).last() == cap@);
        match cap_text_exec(text, cap, 1) {
            Some(name) => {
                let nbase = match cap_text_exec(text, cap, 2) {
                    Some(b) => {
                        let bs = string_from_chars(&b);
                        Some(norm_chars(&bs))
                    },
                    None => None,
                };
                apply_contract(graph, false, &name, &nbase, path);
            },
            None => {},
        }
        i = i + 1;
    }
    assert(cs.take(i as int) =~= cs);
}

/// Records the gateway contracts of a file, given as the capture spans of their
/// matches in `content` (whose characters are `text`): each bound by name to the methods it designates.
pub fn standalone_contracts_in(graph: &mut GrpcFlowGraph, path: &str, text: &Vec<char>, content: &str, caps: &Vec<Vec<Span>>)
    requires
        text@ == content@,
    ensures
        final(graph)@ == standalone_contracts(old(graph)@, path@, content@, caps_view(caps@)),
{
    let ghost cs = caps_view(caps@);
    let ghost g0 = graph@;
    let mut i: usize = 0;
    assert(cs.take(0) =~= Seq::<Seq<Span>>::empty());
    while i < caps.len()
        invariant
            caps@.len() == cs.len(),
            forall|k: int| 0 <= k < caps@.len() ==> #[trigger] caps@[k]@ == cs[k],
            text@ == content@,
            0 <= i <= caps@.len(),
            graph@ == standalone_contracts(g0, path@, content@, cs.take(i as int)),
        decreases caps@.len() - i,
    {
        let cap = &caps[i];
        assert(cs.take(i + 1).drop_last() =~= cs.take(i as int));
        assert(cs.take(i + 1).last() == cap@);
        match cap_text_exec(text, cap, 1) {
            Some(name) => {
                apply_contract(graph, true, &name, &None, path);
            },
            None => {},
        }
        i = i + 1;
    }
    assert(cs.take(i as int) =~= cs);
}

/// Binds the gateway contracts of one file to the methods they designate
/// and indexes them (see `scan_gateway`).
pub fn scan_gateway_file(graph: &mut GrpcFlowGraph, path: &str, content: &str)
    ensures
        final(graph)@ == scan_gateway(old(graph)@, path@, content@),
{
    let p = chars_of(path);
    if !(ends_with_str(&p, ".ts") && !ends_with_str(&p, ".d.ts")) {
        return;
    }
    let text = chars_of(content);
    extends_contracts_in(graph, path, &text, content, &captures_of(GATEWAY_INTERFACE, content));
    standalone_contracts_in(graph, path, &text, content, &captures_of(GATEWAY_STANDALONE, content));
}

/// The first exported class of a file, or `UnknownClass`.
pub open spec fn class_of(c: Seq<char>) -> Seq<char> {
    match first_capture(CLASS_NAME@, c) {
        Some(cap) => match cap_text(c, cap, 1) {
            Some(t) => t,
            None => "UnknownClass"@,
        },
        None => "UnknownClass"@,
    }
}

/// The `@GrpcMethod` controllers of a file, recorded on the methods they implement.
pub open spec fn grpc_servers(g: GrpcFlowView, path: Seq<char>, c: Seq<char>, caps: Seq<Seq<Span>>) -> GrpcFlowView
    decreases caps.len(),
{
    if caps.len() == 0 {
        g
    } else {
        let g0 = grpc_servers(g, path, c, caps.drop_last());
        let cap = caps.last();
        match (group(cap, 0), cap_text(c, cap, 1), cap_text(c, cap, 2)) {
            (Some(m), Some(raw_svc), Some(raw_method)) => {
                let ep = ServerView {
                    service: service_of(path),
                    controller_class: class_of(c),
                    file_path: path,
                    line_number: line_at(c, m.0),
                };
                GrpcFlowView {
                    services: server_services(
                        g0.services,
                        norm_sym(raw_svc),
                        norm_sym(last_piece(raw_method, '.')),
                        ep,
                    ),
                    ..g0
                }
            },
            _ => g0,
        }
    }
}

/// The injected gRPC clients of a file, recorded on every method of the
/// services their package designates (`package` removed from the token).
pub open spec fn grpc_clients(g: GrpcFlowView, path: Seq<char>, c: Seq<char>, caps: Seq<Seq<Span>>) -> GrpcFlowView
    decreases caps.len(),
{
    if caps.len() == 0 {
        g
    } else {
        let g0 = grpc_clients(g, path, c, caps.drop_last());
        let cap = caps.last();
        match (group(cap, 0), cap_text(c, cap, 1)) {
            (Some(m), Some(pkg)) => {
                let ep = ClientView {
                    service: service_of(path),
                    class_name: class_of(c),
                    file_path: path,
                    line_number: line_at(c, m.0),
                };
                GrpcFlowView {
                    services: client_services(g0.services, remove_all(norm_sym(pkg), "package"@), ep),
                    ..g0
                }
            },
            _ => g0,
        }
    }
}

/// What one source file adds to the gRPC graph: its controllers (when it
/// mentions `@GrpcMethod`) and its clients (when it mentions `ClientGrpc`).
pub open spec fn scan_grpc_code(g: GrpcFlowView, path: Seq<char>, c: Seq<char>) -> GrpcFlowView {
    if !is_ts_source(path) {
        g
    } else {
        let g1 = if contains(c, "@GrpcMethod"@) {
            grpc_servers(g, path, c, regex_captures(GRPC_METHOD_LITERAL@, c))
        } else {
            g
        };
        if contains(c, "ClientGrpc"@) {
            grpc_clients(g1, path, c, regex_captures(GRPC_INJECT@, c))
        } else {
            g1
        }
    }
}

fn class_of_exec(text: &Vec<char>, content: &str) -> (r: String)
    requires
        text@ == content@,
    ensures
        r@ == class_of(content@),
{
    match first_capture_exec(CLASS_NAME, content) {
        Some(cap) => match cap_text_exec(text, &cap, 1) {
            Some(t) => string_from_chars(&t),
            None => crate::text::owned("UnknownClass"),
        },
        None => crate::text::owned("UnknownClass"),
    }
}

/// Records the `@GrpcMethod` controllers of a file, given as the capture spans of their
/// matches in `content` (whose characters are `text`): each on the methods it implements.
pub fn grpc_servers_in(graph: &mut GrpcFlowGraph, path: &str, text: &Vec<char>, content: &str, caps: &Vec<Vec<Span>>)
    requires
        text@ == content@,
        content@.len() < usize::MAX,
    ensures
        final(graph)@ == grpc_servers(old(graph)@, path@, content@, caps_view(caps@)),
{
    let ghost cs = caps_view(caps@);
    let ghost g0 = graph@;
    let class = class_of_exec(text, content);
    let service = extract_service_name(path);
    let mut i: usize = 0;
    assert(cs.take(0) =~= Seq::<Seq<Span>>::empty());
    while i < caps.len()
        invariant
            caps@.len() == cs.len(),
            forall|k: int| 0 <= k < caps@.len() ==> #[trigger] caps@[k]@ == cs[k],
            text@ == content@,
            content@.len() < usize::MAX,
            class@ == class_of(content@),
            service@ == service_of(path@),
            0 <= i <= caps@.len(),
            graph@ == grpc_servers(g0, path@, content@, cs.take(i as int)),
        decreases caps@.len() - i,
    {
        let cap = &caps[i];
        assert(cs.take(i + 1).drop_last() =~= cs.take(i as int));
        assert(cs.take(i + 1).last() == cap@);
        let m = group_at(cap, 0);
        let rs = cap_text_exec(text, cap, 1);
        let rm = cap_text_exec(text, cap, 2);
        match (m, rs, rm) {
            (Some(m), Some(rsc), Some(rmc)) => {
                let line = lines_before_exec(text, m.0) + 1;
                let ep = GrpcServerEndpoint {
                    service: service.clone(),
                    controller_class: class.clone(),
                    file_path: crate::text::owned(path),
                    line_number: line,
                };
                let rss = string_from_chars(&rsc);
                let nrs = norm_chars(&rss);
                let mk = last_piece_seq(&rmc, '.');
                let mks = string_from_chars(&mk);
                let nrm = norm_chars(&mks);
                add_server(graph, &nrs, &nrm, &ep);
            },
            _ => {},
        }
        i = i + 1;
    }
    assert(cs.take(i as int) =~= cs);
}

/// Records the injected gRPC clients of a file, given as the capture spans of their
/// matches in `content` (whose characters are `text`): each on the methods of the services it designates.
pub fn grpc_clients_in(graph: &mut GrpcFlowGraph, path: &str, text: &Vec<char>, content: &str, caps: &Vec<Vec<Span>>)
    requires
        text@ == content@,
        content@.len() < usize::MAX,
    ensures
        final(graph)@ == grpc_clients(old(graph)@, path@, content@, caps_view(caps@)),
{
    let ghost cs = caps_view(caps@);
    let ghost g0 = graph@;
    let class = class_of_exec(text, content);
    let service = extract_service_name(path);
    let pk = chars_of("package");
    proof {
        reveal_strlit("package");
    }
    let mut i: usize = 0;
    assert(cs.take(0) =~= Seq::<Seq<Span>>::empty());
    while i < caps.len()
        invariant
            caps@.len() == cs.len(),
            forall|k: int| 0 <= k < caps@.len() ==> #[trigger] caps@[k]@ == cs[k],
            text@ == content@,
            content@.len() < usize::MAX,
            class@ == class_of(content@),
            service@ == service_of(path@),
            pk@ == "package"@,
            pk@.len() > 0,
            0 <= i <= caps@.len(),
            graph@ == grpc_clients(g0, path@, content@, cs.take(i as int)),
        decreases caps@.len() - i,
    {
        let cap = &caps[i];
        assert(cs.take(i + 1).drop_last() =~= cs.take(i as int));
        assert(cs.take(i + 1).last() == cap@);
        let m = group_at(cap, 0);
        let pkg = cap_text_exec(text, cap, 1);
        match (m, pkg) {
            (Some(m), Some(pc)) => {
                let line = lines_before_exec(text, m.0) + 1;
                let ep = GrpcClientEndpoint {
                    service: service.clone(),
                    class_name: class.clone(),
                    file_path: crate::text::owned(path),
                    line_number: line,
                };
                let ps = string_from_chars(&pc);
                let np = norm_chars(&ps);
                let npkg = remove_all_seq(&np, &pk);
                add_client(graph, &npkg, &ep);
            },
            _ => {},
        }
        i = i + 1;
    }
    assert(cs.take(i as int) =~= cs);
}

/// Records the gRPC controllers and clients of one source file (see
/// `scan_grpc_code`).
pub fn scan_grpc_code_file(graph: &mut GrpcFlowGraph, path: &str, content: &str)
    requires
        content@.len() < usize::MAX,
    ensures
        final(graph)@ == scan_grpc_code(old(graph)@, path@, content@),
{
    let p = chars_of(path);
    if !(ends_with_str(&p, ".ts") && !ends_with_str(&p, ".d.ts")) {
        return;
    }
    let text = chars_of(content);
    if contains_str(&text, "@GrpcMethod") {
        grpc_servers_in(graph, path, &text, content, &captures_of(GRPC_METHOD_LITERAL, content));
    }
    if contains_str(&text, "ClientGrpc") {
        grpc_clients_in(graph, path, &text, content, &captures_of(GRPC_INJECT, content));
    }
}


/// The lines of `c` as `str::lines` cuts them, except that a line ending in
/// `\r\n` keeps its `\r` (every use trims it away).
pub open spec fn line_pieces(c: Seq<char>) -> Seq<Seq<char>> {
    if c.len() == 0 {
        seq![]
    } else if c.last() == '\n' {
        split_char(c, '\n').drop_last()
    } else {
        split_char(c, '\n')
    }
}

/// The package declared in a `.proto` file, or `default`.
pub open spec fn package_of(c: Seq<char>) -> Seq<char> {
    match first_capture(PROTO_PACKAGE@, c) {
        Some(cap) => match cap_text(c, cap, 1) {
            Some(t) => t,
            None => "default"@,
        },
        None => "default"@,
    }
}

/// The graph with service `name` declared unless it is already known.
pub open spec fn with_service(g: GrpcFlowView, name: Seq<char>, pkg: Seq<char>, path: Seq<char>) -> GrpcFlowView {
    if al_find(g.services, name) < g.services.len() {
        g
    } else {
        GrpcFlowView {
            services: g.services.push(
                (name, ServiceView { service_name: name, package_name: pkg, proto_file: path, methods: seq![] }),
            ),
            ..g
        }
    }
}

/// One trimmed line `t` of a `.proto` file, given the service being read and
/// the first matches in `t` of a service start (`svc_cap`) and of an `rpc`
/// declaration (`rpc_cap`): `service X` declares `X` and opens it, `}`
/// closes it, and `rpc M(Req) returns (Resp)` inside a service declares `M`.
pub open spec fn proto_line_with(
    g: GrpcFlowView,
    cur: Option<Seq<char>>,
    path: Seq<char>,
    pkg: Seq<char>,
    t: Seq<char>,
    svc_cap: Option<Seq<Span>>,
    rpc_cap: Option<Seq<Span>>,
) -> (GrpcFlowView, Option<Seq<char>>) {
    match svc_cap {
        Some(cap) => match cap_text(t, cap, 1) {
            Some(name) => (with_service(g, name, pkg, path), Some(name)),
            None => (g, cur),
        },
        None => if t == "}"@ {
            (g, None)
        } else {
            match cur {
                Some(svc) => match rpc_cap {
                    Some(rc) => match (cap_text(t, rc, 1), cap_text(t, rc, 2), cap_text(t, rc, 3)) {
                        (Some(mn), Some(rq), Some(rs)) => (
                            if al_find(g.services, svc) < g.services.len() {
                                with_method(g, svc, mn, lower(mn), new_method(mn, svc, path, rq, rs))
                            } else {
                                g
                            },
                            cur,
                        ),
                        _ => (g, cur),
                    },
                    None => (g, cur),
                },
                None => (g, cur),
            }
        },
    }
}

/// One line of a `.proto` file, given the service being read (see
/// `proto_line_with`, over the line trimmed).
pub open spec fn proto_line(
    g: GrpcFlowView,
    cur: Option<Seq<char>>,
    path: Seq<char>,
    pkg: Seq<char>,
    line: Seq<char>,
) -> (GrpcFlowView, Option<Seq<char>>) {
    let t = trim(line);
    proto_line_with(g, cur, path, pkg, t, first_capture(PROTO_SERVICE_START@, t), first_capture(PROTO_RPC@, t))
}

/// The graph and open service after the given lines of a `.proto` file.
pub open spec fn proto_lines(
    g: GrpcFlowView,
    path: Seq<char>,
    pkg: Seq<char>,
    lines: Seq<Seq<char>>,
) -> (GrpcFlowView, Option<Seq<char>>)
    decreases lines.len(),
{
    if lines.len() == 0 {
        (g, None)
    } else {
        let (g0, c0) = proto_lines(g, path, pkg, lines.drop_last());
        proto_line(g0, c0, path, pkg, lines.last())
    }
}

/// What one `.proto` file adds to the graph: its services and their methods.
pub open spec fn scan_proto(g: GrpcFlowView, path: Seq<char>, c: Seq<char>) -> GrpcFlowView {
    if ends_with(path, ".proto"@) {
        proto_lines(g, path, package_of(c), line_pieces(c)).0
    } else {
        g
    }
}

fn line_pieces_exec(text: &Vec<char>) -> (r: Vec<Vec<char>>)
    ensures
        r@.len() == line_pieces(text@).len(),
        forall|i: int| 0 <= i < r@.len() ==> #[trigger] r@[i]@ == line_pieces(text@)[i],
{
    if text.len() == 0 {
        return Vec::new();
    }
    let mut parts = split_char_seq(text, '\n');
    if text[text.len() - 1] == '\n' {
        let ghost p0 = parts@;
        parts.pop();
        assert(parts@ =~= p0.drop_last());
    }
    parts
}

fn proto_line_exec(
    graph: &mut GrpcFlowGraph,
    cur: &mut Option<String>,
    path: &str,
    pkg: &String,
    line: &Vec<char>,
)
    ensures
        (final(graph)@, opt_text(*final(cur))) == proto_line(old(graph)@, opt_text(*old(cur)), path@, pkg@, line@),
{
    let t = trim_seq(line);
    let ts = string_from_chars(&t);
    let svc_cap = first_capture_exec(PROTO_SERVICE_START, ts.as_str());
    let rpc_cap = first_capture_exec(PROTO_RPC, ts.as_str());
    proto_line_from(graph, cur, path, pkg, &t, &svc_cap, &rpc_cap);
}

/// The view of an optional match.
pub open spec fn opt_cap(c: Option<Vec<Span>>) -> Option<Seq<Span>> {
    match c {
        Some(v) => Some(v@),
        None => None,
    }
}

/// Reads one trimmed line `t` of a `.proto` file, given the first matches
/// in `t` of a service start and of an `rpc` declaration (see
/// `proto_line_with`).
pub fn proto_line_from(
    graph: &mut GrpcFlowGraph,
    cur: &mut Option<String>,
    path: &str,
    pkg: &String,
    t: &Vec<char>,
    svc_cap: &Option<Vec<Span>>,
    rpc_cap: &Option<Vec<Span>>,
)
    ensures
        (final(graph)@, opt_text(*final(cur))) == proto_line_with(
            old(graph)@,
            opt_text(*old(cur)),
            path@,
            pkg@,
            t@,
            opt_cap(*svc_cap),
            opt_cap(*rpc_cap),
        ),
{
    match svc_cap {
        Some(cap) => {
            match cap_text_exec(t, cap, 1) {
                Some(name) => {
                    let ns = string_from_chars(&name);
                    let ghost g0 = graph@;
                    proof {
                        lemma_find_agrees(graph.services, services_view(graph.services), name@, 0);
                    }
                    graph.add_service(ns, pkg.clone(), crate::text::owned(path));
                    *cur = Some(string_from_chars(&name));
                },
                None => {},
            }
        },
        None => {
            if eq_str(t, "}") {
                *cur = None;
            } else {
                match cur {
                    Some(svc) => {
                        match rpc_cap {
                            Some(rc) => {
                                let mn = cap_text_exec(t, rc, 1);
                                let rq = cap_text_exec(t, rc, 2);
                                let rs = cap_text_exec(t, rc, 3);
                                match (mn, rq, rs) {
                                    (Some(mc), Some(qc), Some(sc)) => {
                                        let ms = string_from_chars(&mc);
                                        let lm = to_lowercase(ms.as_str());
                                        graph.set_method(
                                            svc.as_str(),
                                            ms,
                                            lm,
                                            string_from_chars(&qc),
                                            string_from_chars(&sc),
                                            crate::text::owned(path),
                                        );
                                    },
                                    _ => {},
                                }
                            },
                            None => {},
                        }
                    },
                    None => {},
                }
            }
        },
    }
}

fn package_of_exec(text: &Vec<char>, content: &str) -> (r: String)
    requires
        text@ == content@,
    ensures
        r@ == package_of(content@),
{
    match first_capture_exec(PROTO_PACKAGE, content) {
        Some(cap) => match cap_text_exec(text, &cap, 1) {
            Some(t) => string_from_chars(&t),
            None => crate::text::owned("default"),
        },
        None => crate::text::owned("default"),
    }
}

/// Declares the services and methods of one `.proto` file (see `scan_proto`).
pub fn scan_proto_file(graph: &mut GrpcFlowGraph, path: &str, content: &str)
    ensures
        final(graph)@ == scan_proto(old(graph)@, path@, content@),
{
    let p = chars_of(path);
    if !ends_with_str(&p, ".proto") {
        return;
    }
    let text = chars_of(content);
    let pkg = package_of_exec(&text, content);
    let lines = line_pieces_exec(&text);
    let ghost ls = line_pieces(text@);
    let ghost g0 = graph@;
    let mut cur: Option<String> = None;
    let mut i: usize = 0;
    assert(ls.take(0) =~= Seq::<Seq<char>>::empty());
    while i < lines.len()
        invariant
            ls == line_pieces(text@),
            text@ == content@,
            pkg@ == package_of(content@),
            lines@.len() == ls.len(),
            forall|k: int| 0 <= k < lines@.len() ==> #[trigger] lines@[k]@ == ls[k],
            0 <= i <= lines@.len(),
            (graph@, opt_text(cur)) == proto_lines(g0, path@, pkg@, ls.take(i as int)),
        decreases lines@.len() - i,
    {
        assert(ls.take(i + 1).drop_last() =~= ls.take(i as int));
        assert(ls.take(i + 1).last() == lines@[i as int]@);
        proto_line_exec(graph, &mut cur, path, &pkg, &lines[i]);
        i = i + 1;
    }
    assert(ls.take(i as int) =~= ls);
}


/// The graph after each `.proto` file in turn.
pub open spec fn scan_all_protos(g: GrpcFlowView, files: Seq<(Seq<char>, Seq<char>)>) -> GrpcFlowView
    decreases files.len(),
{
    if files.len() == 0 {
        g
    } else {
        scan_proto(scan_all_protos(g, files.drop_last()), files.last().0, files.last().1)
    }
}

/// The graph after each gateway contract file in turn.
pub open spec fn scan_all_gateways(g: GrpcFlowView, files: Seq<(Seq<char>, Seq<char>)>) -> GrpcFlowView
    decreases files.len(),
{
    if files.len() == 0 {
        g
    } else {
        scan_gateway(scan_all_gateways(g, files.drop_last()), files.last().0, files.last().1)
    }
}

/// The graph after each source file in turn.
pub open spec fn scan_all_code(g: GrpcFlowView, files: Seq<(Seq<char>, Seq<char>)>) -> GrpcFlowView
    decreases files.len(),
{
    if files.len() == 0 {
        g
    } else {
        scan_grpc_code(scan_all_code(g, files.drop_last()), files.last().0, files.last().1)
    }
}

/// The empty gRPC graph.
pub open spec fn empty_grpc() -> GrpcFlowView {
    GrpcFlowView { services: seq![], method_to_service: seq![], gateway_contract_to_method: seq![] }
}

/// The gRPC graph of a code base: the `.proto` files of the registry, then
/// the gateway contracts, then every source file.
pub open spec fn grpc_flow_of(
    protos: Seq<(Seq<char>, Seq<char>)>,
    gateways: Seq<(Seq<char>, Seq<char>)>,
    code: Seq<(Seq<char>, Seq<char>)>,
) -> GrpcFlowView {
    scan_all_code(scan_all_gateways(scan_all_protos(empty_grpc(), protos), gateways), code)
}

/// Builds the gRPC flow graph from the files of the proto registry, of the
/// gateway contracts and of the whole code base, each given as (path
/// relative to the workspace, content).
pub fn scan_grpc_flow(
    proto_files: &Vec<(String, String)>,
    gateway_files: &Vec<(String, String)>,
    code_files: &Vec<(String, String)>,
) -> (r: GrpcFlowGraph)
    requires
        forall|i: int| 0 <= i < code_files@.len() ==> (#[trigger] code_files@[i]).1@.len() < usize::MAX,
    ensures
        r@ == grpc_flow_of(files_view(proto_files@), files_view(gateway_files@), files_view(code_files@)),
        crate::infrastructure::scanners::grpc_laws::grpc_consistent(r@),
{
    let mut graph = GrpcFlowGraph::new();
    assert(graph@ == empty_grpc()) by {
        assert(graph@.services =~= seq![]);
        assert(graph@.method_to_service =~= seq![]);
        assert(graph@.gateway_contract_to_method =~= seq![]);
    }
    let ghost ps = files_view(proto_files@);
    let mut i: usize = 0;
    while i < proto_files.len()
        invariant
            ps == files_view(proto_files@),
            0 <= i <= proto_files@.len(),
            graph@ == scan_all_protos(empty_grpc(), ps.take(i as int)),
        decreases proto_files@.len() - i,
    {
        let f = &proto_files[i];
        assert(ps.take(i + 1).drop_last() =~= ps.take(i as int));
        assert(ps.take(i + 1).last() == (f.0@, f.1@));
        scan_proto_file(&mut graph, f.0.as_str(), f.1.as_str());
        i = i + 1;
    }
    assert(ps.take(i as int) =~= ps);
    let ghost g1 = graph@;
    let ghost gs = files_view(gateway_files@);
    let mut i: usize = 0;
    while i < gateway_files.len()
        invariant
            gs == files_view(gateway_files@),
            0 <= i <= gateway_files@.len(),
            graph@ == scan_all_gateways(g1, gs.take(i as int)),
        decreases gateway_files@.len() - i,
    {
        let f = &gateway_files[i];
        assert(gs.take(i + 1).drop_last() =~= gs.take(i as int));
        assert(gs.take(i + 1).last() == (f.0@, f.1@));
        scan_gateway_file(&mut graph, f.0.as_str(), f.1.as_str());
        i = i + 1;
    }
    assert(gs.take(i as int) =~= gs);
    let ghost g2 = graph@;
    let ghost cs = files_view(code_files@);
    let mut i: usize = 0;
    while i < code_files.len()
        invariant
            cs == files_view(code_files@),
            forall|k: int| 0 <= k < code_files@.len() ==> (#[trigger] code_files@[k]).1@.len() < usize::MAX,
            0 <= i <= code_files@.len(),
            graph@ == scan_all_code(g2, cs.take(i as int)),
        decreases code_files@.len() - i,
    {
        let f = &code_files[i];
        assert(cs.take(i + 1).drop_last() =~= cs.take(i as int));
        assert(cs.take(i + 1).last() == (f.0@, f.1@));
        scan_grpc_code_file(&mut graph, f.0.as_str(), f.1.as_str());
        i = i + 1;
    }
    assert(cs.take(i as int) =~= cs);
    proof {
        crate::infrastructure::scanners::grpc_laws::lemma_scanned_grpc_consistent(ps, gs, cs);
    }
    graph
}

} // verus!
