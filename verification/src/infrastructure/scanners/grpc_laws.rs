//! What every step of the gRPC scan keeps: each service is filed under its
//! own name, services and methods are never lost, and both reverse indexes
//! only name declared services and methods.
use vstd::prelude::*;

use crate::domain::grpc_flow::{with_method, GrpcFlowView, ServiceView};
use crate::infrastructure::scanners::async_laws::{al_keys, lemma_al_set_keys_at};
use crate::infrastructure::scanners::async_scanner::is_ts_source;
use crate::infrastructure::scanners::grpc_scanner::{
    client_services, contract_methods, contract_services, contract_step, empty_grpc, extends_contracts,
    grpc_clients, grpc_flow_of, grpc_servers, last_contract_hit, last_method_hit, line_pieces, package_of,
    proto_line, proto_lines, scan_all_code, scan_all_gateways, scan_all_protos, scan_gateway, scan_grpc_code,
    scan_proto, server_services, standalone_contracts, with_service, GATEWAY_INTERFACE, GATEWAY_STANDALONE,
    GRPC_INJECT, GRPC_METHOD_LITERAL,
};
use crate::pattern::{cap_text, regex_captures, Span};
use crate::strmap::{al_find, al_get_or, al_set, lemma_al_from_bounds};
use crate::std_text::lower;
use crate::text::{contains, ends_with};

verus! {

/// The service at position `k` is `s` and declares method `m`.
pub open spec fn declares(g: GrpcFlowView, k: int, s: Seq<char>, m: Seq<char>) -> bool {
    0 <= k < g.services.len() && g.services[k].0 == s && al_keys(g.services[k].1.methods).contains(m)
}

/// Some service of `g` is `s` and declares method `m`.
pub open spec fn has_method(g: GrpcFlowView, s: Seq<char>, m: Seq<char>) -> bool {
    exists|k: int| #[trigger] declares(g, k, s, m)
}

/// Some key of `keys`, lower-cased, is `lk`.
pub open spec fn has_lower_key(keys: Seq<Seq<char>>, lk: Seq<char>) -> bool {
    exists|i: int| 0 <= i < keys.len() && lower(#[trigger] keys[i]) == lk
}

/// Service `s` of `g` declares a method whose name, lower-cased, is `lk`.
pub open spec fn lists_method(g: GrpcFlowView, lk: Seq<char>, s: Seq<char>) -> bool {
    exists|k: int|
        0 <= k < g.services.len() && #[trigger] g.services[k].0 == s && has_lower_key(
            al_keys(g.services[k].1.methods),
            lk,
        )
}

/// The gRPC graph is consistent: each service is filed under its own name,
/// every gateway contract leads to a declared method of a declared service,
/// and every service listed for a method name is declared and has a method
/// of that name once lower-cased.
pub open spec fn grpc_consistent(g: GrpcFlowView) -> bool {
    &&& forall|i: int| 0 <= i < g.services.len() ==> (#[trigger] g.services[i]).1.service_name == g.services[i].0
    &&& forall|i: int|
        0 <= i < g.gateway_contract_to_method.len() ==> has_method(
            g,
            (#[trigger] g.gateway_contract_to_method[i]).1.0,
            g.gateway_contract_to_method[i].1.1,
        )
    &&& forall|i: int, j: int|
        0 <= i < g.method_to_service.len() && 0 <= j < g.method_to_service[i].1.len() ==> al_keys(g.services).contains(
            #[trigger] g.method_to_service[i].1[j],
        )
    &&& forall|i: int, j: int|
        0 <= i < g.method_to_service.len() && 0 <= j < g.method_to_service[i].1.len() ==> lists_method(
            g,
            g.method_to_service[i].0,
            #[trigger] g.method_to_service[i].1[j],
        )
}

/// A listed method stays listed in a graph that keeps the services.
proof fn lemma_lists_kept(g: GrpcFlowView, h: GrpcFlowView, lk: Seq<char>, s: Seq<char>)
    requires
        keeps_services(g, h),
        lists_method(g, lk, s),
    ensures
        lists_method(h, lk, s),
{
    let k = choose|k: int|
        0 <= k < g.services.len() && #[trigger] g.services[k].0 == s && has_lower_key(
            al_keys(g.services[k].1.methods),
            lk,
        );
    let ks = al_keys(g.services[k].1.methods);
    let i = choose|i: int| 0 <= i < ks.len() && lower(#[trigger] ks[i]) == lk;
    let m = ks[i];
    assert(ks.contains(m));
    assert(al_keys(h.services[k].1.methods).contains(m));
    let hs = al_keys(h.services[k].1.methods);
    let i2 = choose|i2: int| 0 <= i2 < hs.len() && hs[i2] == m;
    assert(lower(hs[i2]) == lk);
    assert(has_lower_key(hs, lk));
    assert(h.services[k].0 == s);
}

/// `h` keeps the services of `g` at their positions, with their names and
/// at least their methods.
pub open spec fn keeps_services(g: GrpcFlowView, h: GrpcFlowView) -> bool {
    &&& g.services.len() <= h.services.len()
    &&& forall|k: int| 0 <= k < g.services.len() ==> (#[trigger] h.services[k]).0 == g.services[k].0
    &&& forall|k: int, m: Seq<char>|
        0 <= k < g.services.len() && al_keys(g.services[k].1.methods).contains(m) ==> #[trigger] al_keys(
            h.services[k].1.methods,
        ).contains(m)
}

proof fn lemma_keeps_declares(g: GrpcFlowView, h: GrpcFlowView)
    requires
        keeps_services(g, h),
    ensures
        forall|k: int, s: Seq<char>, m: Seq<char>| declares(g, k, s, m) ==> #[trigger] declares(h, k, s, m),
        forall|s: Seq<char>| al_keys(g.services).contains(s) ==> #[trigger] al_keys(h.services).contains(s),
{
    assert forall|s: Seq<char>| al_keys(g.services).contains(s) implies #[trigger] al_keys(h.services).contains(s) by {
        let k = choose|k: int| 0 <= k < al_keys(g.services).len() && al_keys(g.services)[k] == s;
        assert(h.services[k].0 == s);
        assert(al_keys(h.services)[k] == s);
    }
}

proof fn lemma_keeps_trans(a: GrpcFlowView, b: GrpcFlowView, c: GrpcFlowView)
    requires
        keeps_services(a, b),
        keeps_services(b, c),
    ensures
        keeps_services(a, c),
{
    assert forall|k: int, m: Seq<char>|
        0 <= k < a.services.len() && al_keys(a.services[k].1.methods).contains(m) implies #[trigger] al_keys(
        c.services[k].1.methods,
    ).contains(m) by {
        assert(al_keys(b.services[k].1.methods).contains(m));
    }
}

/// A step that keeps the services and leaves both indexes and the names as
/// they were keeps the graph consistent.
proof fn lemma_consistent_kept(g: GrpcFlowView, h: GrpcFlowView)
    requires
        grpc_consistent(g),
        keeps_services(g, h),
        h.services.len() == g.services.len(),
        forall|i: int| 0 <= i < g.services.len() ==> (#[trigger] h.services[i]).1.service_name
            == g.services[i].1.service_name,
        h.gateway_contract_to_method == g.gateway_contract_to_method,
        h.method_to_service == g.method_to_service,
    ensures
        grpc_consistent(h),
{
    lemma_keeps_declares(g, h);
    assert forall|i: int| 0 <= i < h.gateway_contract_to_method.len() implies has_method(
        h,
        (#[trigger] h.gateway_contract_to_method[i]).1.0,
        h.gateway_contract_to_method[i].1.1,
    ) by {
        let e = g.gateway_contract_to_method[i];
        assert(has_method(g, e.1.0, e.1.1));
        let k = choose|k: int| declares(g, k, e.1.0, e.1.1);
        assert(declares(h, k, e.1.0, e.1.1));
    }
    assert forall|i: int, j: int|
        0 <= i < h.method_to_service.len() && 0 <= j < h.method_to_service[i].1.len() implies al_keys(
        h.services,
    ).contains(#[trigger] h.method_to_service[i].1[j]) by {
        assert(al_keys(g.services).contains(g.method_to_service[i].1[j]));
    }
    assert forall|i: int, j: int|
        0 <= i < h.method_to_service.len() && 0 <= j < h.method_to_service[i].1.len() implies lists_method(
        h,
        h.method_to_service[i].0,
        #[trigger] h.method_to_service[i].1[j],
    ) by {
        lemma_lists_kept(g, h, g.method_to_service[i].0, g.method_to_service[i].1[j]);
    }
}

/// Mapping the services while keeping each one's key, name and method keys.
pub open spec fn same_shape(g: GrpcFlowView, h: GrpcFlowView) -> bool {
    &&& h.services.len() == g.services.len()
    &&& forall|i: int| 0 <= i < g.services.len() ==> (#[trigger] h.services[i]).0 == g.services[i].0
        && h.services[i].1.service_name == g.services[i].1.service_name && al_keys(h.services[i].1.methods)
        == al_keys(g.services[i].1.methods)
    &&& h.gateway_contract_to_method == g.gateway_contract_to_method
    &&& h.method_to_service == g.method_to_service
}

proof fn lemma_same_shape(g: GrpcFlowView, h: GrpcFlowView)
    requires
        grpc_consistent(g),
        same_shape(g, h),
    ensures
        grpc_consistent(h),
        keeps_services(g, h),
{
    lemma_consistent_kept(g, h);
}

proof fn lemma_with_service(g: GrpcFlowView, name: Seq<char>, pkg: Seq<char>, path: Seq<char>)
    requires
        grpc_consistent(g),
    ensures
        grpc_consistent(with_service(g, name, pkg, path)),
        keeps_services(g, with_service(g, name, pkg, path)),
{
    let h = with_service(g, name, pkg, path);
    if al_find(g.services, name) >= g.services.len() {
        lemma_keeps_declares(g, h);
        assert forall|k: int, m: Seq<char>|
            0 <= k < g.services.len() && al_keys(g.services[k].1.methods).contains(m) implies #[trigger] al_keys(
            h.services[k].1.methods,
        ).contains(m) by {
            assert(h.services[k] == g.services[k]);
        }
        lemma_consistent_add(g, h);
    }
}

proof fn lemma_consistent_add(g: GrpcFlowView, h: GrpcFlowView)
    requires
        grpc_consistent(g),
        h.services == g.services.push(h.services.last()),
        h.services.last().1.service_name == h.services.last().0,
        h.gateway_contract_to_method == g.gateway_contract_to_method,
        h.method_to_service == g.method_to_service,
    ensures
        grpc_consistent(h),
        keeps_services(g, h),
{
    assert(keeps_services(g, h)) by {
        assert forall|k: int, m: Seq<char>|
            0 <= k < g.services.len() && al_keys(g.services[k].1.methods).contains(m) implies #[trigger] al_keys(
            h.services[k].1.methods,
        ).contains(m) by {
            assert(h.services[k] == g.services[k]);
        }
    }
    lemma_keeps_declares(g, h);
    assert forall|i: int| 0 <= i < h.services.len() implies (#[trigger] h.services[i]).1.service_name
        == h.services[i].0 by {
        if i < g.services.len() {
            assert(h.services[i] == g.services[i]);
        }
    }
    assert forall|i: int| 0 <= i < h.gateway_contract_to_method.len() implies has_method(
        h,
        (#[trigger] h.gateway_contract_to_method[i]).1.0,
        h.gateway_contract_to_method[i].1.1,
    ) by {
        let e = g.gateway_contract_to_method[i];
        assert(has_method(g, e.1.0, e.1.1));
        let k = choose|k: int| declares(g, k, e.1.0, e.1.1);
        assert(declares(h, k, e.1.0, e.1.1));
    }
    assert forall|i: int, j: int|
        0 <= i < h.method_to_service.len() && 0 <= j < h.method_to_service[i].1.len() implies al_keys(
        h.services,
    ).contains(#[trigger] h.method_to_service[i].1[j]) by {
        assert(al_keys(g.services).contains(g.method_to_service[i].1[j]));
    }
    assert forall|i: int, j: int|
        0 <= i < h.method_to_service.len() && 0 <= j < h.method_to_service[i].1.len() implies lists_method(
        h,
        h.method_to_service[i].0,
        #[trigger] h.method_to_service[i].1[j],
    ) by {
        lemma_lists_kept(g, h, g.method_to_service[i].0, g.method_to_service[i].1[j]);
    }
}

/// Appending a declared service to the services listed under a method name
/// keeps every listed service declared.
proof fn lemma_list_service(
    mts: Seq<(Seq<char>, Seq<Seq<char>>)>,
    services: Seq<Seq<char>>,
    key: Seq<char>,
    svc: Seq<char>,
)
    requires
        forall|i: int, j: int| 0 <= i < mts.len() && 0 <= j < mts[i].1.len() ==> services.contains(#[trigger] mts[i].1[j]),
        services.contains(svc),
    ensures
        ({
            let t = al_set(mts, key, al_get_or(mts, key, seq![]).push(svc));
            forall|i: int, j: int| 0 <= i < t.len() && 0 <= j < t[i].1.len() ==> services.contains(#[trigger] t[i].1[j])
        }),
{
    lemma_al_from_bounds(mts, key, 0);
    let p = al_find(mts, key);
    let old_list = al_get_or(mts, key, seq![]);
    let t = al_set(mts, key, old_list.push(svc));
    assert forall|i: int, j: int| 0 <= i < t.len() && 0 <= j < t[i].1.len() implies services.contains(
        #[trigger] t[i].1[j],
    ) by {
        if i == p || (p == mts.len() && i == mts.len()) {
            if j < old_list.len() {
                assert(p < mts.len());
                assert(t[i].1[j] == mts[p].1[j]);
            }
        } else {
            assert(t[i] == mts[i]);
        }
    }
}

proof fn lemma_with_method(
    g: GrpcFlowView,
    svc: Seq<char>,
    method: Seq<char>,
    lower_method: Seq<char>,
    m: crate::domain::grpc_flow::MethodView,
)
    requires
        grpc_consistent(g),
        al_find(g.services, svc) < g.services.len(),
        lower_method == lower(method),
    ensures
        grpc_consistent(with_method(g, svc, method, lower_method, m)),
        keeps_services(g, with_method(g, svc, method, lower_method, m)),
{
    let h = with_method(g, svc, method, lower_method, m);
    let p = al_find(g.services, svc);
    lemma_al_from_bounds(g.services, svc, 0);
    lemma_al_set_keys_at(g.services[p].1.methods, method, m);
    assert(keeps_services(g, h)) by {
        assert forall|k: int| 0 <= k < g.services.len() implies (#[trigger] h.services[k]).0 == g.services[k].0 by {
            if k == p {
            } else {
                assert(h.services[k] == g.services[k]);
            }
        }
        assert forall|k: int, q: Seq<char>|
            0 <= k < g.services.len() && al_keys(g.services[k].1.methods).contains(q) implies #[trigger] al_keys(
            h.services[k].1.methods,
        ).contains(q) by {
            if k != p {
                assert(h.services[k] == g.services[k]);
            }
        }
    }
    lemma_keeps_declares(g, h);
    assert forall|i: int| 0 <= i < h.services.len() implies (#[trigger] h.services[i]).1.service_name
        == h.services[i].0 by {
        if i != p {
            assert(h.services[i] == g.services[i]);
        } else {
            assert(g.services[p].1.service_name == g.services[p].0);
        }
    }
    assert forall|i: int| 0 <= i < h.gateway_contract_to_method.len() implies has_method(
        h,
        (#[trigger] h.gateway_contract_to_method[i]).1.0,
        h.gateway_contract_to_method[i].1.1,
    ) by {
        let e = g.gateway_contract_to_method[i];
        assert(has_method(g, e.1.0, e.1.1));
        let k = choose|k: int| declares(g, k, e.1.0, e.1.1);
        assert(declares(h, k, e.1.0, e.1.1));
    }
    assert(al_keys(g.services).contains(svc)) by {
        assert(al_keys(g.services)[p] == svc);
    }
    lemma_list_service(g.method_to_service, al_keys(g.services), lower_method, svc);
    assert(al_keys(h.services) =~= al_keys(g.services)) by {
        assert forall|k: int| 0 <= k < g.services.len() implies al_keys(h.services)[k] == al_keys(g.services)[k] by {
            if k != p {
                assert(h.services[k] == g.services[k]);
            }
        }
    }
    assert(lists_method(h, lower_method, svc)) by {
        let ks = al_keys(h.services[p].1.methods);
        assert(h.services[p].1.methods == al_set(g.services[p].1.methods, method, m));
        assert(ks.contains(method));
        let i = choose|i: int| 0 <= i < ks.len() && ks[i] == method;
        assert(lower(ks[i]) == lower_method);
        assert(has_lower_key(ks, lower_method));
        assert(h.services[p].0 == svc);
    }
    let mts = g.method_to_service;
    lemma_al_from_bounds(mts, lower_method, 0);
    let q = al_find(mts, lower_method);
    let old_list = al_get_or(mts, lower_method, seq![]);
    let t = h.method_to_service;
    assert(t == al_set(mts, lower_method, old_list.push(svc)));
    assert forall|i: int, j: int| 0 <= i < t.len() && 0 <= j < t[i].1.len() implies lists_method(
        h,
        t[i].0,
        #[trigger] t[i].1[j],
    ) by {
        if i == q || (q == mts.len() && i == mts.len()) {
            assert(t[i].0 == lower_method);
            if j < old_list.len() {
                assert(q < mts.len());
                assert(t[i].1[j] == mts[q].1[j]);
                assert(mts[q].0 == lower_method);
                lemma_lists_kept(g, h, mts[q].0, mts[q].1[j]);
            }
        } else {
            assert(t[i] == mts[i]);
            lemma_lists_kept(g, h, mts[i].0, mts[i].1[j]);
        }
    }
}

proof fn lemma_proto_line(
    g: GrpcFlowView,
    cur: Option<Seq<char>>,
    path: Seq<char>,
    pkg: Seq<char>,
    line: Seq<char>,
)
    requires
        grpc_consistent(g),
    ensures
        grpc_consistent(proto_line(g, cur, path, pkg, line).0),
        keeps_services(g, proto_line(g, cur, path, pkg, line).0),
{
    let h = proto_line(g, cur, path, pkg, line).0;
    if h == g {
    } else {
        let t = crate::text::trim(line);
        match crate::pattern::first_capture(crate::infrastructure::scanners::grpc_scanner::PROTO_SERVICE_START@, t) {
            Some(cap) => {
                let name = crate::pattern::cap_text(t, cap, 1)->0;
                lemma_with_service(g, name, pkg, path);
            },
            None => {
                let svc = cur->0;
                let rc = crate::pattern::first_capture(crate::infrastructure::scanners::grpc_scanner::PROTO_RPC@, t)->0;
                let mn = crate::pattern::cap_text(t, rc, 1)->0;
                let rq = crate::pattern::cap_text(t, rc, 2)->0;
                let rs = crate::pattern::cap_text(t, rc, 3)->0;
                lemma_with_method(
                    g,
                    svc,
                    mn,
                    crate::std_text::lower(mn),
                    crate::domain::grpc_flow::new_method(mn, svc, path, rq, rs),
                );
            },
        }
    }
}

proof fn lemma_proto_lines(g: GrpcFlowView, path: Seq<char>, pkg: Seq<char>, lines: Seq<Seq<char>>)
    requires
        grpc_consistent(g),
    ensures
        grpc_consistent(proto_lines(g, path, pkg, lines).0),
        keeps_services(g, proto_lines(g, path, pkg, lines).0),
    decreases lines.len(),
{
    if lines.len() > 0 {
        lemma_proto_lines(g, path, pkg, lines.drop_last());
        let (g0, c0) = proto_lines(g, path, pkg, lines.drop_last());
        lemma_proto_line(g0, c0, path, pkg, lines.last());
        lemma_keeps_trans(g, g0, proto_lines(g, path, pkg, lines).0);
    }
}

proof fn lemma_scan_all_protos(g: GrpcFlowView, files: Seq<(Seq<char>, Seq<char>)>)
    requires
        grpc_consistent(g),
    ensures
        grpc_consistent(scan_all_protos(g, files)),
    decreases files.len(),
{
    if files.len() > 0 {
        lemma_scan_all_protos(g, files.drop_last());
        let g0 = scan_all_protos(g, files.drop_last());
        let (path, c) = files.last();
        if ends_with(path, ".proto"@) {
            lemma_proto_lines(g0, path, package_of(c), line_pieces(c));
        }
    }
}

/// The method key that the last designated method has, among the first `n`.
proof fn lemma_last_method_hit(
    ms: Seq<(Seq<char>, crate::domain::grpc_flow::MethodView)>,
    standalone: bool,
    nname: Seq<char>,
    nbase: Option<Seq<char>>,
    n: int,
)
    ensures
        last_method_hit(ms, standalone, nname, nbase, n) matches Some(k) ==> al_keys(ms).contains(k),
    decreases n,
{
    if 0 < n <= ms.len() {
        lemma_last_method_hit(ms, standalone, nname, nbase, n - 1);
        if last_method_hit(ms, standalone, nname, nbase, n) == Some(ms[n - 1].0) {
            assert(al_keys(ms)[n - 1] == ms[n - 1].0);
        }
    }
}

proof fn lemma_last_contract_hit(
    g: GrpcFlowView,
    standalone: bool,
    nname: Seq<char>,
    nbase: Option<Seq<char>>,
    n: int,
)
    requires
        grpc_consistent(g),
        n <= g.services.len(),
    ensures
        last_contract_hit(g.services, standalone, nname, nbase, n) matches Some(p) ==> has_method(g, p.0, p.1),
    decreases n,
{
    if n > 0 {
        let ss = g.services;
        lemma_last_method_hit(ss[n - 1].1.methods, standalone, nname, nbase, ss[n - 1].1.methods.len() as int);
        match last_method_hit(ss[n - 1].1.methods, standalone, nname, nbase, ss[n - 1].1.methods.len() as int) {
            Some(k) => {
                assert(ss[n - 1].1.service_name == ss[n - 1].0);
                assert(declares(g, n - 1, ss[n - 1].1.service_name, k));
            },
            None => {
                lemma_last_contract_hit(g, standalone, nname, nbase, n - 1);
            },
        }
    }
}

/// Contract methods keep the keys of the methods.
proof fn lemma_contract_shape(
    g: GrpcFlowView,
    standalone: bool,
    name: Seq<char>,
    nbase: Option<Seq<char>>,
    path: Seq<char>,
)
    ensures
        ({
            let s = contract_services(g.services, standalone, name, nbase, path);
            &&& s.len() == g.services.len()
            &&& forall|i: int| 0 <= i < g.services.len() ==> (#[trigger] s[i]).0 == g.services[i].0
                && s[i].1.service_name == g.services[i].1.service_name && al_keys(s[i].1.methods) == al_keys(
                g.services[i].1.methods,
            )
        }),
{
    let s = contract_services(g.services, standalone, name, nbase, path);
    assert forall|i: int| 0 <= i < g.services.len() implies (#[trigger] s[i]).0 == g.services[i].0
        && s[i].1.service_name == g.services[i].1.service_name && al_keys(s[i].1.methods) == al_keys(
        g.services[i].1.methods,
    ) by {
        assert(al_keys(s[i].1.methods) =~= al_keys(g.services[i].1.methods));
    }
}

proof fn lemma_contract_step(
    g: GrpcFlowView,
    standalone: bool,
    name: Seq<char>,
    nbase: Option<Seq<char>>,
    path: Seq<char>,
)
    requires
        grpc_consistent(g),
    ensures
        grpc_consistent(contract_step(g, standalone, name, nbase, path)),
        keeps_services(g, contract_step(g, standalone, name, nbase, path)),
{
    let h = contract_step(g, standalone, name, nbase, path);
    let mid = GrpcFlowView { services: h.services, ..g };
    lemma_contract_shape(g, standalone, name, nbase, path);
    lemma_same_shape(g, mid);
    let last = last_contract_hit(g.services, standalone, crate::infrastructure::scanners::grpc_scanner::norm_sym(name), nbase, g.services.len() as int);
    lemma_last_contract_hit(g, standalone, crate::infrastructure::scanners::grpc_scanner::norm_sym(name), nbase, g.services.len() as int);
    match last {
        Some(p) => {
            assert(has_method(g, p.0, p.1));
            let k0 = choose|k: int| declares(g, k, p.0, p.1);
            lemma_keeps_declares(g, mid);
            assert(declares(mid, k0, p.0, p.1));
            let gw = g.gateway_contract_to_method;
            lemma_al_from_bounds(gw, name, 0);
            let t = al_set(gw, name, p);
            assert(h.gateway_contract_to_method == t);
            assert forall|i: int| 0 <= i < t.len() implies has_method(h, (#[trigger] t[i]).1.0, t[i].1.1) by {
                if t[i] == (name, p) {
                    assert(declares(h, k0, p.0, p.1));
                } else {
                    assert(t[i] == gw[i]);
                    assert(has_method(g, gw[i].1.0, gw[i].1.1));
                    let k = choose|k: int| declares(g, k, gw[i].1.0, gw[i].1.1);
                    assert(declares(mid, k, gw[i].1.0, gw[i].1.1));
                    assert(declares(h, k, gw[i].1.0, gw[i].1.1));
                }
            }
        },
        None => {},
    }
    assert forall|i: int, j: int|
        0 <= i < h.method_to_service.len() && 0 <= j < h.method_to_service[i].1.len() implies lists_method(
        h,
        h.method_to_service[i].0,
        #[trigger] h.method_to_service[i].1[j],
    ) by {
        assert(lists_method(mid, mid.method_to_service[i].0, mid.method_to_service[i].1[j]));
    }
}

proof fn lemma_extends(g: GrpcFlowView, path: Seq<char>, c: Seq<char>, caps: Seq<Seq<Span>>)
    requires
        grpc_consistent(g),
    ensures
        grpc_consistent(extends_contracts(g, path, c, caps)),
        keeps_services(g, extends_contracts(g, path, c, caps)),
    decreases caps.len(),
{
    if caps.len() > 0 {
        lemma_extends(g, path, c, caps.drop_last());
        let g0 = extends_contracts(g, path, c, caps.drop_last());
        match crate::pattern::cap_text(c, caps.last(), 1) {
            Some(name) => {
                let nb = match crate::pattern::cap_text(c, caps.last(), 2) {
                    Some(b) => Some(crate::infrastructure::scanners::grpc_scanner::norm_sym(b)),
                    None => None,
                };
                lemma_contract_step(g0, false, name, nb, path);
                lemma_keeps_trans(g, g0, contract_step(g0, false, name, nb, path));
            },
            None => {},
        }
    }
}

proof fn lemma_standalone(g: GrpcFlowView, path: Seq<char>, c: Seq<char>, caps: Seq<Seq<Span>>)
    requires
        grpc_consistent(g),
    ensures
        grpc_consistent(standalone_contracts(g, path, c, caps)),
        keeps_services(g, standalone_contracts(g, path, c, caps)),
    decreases caps.len(),
{
    if caps.len() > 0 {
        lemma_standalone(g, path, c, caps.drop_last());
        let g0 = standalone_contracts(g, path, c, caps.drop_last());
        match crate::pattern::cap_text(c, caps.last(), 1) {
            Some(name) => {
                lemma_contract_step(g0, true, name, None, path);
                lemma_keeps_trans(g, g0, contract_step(g0, true, name, None, path));
            },
            None => {},
        }
    }
}

proof fn lemma_scan_all_gateways(g: GrpcFlowView, files: Seq<(Seq<char>, Seq<char>)>)
    requires
        grpc_consistent(g),
    ensures
        grpc_consistent(scan_all_gateways(g, files)),
    decreases files.len(),
{
    if files.len() > 0 {
        lemma_scan_all_gateways(g, files.drop_last());
        let g0 = scan_all_gateways(g, files.drop_last());
        let (path, c) = files.last();
        if is_ts_source(path) {
            let e = extends_contracts(g0, path, c, regex_captures(GATEWAY_INTERFACE@, c));
            lemma_extends(g0, path, c, regex_captures(GATEWAY_INTERFACE@, c));
            lemma_standalone(e, path, c, regex_captures(GATEWAY_STANDALONE@, c));
        }
    }
}

proof fn lemma_servers(g: GrpcFlowView, path: Seq<char>, c: Seq<char>, caps: Seq<Seq<Span>>)
    requires
        grpc_consistent(g),
    ensures
        grpc_consistent(grpc_servers(g, path, c, caps)),
    decreases caps.len(),
{
    if caps.len() > 0 {
        lemma_servers(g, path, c, caps.drop_last());
        let g0 = grpc_servers(g, path, c, caps.drop_last());
        let h = grpc_servers(g, path, c, caps);
        if h != g0 {
            assert forall|i: int| 0 <= i < g0.services.len() implies (#[trigger] h.services[i]).0 == g0.services[i].0
                && h.services[i].1.service_name == g0.services[i].1.service_name && al_keys(h.services[i].1.methods)
                == al_keys(g0.services[i].1.methods) by {
                assert(al_keys(h.services[i].1.methods) =~= al_keys(g0.services[i].1.methods));
            }
            lemma_same_shape(g0, h);
        }
    }
}

proof fn lemma_clients(g: GrpcFlowView, path: Seq<char>, c: Seq<char>, caps: Seq<Seq<Span>>)
    requires
        grpc_consistent(g),
    ensures
        grpc_consistent(grpc_clients(g, path, c, caps)),
    decreases caps.len(),
{
    if caps.len() > 0 {
        lemma_clients(g, path, c, caps.drop_last());
        let g0 = grpc_clients(g, path, c, caps.drop_last());
        let h = grpc_clients(g, path, c, caps);
        if h != g0 {
            assert forall|i: int| 0 <= i < g0.services.len() implies (#[trigger] h.services[i]).0 == g0.services[i].0
                && h.services[i].1.service_name == g0.services[i].1.service_name && al_keys(h.services[i].1.methods)
                == al_keys(g0.services[i].1.methods) by {
                assert(al_keys(h.services[i].1.methods) =~= al_keys(g0.services[i].1.methods));
            }
            lemma_same_shape(g0, h);
        }
    }
}

proof fn lemma_scan_all_code(g: GrpcFlowView, files: Seq<(Seq<char>, Seq<char>)>)
    requires
        grpc_consistent(g),
    ensures
        grpc_consistent(scan_all_code(g, files)),
    decreases files.len(),
{
    if files.len() > 0 {
        lemma_scan_all_code(g, files.drop_last());
        let g0 = scan_all_code(g, files.drop_last());
        let (path, c) = files.last();
        if is_ts_source(path) {
            let g1 = if contains(c, "@GrpcMethod"@) {
                lemma_servers(g0, path, c, regex_captures(GRPC_METHOD_LITERAL@, c));
                grpc_servers(g0, path, c, regex_captures(GRPC_METHOD_LITERAL@, c))
            } else {
                g0
            };
            if contains(c, "ClientGrpc"@) {
                lemma_clients(g1, path, c, regex_captures(GRPC_INJECT@, c));
            }
        }
    }
}

/// The gRPC graph that the scan builds is consistent: each service is filed
/// under its own name, every gateway contract leads to a method that a
/// declared service has, and every service listed under a lower-cased method
/// name is declared and has a method with that name once lower-cased.
pub proof fn lemma_scanned_grpc_consistent(
    protos: Seq<(Seq<char>, Seq<char>)>,
    gateways: Seq<(Seq<char>, Seq<char>)>,
    code: Seq<(Seq<char>, Seq<char>)>,
)
    ensures
        grpc_consistent(grpc_flow_of(protos, gateways, code)),
{
    let e = empty_grpc();
    lemma_scan_all_protos(e, protos);
    let p = scan_all_protos(e, protos);
    lemma_scan_all_gateways(p, gateways);
    lemma_scan_all_code(scan_all_gateways(p, gateways), code);
}

/// A gateway contract name: it ends in `Request` or `Response`.
pub open spec fn contract_named(n: Seq<char>) -> bool {
    ends_with(n, "Request"@) || ends_with(n, "Response"@)
}

/// Every gateway contract that `g` indexes has a contract name.
pub open spec fn contracts_named(g: GrpcFlowView) -> bool {
    forall|i: int|
        0 <= i < g.gateway_contract_to_method.len() ==> contract_named(
            (#[trigger] g.gateway_contract_to_method[i]).0,
        )
}

/// The first group of a match in `c`, where it took part, is a contract name.
pub open spec fn cap_named(c: Seq<char>, cap: Seq<Span>) -> bool {
    match cap_text(c, cap, 1) {
        Some(n) => contract_named(n),
        None => true,
    }
}

/// The first group of each of the matches `caps` in `c` is a contract name.
pub open spec fn captures_named(c: Seq<char>, caps: Seq<Seq<Span>>) -> bool {
    forall|k: int| 0 <= k < caps.len() ==> cap_named(c, #[trigger] caps[k])
}

/// In `c`, the first group of every match of both gateway patterns is a
/// contract name.
pub open spec fn file_captures_named(c: Seq<char>) -> bool {
    &&& captures_named(c, regex_captures(GATEWAY_INTERFACE@, c))
    &&& captures_named(c, regex_captures(GATEWAY_STANDALONE@, c))
}

/// In every TypeScript file among `files`, the gateway patterns capture
/// contract names only.
pub open spec fn gateway_captures_named(files: Seq<(Seq<char>, Seq<char>)>) -> bool {
    forall|f: int| 0 <= f < files.len() && is_ts_source(files[f].0) ==> file_captures_named(#[trigger] files[f].1)
}

proof fn lemma_contract_step_named(
    g: GrpcFlowView,
    standalone: bool,
    name: Seq<char>,
    nbase: Option<Seq<char>>,
    path: Seq<char>,
)
    requires
        contracts_named(g),
        contract_named(name),
    ensures
        contracts_named(contract_step(g, standalone, name, nbase, path)),
{
    let h = contract_step(g, standalone, name, nbase, path);
    let gw = g.gateway_contract_to_method;
    let last = last_contract_hit(
        g.services,
        standalone,
        crate::infrastructure::scanners::grpc_scanner::norm_sym(name),
        nbase,
        g.services.len() as int,
    );
    match last {
        Some(p) => {
            lemma_al_from_bounds(gw, name, 0);
            let t = al_set(gw, name, p);
            assert(h.gateway_contract_to_method == t);
            assert forall|i: int| 0 <= i < t.len() implies contract_named((#[trigger] t[i]).0) by {
                if al_find(gw, name) < gw.len() && i != al_find(gw, name) {
                    assert(t[i] == gw[i]);
                } else if al_find(gw, name) >= gw.len() && i < gw.len() {
                    assert(t[i] == gw[i]);
                }
            }
        },
        None => {},
    }
}

proof fn lemma_captures_named_prefix(c: Seq<char>, caps: Seq<Seq<Span>>)
    requires
        captures_named(c, caps),
        caps.len() > 0,
    ensures
        captures_named(c, caps.drop_last()),
        cap_named(c, caps.last()),
{
    assert forall|k: int| 0 <= k < caps.drop_last().len() implies cap_named(c, #[trigger] caps.drop_last()[k]) by {
        assert(caps.drop_last()[k] == caps[k]);
    }
    assert(cap_named(c, caps[caps.len() - 1]));
}

proof fn lemma_extends_named(g: GrpcFlowView, path: Seq<char>, c: Seq<char>, caps: Seq<Seq<Span>>)
    requires
        contracts_named(g),
        captures_named(c, caps),
    ensures
        contracts_named(extends_contracts(g, path, c, caps)),
    decreases caps.len(),
{
    if caps.len() > 0 {
        lemma_captures_named_prefix(c, caps);
        lemma_extends_named(g, path, c, caps.drop_last());
        let g0 = extends_contracts(g, path, c, caps.drop_last());
        match cap_text(c, caps.last(), 1) {
            Some(name) => {
                let nb = match cap_text(c, caps.last(), 2) {
                    Some(b) => Some(crate::infrastructure::scanners::grpc_scanner::norm_sym(b)),
                    None => None,
                };
                lemma_contract_step_named(g0, false, name, nb, path);
            },
            None => {},
        }
    }
}

proof fn lemma_standalone_named(g: GrpcFlowView, path: Seq<char>, c: Seq<char>, caps: Seq<Seq<Span>>)
    requires
        contracts_named(g),
        captures_named(c, caps),
    ensures
        contracts_named(standalone_contracts(g, path, c, caps)),
    decreases caps.len(),
{
    if caps.len() > 0 {
        lemma_captures_named_prefix(c, caps);
        lemma_standalone_named(g, path, c, caps.drop_last());
        let g0 = standalone_contracts(g, path, c, caps.drop_last());
        match cap_text(c, caps.last(), 1) {
            Some(name) => {
                lemma_contract_step_named(g0, true, name, None, path);
            },
            None => {},
        }
    }
}

proof fn lemma_scan_all_gateways_named(g: GrpcFlowView, files: Seq<(Seq<char>, Seq<char>)>)
    requires
        contracts_named(g),
        gateway_captures_named(files),
    ensures
        contracts_named(scan_all_gateways(g, files)),
    decreases files.len(),
{
    if files.len() > 0 {
        let fs = files.drop_last();
        assert forall|f: int| 0 <= f < fs.len() && is_ts_source(fs[f].0) implies file_captures_named(#[trigger] fs[f].1) by {
            assert(fs[f] == files[f]);
        }
        lemma_scan_all_gateways_named(g, fs);
        let g0 = scan_all_gateways(g, fs);
        let (path, c) = files.last();
        if is_ts_source(path) {
            assert(file_captures_named(files[files.len() - 1].1));
            let e = extends_contracts(g0, path, c, regex_captures(GATEWAY_INTERFACE@, c));
            lemma_extends_named(g0, path, c, regex_captures(GATEWAY_INTERFACE@, c));
            lemma_standalone_named(e, path, c, regex_captures(GATEWAY_STANDALONE@, c));
        }
    }
}

proof fn lemma_proto_lines_keep_contracts(g: GrpcFlowView, path: Seq<char>, pkg: Seq<char>, lines: Seq<Seq<char>>)
    ensures
        proto_lines(g, path, pkg, lines).0.gateway_contract_to_method == g.gateway_contract_to_method,
    decreases lines.len(),
{
    if lines.len() > 0 {
        lemma_proto_lines_keep_contracts(g, path, pkg, lines.drop_last());
    }
}

proof fn lemma_protos_keep_contracts(g: GrpcFlowView, files: Seq<(Seq<char>, Seq<char>)>)
    ensures
        scan_all_protos(g, files).gateway_contract_to_method == g.gateway_contract_to_method,
    decreases files.len(),
{
    if files.len() > 0 {
        lemma_protos_keep_contracts(g, files.drop_last());
        let g0 = scan_all_protos(g, files.drop_last());
        let (path, c) = files.last();
        lemma_proto_lines_keep_contracts(g0, path, package_of(c), line_pieces(c));
    }
}

proof fn lemma_servers_keep_contracts(g: GrpcFlowView, path: Seq<char>, c: Seq<char>, caps: Seq<Seq<Span>>)
    ensures
        grpc_servers(g, path, c, caps).gateway_contract_to_method == g.gateway_contract_to_method,
    decreases caps.len(),
{
    if caps.len() > 0 {
        lemma_servers_keep_contracts(g, path, c, caps.drop_last());
    }
}

proof fn lemma_clients_keep_contracts(g: GrpcFlowView, path: Seq<char>, c: Seq<char>, caps: Seq<Seq<Span>>)
    ensures
        grpc_clients(g, path, c, caps).gateway_contract_to_method == g.gateway_contract_to_method,
    decreases caps.len(),
{
    if caps.len() > 0 {
        lemma_clients_keep_contracts(g, path, c, caps.drop_last());
    }
}

proof fn lemma_code_keeps_contracts(g: GrpcFlowView, files: Seq<(Seq<char>, Seq<char>)>)
    ensures
        scan_all_code(g, files).gateway_contract_to_method == g.gateway_contract_to_method,
    decreases files.len(),
{
    if files.len() > 0 {
        lemma_code_keeps_contracts(g, files.drop_last());
        let g0 = scan_all_code(g, files.drop_last());
        let (path, c) = files.last();
        lemma_servers_keep_contracts(g0, path, c, regex_captures(GRPC_METHOD_LITERAL@, c));
        let g1 = if contains(c, "@GrpcMethod"@) {
            grpc_servers(g0, path, c, regex_captures(GRPC_METHOD_LITERAL@, c))
        } else {
            g0
        };
        lemma_clients_keep_contracts(g1, path, c, regex_captures(GRPC_INJECT@, c));
    }
}

/// Every key of the gateway index is a contract name (it ends in `Request`
/// or `Response`) whenever the gateway patterns capture only such names in
/// the contract files: the scan indexes no other name.
pub proof fn lemma_scanned_contracts_named(
    protos: Seq<(Seq<char>, Seq<char>)>,
    gateways: Seq<(Seq<char>, Seq<char>)>,
    code: Seq<(Seq<char>, Seq<char>)>,
)
    requires
        gateway_captures_named(gateways),
    ensures
        contracts_named(grpc_flow_of(protos, gateways, code)),
{
    let e = empty_grpc();
    lemma_protos_keep_contracts(e, protos);
    let p = scan_all_protos(e, protos);
    lemma_scan_all_gateways_named(p, gateways);
    lemma_code_keeps_contracts(scan_all_gateways(p, gateways), code);
}

} // verus!
