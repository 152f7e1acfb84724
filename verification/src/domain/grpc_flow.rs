//! The graph of synchronous gRPC contracts: services, methods, gateway
//! contracts, callers and implementations.
use vstd::prelude::*;

use crate::domain::async_flow::{opt_text, targets_view};
use crate::std_text::string_from_chars;
use crate::strmap::{al_find, al_get_or, al_set, lemma_find_agrees, lemma_set_agrees, views, StrMap};
use crate::text::{chars_of, owned, push_str};

verus! {

/// A class that injects a gRPC client.
#[derive(Debug)]
pub struct GrpcClientEndpoint {
    pub service: String,
    pub class_name: String,
    pub file_path: String,
    pub line_number: usize,
}

/// A controller that implements a gRPC method.
#[derive(Debug)]
pub struct GrpcServerEndpoint {
    pub service: String,
    pub controller_class: String,
    pub file_path: String,
    pub line_number: usize,
}

/// One RPC method with its three contracts (gateway, gRPC, NestJS client)
/// and the code that calls or implements it.
#[derive(Debug)]
pub struct GrpcMethodNode {
    pub method_name: String,
    pub service_name: String,
    pub proto_file: String,
    pub request_type: String,
    pub response_type: String,
    pub ts_contract_file: Option<String>,
    pub gateway_request: Option<String>,
    pub gateway_request_file: Option<String>,
    pub gateway_response: Option<String>,
    pub gateway_response_file: Option<String>,
    pub nest_client_interface: Option<String>,
    pub clients: Vec<GrpcClientEndpoint>,
    pub servers: Vec<GrpcServerEndpoint>,
}

/// A service declared in a `.proto` file and its methods by name.
pub struct GrpcServiceNode {
    pub service_name: String,
    pub package_name: String,
    pub proto_file: String,
    pub methods: StrMap<GrpcMethodNode>,
}

/// Services by name, with two reverse indexes.
pub struct GrpcFlowGraph {
    pub services: StrMap<GrpcServiceNode>,
    /// Lower-cased method name to the services that declare it.
    pub method_to_service: StrMap<Vec<String>>,
    /// Gateway contract (such as `SignUpRequest`) to its service and method.
    pub gateway_contract_to_method: StrMap<(String, String)>,
}

impl GrpcFlowGraph {
    /// An empty graph.
    pub fn new() -> (g: Self)
        ensures
            g.services.spec_len() == 0,
            g.method_to_service.spec_len() == 0,
            g.gateway_contract_to_method.spec_len() == 0,
    {
        GrpcFlowGraph {
            services: StrMap::new(),
            method_to_service: StrMap::new(),
            gateway_contract_to_method: StrMap::new(),
        }
    }
}

impl Default for GrpcFlowGraph {
    fn default() -> (g: Self)
        ensures
            g.services.spec_len() == 0,
            g.method_to_service.spec_len() == 0,
            g.gateway_contract_to_method.spec_len() == 0,
    {
        GrpcFlowGraph::new()
    }
}


/// What a `GrpcClientEndpoint` holds, as text.
pub struct ClientView {
    pub service: Seq<char>,
    pub class_name: Seq<char>,
    pub file_path: Seq<char>,
    pub line_number: usize,
}

/// What a `GrpcServerEndpoint` holds, as text.
pub struct ServerView {
    pub service: Seq<char>,
    pub controller_class: Seq<char>,
    pub file_path: Seq<char>,
    pub line_number: usize,
}

/// What a `GrpcMethodNode` holds, as text.
pub struct MethodView {
    pub method_name: Seq<char>,
    pub service_name: Seq<char>,
    pub proto_file: Seq<char>,
    pub request_type: Seq<char>,
    pub response_type: Seq<char>,
    pub ts_contract_file: Option<Seq<char>>,
    pub gateway_request: Option<Seq<char>>,
    pub gateway_request_file: Option<Seq<char>>,
    pub gateway_response: Option<Seq<char>>,
    pub gateway_response_file: Option<Seq<char>>,
    pub nest_client_interface: Option<Seq<char>>,
    pub clients: Seq<ClientView>,
    pub servers: Seq<ServerView>,
}

/// What a `GrpcServiceNode` holds, as text.
pub struct ServiceView {
    pub service_name: Seq<char>,
    pub package_name: Seq<char>,
    pub proto_file: Seq<char>,
    pub methods: Seq<(Seq<char>, MethodView)>,
}

/// The gRPC graph as association lists, in the maps' order.
pub struct GrpcFlowView {
    pub services: Seq<(Seq<char>, ServiceView)>,
    pub method_to_service: Seq<(Seq<char>, Seq<Seq<char>>)>,
    pub gateway_contract_to_method: Seq<(Seq<char>, (Seq<char>, Seq<char>))>,
}

impl View for GrpcClientEndpoint {
    type V = ClientView;

    open spec fn view(&self) -> ClientView {
        ClientView {
            service: self.service@,
            class_name: self.class_name@,
            file_path: self.file_path@,
            line_number: self.line_number,
        }
    }
}

impl View for GrpcServerEndpoint {
    type V = ServerView;

    open spec fn view(&self) -> ServerView {
        ServerView {
            service: self.service@,
            controller_class: self.controller_class@,
            file_path: self.file_path@,
            line_number: self.line_number,
        }
    }
}

impl View for GrpcMethodNode {
    type V = MethodView;

    open spec fn view(&self) -> MethodView {
        MethodView {
            method_name: self.method_name@,
            service_name: self.service_name@,
            proto_file: self.proto_file@,
            request_type: self.request_type@,
            response_type: self.response_type@,
            ts_contract_file: opt_text(self.ts_contract_file),
            gateway_request: opt_text(self.gateway_request),
            gateway_request_file: opt_text(self.gateway_request_file),
            gateway_response: opt_text(self.gateway_response),
            gateway_response_file: opt_text(self.gateway_response_file),
            nest_client_interface: opt_text(self.nest_client_interface),
            clients: self.clients@.map_values(|c: GrpcClientEndpoint| c@),
            servers: self.servers@.map_values(|c: GrpcServerEndpoint| c@),
        }
    }
}

/// The methods of a map, as key and view.
pub open spec fn methods_view(m: StrMap<GrpcMethodNode>) -> Seq<(Seq<char>, MethodView)> {
    Seq::new(m.spec_len(), |i: int| (m.key_at(i), m.val_at(i)@))
}

impl View for GrpcServiceNode {
    type V = ServiceView;

    open spec fn view(&self) -> ServiceView {
        ServiceView {
            service_name: self.service_name@,
            package_name: self.package_name@,
            proto_file: self.proto_file@,
            methods: methods_view(self.methods),
        }
    }
}

/// The services of a map, as key and view.
pub open spec fn services_view(m: StrMap<GrpcServiceNode>) -> Seq<(Seq<char>, ServiceView)> {
    Seq::new(m.spec_len(), |i: int| (m.key_at(i), m.val_at(i)@))
}

/// The gateway index, as key and (service, method) text.
pub open spec fn gateway_view(m: StrMap<(String, String)>) -> Seq<(Seq<char>, (Seq<char>, Seq<char>))> {
    Seq::new(m.spec_len(), |i: int| (m.key_at(i), (m.val_at(i).0@, m.val_at(i).1@)))
}

impl View for GrpcFlowGraph {
    type V = GrpcFlowView;

    open spec fn view(&self) -> GrpcFlowView {
        GrpcFlowView {
            services: services_view(self.services),
            method_to_service: targets_view(self.method_to_service),
            gateway_contract_to_method: gateway_view(self.gateway_contract_to_method),
        }
    }
}

/// A freshly declared method of service `svc`.
pub open spec fn new_method(
    name: Seq<char>,
    svc: Seq<char>,
    file: Seq<char>,
    req: Seq<char>,
    resp: Seq<char>,
) -> MethodView {
    MethodView {
        method_name: name,
        service_name: svc,
        proto_file: file,
        request_type: req,
        response_type: resp,
        ts_contract_file: None,
        gateway_request: None,
        gateway_request_file: None,
        gateway_response: None,
        gateway_response_file: None,
        nest_client_interface: Some(svc + "Client"@),
        clients: seq![],
        servers: seq![],
    }
}

impl GrpcFlowGraph {
    /// Declares the service `name` (from `package`, in `file`) unless it is
    /// already known.
    pub fn add_service(&mut self, name: String, package: String, file: String)
        ensures
            final(self)@ == if al_find(old(self)@.services, name@) < old(self)@.services.len() {
                old(self)@
            } else {
                GrpcFlowView {
                    services: old(self)@.services.push(
                        (name@, ServiceView { service_name: name@, package_name: package@, proto_file: file@, methods: seq![] }),
                    ),
                    ..old(self)@
                }
            },
    {
        let ghost m0 = self.services;
        let ghost kv = name@;
        proof {
            lemma_find_agrees(m0, services_view(m0), kv, 0);
            m0.lemma_first_from_bounds(kv, 0);
        }
        if self.services.contains_key(name.as_str()) {
            return;
        }
        let node = GrpcServiceNode {
            service_name: name.clone(),
            package_name: package,
            proto_file: file,
            methods: StrMap::new(),
        };
        assert(methods_view(node.methods) =~= seq![]);
        self.services.index_or_insert(name, node);
        assert(services_view(self.services) =~= services_view(m0).push(
            (kv, ServiceView { service_name: kv, package_name: package@, proto_file: file@, methods: seq![] }),
        ));
    }

    /// Declares method `method` of the known service `svc` (replacing a
    /// method of that name) and indexes it under `lower_method`.
    pub fn set_method(
        &mut self,
        svc: &str,
        method: String,
        lower_method: String,
        req: String,
        resp: String,
        file: String,
    )
        ensures
            final(self)@ == if al_find(old(self)@.services, svc@) < old(self)@.services.len() {
                with_method(old(self)@, svc@, method@, lower_method@, new_method(method@, svc@, file@, req@, resp@))
            } else {
                old(self)@
            },
    {
        let ghost m0 = self.services;
        let ghost g0 = self@;
        let ghost kv = svc@;
        proof {
            lemma_find_agrees(m0, services_view(m0), kv, 0);
            m0.lemma_first_from_bounds(kv, 0);
        }
        match self.services.find(svc) {
            Some(i) => {
                let mut cc = chars_of(svc);
                push_str(&mut cc, "Client");
                let node = GrpcMethodNode {
                    method_name: method.clone(),
                    service_name: owned(svc),
                    proto_file: file,
                    request_type: req,
                    response_type: resp,
                    ts_contract_file: None,
                    gateway_request: None,
                    gateway_request_file: None,
                    gateway_response: None,
                    gateway_response_file: None,
                    nest_client_interface: Some(string_from_chars(&cc)),
                    clients: Vec::new(),
                    servers: Vec::new(),
                };
                let ghost nv = node@;
                let ghost mk = method@;
                assert(nv == new_method(method@, svc@, file@, req@, resp@)) by {
                    assert(nv.clients =~= seq![]);
                    assert(nv.servers =~= seq![]);
                }
                let s = self.services.val_mut(i);
                let ghost mm0 = s.methods;
                s.methods.insert(method, node);
                proof {
                    let mm1 = s.methods;
                    mm0.lemma_first_from_bounds(mk, 0);
                    mm1.lemma_first_from_bounds(mk, 0);
                    let j0 = if mm0.has(mk) { mm0.index_of(mk) } else { mm0.spec_len() as int };
                    assert(methods_view(mm1)[j0] == (mk, nv));
                    assert forall|j: int| 0 <= j < mm0.spec_len() && j != j0 implies #[trigger] methods_view(mm1)[j] == methods_view(mm0)[j] by {
                    }
                    lemma_set_agrees(mm0, mm1, methods_view(mm0), methods_view(mm1), mk, j0, nv);
                }
                proof {
                    let m1 = self.services;
                    let sv = ServiceView {
                        methods: al_set(services_view(m0)[i as int].1.methods, mk, nv),
                        ..services_view(m0)[i as int].1
                    };
                    assert(services_view(m1)[i as int] == (kv, sv));
                    assert forall|j: int| 0 <= j < m0.spec_len() && j != i implies #[trigger] services_view(m1)[j] == services_view(m0)[j] by {
                    }
                    lemma_set_agrees(m0, m1, services_view(m0), services_view(m1), kv, i as int, sv);
                }
                let ghost t0 = self.method_to_service;
                let ghost lk = lower_method@;
                let ghost tnv = al_get_or(targets_view(t0), lk, seq![]).push(svc@);
                let tv: Vec<String> = Vec::new();
                assert(views(tv@) =~= seq![]);
                let k = self.method_to_service.index_or_insert(lower_method, tv);
                let ghost t1 = self.method_to_service;
                let v = self.method_to_service.val_mut(k);
                v.push(owned(svc));
                proof {
                    let t2 = self.method_to_service;
                    lemma_find_agrees(t0, targets_view(t0), lk, 0);
                    t0.lemma_first_from_bounds(lk, 0);
                    t1.lemma_first_from_bounds(lk, 0);
                    assert(views(t2.val_at(k as int)@) =~= views(t1.val_at(k as int)@).push(svc@));
                    assert(targets_view(t2)[k as int] == (lk, tnv));
                    assert forall|j: int| 0 <= j < t0.spec_len() && j != k implies #[trigger] targets_view(t2)[j] == targets_view(t0)[j] by {
                    }
                    lemma_set_agrees(t0, t2, targets_view(t0), targets_view(t2), lk, k as int, tnv);
                }
            },
            None => {},
        }
    }
}

/// The graph with method `m` set under key `method` in service `svc` (which
/// is present), and `svc` appended to the services indexed under `lower_method`.
pub open spec fn with_method(
    g: GrpcFlowView,
    svc: Seq<char>,
    method: Seq<char>,
    lower_method: Seq<char>,
    m: MethodView,
) -> GrpcFlowView {
    let i = al_find(g.services, svc);
    GrpcFlowView {
        services: g.services.update(
            i,
            (svc, ServiceView { methods: al_set(g.services[i].1.methods, method, m), ..g.services[i].1 }),
        ),
        method_to_service: al_set(
            g.method_to_service,
            lower_method,
            al_get_or(g.method_to_service, lower_method, seq![]).push(svc),
        ),
        ..g
    }
}

} // verus!
