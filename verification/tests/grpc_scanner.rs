use meta_indexer::engine::grpc_engine::query_grpc;
use meta_indexer::infrastructure::scanners::grpc_scanner::{normalize_symbol, scan_grpc_flow};

fn files(v: &[(&str, &str)]) -> Vec<(String, String)> {
    v.iter().map(|(p, c)| (p.to_string(), c.to_string())).collect()
}

const PROTO: &str = "syntax = \"proto3\";\npackage user.v1;\n\nservice UserService {\n  rpc SignUp (SignUpCommand) returns (SignUpResponse);\n  rpc GetProfile(GetProfileQuery) returns (ProfileResponse);\n}\n\nrpc Orphan (A) returns (B);\n";
const GATEWAY: &str = "export interface SignUpRequest extends Omit<SignUpCommand, 'id'> {}\nexport interface GetProfileResponse {}\n";
const CONTROLLER: &str = "import x;\nexport class UserController {\n  @GrpcMethod('UserService', 'SignUp')\n  signUp() {}\n}\n";
const CLIENT: &str = "export class UserGatewayService {\n  constructor(\n    @Inject(USER_PACKAGE) private readonly client: ClientGrpc,\n  ) {}\n}\n";

fn sample() -> meta_indexer::domain::grpc_flow::GrpcFlowGraph {
    scan_grpc_flow(
        &files(&[("/proto-registry/proto/user/v1/user.proto", PROTO)]),
        &files(&[("/npm-packages/packages/contracts/src/gateway/user.ts", GATEWAY)]),
        &files(&[
            ("/ms-user/src/user.controller.ts", CONTROLLER),
            ("/api-gateway/src/user.service.ts", CLIENT),
            ("/api-gateway/dist/user.service.d.ts", CLIENT),
        ]),
    )
}

#[test]
fn symbols_are_normalised() {
    assert_eq!(normalize_symbol("'User_Service'"), "userservice");
    assert_eq!(normalize_symbol("\"SIGN_UP\""), "signup");
    assert_eq!(normalize_symbol("plain"), "plain");
}

#[test]
fn proto_services_and_methods() {
    let g = sample();
    assert_eq!(g.services.len(), 1);
    let svc = g.services.get("UserService").unwrap();
    assert_eq!(svc.package_name, "user.v1");
    assert_eq!(svc.proto_file, "/proto-registry/proto/user/v1/user.proto");
    assert_eq!(svc.methods.len(), 2);
    let m = svc.methods.get("SignUp").unwrap();
    assert_eq!(m.request_type, "SignUpCommand");
    assert_eq!(m.response_type, "SignUpResponse");
    assert_eq!(m.nest_client_interface.as_deref(), Some("UserServiceClient"));
    assert!(svc.methods.get("Orphan").is_none());
    assert_eq!(g.method_to_service.get("signup").unwrap(), &vec!["UserService".to_string()]);
}

#[test]
fn gateway_contracts_bind_to_methods() {
    let g = sample();
    let svc = g.services.get("UserService").unwrap();
    let m = svc.methods.get("SignUp").unwrap();
    assert_eq!(m.gateway_request.as_deref(), Some("SignUpRequest"));
    assert_eq!(
        m.gateway_request_file.as_deref(),
        Some("/npm-packages/packages/contracts/src/gateway/user.ts")
    );
    let p = svc.methods.get("GetProfile").unwrap();
    assert_eq!(p.gateway_response.as_deref(), Some("GetProfileResponse"));
    let (s, meth) = g.gateway_contract_to_method.get("SignUpRequest").unwrap();
    assert_eq!(s, "UserService");
    assert_eq!(meth, "SignUp");
}

#[test]
fn servers_and_clients_are_found() {
    let g = sample();
    let svc = g.services.get("UserService").unwrap();
    let m = svc.methods.get("SignUp").unwrap();
    assert_eq!(m.servers.len(), 1);
    assert_eq!(m.servers[0].controller_class, "UserController");
    assert_eq!(m.servers[0].service, "ms-user");
    assert_eq!(m.servers[0].line_number, 4);
    assert_eq!(m.clients.len(), 1);
    assert_eq!(m.clients[0].class_name, "UserGatewayService");
    assert_eq!(m.clients[0].line_number, 4);
    let p = svc.methods.get("GetProfile").unwrap();
    assert_eq!(p.servers.len(), 0);
    assert_eq!(p.clients.len(), 1);
}

#[test]
fn grpc_report() {
    let g = sample();
    let text = query_grpc(&g, "signuprequest");
    assert!(text.contains("🌐 RPC SYNCHRONE gRPC : UserService.SignUp\n"));
    assert!(text.contains("   - Request  : SignUpRequest\n"));
    assert!(text.contains("   - Client Interface: UserServiceClient\n"));
    assert!(text.contains("🎯 Controller(s) Implémentation (Microservice) : 1\n"));
    let none = query_grpc(&g, "Nothing");
    assert_eq!(
        none,
        "Aucun contrat gRPC, contrat gateway ou méthode ne correspond à 'Nothing' dans proto-registry et contracts."
    );
    let by_service = query_grpc(&g, "userservice");
    assert!(by_service.contains("UserService.SignUp"));
    assert!(by_service.contains("UserService.GetProfile"));
}

#[test]
fn reverse_indexes_lead_to_declared_methods() {
    let g = sample();
    for i in 0..g.gateway_contract_to_method.len() {
        let (svc, method) = g.gateway_contract_to_method.val(i);
        let s = g.services.get(svc).unwrap();
        assert_eq!(&s.service_name, svc);
        assert!(s.methods.get(method).is_some());
    }
    for i in 0..g.method_to_service.len() {
        for svc in g.method_to_service.val(i) {
            assert!(g.services.get(svc).is_some());
        }
    }
}

#[test]
fn gateway_keys_are_request_or_response_contracts() {
    let gateway = "export interface SignUpRequest extends Omit<SignUpCommand, 'id'> {}\nexport interface SignUpHelper {}\nexport interface GetProfileResponse {}\nexport type SignUpDto = {};\n";
    let g = scan_grpc_flow(
        &files(&[("/proto-registry/proto/user/v1/user.proto", PROTO)]),
        &files(&[("/npm-packages/packages/contracts/src/gateway/user.ts", gateway)]),
        &files(&[]),
    );
    assert!(g.gateway_contract_to_method.len() >= 1);
    for i in 0..g.gateway_contract_to_method.len() {
        let k = g.gateway_contract_to_method.key(i);
        assert!(k.ends_with("Request") || k.ends_with("Response"), "{}", k);
    }
    assert!(g.gateway_contract_to_method.get("SignUpHelper").is_none());
}
