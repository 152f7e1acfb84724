use meta_indexer::domain::async_flow::AsyncFlowGraph;
use meta_indexer::domain::grpc_flow::GrpcFlowGraph;
use meta_indexer::engine::dependency_engine::imports_from_captures;
use meta_indexer::infrastructure::scanners::async_scanner::consume_events_in;
use meta_indexer::infrastructure::scanners::grpc_scanner::proto_line_from;

#[test]
fn imports_from_given_matches() {
    let content = "import { A, B as C } from 'p';";
    let caps = vec![vec![Some((0, 29)), Some((8, 19)), None, Some((27, 28))]];
    assert_eq!(imports_from_captures(content, &caps), vec!["p", "A", "B"]);
    assert!(imports_from_captures(content, &vec![]).is_empty());
}

#[test]
fn consumers_from_given_matches() {
    let content = "export class X extends BatchPostProcessor<IFooPayload> {}";
    let text: Vec<char> = content.chars().collect();
    let caps = vec![vec![Some((0, 54)), Some((13, 14)), Some((23, 41)), Some((42, 53))]];
    let mut g = AsyncFlowGraph::new();
    consume_events_in(&mut g, "/post-processor-a/src/x.ts", &text, content, &caps);
    let n = g.events.get("Foo").unwrap();
    assert_eq!(n.consumers.len(), 1);
    assert_eq!(n.consumers[0].handler_class, "X");
    assert_eq!(n.consumers[0].processing_type, "BatchPostProcessor");
    assert_eq!(n.consumers[0].service, "post-processor-a");
    assert_eq!(g.consumer_to_target.get("X").unwrap(), &vec!["Foo".to_string()]);
}

#[test]
fn proto_lines_from_given_matches() {
    let mut g = GrpcFlowGraph::new();
    let mut cur: Option<String> = None;
    let pkg = "user.v1".to_string();
    let svc: Vec<char> = "service S {".chars().collect();
    proto_line_from(&mut g, &mut cur, "/p.proto", &pkg, &svc, &Some(vec![Some((0, 9)), Some((8, 9))]), &None);
    assert_eq!(cur.as_deref(), Some("S"));
    let rpc: Vec<char> = "rpc Get(Req) returns (Resp);".chars().collect();
    let rc = vec![Some((0, 27)), Some((4, 7)), Some((8, 11)), Some((22, 26))];
    proto_line_from(&mut g, &mut cur, "/p.proto", &pkg, &rpc, &None, &Some(rc));
    let m = g.services.get("S").unwrap().methods.get("Get").unwrap();
    assert_eq!(m.request_type, "Req");
    assert_eq!(m.response_type, "Resp");
    assert_eq!(g.method_to_service.get("get").unwrap(), &vec!["S".to_string()]);
    let close: Vec<char> = "}".chars().collect();
    proto_line_from(&mut g, &mut cur, "/p.proto", &pkg, &close, &None, &None);
    assert!(cur.is_none());
}
