use meta_indexer::infrastructure::scanners::async_scanner::{
    matches_event_or_payload, matches_job_or_payload, scan_async_flow, scan_definition_file,
};
use meta_indexer::domain::async_flow::{AsyncFlowGraph, EventNode, JobNode};

fn files(v: &[(&str, &str)]) -> Vec<(String, String)> {
    v.iter().map(|(p, c)| (p.to_string(), c.to_string())).collect()
}

#[test]
fn definitions_and_registry() {
    let mut g = AsyncFlowGraph::new();
    scan_definition_file(
        &mut g,
        "/npm-packages/packages/messaging/src/events/types.ts",
        "  USER_CREATED = 'user.created',\n  [UserEvents.USER_CREATED]: IUserCreatedPayload,\n  [X.UNKNOWN]: IUnknown\n",
    );
    let n = g.events.get("USER_CREATED").unwrap();
    assert_eq!(n.event_key, "USER_CREATED");
    assert_eq!(n.raw_value.as_deref(), Some("user.created"));
    assert_eq!(n.payload_interface.as_deref(), Some("IUserCreatedPayload"));
    assert_eq!(n.definition_file.as_deref(), Some("/npm-packages/packages/messaging/src/events/types.ts"));
    assert!(!g.events.contains_key("UNKNOWN"));
    let before = g.events.len();
    scan_definition_file(&mut g, "/other/types.d.ts", "  JOB_A = 'a',\n");
    assert_eq!(g.events.len(), before);
}

#[test]
fn payload_names_designate_events() {
    let mut node = EventNode::with_key("USER_CREATED".to_string());
    node.payload_interface = Some("IUserCreatedPayload".to_string());
    node.raw_value = Some("user.created".to_string());
    assert!(matches_event_or_payload("USER_CREATED", &node, "user_created"));
    assert!(matches_event_or_payload("USER_CREATED", &node, "IUserCreatedPayload"));
    assert!(matches_event_or_payload("USER_CREATED", &node, "USER.CREATED"));
    assert!(!matches_event_or_payload("USER_CREATED", &node, "USER.DELETED"));
    assert!(matches_event_or_payload("USER_CREATED", &node, "UserCreated"));
    assert!(matches_event_or_payload("USER_CREATED", &node, "user.created"));
    let bare = EventNode::with_key("USER_CREATED".to_string());
    assert!(matches_event_or_payload("USER_CREATED", &bare, "IUserCreatedPayload"));
    let job = JobNode::with_key("PUBLISH_EVENT".to_string());
    assert!(matches_job_or_payload("PUBLISH_EVENT", &job, "IPublishEventPayload"));
    assert!(!matches_job_or_payload("PUBLISH_EVENT", &job, "IPayload"));
}

#[test]
fn scan_binds_producers_consumers_and_sagas() {
    let defs = files(&[(
        "/npm-packages/packages/messaging/src/events/types.ts",
        "  ORDER_START = 'order.start',\n  ORDER_SUCCESS = 'order.success',\n  ORDER_FAILURE = 'order.failure',\n  [Ev.ORDER_START]: IOrderStartPayload,\n",
    )]);
    let srcs = files(&[
        ("/ms-order/src/a.ts", "x\nEventQueueEntity.createEvent<IOrderStartPayload>(p)\n"),
        ("/post-processor-order/src/b.ts", "export class OrderPP extends SinglePostProcessor<Ev.IOrderStartPayload> {}\n"),
        ("/post-processor-order/src/c.ts", "export class OtherPP extends BatchPostProcessor<IThingPayload> {}\n"),
        ("/worker-x/src/d.ts", "export class ThingHandler implements IJobHandler<IThingPayload> {}\n"),
    ]);
    let g = scan_async_flow(&defs, &srcs).unwrap();
    let n = g.events.get("ORDER_START").unwrap();
    assert_eq!(n.producers.len(), 1);
    assert_eq!(n.producers[0].line_number, 2);
    assert_eq!(n.producers[0].service, "ms-order");
    assert_eq!(n.consumers.len(), 1);
    assert_eq!(n.saga_success.as_deref(), Some("ORDER_SUCCESS"));
    assert_eq!(n.saga_failure.as_deref(), Some("ORDER_FAILURE"));
    let thing = g.events.get("Thing").unwrap();
    assert_eq!(thing.event_key, "");
    assert_eq!(thing.consumers[0].handler_class, "OtherPP");
    assert!(g.jobs.contains_key("Thing"));
    assert_eq!(g.consumer_to_target.get("ThingHandler").unwrap(), &vec!["Thing".to_string()]);
}

#[test]
fn only_typescript_sources_give_endpoints() {
    let defs = files(&[(
        "/npm-packages/packages/messaging/src/events/types.ts",
        "  ORDER_START = 'order.start',\n  [Ev.ORDER_START]: IOrderStartPayload,\n",
    )]);
    let srcs = files(&[
        ("/ms-order/src/a.d.ts", "EventQueueEntity.createEvent<IOrderStartPayload>(p)\n"),
        ("/ms-order/src/b.js", "EventQueueEntity.createEvent<IOrderStartPayload>(p)\n"),
        ("/ms-billing/src/c.ts", "EventQueueEntity.createEvent<IOrderStartPayload>(p)\n"),
    ]);
    let g = scan_async_flow(&defs, &srcs).unwrap();
    let n = g.events.get("ORDER_START").unwrap();
    assert_eq!(n.producers.len(), 1);
    assert_eq!(n.producers[0].file_path, "/ms-billing/src/c.ts");
    assert_eq!(n.producers[0].service, "ms-billing");
}
