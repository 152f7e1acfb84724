use meta_indexer::engine::impact_engine::{query_impact, query_impact_checked};
use meta_indexer::infrastructure::scanners::async_scanner::scan_async_flow;
use meta_indexer::tools::impact_graph::{
    build_impact_graph, extract_service_name, impact_tool_report, AsyncFlowGraph,
};
use meta_indexer::workspace::{resolve_workspace_root, HintProbe};

fn files(v: &[(&str, &str)]) -> Vec<(String, String)> {
    v.iter().map(|(p, c)| (p.to_string(), c.to_string())).collect()
}

const EVENTS_FILE: &str = "export enum EventMessagingType {\n  EVENT_CREATED = 'event.created',\n  EVENT_CREATION_SUCCESSFULL = 'event.creation.successfull',\n  EVENT_CREATION_FAILED = 'event.creation.failed',\n}\nexport const EventRegistry = {\n  [EventMessagingType.EVENT_CREATED]: IEventCreatedPayload,\n};\n";
const JOBS_FILE: &str = "export enum JobMessagingType {\n  PUBLISH_EVENT = 'event.publish',\n}\n";
const PRODUCER: &str = "import { x } from 'y';\nconst e = EventQueueEntity.createEvent<EventMessagingType.EVENT_CREATED>(payload, Streams.EVENT_CREATED_STREAM);\nconst j = JobsOutboxEntity.createJob<typeof JobMessagingType.PUBLISH_EVENT>(data);\n";
const CONSUMER: &str = "export class EventCreatedPostProcessor extends BatchPostProcessor<EventMessagingType.EVENT_CREATED> {}\n";
const WORKER: &str = "export class PublishEventHandler implements IJobHandler<IPublishEventPayload> {\n  readonly jobType = JobMessagingType.PUBLISH_EVENT;\n}\n";

fn sample_graph() -> AsyncFlowGraph {
    let defs = files(&[
        ("/w/npm-packages/packages/messaging/src/events/event-types.ts", EVENTS_FILE),
        ("/w/npm-packages/packages/messaging/src/jobs/job-types.ts", JOBS_FILE),
    ]);
    let srcs = files(&[
        ("/w/ms-event/src/event.service.ts", PRODUCER),
        ("/w/post-processors-runner/post-processor-social/src/event-created.ts", CONSUMER),
        ("/w/workers-runner/worker-events/src/publish.ts", WORKER),
        ("/w/ms-event/dist/event.service.d.ts", PRODUCER),
    ]);
    build_impact_graph(&defs, &srcs).unwrap()
}

#[test]
fn test_extract_service_name() {
    assert_eq!(extract_service_name("/code/ms-event/src/main.ts"), "ms-event");
    assert_eq!(
        extract_service_name("../post-processors-runner/post-processor-social/src/index.ts"),
        "post-processor-social"
    );
    assert_eq!(extract_service_name("npm-packages/packages/domain-user/src/repo.ts"), "domain-user");
}

#[test]
fn test_real_impact_graph_indexing() {
    let probe = HintProbe {
        hint_has_npm: true,
        hint_exists: true,
        env_root: None,
        env_root_exists: false,
        code_exists: false,
        parent_npm: false,
        local_npm: false,
    };
    let root = resolve_workspace_root(Some("../"), &probe);
    assert_eq!(root, "..");
    let graph = sample_graph();
    assert!(graph.events.len() > 0, "Doit indexer au moins un événement depuis messaging");
    assert!(graph.events.contains_key("EVENT_CREATED"), "Doit contenir EVENT_CREATED");
    let event_created = graph.events.get("EVENT_CREATED").unwrap();
    assert_eq!(event_created.saga_success.as_deref(), Some("EVENT_CREATION_SUCCESSFULL"));
    assert_eq!(event_created.saga_failure.as_deref(), Some("EVENT_CREATION_FAILED"));

    let text_event = impact_tool_report(&graph, "EVENT_CREATED");
    assert!(text_event.contains("ÉVÉNEMENT DISTRIBUÉ : EVENT_CREATED"));
    assert!(text_event.contains("IEventCreatedPayload"));
    assert!(text_event.contains("Triade de Saga"));

    let text_job = impact_tool_report(&graph, "PUBLISH_EVENT");
    assert!(text_job.contains("JOB D'ARRIÈRE-PLAN (1:1) : PUBLISH_EVENT"));

    let text_rev = impact_tool_report(&graph, "EventCreatedPostProcessor");
    assert!(text_rev.contains("NAVIGATION INVERSÉE"));
    assert!(text_rev.contains("EVENT_CREATED"));
}

#[test]
fn impact_graph_streams_snippets_and_lines() {
    let graph = sample_graph();
    let ev = graph.events.get("EVENT_CREATED").unwrap();
    assert_eq!(ev.stream.as_deref(), Some("Streams.EVENT_CREATED_STREAM"));
    assert_eq!(ev.producers.len(), 1);
    let p = &ev.producers[0];
    assert_eq!(p.service, "ms-event");
    assert_eq!(p.line_number, 3);
    assert_eq!(p.pattern, "EventQueueEntity.createEvent");
    assert!(p.snippet.starts_with("(payload, Streams.EVENT_CREATED_STREAM);"));
    assert_eq!(ev.consumers.len(), 1);
    assert_eq!(ev.consumers[0].line_number, 0);
    assert_eq!(ev.consumers[0].processing_type, "BatchPostProcessor");
    let job = graph.jobs.get("PUBLISH_EVENT").unwrap();
    assert_eq!(job.producers.len(), 1);
    assert_eq!(job.producers[0].line_number, 3);
    assert_eq!(job.producers[0].snippet, "JobsOutboxEntity.createJob<typeof JobMessagingType.PUBLISH_EVENT>");
    assert_eq!(job.handlers.len(), 1);
    assert_eq!(job.handlers[0].handler_class, "PublishEventHandler");
    let targets = graph.consumer_to_target.get("PublishEventHandler").unwrap();
    assert_eq!(targets, &vec!["PUBLISH_EVENT".to_string()]);
}

#[test]
fn tool_report_not_found_and_trimmed_target() {
    let graph = sample_graph();
    assert_eq!(
        impact_tool_report(&graph, "  nothing  "),
        "Aucun événement, job, ou handler correspondant à 'nothing' n'a été trouvé dans le graphe asynchrone."
    );
    let by_value = impact_tool_report(&graph, "event.publish");
    assert!(by_value.contains("JOB D'ARRIÈRE-PLAN (1:1) : PUBLISH_EVENT"));
    assert!(by_value.contains("   Valeur Job : 'event.publish'\n"));
}

#[test]
fn reverse_listing_is_sorted_without_repetition() {
    let defs = files(&[]);
    let srcs = files(&[
        ("/w/a.ts", "export class Multi extends SinglePostProcessor<B_EVENT> {}\n"),
        ("/w/b.ts", "export class Multi extends SinglePostProcessor<A_EVENT> {}\n"),
        ("/w/c.ts", "export class Multi extends SinglePostProcessor<B_EVENT> {}\n"),
    ]);
    let graph = build_impact_graph(&defs, &srcs).unwrap();
    let text = impact_tool_report(&graph, "multi");
    assert!(text.contains("Cette classe consomme les événements / jobs suivants :\n- A_EVENT\n- B_EVENT\n\n"));
}

#[test]
fn window_cutting_a_character_is_refused() {
    let mut content = String::from("EventQueueEntity.createEvent<X>");
    content.push_str(&"a".repeat(799));
    content.push('é');
    content.push_str("tail");
    let srcs = files(&[("/w/x.ts", &content)]);
    assert!(build_impact_graph(&files(&[]), &srcs).is_none());
}

#[test]
fn consumer_classes_lead_to_known_flows() {
    let defs = files(&[
        ("/w/npm-packages/packages/messaging/src/events/event-types.ts", EVENTS_FILE),
        ("/w/npm-packages/packages/messaging/src/jobs/job-types.ts", JOBS_FILE),
    ]);
    let srcs = files(&[
        ("/w/post-processors-runner/post-processor-social/src/event-created.ts", CONSUMER),
        ("/w/workers-runner/worker-events/src/publish.ts", WORKER),
        ("/w/post-processor-x/src/unknown.ts", "export class LoneConsumer extends SinglePostProcessor<INothingPayload> {}\n"),
    ]);
    let graph = scan_async_flow(&defs, &srcs).unwrap();
    for i in 0..graph.consumer_to_target.len() {
        for t in graph.consumer_to_target.val(i) {
            assert!(graph.events.contains_key(t) || graph.jobs.contains_key(t));
        }
    }
    let text = query_impact_checked(&graph, "LoneConsumer").unwrap();
    assert!(text.starts_with("🔍 Classe consommatrice 'LoneConsumer' identifiée. Dépendance vers :\n   - Target : Nothing\n"));
    assert_eq!(query_impact(&graph, "LoneConsumer"), text);
}

#[test]
fn targets_are_compared_case_insensitively() {
    let graph = sample_graph();
    let text = impact_tool_report(&graph, "event_created");
    assert!(text.contains("ÉVÉNEMENT DISTRIBUÉ : EVENT_CREATED"));
    let by_class = impact_tool_report(&graph, "publisheventhandler");
    assert!(by_class.contains("PublishEventHandler"));
}

#[test]
fn consumer_chains_are_followed_until_they_loop() {
    let mut graph = AsyncFlowGraph::new();
    graph.consumer_to_target.insert("A".to_string(), vec!["B".to_string()]);
    graph.consumer_to_target.insert("B".to_string(), vec!["C".to_string()]);
    let expected = "🔍 Classe consommatrice 'A' identifiée. Dépendance vers :\n   - Target : B\n🔍 Classe consommatrice 'B' identifiée. Dépendance vers :\n   - Target : C\nAucun événement, job ou post-processor ne correspond à 'C' dans le graphe causal.";
    assert_eq!(query_impact_checked(&graph, "A").unwrap(), expected);
    assert_eq!(query_impact(&graph, "A"), expected);
    graph.consumer_to_target.insert("C".to_string(), vec!["A".to_string()]);
    assert!(query_impact_checked(&graph, "A").is_none());
    assert!(query_impact_checked(&graph, "Z").is_some());
}
