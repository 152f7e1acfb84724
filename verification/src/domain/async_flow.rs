//! The causal graph of asynchronous flows: events, jobs, who emits them and
//! who consumes them.
use vstd::prelude::*;

use crate::strmap::{al_find, al_get_or, al_set, lemma_find_agrees, lemma_set_agrees, views, StrMap};

verus! {

/// A place in the code base that emits an event or creates a job.
#[derive(Debug)]
pub struct FlowEndpoint {
    pub service: String,
    pub file_path: String,
    pub line_number: usize,
    pub pattern: String,
    pub snippet: String,
}

/// A class that consumes an event or executes a job.
#[derive(Debug)]
pub struct ConsumerEndpoint {
    pub service: String,
    pub handler_class: String,
    pub file_path: String,
    pub line_number: usize,
    /// `BatchPostProcessor`, `SinglePostProcessor` or `IJobHandler`.
    pub processing_type: String,
}

/// A distributed event with its contract, emitters, consumers and saga links.
#[derive(Debug)]
pub struct EventNode {
    pub event_key: String,
    pub raw_value: Option<String>,
    pub payload_interface: Option<String>,
    pub definition_file: Option<String>,
    pub stream: Option<String>,
    pub producers: Vec<FlowEndpoint>,
    pub consumers: Vec<ConsumerEndpoint>,
    pub saga_success: Option<String>,
    pub saga_failure: Option<String>,
    pub websocket_event: Option<String>,
}

/// A background job with its contract, creators and handlers.
#[derive(Debug)]
pub struct JobNode {
    pub job_key: String,
    pub raw_value: Option<String>,
    pub payload_interface: Option<String>,
    pub definition_file: Option<String>,
    pub queue: Option<String>,
    pub producers: Vec<FlowEndpoint>,
    pub handlers: Vec<ConsumerEndpoint>,
}

/// Events and jobs by key, and the reverse index from a consumer class to
/// the events or jobs it consumes.
pub struct AsyncFlowGraph {
    pub events: StrMap<EventNode>,
    pub jobs: StrMap<JobNode>,
    pub consumer_to_target: StrMap<Vec<String>>,
}

impl EventNode {
    /// A node with the given key and nothing else known.
    pub fn with_key(event_key: String) -> (n: Self)
        ensures
            n.event_key == event_key,
            n.is_bare(),
    {
        EventNode {
            event_key,
            raw_value: None,
            payload_interface: None,
            definition_file: None,
            stream: None,
            producers: Vec::new(),
            consumers: Vec::new(),
            saga_success: None,
            saga_failure: None,
            websocket_event: None,
        }
    }

    /// Every field but the key is empty.
    pub open spec fn is_bare(self) -> bool {
        &&& self.raw_value is None
        &&& self.payload_interface is None
        &&& self.definition_file is None
        &&& self.stream is None
        &&& self.producers@.len() == 0
        &&& self.consumers@.len() == 0
        &&& self.saga_success is None
        &&& self.saga_failure is None
        &&& self.websocket_event is None
    }
}

impl Default for EventNode {
    fn default() -> (n: Self)
        ensures
            n.event_key@ == Seq::<char>::empty(),
            n.is_bare(),
    {
        EventNode::with_key(String::new())
    }
}

impl JobNode {
    /// A node with the given key and nothing else known.
    pub fn with_key(job_key: String) -> (n: Self)
        ensures
            n.job_key == job_key,
            n.is_bare(),
    {
        JobNode {
            job_key,
            raw_value: None,
            payload_interface: None,
            definition_file: None,
            queue: None,
            producers: Vec::new(),
            handlers: Vec::new(),
        }
    }

    /// Every field but the key is empty.
    pub open spec fn is_bare(self) -> bool {
        &&& self.raw_value is None
        &&& self.payload_interface is None
        &&& self.definition_file is None
        &&& self.queue is None
        &&& self.producers@.len() == 0
        &&& self.handlers@.len() == 0
    }
}

impl Default for JobNode {
    fn default() -> (n: Self)
        ensures
            n.job_key@ == Seq::<char>::empty(),
            n.is_bare(),
    {
        JobNode::with_key(String::new())
    }
}

impl AsyncFlowGraph {
    /// An empty graph.
    pub fn new() -> (g: Self)
        ensures
            g.events.spec_len() == 0,
            g.jobs.spec_len() == 0,
            g.consumer_to_target.spec_len() == 0,
    {
        AsyncFlowGraph { events: StrMap::new(), jobs: StrMap::new(), consumer_to_target: StrMap::new() }
    }
}

impl Default for AsyncFlowGraph {
    fn default() -> (g: Self)
        ensures
            g.events.spec_len() == 0,
            g.jobs.spec_len() == 0,
            g.consumer_to_target.spec_len() == 0,
    {
        AsyncFlowGraph::new()
    }
}


/// The text of an optional string.
pub open spec fn opt_text(o: Option<String>) -> Option<Seq<char>> {
    match o {
        Some(s) => Some(s@),
        None => None,
    }
}

/// What a `FlowEndpoint` holds, as text.
pub struct EndpointView {
    pub service: Seq<char>,
    pub file_path: Seq<char>,
    pub line_number: usize,
    pub pattern: Seq<char>,
    pub snippet: Seq<char>,
}

/// What a `ConsumerEndpoint` holds, as text.
pub struct ConsumerView {
    pub service: Seq<char>,
    pub handler_class: Seq<char>,
    pub file_path: Seq<char>,
    pub line_number: usize,
    pub processing_type: Seq<char>,
}

/// What an `EventNode` holds, as text.
pub struct EventView {
    pub event_key: Seq<char>,
    pub raw_value: Option<Seq<char>>,
    pub payload_interface: Option<Seq<char>>,
    pub definition_file: Option<Seq<char>>,
    pub stream: Option<Seq<char>>,
    pub producers: Seq<EndpointView>,
    pub consumers: Seq<ConsumerView>,
    pub saga_success: Option<Seq<char>>,
    pub saga_failure: Option<Seq<char>>,
    pub websocket_event: Option<Seq<char>>,
}

/// What a `JobNode` holds, as text.
pub struct JobView {
    pub job_key: Seq<char>,
    pub raw_value: Option<Seq<char>>,
    pub payload_interface: Option<Seq<char>>,
    pub definition_file: Option<Seq<char>>,
    pub queue: Option<Seq<char>>,
    pub producers: Seq<EndpointView>,
    pub handlers: Seq<ConsumerView>,
}

/// The graph as three association lists, in the maps' order.
pub struct AsyncFlowView {
    pub events: Seq<(Seq<char>, EventView)>,
    pub jobs: Seq<(Seq<char>, JobView)>,
    pub consumer_to_target: Seq<(Seq<char>, Seq<Seq<char>>)>,
}

impl View for FlowEndpoint {
    type V = EndpointView;

    open spec fn view(&self) -> EndpointView {
        EndpointView {
            service: self.service@,
            file_path: self.file_path@,
            line_number: self.line_number,
            pattern: self.pattern@,
            snippet: self.snippet@,
        }
    }
}

impl View for ConsumerEndpoint {
    type V = ConsumerView;

    open spec fn view(&self) -> ConsumerView {
        ConsumerView {
            service: self.service@,
            handler_class: self.handler_class@,
            file_path: self.file_path@,
            line_number: self.line_number,
            processing_type: self.processing_type@,
        }
    }
}

impl View for EventNode {
    type V = EventView;

    open spec fn view(&self) -> EventView {
        EventView {
            event_key: self.event_key@,
            raw_value: opt_text(self.raw_value),
            payload_interface: opt_text(self.payload_interface),
            definition_file: opt_text(self.definition_file),
            stream: opt_text(self.stream),
            producers: self.producers@.map_values(|p: FlowEndpoint| p@),
            consumers: self.consumers@.map_values(|c: ConsumerEndpoint| c@),
            saga_success: opt_text(self.saga_success),
            saga_failure: opt_text(self.saga_failure),
            websocket_event: opt_text(self.websocket_event),
        }
    }
}

impl View for JobNode {
    type V = JobView;

    open spec fn view(&self) -> JobView {
        JobView {
            job_key: self.job_key@,
            raw_value: opt_text(self.raw_value),
            payload_interface: opt_text(self.payload_interface),
            definition_file: opt_text(self.definition_file),
            queue: opt_text(self.queue),
            producers: self.producers@.map_values(|p: FlowEndpoint| p@),
            handlers: self.handlers@.map_values(|c: ConsumerEndpoint| c@),
        }
    }
}

/// The events of a map, as key and view.
pub open spec fn events_view(m: StrMap<EventNode>) -> Seq<(Seq<char>, EventView)> {
    Seq::new(m.spec_len(), |i: int| (m.key_at(i), m.val_at(i)@))
}

/// The jobs of a map, as key and view.
pub open spec fn jobs_view(m: StrMap<JobNode>) -> Seq<(Seq<char>, JobView)> {
    Seq::new(m.spec_len(), |i: int| (m.key_at(i), m.val_at(i)@))
}

/// The reverse index, as key and the text of each target.
pub open spec fn targets_view(m: StrMap<Vec<String>>) -> Seq<(Seq<char>, Seq<Seq<char>>)> {
    Seq::new(m.spec_len(), |i: int| (m.key_at(i), views(m.val_at(i)@)))
}

impl View for AsyncFlowGraph {
    type V = AsyncFlowView;

    open spec fn view(&self) -> AsyncFlowView {
        AsyncFlowView {
            events: events_view(self.events),
            jobs: jobs_view(self.jobs),
            consumer_to_target: targets_view(self.consumer_to_target),
        }
    }
}

/// An event node with only its key.
pub open spec fn bare_event(key: Seq<char>) -> EventView {
    EventView {
        event_key: key,
        raw_value: None,
        payload_interface: None,
        definition_file: None,
        stream: None,
        producers: seq![],
        consumers: seq![],
        saga_success: None,
        saga_failure: None,
        websocket_event: None,
    }
}

/// A job node with only its key.
pub open spec fn bare_job(key: Seq<char>) -> JobView {
    JobView {
        job_key: key,
        raw_value: None,
        payload_interface: None,
        definition_file: None,
        queue: None,
        producers: seq![],
        handlers: seq![],
    }
}


impl AsyncFlowGraph {
    /// Appends a producer to the event `key`, creating the event (with key
    /// `default_key` and nothing else) when absent; a given stream replaces
    /// the event's stream.
    pub fn add_event_producer(
        &mut self,
        key: String,
        default_key: String,
        stream: Option<String>,
        ep: FlowEndpoint,
    )
        ensures
            final(self)@ == (AsyncFlowView {
                events: al_set(
                    old(self)@.events,
                    key@,
                    with_event_producer(
                        al_get_or(old(self)@.events, key@, bare_event(default_key@)),
                        opt_text(stream),
                        ep@,
                    ),
                ),
                ..old(self)@
            }),
    {
        let ghost m0 = self.events;
        let ghost kv = key@;
        let ghost dflt = bare_event(default_key@);
        let ghost nv = with_event_producer(al_get_or(events_view(m0), kv, dflt), opt_text(stream), ep@);
        let node0 = EventNode::with_key(default_key);
        assert(node0@ == dflt) by {
            assert(node0@.producers =~= seq![]);
            assert(node0@.consumers =~= seq![]);
        }
        let i = self.events.index_or_insert(key, node0);
        let ghost m1 = self.events;
        let n = self.events.val_mut(i);
        let ghost p0 = n.producers@;
        match stream {
            Some(st) => {
                n.stream = Some(st);
            },
            None => {},
        }
        n.producers.push(ep);
        proof {
            let m2 = self.events;
            lemma_find_agrees(m0, events_view(m0), kv, 0);
            m0.lemma_first_from_bounds(kv, 0);
            m1.lemma_first_from_bounds(kv, 0);
            assert(m2.val_at(i as int)@.producers =~= m1.val_at(i as int)@.producers.push(ep@));
            assert(m2.val_at(i as int)@ == nv);
            assert(events_view(m2)[i as int] == (kv, nv));
            assert forall|j: int| 0 <= j < m0.spec_len() && j != i implies #[trigger] events_view(m2)[j] == events_view(m0)[j] by {
            }
            lemma_set_agrees(m0, m2, events_view(m0), events_view(m2), kv, i as int, nv);
            assert(jobs_view(self.jobs) == old(self)@.jobs);
        }
    }
}

/// The node with `ep` appended to its producers and, when `stream` is given,
/// that stream.
pub open spec fn with_event_producer(
    n: EventView,
    stream: Option<Seq<char>>,
    ep: EndpointView,
) -> EventView {
    EventView {
        stream: if stream is Some { stream } else { n.stream },
        producers: n.producers.push(ep),
        ..n
    }
}


impl AsyncFlowGraph {
    /// Appends a consumer to the event `key`, creating the event (with key
    /// `default_key` and nothing else) when absent.
    pub fn add_event_consumer(&mut self, key: String, default_key: String, c: ConsumerEndpoint)
        ensures
            final(self)@ == (AsyncFlowView {
                events: al_set(
                    old(self)@.events,
                    key@,
                    with_event_consumer(al_get_or(old(self)@.events, key@, bare_event(default_key@)), c@),
                ),
                ..old(self)@
            }),
    {
        let ghost m0 = self.events;
        let ghost kv = key@;
        let ghost dflt = bare_event(default_key@);
        let ghost nv = with_event_consumer(al_get_or(events_view(m0), kv, dflt), c@);
        let node0 = EventNode::with_key(default_key);
        assert(node0@ == dflt) by {
            assert(node0@.producers =~= seq![]);
            assert(node0@.consumers =~= seq![]);
        }
        let i = self.events.index_or_insert(key, node0);
        let ghost m1 = self.events;
        let n = self.events.val_mut(i);
        n.consumers.push(c);
        proof {
            let m2 = self.events;
            lemma_find_agrees(m0, events_view(m0), kv, 0);
            m0.lemma_first_from_bounds(kv, 0);
            m1.lemma_first_from_bounds(kv, 0);
            assert(m2.val_at(i as int)@.consumers =~= m1.val_at(i as int)@.consumers.push(c@));
            assert(m2.val_at(i as int)@ == nv);
            assert(events_view(m2)[i as int] == (kv, nv));
            assert forall|j: int| 0 <= j < m0.spec_len() && j != i implies #[trigger] events_view(m2)[j] == events_view(m0)[j] by {
            }
            lemma_set_agrees(m0, m2, events_view(m0), events_view(m2), kv, i as int, nv);
        }
    }

    /// Records the value and the defining file of the event `key`, creating
    /// the event when absent.
    pub fn define_event(&mut self, key: String, raw: String, file: String)
        ensures
            final(self)@ == (AsyncFlowView {
                events: al_set(
                    old(self)@.events,
                    key@,
                    with_event_definition(al_get_or(old(self)@.events, key@, bare_event(key@)), raw@, file@),
                ),
                ..old(self)@
            }),
    {
        let ghost m0 = self.events;
        let ghost kv = key@;
        let ghost dflt = bare_event(key@);
        let ghost nv = with_event_definition(al_get_or(events_view(m0), kv, dflt), raw@, file@);
        let node0 = EventNode::with_key(key.clone());
        assert(node0@ == dflt) by {
            assert(node0@.producers =~= seq![]);
            assert(node0@.consumers =~= seq![]);
        }
        let i = self.events.index_or_insert(key, node0);
        let ghost m1 = self.events;
        let n = self.events.val_mut(i);
        n.raw_value = Some(raw);
        n.definition_file = Some(file);
        proof {
            let m2 = self.events;
            lemma_find_agrees(m0, events_view(m0), kv, 0);
            m0.lemma_first_from_bounds(kv, 0);
            m1.lemma_first_from_bounds(kv, 0);
            assert(m2.val_at(i as int)@ == nv);
            assert(events_view(m2)[i as int] == (kv, nv));
            assert forall|j: int| 0 <= j < m0.spec_len() && j != i implies #[trigger] events_view(m2)[j] == events_view(m0)[j] by {
            }
            lemma_set_agrees(m0, m2, events_view(m0), events_view(m2), kv, i as int, nv);
        }
    }

    /// Records the payload interface of the event `key` when it is present.
    pub fn set_event_payload(&mut self, key: &str, iface: String)
        ensures
            final(self)@ == (AsyncFlowView {
                events: if al_find(old(self)@.events, key@) < old(self)@.events.len() {
                    al_set(
                        old(self)@.events,
                        key@,
                        EventView {
                            payload_interface: Some(iface@),
                            ..al_get_or(old(self)@.events, key@, bare_event(key@))
                        },
                    )
                } else {
                    old(self)@.events
                },
                ..old(self)@
            }),
    {
        let ghost m0 = self.events;
        let ghost kv = key@;
        proof {
            lemma_find_agrees(m0, events_view(m0), kv, 0);
            m0.lemma_first_from_bounds(kv, 0);
        }
        match self.events.find(key) {
            Some(i) => {
                let ghost nv = EventView {
                    payload_interface: Some(iface@),
                    ..al_get_or(events_view(m0), kv, bare_event(kv))
                };
                let n = self.events.val_mut(i);
                n.payload_interface = Some(iface);
                proof {
                    let m2 = self.events;
                    assert(m2.val_at(i as int)@ == nv);
                    assert(events_view(m2)[i as int] == (kv, nv));
                    assert forall|j: int| 0 <= j < m0.spec_len() && j != i implies #[trigger] events_view(m2)[j] == events_view(m0)[j] by {
                    }
                    lemma_set_agrees(m0, m2, events_view(m0), events_view(m2), kv, i as int, nv);
                }
            },
            None => {},
        }
    }

    /// Appends a producer to the job `key`, creating the job (with key
    /// `default_key` and nothing else) when absent.
    pub fn add_job_producer(&mut self, key: String, default_key: String, ep: FlowEndpoint)
        ensures
            final(self)@ == (AsyncFlowView {
                jobs: al_set(
                    old(self)@.jobs,
                    key@,
                    with_job_producer(al_get_or(old(self)@.jobs, key@, bare_job(default_key@)), ep@),
                ),
                ..old(self)@
            }),
    {
        let ghost m0 = self.jobs;
        let ghost kv = key@;
        let ghost dflt = bare_job(default_key@);
        let ghost nv = with_job_producer(al_get_or(jobs_view(m0), kv, dflt), ep@);
        let node0 = JobNode::with_key(default_key);
        assert(node0@ == dflt) by {
            assert(node0@.producers =~= seq![]);
            assert(node0@.handlers =~= seq![]);
        }
        let i = self.jobs.index_or_insert(key, node0);
        let ghost m1 = self.jobs;
        let n = self.jobs.val_mut(i);
        n.producers.push(ep);
        proof {
            let m2 = self.jobs;
            lemma_find_agrees(m0, jobs_view(m0), kv, 0);
            m0.lemma_first_from_bounds(kv, 0);
            m1.lemma_first_from_bounds(kv, 0);
            assert(m2.val_at(i as int)@.producers =~= m1.val_at(i as int)@.producers.push(ep@));
            assert(m2.val_at(i as int)@ == nv);
            assert(jobs_view(m2)[i as int] == (kv, nv));
            assert forall|j: int| 0 <= j < m0.spec_len() && j != i implies #[trigger] jobs_view(m2)[j] == jobs_view(m0)[j] by {
            }
            lemma_set_agrees(m0, m2, jobs_view(m0), jobs_view(m2), kv, i as int, nv);
        }
    }

    /// Appends a handler to the job `key`, creating the job (with key
    /// `default_key` and nothing else) when absent.
    pub fn add_job_handler(&mut self, key: String, default_key: String, h: ConsumerEndpoint)
        ensures
            final(self)@ == (AsyncFlowView {
                jobs: al_set(
                    old(self)@.jobs,
                    key@,
                    with_job_handler(al_get_or(old(self)@.jobs, key@, bare_job(default_key@)), h@),
                ),
                ..old(self)@
            }),
    {
        let ghost m0 = self.jobs;
        let ghost kv = key@;
        let ghost dflt = bare_job(default_key@);
        let ghost nv = with_job_handler(al_get_or(jobs_view(m0), kv, dflt), h@);
        let node0 = JobNode::with_key(default_key);
        assert(node0@ == dflt) by {
            assert(node0@.producers =~= seq![]);
            assert(node0@.handlers =~= seq![]);
        }
        let i = self.jobs.index_or_insert(key, node0);
        let ghost m1 = self.jobs;
        let n = self.jobs.val_mut(i);
        n.handlers.push(h);
        proof {
            let m2 = self.jobs;
            lemma_find_agrees(m0, jobs_view(m0), kv, 0);
            m0.lemma_first_from_bounds(kv, 0);
            m1.lemma_first_from_bounds(kv, 0);
            assert(m2.val_at(i as int)@.handlers =~= m1.val_at(i as int)@.handlers.push(h@));
            assert(m2.val_at(i as int)@ == nv);
            assert(jobs_view(m2)[i as int] == (kv, nv));
            assert forall|j: int| 0 <= j < m0.spec_len() && j != i implies #[trigger] jobs_view(m2)[j] == jobs_view(m0)[j] by {
            }
            lemma_set_agrees(m0, m2, jobs_view(m0), jobs_view(m2), kv, i as int, nv);
        }
    }

    /// Records the value and the defining file of the job `key`, creating
    /// the job when absent.
    pub fn define_job(&mut self, key: String, raw: String, file: String)
        ensures
            final(self)@ == (AsyncFlowView {
                jobs: al_set(
                    old(self)@.jobs,
                    key@,
                    with_job_definition(al_get_or(old(self)@.jobs, key@, bare_job(key@)), raw@, file@),
                ),
                ..old(self)@
            }),
    {
        let ghost m0 = self.jobs;
        let ghost kv = key@;
        let ghost dflt = bare_job(key@);
        let ghost nv = with_job_definition(al_get_or(jobs_view(m0), kv, dflt), raw@, file@);
        let node0 = JobNode::with_key(key.clone());
        assert(node0@ == dflt) by {
            assert(node0@.producers =~= seq![]);
            assert(node0@.handlers =~= seq![]);
        }
        let i = self.jobs.index_or_insert(key, node0);
        let ghost m1 = self.jobs;
        let n = self.jobs.val_mut(i);
        n.raw_value = Some(raw);
        n.definition_file = Some(file);
        proof {
            let m2 = self.jobs;
            lemma_find_agrees(m0, jobs_view(m0), kv, 0);
            m0.lemma_first_from_bounds(kv, 0);
            m1.lemma_first_from_bounds(kv, 0);
            assert(m2.val_at(i as int)@ == nv);
            assert(jobs_view(m2)[i as int] == (kv, nv));
            assert forall|j: int| 0 <= j < m0.spec_len() && j != i implies #[trigger] jobs_view(m2)[j] == jobs_view(m0)[j] by {
            }
            lemma_set_agrees(m0, m2, jobs_view(m0), jobs_view(m2), kv, i as int, nv);
        }
    }

    /// Records the payload interface of the job `key` when it is present.
    pub fn set_job_payload(&mut self, key: &str, iface: String)
        ensures
            final(self)@ == (AsyncFlowView {
                jobs: if al_find(old(self)@.jobs, key@) < old(self)@.jobs.len() {
                    al_set(
                        old(self)@.jobs,
                        key@,
                        JobView {
                            payload_interface: Some(iface@),
                            ..al_get_or(old(self)@.jobs, key@, bare_job(key@))
                        },
                    )
                } else {
                    old(self)@.jobs
                },
                ..old(self)@
            }),
    {
        let ghost m0 = self.jobs;
        let ghost kv = key@;
        proof {
            lemma_find_agrees(m0, jobs_view(m0), kv, 0);
            m0.lemma_first_from_bounds(kv, 0);
        }
        match self.jobs.find(key) {
            Some(i) => {
                let ghost nv = JobView {
                    payload_interface: Some(iface@),
                    ..al_get_or(jobs_view(m0), kv, bare_job(kv))
                };
                let n = self.jobs.val_mut(i);
                n.payload_interface = Some(iface);
                proof {
                    let m2 = self.jobs;
                    assert(m2.val_at(i as int)@ == nv);
                    assert(jobs_view(m2)[i as int] == (kv, nv));
                    assert forall|j: int| 0 <= j < m0.spec_len() && j != i implies #[trigger] jobs_view(m2)[j] == jobs_view(m0)[j] by {
                    }
                    lemma_set_agrees(m0, m2, jobs_view(m0), jobs_view(m2), kv, i as int, nv);
                }
            },
            None => {},
        }
    }

    /// Records in the reverse index that the class `class` consumes `target`.
    pub fn add_target(&mut self, class: String, target: String)
        ensures
            final(self)@ == (AsyncFlowView {
                consumer_to_target: al_set(
                    old(self)@.consumer_to_target,
                    class@,
                    al_get_or(old(self)@.consumer_to_target, class@, seq![]).push(target@),
                ),
                ..old(self)@
            }),
    {
        let ghost m0 = self.consumer_to_target;
        let ghost kv = class@;
        let ghost nv = al_get_or(targets_view(m0), kv, seq![]).push(target@);
        let v0: Vec<String> = Vec::new();
        assert(views(v0@) =~= seq![]);
        let i = self.consumer_to_target.index_or_insert(class, v0);
        let ghost m1 = self.consumer_to_target;
        let v = self.consumer_to_target.val_mut(i);
        v.push(target);
        proof {
            let m2 = self.consumer_to_target;
            lemma_find_agrees(m0, targets_view(m0), kv, 0);
            m0.lemma_first_from_bounds(kv, 0);
            m1.lemma_first_from_bounds(kv, 0);
            assert(views(m2.val_at(i as int)@) =~= views(m1.val_at(i as int)@).push(target@));
            assert(targets_view(m2)[i as int] == (kv, nv));
            assert forall|j: int| 0 <= j < m0.spec_len() && j != i implies #[trigger] targets_view(m2)[j] == targets_view(m0)[j] by {
            }
            lemma_set_agrees(m0, m2, targets_view(m0), targets_view(m2), kv, i as int, nv);
        }
    }

    /// Sets both saga links of the event at position `i`.
    pub fn set_event_sagas(&mut self, i: usize, success: Option<String>, failure: Option<String>)
        requires
            i < old(self).events.spec_len(),
        ensures
            final(self)@ == (AsyncFlowView {
                events: old(self)@.events.update(
                    i as int,
                    (
                        old(self)@.events[i as int].0,
                        EventView {
                            saga_success: opt_text(success),
                            saga_failure: opt_text(failure),
                            ..old(self)@.events[i as int].1
                        },
                    ),
                ),
                ..old(self)@
            }),
    {
        let ghost m0 = self.events;
        let n = self.events.val_mut(i);
        n.saga_success = success;
        n.saga_failure = failure;
        proof {
            let m2 = self.events;
            assert(events_view(m2) =~= events_view(m0).update(
                i as int,
                (
                    events_view(m0)[i as int].0,
                    EventView {
                        saga_success: opt_text(success),
                        saga_failure: opt_text(failure),
                        ..events_view(m0)[i as int].1
                    },
                ),
            ));
        }
    }
}

/// The node with `c` appended to its consumers.
pub open spec fn with_event_consumer(n: EventView, c: ConsumerView) -> EventView {
    EventView { consumers: n.consumers.push(c), ..n }
}

/// The node with its value and defining file set.
pub open spec fn with_event_definition(n: EventView, raw: Seq<char>, file: Seq<char>) -> EventView {
    EventView { raw_value: Some(raw), definition_file: Some(file), ..n }
}

/// The node with `ep` appended to its producers.
pub open spec fn with_job_producer(n: JobView, ep: EndpointView) -> JobView {
    JobView { producers: n.producers.push(ep), ..n }
}

/// The node with `h` appended to its handlers.
pub open spec fn with_job_handler(n: JobView, h: ConsumerView) -> JobView {
    JobView { handlers: n.handlers.push(h), ..n }
}

/// The node with its value and defining file set.
pub open spec fn with_job_definition(n: JobView, raw: Seq<char>, file: Seq<char>) -> JobView {
    JobView { raw_value: Some(raw), definition_file: Some(file), ..n }
}


impl AsyncFlowGraph {
    /// Sets the saga links of the event at position `i` that are given,
    /// keeping the others.
    pub fn set_event_sagas_given(&mut self, i: usize, success: Option<String>, failure: Option<String>)
        requires
            i < old(self).events.spec_len(),
        ensures
            final(self)@ == (AsyncFlowView {
                events: old(self)@.events.update(
                    i as int,
                    (
                        old(self)@.events[i as int].0,
                        EventView {
                            saga_success: if success is Some {
                                opt_text(success)
                            } else {
                                old(self)@.events[i as int].1.saga_success
                            },
                            saga_failure: if failure is Some {
                                opt_text(failure)
                            } else {
                                old(self)@.events[i as int].1.saga_failure
                            },
                            ..old(self)@.events[i as int].1
                        },
                    ),
                ),
                ..old(self)@
            }),
    {
        let ghost m0 = self.events;
        let n = self.events.val_mut(i);
        match success {
            Some(s) => {
                n.saga_success = Some(s);
            },
            None => {},
        }
        match failure {
            Some(f) => {
                n.saga_failure = Some(f);
            },
            None => {},
        }
        proof {
            let m2 = self.events;
            assert(events_view(m2) =~= events_view(m0).update(
                i as int,
                (
                    events_view(m0)[i as int].0,
                    EventView {
                        saga_success: if success is Some {
                            opt_text(success)
                        } else {
                            events_view(m0)[i as int].1.saga_success
                        },
                        saga_failure: if failure is Some {
                            opt_text(failure)
                        } else {
                            events_view(m0)[i as int].1.saga_failure
                        },
                        ..events_view(m0)[i as int].1
                    },
                ),
            ));
        }
    }
}

} // verus!
