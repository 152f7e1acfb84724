//! What the asynchronous scan keeps of its endpoints: every endpoint names
//! the service of its file, and every target that the reverse index lists
//! for a class is an event that the class consumes or a job that it handles.
use vstd::prelude::*;

use crate::domain::async_flow::{
    bare_event, bare_job, with_event_consumer, with_event_definition, with_event_producer, with_job_definition,
    with_job_handler, with_job_producer, AsyncFlowView, ConsumerView, EndpointView, EventView, JobView,
};
use crate::infrastructure::scanners::async_scanner::{
    async_flow_of, consume_events, define_events, define_jobs, emit_events, emit_jobs, empty_flow, fallback_jobs,
    first_event_match, first_job_match, handle_jobs, line_at, handled_job, in_events_dir, in_jobs_dir, is_ts_source, job_type_field,
    link_sagas, payload_stem, register_events, register_jobs, scan_all_definitions, scan_all_sources,
    scan_definitions, scan_source, service_of, CREATE_EVENT, CREATE_EVENT_ANY, CREATE_JOB_ANY, ENUM_ENTRY,
    FALLBACK_TARGET, JOB_HANDLER, JOB_TARGET, POST_PROCESSOR, REGISTRY_ENTRY,
};
use crate::pattern::{cap_text, group, has_match, regex_captures, take_upto, window_after, Span};
use crate::strmap::{al_find, al_get_or, al_set, lemma_al_from_bounds};
use crate::text::{last_piece, trim};

verus! {

/// `a` starts with all of `b`.
pub open spec fn extends<T>(a: Seq<T>, b: Seq<T>) -> bool {
    b.len() <= a.len() && forall|i: int| 0 <= i < b.len() ==> #[trigger] a[i] == b[i]
}

/// The endpoint lies in a TypeScript source (not a declaration file) and
/// names the service of that file.
pub open spec fn endpoint_named(e: EndpointView) -> bool {
    is_ts_source(e.file_path) && e.service == service_of(e.file_path)
}

/// The consumer lies in a TypeScript source (not a declaration file) and
/// names the service of that file.
pub open spec fn consumer_named(e: ConsumerView) -> bool {
    is_ts_source(e.file_path) && e.service == service_of(e.file_path)
}

/// Every producer and consumer of the event names the service of its file.
pub open spec fn event_named(n: EventView) -> bool {
    &&& forall|q: int| 0 <= q < n.producers.len() ==> endpoint_named(#[trigger] n.producers[q])
    &&& forall|q: int| 0 <= q < n.consumers.len() ==> consumer_named(#[trigger] n.consumers[q])
}

/// Every producer and handler of the job names the service of its file.
pub open spec fn job_named(n: JobView) -> bool {
    &&& forall|q: int| 0 <= q < n.producers.len() ==> endpoint_named(#[trigger] n.producers[q])
    &&& forall|q: int| 0 <= q < n.handlers.len() ==> consumer_named(#[trigger] n.handlers[q])
}

/// Every endpoint of the graph names the service of its file.
pub open spec fn endpoints_named(g: AsyncFlowView) -> bool {
    &&& forall|k: int| 0 <= k < g.events.len() ==> event_named(#[trigger] g.events[k].1)
    &&& forall|k: int| 0 <= k < g.jobs.len() ==> job_named(#[trigger] g.jobs[k].1)
}

/// Some consumer of the list has handler class `c`.
pub open spec fn has_class(cs: Seq<ConsumerView>, c: Seq<char>) -> bool {
    exists|q: int| 0 <= q < cs.len() && (#[trigger] cs[q]).handler_class == c
}

/// An event of `g` keyed `t` has a consumer of class `c`, or a job keyed
/// `t` has a handler of class `c`.
pub open spec fn serves(g: AsyncFlowView, t: Seq<char>, c: Seq<char>) -> bool {
    (exists|k: int| 0 <= k < g.events.len() && #[trigger] g.events[k].0 == t && has_class(g.events[k].1.consumers, c))
        || (exists|k: int|
        0 <= k < g.jobs.len() && #[trigger] g.jobs[k].0 == t && has_class(g.jobs[k].1.handlers, c))
}

/// Every target that the reverse index lists for a class is consumed or
/// handled by that class.
pub open spec fn targets_served(g: AsyncFlowView) -> bool {
    forall|i: int, j: int|
        0 <= i < g.consumer_to_target.len() && 0 <= j < g.consumer_to_target[i].1.len() ==> serves(
            g,
            #[trigger] g.consumer_to_target[i].1[j],
            g.consumer_to_target[i].0,
        )
}

/// `h` holds the events and jobs of `g` at their positions, with at least
/// their consumers and handlers.
pub open spec fn nodes_extend(g: AsyncFlowView, h: AsyncFlowView) -> bool {
    &&& g.events.len() <= h.events.len()
    &&& forall|k: int| 0 <= k < g.events.len() ==> (#[trigger] h.events[k]).0 == g.events[k].0 && extends(
        h.events[k].1.consumers,
        g.events[k].1.consumers,
    )
    &&& g.jobs.len() <= h.jobs.len()
    &&& forall|k: int| 0 <= k < g.jobs.len() ==> (#[trigger] h.jobs[k]).0 == g.jobs[k].0 && extends(
        h.jobs[k].1.handlers,
        g.jobs[k].1.handlers,
    )
}

/// The graph keeps its endpoints named and its reverse index served.
pub open spec fn flow_sound(g: AsyncFlowView) -> bool {
    endpoints_named(g) && targets_served(g)
}

proof fn lemma_extend_trans(a: AsyncFlowView, b: AsyncFlowView, c: AsyncFlowView)
    requires
        nodes_extend(a, b),
        nodes_extend(b, c),
    ensures
        nodes_extend(a, c),
{
    assert forall|k: int| 0 <= k < a.events.len() implies (#[trigger] c.events[k]).0 == a.events[k].0 && extends(
        c.events[k].1.consumers,
        a.events[k].1.consumers,
    ) by {
        assert(b.events[k].0 == a.events[k].0);
        assert forall|i: int| 0 <= i < a.events[k].1.consumers.len() implies #[trigger] c.events[k].1.consumers[i]
            == a.events[k].1.consumers[i] by {
            assert(b.events[k].1.consumers[i] == a.events[k].1.consumers[i]);
        }
    }
    assert forall|k: int| 0 <= k < a.jobs.len() implies (#[trigger] c.jobs[k]).0 == a.jobs[k].0 && extends(
        c.jobs[k].1.handlers,
        a.jobs[k].1.handlers,
    ) by {
        assert(b.jobs[k].0 == a.jobs[k].0);
        assert forall|i: int| 0 <= i < a.jobs[k].1.handlers.len() implies #[trigger] c.jobs[k].1.handlers[i]
            == a.jobs[k].1.handlers[i] by {
            assert(b.jobs[k].1.handlers[i] == a.jobs[k].1.handlers[i]);
        }
    }
}

/// Served targets stay served in a graph that extends the nodes.
proof fn lemma_serves_kept(g: AsyncFlowView, h: AsyncFlowView, t: Seq<char>, c: Seq<char>)
    requires
        nodes_extend(g, h),
        serves(g, t, c),
    ensures
        serves(h, t, c),
{
    if exists|k: int| 0 <= k < g.events.len() && #[trigger] g.events[k].0 == t && has_class(g.events[k].1.consumers, c) {
        let k = choose|k: int| 0 <= k < g.events.len() && #[trigger] g.events[k].0 == t && has_class(g.events[k].1.consumers, c);
        let q = choose|q: int| 0 <= q < g.events[k].1.consumers.len() && (#[trigger] g.events[k].1.consumers[q]).handler_class == c;
        assert(h.events[k].0 == t);
        assert(h.events[k].1.consumers[q] == g.events[k].1.consumers[q]);
        assert(has_class(h.events[k].1.consumers, c));
    } else {
        let k = choose|k: int| 0 <= k < g.jobs.len() && #[trigger] g.jobs[k].0 == t && has_class(g.jobs[k].1.handlers, c);
        let q = choose|q: int| 0 <= q < g.jobs[k].1.handlers.len() && (#[trigger] g.jobs[k].1.handlers[q]).handler_class == c;
        assert(h.jobs[k].0 == t);
        assert(h.jobs[k].1.handlers[q] == g.jobs[k].1.handlers[q]);
        assert(has_class(h.jobs[k].1.handlers, c));
    }
}

/// A step that extends the nodes, keeps them named and leaves the reverse
/// index keeps the graph sound.
proof fn lemma_sound_kept(g: AsyncFlowView, h: AsyncFlowView)
    requires
        flow_sound(g),
        endpoints_named(h),
        nodes_extend(g, h),
        h.consumer_to_target == g.consumer_to_target,
    ensures
        flow_sound(h),
{
    assert forall|i: int, j: int|
        0 <= i < h.consumer_to_target.len() && 0 <= j < h.consumer_to_target[i].1.len() implies serves(
        h,
        #[trigger] h.consumer_to_target[i].1[j],
        h.consumer_to_target[i].0,
    ) by {
        lemma_serves_kept(g, h, g.consumer_to_target[i].1[j], g.consumer_to_target[i].0);
    }
}

/// Setting an event keeps the others at their positions; the event set
/// keeps its consumers when it was there.
proof fn lemma_set_event(s: Seq<(Seq<char>, EventView)>, k: Seq<char>, v: EventView)
    requires
        al_find(s, k) < s.len() ==> extends(v.consumers, s[al_find(s, k)].1.consumers),
    ensures
        s.len() <= al_set(s, k, v).len(),
        forall|i: int| 0 <= i < s.len() ==> (#[trigger] al_set(s, k, v)[i]).0 == s[i].0 && extends(
            al_set(s, k, v)[i].1.consumers,
            s[i].1.consumers,
        ),
        forall|i: int| 0 <= i < al_set(s, k, v).len() ==> #[trigger] al_set(s, k, v)[i] == (k, v) || (i < s.len()
            && al_set(s, k, v)[i] == s[i]),
        exists|i: int| 0 <= i < al_set(s, k, v).len() && #[trigger] al_set(s, k, v)[i] == (k, v),
{
    lemma_al_from_bounds(s, k, 0);
    let p = al_find(s, k);
    let t = al_set(s, k, v);
    if p < s.len() {
        assert(t[p] == (k, v));
        assert forall|i: int| 0 <= i < s.len() implies (#[trigger] t[i]).0 == s[i].0 && extends(
            t[i].1.consumers,
            s[i].1.consumers,
        ) by {
            if i != p {
                assert(t[i] == s[i]);
            }
        }
    } else {
        assert(t[s.len() as int] == (k, v));
        assert forall|i: int| 0 <= i < s.len() implies (#[trigger] t[i]).0 == s[i].0 && extends(
            t[i].1.consumers,
            s[i].1.consumers,
        ) by {
            assert(t[i] == s[i]);
        }
    }
}

/// Setting a job keeps the others at their positions; the job set keeps
/// its handlers when it was there.
proof fn lemma_set_job(s: Seq<(Seq<char>, JobView)>, k: Seq<char>, v: JobView)
    requires
        al_find(s, k) < s.len() ==> extends(v.handlers, s[al_find(s, k)].1.handlers),
    ensures
        s.len() <= al_set(s, k, v).len(),
        forall|i: int| 0 <= i < s.len() ==> (#[trigger] al_set(s, k, v)[i]).0 == s[i].0 && extends(
            al_set(s, k, v)[i].1.handlers,
            s[i].1.handlers,
        ),
        forall|i: int| 0 <= i < al_set(s, k, v).len() ==> #[trigger] al_set(s, k, v)[i] == (k, v) || (i < s.len()
            && al_set(s, k, v)[i] == s[i]),
        exists|i: int| 0 <= i < al_set(s, k, v).len() && #[trigger] al_set(s, k, v)[i] == (k, v),
{
    lemma_al_from_bounds(s, k, 0);
    let p = al_find(s, k);
    let t = al_set(s, k, v);
    if p < s.len() {
        assert(t[p] == (k, v));
        assert forall|i: int| 0 <= i < s.len() implies (#[trigger] t[i]).0 == s[i].0 && extends(
            t[i].1.handlers,
            s[i].1.handlers,
        ) by {
            if i != p {
                assert(t[i] == s[i]);
            }
        }
    } else {
        assert(t[s.len() as int] == (k, v));
        assert forall|i: int| 0 <= i < s.len() implies (#[trigger] t[i]).0 == s[i].0 && extends(
            t[i].1.handlers,
            s[i].1.handlers,
        ) by {
            assert(t[i] == s[i]);
        }
    }
}

/// The graph with the event `k` set to `v`, where `v` extends what `k` held.
proof fn lemma_step_event(g: AsyncFlowView, h: AsyncFlowView, k: Seq<char>, v: EventView)
    requires
        endpoints_named(g),
        event_named(v),
        al_find(g.events, k) < g.events.len() ==> extends(v.consumers, g.events[al_find(g.events, k)].1.consumers),
        h.events == al_set(g.events, k, v),
        h.jobs == g.jobs,
    ensures
        endpoints_named(h),
        nodes_extend(g, h),
        exists|i: int| 0 <= i < h.events.len() && #[trigger] h.events[i] == (k, v),
{
    lemma_set_event(g.events, k, v);
    assert forall|i: int| 0 <= i < h.events.len() implies event_named(#[trigger] h.events[i].1) by {
        if h.events[i] != (k, v) {
            assert(h.events[i] == g.events[i]);
        }
    }
    assert forall|i: int| 0 <= i < g.events.len() implies (#[trigger] h.events[i]).0 == g.events[i].0 && extends(
        h.events[i].1.consumers,
        g.events[i].1.consumers,
    ) by {
        assert(al_set(g.events, k, v)[i].0 == g.events[i].0);
    }
    assert forall|i: int| 0 <= i < g.jobs.len() implies (#[trigger] h.jobs[i]).0 == g.jobs[i].0 && extends(
        h.jobs[i].1.handlers,
        g.jobs[i].1.handlers,
    ) by {
        assert(h.jobs[i] == g.jobs[i]);
    }
}

/// The graph with the job `k` set to `v`, where `v` extends what `k` held.
proof fn lemma_step_job(g: AsyncFlowView, h: AsyncFlowView, k: Seq<char>, v: JobView)
    requires
        endpoints_named(g),
        job_named(v),
        al_find(g.jobs, k) < g.jobs.len() ==> extends(v.handlers, g.jobs[al_find(g.jobs, k)].1.handlers),
        h.jobs == al_set(g.jobs, k, v),
        h.events == g.events,
    ensures
        endpoints_named(h),
        nodes_extend(g, h),
        exists|i: int| 0 <= i < h.jobs.len() && #[trigger] h.jobs[i] == (k, v),
{
    lemma_set_job(g.jobs, k, v);
    assert forall|i: int| 0 <= i < h.jobs.len() implies job_named(#[trigger] h.jobs[i].1) by {
        if h.jobs[i] != (k, v) {
            assert(h.jobs[i] == g.jobs[i]);
        }
    }
    assert forall|i: int| 0 <= i < g.jobs.len() implies (#[trigger] h.jobs[i]).0 == g.jobs[i].0 && extends(
        h.jobs[i].1.handlers,
        g.jobs[i].1.handlers,
    ) by {
        assert(al_set(g.jobs, k, v)[i].0 == g.jobs[i].0);
    }
    assert forall|i: int| 0 <= i < g.events.len() implies (#[trigger] h.events[i]).0 == g.events[i].0 && extends(
        h.events[i].1.consumers,
        g.events[i].1.consumers,
    ) by {
        assert(h.events[i] == g.events[i]);
    }
}

/// The node stored under `k`, or `d`, is named when every node is.
proof fn lemma_get_event_named(g: AsyncFlowView, k: Seq<char>, d: EventView)
    requires
        endpoints_named(g),
        event_named(d),
    ensures
        event_named(al_get_or(g.events, k, d)),
        al_find(g.events, k) < g.events.len() ==> al_get_or(g.events, k, d) == g.events[al_find(g.events, k)].1,
{
    lemma_al_from_bounds(g.events, k, 0);
    if al_find(g.events, k) < g.events.len() {
        assert(event_named(g.events[al_find(g.events, k)].1));
    }
}

proof fn lemma_get_job_named(g: AsyncFlowView, k: Seq<char>, d: JobView)
    requires
        endpoints_named(g),
        job_named(d),
    ensures
        job_named(al_get_or(g.jobs, k, d)),
        al_find(g.jobs, k) < g.jobs.len() ==> al_get_or(g.jobs, k, d) == g.jobs[al_find(g.jobs, k)].1,
{
    lemma_al_from_bounds(g.jobs, k, 0);
    if al_find(g.jobs, k) < g.jobs.len() {
        assert(job_named(g.jobs[al_find(g.jobs, k)].1));
    }
}


proof fn lemma_extend_refl(g: AsyncFlowView)
    ensures
        nodes_extend(g, g),
{
}

proof fn lemma_define_events(g: AsyncFlowView, path: Seq<char>, c: Seq<char>, caps: Seq<Seq<Span>>)
    requires
        endpoints_named(g),
    ensures
        endpoints_named(define_events(g, path, c, caps)),
        nodes_extend(g, define_events(g, path, c, caps)),
        define_events(g, path, c, caps).consumer_to_target == g.consumer_to_target,
    decreases caps.len(),
{
    if caps.len() == 0 {
        lemma_extend_refl(g);
    } else {
        lemma_define_events(g, path, c, caps.drop_last());
        let g0 = define_events(g, path, c, caps.drop_last());
        let r = define_events(g, path, c, caps);
        match (cap_text(c, caps.last(), 1), cap_text(c, caps.last(), 2)) {
            (Some(k), Some(v)) => {
                lemma_get_event_named(g0, k, bare_event(k));
                let n = with_event_definition(al_get_or(g0.events, k, bare_event(k)), v, path);
                lemma_step_event(g0, r, k, n);
                lemma_extend_trans(g, g0, r);
            },
            _ => {},
        }
    }
}

proof fn lemma_define_jobs(g: AsyncFlowView, path: Seq<char>, c: Seq<char>, caps: Seq<Seq<Span>>)
    requires
        endpoints_named(g),
    ensures
        endpoints_named(define_jobs(g, path, c, caps)),
        nodes_extend(g, define_jobs(g, path, c, caps)),
        define_jobs(g, path, c, caps).consumer_to_target == g.consumer_to_target,
    decreases caps.len(),
{
    if caps.len() == 0 {
        lemma_extend_refl(g);
    } else {
        lemma_define_jobs(g, path, c, caps.drop_last());
        let g0 = define_jobs(g, path, c, caps.drop_last());
        let r = define_jobs(g, path, c, caps);
        match (cap_text(c, caps.last(), 1), cap_text(c, caps.last(), 2)) {
            (Some(k), Some(v)) => {
                lemma_get_job_named(g0, k, bare_job(k));
                let n = with_job_definition(al_get_or(g0.jobs, k, bare_job(k)), v, path);
                lemma_step_job(g0, r, k, n);
                lemma_extend_trans(g, g0, r);
            },
            _ => {},
        }
    }
}

proof fn lemma_register_events(g: AsyncFlowView, c: Seq<char>, caps: Seq<Seq<Span>>)
    requires
        endpoints_named(g),
    ensures
        endpoints_named(register_events(g, c, caps)),
        nodes_extend(g, register_events(g, c, caps)),
        register_events(g, c, caps).consumer_to_target == g.consumer_to_target,
    decreases caps.len(),
{
    if caps.len() == 0 {
        lemma_extend_refl(g);
    } else {
        lemma_register_events(g, c, caps.drop_last());
        let g0 = register_events(g, c, caps.drop_last());
        let r = register_events(g, c, caps);
        match (cap_text(c, caps.last(), 1), cap_text(c, caps.last(), 2)) {
            (Some(full), Some(iface)) => {
                let k = last_piece(full, '.');
                if al_find(g0.events, k) < g0.events.len() {
                    lemma_get_event_named(g0, k, bare_event(k));
                    let n = EventView { payload_interface: Some(iface), ..al_get_or(g0.events, k, bare_event(k)) };
                    lemma_step_event(g0, r, k, n);
                    lemma_extend_trans(g, g0, r);
                }
            },
            _ => {},
        }
    }
}

proof fn lemma_register_jobs(g: AsyncFlowView, c: Seq<char>, caps: Seq<Seq<Span>>)
    requires
        endpoints_named(g),
    ensures
        endpoints_named(register_jobs(g, c, caps)),
        nodes_extend(g, register_jobs(g, c, caps)),
        register_jobs(g, c, caps).consumer_to_target == g.consumer_to_target,
    decreases caps.len(),
{
    if caps.len() == 0 {
        lemma_extend_refl(g);
    } else {
        lemma_register_jobs(g, c, caps.drop_last());
        let g0 = register_jobs(g, c, caps.drop_last());
        let r = register_jobs(g, c, caps);
        match (cap_text(c, caps.last(), 1), cap_text(c, caps.last(), 2)) {
            (Some(full), Some(iface)) => {
                let k = last_piece(full, '.');
                if al_find(g0.jobs, k) < g0.jobs.len() {
                    lemma_get_job_named(g0, k, bare_job(k));
                    let n = JobView { payload_interface: Some(iface), ..al_get_or(g0.jobs, k, bare_job(k)) };
                    lemma_step_job(g0, r, k, n);
                    lemma_extend_trans(g, g0, r);
                }
            },
            _ => {},
        }
    }
}

proof fn lemma_emit_events(g: AsyncFlowView, path: Seq<char>, c: Seq<char>, caps: Seq<Seq<Span>>)
    requires
        endpoints_named(g),
        is_ts_source(path),
    ensures
        endpoints_named(emit_events(g, path, c, caps)),
        nodes_extend(g, emit_events(g, path, c, caps)),
        emit_events(g, path, c, caps).consumer_to_target == g.consumer_to_target,
    decreases caps.len(),
{
    if caps.len() == 0 {
        lemma_extend_refl(g);
    } else {
        lemma_emit_events(g, path, c, caps.drop_last());
        let g0 = emit_events(g, path, c, caps.drop_last());
        let r = emit_events(g, path, c, caps);
        match (group(caps.last(), 0), cap_text(c, caps.last(), 1)) {
            (Some(m), Some(t)) => {
                let short = last_piece(trim(t), '.');
                let ep = EndpointView {
                    service: service_of(path),
                    file_path: path,
                    line_number: line_at(c, m.0),
                    pattern: "EventQueueEntity.createEvent"@,
                    snippet: take_upto(window_after(c, m.1, 800), 180),
                };
                let key = match first_event_match(g0.events, short, 0) {
                    Some(k) => k,
                    None => short,
                };
                lemma_get_event_named(g0, key, bare_event(seq![]));
                let n = with_event_producer(al_get_or(g0.events, key, bare_event(seq![])), None, ep);
                lemma_step_event(g0, r, key, n);
                lemma_extend_trans(g, g0, r);
            },
            _ => {},
        }
    }
}

proof fn lemma_emit_jobs(g: AsyncFlowView, path: Seq<char>, c: Seq<char>, caps: Seq<Seq<Span>>)
    requires
        endpoints_named(g),
        is_ts_source(path),
    ensures
        endpoints_named(emit_jobs(g, path, c, caps)),
        nodes_extend(g, emit_jobs(g, path, c, caps)),
        emit_jobs(g, path, c, caps).consumer_to_target == g.consumer_to_target,
    decreases caps.len(),
{
    if caps.len() == 0 {
        lemma_extend_refl(g);
    } else {
        lemma_emit_jobs(g, path, c, caps.drop_last());
        let g0 = emit_jobs(g, path, c, caps.drop_last());
        let r = emit_jobs(g, path, c, caps);
        match (group(caps.last(), 0), cap_text(c, caps.last(), 1)) {
            (Some(m), Some(t)) => {
                let short = last_piece(trim(t), '.');
                let ep = EndpointView {
                    service: service_of(path),
                    file_path: path,
                    line_number: line_at(c, m.0),
                    pattern: "JobsOutboxEntity.createJob"@,
                    snippet: take_upto(window_after(c, m.1, 800), 180),
                };
                let key = match first_job_match(g0.jobs, short, 0) {
                    Some(k) => k,
                    None => short,
                };
                lemma_get_job_named(g0, key, bare_job(seq![]));
                let n = with_job_producer(al_get_or(g0.jobs, key, bare_job(seq![])), ep);
                lemma_step_job(g0, r, key, n);
                lemma_extend_trans(g, g0, r);
            },
            _ => {},
        }
    }
}

proof fn lemma_fallback_jobs(g: AsyncFlowView, path: Seq<char>, c: Seq<char>, caps: Seq<Seq<Span>>)
    requires
        endpoints_named(g),
        is_ts_source(path),
    ensures
        endpoints_named(fallback_jobs(g, path, c, caps)),
        nodes_extend(g, fallback_jobs(g, path, c, caps)),
        fallback_jobs(g, path, c, caps).consumer_to_target == g.consumer_to_target,
    decreases caps.len(),
{
    if caps.len() == 0 {
        lemma_extend_refl(g);
    } else {
        lemma_fallback_jobs(g, path, c, caps.drop_last());
        let g0 = fallback_jobs(g, path, c, caps.drop_last());
        let r = fallback_jobs(g, path, c, caps);
        match (group(caps.last(), 0), cap_text(c, caps.last(), 1)) {
            (Some(m), Some(t)) => {
                let target = last_piece(trim(t), '.');
                let ep = EndpointView {
                    service: service_of(path),
                    file_path: path,
                    line_number: line_at(c, m.0),
                    pattern: "withFallback"@,
                    snippet: seq![],
                };
                let key = match first_job_match(g0.jobs, target, 0) {
                    Some(k) => k,
                    None => target,
                };
                lemma_get_job_named(g0, key, bare_job(seq![]));
                let n = with_job_producer(al_get_or(g0.jobs, key, bare_job(seq![])), ep);
                lemma_step_job(g0, r, key, n);
                lemma_extend_trans(g, g0, r);
            },
            _ => {},
        }
    }
}

/// Listing `target` for `class`, when `class` consumes or handles it, keeps
/// the reverse index served.
proof fn lemma_add_served(g0: AsyncFlowView, r: AsyncFlowView, class: Seq<char>, target: Seq<char>)
    requires
        targets_served(g0),
        nodes_extend(g0, r),
        serves(r, target, class),
        r.consumer_to_target == al_set(
            g0.consumer_to_target,
            class,
            al_get_or(g0.consumer_to_target, class, seq![]).push(target),
        ),
    ensures
        targets_served(r),
{
    let ctt = g0.consumer_to_target;
    lemma_al_from_bounds(ctt, class, 0);
    let p = al_find(ctt, class);
    let old_list = al_get_or(ctt, class, seq![]);
    let t = r.consumer_to_target;
    assert forall|i: int, j: int| 0 <= i < t.len() && 0 <= j < t[i].1.len() implies serves(
        r,
        #[trigger] t[i].1[j],
        t[i].0,
    ) by {
        if i == p || (p == ctt.len() && i == ctt.len()) {
            assert(t[i].0 == class);
            if j < old_list.len() {
                assert(p < ctt.len());
                assert(t[i].1[j] == ctt[p].1[j]);
                assert(ctt[p].0 == class);
                lemma_serves_kept(g0, r, ctt[p].1[j], ctt[p].0);
            }
        } else {
            assert(t[i] == ctt[i]);
            lemma_serves_kept(g0, r, ctt[i].1[j], ctt[i].0);
        }
    }
}

proof fn lemma_consume_events(g: AsyncFlowView, path: Seq<char>, c: Seq<char>, caps: Seq<Seq<Span>>)
    requires
        flow_sound(g),
        is_ts_source(path),
    ensures
        flow_sound(consume_events(g, path, c, caps)),
        nodes_extend(g, consume_events(g, path, c, caps)),
    decreases caps.len(),
{
    if caps.len() == 0 {
        lemma_extend_refl(g);
    } else {
        lemma_consume_events(g, path, c, caps.drop_last());
        let g0 = consume_events(g, path, c, caps.drop_last());
        let r = consume_events(g, path, c, caps);
        let cap = caps.last();
        match (group(cap, 0), cap_text(c, cap, 1), cap_text(c, cap, 2), cap_text(c, cap, 3)) {
            (Some(m), Some(class), Some(kind), Some(pay)) => {
                let short = last_piece(trim(pay), '.');
                let consumer = ConsumerView {
                    service: service_of(path),
                    handler_class: class,
                    file_path: path,
                    line_number: line_at(c, m.0),
                    processing_type: kind,
                };
                let target = match first_event_match(g0.events, short, 0) {
                    Some(k) => k,
                    None => payload_stem(short),
                };
                lemma_get_event_named(g0, target, bare_event(seq![]));
                let n = with_event_consumer(al_get_or(g0.events, target, bare_event(seq![])), consumer);
                lemma_step_event(g0, r, target, n);
                let i = choose|i: int| 0 <= i < r.events.len() && #[trigger] r.events[i] == (target, n);
                assert(r.events[i].1.consumers[n.consumers.len() - 1] == consumer);
                assert(has_class(r.events[i].1.consumers, class));
                assert(0 <= i < r.events.len() && r.events[i].0 == target && has_class(r.events[i].1.consumers, class));
                assert(serves(r, target, class));
                lemma_add_served(g0, r, class, target);
                lemma_extend_trans(g, g0, r);
            },
            _ => {},
        }
    }
}

proof fn lemma_handle_jobs(g: AsyncFlowView, path: Seq<char>, c: Seq<char>, caps: Seq<Seq<Span>>)
    requires
        flow_sound(g),
        is_ts_source(path),
    ensures
        flow_sound(handle_jobs(g, path, c, caps)),
        nodes_extend(g, handle_jobs(g, path, c, caps)),
    decreases caps.len(),
{
    if caps.len() == 0 {
        lemma_extend_refl(g);
    } else {
        lemma_handle_jobs(g, path, c, caps.drop_last());
        let g0 = handle_jobs(g, path, c, caps.drop_last());
        let r = handle_jobs(g, path, c, caps);
        let cap = caps.last();
        match (group(cap, 0), cap_text(c, cap, 1), cap_text(c, cap, 2)) {
            (Some(m), Some(class), Some(pay)) => {
                let short = last_piece(trim(pay), '.');
                let handler = ConsumerView {
                    service: service_of(path),
                    handler_class: class,
                    file_path: path,
                    line_number: line_at(c, m.0),
                    processing_type: "IJobHandler"@,
                };
                let target = handled_job(g0.jobs, job_type_field(c), short);
                lemma_get_job_named(g0, target, bare_job(seq![]));
                let n = with_job_handler(al_get_or(g0.jobs, target, bare_job(seq![])), handler);
                lemma_step_job(g0, r, target, n);
                let i = choose|i: int| 0 <= i < r.jobs.len() && #[trigger] r.jobs[i] == (target, n);
                assert(r.jobs[i].1.handlers[n.handlers.len() - 1] == handler);
                assert(has_class(r.jobs[i].1.handlers, class));
                assert(0 <= i < r.jobs.len() && r.jobs[i].0 == target && has_class(r.jobs[i].1.handlers, class));
                assert(serves(r, target, class));
                lemma_add_served(g0, r, class, target);
                lemma_extend_trans(g, g0, r);
            },
            _ => {},
        }
    }
}

proof fn lemma_scan_definitions(g: AsyncFlowView, path: Seq<char>, c: Seq<char>)
    requires
        endpoints_named(g),
    ensures
        endpoints_named(scan_definitions(g, path, c)),
        scan_definitions(g, path, c).consumer_to_target == g.consumer_to_target,
{
    let ee = regex_captures(ENUM_ENTRY@, c);
    let re = regex_captures(REGISTRY_ENTRY@, c);
    if is_ts_source(path) {
        let g1 = if in_events_dir(path) {
            lemma_define_events(g, path, c, ee);
            lemma_register_events(define_events(g, path, c, ee), c, re);
            register_events(define_events(g, path, c, ee), c, re)
        } else {
            g
        };
        if in_jobs_dir(path) {
            lemma_define_jobs(g1, path, c, ee);
            lemma_register_jobs(define_jobs(g1, path, c, ee), c, re);
        }
    }
}

proof fn lemma_scan_source(g: AsyncFlowView, path: Seq<char>, c: Seq<char>)
    requires
        flow_sound(g),
    ensures
        flow_sound(scan_source(g, path, c)),
{
    if is_ts_source(path) {
        let g1 = if has_match(CREATE_EVENT_ANY@, c) {
            lemma_emit_events(g, path, c, regex_captures(CREATE_EVENT@, c));
            lemma_sound_kept(g, emit_events(g, path, c, regex_captures(CREATE_EVENT@, c)));
            emit_events(g, path, c, regex_captures(CREATE_EVENT@, c))
        } else {
            g
        };
        let g2 = if has_match(CREATE_JOB_ANY@, c) {
            let e = emit_jobs(g1, path, c, regex_captures(JOB_TARGET@, c));
            lemma_emit_jobs(g1, path, c, regex_captures(JOB_TARGET@, c));
            lemma_sound_kept(g1, e);
            lemma_fallback_jobs(e, path, c, regex_captures(FALLBACK_TARGET@, c));
            lemma_sound_kept(e, fallback_jobs(e, path, c, regex_captures(FALLBACK_TARGET@, c)));
            fallback_jobs(e, path, c, regex_captures(FALLBACK_TARGET@, c))
        } else {
            g1
        };
        let g3 = consume_events(g2, path, c, regex_captures(POST_PROCESSOR@, c));
        lemma_consume_events(g2, path, c, regex_captures(POST_PROCESSOR@, c));
        lemma_handle_jobs(g3, path, c, regex_captures(JOB_HANDLER@, c));
    }
}

proof fn lemma_scan_all_definitions(g: AsyncFlowView, files: Seq<(Seq<char>, Seq<char>)>)
    requires
        endpoints_named(g),
    ensures
        endpoints_named(scan_all_definitions(g, files)),
        scan_all_definitions(g, files).consumer_to_target == g.consumer_to_target,
    decreases files.len(),
{
    if files.len() > 0 {
        lemma_scan_all_definitions(g, files.drop_last());
        lemma_scan_definitions(scan_all_definitions(g, files.drop_last()), files.last().0, files.last().1);
    }
}

proof fn lemma_scan_all_sources(g: AsyncFlowView, files: Seq<(Seq<char>, Seq<char>)>)
    requires
        flow_sound(g),
    ensures
        flow_sound(scan_all_sources(g, files)),
    decreases files.len(),
{
    if files.len() > 0 {
        lemma_scan_all_sources(g, files.drop_last());
        lemma_scan_source(scan_all_sources(g, files.drop_last()), files.last().0, files.last().1);
    }
}

/// In every graph that the asynchronous scan builds, each producer,
/// consumer and handler lies in a TypeScript source (not a declaration
/// file) and names the service of that file, and each target that
/// the reverse index lists for a class is an event with a consumer of that
/// class or a job with a handler of that class.
pub proof fn lemma_scanned_flow_sound(
    definitions: Seq<(Seq<char>, Seq<char>)>,
    sources: Seq<(Seq<char>, Seq<char>)>,
)
    ensures
        flow_sound(async_flow_of(definitions, sources)),
{
    let e = empty_flow();
    lemma_scan_all_definitions(e, definitions);
    let d = scan_all_definitions(e, definitions);
    assert(targets_served(d));
    lemma_scan_all_sources(d, sources);
    let g = scan_all_sources(d, sources);
    let h = async_flow_of(definitions, sources);
    assert forall|k: int| 0 <= k < h.events.len() implies event_named(#[trigger] h.events[k].1) by {
        assert(event_named(g.events[k].1));
        assert(h.events[k].1.producers == g.events[k].1.producers);
        assert(h.events[k].1.consumers == g.events[k].1.consumers);
    }
    assert forall|k: int| 0 <= k < g.events.len() implies (#[trigger] h.events[k]).0 == g.events[k].0 && extends(
        h.events[k].1.consumers,
        g.events[k].1.consumers,
    ) by {
        assert(h.events[k].1.consumers == g.events[k].1.consumers);
    }
    lemma_sound_kept(g, h);
}

} // verus!
