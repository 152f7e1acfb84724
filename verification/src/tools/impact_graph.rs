//! The impact graph of asynchronous flows as the `analyze_impact` tool
//! builds it: events and jobs are keyed by the type names found in the
//! code, streams are read from the emission's surroundings, and saga links
//! follow the `_CREATION_` / `_DELETION_` naming.
use vstd::prelude::*;

pub use crate::domain::async_flow::{AsyncFlowGraph, ConsumerEndpoint, EventNode, FlowEndpoint, JobNode};
pub use crate::infrastructure::scanners::async_scanner::extract_service_name;
pub use crate::workspace::resolve_workspace_root;

use crate::domain::async_flow::{
    bare_event, bare_job, opt_text, with_event_consumer, with_event_producer, with_job_handler,
    with_job_producer, AsyncFlowView, ConsumerView, EndpointView, EventView, JobView,
};
use crate::infrastructure::scanners::async_scanner::{
    define_events, define_jobs, empty_flow, files_view, is_ts_source, job_type_field, line_at,
    register_events, register_jobs, service_of, windows_ok, CREATE_EVENT, CREATE_EVENT_ANY,
    CREATE_JOB_ANY, ENUM_ENTRY, FALLBACK_TARGET, JOB_HANDLER, JOB_TARGET, JOB_TYPE_FIELD,
    POST_PROCESSOR, REGISTRY_ENTRY,
};
use crate::pattern::{
    caps_view, captures_of, cap_text, cap_text_exec, captures_all, first_capture, first_capture_exec, group, group_at,
    has_match, has_match_exec, lines_before, lines_before_exec, regex_captures, span_chars,
    span_text, take_upto, take_upto_exec, window_after, window_after_exec, Span,
};
use crate::engine::impact_engine::{
    direct_found, event_flows, event_head, event_hit, handler_lines, job_hit, key_hit, producers_text,
    push_event_flows, push_event_head, push_handlers, push_producers, raw_hit, rule,
};
use crate::std_text::{alnum, is_alphanumeric, lower, string_from_chars, to_lowercase, to_uppercase, upper};
use crate::strmap::{al_find, al_get_or, al_set, lemma_al_from_bounds, views, StrSet};
use crate::text::{
    chars_of, contains, contains_str, ends_with, ends_with_str, find_from, last_piece,
    last_piece_seq, lemma_first_occ, lemma_no_occ, first_occ_from, owned, remove_all,
    remove_all_seq, seq_eq, slice, trim, trim_seq, concat_map, contains_seq, dec, lemma_is_sorted_unique,
    opt_line, push_opt_line, push_seq, push_str, sorted_unique, usize_dec, lemma_last_piece, tail_after_last,
};

verus! {

/// A file of the messaging package under `/events/`.
pub open spec fn impact_events_dir(path: Seq<char>) -> bool {
    contains(path, "/events/"@)
}

/// A file of the messaging package under `/jobs/`.
pub open spec fn impact_jobs_dir(path: Seq<char>) -> bool {
    contains(path, "/jobs/"@)
}

/// What one file of the messaging package adds to the impact graph.
pub open spec fn impact_definitions(g: AsyncFlowView, path: Seq<char>, c: Seq<char>) -> AsyncFlowView {
    if !is_ts_source(path) {
        g
    } else {
        let g1 = if impact_events_dir(path) {
            register_events(
                define_events(g, path, c, regex_captures(ENUM_ENTRY@, c)),
                c,
                regex_captures(REGISTRY_ENTRY@, c),
            )
        } else {
            g
        };
        if impact_jobs_dir(path) {
            register_jobs(
                define_jobs(g1, path, c, regex_captures(ENUM_ENTRY@, c)),
                c,
                regex_captures(REGISTRY_ENTRY@, c),
            )
        } else {
            g1
        }
    }
}

/// A character that may continue a stream name.
pub open spec fn stream_char(ch: char) -> bool {
    alnum(ch) || ch == '_' || ch == '.'
}

/// Index of the first character of `s` at or after `i` that cannot continue
/// a stream name (`s.len()` when there is none).
pub open spec fn stream_end_from(s: Seq<char>, i: int) -> int
    decreases s.len() - i,
{
    if i < 0 || i >= s.len() {
        s.len() as int
    } else if !stream_char(s[i]) {
        i
    } else {
        stream_end_from(s, i + 1)
    }
}

/// The stream named in `w`: from the first `Streams.` up to the first
/// character that cannot continue the name; none when there is no
/// `Streams.` or the name runs to the end of `w`.
pub open spec fn stream_in(w: Seq<char>) -> Option<Seq<char>> {
    let i = first_occ_from(w, "Streams."@, 0);
    if i < 0 {
        None
    } else {
        let sub = w.subrange(i, w.len() as int);
        let e = stream_end_from(sub, 0);
        if e < sub.len() {
            Some(sub.subrange(0, e))
        } else {
            None
        }
    }
}

/// The event emissions of a file: producers of the event named by the
/// payload type (after its last `.`), which also takes the stream named
/// within the 800 bytes that follow.
pub open spec fn impact_emit_events(g: AsyncFlowView, path: Seq<char>, c: Seq<char>, caps: Seq<Seq<Span>>) -> AsyncFlowView
    decreases caps.len(),
{
    if caps.len() == 0 {
        g
    } else {
        let g0 = impact_emit_events(g, path, c, caps.drop_last());
        match (group(caps.last(), 0), cap_text(c, caps.last(), 1)) {
            (Some(m), Some(t)) => {
                let short = last_piece(trim(t), '.');
                let win = window_after(c, m.1, 800);
                let ep = EndpointView {
                    service: service_of(path),
                    file_path: path,
                    line_number: line_at(c, m.0),
                    pattern: "EventQueueEntity.createEvent"@,
                    snippet: take_upto(win, 180),
                };
                AsyncFlowView {
                    events: al_set(
                        g0.events,
                        short,
                        with_event_producer(al_get_or(g0.events, short, bare_event(short)), stream_in(win), ep),
                    ),
                    ..g0
                }
            },
            _ => g0,
        }
    }
}

/// The job type of a `createJob<...>` match: `typeof` removed, trimmed, after the last `.`.
pub open spec fn job_type_name(t: Seq<char>) -> Seq<char> {
    last_piece(trim(remove_all(trim(t), "typeof"@)), '.')
}

/// The job creations of a file: producers of the job their type names.
pub open spec fn impact_emit_jobs(g: AsyncFlowView, path: Seq<char>, c: Seq<char>, caps: Seq<Seq<Span>>) -> AsyncFlowView
    decreases caps.len(),
{
    if caps.len() == 0 {
        g
    } else {
        let g0 = impact_emit_jobs(g, path, c, caps.drop_last());
        match (group(caps.last(), 0), cap_text(c, caps.last(), 1)) {
            (Some(m), Some(t)) => {
                let short = job_type_name(t);
                let ep = EndpointView {
                    service: service_of(path),
                    file_path: path,
                    line_number: lines_before(c, m.0) as usize,
                    pattern: "JobsOutboxEntity.createJob"@,
                    snippet: take_upto(span_text(c, m), 150),
                };
                AsyncFlowView {
                    jobs: al_set(g0.jobs, short, with_job_producer(al_get_or(g0.jobs, short, bare_job(short)), ep)),
                    ..g0
                }
            },
            _ => g0,
        }
    }
}

/// The `withFallback(...)` calls of a file: producers of the job they name.
pub open spec fn impact_fallback_jobs(g: AsyncFlowView, path: Seq<char>, c: Seq<char>, caps: Seq<Seq<Span>>) -> AsyncFlowView
    decreases caps.len(),
{
    if caps.len() == 0 {
        g
    } else {
        let g0 = impact_fallback_jobs(g, path, c, caps.drop_last());
        match (group(caps.last(), 0), cap_text(c, caps.last(), 1)) {
            (Some(m), Some(t)) => {
                let short = last_piece(trim(t), '.');
                let ep = EndpointView {
                    service: service_of(path),
                    file_path: path,
                    line_number: lines_before(c, m.0) as usize,
                    pattern: "BaseCommandController.withFallback"@,
                    snippet: take_upto(span_text(c, m), 150),
                };
                AsyncFlowView {
                    jobs: al_set(g0.jobs, short, with_job_producer(al_get_or(g0.jobs, short, bare_job(short)), ep)),
                    ..g0
                }
            },
            _ => g0,
        }
    }
}

/// The job `n` has a producer in file `path`, of the service that the path
/// names, found by the call pattern `pattern`.
pub open spec fn has_producer(n: JobView, path: Seq<char>, pattern: Seq<char>) -> bool {
    exists|p: int|
        0 <= p < n.producers.len() && (#[trigger] n.producers[p]).file_path == path && n.producers[p].pattern
            == pattern && n.producers[p].service == service_of(path)
}

/// Some job of `jobs` is keyed by the text of `arg` after its last `.`, and
/// has a producer in file `path` found by `pattern`.
pub open spec fn filed_under_short_key(
    jobs: Seq<(Seq<char>, JobView)>,
    arg: Seq<char>,
    path: Seq<char>,
    pattern: Seq<char>,
) -> bool {
    exists|j: int|
        0 <= j < jobs.len() && tail_after_last(arg, '.', (#[trigger] jobs[j]).0) && has_producer(
            jobs[j].1,
            path,
            pattern,
        )
}

/// A producer filed under a key stays there when one more producer is
/// recorded for some key.
proof fn lemma_filed_kept(
    jobs: Seq<(Seq<char>, JobView)>,
    arg: Seq<char>,
    path: Seq<char>,
    pattern: Seq<char>,
    key: Seq<char>,
    ep: EndpointView,
)
    requires
        filed_under_short_key(jobs, arg, path, pattern),
    ensures
        filed_under_short_key(
            al_set(jobs, key, with_job_producer(al_get_or(jobs, key, bare_job(key)), ep)),
            arg,
            path,
            pattern,
        ),
{
    let j = choose|j: int|
        0 <= j < jobs.len() && tail_after_last(arg, '.', (#[trigger] jobs[j]).0) && has_producer(
            jobs[j].1,
            path,
            pattern,
        );
    let p = choose|p: int|
        0 <= p < jobs[j].1.producers.len() && (#[trigger] jobs[j].1.producers[p]).file_path == path
            && jobs[j].1.producers[p].pattern == pattern && jobs[j].1.producers[p].service == service_of(path);
    lemma_al_from_bounds(jobs, key, 0);
    let t = al_set(jobs, key, with_job_producer(al_get_or(jobs, key, bare_job(key)), ep));
    let idx = al_find(jobs, key);
    if idx == j {
        assert(t[j].0 == jobs[j].0);
        assert(t[j].1.producers[p] == jobs[j].1.producers[p]);
        assert(has_producer(t[j].1, path, pattern));
    } else {
        assert(t[j] == jobs[j]);
    }
    assert(tail_after_last(arg, '.', t[j].0));
}

/// Recording a producer for a key files it under that key.
proof fn lemma_filed_new(jobs: Seq<(Seq<char>, JobView)>, arg: Seq<char>, ep: EndpointView)
    requires
        ep.service == service_of(ep.file_path),
    ensures
        filed_under_short_key(
            al_set(
                jobs,
                last_piece(arg, '.'),
                with_job_producer(al_get_or(jobs, last_piece(arg, '.'), bare_job(last_piece(arg, '.'))), ep),
            ),
            arg,
            ep.file_path,
            ep.pattern,
        ),
{
    let key = last_piece(arg, '.');
    lemma_last_piece(arg, '.');
    lemma_al_from_bounds(jobs, key, 0);
    let v = with_job_producer(al_get_or(jobs, key, bare_job(key)), ep);
    let t = al_set(jobs, key, v);
    let idx = al_find(jobs, key);
    let j = if idx < jobs.len() { idx } else { jobs.len() as int };
    assert(t[j] == (key, v));
    assert(v.producers[v.producers.len() - 1] == ep);
    assert(has_producer(t[j].1, ep.file_path, ep.pattern));
}

/// Each `withFallback(...)` call of a file files a producer of that file,
/// with the pattern `BaseCommandController.withFallback`, under the job that
/// the text after the last `.` of its (trimmed) argument names: a job key
/// that holds no `.`, the enum's prefix left out.
pub proof fn lemma_fallback_filed_under_short_key(
    g: AsyncFlowView,
    path: Seq<char>,
    c: Seq<char>,
    caps: Seq<Seq<Span>>,
    k: int,
)
    requires
        0 <= k < caps.len(),
        group(caps[k], 0) is Some,
        cap_text(c, caps[k], 1) is Some,
    ensures
        filed_under_short_key(
            impact_fallback_jobs(g, path, c, caps).jobs,
            trim(cap_text(c, caps[k], 1)->0),
            path,
            "BaseCommandController.withFallback"@,
        ),
    decreases caps.len(),
{
    let g0 = impact_fallback_jobs(g, path, c, caps.drop_last());
    let arg = trim(cap_text(c, caps[k], 1)->0);
    let pat = "BaseCommandController.withFallback"@;
    if k < caps.len() - 1 {
        assert(caps.drop_last()[k] == caps[k]);
        lemma_fallback_filed_under_short_key(g, path, c, caps.drop_last(), k);
        match (group(caps.last(), 0), cap_text(c, caps.last(), 1)) {
            (Some(m), Some(t)) => {
                let short = last_piece(trim(t), '.');
                let ep = EndpointView {
                    service: service_of(path),
                    file_path: path,
                    line_number: lines_before(c, m.0) as usize,
                    pattern: pat,
                    snippet: take_upto(span_text(c, m), 150),
                };
                lemma_filed_kept(g0.jobs, arg, path, pat, short, ep);
            },
            _ => {},
        }
    } else {
        let m = group(caps.last(), 0)->0;
        let ep = EndpointView {
            service: service_of(path),
            file_path: path,
            line_number: lines_before(c, m.0) as usize,
            pattern: pat,
            snippet: take_upto(span_text(c, m), 150),
        };
        lemma_filed_new(g0.jobs, arg, ep);
    }
}

/// Some entry of `s` is keyed `key`.
pub open spec fn keyed<W>(s: Seq<(Seq<char>, W)>, key: Seq<char>) -> bool {
    exists|x: int| 0 <= x < s.len() && (#[trigger] s[x]).0 == key
}

/// `key` is the text after the last `.` of the (trimmed) argument of one of
/// the `withFallback` matches `caps` in `c`.
pub open spec fn fallback_key(c: Seq<char>, caps: Seq<Seq<Span>>, key: Seq<char>) -> bool {
    exists|k: int|
        0 <= k < caps.len() && group(caps[k], 0) is Some && cap_text(c, #[trigger] caps[k], 1) is Some
            && tail_after_last(trim(cap_text(c, caps[k], 1)->0), '.', key)
}

/// The `withFallback` calls create no other job than those their arguments
/// name after the last `.`: every job afterwards was there before or is
/// keyed by such a name.
pub proof fn lemma_fallback_adds_only_short_keys(g: AsyncFlowView, path: Seq<char>, c: Seq<char>, caps: Seq<Seq<Span>>)
    ensures
        forall|j: int|
            0 <= j < impact_fallback_jobs(g, path, c, caps).jobs.len() ==> keyed(
                g.jobs,
                (#[trigger] impact_fallback_jobs(g, path, c, caps).jobs[j]).0,
            ) || fallback_key(c, caps, impact_fallback_jobs(g, path, c, caps).jobs[j].0),
    decreases caps.len(),
{
    if caps.len() > 0 {
        let cs = caps.drop_last();
        lemma_fallback_adds_only_short_keys(g, path, c, cs);
        let g0 = impact_fallback_jobs(g, path, c, cs);
        let h = impact_fallback_jobs(g, path, c, caps);
        assert forall|key: Seq<char>| fallback_key(c, cs, key) implies fallback_key(c, caps, key) by {
            let k = choose|k: int|
                0 <= k < cs.len() && group(cs[k], 0) is Some && cap_text(c, #[trigger] cs[k], 1) is Some
                    && tail_after_last(trim(cap_text(c, cs[k], 1)->0), '.', key);
            assert(caps[k] == cs[k]);
        }
        match (group(caps.last(), 0), cap_text(c, caps.last(), 1)) {
            (Some(m), Some(t)) => {
                let short = last_piece(trim(t), '.');
                lemma_last_piece(trim(t), '.');
                lemma_al_from_bounds(g0.jobs, short, 0);
                let idx = al_find(g0.jobs, short);
                assert forall|j: int| 0 <= j < h.jobs.len() implies keyed(g.jobs, (#[trigger] h.jobs[j]).0)
                    || fallback_key(c, caps, h.jobs[j].0) by {
                    if j < g0.jobs.len() {
                        assert(h.jobs[j].0 == g0.jobs[j].0);
                        assert(keyed(g.jobs, g0.jobs[j].0) || fallback_key(c, cs, g0.jobs[j].0));
                    } else {
                        assert(h.jobs[j].0 == short);
                        assert(caps[caps.len() - 1] == caps.last());
                        assert(fallback_key(c, caps, short));
                    }
                }
            },
            _ => {
                assert forall|j: int| 0 <= j < h.jobs.len() implies keyed(g.jobs, (#[trigger] h.jobs[j]).0)
                    || fallback_key(c, caps, h.jobs[j].0) by {
                    assert(keyed(g.jobs, g0.jobs[j].0) || fallback_key(c, cs, g0.jobs[j].0));
                }
            },
        }
    }
}

/// Each `createJob<T>(...)` call of a file files a producer of that file,
/// with the pattern `JobsOutboxEntity.createJob`, under the job that `T`
/// names (trimmed, `typeof` left out) after its last `.`.
pub proof fn lemma_created_job_filed_under_short_key(
    g: AsyncFlowView,
    path: Seq<char>,
    c: Seq<char>,
    caps: Seq<Seq<Span>>,
    k: int,
)
    requires
        0 <= k < caps.len(),
        group(caps[k], 0) is Some,
        cap_text(c, caps[k], 1) is Some,
    ensures
        filed_under_short_key(
            impact_emit_jobs(g, path, c, caps).jobs,
            trim(remove_all(trim(cap_text(c, caps[k], 1)->0), "typeof"@)),
            path,
            "JobsOutboxEntity.createJob"@,
        ),
    decreases caps.len(),
{
    let g0 = impact_emit_jobs(g, path, c, caps.drop_last());
    let arg = trim(remove_all(trim(cap_text(c, caps[k], 1)->0), "typeof"@));
    let pat = "JobsOutboxEntity.createJob"@;
    if k < caps.len() - 1 {
        assert(caps.drop_last()[k] == caps[k]);
        lemma_created_job_filed_under_short_key(g, path, c, caps.drop_last(), k);
        match (group(caps.last(), 0), cap_text(c, caps.last(), 1)) {
            (Some(m), Some(t)) => {
                let ep = EndpointView {
                    service: service_of(path),
                    file_path: path,
                    line_number: lines_before(c, m.0) as usize,
                    pattern: pat,
                    snippet: take_upto(span_text(c, m), 150),
                };
                lemma_filed_kept(g0.jobs, arg, path, pat, job_type_name(t), ep);
            },
            _ => {},
        }
    } else {
        let m = group(caps.last(), 0)->0;
        let ep = EndpointView {
            service: service_of(path),
            file_path: path,
            line_number: lines_before(c, m.0) as usize,
            pattern: pat,
            snippet: take_upto(span_text(c, m), 150),
        };
        lemma_filed_new(g0.jobs, arg, ep);
    }
}

/// Some entry of `s` is keyed by the text of `arg` after its last `.`, and
/// its value satisfies `holds`.
pub open spec fn filed_with<W>(s: Seq<(Seq<char>, W)>, arg: Seq<char>, holds: spec_fn(W) -> bool) -> bool {
    exists|j: int| 0 <= j < s.len() && tail_after_last(arg, '.', (#[trigger] s[j]).0) && holds(s[j].1)
}

proof fn lemma_filed_with_kept<W>(s: Seq<(Seq<char>, W)>, arg: Seq<char>, holds: spec_fn(W) -> bool, key: Seq<char>, v: W)
    requires
        filed_with(s, arg, holds),
        al_find(s, key) < s.len() && holds(s[al_find(s, key)].1) ==> holds(v),
    ensures
        filed_with(al_set(s, key, v), arg, holds),
{
    let j = choose|j: int| 0 <= j < s.len() && tail_after_last(arg, '.', (#[trigger] s[j]).0) && holds(s[j].1);
    lemma_al_from_bounds(s, key, 0);
    let t = al_set(s, key, v);
    if al_find(s, key) == j {
        assert(t[j] == (key, v));
    } else {
        assert(t[j] == s[j]);
    }
}

proof fn lemma_filed_with_new<W>(s: Seq<(Seq<char>, W)>, arg: Seq<char>, holds: spec_fn(W) -> bool, v: W)
    requires
        holds(v),
    ensures
        filed_with(al_set(s, last_piece(arg, '.'), v), arg, holds),
{
    let key = last_piece(arg, '.');
    lemma_last_piece(arg, '.');
    lemma_al_from_bounds(s, key, 0);
    let idx = al_find(s, key);
    let j = if idx < s.len() { idx } else { s.len() as int };
    assert(al_set(s, key, v)[j] == (key, v));
}

/// The event `n` has a producer in file `path`, of the service that the
/// path names, found by `pattern`.
pub open spec fn has_event_producer(n: EventView, path: Seq<char>, pattern: Seq<char>) -> bool {
    exists|p: int|
        0 <= p < n.producers.len() && (#[trigger] n.producers[p]).file_path == path && n.producers[p].pattern
            == pattern && n.producers[p].service == service_of(path)
}

/// The event `n` has a consumer of class `class` in file `path`, of the
/// service that the path names.
pub open spec fn has_event_consumer(n: EventView, path: Seq<char>, class: Seq<char>) -> bool {
    exists|p: int|
        0 <= p < n.consumers.len() && (#[trigger] n.consumers[p]).file_path == path && n.consumers[p].handler_class
            == class && n.consumers[p].service == service_of(path)
}

/// Each `createEvent<T>(...)` call of a file files a producer of that file,
/// with the pattern `EventQueueEntity.createEvent`, under the event that
/// `T` (trimmed) names after its last `.`: an event key that holds no `.`.
pub proof fn lemma_emitted_event_filed_under_short_key(
    g: AsyncFlowView,
    path: Seq<char>,
    c: Seq<char>,
    caps: Seq<Seq<Span>>,
    k: int,
)
    requires
        0 <= k < caps.len(),
        group(caps[k], 0) is Some,
        cap_text(c, caps[k], 1) is Some,
    ensures
        filed_with(
            impact_emit_events(g, path, c, caps).events,
            trim(cap_text(c, caps[k], 1)->0),
            |n: EventView| has_event_producer(n, path, "EventQueueEntity.createEvent"@),
        ),
    decreases caps.len(),
{
    let holds = |n: EventView| has_event_producer(n, path, "EventQueueEntity.createEvent"@);
    let g0 = impact_emit_events(g, path, c, caps.drop_last());
    let arg = trim(cap_text(c, caps[k], 1)->0);
    let (m, t) = (group(caps.last(), 0), cap_text(c, caps.last(), 1));
    if k < caps.len() - 1 {
        assert(caps.drop_last()[k] == caps[k]);
        lemma_emitted_event_filed_under_short_key(g, path, c, caps.drop_last(), k);
    }
    if m is Some && t is Some {
        let m = m->0;
        let t = t->0;
        let short = last_piece(trim(t), '.');
        let win = window_after(c, m.1, 800);
        let ep = EndpointView {
            service: service_of(path),
            file_path: path,
            line_number: line_at(c, m.0),
            pattern: "EventQueueEntity.createEvent"@,
            snippet: take_upto(win, 180),
        };
        let v = with_event_producer(al_get_or(g0.events, short, bare_event(short)), stream_in(win), ep);
        assert(v.producers[v.producers.len() - 1] == ep);
        assert(holds(v));
        if k < caps.len() - 1 {
            lemma_al_from_bounds(g0.events, short, 0);
            if al_find(g0.events, short) < g0.events.len() && holds(g0.events[al_find(g0.events, short)].1) {
                let n0 = g0.events[al_find(g0.events, short)].1;
                let p = choose|p: int|
                    0 <= p < n0.producers.len() && (#[trigger] n0.producers[p]).file_path == path
                        && n0.producers[p].pattern == "EventQueueEntity.createEvent"@ && n0.producers[p].service
                        == service_of(path);
                assert(v.producers[p] == n0.producers[p]);
            }
            lemma_filed_with_kept(g0.events, arg, holds, short, v);
        } else {
            lemma_filed_with_new(g0.events, arg, holds, v);
        }
    }
}

/// Each post-processor class of a file is filed as a consumer of that file,
/// with its class, under the event that its payload type (trimmed) names
/// after its last `.`.
pub proof fn lemma_consumer_filed_under_short_key(
    g: AsyncFlowView,
    path: Seq<char>,
    c: Seq<char>,
    caps: Seq<Seq<Span>>,
    k: int,
)
    requires
        0 <= k < caps.len(),
        group(caps[k], 0) is Some,
        cap_text(c, caps[k], 1) is Some,
        cap_text(c, caps[k], 2) is Some,
        cap_text(c, caps[k], 3) is Some,
    ensures
        filed_with(
            impact_consume_events(g, path, c, caps).events,
            trim(cap_text(c, caps[k], 3)->0),
            |n: EventView| has_event_consumer(n, path, cap_text(c, caps[k], 1)->0),
        ),
    decreases caps.len(),
{
    let class0 = cap_text(c, caps[k], 1)->0;
    let holds = |n: EventView| has_event_consumer(n, path, class0);
    let g0 = impact_consume_events(g, path, c, caps.drop_last());
    let arg = trim(cap_text(c, caps[k], 3)->0);
    let cap = caps.last();
    if k < caps.len() - 1 {
        assert(caps.drop_last()[k] == caps[k]);
        lemma_consumer_filed_under_short_key(g, path, c, caps.drop_last(), k);
    }
    match (group(cap, 0), cap_text(c, cap, 1), cap_text(c, cap, 2), cap_text(c, cap, 3)) {
        (Some(m), Some(class), Some(kind), Some(pay)) => {
            let short = last_piece(trim(pay), '.');
            let consumer = ConsumerView {
                service: service_of(path),
                handler_class: class,
                file_path: path,
                line_number: lines_before(c, m.0) as usize,
                processing_type: kind,
            };
            let v = with_event_consumer(al_get_or(g0.events, short, bare_event(short)), consumer);
            assert(v.consumers[v.consumers.len() - 1] == consumer);
            if k < caps.len() - 1 {
                lemma_al_from_bounds(g0.events, short, 0);
                if al_find(g0.events, short) < g0.events.len() && holds(g0.events[al_find(g0.events, short)].1) {
                    let n0 = g0.events[al_find(g0.events, short)].1;
                    let p = choose|p: int|
                        0 <= p < n0.consumers.len() && (#[trigger] n0.consumers[p]).file_path == path
                            && n0.consumers[p].handler_class == class0 && n0.consumers[p].service == service_of(path);
                    assert(v.consumers[p] == n0.consumers[p]);
                }
                lemma_filed_with_kept(g0.events, arg, holds, short, v);
            } else {
                assert(holds(v));
                lemma_filed_with_new(g0.events, arg, holds, v);
            }
        },
        _ => {},
    }
}

/// The post-processors of a file: consumers of the event their payload type
/// names, recorded in the reverse index too.
pub open spec fn impact_consume_events(g: AsyncFlowView, path: Seq<char>, c: Seq<char>, caps: Seq<Seq<Span>>) -> AsyncFlowView
    decreases caps.len(),
{
    if caps.len() == 0 {
        g
    } else {
        let g0 = impact_consume_events(g, path, c, caps.drop_last());
        let cap = caps.last();
        match (group(cap, 0), cap_text(c, cap, 1), cap_text(c, cap, 2), cap_text(c, cap, 3)) {
            (Some(m), Some(class), Some(kind), Some(pay)) => {
                let short = last_piece(trim(pay), '.');
                let consumer = ConsumerView {
                    service: service_of(path),
                    handler_class: class,
                    file_path: path,
                    line_number: lines_before(c, m.0) as usize,
                    processing_type: kind,
                };
                AsyncFlowView {
                    events: al_set(
                        g0.events,
                        short,
                        with_event_consumer(al_get_or(g0.events, short, bare_event(short)), consumer),
                    ),
                    jobs: g0.jobs,
                    consumer_to_target: al_set(
                        g0.consumer_to_target,
                        class,
                        al_get_or(g0.consumer_to_target, class, seq![]).push(short),
                    ),
                }
            },
            _ => g0,
        }
    }
}

/// The first job handler class of a file: handler of the job its `jobType`
/// field names, else of the job its payload type names; recorded in the
/// reverse index too.
pub open spec fn impact_handle_job(g: AsyncFlowView, path: Seq<char>, c: Seq<char>) -> AsyncFlowView {
    match first_capture(JOB_HANDLER@, c) {
        Some(cap) => match (group(cap, 0), cap_text(c, cap, 1), cap_text(c, cap, 2)) {
            (Some(m), Some(class), Some(pay)) => {
                let target = match job_type_field(c) {
                    Some(f) => f,
                    None => job_type_name(pay),
                };
                let handler = ConsumerView {
                    service: service_of(path),
                    handler_class: class,
                    file_path: path,
                    line_number: lines_before(c, m.0) as usize,
                    processing_type: "IJobHandler"@,
                };
                AsyncFlowView {
                    events: g.events,
                    jobs: al_set(g.jobs, target, with_job_handler(al_get_or(g.jobs, target, bare_job(target)), handler)),
                    consumer_to_target: al_set(
                        g.consumer_to_target,
                        class,
                        al_get_or(g.consumer_to_target, class, seq![]).push(target),
                    ),
                }
            },
            _ => g,
        },
        None => g,
    }
}

/// What one source file adds to the impact graph.
pub open spec fn impact_source(g: AsyncFlowView, path: Seq<char>, c: Seq<char>) -> AsyncFlowView {
    if !is_ts_source(path) {
        g
    } else {
        let g1 = if has_match(CREATE_EVENT_ANY@, c) {
            impact_emit_events(g, path, c, regex_captures(CREATE_EVENT@, c))
        } else {
            g
        };
        let g2 = if has_match(CREATE_JOB_ANY@, c) {
            impact_fallback_jobs(
                impact_emit_jobs(g1, path, c, regex_captures(JOB_TARGET@, c)),
                path,
                c,
                regex_captures(FALLBACK_TARGET@, c),
            )
        } else {
            g1
        };
        impact_handle_job(impact_consume_events(g2, path, c, regex_captures(POST_PROCESSOR@, c)), path, c)
    }
}

/// A source file can be indexed: every emission's 800-byte window ends on a
/// character boundary (and its length leaves room for a line number).
pub open spec fn impact_source_ok(path: Seq<char>, c: Seq<char>) -> bool {
    is_ts_source(path) ==> {
        &&& c.len() < usize::MAX
        &&& has_match(CREATE_EVENT_ANY@, c) ==> windows_ok(c, regex_captures(CREATE_EVENT@, c))
    }
}

fn stream_in_exec(w: &Vec<char>) -> (r: Option<String>)
    ensures
        opt_text(r) == stream_in(w@),
{
    let pat = chars_of("Streams.");
    match find_from(w, &pat, 0) {
        Some(i) => {
            proof {
                lemma_first_occ(w@, pat@, 0, i as int);
            }
            let sub = slice(w, i, w.len());
            let mut e: usize = 0;
            while e < sub.len()
                invariant
                    0 <= e <= sub@.len(),
                    stream_end_from(sub@, e as int) == stream_end_from(sub@, 0),
                    sub@ == w@.subrange(i as int, w@.len() as int),
                    first_occ_from(w@, "Streams."@, 0) == i,
                decreases sub@.len() - e,
            {
                let ch = sub[e];
                if !(is_alphanumeric(ch) || ch == '_' || ch == '.') {
                    let name = slice(&sub, 0, e);
                    return Some(string_from_chars(&name));
                }
                e = e + 1;
            }
            None
        },
        None => {
            proof {
                lemma_no_occ(w@, pat@, 0);
            }
            None
        },
    }
}


/// Records the event emissions of a file, given as the capture spans of their
/// matches in `content` (whose characters are `text`): each as a producer of the event its type names, with its stream.
pub fn impact_emit_events_in(graph: &mut AsyncFlowGraph, path: &str, text: &Vec<char>, content: &str, caps: &Vec<Vec<Span>>)
    requires
        text@ == content@,
        content@.len() < usize::MAX,
    ensures
        final(graph)@ == impact_emit_events(old(graph)@, path@, content@, caps_view(caps@)),
{
    let ghost cs = caps_view(caps@);
    let ghost g0 = graph@;
    let mut i: usize = 0;
    assert(cs.take(0) =~= Seq::<Seq<Span>>::empty());
    while i < caps.len()
        invariant
            caps@.len() == cs.len(),
            forall|k: int| 0 <= k < caps@.len() ==> #[trigger] caps@[k]@ == cs[k],
            text@ == content@,
            content@.len() < usize::MAX,
            0 <= i <= caps@.len(),
            graph@ == impact_emit_events(g0, path@, content@, cs.take(i as int)),
        decreases caps@.len() - i,
    {
        let cap = &caps[i];
        assert(cs.take(i + 1).drop_last() =~= cs.take(i as int));
        assert(cs.take(i + 1).last() == cap@);
        let m = group_at(cap, 0);
        let t = cap_text_exec(text, cap, 1);
        match (m, t) {
            (Some(m), Some(tc)) => {
                let tt = trim_seq(&tc);
                let short = last_piece_seq(&tt, '.');
                let line = lines_before_exec(text, m.0) + 1;
                let win = window_after_exec(text, m.1, 800);
                let snip = take_upto_exec(&win, 180);
                let stream = stream_in_exec(&win);
                let ep = FlowEndpoint {
                    service: extract_service_name(path),
                    file_path: owned(path),
                    line_number: line,
                    pattern: owned("EventQueueEntity.createEvent"),
                    snippet: string_from_chars(&snip),
                };
                graph.add_event_producer(string_from_chars(&short), string_from_chars(&short), stream, ep);
            },
            _ => {},
        }
        i = i + 1;
    }
    assert(cs.take(i as int) =~= cs);
}

/// Records the job creations of a file, given as the capture spans of their
/// matches in `content` (whose characters are `text`): each as a producer of the job its type names.
pub fn impact_emit_jobs_in(graph: &mut AsyncFlowGraph, path: &str, text: &Vec<char>, content: &str, caps: &Vec<Vec<Span>>)
    requires
        text@ == content@,
        content@.len() < usize::MAX,
    ensures
        final(graph)@ == impact_emit_jobs(old(graph)@, path@, content@, caps_view(caps@)),
{
    let ghost cs = caps_view(caps@);
    let ghost g0 = graph@;
    let mut i: usize = 0;
    assert(cs.take(0) =~= Seq::<Seq<Span>>::empty());
    while i < caps.len()
        invariant
            caps@.len() == cs.len(),
            forall|k: int| 0 <= k < caps@.len() ==> #[trigger] caps@[k]@ == cs[k],
            text@ == content@,
            content@.len() < usize::MAX,
            0 <= i <= caps@.len(),
            graph@ == impact_emit_jobs(g0, path@, content@, cs.take(i as int)),
        decreases caps@.len() - i,
    {
        let cap = &caps[i];
        assert(cs.take(i + 1).drop_last() =~= cs.take(i as int));
        assert(cs.take(i + 1).last() == cap@);
        let m = group_at(cap, 0);
        let t = cap_text_exec(text, cap, 1);
        match (m, t) {
            (Some(m), Some(tc)) => {
                let short = job_type_name_exec(&tc);
                let line = lines_before_exec(text, m.0);
                let whole = span_chars(text, m);
                let snip = take_upto_exec(&whole, 150);
                let ep = FlowEndpoint {
                    service: extract_service_name(path),
                    file_path: owned(path),
                    line_number: line,
                    pattern: owned("JobsOutboxEntity.createJob"),
                    snippet: string_from_chars(&snip),
                };
                graph.add_job_producer(string_from_chars(&short), string_from_chars(&short), ep);
            },
            _ => {},
        }
        i = i + 1;
    }
    assert(cs.take(i as int) =~= cs);
}

/// Records the `withFallback` calls of a file, given as the capture spans of their
/// matches in `content` (whose characters are `text`): each as a producer of the job it names.
pub fn impact_fallback_jobs_in(graph: &mut AsyncFlowGraph, path: &str, text: &Vec<char>, content: &str, caps: &Vec<Vec<Span>>)
    requires
        text@ == content@,
        content@.len() < usize::MAX,
    ensures
        final(graph)@ == impact_fallback_jobs(old(graph)@, path@, content@, caps_view(caps@)),
{
    let ghost cs = caps_view(caps@);
    let ghost g0 = graph@;
    let mut i: usize = 0;
    assert(cs.take(0) =~= Seq::<Seq<Span>>::empty());
    while i < caps.len()
        invariant
            caps@.len() == cs.len(),
            forall|k: int| 0 <= k < caps@.len() ==> #[trigger] caps@[k]@ == cs[k],
            text@ == content@,
            content@.len() < usize::MAX,
            0 <= i <= caps@.len(),
            graph@ == impact_fallback_jobs(g0, path@, content@, cs.take(i as int)),
        decreases caps@.len() - i,
    {
        let cap = &caps[i];
        assert(cs.take(i + 1).drop_last() =~= cs.take(i as int));
        assert(cs.take(i + 1).last() == cap@);
        let m = group_at(cap, 0);
        let t = cap_text_exec(text, cap, 1);
        match (m, t) {
            (Some(m), Some(tc)) => {
                let tt = trim_seq(&tc);
                let short = last_piece_seq(&tt, '.');
                let line = lines_before_exec(text, m.0);
                let whole = span_chars(text, m);
                let snip = take_upto_exec(&whole, 150);
                let ep = FlowEndpoint {
                    service: extract_service_name(path),
                    file_path: owned(path),
                    line_number: line,
                    pattern: owned("BaseCommandController.withFallback"),
                    snippet: string_from_chars(&snip),
                };
                graph.add_job_producer(string_from_chars(&short), string_from_chars(&short), ep);
            },
            _ => {},
        }
        i = i + 1;
    }
    assert(cs.take(i as int) =~= cs);
}

/// Records the post-processor classes of a file, given as the capture spans of their
/// matches in `content` (whose characters are `text`): each as a consumer of the event its type names and in the reverse index.
pub fn impact_consume_events_in(graph: &mut AsyncFlowGraph, path: &str, text: &Vec<char>, content: &str, caps: &Vec<Vec<Span>>)
    requires
        text@ == content@,
        content@.len() < usize::MAX,
    ensures
        final(graph)@ == impact_consume_events(old(graph)@, path@, content@, caps_view(caps@)),
{
    let ghost cs = caps_view(caps@);
    let ghost g0 = graph@;
    let mut i: usize = 0;
    assert(cs.take(0) =~= Seq::<Seq<Span>>::empty());
    while i < caps.len()
        invariant
            caps@.len() == cs.len(),
            forall|k: int| 0 <= k < caps@.len() ==> #[trigger] caps@[k]@ == cs[k],
            text@ == content@,
            content@.len() < usize::MAX,
            0 <= i <= caps@.len(),
            graph@ == impact_consume_events(g0, path@, content@, cs.take(i as int)),
        decreases caps@.len() - i,
    {
        let cap = &caps[i];
        assert(cs.take(i + 1).drop_last() =~= cs.take(i as int));
        assert(cs.take(i + 1).last() == cap@);
        let m = group_at(cap, 0);
        let class = cap_text_exec(text, cap, 1);
        let kind = cap_text_exec(text, cap, 2);
        let pay = cap_text_exec(text, cap, 3);
        match (m, class, kind, pay) {
            (Some(m), Some(cc), Some(kc), Some(pc)) => {
                let pt = trim_seq(&pc);
                let short = last_piece_seq(&pt, '.');
                let line = lines_before_exec(text, m.0);
                let consumer = ConsumerEndpoint {
                    service: extract_service_name(path),
                    handler_class: string_from_chars(&cc),
                    file_path: owned(path),
                    line_number: line,
                    processing_type: string_from_chars(&kc),
                };
                graph.add_event_consumer(string_from_chars(&short), string_from_chars(&short), consumer);
                graph.add_target(string_from_chars(&cc), string_from_chars(&short));
            },
            _ => {},
        }
        i = i + 1;
    }
    assert(cs.take(i as int) =~= cs);
}

fn job_type_name_exec(t: &Vec<char>) -> (r: Vec<char>)
    ensures
        r@ == job_type_name(t@),
{
    let a = trim_seq(t);
    let p = chars_of("typeof");
    proof {
        reveal_strlit("typeof");
    }
    let b = remove_all_seq(&a, &p);
    let c = trim_seq(&b);
    last_piece_seq(&c, '.')
}

/// The job named by the file's `jobType` field, if any.
fn job_field_exec(text: &Vec<char>, content: &str) -> (r: Option<Vec<char>>)
    requires
        text@ == content@,
    ensures
        match r {
            Some(f) => job_type_field(content@) == Some(f@),
            None => job_type_field(content@) is None,
        },
{
    match first_capture_exec(JOB_TYPE_FIELD, content) {
        Some(fc) => match cap_text_exec(text, &fc, 1) {
            Some(v) => {
                let t = trim_seq(&v);
                Some(last_piece_seq(&t, '.'))
            },
            None => None,
        },
        None => None,
    }
}

fn impact_handle_job_in(graph: &mut AsyncFlowGraph, path: &str, text: &Vec<char>, content: &str)
    requires
        text@ == content@,
    ensures
        final(graph)@ == impact_handle_job(old(graph)@, path@, content@),
{
    match first_capture_exec(JOB_HANDLER, content) {
        Some(cap) => {
            let m = group_at(&cap, 0);
            let class = cap_text_exec(text, &cap, 1);
            let pay = cap_text_exec(text, &cap, 2);
            match (m, class, pay) {
                (Some(m), Some(cc), Some(pc)) => {
                    let target = match job_field_exec(text, content) {
                        Some(f) => f,
                        None => job_type_name_exec(&pc),
                    };
                    let line = lines_before_exec(text, m.0);
                    let handler = ConsumerEndpoint {
                        service: extract_service_name(path),
                        handler_class: string_from_chars(&cc),
                        file_path: owned(path),
                        line_number: line,
                        processing_type: owned("IJobHandler"),
                    };
                    graph.add_job_handler(string_from_chars(&target), string_from_chars(&target), handler);
                    graph.add_target(string_from_chars(&cc), string_from_chars(&target));
                },
                _ => {},
            }
        },
        None => {},
    }
}

/// Adds to the impact graph what one file of the messaging package defines
/// (see `impact_definitions`).
pub fn index_definition_file(graph: &mut AsyncFlowGraph, path: &str, content: &str)
    ensures
        final(graph)@ == impact_definitions(old(graph)@, path@, content@),
{
    let p = chars_of(path);
    let text = chars_of(content);
    if !(ends_with_str(&p, ".ts") && !ends_with_str(&p, ".d.ts")) {
        return;
    }
    if contains_str(&p, "/events/") {
        crate::infrastructure::scanners::async_scanner::define_entries(graph, false, path, &text, content, &captures_of(ENUM_ENTRY, content));
        crate::infrastructure::scanners::async_scanner::register_entries(graph, false, &text, content, &captures_of(REGISTRY_ENTRY, content));
    }
    if contains_str(&p, "/jobs/") {
        crate::infrastructure::scanners::async_scanner::define_entries(graph, true, path, &text, content, &captures_of(ENUM_ENTRY, content));
        crate::infrastructure::scanners::async_scanner::register_entries(graph, true, &text, content, &captures_of(REGISTRY_ENTRY, content));
    }
}

/// Adds to the impact graph what one source file emits and consumes (see
/// `impact_source`).
pub fn index_source_file(graph: &mut AsyncFlowGraph, path: &str, content: &str)
    requires
        impact_source_ok(path@, content@),
    ensures
        final(graph)@ == impact_source(old(graph)@, path@, content@),
{
    let p = chars_of(path);
    if !(ends_with_str(&p, ".ts") && !ends_with_str(&p, ".d.ts")) {
        return;
    }
    let text = chars_of(content);
    if has_match_exec(CREATE_EVENT_ANY, content) {
        impact_emit_events_in(graph, path, &text, content, &captures_of(CREATE_EVENT, content));
    }
    if has_match_exec(CREATE_JOB_ANY, content) {
        impact_emit_jobs_in(graph, path, &text, content, &captures_of(JOB_TARGET, content));
        impact_fallback_jobs_in(graph, path, &text, content, &captures_of(FALLBACK_TARGET, content));
    }
    impact_consume_events_in(graph, path, &text, content, &captures_of(POST_PROCESSOR, content));
    impact_handle_job_in(graph, path, &text, content);
}


/// Whether a source file can be indexed (see `impact_source_ok`).
pub fn impact_source_ok_exec(path: &str, content: &str) -> (r: bool)
    ensures
        r == impact_source_ok(path@, content@),
{
    let p = chars_of(path);
    if !(ends_with_str(&p, ".ts") && !ends_with_str(&p, ".d.ts")) {
        return true;
    }
    let text = chars_of(content);
    if text.len() == usize::MAX {
        return false;
    }
    if has_match_exec(CREATE_EVENT_ANY, content)
        && !crate::infrastructure::scanners::async_scanner::windows_ok_exec(&text, CREATE_EVENT, content) {
        return false;
    }
    true
}

/// The saga suffixes of an event key: `_CREATED` links to
/// `_CREATION_SUCCESSFULL` / `_CREATION_FAILED`, `_DELETED` to
/// `_DELETION_SUCCESSFULL` / `_DELETION_FAILED`.
pub open spec fn impact_saga_names(k: Seq<char>) -> Option<(Seq<char>, Seq<char>)> {
    if ends_with(k, "_CREATED"@) {
        let b = k.subrange(0, k.len() - 8);
        Some((b + "_CREATION_SUCCESSFULL"@, b + "_CREATION_FAILED"@))
    } else if ends_with(k, "_DELETED"@) {
        let b = k.subrange(0, k.len() - 8);
        Some((b + "_DELETION_SUCCESSFULL"@, b + "_DELETION_FAILED"@))
    } else {
        None
    }
}

/// Saga links of the impact graph: each link is set when the linked event
/// exists, and otherwise left as it was.
pub open spec fn impact_link_sagas(events: Seq<(Seq<char>, EventView)>) -> Seq<(Seq<char>, EventView)> {
    let keys = crate::infrastructure::scanners::async_scanner::event_keys(events);
    Seq::new(
        events.len(),
        |i: int|
            match impact_saga_names(events[i].0) {
                Some((s, f)) => (
                    events[i].0,
                    EventView {
                        saga_success: if keys.contains(s) {
                            Some(s)
                        } else {
                            events[i].1.saga_success
                        },
                        saga_failure: if keys.contains(f) {
                            Some(f)
                        } else {
                            events[i].1.saga_failure
                        },
                        ..events[i].1
                    },
                ),
                None => events[i],
            },
    )
}

/// Linking the sagas of the impact graph keeps every event under its key,
/// and doing it a second time changes nothing.
pub proof fn lemma_impact_saga_linking_is_idempotent(events: Seq<(Seq<char>, EventView)>)
    ensures
        crate::infrastructure::scanners::async_scanner::event_keys(impact_link_sagas(events))
            == crate::infrastructure::scanners::async_scanner::event_keys(events),
        impact_link_sagas(impact_link_sagas(events)) == impact_link_sagas(events),
{
    let once = impact_link_sagas(events);
    assert(crate::infrastructure::scanners::async_scanner::event_keys(once)
        =~= crate::infrastructure::scanners::async_scanner::event_keys(events));
    assert(impact_link_sagas(once) =~= once);
}

fn impact_saga_names_exec(k: &Vec<char>) -> (r: Option<(Vec<char>, Vec<char>)>)
    ensures
        match r {
            Some((s, f)) => impact_saga_names(k@) == Some((s@, f@)),
            None => impact_saga_names(k@) is None,
        },
{
    proof {
        reveal_strlit("_CREATED");
        reveal_strlit("_DELETED");
    }
    if ends_with_str(k, "_CREATED") {
        let b = slice(k, 0, k.len() - 8);
        let mut s = b.clone();
        crate::text::push_str(&mut s, "_CREATION_SUCCESSFULL");
        let mut f = b.clone();
        crate::text::push_str(&mut f, "_CREATION_FAILED");
        Some((s, f))
    } else if ends_with_str(k, "_DELETED") {
        let b = slice(k, 0, k.len() - 8);
        let mut s = b.clone();
        crate::text::push_str(&mut s, "_DELETION_SUCCESSFULL");
        let mut f = b.clone();
        crate::text::push_str(&mut f, "_DELETION_FAILED");
        Some((s, f))
    } else {
        None
    }
}

/// Links `X_CREATED` and `X_DELETED` events to their saga outcomes (see
/// `impact_link_sagas`).
pub fn impact_link_saga_events(graph: &mut AsyncFlowGraph)
    ensures
        final(graph)@ == (AsyncFlowView { events: impact_link_sagas(old(graph)@.events), ..old(graph)@ }),
{
    let ghost g0 = graph@;
    let ghost keys0 = crate::infrastructure::scanners::async_scanner::event_keys(g0.events);
    let n = graph.events.len();
    let mut keys: Vec<String> = Vec::new();
    let mut i: usize = 0;
    while i < n
        invariant
            n == graph.events.spec_len(),
            graph@ == g0,
            keys0 == crate::infrastructure::scanners::async_scanner::event_keys(g0.events),
            0 <= i <= n,
            views(keys@) == keys0.take(i as int),
        decreases n - i,
    {
        let k = graph.events.key(i).clone();
        let ghost before = views(keys@);
        keys.push(k);
        assert(views(keys@) =~= before.push(keys0[i as int]));
        assert(keys0.take(i + 1) =~= keys0.take(i as int).push(keys0[i as int]));
        i = i + 1;
    }
    assert(keys0.take(n as int) =~= keys0);
    let mut i: usize = 0;
    while i < n
        invariant
            n == g0.events.len(),
            views(keys@) == keys0,
            keys0 == crate::infrastructure::scanners::async_scanner::event_keys(g0.events),
            0 <= i <= n,
            graph@.jobs == g0.jobs,
            graph@.consumer_to_target == g0.consumer_to_target,
            graph@.events.len() == n,
            forall|j: int| 0 <= j < i ==> #[trigger] graph@.events[j] == impact_link_sagas(g0.events)[j],
            forall|j: int| i <= j < n ==> #[trigger] graph@.events[j] == g0.events[j],
        decreases n - i,
    {
        assert(graph.events.spec_len() == graph@.events.len());
        let kc = chars_of(graph.events.key(i).as_str());
        assert(kc@ == graph@.events[i as int].0);
        assert(kc@ == g0.events[i as int].0);
        match impact_saga_names_exec(&kc) {
            Some((sn, fnm)) => {
                let s = if crate::infrastructure::scanners::async_scanner::has_key(&keys, &sn) {
                    Some(string_from_chars(&sn))
                } else {
                    None
                };
                let f = if crate::infrastructure::scanners::async_scanner::has_key(&keys, &fnm) {
                    Some(string_from_chars(&fnm))
                } else {
                    None
                };
                graph.set_event_sagas_given(i, s, f);
            },
            None => {},
        }
        i = i + 1;
    }
    assert(graph@.events =~= impact_link_sagas(g0.events));
}

/// The impact graph after indexing each messaging file in turn.
pub open spec fn impact_all_definitions(g: AsyncFlowView, files: Seq<(Seq<char>, Seq<char>)>) -> AsyncFlowView
    decreases files.len(),
{
    if files.len() == 0 {
        g
    } else {
        impact_definitions(impact_all_definitions(g, files.drop_last()), files.last().0, files.last().1)
    }
}

/// The impact graph after indexing each source file in turn.
pub open spec fn impact_all_sources(g: AsyncFlowView, files: Seq<(Seq<char>, Seq<char>)>) -> AsyncFlowView
    decreases files.len(),
{
    if files.len() == 0 {
        g
    } else {
        impact_source(impact_all_sources(g, files.drop_last()), files.last().0, files.last().1)
    }
}

/// The impact graph of a code base: the messaging definitions, then every
/// source file, then the saga links.
pub open spec fn impact_graph_of(
    definitions: Seq<(Seq<char>, Seq<char>)>,
    sources: Seq<(Seq<char>, Seq<char>)>,
) -> AsyncFlowView {
    let g = impact_all_sources(impact_all_definitions(empty_flow(), definitions), sources);
    AsyncFlowView { events: impact_link_sagas(g.events), ..g }
}

/// Every source file can be indexed.
pub open spec fn impact_sources_ok(sources: Seq<(Seq<char>, Seq<char>)>) -> bool {
    forall|i: int| 0 <= i < sources.len() ==> #[trigger] impact_source_ok(sources[i].0, sources[i].1)
}

/// Builds the impact graph from the files of the messaging package
/// (`definition_files`) and of the whole code base (`source_files`), each
/// given as (path, content). `None` when an emission's window would cut a
/// character.
pub fn build_impact_graph(
    definition_files: &Vec<(String, String)>,
    source_files: &Vec<(String, String)>,
) -> (r: Option<AsyncFlowGraph>)
    ensures
        r is Some <==> impact_sources_ok(files_view(source_files@)),
        r matches Some(g) ==> g@ == impact_graph_of(files_view(definition_files@), files_view(source_files@)),
{
    let ghost srcs = files_view(source_files@);
    let ghost defs = files_view(definition_files@);
    let mut i: usize = 0;
    while i < source_files.len()
        invariant
            srcs == files_view(source_files@),
            0 <= i <= source_files@.len(),
            forall|j: int| 0 <= j < i ==> #[trigger] impact_source_ok(srcs[j].0, srcs[j].1),
        decreases source_files@.len() - i,
    {
        let f = &source_files[i];
        assert(srcs[i as int] == (f.0@, f.1@));
        if !impact_source_ok_exec(f.0.as_str(), f.1.as_str()) {
            assert(!impact_sources_ok(srcs)) by {
                assert(!impact_source_ok(srcs[i as int].0, srcs[i as int].1));
            }
            return None;
        }
        i = i + 1;
    }
    let mut graph = AsyncFlowGraph::new();
    assert(graph@ == empty_flow()) by {
        assert(graph@.events =~= seq![]);
        assert(graph@.jobs =~= seq![]);
        assert(graph@.consumer_to_target =~= seq![]);
    }
    let mut i: usize = 0;
    while i < definition_files.len()
        invariant
            defs == files_view(definition_files@),
            0 <= i <= definition_files@.len(),
            graph@ == impact_all_definitions(empty_flow(), defs.take(i as int)),
        decreases definition_files@.len() - i,
    {
        let f = &definition_files[i];
        assert(defs.take(i + 1).drop_last() =~= defs.take(i as int));
        assert(defs.take(i + 1).last() == (f.0@, f.1@));
        index_definition_file(&mut graph, f.0.as_str(), f.1.as_str());
        i = i + 1;
    }
    assert(defs.take(i as int) =~= defs);
    let ghost g1 = graph@;
    let mut i: usize = 0;
    while i < source_files.len()
        invariant
            srcs == files_view(source_files@),
            impact_sources_ok(srcs),
            0 <= i <= source_files@.len(),
            graph@ == impact_all_sources(g1, srcs.take(i as int)),
        decreases source_files@.len() - i,
    {
        let f = &source_files[i];
        assert(srcs.take(i + 1).drop_last() =~= srcs.take(i as int));
        assert(srcs.take(i + 1).last() == (f.0@, f.1@));
        assert(impact_source_ok(srcs[i as int].0, srcs[i as int].1));
        index_source_file(&mut graph, f.0.as_str(), f.1.as_str());
        i = i + 1;
    }
    assert(srcs.take(i as int) =~= srcs);
    impact_link_saga_events(&mut graph);
    Some(graph)
}


/// Saga triad of an event section in the tool's report, then a blank line.
pub open spec fn tool_event_tail(ev: EventNode) -> Seq<char> {
    (if ev.saga_success is Some || ev.saga_failure is Some {
        "\n🔄 Triade de Saga (Chorégraphie & Compensations) :\n"@ + opt_line(
            "   - Succès (Commit -> SagaStatus.DONE)   : "@,
            ev.saga_success,
            "\n"@,
        ) + opt_line("   - Échec  (Rollback -> SagaStatus.CANCEL) : "@, ev.saga_failure, "\n"@)
    } else {
        seq![]
    }) + "\n"@
}

/// The section of the tool's report about one event.
pub open spec fn tool_event_block(key: Seq<char>, ev: EventNode) -> Seq<char> {
    event_head(key, ev) + event_flows(ev) + tool_event_tail(ev)
}

/// Title and contract lines of a job section of the tool's report.
pub open spec fn tool_job_head(key: Seq<char>, job: JobNode) -> Seq<char> {
    rule() + "🛠️ JOB D'ARRIÈRE-PLAN (1:1) : "@ + key + "\n"@ + opt_line("   Valeur Job : '"@, job.raw_value, "'\n"@)
        + rule() + "📜 Contrat & Payload :\n"@ + opt_line(
        "   - Interface Payload : "@,
        job.payload_interface,
        "\n"@,
    ) + opt_line("   - Définition : "@, job.definition_file, "\n"@) + opt_line(
        "   - Queue BullMQ : "@,
        job.queue,
        "\n"@,
    )
}

/// Creators and executors of a job in the tool's report, then a blank line.
pub open spec fn tool_job_flows(job: JobNode) -> Seq<char> {
    "\n🚀 Émetteur(s) (Amont / Producers) : "@ + dec(job.producers@.len()) + "\n"@ + producers_text(
        job.producers@,
        "   (Aucun émetteur direct détecté via JobsOutboxEntity)\n"@,
    ) + "\n⚙️ Exécuteur(s) (Workers / Handlers) : "@ + dec(job.handlers@.len()) + "\n"@ + (if job.handlers@.len()
        == 0 {
        "   (Aucun IJobHandler détecté)\n"@
    } else {
        concat_map(job.handlers@.len(), |i: int| handler_lines(i, job.handlers@[i]))
    }) + "\n"@
}

/// The section of the tool's report about one job.
pub open spec fn tool_job_block(key: Seq<char>, job: JobNode) -> Seq<char> {
    tool_job_head(key, job) + tool_job_flows(job)
}

/// The section of the tool's report about a consumer class: the events and
/// jobs it consumes, sorted and without repetition.
pub open spec fn tool_reverse_block(name: Seq<char>, targets: Seq<Seq<char>>) -> Seq<char> {
    let u = sorted_unique(targets);
    rule() + "🔍 NAVIGATION INVERSÉE (Upstream Trace) pour '"@ + name + "'\n"@ + rule()
        + "Cette classe consomme les événements / jobs suivants :\n"@ + concat_map(
        u.len(),
        |j: int| "- "@ + u[j] + "\n"@,
    ) + "\n"@
}

/// The consumer class at position `i` is designated by `target`: its
/// lower-cased name contains the lower-cased target.
pub open spec fn class_hit(g: AsyncFlowGraph, i: int, target: Seq<char>) -> bool {
    contains(lower(g.consumer_to_target.key_at(i)), lower(target))
}

/// Some event, job or consumer class is designated by `target`.
pub open spec fn tool_found(g: AsyncFlowGraph, target: Seq<char>) -> bool {
    direct_found(g, target) || exists|i: int|
        0 <= i < g.consumer_to_target.spec_len() && class_hit(g, i, target)
}

/// The sections of the tool's report: designated events, then jobs, then
/// consumer classes.
pub open spec fn tool_sections(g: AsyncFlowGraph, target: Seq<char>) -> Seq<char> {
    concat_map(
        g.events.spec_len(),
        |i: int|
            if event_hit(g, i, target) {
                tool_event_block(g.events.key_at(i), g.events.val_at(i))
            } else {
                seq![]
            },
    ) + concat_map(
        g.jobs.spec_len(),
        |i: int|
            if job_hit(g, i, target) {
                tool_job_block(g.jobs.key_at(i), g.jobs.val_at(i))
            } else {
                seq![]
            },
    ) + concat_map(
        g.consumer_to_target.spec_len(),
        |i: int|
            if class_hit(g, i, target) {
                tool_reverse_block(g.consumer_to_target.key_at(i), views(g.consumer_to_target.val_at(i)@))
            } else {
                seq![]
            },
    )
}

/// The `analyze_impact` answer for a (trimmed) target.
pub open spec fn tool_report(g: AsyncFlowGraph, target: Seq<char>) -> Seq<char> {
    if tool_found(g, target) {
        tool_sections(g, target)
    } else {
        "Aucun événement, job, ou handler correspondant à '"@ + target
            + "' n'a été trouvé dans le graphe asynchrone."@
    }
}

fn push_tool_event_tail(out: &mut Vec<char>, ev: &EventNode)
    ensures
        final(out)@ == old(out)@ + tool_event_tail(*ev),
{
    let ghost start = out@;
    if ev.saga_success.is_some() || ev.saga_failure.is_some() {
        push_str(out, "\n🔄 Triade de Saga (Chorégraphie & Compensations) :\n");
        push_opt_line(out, "   - Succès (Commit -> SagaStatus.DONE)   : ", &ev.saga_success, "\n");
        push_opt_line(out, "   - Échec  (Rollback -> SagaStatus.CANCEL) : ", &ev.saga_failure, "\n");
    }
    push_str(out, "\n");
    assert(out@ =~= start + tool_event_tail(*ev));
}

fn push_tool_event_block(out: &mut Vec<char>, key: &String, ev: &EventNode)
    ensures
        final(out)@ == old(out)@ + tool_event_block(key@, *ev),
{
    let ghost start = out@;
    push_event_head(out, key, ev);
    push_event_flows(out, ev);
    push_tool_event_tail(out, ev);
    assert(out@ =~= start + tool_event_block(key@, *ev));
}

fn push_tool_job_head(out: &mut Vec<char>, key: &String, job: &JobNode)
    ensures
        final(out)@ == old(out)@ + tool_job_head(key@, *job),
{
    let ghost start = out@;
    push_str(out, "================================================================================\n");
    push_str(out, "🛠️ JOB D'ARRIÈRE-PLAN (1:1) : ");
    push_str(out, key.as_str());
    push_str(out, "\n");
    push_opt_line(out, "   Valeur Job : '", &job.raw_value, "'\n");
    push_str(out, "================================================================================\n");
    push_str(out, "📜 Contrat & Payload :\n");
    push_opt_line(out, "   - Interface Payload : ", &job.payload_interface, "\n");
    push_opt_line(out, "   - Définition : ", &job.definition_file, "\n");
    push_opt_line(out, "   - Queue BullMQ : ", &job.queue, "\n");
    assert(out@ =~= start + tool_job_head(key@, *job));
}

fn push_tool_job_flows(out: &mut Vec<char>, job: &JobNode)
    ensures
        final(out)@ == old(out)@ + tool_job_flows(*job),
{
    let ghost start = out@;
    push_str(out, "\n🚀 Émetteur(s) (Amont / Producers) : ");
    let n = usize_dec(job.producers.len());
    push_seq(out, &n);
    push_str(out, "\n");
    push_producers(out, &job.producers, "   (Aucun émetteur direct détecté via JobsOutboxEntity)\n");
    push_str(out, "\n⚙️ Exécuteur(s) (Workers / Handlers) : ");
    let m = usize_dec(job.handlers.len());
    push_seq(out, &m);
    push_str(out, "\n");
    if job.handlers.len() == 0 {
        push_str(out, "   (Aucun IJobHandler détecté)\n");
    } else {
        push_handlers(out, &job.handlers);
    }
    push_str(out, "\n");
    assert(out@ =~= start + tool_job_flows(*job));
}

fn push_tool_job_block(out: &mut Vec<char>, key: &String, job: &JobNode)
    ensures
        final(out)@ == old(out)@ + tool_job_block(key@, *job),
{
    let ghost start = out@;
    push_tool_job_head(out, key, job);
    push_tool_job_flows(out, job);
    assert(out@ =~= start + tool_job_block(key@, *job));
}

fn push_reverse_block(out: &mut Vec<char>, name: &String, targets: &Vec<String>)
    ensures
        final(out)@ == old(out)@ + tool_reverse_block(name@, views(targets@)),
{
    let ghost start = out@;
    let mut set = StrSet::new();
    let mut i: usize = 0;
    while i < targets.len()
        invariant
            0 <= i <= targets@.len(),
            set.to_set() == views(targets@).take(i as int).to_set(),
        decreases targets@.len() - i,
    {
        let ghost before = set.to_set();
        set.insert(targets[i].clone());
        assert(views(targets@).take(i + 1) =~= views(targets@).take(i as int).push(targets@[i as int]@));
        assert(set.to_set() =~= views(targets@).take(i + 1).to_set()) by {
            vstd::seq_lib::lemma_seq_contains_after_push(views(targets@).take(i as int), targets@[i as int]@, targets@[i as int]@);
            assert forall|x: Seq<char>| views(targets@).take(i + 1).to_set().contains(x) <==> before.insert(targets@[i as int]@).contains(x) by {
                let t1 = views(targets@).take(i + 1);
                let t0 = views(targets@).take(i as int);
                if t1.to_set().contains(x) {
                    let k = choose|k: int| 0 <= k < t1.len() && t1[k] == x;
                    if k < i {
                        assert(t0[k] == x);
                        assert(t0.to_set().contains(x));
                    }
                }
                if t0.to_set().contains(x) {
                    let k = choose|k: int| 0 <= k < t0.len() && t0[k] == x;
                    assert(t1[k] == x);
                }
                if x == targets@[i as int]@ {
                    assert(t1[i as int] == x);
                }
            }
        }
        i = i + 1;
    }
    assert(views(targets@).take(i as int) =~= views(targets@));
    set.sorted();
    let list = set.to_vec();
    proof {
        lemma_is_sorted_unique(views(list@), views(targets@));
    }
    let ghost u = views(list@);
    push_str(out, "================================================================================\n");
    push_str(out, "🔍 NAVIGATION INVERSÉE (Upstream Trace) pour '");
    push_str(out, name.as_str());
    push_str(out, "'\n");
    push_str(out, "================================================================================\n");
    push_str(out, "Cette classe consomme les événements / jobs suivants :\n");
    let ghost head = out@;
    let ghost f = |j: int| "- "@ + u[j] + "\n"@;
    let mut j: usize = 0;
    while j < list.len()
        invariant
            u == views(list@),
            f == (|j: int| "- "@ + u[j] + "\n"@),
            0 <= j <= list@.len(),
            out@ == head + concat_map(j as nat, f),
        decreases list@.len() - j,
    {
        push_str(out, "- ");
        push_str(out, list[j].as_str());
        push_str(out, "\n");
        assert(out@ =~= head + concat_map(j as nat, f) + f(j as int));
        j = j + 1;
    }
    push_str(out, "\n");
    assert(out@ =~= start + tool_reverse_block(name@, views(targets@)));
}

/// The `analyze_impact` answer for `target` (trimmed first): the sections of
/// every event and job whose key (upper-cased) or value (lower-cased)
/// contains it, then of every consumer class whose lower-cased name contains
/// it, listing what the class consumes sorted and without repetition; or a
/// sentence that nothing matches.
pub fn impact_tool_report(graph: &AsyncFlowGraph, target: &str) -> (r: String)
    ensures
        r@ == tool_report(*graph, trim(target@)),
{
    let tc = chars_of(target);
    let tt = trim_seq(&tc);
    let ts = string_from_chars(&tt);
    let t = ts.as_str();
    let tu = to_uppercase(t);
    let target_upper = chars_of(tu.as_str());
    let tl = to_lowercase(t);
    let target_lower = chars_of(tl.as_str());
    let ghost g = *graph;
    let ghost tv = t@;
    let ghost fe = |i: int|
        if event_hit(g, i, tv) {
            tool_event_block(g.events.key_at(i), g.events.val_at(i))
        } else {
            seq![]
        };
    let ghost fj = |i: int|
        if job_hit(g, i, tv) {
            tool_job_block(g.jobs.key_at(i), g.jobs.val_at(i))
        } else {
            seq![]
        };
    let ghost fc = |i: int|
        if class_hit(g, i, tv) {
            tool_reverse_block(g.consumer_to_target.key_at(i), views(g.consumer_to_target.val_at(i)@))
        } else {
            seq![]
        };
    let mut out: Vec<char> = Vec::new();
    let mut found = false;
    let n = graph.events.len();
    let mut i: usize = 0;
    while i < n
        invariant
            g == *graph,
            target_upper@ == upper(tv),
            target_lower@ == lower(tv),
            n == g.events.spec_len(),
            0 <= i <= n,
            fe == (|i: int|
                if event_hit(g, i, tv) {
                    tool_event_block(g.events.key_at(i), g.events.val_at(i))
                } else {
                    seq![]
                }),
            out@ == concat_map(i as nat, fe),
            found == exists|k: int| 0 <= k < i && event_hit(g, k, tv),
        decreases n - i,
    {
        let key = graph.events.key(i);
        let ev = graph.events.val(i);
        let hit = key_hit(key, &target_upper) || raw_hit(&ev.raw_value, &target_lower);
        assert(hit == event_hit(g, i as int, tv));
        if hit {
            found = true;
            push_tool_event_block(&mut out, key, ev);
        }
        assert(out@ =~= concat_map(i as nat, fe) + fe(i as int));
        i = i + 1;
    }
    let ghost part1 = out@;
    let found1 = found;
    let m = graph.jobs.len();
    let mut j: usize = 0;
    while j < m
        invariant
            g == *graph,
            target_upper@ == upper(tv),
            target_lower@ == lower(tv),
            m == g.jobs.spec_len(),
            0 <= j <= m,
            fj == (|i: int|
                if job_hit(g, i, tv) {
                    tool_job_block(g.jobs.key_at(i), g.jobs.val_at(i))
                } else {
                    seq![]
                }),
            out@ == part1 + concat_map(j as nat, fj),
            found == (found1 || exists|k: int| 0 <= k < j && job_hit(g, k, tv)),
        decreases m - j,
    {
        let key = graph.jobs.key(j);
        let job = graph.jobs.val(j);
        let hit = key_hit(key, &target_upper) || raw_hit(&job.raw_value, &target_lower);
        assert(hit == job_hit(g, j as int, tv));
        if hit {
            found = true;
            push_tool_job_block(&mut out, key, job);
        }
        assert(out@ =~= part1 + concat_map(j as nat, fj) + fj(j as int));
        j = j + 1;
    }
    assert(found == direct_found(g, tv));
    let ghost part2 = out@;
    let found2 = found;
    let c = graph.consumer_to_target.len();
    let mut k: usize = 0;
    while k < c
        invariant
            g == *graph,
            target_lower@ == lower(tv),
            c == g.consumer_to_target.spec_len(),
            0 <= k <= c,
            fc == (|i: int|
                if class_hit(g, i, tv) {
                    tool_reverse_block(g.consumer_to_target.key_at(i), views(g.consumer_to_target.val_at(i)@))
                } else {
                    seq![]
                }),
            out@ == part2 + concat_map(k as nat, fc),
            found == (found2 || exists|q: int| 0 <= q < k && class_hit(g, q, tv)),
        decreases c - k,
    {
        let name = graph.consumer_to_target.key(k);
        let targets = graph.consumer_to_target.val(k);
        let nl = to_lowercase(name.as_str());
        let nc = chars_of(nl.as_str());
        let hit = contains_seq(&nc, &target_lower);
        assert(hit == class_hit(g, k as int, tv));
        if hit {
            found = true;
            push_reverse_block(&mut out, name, targets);
        }
        assert(out@ =~= part2 + concat_map(k as nat, fc) + fc(k as int));
        k = k + 1;
    }
    if found {
        assert(out@ =~= tool_sections(g, tv));
        string_from_chars(&out)
    } else {
        let mut msg: Vec<char> = Vec::new();
        push_str(&mut msg, "Aucun événement, job, ou handler correspondant à '");
        push_str(&mut msg, t);
        push_str(&mut msg, "' n'a été trouvé dans le graphe asynchrone.");
        string_from_chars(&msg)
    }
}

} // verus!
