//! Naming rules of the asynchronous-flow scanner: which service a file
//! belongs to, and when a type name designates an event or a job.
use vstd::prelude::*;

use crate::domain::async_flow::{
    bare_event, bare_job, opt_text, with_event_consumer, ConsumerEndpoint, FlowEndpoint, with_event_definition, with_event_producer,
    with_job_definition, with_job_handler, with_job_producer, AsyncFlowGraph, AsyncFlowView,
    ConsumerView, EndpointView, EventNode, EventView, JobNode, JobView,
};
use crate::pattern::{
    caps_view, captures_of, cap_text, cap_text_exec, captures_all, first_capture, first_capture_exec, group, group_at,
    has_match, has_match_exec, lines_before, lines_before_exec, regex_captures, take_upto,
    take_upto_exec, window_after, window_after_exec, window_ok, window_ok_exec, Span,
};
use crate::engine::impact_engine::reverse_index_closed;
use crate::strmap::{al_find, al_get_or, al_set, views};
use crate::std_text::{string_from_chars, to_uppercase, upper};
use crate::text::{
    chars_of, contains, contains_str, ends_with, ends_with_str, last_piece, last_piece_seq, owned,
    trim, trim_end_str, trim_end_str_seq, trim_seq, trim_start_char, trim_start_char_seq, eq_ignore_ascii_case, eq_ignore_ascii_case_seq, remove_char,
    remove_char_seq, seq_eq, slice, split_char, split_char_seq, starts_with, starts_with_str,
};
use vstd::utf8::encode_utf8;

verus! {

/// A path segment that names a service, runner or shared domain package.
pub open spec fn is_service_segment(p: Seq<char>) -> bool {
    starts_with(p, "ms-"@) || starts_with(p, "post-processor-"@) || starts_with(p, "worker-"@)
        || starts_with(p, "outbox-"@) || starts_with(p, "domain-"@) || p == "ws-service"@ || p
        == "api-gateway"@
}

/// The first service segment among `parts[i..]`, or `unknown`.
pub open spec fn first_service(parts: Seq<Seq<char>>, i: int) -> Seq<char>
    decreases parts.len() - i,
{
    if i < 0 || i >= parts.len() {
        "unknown"@
    } else if is_service_segment(parts[i]) {
        parts[i]
    } else {
        first_service(parts, i + 1)
    }
}

/// The service a path belongs to: its first `/`-separated segment that names
/// a service, or `unknown`.
pub open spec fn service_of(path: Seq<char>) -> Seq<char> {
    first_service(split_char(path, '/'), 0)
}

fn is_service_segment_exec(p: &Vec<char>) -> (r: bool)
    ensures
        r == is_service_segment(p@),
{
    starts_with_str(p, "ms-") || starts_with_str(p, "post-processor-") || starts_with_str(p, "worker-")
        || starts_with_str(p, "outbox-") || starts_with_str(p, "domain-") || crate::text::eq_str(
        p,
        "ws-service",
    ) || crate::text::eq_str(p, "api-gateway")
}

/// The service a file path belongs to (`ms-*`, `post-processor-*`,
/// `worker-*`, `outbox-*`, `domain-*`, `ws-service`, `api-gateway`), or
/// `unknown`.
pub fn extract_service_name(path: &str) -> (r: String)
    ensures
        r@ == service_of(path@),
{
    let pc = chars_of(path);
    let parts = split_char_seq(&pc, '/');
    let ghost ps = split_char(path@, '/');
    let mut i: usize = 0;
    while i < parts.len()
        invariant
            ps == split_char(path@, '/'),
            parts@.len() == ps.len(),
            forall|k: int| 0 <= k < parts@.len() ==> #[trigger] parts@[k]@ == ps[k],
            0 <= i <= parts@.len(),
            first_service(ps, i as int) == first_service(ps, 0),
        decreases parts@.len() - i,
    {
        if is_service_segment_exec(&parts[i]) {
            assert(first_service(ps, i as int) == ps[i as int]);
            let r = string_from_chars(&parts[i]);
            assert(parts@[i as int]@ == ps[i as int]);
            return r;
        }
        i = i + 1;
    }
    let mut u: Vec<char> = Vec::new();
    crate::text::push_str(&mut u, "unknown");
    string_from_chars(&u)
}

/// `s` with underscores removed, then upper-cased.
pub open spec fn norm_upper(s: Seq<char>) -> Seq<char> {
    upper(remove_char(s, '_'))
}

/// `nq` is `I<nk>PAYLOAD` (more than eight bytes long).
pub open spec fn payload_wraps(nq: Seq<char>, nk: Seq<char>) -> bool {
    &&& starts_with(nq, "I"@)
    &&& ends_with(nq, "PAYLOAD"@)
    &&& encode_utf8(nq).len() > 8
    &&& nq.subrange(1, nq.len() - 7) == nk
}

/// The optional name equals `query` up to ASCII case.
pub open spec fn opt_eq_ic(o: Option<Seq<char>>, query: Seq<char>) -> bool {
    match o {
        Some(v) => eq_ignore_ascii_case(v, query),
        None => false,
    }
}

/// `query` designates the entry with this key, payload interface and raw value:
/// equal to one of them up to ASCII case, equal to the key once underscores
/// are dropped and case is ignored, or the payload interface name `I<Key>Payload`.
pub open spec fn names_match(
    key: Seq<char>,
    payload_interface: Option<Seq<char>>,
    raw_value: Option<Seq<char>>,
    query: Seq<char>,
) -> bool {
    ||| eq_ignore_ascii_case(key, query)
    ||| opt_eq_ic(payload_interface, query)
    ||| opt_eq_ic(raw_value, query)
    ||| norm_upper(query) == norm_upper(key)
    ||| payload_wraps(norm_upper(query), norm_upper(key))
}

fn opt_eq_ic_exec(o: &Option<String>, q: &Vec<char>) -> (r: bool)
    ensures
        r == opt_eq_ic(opt_text(*o), q@),
{
    match o {
        Some(v) => {
            let vc = chars_of(v.as_str());
            eq_ignore_ascii_case_seq(&vc, q)
        },
        None => false,
    }
}

fn norm_upper_exec(s: &Vec<char>) -> (r: String)
    ensures
        r@ == norm_upper(s@),
{
    let t = remove_char_seq(s, '_');
    let ts = string_from_chars(&t);
    to_uppercase(ts.as_str())
}

fn names_match_exec(
    key: &str,
    payload_interface: &Option<String>,
    raw_value: &Option<String>,
    query: &str,
) -> (r: bool)
    ensures
        r == names_match(key@, opt_text(*payload_interface), opt_text(*raw_value), query@),
{
    let k = chars_of(key);
    let q = chars_of(query);
    if eq_ignore_ascii_case_seq(&k, &q) {
        return true;
    }
    if opt_eq_ic_exec(payload_interface, &q) {
        return true;
    }
    if opt_eq_ic_exec(raw_value, &q) {
        return true;
    }
    let nqs = norm_upper_exec(&q);
    let nks = norm_upper_exec(&k);
    let nq = chars_of(nqs.as_str());
    let nk = chars_of(nks.as_str());
    if seq_eq(&nq, &nk) {
        return true;
    }
    let pre = starts_with_str(&nq, "I");
    let post = ends_with_str(&nq, "PAYLOAD");
    let long = nq.len() > 8;
    proof {
        reveal_strlit("I");
        reveal_strlit("PAYLOAD");
        if pre && post {
            assert(nq@.len() >= 7);
            if nq@.len() == 7 {
                assert(nq@.subrange(0, 1)[0] == 'I');
                assert(nq@.subrange(0, 7)[0] == 'P');
            }
            if nq@.len() == 8 {
                assert forall|k: int| 0 <= k < nq@.len() implies (nq@[k] as u32) <= 0x7f by {
                    if k == 0 {
                        assert(nq@.subrange(0, 1)[0] == nq@[0]);
                    } else {
                        assert(nq@.subrange(1, 8)[k - 1] == nq@[k]);
                    }
                }
                crate::utf8_len::lemma_ascii_len(nq@);
            } else {
                crate::utf8_len::lemma_len_le_byte_len(nq@);
            }
        }
    }
    if pre && post && long {
        let inner = slice(&nq, 1, nq.len() - 7);
        let same = seq_eq(&inner, &nk);
        assert(same == payload_wraps(norm_upper(query@), norm_upper(key@)));
        return same;
    }
    assert(!payload_wraps(norm_upper(query@), norm_upper(key@)));
    false
}

/// Whether `query` designates the event `event_key`.
pub fn matches_event_or_payload(event_key: &str, node: &EventNode, query: &str) -> (r: bool)
    ensures
        r == names_match(event_key@, node@.payload_interface, node@.raw_value, query@),
{
    names_match_exec(event_key, &node.payload_interface, &node.raw_value, query)
}

/// Whether `query` designates the job `job_key`.
pub fn matches_job_or_payload(job_key: &str, node: &JobNode, query: &str) -> (r: bool)
    ensures
        r == names_match(job_key@, node@.payload_interface, node@.raw_value, query@),
{
    names_match_exec(job_key, &node.payload_interface, &node.raw_value, query)
}


/// An enum or constant entry `KEY = 'value'` / `KEY: "value"` at the start of a line.
pub const ENUM_ENTRY: &'static str = r#"(?m)^\s*([A-Z0-9_]+)\s*[:=]\s*['"]([^'"]+)['"]"#;

/// A registry entry `[Enum.KEY]: IPayloadInterface`.
pub const REGISTRY_ENTRY: &'static str = r"(?m)\[([A-Za-z0-9_.]+)\]\s*:\s*([A-Za-z0-9_]+)";

/// An event emission with its payload type.
pub const CREATE_EVENT: &'static str = r"EventQueueEntity\.createEvent<([^>]+)>";

/// Any event emission.
pub const CREATE_EVENT_ANY: &'static str = r"EventQueueEntity\.createEvent";

/// Any job creation or fallback.
pub const CREATE_JOB_ANY: &'static str = r"JobsOutboxEntity\.createJob|withFallback";

/// A job creation with its job type.
pub const JOB_TARGET: &'static str = r"JobsOutboxEntity\.createJob<([^>]+)>";

/// A command fallback with its job.
pub const FALLBACK_TARGET: &'static str = r"withFallback\s*(?:<[^>]+>)?\s*\(\s*([A-Za-z0-9_.]+)";

/// A post-processor class with its kind and payload type.
pub const POST_PROCESSOR: &'static str =
    r"(?m)export\s+class\s+([A-Za-z0-9_]+)\s+extends\s+(BatchPostProcessor|SinglePostProcessor)<([^>]+)>";

/// A job handler class with its payload type.
pub const JOB_HANDLER: &'static str =
    r"(?m)export\s+class\s+([A-Za-z0-9_]+)\s+implements\s+IJobHandler<([^>]+)>";

/// A `readonly jobType = ...;` field.
pub const JOB_TYPE_FIELD: &'static str = r"(?m)readonly\s+jobType\s*=\s*([A-Za-z0-9_.]+);";

/// A TypeScript source that is not a declaration file.
pub open spec fn is_ts_source(path: Seq<char>) -> bool {
    ends_with(path, ".ts"@) && !ends_with(path, ".d.ts"@)
}

/// A file under an `events` directory.
pub open spec fn in_events_dir(path: Seq<char>) -> bool {
    contains(path, "/events/"@) || contains(path, "\\events\\"@)
}

/// A file under a `jobs` directory.
pub open spec fn in_jobs_dir(path: Seq<char>) -> bool {
    contains(path, "/jobs/"@) || contains(path, "\\jobs\\"@)
}

/// The events defined by enum entries: each entry's event gets its value
/// and defining file.
pub open spec fn define_events(
    g: AsyncFlowView,
    path: Seq<char>,
    c: Seq<char>,
    caps: Seq<Seq<Span>>,
) -> AsyncFlowView
    decreases caps.len(),
{
    if caps.len() == 0 {
        g
    } else {
        let g0 = define_events(g, path, c, caps.drop_last());
        match (cap_text(c, caps.last(), 1), cap_text(c, caps.last(), 2)) {
            (Some(k), Some(v)) => AsyncFlowView {
                events: al_set(
                    g0.events,
                    k,
                    with_event_definition(al_get_or(g0.events, k, bare_event(k)), v, path),
                ),
                ..g0
            },
            _ => g0,
        }
    }
}

/// The jobs defined by enum entries.
pub open spec fn define_jobs(
    g: AsyncFlowView,
    path: Seq<char>,
    c: Seq<char>,
    caps: Seq<Seq<Span>>,
) -> AsyncFlowView
    decreases caps.len(),
{
    if caps.len() == 0 {
        g
    } else {
        let g0 = define_jobs(g, path, c, caps.drop_last());
        match (cap_text(c, caps.last(), 1), cap_text(c, caps.last(), 2)) {
            (Some(k), Some(v)) => AsyncFlowView {
                jobs: al_set(
                    g0.jobs,
                    k,
                    with_job_definition(al_get_or(g0.jobs, k, bare_job(k)), v, path),
                ),
                ..g0
            },
            _ => g0,
        }
    }
}

/// The payload interfaces given by registry entries to events already known
/// (the entry's key is taken after its last `.`).
pub open spec fn register_events(g: AsyncFlowView, c: Seq<char>, caps: Seq<Seq<Span>>) -> AsyncFlowView
    decreases caps.len(),
{
    if caps.len() == 0 {
        g
    } else {
        let g0 = register_events(g, c, caps.drop_last());
        match (cap_text(c, caps.last(), 1), cap_text(c, caps.last(), 2)) {
            (Some(full), Some(iface)) => {
                let k = last_piece(full, '.');
                if al_find(g0.events, k) < g0.events.len() {
                    AsyncFlowView {
                        events: al_set(
                            g0.events,
                            k,
                            EventView {
                                payload_interface: Some(iface),
                                ..al_get_or(g0.events, k, bare_event(k))
                            },
                        ),
                        ..g0
                    }
                } else {
                    g0
                }
            },
            _ => g0,
        }
    }
}

/// The payload interfaces given by registry entries to jobs already known.
pub open spec fn register_jobs(g: AsyncFlowView, c: Seq<char>, caps: Seq<Seq<Span>>) -> AsyncFlowView
    decreases caps.len(),
{
    if caps.len() == 0 {
        g
    } else {
        let g0 = register_jobs(g, c, caps.drop_last());
        match (cap_text(c, caps.last(), 1), cap_text(c, caps.last(), 2)) {
            (Some(full), Some(iface)) => {
                let k = last_piece(full, '.');
                if al_find(g0.jobs, k) < g0.jobs.len() {
                    AsyncFlowView {
                        jobs: al_set(
                            g0.jobs,
                            k,
                            JobView {
                                payload_interface: Some(iface),
                                ..al_get_or(g0.jobs, k, bare_job(k))
                            },
                        ),
                        ..g0
                    }
                } else {
                    g0
                }
            },
            _ => g0,
        }
    }
}

/// What one file of the messaging package adds to the graph: in a source
/// under `events/`, its event entries and then its registry entries; under
/// `jobs/`, the same for jobs.
pub open spec fn scan_definitions(g: AsyncFlowView, path: Seq<char>, c: Seq<char>) -> AsyncFlowView {
    if !is_ts_source(path) {
        g
    } else {
        let g1 = if in_events_dir(path) {
            register_events(
                define_events(g, path, c, regex_captures(ENUM_ENTRY@, c)),
                c,
                regex_captures(REGISTRY_ENTRY@, c),
            )
        } else {
            g
        };
        if in_jobs_dir(path) {
            register_jobs(
                define_jobs(g1, path, c, regex_captures(ENUM_ENTRY@, c)),
                c,
                regex_captures(REGISTRY_ENTRY@, c),
            )
        } else {
            g1
        }
    }
}

/// Records the enum entries of a file, given as the capture spans of their
/// matches in `content` (whose characters are `text`): the events (or, when `jobs`, the jobs) that they define, with value and file.
pub fn define_entries(graph: &mut AsyncFlowGraph, jobs: bool, path: &str, text: &Vec<char>, content: &str, caps: &Vec<Vec<Span>>)
    requires
        text@ == content@,
    ensures
        final(graph)@ == if jobs {
            define_jobs(old(graph)@, path@, content@, caps_view(caps@))
        } else {
            define_events(old(graph)@, path@, content@, caps_view(caps@))
        },
{
    let ghost cs = caps_view(caps@);
    let ghost g0 = graph@;
    let mut i: usize = 0;
    assert(cs.take(0) =~= Seq::<Seq<Span>>::empty());
    while i < caps.len()
        invariant
            caps@.len() == cs.len(),
            forall|k: int| 0 <= k < caps@.len() ==> #[trigger] caps@[k]@ == cs[k],
            text@ == content@,
            0 <= i <= caps@.len(),
            graph@ == if jobs {
                define_jobs(g0, path@, content@, cs.take(i as int))
            } else {
                define_events(g0, path@, content@, cs.take(i as int))
            },
        decreases caps@.len() - i,
    {
        let cap = &caps[i];
        assert(cs.take(i + 1).drop_last() =~= cs.take(i as int));
        assert(cs.take(i + 1).last() == cap@);
        let k = cap_text_exec(text, cap, 1);
        let v = cap_text_exec(text, cap, 2);
        match (k, v) {
            (Some(kc), Some(vc)) => {
                let ks = string_from_chars(&kc);
                let vs = string_from_chars(&vc);
                let ps = owned(path);
                if jobs {
                    graph.define_job(ks, vs, ps);
                } else {
                    graph.define_event(ks, vs, ps);
                }
            },
            _ => {},
        }
        i = i + 1;
    }
    assert(cs.take(i as int) =~= cs);
}

/// Records the registry entries of a file, given as the capture spans of their
/// matches in `content` (whose characters are `text`): the payload interfaces they give to known events (or jobs).
pub fn register_entries(graph: &mut AsyncFlowGraph, jobs: bool, text: &Vec<char>, content: &str, caps: &Vec<Vec<Span>>)
    requires
        text@ == content@,
    ensures
        final(graph)@ == if jobs {
            register_jobs(old(graph)@, content@, caps_view(caps@))
        } else {
            register_events(old(graph)@, content@, caps_view(caps@))
        },
{
    let ghost cs = caps_view(caps@);
    let ghost g0 = graph@;
    let mut i: usize = 0;
    assert(cs.take(0) =~= Seq::<Seq<Span>>::empty());
    while i < caps.len()
        invariant
            caps@.len() == cs.len(),
            forall|k: int| 0 <= k < caps@.len() ==> #[trigger] caps@[k]@ == cs[k],
            text@ == content@,
            0 <= i <= caps@.len(),
            graph@ == if jobs {
                register_jobs(g0, content@, cs.take(i as int))
            } else {
                register_events(g0, content@, cs.take(i as int))
            },
        decreases caps@.len() - i,
    {
        let cap = &caps[i];
        assert(cs.take(i + 1).drop_last() =~= cs.take(i as int));
        assert(cs.take(i + 1).last() == cap@);
        let k = cap_text_exec(text, cap, 1);
        let v = cap_text_exec(text, cap, 2);
        match (k, v) {
            (Some(kc), Some(vc)) => {
                let short = last_piece_seq(&kc, '.');
                let ss = string_from_chars(&short);
                let vs = string_from_chars(&vc);
                if jobs {
                    graph.set_job_payload(ss.as_str(), vs);
                } else {
                    graph.set_event_payload(ss.as_str(), vs);
                }
            },
            _ => {},
        }
        i = i + 1;
    }
    assert(cs.take(i as int) =~= cs);
}

/// Adds to the graph what one file of the messaging package defines: under
/// `events/`, the event entries (value and defining file) and then the
/// registry entries (payload interface of known events); under `jobs/`, the
/// same for jobs. Other files and declaration files add nothing.
pub fn scan_definition_file(graph: &mut AsyncFlowGraph, path: &str, content: &str)
    ensures
        final(graph)@ == scan_definitions(old(graph)@, path@, content@),
{
    let p = chars_of(path);
    let text = chars_of(content);
    if !(ends_with_str(&p, ".ts") && !ends_with_str(&p, ".d.ts")) {
        return;
    }
    if contains_str(&p, "/events/") || contains_str(&p, "\\events\\") {
        define_entries(graph, false, path, &text, content, &captures_of(ENUM_ENTRY, content));
        register_entries(graph, false, &text, content, &captures_of(REGISTRY_ENTRY, content));
    }
    if contains_str(&p, "/jobs/") || contains_str(&p, "\\jobs\\") {
        define_entries(graph, true, path, &text, content, &captures_of(ENUM_ENTRY, content));
        register_entries(graph, true, &text, content, &captures_of(REGISTRY_ENTRY, content));
    }
}


/// The key of the first event, from position `i` on, that `q` designates.
pub open spec fn first_event_match(s: Seq<(Seq<char>, EventView)>, q: Seq<char>, i: int) -> Option<Seq<char>>
    decreases s.len() - i,
{
    if i < 0 || i >= s.len() {
        None
    } else if names_match(s[i].0, s[i].1.payload_interface, s[i].1.raw_value, q) {
        Some(s[i].0)
    } else {
        first_event_match(s, q, i + 1)
    }
}

/// The key of the first job, from position `i` on, that `q` designates.
pub open spec fn first_job_match(s: Seq<(Seq<char>, JobView)>, q: Seq<char>, i: int) -> Option<Seq<char>>
    decreases s.len() - i,
{
    if i < 0 || i >= s.len() {
        None
    } else if names_match(s[i].0, s[i].1.payload_interface, s[i].1.raw_value, q) {
        Some(s[i].0)
    } else {
        first_job_match(s, q, i + 1)
    }
}

/// The key of the first event that `q` designates, in the graph's order.
pub fn find_event_match(graph: &AsyncFlowGraph, q: &str) -> (r: Option<String>)
    ensures
        match r {
            Some(k) => first_event_match(graph@.events, q@, 0) == Some(k@),
            None => first_event_match(graph@.events, q@, 0) is None,
        },
{
    let n = graph.events.len();
    let mut i: usize = 0;
    while i < n
        invariant
            n == graph.events.spec_len(),
            0 <= i <= n,
            first_event_match(graph@.events, q@, i as int) == first_event_match(graph@.events, q@, 0),
        decreases n - i,
    {
        let k = graph.events.key(i);
        let node = graph.events.val(i);
        if matches_event_or_payload(k.as_str(), node, q) {
            return Some(k.clone());
        }
        i = i + 1;
    }
    None
}

/// The key of the first job that `q` designates, in the graph's order.
pub fn find_job_match(graph: &AsyncFlowGraph, q: &str) -> (r: Option<String>)
    ensures
        match r {
            Some(k) => first_job_match(graph@.jobs, q@, 0) == Some(k@),
            None => first_job_match(graph@.jobs, q@, 0) is None,
        },
{
    let n = graph.jobs.len();
    let mut i: usize = 0;
    while i < n
        invariant
            n == graph.jobs.spec_len(),
            0 <= i <= n,
            first_job_match(graph@.jobs, q@, i as int) == first_job_match(graph@.jobs, q@, 0),
        decreases n - i,
    {
        let k = graph.jobs.key(i);
        let node = graph.jobs.val(i);
        if matches_job_or_payload(k.as_str(), node, q) {
            return Some(k.clone());
        }
        i = i + 1;
    }
    None
}

/// The name a payload type gives when no known entry matches it:
/// leading `I`s and trailing `Payload`s removed.
pub open spec fn payload_stem(t: Seq<char>) -> Seq<char> {
    trim_end_str(trim_start_char(t, 'I'), "Payload"@)
}

/// The line (counted from 1) on which byte offset `b` falls.
pub open spec fn line_at(c: Seq<char>, b: usize) -> usize {
    (lines_before(c, b) + 1) as usize
}

/// The event emissions `EventQueueEntity.createEvent<T>` of a file: each is
/// recorded as a producer of the first event that `T` (after its last `.`)
/// designates, or of an event named `T` created for it.
pub open spec fn emit_events(g: AsyncFlowView, path: Seq<char>, c: Seq<char>, caps: Seq<Seq<Span>>) -> AsyncFlowView
    decreases caps.len(),
{
    if caps.len() == 0 {
        g
    } else {
        let g0 = emit_events(g, path, c, caps.drop_last());
        match (group(caps.last(), 0), cap_text(c, caps.last(), 1)) {
            (Some(m), Some(t)) => {
                let short = last_piece(trim(t), '.');
                let ep = EndpointView {
                    service: service_of(path),
                    file_path: path,
                    line_number: line_at(c, m.0),
                    pattern: "EventQueueEntity.createEvent"@,
                    snippet: take_upto(window_after(c, m.1, 800), 180),
                };
                let key = match first_event_match(g0.events, short, 0) {
                    Some(k) => k,
                    None => short,
                };
                AsyncFlowView {
                    events: al_set(
                        g0.events,
                        key,
                        with_event_producer(al_get_or(g0.events, key, bare_event(seq![])), None, ep),
                    ),
                    ..g0
                }
            },
            _ => g0,
        }
    }
}

/// The job creations `JobsOutboxEntity.createJob<T>` of a file, recorded as
/// producers of the first job that `T` designates, or of a job created for it.
pub open spec fn emit_jobs(g: AsyncFlowView, path: Seq<char>, c: Seq<char>, caps: Seq<Seq<Span>>) -> AsyncFlowView
    decreases caps.len(),
{
    if caps.len() == 0 {
        g
    } else {
        let g0 = emit_jobs(g, path, c, caps.drop_last());
        match (group(caps.last(), 0), cap_text(c, caps.last(), 1)) {
            (Some(m), Some(t)) => {
                let short = last_piece(trim(t), '.');
                let ep = EndpointView {
                    service: service_of(path),
                    file_path: path,
                    line_number: line_at(c, m.0),
                    pattern: "JobsOutboxEntity.createJob"@,
                    snippet: take_upto(window_after(c, m.1, 800), 180),
                };
                let key = match first_job_match(g0.jobs, short, 0) {
                    Some(k) => k,
                    None => short,
                };
                AsyncFlowView {
                    jobs: al_set(g0.jobs, key, with_job_producer(al_get_or(g0.jobs, key, bare_job(seq![])), ep)),
                    ..g0
                }
            },
            _ => g0,
        }
    }
}

/// The `withFallback(Job...)` calls of a file, recorded as producers of the
/// job they name.
pub open spec fn fallback_jobs(g: AsyncFlowView, path: Seq<char>, c: Seq<char>, caps: Seq<Seq<Span>>) -> AsyncFlowView
    decreases caps.len(),
{
    if caps.len() == 0 {
        g
    } else {
        let g0 = fallback_jobs(g, path, c, caps.drop_last());
        match (group(caps.last(), 0), cap_text(c, caps.last(), 1)) {
            (Some(m), Some(t)) => {
                let target = last_piece(trim(t), '.');
                let ep = EndpointView {
                    service: service_of(path),
                    file_path: path,
                    line_number: line_at(c, m.0),
                    pattern: "withFallback"@,
                    snippet: seq![],
                };
                let key = match first_job_match(g0.jobs, target, 0) {
                    Some(k) => k,
                    None => target,
                };
                AsyncFlowView {
                    jobs: al_set(g0.jobs, key, with_job_producer(al_get_or(g0.jobs, key, bare_job(seq![])), ep)),
                    ..g0
                }
            },
            _ => g0,
        }
    }
}

/// The post-processor classes of a file: each is recorded as a consumer of
/// the first event its payload type designates (or of the payload type's
/// stem), and in the reverse index.
pub open spec fn consume_events(g: AsyncFlowView, path: Seq<char>, c: Seq<char>, caps: Seq<Seq<Span>>) -> AsyncFlowView
    decreases caps.len(),
{
    if caps.len() == 0 {
        g
    } else {
        let g0 = consume_events(g, path, c, caps.drop_last());
        let cap = caps.last();
        match (group(cap, 0), cap_text(c, cap, 1), cap_text(c, cap, 2), cap_text(c, cap, 3)) {
            (Some(m), Some(class), Some(kind), Some(pay)) => {
                let short = last_piece(trim(pay), '.');
                let consumer = ConsumerView {
                    service: service_of(path),
                    handler_class: class,
                    file_path: path,
                    line_number: line_at(c, m.0),
                    processing_type: kind,
                };
                let target = match first_event_match(g0.events, short, 0) {
                    Some(k) => k,
                    None => payload_stem(short),
                };
                AsyncFlowView {
                    events: al_set(
                        g0.events,
                        target,
                        with_event_consumer(al_get_or(g0.events, target, bare_event(seq![])), consumer),
                    ),
                    jobs: g0.jobs,
                    consumer_to_target: al_set(
                        g0.consumer_to_target,
                        class,
                        al_get_or(g0.consumer_to_target, class, seq![]).push(target),
                    ),
                }
            },
            _ => g0,
        }
    }
}

/// The job named by the file's first `readonly jobType = ...;` field
/// (after its last `.`).
pub open spec fn job_type_field(c: Seq<char>) -> Option<Seq<char>> {
    match first_capture(JOB_TYPE_FIELD@, c) {
        Some(fc) => match cap_text(c, fc, 1) {
            Some(v) => Some(last_piece(trim(v), '.')),
            None => None,
        },
        None => None,
    }
}

/// The job a handler executes: the first job designated by the file's
/// `jobType` field, else the first designated by its payload type, else the
/// field's job, else the payload type's stem.
pub open spec fn handled_job(jobs: Seq<(Seq<char>, JobView)>, field: Option<Seq<char>>, short: Seq<char>) -> Seq<char> {
    let by_field = match field {
        Some(jk) => first_job_match(jobs, jk, 0),
        None => None,
    };
    let matched = if by_field is Some {
        by_field
    } else {
        first_job_match(jobs, short, 0)
    };
    match matched {
        Some(k) => k,
        None => match field {
            Some(f) => f,
            None => payload_stem(short),
        },
    }
}

/// The job handler classes of a file, recorded as handlers of the job they
/// execute and in the reverse index.
pub open spec fn handle_jobs(g: AsyncFlowView, path: Seq<char>, c: Seq<char>, caps: Seq<Seq<Span>>) -> AsyncFlowView
    decreases caps.len(),
{
    if caps.len() == 0 {
        g
    } else {
        let g0 = handle_jobs(g, path, c, caps.drop_last());
        let cap = caps.last();
        match (group(cap, 0), cap_text(c, cap, 1), cap_text(c, cap, 2)) {
            (Some(m), Some(class), Some(pay)) => {
                let short = last_piece(trim(pay), '.');
                let handler = ConsumerView {
                    service: service_of(path),
                    handler_class: class,
                    file_path: path,
                    line_number: line_at(c, m.0),
                    processing_type: "IJobHandler"@,
                };
                let target = handled_job(g0.jobs, job_type_field(c), short);
                AsyncFlowView {
                    events: g0.events,
                    jobs: al_set(g0.jobs, target, with_job_handler(al_get_or(g0.jobs, target, bare_job(seq![])), handler)),
                    consumer_to_target: al_set(
                        g0.consumer_to_target,
                        class,
                        al_get_or(g0.consumer_to_target, class, seq![]).push(target),
                    ),
                }
            },
            _ => g0,
        }
    }
}


/// Records the event emissions of a file, given as the capture spans of their
/// matches in `content` (whose characters are `text`): each as a producer of the event it designates.
pub fn emit_events_in(graph: &mut AsyncFlowGraph, path: &str, text: &Vec<char>, content: &str, caps: &Vec<Vec<Span>>)
    requires
        text@ == content@,
        content@.len() < usize::MAX,
    ensures
        final(graph)@ == emit_events(old(graph)@, path@, content@, caps_view(caps@)),
{
    let ghost cs = caps_view(caps@);
    let ghost g0 = graph@;
    let mut i: usize = 0;
    assert(cs.take(0) =~= Seq::<Seq<Span>>::empty());
    while i < caps.len()
        invariant
            caps@.len() == cs.len(),
            forall|k: int| 0 <= k < caps@.len() ==> #[trigger] caps@[k]@ == cs[k],
            text@ == content@,
            content@.len() < usize::MAX,
            0 <= i <= caps@.len(),
            graph@ == emit_events(g0, path@, content@, cs.take(i as int)),
        decreases caps@.len() - i,
    {
        let cap = &caps[i];
        assert(cs.take(i + 1).drop_last() =~= cs.take(i as int));
        assert(cs.take(i + 1).last() == cap@);
        let m = group_at(cap, 0);
        let t = cap_text_exec(text, cap, 1);
        match (m, t) {
            (Some(m), Some(tc)) => {
                let tt = trim_seq(&tc);
                let short = last_piece_seq(&tt, '.');
                let line = lines_before_exec(text, m.0) + 1;
                let win = window_after_exec(text, m.1, 800);
                let snip = take_upto_exec(&win, 180);
                let ep = FlowEndpoint {
                    service: extract_service_name(path),
                    file_path: owned(path),
                    line_number: line,
                    pattern: owned("EventQueueEntity.createEvent"),
                    snippet: string_from_chars(&snip),
                };
                let ss = string_from_chars(&short);
                let key = match find_event_match(graph, ss.as_str()) {
                    Some(k) => k,
                    None => ss,
                };
                graph.add_event_producer(key, String::new(), None, ep);
            },
            _ => {},
        }
        i = i + 1;
    }
    assert(cs.take(i as int) =~= cs);
}

/// Records the job creations of a file, given as the capture spans of their
/// matches in `content` (whose characters are `text`): each as a producer of the job it designates.
pub fn emit_jobs_in(graph: &mut AsyncFlowGraph, path: &str, text: &Vec<char>, content: &str, caps: &Vec<Vec<Span>>)
    requires
        text@ == content@,
        content@.len() < usize::MAX,
    ensures
        final(graph)@ == emit_jobs(old(graph)@, path@, content@, caps_view(caps@)),
{
    let ghost cs = caps_view(caps@);
    let ghost g0 = graph@;
    let mut i: usize = 0;
    assert(cs.take(0) =~= Seq::<Seq<Span>>::empty());
    while i < caps.len()
        invariant
            caps@.len() == cs.len(),
            forall|k: int| 0 <= k < caps@.len() ==> #[trigger] caps@[k]@ == cs[k],
            text@ == content@,
            content@.len() < usize::MAX,
            0 <= i <= caps@.len(),
            graph@ == emit_jobs(g0, path@, content@, cs.take(i as int)),
        decreases caps@.len() - i,
    {
        let cap = &caps[i];
        assert(cs.take(i + 1).drop_last() =~= cs.take(i as int));
        assert(cs.take(i + 1).last() == cap@);
        let m = group_at(cap, 0);
        let t = cap_text_exec(text, cap, 1);
        match (m, t) {
            (Some(m), Some(tc)) => {
                let tt = trim_seq(&tc);
                let short = last_piece_seq(&tt, '.');
                let line = lines_before_exec(text, m.0) + 1;
                let win = window_after_exec(text, m.1, 800);
                let snip = take_upto_exec(&win, 180);
                let ep = FlowEndpoint {
                    service: extract_service_name(path),
                    file_path: owned(path),
                    line_number: line,
                    pattern: owned("JobsOutboxEntity.createJob"),
                    snippet: string_from_chars(&snip),
                };
                let ss = string_from_chars(&short);
                let key = match find_job_match(graph, ss.as_str()) {
                    Some(k) => k,
                    None => ss,
                };
                graph.add_job_producer(key, String::new(), ep);
            },
            _ => {},
        }
        i = i + 1;
    }
    assert(cs.take(i as int) =~= cs);
}

/// Records the `withFallback` calls of a file, given as the capture spans of their
/// matches in `content` (whose characters are `text`): each as a producer of the job it names.
pub fn fallback_jobs_in(graph: &mut AsyncFlowGraph, path: &str, text: &Vec<char>, content: &str, caps: &Vec<Vec<Span>>)
    requires
        text@ == content@,
        content@.len() < usize::MAX,
    ensures
        final(graph)@ == fallback_jobs(old(graph)@, path@, content@, caps_view(caps@)),
{
    let ghost cs = caps_view(caps@);
    let ghost g0 = graph@;
    let mut i: usize = 0;
    assert(cs.take(0) =~= Seq::<Seq<Span>>::empty());
    while i < caps.len()
        invariant
            caps@.len() == cs.len(),
            forall|k: int| 0 <= k < caps@.len() ==> #[trigger] caps@[k]@ == cs[k],
            text@ == content@,
            content@.len() < usize::MAX,
            0 <= i <= caps@.len(),
            graph@ == fallback_jobs(g0, path@, content@, cs.take(i as int)),
        decreases caps@.len() - i,
    {
        let cap = &caps[i];
        assert(cs.take(i + 1).drop_last() =~= cs.take(i as int));
        assert(cs.take(i + 1).last() == cap@);
        let m = group_at(cap, 0);
        let t = cap_text_exec(text, cap, 1);
        match (m, t) {
            (Some(m), Some(tc)) => {
                let tt = trim_seq(&tc);
                let target = last_piece_seq(&tt, '.');
                let line = lines_before_exec(text, m.0) + 1;
                let ep = FlowEndpoint {
                    service: extract_service_name(path),
                    file_path: owned(path),
                    line_number: line,
                    pattern: owned("withFallback"),
                    snippet: String::new(),
                };
                let ts = string_from_chars(&target);
                let key = match find_job_match(graph, ts.as_str()) {
                    Some(k) => k,
                    None => ts,
                };
                graph.add_job_producer(key, String::new(), ep);
            },
            _ => {},
        }
        i = i + 1;
    }
    assert(cs.take(i as int) =~= cs);
}

/// Records the post-processor classes of a file, given as the capture spans of their
/// matches in `content` (whose characters are `text`): each as a consumer of its event and in the reverse index.
pub fn consume_events_in(graph: &mut AsyncFlowGraph, path: &str, text: &Vec<char>, content: &str, caps: &Vec<Vec<Span>>)
    requires
        text@ == content@,
        content@.len() < usize::MAX,
    ensures
        final(graph)@ == consume_events(old(graph)@, path@, content@, caps_view(caps@)),
{
    let ghost cs = caps_view(caps@);
    let ghost g0 = graph@;
    let mut i: usize = 0;
    assert(cs.take(0) =~= Seq::<Seq<Span>>::empty());
    while i < caps.len()
        invariant
            caps@.len() == cs.len(),
            forall|k: int| 0 <= k < caps@.len() ==> #[trigger] caps@[k]@ == cs[k],
            text@ == content@,
            content@.len() < usize::MAX,
            0 <= i <= caps@.len(),
            graph@ == consume_events(g0, path@, content@, cs.take(i as int)),
        decreases caps@.len() - i,
    {
        let cap = &caps[i];
        assert(cs.take(i + 1).drop_last() =~= cs.take(i as int));
        assert(cs.take(i + 1).last() == cap@);
        let m = group_at(cap, 0);
        let class = cap_text_exec(text, cap, 1);
        let kind = cap_text_exec(text, cap, 2);
        let pay = cap_text_exec(text, cap, 3);
        match (m, class, kind, pay) {
            (Some(m), Some(cc), Some(kc), Some(pc)) => {
                let pt = trim_seq(&pc);
                let short = last_piece_seq(&pt, '.');
                let line = lines_before_exec(text, m.0) + 1;
                let consumer = ConsumerEndpoint {
                    service: extract_service_name(path),
                    handler_class: string_from_chars(&cc),
                    file_path: owned(path),
                    line_number: line,
                    processing_type: string_from_chars(&kc),
                };
                let ss = string_from_chars(&short);
                let target = match find_event_match(graph, ss.as_str()) {
                    Some(k) => k,
                    None => {
                        let a = trim_start_char_seq(&short, 'I');
                        let pl = chars_of("Payload");
                        let b = trim_end_str_seq(&a, &pl);
                        string_from_chars(&b)
                    },
                };
                graph.add_target(string_from_chars(&cc), target.clone());
                graph.add_event_consumer(target, String::new(), consumer);
            },
            _ => {},
        }
        i = i + 1;
    }
    assert(cs.take(i as int) =~= cs);
}

/// Records the job handler classes of a file, given as the capture spans of their
/// matches in `content` (whose characters are `text`): each as a handler of its job and in the reverse index.
pub fn handle_jobs_in(graph: &mut AsyncFlowGraph, path: &str, text: &Vec<char>, content: &str, caps: &Vec<Vec<Span>>)
    requires
        text@ == content@,
        content@.len() < usize::MAX,
    ensures
        final(graph)@ == handle_jobs(old(graph)@, path@, content@, caps_view(caps@)),
{
    let ghost cs = caps_view(caps@);
    let ghost g0 = graph@;
    let mut i: usize = 0;
    assert(cs.take(0) =~= Seq::<Seq<Span>>::empty());
    while i < caps.len()
        invariant
            caps@.len() == cs.len(),
            forall|k: int| 0 <= k < caps@.len() ==> #[trigger] caps@[k]@ == cs[k],
            text@ == content@,
            content@.len() < usize::MAX,
            0 <= i <= caps@.len(),
            graph@ == handle_jobs(g0, path@, content@, cs.take(i as int)),
        decreases caps@.len() - i,
    {
        let cap = &caps[i];
        assert(cs.take(i + 1).drop_last() =~= cs.take(i as int));
        assert(cs.take(i + 1).last() == cap@);
        let m = group_at(cap, 0);
        let class = cap_text_exec(text, cap, 1);
        let pay = cap_text_exec(text, cap, 2);
        match (m, class, pay) {
            (Some(m), Some(cc), Some(pc)) => {
                let pt = trim_seq(&pc);
                let short = last_piece_seq(&pt, '.');
                let line = lines_before_exec(text, m.0) + 1;
                let field = job_type_field_exec(text, content);
                let handler = ConsumerEndpoint {
                    service: extract_service_name(path),
                    handler_class: string_from_chars(&cc),
                    file_path: owned(path),
                    line_number: line,
                    processing_type: owned("IJobHandler"),
                };
                let ss = string_from_chars(&short);
                let target = handled_job_exec(graph, &field, &ss);
                graph.add_target(string_from_chars(&cc), target.clone());
                graph.add_job_handler(target, String::new(), handler);
            },
            _ => {},
        }
        i = i + 1;
    }
    assert(cs.take(i as int) =~= cs);
}

/// The job named by the file's `jobType` field, if any.
fn job_type_field_exec(text: &Vec<char>, content: &str) -> (r: Option<String>)
    requires
        text@ == content@,
    ensures
        match r {
            Some(f) => job_type_field(content@) == Some(f@),
            None => job_type_field(content@) is None,
        },
{
    match first_capture_exec(JOB_TYPE_FIELD, content) {
        Some(fc) => match cap_text_exec(text, &fc, 1) {
            Some(v) => {
                let t = trim_seq(&v);
                let l = last_piece_seq(&t, '.');
                Some(string_from_chars(&l))
            },
            None => None,
        },
        None => None,
    }
}

/// The job a handler with this `jobType` field and payload type executes.
fn handled_job_exec(graph: &AsyncFlowGraph, field: &Option<String>, short: &String) -> (r: String)
    ensures
        r@ == handled_job(graph@.jobs, opt_text(*field), short@),
{
    let by_field = match field {
        Some(jk) => find_job_match(graph, jk.as_str()),
        None => None,
    };
    let matched = if by_field.is_some() {
        by_field
    } else {
        find_job_match(graph, short.as_str())
    };
    match matched {
        Some(k) => k,
        None => match field {
            Some(f) => f.clone(),
            None => {
                let sc = chars_of(short.as_str());
                let a = trim_start_char_seq(&sc, 'I');
                let pl = chars_of("Payload");
                let b = trim_end_str_seq(&a, &pl);
                string_from_chars(&b)
            },
        },
    }
}


/// What one source file of the code base adds to the graph: its event
/// emissions (when it mentions `EventQueueEntity.createEvent`), its job
/// creations and fallbacks (when it mentions `JobsOutboxEntity.createJob` or
/// `withFallback`), then its post-processors and its job handlers.
pub open spec fn scan_source(g: AsyncFlowView, path: Seq<char>, c: Seq<char>) -> AsyncFlowView {
    if !is_ts_source(path) {
        g
    } else {
        let g1 = if has_match(CREATE_EVENT_ANY@, c) {
            emit_events(g, path, c, regex_captures(CREATE_EVENT@, c))
        } else {
            g
        };
        let g2 = if has_match(CREATE_JOB_ANY@, c) {
            fallback_jobs(
                emit_jobs(g1, path, c, regex_captures(JOB_TARGET@, c)),
                path,
                c,
                regex_captures(FALLBACK_TARGET@, c),
            )
        } else {
            g1
        };
        handle_jobs(
            consume_events(g2, path, c, regex_captures(POST_PROCESSOR@, c)),
            path,
            c,
            regex_captures(JOB_HANDLER@, c),
        )
    }
}

/// Each match with a type argument is followed by a byte window of 800
/// that ends on a character boundary (the snippet is cut from that window).
pub open spec fn windows_ok(c: Seq<char>, caps: Seq<Seq<Span>>) -> bool {
    forall|i: int|
        0 <= i < caps.len() ==> match (group(#[trigger] caps[i], 0), cap_text(c, caps[i], 1)) {
            (Some(m), Some(_)) => window_ok(c, m.1, 800),
            _ => true,
        }
}

/// A source file can be scanned: it is not a TypeScript source, or every
/// snippet window of its emissions and job creations is cut on a character
/// boundary (and its length leaves room for a line number).
pub open spec fn source_ok(path: Seq<char>, c: Seq<char>) -> bool {
    is_ts_source(path) ==> {
        &&& c.len() < usize::MAX
        &&& has_match(CREATE_EVENT_ANY@, c) ==> windows_ok(c, regex_captures(CREATE_EVENT@, c))
        &&& has_match(CREATE_JOB_ANY@, c) ==> windows_ok(c, regex_captures(JOB_TARGET@, c))
    }
}

/// Adds to the graph what one source file emits and consumes: event
/// emissions, job creations and fallbacks (each bound to the first known
/// entry it designates), post-processors and job handlers (also recorded in
/// the reverse index). Other files and declaration files add nothing.
pub fn scan_source_file(graph: &mut AsyncFlowGraph, path: &str, content: &str)
    requires
        source_ok(path@, content@),
    ensures
        final(graph)@ == scan_source(old(graph)@, path@, content@),
{
    let p = chars_of(path);
    if !(ends_with_str(&p, ".ts") && !ends_with_str(&p, ".d.ts")) {
        return;
    }
    let text = chars_of(content);
    if has_match_exec(CREATE_EVENT_ANY, content) {
        emit_events_in(graph, path, &text, content, &captures_of(CREATE_EVENT, content));
    }
    if has_match_exec(CREATE_JOB_ANY, content) {
        emit_jobs_in(graph, path, &text, content, &captures_of(JOB_TARGET, content));
        fallback_jobs_in(graph, path, &text, content, &captures_of(FALLBACK_TARGET, content));
    }
    consume_events_in(graph, path, &text, content, &captures_of(POST_PROCESSOR, content));
    handle_jobs_in(graph, path, &text, content, &captures_of(JOB_HANDLER, content));
}

pub(crate) fn windows_ok_exec(text: &Vec<char>, pattern: &str, content: &str) -> (r: bool)
    requires
        text@ == content@,
    ensures
        r == windows_ok(content@, regex_captures(pattern@, content@)),
{
    let caps = captures_all(pattern, content);
    let ghost cs = regex_captures(pattern@, content@);
    let mut i: usize = 0;
    while i < caps.len()
        invariant
            cs == regex_captures(pattern@, content@),
            caps@.len() == cs.len(),
            forall|k: int| 0 <= k < caps@.len() ==> #[trigger] caps@[k]@ == cs[k],
            text@ == content@,
            0 <= i <= caps@.len(),
            forall|k: int|
                0 <= k < i ==> match (group(#[trigger] cs[k], 0), cap_text(content@, cs[k], 1)) {
                    (Some(m), Some(_)) => window_ok(content@, m.1, 800),
                    _ => true,
                },
        decreases caps@.len() - i,
    {
        let cap = &caps[i];
        assert(cap@ == cs[i as int]);
        let m = group_at(cap, 0);
        let t = cap_text_exec(text, cap, 1);
        match (m, t) {
            (Some(m), Some(_)) => {
                if !window_ok_exec(text, m.1, 800) {
                    assert(!windows_ok(content@, cs)) by {
                        assert(cs[i as int] == cap@);
                    }
                    return false;
                }
            },
            _ => {},
        }
        i = i + 1;
    }
    true
}

/// Whether a source file can be scanned (see `source_ok`).
pub fn source_ok_exec(path: &str, content: &str) -> (r: bool)
    ensures
        r == source_ok(path@, content@),
{
    let p = chars_of(path);
    if !(ends_with_str(&p, ".ts") && !ends_with_str(&p, ".d.ts")) {
        return true;
    }
    let text = chars_of(content);
    if text.len() == usize::MAX {
        return false;
    }
    if has_match_exec(CREATE_EVENT_ANY, content) && !windows_ok_exec(&text, CREATE_EVENT, content) {
        return false;
    }
    if has_match_exec(CREATE_JOB_ANY, content) && !windows_ok_exec(&text, JOB_TARGET, content) {
        return false;
    }
    true
}

/// The part of an event key before `_CREATED`, `_START` or `_INITIATED`.
pub open spec fn saga_base(k: Seq<char>) -> Option<Seq<char>> {
    if ends_with(k, "_CREATED"@) {
        Some(k.subrange(0, k.len() - 8))
    } else if ends_with(k, "_START"@) {
        Some(k.subrange(0, k.len() - 6))
    } else if ends_with(k, "_INITIATED"@) {
        Some(k.subrange(0, k.len() - 10))
    } else {
        None
    }
}

/// `a` if it is among `keys`, else `b` if it is, else nothing.
pub open spec fn pick_key(keys: Seq<Seq<char>>, a: Seq<char>, b: Seq<char>) -> Option<Seq<char>> {
    if keys.contains(a) {
        Some(a)
    } else if keys.contains(b) {
        Some(b)
    } else {
        None
    }
}

/// The keys of the events.
pub open spec fn event_keys(events: Seq<(Seq<char>, EventView)>) -> Seq<Seq<char>> {
    events.map_values(|p: (Seq<char>, EventView)| p.0)
}

/// Saga links: an event `X_CREATED` (or `X_START`, `X_INITIATED`) gets as
/// success `X_SUCCESSFULL` (else `X_SUCCESS`) and as failure `X_FAILED`
/// (else `X_FAILURE`) when these events exist, and no link otherwise.
pub open spec fn link_sagas(events: Seq<(Seq<char>, EventView)>) -> Seq<(Seq<char>, EventView)> {
    let keys = event_keys(events);
    Seq::new(
        events.len(),
        |i: int|
            match saga_base(events[i].0) {
                Some(b) => (
                    events[i].0,
                    EventView {
                        saga_success: pick_key(keys, b + "_SUCCESSFULL"@, b + "_SUCCESS"@),
                        saga_failure: pick_key(keys, b + "_FAILED"@, b + "_FAILURE"@),
                        ..events[i].1
                    },
                ),
                None => events[i],
            },
    )
}

/// Linking sagas keeps every event under its key; a creation event gets
/// only sagas that name events of the graph, and any other event is left
/// as it was.
pub proof fn lemma_saga_links_name_events(events: Seq<(Seq<char>, EventView)>)
    ensures
        link_sagas(events).len() == events.len(),
        event_keys(link_sagas(events)) == event_keys(events),
        forall|i: int|
            0 <= i < events.len() && saga_base(events[i].0) is Some ==> {
                let e = (#[trigger] link_sagas(events)[i]).1;
                &&& (e.saga_success matches Some(s) ==> event_keys(events).contains(s))
                &&& (e.saga_failure matches Some(s) ==> event_keys(events).contains(s))
            },
        forall|i: int|
            0 <= i < events.len() && saga_base(events[i].0) is None ==> #[trigger] link_sagas(events)[i] == events[i],
{
    assert(event_keys(link_sagas(events)) =~= event_keys(events));
}

/// Linking sagas a second time changes nothing.
pub proof fn lemma_saga_linking_is_idempotent(events: Seq<(Seq<char>, EventView)>)
    ensures
        link_sagas(link_sagas(events)) == link_sagas(events),
{
    lemma_saga_links_name_events(events);
    let once = link_sagas(events);
    assert(link_sagas(once) =~= once);
}

/// Whether an event key is among the keys `keys`.
pub(crate) fn has_key(keys: &Vec<String>, k: &Vec<char>) -> (r: bool)
    ensures
        r == views(keys@).contains(k@),
{
    let mut i: usize = 0;
    while i < keys.len()
        invariant
            0 <= i <= keys@.len(),
            forall|j: int| 0 <= j < i ==> keys@[j]@ != k@,
        decreases keys@.len() - i,
    {
        let kc = chars_of(keys[i].as_str());
        if seq_eq(&kc, k) {
            assert(views(keys@)[i as int] == k@);
            return true;
        }
        i = i + 1;
    }
    assert forall|j: int| 0 <= j < views(keys@).len() implies views(keys@)[j] != k@ by {
        assert(views(keys@)[j] == keys@[j]@);
    }
    false
}

fn pick_key_exec(keys: &Vec<String>, base: &Vec<char>, a: &str, b: &str) -> (r: Option<String>)
    ensures
        opt_text(r) == pick_key(views(keys@), base@ + a@, base@ + b@),
{
    let mut ka = base.clone();
    crate::text::push_str(&mut ka, a);
    if has_key(keys, &ka) {
        return Some(string_from_chars(&ka));
    }
    let mut kb = base.clone();
    crate::text::push_str(&mut kb, b);
    if has_key(keys, &kb) {
        return Some(string_from_chars(&kb));
    }
    None
}

fn saga_base_exec(k: &Vec<char>) -> (r: Option<Vec<char>>)
    ensures
        match r {
            Some(b) => saga_base(k@) == Some(b@),
            None => saga_base(k@) is None,
        },
{
    proof {
        reveal_strlit("_CREATED");
        reveal_strlit("_START");
        reveal_strlit("_INITIATED");
    }
    if ends_with_str(k, "_CREATED") {
        Some(slice(k, 0, k.len() - 8))
    } else if ends_with_str(k, "_START") {
        Some(slice(k, 0, k.len() - 6))
    } else if ends_with_str(k, "_INITIATED") {
        Some(slice(k, 0, k.len() - 10))
    } else {
        None
    }
}

/// Links every `X_CREATED`, `X_START` or `X_INITIATED` event to its success
/// and failure events (see `link_sagas`).
pub fn link_saga_events(graph: &mut AsyncFlowGraph)
    ensures
        final(graph)@ == (AsyncFlowView { events: link_sagas(old(graph)@.events), ..old(graph)@ }),
{
    let ghost g0 = graph@;
    let n = graph.events.len();
    let mut keys: Vec<String> = Vec::new();
    let mut i: usize = 0;
    while i < n
        invariant
            n == graph.events.spec_len(),
            graph@ == g0,
            0 <= i <= n,
            views(keys@) == event_keys(g0.events).take(i as int),
        decreases n - i,
    {
        let k = graph.events.key(i).clone();
        let ghost before = views(keys@);
        keys.push(k);
        assert(views(keys@) =~= before.push(event_keys(g0.events)[i as int]));
        assert(event_keys(g0.events).take(i + 1) =~= event_keys(g0.events).take(i as int).push(
            event_keys(g0.events)[i as int],
        ));
        i = i + 1;
    }
    assert(event_keys(g0.events).take(n as int) =~= event_keys(g0.events));
    let mut i: usize = 0;
    while i < n
        invariant
            n == g0.events.len(),
            views(keys@) == event_keys(g0.events),
            0 <= i <= n,
            graph@.jobs == g0.jobs,
            graph@.consumer_to_target == g0.consumer_to_target,
            graph@.events.len() == n,
            forall|j: int| 0 <= j < i ==> #[trigger] graph@.events[j] == link_sagas(g0.events)[j],
            forall|j: int| i <= j < n ==> #[trigger] graph@.events[j] == g0.events[j],
        decreases n - i,
    {
        assert(graph.events.spec_len() == graph@.events.len());
        let kc = chars_of(graph.events.key(i).as_str());
        assert(kc@ == graph@.events[i as int].0);
        assert(kc@ == g0.events[i as int].0);
        match saga_base_exec(&kc) {
            Some(b) => {
                let succ = pick_key_exec(&keys, &b, "_SUCCESSFULL", "_SUCCESS");
                let fail = pick_key_exec(&keys, &b, "_FAILED", "_FAILURE");
                graph.set_event_sagas(i, succ, fail);
            },
            None => {},
        }
        i = i + 1;
    }
    assert(graph@.events =~= link_sagas(g0.events));
}


/// A list of files as (path, content) text.
pub open spec fn files_view(v: Seq<(String, String)>) -> Seq<(Seq<char>, Seq<char>)> {
    v.map_values(|f: (String, String)| (f.0@, f.1@))
}

/// The graph after scanning each messaging file in turn.
pub open spec fn scan_all_definitions(g: AsyncFlowView, files: Seq<(Seq<char>, Seq<char>)>) -> AsyncFlowView
    decreases files.len(),
{
    if files.len() == 0 {
        g
    } else {
        scan_definitions(scan_all_definitions(g, files.drop_last()), files.last().0, files.last().1)
    }
}

/// The graph after scanning each source file in turn.
pub open spec fn scan_all_sources(g: AsyncFlowView, files: Seq<(Seq<char>, Seq<char>)>) -> AsyncFlowView
    decreases files.len(),
{
    if files.len() == 0 {
        g
    } else {
        scan_source(scan_all_sources(g, files.drop_last()), files.last().0, files.last().1)
    }
}

/// The empty graph.
pub open spec fn empty_flow() -> AsyncFlowView {
    AsyncFlowView { events: seq![], jobs: seq![], consumer_to_target: seq![] }
}

/// The asynchronous flow graph of a code base: the messaging definitions
/// first, then every source file, then the saga links.
pub open spec fn async_flow_of(
    definitions: Seq<(Seq<char>, Seq<char>)>,
    sources: Seq<(Seq<char>, Seq<char>)>,
) -> AsyncFlowView {
    let g = scan_all_sources(scan_all_definitions(empty_flow(), definitions), sources);
    AsyncFlowView { events: link_sagas(g.events), ..g }
}

/// Every source file can be scanned.
pub open spec fn sources_ok(sources: Seq<(Seq<char>, Seq<char>)>) -> bool {
    forall|i: int| 0 <= i < sources.len() ==> #[trigger] source_ok(sources[i].0, sources[i].1)
}

/// Builds the asynchronous flow graph from the files of the messaging
/// package (`definition_files`) and the files of the whole code base
/// (`source_files`), each given as (path relative to the workspace, content).
/// `None` when a source would cut a snippet inside a character.
pub fn scan_async_flow(
    definition_files: &Vec<(String, String)>,
    source_files: &Vec<(String, String)>,
) -> (r: Option<AsyncFlowGraph>)
    ensures
        r is Some <==> sources_ok(files_view(source_files@)),
        r matches Some(g) ==> g@ == async_flow_of(files_view(definition_files@), files_view(source_files@)),
        r matches Some(g) ==> reverse_index_closed(g),
        r matches Some(g) ==> crate::infrastructure::scanners::async_links::flow_sound(g@),
{
    let ghost srcs = files_view(source_files@);
    let ghost defs = files_view(definition_files@);
    let mut i: usize = 0;
    while i < source_files.len()
        invariant
            srcs == files_view(source_files@),
            0 <= i <= source_files@.len(),
            forall|j: int| 0 <= j < i ==> #[trigger] source_ok(srcs[j].0, srcs[j].1),
        decreases source_files@.len() - i,
    {
        let f = &source_files[i];
        assert(srcs[i as int] == (f.0@, f.1@));
        if !source_ok_exec(f.0.as_str(), f.1.as_str()) {
            assert(!sources_ok(srcs)) by {
                assert(!source_ok(srcs[i as int].0, srcs[i as int].1));
            }
            return None;
        }
        i = i + 1;
    }
    let mut graph = AsyncFlowGraph::new();
    assert(graph@ == empty_flow()) by {
        assert(graph@.events =~= seq![]);
        assert(graph@.jobs =~= seq![]);
        assert(graph@.consumer_to_target =~= seq![]);
    }
    let mut i: usize = 0;
    while i < definition_files.len()
        invariant
            defs == files_view(definition_files@),
            0 <= i <= definition_files@.len(),
            graph@ == scan_all_definitions(empty_flow(), defs.take(i as int)),
        decreases definition_files@.len() - i,
    {
        let f = &definition_files[i];
        assert(defs.take(i + 1).drop_last() =~= defs.take(i as int));
        assert(defs.take(i + 1).last() == (f.0@, f.1@));
        scan_definition_file(&mut graph, f.0.as_str(), f.1.as_str());
        i = i + 1;
    }
    assert(defs.take(i as int) =~= defs);
    let ghost g1 = graph@;
    let mut i: usize = 0;
    while i < source_files.len()
        invariant
            srcs == files_view(source_files@),
            sources_ok(srcs),
            0 <= i <= source_files@.len(),
            graph@ == scan_all_sources(g1, srcs.take(i as int)),
        decreases source_files@.len() - i,
    {
        let f = &source_files[i];
        assert(srcs.take(i + 1).drop_last() =~= srcs.take(i as int));
        assert(srcs.take(i + 1).last() == (f.0@, f.1@));
        assert(source_ok(srcs[i as int].0, srcs[i as int].1));
        scan_source_file(&mut graph, f.0.as_str(), f.1.as_str());
        i = i + 1;
    }
    assert(srcs.take(i as int) =~= srcs);
    link_saga_events(&mut graph);
    proof {
        crate::infrastructure::scanners::async_laws::lemma_scanned_reverse_index_closed(defs, srcs);
        crate::infrastructure::scanners::async_laws::lemma_view_closed(graph);
        crate::infrastructure::scanners::async_links::lemma_scanned_flow_sound(defs, srcs);
    }
    Some(graph)
}

} // verus!
