//! What every step of the asynchronous scan keeps: events and jobs are
//! never lost, and the reverse index only names events and jobs of the
//! graph.
use vstd::prelude::*;

use crate::domain::async_flow::{AsyncFlowGraph, AsyncFlowView};
use crate::engine::impact_engine::reverse_index_closed;
use crate::infrastructure::scanners::async_scanner::{
    async_flow_of, consume_events, define_events, define_jobs, emit_events, emit_jobs, empty_flow, event_keys,
    fallback_jobs, handle_jobs, lemma_saga_links_name_events, link_sagas, register_events, register_jobs,
    scan_all_definitions, scan_all_sources, scan_definitions, scan_source,
};
use crate::infrastructure::scanners::async_scanner::{
    first_event_match, handled_job, in_events_dir, in_jobs_dir, is_ts_source, job_type_field, payload_stem,
    CREATE_EVENT, CREATE_EVENT_ANY, CREATE_JOB_ANY, ENUM_ENTRY, FALLBACK_TARGET, JOB_HANDLER, JOB_TARGET,
    POST_PROCESSOR, REGISTRY_ENTRY,
};
use crate::pattern::{cap_text, group, has_match, regex_captures, Span};
use crate::text::{last_piece, trim};
use crate::strmap::{al_find, al_get_or, al_set, lemma_al_from_bounds};

verus! {

/// The keys of an association list, in order.
pub open spec fn al_keys<W>(s: Seq<(Seq<char>, W)>) -> Seq<Seq<char>> {
    s.map_values(|p: (Seq<char>, W)| p.0)
}

/// Every target that the reverse index lists is among `events` or `jobs`.
pub open spec fn targets_within(
    ctt: Seq<(Seq<char>, Seq<Seq<char>>)>,
    events: Seq<Seq<char>>,
    jobs: Seq<Seq<char>>,
) -> bool {
    forall|i: int, j: int|
        0 <= i < ctt.len() && 0 <= j < ctt[i].1.len() ==> events.contains(#[trigger] ctt[i].1[j]) || jobs.contains(
            ctt[i].1[j],
        )
}

/// Every target listed in the reverse index is the key of an event or of a job.
pub open spec fn targets_closed(g: AsyncFlowView) -> bool {
    targets_within(g.consumer_to_target, al_keys(g.events), al_keys(g.jobs))
}

/// `h` holds every event and every job of `g`.
pub open spec fn keeps_keys(g: AsyncFlowView, h: AsyncFlowView) -> bool {
    &&& forall|q: Seq<char>| al_keys(g.events).contains(q) ==> #[trigger] al_keys(h.events).contains(q)
    &&& forall|q: Seq<char>| al_keys(g.jobs).contains(q) ==> #[trigger] al_keys(h.jobs).contains(q)
}

/// Setting a key, whatever the value, keeps the other keys and adds that one.
pub(crate) proof fn lemma_al_set_keys<W>()
    ensures
        forall|s: Seq<(Seq<char>, W)>, k: Seq<char>, v: W, q: Seq<char>|
            al_keys(s).contains(q) ==> #[trigger] al_keys(al_set(s, k, v)).contains(q),
        forall|s: Seq<(Seq<char>, W)>, k: Seq<char>, v: W| #[trigger] al_keys(al_set(s, k, v)).contains(k),
{
    assert forall|s: Seq<(Seq<char>, W)>, k: Seq<char>, v: W, q: Seq<char>|
        al_keys(s).contains(q) implies #[trigger] al_keys(al_set(s, k, v)).contains(q) by {
        lemma_al_set_keys_at(s, k, v);
    }
    assert forall|s: Seq<(Seq<char>, W)>, k: Seq<char>, v: W| #[trigger] al_keys(al_set(s, k, v)).contains(k) by {
        lemma_al_set_keys_at(s, k, v);
    }
}

pub(crate) proof fn lemma_al_set_keys_at<W>(s: Seq<(Seq<char>, W)>, k: Seq<char>, v: W)
    ensures
        al_keys(al_set(s, k, v)).contains(k),
        forall|q: Seq<char>| al_keys(s).contains(q) ==> #[trigger] al_keys(al_set(s, k, v)).contains(q),
{
    lemma_al_from_bounds(s, k, 0);
    let i = al_find(s, k);
    let t = al_set(s, k, v);
    if i < s.len() {
        assert(al_keys(t) =~= al_keys(s));
        assert(al_keys(t)[i] == k);
    } else {
        assert(al_keys(t) =~= al_keys(s).push(k));
        assert(al_keys(t)[s.len() as int] == k);
        assert forall|q: Seq<char>| al_keys(s).contains(q) implies #[trigger] al_keys(t).contains(q) by {
            let j = choose|j: int| 0 <= j < al_keys(s).len() && al_keys(s)[j] == q;
            assert(al_keys(t)[j] == q);
        }
    }
}

/// Adding `target` to the targets of `class` keeps the reverse index within
/// keys that hold `target`.
proof fn lemma_add_target(
    ctt: Seq<(Seq<char>, Seq<Seq<char>>)>,
    events: Seq<Seq<char>>,
    jobs: Seq<Seq<char>>,
    class: Seq<char>,
    target: Seq<char>,
)
    requires
        targets_within(ctt, events, jobs),
        events.contains(target) || jobs.contains(target),
    ensures
        targets_within(al_set(ctt, class, al_get_or(ctt, class, seq![]).push(target)), events, jobs),
{
    lemma_al_from_bounds(ctt, class, 0);
    let p = al_find(ctt, class);
    let old_list = al_get_or(ctt, class, seq![]);
    let t = al_set(ctt, class, old_list.push(target));
    assert forall|i: int, j: int| 0 <= i < t.len() && 0 <= j < t[i].1.len() implies events.contains(
        #[trigger] t[i].1[j],
    ) || jobs.contains(t[i].1[j]) by {
        if i == p || (p == ctt.len() && i == ctt.len()) {
            if j < old_list.len() {
                assert(p < ctt.len());
                assert(t[i].1[j] == ctt[p].1[j]);
            }
        } else {
            assert(t[i] == ctt[i]);
        }
    }
}

/// Keys that `b` holds and `c` keeps are kept from `a` to `c`.
proof fn lemma_keeps_trans(a: AsyncFlowView, b: AsyncFlowView, c: AsyncFlowView)
    requires
        keeps_keys(a, b),
        keeps_keys(b, c),
    ensures
        keeps_keys(a, c),
{
}

/// Targets within some keys stay within more keys.
proof fn lemma_within_more(g: AsyncFlowView, h: AsyncFlowView)
    requires
        targets_closed(g),
        keeps_keys(g, h),
    ensures
        targets_within(g.consumer_to_target, al_keys(h.events), al_keys(h.jobs)),
{
    assert forall|i: int, j: int|
        0 <= i < g.consumer_to_target.len() && 0 <= j < g.consumer_to_target[i].1.len() implies al_keys(
        h.events,
    ).contains(#[trigger] g.consumer_to_target[i].1[j]) || al_keys(h.jobs).contains(g.consumer_to_target[i].1[j]) by {
        let t = g.consumer_to_target[i].1[j];
        if al_keys(g.events).contains(t) {
            assert(al_keys(h.events).contains(t));
        } else {
            assert(al_keys(h.jobs).contains(t));
        }
    }
}

/// A step that keeps events and jobs and leaves the reverse index as it
/// was keeps it closed.
proof fn lemma_closed_kept(g: AsyncFlowView, h: AsyncFlowView)
    requires
        targets_closed(g),
        keeps_keys(g, h),
        h.consumer_to_target == g.consumer_to_target,
    ensures
        targets_closed(h),
{
    lemma_within_more(g, h);
}

proof fn lemma_define_events(g: AsyncFlowView, path: Seq<char>, c: Seq<char>, caps: Seq<Seq<Span>>)
    ensures
        keeps_keys(g, define_events(g, path, c, caps)),
        define_events(g, path, c, caps).consumer_to_target == g.consumer_to_target,
    decreases caps.len(),
{
    lemma_al_set_keys::<crate::domain::async_flow::EventView>();
    if caps.len() > 0 {
        lemma_define_events(g, path, c, caps.drop_last());
    }
}

proof fn lemma_define_jobs(g: AsyncFlowView, path: Seq<char>, c: Seq<char>, caps: Seq<Seq<Span>>)
    ensures
        keeps_keys(g, define_jobs(g, path, c, caps)),
        define_jobs(g, path, c, caps).consumer_to_target == g.consumer_to_target,
    decreases caps.len(),
{
    lemma_al_set_keys::<crate::domain::async_flow::JobView>();
    if caps.len() > 0 {
        lemma_define_jobs(g, path, c, caps.drop_last());
    }
}

proof fn lemma_register_events(g: AsyncFlowView, c: Seq<char>, caps: Seq<Seq<Span>>)
    ensures
        keeps_keys(g, register_events(g, c, caps)),
        register_events(g, c, caps).consumer_to_target == g.consumer_to_target,
    decreases caps.len(),
{
    lemma_al_set_keys::<crate::domain::async_flow::EventView>();
    if caps.len() > 0 {
        lemma_register_events(g, c, caps.drop_last());
    }
}

proof fn lemma_register_jobs(g: AsyncFlowView, c: Seq<char>, caps: Seq<Seq<Span>>)
    ensures
        keeps_keys(g, register_jobs(g, c, caps)),
        register_jobs(g, c, caps).consumer_to_target == g.consumer_to_target,
    decreases caps.len(),
{
    lemma_al_set_keys::<crate::domain::async_flow::JobView>();
    if caps.len() > 0 {
        lemma_register_jobs(g, c, caps.drop_last());
    }
}

proof fn lemma_emit_events(g: AsyncFlowView, path: Seq<char>, c: Seq<char>, caps: Seq<Seq<Span>>)
    ensures
        keeps_keys(g, emit_events(g, path, c, caps)),
        emit_events(g, path, c, caps).consumer_to_target == g.consumer_to_target,
    decreases caps.len(),
{
    lemma_al_set_keys::<crate::domain::async_flow::EventView>();
    if caps.len() > 0 {
        lemma_emit_events(g, path, c, caps.drop_last());
    }
}

proof fn lemma_emit_jobs(g: AsyncFlowView, path: Seq<char>, c: Seq<char>, caps: Seq<Seq<Span>>)
    ensures
        keeps_keys(g, emit_jobs(g, path, c, caps)),
        emit_jobs(g, path, c, caps).consumer_to_target == g.consumer_to_target,
    decreases caps.len(),
{
    lemma_al_set_keys::<crate::domain::async_flow::JobView>();
    if caps.len() > 0 {
        lemma_emit_jobs(g, path, c, caps.drop_last());
    }
}

proof fn lemma_fallback_jobs(g: AsyncFlowView, path: Seq<char>, c: Seq<char>, caps: Seq<Seq<Span>>)
    ensures
        keeps_keys(g, fallback_jobs(g, path, c, caps)),
        fallback_jobs(g, path, c, caps).consumer_to_target == g.consumer_to_target,
    decreases caps.len(),
{
    lemma_al_set_keys::<crate::domain::async_flow::JobView>();
    if caps.len() > 0 {
        lemma_fallback_jobs(g, path, c, caps.drop_last());
    }
}

proof fn lemma_consume_events(g: AsyncFlowView, path: Seq<char>, c: Seq<char>, caps: Seq<Seq<Span>>)
    requires
        targets_closed(g),
    ensures
        keeps_keys(g, consume_events(g, path, c, caps)),
        targets_closed(consume_events(g, path, c, caps)),
    decreases caps.len(),
{
    lemma_al_set_keys::<crate::domain::async_flow::EventView>();
    if caps.len() > 0 {
        lemma_consume_events(g, path, c, caps.drop_last());
        let g0 = consume_events(g, path, c, caps.drop_last());
        let r = consume_events(g, path, c, caps);
        let cap = caps.last();
        match (group(cap, 0), cap_text(c, cap, 1), cap_text(c, cap, 2), cap_text(c, cap, 3)) {
            (Some(m), Some(class), Some(kind), Some(pay)) => {
                let short = last_piece(trim(pay), '.');
                let target = match first_event_match(g0.events, short, 0) {
                    Some(k) => k,
                    None => payload_stem(short),
                };
                assert(al_keys(r.events).contains(target));
                lemma_within_more(g0, r);
                lemma_add_target(g0.consumer_to_target, al_keys(r.events), al_keys(r.jobs), class, target);
            },
            _ => {},
        }
    }
}

proof fn lemma_handle_jobs(g: AsyncFlowView, path: Seq<char>, c: Seq<char>, caps: Seq<Seq<Span>>)
    requires
        targets_closed(g),
    ensures
        keeps_keys(g, handle_jobs(g, path, c, caps)),
        targets_closed(handle_jobs(g, path, c, caps)),
    decreases caps.len(),
{
    lemma_al_set_keys::<crate::domain::async_flow::JobView>();
    if caps.len() > 0 {
        lemma_handle_jobs(g, path, c, caps.drop_last());
        let g0 = handle_jobs(g, path, c, caps.drop_last());
        let r = handle_jobs(g, path, c, caps);
        let cap = caps.last();
        match (group(cap, 0), cap_text(c, cap, 1), cap_text(c, cap, 2)) {
            (Some(m), Some(class), Some(pay)) => {
                let short = last_piece(trim(pay), '.');
                let target = handled_job(g0.jobs, job_type_field(c), short);
                assert(al_keys(r.jobs).contains(target));
                lemma_within_more(g0, r);
                lemma_add_target(g0.consumer_to_target, al_keys(r.events), al_keys(r.jobs), class, target);
            },
            _ => {},
        }
    }
}

proof fn lemma_scan_definitions(g: AsyncFlowView, path: Seq<char>, c: Seq<char>)
    ensures
        keeps_keys(g, scan_definitions(g, path, c)),
        scan_definitions(g, path, c).consumer_to_target == g.consumer_to_target,
{
    let ee = regex_captures(ENUM_ENTRY@, c);
    let re = regex_captures(REGISTRY_ENTRY@, c);
    let g1 = if in_events_dir(path) {
        lemma_define_events(g, path, c, ee);
        lemma_register_events(define_events(g, path, c, ee), c, re);
        lemma_keeps_trans(g, define_events(g, path, c, ee), register_events(define_events(g, path, c, ee), c, re));
        register_events(define_events(g, path, c, ee), c, re)
    } else {
        g
    };
    if in_jobs_dir(path) {
        lemma_define_jobs(g1, path, c, ee);
        lemma_register_jobs(define_jobs(g1, path, c, ee), c, re);
        lemma_keeps_trans(g1, define_jobs(g1, path, c, ee), register_jobs(define_jobs(g1, path, c, ee), c, re));
        lemma_keeps_trans(g, g1, register_jobs(define_jobs(g1, path, c, ee), c, re));
    }
}

proof fn lemma_scan_source(g: AsyncFlowView, path: Seq<char>, c: Seq<char>)
    requires
        targets_closed(g),
    ensures
        keeps_keys(g, scan_source(g, path, c)),
        targets_closed(scan_source(g, path, c)),
{
    if is_ts_source(path) {
        let g1 = if has_match(CREATE_EVENT_ANY@, c) {
            lemma_emit_events(g, path, c, regex_captures(CREATE_EVENT@, c));
            emit_events(g, path, c, regex_captures(CREATE_EVENT@, c))
        } else {
            g
        };
        lemma_closed_kept(g, g1);
        let g2 = if has_match(CREATE_JOB_ANY@, c) {
            let e = emit_jobs(g1, path, c, regex_captures(JOB_TARGET@, c));
            lemma_emit_jobs(g1, path, c, regex_captures(JOB_TARGET@, c));
            lemma_fallback_jobs(e, path, c, regex_captures(FALLBACK_TARGET@, c));
            lemma_keeps_trans(g1, e, fallback_jobs(e, path, c, regex_captures(FALLBACK_TARGET@, c)));
            fallback_jobs(e, path, c, regex_captures(FALLBACK_TARGET@, c))
        } else {
            g1
        };
        lemma_closed_kept(g1, g2);
        lemma_keeps_trans(g, g1, g2);
        let g3 = consume_events(g2, path, c, regex_captures(POST_PROCESSOR@, c));
        lemma_consume_events(g2, path, c, regex_captures(POST_PROCESSOR@, c));
        lemma_handle_jobs(g3, path, c, regex_captures(JOB_HANDLER@, c));
        lemma_keeps_trans(g2, g3, handle_jobs(g3, path, c, regex_captures(JOB_HANDLER@, c)));
        lemma_keeps_trans(g, g2, handle_jobs(g3, path, c, regex_captures(JOB_HANDLER@, c)));
    }
}

proof fn lemma_scan_all_definitions(g: AsyncFlowView, files: Seq<(Seq<char>, Seq<char>)>)
    ensures
        scan_all_definitions(g, files).consumer_to_target == g.consumer_to_target,
    decreases files.len(),
{
    if files.len() > 0 {
        lemma_scan_all_definitions(g, files.drop_last());
        lemma_scan_definitions(scan_all_definitions(g, files.drop_last()), files.last().0, files.last().1);
    }
}

proof fn lemma_scan_all_sources(g: AsyncFlowView, files: Seq<(Seq<char>, Seq<char>)>)
    requires
        targets_closed(g),
    ensures
        targets_closed(scan_all_sources(g, files)),
    decreases files.len(),
{
    if files.len() > 0 {
        lemma_scan_all_sources(g, files.drop_last());
        lemma_scan_source(scan_all_sources(g, files.drop_last()), files.last().0, files.last().1);
    }
}

/// In every graph that the asynchronous scan builds, the reverse index only
/// lists targets that are events or jobs of the graph: a consumer class
/// always leads to something that the impact query finds.
pub proof fn lemma_scanned_reverse_index_closed(
    definitions: Seq<(Seq<char>, Seq<char>)>,
    sources: Seq<(Seq<char>, Seq<char>)>,
)
    ensures
        targets_closed(async_flow_of(definitions, sources)),
{
    let d = scan_all_definitions(empty_flow(), definitions);
    lemma_scan_all_definitions(empty_flow(), definitions);
    assert(targets_closed(d));
    let g = scan_all_sources(d, sources);
    lemma_scan_all_sources(d, sources);
    let h = async_flow_of(definitions, sources);
    lemma_saga_links_name_events(g.events);
    assert(al_keys(h.events) =~= event_keys(link_sagas(g.events)));
    assert(al_keys(g.events) =~= event_keys(g.events));
    lemma_closed_kept(g, h);
}

proof fn lemma_key_in_map<V, W>(m: crate::strmap::StrMap<V>, s: Seq<(Seq<char>, W)>, t: Seq<char>)
    requires
        s.len() == m.spec_len(),
        forall|i: int| 0 <= i < s.len() ==> #[trigger] s[i].0 == m.key_at(i),
        al_keys(s).contains(t),
    ensures
        m.has(t),
{
    let i = choose|i: int| 0 <= i < al_keys(s).len() && al_keys(s)[i] == t;
    assert(s[i].0 == t);
    m.lemma_first_from_bounds(t, 0);
}

/// A graph whose view has a closed reverse index has a closed reverse
/// index: every listed target is the key of an event or a job of the maps.
pub proof fn lemma_view_closed(g: AsyncFlowGraph)
    requires
        targets_closed(g@),
    ensures
        reverse_index_closed(g),
{
    assert forall|i: int, j: int|
        0 <= i < g.consumer_to_target.spec_len() && 0 <= j < g.consumer_to_target.val_at(i)@.len() implies g.events.has(
        #[trigger] g.consumer_to_target.val_at(i)@[j]@,
    ) || g.jobs.has(g.consumer_to_target.val_at(i)@[j]@) by {
        let t = g.consumer_to_target.val_at(i)@[j]@;
        assert(g@.consumer_to_target[i].1[j] == t);
        if al_keys(g@.events).contains(t) {
            lemma_key_in_map(g.events, g@.events, t);
        } else {
            lemma_key_in_map(g.jobs, g@.jobs, t);
        }
    }
}

} // verus!
