//! The impact report of an asynchronous flow: which events and jobs a name
//! designates, who emits and who consumes them, and, for a consumer class,
//! what it depends on.
use vstd::prelude::*;

use crate::domain::async_flow::{AsyncFlowGraph, ConsumerEndpoint, EventNode, FlowEndpoint, JobNode};
use crate::std_text::{lower, string_from_chars, to_lowercase, to_uppercase, upper};
use crate::strmap::views;
use crate::text::{
    chars_of, concat_map, contains, contains_seq, dec, opt_line, push_opt_line, push_seq, push_str, seq_eq,
    usize_dec,
};

verus! {

// ---------------------------------------------------------------------------
// The report, as a specification
// ---------------------------------------------------------------------------

/// The name designates this key: the upper-cased key contains the upper-cased name.
pub open spec fn key_matches(key: Seq<char>, target: Seq<char>) -> bool {
    contains(upper(key), upper(target))
}

/// The name designates this bus or queue value: the lower-cased value contains
/// the lower-cased name.
pub open spec fn raw_matches(raw: Option<String>, target: Seq<char>) -> bool {
    match raw {
        Some(r) => contains(lower(r@), lower(target)),
        None => false,
    }
}

/// The event at position `i` is designated by `target`.
pub open spec fn event_hit(g: AsyncFlowGraph, i: int, target: Seq<char>) -> bool {
    key_matches(g.events.key_at(i), target) || raw_matches(g.events.val_at(i).raw_value, target)
}

/// The job at position `i` is designated by `target`.
pub open spec fn job_hit(g: AsyncFlowGraph, i: int, target: Seq<char>) -> bool {
    key_matches(g.jobs.key_at(i), target) || raw_matches(g.jobs.val_at(i).raw_value, target)
}

/// Some event or job is designated by `target`.
pub open spec fn direct_found(g: AsyncFlowGraph, target: Seq<char>) -> bool {
    (exists|i: int| 0 <= i < g.events.spec_len() && event_hit(g, i, target)) || (exists|i: int|
        0 <= i < g.jobs.spec_len() && job_hit(g, i, target))
}

pub open spec fn rule() -> Seq<char> {
    "================================================================================\n"@
}

/// The two lines that list the `i`-th emitter.
pub open spec fn producer_lines(i: int, p: FlowEndpoint) -> Seq<char> {
    "   "@ + dec((i + 1) as nat) + ". ["@ + p.service@ + "] "@ + p.pattern@ + "\n"@
        + "      Fichier : "@ + p.file_path@ + ":"@ + dec(p.line_number as nat) + "\n"@
}

/// The two lines that list the `i`-th event consumer.
pub open spec fn consumer_lines(i: int, c: ConsumerEndpoint) -> Seq<char> {
    "   "@ + dec((i + 1) as nat) + ". ["@ + c.service@ + "] "@ + c.handler_class@ + " ("@
        + c.processing_type@ + ")\n"@ + "      Fichier : "@ + c.file_path@ + ":"@ + dec(
        c.line_number as nat,
    ) + "\n"@
}

/// The two lines that list the `i`-th job handler.
pub open spec fn handler_lines(i: int, c: ConsumerEndpoint) -> Seq<char> {
    "   "@ + dec((i + 1) as nat) + ". ["@ + c.service@ + "] "@ + c.handler_class@ + "\n"@
        + "      Fichier : "@ + c.file_path@ + ":"@ + dec(c.line_number as nat) + "\n"@
}

/// The list of emitters, or the line that says there is none.
pub open spec fn producers_text(ps: Seq<FlowEndpoint>, none: Seq<char>) -> Seq<char> {
    if ps.len() == 0 {
        none
    } else {
        concat_map(ps.len(), |i: int| producer_lines(i, ps[i]))
    }
}

/// The saga triad, when the event has a success or a failure event.
pub open spec fn saga_text(ev: EventNode) -> Seq<char> {
    if ev.saga_success is Some || ev.saga_failure is Some {
        "\n🔄 Triade de Saga (Chorégraphie & Compensations) :\n"@ + opt_line(
            "   - Succès (Commit -> SagaStatus.DONE)   : "@,
            ev.saga_success,
            "\n"@,
        ) + opt_line("   - Échec  (Rollback -> SagaStatus.CANCEL): "@, ev.saga_failure, "\n"@)
    } else {
        seq![]
    }
}

/// Title and contract lines of an event section.
pub open spec fn event_head(key: Seq<char>, ev: EventNode) -> Seq<char> {
    rule() + "⚡ ÉVÉNEMENT DISTRIBUÉ : "@ + key + "\n"@ + opt_line("   Valeur Bus : '"@, ev.raw_value, "'\n"@)
        + rule() + "📜 Contrat & Payload :\n"@ + opt_line(
        "   - Interface Payload : "@,
        ev.payload_interface,
        "\n"@,
    ) + opt_line("   - Définition : "@, ev.definition_file, "\n"@) + opt_line(
        "   - Stream Redis : "@,
        ev.stream,
        "\n"@,
    )
}

/// Emitters and consumers of an event.
pub open spec fn event_flows(ev: EventNode) -> Seq<char> {
    "\n🚀 Émetteur(s) (Amont / Producers) : "@ + dec(ev.producers@.len()) + "\n"@ + producers_text(
        ev.producers@,
        "   (Aucun émetteur direct détecté via EventQueueEntity)\n"@,
    ) + "\n⚡ Consommateur(s) (Aval / Consumers) : "@ + dec(ev.consumers@.len()) + "\n"@ + (if ev.consumers@.len()
        == 0 {
        "   (Aucun post-processor ou listener direct détecté)\n"@
    } else {
        concat_map(ev.consumers@.len(), |i: int| consumer_lines(i, ev.consumers@[i]))
    })
}

/// Saga triad and WebSocket broadcast of an event, then a blank line.
pub open spec fn event_tail(ev: EventNode) -> Seq<char> {
    saga_text(ev) + opt_line(
        "\n📡 Broadcast WebSocket Mobile (Scatter-Gather) : "@,
        ev.websocket_event,
        "\n"@,
    ) + "\n"@
}

/// The section of the report about one event.
pub open spec fn event_block(key: Seq<char>, ev: EventNode) -> Seq<char> {
    event_head(key, ev) + event_flows(ev) + event_tail(ev)
}

/// Title and contract lines of a job section.
pub open spec fn job_head(key: Seq<char>, job: JobNode) -> Seq<char> {
    rule() + "💼 TÂCHE ASYNCHRONE / JOB (BullMQ) : "@ + key + "\n"@ + opt_line(
        "   Valeur Queue : '"@,
        job.raw_value,
        "'\n"@,
    ) + rule() + "📜 Contrat & Payload :\n"@ + opt_line(
        "   - Interface Payload : "@,
        job.payload_interface,
        "\n"@,
    ) + opt_line("   - Définition : "@, job.definition_file, "\n"@)
}

/// Creators and handlers of a job, then a blank line.
pub open spec fn job_flows(job: JobNode) -> Seq<char> {
    "\n🚀 Émetteur(s) (Amont / Producers) : "@ + dec(job.producers@.len()) + "\n"@ + producers_text(
        job.producers@,
        "   (Aucun émetteur direct via JobsOutboxEntity)\n"@,
    ) + "\n⚙️ Worker Handler(s) (Aval / Executeurs) : "@ + dec(job.handlers@.len()) + "\n"@ + (if job.handlers@.len()
        == 0 {
        "   (Aucun IJobHandler détecté)\n"@
    } else {
        concat_map(job.handlers@.len(), |i: int| handler_lines(i, job.handlers@[i]))
    }) + "\n"@
}

/// The section of the report about one job.
pub open spec fn job_block(key: Seq<char>, job: JobNode) -> Seq<char> {
    job_head(key, job) + job_flows(job)
}

/// The sections for the designated events, then for the designated jobs.
pub open spec fn direct_text(g: AsyncFlowGraph, target: Seq<char>) -> Seq<char> {
    concat_map(
        g.events.spec_len(),
        |i: int|
            if event_hit(g, i, target) {
                event_block(g.events.key_at(i), g.events.val_at(i))
            } else {
                seq![]
            },
    ) + concat_map(
        g.jobs.spec_len(),
        |i: int|
            if job_hit(g, i, target) {
                job_block(g.jobs.key_at(i), g.jobs.val_at(i))
            } else {
                seq![]
            },
    )
}

/// The answer when nothing is designated.
pub open spec fn not_found_text(target: Seq<char>) -> Seq<char> {
    "Aucun événement, job ou post-processor ne correspond à '"@ + target
        + "' dans le graphe causal."@
}

/// The consumer classes of the reverse index.
pub open spec fn consumer_classes(g: AsyncFlowGraph) -> Set<Seq<char>> {
    g.consumer_to_target.key_seq().to_set()
}

/// How many consumer classes the query has not passed through yet.
pub open spec fn classes_left(g: AsyncFlowGraph, path: Set<Seq<char>>) -> nat {
    consumer_classes(g).difference(path).len()
}

/// The report for `target`, reached through the consumer classes `path`:
/// the sections of the events and jobs it designates; when there is none
/// but it is a consumer class, a header and the report of each of its
/// targets in turn; otherwise a sentence that nothing matches. `None` when
/// the query comes back to a class of `path`, where it would never end.
pub open spec fn impact_from(g: AsyncFlowGraph, target: Seq<char>, path: Set<Seq<char>>) -> Option<Seq<char>>
    decreases classes_left(g, path), 0nat, 0nat,
{
    if direct_found(g, target) {
        Some(direct_text(g, target))
    } else {
        match g.consumer_to_target.spec_get(target) {
            Some(ts) => if path.contains(target) {
                None
            } else {
                proof {
                    lemma_classes_left_drops(g, target, path);
                }
                match targets_from(g, views(ts@), ts@.len() as nat, path.insert(target)) {
                    Some(body) => Some(
                        "🔍 Classe consommatrice '"@ + target + "' identifiée. Dépendance vers :\n"@ + body,
                    ),
                    None => None,
                }
            },
            None => Some(not_found_text(target)),
        }
    }
}

/// The reports of the first `n` targets `xs`, each after its `Target` line.
pub open spec fn targets_from(g: AsyncFlowGraph, xs: Seq<Seq<char>>, n: nat, path: Set<Seq<char>>) -> Option<
    Seq<char>,
>
    decreases classes_left(g, path), 1nat, n,
{
    if n == 0 || n > xs.len() {
        Some(seq![])
    } else {
        match (targets_from(g, xs, (n - 1) as nat, path), impact_from(g, xs[n - 1], path)) {
            (Some(a), Some(b)) => Some(a + "   - Target : "@ + xs[n - 1] + "\n"@ + b),
            _ => None,
        }
    }
}

/// Passing through one more consumer class leaves fewer classes to pass.
pub proof fn lemma_classes_left_drops(g: AsyncFlowGraph, target: Seq<char>, path: Set<Seq<char>>)
    requires
        g.consumer_to_target.has(target),
        !path.contains(target),
    ensures
        classes_left(g, path.insert(target)) < classes_left(g, path),
{
    broadcast use vstd::set::group_set_axioms, vstd::seq_lib::seq_to_set_is_finite;
    let i = g.consumer_to_target.index_of(target);
    g.consumer_to_target.lemma_first_from_bounds(target, 0);
    assert(g.consumer_to_target.key_seq()[i] == target);
    assert(consumer_classes(g).contains(target));
    let d = consumer_classes(g).difference(path);
    assert(consumer_classes(g).difference(path.insert(target)) =~= d.remove(target));
    assert(d.contains(target));
}

/// The query for `target` ends: following consumer classes from `target`
/// never comes back to a class already passed through.
pub open spec fn impact_query_resolves(g: AsyncFlowGraph, target: Seq<char>) -> bool {
    impact_from(g, target, Set::empty()) is Some
}

/// The report of `query_impact` for `target` (where the query ends).
pub open spec fn impact_report(g: AsyncFlowGraph, target: Seq<char>) -> Seq<char> {
    impact_from(g, target, Set::empty())->0
}

/// Every target listed in the reverse index is the key of an event or a job,
/// as in the graphs that the scanners build.
pub open spec fn reverse_index_closed(g: AsyncFlowGraph) -> bool {
    forall|i: int, j: int|
        0 <= i < g.consumer_to_target.spec_len() && 0 <= j < g.consumer_to_target.val_at(i)@.len()
            ==> g.events.has(#[trigger] g.consumer_to_target.val_at(i)@[j]@) || g.jobs.has(
            g.consumer_to_target.val_at(i)@[j]@,
        )
}

// ---------------------------------------------------------------------------
// Laws
// ---------------------------------------------------------------------------

proof fn lemma_first_from_found<V>(m: crate::strmap::StrMap<V>, k: Seq<char>, i: int)
    requires
        0 <= i <= m.spec_len(),
        m.first_from(k, i) < m.spec_len(),
    ensures
        m.key_at(m.first_from(k, i)) == k,
        i <= m.first_from(k, i),
    decreases m.spec_len() - i,
{
    if i < m.spec_len() && m.key_at(i) != k {
        lemma_first_from_found(m, k, i + 1);
    }
}

/// A key always designates its own event or job: every name that is the key
/// of an event or a job is found directly.
pub proof fn lemma_key_designates_itself(g: AsyncFlowGraph, t: Seq<char>)
    requires
        g.events.has(t) || g.jobs.has(t),
    ensures
        direct_found(g, t),
{
    assert(upper(t).subrange(0, upper(t).len() as int) =~= upper(t));
    assert(contains(upper(t), upper(t))) by {
        assert(crate::text::occurs_at(upper(t), upper(t), 0));
    }
    if g.events.has(t) {
        lemma_first_from_found(g.events, t, 0);
        let i = g.events.index_of(t);
        assert(event_hit(g, i, t));
    } else {
        lemma_first_from_found(g.jobs, t, 0);
        let i = g.jobs.index_of(t);
        assert(job_hit(g, i, t));
    }
}

/// In a graph whose reverse index only names existing events and jobs (as
/// the scanners build it), every query resolves.
pub proof fn lemma_closed_graph_resolves(g: AsyncFlowGraph, target: Seq<char>)
    requires
        reverse_index_closed(g),
    ensures
        impact_query_resolves(g, target),
{
    if !direct_found(g, target) {
        match g.consumer_to_target.spec_get(target) {
            Some(ts) => {
                let i = g.consumer_to_target.index_of(target);
                lemma_first_from_found(g.consumer_to_target, target, 0);
                assert(ts == g.consumer_to_target.val_at(i));
                let p = Set::<Seq<char>>::empty().insert(target);
                assert forall|j: int| 0 <= j < ts@.len() implies direct_found(g, #[trigger] views(ts@)[j]) by {
                    assert(views(ts@)[j] == g.consumer_to_target.val_at(i)@[j]@);
                    assert(g.events.has(g.consumer_to_target.val_at(i)@[j]@) || g.jobs.has(
                        g.consumer_to_target.val_at(i)@[j]@,
                    ));
                    lemma_key_designates_itself(g, views(ts@)[j]);
                }
                lemma_direct_targets(g, views(ts@), ts@.len() as nat, p);
            },
            None => {},
        }
    }
}

proof fn lemma_direct_targets(g: AsyncFlowGraph, xs: Seq<Seq<char>>, n: nat, path: Set<Seq<char>>)
    requires
        forall|j: int| 0 <= j < xs.len() ==> direct_found(g, #[trigger] xs[j]),
    ensures
        targets_from(g, xs, n, path) is Some,
    decreases n,
{
    if n > 0 && n <= xs.len() {
        lemma_direct_targets(g, xs, (n - 1) as nat, path);
        assert(direct_found(g, xs[n - 1]));
        assert(impact_from(g, xs[n - 1], path) == Some(direct_text(g, xs[n - 1])));
    }
}

// ---------------------------------------------------------------------------
// Executable report
// ---------------------------------------------------------------------------

pub(crate) fn push_producers(out: &mut Vec<char>, ps: &Vec<FlowEndpoint>, none: &str)
    ensures
        final(out)@ == old(out)@ + producers_text(ps@, none@),
{
    if ps.len() == 0 {
        push_str(out, none);
        return;
    }
    let ghost start = out@;
    let ghost f = |i: int| producer_lines(i, ps@[i]);
    let mut i: usize = 0;
    while i < ps.len()
        invariant
            0 <= i <= ps@.len(),
            ps@.len() > 0,
            f == (|i: int| producer_lines(i, ps@[i])),
            out@ == start + concat_map(i as nat, f),
        decreases ps@.len() - i,
    {
        let p = &ps[i];
        let ghost before = out@;
        push_str(out, "   ");
        let n = usize_dec(i + 1);
        push_seq(out, &n);
        push_str(out, ". [");
        push_str(out, p.service.as_str());
        push_str(out, "] ");
        push_str(out, p.pattern.as_str());
        push_str(out, "\n");
        push_str(out, "      Fichier : ");
        push_str(out, p.file_path.as_str());
        push_str(out, ":");
        let l = usize_dec(p.line_number);
        push_seq(out, &l);
        push_str(out, "\n");
        assert(out@ =~= before + f(i as int));
        i = i + 1;
    }
}

pub(crate) fn push_consumers(out: &mut Vec<char>, cs: &Vec<ConsumerEndpoint>)
    ensures
        final(out)@ == old(out)@ + concat_map(cs@.len(), |i: int| consumer_lines(i, cs@[i])),
{
    let ghost start = out@;
    let ghost f = |i: int| consumer_lines(i, cs@[i]);
    let mut i: usize = 0;
    while i < cs.len()
        invariant
            0 <= i <= cs@.len(),
            f == (|i: int| consumer_lines(i, cs@[i])),
            out@ == start + concat_map(i as nat, f),
        decreases cs@.len() - i,
    {
        let c = &cs[i];
        let ghost before = out@;
        push_str(out, "   ");
        let n = usize_dec(i + 1);
        push_seq(out, &n);
        push_str(out, ". [");
        push_str(out, c.service.as_str());
        push_str(out, "] ");
        push_str(out, c.handler_class.as_str());
        push_str(out, " (");
        push_str(out, c.processing_type.as_str());
        push_str(out, ")\n");
        push_str(out, "      Fichier : ");
        push_str(out, c.file_path.as_str());
        push_str(out, ":");
        let l = usize_dec(c.line_number);
        push_seq(out, &l);
        push_str(out, "\n");
        assert(out@ =~= before + f(i as int));
        i = i + 1;
    }
}

pub(crate) fn push_handlers(out: &mut Vec<char>, cs: &Vec<ConsumerEndpoint>)
    ensures
        final(out)@ == old(out)@ + concat_map(cs@.len(), |i: int| handler_lines(i, cs@[i])),
{
    let ghost start = out@;
    let ghost f = |i: int| handler_lines(i, cs@[i]);
    let mut i: usize = 0;
    while i < cs.len()
        invariant
            0 <= i <= cs@.len(),
            f == (|i: int| handler_lines(i, cs@[i])),
            out@ == start + concat_map(i as nat, f),
        decreases cs@.len() - i,
    {
        let c = &cs[i];
        let ghost before = out@;
        push_str(out, "   ");
        let n = usize_dec(i + 1);
        push_seq(out, &n);
        push_str(out, ". [");
        push_str(out, c.service.as_str());
        push_str(out, "] ");
        push_str(out, c.handler_class.as_str());
        push_str(out, "\n");
        push_str(out, "      Fichier : ");
        push_str(out, c.file_path.as_str());
        push_str(out, ":");
        let l = usize_dec(c.line_number);
        push_seq(out, &l);
        push_str(out, "\n");
        assert(out@ =~= before + f(i as int));
        i = i + 1;
    }
}

pub(crate) fn push_event_head(out: &mut Vec<char>, key: &String, ev: &EventNode)
    ensures
        final(out)@ == old(out)@ + event_head(key@, *ev),
{
    let ghost start = out@;
    push_str(out, "================================================================================\n");
    push_str(out, "⚡ ÉVÉNEMENT DISTRIBUÉ : ");
    push_str(out, key.as_str());
    push_str(out, "\n");
    push_opt_line(out, "   Valeur Bus : '", &ev.raw_value, "'\n");
    push_str(out, "================================================================================\n");
    push_str(out, "📜 Contrat & Payload :\n");
    push_opt_line(out, "   - Interface Payload : ", &ev.payload_interface, "\n");
    push_opt_line(out, "   - Définition : ", &ev.definition_file, "\n");
    push_opt_line(out, "   - Stream Redis : ", &ev.stream, "\n");
    assert(out@ =~= start + event_head(key@, *ev));
}

pub(crate) fn push_event_flows(out: &mut Vec<char>, ev: &EventNode)
    ensures
        final(out)@ == old(out)@ + event_flows(*ev),
{
    let ghost start = out@;
    push_str(out, "\n🚀 Émetteur(s) (Amont / Producers) : ");
    let n = usize_dec(ev.producers.len());
    push_seq(out, &n);
    push_str(out, "\n");
    push_producers(out, &ev.producers, "   (Aucun émetteur direct détecté via EventQueueEntity)\n");
    push_str(out, "\n⚡ Consommateur(s) (Aval / Consumers) : ");
    let m = usize_dec(ev.consumers.len());
    push_seq(out, &m);
    push_str(out, "\n");
    if ev.consumers.len() == 0 {
        push_str(out, "   (Aucun post-processor ou listener direct détecté)\n");
    } else {
        push_consumers(out, &ev.consumers);
    }
    assert(out@ =~= start + event_flows(*ev));
}

fn push_event_tail(out: &mut Vec<char>, ev: &EventNode)
    ensures
        final(out)@ == old(out)@ + event_tail(*ev),
{
    let ghost start = out@;
    if ev.saga_success.is_some() || ev.saga_failure.is_some() {
        push_str(out, "\n🔄 Triade de Saga (Chorégraphie & Compensations) :\n");
        push_opt_line(out, "   - Succès (Commit -> SagaStatus.DONE)   : ", &ev.saga_success, "\n");
        push_opt_line(out, "   - Échec  (Rollback -> SagaStatus.CANCEL): ", &ev.saga_failure, "\n");
    }
    let ghost mid = out@;
    assert(mid =~= start + saga_text(*ev));
    push_opt_line(out, "\n📡 Broadcast WebSocket Mobile (Scatter-Gather) : ", &ev.websocket_event, "\n");
    push_str(out, "\n");
    assert(out@ =~= start + event_tail(*ev));
}

fn push_event_block(out: &mut Vec<char>, key: &String, ev: &EventNode)
    ensures
        final(out)@ == old(out)@ + event_block(key@, *ev),
{
    let ghost start = out@;
    push_event_head(out, key, ev);
    push_event_flows(out, ev);
    push_event_tail(out, ev);
    assert(out@ =~= start + event_block(key@, *ev));
}

fn push_job_head(out: &mut Vec<char>, key: &String, job: &JobNode)
    ensures
        final(out)@ == old(out)@ + job_head(key@, *job),
{
    let ghost start = out@;
    push_str(out, "================================================================================\n");
    push_str(out, "💼 TÂCHE ASYNCHRONE / JOB (BullMQ) : ");
    push_str(out, key.as_str());
    push_str(out, "\n");
    push_opt_line(out, "   Valeur Queue : '", &job.raw_value, "'\n");
    push_str(out, "================================================================================\n");
    push_str(out, "📜 Contrat & Payload :\n");
    push_opt_line(out, "   - Interface Payload : ", &job.payload_interface, "\n");
    push_opt_line(out, "   - Définition : ", &job.definition_file, "\n");
    assert(out@ =~= start + job_head(key@, *job));
}

fn push_job_flows(out: &mut Vec<char>, job: &JobNode)
    ensures
        final(out)@ == old(out)@ + job_flows(*job),
{
    let ghost start = out@;
    push_str(out, "\n🚀 Émetteur(s) (Amont / Producers) : ");
    let n = usize_dec(job.producers.len());
    push_seq(out, &n);
    push_str(out, "\n");
    push_producers(out, &job.producers, "   (Aucun émetteur direct via JobsOutboxEntity)\n");
    push_str(out, "\n⚙️ Worker Handler(s) (Aval / Executeurs) : ");
    let m = usize_dec(job.handlers.len());
    push_seq(out, &m);
    push_str(out, "\n");
    if job.handlers.len() == 0 {
        push_str(out, "   (Aucun IJobHandler détecté)\n");
    } else {
        push_handlers(out, &job.handlers);
    }
    push_str(out, "\n");
    assert(out@ =~= start + job_flows(*job));
}

fn push_job_block(out: &mut Vec<char>, key: &String, job: &JobNode)
    ensures
        final(out)@ == old(out)@ + job_block(key@, *job),
{
    let ghost start = out@;
    push_job_head(out, key, job);
    push_job_flows(out, job);
    assert(out@ =~= start + job_block(key@, *job));
}

/// Whether the name designates a key: `key.to_uppercase().contains(target_upper)`.
pub(crate) fn key_hit(key: &String, target_upper: &Vec<char>) -> (r: bool)
    ensures
        r == contains(upper(key@), target_upper@),
{
    let ku = to_uppercase(key.as_str());
    let kc = chars_of(ku.as_str());
    contains_seq(&kc, target_upper)
}

/// Whether the name designates a raw value.
pub(crate) fn raw_hit(raw: &Option<String>, target_lower: &Vec<char>) -> (r: bool)
    ensures
        r == match raw {
            Some(v) => contains(lower(v@), target_lower@),
            None => false,
        },
{
    match raw {
        Some(v) => {
            let vl = to_lowercase(v.as_str());
            let vc = chars_of(vl.as_str());
            contains_seq(&vc, target_lower)
        },
        None => false,
    }
}

/// The event and job sections designated by `target`, and whether there is any.
fn impact_direct(graph: &AsyncFlowGraph, target: &str) -> (r: (Vec<char>, bool))
    ensures
        r.0@ == direct_text(*graph, target@),
        r.1 == direct_found(*graph, target@),
{
    let tu = to_uppercase(target);
    let target_upper = chars_of(tu.as_str());
    let tl = to_lowercase(target);
    let target_lower = chars_of(tl.as_str());
    let ghost g = *graph;
    let ghost t = target@;
    let ghost fe = |i: int|
        if event_hit(g, i, t) {
            event_block(g.events.key_at(i), g.events.val_at(i))
        } else {
            seq![]
        };
    let ghost fj = |i: int|
        if job_hit(g, i, t) {
            job_block(g.jobs.key_at(i), g.jobs.val_at(i))
        } else {
            seq![]
        };
    let mut out: Vec<char> = Vec::new();
    let mut found = false;
    let n = graph.events.len();
    let mut i: usize = 0;
    while i < n
        invariant
            g == *graph,
            t == target@,
            target_upper@ == upper(t),
            target_lower@ == lower(t),
            n == g.events.spec_len(),
            0 <= i <= n,
            fe == (|i: int|
                if event_hit(g, i, t) {
                    event_block(g.events.key_at(i), g.events.val_at(i))
                } else {
                    seq![]
                }),
            out@ == concat_map(i as nat, fe),
            found == exists|k: int| 0 <= k < i && event_hit(g, k, t),
        decreases n - i,
    {
        let key = graph.events.key(i);
        let ev = graph.events.val(i);
        let hit = key_hit(key, &target_upper) || raw_hit(&ev.raw_value, &target_lower);
        assert(hit == event_hit(g, i as int, t));
        if hit {
            found = true;
            push_event_block(&mut out, key, ev);
        }
        assert(out@ =~= concat_map(i as nat, fe) + fe(i as int));
        i = i + 1;
    }
    let ghost events_part = out@;
    let found_event = found;
    let m = graph.jobs.len();
    let mut j: usize = 0;
    while j < m
        invariant
            g == *graph,
            t == target@,
            target_upper@ == upper(t),
            target_lower@ == lower(t),
            m == g.jobs.spec_len(),
            0 <= j <= m,
            fj == (|i: int|
                if job_hit(g, i, t) {
                    job_block(g.jobs.key_at(i), g.jobs.val_at(i))
                } else {
                    seq![]
                }),
            out@ == events_part + concat_map(j as nat, fj),
            found == (found_event || exists|k: int| 0 <= k < j && job_hit(g, k, t)),
        decreases m - j,
    {
        let key = graph.jobs.key(j);
        let job = graph.jobs.val(j);
        let hit = key_hit(key, &target_upper) || raw_hit(&job.raw_value, &target_lower);
        assert(hit == job_hit(g, j as int, t));
        if hit {
            found = true;
            push_job_block(&mut out, key, job);
        }
        assert(out@ =~= events_part + concat_map(j as nat, fj) + fj(j as int));
        j = j + 1;
    }
    (out, found)
}

fn push_not_found(out: &mut Vec<char>, target: &str)
    ensures
        final(out)@ == old(out)@ + not_found_text(target@),
{
    let ghost start = out@;
    push_str(out, "Aucun événement, job ou post-processor ne correspond à '");
    push_str(out, target);
    push_str(out, "' dans le graphe causal.");
    assert(out@ =~= start + not_found_text(target@));
}

/// Whether `target` is among `path`.
fn on_path(path: &Vec<String>, target: &str) -> (r: bool)
    ensures
        r == views(path@).to_set().contains(target@),
{
    let t = chars_of(target);
    let mut i: usize = 0;
    while i < path.len()
        invariant
            t@ == target@,
            0 <= i <= path@.len(),
            forall|k: int| 0 <= k < i ==> views(path@)[k] != target@,
        decreases path@.len() - i,
    {
        let pk = chars_of(path[i].as_str());
        if seq_eq(&pk, &t) {
            assert(views(path@)[i as int] == target@);
            assert(views(path@).contains(target@));
            return true;
        }
        i = i + 1;
    }
    assert(!views(path@).contains(target@)) by {
        if views(path@).contains(target@) {
            let k = choose|k: int| 0 <= k < views(path@).len() && views(path@)[k] == target@;
            assert(views(path@)[k] == target@);
        }
    }
    false
}

/// The report for `target` reached through the classes of `path` (see
/// `impact_from`), `None` where the query would never end.
fn impact_from_exec(graph: &AsyncFlowGraph, target: &str, path: &mut Vec<String>) -> (r: Option<Vec<char>>)
    ensures
        final(path)@ == old(path)@,
        match r {
            Some(v) => impact_from(*graph, target@, views(old(path)@).to_set()) == Some(v@),
            None => impact_from(*graph, target@, views(old(path)@).to_set()) is None,
        },
    decreases classes_left(*graph, views(old(path)@).to_set()), 0nat, 0nat,
{
    let (direct, found) = impact_direct(graph, target);
    if found {
        return Some(direct);
    }
    let ghost p = views(path@).to_set();
    match graph.consumer_to_target.get(target) {
        None => {
            let mut msg: Vec<char> = Vec::new();
            push_not_found(&mut msg, target);
            Some(msg)
        },
        Some(ts) => {
            if on_path(path, target) {
                return None;
            }
            proof {
                lemma_classes_left_drops(*graph, target@, p);
            }
            let ghost p0 = path@;
            path.push(crate::text::owned(target));
            assert(views(path@).to_set() =~= p.insert(target@)) by {
                assert(views(path@) =~= views(p0).push(target@));
                assert forall|q: Seq<char>| #[trigger] views(path@).to_set().contains(q) == p.insert(target@).contains(q) by {
                    if views(path@).contains(q) {
                        let k = choose|k: int| 0 <= k < views(path@).len() && views(path@)[k] == q;
                        if k < views(p0).len() {
                            assert(views(p0)[k] == q);
                        }
                    }
                    if views(p0).contains(q) {
                        let k = choose|k: int| 0 <= k < views(p0).len() && views(p0)[k] == q;
                        assert(views(path@)[k] == q);
                    }
                    if q == target@ {
                        assert(views(path@)[views(p0).len() as int] == q);
                    }
                }
            }
            let body = targets_from_exec(graph, ts, path);
            path.pop();
            assert(path@ =~= p0);
            match body {
                Some(b) => {
                    let mut out: Vec<char> = Vec::new();
                    push_str(&mut out, "🔍 Classe consommatrice '");
                    push_str(&mut out, target);
                    push_str(&mut out, "' identifiée. Dépendance vers :\n");
                    push_seq(&mut out, &b);
                    Some(out)
                },
                None => None,
            }
        },
    }
}

/// The reports of the targets `ts`, each after its `Target` line (see
/// `targets_from`), `None` where one of them would never end.
fn targets_from_exec(graph: &AsyncFlowGraph, ts: &Vec<String>, path: &mut Vec<String>) -> (r: Option<Vec<char>>)
    ensures
        final(path)@ == old(path)@,
        match r {
            Some(v) => targets_from(*graph, views(ts@), ts@.len() as nat, views(old(path)@).to_set()) == Some(v@),
            None => targets_from(*graph, views(ts@), ts@.len() as nat, views(old(path)@).to_set()) is None,
        },
    decreases classes_left(*graph, views(old(path)@).to_set()), 1nat, ts@.len(),
{
    let ghost p = views(path@).to_set();
    let ghost p0 = path@;
    let ghost xs = views(ts@);
    let mut out: Vec<char> = Vec::new();
    let mut j: usize = 0;
    while j < ts.len()
        invariant
            path@ == p0,
            p0 == old(path)@,
            p == views(p0).to_set(),
            xs == views(ts@),
            0 <= j <= ts@.len(),
            targets_from(*graph, xs, j as nat, p) == Some(out@),
        decreases ts@.len() - j,
    {
        assert(xs[j as int] == ts@[j as int]@);
        let sub = impact_from_exec(graph, ts[j].as_str(), path);
        match sub {
            Some(b) => {
                let ghost before = out@;
                push_str(&mut out, "   - Target : ");
                push_str(&mut out, ts[j].as_str());
                push_str(&mut out, "\n");
                push_seq(&mut out, &b);
                assert(out@ =~= before + "   - Target : "@ + xs[j as int] + "\n"@ + b@);
            },
            None => {
                proof {
                    lemma_targets_stuck(*graph, xs, (j + 1) as nat, ts@.len() as nat, p);
                }
                return None;
            },
        }
        j = j + 1;
    }
    Some(out)
}

proof fn lemma_targets_stuck(g: AsyncFlowGraph, xs: Seq<Seq<char>>, k: nat, n: nat, path: Set<Seq<char>>)
    requires
        0 < k <= n <= xs.len(),
        targets_from(g, xs, k, path) is None,
    ensures
        targets_from(g, xs, n, path) is None,
    decreases n - k,
{
    if k < n {
        lemma_targets_stuck(g, xs, k, (n - 1) as nat, path);
    }
}

/// The impact report for `target`: the sections of the events and jobs it
/// designates; when there is none but `target` is a consumer class, the
/// report of each event, job or class it depends on; otherwise a sentence
/// that nothing matches.
pub fn query_impact(graph: &AsyncFlowGraph, target: &str) -> (r: String)
    requires
        impact_query_resolves(*graph, target@),
    ensures
        r@ == impact_report(*graph, target@),
{
    let mut path: Vec<String> = Vec::new();
    assert(views(path@).to_set() =~= Set::<Seq<char>>::empty());
    match impact_from_exec(graph, target, &mut path) {
        Some(v) => string_from_chars(&v),
        None => String::new(),
    }
}

/// `query_impact` on every input: `None` exactly when following consumer
/// classes from `target` comes back to a class, where the query would never
/// end.
pub fn query_impact_checked(graph: &AsyncFlowGraph, target: &str) -> (r: Option<String>)
    ensures
        r is Some <==> impact_query_resolves(*graph, target@),
        r matches Some(s) ==> s@ == impact_report(*graph, target@),
{
    let mut path: Vec<String> = Vec::new();
    assert(views(path@).to_set() =~= Set::<Seq<char>>::empty());
    match impact_from_exec(graph, target, &mut path) {
        Some(v) => Some(string_from_chars(&v)),
        None => None,
    }
}

} // verus!
