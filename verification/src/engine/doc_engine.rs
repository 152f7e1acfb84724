//! Search in the architecture documentation: scoring of sections against a
//! query (exact phrase, file name, words, synonyms), excerpts around the
//! match, and operational guidance for the subjects found.
use vstd::prelude::*;

use crate::domain::doc_entry::{DocIndex, DocSection};
use crate::engine::impact_engine::rule;
use crate::ranking::{descending, first_n, keep_first, lemma_sort_desc, sort_by_score_desc, sort_desc};
use crate::engine::fuzzy_engine::{best_matches, texts, FuzzyEngine};
use crate::pattern::{
    boundary_exec, byte_len_exec, char_at_byte, char_index_wide, is_boundary, lemma_boundary_le,
    lemma_char_at_byte_mono, min_int,
};
use crate::std_text::{lower, string_from_chars, to_lowercase};
use crate::text::{
    flatten_n, split_ws, split_ws_seq, sum_n, trim, trim_seq,
    chars_of, contains, contains_str, eq_str, find_from, first_occ_from, join, lemma_first_occ, lemma_no_occ,
    push_seq, push_str, slice, contains_seq, seq_eq, join_seqs, concat_map, dec, dec_int, i64_dec, starts_with,
    starts_with_str, trim_end_char, trim_end_char_seq, trim_start_char, trim_start_char_seq, u128_dec,
    usize_dec,
};
use crate::utf8_len::{byte_len, byte_off, byte_offsets};

verus! {

/// The words a query word also stands for.
pub open spec fn synonyms(w: Seq<char>) -> Seq<Seq<char>> {
    if w == "k8s"@ || w == "kube"@ {
        seq!["kubernetes"@, "deployment"@, "argocd"@, "ingress"@, "pod"@]
    } else if w == "postgres"@ || w == "sql"@ || w == "db"@ || w == "database"@ {
        seq!["postgresql"@, "acid"@, "transaction"@, "outbox"@, "typeorm"@]
    } else if w == "ws"@ || w == "socket"@ || w == "realtime"@ {
        seq!["websocket"@, "scatter-gather"@, "ws-service"@, "gateway"@]
    } else if w == "proto"@ || w == "protobuf"@ {
        seq!["grpc"@, "proto-registry"@, "contracts"@, "contracts-nest"@]
    } else if w == "dlq"@ {
        seq!["dead"@, "letter"@, "queue"@, "retry"@, "failure"@]
    } else if w == "jwt"@ || w == "token"@ {
        seq!["internal_token"@, "auth"@, "secret"@, "zero-trust"@]
    } else if w == "job"@ || w == "jobs"@ {
        seq!["bullmq"@, "worker"@, "jobs_outbox"@, "job_audit"@]
    } else if w == "event"@ || w == "events"@ {
        seq!["stream"@, "post-processor"@, "event_outbox"@, "saga"@]
    } else if w == "saga"@ || w == "sagas"@ {
        seq!["compensation"@, "rollback"@, "choreography"@, "status"@]
    } else if w == "npm"@ || w == "pkg"@ || w == "package"@ || w == "packages"@ {
        seq!["monorepo"@, "changeset"@, "contracts"@, "domain"@]
    } else {
        seq![]
    }
}

/// The text of each string slice.
pub open spec fn strs(v: Seq<&str>) -> Seq<Seq<char>> {
    v.map_values(|s: &str| s@)
}

/// The words that `word` also stands for (`k8s` → `kubernetes`, …).
pub fn expand_synonyms(word: &str) -> (r: Vec<&'static str>)
    ensures
        strs(r@) == synonyms(word@),
{
    let w = chars_of(word);
    let r: Vec<&'static str> = if eq_str(&w, "k8s") || eq_str(&w, "kube") {
        vec!["kubernetes", "deployment", "argocd", "ingress", "pod"]
    } else if eq_str(&w, "postgres") || eq_str(&w, "sql") || eq_str(&w, "db") || eq_str(&w, "database") {
        vec!["postgresql", "acid", "transaction", "outbox", "typeorm"]
    } else if eq_str(&w, "ws") || eq_str(&w, "socket") || eq_str(&w, "realtime") {
        vec!["websocket", "scatter-gather", "ws-service", "gateway"]
    } else if eq_str(&w, "proto") || eq_str(&w, "protobuf") {
        vec!["grpc", "proto-registry", "contracts", "contracts-nest"]
    } else if eq_str(&w, "dlq") {
        vec!["dead", "letter", "queue", "retry", "failure"]
    } else if eq_str(&w, "jwt") || eq_str(&w, "token") {
        vec!["internal_token", "auth", "secret", "zero-trust"]
    } else if eq_str(&w, "job") || eq_str(&w, "jobs") {
        vec!["bullmq", "worker", "jobs_outbox", "job_audit"]
    } else if eq_str(&w, "event") || eq_str(&w, "events") {
        vec!["stream", "post-processor", "event_outbox", "saga"]
    } else if eq_str(&w, "saga") || eq_str(&w, "sagas") {
        vec!["compensation", "rollback", "choreography", "status"]
    } else if eq_str(&w, "npm") || eq_str(&w, "pkg") || eq_str(&w, "package") || eq_str(&w, "packages") {
        vec!["monorepo", "changeset", "contracts", "domain"]
    } else {
        Vec::new()
    };
    assert(strs(r@) =~= synonyms(word@));
    r
}


/// The words left out of a query: articles, prepositions, question words
/// (French and English) and the generic `c4`, `doc`, `docs`.
pub open spec fn stop_words() -> Seq<Seq<char>> {
    seq!["le"@, "la"@, "les"@, "de"@, "des"@, "du"@, "un"@, "une"@, "et"@, "en"@, "pour"@, "dans"@, "sur"@, "au"@, "aux"@, "ce"@, "cet"@, "cette"@, "ces"@, "par"@, "est"@, "sont"@, "avec"@, "the"@, "a"@, "an"@, "and"@, "or"@, "in"@, "on"@, "at"@, "to"@, "for"@, "of"@, "with"@, "is"@, "are"@, "it"@, "how"@, "what"@, "why"@, "where"@, "comment"@, "pourquoi"@, "qui"@, "quel"@, "quelle"@, "quels"@, "quelles"@, "c4"@, "doc"@, "docs"@]
}

fn stop_word_list() -> (r: Vec<&'static str>)
    ensures
        strs(r@) == stop_words(),
{
    let r: Vec<&'static str> = vec!["le", "la", "les", "de", "des", "du", "un", "une", "et", "en", "pour", "dans", "sur", "au", "aux", "ce", "cet", "cette", "ces", "par", "est", "sont", "avec", "the", "a", "an", "and", "or", "in", "on", "at", "to", "for", "of", "with", "is", "are", "it", "how", "what", "why", "where", "comment", "pourquoi", "qui", "quel", "quelle", "quels", "quelles", "c4", "doc", "docs"];
    assert(strs(r@) =~= stop_words());
    r
}

/// Whether `w` is a stop word.
fn is_stop_word(w: &Vec<char>) -> (r: bool)
    ensures
        r == stop_words().contains(w@),
{
    let list = stop_word_list();
    let mut i: usize = 0;
    while i < list.len()
        invariant
            strs(list@) == stop_words(),
            0 <= i <= list@.len(),
            forall|k: int| 0 <= k < i ==> stop_words()[k] != w@,
        decreases list@.len() - i,
    {
        if eq_str(w, list[i]) {
            assert(stop_words()[i as int] == w@);
            return true;
        }
        i = i + 1;
    }
    false
}


/// The last index in `[lo, hi)` of a `'\n'` in `c`, or -1.
pub open spec fn last_newline(c: Seq<char>, lo: int, hi: int) -> int
    decreases hi - lo,
{
    if hi <= lo {
        -1
    } else if c[hi - 1] == '\n' {
        hi - 1
    } else {
        last_newline(c, lo, hi - 1)
    }
}

/// `str::find`: the byte position of the first occurrence of `p` in `cl`.
pub open spec fn find_byte(cl: Seq<char>, p: Seq<char>) -> Option<nat> {
    let k = first_occ_from(cl, p, 0);
    if k >= 0 {
        Some(byte_off(cl, k))
    } else {
        None
    }
}

/// The smallest byte position in `cl` at which one of the first `n` words occurs.
pub open spec fn min_find(cl: Seq<char>, words: Seq<Seq<char>>, n: int) -> Option<nat>
    decreases n,
{
    if n <= 0 || n > words.len() {
        None
    } else {
        let r = min_find(cl, words, n - 1);
        match find_byte(cl, words[n - 1]) {
            Some(b) => match r {
                Some(x) => Some(if b < x { b } else { x }),
                None => Some(b),
            },
            None => r,
        }
    }
}

/// The excerpt of a section's content shown for a query: all of it up to
/// 1500 bytes; otherwise about 1300 bytes starting on the line that holds
/// the first match of the phrase (else the earliest match of a word) at
/// most 250 bytes before it, ending before the last line break, with markers
/// for what was cut; with no match, the first 1500 bytes. `None` where a
/// byte position falls inside a character, where the text cannot be cut.
pub open spec fn snippet_of(c: Seq<char>, q: Seq<char>, words: Seq<Seq<char>>) -> Option<Seq<char>> {
    let cb = byte_len(c) as int;
    if cb <= 1500 {
        Some(c)
    } else {
        let cl = lower(c);
        let pos = match find_byte(cl, q) {
            Some(p) => Some(p),
            None => min_find(cl, words, words.len() as int),
        };
        match pos {
            Some(pn) => {
                let p = pn as int;
                let start: int = if p >= 250 { p - 250 } else { 0 };
                if !(is_boundary(c, start) && is_boundary(c, p)) {
                    None
                } else {
                    let cs = char_at_byte(c, start);
                    let cp = char_at_byte(c, p);
                    let j = last_newline(c, cs, cp);
                    let astart: int = if j >= 0 { byte_off(c, j) as int + 1 } else { start };
                    let ca = if j >= 0 { j + 1 } else { cs };
                    let end = min_int(astart + 1300, cb);
                    if !(p <= end && is_boundary(c, end)) {
                        None
                    } else {
                        let ce = char_at_byte(c, end);
                        let j2 = last_newline(c, cp, ce);
                        let aend: int = if j2 >= 0 { byte_off(c, j2) as int } else { end };
                        let cae = if j2 >= 0 { j2 } else { ce };
                        Some(
                            (if astart > 0 { "... (contexte amont)\n"@ } else { seq![] }) + c.subrange(ca, cae) + (
                            if aend < cb {
                                "\n... (suite tronquée)"@
                            } else {
                                seq![]
                            }),
                        )
                    }
                }
            },
            None => if is_boundary(c, 1500) {
                Some(c.subrange(0, char_at_byte(c, 1500)) + "\n... (suite tronquée pour économie de tokens)"@)
            } else {
                None
            },
        }
    }
}

fn last_newline_exec(c: &Vec<char>, lo: usize, hi: usize) -> (r: Option<usize>)
    requires
        lo <= hi <= c@.len(),
    ensures
        match r {
            Some(j) => last_newline(c@, lo as int, hi as int) == j && lo <= j < hi && c@[j as int] == '\n',
            None => last_newline(c@, lo as int, hi as int) == -1,
        },
{
    let mut k = hi;
    while k > lo
        invariant
            lo <= k <= hi <= c@.len(),
            last_newline(c@, lo as int, hi as int) == last_newline(c@, lo as int, k as int),
        decreases k - lo,
    {
        if c[k - 1] == '\n' {
            return Some(k - 1);
        }
        k = k - 1;
    }
    None
}

fn find_byte_exec(cl: &Vec<char>, offs: &Vec<u128>, p: &Vec<char>) -> (r: Option<u128>)
    requires
        offs@.len() == cl@.len() + 1,
        forall|i: int| 0 <= i <= cl@.len() ==> #[trigger] offs@[i] == byte_off(cl@, i),
    ensures
        match r {
            Some(b) => find_byte(cl@, p@) == Some(b as nat),
            None => find_byte(cl@, p@) is None,
        },
{
    match find_from(cl, p, 0) {
        Some(k) => {
            proof {
                lemma_first_occ(cl@, p@, 0, k as int);
            }
            Some(offs[k])
        },
        None => {
            proof {
                lemma_no_occ(cl@, p@, 0);
            }
            None
        },
    }
}

fn match_position(cl: &Vec<char>, q: &Vec<char>, words: &[String]) -> (r: Option<u128>)
    ensures
        match r {
            Some(b) => (match find_byte(cl@, q@) {
                Some(p) => Some(p),
                None => min_find(cl@, texts(words@), words@.len() as int),
            }) == Some(b as nat),
            None => (match find_byte(cl@, q@) {
                Some(p) => Some(p),
                None => min_find(cl@, texts(words@), words@.len() as int),
            }) is None,
        },
{
    let offs = byte_offsets(cl);
    match find_byte_exec(cl, &offs, q) {
        Some(b) => Some(b),
        None => {
            let ghost ws = texts(words@);
            let mut best: Option<u128> = None;
            let mut i: usize = 0;
            while i < words.len()
                invariant
                    ws == texts(words@),
                    offs@.len() == cl@.len() + 1,
                    forall|k: int| 0 <= k <= cl@.len() ==> #[trigger] offs@[k] == byte_off(cl@, k),
                    0 <= i <= words@.len(),
                    match best {
                        Some(b) => min_find(cl@, ws, i as int) == Some(b as nat),
                        None => min_find(cl@, ws, i as int) is None,
                    },
                decreases words@.len() - i,
            {
                let wc = chars_of(words[i].as_str());
                assert(ws[i as int] == wc@);
                match find_byte_exec(cl, &offs, &wc) {
                    Some(b) => {
                        best = match best {
                            Some(x) => Some(if b < x { b } else { x }),
                            None => Some(b),
                        };
                    },
                    None => {},
                }
                i = i + 1;
            }
            best
        },
    }
}

/// Whether `snippet_of` is defined for these arguments (the excerpt can be
/// cut on character boundaries).
pub fn snippet_cuttable(content: &str, query: &str, words: &[String]) -> (r: bool)
    ensures
        r == snippet_of(content@, query@, texts(words@)) is Some,
{
    let c = chars_of(content);
    let cb = byte_len_exec(&c);
    if cb <= 1500 {
        return true;
    }
    let lc = to_lowercase(content);
    let cl = chars_of(lc.as_str());
    let q = chars_of(query);
    match match_position(&cl, &q, words) {
        Some(p) => {
            let start: u128 = if p >= 250 { p - 250 } else { 0 };
            if !(boundary_exec(&c, start) && boundary_exec(&c, p)) {
                return false;
            }
            proof {
                lemma_boundary_le(c@, p as int);
            }
            let offs = byte_offsets(&c);
            let cs = char_index_wide(&c, start);
            let cp = char_index_wide(&c, p);
            proof {
                lemma_char_at_byte_mono(c@, start as int, p as int);
            }
            let j = last_newline_exec(&c, cs, cp);
            let astart: u128 = match j {
                Some(j) => {
                    assert(offs@[j as int] <= 4 * j);
                    offs[j] + 1
                },
                None => start,
            };
            let ghost n = c@.len();
            assert(n == c.len());
            assert(astart <= 4 * c@.len() + 1);
            let end: u128 = if astart + 1300 <= cb { astart + 1300 } else { cb };
            p <= end && boundary_exec(&c, end)
        },
        None => boundary_exec(&c, 1500),
    }
}

/// The excerpt of `content` shown for a query (see `snippet_of`).
pub fn format_content_snippet(content: &str, query: &str, words: &[String]) -> (r: String)
    requires
        snippet_of(content@, query@, texts(words@)) is Some,
    ensures
        r@ == snippet_of(content@, query@, texts(words@))->0,
{
    let c = chars_of(content);
    let cb = byte_len_exec(&c);
    if cb <= 1500 {
        return crate::text::owned(content);
    }
    let lc = to_lowercase(content);
    let cl = chars_of(lc.as_str());
    let q = chars_of(query);
    match match_position(&cl, &q, words) {
        Some(p) => {
            let start: u128 = if p >= 250 { p - 250 } else { 0 };
            proof {
                lemma_boundary_le(c@, p as int);
            }
            let offs = byte_offsets(&c);
            let cs = char_index_wide(&c, start);
            let cp = char_index_wide(&c, p);
            proof {
                lemma_char_at_byte_mono(c@, start as int, p as int);
            }
            let j = last_newline_exec(&c, cs, cp);
            let (astart, ca): (u128, usize) = match j {
                Some(j) => (offs[j] + 1, j + 1),
                None => (start, cs),
            };
            let end: u128 = if astart + 1300 <= cb { astart + 1300 } else { cb };
            let ce = char_index_wide(&c, end);
            proof {
                lemma_char_at_byte_mono(c@, p as int, end as int);
            }
            let j2 = last_newline_exec(&c, cp, ce);
            let (aend, cae): (u128, usize) = match j2 {
                Some(j2) => (offs[j2], j2),
                None => (end, ce),
            };
            let mut out: Vec<char> = Vec::new();
            if astart > 0 {
                push_str(&mut out, "... (contexte amont)\n");
            }
            let mid = slice(&c, ca, cae);
            push_seq(&mut out, &mid);
            if aend < cb {
                push_str(&mut out, "\n... (suite tronquée)");
            }
            assert(out@ =~= snippet_of(content@, query@, texts(words@))->0);
            string_from_chars(&out)
        },
        None => {
            let k = char_index_wide(&c, 1500);
            let mut out = slice(&c, 0, k);
            push_str(&mut out, "\n... (suite tronquée pour économie de tokens)");
            string_from_chars(&out)
        },
    }
}

/// Guidance for BullMQ job flows.
pub const JOB_ADVICE: &'static str = "💼 **Flux de Job BullMQ :**\n   - Pour implémenter ce job : Skill `.agents/skills/global/implement-async-job-flow/SKILL.md`\n   - Pour cartographier ou déboguer : MCP `analyze_impact({ target: \"...\" })` ou Skill `trace-async-flow`\n   - 🛑 **RÈGLE DU STOP** : Si tu touches à `messaging`, `yarn changeset add` puis STOP IMMÉDIAT !";

/// Guidance for event, saga and scatter-gather flows.
pub const EVENT_ADVICE: &'static str = "⚡ **Flux Événementiel / Saga / Scatter-Gather :**\n   - Pour implémenter cet événement : Skill `.agents/skills/global/implement-async-event-flow/SKILL.md`\n   - Pour cartographier producteurs/consommateurs : MCP `analyze_impact({ target: \"...\" })`\n   - 🛑 **RÈGLE DU STOP** : Si tu touches à `messaging` ou `shared`, STOP IMMÉDIAT après le changeset !";

/// Guidance for Protobuf and gRPC contracts.
pub const PROTO_ADVICE: &'static str = "🌐 **Contrats Protobuf & gRPC :**\n   - Pour modifier un contrat : Skill `.agents/skills/global/proto-contract-evolution/SKILL.md`\n   - Pour tracer une méthode RPC : MCP `analyze_grpc({ target: \"...\" })`\n   - 🛑 **RÈGLE BLOQUANTE (CASCADE CI)** : `proto-registry` génère une PR dans `npm-packages` au merge. Attends la publication NPM avant de toucher aux microservices !";

/// Guidance for shared npm packages.
pub const NPM_ADVICE: &'static str = "📦 **Packages Partagés (Monorepo npm-packages) :**\n   - Pour modifier un paquet partagé : Skill `.agents/skills/global/shared-npm-package-change/SKILL.md`\n   - Pour trouver qui l'importe : MCP `find_dependents({ target: \"...\" })`\n   - 🛑 **RÈGLE DU STOP IMMÉDIAT** : Interdiction formelle de modifier les microservices tant que la CI n'a pas publié le paquet !";

/// Opening of the guidance block.
pub const GUIDANCE_HEAD: &'static str = "════════════════════════════════════════════════════════════════════════════════\n💡 GUIDANCE OPÉRATIONNELLE & SKILLS RECOMMANDÉS :\n";

/// Closing of the guidance block.
pub const GUIDANCE_TAIL: &'static str = "\n════════════════════════════════════════════════════════════════════════════════\n";

/// The lower-cased title and content of each section, separated and joined by spaces.
pub open spec fn combined_text(secs: Seq<DocSection>) -> Seq<char> {
    join(Seq::new(secs.len(), |i: int| lower(secs[i].title@) + " "@ + lower(secs[i].content@)), " "@)
}

/// The query or the sections are about background jobs.
pub open spec fn about_jobs(q: Seq<char>, t: Seq<char>) -> bool {
    contains(q, "job"@) || contains(q, "bullmq"@) || contains(q, "worker"@) || contains(t, "jobs_outbox"@)
        || contains(t, "job_audit"@) || contains(t, "baseworker"@)
}

/// The query or the sections are about events, streams or sagas.
pub open spec fn about_events(q: Seq<char>, t: Seq<char>) -> bool {
    contains(q, "event"@) || contains(q, "stream"@) || contains(q, "scatter"@) || contains(q, "saga"@)
        || contains(t, "event_outbox"@) || contains(t, "batchpostprocessor"@) || contains(t, "scatter-gather"@)
}

/// The query or the sections are about Protobuf contracts.
pub open spec fn about_protos(q: Seq<char>, t: Seq<char>) -> bool {
    contains(q, "proto"@) || contains(q, "grpc"@) || contains(t, "proto-registry"@) || contains(
        t,
        "@volontariapp/contracts"@,
    )
}

/// The query or the sections are about shared packages.
pub open spec fn about_packages(q: Seq<char>, t: Seq<char>) -> bool {
    contains(q, "npm"@) || contains(q, "package"@) || contains(t, "changeset"@) || contains(
        t,
        "@volontariapp/domain-"@,
    )
}

/// The pieces of advice that apply, in order (shared packages only when
/// neither jobs nor events apply).
pub open spec fn advice_list(q: Seq<char>, t: Seq<char>) -> Seq<Seq<char>> {
    (if about_jobs(q, t) { seq![JOB_ADVICE@] } else { seq![] }) + (if about_events(q, t) {
        seq![EVENT_ADVICE@]
    } else {
        seq![]
    }) + (if about_protos(q, t) { seq![PROTO_ADVICE@] } else { seq![] }) + (if about_packages(q, t)
        && !about_jobs(q, t) && !about_events(q, t) {
        seq![NPM_ADVICE@]
    } else {
        seq![]
    })
}

proof fn lemma_advice_distinct()
    ensures
        JOB_ADVICE@ != NPM_ADVICE@,
        EVENT_ADVICE@ != NPM_ADVICE@,
        PROTO_ADVICE@ != NPM_ADVICE@,
        JOB_ADVICE@ != EVENT_ADVICE@,
        PROTO_ADVICE@ != EVENT_ADVICE@,
        PROTO_ADVICE@ != JOB_ADVICE@,
{
    reveal_strlit("💼 **Flux de Job BullMQ :**\n   - Pour implémenter ce job : Skill `.agents/skills/global/implement-async-job-flow/SKILL.md`\n   - Pour cartographier ou déboguer : MCP `analyze_impact({ target: \"...\" })` ou Skill `trace-async-flow`\n   - 🛑 **RÈGLE DU STOP** : Si tu touches à `messaging`, `yarn changeset add` puis STOP IMMÉDIAT !");
    reveal_strlit("⚡ **Flux Événementiel / Saga / Scatter-Gather :**\n   - Pour implémenter cet événement : Skill `.agents/skills/global/implement-async-event-flow/SKILL.md`\n   - Pour cartographier producteurs/consommateurs : MCP `analyze_impact({ target: \"...\" })`\n   - 🛑 **RÈGLE DU STOP** : Si tu touches à `messaging` ou `shared`, STOP IMMÉDIAT après le changeset !");
    reveal_strlit("🌐 **Contrats Protobuf & gRPC :**\n   - Pour modifier un contrat : Skill `.agents/skills/global/proto-contract-evolution/SKILL.md`\n   - Pour tracer une méthode RPC : MCP `analyze_grpc({ target: \"...\" })`\n   - 🛑 **RÈGLE BLOQUANTE (CASCADE CI)** : `proto-registry` génère une PR dans `npm-packages` au merge. Attends la publication NPM avant de toucher aux microservices !");
    reveal_strlit("📦 **Packages Partagés (Monorepo npm-packages) :**\n   - Pour modifier un paquet partagé : Skill `.agents/skills/global/shared-npm-package-change/SKILL.md`\n   - Pour trouver qui l'importe : MCP `find_dependents({ target: \"...\" })`\n   - 🛑 **RÈGLE DU STOP IMMÉDIAT** : Interdiction formelle de modifier les microservices tant que la CI n'a pas publié le paquet !");
    assert(JOB_ADVICE@[0] != NPM_ADVICE@[0]);
    assert(EVENT_ADVICE@[0] != NPM_ADVICE@[0]);
    assert(PROTO_ADVICE@[0] != NPM_ADVICE@[0]);
    assert(JOB_ADVICE@[0] != EVENT_ADVICE@[0]);
    assert(PROTO_ADVICE@[0] != EVENT_ADVICE@[0]);
    assert(PROTO_ADVICE@[0] != JOB_ADVICE@[0]);
}

proof fn lemma_advice_members(q: Seq<char>, t: Seq<char>)
    ensures
        advice_list(q, t).contains(JOB_ADVICE@) <== about_jobs(q, t),
        advice_list(q, t).contains(EVENT_ADVICE@) <== about_events(q, t),
        advice_list(q, t).contains(PROTO_ADVICE@) <== about_protos(q, t),
        about_packages(q, t) && !about_jobs(q, t) && !about_events(q, t) ==> advice_list(q, t).contains(NPM_ADVICE@),
        about_jobs(q, t) || about_events(q, t) ==> !advice_list(q, t).contains(NPM_ADVICE@),
{
    lemma_advice_distinct();
    let a = if about_jobs(q, t) { seq![JOB_ADVICE@] } else { Seq::<Seq<char>>::empty() };
    let b = if about_events(q, t) { seq![EVENT_ADVICE@] } else { Seq::<Seq<char>>::empty() };
    let c = if about_protos(q, t) { seq![PROTO_ADVICE@] } else { Seq::<Seq<char>>::empty() };
    let d = if about_packages(q, t) && !about_jobs(q, t) && !about_events(q, t) {
        seq![NPM_ADVICE@]
    } else {
        Seq::<Seq<char>>::empty()
    };
    let l = advice_list(q, t);
    assert(l =~= a + b + c + d);
    if about_jobs(q, t) {
        assert(l[0] == JOB_ADVICE@);
    }
    if about_events(q, t) {
        assert(l[a.len() as int] == EVENT_ADVICE@);
    }
    if about_protos(q, t) {
        assert(l[(a.len() + b.len()) as int] == PROTO_ADVICE@);
    }
    if about_packages(q, t) && !about_jobs(q, t) && !about_events(q, t) {
        assert(l[(a.len() + b.len() + c.len()) as int] == NPM_ADVICE@);
    }
    if about_jobs(q, t) || about_events(q, t) {
        assert forall|i: int| 0 <= i < l.len() implies l[i] != NPM_ADVICE@ by {
            if i < a.len() {
                assert(l[i] == a[i]);
            } else if i < a.len() + b.len() {
                assert(l[i] == b[i - a.len()]);
            } else {
                assert(l[i] == c[i - a.len() - b.len()]);
            }
        }
    }
}

/// The shared-packages advice is given only alone of its kind: never
/// together with the job advice or the event advice.
pub proof fn lemma_packages_advice_alone(q: Seq<char>, t: Seq<char>)
    ensures
        advice_list(q, t).contains(NPM_ADVICE@) ==> !advice_list(q, t).contains(JOB_ADVICE@) && !advice_list(
            q,
            t,
        ).contains(EVENT_ADVICE@),
{
    lemma_advice_distinct();
    let l = advice_list(q, t);
    lemma_advice_members(q, t);
    if l.contains(NPM_ADVICE@) {
        assert(!about_jobs(q, t) && !about_events(q, t));
        let a = if about_protos(q, t) { seq![PROTO_ADVICE@] } else { Seq::<Seq<char>>::empty() };
        let d = if about_packages(q, t) { seq![NPM_ADVICE@] } else { Seq::<Seq<char>>::empty() };
        assert(l =~= a + d);
        assert forall|i: int| 0 <= i < l.len() implies l[i] != JOB_ADVICE@ && l[i] != EVENT_ADVICE@ by {
            if i < a.len() {
                assert(l[i] == PROTO_ADVICE@);
            } else {
                assert(l[i] == NPM_ADVICE@);
            }
        }
    }
}

/// A query that speaks of events, streams, scatter-gather or sagas gets the
/// event advice and never the shared-packages advice; one that speaks of
/// jobs, BullMQ or workers gets the job advice and never the
/// shared-packages advice; one that speaks of Protobuf or gRPC gets the
/// contract advice; whatever sections were found.
pub proof fn lemma_flow_queries_advice(query: Seq<char>, secs: Seq<DocSection>)
    ensures
        ({
            let q = lower(query);
            let l = advice_list(q, combined_text(secs));
            &&& contains(q, "event"@) || contains(q, "stream"@) || contains(q, "scatter"@) || contains(q, "saga"@)
                ==> l.contains(EVENT_ADVICE@) && !l.contains(NPM_ADVICE@)
            &&& contains(q, "job"@) || contains(q, "bullmq"@) || contains(q, "worker"@) ==> l.contains(JOB_ADVICE@)
                && !l.contains(NPM_ADVICE@)
            &&& contains(q, "proto"@) || contains(q, "grpc"@) ==> l.contains(PROTO_ADVICE@)
        }),
{
    lemma_advice_members(lower(query), combined_text(secs));
}

/// The guidance block for a query and the sections found, when some advice applies.
pub open spec fn recommendations(query: Seq<char>, secs: Seq<DocSection>) -> Option<Seq<char>> {
    let list = advice_list(lower(query), combined_text(secs));
    if list.len() == 0 {
        None
    } else {
        Some(GUIDANCE_HEAD@ + join(list, "\n\n"@) + GUIDANCE_TAIL@)
    }
}

fn contains_lit(s: &Vec<char>, p: &str) -> (r: bool)
    ensures
        r == contains(s@, p@),
{
    contains_str(s, p)
}

/// The operational guidance for a query and the sections that answer it:
/// advice on jobs, on events, on Protobuf contracts, and on shared packages
/// (only without the first two), or `None` when none applies.
pub fn generate_recommendations(query: &str, matched_sections: &[&DocSection]) -> (r: Option<String>)
    ensures
        match r {
            Some(t) => recommendations(query@, derefs(matched_sections@)) == Some(t@),
            None => recommendations(query@, derefs(matched_sections@)) is None,
        },
{
    let ql = to_lowercase(query);
    let q = chars_of(ql.as_str());
    let ghost secs = derefs(matched_sections@);
    let mut pieces: Vec<Vec<char>> = Vec::new();
    let mut i: usize = 0;
    while i < matched_sections.len()
        invariant
            secs == derefs(matched_sections@),
            0 <= i <= secs.len(),
            pieces@.len() == i,
            forall|k: int| 0 <= k < i ==> #[trigger] pieces@[k]@ == lower(secs[k].title@) + " "@ + lower(secs[k].content@),
        decreases secs.len() - i,
    {
        let sec = matched_sections[i];
        let tl = to_lowercase(sec.title.as_str());
        let cl = to_lowercase(sec.content.as_str());
        let mut piece = chars_of(tl.as_str());
        push_str(&mut piece, " ");
        push_str(&mut piece, cl.as_str());
        pieces.push(piece);
        i = i + 1;
    }
    let t = join_seqs(&pieces, " ");
    assert(pieces@.map_values(|p: Vec<char>| p@) =~= Seq::new(
        secs.len(),
        |i: int| lower(secs[i].title@) + " "@ + lower(secs[i].content@),
    ));
    let has_job = contains_lit(&q, "job") || contains_lit(&q, "bullmq") || contains_lit(&q, "worker")
        || contains_lit(&t, "jobs_outbox") || contains_lit(&t, "job_audit") || contains_lit(&t, "baseworker");
    let has_event = contains_lit(&q, "event") || contains_lit(&q, "stream") || contains_lit(&q, "scatter")
        || contains_lit(&q, "saga") || contains_lit(&t, "event_outbox") || contains_lit(&t, "batchpostprocessor")
        || contains_lit(&t, "scatter-gather");
    let has_proto = contains_lit(&q, "proto") || contains_lit(&q, "grpc") || contains_lit(&t, "proto-registry")
        || contains_lit(&t, "@volontariapp/contracts");
    let has_npm = contains_lit(&q, "npm") || contains_lit(&q, "package") || contains_lit(&t, "changeset")
        || contains_lit(&t, "@volontariapp/domain-");
    let mut recs: Vec<Vec<char>> = Vec::new();
    if has_job {
        recs.push(chars_of(JOB_ADVICE));
    }
    if has_event {
        recs.push(chars_of(EVENT_ADVICE));
    }
    if has_proto {
        recs.push(chars_of(PROTO_ADVICE));
    }
    if has_npm && !has_job && !has_event {
        recs.push(chars_of(NPM_ADVICE));
    }
    assert(recs@.map_values(|p: Vec<char>| p@) =~= advice_list(q@, t@));
    if recs.len() == 0 {
        return None;
    }
    let mut out = chars_of(GUIDANCE_HEAD);
    let body = join_seqs(&recs, "\n\n");
    push_seq(&mut out, &body);
    push_str(&mut out, GUIDANCE_TAIL);
    Some(string_from_chars(&out))
}


/// The query as searched: trimmed and lower-cased.
pub open spec fn clean_query(q: Seq<char>) -> Seq<char> {
    lower(trim(q))
}

/// A word that counts in a search: not a stop word, and longer than one byte.
pub open spec fn keep_word(w: Seq<char>) -> bool {
    !stop_words().contains(w) && byte_len(w) > 1
}

/// The words among the first `n` of `ws` that count, in order.
pub open spec fn kept_words(ws: Seq<Seq<char>>, n: int) -> Seq<Seq<char>>
    decreases n,
{
    if n <= 0 || n > ws.len() {
        seq![]
    } else {
        let r = kept_words(ws, n - 1);
        if keep_word(ws[n - 1]) {
            r.push(ws[n - 1])
        } else {
            r
        }
    }
}

/// The words searched for: those of the cleaned query that count, or all
/// of its words when none does.
pub open spec fn search_words(qc: Seq<char>) -> Seq<Seq<char>> {
    let raw = split_ws(qc);
    let k = kept_words(raw, raw.len() as int);
    if k.len() == 0 {
        raw
    } else {
        k
    }
}

/// The synonyms of every searched word, in order.
pub open spec fn all_synonyms(words: Seq<Seq<char>>) -> Seq<Seq<char>> {
    flatten_n(words.len(), |i: int| synonyms(words[i]))
}

/// Points for the exact phrase: 60 in the title, else 25 in the content.
pub open spec fn phrase_points(tl: Seq<char>, cl: Seq<char>, qc: Seq<char>) -> nat {
    if qc.len() > 0 {
        if contains(tl, qc) {
            60
        } else if contains(cl, qc) {
            25
        } else {
            0
        }
    } else {
        0
    }
}

/// Points for one searched word: 15 in the file name, 12 in the title, 8
/// more when it is a whole word of the title, 3 in the content.
pub open spec fn word_points(tl: Seq<char>, cl: Seq<char>, fl: Seq<char>, w: Seq<char>) -> nat {
    (if contains(fl, w) { 15nat } else { 0nat }) + (if contains(tl, w) { 12nat } else { 0nat }) + (if split_ws(
        tl,
    ).contains(w) {
        8nat
    } else {
        0nat
    }) + (if contains(cl, w) { 3nat } else { 0nat })
}

/// Points for one synonym: 6 in the title, 2 in the content.
pub open spec fn syn_points(tl: Seq<char>, cl: Seq<char>, s: Seq<char>) -> nat {
    (if contains(tl, s) { 6nat } else { 0nat }) + (if contains(cl, s) { 2nat } else { 0nat })
}

/// The relevance of a section (title, content and file name compared
/// lower-cased).
pub open spec fn section_score(
    sec: DocSection,
    qc: Seq<char>,
    words: Seq<Seq<char>>,
    syns: Seq<Seq<char>>,
) -> nat {
    let tl = lower(sec.title@);
    let cl = lower(sec.content@);
    let fl = lower(sec.file_name@);
    phrase_points(tl, cl, qc) + sum_n(words.len(), |i: int| word_points(tl, cl, fl, words[i])) + sum_n(
        syns.len(),
        |i: int| syn_points(tl, cl, syns[i]),
    )
}

/// The cleaned query, the searched words and their synonyms.
fn search_terms(query: &str) -> (r: (Vec<char>, Vec<String>, Vec<Vec<char>>))
    ensures
        r.0@ == clean_query(query@),
        texts(r.1@) == search_words(clean_query(query@)),
        r.2@.map_values(|v: Vec<char>| v@) == all_synonyms(search_words(clean_query(query@))),
{
    let qv = chars_of(query);
    let qt = trim_seq(&qv);
    let qts = string_from_chars(&qt);
    let ql = to_lowercase(qts.as_str());
    let qc = chars_of(ql.as_str());
    let raw = split_ws_seq(&qc);
    let ghost rw = split_ws(qc@);
    let mut kept: Vec<String> = Vec::new();
    let mut i: usize = 0;
    while i < raw.len()
        invariant
            rw == split_ws(qc@),
            raw@.len() == rw.len(),
            forall|k: int| 0 <= k < raw@.len() ==> #[trigger] raw@[k]@ == rw[k],
            0 <= i <= raw@.len(),
            texts(kept@) == kept_words(rw, i as int),
        decreases raw@.len() - i,
    {
        let w = &raw[i];
        let keep = !is_stop_word(w) && byte_len_exec(w) > 1;
        if keep {
            let ghost before = texts(kept@);
            kept.push(string_from_chars(w));
            assert(texts(kept@) =~= before.push(w@));
        }
        i = i + 1;
    }
    let words: Vec<String> = if kept.len() == 0 {
        let mut all: Vec<String> = Vec::new();
        let mut j: usize = 0;
        while j < raw.len()
            invariant
                raw@.len() == rw.len(),
                forall|k: int| 0 <= k < raw@.len() ==> #[trigger] raw@[k]@ == rw[k],
                0 <= j <= raw@.len(),
                texts(all@) == rw.take(j as int),
            decreases raw@.len() - j,
        {
            let ghost before = texts(all@);
            assert(raw@[j as int]@ == rw[j as int]);
            all.push(string_from_chars(&raw[j]));
            assert(texts(all@) =~= before.push(rw[j as int]));
            assert(rw.take(j + 1) =~= rw.take(j as int).push(rw[j as int]));
            j = j + 1;
        }
        assert(rw.take(j as int) =~= rw);
        all
    } else {
        kept
    };
    let ghost ws = search_words(qc@);
    assert(texts(words@) == ws);
    let mut syns: Vec<Vec<char>> = Vec::new();
    let ghost f = |i: int| synonyms(ws[i]);
    let mut j: usize = 0;
    while j < words.len()
        invariant
            ws == texts(words@),
            f == (|i: int| synonyms(ws[i])),
            0 <= j <= words@.len(),
            syns@.map_values(|v: Vec<char>| v@) == flatten_n(j as nat, f),
        decreases words@.len() - j,
    {
        let list = expand_synonyms(words[j].as_str());
        assert(words@[j as int]@ == ws[j as int]);
        let ghost before = syns@.map_values(|v: Vec<char>| v@);
        let mut k: usize = 0;
        while k < list.len()
            invariant
                0 <= k <= list@.len(),
                0 <= j < ws.len(),
                strs(list@) == synonyms(ws[j as int]),
                syns@.map_values(|v: Vec<char>| v@) == before + strs(list@).take(k as int),
            decreases list@.len() - k,
        {
            let ghost b2 = syns@.map_values(|v: Vec<char>| v@);
            syns.push(chars_of(list[k]));
            assert(syns@.map_values(|v: Vec<char>| v@) =~= b2.push(strs(list@)[k as int]));
            assert(strs(list@).take(k + 1) =~= strs(list@).take(k as int).push(strs(list@)[k as int]));
            k = k + 1;
        }
        assert(strs(list@).take(k as int) =~= strs(list@));
        j = j + 1;
    }
    (qc, words, syns)
}


/// Whether `w` is one of the whole words of `ws`.
fn has_word(ws: &Vec<Vec<char>>, w: &Vec<char>) -> (r: bool)
    ensures
        r == ws@.map_values(|v: Vec<char>| v@).contains(w@),
{
    let ghost vs = ws@.map_values(|v: Vec<char>| v@);
    let mut i: usize = 0;
    while i < ws.len()
        invariant
            vs == ws@.map_values(|v: Vec<char>| v@),
            0 <= i <= ws@.len(),
            forall|k: int| 0 <= k < i ==> vs[k] != w@,
        decreases ws@.len() - i,
    {
        if seq_eq(&ws[i], w) {
            assert(vs[i as int] == w@);
            return true;
        }
        i = i + 1;
    }
    false
}

/// The relevance score of one section (see `section_score`).
fn score_section(sec: &DocSection, qc: &Vec<char>, words: &Vec<String>, syns: &Vec<Vec<char>>) -> (r: u128)
    ensures
        r == section_score(*sec, qc@, texts(words@), syns@.map_values(|v: Vec<char>| v@)),
        r <= 60 + 38 * words@.len() + 8 * syns@.len(),
{
    let ghost ws = texts(words@);
    let ghost ss = syns@.map_values(|v: Vec<char>| v@);
    let tls = to_lowercase(sec.title.as_str());
    let tl = chars_of(tls.as_str());
    let cls = to_lowercase(sec.content.as_str());
    let cl = chars_of(cls.as_str());
    let fls = to_lowercase(sec.file_name.as_str());
    let fl = chars_of(fls.as_str());
    let title_words = split_ws_seq(&tl);
    assert(title_words@.map_values(|v: Vec<char>| v@) =~= split_ws(tl@));
    let mut phrase: u128 = 0;
    if qc.len() > 0 {
        if contains_seq(&tl, qc) {
            phrase = 60;
        } else if contains_seq(&cl, qc) {
            phrase = 25;
        }
    }
    let ghost fw = |i: int| word_points(tl@, cl@, fl@, ws[i]);
    let mut wsum: u128 = 0;
    let mut i: usize = 0;
    while i < words.len()
        invariant
            ws == texts(words@),
            fw == (|i: int| word_points(tl@, cl@, fl@, ws[i])),
            title_words@.map_values(|v: Vec<char>| v@) == split_ws(tl@),
            0 <= i <= words@.len(),
            wsum == sum_n(i as nat, fw),
            wsum <= 38 * i,
        decreases words@.len() - i,
    {
        let w = chars_of(words[i].as_str());
        assert(w@ == ws[i as int]);
        let mut pts: u128 = 0;
        if contains_seq(&fl, &w) {
            pts = pts + 15;
        }
        if contains_seq(&tl, &w) {
            pts = pts + 12;
        }
        if has_word(&title_words, &w) {
            pts = pts + 8;
        }
        if contains_seq(&cl, &w) {
            pts = pts + 3;
        }
        assert(pts == fw(i as int));
        wsum = wsum + pts;
        i = i + 1;
    }
    let ghost fs = |i: int| syn_points(tl@, cl@, ss[i]);
    let mut ssum: u128 = 0;
    let mut j: usize = 0;
    while j < syns.len()
        invariant
            ss == syns@.map_values(|v: Vec<char>| v@),
            fs == (|i: int| syn_points(tl@, cl@, ss[i])),
            0 <= j <= syns@.len(),
            ssum == sum_n(j as nat, fs),
            ssum <= 8 * j,
        decreases syns@.len() - j,
    {
        let s = &syns[j];
        assert(s@ == ss[j as int]);
        let mut pts: u128 = 0;
        if contains_seq(&tl, s) {
            pts = pts + 6;
        }
        if contains_seq(&cl, s) {
            pts = pts + 2;
        }
        assert(pts == fs(j as int));
        ssum = ssum + pts;
        j = j + 1;
    }
    phrase + wsum + ssum
}


/// Position and score of each of the first `n` sections that score above zero.
pub open spec fn scored_sections(
    secs: Seq<DocSection>,
    qc: Seq<char>,
    words: Seq<Seq<char>>,
    syns: Seq<Seq<char>>,
    n: int,
) -> Seq<(usize, i128)>
    decreases n,
{
    if n <= 0 || n > secs.len() {
        seq![]
    } else {
        let r = scored_sections(secs, qc, words, syns, n - 1);
        let sc = section_score(secs[n - 1], qc, words, syns);
        if sc > 0 {
            r.push(((n - 1) as usize, sc as i128))
        } else {
            r
        }
    }
}

/// The (at most `max`) best sections for a query: position and score,
/// highest score first, equal scores in index order.
pub open spec fn ranked_sections(secs: Seq<DocSection>, query: Seq<char>, max: nat) -> Seq<(usize, i128)> {
    let qc = clean_query(query);
    let words = search_words(qc);
    first_n(sort_desc(scored_sections(secs, qc, words, all_synonyms(words), secs.len() as int)), max)
}

proof fn lemma_scored_sections(
    secs: Seq<DocSection>,
    qc: Seq<char>,
    words: Seq<Seq<char>>,
    syns: Seq<Seq<char>>,
    n: int,
)
    requires
        0 <= n <= secs.len() <= usize::MAX,
    ensures
        ({
            let r = scored_sections(secs, qc, words, syns, n);
            &&& forall|i: int|
                0 <= i < r.len() ==> (#[trigger] r[i]).0 < n && section_score(secs[r[i].0 as int], qc, words, syns)
                    > 0 && r[i].1 == section_score(secs[r[i].0 as int], qc, words, syns) as i128
            &&& forall|i: int, j: int| 0 <= i < j < r.len() ==> (#[trigger] r[i]).0 < (#[trigger] r[j]).0
        }),
    decreases n,
{
    if n > 0 {
        lemma_scored_sections(secs, qc, words, syns, n - 1);
        let p = scored_sections(secs, qc, words, syns, n - 1);
        let r = scored_sections(secs, qc, words, syns, n);
        let sc = section_score(secs[n - 1], qc, words, syns);
        if sc > 0 {
            assert(r == p.push(((n - 1) as usize, sc as i128)));
            assert(((n - 1) as usize) as int == n - 1);
        } else {
            assert(r == p);
        }
    }
}

/// What `search_docs` ranks: at most `max` sections, each one a section of
/// the index that scores above zero, listed with its score from the highest
/// score down and none twice; and when fewer than `max` are listed, every
/// section that scores above zero is among them.
pub proof fn lemma_search_docs_ranking(secs: Seq<DocSection>, query: Seq<char>, max: nat)
    requires
        secs.len() <= usize::MAX,
    ensures
        ({
            let qc = clean_query(query);
            let words = search_words(qc);
            let syns = all_synonyms(words);
            let r = ranked_sections(secs, query, max);
            &&& r.len() <= max
            &&& descending(r)
            &&& forall|i: int|
                0 <= i < r.len() ==> (#[trigger] r[i]).0 < secs.len() && section_score(
                    secs[r[i].0 as int],
                    qc,
                    words,
                    syns,
                ) > 0 && r[i].1 == section_score(secs[r[i].0 as int], qc, words, syns) as i128
            &&& forall|i: int, j: int| 0 <= i < j < r.len() ==> (#[trigger] r[i]).0 != (#[trigger] r[j]).0
            &&& r.len() < max ==> forall|k: int|
                0 <= k < secs.len() && section_score(secs[k], qc, words, syns) > 0 ==> exists|i: int|
                    0 <= i < r.len() && (#[trigger] r[i]).0 == k
        }),
{
    let qc = clean_query(query);
    let words = search_words(qc);
    let syns = all_synonyms(words);
    let s = scored_sections(secs, qc, words, syns, secs.len() as int);
    let t = sort_desc(s);
    let r = ranked_sections(secs, query, max);
    lemma_scored_sections(secs, qc, words, syns, secs.len() as int);
    lemma_sort_desc(s);
    broadcast use vstd::seq_lib::group_to_multiset_ensures;
    assert forall|i: int| 0 <= i < t.len() implies s.contains(#[trigger] t[i]) by {
        assert(t.to_multiset().contains(t[i]));
    }
    assert forall|i: int| 0 <= i < r.len() implies t.contains(#[trigger] r[i]) by {
        assert(r[i] == t[i]);
    }
    assert forall|i: int, j: int| 0 <= i < j < r.len() implies (#[trigger] r[i]).0 != (#[trigger] r[j]).0 by {
        assert(r[i] == t[i] && r[j] == t[j]);
        assert(s.contains(t[i]) && s.contains(t[j]));
        let a = choose|a: int| 0 <= a < s.len() && s[a] == t[i];
        let b = choose|b: int| 0 <= b < s.len() && s[b] == t[j];
        if a == b {
            // t holds each entry of s as often as s does; equal entries at
            // two places of t would need two places of s.
            assert(t.to_multiset().count(t[i]) >= 2) by {
                lemma_count_two(t, i, j);
            }
            lemma_count_one(s, a);
        }
    }
    if r.len() < max {
        assert(r =~= t);
        assert forall|k: int|
            0 <= k < secs.len() && section_score(secs[k], qc, words, syns) > 0 implies exists|i: int|
                0 <= i < r.len() && (#[trigger] r[i]).0 == k by {
            lemma_scored_holds(secs, qc, words, syns, secs.len() as int, k);
            let a = choose|a: int| 0 <= a < s.len() && (#[trigger] s[a]).0 == k;
            assert(s.to_multiset().contains(s[a]));
            assert(t.contains(s[a]));
            let i = choose|i: int| 0 <= i < t.len() && t[i] == s[a];
            assert(r[i].0 == k);
        }
    }
}

proof fn lemma_scored_holds(
    secs: Seq<DocSection>,
    qc: Seq<char>,
    words: Seq<Seq<char>>,
    syns: Seq<Seq<char>>,
    n: int,
    k: int,
)
    requires
        0 <= k < n <= secs.len() <= usize::MAX,
        section_score(secs[k], qc, words, syns) > 0,
    ensures
        exists|a: int|
            0 <= a < scored_sections(secs, qc, words, syns, n).len() && (#[trigger] scored_sections(
                secs,
                qc,
                words,
                syns,
                n,
            )[a]).0 == k,
    decreases n,
{
    let r = scored_sections(secs, qc, words, syns, n);
    if k == n - 1 {
        assert(r[r.len() - 1].0 == k);
    } else {
        lemma_scored_holds(secs, qc, words, syns, n - 1, k);
        let p = scored_sections(secs, qc, words, syns, n - 1);
        let a = choose|a: int| 0 <= a < p.len() && (#[trigger] p[a]).0 == k;
        assert(r[a] == p[a]);
    }
}

proof fn lemma_count_two(t: Seq<(usize, i128)>, i: int, j: int)
    requires
        0 <= i < j < t.len(),
        t[i] == t[j],
    ensures
        t.to_multiset().count(t[i]) >= 2,
    decreases t.len(),
{
    broadcast use vstd::seq_lib::group_to_multiset_ensures;
    let last = t.last();
    let init = t.drop_last();
    assert(t =~= init.push(last));
    if j < t.len() - 1 {
        lemma_count_two(init, i, j);
        assert(init[i] == t[i]);
    } else {
        assert(init[i] == t[i]);
        assert(init.contains(t[i]));
        assert(init.to_multiset().count(t[i]) >= 1);
    }
}

proof fn lemma_count_one(s: Seq<(usize, i128)>, a: int)
    requires
        0 <= a < s.len(),
        forall|i: int, j: int| 0 <= i < j < s.len() ==> (#[trigger] s[i]).0 < (#[trigger] s[j]).0,
    ensures
        s.to_multiset().count(s[a]) == 1,
    decreases s.len(),
{
    broadcast use vstd::seq_lib::group_to_multiset_ensures;
    let last = s.last();
    let init = s.drop_last();
    assert(s =~= init.push(last));
    if a < s.len() - 1 {
        lemma_count_one(init, a);
        assert(init[a] == s[a]);
        assert(s[a] != last) by {
            assert(s[a].0 < s[s.len() - 1].0);
        }
    } else {
        assert forall|i: int| 0 <= i < init.len() implies init[i] != last by {
            assert(init[i] == s[i]);
            assert(s[i].0 < s[s.len() - 1].0);
        }
        assert(!init.contains(last));
        assert(init.to_multiset().count(last) == 0);
    }
}

/// The sections of a ranking.
pub open spec fn ranked_refs(secs: Seq<DocSection>, ranked: Seq<(usize, i128)>) -> Seq<DocSection> {
    Seq::new(ranked.len(), |i: int| secs[ranked[i].0 as int])
}

/// The sections that the references point to.
pub open spec fn derefs(v: Seq<&DocSection>) -> Seq<DocSection> {
    v.map_values(|r: &DocSection| *r)
}

/// Every excerpt of a ranked section can be cut on character boundaries.
pub open spec fn docs_cuttable(secs: Seq<DocSection>, query: Seq<char>, max: nat) -> bool {
    let r = ranked_sections(secs, query, max);
    let qc = clean_query(query);
    forall|i: int|
        0 <= i < r.len() ==> snippet_of(secs[(#[trigger] r[i]).0 as int].content@, qc, search_words(qc)) is Some
}

/// The file link of a section: its absolute path, or its path under the
/// workspace root, with the line anchor.
pub open spec fn section_link(sec: DocSection, root: Seq<char>) -> Seq<char> {
    if starts_with(sec.file_path@, "/"@) {
        sec.file_path@ + "#L"@ + dec(sec.line_number as nat)
    } else {
        trim_end_char(root, '/') + "/"@ + trim_start_char(sec.file_path@, '/') + "#L"@ + dec(
            sec.line_number as nat,
        )
    }
}

/// The block of the answer for one ranked section.
pub open spec fn section_block(sec: DocSection, score: i128, qc: Seq<char>, words: Seq<Seq<char>>, root: Seq<char>) -> Seq<char> {
    rule() + "📑 ["@ + sec.file_name@ + ":L"@ + dec(sec.line_number as nat) + "] "@ + sec.title@ + " (Score: "@
        + dec(score as nat) + ")\n   Lien : file://"@ + section_link(sec, root) + "\n"@ + rule()
        + snippet_of(sec.content@, qc, words)->0 + "\n\n"@
}

/// The distinct titles of the first `n` sections, in order of first appearance.
pub open spec fn unique_titles(secs: Seq<DocSection>, n: int) -> Seq<Seq<char>>
    decreases n,
{
    if n <= 0 || n > secs.len() {
        seq![]
    } else {
        let r = unique_titles(secs, n - 1);
        if r.contains(secs[n - 1].title@) {
            r
        } else {
            r.push(secs[n - 1].title@)
        }
    }
}

/// The answer when no section scores: the titles closest to the query.
pub open spec fn fallback_text(secs: Seq<DocSection>, query: Seq<char>) -> Seq<char> {
    let titles = unique_titles(secs, secs.len() as int);
    let best = best_matches(titles, query, 5);
    "Aucune section exacte trouvée pour '"@ + query + "' dans la documentation C4.\n"@ + if best.len() > 0 {
        "\n💡 Suggestions lexicales les plus proches dans la documentation :\n"@ + concat_map(
            best.len(),
            |i: int| "  - `"@ + titles[best[i].0 as int] + "` (score: "@ + dec_int(best[i].1 as int) + ")\n"@,
        ) + "\nTu peux relancer `search_docs` avec l'un de ces termes."@
    } else {
        seq![]
    }
}

/// The answer of `search_docs`.
pub open spec fn docs_report(secs: Seq<DocSection>, query: Seq<char>, max: nat, root: Seq<char>) -> Seq<char> {
    let r = ranked_sections(secs, query, max);
    let qc = clean_query(query);
    let words = search_words(qc);
    if r.len() == 0 {
        fallback_text(secs, query)
    } else {
        "📚 Documentation C4 : "@ + dec(r.len()) + " résultat(s) pertinent(s) pour '"@ + query + "'\n\n"@
            + concat_map(r.len(), |i: int| section_block(secs[r[i].0 as int], r[i].1, qc, words, root))
            + match recommendations(query, ranked_refs(secs, r)) {
            Some(t) => t,
            None => seq![],
        }
    }
}

fn rank_sections(secs: &Vec<DocSection>, query: &str, max: usize) -> (r: (Vec<char>, Vec<String>, Vec<(usize, i128)>))
    ensures
        r.0@ == clean_query(query@),
        texts(r.1@) == search_words(clean_query(query@)),
        r.2@ == ranked_sections(secs@, query@, max as nat),
        forall|k: int| 0 <= k < r.2@.len() ==> #[trigger] r.2@[k].0 < secs@.len() && r.2@[k].1 >= 0,
{
    let (qc, words, syns) = search_terms(query);
    let ghost ws = texts(words@);
    let ghost ss = syns@.map_values(|v: Vec<char>| v@);
    let mut scored: Vec<(usize, i128)> = Vec::new();
    let mut i: usize = 0;
    while i < secs.len()
        invariant
            ws == texts(words@),
            ss == syns@.map_values(|v: Vec<char>| v@),
            0 <= i <= secs@.len(),
            scored@ == scored_sections(secs@, qc@, ws, ss, i as int),
            forall|k: int| 0 <= k < scored@.len() ==> #[trigger] scored@[k].0 < i && scored@[k].1 >= 0,
        decreases secs@.len() - i,
    {
        let sc = score_section(&secs[i], &qc, &words, &syns);
        let ghost wl = words@.len();
        let ghost sl = syns@.len();
        assert(wl == words.len() && sl == syns.len());
        assert(sc <= 60 + 38 * wl + 8 * sl);
        if sc > 0 {
            scored.push((i, sc as i128));
        }
        i = i + 1;
    }
    let ghost all = scored@;
    let mut ranked = sort_by_score_desc(scored);
    proof {
        lemma_sort_desc(all);
        broadcast use vstd::seq_lib::group_to_multiset_ensures;
        assert forall|k: int| 0 <= k < ranked@.len() implies #[trigger] ranked@[k].0 < secs@.len() && ranked@[k].1 >= 0 by {
            assert(ranked@.contains(ranked@[k]));
            assert(ranked@.to_multiset().contains(ranked@[k]));
            assert(all.contains(ranked@[k]));
        }
    }
    keep_first(&mut ranked, max);
    (qc, words, ranked)
}

#[verifier::spinoff_prover]
fn push_section_block(
    out: &mut Vec<char>,
    sec: &DocSection,
    score: i128,
    qc: &Vec<char>,
    words: &Vec<String>,
    root: &str,
)
    requires
        score >= 0,
        snippet_of(sec.content@, qc@, texts(words@)) is Some,
    ensures
        final(out)@ == old(out)@ + section_block(*sec, score, qc@, texts(words@), root@),
{
    let ghost start = out@;
    push_str(out, "================================================================================\n");
    push_str(out, "📑 [");
    push_str(out, sec.file_name.as_str());
    push_str(out, ":L");
    let ln = usize_dec(sec.line_number);
    push_seq(out, &ln);
    push_str(out, "] ");
    push_str(out, sec.title.as_str());
    push_str(out, " (Score: ");
    let sd = u128_dec(score as u128);
    push_seq(out, &sd);
    push_str(out, ")\n   Lien : file://");
    let ghost head = out@;
    assert(head =~= start + (rule() + "📑 ["@ + sec.file_name@ + ":L"@ + dec(sec.line_number as nat) + "] "@
        + sec.title@ + " (Score: "@ + dec(score as nat) + ")\n   Lien : file://"@));
    let fp = chars_of(sec.file_path.as_str());
    if starts_with_str(&fp, "/") {
        push_seq(out, &fp);
    } else {
        let rc = chars_of(root);
        let rt = trim_end_char_seq(&rc, '/');
        push_seq(out, &rt);
        push_str(out, "/");
        let pt = trim_start_char_seq(&fp, '/');
        push_seq(out, &pt);
    }
    push_str(out, "#L");
    push_seq(out, &ln);
    assert(out@ =~= head + section_link(*sec, root@));
    let ghost linked = out@;
    push_str(out, "\n");
    push_str(out, "================================================================================\n");
    let qs = string_from_chars(qc);
    let snippet = format_content_snippet(sec.content.as_str(), qs.as_str(), words.as_slice());
    push_str(out, snippet.as_str());
    push_str(out, "\n\n");
    assert(out@ =~= linked + ("\n"@ + rule() + snippet_of(sec.content@, qc@, texts(words@))->0 + "\n\n"@));
    assert(out@ =~= start + section_block(*sec, score, qc@, texts(words@), root@));
}

fn fallback_exec(secs: &Vec<DocSection>, query: &str) -> (r: Vec<char>)
    ensures
        r@ == fallback_text(secs@, query@),
{
    let mut titles: Vec<String> = Vec::new();
    let mut i: usize = 0;
    while i < secs.len()
        invariant
            0 <= i <= secs@.len(),
            texts(titles@) == unique_titles(secs@, i as int),
        decreases secs@.len() - i,
    {
        let t = chars_of(secs[i].title.as_str());
        let mut seen = false;
        let mut k: usize = 0;
        while k < titles.len()
            invariant
                0 <= k <= titles@.len(),
                seen == exists|j: int| 0 <= j < k && texts(titles@)[j] == t@,
            decreases titles@.len() - k,
        {
            let tk = chars_of(titles[k].as_str());
            assert(texts(titles@)[k as int] == tk@);
            if seq_eq(&tk, &t) {
                seen = true;
            }
            k = k + 1;
        }
        if !seen {
            let ghost before = texts(titles@);
            titles.push(secs[i].title.clone());
            assert(texts(titles@) =~= before.push(t@));
        }
        i = i + 1;
    }
    let engine = FuzzyEngine::new();
    let best = engine.find_best_matches(query, titles.as_slice(), 5);
    let ghost tv = texts(titles@);
    let ghost bm = best_matches(tv, query@, 5);
    let mut out: Vec<char> = Vec::new();
    push_str(&mut out, "Aucune section exacte trouvée pour '");
    push_str(&mut out, query);
    push_str(&mut out, "' dans la documentation C4.\n");
    if best.len() > 0 {
        push_str(&mut out, "\n💡 Suggestions lexicales les plus proches dans la documentation :\n");
        let ghost head = out@;
        let ghost f = |i: int| "  - `"@ + tv[bm[i].0 as int] + "` (score: "@ + dec_int(bm[i].1 as int) + ")\n"@;
        let mut j: usize = 0;
        while j < best.len()
            invariant
                tv == texts(titles@),
                bm == best_matches(tv, query@, 5),
                best@.len() == bm.len(),
                forall|q: int|
                    0 <= q < best@.len() ==> {
                        let b = #[trigger] bm[q];
                        &&& b.0 < titles@.len()
                        &&& *best@[q].0 == titles@[b.0 as int]
                        &&& best@[q].1 as i128 == b.1
                    },
                f == (|i: int| "  - `"@ + tv[bm[i].0 as int] + "` (score: "@ + dec_int(bm[i].1 as int) + ")\n"@),
                0 <= j <= best@.len(),
                out@ == head + concat_map(j as nat, f),
            decreases best@.len() - j,
        {
            let (t, sc) = best[j];
            let ghost b = bm[j as int];
            push_str(&mut out, "  - `");
            push_str(&mut out, t.as_str());
            push_str(&mut out, "` (score: ");
            let d = i64_dec(sc);
            push_seq(&mut out, &d);
            push_str(&mut out, ")\n");
            assert(out@ =~= head + concat_map(j as nat, f) + f(j as int));
            j = j + 1;
        }
        push_str(&mut out, "\nTu peux relancer `search_docs` avec l'un de ces termes.");
    }
    assert(out@ =~= fallback_text(secs@, query@));
    out
}

/// The answer of `search_docs` for `query` (see `docs_report`): the best
/// `max_sections` sections with their excerpt and file link, then the
/// guidance that applies; or the closest titles when no section scores.
pub fn query_docs(index: &DocIndex, query: &str, max_sections: usize, root_dir: &str) -> (r: String)
    requires
        docs_cuttable(index.sections@, query@, max_sections as nat),
    ensures
        r@ == docs_report(index.sections@, query@, max_sections as nat, root_dir@),
{
    let secs = &index.sections;
    let (qc, words, ranked) = rank_sections(secs, query, max_sections);
    if ranked.len() == 0 {
        let fb = fallback_exec(secs, query);
        return string_from_chars(&fb);
    }
    let ghost ws = texts(words@);
    let ghost rk = ranked@;
    let mut out: Vec<char> = Vec::new();
    push_str(&mut out, "📚 Documentation C4 : ");
    let n = usize_dec(ranked.len());
    push_seq(&mut out, &n);
    push_str(&mut out, " résultat(s) pertinent(s) pour '");
    push_str(&mut out, query);
    push_str(&mut out, "'\n\n");
    let ghost head = out@;
    let ghost f = |i: int| section_block(secs@[rk[i].0 as int], rk[i].1, qc@, ws, root_dir@);
    let mut tops: Vec<&DocSection> = Vec::new();
    let mut i: usize = 0;
    while i < ranked.len()
        invariant
            rk == ranked@,
            ws == texts(words@),
            qc@ == clean_query(query@),
            ws == search_words(qc@),
            rk == ranked_sections(secs@, query@, max_sections as nat),
            docs_cuttable(secs@, query@, max_sections as nat),
            forall|k: int| 0 <= k < rk.len() ==> #[trigger] rk[k].0 < secs@.len() && rk[k].1 >= 0,
            f == (|i: int| section_block(secs@[rk[i].0 as int], rk[i].1, qc@, ws, root_dir@)),
            0 <= i <= rk.len(),
            out@ == head + concat_map(i as nat, f),
            derefs(tops@) == ranked_refs(secs@, rk).take(i as int),
        decreases rk.len() - i,
    {
        let (idx, sc) = ranked[i];
        assert(rk[i as int] == (idx, sc));
        assert(snippet_of(secs@[idx as int].content@, qc@, ws) is Some);
        push_section_block(&mut out, &secs[idx], sc, &qc, &words, root_dir);
        assert(out@ =~= head + concat_map(i as nat, f) + f(i as int));
        let ghost before = derefs(tops@);
        tops.push(&secs[idx]);
        assert(derefs(tops@) =~= before.push(secs@[idx as int]));
        assert(ranked_refs(secs@, rk).take(i + 1) =~= ranked_refs(secs@, rk).take(i as int).push(secs@[idx as int]));
        i = i + 1;
    }
    assert(derefs(tops@) =~= ranked_refs(secs@, rk));
    match generate_recommendations(query, tops.as_slice()) {
        Some(reco) => {
            push_str(&mut out, reco.as_str());
        },
        None => {},
    }
    string_from_chars(&out)
}


/// `query_docs` on every input: `None` exactly when an excerpt of a ranked
/// section would have to be cut inside a character.
pub fn query_docs_checked(index: &DocIndex, query: &str, max_sections: usize, root_dir: &str) -> (r: Option<String>)
    ensures
        r is Some <==> docs_cuttable(index.sections@, query@, max_sections as nat),
        r matches Some(t) ==> t@ == docs_report(index.sections@, query@, max_sections as nat, root_dir@),
{
    let secs = &index.sections;
    let (qc, words, ranked) = rank_sections(secs, query, max_sections);
    let qs = string_from_chars(&qc);
    let mut i: usize = 0;
    while i < ranked.len()
        invariant
            secs@ == index.sections@,
            qc@ == clean_query(query@),
            qs@ == qc@,
            texts(words@) == search_words(qc@),
            ranked@ == ranked_sections(secs@, query@, max_sections as nat),
            forall|k: int| 0 <= k < ranked@.len() ==> #[trigger] ranked@[k].0 < secs@.len() && ranked@[k].1 >= 0,
            0 <= i <= ranked@.len(),
            forall|k: int|
                0 <= k < i ==> snippet_of(secs@[(#[trigger] ranked@[k]).0 as int].content@, qc@, search_words(qc@)) is Some,
        decreases ranked@.len() - i,
    {
        let (idx, _) = ranked[i];
        if !snippet_cuttable(secs[idx].content.as_str(), qs.as_str(), words.as_slice()) {
            assert(!docs_cuttable(secs@, query@, max_sections as nat)) by {
                assert(ranked@[i as int].0 == idx);
            }
            return None;
        }
        i = i + 1;
    }
    Some(query_docs(index, query, max_sections, root_dir))
}

} // verus!
