//! The `smart_search` tool: where to search, how ripgrep's hits are read,
//! how each hit is shown, and the fuzzy fallback over the known symbols.
use vstd::prelude::*;

use crate::domain::async_flow::{events_view, jobs_view};
use crate::domain::grpc_flow::services_view;
use crate::engine::fuzzy_engine::{best_matches, texts, FuzzyEngine};
use crate::engine::state::AppState;
use crate::infrastructure::scanners::doc_scanner::{str_lines, str_lines_exec};
use crate::pattern::{boundary_exec, byte_len_exec, char_at_byte, char_index_wide, is_boundary};
use crate::ranking::first_n;
use crate::std_text::string_from_chars;
use crate::strmap::views;
use crate::text::{
    chars_of, concat_map, dec, flatten_n, dec_int, ends_with, ends_with_str, find_from, first_occ_from, i64_dec,
    lemma_first_occ, lemma_no_occ, owned, parse_usize, parse_usize_seq, push_seq, push_str, seq_eq, slice,
    starts_with, starts_with_str, trim, trim_seq, trim_start_str, trim_start_str_seq,
};
use crate::tools::ast_parser::ParsedContext;
use crate::utf8_len::byte_len;

verus! {

/// The directory searched: `scope` when absolute, else `scope` (without
/// leading `./`) under the workspace root.
pub open spec fn base_path_of(root: Seq<char>, scope: Seq<char>) -> Seq<char> {
    if starts_with(scope, "/"@) {
        scope
    } else {
        root + "/"@ + trim_start_str(scope, "./"@)
    }
}

/// The directory searched for a scope.
pub fn search_base_path(root_dir: &str, scope: &str) -> (r: String)
    ensures
        r@ == base_path_of(root_dir@, scope@),
{
    let s = chars_of(scope);
    if starts_with_str(&s, "/") {
        return owned(scope);
    }
    let mut out = chars_of(root_dir);
    push_str(&mut out, "/");
    let dot = chars_of("./");
    let t = trim_start_str_seq(&s, &dot);
    push_seq(&mut out, &t);
    string_from_chars(&out)
}


/// The keys of an association list.
pub open spec fn keys_of<W>(s: Seq<(Seq<char>, W)>) -> Seq<Seq<char>> {
    s.map_values(|p: (Seq<char>, W)| p.0)
}

/// The symbols offered for fuzzy matching: the imported names, the events,
/// the jobs, then each gRPC service's name followed by its methods.
pub open spec fn search_candidates_of(st: AppState) -> Seq<Seq<char>> {
    let ss = services_view(st.grpc_flow.services);
    st.dependencies.key_seq() + keys_of(events_view(st.async_flow.events)) + keys_of(jobs_view(st.async_flow.jobs))
        + flatten_n(ss.len(), |i: int| seq![ss[i].1.service_name] + keys_of(ss[i].1.methods))
}

fn push_keys<V>(out: &mut Vec<String>, m: &crate::strmap::StrMap<V>)
    ensures
        texts(final(out)@) == texts(old(out)@) + m.key_seq(),
{
    let ghost start = texts(out@);
    let mut i: usize = 0;
    while i < m.len()
        invariant
            0 <= i <= m.spec_len(),
            texts(out@) == start + m.key_seq().take(i as int),
        decreases m.spec_len() - i,
    {
        let ghost before = texts(out@);
        out.push(m.key(i).clone());
        assert(texts(out@) =~= before.push(m.key_at(i as int)));
        assert(m.key_seq().take(i + 1) =~= m.key_seq().take(i as int).push(m.key_at(i as int)));
        i = i + 1;
    }
    assert(m.key_seq().take(i as int) =~= m.key_seq());
}

/// The symbols offered for fuzzy matching (see `search_candidates_of`).
pub fn search_candidates(state: &AppState) -> (r: Vec<String>)
    ensures
        texts(r@) == search_candidates_of(*state),
{
    let mut out: Vec<String> = Vec::new();
    push_keys(&mut out, &state.dependencies);
    push_keys(&mut out, &state.async_flow.events);
    assert(state.async_flow.events.key_seq() =~= keys_of(events_view(state.async_flow.events)));
    push_keys(&mut out, &state.async_flow.jobs);
    assert(state.async_flow.jobs.key_seq() =~= keys_of(jobs_view(state.async_flow.jobs)));
    let ghost head = texts(out@);
    let ghost ss = services_view(state.grpc_flow.services);
    let ghost f = |i: int| seq![ss[i].1.service_name] + keys_of(ss[i].1.methods);
    let n = state.grpc_flow.services.len();
    let mut i: usize = 0;
    while i < n
        invariant
            n == state.grpc_flow.services.spec_len(),
            ss == services_view(state.grpc_flow.services),
            f == (|i: int| seq![ss[i].1.service_name] + keys_of(ss[i].1.methods)),
            0 <= i <= n,
            texts(out@) == head + flatten_n(i as nat, f),
        decreases n - i,
    {
        let svc = state.grpc_flow.services.val(i);
        let ghost before = texts(out@);
        out.push(svc.service_name.clone());
        push_keys(&mut out, &svc.methods);
        assert(svc.methods.key_seq() =~= keys_of(ss[i as int].1.methods));
        assert(texts(out@) =~= before + f(i as int));
        i = i + 1;
    }
    out
}

/// The answer when ripgrep finds nothing: the symbols closest to the query.
pub open spec fn search_fallback_text(query: Seq<char>, base: Seq<char>, cands: Seq<Seq<char>>) -> Seq<char> {
    let best = best_matches(cands, query, 5);
    "Aucun résultat exact trouvé avec Ripgrep pour '"@ + query + "' dans '"@ + base + "'.\n"@ + if best.len()
        > 0 {
        "\n💡 Suggestions lexicales les plus proches (Fuzzy Match) :\n"@ + concat_map(
            best.len(),
            |i: int| "  - `"@ + cands[best[i].0 as int] + "` (score: "@ + dec_int(best[i].1 as int) + ")\n"@,
        )
            + "\nTu peux relancer `smart_search`, `find_dependents` ou `analyze_impact` avec l'une de ces suggestions."@
    } else {
        seq![]
    }
}

/// The answer when ripgrep finds nothing for `query` under `base_path` (see
/// `search_fallback_text`, over `search_candidates_of`).
pub fn search_fallback(state: &AppState, query: &str, base_path: &str) -> (r: String)
    ensures
        r@ == search_fallback_text(query@, base_path@, search_candidates_of(*state)),
{
    let cands = search_candidates(state);
    let engine = FuzzyEngine::new();
    let best = engine.find_best_matches(query, cands.as_slice(), 5);
    let ghost tv = texts(cands@);
    let ghost bm = best_matches(tv, query@, 5);
    let mut out: Vec<char> = Vec::new();
    push_str(&mut out, "Aucun résultat exact trouvé avec Ripgrep pour '");
    push_str(&mut out, query);
    push_str(&mut out, "' dans '");
    push_str(&mut out, base_path);
    push_str(&mut out, "'.\n");
    if best.len() > 0 {
        push_str(&mut out, "\n💡 Suggestions lexicales les plus proches (Fuzzy Match) :\n");
        let ghost head = out@;
        let ghost f = |i: int| "  - `"@ + tv[bm[i].0 as int] + "` (score: "@ + dec_int(bm[i].1 as int) + ")\n"@;
        let mut j: usize = 0;
        while j < best.len()
            invariant
                tv == texts(cands@),
                bm == best_matches(tv, query@, 5),
                best@.len() == bm.len(),
                forall|q: int|
                    0 <= q < best@.len() ==> {
                        let b = #[trigger] bm[q];
                        &&& b.0 < cands@.len()
                        &&& *best@[q].0 == cands@[b.0 as int]
                        &&& best@[q].1 as i128 == b.1
                    },
                f == (|i: int| "  - `"@ + tv[bm[i].0 as int] + "` (score: "@ + dec_int(bm[i].1 as int) + ")\n"@),
                0 <= j <= best@.len(),
                out@ == head + concat_map(j as nat, f),
            decreases best@.len() - j,
        {
            let (t, sc) = best[j];
            push_str(&mut out, "  - `");
            push_str(&mut out, t.as_str());
            push_str(&mut out, "` (score: ");
            let d = i64_dec(sc);
            push_seq(&mut out, &d);
            push_str(&mut out, ")\n");
            assert(out@ =~= head + concat_map(j as nat, f) + f(j as int));
            j = j + 1;
        }
        push_str(
            &mut out,
            "\nTu peux relancer `smart_search`, `find_dependents` ou `analyze_impact` avec l'une de ces suggestions.",
        );
    }
    assert(out@ =~= search_fallback_text(query@, base_path@, tv));
    string_from_chars(&out)
}


/// `line.splitn(3, ':')`: the text before the first `:`, between the first
/// and the second, and after the second (the last two when present).
pub open spec fn split3(line: Seq<char>) -> (Seq<char>, Option<Seq<char>>, Option<Seq<char>>) {
    let i = first_occ_from(line, ":"@, 0);
    if i < 0 {
        (line, None, None)
    } else {
        let rest = line.subrange(i + 1, line.len() as int);
        let j = first_occ_from(rest, ":"@, 0);
        if j < 0 {
            (line.subrange(0, i), Some(rest), None)
        } else {
            (line.subrange(0, i), Some(rest.subrange(0, j)), Some(rest.subrange(j + 1, rest.len() as int)))
        }
    }
}

/// One ripgrep hit shown: file, line number and the text after them.
pub struct RgHit {
    pub file: String,
    pub line: usize,
    pub rest: String,
}

/// The hits read from the first `n` output lines: lines `file:line:text`
/// whose line number parses, the first hit of each file only.
pub open spec fn hits_of(lines: Seq<Seq<char>>, n: int) -> Seq<(Seq<char>, nat, Seq<char>)>
    decreases n,
{
    if n <= 0 || n > lines.len() {
        seq![]
    } else {
        let r = hits_of(lines, n - 1);
        let (file, num, rest) = split3(lines[n - 1]);
        match num {
            Some(ns) => match parse_usize(ns) {
                Some(v) => if r.map_values(|h: (Seq<char>, nat, Seq<char>)| h.0).contains(file) {
                    r
                } else {
                    r.push(
                        (
                            file,
                            v,
                            match rest {
                                Some(t) => t,
                                None => seq![],
                            },
                        ),
                    )
                },
                None => r,
            },
            None => r,
        }
    }
}

/// The hits read from ripgrep's output: its first 20 lines.
pub open spec fn rg_hits_of(out: Seq<char>) -> Seq<(Seq<char>, nat, Seq<char>)> {
    let lines = first_n(str_lines(out), 20);
    hits_of(lines, lines.len() as int)
}

/// The view of a hit.
pub open spec fn hit_view(h: RgHit) -> (Seq<char>, nat, Seq<char>) {
    (h.file@, h.line as nat, h.rest@)
}

fn split3_exec(line: &Vec<char>) -> (r: (Vec<char>, Option<Vec<char>>, Option<Vec<char>>))
    ensures
        (r.0@, match r.1 {
            Some(v) => Some(v@),
            None => None,
        }, match r.2 {
            Some(v) => Some(v@),
            None => None,
        }) == split3(line@),
{
    let colon = chars_of(":");
    proof {
        reveal_strlit(":");
    }
    assert(colon@.len() == 1);
    match find_from(line, &colon, 0) {
        Some(i) => {
            proof {
                lemma_first_occ(line@, colon@, 0, i as int);
            }
            let ln = line.len();
            assert(i + 1 <= ln);
            let rest = slice(line, i + 1, ln);
            let head = slice(line, 0, i);
            match find_from(&rest, &colon, 0) {
                Some(j) => {
                    proof {
                        lemma_first_occ(rest@, colon@, 0, j as int);
                    }
                    let rn = rest.len();
                    assert(j + 1 <= rn);
                    let mid = slice(&rest, 0, j);
                    let tail = slice(&rest, j + 1, rest.len());
                    (head, Some(mid), Some(tail))
                },
                None => {
                    proof {
                        lemma_no_occ(rest@, colon@, 0);
                    }
                    (head, Some(rest), None)
                },
            }
        },
        None => {
            proof {
                lemma_no_occ(line@, colon@, 0);
            }
            (line.clone(), None, None)
        },
    }
}

/// The hits of ripgrep's output (see `rg_hits_of`).
pub fn rg_hits(rg_output: &str) -> (r: Vec<RgHit>)
    ensures
        r@.map_values(|h: RgHit| hit_view(h)) == rg_hits_of(rg_output@),
{
    let text = chars_of(rg_output);
    let all = str_lines_exec(&text);
    let ghost ls = first_n(str_lines(text@), 20);
    let n: usize = if all.len() < 20 { all.len() } else { 20 };
    let mut hits: Vec<RgHit> = Vec::new();
    let mut i: usize = 0;
    while i < n
        invariant
            n <= all@.len(),
            n == ls.len(),
            all@.len() == str_lines(text@).len(),
            forall|k: int| 0 <= k < all@.len() ==> #[trigger] all@[k]@ == str_lines(text@)[k],
            ls == first_n(str_lines(text@), 20),
            0 <= i <= n,
            hits@.map_values(|h: RgHit| hit_view(h)) == hits_of(ls, i as int),
        decreases n - i,
    {
        assert(ls[i as int] == all@[i as int]@);
        let (file, num, rest) = split3_exec(&all[i]);
        let ghost hv = hits@.map_values(|h: RgHit| hit_view(h));
        match num {
            Some(ns) => match parse_usize_seq(&ns) {
                Some(v) => {
                    let mut seen = false;
                    let mut k: usize = 0;
                    while k < hits.len()
                        invariant
                            0 <= k <= hits@.len(),
                            hv == hits@.map_values(|h: RgHit| hit_view(h)),
                            seen == exists|q: int| 0 <= q < k && hv[q].0 == file@,
                        decreases hits@.len() - k,
                    {
                        let fk = chars_of(hits[k].file.as_str());
                        assert(hv[k as int].0 == fk@);
                        if seq_eq(&fk, &file) {
                            seen = true;
                        }
                        k = k + 1;
                    }
                    assert(seen == hv.map_values(|h: (Seq<char>, nat, Seq<char>)| h.0).contains(file@)) by {
                        if seen {
                            let q = choose|q: int| 0 <= q < k && hv[q].0 == file@;
                            assert(hv.map_values(|h: (Seq<char>, nat, Seq<char>)| h.0)[q] == file@);
                        }
                    }
                    if !seen {
                        let rs = match rest {
                            Some(t) => string_from_chars(&t),
                            None => String::new(),
                        };
                        hits.push(RgHit { file: string_from_chars(&file), line: v, rest: rs });
                        assert(hits@.map_values(|h: RgHit| hit_view(h)) =~= hv.push(hit_view(hits@.last())));
                    }
                },
                None => {},
            },
            None => {},
        }
        i = i + 1;
    }
    hits
}

/// A file whose hits are shown with their context: TypeScript, Rust, JSON or YAML.
pub open spec fn context_source(file: Seq<char>) -> bool {
    ends_with(file, ".ts"@) || ends_with(file, ".tsx"@) || ends_with(file, ".rs"@) || ends_with(file, ".json"@)
        || ends_with(file, ".yaml"@) || ends_with(file, ".yml"@)
}

/// Whether hits in this file are shown with their context.
pub fn is_context_source(file: &str) -> (r: bool)
    ensures
        r == context_source(file@),
{
    let f = chars_of(file);
    ends_with_str(&f, ".ts") || ends_with_str(&f, ".tsx") || ends_with_str(&f, ".rs") || ends_with_str(&f, ".json")
        || ends_with_str(&f, ".yaml") || ends_with_str(&f, ".yml")
}

/// The path of a hit's file under the searched directory.
pub fn hit_path(base_path: &str, file: &str) -> (r: String)
    ensures
        r@ == base_path@ + "/"@ + file@,
{
    let mut v = chars_of(base_path);
    push_str(&mut v, "/");
    push_str(&mut v, file);
    string_from_chars(&v)
}

/// How one hit is shown: a header with the file, then its imports and the
/// declaration around the line when they could be read, else the matched text.
pub open spec fn hit_text(file: Seq<char>, rest: Seq<char>, ctx: Option<(Seq<char>, Seq<char>)>) -> Seq<char> {
    "\n=== Fichier: "@ + file + " ===\n"@ + match ctx {
        Some((imports, block)) => (if imports.len() > 0 {
            "--- Imports (Contrats & Dépendances) ---\n"@ + imports
        } else {
            seq![]
        }) + "\n--- Contexte Sémantique (Minifié RTK) ---\n"@ + block + "\n"@,
        None => rest,
    }
}

/// The view of an optional context.
pub open spec fn ctx_view(c: Option<ParsedContext>) -> Option<(Seq<char>, Seq<char>)> {
    match c {
        Some(p) => Some((p.imports@, p.target_block@)),
        None => None,
    }
}

/// Appends how one hit is shown (see `hit_text`).
pub fn push_hit(out: &mut String, hit: &RgHit, ctx: &Option<ParsedContext>)
    ensures
        final(out)@ == old(out)@ + hit_text(hit.file@, hit.rest@, ctx_view(*ctx)),
{
    let mut v = chars_of(out.as_str());
    push_str(&mut v, "\n=== Fichier: ");
    push_str(&mut v, hit.file.as_str());
    push_str(&mut v, " ===\n");
    match ctx {
        Some(c) => {
            let ic = chars_of(c.imports.as_str());
            if ic.len() > 0 {
                push_str(&mut v, "--- Imports (Contrats & Dépendances) ---\n");
                push_seq(&mut v, &ic);
            }
            push_str(&mut v, "\n--- Contexte Sémantique (Minifié RTK) ---\n");
            push_str(&mut v, c.target_block.as_str());
            push_str(&mut v, "\n");
        },
        None => {
            push_str(&mut v, hit.rest.as_str());
        },
    }
    *out = string_from_chars(&v);
}


/// Ripgrep's output holds no hit: it is blank.
pub fn rg_found_nothing(rg_output: &str) -> (r: bool)
    ensures
        r == (trim(rg_output@).len() == 0),
{
    let c = chars_of(rg_output);
    let t = trim_seq(&c);
    t.len() == 0
}

/// The answer of `smart_search` from the hits shown: itself up to 20000
/// bytes, else its first 20000 bytes and a marker; `None` when byte 20000
/// falls inside a character (where the text cannot be cut).
pub open spec fn finished_text(s: Seq<char>) -> Option<Seq<char>> {
    if byte_len(s) > 20000 {
        if is_boundary(s, 20000) {
            Some(s.subrange(0, char_at_byte(s, 20000)) + "\n... (résultats tronqués)"@)
        } else {
            None
        }
    } else {
        Some(s)
    }
}

/// Whether the answer can be cut at 20000 bytes (see `finished_text`).
pub fn search_text_fits(s: &str) -> (r: bool)
    ensures
        r == finished_text(s@) is Some,
{
    let c = chars_of(s);
    let n = byte_len_exec(&c);
    if n > 20000 {
        boundary_exec(&c, 20000)
    } else {
        true
    }
}

/// The answer of `smart_search`, cut to 20000 bytes (see `finished_text`).
pub fn finish_search_text(s: &str) -> (r: String)
    requires
        finished_text(s@) is Some,
    ensures
        r@ == finished_text(s@)->0,
{
    let c = chars_of(s);
    let n = byte_len_exec(&c);
    if n > 20000 {
        let k = char_index_wide(&c, 20000);
        let mut out = slice(&c, 0, k);
        push_str(&mut out, "\n... (résultats tronqués)");
        string_from_chars(&out)
    } else {
        owned(s)
    }
}

} // verus!
