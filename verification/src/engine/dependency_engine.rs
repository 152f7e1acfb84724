//! The import graph: which files import a symbol or a package.
use vstd::prelude::*;

use crate::engine::state::AppState;
use crate::pattern::{caps_view, captures_of, group, regex_captures, span_chars, span_text, Span};
use crate::std_text::string_from_chars;
use crate::strmap::{StrMap, StrSet, views};
use crate::text::{
    before_first, before_first_seq, chars_of, contains, ends_with, ends_with_str, flatten_n, lemma_contains_sub,
    lemma_first_occ, lemma_no_occ, lemma_trim_idem, lemma_trim_shape, occurs_at, split_char, split_char_seq,
    strictly_sorted, trim, trim_seq,
};

verus! {

/// The import statements recognised: `import { A, B as C } from 'pkg'` or
/// `import A from 'pkg'` at the start of a line.
pub const IMPORT_PATTERN: &'static str =
    r#"(?m)^import\s+(?:\{([^}]+)\}|([a-zA-Z0-9_*]+))\s+from\s+['"]([^'"]+)['"]"#;

/// The symbol named by one entry of an import list: the text before ` as `,
/// trimmed; nothing for an empty entry.
pub open spec fn import_symbol(entry: Seq<char>) -> Seq<Seq<char>> {
    let s = trim(entry);
    if s.len() > 0 {
        seq![trim(before_first(s, " as "@))]
    } else {
        seq![]
    }
}

/// An entry of an import list without ` as ` names itself, trimmed (a
/// blank entry names nothing).
pub proof fn lemma_entry_without_alias(entry: Seq<char>)
    requires
        !contains(entry, " as "@),
    ensures
        import_symbol(entry) == (if trim(entry).len() > 0 { seq![trim(entry)] } else { seq![] }),
{
    let r = lemma_trim_shape(entry);
    let s = trim(entry);
    if contains(s, " as "@) {
        lemma_contains_sub(entry, r.0, r.1, " as "@);
    }
    lemma_no_occ(s, " as "@, 0);
    lemma_trim_idem(entry);
}

/// An entry `x as y`, where `x` holds the first ` as `, names `x`, trimmed:
/// an imported name is renamed only at ` as `, never inside a name.
pub proof fn lemma_entry_with_alias(entry: Seq<char>, x: Seq<char>, y: Seq<char>)
    requires
        trim(entry) == x + " as "@ + y,
        forall|j: int| 0 <= j < x.len() ==> !occurs_at(trim(entry), " as "@, j),
    ensures
        import_symbol(entry) == seq![trim(x)],
{
    reveal_strlit(" as ");
    let s = trim(entry);
    assert(s.subrange(x.len() as int, x.len() + 4int) =~= " as "@);
    lemma_first_occ(s, " as "@, 0, x.len() as int);
    assert(s.take(x.len() as int) =~= x);
}

/// The symbols of a `{ ... }` import list, in order.
pub open spec fn import_symbols(block: Seq<char>) -> Seq<Seq<char>> {
    let pieces = split_char(block, ',');
    flatten_n(pieces.len(), |i: int| import_symbol(pieces[i]))
}

/// The names one import statement contributes: the package, then the listed
/// symbols, then the default symbol.
pub open spec fn capture_imports(content: Seq<char>, cap: Seq<Span>) -> Seq<Seq<char>> {
    (match group(cap, 3) {
        Some(sp) => seq![span_text(content, sp)],
        None => seq![],
    }) + (match group(cap, 1) {
        Some(sp) => import_symbols(span_text(content, sp)),
        None => seq![],
    }) + (match group(cap, 2) {
        Some(sp) => seq![trim(span_text(content, sp))],
        None => seq![],
    })
}

/// The packages and symbols that a TypeScript source imports, in order.
pub open spec fn imports_of(content: Seq<char>) -> Seq<Seq<char>> {
    let caps = regex_captures(IMPORT_PATTERN@, content);
    flatten_n(caps.len(), |i: int| capture_imports(content, caps[i]))
}

fn push_symbols(out: &mut Vec<String>, block: &Vec<char>)
    ensures
        views(final(out)@) == views(old(out)@) + import_symbols(block@),
{
    let pieces = split_char_seq(block, ',');
    let ghost ps = split_char(block@, ',');
    let ghost f = |i: int| import_symbol(ps[i]);
    let ghost start = views(out@);
    let sep = chars_of(" as ");
    let mut i: usize = 0;
    while i < pieces.len()
        invariant
            pieces@.len() == ps.len(),
            forall|k: int| 0 <= k < pieces@.len() ==> #[trigger] pieces@[k]@ == ps[k],
            f == (|i: int| import_symbol(ps[i])),
            sep@ == " as "@,
            0 <= i <= pieces@.len(),
            views(out@) == start + flatten_n(i as nat, f),
        decreases pieces@.len() - i,
    {
        let s = trim_seq(&pieces[i]);
        let ghost before = views(out@);
        if s.len() > 0 {
            let head = before_first_seq(&s, &sep);
            let t = trim_seq(&head);
            let ts = string_from_chars(&t);
            out.push(ts);
            assert(views(out@) =~= before.push(t@));
        }
        assert(views(out@) =~= start + flatten_n(i as nat, f) + f(i as int));
        i = i + 1;
    }
}

/// The packages and symbols imported by a TypeScript source: for each
/// import statement, the package, then each symbol of a `{ ... }` list (the
/// name before ` as `), then a default symbol.
pub fn extract_imports(content: &str) -> (r: Vec<String>)
    ensures
        views(r@) == imports_of(content@),
{
    let caps = captures_of(IMPORT_PATTERN, content);
    imports_from_captures(content, &caps)
}

/// The names that the given import statements contribute, in order: the
/// statements are given as the capture spans of their matches in `content`.
pub fn imports_from_captures(content: &str, caps: &Vec<Vec<Span>>) -> (r: Vec<String>)
    ensures
        views(r@) == flatten_n(caps@.len(), |i: int| capture_imports(content@, caps_view(caps@)[i])),
{
    let ghost cs = caps_view(caps@);
    let ghost f = |i: int| capture_imports(content@, cs[i]);
    let text = chars_of(content);
    let mut out: Vec<String> = Vec::new();
    let mut i: usize = 0;
    assert(views(out@) =~= flatten_n(0, f));
    while i < caps.len()
        invariant
            caps@.len() == cs.len(),
            forall|k: int| 0 <= k < caps@.len() ==> #[trigger] caps@[k]@ == cs[k],
            f == (|i: int| capture_imports(content@, cs[i])),
            text@ == content@,
            0 <= i <= caps@.len(),
            views(out@) == flatten_n(i as nat, f),
        decreases caps@.len() - i,
    {
        let cap = &caps[i];
        let ghost c = cs[i as int];
        assert(cap@ == c);
        let ghost before = views(out@);
        let g3 = if cap.len() > 3 { cap[3] } else { None };
        let g1 = if cap.len() > 1 { cap[1] } else { None };
        let g2 = if cap.len() > 2 { cap[2] } else { None };
        assert(g3 == group(c, 3) && g1 == group(c, 1) && g2 == group(c, 2));
        match g3 {
            Some(sp) => {
                let pkg = span_chars(&text, sp);
                out.push(string_from_chars(&pkg));
            },
            None => {},
        }
        let ghost mid1 = views(out@);
        match g1 {
            Some(sp) => {
                let block = span_chars(&text, sp);
                push_symbols(&mut out, &block);
            },
            None => {},
        }
        let ghost mid2 = views(out@);
        match g2 {
            Some(sp) => {
                let sym = span_chars(&text, sp);
                let t = trim_seq(&sym);
                out.push(string_from_chars(&t));
            },
            None => {},
        }
        let ghost p3: Seq<Seq<char>> = match g3 {
            Some(sp) => seq![span_text(content@, sp)],
            None => seq![],
        };
        let ghost p1: Seq<Seq<char>> = match g1 {
            Some(sp) => import_symbols(span_text(content@, sp)),
            None => seq![],
        };
        let ghost p2: Seq<Seq<char>> = match g2 {
            Some(sp) => seq![trim(span_text(content@, sp))],
            None => seq![],
        };
        assert(mid1 =~= before + p3);
        assert(mid2 =~= mid1 + p1);
        assert(views(out@) =~= mid2 + p2);
        assert(capture_imports(content@, c) == p3 + p1 + p2);
        assert(views(out@) =~= before + capture_imports(content@, c));
        assert(views(out@) =~= flatten_n(i as nat, f) + f(i as int));
        i = i + 1;
    }
    out
}

/// The import graph as a map from imported name to the set of importing files.
pub open spec fn dep_view(m: StrMap<StrSet>) -> Map<Seq<char>, Set<Seq<char>>> {
    Map::new(|k: Seq<char>| m.has(k), |k: Seq<char>| m.spec_get(k)->0.to_set())
}

/// The files recorded for `k` (none when `k` is absent).
pub open spec fn dependents_of(m: Map<Seq<char>, Set<Seq<char>>>, k: Seq<char>) -> Set<Seq<char>> {
    if m.contains_key(k) {
        m[k]
    } else {
        Set::empty()
    }
}

/// Records that `path` imports `key`.
pub fn add_dependent(deps: &mut StrMap<StrSet>, key: String, path: String)
    ensures
        dep_view(*final(deps)) == dep_view(*old(deps)).insert(
            key@,
            dependents_of(dep_view(*old(deps)), key@).insert(path@),
        ),
        old(deps).distinct() ==> final(deps).distinct(),
{
    let ghost old_m = *deps;
    let ghost kv = key@;
    let n = deps.len();
    let i = deps.index_or_insert(key, StrSet::new());
    let ghost mid = *deps;
    let set = deps.val_mut(i);
    set.insert(path);
    proof {
        let fm = *deps;
        mid.lemma_first_from_bounds(kv, 0);
        assert forall|q: Seq<char>| q != kv implies fm.has(q) == old_m.has(q) && (fm.has(q) ==> fm.spec_get(q) == old_m.spec_get(q)) by {
            mid.lemma_first_from_same_keys(fm, q, 0);
            mid.lemma_first_from_bounds(q, 0);
            old_m.lemma_first_from_bounds(q, 0);
            if old_m.has(kv) {
            } else if old_m.has(q) {
                old_m.lemma_first_from_prefix(mid, q, 0);
            } else {
                old_m.lemma_first_from_absent(mid, kv, q, 0);
            }
        }
        mid.lemma_first_from_same_keys(fm, kv, 0);
        assert(fm.distinct() == mid.distinct());
        assert(dep_view(fm) =~= dep_view(old_m).insert(kv, dependents_of(dep_view(old_m), kv).insert(path@))) by {
            if old_m.has(kv) {
                assert(old_m.spec_get(kv)->0 == mid.val_at(i as int));
            } else {
                assert(mid.val_at(i as int).elems() == Seq::<Seq<char>>::empty());
                assert(mid.val_at(i as int).to_set() =~= Set::<Seq<char>>::empty());
            }
        }
    }
}

/// The graph after recording that `path` imports each of `imports`.
pub open spec fn deps_with(
    m: Map<Seq<char>, Set<Seq<char>>>,
    imports: Seq<Seq<char>>,
    path: Seq<char>,
) -> Map<Seq<char>, Set<Seq<char>>>
    decreases imports.len(),
{
    if imports.len() == 0 {
        m
    } else {
        let m0 = deps_with(m, imports.drop_last(), path);
        m0.insert(imports.last(), dependents_of(m0, imports.last()).insert(path))
    }
}

/// Recording a file's imports adds that file to the dependents of exactly
/// the names it imports: a name is in the graph afterwards when it was
/// before or is imported, and its dependents are those it had, plus the
/// file when the file imports it.
pub proof fn lemma_indexing_adds_the_file(
    m: Map<Seq<char>, Set<Seq<char>>>,
    imports: Seq<Seq<char>>,
    path: Seq<char>,
    name: Seq<char>,
)
    ensures
        deps_with(m, imports, path).contains_key(name) == (m.contains_key(name) || imports.contains(name)),
        dependents_of(deps_with(m, imports, path), name) == if imports.contains(name) {
            dependents_of(m, name).insert(path)
        } else {
            dependents_of(m, name)
        },
    decreases imports.len(),
{
    if imports.len() > 0 {
        let rest = imports.drop_last();
        lemma_indexing_adds_the_file(m, rest, path, name);
        assert(imports.contains(name) == (rest.contains(name) || imports.last() == name)) by {
            if imports.contains(name) {
                let j = choose|j: int| 0 <= j < imports.len() && imports[j] == name;
                if j < imports.len() - 1 {
                    assert(rest[j] == name);
                }
            }
            if rest.contains(name) {
                let j = choose|j: int| 0 <= j < rest.len() && rest[j] == name;
                assert(imports[j] == name);
            }
            if imports.last() == name {
                assert(imports[imports.len() - 1] == name);
            }
        }
        if imports.last() == name && rest.contains(name) {
            assert(dependents_of(m, name).insert(path).insert(path) =~= dependents_of(m, name).insert(path));
        }
    }
}

/// Indexing the same file twice leaves the graph as indexing it once.
pub proof fn lemma_indexing_is_idempotent(m: Map<Seq<char>, Set<Seq<char>>>, imports: Seq<Seq<char>>, path: Seq<char>)
    ensures
        deps_with(deps_with(m, imports, path), imports, path) == deps_with(m, imports, path),
{
    let once = deps_with(m, imports, path);
    let twice = deps_with(once, imports, path);
    assert forall|k: Seq<char>| #[trigger] twice.contains_key(k) == once.contains_key(k) by {
        lemma_indexing_adds_the_file(m, imports, path, k);
        lemma_indexing_adds_the_file(once, imports, path, k);
    }
    assert forall|k: Seq<char>| #[trigger] once.contains_key(k) implies twice[k] == once[k] by {
        lemma_indexing_adds_the_file(m, imports, path, k);
        lemma_indexing_adds_the_file(once, imports, path, k);
        if imports.contains(k) {
            assert(dependents_of(m, k).insert(path).insert(path) =~= dependents_of(m, k).insert(path));
        }
    }
    assert(twice =~= once);
}

/// Records every import of a TypeScript source under its path.
pub fn index_file_imports(deps: &mut StrMap<StrSet>, path: &str, content: &str)
    ensures
        dep_view(*final(deps)) == deps_with(dep_view(*old(deps)), imports_of(content@), path@),
        old(deps).distinct() ==> final(deps).distinct(),
{
    let imports = extract_imports(content);
    let ghost im = views(imports@);
    let ghost m0 = dep_view(*deps);
    let ghost d0 = deps.distinct();
    let mut i: usize = 0;
    while i < imports.len()
        invariant
            im == views(imports@),
            im == imports_of(content@),
            0 <= i <= imports@.len(),
            dep_view(*deps) == deps_with(m0, im.take(i as int), path@),
            d0 ==> deps.distinct(),
        decreases imports@.len() - i,
    {
        let k = imports[i].clone();
        let p = chars_of(path);
        let ps = string_from_chars(&p);
        add_dependent(deps, k, ps);
        assert(im.take(i + 1).drop_last() =~= im.take(i as int));
        i = i + 1;
    }
    assert(im.take(i as int) =~= im);
}

/// A file whose imports are indexed: a `.ts` or `.tsx` source.
pub open spec fn is_indexed_source(path: Seq<char>) -> bool {
    ends_with(path, ".ts"@) || ends_with(path, ".tsx"@)
}

/// Whether the import index covers this file.
pub fn is_indexed_source_path(path: &str) -> (r: bool)
    ensures
        r == is_indexed_source(path@),
{
    let p = chars_of(path);
    ends_with_str(&p, ".ts") || ends_with_str(&p, ".tsx")
}

/// The files that import `target`, in increasing order, or `None` when no
/// file does.
pub fn query_dependents(state: &AppState, target: &str) -> (r: Option<Vec<String>>)
    ensures
        r is Some <==> dep_view(state.dependencies).contains_key(target@),
        r matches Some(list) ==> strictly_sorted(views(list@)) && views(list@).to_set() == dep_view(
            state.dependencies,
        )[target@],
{
    match state.dependencies.get(target) {
        Some(set) => {
            set.sorted();
            Some(set.to_vec())
        },
        None => None,
    }
}

/// The graph after recording the imports of the first `n` files (path,
/// content) that are TypeScript sources.
pub open spec fn deps_with_files(
    m: Map<Seq<char>, Set<Seq<char>>>,
    files: Seq<(Seq<char>, Seq<char>)>,
    n: nat,
) -> Map<Seq<char>, Set<Seq<char>>>
    decreases n,
{
    if n == 0 || n > files.len() {
        m
    } else {
        let m0 = deps_with_files(m, files, (n - 1) as nat);
        let (path, content) = files[n - 1];
        if is_indexed_source(path) {
            deps_with(m0, imports_of(content), path)
        } else {
            m0
        }
    }
}

/// Records the imports of every TypeScript source among `files`, each given
/// as (path, content), in order.
pub fn index_sources(deps: &mut StrMap<StrSet>, files: &Vec<(String, String)>)
    ensures
        dep_view(*final(deps)) == deps_with_files(
            dep_view(*old(deps)),
            files@.map_values(|f: (String, String)| (f.0@, f.1@)),
            files@.len(),
        ),
        old(deps).distinct() ==> final(deps).distinct(),
{
    let ghost fs = files@.map_values(|f: (String, String)| (f.0@, f.1@));
    let ghost m0 = dep_view(*deps);
    let ghost d0 = deps.distinct();
    let mut i: usize = 0;
    while i < files.len()
        invariant
            fs == files@.map_values(|f: (String, String)| (f.0@, f.1@)),
            0 <= i <= files@.len(),
            dep_view(*deps) == deps_with_files(m0, fs, i as nat),
            d0 ==> deps.distinct(),
        decreases files@.len() - i,
    {
        let f = &files[i];
        assert(fs[i as int] == (f.0@, f.1@));
        if is_indexed_source_path(f.0.as_str()) {
            index_file_imports(deps, f.0.as_str(), f.1.as_str());
        }
        i = i + 1;
    }
}

} // verus!
