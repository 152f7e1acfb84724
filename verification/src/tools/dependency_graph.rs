//! The import graph as the standalone indexer keeps it: one entry per
//! imported package or symbol, with the files that import it.
use vstd::prelude::*;

use crate::engine::dependency_engine::{dep_view, deps_with, imports_of, index_file_imports, lemma_indexing_is_idempotent};
use crate::std_text::string_from_chars;
use crate::strmap::{views, StrMap, StrSet};
use crate::text::{push_str, sorted_elems};
use crate::tools::find_dependents::{importers_text, no_importer_text, push_importers};

verus! {

/// Records the imports of one TypeScript file: the file is added to the
/// importers of each package and symbol it imports (entries of files that
/// no longer import them are kept).
pub fn update_file_in_graph(graph: &mut StrMap<StrSet>, filepath: &str, content: &str)
    ensures
        dep_view(*final(graph)) == deps_with(dep_view(*old(graph)), imports_of(content@), filepath@),
        old(graph).distinct() ==> final(graph).distinct(),
{
    index_file_imports(graph, filepath, content);
}

/// Recording the same file twice leaves the graph as recording it once:
/// a second identical `update_file_in_graph` changes nothing.
pub proof fn lemma_update_twice_changes_nothing(
    graph: Map<Seq<char>, Set<Seq<char>>>,
    filepath: Seq<char>,
    content: Seq<char>,
)
    ensures
        deps_with(deps_with(graph, imports_of(content), filepath), imports_of(content), filepath) == deps_with(
            graph,
            imports_of(content),
            filepath,
        ),
{
    lemma_indexing_is_idempotent(graph, imports_of(content), filepath);
}

/// The answer of the standalone `find_dependents` for `target`: the files
/// that import it (in increasing order), or a sentence that nothing does.
pub fn graph_dependents_report(graph: &StrMap<StrSet>, target: &str) -> (r: String)
    ensures
        r@ == if dep_view(*graph).contains_key(target@) {
            importers_text(target@, sorted_elems(dep_view(*graph)[target@]))
        } else {
            no_importer_text(target@)
        },
{
    let mut out: Vec<char> = Vec::new();
    match graph.get(target) {
        Some(set) => {
            set.sorted();
            let files = set.to_vec();
            proof {
                crate::text::lemma_is_sorted_elems(views(files@), dep_view(*graph)[target@]);
            }
            push_importers(&mut out, target, &files);
        },
        None => {
            push_str(&mut out, "Aucune dépendance trouvée pour '");
            push_str(&mut out, target);
            push_str(&mut out, "' dans le graphe en mémoire.");
        },
    }
    string_from_chars(&out)
}

} // verus!
