use meta_indexer::domain::async_flow::AsyncFlowGraph;
use meta_indexer::domain::doc_entry::DocIndex;
use meta_indexer::domain::grpc_flow::GrpcFlowGraph;
use meta_indexer::engine::dependency_engine::{
    extract_imports, index_file_imports, is_indexed_source_path, query_dependents,
};
use meta_indexer::engine::state::AppState;
use meta_indexer::strmap::{StrMap, StrSet};
use meta_indexer::tools::dependency_graph::{graph_dependents_report, update_file_in_graph};
use meta_indexer::tools::find_dependents::dependents_report;

const SOURCE: &str = "import { UserAuthRequest, Mapper as M ,  } from '@volontariapp/contracts';\nimport Lodash from \"lodash\";\n  import { Skipped } from 'indented';\nimport * as ns from 'star';\nconst x = 1;\n";

fn state() -> AppState {
    AppState::new("/w".to_string(), AsyncFlowGraph::new(), GrpcFlowGraph::new(), DocIndex::default())
}

#[test]
fn imports_are_package_then_symbols_then_default() {
    assert_eq!(
        extract_imports(SOURCE),
        vec!["@volontariapp/contracts", "UserAuthRequest", "Mapper", "lodash", "Lodash"]
    );
    assert!(extract_imports("const a = require('x');").is_empty());
}

#[test]
fn indexed_sources_are_typescript() {
    assert!(is_indexed_source_path("a/b.ts"));
    assert!(is_indexed_source_path("a/b.tsx"));
    assert!(!is_indexed_source_path("a/b.js"));
}

#[test]
fn dependents_are_sorted_and_unique() {
    let mut st = state();
    index_file_imports(&mut st.dependencies, "/z/b.ts", SOURCE);
    index_file_imports(&mut st.dependencies, "/z/a.ts", "import { UserAuthRequest } from './x';\n");
    index_file_imports(&mut st.dependencies, "/z/b.ts", SOURCE);
    assert_eq!(
        query_dependents(&st, "UserAuthRequest").unwrap(),
        vec!["/z/a.ts".to_string(), "/z/b.ts".to_string()]
    );
    assert_eq!(query_dependents(&st, "lodash").unwrap(), vec!["/z/b.ts".to_string()]);
    assert!(query_dependents(&st, "Skipped").is_none());
}

#[test]
fn find_dependents_answers() {
    let mut st = state();
    index_file_imports(&mut st.dependencies, "/ms/a.ts", SOURCE);
    let text = dependents_report(&st, "@volontariapp/contracts");
    assert!(text.starts_with(
        "Le symbole/package '@volontariapp/contracts' est importé dans 1 fichier(s) :\n\n- /ms/a.ts\n"
    ));
    assert!(text.contains("💡 GUIDANCE OPÉRATIONNELLE :"));
    let plain = dependents_report(&st, "lodash");
    assert_eq!(plain, "Le symbole/package 'lodash' est importé dans 1 fichier(s) :\n\n- /ms/a.ts\n");
    assert_eq!(
        dependents_report(&st, "nothing"),
        "Aucune dépendance trouvée pour 'nothing' dans le graphe en mémoire."
    );
}

#[test]
fn standalone_graph_answers() {
    let mut g: StrMap<StrSet> = StrMap::new();
    update_file_in_graph(&mut g, "/b.ts", "import X from 'pkg';\n");
    update_file_in_graph(&mut g, "/a.ts", "import { X } from 'other';\n");
    assert_eq!(
        graph_dependents_report(&g, "X"),
        "Le symbole/package 'X' est importé dans 2 fichier(s) :\n\n- /a.ts\n- /b.ts\n"
    );
    assert_eq!(
        graph_dependents_report(&g, "Y"),
        "Aucune dépendance trouvée pour 'Y' dans le graphe en mémoire."
    );
}

#[test]
fn sources_are_indexed_in_turn() {
    let mut st = state();
    let files = vec![
        ("/m/a.ts".to_string(), "import X from 'x';\n".to_string()),
        ("/m/b.js".to_string(), "import X from 'x';\n".to_string()),
        ("/m/c.tsx".to_string(), "import { X } from 'y';\n".to_string()),
    ];
    meta_indexer::engine::dependency_engine::index_sources(&mut st.dependencies, &files);
    assert_eq!(query_dependents(&st, "X").unwrap(), vec!["/m/a.ts".to_string(), "/m/c.tsx".to_string()]);
    assert_eq!(query_dependents(&st, "x").unwrap(), vec!["/m/a.ts".to_string()]);
}
