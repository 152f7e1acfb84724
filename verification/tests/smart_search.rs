use meta_indexer::domain::async_flow::AsyncFlowGraph;
use meta_indexer::domain::doc_entry::DocIndex;
use meta_indexer::domain::grpc_flow::GrpcFlowGraph;
use meta_indexer::engine::dependency_engine::index_file_imports;
use meta_indexer::engine::state::AppState;
use meta_indexer::tools::ast_parser::{
    context_from_outline, parse_source_context, NodeSpan, ParsedContext, SyntaxOutline,
};
use meta_indexer::tools::smart_search::{
    finish_search_text, hit_path, is_context_source, push_hit, rg_found_nothing, rg_hits, search_base_path,
    search_candidates, search_fallback, search_text_fits,
};

const TS: &str = "import { A } from './a';\nimport B from 'b';\n\nexport class Foo {\n  bar() {\n    return 1;\n  }\n}\n";

#[test]
fn base_path_from_scope() {
    assert_eq!(search_base_path("/w", "/abs/dir"), "/abs/dir");
    assert_eq!(search_base_path("/w", "./ms-user"), "/w/ms-user");
    assert_eq!(search_base_path("/w", "ms-user"), "/w/ms-user");
    assert_eq!(search_base_path("/w", "./././x"), "/w/x");
    assert_eq!(hit_path("/w", "src/a.ts"), "/w/src/a.ts");
}

#[test]
fn ripgrep_lines_first_hit_per_file() {
    let out = "src/a.ts:12:const a = 1;\nsrc/a.ts:14:more\nREADME:x:bad\nsrc/b.md:3:with:colons\nnocolon\n";
    let hits = rg_hits(out);
    assert_eq!(hits.len(), 2);
    assert_eq!(hits[0].file, "src/a.ts");
    assert_eq!(hits[0].line, 12);
    assert_eq!(hits[0].rest, "const a = 1;");
    assert_eq!(hits[1].file, "src/b.md");
    assert_eq!(hits[1].rest, "with:colons");
    let many: String = (0..30).map(|i| format!("f{}.ts:{}:x\n", i, i + 1)).collect();
    assert_eq!(rg_hits(&many).len(), 20);
    assert!(rg_found_nothing("  \n\t"));
    assert!(!rg_found_nothing(" a "));
}

#[test]
fn hits_are_shown_with_context_or_text() {
    assert!(is_context_source("a.yml") && is_context_source("a.tsx") && !is_context_source("a.md"));
    let hits = rg_hits("a.md:1:plain text\n");
    let mut out = String::from(">");
    push_hit(&mut out, &hits[0], &None);
    assert_eq!(out, ">\n=== Fichier: a.md ===\nplain text");
    let ctx = Some(ParsedContext { imports: "import x;\n".to_string(), target_block: "class A {}".to_string() });
    let mut out2 = String::new();
    push_hit(&mut out2, &hits[0], &ctx);
    assert_eq!(
        out2,
        "\n=== Fichier: a.md ===\n--- Imports (Contrats & Dépendances) ---\nimport x;\n\n--- Contexte Sémantique (Minifié RTK) ---\nclass A {}\n"
    );
}

#[test]
fn long_answers_are_cut() {
    let short = "abc";
    assert!(search_text_fits(short));
    assert_eq!(finish_search_text(short), "abc");
    let long = "x".repeat(20005);
    assert!(search_text_fits(&long));
    let cut = finish_search_text(&long);
    assert_eq!(cut.len(), 20000 + "\n... (résultats tronqués)".len());
    assert!(cut.ends_with("\n... (résultats tronqués)"));
    let mut split = "x".repeat(19999);
    split.push('é');
    split.push_str("tail");
    assert!(!search_text_fits(&split));
}

#[test]
fn fuzzy_fallback_over_known_symbols() {
    let mut st = AppState::new("/w".to_string(), AsyncFlowGraph::new(), GrpcFlowGraph::new(), DocIndex::default());
    index_file_imports(&mut st.dependencies, "/a.ts", "import { UserAuthRequest } from 'contracts';\n");
    let cands = search_candidates(&st);
    assert_eq!(cands, vec!["contracts".to_string(), "UserAuthRequest".to_string()]);
    let text = search_fallback(&st, "UserAuth", "/w");
    assert!(text.starts_with("Aucun résultat exact trouvé avec Ripgrep pour 'UserAuth' dans '/w'.\n"));
    assert!(text.contains("  - `UserAuthRequest` (score: "));
    let none = search_fallback(&st, "zzzzqqq", "/w");
    assert_eq!(none, "Aucun résultat exact trouvé avec Ripgrep pour 'zzzzqqq' dans '/w'.\n");
}

#[test]
fn context_of_a_line() {
    let c = parse_source_context(TS, 6).unwrap();
    assert_eq!(c.imports, "import { A } from './a';\nimport B from 'b';\n");
    assert_eq!(c.target_block, "bar() {\n    return 1;\n  }");
    let decl = parse_source_context("let x = 1;\n\n\nfoo();\n", 1).unwrap();
    assert_eq!(decl.imports, "");
    assert_eq!(decl.target_block, "let x = 1;");
    let whole = parse_source_context("let x = 1;\n\n\nfoo();\n", 4).unwrap();
    assert!(whole.target_block.starts_with("let x = 1;\n\n\nfoo();"));
}

#[test]
fn context_from_a_given_outline() {
    let src = "import a;\nclass K { m() {} }\n";
    let o = SyntaxOutline {
        top_level: vec![
            NodeSpan { kind: "import_statement".to_string(), start: 0, end: 9 },
            NodeSpan { kind: "class_declaration".to_string(), start: 10, end: 28 },
        ],
        ancestors: vec![
            NodeSpan { kind: "statement_block".to_string(), start: 24, end: 26 },
            NodeSpan { kind: "method_definition".to_string(), start: 20, end: 26 },
            NodeSpan { kind: "program".to_string(), start: 0, end: 29 },
        ],
        root: NodeSpan { kind: "program".to_string(), start: 0, end: 29 },
    };
    let c = context_from_outline(src, &o);
    assert_eq!(c.imports, "import a;\n");
    assert_eq!(c.target_block, "m() {}");
}

#[test]
fn a_line_outside_every_named_node_gets_the_whole_file() {
    let src = "import a;\nfoo();\n";
    let o = SyntaxOutline {
        top_level: vec![NodeSpan { kind: "import_statement".to_string(), start: 0, end: 9 }],
        ancestors: vec![],
        root: NodeSpan { kind: "program".to_string(), start: 0, end: 17 },
    };
    let c = context_from_outline(src, &o);
    assert_eq!(c.imports, "import a;\n");
    assert_eq!(c.target_block, "import a;\nfoo();\n");
}
