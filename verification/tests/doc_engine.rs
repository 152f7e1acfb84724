use meta_indexer::domain::doc_entry::{DocDocument, DocIndex, DocSection};
use meta_indexer::engine::doc_engine::{
    expand_synonyms, format_content_snippet, generate_recommendations, query_docs, query_docs_checked,
    snippet_cuttable,
};

fn section(title: &str, level: usize, file_name: &str, file_path: &str, content: &str, line: usize) -> DocSection {
    DocSection {
        title: title.to_string(),
        level,
        file_name: file_name.to_string(),
        file_path: file_path.to_string(),
        content: content.to_string(),
        line_number: line,
    }
}

#[test]
fn test_exact_phrase_and_synonym_boost() {
    let mut index = DocIndex::default();
    let sec1 = section(
        "Scatter-Gather WebSocket",
        2,
        "C3-Async-Patterns-And-Flows.md",
        "docs/C3-Async-Patterns-And-Flows.md",
        "Le pattern Scatter-Gather permet d'agréger 2 feedbacks.",
        10,
    );
    let sec2 = section(
        "Architecture Générale",
        1,
        "C1-System-Context.md",
        "docs/C1-System-Context.md",
        "Volontariapp utilise du realtime.",
        1,
    );
    index.sections.push(sec1);
    index.sections.push(sec2);
    index.documents.push(DocDocument::default());

    let res = query_docs(&index, "ws scatter gather", 2, "/workspace");
    assert!(res.contains("Scatter-Gather WebSocket"));
    assert!(res.contains("GUIDANCE OPÉRATIONNELLE"));
}

#[test]
fn synonyms_of_aliases() {
    assert_eq!(expand_synonyms("k8s"), vec!["kubernetes", "deployment", "argocd", "ingress", "pod"]);
    assert_eq!(expand_synonyms("ws"), vec!["websocket", "scatter-gather", "ws-service", "gateway"]);
    assert_eq!(expand_synonyms("packages"), vec!["monorepo", "changeset", "contracts", "domain"]);
    assert!(expand_synonyms("neo4j").is_empty());
}

#[test]
fn scores_header_and_link() {
    let mut index = DocIndex::default();
    index.sections.push(section("Outbox", 2, "C3-Async.md", "docs/C3-Async.md", "Le pattern outbox.", 7));
    let res = query_docs(&index, "outbox", 3, "/workspace/");
    // phrase in title 60 + file name no + title 12 + whole word 8 + content 3 + synonyms none
    assert!(res.starts_with("📚 Documentation C4 : 1 résultat(s) pertinent(s) pour 'outbox'\n\n"));
    assert!(res.contains("📑 [C3-Async.md:L7] Outbox (Score: 83)\n   Lien : file:///workspace/docs/C3-Async.md#L7\n"));
    assert!(res.contains("Le pattern outbox.\n\n"));
}

#[test]
fn absolute_path_link_and_max_sections() {
    let mut index = DocIndex::default();
    index.sections.push(section("Jobs", 2, "a.md", "/abs/a.md", "bullmq worker", 3));
    index.sections.push(section("Jobs again", 2, "b.md", "/abs/b.md", "nothing", 4));
    let res = query_docs(&index, "jobs", 1, "/root");
    assert!(res.contains("1 résultat(s)"));
    assert!(res.contains("file:///abs/a.md#L3"));
    assert!(!res.contains("b.md"));
    assert!(res.contains("Flux de Job BullMQ"));
}

#[test]
fn stop_words_only_query_keeps_all_words() {
    let mut index = DocIndex::default();
    index.sections.push(section("Le guide", 1, "g.md", "docs/g.md", "texte", 1));
    let res = query_docs(&index, "le", 3, "/w");
    assert!(res.contains("Le guide"));
}

#[test]
fn fuzzy_fallback_when_nothing_scores() {
    let mut index = DocIndex::default();
    index.sections.push(section("Kubernetes Deployment", 1, "C4.md", "docs/C4.md", "argo", 1));
    index.sections.push(section("Kubernetes Deployment", 2, "C4.md", "docs/C4.md", "again", 5));
    let res = query_docs(&index, "Kubrnetes", 3, "/w");
    assert!(res.starts_with("Aucune section exacte trouvée pour 'Kubrnetes' dans la documentation C4.\n"));
    assert!(res.contains("Suggestions lexicales"));
    assert_eq!(res.matches("`Kubernetes Deployment`").count(), 1);
    assert!(res.ends_with("\nTu peux relancer `search_docs` avec l'un de ces termes."));
}

#[test]
fn fallback_without_suggestion() {
    let index = DocIndex::default();
    let res = query_docs(&index, "zzz", 3, "/w");
    assert_eq!(res, "Aucune section exacte trouvée pour 'zzz' dans la documentation C4.\n");
}

#[test]
fn short_content_is_kept_whole() {
    assert_eq!(format_content_snippet("court", "x", &[]), "court");
}

#[test]
fn long_content_is_cut_around_the_match() {
    let mut content = String::new();
    for i in 0..40 {
        content.push_str(&format!("ligne {:03} de remplissage assez longue pour le test\n", i));
    }
    content.push_str("ici le MOTCLE important\n");
    for i in 0..40 {
        content.push_str(&format!("suite {:03} de remplissage assez longue pour le test\n", i));
    }
    let words = vec!["motcle".to_string()];
    assert!(snippet_cuttable(&content, "motcle", &words));
    let s = format_content_snippet(&content, "motcle", &words);
    assert!(s.starts_with("... (contexte amont)\n"));
    assert!(s.contains("ici le MOTCLE important"));
    assert!(s.ends_with("\n... (suite tronquée)"));
    assert!(s.len() < content.len());
}

#[test]
fn long_content_without_match_is_cut_at_1500_bytes() {
    let content = "a".repeat(2000);
    let s = format_content_snippet(&content, "zzz", &[]);
    assert_eq!(s, format!("{}\n... (suite tronquée pour économie de tokens)", "a".repeat(1500)));
}

#[test]
fn cut_inside_a_character_is_refused() {
    let content = format!("{}é{}", "a".repeat(1499), "b".repeat(600));
    assert!(!snippet_cuttable(&content, "zzz", &[]));
    let mut index = DocIndex::default();
    index.sections.push(section("Titre", 1, "t.md", "docs/t.md", &content, 1));
    assert!(query_docs_checked(&index, "titre", 3, "/w").is_none());
    let mut ok_index = DocIndex::default();
    ok_index.sections.push(section("Titre", 1, "t.md", "docs/t.md", "court", 1));
    assert_eq!(query_docs_checked(&ok_index, "titre", 3, "/w"), Some(query_docs(&ok_index, "titre", 3, "/w")));
}

#[test]
fn recommendations_by_subject() {
    let sec = section("Protobuf", 1, "p.md", "docs/p.md", "proto-registry", 1);
    let r = generate_recommendations("grpc", &[&sec]).unwrap();
    assert!(r.contains("Contrats Protobuf & gRPC"));
    assert!(!r.contains("Packages Partagés"));
    let npm = generate_recommendations("npm", &[]).unwrap();
    assert!(npm.contains("Packages Partagés"));
    let both = generate_recommendations("npm job", &[]).unwrap();
    assert!(!both.contains("Packages Partagés"));
    assert!(both.contains("Flux de Job BullMQ"));
    assert!(generate_recommendations("kubernetes", &[]).is_none());
}
