use meta_indexer::infrastructure::scanners::doc_scanner::{parse_doc_file, scan_docs};

const DOC: &str = "intro ignored\n# Architecture Guide\n\n  Body one  \n## Empty\n\n### Details\nline a\nline b\n";

#[test]
fn document_is_cut_into_titled_sections() {
    let d = parse_doc_file("guide.md", "/docs/guide.md", DOC);
    assert_eq!(d.title, "Architecture Guide");
    assert_eq!(d.file_name, "guide.md");
    assert_eq!(d.file_path, "/docs/guide.md");
    assert_eq!(d.sections.len(), 2);
    let s0 = &d.sections[0];
    assert_eq!(s0.title, "Architecture Guide");
    assert_eq!(s0.level, 1);
    assert_eq!(s0.line_number, 2);
    assert_eq!(s0.content, "Body one");
    let s1 = &d.sections[1];
    assert_eq!(s1.title, "Details");
    assert_eq!(s1.level, 3);
    assert_eq!(s1.line_number, 7);
    assert_eq!(s1.content, "line a\nline b");
}

#[test]
fn title_is_the_first_top_heading_else_the_file_name() {
    let d = parse_doc_file("notes.md", "/docs/notes.md", "## Sub\ntext\n# Late\nmore\n# Later\nx\n");
    assert_eq!(d.title, "Late");
    assert_eq!(d.sections.len(), 3);
    let none = parse_doc_file("n.md", "/docs/n.md", "no heading at all\n");
    assert_eq!(none.title, "n.md");
    assert!(none.sections.is_empty());
}

#[test]
fn index_gathers_markdown_only() {
    let files = vec![
        ("/docs/a.md".to_string(), "a.md".to_string(), "# A\nx\n".to_string()),
        ("/docs/b.txt".to_string(), "b.txt".to_string(), "# B\ny\n".to_string()),
        ("/docs/c.md".to_string(), "c.md".to_string(), "# C\nz\n## D\nw\n".to_string()),
    ];
    let ix = scan_docs(&files);
    assert_eq!(ix.documents.len(), 2);
    assert_eq!(ix.sections.len(), 3);
    assert_eq!(ix.sections[0].title, "A");
    assert_eq!(ix.sections[2].title, "D");
    assert_eq!(ix.sections[2].file_path, "/docs/c.md");
}
