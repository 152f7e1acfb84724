//! Scanner of the architecture documentation: Markdown files cut into
//! titled sections.
use vstd::prelude::*;

use crate::domain::doc_entry::{DocDocument, DocIndex, DocIndexView, DocSection, DocumentView, SectionView, sections_view};
use crate::std_text::string_from_chars;
use crate::text::{
    chars_of, ends_with, ends_with_str, join, join_seqs, owned, skip_char_from, split_char, split_char_seq,
    starts_with, starts_with_str, trim, trim_seq, trim_start_char, trim_start_char_seq,
};

verus! {

/// `str::lines`: the text between line breaks, a `\r` before a `\n`
/// dropped, and no empty line after a final `\n`.
pub open spec fn str_lines(c: Seq<char>) -> Seq<Seq<char>> {
    let parts = split_char(c, '\n');
    let n = parts.len() as int;
    let all = Seq::new(
        parts.len(),
        |i: int|
            if i < n - 1 && parts[i].len() > 0 && parts[i].last() == '\r' {
                parts[i].drop_last()
            } else {
                parts[i]
            },
    );
    if c.len() == 0 {
        seq![]
    } else if c.last() == '\n' {
        all.drop_last()
    } else {
        all
    }
}

/// The state of the cut of one document: its title so far, the sections
/// kept, the section being read (title, level, line) and its lines.
pub struct DocCut {
    pub title: Seq<char>,
    pub sections: Seq<SectionView>,
    pub current: Option<(Seq<char>, usize, usize)>,
    pub lines: Seq<Seq<char>>,
}

/// Closes the section being read: it is kept when its trimmed text is not empty.
pub open spec fn close_section(st: DocCut, file_name: Seq<char>, path: Seq<char>) -> DocCut {
    match st.current {
        Some((t, lv, ln)) => {
            let content = trim(join(st.lines, "\n"@));
            DocCut {
                sections: if content.len() > 0 {
                    st.sections.push(
                        SectionView {
                            title: t,
                            level: lv,
                            file_name: file_name,
                            file_path: path,
                            content: content,
                            line_number: ln,
                        },
                    )
                } else {
                    st.sections
                },
                current: None,
                lines: seq![],
                title: st.title,
            }
        },
        None => st,
    }
}

/// One line (at index `idx`): a heading (`#...`) closes the section being
/// read and opens a new one (the first level-one heading titles the
/// document); another line joins the section being read.
pub open spec fn cut_line(st: DocCut, file_name: Seq<char>, path: Seq<char>, idx: int, line: Seq<char>) -> DocCut {
    let t = trim(line);
    if starts_with(t, "#"@) {
        let st1 = close_section(st, file_name, path);
        let level = skip_char_from(t, '#', 0);
        let title = trim(trim_start_char(t, '#'));
        DocCut {
            title: if level == 1 && st1.title == file_name {
                title
            } else {
                st1.title
            },
            current: Some((title, level as usize, (idx + 1) as usize)),
            ..st1
        }
    } else if st.current is Some {
        DocCut { lines: st.lines.push(line), ..st }
    } else {
        st
    }
}

/// The state after the first `n` lines.
pub open spec fn cut_lines(file_name: Seq<char>, path: Seq<char>, lines: Seq<Seq<char>>, n: int) -> DocCut
    decreases n,
{
    if n <= 0 || n > lines.len() {
        DocCut { title: file_name, sections: seq![], current: None, lines: seq![] }
    } else {
        cut_line(cut_lines(file_name, path, lines, n - 1), file_name, path, n - 1, lines[n - 1])
    }
}

/// A Markdown document cut into its non-empty sections.
pub open spec fn parse_doc(file_name: Seq<char>, path: Seq<char>, c: Seq<char>) -> DocumentView {
    let lines = str_lines(c);
    let st = close_section(cut_lines(file_name, path, lines, lines.len() as int), file_name, path);
    DocumentView { title: st.title, file_name: file_name, file_path: path, sections: st.sections }
}

pub fn str_lines_exec(text: &Vec<char>) -> (r: Vec<Vec<char>>)
    ensures
        r@.len() == str_lines(text@).len(),
        forall|i: int| 0 <= i < r@.len() ==> #[trigger] r@[i]@ == str_lines(text@)[i],
{
    if text.len() == 0 {
        return Vec::new();
    }
    let parts = split_char_seq(text, '\n');
    let ghost ps = split_char(text@, '\n');
    let n = parts.len();
    let mut out: Vec<Vec<char>> = Vec::new();
    let mut i: usize = 0;
    while i < n
        invariant
            n == ps.len(),
            parts@.len() == n,
            forall|k: int| 0 <= k < n ==> #[trigger] parts@[k]@ == ps[k],
            0 <= i <= n,
            out@.len() == i,
            forall|k: int|
                0 <= k < i ==> #[trigger] out@[k]@ == (if k < n - 1 && ps[k].len() > 0 && ps[k].last() == '\r' {
                    ps[k].drop_last()
                } else {
                    ps[k]
                }),
        decreases n - i,
    {
        let p = &parts[i];
        if i + 1 < n && p.len() > 0 && p[p.len() - 1] == '\r' {
            let q = crate::text::slice(p, 0, p.len() - 1);
            assert(q@ =~= ps[i as int].drop_last());
            out.push(q);
        } else {
            out.push(p.clone());
        }
        i = i + 1;
    }
    if text[text.len() - 1] == '\n' {
        out.pop();
    }
    out
}

fn close_exec(
    title: &String,
    sections: &mut Vec<DocSection>,
    current: &mut Option<(String, usize, usize)>,
    lines: &mut Vec<Vec<char>>,
    file_name: &str,
    path: &str,
)
    ensures
        ({
            let st = DocCut {
                title: title@,
                sections: sections_view(old(sections)@),
                current: cur_view(*old(current)),
                lines: old(lines)@.map_values(|v: Vec<char>| v@),
            };
            let st2 = close_section(st, file_name@, path@);
            &&& sections_view(final(sections)@) == st2.sections
            &&& cur_view(*final(current)) == st2.current
            &&& final(lines)@.map_values(|v: Vec<char>| v@) == st2.lines
        }),
{
    match current {
        Some((t, lv, ln)) => {
            let joined = join_seqs(lines, "\n");
            let content = trim_seq(&joined);
            if content.len() > 0 {
                let ghost before = sections_view(sections@);
                sections.push(
                    DocSection {
                        title: t.clone(),
                        level: *lv,
                        file_name: owned(file_name),
                        file_path: owned(path),
                        content: string_from_chars(&content),
                        line_number: *ln,
                    },
                );
                assert(sections_view(sections@) =~= before.push(sections@.last()@));
            }
            *current = None;
            *lines = Vec::new();
            assert(lines@.map_values(|v: Vec<char>| v@) =~= Seq::<Seq<char>>::empty());
        },
        None => {},
    }
}

/// The view of the section being read.
pub open spec fn cur_view(c: Option<(String, usize, usize)>) -> Option<(Seq<char>, usize, usize)> {
    match c {
        Some((t, lv, ln)) => Some((t@, lv, ln)),
        None => None,
    }
}

/// Cuts one Markdown document into its non-empty titled sections (see
/// `parse_doc`).
pub fn parse_doc_file(file_name: &str, path: &str, content: &str) -> (r: DocDocument)
    ensures
        r@ == parse_doc(file_name@, path@, content@),
{
    let text = chars_of(content);
    let lines = str_lines_exec(&text);
    let ghost ls = str_lines(text@);
    let mut title = owned(file_name);
    let mut sections: Vec<DocSection> = Vec::new();
    let mut current: Option<(String, usize, usize)> = None;
    let mut cur_lines: Vec<Vec<char>> = Vec::new();
    let mut i: usize = 0;
    assert(sections_view(sections@) =~= seq![]);
    assert(cur_lines@.map_values(|v: Vec<char>| v@) =~= Seq::<Seq<char>>::empty());
    while i < lines.len()
        invariant
            ls == str_lines(text@),
            text@ == content@,
            lines@.len() == ls.len(),
            forall|k: int| 0 <= k < lines@.len() ==> #[trigger] lines@[k]@ == ls[k],
            0 <= i <= lines@.len(),
            ({
                let st = cut_lines(file_name@, path@, ls, i as int);
                &&& title@ == st.title
                &&& sections_view(sections@) == st.sections
                &&& cur_view(current) == st.current
                &&& cur_lines@.map_values(|v: Vec<char>| v@) == st.lines
            }),
        decreases lines@.len() - i,
    {
        let line = &lines[i];
        let t = trim_seq(line);
        if starts_with_str(&t, "#") {
            close_exec(&title, &mut sections, &mut current, &mut cur_lines, file_name, path);
            let mut level: usize = 0;
            while level < t.len() && t[level] == '#'
                invariant
                    0 <= level <= t@.len(),
                    skip_char_from(t@, '#', level as int) == skip_char_from(t@, '#', 0),
                decreases t@.len() - level,
            {
                level = level + 1;
            }
            let tt = trim_start_char_seq(&t, '#');
            let ht = trim_seq(&tt);
            let hs = string_from_chars(&ht);
            let fc = chars_of(file_name);
            let tc = chars_of(title.as_str());
            if level == 1 && crate::text::seq_eq(&tc, &fc) {
                title = hs.clone();
            }
            current = Some((hs, level, i + 1));
        } else if current.is_some() {
            let ghost before = cur_lines@.map_values(|v: Vec<char>| v@);
            cur_lines.push(line.clone());
            assert(cur_lines@.map_values(|v: Vec<char>| v@) =~= before.push(ls[i as int]));
        }
        i = i + 1;
    }
    close_exec(&title, &mut sections, &mut current, &mut cur_lines, file_name, path);
    DocDocument { title, file_name: owned(file_name), file_path: owned(path), sections }
}


/// A list of documentation files as (path, file name, content) text.
pub open spec fn doc_files_view(v: Seq<(String, String, String)>) -> Seq<(Seq<char>, Seq<char>, Seq<char>)> {
    v.map_values(|f: (String, String, String)| (f.0@, f.1@, f.2@))
}

/// The index after each Markdown file in turn: its document, and its
/// sections appended to all sections.
pub open spec fn docs_index_of(files: Seq<(Seq<char>, Seq<char>, Seq<char>)>) -> DocIndexView
    decreases files.len(),
{
    if files.len() == 0 {
        DocIndexView { documents: seq![], sections: seq![] }
    } else {
        let ix = docs_index_of(files.drop_last());
        let (path, name, c) = files.last();
        if ends_with(path, ".md"@) {
            let d = parse_doc(name, path, c);
            DocIndexView { documents: ix.documents.push(d), sections: ix.sections + d.sections }
        } else {
            ix
        }
    }
}

/// Builds the documentation index from the files under `docs/`, each given
/// as (path relative to the workspace, file name, content); only Markdown
/// files count.
pub fn scan_docs(files: &Vec<(String, String, String)>) -> (r: DocIndex)
    ensures
        r@ == docs_index_of(doc_files_view(files@)),
{
    let ghost fs = doc_files_view(files@);
    let mut index = DocIndex { documents: Vec::new(), sections: Vec::new() };
    assert(index@ == docs_index_of(fs.take(0))) by {
        assert(index@.documents =~= seq![]);
        assert(index@.sections =~= seq![]);
    }
    let mut i: usize = 0;
    while i < files.len()
        invariant
            fs == doc_files_view(files@),
            0 <= i <= files@.len(),
            index@ == docs_index_of(fs.take(i as int)),
        decreases files@.len() - i,
    {
        let f = &files[i];
        assert(fs.take(i + 1).drop_last() =~= fs.take(i as int));
        assert(fs.take(i + 1).last() == (f.0@, f.1@, f.2@));
        let p = chars_of(f.0.as_str());
        if ends_with_str(&p, ".md") {
            let doc = parse_doc_file(f.1.as_str(), f.0.as_str(), f.2.as_str());
            let ghost before = index@;
            let mut k: usize = 0;
            while k < doc.sections.len()
                invariant
                    0 <= k <= doc.sections@.len(),
                    index@.documents == before.documents,
                    index@.sections == before.sections + sections_view(doc.sections@).take(k as int),
                decreases doc.sections@.len() - k,
            {
                let ghost b2 = index@.sections;
                index.sections.push(doc.sections[k].copy());
                assert(index@.sections =~= b2.push(doc.sections@[k as int]@));
                assert(sections_view(doc.sections@).take(k + 1) =~= sections_view(doc.sections@).take(k as int).push(
                    doc.sections@[k as int]@,
                ));
                k = k + 1;
            }
            assert(sections_view(doc.sections@).take(k as int) =~= sections_view(doc.sections@));
            let ghost d = doc@;
            let ghost b3 = index@.documents;
            index.documents.push(doc);
            assert(index@.documents =~= b3.push(d));
        }
        i = i + 1;
    }
    assert(fs.take(i as int) =~= fs);
    index
}

} // verus!
