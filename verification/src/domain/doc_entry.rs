//! The architecture documentation, cut into titled sections.
use vstd::prelude::*;

verus! {

/// One titled section of a Markdown document.
#[derive(Debug)]
pub struct DocSection {
    pub title: String,
    pub level: usize,
    pub file_name: String,
    pub file_path: String,
    pub content: String,
    pub line_number: usize,
}

/// A Markdown document and its non-empty sections.
#[derive(Debug)]
pub struct DocDocument {
    pub title: String,
    pub file_name: String,
    pub file_path: String,
    pub sections: Vec<DocSection>,
}

/// All documents, and all their sections in one list.
#[derive(Debug)]
pub struct DocIndex {
    pub documents: Vec<DocDocument>,
    pub sections: Vec<DocSection>,
}

impl Default for DocDocument {
    fn default() -> (d: Self)
        ensures
            d.title@.len() == 0,
            d.file_name@.len() == 0,
            d.file_path@.len() == 0,
            d.sections@.len() == 0,
    {
        DocDocument {
            title: String::new(),
            file_name: String::new(),
            file_path: String::new(),
            sections: Vec::new(),
        }
    }
}

impl Default for DocIndex {
    fn default() -> (d: Self)
        ensures
            d.documents@.len() == 0,
            d.sections@.len() == 0,
    {
        DocIndex { documents: Vec::new(), sections: Vec::new() }
    }
}


/// What a `DocSection` holds, as text.
pub struct SectionView {
    pub title: Seq<char>,
    pub level: usize,
    pub file_name: Seq<char>,
    pub file_path: Seq<char>,
    pub content: Seq<char>,
    pub line_number: usize,
}

impl View for DocSection {
    type V = SectionView;

    open spec fn view(&self) -> SectionView {
        SectionView {
            title: self.title@,
            level: self.level,
            file_name: self.file_name@,
            file_path: self.file_path@,
            content: self.content@,
            line_number: self.line_number,
        }
    }
}

/// The view of each section.
pub open spec fn sections_view(v: Seq<DocSection>) -> Seq<SectionView> {
    v.map_values(|s: DocSection| s@)
}

/// What a `DocDocument` holds, as text.
pub struct DocumentView {
    pub title: Seq<char>,
    pub file_name: Seq<char>,
    pub file_path: Seq<char>,
    pub sections: Seq<SectionView>,
}

impl View for DocDocument {
    type V = DocumentView;

    open spec fn view(&self) -> DocumentView {
        DocumentView {
            title: self.title@,
            file_name: self.file_name@,
            file_path: self.file_path@,
            sections: sections_view(self.sections@),
        }
    }
}

/// What a `DocIndex` holds, as text.
pub struct DocIndexView {
    pub documents: Seq<DocumentView>,
    pub sections: Seq<SectionView>,
}

impl View for DocIndex {
    type V = DocIndexView;

    open spec fn view(&self) -> DocIndexView {
        DocIndexView {
            documents: self.documents@.map_values(|d: DocDocument| d@),
            sections: sections_view(self.sections@),
        }
    }
}

impl DocSection {
    /// A copy of the section.
    pub fn copy(&self) -> (r: DocSection)
        ensures
            r@ == self@,
    {
        DocSection {
            title: self.title.clone(),
            level: self.level,
            file_name: self.file_name.clone(),
            file_path: self.file_path.clone(),
            content: self.content.clone(),
            line_number: self.line_number,
        }
    }
}

} // verus!
