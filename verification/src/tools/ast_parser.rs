//! The context of a line of TypeScript: the file's imports and the
//! declaration that holds the line, read from its syntax tree
//! (tree-sitter's TypeScript grammar).
use vstd::prelude::*;

use std::iter::successors;
use tree_sitter::{Node, Parser, Point};
use tree_sitter_typescript::LANGUAGE_TYPESCRIPT;

use crate::pattern::{boundary_exec, char_at_byte, char_index_wide, is_boundary, lemma_char_at_byte_mono};
use crate::std_text::string_from_chars;
use crate::text::{chars_of, concat_map, contains, lemma_concat_map_part, eq_str, owned, push_seq, push_str, slice};

verus! {

/// The imports of a file and the declaration around a line.
#[derive(Debug)]
pub struct ParsedContext {
    pub imports: String,
    pub target_block: String,
}

/// A syntax node as plain values: its kind and byte range.
pub struct NodeSpan {
    pub kind: String,
    pub start: usize,
    pub end: usize,
}

/// What the logic reads of a syntax tree: the children of the root, the
/// chain from the node at a line up to the root (empty when no named node
/// spans the line), and the root.
pub struct SyntaxOutline {
    pub top_level: Vec<NodeSpan>,
    pub ancestors: Vec<NodeSpan>,
    pub root: NodeSpan,
}

/// A node as (kind, start byte, end byte).
pub open spec fn span_view(n: NodeSpan) -> (Seq<char>, nat, nat) {
    (n.kind@, n.start as nat, n.end as nat)
}

/// The nodes of a list as (kind, start byte, end byte).
pub open spec fn spans_view(v: Seq<NodeSpan>) -> Seq<(Seq<char>, nat, nat)> {
    v.map_values(|n: NodeSpan| span_view(n))
}

/// What tree-sitter's TypeScript parser yields for `source`: the children of
/// the root, the chain of nodes from the smallest named node that spans the
/// start of line `row` up to the root (empty when there is none), and the
/// root; or the message of the `LanguageError` when the grammar cannot be
/// loaded.
pub uninterp spec fn ts_outline(source: Seq<char>, row: nat) -> Result<(Seq<(Seq<char>, nat, nat)>, Seq<(Seq<char>, nat, nat)>, (Seq<char>, nat, nat)), Seq<char>>;

/// An outline as (children of the root, chain, root).
pub open spec fn outline_view(o: SyntaxOutline) -> (Seq<(Seq<char>, nat, nat)>, Seq<(Seq<char>, nat, nat)>, (Seq<char>, nat, nat)) {
    (spans_view(o.top_level@), spans_view(o.ancestors@), span_view(o.root))
}

/// The children of the root, and the chain that starts at the node at the
/// line, or at the root when no named node spans it.
pub open spec fn chain_of(
    o: (Seq<(Seq<char>, nat, nat)>, Seq<(Seq<char>, nat, nat)>, (Seq<char>, nat, nat)),
) -> (Seq<(Seq<char>, nat, nat)>, Seq<(Seq<char>, nat, nat)>) {
    (o.0, if o.1.len() == 0 { seq![o.2] } else { o.1 })
}

/// Parses `source` with `tree_sitter::Parser` set to
/// `tree_sitter_typescript::LANGUAGE_TYPESCRIPT` and reads the outline named
/// by `ts_outline`; `Err` carries the message of a `LanguageError`, as
/// `ts_outline` names it. `Ok(None)` is what `Parser::parse` returns without
/// a language, which its documentation rules out once one is set.
#[verifier::external_body]
fn typescript_outline(source: &str, row: usize) -> (r: Result<Option<SyntaxOutline>, String>)
    ensures
        match r {
            Ok(Some(o)) => ts_outline(source@, row as nat) == Ok::<_, Seq<char>>(outline_view(o)),
            Ok(None) => false,
            Err(e) => ts_outline(source@, row as nat) == Err::<
                (Seq<(Seq<char>, nat, nat)>, Seq<(Seq<char>, nat, nat)>, (Seq<char>, nat, nat)),
                Seq<char>,
            >(e@),
        },
{
    let mut p = Parser::new();
    p.set_language(&LANGUAGE_TYPESCRIPT.into()).map_err(|e| e.to_string())?;
    let Some(tree) = p.parse(source, None) else { return Ok(None) };
    let root = tree.root_node();
    let span = |n: Node| NodeSpan { kind: n.kind().to_string(), start: n.start_byte(), end: n.end_byte() };
    let at = Point::new(row, 0);
    let top_level = root.children(&mut root.walk()).map(span).collect();
    let chain = successors(root.named_descendant_for_point_range(at, at), |n| n.parent());
    Ok(Some(SyntaxOutline { top_level, ancestors: chain.map(span).collect(), root: span(root) }))
}

/// The text of the byte range `[a, b)` of `src`.
pub open spec fn byte_text(src: Seq<char>, a: nat, b: nat) -> Seq<char> {
    src.subrange(char_at_byte(src, a as int), char_at_byte(src, b as int))
}

/// Every range starts and ends on a character boundary, in order.
pub open spec fn spans_ok(src: Seq<char>, spans: Seq<(Seq<char>, nat, nat)>) -> bool {
    forall|i: int|
        0 <= i < spans.len() ==> is_boundary(src, (#[trigger] spans[i]).1 as int) && is_boundary(src, spans[i].2 as int)
            && spans[i].1 <= spans[i].2
}

/// The import statements among the root's children, each followed by a line break.
pub open spec fn imports_text(src: Seq<char>, top: Seq<(Seq<char>, nat, nat)>) -> Seq<char> {
    concat_map(
        top.len(),
        |i: int|
            if top[i].0 == "import_statement"@ {
                byte_text(src, top[i].1, top[i].2) + "\n"@
            } else {
                seq![]
            },
    )
}

/// Every import statement among the root's children is in the imports, its
/// text followed by a line break.
pub proof fn lemma_import_statements_listed(src: Seq<char>, top: Seq<(Seq<char>, nat, nat)>, i: int)
    requires
        0 <= i < top.len(),
        top[i].0 == "import_statement"@,
    ensures
        contains(imports_text(src, top), byte_text(src, top[i].1, top[i].2) + "\n"@),
{
    let f = |i: int|
        if top[i].0 == "import_statement"@ {
            byte_text(src, top[i].1, top[i].2) + "\n"@
        } else {
            seq![]
        };
    assert(imports_text(src, top) == concat_map(top.len(), f));
    lemma_concat_map_part(top.len(), f, i);
}

/// Without an import statement among the root's children, the imports are empty.
pub proof fn lemma_no_import_statement(src: Seq<char>, top: Seq<(Seq<char>, nat, nat)>)
    requires
        forall|i: int| 0 <= i < top.len() ==> (#[trigger] top[i]).0 != "import_statement"@,
    ensures
        imports_text(src, top) == Seq::<char>::empty(),
{
    let f = |i: int|
        if top[i].0 == "import_statement"@ {
            byte_text(src, top[i].1, top[i].2) + "\n"@
        } else {
            seq![]
        };
    assert(imports_text(src, top) == concat_map(top.len(), f));
    lemma_concat_map_empty(top.len(), f);
}

proof fn lemma_concat_map_empty(n: nat, f: spec_fn(int) -> Seq<char>)
    requires
        forall|i: int| 0 <= i < n ==> #[trigger] f(i) == Seq::<char>::empty(),
    ensures
        concat_map(n, f) == Seq::<char>::empty(),
    decreases n,
{
    if n > 0 {
        lemma_concat_map_empty((n - 1) as nat, f);
        assert(concat_map(n, f) =~= concat_map((n - 1) as nat, f) + f(n - 1));
    }
}

/// A kind of node that is shown whole around a line.
pub open spec fn block_kind(k: Seq<char>) -> bool {
    k == "class_declaration"@ || k == "method_definition"@ || k == "function_declaration"@ || k
        == "lexical_declaration"@ || k == "export_statement"@
}

/// The first node of the chain, from position `i` on, that is a block or
/// the root.
pub open spec fn block_from(anc: Seq<(Seq<char>, nat, nat)>, i: int) -> int
    decreases anc.len() - i,
{
    if i < 0 || i >= anc.len() - 1 || block_kind(anc[i].0) {
        i
    } else {
        block_from(anc, i + 1)
    }
}

proof fn lemma_block_from_reaches(anc: Seq<(Seq<char>, nat, nat)>, j: int, i: int)
    requires
        0 <= j <= i < anc.len(),
        i == anc.len() - 1 || block_kind(anc[i].0),
        forall|m: int| j <= m < i ==> !block_kind(#[trigger] anc[m].0),
    ensures
        block_from(anc, j) == i,
    decreases i - j,
{
    if j < i {
        lemma_block_from_reaches(anc, j + 1, i);
    }
}

/// The block around the line is the innermost node of the chain that is a
/// class, a method, a function, a variable declaration or an export: no
/// such node is skipped, and none outside it is taken.
pub proof fn lemma_block_is_innermost_declaration(
    src: Seq<char>,
    o: (Seq<(Seq<char>, nat, nat)>, Seq<(Seq<char>, nat, nat)>),
    i: int,
)
    requires
        0 <= i < o.1.len(),
        o.1[i].0 == "class_declaration"@ || o.1[i].0 == "method_definition"@ || o.1[i].0 == "function_declaration"@
            || o.1[i].0 == "lexical_declaration"@ || o.1[i].0 == "export_statement"@,
        forall|j: int|
            0 <= j < i ==> !(#[trigger] o.1[j].0 == "class_declaration"@ || o.1[j].0 == "method_definition"@
                || o.1[j].0 == "function_declaration"@ || o.1[j].0 == "lexical_declaration"@ || o.1[j].0
                == "export_statement"@),
    ensures
        context_of(src, o).1 == byte_text(src, o.1[i].1, o.1[i].2),
{
    assert forall|m: int| 0 <= m < i implies !block_kind(#[trigger] o.1[m].0) by {
        assert(!(o.1[m].0 == "class_declaration"@ || o.1[m].0 == "method_definition"@ || o.1[m].0
            == "function_declaration"@ || o.1[m].0 == "lexical_declaration"@ || o.1[m].0 == "export_statement"@));
    }
    lemma_block_from_reaches(o.1, 0, i);
}

/// When no node of the chain is a class, a method, a function, a variable
/// declaration or an export, the block is the last node of the chain (the
/// root: the whole file).
pub proof fn lemma_block_without_declaration(src: Seq<char>, o: (Seq<(Seq<char>, nat, nat)>, Seq<(Seq<char>, nat, nat)>))
    requires
        o.1.len() > 0,
        forall|j: int|
            0 <= j < o.1.len() ==> !(#[trigger] o.1[j].0 == "class_declaration"@ || o.1[j].0 == "method_definition"@
                || o.1[j].0 == "function_declaration"@ || o.1[j].0 == "lexical_declaration"@ || o.1[j].0
                == "export_statement"@),
    ensures
        context_of(src, o).1 == byte_text(src, o.1.last().1, o.1.last().2),
{
    let i = o.1.len() - 1;
    assert forall|m: int| 0 <= m < i implies !block_kind(#[trigger] o.1[m].0) by {
        assert(!(o.1[m].0 == "class_declaration"@ || o.1[m].0 == "method_definition"@ || o.1[m].0
            == "function_declaration"@ || o.1[m].0 == "lexical_declaration"@ || o.1[m].0 == "export_statement"@));
    }
    lemma_block_from_reaches(o.1, 0, i);
}

/// The imports and the declaration around the line that an outline gives.
pub open spec fn context_of(src: Seq<char>, o: (Seq<(Seq<char>, nat, nat)>, Seq<(Seq<char>, nat, nat)>)) -> (Seq<char>, Seq<char>) {
    let b = o.1[block_from(o.1, 0)];
    (imports_text(src, o.0), byte_text(src, b.1, b.2))
}

/// The outline can be read: its ranges fall on character boundaries and the
/// chain holds the root.
pub open spec fn outline_ok(src: Seq<char>, o: (Seq<(Seq<char>, nat, nat)>, Seq<(Seq<char>, nat, nat)>)) -> bool {
    spans_ok(src, o.0) && spans_ok(src, o.1) && o.1.len() > 0
}

fn span_text_exec(src: &Vec<char>, a: usize, b: usize) -> (r: Vec<char>)
    requires
        is_boundary(src@, a as int),
        is_boundary(src@, b as int),
        a <= b,
    ensures
        r@ == byte_text(src@, a as nat, b as nat),
{
    let i = char_index_wide(src, a as u128);
    let j = char_index_wide(src, b as u128);
    proof {
        lemma_char_at_byte_mono(src@, a as int, b as int);
    }
    slice(src, i, j)
}

fn outline_ok_exec(src: &Vec<char>, o: &SyntaxOutline) -> (r: bool)
    ensures
        r == outline_ok(src@, chain_of(outline_view(*o))),
{
    if o.ancestors.len() == 0 {
        let n = &o.root;
        let root_ok = boundary_exec(src, n.start as u128) && boundary_exec(src, n.end as u128) && n.start <= n.end;
        proof {
            let sv = seq![span_view(*n)];
            assert(sv[0] == span_view(*n));
            if root_ok {
                assert forall|i: int| 0 <= i < sv.len() implies is_boundary(src@, (#[trigger] sv[i]).1 as int)
                    && is_boundary(src@, sv[i].2 as int) && sv[i].1 <= sv[i].2 by {
                    assert(i == 0);
                }
            }
        }
        spans_ok_exec(src, &o.top_level) && root_ok
    } else {
        spans_ok_exec(src, &o.top_level) && spans_ok_exec(src, &o.ancestors)
    }
}

fn spans_ok_exec(src: &Vec<char>, v: &Vec<NodeSpan>) -> (r: bool)
    ensures
        r == spans_ok(src@, spans_view(v@)),
{
    let ghost sv = spans_view(v@);
    let mut i: usize = 0;
    while i < v.len()
        invariant
            sv == spans_view(v@),
            0 <= i <= v@.len(),
            forall|k: int|
                0 <= k < i ==> is_boundary(src@, (#[trigger] sv[k]).1 as int) && is_boundary(src@, sv[k].2 as int)
                    && sv[k].1 <= sv[k].2,
        decreases v@.len() - i,
    {
        let n = &v[i];
        assert(sv[i as int] == span_view(*n));
        if !(boundary_exec(src, n.start as u128) && boundary_exec(src, n.end as u128) && n.start <= n.end) {
            return false;
        }
        i = i + 1;
    }
    true
}

/// The imports and the declaration around the line from an outline of
/// `source` (see `context_of`).
pub fn context_from_outline(source: &str, o: &SyntaxOutline) -> (r: ParsedContext)
    requires
        outline_ok(source@, chain_of(outline_view(*o))),
    ensures
        (r.imports@, r.target_block@) == context_of(source@, chain_of(outline_view(*o))),
{
    let src = chars_of(source);
    let ghost top = spans_view(o.top_level@);
    let ghost anc = chain_of(outline_view(*o)).1;
    let mut imports: Vec<char> = Vec::new();
    let ghost f = |i: int|
        if top[i].0 == "import_statement"@ {
            byte_text(src@, top[i].1, top[i].2) + "\n"@
        } else {
            seq![]
        };
    let mut i: usize = 0;
    while i < o.top_level.len()
        invariant
            src@ == source@,
            top == spans_view(o.top_level@),
            spans_ok(src@, top),
            f == (|i: int|
                if top[i].0 == "import_statement"@ {
                    byte_text(src@, top[i].1, top[i].2) + "\n"@
                } else {
                    seq![]
                }),
            0 <= i <= o.top_level@.len(),
            imports@ == concat_map(i as nat, f),
        decreases o.top_level@.len() - i,
    {
        let n = &o.top_level[i];
        assert(top[i as int] == span_view(*n));
        let kc = chars_of(n.kind.as_str());
        if eq_str(&kc, "import_statement") {
            let t = span_text_exec(&src, n.start, n.end);
            push_seq(&mut imports, &t);
            push_str(&mut imports, "\n");
        }
        assert(imports@ =~= concat_map(i as nat, f) + f(i as int));
        i = i + 1;
    }
    let n = o.ancestors.len();
    let b: &NodeSpan = if n == 0 {
        assert(block_from(anc, 0) == 0);
        &o.root
    } else {
        let mut k: usize = 0;
        assert(anc == spans_view(o.ancestors@));
        while k < n - 1
            invariant
                n == anc.len(),
                anc == spans_view(o.ancestors@),
                anc.len() == o.ancestors@.len(),
                anc.len() > 0,
                0 <= k < anc.len(),
                block_from(anc, k as int) == block_from(anc, 0),
            ensures
                0 <= k < anc.len(),
                block_from(anc, 0) == k,
            decreases anc.len() - k,
        {
            let kc = chars_of(o.ancestors[k].kind.as_str());
            assert(anc[k as int].0 == kc@);
            if eq_str(&kc, "class_declaration") || eq_str(&kc, "method_definition") || eq_str(
                &kc,
                "function_declaration",
            ) || eq_str(&kc, "lexical_declaration") || eq_str(&kc, "export_statement") {
                break;
            }
            k = k + 1;
        }
        &o.ancestors[k]
    };
    assert(anc[block_from(anc, 0)] == span_view(*b));
    let block = span_text_exec(&src, b.start, b.end);
    ParsedContext { imports: string_from_chars(&imports), target_block: string_from_chars(&block) }
}

/// The context of line `target_line` (counted from 1) of a TypeScript
/// source: its import statements and the innermost class, method, function,
/// variable declaration or export that holds the line (the whole file when
/// none does). `Err` with the parser's message when the grammar cannot be
/// loaded, or when the tree's ranges do not fall on characters.
pub fn parse_source_context(source: &str, target_line: usize) -> (r: Result<ParsedContext, String>)
    ensures
        ({
            let row = if target_line >= 1 { (target_line - 1) as nat } else { 0 };
            match ts_outline(source@, row) {
                Ok(o) => if outline_ok(source@, chain_of(o)) {
                    r matches Ok(c) && (c.imports@, c.target_block@) == context_of(source@, chain_of(o))
                } else {
                    r matches Err(e) && e@ == "Failed to read the syntax tree"@
                },
                Err(m) => r matches Err(e) && e@ == m,
            }
        }),
{
    let row: usize = if target_line >= 1 { target_line - 1 } else { 0 };
    match typescript_outline(source, row) {
        Err(e) => Err(e),
        Ok(None) => Err(owned("Failed to parse tree")),
        Ok(Some(o)) => {
            let src = chars_of(source);
            if !outline_ok_exec(&src, &o) {
                return Err(owned("Failed to read the syntax tree"));
            }
            Ok(context_from_outline(source, &o))
        },
    }
}

} // verus!
