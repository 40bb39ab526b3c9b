use vstd::prelude::*;
use source_map::aligned_all;

pub mod ast;
pub mod builder;
pub mod cst;
pub mod diagnostics;
pub mod json;
pub mod lexer;
pub mod marker_table;
pub mod markers;
pub mod source_map;
pub mod spanned_ast;
pub mod spanned_usj;
pub mod text;
pub mod usj;
pub mod usx;
pub mod ast_usx;
pub mod usfm;
pub mod validation;
pub mod vref;

verus! {

/// What a parse computes besides the tree.
#[derive(Debug, Clone, Copy)]
pub struct ParseOptions {
    /// Collect and validate diagnostics.
    pub diagnostics: bool,
}

impl Default for ParseOptions {
    fn default() -> (r: Self)
        ensures
            !r.diagnostics,
    {
        Self { diagnostics: false }
    }
}

/// An AST together with its source map and, when requested, the
/// diagnostics of the parse.
#[derive(Debug)]
pub struct AstDocument {
    pub ast: ast::Document,
    pub source_map: source_map::SourceMap,
    pub diagnostics: Option<Vec<diagnostics::Diagnostic>>,
}

/// A parsed document: the source, its concrete syntax tree, and the AST
/// lowered from it with the requested options.
pub struct ParsedDocument {
    source: String,
    options: ParseOptions,
    cst: cst::CstDocument,
    ast_document: AstDocument,
    origins: Ghost<Seq<int>>,
}

impl ParsedDocument {
    /// The AST and its source map stay aligned node for node, each
    /// top-level AST node comes from its own top-level node of the tree, and
    /// the source's byte length fits a `usize`.
    #[verifier::type_invariant]
    spec fn aligned_inv(self) -> bool {
        &&& aligned_all(self.ast_document.ast.content@, self.ast_document.source_map.content@)
        &&& builder::traced_nodes(&self.cst, 0, self.ast_document.ast.content@, self.origins@)
        &&& builder::covers(&self.cst, 0, self.origins@)
        &&& self.ast_document.diagnostics matches Some(d) ==> builder::chapter_numbers_reported(&self.cst, d@)
        &&& text::byte_len(self.source@) <= usize::MAX
    }

    fn new(source: String, options: ParseOptions) -> (r: Self)
        requires
            text::byte_len(source@) <= usize::MAX,
        ensures
            r.source_view() == source@,
            r.cst_view().wf(),
            r.cst_view().source_view() == source@,
            aligned_all(r.ast_view().ast.content@, r.ast_view().source_map.content@),
            r.ast_view().diagnostics is Some <==> options.diagnostics,
            r.ast_view().diagnostics matches Some(d) ==> diagnostics::in_document_order(d@)
                && builder::validation_included(d@, r.ast_view().ast, r.ast_view().source_map),
            exists|srcs: Seq<int>|
            builder::traced_nodes(&r.cst_view(), 0, r.ast_view().ast.content@, srcs) && builder::covers(
                &r.cst_view(),
                0,
                srcs,
            ),
            r.ast_view().diagnostics matches Some(d) ==> builder::chapter_numbers_reported(&r.cst_view(), d@),
    {
        let cst = cst::parse(source.as_str());
        let ast_document = builder::lower(&cst, options);
        let ghost srcs = choose|srcs: Seq<int>|
            builder::traced_nodes(&cst, 0, ast_document.ast.content@, srcs) && builder::covers(&cst, 0, srcs);
        ParsedDocument { source, options, cst, ast_document, origins: Ghost(srcs) }
    }

    pub closed spec fn source_view(&self) -> Seq<char> {
        self.source@
    }

    pub closed spec fn cst_view(&self) -> cst::CstDocument {
        self.cst
    }

    pub closed spec fn ast_view(&self) -> AstDocument {
        self.ast_document
    }

    /// The tokens of the source, with their byte spans.
    pub fn tokens(&self) -> (r: Vec<(lexer::Token<'_>, diagnostics::Span)>)
        ensures
            r@.len() == lexer::lex(self.source_view()).len(),
            forall|k: int|
                0 <= k < r@.len() ==> lexer::token_matches(
                    #[trigger] r@[k].0,
                    lexer::lex(self.source_view())[k],
                    self.source_view(),
                ) && r@[k].1.start == text::byte_offset(self.source_view(), lexer::lex(self.source_view())[k].1)
                    && r@[k].1.end == text::byte_offset(self.source_view(), lexer::lex(self.source_view())[k].2),
    {
        proof {
            use_type_invariant(self);
        }
        lexer::tokenize(self.source.as_str())
    }

    pub fn cst(&self) -> (r: &cst::CstDocument)
        ensures
            *r == self.cst_view(),
    {
        &self.cst
    }

    pub fn ast_document(&self) -> (r: &AstDocument)
        ensures
            *r == self.ast_view(),
    {
        &self.ast_document
    }

    pub fn ast(&self) -> (r: &ast::Document)
        ensures
            *r == self.ast_view().ast,
            exists|srcs: Seq<int>|
                builder::traced_nodes(&self.cst_view(), 0, r.content@, srcs) && builder::covers(
                    &self.cst_view(),
                    0,
                    srcs,
                ),
    {
        proof {
            use_type_invariant(self);
            assert(builder::traced_nodes(&self.cst_view(), 0, self.ast_document.ast.content@, self.origins@)
                && builder::covers(&self.cst_view(), 0, self.origins@));
        }
        &self.ast_document.ast
    }

    /// The USX text of the AST; always `Ok`.
    pub fn to_usx(&self) -> (r: Result<String, usx::UsxError>)
        ensures
            r is Ok,
            r matches Ok(t) ==> t@ == usx::xml_decl_text("1.0"@, "utf-8"@) + usx::pieces_text(
                ast_usx::usx_document(self.ast_view().ast.content@),
            ),
    {
        ast_usx::to_usx_string(&self.ast_document.ast)
    }

    pub fn source_map(&self) -> (r: &source_map::SourceMap)
        ensures
            *r == self.ast_view().source_map,
    {
        &self.ast_document.source_map
    }

    pub fn diagnostics(&self) -> (r: Option<&[diagnostics::Diagnostic]>)
        ensures
            r is Some <==> self.ast_view().diagnostics is Some,
            r matches Some(d) ==> d@ == self.ast_view().diagnostics.unwrap()@,
    {
        match &self.ast_document.diagnostics {
            Some(d) => Some(d.as_slice()),
            None => None,
        }
    }

    /// The AST as normalized USFM text.
    pub fn to_usfm(&self) -> (r: String)
        ensures
            r@ == usfm::usfm_of(self.ast_view().ast),
    {
        usfm::to_usfm_string(&self.ast_document.ast)
    }

    /// The AST as USJ, with the source spans of each node when `options`
    /// asks for them.  The source map of a parse always fits its AST, so
    /// this never fails.
    pub fn to_usj(&self, options: usj::UsjOptions) -> (r: Result<json::JsonValue, usj::UsjError>)
        ensures
            r is Ok,
            r matches Ok(v) ==> v@ == usj::usj_document(
                self.ast_view().ast.content@,
                Some(self.ast_view().source_map.content@),
                options.include_spans,
            ),
    {
        proof {
            use_type_invariant(self);
            usj::lemma_aligned_shapes_ok(
                self.ast_document.ast.content@,
                self.ast_document.source_map.content@,
            );
        }
        usj::to_usj_value_with_options(&self.ast_document.ast, Some(&self.ast_document.source_map), options)
    }

    /// The running text of each verse, keyed by its reference, in the
    /// order the verses are first filed.
    pub fn to_vref(&self) -> (r: Vec<(String, String)>)
        ensures
            vref::entries_view(r@) == vref::vref_entries(self.ast_view().ast),
    {
        vref::to_vref_map(&self.ast_document.ast)
    }
}

/// Parses USFM text; the tree, AST and requested diagnostics are ready
/// on the returned handle.
pub fn parse(input: &str, options: ParseOptions) -> (r: ParsedDocument)
    requires
        text::byte_len(input@) <= usize::MAX,
    ensures
        r.source_view() == input@,
        r.cst_view().wf(),
        r.cst_view().source_view() == input@,
        aligned_all(r.ast_view().ast.content@, r.ast_view().source_map.content@),
        r.ast_view().diagnostics is Some <==> options.diagnostics,
        r.ast_view().diagnostics matches Some(d) ==> diagnostics::in_document_order(d@)
            && builder::validation_included(d@, r.ast_view().ast, r.ast_view().source_map),
        exists|srcs: Seq<int>|
            builder::traced_nodes(&r.cst_view(), 0, r.ast_view().ast.content@, srcs) && builder::covers(
                &r.cst_view(),
                0,
                srcs,
            ),
        r.ast_view().diagnostics matches Some(d) ==> builder::chapter_numbers_reported(&r.cst_view(), d@),
{
    ParsedDocument::new(text::str_to_string(input), options)
}

pub fn parse_owned(input: String, options: ParseOptions) -> (r: ParsedDocument)
    requires
        text::byte_len(input@) <= usize::MAX,
    ensures
        r.source_view() == input@,
        r.cst_view().wf(),
        r.cst_view().source_view() == input@,
        aligned_all(r.ast_view().ast.content@, r.ast_view().source_map.content@),
        r.ast_view().diagnostics is Some <==> options.diagnostics,
        r.ast_view().diagnostics matches Some(d) ==> diagnostics::in_document_order(d@)
            && builder::validation_included(d@, r.ast_view().ast, r.ast_view().source_map),
        exists|srcs: Seq<int>|
            builder::traced_nodes(&r.cst_view(), 0, r.ast_view().ast.content@, srcs) && builder::covers(
                &r.cst_view(),
                0,
                srcs,
            ),
        r.ast_view().diagnostics matches Some(d) ==> builder::chapter_numbers_reported(&r.cst_view(), d@),
{
    ParsedDocument::new(input, options)
}

pub fn parse_cst(input: &str) -> (r: cst::CstDocument)
    requires
        text::byte_len(input@) <= usize::MAX,
    ensures
        r.wf(),
        r.source_view() == input@,
        forall|j: int|
            0 <= j < lexer::lex(input@).len() ==> #[trigger] cst::opened_in(
                r.kinds_view(),
                input@,
                lexer::lex(input@)[j],
            ),
        cst::nested_as_parsed(r, input@),
{
    cst::parse(input)
}

pub fn parse_cst_owned(input: String) -> (r: cst::CstDocument)
    requires
        text::byte_len(input@) <= usize::MAX,
    ensures
        r.wf(),
        r.source_view() == input@,
        forall|j: int|
            0 <= j < lexer::lex(input@).len() ==> #[trigger] cst::opened_in(
                r.kinds_view(),
                input@,
                lexer::lex(input@)[j],
            ),
        cst::nested_as_parsed(r, input@),
{
    cst::parse_owned(input)
}

pub fn parse_ast(input: &str, options: ParseOptions) -> (r: AstDocument)
    requires
        text::byte_len(input@) <= usize::MAX,
    ensures
        aligned_all(r.ast.content@, r.source_map.content@),
        r.diagnostics is Some <==> options.diagnostics,
        r.diagnostics matches Some(d) ==> diagnostics::in_document_order(d@),
        r.diagnostics matches Some(d) ==> builder::validation_included(d@, r.ast, r.source_map),
        builder::lowered_from_tree_of(input@, r.ast.content@, r.diagnostics),
{
    let tree = parse_cst(input);
    let r = lower_cst(&tree, options);
    let ghost srcs = choose|srcs: Seq<int>|
        builder::traced_nodes(&tree, 0, r.ast.content@, srcs) && builder::covers(&tree, 0, srcs);
    assert(builder::traced_nodes(&tree, 0, r.ast.content@, srcs) && builder::covers(&tree, 0, srcs) && (r.diagnostics matches Some(ds) ==> builder::chapter_numbers_reported(&tree, ds@)));
    r
}

pub fn parse_ast_owned(input: String, options: ParseOptions) -> (r: AstDocument)
    requires
        text::byte_len(input@) <= usize::MAX,
    ensures
        aligned_all(r.ast.content@, r.source_map.content@),
        r.diagnostics is Some <==> options.diagnostics,
        r.diagnostics matches Some(d) ==> diagnostics::in_document_order(d@),
        r.diagnostics matches Some(d) ==> builder::validation_included(d@, r.ast, r.source_map),
        builder::lowered_from_tree_of(input@, r.ast.content@, r.diagnostics),
{
    let tree = parse_cst_owned(input);
    let r = lower_cst(&tree, options);
    let ghost srcs = choose|srcs: Seq<int>|
        builder::traced_nodes(&tree, 0, r.ast.content@, srcs) && builder::covers(&tree, 0, srcs);
    assert(builder::traced_nodes(&tree, 0, r.ast.content@, srcs) && builder::covers(&tree, 0, srcs) && (r.diagnostics matches Some(ds) ==> builder::chapter_numbers_reported(&tree, ds@)));
    r
}

pub fn lower_cst(document: &cst::CstDocument, options: ParseOptions) -> (r: AstDocument)
    requires
        document.wf(),
    ensures
        aligned_all(r.ast.content@, r.source_map.content@),
        r.diagnostics is Some <==> options.diagnostics,
        r.diagnostics matches Some(d) ==> diagnostics::in_document_order(d@),
        r.diagnostics matches Some(d) ==> builder::validation_included(d@, r.ast, r.source_map),
        builder::has_top_number(document) ==> r.ast.content@.len() > 0,
        exists|srcs: Seq<int>|
            builder::traced_nodes(document, 0, r.ast.content@, srcs) && builder::covers(document, 0, srcs),
        r.diagnostics matches Some(d) ==> builder::chapter_numbers_reported(document, d@),
{
    builder::lower(document, options)
}

/// The tokens of USFM text, with their byte spans.
pub fn tokenize(input: &str) -> (r: Vec<(lexer::Token<'_>, diagnostics::Span)>)
    requires
        text::byte_len(input@) <= usize::MAX,
    ensures
        r@.len() == lexer::lex(input@).len(),
        forall|k: int|
            0 <= k < r@.len() ==> lexer::token_matches(#[trigger] r@[k].0, lexer::lex(input@)[k], input@)
                && r@[k].1.start == text::byte_offset(input@, lexer::lex(input@)[k].1) && r@[k].1.end
                == text::byte_offset(input@, lexer::lex(input@)[k].2),
{
    let r = lexer::tokenize(input);
    assert forall|k: int| 0 <= k < r@.len() implies lexer::token_matches(
        #[trigger] r@[k].0,
        lexer::lex(input@)[k],
        input@,
    ) && r@[k].1.start == text::byte_offset(input@, lexer::lex(input@)[k].1) && r@[k].1.end
        == text::byte_offset(input@, lexer::lex(input@)[k].2) by {
        assert(lexer::token_matches(r@[k].0, lexer::lex(input@)[k], input@));
        assert(r@[k].1.start == text::byte_offset(input@, lexer::lex(input@)[k].1));
        assert(r@[k].1.end == text::byte_offset(input@, lexer::lex(input@)[k].2));
    }
    r
}

} // verus!
