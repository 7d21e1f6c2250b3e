use vstd::prelude::*;
use crate::model;
use crate::syntax::{classify_field, classify_kind, field_tag, kind_tag, FieldTag, SyntaxNode, SyntaxTree};

verus! {

/// A tree-sitter parser, held opaque.
#[verifier::external_type_specification]
#[verifier::external_body]
pub struct ExParser(tree_sitter::Parser);

/// A parsed tree-sitter tree, held opaque.
#[verifier::external_type_specification]
#[verifier::external_body]
pub struct ExTree(tree_sitter::Tree);

/// Whether tree-sitter accepts the grammar of a language: its grammar was
/// generated by a version of tree-sitter that this one can load.
pub uninterp spec fn grammar_loads(language: model::Language) -> bool;

/// How many nodes tree-sitter's parse of `text` with the grammar of
/// `language` has, counting the root and every node a cursor visits.
pub uninterp spec fn parse_node_count(language: model::Language, text: Seq<char>) -> nat;

/// Node `index`, in pre-order, of tree-sitter's parse of `text` with the
/// grammar of `language`.
pub uninterp spec fn parse_node(language: model::Language, text: Seq<char>, index: nat) -> RawNodeView;

/// A parser that has the grammar of `language`.
pub(crate) struct LoadedParser {
    pub(crate) parser: tree_sitter::Parser,
    pub(crate) language: model::Language,
}

/// A tree that tree-sitter parsed from `text` with the grammar of `language`.
pub(crate) struct ParsedTree {
    pub(crate) tree: tree_sitter::Tree,
    pub(crate) language: model::Language,
    pub(crate) text: String,
}

/// A node as tree-sitter reports it: kind and field names, parent's and own
/// depth, byte range and zero-based positions.
pub struct RawNode {
    pub kind: String,
    pub field: Option<String>,
    pub depth: usize,
    pub start_byte: usize,
    pub end_byte: usize,
    pub start_row: usize,
    pub start_col: usize,
    pub end_row: usize,
    pub end_col: usize,
}

/// A node as tree-sitter reports it, with its parent's pre-order index.
pub struct RawNodeView {
    pub kind: Seq<char>,
    pub field: Option<Seq<char>>,
    pub parent: Option<usize>,
    pub depth: usize,
    pub start_byte: usize,
    pub end_byte: usize,
    pub start_row: usize,
    pub start_col: usize,
    pub end_row: usize,
    pub end_col: usize,
}

/// Relies on `tree_sitter::Parser::new`: a parser with no grammar yet.
#[verifier::external_body]
fn new_parser() -> tree_sitter::Parser {
    tree_sitter::Parser::new()
}

/// Relies on `tree_sitter::Parser::set_language` with
/// `tree_sitter_rust::language()`: accepted exactly when its version is supported.
#[verifier::external_body]
fn load_rust_grammar(mut parser: tree_sitter::Parser) -> (r: Option<LoadedParser>)
    ensures
        r is Some <==> grammar_loads(model::Language::Rust),
        r matches Some(p) ==> p.language == model::Language::Rust,
{
    match parser.set_language(&tree_sitter_rust::language()) {
        Ok(()) => Some(LoadedParser { parser, language: model::Language::Rust }),
        Err(_) => None,
    }
}

/// Relies on `tree_sitter::Parser::set_language` with
/// `tree_sitter_javascript::language()`: accepted exactly when its version is supported.
#[verifier::external_body]
fn load_javascript_grammar(mut parser: tree_sitter::Parser) -> (r: Option<LoadedParser>)
    ensures
        r is Some <==> grammar_loads(model::Language::JavaScript),
        r matches Some(p) ==> p.language == model::Language::JavaScript,
{
    match parser.set_language(&tree_sitter_javascript::language()) {
        Ok(()) => Some(LoadedParser { parser, language: model::Language::JavaScript }),
        Err(_) => None,
    }
}

/// Relies on `tree_sitter::Parser::set_language` with
/// `tree_sitter_typescript::language_typescript()`: accepted exactly when its
/// version is supported.
#[verifier::external_body]
fn load_typescript_grammar(mut parser: tree_sitter::Parser) -> (r: Option<LoadedParser>)
    ensures
        r is Some <==> grammar_loads(model::Language::TypeScript),
        r matches Some(p) ==> p.language == model::Language::TypeScript,
{
    match parser.set_language(&tree_sitter_typescript::language_typescript()) {
        Ok(()) => Some(LoadedParser { parser, language: model::Language::TypeScript }),
        Err(_) => None,
    }
}

/// Relies on `tree_sitter::Parser::set_language` with
/// `tree_sitter_typescript::language_tsx()`: accepted exactly when its version
/// is supported.
#[verifier::external_body]
fn load_tsx_grammar(mut parser: tree_sitter::Parser) -> (r: Option<LoadedParser>)
    ensures
        r is Some <==> grammar_loads(model::Language::Tsx),
        r matches Some(p) ==> p.language == model::Language::Tsx,
{
    match parser.set_language(&tree_sitter_typescript::language_tsx()) {
        Ok(()) => Some(LoadedParser { parser, language: model::Language::Tsx }),
        Err(_) => None,
    }
}

/// A parser with the grammar of `language`, when tree-sitter accepts it.
pub(crate) fn load_grammar(language: model::Language) -> (r: Option<LoadedParser>)
    ensures
        r is Some <==> grammar_loads(language),
        r matches Some(p) ==> p.language == language,
{
    let parser = new_parser();
    match language {
        model::Language::Rust => load_rust_grammar(parser),
        model::Language::JavaScript => load_javascript_grammar(parser),
        model::Language::TypeScript => load_typescript_grammar(parser),
        model::Language::Tsx => load_tsx_grammar(parser),
    }
}

/// Relies on `tree_sitter::Parser::parse`: it gives no tree only without a
/// grammar, after a timeout or on a cancellation flag, and a loaded parser
/// has a grammar and neither of the others.
#[verifier::external_body]
pub(crate) fn parse_text(p: &mut LoadedParser, text: &str) -> (r: Option<ParsedTree>)
    ensures
        final(p).language == old(p).language,
        r is Some,
        r matches Some(t) ==> t.language == old(p).language && t.text@ == text@,
{
    match p.parser.parse(text, None) {
        Some(tree) => Some(ParsedTree { tree, language: p.language, text: text.to_string() }),
        None => None,
    }
}

/// Relies on `tree_sitter::Node::descendant_count` of the root: the number of
/// nodes in pre-order, the root included.
#[verifier::external_body]
fn node_count(t: &ParsedTree) -> (r: usize)
    ensures
        r == parse_node_count(t.language, t.text@),
{
    t.tree.root_node().descendant_count()
}

/// Relies on `tree_sitter::TreeCursor::goto_descendant` from the root and on
/// the node and field it then reads: node `i` in pre-order.
#[verifier::external_body]
fn node_at(t: &ParsedTree, i: usize) -> (r: RawNode)
    requires
        i < parse_node_count(t.language, t.text@),
    ensures
        raw_matches(r, parse_node(t.language, t.text@, i as nat)),
{
    let mut c = t.tree.walk();
    c.goto_descendant(i);
    let n = c.node();
    let (s, e) = (n.start_position(), n.end_position());
    RawNode {
        kind: n.kind().to_string(),
        field: c.field_name().map(|f| f.to_string()),
        depth: c.depth() as usize,
        start_byte: n.start_byte(),
        end_byte: n.end_byte(),
        start_row: s.row,
        start_col: s.column,
        end_row: e.row,
        end_col: e.column,
    }
}

/// Relies on `tree_sitter::TreeCursor::goto_parent` and `descendant_index`
/// after `goto_descendant`: the pre-order index of node `i`'s parent.
#[verifier::external_body]
fn parent_index(t: &ParsedTree, i: usize) -> (r: Option<usize>)
    requires
        i < parse_node_count(t.language, t.text@),
    ensures
        r == parse_node(t.language, t.text@, i as nat).parent,
{
    let mut c = t.tree.walk();
    c.goto_descendant(i);
    if c.goto_parent() {
        Some(c.descendant_index())
    } else {
        None
    }
}

/// The node reported matches the view in all but the parent.
pub open spec fn raw_matches(r: RawNode, v: RawNodeView) -> bool {
    &&& r.kind@ == v.kind
    &&& crate::parser::opt_seq(r.field) == v.field
    &&& r.depth == v.depth
    &&& r.start_byte == v.start_byte
    &&& r.end_byte == v.end_byte
    &&& r.start_row == v.start_row
    &&& r.start_col == v.start_col
    &&& r.end_row == v.end_row
    &&& r.end_col == v.end_col
}

/// The extractor's view of a node that tree-sitter reports.
pub open spec fn syntax_node_of(v: RawNodeView) -> SyntaxNode {
    SyntaxNode {
        kind: kind_tag(v.kind),
        field: match v.field {
            Some(f) => field_tag(f),
            None => FieldTag::Unnamed,
        },
        parent: v.parent,
        depth: v.depth,
        start_byte: v.start_byte,
        end_byte: v.end_byte,
        start_row: v.start_row,
        start_col: v.start_col,
        end_row: v.end_row,
        end_col: v.end_col,
    }
}

/// The nodes of tree-sitter's parse of `text`, in pre-order, as the extractor sees them.
pub open spec fn syntax_nodes_of(language: model::Language, text: Seq<char>) -> Seq<SyntaxNode> {
    Seq::new(parse_node_count(language, text), |i: int| syntax_node_of(parse_node(language, text, i as nat)))
}

/// Every node's positions of that parse can be made one-based.
pub open spec fn parse_fits(language: model::Language, text: Seq<char>) -> bool {
    forall|i: int| 0 <= i < parse_node_count(language, text) ==> (#[trigger] syntax_nodes_of(language, text)[i]).positions_fit()
}

/// The nodes of a parsed tree in pre-order, as the extractor sees them;
/// `None` exactly when a position is too large to be made one-based.
pub(crate) fn flatten_tree(t: &ParsedTree) -> (r: Option<SyntaxTree>)
    ensures
        r is Some <==> parse_fits(t.language, t.text@),
        r matches Some(x) ==> x.nodes@ == syntax_nodes_of(t.language, t.text@),
{
    let ghost all = syntax_nodes_of(t.language, t.text@);
    let n = node_count(t);
    let mut nodes: Vec<SyntaxNode> = Vec::new();
    let mut i: usize = 0;
    while i < n
        invariant
            n == parse_node_count(t.language, t.text@),
            all == syntax_nodes_of(t.language, t.text@),
            i <= n,
            nodes@ == all.subrange(0, i as int),
            forall|k: int| 0 <= k < i ==> (#[trigger] all[k]).positions_fit(),
        decreases n - i,
    {
        let raw = node_at(t, i);
        let parent = parent_index(t, i);
        let field = match &raw.field {
            Some(f) => classify_field(f.as_str()),
            None => FieldTag::Unnamed,
        };
        let node = SyntaxNode {
            kind: classify_kind(raw.kind.as_str()),
            field,
            parent,
            depth: raw.depth,
            start_byte: raw.start_byte,
            end_byte: raw.end_byte,
            start_row: raw.start_row,
            start_col: raw.start_col,
            end_row: raw.end_row,
            end_col: raw.end_col,
        };
        assert(node == all[i as int]);
        if !(node.start_row < usize::MAX && node.start_col < usize::MAX && node.end_row < usize::MAX
            && node.end_col < usize::MAX) {
            assert(!parse_fits(t.language, t.text@));
            return None;
        }
        nodes.push(node);
        assert(nodes@ =~= all.subrange(0, i + 1));
        i = i + 1;
    }
    assert(nodes@ =~= all);
    Some(SyntaxTree { nodes })
}

} // verus!
