use vstd::prelude::*;
use vstd::utf8::{decode_utf8, encode_utf8, valid_utf8};
use crate::ids::{hash_id, sha256_hex};
use crate::model::{
    kind_text, kind_to_str, language_str, language_text, CallEdge, CallEdgeView, Language, Span,
    Symbol, SymbolKind, SymbolView,
};
use crate::syntax::{FieldTag, NodeKind, SyntaxNode, SyntaxTree};
use crate::text::{
    before_char, last_index, text_last_index, decimal, decimal_text, has_prefix, join_parts, join_text, texts,
    trim_seq, trim_start_seq, trim_text, starts_with_text, text_before_char,
};

verus! {

/// Kind of a scope that contributes a segment to qualified names.
#[derive(Debug, Clone, Copy, PartialEq, Eq, Structural)]
pub enum ContainerKind {
    Module,
    Namespace,
    Type,
    Impl,
}

/// An enclosing scope: its name, its kind and the depth of the node that opened it.
#[derive(Debug, Clone)]
pub struct Container {
    pub name: String,
    pub kind: ContainerKind,
    pub depth: usize,
}

impl View for Container {
    type V = (Seq<char>, ContainerKind, usize);

    open spec fn view(&self) -> (Seq<char>, ContainerKind, usize) {
        (self.name@, self.kind, self.depth)
    }
}

/// Views of a stack of scopes.
pub open spec fn container_views(s: Seq<Container>) -> Seq<(Seq<char>, ContainerKind, usize)> {
    s.map_values(|c: Container| c@)
}

/// One file handed to the extractor: its repo-relative path, its module path,
/// its language, the bytes of the parsed text and the tree parsed from them.
pub struct FileSource {
    pub file: String,
    pub mod_path: String,
    pub language: Language,
    pub source: Vec<u8>,
    pub tree: SyntaxTree,
}

/// The text a node covers: its bytes decoded, or empty where they are out of
/// range or not UTF-8.
pub open spec fn text_of(src: Seq<u8>, n: SyntaxNode) -> Seq<char> {
    if n.start_byte <= n.end_byte && n.end_byte <= src.len() && valid_utf8(
        src.subrange(n.start_byte as int, n.end_byte as int),
    ) {
        decode_utf8(src.subrange(n.start_byte as int, n.end_byte as int))
    } else {
        Seq::empty()
    }
}

/// The first child of node `j` under field `f`, looking from node `c` on
/// through the descendants of `j`.
pub open spec fn field_child_from(nodes: Seq<SyntaxNode>, j: int, f: FieldTag, c: int) -> Option<int>
    decreases nodes.len() - c,
{
    if c < 0 || c >= nodes.len() || nodes[c].depth <= nodes[j].depth {
        None
    } else if nodes[c].parent == Some(j as usize) && nodes[c].field == f {
        Some(c)
    } else {
        field_child_from(nodes, j, f, c + 1)
    }
}

/// The first child of node `j` under field `f`.
pub open spec fn field_child(nodes: Seq<SyntaxNode>, j: int, f: FieldTag) -> Option<int> {
    field_child_from(nodes, j, f, j + 1)
}

/// Kinds that name the type of an impl block.
pub open spec fn is_type_name_kind(k: NodeKind) -> bool {
    k == NodeKind::TypeIdentifier || k == NodeKind::ScopedTypeIdentifier || k
        == NodeKind::GenericType
}

/// The first descendant of node `j`, in pre-order from node `c` on, that names a type.
pub open spec fn type_descendant_from(nodes: Seq<SyntaxNode>, j: int, c: int) -> Option<int>
    decreases nodes.len() - c,
{
    if c < 0 || c >= nodes.len() || nodes[c].depth <= nodes[j].depth {
        None
    } else if is_type_name_kind(nodes[c].kind) {
        Some(c)
    } else {
        type_descendant_from(nodes, j, c + 1)
    }
}

/// Whether node `j` has, from node `c` on, a child visibility modifier whose
/// text starts with "pub" after leading white space.
pub open spec fn pub_child_from(src: Seq<u8>, nodes: Seq<SyntaxNode>, j: int, c: int) -> bool
    decreases nodes.len() - c,
{
    if c < 0 || c >= nodes.len() || nodes[c].depth <= nodes[j].depth {
        false
    } else if nodes[c].parent == Some(j as usize) && nodes[c].kind == NodeKind::VisibilityModifier
        && has_prefix(trim_start_seq(text_of(src, nodes[c])), "pub"@) {
        true
    } else {
        pub_child_from(src, nodes, j, c + 1)
    }
}

/// A Rust item is exported when a child visibility modifier starts with "pub".
pub open spec fn rust_exported(src: Seq<u8>, nodes: Seq<SyntaxNode>, j: int) -> bool {
    pub_child_from(src, nodes, j, j + 1)
}

/// A JavaScript or TypeScript node is exported when it or an ancestor below
/// the program node is an export statement or an export clause.
pub open spec fn js_exported(nodes: Seq<SyntaxNode>, i: int) -> bool
    decreases i,
{
    if i < 0 || i >= nodes.len() {
        false
    } else if nodes[i].kind == NodeKind::ExportStatement || nodes[i].kind
        == NodeKind::ExportClause {
        true
    } else if nodes[i].kind == NodeKind::Program {
        false
    } else {
        match nodes[i].parent {
            Some(p) => if (p as int) < i {
                js_exported(nodes, p as int)
            } else {
                false
            },
            None => false,
        }
    }
}

/// Whether some enclosing scope is a type or an impl block.
pub open spec fn in_method_scope(cs: Seq<(Seq<char>, ContainerKind, usize)>) -> bool {
    exists|i: int| 0 <= i < cs.len() && (#[trigger] cs[i].1 == ContainerKind::Type || cs[i].1
        == ContainerKind::Impl)
}

/// The segments of a qualified name: the module path when it is not empty,
/// the enclosing scopes outermost first, and the name.
pub open spec fn fq_parts(
    mod_path: Seq<char>,
    cs: Seq<(Seq<char>, ContainerKind, usize)>,
    name: Seq<char>,
) -> Seq<Seq<char>> {
    let head: Seq<Seq<char>> = if mod_path.len() > 0 {
        seq![mod_path]
    } else {
        Seq::empty()
    };
    head + cs.map_values(|c: (Seq<char>, ContainerKind, usize)| c.0) + seq![name]
}

/// The qualified name of `name` declared inside the scopes `cs`.
pub open spec fn fq_name_of(
    mod_path: Seq<char>,
    cs: Seq<(Seq<char>, ContainerKind, usize)>,
    name: Seq<char>,
) -> Seq<char> {
    join_parts(fq_parts(mod_path, cs, name))
}

/// The one-based span of a node.
pub open spec fn span_of(n: SyntaxNode) -> Span {
    Span {
        start_line: (n.start_row + 1) as usize,
        start_col: (n.start_col + 1) as usize,
        end_line: (n.end_row + 1) as usize,
        end_col: (n.end_col + 1) as usize,
    }
}

/// ":l1:c1:l2:c2:" followed by the language, for a span.
pub open spec fn span_tail(span: Span, language: Language) -> Seq<char> {
    ":"@ + decimal(span.start_line as nat) + ":"@ + decimal(span.start_col as nat) + ":"@
        + decimal(span.end_line as nat) + ":"@ + decimal(span.end_col as nat) + ":"@
        + language_text(language)
}

/// The text whose digest identifies a symbol.
pub open spec fn symbol_seed(
    file: Seq<char>,
    kind: SymbolKind,
    fq_name: Seq<char>,
    span: Span,
    language: Language,
) -> Seq<char> {
    "symbol:"@ + file + ":"@ + kind_text(kind) + ":"@ + fq_name + span_tail(span, language)
}

/// The text whose digest identifies a call edge.
pub open spec fn call_seed(
    caller_id: Seq<char>,
    callee_name: Seq<char>,
    file: Seq<char>,
    span: Span,
    language: Language,
) -> Seq<char> {
    "call:"@ + caller_id + ":"@ + callee_name + ":"@ + file + span_tail(span, language)
}

/// The symbol for `name` of kind `kind` declared at node `j` inside the scopes `cs`.
pub open spec fn symbol_at(
    u: FileSource,
    cs: Seq<(Seq<char>, ContainerKind, usize)>,
    name: Seq<char>,
    kind: SymbolKind,
    j: int,
    exported: bool,
) -> SymbolView {
    let span = span_of(u.tree.nodes@[j]);
    let fq = fq_name_of(u.mod_path@, cs, name);
    SymbolView {
        id: sha256_hex(encode_utf8(symbol_seed(u.file@, kind, fq, span, u.language))),
        name,
        kind,
        file: u.file@,
        span,
        fq_name: fq,
        container: if cs.len() > 0 {
            Some(cs.last().0)
        } else {
            None
        },
        is_exported: exported,
        is_entrypoint: name == "main"@ || exported,
    }
}

/// Relies on `String::from_utf8`: succeeds exactly on valid UTF-8 and then
/// holds the decoded characters.
#[verifier::external_body]
fn utf8_to_string(bytes: Vec<u8>) -> (r: Option<String>)
    ensures
        r is Some <==> valid_utf8(bytes@),
        r is Some ==> r->0@ == decode_utf8(bytes@),
{
    String::from_utf8(bytes).ok()
}

/// An optional index as an integer.
pub open spec fn opt_index(r: Option<usize>) -> Option<int> {
    match r {
        Some(c) => Some(c as int),
        None => None,
    }
}

impl FileSource {
    /// The node is one of the tree's.
    pub open spec fn has_node(&self, j: int) -> bool {
        0 <= j < self.tree.nodes@.len()
    }

    /// The text node `j` covers.
    pub fn node_text(&self, j: usize) -> (r: String)
        requires
            self.has_node(j as int),
        ensures
            r@ == text_of(self.source@, self.tree.nodes@[j as int]),
    {
        let n = self.tree.nodes[j];
        if !(n.start_byte <= n.end_byte && n.end_byte <= self.source.len()) {
            return String::new();
        }
        let mut bytes: Vec<u8> = Vec::new();
        let mut k: usize = n.start_byte;
        while k < n.end_byte
            invariant
                n.start_byte <= k <= n.end_byte <= self.source@.len(),
                bytes@ == self.source@.subrange(n.start_byte as int, k as int),
            decreases n.end_byte - k,
        {
            bytes.push(self.source[k]);
            assert(self.source@.subrange(n.start_byte as int, k + 1) =~= self.source@.subrange(
                n.start_byte as int,
                k as int,
            ).push(self.source@[k as int]));
            k = k + 1;
        }
        match utf8_to_string(bytes) {
            Some(s) => s,
            None => String::new(),
        }
    }

    /// The first child of node `j` under field `f`.
    pub fn field_child(&self, j: usize, f: FieldTag) -> (r: Option<usize>)
        requires
            self.has_node(j as int),
        ensures
            field_child(self.tree.nodes@, j as int, f) == opt_index(r),
            r matches Some(c) ==> self.has_node(c as int),
    {
        let nodes = &self.tree.nodes;
        let n = nodes.len();
        let mut c: usize = j + 1;
        while c < nodes.len() && nodes[c].depth > nodes[j].depth
            invariant
                j < c <= nodes@.len(),
                nodes@ == self.tree.nodes@,
                field_child_from(nodes@, j as int, f, c as int) == field_child(
                    nodes@,
                    j as int,
                    f,
                ),
            decreases nodes.len() - c,
        {
            if nodes[c].parent == Some(j) && nodes[c].field == f {
                return Some(c);
            }
            c = c + 1;
        }
        None
    }

    /// The first descendant of node `j`, in pre-order, that names a type.
    pub fn type_descendant(&self, j: usize) -> (r: Option<usize>)
        requires
            self.has_node(j as int),
        ensures
            type_descendant_from(self.tree.nodes@, j as int, j + 1) == opt_index(r),
            r matches Some(c) ==> self.has_node(c as int),
    {
        let nodes = &self.tree.nodes;
        let n = nodes.len();
        let mut c: usize = j + 1;
        while c < nodes.len() && nodes[c].depth > nodes[j].depth
            invariant
                j < c <= nodes@.len(),
                nodes@ == self.tree.nodes@,
                type_descendant_from(nodes@, j as int, c as int) == type_descendant_from(
                    nodes@,
                    j as int,
                    j + 1,
                ),
            decreases nodes.len() - c,
        {
            let k = nodes[c].kind;
            if k == NodeKind::TypeIdentifier || k == NodeKind::ScopedTypeIdentifier || k
                == NodeKind::GenericType {
                return Some(c);
            }
            c = c + 1;
        }
        None
    }

    /// Whether the Rust item at node `j` is exported.
    pub fn rust_is_exported(&self, j: usize) -> (r: bool)
        requires
            self.has_node(j as int),
        ensures
            r == rust_exported(self.source@, self.tree.nodes@, j as int),
    {
        let nodes = &self.tree.nodes;
        let n = nodes.len();
        let mut c: usize = j + 1;
        while c < nodes.len() && nodes[c].depth > nodes[j].depth
            invariant
                j < c <= nodes@.len(),
                nodes@ == self.tree.nodes@,
                pub_child_from(self.source@, nodes@, j as int, c as int) == rust_exported(
                    self.source@,
                    nodes@,
                    j as int,
                ),
            decreases nodes.len() - c,
        {
            if nodes[c].parent == Some(j) && nodes[c].kind == NodeKind::VisibilityModifier {
                let text = self.node_text(c);
                let trimmed = trim_start_text(text.as_str());
                if starts_with_text(trimmed.as_str(), "pub") {
                    return true;
                }
            }
            c = c + 1;
        }
        false
    }

    /// Whether the JavaScript or TypeScript node `j` is exported.
    pub fn js_is_exported(&self, j: usize) -> (r: bool)
        requires
            self.has_node(j as int),
        ensures
            r == js_exported(self.tree.nodes@, j as int),
    {
        let nodes = &self.tree.nodes;
        let mut i: usize = j;
        loop
            invariant
                i < nodes@.len(),
                nodes@ == self.tree.nodes@,
                js_exported(nodes@, i as int) == js_exported(nodes@, j as int),
            decreases i,
        {
            let k = nodes[i].kind;
            if k == NodeKind::ExportStatement || k == NodeKind::ExportClause {
                return true;
            }
            if k == NodeKind::Program {
                return false;
            }
            match nodes[i].parent {
                Some(p) => {
                    if p < i {
                        i = p;
                    } else {
                        return false;
                    }
                },
                None => {
                    return false;
                },
            }
        }
    }
}

/// `s` without leading white space.
pub fn trim_start_text(s: &str) -> (r: String)
    ensures
        r@ == trim_start_seq(s@),
{
    crate::text::trim_start_owned(s)
}

/// Whether some enclosing scope is a type or an impl block.
pub fn in_method_context(containers: &Vec<Container>) -> (r: bool)
    ensures
        r == in_method_scope(container_views(containers@)),
{
    let ghost cs = container_views(containers@);
    let mut i: usize = 0;
    while i < containers.len()
        invariant
            i <= containers.len(),
            cs == container_views(containers@),
            forall|k: int| 0 <= k < i ==> !(#[trigger] cs[k].1 == ContainerKind::Type || cs[k].1
                == ContainerKind::Impl),
        decreases containers.len() - i,
    {
        let kind = containers[i].kind;
        if kind == ContainerKind::Type || kind == ContainerKind::Impl {
            assert(cs[i as int].1 == kind);
            return true;
        }
        i = i + 1;
    }
    false
}

/// The qualified name of `name` declared inside `containers`.
pub fn build_fq_name(mod_path: &str, containers: &Vec<Container>, name: &str) -> (r: String)
    ensures
        r@ == fq_name_of(mod_path@, container_views(containers@), name@),
{
    let ghost cs = container_views(containers@);
    let mut parts: Vec<String> = Vec::new();
    if mod_path.unicode_len() > 0 {
        parts.push(mod_path.to_owned());
    }
    let ghost head = texts(parts@);
    let mut i: usize = 0;
    while i < containers.len()
        invariant
            i <= containers.len(),
            cs == container_views(containers@),
            texts(parts@) == head + cs.subrange(0, i as int).map_values(
                |c: (Seq<char>, ContainerKind, usize)| c.0,
            ),
        decreases containers.len() - i,
    {
        let ghost before = parts@;
        parts.push(containers[i].name.clone());
        assert(texts(parts@) =~= texts(before).push(containers@[i as int].name@));
        assert(cs[i as int] == containers@[i as int]@);
        assert(cs.subrange(0, i + 1).map_values(|c: (Seq<char>, ContainerKind, usize)| c.0)
            =~= cs.subrange(0, i as int).map_values(|c: (Seq<char>, ContainerKind, usize)| c.0).push(
            containers@[i as int].name@,
        ));
        assert(texts(parts@) =~= head + cs.subrange(0, i + 1).map_values(
            |c: (Seq<char>, ContainerKind, usize)| c.0,
        ));
        i = i + 1;
    }
    let ghost before = parts@;
    parts.push(name.to_owned());
    assert(texts(parts@) =~= texts(before).push(name@));
    assert(cs.subrange(0, containers.len() as int) =~= cs);
    assert(texts(parts@) =~= fq_parts(mod_path@, cs, name@));
    join_text(&parts)
}

/// The digest of the seed tail ":l1:c1:l2:c2:language" appended to `prefix`.
fn append_span_tail(prefix: String, span: Span, language: Language) -> (r: String)
    ensures
        r@ == prefix@ + span_tail(span, language),
{
    let mut s = prefix;
    s.append(":");
    s.append(decimal_text(span.start_line).as_str());
    s.append(":");
    s.append(decimal_text(span.start_col).as_str());
    s.append(":");
    s.append(decimal_text(span.end_line).as_str());
    s.append(":");
    s.append(decimal_text(span.end_col).as_str());
    s.append(":");
    s.append(language_str(language));
    assert(s@ =~= prefix@ + span_tail(span, language));
    s
}

/// The one-based span of a node.
pub fn span_from_node(n: &SyntaxNode) -> (r: Span)
    requires
        n.positions_fit(),
    ensures
        r == span_of(*n),
{
    Span {
        start_line: n.start_row + 1,
        start_col: n.start_col + 1,
        end_line: n.end_row + 1,
        end_col: n.end_col + 1,
    }
}

/// The symbol for `name` of kind `kind` declared at node `j`.
pub fn new_symbol(
    u: &FileSource,
    containers: &Vec<Container>,
    name: String,
    kind: SymbolKind,
    j: usize,
    is_exported: bool,
) -> (r: Symbol)
    requires
        u.has_node(j as int),
        u.tree.wf(),
    ensures
        r@ == symbol_at(*u, container_views(containers@), name@, kind, j as int, is_exported),
{
    let span = span_from_node(&u.tree.nodes[j]);
    let fq_name = build_fq_name(u.mod_path.as_str(), containers, name.as_str());
    let container = if containers.len() > 0 {
        Some(containers[containers.len() - 1].name.clone())
    } else {
        None
    };
    let is_entrypoint = crate::text::text_eq(name.as_str(), "main") || is_exported;
    let mut seed = String::from_str("symbol:");
    seed.append(u.file.as_str());
    seed.append(":");
    seed.append(kind_to_str(&kind));
    seed.append(":");
    seed.append(fq_name.as_str());
    let seed = append_span_tail(seed, span, u.language);
    let ghost cs = container_views(containers@);
    assert(seed@ =~= symbol_seed(u.file@, kind, fq_name@, span, u.language));
    Symbol {
        id: hash_id(seed.as_str()),
        name,
        kind,
        file: u.file.clone(),
        span,
        fq_name,
        container,
        is_exported,
        is_entrypoint,
    }
}


/// The scopes as seen by the specification: name, kind, depth.
pub type ScopeViews = Seq<(Seq<char>, ContainerKind, usize)>;

/// A scope opened by a node: its name, its kind and the symbol it declares, if any.
pub type ContainerSpec = (Seq<char>, ContainerKind, Option<SymbolView>);

/// The scope and symbol that node `j` declares under its "name" field, if it has one.
pub open spec fn named_container(
    u: FileSource,
    cs: ScopeViews,
    j: int,
    sk: SymbolKind,
    ck: ContainerKind,
    exported: bool,
) -> Option<ContainerSpec> {
    match field_child(u.tree.nodes@, j, FieldTag::Name) {
        Some(c) => {
            let name = text_of(u.source@, u.tree.nodes@[c]);
            Some((name, ck, Some(symbol_at(u, cs, name, sk, j, exported))))
        },
        None => None,
    }
}

/// The scope that a Rust node opens.
pub open spec fn rust_container_spec(u: FileSource, cs: ScopeViews, j: int) -> Option<ContainerSpec> {
    let nodes = u.tree.nodes@;
    let exported = rust_exported(u.source@, nodes, j);
    match nodes[j].kind {
        NodeKind::ModItem => named_container(u, cs, j, SymbolKind::Module, ContainerKind::Module, exported),
        NodeKind::TraitItem => named_container(u, cs, j, SymbolKind::Trait, ContainerKind::Type, exported),
        NodeKind::ImplItem => {
            let target = match field_child(nodes, j, FieldTag::Type) {
                Some(c) => Some(c),
                None => match field_child(nodes, j, FieldTag::Trait) {
                    Some(c) => Some(c),
                    None => type_descendant_from(nodes, j, j + 1),
                },
            };
            let name = match target {
                Some(c) => text_of(u.source@, nodes[c]),
                None => "impl"@,
            };
            Some((name, ContainerKind::Impl, None))
        },
        _ => None,
    }
}

/// The scope that a JavaScript or TypeScript node opens.
pub open spec fn js_container_spec(u: FileSource, cs: ScopeViews, j: int) -> Option<ContainerSpec> {
    let exported = js_exported(u.tree.nodes@, j);
    match u.tree.nodes@[j].kind {
        NodeKind::ClassDeclaration => named_container(u, cs, j, SymbolKind::Class, ContainerKind::Type, exported),
        NodeKind::InterfaceDeclaration => named_container(u, cs, j, SymbolKind::Interface, ContainerKind::Type, exported),
        NodeKind::ModuleDeclaration => named_container(u, cs, j, SymbolKind::Namespace, ContainerKind::Namespace, exported),
        _ => None,
    }
}

/// The scope that node `j` opens.
pub open spec fn container_spec(u: FileSource, cs: ScopeViews, j: int) -> Option<ContainerSpec> {
    match u.language {
        Language::Rust => rust_container_spec(u, cs, j),
        _ => js_container_spec(u, cs, j),
    }
}

/// The symbol that node `j` declares under its "name" field, if it has one.
pub open spec fn named_symbol(u: FileSource, cs: ScopeViews, j: int, kind: SymbolKind, exported: bool) -> Option<SymbolView> {
    match field_child(u.tree.nodes@, j, FieldTag::Name) {
        Some(c) => Some(symbol_at(u, cs, text_of(u.source@, u.tree.nodes@[c]), kind, j, exported)),
        None => None,
    }
}

/// Function for a free function, method inside a type or impl scope.
pub open spec fn function_kind(cs: ScopeViews) -> SymbolKind {
    if in_method_scope(cs) {
        SymbolKind::Method
    } else {
        SymbolKind::Function
    }
}

/// The function, method, struct or enum that a Rust node declares.
pub open spec fn rust_function_spec(u: FileSource, cs: ScopeViews, j: int) -> Option<SymbolView> {
    let exported = rust_exported(u.source@, u.tree.nodes@, j);
    match u.tree.nodes@[j].kind {
        NodeKind::FunctionItem => named_symbol(u, cs, j, function_kind(cs), exported),
        NodeKind::FunctionSignatureItem => named_symbol(u, cs, j, SymbolKind::Method, exported),
        NodeKind::StructItem => named_symbol(u, cs, j, SymbolKind::Struct, exported),
        NodeKind::EnumItem => named_symbol(u, cs, j, SymbolKind::Enum, exported),
        _ => None,
    }
}

/// Kinds of a declarator's value that make the declarator a function.
pub open spec fn is_function_value_kind(k: NodeKind) -> bool {
    k == NodeKind::ArrowFunction || k == NodeKind::Function || k == NodeKind::FunctionExpression
}

/// The function, method or enum that a JavaScript or TypeScript node declares.
pub open spec fn js_function_spec(u: FileSource, cs: ScopeViews, j: int) -> Option<SymbolView> {
    let nodes = u.tree.nodes@;
    let exported = js_exported(nodes, j);
    match nodes[j].kind {
        NodeKind::FunctionDeclaration => named_symbol(u, cs, j, function_kind(cs), exported),
        NodeKind::MethodDefinition => named_symbol(u, cs, j, SymbolKind::Method, exported),
        NodeKind::VariableDeclarator => match (
            field_child(nodes, j, FieldTag::Name),
            field_child(nodes, j, FieldTag::Value),
        ) {
            (Some(n), Some(v)) => if is_function_value_kind(nodes[v].kind) {
                Some(symbol_at(u, cs, text_of(u.source@, nodes[n]), SymbolKind::Function, j, exported))
            } else {
                None
            },
            _ => None,
        },
        NodeKind::EnumDeclaration => named_symbol(u, cs, j, SymbolKind::Enum, exported),
        _ => None,
    }
}

/// The function-like symbol that node `j` declares.
pub open spec fn function_spec(u: FileSource, cs: ScopeViews, j: int) -> Option<SymbolView> {
    match u.language {
        Language::Rust => rust_function_spec(u, cs, j),
        _ => js_function_spec(u, cs, j),
    }
}

/// A callee expression trimmed and cut before its first '<'.
pub open spec fn normalized(s: Seq<char>) -> Seq<char> {
    before_char(trim_seq(s), '<')
}

/// The normalized text of the child of `j` under field `f`.
pub open spec fn normalized_child(u: FileSource, j: int, f: FieldTag) -> Option<Seq<char>> {
    match field_child(u.tree.nodes@, j, f) {
        Some(c) => Some(normalized(text_of(u.source@, u.tree.nodes@[c]))),
        None => None,
    }
}

/// The callee name of a Rust call or method call node.
pub open spec fn rust_call_name_spec(u: FileSource, j: int) -> Option<Seq<char>> {
    match u.tree.nodes@[j].kind {
        NodeKind::CallExpression => normalized_child(u, j, FieldTag::Function),
        NodeKind::MethodCallExpression => match field_child(u.tree.nodes@, j, FieldTag::Name) {
            Some(c) => Some(trim_seq(text_of(u.source@, u.tree.nodes@[c]))),
            None => None,
        },
        _ => None,
    }
}

/// The callee name of a JavaScript or TypeScript call or `new` node.
pub open spec fn js_call_name_spec(u: FileSource, j: int) -> Option<Seq<char>> {
    match u.tree.nodes@[j].kind {
        NodeKind::CallExpression => normalized_child(u, j, FieldTag::Function),
        NodeKind::NewExpression => normalized_child(u, j, FieldTag::Constructor),
        _ => None,
    }
}

/// The callee name of the call at node `j`.
pub open spec fn call_name_spec(u: FileSource, j: int) -> Option<Seq<char>> {
    match u.language {
        Language::Rust => rust_call_name_spec(u, j),
        _ => js_call_name_spec(u, j),
    }
}

/// The call edge at node `j`, made inside the function scopes `fs`.
pub open spec fn call_spec(u: FileSource, fs: Seq<(Seq<char>, usize)>, j: int) -> Option<CallEdgeView> {
    match call_name_spec(u, j) {
        Some(callee) => if fs.len() > 0 {
            let caller = fs.last().0;
            let span = span_of(u.tree.nodes@[j]);
            Some(CallEdgeView {
                id: sha256_hex(encode_utf8(call_seed(caller, callee, u.file@, span, u.language))),
                caller_id: caller,
                callee_name: callee,
                callee_id: None,
                file: u.file@,
                span,
            })
        } else {
            None
        },
        None => None,
    }
}

/// The view of an optional symbol.
pub open spec fn opt_symbol_view(s: Option<Symbol>) -> Option<SymbolView> {
    match s {
        Some(x) => Some(x@),
        None => None,
    }
}

/// A scope that a node opens, with the symbol it declares.
pub struct ContainerInfo {
    pub name: String,
    pub kind: ContainerKind,
    pub symbol: Option<Symbol>,
}

impl View for ContainerInfo {
    type V = ContainerSpec;

    open spec fn view(&self) -> ContainerSpec {
        (self.name@, self.kind, opt_symbol_view(self.symbol))
    }
}

/// The view of an optional scope.
pub open spec fn opt_container_view(s: Option<ContainerInfo>) -> Option<ContainerSpec> {
    match s {
        Some(x) => Some(x@),
        None => None,
    }
}

/// The view of an optional call edge.
pub open spec fn opt_call_view(s: Option<CallEdge>) -> Option<CallEdgeView> {
    match s {
        Some(x) => Some(x@),
        None => None,
    }
}

/// The view of an optional text.
pub open spec fn opt_seq(s: Option<String>) -> Option<Seq<char>> {
    match s {
        Some(x) => Some(x@),
        None => None,
    }
}

fn named_container_info(
    u: &FileSource,
    containers: &Vec<Container>,
    j: usize,
    sk: SymbolKind,
    ck: ContainerKind,
    exported: bool,
) -> (r: Option<ContainerInfo>)
    requires
        u.has_node(j as int),
        u.tree.wf(),
    ensures
        opt_container_view(r) == named_container(*u, container_views(containers@), j as int, sk, ck, exported),
{
    match u.field_child(j, FieldTag::Name) {
        Some(c) => {
            let name = u.node_text(c);
            let symbol = new_symbol(u, containers, name.clone(), sk, j, exported);
            Some(ContainerInfo { name, kind: ck, symbol: Some(symbol) })
        },
        None => None,
    }
}

fn rust_container_info(u: &FileSource, containers: &Vec<Container>, j: usize) -> (r: Option<ContainerInfo>)
    requires
        u.has_node(j as int),
        u.tree.wf(),
    ensures
        opt_container_view(r) == rust_container_spec(*u, container_views(containers@), j as int),
{
    match u.tree.nodes[j].kind {
        NodeKind::ModItem => {
            let exported = u.rust_is_exported(j);
            named_container_info(u, containers, j, SymbolKind::Module, ContainerKind::Module, exported)
        },
        NodeKind::TraitItem => {
            let exported = u.rust_is_exported(j);
            named_container_info(u, containers, j, SymbolKind::Trait, ContainerKind::Type, exported)
        },
        NodeKind::ImplItem => {
            let target = match u.field_child(j, FieldTag::Type) {
                Some(c) => Some(c),
                None => match u.field_child(j, FieldTag::Trait) {
                    Some(c) => Some(c),
                    None => u.type_descendant(j),
                },
            };
            let name = match target {
                Some(c) => u.node_text(c),
                None => String::from_str("impl"),
            };
            Some(ContainerInfo { name, kind: ContainerKind::Impl, symbol: None })
        },
        _ => None,
    }
}

fn js_container_info(u: &FileSource, containers: &Vec<Container>, j: usize) -> (r: Option<ContainerInfo>)
    requires
        u.has_node(j as int),
        u.tree.wf(),
    ensures
        opt_container_view(r) == js_container_spec(*u, container_views(containers@), j as int),
{
    match u.tree.nodes[j].kind {
        NodeKind::ClassDeclaration => {
            let exported = u.js_is_exported(j);
            named_container_info(u, containers, j, SymbolKind::Class, ContainerKind::Type, exported)
        },
        NodeKind::InterfaceDeclaration => {
            let exported = u.js_is_exported(j);
            named_container_info(u, containers, j, SymbolKind::Interface, ContainerKind::Type, exported)
        },
        NodeKind::ModuleDeclaration => {
            let exported = u.js_is_exported(j);
            named_container_info(u, containers, j, SymbolKind::Namespace, ContainerKind::Namespace, exported)
        },
        _ => None,
    }
}

/// The scope that node `j` opens, if any.
pub fn container_info(u: &FileSource, containers: &Vec<Container>, j: usize) -> (r: Option<ContainerInfo>)
    requires
        u.has_node(j as int),
        u.tree.wf(),
    ensures
        opt_container_view(r) == container_spec(*u, container_views(containers@), j as int),
{
    match u.language {
        Language::Rust => rust_container_info(u, containers, j),
        _ => js_container_info(u, containers, j),
    }
}

fn named_function_symbol(
    u: &FileSource,
    containers: &Vec<Container>,
    j: usize,
    kind: SymbolKind,
    exported: bool,
) -> (r: Option<Symbol>)
    requires
        u.has_node(j as int),
        u.tree.wf(),
    ensures
        opt_symbol_view(r) == named_symbol(*u, container_views(containers@), j as int, kind, exported),
{
    match u.field_child(j, FieldTag::Name) {
        Some(c) => {
            let name = u.node_text(c);
            Some(new_symbol(u, containers, name, kind, j, exported))
        },
        None => None,
    }
}

fn function_kind_in(containers: &Vec<Container>) -> (r: SymbolKind)
    ensures
        r == function_kind(container_views(containers@)),
{
    if in_method_context(containers) {
        SymbolKind::Method
    } else {
        SymbolKind::Function
    }
}

fn rust_function_symbol(u: &FileSource, containers: &Vec<Container>, j: usize) -> (r: Option<Symbol>)
    requires
        u.has_node(j as int),
        u.tree.wf(),
    ensures
        opt_symbol_view(r) == rust_function_spec(*u, container_views(containers@), j as int),
{
    let kind = match u.tree.nodes[j].kind {
        NodeKind::FunctionItem => function_kind_in(containers),
        NodeKind::FunctionSignatureItem => SymbolKind::Method,
        NodeKind::StructItem => SymbolKind::Struct,
        NodeKind::EnumItem => SymbolKind::Enum,
        _ => {
            return None;
        },
    };
    let exported = u.rust_is_exported(j);
    named_function_symbol(u, containers, j, kind, exported)
}

fn js_function_symbol(u: &FileSource, containers: &Vec<Container>, j: usize) -> (r: Option<Symbol>)
    requires
        u.has_node(j as int),
        u.tree.wf(),
    ensures
        opt_symbol_view(r) == js_function_spec(*u, container_views(containers@), j as int),
{
    let kind = match u.tree.nodes[j].kind {
        NodeKind::FunctionDeclaration => function_kind_in(containers),
        NodeKind::MethodDefinition => SymbolKind::Method,
        NodeKind::EnumDeclaration => SymbolKind::Enum,
        NodeKind::VariableDeclarator => {
            let name = u.field_child(j, FieldTag::Name);
            let value = u.field_child(j, FieldTag::Value);
            match (name, value) {
                (Some(n), Some(v)) => {
                    let vk = u.tree.nodes[v].kind;
                    if vk == NodeKind::ArrowFunction || vk == NodeKind::Function || vk
                        == NodeKind::FunctionExpression {
                        let exported = u.js_is_exported(j);
                        let text = u.node_text(n);
                        return Some(new_symbol(u, containers, text, SymbolKind::Function, j, exported));
                    }
                    return None;
                },
                _ => {
                    return None;
                },
            }
        },
        _ => {
            return None;
        },
    };
    let exported = u.js_is_exported(j);
    named_function_symbol(u, containers, j, kind, exported)
}

/// The function, method or type that node `j` declares, if any.
pub fn function_symbol(u: &FileSource, containers: &Vec<Container>, j: usize) -> (r: Option<Symbol>)
    requires
        u.has_node(j as int),
        u.tree.wf(),
    ensures
        opt_symbol_view(r) == function_spec(*u, container_views(containers@), j as int),
{
    match u.language {
        Language::Rust => rust_function_symbol(u, containers, j),
        _ => js_function_symbol(u, containers, j),
    }
}

/// A callee expression trimmed and cut before its first '<' (generic arguments).
pub fn normalize_call_name(value: &str) -> (r: String)
    ensures
        r@ == normalized(value@),
{
    let trimmed = trim_text(value);
    text_before_char(trimmed.as_str(), '<')
}

fn normalized_child_text(u: &FileSource, j: usize, f: FieldTag) -> (r: Option<String>)
    requires
        u.has_node(j as int),
    ensures
        opt_seq(r) == normalized_child(*u, j as int, f),
{
    match u.field_child(j, f) {
        Some(c) => Some(normalize_call_name(u.node_text(c).as_str())),
        None => None,
    }
}

fn rust_call_name(u: &FileSource, j: usize) -> (r: Option<String>)
    requires
        u.has_node(j as int),
    ensures
        opt_seq(r) == rust_call_name_spec(*u, j as int),
{
    match u.tree.nodes[j].kind {
        NodeKind::CallExpression => normalized_child_text(u, j, FieldTag::Function),
        NodeKind::MethodCallExpression => match u.field_child(j, FieldTag::Name) {
            Some(c) => Some(trim_text(u.node_text(c).as_str())),
            None => None,
        },
        _ => None,
    }
}

fn js_call_name(u: &FileSource, j: usize) -> (r: Option<String>)
    requires
        u.has_node(j as int),
    ensures
        opt_seq(r) == js_call_name_spec(*u, j as int),
{
    match u.tree.nodes[j].kind {
        NodeKind::CallExpression => normalized_child_text(u, j, FieldTag::Function),
        NodeKind::NewExpression => normalized_child_text(u, j, FieldTag::Constructor),
        _ => None,
    }
}

/// A function scope: the id of its symbol and the depth of its node.
pub struct FunctionScope {
    pub id: String,
    pub depth: usize,
}

impl View for FunctionScope {
    type V = (Seq<char>, usize);

    open spec fn view(&self) -> (Seq<char>, usize) {
        (self.id@, self.depth)
    }
}

/// Views of a stack of function scopes.
pub open spec fn function_views(s: Seq<FunctionScope>) -> Seq<(Seq<char>, usize)> {
    s.map_values(|f: FunctionScope| f@)
}

/// The call edge at node `j`, if it is a call made inside a function.
pub fn call_edge(u: &FileSource, functions: &Vec<FunctionScope>, j: usize) -> (r: Option<CallEdge>)
    requires
        u.has_node(j as int),
        u.tree.wf(),
    ensures
        opt_call_view(r) == call_spec(*u, function_views(functions@), j as int),
{
    let callee = match u.language {
        Language::Rust => rust_call_name(u, j),
        _ => js_call_name(u, j),
    };
    let callee_name = match callee {
        Some(c) => c,
        None => {
            return None;
        },
    };
    if functions.len() == 0 {
        return None;
    }
    let caller_id = functions[functions.len() - 1].id.clone();
    let span = span_from_node(&u.tree.nodes[j]);
    let mut seed = String::from_str("call:");
    seed.append(caller_id.as_str());
    seed.append(":");
    seed.append(callee_name.as_str());
    seed.append(":");
    seed.append(u.file.as_str());
    let seed = append_span_tail(seed, span, u.language);
    assert(seed@ =~= call_seed(caller_id@, callee_name@, u.file@, span, u.language));
    Some(CallEdge {
        id: hash_id(seed.as_str()),
        caller_id,
        callee_name,
        callee_id: None,
        file: u.file.clone(),
        span,
    })
}


/// What the walk has gathered so far, and the scopes around the cursor.
pub struct WalkView {
    pub symbols: Seq<SymbolView>,
    pub calls: Seq<CallEdgeView>,
    pub containers: ScopeViews,
    pub functions: Seq<(Seq<char>, usize)>,
}

/// The scopes `cs` left open at a node of depth `d`: those opened deeper or
/// at the same depth are closed.
pub open spec fn open_containers(cs: ScopeViews, d: usize) -> ScopeViews
    decreases cs.len(),
{
    if cs.len() > 0 && cs.last().2 >= d {
        open_containers(cs.drop_last(), d)
    } else {
        cs
    }
}

/// The function scopes `fs` left open at a node of depth `d`.
pub open spec fn open_functions(fs: Seq<(Seq<char>, usize)>, d: usize) -> Seq<(Seq<char>, usize)>
    decreases fs.len(),
{
    if fs.len() > 0 && fs.last().1 >= d {
        open_functions(fs.drop_last(), d)
    } else {
        fs
    }
}

/// The walk state after visiting node `j`, from the state before it.
pub open spec fn walk_step(u: FileSource, st: WalkView, j: int) -> WalkView {
    let d = u.tree.nodes@[j].depth;
    let cs = open_containers(st.containers, d);
    let fs = open_functions(st.functions, d);
    match container_spec(u, cs, j) {
        Some((name, kind, sym)) => WalkView {
            symbols: match sym {
                Some(x) => st.symbols.push(x),
                None => st.symbols,
            },
            calls: st.calls,
            containers: cs.push((name, kind, d)),
            functions: fs,
        },
        None => match function_spec(u, cs, j) {
            Some(x) => WalkView {
                symbols: st.symbols.push(x),
                calls: st.calls,
                containers: cs,
                functions: fs.push((x.id, d)),
            },
            None => WalkView {
                symbols: st.symbols,
                calls: match call_spec(u, fs, j) {
                    Some(c) => st.calls.push(c),
                    None => st.calls,
                },
                containers: cs,
                functions: fs,
            },
        },
    }
}

/// The walk state after visiting the first `k` nodes in pre-order.
pub open spec fn walk_upto(u: FileSource, k: int) -> WalkView
    decreases k,
{
    if k <= 0 {
        WalkView {
            symbols: Seq::empty(),
            calls: Seq::empty(),
            containers: Seq::empty(),
            functions: Seq::empty(),
        }
    } else {
        walk_step(u, walk_upto(u, k - 1), k - 1)
    }
}

/// The state after the whole tree has been walked.
pub open spec fn walk_all(u: FileSource) -> WalkView {
    walk_upto(u, u.tree.nodes@.len() as int)
}

/// Every call made in the walk is made by a function it found, and every
/// symbol and call lies in the file.
pub open spec fn walk_consistent(file: Seq<char>, language: Language, st: WalkView) -> bool {
    &&& forall|i: int| 0 <= i < st.calls.len() ==> exists|k: int| 0 <= k < st.symbols.len()
        && (#[trigger] st.symbols[k]).id == (#[trigger] st.calls[i]).caller_id
    &&& forall|i: int| 0 <= i < st.functions.len() ==> exists|k: int| 0 <= k < st.symbols.len()
        && (#[trigger] st.symbols[k]).id == (#[trigger] st.functions[i]).0
    &&& forall|i: int| 0 <= i < st.symbols.len() ==> (#[trigger] st.symbols[i]).file == file
    &&& forall|i: int| 0 <= i < st.calls.len() ==> (#[trigger] st.calls[i]).file == file
    &&& forall|i: int| 0 <= i < st.calls.len() ==> (#[trigger] st.calls[i]).callee_id is None
    &&& forall|i: int| 0 <= i < st.symbols.len() ==> (#[trigger] st.symbols[i]).id == sha256_hex(
        encode_utf8(symbol_seed(file, st.symbols[i].kind, st.symbols[i].fq_name, st.symbols[i].span, language)),
    )
    &&& forall|i: int| 0 <= i < st.symbols.len() ==> (#[trigger] st.symbols[i]).is_entrypoint == (
    st.symbols[i].name == "main"@ || st.symbols[i].is_exported)
    &&& forall|i: int| 0 <= i < st.calls.len() ==> (#[trigger] st.calls[i]).id == sha256_hex(
        encode_utf8(call_seed(st.calls[i].caller_id, st.calls[i].callee_name, file, st.calls[i].span, language)),
    )
}

proof fn lemma_open_functions_sub(fs: Seq<(Seq<char>, usize)>, d: usize)
    ensures
        open_functions(fs, d).len() <= fs.len(),
        forall|i: int| 0 <= i < open_functions(fs, d).len() ==> #[trigger] open_functions(fs, d)[i] == fs[i],
    decreases fs.len(),
{
    if fs.len() > 0 && fs.last().1 >= d {
        lemma_open_functions_sub(fs.drop_last(), d);
    }
}

proof fn lemma_walk_consistent(u: FileSource, k: int)
    requires
        0 <= k <= u.tree.nodes@.len(),
    ensures
        walk_consistent(u.file@, u.language, walk_upto(u, k)),
    decreases k,
{
    if k > 0 {
        lemma_walk_consistent(u, k - 1);
        let st = walk_upto(u, k - 1);
        let j = k - 1;
        let d = u.tree.nodes@[j].depth;
        let cs = open_containers(st.containers, d);
        let fs = open_functions(st.functions, d);
        lemma_open_functions_sub(st.functions, d);
        let nx = walk_step(u, st, j);
        assert(nx == walk_upto(u, k));
        assert forall|i: int| 0 <= i < fs.len() implies exists|m: int| 0 <= m < st.symbols.len()
            && (#[trigger] st.symbols[m]).id == (#[trigger] fs[i]).0 by {
            assert(fs[i] == st.functions[i]);
        }
        assert forall|i: int| 0 <= i < nx.calls.len() implies exists|m: int| 0 <= m < nx.symbols.len()
            && (#[trigger] nx.symbols[m]).id == (#[trigger] nx.calls[i]).caller_id by {
            if i < st.calls.len() {
                assert(nx.calls[i] == st.calls[i]);
                let m = choose|m: int| 0 <= m < st.symbols.len() && (#[trigger] st.symbols[m]).id == st.calls[i].caller_id;
                assert(nx.symbols[m] == st.symbols[m]);
            } else {
                assert(fs.len() > 0);
                let m = choose|m: int| 0 <= m < st.symbols.len() && (#[trigger] st.symbols[m]).id == fs[fs.len() - 1].0;
                assert(nx.symbols[m] == st.symbols[m]);
            }
        }
        assert forall|i: int| 0 <= i < nx.functions.len() implies exists|m: int| 0 <= m < nx.symbols.len()
            && (#[trigger] nx.symbols[m]).id == (#[trigger] nx.functions[i]).0 by {
            if i < fs.len() {
                assert(nx.functions[i] == fs[i]);
                let m = choose|m: int| 0 <= m < st.symbols.len() && (#[trigger] st.symbols[m]).id == fs[i].0;
                assert(nx.symbols[m] == st.symbols[m]);
            } else {
                assert(nx.symbols[st.symbols.len() as int].id == nx.functions[i].0);
            }
        }
        match container_spec(u, cs, j) {
            Some((name, kind, sym)) => {
                match sym {
                    Some(x) => {
                        assert(x.file == u.file@);
                    },
                    None => {},
                }
            },
            None => {},
        }
    }
}

/// The extractor's working state: what it has gathered and the scopes around the cursor.
pub struct ParseState {
    pub symbols: Vec<Symbol>,
    pub calls: Vec<CallEdge>,
    pub containers: Vec<Container>,
    pub functions: Vec<FunctionScope>,
}

impl View for ParseState {
    type V = WalkView;

    open spec fn view(&self) -> WalkView {
        WalkView {
            symbols: crate::model::symbol_views(self.symbols@),
            calls: crate::model::call_views(self.calls@),
            containers: container_views(self.containers@),
            functions: function_views(self.functions@),
        }
    }
}

/// Visits node `j`: closes the scopes it lies outside of, then records the
/// scope, symbol or call it holds.
pub fn walk_node(u: &FileSource, state: &mut ParseState, j: usize)
    requires
        u.has_node(j as int),
        u.tree.wf(),
    ensures
        final(state)@ == walk_step(*u, old(state)@, j as int),
{
    let d = u.tree.nodes[j].depth;
    let ghost c0 = old(state)@.containers;
    let ghost f0 = old(state)@.functions;
    while state.containers.len() > 0 && state.containers[state.containers.len() - 1].depth >= d
        invariant
            open_containers(container_views(state.containers@), d) == open_containers(c0, d),
            state.symbols@ == old(state).symbols@,
            state.calls@ == old(state).calls@,
            state.functions@ == old(state).functions@,
        decreases state.containers.len(),
    {
        let ghost before = container_views(state.containers@);
        state.containers.pop();
        assert(container_views(state.containers@) =~= before.drop_last());
    }
    assert(open_containers(container_views(state.containers@), d) == container_views(state.containers@));
    while state.functions.len() > 0 && state.functions[state.functions.len() - 1].depth >= d
        invariant
            open_functions(function_views(state.functions@), d) == open_functions(f0, d),
            container_views(state.containers@) == open_containers(c0, d),
            state.symbols@ == old(state).symbols@,
            state.calls@ == old(state).calls@,
        decreases state.functions.len(),
    {
        let ghost before = function_views(state.functions@);
        state.functions.pop();
        assert(function_views(state.functions@) =~= before.drop_last());
    }
    assert(open_functions(function_views(state.functions@), d) == function_views(state.functions@));
    let ghost st0 = state@;
    if let Some(info) = container_info(u, &state.containers, j) {
        let ContainerInfo { name, kind, symbol } = info;
        match symbol {
            Some(sym) => {
                state.symbols.push(sym);
                assert(state@.symbols =~= st0.symbols.push(sym@));
            },
            None => {},
        }
        state.containers.push(Container { name, kind, depth: d });
        assert(state@.containers =~= st0.containers.push((name@, kind, d)));
        return;
    }
    if let Some(sym) = function_symbol(u, &state.containers, j) {
        let id = sym.id.clone();
        state.symbols.push(sym);
        assert(state@.symbols =~= st0.symbols.push(sym@));
        state.functions.push(FunctionScope { id, depth: d });
        assert(state@.functions =~= st0.functions.push((sym@.id, d)));
        return;
    }
    if let Some(call) = call_edge(u, &state.functions, j) {
        state.calls.push(call);
        assert(state@.calls =~= st0.calls.push(call@));
    }
}

/// Walks the whole tree in pre-order and returns what it found.
pub fn walk_tree(u: &FileSource) -> (r: ParseState)
    requires
        u.tree.wf(),
    ensures
        r@ == walk_all(*u),
        walk_consistent(u.file@, u.language, r@),
{
    let mut state = ParseState {
        symbols: Vec::new(),
        calls: Vec::new(),
        containers: Vec::new(),
        functions: Vec::new(),
    };
    assert(state@.symbols =~= Seq::<SymbolView>::empty());
    assert(state@.calls =~= Seq::<CallEdgeView>::empty());
    assert(state@.containers =~= Seq::<(Seq<char>, ContainerKind, usize)>::empty());
    assert(state@.functions =~= Seq::<(Seq<char>, usize)>::empty());
    let n = u.tree.nodes.len();
    let mut j: usize = 0;
    while j < n
        invariant
            n == u.tree.nodes@.len(),
            j <= n,
            u.tree.wf(),
            state@ == walk_upto(*u, j as int),
        decreases n - j,
    {
        walk_node(u, &mut state, j);
        j = j + 1;
    }
    proof {
        lemma_walk_consistent(*u, n as int);
    }
    state
}


/// The '/'-separated parts of the first `i` characters of `s`: the finished
/// non-empty parts and the part being read.
pub open spec fn parts_upto(s: Seq<char>, i: int) -> (Seq<Seq<char>>, Seq<char>)
    decreases i,
{
    if i <= 0 {
        (Seq::empty(), Seq::empty())
    } else {
        let (ps, cur) = parts_upto(s, i - 1);
        if s[i - 1] == '/' {
            (
                if cur.len() > 0 {
                    ps.push(cur)
                } else {
                    ps
                },
                Seq::empty(),
            )
        } else {
            (ps, cur.push(s[i - 1]))
        }
    }
}

/// The non-empty '/'-separated parts of a path.
pub open spec fn path_parts(s: Seq<char>) -> Seq<Seq<char>> {
    let (ps, cur) = parts_upto(s, s.len() as int);
    if cur.len() > 0 {
        ps.push(cur)
    } else {
        ps
    }
}

/// A file name without the text from its last '.' on.
pub open spec fn file_stem(name: Seq<char>) -> Seq<char> {
    let k = last_index(name, '.');
    if k >= 0 {
        name.subrange(0, k)
    } else {
        name
    }
}

/// The module segments of a repo-relative path: its parts, the last without
/// its extension, and dropped when that leaves "mod" or "index".
pub open spec fn module_parts(path: Seq<char>) -> Seq<Seq<char>> {
    let ps = path_parts(path);
    if ps.len() == 0 {
        ps
    } else {
        let last = file_stem(ps.last());
        if last == "mod"@ || last == "index"@ {
            ps.drop_last()
        } else {
            ps.drop_last().push(last)
        }
    }
}

/// The module path of a repo-relative path: its module segments joined with "::".
pub open spec fn module_path_of(path: Seq<char>) -> Seq<char> {
    join_parts(module_parts(path))
}

/// The module path of a '/'-separated repo-relative path: its parts with the
/// last one's extension dropped, a last "mod" or "index" dropped, joined with "::".
pub fn module_path_from_file(relative: &str) -> (r: String)
    ensures
        r@ == module_path_of(relative@),
{
    let n = relative.unicode_len();
    let mut parts: Vec<String> = Vec::new();
    let mut cur = String::new();
    let mut i: usize = 0;
    while i < n
        invariant
            n == relative@.len(),
            i <= n,
            (texts(parts@), cur@) == parts_upto(relative@, i as int),
        decreases n - i,
    {
        let c = relative.get_char(i);
        if c == '/' {
            if cur.unicode_len() > 0 {
                let ghost before = parts@;
                parts.push(cur);
                assert(texts(parts@) =~= texts(before).push(cur@));
            }
            cur = String::new();
        } else {
            crate::text::push_char(&mut cur, c);
        }
        i = i + 1;
    }
    if cur.unicode_len() > 0 {
        let ghost before = parts@;
        parts.push(cur);
        assert(texts(parts@) =~= texts(before).push(cur@));
    }
    assert(texts(parts@) == path_parts(relative@));
    let count = parts.len();
    if count > 0 {
        let last = parts.pop().unwrap();
        let ghost rest = texts(parts@);
        assert(rest =~= path_parts(relative@).drop_last());
        let stem = match text_last_index(last.as_str(), '.') {
            Some(k) => last.as_str().substring_char(0, k).to_owned(),
            None => last,
        };
        assert(stem@ == file_stem(path_parts(relative@).last()));
        if !(crate::text::text_eq(stem.as_str(), "mod") || crate::text::text_eq(stem.as_str(), "index")) {
            parts.push(stem);
            assert(texts(parts@) =~= rest.push(stem@));
        }
    }
    assert(texts(parts@) == module_parts(relative@));
    join_text(&parts)
}


/// Why an analysis failed.
#[derive(Debug, Clone, Copy, PartialEq, Eq, Structural)]
pub enum AnalysisError {
    /// The root is missing or is not a directory.
    InvalidPath,
    /// The file's extension names no supported language.
    UnsupportedFile,
    /// Reading or walking the file system failed.
    Io,
    /// The grammar could not be loaded, or it produced no tree.
    Parse,
    /// The stored cache could not be read.
    CacheFormat,
}

/// The characters that a lossy UTF-8 decoding of `bytes` gives.
pub uninterp spec fn lossy_utf8(bytes: Seq<u8>) -> Seq<char>;

/// Relies on `String::from_utf8_lossy`: invalid sequences become U+FFFD, and
/// valid UTF-8 is decoded unchanged.
#[verifier::external_body]
fn lossy_text(bytes: &[u8]) -> (r: String)
    ensures
        r@ == lossy_utf8(bytes@),
        valid_utf8(bytes@) ==> r@ == decode_utf8(bytes@),
{
    String::from_utf8_lossy(bytes).into_owned()
}

impl FileSource {
    /// The file at repo-relative path `relative` with text `text`, parsed into `tree`.
    pub fn new(relative: &str, text: &str, tree: SyntaxTree, language: Language) -> (r: FileSource)
        ensures
            r.file@ == relative@,
            r.mod_path@ == module_path_of(relative@),
            r.source@ == encode_utf8(text@),
            r.tree == tree,
            r.language == language,
    {
        FileSource {
            file: relative.to_owned(),
            mod_path: module_path_from_file(relative),
            language,
            source: text.as_bytes_vec(),
            tree,
        }
    }
}

/// What the extractor found in a file, from the state its walk ended in.
pub open spec fn parsed_matches(p: crate::model::ParsedFile, st: WalkView) -> bool {
    &&& crate::model::symbol_views(p.symbols@) == st.symbols
    &&& crate::model::call_views(p.calls@) == st.calls
}

/// The symbols and call edges of one parsed file: those its pre-order walk
/// records. Every call is made by one of the symbols, and every symbol and
/// call lies in the file.
pub fn extract_symbols(u: &FileSource) -> (r: crate::model::ParsedFile)
    requires
        u.tree.wf(),
    ensures
        parsed_matches(r, walk_all(*u)),
        walk_consistent(u.file@, u.language, walk_all(*u)),
{
    let state = walk_tree(u);
    crate::model::ParsedFile { symbols: state.symbols, calls: state.calls }
}

/// The file that the extractor sees for `source` at repo-relative path
/// `relative`: the lossily decoded text parsed by tree-sitter.
pub open spec fn is_source_of(u: FileSource, source: Seq<u8>, relative: Seq<char>, language: Language) -> bool {
    let text = lossy_utf8(source);
    &&& u.file@ == relative
    &&& u.mod_path@ == module_path_of(relative)
    &&& u.source@ == encode_utf8(text)
    &&& u.language == language
    &&& u.tree.nodes@ == crate::grammar::syntax_nodes_of(language, text)
}

/// Whether the extractor can work on `source`: tree-sitter loads the
/// language's grammar and every position of the parse can be made one-based.
pub open spec fn extractable(source: Seq<u8>, language: Language) -> bool {
    crate::grammar::grammar_loads(language) && crate::grammar::parse_fits(language, lossy_utf8(source))
}

/// Parses `source`, a file of the given language at repo-relative path
/// `relative`, and extracts its symbols and call edges: what the pre-order
/// walk finds in tree-sitter's parse of the lossily decoded text. Fails with
/// `Parse` exactly when the grammar is refused or a position of the parse
/// cannot be made one-based.
pub fn analyze_file(source: &[u8], relative: &str, language: Language) -> (r: Result<
    crate::model::ParsedFile,
    AnalysisError,
>)
    ensures
        r is Ok <==> extractable(source@, language),
        r matches Err(e) ==> e == AnalysisError::Parse,
        r matches Ok(p) ==> exists|u: FileSource|
            is_source_of(u, source@, relative@, language) && #[trigger] parsed_matches(p, walk_all(u)),
        r matches Ok(p) ==> walk_consistent(relative@, language, WalkView {
            symbols: crate::model::symbol_views(p.symbols@),
            calls: crate::model::call_views(p.calls@),
            containers: Seq::empty(),
            functions: Seq::empty(),
        }),
{
    let text = lossy_text(source);
    let mut parser = match crate::grammar::load_grammar(language) {
        Some(p) => p,
        None => {
            return Err(AnalysisError::Parse);
        },
    };
    let parsed = match crate::grammar::parse_text(&mut parser, text.as_str()) {
        Some(t) => t,
        None => {
            return Err(AnalysisError::Parse);
        },
    };
    let tree = match crate::grammar::flatten_tree(&parsed) {
        Some(t) => t,
        None => {
            return Err(AnalysisError::Parse);
        },
    };
    proof {
        assert forall|i: int| 0 <= i < tree.nodes@.len() implies (#[trigger] tree.nodes@[i]).positions_fit() by {
            assert(tree.nodes@[i] == crate::grammar::syntax_nodes_of(language, text@)[i]);
        }
    }
    let u = FileSource::new(relative, text.as_str(), tree, language);
    let p = extract_symbols(&u);
    assert(is_source_of(u, source@, relative@, language));
    assert(parsed_matches(p, walk_all(u)));
    Ok(p)
}

} // verus!
