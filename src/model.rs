use vstd::prelude::*;

verus! {

/// Source language of a file.
#[derive(Debug, Clone, Copy, PartialEq, Eq, Structural, Hash)]
pub enum Language {
    Rust,
    JavaScript,
    TypeScript,
    Tsx,
}

/// Kind of a declared symbol.
#[derive(Debug, Clone, Copy, PartialEq, Eq, Structural, Hash)]
pub enum SymbolKind {
    Class,
    Struct,
    Enum,
    Interface,
    Trait,
    Module,
    Namespace,
    Function,
    Method,
}

/// One-based source region: start and end line and column.
#[derive(Debug, Clone, Copy, PartialEq, Eq, Structural)]
pub struct Span {
    pub start_line: usize,
    pub start_col: usize,
    pub end_line: usize,
    pub end_col: usize,
}

/// A declared module, type, function or method.
#[derive(Debug, Clone)]
pub struct Symbol {
    pub id: String,
    pub name: String,
    pub kind: SymbolKind,
    pub file: String,
    pub span: Span,
    pub fq_name: String,
    pub container: Option<String>,
    pub is_exported: bool,
    pub is_entrypoint: bool,
}

/// A call site inside a function or method, possibly linked to its callee.
#[derive(Debug, Clone)]
pub struct CallEdge {
    pub id: String,
    pub caller_id: String,
    pub callee_name: String,
    pub callee_id: Option<String>,
    pub file: String,
    pub span: Span,
}

/// A file that took part in an analysis run.
#[derive(Debug, Clone)]
pub struct FileInfo {
    pub path: String,
    pub language: Language,
    pub hash: String,
    pub byte_size: usize,
}

/// Counters of an analysis run.
#[derive(Debug, Clone, Copy, PartialEq, Eq, Structural)]
pub struct AnalysisStats {
    pub file_count: usize,
    pub symbol_count: usize,
    pub call_count: usize,
    pub entrypoint_count: usize,
    pub reused_cache_files: usize,
    pub reanalyzed_files: usize,
}

/// The report of an analysis run.
#[derive(Debug, Clone)]
pub struct AnalysisResult {
    pub schema_version: String,
    pub root: String,
    pub generated_at: String,
    pub stats: AnalysisStats,
    pub files: Vec<FileInfo>,
    pub symbols: Vec<Symbol>,
    pub calls: Vec<CallEdge>,
    pub entrypoints: Vec<String>,
}

/// What the extractor finds in one file.
#[derive(Debug, Clone)]
pub struct ParsedFile {
    pub symbols: Vec<Symbol>,
    pub calls: Vec<CallEdge>,
}

/// A symbol with its text fields as character sequences.
pub struct SymbolView {
    pub id: Seq<char>,
    pub name: Seq<char>,
    pub kind: SymbolKind,
    pub file: Seq<char>,
    pub span: Span,
    pub fq_name: Seq<char>,
    pub container: Option<Seq<char>>,
    pub is_exported: bool,
    pub is_entrypoint: bool,
}

/// A call edge with its text fields as character sequences.
pub struct CallEdgeView {
    pub id: Seq<char>,
    pub caller_id: Seq<char>,
    pub callee_name: Seq<char>,
    pub callee_id: Option<Seq<char>>,
    pub file: Seq<char>,
    pub span: Span,
}

/// The characters of an optional text.
pub open spec fn opt_text(t: Option<String>) -> Option<Seq<char>> {
    match t {
        Some(s) => Some(s@),
        None => None,
    }
}

impl View for Symbol {
    type V = SymbolView;

    open spec fn view(&self) -> SymbolView {
        SymbolView {
            id: self.id@,
            name: self.name@,
            kind: self.kind,
            file: self.file@,
            span: self.span,
            fq_name: self.fq_name@,
            container: opt_text(self.container),
            is_exported: self.is_exported,
            is_entrypoint: self.is_entrypoint,
        }
    }
}

impl View for CallEdge {
    type V = CallEdgeView;

    open spec fn view(&self) -> CallEdgeView {
        CallEdgeView {
            id: self.id@,
            caller_id: self.caller_id@,
            callee_name: self.callee_name@,
            callee_id: opt_text(self.callee_id),
            file: self.file@,
            span: self.span,
        }
    }
}

impl View for FileInfo {
    type V = (Seq<char>, Language, Seq<char>, usize);

    open spec fn view(&self) -> (Seq<char>, Language, Seq<char>, usize) {
        (self.path@, self.language, self.hash@, self.byte_size)
    }
}

/// Views of a sequence of file records.
pub open spec fn file_views(s: Seq<FileInfo>) -> Seq<(Seq<char>, Language, Seq<char>, usize)> {
    s.map_values(|x: FileInfo| x@)
}

/// Views of a sequence of symbols.
pub open spec fn symbol_views(s: Seq<Symbol>) -> Seq<SymbolView> {
    s.map_values(|x: Symbol| x@)
}

/// Views of a sequence of call edges.
pub open spec fn call_views(s: Seq<CallEdge>) -> Seq<CallEdgeView> {
    s.map_values(|x: CallEdge| x@)
}

/// A copy of an optional text.
pub fn copy_opt_text(t: &Option<String>) -> (r: Option<String>)
    ensures
        opt_text(r) == opt_text(*t),
{
    match t {
        Some(s) => Some(s.clone()),
        None => None,
    }
}

impl Symbol {
    /// A field-by-field copy.
    pub fn copy(&self) -> (r: Symbol)
        ensures
            r@ == self@,
    {
        Symbol {
            id: self.id.clone(),
            name: self.name.clone(),
            kind: self.kind,
            file: self.file.clone(),
            span: self.span,
            fq_name: self.fq_name.clone(),
            container: copy_opt_text(&self.container),
            is_exported: self.is_exported,
            is_entrypoint: self.is_entrypoint,
        }
    }
}

impl CallEdge {
    /// A field-by-field copy.
    pub fn copy(&self) -> (r: CallEdge)
        ensures
            r@ == self@,
    {
        CallEdge {
            id: self.id.clone(),
            caller_id: self.caller_id.clone(),
            callee_name: self.callee_name.clone(),
            callee_id: copy_opt_text(&self.callee_id),
            file: self.file.clone(),
            span: self.span,
        }
    }
}

/// Copies of a list of symbols.
pub fn copy_symbols(v: &Vec<Symbol>) -> (r: Vec<Symbol>)
    ensures
        symbol_views(r@) == symbol_views(v@),
{
    let mut r: Vec<Symbol> = Vec::new();
    let mut i: usize = 0;
    while i < v.len()
        invariant
            i <= v.len(),
            symbol_views(r@) == symbol_views(v@.subrange(0, i as int)),
        decreases v.len() - i,
    {
        r.push(v[i].copy());
        assert(symbol_views(v@.subrange(0, i + 1)) =~= symbol_views(v@.subrange(0, i as int)).push(
            v@[i as int]@,
        ));
        assert(symbol_views(r@) =~= symbol_views(v@.subrange(0, i + 1)));
        i = i + 1;
    }
    assert(v@.subrange(0, v.len() as int) =~= v@);
    r
}

/// Copies of a list of call edges.
pub fn copy_calls(v: &Vec<CallEdge>) -> (r: Vec<CallEdge>)
    ensures
        call_views(r@) == call_views(v@),
{
    let mut r: Vec<CallEdge> = Vec::new();
    let mut i: usize = 0;
    while i < v.len()
        invariant
            i <= v.len(),
            call_views(r@) == call_views(v@.subrange(0, i as int)),
        decreases v.len() - i,
    {
        r.push(v[i].copy());
        assert(call_views(v@.subrange(0, i + 1)) =~= call_views(v@.subrange(0, i as int)).push(
            v@[i as int]@,
        ));
        assert(call_views(r@) =~= call_views(v@.subrange(0, i + 1)));
        i = i + 1;
    }
    assert(v@.subrange(0, v.len() as int) =~= v@);
    r
}

/// Lower-case spelling of a symbol kind, as used in identifiers and reports.
pub open spec fn kind_text(kind: SymbolKind) -> Seq<char> {
    match kind {
        SymbolKind::Class => "class"@,
        SymbolKind::Struct => "struct"@,
        SymbolKind::Enum => "enum"@,
        SymbolKind::Interface => "interface"@,
        SymbolKind::Trait => "trait"@,
        SymbolKind::Module => "module"@,
        SymbolKind::Namespace => "namespace"@,
        SymbolKind::Function => "function"@,
        SymbolKind::Method => "method"@,
    }
}

/// Lower-case spelling of a language, as used in identifiers and reports.
pub open spec fn language_text(language: Language) -> Seq<char> {
    match language {
        Language::Rust => "rust"@,
        Language::JavaScript => "javascript"@,
        Language::TypeScript => "typescript"@,
        Language::Tsx => "tsx"@,
    }
}

pub fn kind_to_str(kind: &SymbolKind) -> (r: &'static str)
    ensures
        r@ == kind_text(*kind),
{
    match kind {
        SymbolKind::Class => "class",
        SymbolKind::Struct => "struct",
        SymbolKind::Enum => "enum",
        SymbolKind::Interface => "interface",
        SymbolKind::Trait => "trait",
        SymbolKind::Module => "module",
        SymbolKind::Namespace => "namespace",
        SymbolKind::Function => "function",
        SymbolKind::Method => "method",
    }
}

pub fn language_str(language: Language) -> (r: &'static str)
    ensures
        r@ == language_text(language),
{
    match language {
        Language::Rust => "rust",
        Language::JavaScript => "javascript",
        Language::TypeScript => "typescript",
        Language::Tsx => "tsx",
    }
}

} // verus!
