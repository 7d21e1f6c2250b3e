use vstd::prelude::*;
use crate::text::text_eq;

verus! {

/// The node kinds of the grammars that the extractor looks at; every other
/// kind is `Other`.
#[derive(Debug, Clone, Copy, PartialEq, Eq, Structural)]
pub enum NodeKind {
    ModItem,
    TraitItem,
    ImplItem,
    FunctionItem,
    FunctionSignatureItem,
    StructItem,
    EnumItem,
    VisibilityModifier,
    TypeIdentifier,
    ScopedTypeIdentifier,
    GenericType,
    CallExpression,
    MethodCallExpression,
    ClassDeclaration,
    InterfaceDeclaration,
    ModuleDeclaration,
    FunctionDeclaration,
    MethodDefinition,
    VariableDeclarator,
    EnumDeclaration,
    ArrowFunction,
    Function,
    FunctionExpression,
    NewExpression,
    ExportStatement,
    ExportClause,
    Program,
    Other,
}

/// The field names under which the extractor looks for a child; every other
/// field is `Other`, and a child that holds no field is `Unnamed`.
#[derive(Debug, Clone, Copy, PartialEq, Eq, Structural)]
pub enum FieldTag {
    Name,
    Type,
    Trait,
    Value,
    Function,
    Constructor,
    Other,
    Unnamed,
}

/// One node of a concrete syntax tree, stored in pre-order.
///
/// Rows and columns are zero-based; byte offsets index the parsed text.
#[derive(Debug, Clone, Copy, PartialEq, Eq, Structural)]
pub struct SyntaxNode {
    pub kind: NodeKind,
    pub field: FieldTag,
    pub parent: Option<usize>,
    pub depth: usize,
    pub start_byte: usize,
    pub end_byte: usize,
    pub start_row: usize,
    pub start_col: usize,
    pub end_row: usize,
    pub end_col: usize,
}

/// A concrete syntax tree as the pre-order list of its nodes: a node's
/// descendants follow it, each deeper than it, up to the next node that is
/// not deeper.
#[derive(Debug, Clone)]
pub struct SyntaxTree {
    pub nodes: Vec<SyntaxNode>,
}

impl SyntaxNode {
    /// Positions are small enough to be made one-based.
    pub open spec fn positions_fit(&self) -> bool {
        &&& self.start_row < usize::MAX
        &&& self.start_col < usize::MAX
        &&& self.end_row < usize::MAX
        &&& self.end_col < usize::MAX
    }
}

impl SyntaxTree {
    /// Every node's positions can be made one-based.
    pub open spec fn wf(&self) -> bool {
        forall|i: int| 0 <= i < self.nodes@.len() ==> (#[trigger] self.nodes@[i]).positions_fit()
    }
}

/// The node kind that a grammar's kind name stands for.
pub open spec fn kind_tag(s: Seq<char>) -> NodeKind {
    if s == "mod_item"@ {
        NodeKind::ModItem
    } else if s == "trait_item"@ {
        NodeKind::TraitItem
    } else if s == "impl_item"@ {
        NodeKind::ImplItem
    } else if s == "function_item"@ {
        NodeKind::FunctionItem
    } else if s == "function_signature_item"@ {
        NodeKind::FunctionSignatureItem
    } else if s == "struct_item"@ {
        NodeKind::StructItem
    } else if s == "enum_item"@ {
        NodeKind::EnumItem
    } else {
        kind_tag_1(s)
    }
}

pub open spec fn kind_tag_1(s: Seq<char>) -> NodeKind {
    if s == "visibility_modifier"@ {
        NodeKind::VisibilityModifier
    } else if s == "type_identifier"@ {
        NodeKind::TypeIdentifier
    } else if s == "scoped_type_identifier"@ {
        NodeKind::ScopedTypeIdentifier
    } else if s == "generic_type"@ {
        NodeKind::GenericType
    } else if s == "call_expression"@ {
        NodeKind::CallExpression
    } else if s == "method_call_expression"@ {
        NodeKind::MethodCallExpression
    } else if s == "class_declaration"@ {
        NodeKind::ClassDeclaration
    } else {
        kind_tag_2(s)
    }
}

pub open spec fn kind_tag_2(s: Seq<char>) -> NodeKind {
    if s == "interface_declaration"@ {
        NodeKind::InterfaceDeclaration
    } else if s == "module_declaration"@ {
        NodeKind::ModuleDeclaration
    } else if s == "function_declaration"@ {
        NodeKind::FunctionDeclaration
    } else if s == "method_definition"@ {
        NodeKind::MethodDefinition
    } else if s == "variable_declarator"@ {
        NodeKind::VariableDeclarator
    } else if s == "enum_declaration"@ {
        NodeKind::EnumDeclaration
    } else if s == "arrow_function"@ {
        NodeKind::ArrowFunction
    } else {
        kind_tag_3(s)
    }
}

pub open spec fn kind_tag_3(s: Seq<char>) -> NodeKind {
    if s == "function"@ {
        NodeKind::Function
    } else if s == "function_expression"@ {
        NodeKind::FunctionExpression
    } else if s == "new_expression"@ {
        NodeKind::NewExpression
    } else if s == "export_statement"@ {
        NodeKind::ExportStatement
    } else if s == "export_clause"@ {
        NodeKind::ExportClause
    } else if s == "program"@ {
        NodeKind::Program
    } else {
        NodeKind::Other
    }
}

/// The field tag that a grammar's field name stands for.
pub open spec fn field_tag(s: Seq<char>) -> FieldTag {
    if s == "name"@ {
        FieldTag::Name
    } else if s == "type"@ {
        FieldTag::Type
    } else if s == "trait"@ {
        FieldTag::Trait
    } else if s == "value"@ {
        FieldTag::Value
    } else if s == "function"@ {
        FieldTag::Function
    } else if s == "constructor"@ {
        FieldTag::Constructor
    } else {
        FieldTag::Other
    }
}

/// The node kind of a grammar's kind name.
pub fn classify_kind(s: &str) -> (r: NodeKind)
    ensures
        r == kind_tag(s@),
{
    if text_eq(s, "mod_item") {
        NodeKind::ModItem
    } else if text_eq(s, "trait_item") {
        NodeKind::TraitItem
    } else if text_eq(s, "impl_item") {
        NodeKind::ImplItem
    } else if text_eq(s, "function_item") {
        NodeKind::FunctionItem
    } else if text_eq(s, "function_signature_item") {
        NodeKind::FunctionSignatureItem
    } else if text_eq(s, "struct_item") {
        NodeKind::StructItem
    } else if text_eq(s, "enum_item") {
        NodeKind::EnumItem
    } else {
        classify_kind_1(s)
    }
}

fn classify_kind_1(s: &str) -> (r: NodeKind)
    ensures
        r == kind_tag_1(s@),
{
    if text_eq(s, "visibility_modifier") {
        NodeKind::VisibilityModifier
    } else if text_eq(s, "type_identifier") {
        NodeKind::TypeIdentifier
    } else if text_eq(s, "scoped_type_identifier") {
        NodeKind::ScopedTypeIdentifier
    } else if text_eq(s, "generic_type") {
        NodeKind::GenericType
    } else if text_eq(s, "call_expression") {
        NodeKind::CallExpression
    } else if text_eq(s, "method_call_expression") {
        NodeKind::MethodCallExpression
    } else if text_eq(s, "class_declaration") {
        NodeKind::ClassDeclaration
    } else {
        classify_kind_2(s)
    }
}

fn classify_kind_2(s: &str) -> (r: NodeKind)
    ensures
        r == kind_tag_2(s@),
{
    if text_eq(s, "interface_declaration") {
        NodeKind::InterfaceDeclaration
    } else if text_eq(s, "module_declaration") {
        NodeKind::ModuleDeclaration
    } else if text_eq(s, "function_declaration") {
        NodeKind::FunctionDeclaration
    } else if text_eq(s, "method_definition") {
        NodeKind::MethodDefinition
    } else if text_eq(s, "variable_declarator") {
        NodeKind::VariableDeclarator
    } else if text_eq(s, "enum_declaration") {
        NodeKind::EnumDeclaration
    } else if text_eq(s, "arrow_function") {
        NodeKind::ArrowFunction
    } else {
        classify_kind_3(s)
    }
}

fn classify_kind_3(s: &str) -> (r: NodeKind)
    ensures
        r == kind_tag_3(s@),
{
    if text_eq(s, "function") {
        NodeKind::Function
    } else if text_eq(s, "function_expression") {
        NodeKind::FunctionExpression
    } else if text_eq(s, "new_expression") {
        NodeKind::NewExpression
    } else if text_eq(s, "export_statement") {
        NodeKind::ExportStatement
    } else if text_eq(s, "export_clause") {
        NodeKind::ExportClause
    } else if text_eq(s, "program") {
        NodeKind::Program
    } else {
        NodeKind::Other
    }
}

/// The field tag of a grammar's field name.
pub fn classify_field(s: &str) -> (r: FieldTag)
    ensures
        r == field_tag(s@),
{
    if text_eq(s, "name") {
        FieldTag::Name
    } else if text_eq(s, "type") {
        FieldTag::Type
    } else if text_eq(s, "trait") {
        FieldTag::Trait
    } else if text_eq(s, "value") {
        FieldTag::Value
    } else if text_eq(s, "function") {
        FieldTag::Function
    } else if text_eq(s, "constructor") {
        FieldTag::Constructor
    } else {
        FieldTag::Other
    }
}

} // verus!
