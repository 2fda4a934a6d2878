//! The Markdown syntax tree the document builder consumes.
//!
//! The grammar parser is an outside collaborator: whatever produces this tree
//! is free to map its own node kinds onto these variants, and anything it
//! cannot express arrives as [`Ast::Other`], which degrades to an unknown
//! block rather than failing a parse.

use vstd::prelude::*;

use crate::node::ColumnAlign;

verus! {

/// A source position the grammar parser reports: byte offsets of a node's
/// first and one-past-last byte.
#[derive(Clone, Copy, Debug, PartialEq, Eq)]
pub struct Pos {
    pub start: usize,
    pub end: usize,
}

/// One node of the Markdown syntax tree, inline and block kinds together,
/// with a catch-all for anything unsupported.
#[derive(Debug)]
pub enum Ast {
    Root { children: Vec<Ast>, pos: Option<Pos> },
    Paragraph { children: Vec<Ast>, pos: Option<Pos> },
    Text { value: String, pos: Option<Pos> },
    Emphasis { children: Vec<Ast>, pos: Option<Pos> },
    Strong { children: Vec<Ast>, pos: Option<Pos> },
    Delete { children: Vec<Ast>, pos: Option<Pos> },
    InlineCode { value: String, pos: Option<Pos> },
    Link { url: String, title: Option<String>, children: Vec<Ast>, pos: Option<Pos> },
    Image { url: String, title: Option<String>, alt: String, pos: Option<Pos> },
    InlineMath { value: String, pos: Option<Pos> },
    MdxTextExpression { value: String, pos: Option<Pos> },
    Html { value: String, pos: Option<Pos> },
    FootnoteReference { identifier: String, pos: Option<Pos> },
    LinkReference { identifier: String, label: Option<String>, children: Vec<Ast>, pos: Option<Pos> },
    Blockquote { children: Vec<Ast>, pos: Option<Pos> },
    List { ordered: bool, children: Vec<Ast>, pos: Option<Pos> },
    ListItem { children: Vec<Ast>, spread: bool, checked: Option<bool>, pos: Option<Pos> },
    Break { pos: Option<Pos> },
    Code { value: String, lang: Option<String>, pos: Option<Pos> },
    Heading { depth: u8, children: Vec<Ast>, pos: Option<Pos> },
    Math { value: String, pos: Option<Pos> },
    MdxFlowExpression { value: String, pos: Option<Pos> },
    Yaml { value: String, pos: Option<Pos> },
    Toml { value: String, pos: Option<Pos> },
    MdxJsxTextElement { children: Vec<Ast>, pos: Option<Pos> },
    MdxJsxFlowElement { children: Vec<Ast>, pos: Option<Pos> },
    ThematicBreak { pos: Option<Pos> },
    Table { align: Vec<ColumnAlign>, children: Vec<Ast>, pos: Option<Pos> },
    TableRow { children: Vec<Ast>, pos: Option<Pos> },
    TableCell { children: Vec<Ast>, pos: Option<Pos> },
    FootnoteDefinition { identifier: String, children: Vec<Ast>, pos: Option<Pos> },
    Definition { identifier: String, url: String, title: Option<String>, pos: Option<Pos> },
    Other { pos: Option<Pos> },
}

/// The position a node carries, if the grammar parser reported one.
pub open spec fn ast_pos(a: Ast) -> Option<Pos> {
    match a {
        Ast::Root { pos, .. } => pos,
        Ast::Paragraph { pos, .. } => pos,
        Ast::Text { pos, .. } => pos,
        Ast::Emphasis { pos, .. } => pos,
        Ast::Strong { pos, .. } => pos,
        Ast::Delete { pos, .. } => pos,
        Ast::InlineCode { pos, .. } => pos,
        Ast::Link { pos, .. } => pos,
        Ast::Image { pos, .. } => pos,
        Ast::InlineMath { pos, .. } => pos,
        Ast::MdxTextExpression { pos, .. } => pos,
        Ast::Html { pos, .. } => pos,
        Ast::FootnoteReference { pos, .. } => pos,
        Ast::LinkReference { pos, .. } => pos,
        Ast::Blockquote { pos, .. } => pos,
        Ast::List { pos, .. } => pos,
        Ast::ListItem { pos, .. } => pos,
        Ast::Break { pos, .. } => pos,
        Ast::Code { pos, .. } => pos,
        Ast::Heading { pos, .. } => pos,
        Ast::Math { pos, .. } => pos,
        Ast::MdxFlowExpression { pos, .. } => pos,
        Ast::Yaml { pos, .. } => pos,
        Ast::Toml { pos, .. } => pos,
        Ast::MdxJsxTextElement { pos, .. } => pos,
        Ast::MdxJsxFlowElement { pos, .. } => pos,
        Ast::ThematicBreak { pos, .. } => pos,
        Ast::Table { pos, .. } => pos,
        Ast::TableRow { pos, .. } => pos,
        Ast::TableCell { pos, .. } => pos,
        Ast::FootnoteDefinition { pos, .. } => pos,
        Ast::Definition { pos, .. } => pos,
        Ast::Other { pos, .. } => pos,
    }
}

impl Ast {
    /// The position this node carries, if any.
    pub fn position(&self) -> (r: Option<Pos>)
        ensures
            r == ast_pos(*self),
    {
        match self {
            Ast::Root { pos, .. } => *pos,
            Ast::Paragraph { pos, .. } => *pos,
            Ast::Text { pos, .. } => *pos,
            Ast::Emphasis { pos, .. } => *pos,
            Ast::Strong { pos, .. } => *pos,
            Ast::Delete { pos, .. } => *pos,
            Ast::InlineCode { pos, .. } => *pos,
            Ast::Link { pos, .. } => *pos,
            Ast::Image { pos, .. } => *pos,
            Ast::InlineMath { pos, .. } => *pos,
            Ast::MdxTextExpression { pos, .. } => *pos,
            Ast::Html { pos, .. } => *pos,
            Ast::FootnoteReference { pos, .. } => *pos,
            Ast::LinkReference { pos, .. } => *pos,
            Ast::Blockquote { pos, .. } => *pos,
            Ast::List { pos, .. } => *pos,
            Ast::ListItem { pos, .. } => *pos,
            Ast::Break { pos, .. } => *pos,
            Ast::Code { pos, .. } => *pos,
            Ast::Heading { pos, .. } => *pos,
            Ast::Math { pos, .. } => *pos,
            Ast::MdxFlowExpression { pos, .. } => *pos,
            Ast::Yaml { pos, .. } => *pos,
            Ast::Toml { pos, .. } => *pos,
            Ast::MdxJsxTextElement { pos, .. } => *pos,
            Ast::MdxJsxFlowElement { pos, .. } => *pos,
            Ast::ThematicBreak { pos, .. } => *pos,
            Ast::Table { pos, .. } => *pos,
            Ast::TableRow { pos, .. } => *pos,
            Ast::TableCell { pos, .. } => *pos,
            Ast::FootnoteDefinition { pos, .. } => *pos,
            Ast::Definition { pos, .. } => *pos,
            Ast::Other { pos, .. } => *pos,
        }
    }
}

} // verus!
