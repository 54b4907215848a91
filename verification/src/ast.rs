//! The document tree the transpiler consumes: a closed set of typed node
//! kinds, each owning its children. An external markdown parser produces
//! an equivalent tree; the caller converts it into this type.
use vstd::prelude::*;

verus! {

/// Horizontal alignment of one table column. `Auto` stands for a column
/// with no alignment given in the source.
pub enum Align {
    Left,
    Center,
    Right,
    Auto,
}

/// One node of the parsed document tree.
///
/// `Item` and `TaskItem` carry the `ordered` and `tight` flags of the list
/// that owns them, so that a node is self-contained. `Other` stands for
/// any node kind this library does not recognise: it degrades to its
/// children and is never an error.
pub enum Node {
    Document { children: Vec<Node> },
    Heading { level: u8, children: Vec<Node> },
    Paragraph { children: Vec<Node> },
    Text { literal: String },
    Emph { children: Vec<Node> },
    Strong { children: Vec<Node> },
    Strikethrough { children: Vec<Node> },
    Code { literal: String },
    CodeBlock { info: String, literal: String },
    Link { url: String, children: Vec<Node> },
    Image { url: String, title: String, children: Vec<Node> },
    List { ordered: bool, tight: bool, children: Vec<Node> },
    Item { ordered: bool, tight: bool, children: Vec<Node> },
    TaskItem { checked: bool, tight: bool, children: Vec<Node> },
    BlockQuote { children: Vec<Node> },
    Table { columns: usize, alignments: Vec<Align>, children: Vec<Node> },
    TableRow { header: bool, children: Vec<Node> },
    TableCell { children: Vec<Node> },
    ThematicBreak,
    SoftBreak,
    LineBreak,
    FootnoteDefinition { name: String, children: Vec<Node> },
    FootnoteReference { name: String },
    HtmlBlock { literal: String },
    HtmlInline { literal: String },
    Other { children: Vec<Node> },
}

/// The children of a node, empty for the leaf kinds.
pub open spec fn children_of(n: Node) -> Seq<Node> {
    match n {
        Node::Document { children } => children@,
        Node::Heading { children, .. } => children@,
        Node::Paragraph { children } => children@,
        Node::Text { .. } => Seq::empty(),
        Node::Emph { children } => children@,
        Node::Strong { children } => children@,
        Node::Strikethrough { children } => children@,
        Node::Code { .. } => Seq::empty(),
        Node::CodeBlock { .. } => Seq::empty(),
        Node::Link { children, .. } => children@,
        Node::Image { children, .. } => children@,
        Node::List { children, .. } => children@,
        Node::Item { children, .. } => children@,
        Node::TaskItem { children, .. } => children@,
        Node::BlockQuote { children } => children@,
        Node::Table { children, .. } => children@,
        Node::TableRow { children, .. } => children@,
        Node::TableCell { children } => children@,
        Node::ThematicBreak => Seq::empty(),
        Node::SoftBreak => Seq::empty(),
        Node::LineBreak => Seq::empty(),
        Node::FootnoteDefinition { children, .. } => children@,
        Node::FootnoteReference { .. } => Seq::empty(),
        Node::HtmlBlock { .. } => Seq::empty(),
        Node::HtmlInline { .. } => Seq::empty(),
        Node::Other { children } => children@,
    }
}

} // verus!
