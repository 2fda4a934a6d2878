//! The document model: blocks, paragraphs, inline nodes, marks, and the
//! per-parse context with its reference table.

use vstd::prelude::*;

verus! {

/// A range of absolute source byte offsets backing a node, carried through
/// from the grammar parser's position information.
#[derive(Clone, Copy, Debug, PartialEq, Eq)]
pub struct Span {
    pub start: usize,
    pub end: usize,
}

/// A link attached to a range of text.
#[derive(Debug, PartialEq, Eq)]
pub struct LinkMark {
    pub url: String,
    pub title: Option<String>,
    /// The reference identifier of a reference-style link, resolved against
    /// the reference table at render time.
    pub identifier: Option<String>,
    /// Activation needs a secondary input modifier; set for links the
    /// builder generates itself so plain clicks do not navigate.
    pub requires_modifiers: bool,
    /// Whether the link gets link styling; generated links look like plain
    /// code instead.
    pub decorate: bool,
}

/// The mathematical view of a [`LinkMark`].
pub struct LinkMarkView {
    pub url: Seq<char>,
    pub title: Option<Seq<char>>,
    pub identifier: Option<Seq<char>>,
    pub requires_modifiers: bool,
    pub decorate: bool,
}

impl View for LinkMark {
    type V = LinkMarkView;

    open spec fn view(&self) -> LinkMarkView {
        LinkMarkView {
            url: self.url@,
            title: match self.title {
                Some(t) => Some(t@),
                None => None,
            },
            identifier: match self.identifier {
                Some(t) => Some(t@),
                None => None,
            },
            requires_modifiers: self.requires_modifiers,
            decorate: self.decorate,
        }
    }
}

impl LinkMarkView {
    /// The default link: empty URL, nothing else set, decorated.
    pub open spec fn empty() -> LinkMarkView {
        LinkMarkView {
            url: Seq::empty(),
            title: None,
            identifier: None,
            requires_modifiers: false,
            decorate: true,
        }
    }
}

impl Default for LinkMark {
    /// An empty decorated link, the base every construction starts from.
    fn default() -> (r: Self)
        ensures
            r@ == LinkMarkView::empty(),
    {
        let r = LinkMark {
            url: String::new(),
            title: None,
            identifier: None,
            requires_modifiers: false,
            decorate: true,
        };
        proof {
            assert(r@.url =~= LinkMarkView::empty().url);
        }
        r
    }
}

impl Clone for LinkMark {
    fn clone(&self) -> (r: Self)
        ensures
            r@ == self@,
    {
        LinkMark {
            url: self.url.clone(),
            title: match &self.title {
                Some(t) => Some(t.clone()),
                None => None,
            },
            identifier: match &self.identifier {
                Some(t) => Some(t.clone()),
                None => None,
            },
            requires_modifiers: self.requires_modifiers,
            decorate: self.decorate,
        }
    }
}

/// Style and behavior annotations on a range of text; the flags compose.
#[derive(Debug, PartialEq, Eq)]
pub struct TextMark {
    pub bold: bool,
    pub italic: bool,
    pub strikethrough: bool,
    pub code: bool,
    pub link: Option<LinkMark>,
}

/// The mathematical view of a [`TextMark`].
pub struct TextMarkView {
    pub bold: bool,
    pub italic: bool,
    pub strikethrough: bool,
    pub code: bool,
    pub link: Option<LinkMarkView>,
}

impl View for TextMark {
    type V = TextMarkView;

    open spec fn view(&self) -> TextMarkView {
        TextMarkView {
            bold: self.bold,
            italic: self.italic,
            strikethrough: self.strikethrough,
            code: self.code,
            link: match &self.link {
                Some(l) => Some(l@),
                None => None,
            },
        }
    }
}

impl TextMarkView {
    /// A mark with nothing set.
    pub open spec fn plain() -> TextMarkView {
        TextMarkView { bold: false, italic: false, strikethrough: false, code: false, link: None }
    }

    /// A mark with only the bold flag.
    pub open spec fn bold_only() -> TextMarkView {
        (TextMarkView { bold: true, ..TextMarkView::plain() })
    }

    /// A mark with only the italic flag.
    pub open spec fn italic_only() -> TextMarkView {
        (TextMarkView { italic: true, ..TextMarkView::plain() })
    }

    /// A mark with only the strikethrough flag.
    pub open spec fn strikethrough_only() -> TextMarkView {
        (TextMarkView { strikethrough: true, ..TextMarkView::plain() })
    }

    /// A mark with only the code flag.
    pub open spec fn code_only() -> TextMarkView {
        (TextMarkView { code: true, ..TextMarkView::plain() })
    }

    /// A mark holding only a link.
    pub open spec fn link_only(l: LinkMarkView) -> TextMarkView {
        (TextMarkView { link: Some(l), ..TextMarkView::plain() })
    }
}

impl Default for TextMark {
    /// A mark with nothing set.
    fn default() -> (r: Self)
        ensures
            r@ == TextMarkView::plain(),
    {
        TextMark { bold: false, italic: false, strikethrough: false, code: false, link: None }
    }
}

impl Clone for TextMark {
    fn clone(&self) -> (r: Self)
        ensures
            r@ == self@,
    {
        TextMark {
            bold: self.bold,
            italic: self.italic,
            strikethrough: self.strikethrough,
            code: self.code,
            link: match &self.link {
                Some(l) => Some(l.clone()),
                None => None,
            },
        }
    }
}

impl TextMark {
    /// This mark with the bold flag set.
    pub fn bold(self) -> (r: Self)
        ensures
            r@ == (TextMarkView { bold: true, ..self@ }),
    {
        TextMark { bold: true, ..self }
    }

    /// This mark with the italic flag set.
    pub fn italic(self) -> (r: Self)
        ensures
            r@ == (TextMarkView { italic: true, ..self@ }),
    {
        TextMark { italic: true, ..self }
    }

    /// This mark with the strikethrough flag set.
    pub fn strikethrough(self) -> (r: Self)
        ensures
            r@ == (TextMarkView { strikethrough: true, ..self@ }),
    {
        TextMark { strikethrough: true, ..self }
    }

    /// This mark with the code flag set.
    pub fn code(self) -> (r: Self)
        ensures
            r@ == (TextMarkView { code: true, ..self@ }),
    {
        TextMark { code: true, ..self }
    }

    /// This mark carrying the given link.
    pub fn link(self, l: LinkMark) -> (r: Self)
        ensures
            r@ == (TextMarkView { link: Some(l@), ..self@ }),
    {
        TextMark { link: Some(l), ..self }
    }
}

/// An inline image with an optional link wrapped around it.
#[derive(Debug, PartialEq, Eq)]
pub struct ImageNode {
    pub url: String,
    pub title: Option<String>,
    pub alt: Option<String>,
    pub link: Option<LinkMark>,
}

/// The mathematical view of an [`ImageNode`].
pub struct ImageNodeView {
    pub url: Seq<char>,
    pub title: Option<Seq<char>>,
    pub alt: Option<Seq<char>>,
    pub link: Option<LinkMarkView>,
}

impl View for ImageNode {
    type V = ImageNodeView;

    open spec fn view(&self) -> ImageNodeView {
        ImageNodeView {
            url: self.url@,
            title: match &self.title {
                Some(t) => Some(t@),
                None => None,
            },
            alt: match &self.alt {
                Some(t) => Some(t@),
                None => None,
            },
            link: match &self.link {
                Some(l) => Some(l@),
                None => None,
            },
        }
    }
}

/// A run of text inside a paragraph with marks over character ranges of its
/// own text, or an image in place of text. Mark ranges may overlap.
#[derive(Debug, PartialEq, Eq)]
pub struct InlineNode {
    pub text: String,
    pub marks: Vec<(core::ops::Range<usize>, TextMark)>,
    pub image: Option<ImageNode>,
}

/// The mathematical view of an [`InlineNode`].
pub struct InlineNodeView {
    pub text: Seq<char>,
    pub marks: Seq<((int, int), TextMarkView)>,
    pub image: Option<ImageNodeView>,
}

/// The view of a vector of mark ranges.
pub open spec fn marks_view(ms: Seq<(core::ops::Range<usize>, TextMark)>) -> Seq<
    ((int, int), TextMarkView),
> {
    ms.map_values(
        |m: (core::ops::Range<usize>, TextMark)| ((m.0.start as int, m.0.end as int), m.1@),
    )
}

impl View for InlineNode {
    type V = InlineNodeView;

    open spec fn view(&self) -> InlineNodeView {
        InlineNodeView {
            text: self.text@,
            marks: marks_view(self.marks@),
            image: match &self.image {
                Some(i) => Some(i@),
                None => None,
            },
        }
    }
}

impl InlineNodeView {
    /// A plain text run without marks.
    pub open spec fn plain(text: Seq<char>) -> InlineNodeView {
        InlineNodeView { text, marks: Seq::empty(), image: None }
    }

    /// A text run with one mark covering all of it.
    pub open spec fn marked(text: Seq<char>, mark: TextMarkView) -> InlineNodeView {
        InlineNodeView { text, marks: seq![((0int, text.len() as int), mark)], image: None }
    }
}

impl InlineNode {
    /// A plain text run without marks.
    pub fn new(text: &str) -> (r: Self)
        ensures
            r@ == InlineNodeView::plain(text@),
    {
        let r = InlineNode { text: String::from_str(text), marks: Vec::new(), image: None };
        proof {
            assert(r@.marks =~= Seq::<((int, int), TextMarkView)>::empty());
        }
        r
    }

    /// This run with its marks replaced.
    pub fn marks(self, marks: Vec<(core::ops::Range<usize>, TextMark)>) -> (r: Self)
        ensures
            r@ == (InlineNodeView { marks: marks_view(marks@), ..self@ }),
    {
        InlineNode { marks, ..self }
    }
}

/// The views of a sequence of inline nodes.
pub open spec fn inline_nodes_view(s: Seq<InlineNode>) -> Seq<InlineNodeView> {
    s.map_values(|n: InlineNode| n@)
}

/// An ordered sequence of inline nodes with the aggregate text they spell.
///
/// The concatenation of the nodes' texts always equals the aggregate buffer.
#[derive(Debug, PartialEq, Eq)]
pub struct Paragraph {
    pub span: Option<Span>,
    pub children: Vec<InlineNode>,
    pub text: String,
}

/// The mathematical view of a [`Paragraph`].
pub struct ParagraphView {
    pub span: Option<Span>,
    pub children: Seq<InlineNodeView>,
    pub text: Seq<char>,
}

impl View for Paragraph {
    type V = ParagraphView;

    open spec fn view(&self) -> ParagraphView {
        ParagraphView { span: self.span, children: inline_nodes_view(self.children@), text: self.text@ }
    }
}

/// The concatenation of the texts of a sequence of inline nodes.
pub open spec fn texts_of(s: Seq<InlineNodeView>) -> Seq<char>
    decreases s.len(),
{
    if s.len() == 0 {
        Seq::empty()
    } else {
        texts_of(s.drop_last()) + s.last().text
    }
}

impl ParagraphView {
    /// The paragraph invariant: the aggregate buffer spells exactly the
    /// concatenation of the children's texts.
    pub open spec fn wf(self) -> bool {
        self.text == texts_of(self.children)
    }

    /// An empty paragraph without a span.
    pub open spec fn empty() -> ParagraphView {
        ParagraphView { span: None, children: Seq::empty(), text: Seq::empty() }
    }
}

impl Default for Paragraph {
    /// An empty paragraph.
    fn default() -> (r: Self)
        ensures
            r@ == ParagraphView::empty(),
            r@.wf(),
    {
        let r = Paragraph { span: None, children: Vec::new(), text: String::new() };
        proof {
            assert(r@.children =~= Seq::<InlineNodeView>::empty());
            assert(r@.text =~= Seq::<char>::empty());
        }
        r
    }
}

impl Paragraph {
    /// A paragraph holding one plain text run.
    pub fn new(text: String) -> (r: Self)
        ensures
            r@.span is None,
            r@.children =~= seq![InlineNodeView::plain(text@)],
            r@.text == text@,
            r@.wf(),
    {
        let mut p = Paragraph::default();
        p.push(InlineNode::new(text.as_str()));
        proof {
            assert(texts_of(p@.children) =~= p@.text);
        }
        p
    }

    /// Records the source span of this paragraph, replacing any earlier one.
    pub fn set_span(&mut self, span: Span)
        ensures
            final(self)@ == (ParagraphView { span: Some(span), ..old(self)@ }),
    {
        self.span = Some(span);
    }

    /// Appends an inline node, extending the aggregate text with the node's
    /// own text.
    pub fn push(&mut self, node: InlineNode)
        ensures
            final(self)@.span == old(self)@.span,
            final(self)@.children == old(self)@.children.push(node@),
            final(self)@.text == old(self)@.text + node@.text,
            old(self)@.wf() ==> final(self)@.wf(),
    {
        self.text.append(node.text.as_str());
        self.children.push(node);
        proof {
            assert(final(self)@.children =~= old(self)@.children.push(node@));
            if old(self)@.wf() {
                assert(final(self)@.children.drop_last() =~= old(self)@.children);
                assert(texts_of(final(self)@.children) =~= final(self)@.text);
            }
        }
    }

    /// Appends plain text as an unmarked inline node.
    pub fn push_str(&mut self, text: &str)
        ensures
            final(self)@.span == old(self)@.span,
            final(self)@.children == old(self)@.children.push(InlineNodeView::plain(text@)),
            final(self)@.text == old(self)@.text + text@,
            old(self)@.wf() ==> final(self)@.wf(),
    {
        self.push(InlineNode::new(text));
    }

    /// Appends an image node; images carry no text.
    pub fn push_image(&mut self, image: ImageNode)
        ensures
            final(self)@.span == old(self)@.span,
            final(self)@.children == old(self)@.children.push(
                (InlineNodeView { text: Seq::empty(), marks: Seq::empty(), image: Some(image@) }),
            ),
            final(self)@.text == old(self)@.text,
            old(self)@.wf() ==> final(self)@.wf(),
    {
        let node = InlineNode { text: String::new(), marks: Vec::new(), image: Some(image) };
        proof {
            assert(node@.marks =~= Seq::<((int, int), TextMarkView)>::empty());
            assert(node@.text =~= Seq::<char>::empty());
        }
        self.push(node);
        proof {
            assert(final(self)@.text =~= old(self)@.text);
        }
    }

    /// Appends every node of `other`, extending the aggregate text with
    /// `other`'s; `other`'s span is discarded.
    pub fn merge(&mut self, other: Paragraph)
        ensures
            final(self)@.span == old(self)@.span,
            final(self)@.children == old(self)@.children + other@.children,
            final(self)@.text == old(self)@.text + texts_of(other@.children),
            old(self)@.wf() && other@.wf() ==> final(self)@.wf() && final(self)@.text == old(
                self,
            )@.text + other@.text,
    {
        let ghost oc = inline_nodes_view(other.children@);
        let ghost total = oc.len() as int;
        let mut rest = other.children;
        while rest.len() > 0
            invariant
                rest@.len() <= total,
                total == oc.len(),
                inline_nodes_view(rest@) =~= oc.skip(total - rest@.len()),
                self@.span == old(self)@.span,
                self@.children =~= old(self)@.children + oc.take(total - rest@.len()),
                self@.text =~= old(self)@.text + texts_of(oc.take(total - rest@.len())),
            decreases rest@.len(),
        {
            let ghost i = total - rest@.len();
            let ghost prev = rest@;
            let node = rest.remove(0);
            proof {
                assert(node@ == inline_nodes_view(prev)[0]);
                assert(node@ == oc[i]);
                assert(inline_nodes_view(rest@) =~= oc.skip(i + 1)) by {
                    assert(forall|j: int|
                        0 <= j < rest@.len() ==> #[trigger] inline_nodes_view(rest@)[j]
                            == inline_nodes_view(prev)[j + 1]);
                }
                assert(oc.take(i + 1).drop_last() =~= oc.take(i));
                assert(oc.take(i + 1).last() == oc[i]);
            }
            self.push(node);
            proof {
                assert(self@.children =~= old(self)@.children + oc.take(i + 1));
                assert(self@.text =~= old(self)@.text + texts_of(oc.take(i + 1)));
            }
        }
        proof {
            assert(oc.take(total) =~= oc);
            if old(self)@.wf() && other@.wf() {
                lemma_texts_of_concat(old(self)@.children, oc);
            }
        }
    }
}

/// A single node's text is what it contributes.
pub proof fn lemma_texts_of_single(x: InlineNodeView)
    ensures
        texts_of(seq![x]) == x.text,
{
    assert(seq![x].drop_last() =~= Seq::<InlineNodeView>::empty());
    assert(texts_of(Seq::<InlineNodeView>::empty()) == Seq::<char>::empty());
    assert(seq![x].last() == x);
    assert(texts_of(seq![x]) == texts_of(seq![x].drop_last()) + seq![x].last().text);
    assert(texts_of(seq![x]) =~= x.text);
}

/// Concatenating node sequences concatenates their texts.
pub proof fn lemma_texts_of_concat(a: Seq<InlineNodeView>, b: Seq<InlineNodeView>)
    ensures
        texts_of(a + b) == texts_of(a) + texts_of(b),
    decreases b.len(),
{
    if b.len() == 0 {
        assert(a + b =~= a);
        assert(texts_of(a) + texts_of(b) =~= texts_of(a));
    } else {
        lemma_texts_of_concat(a, b.drop_last());
        assert((a + b).drop_last() =~= a + b.drop_last());
        assert(texts_of(a + b) =~= texts_of(a) + texts_of(b));
    }
}


/// A table column alignment.
#[derive(Clone, Copy, Debug, PartialEq, Eq)]
pub enum ColumnAlign {
    Unspecified,
    Left,
    Right,
    Center,
}

/// One table cell: a paragraph of inline content.
#[derive(Debug, PartialEq, Eq)]
pub struct TableCell {
    pub children: Paragraph,
}

/// The mathematical view of a [`TableCell`].
pub struct TableCellView {
    pub children: ParagraphView,
}

impl View for TableCell {
    type V = TableCellView;

    open spec fn view(&self) -> TableCellView {
        TableCellView { children: self.children@ }
    }
}

/// One table row.
#[derive(Debug, PartialEq, Eq)]
pub struct TableRow {
    pub children: Vec<TableCell>,
}

/// The mathematical view of a [`TableRow`].
pub struct TableRowView {
    pub children: Seq<TableCellView>,
}

impl View for TableRow {
    type V = TableRowView;

    open spec fn view(&self) -> TableRowView {
        TableRowView { children: self.children@.map_values(|c: TableCell| c@) }
    }
}

impl Default for TableRow {
    /// An empty row.
    fn default() -> (r: Self)
        ensures
            r@.children == Seq::<TableCellView>::empty(),
    {
        let r = TableRow { children: Vec::new() };
        proof {
            assert(r@.children =~= Seq::<TableCellView>::empty());
        }
        r
    }
}

/// A table: column alignments and rows.
#[derive(Debug, PartialEq, Eq)]
pub struct Table {
    pub column_aligns: Vec<ColumnAlign>,
    pub children: Vec<TableRow>,
    pub span: Option<Span>,
}

/// The mathematical view of a [`Table`].
pub struct TableView {
    pub column_aligns: Seq<ColumnAlign>,
    pub children: Seq<TableRowView>,
    pub span: Option<Span>,
}

impl View for Table {
    type V = TableView;

    open spec fn view(&self) -> TableView {
        TableView {
            column_aligns: self.column_aligns@,
            children: self.children@.map_values(|r: TableRow| r@),
            span: self.span,
        }
    }
}

impl Default for Table {
    /// An empty table.
    fn default() -> (r: Self)
        ensures
            r@.column_aligns == Seq::<ColumnAlign>::empty(),
            r@.children == Seq::<TableRowView>::empty(),
            r@.span is None,
    {
        let r = Table { column_aligns: Vec::new(), children: Vec::new(), span: None };
        proof {
            assert(r@.children =~= Seq::<TableRowView>::empty());
        }
        r
    }
}

/// A fenced or indented code block with its raw text and language tag;
/// highlighting is the render layer's concern.
#[derive(Debug, PartialEq, Eq)]
pub struct CodeBlock {
    pub code: String,
    pub lang: Option<String>,
    pub span: Option<Span>,
}

/// The mathematical view of a [`CodeBlock`].
pub struct CodeBlockView {
    pub code: Seq<char>,
    pub lang: Option<Seq<char>>,
    pub span: Option<Span>,
}

impl View for CodeBlock {
    type V = CodeBlockView;

    open spec fn view(&self) -> CodeBlockView {
        CodeBlockView {
            code: self.code@,
            lang: match &self.lang {
                Some(l) => Some(l@),
                None => None,
            },
            span: self.span,
        }
    }
}

impl CodeBlock {
    /// A code block from raw text and an optional language tag.
    pub fn new(code: String, lang: Option<String>, span: Option<Span>) -> (r: Self)
        ensures
            r@.code == code@,
            r@.lang == (match lang {
                Some(l) => Some(l@),
                None => None::<Seq<char>>,
            }),
            r@.span == span,
    {
        CodeBlock { code, lang, span }
    }
}

/// A structural document element.
#[derive(Debug, PartialEq, Eq)]
pub enum BlockNode {
    Paragraph(Paragraph),
    Heading { level: u8, children: Paragraph, span: Option<Span> },
    Blockquote { children: Vec<BlockNode>, span: Option<Span> },
    List { ordered: bool, children: Vec<BlockNode>, span: Option<Span> },
    ListItem { children: Vec<BlockNode>, spread: bool, checked: Option<bool>, span: Option<Span> },
    CodeBlock(CodeBlock),
    Table(Table),
    Definition { identifier: String, url: String, title: Option<String>, span: Option<Span> },
    Divider { span: Option<Span> },
    Break { html: bool, span: Option<Span> },
    Root { children: Vec<BlockNode>, span: Option<Span> },
    Unknown,
}

/// The mathematical view of a [`BlockNode`].
pub enum BlockNodeView {
    Paragraph(ParagraphView),
    Heading { level: u8, children: ParagraphView, span: Option<Span> },
    Blockquote { children: Seq<BlockNodeView>, span: Option<Span> },
    List { ordered: bool, children: Seq<BlockNodeView>, span: Option<Span> },
    ListItem {
        children: Seq<BlockNodeView>,
        spread: bool,
        checked: Option<bool>,
        span: Option<Span>,
    },
    CodeBlock(CodeBlockView),
    Table(TableView),
    Definition {
        identifier: Seq<char>,
        url: Seq<char>,
        title: Option<Seq<char>>,
        span: Option<Span>,
    },
    Divider { span: Option<Span> },
    Break { html: bool, span: Option<Span> },
    Root { children: Seq<BlockNodeView>, span: Option<Span> },
    Unknown,
}

/// The view of a block node.
pub open spec fn block_view(b: BlockNode) -> BlockNodeView
    decreases b,
{
    match b {
        BlockNode::Paragraph(p) => BlockNodeView::Paragraph(p@),
        BlockNode::Heading { level, children, span } => BlockNodeView::Heading {
            level,
            children: children@,
            span,
        },
        BlockNode::Blockquote { children, span } => BlockNodeView::Blockquote {
            children: blocks_view(children@),
            span,
        },
        BlockNode::List { ordered, children, span } => BlockNodeView::List {
            ordered,
            children: blocks_view(children@),
            span,
        },
        BlockNode::ListItem { children, spread, checked, span } => BlockNodeView::ListItem {
            children: blocks_view(children@),
            spread,
            checked,
            span,
        },
        BlockNode::CodeBlock(c) => BlockNodeView::CodeBlock(c@),
        BlockNode::Table(t) => BlockNodeView::Table(t@),
        BlockNode::Definition { identifier, url, title, span } => BlockNodeView::Definition {
            identifier: identifier@,
            url: url@,
            title: match title {
                Some(t) => Some(t@),
                None => None,
            },
            span,
        },
        BlockNode::Divider { span } => BlockNodeView::Divider { span },
        BlockNode::Break { html, span } => BlockNodeView::Break { html, span },
        BlockNode::Root { children, span } => BlockNodeView::Root {
            children: blocks_view(children@),
            span,
        },
        BlockNode::Unknown => BlockNodeView::Unknown,
    }
}

/// The views of a sequence of block nodes.
pub open spec fn blocks_view(s: Seq<BlockNode>) -> Seq<BlockNodeView>
    decreases s,
{
    if s.len() == 0 {
        Seq::empty()
    } else {
        blocks_view(s.drop_last()).push(block_view(s.last()))
    }
}

impl View for BlockNode {
    type V = BlockNodeView;

    open spec fn view(&self) -> BlockNodeView {
        block_view(*self)
    }
}

/// Indexing into the views of a block sequence is viewing the indexed block.
pub proof fn lemma_blocks_view_index(s: Seq<BlockNode>)
    ensures
        blocks_view(s).len() == s.len(),
        forall|i: int| 0 <= i < s.len() ==> #[trigger] blocks_view(s)[i] == block_view(s[i]),
    decreases s,
{
    if s.len() > 0 {
        lemma_blocks_view_index(s.drop_last());
    }
}

/// A parsed document: the source it came from and its top-level blocks.
#[derive(Debug, PartialEq, Eq)]
pub struct ParsedDocument {
    pub source: String,
    pub blocks: Vec<BlockNode>,
}

/// The mathematical view of a [`ParsedDocument`].
pub struct ParsedDocumentView {
    pub source: Seq<char>,
    pub blocks: Seq<BlockNodeView>,
}

impl View for ParsedDocument {
    type V = ParsedDocumentView;

    open spec fn view(&self) -> ParsedDocumentView {
        ParsedDocumentView { source: self.source@, blocks: blocks_view(self.blocks@) }
    }
}

/// Token-linkification settings for inline code.
#[derive(Debug, PartialEq, Eq)]
pub struct CodeTokenLinks {
    pub enabled: bool,
    pub worktree_id: Option<String>,
}

/// The mathematical view of [`CodeTokenLinks`].
pub struct CodeTokenLinksView {
    pub enabled: bool,
    pub worktree_id: Option<Seq<char>>,
}

impl View for CodeTokenLinks {
    type V = CodeTokenLinksView;

    open spec fn view(&self) -> CodeTokenLinksView {
        CodeTokenLinksView {
            enabled: self.enabled,
            worktree_id: match &self.worktree_id {
                Some(w) => Some(w@),
                None => None,
            },
        }
    }
}

impl Default for CodeTokenLinks {
    /// Linkification off, no worktree.
    fn default() -> (r: Self)
        ensures
            r@.enabled == false,
            r@.worktree_id is None,
    {
        CodeTokenLinks { enabled: false, worktree_id: None }
    }
}

impl CodeTokenLinks {
    /// Linkification on, optionally bound to a worktree so relative paths can
    /// be linkified too.
    pub fn enabled(worktree_id: Option<String>) -> (r: Self)
        ensures
            r@.enabled == true,
            r@.worktree_id == (match worktree_id {
                Some(w) => Some(w@),
                None => None::<Seq<char>>,
            }),
    {
        CodeTokenLinks { enabled: true, worktree_id }
    }
}

/// The reference-table entry for `id`, honoring last-wins overwriting: the
/// most recently registered mark under that identifier, if any.
pub open spec fn lookup_ref(rs: Seq<(Seq<char>, LinkMarkView)>, id: Seq<char>) -> Option<
    LinkMarkView,
>
    decreases rs.len(),
{
    if rs.len() == 0 {
        None
    } else if rs.last().0 == id {
        Some(rs.last().1)
    } else {
        lookup_ref(rs.drop_last(), id)
    }
}

/// The state a parse carries: the running source offset, the linkification
/// settings, and the reference table the definitions fill.
pub struct NodeContext {
    /// Added to every AST position, so that one of several concatenated
    /// sources translates to absolute offsets.
    pub offset: usize,
    /// Linkification settings for inline code tokens.
    pub code_token_links: CodeTokenLinks,
    /// The reference table, in registration order; later entries win.
    pub references: Vec<(String, LinkMark)>,
}

/// The mathematical view of a [`NodeContext`].
pub struct NodeContextView {
    pub offset: int,
    pub code_token_links: CodeTokenLinksView,
    pub references: Seq<(Seq<char>, LinkMarkView)>,
}

impl View for NodeContext {
    type V = NodeContextView;

    open spec fn view(&self) -> NodeContextView {
        NodeContextView {
            offset: self.offset as int,
            code_token_links: self.code_token_links@,
            references: self.references@.map_values(|e: (String, LinkMark)| (e.0@, e.1@)),
        }
    }
}

impl NodeContext {
    /// A fresh context with an empty reference table.
    pub fn new(offset: usize, code_token_links: CodeTokenLinks) -> (r: Self)
        ensures
            r@.offset == offset,
            r@.code_token_links == code_token_links@,
            r@.references == Seq::<(Seq<char>, LinkMarkView)>::empty(),
    {
        let r = NodeContext { offset, code_token_links, references: Vec::new() };
        proof {
            assert(r@.references =~= Seq::<(Seq<char>, LinkMarkView)>::empty());
        }
        r
    }

    /// Registers a link under a reference identifier; a later registration
    /// under the same identifier wins over this one.
    pub fn add_ref(&mut self, identifier: String, mark: LinkMark)
        ensures
            final(self)@.offset == old(self)@.offset,
            final(self)@.code_token_links == old(self)@.code_token_links,
            final(self)@.references == old(self)@.references.push((identifier@, mark@)),
    {
        self.references.push((identifier, mark));
        proof {
            assert(final(self)@.references =~= old(self)@.references.push(
                (final(self).references@.last().0@, final(self).references@.last().1@),
            ));
        }
    }

    /// Looks an identifier up in the reference table; the last registration
    /// under that identifier wins.
    pub fn get_ref(&self, identifier: &String) -> (r: Option<LinkMark>)
        ensures
            (r is Some) == (lookup_ref(self@.references, identifier@) is Some),
            r matches Some(m) ==> lookup_ref(self@.references, identifier@) == Some(m@),
    {
        let n = self.references.len();
        proof {
            assert(self@.references.take(n as int) =~= self@.references);
        }
        let mut j: usize = n;
        while j >= 1
            invariant
                j <= n,
                n == self.references@.len(),
                lookup_ref(self@.references, identifier@) == lookup_ref(
                    self@.references.take(j as int),
                    identifier@,
                ),
            decreases j,
        {
            let p = j - 1;
            proof {
                assert(self@.references.take(j as int).last() == self@.references[p as int]);
                assert(self@.references.take(j as int).drop_last() =~= self@.references.take(
                    p as int,
                ));
            }
            if self.references[p].0 == *identifier {
                return Some(self.references[p].1.clone());
            }
            j = p;
        }
        proof {
            assert(self@.references.take(0) =~= Seq::<(Seq<char>, LinkMarkView)>::empty());
        }
        None
    }

    /// Resolves a link against the reference table: a reference-style link
    /// whose identifier has a registered definition takes that definition's
    /// mark; any other link, and a reference whose identifier is absent from
    /// the table, stays as it is — an absent reference keeps its empty URL.
    pub fn resolve_link(&self, mark: &LinkMark) -> (r: LinkMark)
        ensures
            r@ == (match mark@.identifier {
                Some(id) => match lookup_ref(self@.references, id) {
                    Some(m) => m,
                    None => mark@,
                },
                None => mark@,
            }),
    {
        match &mark.identifier {
            Some(id) => {
                match self.get_ref(id) {
                    Some(m) => m,
                    None => mark.clone(),
                }
            },
            None => mark.clone(),
        }
    }
}

} // verus!
