//! The document builder: walks a Markdown syntax tree and produces the
//! document model, linkifying URL and file-reference tokens inside inline
//! code along the way.

use vstd::prelude::*;

use crate::ast::{Ast, Pos, ast_pos};
use crate::chars::{ascii_lower, ascii_lower_char};
use crate::node::{
    BlockNode, BlockNodeView, CodeBlock, CodeBlockView, CodeTokenLinksView, ImageNode, ImageNodeView, InlineNode,
    InlineNodeView, LinkMark, LinkMarkView, NodeContext, Paragraph, ParagraphView, ParsedDocument,
    Span, Table, TableCell, TableCellView, TableRow, TableRowView, TableView, TextMark,
    TextMarkView, block_view, blocks_view, inline_nodes_view, lemma_blocks_view_index,
    lemma_texts_of_concat, lemma_texts_of_single, marks_view, texts_of,
};
use crate::token::{
    build_ctx_open_url, is_absolute_path, opt_string_view, parse_file_ref_token,
    parse_url_token, ranges_view, spec_is_absolute_path, spec_is_url_token, spec_open_url,
    spec_parse_file_ref, split_whitespace_token_ranges, token_ranges,
    lemma_token_ranges_properties,
};

verus! {

/// Addition clipped at the largest machine offset, so that span translation
/// never wraps around.
pub open spec fn sat_add_usize(a: int, b: int) -> int {
    if a + b > usize::MAX {
        usize::MAX as int
    } else {
        a + b
    }
}

fn sat_add(a: usize, b: usize) -> (r: usize)
    ensures
        r as int == sat_add_usize(a as int, b as int),
{
    if b > usize::MAX - a {
        usize::MAX
    } else {
        a + b
    }
}

/// The absolute span a parser position translates to: both offsets shifted by
/// the context's running offset, clipped at the machine limit.
pub open spec fn spec_new_span(pos: Option<Pos>, off: int) -> Option<Span> {
    match pos {
        None => None,
        Some(p) => Some(
            Span {
                start: sat_add_usize(off, p.start as int) as usize,
                end: sat_add_usize(off, p.end as int) as usize,
            },
        ),
    }
}

/// Translates a parser position into an absolute source span by adding the
/// context's running offset.
pub fn new_span(pos: Option<Pos>, cx: &NodeContext) -> (r: Option<Span>)
    ensures
        r == spec_new_span(pos, cx@.offset),
{
    match pos {
        None => None,
        Some(p) => Some(Span { start: sat_add(cx.offset, p.start), end: sat_add(cx.offset, p.end) }),
    }
}

/// Every ASCII uppercase letter folded to lowercase.
pub open spec fn lowered(s: Seq<char>) -> Seq<char> {
    s.map_values(|c: char| ascii_lower(c))
}

/// The HTML fragments this crate recognizes as a plain line break, compared
/// without case sensitivity. This stands in for an HTML collaborator: any
/// other fragment degrades to literal text rather than failing the parse.
pub open spec fn is_break_fragment(s: Seq<char>) -> bool {
    lowered(s) == "<br>"@ || lowered(s) == "<br/>"@ || lowered(s) == "<br />"@
}

/// Whether an HTML fragment is one of the recognized line-break forms.
pub fn html_is_line_break(value: &str) -> (r: bool)
    ensures
        r == is_break_fragment(value@),
{
    proof {
        reveal_strlit("<br>");
        reveal_strlit("<br/>");
        reveal_strlit("<br />");
    }
    let n = value.unicode_len();
    if n == 4 {
        let r = ascii_lower_char(value.get_char(0)) == '<'
            && ascii_lower_char(value.get_char(1)) == 'b'
            && ascii_lower_char(value.get_char(2)) == 'r' && value.get_char(3) == '>';
        proof {
            if r {
                assert(lowered(value@) =~= "<br>"@);
            } else {
                assert(lowered(value@) != "<br>"@) by {
                    if lowered(value@) == "<br>"@ {
                        assert(lowered(value@)[0] == '<' && lowered(value@)[1] == 'b' && lowered(
                            value@,
                        )[2] == 'r' && lowered(value@)[3] == '>');
                    }
                }
            }
            assert(lowered(value@).len() == 4 && "<br/>"@.len() == 5 && "<br />"@.len() == 6);
        }
        r
    } else if n == 5 {
        let r = ascii_lower_char(value.get_char(0)) == '<'
            && ascii_lower_char(value.get_char(1)) == 'b'
            && ascii_lower_char(value.get_char(2)) == 'r' && value.get_char(3) == '/'
            && value.get_char(4) == '>';
        proof {
            if r {
                assert(lowered(value@) =~= "<br/>"@);
            } else {
                assert(lowered(value@) != "<br/>"@) by {
                    if lowered(value@) == "<br/>"@ {
                        assert(lowered(value@)[0] == '<' && lowered(value@)[1] == 'b' && lowered(
                            value@,
                        )[2] == 'r' && lowered(value@)[3] == '/' && lowered(value@)[4] == '>');
                    }
                }
            }
            assert(lowered(value@).len() == 5 && "<br>"@.len() == 4 && "<br />"@.len() == 6);
        }
        r
    } else if n == 6 {
        let r = ascii_lower_char(value.get_char(0)) == '<'
            && ascii_lower_char(value.get_char(1)) == 'b'
            && ascii_lower_char(value.get_char(2)) == 'r' && value.get_char(3) == ' '
            && value.get_char(4) == '/' && value.get_char(5) == '>';
        proof {
            if r {
                assert(lowered(value@) =~= "<br />"@);
            } else {
                assert(lowered(value@) != "<br />"@) by {
                    if lowered(value@) == "<br />"@ {
                        assert(lowered(value@)[0] == '<' && lowered(value@)[1] == 'b' && lowered(
                            value@,
                        )[2] == 'r' && lowered(value@)[3] == ' ' && lowered(value@)[4] == '/'
                            && lowered(value@)[5] == '>');
                    }
                }
            }
            assert(lowered(value@).len() == 6 && "<br>"@.len() == 4 && "<br/>"@.len() == 5);
        }
        r
    } else {
        proof {
            assert(lowered(value@).len() == n && "<br>"@.len() == 4 && "<br/>"@.len() == 5
                && "<br />"@.len() == 6);
        }
        false
    }
}

/// An internally generated "open" URL, which activates only with a modifier
/// and is painted like plain text.
pub open spec fn is_ctx_open_url(url: Seq<char>) -> bool {
    url.len() >= 11 && url.subrange(0, 11) == "ctx://open?"@
}

/// Whether a link URL uses the internal `ctx://open?` form.
pub fn url_is_ctx_open(url: &str) -> (r: bool)
    ensures
        r == is_ctx_open_url(url@),
{
    proof {
        reveal_strlit("ctx://open?");
    }
    let n = url.unicode_len();
    if n < 11 {
        return false;
    }
    let r = url.get_char(0) == 'c' && url.get_char(1) == 't' && url.get_char(2) == 'x'
        && url.get_char(3) == ':' && url.get_char(4) == '/' && url.get_char(5) == '/'
        && url.get_char(6) == 'o' && url.get_char(7) == 'p' && url.get_char(8) == 'e'
        && url.get_char(9) == 'n' && url.get_char(10) == '?';
    proof {
        if r {
            assert(url@.subrange(0, 11) =~= "ctx://open?"@);
        } else {
            if url@.subrange(0, 11) == "ctx://open?"@ {
                assert(url@[0] == url@.subrange(0, 11)[0]);
                assert(url@[1] == url@.subrange(0, 11)[1]);
                assert(url@[2] == url@.subrange(0, 11)[2]);
                assert(url@[3] == url@.subrange(0, 11)[3]);
                assert(url@[4] == url@.subrange(0, 11)[4]);
                assert(url@[5] == url@.subrange(0, 11)[5]);
                assert(url@[6] == url@.subrange(0, 11)[6]);
                assert(url@[7] == url@.subrange(0, 11)[7]);
                assert(url@[8] == url@.subrange(0, 11)[8]);
                assert(url@[9] == url@.subrange(0, 11)[9]);
                assert(url@[10] == url@.subrange(0, 11)[10]);
            }
        }
    }
    r
}


/// The mark a direct link gets: internal `ctx://open?` links require a
/// modifier and go undecorated; all others are ordinary decorated links.
pub open spec fn spec_link_mark_for(url: Seq<char>, title: Option<Seq<char>>) -> LinkMarkView {
    LinkMarkView {
        url,
        title,
        identifier: None,
        requires_modifiers: is_ctx_open_url(url),
        decorate: !is_ctx_open_url(url),
    }
}

/// The link mark a token inside inline code earns: URLs always linkify; file
/// references linkify only when a worktree is configured or the path is
/// absolute, and only when the open URL can be built.
pub open spec fn token_link_marks(s: Seq<char>, range: (int, int), cfg: CodeTokenLinksView) -> Seq<
    ((int, int), TextMarkView),
> {
    let tok = s.subrange(range.0, range.1);
    if spec_is_url_token(tok) {
        seq![
            (
                range,
                TextMarkView::link_only(
                    LinkMarkView {
                        url: tok,
                        title: None,
                        identifier: None,
                        requires_modifiers: true,
                        decorate: false,
                    },
                ),
            ),
        ]
    } else {
        match spec_parse_file_ref(tok) {
            Some(f) => {
                if cfg.worktree_id is Some || spec_is_absolute_path(f.path) {
                    match spec_open_url(f, cfg.worktree_id) {
                        Some(u) => seq![
                            (
                                range,
                                TextMarkView::link_only(
                                    LinkMarkView {
                                        url: u,
                                        title: None,
                                        identifier: None,
                                        requires_modifiers: true,
                                        decorate: false,
                                    },
                                ),
                            ),
                        ],
                        None => Seq::empty(),
                    }
                } else {
                    Seq::empty()
                }
            },
            None => Seq::empty(),
        }
    }
}

/// The link marks of every token of `s`, in token order.
pub open spec fn link_marks_of(s: Seq<char>, rs: Seq<(int, int)>, cfg: CodeTokenLinksView) -> Seq<
    ((int, int), TextMarkView),
>
    decreases rs.len(),
{
    if rs.len() == 0 {
        Seq::empty()
    } else {
        link_marks_of(s, rs.drop_last(), cfg) + token_link_marks(s, rs.last(), cfg)
    }
}

/// The marks inline code earns: a code mark over the whole text, and — when
/// linkification is on and the text nonempty — a link mark for each token
/// that is a URL or a linkifiable file reference.
pub open spec fn spec_inline_code_marks(s: Seq<char>, cfg: CodeTokenLinksView) -> Seq<
    ((int, int), TextMarkView),
> {
    seq![((0int, s.len() as int), TextMarkView::code_only())] + (if !cfg.enabled || s.len() == 0 {
        Seq::empty()
    } else {
        link_marks_of(s, token_ranges(s), cfg)
    })
}

/// Builds the marks for an inline code run: the full-range code mark, plus
/// overlapping link marks for URL and file-reference tokens.
pub fn build_inline_code_marks(text: &str, cx: &NodeContext) -> (marks: Vec<
    (core::ops::Range<usize>, TextMark),
>)
    ensures
        marks_view(marks@) == spec_inline_code_marks(text@, cx@.code_token_links),
{
    let ghost s = text@;
    let ghost cfg = cx@.code_token_links;
    let n = text.unicode_len();
    let mut marks: Vec<(core::ops::Range<usize>, TextMark)> = Vec::new();
    marks.push((0..n, TextMark::default().code()));
    proof {
        assert(marks_view(marks@) =~= seq![((0int, s.len() as int), TextMarkView::code_only())]);
    }
    if !cx.code_token_links.enabled || n == 0 {
        proof {
            assert(marks_view(marks@) =~= spec_inline_code_marks(s, cfg));
        }
        return marks;
    }
    let ranges = split_whitespace_token_ranges(text);
    let ghost trs = token_ranges(s);
    proof {
        lemma_token_ranges_properties(s);
        assert(marks_view(marks@) =~= seq![((0int, s.len() as int), TextMarkView::code_only())]
            + link_marks_of(s, trs.take(0), cfg));
    }
    let mut i: usize = 0;
    while i < ranges.len()
        invariant
            s == text@,
            cfg == cx@.code_token_links,
            cfg.enabled,
            n == s.len(),
            i <= ranges.len(),
            ranges_view(ranges@) == trs,
            trs == token_ranges(s),
            forall|k: int| 0 <= k < trs.len() ==> 0 <= #[trigger] trs[k].0 < trs[k].1 <= s.len(),
            marks_view(marks@) =~= seq![((0int, s.len() as int), TextMarkView::code_only())]
                + link_marks_of(s, trs.take(i as int), cfg),
        decreases ranges.len() - i,
    {
        let start = ranges[i].start;
        let end = ranges[i].end;
        proof {
            assert(ranges_view(ranges@)[i as int] == (start as int, end as int));
            assert(trs[i as int] == (start as int, end as int));
            assert(trs[i as int].0 == start as int && trs[i as int].1 == end as int);
            assert(0 <= start as int && (start as int) < end as int && end as int <= s.len());
            assert(trs.take(i + 1).drop_last() =~= trs.take(i as int));
            assert(trs.take(i + 1).last() == trs[i as int]);
        }
        let ghost base = seq![((0int, s.len() as int), TextMarkView::code_only())];
        let ghost tok = s.subrange(start as int, end as int);
        let token = text.substring_char(start, end);
        if let Some(url) = parse_url_token(token) {
            let link = LinkMark {
                url,
                title: None,
                identifier: None,
                requires_modifiers: true,
                decorate: false,
            };
            let ghost prev_marks = marks@;
            marks.push((start..end, TextMark::default().link(link)));
            proof {
                assert(marks_view(marks@) =~= marks_view(prev_marks).push(
                    ((start as int, end as int), marks@.last().1@),
                ));
                assert(token_link_marks(s, trs[i as int], cfg) =~= seq![
                    ((start as int, end as int), marks@.last().1@),
                ]);
                assert(marks_view(marks@) =~= base + link_marks_of(s, trs.take(i + 1), cfg));
            }
        } else if let Some(file_ref) = parse_file_ref_token(token) {
            let can_link = cx.code_token_links.worktree_id.is_some() || is_absolute_path(
                file_ref.path.as_str(),
            );
            if can_link {
                let wt = cx.code_token_links.worktree_id.as_ref();
                proof {
                    assert(opt_string_view(wt) == cfg.worktree_id);
                }
                if let Some(url) = build_ctx_open_url(&file_ref, wt) {
                    let link = LinkMark {
                        url,
                        title: None,
                        identifier: None,
                        requires_modifiers: true,
                        decorate: false,
                    };
                    let ghost prev_marks = marks@;
                    marks.push((start..end, TextMark::default().link(link)));
                    proof {
                        assert(marks_view(marks@) =~= marks_view(prev_marks).push(
                            ((start as int, end as int), marks@.last().1@),
                        ));
                        assert(token_link_marks(s, trs[i as int], cfg) =~= seq![
                            ((start as int, end as int), marks@.last().1@),
                        ]);
                        assert(marks_view(marks@) =~= base + link_marks_of(
                            s,
                            trs.take(i + 1),
                            cfg,
                        ));
                    }
                } else {
                    proof {
                        assert(token_link_marks(s, trs[i as int], cfg) =~= Seq::<
                            ((int, int), TextMarkView),
                        >::empty());
                        assert(marks_view(marks@) =~= base + link_marks_of(
                            s,
                            trs.take(i + 1),
                            cfg,
                        ));
                    }
                }
            } else {
                proof {
                    assert(cfg.worktree_id is None && !spec_is_absolute_path(
                        spec_parse_file_ref(tok)->Some_0.path,
                    ));
                    assert(token_link_marks(s, trs[i as int], cfg) =~= Seq::<
                        ((int, int), TextMarkView),
                    >::empty());
                    assert(marks_view(marks@) =~= base + link_marks_of(s, trs.take(i + 1), cfg));
                }
            }
        } else {
            proof {
                assert(token_link_marks(s, trs[i as int], cfg) =~= Seq::<
                    ((int, int), TextMarkView),
                >::empty());
                assert(marks_view(marks@) =~= base + link_marks_of(s, trs.take(i + 1), cfg));
            }
        }
        i += 1;
    }
    proof {
        assert(trs.take(trs.len() as int) =~= trs);
        assert(marks_view(marks@) =~= spec_inline_code_marks(s, cfg));
    }
    marks
}


/// The view of an optional owned string.
pub open spec fn opt_str_field(o: Option<String>) -> Option<Seq<char>> {
    match o {
        Some(s) => Some(s@),
        None => None,
    }
}

/// The plain text an inline node contributes to its enclosing run of text.
pub open spec fn inline_text(n: Ast) -> Seq<char>
    decreases n,
{
    match n {
        Ast::Paragraph { children, .. } => inline_texts(children@),
        Ast::Text { value, .. } => value@,
        Ast::Emphasis { children, .. } => inline_texts(children@),
        Ast::Strong { children, .. } => inline_texts(children@),
        Ast::Delete { children, .. } => inline_texts(children@),
        Ast::InlineCode { value, .. } => value@,
        Ast::Link { children, .. } => inline_texts(children@),
        Ast::InlineMath { value, .. } => value@,
        Ast::MdxTextExpression { value, .. } => value@,
        Ast::Html { value, .. } => if is_break_fragment(value@) {
            seq!['\n']
        } else {
            value@
        },
        _ => Seq::empty(),
    }
}

/// The concatenated text contributions of a sequence of inline nodes.
pub open spec fn inline_texts(s: Seq<Ast>) -> Seq<char>
    decreases s,
{
    if s.len() == 0 {
        Seq::empty()
    } else {
        inline_texts(s.drop_last()) + inline_text(s.last())
    }
}

/// A reference identifier rendered as a bracketed marker.
pub open spec fn bracketed(id: Seq<char>) -> Seq<char> {
    seq!['['] + id + seq![']']
}

/// Every item of a link's rendered children with the link mark appended over
/// its whole text, and the link attached to any image it carries.
pub open spec fn link_wrap(items: Seq<InlineNodeView>, l: LinkMarkView) -> Seq<InlineNodeView> {
    items.map_values(
        |c: InlineNodeView| InlineNodeView {
            text: c.text,
            marks: c.marks.push(((0int, c.text.len() as int), TextMarkView::link_only(l))),
            image: match c.image {
                Some(img) => Some(ImageNodeView { link: Some(l), ..img }),
                None => None,
            },
        },
    )
}

/// The inline nodes one syntax-tree node renders to.
///
/// Emphasis, strong and strikethrough flatten their children to plain text
/// under one mark; inline code gets its linkified marks; a link wraps every
/// rendered child; an unrecognized HTML fragment contributes text but no
/// node; anything block-level renders to nothing.
pub open spec fn inline_items(n: Ast, cfg: CodeTokenLinksView) -> Seq<InlineNodeView>
    decreases n,
{
    match n {
        Ast::Paragraph { children, .. } => inline_items_seq(children@, cfg),
        Ast::Text { value, .. } => seq![InlineNodeView::plain(value@)],
        Ast::Emphasis { children, .. } => seq![
            InlineNodeView::marked(inline_texts(children@), TextMarkView::italic_only()),
        ],
        Ast::Strong { children, .. } => seq![
            InlineNodeView::marked(inline_texts(children@), TextMarkView::bold_only()),
        ],
        Ast::Delete { children, .. } => seq![
            InlineNodeView::marked(inline_texts(children@), TextMarkView::strikethrough_only()),
        ],
        Ast::InlineCode { value, .. } => seq![
            (InlineNodeView {
                text: value@,
                marks: spec_inline_code_marks(value@, cfg),
                image: None,
            }),
        ],
        Ast::Link { url, title, children, .. } => link_wrap(
            inline_items_seq(children@, cfg),
            spec_link_mark_for(url@, opt_str_field(title)),
        ),
        Ast::Image { url, title, alt, .. } => seq![
            (InlineNodeView {
                text: Seq::empty(),
                marks: Seq::empty(),
                image: Some(
                    ImageNodeView {
                        url: url@,
                        title: opt_str_field(title),
                        alt: Some(alt@),
                        link: None,
                    },
                ),
            }),
        ],
        Ast::InlineMath { value, .. } => seq![
            InlineNodeView::marked(value@, TextMarkView::code_only()),
        ],
        Ast::MdxTextExpression { value, .. } => seq![
            InlineNodeView::marked(value@, TextMarkView::plain()),
        ],
        Ast::Html { value, .. } => if is_break_fragment(value@) {
            seq![InlineNodeView::plain(seq!['\n'])]
        } else {
            Seq::empty()
        },
        Ast::FootnoteReference { identifier, .. } => seq![
            InlineNodeView::marked(bracketed(identifier@), TextMarkView::italic_only()),
        ],
        Ast::LinkReference { identifier, label, children, .. } => seq![
            InlineNodeView::marked(
                inline_texts(children@),
                TextMarkView::link_only(
                    LinkMarkView {
                        url: Seq::empty(),
                        title: opt_str_field(label),
                        identifier: Some(identifier@),
                        requires_modifiers: false,
                        decorate: true,
                    },
                ),
            ),
        ],
        _ => Seq::empty(),
    }
}

/// The concatenated inline nodes a sequence of syntax-tree nodes renders to.
pub open spec fn inline_items_seq(s: Seq<Ast>, cfg: CodeTokenLinksView) -> Seq<InlineNodeView>
    decreases s,
{
    if s.len() == 0 {
        Seq::empty()
    } else {
        inline_items_seq(s.drop_last(), cfg) + inline_items(s.last(), cfg)
    }
}

/// How rendering one node updates the paragraph's span: a node with a
/// position overwrites it, and a nested paragraph lets its children
/// overwrite it in turn.
pub open spec fn para_span_step(n: Ast, off: int, prev: Option<Span>) -> Option<Span>
    decreases n,
{
    let cur = match ast_pos(n) {
        Some(p) => spec_new_span(Some(p), off),
        None => prev,
    };
    match n {
        Ast::Paragraph { children, .. } => para_span_seq(children@, off, cur),
        _ => cur,
    }
}

/// How rendering a sequence of nodes, left to right, updates the span.
pub open spec fn para_span_seq(s: Seq<Ast>, off: int, prev: Option<Span>) -> Option<Span>
    decreases s,
{
    if s.len() == 0 {
        prev
    } else {
        para_span_seq(s.drop_first(), off, para_span_step(s[0], off, prev))
    }
}

/// Renders a sequence of inline syntax-tree nodes into a fresh paragraph,
/// returning the combined plain text alongside it.
fn render_children(children: &Vec<Ast>, cx: &NodeContext) -> (r: (String, Paragraph))
    ensures
        r.0@ == inline_texts(children@),
        r.1@.children == inline_items_seq(children@, cx@.code_token_links),
        r.1@.text == texts_of(inline_items_seq(children@, cx@.code_token_links)),
        r.1@.span == para_span_seq(children@, cx@.offset, None),
        r.1@.wf(),
    decreases children@,
{
    let ghost cfg = cx@.code_token_links;
    let ghost off = cx@.offset;
    let mut text = String::new();
    let mut scratch = Paragraph::default();
    let mut i: usize = 0;
    proof {
        assert(inline_texts(children@.take(0)) =~= Seq::<char>::empty());
        assert(inline_items_seq(children@.take(0), cfg) =~= Seq::<InlineNodeView>::empty());
        assert(texts_of(Seq::<InlineNodeView>::empty()) =~= Seq::<char>::empty());
        assert(children@.skip(0) =~= children@);
    }
    while i < children.len()
        invariant
            i <= children.len(),
            cfg == cx@.code_token_links,
            off == cx@.offset,
            text@ == inline_texts(children@.take(i as int)),
            scratch@.children == inline_items_seq(children@.take(i as int), cfg),
            scratch@.text == texts_of(inline_items_seq(children@.take(i as int), cfg)),
            para_span_seq(children@, off, None) == para_span_seq(
                children@.skip(i as int),
                off,
                scratch@.span,
            ),
            scratch@.wf(),
        decreases children@.len() - i,
    {
        let c = &children[i];
        proof {
            assert(decreases_to!(children@ => children@[i as int]));
        }
        let t = parse_paragraph(&mut scratch, c, cx);
        text.append(t.as_str());
        proof {
            assert(children@.take(i + 1).drop_last() =~= children@.take(i as int));
            assert(children@.take(i + 1).last() == children@[i as int]);
            assert(text@ =~= inline_texts(children@.take(i + 1)));
            assert(inline_items_seq(children@.take(i + 1), cfg) =~= inline_items_seq(
                children@.take(i as int),
                cfg,
            ) + inline_items(children@[i as int], cfg));
            lemma_texts_of_concat(
                inline_items_seq(children@.take(i as int), cfg),
                inline_items(children@[i as int], cfg),
            );
            assert(children@.skip(i as int).drop_first() =~= children@.skip(i + 1));
            assert(children@.skip(i as int)[0] == children@[i as int]);
        }
        i += 1;
    }
    proof {
        assert(children@.take(children@.len() as int) =~= children@);
        assert(children@.skip(children@.len() as int) =~= Seq::<Ast>::empty());
    }
    (text, scratch)
}

/// A single mark covering `[0, end)`.
fn single_mark(end: usize, mark: TextMark) -> (r: Vec<(core::ops::Range<usize>, TextMark)>)
    ensures
        marks_view(r@) == seq![((0int, end as int), mark@)],
{
    let mut v: Vec<(core::ops::Range<usize>, TextMark)> = Vec::new();
    v.push((0..end, mark));
    proof {
        assert(marks_view(v@) =~= seq![((0int, end as int), v@[0].1@)]);
    }
    v
}

/// Renders one inline syntax-tree node into the paragraph and returns the
/// plain text it contributed: the paragraph gains the node's inline items,
/// its aggregate text grows by exactly those items' texts, and the span is
/// updated as the node's position dictates.
pub fn parse_paragraph(paragraph: &mut Paragraph, node: &Ast, cx: &NodeContext) -> (text: String)
    ensures
        text@ == inline_text(*node),
        final(paragraph)@.children == old(paragraph)@.children + inline_items(
            *node,
            cx@.code_token_links,
        ),
        final(paragraph)@.text == old(paragraph)@.text + texts_of(
            inline_items(*node, cx@.code_token_links),
        ),
        final(paragraph)@.span == para_span_step(*node, cx@.offset, old(paragraph)@.span),
        old(paragraph)@.wf() ==> final(paragraph)@.wf(),
    decreases *node,
{
    let ghost cfg = cx@.code_token_links;
    let ghost off = cx@.offset;
    if let Some(p) = node.position() {
        paragraph.set_span(Span { start: sat_add(cx.offset, p.start), end: sat_add(cx.offset, p.end) });
    }
    let ghost p1 = paragraph@;
    proof {
        assert(p1.children == old(paragraph)@.children && p1.text == old(paragraph)@.text);
        assert(p1.span == (match ast_pos(*node) {
            Some(p) => spec_new_span(Some(p), off),
            None => old(paragraph)@.span,
        }));
    }
    match node {
        Ast::Paragraph { children, .. } => {
            let mut text = String::new();
            let mut i: usize = 0;
            proof {
                assert(decreases_to!(*node => node->Paragraph_children));
                assert(inline_texts(children@.take(0)) =~= Seq::<char>::empty());
                assert(inline_items_seq(children@.take(0), cfg) =~= Seq::<
                    InlineNodeView,
                >::empty());
                assert(texts_of(Seq::<InlineNodeView>::empty()) =~= Seq::<char>::empty());
                assert(children@.skip(0) =~= children@);
                assert(p1.children + inline_items_seq(children@.take(0), cfg) =~= p1.children);
                assert(p1.text + texts_of(inline_items_seq(children@.take(0), cfg)) =~= p1.text);
            }
            while i < children.len()
                invariant
                    i <= children.len(),
                    cfg == cx@.code_token_links,
                    off == cx@.offset,
                    *node == (Ast::Paragraph { children: *children, pos: node->Paragraph_pos }),
                    text@ == inline_texts(children@.take(i as int)),
                    paragraph@.children =~= p1.children + inline_items_seq(
                        children@.take(i as int),
                        cfg,
                    ),
                    paragraph@.text =~= p1.text + texts_of(
                        inline_items_seq(children@.take(i as int), cfg),
                    ),
                    para_span_seq(children@, off, p1.span) == para_span_seq(
                        children@.skip(i as int),
                        off,
                        paragraph@.span,
                    ),
                    p1.wf() ==> paragraph@.wf(),
                decreases children@.len() - i,
            {
                let c = &children[i];
                proof {
                    assert(decreases_to!(*node => node->Paragraph_children));
                    assert(decreases_to!(*children => children@));
                    assert(decreases_to!(children@ => children@[i as int]));
                }
                let t = parse_paragraph(paragraph, c, cx);
                text.append(t.as_str());
                proof {
                    assert(children@.take(i + 1).drop_last() =~= children@.take(i as int));
                    assert(children@.take(i + 1).last() == children@[i as int]);
                    assert(text@ =~= inline_texts(children@.take(i + 1)));
                    assert(inline_items_seq(children@.take(i + 1), cfg) =~= inline_items_seq(
                        children@.take(i as int),
                        cfg,
                    ) + inline_items(children@[i as int], cfg));
                    lemma_texts_of_concat(
                        inline_items_seq(children@.take(i as int), cfg),
                        inline_items(children@[i as int], cfg),
                    );
                    assert(paragraph@.children =~= p1.children + inline_items_seq(
                        children@.take(i + 1),
                        cfg,
                    ));
                    assert(paragraph@.text =~= p1.text + texts_of(
                        inline_items_seq(children@.take(i + 1), cfg),
                    ));
                    assert(children@.skip(i as int).drop_first() =~= children@.skip(i + 1));
                    assert(children@.skip(i as int)[0] == children@[i as int]);
                }
                i += 1;
            }
            proof {
                assert(children@.take(children@.len() as int) =~= children@);
                assert(children@.skip(children@.len() as int) =~= Seq::<Ast>::empty());
            }
            text
        },
        Ast::Text { value, .. } => {
            paragraph.push_str(value.as_str());
            proof {
                assert(inline_items(*node, cfg) =~= seq![InlineNodeView::plain(value@)]);
                assert(paragraph@.children =~= p1.children + inline_items(*node, cfg));
                lemma_texts_of_single(InlineNodeView::plain(value@));
            }
            value.clone()
        },
        Ast::Emphasis { children, .. } => {
            proof {
                assert(decreases_to!(*node => node->Emphasis_children));
                assert(decreases_to!(*children => children@));
            }
            let (text, _scratch) = render_children(children, cx);
            let ln = text.unicode_len();
            let run = InlineNode::new(text.as_str()).marks(
                single_mark(ln, TextMark::default().italic()),
            );
            proof {
                assert(run@ =~~= InlineNodeView::marked(
                    inline_texts(children@),
                    TextMarkView::italic_only(),
                ));
            }
            paragraph.push(run);
            proof {
                assert(paragraph@.children =~= p1.children + inline_items(*node, cfg));
                lemma_texts_of_single(run@);
                assert(texts_of(inline_items(*node, cfg)) =~= inline_texts(children@));
            }
            text
        },
        Ast::Strong { children, .. } => {
            proof {
                assert(decreases_to!(*node => node->Strong_children));
                assert(decreases_to!(*children => children@));
            }
            let (text, _scratch) = render_children(children, cx);
            let ln = text.unicode_len();
            let run = InlineNode::new(text.as_str()).marks(
                single_mark(ln, TextMark::default().bold()),
            );
            proof {
                assert(run@ =~~= InlineNodeView::marked(
                    inline_texts(children@),
                    TextMarkView::bold_only(),
                ));
            }
            paragraph.push(run);
            proof {
                assert(paragraph@.children =~= p1.children + inline_items(*node, cfg));
                lemma_texts_of_single(run@);
                assert(texts_of(inline_items(*node, cfg)) =~= inline_texts(children@));
            }
            text
        },
        Ast::Delete { children, .. } => {
            proof {
                assert(decreases_to!(*node => node->Delete_children));
                assert(decreases_to!(*children => children@));
            }
            let (text, _scratch) = render_children(children, cx);
            let ln = text.unicode_len();
            let run = InlineNode::new(text.as_str()).marks(
                single_mark(ln, TextMark::default().strikethrough()),
            );
            proof {
                assert(run@ =~~= InlineNodeView::marked(
                    inline_texts(children@),
                    TextMarkView::strikethrough_only(),
                ));
            }
            paragraph.push(run);
            proof {
                assert(paragraph@.children =~= p1.children + inline_items(*node, cfg));
                lemma_texts_of_single(run@);
                assert(texts_of(inline_items(*node, cfg)) =~= inline_texts(children@));
            }
            text
        },
        Ast::InlineCode { value, .. } => {
            let marks = build_inline_code_marks(value.as_str(), cx);
            let run = InlineNode::new(value.as_str()).marks(marks);
            paragraph.push(run);
            proof {
                assert(run@ =~~= (InlineNodeView {
                    text: value@,
                    marks: spec_inline_code_marks(value@, cfg),
                    image: None,
                }));
                assert(paragraph@.children =~= p1.children + inline_items(*node, cfg));
                lemma_texts_of_single(run@);
                assert(texts_of(inline_items(*node, cfg)) =~= value@);
            }
            value.clone()
        },
        Ast::Link { url, title, children, .. } => {
            proof {
                assert(decreases_to!(*node => node->Link_children));
                assert(decreases_to!(*children => children@));
            }
            let (text, scratch) = render_children(children, cx);
            let is_ctx = url_is_ctx_open(url.as_str());
            let link_mark = LinkMark {
                url: url.clone(),
                title: match title {
                    Some(t) => Some(t.clone()),
                    None => None,
                },
                identifier: None,
                requires_modifiers: is_ctx,
                decorate: !is_ctx,
            };
            let ghost l = spec_link_mark_for(url@, opt_str_field(*title));
            proof {
                assert(link_mark@ == l);
            }
            let ghost items = inline_items_seq(children@, cfg);
            let mut kids = scratch.children;
            proof {
                assert(inline_nodes_view(kids@) == items);
                assert(paragraph@.children =~= p1.children + link_wrap(items, l).take(0));
                assert(texts_of(link_wrap(items, l).take(0)) =~= Seq::<char>::empty());
                assert(paragraph@.text =~= p1.text + texts_of(link_wrap(items, l).take(0)));
            }
            while kids.len() > 0
                invariant
                    cfg == cx@.code_token_links,
                    kids@.len() <= items.len(),
                    link_mark@ == l,
                    inline_nodes_view(kids@) =~= items.skip(items.len() - kids@.len()),
                    paragraph@.span == p1.span,
                    paragraph@.children =~= p1.children + link_wrap(items, l).take(
                        items.len() - kids@.len(),
                    ),
                    paragraph@.text =~= p1.text + texts_of(
                        link_wrap(items, l).take(items.len() - kids@.len()),
                    ),
                    p1.wf() ==> paragraph@.wf(),
                decreases kids@.len(),
            {
                let ghost k = items.len() - kids@.len();
                let ghost prev = kids@;
                let mut c = kids.remove(0);
                proof {
                    assert(c@ == inline_nodes_view(prev)[0]);
                    assert(c@ == items[k]);
                    assert(inline_nodes_view(kids@) =~= items.skip(k + 1)) by {
                        assert(forall|j: int|
                            0 <= j < kids@.len() ==> #[trigger] inline_nodes_view(kids@)[j]
                                == inline_nodes_view(prev)[j + 1]);
                    }
                }
                let ghost c0 = c@;
                let ln = c.text.unicode_len();
                c.marks.push((0..ln, TextMark::default().link(link_mark.clone())));
                match &mut c.image {
                    Some(img) => {
                        img.link = Some(link_mark.clone());
                    },
                    None => {},
                }
                proof {
                    assert(c@.text == c0.text);
                    assert(c@.marks =~= c0.marks.push(
                        ((0int, c0.text.len() as int), TextMarkView::link_only(l)),
                    ));
                    assert(c@.image == (match c0.image {
                        Some(img) => Some(ImageNodeView { link: Some(l), ..img }),
                        None => None::<ImageNodeView>,
                    }));
                    assert(link_wrap(items, l)[k] == (InlineNodeView {
                        text: c0.text,
                        marks: c0.marks.push(
                            ((0int, c0.text.len() as int), TextMarkView::link_only(l)),
                        ),
                        image: match c0.image {
                            Some(img) => Some(ImageNodeView { link: Some(l), ..img }),
                            None => None::<ImageNodeView>,
                        },
                    }));
                    assert(c@ =~~= link_wrap(items, l)[k]);
                    assert(link_wrap(items, l).take(k + 1).drop_last() =~= link_wrap(
                        items,
                        l,
                    ).take(k));
                    assert(link_wrap(items, l).take(k + 1).last() == link_wrap(items, l)[k]);
                    assert(c@.text == items[k].text);
                }
                paragraph.push(c);
                proof {
                    assert(paragraph@.children =~= p1.children + link_wrap(items, l).take(k + 1));
                    assert(paragraph@.text =~= p1.text + texts_of(
                        link_wrap(items, l).take(k + 1),
                    ));
                }
            }
            proof {
                assert(link_wrap(items, l).take(items.len() as int) =~= link_wrap(items, l));
                assert(paragraph@.children =~= p1.children + inline_items(*node, cfg));
                assert(texts_of(inline_items(*node, cfg)) == texts_of(link_wrap(items, l)));
            }
            text
        },
        Ast::Image { url, title, alt, .. } => {
            let image = ImageNode {
                url: url.clone(),
                title: match title {
                    Some(t) => Some(t.clone()),
                    None => None,
                },
                alt: Some(alt.clone()),
                link: None,
            };
            paragraph.push_image(image);
            proof {
                assert(paragraph@.children =~= p1.children + inline_items(*node, cfg));
                lemma_texts_of_single(paragraph@.children.last());
                assert(texts_of(inline_items(*node, cfg)) =~= Seq::<char>::empty());
            }
            String::new()
        },
        Ast::InlineMath { value, .. } => {
            let ln = value.as_str().unicode_len();
            let run = InlineNode::new(value.as_str()).marks(
                single_mark(ln, TextMark::default().code()),
            );
            proof {
                assert(run@ =~~= InlineNodeView::marked(value@, TextMarkView::code_only()));
            }
            paragraph.push(run);
            proof {
                assert(paragraph@.children =~= p1.children + inline_items(*node, cfg));
                lemma_texts_of_single(run@);
                assert(texts_of(inline_items(*node, cfg)) =~= value@);
            }
            value.clone()
        },
        Ast::MdxTextExpression { value, .. } => {
            let ln = value.as_str().unicode_len();
            let run = InlineNode::new(value.as_str()).marks(single_mark(ln, TextMark::default()));
            proof {
                assert(run@ =~~= InlineNodeView::marked(value@, TextMarkView::plain()));
            }
            paragraph.push(run);
            proof {
                assert(paragraph@.children =~= p1.children + inline_items(*node, cfg));
                lemma_texts_of_single(run@);
                assert(texts_of(inline_items(*node, cfg)) =~= value@);
            }
            value.clone()
        },
        Ast::Html { value, .. } => {
            if html_is_line_break(value.as_str()) {
                let text = String::from_str("\n");
                proof {
                    reveal_strlit("\n");
                    assert(text@ =~= seq!['\n']);
                }
                paragraph.push(InlineNode::new(text.as_str()));
                proof {
                    assert(inline_items(*node, cfg) =~= seq![InlineNodeView::plain(seq!['\n'])]);
                    assert(paragraph@.children =~= p1.children + inline_items(*node, cfg));
                    lemma_texts_of_single(InlineNodeView::plain(seq!['\n']));
                    assert(texts_of(inline_items(*node, cfg)) =~= seq!['\n']);
                }
                text
            } else {
                proof {
                    assert(inline_items(*node, cfg) =~= Seq::<InlineNodeView>::empty());
                    assert(paragraph@.children =~= p1.children + inline_items(*node, cfg));
                    assert(paragraph@.text =~= p1.text + texts_of(inline_items(*node, cfg)));
                }
                value.clone()
            }
        },
        Ast::FootnoteReference { identifier, .. } => {
            let mut prefix = String::from_str("[");
            prefix.append(identifier.as_str());
            prefix.append("]");
            proof {
                reveal_strlit("[");
                reveal_strlit("]");
                assert(prefix@ =~= bracketed(identifier@));
            }
            let ln = prefix.as_str().unicode_len();
            let run = InlineNode::new(prefix.as_str()).marks(
                single_mark(ln, TextMark::default().italic()),
            );
            proof {
                assert(run@ =~~= InlineNodeView::marked(
                    bracketed(identifier@),
                    TextMarkView::italic_only(),
                ));
            }
            paragraph.push(run);
            proof {
                assert(paragraph@.children =~= p1.children + inline_items(*node, cfg));
                lemma_texts_of_single(run@);
                assert(texts_of(inline_items(*node, cfg)) =~= bracketed(identifier@));
            }
            String::new()
        },
        Ast::LinkReference { identifier, label, children, .. } => {
            proof {
                assert(decreases_to!(*node => node->LinkReference_children));
                assert(decreases_to!(*children => children@));
            }
            let (child_text, _scratch) = render_children(children, cx);
            let link_mark = LinkMark {
                url: String::new(),
                title: match label {
                    Some(t) => Some(t.clone()),
                    None => None,
                },
                identifier: Some(identifier.clone()),
                requires_modifiers: false,
                decorate: true,
            };
            let ln = child_text.as_str().unicode_len();
            let run = InlineNode::new(child_text.as_str()).marks(
                single_mark(ln, TextMark::default().link(link_mark)),
            );
            proof {
                assert(run@ =~~= inline_items(*node, cfg)[0]);
                assert(run@.text == inline_texts(children@));
            }
            paragraph.push(run);
            proof {
                assert(paragraph@.children =~= p1.children + inline_items(*node, cfg));
                lemma_texts_of_single(run@);
                assert(texts_of(inline_items(*node, cfg)) =~= inline_texts(children@));
            }
            String::new()
        },
        _ => {
            proof {
                assert(inline_items(*node, cfg) =~= Seq::<InlineNodeView>::empty());
                assert(paragraph@.children =~= p1.children + inline_items(*node, cfg));
                assert(paragraph@.text =~= p1.text + texts_of(inline_items(*node, cfg)));
            }
            String::new()
        },
    }
}


/// The paragraph a sequence of inline nodes renders to, starting from an
/// empty paragraph.
pub open spec fn spec_paragraph_of(children: Seq<Ast>, off: int, cfg: CodeTokenLinksView) -> ParagraphView {
    ParagraphView {
        span: para_span_seq(children, off, None),
        children: inline_items_seq(children, cfg),
        text: texts_of(inline_items_seq(children, cfg)),
    }
}

/// The mark a definition registers: its URL and title under its identifier,
/// internal `ctx://open?` URLs needing a modifier and going undecorated.
pub open spec fn def_link_mark(url: Seq<char>, id: Seq<char>, title: Option<Seq<char>>) -> LinkMarkView {
    LinkMarkView {
        url,
        title,
        identifier: Some(id),
        requires_modifiers: is_ctx_open_url(url),
        decorate: !is_ctx_open_url(url),
    }
}

/// The reference-table entries a block subtree registers, in walk order.
pub open spec fn defs_in(n: Ast) -> Seq<(Seq<char>, LinkMarkView)>
    decreases n,
{
    match n {
        Ast::Blockquote { children, .. } => defs_in_seq(children@),
        Ast::List { children, .. } => defs_in_seq(children@),
        Ast::ListItem { children, .. } => defs_in_seq(children@),
        Ast::Definition { identifier, url, title, .. } => seq![
            (identifier@, def_link_mark(url@, identifier@, opt_str_field(title))),
        ],
        _ => Seq::empty(),
    }
}

/// The reference-table entries a sequence of blocks registers.
pub open spec fn defs_in_seq(s: Seq<Ast>) -> Seq<(Seq<char>, LinkMarkView)>
    decreases s,
{
    if s.len() == 0 {
        Seq::empty()
    } else {
        defs_in_seq(s.drop_last()) + defs_in(s.last())
    }
}

/// The cell a table-cell node renders to; anything else makes an empty cell.
pub open spec fn spec_cell_of(n: Ast, off: int, cfg: CodeTokenLinksView) -> TableCellView {
    match n {
        Ast::TableCell { children, .. } => TableCellView {
            children: spec_paragraph_of(children@, off, cfg),
        },
        _ => TableCellView { children: ParagraphView::empty() },
    }
}

/// The cells of a row: each table-cell child in order, other children skipped.
pub open spec fn spec_row_cells(s: Seq<Ast>, off: int, cfg: CodeTokenLinksView) -> Seq<
    TableCellView,
>
    decreases s,
{
    if s.len() == 0 {
        Seq::empty()
    } else {
        spec_row_cells(s.drop_last(), off, cfg) + (match s.last() {
            Ast::TableCell { .. } => seq![spec_cell_of(s.last(), off, cfg)],
            _ => Seq::empty(),
        })
    }
}

/// The row a table-row node renders to; anything else makes an empty row.
pub open spec fn spec_row_of(n: Ast, off: int, cfg: CodeTokenLinksView) -> TableRowView {
    match n {
        Ast::TableRow { children, .. } => TableRowView { children: spec_row_cells(children@, off, cfg) },
        _ => TableRowView { children: Seq::empty() },
    }
}

/// The rows of a table: each table-row child in order, other children skipped.
pub open spec fn spec_table_rows(s: Seq<Ast>, off: int, cfg: CodeTokenLinksView) -> Seq<
    TableRowView,
>
    decreases s,
{
    if s.len() == 0 {
        Seq::empty()
    } else {
        spec_table_rows(s.drop_last(), off, cfg) + (match s.last() {
            Ast::TableRow { .. } => seq![spec_row_of(s.last(), off, cfg)],
            _ => Seq::empty(),
        })
    }
}

/// The italicized prefix a footnote definition starts with.
pub open spec fn footnote_prefix(id: Seq<char>) -> Seq<char> {
    seq!['['] + id + seq![']', ':', ' ']
}

/// The block node one syntax-tree node converts to.
///
/// The mapping is structural, one node to one block; a nested root and every
/// unsupported kind degrade to an unknown block rather than failing.
pub open spec fn spec_block_of(n: Ast, off: int, cfg: CodeTokenLinksView) -> BlockNodeView
    decreases n,
{
    match n {
        Ast::Paragraph { children, pos } => BlockNodeView::Paragraph(
            (ParagraphView { span: spec_new_span(pos, off), ..spec_paragraph_of(children@, off, cfg) }),
        ),
        Ast::Blockquote { children, pos } => BlockNodeView::Blockquote {
            children: spec_blocks_of(children@, off, cfg),
            span: spec_new_span(pos, off),
        },
        Ast::List { ordered, children, pos } => BlockNodeView::List {
            ordered,
            children: spec_blocks_of(children@, off, cfg),
            span: spec_new_span(pos, off),
        },
        Ast::ListItem { children, spread, checked, pos } => BlockNodeView::ListItem {
            children: spec_blocks_of(children@, off, cfg),
            spread,
            checked,
            span: spec_new_span(pos, off),
        },
        Ast::Break { pos } => BlockNodeView::Break { html: false, span: spec_new_span(pos, off) },
        Ast::Code { value, lang, pos } => BlockNodeView::CodeBlock(
            (CodeBlockView {
                code: value@,
                lang: opt_str_field(lang),
                span: spec_new_span(pos, off),
            }),
        ),
        Ast::Heading { depth, children, pos } => BlockNodeView::Heading {
            level: depth,
            children: spec_paragraph_of(children@, off, cfg),
            span: spec_new_span(pos, off),
        },
        Ast::Math { value, pos } => BlockNodeView::CodeBlock(
            (CodeBlockView { code: value@, lang: None, span: spec_new_span(pos, off) }),
        ),
        Ast::Html { value, pos } => if is_break_fragment(value@) {
            BlockNodeView::Root {
                children: seq![BlockNodeView::Break { html: true, span: None }],
                span: spec_new_span(pos, off),
            }
        } else {
            BlockNodeView::Paragraph(
                (ParagraphView {
                    span: None,
                    children: seq![InlineNodeView::plain(value@)],
                    text: value@,
                }),
            )
        },
        Ast::MdxFlowExpression { value, pos } => BlockNodeView::CodeBlock(
            (CodeBlockView {
                code: value@,
                lang: Some("mdx"@),
                span: spec_new_span(pos, off),
            }),
        ),
        Ast::Yaml { value, pos } => BlockNodeView::CodeBlock(
            (CodeBlockView {
                code: value@,
                lang: Some("yml"@),
                span: spec_new_span(pos, off),
            }),
        ),
        Ast::Toml { value, pos } => BlockNodeView::CodeBlock(
            (CodeBlockView {
                code: value@,
                lang: Some("toml"@),
                span: spec_new_span(pos, off),
            }),
        ),
        Ast::MdxJsxTextElement { children, pos } => BlockNodeView::Paragraph(
            (ParagraphView { span: spec_new_span(pos, off), ..spec_paragraph_of(children@, off, cfg) }),
        ),
        Ast::MdxJsxFlowElement { children, pos } => BlockNodeView::Paragraph(
            (ParagraphView { span: spec_new_span(pos, off), ..spec_paragraph_of(children@, off, cfg) }),
        ),
        Ast::ThematicBreak { pos } => BlockNodeView::Divider { span: spec_new_span(pos, off) },
        Ast::Table { align, children, pos } => BlockNodeView::Table(
            (TableView {
                column_aligns: align@,
                children: spec_table_rows(children@, off, cfg),
                span: spec_new_span(pos, off),
            }),
        ),
        Ast::FootnoteDefinition { identifier, children, pos } => BlockNodeView::Paragraph(
            (ParagraphView {
                span: spec_new_span(pos, off),
                children: seq![
                    InlineNodeView::marked(
                        footnote_prefix(identifier@),
                        TextMarkView::italic_only(),
                    ),
                ] + inline_items_seq(children@, cfg),
                text: footnote_prefix(identifier@) + texts_of(inline_items_seq(children@, cfg)),
            }),
        ),
        Ast::Definition { identifier, url, title, pos } => BlockNodeView::Definition {
            identifier: identifier@,
            url: url@,
            title: opt_str_field(title),
            span: spec_new_span(pos, off),
        },
        _ => BlockNodeView::Unknown,
    }
}

/// The block nodes a sequence of syntax-tree nodes converts to, in order.
pub open spec fn spec_blocks_of(s: Seq<Ast>, off: int, cfg: CodeTokenLinksView) -> Seq<
    BlockNodeView,
>
    decreases s,
{
    if s.len() == 0 {
        Seq::empty()
    } else {
        spec_blocks_of(s.drop_last(), off, cfg).push(spec_block_of(s.last(), off, cfg))
    }
}

/// Renders a table cell's inline content and appends the cell to the row;
/// a node that is not a table cell appends an empty cell.
pub fn parse_table_cell(row: &mut TableRow, node: &Ast, cx: &NodeContext)
    ensures
        final(row)@.children == old(row)@.children.push(
            spec_cell_of(*node, cx@.offset, cx@.code_token_links),
        ),
{
    match node {
        Ast::TableCell { children, .. } => {
            let (_text, paragraph) = render_children(children, cx);
            row.children.push(TableCell { children: paragraph });
        },
        _ => {
            row.children.push(TableCell { children: Paragraph::default() });
        },
    }
    proof {
        assert(final(row)@.children =~= old(row)@.children.push(
            spec_cell_of(*node, cx@.offset, cx@.code_token_links),
        ));
    }
}

/// Converts a table-row node and appends it to the table: each table-cell
/// child becomes a cell, anything else is skipped. A node that is not a
/// table row appends an empty row.
pub fn parse_table_row(table: &mut Table, node: &Ast, cx: &NodeContext)
    ensures
        final(table)@.children == old(table)@.children.push(
            spec_row_of(*node, cx@.offset, cx@.code_token_links),
        ),
        final(table)@.column_aligns == old(table)@.column_aligns,
        final(table)@.span == old(table)@.span,
{
    let ghost off = cx@.offset;
    let ghost cfg = cx@.code_token_links;
    let mut row = TableRow::default();
    match node {
        Ast::TableRow { children, .. } => {
            let mut i: usize = 0;
            proof {
                assert(spec_row_cells(children@.take(0), off, cfg) =~= Seq::<
                    TableCellView,
                >::empty());
                assert(row@.children =~= spec_row_cells(children@.take(0), off, cfg));
            }
            while i < children.len()
                invariant
                    i <= children.len(),
                    off == cx@.offset,
                    cfg == cx@.code_token_links,
                    row@.children =~= spec_row_cells(children@.take(i as int), off, cfg),
                decreases children@.len() - i,
            {
                let c = &children[i];
                proof {
                    assert(children@.take(i + 1).drop_last() =~= children@.take(i as int));
                    assert(children@.take(i + 1).last() == children@[i as int]);
                }
                match c {
                    Ast::TableCell { .. } => {
                        parse_table_cell(&mut row, c, cx);
                    },
                    _ => {},
                }
                proof {
                    assert(row@.children =~= spec_row_cells(children@.take(i + 1), off, cfg));
                }
                i += 1;
            }
            proof {
                assert(children@.take(children@.len() as int) =~= children@);
            }
        },
        _ => {},
    }
    let ghost rv = row@;
    proof {
        assert(rv == spec_row_of(*node, off, cfg));
    }
    table.children.push(row);
    proof {
        assert(final(table)@.children =~= old(table)@.children.push(rv));
    }
}

/// Converts a sequence of block-level syntax-tree nodes, registering any
/// definitions they hold along the way.
fn convert_blocks(children: &Vec<Ast>, cx: &mut NodeContext) -> (blocks: Vec<BlockNode>)
    ensures
        blocks_view(blocks@) == spec_blocks_of(
            children@,
            old(cx)@.offset,
            old(cx)@.code_token_links,
        ),
        blocks@.len() == children@.len(),
        final(cx)@.offset == old(cx)@.offset,
        final(cx)@.code_token_links == old(cx)@.code_token_links,
        final(cx)@.references == old(cx)@.references + defs_in_seq(children@),
    decreases children@,
{
    let ghost off = cx@.offset;
    let ghost cfg = cx@.code_token_links;
    let mut blocks: Vec<BlockNode> = Vec::new();
    let mut i: usize = 0;
    proof {
        assert(blocks_view(blocks@) =~= spec_blocks_of(children@.take(0), off, cfg));
        assert(cx@.references =~= old(cx)@.references + defs_in_seq(children@.take(0)));
    }
    while i < children.len()
        invariant
            i <= children.len(),
            off == cx@.offset,
            cfg == cx@.code_token_links,
            blocks@.len() == i,
            blocks_view(blocks@) =~= spec_blocks_of(children@.take(i as int), off, cfg),
            cx@.references =~= old(cx)@.references + defs_in_seq(children@.take(i as int)),
        decreases children@.len() - i,
    {
        let c = &children[i];
        proof {
            assert(decreases_to!(children@ => children@[i as int]));
            assert(children@.take(i + 1).drop_last() =~= children@.take(i as int));
            assert(children@.take(i + 1).last() == children@[i as int]);
        }
        let ghost prev_blocks = blocks@;
        let b = ast_to_node(c, cx);
        blocks.push(b);
        proof {
            assert(blocks@.drop_last() =~= prev_blocks);
            assert(blocks_view(blocks@) == blocks_view(blocks@.drop_last()).push(
                block_view(blocks@.last()),
            ));
            assert(blocks_view(blocks@) =~= spec_blocks_of(children@.take(i + 1), off, cfg));
            assert(cx@.references =~= old(cx)@.references + defs_in_seq(children@.take(i + 1)));
        }
        i += 1;
    }
    proof {
        assert(children@.take(children@.len() as int) =~= children@);
    }
    blocks
}

/// Converts one syntax-tree node into a block node of the document model,
/// registering the definitions it holds into the reference table.
///
/// Inline-only kinds and anything unsupported become an unknown block; a
/// nested root does too, since only the document's own root carries blocks.
pub fn ast_to_node(value: &Ast, cx: &mut NodeContext) -> (r: BlockNode)
    ensures
        r@ == spec_block_of(*value, old(cx)@.offset, old(cx)@.code_token_links),
        final(cx)@.offset == old(cx)@.offset,
        final(cx)@.code_token_links == old(cx)@.code_token_links,
        final(cx)@.references == old(cx)@.references + defs_in(*value),
    decreases *value,
{
    let ghost off = cx@.offset;
    let ghost cfg = cx@.code_token_links;
    proof {
        assert(cx@.references + Seq::<(Seq<char>, LinkMarkView)>::empty() =~= cx@.references);
    }
    match value {
        Ast::Paragraph { children, pos } => {
            let (_text, mut paragraph) = render_children(children, cx);
            paragraph.span = new_span(*pos, cx);
            proof {
                assert(paragraph@ == (ParagraphView {
                    span: spec_new_span(*pos, off),
                    ..spec_paragraph_of(children@, off, cfg)
                }));
            }
            BlockNode::Paragraph(paragraph)
        },
        Ast::Blockquote { children, pos } => {
            proof {
                assert(decreases_to!(*value => value->Blockquote_children));
                assert(decreases_to!(*value => children@));
            }
            let blocks = convert_blocks(children, cx);
            BlockNode::Blockquote { children: blocks, span: new_span(*pos, cx) }
        },
        Ast::List { ordered, children, pos } => {
            proof {
                assert(decreases_to!(*value => value->List_children));
                assert(decreases_to!(*value => children@));
            }
            let blocks = convert_blocks(children, cx);
            BlockNode::List { ordered: *ordered, children: blocks, span: new_span(*pos, cx) }
        },
        Ast::ListItem { children, spread, checked, pos } => {
            proof {
                assert(decreases_to!(*value => value->ListItem_children));
                assert(decreases_to!(*value => children@));
            }
            let blocks = convert_blocks(children, cx);
            BlockNode::ListItem {
                children: blocks,
                spread: *spread,
                checked: *checked,
                span: new_span(*pos, cx),
            }
        },
        Ast::Break { pos } => BlockNode::Break { html: false, span: new_span(*pos, cx) },
        Ast::Code { value: code, lang, pos } => BlockNode::CodeBlock(
            CodeBlock::new(
                code.clone(),
                match lang {
                    Some(l) => Some(l.clone()),
                    None => None,
                },
                new_span(*pos, cx),
            ),
        ),
        Ast::Heading { depth, children, pos } => {
            let (_text, paragraph) = render_children(children, cx);
            BlockNode::Heading { level: *depth, children: paragraph, span: new_span(*pos, cx) }
        },
        Ast::Math { value: code, pos } => BlockNode::CodeBlock(
            CodeBlock::new(code.clone(), None, new_span(*pos, cx)),
        ),
        Ast::Html { value: fragment, pos } => {
            if html_is_line_break(fragment.as_str()) {
                let mut inner: Vec<BlockNode> = Vec::new();
                inner.push(BlockNode::Break { html: true, span: None });
                proof {
                    assert(inner@.len() == 1);
                    assert(inner@.drop_last() =~= Seq::<BlockNode>::empty());
                    assert(blocks_view(Seq::<BlockNode>::empty()) == Seq::<BlockNodeView>::empty());
                    assert(inner@.last() == (BlockNode::Break { html: true, span: None }));
                    assert(block_view(inner@.last()) == (BlockNodeView::Break {
                        html: true,
                        span: None,
                    }));
                    assert(blocks_view(inner@) == blocks_view(inner@.drop_last()).push(
                        block_view(inner@.last()),
                    ));
                    assert(blocks_view(inner@) =~= seq![
                        BlockNodeView::Break { html: true, span: None },
                    ]);
                }
                BlockNode::Root { children: inner, span: new_span(*pos, cx) }
            } else {
                let paragraph = Paragraph::new(fragment.clone());
                proof {
                    assert(paragraph@ == (ParagraphView {
                        span: None,
                        children: seq![InlineNodeView::plain(fragment@)],
                        text: fragment@,
                    }));
                }
                BlockNode::Paragraph(paragraph)
            }
        },
        Ast::MdxFlowExpression { value: code, pos } => BlockNode::CodeBlock(
            CodeBlock::new(code.clone(), Some(String::from_str("mdx")), new_span(*pos, cx)),
        ),
        Ast::Yaml { value: code, pos } => BlockNode::CodeBlock(
            CodeBlock::new(code.clone(), Some(String::from_str("yml")), new_span(*pos, cx)),
        ),
        Ast::Toml { value: code, pos } => BlockNode::CodeBlock(
            CodeBlock::new(code.clone(), Some(String::from_str("toml")), new_span(*pos, cx)),
        ),
        Ast::MdxJsxTextElement { children, pos } => {
            let (_text, mut paragraph) = render_children(children, cx);
            paragraph.span = new_span(*pos, cx);
            BlockNode::Paragraph(paragraph)
        },
        Ast::MdxJsxFlowElement { children, pos } => {
            let (_text, mut paragraph) = render_children(children, cx);
            paragraph.span = new_span(*pos, cx);
            BlockNode::Paragraph(paragraph)
        },
        Ast::ThematicBreak { pos } => BlockNode::Divider { span: new_span(*pos, cx) },
        Ast::Table { align, children, pos } => {
            let mut table = Table::default();
            let mut a: usize = 0;
            while a < align.len()
                invariant
                    a <= align.len(),
                    table.column_aligns@ =~= align@.take(a as int),
                    table.children@.len() == 0,
                    table.span is None,
                decreases align@.len() - a,
            {
                table.column_aligns.push(align[a]);
                proof {
                    assert(table.column_aligns@ =~= align@.take(a + 1));
                }
                a += 1;
            }
            proof {
                assert(align@.take(align@.len() as int) =~= align@);
                assert(table@.children =~= spec_table_rows(children@.take(0), off, cfg));
            }
            let mut i: usize = 0;
            while i < children.len()
                invariant
                    i <= children.len(),
                    off == cx@.offset,
                    cfg == cx@.code_token_links,
                    table.column_aligns@ == align@,
                    table.span is None,
                    table@.children =~= spec_table_rows(children@.take(i as int), off, cfg),
                decreases children@.len() - i,
            {
                let c = &children[i];
                proof {
                    assert(children@.take(i + 1).drop_last() =~= children@.take(i as int));
                    assert(children@.take(i + 1).last() == children@[i as int]);
                }
                match c {
                    Ast::TableRow { .. } => {
                        parse_table_row(&mut table, c, cx);
                    },
                    _ => {},
                }
                proof {
                    assert(table@.children =~= spec_table_rows(children@.take(i + 1), off, cfg));
                }
                i += 1;
            }
            proof {
                assert(children@.take(children@.len() as int) =~= children@);
            }
            table.span = new_span(*pos, cx);
            BlockNode::Table(table)
        },
        Ast::FootnoteDefinition { identifier, children, pos } => {
            let mut paragraph = Paragraph::default();
            let mut prefix = String::from_str("[");
            prefix.append(identifier.as_str());
            prefix.append("]: ");
            proof {
                reveal_strlit("[");
                reveal_strlit("]: ");
                assert("]: "@.len() == 3);
                assert(prefix@ =~= footnote_prefix(identifier@));
            }
            let ln = prefix.as_str().unicode_len();
            let run = InlineNode::new(prefix.as_str()).marks(
                single_mark(ln, TextMark::default().italic()),
            );
            proof {
                assert(run@ =~~= InlineNodeView::marked(
                    footnote_prefix(identifier@),
                    TextMarkView::italic_only(),
                ));
            }
            paragraph.push(run);
            let (_text, rendered) = render_children(children, cx);
            let ghost before_merge = paragraph@;
            paragraph.merge(rendered);
            paragraph.span = new_span(*pos, cx);
            proof {
                assert(paragraph@.children =~= seq![
                    InlineNodeView::marked(
                        footnote_prefix(identifier@),
                        TextMarkView::italic_only(),
                    ),
                ] + inline_items_seq(children@, cfg));
                lemma_texts_of_single(run@);
                assert(paragraph@.text =~= footnote_prefix(identifier@) + texts_of(
                    inline_items_seq(children@, cfg),
                ));
            }
            BlockNode::Paragraph(paragraph)
        },
        Ast::Definition { identifier, url, title, pos } => {
            let is_ctx = url_is_ctx_open(url.as_str());
            let mark = LinkMark {
                url: url.clone(),
                title: match title {
                    Some(t) => Some(t.clone()),
                    None => None,
                },
                identifier: Some(identifier.clone()),
                requires_modifiers: is_ctx,
                decorate: !is_ctx,
            };
            let ghost mv = mark@;
            cx.add_ref(identifier.clone(), mark);
            proof {
                assert(cx@.references =~= old(cx)@.references + seq![(identifier@, mv)]);
                assert(mv == def_link_mark(url@, identifier@, opt_str_field(*title)));
            }
            BlockNode::Definition {
                identifier: identifier.clone(),
                url: url.clone(),
                title: match title {
                    Some(t) => Some(t.clone()),
                    None => None,
                },
                span: new_span(*pos, cx),
            }
        },
        _ => BlockNode::Unknown,
    }
}

/// Converts a whole syntax tree into a document: one block per top-level
/// child of the root, with every definition registered in the context.
pub fn ast_to_document(source: &str, root: &Ast, cx: &mut NodeContext) -> (doc: ParsedDocument)
    requires
        *root matches Ast::Root { .. },
    ensures
        doc@.source == source@,
        doc@.blocks == spec_blocks_of(
            root->Root_children@,
            old(cx)@.offset,
            old(cx)@.code_token_links,
        ),
        doc@.blocks.len() == root->Root_children@.len(),
        final(cx)@.offset == old(cx)@.offset,
        final(cx)@.code_token_links == old(cx)@.code_token_links,
        final(cx)@.references == old(cx)@.references + defs_in_seq(root->Root_children@),
{
    match root {
        Ast::Root { children, .. } => {
            let blocks = convert_blocks(children, cx);
            proof {
                lemma_blocks_view_index(blocks@);
            }
            ParsedDocument { source: String::from_str(source), blocks }
        },
        _ => {
            proof {
                assert(false);
            }
            ParsedDocument { source: String::from_str(source), blocks: Vec::new() }
        },
    }
}

/// Turns a grammar parser's syntax tree into a document.
///
/// A tree whose top is the document root always parses: the document has
/// exactly one block per top-level child. Any other tree is rejected with a
/// descriptive error, and the context is left untouched.
pub fn parse(source: &str, ast: &Ast, cx: &mut NodeContext) -> (r: Result<ParsedDocument, String>)
    ensures
        (r is Ok) == (*ast matches Ast::Root { .. }),
        r matches Ok(doc) ==> doc@.source == source@ && doc@.blocks == spec_blocks_of(
            ast->Root_children@,
            old(cx)@.offset,
            old(cx)@.code_token_links,
        ) && doc@.blocks.len() == ast->Root_children@.len() && final(cx)@.offset
            == old(cx)@.offset && final(cx)@.code_token_links == old(cx)@.code_token_links
            && final(cx)@.references == old(cx)@.references + defs_in_seq(ast->Root_children@),
        r matches Err(e) ==> e@ == "expected root node"@ && final(cx)@ == old(cx)@,
{
    match ast {
        Ast::Root { .. } => Ok(ast_to_document(source, ast, cx)),
        _ => Err(String::from_str("expected root node")),
    }
}

} // verus!
