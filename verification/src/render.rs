//! The node renderer: pass 2 of the transpiler. Given a node, the
//! tight-list flag of its immediate parent item, the footnote map of pass
//! 1 and the source file's base directory, it produces the markup text
//! for that node and everything below it.
//!
//! `spec_render_node` is the contract: it states the exact output text
//! for every node kind. The executable functions are verified to produce
//! exactly that text.
use vstd::prelude::*;

use crate::ast::Align;
use crate::ast::Node;
use crate::escape::escape_into;
use crate::escape::escape_spec;
use crate::footnotes::FootnoteMap;
use crate::footnotes::collect_footnotes;
use crate::footnotes::collect_node_spec;
use crate::footnotes::fm_lookup;
use crate::lines::indent_into;
use crate::lines::indent_spec;
use crate::text::append_chars;
use crate::text::append_str;
use crate::text::ascii_lower_chars;
use crate::text::ascii_lower_spec;
use crate::text::chars_end_with;
use crate::text::chars_eq;
use crate::text::chars_of_str;
use crate::text::chars_start_with;
use crate::text::chars_to_string;
use crate::text::dec_spec;
use crate::text::ends_with_spec;
use crate::text::first_token_spec;
use crate::text::join_path_spec;
use crate::text::push_first_token;
use crate::text::push_repeat_char;
use crate::text::push_u64_dec;
use crate::text::repeat_char_spec;
use crate::text::seq_contains_char;
use crate::text::slashes_spec;
use crate::text::starts_with_spec;
use crate::text::str_contains_char;
use crate::text::str_eq_chars;
use crate::text::push_normalized_slashes;
use crate::text::trim_chars;
use crate::text::trim_spec;

verus! {

/// What one raw HTML run contributes, the same for blocks and inlines:
/// a break tag becomes a hard line break, `sup`/`sub` tags open and
/// close superscript and subscript wrappers, and any other HTML is
/// dropped. Tags are matched case-insensitively on the trimmed literal.
pub open spec fn html_allowlist_spec(lit: Seq<char>) -> Seq<char> {
    let h = ascii_lower_spec(trim_spec(lit));
    if h == "<br>"@ || h == "<br/>"@ || h == "<br />"@ {
        "\\\n"@
    } else if h == "<sup>"@ {
        "#super["@
    } else if h == "</sup>"@ {
        "]"@
    } else if h == "<sub>"@ {
        "#sub["@
    } else if h == "</sub>"@ {
        "]"@
    } else {
        Seq::empty()
    }
}

/// The word the table alignment list uses for one column.
pub open spec fn align_word_spec(a: Align) -> Seq<char> {
    match a {
        Align::Left => "left"@,
        Align::Center => "center"@,
        Align::Right => "right"@,
        Align::Auto => "auto"@,
    }
}

/// The comma-separated alignment list of a table call.
pub open spec fn align_list_spec(als: Seq<Align>) -> Seq<char>
    decreases als.len(),
{
    if als.len() == 0 {
        Seq::empty()
    } else if als.len() == 1 {
        align_word_spec(als[0])
    } else {
        align_list_spec(als.drop_last()) + ", "@ + align_word_spec(als.last())
    }
}

/// Whether a table child is a row flagged as header content.
pub open spec fn is_header_row(n: Node) -> bool {
    match n {
        Node::TableRow { header, .. } => header,
        _ => false,
    }
}

/// How many rows the leading run of header rows holds.
pub open spec fn leading_header_count(rows: Seq<Node>) -> int
    decreases rows.len(),
{
    if rows.len() > 0 && is_header_row(rows[0]) {
        1 + leading_header_count(rows.drop_first())
    } else {
        0
    }
}

/// The rendered output of a sequence of sibling nodes, in order.
pub open spec fn spec_render_nodes(
    ns: Seq<Node>,
    tight: bool,
    fns: Seq<(Seq<char>, Seq<char>)>,
    base: Seq<char>,
) -> Seq<char>
    decreases ns, 1int, 0int,
{
    if ns.len() == 0 {
        Seq::empty()
    } else {
        spec_render_nodes(ns.drop_last(), tight, fns, base) + spec_render_node(
            ns.last(),
            tight,
            fns,
            base,
        )
    }
}

/// The rendered output of one node.
///
/// `tight` says whether the node's immediate parent is a tight list item;
/// only a paragraph consumes it, every other kind resets it for its
/// children, so the flag reaches exactly one level.
pub open spec fn spec_render_node(
    n: Node,
    tight: bool,
    fns: Seq<(Seq<char>, Seq<char>)>,
    base: Seq<char>,
) -> Seq<char>
    decreases n, 0int, 0int,
{
    match n {
        Node::Document { children } => spec_render_nodes(children@, false, fns, base),
        Node::Heading { level, children } => repeat_char_spec('=', level as nat) + " "@
            + spec_render_nodes(children@, false, fns, base) + "\n\n"@,
        Node::Paragraph { children } => spec_render_nodes(children@, false, fns, base) + if tight {
            "\n"@
        } else {
            "\n\n"@
        },
        Node::Text { literal } => escape_spec(literal@),
        Node::Emph { children } => "_"@ + spec_render_nodes(children@, false, fns, base) + "_"@,
        Node::Strong { children } => "*"@ + spec_render_nodes(children@, false, fns, base) + "*"@,
        Node::Strikethrough { children } => "#strike["@ + spec_render_nodes(
            children@,
            false,
            fns,
            base,
        ) + "]"@,
        Node::Code { literal } => {
            let ticks = if seq_contains_char(literal@, '`') {
                "``"@
            } else {
                "`"@
            };
            ticks + literal@ + ticks
        },
        Node::CodeBlock { info, literal } => "```"@ + first_token_spec(info@) + "\n"@ + literal@ + (
        if literal@.len() > 0 && literal@.last() == '\n' {
            Seq::<char>::empty()
        } else {
            "\n"@
        }) + "```\n\n"@,
        Node::Link { url, children } => {
            let text = spec_render_nodes(children@, false, fns, base);
            if text.len() == 0 || text == escape_spec(url@) {
                "#link(\""@ + url@ + "\")"@
            } else {
                "#link(\""@ + url@ + "\")["@ + text + "]"@
            }
        },
        Node::Image { url, children, .. } => {
            if starts_with_spec(url@, "http://"@) || starts_with_spec(url@, "https://"@) {
                let alt = spec_render_nodes(children@, false, fns, base);
                if alt.len() == 0 {
                    "[Image]"@
                } else {
                    "[Image: "@ + alt + "]"@
                }
            } else {
                "#image(\""@ + slashes_spec(join_path_spec(base, url@)) + "\")"@
            }
        },
        Node::List { children, .. } => {
            let c = spec_render_nodes(children@, false, fns, base);
            if ends_with_spec(c, "\n\n"@) {
                c
            } else {
                c + "\n"@
            }
        },
        Node::Item { ordered, tight: item_tight, children } => {
            let marker = if ordered {
                "+ "@
            } else {
                "- "@
            };
            marker + indent_spec(
                trim_spec(spec_render_nodes(children@, item_tight, fns, base)),
                "  "@,
            ) + "\n"@
        },
        Node::TaskItem { checked, tight: item_tight, children } => "#task("@ + (if checked {
            "true"@
        } else {
            "false"@
        }) + ")["@ + indent_spec(
            trim_spec(spec_render_nodes(children@, item_tight, fns, base)),
            "  "@,
        ) + "]\n"@,
        Node::BlockQuote { children } => "#blockquote["@ + trim_spec(
            spec_render_nodes(children@, false, fns, base),
        ) + "]\n\n"@,
        Node::Table { columns, alignments, children } => spec_render_table(
            columns as nat,
            alignments@,
            children@,
            fns,
            base,
        ),
        Node::TableRow { .. } => Seq::empty(),
        Node::TableCell { .. } => Seq::empty(),
        Node::ThematicBreak => "#hrule()\n\n"@,
        Node::SoftBreak => " "@,
        Node::LineBreak => "\\\n"@,
        Node::FootnoteDefinition { .. } => Seq::empty(),
        Node::FootnoteReference { name } => match fm_lookup(fns, name@) {
            Some(body) => "#footnote["@ + body + "]"@,
            None => Seq::empty(),
        },
        Node::HtmlBlock { literal } => html_allowlist_spec(literal@),
        Node::HtmlInline { literal } => html_allowlist_spec(literal@),
        Node::Other { children } => spec_render_nodes(children@, false, fns, base),
    }
}

/// The whole table call: its head with column count and alignments, one
/// header call holding the cells of the leading run of header rows (if
/// any), then every body row's cells as independent groups in row-major
/// order. A table child that is not a row, and a header-flagged row after
/// body content has begun, contribute nothing.
pub open spec fn spec_render_table(
    columns: nat,
    aligns: Seq<Align>,
    rows: Seq<Node>,
    fns: Seq<(Seq<char>, Seq<char>)>,
    base: Seq<char>,
) -> Seq<char>
    decreases rows, 9int, 0int,
{
    "#table(\n  columns: "@ + dec_spec(columns) + ",\n  align: ("@ + align_list_spec(aligns)
        + "),\n"@ + (if leading_header_count(rows) > 0 {
        "  table.header(\n"@ + spec_header_part(rows, leading_header_count(rows), fns, base)
            + "  ),\n"@
    } else {
        Seq::<char>::empty()
    }) + spec_body_part(rows, rows.len() as int, fns, base) + ")\n\n"@
}

/// The header cells of the first `k` rows.
pub open spec fn spec_header_part(
    rows: Seq<Node>,
    k: int,
    fns: Seq<(Seq<char>, Seq<char>)>,
    base: Seq<char>,
) -> Seq<char>
    decreases rows, 8int, k,
{
    if k <= 0 || k > rows.len() {
        Seq::empty()
    } else {
        spec_header_part(rows, k - 1, fns, base) + spec_row_cells(rows[k - 1], true, fns, base)
    }
}

/// The body groups of the first `k` rows: every row not flagged as header
/// yields one group per cell.
pub open spec fn spec_body_part(
    rows: Seq<Node>,
    k: int,
    fns: Seq<(Seq<char>, Seq<char>)>,
    base: Seq<char>,
) -> Seq<char>
    decreases rows, 8int, k,
{
    if k <= 0 || k > rows.len() {
        Seq::empty()
    } else {
        spec_body_part(rows, k - 1, fns, base) + (if is_header_row(rows[k - 1]) {
            Seq::<char>::empty()
        } else {
            spec_row_cells(rows[k - 1], false, fns, base)
        })
    }
}

/// The cell groups of one row; a table child that is no row has none.
pub open spec fn spec_row_cells(
    row: Node,
    header: bool,
    fns: Seq<(Seq<char>, Seq<char>)>,
    base: Seq<char>,
) -> Seq<char>
    decreases row, 7int, 0int,
{
    match row {
        Node::TableRow { children, .. } => spec_cells(children@, header, fns, base),
        _ => Seq::empty(),
    }
}

/// The groups of a row's cells, in order.
pub open spec fn spec_cells(
    cells: Seq<Node>,
    header: bool,
    fns: Seq<(Seq<char>, Seq<char>)>,
    base: Seq<char>,
) -> Seq<char>
    decreases cells, 6int, 0int,
{
    if cells.len() == 0 {
        Seq::empty()
    } else {
        spec_cells(cells.drop_last(), header, fns, base) + spec_cell(
            cells.last(),
            header,
            fns,
            base,
        )
    }
}

/// One bracketed cell group: the cell's rendered, trimmed content. A row
/// child that is no cell yields nothing.
pub open spec fn spec_cell(
    cell: Node,
    header: bool,
    fns: Seq<(Seq<char>, Seq<char>)>,
    base: Seq<char>,
) -> Seq<char>
    decreases cell, 5int, 0int,
{
    match cell {
        Node::TableCell { children } => (if header {
            "    ["@
        } else {
            "  ["@
        }) + trim_spec(spec_render_nodes(children@, false, fns, base)) + "],\n"@,
        _ => Seq::empty(),
    }
}

/// Renders a sequence of sibling nodes, appending to `out`.
pub fn render_children(
    nodes: &Vec<Node>,
    tight: bool,
    footnotes: &FootnoteMap,
    base_dir: &Vec<char>,
    out: &mut Vec<char>,
)
    ensures
        final(out)@ == old(out)@ + spec_render_nodes(
            nodes@,
            tight,
            footnotes.entries_view(),
            base_dir@,
        ),
    decreases nodes@, 1int, 0int,
{
    let ghost fns = footnotes.entries_view();
    let mut i: usize = 0;
    while i < nodes.len()
        invariant
            i <= nodes@.len(),
            fns == footnotes.entries_view(),
            out@ == old(out)@ + spec_render_nodes(
                nodes@.subrange(0, i as int),
                tight,
                fns,
                base_dir@,
            ),
        decreases nodes@.len() - i, 0int, 0int,
    {
        render_node(&nodes[i], tight, footnotes, base_dir, out);
        proof {
            assert(nodes@.subrange(0, i + 1 as int).drop_last() =~= nodes@.subrange(0, i as int));
            assert(nodes@.subrange(0, i + 1 as int).last() == nodes@[i as int]);
        }
        i = i + 1;
    }
    proof {
        assert(nodes@.subrange(0, nodes@.len() as int) =~= nodes@);
    }
}

/// Renders one node, appending to `out`. Dispatches on the node kind; an
/// unrecognised kind degrades to rendering its children.
#[verifier::rlimit(80)]
pub fn render_node(
    node: &Node,
    tight: bool,
    footnotes: &FootnoteMap,
    base_dir: &Vec<char>,
    out: &mut Vec<char>,
)
    ensures
        final(out)@ == old(out)@ + spec_render_node(
            *node,
            tight,
            footnotes.entries_view(),
            base_dir@,
        ),
    decreases *node, 0int, 0int,
{
    let ghost fns = footnotes.entries_view();
    match node {
        Node::Document { children } => {
            render_children(children, false, footnotes, base_dir, out);
        },
        Node::Heading { level, children } => {
            push_repeat_char(out, '=', *level as usize);
            append_str(out, " ");
            render_children(children, false, footnotes, base_dir, out);
            append_str(out, "\n\n");
            proof {
                assert(out@ =~= old(out)@ + spec_render_node(*node, tight, fns, base_dir@));
            }
        },
        Node::Paragraph { children } => {
            render_children(children, false, footnotes, base_dir, out);
            if tight {
                append_str(out, "\n");
            } else {
                append_str(out, "\n\n");
            }
            proof {
                assert(out@ =~= old(out)@ + spec_render_node(*node, tight, fns, base_dir@));
            }
        },
        Node::Text { literal } => {
            let v = chars_of_str(literal.as_str());
            escape_into(out, &v);
        },
        Node::Emph { children } => {
            append_str(out, "_");
            render_children(children, false, footnotes, base_dir, out);
            append_str(out, "_");
            proof {
                assert(out@ =~= old(out)@ + spec_render_node(*node, tight, fns, base_dir@));
            }
        },
        Node::Strong { children } => {
            append_str(out, "*");
            render_children(children, false, footnotes, base_dir, out);
            append_str(out, "*");
            proof {
                assert(out@ =~= old(out)@ + spec_render_node(*node, tight, fns, base_dir@));
            }
        },
        Node::Strikethrough { children } => {
            append_str(out, "#strike[");
            render_children(children, false, footnotes, base_dir, out);
            append_str(out, "]");
            proof {
                assert(out@ =~= old(out)@ + spec_render_node(*node, tight, fns, base_dir@));
            }
        },
        Node::Code { literal } => {
            let ticked = str_contains_char(literal.as_str(), '`');
            if ticked {
                append_str(out, "``");
                append_str(out, literal.as_str());
                append_str(out, "``");
            } else {
                append_str(out, "`");
                append_str(out, literal.as_str());
                append_str(out, "`");
            }
            proof {
                assert(out@ =~= old(out)@ + spec_render_node(*node, tight, fns, base_dir@));
            }
        },
        Node::CodeBlock { info, literal } => {
            append_str(out, "```");
            push_first_token(out, info.as_str());
            append_str(out, "\n");
            let lv = chars_of_str(literal.as_str());
            append_chars(out, &lv);
            if !(lv.len() > 0 && lv[lv.len() - 1] == '\n') {
                append_str(out, "\n");
            }
            append_str(out, "```\n\n");
            proof {
                assert(out@ =~= old(out)@ + spec_render_node(*node, tight, fns, base_dir@));
            }
        },
        Node::Link { url, children } => {
            let mut text: Vec<char> = Vec::new();
            render_children(children, false, footnotes, base_dir, &mut text);
            let uv = chars_of_str(url.as_str());
            let mut escaped_url: Vec<char> = Vec::new();
            escape_into(&mut escaped_url, &uv);
            if text.len() == 0 || chars_eq(&text, &escaped_url) {
                append_str(out, "#link(\"");
                append_chars(out, &uv);
                append_str(out, "\")");
            } else {
                append_str(out, "#link(\"");
                append_chars(out, &uv);
                append_str(out, "\")[");
                append_chars(out, &text);
                append_str(out, "]");
            }
            proof {
                assert(out@ =~= old(out)@ + spec_render_node(*node, tight, fns, base_dir@));
            }
        },
        Node::Image { url, children, .. } => {
            let uv = chars_of_str(url.as_str());
            if chars_start_with(&uv, "http://") || chars_start_with(&uv, "https://") {
                let mut alt: Vec<char> = Vec::new();
                render_children(children, false, footnotes, base_dir, &mut alt);
                if alt.len() == 0 {
                    append_str(out, "[Image]");
                } else {
                    append_str(out, "[Image: ");
                    append_chars(out, &alt);
                    append_str(out, "]");
                }
            } else {
                let mut joined: Vec<char> = Vec::new();
                if uv.len() > 0 && uv[0] == '/' {
                    append_chars(&mut joined, &uv);
                } else if base_dir.len() == 0 {
                    append_chars(&mut joined, &uv);
                } else if base_dir[base_dir.len() - 1] == '/' {
                    append_chars(&mut joined, base_dir);
                    append_chars(&mut joined, &uv);
                } else {
                    append_chars(&mut joined, base_dir);
                    joined.push('/');
                    append_chars(&mut joined, &uv);
                }
                proof {
                    assert(joined@ =~= join_path_spec(base_dir@, url@));
                }
                append_str(out, "#image(\"");
                push_normalized_slashes(out, &joined);
                append_str(out, "\")");
            }
            proof {
                assert(out@ =~= old(out)@ + spec_render_node(*node, tight, fns, base_dir@));
            }
        },
        Node::List { children, .. } => {
            let mut c: Vec<char> = Vec::new();
            render_children(children, false, footnotes, base_dir, &mut c);
            append_chars(out, &c);
            if !chars_end_with(&c, "\n\n") {
                append_str(out, "\n");
            }
            proof {
                assert(out@ =~= old(out)@ + spec_render_node(*node, tight, fns, base_dir@));
            }
        },
        Node::Item { ordered, tight: item_tight, children } => {
            if *ordered {
                append_str(out, "+ ");
            } else {
                append_str(out, "- ");
            }
            let mut body: Vec<char> = Vec::new();
            render_children(children, *item_tight, footnotes, base_dir, &mut body);
            let trimmed = trim_chars(&body);
            indent_into(out, &trimmed, "  ");
            append_str(out, "\n");
            proof {
                assert(out@ =~= old(out)@ + spec_render_node(*node, tight, fns, base_dir@));
            }
        },
        Node::TaskItem { checked, tight: item_tight, children } => {
            append_str(out, "#task(");
            if *checked {
                append_str(out, "true");
            } else {
                append_str(out, "false");
            }
            append_str(out, ")[");
            let mut body: Vec<char> = Vec::new();
            render_children(children, *item_tight, footnotes, base_dir, &mut body);
            let trimmed = trim_chars(&body);
            indent_into(out, &trimmed, "  ");
            append_str(out, "]\n");
            proof {
                assert(out@ =~= old(out)@ + spec_render_node(*node, tight, fns, base_dir@));
            }
        },
        Node::BlockQuote { children } => {
            append_str(out, "#blockquote[");
            let mut body: Vec<char> = Vec::new();
            render_children(children, false, footnotes, base_dir, &mut body);
            let trimmed = trim_chars(&body);
            append_chars(out, &trimmed);
            append_str(out, "]\n\n");
            proof {
                assert(out@ =~= old(out)@ + spec_render_node(*node, tight, fns, base_dir@));
            }
        },
        Node::Table { columns, alignments, children } => {
            render_table(*columns, alignments, children, footnotes, base_dir, out);
        },
        Node::TableRow { .. } => {},
        Node::TableCell { .. } => {},
        Node::ThematicBreak => {
            append_str(out, "#hrule()\n\n");
        },
        Node::SoftBreak => {
            append_str(out, " ");
        },
        Node::LineBreak => {
            append_str(out, "\\\n");
        },
        Node::FootnoteDefinition { .. } => {},
        Node::FootnoteReference { name } => {
            match footnotes.get(name) {
                Some(body) => {
                    append_str(out, "#footnote[");
                    append_str(out, body.as_str());
                    append_str(out, "]");
                },
                None => {},
            }
            proof {
                assert(out@ =~= old(out)@ + spec_render_node(*node, tight, fns, base_dir@));
            }
        },
        Node::HtmlBlock { literal } => {
            render_html_literal(literal, out);
        },
        Node::HtmlInline { literal } => {
            render_html_literal(literal, out);
        },
        Node::Other { children } => {
            render_children(children, false, footnotes, base_dir, out);
        },
    }
}

/// Renders one raw HTML run against the shared allowlist, appending to
/// `out`.
fn render_html_literal(literal: &String, out: &mut Vec<char>)
    ensures
        final(out)@ == old(out)@ + html_allowlist_spec(literal@),
{
    let lv = chars_of_str(literal.as_str());
    let t = trim_chars(&lv);
    let h = ascii_lower_chars(&t);
    if str_eq_chars("<br>", &h) || str_eq_chars("<br/>", &h) || str_eq_chars("<br />", &h) {
        append_str(out, "\\\n");
    } else if str_eq_chars("<sup>", &h) {
        append_str(out, "#super[");
    } else if str_eq_chars("</sup>", &h) {
        append_str(out, "]");
    } else if str_eq_chars("<sub>", &h) {
        append_str(out, "#sub[");
    } else if str_eq_chars("</sub>", &h) {
        append_str(out, "]");
    }
    proof {
        assert(out@ =~= old(out)@ + html_allowlist_spec(literal@));
    }
}

/// Renders a whole table call, appending to `out`.
#[verifier::rlimit(60)]
fn render_table(
    columns: usize,
    alignments: &Vec<Align>,
    rows: &Vec<Node>,
    footnotes: &FootnoteMap,
    base_dir: &Vec<char>,
    out: &mut Vec<char>,
)
    ensures
        final(out)@ == old(out)@ + spec_render_table(
            columns as nat,
            alignments@,
            rows@,
            footnotes.entries_view(),
            base_dir@,
        ),
    decreases rows@, 9int, 0int,
{
    let ghost fns = footnotes.entries_view();
    append_str(out, "#table(\n  columns: ");
    push_u64_dec(out, columns as u64);
    append_str(out, ",\n  align: (");
    let mut i: usize = 0;
    let ghost head0 = out@;
    while i < alignments.len()
        invariant
            i <= alignments@.len(),
            out@ == head0 + align_list_spec(alignments@.subrange(0, i as int)),
        decreases alignments@.len() - i,
    {
        if i > 0 {
            append_str(out, ", ");
        }
        match alignments[i] {
            Align::Left => append_str(out, "left"),
            Align::Center => append_str(out, "center"),
            Align::Right => append_str(out, "right"),
            Align::Auto => append_str(out, "auto"),
        }
        proof {
            let sub1 = alignments@.subrange(0, i + 1 as int);
            assert(sub1.drop_last() =~= alignments@.subrange(0, i as int));
            assert(sub1.last() == alignments@[i as int]);
            if i == 0 {
                assert(align_list_spec(sub1) == align_word_spec(alignments@[0]));
                assert(out@ =~= head0 + align_list_spec(sub1));
            } else {
                assert(out@ =~= head0 + align_list_spec(sub1));
            }
        }
        i = i + 1;
    }
    proof {
        assert(alignments@.subrange(0, alignments@.len() as int) =~= alignments@);
    }
    append_str(out, "),\n");
    let mut h: usize = 0;
    while h < rows.len() && row_is_header(&rows[h])
        invariant
            h <= rows@.len(),
            forall|j: int| 0 <= j < h ==> is_header_row(rows@[j]),
        decreases rows@.len() - h,
    {
        h = h + 1;
    }
    proof {
        lemma_leading_header_count(rows@, h as int);
    }
    if h > 0 {
        append_str(out, "  table.header(\n");
        let mut k: usize = 0;
        let ghost hdr0 = out@;
        while k < h
            invariant
                k <= h <= rows@.len(),
                fns == footnotes.entries_view(),
                out@ == hdr0 + spec_header_part(rows@, k as int, fns, base_dir@),
            decreases h - k,
        {
            render_row_cells(&rows[k], true, footnotes, base_dir, out);
            proof {
                assert(out@ =~= hdr0 + spec_header_part(rows@, k + 1 as int, fns, base_dir@));
            }
            k = k + 1;
        }
        append_str(out, "  ),\n");
    }
    let mut k: usize = 0;
    let ghost body0 = out@;
    while k < rows.len()
        invariant
            k <= rows@.len(),
            fns == footnotes.entries_view(),
            out@ == body0 + spec_body_part(rows@, k as int, fns, base_dir@),
        decreases rows@.len() - k,
    {
        if !row_is_header(&rows[k]) {
            render_row_cells(&rows[k], false, footnotes, base_dir, out);
        }
        proof {
            assert(out@ =~= body0 + spec_body_part(rows@, k + 1 as int, fns, base_dir@));
        }
        k = k + 1;
    }
    append_str(out, ")\n\n");
    proof {
        assert(out@ =~= old(out)@ + spec_render_table(
            columns as nat,
            alignments@,
            rows@,
            fns,
            base_dir@,
        ));
    }
}

fn row_is_header(n: &Node) -> (r: bool)
    ensures
        r == is_header_row(*n),
{
    match n {
        Node::TableRow { header, .. } => *header,
        _ => false,
    }
}

proof fn lemma_leading_header_count(rows: Seq<Node>, h: int)
    requires
        0 <= h <= rows.len(),
        forall|j: int| 0 <= j < h ==> is_header_row(rows[j]),
        h == rows.len() || !is_header_row(rows[h]),
    ensures
        leading_header_count(rows) == h,
    decreases h,
{
    if h == 0 {
    } else {
        assert(is_header_row(rows[0]));
        lemma_leading_header_count(rows.drop_first(), h - 1);
    }
}

/// Renders the cell groups of one table row, appending to `out`.
fn render_row_cells(
    row: &Node,
    header: bool,
    footnotes: &FootnoteMap,
    base_dir: &Vec<char>,
    out: &mut Vec<char>,
)
    ensures
        final(out)@ == old(out)@ + spec_row_cells(
            *row,
            header,
            footnotes.entries_view(),
            base_dir@,
        ),
    decreases *row, 7int, 0int,
{
    match row {
        Node::TableRow { children, .. } => {
            render_cells_vec(children, header, footnotes, base_dir, out);
        },
        _ => {},
    }
}

/// Renders the groups of a row's cell vector, appending to `out`.
fn render_cells_vec(
    cells: &Vec<Node>,
    header: bool,
    footnotes: &FootnoteMap,
    base_dir: &Vec<char>,
    out: &mut Vec<char>,
)
    ensures
        final(out)@ == old(out)@ + spec_cells(
            cells@,
            header,
            footnotes.entries_view(),
            base_dir@,
        ),
    decreases cells@, 6int, 0int,
{
    let ghost fns = footnotes.entries_view();
    let mut j: usize = 0;
    while j < cells.len()
        invariant
            j <= cells@.len(),
            fns == footnotes.entries_view(),
            out@ == old(out)@ + spec_cells(cells@.subrange(0, j as int), header, fns, base_dir@),
        decreases cells@.len() - j, 0int, 0int,
    {
        render_cell(&cells[j], header, footnotes, base_dir, out);
        proof {
            assert(cells@.subrange(0, j + 1 as int).drop_last() =~= cells@.subrange(0, j as int));
            assert(cells@.subrange(0, j + 1 as int).last() == cells@[j as int]);
        }
        j = j + 1;
    }
    proof {
        assert(cells@.subrange(0, cells@.len() as int) =~= cells@);
    }
}

/// Renders one bracketed cell group, appending to `out`.
fn render_cell(
    cell: &Node,
    header: bool,
    footnotes: &FootnoteMap,
    base_dir: &Vec<char>,
    out: &mut Vec<char>,
)
    ensures
        final(out)@ == old(out)@ + spec_cell(*cell, header, footnotes.entries_view(), base_dir@),
    decreases *cell, 5int, 0int,
{
    let ghost fns = footnotes.entries_view();
    match cell {
        Node::TableCell { children } => {
            if header {
                append_str(out, "    [");
            } else {
                append_str(out, "  [");
            }
            let mut content: Vec<char> = Vec::new();
            render_children(children, false, footnotes, base_dir, &mut content);
            let trimmed = trim_chars(&content);
            append_chars(out, &trimmed);
            append_str(out, "],\n");
            proof {
                assert(out@ =~= old(out)@ + spec_cell(*cell, header, fns, base_dir@));
            }
        },
        _ => {},
    }
}

/// The output of the whole transpiler for a parsed tree: pass 1 collects
/// the footnote bodies, pass 2 renders the tree against them.
pub open spec fn spec_transpile(root: Node, base: Seq<char>) -> Seq<char> {
    spec_render_node(root, false, collect_node_spec(root, base), base)
}

/// Transpiles a parsed document tree to markup text.
///
/// Pure and deterministic: the result depends on the tree and the base
/// directory alone. `base_dir` is only used to resolve local image paths;
/// it is never opened or read.
pub fn transpile(root: &Node, base_dir: &str) -> (out: String)
    ensures
        out@ == spec_transpile(*root, base_dir@),
{
    let base = chars_of_str(base_dir);
    let footnotes = collect_footnotes(root, &base);
    let mut out: Vec<char> = Vec::new();
    render_node(root, false, &footnotes, &base, &mut out);
    chars_to_string(&out)
}

} // verus!
