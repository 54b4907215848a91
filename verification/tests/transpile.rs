use comrak::nodes::ListType;
use comrak::nodes::NodeValue;
use comrak::nodes::TableAlignment;
use mdtypst::ast::Align;
use mdtypst::ast::Node;
use mdtypst::escape::escape_typst;
use mdtypst::lines::indent_continuation;
use mdtypst::preprocess::preprocess_markdown;
use mdtypst::render::transpile;

fn text(s: &str) -> Node {
    Node::Text { literal: s.to_string() }
}

fn para(children: Vec<Node>) -> Node {
    Node::Paragraph { children }
}

fn doc(children: Vec<Node>) -> Node {
    Node::Document { children }
}

#[test]
fn empty_document_renders_nothing() {
    assert_eq!(transpile(&doc(vec![]), "/docs"), "");
}

#[test]
fn deepest_heading_level() {
    let d = doc(vec![Node::Heading { level: 6, children: vec![text("deep")] }]);
    assert_eq!(transpile(&d, ""), "====== deep\n\n");
}

#[test]
fn empty_list_still_closed_by_one_newline() {
    let d = doc(vec![Node::List { ordered: false, tight: true, children: vec![] }]);
    assert_eq!(transpile(&d, ""), "\n");
}

#[test]
fn escapes_each_special_character_once() {
    assert_eq!(escape_typst("a#b"), "a\\#b");
    assert_eq!(escape_typst("# * _ @ $ < > \\"), "\\# \\* \\_ \\@ \\$ \\< \\> \\\\");
    assert_eq!(escape_typst("plain text"), "plain text");
    assert_eq!(escape_typst(""), "");
}

#[test]
fn escape_count_matches_specials() {
    let input = "#x*y_z@w$v<u>t\\s";
    let out = escape_typst(input);
    let specials = "#*_@$<>\\";
    let n_in: usize = input.chars().filter(|c| specials.contains(*c)).count();
    assert_eq!(out.len(), input.len() + n_in);
    // every special character in the input is now preceded by a backslash
    let chars: Vec<char> = out.chars().collect();
    let mut i = 0;
    while i < chars.len() {
        if chars[i] == '\\' {
            assert!(specials.contains(chars[i + 1]));
            i += 2;
        } else {
            assert!(!specials.contains(chars[i]));
            i += 1;
        }
    }
}

#[test]
fn heading_and_paragraph() {
    let d = doc(vec![
        Node::Heading { level: 2, children: vec![text("Title")] },
        para(vec![text("Body")]),
    ]);
    assert_eq!(transpile(&d, "/base"), "== Title\n\nBody\n\n");
}

#[test]
fn inline_wrappers_are_not_reescaped() {
    let d = doc(vec![para(vec![
        Node::Strong { children: vec![text("a#b")] },
        text(" and "),
        Node::Emph { children: vec![text("it")] },
        Node::Strikethrough { children: vec![text("old")] },
    ])]);
    assert_eq!(transpile(&d, ""), "*a\\#b* and _it_#strike[old]\n\n");
}

#[test]
fn code_span_with_backtick_uses_double_fence() {
    let with = doc(vec![para(vec![Node::Code { literal: "a`b".to_string() }])]);
    let without = doc(vec![para(vec![Node::Code { literal: "ab".to_string() }])]);
    assert_eq!(transpile(&with, ""), "``a`b``\n\n");
    assert_eq!(transpile(&without, ""), "`ab`\n\n");
}

#[test]
fn code_block_takes_first_info_token() {
    let d = doc(vec![Node::CodeBlock {
        info: "rust ignore".to_string(),
        literal: "fn main() {}\n".to_string(),
    }]);
    assert_eq!(transpile(&d, ""), "```rust\nfn main() {}\n```\n\n");
}

#[test]
fn code_block_gets_missing_trailing_newline() {
    let d = doc(vec![Node::CodeBlock {
        info: "".to_string(),
        literal: "x = 1".to_string(),
    }]);
    assert_eq!(transpile(&d, ""), "```\nx = 1\n```\n\n");
}

#[test]
fn link_with_text_equal_to_url_is_bare() {
    let url = "https://example.com";
    let bare = doc(vec![para(vec![Node::Link {
        url: url.to_string(),
        children: vec![text(url)],
    }])]);
    let named = doc(vec![para(vec![Node::Link {
        url: url.to_string(),
        children: vec![text("click")],
    }])]);
    assert_eq!(transpile(&bare, ""), "#link(\"https://example.com\")\n\n");
    assert_eq!(transpile(&named, ""), "#link(\"https://example.com\")[click]\n\n");
}

#[test]
fn remote_image_placeholder() {
    let empty_alt = doc(vec![para(vec![Node::Image {
        url: "https://example.com/c.png".to_string(),
        title: "".to_string(),
        children: vec![],
    }])]);
    let with_alt = doc(vec![para(vec![Node::Image {
        url: "https://example.com/c.png".to_string(),
        title: "".to_string(),
        children: vec![text("chart")],
    }])]);
    assert_eq!(transpile(&empty_alt, "/docs"), "[Image]\n\n");
    assert_eq!(transpile(&with_alt, "/docs"), "[Image: chart]\n\n");
}

#[test]
fn local_image_resolves_against_base_dir() {
    let d = doc(vec![para(vec![Node::Image {
        url: "img/a.png".to_string(),
        title: "".to_string(),
        children: vec![],
    }])]);
    assert_eq!(transpile(&d, "/docs/notes"), "#image(\"/docs/notes/img/a.png\")\n\n");
}

#[test]
fn local_image_normalizes_backslashes() {
    let d = doc(vec![para(vec![Node::Image {
        url: "img\\a.png".to_string(),
        title: "".to_string(),
        children: vec![],
    }])]);
    assert_eq!(transpile(&d, "/docs/notes"), "#image(\"/docs/notes/img/a.png\")\n\n");
}

fn plain_item(ordered: bool, tight: bool, s: &str) -> Node {
    Node::Item { ordered, tight, children: vec![para(vec![text(s)])] }
}

#[test]
fn tight_list_has_no_blank_lines() {
    let d = doc(vec![Node::List {
        ordered: false,
        tight: true,
        children: vec![
            plain_item(false, true, "one"),
            plain_item(false, true, "two"),
            plain_item(false, true, "three"),
        ],
    }]);
    let out = transpile(&d, "");
    assert_eq!(out, "- one\n- two\n- three\n\n");
    let marker_lines = out.lines().filter(|l| l.starts_with("- ")).count();
    assert_eq!(marker_lines, 3);
    assert!(!out.trim_end().contains("\n\n"));
}

#[test]
fn ordered_list_uses_plus_markers() {
    let d = doc(vec![Node::List {
        ordered: true,
        tight: true,
        children: vec![plain_item(true, true, "one"), plain_item(true, true, "two")],
    }]);
    assert_eq!(transpile(&d, ""), "+ one\n+ two\n\n");
}

#[test]
fn loose_item_keeps_blank_line_between_paragraphs() {
    let tight_item = Node::Item {
        ordered: false,
        tight: true,
        children: vec![para(vec![text("a")]), para(vec![text("b")])],
    };
    let loose_item = Node::Item {
        ordered: false,
        tight: false,
        children: vec![para(vec![text("a")]), para(vec![text("b")])],
    };
    let tight = doc(vec![Node::List { ordered: false, tight: true, children: vec![tight_item] }]);
    let loose = doc(vec![Node::List { ordered: false, tight: false, children: vec![loose_item] }]);
    assert_eq!(transpile(&tight, ""), "- a\n  b\n\n");
    assert_eq!(transpile(&loose, ""), "- a\n\n  b\n\n");
}

#[test]
fn task_items_render_checked_state() {
    let d = doc(vec![Node::List {
        ordered: false,
        tight: true,
        children: vec![
            Node::TaskItem { checked: true, tight: true, children: vec![para(vec![text("done")])] },
            Node::TaskItem { checked: false, tight: true, children: vec![para(vec![text("open")])] },
        ],
    }]);
    assert_eq!(transpile(&d, ""), "#task(true)[done]\n#task(false)[open]\n\n");
}

#[test]
fn block_quote_wraps_trimmed_body() {
    let d = doc(vec![Node::BlockQuote { children: vec![para(vec![text("wise words")])] }]);
    assert_eq!(transpile(&d, ""), "#blockquote[wise words]\n\n");
}

#[test]
fn thematic_break_and_line_breaks() {
    let d = doc(vec![
        para(vec![text("a"), Node::SoftBreak, text("b"), Node::LineBreak, text("c")]),
        Node::ThematicBreak,
    ]);
    assert_eq!(transpile(&d, ""), "a b\\\nc\n\n#hrule()\n\n");
}

#[test]
fn footnote_reference_before_definition_resolves() {
    let d = doc(vec![
        para(vec![Node::FootnoteReference { name: "1".to_string() }]),
        Node::FootnoteDefinition {
            name: "1".to_string(),
            children: vec![para(vec![text("Note text")])],
        },
    ]);
    assert_eq!(transpile(&d, ""), "#footnote[Note text]\n\n");
}

#[test]
fn duplicate_footnote_definition_last_wins() {
    let d = doc(vec![
        Node::FootnoteDefinition {
            name: "a".to_string(),
            children: vec![para(vec![text("first")])],
        },
        Node::FootnoteDefinition {
            name: "a".to_string(),
            children: vec![para(vec![text("second")])],
        },
        para(vec![Node::FootnoteReference { name: "a".to_string() }]),
    ]);
    assert_eq!(transpile(&d, ""), "#footnote[second]\n\n");
}

#[test]
fn unknown_footnote_reference_is_dropped() {
    let d = doc(vec![para(vec![text("x"), Node::FootnoteReference { name: "ghost".to_string() }])]);
    assert_eq!(transpile(&d, ""), "x\n\n");
}

#[test]
fn html_allowlist() {
    let d = doc(vec![para(vec![
        Node::HtmlInline { literal: "<sup>".to_string() },
        text("2"),
        Node::HtmlInline { literal: "</sup>".to_string() },
        Node::HtmlInline { literal: "<br />".to_string() },
        Node::HtmlInline { literal: "<SUB>".to_string() },
        text("i"),
        Node::HtmlInline { literal: "</SUB>".to_string() },
        Node::HtmlInline { literal: "<div>".to_string() },
    ])]);
    assert_eq!(transpile(&d, ""), "#super[2]\\\n#sub[i]\n\n");
}

#[test]
fn html_block_shares_the_allowlist() {
    let d = doc(vec![
        Node::HtmlBlock { literal: "<br/>\n".to_string() },
        Node::HtmlBlock { literal: "<sup>\n".to_string() },
        Node::HtmlBlock { literal: "</SUP>\n".to_string() },
        Node::HtmlBlock { literal: "<table></table>\n".to_string() },
    ]);
    assert_eq!(transpile(&d, ""), "\\\n#super[]");
}

#[test]
fn unknown_node_kinds_degrade_to_children() {
    let d = doc(vec![Node::Other { children: vec![para(vec![text("inner")])] }]);
    assert_eq!(transpile(&d, ""), "inner\n\n");
}

#[test]
fn table_one_header_call_then_body_groups() {
    let cell = |s: &str| Node::TableCell { children: vec![text(s)] };
    let d = doc(vec![Node::Table {
        columns: 2,
        alignments: vec![Align::Left, Align::Right],
        children: vec![
            Node::TableRow { header: true, children: vec![cell("A"), cell("B")] },
            Node::TableRow { header: false, children: vec![cell("c"), cell("d")] },
            Node::TableRow { header: false, children: vec![cell("e"), cell("f")] },
        ],
    }]);
    let out = transpile(&d, "");
    assert_eq!(
        out,
        "#table(\n  columns: 2,\n  align: (left, right),\n  table.header(\n    [A],\n    [B],\n  ),\n  [c],\n  [d],\n  [e],\n  [f],\n)\n\n"
    );
    // one header call, with the header groups before every body group
    assert_eq!(out.matches("table.header(").count(), 1);
    let header_pos = out.find("table.header(").unwrap();
    let body_pos = out.find("  [c],").unwrap();
    assert!(header_pos < body_pos);
    // k groups in the header, k * m groups in the body
    assert_eq!(out.matches("    [").count(), 2);
    assert_eq!(out.lines().filter(|l| l.starts_with("  [")).count(), 4);
}

#[test]
fn table_alignment_words() {
    let d = doc(vec![Node::Table {
        columns: 4,
        alignments: vec![Align::Left, Align::Center, Align::Right, Align::Auto],
        children: vec![],
    }]);
    let out = transpile(&d, "");
    assert!(out.contains("align: (left, center, right, auto)"));
}

#[test]
fn preprocess_escapes_comparison_after_marker() {
    assert_eq!(preprocess_markdown("- >= 5"), "- \\>= 5");
    assert_eq!(preprocess_markdown("  * >= x"), "  * \\>= x");
    assert_eq!(preprocess_markdown("1. >= y"), "1. \\>= y");
    assert_eq!(preprocess_markdown("12) >= z"), "12) \\>= z");
    assert_eq!(preprocess_markdown("a\n- >= b\nc"), "a\n- \\>= b\nc");
}

#[test]
fn preprocess_leaves_other_text_alone() {
    assert_eq!(preprocess_markdown(">= at start"), ">= at start");
    assert_eq!(preprocess_markdown("->= no space"), "->= no space");
    assert_eq!(preprocess_markdown("- plain item"), "- plain item");
    assert_eq!(preprocess_markdown("x - >= y"), "x - >= y");
    assert_eq!(preprocess_markdown(""), "");
    assert_eq!(preprocess_markdown("line\n\nother\n"), "line\n\nother\n");
}

#[test]
fn indent_continuation_indents_nonempty_later_lines() {
    assert_eq!(indent_continuation("one", "  "), "one");
    assert_eq!(indent_continuation("one\ntwo", "  "), "one\n  two");
    assert_eq!(indent_continuation("one\n\ntwo", "  "), "one\n\n  two");
}

// The end-to-end path: parse real markdown with comrak, convert the
// arena tree into the library's own tree, and transpile.
fn convert<'a>(node: &'a comrak::nodes::AstNode<'a>, list_ctx: Option<(bool, bool)>) -> Node {
    let children = |ctx: Option<(bool, bool)>| -> Vec<Node> {
        node.children().map(|c| convert(c, ctx)).collect()
    };
    match &node.data.borrow().value {
        NodeValue::Document => Node::Document { children: children(None) },
        NodeValue::Heading(h) => Node::Heading { level: h.level, children: children(None) },
        NodeValue::Paragraph => Node::Paragraph { children: children(None) },
        NodeValue::Text(t) => Node::Text { literal: t.to_string() },
        NodeValue::Emph => Node::Emph { children: children(None) },
        NodeValue::Strong => Node::Strong { children: children(None) },
        NodeValue::Strikethrough => Node::Strikethrough { children: children(None) },
        NodeValue::Code(c) => Node::Code { literal: c.literal.clone() },
        NodeValue::CodeBlock(cb) => Node::CodeBlock {
            info: cb.info.clone(),
            literal: cb.literal.clone(),
        },
        NodeValue::Link(l) => Node::Link { url: l.url.clone(), children: children(None) },
        NodeValue::Image(l) => Node::Image {
            url: l.url.clone(),
            title: l.title.clone(),
            children: children(None),
        },
        NodeValue::List(nl) => {
            let ordered = nl.list_type == ListType::Ordered;
            Node::List {
                ordered,
                tight: nl.tight,
                children: children(Some((ordered, nl.tight))),
            }
        }
        NodeValue::Item(nl) => Node::Item {
            ordered: nl.list_type == ListType::Ordered,
            tight: nl.tight,
            children: children(None),
        },
        NodeValue::TaskItem(t) => {
            let (ordered, tight) = list_ctx.unwrap_or((false, false));
            let _ = ordered;
            Node::TaskItem { checked: t.symbol.is_some(), tight, children: children(None) }
        }
        NodeValue::BlockQuote => Node::BlockQuote { children: children(None) },
        NodeValue::Table(t) => Node::Table {
            columns: t.num_columns,
            alignments: t
                .alignments
                .iter()
                .map(|a| match a {
                    TableAlignment::Left => Align::Left,
                    TableAlignment::Center => Align::Center,
                    TableAlignment::Right => Align::Right,
                    TableAlignment::None => Align::Auto,
                })
                .collect(),
            children: children(None),
        },
        NodeValue::TableRow(header) => Node::TableRow { header: *header, children: children(None) },
        NodeValue::TableCell => Node::TableCell { children: children(None) },
        NodeValue::ThematicBreak => Node::ThematicBreak,
        NodeValue::SoftBreak => Node::SoftBreak,
        NodeValue::LineBreak => Node::LineBreak,
        NodeValue::FootnoteDefinition(d) => Node::FootnoteDefinition {
            name: d.name.clone(),
            children: children(None),
        },
        NodeValue::FootnoteReference(r) => Node::FootnoteReference { name: r.name.clone() },
        NodeValue::HtmlBlock(h) => Node::HtmlBlock { literal: h.literal.clone() },
        NodeValue::HtmlInline(h) => Node::HtmlInline { literal: h.clone() },
        _ => Node::Other { children: children(None) },
    }
}

fn parse_and_transpile(markdown: &str, base_dir: &str) -> String {
    let preprocessed = preprocess_markdown(markdown);
    let arena = comrak::Arena::new();
    let mut options = comrak::Options::default();
    options.extension.strikethrough = true;
    options.extension.table = true;
    options.extension.autolink = true;
    options.extension.tasklist = true;
    options.extension.footnotes = true;
    options.parse.smart = true;
    let root = comrak::parse_document(&arena, &preprocessed, &options);
    let tree = convert(root, None);
    transpile(&tree, base_dir)
}

#[test]
fn end_to_end_forward_footnote() {
    let out = parse_and_transpile("# Title\n\nSee [^1].\n\n[^1]: Note text\n", "/docs");
    assert!(out.starts_with("= Title\n\n"));
    assert!(out.contains("See #footnote[Note text]."));
    assert!(!out.contains("[^1]"));
    assert_eq!(out, "= Title\n\nSee #footnote[Note text].\n\n");
}

#[test]
fn end_to_end_tight_list() {
    let out = parse_and_transpile("- one\n- two\n- three\n", "");
    assert_eq!(out, "- one\n- two\n- three\n\n");
}

#[test]
fn end_to_end_table() {
    let out = parse_and_transpile("| A | B |\n|:--|--:|\n| c | d |\n", "");
    assert_eq!(out.matches("table.header(").count(), 1);
    assert!(out.contains("columns: 2"));
    assert!(out.contains("align: (left, right)"));
    assert!(out.contains("    [A],\n    [B],"));
    assert!(out.contains("  [c],\n  [d],"));
}
