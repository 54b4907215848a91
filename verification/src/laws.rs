//! The properties the transpiler is accountable to, stated and proved
//! against the render specification: list tightness, forward footnote
//! references, table structure, code spans, image resolution, and the
//! once-only application of the escaper.
use vstd::prelude::*;

use crate::ast::Align;
use crate::ast::Node;
use crate::escape::escape_spec;
use crate::escape::lemma_escape_chars;
use crate::escape::lemma_escape_first;
use crate::escape::lemma_escape_last;
use crate::footnotes::collect_node_spec;
use crate::footnotes::collect_nodes_spec;
use crate::footnotes::fm_lookup;
use crate::footnotes::nodes_define;
use crate::footnotes::tree_defines;
use crate::lines::join_lines_spec;
use crate::lines::lines_spec;
use crate::lines::split_lines_spec;
use crate::lines::strip_cr_spec;
use crate::lines::indent_spec;
use crate::render::align_list_spec;
use crate::render::is_header_row;
use crate::render::leading_header_count;
use crate::render::spec_body_part;
use crate::render::spec_cells;
use crate::render::spec_header_part;
use crate::render::spec_render_node;
use crate::render::spec_render_nodes;
use crate::render::spec_row_cells;
use crate::render::spec_transpile;
use crate::text::dec_spec;
use crate::text::ends_with_spec;
use crate::text::is_ws_char;
use crate::text::join_path_spec;
use crate::text::seq_contains_char;
use crate::text::slashes_spec;
use crate::text::starts_with_spec;
use crate::text::trim_end_spec;
use crate::text::trim_spec;
use crate::text::trim_start_spec;

verus! {

/// A whitespace-only suffix never survives end trimming.
proof fn lemma_trim_end_ws_suffix(x: Seq<char>, tail: Seq<char>)
    requires
        forall|j: int| 0 <= j < tail.len() ==> is_ws_char(tail[j]),
    ensures
        trim_end_spec(x + tail) == trim_end_spec(x),
    decreases tail.len(),
{
    if tail.len() == 0 {
        assert(x + tail =~= x);
    } else {
        let s = x + tail;
        assert(s.last() == tail.last());
        assert(s.drop_last() =~= x + tail.drop_last());
        lemma_trim_end_ws_suffix(x, tail.drop_last());
    }
}

/// Trimming a text that starts and ends on non-blank characters and
/// carries only a whitespace tail removes exactly that tail.
proof fn lemma_trim_wrapped(e: Seq<char>, tail: Seq<char>)
    requires
        e.len() > 0,
        !is_ws_char(e[0]),
        !is_ws_char(e.last()),
        forall|j: int| 0 <= j < tail.len() ==> is_ws_char(tail[j]),
    ensures
        trim_spec(e + tail) == e,
{
    assert((e + tail)[0] == e[0]);
    assert(trim_start_spec(e + tail) == e + tail);
    lemma_trim_end_ws_suffix(e, tail);
    assert(trim_end_spec(e) == e);
}

/// A text without newlines splits into the single line it is.
proof fn lemma_split_no_nl(x: Seq<char>)
    requires
        !seq_contains_char(x, '\n'),
    ensures
        split_lines_spec(x) == seq![x],
    decreases x.len(),
{
    if x.len() == 0 {
        assert(x =~= Seq::<char>::empty());
        assert(split_lines_spec(x) =~= seq![x]);
    } else {
        assert(!seq_contains_char(x.drop_last(), '\n')) by {
            if seq_contains_char(x.drop_last(), '\n') {
                let j = choose|j: int| 0 <= j < x.drop_last().len() && x.drop_last()[j] == '\n';
                assert(x[j] == '\n');
            }
        }
        lemma_split_no_nl(x.drop_last());
        assert(x.last() != '\n') by {
            if x.last() == '\n' {
                assert(x[x.len() - 1] == '\n');
            }
        }
        assert(split_lines_spec(x) =~= seq![x.drop_last().push(x.last())]);
        assert(x.drop_last().push(x.last()) =~= x);
    }
}

/// Splitting distributes over a newline: the lines of `s + '\n' + t` are
/// the lines of `s` followed by the lines of `t`.
proof fn lemma_split_append(s: Seq<char>, t: Seq<char>)
    ensures
        split_lines_spec(s + seq!['\n'] + t) == split_lines_spec(s) + split_lines_spec(t),
    decreases t.len(),
{
    crate::lines::lemma_split_lines_nonempty(s);
    crate::lines::lemma_split_lines_nonempty(t);
    if t.len() == 0 {
        let u = s + seq!['\n'] + t;
        assert(u =~= s + seq!['\n']);
        assert((s + seq!['\n']).drop_last() =~= s);
        assert((s + seq!['\n']).last() == '\n');
        assert(split_lines_spec(u) =~= split_lines_spec(s) + split_lines_spec(t));
    } else {
        lemma_split_append(s, t.drop_last());
        crate::lines::lemma_split_lines_nonempty(t.drop_last());
        let u = s + seq!['\n'] + t;
        assert(u.drop_last() =~= s + seq!['\n'] + t.drop_last());
        assert(u.last() == t.last());
        let a = split_lines_spec(s);
        let bd = split_lines_spec(t.drop_last());
        if t.last() == '\n' {
            assert(split_lines_spec(u) =~= (a + bd).push(Seq::empty()));
            assert(split_lines_spec(t) =~= bd.push(Seq::empty()));
            assert((a + bd).push(Seq::empty()) =~= a + bd.push(Seq::empty()));
        } else {
            let joined = a + bd;
            assert(joined.last() == bd.last());
            assert(split_lines_spec(u) =~= joined.update(
                joined.len() - 1,
                joined.last().push(t.last()),
            ));
            assert(split_lines_spec(t) =~= bd.update(bd.len() - 1, bd.last().push(t.last())));
            assert(joined.update(joined.len() - 1, joined.last().push(t.last())) =~= a + bd.update(
                bd.len() - 1,
                bd.last().push(t.last()),
            ));
        }
    }
}

/// A single line needs no continuation indentation.
proof fn lemma_indent_single(x: Seq<char>, p: Seq<char>)
    requires
        !seq_contains_char(x, '\n'),
        x.len() == 0 || x.last() != '\r',
    ensures
        indent_spec(x, p) == x,
{
    if x.len() == 0 {
        assert(lines_spec(x).map(
            |i: int, l: Seq<char>|
                if i > 0 && l.len() > 0 {
                    p + l
                } else {
                    l
                },
        ) =~= Seq::<Seq<char>>::empty());
    } else {
        assert(x.last() != '\n') by {
            if x.last() == '\n' {
                assert(x[x.len() - 1] == '\n');
            }
        }
        lemma_split_no_nl(x);
        let ls = lines_spec(x);
        assert(ls =~= seq![x].map_values(|l: Seq<char>| strip_cr_spec(l)));
        assert(ls =~= seq![x]);
        let m = ls.map(
            |i: int, l: Seq<char>|
                if i > 0 && l.len() > 0 {
                    p + l
                } else {
                    l
                },
        );
        assert(m =~= seq![x]);
        assert(join_lines_spec(m) == x);
    }
}

/// Two lines joined by one newline: the second gains the prefix.
proof fn lemma_indent_two(a: Seq<char>, b: Seq<char>, p: Seq<char>)
    requires
        !seq_contains_char(a, '\n'),
        !seq_contains_char(b, '\n'),
        a.len() == 0 || a.last() != '\r',
        b.len() > 0,
        b.last() != '\r',
    ensures
        indent_spec(a + seq!['\n'] + b, p) == a + seq!['\n'] + p + b,
{
    let x = a + seq!['\n'] + b;
    assert(x.last() == b.last());
    assert(x.last() != '\n') by {
        if b.last() == '\n' {
            assert(seq_contains_char(b, '\n')) by {
                assert(b[b.len() - 1] == '\n');
            }
        }
    }
    lemma_split_append(a, b);
    lemma_split_no_nl(a);
    lemma_split_no_nl(b);
    let ls = lines_spec(x);
    assert(ls =~= (seq![a] + seq![b]).map_values(|l: Seq<char>| strip_cr_spec(l)));
    assert(ls =~= seq![a, b]);
    let m = ls.map(
        |i: int, l: Seq<char>|
            if i > 0 && l.len() > 0 {
                p + l
            } else {
                l
            },
    );
    assert(m =~= seq![a, p + b]);
    assert(m.drop_last() =~= seq![a]);
    reveal_with_fuel(join_lines_spec, 3);
    assert(join_lines_spec(m) =~= a + seq!['\n'] + (p + b));
    assert(a + seq!['\n'] + (p + b) =~= a + seq!['\n'] + p + b);
}

/// Two lines joined by a blank line: the blank line stays bare, the
/// third gains the prefix.
proof fn lemma_indent_blank_between(a: Seq<char>, b: Seq<char>, p: Seq<char>)
    requires
        !seq_contains_char(a, '\n'),
        !seq_contains_char(b, '\n'),
        a.len() == 0 || a.last() != '\r',
        b.len() > 0,
        b.last() != '\r',
    ensures
        indent_spec(a + seq!['\n', '\n'] + b, p) == a + seq!['\n', '\n'] + p + b,
{
    let x = a + seq!['\n', '\n'] + b;
    assert(x =~= a + seq!['\n'] + (Seq::<char>::empty() + seq!['\n'] + b));
    assert(x.last() == b.last());
    assert(x.last() != '\n') by {
        if b.last() == '\n' {
            assert(b[b.len() - 1] == '\n');
        }
    }
    lemma_split_append(a, Seq::<char>::empty() + seq!['\n'] + b);
    lemma_split_append(Seq::<char>::empty(), b);
    lemma_split_no_nl(a);
    lemma_split_no_nl(b);
    assert(split_lines_spec(Seq::<char>::empty()) =~= seq![Seq::<char>::empty()]);
    let ls = lines_spec(x);
    assert(split_lines_spec(x) =~= seq![a, Seq::<char>::empty(), b]);
    assert(ls =~= seq![a, Seq::<char>::empty(), b].map_values(|l: Seq<char>| strip_cr_spec(l)));
    assert(ls =~= seq![a, Seq::<char>::empty(), b]);
    let m = ls.map(
        |i: int, l: Seq<char>|
            if i > 0 && l.len() > 0 {
                p + l
            } else {
                l
            },
    );
    assert(m =~= seq![a, Seq::<char>::empty(), p + b]);
    assert(m.drop_last() =~= seq![a, Seq::<char>::empty()]);
    assert(m.drop_last().drop_last() =~= seq![a]);
    reveal_with_fuel(join_lines_spec, 4);
    assert(join_lines_spec(m.drop_last()) =~= a + seq!['\n']);
    assert(join_lines_spec(m) =~= (a + seq!['\n']) + seq!['\n'] + (p + b));
    assert((a + seq!['\n']) + seq!['\n'] + (p + b) =~= a + seq!['\n', '\n'] + p + b);
}

/// One unbroken run of text: non-empty, no newline, and no blank at
/// either end.
pub open spec fn single_line_text(t: Seq<char>) -> bool {
    t.len() > 0 && !is_ws_char(t[0]) && !is_ws_char(t.last()) && !seq_contains_char(t, '\n')
}

/// A paragraph holding exactly one text run with literal `t`.
pub open spec fn is_plain_paragraph(n: Node, t: Seq<char>) -> bool {
    match n {
        Node::Paragraph { children } => children@.len() == 1 && match children@[0] {
            Node::Text { literal } => literal@ == t,
            _ => false,
        },
        _ => false,
    }
}

/// A list item holding exactly one plain paragraph with literal `t`.
pub open spec fn is_plain_text_item(n: Node, ordered: bool, item_tight: bool, t: Seq<char>) -> bool {
    match n {
        Node::Item { ordered: o, tight: tg, children } => o == ordered && tg == item_tight
            && children@.len() == 1 && is_plain_paragraph(children@[0], t),
        _ => false,
    }
}

/// The marker lines a list of plain single-line items renders to: one
/// marker, the escaped text, one newline — and nothing between them.
pub open spec fn marker_lines(texts: Seq<Seq<char>>, ordered: bool) -> Seq<char>
    decreases texts.len(),
{
    if texts.len() == 0 {
        Seq::empty()
    } else {
        marker_lines(texts.drop_last(), ordered) + (if ordered {
            "+ "@
        } else {
            "- "@
        }) + escape_spec(texts.last()) + "\n"@
    }
}

proof fn lemma_render_singleton(
    x: Node,
    tight: bool,
    fns: Seq<(Seq<char>, Seq<char>)>,
    base: Seq<char>,
)
    ensures
        spec_render_nodes(seq![x], tight, fns, base) == spec_render_node(x, tight, fns, base),
{
    reveal_with_fuel(spec_render_nodes, 3);
    assert(seq![x].drop_last() =~= Seq::<Node>::empty());
    assert(seq![x].last() == x);
    assert(spec_render_nodes(seq![x], tight, fns, base) =~= spec_render_node(
        x,
        tight,
        fns,
        base,
    ));
}

proof fn lemma_render_pair(
    x: Node,
    y: Node,
    tight: bool,
    fns: Seq<(Seq<char>, Seq<char>)>,
    base: Seq<char>,
)
    ensures
        spec_render_nodes(seq![x, y], tight, fns, base) == spec_render_node(x, tight, fns, base)
            + spec_render_node(y, tight, fns, base),
{
    reveal_with_fuel(spec_render_nodes, 3);
    assert(seq![x, y].drop_last() =~= seq![x]);
    assert(seq![x, y].last() == y);
    lemma_render_singleton(x, tight, fns, base);
    assert(spec_render_nodes(seq![x, y], tight, fns, base) == spec_render_nodes(
        seq![x],
        tight,
        fns,
        base,
    ) + spec_render_node(y, tight, fns, base));
}

proof fn lemma_escape_no_nl(t: Seq<char>)
    requires
        !seq_contains_char(t, '\n'),
    ensures
        !seq_contains_char(escape_spec(t), '\n'),
{
    lemma_escape_chars(t);
    if seq_contains_char(escape_spec(t), '\n') {
        let i = choose|i: int|
            0 <= i < escape_spec(t).len() && escape_spec(t)[i] == '\n';
        assert(escape_spec(t)[i] == '\\' || seq_contains_char(t, escape_spec(t)[i]));
    }
}

/// One plain single-line item renders to exactly one marker line, with
/// the same text whether the list is tight or loose.
proof fn lemma_plain_item_render(
    n: Node,
    ordered: bool,
    item_tight: bool,
    t: Seq<char>,
    outer: bool,
    fns: Seq<(Seq<char>, Seq<char>)>,
    base: Seq<char>,
)
    requires
        is_plain_text_item(n, ordered, item_tight, t),
        single_line_text(t),
    ensures
        spec_render_node(n, outer, fns, base) == (if ordered {
            "+ "@
        } else {
            "- "@
        }) + escape_spec(t) + "\n"@,
{
    reveal_strlit("\n");
    reveal_strlit("\n\n");
    match n {
        Node::Item { ordered: o, tight: tg, children } => {
            let para = children@[0];
            match para {
                Node::Paragraph { children: pc } => {
                    assert(pc@ =~= seq![pc@[0]]);
                    lemma_render_singleton(pc@[0], false, fns, base);
                    assert(spec_render_nodes(pc@, false, fns, base) == escape_spec(t));
                },
                _ => {
                    assert(false);
                },
            }
            assert(children@ =~= seq![para]);
            let tail: Seq<char> = if tg {
                "\n"@
            } else {
                "\n\n"@
            };
            lemma_render_singleton(para, tg, fns, base);
            let body = spec_render_nodes(children@, tg, fns, base);
            assert(body == spec_render_node(para, tg, fns, base));
            assert(body =~= escape_spec(t) + tail);
            lemma_escape_first(t);
            lemma_escape_last(t);
            assert(forall|j: int| 0 <= j < tail.len() ==> is_ws_char(tail[j]));
            lemma_trim_wrapped(escape_spec(t), tail);
            assert(trim_spec(body) == escape_spec(t));
            lemma_escape_no_nl(t);
            lemma_indent_single(escape_spec(t), "  "@);
        },
        _ => {
            assert(false);
        },
    }
}

proof fn lemma_plain_items_render(
    items: Seq<Node>,
    texts: Seq<Seq<char>>,
    ordered: bool,
    item_tight: bool,
    fns: Seq<(Seq<char>, Seq<char>)>,
    base: Seq<char>,
)
    requires
        items.len() == texts.len(),
        forall|i: int|
            0 <= i < items.len() ==> is_plain_text_item(#[trigger] items[i], ordered, item_tight, texts[i])
                && single_line_text(#[trigger] texts[i]),
    ensures
        spec_render_nodes(items, false, fns, base) == marker_lines(texts, ordered),
    decreases items.len(),
{
    if items.len() > 0 {
        lemma_plain_items_render(items.drop_last(), texts.drop_last(), ordered, item_tight, fns, base);
        lemma_plain_item_render(items.last(), ordered, item_tight, texts.last(), false, fns, base);
        assert(spec_render_nodes(items, false, fns, base) =~= marker_lines(texts, ordered));
    } else {
        assert(spec_render_nodes(items, false, fns, base) =~= marker_lines(texts, ordered));
    }
}

/// A list of N plain single-line items produces exactly N marker lines
/// with no blank line between any two, followed by the single blank line
/// that closes every list. The items' own output is the same whether
/// they are tight or loose: with one single-line paragraph per item, the
/// paragraph separator is trimmed away inside the item either way.
pub proof fn lemma_list_of_plain_items(
    list: Node,
    texts: Seq<Seq<char>>,
    ordered: bool,
    item_tight: bool,
    outer: bool,
    fns: Seq<(Seq<char>, Seq<char>)>,
    base: Seq<char>,
)
    requires
        match list {
            Node::List { children, .. } => children@.len() == texts.len() && texts.len() > 0
                && forall|i: int|
                0 <= i < children@.len() ==> is_plain_text_item(
                    #[trigger] children@[i],
                    ordered,
                    item_tight,
                    texts[i],
                ) && single_line_text(#[trigger] texts[i]),
            _ => false,
        },
    ensures
        spec_render_node(list, outer, fns, base) == marker_lines(texts, ordered) + "\n"@,
{
    reveal_strlit("\n");
    reveal_strlit("\n\n");
    reveal_strlit("- ");
    reveal_strlit("+ ");
    match list {
        Node::List { children, .. } => {
            lemma_plain_items_render(children@, texts, ordered, item_tight, fns, base);
            let c = marker_lines(texts, ordered);
            let e = escape_spec(texts.last());
            lemma_escape_last(texts.last());
            assert(c.len() >= e.len() + 3);
            assert(c[c.len() - 1] == '\n');
            assert(c[c.len() - 2] == e.last());
            assert(e.last() == texts.last().last());
            assert(!is_ws_char(texts.last().last()));
            if ends_with_spec(c, "\n\n"@) {
                assert(c.subrange(c.len() - 2, c.len() as int)[0] == c[c.len() - 2]);
                assert(c[c.len() - 2] == '\n');
                assert(false);
            }
        },
        _ => {
            assert(false);
        },
    }
}

/// The marker of a list item: `+ ` for ordered, `- ` for unordered.
pub open spec fn item_marker_of(item: Node) -> Seq<char> {
    match item {
        Node::Item { ordered, .. } => if ordered {
            "+ "@
        } else {
            "- "@
        },
        _ => Seq::empty(),
    }
}

/// The rendered, trimmed body of a list item, under its own tight flag.
pub open spec fn item_body_spec(
    item: Node,
    fns: Seq<(Seq<char>, Seq<char>)>,
    base: Seq<char>,
) -> Seq<char> {
    match item {
        Node::Item { tight, children, .. } => trim_spec(
            spec_render_nodes(children@, tight, fns, base),
        ),
        _ => Seq::empty(),
    }
}

proof fn lemma_trim_end_last(s: Seq<char>)
    ensures
        trim_end_spec(s).len() > 0 ==> !is_ws_char(trim_end_spec(s).last()),
    decreases s.len(),
{
    if s.len() > 0 && is_ws_char(s.last()) {
        lemma_trim_end_last(s.drop_last());
    }
}

/// Any list item whose body renders to a single line — whatever its
/// content — renders to exactly one marker line: marker, body, one
/// newline, tight or loose alike.
pub proof fn lemma_single_line_item_render(
    item: Node,
    outer: bool,
    fns: Seq<(Seq<char>, Seq<char>)>,
    base: Seq<char>,
)
    requires
        item is Item,
        !seq_contains_char(item_body_spec(item, fns, base), '\n'),
    ensures
        spec_render_node(item, outer, fns, base) == item_marker_of(item) + item_body_spec(
            item,
            fns,
            base,
        ) + "\n"@,
{
    match item {
        Node::Item { ordered, tight, children } => {
            let b = trim_spec(spec_render_nodes(children@, tight, fns, base));
            lemma_trim_end_last(trim_start_spec(spec_render_nodes(children@, tight, fns, base)));
            if b.len() > 0 {
                assert(b.last() != '\r');
            }
            lemma_indent_single(b, "  "@);
        },
        _ => {
            assert(false);
        },
    }
}

/// One marker line per item, with nothing between them.
pub open spec fn item_lines_spec(
    items: Seq<Node>,
    fns: Seq<(Seq<char>, Seq<char>)>,
    base: Seq<char>,
) -> Seq<char>
    decreases items.len(),
{
    if items.len() == 0 {
        Seq::empty()
    } else {
        item_lines_spec(items.drop_last(), fns, base) + item_marker_of(items.last())
            + item_body_spec(items.last(), fns, base) + "\n"@
    }
}

proof fn lemma_single_line_items_render(
    items: Seq<Node>,
    fns: Seq<(Seq<char>, Seq<char>)>,
    base: Seq<char>,
)
    requires
        forall|i: int|
            0 <= i < items.len() ==> (#[trigger] items[i]) is Item && !seq_contains_char(
                item_body_spec(items[i], fns, base),
                '\n',
            ),
    ensures
        spec_render_nodes(items, false, fns, base) == item_lines_spec(items, fns, base),
    decreases items.len(),
{
    if items.len() > 0 {
        assert forall|i: int|
            0 <= i < items.drop_last().len() implies (#[trigger] items.drop_last()[i]) is Item
            && !seq_contains_char(item_body_spec(items.drop_last()[i], fns, base), '\n') by {
            assert(items.drop_last()[i] == items[i]);
        }
        lemma_single_line_items_render(items.drop_last(), fns, base);
        lemma_single_line_item_render(items.last(), false, fns, base);
        assert(spec_render_nodes(items, false, fns, base) =~= item_lines_spec(items, fns, base));
    } else {
        assert(spec_render_nodes(items, false, fns, base) =~= item_lines_spec(items, fns, base));
    }
}

/// A list of N items whose bodies each render to one non-empty line
/// produces exactly N marker lines with no blank line between any two,
/// closed by the one blank line that follows every list — whether the
/// items are tight or loose.
pub proof fn lemma_list_of_single_line_items(
    list: Node,
    outer: bool,
    fns: Seq<(Seq<char>, Seq<char>)>,
    base: Seq<char>,
)
    requires
        match list {
            Node::List { children, .. } => children@.len() > 0 && forall|i: int|
                0 <= i < children@.len() ==> (#[trigger] children@[i]) is Item
                    && !seq_contains_char(item_body_spec(children@[i], fns, base), '\n')
                    && item_body_spec(children@[i], fns, base).len() > 0,
            _ => false,
        },
    ensures
        match list {
            Node::List { children, .. } => spec_render_node(list, outer, fns, base)
                == item_lines_spec(children@, fns, base) + "\n"@,
            _ => true,
        },
{
    reveal_strlit("\n");
    reveal_strlit("\n\n");
    reveal_strlit("- ");
    reveal_strlit("+ ");
    match list {
        Node::List { children, .. } => {
            lemma_single_line_items_render(children@, fns, base);
            let c = item_lines_spec(children@, fns, base);
            let last = children@.last();
            let b = item_body_spec(last, fns, base);
            assert(item_marker_of(last).len() == 2) by {
                assert(last is Item);
                match last {
                    Node::Item { ordered, .. } => {
                        if ordered {
                        } else {
                        }
                    },
                    _ => {
                        assert(false);
                    },
                }
            }
            assert(c.len() >= b.len() + 3);
            assert(c[c.len() - 1] == '\n');
            assert(c[c.len() - 2] == b.last());
            assert(b.last() != '\n') by {
                if b.last() == '\n' {
                    assert(seq_contains_char(b, '\n')) by {
                        assert(b[b.len() - 1] == '\n');
                    }
                }
            }
            if ends_with_spec(c, "\n\n"@) {
                assert(c.subrange(c.len() - 2, c.len() as int)[0] == c[c.len() - 2]);
                assert(c[c.len() - 2] == '\n');
                assert(false);
            }
        },
        _ => {
            assert(false);
        },
    }
}

/// An item of two single-line paragraphs: tight, the two lines stand on
/// consecutive lines; loose, one blank line stands between them. The
/// second line carries the two-space continuation indent either way.
pub proof fn lemma_item_paragraph_spacing(
    item: Node,
    ordered: bool,
    item_tight: bool,
    t1: Seq<char>,
    t2: Seq<char>,
    outer: bool,
    fns: Seq<(Seq<char>, Seq<char>)>,
    base: Seq<char>,
)
    requires
        match item {
            Node::Item { ordered: o, tight: tg, children } => o == ordered && tg == item_tight
                && children@.len() == 2 && is_plain_paragraph(children@[0], t1)
                && is_plain_paragraph(children@[1], t2),
            _ => false,
        },
        single_line_text(t1),
        single_line_text(t2),
    ensures
        spec_render_node(item, outer, fns, base) == (if ordered {
            "+ "@
        } else {
            "- "@
        }) + escape_spec(t1) + (if item_tight {
            seq!['\n']
        } else {
            seq!['\n', '\n']
        }) + "  "@ + escape_spec(t2) + "\n"@,
{
    reveal_strlit("\n");
    reveal_strlit("\n\n");
    match item {
        Node::Item { ordered: o, tight: tg, children } => {
            let e1 = escape_spec(t1);
            let e2 = escape_spec(t2);
            let p1 = children@[0];
            let p2 = children@[1];
            match p1 {
                Node::Paragraph { children: pc } => {
                    assert(pc@ =~= seq![pc@[0]]);
                    lemma_render_singleton(pc@[0], false, fns, base);
                    assert(spec_render_nodes(pc@, false, fns, base) == e1);
                },
                _ => {
                    assert(false);
                },
            }
            match p2 {
                Node::Paragraph { children: pc } => {
                    assert(pc@ =~= seq![pc@[0]]);
                    lemma_render_singleton(pc@[0], false, fns, base);
                    assert(spec_render_nodes(pc@, false, fns, base) == e2);
                },
                _ => {
                    assert(false);
                },
            }
            let tail: Seq<char> = if tg {
                "\n"@
            } else {
                "\n\n"@
            };
            assert(tail =~= if tg {
                seq!['\n']
            } else {
                seq!['\n', '\n']
            });
            assert(children@ =~= seq![p1, p2]);
            lemma_render_pair(p1, p2, tg, fns, base);
            let body = spec_render_nodes(children@, tg, fns, base);
            assert(body == spec_render_node(p1, tg, fns, base) + spec_render_node(
                p2,
                tg,
                fns,
                base,
            ));
            assert(body =~= (e1 + tail) + (e2 + tail));
            let core = e1 + tail + e2;
            assert(body =~= core + tail);
            lemma_escape_first(t1);
            lemma_escape_last(t1);
            lemma_escape_first(t2);
            lemma_escape_last(t2);
            assert(core[0] == e1[0]);
            assert(core.last() == e2.last());
            lemma_trim_wrapped(core, tail);
            assert(trim_spec(body) == core);
            lemma_escape_no_nl(t1);
            lemma_escape_no_nl(t2);
            if tg {
                assert(core =~= e1 + seq!['\n'] + e2);
                lemma_indent_two(e1, e2, "  "@);
                assert(indent_spec(core, "  "@) == e1 + seq!['\n'] + "  "@ + e2);
            } else {
                assert(core =~= e1 + seq!['\n', '\n'] + e2);
                lemma_indent_blank_between(e1, e2, "  "@);
                assert(indent_spec(core, "  "@) == e1 + seq!['\n', '\n'] + "  "@ + e2);
            }
            assert(spec_render_node(item, outer, fns, base) =~= (if ordered {
                "+ "@
            } else {
                "- "@
            }) + e1 + (if item_tight {
                seq!['\n']
            } else {
                seq!['\n', '\n']
            }) + "  "@ + e2 + "\n"@);
        },
        _ => {
            assert(false);
        },
    }
}

/// A footnote reference standing before its definition in document order
/// still resolves to the definition's rendered, trimmed body: pass 1 has
/// filled the map before pass 2 reads it.
pub proof fn lemma_forward_reference_resolves(
    doc: Node,
    name: Seq<char>,
    def_children: Seq<Node>,
    base: Seq<char>,
)
    requires
        match doc {
            Node::Document { children } => children@.len() == 2 && (match children@[0] {
                Node::Paragraph { children: pc } => pc@.len() == 1 && match pc@[0] {
                    Node::FootnoteReference { name: rn } => rn@ == name,
                    _ => false,
                },
                _ => false,
            }) && (match children@[1] {
                Node::FootnoteDefinition { name: dn, children: dc } => dn@ == name && dc@
                    == def_children,
                _ => false,
            }),
            _ => false,
        },
        collect_nodes_spec(def_children, base) == Seq::<(Seq<char>, Seq<char>)>::empty(),
    ensures
        spec_transpile(doc, base) == "#footnote["@ + trim_spec(
            spec_render_nodes(def_children, false, Seq::<(Seq<char>, Seq<char>)>::empty(), base),
        ) + "]"@ + "\n\n"@,
{
    match doc {
        Node::Document { children } => {
            let para = children@[0];
            let def = children@[1];
            let body = trim_spec(
                spec_render_nodes(
                    def_children,
                    false,
                    Seq::<(Seq<char>, Seq<char>)>::empty(),
                    base,
                ),
            );
            assert(children@ =~= seq![para, def]);
            match para {
                Node::Paragraph { children: pc } => {
                    reveal_with_fuel(collect_nodes_spec, 3);
                    assert(pc@ =~= seq![pc@[0]]);
                    assert(seq![pc@[0]].drop_last() =~= Seq::<Node>::empty());
                    assert(collect_nodes_spec(seq![pc@[0]], base) =~= Seq::<(
                        Seq<char>,
                        Seq<char>,
                    )>::empty());
                    assert(collect_node_spec(para, base) =~= Seq::<(Seq<char>, Seq<char>)>::empty());
                },
                _ => {
                    assert(false);
                },
            }
            reveal_with_fuel(collect_nodes_spec, 4);
            assert(collect_node_spec(def, base) =~= seq![(name, body)]);
            assert(seq![para, def].drop_last() =~= seq![para]);
            assert(seq![para].drop_last() =~= Seq::<Node>::empty());
            assert(collect_nodes_spec(seq![para], base) =~= Seq::<(Seq<char>, Seq<char>)>::empty());
            assert(collect_nodes_spec(seq![para, def], base) =~= seq![(name, body)]);
            let fns = collect_node_spec(doc, base);
            assert(fns =~= seq![(name, body)]);
            match para {
                Node::Paragraph { children: pc } => {
                    let r = pc@[0];
                    assert(fm_lookup(fns, name) == Some(body)) by {
                        assert(fns.last() == (name, body));
                    }
                    assert(spec_render_node(r, false, fns, base) == "#footnote["@ + body + "]"@);
                    assert(pc@ =~= seq![r]);
                    lemma_render_singleton(r, false, fns, base);
                    assert(spec_render_nodes(pc@, false, fns, base) == "#footnote["@ + body
                        + "]"@);
                },
                _ => {
                    assert(false);
                },
            }
            lemma_render_pair(para, def, false, fns, base);
            assert(spec_render_node(doc, false, fns, base) =~= "#footnote["@ + body + "]"@
                + "\n\n"@);
        },
        _ => {
            assert(false);
        },
    }
}

/// Looking a name up in concatenated entries takes the later block
/// first: entries behind win.
proof fn lemma_fm_lookup_append(
    a: Seq<(Seq<char>, Seq<char>)>,
    b: Seq<(Seq<char>, Seq<char>)>,
    k: Seq<char>,
)
    ensures
        fm_lookup(a + b, k) == (if fm_lookup(b, k) is Some {
            fm_lookup(b, k)
        } else {
            fm_lookup(a, k)
        }),
    decreases b.len(),
{
    if b.len() == 0 {
        assert(a + b =~= a);
    } else {
        assert((a + b).drop_last() =~= a + b.drop_last());
        assert((a + b).last() == b.last());
        if b.last().0 != k {
            lemma_fm_lookup_append(a, b.drop_last(), k);
        }
    }
}

proof fn lemma_collect_defines_node(n: Node, name: Seq<char>, base: Seq<char>)
    ensures
        (fm_lookup(collect_node_spec(n, base), name) is Some) <==> tree_defines(n, name),
    decreases n, 0int,
{
    match n {
        Node::FootnoteDefinition { name: dn, children } => {
            lemma_collect_defines_nodes(children@, name, base);
            let own = seq![
                (
                    dn@,
                    trim_spec(
                        spec_render_nodes(
                            children@,
                            false,
                            Seq::<(Seq<char>, Seq<char>)>::empty(),
                            base,
                        ),
                    ),
                ),
            ];
            lemma_fm_lookup_append(own, collect_nodes_spec(children@, base), name);
            assert(own.drop_last() =~= Seq::<(Seq<char>, Seq<char>)>::empty());
            reveal_with_fuel(fm_lookup, 3);
            assert(fm_lookup(own, name) == (if dn@ == name {
                Some(own.last().1)
            } else {
                Option::<Seq<char>>::None
            }));
        },
        Node::Document { children } => lemma_collect_defines_nodes(children@, name, base),
        Node::Heading { children, .. } => lemma_collect_defines_nodes(children@, name, base),
        Node::Paragraph { children } => lemma_collect_defines_nodes(children@, name, base),
        Node::Emph { children } => lemma_collect_defines_nodes(children@, name, base),
        Node::Strong { children } => lemma_collect_defines_nodes(children@, name, base),
        Node::Strikethrough { children } => lemma_collect_defines_nodes(children@, name, base),
        Node::Link { children, .. } => lemma_collect_defines_nodes(children@, name, base),
        Node::Image { children, .. } => lemma_collect_defines_nodes(children@, name, base),
        Node::List { children, .. } => lemma_collect_defines_nodes(children@, name, base),
        Node::Item { children, .. } => lemma_collect_defines_nodes(children@, name, base),
        Node::TaskItem { children, .. } => lemma_collect_defines_nodes(children@, name, base),
        Node::BlockQuote { children } => lemma_collect_defines_nodes(children@, name, base),
        Node::Table { children, .. } => lemma_collect_defines_nodes(children@, name, base),
        Node::TableRow { children, .. } => lemma_collect_defines_nodes(children@, name, base),
        Node::TableCell { children } => lemma_collect_defines_nodes(children@, name, base),
        Node::Other { children } => lemma_collect_defines_nodes(children@, name, base),
        _ => {},
    }
}

proof fn lemma_collect_defines_nodes(ns: Seq<Node>, name: Seq<char>, base: Seq<char>)
    ensures
        (fm_lookup(collect_nodes_spec(ns, base), name) is Some) <==> nodes_define(ns, name),
    decreases ns, 1int,
{
    if ns.len() > 0 {
        lemma_collect_defines_nodes(ns.drop_last(), name, base);
        lemma_collect_defines_node(ns.last(), name, base);
        lemma_fm_lookup_append(
            collect_nodes_spec(ns.drop_last(), base),
            collect_node_spec(ns.last(), base),
            name,
        );
    }
}

/// A footnote reference resolves exactly when its name is defined
/// anywhere in the document — after the reference in document order as
/// well as before it: pass 1 walks the whole tree before pass 2 reads
/// the map, so the reference's own position never matters.
pub proof fn lemma_reference_resolves_iff_defined(
    root: Node,
    reference: Node,
    name: Seq<char>,
    outer: bool,
    base: Seq<char>,
)
    requires
        match reference {
            Node::FootnoteReference { name: rn } => rn@ == name,
            _ => false,
        },
    ensures
        tree_defines(root, name) <==> (fm_lookup(collect_node_spec(root, base), name) is Some),
        spec_render_node(reference, outer, collect_node_spec(root, base), base) == (match fm_lookup(
            collect_node_spec(root, base),
            name,
        ) {
            Some(body) => "#footnote["@ + body + "]"@,
            None => Seq::<char>::empty(),
        }),
{
    lemma_collect_defines_node(root, name, base);
}

/// The groups of a sequence of body rows, in row-major order.
pub open spec fn body_groups(
    rows: Seq<Node>,
    fns: Seq<(Seq<char>, Seq<char>)>,
    base: Seq<char>,
) -> Seq<char>
    decreases rows.len(),
{
    if rows.len() == 0 {
        Seq::empty()
    } else {
        body_groups(rows.drop_last(), fns, base) + spec_row_cells(rows.last(), false, fns, base)
    }
}

proof fn lemma_body_part_groups(
    rows: Seq<Node>,
    n: int,
    fns: Seq<(Seq<char>, Seq<char>)>,
    base: Seq<char>,
)
    requires
        1 <= n <= rows.len(),
        is_header_row(rows[0]),
        forall|i: int| 1 <= i < rows.len() ==> !is_header_row(#[trigger] rows[i]),
    ensures
        spec_body_part(rows, n, fns, base) == body_groups(rows.subrange(1, n), fns, base),
    decreases n,
{
    if n == 1 {
        reveal_with_fuel(spec_body_part, 3);
        assert(rows.subrange(1, 1) =~= Seq::<Node>::empty());
        assert(spec_body_part(rows, 1, fns, base) =~= body_groups(
            rows.subrange(1, 1),
            fns,
            base,
        ));
    } else {
        lemma_body_part_groups(rows, n - 1, fns, base);
        assert(rows.subrange(1, n).drop_last() =~= rows.subrange(1, n - 1));
        assert(rows.subrange(1, n).last() == rows[n - 1]);
        assert(spec_body_part(rows, n, fns, base) =~= body_groups(rows.subrange(1, n), fns, base));
    }
}

/// A table whose first row is its one header row: the output holds the
/// table head, then exactly one header call with that row's cell groups,
/// then every body row's cell groups in row-major order — header content
/// first and contiguous.
pub proof fn lemma_table_one_header_then_body(
    table: Node,
    k: usize,
    als: Seq<Align>,
    header_cells: Seq<Node>,
    body_rows: Seq<Node>,
    outer: bool,
    fns: Seq<(Seq<char>, Seq<char>)>,
    base: Seq<char>,
)
    requires
        match table {
            Node::Table { columns, alignments, children } => columns == k && alignments@ == als
                && children@.len() == body_rows.len() + 1 && (match children@[0] {
                Node::TableRow { header, children: hc } => header && hc@ == header_cells,
                _ => false,
            }) && children@.skip(1) == body_rows,
            _ => false,
        },
        forall|i: int| 0 <= i < body_rows.len() ==> !is_header_row(#[trigger] body_rows[i]),
    ensures
        spec_render_node(table, outer, fns, base) == "#table(\n  columns: "@ + dec_spec(k as nat)
            + ",\n  align: ("@ + align_list_spec(als) + "),\n"@ + "  table.header(\n"@ + spec_cells(
            header_cells,
            true,
            fns,
            base,
        ) + "  ),\n"@ + body_groups(body_rows, fns, base) + ")\n\n"@,
{
    match table {
        Node::Table { columns, alignments, children } => {
            let rows = children@;
            assert(rows.drop_first() =~= body_rows);
            assert(forall|i: int|
                1 <= i < rows.len() ==> !is_header_row(#[trigger] rows[i])) by {
                assert(forall|i: int|
                    1 <= i < rows.len() ==> rows[i] == body_rows[i - 1]);
            }
            assert(is_header_row(rows[0]));
            assert(leading_header_count(rows) == 1) by {
                reveal_with_fuel(leading_header_count, 3);
                if body_rows.len() > 0 {
                    assert(rows.drop_first()[0] == body_rows[0]);
                    assert(!is_header_row(rows.drop_first()[0]));
                } else {
                    assert(rows.drop_first().len() == 0);
                }
            }
            assert(spec_header_part(rows, 1, fns, base) =~= spec_row_cells(
                rows[0],
                true,
                fns,
                base,
            )) by {
                reveal_with_fuel(spec_header_part, 3);
            }
            assert(spec_row_cells(rows[0], true, fns, base) == spec_cells(
                header_cells,
                true,
                fns,
                base,
            ));
            lemma_body_part_groups(rows, rows.len() as int, fns, base);
            assert(rows.subrange(1, rows.len() as int) =~= body_rows);
            assert(spec_render_node(table, outer, fns, base) =~= "#table(\n  columns: "@
                + dec_spec(k as nat) + ",\n  align: ("@ + align_list_spec(als) + "),\n"@
                + "  table.header(\n"@ + spec_cells(header_cells, true, fns, base) + "  ),\n"@
                + body_groups(body_rows, fns, base) + ")\n\n"@);
        },
        _ => {
            assert(false);
        },
    }
}

/// A code span is wrapped in two backticks exactly when its text holds a
/// backtick, else in one.
pub proof fn lemma_code_span_backticks(
    n: Node,
    lit: Seq<char>,
    outer: bool,
    fns: Seq<(Seq<char>, Seq<char>)>,
    base: Seq<char>,
)
    requires
        match n {
            Node::Code { literal } => literal@ == lit,
            _ => false,
        },
    ensures
        seq_contains_char(lit, '`') ==> spec_render_node(n, outer, fns, base) == "``"@ + lit
            + "``"@,
        !seq_contains_char(lit, '`') ==> spec_render_node(n, outer, fns, base) == "`"@ + lit
            + "`"@,
{
}

/// A remote image renders as a placeholder: bare when the alt text is
/// empty, naming the alt text otherwise; no path resolution happens.
pub proof fn lemma_remote_image_placeholder(
    n: Node,
    u: Seq<char>,
    outer: bool,
    fns: Seq<(Seq<char>, Seq<char>)>,
    base: Seq<char>,
)
    requires
        match n {
            Node::Image { url, .. } => url@ == u,
            _ => false,
        },
        starts_with_spec(u, "http://"@) || starts_with_spec(u, "https://"@),
    ensures
        match n {
            Node::Image { children, .. } => {
                let alt = spec_render_nodes(children@, false, fns, base);
                spec_render_node(n, outer, fns, base) == if alt.len() == 0 {
                    "[Image]"@
                } else {
                    "[Image: "@ + alt + "]"@
                }
            },
            _ => true,
        },
{
}

/// A local image reference resolves against the base directory, with
/// every backslash turned into a forward slash.
pub proof fn lemma_local_image_resolution(
    n: Node,
    u: Seq<char>,
    outer: bool,
    fns: Seq<(Seq<char>, Seq<char>)>,
    base: Seq<char>,
)
    requires
        match n {
            Node::Image { url, .. } => url@ == u,
            _ => false,
        },
        !starts_with_spec(u, "http://"@),
        !starts_with_spec(u, "https://"@),
    ensures
        spec_render_node(n, outer, fns, base) == "#image(\""@ + slashes_spec(
            join_path_spec(base, u),
        ) + "\")"@,
{
}

/// Separator normalisation changes backslashes to forward slashes and
/// nothing else, position by position.
pub proof fn lemma_slashes_forward(s: Seq<char>)
    ensures
        slashes_spec(s).len() == s.len(),
        forall|i: int|
            0 <= i < s.len() ==> slashes_spec(s)[i] == (if s[i] == '\\' {
                '/'
            } else {
                s[i]
            }),
    decreases s.len(),
{
    if s.len() > 0 {
        lemma_slashes_forward(s.drop_last());
        assert forall|i: int|
            0 <= i < s.len() implies slashes_spec(s)[i] == (if s[i] == '\\' {
            '/'
        } else {
            s[i]
        }) by {
            if i < s.len() - 1 {
                assert(slashes_spec(s)[i] == slashes_spec(s.drop_last())[i]);
                assert(s.drop_last()[i] == s[i]);
            }
        }
    }
}

/// The escaper runs only on text-node literals, once each: every inline
/// wrapper emits its markup verbatim around its children's
/// already-rendered output, and never feeds produced text back through
/// the escaper — so output is never escaped a second time.
pub proof fn lemma_markup_not_reescaped(
    n: Node,
    outer: bool,
    fns: Seq<(Seq<char>, Seq<char>)>,
    base: Seq<char>,
)
    ensures
        match n {
            Node::Text { literal } => spec_render_node(n, outer, fns, base) == escape_spec(
                literal@,
            ),
            Node::Emph { children } => spec_render_node(n, outer, fns, base) == "_"@
                + spec_render_nodes(children@, false, fns, base) + "_"@,
            Node::Strong { children } => spec_render_node(n, outer, fns, base) == "*"@
                + spec_render_nodes(children@, false, fns, base) + "*"@,
            Node::Strikethrough { children } => spec_render_node(n, outer, fns, base)
                == "#strike["@ + spec_render_nodes(children@, false, fns, base) + "]"@,
            _ => true,
        },
{
}

} // verus!
