//! The footnote side of the two-pass design: a first pass walks the whole
//! tree and stores the rendered body of every footnote definition under
//! its name; the second pass (the renderer) only reads that map, so a
//! reference resolves no matter where in the document its definition
//! stands. When one name is defined twice, the later definition wins.
use vstd::prelude::*;

use crate::ast::Node;
use crate::render::spec_render_nodes;
use crate::render::render_children;
use crate::text::chars_to_string;
use crate::text::trim_chars;
use crate::text::trim_spec;

verus! {

/// The name-to-rendered-body mapping that pass 1 builds. Entries are kept
/// in collection order; a lookup takes the latest entry for a name.
pub struct FootnoteMap {
    pub entries: Vec<(String, String)>,
}

/// The latest body stored for `name`, if any.
pub open spec fn fm_lookup(entries: Seq<(Seq<char>, Seq<char>)>, name: Seq<char>) -> Option<
    Seq<char>,
>
    decreases entries.len(),
{
    if entries.len() == 0 {
        None
    } else if entries.last().0 == name {
        Some(entries.last().1)
    } else {
        fm_lookup(entries.drop_last(), name)
    }
}

impl FootnoteMap {
    pub open spec fn entries_view(&self) -> Seq<(Seq<char>, Seq<char>)> {
        self.entries@.map_values(|p: (String, String)| (p.0@, p.1@))
    }

    pub fn new() -> (m: FootnoteMap)
        ensures
            m.entries_view() == Seq::<(Seq<char>, Seq<char>)>::empty(),
    {
        let m = FootnoteMap { entries: Vec::new() };
        proof {
            assert(m.entries_view() =~= Seq::<(Seq<char>, Seq<char>)>::empty());
        }
        m
    }

    pub fn insert(&mut self, name: String, body: String)
        ensures
            final(self).entries_view() == old(self).entries_view().push((name@, body@)),
    {
        let ghost n = name@;
        let ghost b = body@;
        let ghost before = self.entries@;
        self.entries.push((name, body));
        proof {
            assert(self.entries_view() =~= old(self).entries_view().push((n, b)));
        }
    }

    /// The stored body for `name`, the latest entry winning.
    pub fn get(&self, name: &String) -> (r: Option<&String>)
        ensures
            match r {
                Some(b) => fm_lookup(self.entries_view(), name@) == Some(b@),
                None => fm_lookup(self.entries_view(), name@) is None,
            },
    {
        let mut i: usize = self.entries.len();
        proof {
            assert(self.entries_view().subrange(0, self.entries_view().len() as int)
                =~= self.entries_view());
        }
        while i > 0
            invariant
                i <= self.entries@.len(),
                fm_lookup(self.entries_view(), name@) == fm_lookup(
                    self.entries_view().subrange(0, i as int),
                    name@,
                ),
            decreases i,
        {
            i = i - 1;
            proof {
                let sub1 = self.entries_view().subrange(0, i + 1 as int);
                assert(sub1.drop_last() =~= self.entries_view().subrange(0, i as int));
                assert(sub1.last() == self.entries_view()[i as int]);
            }
            if self.entries[i].0 == *name {
                return Some(&self.entries[i].1);
            }
        }
        proof {
            assert(self.entries_view().subrange(0, 0) =~= Seq::<(Seq<char>, Seq<char>)>::empty());
        }
        None
    }
}

/// The entries pass 1 gathers from one node and everything below it, in
/// document order. A definition's body is rendered with an empty footnote
/// map and default context, then trimmed; the walk also descends into
/// definition bodies.
pub open spec fn collect_node_spec(n: Node, base: Seq<char>) -> Seq<(Seq<char>, Seq<char>)>
    decreases n, 0int,
{
    match n {
        Node::FootnoteDefinition { name, children } => seq![
            (
                name@,
                trim_spec(
                    spec_render_nodes(
                        children@,
                        false,
                        Seq::<(Seq<char>, Seq<char>)>::empty(),
                        base,
                    ),
                ),
            ),
        ] + collect_nodes_spec(children@, base),
        Node::Document { children } => collect_nodes_spec(children@, base),
        Node::Heading { children, .. } => collect_nodes_spec(children@, base),
        Node::Paragraph { children } => collect_nodes_spec(children@, base),
        Node::Emph { children } => collect_nodes_spec(children@, base),
        Node::Strong { children } => collect_nodes_spec(children@, base),
        Node::Strikethrough { children } => collect_nodes_spec(children@, base),
        Node::Link { children, .. } => collect_nodes_spec(children@, base),
        Node::Image { children, .. } => collect_nodes_spec(children@, base),
        Node::List { children, .. } => collect_nodes_spec(children@, base),
        Node::Item { children, .. } => collect_nodes_spec(children@, base),
        Node::TaskItem { children, .. } => collect_nodes_spec(children@, base),
        Node::BlockQuote { children } => collect_nodes_spec(children@, base),
        Node::Table { children, .. } => collect_nodes_spec(children@, base),
        Node::TableRow { children, .. } => collect_nodes_spec(children@, base),
        Node::TableCell { children } => collect_nodes_spec(children@, base),
        Node::Other { children } => collect_nodes_spec(children@, base),
        _ => Seq::empty(),
    }
}

/// The entries of a sequence of siblings, left to right.
pub open spec fn collect_nodes_spec(ns: Seq<Node>, base: Seq<char>) -> Seq<(Seq<char>, Seq<char>)>
    decreases ns, 1int,
{
    if ns.len() == 0 {
        Seq::empty()
    } else {
        collect_nodes_spec(ns.drop_last(), base) + collect_node_spec(ns.last(), base)
    }
}

/// Whether the tree at `n` holds a footnote definition named `name`,
/// at any depth.
pub open spec fn tree_defines(n: Node, name: Seq<char>) -> bool
    decreases n, 0int,
{
    match n {
        Node::FootnoteDefinition { name: dn, children } => dn@ == name || nodes_define(
            children@,
            name,
        ),
        Node::Document { children } => nodes_define(children@, name),
        Node::Heading { children, .. } => nodes_define(children@, name),
        Node::Paragraph { children } => nodes_define(children@, name),
        Node::Emph { children } => nodes_define(children@, name),
        Node::Strong { children } => nodes_define(children@, name),
        Node::Strikethrough { children } => nodes_define(children@, name),
        Node::Link { children, .. } => nodes_define(children@, name),
        Node::Image { children, .. } => nodes_define(children@, name),
        Node::List { children, .. } => nodes_define(children@, name),
        Node::Item { children, .. } => nodes_define(children@, name),
        Node::TaskItem { children, .. } => nodes_define(children@, name),
        Node::BlockQuote { children } => nodes_define(children@, name),
        Node::Table { children, .. } => nodes_define(children@, name),
        Node::TableRow { children, .. } => nodes_define(children@, name),
        Node::TableCell { children } => nodes_define(children@, name),
        Node::Other { children } => nodes_define(children@, name),
        _ => false,
    }
}

/// Whether any node of `ns` holds a definition of `name`.
pub open spec fn nodes_define(ns: Seq<Node>, name: Seq<char>) -> bool
    decreases ns, 1int,
{
    if ns.len() == 0 {
        false
    } else {
        nodes_define(ns.drop_last(), name) || tree_defines(ns.last(), name)
    }
}

/// Pass 1: walks the whole tree and returns the footnote map.
pub fn collect_footnotes(root: &Node, base_dir: &Vec<char>) -> (m: FootnoteMap)
    ensures
        m.entries_view() == collect_node_spec(*root, base_dir@),
{
    let mut m = FootnoteMap::new();
    collect_node(root, base_dir, &mut m);
    proof {
        assert(m.entries_view() =~= collect_node_spec(*root, base_dir@));
    }
    m
}

fn collect_node(n: &Node, base_dir: &Vec<char>, m: &mut FootnoteMap)
    ensures
        final(m).entries_view() == old(m).entries_view() + collect_node_spec(*n, base_dir@),
    decreases *n, 0int,
{
    match n {
        Node::FootnoteDefinition { name, children } => {
            let empty_map = FootnoteMap::new();
            let mut body: Vec<char> = Vec::new();
            render_children(children, false, &empty_map, base_dir, &mut body);
            let trimmed = trim_chars(&body);
            let body_string = chars_to_string(&trimmed);
            m.insert(name.clone(), body_string);
            collect_nodes(children, base_dir, m);
            proof {
                assert(m.entries_view() =~= old(m).entries_view() + collect_node_spec(
                    *n,
                    base_dir@,
                ));
            }
        },
        Node::Document { children } => collect_nodes(children, base_dir, m),
        Node::Heading { children, .. } => collect_nodes(children, base_dir, m),
        Node::Paragraph { children } => collect_nodes(children, base_dir, m),
        Node::Emph { children } => collect_nodes(children, base_dir, m),
        Node::Strong { children } => collect_nodes(children, base_dir, m),
        Node::Strikethrough { children } => collect_nodes(children, base_dir, m),
        Node::Link { children, .. } => collect_nodes(children, base_dir, m),
        Node::Image { children, .. } => collect_nodes(children, base_dir, m),
        Node::List { children, .. } => collect_nodes(children, base_dir, m),
        Node::Item { children, .. } => collect_nodes(children, base_dir, m),
        Node::TaskItem { children, .. } => collect_nodes(children, base_dir, m),
        Node::BlockQuote { children } => collect_nodes(children, base_dir, m),
        Node::Table { children, .. } => collect_nodes(children, base_dir, m),
        Node::TableRow { children, .. } => collect_nodes(children, base_dir, m),
        Node::TableCell { children } => collect_nodes(children, base_dir, m),
        Node::Other { children } => collect_nodes(children, base_dir, m),
        _ => {
            proof {
                assert(m.entries_view() =~= old(m).entries_view() + collect_node_spec(
                    *n,
                    base_dir@,
                ));
            }
        },
    }
}

fn collect_nodes(ns: &Vec<Node>, base_dir: &Vec<char>, m: &mut FootnoteMap)
    ensures
        final(m).entries_view() == old(m).entries_view() + collect_nodes_spec(ns@, base_dir@),
    decreases ns@, 1int,
{
    let mut i: usize = 0;
    proof {
        assert(m.entries_view() =~= old(m).entries_view() + collect_nodes_spec(
            ns@.subrange(0, 0),
            base_dir@,
        ));
    }
    while i < ns.len()
        invariant
            i <= ns@.len(),
            m.entries_view() == old(m).entries_view() + collect_nodes_spec(
                ns@.subrange(0, i as int),
                base_dir@,
            ),
        decreases ns@.len() - i, 0int,
    {
        collect_node(&ns[i], base_dir, m);
        proof {
            assert(ns@.subrange(0, i + 1 as int).drop_last() =~= ns@.subrange(0, i as int));
            assert(ns@.subrange(0, i + 1 as int).last() == ns@[i as int]);
            assert(m.entries_view() =~= old(m).entries_view() + collect_nodes_spec(
                ns@.subrange(0, i + 1 as int),
                base_dir@,
            ));
        }
        i = i + 1;
    }
    proof {
        assert(ns@.subrange(0, ns@.len() as int) =~= ns@);
    }
}

} // verus!
