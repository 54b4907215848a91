//! The line-level diff view of two texts. The diff itself comes from the
//! `similar` crate; everything after it — the tag words, the running line
//! numbers and the addition/deletion counts — is computed here and
//! verified against the change list the crate hands back.
use vstd::prelude::*;

use crate::text::append_str;
use crate::text::chars_to_string;

verus! {

/// One line of a diff view: its kind, its text, and its line number on
/// each side where it has one.
pub struct DiffLine {
    pub tag: String,
    pub content: String,
    pub old_line: Option<usize>,
    pub new_line: Option<usize>,
}

/// A whole diff view with its addition and deletion counts.
pub struct DiffResult {
    pub lines: Vec<DiffLine>,
    pub additions: usize,
    pub deletions: usize,
}

/// The change list `line_diff` returns for a given pair of texts: one
/// entry per line, tagged 0 (equal), 1 (deleted) or 2 (inserted).
pub uninterp spec fn line_diff_of(old: Seq<char>, new: Seq<char>) -> Seq<(u8, Seq<char>)>;

pub open spec fn changes_view(v: Seq<(u8, String)>) -> Seq<(u8, Seq<char>)> {
    v.map_values(|p: (u8, String)| (p.0, p.1@))
}

/// The old text as the change list tells it: every entry not tagged as
/// an insertion, in order.
pub open spec fn old_side(cs: Seq<(u8, Seq<char>)>) -> Seq<char>
    decreases cs.len(),
{
    if cs.len() == 0 {
        Seq::empty()
    } else {
        old_side(cs.drop_last()) + (if cs.last().0 != 2 {
            cs.last().1
        } else {
            Seq::empty()
        })
    }
}

/// The new text as the change list tells it: every entry not tagged as
/// a deletion, in order.
pub open spec fn new_side(cs: Seq<(u8, Seq<char>)>) -> Seq<char>
    decreases cs.len(),
{
    if cs.len() == 0 {
        Seq::empty()
    } else {
        new_side(cs.drop_last()) + (if cs.last().0 != 1 {
            cs.last().1
        } else {
            Seq::empty()
        })
    }
}

/// How many entries carry tag `t`.
pub open spec fn count_tag(cs: Seq<(u8, Seq<char>)>, t: u8) -> int
    decreases cs.len(),
{
    if cs.len() == 0 {
        0
    } else {
        count_tag(cs.drop_last(), t) + (if cs.last().0 == t {
            1int
        } else {
            0int
        })
    }
}

/// How many entries belong to the old side (tag 0 or 1).
pub open spec fn count_old(cs: Seq<(u8, Seq<char>)>) -> int
    decreases cs.len(),
{
    if cs.len() == 0 {
        0
    } else {
        count_old(cs.drop_last()) + (if cs.last().0 != 2 {
            1int
        } else {
            0int
        })
    }
}

/// How many entries belong to the new side (tag 0 or 2).
pub open spec fn count_new(cs: Seq<(u8, Seq<char>)>) -> int
    decreases cs.len(),
{
    if cs.len() == 0 {
        0
    } else {
        count_new(cs.drop_last()) + (if cs.last().0 != 1 {
            1int
        } else {
            0int
        })
    }
}

/// Relies on `similar::TextDiff::from_lines` and `iter_all_changes`:
/// the texts are split into lines (line endings kept, every line
/// non-empty), and the changes yield every line of the old text exactly
/// once — tagged equal or delete — and every line of the new text
/// exactly once — tagged equal or insert — each side in order. The diff
/// is a function of the two texts alone.
#[verifier::external_body]
fn line_diff(old: &str, new: &str) -> (r: Vec<(u8, String)>)
    ensures
        changes_view(r@) == line_diff_of(old@, new@),
        forall|i: int|
            0 <= i < r@.len() ==> (#[trigger] r@[i].0 == 0 || r@[i].0 == 1 || r@[i].0 == 2),
        forall|i: int| 0 <= i < r@.len() ==> (#[trigger] r@[i].1)@.len() > 0,
        old_side(changes_view(r@)) == old@,
        new_side(changes_view(r@)) == new@,
{
    let diff = similar::TextDiff::from_lines(old, new);
    let mut out: Vec<(u8, String)> = Vec::new();
    for change in diff.iter_all_changes() {
        let tag: u8 = match change.tag() {
            similar::ChangeTag::Equal => 0,
            similar::ChangeTag::Delete => 1,
            similar::ChangeTag::Insert => 2,
        };
        out.push((tag, change.value().to_string()));
    }
    out
}

proof fn lemma_count_le_side_len(cs: Seq<(u8, Seq<char>)>)
    requires
        forall|i: int| 0 <= i < cs.len() ==> (#[trigger] cs[i].1).len() > 0,
    ensures
        0 <= count_old(cs) <= old_side(cs).len(),
        0 <= count_new(cs) <= new_side(cs).len(),
    decreases cs.len(),
{
    if cs.len() > 0 {
        lemma_count_le_side_len(cs.drop_last());
    }
}

proof fn lemma_counts_step(cs: Seq<(u8, Seq<char>)>, i: int, t: u8)
    requires
        0 <= i < cs.len(),
    ensures
        count_tag(cs.subrange(0, i + 1), t) == count_tag(cs.subrange(0, i), t) + (if cs[i].0
            == t {
            1int
        } else {
            0int
        }),
        count_old(cs.subrange(0, i + 1)) == count_old(cs.subrange(0, i)) + (if cs[i].0 != 2 {
            1int
        } else {
            0int
        }),
        count_new(cs.subrange(0, i + 1)) == count_new(cs.subrange(0, i)) + (if cs[i].0 != 1 {
            1int
        } else {
            0int
        }),
{
    assert(cs.subrange(0, i + 1).drop_last() =~= cs.subrange(0, i));
    assert(cs.subrange(0, i + 1).last() == cs[i]);
}

proof fn lemma_counts_prefix_le(cs: Seq<(u8, Seq<char>)>, i: int)
    requires
        0 <= i <= cs.len(),
    ensures
        count_old(cs.subrange(0, i)) <= count_old(cs),
        count_new(cs.subrange(0, i)) <= count_new(cs),
        count_tag(cs.subrange(0, i), 1u8) <= count_old(cs),
        count_tag(cs.subrange(0, i), 2u8) <= count_new(cs),
    decreases cs.len() - i,
{
    if i == cs.len() {
        assert(cs.subrange(0, i) =~= cs);
        lemma_count_tag_le(cs);
    } else {
        lemma_counts_prefix_le(cs, i + 1);
        lemma_counts_step(cs, i, 1u8);
        lemma_counts_step(cs, i, 2u8);
    }
}

proof fn lemma_count_tag_le(cs: Seq<(u8, Seq<char>)>)
    ensures
        count_tag(cs, 1u8) <= count_old(cs),
        count_tag(cs, 2u8) <= count_new(cs),
    decreases cs.len(),
{
    if cs.len() > 0 {
        lemma_count_tag_le(cs.drop_last());
    }
}

/// The word the diff view uses for one tag.
pub open spec fn tag_word(t: u8) -> Seq<char> {
    if t == 1 {
        "delete"@
    } else if t == 2 {
        "insert"@
    } else {
        "equal"@
    }
}

/// Computes the line-level diff view of two texts: one entry per change
/// with its tag word, its text, its one-based line number on each side
/// it belongs to, and the totals of inserted and deleted lines.
pub fn compute_diff(old_text: &str, new_text: &str) -> (r: DiffResult)
    requires
        old_text@.len() < usize::MAX - 1,
        new_text@.len() < usize::MAX - 1,
    ensures
        ({
            let cs = line_diff_of(old_text@, new_text@);
            &&& r.lines@.len() == cs.len()
            &&& forall|i: int|
                0 <= i < cs.len() ==> {
                    &&& (#[trigger] r.lines@[i]).tag@ == tag_word(cs[i].0)
                    &&& r.lines@[i].content@ == cs[i].1
                    &&& r.lines@[i].old_line == (if cs[i].0 == 2 {
                        Option::<usize>::None
                    } else {
                        Option::<usize>::Some((1 + count_old(cs.subrange(0, i))) as usize)
                    })
                    &&& r.lines@[i].new_line == (if cs[i].0 == 1 {
                        Option::<usize>::None
                    } else {
                        Option::<usize>::Some((1 + count_new(cs.subrange(0, i))) as usize)
                    })
                }
            &&& r.additions == count_tag(cs, 2u8)
            &&& r.deletions == count_tag(cs, 1u8)
        }),
{
    let changes = line_diff(old_text, new_text);
    let ghost cs = line_diff_of(old_text@, new_text@);
    proof {
        assert(cs.len() == changes@.len());
        assert(forall|i: int|
            0 <= i < changes@.len() ==> cs[i] == (#[trigger] changes@[i].0, changes@[i].1@));
        assert(forall|i: int| 0 <= i < cs.len() ==> (#[trigger] cs[i].1).len() > 0) by {
            assert(forall|i: int|
                0 <= i < changes@.len() ==> (#[trigger] changes@[i].1)@.len() > 0);
        }
        lemma_count_le_side_len(cs);
    }
    let mut lines: Vec<DiffLine> = Vec::new();
    let mut additions: usize = 0;
    let mut deletions: usize = 0;
    let mut old_line: usize = 1;
    let mut new_line: usize = 1;
    let mut i: usize = 0;
    proof {
        assert(cs.subrange(0, 0) =~= Seq::<(u8, Seq<char>)>::empty());
    }
    while i < changes.len()
        invariant
            cs == line_diff_of(old_text@, new_text@),
            cs.len() == changes@.len(),
            forall|k: int|
                0 <= k < changes@.len() ==> cs[k] == (#[trigger] changes@[k].0, changes@[k].1@),
            forall|k: int| 0 <= k < cs.len() ==> (#[trigger] cs[k].1).len() > 0,
            forall|k: int|
                0 <= k < changes@.len() ==> (#[trigger] changes@[k].0 == 0 || changes@[k].0 == 1
                    || changes@[k].0 == 2),
            0 <= count_old(cs) <= old_side(cs).len(),
            0 <= count_new(cs) <= new_side(cs).len(),
            old_side(cs).len() == old_text@.len() < usize::MAX - 1,
            new_side(cs).len() == new_text@.len() < usize::MAX - 1,
            i <= cs.len(),
            lines@.len() == i as int,
            additions == count_tag(cs.subrange(0, i as int), 2u8),
            deletions == count_tag(cs.subrange(0, i as int), 1u8),
            old_line == 1 + count_old(cs.subrange(0, i as int)),
            new_line == 1 + count_new(cs.subrange(0, i as int)),
            forall|k: int|
                0 <= k < i ==> {
                    &&& (#[trigger] lines@[k]).tag@ == tag_word(cs[k].0)
                    &&& lines@[k].content@ == cs[k].1
                    &&& lines@[k].old_line == (if cs[k].0 == 2 {
                        Option::<usize>::None
                    } else {
                        Option::<usize>::Some((1 + count_old(cs.subrange(0, k))) as usize)
                    })
                    &&& lines@[k].new_line == (if cs[k].0 == 1 {
                        Option::<usize>::None
                    } else {
                        Option::<usize>::Some((1 + count_new(cs.subrange(0, k))) as usize)
                    })
                },
        decreases changes@.len() - i,
    {
        proof {
            lemma_counts_prefix_le(cs, i + 1 as int);
            lemma_counts_step(cs, i as int, 1u8);
            lemma_counts_step(cs, i as int, 2u8);
        }
        let tag_num = changes[i].0;
        let mut content: Vec<char> = Vec::new();
        append_str(&mut content, changes[i].1.as_str());
        let mut tag: Vec<char> = Vec::new();
        let ol: Option<usize>;
        let nl: Option<usize>;
        if tag_num == 1 {
            append_str(&mut tag, "delete");
            ol = Some(old_line);
            nl = None;
            deletions = deletions + 1;
            old_line = old_line + 1;
        } else if tag_num == 2 {
            append_str(&mut tag, "insert");
            ol = None;
            nl = Some(new_line);
            additions = additions + 1;
            new_line = new_line + 1;
        } else {
            append_str(&mut tag, "equal");
            ol = Some(old_line);
            nl = Some(new_line);
            old_line = old_line + 1;
            new_line = new_line + 1;
        }
        lines.push(
            DiffLine {
                tag: chars_to_string(&tag),
                content: chars_to_string(&content),
                old_line: ol,
                new_line: nl,
            },
        );
        i = i + 1;
    }
    proof {
        assert(cs.subrange(0, cs.len() as int) =~= cs);
    }
    DiffResult { lines, additions, deletions }
}

} // verus!
