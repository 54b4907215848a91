//! Line handling: splitting a text on newlines, `str::lines` semantics
//! (trailing newline dropped, a carriage return before each newline
//! stripped), joining lines back, and the continuation indentation that
//! keeps a multi-line list item one item.
use vstd::prelude::*;

use crate::text::append_chars;
use crate::text::append_str;
use crate::text::chars_of_str;
use crate::text::chars_to_string;

verus! {

/// The views of a sequence of character vectors.
pub open spec fn views(parts: Seq<Vec<char>>) -> Seq<Seq<char>> {
    parts.map_values(|x: Vec<char>| x@)
}

/// Plain split on `'\n'`: one part more than there are newlines.
pub open spec fn split_lines_spec(s: Seq<char>) -> Seq<Seq<char>>
    decreases s.len(),
{
    if s.len() == 0 {
        seq![Seq::empty()]
    } else {
        let r = split_lines_spec(s.drop_last());
        if s.last() == '\n' {
            r.push(Seq::empty())
        } else {
            r.update(r.len() - 1, r.last().push(s.last()))
        }
    }
}

pub proof fn lemma_split_lines_nonempty(s: Seq<char>)
    ensures
        split_lines_spec(s).len() >= 1,
    decreases s.len(),
{
    if s.len() > 0 {
        lemma_split_lines_nonempty(s.drop_last());
    }
}

pub open spec fn strip_cr_spec(l: Seq<char>) -> Seq<char> {
    if l.len() > 0 && l.last() == '\r' {
        l.drop_last()
    } else {
        l
    }
}

/// What `str::lines` yields: no line for the empty text, the trailing
/// newline opens no further line, and a carriage return that ends a line
/// is stripped.
pub open spec fn lines_spec(s: Seq<char>) -> Seq<Seq<char>> {
    if s.len() == 0 {
        Seq::empty()
    } else {
        let parts = if s.last() == '\n' {
            split_lines_spec(s.drop_last())
        } else {
            split_lines_spec(s)
        };
        parts.map_values(|l: Seq<char>| strip_cr_spec(l))
    }
}

/// Joins parts with single newlines; the inverse of the plain split.
pub open spec fn join_lines_spec(parts: Seq<Seq<char>>) -> Seq<char>
    decreases parts.len(),
{
    if parts.len() == 0 {
        Seq::empty()
    } else if parts.len() == 1 {
        parts[0]
    } else {
        join_lines_spec(parts.drop_last()) + seq!['\n'] + parts.last()
    }
}

/// Every line after the first, if non-empty, indented by `prefix`.
pub open spec fn indent_spec(s: Seq<char>, prefix: Seq<char>) -> Seq<char> {
    join_lines_spec(
        lines_spec(s).map(
            |i: int, l: Seq<char>|
                if i > 0 && l.len() > 0 {
                    prefix + l
                } else {
                    l
                },
        ),
    )
}

/// Splits the first `end` characters of `v` on newlines.
pub fn split_to_lines(v: &Vec<char>, end: usize) -> (parts: Vec<Vec<char>>)
    requires
        end <= v@.len(),
    ensures
        views(parts@) == split_lines_spec(v@.subrange(0, end as int)),
{
    let mut parts: Vec<Vec<char>> = Vec::new();
    let mut cur: Vec<char> = Vec::new();
    let mut i: usize = 0;
    proof {
        assert(v@.subrange(0, 0) =~= Seq::<char>::empty());
        assert(views(parts@).push(cur@) =~= split_lines_spec(v@.subrange(0, 0)));
    }
    while i < end
        invariant
            end <= v@.len(),
            i <= end,
            views(parts@).push(cur@) == split_lines_spec(v@.subrange(0, i as int)),
        decreases end - i,
    {
        let c = v[i];
        proof {
            let pre = v@.subrange(0, i + 1 as int);
            assert(pre.drop_last() =~= v@.subrange(0, i as int));
            assert(pre.last() == v@[i as int]);
        }
        if c == '\n' {
            let ghost old_parts = parts@;
            let ghost old_cur = cur@;
            parts.push(cur);
            cur = Vec::new();
            proof {
                assert(views(parts@) =~= views(old_parts).push(old_cur));
                assert(views(parts@).push(cur@) =~= split_lines_spec(
                    v@.subrange(0, i + 1 as int),
                ));
            }
        } else {
            let ghost old_cur = cur@;
            cur.push(c);
            proof {
                let prev = split_lines_spec(v@.subrange(0, i as int));
                assert(prev.last() == old_cur);
                assert(views(parts@).push(cur@) =~= prev.update(
                    prev.len() - 1,
                    old_cur.push(v@[i as int]),
                ));
            }
        }
        i = i + 1;
    }
    parts.push(cur);
    proof {
        assert(views(parts@) =~= split_lines_spec(v@.subrange(0, end as int)));
    }
    parts
}

/// The lines of `v`, with `str::lines` semantics.
pub fn lines_vec(v: &Vec<char>) -> (ls: Vec<Vec<char>>)
    ensures
        views(ls@) == lines_spec(v@),
{
    if v.len() == 0 {
        let ls: Vec<Vec<char>> = Vec::new();
        proof {
            assert(views(ls@) =~= lines_spec(v@));
        }
        return ls;
    }
    let raw = if v[v.len() - 1] == '\n' {
        let p = split_to_lines(v, v.len() - 1);
        proof {
            assert(v@.subrange(0, v@.len() - 1) =~= v@.drop_last());
        }
        p
    } else {
        let p = split_to_lines(v, v.len());
        proof {
            assert(v@.subrange(0, v@.len() as int) =~= v@);
        }
        p
    };
    let ghost raw_views = views(raw@);
    let mut ls: Vec<Vec<char>> = Vec::new();
    let mut i: usize = 0;
    while i < raw.len()
        invariant
            i <= raw@.len(),
            raw_views == views(raw@),
            views(ls@) == raw_views.subrange(0, i as int).map_values(
                |l: Seq<char>| strip_cr_spec(l),
            ),
        decreases raw@.len() - i,
    {
        let mut line: Vec<char> = Vec::new();
        let src = &raw[i];
        append_chars(&mut line, src);
        if line.len() > 0 && line[line.len() - 1] == '\r' {
            let _last = line.pop();
            proof {
                assert(line@ =~= strip_cr_spec(raw_views[i as int]));
            }
        }
        let ghost old_ls = ls@;
        ls.push(line);
        proof {
            assert(views(ls@) =~= views(old_ls).push(strip_cr_spec(raw_views[i as int])));
            assert(views(ls@) =~= raw_views.subrange(0, i + 1 as int).map_values(
                |l: Seq<char>| strip_cr_spec(l),
            ));
        }
        i = i + 1;
    }
    proof {
        assert(raw_views.subrange(0, raw@.len() as int) =~= raw_views);
    }
    ls
}

/// Appends to `out` the text `s` with every line after the first, if
/// non-empty, indented by `prefix`.
pub fn indent_into(out: &mut Vec<char>, s: &Vec<char>, prefix: &str)
    ensures
        final(out)@ == old(out)@ + indent_spec(s@, prefix@),
{
    let ls = lines_vec(s);
    let ghost mapped = lines_spec(s@).map(
        |i: int, l: Seq<char>|
            if i > 0 && l.len() > 0 {
                prefix@ + l
            } else {
                l
            },
    );
    let mut i: usize = 0;
    while i < ls.len()
        invariant
            i <= ls@.len(),
            views(ls@) == lines_spec(s@),
            mapped == lines_spec(s@).map(
                |i: int, l: Seq<char>|
                    if i > 0 && l.len() > 0 {
                        prefix@ + l
                    } else {
                        l
                    },
            ),
            out@ == old(out)@ + join_lines_spec(mapped.subrange(0, i as int)),
        decreases ls@.len() - i,
    {
        let ghost before = out@;
        if i == 0 {
            append_chars(out, &ls[0]);
            proof {
                assert(mapped.subrange(0, 1)[0] == mapped[0]);
                assert(mapped[0] == ls@[0]@);
                assert(join_lines_spec(mapped.subrange(0, 1)) == mapped[0]);
                assert(out@ =~= old(out)@ + join_lines_spec(mapped.subrange(0, 1)));
            }
        } else {
            out.push('\n');
            if ls[i].len() > 0 {
                append_str(out, prefix);
            }
            append_chars(out, &ls[i]);
            proof {
                let sub1 = mapped.subrange(0, i + 1 as int);
                assert(sub1.drop_last() =~= mapped.subrange(0, i as int));
                assert(sub1.last() == mapped[i as int]);
                assert(mapped[i as int] == if ls@[i as int]@.len() > 0 {
                    prefix@ + ls@[i as int]@
                } else {
                    ls@[i as int]@
                });
                assert(out@ =~= old(out)@ + join_lines_spec(sub1));
            }
        }
        i = i + 1;
    }
    proof {
        assert(mapped.subrange(0, mapped.len() as int) =~= mapped);
        if ls@.len() == 0 {
            assert(out@ =~= old(out)@ + indent_spec(s@, prefix@));
        }
    }
}

/// Indents every line after the first by `prefix`, leaving empty lines
/// bare, so that a typesetting parser treats the whole text as one
/// continuous list item.
pub fn indent_continuation(text: &str, prefix: &str) -> (r: String)
    ensures
        r@ == indent_spec(text@, prefix@),
{
    let v = chars_of_str(text);
    let mut out: Vec<char> = Vec::new();
    indent_into(&mut out, &v, prefix);
    chars_to_string(&out)
}

} // verus!
