//! The preprocessor: the one rewrite applied to raw text before parsing.
//! On any line whose start is a list-item marker followed by whitespace,
//! a `>=` directly after that whitespace gets a backslash, so the `>` is
//! not read as the start of a block quote. Everything else passes through
//! unchanged; the function is total.
use vstd::prelude::*;

use crate::lines::join_lines_spec;
use crate::lines::split_lines_spec;
use crate::lines::split_to_lines;
use crate::lines::views;
use crate::text::append_chars;
use crate::text::chars_of_str;
use crate::text::chars_to_string;
use crate::text::starts_with_spec;

verus! {

/// The blanks a line may hold around a list marker.
pub open spec fn is_line_ws(c: char) -> bool {
    c == ' ' || c == '\t'
}

pub open spec fn is_bullet_char(c: char) -> bool {
    c == '-' || c == '*' || c == '+'
}

pub open spec fn is_digit_char(c: char) -> bool {
    '0' <= c <= '9'
}

/// How many leading blanks `l` has.
pub open spec fn line_ws_len(l: Seq<char>) -> int
    decreases l.len(),
{
    if l.len() > 0 && is_line_ws(l[0]) {
        1 + line_ws_len(l.drop_first())
    } else {
        0
    }
}

/// How many leading decimal digits `l` has.
pub open spec fn digit_len(l: Seq<char>) -> int
    decreases l.len(),
{
    if l.len() > 0 && is_digit_char(l[0]) {
        1 + digit_len(l.drop_first())
    } else {
        0
    }
}

/// The length of a list-item marker standing at position `w` of `l`:
/// one bullet character, or one or more digits with a closing `.` or `)`;
/// zero if no marker stands there.
pub open spec fn marker_len_at(l: Seq<char>, w: int) -> int {
    if 0 <= w < l.len() && is_bullet_char(l[w]) {
        1
    } else {
        let d = digit_len(l.skip(w));
        if 0 <= w && d > 0 && w + d < l.len() && (l[w + d] == '.' || l[w + d] == ')') {
            d + 1
        } else {
            0
        }
    }
}

/// One line after preprocessing: if the line is blanks, a marker, at
/// least one blank, and then `>=`, a backslash is inserted before the
/// `>`; otherwise the line is unchanged.
pub open spec fn preprocess_line_spec(l: Seq<char>) -> Seq<char> {
    let w = line_ws_len(l);
    let m = marker_len_at(l, w);
    if m > 0 {
        let sp = line_ws_len(l.skip(w + m));
        if sp > 0 && starts_with_spec(l.skip(w + m + sp), ">="@) {
            l.subrange(0, w + m + sp) + seq!['\\'] + l.skip(w + m + sp)
        } else {
            l
        }
    } else {
        l
    }
}

/// The whole text with only the list-marker `>=` substitution applied,
/// line by line; newlines are kept exactly as they were.
pub open spec fn preprocess_spec(s: Seq<char>) -> Seq<char> {
    join_lines_spec(split_lines_spec(s).map_values(|l: Seq<char>| preprocess_line_spec(l)))
}

proof fn lemma_line_ws_len_at(l: Seq<char>, i: int)
    requires
        0 <= i <= l.len(),
        forall|j: int| 0 <= j < i ==> is_line_ws(l[j]),
        i == l.len() || !is_line_ws(l[i]),
    ensures
        line_ws_len(l) == i,
    decreases i,
{
    if i > 0 {
        assert(is_line_ws(l[0]));
        lemma_line_ws_len_at(l.drop_first(), i - 1);
    }
}

proof fn lemma_digit_len_at(l: Seq<char>, i: int)
    requires
        0 <= i <= l.len(),
        forall|j: int| 0 <= j < i ==> is_digit_char(l[j]),
        i == l.len() || !is_digit_char(l[i]),
    ensures
        digit_len(l) == i,
    decreases i,
{
    if i > 0 {
        assert(is_digit_char(l[0]));
        lemma_digit_len_at(l.drop_first(), i - 1);
    }
}

fn line_ws_scan(l: &Vec<char>, from: usize) -> (w: usize)
    requires
        from <= l@.len(),
    ensures
        from <= w <= l@.len(),
        line_ws_len(l@.skip(from as int)) == w - from,
    decreases l@.len() - from,
{
    let mut i: usize = from;
    while i < l.len() && (l[i] == ' ' || l[i] == '\t')
        invariant
            from <= i <= l@.len(),
            forall|j: int| from <= j < i ==> is_line_ws(l@[j]),
        decreases l@.len() - i,
    {
        i = i + 1;
    }
    proof {
        let t = l@.skip(from as int);
        assert(forall|j: int| 0 <= j < i - from ==> t[j] == l@[from + j]);
        if (i as int) < l@.len() {
            assert(t[i - from] == l@[i as int]);
        }
        lemma_line_ws_len_at(t, i - from);
    }
    i
}

fn digit_scan(l: &Vec<char>, from: usize) -> (w: usize)
    requires
        from <= l@.len(),
    ensures
        from <= w <= l@.len(),
        digit_len(l@.skip(from as int)) == w - from,
    decreases l@.len() - from,
{
    let mut i: usize = from;
    while i < l.len() && '0' <= l[i] && l[i] <= '9'
        invariant
            from <= i <= l@.len(),
            forall|j: int| from <= j < i ==> is_digit_char(l@[j]),
        decreases l@.len() - i,
    {
        i = i + 1;
    }
    proof {
        let t = l@.skip(from as int);
        assert(forall|j: int| 0 <= j < i - from ==> t[j] == l@[from + j]);
        if (i as int) < l@.len() {
            assert(t[i - from] == l@[i as int]);
        }
        lemma_digit_len_at(t, i - from);
    }
    i
}

/// Preprocesses one line, as `preprocess_line_spec` states.
fn preprocess_line(l: &Vec<char>) -> (r: Vec<char>)
    ensures
        r@ == preprocess_line_spec(l@),
{
    let w = line_ws_scan(l, 0);
    proof {
        assert(l@.skip(0) =~= l@);
    }
    let m: usize;
    if w < l.len() && (l[w] == '-' || l[w] == '*' || l[w] == '+') {
        m = 1;
    } else {
        let dend = digit_scan(l, w);
        if dend > w && dend < l.len() && (l[dend] == '.' || l[dend] == ')') {
            m = dend - w + 1;
        } else {
            m = 0;
        }
    }
    proof {
        assert(m as int == marker_len_at(l@, w as int));
    }
    if m == 0 {
        let mut r: Vec<char> = Vec::new();
        append_chars(&mut r, l);
        return r;
    }
    let sp_end = line_ws_scan(l, w + m);
    let sp = sp_end - (w + m);
    let ghost insert_at = w + m + sp;
    if sp > 0 && sp_end < l.len() && sp_end + 1 < l.len() && l[sp_end] == '>' && l[sp_end + 1]
        == '=' {
        proof {
            reveal_strlit(">=");
            let rest = l@.skip(insert_at as int);
            assert(rest[0] == l@[insert_at as int]);
            assert(rest[1] == l@[insert_at + 1]);
            assert(rest.subrange(0, 2) =~= ">="@);
        }
        let mut r: Vec<char> = Vec::new();
        let mut i: usize = 0;
        while i < sp_end
            invariant
                sp_end <= l@.len(),
                i <= sp_end,
                r@ == l@.subrange(0, i as int),
            decreases sp_end - i,
        {
            r.push(l[i]);
            proof {
                assert(l@.subrange(0, i + 1 as int) =~= l@.subrange(0, i as int).push(
                    l@[i as int],
                ));
            }
            i = i + 1;
        }
        r.push('\\');
        let mut k: usize = sp_end;
        while k < l.len()
            invariant
                sp_end <= k <= l@.len(),
                r@ == l@.subrange(0, sp_end as int) + seq!['\\'] + l@.subrange(
                    sp_end as int,
                    k as int,
                ),
            decreases l@.len() - k,
        {
            r.push(l[k]);
            proof {
                assert(l@.subrange(sp_end as int, k + 1 as int) =~= l@.subrange(
                    sp_end as int,
                    k as int,
                ).push(l@[k as int]));
                assert(r@ =~= l@.subrange(0, sp_end as int) + seq!['\\'] + l@.subrange(
                    sp_end as int,
                    k + 1 as int,
                ));
            }
            k = k + 1;
        }
        proof {
            assert(l@.subrange(sp_end as int, l@.len() as int) =~= l@.skip(sp_end as int));
            assert(r@ =~= preprocess_line_spec(l@));
        }
        r
    } else {
        proof {
            if sp > 0 && starts_with_spec(l@.skip(insert_at as int), ">="@) {
                reveal_strlit(">=");
                let rest = l@.skip(insert_at as int);
                assert(rest.subrange(0, 2)[0] == rest[0]);
                assert(rest.subrange(0, 2)[1] == rest[1]);
                assert(rest[0] == l@[insert_at as int]);
                if insert_at + 1 < l@.len() {
                    assert(rest[1] == l@[insert_at + 1]);
                }
                assert(false);
            }
        }
        let mut r: Vec<char> = Vec::new();
        append_chars(&mut r, l);
        r
    }
}

/// Rewrites `>=` directly after a list-item marker so the `>` is not
/// parsed as a block quote; all other text passes through unchanged.
pub fn preprocess_markdown(input: &str) -> (r: String)
    ensures
        r@ == preprocess_spec(input@),
{
    let v = chars_of_str(input);
    let parts = split_to_lines(&v, v.len());
    proof {
        assert(v@.subrange(0, v@.len() as int) =~= v@);
    }
    let ghost mapped = split_lines_spec(v@).map_values(|l: Seq<char>| preprocess_line_spec(l));
    let mut out: Vec<char> = Vec::new();
    let mut i: usize = 0;
    while i < parts.len()
        invariant
            i <= parts@.len(),
            views(parts@) == split_lines_spec(v@),
            mapped == split_lines_spec(v@).map_values(|l: Seq<char>| preprocess_line_spec(l)),
            out@ == join_lines_spec(mapped.subrange(0, i as int)),
        decreases parts@.len() - i,
    {
        let processed = preprocess_line(&parts[i]);
        if i > 0 {
            out.push('\n');
        }
        append_chars(&mut out, &processed);
        proof {
            let sub1 = mapped.subrange(0, i + 1 as int);
            assert(sub1.drop_last() =~= mapped.subrange(0, i as int));
            assert(sub1.last() == mapped[i as int]);
            assert(mapped[i as int] == preprocess_line_spec(parts@[i as int]@));
            if i == 0 {
                assert(join_lines_spec(sub1) == sub1[0]);
                assert(out@ =~= join_lines_spec(sub1));
            } else {
                assert(out@ =~= join_lines_spec(sub1));
            }
        }
        i = i + 1;
    }
    proof {
        assert(mapped.subrange(0, mapped.len() as int) =~= mapped);
    }
    chars_to_string(&out)
}

} // verus!
