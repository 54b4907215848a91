//! The escaper: raw text runs become markup-safe text by putting a single
//! backslash before each character that carries meaning in the target
//! markup language.
use vstd::prelude::*;

use crate::text::append_str;
use crate::text::chars_of_str;
use crate::text::chars_to_string;

verus! {

/// The characters that must be escaped when they occur in raw text.
pub open spec fn is_special_char(c: char) -> bool {
    c == '#' || c == '*' || c == '_' || c == '@' || c == '$' || c == '<' || c == '>' || c == '\\'
}

pub fn special_char(c: char) -> (r: bool)
    ensures
        r == is_special_char(c),
{
    c == '#' || c == '*' || c == '_' || c == '@' || c == '$' || c == '<' || c == '>' || c == '\\'
}

pub open spec fn escape_char_spec(c: char) -> Seq<char> {
    if is_special_char(c) {
        seq!['\\', c]
    } else {
        seq![c]
    }
}

/// What the escaper makes of a raw text run: each special character is
/// preceded by one backslash, all other characters pass through unchanged.
pub open spec fn escape_spec(s: Seq<char>) -> Seq<char>
    decreases s.len(),
{
    if s.len() == 0 {
        Seq::empty()
    } else {
        escape_spec(s.drop_last()) + escape_char_spec(s.last())
    }
}

/// The number of special characters in `s`.
pub open spec fn count_specials(s: Seq<char>) -> nat
    decreases s.len(),
{
    if s.len() == 0 {
        0
    } else {
        count_specials(s.drop_last()) + if is_special_char(s.last()) {
            1nat
        } else {
            0nat
        }
    }
}

/// Appends the escaped form of `v` to `out`.
pub fn escape_into(out: &mut Vec<char>, v: &Vec<char>)
    ensures
        final(out)@ == old(out)@ + escape_spec(v@),
{
    let n = v.len();
    let mut i: usize = 0;
    while i < n
        invariant
            n == v@.len(),
            i <= n,
            out@ == old(out)@ + escape_spec(v@.subrange(0, i as int)),
        decreases n - i,
    {
        let c = v[i];
        if special_char(c) {
            out.push('\\');
        }
        out.push(c);
        proof {
            let pre = v@.subrange(0, i + 1 as int);
            assert(pre.drop_last() =~= v@.subrange(0, i as int));
            assert(pre.last() == v@[i as int]);
            assert(out@ =~= old(out)@ + escape_spec(pre));
        }
        i = i + 1;
    }
    proof {
        assert(v@.subrange(0, n as int) =~= v@);
    }
}

/// Escapes the characters that have special meaning in the target markup.
pub fn escape_typst(text: &str) -> (r: String)
    ensures
        r@ == escape_spec(text@),
{
    let v = chars_of_str(text);
    let mut out: Vec<char> = Vec::new();
    escape_into(&mut out, &v);
    chars_to_string(&out)
}

/// The strict inverse of the escaper: it accepts a text only if every
/// special character in it stands directly after a backslash that escapes
/// nothing else, and it returns the text with those backslashes removed.
pub open spec fn unescape_spec(t: Seq<char>) -> Option<Seq<char>>
    decreases t.len(),
{
    if t.len() == 0 {
        Some(Seq::empty())
    } else if t[0] == '\\' {
        if t.len() >= 2 && is_special_char(t[1]) {
            match unescape_spec(t.subrange(2, t.len() as int)) {
                Some(r) => Some(seq![t[1]] + r),
                None => None,
            }
        } else {
            None
        }
    } else if is_special_char(t[0]) {
        None
    } else {
        match unescape_spec(t.drop_first()) {
            Some(r) => Some(seq![t[0]] + r),
            None => None,
        }
    }
}

pub proof fn lemma_escape_unfold_left(s: Seq<char>)
    requires
        s.len() > 0,
    ensures
        escape_spec(s) == escape_char_spec(s[0]) + escape_spec(s.drop_first()),
    decreases s.len(),
{
    if s.len() == 1 {
        assert(s.drop_last() =~= Seq::<char>::empty());
        assert(s.drop_first() =~= Seq::<char>::empty());
        assert(escape_spec(s) =~= escape_char_spec(s[0]) + escape_spec(s.drop_first()));
    } else {
        lemma_escape_unfold_left(s.drop_last());
        assert(s.drop_last()[0] == s[0]);
        assert(s.drop_last().drop_first() =~= s.drop_first().drop_last());
        assert(s.drop_first().last() == s.last());
        assert(escape_char_spec(s[0]) + (escape_spec(s.drop_first().drop_last())
            + escape_char_spec(s.last())) =~= (escape_char_spec(s[0]) + escape_spec(
            s.drop_first().drop_last(),
        )) + escape_char_spec(s.last()));
    }
}

/// Escaping is reversible: running the strict inverse over an escaped text
/// recovers the original exactly. Together with `lemma_escape_len` this
/// says that every special character of the input appears in the output
/// exactly once, preceded by exactly one backslash, and that nothing else
/// is added, dropped or reordered.
pub proof fn lemma_escape_round_trip(s: Seq<char>)
    ensures
        unescape_spec(escape_spec(s)) == Some(s),
    decreases s.len(),
{
    if s.len() == 0 {
    } else {
        lemma_escape_round_trip(s.drop_first());
        lemma_escape_unfold_left(s);
        let t = escape_spec(s);
        let rest = escape_spec(s.drop_first());
        if is_special_char(s[0]) {
            assert(t =~= seq!['\\', s[0]] + rest);
            assert(t[0] == '\\');
            assert(t.len() >= 2 && is_special_char(t[1]));
            assert(t.subrange(2, t.len() as int) =~= rest);
            assert(seq![t[1]] + s.drop_first() =~= s);
        } else {
            assert(t =~= seq![s[0]] + rest);
            assert(t[0] != '\\' && !is_special_char(t[0]));
            assert(t.drop_first() =~= rest);
            assert(seq![t[0]] + s.drop_first() =~= s);
        }
    }
}

/// The escaped text is longer than the input by exactly one character per
/// special character of the input: each gains one backslash.
pub proof fn lemma_escape_len(s: Seq<char>)
    ensures
        escape_spec(s).len() == s.len() + count_specials(s),
    decreases s.len(),
{
    if s.len() > 0 {
        lemma_escape_len(s.drop_last());
    }
}

/// The escaper keeps the first character, or puts a backslash before it.
pub proof fn lemma_escape_first(s: Seq<char>)
    requires
        s.len() > 0,
    ensures
        escape_spec(s).len() > 0,
        escape_spec(s)[0] == '\\' || escape_spec(s)[0] == s[0],
{
    lemma_escape_unfold_left(s);
}

/// The escaper keeps the last character in place.
pub proof fn lemma_escape_last(s: Seq<char>)
    requires
        s.len() > 0,
    ensures
        escape_spec(s).len() > 0,
        escape_spec(s).last() == s.last(),
{
    lemma_escape_len(s);
}

/// Every character of the escaped text is a backslash or was already in
/// the input: the escaper invents nothing else.
pub proof fn lemma_escape_chars(s: Seq<char>)
    ensures
        forall|i: int|
            0 <= i < escape_spec(s).len() ==> (escape_spec(s)[i] == '\\'
                || crate::text::seq_contains_char(s, escape_spec(s)[i])),
    decreases s.len(),
{
    if s.len() > 0 {
        lemma_escape_chars(s.drop_last());
        let e = escape_spec(s);
        let ed = escape_spec(s.drop_last());
        assert forall|i: int| 0 <= i < e.len() implies (e[i] == '\\' || crate::text::seq_contains_char(
            s,
            e[i],
        )) by {
            if i < ed.len() {
                assert(e[i] == ed[i]);
                if ed[i] != '\\' {
                    let j = choose|j: int|
                        0 <= j < s.drop_last().len() && s.drop_last()[j] == ed[i];
                    assert(s[j] == ed[i]);
                }
            } else {
                assert(e[i] == escape_char_spec(s.last())[i - ed.len()]);
                if e[i] != '\\' {
                    assert(e[i] == s.last());
                    assert(s[s.len() - 1] == e[i]);
                }
            }
        }
    }
}

/// A text without special characters is left untouched by the escaper; in
/// particular the markup the renderer builds around escaped text is never
/// escaped again.
pub proof fn lemma_escape_plain(s: Seq<char>)
    requires
        forall|i: int| 0 <= i < s.len() ==> !is_special_char(s[i]),
    ensures
        escape_spec(s) == s,
    decreases s.len(),
{
    if s.len() > 0 {
        lemma_escape_plain(s.drop_last());
        assert(escape_spec(s) =~= s);
    }
}

} // verus!
