//! The recently-opened lists: the pure rule that moves a path to the
//! front, drops its older occurrence, and keeps at most five entries.
//! Loading and saving the lists stays with the caller.
use vstd::prelude::*;

use crate::text::str_views;

verus! {

/// The recently opened files and folders, newest first.
pub struct RecentData {
    pub recent_files: Vec<String>,
    pub recent_folders: Vec<String>,
}

/// `list` with every occurrence of `path` removed, in order.
pub open spec fn without_path(list: Seq<Seq<char>>, path: Seq<char>) -> Seq<Seq<char>>
    decreases list.len(),
{
    if list.len() == 0 {
        Seq::empty()
    } else {
        without_path(list.drop_last(), path) + (if list.last() == path {
            Seq::<Seq<char>>::empty()
        } else {
            seq![list.last()]
        })
    }
}

/// What adding a path to a recents list yields: the path in front, its
/// older occurrences gone, and at most five entries kept.
pub open spec fn add_to_list_spec(list: Seq<Seq<char>>, path: Seq<char>) -> Seq<Seq<char>> {
    let full = seq![path] + without_path(list, path);
    full.take(
        if full.len() < 5 {
            full.len() as int
        } else {
            5
        },
    )
}

/// Moves `path` to the front of `list`, removing any older occurrence
/// and keeping at most five entries.
pub fn add_to_list(list: &mut Vec<String>, path: String)
    ensures
        str_views(final(list)@) == add_to_list_spec(str_views(old(list)@), path@),
{
    let ghost p = path@;
    let ghost old_views = str_views(list@);
    let mut result: Vec<String> = Vec::new();
    result.push(path);
    proof {
        assert(str_views(result@) =~= seq![p]);
    }
    let mut i: usize = 0;
    while i < list.len()
        invariant
            i <= list@.len(),
            old_views == str_views(list@),
            str_views(result@) == seq![p] + without_path(old_views.subrange(0, i as int), p),
        decreases list@.len() - i,
    {
        proof {
            let sub1 = old_views.subrange(0, i + 1 as int);
            assert(sub1.drop_last() =~= old_views.subrange(0, i as int));
            assert(sub1.last() == old_views[i as int]);
        }
        proof {
            assert(str_views(result@).len() == result@.len());
            assert(str_views(result@)[0] == result@[0]@);
            assert(result@[0]@ == p);
        }
        if !string_eq(&list[i], &result[0]) {
            let ghost before = result@;
            let kept = clone_string(&list[i]);
            result.push(kept);
            proof {
                assert(str_views(result@) =~= str_views(before).push(old_views[i as int]));
                assert(str_views(result@) =~= seq![p] + without_path(
                    old_views.subrange(0, i + 1 as int),
                    p,
                ));
            }
        } else {
            proof {
                assert(str_views(result@) =~= seq![p] + without_path(
                    old_views.subrange(0, i + 1 as int),
                    p,
                ));
            }
        }
        i = i + 1;
    }
    proof {
        assert(old_views.subrange(0, old_views.len() as int) =~= old_views);
    }
    let ghost full = seq![p] + without_path(old_views, p);
    proof {
        assert(str_views(result@).len() == result@.len());
        assert(str_views(result@) =~= full.take(result@.len() as int));
    }
    while result.len() > 5
        invariant
            result@.len() <= full.len(),
            result@.len() >= 5 || result@.len() == full.len(),
            str_views(result@) == full.take(result@.len() as int),
        decreases result@.len(),
    {
        let ghost before = result@;
        let _dropped = result.pop();
        proof {
            assert(str_views(result@) =~= str_views(before).drop_last());
            assert(full.take(before.len() as int).drop_last() =~= full.take(before.len() - 1));
        }
    }
    proof {
        assert(str_views(result@) =~= add_to_list_spec(old_views, p));
    }
    *list = result;
}

/// A path shown in the recents menu: the home directory prefix, when it
/// is one, becomes a tilde. The home directory's value is the caller's.
pub fn abbreviate_home(path: &str, home: &str) -> (r: String)
    ensures
        r@ == if crate::text::starts_with_spec(path@, home@) {
            "~"@ + path@.skip(home@.len() as int)
        } else {
            path@
        },
{
    let pv = crate::text::chars_of_str(path);
    if crate::text::chars_start_with(&pv, home) {
        let mut out: Vec<char> = Vec::new();
        crate::text::append_str(&mut out, "~");
        let hv = crate::text::chars_of_str(home);
        let rest = crate::text::chars_range(&pv, hv.len(), pv.len());
        crate::text::append_chars(&mut out, &rest);
        proof {
            assert(rest@ =~= path@.skip(home@.len() as int));
        }
        crate::text::chars_to_string(&out)
    } else {
        let mut out: Vec<char> = Vec::new();
        crate::text::append_chars(&mut out, &pv);
        crate::text::chars_to_string(&out)
    }
}

fn string_eq(a: &String, b: &String) -> (r: bool)
    ensures
        r == (a@ == b@),
{
    *a == *b
}

fn clone_string(s: &String) -> (r: String)
    ensures
        r@ == s@,
{
    s.clone()
}

} // verus!
