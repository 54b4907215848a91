//! The pure side of the version-control view: converting remote URLs
//! between their SSH and web forms, describing the origin remote, and
//! wording a commit's age. Repository access stays with the caller;
//! these functions only transform the strings it hands over.
use vstd::prelude::*;

use crate::text::append_chars;
use crate::text::append_str;
use crate::text::chars_of_str;
use crate::text::chars_range;
use crate::text::chars_start_with;
use crate::text::chars_end_with;
use crate::text::chars_to_string;
use crate::text::dec_spec;
use crate::text::ends_with_spec;
use crate::text::find_char;
use crate::text::find_char_spec;
use crate::text::push_u64_dec;
use crate::text::starts_with_spec;

verus! {

/// Branch, working-tree state and origin web URL for one file.
pub struct GitStatus {
    pub is_repo: bool,
    pub branch: Option<String>,
    pub file_status: String,
    pub remote_url: Option<String>,
}

/// One commit of a file's history.
pub struct CommitInfo {
    pub oid: String,
    pub message: String,
    pub author: String,
    pub date: i64,
    pub date_relative: String,
}

/// The origin remote: its name, its URL, and its web form if one exists.
pub struct RemoteInfo {
    pub name: String,
    pub url: String,
    pub web_url: Option<String>,
}

/// `s` without a trailing `suf`, or `s` unchanged.
pub open spec fn strip_suffix_spec(s: Seq<char>, suf: Seq<char>) -> Seq<char> {
    if ends_with_spec(s, suf) {
        s.subrange(0, s.len() - suf.len())
    } else {
        s
    }
}

/// The HTTPS form of a remote URL, for token-based authentication:
/// an HTTP(S) URL is kept, an SSH URL is rewritten, anything else has
/// no HTTPS form.
pub open spec fn to_https_url_spec(u: Seq<char>) -> Option<Seq<char>> {
    if starts_with_spec(u, "https://"@) || starts_with_spec(u, "http://"@) {
        Some(u)
    } else if starts_with_spec(u, "git@"@) {
        let rest = u.skip(4);
        let i = find_char_spec(rest, ':');
        if i >= 0 {
            Some("https://"@ + rest.subrange(0, i) + "/"@ + rest.skip(i + 1))
        } else {
            None
        }
    } else if starts_with_spec(u, "ssh://"@) {
        let rest = u.skip(6);
        let rest2 = if starts_with_spec(rest, "git@"@) {
            rest.skip(4)
        } else {
            rest
        };
        Some("https://"@ + rest2)
    } else {
        None
    }
}

/// The web URL of a remote: like the HTTPS form, but with a trailing
/// `.git` removed, so it can be opened in a browser.
pub open spec fn remote_web_url_spec(u: Seq<char>) -> Option<Seq<char>> {
    if starts_with_spec(u, "git@"@) {
        let rest = u.skip(4);
        let i = find_char_spec(rest, ':');
        if i >= 0 {
            Some(
                "https://"@ + rest.subrange(0, i) + "/"@ + strip_suffix_spec(
                    rest.skip(i + 1),
                    ".git"@,
                ),
            )
        } else {
            None
        }
    } else if starts_with_spec(u, "https://"@) || starts_with_spec(u, "http://"@) {
        Some(strip_suffix_spec(u, ".git"@))
    } else if starts_with_spec(u, "ssh://"@) {
        let rest = u.skip(6);
        let rest2 = if starts_with_spec(rest, "git@"@) {
            rest.skip(4)
        } else {
            rest
        };
        Some("https://"@ + strip_suffix_spec(rest2, ".git"@))
    } else {
        None
    }
}

fn strip_dot_git(v: &Vec<char>) -> (r: Vec<char>)
    ensures
        r@ == strip_suffix_spec(v@, ".git"@),
{
    proof {
        reveal_strlit(".git");
    }
    if chars_end_with(v, ".git") {
        chars_range(v, 0, v.len() - 4)
    } else {
        let mut r: Vec<char> = Vec::new();
        append_chars(&mut r, v);
        r
    }
}

/// Converts a remote URL (SSH or HTTPS) to an HTTPS URL.
pub fn to_https_url(url: &str) -> (r: Option<String>)
    ensures
        match r {
            Some(x) => to_https_url_spec(url@) == Some(x@),
            None => to_https_url_spec(url@) is None,
        },
{
    let uv = chars_of_str(url);
    if chars_start_with(&uv, "https://") || chars_start_with(&uv, "http://") {
        let mut out: Vec<char> = Vec::new();
        append_chars(&mut out, &uv);
        Some(chars_to_string(&out))
    } else if chars_start_with(&uv, "git@") {
        proof {
            reveal_strlit("git@");
        }
        let rest = chars_range(&uv, 4, uv.len());
        proof {
            assert(rest@ =~= uv@.skip(4));
        }
        match find_char(&rest, ':') {
            Some(i) => {
                let mut out: Vec<char> = Vec::new();
                append_str(&mut out, "https://");
                let host = chars_range(&rest, 0, i);
                append_chars(&mut out, &host);
                append_str(&mut out, "/");
                let path = chars_range(&rest, i + 1, rest.len());
                append_chars(&mut out, &path);
                proof {
                    assert(path@ =~= rest@.skip(i + 1));
                }
                Some(chars_to_string(&out))
            },
            None => None,
        }
    } else if chars_start_with(&uv, "ssh://") {
        proof {
            reveal_strlit("ssh://");
            reveal_strlit("git@");
        }
        let rest = chars_range(&uv, 6, uv.len());
        proof {
            assert(rest@ =~= uv@.skip(6));
        }
        let rest2 = if chars_start_with(&rest, "git@") {
            let x = chars_range(&rest, 4, rest.len());
            proof {
                assert(x@ =~= rest@.skip(4));
            }
            x
        } else {
            rest
        };
        let mut out: Vec<char> = Vec::new();
        append_str(&mut out, "https://");
        append_chars(&mut out, &rest2);
        Some(chars_to_string(&out))
    } else {
        None
    }
}

/// Converts a remote URL to the web URL of its repository page.
pub fn get_remote_web_url(url: &str) -> (r: Option<String>)
    ensures
        match r {
            Some(x) => remote_web_url_spec(url@) == Some(x@),
            None => remote_web_url_spec(url@) is None,
        },
{
    let uv = chars_of_str(url);
    if chars_start_with(&uv, "git@") {
        proof {
            reveal_strlit("git@");
        }
        let rest = chars_range(&uv, 4, uv.len());
        proof {
            assert(rest@ =~= uv@.skip(4));
        }
        match find_char(&rest, ':') {
            Some(i) => {
                let mut out: Vec<char> = Vec::new();
                append_str(&mut out, "https://");
                let host = chars_range(&rest, 0, i);
                append_chars(&mut out, &host);
                append_str(&mut out, "/");
                let path = chars_range(&rest, i + 1, rest.len());
                proof {
                    assert(path@ =~= rest@.skip(i + 1));
                }
                let stripped = strip_dot_git(&path);
                append_chars(&mut out, &stripped);
                Some(chars_to_string(&out))
            },
            None => None,
        }
    } else if chars_start_with(&uv, "https://") || chars_start_with(&uv, "http://") {
        let stripped = strip_dot_git(&uv);
        Some(chars_to_string(&stripped))
    } else if chars_start_with(&uv, "ssh://") {
        proof {
            reveal_strlit("ssh://");
            reveal_strlit("git@");
        }
        let rest = chars_range(&uv, 6, uv.len());
        proof {
            assert(rest@ =~= uv@.skip(6));
        }
        let rest2 = if chars_start_with(&rest, "git@") {
            let x = chars_range(&rest, 4, rest.len());
            proof {
                assert(x@ =~= rest@.skip(4));
            }
            x
        } else {
            rest
        };
        let stripped = strip_dot_git(&rest2);
        let mut out: Vec<char> = Vec::new();
        append_str(&mut out, "https://");
        append_chars(&mut out, &stripped);
        Some(chars_to_string(&out))
    } else {
        None
    }
}

/// Describes the origin remote from its URL, or reports that there is
/// none. Looking the remote up in the repository stays with the caller;
/// an absent URL on an existing remote counts as the empty URL.
pub fn get_remote_info(origin_url: Option<&str>) -> (r: Option<RemoteInfo>)
    ensures
        match origin_url {
            Option::None => r is None,
            Option::Some(u) => match r {
                Some(info) => info.name@ == "origin"@ && info.url@ == u@ && (match info.web_url {
                    Some(w) => remote_web_url_spec(u@) == Some(w@),
                    None => remote_web_url_spec(u@) is None,
                }),
                None => false,
            },
        },
{
    match origin_url {
        Option::None => None,
        Option::Some(u) => {
            let mut name: Vec<char> = Vec::new();
            append_str(&mut name, "origin");
            let mut url: Vec<char> = Vec::new();
            append_str(&mut url, u);
            Some(
                RemoteInfo {
                    name: chars_to_string(&name),
                    url: chars_to_string(&url),
                    web_url: get_remote_web_url(u),
                },
            )
        },
    }
}

/// The word the interface shows for one file's version-control state,
/// from the status flags the repository reports: index changes count as
/// staged, then working-tree changes, then untracked and ignored; a file
/// with no reported status is clean.
pub open spec fn file_status_word(
    no_status: bool,
    index_new: bool,
    index_modified: bool,
    index_renamed: bool,
    wt_modified: bool,
    wt_new: bool,
    ignored: bool,
) -> Seq<char> {
    if no_status {
        "clean"@
    } else if index_new {
        "staged"@
    } else if index_modified || index_renamed {
        "staged"@
    } else if wt_modified {
        "modified"@
    } else if wt_new {
        "untracked"@
    } else if ignored {
        "ignored"@
    } else {
        "clean"@
    }
}

/// Classifies a file's version-control state from the repository's
/// status flags; reading those flags stays with the caller.
pub fn classify_file_status(
    no_status: bool,
    index_new: bool,
    index_modified: bool,
    index_renamed: bool,
    wt_modified: bool,
    wt_new: bool,
    ignored: bool,
) -> (r: String)
    ensures
        r@ == file_status_word(
            no_status,
            index_new,
            index_modified,
            index_renamed,
            wt_modified,
            wt_new,
            ignored,
        ),
{
    let mut out: Vec<char> = Vec::new();
    if no_status {
        append_str(&mut out, "clean");
    } else if index_new {
        append_str(&mut out, "staged");
    } else if index_modified || index_renamed {
        append_str(&mut out, "staged");
    } else if wt_modified {
        append_str(&mut out, "modified");
    } else if wt_new {
        append_str(&mut out, "untracked");
    } else if ignored {
        append_str(&mut out, "ignored");
    } else {
        append_str(&mut out, "clean");
    }
    chars_to_string(&out)
}

/// The wording of a commit's age, given the current time: the largest
/// round unit, with its plural, as the interface shows it.
pub open spec fn rel_time_spec(now: int, epoch: int) -> Seq<char> {
    let diff = now - epoch;
    if diff < 0 {
        "in the future"@
    } else {
        let minutes = diff / 60;
        let hours = minutes / 60;
        let days = hours / 24;
        let weeks = days / 7;
        let months = days / 30;
        let years = days / 365;
        if minutes < 1 {
            "just now"@
        } else if minutes < 60 {
            dec_spec(minutes as nat) + " minute"@ + (if minutes == 1 {
                Seq::<char>::empty()
            } else {
                "s"@
            }) + " ago"@
        } else if hours < 24 {
            dec_spec(hours as nat) + " hour"@ + (if hours == 1 {
                Seq::<char>::empty()
            } else {
                "s"@
            }) + " ago"@
        } else if days < 7 {
            dec_spec(days as nat) + " day"@ + (if days == 1 {
                Seq::<char>::empty()
            } else {
                "s"@
            }) + " ago"@
        } else if weeks < 5 {
            dec_spec(weeks as nat) + " week"@ + (if weeks == 1 {
                Seq::<char>::empty()
            } else {
                "s"@
            }) + " ago"@
        } else if months < 12 {
            dec_spec(months as nat) + " month"@ + (if months == 1 {
                Seq::<char>::empty()
            } else {
                "s"@
            }) + " ago"@
        } else {
            dec_spec(years as nat) + " year"@ + (if years == 1 {
                Seq::<char>::empty()
            } else {
                "s"@
            }) + " ago"@
        }
    }
}

fn push_unit_count(out: &mut Vec<char>, n: u64, unit: &str)
    ensures
        final(out)@ == old(out)@ + dec_spec(n as nat) + unit@ + (if n == 1 {
            Seq::<char>::empty()
        } else {
            "s"@
        }) + " ago"@,
{
    push_u64_dec(out, n);
    append_str(out, unit);
    if n != 1 {
        append_str(out, "s");
    }
    append_str(out, " ago");
    proof {
        assert(out@ =~= old(out)@ + dec_spec(n as nat) + unit@ + (if n == 1 {
            Seq::<char>::empty()
        } else {
            "s"@
        }) + " ago"@);
    }
}

/// Words the age of `epoch_secs` as seen from `now_secs`.
pub fn relative_time_label(now_secs: i64, epoch_secs: i64) -> (r: String)
    ensures
        r@ == rel_time_spec(now_secs as int, epoch_secs as int),
{
    let now_w: i128 = now_secs as i128;
    let epoch_w: i128 = epoch_secs as i128;
    if now_w < epoch_w {
        let mut out: Vec<char> = Vec::new();
        append_str(&mut out, "in the future");
        return chars_to_string(&out);
    }
    let diff: u64 = (now_w - epoch_w) as u64;
    let minutes: u64 = diff / 60;
    let hours: u64 = minutes / 60;
    let days: u64 = hours / 24;
    let weeks: u64 = days / 7;
    let months: u64 = days / 30;
    let years: u64 = days / 365;
    let mut out: Vec<char> = Vec::new();
    if minutes < 1 {
        append_str(&mut out, "just now");
    } else if minutes < 60 {
        push_unit_count(&mut out, minutes, " minute");
    } else if hours < 24 {
        push_unit_count(&mut out, hours, " hour");
    } else if days < 7 {
        push_unit_count(&mut out, days, " day");
    } else if weeks < 5 {
        push_unit_count(&mut out, weeks, " week");
    } else if months < 12 {
        push_unit_count(&mut out, months, " month");
    } else {
        push_unit_count(&mut out, years, " year");
    }
    chars_to_string(&out)
}

/// Relies on `std::time::SystemTime::now` and `duration_since`: the
/// seconds since the Unix epoch, or zero when the clock reads earlier
/// than the epoch. The value depends on the wall clock, so nothing is
/// promised of it.
#[verifier::external_body]
fn now_unix_secs() -> (r: i64) {
    match std::time::SystemTime::now().duration_since(std::time::UNIX_EPOCH) {
        Ok(d) => d.as_secs() as i64,
        Err(_) => 0,
    }
}

/// Words the age of `epoch_secs` as seen from the wall clock now. The
/// wording for each possible reading of the clock is fixed by
/// `rel_time_spec`; which reading occurs is the clock's alone.
pub fn format_relative_time(epoch_secs: i64) -> (r: String)
    ensures
        exists|now: int| r@ == rel_time_spec(now, epoch_secs as int),
{
    let now = now_unix_secs();
    let r = relative_time_label(now, epoch_secs);
    proof {
        assert(r@ == rel_time_spec(now as int, epoch_secs as int));
    }
    r
}

} // verus!
