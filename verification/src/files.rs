//! The pure side of folder scanning: which file names count as markdown
//! documents, and how many such documents a scanned folder tree holds.
//! Reading directories stays with the caller; these functions only judge
//! names and sum counts.
use vstd::prelude::*;

use crate::text::chars_end_with;
use crate::text::chars_of_str;
use crate::text::ends_with_spec;

verus! {

/// What one rendered document hands back to the interface.
pub struct RenderResult {
    pub html: String,
    pub file_name: String,
    pub file_path: String,
}

/// One entry of a scanned folder tree. A directory carries its children
/// and the number of markdown files anywhere below it; a file carries
/// neither.
pub struct FolderEntry {
    pub name: String,
    pub path: String,
    pub is_dir: bool,
    pub children: Option<Vec<FolderEntry>>,
    pub md_count: usize,
}

/// The number of markdown files a list of entries accounts for: each
/// directory counts what it already carries, each file counts one.
pub open spec fn md_count_spec(entries: Seq<FolderEntry>) -> int
    decreases entries.len(),
{
    if entries.len() == 0 {
        0
    } else {
        md_count_spec(entries.drop_last()) + (if entries.last().is_dir {
            entries.last().md_count as int
        } else {
            1
        })
    }
}

proof fn lemma_md_count_nonneg(entries: Seq<FolderEntry>)
    ensures
        md_count_spec(entries) >= 0,
    decreases entries.len(),
{
    if entries.len() > 0 {
        lemma_md_count_nonneg(entries.drop_last());
    }
}

proof fn lemma_md_count_prefix_le(entries: Seq<FolderEntry>, i: int)
    requires
        0 <= i <= entries.len(),
    ensures
        md_count_spec(entries.subrange(0, i)) <= md_count_spec(entries),
    decreases entries.len() - i,
{
    if i == entries.len() {
        assert(entries.subrange(0, i) =~= entries);
    } else {
        lemma_md_count_prefix_le(entries, i + 1);
        let sub1 = entries.subrange(0, i + 1);
        assert(sub1.drop_last() =~= entries.subrange(0, i));
        assert(sub1.last() == entries[i]);
    }
}

/// Sums the markdown-file count over `entries`.
pub fn count_md_files(entries: &Vec<FolderEntry>) -> (n: usize)
    requires
        md_count_spec(entries@) <= usize::MAX,
    ensures
        n == md_count_spec(entries@),
{
    let mut n: usize = 0;
    let mut i: usize = 0;
    while i < entries.len()
        invariant
            i <= entries@.len(),
            md_count_spec(entries@) <= usize::MAX,
            n == md_count_spec(entries@.subrange(0, i as int)),
        decreases entries@.len() - i,
    {
        proof {
            let sub1 = entries@.subrange(0, i + 1 as int);
            assert(sub1.drop_last() =~= entries@.subrange(0, i as int));
            assert(sub1.last() == entries@[i as int]);
            lemma_md_count_prefix_le(entries@, i + 1);
            lemma_md_count_nonneg(entries@.subrange(0, i as int));
        }
        if entries[i].is_dir {
            n = n + entries[i].md_count;
        } else {
            n = n + 1;
        }
        i = i + 1;
    }
    proof {
        assert(entries@.subrange(0, entries@.len() as int) =~= entries@);
    }
    n
}

/// What `lowercase` returns for a given character sequence.
pub uninterp spec fn lower_of(s: Seq<char>) -> Seq<char>;

/// Relies on `str::to_lowercase`: the result depends on the characters
/// alone, and an empty text stays empty.
#[verifier::external_body]
fn lowercase(s: &str) -> (r: String)
    ensures
        r@ == lower_of(s@),
        s@.len() == 0 ==> r@.len() == 0,
{
    s.to_lowercase()
}

/// Whether the lowercased name carries one of the markdown suffixes.
pub open spec fn has_md_suffix(l: Seq<char>) -> bool {
    ends_with_spec(l, ".md"@) || ends_with_spec(l, ".markdown"@) || ends_with_spec(l, ".mdown"@)
        || ends_with_spec(l, ".mkd"@) || ends_with_spec(l, ".mkdn"@) || ends_with_spec(l, ".mdx"@)
}

/// Whether a file name, lowercased, ends in one of the markdown
/// suffixes.
pub fn is_markdown_file(name: &str) -> (r: bool)
    ensures
        r == has_md_suffix(lower_of(name@)),
{
    let lower = lowercase(name);
    let lv = chars_of_str(lower.as_str());
    chars_end_with(&lv, ".md") || chars_end_with(&lv, ".markdown") || chars_end_with(&lv, ".mdown")
        || chars_end_with(&lv, ".mkd") || chars_end_with(&lv, ".mkdn") || chars_end_with(
        &lv,
        ".mdx",
    )
}

} // verus!
