//! The read-aloud side: cutting speech text into chunks small enough for
//! a synthesis request. Paragraphs are packed greedily; an overlong
//! paragraph is split at sentence boundaries; a sentence longer than a
//! whole chunk stands alone. The provider calls stay with the caller.
use vstd::prelude::*;

use crate::ast::Node;
use crate::lines::views;
use crate::text::append_chars;
use crate::text::append_str;
use crate::text::chars_of_str;
use crate::text::chars_to_string;
use crate::text::str_views;
use crate::text::trim_chars;
use crate::text::trim_spec;

verus! {

/// Which providers have a stored key.
pub struct TtsKeyStatus {
    pub openai: bool,
    pub google: bool,
    pub elevenlabs: bool,
}

/// One synthesized chunk, handed to the interface as it becomes ready.
pub struct TtsChunkResult {
    pub chunk_index: usize,
    pub total_chunks: usize,
    pub audio_base64: String,
}

/// The first synthesized chunk and the total count.
pub struct TtsGenerateResult {
    pub chunk_index: usize,
    pub total_chunks: usize,
    pub audio_base64: String,
}

/// One selectable voice of a provider.
pub struct TtsVoice {
    pub id: String,
    pub name: String,
}

/// The largest text one synthesis request may carry. The bound counts
/// characters, so a chunk of non-ASCII text may occupy more bytes than
/// this.
pub open spec fn max_chunk_len() -> int {
    3500
}

pub open spec fn is_sentence_end(c: char) -> bool {
    c == '.' || c == '!' || c == '?'
}

/// The sentences of `s` from position `i` on, with `cur` already read:
/// a sentence ends at `.`, `!` or `?` followed by a space; every
/// sentence is trimmed; a trailing fragment counts only if something of
/// it remains after trimming.
pub open spec fn sentences_from(s: Seq<char>, i: int, cur: Seq<char>) -> Seq<Seq<char>>
    decreases s.len() + 2 - i when i >= 0
{
    if i < 0 || i >= s.len() {
        if trim_spec(cur).len() > 0 {
            seq![trim_spec(cur)]
        } else {
            Seq::empty()
        }
    } else {
        let cur2 = cur.push(s[i]);
        if is_sentence_end(s[i]) && i + 1 < s.len() && s[i + 1] == ' ' {
            seq![trim_spec(cur2)] + sentences_from(s, i + 2, Seq::empty())
        } else {
            sentences_from(s, i + 1, cur2)
        }
    }
}

pub open spec fn split_sentences_spec(s: Seq<char>) -> Seq<Seq<char>> {
    sentences_from(s, 0, Seq::empty())
}

/// The paragraphs of `s` from position `i` on: parts separated by blank
/// lines, leftmost separators first.
pub open spec fn paras_from(s: Seq<char>, i: int, cur: Seq<char>) -> Seq<Seq<char>>
    decreases s.len() + 2 - i when i >= 0
{
    if i < 0 || i >= s.len() {
        seq![cur]
    } else if s[i] == '\n' && i + 1 < s.len() && s[i + 1] == '\n' {
        seq![cur] + paras_from(s, i + 2, Seq::empty())
    } else {
        paras_from(s, i + 1, cur.push(s[i]))
    }
}

pub open spec fn split_paras_spec(s: Seq<char>) -> Seq<Seq<char>> {
    paras_from(s, 0, Seq::empty())
}

/// Packs sentences from `k` on into chunks, continuing the open chunk
/// `cur`: a sentence that fits joins `cur` with one space; one that does
/// not closes `cur`; one longer than a whole chunk is emitted alone.
/// Yields the closed chunks and the chunk still open at the end.
pub open spec fn pack_sentences(sents: Seq<Seq<char>>, k: int, cur: Seq<char>) -> (
    Seq<Seq<char>>,
    Seq<char>,
)
    decreases sents.len() - k when k <= sents.len()
{
    if k < 0 || k >= sents.len() {
        (Seq::empty(), cur)
    } else {
        let s = sents[k];
        if cur.len() + s.len() + 1 <= max_chunk_len() {
            pack_sentences(
                sents,
                k + 1,
                if cur.len() == 0 {
                    s
                } else {
                    cur + " "@ + s
                },
            )
        } else {
            let flushed: Seq<Seq<char>> = if cur.len() > 0 {
                seq![cur]
            } else {
                Seq::empty()
            };
            if s.len() > max_chunk_len() {
                let r = pack_sentences(sents, k + 1, Seq::empty());
                (flushed + seq![s] + r.0, r.1)
            } else {
                let r = pack_sentences(sents, k + 1, s);
                (flushed + r.0, r.1)
            }
        }
    }
}

/// Packs paragraphs from `j` on into chunks, continuing the open chunk
/// `cur`: an empty paragraph is skipped, one that fits joins `cur` with
/// a blank line, an overlong one is split at sentence boundaries, and
/// any other closes `cur` and opens a new chunk.
pub open spec fn pack_paras(paras: Seq<Seq<char>>, j: int, cur: Seq<char>) -> Seq<Seq<char>>
    decreases paras.len() - j when j <= paras.len()
{
    if j < 0 || j >= paras.len() {
        if cur.len() > 0 {
            seq![cur]
        } else {
            Seq::empty()
        }
    } else {
        let p = trim_spec(paras[j]);
        if p.len() == 0 {
            pack_paras(paras, j + 1, cur)
        } else if cur.len() + p.len() + 2 <= max_chunk_len() {
            pack_paras(
                paras,
                j + 1,
                if cur.len() == 0 {
                    p
                } else {
                    cur + "\n\n"@ + p
                },
            )
        } else if p.len() > max_chunk_len() {
            let flushed: Seq<Seq<char>> = if cur.len() > 0 {
                seq![cur]
            } else {
                Seq::empty()
            };
            let r = pack_sentences(split_sentences_spec(p), 0, Seq::empty());
            flushed + r.0 + pack_paras(paras, j + 1, r.1)
        } else {
            let flushed: Seq<Seq<char>> = if cur.len() > 0 {
                seq![cur]
            } else {
                Seq::empty()
            };
            flushed + pack_paras(paras, j + 1, p)
        }
    }
}

/// The chunks the whole text is cut into.
pub open spec fn chunk_spec(s: Seq<char>) -> Seq<Seq<char>> {
    pack_paras(split_paras_spec(s), 0, Seq::empty())
}

fn split_sentences_chars(v: &Vec<char>) -> (r: Vec<String>)
    ensures
        str_views(r@) == split_sentences_spec(v@),
{
    let n = v.len();
    let mut out: Vec<String> = Vec::new();
    let mut cur: Vec<char> = Vec::new();
    let mut i: usize = 0;
    proof {
        assert(str_views(out@) =~= Seq::<Seq<char>>::empty());
        assert(str_views(out@) + sentences_from(v@, 0, cur@) =~= split_sentences_spec(v@));
    }
    while i < n
        invariant
            n == v@.len(),
            i <= n + 1,
            str_views(out@) + sentences_from(v@, i as int, cur@) == split_sentences_spec(v@),
        decreases n + 2 - i,
    {
        let c = v[i];
        let ghost cur_before = cur@;
        cur.push(c);
        if (c == '.' || c == '!' || c == '?') && i + 1 < n && v[i + 1] == ' ' {
            let t = trim_chars(&cur);
            let ghost out_before = out@;
            out.push(chars_to_string(&t));
            cur = Vec::new();
            proof {
                assert(str_views(out@) =~= str_views(out_before).push(trim_spec(
                    cur_before.push(v@[i as int]),
                )));
                assert(str_views(out@) + sentences_from(v@, i + 2, cur@)
                    =~= split_sentences_spec(v@));
            }
            i = i + 2;
        } else {
            proof {
                assert(str_views(out@) + sentences_from(v@, i + 1, cur@)
                    =~= split_sentences_spec(v@));
            }
            i = i + 1;
        }
    }
    let t = trim_chars(&cur);
    if t.len() > 0 {
        let ghost out_before = out@;
        out.push(chars_to_string(&t));
        proof {
            assert(str_views(out@) =~= str_views(out_before).push(trim_spec(cur@)));
            assert(str_views(out@) =~= split_sentences_spec(v@));
        }
    } else {
        proof {
            assert(str_views(out@) =~= split_sentences_spec(v@));
        }
    }
    out
}

/// Cuts text into sentences at `.`, `!` or `?` followed by a space,
/// trimming each.
pub fn split_at_sentences(text: &str) -> (r: Vec<String>)
    ensures
        str_views(r@) == split_sentences_spec(text@),
{
    let v = chars_of_str(text);
    split_sentences_chars(&v)
}

fn split_paras_chars(v: &Vec<char>) -> (r: Vec<Vec<char>>)
    ensures
        views(r@) == split_paras_spec(v@),
{
    let n = v.len();
    let mut out: Vec<Vec<char>> = Vec::new();
    let mut cur: Vec<char> = Vec::new();
    let mut i: usize = 0;
    proof {
        assert(views(out@) + paras_from(v@, 0, cur@) =~= split_paras_spec(v@));
    }
    while i < n
        invariant
            n == v@.len(),
            i <= n + 1,
            views(out@) + paras_from(v@, i as int, cur@) == split_paras_spec(v@),
        decreases n + 2 - i,
    {
        let c = v[i];
        if c == '\n' && i + 1 < n && v[i + 1] == '\n' {
            let ghost out_before = out@;
            let ghost cur_before = cur@;
            out.push(cur);
            cur = Vec::new();
            proof {
                assert(views(out@) =~= views(out_before).push(cur_before));
                assert(views(out@) + paras_from(v@, i + 2, cur@) =~= split_paras_spec(v@));
            }
            i = i + 2;
        } else {
            cur.push(c);
            proof {
                assert(views(out@) + paras_from(v@, i + 1, cur@) =~= split_paras_spec(v@));
            }
            i = i + 1;
        }
    }
    let ghost out_before = out@;
    let ghost cur_last = cur@;
    out.push(cur);
    proof {
        assert(views(out@) =~= views(out_before).push(cur_last));
        assert(views(out@) =~= split_paras_spec(v@));
    }
    out
}

/// Cuts speech text into chunks of at most the request size, keeping
/// paragraphs together where they fit and splitting overlong paragraphs
/// at sentence boundaries. Only a single sentence longer than a whole
/// chunk is emitted over the size; all sizes count characters, not
/// bytes.
pub fn chunk_speech_text(text: &str) -> (r: Vec<String>)
    ensures
        str_views(r@) == chunk_spec(text@),
{
    let v = chars_of_str(text);
    let paras = split_paras_chars(&v);
    let ghost pp = split_paras_spec(v@);
    let mut chunks: Vec<String> = Vec::new();
    let mut cur: Vec<char> = Vec::new();
    let mut j: usize = 0;
    proof {
        assert(str_views(chunks@) + pack_paras(pp, 0, cur@) =~= chunk_spec(text@));
    }
    while j < paras.len()
        invariant
            views(paras@) == pp,
            j <= paras@.len(),
            cur@.len() <= max_chunk_len(),
            str_views(chunks@) + pack_paras(pp, j as int, cur@) == chunk_spec(text@),
        decreases paras@.len() - j,
    {
        let ghost chunks0 = str_views(chunks@);
        let ghost cur0 = cur@;
        let p = trim_chars(&paras[j]);
        proof {
            assert(paras@[j as int]@ == pp[j as int]);
            assert(p@ == trim_spec(pp[j as int]));
        }
        if p.len() == 0 {
            proof {
                assert(pack_paras(pp, j as int, cur0) == pack_paras(pp, j + 1, cur0));
            }
        } else if p.len() <= 3498 && cur.len() + p.len() + 2 <= 3500 {
            if cur.len() == 0 {
                cur = p;
                proof {
                    assert(pack_paras(pp, j as int, cur0) == pack_paras(pp, j + 1, cur@));
                }
            } else {
                append_str(&mut cur, "\n\n");
                let ghost mid = cur@;
                let mut k2: usize = 0;
                while k2 < p.len()
                    invariant
                        k2 <= p@.len(),
                        cur@ == mid + p@.subrange(0, k2 as int),
                    decreases p@.len() - k2,
                {
                    cur.push(p[k2]);
                    proof {
                        assert(mid + p@.subrange(0, k2 + 1 as int) =~= (mid + p@.subrange(
                            0,
                            k2 as int,
                        )).push(p@[k2 as int]));
                    }
                    k2 = k2 + 1;
                }
                proof {
                    reveal_strlit("\n\n");
                    assert(p@.subrange(0, p@.len() as int) =~= p@);
                    assert(cur@ =~= cur0 + "\n\n"@ + p@);
                    assert(pack_paras(pp, j as int, cur0) == pack_paras(pp, j + 1, cur@));
                }
            }
        } else if p.len() > 3500 {
            let ghost rr = pack_sentences(split_sentences_spec(p@), 0, Seq::<char>::empty());
            proof {
                assert(pack_paras(pp, j as int, cur0) == (if cur0.len() > 0 {
                    seq![cur0]
                } else {
                    Seq::<Seq<char>>::empty()
                }) + rr.0 + pack_paras(pp, j + 1, rr.1));
            }
            if cur.len() > 0 {
                let ghost chunks_before = chunks@;
                let ghost curb = cur@;
                chunks.push(chars_to_string(&cur));
                cur = Vec::new();
                proof {
                    assert(str_views(chunks@) =~= str_views(chunks_before).push(curb));
                }
            }
            let sents = split_sentences_chars(&p);
            let ghost ss = split_sentences_spec(p@);
            let mut k: usize = 0;
            proof {
                assert(cur@ =~= Seq::<char>::empty());
                assert(str_views(chunks@) =~= chunks0 + (if cur0.len() > 0 {
                    seq![cur0]
                } else {
                    Seq::<Seq<char>>::empty()
                }));
                assert(str_views(chunks@) + pack_sentences(ss, 0, cur@).0 + pack_paras(
                    pp,
                    j + 1,
                    pack_sentences(ss, 0, cur@).1,
                ) =~= chunk_spec(text@));
            }
            while k < sents.len()
                invariant
                    str_views(sents@) == ss,
                    k <= sents@.len(),
                    cur@.len() <= max_chunk_len(),
                    str_views(chunks@) + pack_sentences(ss, k as int, cur@).0 + pack_paras(
                        pp,
                        j + 1,
                        pack_sentences(ss, k as int, cur@).1,
                    ) == chunk_spec(text@),
                decreases sents@.len() - k,
            {
                let ghost ichunks0 = str_views(chunks@);
                let ghost icur0 = cur@;
                let s = &sents[k];
                let slen = s.as_str().unicode_len();
                proof {
                    assert(str_views(sents@).len() == sents@.len());
                    assert((k as int) < ss.len());
                    assert(sents@[k as int]@ == ss[k as int]);
                    assert(slen == ss[k as int].len());
                }
                if slen <= 3499 && cur.len() + slen + 1 <= 3500 {
                    if cur.len() == 0 {
                        append_str(&mut cur, s.as_str());
                        proof {
                            assert(cur@ =~= ss[k as int]);
                            assert(pack_sentences(ss, k as int, icur0) == pack_sentences(
                                ss,
                                k + 1,
                                cur@,
                            ));
                        }
                    } else {
                        append_str(&mut cur, " ");
                        append_str(&mut cur, s.as_str());
                        proof {
                            reveal_strlit(" ");
                            assert(cur@ =~= icur0 + " "@ + ss[k as int]);
                            assert(pack_sentences(ss, k as int, icur0) == pack_sentences(
                                ss,
                                k + 1,
                                cur@,
                            ));
                        }
                    }
                } else {
                    let ghost flushed: Seq<Seq<char>> = if icur0.len() > 0 {
                        seq![icur0]
                    } else {
                        Seq::<Seq<char>>::empty()
                    };
                    if cur.len() > 0 {
                        let ghost chunks_before = chunks@;
                        let ghost curb = cur@;
                        chunks.push(chars_to_string(&cur));
                        cur = Vec::new();
                        proof {
                            assert(str_views(chunks@) =~= str_views(chunks_before).push(curb));
                        }
                    }
                    if slen > 3500 {
                        let ghost chunks_before = chunks@;
                        chunks.push(clone_string(s));
                        proof {
                            assert(!(icur0.len() + ss[k as int].len() + 1 <= max_chunk_len()));
                            assert(ss[k as int].len() > max_chunk_len());
                            assert(cur@ =~= Seq::<char>::empty());
                            assert(str_views(chunks@) =~= str_views(chunks_before).push(
                                ss[k as int],
                            ));
                            assert(str_views(chunks@) =~= ichunks0 + flushed + seq![
                                ss[k as int],
                            ]);
                            let tail = pack_sentences(ss, k + 1, Seq::<char>::empty());
                            assert(pack_sentences(ss, k as int, icur0) == (flushed + seq![
                                ss[k as int],
                            ] + tail.0, tail.1));
                            assert(str_views(chunks@) + pack_sentences(ss, k + 1, cur@).0
                                + pack_paras(pp, j + 1, pack_sentences(ss, k + 1, cur@).1)
                                =~= chunk_spec(text@));
                        }
                    } else {
                        append_str(&mut cur, s.as_str());
                        proof {
                            assert(!(icur0.len() + ss[k as int].len() + 1 <= max_chunk_len()));
                            assert(!(ss[k as int].len() > max_chunk_len()));
                            assert(cur@ =~= ss[k as int]);
                            assert(str_views(chunks@) =~= ichunks0 + flushed);
                            let tail = pack_sentences(ss, k + 1, cur@);
                            assert(pack_sentences(ss, k as int, icur0) == (flushed + tail.0,
                            tail.1));
                            assert(str_views(chunks@) + pack_sentences(ss, k + 1, cur@).0
                                + pack_paras(pp, j + 1, pack_sentences(ss, k + 1, cur@).1)
                                =~= chunk_spec(text@));
                        }
                    }
                }
                proof {
                    assert(cur@.len() <= max_chunk_len());
                }
                k = k + 1;
            }
            proof {
                assert(pack_sentences(ss, sents@.len() as int, cur@)
                    == (Seq::<Seq<char>>::empty(), cur@));
                assert(str_views(chunks@) + pack_paras(pp, j + 1, cur@) =~= chunk_spec(text@));
            }
        } else {
            proof {
                assert(pack_paras(pp, j as int, cur0) == (if cur0.len() > 0 {
                    seq![cur0]
                } else {
                    Seq::<Seq<char>>::empty()
                }) + pack_paras(pp, j + 1, p@));
            }
            if cur.len() > 0 {
                let ghost chunks_before = chunks@;
                let ghost curb = cur@;
                chunks.push(chars_to_string(&cur));
                proof {
                    assert(str_views(chunks@) =~= str_views(chunks_before).push(curb));
                }
            }
            cur = p;
            proof {
                assert(str_views(chunks@) + pack_paras(pp, j + 1, cur@) =~= chunk_spec(text@));
            }
        }
        proof {
            assert(cur@.len() <= max_chunk_len());
        }
        j = j + 1;
    }
    if cur.len() > 0 {
        let ghost chunks_before = chunks@;
        let ghost curb = cur@;
        chunks.push(chars_to_string(&cur));
        proof {
            assert(str_views(chunks@) =~= str_views(chunks_before).push(curb));
        }
    }
    proof {
        assert(str_views(chunks@) =~= chunk_spec(text@));
    }
    chunks
}


fn clone_string(s: &String) -> (r: String)
    ensures
        r@ == s@,
{
    s.clone()
}

/// The spoken text of a sequence of sibling nodes, in order.
pub open spec fn spec_speech_nodes(ns: Seq<Node>, read_code: bool) -> Seq<char>
    decreases ns, 1int,
{
    if ns.len() == 0 {
        Seq::empty()
    } else {
        spec_speech_nodes(ns.drop_last(), read_code) + spec_speech_node(ns.last(), read_code)
    }
}

/// The spoken text of one node: markup is dropped, structure becomes
/// pauses (blank lines and spaces), a link speaks its text or its URL,
/// an image its title or the word `Image`, and a code block is read out
/// only when asked, else announced.
pub open spec fn spec_speech_node(n: Node, read_code: bool) -> Seq<char>
    decreases n, 0int,
{
    match n {
        Node::Document { children } => spec_speech_nodes(children@, read_code),
        Node::Heading { children, .. } => spec_speech_nodes(children@, read_code) + "\n\n"@,
        Node::Paragraph { children } => spec_speech_nodes(children@, read_code) + "\n\n"@,
        Node::Text { literal } => literal@,
        Node::SoftBreak => " "@,
        Node::LineBreak => "\n"@,
        Node::Code { literal } => literal@,
        Node::CodeBlock { literal, .. } => (if read_code {
            literal@
        } else {
            "Code block."@
        }) + "\n\n"@,
        Node::BlockQuote { children } => "Quote: "@ + spec_speech_nodes(children@, read_code),
        Node::List { children, .. } => spec_speech_nodes(children@, read_code) + "\n"@,
        Node::Item { children, .. } => spec_speech_nodes(children@, read_code),
        Node::TaskItem { children, .. } => spec_speech_nodes(children@, read_code),
        Node::Link { url, children } => if children@.len() > 0 {
            spec_speech_nodes(children@, read_code)
        } else {
            url@
        },
        Node::Image { title, .. } => if title@.len() > 0 {
            title@
        } else {
            "Image"@
        },
        Node::Emph { children } => spec_speech_nodes(children@, read_code),
        Node::Strong { children } => spec_speech_nodes(children@, read_code),
        Node::Strikethrough { children } => spec_speech_nodes(children@, read_code),
        Node::ThematicBreak => "\n\n"@,
        Node::Table { children, .. } => spec_speech_nodes(children@, read_code) + " "@,
        Node::TableRow { children, .. } => spec_speech_nodes(children@, read_code) + " "@,
        Node::TableCell { children } => spec_speech_nodes(children@, read_code) + " "@,
        Node::HtmlBlock { .. } => Seq::empty(),
        Node::HtmlInline { .. } => Seq::empty(),
        Node::FootnoteDefinition { children, .. } => spec_speech_nodes(children@, read_code),
        Node::FootnoteReference { name } => "footnote "@ + name@,
        Node::Other { children } => spec_speech_nodes(children@, read_code),
    }
}

/// `s` with every run of newlines shortened to at most two, scanning
/// from position `i` with `run` newlines immediately before it.
pub open spec fn collapse_nl_from(s: Seq<char>, i: int, run: int) -> Seq<char>
    decreases s.len() - i when i <= s.len()
{
    if i < 0 || i >= s.len() {
        Seq::empty()
    } else if s[i] == '\n' {
        let run2: int = if run >= 2 {
            2
        } else {
            run + 1
        };
        if run < 2 {
            seq!['\n'] + collapse_nl_from(s, i + 1, run2)
        } else {
            collapse_nl_from(s, i + 1, run2)
        }
    } else {
        seq![s[i]] + collapse_nl_from(s, i + 1, 0)
    }
}

pub open spec fn collapse_nl_spec(s: Seq<char>) -> Seq<char> {
    collapse_nl_from(s, 0, 0)
}

/// Appends the spoken text of a sequence of siblings to `out`.
fn speech_children(ns: &Vec<Node>, read_code: bool, out: &mut Vec<char>)
    ensures
        final(out)@ == old(out)@ + spec_speech_nodes(ns@, read_code),
    decreases ns@, 1int,
{
    let mut i: usize = 0;
    while i < ns.len()
        invariant
            i <= ns@.len(),
            out@ == old(out)@ + spec_speech_nodes(ns@.subrange(0, i as int), read_code),
        decreases ns@.len() - i, 0int,
    {
        speech_node(&ns[i], read_code, out);
        proof {
            assert(ns@.subrange(0, i + 1 as int).drop_last() =~= ns@.subrange(0, i as int));
            assert(ns@.subrange(0, i + 1 as int).last() == ns@[i as int]);
        }
        i = i + 1;
    }
    proof {
        assert(ns@.subrange(0, ns@.len() as int) =~= ns@);
    }
}

/// Appends the spoken text of one node to `out`.
#[verifier::rlimit(40)]
fn speech_node(n: &Node, read_code: bool, out: &mut Vec<char>)
    ensures
        final(out)@ == old(out)@ + spec_speech_node(*n, read_code),
    decreases *n, 0int,
{
    match n {
        Node::Document { children } => speech_children(children, read_code, out),
        Node::Heading { children, .. } => {
            speech_children(children, read_code, out);
            append_str(out, "\n\n");
            proof {
                assert(out@ =~= old(out)@ + spec_speech_node(*n, read_code));
            }
        },
        Node::Paragraph { children } => {
            speech_children(children, read_code, out);
            append_str(out, "\n\n");
            proof {
                assert(out@ =~= old(out)@ + spec_speech_node(*n, read_code));
            }
        },
        Node::Text { literal } => append_str(out, literal.as_str()),
        Node::SoftBreak => append_str(out, " "),
        Node::LineBreak => append_str(out, "\n"),
        Node::Code { literal } => append_str(out, literal.as_str()),
        Node::CodeBlock { literal, .. } => {
            if read_code {
                append_str(out, literal.as_str());
            } else {
                append_str(out, "Code block.");
            }
            append_str(out, "\n\n");
            proof {
                assert(out@ =~= old(out)@ + spec_speech_node(*n, read_code));
            }
        },
        Node::BlockQuote { children } => {
            append_str(out, "Quote: ");
            speech_children(children, read_code, out);
            proof {
                assert(out@ =~= old(out)@ + spec_speech_node(*n, read_code));
            }
        },
        Node::List { children, .. } => {
            speech_children(children, read_code, out);
            append_str(out, "\n");
            proof {
                assert(out@ =~= old(out)@ + spec_speech_node(*n, read_code));
            }
        },
        Node::Item { children, .. } => speech_children(children, read_code, out),
        Node::TaskItem { children, .. } => speech_children(children, read_code, out),
        Node::Link { url, children } => {
            if children.len() > 0 {
                speech_children(children, read_code, out);
            } else {
                append_str(out, url.as_str());
            }
            proof {
                assert(out@ =~= old(out)@ + spec_speech_node(*n, read_code));
            }
        },
        Node::Image { title, .. } => {
            let tv = chars_of_str(title.as_str());
            if tv.len() > 0 {
                append_chars(out, &tv);
            } else {
                append_str(out, "Image");
            }
            proof {
                assert(out@ =~= old(out)@ + spec_speech_node(*n, read_code));
            }
        },
        Node::Emph { children } => speech_children(children, read_code, out),
        Node::Strong { children } => speech_children(children, read_code, out),
        Node::Strikethrough { children } => speech_children(children, read_code, out),
        Node::ThematicBreak => append_str(out, "\n\n"),
        Node::Table { children, .. } => {
            speech_children(children, read_code, out);
            append_str(out, " ");
            proof {
                assert(out@ =~= old(out)@ + spec_speech_node(*n, read_code));
            }
        },
        Node::TableRow { children, .. } => {
            speech_children(children, read_code, out);
            append_str(out, " ");
            proof {
                assert(out@ =~= old(out)@ + spec_speech_node(*n, read_code));
            }
        },
        Node::TableCell { children } => {
            speech_children(children, read_code, out);
            append_str(out, " ");
            proof {
                assert(out@ =~= old(out)@ + spec_speech_node(*n, read_code));
            }
        },
        Node::HtmlBlock { .. } => {},
        Node::HtmlInline { .. } => {},
        Node::FootnoteDefinition { children, .. } => speech_children(children, read_code, out),
        Node::FootnoteReference { name } => {
            append_str(out, "footnote ");
            append_str(out, name.as_str());
            proof {
                assert(out@ =~= old(out)@ + spec_speech_node(*n, read_code));
            }
        },
        Node::Other { children } => speech_children(children, read_code, out),
    }
}

fn collapse_newlines(v: &Vec<char>) -> (r: Vec<char>)
    ensures
        r@ == collapse_nl_spec(v@),
{
    let n = v.len();
    let mut out: Vec<char> = Vec::new();
    let mut run: u8 = 0;
    let mut i: usize = 0;
    proof {
        assert(out@ + collapse_nl_from(v@, 0, 0) =~= collapse_nl_spec(v@));
    }
    while i < n
        invariant
            n == v@.len(),
            i <= n,
            run <= 2,
            out@ + collapse_nl_from(v@, i as int, run as int) == collapse_nl_spec(v@),
        decreases n - i,
    {
        let c = v[i];
        if c == '\n' {
            let run2: u8 = if run >= 2 {
                2
            } else {
                run + 1
            };
            if run < 2 {
                out.push('\n');
            }
            proof {
                assert(out@ + collapse_nl_from(v@, i + 1, run2 as int) =~= collapse_nl_spec(v@));
            }
            run = run2;
        } else {
            out.push(c);
            run = 0;
            proof {
                assert(out@ + collapse_nl_from(v@, i + 1, 0) =~= collapse_nl_spec(v@));
            }
        }
        i = i + 1;
    }
    proof {
        assert(out@ =~= collapse_nl_spec(v@));
    }
    out
}

/// The spoken text of a parsed document: the tree's speech text with
/// newline runs shortened to at most two and the whole trimmed. The
/// markdown parsing itself is the caller's, as for the transpiler.
pub fn markdown_to_speech_text(root: &Node, read_code_blocks: bool) -> (r: String)
    ensures
        r@ == trim_spec(collapse_nl_spec(spec_speech_node(*root, read_code_blocks))),
{
    let mut raw: Vec<char> = Vec::new();
    speech_node(root, read_code_blocks, &mut raw);
    let collapsed = collapse_newlines(&raw);
    let trimmed = trim_chars(&collapsed);
    chars_to_string(&trimmed)
}

} // verus!
