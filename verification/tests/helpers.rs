use mdtypst::ast::Node;
use mdtypst::auth::auth_poll_decision;
use mdtypst::gitinfo::classify_file_status;
use mdtypst::recent::abbreviate_home;
use mdtypst::speech::markdown_to_speech_text;
use mdtypst::auth::token_path;
use mdtypst::diff::compute_diff;
use mdtypst::files::FolderEntry;
use mdtypst::files::count_md_files;
use mdtypst::files::is_markdown_file;
use mdtypst::gitinfo::get_remote_info;
use mdtypst::gitinfo::get_remote_web_url;
use mdtypst::gitinfo::relative_time_label;
use mdtypst::gitinfo::format_relative_time;
use mdtypst::gitinfo::to_https_url;
use mdtypst::recent::RecentData;
use mdtypst::recent::add_to_list;
use mdtypst::speech::chunk_speech_text;
use mdtypst::speech::split_at_sentences;

#[test]
fn markdown_file_names_any_case() {
    assert!(is_markdown_file("notes.md"));
    assert!(is_markdown_file("README.MD"));
    assert!(is_markdown_file("a.Markdown"));
    assert!(is_markdown_file("x.mdown"));
    assert!(is_markdown_file("x.mkd"));
    assert!(is_markdown_file("x.mkdn"));
    assert!(is_markdown_file("page.mdx"));
    assert!(!is_markdown_file("a.txt"));
    assert!(!is_markdown_file("x.md.bak"));
    assert!(!is_markdown_file("md"));
}

fn file_entry(name: &str) -> FolderEntry {
    FolderEntry {
        name: name.to_string(),
        path: format!("/p/{}", name),
        is_dir: false,
        children: None,
        md_count: 0,
    }
}

#[test]
fn counts_files_and_carried_directory_counts() {
    let dir = FolderEntry {
        name: "sub".to_string(),
        path: "/p/sub".to_string(),
        is_dir: true,
        children: Some(vec![file_entry("a.md"), file_entry("b.md"), file_entry("c.md")]),
        md_count: 3,
    };
    let entries = vec![file_entry("top.md"), dir, file_entry("other.md")];
    assert_eq!(count_md_files(&entries), 5);
    assert_eq!(count_md_files(&Vec::new()), 0);
}

#[test]
fn https_url_conversions() {
    assert_eq!(
        to_https_url("git@github.com:user/repo.git"),
        Some("https://github.com/user/repo.git".to_string())
    );
    assert_eq!(
        to_https_url("https://github.com/user/repo.git"),
        Some("https://github.com/user/repo.git".to_string())
    );
    assert_eq!(
        to_https_url("ssh://git@github.com/user/repo.git"),
        Some("https://github.com/user/repo.git".to_string())
    );
    assert_eq!(to_https_url("ftp://example.com/x"), None);
    assert_eq!(to_https_url("git@nohost"), None);
}

#[test]
fn web_url_drops_dot_git() {
    assert_eq!(
        get_remote_web_url("git@github.com:user/repo.git"),
        Some("https://github.com/user/repo".to_string())
    );
    assert_eq!(
        get_remote_web_url("https://github.com/user/repo.git"),
        Some("https://github.com/user/repo".to_string())
    );
    assert_eq!(
        get_remote_web_url("ssh://git@github.com/user/repo.git"),
        Some("https://github.com/user/repo".to_string())
    );
    assert_eq!(get_remote_web_url("file:///x"), None);
}

#[test]
fn remote_info_describes_origin() {
    let info = get_remote_info(Some("git@github.com:u/r.git")).unwrap();
    assert_eq!(info.name, "origin");
    assert_eq!(info.url, "git@github.com:u/r.git");
    assert_eq!(info.web_url, Some("https://github.com/u/r".to_string()));
    assert!(get_remote_info(None).is_none());
}

#[test]
fn relative_time_wording() {
    let day = 86400i64;
    assert_eq!(relative_time_label(1000, 2000), "in the future");
    assert_eq!(relative_time_label(1000, 1000), "just now");
    assert_eq!(relative_time_label(1059, 1000), "just now");
    assert_eq!(relative_time_label(1060, 1000), "1 minute ago");
    assert_eq!(relative_time_label(1000 + 120, 1000), "2 minutes ago");
    assert_eq!(relative_time_label(1000 + 2 * 3600, 1000), "2 hours ago");
    assert_eq!(relative_time_label(1000 + 3 * day, 1000), "3 days ago");
    assert_eq!(relative_time_label(1000 + 14 * day, 1000), "2 weeks ago");
    assert_eq!(relative_time_label(1000 + 40 * day, 1000), "1 month ago");
    assert_eq!(relative_time_label(1000 + 400 * day, 1000), "1 year ago");
}

#[test]
fn format_relative_time_runs_against_the_clock() {
    // The reading of the clock is not fixed; the wording for any reading is.
    let label = format_relative_time(0);
    assert!(!label.is_empty());
}

#[test]
fn token_path_joins_data_dir() {
    assert_eq!(token_path("/data"), "/data/github_token");
    assert_eq!(token_path("/data/"), "/data/github_token");
    assert_eq!(token_path(""), "github_token");
}

#[test]
fn recents_move_to_front_dedupe_and_cap() {
    let mut list = vec!["a".to_string(), "b".to_string(), "c".to_string()];
    add_to_list(&mut list, "b".to_string());
    assert_eq!(list, vec!["b", "a", "c"]);
    let mut full = vec![
        "1".to_string(),
        "2".to_string(),
        "3".to_string(),
        "4".to_string(),
        "5".to_string(),
    ];
    add_to_list(&mut full, "6".to_string());
    assert_eq!(full, vec!["6", "1", "2", "3", "4"]);
    let data = RecentData { recent_files: list, recent_folders: full };
    assert_eq!(data.recent_files.len(), 3);
    assert_eq!(data.recent_folders.len(), 5);
}

#[test]
fn poll_decision_arms() {
    assert_eq!(
        auth_poll_decision(Some("tok".to_string()), None),
        Ok(Some("tok".to_string()))
    );
    assert_eq!(auth_poll_decision(None, Some("authorization_pending".to_string())), Ok(None));
    assert_eq!(auth_poll_decision(None, Some("slow_down".to_string())), Ok(None));
    assert_eq!(
        auth_poll_decision(None, Some("expired_token".to_string())),
        Err("Device code expired. Please restart authentication.".to_string())
    );
    assert_eq!(
        auth_poll_decision(None, Some("access_denied".to_string())),
        Err("Access was denied by the user.".to_string())
    );
    assert_eq!(
        auth_poll_decision(None, Some("weird".to_string())),
        Err("Auth error: weird".to_string())
    );
    assert_eq!(auth_poll_decision(None, None), Ok(None));
}

#[test]
fn sentences_split_on_terminator_and_space() {
    assert_eq!(
        split_at_sentences("One. Two! Three? End"),
        vec!["One.", "Two!", "Three?", "End"]
    );
    assert_eq!(split_at_sentences("No terminator here"), vec!["No terminator here"]);
    assert_eq!(split_at_sentences(""), Vec::<String>::new());
    assert_eq!(split_at_sentences("Version 1.2 stays"), vec!["Version 1.2 stays"]);
}

#[test]
fn short_text_is_one_chunk() {
    assert_eq!(chunk_speech_text("short text"), vec!["short text"]);
    assert_eq!(chunk_speech_text("a\n\nb"), vec!["a\n\nb"]);
    assert_eq!(chunk_speech_text("  \n\n  "), Vec::<String>::new());
}

#[test]
fn paragraph_that_does_not_fit_opens_a_new_chunk() {
    let a = "a".repeat(2000);
    let b = "b".repeat(2000);
    let text = format!("{}\n\n{}", a, b);
    let chunks = chunk_speech_text(&text);
    assert_eq!(chunks, vec![a, b]);
}

#[test]
fn overlong_paragraph_splits_at_sentences() {
    let para = "abc. ".repeat(800);
    let chunks = chunk_speech_text(&para);
    assert_eq!(chunks.len(), 2);
    assert_eq!(chunks[0].len(), 3499);
    assert_eq!(chunks[1].len(), 499);
    assert!(chunks.iter().all(|c| c.len() <= 3500));
    assert!(chunks[0].starts_with("abc. abc."));
    assert!(chunks[1].ends_with("abc."));
}

#[test]
fn diff_lines_tags_and_counts() {
    let r = compute_diff("a\nb\nc\n", "a\nc\nd\n");
    assert_eq!(r.additions, 1);
    assert_eq!(r.deletions, 1);
    assert_eq!(r.lines.len(), 4);
    assert_eq!(r.lines[0].tag, "equal");
    assert_eq!(r.lines[0].content, "a\n");
    assert_eq!(r.lines[0].old_line, Some(1));
    assert_eq!(r.lines[0].new_line, Some(1));
    assert_eq!(r.lines[1].tag, "delete");
    assert_eq!(r.lines[1].content, "b\n");
    assert_eq!(r.lines[1].old_line, Some(2));
    assert_eq!(r.lines[1].new_line, None);
    assert_eq!(r.lines[2].tag, "equal");
    assert_eq!(r.lines[2].content, "c\n");
    assert_eq!(r.lines[2].old_line, Some(3));
    assert_eq!(r.lines[2].new_line, Some(2));
    assert_eq!(r.lines[3].tag, "insert");
    assert_eq!(r.lines[3].content, "d\n");
    assert_eq!(r.lines[3].old_line, None);
    assert_eq!(r.lines[3].new_line, Some(3));
}

#[test]
fn file_status_classification_order() {
    assert_eq!(classify_file_status(true, true, true, true, true, true, true), "clean");
    assert_eq!(classify_file_status(false, true, false, false, true, false, false), "staged");
    assert_eq!(classify_file_status(false, false, true, false, false, false, false), "staged");
    assert_eq!(classify_file_status(false, false, false, true, false, false, false), "staged");
    assert_eq!(classify_file_status(false, false, false, false, true, true, false), "modified");
    assert_eq!(classify_file_status(false, false, false, false, false, true, false), "untracked");
    assert_eq!(classify_file_status(false, false, false, false, false, false, true), "ignored");
    assert_eq!(classify_file_status(false, false, false, false, false, false, false), "clean");
}

#[test]
fn home_prefix_becomes_tilde() {
    assert_eq!(abbreviate_home("/home/u/notes.md", "/home/u"), "~/notes.md");
    assert_eq!(abbreviate_home("/tmp/x", "/home/u"), "/tmp/x");
    assert_eq!(abbreviate_home("/home/u", "/home/u"), "~");
}

fn sp_text(s: &str) -> Node {
    Node::Text { literal: s.to_string() }
}

#[test]
fn speech_text_drops_markup_and_collapses_pauses() {
    let d = Node::Document {
        children: vec![
            Node::Heading { level: 1, children: vec![sp_text("Title")] },
            Node::Paragraph {
                children: vec![
                    Node::Strong { children: vec![sp_text("bold")] },
                    Node::SoftBreak,
                    sp_text("text"),
                ],
            },
        ],
    };
    assert_eq!(markdown_to_speech_text(&d, false), "Title\n\nbold text");
}

#[test]
fn speech_text_announces_or_reads_code_blocks() {
    let d = Node::Document {
        children: vec![Node::CodeBlock {
            info: "rust".to_string(),
            literal: "let x = 1;\n".to_string(),
        }],
    };
    assert_eq!(markdown_to_speech_text(&d, false), "Code block.");
    assert_eq!(markdown_to_speech_text(&d, true), "let x = 1;");
}

#[test]
fn speech_text_for_links_images_and_footnotes() {
    let d = Node::Document {
        children: vec![Node::Paragraph {
            children: vec![
                Node::Link { url: "https://e.com".to_string(), children: vec![sp_text("site")] },
                Node::SoftBreak,
                Node::Link { url: "https://bare.com".to_string(), children: vec![] },
                Node::SoftBreak,
                Node::Image {
                    url: "a.png".to_string(),
                    title: "diagram".to_string(),
                    children: vec![],
                },
                Node::SoftBreak,
                Node::Image { url: "b.png".to_string(), title: "".to_string(), children: vec![] },
                Node::SoftBreak,
                Node::FootnoteReference { name: "7".to_string() },
            ],
        }],
    };
    assert_eq!(
        markdown_to_speech_text(&d, false),
        "site https://bare.com diagram Image footnote 7"
    );
}

#[test]
fn speech_text_quotes_and_lists() {
    let d = Node::Document {
        children: vec![
            Node::BlockQuote { children: vec![Node::Paragraph { children: vec![sp_text("wise")] }] },
            Node::List {
                ordered: false,
                tight: true,
                children: vec![Node::Item {
                    ordered: false,
                    tight: true,
                    children: vec![Node::Paragraph { children: vec![sp_text("item")] }],
                }],
            },
        ],
    };
    assert_eq!(markdown_to_speech_text(&d, false), "Quote: wise\n\nitem");
}

#[test]
fn diff_of_identical_texts_is_all_equal() {
    let r = compute_diff("x\ny\n", "x\ny\n");
    assert_eq!(r.additions, 0);
    assert_eq!(r.deletions, 0);
    assert!(r.lines.iter().all(|l| l.tag == "equal"));
}
