use std::path::Path;
use md_reader::page::{mermaid_candidates, build_page, file_url, html_escape, mermaid_src, read_time, MermaidCandidate};

#[test]
fn page_escape_matches_text_escape() {
    let s = "a&b<c>d\"e'f";
    assert_eq!(html_escape(s), "a&amp;b&lt;c&gt;d&quot;e'f");
    assert_eq!(html_escape(s), md_reader::markdown::html_escape(s));
}

#[test]
fn file_url_uses_forward_slashes() {
    assert_eq!(file_url("C:\\Users\\me\\dist\\mermaid.min.js"), "file://C:/Users/me/dist/mermaid.min.js");
    assert_eq!(file_url("/home/me/x.html"), "file:///home/me/x.html");
    assert!(!file_url("a\\b\\\\c").contains('\\'));
}

#[test]
fn mermaid_src_takes_first_existing() {
    let c = vec![
        MermaidCandidate { path: "/a/mermaid.min.js".to_string(), exists: false },
        MermaidCandidate { path: "/b/mermaid.min.js".to_string(), exists: true },
        MermaidCandidate { path: "/c/mermaid.min.js".to_string(), exists: true },
    ];
    assert_eq!(mermaid_src(&c), "file:///b/mermaid.min.js");
}

#[test]
fn mermaid_src_falls_back_to_cdn() {
    let c = vec![MermaidCandidate { path: "/a".to_string(), exists: false }];
    assert_eq!(mermaid_src(&c), "https://cdn.jsdelivr.net/npm/mermaid@11/dist/mermaid.min.js");
    assert_eq!(mermaid_src(&vec![]), "https://cdn.jsdelivr.net/npm/mermaid@11/dist/mermaid.min.js");
}

#[test]
fn read_time_rounds_up() {
    assert_eq!(read_time(0), 0);
    assert_eq!(read_time(1), 1);
    assert_eq!(read_time(200), 1);
    assert_eq!(read_time(201), 2);
    assert_eq!(read_time(1000), 5);
    for w in [0usize, 1, 199, 200, 399, 400, 12345] {
        assert_eq!(read_time(w), (w as f64 / 200.0).ceil() as usize);
    }
}

#[test]
fn page_fills_every_placeholder() {
    let page = build_page("# Hi\n\none two three", "notes <1>.md", "file:///m.js", "1.2.3");
    assert!(!page.contains("__CONTENT__"));
    assert!(!page.contains("__FILENAME__"));
    assert!(!page.contains("__MERMAID_SRC__"));
    assert!(!page.contains("__WORD_COUNT__"));
    assert!(!page.contains("__READ_TIME__"));
    assert!(!page.contains("__VERSION__"));
    assert!(page.contains("<h1 id=\"heading-0\">Hi</h1><p>one two three</p>"));
    assert!(page.contains("<title>notes &lt;1&gt;.md — MD Reader</title>"));
    assert!(page.contains("<script src=\"file:///m.js\"></script>"));
    assert!(page.contains("5 words · 1 min read"));
    assert!(page.contains("v1.2.3"));
    assert!(page.starts_with("<!DOCTYPE html>"));
    assert!(page.ends_with("</html>"));
}

#[test]
fn body_goes_in_verbatim() {
    let page = build_page("`__VERSION__` and `__FILENAME__`", "f.md", "m.js", "9.9");
    assert!(page.contains("<code>__VERSION__</code> and <code>__FILENAME__</code>"));
    let page = build_page("x", "__CONTENT__.md", "m.js", "9.9");
    assert!(page.contains("<title>__CONTENT__.md — MD Reader</title>"));
}

#[test]
fn code_words_do_not_count_toward_reading_time() {
    let page = build_page("one\n```\nfoo bar\n```\n", "f.md", "m.js", "1");
    assert!(page.contains("1 words · 1 min read"));
}

#[test]
fn mermaid_candidates_follow_search_order() {
    assert_eq!(
        mermaid_candidates(Some("/opt/md"), Some("/docs/"), Some("/home/u/.local/share"), '/'),
        vec![
            "/opt/md/dist/mermaid.min.js",
            "/opt/md/../../src/dist/mermaid.min.js",
            "/docs/dist/mermaid.min.js",
            "/home/u/.local/share/MDReader/dist/mermaid.min.js",
        ]
    );
    assert_eq!(mermaid_candidates(None, Some(""), None, '/'), vec!["dist/mermaid.min.js"]);
    assert_eq!(
        mermaid_candidates(Some("C:\\x"), None, None, '\\'),
        vec!["C:\\x\\dist\\mermaid.min.js", "C:\\x\\../../src/dist\\mermaid.min.js"]
    );
    assert!(mermaid_candidates(None, None, None, '/').is_empty());
}

#[test]
fn candidates_match_path_join() {
    for base in ["/a/b", "/a/b/", "rel", ""] {
        let c = mermaid_candidates(Some(base), Some(base), Some(base), std::path::MAIN_SEPARATOR);
        let p = Path::new(base);
        let expected = [
            p.join("dist").join("mermaid.min.js"),
            p.join("../../src/dist").join("mermaid.min.js"),
            p.join("dist").join("mermaid.min.js"),
            p.join("MDReader").join("dist").join("mermaid.min.js"),
        ];
        for (got, want) in c.iter().zip(expected.iter()) {
            assert_eq!(got, &want.to_string_lossy().to_string());
        }
    }
}
