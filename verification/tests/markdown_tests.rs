use md_reader::markdown::{
    count_words, extract_mermaid, html_attr_escape, html_escape, inject_mermaid, render,
    render_events, Level, MdEvent,
};

#[test]
fn escape_replaces_the_four_special_characters() {
    assert_eq!(html_escape("a < b && c > \"d\""), "a &lt; b &amp;&amp; c &gt; &quot;d&quot;");
    assert_eq!(html_escape("it's"), "it's");
    assert_eq!(html_escape(""), "");
}

#[test]
fn attr_escape_replaces_quotes() {
    assert_eq!(html_attr_escape("rust\"x'y"), "rust&quot;x&#39;y");
    assert_eq!(html_attr_escape("a<b&c"), "a<b&amp;c");
    assert_eq!(html_attr_escape("a&quot;b"), "a&amp;quot;b");
}

#[test]
fn words_are_whitespace_separated() {
    assert_eq!(count_words(""), 0);
    assert_eq!(count_words("   \n\t "), 0);
    assert_eq!(count_words("one"), 1);
    assert_eq!(count_words("  one two\tthree\nfour  "), 4);
    assert_eq!(count_words("a\u{a0}b\u{3000}c"), 3);
}

#[test]
fn word_count_adds_over_a_space() {
    let a = "hello big";
    let b = " world ";
    let joined = format!("{} {}", a, b);
    assert_eq!(count_words(&joined), count_words(a) + count_words(b));
}

#[test]
fn extract_without_mermaid_keeps_text() {
    let (out, blocks) = extract_mermaid("# Title\n\n```rust\nfn main() {}\n```\n");
    assert_eq!(out, "# Title\n\n```rust\nfn main() {}\n```\n");
    assert!(blocks.is_empty());
}

#[test]
fn extract_replaces_blocks_with_placeholders() {
    let input = "before\n```mermaid\ngraph TD\n  A-->B\n```\nmiddle\n```mermaid\n  pie\n```end";
    let (out, blocks) = extract_mermaid(input);
    assert_eq!(out, "before\n<!--MERMAID:0-->\nmiddle\n<!--MERMAID:1-->end");
    assert_eq!(blocks, vec!["graph TD\n  A-->B".to_string(), "pie".to_string()]);
}

#[test]
fn extract_leaves_unclosed_block() {
    let input = "x ```mermaid\ngraph\nno end";
    let (out, blocks) = extract_mermaid(input);
    assert_eq!(out, input);
    assert!(blocks.is_empty());
}

#[test]
fn extract_block_without_newline_is_empty() {
    let (out, blocks) = extract_mermaid("```mermaid");
    assert_eq!(out, "```mermaid");
    assert!(blocks.is_empty());
    let (out, blocks) = extract_mermaid("```mermaid graph```\n```tail");
    assert_eq!(out, "<!--MERMAID:0-->tail");
    assert_eq!(blocks, vec!["".to_string()]);
}

#[test]
fn inject_replaces_every_placeholder() {
    let html = "<p><!--MERMAID:0--></p>\n<!--MERMAID:0-->".to_string();
    let out = inject_mermaid(html, &["g".to_string()]);
    assert_eq!(out, "<div class=\"mermaid\">g</div>\n<div class=\"mermaid\">g</div>");
    let out = inject_mermaid("<p><!--MERMAID:0--></p><!--MERMAID:0-->".to_string(), &["A".to_string()]);
    assert_eq!(out, "<div class=\"mermaid\">A</div><div class=\"mermaid\">A</div>");
    let out = inject_mermaid("x<!--MERMAID:0-->y<!--MERMAID:1-->".to_string(), &[
        "a".to_string(),
        "b".to_string(),
    ]);
    assert_eq!(out, "x<div class=\"mermaid\">a</div>y<div class=\"mermaid\">b</div>");
}

#[test]
fn inject_without_blocks_is_identity() {
    let html = "<p>hi <!--MERMAID:0--></p>".to_string();
    assert_eq!(inject_mermaid(html.clone(), &[]), html);
}

#[test]
fn events_render_headings_with_anchors() {
    let events = vec![
        MdEvent::HeadingStart { level: Level::H1, id: None, classes: vec![] },
        MdEvent::Text("A & B".to_string()),
        MdEvent::HeadingEnd,
        MdEvent::HeadingStart {
            level: Level::H2,
            id: Some("custom".to_string()),
            classes: vec!["x".to_string(), "y".to_string()],
        },
        MdEvent::Text("C".to_string()),
        MdEvent::HeadingEnd,
        MdEvent::HeadingStart { level: Level::H3, id: None, classes: vec![] },
        MdEvent::HeadingEnd,
        MdEvent::HeadingEnd,
    ];
    assert_eq!(
        render_events(&events),
        "<h1 id=\"heading-0\">A &amp; B</h1><h2 id=\"custom\" class=\"x y\">C</h2><h3 id=\"heading-2\"></h3>"
    );
}

#[test]
fn events_render_code_blocks() {
    let events = vec![
        MdEvent::CodeBlockStart { lang: Some("rust\"".to_string()) },
        MdEvent::Text("if a < b {\n".to_string()),
        MdEvent::Text("}\n".to_string()),
        MdEvent::CodeBlockEnd,
        MdEvent::CodeBlockStart { lang: None },
        MdEvent::Text("x".to_string()),
        MdEvent::CodeBlockEnd,
        MdEvent::Other("<p>".to_string()),
        MdEvent::Text("<raw>".to_string()),
        MdEvent::Other("</p>\n".to_string()),
    ];
    assert_eq!(
        render_events(&events),
        "<pre><code class=\"language-rust&quot;\">if a &lt; b {\n}\n</code></pre>\n<pre><code>x</code></pre>\n<p>&lt;raw&gt;</p>\n"
    );
}

#[test]
fn render_heading_and_paragraph() {
    let (html, words) = render("# Hello\n\nSome *text* here.");
    assert_eq!(html, "<h1 id=\"heading-0\">Hello</h1><p>Some <em>text</em> here.</p>\n");
    assert_eq!(words, 5);
}

#[test]
fn render_heading_attributes() {
    let (html, _) = render("## Title {#top .big}\n# Next");
    assert_eq!(html, "<h2 id=\"top\" class=\"big\">Title</h2><h1 id=\"heading-1\">Next</h1>");
}

#[test]
fn render_fenced_code() {
    let (html, words) = render("```rust\nlet x = a < b;\n```\n");
    assert_eq!(html, "<pre><code class=\"language-rust\">let x = a &lt; b;\n</code></pre>\n");
    assert_eq!(words, 0);
}

#[test]
fn render_mermaid_diagram() {
    let (html, words) = render("```mermaid\ngraph TD\n  A-->B\n```\n");
    assert_eq!(html, "<div class=\"mermaid\">graph TD\n  A-->B</div>\n");
    assert_eq!(words, 0);
}

#[test]
fn word_count_agrees_with_split_whitespace() {
    let samples = [
        "a b",
        "\u{85}x\u{2028}y\u{2029}z\u{202f}w\u{205f}v\u{1680}u\u{200a}t\u{2000}s\u{000b}r\u{000c}q",
        "no\u{200b}break",
        "  lead and trail  ",
        "tabs\tand\r\nlines",
    ];
    for s in samples {
        assert_eq!(count_words(s), s.split_whitespace().count());
    }
}

#[test]
fn escapes_agree_with_sequential_replacement() {
    let samples = ["", "plain", "<a href=\"x\">&amp;</a>", "it's \"quoted\" & 'single'"];
    for s in samples {
        let expected = s
            .replace('&', "&amp;")
            .replace('<', "&lt;")
            .replace('>', "&gt;")
            .replace('"', "&quot;");
        assert_eq!(html_escape(s), expected);
        let expected_attr = s.replace('&', "&amp;").replace('"', "&quot;").replace('\'', "&#39;");
        assert_eq!(html_attr_escape(s), expected_attr);
    }
}

#[test]
fn escaped_text_has_no_markup() {
    let e = html_escape("<script>alert(\"x\")</script>");
    assert!(!e.contains('<') && !e.contains('>') && !e.contains('"'));
    let a = html_attr_escape("a\"b'c");
    assert!(!a.contains('"') && !a.contains('\''));
}

#[test]
fn extracted_blocks_are_trimmed() {
    let (_, blocks) = extract_mermaid("```mermaid\n\n   graph LR\n\t\n```\n");
    assert_eq!(blocks, vec!["graph LR".to_string()]);
}

#[test]
fn document_without_mermaid_is_not_changed_by_extraction() {
    let input = "# T\n\n<!--MERMAID:0--> text";
    let (out, blocks) = extract_mermaid(input);
    assert_eq!(out, input);
    assert!(blocks.is_empty());
}

#[test]
fn anchors_are_numbered_in_order() {
    let (html, _) = render("# A\n## B {#b}\n### C\n");
    assert_eq!(html, "<h1 id=\"heading-0\">A</h1><h2 id=\"b\">B</h2><h3 id=\"heading-2\">C</h3>");
}

#[test]
fn text_is_escaped_everywhere() {
    let (html, _) = render("a &amp; b");
    assert_eq!(html, "<p>a &amp; b</p>\n");
    let (html, _) = render("1 < 2");
    assert_eq!(html, "<p>1 &lt; 2</p>\n");
    let (html, _) = render("# x &amp; y");
    assert_eq!(html, "<h1 id=\"heading-0\">x &amp; y</h1>");
}

#[test]
fn inject_leaves_html_without_placeholders() {
    let html = "<p>nothing to see</p>\n".to_string();
    assert_eq!(inject_mermaid(html.clone(), &["a".to_string(), "b".to_string()]), html);
}

#[test]
fn every_block_leaves_its_placeholder() {
    let (out, blocks) = extract_mermaid("```mermaid\na\n```\n```mermaid\nb\n```\n```mermaid\nc\n```");
    assert_eq!(blocks.len(), 3);
    for k in 0..blocks.len() {
        assert!(out.contains(&format!("<!--MERMAID:{k}-->")));
    }
}

#[test]
fn code_blocks_are_not_counted() {
    assert_eq!(count_words("one\n```\nfoo bar\n```\n"), 1);
    assert_eq!(count_words("a b\n~~~ lang\nx y z\n~~~\nc"), 3);
    assert_eq!(count_words("a\n```\nnever closed\nstill code"), 1);
    assert_eq!(count_words("a\n~~~\n```\nstill code\n~~~\nb"), 2);
    assert_eq!(count_words("para\n\n    code here\n\tmore code\nafter"), 2);
    assert_eq!(count_words("    code first\ntext"), 0 + 1);
    assert_eq!(count_words("para\n    continued line"), 3);
    assert_eq!(count_words("   ```\nx\n```"), 0);
    assert_eq!(count_words("    ```\nx"), 1);
}

#[test]
fn no_words_exactly_when_blank() {
    for s in ["", "  \t\n ", "a", " a ", "\u{3000}"] {
        assert_eq!(count_words(s) == 0, s.trim().is_empty());
    }
}

#[test]
fn injection_shows_every_diagram_and_leaves_no_placeholder() {
    let html = "<!--MERMAID:1-->\n<p><!--MERMAID:0--></p>\n<!--MERMAID:1-->x<!--MERMAID:10-->".to_string();
    let blocks: Vec<String> = (0..11).map(|i| format!("b{i}")).collect();
    let out = inject_mermaid(html, &blocks);
    assert_eq!(
        out,
        "<div class=\"mermaid\">b1</div>\n<div class=\"mermaid\">b0</div>\n<div class=\"mermaid\">b1</div>x<div class=\"mermaid\">b10</div>"
    );
    assert!(!out.contains("<!--MERMAID:"));
}
