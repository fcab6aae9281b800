# md_reader

The verified core of a native Markdown reader with Mermaid diagram support.

- `src/text.rs`: character-level search, replacement, trimming, whitespace
  and decimal formatting on `Seq<char>` / `Vec<char>`.
- `src/markdown.rs`: Markdown to HTML. Mermaid blocks are taken out before
  parsing and put back as `<div class="mermaid">` elements; the parser's
  events (pulldown-cmark) are rendered by a verified state machine that gives
  headings anchors, escapes text and writes code blocks; the word count
  outside code blocks.
- `src/page.rs`, `src/template.rs`: the HTML page around the rendered body,
  the reading time and where the Mermaid script is loaded from.
- `src/install.rs`: what installing writes: the Windows registry commands and
  shortcut script, the Linux desktop entry and default-application list.
- `app/`: the program itself: arguments, files, dialogs, the window and web
  view, and running the install commands.
