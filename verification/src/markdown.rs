//! Markdown to HTML: heading anchors, fenced code blocks, Mermaid diagram
//! extraction and injection, and the word count.

use vstd::prelude::*;
use pulldown_cmark::{CodeBlockKind, Event, Tag, TagEnd};
use crate::text::{
    chars_of, contains, decimal, digit_char, find_chars, find_chars_from, find_from, is_whitespace,
    is_ws, lead_only, lemma_find_from, lemma_occurs_char, lemma_occurs_contains,
    lemma_occurs_in_middle, lemma_occurs_trans, lemma_replace_absent, lemma_replace_contains_rep,
    lemma_replace_keeps, lemma_replace_no_new, occurs_at, push_all, push_decimal, push_str,
    replace_all, replace_chars, slice_chars, string_of, trim, trim_chars, trim_end, trim_start,
};

verus! {

// ── Escaping ────────────────────────────────────────────────────────────────

/// The HTML text escape of one character: `&`, `<`, `>` and `"` become
/// entities, every other character stays.
pub open spec fn escape_char(c: char) -> Seq<char> {
    if c == '&' {
        seq!['&', 'a', 'm', 'p', ';']
    } else if c == '<' {
        seq!['&', 'l', 't', ';']
    } else if c == '>' {
        seq!['&', 'g', 't', ';']
    } else if c == '"' {
        seq!['&', 'q', 'u', 'o', 't', ';']
    } else {
        seq![c]
    }
}

/// The HTML text escape of `s`, character by character.
pub open spec fn escape_text(s: Seq<char>) -> Seq<char>
    decreases s.len(),
{
    if s.len() == 0 {
        Seq::empty()
    } else {
        escape_text(s.drop_last()) + escape_char(s.last())
    }
}

/// The attribute-value escape of one character: `&`, `"` and `'` become
/// entities.
pub open spec fn attr_escape_char(c: char) -> Seq<char> {
    if c == '&' {
        seq!['&', 'a', 'm', 'p', ';']
    } else if c == '"' {
        seq!['&', 'q', 'u', 'o', 't', ';']
    } else if c == '\'' {
        seq!['&', '#', '3', '9', ';']
    } else {
        seq![c]
    }
}

/// The attribute-value escape of `s`, character by character.
pub open spec fn attr_escape_text(s: Seq<char>) -> Seq<char>
    decreases s.len(),
{
    if s.len() == 0 {
        Seq::empty()
    } else {
        attr_escape_text(s.drop_last()) + attr_escape_char(s.last())
    }
}

/// Appends the HTML text escape of `s` to `out`.
pub fn push_escaped(out: &mut Vec<char>, s: &Vec<char>)
    ensures
        final(out)@ == old(out)@ + escape_text(s@),
{
    let ghost start = out@;
    for i in 0..s.len()
        invariant
            out@ == start + escape_text(s@.take(i as int)),
    {
        let c = s[i];
        if c == '&' {
            out.push('&');
            out.push('a');
            out.push('m');
            out.push('p');
            out.push(';');
        } else if c == '<' {
            out.push('&');
            out.push('l');
            out.push('t');
            out.push(';');
        } else if c == '>' {
            out.push('&');
            out.push('g');
            out.push('t');
            out.push(';');
        } else if c == '"' {
            out.push('&');
            out.push('q');
            out.push('u');
            out.push('o');
            out.push('t');
            out.push(';');
        } else {
            out.push(c);
        }
        assert(s@.take(i + 1).drop_last() =~= s@.take(i as int));
        assert(out@ =~= start + escape_text(s@.take(i + 1)));
    }
    assert(s@.take(s.len() as int) =~= s@);
}

/// Appends the attribute-value escape of `s` to `out`.
pub fn push_attr_escaped(out: &mut Vec<char>, s: &Vec<char>)
    ensures
        final(out)@ == old(out)@ + attr_escape_text(s@),
{
    let ghost start = out@;
    for i in 0..s.len()
        invariant
            out@ == start + attr_escape_text(s@.take(i as int)),
    {
        let c = s[i];
        if c == '&' {
            out.push('&');
            out.push('a');
            out.push('m');
            out.push('p');
            out.push(';');
        } else if c == '"' {
            out.push('&');
            out.push('q');
            out.push('u');
            out.push('o');
            out.push('t');
            out.push(';');
        } else if c == '\'' {
            out.push('&');
            out.push('#');
            out.push('3');
            out.push('9');
            out.push(';');
        } else {
            out.push(c);
        }
        assert(s@.take(i + 1).drop_last() =~= s@.take(i as int));
        assert(out@ =~= start + attr_escape_text(s@.take(i + 1)));
    }
    assert(s@.take(s.len() as int) =~= s@);
}

/// HTML-escapes text content (not attribute values): `&`, `<`, `>` and `"`.
pub fn html_escape(s: &str) -> (r: String)
    ensures
        r@ == escape_text(s@),
{
    let v = chars_of(s);
    let mut out: Vec<char> = Vec::new();
    push_escaped(&mut out, &v);
    string_of(&out)
}

/// Escapes a value for use inside an HTML attribute: `&`, `"` and `'`.
pub fn html_attr_escape(s: &str) -> (r: String)
    ensures
        r@ == attr_escape_text(s@),
{
    let v = chars_of(s);
    let mut out: Vec<char> = Vec::new();
    push_attr_escaped(&mut out, &v);
    string_of(&out)
}

// ── Word count ──────────────────────────────────────────────────────────────

/// A word starts at index `i` of `s`: a non-whitespace character at the start
/// or after whitespace.
pub open spec fn starts_word(s: Seq<char>, i: int) -> bool {
    !is_ws(s[i]) && (i == 0 || is_ws(s[i - 1]))
}

/// The number of maximal runs of non-whitespace characters in `s` (as
/// `str::split_whitespace().count()`).
pub open spec fn word_count(s: Seq<char>) -> nat
    decreases s.len(),
{
    if s.len() == 0 {
        0
    } else {
        word_count(s.drop_last()) + if starts_word(s, s.len() - 1) {
            1nat
        } else {
            0nat
        }
    }
}

/// Counts the whitespace-separated words of a character sequence.
pub fn count_words_in(s: &Vec<char>) -> (n: usize)
    ensures
        n == word_count(s@),
        n <= s.len(),
{
    let mut n: usize = 0;
    for i in 0..s.len()
        invariant
            n == word_count(s@.take(i as int)),
            n <= i,
    {
        let ghost t = s@.take(i + 1);
        assert(t.drop_last() =~= s@.take(i as int));
        if !is_whitespace(s[i]) && (i == 0 || is_whitespace(s[i - 1])) {
            n = n + 1;
        }
    }
    assert(s@.take(s.len() as int) =~= s@);
    n
}

/// A line has a code fence at index `k`: `k` spaces, then three backticks or
/// three tildes.
pub open spec fn fence_at(line: Seq<char>, k: int) -> bool {
    &&& 0 <= k
    &&& k + 3 <= line.len()
    &&& forall|j: int| 0 <= j < k ==> line[j] == ' '
    &&& (line[k] == '`' || line[k] == '~')
    &&& line[k + 1] == line[k]
    &&& line[k + 2] == line[k]
}

/// The fence character of a line that opens or closes a fenced code block:
/// after at most three spaces, three backticks or three tildes.
pub open spec fn fence_char(line: Seq<char>) -> Option<char> {
    if fence_at(line, 0) {
        Some(line[0])
    } else if fence_at(line, 1) {
        Some(line[1])
    } else if fence_at(line, 2) {
        Some(line[2])
    } else if fence_at(line, 3) {
        Some(line[3])
    } else {
        None
    }
}

/// A line indented as code: it starts with a tab or with four spaces.
pub open spec fn indented(line: Seq<char>) -> bool {
    line.len() > 0 && (line[0] == '\t' || (line.len() >= 4 && line[0] == ' ' && line[1] == ' '
        && line[2] == ' ' && line[3] == ' '))
}

/// Where the line that starts at `pos` ends: at the next `\n`, or at the end.
pub open spec fn line_end(s: Seq<char>, pos: int) -> int {
    match find_from(s, seq!['\n'], pos) {
        Some(k) => k,
        None => s.len() as int,
    }
}

/// The words of `s` from the line that starts at `pos` on, leaving out code:
/// `fence` is the character of the open fenced block, if any (its lines and
/// both fence lines count nothing, and without a closing fence it runs to the
/// end); `may_indent` says that an indented line here starts or continues an
/// indented code block (at the start, after a blank line, after indented code
/// or after a fenced block), whose lines count nothing. A blank line counts
/// nothing; any other line counts its whitespace-separated words.
pub open spec fn prose_words_from(s: Seq<char>, pos: int, fence: Option<char>, may_indent: bool) -> nat
    decreases s.len() + 1 - pos,
{
    if pos < 0 || pos >= s.len() {
        0
    } else {
        let e = line_end(s, pos);
        let line = s.subrange(pos, e);
        let (count, next_fence, next_indent): (nat, Option<char>, bool) = match fence {
            Some(f) => (0, if fence_char(line) == Some(f) {
                None
            } else {
                Some(f)
            }, true),
            None => match fence_char(line) {
                Some(f) => (0, Some(f), true),
                None => if word_count(line) == 0 {
                    (0, None, true)
                } else if may_indent && indented(line) {
                    (0, None, true)
                } else {
                    (word_count(line), None, false)
                },
            },
        };
        proof {
            lemma_find_from(s, seq!['\n'], pos);
        }
        count + prose_words_from(s, e + 1, next_fence, next_indent)
    }
}

/// The words of a Markdown text outside its fenced and indented code blocks.
pub open spec fn text_word_count(s: Seq<char>) -> nat {
    prose_words_from(s, 0, None, true)
}

fn fence_at_exec(line: &Vec<char>, k: usize) -> (b: bool)
    requires
        k <= 3,
    ensures
        b == fence_at(line@, k as int),
{
    if k + 3 > line.len() {
        return false;
    }
    let mut j: usize = 0;
    while j < k
        invariant
            j <= k,
            k + 3 <= line.len(),
            forall|m: int| 0 <= m < j ==> line@[m] == ' ',
        decreases k - j,
    {
        if line[j] != ' ' {
            return false;
        }
        j = j + 1;
    }
    let c = line[k];
    (c == '`' || c == '~') && line[k + 1] == c && line[k + 2] == c
}

fn fence_char_exec(line: &Vec<char>) -> (r: Option<char>)
    ensures
        r == fence_char(line@),
{
    if fence_at_exec(line, 0) {
        Some(line[0])
    } else if fence_at_exec(line, 1) {
        Some(line[1])
    } else if fence_at_exec(line, 2) {
        Some(line[2])
    } else if fence_at_exec(line, 3) {
        Some(line[3])
    } else {
        None
    }
}

fn indented_exec(line: &Vec<char>) -> (b: bool)
    ensures
        b == indented(line@),
{
    line.len() > 0 && (line[0] == '\t' || (line.len() >= 4 && line[0] == ' ' && line[1] == ' '
        && line[2] == ' ' && line[3] == ' '))
}

/// Counts the words of a Markdown text, leaving out fenced and indented code
/// blocks.
pub fn count_words(input: &str) -> (n: usize)
    ensures
        n == text_word_count(input@),
{
    let s = chars_of(input);
    let newline: Vec<char> = vec!['\n'];
    let mut n: usize = 0;
    let mut pos: usize = 0;
    let mut fence: Option<char> = None;
    let mut may_indent = true;
    while pos < s.len()
        invariant
            pos <= s.len(),
            n <= pos,
            newline@ == seq!['\n'],
            text_word_count(s@) == n + prose_words_from(s@, pos as int, fence, may_indent),
        decreases s.len() - pos,
    {
        proof {
            lemma_find_from(s@, seq!['\n'], pos as int);
        }
        let e = match find_chars_from(&s, &newline, pos) {
            Some(k) => k,
            None => s.len(),
        };
        let line = slice_chars(&s, pos, e);
        let f = fence_char_exec(&line);
        match fence {
            Some(c) => {
                if f == Some(c) {
                    fence = None;
                }
                may_indent = true;
            },
            None => {
                if f.is_some() {
                    fence = f;
                    may_indent = true;
                } else {
                    let w = count_words_in(&line);
                    if w == 0 {
                        may_indent = true;
                    } else if may_indent && indented_exec(&line) {
                        may_indent = true;
                    } else {
                        n = n + w;
                        may_indent = false;
                    }
                }
            },
        }
        if e == s.len() {
            pos = s.len();
            assert(prose_words_from(s@, e + 1, fence, may_indent) == 0);
        } else {
            pos = e + 1;
        }
    }
    n
}

// ── Mermaid extraction ──────────────────────────────────────────────────────

/// The opening of a Mermaid fence: three backticks and `mermaid`.
pub open spec fn mermaid_open() -> Seq<char> {
    seq!['`', '`', '`', 'm', 'e', 'r', 'm', 'a', 'i', 'd']
}

/// A closing fence: three backticks.
pub open spec fn fence() -> Seq<char> {
    seq!['`', '`', '`']
}

/// The placeholder that stands for the `n`-th Mermaid block:
/// `<!--MERMAID:n-->`.
pub open spec fn placeholder(n: nat) -> Seq<char> {
    "<!--MERMAID:"@ + decimal(n) + "-->"@
}

/// Mermaid extraction from index `pos` of `s`, numbering blocks from `n`:
/// the text with each closed Mermaid block replaced by its placeholder, and
/// the trimmed contents of those blocks. A block's content starts after the
/// first newline that follows its opening (or at the end of the text) and
/// ends before the next closing fence; an opening without a closing fence,
/// and all that follows it, stays as it is.
pub open spec fn extract_at(s: Seq<char>, pos: int, n: nat) -> (Seq<char>, Seq<Seq<char>>)
    decreases s.len() - pos,
{
    if pos < 0 || pos > s.len() {
        (Seq::empty(), Seq::empty())
    } else {
        match find_from(s, mermaid_open(), pos) {
            None => (s.subrange(pos, s.len() as int), Seq::empty()),
            Some(start) => {
                let after = start + 10;
                let content = match find_from(s, seq!['\n'], after) {
                    Some(i) => i + 1,
                    None => s.len() as int,
                };
                match find_from(s, fence(), content) {
                    None => (s.subrange(pos, s.len() as int), Seq::empty()),
                    Some(end) => {
                        proof {
                            lemma_find_from(s, mermaid_open(), pos);
                            lemma_find_from(s, seq!['\n'], after);
                            lemma_find_from(s, fence(), content);
                        }
                        let rest = extract_at(s, end + 3, n + 1);
                        (
                            s.subrange(pos, start) + placeholder(n) + rest.0,
                            seq![trim(s.subrange(content, end))] + rest.1,
                        )
                    },
                }
            },
        }
    }
}

/// Mermaid extraction from the whole text, numbering blocks from zero.
pub open spec fn extract_spec(s: Seq<char>) -> (Seq<char>, Seq<Seq<char>>) {
    extract_at(s, 0, 0)
}

/// The character views of a list of strings.
pub open spec fn string_views(v: Seq<String>) -> Seq<Seq<char>> {
    v.map_values(|b: String| b@)
}

fn mermaid_open_chars() -> (v: Vec<char>)
    ensures
        v@ == mermaid_open(),
{
    let v = chars_of("```mermaid");
    proof {
        reveal_strlit("```mermaid");
    }
    assert(v@ =~= mermaid_open());
    v
}

fn fence_chars() -> (v: Vec<char>)
    ensures
        v@ == fence(),
{
    let v = chars_of("```");
    proof {
        reveal_strlit("```");
    }
    assert(v@ =~= fence());
    v
}

/// Appends the placeholder of block `n` to `out`.
fn push_placeholder(out: &mut Vec<char>, n: usize)
    ensures
        final(out)@ == old(out)@ + placeholder(n as nat),
{
    push_str(out, "<!--MERMAID:");
    push_decimal(out, n);
    push_str(out, "-->");
    assert(out@ =~= old(out)@ + placeholder(n as nat));
}

/// Extracts the closed Mermaid fenced blocks of `input`, replacing each with a
/// `<!--MERMAID:N-->` placeholder; returns the new text and the trimmed block
/// contents.
pub fn extract_mermaid(input: &str) -> (r: (String, Vec<String>))
    ensures
        r.0@ == extract_spec(input@).0,
        string_views(r.1@) == extract_spec(input@).1,
{
    let s = chars_of(input);
    let open = mermaid_open_chars();
    let newline: Vec<char> = vec!['\n'];
    let close = fence_chars();
    let mut out: Vec<char> = Vec::new();
    let mut blocks: Vec<String> = Vec::new();
    let mut pos: usize = 0;
    loop
        invariant_except_break
            extract_spec(s@).0 == out@ + extract_at(s@, pos as int, blocks.len() as nat).0,
            extract_spec(s@).1 == string_views(blocks@) + extract_at(
                s@,
                pos as int,
                blocks.len() as nat,
            ).1,
        invariant
            pos <= s.len(),
            open@ == mermaid_open(),
            newline@ == seq!['\n'],
            close@ == fence(),
        ensures
            extract_spec(s@).0 == out@,
            extract_spec(s@).1 == string_views(blocks@),
        decreases s.len() - pos,
    {
        let ghost n = blocks.len() as nat;
        match find_chars_from(&s, &open, pos) {
            None => {
                let rest = slice_chars(&s, pos, s.len());
                push_all(&mut out, &rest);
                assert(string_views(blocks@) + Seq::<Seq<char>>::empty() =~= string_views(
                    blocks@,
                ));
                break ;
            },
            Some(start) => {
                proof {
                    lemma_find_from(s@, mermaid_open(), pos as int);
                }
                let after = start + 10;
                let content = match find_chars_from(&s, &newline, after) {
                    Some(i) => {
                        proof {
                            lemma_find_from(s@, seq!['\n'], after as int);
                        }
                        i + 1
                    },
                    None => s.len(),
                };
                match find_chars_from(&s, &close, content) {
                    None => {
                        let rest = slice_chars(&s, pos, s.len());
                        push_all(&mut out, &rest);
                        assert(string_views(blocks@) + Seq::<Seq<char>>::empty()
                            =~= string_views(blocks@));
                        break ;
                    },
                    Some(end) => {
                        proof {
                            lemma_find_from(s@, fence(), content as int);
                        }
                        let raw = slice_chars(&s, content, end);
                        let block = trim_chars(&raw);
                        let head = slice_chars(&s, pos, start);
                        push_all(&mut out, &head);
                        push_placeholder(&mut out, blocks.len());
                        let ghost old_blocks = blocks@;
                        blocks.push(string_of(&block));
                        assert(string_views(blocks@) =~= string_views(old_blocks) + seq![
                            block@,
                        ]);
                        pos = end + 3;
                    },
                }
            },
        }
    }
    (string_of(&out), blocks)
}


// ── Mermaid injection ───────────────────────────────────────────────────────

/// The element that shows a Mermaid diagram.
pub open spec fn mermaid_div(block: Seq<char>) -> Seq<char> {
    "<div class=\"mermaid\">"@ + block + "</div>"@
}

/// The placeholder of block `n` as a paragraph of its own.
pub open spec fn wrapped_placeholder(n: nat) -> Seq<char> {
    "<p>"@ + placeholder(n) + "</p>"@
}

/// Injection of block `n`: every placeholder of the block that stands as a
/// paragraph of its own is replaced, paragraph and all, by the diagram
/// element; then every bare placeholder left is replaced too.
pub open spec fn inject_one(html: Seq<char>, n: nat, block: Seq<char>) -> Seq<char> {
    replace_all(
        replace_all(html, wrapped_placeholder(n), mermaid_div(block)),
        placeholder(n),
        mermaid_div(block),
    )
}

/// Injection of the first `k` blocks, block 0 first.
pub open spec fn inject_upto(html: Seq<char>, blocks: Seq<Seq<char>>, k: int) -> Seq<char>
    decreases k,
{
    if k <= 0 {
        html
    } else {
        inject_one(inject_upto(html, blocks, k - 1), (k - 1) as nat, blocks[k - 1])
    }
}

/// Injection of all blocks.
pub open spec fn inject_spec(html: Seq<char>, blocks: Seq<Seq<char>>) -> Seq<char> {
    inject_upto(html, blocks, blocks.len() as int)
}

proof fn lemma_decimal_nonempty(n: nat)
    ensures
        decimal(n).len() >= 1,
    decreases n,
{
    if n >= 10 {
        lemma_decimal_nonempty(n / 10);
    }
}

/// Replaces the `<!--MERMAID:N-->` placeholders (possibly wrapped in `<p>`)
/// with `<div class="mermaid">…</div>` elements holding the blocks.
pub fn inject_mermaid(html: String, blocks: &[String]) -> (r: String)
    ensures
        r@ == inject_spec(html@, string_views(blocks@)),
{
    let ghost views = string_views(blocks@);
    let mut cur = chars_of(html.as_str());
    for i in 0..blocks.len()
        invariant
            views == string_views(blocks@),
            cur@ == inject_upto(html@, views, i as int),
    {
        let mut ph: Vec<char> = Vec::new();
        push_placeholder(&mut ph, i);
        let mut wrapped: Vec<char> = Vec::new();
        push_str(&mut wrapped, "<p>");
        push_all(&mut wrapped, &ph);
        push_str(&mut wrapped, "</p>");
        let mut div: Vec<char> = Vec::new();
        push_str(&mut div, "<div class=\"mermaid\">");
        let b = chars_of(blocks[i].as_str());
        push_all(&mut div, &b);
        push_str(&mut div, "</div>");
        proof {
            lemma_decimal_nonempty(i as nat);
            assert(wrapped@ =~= wrapped_placeholder(i as nat));
            assert(div@ =~= mermaid_div(views[i as int]));
        }
        let unwrapped = replace_chars(&cur, &wrapped, &div);
        cur = replace_chars(&unwrapped, &ph, &div);
    }
    string_of(&cur)
}


// ── Parser events ───────────────────────────────────────────────────────────

/// A heading level.
#[derive(Clone, Copy)]
pub enum Level {
    H1,
    H2,
    H3,
    H4,
    H5,
    H6,
}

/// The number of a heading level, 1 to 6.
pub open spec fn level_number(l: Level) -> int {
    match l {
        Level::H1 => 1,
        Level::H2 => 2,
        Level::H3 => 3,
        Level::H4 => 4,
        Level::H5 => 5,
        Level::H6 => 6,
    }
}

/// A Markdown parser event, as the renderer sees it.
pub enum MdEvent {
    /// Start of a heading, with its explicit `{#id}` and `{.class}` attributes.
    HeadingStart { level: Level, id: Option<String>, classes: Vec<String> },
    /// End of a heading.
    HeadingEnd,
    /// Start of a code block: the info string of a fenced block, `None` for
    /// an indented one.
    CodeBlockStart { lang: Option<String> },
    /// End of a code block.
    CodeBlockEnd,
    /// A text node.
    Text(String),
    /// Any other event, already rendered to HTML on its own.
    Other(String),
}

/// The mathematical value of an `MdEvent`.
pub enum MdEventView {
    HeadingStart { level: Level, id: Option<Seq<char>>, classes: Seq<Seq<char>> },
    HeadingEnd,
    CodeBlockStart { lang: Option<Seq<char>> },
    CodeBlockEnd,
    Text(Seq<char>),
    Other(Seq<char>),
}

/// The view of an optional string.
pub open spec fn opt_view(o: Option<String>) -> Option<Seq<char>> {
    match o {
        Some(s) => Some(s@),
        None => None,
    }
}

impl View for MdEvent {
    type V = MdEventView;

    open spec fn view(&self) -> MdEventView {
        match self {
            MdEvent::HeadingStart { level, id, classes } => MdEventView::HeadingStart {
                level: *level,
                id: opt_view(*id),
                classes: string_views(classes@),
            },
            MdEvent::HeadingEnd => MdEventView::HeadingEnd,
            MdEvent::CodeBlockStart { lang } => MdEventView::CodeBlockStart { lang: opt_view(*lang) },
            MdEvent::CodeBlockEnd => MdEventView::CodeBlockEnd,
            MdEvent::Text(t) => MdEventView::Text(t@),
            MdEvent::Other(h) => MdEventView::Other(h@),
        }
    }
}

/// The views of a list of events.
pub open spec fn events_view(v: Seq<MdEvent>) -> Seq<MdEventView> {
    v.map_values(|e: MdEvent| e@)
}

// ── Rendering events ────────────────────────────────────────────────────────

/// The tag name of a heading: `h1` to `h6`.
pub open spec fn heading_tag_spec(l: Level) -> Seq<char> {
    seq!['h', digit_char(level_number(l))]
}

/// The pieces of `parts` joined with `sep` in between (as `[S]::join`).
pub open spec fn join(parts: Seq<Seq<char>>, sep: Seq<char>) -> Seq<char>
    decreases parts.len(),
{
    if parts.len() == 0 {
        Seq::empty()
    } else if parts.len() == 1 {
        parts[0]
    } else {
        join(parts.drop_last(), sep) + sep + parts.last()
    }
}

/// A heading's anchor: its explicit id, else `heading-N` with `N` the number of
/// headings before it.
pub open spec fn anchor_id(id: Option<Seq<char>>, counter: nat) -> Seq<char> {
    match id {
        Some(x) => x,
        None => "heading-"@ + decimal(counter),
    }
}

/// The ` class="…"` attribute of a heading, empty when it has no classes.
pub open spec fn class_attr(classes: Seq<Seq<char>>) -> Seq<char> {
    if classes.len() == 0 {
        Seq::empty()
    } else {
        " class=\""@ + join(classes, seq![' ']) + seq!['"']
    }
}

/// The opening tag of a heading.
pub open spec fn heading_open(l: Level, anchor: Seq<char>, classes: Seq<Seq<char>>) -> Seq<
    char,
> {
    seq!['<'] + heading_tag_spec(l) + " id=\""@ + anchor + seq!['"'] + class_attr(classes) + seq![
        '>',
    ]
}

/// The closing tag of a heading.
pub open spec fn heading_close(l: Level) -> Seq<char> {
    seq!['<', '/'] + heading_tag_spec(l) + seq!['>']
}

/// The ` class="language-…"` attribute of a code block, empty without a
/// language.
pub open spec fn lang_attr(lang: Seq<char>) -> Seq<char> {
    if lang.len() == 0 {
        Seq::empty()
    } else {
        " class=\"language-"@ + attr_escape_text(lang) + seq!['"']
    }
}

/// A finished code block: its escaped content inside `<pre><code>`.
pub open spec fn code_block_html(lang: Seq<char>, code: Seq<char>) -> Seq<char> {
    "<pre><code"@ + lang_attr(lang) + seq!['>'] + escape_text(code) + "</code></pre>\n"@
}

/// The renderer's state between events.
#[verifier::ext_equal]
pub struct RenderState {
    /// How many headings have started.
    pub counter: nat,
    /// The level of the heading being rendered, if any.
    pub heading: Option<Level>,
    /// A code block is open.
    pub in_code: bool,
    /// The open code block's language.
    pub lang: Seq<char>,
    /// The open code block's text so far.
    pub code: Seq<char>,
}

/// The state before the first event.
pub open spec fn initial_state() -> RenderState {
    RenderState {
        counter: 0,
        heading: None,
        in_code: false,
        lang: Seq::empty(),
        code: Seq::empty(),
    }
}

/// One event: the next state and the HTML that the event adds.
pub open spec fn step(st: RenderState, ev: MdEventView) -> (RenderState, Seq<char>) {
    match ev {
        MdEventView::HeadingStart { level, id, classes } => (
            RenderState { counter: st.counter + 1, heading: Some(level), ..st },
            heading_open(level, anchor_id(id, st.counter), classes),
        ),
        MdEventView::HeadingEnd => match st.heading {
            Some(l) => (RenderState { heading: None, ..st }, heading_close(l)),
            None => (st, Seq::empty()),
        },
        MdEventView::CodeBlockStart { lang } => (
            RenderState {
                in_code: true,
                code: Seq::empty(),
                lang: match lang {
                    Some(x) => x,
                    None => Seq::empty(),
                },
                ..st
            },
            Seq::empty(),
        ),
        MdEventView::CodeBlockEnd => (
            RenderState { in_code: false, code: Seq::empty(), lang: Seq::empty(), ..st },
            code_block_html(st.lang, st.code),
        ),
        MdEventView::Text(t) => if st.in_code {
            (RenderState { code: st.code + t, ..st }, Seq::empty())
        } else {
            (st, escape_text(t))
        },
        MdEventView::Other(h) => (st, h),
    }
}

/// The state after a list of events, and the HTML they produce.
pub open spec fn run(evs: Seq<MdEventView>) -> (RenderState, Seq<char>)
    decreases evs.len(),
{
    if evs.len() == 0 {
        (initial_state(), Seq::empty())
    } else {
        let prev = run(evs.drop_last());
        let next = step(prev.0, evs.last());
        (next.0, prev.1 + next.1)
    }
}

/// The HTML of a list of events.
pub open spec fn render_events_spec(evs: Seq<MdEventView>) -> Seq<char> {
    run(evs).1
}

/// The tag name of a heading level.
fn heading_tag(level: Level) -> (t: &'static str)
    ensures
        t@ == heading_tag_spec(level),
{
    proof {
        reveal_strlit("h1");
        reveal_strlit("h2");
        reveal_strlit("h3");
        reveal_strlit("h4");
        reveal_strlit("h5");
        reveal_strlit("h6");
    }
    match level {
        Level::H1 => "h1",
        Level::H2 => "h2",
        Level::H3 => "h3",
        Level::H4 => "h4",
        Level::H5 => "h5",
        Level::H6 => "h6",
    }
}

/// Appends the pieces of `parts` joined with single spaces.
fn push_joined(out: &mut Vec<char>, parts: &Vec<String>)
    ensures
        final(out)@ == old(out)@ + join(string_views(parts@), seq![' ']),
{
    let ghost start = out@;
    let ghost views = string_views(parts@);
    for j in 0..parts.len()
        invariant
            views == string_views(parts@),
            out@ == start + join(views.take(j as int), seq![' ']),
    {
        if j > 0 {
            out.push(' ');
        }
        push_str(out, parts[j].as_str());
        assert(views.take(j + 1).drop_last() =~= views.take(j as int));
        assert(out@ =~= start + join(views.take(j + 1), seq![' ']));
    }
    assert(views.take(parts.len() as int) =~= views);
}

/// Appends the opening tag of a heading.
fn push_heading_open(
    out: &mut Vec<char>,
    level: Level,
    id: &Option<String>,
    classes: &Vec<String>,
    counter: usize,
)
    ensures
        final(out)@ == old(out)@ + heading_open(
            level,
            anchor_id(opt_view(*id), counter as nat),
            string_views(classes@),
        ),
{
    out.push('<');
    push_str(out, heading_tag(level));
    push_str(out, " id=\"");
    match id {
        Some(x) => push_str(out, x.as_str()),
        None => {
            push_str(out, "heading-");
            push_decimal(out, counter);
        },
    }
    out.push('"');
    if classes.len() > 0 {
        push_str(out, " class=\"");
        push_joined(out, classes);
        out.push('"');
    }
    out.push('>');
    assert(out@ =~= old(out)@ + heading_open(
        level,
        anchor_id(opt_view(*id), counter as nat),
        string_views(classes@),
    ));
}

/// Appends the closing tag of a heading.
fn push_heading_close(out: &mut Vec<char>, level: Level)
    ensures
        final(out)@ == old(out)@ + heading_close(level),
{
    out.push('<');
    out.push('/');
    push_str(out, heading_tag(level));
    out.push('>');
    assert(out@ =~= old(out)@ + heading_close(level));
}

/// Appends a finished code block.
fn push_code_block(out: &mut Vec<char>, lang: &Vec<char>, code: &Vec<char>)
    ensures
        final(out)@ == old(out)@ + code_block_html(lang@, code@),
{
    push_str(out, "<pre><code");
    if lang.len() > 0 {
        push_str(out, " class=\"language-");
        push_attr_escaped(out, lang);
        out.push('"');
    }
    out.push('>');
    push_escaped(out, code);
    push_str(out, "</code></pre>\n");
    assert(out@ =~= old(out)@ + code_block_html(lang@, code@));
}

/// The renderer's state, as executable values.
struct Renderer {
    counter: usize,
    heading: Option<Level>,
    in_code: bool,
    lang: Vec<char>,
    code: Vec<char>,
}

impl Renderer {
    spec fn state(&self) -> RenderState {
        RenderState {
            counter: self.counter as nat,
            heading: self.heading,
            in_code: self.in_code,
            lang: self.lang@,
            code: self.code@,
        }
    }

    /// Renders one event.
    fn apply(&mut self, ev: &MdEvent, out: &mut Vec<char>)
        requires
            old(self).counter < usize::MAX,
        ensures
            final(self).state() == step(old(self).state(), ev@).0,
            final(out)@ == old(out)@ + step(old(self).state(), ev@).1,
            final(self).counter <= old(self).counter + 1,
    {
        match ev {
            MdEvent::HeadingStart { level, id, classes } => {
                self.heading = Some(*level);
                push_heading_open(out, *level, id, classes, self.counter);
                self.counter = self.counter + 1;
            },
            MdEvent::HeadingEnd => {
                match self.heading {
                    Some(l) => {
                        push_heading_close(out, l);
                        self.heading = None;
                    },
                    None => {},
                }
            },
            MdEvent::CodeBlockStart { lang } => {
                self.in_code = true;
                self.code = Vec::new();
                self.lang = match lang {
                    Some(x) => chars_of(x.as_str()),
                    None => Vec::new(),
                };
            },
            MdEvent::CodeBlockEnd => {
                self.in_code = false;
                push_code_block(out, &self.lang, &self.code);
                self.code = Vec::new();
                self.lang = Vec::new();
            },
            MdEvent::Text(t) => {
                let tc = chars_of(t.as_str());
                if self.in_code {
                    push_all(&mut self.code, &tc);
                } else {
                    push_escaped(out, &tc);
                }
            },
            MdEvent::Other(h) => {
                push_str(out, h.as_str());
            },
        }
        assert(out@ =~= old(out)@ + step(old(self).state(), ev@).1);
    }
}

/// Renders a list of parser events to HTML: headings get `id` anchors,
/// code blocks are collected and written as escaped `<pre><code>` blocks,
/// text outside code blocks is escaped, other events pass through as the
/// parser rendered them.
pub fn render_events(events: &Vec<MdEvent>) -> (r: String)
    ensures
        r@ == render_events_spec(events_view(events@)),
{
    let ghost evs = events_view(events@);
    let mut st = Renderer {
        counter: 0,
        heading: None,
        in_code: false,
        lang: Vec::new(),
        code: Vec::new(),
    };
    let mut out: Vec<char> = Vec::new();
    assert(st.state() =~= initial_state());
    for i in 0..events.len()
        invariant
            evs == events_view(events@),
            st.counter <= i,
            st.state() == run(evs.take(i as int)).0,
            out@ == run(evs.take(i as int)).1,
    {
        assert(evs.take(i + 1).drop_last() =~= evs.take(i as int));
        assert(evs.take(i + 1).last() == events@[i as int]@);
        st.apply(&events[i], &mut out);
    }
    assert(evs.take(events.len() as int) =~= evs);
    string_of(&out)
}

// ── Parsing (pulldown-cmark) ────────────────────────────────────────────────

/// pulldown-cmark's parser event, opaque here: it only passes into the
/// conversion below.
#[verifier::external_type_specification]
#[verifier::external_body]
pub struct ExCmarkEvent<'a>(pulldown_cmark::Event<'a>);

/// pulldown-cmark's heading level, opaque here.
#[verifier::external_type_specification]
#[verifier::external_body]
pub struct ExCmarkHeadingLevel(pulldown_cmark::HeadingLevel);

/// pulldown-cmark's `Options::ENABLE_TABLES`.
pub const ENABLE_TABLES: u32 = 2;
/// pulldown-cmark's `Options::ENABLE_FOOTNOTES`.
pub const ENABLE_FOOTNOTES: u32 = 4;
/// pulldown-cmark's `Options::ENABLE_STRIKETHROUGH`.
pub const ENABLE_STRIKETHROUGH: u32 = 8;
/// pulldown-cmark's `Options::ENABLE_TASKLISTS`.
pub const ENABLE_TASKLISTS: u32 = 16;
/// pulldown-cmark's `Options::ENABLE_HEADING_ATTRIBUTES`.
pub const ENABLE_HEADING_ATTRIBUTES: u32 = 64;

/// The parser extensions the reader enables: tables, footnotes,
/// strikethrough, task lists and heading attributes.
pub const RENDER_OPTIONS: u32 = ENABLE_TABLES | ENABLE_FOOTNOTES | ENABLE_STRIKETHROUGH
    | ENABLE_TASKLISTS | ENABLE_HEADING_ATTRIBUTES;

/// The events that pulldown-cmark's parser yields for `text` with the option
/// bits `options`, each converted to an `MdEvent` (an event other than a
/// heading, a code block or a text node carries the HTML that pulldown-cmark's
/// `html::push_html` writes for that event alone).
pub uninterp spec fn cmark_events(text: Seq<char>, options: u32) -> Seq<MdEventView>;

/// Parses `text` with pulldown-cmark's `Parser::new_ext`, with the options
/// whose bits are set in `options`, and converts each event.
///
/// Trusted: the result is `cmark_events(text, options)`, which rests on the
/// parser being a function of its text and options (it reads nothing else).
#[verifier::external_body]
fn parse_events(text: &str, options: u32) -> (events: Vec<MdEvent>)
    ensures
        events_view(events@) == cmark_events(text@, options),
{
    let opts = pulldown_cmark::Options::from_bits_truncate(options);
    pulldown_cmark::Parser::new_ext(text, opts).map(md_event_of).collect()
}

/// Converts one pulldown-cmark event, variant by variant; any event other than
/// a heading's start or end, a code block's start or end, or a text node, is
/// rendered to HTML on its own with pulldown-cmark's `html::push_html`.
/// It has no contract of its own: what it gives is part of `cmark_events`,
/// which `parse_events` states.
#[verifier::external_body]
fn md_event_of(ev: Event<'_>) -> MdEvent {
    match ev {
        Event::Start(Tag::Heading { level, id, classes, .. }) => MdEvent::HeadingStart {
            level: heading_level_of(level), id: id.map(|s| s.to_string()),
            classes: classes.iter().map(|c| c.to_string()).collect() },
        Event::End(TagEnd::Heading(_)) => MdEvent::HeadingEnd,
        Event::Start(Tag::CodeBlock(CodeBlockKind::Fenced(l))) => MdEvent::CodeBlockStart { lang: Some(l.to_string()) },
        Event::Start(Tag::CodeBlock(CodeBlockKind::Indented)) => MdEvent::CodeBlockStart { lang: None },
        Event::End(TagEnd::CodeBlock) => MdEvent::CodeBlockEnd,
        Event::Text(t) => MdEvent::Text(t.to_string()),
        other => MdEvent::Other(event_html(other)),
    }
}

/// The HTML that pulldown-cmark's `html::push_html` writes for one event.
#[verifier::external_body]
fn event_html(ev: Event<'_>) -> String {
    let mut html = String::new();
    pulldown_cmark::html::push_html(&mut html, std::iter::once(ev));
    html
}

/// Converts pulldown-cmark's heading level, one variant to one.
#[verifier::external_body]
fn heading_level_of(l: pulldown_cmark::HeadingLevel) -> Level {
    match l {
        pulldown_cmark::HeadingLevel::H1 => Level::H1,
        pulldown_cmark::HeadingLevel::H2 => Level::H2,
        pulldown_cmark::HeadingLevel::H3 => Level::H3,
        pulldown_cmark::HeadingLevel::H4 => Level::H4,
        pulldown_cmark::HeadingLevel::H5 => Level::H5,
        pulldown_cmark::HeadingLevel::H6 => Level::H6,
    }
}

// ── Rendering a document ────────────────────────────────────────────────────

/// The HTML that `render` produces for a Markdown text: Mermaid blocks are
/// taken out, the rest is parsed and its events rendered, then the diagrams
/// are put back in place of their placeholders.
pub open spec fn render_html(input: Seq<char>) -> Seq<char> {
    let (processed, blocks) = extract_spec(input);
    inject_spec(render_events_spec(cmark_events(processed, RENDER_OPTIONS)), blocks)
}

/// Renders Markdown text to an HTML fragment; returns the HTML and the number
/// of words of the text outside its code blocks.
pub fn render(input: &str) -> (r: (String, usize))
    ensures
        r.0@ == render_html(input@),
        r.1 == text_word_count(input@),
{
    let word_count = count_words(input);
    let (processed, blocks) = extract_mermaid(input);
    let events = parse_events(processed.as_str(), RENDER_OPTIONS);
    let html = render_events(&events);
    let html = inject_mermaid(html, blocks.as_slice());
    (html, word_count)
}

// ── Laws ────────────────────────────────────────────────────────────────────

/// Escaped text holds no `<`, `>` or `"`: escaped content cannot open or
/// close a tag or end an attribute value.
pub proof fn lemma_escape_text_has_no_markup(s: Seq<char>)
    ensures
        forall|i: int|
            0 <= i < escape_text(s).len() ==> {
                let c = #[trigger] escape_text(s)[i];
                c != '<' && c != '>' && c != '"'
            },
    decreases s.len(),
{
    if s.len() > 0 {
        lemma_escape_text_has_no_markup(s.drop_last());
        let p = escape_text(s.drop_last());
        let e = escape_char(s.last());
        assert(escape_text(s) == p + e);
        assert forall|i: int| 0 <= i < escape_text(s).len() implies {
            let c = #[trigger] escape_text(s)[i];
            c != '<' && c != '>' && c != '"'
        } by {
            if i < p.len() {
                assert(escape_text(s)[i] == p[i]);
            } else {
                assert(escape_text(s)[i] == e[i - p.len()]);
            }
        }
    }
}

/// The entity written for `&`.
pub open spec fn amp_entity() -> Seq<char> {
    seq!['&', 'a', 'm', 'p', ';']
}

/// The entity written for `<`.
pub open spec fn lt_entity() -> Seq<char> {
    seq!['&', 'l', 't', ';']
}

/// The entity written for `>`.
pub open spec fn gt_entity() -> Seq<char> {
    seq!['&', 'g', 't', ';']
}

/// The entity written for `"`.
pub open spec fn quot_entity() -> Seq<char> {
    seq!['&', 'q', 'u', 'o', 't', ';']
}

/// Reads escaped text back, from its end: each of the four entities stands
/// for its character, every other character for itself.
pub open spec fn unescape_text(t: Seq<char>) -> Seq<char>
    decreases t.len(),
{
    if t.len() == 0 {
        Seq::empty()
    } else if occurs_at(t, amp_entity(), t.len() - 5) {
        unescape_text(t.subrange(0, t.len() - 5)) + seq!['&']
    } else if occurs_at(t, lt_entity(), t.len() - 4) {
        unescape_text(t.subrange(0, t.len() - 4)) + seq!['<']
    } else if occurs_at(t, gt_entity(), t.len() - 4) {
        unescape_text(t.subrange(0, t.len() - 4)) + seq!['>']
    } else if occurs_at(t, quot_entity(), t.len() - 6) {
        unescape_text(t.subrange(0, t.len() - 6)) + seq!['"']
    } else {
        unescape_text(t.drop_last()) + seq![t.last()]
    }
}

/// One of the four entities starts at index `i` of `t`.
pub open spec fn entity_at(t: Seq<char>, i: int) -> bool {
    occurs_at(t, amp_entity(), i) || occurs_at(t, lt_entity(), i) || occurs_at(t, gt_entity(), i)
        || occurs_at(t, quot_entity(), i)
}

/// Every `&` of `t` starts an entity.
pub open spec fn amps_start_entities(t: Seq<char>) -> bool {
    forall|i: int| 0 <= i < t.len() && t[i] == '&' ==> #[trigger] entity_at(t, i)
}

proof fn lemma_escape_amps(s: Seq<char>)
    ensures
        amps_start_entities(escape_text(s)),
    decreases s.len(),
{
    if s.len() > 0 {
        lemma_escape_amps(s.drop_last());
        let p = escape_text(s.drop_last());
        let e = escape_char(s.last());
        let t = escape_text(s);
        assert(t == p + e);
        assert forall|i: int| 0 <= i < t.len() && t[i] == '&' implies #[trigger] entity_at(t, i) by {
            if i < p.len() {
                assert(t[i] == p[i]);
                assert(entity_at(p, i));
                assert(Seq::<char>::empty() + p + e =~= t);
                if occurs_at(p, amp_entity(), i) {
                    lemma_occurs_in_middle(Seq::empty(), p, e, amp_entity(), i);
                } else if occurs_at(p, lt_entity(), i) {
                    lemma_occurs_in_middle(Seq::empty(), p, e, lt_entity(), i);
                } else if occurs_at(p, gt_entity(), i) {
                    lemma_occurs_in_middle(Seq::empty(), p, e, gt_entity(), i);
                } else {
                    lemma_occurs_in_middle(Seq::empty(), p, e, quot_entity(), i);
                }
            } else {
                assert(t[i] == e[i - p.len()]);
                assert(i == p.len());
                assert(e.subrange(0, e.len() as int) =~= e);
                lemma_occurs_in_middle(p, e, Seq::empty(), e, 0);
                assert(p + e + Seq::<char>::empty() =~= t);
            }
        }
    }
}

proof fn lemma_unescape_step(p: Seq<char>, c: char)
    requires
        amps_start_entities(p),
    ensures
        unescape_text(p + escape_char(c)) == unescape_text(p) + seq![c],
{
    let e = escape_char(c);
    let t = p + e;
    let n = t.len() as int;
    let m = p.len() as int;
    assert forall|j: int| 0 <= j < e.len() implies #[trigger] t[m + j] == e[j] by {}
    if c == '&' {
        assert(t.subrange(n - 5, n) =~= amp_entity());
        assert(t.subrange(0, n - 5) =~= p);
    } else if c == '<' {
        if occurs_at(t, amp_entity(), n - 5) {
            lemma_occurs_char(t, amp_entity(), n - 5, 1);
            assert(t[m + 0] == '&');
        }
        assert(t.subrange(n - 4, n) =~= lt_entity());
        assert(t.subrange(0, n - 4) =~= p);
    } else if c == '>' {
        if occurs_at(t, amp_entity(), n - 5) {
            lemma_occurs_char(t, amp_entity(), n - 5, 1);
            assert(t[m + 0] == '&');
        }
        if occurs_at(t, lt_entity(), n - 4) {
            lemma_occurs_char(t, lt_entity(), n - 4, 1);
            assert(t[m + 1] == 'g');
        }
        assert(t.subrange(n - 4, n) =~= gt_entity());
        assert(t.subrange(0, n - 4) =~= p);
    } else if c == '"' {
        if occurs_at(t, amp_entity(), n - 5) {
            lemma_occurs_char(t, amp_entity(), n - 5, 0);
            assert(t[m + 1] == 'q');
        }
        if occurs_at(t, lt_entity(), n - 4) {
            lemma_occurs_char(t, lt_entity(), n - 4, 0);
            assert(t[m + 2] == 'u');
        }
        if occurs_at(t, gt_entity(), n - 4) {
            lemma_occurs_char(t, gt_entity(), n - 4, 0);
            assert(t[m + 2] == 'u');
        }
        assert(t.subrange(n - 6, n) =~= quot_entity());
        assert(t.subrange(0, n - 6) =~= p);
    } else {
        assert(e == seq![c]);
        assert(t.last() == c);
        if occurs_at(t, amp_entity(), n - 5) {
            lemma_occurs_char(t, amp_entity(), n - 5, 4);
            assert(c == ';');
            lemma_occurs_char(t, amp_entity(), n - 5, 0);
            assert(p[m - 4] == '&');
            assert(entity_at(p, m - 4));
            lemma_occurs_char(t, amp_entity(), n - 5, 1);
            assert(p[m - 3] == 'a');
            if occurs_at(p, lt_entity(), m - 4) {
                lemma_occurs_char(p, lt_entity(), m - 4, 1);
            } else if occurs_at(p, gt_entity(), m - 4) {
                lemma_occurs_char(p, gt_entity(), m - 4, 1);
            }
        }
        if occurs_at(t, lt_entity(), n - 4) {
            lemma_occurs_char(t, lt_entity(), n - 4, 3);
            lemma_occurs_char(t, lt_entity(), n - 4, 0);
            assert(p[m - 3] == '&');
            assert(entity_at(p, m - 3));
        }
        if occurs_at(t, gt_entity(), n - 4) {
            lemma_occurs_char(t, gt_entity(), n - 4, 3);
            lemma_occurs_char(t, gt_entity(), n - 4, 0);
            assert(p[m - 3] == '&');
            assert(entity_at(p, m - 3));
        }
        if occurs_at(t, quot_entity(), n - 6) {
            lemma_occurs_char(t, quot_entity(), n - 6, 5);
            lemma_occurs_char(t, quot_entity(), n - 6, 0);
            assert(p[m - 5] == '&');
            assert(entity_at(p, m - 5));
            lemma_occurs_char(t, quot_entity(), n - 6, 1);
            assert(p[m - 4] == 'q');
            if occurs_at(p, amp_entity(), m - 5) {
                lemma_occurs_char(p, amp_entity(), m - 5, 1);
            } else if occurs_at(p, lt_entity(), m - 5) {
                lemma_occurs_char(p, lt_entity(), m - 5, 1);
            } else if occurs_at(p, gt_entity(), m - 5) {
                lemma_occurs_char(p, gt_entity(), m - 5, 1);
            }
        }
        assert(t.drop_last() =~= p);
    }
}

/// Escaping loses nothing: reading the escaped text back, each entity as the
/// character it stands for, gives the original text, so two different texts
/// never escape to the same HTML.
pub proof fn lemma_unescape_escape(s: Seq<char>)
    ensures
        unescape_text(escape_text(s)) == s,
    decreases s.len(),
{
    if s.len() > 0 {
        lemma_unescape_escape(s.drop_last());
        lemma_escape_amps(s.drop_last());
        lemma_unescape_step(escape_text(s.drop_last()), s.last());
        assert(s.drop_last() + seq![s.last()] =~= s);
    }
}

/// Two texts with the same escape are the same text.
pub proof fn lemma_escape_injective(a: Seq<char>, b: Seq<char>)
    ensures
        escape_text(a) == escape_text(b) ==> a == b,
{
    lemma_unescape_escape(a);
    lemma_unescape_escape(b);
}

/// The entity written for `'` in an attribute value.
pub open spec fn apos_entity() -> Seq<char> {
    seq!['&', '#', '3', '9', ';']
}

/// Reads an escaped attribute value back, from its end: each of its three
/// entities stands for its character, every other character for itself.
pub open spec fn attr_unescape_text(t: Seq<char>) -> Seq<char>
    decreases t.len(),
{
    if t.len() == 0 {
        Seq::empty()
    } else if occurs_at(t, amp_entity(), t.len() - 5) {
        attr_unescape_text(t.subrange(0, t.len() - 5)) + seq!['&']
    } else if occurs_at(t, quot_entity(), t.len() - 6) {
        attr_unescape_text(t.subrange(0, t.len() - 6)) + seq!['"']
    } else if occurs_at(t, apos_entity(), t.len() - 5) {
        attr_unescape_text(t.subrange(0, t.len() - 5)) + seq!['\'']
    } else {
        attr_unescape_text(t.drop_last()) + seq![t.last()]
    }
}

/// One of the three attribute entities starts at index `i` of `t`.
pub open spec fn attr_entity_at(t: Seq<char>, i: int) -> bool {
    occurs_at(t, amp_entity(), i) || occurs_at(t, quot_entity(), i) || occurs_at(t, apos_entity(), i)
}

proof fn lemma_attr_escape_amps(s: Seq<char>)
    ensures
        forall|i: int|
            0 <= i < attr_escape_text(s).len() && attr_escape_text(s)[i] == '&' ==> #[trigger] attr_entity_at(
                attr_escape_text(s),
                i,
            ),
    decreases s.len(),
{
    if s.len() > 0 {
        lemma_attr_escape_amps(s.drop_last());
        let p = attr_escape_text(s.drop_last());
        let e = attr_escape_char(s.last());
        let t = attr_escape_text(s);
        assert(t == p + e);
        assert forall|i: int| 0 <= i < t.len() && t[i] == '&' implies #[trigger] attr_entity_at(t, i) by {
            if i < p.len() {
                assert(t[i] == p[i]);
                assert(attr_entity_at(p, i));
                assert(Seq::<char>::empty() + p + e =~= t);
                if occurs_at(p, amp_entity(), i) {
                    lemma_occurs_in_middle(Seq::empty(), p, e, amp_entity(), i);
                } else if occurs_at(p, quot_entity(), i) {
                    lemma_occurs_in_middle(Seq::empty(), p, e, quot_entity(), i);
                } else {
                    lemma_occurs_in_middle(Seq::empty(), p, e, apos_entity(), i);
                }
            } else {
                assert(t[i] == e[i - p.len()]);
                assert(i == p.len());
                assert(e.subrange(0, e.len() as int) =~= e);
                lemma_occurs_in_middle(p, e, Seq::empty(), e, 0);
                assert(p + e + Seq::<char>::empty() =~= t);
            }
        }
    }
}

proof fn lemma_attr_unescape_step(p: Seq<char>, c: char)
    requires
        forall|i: int| 0 <= i < p.len() && p[i] == '&' ==> #[trigger] attr_entity_at(p, i),
    ensures
        attr_unescape_text(p + attr_escape_char(c)) == attr_unescape_text(p) + seq![c],
{
    let e = attr_escape_char(c);
    let t = p + e;
    let n = t.len() as int;
    let m = p.len() as int;
    assert forall|j: int| 0 <= j < e.len() implies #[trigger] t[m + j] == e[j] by {}
    if c == '&' {
        assert(t.subrange(n - 5, n) =~= amp_entity());
        assert(t.subrange(0, n - 5) =~= p);
    } else if c == '"' {
        if occurs_at(t, amp_entity(), n - 5) {
            lemma_occurs_char(t, amp_entity(), n - 5, 0);
            assert(t[m + 1] == 'q');
        }
        assert(t.subrange(n - 6, n) =~= quot_entity());
        assert(t.subrange(0, n - 6) =~= p);
    } else if c == '\'' {
        if occurs_at(t, amp_entity(), n - 5) {
            lemma_occurs_char(t, amp_entity(), n - 5, 1);
            assert(t[m + 1] == '#');
        }
        if occurs_at(t, quot_entity(), n - 6) {
            lemma_occurs_char(t, quot_entity(), n - 6, 1);
            assert(t[m + 0] == '&');
        }
        assert(t.subrange(n - 5, n) =~= apos_entity());
        assert(t.subrange(0, n - 5) =~= p);
    } else {
        assert(e == seq![c]);
        assert(t.last() == c);
        if occurs_at(t, amp_entity(), n - 5) {
            lemma_occurs_char(t, amp_entity(), n - 5, 4);
            lemma_occurs_char(t, amp_entity(), n - 5, 0);
            assert(p[m - 4] == '&');
            assert(attr_entity_at(p, m - 4));
        }
        if occurs_at(t, apos_entity(), n - 5) {
            lemma_occurs_char(t, apos_entity(), n - 5, 4);
            lemma_occurs_char(t, apos_entity(), n - 5, 0);
            assert(p[m - 4] == '&');
            assert(attr_entity_at(p, m - 4));
        }
        if occurs_at(t, quot_entity(), n - 6) {
            lemma_occurs_char(t, quot_entity(), n - 6, 5);
            lemma_occurs_char(t, quot_entity(), n - 6, 0);
            assert(p[m - 5] == '&');
            assert(attr_entity_at(p, m - 5));
            lemma_occurs_char(t, quot_entity(), n - 6, 1);
            assert(p[m - 4] == 'q');
            if occurs_at(p, amp_entity(), m - 5) {
                lemma_occurs_char(p, amp_entity(), m - 5, 1);
            } else if occurs_at(p, apos_entity(), m - 5) {
                lemma_occurs_char(p, apos_entity(), m - 5, 1);
            }
        }
        assert(t.drop_last() =~= p);
    }
}

/// Escaping an attribute value loses nothing: reading it back, each entity as
/// the character it stands for, gives the original value.
pub proof fn lemma_attr_unescape_escape(s: Seq<char>)
    ensures
        attr_unescape_text(attr_escape_text(s)) == s,
    decreases s.len(),
{
    if s.len() > 0 {
        lemma_attr_unescape_escape(s.drop_last());
        lemma_attr_escape_amps(s.drop_last());
        lemma_attr_unescape_step(attr_escape_text(s.drop_last()), s.last());
        assert(s.drop_last() + seq![s.last()] =~= s);
    }
}

/// An escaped attribute value holds no `"` or `'`: it cannot end the
/// attribute it stands in.
pub proof fn lemma_attr_escape_has_no_quotes(s: Seq<char>)
    ensures
        forall|i: int|
            0 <= i < attr_escape_text(s).len() ==> {
                let c = #[trigger] attr_escape_text(s)[i];
                c != '"' && c != '\''
            },
    decreases s.len(),
{
    if s.len() > 0 {
        lemma_attr_escape_has_no_quotes(s.drop_last());
        let p = attr_escape_text(s.drop_last());
        let e = attr_escape_char(s.last());
        assert(attr_escape_text(s) == p + e);
        assert forall|i: int| 0 <= i < attr_escape_text(s).len() implies {
            let c = #[trigger] attr_escape_text(s)[i];
            c != '"' && c != '\''
        } by {
            if i < p.len() {
                assert(attr_escape_text(s)[i] == p[i]);
            } else {
                assert(attr_escape_text(s)[i] == e[i - p.len()]);
            }
        }
    }
}

/// Words do not run across whitespace: two texts joined by a whitespace
/// character have as many words as the two together.
pub proof fn lemma_word_count_split(a: Seq<char>, c: char, b: Seq<char>)
    requires
        is_ws(c),
    ensures
        word_count(a + seq![c] + b) == word_count(a) + word_count(b),
    decreases b.len(),
{
    let s = a + seq![c] + b;
    if b.len() == 0 {
        assert(s.drop_last() =~= a);
        assert(s.last() == c);
    } else {
        let b1 = b.drop_last();
        lemma_word_count_split(a, c, b1);
        assert(s.drop_last() =~= a + seq![c] + b1);
        assert(s[s.len() - 1] == b[b.len() - 1]);
        if b.len() == 1 {
            assert(s[s.len() - 2] == c);
        } else {
            assert(s[s.len() - 2] == b[b.len() - 2]);
        }
        assert(starts_word(s, s.len() - 1) == starts_word(b, b.len() - 1));
    }
}

/// No line of `s` from `pos` on is a fence line or an indented line with
/// words: the text holds no code block.
pub open spec fn code_free_from(s: Seq<char>, pos: int) -> bool
    decreases s.len() + 1 - pos,
{
    if pos < 0 || pos >= s.len() {
        true
    } else {
        let e = line_end(s, pos);
        let line = s.subrange(pos, e);
        proof {
            lemma_find_from(s, seq!['\n'], pos);
        }
        &&& fence_char(line) is None
        &&& !(indented(line) && word_count(line) > 0)
        &&& code_free_from(s, e + 1)
    }
}

/// `s` holds no code block.
pub open spec fn code_free(s: Seq<char>) -> bool {
    code_free_from(s, 0)
}

proof fn lemma_prose_of_code_free(s: Seq<char>, pos: int, may_indent: bool)
    requires
        0 <= pos <= s.len(),
        code_free_from(s, pos),
    ensures
        prose_words_from(s, pos, None, may_indent) == word_count(s.subrange(pos, s.len() as int)),
    decreases s.len() + 1 - pos,
{
    if pos == s.len() {
        assert(s.subrange(pos, s.len() as int) =~= Seq::<char>::empty());
    } else {
        lemma_find_from(s, seq!['\n'], pos);
        let e = line_end(s, pos);
        let line = s.subrange(pos, e);
        if e < s.len() {
            assert(s.subrange(e, e + 1) == seq!['\n']);
            assert(s.subrange(e, e + 1)[0] == s[e]);
            assert(s[e] == '\n');
            lemma_prose_of_code_free(s, e + 1, true);
            lemma_prose_of_code_free(s, e + 1, false);
            let rest = s.subrange(e + 1, s.len() as int);
            assert(s.subrange(pos, s.len() as int) =~= line + seq!['\n'] + rest);
            lemma_word_count_split(line, '\n', rest);
        } else {
            assert(s.subrange(pos, s.len() as int) =~= line);
            assert(prose_words_from(s, e + 1, None, false) == 0);
            assert(prose_words_from(s, e + 1, None, true) == 0);
        }
        assert(fence_char(line) is None);
        assert(!(indented(line) && word_count(line) > 0));
    }
}

/// Without code blocks, the word count is the plain count of
/// whitespace-separated words.
pub proof fn lemma_code_free_counts_all(s: Seq<char>)
    requires
        code_free(s),
    ensures
        text_word_count(s) == word_count(s),
{
    lemma_prose_of_code_free(s, 0, true);
    assert(s.subrange(0, s.len() as int) =~= s);
}

/// Words do not run across whitespace: of texts without code, `a`, a
/// whitespace character and `b` together have as many words as `a` and `b`.
pub proof fn lemma_text_word_count_split(a: Seq<char>, c: char, b: Seq<char>)
    requires
        is_ws(c),
        code_free(a),
        code_free(b),
        code_free(a + seq![c] + b),
    ensures
        text_word_count(a + seq![c] + b) == text_word_count(a) + text_word_count(b),
{
    lemma_code_free_counts_all(a);
    lemma_code_free_counts_all(b);
    lemma_code_free_counts_all(a + seq![c] + b);
    lemma_word_count_split(a, c, b);
}

proof fn lemma_word_count_zero(s: Seq<char>)
    ensures
        word_count(s) == 0 <==> forall|i: int| 0 <= i < s.len() ==> is_ws(#[trigger] s[i]),
    decreases s.len(),
{
    if s.len() > 0 {
        let d = s.drop_last();
        lemma_word_count_zero(d);
        if word_count(s) == 0 {
            assert forall|i: int| 0 <= i < s.len() implies is_ws(#[trigger] s[i]) by {
                if i < s.len() - 1 {
                    assert(s[i] == d[i]);
                } else if s.len() >= 2 {
                    assert(d[s.len() - 2] == s[s.len() - 2]);
                }
            }
        }
        if forall|i: int| 0 <= i < s.len() ==> is_ws(#[trigger] s[i]) {
            assert forall|i: int| 0 <= i < d.len() implies is_ws(#[trigger] d[i]) by {
                assert(d[i] == s[i]);
            }
            assert(is_ws(s[s.len() - 1]));
        }
    }
}

proof fn lemma_trim_start_empty(s: Seq<char>)
    ensures
        trim_start(s).len() == 0 ==> forall|i: int| 0 <= i < s.len() ==> is_ws(#[trigger] s[i]),
    decreases s.len(),
{
    if s.len() > 0 && is_ws(s[0]) {
        let d = s.drop_first();
        lemma_trim_start_empty(d);
        if trim_start(s).len() == 0 {
            assert forall|i: int| 0 <= i < s.len() implies is_ws(#[trigger] s[i]) by {
                if i > 0 {
                    assert(s[i] == d[i - 1]);
                }
            }
        }
    }
}

proof fn lemma_trim_all_ws(s: Seq<char>)
    requires
        forall|i: int| 0 <= i < s.len() ==> is_ws(#[trigger] s[i]),
    ensures
        trim_start(s).len() == 0,
    decreases s.len(),
{
    if s.len() > 0 {
        let d = s.drop_first();
        assert forall|i: int| 0 <= i < d.len() implies is_ws(#[trigger] d[i]) by {
            assert(d[i] == s[i + 1]);
        }
        lemma_trim_all_ws(d);
    }
}

/// A text without code has no words exactly when it is whitespace only, that
/// is, when trimming leaves nothing.
pub proof fn lemma_no_words_iff_blank(s: Seq<char>)
    requires
        code_free(s),
    ensures
        text_word_count(s) == 0 <==> trim(s).len() == 0,
{
    lemma_code_free_counts_all(s);
    lemma_word_count_zero(s);
    lemma_trim_start_empty(s);
    lemma_trim_start(s);
    lemma_trim_end(trim_start(s));
    if forall|i: int| 0 <= i < s.len() ==> is_ws(#[trigger] s[i]) {
        lemma_trim_all_ws(s);
        assert(trim_start(s) =~= Seq::<char>::empty());
    } else {
        let t = trim_start(s);
        assert(t.len() > 0);
        assert(!is_ws(t[0]));
        if trim(s).len() == 0 {
            assert(trim_end(t).len() == 0);
            lemma_trim_end_keeps_first(t);
        }
    }
}

proof fn lemma_trim_end_keeps_first(t: Seq<char>)
    requires
        t.len() > 0,
        !is_ws(t[0]),
    ensures
        trim_end(t).len() > 0,
    decreases t.len(),
{
    if is_ws(t.last()) {
        assert(t.len() > 1);
        assert(t.drop_last()[0] == t[0]);
        lemma_trim_end_keeps_first(t.drop_last());
    }
}

/// A text without a Mermaid opening passes extraction unchanged, with no
/// blocks; and injecting no blocks changes nothing. So such a document is
/// rendered exactly as the parser's events render.
pub proof fn lemma_no_mermaid_renders_events(s: Seq<char>)
    requires
        !contains(s, mermaid_open()),
    ensures
        extract_spec(s) == (s, Seq::<Seq<char>>::empty()),
        render_html(s) == render_events_spec(cmark_events(s, RENDER_OPTIONS)),
{
    assert(s.subrange(0, s.len() as int) =~= s);
}

proof fn lemma_trim_start(s: Seq<char>)
    ensures
        trim_start(s).len() > 0 ==> !is_ws(trim_start(s)[0]),
    decreases s.len(),
{
    if s.len() > 0 && is_ws(s[0]) {
        lemma_trim_start(s.drop_first());
    }
}

proof fn lemma_trim_end(s: Seq<char>)
    ensures
        trim_end(s).len() <= s.len(),
        trim_end(s) == s.take(trim_end(s).len() as int),
        trim_end(s).len() > 0 ==> !is_ws(trim_end(s).last()),
    decreases s.len(),
{
    if s.len() > 0 && is_ws(s.last()) {
        lemma_trim_end(s.drop_last());
        assert(s.drop_last().take(trim_end(s).len() as int) =~= s.take(trim_end(s).len() as int));
    } else {
        assert(s.take(s.len() as int) =~= s);
    }
}

/// Trimmed text neither starts nor ends with whitespace.
pub proof fn lemma_trim_ends(s: Seq<char>)
    ensures
        trim(s).len() > 0 ==> !is_ws(trim(s)[0]) && !is_ws(trim(s).last()),
{
    lemma_trim_start(s);
    lemma_trim_end(trim_start(s));
    if trim(s).len() > 0 {
        assert(trim(s)[0] == trim_start(s)[0]);
    }
}

/// Every extracted Mermaid block is trimmed: it neither starts nor ends with
/// whitespace.
pub proof fn lemma_extracted_blocks_trimmed(s: Seq<char>, pos: int, n: nat)
    ensures
        forall|k: int|
            0 <= k < extract_at(s, pos, n).1.len() ==> {
                let b = #[trigger] extract_at(s, pos, n).1[k];
                b.len() > 0 ==> !is_ws(b[0]) && !is_ws(b.last())
            },
    decreases s.len() - pos,
{
    if pos < 0 || pos > s.len() {
    } else {
        match find_from(s, mermaid_open(), pos) {
            None => {},
            Some(start) => {
                let after = start + 10;
                let content = match find_from(s, seq!['\n'], after) {
                    Some(i) => i + 1,
                    None => s.len() as int,
                };
                match find_from(s, fence(), content) {
                    None => {},
                    Some(end) => {
                        lemma_find_from(s, mermaid_open(), pos);
                        lemma_find_from(s, seq!['\n'], after);
                        lemma_find_from(s, fence(), content);
                        lemma_extracted_blocks_trimmed(s, end + 3, n + 1);
                        let blk = trim(s.subrange(content, end));
                        lemma_trim_ends(s.subrange(content, end));
                        let rest = extract_at(s, end + 3, n + 1).1;
                        assert(extract_at(s, pos, n).1 == seq![blk] + rest);
                        assert forall|k: int| 0 <= k < extract_at(s, pos, n).1.len() implies {
                            let b = #[trigger] extract_at(s, pos, n).1[k];
                            b.len() > 0 ==> !is_ws(b[0]) && !is_ws(b.last())
                        } by {
                            if k > 0 {
                                assert(extract_at(s, pos, n).1[k] == rest[k - 1]);
                            }
                        }
                    },
                }
            },
        }
    }
}

/// Each extracted block leaves its placeholder in the text, numbered in
/// order: block `k` of the extraction from `pos` (numbered from `n`) is marked
/// by `placeholder(n + k)`.
pub proof fn lemma_extract_leaves_placeholders(s: Seq<char>, pos: int, n: nat)
    ensures
        forall|k: int|
            0 <= k < extract_at(s, pos, n).1.len() ==> contains(
                extract_at(s, pos, n).0,
                #[trigger] placeholder((n + k) as nat),
            ),
    decreases s.len() - pos,
{
    if pos < 0 || pos > s.len() {
    } else {
        match find_from(s, mermaid_open(), pos) {
            None => {},
            Some(start) => {
                let after = start + 10;
                let content = match find_from(s, seq!['\n'], after) {
                    Some(i) => i + 1,
                    None => s.len() as int,
                };
                match find_from(s, fence(), content) {
                    None => {},
                    Some(end) => {
                        lemma_find_from(s, mermaid_open(), pos);
                        lemma_find_from(s, seq!['\n'], after);
                        lemma_find_from(s, fence(), content);
                        lemma_extract_leaves_placeholders(s, end + 3, n + 1);
                        let head = s.subrange(pos, start);
                        let rest = extract_at(s, end + 3, n + 1);
                        let out = extract_at(s, pos, n).0;
                        assert(out == head + placeholder(n) + rest.0);
                        assert forall|k: int| 0 <= k < extract_at(s, pos, n).1.len() implies contains(
                            extract_at(s, pos, n).0,
                            #[trigger] placeholder((n + k) as nat),
                        ) by {
                            if k == 0 {
                                let p = placeholder(n);
                                assert(p.subrange(0, p.len() as int) =~= p);
                                lemma_occurs_in_middle(head, p, rest.0, p, 0);
                                lemma_occurs_contains(out, p, head.len() as int);
                            } else {
                                assert(extract_at(s, pos, n).1[k] == rest.1[k - 1]);
                                assert(((n + 1) + (k - 1)) as nat == (n + k) as nat);
                                let p = placeholder((n + k) as nat);
                                assert(contains(rest.0, p));
                                lemma_find_from(rest.0, p, 0);
                                let j = crate::text::find(rest.0, p).unwrap();
                                lemma_occurs_in_middle(head + placeholder(n), rest.0, Seq::empty(), p, j);
                                assert(head + placeholder(n) + rest.0 + Seq::<char>::empty() =~= out);
                                lemma_occurs_contains(
                                    out,
                                    p,
                                    (head + placeholder(n)).len() + j,
                                );
                            }
                        }
                    },
                }
            },
        }
    }
}

/// Injection leaves HTML without placeholders as it is.
pub proof fn lemma_inject_without_placeholders(html: Seq<char>, blocks: Seq<Seq<char>>, k: int)
    requires
        forall|i: nat| !contains(html, #[trigger] placeholder(i)),
    ensures
        inject_upto(html, blocks, k) == html,
    decreases k,
{
    if k > 0 {
        lemma_inject_without_placeholders(html, blocks, k - 1);
        let i = (k - 1) as nat;
        let p = placeholder(i);
        let w = wrapped_placeholder(i);
        lemma_decimal_nonempty(i);
        assert(!contains(html, p));
        if contains(html, w) {
            lemma_find_from(html, w, 0);
            let j = crate::text::find(html, w).unwrap();
            reveal_strlit("<p>");
            assert(w.subrange(3, 3 + p.len() as int) =~= p);
            lemma_occurs_trans(html, w, p, j, 3);
            lemma_occurs_contains(html, p, j + 3);
        }
        reveal_strlit("<p>");
        assert(w.len() > 0);
        lemma_find_from(html, w, 0);
        lemma_replace_absent(html, w, mermaid_div(blocks[k - 1]), 0);
        lemma_find_from(html, p, 0);
        lemma_replace_absent(html, p, mermaid_div(blocks[k - 1]), 0);
        assert(html.subrange(0, html.len() as int) =~= html);
    }
}

/// A placeholder turns into its diagram: where the HTML holds the placeholder
/// of block `n`, injecting that block leaves the block's diagram element in
/// the output.
pub proof fn lemma_inject_shows_diagram(html: Seq<char>, n: nat, block: Seq<char>)
    requires
        contains(html, placeholder(n)),
    ensures
        contains(inject_one(html, n, block), mermaid_div(block)),
{
    let p = placeholder(n);
    let w = wrapped_placeholder(n);
    let d = mermaid_div(block);
    lemma_decimal_nonempty(n);
    reveal_strlit("<p>");
    assert(w.len() > 0);
    let x = replace_all(html, w, d);
    if contains(x, p) {
        lemma_replace_contains_rep(x, p, d);
        lemma_occurs_contains(replace_all(x, p, d), d, crate::text::find(x, p).unwrap());
    } else {
        lemma_find_from(x, p, 0);
        lemma_replace_absent(x, p, d, 0);
        assert(x.subrange(0, x.len() as int) =~= x);
        if contains(html, w) {
            lemma_replace_contains_rep(html, w, d);
            lemma_occurs_contains(x, d, crate::text::find(html, w).unwrap());
        } else {
            lemma_find_from(html, w, 0);
            lemma_replace_absent(html, w, d, 0);
            assert(html.subrange(0, html.len() as int) =~= html);
        }
    }
}

proof fn lemma_decimal_no_lt(n: nat)
    ensures
        forall|i: int| 0 <= i < decimal(n).len() ==> #[trigger] decimal(n)[i] != '<',
    decreases n,
{
    if n >= 10 {
        lemma_decimal_no_lt(n / 10);
        let d = decimal(n / 10);
        assert forall|i: int| 0 <= i < decimal(n).len() implies #[trigger] decimal(n)[i] != '<' by {
            if i < d.len() {
                assert(decimal(n)[i] == d[i]);
            }
        }
    }
}

/// The number that a string of decimal digits stands for.
pub open spec fn decimal_value(d: Seq<char>) -> int
    decreases d.len(),
{
    if d.len() == 0 {
        0
    } else {
        decimal_value(d.drop_last()) * 10 + (d.last() as int - '0' as int)
    }
}

proof fn lemma_digit_value(d: int)
    requires
        0 <= d < 10,
    ensures
        digit_char(d) as int - '0' as int == d,
        '0' <= digit_char(d) <= '9',
{
    if d == 0 {
    } else if d == 1 {
    } else if d == 2 {
    } else if d == 3 {
    } else if d == 4 {
    } else if d == 5 {
    } else if d == 6 {
    } else if d == 7 {
    } else if d == 8 {
    } else {
    }
}

proof fn lemma_decimal_value(n: nat)
    ensures
        decimal_value(decimal(n)) == n,
        forall|i: int| 0 <= i < decimal(n).len() ==> '0' <= #[trigger] decimal(n)[i] <= '9',
    decreases n,
{
    if n < 10 {
        lemma_digit_value(n as int);
        assert(decimal(n).drop_last() =~= Seq::<char>::empty());
        assert(decimal_value(Seq::<char>::empty()) == 0);
        assert(decimal(n).last() == digit_char(n as int));
        assert(decimal_value(decimal(n)) == decimal_value(decimal(n).drop_last()) * 10 + (decimal(
            n,
        ).last() as int - '0' as int));
    } else {
        lemma_digit_value((n % 10) as int);
        lemma_decimal_value(n / 10);
        let d = decimal(n / 10);
        assert(decimal(n).drop_last() =~= d);
        assert(decimal(n).last() == digit_char((n % 10) as int));
        assert((n / 10) * 10 + n % 10 == n);
        assert(decimal_value(decimal(n)) == decimal_value(decimal(n).drop_last()) * 10 + (decimal(
            n,
        ).last() as int - '0' as int));
        assert forall|i: int| 0 <= i < decimal(n).len() implies '0' <= #[trigger] decimal(n)[i] <= '9' by {
            if i < d.len() {
                assert(decimal(n)[i] == d[i]);
            }
        }
    }
}

/// Two placeholders that start at the same place are the same placeholder.
proof fn lemma_placeholders_same_start(s: Seq<char>, i: nat, k: nat, u: int)
    requires
        occurs_at(s, placeholder(i), u),
        occurs_at(s, placeholder(k), u),
    ensures
        i == k,
{
    reveal_strlit("<!--MERMAID:");
    reveal_strlit("-->");
    lemma_decimal_value(i);
    lemma_decimal_value(k);
    let di = decimal(i);
    let dk = decimal(k);
    let pi = placeholder(i);
    let pk = placeholder(k);
    assert(pi.len() == 12 + di.len() + 3);
    assert(pk.len() == 12 + dk.len() + 3);
    if di.len() < dk.len() {
        let o = (12 + di.len()) as int;
        lemma_occurs_char(s, pi, u, o);
        lemma_occurs_char(s, pk, u, o);
        assert(pi[o] == '-');
        assert(pk[o] == dk[o - 12]);
    } else if dk.len() < di.len() {
        let o = (12 + dk.len()) as int;
        lemma_occurs_char(s, pi, u, o);
        lemma_occurs_char(s, pk, u, o);
        assert(pk[o] == '-');
        assert(pi[o] == di[o - 12]);
    } else {
        assert forall|j: int| 0 <= j < di.len() implies di[j] == dk[j] by {
            lemma_occurs_char(s, pi, u, 12 + j);
            lemma_occurs_char(s, pk, u, 12 + j);
            assert(pi[12 + j] == di[j]);
            assert(pk[12 + j] == dk[j]);
        }
        assert(di =~= dk);
    }
}

/// The start that every placeholder shares.
pub open spec fn placeholder_prefix() -> Seq<char> {
    "<!--MERMAID:"@
}

proof fn lemma_placeholder_shape(n: nat)
    ensures
        lead_only(placeholder(n)),
        placeholder(n).len() >= 16,
        placeholder(n)[1] == '!',
        placeholder(n).subrange(0, 12) == placeholder_prefix(),
{
    reveal_strlit("<!--MERMAID:");
    reveal_strlit("-->");
    lemma_decimal_no_lt(n);
    lemma_decimal_nonempty(n);
    let p = placeholder(n);
    let d = decimal(n);
    assert forall|j: int| 1 <= j < p.len() implies p[j] != '<' by {
        if j < 12 {
        } else if j < 12 + d.len() {
            assert(p[j] == d[j - 12]);
        } else {
            assert(p[j] == "-->"@[j - 12 - d.len()]);
        }
    }
    assert(p.subrange(0, 12) =~= placeholder_prefix());
}

proof fn lemma_div_shape(b: Seq<char>, n: nat)
    requires
        !contains(b, placeholder_prefix()),
    ensures
        mermaid_div(b).len() >= 6,
        mermaid_div(b)[0] == '<',
        mermaid_div(b)[mermaid_div(b).len() - 6] == '<',
        mermaid_div(b)[mermaid_div(b).len() - 5] == '/',
        forall|u: int|
            mermaid_div(b).len() - 6 < u < mermaid_div(b).len() ==> #[trigger] mermaid_div(b)[u]
                != '<',
        !contains(mermaid_div(b), placeholder(n)),
{
    reveal_strlit("<div class=\"mermaid\">");
    reveal_strlit("</div>");
    lemma_placeholder_shape(n);
    let a = "<div class=\"mermaid\">"@;
    let c = "</div>"@;
    let d = mermaid_div(b);
    let p = placeholder(n);
    assert(a.len() == 21);
    assert(c.len() == 6);
    assert forall|u: int| d.len() - 6 <= u < d.len() implies d[u] == c[u - (d.len() - 6)] by {}
    if contains(d, p) {
        lemma_find_from(d, p, 0);
        let t = crate::text::find(d, p).unwrap();
        let w = d.subrange(t, t + p.len());
        assert(w == p);
        assert(w[0] == d[t]);
        if t < 21 {
            assert(d[t] == a[t]);
            if t == 0 {
                assert(w[1] == d[1]);
                assert(d[1] == a[1]);
            }
        } else if t >= 21 + b.len() {
            assert(d[t] == c[t - 21 - b.len()]);
            if t == 21 + b.len() {
                assert(w[1] == d[t + 1]);
                assert(d[t + 1] == c[1]);
            }
        } else if t + 12 <= 21 + b.len() {
            let bt = t - 21;
            assert(b.subrange(bt, bt + 12) =~= p.subrange(0, 12)) by {
                assert forall|i: int| 0 <= i < 12 implies b.subrange(bt, bt + 12)[i] == p.subrange(
                    0,
                    12,
                )[i] by {
                    assert(b[bt + i] == d[t + i]);
                    assert(w[i] == d[t + i]);
                    assert(p.subrange(0, 12)[i] == p[i]);
                }
            }
            lemma_occurs_contains(b, placeholder_prefix(), bt);
        } else {
            let o = 21 + b.len() - t;
            assert(1 <= o < 12);
            assert(w[o] == d[21 + b.len() as int]);
            assert(d[21 + b.len() as int] == c[0]);
        }
    }
}

/// After injection no placeholder of an injected block is left, provided the
/// blocks themselves hold no placeholder text: each block's placeholders, in
/// a paragraph of their own or bare, are all replaced, and replacing makes
/// none anew.
pub proof fn lemma_inject_leaves_no_placeholder(html: Seq<char>, blocks: Seq<Seq<char>>, k: int)
    requires
        0 <= k <= blocks.len(),
        forall|i: int| 0 <= i < blocks.len() ==> !contains(#[trigger] blocks[i], placeholder_prefix()),
    ensures
        forall|i: nat| i < k ==> !contains(inject_upto(html, blocks, k), #[trigger] placeholder(i)),
    decreases k,
{
    if k > 0 {
        lemma_inject_leaves_no_placeholder(html, blocks, k - 1);
        let n = (k - 1) as nat;
        let s = inject_upto(html, blocks, k - 1);
        let d = mermaid_div(blocks[k - 1]);
        let w = wrapped_placeholder(n);
        let p = placeholder(n);
        reveal_strlit("<p>");
        lemma_decimal_nonempty(n);
        assert(w.len() > 0);
        let x = replace_all(s, w, d);
        let t0 = d.len() - 6;
        assert forall|i: nat| i < k implies !contains(inject_upto(html, blocks, k), #[trigger] placeholder(i)) by {
            let q = placeholder(i);
            lemma_placeholder_shape(i);
            lemma_div_shape(blocks[k - 1], i);
            if i < n {
                assert(!contains(s, q));
                lemma_find_from(s, q, 0);
                lemma_replace_no_new(s, w, d, q, t0, 0);
                lemma_find_from(x, q, 0);
                lemma_replace_no_new(x, p, d, q, t0, 0);
                lemma_find_from(replace_all(x, p, d), q, 0);
            } else {
                assert(i == n);
                lemma_replace_no_new(x, p, d, q, t0, 0);
                lemma_find_from(replace_all(x, p, d), q, 0);
            }
        }
    }
}

proof fn lemma_wrapped_shape(n: nat)
    ensures
        wrapped_placeholder(n).len() == placeholder(n).len() + 7,
        occurs_at(wrapped_placeholder(n), placeholder(n), 3),
        wrapped_placeholder(n)[0] == '<',
        wrapped_placeholder(n)[1] == 'p',
        wrapped_placeholder(n)[placeholder(n).len() + 3int] == '<',
        wrapped_placeholder(n)[placeholder(n).len() + 4int] == '/',
        forall|j: int|
            placeholder(n).len() + 3 < j < placeholder(n).len() + 7 ==> #[trigger] wrapped_placeholder(
                n,
            )[j] != '<',
{
    reveal_strlit("<p>");
    reveal_strlit("</p>");
    let w = wrapped_placeholder(n);
    let p = placeholder(n);
    assert(w.subrange(3, 3 + p.len() as int) =~= p);
    assert forall|j: int| p.len() + 3 <= j < p.len() + 7 implies w[j] == "</p>"@[j - p.len() - 3] by {}
}

/// Two placeholders that overlap are the same placeholder.
proof fn lemma_placeholders_overlap(s: Seq<char>, i: nat, k: nat, u: int, t: int)
    requires
        occurs_at(s, placeholder(i), u),
        occurs_at(s, placeholder(k), t),
        u < t + placeholder(k).len(),
        t < u + placeholder(i).len(),
    ensures
        i == k,
{
    lemma_placeholder_shape(i);
    lemma_placeholder_shape(k);
    if u < t {
        lemma_occurs_char(s, placeholder(k), t, 0);
        lemma_occurs_char(s, placeholder(i), u, t - u);
    } else if t < u {
        lemma_occurs_char(s, placeholder(i), u, 0);
        lemma_occurs_char(s, placeholder(k), t, u - t);
    } else {
        lemma_placeholders_same_start(s, i, k, u);
    }
}

/// A placeholder cannot overlap a diagram element whose block holds no
/// placeholder text.
proof fn lemma_placeholder_div_apart(s: Seq<char>, i: nat, b: Seq<char>, t: int, v: int)
    requires
        occurs_at(s, mermaid_div(b), t),
        !contains(b, placeholder_prefix()),
        occurs_at(s, placeholder(i), v),
    ensures
        !(v < t + mermaid_div(b).len() && t < v + placeholder(i).len()),
{
    reveal_strlit("<div class=\"mermaid\">");
    reveal_strlit("</div>");
    lemma_placeholder_shape(i);
    let a = "<div class=\"mermaid\">"@;
    let c = "</div>"@;
    let d = mermaid_div(b);
    let p = placeholder(i);
    assert(a.len() == 21);
    assert(c.len() == 6);
    if v < t + d.len() && t < v + p.len() {
        if v < t {
            lemma_occurs_char(s, d, t, 0);
            lemma_occurs_char(s, p, v, t - v);
        } else if v == t {
            lemma_occurs_char(s, d, t, 1);
            lemma_occurs_char(s, p, v, 1);
        } else {
            lemma_occurs_char(s, p, v, 0);
            lemma_occurs_char(s, d, t, v - t);
            if v - t < 21 {
                assert(d[v - t] == a[v - t]);
            } else if v - t >= 21 + b.len() {
                assert(d[v - t] == c[v - t - 21 - b.len()]);
                if v - t == 21 + b.len() {
                    lemma_occurs_char(s, d, t, v - t + 1);
                    lemma_occurs_char(s, p, v, 1);
                    assert(d[v - t + 1] == c[1]);
                }
            } else if v + 12 <= t + 21 + b.len() {
                let bt = v - t - 21;
                assert forall|j: int| 0 <= j < 12 implies b.subrange(bt, bt + 12)[j]
                    == placeholder_prefix()[j] by {
                    lemma_occurs_char(s, d, t, v - t + j);
                    lemma_occurs_char(s, p, v, j);
                    assert(d[v - t + j] == b[bt + j]);
                    assert(p.subrange(0, 12)[j] == p[j]);
                }
                assert(b.subrange(bt, bt + 12) =~= placeholder_prefix());
                lemma_occurs_contains(b, placeholder_prefix(), bt);
            } else {
                let o = t + 21 + b.len() - v;
                lemma_occurs_char(s, d, t, 21 + b.len() as int);
                lemma_occurs_char(s, p, v, o);
                assert(d[21 + b.len() as int] == c[0]);
            }
        }
    }
}

/// A placeholder in a paragraph of its own cannot overlap a diagram element
/// whose block holds no placeholder text.
proof fn lemma_wrapped_div_apart(s: Seq<char>, i: nat, b: Seq<char>, t: int, u: int)
    requires
        occurs_at(s, mermaid_div(b), t),
        !contains(b, placeholder_prefix()),
        occurs_at(s, wrapped_placeholder(i), u),
    ensures
        !(u < t + mermaid_div(b).len() && t < u + wrapped_placeholder(i).len()),
{
    let d = mermaid_div(b);
    let w = wrapped_placeholder(i);
    let p = placeholder(i);
    lemma_wrapped_shape(i);
    lemma_div_shape(b, i);
    lemma_occurs_trans(s, w, p, u, 3);
    lemma_placeholder_div_apart(s, i, b, t, u + 3);
    reveal_strlit("<div class=\"mermaid\">");
    if u < t + d.len() && t < u + w.len() {
        if u + 3 + p.len() <= t {
            lemma_occurs_char(s, d, t, 0);
            lemma_occurs_char(s, w, u, t - u);
            assert(t - u == p.len() + 3);
            lemma_occurs_char(s, d, t, 1);
            lemma_occurs_char(s, w, u, t - u + 1);
            assert(d[1] == "<div class=\"mermaid\">"@[1]);
        } else {
            assert(u + 3 >= t + d.len());
            lemma_occurs_char(s, w, u, 0);
            lemma_occurs_char(s, d, t, u - t);
        }
    }
}

/// A placeholder in a paragraph of its own overlaps no other block's
/// placeholder.
proof fn lemma_wrapped_placeholder_apart(s: Seq<char>, m: nat, i: nat, u: int, t: int)
    requires
        occurs_at(s, wrapped_placeholder(m), u),
        occurs_at(s, placeholder(i), t),
        u < t + placeholder(i).len(),
        t < u + wrapped_placeholder(m).len(),
    ensures
        m == i,
{
    let w = wrapped_placeholder(m);
    let pm = placeholder(m);
    let pi = placeholder(i);
    lemma_wrapped_shape(m);
    lemma_placeholder_shape(i);
    lemma_placeholder_shape(m);
    lemma_occurs_trans(s, w, pm, u, 3);
    if u + 3 < t + pi.len() && t < u + 3 + pm.len() {
        lemma_placeholders_overlap(s, m, i, u + 3, t);
    } else if u + 3 + pm.len() <= t {
        lemma_occurs_char(s, pi, t, 0);
        lemma_occurs_char(s, w, u, t - u);
        assert(t - u == pm.len() + 3);
        lemma_occurs_char(s, pi, t, 1);
        lemma_occurs_char(s, w, u, t - u + 1);
    } else {
        lemma_occurs_char(s, w, u, 0);
        lemma_occurs_char(s, pi, t, u - t);
    }
}

/// A block's placeholder stays in the HTML while earlier blocks are injected.
proof fn lemma_placeholder_survives(html: Seq<char>, blocks: Seq<Seq<char>>, j: int, i: nat)
    requires
        0 <= j <= i,
        contains(html, placeholder(i)),
    ensures
        contains(inject_upto(html, blocks, j), placeholder(i)),
    decreases j,
{
    if j > 0 {
        lemma_placeholder_survives(html, blocks, j - 1, i);
        let m = (j - 1) as nat;
        let s = inject_upto(html, blocks, j - 1);
        let d = mermaid_div(blocks[j - 1]);
        let w = wrapped_placeholder(m);
        let pm = placeholder(m);
        let pi = placeholder(i);
        lemma_wrapped_shape(m);
        lemma_placeholder_shape(m);
        lemma_placeholder_shape(i);
        lemma_find_from(s, pi, 0);
        let t = crate::text::find(s, pi).unwrap();
        assert forall|u: int| occurs_at(s, w, u) implies u + w.len() <= t || u >= t + pi.len() by {
            if !(u + w.len() <= t || u >= t + pi.len()) {
                lemma_wrapped_placeholder_apart(s, m, i, u, t);
            }
        }
        lemma_replace_keeps(s, w, d, pi, t, 0);
        let x = replace_all(s, w, d);
        lemma_find_from(x, pi, 0);
        let t2 = crate::text::find(x, pi).unwrap();
        assert forall|u: int| occurs_at(x, pm, u) implies u + pm.len() <= t2 || u >= t2 + pi.len() by {
            if !(u + pm.len() <= t2 || u >= t2 + pi.len()) {
                lemma_placeholders_overlap(x, m, i, u, t2);
            }
        }
        lemma_replace_keeps(x, pm, d, pi, t2, 0);
    }
}

/// Every injected block whose placeholder the HTML holds shows as its diagram
/// element, provided the blocks hold no placeholder text: later injections do
/// not disturb an element already in place.
pub proof fn lemma_inject_shows_every_diagram(html: Seq<char>, blocks: Seq<Seq<char>>, k: int)
    requires
        0 <= k <= blocks.len(),
        forall|i: int| 0 <= i < blocks.len() ==> !contains(#[trigger] blocks[i], placeholder_prefix()),
    ensures
        forall|i: int|
            0 <= i < k && contains(html, placeholder(i as nat)) ==> contains(
                inject_upto(html, blocks, k),
                #[trigger] mermaid_div(blocks[i]),
            ),
    decreases k,
{
    if k > 0 {
        lemma_inject_shows_every_diagram(html, blocks, k - 1);
        let m = (k - 1) as nat;
        let s = inject_upto(html, blocks, k - 1);
        let dm = mermaid_div(blocks[k - 1]);
        let w = wrapped_placeholder(m);
        let pm = placeholder(m);
        lemma_wrapped_shape(m);
        lemma_placeholder_shape(m);
        assert forall|i: int|
            0 <= i < k && contains(html, placeholder(i as nat)) implies contains(
            inject_upto(html, blocks, k),
            #[trigger] mermaid_div(blocks[i]),
        ) by {
            if i == k - 1 {
                lemma_placeholder_survives(html, blocks, k - 1, m);
                lemma_inject_shows_diagram(s, m, blocks[k - 1]);
            } else {
                let b = blocks[i];
                let di = mermaid_div(b);
                lemma_div_shape(b, m);
                assert(contains(s, di));
                lemma_find_from(s, di, 0);
                let t = crate::text::find(s, di).unwrap();
                assert forall|u: int| occurs_at(s, w, u) implies u + w.len() <= t || u >= t
                    + di.len() by {
                    lemma_wrapped_div_apart(s, m, b, t, u);
                }
                lemma_replace_keeps(s, w, dm, di, t, 0);
                let x = replace_all(s, w, dm);
                lemma_find_from(x, di, 0);
                let t2 = crate::text::find(x, di).unwrap();
                assert forall|u: int| occurs_at(x, pm, u) implies u + pm.len() <= t2 || u >= t2
                    + di.len() by {
                    lemma_placeholder_div_apart(x, m, b, t2, u);
                }
                lemma_replace_keeps(x, pm, dm, di, t2, 0);
            }
        }
    }
}

/// Injection puts every diagram in place: when no block holds placeholder
/// text, each block whose placeholder the HTML holds appears as its
/// `<div class="mermaid">` element, and no block's placeholder is left.
pub proof fn lemma_injection_shows_diagrams(html: Seq<char>, blocks: Seq<Seq<char>>)
    requires
        forall|i: int| 0 <= i < blocks.len() ==> !contains(#[trigger] blocks[i], placeholder_prefix()),
    ensures
        forall|i: int|
            0 <= i < blocks.len() && contains(html, placeholder(i as nat)) ==> contains(
                inject_spec(html, blocks),
                #[trigger] mermaid_div(blocks[i]),
            ),
        forall|i: nat| i < blocks.len() ==> !contains(inject_spec(html, blocks), #[trigger] placeholder(i)),
{
    lemma_inject_shows_every_diagram(html, blocks, blocks.len() as int);
    lemma_inject_leaves_no_placeholder(html, blocks, blocks.len() as int);
}

/// The number of heading starts among `evs`.
pub open spec fn heading_count(evs: Seq<MdEventView>) -> nat
    decreases evs.len(),
{
    if evs.len() == 0 {
        0
    } else {
        heading_count(evs.drop_last()) + if evs.last() is HeadingStart {
            1nat
        } else {
            0nat
        }
    }
}

/// Every heading is written with the tag of its own level: the tag of level
/// `n` is `h` followed by the digit of `n`, and a lone heading without an id
/// whose text is `t` renders as `<hn id="heading-0">t</hn>`.
pub proof fn lemma_heading_tag_of_level(l: Level, t: Seq<char>)
    ensures
        heading_tag_spec(Level::H1) == seq!['h', '1'],
        heading_tag_spec(Level::H2) == seq!['h', '2'],
        heading_tag_spec(Level::H3) == seq!['h', '3'],
        heading_tag_spec(Level::H4) == seq!['h', '4'],
        heading_tag_spec(Level::H5) == seq!['h', '5'],
        heading_tag_spec(Level::H6) == seq!['h', '6'],
        render_events_spec(
            seq![
                MdEventView::HeadingStart { level: l, id: None, classes: Seq::empty() },
                MdEventView::Text(t),
                MdEventView::HeadingEnd,
            ],
        ) == seq!['<', 'h', digit_char(level_number(l))] + " id=\"heading-0\">"@ + escape_text(t)
            + seq!['<', '/', 'h', digit_char(level_number(l)), '>'],
{
    reveal_strlit(" id=\"");
    reveal_strlit(" id=\"heading-0\">");
    reveal_strlit("heading-0");
    lemma_heading_render(l, None, Seq::empty(), t);
    assert(" id=\""@ + "heading-0"@ + seq!['"'] + Seq::<char>::empty() + seq!['>'] =~= " id=\"heading-0\">"@);
}

/// A heading is written as its text, escaped, between the opening and the
/// closing tag of its level; the opening tag carries its explicit id, or
/// `heading-0` for the first heading without one, and a `class` attribute
/// with its classes joined by spaces when it has any.
pub proof fn lemma_heading_render(
    l: Level,
    id: Option<Seq<char>>,
    classes: Seq<Seq<char>>,
    t: Seq<char>,
)
    ensures
        render_events_spec(
            seq![
                MdEventView::HeadingStart { level: l, id: id, classes: classes },
                MdEventView::Text(t),
                MdEventView::HeadingEnd,
            ],
        ) == seq!['<', 'h', digit_char(level_number(l))] + " id=\""@ + (match id {
            Some(x) => x,
            None => "heading-0"@,
        }) + seq!['"'] + (if classes.len() == 0 {
            Seq::empty()
        } else {
            " class=\""@ + join(classes, seq![' ']) + seq!['"']
        }) + seq!['>'] + escape_text(t) + seq!['<', '/', 'h', digit_char(level_number(l)), '>'],
{
    let h0 = MdEventView::HeadingStart { level: l, id: id, classes: classes };
    let evs = seq![h0, MdEventView::Text(t), MdEventView::HeadingEnd];
    let d = digit_char(level_number(l));
    reveal_strlit("heading-");
    reveal_strlit("heading-0");
    let e0 = seq![h0];
    let e1 = e0 + seq![MdEventView::Text(t)];
    assert(evs.drop_last() =~= e1);
    assert(e1.drop_last() =~= e0);
    assert(e0.drop_last() =~= Seq::<MdEventView>::empty());
    assert(decimal(0) =~= seq!['0']);
    assert(anchor_id(None, 0) =~= "heading-0"@);
    let open = heading_open(l, anchor_id(id, 0), classes);
    assert(e0.last() == h0);
    assert(e1.last() == MdEventView::Text(t));
    assert(evs.last() == MdEventView::HeadingEnd);
    let z = run(Seq::<MdEventView>::empty());
    assert(z.0 == initial_state());
    let r0 = run(e0);
    assert(r0 == (step(z.0, h0).0, z.1 + step(z.0, h0).1));
    assert(r0.1 =~= open);
    assert(r0.0.heading == Some(l));
    let r1 = run(e1);
    assert(r1 == (step(r0.0, MdEventView::Text(t)).0, r0.1 + step(r0.0, MdEventView::Text(t)).1));
    assert(r1.0.in_code == false);
    assert(r1.1 =~= open + escape_text(t));
    assert(heading_close(l) =~= seq!['<', '/', 'h', d, '>']);
}

/// A code block is written as its text, escaped, inside `<pre><code>`, with a
/// `language-…` class when it names a language; text outside a code block is
/// written escaped, and any other event is written as it is.
pub proof fn lemma_code_block_render(lang: Seq<char>, t: Seq<char>, h: Seq<char>)
    ensures
        render_events_spec(
            seq![
                MdEventView::CodeBlockStart { lang: Some(lang) },
                MdEventView::Text(t),
                MdEventView::CodeBlockEnd,
            ],
        ) == "<pre><code"@ + (if lang.len() == 0 {
            Seq::empty()
        } else {
            " class=\"language-"@ + attr_escape_text(lang) + seq!['"']
        }) + seq!['>'] + escape_text(t) + "</code></pre>\n"@,
        render_events_spec(
            seq![
                MdEventView::CodeBlockStart { lang: None },
                MdEventView::Text(t),
                MdEventView::CodeBlockEnd,
            ],
        ) == "<pre><code>"@ + escape_text(t) + "</code></pre>\n"@,
        render_events_spec(seq![MdEventView::Text(t)]) == escape_text(t),
        render_events_spec(seq![MdEventView::Other(h)]) == h,
{
    reveal_strlit("<pre><code");
    reveal_strlit("<pre><code>");
    let z = run(Seq::<MdEventView>::empty());
    assert(z.0 == initial_state());
    assert(z.1 == Seq::<char>::empty());
    let one_t = seq![MdEventView::Text(t)];
    assert(one_t.drop_last() =~= Seq::<MdEventView>::empty());
    assert(run(one_t).1 =~= escape_text(t));
    let one_h = seq![MdEventView::Other(h)];
    assert(one_h.drop_last() =~= Seq::<MdEventView>::empty());
    assert(run(one_h).1 =~= h);
    lemma_code_block_run(Some(lang), t);
    lemma_code_block_run(None, t);
    assert("<pre><code"@ + Seq::<char>::empty() + seq!['>'] =~= "<pre><code>"@);
}

proof fn lemma_code_block_run(lang: Option<Seq<char>>, t: Seq<char>)
    ensures
        render_events_spec(
            seq![
                MdEventView::CodeBlockStart { lang: lang },
                MdEventView::Text(t),
                MdEventView::CodeBlockEnd,
            ],
        ) == code_block_html(
            match lang {
                Some(x) => x,
                None => Seq::empty(),
            },
            t,
        ),
{
    let s0 = MdEventView::CodeBlockStart { lang: lang };
    let e0 = seq![s0];
    let e1 = e0 + seq![MdEventView::Text(t)];
    let evs = e1 + seq![MdEventView::CodeBlockEnd];
    assert(evs =~= seq![s0, MdEventView::Text(t), MdEventView::CodeBlockEnd]);
    assert(evs.drop_last() =~= e1);
    assert(e1.drop_last() =~= e0);
    assert(e0.drop_last() =~= Seq::<MdEventView>::empty());
    assert(e0.last() == s0);
    assert(e1.last() == MdEventView::Text(t));
    assert(evs.last() == MdEventView::CodeBlockEnd);
    let z = run(Seq::<MdEventView>::empty());
    assert(z.0 == initial_state());
    let r0 = run(e0);
    assert(r0 == (step(z.0, s0).0, z.1 + step(z.0, s0).1));
    assert(r0.0.in_code);
    assert(r0.0.code == Seq::<char>::empty());
    assert(r0.1 =~= Seq::<char>::empty());
    let r1 = run(e1);
    assert(r1 == (step(r0.0, MdEventView::Text(t)).0, r0.1 + step(r0.0, MdEventView::Text(t)).1));
    assert(r1.0.code =~= t);
    assert(r1.1 =~= Seq::<char>::empty());
    let r2 = run(evs);
    assert(r2.1 =~= code_block_html(r1.0.lang, t));
}

/// Anchors are numbered in document order: after any events the renderer's
/// counter is the number of headings so far, so a heading without an explicit
/// id gets `heading-N` with `N` the number of headings before it.
pub proof fn lemma_anchor_numbering(evs: Seq<MdEventView>)
    ensures
        run(evs).0.counter == heading_count(evs),
    decreases evs.len(),
{
    if evs.len() > 0 {
        lemma_anchor_numbering(evs.drop_last());
    }
}

} // verus!
